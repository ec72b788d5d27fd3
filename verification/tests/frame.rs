use acfun_live_toolbox::frame::{
    convert_key, decode, decrypt, encode, encode_with_iv, encrypt, encrypt_with_iv,
    try_convert_key, DecodeError,
};
use acfun_live_toolbox::messages::PacketHeader;

/// Appends a varint field, as protobuf writes it.
fn push_varint_field(out: &mut Vec<u8>, field: u32, v: u64) {
    let mut os = protobuf::CodedOutputStream::vec(out);
    os.write_uint64(field, v).unwrap();
    os.flush().unwrap();
}

/// Appends a length-delimited field, as protobuf writes it.
fn push_len_field(out: &mut Vec<u8>, field: u32, b: &[u8]) {
    let mut os = protobuf::CodedOutputStream::vec(out);
    os.write_bytes(field, b).unwrap();
    os.flush().unwrap();
}

fn header(dlen: u32, mode: i32, seq: i64) -> Vec<u8> {
    PacketHeader {
        app_id: 13,
        uid: 1,
        instance_id: 0,
        decoded_payload_len: dlen,
        encryption_mode: mode,
        token_info: None,
        seq_id: seq,
        kpn: String::new(),
    }
    .to_bytes()
}

/// A frame as the link server lays it out for the reader: the prefix, the
/// header from byte 12, and the payload after the header end that the
/// prefix gives (12 + the header's length) plus 12 more bytes.
fn inbound(header: &[u8], payload_len: u32, payload: &[u8]) -> Vec<u8> {
    let mut d = vec![0xAB, 0xCD, 0x00, 0x01];
    d.extend_from_slice(&((12 + header.len()) as u32).to_be_bytes());
    d.extend_from_slice(&payload_len.to_be_bytes());
    d.extend_from_slice(header);
    d.extend_from_slice(&[0u8; 12]);
    d.extend_from_slice(payload);
    d
}

fn ping(seq: u64) -> Vec<u8> {
    let mut p = Vec::new();
    push_len_field(&mut p, 1, b"Basic.Ping");
    push_varint_field(&mut p, 2, seq);
    p
}

#[test]
fn key_of_base64_token() {
    let key: Vec<u8> = (0u8..32).collect();
    let token = base64::encode(&key);
    assert_eq!(convert_key(&token).to_vec(), key);
    assert_eq!(try_convert_key(&token).map(|k| k.to_vec()), Some(key));
}

#[test]
fn key_of_bad_token_is_refused() {
    assert!(try_convert_key(&String::from("not base64!")).is_none());
    assert!(try_convert_key(&base64::encode([1u8; 16])).is_none());
}

#[test]
fn encryption_is_undone_by_decryption() {
    let key = [7u8; 32];
    let iv = [1u8; 16];
    let e = encrypt_with_iv(&key, &iv, b"hello");
    assert_eq!(e.len(), 32);
    assert_eq!(&e[..16], &iv);
    assert_ne!(&e[16..21], b"hello");
    assert_eq!(decrypt(&key, &e), Some(b"hello".to_vec()));
}

#[test]
fn random_iv_encryption_is_undone() {
    let key = [3u8; 32];
    let body = vec![0x42u8; 16];
    let e = encrypt(&key, body.clone());
    assert_eq!(e.len(), 16 + 32);
    assert_eq!(decrypt(&key, &e), Some(body));
}

#[test]
fn cut_ciphertext_does_not_decrypt() {
    let key = [7u8; 32];
    let e = encrypt_with_iv(&key, &[1u8; 16], b"hello");
    assert_eq!(decrypt(&key, &e[..20]), None);
}

#[test]
fn encoded_frame_layout() {
    let key = [7u8; 32];
    let iv = [2u8; 16];
    let f = encode_with_iv(vec![1, 2, 3], vec![], &key, &iv);
    assert_eq!(f.len(), 2 * (12 + 3 + 32) + 8);
    assert!(f[..47].iter().all(|b| *b == 0));
    assert_eq!(&f[47..51], &[0xAB, 0xCD, 0x00, 0x01]);
    assert_eq!(&f[51..59], &3u64.to_be_bytes());
    assert_eq!(&f[59..67], &32u64.to_be_bytes());
    assert_eq!(&f[67..70], &[1, 2, 3]);
    assert_eq!(&f[70..86], &iv);
    assert_eq!(decrypt(&key, &f[70..]), Some(vec![]));
}

#[test]
fn own_frame_does_not_read_back() {
    let key = [7u8; 32];
    let f = encode(header(2, 2, 1), vec![8, 1], &key);
    assert_eq!(decode(&f, &key, &key).err(), Some(DecodeError::HeaderOutOfRange));
}

#[test]
fn short_frame() {
    let k = [0u8; 32];
    assert_eq!(decode(&vec![0u8; 11], &k, &k).err(), Some(DecodeError::ShortFrame));
}

#[test]
fn plain_frame_reads() {
    let k = [0u8; 32];
    let p = ping(4);
    let f = inbound(&header(p.len() as u32, 0, 4), p.len() as u32, &p);
    let (h, d) = decode(&f, &k, &k).unwrap();
    assert_eq!(h.app_id, 13);
    assert_eq!(h.seq_id, 4);
    assert_eq!(h.decoded_payload_len as usize, p.len());
    assert_eq!(d.command, "Basic.Ping");
    assert_eq!(d.seq_id, 4);
}

#[test]
fn session_key_frame_reads() {
    let sec = [1u8; 32];
    let sess = [9u8; 32];
    let p = ping(6);
    let e = encrypt_with_iv(&sess, &[5u8; 16], &p);
    let f = inbound(&header(p.len() as u32, 2, 6), e.len() as u32, &e);
    let (h, d) = decode(&f, &sec, &sess).unwrap();
    assert_eq!(h.encryption_mode, 2);
    assert_eq!(d.command, "Basic.Ping");
    assert_eq!(d.seq_id, 6);
    assert!(decode(&f, &sess, &sec).is_err());
}

#[test]
fn service_token_frame_reads() {
    let sec = [1u8; 32];
    let sess = [9u8; 32];
    let p = ping(2);
    let e = encrypt_with_iv(&sec, &[5u8; 16], &p);
    let f = inbound(&header(p.len() as u32, 1, 2), e.len() as u32, &e);
    let (_, d) = decode(&f, &sec, &sess).unwrap();
    assert_eq!(d.seq_id, 2);
}

#[test]
fn header_end_beyond_frame() {
    let k = [0u8; 32];
    let mut f = inbound(&header(0, 0, 0), 0, &[]);
    f[4..8].copy_from_slice(&1000u32.to_be_bytes());
    assert_eq!(decode(&f, &k, &k).err(), Some(DecodeError::HeaderOutOfRange));
}

#[test]
fn bad_header() {
    let k = [0u8; 32];
    let f = inbound(&[0x07], 0, &[]);
    assert_eq!(decode(&f, &k, &k).err(), Some(DecodeError::BadHeader));
}

#[test]
fn unknown_encryption() {
    let k = [0u8; 32];
    let f = inbound(&[0x40, 0x05], 0, &[]);
    assert_eq!(decode(&f, &k, &k).err(), Some(DecodeError::UnknownEncryption));
}

#[test]
fn payload_length_mismatch() {
    let k = [0u8; 32];
    let p = ping(1);
    let f = inbound(&header(p.len() as u32, 0, 1), p.len() as u32 + 1, &p);
    assert_eq!(decode(&f, &k, &k).err(), Some(DecodeError::PayloadLengthMismatch));
    let e = encrypt_with_iv(&k, &[5u8; 16], &p);
    let f = inbound(&header(p.len() as u32 + 1, 2, 1), e.len() as u32, &e);
    assert_eq!(decode(&f, &k, &k).err(), Some(DecodeError::PayloadLengthMismatch));
}

#[test]
fn payload_out_of_range() {
    let k = [0u8; 32];
    let h = header(0, 0, 0);
    let mut f = vec![0xAB, 0xCD, 0x00, 0x01];
    f.extend_from_slice(&((12 + h.len()) as u32).to_be_bytes());
    f.extend_from_slice(&0u32.to_be_bytes());
    f.extend_from_slice(&h);
    assert_eq!(decode(&f, &k, &k).err(), Some(DecodeError::PayloadOutOfRange));
}

#[test]
fn short_ciphertext() {
    let k = [0u8; 32];
    let f = inbound(&[0x40, 0x02], 10, &[0u8; 10]);
    assert_eq!(decode(&f, &k, &k).err(), Some(DecodeError::ShortCiphertext));
}

#[test]
fn bad_ciphertext() {
    let k = [0u8; 32];
    let f = inbound(&[0x40, 0x02], 21, &[0u8; 21]);
    assert_eq!(decode(&f, &k, &k).err(), Some(DecodeError::BadCiphertext));
}

#[test]
fn bad_payload() {
    let k = [0u8; 32];
    let f = inbound(&header(1, 0, 0), 1, &[0x07]);
    assert_eq!(decode(&f, &k, &k).err(), Some(DecodeError::BadPayload));
}
