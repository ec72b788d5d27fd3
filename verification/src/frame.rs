//! Frames of the danmaku link: the keys, the AES-256-CBC encryption of the
//! payload, and the layout of a frame that the client writes and reads.
use crate::messages::{
    DownstreamPayload, PacketHeader, ENCRYPTION_NONE, ENCRYPTION_SERVICE_TOKEN,
    ENCRYPTION_SESSION_KEY,
};
use aes::cipher::block_padding::Pkcs7;
use aes::cipher::{BlockDecryptMut, BlockEncryptMut, KeyIvInit};
use vstd::prelude::*;

verus! {

/// Where the header starts in a frame.
pub const HEADER_OFFSET: usize = 12;

/// What `base64::decode` (standard alphabet, padded) gives for `s`, or
/// `None` where it reports an error.
pub uninterp spec fn base64_decoded(s: Seq<u8>) -> Option<Seq<u8>>;

/// The AES-256-CBC encryption with PKCS#7 padding of `plain` under `key`
/// and `iv`.
pub uninterp spec fn aes256_cbc_encrypted(key: Seq<u8>, iv: Seq<u8>, plain: Seq<u8>) -> Seq<u8>;

/// The AES-256-CBC decryption with PKCS#7 padding of `cipher` under `key`
/// and `iv`, or `None` where the length or the padding is wrong.
pub uninterp spec fn aes256_cbc_decrypted(key: Seq<u8>, iv: Seq<u8>, cipher: Seq<u8>) -> Option<
    Seq<u8>,
>;

/// Decodes standard base64.
///
/// Calls `base64::decode`; its result is named `base64_decoded`, `None`
/// standing for the `DecodeError` it returns.
#[verifier::external_body]
pub(crate) fn base64_decode(s: &[u8]) -> (r: Option<Vec<u8>>)
    ensures
        match r {
            Some(v) => base64_decoded(s@) == Some(v@),
            None => base64_decoded(s@) is None,
        },
{
    base64::decode(s).ok()
}

/// A fresh random initialization vector.
///
/// Calls `cbc::Encryptor::<aes::Aes256>::generate_iv` with `rand::thread_rng()`:
/// sixteen random bytes, of which nothing more is stated.
#[verifier::external_body]
pub(crate) fn generate_iv() -> (iv: [u8; 16]) {
    cbc::Encryptor::<aes::Aes256>::generate_iv(rand::thread_rng()).into()
}

/// Encrypts `body` with AES-256-CBC and PKCS#7 padding.
///
/// Calls `encrypt_padded_vec_mut::<Pkcs7>` on a `cbc::Encryptor<aes::Aes256>`
/// made from `key` and `iv`; its result is named `aes256_cbc_encrypted`.
/// PKCS#7 pads the body with 1 to 16 bytes up to a whole number of 16-byte
/// blocks, and CBC gives one block of ciphertext per block of input; CBC
/// decryption under the same key and IV, then PKCS#7 unpadding, gives the
/// body back.
#[verifier::external_body]
pub(crate) fn cbc_encrypt(key: &[u8; 32], iv: &[u8; 16], body: &[u8]) -> (r: Vec<u8>)
    ensures
        r@ == aes256_cbc_encrypted(key@, iv@, body@),
        r@.len() == (body@.len() / 16 + 1) * 16,
        aes256_cbc_decrypted(key@, iv@, r@) == Some(body@),
{
    cbc::Encryptor::<aes::Aes256>::new(key.into(), iv.into()).encrypt_padded_vec_mut::<Pkcs7>(body)
}

/// Decrypts `body` with AES-256-CBC and PKCS#7 padding.
///
/// Calls `decrypt_padded_vec_mut::<Pkcs7>` on a `cbc::Decryptor<aes::Aes256>`
/// made from `key` and `iv`; its result is named `aes256_cbc_decrypted`,
/// `None` standing for the `UnpadError` it returns.
#[verifier::external_body]
pub(crate) fn cbc_decrypt(key: &[u8; 32], iv: &[u8], body: &[u8]) -> (r: Option<Vec<u8>>)
    requires
        iv@.len() == 16,
    ensures
        match r {
            Some(v) => aes256_cbc_decrypted(key@, iv@, body@) == Some(v@),
            None => aes256_cbc_decrypted(key@, iv@, body@) is None,
        },
{
    cbc::Decryptor::<aes::Aes256>::new(key.into(), iv.into())
        .decrypt_padded_vec_mut::<Pkcs7>(body)
        .ok()
}

/// Copies 32 bytes into a key.
pub fn key_from_slice(b: &[u8]) -> (k: [u8; 32])
    requires
        b@.len() == 32,
    ensures
        k@ == b@,
{
    let mut k: [u8; 32] = [0u8; 32];
    let mut i: usize = 0;
    while i < 32
        invariant
            i <= 32,
            b@.len() == 32,
            forall|j: int| 0 <= j < i ==> k@[j] == b@[j],
        decreases 32 - i,
    {
        k[i] = b[i];
        i = i + 1;
    }
    assert(k@ =~= b@);
    k
}


/// The key that the base64 text `token` decodes to, when it decodes to 32
/// bytes.
pub open spec fn key_of_token(token: Seq<char>) -> Option<Seq<u8>> {
    match base64_decoded(vstd::utf8::encode_utf8(token)) {
        Some(k) => if k.len() == 32 {
            Some(k)
        } else {
            None
        },
        None => None,
    }
}

/// Decodes a base64 key of 32 bytes.
pub fn convert_key(token: &String) -> (k: [u8; 32])
    requires
        key_of_token(token@) is Some,
    ensures
        key_of_token(token@) == Some(k@),
{
    let b = base64_decode(token.as_str().as_bytes());
    match b {
        Some(v) => key_from_slice(v.as_slice()),
        None => [0u8; 32],
    }
}

/// Decodes a base64 key of 32 bytes, or gives `None` where the text is not
/// base64 of 32 bytes.
pub fn try_convert_key(token: &String) -> (r: Option<[u8; 32]>)
    ensures
        match r {
            Some(k) => key_of_token(token@) == Some(k@),
            None => key_of_token(token@) is None,
        },
{
    match base64_decode(token.as_str().as_bytes()) {
        Some(v) => if v.len() == 32 {
            Some(convert_key(token))
        } else {
            None
        },
        None => None,
    }
}

/// The big-endian bytes of `v`, eight of them.
pub open spec fn be_u64_bytes(v: nat) -> Seq<u8> {
    seq![
        ((v / 0x100000000000000) % 256) as u8,
        ((v / 0x1000000000000) % 256) as u8,
        ((v / 0x10000000000) % 256) as u8,
        ((v / 0x100000000) % 256) as u8,
        ((v / 0x1000000) % 256) as u8,
        ((v / 0x10000) % 256) as u8,
        ((v / 0x100) % 256) as u8,
        (v % 256) as u8,
    ]
}

/// The frame that `encode` writes for `header` and the encrypted `payload`:
/// as many zero bytes as the header, the payload and the 12 bytes of the
/// prefix take together, then the magic `AB CD 00 01`, the lengths of the
/// header and of the payload as 8 big-endian bytes each (the width of a
/// `usize` on the 64-bit targets the client runs on), the header and the
/// payload.
pub open spec fn frame_bytes(header: Seq<u8>, payload: Seq<u8>) -> Seq<u8> {
    Seq::new((12 + header.len() + payload.len()) as nat, |i: int| 0u8) + seq![
        0xABu8,
        0xCDu8,
        0x00u8,
        0x01u8,
    ] + be_u64_bytes(header.len()) + be_u64_bytes(payload.len()) + header + payload
}

/// The length of the encrypted form of a body of `n` bytes: the IV and the
/// padded ciphertext.
pub open spec fn encrypted_len(n: nat) -> nat {
    16 + (n / 16 + 1) * 16
}

/// The length of the frame for a header of `h` bytes and a body of `n`:
/// the zeros, the 20 bytes of magic and lengths, the header and the
/// encrypted body.
pub open spec fn frame_len(h: nat, n: nat) -> nat {
    2 * (16 + h + encrypted_len(n))
}

/// The encrypted form of `body`: the IV, then the AES-256-CBC ciphertext.
pub open spec fn encrypted(key: Seq<u8>, iv: Seq<u8>, body: Seq<u8>) -> Seq<u8> {
    iv + aes256_cbc_encrypted(key, iv, body)
}

/// Whether `e`, an IV followed by ciphertext, decrypts under `key` to
/// `body`.
pub open spec fn decrypts_to(key: Seq<u8>, e: Seq<u8>, body: Seq<u8>) -> bool {
    e.len() >= 16 && aes256_cbc_decrypted(key, e.take(16), e.skip(16)) == Some(body)
}

/// Encrypts `body` under `key` with the IV `iv`, which comes first. What it
/// gives decrypts under the same key to `body`.
pub fn encrypt_with_iv(key: &[u8; 32], iv: &[u8; 16], body: &[u8]) -> (r: Vec<u8>)
    ensures
        r@ == encrypted(key@, iv@, body@),
        r@.len() == encrypted_len(body@.len()),
        decrypts_to(key@, r@, body@),
{
    let mut result = vstd::slice::slice_to_vec(iv.as_slice());
    let mut encrypted = cbc_encrypt(key, iv, body);
    let ghost c = encrypted@;
    result.append(&mut encrypted);
    assert(result@.take(16) =~= iv@);
    assert(result@.skip(16) =~= c);
    result
}

/// Encrypts `body` under `key` with a fresh random IV, which comes first.
/// What it gives decrypts under the same key to `body`.
pub fn encrypt(key: &[u8; 32], body: Vec<u8>) -> (r: Vec<u8>)
    ensures
        exists|iv: Seq<u8>| iv.len() == 16 && r@ == encrypted(key@, iv, body@),
        r@.len() == encrypted_len(body@.len()),
        decrypts_to(key@, r@, body@),
{
    let iv = generate_iv();
    encrypt_with_iv(key, &iv, body.as_slice())
}

/// Appends the eight big-endian bytes of `v`.
fn push_be_u64(buf: &mut Vec<u8>, v: u64)
    ensures
        final(buf)@ == old(buf)@ + be_u64_bytes(v as nat),
{
    buf.push(((v / 0x100000000000000) % 256) as u8);
    buf.push(((v / 0x1000000000000) % 256) as u8);
    buf.push(((v / 0x10000000000) % 256) as u8);
    buf.push(((v / 0x100000000) % 256) as u8);
    buf.push(((v / 0x1000000) % 256) as u8);
    buf.push(((v / 0x10000) % 256) as u8);
    buf.push(((v / 0x100) % 256) as u8);
    buf.push((v % 256) as u8);
    assert(final(buf)@ =~= old(buf)@ + be_u64_bytes(v as nat));
}

/// Frames `header` and the already encrypted `encrypted`.
fn frame(mut header: Vec<u8>, mut encrypted: Vec<u8>) -> (r: Vec<u8>)
    requires
        2 * (12 + header@.len() + encrypted@.len()) <= usize::MAX,
    ensures
        r@ == frame_bytes(header@, encrypted@),
{
    let header_len = header.len();
    let payload_len = encrypted.len();
    let mut buf = vec![0u8; HEADER_OFFSET + header_len + payload_len];
    let ghost zeros = buf@;
    assert(zeros =~= Seq::new((12 + header@.len() + encrypted@.len()) as nat, |i: int| 0u8));
    buf.push(0xAB);
    buf.push(0xCD);
    buf.push(0x00);
    buf.push(0x01);
    push_be_u64(&mut buf, header_len as u64);
    push_be_u64(&mut buf, payload_len as u64);
    let ghost h = header@;
    let ghost p = encrypted@;
    buf.append(&mut header);
    buf.append(&mut encrypted);
    assert(buf@ =~= frame_bytes(h, p));
    buf
}

/// Frames `header` and `body` encrypted under `key` with the IV `iv`; the
/// encrypted part decrypts under `key` to `body`.
pub fn encode_with_iv(header: Vec<u8>, body: Vec<u8>, key: &[u8; 32], iv: &[u8; 16]) -> (r: Vec<u8>)
    requires
        frame_len(header@.len(), body@.len()) <= usize::MAX,
    ensures
        r@ == frame_bytes(header@, encrypted(key@, iv@, body@)),
        decrypts_to(key@, encrypted(key@, iv@, body@), body@),
{
    let encrypted = encrypt_with_iv(key, iv, body.as_slice());
    frame(header, encrypted)
}

/// Frames `header` and `body` encrypted under `key` with a fresh random IV;
/// the encrypted part decrypts under `key` to `body`.
pub fn encode(header: Vec<u8>, body: Vec<u8>, key: &[u8; 32]) -> (r: Vec<u8>)
    requires
        frame_len(header@.len(), body@.len()) <= usize::MAX,
    ensures
        exists|iv: Seq<u8>|
            {
                &&& iv.len() == 16
                &&& r@ == frame_bytes(header@, encrypted(key@, iv, body@))
                &&& decrypts_to(key@, encrypted(key@, iv, body@), body@)
            },
{
    let ghost h = header@;
    let ghost b = body@;
    let sealed = encrypt(key, body);
    let ghost iv = choose|iv: Seq<u8>| iv.len() == 16 && sealed@ == encrypted(key@, iv, b);
    let r = frame(header, sealed);
    assert(iv.len() == 16 && r@ == frame_bytes(h, encrypted(key@, iv, b)) && decrypts_to(
        key@,
        encrypted(key@, iv, b),
        b,
    ));
    r
}


/// Why a frame could not be read.
#[derive(Debug, Clone, Copy, PartialEq, Eq)]
pub enum DecodeError {
    /// The frame is shorter than its 12-byte prefix.
    ShortFrame,
    /// The header end that the prefix gives lies before byte 12 or beyond
    /// the frame.
    HeaderOutOfRange,
    /// The header is not a `PacketHeader`.
    BadHeader,
    /// The header names an encryption mode that does not exist.
    UnknownEncryption,
    /// The payload would start beyond the end of the frame.
    PayloadOutOfRange,
    /// The encrypted payload is shorter than its IV.
    ShortCiphertext,
    /// The encrypted payload does not decrypt.
    BadCiphertext,
    /// The payload length differs from the one the header gives.
    PayloadLengthMismatch,
    /// The payload is not a `DownstreamPayload`.
    BadPayload,
}

/// The big-endian `u32` at bytes `i .. i + 4` of `d`.
pub open spec fn be_u32_at(d: Seq<u8>, i: int) -> nat {
    (d[i] * 0x1000000 + d[i + 1] * 0x10000 + d[i + 2] * 0x100 + d[i + 3]) as nat
}

/// The payload of a frame whose header is `hb`, once decrypted: as it stands
/// when not encrypted, else decrypted with the key its mode names, the first
/// 16 bytes being the IV.
pub open spec fn payload_spec(
    d: Seq<u8>,
    hl: nat,
    mode: i32,
    dlen: nat,
    pl: nat,
    sec: Seq<u8>,
    sess: Seq<u8>,
) -> Result<Seq<u8>, DecodeError> {
    if mode == ENCRYPTION_NONE {
        if pl != dlen {
            Err(DecodeError::PayloadLengthMismatch)
        } else if 12 + hl > d.len() {
            Err(DecodeError::PayloadOutOfRange)
        } else {
            Ok(d.skip(12 + hl as int))
        }
    } else if mode == ENCRYPTION_SERVICE_TOKEN || mode == ENCRYPTION_SESSION_KEY {
        let key = if mode == ENCRYPTION_SERVICE_TOKEN {
            sec
        } else {
            sess
        };
        if 12 + hl > d.len() {
            Err(DecodeError::PayloadOutOfRange)
        } else {
            let body = d.skip(12 + hl as int);
            if body.len() < 16 {
                Err(DecodeError::ShortCiphertext)
            } else {
                match aes256_cbc_decrypted(key, body.take(16), body.skip(16)) {
                    None => Err(DecodeError::BadCiphertext),
                    Some(plain) => if plain.len() != dlen {
                        Err(DecodeError::PayloadLengthMismatch)
                    } else {
                        Ok(plain)
                    },
                }
            }
        }
    } else {
        Err(DecodeError::UnknownEncryption)
    }
}

/// What reading the frame `d` gives: the bytes of its header and of its
/// decrypted payload, or why it fails.
///
/// The prefix holds the header end at bytes 4..8 and the payload length at
/// bytes 8..12, both big-endian; the header stands at bytes 12 up to that
/// header end, and the payload from byte `12 + header end` on.
pub open spec fn decode_spec(d: Seq<u8>, sec: Seq<u8>, sess: Seq<u8>) -> Result<
    (Seq<u8>, Seq<u8>),
    DecodeError,
> {
    if d.len() < 12 {
        Err(DecodeError::ShortFrame)
    } else {
        let hl = be_u32_at(d, 4);
        let pl = be_u32_at(d, 8);
        if hl < 12 || hl > d.len() {
            Err(DecodeError::HeaderOutOfRange)
        } else {
            let hb = d.subrange(12, hl as int);
            match crate::proto::parse_fields(hb) {
                Some(fs) => if !PacketHeader::valid_fields(fs) {
                    Err(DecodeError::BadHeader)
                } else {
                    let mode = crate::proto::int32_of(fs, 8);
                    let dlen = crate::proto::uint32_of(fs, 7) as nat;
                    match payload_spec(d, hl, mode, dlen, pl, sec, sess) {
                        Ok(p) => if DownstreamPayload::valid_wire(p) {
                            Ok((hb, p))
                        } else {
                            Err(DecodeError::BadPayload)
                        },
                        Err(e) => Err(e),
                    }
                },
                None => Err(DecodeError::BadHeader),
            }
        }
    }
}

/// Decrypts an encrypted payload whose first 16 bytes are the IV, or gives
/// `None` where it does not decrypt.
pub fn decrypt(key: &[u8; 32], body: &[u8]) -> (r: Option<Vec<u8>>)
    requires
        body@.len() >= 16,
    ensures
        match r {
            Some(v) => aes256_cbc_decrypted(key@, body@.take(16), body@.skip(16)) == Some(v@),
            None => aes256_cbc_decrypted(key@, body@.take(16), body@.skip(16)) is None,
        },
{
    let iv = &body[0..16];
    let rest = &body[16..body.len()];
    assert(iv@ =~= body@.take(16));
    assert(rest@ =~= body@.skip(16));
    cbc_decrypt(key, iv, rest)
}

/// The big-endian `u32` at bytes `i .. i + 4` of `d`.
fn read_be_u32(d: &Vec<u8>, i: usize) -> (r: u32)
    requires
        i <= 8,
        i + 4 <= d@.len(),
    ensures
        r as nat == be_u32_at(d@, i as int),
{
    (d[i] as u32) * 0x1000000 + (d[i + 1] as u32) * 0x10000 + (d[i + 2] as u32) * 0x100 + (d[i
        + 3] as u32)
}

/// Reads a frame: its header, and its payload decrypted with the key that
/// the header names.
pub fn decode(data: &Vec<u8>, security_key: &[u8; 32], session_key: &[u8; 32]) -> (r: Result<
    (PacketHeader, DownstreamPayload),
    DecodeError,
>)
    ensures
        match r {
            Ok((h, p)) => decode_spec(data@, security_key@, session_key@) matches Ok((hb, pb))
                && h.read_from(hb) && p.read_from(pb),
            Err(e) => decode_spec(data@, security_key@, session_key@) == Err::<
                (Seq<u8>, Seq<u8>),
                DecodeError,
            >(e),
        },
{
    if data.len() < HEADER_OFFSET {
        return Err(DecodeError::ShortFrame);
    }
    let header_len = read_be_u32(data, 4) as usize;
    let payload_len = read_be_u32(data, 8) as usize;
    if header_len < HEADER_OFFSET || header_len > data.len() {
        return Err(DecodeError::HeaderOutOfRange);
    }
    let hb = &data[HEADER_OFFSET..header_len];
    let header = match PacketHeader::parse(hb) {
        Some(h) => h,
        None => return Err(DecodeError::BadHeader),
    };
    let mode = header.encryption_mode;
    let in_range = header_len <= data.len() - HEADER_OFFSET;
    let plain: Vec<u8> = if mode == ENCRYPTION_NONE {
        if payload_len != header.decoded_payload_len as usize {
            return Err(DecodeError::PayloadLengthMismatch);
        }
        if !in_range {
            return Err(DecodeError::PayloadOutOfRange);
        }
        let body = &data[HEADER_OFFSET + header_len..data.len()];
        assert(body@ =~= data@.skip(12 + header_len));
        vstd::slice::slice_to_vec(body)
    } else if mode == ENCRYPTION_SERVICE_TOKEN || mode == ENCRYPTION_SESSION_KEY {
        if !in_range {
            return Err(DecodeError::PayloadOutOfRange);
        }
        let body = &data[HEADER_OFFSET + header_len..data.len()];
        assert(body@ =~= data@.skip(12 + header_len));
        if body.len() < 16 {
            return Err(DecodeError::ShortCiphertext);
        }
        let decrypted = if mode == ENCRYPTION_SERVICE_TOKEN {
            decrypt(security_key, body)
        } else {
            decrypt(session_key, body)
        };
        let decrypted = match decrypted {
            Some(v) => v,
            None => return Err(DecodeError::BadCiphertext),
        };
        if decrypted.len() != header.decoded_payload_len as usize {
            return Err(DecodeError::PayloadLengthMismatch);
        }
        decrypted
    } else {
        return Err(DecodeError::UnknownEncryption);
    };
    match DownstreamPayload::parse(plain.as_slice()) {
        Some(p) => Ok((header, p)),
        None => Err(DecodeError::BadPayload),
    }
}

} // verus!
