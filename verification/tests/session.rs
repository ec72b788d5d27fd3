use std::io::Write;

use acfun_live_toolbox::client::ClientRequest;
use acfun_live_toolbox::frame::{decrypt, encrypt_with_iv, DecodeError};
use acfun_live_toolbox::messages::{PacketHeader, UpstreamPayload};
use acfun_live_toolbox::session::{SessionAction, SessionError};

/// Appends a varint field, as protobuf writes it.
fn push_varint_field(out: &mut Vec<u8>, field: u32, v: u64) {
    let mut os = protobuf::CodedOutputStream::vec(out);
    os.write_uint64(field, v).unwrap();
    os.flush().unwrap();
}

/// Appends a length-delimited field, as protobuf writes it.
fn push_len_field(out: &mut Vec<u8>, field: u32, b: &[u8]) {
    let mut os = protobuf::CodedOutputStream::vec(out);
    os.write_bytes(field, b).unwrap();
    os.flush().unwrap();
}

const SECURITY_KEY: [u8; 32] = [1u8; 32];

fn client(tickets: &[&str]) -> ClientRequest {
    ClientRequest::new(
        42,
        String::from("st"),
        &base64::encode(SECURITY_KEY),
        String::from("live1"),
        String::from("attach"),
        tickets.iter().map(|t| t.to_string()).collect(),
    )
}

fn down(command: &str, payload: &[u8]) -> Vec<u8> {
    let mut d = Vec::new();
    push_len_field(&mut d, 1, command.as_bytes());
    if !payload.is_empty() {
        push_len_field(&mut d, 4, payload);
    }
    d
}

/// A frame of the link server, not encrypted, whose header has `seq`.
fn frame(body: &[u8], seq: i64) -> Vec<u8> {
    let h = PacketHeader {
        app_id: 13,
        uid: 42,
        instance_id: 0,
        decoded_payload_len: body.len() as u32,
        encryption_mode: 0,
        token_info: None,
        seq_id: seq,
        kpn: String::new(),
    }
    .to_bytes();
    let mut d = vec![0xAB, 0xCD, 0x00, 0x01];
    d.extend_from_slice(&((12 + h.len()) as u32).to_be_bytes());
    d.extend_from_slice(&(body.len() as u32).to_be_bytes());
    d.extend_from_slice(&h);
    d.extend_from_slice(&[0u8; 12]);
    d.extend_from_slice(body);
    d
}

/// The header and the encrypted payload of a frame the client wrote.
fn parts(f: &[u8]) -> (Vec<u8>, Vec<u8>) {
    let n = (f.len() - 8) / 2;
    assert_eq!(&f[n..n + 4], &[0xAB, 0xCD, 0x00, 0x01]);
    let h = u64::from_be_bytes(f[n + 4..n + 12].try_into().unwrap()) as usize;
    let p = u64::from_be_bytes(f[n + 12..n + 20].try_into().unwrap()) as usize;
    assert_eq!(h + p + 12, n);
    (f[n + 20..n + 20 + h].to_vec(), f[n + 20 + h..].to_vec())
}

fn sc_message(t: &str, compression: u64, payload: &[u8]) -> Vec<u8> {
    let mut m = Vec::new();
    push_len_field(&mut m, 1, t.as_bytes());
    if compression != 0 {
        push_varint_field(&mut m, 2, compression);
    }
    if !payload.is_empty() {
        push_len_field(&mut m, 3, payload);
    }
    m
}

fn push(m: &[u8], seq: i64) -> Vec<u8> {
    frame(&down("Push.ZtLiveInteractive.Message", m), seq)
}

#[test]
fn unregister_stops() {
    let mut c = client(&["t1"]);
    let (acts, r) = c.handle_frame(&frame(&down("Basic.Unregister", &[]), 1));
    assert_eq!(r, Ok(()));
    assert_eq!(acts.len(), 1);
    assert!(matches!(acts[0], SessionAction::Stop));
}

#[test]
fn unread_frame_ends_session() {
    let mut c = client(&["t1"]);
    let (acts, r) = c.handle_frame(&vec![0u8; 5]);
    assert!(acts.is_empty());
    assert_eq!(r, Err(SessionError::Decode(DecodeError::ShortFrame)));
}

#[test]
fn enter_room_ack_starts_heartbeat() {
    let mut c = client(&["t1"]);
    let mut ack = Vec::new();
    push_len_field(&mut ack, 1, b"ZtLiveCsEnterRoomAck");
    push_len_field(&mut ack, 4, &[0x18, 0x90, 0x4e]);
    let (acts, r) = c.handle_frame(&frame(&down("Global.ZtLiveInteractive.CsCmd", &ack), 1));
    assert_eq!(r, Ok(()));
    assert_eq!(acts.len(), 1);
    assert!(matches!(acts[0], SessionAction::StartHeartbeat(10000)));
}

#[test]
fn other_command_ack_does_nothing() {
    let mut c = client(&["t1"]);
    let mut ack = Vec::new();
    push_len_field(&mut ack, 1, b"ZtLiveCsHeartbeatAck");
    let (acts, r) = c.handle_frame(&frame(&down("Global.ZtLiveInteractive.CsCmd", &ack), 1));
    assert_eq!(r, Ok(()));
    assert!(acts.is_empty());
}

#[test]
fn bad_command_ack() {
    let mut c = client(&["t1"]);
    let (_, r) = c.handle_frame(&frame(&down("Global.ZtLiveInteractive.CsCmd", &[0x07]), 1));
    assert_eq!(r, Err(SessionError::BadCommandAck));
    let mut ack = Vec::new();
    push_len_field(&mut ack, 1, b"ZtLiveCsEnterRoomAck");
    push_len_field(&mut ack, 4, &[0x07]);
    let (_, r) = c.handle_frame(&frame(&down("Global.ZtLiveInteractive.CsCmd", &ack), 1));
    assert_eq!(r, Err(SessionError::BadEnterRoomAck));
}

#[test]
fn pushed_signal_is_answered_and_delivered() {
    let mut c = client(&["t1"]);
    let m = sc_message("ZtLiveScActionSignal", 0, &[1, 2, 3]);
    let (acts, r) = c.handle_frame(&push(&m, 77));
    assert_eq!(r, Ok(()));
    assert_eq!(acts.len(), 2);
    match &acts[0] {
        SessionAction::Send(f) => {
            let (h, p) = parts(f);
            let h = PacketHeader::parse(&h).unwrap();
            assert_eq!(h.seq_id, 77);
            assert_eq!(h.uid, 42);
            let body = decrypt(&[0u8; 32], &p).unwrap();
            let expected = UpstreamPayload {
                command: String::from("Push.ZtLiveInteractive.Message"),
                seq_id: 0,
                retry_count: 1,
                payload_data: vec![],
                sub_biz: String::from("mainApp"),
            };
            assert_eq!(body, expected.to_bytes());
        }
        _ => panic!("the answer comes first"),
    }
    match &acts[1] {
        SessionAction::Deliver(t, p) => {
            assert_eq!(t, "ZtLiveScActionSignal");
            assert_eq!(p, &vec![1, 2, 3]);
        }
        _ => panic!("then the delivery"),
    }
    assert_eq!(c.get_seq_id(), 0);
}

#[test]
fn gzip_payload_is_decompressed() {
    let mut c = client(&["t1"]);
    let mut enc = flate2::write::GzEncoder::new(Vec::new(), flate2::Compression::default());
    enc.write_all(b"state of the room").unwrap();
    let gz = enc.finish().unwrap();
    let m = sc_message("ZtLiveScStateSignal", 2, &gz);
    let (acts, r) = c.handle_frame(&push(&m, 1));
    assert_eq!(r, Ok(()));
    match &acts[1] {
        SessionAction::Deliver(t, p) => {
            assert_eq!(t, "ZtLiveScStateSignal");
            assert_eq!(p, &b"state of the room".to_vec());
        }
        _ => panic!("delivery"),
    }
}

#[test]
fn bad_gzip_ends_session() {
    let mut c = client(&["t1"]);
    let m = sc_message("ZtLiveScStateSignal", 2, &[1, 2, 3]);
    let (acts, r) = c.handle_frame(&push(&m, 1));
    assert_eq!(acts.len(), 1);
    assert_eq!(r, Err(SessionError::BadGzip));
}

#[test]
fn unknown_compression() {
    let mut c = client(&["t1"]);
    let m = sc_message("ZtLiveScStateSignal", 3, &[1]);
    let (_, r) = c.handle_frame(&push(&m, 1));
    assert_eq!(r, Err(SessionError::UnknownCompression));
}

#[test]
fn bad_message() {
    let mut c = client(&["t1"]);
    let (acts, r) = c.handle_frame(&push(&[0x0a, 0x01, 0xff], 1));
    assert_eq!(acts.len(), 1);
    assert_eq!(r, Err(SessionError::BadMessage));
}

#[test]
fn closed_live_stops() {
    let mut c = client(&["t1"]);
    let m = sc_message("ZtLiveScStatusChanged", 0, &[0x08, 0x01]);
    let (acts, r) = c.handle_frame(&push(&m, 1));
    assert_eq!(r, Ok(()));
    assert_eq!(acts.len(), 2);
    assert!(matches!(acts[1], SessionAction::Stop));
    let m = sc_message("ZtLiveScStatusChanged", 0, &[0x08, 0x04]);
    let (acts, _) = c.handle_frame(&push(&m, 1));
    assert!(matches!(acts[1], SessionAction::Stop));
}

#[test]
fn other_status_goes_on() {
    let mut c = client(&["t1"]);
    let m = sc_message("ZtLiveScStatusChanged", 0, &[0x08, 0x02]);
    let (acts, r) = c.handle_frame(&push(&m, 1));
    assert_eq!(r, Ok(()));
    assert_eq!(acts.len(), 1);
}

#[test]
fn status_errors() {
    let mut c = client(&["t1"]);
    let m = sc_message("ZtLiveScStatusChanged", 0, &[0x08, 0x05]);
    let (_, r) = c.handle_frame(&push(&m, 1));
    assert_eq!(r, Err(SessionError::UnknownStatus));
    let m = sc_message("ZtLiveScStatusChanged", 0, &[0x07]);
    let (_, r) = c.handle_frame(&push(&m, 1));
    assert_eq!(r, Err(SessionError::BadStatus));
}

#[test]
fn invalid_ticket_moves_on() {
    let mut c = client(&["t1", "t2"]);
    let m = sc_message("ZtLiveScTicketInvalid", 0, &[]);
    let (acts, r) = c.handle_frame(&push(&m, 1));
    assert_eq!(r, Ok(()));
    assert_eq!(acts.len(), 2);
    assert_eq!(c.ticket_index, 1);
    assert_eq!(c.get_seq_id(), 1);
    let (acts, r) = c.handle_frame(&push(&m, 2));
    assert_eq!(acts.len(), 1);
    assert_eq!(r, Err(SessionError::NoNextTicket));
}

fn register_response(key: &[u8]) -> Vec<u8> {
    let mut r = Vec::new();
    push_len_field(&mut r, 2, key);
    push_varint_field(&mut r, 3, 9);
    push_len_field(&mut r, 4, &[0x18, 64]);
    r
}

#[test]
fn registration_sets_session() {
    let mut c = client(&["t1"]);
    let (acts, r) = c.handle_frame(&frame(&down("Basic.Register", &register_response(&[5u8; 32])), 1));
    assert_eq!(r, Ok(()));
    assert_eq!(acts.len(), 2);
    assert_eq!(c.session_key, [5u8; 32]);
    assert_eq!(c.instance_id, 9);
    assert_eq!(c.lz4_compression_threshold, 64);
    assert_eq!(c.get_seq_id(), 2);
    match &acts[0] {
        SessionAction::Send(f) => {
            let (h, p) = parts(f);
            let h = PacketHeader::parse(&h).unwrap();
            assert_eq!(h.instance_id, 9);
            assert_eq!(h.seq_id, 0);
            assert!(decrypt(&[5u8; 32], &p).is_some());
        }
        _ => panic!("keep-alive"),
    }
}

#[test]
fn registration_errors() {
    let mut c = client(&["t1"]);
    let (acts, r) = c.handle_frame(&frame(&down("Basic.Register", &register_response(&[5u8; 2])), 1));
    assert!(acts.is_empty());
    assert_eq!(r, Err(SessionError::BadSessionKey));
    let (_, r) = c.handle_frame(&frame(&down("Basic.Register", &[0x07]), 1));
    assert_eq!(r, Err(SessionError::BadRegisterResponse));
    let mut c = client(&[]);
    let (acts, r) = c.handle_frame(&frame(&down("Basic.Register", &register_response(&[5u8; 32])), 1));
    assert_eq!(acts.len(), 1);
    assert_eq!(r, Err(SessionError::NoTicket));
}

#[test]
fn encrypted_frame_uses_session_key() {
    let mut c = client(&["t1"]);
    let body = down("Basic.Unregister", &[]);
    let e = encrypt_with_iv(&[0u8; 32], &[4u8; 16], &body);
    let h = PacketHeader {
        app_id: 13,
        uid: 42,
        instance_id: 0,
        decoded_payload_len: body.len() as u32,
        encryption_mode: 2,
        token_info: None,
        seq_id: 3,
        kpn: String::new(),
    }
    .to_bytes();
    let mut f = vec![0xAB, 0xCD, 0x00, 0x01];
    f.extend_from_slice(&((12 + h.len()) as u32).to_be_bytes());
    f.extend_from_slice(&(e.len() as u32).to_be_bytes());
    f.extend_from_slice(&h);
    f.extend_from_slice(&[0u8; 12]);
    f.extend_from_slice(&e);
    let (acts, r) = c.handle_frame(&f);
    assert_eq!(r, Ok(()));
    assert!(matches!(acts[0], SessionAction::Stop));
}

#[test]
fn long_strings_are_handled() {
    let long = "a".repeat(0x100_0001);
    let mut c = ClientRequest::new(
        42,
        long.clone(),
        &base64::encode(SECURITY_KEY),
        long,
        String::from("attach"),
        vec![String::from("t1"), String::from("t2")],
    );
    assert!(c.register_fits());
    assert!(c.enter_room_fits());
    let m = sc_message("ZtLiveScActionSignal", 0, &[1, 2, 3]);
    let (acts, r) = c.handle_frame(&push(&m, 5));
    assert_eq!(r, Ok(()));
    assert_eq!(acts.len(), 2);
    assert!(matches!(acts[1], SessionAction::Deliver(_, _)));
    let m = sc_message("ZtLiveScTicketInvalid", 0, &[]);
    let (acts, r) = c.handle_frame(&push(&m, 6));
    assert_eq!(r, Ok(()));
    assert_eq!(acts.len(), 2);
    match &acts[1] {
        SessionAction::Send(f) => assert!(f.len() > 2 * 0x100_0001),
        _ => panic!("enter room"),
    }
}

#[test]
fn other_commands_do_nothing() {
    let mut c = client(&["t1"]);
    let (acts, r) = c.handle_frame(&frame(&down("Basic.KeepAlive", &[]), 1));
    assert_eq!(r, Ok(()));
    assert!(acts.is_empty());
}
