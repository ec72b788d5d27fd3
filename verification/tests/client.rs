use acfun_live_toolbox::client::ClientRequest;
use acfun_live_toolbox::frame::decrypt;
use acfun_live_toolbox::messages::{
    HandshakeRequest, PacketHeader, UpstreamPayload, ZtLiveCsCmd, ZtLiveCsHeartbeat,
};

const SECURITY_KEY: [u8; 32] = [1u8; 32];

fn client() -> ClientRequest {
    ClientRequest::new(
        42,
        String::from("st"),
        &base64::encode(SECURITY_KEY),
        String::from("live1"),
        String::from("attach"),
        vec![String::from("t1"), String::from("t2")],
    )
}

/// The header and the encrypted payload of a frame the client wrote.
fn parts(f: &[u8]) -> (Vec<u8>, Vec<u8>) {
    let n = (f.len() - 8) / 2;
    assert!(f[..n].iter().all(|b| *b == 0));
    assert_eq!(&f[n..n + 4], &[0xAB, 0xCD, 0x00, 0x01]);
    let h = u64::from_be_bytes(f[n + 4..n + 12].try_into().unwrap()) as usize;
    let p = u64::from_be_bytes(f[n + 12..n + 20].try_into().unwrap()) as usize;
    assert_eq!(h + p + 12, n);
    (f[n + 20..n + 20 + h].to_vec(), f[n + 20 + h..].to_vec())
}

fn upstream(command: &str, seq_id: i64, payload_data: Vec<u8>) -> Vec<u8> {
    UpstreamPayload {
        command: String::from(command),
        seq_id,
        retry_count: 1,
        payload_data,
        sub_biz: String::from("mainApp"),
    }
    .to_bytes()
}

#[test]
fn new_client_starts_at_zero() {
    let c = client();
    assert_eq!(c.get_security_key(), &SECURITY_KEY);
    assert_eq!(c.get_session_key(), &[0u8; 32]);
    assert_eq!(c.get_seq_id(), 0);
    assert_eq!(c.ticket_index, 0);
}

#[test]
fn bad_security_key_makes_no_client() {
    let c = ClientRequest::try_new(
        1,
        String::from("st"),
        &String::from("???"),
        String::from("l"),
        String::from("a"),
        vec![],
    );
    assert!(c.is_none());
}

#[test]
fn handshake_frame() {
    let c = client();
    let f = c.handshake_request();
    let (h, p) = parts(&f);
    let body = decrypt(&SECURITY_KEY, &p).unwrap();
    let hs = HandshakeRequest { unknown1: 1, unknown2: 1 }.to_bytes();
    assert_eq!(hs, vec![0x08, 0x01, 0x10, 0x01]);
    assert_eq!(body, upstream("Basic.Handshake", 0, hs));
    let h = PacketHeader::parse(&h).unwrap();
    assert_eq!(h.app_id, 13);
    assert_eq!(h.uid, 42);
    assert_eq!(h.encryption_mode, 2);
    assert_eq!(h.decoded_payload_len as usize, body.len());
    assert_eq!(h.kpn, "ACFUN_APP.LIVE_MATE");
    assert!(h.token_info.is_none());
    assert_eq!(c.get_seq_id(), 0);
}

#[test]
fn register_frame_carries_token() {
    let mut c = client();
    let f = c.register_request();
    assert_eq!(c.get_seq_id(), 1);
    let (h, p) = parts(&f);
    let h = PacketHeader::parse(&h).unwrap();
    assert_eq!(h.encryption_mode, 1);
    assert_eq!(h.seq_id, 0);
    let t = h.token_info.unwrap();
    assert_eq!(t.token_type, 1);
    assert_eq!(t.token, b"st".to_vec());
    let body = decrypt(&SECURITY_KEY, &p).unwrap();
    assert_eq!(h.decoded_payload_len as usize, body.len());
}

#[test]
fn keep_alive_frame() {
    let mut c = client();
    c.register(3, vec![6u8; 32], 0);
    let f = c.keep_alive_request();
    assert_eq!(c.get_seq_id(), 1);
    let (h, p) = parts(&f);
    let body = decrypt(&[6u8; 32], &p).unwrap();
    assert_eq!(body, upstream("Basic.KeepAlive", 0, vec![0x08, 0x01, 0x10, 0x01]));
    assert_eq!(PacketHeader::parse(&h).unwrap().instance_id, 3);
}

#[test]
fn heartbeat_frame_counts_both() {
    let mut c = client();
    let f = c.heartbeat_request_at(1234);
    assert_eq!(c.get_seq_id(), 1);
    assert_eq!(c.heartbeat_seq_id, 1);
    let (_, p) = parts(&f);
    let body = decrypt(&[0u8; 32], &p).unwrap();
    let hb = ZtLiveCsHeartbeat { client_timestamp_ms: 1234, sequence: 0 }.to_bytes();
    let cmd = ZtLiveCsCmd {
        cmd_type: String::from("ZtLiveCsHeartbeat"),
        payload: hb,
        ticket: String::from("t1"),
        live_id: String::from("live1"),
    }
    .to_bytes();
    assert_eq!(body, upstream("Global.ZtLiveInteractive.CsCmd", 0, cmd));
    let f2 = c.heartbeat_request().unwrap();
    assert!(!f2.is_empty());
    assert_eq!(c.heartbeat_seq_id, 2);
}

#[test]
fn enter_room_uses_ticket_in_use() {
    let mut c = client();
    assert_eq!(c.next_ticket(), "t2");
    let f = c.enter_room_request();
    let (_, p) = parts(&f);
    let body = decrypt(&[0u8; 32], &p).unwrap();
    let cmd = ZtLiveCsCmd {
        cmd_type: String::from("ZtLiveCsEnterRoom"),
        payload: acfun_live_toolbox::messages::ZtLiveCsEnterRoom {
            enter_room_attach: String::from("attach"),
            client_live_sdk_version: String::from("kwai-acfun-live-link"),
        }
        .to_bytes(),
        ticket: String::from("t2"),
        live_id: String::from("live1"),
    }
    .to_bytes();
    assert_eq!(body, upstream("Global.ZtLiveInteractive.CsCmd", 0, cmd));
}

#[test]
fn exit_and_unregister_frames() {
    let c = client();
    let (_, p) = parts(&c.user_exit_request());
    let body = decrypt(&[0u8; 32], &p).unwrap();
    let cmd = ZtLiveCsCmd {
        cmd_type: String::from("ZtLiveCsUserExit"),
        payload: vec![],
        ticket: String::from("t1"),
        live_id: String::from("live1"),
    }
    .to_bytes();
    assert_eq!(body, upstream("Global.ZtLiveInteractive.CsCmd", 0, cmd));
    let (_, p) = parts(&c.unregister_request());
    assert_eq!(decrypt(&[0u8; 32], &p).unwrap(), upstream("Basic.Unregister", 0, vec![]));
}

#[test]
fn push_answer_carries_header_seq() {
    let c = client();
    let (h, _) = parts(&c.push_message_response(-5));
    assert_eq!(PacketHeader::parse(&h).unwrap().seq_id, -5);
}

#[test]
fn sequence_wraps() {
    let mut c = client();
    c.seq_id = i64::MAX;
    c.register_request();
    assert_eq!(c.get_seq_id(), i64::MIN);
}

#[test]
fn requests_fit_frames() {
    let c = client();
    assert!(c.register_fits());
    assert!(c.enter_room_fits());
    assert!(c.heartbeat_fits(i64::MIN));
    assert!(c.heartbeat_fits(0));
    assert!(c.user_exit_fits());
}

#[test]
fn counters_follow_the_calls() {
    let mut c = client();
    c.handshake_request();
    c.register_request();
    c.register(1, vec![2u8; 32], 0);
    c.keep_alive_request();
    c.enter_room_request();
    c.push_message_response(9);
    assert_eq!(c.get_seq_id(), 3);
    for k in 0..3i64 {
        let f = c.heartbeat_request_at(100);
        let (_, p) = parts(&f);
        let body = decrypt(&[2u8; 32], &p).unwrap();
        let hb = ZtLiveCsHeartbeat { client_timestamp_ms: 100, sequence: k }.to_bytes();
        let cmd = ZtLiveCsCmd {
            cmd_type: String::from("ZtLiveCsHeartbeat"),
            payload: hb,
            ticket: String::from("t1"),
            live_id: String::from("live1"),
        }
        .to_bytes();
        assert_eq!(body, upstream("Global.ZtLiveInteractive.CsCmd", 3 + k, cmd));
    }
    assert_eq!(c.get_seq_id(), 6);
    assert_eq!(c.heartbeat_seq_id, 3);
    assert_eq!(c.next_ticket(), "t2");
    assert_eq!(c.ticket_index, 1);
}

#[test]
fn opening_frames_are_handshake_then_register() {
    let mut c = client();
    let mut d = client();
    let handshake = d.handshake_request();
    let register = d.register_request();
    let (h, r) = c.opening_frames().unwrap();
    let (hh, hp) = parts(&h);
    let (eh, ep) = parts(&handshake);
    assert_eq!(hh, eh);
    assert_eq!(decrypt(&SECURITY_KEY, &hp).unwrap(), decrypt(&SECURITY_KEY, &ep).unwrap());
    let (rh, rp) = parts(&r);
    let (gh, gp) = parts(&register);
    assert_eq!(rh, gh);
    assert_eq!(decrypt(&SECURITY_KEY, &rp).unwrap(), decrypt(&SECURITY_KEY, &gp).unwrap());
    assert_eq!(c.get_seq_id(), 1);
    assert_eq!(d.get_seq_id(), 1);
}

#[test]
fn every_room_request_uses_ticket_in_use() {
    let mut c = client();
    assert_eq!(c.next_ticket(), "t2");
    let (_, p) = parts(&c.user_exit_request());
    let cmd = ZtLiveCsCmd {
        cmd_type: String::from("ZtLiveCsUserExit"),
        payload: vec![],
        ticket: String::from("t2"),
        live_id: String::from("live1"),
    }
    .to_bytes();
    assert_eq!(decrypt(&[0u8; 32], &p).unwrap(), upstream("Global.ZtLiveInteractive.CsCmd", 0, cmd));
    let (_, p) = parts(&c.heartbeat_request_at(77));
    let hb = ZtLiveCsHeartbeat { client_timestamp_ms: 77, sequence: 0 }.to_bytes();
    let cmd = ZtLiveCsCmd {
        cmd_type: String::from("ZtLiveCsHeartbeat"),
        payload: hb,
        ticket: String::from("t2"),
        live_id: String::from("live1"),
    }
    .to_bytes();
    assert_eq!(decrypt(&[0u8; 32], &p).unwrap(), upstream("Global.ZtLiveInteractive.CsCmd", 0, cmd));
}
