use acfun_live_toolbox::messages::{
    DownstreamPayload, HandshakeRequest, PacketHeader, RegisterResponse, TokenInfo,
    UpstreamPayload, ZtLiveCsCmdAck, ZtLiveScMessage,
};
use acfun_live_toolbox::proto::{push_opt_varint, read_field, read_fields, Field};

#[test]
fn varint_field_of_150() {
    let h = HandshakeRequest { unknown1: 150, unknown2: 0 };
    assert_eq!(h.to_bytes(), vec![0x08, 0x96, 0x01]);
}

#[test]
fn zero_varint_is_left_out() {
    let mut out = Vec::new();
    push_opt_varint(&mut out, 3, 0);
    assert!(out.is_empty());
    push_opt_varint(&mut out, 3, 1);
    assert_eq!(out, vec![0x18, 0x01]);
}

#[test]
fn len_field_of_testing() {
    let t = TokenInfo { token_type: 0, token: b"testing".to_vec() };
    assert_eq!(t.to_bytes(), vec![0x12, 0x07, b't', b'e', b's', b't', b'i', b'n', b'g']);
}

#[test]
fn varint_reads() {
    match read_field(&[0x08, 0x96, 0x01, 0xff]) {
        Some((Field::Varint(1, 150), 3)) => {}
        _ => panic!("150"),
    }
    match read_field(&[0x08, 0x00]) {
        Some((Field::Varint(1, 0), 2)) => {}
        _ => panic!("0"),
    }
    match read_field(&[0x08, 0xff, 0xff, 0xff, 0xff, 0xff, 0xff, 0xff, 0xff, 0xff, 0x01]) {
        Some((Field::Varint(1, u64::MAX), 11)) => {}
        _ => panic!("u64::MAX"),
    }
    assert!(read_field(&[0x08, 0xff, 0xff, 0xff, 0xff, 0xff, 0xff, 0xff, 0xff, 0xff, 0x02]).is_none());
    assert!(read_field(&[0x08, 0x80]).is_none());
    assert!(read_field(&[0x08]).is_none());
    assert!(read_field(&[]).is_none());
    // a tag of five bytes: field 0x1fffffff, wire type 0
    match read_field(&[0xf8, 0xff, 0xff, 0xff, 0x0f, 0x05]) {
        Some((Field::Varint(0x1fff_ffff, 5), 6)) => {}
        _ => panic!("largest field number"),
    }
    // a length whose fifth byte is too large for 32 bits
    assert!(read_field(&[0x0a, 0x80, 0x80, 0x80, 0x80, 0x10]).is_none());
}

#[test]
fn fields_are_read_in_order() {
    let bytes = [0x08, 0x96, 0x01, 0x12, 0x02, b'h', b'i', 0x1d, 1, 2, 3, 4];
    let fs = read_fields(&bytes).unwrap();
    assert_eq!(fs.len(), 3);
    match &fs[0] {
        Field::Varint(1, 150) => {}
        _ => panic!("first field"),
    }
    match &fs[1] {
        Field::Len(2, b) => assert_eq!(b, &vec![b'h', b'i']),
        _ => panic!("second field"),
    }
    match &fs[2] {
        Field::Fixed(3) => {}
        _ => panic!("third field"),
    }
}

#[test]
fn field_errors() {
    // field number 0
    assert!(read_field(&[0x00, 0x01]).is_none());
    // group that never ends
    assert!(read_field(&[0x0b]).is_none());
    // end tag with no group open
    assert!(read_field(&[0x0c]).is_none());
    // length beyond the end
    assert!(read_field(&[0x12, 0x05, 1, 2]).is_none());
    assert!(read_fields(&[0x08]).is_none());
    assert_eq!(read_fields(&[]).unwrap().len(), 0);
}

#[test]
fn handshake_bytes() {
    let h = HandshakeRequest { unknown1: 1, unknown2: 1 };
    assert_eq!(h.to_bytes(), vec![0x08, 0x01, 0x10, 0x01]);
}

#[test]
fn negative_int32_is_sign_extended() {
    let h = HandshakeRequest { unknown1: -1, unknown2: 0 };
    assert_eq!(
        h.to_bytes(),
        vec![0x08, 0xff, 0xff, 0xff, 0xff, 0xff, 0xff, 0xff, 0xff, 0xff, 0x01]
    );
}

fn sample_header() -> PacketHeader {
    PacketHeader {
        app_id: 13,
        uid: 42,
        instance_id: 7,
        decoded_payload_len: 300,
        encryption_mode: 2,
        token_info: Some(TokenInfo { token_type: 1, token: b"tok".to_vec() }),
        seq_id: 5,
        kpn: String::from("ACFUN_APP.LIVE_MATE"),
    }
}

#[test]
fn header_bytes_and_back() {
    let h = sample_header();
    let b = h.to_bytes();
    let mut expected = vec![0x08, 13, 0x10, 42, 0x18, 7, 0x38, 0xac, 0x02, 0x40, 2];
    expected.extend_from_slice(&[0x4a, 0x07, 0x08, 0x01, 0x12, 0x03, b't', b'o', b'k']);
    expected.extend_from_slice(&[0x50, 5, 0x62, 19]);
    expected.extend_from_slice(b"ACFUN_APP.LIVE_MATE");
    assert_eq!(b, expected);
    let p = PacketHeader::parse(&b).unwrap();
    assert_eq!(p.app_id, 13);
    assert_eq!(p.uid, 42);
    assert_eq!(p.instance_id, 7);
    assert_eq!(p.decoded_payload_len, 300);
    assert_eq!(p.encryption_mode, 2);
    assert_eq!(p.seq_id, 5);
    assert_eq!(p.kpn, "ACFUN_APP.LIVE_MATE");
    let t = p.token_info.unwrap();
    assert_eq!(t.token_type, 1);
    assert_eq!(t.token, b"tok".to_vec());
}

#[test]
fn header_with_bad_utf8_kpn_is_refused() {
    assert!(PacketHeader::parse(&[0x62, 0x01, 0xff]).is_none());
}

#[test]
fn header_with_int32_out_of_range_is_refused() {
    // appId = 2^31
    assert!(PacketHeader::parse(&[0x08, 0x80, 0x80, 0x80, 0x80, 0x08]).is_none());
}

#[test]
fn last_value_wins() {
    let p = PacketHeader::parse(&[0x50, 1, 0x50, 2]).unwrap();
    assert_eq!(p.seq_id, 2);
}

#[test]
fn upstream_payload_bytes() {
    let p = UpstreamPayload {
        command: String::from("Basic.Ping"),
        seq_id: 3,
        retry_count: 1,
        payload_data: vec![],
        sub_biz: String::from("mainApp"),
    };
    let mut expected = vec![0x0a, 10];
    expected.extend_from_slice(b"Basic.Ping");
    expected.extend_from_slice(&[0x10, 3, 0x18, 1, 0x4a, 7]);
    expected.extend_from_slice(b"mainApp");
    assert_eq!(p.to_bytes(), expected);
}

#[test]
fn downstream_payload_reads() {
    let mut b = vec![0x0a, 14];
    b.extend_from_slice(b"Basic.Register");
    b.extend_from_slice(&[0x10, 9, 0x22, 2, 0xaa, 0xbb]);
    let p = DownstreamPayload::parse(&b).unwrap();
    assert_eq!(p.command, "Basic.Register");
    assert_eq!(p.seq_id, 9);
    assert_eq!(p.payload_data, vec![0xaa, 0xbb]);
    assert_eq!(p.error_code, 0);
    assert_eq!(p.error_msg, "");
}

#[test]
fn command_ack_reads() {
    let mut b = vec![0x0a, 20];
    b.extend_from_slice(b"ZtLiveCsEnterRoomAck");
    b.extend_from_slice(&[0x22, 2, 0x18, 0x64]);
    let a = ZtLiveCsCmdAck::parse(&b).unwrap();
    assert_eq!(a.cmd_ack_type, "ZtLiveCsEnterRoomAck");
    assert_eq!(a.payload, vec![0x18, 0x64]);
}

#[test]
fn sc_message_reads() {
    let b = vec![0x0a, 1, b'x', 0x10, 2, 0x1a, 1, 9];
    let m = ZtLiveScMessage::parse(&b).unwrap();
    assert_eq!(m.message_type, "x");
    assert_eq!(m.compression_type, 2);
    assert_eq!(m.payload, vec![9]);
}

#[test]
fn register_response_merges_sdk_option() {
    // sessKey, instanceId, and sdkOption given twice: the second sets field 3.
    let mut b = vec![0x12, 2, 1, 2, 0x18, 77];
    b.extend_from_slice(&[0x22, 2, 0x08, 5]);
    b.extend_from_slice(&[0x22, 2, 0x18, 64]);
    let r = RegisterResponse::parse(&b).unwrap();
    assert_eq!(r.sess_key, vec![1, 2]);
    assert_eq!(r.instance_id, 77);
    assert_eq!(r.sdk_option.unwrap().lz4_compression_threshold_bytes, 64);
}

#[test]
fn groups_are_skipped() {
    // group 1 holding varint field 1, then varint field 2
    let bytes = [0x0b, 0x08, 0x01, 0x0c, 0x10, 0x05];
    match read_field(&bytes) {
        Some((Field::Fixed(1), 4)) => {}
        _ => panic!("group"),
    }
    let fs = read_fields(&bytes).unwrap();
    assert_eq!(fs.len(), 2);
    match &fs[1] {
        Field::Varint(2, 5) => {}
        _ => panic!("after the group"),
    }
    // a nested group and every other wire type inside
    let nested = [0x0b, 0x13, 0x1c, 0x21, 0, 0, 0, 0, 0, 0, 0, 0, 0x2a, 0x01, 7, 0x35, 0, 0, 0, 0, 0x0c];
    match read_field(&nested) {
        Some((Field::Fixed(1), 21)) => {}
        _ => panic!("nested"),
    }
    // field number 0 inside a group
    assert!(read_field(&[0x0b, 0x00, 0x0c]).is_none());
    // unknown wire type inside a group
    assert!(read_field(&[0x0b, 0x0e, 0x0c]).is_none());
    // value running past the end inside a group
    assert!(read_field(&[0x0b, 0x2a, 0x05, 1, 0x0c]).is_none());
}

#[test]
fn group_nesting_is_limited() {
    let deep = |n: usize| {
        let mut v = vec![0x0bu8; n];
        v.extend(vec![0x0cu8; n]);
        v
    };
    match read_field(&deep(101)) {
        Some((Field::Fixed(1), 202)) => {}
        _ => panic!("101 groups"),
    }
    assert!(read_field(&deep(102)).is_none());
}

#[test]
fn header_with_group_is_read() {
    let mut b = vec![0x08, 0x0d];
    b.extend([0x7b, 0x08, 0x01, 0x7c]);
    b.extend([0x50, 0x05]);
    let p = PacketHeader::parse(&b).unwrap();
    assert_eq!(p.app_id, 13);
    assert_eq!(p.seq_id, 5);
}
