use acfun_live_toolbox::signals::{recent_comments, signal_events_of, top_users, SignalError};

/// Appends a varint field, as protobuf writes it.
fn push_varint_field(out: &mut Vec<u8>, field: u32, v: u64) {
    let mut os = protobuf::CodedOutputStream::vec(out);
    os.write_uint64(field, v).unwrap();
    os.flush().unwrap();
}

/// Appends a length-delimited field, as protobuf writes it.
fn push_len_field(out: &mut Vec<u8>, field: u32, b: &[u8]) {
    let mut os = protobuf::CodedOutputStream::vec(out);
    os.write_bytes(field, b).unwrap();
    os.flush().unwrap();
}

fn user_info(id: u64, nickname: &str) -> Vec<u8> {
    let mut u = Vec::new();
    push_varint_field(&mut u, 1, id);
    push_len_field(&mut u, 2, nickname.as_bytes());
    u
}

fn comment(content: &str, nickname: &str) -> Vec<u8> {
    let mut c = Vec::new();
    push_len_field(&mut c, 1, content.as_bytes());
    push_varint_field(&mut c, 2, 1_700_000_000_000);
    push_len_field(&mut c, 3, &user_info(1, nickname));
    c
}

fn with_user(nickname: &str) -> Vec<u8> {
    let mut p = Vec::new();
    push_len_field(&mut p, 1, &user_info(2, nickname));
    push_varint_field(&mut p, 2, 1_700_000_000_000);
    p
}

fn item(signal_type: &str, payloads: &[Vec<u8>]) -> Vec<u8> {
    let mut i = Vec::new();
    push_len_field(&mut i, 1, signal_type.as_bytes());
    for p in payloads {
        push_len_field(&mut i, 2, p);
    }
    i
}

fn signal(items: &[Vec<u8>]) -> Vec<u8> {
    let mut s = Vec::new();
    for i in items {
        push_len_field(&mut s, 1, i);
    }
    s
}

fn events(t: &str, payload: &[u8]) -> (Vec<(u32, String)>, Option<SignalError>) {
    let (es, err) = signal_events_of(&String::from(t), payload);
    (es.into_iter().map(|e| (e.caption, e.message)).collect(), err)
}

#[test]
fn action_signal_events() {
    let s = signal(&[
        item("CommonActionSignalComment", &[comment("hello", "ann"), comment("again", "bob")]),
        item("CommonActionSignalUserEnterRoom", &[with_user("cat")]),
        item("CommonActionSignalLike", &[with_user("dan")]),
        item("CommonActionSignalUserFollowAuthor", &[with_user("eve")]),
        item("CommonActionSignalGift", &[with_user("fay")]),
        item("CommonActionSignalThrowBanana", &[vec![1, 2, 3]]),
    ]);
    let (es, err) = events("ZtLiveScActionSignal", &s);
    assert_eq!(err, None);
    assert_eq!(
        es,
        vec![
            (1001, String::from("hello")),
            (1001, String::from("again")),
            (1002, String::from("cat")),
            (1003, String::from("dan")),
            (1004, String::from("eve")),
            (1005, String::from("fay")),
        ]
    );
}

#[test]
fn missing_user_stops_at_failure() {
    let s = signal(&[
        item("CommonActionSignalComment", &[comment("first", "ann")]),
        item("CommonActionSignalLike", &[vec![]]),
        item("CommonActionSignalComment", &[comment("never", "bob")]),
    ]);
    let (es, err) = events("ZtLiveScActionSignal", &s);
    assert_eq!(es, vec![(1001, String::from("first"))]);
    assert_eq!(err, Some(SignalError::MissingUser));
}

#[test]
fn bad_payload_of_item() {
    let s = signal(&[item("CommonActionSignalComment", &[vec![0x0a, 0x01, 0xff]])]);
    let (es, err) = events("ZtLiveScActionSignal", &s);
    assert!(es.is_empty());
    assert_eq!(err, Some(SignalError::BadPayload));
}

#[test]
fn bad_signal() {
    let (es, err) = events("ZtLiveScActionSignal", &[0x07]);
    assert!(es.is_empty());
    assert_eq!(err, Some(SignalError::BadSignal));
    let (_, err) = events("ZtLiveScStateSignal", &signal(&[vec![0x0a, 0x01, 0xff]]));
    assert_eq!(err, Some(SignalError::BadSignal));
    let (_, err) = events("ZtLiveScNotifySignal", &[0x07]);
    assert_eq!(err, Some(SignalError::BadSignal));
}

#[test]
fn banana_count() {
    let mut info = Vec::new();
    push_len_field(&mut info, 1, b"12");
    let s = signal(&[item("AcfunStateSignalDisplayInfo", &[info])]);
    let (es, err) = events("ZtLiveScStateSignal", &s);
    assert_eq!(err, None);
    assert_eq!(es, vec![(1011, String::from("12"))]);
}

#[test]
fn like_count_reads_whole_signal() {
    let s = signal(&[item("CommonStateSignalDisplayInfo", &[])]);
    let (es, err) = events("ZtLiveScStateSignal", &s);
    assert_eq!(err, None);
    assert_eq!(es, vec![(1012, String::new())]);
}

#[test]
fn top_users_read_whole_signal() {
    let s = signal(&[item("CommonStateSignalTopUsers", &[])]);
    let (es, err) = events("ZtLiveScStateSignal", &s);
    assert!(es.is_empty());
    assert_eq!(err, Some(SignalError::BadPayload));
}

#[test]
fn other_state_signals_show_nothing() {
    let s = signal(&[item("CommonStateSignalChatCall", &[vec![1]])]);
    let (es, err) = events("ZtLiveScStateSignal", &s);
    assert!(es.is_empty());
    assert_eq!(err, None);
}

#[test]
fn notify_and_other_messages_show_nothing() {
    let s = signal(&[item("CommonNotifySignalKickedOut", &[vec![1]])]);
    assert_eq!(events("ZtLiveScNotifySignal", &s), (vec![], None));
    assert_eq!(events("ZtLiveScStatusChanged", &[0x07]), (vec![], None));
}

#[test]
fn top_users_of_their_list() {
    assert_eq!(top_users(&[]).err(), Some(SignalError::NoTopUser));
    let mut list = Vec::new();
    push_len_field(&mut list, 1, &with_user("ann"));
    push_len_field(&mut list, 1, &with_user("bob"));
    let es = top_users(&list).unwrap();
    assert_eq!(es.len(), 1);
    assert_eq!((es[0].caption, es[0].message.as_str()), (1013, "ann"));
}

#[test]
fn recent_comments_of_their_list() {
    let mut list = Vec::new();
    push_len_field(&mut list, 1, &comment("one", "ann"));
    push_len_field(&mut list, 1, &comment("two", "bob"));
    let es: Vec<(u32, String)> =
        recent_comments(&list).unwrap().into_iter().map(|e| (e.caption, e.message)).collect();
    assert_eq!(es, vec![(1001, String::from("one")), (1001, String::from("two"))]);
    let mut bad = Vec::new();
    push_len_field(&mut bad, 1, &[0x0a, 0x01, 0xff]);
    assert_eq!(recent_comments(&bad).err(), Some(SignalError::BadPayload));
}
