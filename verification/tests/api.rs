use acfun_live_toolbox::commands::{
    client_for_push, is_login, live_id_of, push_address_of, succeeded, token_granted, PushConfig,
    StartPushData,
};
use acfun_live_toolbox::live::{
    author_auth_request, gift_list_request, make_user_agent, nonce_at_millis, nonce_from, param, sign,
    sign_param_list, sign_with_nonce, start_push_request, stop_push_request,
    stream_config_request, stream_status_request, try_sign, SignError,
};
use acfun_live_toolbox::query::{query_string, sort_params, str_less};
use acfun_live_toolbox::sdk::{Token, User};
use acfun_live_toolbox::text::{i64_to_decimal, push_u128_decimal};
use hmac::Mac;

const BASE: &str = "appver=1.9.0.200&kpf=WINDOWS_PC&kpn=ACFUN_APP.LIVE_MATE&subBiz=mainApp&sys=PC_10";

fn user() -> User {
    User {
        userid: 42,
        username: String::from("name"),
        avatar: String::from("https://a/b.png"),
        passtoken: String::from("pass"),
    }
}

fn token() -> Token {
    Token {
        result: 0,
        error_msg: String::new(),
        userId: 42,
        ssecurity: base64::encode([9u8; 16]),
        st: String::from("ST"),
        at: String::from("AT"),
    }
}

fn expected_sign(url: &str, query: &str, key: &[u8], nonce: i64) -> String {
    let mut mac = hmac::Hmac::<sha2::Sha256>::new_from_slice(key).unwrap();
    mac.update(format!("POST&{}&{}&{}", url, query, nonce).as_bytes());
    let mut s = vec![0u8; 40];
    s.extend_from_slice(&nonce.to_be_bytes());
    s.extend_from_slice(&mac.finalize().into_bytes());
    base64::encode_config(s, base64::URL_SAFE_NO_PAD)
}

#[test]
fn cookies() {
    let u = user();
    assert_eq!(u.kuaishou_cookie(&token()), "acfun.midground.api_st=ST; userId=42");
    assert_eq!(
        u.acfun_cookie(&String::from("d1d")),
        "_did=acfun_live_toolbox_d1d; acPasstoken=pass; auth_key=42"
    );
    let mut neg = user();
    neg.userid = -7;
    assert_eq!(neg.kuaishou_cookie(&token()), "acfun.midground.api_st=ST; userId=-7");
}

#[test]
fn decimals() {
    assert_eq!(i64_to_decimal(0), "0");
    assert_eq!(i64_to_decimal(12345), "12345");
    assert_eq!(i64_to_decimal(-10), "-10");
    assert_eq!(i64_to_decimal(i64::MIN), "-9223372036854775808");
    assert_eq!(i64_to_decimal(i64::MAX), "9223372036854775807");
    let mut s = String::from("_=");
    push_u128_decimal(&mut s, 1_700_000_000_123);
    assert_eq!(s, "_=1700000000123");
}

#[test]
fn key_order_is_byte_order() {
    assert!(str_less("appver", "kpf"));
    assert!(str_less("kpn", "subBiz"));
    assert!(str_less("liveId", "subBiz"));
    assert!(str_less("Z", "a"));
    assert!(str_less("kp", "kpf"));
    assert!(!str_less("kpf", "kpf"));
    assert!(!str_less("sys", "subBiz"));
}

#[test]
fn base_query() {
    let q = query_string(&sign_param_list(&vec![]));
    assert_eq!(q, BASE);
}

#[test]
fn query_with_live_id() {
    let q = query_string(&sign_param_list(&vec![param("liveId", "abc")]));
    assert_eq!(
        q,
        "appver=1.9.0.200&kpf=WINDOWS_PC&kpn=ACFUN_APP.LIVE_MATE&liveId=abc&subBiz=mainApp&sys=PC_10"
    );
}

#[test]
fn later_value_replaces_earlier() {
    let q = query_string(&sign_param_list(&vec![param("sys", "PC_11")]));
    assert_eq!(
        q,
        "appver=1.9.0.200&kpf=WINDOWS_PC&kpn=ACFUN_APP.LIVE_MATE&subBiz=mainApp&sys=PC_11"
    );
    let l = sort_params(&vec![param("b", "1"), param("a", "2"), param("b", "3")]);
    assert_eq!(l, vec![param("a", "2"), param("b", "3")]);
}

#[test]
fn query_does_not_depend_on_order() {
    let a = query_string(&vec![param("x", "1"), param("c", "2"), param("m", "3")]);
    let b = query_string(&vec![param("m", "3"), param("x", "1"), param("c", "2")]);
    assert_eq!(a, b);
    assert_eq!(a, "c=2&m=3&x=1");
}

#[test]
fn nonce_keeps_high_minutes() {
    assert_eq!(nonce_from(0x1_0000_0005, 7), 0x1_0000_0007);
    assert_eq!(nonce_from(28_000_000, 0xdead_beef), 0xdead_beef);
    assert_eq!(nonce_from(u64::MAX, 0), -0x1_0000_0000);
}

#[test]
fn signature_of_known_nonce() {
    let t = token();
    let (q, s) = sign_with_nonce("/rest/zt/live/startPush", &t.ssecurity, &vec![], 12345);
    assert_eq!(q, BASE);
    assert_eq!(s, expected_sign("/rest/zt/live/startPush", BASE, &[9u8; 16], 12345));
    let (_, s2) = sign_with_nonce("/rest/zt/live/stopPush", &t.ssecurity, &vec![], 12345);
    assert_ne!(s, s2);
}

#[test]
fn signature_carries_its_nonce() {
    let t = token();
    let (q, s) = sign("/rest/zt/live/authorAuth", &t.ssecurity, &vec![]).unwrap();
    assert_eq!(q, BASE);
    let raw = base64::decode_config(&s, base64::URL_SAFE_NO_PAD).unwrap();
    assert_eq!(raw.len(), 40 + 8 + 32);
    assert!(raw[..40].iter().all(|b| *b == 0));
    let nonce = i64::from_be_bytes(raw[40..48].try_into().unwrap());
    assert_eq!(s, expected_sign("/rest/zt/live/authorAuth", BASE, &[9u8; 16], nonce));
}

#[test]
fn bad_secret_signs_nothing() {
    let bad = Some(SignError::BadSecret);
    assert_eq!(try_sign("/x", &String::from("***"), &vec![]).err(), bad);
    let mut t = token();
    t.ssecurity = String::from("***");
    assert_eq!(author_auth_request(&user(), &t, "1.0").err(), bad);
    assert!(start_push_request(&user(), &t, "1.0").is_err());
    assert!(stop_push_request(&user(), &t, "1.0", "L").is_err());
    assert!(gift_list_request(&user(), &t, "1.0").is_err());
}

fn header<'a>(r: &'a [(String, String)], name: &str) -> &'a str {
    r.iter().find(|(k, _)| k == name).map(|(_, v)| v.as_str()).unwrap()
}

#[test]
fn signed_requests() {
    let r = author_auth_request(&user(), &token(), "0.1.0").unwrap();
    assert_eq!(r.method, "POST");
    let prefix = format!("https://api.kuaishouzt.com/rest/zt/live/authorAuth?{}&__clientSign=", BASE);
    assert!(r.url.starts_with(&prefix));
    assert!(r.body.is_empty());
    assert_eq!(header(&r.headers, "cookie"), "acfun.midground.api_st=ST; userId=42");
    assert_eq!(header(&r.headers, "user-agent"), "acfun_live_toolbox 0.1.0");
    assert_eq!(header(&r.headers, "content-type"), "application/x-www-form-urlencoded");
    let r = start_push_request(&user(), &token(), "0.1.0").unwrap();
    assert!(r.url.starts_with("https://api.kuaishouzt.com/rest/zt/live/startPush?"));
    assert_eq!(header(&r.headers, "content-type"), "multipart/form-data");
    let r = stop_push_request(&user(), &token(), "0.1.0", "L9").unwrap();
    assert!(r.url.contains("&liveId=L9&"));
    let r = gift_list_request(&user(), &token(), "0.1.0").unwrap();
    assert!(r.url.starts_with("https://api.kuaishouzt.com/rest/zt/live/gift/all?"));
}

#[test]
fn stream_requests() {
    let r = stream_config_request(&user(), &token(), "0.1.0");
    assert_eq!(r.url, "https://api.kuaishouzt.com/rest/zt/live/web/obs/config");
    assert_eq!(
        r.body,
        "kpf=WINDOWS_PC&kpn=ACFUN_APP.LIVE_MATE&subBiz=mainApp&userId=42&acfun.midground.api_st=ST"
    );
    assert_eq!(header(&r.headers, "referer"), "https://member.acfun.cn/");
    let r = stream_status_request(&user(), &token(), "0.1.0");
    assert_eq!(r.url, "https://api.kuaishouzt.com/rest/zt/live/web/obs/status");
    assert_eq!(make_user_agent("2"), "acfun_live_toolbox 2");
}

fn start_data() -> StartPushData {
    StartPushData {
        videoPushRes: String::new(),
        liveId: String::from("L1"),
        enterRoomAttach: String::from("att"),
        availableTickets: vec![String::from("t1")],
        notices: vec![],
        ticketRetryCount: 0,
        ticketRetryIntervalMs: 0,
        config: PushConfig { giftSlotSize: 0 },
    }
}

#[test]
fn command_decisions() {
    assert!(!is_login(&None));
    assert!(is_login(&Some(user())));
    assert!(succeeded(1));
    assert!(!succeeded(0));
    assert_eq!(live_id_of(1, String::from("L")), Some(String::from("L")));
    assert_eq!(live_id_of(2, String::from("L")), None);
    let addrs = vec![String::from("rtmp://a"), String::from("rtmp://b")];
    assert_eq!(push_address_of(1, &addrs), Some(String::from("rtmp://a")));
    assert_eq!(push_address_of(0, &vec![]), None);
    assert!(token_granted(&token()));
    let mut t = token();
    t.result = 5;
    assert!(!token_granted(&t));
}

#[test]
fn client_for_started_push() {
    let mut t = token();
    t.ssecurity = base64::encode([4u8; 32]);
    let c = client_for_push(&user(), &t, 1, start_data()).unwrap();
    assert_eq!(c.userid, 42);
    assert_eq!(c.service_token, "ST");
    assert_eq!(c.security_key, [4u8; 32]);
    assert_eq!(c.live_id, "L1");
    assert_eq!(c.tickets, vec![String::from("t1")]);
    assert_eq!(c.session_key, [0u8; 32]);
    assert_eq!(c.instance_id, 0);
    assert_eq!(c.lz4_compression_threshold, 0);
    assert!(client_for_push(&user(), &t, 0, start_data()).is_none());
    assert!(client_for_push(&user(), &token(), 1, start_data()).is_none());
}

#[test]
fn nonce_takes_whole_minutes() {
    // 2^32 + 5 minutes and 59.999 seconds
    let ms = ((1u128 << 32) + 5) * 60_000 + 59_999;
    assert_eq!(nonce_at_millis(ms, 7), (1i64 << 32) + 7);
    assert_eq!(nonce_at_millis(0, u32::MAX), 4_294_967_295);
    assert_eq!(nonce_at_millis(59_999, 1), 1);
}
