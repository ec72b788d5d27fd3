use acfun_live_toolbox::login::{
    qr_poll, qr_start, token_request, LoginAction, LoginEvent, LoginStage, QrLogin,
};
use acfun_live_toolbox::sdk::{Token, User};

fn token(result: i32) -> Token {
    Token {
        result,
        error_msg: String::new(),
        userId: 7,
        ssecurity: String::from("c2Vj"),
        st: String::from("ST"),
        at: String::from("AT"),
    }
}

fn caption(a: &LoginAction) -> (String, Option<String>) {
    match a {
        LoginAction::Emit(p) => (p.caption.clone(), p.message.clone()),
        _ => panic!("not an emit"),
    }
}

fn url(a: &LoginAction) -> String {
    match a {
        LoginAction::Get(u) => u.clone(),
        _ => panic!("not a get"),
    }
}

#[test]
fn qr_urls() {
    assert_eq!(
        qr_start(1700000000123),
        "https://scan.acfun.cn/rest/pc-direct/qr/start?type=WEB_LOGIN&_=1700000000123"
    );
    assert_eq!(
        qr_poll(&String::from("scanResult"), &String::from("T"), &String::from("S"), 5),
        "https://scan.acfun.cn/rest/pc-direct/qr/scanResult?qrLoginToken=T&qrLoginSignature=S&_=5"
    );
}

#[test]
fn token_request_form() {
    let u = User {
        userid: 7,
        username: String::from("ann"),
        avatar: String::new(),
        passtoken: String::from("P"),
    };
    let r = token_request(&u, &String::from("D"), "0.1.0");
    assert_eq!(r.method, "POST");
    assert_eq!(r.url, "https://id.app.acfun.cn/rest/app/token/get");
    assert_eq!(r.body, "sid=acfun.midground.api");
    assert_eq!(
        r.headers,
        vec![
            (String::from("content-type"), String::from("application/x-www-form-urlencoded")),
            (String::from("cookie"), String::from("_did=acfun_live_toolbox_D; acPasstoken=P; auth_key=7")),
            (String::from("user-agent"), String::from("acfun_live_toolbox 0.1.0")),
        ]
    );
}

fn accepted(l: &mut QrLogin) -> Vec<LoginAction> {
    let acts = l.step(LoginEvent::Begin { now_ms: 1 });
    assert_eq!(caption(&acts[0]), (String::from("获取二维码中"), None));
    assert_eq!(url(&acts[1]), "https://scan.acfun.cn/rest/pc-direct/qr/start?type=WEB_LOGIN&_=1");
    let acts = l.step(LoginEvent::Started {
        image_data: String::from("IMG"),
        next: String::from("scanResult"),
        qr_login_token: String::from("QT"),
        qr_login_signature: String::from("S1"),
        now_ms: 2,
    });
    assert_eq!(
        caption(&acts[0]),
        (String::from("请使用AcFun App扫码登录"), Some(String::from("data:image/png;base64,IMG")))
    );
    assert_eq!(
        url(&acts[1]),
        "https://scan.acfun.cn/rest/pc-direct/qr/scanResult?qrLoginToken=QT&qrLoginSignature=S1&_=2"
    );
    let acts = l.step(LoginEvent::Scanned {
        next: String::from("acceptResult"),
        qr_login_signature: String::from("S2"),
        now_ms: 3,
    });
    assert_eq!(caption(&acts[0]), (String::from("已扫码，请在AcFun App上确认登录"), None));
    assert_eq!(
        url(&acts[1]),
        "https://scan.acfun.cn/rest/pc-direct/qr/acceptResult?qrLoginToken=QT&qrLoginSignature=S2&_=3"
    );
    l.step(LoginEvent::Accepted {
        user_id: 7,
        username: String::from("ann"),
        avatar: String::from("A"),
        passtoken: String::from("P"),
    })
}

#[test]
fn qr_login_flow() {
    let mut l = QrLogin::new(String::from("D"), String::from("0.1.0"));
    assert_eq!(l.stage, LoginStage::AwaitStart);
    let acts = accepted(&mut l);
    assert_eq!(acts.len(), 3);
    assert_eq!(caption(&acts[0]), (String::from("成功登录，欢迎回来 ann"), None));
    match &acts[1] {
        LoginAction::SaveUser(u) => {
            assert_eq!(u.userid, 7);
            assert_eq!(u.username, "ann");
            assert_eq!(u.avatar, "A");
            assert_eq!(u.passtoken, "P");
        }
        _ => panic!("save"),
    }
    match &acts[2] {
        LoginAction::Post(r) => assert_eq!(r.url, "https://id.app.acfun.cn/rest/app/token/get"),
        _ => panic!("post"),
    }
    assert_eq!(l.stage, LoginStage::AwaitToken);
    let acts = l.step(LoginEvent::TokenIssued(token(0)));
    assert_eq!(l.stage, LoginStage::Done);
    match &acts[0] {
        LoginAction::Store(u, t) => {
            assert_eq!(u.userid, 7);
            assert_eq!(t.st, "ST");
        }
        _ => panic!("store"),
    }
}

#[test]
fn refused_token_fails_login() {
    let mut l = QrLogin::new(String::from("D"), String::from("0.1.0"));
    accepted(&mut l);
    let acts = l.step(LoginEvent::TokenIssued(token(3)));
    assert_eq!(l.stage, LoginStage::Failed);
    assert!(matches!(&acts[0], LoginAction::Fail(t) if t.result == 3));
}

#[test]
fn event_out_of_turn_changes_nothing() {
    let mut l = QrLogin::new(String::from("D"), String::from("0.1.0"));
    let acts = l.step(LoginEvent::Scanned {
        next: String::from("x"),
        qr_login_signature: String::from("y"),
        now_ms: 1,
    });
    assert!(acts.is_empty());
    assert_eq!(l.stage, LoginStage::AwaitStart);
    let acts = l.step(LoginEvent::TokenIssued(token(0)));
    assert!(acts.is_empty());
    assert_eq!(l.stage, LoginStage::AwaitStart);
}
