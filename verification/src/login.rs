//! Logging in with a QR code: a machine that, from each answer of the
//! login server, decides what to show, what to fetch next, and what to keep.
use crate::live::{
    make_user_agent, param, user_agent, HttpRequest, CONTENT_TYPE, COOKIE, FORM_CONTENT, POST,
    USER_AGENT,
};
use crate::query::{params_view, Param};
use crate::sdk::{Token, User};
use crate::text::{nat_decimal, push_u128_decimal};
use vstd::prelude::*;

verus! {

/// The URL that starts a QR login, before the time stamp.
pub const QR_START: &'static str = "https://scan.acfun.cn/rest/pc-direct/qr/start?type=WEB_LOGIN&_=";

/// The base of the URLs that follow a QR login.
pub const QR_BASE: &'static str = "https://scan.acfun.cn/rest/pc-direct/qr/";

/// The URL that issues the token of the live API.
pub const TOKEN_URL: &'static str = "https://id.app.acfun.cn/rest/app/token/get";

/// The form that asks for the token of the live API.
pub const TOKEN_FORM: &'static str = "sid=acfun.midground.api";

/// Shown while the QR code is fetched.
pub const CAPTION_FETCHING: &'static str = "获取二维码中";

/// Shown with the QR code.
pub const CAPTION_SCAN: &'static str = "请使用AcFun App扫码登录";

/// Shown once the code is scanned.
pub const CAPTION_SCANNED: &'static str = "已扫码，请在AcFun App上确认登录";

/// Shown on success, before the user's name.
pub const CAPTION_WELCOME: &'static str = "成功登录，欢迎回来 ";

/// The prefix that makes the QR image a data URL.
pub const QR_IMAGE_PREFIX: &'static str = "data:image/png;base64,";

/// The URL that starts a QR login at `now_ms`.
pub open spec fn qr_start_url(now_ms: u128) -> Seq<char> {
    QR_START@ + nat_decimal(now_ms as nat)
}

/// The URL that follows a QR login at `next`, with its token and signature,
/// at `now_ms`.
pub open spec fn qr_poll_url(next: Seq<char>, token: Seq<char>, signature: Seq<char>, now_ms: u128) -> Seq<char> {
    QR_BASE@ + next + "?qrLoginToken="@ + token + "&qrLoginSignature="@ + signature + "&_="@
        + nat_decimal(now_ms as nat)
}

/// What the login shows: a caption and maybe a text (the QR image).
pub struct LoginPayload {
    /// The caption.
    pub caption: String,
    /// The text, if any.
    pub message: Option<String>,
}

/// The view of an optional text.
pub open spec fn opt_view(m: Option<String>) -> Option<Seq<char>> {
    match m {
        Some(s) => Some(s@),
        None => None,
    }
}

/// Where a QR login stands.
#[derive(Clone, Copy, Debug, PartialEq, Eq)]
pub enum LoginStage {
    /// Not begun.
    AwaitStart,
    /// The QR code was asked for.
    AwaitCode,
    /// The code is shown; waiting for it to be scanned.
    AwaitScan,
    /// The code was scanned; waiting for the user to accept.
    AwaitAccept,
    /// The user accepted; waiting for the token.
    AwaitToken,
    /// Logged in.
    Done,
    /// The token was refused.
    Failed,
}

/// What happened in a QR login.
pub enum LoginEvent {
    /// The login begins, at `now_ms`.
    Begin { now_ms: u128 },
    /// The server gave the QR code.
    Started {
        image_data: String,
        next: String,
        qr_login_token: String,
        qr_login_signature: String,
        now_ms: u128,
    },
    /// The code was scanned.
    Scanned { next: String, qr_login_signature: String, now_ms: u128 },
    /// The user accepted the login.
    Accepted { user_id: i64, username: String, avatar: String, passtoken: String },
    /// The server answered the token request.
    TokenIssued(Token),
}

/// What the caller is to do.
pub enum LoginAction {
    /// Show this.
    Emit(LoginPayload),
    /// Fetch this URL and hand back its answer.
    Get(String),
    /// Keep this user on disk.
    SaveUser(User),
    /// Send this request and hand back its answer.
    Post(HttpRequest),
    /// The user and the token are logged in.
    Store(User, Token),
    /// The token was refused.
    Fail(Token),
}

/// A QR login in progress.
pub struct QrLogin {
    /// Where it stands.
    pub stage: LoginStage,
    /// The token of the QR code, once given.
    pub qr_login_token: String,
    /// The user, once accepted.
    pub user: Option<User>,
    /// The device id.
    pub did: String,
    /// The version of the toolbox.
    pub version: String,
}

/// The form request for the token of the live API, for `user` on the
/// device `did`, from the toolbox at `version`.
pub open spec fn is_token_request(r: HttpRequest, user: User, did: Seq<char>, version: Seq<char>) -> bool {
    &&& r.method@ == POST@
    &&& r.url@ == TOKEN_URL@
    &&& params_view(r.headers@) == seq![
        (CONTENT_TYPE@, FORM_CONTENT@),
        (COOKIE@, user.acfun_cookie_spec(did)),
        (USER_AGENT@, user_agent(version)),
    ]
    &&& r.body@ == TOKEN_FORM@
}

/// The request for the token of the live API.
pub fn token_request(user: &User, did: &String, version: &str) -> (r: HttpRequest)
    ensures
        is_token_request(r, *user, did@, version@),
{
    let mut headers: Vec<Param> = Vec::new();
    headers.push(param(CONTENT_TYPE, FORM_CONTENT));
    headers.push((String::from_str(COOKIE), user.acfun_cookie(did)));
    headers.push((String::from_str(USER_AGENT), make_user_agent(version)));
    assert(params_view(headers@) =~= seq![
        (CONTENT_TYPE@, FORM_CONTENT@),
        (COOKIE@, user.acfun_cookie_spec(did@)),
        (USER_AGENT@, user_agent(version@)),
    ]);
    HttpRequest {
        method: String::from_str(POST),
        url: String::from_str(TOKEN_URL),
        headers,
        body: String::from_str(TOKEN_FORM),
    }
}

/// The URL that starts a QR login at `now_ms`.
pub fn qr_start(now_ms: u128) -> (r: String)
    ensures
        r@ == qr_start_url(now_ms),
{
    let mut s = String::from_str(QR_START);
    push_u128_decimal(&mut s, now_ms);
    s
}

/// The URL that follows a QR login.
pub fn qr_poll(next: &String, token: &String, signature: &String, now_ms: u128) -> (r: String)
    ensures
        r@ == qr_poll_url(next@, token@, signature@, now_ms),
{
    let mut s = String::from_str(QR_BASE);
    s.append(next.as_str());
    s.append("?qrLoginToken=");
    s.append(token.as_str());
    s.append("&qrLoginSignature=");
    s.append(signature.as_str());
    s.append("&_=");
    push_u128_decimal(&mut s, now_ms);
    s
}

/// Whether `a` shows `caption` and `message`.
pub open spec fn emits(a: LoginAction, caption: Seq<char>, message: Option<Seq<char>>) -> bool {
    a matches LoginAction::Emit(p) && p.caption@ == caption && opt_view(p.message) == message
}

/// Whether `a` fetches `url`.
pub open spec fn gets(a: LoginAction, url: Seq<char>) -> bool {
    a matches LoginAction::Get(u) && u@ == url
}

/// Whether, from `s0`, the event `ev` leaves `s1` and the actions `acts`.
///
/// Beginning shows that the code is fetched and fetches it. The code is
/// shown with its image and the login polls for the scan; the scan is
/// shown and the login polls for the acceptance, with the token of the code;
/// the acceptance welcomes the user, saves them, and asks for the token of
/// the live API; a token with result 0 logs the user in, another fails the
/// login. An event that does not fit the stage changes nothing.
pub open spec fn login_stepped(s0: QrLogin, s1: QrLogin, ev: LoginEvent, acts: Seq<LoginAction>) -> bool {
    match (s0.stage, ev) {
        (LoginStage::AwaitStart, LoginEvent::Begin { now_ms }) => {
            &&& s1 == QrLogin { stage: LoginStage::AwaitCode, ..s0 }
            &&& acts.len() == 2
            &&& emits(acts[0], CAPTION_FETCHING@, None)
            &&& gets(acts[1], qr_start_url(now_ms))
        },
        (
            LoginStage::AwaitCode,
            LoginEvent::Started { image_data, next, qr_login_token, qr_login_signature, now_ms },
        ) => {
            &&& s1 == QrLogin { stage: LoginStage::AwaitScan, qr_login_token, ..s0 }
            &&& acts.len() == 2
            &&& emits(acts[0], CAPTION_SCAN@, Some(QR_IMAGE_PREFIX@ + image_data@))
            &&& gets(acts[1], qr_poll_url(next@, qr_login_token@, qr_login_signature@, now_ms))
        },
        (LoginStage::AwaitScan, LoginEvent::Scanned { next, qr_login_signature, now_ms }) => {
            &&& s1 == QrLogin { stage: LoginStage::AwaitAccept, ..s0 }
            &&& acts.len() == 2
            &&& emits(acts[0], CAPTION_SCANNED@, None)
            &&& gets(
                acts[1],
                qr_poll_url(next@, s0.qr_login_token@, qr_login_signature@, now_ms),
            )
        },
        (LoginStage::AwaitAccept, LoginEvent::Accepted { user_id, username, avatar, passtoken }) => {
            let user = User { userid: user_id, username, avatar, passtoken };
            &&& s1 == QrLogin { stage: LoginStage::AwaitToken, user: Some(user), ..s0 }
            &&& acts.len() == 3
            &&& emits(acts[0], CAPTION_WELCOME@ + username@, None)
            &&& acts[1] == LoginAction::SaveUser(user)
            &&& acts[2] matches LoginAction::Post(r) && is_token_request(
                r,
                user,
                s0.did@,
                s0.version@,
            )
        },
        (LoginStage::AwaitToken, LoginEvent::TokenIssued(token)) => {
            match s0.user {
                Some(user) => if token.result == 0 {
                    &&& s1 == QrLogin { stage: LoginStage::Done, ..s0 }
                    &&& acts == seq![LoginAction::Store(user, token)]
                } else {
                    &&& s1 == QrLogin { stage: LoginStage::Failed, ..s0 }
                    &&& acts == seq![LoginAction::Fail(token)]
                },
                None => s1 == s0 && acts.len() == 0,
            }
        },
        _ => s1 == s0 && acts.len() == 0,
    }
}

/// Once the user accepts, the login asks for the token of the live API as
/// the device it was made on, from the toolbox version it was made with: a
/// form `POST` of `sid=acfun.midground.api` whose headers are the form
/// content type, the cookie
/// `_did=acfun_live_toolbox_{did}; acPasstoken={passtoken}; auth_key={user id}`
/// and the user agent `acfun_live_toolbox {version}`.
pub proof fn lemma_token_request_is_for_this_device(
    s0: QrLogin,
    s1: QrLogin,
    ev: LoginEvent,
    acts: Seq<LoginAction>,
)
    requires
        login_stepped(s0, s1, ev, acts),
        s0.stage == LoginStage::AwaitAccept,
        ev is Accepted,
    ensures
        acts.len() == 3,
        acts[2] matches LoginAction::Post(r) && {
            &&& r.method@ == "POST"@
            &&& r.url@ == "https://id.app.acfun.cn/rest/app/token/get"@
            &&& r.body@ == "sid=acfun.midground.api"@
            &&& params_view(r.headers@) == seq![
                ("content-type"@, "application/x-www-form-urlencoded"@),
                (
                    "cookie"@,
                    "_did=acfun_live_toolbox_"@ + s0.did@ + "; acPasstoken="@ + ev->passtoken@
                        + "; auth_key="@ + crate::text::decimal(ev->user_id as int),
                ),
                ("user-agent"@, "acfun_live_toolbox "@ + s0.version@),
            ]
        },
{
}

/// Once the code is given, the poll that waits for the scan carries the
/// token of that code: after `Started` with the token `qr_login_token`
/// and then `Scanned` with `next`, `qr_login_signature` and `now_ms`, the
/// login fetches
/// `https://scan.acfun.cn/rest/pc-direct/qr/{next}?qrLoginToken={token}&qrLoginSignature={signature}&_={now_ms}`.
pub proof fn lemma_scan_poll_carries_code_token(
    s0: QrLogin,
    s1: QrLogin,
    s2: QrLogin,
    started: LoginEvent,
    scanned: LoginEvent,
    a1: Seq<LoginAction>,
    a2: Seq<LoginAction>,
)
    requires
        s0.stage == LoginStage::AwaitCode,
        started is Started,
        scanned is Scanned,
        login_stepped(s0, s1, started, a1),
        login_stepped(s1, s2, scanned, a2),
    ensures
        s2.stage == LoginStage::AwaitAccept,
        a2.len() == 2,
        a2[1] matches LoginAction::Get(u) && u@ == "https://scan.acfun.cn/rest/pc-direct/qr/"@
            + scanned->Scanned_next@ + "?qrLoginToken="@ + started->Started_qr_login_token@
            + "&qrLoginSignature="@ + scanned->Scanned_qr_login_signature@ + "&_="@
            + nat_decimal(scanned->Scanned_now_ms as nat),
{
}

/// The token that the server issues after the user accepted logs in that
/// user exactly when its result is 0: the login then stores the accepted
/// user with the token, and otherwise fails with it.
pub proof fn lemma_token_logs_in_accepted_user(
    s0: QrLogin,
    s1: QrLogin,
    s2: QrLogin,
    accepted: LoginEvent,
    token: Token,
    a1: Seq<LoginAction>,
    a2: Seq<LoginAction>,
)
    requires
        s0.stage == LoginStage::AwaitAccept,
        accepted is Accepted,
        login_stepped(s0, s1, accepted, a1),
        login_stepped(s1, s2, LoginEvent::TokenIssued(token), a2),
    ensures
        ({
            let user = User {
                userid: accepted->user_id,
                username: accepted->username,
                avatar: accepted->avatar,
                passtoken: accepted->passtoken,
            };
            if token.result == 0 {
                s2.stage == LoginStage::Done && a2 == seq![LoginAction::Store(user, token)]
            } else {
                s2.stage == LoginStage::Failed && a2 == seq![LoginAction::Fail(token)]
            }
        }),
{
}

impl QrLogin {
    /// A QR login on the device `did`, from the toolbox at `version`.
    pub fn new(did: String, version: String) -> (r: QrLogin)
        ensures
            r.stage == LoginStage::AwaitStart,
            r.qr_login_token@ == Seq::<char>::empty(),
            r.user is None,
            r.did == did,
            r.version == version,
    {
        QrLogin { stage: LoginStage::AwaitStart, qr_login_token: String::new(), user: None, did, version }
    }

    /// Takes an event of the login and gives what to do.
    pub fn step(&mut self, ev: LoginEvent) -> (acts: Vec<LoginAction>)
        ensures
            login_stepped(*old(self), *final(self), ev, acts@),
    {
        let mut acts: Vec<LoginAction> = Vec::new();
        match (self.stage, ev) {
            (LoginStage::AwaitStart, LoginEvent::Begin { now_ms }) => {
                self.stage = LoginStage::AwaitCode;
                acts.push(
                    LoginAction::Emit(
                        LoginPayload { caption: String::from_str(CAPTION_FETCHING), message: None },
                    ),
                );
                acts.push(LoginAction::Get(qr_start(now_ms)));
            },
            (
                LoginStage::AwaitCode,
                LoginEvent::Started { image_data, next, qr_login_token, qr_login_signature, now_ms },
            ) => {
                let mut image = String::from_str(QR_IMAGE_PREFIX);
                image.append(image_data.as_str());
                acts.push(
                    LoginAction::Emit(
                        LoginPayload { caption: String::from_str(CAPTION_SCAN), message: Some(image) },
                    ),
                );
                acts.push(LoginAction::Get(qr_poll(&next, &qr_login_token, &qr_login_signature, now_ms)));
                self.stage = LoginStage::AwaitScan;
                self.qr_login_token = qr_login_token;
            },
            (LoginStage::AwaitScan, LoginEvent::Scanned { next, qr_login_signature, now_ms }) => {
                acts.push(
                    LoginAction::Emit(
                        LoginPayload { caption: String::from_str(CAPTION_SCANNED), message: None },
                    ),
                );
                acts.push(
                    LoginAction::Get(qr_poll(&next, &self.qr_login_token, &qr_login_signature, now_ms)),
                );
                self.stage = LoginStage::AwaitAccept;
            },
            (LoginStage::AwaitAccept, LoginEvent::Accepted { user_id, username, avatar, passtoken }) => {
                let mut welcome = String::from_str(CAPTION_WELCOME);
                welcome.append(username.as_str());
                let user = User { userid: user_id, username, avatar, passtoken };
                acts.push(LoginAction::Emit(LoginPayload { caption: welcome, message: None }));
                acts.push(LoginAction::SaveUser(user.duplicate()));
                acts.push(LoginAction::Post(token_request(&user, &self.did, self.version.as_str())));
                self.user = Some(user);
                self.stage = LoginStage::AwaitToken;
            },
            (LoginStage::AwaitToken, LoginEvent::TokenIssued(token)) => {
                match &self.user {
                    Some(user) => {
                        if token.result == 0 {
                            acts.push(LoginAction::Store(user.duplicate(), token));
                            self.stage = LoginStage::Done;
                        } else {
                            acts.push(LoginAction::Fail(token));
                            self.stage = LoginStage::Failed;
                        }
                    },
                    None => {},
                }
            },
            _ => {},
        }
        acts
    }
}

} // verus!
