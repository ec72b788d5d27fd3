//! The live API: signing its requests, and the requests themselves. The
//! caller sends each `HttpRequest` and reads the JSON answer.
use crate::client::{KPF, KPN, SUB_BIZ};
use crate::clock::unix_time_millis;
use crate::frame::{base64_decode, base64_decoded};
use crate::proto::utf8;
use crate::query::{is_query_of, params_view, query_string, Param};
use crate::sdk::{Token, User};
use crate::text::{decimal, push_decimal};
use hmac::Mac;
use rand::Rng;
use vstd::prelude::*;

verus! {

/// The host of the live API.
pub const KUAISHOU_ZT: &'static str = "https://api.kuaishouzt.com";

/// The path that checks whether the user may stream.
pub const AUTHOR_AUTH: &'static str = "/rest/zt/live/authorAuth";

/// The path of the stream configuration.
pub const LIVE_CONFIG: &'static str = "/rest/zt/live/web/obs/config";

/// The path of the stream status.
pub const LIVE_STATUS: &'static str = "/rest/zt/live/web/obs/status";

/// The path that starts streaming.
pub const START_PUSH: &'static str = "/rest/zt/live/startPush";

/// The path that stops streaming.
pub const STOP_PUSH: &'static str = "/rest/zt/live/stopPush";

/// The path of the gift list.
pub const GIFT_ALL: &'static str = "/rest/zt/live/gift/all";

/// The AcFun member site, the referer of the stream requests.
pub const ACFUN_MEMBER: &'static str = "https://member.acfun.cn/";

/// The `appver` parameter of every signed request.
pub const APP_VERSION: &'static str = "1.9.0.200";

/// The `sys` parameter of every signed request.
pub const SYS: &'static str = "PC_10";

/// The method of every request of the live API.
pub const POST: &'static str = "POST";

/// The form content type.
pub const FORM_CONTENT: &'static str = "application/x-www-form-urlencoded";

/// The multipart content type.
pub const MULTIPART_CONTENT: &'static str = "multipart/form-data";

/// The product name in the user agent.
pub const USER_AGENT_PREFIX: &'static str = "acfun_live_toolbox ";

/// The name of the cookie header.
pub const COOKIE: &'static str = "cookie";

/// The name of the user agent header.
pub const USER_AGENT: &'static str = "user-agent";

/// The name of the content type header.
pub const CONTENT_TYPE: &'static str = "content-type";

/// The name of the referer header.
pub const REFERER: &'static str = "referer";

/// The HMAC-SHA256 of `msg` under `key`.
pub uninterp spec fn hmac_sha256(key: Seq<u8>, msg: Seq<u8>) -> Seq<u8>;

/// What `base64::encode_config` with `URL_SAFE_NO_PAD` gives for `s`.
pub uninterp spec fn base64_url_nopad(s: Seq<u8>) -> Seq<char>;

/// Computes HMAC-SHA256.
///
/// Makes a `hmac::Hmac<sha2::Sha256>` with `Mac::new_from_slice(key)`, which
/// the source accepts for every key length, feeds it `msg` and takes
/// `finalize().into_bytes()`; the result is named `hmac_sha256` and has the
/// 32 bytes of a SHA-256 digest.
#[verifier::external_body]
pub(crate) fn hmac_sha256_of(key: &[u8], msg: &[u8]) -> (r: Vec<u8>)
    ensures
        r@ == hmac_sha256(key@, msg@),
        r@.len() == 32,
{
    let mut mac = <hmac::Hmac<sha2::Sha256> as Mac>::new_from_slice(key).unwrap();
    mac.update(msg);
    mac.finalize().into_bytes().to_vec()
}

/// Encodes bytes in URL-safe base64 without padding.
///
/// Calls `base64::encode_config(s, base64::URL_SAFE_NO_PAD)`; its result is
/// named `base64_url_nopad`.
#[verifier::external_body]
pub(crate) fn base64_url_encode(s: &[u8]) -> (r: String)
    ensures
        r@ == base64_url_nopad(s@),
{
    base64::encode_config(s, base64::URL_SAFE_NO_PAD)
}

/// A random `u32`.
///
/// Calls `rand::thread_rng().gen::<u32>()`: nothing is stated of the value.
#[verifier::external_body]
pub(crate) fn random_u32() -> (r: u32) {
    rand::thread_rng().gen::<u32>()
}

/// The nonce of a signature made `minutes` minutes after the epoch with the
/// random number `random`: the low 32 bits of `minutes` replaced with
/// `random`, read as `i64`: a `u32` laid over the low half of a `u64` in a
/// union, on a little-endian machine.
pub open spec fn nonce_of(minutes: u64, random: u32) -> i64 {
    ((minutes / 0x1_0000_0000) * 0x1_0000_0000 + random) as i64
}

/// The nonce of a signature made `minutes` minutes after the epoch with the
/// random number `random`.
pub fn nonce_from(minutes: u64, random: u32) -> (r: i64)
    ensures
        r == nonce_of(minutes, random),
{
    ((minutes / 0x1_0000_0000) * 0x1_0000_0000 + random as u64) as i64
}

/// The whole minutes in `ms` milliseconds, kept to their low 64 bits.
pub open spec fn minutes_of_millis(ms: u128) -> u64 {
    ((ms / 1000) / 60) as u64
}

/// The nonce of a signature made `ms` milliseconds after the epoch with
/// the random number `random`.
pub fn nonce_at_millis(ms: u128, random: u32) -> (r: i64)
    ensures
        r == nonce_of(minutes_of_millis(ms), random),
{
    let minutes = ((ms / 1000) / 60) as u64;
    nonce_from(minutes, random)
}

/// A fresh nonce, from the milliseconds since the epoch that the clock
/// reads and a random number; `None` when the clock reads a time before the
/// epoch.
pub fn generate_nonce() -> (r: Option<i64>)
    ensures
        r matches Some(n) ==> exists|ms: u128, random: u32|
            n == nonce_of(minutes_of_millis(ms), random),
{
    let ms = match unix_time_millis() {
        Some(ms) => ms,
        None => return None,
    };
    let random = random_u32();
    let n = nonce_at_millis(ms, random);
    assert(n == nonce_of(minutes_of_millis(ms), random));
    Some(n)
}

/// The parameters of every signed request, then `extra`.
pub open spec fn sign_params(extra: Seq<(Seq<char>, Seq<char>)>) -> Seq<(Seq<char>, Seq<char>)> {
    seq![
        ("appver"@, APP_VERSION@),
        ("sys"@, SYS@),
        ("kpn"@, KPN@),
        ("kpf"@, KPF@),
        ("subBiz"@, SUB_BIZ@),
    ] + extra
}

/// The big-endian bytes of `v` in two's complement.
pub open spec fn be_i64_bytes(v: i64) -> Seq<u8> {
    crate::frame::be_u64_bytes((v as u64) as nat)
}

/// The text that a signature covers: `POST&{url}&{query}&{nonce}`.
pub open spec fn signed_text(url: Seq<char>, query: Seq<char>, nonce: i64) -> Seq<char> {
    "POST&"@ + url + "&"@ + query + "&"@ + decimal(nonce as int)
}

/// The signature of a request to `url` with the query `query`, made with
/// `key` and `nonce`: 40 zero bytes, the nonce's 8 big-endian bytes and the
/// HMAC-SHA256 of the signed text, in URL-safe base64 without padding.
pub open spec fn signature(key: Seq<u8>, url: Seq<char>, query: Seq<char>, nonce: i64) -> Seq<
    char,
> {
    base64_url_nopad(
        Seq::new(40, |i: int| 0u8) + be_i64_bytes(nonce) + hmac_sha256(
            key,
            utf8(signed_text(url, query, nonce)),
        ),
    )
}

/// Whether the secret `token` is base64, as signing needs.
pub open spec fn token_decodes(token: Seq<char>) -> bool {
    base64_decoded(utf8(token)) is Some
}

/// Whether `r` is the query and the signature of a request to `url` with
/// the parameters `extra`, signed with the secret `token` and `nonce`.
pub open spec fn signs(
    r: (Seq<char>, Seq<char>),
    url: Seq<char>,
    token: Seq<char>,
    extra: Seq<(Seq<char>, Seq<char>)>,
    nonce: i64,
) -> bool {
    &&& is_query_of(r.0, sign_params(extra))
    &&& r.1 == signature(base64_decoded(utf8(token)).unwrap(), url, r.0, nonce)
}

/// Appends the eight big-endian bytes of `v`.
fn push_be_i64(buf: &mut Vec<u8>, v: i64)
    ensures
        final(buf)@ == old(buf)@ + be_i64_bytes(v),
{
    let u = v as u64;
    buf.push(((u / 0x100000000000000) % 256) as u8);
    buf.push(((u / 0x1000000000000) % 256) as u8);
    buf.push(((u / 0x10000000000) % 256) as u8);
    buf.push(((u / 0x100000000) % 256) as u8);
    buf.push(((u / 0x1000000) % 256) as u8);
    buf.push(((u / 0x10000) % 256) as u8);
    buf.push(((u / 0x100) % 256) as u8);
    buf.push((u % 256) as u8);
    assert(final(buf)@ =~= old(buf)@ + be_i64_bytes(v));
}

/// Makes a parameter from two texts.
pub fn param(k: &str, v: &str) -> (r: Param)
    ensures
        r.0@ == k@,
        r.1@ == v@,
{
    (String::from_str(k), String::from_str(v))
}

/// The parameters of every signed request, then `extra`.
pub fn sign_param_list(extra: &Vec<Param>) -> (r: Vec<Param>)
    ensures
        params_view(r@) == sign_params(params_view(extra@)),
{
    let mut items: Vec<Param> = Vec::new();
    items.push(param("appver", APP_VERSION));
    items.push(param("sys", SYS));
    items.push(param("kpn", KPN));
    items.push(param("kpf", KPF));
    items.push(param("subBiz", SUB_BIZ));
    let mut i: usize = 0;
    while i < extra.len()
        invariant
            i <= extra@.len(),
            params_view(items@) == sign_params(params_view(extra@).take(i as int)),
        decreases extra@.len() - i,
    {
        let ghost before = items@;
        let p = (extra[i].0.clone(), extra[i].1.clone());
        items.push(p);
        proof {
            assert(params_view(items@) =~= params_view(before).push(params_view(extra@)[i as int]));
            assert(params_view(extra@).take(i + 1) =~= params_view(extra@).take(i as int).push(
                params_view(extra@)[i as int],
            ));
            assert(params_view(items@) =~= sign_params(params_view(extra@).take(i + 1)));
        }
        i = i + 1;
    }
    assert(params_view(extra@).take(i as int) =~= params_view(extra@));
    items
}

/// Signs a request to `url` with the parameters `extra`, using the base64
/// secret `token` and the nonce `nonce`: gives the query and the signature.
pub fn sign_with_nonce(url: &str, token: &String, extra: &Vec<Param>, nonce: i64) -> (r: (
    String,
    String,
))
    requires
        token_decodes(token@),
    ensures
        signs((r.0@, r.1@), url@, token@, params_view(extra@), nonce),
{
    let key = match base64_decode(token.as_str().as_bytes()) {
        Some(k) => k,
        None => Vec::new(),
    };
    let query = query_string(&sign_param_list(extra));
    let mut text = String::from_str("POST&");
    text.append(url);
    text.append("&");
    text.append(query.as_str());
    text.append("&");
    push_decimal(&mut text, nonce);
    let hash = hmac_sha256_of(key.as_slice(), text.as_str().as_bytes());
    let mut sign = vec![0u8; 40];
    assert(sign@ =~= Seq::new(40, |i: int| 0u8));
    push_be_i64(&mut sign, nonce);
    let mut h = hash;
    sign.append(&mut h);
    let encoded = base64_url_encode(sign.as_slice());
    (query, encoded)
}

/// Why a request could not be signed.
#[derive(Debug, Clone, Copy, PartialEq, Eq)]
pub enum SignError {
    /// The secret of the token is not base64.
    BadSecret,
    /// The clock reads a time before the Unix epoch.
    ClockBeforeEpoch,
}

/// Signs a request to `url` with the parameters `extra`, using the base64
/// secret `token` and a fresh nonce: gives the query and the signature, or
/// `None` when the clock reads a time before the epoch.
pub fn sign(url: &str, token: &String, extra: &Vec<Param>) -> (r: Option<(String, String)>)
    requires
        token_decodes(token@),
    ensures
        r matches Some(p) ==> exists|minutes: u64, random: u32|
            signs((p.0@, p.1@), url@, token@, params_view(extra@), nonce_of(minutes, random)),
{
    let nonce = match generate_nonce() {
        Some(n) => n,
        None => return None,
    };
    Some(sign_with_nonce(url, token, extra, nonce))
}

/// Signs as `sign` does; fails where the secret is not base64, or where
/// the clock reads a time before the epoch.
pub fn try_sign(url: &str, token: &String, extra: &Vec<Param>) -> (r: Result<(String, String), SignError>)
    ensures
        match r {
            Ok(p) => token_decodes(token@) && exists|minutes: u64, random: u32|
                signs((p.0@, p.1@), url@, token@, params_view(extra@), nonce_of(minutes, random)),
            Err(SignError::BadSecret) => !token_decodes(token@),
            Err(SignError::ClockBeforeEpoch) => token_decodes(token@),
        },
{
    match base64_decode(token.as_str().as_bytes()) {
        Some(_) => match sign(url, token, extra) {
            Some(p) => Ok(p),
            None => Err(SignError::ClockBeforeEpoch),
        },
        None => Err(SignError::BadSecret),
    }
}


/// A request to send over HTTP.
pub struct HttpRequest {
    /// The method.
    pub method: String,
    /// The URL.
    pub url: String,
    /// The headers, by name and value, in order.
    pub headers: Vec<Param>,
    /// The body.
    pub body: String,
}

/// The user agent of the toolbox at `version`.
pub open spec fn user_agent(version: Seq<char>) -> Seq<char> {
    USER_AGENT_PREFIX@ + version
}

/// The URL of the signed request to `path` with `query` and `sign`:
/// `{KUAISHOU_ZT}{path}?{query}&__clientSign={sign}`.
pub open spec fn signed_url(path: Seq<char>, query: Seq<char>, sign: Seq<char>) -> Seq<char> {
    KUAISHOU_ZT@ + path + "?"@ + query + "&__clientSign="@ + sign
}

/// Whether `r` is the signed request that the live API answers at
/// `url_path`, signed for `sign_path` with the parameters `extra`, for
/// `user` holding `token`, from the toolbox at `version`, sent as
/// `content_type` with an empty body.
pub open spec fn is_signed_request(
    r: HttpRequest,
    user: User,
    token: Token,
    version: Seq<char>,
    sign_path: Seq<char>,
    url_path: Seq<char>,
    extra: Seq<(Seq<char>, Seq<char>)>,
    content_type: Seq<char>,
) -> bool {
    &&& exists|query: Seq<char>, sign: Seq<char>, minutes: u64, random: u32|
        signs((query, sign), sign_path, token.ssecurity@, extra, nonce_of(minutes, random)) && r.url@
            == signed_url(url_path, query, sign)
    &&& r.method@ == POST@
    &&& params_view(r.headers@) == seq![
        (COOKIE@, user.kuaishou_cookie_spec(&token)),
        (USER_AGENT@, user_agent(version)),
        (CONTENT_TYPE@, content_type),
    ]
    &&& r.body@ == Seq::<char>::empty()
}

/// The user agent of the toolbox at `version`.
pub fn make_user_agent(version: &str) -> (r: String)
    ensures
        r@ == user_agent(version@),
{
    let mut s = String::from_str(USER_AGENT_PREFIX);
    s.append(version);
    s
}

/// A signed request as `is_signed_request` describes it; fails as
/// `try_sign` does.
pub fn signed_request(
    user: &User,
    token: &Token,
    version: &str,
    sign_path: &str,
    url_path: &str,
    extra: &Vec<Param>,
    content_type: &str,
) -> (r: Result<HttpRequest, SignError>)
    ensures
        match r {
            Ok(req) => token_decodes(token.ssecurity@) && is_signed_request(
                req,
                *user,
                *token,
                version@,
                sign_path@,
                url_path@,
                params_view(extra@),
                content_type@,
            ),
            Err(SignError::BadSecret) => !token_decodes(token.ssecurity@),
            Err(SignError::ClockBeforeEpoch) => token_decodes(token.ssecurity@),
        },
{
    let (query, sign) = match try_sign(sign_path, &token.ssecurity, extra) {
        Ok(p) => p,
        Err(e) => return Err(e),
    };
    let mut url = String::from_str(KUAISHOU_ZT);
    url.append(url_path);
    url.append("?");
    url.append(query.as_str());
    url.append("&__clientSign=");
    url.append(sign.as_str());
    let mut headers: Vec<Param> = Vec::new();
    headers.push((String::from_str(COOKIE), user.kuaishou_cookie(token)));
    headers.push((String::from_str(USER_AGENT), make_user_agent(version)));
    headers.push(param(CONTENT_TYPE, content_type));
    let ghost hv = params_view(headers@);
    assert(hv =~= seq![
        (COOKIE@, user.kuaishou_cookie_spec(token)),
        (USER_AGENT@, user_agent(version@)),
        (CONTENT_TYPE@, content_type@),
    ]);
    Ok(HttpRequest { method: String::from_str(POST), url, headers, body: String::new() })
}

proof fn lemma_signed_headers(
    r: HttpRequest,
    user: User,
    token: Token,
    version: Seq<char>,
    sign_path: Seq<char>,
    url_path: Seq<char>,
    extra: Seq<(Seq<char>, Seq<char>)>,
    content_type: Seq<char>,
)
    requires
        is_signed_request(r, user, token, version, sign_path, url_path, extra, content_type),
    ensures
        params_view(r.headers@).len() == 3,
        forall|j: int|
            0 <= j < 3 ==> (#[trigger] params_view(r.headers@)[j].0 == "content-type"@ <==> j == 2),
        params_view(r.headers@)[2].1 == content_type,
{
    reveal_strlit("cookie");
    reveal_strlit("user-agent");
    reveal_strlit("content-type");
    let h = params_view(r.headers@);
    assert(h[0].0 == COOKIE@);
    assert(h[1].0 == USER_AGENT@);
    assert(COOKIE@ != CONTENT_TYPE@) by {
        assert(COOKIE@[2] != CONTENT_TYPE@[2]);
    }
    assert(USER_AGENT@ != CONTENT_TYPE@) by {
        assert(USER_AGENT@[0] != CONTENT_TYPE@[0]);
    }
}

/// Whether `r` is the request that asks whether the user may stream, for `user` holding `token`,
/// from the toolbox at `version`.
pub open spec fn is_author_auth_request(r: HttpRequest, user: User, token: Token, version: Seq<char>) -> bool {
    is_signed_request(r, user, token, version, AUTHOR_AUTH@, AUTHOR_AUTH@, Seq::empty(), FORM_CONTENT@)
}

/// The request that asks whether the user may stream is a `POST` with an empty body to
/// `https://api.kuaishouzt.com/rest/zt/live/authorAuth`, signed for `/rest/zt/live/authorAuth`, whose one
/// `content-type` header, the last of its three, is `application/x-www-form-urlencoded`.
pub proof fn lemma_author_auth_request_shape(r: HttpRequest, user: User, token: Token, version: Seq<char>)
    requires
        is_author_auth_request(r, user, token, version),
    ensures
        r.method@ == "POST"@,
        r.body@ == Seq::<char>::empty(),
        params_view(r.headers@).len() == 3,
        forall|j: int|
            0 <= j < 3 ==> (#[trigger] params_view(r.headers@)[j].0 == "content-type"@ <==> j == 2),
        params_view(r.headers@)[2].1 == "application/x-www-form-urlencoded"@,
        exists|query: Seq<char>, sign: Seq<char>, minutes: u64, random: u32|
            signs((query, sign), "/rest/zt/live/authorAuth"@, token.ssecurity@, Seq::empty(), nonce_of(minutes, random))
                && r.url@ == "https://api.kuaishouzt.com"@ + "/rest/zt/live/authorAuth"@ + "?"@ + query
                + "&__clientSign="@ + sign,
{
    lemma_signed_headers(r, user, token, version, AUTHOR_AUTH@, AUTHOR_AUTH@, Seq::empty(), FORM_CONTENT@);
}

/// Whether `r` is the request that starts streaming, for `user` holding `token`,
/// from the toolbox at `version`.
pub open spec fn is_start_push_request(r: HttpRequest, user: User, token: Token, version: Seq<char>) -> bool {
    is_signed_request(r, user, token, version, START_PUSH@, START_PUSH@, Seq::empty(), MULTIPART_CONTENT@)
}

/// The request that starts streaming is a `POST` with an empty body to
/// `https://api.kuaishouzt.com/rest/zt/live/startPush`, signed for `/rest/zt/live/startPush`, whose one
/// `content-type` header, the last of its three, is `multipart/form-data`.
pub proof fn lemma_start_push_request_shape(r: HttpRequest, user: User, token: Token, version: Seq<char>)
    requires
        is_start_push_request(r, user, token, version),
    ensures
        r.method@ == "POST"@,
        r.body@ == Seq::<char>::empty(),
        params_view(r.headers@).len() == 3,
        forall|j: int|
            0 <= j < 3 ==> (#[trigger] params_view(r.headers@)[j].0 == "content-type"@ <==> j == 2),
        params_view(r.headers@)[2].1 == "multipart/form-data"@,
        exists|query: Seq<char>, sign: Seq<char>, minutes: u64, random: u32|
            signs((query, sign), "/rest/zt/live/startPush"@, token.ssecurity@, Seq::empty(), nonce_of(minutes, random))
                && r.url@ == "https://api.kuaishouzt.com"@ + "/rest/zt/live/startPush"@ + "?"@ + query
                + "&__clientSign="@ + sign,
{
    lemma_signed_headers(r, user, token, version, START_PUSH@, START_PUSH@, Seq::empty(), MULTIPART_CONTENT@);
}

/// Whether `r` is the request that stops streaming the live room `live_id`, for `user` holding `token`,
/// from the toolbox at `version`.
pub open spec fn is_stop_push_request(r: HttpRequest, user: User, token: Token, version: Seq<char>, live_id: Seq<char>) -> bool {
    is_signed_request(r, user, token, version, STOP_PUSH@, STOP_PUSH@, seq![("liveId"@, live_id)], MULTIPART_CONTENT@)
}

/// The request that stops streaming the live room `live_id` is a `POST` with an empty body to
/// `https://api.kuaishouzt.com/rest/zt/live/stopPush`, signed for `/rest/zt/live/stopPush`, whose one
/// `content-type` header, the last of its three, is `multipart/form-data`.
pub proof fn lemma_stop_push_request_shape(r: HttpRequest, user: User, token: Token, version: Seq<char>, live_id: Seq<char>)
    requires
        is_stop_push_request(r, user, token, version, live_id),
    ensures
        r.method@ == "POST"@,
        r.body@ == Seq::<char>::empty(),
        params_view(r.headers@).len() == 3,
        forall|j: int|
            0 <= j < 3 ==> (#[trigger] params_view(r.headers@)[j].0 == "content-type"@ <==> j == 2),
        params_view(r.headers@)[2].1 == "multipart/form-data"@,
        exists|query: Seq<char>, sign: Seq<char>, minutes: u64, random: u32|
            signs((query, sign), "/rest/zt/live/stopPush"@, token.ssecurity@, seq![("liveId"@, live_id)], nonce_of(minutes, random))
                && r.url@ == "https://api.kuaishouzt.com"@ + "/rest/zt/live/stopPush"@ + "?"@ + query
                + "&__clientSign="@ + sign,
{
    lemma_signed_headers(r, user, token, version, STOP_PUSH@, STOP_PUSH@, seq![("liveId"@, live_id)], MULTIPART_CONTENT@);
}

/// Whether `r` is the request that asks for the gift list, for `user` holding `token`,
/// from the toolbox at `version`.
pub open spec fn is_gift_list_request(r: HttpRequest, user: User, token: Token, version: Seq<char>) -> bool {
    is_signed_request(r, user, token, version, STOP_PUSH@, GIFT_ALL@, Seq::empty(), FORM_CONTENT@)
}

/// The request that asks for the gift list is a `POST` with an empty body to
/// `https://api.kuaishouzt.com/rest/zt/live/gift/all`, signed for `/rest/zt/live/stopPush`, whose one
/// `content-type` header, the last of its three, is `application/x-www-form-urlencoded`.
pub proof fn lemma_gift_list_request_shape(r: HttpRequest, user: User, token: Token, version: Seq<char>)
    requires
        is_gift_list_request(r, user, token, version),
    ensures
        r.method@ == "POST"@,
        r.body@ == Seq::<char>::empty(),
        params_view(r.headers@).len() == 3,
        forall|j: int|
            0 <= j < 3 ==> (#[trigger] params_view(r.headers@)[j].0 == "content-type"@ <==> j == 2),
        params_view(r.headers@)[2].1 == "application/x-www-form-urlencoded"@,
        exists|query: Seq<char>, sign: Seq<char>, minutes: u64, random: u32|
            signs((query, sign), "/rest/zt/live/stopPush"@, token.ssecurity@, Seq::empty(), nonce_of(minutes, random))
                && r.url@ == "https://api.kuaishouzt.com"@ + "/rest/zt/live/gift/all"@ + "?"@ + query
                + "&__clientSign="@ + sign,
{
    lemma_signed_headers(r, user, token, version, STOP_PUSH@, GIFT_ALL@, Seq::empty(), FORM_CONTENT@);
}

/// The request that asks whether the user may stream.
pub fn author_auth_request(user: &User, token: &Token, version: &str) -> (r: Result<HttpRequest, SignError>)
    ensures
        match r {
            Ok(req) => token_decodes(token.ssecurity@) && is_author_auth_request(
                req,
                *user,
                *token,
                version@,
            ),
            Err(SignError::BadSecret) => !token_decodes(token.ssecurity@),
            Err(SignError::ClockBeforeEpoch) => token_decodes(token.ssecurity@),
        },
{
    let extra: Vec<Param> = Vec::new();
    proof {
        assert(params_view(extra@) =~= Seq::empty());
    }
    signed_request(user, token, version, AUTHOR_AUTH, AUTHOR_AUTH, &extra, FORM_CONTENT)
}

/// The request that starts streaming.
pub fn start_push_request(user: &User, token: &Token, version: &str) -> (r: Result<HttpRequest, SignError>)
    ensures
        match r {
            Ok(req) => token_decodes(token.ssecurity@) && is_start_push_request(
                req,
                *user,
                *token,
                version@,
            ),
            Err(SignError::BadSecret) => !token_decodes(token.ssecurity@),
            Err(SignError::ClockBeforeEpoch) => token_decodes(token.ssecurity@),
        },
{
    let extra: Vec<Param> = Vec::new();
    proof {
        assert(params_view(extra@) =~= Seq::empty());
    }
    signed_request(user, token, version, START_PUSH, START_PUSH, &extra, MULTIPART_CONTENT)
}

/// The request that stops streaming the live room `live_id`.
pub fn stop_push_request(user: &User, token: &Token, version: &str, live_id: &str) -> (r: Result<
    HttpRequest,
    SignError,
>)
    ensures
        match r {
            Ok(req) => token_decodes(token.ssecurity@) && is_stop_push_request(
                req,
                *user,
                *token,
                version@, live_id@,
            ),
            Err(SignError::BadSecret) => !token_decodes(token.ssecurity@),
            Err(SignError::ClockBeforeEpoch) => token_decodes(token.ssecurity@),
        },
{
    let mut extra: Vec<Param> = Vec::new();
    extra.push(param("liveId", live_id));
    proof {
        assert(params_view(extra@) =~= seq![("liveId"@, live_id@)]);
    }
    signed_request(user, token, version, STOP_PUSH, STOP_PUSH, &extra, MULTIPART_CONTENT)
}

/// The request for the gift list. It is signed for the path of `STOP_PUSH`
/// and sent to `GIFT_ALL`.
pub fn gift_list_request(user: &User, token: &Token, version: &str) -> (r: Result<HttpRequest, SignError>)
    ensures
        match r {
            Ok(req) => token_decodes(token.ssecurity@) && is_gift_list_request(
                req,
                *user,
                *token,
                version@,
            ),
            Err(SignError::BadSecret) => !token_decodes(token.ssecurity@),
            Err(SignError::ClockBeforeEpoch) => token_decodes(token.ssecurity@),
        },
{
    let extra: Vec<Param> = Vec::new();
    proof {
        assert(params_view(extra@) =~= Seq::empty());
    }
    signed_request(user, token, version, STOP_PUSH, GIFT_ALL, &extra, FORM_CONTENT)
}

/// The form of the stream requests:
/// `kpf=WINDOWS_PC&kpn=ACFUN_APP.LIVE_MATE&subBiz=mainApp&userId={userId}&acfun.midground.api_st={st}`.
pub open spec fn stream_form(token: Token) -> Seq<char> {
    "kpf=WINDOWS_PC&kpn=ACFUN_APP.LIVE_MATE&subBiz=mainApp&userId="@ + decimal(
        token.userId as int,
    ) + "&acfun.midground.api_st="@ + token.st@
}

/// Whether `r` is the form request to `path` for `user` holding `token`,
/// from the toolbox at `version`.
pub open spec fn is_stream_request(
    r: HttpRequest,
    user: User,
    token: Token,
    version: Seq<char>,
    path: Seq<char>,
) -> bool {
    &&& r.method@ == POST@
    &&& r.url@ == KUAISHOU_ZT@ + path
    &&& params_view(r.headers@) == seq![
        (COOKIE@, user.kuaishou_cookie_spec(&token)),
        (USER_AGENT@, user_agent(version)),
        (CONTENT_TYPE@, FORM_CONTENT@),
        (REFERER@, ACFUN_MEMBER@),
    ]
    &&& r.body@ == stream_form(token)
}

/// The stream requests are urlencoded forms and say so: a `POST` whose
/// body is the form
/// `kpf=WINDOWS_PC&kpn=ACFUN_APP.LIVE_MATE&subBiz=mainApp&userId={userId}&acfun.midground.api_st={st}`
/// and whose one `content-type` header, the third of its four, is
/// `application/x-www-form-urlencoded`.
pub proof fn lemma_stream_request_is_a_form(
    r: HttpRequest,
    user: User,
    token: Token,
    version: Seq<char>,
    path: Seq<char>,
)
    requires
        is_stream_request(r, user, token, version, path),
    ensures
        r.method@ == "POST"@,
        r.body@ == "kpf=WINDOWS_PC&kpn=ACFUN_APP.LIVE_MATE&subBiz=mainApp&userId="@ + decimal(
            token.userId as int,
        ) + "&acfun.midground.api_st="@ + token.st@,
        params_view(r.headers@).len() == 4,
        forall|j: int|
            0 <= j < 4 ==> (#[trigger] params_view(r.headers@)[j].0 == "content-type"@ <==> j == 2),
        params_view(r.headers@)[2].1 == "application/x-www-form-urlencoded"@,
{
    reveal_strlit("cookie");
    reveal_strlit("user-agent");
    reveal_strlit("content-type");
    reveal_strlit("referer");
    let h = params_view(r.headers@);
    assert(h[0].0 == COOKIE@);
    assert(h[1].0 == USER_AGENT@);
    assert(h[3].0 == REFERER@);
    assert(COOKIE@ != CONTENT_TYPE@) by {
        assert(COOKIE@[2] != CONTENT_TYPE@[2]);
    }
    assert(USER_AGENT@ != CONTENT_TYPE@) by {
        assert(USER_AGENT@[0] != CONTENT_TYPE@[0]);
    }
    assert(REFERER@ != CONTENT_TYPE@) by {
        assert(REFERER@[0] != CONTENT_TYPE@[0]);
    }
}

/// The form request to `path`.
pub fn stream_request(user: &User, token: &Token, version: &str, path: &str) -> (r: HttpRequest)
    ensures
        is_stream_request(r, *user, *token, version@, path@),
{
    let mut form = String::from_str("kpf=WINDOWS_PC&kpn=ACFUN_APP.LIVE_MATE&subBiz=mainApp&userId=");
    push_decimal(&mut form, token.userId);
    form.append("&acfun.midground.api_st=");
    form.append(token.st.as_str());
    let mut url = String::from_str(KUAISHOU_ZT);
    url.append(path);
    let mut headers: Vec<Param> = Vec::new();
    headers.push((String::from_str(COOKIE), user.kuaishou_cookie(token)));
    headers.push((String::from_str(USER_AGENT), make_user_agent(version)));
    headers.push(param(CONTENT_TYPE, FORM_CONTENT));
    headers.push(param(REFERER, ACFUN_MEMBER));
    assert(params_view(headers@) =~= seq![
        (COOKIE@, user.kuaishou_cookie_spec(token)),
        (USER_AGENT@, user_agent(version@)),
        (CONTENT_TYPE@, FORM_CONTENT@),
        (REFERER@, ACFUN_MEMBER@),
    ]);
    HttpRequest { method: String::from_str(POST), url, headers, body: form }
}

/// The request for the stream configuration.
pub fn stream_config_request(user: &User, token: &Token, version: &str) -> (r: HttpRequest)
    ensures
        is_stream_request(r, *user, *token, version@, LIVE_CONFIG@),
{
    stream_request(user, token, version, LIVE_CONFIG)
}

/// The request for the stream status.
pub fn stream_status_request(user: &User, token: &Token, version: &str) -> (r: HttpRequest)
    ensures
        is_stream_request(r, *user, *token, version@, LIVE_STATUS@),
{
    stream_request(user, token, version, LIVE_STATUS)
}

} // verus!
