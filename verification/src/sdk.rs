//! The logged-in user, the token of the live API, and the cookies made of
//! them.
use crate::text::{decimal, push_decimal};
use vstd::prelude::*;

verus! {

/// A logged-in AcFun user.
#[derive(Clone, Debug, Default)]
pub struct User {
    /// The user's id.
    pub userid: i64,
    /// The user's name.
    pub username: String,
    /// The URL of the user's avatar.
    pub avatar: String,
    /// The pass token of the login.
    pub passtoken: String,
}

/// The token of the live API that the login gives.
#[derive(Clone, Debug, Default)]
pub struct Token {
    /// 0 when the token was issued.
    pub result: i32,
    /// The error message.
    pub error_msg: String,
    /// The user's id.
    pub userId: i64,
    /// The secret that signs requests and keys the danmaku link (base64).
    pub ssecurity: String,
    /// The service token, `acfun.midground.api_st`.
    pub st: String,
    /// The access token, `acfun.midground.api_at`.
    pub at: String,
}

/// The prefix of the cookie for the live API.
pub const KUAISHOU_COOKIE_PREFIX: &'static str = "acfun.midground.api_st=";

/// What comes between the service token and the user id.
pub const KUAISHOU_COOKIE_USER: &'static str = "; userId=";

/// The prefix of the cookie for the AcFun site.
pub const ACFUN_COOKIE_PREFIX: &'static str = "_did=acfun_live_toolbox_";

/// What comes between the device id and the pass token.
pub const ACFUN_COOKIE_PASSTOKEN: &'static str = "; acPasstoken=";

/// What comes between the pass token and the user id.
pub const ACFUN_COOKIE_AUTH_KEY: &'static str = "; auth_key=";

impl User {
    /// A copy of the user.
    pub fn duplicate(&self) -> (r: User)
        ensures
            r == *self,
    {
        User {
            userid: self.userid,
            username: self.username.clone(),
            avatar: self.avatar.clone(),
            passtoken: self.passtoken.clone(),
        }
    }

    /// The cookie for the live API:
    /// `acfun.midground.api_st={st}; userId={userid}`.
    pub open spec fn kuaishou_cookie_spec(&self, token: &Token) -> Seq<char> {
        KUAISHOU_COOKIE_PREFIX@ + token.st@ + KUAISHOU_COOKIE_USER@ + decimal(self.userid as int)
    }

    /// The cookie for the AcFun site:
    /// `_did=acfun_live_toolbox_{did}; acPasstoken={passtoken}; auth_key={userid}`.
    pub open spec fn acfun_cookie_spec(&self, did: Seq<char>) -> Seq<char> {
        ACFUN_COOKIE_PREFIX@ + did + ACFUN_COOKIE_PASSTOKEN@ + self.passtoken@
            + ACFUN_COOKIE_AUTH_KEY@ + decimal(self.userid as int)
    }

    /// The cookie for the live API.
    pub fn kuaishou_cookie(&self, token: &Token) -> (r: String)
        ensures
            r@ == self.kuaishou_cookie_spec(token),
    {
        let mut s = String::from_str(KUAISHOU_COOKIE_PREFIX);
        s.append(token.st.as_str());
        s.append(KUAISHOU_COOKIE_USER);
        push_decimal(&mut s, self.userid);
        s
    }

    /// The cookie for the AcFun site, with the device id `did`.
    pub fn acfun_cookie(&self, did: &String) -> (r: String)
        ensures
            r@ == self.acfun_cookie_spec(did@),
    {
        let mut s = String::from_str(ACFUN_COOKIE_PREFIX);
        s.append(did.as_str());
        s.append(ACFUN_COOKIE_PASSTOKEN);
        s.append(self.passtoken.as_str());
        s.append(ACFUN_COOKIE_AUTH_KEY);
        push_decimal(&mut s, self.userid);
        s
    }
}

} // verus!
