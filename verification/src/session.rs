//! The frontend's session: strings kept in the browser's local storage, the
//! token and refresh token, and when a request has to be sent again.

use vstd::prelude::*;
use crate::jwt::TokenDB;
use crate::response::{Response, CODE_OK};
use crate::text::{same_text};

verus! {

/// The value a storage read found, or why there is none: the storage's own
/// error, or "not set" when the key is absent.
pub fn load_string(item: Result<Option<String>, String>) -> (r: Result<String, String>)
    ensures
        item matches Ok(Some(s)) ==> r == Ok::<String, String>(s),
        item matches Ok(None) ==> (r matches Err(m) && m@ == "not set"@),
        item matches Err(e) ==> r == Err::<String, String>(e),
{
    match item {
        Ok(Some(s)) => Ok(s),
        Ok(None) => Err(String::from_str("not set")),
        Err(e) => Err(e),
    }
}

/// The loaded value, or `default` where loading failed.
pub fn load_string_or(loaded: Result<String, String>, default: &str) -> (r: String)
    ensures
        loaded matches Ok(v) ==> r == v,
        loaded is Err ==> r@ == default@,
{
    match loaded {
        Ok(v) => v,
        Err(_) => String::from_str(default),
    }
}

/// The token and the refresh token, each "invalid" where it could not be
/// loaded.
pub fn load_tokens(token: Result<String, String>, refresh_token: Result<String, String>) -> (r: (String, String))
    ensures
        token matches Ok(t) ==> r.0 == t,
        token is Err ==> r.0@ == "invalid"@,
        refresh_token matches Ok(t) ==> r.1 == t,
        refresh_token is Err ==> r.1@ == "invalid"@,
{
    let default = "invalid";
    let t = load_string_or(token, default);
    let f = load_string_or(refresh_token, default);
    (t, f)
}

/// Why the session has no usable token.
#[derive(Clone, Copy, Debug)]
pub enum TokenError {
    RefreshTokenInvalid,
}

impl TokenError {
    /// The error as text: its name.
    pub fn to_text(&self) -> (r: String)
        ensures
            r@ == "RefreshTokenInvalid"@,
    {
        match self {
            TokenError::RefreshTokenInvalid => String::from_str("RefreshTokenInvalid"),
        }
    }
}

/// A stored token is usable: it was set, and is neither empty nor "invalid".
pub open spec fn usable(t: Seq<char>) -> bool {
    t.len() > 0 && t != "invalid"@
}

/// What to do to get a token.
#[derive(Clone, Debug)]
pub enum TokenPlan {
    /// There is no usable refresh token: give up.
    Fail,
    /// The stored token is usable: use it.
    Use(String),
    /// Ask for a new token with this refresh token.
    Refresh(String),
}

/// Decides how to get a token from the stored refresh token and token.
pub fn token_plan(refresh_token: Result<String, String>, token: Result<String, String>) -> (r: TokenPlan)
    ensures
        !(refresh_token matches Ok(f) && usable(f@)) ==> r is Fail,
        refresh_token matches Ok(f) ==> (usable(f@) ==> match token {
            Ok(t) => if usable(t@) { r == TokenPlan::Use(t) } else { r == TokenPlan::Refresh(f) },
            Err(_) => r == TokenPlan::Refresh(f),
        }),
{
    let f = match refresh_token {
        Ok(f) => f,
        Err(_) => return TokenPlan::Fail,
    };
    if same_text(f.as_str(), "invalid") || f.unicode_len() == 0 {
        return TokenPlan::Fail;
    }
    match token {
        Ok(t) => {
            if same_text(t.as_str(), "invalid") || t.unicode_len() == 0 {
                TokenPlan::Refresh(f)
            } else {
                TokenPlan::Use(t)
            }
        },
        Err(_) => TokenPlan::Refresh(f),
    }
}

/// The new token in the reply to a refresh request, if the request
/// succeeded.
pub fn refreshed_token(reply: Response<TokenDB>) -> (r: Result<TokenDB, TokenError>)
    ensures
        reply.code == CODE_OK ==> r == Ok::<TokenDB, TokenError>(reply.data),
        reply.code != CODE_OK ==> r is Err,
{
    if reply.code == CODE_OK {
        Ok(reply.data)
    } else {
        Err(TokenError::RefreshTokenInvalid)
    }
}

/// What to do after a request came back.
#[derive(Clone, Debug)]
pub enum FetchStep {
    /// The request succeeded: hand the reply over.
    Done,
    /// The token expired: forget it and send the request once more.
    Retry,
    /// The request failed with this message.
    Fail(String),
}

/// Decides what a reply with this code and message calls for.
pub fn fetch_step(code: usize, msg: &str) -> (r: FetchStep)
    ensures
        code == CODE_OK ==> r is Done,
        code != CODE_OK && msg@ == "token exp failed"@ ==> r is Retry,
        code != CODE_OK && msg@ != "token exp failed"@ ==> (r matches FetchStep::Fail(m) && m@ == msg@),
{
    if code == CODE_OK {
        FetchStep::Done
    } else if same_text(msg, "token exp failed") {
        FetchStep::Retry
    } else {
        FetchStep::Fail(String::from_str(msg))
    }
}

/// The headers of a request: JSON content, the token, and the refresh token
/// when asked for.
pub open spec fn spec_request_headers(token: Seq<char>, refresh_token: Seq<char>, refresh: bool) -> Seq<(Seq<char>, Seq<char>)> {
    let base = seq![("Content-Type"@, "application/json"@), ("Token"@, token)];
    if refresh { base.push(("Refresh-Token"@, refresh_token)) } else { base }
}

/// The headers to send with a request.
pub fn request_headers(tokens: &(String, String), refresh: bool) -> (r: Vec<(String, String)>)
    ensures
        r@.map_values(|h: (String, String)| (h.0@, h.1@)) == spec_request_headers(tokens.0@, tokens.1@, refresh),
{
    let mut r: Vec<(String, String)> = Vec::new();
    r.push((String::from_str("Content-Type"), String::from_str("application/json")));
    r.push((String::from_str("Token"), tokens.0.clone()));
    if refresh {
        r.push((String::from_str("Refresh-Token"), tokens.1.clone()));
    }
    assert(r@.map_values(|h: (String, String)| (h.0@, h.1@)) =~= spec_request_headers(tokens.0@, tokens.1@, refresh));
    r
}

/// The stored user's JSON text, unless the key is absent or empty.
pub fn local_user_text(item: Option<String>) -> (r: Option<String>)
    ensures
        item matches Some(v) ==> (v@.len() > 0 ==> r == Some(v)),
        !(item matches Some(v) && v@.len() > 0) ==> r is None,
{
    match item {
        Some(v) => if v.unicode_len() == 0 { None } else { Some(v) },
        None => None,
    }
}

} // verus!
