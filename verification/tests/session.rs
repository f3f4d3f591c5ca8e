use school_cats::jwt::TokenDB;
use school_cats::session::{
    fetch_step, load_string, load_string_or, load_tokens, local_user_text, refreshed_token, request_headers, token_plan,
    FetchStep, TokenError, TokenPlan,
};
use school_cats::Response;

fn s(x: &str) -> String {
    x.to_string()
}

#[test]
fn storage_reads() {
    assert_eq!(load_string(Ok(Some(s("v")))), Ok(s("v")));
    assert_eq!(load_string(Ok(None)), Err(s("not set")));
    assert_eq!(load_string(Err(s("denied"))), Err(s("denied")));
    assert_eq!(load_string_or(Ok(s("v")), "d"), "v");
    assert_eq!(load_string_or(Err(s("x")), "d"), "d");
}

#[test]
fn tokens_default_to_invalid() {
    assert_eq!(load_tokens(Ok(s("t")), Err(s("not set"))), (s("t"), s("invalid")));
    assert_eq!(load_tokens(Err(s("e")), Ok(s("r"))), (s("invalid"), s("r")));
}

#[test]
fn token_plans() {
    assert!(matches!(token_plan(Err(s("not set")), Ok(s("t"))), TokenPlan::Fail));
    assert!(matches!(token_plan(Ok(s("invalid")), Ok(s("t"))), TokenPlan::Fail));
    assert!(matches!(token_plan(Ok(s("")), Ok(s("t"))), TokenPlan::Fail));
    assert!(matches!(token_plan(Ok(s("r")), Ok(s("t"))), TokenPlan::Use(t) if t == "t"));
    assert!(matches!(token_plan(Ok(s("r")), Ok(s("invalid"))), TokenPlan::Refresh(r) if r == "r"));
    assert!(matches!(token_plan(Ok(s("r")), Ok(s(""))), TokenPlan::Refresh(r) if r == "r"));
    assert!(matches!(token_plan(Ok(s("r")), Err(s("not set"))), TokenPlan::Refresh(r) if r == "r"));
}

#[test]
fn refresh_replies() {
    let ok = Response::ok(TokenDB { token: s("new"), ..TokenDB::default() });
    assert_eq!(refreshed_token(ok).unwrap().token, "new");
    let bad = Response::error("no token found for x", TokenDB::default());
    assert!(matches!(refreshed_token(bad), Err(TokenError::RefreshTokenInvalid)));
    assert_eq!(TokenError::RefreshTokenInvalid.to_text(), format!("{:?}", TokenError::RefreshTokenInvalid));
}

#[test]
fn fetch_steps() {
    assert!(matches!(fetch_step(200, "ok"), FetchStep::Done));
    assert!(matches!(fetch_step(400, "token exp failed"), FetchStep::Retry));
    assert!(matches!(fetch_step(400, "username or password error"), FetchStep::Fail(m) if m == "username or password error"));
}

#[test]
fn headers() {
    let t = (s("T"), s("R"));
    assert_eq!(request_headers(&t, false), vec![(s("Content-Type"), s("application/json")), (s("Token"), s("T"))]);
    assert_eq!(request_headers(&t, true).last().unwrap(), &(s("Refresh-Token"), s("R")));
}

#[test]
fn stored_user_text() {
    assert_eq!(local_user_text(None), None);
    assert_eq!(local_user_text(Some(s(""))), None);
    assert_eq!(local_user_text(Some(s("{}"))), Some(s("{}")));
}
