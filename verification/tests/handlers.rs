use school_cats::handlers::{login_reply, refresh_reply, reply};
use school_cats::jwt::TokenDB;
use school_cats::time::Time;
use school_cats::upload::{file_ending, upload_file_name, upload_link};

fn s(x: &str) -> String {
    x.to_string()
}

#[test]
fn replies() {
    let r = reply(Ok(vec![1u32]), vec![]);
    assert_eq!((r.code, r.msg.as_str(), r.data), (200, "ok", vec![1]));
    let r = reply(Err(s("no cat found")), 0u32);
    assert_eq!((r.code, r.msg.as_str(), r.data), (400, "no cat found", 0));
}

#[test]
fn login_replies() {
    let r = login_reply(Ok(1), Ok(s("t")), Ok(s("f")));
    assert_eq!((r.code, r.data.token.as_str(), r.data.refresh_token.as_str()), (200, "t", "f"));
    let r = login_reply(Err(s("username or password error")), Ok(s("t")), Ok(s("f")));
    assert_eq!((r.code, r.msg.as_str(), r.data.token.as_str()), (400, "username or password error", ""));
    let r = login_reply(Ok(1), Err(s("e1")), Err(s("e2")));
    assert_eq!((r.code, r.msg.as_str()), (400, "e1"));
    let r = login_reply(Ok(1), Ok(s("t")), Err(s("e2")));
    assert_eq!((r.code, r.msg.as_str(), r.data.token.as_str()), (400, "e2", ""));
}

#[test]
fn refresh_replies_from_outcomes() {
    let checked = TokenDB { token: s("old"), exp: Time::epoch(), uid: 3 };
    let r = refresh_reply(Ok(checked.clone()), Ok((s("new"), Time { secs: 9, nanos: 0 })));
    assert_eq!((r.code, r.data.token.as_str(), r.data.uid, r.data.exp.secs), (200, "new", 3, 9));
    let r = refresh_reply(Err(s("no token found for old")), Ok((s("new"), Time::epoch())));
    assert_eq!((r.code, r.msg.as_str(), r.data.uid), (400, "no token found for old", 0));
    let r = refresh_reply(Ok(checked), Err(s("db")));
    assert_eq!((r.code, r.msg.as_str()), (400, "db"));
}

#[test]
fn accepted_uploads() {
    assert_eq!(file_ending(Some("image/png")), Some(s("png")));
    assert_eq!(file_ending(Some("image/jpg")), Some(s("jpg")));
    assert_eq!(file_ending(Some("image/jpeg")), Some(s("jpg")));
    assert_eq!(file_ending(Some("image/gif")), None);
    assert_eq!(file_ending(None), None);
    let name = upload_file_name("abc", "png");
    assert_eq!(name, "./files/abc.png");
    assert_eq!(upload_link(&name), "http://localhost:3030/files/abc.png");
}
