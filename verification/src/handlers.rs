//! The replies of the backend's routes, from the outcomes of the work each
//! route does.

use vstd::prelude::*;
use crate::jwt::TokenDB;
use crate::response::{Response, CODE_ERROR, CODE_OK};
use crate::time::Time;
use crate::user::LoginResponse;

verus! {

/// The reply to an outcome: its value with code 200 and message "ok", or
/// its error message with code 400 and `default` as data.
pub fn reply<T>(outcome: Result<T, String>, default: T) -> (r: Response<T>)
    ensures
        outcome matches Ok(v) ==> r.code == CODE_OK && r.msg@ == "ok"@ && r.data == v,
        outcome matches Err(e) ==> r.code == CODE_ERROR && r.msg@ == e@ && r.data == default,
{
    match outcome {
        Ok(v) => Response::ok(v),
        Err(e) => Response::error(e.as_str(), default),
    }
}

/// The reply to a login: when the user checked out, the token and the
/// refresh token made for it, or the first error among them; otherwise the
/// check's error. Failed replies carry empty tokens.
pub fn login_reply(checked: Result<u32, String>, token: Result<String, String>, refresh: Result<String, String>) -> (r:
    Response<LoginResponse>)
    ensures
        checked matches Err(e) ==> r.code == CODE_ERROR && r.msg@ == e@,
        checked is Ok ==> (token matches Err(e) ==> r.code == CODE_ERROR && r.msg@ == e@),
        checked is Ok && token is Ok ==> (refresh matches Err(e) ==> r.code == CODE_ERROR && r.msg@ == e@),
        checked is Ok && token is Ok && refresh is Ok ==> r.code == CODE_OK && r.msg@ == "ok"@ && r.data.token
            == token->Ok_0 && r.data.refresh_token == refresh->Ok_0,
        r.code == CODE_ERROR ==> r.data.token@ == Seq::<char>::empty() && r.data.refresh_token@ == Seq::<char>::empty(),
{
    match checked {
        Err(e) => Response::error(e.as_str(), LoginResponse::default()),
        Ok(_) => match (token, refresh) {
            (Err(e), _) => Response::error(e.as_str(), LoginResponse::default()),
            (Ok(_), Err(e)) => Response::error(e.as_str(), LoginResponse::default()),
            (Ok(t), Ok(f)) => Response::ok(LoginResponse { token: t, refresh_token: f }),
        },
    }
}

/// The reply to a token refresh: the new token for the user of the refresh
/// token, with its expiry; or the error of the check or of making the token.
pub fn refresh_reply(checked: Result<TokenDB, String>, created: Result<(String, Time), String>) -> (r: Response<TokenDB>)
    ensures
        checked matches Err(e) ==> r.code == CODE_ERROR && r.msg@ == e@,
        checked is Ok && created is Ok ==> r.code == CODE_OK && r.msg@ == "ok"@ && r.data.token
            == created->Ok_0.0 && r.data.exp == created->Ok_0.1 && r.data.uid == checked->Ok_0.uid,
        checked is Ok ==> (created matches Err(e) ==> r.code == CODE_ERROR && r.msg@ == e@),
        r.code == CODE_ERROR ==> r.data.token@ == Seq::<char>::empty() && r.data.uid == 0 && r.data.exp == (Time {
            secs: 0,
            nanos: 0,
        }),
{
    match checked {
        Err(e) => Response::error(e.as_str(), TokenDB::default()),
        Ok(t) => match created {
            Ok((tok, exp)) => Response::ok(TokenDB { token: tok, exp, uid: t.uid }),
            Err(e) => Response::error(e.as_str(), TokenDB::default()),
        },
    }
}

} // verus!
