//! Session tokens: JSON web tokens signed with HS256 that carry a user id and
//! an expiry time, and the record of an issued token.

use vstd::prelude::*;
use crate::time::Time;

verus! {

/// Lifetime of a normal token, in seconds: one hour.
pub const EXP_TOKEN: u64 = 1 * 60 * 60;

/// Lifetime of a refresh token, in seconds: one day.
pub const EXP_REFRESH: u64 = 24 * 60 * 60;

/// The claims a token carries: whose token it is and when it expires
/// (seconds after the epoch).
#[derive(Clone, Copy, Debug)]
pub struct Claims {
    pub uid: u32,
    pub exp: u64,
}

/// An issued token.
#[derive(Clone, Debug)]
pub struct TokenDB {
    pub token: String,
    pub exp: Time,
    pub uid: u32,
}

impl Default for TokenDB {
    fn default() -> (r: Self)
        ensures
            r.token@ == Seq::<char>::empty(),
            r.exp == (Time { secs: 0, nanos: 0 }),
            r.uid == 0,
    {
        TokenDB { token: String::new(), exp: Time::epoch(), uid: 0 }
    }
}

/// Why a token could not be made or read.
#[derive(Clone, Debug)]
pub enum JwtError {
    /// The token library refused; its message.
    Rejected(String),
    /// The token checked out but does not carry a user id that fits in `u32`
    /// together with an expiry time.
    BadClaims,
}

/// The token that `jsonwebtoken::encode` makes, with the default (HS256)
/// header and `secret` as key, for the claims `uid` and `exp`.
pub uninterp spec fn jwt_token(uid: u32, exp: u64, secret: Seq<char>) -> Seq<char>;

/// The `uid` and `exp` claims that `token` carries, each where present as
/// an integer that fits in `u64`, when its signature checks under `secret`
/// with HS256 and its payload is a JSON object; `None` otherwise. Where the
/// payload names `uid` more than once, the last occurrence counts (a repeated
/// `exp` is refused by the library's own check of the expiry).
pub uninterp spec fn jwt_claims(token: Seq<char>, secret: Seq<char>) -> Option<(Option<u64>, Option<u64>)>;

/// Calls `jsonwebtoken::encode` with the default header, the claims object
/// `{"uid": uid, "exp": exp}` (in that order) and an HMAC key made of the
/// bytes of `secret`.
/// Claimed: a token it returns is `jwt_token(uid, exp, secret)`, and that
/// token carries `uid` and `exp` under `secret` (the library signs with the
/// same HS256 key that decoding checks with, and the claims object is the
/// JSON payload of the token); and it always returns one (an HMAC key suits
/// the HS256 header, the header and a map of numbers always serialise, and
/// HMAC signing cannot fail).
#[verifier::external_body]
fn encode_hs256(uid: u32, exp: u64, secret: &str) -> (r: Result<String, String>)
    ensures
        r is Ok,
        r matches Ok(t) ==> t@ == jwt_token(uid, exp, secret@) && jwt_claims(t@, secret@) == Some(
            (Some(uid as u64), Some(exp)),
        ),
{
    let mut claims = serde_json::Map::new();
    claims.insert(String::from("uid"), serde_json::Value::from(uid));
    claims.insert(String::from("exp"), serde_json::Value::from(exp));
    let key = jsonwebtoken::EncodingKey::from_secret(secret.as_bytes());
    jsonwebtoken::encode(&jsonwebtoken::Header::default(), &claims, &key).map_err(|e| e.to_string())
}

/// Calls `jsonwebtoken::decode` with an HMAC key made of the bytes of
/// `secret` and the default validation (HS256, `exp` required and not past
/// by more than a minute), reading the payload as a JSON object and picking
/// its `uid` and `exp` entries where they are integers that fit in `u64`.
/// Claimed: what it returns on success is what the token carries under
/// `secret`. Whether it succeeds depends on the clock and is not stated; the
/// library reads the system clock and panics if it is before the epoch. The
/// payload is read as a map, so a repeated `uid` is not refused: its last
/// value is picked.
#[verifier::external_body]
fn decode_hs256(token: &str, secret: &str) -> (r: Result<(Option<u64>, Option<u64>), String>)
    ensures
        r matches Ok(c) ==> jwt_claims(token@, secret@) == Some(c),
{
    let key = jsonwebtoken::DecodingKey::from_secret(secret.as_bytes());
    let validation = jsonwebtoken::Validation::default();
    jsonwebtoken::decode::<serde_json::Map<String, serde_json::Value>>(token, &key, &validation)
        .map(|d| (d.claims.get("uid").and_then(serde_json::Value::as_u64), d.claims.get("exp").and_then(serde_json::Value::as_u64)))
        .map_err(|e| e.to_string())
}

/// `token` is the token made for `uid` and `exp` under `secret`, and it
/// carries them.
pub open spec fn encodes(token: Seq<char>, uid: u32, exp: u64, secret: Seq<char>) -> bool {
    &&& token == jwt_token(uid, exp, secret)
    &&& jwt_claims(token, secret) == Some((Some(uid as u64), Some(exp)))
}

/// `token`, checked under `secret`, carries exactly the claims `c`.
pub open spec fn decodes_to(token: Seq<char>, secret: Seq<char>, c: Claims) -> bool {
    jwt_claims(token, secret) == Some((Some(c.uid as u64), Some(c.exp)))
}

/// The secret that signs tokens: the value of the environment variable
/// `JWT_SECRETS` when it is set, else "secrets".
pub fn jwt_secrets(env_value: Option<String>) -> (r: String)
    ensures
        env_value matches Some(v) ==> r@ == v@,
        env_value is None ==> r@ == "secrets"@,
{
    match env_value {
        Some(v) => v,
        None => String::from_str("secrets"),
    }
}

/// Makes the token for user `uid` that expires at `exp` (whole seconds
/// count), signed with `secret`.
pub fn jwt_encode(uid: u32, exp: Time, secret: &str) -> (r: Result<String, JwtError>)
    ensures
        r is Ok,
        r matches Ok(t) ==> encodes(t@, uid, exp.secs, secret@),
{
    match encode_hs256(uid, exp.secs, secret) {
        Ok(t) => Ok(t),
        Err(e) => Err(JwtError::Rejected(e)),
    }
}

/// The claims of a checked token from the `uid` and `exp` entries it
/// carries: both must be there and the user id must fit in `u32`.
pub fn claims_from(entries: (Option<u64>, Option<u64>)) -> (r: Result<Claims, JwtError>)
    ensures
        r matches Ok(c) ==> entries == (Some(c.uid as u64), Some(c.exp)),
        r is Err <==> !(entries.0 matches Some(u) && u <= u32::MAX && entries.1 is Some),
        r matches Err(e) ==> e is BadClaims,
{
    match entries {
        (Some(u), Some(e)) => {
            if u <= 0xffff_ffff {
                Ok(Claims { uid: u as u32, exp: e })
            } else {
                Err(JwtError::BadClaims)
            }
        },
        _ => Err(JwtError::BadClaims),
    }
}

/// Checks `token` under `secret` and reads its claims. A token that does not
/// check out is refused by the token library; one that checks out but lacks
/// a `u32` user id or an expiry is refused as bad claims. Whether a token that
/// checks out has expired goes by the clock, so success is not promised.
pub fn jwt_decode(token: &str, secret: &str) -> (r: Result<Claims, JwtError>)
    ensures
        r matches Ok(c) ==> decodes_to(token@, secret@, c),
        jwt_claims(token@, secret@) is None ==> r matches Err(JwtError::Rejected(_)),
        jwt_claims(token@, secret@) matches Some(en) && !(en.0 matches Some(u) && u <= u32::MAX
            && en.1 is Some) ==> r is Err,
        r matches Err(JwtError::BadClaims) ==> jwt_claims(token@, secret@) matches Some(en) && !(
        en.0 matches Some(u) && u <= u32::MAX && en.1 is Some),
{
    match decode_hs256(token, secret) {
        Ok(entries) => claims_from(entries),
        Err(e) => Err(JwtError::Rejected(e)),
    }
}

/// Decoding a token that was made for `uid` and `exp` gives back `uid` and
/// `exp`, when it succeeds.
pub proof fn law_decode_after_encode(token: Seq<char>, uid: u32, exp: u64, secret: Seq<char>, c: Claims)
    requires
        encodes(token, uid, exp, secret),
        decodes_to(token, secret, c),
    ensures
        c.uid == uid,
        c.exp == exp,
{
}

} // verus!
