use std::time::{SystemTime, UNIX_EPOCH};
use school_cats::jwt::{claims_from, jwt_decode, jwt_encode, jwt_secrets, JwtError, TokenDB, EXP_REFRESH, EXP_TOKEN};
use school_cats::time::Time;

fn now_secs() -> u64 {
    SystemTime::now().duration_since(UNIX_EPOCH).unwrap().as_secs()
}

#[test]
fn test_jwt_encode_decode() {
    let uid = 1_u32;
    let exp = Time { secs: now_secs() + 30, nanos: 0 };
    let secret = jwt_secrets(None);
    let token_encoded = jwt_encode(uid, exp, &secret).unwrap();
    println!("enc: {}", token_encoded);
    let token_decoded = jwt_decode(&token_encoded, &secret).unwrap();
    println!("dec: {:?}", token_decoded);
    assert_eq!(uid, token_decoded.uid);
}

#[test]
fn decode_gives_back_uid_and_exp() {
    let exp = Time { secs: now_secs() + 3600, nanos: 5 };
    let token = jwt_encode(42, exp, "k").unwrap();
    let c = jwt_decode(&token, "k").unwrap();
    assert_eq!(c.uid, 42);
    assert_eq!(c.exp, exp.secs);
}

#[test]
fn decode_with_other_secret_is_rejected() {
    let exp = Time { secs: now_secs() + 3600, nanos: 0 };
    let token = jwt_encode(7, exp, "right").unwrap();
    assert!(matches!(jwt_decode(&token, "wrong"), Err(JwtError::Rejected(_))));
}

#[test]
fn expired_token_is_rejected() {
    let exp = Time { secs: now_secs() - 3600, nanos: 0 };
    let token = jwt_encode(7, exp, "k").unwrap();
    assert!(matches!(jwt_decode(&token, "k"), Err(JwtError::Rejected(_))));
}

#[test]
fn garbage_token_is_rejected() {
    assert!(matches!(jwt_decode("a.jwt.token", "k"), Err(JwtError::Rejected(_))));
}

#[test]
fn same_claims_give_same_token() {
    let exp = Time { secs: now_secs() + 100, nanos: 0 };
    let a = jwt_encode(3, exp, "s").unwrap();
    let b = jwt_encode(3, exp, "s").unwrap();
    let c = jwt_encode(4, exp, "s").unwrap();
    assert_eq!(a, b);
    assert_ne!(a, c);
}

#[test]
fn secret_comes_from_env_value_or_default() {
    assert_eq!(jwt_secrets(None), "secrets");
    assert_eq!(jwt_secrets(Some("abc".to_string())), "abc");
}

#[test]
fn claims_need_uid_in_range_and_exp() {
    let c = claims_from((Some(5), Some(9))).unwrap();
    assert_eq!((c.uid, c.exp), (5, 9));
    assert!(matches!(claims_from((None, Some(9))), Err(JwtError::BadClaims)));
    assert!(matches!(claims_from((Some(5), None)), Err(JwtError::BadClaims)));
    assert!(matches!(claims_from((Some(1 << 32), Some(9))), Err(JwtError::BadClaims)));
    assert_eq!(claims_from((Some(u32::MAX as u64), Some(0))).unwrap().uid, u32::MAX);
}

#[test]
fn token_lifetimes_and_default_record() {
    assert_eq!(EXP_TOKEN, 3600);
    assert_eq!(EXP_REFRESH, 86400);
    let t = TokenDB::default();
    assert_eq!(t.token, "");
    assert_eq!(t.uid, 0);
    assert_eq!(t.exp, Time { secs: 0, nanos: 0 });
}

#[test]
fn payload_holds_uid_then_exp() {
    let token = jwt_encode(7, Time { secs: 2_000_000_000, nanos: 0 }, "secrets").unwrap();
    let payload = token.split('.').nth(1).unwrap();
    assert_eq!(payload, "eyJ1aWQiOjcsImV4cCI6MjAwMDAwMDAwMH0");
}

#[test]
fn other_claims_beside_uid_and_exp_are_accepted() {
    let exp = now_secs() + 600;
    let mut claims = serde_json::Map::new();
    claims.insert("uid".to_string(), serde_json::Value::from(9u32));
    claims.insert("exp".to_string(), serde_json::Value::from(exp));
    claims.insert("name".to_string(), serde_json::Value::from("cat"));
    let key = jsonwebtoken::EncodingKey::from_secret(b"secrets");
    let token = jsonwebtoken::encode(&jsonwebtoken::Header::default(), &claims, &key).unwrap();
    let c = jwt_decode(&token, "secrets").ok().unwrap();
    assert_eq!(c.uid, 9);
    assert_eq!(c.exp, exp);
}

#[test]
fn non_integer_uid_is_bad_claims() {
    let mut claims = serde_json::Map::new();
    claims.insert("uid".to_string(), serde_json::Value::from("9"));
    claims.insert("exp".to_string(), serde_json::Value::from(now_secs() + 600));
    let key = jsonwebtoken::EncodingKey::from_secret(b"secrets");
    let token = jsonwebtoken::encode(&jsonwebtoken::Header::default(), &claims, &key).unwrap();
    assert!(matches!(jwt_decode(&token, "secrets"), Err(JwtError::BadClaims)));
}
