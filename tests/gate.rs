use spot_relay::errors::AppError;
use spot_relay::gate::{
    admission_for, authenticate, bearer_token, claims_from_json, claims_outcome, identity_outcome,
    subject_id, verify_token, Claims, TokenFault,
};

const SECRET: &str = "test-signing-key";
const USER: &str = "a1a2a3a4-b1b2-c1c2-d1d2-d3d4d5d6d7d8";
const USER_ID: u128 = 0xa1a2a3a4_b1b2_c1c2_d1d2_d3d4d5d6d7d8;

fn now() -> i64 {
    chrono::Utc::now().timestamp()
}

fn token(sub: &str, exp: i64, secret: &str) -> String {
    let mut claims = serde_json::Map::new();
    claims.insert("sub".to_string(), serde_json::Value::from(sub));
    claims.insert("exp".to_string(), serde_json::Value::from(exp));
    claims.insert("iat".to_string(), serde_json::Value::from(now()));
    jsonwebtoken::encode(
        &jsonwebtoken::Header::default(),
        &serde_json::Value::Object(claims),
        &jsonwebtoken::EncodingKey::from_secret(secret.as_bytes()),
    )
    .unwrap()
}

#[test]
fn bearer_header_yields_its_token() {
    assert_eq!(bearer_token(Some("Bearer abc.def")).unwrap(), "abc.def");
    assert_eq!(bearer_token(Some("Bearer Bearer abc")).unwrap(), "abc");
    assert_eq!(bearer_token(Some("Bearer ")).unwrap(), "");
}

#[test]
fn missing_or_foreign_header_is_unauthorized() {
    assert!(matches!(bearer_token(None), Err(AppError::Unauthorized)));
    assert!(matches!(bearer_token(Some("Basic abc")), Err(AppError::Unauthorized)));
    assert!(matches!(bearer_token(Some("bearer abc")), Err(AppError::Unauthorized)));
    assert!(matches!(bearer_token(Some("Bearer")), Err(AppError::Unauthorized)));
}

#[test]
fn valid_token_gives_its_claims() {
    let exp = now() + 3600;
    let c = verify_token(&token(USER, exp, SECRET), SECRET).unwrap();
    assert_eq!(c.sub, USER);
    assert_eq!(c.exp, exp);
}

#[test]
fn expired_token_is_reported_as_expired() {
    let r = verify_token(&token(USER, now() - 7200, SECRET), SECRET);
    assert!(matches!(r, Err(AppError::TokenExpired)));
}

#[test]
fn token_under_another_key_is_invalid() {
    let r = verify_token(&token(USER, now() + 3600, "other-key"), SECRET);
    assert!(matches!(r, Err(AppError::InvalidToken)));
    assert!(matches!(verify_token("not-a-token", SECRET), Err(AppError::InvalidToken)));
}

#[test]
fn claims_need_all_three_members() {
    let c = claims_from_json("{\"sub\":\"u\",\"exp\":10,\"iat\":3}").unwrap();
    assert_eq!((c.sub.as_str(), c.exp, c.iat), ("u", 10, 3));
    assert!(claims_from_json("{\"sub\":\"u\",\"exp\":10}").is_none());
    assert!(claims_from_json("{\"sub\":1,\"exp\":10,\"iat\":3}").is_none());
    assert!(claims_from_json("{\"sub\":\"u\",\"exp\":1.5,\"iat\":3}").is_none());
}

#[test]
fn decoding_outcomes_map_to_errors() {
    assert!(matches!(claims_outcome(Err(TokenFault::Expired)), Err(AppError::TokenExpired)));
    assert!(matches!(claims_outcome(Err(TokenFault::Invalid)), Err(AppError::InvalidToken)));
    assert!(matches!(claims_outcome(Ok("[]".to_string())), Err(AppError::InvalidToken)));
    let c = claims_outcome(Ok("{\"sub\":\"s\",\"exp\":2,\"iat\":1}".to_string())).unwrap();
    assert_eq!(c.sub, "s");
}

#[test]
fn subject_must_be_an_identifier() {
    let c = Claims { sub: USER.to_string(), exp: 0, iat: 0 };
    assert_eq!(subject_id(&c).unwrap(), USER_ID);
    let c = Claims { sub: "nobody".to_string(), exp: 0, iat: 0 };
    assert!(matches!(subject_id(&c), Err(AppError::InvalidToken)));
}

#[test]
fn authenticate_resolves_the_caller() {
    let header = format!("Bearer {}", token(USER, now() + 60, SECRET));
    assert_eq!(authenticate(Some(&header), SECRET).unwrap(), USER_ID);
    assert!(matches!(authenticate(None, SECRET), Err(AppError::Unauthorized)));
    let header = format!("Bearer {}", token("nobody", now() + 60, SECRET));
    assert!(matches!(authenticate(Some(&header), SECRET), Err(AppError::InvalidToken)));
}

#[test]
fn only_known_members_are_admitted() {
    let a = admission_for(1, 2, Some("ann".to_string()), true).unwrap();
    assert_eq!((a.user_id, a.joint_id, a.username.as_str()), (1, 2, "ann"));
    assert!(matches!(admission_for(1, 2, None, true), Err(AppError::Unauthorized)));
    match admission_for(1, 2, Some("ann".to_string()), false) {
        Err(AppError::ValidationError(m)) => assert_eq!(m, "You are not a member of this joint"),
        other => panic!("expected a validation error, got {:?}", other),
    }
}

#[test]
fn identity_outcome_passes_errors_on_and_reads_the_subject() {
    assert!(matches!(identity_outcome(Err(AppError::TokenExpired)), Err(AppError::TokenExpired)));
    assert!(matches!(identity_outcome(Err(AppError::InvalidToken)), Err(AppError::InvalidToken)));
    let c = Claims { sub: USER.to_string(), exp: 0, iat: 0 };
    assert_eq!(identity_outcome(Ok(c)).unwrap(), USER_ID);
    let c = Claims { sub: "x".to_string(), exp: 0, iat: 0 };
    assert!(matches!(identity_outcome(Ok(c)), Err(AppError::InvalidToken)));
}
