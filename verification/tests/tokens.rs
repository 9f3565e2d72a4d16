use photo_archive::handlers::auth_handler::{
    claims_from_fields, decode_jwt, encode_jwt, extract_user_from_jwt, judge_token, AuthError,
    TokenFields,
};
use photo_archive::models::user::Claims;
use serde_json::Value;
use std::time::{SystemTime, UNIX_EPOCH};

const SECRET: &[u8] = b"secret";

fn now() -> usize {
    SystemTime::now().duration_since(UNIX_EPOCH).unwrap().as_secs() as usize
}

fn generate_token(user_id: i32) -> String {
    let claims = Claims { user_id, exp: now() + 600, root_folder: 123 };
    encode_jwt(&claims, SECRET).unwrap()
}

/// A token over any payload, signed by the token crate itself.
fn token_of(fields: Vec<(&str, Value)>) -> String {
    let mut payload = serde_json::Map::new();
    for (name, value) in fields {
        payload.insert(name.to_string(), value);
    }
    jsonwebtoken::encode(
        &jsonwebtoken::Header::default(),
        &payload,
        &jsonwebtoken::EncodingKey::from_secret(SECRET),
    )
    .unwrap()
}

#[test]
fn test_decode_jwt_valid_token() {
    let token = generate_token(1);
    let result = decode_jwt(&token, SECRET);
    assert!(result.is_ok());
    let claims = result.unwrap();
    assert_eq!(claims.user_id, 1);
    assert_eq!(claims.root_folder, 123);
}

#[test]
fn test_decode_jwt_invalid_token() {
    let token = "invalid.token.string";
    let result = decode_jwt(token, SECRET);
    assert!(result.is_err());
}

#[test]
fn test_extract_user_from_jwt_valid() {
    let token = generate_token(1);
    let header = format!("Bearer {}", token);
    let result = extract_user_from_jwt(Some(&header), SECRET);
    assert!(result.is_ok());
    let claims = result.unwrap();
    assert_eq!(claims.user_id, 1);
}

#[test]
fn test_extract_user_from_jwt_missing() {
    let result = extract_user_from_jwt(None, SECRET);
    assert!(result.is_err());
    let res = result.err().unwrap();
    assert_eq!(res.status(), 401);
}

#[test]
fn test_extract_user_from_jwt_invalid_token() {
    let result = extract_user_from_jwt(Some("Bearer invalid.token"), SECRET);
    assert!(result.is_err());
    let res = result.err().unwrap();
    assert_eq!(res.status(), 401);
}

#[test]
fn a_token_is_not_its_claims_and_comes_back_whole() {
    let claims = Claims { user_id: -7, root_folder: 42, exp: now() + 86400 };
    let token = encode_jwt(&claims, SECRET).unwrap();
    assert_eq!(token.split('.').count(), 3);
    assert_eq!(encode_jwt(&claims, SECRET).unwrap(), token);
    assert_ne!(encode_jwt(&claims, b"other").unwrap(), token);
    assert_eq!(decode_jwt(&token, SECRET), Ok(claims));
}

#[test]
fn a_token_under_another_secret_or_past_its_time_is_invalid() {
    let token = generate_token(1);
    assert_eq!(decode_jwt(&token, b"other"), Err(AuthError::InvalidToken));
    let expired = Claims { user_id: 1, root_folder: 123, exp: 1_000_000_000 };
    let token = encode_jwt(&expired, SECRET).unwrap();
    assert_eq!(decode_jwt(&token, SECRET), Err(AuthError::InvalidToken));
    let header = format!("Bearer {}", token);
    assert_eq!(extract_user_from_jwt(Some(&header), SECRET), Err(AuthError::InvalidToken));
    assert_eq!(extract_user_from_jwt(Some(&token), SECRET), Err(AuthError::MissingToken));
}

#[test]
fn a_token_must_hold_all_three_claims_as_fitting_numbers() {
    let exp = Value::from(now() + 600);
    let good = token_of(vec![
        ("user_id", Value::from(5)),
        ("root_folder", Value::from(6)),
        ("exp", exp.clone()),
        ("note", Value::from("kept out")),
    ]);
    assert_eq!(decode_jwt(&good, SECRET).map(|c| (c.user_id, c.root_folder)), Ok((5, 6)));
    let missing = token_of(vec![("user_id", Value::from(5)), ("exp", exp.clone())]);
    assert_eq!(decode_jwt(&missing, SECRET), Err(AuthError::InvalidToken));
    let text = token_of(vec![
        ("user_id", Value::from("5")),
        ("root_folder", Value::from(6)),
        ("exp", exp.clone()),
    ]);
    assert_eq!(decode_jwt(&text, SECRET), Err(AuthError::InvalidToken));
    let too_big = token_of(vec![
        ("user_id", Value::from(2_147_483_648i64)),
        ("root_folder", Value::from(6)),
        ("exp", exp.clone()),
    ]);
    assert_eq!(decode_jwt(&too_big, SECRET), Err(AuthError::InvalidToken));
    let legacy = token_of(vec![("sub", Value::from("1")), ("exp", exp)]);
    assert_eq!(decode_jwt(&legacy, SECRET), Err(AuthError::InvalidToken));
}

#[test]
fn claims_from_fields_wants_every_field_in_range() {
    let full = TokenFields { user_id: Some(1), root_folder: Some(-2), exp: Some(3) };
    assert_eq!(claims_from_fields(&full), Some(Claims { user_id: 1, root_folder: -2, exp: 3 }));
    let edge = TokenFields {
        user_id: Some(i32::MAX as i64),
        root_folder: Some(i32::MIN as i64),
        exp: Some(0),
    };
    assert_eq!(
        claims_from_fields(&edge),
        Some(Claims { user_id: i32::MAX, root_folder: i32::MIN, exp: 0 })
    );
    assert_eq!(claims_from_fields(&TokenFields { user_id: None, ..full }), None);
    assert_eq!(claims_from_fields(&TokenFields { root_folder: None, ..full }), None);
    assert_eq!(claims_from_fields(&TokenFields { exp: None, ..full }), None);
    assert_eq!(claims_from_fields(&TokenFields { user_id: Some(i32::MAX as i64 + 1), ..full }), None);
    assert_eq!(claims_from_fields(&TokenFields { root_folder: Some(i32::MIN as i64 - 1), ..full }), None);
}

#[test]
fn a_text_with_fewer_than_two_dots_is_no_token() {
    for text in ["", "abc", ".", "a.b", "header.payload", "invalid.token"] {
        assert_eq!(decode_jwt(text, SECRET), Err(AuthError::InvalidToken), "{:?}", text);
    }
    let token = generate_token(1);
    assert_eq!(token.matches('.').count(), 2);
    let (head, _signature) = token.rsplit_once('.').unwrap();
    assert_eq!(decode_jwt(head, SECRET), Err(AuthError::InvalidToken));
    assert!(decode_jwt(&token, SECRET).is_ok());
}

#[test]
fn the_outcome_of_a_test_comes_to_claims_or_a_refusal() {
    let full = TokenFields { user_id: Some(5), root_folder: Some(6), exp: Some(7) };
    assert_eq!(judge_token(Some(full)), Ok(Claims { user_id: 5, root_folder: 6, exp: 7 }));
    let short = TokenFields { exp: None, ..full };
    assert_eq!(judge_token(Some(short)), Err(AuthError::InvalidToken));
    let wide = TokenFields { user_id: Some(i64::MAX), ..full };
    assert_eq!(judge_token(Some(wide)), Err(AuthError::InvalidToken));
    assert_eq!(judge_token(None), Err(AuthError::InvalidToken));
}

#[test]
fn a_header_with_a_text_that_is_no_token_is_refused() {
    for header in ["Bearer invalid.token", "Bearer ", "Bearer abc", "Bearer a.b"] {
        let result = extract_user_from_jwt(Some(header), SECRET);
        assert_eq!(result, Err(AuthError::InvalidToken), "{:?}", header);
        assert_eq!(result.unwrap_err().status(), 401);
    }
}
