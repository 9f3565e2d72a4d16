use photo_archive::error::ApiError;
use photo_archive::handlers::auth_handler::{bearer_token, AuthError};
use photo_archive::handlers::user_handler::{
    issue_claims, new_user, password_accepted, signin, signup, NewUser, TOKEN_SECONDS,
};
use photo_archive::models::photo::serialize_datetime;
use photo_archive::models::user::{Claims, LoginRequest, User, UserCreateRequest};

fn user(password_hash: &str, root_folder: Option<i32>) -> User {
    User {
        id: 7,
        name: "n".to_string(),
        email: "n@example.com".to_string(),
        password_hash: password_hash.to_string(),
        root_folder,
    }
}

#[test]
fn the_token_follows_bearer_and_a_blank() {
    assert_eq!(bearer_token(Some("Bearer abc.def.ghi")), Ok("abc.def.ghi".to_string()));
    assert_eq!(bearer_token(Some("Bearer ")), Ok(String::new()));
    assert_eq!(bearer_token(Some("Bearer  x")), Ok(" x".to_string()));
}

#[test]
fn a_request_without_a_bearer_token_is_refused() {
    assert_eq!(bearer_token(None), Err(AuthError::MissingToken));
    assert_eq!(bearer_token(Some("")), Err(AuthError::MissingToken));
    assert_eq!(bearer_token(Some("Bearer")), Err(AuthError::MissingToken));
    assert_eq!(bearer_token(Some("bearer abc")), Err(AuthError::MissingToken));
    assert_eq!(bearer_token(Some("Basic abcdef")), Err(AuthError::MissingToken));
    assert_eq!(bearer_token(Some(" Bearer abc")), Err(AuthError::MissingToken));
    assert_eq!(AuthError::MissingToken.status(), 401);
    assert_eq!(AuthError::MissingToken.message(), "Missing Authorization token");
    assert_eq!(AuthError::InvalidToken.status(), 401);
    assert_eq!(AuthError::InvalidToken.message(), "Invalid token");
    assert_eq!(AuthError::UserNotFound.message(), "ユーザーが見つかりません");
    assert_eq!(AuthError::WrongPassword.message(), "パスワードが間違っています");
    assert_eq!(AuthError::TokenNotIssued.status(), 500);
}

#[test]
fn claims_are_good_for_a_day() {
    assert_eq!(TOKEN_SECONDS, 86400);
    let claims = issue_claims(&user("h", Some(3)), 1_700_000_000);
    assert_eq!(claims, Ok(Claims { user_id: 7, root_folder: 3, exp: 1_700_086_400 }));
    assert_eq!(issue_claims(&user("h", Some(3)), 0).unwrap().exp, 86400);
    assert_eq!(issue_claims(&user("h", Some(3)), -86400).unwrap().exp, 0);
}

#[test]
fn no_claims_without_a_root_folder_or_a_countable_time() {
    assert_eq!(issue_claims(&user("h", None), 0), Err(AuthError::TokenNotIssued));
    assert_eq!(issue_claims(&user("h", Some(1)), i64::MAX), Err(AuthError::TokenNotIssued));
    assert_eq!(issue_claims(&user("h", Some(1)), -86401), Err(AuthError::TokenNotIssued));
}

#[test]
fn only_a_confirmed_password_is_accepted() {
    assert!(password_accepted(Some(true)));
    assert!(!password_accepted(Some(false)));
    assert!(!password_accepted(None));
}

#[test]
fn signup_hashes_the_password_and_signin_accepts_it() {
    let req = UserCreateRequest {
        name: "n".to_string(),
        email: "n@example.com".to_string(),
        password: "correct horse".to_string(),
    };
    let new_user = signup(&req).unwrap();
    assert_eq!(new_user.name, "n");
    assert_eq!(new_user.email, "n@example.com");
    assert_ne!(new_user.password_hash, "correct horse");
    assert_eq!(new_user.password_hash.len(), 60);
    assert!(new_user.password_hash.starts_with("$2"));

    let recorded = user(&new_user.password_hash, Some(5));
    let good = LoginRequest { email: "n@example.com".to_string(), password: "correct horse".to_string() };
    let claims = signin(Some(&recorded), &good).unwrap();
    assert_eq!(claims.user_id, 7);
    assert_eq!(claims.root_folder, 5);
    assert!(claims.exp > 1_700_000_000 + 86400);

    let bad = LoginRequest { email: "n@example.com".to_string(), password: "wrong".to_string() };
    assert_eq!(signin(Some(&recorded), &bad), Err(AuthError::WrongPassword));
    assert_eq!(signin(None, &good), Err(AuthError::UserNotFound));
    let unreadable = user("not a hash", Some(5));
    assert_eq!(signin(Some(&unreadable), &good), Err(AuthError::WrongPassword));
    let no_root = user(&new_user.password_hash, None);
    assert_eq!(signin(Some(&no_root), &good), Err(AuthError::TokenNotIssued));
}

#[test]
fn signin_accepts_a_known_hash() {
    let recorded = user("$2y$05$bvIG6Nmid91Mu9RcmmWZfO5HJIMCT8riNW0hEp8f6/FuA2/mHZFpe", Some(1));
    let good = LoginRequest { email: "e".to_string(), password: "password".to_string() };
    assert!(signin(Some(&recorded), &good).is_ok());
    let bad = LoginRequest { email: "e".to_string(), password: "Password".to_string() };
    assert_eq!(signin(Some(&recorded), &bad), Err(AuthError::WrongPassword));
}

#[test]
fn upload_times_are_written_to_the_minute() {
    assert_eq!(serialize_datetime(0), Ok("1970-01-01T00:00".to_string()));
    assert_eq!(serialize_datetime(1_700_000_000), Ok("2023-11-14T22:13".to_string()));
    assert_eq!(serialize_datetime(59), Ok("1970-01-01T00:00".to_string()));
    assert_eq!(serialize_datetime(60), Ok("1970-01-01T00:01".to_string()));
    assert_eq!(serialize_datetime(-1), Ok("1969-12-31T23:59".to_string()));
    assert!(serialize_datetime(i64::MAX).is_err());
}

#[test]
fn signup_failure_kind() {
    assert_eq!(
        ApiError::Internal(photo_archive::message::AppError::InternalServerError).status(),
        500
    );
}

#[test]
fn a_new_user_is_recorded_with_the_hash_or_not_at_all() {
    let req = UserCreateRequest {
        name: "n".to_string(),
        email: "n@example.com".to_string(),
        password: "pw".to_string(),
    };
    assert_eq!(
        new_user(&req, Some("hashed".to_string())),
        Ok(NewUser {
            name: "n".to_string(),
            email: "n@example.com".to_string(),
            password_hash: "hashed".to_string(),
        })
    );
    assert_eq!(
        new_user(&req, None),
        Err(ApiError::Internal(photo_archive::message::AppError::InternalServerError))
    );
}

#[test]
fn two_signups_with_one_password_give_two_hashes_that_both_hold() {
    let req = UserCreateRequest {
        name: "n".to_string(),
        email: "n@example.com".to_string(),
        password: "same".to_string(),
    };
    let one = signup(&req).unwrap();
    let two = signup(&req).unwrap();
    assert_ne!(one.password_hash, two.password_hash);
    let form = LoginRequest { email: "n@example.com".to_string(), password: "same".to_string() };
    assert!(signin(Some(&user(&one.password_hash, Some(1))), &form).is_ok());
    assert!(signin(Some(&user(&two.password_hash, Some(1))), &form).is_ok());
}
