use vstd::prelude::*;
use vstd::string::*;
use crate::error::ApiError;
use crate::handlers::auth_handler::AuthError;
use crate::message::AppError;
use crate::models::user::{Claims, LoginRequest, User, UserCreateRequest};

verus! {

/// A user as it is to be recorded: with the hash of the password, never the
/// password.
#[derive(Debug, PartialEq, Eq)]
pub struct NewUser {
    pub name: String,
    pub email: String,
    pub password_hash: String,
}

/// For how long a token is good, in seconds: a day.
pub const TOKEN_SECONDS: i64 = 86400;

#[verifier::external_type_specification]
#[verifier::external_body]
pub struct ExBcryptError(bcrypt::BcryptError);

/// What `bcrypt::verify` makes of a password and a hash: whether the
/// password is the one that was hashed, or nothing where the hash cannot be
/// read.
pub uninterp spec fn bcrypt_verdict(password: Seq<char>, hash: Seq<char>) -> Option<bool>;

/// `bcrypt::hash` at `bcrypt::DEFAULT_COST`: the hash of a password under a
/// salt drawn at random. Which text comes back is open; but it names its
/// salt and its cost, and `bcrypt::verify` hashes again under these and
/// compares: so the hash is one that the password is accepted against.
#[verifier::external_body]
fn hash_password(password: &str) -> (r: Result<String, bcrypt::BcryptError>)
    ensures
        r matches Ok(hash) ==> bcrypt_verdict(password@, hash@) == Some(true),
{
    bcrypt::hash(password, bcrypt::DEFAULT_COST)
}

/// `bcrypt::verify`: hashes the password under the salt and the cost that
/// the hash names and compares. The answer depends on the two texts alone.
#[verifier::external_body]
fn verify_password(password: &str, hash: &str) -> (r: Result<bool, bcrypt::BcryptError>)
    ensures
        match r {
            Ok(same) => bcrypt_verdict(password@, hash@) == Some(same),
            Err(_) => bcrypt_verdict(password@, hash@) is None,
        },
{
    bcrypt::verify(password, hash)
}

/// The seconds since 1970 on the machine's clock, from `chrono::Utc::now`
/// and `chrono::DateTime::timestamp`. Nothing is claimed of the number.
#[verifier::external_body]
fn unix_time_now() -> (r: i64) {
    chrono::Utc::now().timestamp()
}

/// What a request to sign up records, given the hash of its password
/// where the password could be hashed: the name and the address as given,
/// and the hash. Without a hash nothing is to be recorded.
pub open spec fn new_user_of(req: UserCreateRequest, hashed: Option<String>) -> Result<
    NewUser,
    ApiError,
> {
    match hashed {
        Some(password_hash) => Ok(NewUser { name: req.name, email: req.email, password_hash }),
        None => Err(ApiError::Internal(AppError::InternalServerError)),
    }
}

/// What a request to sign up records, given the hash of its password
/// where the password could be hashed (see `new_user_of`).
pub fn new_user(req: &UserCreateRequest, hashed: Option<String>) -> (r: Result<NewUser, ApiError>)
    ensures
        r == new_user_of(*req, hashed),
{
    match hashed {
        Some(password_hash) => Ok(
            NewUser { name: req.name.clone(), email: req.email.clone(), password_hash },
        ),
        None => Err(ApiError::Internal(AppError::InternalServerError)),
    }
}

/// What a request to sign up records: the name and the address as given,
/// and a hash of the password of the request, never the password. Where
/// the password cannot be hashed nothing is to be recorded.
///
/// The salt of the hash is drawn at random, so the hash is stated by what
/// it is good for: the password of the request is accepted against it.
pub fn signup(req: &UserCreateRequest) -> (r: Result<NewUser, ApiError>)
    ensures
        exists|hashed: Option<String>| r == #[trigger] new_user_of(*req, hashed),
        r is Ok ==> bcrypt_verdict(req.password@, r->Ok_0.password_hash@) == Some(true),
{
    let hashed = match hash_password(req.password.as_str()) {
        Ok(password_hash) => Some(password_hash),
        Err(_) => None,
    };
    let r = new_user(req, hashed);
    assert(r == new_user_of(*req, hashed));
    r
}

/// What a token made out at second `now` says of `user`: it is good for a
/// day. No token is made out for a user without a root folder, nor at a
/// time from which a day cannot be counted.
pub open spec fn claims_at(user: User, now: i64) -> Result<Claims, AuthError> {
    match user.root_folder {
        Some(root_folder) => if 0 <= now + TOKEN_SECONDS <= usize::MAX && now + TOKEN_SECONDS
            <= i64::MAX {
            Ok(Claims { user_id: user.id, root_folder, exp: (now + TOKEN_SECONDS) as usize })
        } else {
            Err(AuthError::TokenNotIssued)
        },
        None => Err(AuthError::TokenNotIssued),
    }
}

/// What a token made out at second `now` says of `user`.
pub fn issue_claims(user: &User, now: i64) -> (r: Result<Claims, AuthError>)
    ensures
        r == claims_at(*user, now),
{
    let root_folder = match user.root_folder {
        Some(root_folder) => root_folder,
        None => {
            return Err(AuthError::TokenNotIssued);
        },
    };
    if now > i64::MAX - TOKEN_SECONDS || now < -TOKEN_SECONDS {
        return Err(AuthError::TokenNotIssued);
    }
    let until: i64 = now + TOKEN_SECONDS;
    if until as u64 > usize::MAX as u64 {
        return Err(AuthError::TokenNotIssued);
    }
    Ok(Claims { user_id: user.id, root_folder, exp: until as usize })
}

/// Whether the password of a request is that of the user, given what the
/// comparison with the recorded hash said. A hash that cannot be read
/// lets nobody in.
pub fn password_accepted(verdict: Option<bool>) -> (r: bool)
    ensures
        r == (verdict == Some(true)),
{
    match verdict {
        Some(same) => same,
        None => false,
    }
}

/// Lets a user in. `user` is the user recorded under the address of the
/// request, where there is one. The password of the request is compared
/// with the recorded hash, and a token for a day from now is made out.
///
/// Nobody is let in under an unknown address or with another password.
pub fn signin(user: Option<&User>, form: &LoginRequest) -> (r: Result<Claims, AuthError>)
    ensures
        match user {
            None => r == Err::<Claims, AuthError>(AuthError::UserNotFound),
            Some(user) => if bcrypt_verdict(form.password@, user.password_hash@) == Some(true) {
                exists|now: i64| r == #[trigger] claims_at(*user, now)
            } else {
                r == Err::<Claims, AuthError>(AuthError::WrongPassword)
            },
        },
{
    let user = match user {
        Some(user) => user,
        None => {
            return Err(AuthError::UserNotFound);
        },
    };
    let verdict = match verify_password(form.password.as_str(), user.password_hash.as_str()) {
        Ok(same) => Some(same),
        Err(_) => None,
    };
    if !password_accepted(verdict) {
        return Err(AuthError::WrongPassword);
    }
    let now = unix_time_now();
    issue_claims(user, now)
}

} // verus!
