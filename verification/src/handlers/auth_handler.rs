use vstd::prelude::*;
use vstd::string::*;
use crate::models::user::Claims;

verus! {

/// Why a caller was not let in.
#[derive(Debug, Clone, Copy, PartialEq, Eq, Structural)]
pub enum AuthError {
    /// The request carries no bearer token.
    MissingToken,
    /// The token is not one of ours, or has run out.
    InvalidToken,
    /// Nobody is known under the address.
    UserNotFound,
    /// The password is not the user's.
    WrongPassword,
    /// The user is known, but no token can be made out for them.
    TokenNotIssued,
}

impl AuthError {
    /// The text of the refusal, character by character.
    pub open spec fn message_spec(&self) -> Seq<char> {
        match self {
            AuthError::MissingToken => "Missing Authorization token"@,
            AuthError::InvalidToken => "Invalid token"@,
            AuthError::UserNotFound => "ユーザーが見つかりません"@,
            AuthError::WrongPassword => "パスワードが間違っています"@,
            AuthError::TokenNotIssued => "Internal Server Error"@,
        }
    }

    pub fn message(&self) -> (r: String)
        ensures
            r@ == self.message_spec(),
    {
        match self {
            AuthError::MissingToken => String::from_str("Missing Authorization token"),
            AuthError::InvalidToken => String::from_str("Invalid token"),
            AuthError::UserNotFound => String::from_str("ユーザーが見つかりません"),
            AuthError::WrongPassword => String::from_str("パスワードが間違っています"),
            AuthError::TokenNotIssued => String::from_str("Internal Server Error"),
        }
    }

    /// The HTTP status under which the refusal is reported.
    pub fn status(&self) -> (r: u16)
        ensures
            r == if *self == AuthError::TokenNotIssued {
                500u16
            } else {
                401u16
            },
    {
        match self {
            AuthError::TokenNotIssued => 500,
            _ => 401,
        }
    }
}

/// The word and the blank that stand before a token in the header.
pub open spec fn bearer_prefix() -> Seq<char> {
    seq!['B', 'e', 'a', 'r', 'e', 'r', ' ']
}

/// The token in a header that starts with `Bearer` and a blank.
pub open spec fn token_text(header: Seq<char>) -> Option<Seq<char>> {
    if header.len() >= 7 && header.subrange(0, 7) == bearer_prefix() {
        Some(header.subrange(7, header.len() as int))
    } else {
        None
    }
}

/// The bearer token of a request, given its `Authorization` header where it
/// has one. A request without the header, or with a header that does not
/// start with `Bearer` and a blank, carries no token.
pub fn bearer_token(authorization: Option<&str>) -> (r: Result<String, AuthError>)
    ensures
        match authorization {
            Some(header) => match token_text(header@) {
                Some(token) => r is Ok && r->Ok_0@ == token,
                None => r == Err::<String, AuthError>(AuthError::MissingToken),
            },
            None => r == Err::<String, AuthError>(AuthError::MissingToken),
        },
{
    let header = match authorization {
        Some(header) => header,
        None => {
            return Err(AuthError::MissingToken);
        },
    };
    let n = header.unicode_len();
    if n < 7 {
        return Err(AuthError::MissingToken);
    }
    let fits = header.get_char(0) == 'B' && header.get_char(1) == 'e' && header.get_char(2) == 'a'
        && header.get_char(3) == 'r' && header.get_char(4) == 'e' && header.get_char(5) == 'r'
        && header.get_char(6) == ' ';
    proof {
        let start = header@.subrange(0, 7);
        if fits {
            assert(start =~= bearer_prefix());
        } else {
            assert(start[0] == header@[0] && start[1] == header@[1] && start[2] == header@[2]
                && start[3] == header@[3] && start[4] == header@[4] && start[5] == header@[5]
                && start[6] == header@[6]);
            assert(bearer_prefix()[0] == 'B' && bearer_prefix()[1] == 'e' && bearer_prefix()[2]
                == 'a' && bearer_prefix()[3] == 'r' && bearer_prefix()[4] == 'e'
                && bearer_prefix()[5] == 'r' && bearer_prefix()[6] == ' ');
        }
    }
    if !fits {
        return Err(AuthError::MissingToken);
    }
    Ok(header.substring_char(7, n).to_owned())
}

#[verifier::external_type_specification]
#[verifier::external_body]
pub struct ExJwtError(jsonwebtoken::errors::Error);

/// What a token holds under the three names that count: each number where
/// the token holds a whole number under the name.
#[derive(Debug, Clone, Copy, PartialEq, Eq, Structural)]
pub struct TokenFields {
    pub user_id: Option<i64>,
    pub root_folder: Option<i64>,
    pub exp: Option<u64>,
}

/// The token that `jsonwebtoken::encode` makes of the three claims under
/// the default header, signed with `secret`; nothing where it refuses.
pub uninterp spec fn signed_token(user_id: int, root_folder: int, exp: int, secret: Seq<u8>) -> Option<Seq<char>>;

/// `jsonwebtoken::decode` with a key from `secret` and the validation for
/// HS256: the signature is tested, and the time of expiry against the
/// clock. What comes back is what the token holds under the three names.
/// The answer depends on the clock, so one thing only is claimed of it: the
/// crate cuts a token at its last two dots before it looks at anything
/// else, and refuses a text that has fewer.
#[verifier::external_body]
fn verify_token(token: &str, secret: &[u8]) -> (r: Result<TokenFields, jsonwebtoken::errors::Error>)
    ensures
        dot_count(token@) < 2 ==> r is Err,
{
    let data = jsonwebtoken::decode::<serde_json::Map<String, serde_json::Value>>(
        token,
        &jsonwebtoken::DecodingKey::from_secret(secret),
        &jsonwebtoken::Validation::new(jsonwebtoken::Algorithm::HS256),
    )?;
    Ok(TokenFields {
        user_id: data.claims.get("user_id").and_then(|v| v.as_i64()),
        root_folder: data.claims.get("root_folder").and_then(|v| v.as_i64()),
        exp: data.claims.get("exp").and_then(|v| v.as_u64()),
    })
}

/// `jsonwebtoken::encode` under the default header (HS256) with a key from
/// `secret`, on the three claims under their names. The token depends on the
/// claims and the secret alone.
#[verifier::external_body]
fn sign_claims(claims: &Claims, secret: &[u8]) -> (r: Result<String, jsonwebtoken::errors::Error>)
    ensures
        match r {
            Ok(token) => signed_token(
                claims.user_id as int,
                claims.root_folder as int,
                claims.exp as int,
                secret@,
            ) == Some(token@),
            Err(_) => signed_token(
                claims.user_id as int,
                claims.root_folder as int,
                claims.exp as int,
                secret@,
            ) is None,
        },
{
    let mut fields = serde_json::Map::new();
    fields.insert("user_id".to_string(), serde_json::Value::from(claims.user_id));
    fields.insert("root_folder".to_string(), serde_json::Value::from(claims.root_folder));
    fields.insert("exp".to_string(), serde_json::Value::from(claims.exp));
    jsonwebtoken::encode(
        &jsonwebtoken::Header::default(),
        &fields,
        &jsonwebtoken::EncodingKey::from_secret(secret),
    )
}

/// The claims that the fields of a token make: all three must be there,
/// and each must fit its place.
pub open spec fn claims_of(fields: TokenFields) -> Option<Claims> {
    match (fields.user_id, fields.root_folder, fields.exp) {
        (Some(user_id), Some(root_folder), Some(exp)) => if i32::MIN <= user_id <= i32::MAX
            && i32::MIN <= root_folder <= i32::MAX && exp <= usize::MAX {
            Some(
                Claims {
                    user_id: user_id as i32,
                    root_folder: root_folder as i32,
                    exp: exp as usize,
                },
            )
        } else {
            None
        },
        _ => None,
    }
}

/// The claims that the fields of a token make: all three must be there,
/// and each must fit its place.
pub fn claims_from_fields(fields: &TokenFields) -> (r: Option<Claims>)
    ensures
        r == claims_of(*fields),
{
    let user_id = match fields.user_id {
        Some(n) => n,
        None => {
            return None;
        },
    };
    let root_folder = match fields.root_folder {
        Some(n) => n,
        None => {
            return None;
        },
    };
    let exp = match fields.exp {
        Some(n) => n,
        None => {
            return None;
        },
    };
    if user_id < i32::MIN as i64 || user_id > i32::MAX as i64 {
        return None;
    }
    if root_folder < i32::MIN as i64 || root_folder > i32::MAX as i64 {
        return None;
    }
    if exp > usize::MAX as u64 {
        return None;
    }
    Some(Claims { user_id: user_id as i32, root_folder: root_folder as i32, exp: exp as usize })
}

/// The claims of a token that was signed with `secret` and has not run
/// out. Any other token is refused as invalid.
///
/// Whether a token holds is for the signature and the clock to say, so the
/// result is stated over what the test of the token gave: it is what
/// `token_verdict` makes of that. A text with fewer than two dots is no
/// token at all and is always refused.
pub fn decode_jwt(token: &str, secret: &[u8]) -> (r: Result<Claims, AuthError>)
    ensures
        exists|verified: Option<TokenFields>| r == #[trigger] token_verdict(verified),
        r is Err ==> r == Err::<Claims, AuthError>(AuthError::InvalidToken),
        dot_count(token@) < 2 ==> r == Err::<Claims, AuthError>(AuthError::InvalidToken),
{
    let verified = match verify_token(token, secret) {
        Ok(fields) => Some(fields),
        Err(_) => None,
    };
    let r = judge_token(verified);
    assert(r == token_verdict(verified));
    r
}

/// How many dots a text holds.
pub open spec fn dot_count(text: Seq<char>) -> nat
    decreases text.len(),
{
    if text.len() == 0 {
        0
    } else {
        dot_count(text.drop_last()) + if text.last() == '.' {
            1nat
        } else {
            0nat
        }
    }
}

/// What the outcome of the test of a token comes to: the claims that its
/// fields make, where the token held and its fields make claims; else the
/// refusal of the token as invalid. `verified` holds the fields of a token
/// that held, and nothing for a token that did not.
pub open spec fn token_verdict(verified: Option<TokenFields>) -> Result<Claims, AuthError> {
    match verified {
        Some(fields) => match claims_of(fields) {
            Some(claims) => Ok(claims),
            None => Err(AuthError::InvalidToken),
        },
        None => Err(AuthError::InvalidToken),
    }
}

/// What the outcome of the test of a token comes to (see `token_verdict`).
pub fn judge_token(verified: Option<TokenFields>) -> (r: Result<Claims, AuthError>)
    ensures
        r == token_verdict(verified),
{
    match verified {
        Some(fields) => match claims_from_fields(&fields) {
            Some(claims) => Ok(claims),
            None => Err(AuthError::InvalidToken),
        },
        None => Err(AuthError::InvalidToken),
    }
}

/// The token that says `claims`, signed with `secret`.
pub fn encode_jwt(claims: &Claims, secret: &[u8]) -> (r: Result<String, AuthError>)
    ensures
        match signed_token(
            claims.user_id as int,
            claims.root_folder as int,
            claims.exp as int,
            secret@,
        ) {
            Some(token) => r is Ok && r->Ok_0@ == token,
            None => r == Err::<String, AuthError>(AuthError::TokenNotIssued),
        },
{
    match sign_claims(claims, secret) {
        Ok(token) => Ok(token),
        Err(_) => Err(AuthError::TokenNotIssued),
    }
}

/// Who a request comes from, given its `Authorization` header where it has
/// one, and the secret that tokens are signed with. A request without a
/// bearer token is refused as such, one with a token that does not hold as
/// invalid.
///
/// Of a request with a token the result is what `token_verdict` makes of
/// the test of that token; a token with fewer than two dots is always
/// refused.
pub fn extract_user_from_jwt(authorization: Option<&str>, secret: &[u8]) -> (r: Result<
    Claims,
    AuthError,
>)
    ensures
        match authorization {
            Some(header) => match token_text(header@) {
                Some(token) => (exists|verified: Option<TokenFields>|
                    r == #[trigger] token_verdict(verified)) && (dot_count(token) < 2 ==> r
                    == Err::<Claims, AuthError>(AuthError::InvalidToken)),
                None => r == Err::<Claims, AuthError>(AuthError::MissingToken),
            },
            None => r == Err::<Claims, AuthError>(AuthError::MissingToken),
        },
{
    let token = match bearer_token(authorization) {
        Ok(token) => token,
        Err(e) => {
            return Err(e);
        },
    };
    decode_jwt(token.as_str(), secret)
}

} // verus!
