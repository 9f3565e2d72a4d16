use vstd::prelude::*;

verus! {

#[derive(Debug, PartialEq, Eq)]
pub struct User {
    pub id: i32,
    pub name: String,
    pub email: String,
    pub password_hash: String,
    pub root_folder: Option<i32>,
}

#[derive(Debug, PartialEq, Eq)]
pub struct UserCreateRequest {
    pub name: String,
    pub email: String,
    pub password: String,
}

#[derive(Debug, PartialEq, Eq)]
pub struct LoginRequest {
    pub email: String,
    pub password: String,
}

/// What a bearer token says of its holder: who it is, where its folders
/// start, and the second (since 1970) at which the token runs out.
#[derive(Debug, Clone, Copy, PartialEq, Eq, Structural)]
pub struct Claims {
    pub user_id: i32,
    pub root_folder: i32,
    pub exp: usize,
}

} // verus!
