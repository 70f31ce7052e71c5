//! The shapes of the credential endpoints' requests.  Credential checking
//! itself — password hashing and the user file — lives outside this core,
//! with the surrounding application.

use vstd::prelude::*;

verus! {

/// A signup or login request against the combined credential endpoint.
#[derive(Clone, Debug)]
pub struct AuthData {
    pub username: String,
    pub password: String,
    pub room_id: String,
}

/// A login request against the older, separate login endpoint.
#[derive(Clone, Debug)]
pub struct LoginData {
    pub username: String,
    pub password: String,
    pub room_id: String,
}

/// A signup request against the older, separate signup endpoint.
#[derive(Clone, Debug)]
pub struct SignUpData {
    pub username: String,
    pub password: String,
    pub room_id: String,
}

} // verus!
