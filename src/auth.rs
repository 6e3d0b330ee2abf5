//! Sign-in and the bearer token's subject: checking a password against its
//! stored bcrypt hash, reading the `Authorization` header, and reading the
//! user and role out of a token's subject.

use vstd::prelude::*;
use vstd::string::StringExecFns;

verus! {

/// A user's ward assignment.
#[derive(Clone, Debug)]
pub struct UserWard {
    pub ward_id: i32,
    pub ward_name: String,
}

/// A user account. `password` holds the bcrypt hash; `created_at` is in
/// seconds since the Unix epoch.
#[derive(Clone, Debug)]
pub struct User {
    pub userid: i32,
    pub fullname: String,
    pub username: String,
    pub password: String,
    pub role: String,
    pub created_at: u64,
    pub wards: Vec<UserWard>,
}

/// A sign-in attempt.
#[derive(Clone, Debug)]
pub struct LoginRequest {
    pub username: String,
    pub password: String,
}

/// The answer to a successful sign-in.
#[derive(Clone, Debug)]
pub struct LoginResponse {
    pub code: u16,
    pub message: String,
    pub token: String,
    pub name: String,
    pub role: String,
}

/// A password to hash.
#[derive(Clone, Debug)]
pub struct PasswordInput {
    pub password: String,
}

/// A bcrypt hash of a password.
#[derive(Clone, Debug)]
pub struct HashedPasswordOutput {
    pub hashed_password: String,
}

/// A token to check.
#[derive(Clone, Debug)]
pub struct VerifyTokenRequest {
    pub token: String,
}

/// What a valid token tells its holder: the user's identifier, which also
/// names the user's notification room.
#[derive(Clone, Copy, Debug, PartialEq, Eq, Structural)]
pub struct VerifyTokenData {
    pub room: i32,
}

/// Why a sign-in was refused.
#[derive(Clone, Copy, Debug, PartialEq, Eq, Structural)]
pub enum LoginError {
    /// No live user has that name.
    InvalidUsername,
    /// The password does not match.
    InvalidPassword,
    /// The stored hash is not a bcrypt hash.
    CorruptHash,
}

/// bcrypt's verdict on a password and a stored hash: `Some(true)` where they
/// match, `Some(false)` where not, `None` where the hash is malformed.
pub uninterp spec fn bcrypt_verdict(password: Seq<char>, hash: Seq<char>) -> Option<bool>;

/// Relies on bcrypt::verify, which recomputes the hash of `password` with the
/// cost and salt read from `hash` and compares; it fails on a malformed hash.
/// Its verdict depends on the two strings alone.
#[verifier::external_body]
fn check_password(password: &str, hash: &str) -> (r: Option<bool>)
    ensures
        r == bcrypt_verdict(password@, hash@),
{
    bcrypt::verify(password, hash).ok()
}

/// Relies on bcrypt::hash at bcrypt::DEFAULT_COST: a fresh hash of `password`
/// under a random salt, or `None` where the system's randomness fails. The
/// text depends on the salt; what is promised is that bcrypt::verify accepts
/// the password against it, since both hash the same bytes with the cost and
/// salt that the text records.
#[verifier::external_body]
fn hash_with_default_cost(password: &str) -> (r: Option<String>)
    ensures
        r is Some ==> bcrypt_verdict(password@, r->0@) == Some(true),
{
    bcrypt::hash(password, bcrypt::DEFAULT_COST).ok()
}

/// The outcome of a sign-in, from whether the user was found and bcrypt's
/// verdict on the password.
pub open spec fn login_spec(found: bool, verdict: Option<bool>) -> Result<(), LoginError> {
    if !found {
        Err(LoginError::InvalidUsername)
    } else {
        match verdict {
            Some(true) => Ok(()),
            Some(false) => Err(LoginError::InvalidPassword),
            None => Err(LoginError::CorruptHash),
        }
    }
}

/// Decides a sign-in from whether the user was found and bcrypt's verdict.
pub fn login_decision(found: bool, verdict: Option<bool>) -> (r: Result<(), LoginError>)
    ensures
        r == login_spec(found, verdict),
{
    if !found {
        return Err(LoginError::InvalidUsername);
    }
    match verdict {
        Some(true) => Ok(()),
        Some(false) => Err(LoginError::InvalidPassword),
        None => Err(LoginError::CorruptHash),
    }
}

/// Signs in `credentials` against `user`, the live account of that name if
/// there is one. The password is checked against the stored hash.
pub fn login(credentials: &LoginRequest, user: &Option<User>) -> (r: Result<(), LoginError>)
    ensures
        user is None ==> r == Err::<(), LoginError>(LoginError::InvalidUsername),
        user is Some ==> r == login_spec(
            true,
            bcrypt_verdict(credentials.password@, user->0.password@),
        ),
{
    match user {
        None => login_decision(false, None),
        Some(u) => {
            let verdict = check_password(credentials.password.as_str(), u.password.as_str());
            login_decision(true, verdict)
        },
    }
}

impl LoginError {
    /// The message shown to the caller.
    pub fn message(&self) -> (r: String)
        ensures
            *self == LoginError::InvalidUsername ==> r@ == "Invalid username!"@,
            *self == LoginError::InvalidPassword ==> r@ == "Invalid password!"@,
            *self == LoginError::CorruptHash ==> r@ == "Stored password cannot be checked!"@,
    {
        match self {
            LoginError::InvalidUsername => String::from_str("Invalid username!"),
            LoginError::InvalidPassword => String::from_str("Invalid password!"),
            LoginError::CorruptHash => String::from_str("Stored password cannot be checked!"),
        }
    }
}

impl LoginResponse {
    /// The answer to a successful sign-in of `user`, carrying `token`.
    pub fn granted(user: &User, token: String) -> (r: LoginResponse)
        ensures
            r.code == 200,
            r.message@ == "Token generated successfully."@,
            r.token == token,
            r.name == user.fullname,
            r.role == user.role,
    {
        LoginResponse {
            code: 200,
            message: String::from_str("Token generated successfully."),
            token,
            name: user.fullname.clone(),
            role: user.role.clone(),
        }
    }
}

impl PasswordInput {
    /// A bcrypt hash of the password, under a fresh random salt, that the
    /// password checks against; `None` where no salt could be drawn.
    pub fn hash(&self) -> (r: Option<HashedPasswordOutput>)
        ensures
            r is Some ==> bcrypt_verdict(self.password@, r->0.hashed_password@) == Some(true),
    {
        match hash_with_default_cost(self.password.as_str()) {
            Some(h) => Some(HashedPasswordOutput { hashed_password: h }),
            None => None,
        }
    }
}

/// A new user account, with its password in clear.
#[derive(Clone, Debug)]
pub struct AddUserRequest {
    pub fullname: String,
    pub username: String,
    pub password: String,
    pub role: String,
    pub ward_ids: Vec<i32>,
}

/// New details for an existing account. `password` is either the stored
/// hash, sent back unchanged, or a new password in clear.
#[derive(Clone, Debug)]
pub struct UpdateUserRequest {
    pub fullname: String,
    pub password: String,
    pub role: String,
    pub ward_ids: Vec<i32>,
}

impl AddUserRequest {
    /// The hash to store for the new account, one that the password checks
    /// against; `None` where no salt could be drawn.
    pub fn password_hash(&self) -> (r: Option<String>)
        ensures
            r is Some ==> bcrypt_verdict(self.password@, r->0@) == Some(true),
    {
        hash_with_default_cost(self.password.as_str())
    }
}

impl UpdateUserRequest {
    /// The hash to store after the update: the stored one where the request
    /// sends it back unchanged, else a fresh hash of the new password (`None`
    /// where no salt could be drawn).
    pub fn password_hash(&self, stored_hash: &str) -> (r: Option<String>)
        ensures
            self.password@ == stored_hash@ ==> r is Some && r->0@ == stored_hash@,
            self.password@ != stored_hash@ && r is Some ==> bcrypt_verdict(self.password@, r->0@)
                == Some(true),
    {
        let stored = stored_hash.to_owned();
        if self.password == stored {
            Some(stored)
        } else {
            hash_with_default_cost(self.password.as_str())
        }
    }
}

} // verus!
