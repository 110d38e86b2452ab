//! Records that the data layer and the HTTP layer exchange, the stored form
//! of passwords, and the errors that the HTTP layer answers with.
use vstd::prelude::*;

use crate::random::random_bytes;

verus! {

/// The bcrypt cost with which passwords are hashed.
pub const BCRYPT_HASH_ROUNDS: u32 = 11;

/// A chat to be created.
#[derive(Debug, Clone, PartialEq, Eq)]
pub struct CreateChatDto {
    pub name: Option<String>,
    pub description: Option<String>,
    pub password: Option<String>,
    pub profile_img: Option<String>,
}

/// A user to be created.
#[derive(Debug, Clone, PartialEq, Eq)]
pub struct CreateUserDto {
    pub username: String,
    pub password: Option<String>,
    pub profile_img: Option<String>,
    pub about: Option<String>,
}

/// A user's membership of a chat.
#[derive(Debug, Clone, PartialEq, Eq)]
pub struct UserChat {
    pub user_id: i32,
    pub chat_id: i32,
    pub is_admin: Option<bool>,
}

/// Whether a stored membership flag makes the member an admin: a missing flag does not.
pub fn admin_flag(stored: Option<bool>) -> (r: bool)
    ensures
        r == (stored == Some(true)),
{
    match stored {
        Some(flag) => flag,
        None => false,
    }
}

impl UserChat {
    /// Whether the member is an admin of the chat.
    pub fn is_admin_member(&self) -> (r: bool)
        ensures
            r == (self.is_admin == Some(true)),
    {
        admin_flag(self.is_admin)
    }
}

/// Length of a bcrypt salt in bytes.
pub const SALT_LEN: usize = 16;

/// Why a password could not be hashed.
#[derive(Debug, Clone, Copy, PartialEq, Eq, Structural)]
pub enum PasswordError {
    /// The system's generator gave no salt.
    SaltUnavailable,
}

/// What bcrypt writes for a password, a cost and a salt: the `$2b$` string of
/// `bcrypt::hash_with_salt(..).format_for_version(Version::TwoB)`, the form
/// that `bcrypt::hash` also writes.
pub uninterp spec fn bcrypt_hashed(password: Seq<char>, cost: u32, salt: Seq<u8>) -> Seq<char>;

/// Relies on `bcrypt::hash_with_salt` and `HashParts::format_for_version`: it
/// refuses exactly a cost outside 4 to 31, and otherwise writes the hash.
#[verifier::external_body]
fn bcrypt_hash_with_salt(password: &str, cost: u32, salt: &[u8]) -> (r: Option<String>)
    requires
        salt@.len() == SALT_LEN,
    ensures
        r is Some <==> 4 <= cost <= 31,
        r matches Some(h) ==> h@ == bcrypt_hashed(password@, cost, salt@),
{
    let salt: [u8; 16] = salt.try_into().unwrap();
    match bcrypt::hash_with_salt(password, cost, salt) {
        Ok(parts) => Some(parts.format_for_version(bcrypt::Version::TwoB)),
        Err(_) => None,
    }
}

/// The stored form of an optional password under a given salt: none stays
/// none, and a password is replaced by its bcrypt hash.
pub fn hash_password_with_salt(password: &Option<String>, salt: &[u8]) -> (r: Option<String>)
    requires
        salt@.len() == SALT_LEN,
    ensures
        password is None ==> r is None,
        password matches Some(p) ==> (r matches Some(h) && h@ == bcrypt_hashed(
            p@,
            BCRYPT_HASH_ROUNDS,
            salt@,
        )),
{
    match password {
        Some(p) => bcrypt_hash_with_salt(p.as_str(), BCRYPT_HASH_ROUNDS, salt),
        None => None,
    }
}

/// The stored form of an optional password: none stays none, and a password
/// is replaced by its bcrypt hash under a fresh salt.
pub fn hash_password(password: &Option<String>) -> (r: Result<Option<String>, PasswordError>)
    ensures
        password is None ==> r matches Ok(None),
        r is Err ==> password is Some,
        password is Some ==> (r is Ok ==> r->Ok_0 is Some),
        r matches Ok(Some(h)) ==> (password matches Some(p) && exists|s: Seq<u8>|
            s.len() == SALT_LEN && h@ == #[trigger] bcrypt_hashed(p@, BCRYPT_HASH_ROUNDS, s)),
{
    if password.is_none() {
        return Ok(None);
    }
    match random_bytes(SALT_LEN) {
        Some(salt) => Ok(hash_password_with_salt(password, salt.as_slice())),
        None => Err(PasswordError::SaltUnavailable),
    }
}

/// The errors that the HTTP layer answers with.
#[derive(Debug, Clone, Copy, PartialEq, Eq, Structural)]
pub enum ApiError {
    InternalServerError,
    BadRequest,
    Unauthorized,
    NotFound,
    Conflict,
}

impl ApiError {
    /// The HTTP status code of the error.
    pub fn status_code(&self) -> (r: u16)
        ensures
            r == match self {
                ApiError::InternalServerError => 500u16,
                ApiError::BadRequest => 400u16,
                ApiError::Unauthorized => 401u16,
                ApiError::NotFound => 404u16,
                ApiError::Conflict => 409u16,
            },
    {
        match self {
            ApiError::InternalServerError => 500,
            ApiError::BadRequest => 400,
            ApiError::Unauthorized => 401,
            ApiError::NotFound => 404,
            ApiError::Conflict => 409,
        }
    }

    /// The text of the error, which is also the body of the response.
    pub fn message(&self) -> (r: &'static str)
        ensures
            r@ == match self {
                ApiError::InternalServerError => "Internal Server Error"@,
                ApiError::BadRequest => "Bad Request"@,
                ApiError::Unauthorized => "Unauthorized"@,
                ApiError::NotFound => "Not Found"@,
                ApiError::Conflict => "Conflict"@,
            },
    {
        match self {
            ApiError::InternalServerError => "Internal Server Error",
            ApiError::BadRequest => "Bad Request",
            ApiError::Unauthorized => "Unauthorized",
            ApiError::NotFound => "Not Found",
            ApiError::Conflict => "Conflict",
        }
    }
}

} // verus!
