//! Requests and responses of the account, profile and group endpoints, with
//! the field rules that a request must meet before it is acted on.
use vstd::prelude::*;

verus! {

/// Whether validator's e-mail check accepts `s`.
pub uninterp spec fn valid_email(s: Seq<char>) -> bool;

/// Relies on `validator::ValidateEmail::validate_email` for a `str`: the
/// address check of the HTML5 form rules; an address it accepts is not empty
/// and holds an `@`.
#[verifier::external_body]
fn email_ok(s: &str) -> (r: bool)
    ensures
        r == valid_email(s@),
        r ==> s@.len() > 0 && s@.contains('@'),
{
    validator::ValidateEmail::validate_email(&s)
}

/// Whether a text has between `min` and `max` characters, inclusive.
pub open spec fn length_within(s: Seq<char>, min: nat, max: nat) -> bool {
    min <= s.len() <= max
}

/// Registration of a new account.
#[derive(Clone, Debug)]
pub struct RegisterRequest {
    pub username: String,
    pub email: String,
    pub password: String,
    pub is_18_plus: bool,
}

/// Sign-in with a user name and a password.
#[derive(Clone, Debug)]
pub struct LoginRequest {
    pub username: String,
    pub password: String,
}

/// The token handed out on sign-in.
#[derive(Clone, Debug)]
pub struct LoginResponse {
    pub access_token: String,
    pub token_type: String,
    /// Seconds until the token expires.
    pub expires_in: i64,
}

/// Confirmation of an address with the code that was mailed to it.
#[derive(Clone, Debug)]
pub struct VerifyOtpRequest {
    pub email: String,
    pub code: String,
}

/// The result of a confirmation.
#[derive(Clone, Debug)]
pub struct VerifyOtpResponse {
    pub message: String,
    pub verified: bool,
}

/// A change to a profile; an absent field is left as it is.
#[derive(Clone, Debug)]
pub struct UpdateProfileRequest {
    pub display_name: Option<String>,
    pub profile_picture_url: Option<String>,
    pub phone_number: Option<String>,
}

/// The result of joining a group.
#[derive(Clone, Debug)]
pub struct JoinJointResponse {
    pub message: String,
    pub joined: bool,
}

/// Whether `s` has between `min` and `max` characters, inclusive.
fn chars_within(s: &str, min: usize, max: usize) -> (r: bool)
    ensures
        r == length_within(s@, min as nat, max as nat),
        s@.len() <= usize::MAX,
{
    let n = s.unicode_len();
    min <= n && n <= max
}

/// Whether an optional text is absent or has between `min` and `max`
/// characters.
pub open spec fn optional_within(s: Option<String>, min: nat, max: nat) -> bool {
    match s {
        None => true,
        Some(t) => length_within(t@, min, max),
    }
}

fn optional_chars_within(s: &Option<String>, min: usize, max: usize) -> (r: bool)
    ensures
        r == optional_within(*s, min as nat, max as nat),
{
    match s {
        None => true,
        Some(t) => chars_within(t.as_str(), min, max),
    }
}

impl RegisterRequest {
    /// A user name of 3 to 50 characters, an e-mail address, and a password
    /// of at least 8 characters.
    pub fn is_valid(&self) -> (r: bool)
        ensures
            r == (length_within(self.username@, 3, 50) && valid_email(self.email@)
                && self.password@.len() >= 8),
    {
        chars_within(self.username.as_str(), 3, 50) && email_ok(self.email.as_str())
            && chars_within(self.password.as_str(), 8, usize::MAX)
    }
}

impl LoginRequest {
    /// Neither field is empty.
    pub fn is_valid(&self) -> (r: bool)
        ensures
            r == (self.username@.len() >= 1 && self.password@.len() >= 1),
    {
        chars_within(self.username.as_str(), 1, usize::MAX) && chars_within(
            self.password.as_str(),
            1,
            usize::MAX,
        )
    }
}

impl VerifyOtpRequest {
    /// An e-mail address and a code of exactly 6 characters.
    pub fn is_valid(&self) -> (r: bool)
        ensures
            r == (valid_email(self.email@) && self.code@.len() == 6),
    {
        email_ok(self.email.as_str()) && chars_within(self.code.as_str(), 6, 6)
    }
}

impl UpdateProfileRequest {
    /// A display name, where given, of 1 to 100 characters, and a phone
    /// number, where given, of at most 12.
    pub fn is_valid(&self) -> (r: bool)
        ensures
            r == (optional_within(self.display_name, 1, 100) && optional_within(
                self.phone_number,
                0,
                12,
            )),
    {
        optional_chars_within(&self.display_name, 1, 100) && optional_chars_within(
            &self.phone_number,
            0,
            12,
        )
    }
}

} // verus!
