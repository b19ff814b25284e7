//! The errors that the service reports, and the status and text each maps to.
use vstd::prelude::*;

verus! {

/// Every failure the service reports to a caller.
#[derive(Clone, Debug)]
pub enum AppError {
    /// The store failed; the text says how, for the log only.
    DatabaseError(String),
    InvalidCredentials,
    InvalidToken,
    TokenExpired,
    Unauthorized,
    /// A request broke a rule; the text is shown to the caller.
    ValidationError(String),
    UserAlreadyExists,
    UserNotFound,
    InvalidOtp,
    OtpExpired,
    /// Something failed inside the service; the text is for the log only.
    InternalError(String),
}

/// The HTTP status of each error.
pub open spec fn error_status(e: AppError) -> u16 {
    match e {
        AppError::DatabaseError(_) => 500,
        AppError::InvalidCredentials => 401,
        AppError::InvalidToken => 401,
        AppError::TokenExpired => 401,
        AppError::Unauthorized => 401,
        AppError::ValidationError(_) => 400,
        AppError::UserAlreadyExists => 409,
        AppError::UserNotFound => 404,
        AppError::InvalidOtp => 400,
        AppError::OtpExpired => 400,
        AppError::InternalError(_) => 500,
    }
}

/// The text shown to the caller for each error: a rule's own text, or a
/// fixed sentence that reveals nothing of the service's inside.
pub open spec fn error_message(e: AppError) -> Seq<char> {
    match e {
        AppError::DatabaseError(_) => "Database error occurred"@,
        AppError::InvalidCredentials => "Invalid username or password"@,
        AppError::InvalidToken => "Invalid token"@,
        AppError::TokenExpired => "Token expired"@,
        AppError::Unauthorized => "Unauthorized"@,
        AppError::ValidationError(m) => m@,
        AppError::UserAlreadyExists => "User already exists"@,
        AppError::UserNotFound => "User not found"@,
        AppError::InvalidOtp => "Invalid OTP code"@,
        AppError::OtpExpired => "OTP code expired"@,
        AppError::InternalError(_) => "Internal server error"@,
    }
}

impl AppError {
    /// The HTTP status and the text that the caller sees.
    pub fn status_and_message(&self) -> (r: (u16, String))
        ensures
            r.0 == error_status(*self),
            r.1@ == error_message(*self),
    {
        match self {
            AppError::DatabaseError(_) => (500, String::from_str("Database error occurred")),
            AppError::InvalidCredentials => (401, String::from_str("Invalid username or password")),
            AppError::InvalidToken => (401, String::from_str("Invalid token")),
            AppError::TokenExpired => (401, String::from_str("Token expired")),
            AppError::Unauthorized => (401, String::from_str("Unauthorized")),
            AppError::ValidationError(m) => (400, m.clone()),
            AppError::UserAlreadyExists => (409, String::from_str("User already exists")),
            AppError::UserNotFound => (404, String::from_str("User not found")),
            AppError::InvalidOtp => (400, String::from_str("Invalid OTP code")),
            AppError::OtpExpired => (400, String::from_str("OTP code expired")),
            AppError::InternalError(_) => (500, String::from_str("Internal server error")),
        }
    }
}

} // verus!
