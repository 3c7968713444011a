//! Error taxonomy of the record store.
//!
//! Validation errors are produced before any backend call; backend
//! failures are mapped to a generic internal error; admission
//! denial is a dedicated, expected-under-load variant.

use vstd::prelude::*;

verus! {

/// Why a request was refused. Each variant carries a stable numeric
/// wire code and maps to one HTTP status.
#[derive(Clone, Copy, Debug, PartialEq, Eq, Structural)]
pub enum PastebinErrorCode {
    /// Transport or protocol failure talking to the durable store;
    /// surfaced to the user without backend details.
    InternalError,
    /// Admission control denial or overload shedding.
    Unavailable,
    /// The key string fails codec validation.
    BadKey,
    /// Requested expiration exceeds the configured maximum.
    TooLongExpirations,
    /// Content exceeds the configured maximum body length.
    TooLongContent,
    /// Title exceeds the configured maximum length.
    TooLongTitle,
    /// The key validates but has no live backend entry.
    NotFound,
}

impl PastebinErrorCode {
    /// Stable numeric code carried on the wire beside the message.
    pub open spec fn spec_code(self) -> u16 {
        match self {
            PastebinErrorCode::InternalError => 1001,
            PastebinErrorCode::Unavailable => 1002,
            PastebinErrorCode::BadKey => 2001,
            PastebinErrorCode::TooLongExpirations => 2002,
            PastebinErrorCode::TooLongContent => 2003,
            PastebinErrorCode::TooLongTitle => 2004,
            PastebinErrorCode::NotFound => 3001,
        }
    }

    pub fn code(&self) -> (c: u16)
        ensures
            c == self.spec_code(),
    {
        match self {
            PastebinErrorCode::InternalError => 1001,
            PastebinErrorCode::Unavailable => 1002,
            PastebinErrorCode::BadKey => 2001,
            PastebinErrorCode::TooLongExpirations => 2002,
            PastebinErrorCode::TooLongContent => 2003,
            PastebinErrorCode::TooLongTitle => 2004,
            PastebinErrorCode::NotFound => 3001,
        }
    }

    /// HTTP status equivalent of this error.
    pub open spec fn spec_status(self) -> u16 {
        match self {
            PastebinErrorCode::InternalError => 500,
            PastebinErrorCode::Unavailable => 503,
            PastebinErrorCode::BadKey => 400,
            PastebinErrorCode::TooLongExpirations => 400,
            PastebinErrorCode::TooLongContent => 400,
            PastebinErrorCode::TooLongTitle => 400,
            PastebinErrorCode::NotFound => 404,
        }
    }

    pub fn status(&self) -> (s: u16)
        ensures
            s == self.spec_status(),
    {
        match self {
            PastebinErrorCode::InternalError => 500,
            PastebinErrorCode::Unavailable => 503,
            PastebinErrorCode::BadKey => 400,
            PastebinErrorCode::TooLongExpirations => 400,
            PastebinErrorCode::TooLongContent => 400,
            PastebinErrorCode::TooLongTitle => 400,
            PastebinErrorCode::NotFound => 404,
        }
    }

    /// Human-readable name of the variant, used as the error message.
    pub open spec fn spec_message(self) -> Seq<char> {
        match self {
            PastebinErrorCode::InternalError => "InternalError"@,
            PastebinErrorCode::Unavailable => "Unavailable"@,
            PastebinErrorCode::BadKey => "BadKey"@,
            PastebinErrorCode::TooLongExpirations => "TooLongExpirations"@,
            PastebinErrorCode::TooLongContent => "TooLongContent"@,
            PastebinErrorCode::TooLongTitle => "TooLongTitle"@,
            PastebinErrorCode::NotFound => "NotFound"@,
        }
    }

    pub fn message_str(&self) -> (m: &'static str)
        ensures
            m@ == self.spec_message(),
    {
        match self {
            PastebinErrorCode::InternalError => "InternalError",
            PastebinErrorCode::Unavailable => "Unavailable",
            PastebinErrorCode::BadKey => "BadKey",
            PastebinErrorCode::TooLongExpirations => "TooLongExpirations",
            PastebinErrorCode::TooLongContent => "TooLongContent",
            PastebinErrorCode::TooLongTitle => "TooLongTitle",
            PastebinErrorCode::NotFound => "NotFound",
        }
    }
}

/// A refused request: the code plus a message safe to show a user.
#[derive(Debug)]
pub struct PastebinError {
    pub code: PastebinErrorCode,
    pub message: String,
}

impl PastebinError {
    /// Build the error for a code, with the variant name as message.
    pub fn from_code(code: PastebinErrorCode) -> (e: PastebinError)
        ensures
            e.code == code,
            e.message@ == code.spec_message(),
    {
        let message = code.message_str().to_owned();
        PastebinError { code, message }
    }
}

} // verus!
