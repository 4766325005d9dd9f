//! The application's error.
use vstd::prelude::*;

verus! {

/// What went wrong.
#[derive(Debug)]
pub enum RNDRError {
    AuthError,
    MissingParam(String),
    Duplicate,
    IOError(String),
    GenericError(String),
}

/// The text shown for an error.
pub open spec fn error_text(e: RNDRError) -> Seq<char> {
    match e {
        RNDRError::AuthError => "[RUST]: Error - An authentication error has occurred"@,
        RNDRError::MissingParam(msg) => msg@,
        RNDRError::Duplicate => "[RUST]: Error - A duplicate error"@,
        RNDRError::IOError(msg) => msg@,
        RNDRError::GenericError(msg) => msg@,
    }
}

impl RNDRError {
    /// The text shown for this error: a fixed sentence for an authentication
    /// error or a duplicate, the message itself otherwise.
    pub fn message(&self) -> (m: String)
        ensures
            m@ == error_text(*self),
    {
        match self {
            RNDRError::AuthError => "[RUST]: Error - An authentication error has occurred".to_owned(),
            RNDRError::MissingParam(msg) => msg.clone(),
            RNDRError::Duplicate => "[RUST]: Error - A duplicate error".to_owned(),
            RNDRError::IOError(msg) => msg.clone(),
            RNDRError::GenericError(msg) => msg.clone(),
        }
    }
}

impl From<String> for RNDRError {
    /// Any message becomes a generic error.
    fn from(s: String) -> (e: RNDRError) {
        RNDRError::GenericError(s)
    }
}

impl vstd::std_specs::convert::FromSpecImpl<String> for RNDRError {
    open spec fn obeys_from_spec() -> bool {
        true
    }

    open spec fn from_spec(s: String) -> RNDRError {
        RNDRError::GenericError(s)
    }
}

} // verus!
