use vstd::prelude::*;

verus! {

/// `serde_json::Error`, carried through unopened.
#[verifier::external_type_specification]
#[verifier::external_body]
pub struct ExJsonError(serde_json::Error);

/// The errors of the tool: bad command lines, failures at run time, and JSON encoding failures.
#[derive(Debug)]
pub enum AppError {
    Usage(String),
    Runtime(String),
    Json(serde_json::Error),
}

impl AppError {
    /// The text that the error shows: the message itself for usage and run-time errors, and
    /// what the JSON error displays for JSON errors.
    pub fn message(&self) -> (m: String)
        ensures
            self matches AppError::Usage(s) ==> m@ == s@,
            self matches AppError::Runtime(s) ==> m@ == s@,
            self matches AppError::Json(e) ==> vstd::string::to_string_from_display_ensures::<
                serde_json::Error,
            >(&e, m),
    {
        match self {
            AppError::Usage(message) => message.clone(),
            AppError::Runtime(message) => message.clone(),
            AppError::Json(error) => error.to_string(),
        }
    }
}

impl From<serde_json::Error> for AppError {
    fn from(error: serde_json::Error) -> (r: Self) {
        AppError::Json(error)
    }
}

impl vstd::std_specs::convert::FromSpecImpl<serde_json::Error> for AppError {
    open spec fn obeys_from_spec() -> bool {
        true
    }

    open spec fn from_spec(v: serde_json::Error) -> Self {
        AppError::Json(v)
    }
}

} // verus!
