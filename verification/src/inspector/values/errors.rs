//! The errors of the inspector.

use vstd::prelude::*;
use serde_json::Error as JsonError;

verus! {

/// The error of `serde_json`, as an opaque type.
#[verifier::external_type_specification]
#[verifier::external_body]
pub struct ExJsonError(JsonError);

/// Why the inspector could not do what it was asked.
#[derive(Debug)]
pub struct InspectorError {
    message: String,
}

impl InspectorError {
    pub closed spec fn spec_message(&self) -> Seq<char> {
        self.message@
    }

    pub fn new(s: &str) -> (error: InspectorError)
        ensures
            error.spec_message() == s@,
    {
        InspectorError { message: s.to_owned() }
    }

    pub fn message(&self) -> (message: &str)
        ensures
            message@ == self.spec_message(),
    {
        self.message.as_str()
    }
}

/// Why a client gets no update.
#[derive(Debug)]
pub enum UpdateError {
    /// The client is to come back later.
    TooManyRequests,
    Other { message: String },
}

/// The text of a JSON error. Wraps `to_string` on `serde_json::Error`, which
/// renders the error by its `Display`. Nothing is claimed of the text.
#[verifier::external_body]
fn json_error_text(err: &JsonError) -> (text: String) {
    err.to_string()
}

impl UpdateError {
    /// The error that stands for a failure to render an update as JSON.
    pub fn from(err: JsonError) -> (error: UpdateError)
        ensures
            error is Other,
    {
        UpdateError::other(json_error_text(&err))
    }

    /// The text of the error.
    pub fn to_text(&self) -> (text: String)
        ensures
            match *self {
                UpdateError::TooManyRequests => text@ == "TooManyRequests"@,
                UpdateError::Other { message } => text@ == message@,
            },
    {
        match self {
            UpdateError::TooManyRequests => "TooManyRequests".to_owned(),
            UpdateError::Other { message } => message.clone(),
        }
    }

    /// The error that says `message` and nothing else.
    pub fn other(message: String) -> (error: UpdateError)
        ensures
            error == (UpdateError::Other { message }),
    {
        UpdateError::Other { message }
    }
}

} // verus!
