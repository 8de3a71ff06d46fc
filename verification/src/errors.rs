//! The error taxonomy of the workflow's client-facing operations and of
//! the transcription client.

use vstd::prelude::*;
use vstd::string::*;

verus! {

/// Why a path-based deletion was refused: the path failed the
/// root-confinement check, or no record is stored under it.
#[derive(PartialEq, Eq, Structural, Clone, Copy, Debug)]
pub enum DeleteError {
    NotConfined,
    NotFound,
}

/// Why a listing was refused: the date parameter was not a valid
/// `YYYY-MM-DD` date.
#[derive(PartialEq, Eq, Structural, Clone, Copy, Debug)]
pub enum ListError {
    InvalidDate,
}

/// Why a transcription attempt failed: no API credential is configured,
/// the service answered with a non-success status (the body is kept for
/// diagnostics), or its answer held no candidate text.
#[derive(Debug)]
pub enum TranscribeError {
    MissingCredential,
    ApiError(String),
    EmptyResponse,
}

impl DeleteError {
    /// A short description of the error.
    pub fn message(&self) -> (r: String)
        ensures
            *self is NotConfined ==> r@ == "path is outside the storage root"@,
            *self is NotFound ==> r@ == "no recording under that path"@,
    {
        match self {
            DeleteError::NotConfined => String::from_str("path is outside the storage root"),
            DeleteError::NotFound => String::from_str("no recording under that path"),
        }
    }
}

impl ListError {
    /// A short description of the error.
    pub fn message(&self) -> (r: String)
        ensures
            r@ == "date is not a valid YYYY-MM-DD date"@,
    {
        String::from_str("date is not a valid YYYY-MM-DD date")
    }
}

impl TranscribeError {
    /// A short description of the error; an API error carries the
    /// response body for diagnostics.
    pub fn message(&self) -> (r: String)
        ensures
            *self is MissingCredential ==> r@ == "transcription API credential is not set"@,
            self matches TranscribeError::ApiError(body) ==> r@ == "API error: "@ + body@,
            *self is EmptyResponse ==> r@ == "no transcription text found in response"@,
    {
        match self {
            TranscribeError::MissingCredential => String::from_str(
                "transcription API credential is not set",
            ),
            TranscribeError::ApiError(body) => {
                let mut m = String::from_str("API error: ");
                m.append(body.as_str());
                m
            },
            TranscribeError::EmptyResponse => String::from_str(
                "no transcription text found in response",
            ),
        }
    }
}

} // verus!
