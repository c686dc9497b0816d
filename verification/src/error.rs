//! What can go wrong, and how it is reported.

use vstd::prelude::*;

verus! {

/// Why a serving path was refused.
#[derive(Clone, Copy, Debug, PartialEq, Eq, Structural)]
pub enum BadRequest {
    /// The width or the path of the media is missing.
    TooShort,
    /// The width is no number, is zero, or asks for more than can be made.
    BadSize,
    /// The path leaves the album root.
    OutsideRoot,
}

/// The failures that the library reports.
#[derive(Clone, Copy, Debug, PartialEq, Eq, Structural)]
pub enum Error {
    /// The path does not exist or cannot be opened.
    NotFound,
    /// The path exists but may not be read.
    PermissionDenied,
    /// The serving path is malformed.
    BadRequest(BadRequest),
    /// The file is no image in a supported format.
    Undecodable,
    /// Something failed that was expected to work.
    Internal,
}

/// Why a directory or a file could not be opened, as the caller saw it.
#[derive(Clone, Copy, Debug, PartialEq, Eq, Structural)]
pub enum OpenFailure {
    NotFound,
    PermissionDenied,
    Other,
}

/// The error that stands for a failure to open.
pub open spec fn open_error(failure: OpenFailure) -> Error {
    match failure {
        OpenFailure::PermissionDenied => Error::PermissionDenied,
        OpenFailure::NotFound => Error::NotFound,
        OpenFailure::Other => Error::NotFound,
    }
}

/// The status code that answers a request with this error.
pub open spec fn status_of(error: Error) -> u16 {
    match error {
        Error::NotFound => 404,
        Error::Undecodable => 404,
        Error::PermissionDenied => 403,
        Error::BadRequest(_) => 400,
        Error::Internal => 500,
    }
}

impl OpenFailure {
    /// Turns a failure to open into the error reported for it: a refusal of
    /// access stays one, everything else counts as not found.
    pub fn into_error(self) -> (error: Error)
        ensures
            error == open_error(self),
    {
        match self {
            OpenFailure::PermissionDenied => Error::PermissionDenied,
            OpenFailure::NotFound => Error::NotFound,
            OpenFailure::Other => Error::NotFound,
        }
    }
}

impl BadRequest {
    /// A short text for the body of the answer.
    pub fn message(&self) -> (text: String)
        ensures
            text@ == match *self {
                BadRequest::TooShort => "request too short"@,
                BadRequest::BadSize => "bad size"@,
                BadRequest::OutsideRoot => "path outside album root"@,
            },
    {
        match self {
            BadRequest::TooShort => "request too short".to_owned(),
            BadRequest::BadSize => "bad size".to_owned(),
            BadRequest::OutsideRoot => "path outside album root".to_owned(),
        }
    }
}

impl Error {
    /// The status code that answers a request with this error: 400 for a
    /// malformed request, 404 for what is missing or no image, 403 for what
    /// may not be read, 500 for the rest.
    pub fn status(&self) -> (code: u16)
        ensures
            code == status_of(*self),
            400 <= code < 600,
    {
        match self {
            Error::NotFound => 404,
            Error::Undecodable => 404,
            Error::PermissionDenied => 403,
            Error::BadRequest(_) => 400,
            Error::Internal => 500,
        }
    }
}

} // verus!
