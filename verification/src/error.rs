//! The library's error type, its display text and its HTTP answer.
use vstd::prelude::*;
use crate::text::{push_str};

verus! {

/// What can go wrong while serving a request. Paths are held as the text
/// that `Path::display` prints.
#[derive(Debug)]
pub enum AppError {
    Io(String),
    NotFound(String),
    AlreadyExists(String),
    NotDirectory(String),
    NotFile(String),
    InvalidPath(String),
    PathTraversal,
    BadRequest(String),
}

/// The text that the error displays.
pub open spec fn display_text(e: AppError) -> Seq<char> {
    match e {
        AppError::Io(m) => "IO error: "@ + m@,
        AppError::NotFound(p) => "Path not found: "@ + p@,
        AppError::AlreadyExists(p) => "Path already exists: "@ + p@,
        AppError::NotDirectory(p) => "Path is not a directory: "@ + p@,
        AppError::NotFile(p) => "Path is not a file: "@ + p@,
        AppError::InvalidPath(p) => "Invalid path: "@ + p@,
        AppError::PathTraversal => "Path traversal attempt detected"@,
        AppError::BadRequest(m) => "Invalid request: "@ + m@,
    }
}

/// The HTTP status code of the answer to the error.
pub open spec fn status_of(e: AppError) -> u16 {
    match e {
        AppError::Io(_) => 500,
        AppError::NotFound(_) => 404,
        AppError::AlreadyExists(_) => 409,
        AppError::NotDirectory(_) => 400,
        AppError::NotFile(_) => 400,
        AppError::InvalidPath(_) => 400,
        AppError::PathTraversal => 403,
        AppError::BadRequest(_) => 400,
    }
}

/// The body of the answer to the error.
pub open spec fn response_text(e: AppError) -> Seq<char> {
    match e {
        AppError::Io(m) => m@,
        AppError::NotFound(p) => "Not found: "@ + p@,
        AppError::AlreadyExists(p) => "Already exists: "@ + p@,
        AppError::NotDirectory(p) => "Not a directory: "@ + p@,
        AppError::NotFile(p) => "Not a file: "@ + p@,
        AppError::InvalidPath(p) => "Invalid path: "@ + p@,
        AppError::PathTraversal => "Path traversal attempt detected"@,
        AppError::BadRequest(m) => m@,
    }
}

/// Which answer each error gets: 500 exactly for I/O errors, 404 exactly
/// for missing paths, 409 exactly for existing targets, 403 exactly for
/// traversal attempts, and 400 for every other refusal.
pub proof fn lemma_status_classes(e: AppError)
    ensures
        status_of(e) == 500 <==> e is Io,
        status_of(e) == 404 <==> e is NotFound,
        status_of(e) == 409 <==> e is AlreadyExists,
        status_of(e) == 403 <==> e is PathTraversal,
        status_of(e) == 400 <==> (e is NotDirectory || e is NotFile || e is InvalidPath
            || e is BadRequest),
{
}

fn prefixed(prefix: &str, rest: &String) -> (s: String)
    ensures
        s@ == prefix@ + rest@,
{
    let mut s = String::new();
    push_str(&mut s, prefix);
    push_str(&mut s, rest.as_str());
    s
}

impl AppError {
    /// The text the error displays (what `to_string` gives).
    pub fn to_display_string(&self) -> (s: String)
        ensures
            s@ == display_text(*self),
    {
        match self {
            AppError::Io(m) => prefixed("IO error: ", m),
            AppError::NotFound(p) => prefixed("Path not found: ", p),
            AppError::AlreadyExists(p) => prefixed("Path already exists: ", p),
            AppError::NotDirectory(p) => prefixed("Path is not a directory: ", p),
            AppError::NotFile(p) => prefixed("Path is not a file: ", p),
            AppError::InvalidPath(p) => prefixed("Invalid path: ", p),
            AppError::PathTraversal => String::from_str("Path traversal attempt detected"),
            AppError::BadRequest(m) => prefixed("Invalid request: ", m),
        }
    }

    /// The status code and body of the HTTP answer to the error.
    pub fn into_response(self) -> (r: (u16, String))
        ensures
            r.0 == status_of(self),
            r.1@ == response_text(self),
    {
        match self {
            AppError::Io(m) => (500, m),
            AppError::NotFound(p) => (404, prefixed("Not found: ", &p)),
            AppError::AlreadyExists(p) => (409, prefixed("Already exists: ", &p)),
            AppError::NotDirectory(p) => (400, prefixed("Not a directory: ", &p)),
            AppError::NotFile(p) => (400, prefixed("Not a file: ", &p)),
            AppError::InvalidPath(p) => (400, prefixed("Invalid path: ", &p)),
            AppError::PathTraversal => (403, String::from_str("Path traversal attempt detected")),
            AppError::BadRequest(m) => (400, m),
        }
    }
}

} // verus!
