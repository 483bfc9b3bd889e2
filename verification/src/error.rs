//! The error type of the library.

use vstd::prelude::*;
use vstd::string::StringExecFns;

verus! {

/// An error of the backend, by the kind of answer it calls for.
#[derive(Debug, Clone, PartialEq, Eq)]
pub enum AppError {
    /// A PDF or font could not be processed.
    Pdfium(String),
    /// The requested file does not exist.
    NotFound(String),
    /// The request was malformed.
    BadRequest(String),
    /// Something failed on the server's side.
    Internal(String),
    /// Reading or writing local storage failed.
    Io(String),
}

impl AppError {
    /// The text carried by the error.
    pub fn message(&self) -> (m: String)
        ensures
            m@ == self.text(),
    {
        match self {
            AppError::Pdfium(m) => m.clone(),
            AppError::NotFound(m) => m.clone(),
            AppError::BadRequest(m) => m.clone(),
            AppError::Internal(m) => m.clone(),
            AppError::Io(m) => m.clone(),
        }
    }

    /// The text carried by the error, as characters.
    pub open spec fn text(&self) -> Seq<char> {
        match self {
            AppError::Pdfium(m) => m@,
            AppError::NotFound(m) => m@,
            AppError::BadRequest(m) => m@,
            AppError::Internal(m) => m@,
            AppError::Io(m) => m@,
        }
    }
}

/// `t` begins with `p`.
pub open spec fn starts_with(t: Seq<char>, p: Seq<char>) -> bool {
    p.len() <= t.len() && t.subrange(0, p.len() as int) == p
}

/// `prefix` followed by `detail`.
pub fn with_detail(prefix: &str, detail: &str) -> (m: String)
    ensures
        m@ == prefix@ + detail@,
        starts_with(m@, prefix@),
{
    let mut m = prefix.to_owned();
    m.append(detail);
    proof {
        assert(m@.subrange(0, prefix@.len() as int) =~= prefix@);
    }
    m
}

} // verus!
