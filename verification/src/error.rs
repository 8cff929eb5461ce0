//! The ways in which rewriting a file can fail.

use vstd::prelude::*;
use vstd::string::StringExecFns;

verus! {

/// Why a file was not rewritten.  A row that is too short is no failure:
/// it is left out and reported beside the result.
#[derive(Debug)]
pub enum RewriteError {
    /// The header has no column of this name.
    ColumnNotFound(String),
    /// The file is mandatory and is not there.
    FileNotFound,
    /// Reading, decoding, encoding or writing failed; the text says how.
    IoFailure(String),
}

/// The kinds of failure, as contracts speak of them.
pub enum Failure {
    /// The header has no column of this name.
    ColumnNotFound(Seq<char>),
    /// The file is mandatory and is not there.
    FileNotFound,
    /// Reading, decoding, encoding or writing failed.
    Io,
}

impl RewriteError {
    /// The kind of this error.
    pub open spec fn kind(&self) -> Failure {
        match self {
            RewriteError::ColumnNotFound(name) => Failure::ColumnNotFound(name@),
            RewriteError::FileNotFound => Failure::FileNotFound,
            RewriteError::IoFailure(_) => Failure::Io,
        }
    }

    /// The text of the message for this error.
    pub open spec fn message_text(&self) -> Seq<char> {
        match self {
            RewriteError::ColumnNotFound(name) => "Required column '"@ + name@
                + "' not found in header."@,
            RewriteError::FileNotFound => "File not found."@,
            RewriteError::IoFailure(text) => text@,
        }
    }

    /// A message for the user.
    pub fn message(&self) -> (r: String)
        ensures
            r@ == self.message_text(),
    {
        match self {
            RewriteError::ColumnNotFound(name) => {
                let mut r = String::from_str("Required column '");
                r.append(name.as_str());
                r.append("' not found in header.");
                r
            },
            RewriteError::FileNotFound => String::from_str("File not found."),
            RewriteError::IoFailure(text) => text.clone(),
        }
    }
}

} // verus!
