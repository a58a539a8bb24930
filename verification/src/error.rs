use vstd::prelude::*;

use crate::text::{concat, signed_decimal_string, signed_decimal_text};

verus! {

/// Why an index could not be opened for serving.
#[derive(Debug, Clone, Copy, PartialEq, Eq)]
pub enum SchemaCondition {
    VersionMismatch(i64),
    Unreadable,
}

/// Failures of the library. I/O and database failures carry the message of
/// the underlying error, as text.
#[derive(Debug, Clone, PartialEq, Eq)]
pub enum Error {
    Io { path: String, message: String },
    Sqlite(String),
    Migration { expected: i64, found: i64 },
    IncompatibleSchema { expected: i64, condition: SchemaCondition },
    PathEscapesRoot { path: String },
    InvalidRepoRoot { path: String },
    InvalidContentHash { value: String },
}

/// The sentence describing an error (what `Display` prints).
pub open spec fn error_message(e: Error) -> Seq<char> {
    match e {
        Error::Io { path, message } => "I/O error at "@ + path@ + ": "@ + message@,
        Error::Sqlite(m) => "SQLite error: "@ + m@,
        Error::Migration { expected, found } => "migration failed: expected schema version "@
            + signed_decimal_text(expected as int) + ", found "@ + signed_decimal_text(found as int),
        Error::IncompatibleSchema { expected, .. } => "index schema is incompatible with this binary (expected version "@
            + signed_decimal_text(expected as int) + ")"@,
        Error::PathEscapesRoot { path } => "path "@ + path@ + " escapes repository root"@,
        Error::InvalidRepoRoot { path } => "repository root "@ + path@ + " does not exist or is not a directory"@,
        Error::InvalidContentHash { value } => "invalid content hash: "@ + value@,
    }
}

impl Error {
    /// The sentence describing this error.
    pub fn message(&self) -> (m: String)
        ensures
            m@ == error_message(*self),
    {
        match self {
            Error::Io { path, message } => {
                let mut m = concat("I/O error at ", path.as_str());
                m.append(": ");
                m.append(message.as_str());
                m
            },
            Error::Sqlite(msg) => concat("SQLite error: ", msg.as_str()),
            Error::Migration { expected, found } => {
                let mut m = concat(
                    "migration failed: expected schema version ",
                    signed_decimal_string(*expected).as_str(),
                );
                m.append(", found ");
                m.append(signed_decimal_string(*found).as_str());
                m
            },
            Error::IncompatibleSchema { expected, .. } => {
                let mut m = concat(
                    "index schema is incompatible with this binary (expected version ",
                    signed_decimal_string(*expected).as_str(),
                );
                m.append(")");
                m
            },
            Error::PathEscapesRoot { path } => {
                let mut m = concat("path ", path.as_str());
                m.append(" escapes repository root");
                m
            },
            Error::InvalidRepoRoot { path } => {
                let mut m = concat("repository root ", path.as_str());
                m.append(" does not exist or is not a directory");
                m
            },
            Error::InvalidContentHash { value } => concat("invalid content hash: ", value.as_str()),
        }
    }

    /// Same as `message`.
    pub fn to_string(&self) -> (m: String)
        ensures
            m@ == error_message(*self),
    {
        self.message()
    }
}

} // verus!
