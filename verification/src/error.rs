//! The errors of the library.

use vstd::prelude::*;
use vstd::string::StringExecFns;

verus! {

#[verifier::external_type_specification]
#[verifier::external_body]
pub struct ExIoError(std::io::Error);

#[verifier::external_type_specification]
#[verifier::external_body]
pub struct ExSqliteError(rusqlite::Error);

#[derive(Debug)]
pub enum MMBakError {
    Io(std::io::Error),
    SqliteError(rusqlite::Error),
    DatabaseError(String),
    EntryNotFound(String),
    InvalidDataFormat(String),
    ConfigParseError(String),
    JsonError(String),
    GoogleApiError(String),
}

/// Calls `<std::io::Error as Display>::fmt` through `to_string`; the text is
/// the platform's description of the error, so nothing is claimed of it.
#[verifier::external_body]
fn io_error_text(e: &std::io::Error) -> String {
    e.to_string()
}

/// Calls `<rusqlite::Error as Display>::fmt` through `to_string`; nothing is
/// claimed of the text, which SQLite and the driver compose.
#[verifier::external_body]
fn sqlite_error_text(e: &rusqlite::Error) -> String {
    e.to_string()
}

impl MMBakError {
    /// The words before the detail of each kind of error.
    pub open spec fn spec_prefix(&self) -> Seq<char> {
        match self {
            MMBakError::Io(_) => "IO error: "@,
            MMBakError::SqliteError(_) => "SQLite error: "@,
            MMBakError::DatabaseError(_) => "Database error: "@,
            MMBakError::EntryNotFound(_) => "Entry not found: "@,
            MMBakError::InvalidDataFormat(_) => "Invalid data format: "@,
            MMBakError::ConfigParseError(_) => "Config parse error: "@,
            MMBakError::JsonError(_) => "JSON error: "@,
            MMBakError::GoogleApiError(_) => "Google API error: "@,
        }
    }

    /// The error in words: its kind, then its detail.
    pub fn message(&self) -> (r: String)
        ensures
            self.spec_prefix().is_prefix_of(r@),
            match self {
                MMBakError::DatabaseError(s) => r@ == self.spec_prefix() + s@,
                MMBakError::EntryNotFound(s) => r@ == self.spec_prefix() + s@,
                MMBakError::InvalidDataFormat(s) => r@ == self.spec_prefix() + s@,
                MMBakError::ConfigParseError(s) => r@ == self.spec_prefix() + s@,
                MMBakError::JsonError(s) => r@ == self.spec_prefix() + s@,
                MMBakError::GoogleApiError(s) => r@ == self.spec_prefix() + s@,
                _ => true,
            },
    {
        let (prefix, detail) = match self {
            MMBakError::Io(e) => ("IO error: ", io_error_text(e)),
            MMBakError::SqliteError(e) => ("SQLite error: ", sqlite_error_text(e)),
            MMBakError::DatabaseError(s) => ("Database error: ", s.clone()),
            MMBakError::EntryNotFound(s) => ("Entry not found: ", s.clone()),
            MMBakError::InvalidDataFormat(s) => ("Invalid data format: ", s.clone()),
            MMBakError::ConfigParseError(s) => ("Config parse error: ", s.clone()),
            MMBakError::JsonError(s) => ("JSON error: ", s.clone()),
            MMBakError::GoogleApiError(s) => ("Google API error: ", s.clone()),
        };
        let mut r = prefix.to_owned();
        r.append(detail.as_str());
        assert(r@.subrange(0, prefix@.len() as int) =~= prefix@);
        r
    }
}

} // verus!
