//! The error type of the library.

use vstd::prelude::*;

verus! {

/// `regex::Error`: why the regex engine rejected a pattern. Nothing is
/// known of a value but that it is one.
#[verifier::external_type_specification]
#[verifier::external_body]
pub struct ExRegexError(regex::Error);

/// `std::string::FromUtf8Error`: why bytes are no UTF-8. Nothing is known
/// of a value but that it is one.
#[verifier::external_type_specification]
#[verifier::external_body]
pub struct ExFromUtf8Error(std::string::FromUtf8Error);

/// What can go wrong while reading, parsing and storing a history.
#[derive(Debug)]
pub enum FownerError {
    /// A row that was asked for is not in the store.
    NotFound(String),
    /// The log tool ran and reported failure; holds what it wrote to its error stream.
    Execution(String),
    /// A pattern was not accepted by the regex engine.
    Regex(regex::Error),
    /// Output of the log tool that is not UTF-8.
    Utf8(std::string::FromUtf8Error),
    /// A timestamp field that is no decimal numeral; holds the field.
    ParseInt(String),
    /// A repository address from which nothing can be derived.
    GitError(String),
    /// A feature was offered to a file that is excluded from tagging; holds its path.
    FileCannotHaveFeatures(String),
    /// The store refused a write: a key is taken, or no id is left.
    Store(String),
}

impl FownerError {
    /// The message of the error, as one line of text.
    pub fn message(&self) -> (r: String)
        ensures
            self matches FownerError::NotFound(s) ==> r@ == "Not found: "@ + s@,
            self matches FownerError::Execution(s) ==> r@ == "Error executing command: "@ + s@,
            self matches FownerError::ParseInt(s) ==> r@ == "ParseInt Error: "@ + s@,
            self matches FownerError::GitError(s) ==> r@ == "Git Error: "@ + s@,
            self matches FownerError::FileCannotHaveFeatures(s) ==> r@
                == "File Cannot Have Features: "@ + s@,
            self matches FownerError::Store(s) ==> r@ == "Store Error: "@ + s@,
            self matches FownerError::Regex(_) ==> r@ == "Regex Error"@,
            self matches FownerError::Utf8(_) ==> r@ == "Utf8 Conversion Error"@,
    {
        match self {
            FownerError::NotFound(s) => String::from_str("Not found: ").concat(s.as_str()),
            FownerError::Execution(s) => String::from_str("Error executing command: ").concat(
                s.as_str(),
            ),
            FownerError::Regex(_) => String::from_str("Regex Error"),
            FownerError::Utf8(_) => String::from_str("Utf8 Conversion Error"),
            FownerError::ParseInt(s) => String::from_str("ParseInt Error: ").concat(s.as_str()),
            FownerError::GitError(s) => String::from_str("Git Error: ").concat(s.as_str()),
            FownerError::FileCannotHaveFeatures(s) => String::from_str(
                "File Cannot Have Features: ",
            ).concat(s.as_str()),
            FownerError::Store(s) => String::from_str("Store Error: ").concat(s.as_str()),
        }
    }
}

} // verus!
