use vstd::prelude::*;
use vstd::string::*;

verus! {

/// Error types.
#[derive(Debug, Clone, PartialEq, Eq)]
pub enum Error {
    /// Wrong file content.
    WrongContent,
    /// Impossible to guess a programming language.
    UnknownLanguage,
    /// Impossible to retrieve function spaces.
    NoSpaces,
    /// A general utf-8 conversion error.
    Utf8,
    /// Impossible to complete a non-utf8 conversion.
    NonUtf8Conversion,
    /// Path format.
    FormatPath(String),
    /// Concurrent failures.
    Concurrent(String),
    /// Mutability access failures.
    Mutability(String),
    /// Less thresholds than complexity metrics.
    Thresholds,
    /// A more generic I/O error.
    Io(String),
    /// A Json output error.
    JsonOutput(String),
}

impl Error {
    /// The text an error carries, as a spec value.
    pub open spec fn spec_message(self) -> Seq<char> {
        match self {
            Error::WrongContent => "Wrong content"@,
            Error::UnknownLanguage => "Impossible to guess the programming language"@,
            Error::NoSpaces => "Impossible to retrieve function spaces"@,
            Error::Utf8 => "Utf-8 error"@,
            Error::NonUtf8Conversion => "Impossible to complete a non-utf8 conversion"@,
            Error::FormatPath(s) => s@,
            Error::Concurrent(s) => "Concurrent failure: "@ + s@,
            Error::Mutability(s) => "Mutability failure: "@ + s@,
            Error::Thresholds => "Each complexity metric MUST have a threshold."@,
            Error::Io(s) => "I/O error: "@ + s@,
            Error::JsonOutput(s) => "Json error: "@ + s@,
        }
    }

    /// A human-readable description of the error.
    pub fn message(&self) -> (r: String)
        ensures
            r@ == self.spec_message(),
    {
        match self {
            Error::WrongContent => String::from_str("Wrong content"),
            Error::UnknownLanguage => String::from_str(
                "Impossible to guess the programming language",
            ),
            Error::NoSpaces => String::from_str("Impossible to retrieve function spaces"),
            Error::Utf8 => String::from_str("Utf-8 error"),
            Error::NonUtf8Conversion => String::from_str(
                "Impossible to complete a non-utf8 conversion",
            ),
            Error::FormatPath(s) => s.clone(),
            Error::Concurrent(s) => String::from_str("Concurrent failure: ").concat(s.as_str()),
            Error::Mutability(s) => String::from_str("Mutability failure: ").concat(s.as_str()),
            Error::Thresholds => String::from_str("Each complexity metric MUST have a threshold."),
            Error::Io(s) => String::from_str("I/O error: ").concat(s.as_str()),
            Error::JsonOutput(s) => String::from_str("Json error: ").concat(s.as_str()),
        }
    }
}

} // verus!
