//! The error type shared by every fallible operation of the crate.

use vstd::prelude::*;
use vstd::string::*;

verus! {

/// What can go wrong while assembling a sprite sheet. Variants that report
/// a failure of the surrounding program carry its description as text.
#[derive(Debug)]
pub enum FfbeError {
    CharacterNotFound(String),
    NoDatabaseFile,
    IoError(String),
    ImageError(String),
    ApngError(String),
    ParseError(String),
    ReqwestError(String),
    FileNotFound(String),
    InvalidInput(String),
    NotImplemented(String),
    MissingValue(String),
}

impl FfbeError {
    /// The fixed words that introduce the rendering of each variant.
    pub open spec fn heading(self) -> Seq<char> {
        match self {
            FfbeError::CharacterNotFound(_) => "Character not found in DB: "@,
            FfbeError::NoDatabaseFile => "No database file found"@,
            FfbeError::IoError(_) => "IO errorerr: "@,
            FfbeError::ImageError(_) => "Image errorerr: "@,
            FfbeError::ApngError(_) => "APNG errorerr: "@,
            FfbeError::ParseError(_) => "Parse error: "@,
            FfbeError::ReqwestError(_) => "Fetch errorerr: "@,
            FfbeError::FileNotFound(_) => "File not found: "@,
            FfbeError::InvalidInput(_) => "Invalid input: "@,
            FfbeError::NotImplemented(_) => "Not implemented: "@,
            FfbeError::MissingValue(_) => "Missing value: "@,
        }
    }

    /// The text that the variant carries; empty for `NoDatabaseFile`.
    pub open spec fn detail(self) -> Seq<char> {
        match self {
            FfbeError::CharacterNotFound(s) => s@,
            FfbeError::NoDatabaseFile => Seq::empty(),
            FfbeError::IoError(s) => s@,
            FfbeError::ImageError(s) => s@,
            FfbeError::ApngError(s) => s@,
            FfbeError::ParseError(s) => s@,
            FfbeError::ReqwestError(s) => s@,
            FfbeError::FileNotFound(s) => s@,
            FfbeError::InvalidInput(s) => s@,
            FfbeError::NotImplemented(s) => s@,
            FfbeError::MissingValue(s) => s@,
        }
    }

    /// Whether this is a parse error carrying exactly `text`.
    pub open spec fn is_parse_error(self, text: Seq<char>) -> bool {
        self matches FfbeError::ParseError(s) && s@ == text
    }

    /// The human-readable rendering: the heading followed by the detail.
    pub fn message(&self) -> (out: String)
        ensures
            out@ == self.heading() + self.detail(),
    {
        match self {
            FfbeError::CharacterNotFound(s) => String::from_str("Character not found in DB: ").concat(
                s.as_str(),
            ),
            FfbeError::NoDatabaseFile => {
                let out = String::from_str("No database file found");
                assert(out@ =~= self.heading() + self.detail());
                out
            },
            FfbeError::IoError(s) => String::from_str("IO errorerr: ").concat(s.as_str()),
            FfbeError::ImageError(s) => String::from_str("Image errorerr: ").concat(s.as_str()),
            FfbeError::ApngError(s) => String::from_str("APNG errorerr: ").concat(s.as_str()),
            FfbeError::ParseError(s) => String::from_str("Parse error: ").concat(s.as_str()),
            FfbeError::ReqwestError(s) => String::from_str("Fetch errorerr: ").concat(s.as_str()),
            FfbeError::FileNotFound(s) => String::from_str("File not found: ").concat(s.as_str()),
            FfbeError::InvalidInput(s) => String::from_str("Invalid input: ").concat(s.as_str()),
            FfbeError::NotImplemented(s) => String::from_str("Not implemented: ").concat(
                s.as_str(),
            ),
            FfbeError::MissingValue(s) => String::from_str("Missing value: ").concat(s.as_str()),
        }
    }
}

} // verus!
