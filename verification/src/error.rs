//! The failure kinds of the library and the findings of a validation.

use vstd::prelude::*;

verus! {

/// `std::io::Error`, carried through as it is.
#[verifier::external_type_specification]
#[verifier::external_body]
pub struct ExIoError(std::io::Error);

/// `zip::result::ZipError`, carried through as it is.
#[verifier::external_type_specification]
#[verifier::external_body]
pub struct ExZipError(zip::result::ZipError);

/// `glob::PatternError`, carried through as it is.
#[verifier::external_type_specification]
#[verifier::external_body]
pub struct ExPatternError(glob::PatternError);

/// Every failure of an operation on a wheel.
#[derive(Debug)]
pub enum WheelError {
    /// A stream could not be read or written.
    Io(std::io::Error),
    /// The archive is malformed or lacks a member.
    Zip(zip::result::ZipError),
    /// The archive is no wheel.
    InvalidWheel(String),
    /// The `METADATA` file could not be read.
    Metadata(MetadataError),
    /// The `RECORD` file could not be read.
    Record(RecordError),
    /// An ELF image could not be read or patched.
    Elf(ElfError),
    /// The `WHEEL` file could not be read.
    WheelInfo(WheelInfoError),
    /// A glob pattern is malformed.
    GlobPattern(glob::PatternError),
}

/// Failures of reading a `METADATA` file.
#[derive(Debug)]
pub enum MetadataError {
    /// A required field is absent or empty; holds the field's name.
    MissingField(String),
    /// A header could not be read.
    Parse(String),
}

/// Failures of reading a `RECORD` file.
#[derive(Debug)]
pub enum RecordError {
    /// The text is not well-formed CSV; holds the reader's message.
    InvalidCsv(String),
    /// A row disagrees with the member it lists.
    HashMismatch { path: String, expected: String, actual: String },
}

/// Failures of reading or patching an ELF image.
#[derive(Debug)]
pub enum ElfError {
    /// The bytes are no well-formed ELF image.
    InvalidElf(String),
    /// The image is for a machine that is not supported.
    UnsupportedArchitecture(String),
    /// The archive has no member of that name.
    FileNotFound(String),
    /// The patch could not be applied.
    Lief(String),
}

/// Failures of reading a `WHEEL` file.
#[derive(Debug)]
pub enum WheelInfoError {
    /// A required field is absent or empty; holds the field's name.
    MissingField(String),
    /// A tag does not have exactly three parts.
    InvalidTag(String),
    /// A header could not be read.
    Parse(String),
}

/// One disagreement between an archive and its record.
#[derive(Debug)]
pub enum ValidationError {
    /// The member's content does not hash to the recorded value.
    HashMismatch { path: String, expected: String, actual: String },
    /// The record lists a member that the archive lacks.
    MissingFile { path: String },
    /// The archive holds a member that the record does not list.
    ExtraFile { path: String },
}

/// What a validation found: the archive is sound when there is no finding.
#[derive(Debug)]
pub struct ValidationResult {
    pub errors: Vec<ValidationError>,
}

impl Default for ValidationResult {
    fn default() -> (r: Self)
        ensures
            r.errors@.len() == 0,
    {
        ValidationResult { errors: Vec::new() }
    }
}

impl ValidationResult {
    /// Whether the validation found nothing.
    pub fn is_valid(&self) -> (r: bool)
        ensures
            r == (self.errors@.len() == 0),
    {
        self.errors.len() == 0
    }
}

} // verus!
