use vstd::prelude::*;

verus! {

/// The ways a run can stop short of rewriting the build manifest.
#[derive(Debug, Clone, Copy, PartialEq, Eq, Structural)]
pub enum CustomError {
    /// Neither manifest was found under the searched directory.
    FileNotFound,
    /// The build manifest was not found; the package manifest was.
    TargetNotFound,
    /// The package manifest was not found; the build manifest was.
    SourceNotFound,
    /// Reading or writing a file, or walking a directory, failed.
    IoError,
    /// The command-line arguments have an unknown shape or an unreadable index.
    BadParams,
    /// The searched token, or the delimiters around its value, are missing.
    VersionNotFound,
    /// Usage text was requested; not a malfunction.
    HelpPrinted,
}

/// `std::io::Error`, carried through the conversion into `CustomError`.
#[verifier::external_type_specification]
#[verifier::external_body]
pub struct ExIoError(std::io::Error);

/// `walkdir::Error`, the error of one step of a directory walk, carried through the conversion
/// into `CustomError`.
#[verifier::external_type_specification]
#[verifier::external_body]
pub struct ExWalkdirError(walkdir::Error);

impl CustomError {
    /// The text shown to the operator for this error.
    pub fn message(&self) -> (r: String)
        ensures
            r@ == match self {
                CustomError::FileNotFound => "File Not found"@,
                CustomError::TargetNotFound => "Target Not found"@,
                CustomError::SourceNotFound => "Source Not found"@,
                CustomError::IoError => "Io Error"@,
                CustomError::BadParams => "Parameters Passed Not Understood"@,
                CustomError::VersionNotFound => "String Not Found"@,
                CustomError::HelpPrinted => ""@,
            },
    {
        match self {
            CustomError::FileNotFound => "File Not found".to_owned(),
            CustomError::TargetNotFound => "Target Not found".to_owned(),
            CustomError::SourceNotFound => "Source Not found".to_owned(),
            CustomError::IoError => "Io Error".to_owned(),
            CustomError::BadParams => "Parameters Passed Not Understood".to_owned(),
            CustomError::VersionNotFound => "String Not Found".to_owned(),
            CustomError::HelpPrinted => "".to_owned(),
        }
    }
}

/// Any failure to read or write a file is an `IoError`.
impl From<std::io::Error> for CustomError {
    fn from(_e: std::io::Error) -> (r: Self) {
        CustomError::IoError
    }
}

impl vstd::std_specs::convert::FromSpecImpl<std::io::Error> for CustomError {
    open spec fn obeys_from_spec() -> bool {
        true
    }

    open spec fn from_spec(v: std::io::Error) -> Self {
        CustomError::IoError
    }
}

/// Any failed step of a directory walk is an `IoError`.
impl From<walkdir::Error> for CustomError {
    fn from(_e: walkdir::Error) -> (r: Self) {
        CustomError::IoError
    }
}

impl vstd::std_specs::convert::FromSpecImpl<walkdir::Error> for CustomError {
    open spec fn obeys_from_spec() -> bool {
        true
    }

    open spec fn from_spec(v: walkdir::Error) -> Self {
        CustomError::IoError
    }
}

} // verus!
