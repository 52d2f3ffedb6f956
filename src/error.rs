//! Errors of the library, with plain values in place of the underlying causes.
use vstd::prelude::*;

verus! {

/// Everything that can make a command fail.
#[derive(Debug, Clone, PartialEq, Eq)]
pub enum EnvCheckError {
    /// No file at the path.
    FileNotFound { path: String },
    /// The file could not be read.
    ReadError { path: String, message: String },
    /// The file could not be written.
    WriteError { path: String, message: String },
    /// A document could not be parsed.
    ParseError { path: String, line: usize, message: String },
    /// A YAML document could not be parsed.
    YamlError { path: String, message: String },
    /// A glob pattern is malformed.
    GlobError { pattern: String, message: String },
    /// No file matched the patterns.
    NoFilesMatched { pattern: String },
    /// The output format is unknown.
    InvalidFormat { format: String },
    /// A comparison was asked for with fewer than two files.
    InsufficientFiles { count: usize },
    /// The env file to reconcile against was not given.
    MissingEnvFile,
    /// Linting found diagnostics; the counts decide the exit status.
    LintFailed { error_count: usize, warning_count: usize },
}

/// The process exit status for an error: 1 when lint errors were found, 0 when only
/// warnings were, 2 for every other failure.
pub open spec fn exit_code_of(e: EnvCheckError) -> i32 {
    match e {
        EnvCheckError::LintFailed { error_count, .. } => if error_count > 0 {
            1
        } else {
            0
        },
        _ => 2,
    }
}

impl EnvCheckError {
    pub fn file_not_found(path: String) -> (r: Self)
        ensures
            r == (EnvCheckError::FileNotFound { path }),
    {
        EnvCheckError::FileNotFound { path }
    }

    pub fn read_error(path: String, message: String) -> (r: Self)
        ensures
            r == (EnvCheckError::ReadError { path, message }),
    {
        EnvCheckError::ReadError { path, message }
    }

    pub fn write_error(path: String, message: String) -> (r: Self)
        ensures
            r == (EnvCheckError::WriteError { path, message }),
    {
        EnvCheckError::WriteError { path, message }
    }

    pub fn parse_error(path: String, line: usize, message: String) -> (r: Self)
        ensures
            r == (EnvCheckError::ParseError { path, line, message }),
    {
        EnvCheckError::ParseError { path, line, message }
    }

    pub fn yaml_error(path: String, message: String) -> (r: Self)
        ensures
            r == (EnvCheckError::YamlError { path, message }),
    {
        EnvCheckError::YamlError { path, message }
    }

    pub fn exit_code(&self) -> (r: i32)
        ensures
            r == exit_code_of(*self),
    {
        match self {
            EnvCheckError::LintFailed { error_count, .. } => if *error_count > 0 {
                1
            } else {
                0
            },
            _ => 2,
        }
    }
}

} // verus!
