//! Error types: parse failures, output failures, and the top-level
//! error that aggregates them.
//!
//! Each error renders itself through a `message` method whose exact
//! text is part of the contract.

use vstd::prelude::*;

verus! {

/// Errors of turning document text into a value tree.
#[derive(Debug)]
pub enum ParseError {
    /// No file exists at the path.
    FileNotFound { path: String },
    /// The file exists but could not be read.
    ReadError { path: String, message: String },
    /// The text is not valid JSON.
    JsonError { path: String, message: String },
    /// The text is not valid YAML.
    YamlError { path: String, message: String },
    /// The text is not valid TOML.
    TomlError { path: String, message: String },
    /// The extension is unknown and neither JSON nor YAML fits.
    UnknownFormat { path: String },
}

impl ParseError {
    /// A `FileNotFound` error for `path`.
    pub fn file_not_found(path: &str) -> (r: Self)
        ensures
            r matches ParseError::FileNotFound { path: p } && p@ == path@,
    {
        ParseError::FileNotFound { path: path.to_owned() }
    }

    /// A `ReadError` for `path` with the underlying cause.
    pub fn read_error(path: &str, message: &str) -> (r: Self)
        ensures
            r matches ParseError::ReadError { path: p, message: m } && p@ == path@ && m@
                == message@,
    {
        ParseError::ReadError { path: path.to_owned(), message: message.to_owned() }
    }

    /// A `JsonError` for `path` with the underlying cause.
    pub fn json_error(path: &str, message: &str) -> (r: Self)
        ensures
            r matches ParseError::JsonError { path: p, message: m } && p@ == path@ && m@
                == message@,
    {
        ParseError::JsonError { path: path.to_owned(), message: message.to_owned() }
    }

    /// A `YamlError` for `path` with the underlying cause.
    pub fn yaml_error(path: &str, message: &str) -> (r: Self)
        ensures
            r matches ParseError::YamlError { path: p, message: m } && p@ == path@ && m@
                == message@,
    {
        ParseError::YamlError { path: path.to_owned(), message: message.to_owned() }
    }

    /// A `TomlError` for `path` with the underlying cause.
    pub fn toml_error(path: &str, message: &str) -> (r: Self)
        ensures
            r matches ParseError::TomlError { path: p, message: m } && p@ == path@ && m@
                == message@,
    {
        ParseError::TomlError { path: path.to_owned(), message: message.to_owned() }
    }

    /// An `UnknownFormat` error for `path`.
    pub fn unknown_format(path: &str) -> (r: Self)
        ensures
            r matches ParseError::UnknownFormat { path: p } && p@ == path@,
    {
        ParseError::UnknownFormat { path: path.to_owned() }
    }

    /// A human-readable description of the error.
    pub fn message(&self) -> (r: String)
        ensures
            match self {
                ParseError::FileNotFound { path } => r@ == "File not found: "@ + path@,
                ParseError::ReadError { path, message } => r@ == "Failed to read file "@ + path@
                    + ": "@ + message@,
                ParseError::JsonError { path, message } => r@ == "Invalid JSON in "@ + path@
                    + ": "@ + message@,
                ParseError::YamlError { path, message } => r@ == "Invalid YAML in "@ + path@
                    + ": "@ + message@,
                ParseError::TomlError { path, message } => r@ == "Invalid TOML in "@ + path@
                    + ": "@ + message@,
                ParseError::UnknownFormat { path } => r@ == "Could not detect file format for "@
                    + path@,
            },
    {
        match self {
            ParseError::FileNotFound { path } => {
                let mut m = "File not found: ".to_owned();
                m.append(path.as_str());
                m
            },
            ParseError::ReadError { path, message } => {
                let mut m = "Failed to read file ".to_owned();
                m.append(path.as_str());
                m.append(": ");
                m.append(message.as_str());
                m
            },
            ParseError::JsonError { path, message } => {
                let mut m = "Invalid JSON in ".to_owned();
                m.append(path.as_str());
                m.append(": ");
                m.append(message.as_str());
                m
            },
            ParseError::YamlError { path, message } => {
                let mut m = "Invalid YAML in ".to_owned();
                m.append(path.as_str());
                m.append(": ");
                m.append(message.as_str());
                m
            },
            ParseError::TomlError { path, message } => {
                let mut m = "Invalid TOML in ".to_owned();
                m.append(path.as_str());
                m.append(": ");
                m.append(message.as_str());
                m
            },
            ParseError::UnknownFormat { path } => {
                let mut m = "Could not detect file format for ".to_owned();
                m.append(path.as_str());
                m
            },
        }
    }
}

/// Errors of rendering a diff.
#[derive(Debug)]
pub enum OutputError {
    /// The requested output format name is not recognised.
    UnknownFormat { format: String },
    /// The diff could not be serialised to JSON.
    JsonSerializationError { message: String },
}

impl OutputError {
    /// A human-readable description of the error.
    pub fn message(&self) -> (r: String)
        ensures
            match self {
                OutputError::UnknownFormat { format } => r@ == "Unknown output format: "@
                    + format@,
                OutputError::JsonSerializationError { message } => r@
                    == "Failed to serialize to JSON: "@ + message@,
            },
    {
        match self {
            OutputError::UnknownFormat { format } => {
                let mut m = "Unknown output format: ".to_owned();
                m.append(format.as_str());
                m
            },
            OutputError::JsonSerializationError { message } => {
                let mut m = "Failed to serialize to JSON: ".to_owned();
                m.append(message.as_str());
                m
            },
        }
    }
}

/// The top-level error: a parse error, an output error, or an invalid
/// configuration.
#[derive(Debug)]
pub enum SdiffError {
    /// A parsing error.
    Parse(ParseError),
    /// An output formatting error.
    Output(OutputError),
    /// An invalid or conflicting configuration.
    ConfigError { message: String },
}

impl SdiffError {
    /// A human-readable description: transparent for the wrapped
    /// errors, prefixed for configuration errors.
    pub fn message(&self) -> (r: String)
        ensures
            match self {
                SdiffError::ConfigError { message } => r@ == "Invalid configuration: "@
                    + message@,
                _ => true,
            },
    {
        match self {
            SdiffError::Parse(e) => e.message(),
            SdiffError::Output(e) => e.message(),
            SdiffError::ConfigError { message } => {
                let mut m = "Invalid configuration: ".to_owned();
                m.append(message.as_str());
                m
            },
        }
    }
}

impl From<ParseError> for SdiffError {
    /// Wraps a parse error unchanged.
    fn from(e: ParseError) -> (r: Self) {
        SdiffError::Parse(e)
    }
}

impl vstd::std_specs::convert::FromSpecImpl<ParseError> for SdiffError {
    open spec fn obeys_from_spec() -> bool {
        true
    }

    open spec fn from_spec(e: ParseError) -> Self {
        SdiffError::Parse(e)
    }
}

impl From<OutputError> for SdiffError {
    /// Wraps an output error unchanged.
    fn from(e: OutputError) -> (r: Self) {
        SdiffError::Output(e)
    }
}

impl vstd::std_specs::convert::FromSpecImpl<OutputError> for SdiffError {
    open spec fn obeys_from_spec() -> bool {
        true
    }

    open spec fn from_spec(e: OutputError) -> Self {
        SdiffError::Output(e)
    }
}

} // verus!
