//! The errors that the library reports.

use vstd::prelude::*;
use vstd::string::StringExecFns;
use crate::text::{decimal, push_decimal};

verus! {

/// An error of the tool, with the text that explains it.
#[derive(Debug, PartialEq, Eq)]
pub enum CliError {
    AuthenticationError(String),
    NotFoundError(String),
    ApiError(String),
    NetworkError(String),
    IoError(String),
    ConfigurationError(String),
    GenerationError(String),
    VariableFileError(String),
    DiscoveryError(String),
    ProcessingError(String),
    TemplateSyntaxError { line: usize, message: String },
    VariableNotFoundError { variable: String, suggestion: String },
    YamlParseError(String),
    JsonParseError(String),
    S3Error(String),
    ConfigError(String),
    SchemaError(String),
}

/// Two errors are of one kind and hold the same texts.
pub open spec fn same_error(a: CliError, b: CliError) -> bool {
    match (a, b) {
        (CliError::AuthenticationError(x), CliError::AuthenticationError(y)) => x@ == y@,
        (CliError::NotFoundError(x), CliError::NotFoundError(y)) => x@ == y@,
        (CliError::ApiError(x), CliError::ApiError(y)) => x@ == y@,
        (CliError::NetworkError(x), CliError::NetworkError(y)) => x@ == y@,
        (CliError::IoError(x), CliError::IoError(y)) => x@ == y@,
        (CliError::ConfigurationError(x), CliError::ConfigurationError(y)) => x@ == y@,
        (CliError::GenerationError(x), CliError::GenerationError(y)) => x@ == y@,
        (CliError::VariableFileError(x), CliError::VariableFileError(y)) => x@ == y@,
        (CliError::DiscoveryError(x), CliError::DiscoveryError(y)) => x@ == y@,
        (CliError::ProcessingError(x), CliError::ProcessingError(y)) => x@ == y@,
        (
            CliError::TemplateSyntaxError { line: l, message: x },
            CliError::TemplateSyntaxError { line: m, message: y },
        ) => l == m && x@ == y@,
        (
            CliError::VariableNotFoundError { variable: v, suggestion: x },
            CliError::VariableNotFoundError { variable: w, suggestion: y },
        ) => v@ == w@ && x@ == y@,
        (CliError::YamlParseError(x), CliError::YamlParseError(y)) => x@ == y@,
        (CliError::JsonParseError(x), CliError::JsonParseError(y)) => x@ == y@,
        (CliError::S3Error(x), CliError::S3Error(y)) => x@ == y@,
        (CliError::ConfigError(x), CliError::ConfigError(y)) => x@ == y@,
        (CliError::SchemaError(x), CliError::SchemaError(y)) => x@ == y@,
        _ => false,
    }
}

impl CliError {
    /// The full text of the error: what kind it is, then its details.
    pub open spec fn message_spec(self) -> Seq<char> {
        match self {
            CliError::AuthenticationError(m) => "Authentication failed: "@ + m@,
            CliError::NotFoundError(m) => "Resource not found: "@ + m@,
            CliError::ApiError(m) => "API error: "@ + m@,
            CliError::NetworkError(m) => "Network error: "@ + m@,
            CliError::IoError(m) => "IO error: "@ + m@,
            CliError::ConfigurationError(m) => "Invalid configuration: "@ + m@,
            CliError::GenerationError(m) => "Code generation error: "@ + m@,
            CliError::VariableFileError(m) => "Variable file error: "@ + m@,
            CliError::DiscoveryError(m) => "Template discovery error: "@ + m@,
            CliError::ProcessingError(m) => "Template processing error: "@ + m@,
            CliError::TemplateSyntaxError { line, message } => "Template syntax error at line "@
                + decimal(line as nat) + ": "@ + message@,
            CliError::VariableNotFoundError { variable, suggestion } => "Variable not found: "@
                + variable@ + "\n"@ + suggestion@,
            CliError::YamlParseError(m) => "YAML parsing error: "@ + m@,
            CliError::JsonParseError(m) => "JSON parsing error: "@ + m@,
            CliError::S3Error(m) => "S3 error: "@ + m@,
            CliError::ConfigError(m) => "Configuration error: "@ + m@,
            CliError::SchemaError(m) => "Schema error: "@ + m@,
        }
    }

    /// The text shown to the user: a fixed hint for the kinds that have
    /// one, the full text for the others.
    pub open spec fn user_message_spec(self) -> Seq<char> {
        match self {
            CliError::AuthenticationError(_) => "Authentication failed. Please check your API key."@,
            CliError::NotFoundError(resource) => "Resource '"@ + resource@
                + "' not found. Please verify the identifier."@,
            CliError::NetworkError(_) => "Network error. Please check your connection and API URL."@,
            CliError::S3Error(_) => "S3 error. Please check your S3 bucket configuration and permissions."@,
            CliError::ConfigError(_) => "Configuration error. Please check your environment variables."@,
            _ => self.message_spec(),
        }
    }

    /// The full text of the error.
    pub fn message(&self) -> (r: String)
        ensures
            r@ == self.message_spec(),
    {
        match self {
            CliError::AuthenticationError(m) => String::from_str("Authentication failed: ").concat(m.as_str()),
            CliError::NotFoundError(m) => String::from_str("Resource not found: ").concat(m.as_str()),
            CliError::ApiError(m) => String::from_str("API error: ").concat(m.as_str()),
            CliError::NetworkError(m) => String::from_str("Network error: ").concat(m.as_str()),
            CliError::IoError(m) => String::from_str("IO error: ").concat(m.as_str()),
            CliError::ConfigurationError(m) => String::from_str("Invalid configuration: ").concat(m.as_str()),
            CliError::GenerationError(m) => String::from_str("Code generation error: ").concat(m.as_str()),
            CliError::VariableFileError(m) => String::from_str("Variable file error: ").concat(m.as_str()),
            CliError::DiscoveryError(m) => String::from_str("Template discovery error: ").concat(m.as_str()),
            CliError::ProcessingError(m) => String::from_str("Template processing error: ").concat(m.as_str()),
            CliError::TemplateSyntaxError { line, message } => {
                let mut r = String::from_str("Template syntax error at line ");
                push_decimal(&mut r, *line);
                r.append(": ");
                r.append(message.as_str());
                r
            },
            CliError::VariableNotFoundError { variable, suggestion } => {
                let mut r = String::from_str("Variable not found: ");
                r.append(variable.as_str());
                r.append("\n");
                r.append(suggestion.as_str());
                r
            },
            CliError::YamlParseError(m) => String::from_str("YAML parsing error: ").concat(m.as_str()),
            CliError::JsonParseError(m) => String::from_str("JSON parsing error: ").concat(m.as_str()),
            CliError::S3Error(m) => String::from_str("S3 error: ").concat(m.as_str()),
            CliError::ConfigError(m) => String::from_str("Configuration error: ").concat(m.as_str()),
            CliError::SchemaError(m) => String::from_str("Schema error: ").concat(m.as_str()),
        }
    }

    /// The text shown to the user.
    pub fn user_message(&self) -> (r: String)
        ensures
            r@ == self.user_message_spec(),
    {
        match self {
            CliError::AuthenticationError(_) => String::from_str(
                "Authentication failed. Please check your API key.",
            ),
            CliError::NotFoundError(resource) => {
                let mut r = String::from_str("Resource '");
                r.append(resource.as_str());
                r.append("' not found. Please verify the identifier.");
                r
            },
            CliError::NetworkError(_) => String::from_str(
                "Network error. Please check your connection and API URL.",
            ),
            CliError::S3Error(_) => String::from_str(
                "S3 error. Please check your S3 bucket configuration and permissions.",
            ),
            CliError::ConfigError(_) => String::from_str(
                "Configuration error. Please check your environment variables.",
            ),
            _ => self.message(),
        }
    }
}

} // verus!
