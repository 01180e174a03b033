//! The arguments of the command line, once parsed, and what makes them
//! valid.

use vstd::prelude::*;
use vstd::string::StringExecFns;
use crate::error::CliError;
use crate::helpers::{is_blank, trimmed};
use crate::text::{chars_of, has_prefix, starts_with};

verus! {

/// Where the variables come from.
#[derive(Debug, Clone, Copy, PartialEq, Eq, Structural)]
pub enum DataSource {
    /// From a blueprint.
    Blueprint,
    /// From a stack.
    Stack,
}

/// What the tool is asked to do.
#[derive(Debug, PartialEq, Eq)]
pub enum Command {
    /// Render the templates of a directory with the variables of a
    /// blueprint or a stack, and of a file of overrides if one is given.
    Generate {
        data_source: DataSource,
        identifier: String,
        template_dir: String,
        variables_file: Option<String>,
    },
    /// List the variables of a blueprint or a stack.
    ListVariables { data_source: DataSource, identifier: String },
    /// Show the version.
    Version,
}

/// The arguments of the command line.
#[derive(Debug, PartialEq, Eq)]
pub struct CliArgs {
    pub command: Command,
    pub api_key: Option<String>,
    pub api_url: Option<String>,
    pub output_dir: Option<String>,
}

/// What is at the paths that the arguments name.
#[derive(Debug, Clone, Copy, PartialEq, Eq, Structural)]
pub struct PathFacts {
    /// Something is at the path of the template directory.
    pub template_dir_exists: bool,
    /// A directory is at the path of the template directory.
    pub template_dir_is_dir: bool,
    /// Something is at the path of the file of overrides.
    pub variables_file_exists: bool,
    /// A regular file is at the path of the file of overrides.
    pub variables_file_is_file: bool,
}

/// The text of the error for a key that is not there.
pub open spec fn missing_key_message() -> Seq<char> {
    "API key is required. Provide it via --api-key flag or IDP_API_KEY environment variable."@
}

/// Why the arguments are not valid, if they are not: the first of the
/// rules that they break. Asking for the version is always valid.
/// Otherwise there must be a key that is more than white space, an
/// address, if there is one, must start with `http://` or `https://`,
/// and what is to be rendered must name a template directory that is one
/// and, if it names a file of overrides, a file that is one.
pub open spec fn complaint(args: CliArgs, facts: PathFacts) -> Option<Seq<char>> {
    if args.command is Version {
        None
    } else if args.api_key is None {
        Some(missing_key_message())
    } else if trimmed(args.api_key.unwrap()@).len() == 0 {
        Some("API key cannot be empty."@)
    } else if args.api_url is Some && !starts_with(args.api_url.unwrap()@, "http://"@)
        && !starts_with(args.api_url.unwrap()@, "https://"@) {
        Some(
            "Invalid API URL '"@ + args.api_url.unwrap()@
                + "'. URL must start with http:// or https://"@,
        )
    } else {
        match args.command {
            Command::Generate { data_source, identifier, template_dir, variables_file } => {
                if !facts.template_dir_exists {
                    Some("Template directory does not exist: "@ + template_dir@)
                } else if !facts.template_dir_is_dir {
                    Some("Template path is not a directory: "@ + template_dir@)
                } else {
                    match variables_file {
                        Some(file) => if !facts.variables_file_exists {
                            Some("Variables file does not exist: "@ + file@)
                        } else if !facts.variables_file_is_file {
                            Some("Variables path is not a file: "@ + file@)
                        } else {
                            None
                        },
                        None => None,
                    }
                }
            },
            _ => None,
        }
    }
}

impl CliArgs {
    /// Checks the arguments against the rules, given what is at the
    /// paths that they name.
    pub fn validate(&self, facts: &PathFacts) -> (r: Result<(), CliError>)
        ensures
            match r {
                Ok(_) => complaint(*self, *facts) is None,
                Err(e) => e matches CliError::ConfigurationError(m) && complaint(*self, *facts)
                    == Some(m@),
            },
    {
        if let Command::Version = self.command {
            return Ok(());
        }
        let key = match &self.api_key {
            Some(key) => key,
            None => {
                return Err(
                    CliError::ConfigurationError(
                        String::from_str(
                            "API key is required. Provide it via --api-key flag or IDP_API_KEY environment variable.",
                        ),
                    ),
                );
            },
        };
        if is_blank(&chars_of(key.as_str())) {
            return Err(CliError::ConfigurationError(String::from_str("API key cannot be empty.")));
        }
        if let Some(url) = &self.api_url {
            let chars = chars_of(url.as_str());
            if !has_prefix(&chars, &chars_of("http://")) && !has_prefix(
                &chars,
                &chars_of("https://"),
            ) {
                let mut m = String::from_str("Invalid API URL '");
                m.append(url.as_str());
                m.append("'. URL must start with http:// or https://");
                return Err(CliError::ConfigurationError(m));
            }
        }
        if let Command::Generate { data_source, identifier, template_dir, variables_file } =
            &self.command {
            if !facts.template_dir_exists {
                return Err(
                    CliError::ConfigurationError(
                        String::from_str("Template directory does not exist: ").concat(
                            template_dir.as_str(),
                        ),
                    ),
                );
            }
            if !facts.template_dir_is_dir {
                return Err(
                    CliError::ConfigurationError(
                        String::from_str("Template path is not a directory: ").concat(
                            template_dir.as_str(),
                        ),
                    ),
                );
            }
            if let Some(file) = variables_file {
                if !facts.variables_file_exists {
                    return Err(
                        CliError::ConfigurationError(
                            String::from_str("Variables file does not exist: ").concat(
                                file.as_str(),
                            ),
                        ),
                    );
                }
                if !facts.variables_file_is_file {
                    return Err(
                        CliError::ConfigurationError(
                            String::from_str("Variables path is not a file: ").concat(
                                file.as_str(),
                            ),
                        ),
                    );
                }
            }
        }
        Ok(())
    }

    /// The arguments, if they are valid.
    pub fn parse_and_validate(args: CliArgs, facts: &PathFacts) -> (r: Result<CliArgs, CliError>)
        ensures
            match r {
                Ok(valid) => complaint(args, *facts) is None && valid == args,
                Err(e) => e matches CliError::ConfigurationError(m) && complaint(args, *facts)
                    == Some(m@),
            },
    {
        match args.validate(facts) {
            Ok(_) => Ok(args),
            Err(e) => Err(e),
        }
    }

    /// The key, or an error where there is none.
    pub fn get_api_key(&self) -> (r: Result<&str, CliError>)
        ensures
            match r {
                Ok(key) => self.api_key matches Some(k) && key@ == k@,
                Err(e) => self.api_key is None && (e matches CliError::ConfigurationError(m) && m@
                    == missing_key_message()),
            },
    {
        match &self.api_key {
            Some(key) => Ok(key.as_str()),
            None => Err(
                CliError::ConfigurationError(
                    String::from_str(
                        "API key is required. Provide it via --api-key flag or IDP_API_KEY environment variable.",
                    ),
                ),
            ),
        }
    }

    /// The address of the API, or the address of a local one where none
    /// was given.
    pub fn get_api_url(&self) -> (r: &str)
        ensures
            r@ == match self.api_url {
                Some(url) => url@,
                None => "http://localhost:8082/api/v1"@,
            },
    {
        match &self.api_url {
            Some(url) => url.as_str(),
            None => "http://localhost:8082/api/v1",
        }
    }

    /// The output directory, or `./output` where none was given.
    pub fn get_output_dir(&self) -> (r: String)
        ensures
            r@ == match self.output_dir {
                Some(dir) => dir@,
                None => "./output"@,
            },
    {
        match &self.output_dir {
            Some(dir) => dir.clone(),
            None => String::from_str("./output"),
        }
    }
}

} // verus!
