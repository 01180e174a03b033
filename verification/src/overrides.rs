//! Merging an override document into the variable space.

use vstd::prelude::*;
use vstd::string::StringExecFns;
use crate::builder::VariableContextBuilder;
use crate::engine::{
    from_json, json_reading, parse_json, parse_yaml, yaml_reading, yaml_to_json,
};
use crate::error::CliError;
use crate::flatten::{flatten_and_merge, flatten_ops, lines_view, override_warnings};
use crate::template_discovery::{extension_of, file_name_of, path_extension};
use crate::text::{chars_of, lowercase_of, str_eq, string_of, to_lowercase};
use crate::value::{inserted_all, Json, JsonValue};
use crate::variable_context::VariableContext;

verus! {

/// The formats that an override document can have.
#[derive(Debug, Clone, Copy, PartialEq, Eq, Structural)]
pub enum DocumentFormat {
    Json,
    Yaml,
}

/// The format that a lowercase extension stands for.
pub open spec fn format_of(extension: Seq<char>) -> Option<DocumentFormat> {
    if extension == "json"@ {
        Some(DocumentFormat::Json)
    } else if extension == "yaml"@ || extension == "yml"@ {
        Some(DocumentFormat::Yaml)
    } else {
        None
    }
}

/// The extension of a file, or the empty text where it has none.
pub open spec fn extension_text(file: Seq<char>) -> Seq<char> {
    match extension_of(file_name_of(file)) {
        Some(e) => e,
        None => Seq::empty(),
    }
}

/// The format of a file, told by its extension, whatever its case.
pub open spec fn format_of_file(file: Seq<char>) -> Option<DocumentFormat> {
    format_of(lowercase_of(extension_text(file)))
}

/// The document that a text holds in a format, where the readers read
/// one. YAML is read as YAML and then taken as JSON.
pub open spec fn document_in(format: DocumentFormat, text: Seq<char>) -> Option<Json> {
    match format {
        DocumentFormat::Json => json_reading(text),
        DocumentFormat::Yaml => match yaml_reading(text) {
            Some(found) => found,
            None => None,
        },
    }
}

/// The text of the error for a document whose root is no mapping.
pub open spec fn root_message() -> Seq<char> {
    "Variables file must contain a JSON/YAML object at the root"@
}

/// Whether `error` explains why the file could not be merged.
///
/// A file that could not be read gives a file error with the cause; an
/// extension that stands for no format gives a file error that names it;
/// a text that the reader of its format refuses gives the parse error of
/// that format; a document whose root is no mapping gives a schema error.
pub open spec fn explains(error: CliError, file: Seq<char>, read: Result<String, String>) -> bool {
    match read {
        Err(cause) => error matches CliError::VariableFileError(m) && m@
            == "Failed to read variables file '"@ + file + "': "@ + cause@,
        Ok(text) => match format_of_file(file) {
            None => error matches CliError::VariableFileError(m) && m@
                == "Unsupported file extension '"@ + extension_text(file)
                + "'. Use .json, .yaml, or .yml"@,
            Some(DocumentFormat::Json) => match json_reading(text@) {
                None => error matches CliError::JsonParseError(m) && exists|detail: Seq<char>|
                    m@ == "Failed to parse JSON from '"@ + file + "': "@ + detail,
                Some(document) => !(document is Object) && (error matches CliError::SchemaError(
                    m,
                ) && m@ == root_message()),
            },
            Some(DocumentFormat::Yaml) => match yaml_reading(text@) {
                None => error matches CliError::YamlParseError(m) && exists|detail: Seq<char>|
                    m@ == "Failed to parse YAML from '"@ + file + "': "@ + detail,
                Some(found) => match found {
                    None => error matches CliError::YamlParseError(m) && exists|detail: Seq<char>|
                        m@ == "Failed to convert YAML to JSON: "@ + detail,
                    Some(document) => !(document is Object) && (error
                        matches CliError::SchemaError(m) && m@ == root_message()),
                },
            },
        },
    }
}

/// The extension of a file, or the empty text where it has none.
pub fn file_extension(file: &str) -> (r: String)
    ensures
        r@ == extension_text(file@),
{
    let chars = chars_of(file);
    match path_extension(&chars) {
        Some(e) => string_of(&e),
        None => String::new(),
    }
}

/// The format of a file, told by its extension, whatever its case.
pub fn document_format(file: &str) -> (r: Option<DocumentFormat>)
    ensures
        r == format_of_file(file@),
{
    let lower = to_lowercase(file_extension(file).as_str());
    if str_eq(lower.as_str(), "json") {
        Some(DocumentFormat::Json)
    } else if str_eq(lower.as_str(), "yaml") || str_eq(lower.as_str(), "yml") {
        Some(DocumentFormat::Yaml)
    } else {
        None
    }
}

/// The error for a file whose extension stands for no format.
pub fn unsupported_extension(file: &str) -> (r: CliError)
    ensures
        r matches CliError::VariableFileError(m) && m@ == "Unsupported file extension '"@
            + extension_text(file@) + "'. Use .json, .yaml, or .yml"@,
{
    let mut m = String::from_str("Unsupported file extension '");
    m.append(file_extension(file).as_str());
    m.append("'. Use .json, .yaml, or .yml");
    CliError::VariableFileError(m)
}

/// The error for a file whose text the reader of its format refuses,
/// with `detail` being what the reader said.
pub fn parse_error(format: DocumentFormat, file: &str, detail: &str) -> (r: CliError)
    ensures
        match format {
            DocumentFormat::Json => r matches CliError::JsonParseError(m) && m@
                == "Failed to parse JSON from '"@ + file@ + "': "@ + detail@,
            DocumentFormat::Yaml => r matches CliError::YamlParseError(m) && m@
                == "Failed to parse YAML from '"@ + file@ + "': "@ + detail@,
        },
{
    match format {
        DocumentFormat::Json => {
            let mut m = String::from_str("Failed to parse JSON from '");
            m.append(file);
            m.append("': ");
            m.append(detail);
            CliError::JsonParseError(m)
        },
        DocumentFormat::Yaml => {
            let mut m = String::from_str("Failed to parse YAML from '");
            m.append(file);
            m.append("': ");
            m.append(detail);
            CliError::YamlParseError(m)
        },
    }
}

impl VariableContextBuilder {
    /// Merges a document into the store: the document's values replace
    /// what the store held under the same paths, and each such write gives
    /// a warning. A document whose root is no mapping is refused and the
    /// store stays as it was.
    pub fn merge_document(context: &mut VariableContext, document: &JsonValue) -> (r: Result<
        Vec<String>,
        CliError,
    >)
        requires
            old(context).wf(),
            document@.wf(),
        ensures
            final(context).wf(),
            match r {
                Ok(warnings) => document@ is Object && final(context)@ == inserted_all(
                    old(context)@,
                    flatten_ops(Seq::empty(), document@),
                ) && lines_view(warnings@) == override_warnings(
                    old(context)@,
                    flatten_ops(Seq::empty(), document@),
                ),
                Err(e) => !(document@ is Object) && final(context)@ == old(context)@ && (e
                    matches CliError::SchemaError(m) && m@ == root_message()),
            },
    {
        match document {
            JsonValue::Object(_) => {
                let mut warnings: Vec<String> = Vec::new();
                let empty = "";
                proof {
                    reveal_strlit("");
                    assert(empty@ =~= Seq::<char>::empty());
                    assert(lines_view(warnings@) =~= Seq::<Seq<char>>::empty());
                }
                flatten_and_merge(context, empty, document, &mut warnings);
                proof {
                    let given = override_warnings(
                        old(context)@,
                        flatten_ops(Seq::empty(), document@),
                    );
                    assert(Seq::<Seq<char>>::empty() + given =~= given);
                }
                Ok(warnings)
            },
            _ => Err(
                CliError::SchemaError(
                    String::from_str("Variables file must contain a JSON/YAML object at the root"),
                ),
            ),
        }
    }

    /// Merges the override file that was read, or could not be read, into
    /// the store. The extension of the file says whether it is read as
    /// JSON or as YAML. Gives the warnings for the paths that were
    /// overridden. When it fails the store stays as it was.
    ///
    /// `read` is the text of the file, or the reason why it could not be
    /// read.
    pub fn merge_custom_variables(
        context: &mut VariableContext,
        variables_file: &str,
        read: Result<String, String>,
    ) -> (r: Result<Vec<String>, CliError>)
        requires
            old(context).wf(),
        ensures
            final(context).wf(),
            match r {
                Ok(warnings) => read is Ok && format_of_file(variables_file@) is Some && ({
                    let found = document_in(
                        format_of_file(variables_file@).unwrap(),
                        read.unwrap()@,
                    );
                    &&& found matches Some(document)
                    &&& document is Object
                    &&& final(context)@ == inserted_all(
                        old(context)@,
                        flatten_ops(Seq::empty(), document),
                    )
                    &&& lines_view(warnings@) == override_warnings(
                        old(context)@,
                        flatten_ops(Seq::empty(), document),
                    )
                }),
                Err(e) => final(context)@ == old(context)@ && explains(e, variables_file@, read),
            },
    {
        let text = match &read {
            Ok(text) => text,
            Err(cause) => {
                let mut m = String::from_str("Failed to read variables file '");
                m.append(variables_file);
                m.append("': ");
                m.append(cause.as_str());
                return Err(CliError::VariableFileError(m));
            },
        };
        let document = match document_format(variables_file) {
            Some(DocumentFormat::Json) => match parse_json(text.as_str()) {
                Ok(v) => from_json(&v),
                Err(e) => {
                    let detail = e.to_string();
                    return Err(parse_error(DocumentFormat::Json, variables_file, detail.as_str()));
                },
            },
            Some(DocumentFormat::Yaml) => {
                let y = match parse_yaml(text.as_str()) {
                    Ok(y) => y,
                    Err(e) => {
                        let detail = e.to_string();
                        return Err(
                            parse_error(DocumentFormat::Yaml, variables_file, detail.as_str()),
                        );
                    },
                };
                match yaml_to_json(&y) {
                    Ok(v) => from_json(&v),
                    Err(e) => {
                        let detail = e.to_string();
                        let m = String::from_str("Failed to convert YAML to JSON: ").concat(
                            detail.as_str(),
                        );
                        return Err(CliError::YamlParseError(m));
                    },
                }
            },
            None => {
                return Err(unsupported_extension(variables_file));
            },
        };
        VariableContextBuilder::merge_document(context, &document)
    }
}

} // verus!
