//! What the hosted service decides: how a request names its data, what
//! is answered, and with which status.

use vstd::prelude::*;
use vstd::string::StringExecFns;
use crate::cli::DataSource;
use crate::error::CliError;
use crate::pipeline::GenerateError;
use crate::text::{decimal, lowercase_of, push_decimal, str_eq, to_lowercase};
use crate::value::{
    inserted_all, items_view, lemma_view_array, lemma_view_object, lemma_wf_parts, members_view,
    members_wf, Json, JsonValue,
};
use crate::variable_context::VariableContext;

verus! {

/// What the service answers.
#[derive(Debug, PartialEq, Eq)]
pub struct LambdaResponse {
    pub success: bool,
    pub message: String,
    pub files: Option<Vec<String>>,
    pub s3_keys: Option<Vec<String>>,
    pub variables: Option<JsonValue>,
    pub error: Option<String>,
}

/// The data source that a lowercase name stands for.
pub open spec fn source_named(lower: Seq<char>) -> Option<DataSource> {
    if lower == "blueprint"@ {
        Some(DataSource::Blueprint)
    } else if lower == "stack"@ {
        Some(DataSource::Stack)
    } else {
        None
    }
}

/// The name of a data source.
pub open spec fn source_name(data_source: DataSource) -> Seq<char> {
    match data_source {
        DataSource::Blueprint => "blueprint"@,
        DataSource::Stack => "stack"@,
    }
}

/// An answer that tells of a failure.
pub fn failure(message: String, error: String) -> (r: LambdaResponse)
    ensures
        !r.success,
        r.message == message,
        r.error == Some(error),
        r.files is None && r.s3_keys is None && r.variables is None,
{
    LambdaResponse {
        success: false,
        message,
        files: None,
        s3_keys: None,
        variables: None,
        error: Some(error),
    }
}

/// The data source that a request names, whatever the case of the name,
/// or the answer for a name that stands for none.
pub fn parse_data_source(data_source: &str) -> (r: Result<DataSource, LambdaResponse>)
    ensures
        match r {
            Ok(source) => source_named(lowercase_of(data_source@)) == Some(source),
            Err(response) => source_named(lowercase_of(data_source@)) is None && !response.success
                && response.message@ == "Invalid data source"@ && (response.error matches Some(e)
                && e@ == "Data source must be 'blueprint' or 'stack', got: "@ + data_source@)
                && response.files is None && response.s3_keys is None && response.variables
                is None,
        },
{
    let lower = to_lowercase(data_source);
    if str_eq(lower.as_str(), "blueprint") {
        Ok(DataSource::Blueprint)
    } else if str_eq(lower.as_str(), "stack") {
        Ok(DataSource::Stack)
    } else {
        Err(
            failure(
                String::from_str("Invalid data source"),
                String::from_str("Data source must be 'blueprint' or 'stack', got: ").concat(
                    data_source,
                ),
            ),
        )
    }
}

/// The status of the answer: 200 for success, 500 for failure.
pub fn status_code(response: &LambdaResponse) -> (r: u16)
    ensures
        r == if response.success {
            200u16
        } else {
            500u16
        },
{
    if response.success {
        200
    } else {
        500
    }
}

/// The prefix under which the outputs for a record are stored.
pub fn output_prefix(data_source: DataSource, identifier: &str) -> (r: String)
    ensures
        r@ == "outputs/"@ + source_name(data_source) + "/"@ + identifier@,
{
    let mut r = String::from_str("outputs/");
    match data_source {
        DataSource::Blueprint => r.append("blueprint"),
        DataSource::Stack => r.append("stack"),
    }
    r.append("/");
    r.append(identifier);
    r
}

/// The answer for files that were generated.
pub fn generated(files: Vec<String>, s3_keys: Option<Vec<String>>) -> (r: LambdaResponse)
    ensures
        r.success,
        r.message@ == "Successfully generated "@ + decimal(files@.len()) + " files"@,
        r.files == Some(files),
        r.s3_keys == s3_keys,
        r.variables is None && r.error is None,
{
    let mut message = String::from_str("Successfully generated ");
    push_decimal(&mut message, files.len());
    message.append(" files");
    LambdaResponse {
        success: true,
        message,
        files: Some(files),
        s3_keys,
        variables: None,
        error: None,
    }
}

/// What a request for files fails on before any template is looked at.
#[derive(Debug)]
pub enum SetupFailure {
    /// The client of the object storage could not be made.
    Storage(CliError),
    /// The temporary directory for the templates could not be made, for
    /// the reason given.
    TemplatesDirectory(String),
    /// The temporary directory for the outputs could not be made, for
    /// the reason given.
    OutputDirectory(String),
    /// The templates could not be fetched from the object storage; the
    /// text is the error as it is logged.
    Download(CliError, String),
}

/// What the answer for a failed setup says, and the detail that it
/// carries.
pub open spec fn setup_failure_texts(f: SetupFailure) -> (Seq<char>, Seq<char>) {
    match f {
        SetupFailure::Storage(e) => (
            "Failed to create S3 client: "@ + e.message_spec(),
            e.message_spec(),
        ),
        SetupFailure::TemplatesDirectory(reason) => (
            "Failed to create temporary templates directory"@,
            reason@,
        ),
        SetupFailure::OutputDirectory(reason) => (
            "Failed to create temporary output directory"@,
            reason@,
        ),
        SetupFailure::Download(e, debug_form) => (
            "Failed to download templates from S3: "@ + e.user_message_spec(),
            debug_form@,
        ),
    }
}

/// The answer for a setup that failed.
pub fn setup_failure(f: &SetupFailure) -> (r: LambdaResponse)
    ensures
        !r.success,
        r.message@ == setup_failure_texts(*f).0,
        r.error matches Some(detail) && detail@ == setup_failure_texts(*f).1,
        r.files is None && r.s3_keys is None && r.variables is None,
{
    match f {
        SetupFailure::Storage(e) => failure(
            String::from_str("Failed to create S3 client: ").concat(e.message().as_str()),
            e.message(),
        ),
        SetupFailure::TemplatesDirectory(reason) => failure(
            String::from_str("Failed to create temporary templates directory"),
            reason.clone(),
        ),
        SetupFailure::OutputDirectory(reason) => failure(
            String::from_str("Failed to create temporary output directory"),
            reason.clone(),
        ),
        SetupFailure::Download(e, debug_form) => failure(
            String::from_str("Failed to download templates from S3: ").concat(
                e.user_message().as_str(),
            ),
            debug_form.clone(),
        ),
    }
}

/// The answer for a request without a body.
pub fn empty_request() -> (r: LambdaResponse)
    ensures
        !r.success,
        r.message@ == "Empty request body"@,
        r.error matches Some(detail) && detail@ == "Request body is required"@,
        r.files is None && r.s3_keys is None && r.variables is None,
{
    failure(String::from_str("Empty request body"), String::from_str("Request body is required"))
}

/// The bucket that holds the templates: the one that is configured, or
/// the usual one.
pub fn templates_bucket(configured: Option<String>) -> (r: String)
    ensures
        r@ == match configured {
            Some(bucket) => bucket@,
            None => "visuidp-templates"@,
        },
{
    match configured {
        Some(bucket) => bucket,
        None => String::from_str("visuidp-templates"),
    }
}

/// The prefix under which the templates are stored: the one that the
/// request names, or the usual one.
pub fn template_prefix(requested: Option<String>) -> (r: String)
    ensures
        r@ == match requested {
            Some(prefix) => prefix@,
            None => "templates/"@,
        },
{
    match requested {
        Some(prefix) => prefix,
        None => String::from_str("templates/"),
    }
}

/// The keys that the answer names after the outputs were stored, or
/// could not be stored: an upload that fails does not fail the request.
pub fn stored_keys(upload: Result<Vec<String>, CliError>) -> (r: Option<Vec<String>>)
    ensures
        r == match upload {
            Ok(keys) => Some(keys),
            Err(_) => None::<Vec<String>>,
        },
{
    match upload {
        Ok(keys) => Some(keys),
        Err(_) => None,
    }
}

/// The answer for a record that could not be fetched. `debug_form` is
/// the error as it is logged.
pub fn fetch_failure(data_source: DataSource, e: &CliError, debug_form: String) -> (r:
    LambdaResponse)
    ensures
        !r.success,
        r.message@ == "Failed to fetch "@ + source_name(data_source) + ": "@
            + e.user_message_spec(),
        r.error == Some(debug_form),
        r.files is None && r.s3_keys is None && r.variables is None,
{
    let mut message = String::from_str("Failed to fetch ");
    match data_source {
        DataSource::Blueprint => message.append("blueprint"),
        DataSource::Stack => message.append("stack"),
    }
    message.append(": ");
    message.append(e.user_message().as_str());
    failure(message, debug_form)
}

/// What the answer for a run that generated no files says, and the
/// detail that it carries. For a template that failed the detail is
/// `debug_form`, for the other failures it is the text of the error.
pub open spec fn generation_failure_texts(
    e: GenerateError,
    template_path: Seq<char>,
    debug_form: Seq<char>,
) -> (Seq<char>, Seq<char>) {
    match e {
        GenerateError::Discovery(d) => (
            "Failed to discover templates: "@ + d.message_spec(),
            d.message_spec(),
        ),
        GenerateError::NoTemplates => (
            "No template files found in "@ + template_path,
            "Template directory is empty"@,
        ),
        GenerateError::Processing(c) => (
            "Failed to process template: "@ + c.user_message_spec(),
            debug_form,
        ),
        GenerateError::Writing(c) => ("Failed to write files: "@ + c.message_spec(), c.message_spec()),
    }
}

/// The answer for a run over the templates at `template_path` that
/// generated no files. `debug_form` is the error as it is logged.
pub fn generation_failure(e: &GenerateError, template_path: &str, debug_form: String) -> (r:
    LambdaResponse)
    ensures
        !r.success,
        r.message@ == generation_failure_texts(*e, template_path@, debug_form@).0,
        r.error matches Some(detail) && detail@ == generation_failure_texts(
            *e,
            template_path@,
            debug_form@,
        ).1,
        r.files is None && r.s3_keys is None && r.variables is None,
{
    match e {
        GenerateError::Discovery(d) => failure(
            String::from_str("Failed to discover templates: ").concat(d.message().as_str()),
            d.message(),
        ),
        GenerateError::NoTemplates => failure(
            String::from_str("No template files found in ").concat(template_path),
            String::from_str("Template directory is empty"),
        ),
        GenerateError::Processing(c) => failure(
            String::from_str("Failed to process template: ").concat(c.user_message().as_str()),
            debug_form,
        ),
        GenerateError::Writing(c) => failure(
            String::from_str("Failed to write files: ").concat(c.message().as_str()),
            c.message(),
        ),
    }
}

/// The variables of a store as a list of pairs, each a path and its
/// value.
pub open spec fn listing(entries: Seq<(Seq<char>, Json)>) -> Json {
    Json::Array(
        Seq::new(entries.len(), |i: int| Json::Array(seq![Json::Text(entries[i].0), entries[i].1])),
    )
}

/// The answer that lists the variables of a store.
pub fn listed(context: &VariableContext) -> (r: LambdaResponse)
    requires
        context.wf(),
    ensures
        r.success,
        r.message@ == "Retrieved "@ + decimal(context.entries().len()) + " variables"@,
        r.variables matches Some(v) && v@ == listing(context.entries()),
        r.files is None && r.s3_keys is None && r.error is None,
{
    let all = context.list_all();
    let mut pairs: Vec<JsonValue> = Vec::new();
    let mut i: usize = 0;
    while i < all.len()
        invariant
            i <= all.len(),
            all.len() == context.entries().len(),
            pairs.len() == i,
            forall|j: int|
                0 <= j < all.len() ==> (#[trigger] all@[j]).0@ == context.entries()[j].0 && all@[j].1@
                    == context.entries()[j].1,
            forall|j: int|
                0 <= j < i ==> (#[trigger] pairs@[j])@ == Json::Array(
                    seq![Json::Text(context.entries()[j].0), context.entries()[j].1],
                ),
        decreases all.len() - i,
    {
        let mut pair: Vec<JsonValue> = Vec::new();
        pair.push(JsonValue::text(all[i].0.as_str()));
        pair.push(all[i].1.clone());
        proof {
            lemma_view_array(pair);
            assert(items_view(pair@) =~= seq![
                Json::Text(context.entries()[i as int].0),
                context.entries()[i as int].1,
            ]);
        }
        pairs.push(JsonValue::Array(pair));
        i += 1;
    }
    proof {
        lemma_view_array(pairs);
        assert(items_view(pairs@) =~= listing(context.entries())->Array_0);
    }
    let mut message = String::from_str("Retrieved ");
    push_decimal(&mut message, all.len());
    message.append(" variables");
    LambdaResponse {
        success: true,
        message,
        files: None,
        s3_keys: None,
        variables: Some(JsonValue::Array(pairs)),
        error: None,
    }
}

/// Puts the variables of a request into the store, each member of the
/// mapping under its key as it is. Anything but a mapping leaves the
/// store as it was.
pub fn merge_request_variables(context: &mut VariableContext, variables: &JsonValue)
    requires
        old(context).wf(),
        variables@.wf(),
    ensures
        final(context).wf(),
        final(context)@ == match variables@ {
            Json::Object(members) => inserted_all(old(context)@, members),
            _ => old(context)@,
        },
{
    match variables {
        JsonValue::Object(members) => {
            proof {
                lemma_view_object(*members);
                lemma_wf_parts(variables@);
            }
            let ghost mv = members_view(members@);
            let ghost base = context@;
            assert(mv.take(0) =~= Seq::empty());
            let mut i: usize = 0;
            while i < members.len()
                invariant
                    i <= members.len(),
                    mv == members_view(members@),
                    members_wf(mv),
                    context.wf(),
                    context@ == inserted_all(base, mv.take(i as int)),
                decreases members.len() - i,
            {
                proof {
                    assert(mv.take(i + 1).drop_last() =~= mv.take(i as int));
                    assert(mv.take(i + 1).last() == mv[i as int]);
                    assert(mv[i as int].1.wf());
                    assert(mv[i as int] == (members@[i as int].0@, members@[i as int].1@));
                }
                context.insert(members[i].0.clone(), members[i].1.clone());
                i += 1;
            }
            assert(mv.take(members@.len() as int) =~= mv);
        },
        _ => {},
    }
}

} // verus!
