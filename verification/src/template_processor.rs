//! Rendering templates against the variable space.

use vstd::prelude::*;
use vstd::string::StringExecFns;
use crate::diagnostics::{
    enhance_template_error, extract_line_number, extract_variable_name, get_template_line,
    is_enhancement, line_number_in, template_line, variable_name_in,
};
use crate::engine::{
    engine_disable_escaping, engine_new, engine_register_helper, engine_render, engine_set_strict_mode,
    engine_setup, json_form, parse_yaml, rendering, to_json, yaml_reading, EngineSetup,
};
use crate::error::{same_error, CliError};
use crate::partials::{has_inclusion, includes_templates};
use crate::helpers::{is_blank, trimmed, HelperKind};
use crate::nesting::nested;
use crate::suggestions::{
    edit_distance, is_similar, levenshtein_distance, names_view, similar, suggest, suggestion_text,
};
use crate::template_discovery::{TemplateFile, TemplateFileType};
use crate::text::{chars_of, decimal, parts_view, push_decimal, split_on, split_text, string_of};
use crate::value::Json;
use crate::variable_context::VariableContext;

verus! {

/// A rendered template, ready to be written.
#[derive(Debug, Clone, PartialEq, Eq)]
pub struct ProcessedFile {
    /// The path of the file from the template directory, which is also its
    /// path from the output directory.
    pub relative_path: String,
    /// The rendered text.
    pub content: String,
}

impl ProcessedFile {
    /// A rendered file.
    pub fn new(relative_path: String, content: String) -> (r: ProcessedFile)
        ensures
            r.relative_path == relative_path,
            r.content == content,
    {
        ProcessedFile { relative_path, content }
    }

    /// The relative path as text.
    pub fn path_str(&self) -> (r: String)
        ensures
            r@ == self.relative_path@,
    {
        self.relative_path.clone()
    }

    /// The length of the rendered text in bytes.
    pub fn content_len(&self) -> (r: usize)
        ensures
            r == vstd::utf8::encode_utf8(self.content@).len() as usize,
    {
        self.content.as_str().len()
    }
}

/// The helpers of the library, by the names that templates call them by.
pub open spec fn library_helpers() -> Map<Seq<char>, HelperKind> {
    Map::<Seq<char>, HelperKind>::empty().insert("default"@, HelperKind::Default).insert(
        "uppercase"@,
        HelperKind::Uppercase,
    ).insert("lowercase"@, HelperKind::Lowercase).insert(
        "capitalize"@,
        HelperKind::Capitalize,
    ).insert("trim"@, HelperKind::Trim).insert("replace"@, HelperKind::Replace)
}

/// How the library sets its renderer up: a reference to a value that is
/// not there is no error, values are written as they are, and the
/// library's helpers are there.
pub open spec fn library_setup() -> EngineSetup {
    EngineSetup { strict: false, escapes: false, helpers: library_helpers() }
}

/// What the library's renderer makes of a template against the tree of a
/// variable space: the text, or what it says of the failure.
pub open spec fn rendered(template: Seq<char>, tree: Json) -> Result<Seq<char>, Seq<char>> {
    rendering(template, json_form(tree), library_setup())
}

/// The text of the error for a template that includes other templates.
pub open spec fn inclusion_message() -> Seq<char> {
    "Template processing failed: partials and decorators are not supported. Remove every {{> name}}, {{#> name}}, {{* name}} and {{#* name}} from the template."@
}

/// The text that a template renders to against a variable space, where
/// it renders: it includes no other template, and the renderer gives a
/// text.
pub open spec fn rendered_text(template: Seq<char>, context: &VariableContext) -> Option<
    Seq<char>,
> {
    if includes_templates(template) {
        None
    } else {
        match rendered(template, context.tree()) {
            Ok(text) => Some(text),
            Err(_) => None,
        }
    }
}

/// Whether `e` is the error for a template that does not render against
/// a variable space: the fixed error for a template that includes other
/// templates, else the error made from what the renderer says of the
/// failure.
pub open spec fn failed_rendering(e: CliError, template: Seq<char>, context: &VariableContext) -> bool {
    if includes_templates(template) {
        e matches CliError::ProcessingError(text) && text@ == inclusion_message()
    } else {
        rendered(template, context.tree()) matches Err(message) && is_enhancement(
            e,
            message,
            template,
            paths_of(context.entries()),
        )
    }
}

/// The paths of the entries, in order.
pub open spec fn paths_of(entries: Seq<(Seq<char>, Json)>) -> Seq<Seq<char>> {
    Seq::new(entries.len(), |i: int| entries[i].0)
}

/// The text between the documents of a text that holds several.
pub open spec fn document_separator() -> Seq<char> {
    "\n---\n"@
}

/// The documents among the first `n` pieces that hold more than white
/// space, in order.
pub open spec fn filled(pieces: Seq<Seq<char>>, n: nat) -> Seq<Seq<char>>
    decreases n,
{
    if n == 0 || n > pieces.len() {
        Seq::empty()
    } else {
        let before = filled(pieces, (n - 1) as nat);
        if trimmed(pieces[n - 1]).len() > 0 {
            before.push(pieces[n - 1])
        } else {
            before
        }
    }
}

/// The documents of a text: its pieces between lines of three dashes,
/// without those that hold nothing but white space.
pub open spec fn documents_of(content: Seq<char>) -> Seq<Seq<char>> {
    let pieces = split_on(content, document_separator());
    filled(pieces, pieces.len())
}

/// The text of the error for a document that is no YAML: the file, the
/// number of the document where there are several, what the reader said,
/// and what usually causes it.
pub open spec fn yaml_failure_message(
    file: Seq<char>,
    count: nat,
    index: nat,
    detail: Seq<char>,
) -> Seq<char> {
    "YAML validation failed for '"@ + file + "'"@ + (if count > 1 {
        " (document "@ + decimal(index + 1) + ")"@
    } else {
        Seq::empty()
    }) + ": "@ + detail
        + "\n\nThe generated YAML has invalid syntax. This usually means:\n- A variable substitution resulted in invalid YAML structure\n- Missing or incorrect indentation\n- Unquoted special characters\n\nPlease check your template and variable values."@
}

/// Whether `text` tells that the document at `index` is the first that is
/// no YAML, with `detail` being what the reader said of it.
pub open spec fn tells_of(
    text: Seq<char>,
    documents: Seq<Seq<char>>,
    file: Seq<char>,
    index: int,
    detail: Seq<char>,
) -> bool {
    &&& 0 <= index < documents.len()
    &&& yaml_reading(documents[index]) is None
    &&& forall|i: int| 0 <= i < index ==> yaml_reading(#[trigger] documents[i]) is Some
    &&& text == yaml_failure_message(file, documents.len(), index as nat, detail)
}

/// Whether `error` tells of the first of `documents` that is no YAML.
pub open spec fn reports(error: CliError, documents: Seq<Seq<char>>, file: Seq<char>) -> bool {
    match error {
        CliError::ProcessingError(text) => exists|index: int, detail: Seq<char>|
            tells_of(text@, documents, file, index, detail),
        _ => false,
    }
}

/// Whether every one of `documents` is YAML.
pub open spec fn all_readable(documents: Seq<Seq<char>>) -> bool {
    forall|i: int| 0 <= i < documents.len() ==> yaml_reading(#[trigger] documents[i]) is Some
}

/// Whether `r` is what the validation of `content` gives: success where
/// every document is YAML, else an error that tells of the first
/// document that is not.
pub open spec fn is_validation(r: Result<(), CliError>, content: Seq<char>, file: Seq<char>) -> bool {
    match r {
        Ok(_) => all_readable(documents_of(content)),
        Err(e) => reports(e, documents_of(content), file),
    }
}

/// An error that tells of the first document that is no YAML is what the
/// validation gives.
proof fn lemma_validation_failure(
    text: String,
    content: Seq<char>,
    file: Seq<char>,
    index: int,
    detail: Seq<char>,
)
    requires
        tells_of(text@, documents_of(content), file, index, detail),
    ensures
        is_validation(Err(CliError::ProcessingError(text)), content, file),
{
    let error = CliError::ProcessingError(text);
    assert(error->ProcessingError_0@ == text@);
    assert(reports(error, documents_of(content), file));
}

/// The documents of a text: its pieces between lines of three dashes,
/// without those that hold nothing but white space.
pub fn yaml_documents(content: &str) -> (documents: Vec<String>)
    ensures
        names_view(documents@) == documents_of(content@),
{
    let chars = chars_of(content);
    let separator = chars_of("\n---\n");
    proof {
        reveal_strlit("\n---\n");
    }
    let pieces = split_text(&chars, &separator);
    let ghost all = parts_view(pieces@);
    let mut documents: Vec<String> = Vec::new();
    let mut i: usize = 0;
    proof {
        assert(names_view(documents@) =~= filled(all, 0));
    }
    while i < pieces.len()
        invariant
            i <= pieces.len(),
            all == parts_view(pieces@),
            names_view(documents@) == filled(all, i as nat),
        decreases pieces.len() - i,
    {
        let ghost before = names_view(documents@);
        if !is_blank(&pieces[i]) {
            documents.push(string_of(&pieces[i]));
            proof {
                assert(names_view(documents@) =~= before.push(pieces@[i as int]@));
            }
        }
        i += 1;
    }
    documents
}

/// The error for the document at `index` of `count` that is no YAML,
/// with `detail` being what the reader said of it.
pub fn yaml_failure(file_path: &str, count: usize, index: usize, detail: &str) -> (r: CliError)
    requires
        index < count,
    ensures
        r matches CliError::ProcessingError(text) && text@ == yaml_failure_message(
            file_path@,
            count as nat,
            index as nat,
            detail@,
        ),
{
    let mut text = String::from_str("YAML validation failed for '");
    text.append(file_path);
    text.append("'");
    if count > 1 {
        text.append(" (document ");
        push_decimal(&mut text, index + 1);
        text.append(")");
    } else {
        proof {
            assert("YAML validation failed for '"@ + file_path@ + "'"@ + Seq::<char>::empty()
                =~= "YAML validation failed for '"@ + file_path@ + "'"@);
        }
    }
    text.append(": ");
    text.append(detail);
    text.append(
        "\n\nThe generated YAML has invalid syntax. This usually means:\n- A variable substitution resulted in invalid YAML structure\n- Missing or incorrect indentation\n- Unquoted special characters\n\nPlease check your template and variable values.",
    );
    CliError::ProcessingError(text)
}

/// Checks that every document of `content` is YAML. A text without
/// documents passes.
pub fn validate_yaml(content: &str, file_path: &str) -> (r: Result<(), CliError>)
    ensures
        is_validation(r, content@, file_path@),
{
    let documents = yaml_documents(content);
    let ghost texts = documents_of(content@);
    let mut index: usize = 0;
    while index < documents.len()
        invariant
            index <= documents.len(),
            texts == names_view(documents@),
            texts == documents_of(content@),
            forall|i: int| 0 <= i < index ==> yaml_reading(#[trigger] texts[i]) is Some,
        decreases documents.len() - index,
    {
        match parse_yaml(documents[index].as_str()) {
            Ok(_) => {},
            Err(e) => {
                let detail = e.to_string();
                let error = yaml_failure(file_path, documents.len(), index, detail.as_str());
                proof {
                    assert(texts[index as int] == documents@[index as int]@);
                    assert(yaml_reading(texts[index as int]) is None);
                    lemma_validation_failure(
                        error->ProcessingError_0,
                        content@,
                        file_path@,
                        index as int,
                        detail@,
                    );
                }
                return Err(error);
            },
        }
        proof {
            assert(texts[index as int] == documents@[index as int]@);
        }
        index += 1;
    }
    Ok(())
}

/// Whether `r` is what rendering `template` against `context` gives: the
/// text that the renderer makes of them; or, where the renderer fails,
/// the error made from what it says; or, for a template that includes
/// other templates, the error that says so.
pub open spec fn is_rendering(
    r: Result<String, CliError>,
    template: Seq<char>,
    context: &VariableContext,
) -> bool {
    match r {
        Ok(text) => rendered_text(template, context) == Some(text@),
        Err(e) => rendered_text(template, context) is None && failed_rendering(
            e,
            template,
            context,
        ),
    }
}

/// The determinism law. Two renderings of one template against one
/// variable space both succeed or both fail. Where they succeed they give
/// the same text, and where they fail they give the same error: of one
/// kind and with the same texts.
pub proof fn lemma_rendering_deterministic(
    first: Result<String, CliError>,
    second: Result<String, CliError>,
    template: Seq<char>,
    context: &VariableContext,
)
    requires
        is_rendering(first, template, context),
        is_rendering(second, template, context),
    ensures
        first is Ok <==> second is Ok,
        first is Ok ==> first.unwrap()@ == second.unwrap()@,
        first matches Err(a) ==> second matches Err(b) && same_error(a, b),
{
}

/// Whether `r` is what becomes of a template file against the variable
/// space, given its text, or the reason why it could not be read. A file
/// that could not be read is an error that says so. A file whose
/// template renders becomes a file with the same relative path and the
/// rendered text, unless it is structured markup and the rendered text
/// is no YAML: then `r` is the error of the validation. A file whose
/// template does not render is the error of the renderer, with its
/// advice.
pub open spec fn is_processed(
    r: Result<ProcessedFile, CliError>,
    read: Result<String, String>,
    template_file: TemplateFile,
    context: &VariableContext,
) -> bool {
    match read {
        Err(cause) => r matches Err(CliError::ProcessingError(text)) && text@
            == "Failed to read template file '"@ + template_file.path@ + "': "@ + cause@,
        Ok(content) => match r {
            Ok(file) => file.relative_path@ == template_file.relative_path@ && rendered_text(
                content@,
                context,
            ) == Some(file.content@) && (template_file.file_type == TemplateFileType::Yaml
                ==> is_validation(Ok(()), file.content@, template_file.relative_path@)),
            Err(e) => match rendered_text(content@, context) {
                None => failed_rendering(e, content@, context),
                Some(text) => template_file.file_type == TemplateFileType::Yaml && is_validation(
                    Err(e),
                    text,
                    template_file.relative_path@,
                ),
            },
        },
    }
}

/// Renders templates against one variable space.
pub struct TemplateProcessor<'a> {
    context: &'a VariableContext,
    handlebars: handlebars::Handlebars<'static>,
}

impl<'a> TemplateProcessor<'a> {
    /// The variable space that templates are rendered against.
    pub closed spec fn context(&self) -> &VariableContext {
        self.context
    }

    /// The variable space is well formed and the renderer is set up as
    /// the library sets it up.
    pub closed spec fn wf(&self) -> bool {
        self.context.wf() && engine_setup(self.handlebars) == library_setup()
    }

    /// A processor for the variable space `context`, with a renderer for
    /// which a reference to a value that is not there is no error, which
    /// writes values as they are, and which has the library's helpers.
    pub fn new(context: &'a VariableContext) -> (r: TemplateProcessor<'a>)
        requires
            context.wf(),
        ensures
            r.wf(),
            r.context() == context,
    {
        let mut handlebars = engine_new();
        engine_set_strict_mode(&mut handlebars, false);
        engine_disable_escaping(&mut handlebars);
        engine_register_helper(&mut handlebars, HelperKind::Default.name(), HelperKind::Default);
        engine_register_helper(&mut handlebars, HelperKind::Uppercase.name(), HelperKind::Uppercase);
        engine_register_helper(&mut handlebars, HelperKind::Lowercase.name(), HelperKind::Lowercase);
        engine_register_helper(
            &mut handlebars,
            HelperKind::Capitalize.name(),
            HelperKind::Capitalize,
        );
        engine_register_helper(&mut handlebars, HelperKind::Trim.name(), HelperKind::Trim);
        engine_register_helper(&mut handlebars, HelperKind::Replace.name(), HelperKind::Replace);
        TemplateProcessor { context, handlebars }
    }

    /// Renders a template: each reference is replaced by the value it
    /// resolves to in the variable space. Where the renderer fails, the
    /// error says where to look. A template that includes other
    /// templates, by a partial or a decorator, is refused.
    pub fn process_template(&self, template_content: &str) -> (r: Result<String, CliError>)
        requires
            self.wf(),
        ensures
            is_rendering(r, template_content@, self.context()),
    {
        if has_inclusion(template_content) {
            return Err(
                CliError::ProcessingError(
                    String::from_str(
                        "Template processing failed: partials and decorators are not supported. Remove every {{> name}}, {{#> name}}, {{* name}} and {{#* name}} from the template.",
                    ),
                ),
            );
        }
        let data = to_json(&nested(self.context));
        match engine_render(&self.handlebars, template_content, &data) {
            Ok(text) => Ok(text),
            Err(message) => {
                let names = self.context.paths();
                proof {
                    assert(names_view(names@) =~= paths_of(self.context().entries()));
                }
                let error = enhance_template_error(message.as_str(), template_content, &names);
                proof {
                    assert(is_enhancement(
                        error,
                        message@,
                        template_content@,
                        paths_of(self.context().entries()),
                    ));
                }
                Err(error)
            },
        }
    }

    /// What is suggested for a name that resolved to nothing: the known
    /// paths that look like it.
    pub fn suggest_similar_variables(&self, var_name: &str) -> (r: String)
        requires
            self.wf(),
        ensures
            r@ == suggestion_text(paths_of(self.context().entries()), var_name@),
    {
        let names = self.context.paths();
        proof {
            assert(names_view(names@) =~= paths_of(self.context().entries()));
        }
        suggest(&names, var_name)
    }

    /// The edit distance of two names.
    pub fn levenshtein_distance(&self, s1: &str, s2: &str) -> (r: usize)
        ensures
            r == edit_distance(s1@, s2@),
    {
        levenshtein_distance(s1, s2)
    }

    /// Whether a known name looks like the name that was searched for.
    pub fn is_similar(&self, search: &str, candidate: &str) -> (r: bool)
        ensures
            r == similar(search@, candidate@),
    {
        is_similar(search, candidate)
    }

    /// The line number that a message of the renderer gives.
    pub fn extract_line_number(&self, error_msg: &str) -> (r: Option<usize>)
        ensures
            match r {
                Some(n) => line_number_in(error_msg@) == Some(n as nat),
                None => line_number_in(error_msg@) is None,
            },
    {
        extract_line_number(error_msg)
    }

    /// The variable that a message of the renderer names.
    pub fn extract_variable_name(&self, error_msg: &str) -> (r: Option<String>)
        ensures
            match r {
                Some(name) => variable_name_in(error_msg@) == Some(name@),
                None => variable_name_in(error_msg@) is None,
            },
    {
        extract_variable_name(error_msg)
    }

    /// Line `line_num` of the template, counted from one.
    pub fn get_template_line(&self, template_content: &str, line_num: usize) -> (r: String)
        ensures
            r@ == template_line(template_content@, line_num as nat),
    {
        get_template_line(template_content, line_num)
    }

    /// Checks that every document of `content` is YAML.
    pub fn validate_yaml(&self, content: &str, file_path: &str) -> (r: Result<(), CliError>)
        ensures
            is_validation(r, content@, file_path@),
    {
        validate_yaml(content, file_path)
    }

    /// Renders the template file that was read, or could not be read,
    /// and, for structured markup, checks that what comes out is YAML.
    ///
    /// `read` is the text of the file, or the reason why it could not be
    /// read.
    pub fn process_file(&self, template_file: &TemplateFile, read: Result<String, String>) -> (r:
        Result<ProcessedFile, CliError>)
        requires
            self.wf(),
        ensures
            is_processed(r, read, *template_file, self.context()),
    {
        let content = match read {
            Ok(content) => content,
            Err(cause) => {
                let mut text = String::from_str("Failed to read template file '");
                text.append(template_file.path.as_str());
                text.append("': ");
                text.append(cause.as_str());
                return Err(CliError::ProcessingError(text));
            },
        };
        let processed = match self.process_template(content.as_str()) {
            Ok(text) => text,
            Err(e) => {
                return Err(e);
            },
        };
        if template_file.file_type == TemplateFileType::Yaml {
            match validate_yaml(processed.as_str(), template_file.relative_path.as_str()) {
                Ok(_) => {},
                Err(e) => {
                    return Err(e);
                },
            }
        }
        Ok(ProcessedFile { relative_path: template_file.relative_path.clone(), content: processed })
    }
}

} // verus!
