//! From the templates of a directory to the files on the disk: the
//! templates are found, each is rendered, and the rendered files are
//! written. The first failure ends the run; what was written before it
//! stays.

use vstd::prelude::*;
use vstd::string::StringExecFns;
use crate::error::CliError;
use crate::file_writer::{
    all_written, overwrite_warning, warns_of, writing_stopped, FileWriter, StepOutcome, WriteJob,
    WriteStep,
};
use crate::template_discovery::{
    discovered, files_view, DiscoveryError, DiscoveryFailure, TemplateDiscovery, TemplateFile,
    TemplateFileType, WalkEvent,
};
use crate::template_processor::{is_processed, ProcessedFile, TemplateProcessor};
use crate::variable_context::VariableContext;

verus! {

/// Why a run generated no files, by the stage that failed.
#[derive(Debug)]
pub enum GenerateError {
    /// The templates could not be searched for.
    Discovery(DiscoveryError),
    /// The search found no template.
    NoTemplates,
    /// A template could not be read or rendered, or what it rendered to
    /// is not valid.
    Processing(CliError),
    /// A rendered file could not be written.
    Writing(CliError),
}

/// `read` was asked for the text of the file, and `r` is what became of
/// the file given what `read` answered.
pub open spec fn processed_by<R: Fn(&TemplateFile) -> Result<String, String>>(
    read: &R,
    file: TemplateFile,
    context: &VariableContext,
    r: Result<ProcessedFile, CliError>,
) -> bool {
    exists|got: Result<String, String>| #[trigger]
        call_ensures(read, (&file,), got) && is_processed(r, got, file, context)
}

/// Every one of `files` was read and rendered, and `processed` holds
/// what they became, in their order.
pub open spec fn all_processed<R: Fn(&TemplateFile) -> Result<String, String>>(
    read: &R,
    files: Seq<TemplateFile>,
    context: &VariableContext,
    processed: Seq<ProcessedFile>,
) -> bool {
    processed.len() == files.len() && forall|i: int|
        0 <= i < files.len() ==> processed_by(read, files[i], context, Ok(#[trigger] processed[i]))
}

/// One of `files` failed with `e`, after every file before it was read
/// and rendered.
pub open spec fn processing_stopped<R: Fn(&TemplateFile) -> Result<String, String>>(
    read: &R,
    files: Seq<TemplateFile>,
    context: &VariableContext,
    e: CliError,
) -> bool {
    exists|i: int, before: Seq<ProcessedFile>|
        0 <= i < files.len() && #[trigger] all_processed(read, files.take(i), context, before)
            && processed_by(read, files[i], context, Err(e))
}

/// How a run over the template files `files` ended, as `r` says: with
/// the paths of the written files, where every file was rendered and
/// then every rendered file was written; with the error of the first
/// file that was not rendered, and then nothing was written; or with the
/// error of the first file that was not written.
pub open spec fn files_generated<
    R: Fn(&TemplateFile) -> Result<String, String>,
    P: Fn(&WriteJob, WriteStep) -> StepOutcome,
>(
    r: Result<Vec<String>, GenerateError>,
    files: Seq<TemplateFile>,
    context: &VariableContext,
    read: &R,
    writer: &FileWriter,
    perform: &P,
) -> bool {
    match r {
        Ok(written) => exists|processed: Seq<ProcessedFile>| #[trigger]
            all_processed(read, files, context, processed) && all_written(
                writer,
                perform,
                processed,
                written@,
            ),
        Err(GenerateError::Processing(e)) => processing_stopped(read, files, context, e),
        Err(GenerateError::Writing(e)) => exists|processed: Seq<ProcessedFile>| #[trigger]
            all_processed(read, files, context, processed) && writing_stopped(
                writer,
                perform,
                processed,
                e,
            ),
        _ => false,
    }
}

/// How a run ended, as `r` says, given what the search for templates
/// came to. A search that failed is the error of the search. A search
/// that found nothing is an error of its own. Else `r` is how the run
/// over the templates that were found ended.
pub open spec fn is_generated<
    R: Fn(&TemplateFile) -> Result<String, String>,
    P: Fn(&WriteJob, WriteStep) -> StepOutcome,
>(
    r: Result<Vec<String>, GenerateError>,
    search: Result<Seq<(Seq<char>, Seq<char>, TemplateFileType)>, DiscoveryFailure>,
    context: &VariableContext,
    read: &R,
    writer: &FileWriter,
    perform: &P,
) -> bool {
    match search {
        Err(failure) => r matches Err(GenerateError::Discovery(e)) && e@ == failure,
        Ok(templates) => if templates.len() == 0 {
            r matches Err(GenerateError::NoTemplates)
        } else {
            exists|files: Seq<TemplateFile>|
                files_view(files) == templates && #[trigger] files_generated(
                    r,
                    files,
                    context,
                    read,
                    writer,
                    perform,
                )
        },
    }
}

/// Whether a line warns that some target is overwritten.
pub open spec fn is_overwrite_warning(line: Seq<char>) -> bool {
    exists|target: Seq<char>| line == #[trigger] overwrite_warning(target)
}

/// Reads and renders the template files, one after the other. The first
/// file that fails ends the work with its error.
///
/// `read` gives the text of a template file, or the reason why it could
/// not be read.
pub fn process_all<'a, R: Fn(&TemplateFile) -> Result<String, String>>(
    processor: &TemplateProcessor<'a>,
    files: &Vec<TemplateFile>,
    read: &R,
) -> (r: Result<Vec<ProcessedFile>, CliError>)
    requires
        processor.wf(),
        forall|f: &TemplateFile| call_requires(read, (f,)),
    ensures
        match r {
            Ok(processed) => all_processed(read, files@, processor.context(), processed@),
            Err(e) => processing_stopped(read, files@, processor.context(), e),
        },
{
    let mut processed: Vec<ProcessedFile> = Vec::new();
    let mut i: usize = 0;
    while i < files.len()
        invariant
            i <= files.len(),
            processor.wf(),
            forall|f: &TemplateFile| call_requires(read, (f,)),
            all_processed(read, files@.take(i as int), processor.context(), processed@),
        decreases files.len() - i,
    {
        let got = read(&files[i]);
        let ghost answer = got;
        let ghost before = processed@;
        let outcome = processor.process_file(&files[i], got);
        proof {
            assert(call_ensures(read, (&files@[i as int],), answer));
            assert(processed_by(read, files@[i as int], processor.context(), outcome));
        }
        match outcome {
            Ok(file) => {
                processed.push(file);
            },
            Err(e) => {
                return Err(e);
            },
        }
        proof {
            let longer = files@.take(i + 1);
            assert forall|k: int| 0 <= k < longer.len() implies processed_by(
                read,
                longer[k],
                processor.context(),
                Ok(#[trigger] processed@[k]),
            ) by {
                if k < i {
                    assert(files@.take(i as int)[k] == longer[k]);
                    assert(before[k] == processed@[k]);
                }
            }
        }
        i += 1;
    }
    proof {
        assert(files@.take(i as int) =~= files@);
    }
    Ok(processed)
}

/// One run: searches for the templates, renders each against the
/// variable space of the processor, and writes what they rendered to
/// under the directory of the writer. Gives the paths of the files that
/// were written, in the order in which the templates were found.
///
/// `exists`, `is_dir` and `events` say what is at the path of the
/// template directory and what a walk of it reported; `read` gives the
/// text of a template file; `perform` takes one step on the disk. The
/// warnings that are added to `warnings` each tell of a target that was
/// there before; a run that ends before anything is written leaves them
/// as they are.
pub fn generate_files<
    'a,
    R: Fn(&TemplateFile) -> Result<String, String>,
    P: Fn(&WriteJob, WriteStep) -> StepOutcome,
>(
    discovery: &TemplateDiscovery,
    exists: bool,
    is_dir: bool,
    events: &Vec<WalkEvent>,
    processor: &TemplateProcessor<'a>,
    read: R,
    writer: &FileWriter,
    perform: P,
    warnings: &mut Vec<String>,
) -> (r: Result<Vec<String>, GenerateError>)
    requires
        processor.wf(),
        forall|f: &TemplateFile| call_requires(read, (f,)),
        forall|j: &WriteJob, s: WriteStep| call_requires(perform, (j, s)),
    ensures
        is_generated(
            r,
            discovered(discovery.template_dir@, exists, is_dir, events@),
            processor.context(),
            &read,
            writer,
            &perform,
        ),
        final(warnings)@.take(old(warnings)@.len() as int) == old(warnings)@,
        !(r is Ok || r matches Err(GenerateError::Writing(_))) ==> final(warnings)@ == old(
            warnings,
        )@,
        forall|k: int|
            old(warnings)@.len() <= k < final(warnings)@.len() ==> is_overwrite_warning(
                #[trigger] final(warnings)@[k]@,
            ),
{
    proof {
        assert(warnings@.take(warnings@.len() as int) =~= warnings@);
    }
    let files = match discovery.discover_templates(exists, is_dir, events) {
        Ok(files) => files,
        Err(e) => {
            return Err(GenerateError::Discovery(e));
        },
    };
    if files.len() == 0 {
        return Err(GenerateError::NoTemplates);
    }
    let processed = match process_all(processor, &files, &read) {
        Ok(processed) => processed,
        Err(e) => {
            let r = Err(GenerateError::Processing(e));
            proof {
                assert(files_generated(r, files@, processor.context(), &read, writer, &perform));
            }
            return r;
        },
    };
    let r = match writer.write_each(&processed, &perform, warnings) {
        Ok(written) => Ok(written),
        Err(e) => Err(GenerateError::Writing(e)),
    };
    proof {
        assert(files_generated(r, files@, processor.context(), &read, writer, &perform));
        assert forall|k: int| old(warnings)@.len() <= k < warnings@.len() implies is_overwrite_warning(
            #[trigger] warnings@[k]@,
        ) by {
            assert(warns_of(writer, &perform, processed@, warnings@[k]@));
        }
    }
    r
}

impl GenerateError {
    /// The error that the command reports for a run over the templates
    /// of `template_dir` that ended with this one: the error of a
    /// template as it is, the others with a line that says what failed.
    pub fn into_cli_error(self, template_dir: &str) -> (r: CliError)
        ensures
            match self {
                GenerateError::Discovery(e) => r matches CliError::DiscoveryError(text) && text@
                    == "Failed to discover templates in '"@ + template_dir@ + "': "@
                    + e.message_spec(),
                GenerateError::NoTemplates => r matches CliError::DiscoveryError(text) && text@
                    == "No template files found in '"@ + template_dir@
                    + "'. Expected files with extensions: .tf, .yaml, .yml, .json"@,
                GenerateError::Processing(e) => r == e,
                GenerateError::Writing(e) => r matches CliError::IoError(text) && text@
                    == "Failed to write processed files: "@ + e.message_spec(),
            },
    {
        match self {
            GenerateError::Discovery(e) => {
                let mut text = String::from_str("Failed to discover templates in '");
                text.append(template_dir);
                text.append("': ");
                text.append(e.message().as_str());
                CliError::DiscoveryError(text)
            },
            GenerateError::NoTemplates => {
                let mut text = String::from_str("No template files found in '");
                text.append(template_dir);
                text.append("'. Expected files with extensions: .tf, .yaml, .yml, .json");
                CliError::DiscoveryError(text)
            },
            GenerateError::Processing(e) => e,
            GenerateError::Writing(e) => {
                let mut text = String::from_str("Failed to write processed files: ");
                text.append(e.message().as_str());
                CliError::IoError(text)
            },
        }
    }
}

} // verus!
