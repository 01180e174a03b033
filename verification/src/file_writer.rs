//! Writing rendered files: where each file goes, the steps that put it
//! there, and what to do when a step fails.

use vstd::prelude::*;
use vstd::string::StringExecFns;
use crate::error::CliError;
use crate::paths::{join, join_paths, parent_of, parent_path, temporary_of, temporary_path};
use crate::template_processor::ProcessedFile;

verus! {

/// One file to write.
#[derive(Debug, PartialEq, Eq)]
pub struct WriteJob {
    /// Where the file goes.
    pub target: String,
    /// The directory that must exist before, if the target has one.
    pub parent: Option<String>,
    /// The file beside the target that is written first.
    pub temporary: String,
    /// The text of the file.
    pub content: String,
}

/// A step in the writing of one file.
#[derive(Debug, Clone, Copy, PartialEq, Eq, Structural)]
pub enum WriteStep {
    /// Create the parent directory, and those above it, unless it exists.
    EnsureDirectory,
    /// Look whether the target exists.
    CheckTarget,
    /// Write the text to the temporary file.
    WriteTemporary,
    /// Let only the owner read and write the temporary file.
    RestrictPermissions,
    /// Rename the temporary file to the target, in one move.
    Rename,
    /// Delete the temporary file after a rename that failed.
    RemoveTemporary,
}

/// How a step ended.
#[derive(Debug, PartialEq, Eq)]
pub enum StepOutcome {
    /// It was done.
    Done,
    /// The target was looked for: whether it exists.
    Exists(bool),
    /// It failed, with the text of the failure.
    Failed(String),
}

/// What to do after a step.
#[derive(Debug, PartialEq, Eq)]
pub enum Decision {
    /// Go on with this step.
    Next(WriteStep),
    /// Show this warning, then go on with this step.
    Warn(String, WriteStep),
    /// The file is written.
    Finished,
    /// Take this step, whatever comes of it, then give up with this
    /// error.
    Abandon(WriteStep, CliError),
    /// Give up with this error.
    Fail(CliError),
}

/// The same as the proofs see it.
pub enum DecisionView {
    Next(WriteStep),
    Warn(Seq<char>, WriteStep),
    Finished,
    AbandonIo(WriteStep, Seq<char>),
    FailIo(Seq<char>),
    Other,
}

impl View for Decision {
    type V = DecisionView;

    open spec fn view(&self) -> DecisionView {
        match self {
            Decision::Next(s) => DecisionView::Next(*s),
            Decision::Warn(w, s) => DecisionView::Warn(w@, *s),
            Decision::Finished => DecisionView::Finished,
            Decision::Abandon(s, CliError::IoError(m)) => DecisionView::AbandonIo(*s, m@),
            Decision::Fail(CliError::IoError(m)) => DecisionView::FailIo(m@),
            _ => DecisionView::Other,
        }
    }
}

/// The step that the writing of a file starts with.
pub open spec fn first_step(parent: Option<Seq<char>>) -> WriteStep {
    if parent is Some {
        WriteStep::EnsureDirectory
    } else {
        WriteStep::CheckTarget
    }
}

/// What follows a step of the writing of a file, given how it ended.
///
/// The steps follow each other in the order directory, look, write,
/// permissions, rename. A target that exists gives a warning and is
/// overwritten. A step that fails ends the writing with an error that
/// names what failed; after a failed rename the temporary file is deleted
/// first.
pub open spec fn decide(
    target: Seq<char>,
    parent: Option<Seq<char>>,
    temporary: Seq<char>,
    step: WriteStep,
    failure: Option<Seq<char>>,
    exists: bool,
) -> DecisionView {
    match step {
        WriteStep::EnsureDirectory => match failure {
            Some(e) => DecisionView::FailIo(
                "Failed to create directory "@ + (match parent {
                    Some(p) => p,
                    None => Seq::empty(),
                }) + ": "@ + e,
            ),
            None => DecisionView::Next(WriteStep::CheckTarget),
        },
        WriteStep::CheckTarget => if failure is None && exists {
            DecisionView::Warn(
                "Warning: Overwriting existing file: "@ + target,
                WriteStep::WriteTemporary,
            )
        } else {
            DecisionView::Next(WriteStep::WriteTemporary)
        },
        WriteStep::WriteTemporary => match failure {
            Some(e) => DecisionView::FailIo(
                "Failed to write temporary file "@ + temporary + ": "@ + e,
            ),
            None => DecisionView::Next(WriteStep::RestrictPermissions),
        },
        WriteStep::RestrictPermissions => match failure {
            Some(e) => DecisionView::FailIo(e),
            None => DecisionView::Next(WriteStep::Rename),
        },
        WriteStep::Rename => match failure {
            Some(e) => DecisionView::AbandonIo(
                WriteStep::RemoveTemporary,
                "Failed to rename "@ + temporary + " to "@ + target + ": "@ + e,
            ),
            None => DecisionView::Finished,
        },
        WriteStep::RemoveTemporary => DecisionView::Finished,
    }
}

impl StepOutcome {
    /// The text of the failure, where the step failed.
    pub open spec fn failure(self) -> Option<Seq<char>> {
        match self {
            StepOutcome::Failed(e) => Some(e@),
            _ => None,
        }
    }

    /// Whether the step found the target.
    pub open spec fn found(self) -> bool {
        self == StepOutcome::Exists(true)
    }
}

impl WriteJob {
    /// The step that the writing of this file starts with.
    pub fn start(&self) -> (r: WriteStep)
        ensures
            r == first_step(
                match self.parent {
                    Some(p) => Some(p@),
                    None => None,
                },
            ),
    {
        match &self.parent {
            Some(_) => WriteStep::EnsureDirectory,
            None => WriteStep::CheckTarget,
        }
    }

    /// What follows `step`, given how it ended.
    pub fn after(&self, step: WriteStep, outcome: &StepOutcome) -> (r: Decision)
        ensures
            r@ == decide(
                self.target@,
                match self.parent {
                    Some(p) => Some(p@),
                    None => None,
                },
                self.temporary@,
                step,
                outcome.failure(),
                outcome.found(),
            ),
    {
        match step {
            WriteStep::EnsureDirectory => match outcome {
                StepOutcome::Failed(e) => {
                    let mut m = String::from_str("Failed to create directory ");
                    match &self.parent {
                        Some(p) => {
                            m.append(p.as_str());
                        },
                        None => {
                            assert("Failed to create directory "@ + Seq::<char>::empty()
                                =~= "Failed to create directory "@);
                        },
                    }
                    m.append(": ");
                    m.append(e.as_str());
                    Decision::Fail(CliError::IoError(m))
                },
                _ => Decision::Next(WriteStep::CheckTarget),
            },
            WriteStep::CheckTarget => match outcome {
                StepOutcome::Exists(true) => {
                    let w = String::from_str("Warning: Overwriting existing file: ").concat(
                        self.target.as_str(),
                    );
                    Decision::Warn(w, WriteStep::WriteTemporary)
                },
                _ => Decision::Next(WriteStep::WriteTemporary),
            },
            WriteStep::WriteTemporary => match outcome {
                StepOutcome::Failed(e) => {
                    let mut m = String::from_str("Failed to write temporary file ");
                    m.append(self.temporary.as_str());
                    m.append(": ");
                    m.append(e.as_str());
                    Decision::Fail(CliError::IoError(m))
                },
                _ => Decision::Next(WriteStep::RestrictPermissions),
            },
            WriteStep::RestrictPermissions => match outcome {
                StepOutcome::Failed(e) => Decision::Fail(CliError::IoError(e.clone())),
                _ => Decision::Next(WriteStep::Rename),
            },
            WriteStep::Rename => match outcome {
                StepOutcome::Failed(e) => {
                    let mut m = String::from_str("Failed to rename ");
                    m.append(self.temporary.as_str());
                    m.append(" to ");
                    m.append(self.target.as_str());
                    m.append(": ");
                    m.append(e.as_str());
                    Decision::Abandon(WriteStep::RemoveTemporary, CliError::IoError(m))
                },
                _ => Decision::Finished,
            },
            WriteStep::RemoveTemporary => Decision::Finished,
        }
    }
}

/// Writes rendered files under one output directory.
#[derive(Debug)]
pub struct FileWriter {
    output_dir: String,
}

/// The job for the file `relative` with the text `content`, under
/// `output_dir`: target, parent, temporary file and text.
pub open spec fn job_of(output_dir: Seq<char>, relative: Seq<char>, content: Seq<char>) -> (
    Seq<char>,
    Option<Seq<char>>,
    Seq<char>,
    Seq<char>,
) {
    let target = join(output_dir, relative);
    (target, parent_of(target), temporary_of(target), content)
}

impl WriteJob {
    /// The job as the proofs see it.
    pub open spec fn view(&self) -> (Seq<char>, Option<Seq<char>>, Seq<char>, Seq<char>) {
        (
            self.target@,
            match self.parent {
                Some(p) => Some(p@),
                None => None,
            },
            self.temporary@,
            self.content@,
        )
    }
}

/// The place of a step in the order of the steps.
pub open spec fn rank(step: WriteStep) -> int {
    match step {
        WriteStep::EnsureDirectory => 0,
        WriteStep::CheckTarget => 1,
        WriteStep::WriteTemporary => 2,
        WriteStep::RestrictPermissions => 3,
        WriteStep::Rename => 4,
        WriteStep::RemoveTemporary => 5,
    }
}

/// The step that a decision goes on with, if it goes on.
pub open spec fn next_step(decision: DecisionView) -> Option<WriteStep> {
    match decision {
        DecisionView::Next(step) => Some(step),
        DecisionView::Warn(_, step) => Some(step),
        _ => None,
    }
}

/// The steps only go forward: the writing of a file takes six steps at
/// most.
pub proof fn lemma_steps_go_forward(
    target: Seq<char>,
    parent: Option<Seq<char>>,
    temporary: Seq<char>,
    step: WriteStep,
    failure: Option<Seq<char>>,
    exists: bool,
)
    ensures
        match next_step(decide(target, parent, temporary, step, failure, exists)) {
            Some(next) => rank(next) == rank(step) + 1 && next != WriteStep::RemoveTemporary && (
            step == WriteStep::CheckTarget || failure is None),
            None => true,
        },
        failure is None ==> !(decide(target, parent, temporary, step, failure, exists)
            is FailIo) && !(decide(target, parent, temporary, step, failure, exists)
            is AbandonIo),
        decide(target, parent, temporary, step, failure, exists) is Finished ==> step
            == WriteStep::Rename || step == WriteStep::RemoveTemporary,
        decide(target, parent, temporary, step, failure, exists) is Warn ==> step
            == WriteStep::CheckTarget && exists,
{
}

/// A file on a disk: its text, and whether only its owner may read and
/// write it.
pub struct DiskFile {
    pub content: Seq<char>,
    pub owner_only: bool,
}

/// A disk as far as the writing of files goes: the files by their paths,
/// the directories that are there, and the directories that were made,
/// in the order in which they were made.
pub struct Disk {
    pub files: Map<Seq<char>, DiskFile>,
    pub directories: Set<Seq<char>>,
    pub made: Seq<Seq<char>>,
}

/// The disk after a step was taken and did what it is there for. The
/// step for the directory makes the directory only where it is not
/// there.
pub open spec fn effect(
    disk: Disk,
    target: Seq<char>,
    parent: Option<Seq<char>>,
    temporary: Seq<char>,
    content: Seq<char>,
    step: WriteStep,
) -> Disk {
    match step {
        WriteStep::EnsureDirectory => match parent {
            Some(p) => if disk.directories.contains(p) {
                disk
            } else {
                Disk { directories: disk.directories.insert(p), made: disk.made.push(p), ..disk }
            },
            None => disk,
        },
        WriteStep::CheckTarget => disk,
        WriteStep::WriteTemporary => Disk {
            files: disk.files.insert(temporary, DiskFile { content, owner_only: false }),
            ..disk
        },
        WriteStep::RestrictPermissions => Disk {
            files: disk.files.insert(
                temporary,
                DiskFile { content: disk.files[temporary].content, owner_only: true },
            ),
            ..disk
        },
        WriteStep::Rename => Disk {
            files: disk.files.remove(temporary).insert(target, disk.files[temporary]),
            ..disk
        },
        WriteStep::RemoveTemporary => Disk { files: disk.files.remove(temporary), ..disk },
    }
}

/// The disk after the steps from `step` on were taken, each doing what
/// it is there for, until the file is written.
pub open spec fn after_steps(
    disk: Disk,
    target: Seq<char>,
    parent: Option<Seq<char>>,
    temporary: Seq<char>,
    content: Seq<char>,
    step: WriteStep,
) -> Disk
    decreases 6 - rank(step),
{
    let now = effect(disk, target, parent, temporary, content, step);
    match next_step(
        decide(target, parent, temporary, step, None, disk.files.contains_key(target)),
    ) {
        Some(next) => if rank(next) > rank(step) {
            after_steps(now, target, parent, temporary, content, next)
        } else {
            now
        },
        None => now,
    }
}

/// The atomicity law, on a disk where each step does what it is there
/// for. After the steps of a file were taken without a failure, the
/// target holds the text of the file and only its owner may read and
/// write it, the temporary file is gone, and every other file is as it
/// was. This is for a target that is not its own temporary file.
pub proof fn lemma_written_without_residue(
    disk: Disk,
    target: Seq<char>,
    parent: Option<Seq<char>>,
    temporary: Seq<char>,
    content: Seq<char>,
)
    requires
        target != temporary,
    ensures
        ({
            let end = after_steps(disk, target, parent, temporary, content, first_step(parent));
            &&& end.files.contains_key(target)
            &&& end.files[target] == DiskFile { content, owner_only: true }
            &&& !end.files.contains_key(temporary)
            &&& forall|path: Seq<char>|
                path != target && path != temporary ==> ((#[trigger] end.files.contains_key(path))
                    == disk.files.contains_key(path) && (disk.files.contains_key(path)
                    ==> end.files[path] == disk.files[path]))
        }),
{
    reveal_with_fuel(after_steps, 6);
}

/// The directories of a disk hold each directory that was made, and none
/// was made twice.
pub open spec fn made_once(disk: Disk) -> bool {
    &&& forall|i: int| 0 <= i < disk.made.len() ==> disk.directories.contains(#[trigger] disk.made[i])
    &&& forall|i: int, j: int|
        0 <= i < j < disk.made.len() ==> (#[trigger] disk.made[i]) != (#[trigger] disk.made[j])
}

/// The law of the directory, on a disk where each step does what it is
/// there for. After the steps of a file were taken without a failure,
/// the directory of the target is there. It was made in these steps only
/// where it was not there before, and no other directory was made; no
/// directory is ever made twice.
pub proof fn lemma_directory_made_once(
    disk: Disk,
    target: Seq<char>,
    parent: Option<Seq<char>>,
    temporary: Seq<char>,
    content: Seq<char>,
)
    requires
        made_once(disk),
    ensures
        ({
            let end = after_steps(disk, target, parent, temporary, content, first_step(parent));
            &&& made_once(end)
            &&& parent matches Some(p) ==> end.directories.contains(p)
            &&& end.made == match parent {
                Some(p) => if disk.directories.contains(p) {
                    disk.made
                } else {
                    disk.made.push(p)
                },
                None => disk.made,
            }
            &&& forall|d: Seq<char>| disk.directories.contains(d) ==> end.directories.contains(d)
        }),
{
    reveal_with_fuel(after_steps, 6);
}

/// The law of the directory for the files of one call. After the steps
/// of the first `n` files were taken without a failure, the directory of
/// each of their targets is there, and no directory was made twice: a
/// directory that two files share is made for the first of them and
/// found there for the second.
pub proof fn lemma_batch_directories_made_once(disk: Disk, jobs: Seq<JobView>, n: nat)
    requires
        n <= jobs.len(),
        made_once(disk),
    ensures
        made_once(after_jobs(disk, jobs, n)),
        forall|i: int|
            0 <= i < n && (#[trigger] jobs[i]).1 is Some ==> after_jobs(
                disk,
                jobs,
                n,
            ).directories.contains(jobs[i].1->Some_0),
        forall|d: Seq<char>|
            disk.directories.contains(d) ==> after_jobs(disk, jobs, n).directories.contains(d),
    decreases n,
{
    if n > 0 {
        let before = after_jobs(disk, jobs, (n - 1) as nat);
        let job = jobs[n - 1];
        lemma_batch_directories_made_once(disk, jobs, (n - 1) as nat);
        lemma_directory_made_once(before, job.0, job.1, job.2, job.3);
    }
}

/// A file to write as the model sees it: target, parent, temporary file
/// and text.
pub type JobView = (Seq<char>, Option<Seq<char>>, Seq<char>, Seq<char>);

/// The disk after the first `n` of the jobs were done one after the
/// other, each step doing what it is there for.
pub open spec fn after_jobs(disk: Disk, jobs: Seq<JobView>, n: nat) -> Disk
    decreases n,
{
    if n == 0 || n > jobs.len() {
        disk
    } else {
        let job = jobs[n - 1];
        after_steps(
            after_jobs(disk, jobs, (n - 1) as nat),
            job.0,
            job.1,
            job.2,
            job.3,
            first_step(job.1),
        )
    }
}

/// The jobs go to different targets, and no temporary file of one is the
/// target of one.
pub open spec fn apart(jobs: Seq<JobView>) -> bool {
    &&& forall|i: int, j: int|
        0 <= i < j < jobs.len() ==> (#[trigger] jobs[i]).0 != (#[trigger] jobs[j]).0
    &&& forall|i: int, j: int|
        0 <= i < jobs.len() && 0 <= j < jobs.len() ==> (#[trigger] jobs[i]).2 != (
        #[trigger] jobs[j]).0
}

/// The atomicity law for the files of one call, on a disk where each
/// step does what it is there for. Let the files go to different
/// targets, none of which is the temporary file of one of them. After
/// the steps of the first `n` files were taken without a failure, each
/// of their targets holds the text of its file and only its owner may
/// read and write it, whether or not the target was there before; none
/// of their temporary files is left; and every other file is as it was.
pub proof fn lemma_batch_written_without_residue(disk: Disk, jobs: Seq<JobView>, n: nat)
    requires
        n <= jobs.len(),
        apart(jobs),
    ensures
        ({
            let end = after_jobs(disk, jobs, n);
            &&& forall|i: int|
                0 <= i < n ==> end.files.contains_key((#[trigger] jobs[i]).0) && end.files[jobs[i].0]
                    == DiskFile { content: jobs[i].3, owner_only: true }
            &&& forall|i: int| 0 <= i < n ==> !end.files.contains_key((#[trigger] jobs[i]).2)
            &&& forall|path: Seq<char>|
                (forall|i: int| 0 <= i < n ==> path != (#[trigger] jobs[i]).0 && path != jobs[i].2)
                    ==> (#[trigger] end.files.contains_key(path)) == disk.files.contains_key(path)
                    && (disk.files.contains_key(path) ==> end.files[path] == disk.files[path])
        }),
    decreases n,
{
    if n > 0 {
        let before = after_jobs(disk, jobs, (n - 1) as nat);
        let job = jobs[n - 1];
        let end = after_jobs(disk, jobs, n);
        lemma_batch_written_without_residue(disk, jobs, (n - 1) as nat);
        assert(job.0 != job.2);
        lemma_written_without_residue(before, job.0, job.1, job.2, job.3);
        assert(end == after_steps(before, job.0, job.1, job.2, job.3, first_step(job.1)));
        assert forall|path: Seq<char>| path != job.0 && path != job.2 implies (
        #[trigger] end.files.contains_key(path)) == before.files.contains_key(path) && (
        before.files.contains_key(path) ==> end.files[path] == before.files[path]) by {}
        assert forall|i: int| 0 <= i < n implies end.files.contains_key((#[trigger] jobs[i]).0)
            && end.files[jobs[i].0] == DiskFile { content: jobs[i].3, owner_only: true } by {
            if i < n - 1 {
                assert(jobs[i].0 != job.0);
                assert(job.2 != jobs[i].0);
                assert(before.files.contains_key(jobs[i].0));
                assert(end.files.contains_key(jobs[i].0) == before.files.contains_key(jobs[i].0));
                assert(end.files[jobs[i].0] == before.files[jobs[i].0]);
            } else {
                assert(jobs[i] == job);
            }
        }
        assert forall|i: int| 0 <= i < n implies !end.files.contains_key(
            (#[trigger] jobs[i]).2,
        ) by {
            if i < n - 1 {
                assert(jobs[i].2 != job.0);
                assert(!before.files.contains_key(jobs[i].2));
                if jobs[i].2 != job.2 {
                    assert(end.files.contains_key(jobs[i].2) == before.files.contains_key(
                        jobs[i].2,
                    ));
                }
            }
        }
        assert forall|path: Seq<char>|
            (forall|i: int| 0 <= i < n ==> path != (#[trigger] jobs[i]).0 && path != jobs[i].2)
            implies (#[trigger] end.files.contains_key(path)) == disk.files.contains_key(path) && (
        disk.files.contains_key(path) ==> end.files[path] == disk.files[path]) by {
            assert(path != jobs[n - 1].0 && path != jobs[n - 1].2);
            assert forall|i: int| 0 <= i < n - 1 implies path != (#[trigger] jobs[i]).0 && path
                != jobs[i].2 by {}
            assert(before.files.contains_key(path) == disk.files.contains_key(path));
            assert(end.files.contains_key(path) == before.files.contains_key(path));
        }
    }
}

/// Whether the writing of a file takes `step` when nothing fails: every
/// step but the removal of the temporary file, and the step for the
/// directory only where the target has one.
pub open spec fn on_the_way(parent: Option<Seq<char>>, step: WriteStep) -> bool {
    match step {
        WriteStep::EnsureDirectory => parent is Some,
        WriteStep::RemoveTemporary => false,
        _ => true,
    }
}

/// `perform` took the step for the file and the step did not fail. The
/// look at the target counts however it ended.
pub open spec fn done<F: Fn(&WriteJob, WriteStep) -> StepOutcome>(
    perform: &F,
    job: &WriteJob,
    step: WriteStep,
) -> bool {
    exists|outcome: StepOutcome| #[trigger]
        call_ensures(perform, (job, step), outcome) && (step == WriteStep::CheckTarget
            || outcome.failure() is None)
}

/// `perform` took the step for the file and the step failed with
/// `message`.
pub open spec fn failed<F: Fn(&WriteJob, WriteStep) -> StepOutcome>(
    perform: &F,
    job: &WriteJob,
    step: WriteStep,
    message: Seq<char>,
) -> bool {
    exists|outcome: StepOutcome| #[trigger]
        call_ensures(perform, (job, step), outcome) && outcome.failure() == Some(message)
}

/// `perform` took the step for the file, however it ended.
pub open spec fn taken<F: Fn(&WriteJob, WriteStep) -> StepOutcome>(
    perform: &F,
    job: &WriteJob,
    step: WriteStep,
) -> bool {
    exists|outcome: StepOutcome| #[trigger] call_ensures(perform, (job, step), outcome)
}

/// `perform` looked at the target of the file and did not find it there.
pub open spec fn missed_target<F: Fn(&WriteJob, WriteStep) -> StepOutcome>(
    perform: &F,
    job: &WriteJob,
) -> bool {
    exists|outcome: StepOutcome| #[trigger]
        call_ensures(perform, (job, WriteStep::CheckTarget), outcome) && !(outcome.failure()
            is None && outcome.found())
}

/// `perform` looked at the target of the file and found it there.
pub open spec fn found_target<F: Fn(&WriteJob, WriteStep) -> StepOutcome>(
    perform: &F,
    job: &WriteJob,
) -> bool {
    exists|outcome: StepOutcome| #[trigger]
        call_ensures(perform, (job, WriteStep::CheckTarget), outcome) && outcome.found()
}

/// The text of the error for a step of the file that failed with
/// `message`.
pub open spec fn failure_text(job: &WriteJob, step: WriteStep, message: Seq<char>) -> Seq<char> {
    match decide(job.target@, job.view().1, job.temporary@, step, Some(message), false) {
        DecisionView::FailIo(text) => text,
        DecisionView::AbandonIo(_, text) => text,
        _ => message,
    }
}

/// Every step on the way before `step` was taken and did not fail.
pub open spec fn done_before<F: Fn(&WriteJob, WriteStep) -> StepOutcome>(
    perform: &F,
    job: &WriteJob,
    step: WriteStep,
) -> bool {
    forall|s: WriteStep| #[trigger]
        on_the_way(job.view().1, s) && rank(s) < rank(step) ==> done(perform, job, s)
}

/// Whether `r` is how the writing of the file ended, with `perform`
/// taking the steps: well where every step on the way was taken and
/// none failed; else with the error for the first step that failed,
/// after all steps before it were taken.
pub open spec fn is_written<F: Fn(&WriteJob, WriteStep) -> StepOutcome>(
    r: Result<(), CliError>,
    perform: &F,
    job: &WriteJob,
) -> bool {
    match r {
        Ok(_) => forall|s: WriteStep| #[trigger]
            on_the_way(job.view().1, s) ==> done(perform, job, s),
        Err(e) => exists|step: WriteStep, message: Seq<char>|
            stopped_at(e, perform, job, step, message),
    }
}

/// The writing of the file stopped at `step`, which failed with
/// `message`, after all steps before it were taken; `e` is the error for
/// that. Where it was the rename that failed, the step that removes the
/// temporary file was taken after it.
pub open spec fn stopped_at<F: Fn(&WriteJob, WriteStep) -> StepOutcome>(
    e: CliError,
    perform: &F,
    job: &WriteJob,
    step: WriteStep,
    message: Seq<char>,
) -> bool {
    &&& on_the_way(job.view().1, step)
    &&& step != WriteStep::CheckTarget
    &&& failed(perform, job, step, message)
    &&& done_before(perform, job, step)
    &&& step == WriteStep::Rename ==> taken(perform, job, WriteStep::RemoveTemporary)
    &&& e matches CliError::IoError(text)
    &&& text@ == failure_text(job, step, message)
}

/// The line that warns of a target that is overwritten.
pub open spec fn overwrite_warning(target: Seq<char>) -> Seq<char> {
    "Warning: Overwriting existing file: "@ + target
}

/// Whether the warnings are as they are after the look at the target of
/// the file: as they were where the look did not find the target, and
/// with one warning added where it found it.
pub open spec fn looked<F: Fn(&WriteJob, WriteStep) -> StepOutcome>(
    before: Seq<String>,
    after: Seq<String>,
    perform: &F,
    job: &WriteJob,
) -> bool {
    (after == before && missed_target(perform, job)) || (after.len() == before.len() + 1
        && after.drop_last() == before && after.last()@ == overwrite_warning(job.target@)
        && found_target(perform, job))
}

/// Whether the warnings after the writing of the file, which ended as
/// `r` says, are as they must be: with one warning added where the look
/// at the target found it; else as they were, which is so only where the
/// look did not find the target, or the writing stopped before the look,
/// at the step for the directory.
pub open spec fn warned<F: Fn(&WriteJob, WriteStep) -> StepOutcome>(
    before: Seq<String>,
    after: Seq<String>,
    perform: &F,
    job: &WriteJob,
    r: Result<(), CliError>,
) -> bool {
    looked(before, after, perform, job) || (after == before && (r matches Err(e) && exists|
        message: Seq<char>,
    |
        stopped_at(e, perform, job, WriteStep::EnsureDirectory, message)))
}

/// Writes one file: takes its steps in order, each by `perform`, until
/// the file is written or a step fails.
pub fn write_job<F: Fn(&WriteJob, WriteStep) -> StepOutcome>(
    job: &WriteJob,
    perform: &F,
    warnings: &mut Vec<String>,
) -> (r: Result<(), CliError>)
    requires
        forall|j: &WriteJob, s: WriteStep| call_requires(perform, (j, s)),
    ensures
        is_written(r, perform, job),
        warned(old(warnings)@, final(warnings)@, perform, job, r),
{
    let mut step = job.start();
    let ghost before = warnings@;
    loop
        invariant
            forall|j: &WriteJob, s: WriteStep| call_requires(perform, (j, s)),
            before == old(warnings)@,
            on_the_way(job.view().1, step),
            done_before(perform, job, step),
            rank(step) <= rank(WriteStep::CheckTarget) ==> warnings@ == before,
            rank(step) > rank(WriteStep::CheckTarget) ==> looked(before, warnings@, perform, job),
        decreases 6 - rank(step),
    {
        let outcome = perform(job, step);
        proof {
            lemma_steps_go_forward(
                job.target@,
                job.view().1,
                job.temporary@,
                step,
                outcome.failure(),
                outcome.found(),
            );
            if step == WriteStep::CheckTarget || outcome.failure() is None {
                assert(done(perform, job, step));
            }
        }
        match job.after(step, &outcome) {
            Decision::Next(next) => {
                proof {
                    lemma_next_on_the_way(perform, job, step, next);
                    if step == WriteStep::CheckTarget {
                        assert(missed_target(perform, job));
                    }
                }
                step = next;
            },
            Decision::Warn(warning, next) => {
                proof {
                    lemma_next_on_the_way(perform, job, step, next);
                    assert(found_target(perform, job));
                }
                warnings.push(warning);
                proof {
                    assert(warnings@.drop_last() =~= before);
                }
                step = next;
            },
            Decision::Finished => {
                proof {
                    assert forall|s: WriteStep| #[trigger]
                        on_the_way(job.view().1, s) implies done(perform, job, s) by {
                        if s != step {
                            assert(rank(s) < rank(step));
                        }
                    }
                }
                return Ok(());
            },
            Decision::Abandon(last, e) => {
                let cleared = perform(job, last);
                proof {
                    assert(call_ensures(perform, (job, WriteStep::RemoveTemporary), cleared));
                    assert(taken(perform, job, WriteStep::RemoveTemporary));
                    assert(failed(perform, job, step, outcome.failure().unwrap()));
                    assert(stopped_at(e, perform, job, step, outcome.failure().unwrap()));
                }
                return Err(e);
            },
            Decision::Fail(e) => {
                proof {
                    assert(failed(perform, job, step, outcome.failure().unwrap()));
                    assert(stopped_at(e, perform, job, step, outcome.failure().unwrap()));
                }
                return Err(e);
            },
        }
    }
}

/// After a step on the way that did not fail comes the next step on the
/// way, and every step before that one was taken.
proof fn lemma_next_on_the_way<F: Fn(&WriteJob, WriteStep) -> StepOutcome>(
    perform: &F,
    job: &WriteJob,
    step: WriteStep,
    next: WriteStep,
)
    requires
        on_the_way(job.view().1, step),
        done_before(perform, job, step),
        done(perform, job, step),
        rank(next) == rank(step) + 1,
        next != WriteStep::RemoveTemporary,
    ensures
        on_the_way(job.view().1, next),
        done_before(perform, job, next),
{
    assert forall|s: WriteStep| #[trigger]
        on_the_way(job.view().1, s) && rank(s) < rank(next) implies done(perform, job, s) by {
        if rank(s) == rank(step) {
            assert(s == step);
        }
    }
}

impl FileWriter {
    /// The directory that the files go under.
    pub closed spec fn output_dir(&self) -> Seq<char> {
        self.output_dir@
    }

    /// A writer for the directory `output_dir`.
    pub fn new(output_dir: String) -> (r: FileWriter)
        ensures
            r.output_dir() == output_dir@,
    {
        FileWriter { output_dir }
    }

    /// The jobs that write `files`, one for each file and in their order.
    /// Each file goes to its relative path under the output directory, by
    /// way of a temporary file beside it. No files, no jobs.
    pub fn plan(&self, files: &Vec<ProcessedFile>) -> (jobs: Vec<WriteJob>)
        ensures
            jobs.len() == files.len(),
            forall|i: int|
                0 <= i < files.len() ==> (#[trigger] jobs@[i]).view() == job_of(
                    self.output_dir(),
                    files@[i].relative_path@,
                    files@[i].content@,
                ),
    {
        let mut jobs: Vec<WriteJob> = Vec::new();
        let mut i: usize = 0;
        while i < files.len()
            invariant
                i <= files.len(),
                jobs.len() == i,
                forall|j: int|
                    0 <= j < i ==> (#[trigger] jobs@[j]).view() == job_of(
                        self.output_dir(),
                        files@[j].relative_path@,
                        files@[j].content@,
                    ),
            decreases files.len() - i,
        {
            let target = join_paths(self.output_dir.as_str(), files[i].relative_path.as_str());
            let parent = parent_path(target.as_str());
            let temporary = temporary_path(target.as_str());
            jobs.push(WriteJob { target, parent, temporary, content: files[i].content.clone() });
            i += 1;
        }
        jobs
    }

    /// Writes the files, one after the other, each to its relative path
    /// under the output directory, and gives the paths that were written.
    /// A file is written to a temporary file beside its target, which
    /// then takes the place of the target in one move.
    ///
    /// `perform` takes one step on the disk and says how it ended. The
    /// first step that fails ends the writing with its error; the files
    /// written before stay. The warnings that are added to `warnings`
    /// each tell of a target that was there before.
    pub fn write_processed_files<F: Fn(&WriteJob, WriteStep) -> StepOutcome>(
        &self,
        files: &Vec<ProcessedFile>,
        perform: F,
        warnings: &mut Vec<String>,
    ) -> (r: Result<Vec<String>, CliError>)
        requires
            forall|j: &WriteJob, s: WriteStep| call_requires(perform, (j, s)),
        ensures
            match r {
                Ok(written) => all_written(self, &perform, files@, written@),
                Err(e) => writing_stopped(self, &perform, files@, e),
            },
            old(warnings)@.len() <= final(warnings)@.len() <= old(warnings)@.len() + files.len(),
            final(warnings)@.take(old(warnings)@.len() as int) == old(warnings)@,
            forall|k: int|
                old(warnings)@.len() <= k < final(warnings)@.len() ==> warns_of(
                    self,
                    &perform,
                    files@,
                    #[trigger] final(warnings)@[k]@,
                ),
    {
        self.write_each(files, &perform, warnings)
    }

    /// Writes the files as `write_processed_files` does, with `perform`
    /// borrowed.
    pub(crate) fn write_each<F: Fn(&WriteJob, WriteStep) -> StepOutcome>(
        &self,
        files: &Vec<ProcessedFile>,
        perform: &F,
        warnings: &mut Vec<String>,
    ) -> (r: Result<Vec<String>, CliError>)
        requires
            forall|j: &WriteJob, s: WriteStep| call_requires(perform, (j, s)),
        ensures
            match r {
                Ok(written) => all_written(self, perform, files@, written@),
                Err(e) => writing_stopped(self, perform, files@, e),
            },
            old(warnings)@.len() <= final(warnings)@.len() <= old(warnings)@.len() + files.len(),
            final(warnings)@.take(old(warnings)@.len() as int) == old(warnings)@,
            forall|k: int|
                old(warnings)@.len() <= k < final(warnings)@.len() ==> warns_of(
                    self,
                    perform,
                    files@,
                    #[trigger] final(warnings)@[k]@,
                ),
    {
        let jobs = self.plan(files);
        let mut written: Vec<String> = Vec::new();
        let mut i: usize = 0;
        let ghost before = warnings@;
        proof {
            assert(warnings@.take(before.len() as int) =~= before);
        }
        while i < jobs.len()
            invariant
                i <= jobs.len(),
                jobs.len() == files.len(),
                written.len() == i,
                forall|j: &WriteJob, s: WriteStep| call_requires(perform, (j, s)),
                forall|k: int|
                    0 <= k < files.len() ==> (#[trigger] jobs@[k]).view() == job_of(
                        self.output_dir(),
                        files@[k].relative_path@,
                        files@[k].content@,
                    ),
                forall|k: int|
                    0 <= k < i ==> (#[trigger] written@[k])@ == join(
                        self.output_dir(),
                        files@[k].relative_path@,
                    ),
                forall|k: int| 0 <= k < i ==> self.wrote(perform, #[trigger] files@[k], Ok(())),
                before == old(warnings)@,
                before.len() <= warnings@.len() <= before.len() + i,
                warnings@.take(before.len() as int) == before,
                forall|k: int|
                    before.len() <= k < warnings@.len() ==> warns_of(
                        self,
                        perform,
                        files@,
                        #[trigger] warnings@[k]@,
                    ),
            decreases jobs.len() - i,
        {
            let ghost so_far = warnings@;
            let result = write_job(&jobs[i], perform, warnings);
            proof {
                assert(warnings@.take(before.len() as int) =~= so_far.take(before.len() as int));
                assert(jobs@[i as int].view().0 == jobs@[i as int].target@);
                assert(self.wrote(perform, files@[i as int], result)) by {
                    assert(self.job_for(&jobs@[i as int], files@[i as int]));
                }
                assert forall|k: int| before.len() <= k < warnings@.len() implies warns_of(
                    self,
                    perform,
                    files@,
                    #[trigger] warnings@[k]@,
                ) by {
                    if k < so_far.len() {
                        assert(warnings@[k] == so_far[k]) by {
                            if warnings@ != so_far {
                                assert(warnings@.drop_last()[k] == so_far[k]);
                            }
                        }
                    } else {
                        assert(self.job_for(&jobs@[i as int], files@[i as int]));
                    }
                }
            }
            match result {
                Ok(_) => {},
                Err(e) => {
                    return Err(e);
                },
            }
            written.push(jobs[i].target.clone());
            i += 1;
        }
        Ok(written)
    }

    /// `job` is the job that writes `file` under the output directory.
    pub open spec fn job_for(&self, job: &WriteJob, file: ProcessedFile) -> bool {
        job.view() == job_of(self.output_dir(), file.relative_path@, file.content@)
    }

    /// The writing of `file`, with `perform` taking the steps, ended as
    /// `r` says.
    pub open spec fn wrote<F: Fn(&WriteJob, WriteStep) -> StepOutcome>(
        &self,
        perform: &F,
        file: ProcessedFile,
        r: Result<(), CliError>,
    ) -> bool {
        exists|job: WriteJob| #[trigger] self.job_for(&job, file) && is_written(r, perform, &job)
    }
}

/// `line` warns that the target of one of `files` is overwritten, and
/// `perform` found that target there.
pub open spec fn warns_of<P: Fn(&WriteJob, WriteStep) -> StepOutcome>(
    writer: &FileWriter,
    perform: &P,
    files: Seq<ProcessedFile>,
    line: Seq<char>,
) -> bool {
    exists|i: int, job: WriteJob|
        0 <= i < files.len() && #[trigger] writer.job_for(&job, files[i]) && found_target(
            perform,
            &job,
        ) && line == overwrite_warning(job.target@)
}

/// Every one of `files` was written under the directory of the writer,
/// and `written` holds the paths they were written to, in their order.
pub open spec fn all_written<P: Fn(&WriteJob, WriteStep) -> StepOutcome>(
    writer: &FileWriter,
    perform: &P,
    files: Seq<ProcessedFile>,
    written: Seq<String>,
) -> bool {
    written.len() == files.len() && forall|i: int|
        0 <= i < files.len() ==> (#[trigger] written[i])@ == join(
            writer.output_dir(),
            files[i].relative_path@,
        ) && writer.wrote(perform, files[i], Ok(()))
}

/// The writing of one of `files` failed with `e`, after every file
/// before it was written.
pub open spec fn writing_stopped<P: Fn(&WriteJob, WriteStep) -> StepOutcome>(
    writer: &FileWriter,
    perform: &P,
    files: Seq<ProcessedFile>,
    e: CliError,
) -> bool {
    exists|i: int|
        0 <= i < files.len() && writer.wrote(perform, #[trigger] files[i], Err(e)) && forall|
            k: int,
        |
            0 <= k < i ==> writer.wrote(perform, #[trigger] files[k], Ok(()))
}

} // verus!
