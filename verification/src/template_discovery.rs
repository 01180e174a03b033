//! Finding the template files among the entries of a directory tree.

use vstd::prelude::*;
use crate::paths::join;
use vstd::string::StringExecFns;
use crate::text::{
    chars_of, has_prefix, last_index_of, last_position, lowercase_of, slice_of, starts_with,
    str_eq, string_of, to_lowercase,
};

verus! {

/// The kind of a template file, told by its extension.
#[derive(Debug, Clone, Copy, PartialEq, Eq, Structural)]
pub enum TemplateFileType {
    /// Infrastructure configuration (`.tf`).
    Terraform,
    /// Structured markup (`.yaml`, `.yml`).
    Yaml,
    /// Structured data (`.json`).
    Json,
}

/// The kind that a lowercase extension stands for.
pub open spec fn kind_of_lowercase(extension: Seq<char>) -> Option<TemplateFileType> {
    if extension == "tf"@ {
        Some(TemplateFileType::Terraform)
    } else if extension == "yaml"@ || extension == "yml"@ {
        Some(TemplateFileType::Yaml)
    } else if extension == "json"@ {
        Some(TemplateFileType::Json)
    } else {
        None
    }
}

/// The kind that an extension stands for, whatever its case.
pub open spec fn kind_of(extension: Seq<char>) -> Option<TemplateFileType> {
    kind_of_lowercase(lowercase_of(extension))
}

impl TemplateFileType {
    /// The kind that a lowercase extension, written without its dot,
    /// stands for.
    pub fn from_lowercase_extension(extension: &str) -> (r: Option<TemplateFileType>)
        ensures
            r == kind_of_lowercase(extension@),
    {
        if str_eq(extension, "tf") {
            Some(TemplateFileType::Terraform)
        } else if str_eq(extension, "yaml") || str_eq(extension, "yml") {
            Some(TemplateFileType::Yaml)
        } else if str_eq(extension, "json") {
            Some(TemplateFileType::Json)
        } else {
            None
        }
    }

    /// The kind that an extension, written without its dot, stands for,
    /// whatever its case.
    pub fn from_extension(extension: &str) -> (r: Option<TemplateFileType>)
        ensures
            r == kind_of(extension@),
    {
        let lower = to_lowercase(extension);
        TemplateFileType::from_lowercase_extension(lower.as_str())
    }
}

/// A template file that was found.
#[derive(Debug, Clone, PartialEq, Eq)]
pub struct TemplateFile {
    /// The path of the file as it was walked.
    pub path: String,
    /// The path of the file from the template directory.
    pub relative_path: String,
    /// The kind of the file.
    pub file_type: TemplateFileType,
}

/// Why no templates could be found.
#[derive(Debug, PartialEq, Eq)]
pub enum DiscoveryError {
    /// The template directory does not exist.
    DirectoryNotFound(String),
    /// The path of the template directory leads to something else.
    NotADirectory(String),
    /// The walk was refused access to the path.
    PermissionDenied(String),
    /// The walk failed for another reason.
    WalkError(String),
    /// A file that was walked is not under the template directory.
    PathError(String),
}

impl DiscoveryError {
    /// The text of the error.
    pub open spec fn message_spec(self) -> Seq<char> {
        match self {
            DiscoveryError::DirectoryNotFound(p) => "Template directory not found: "@ + p@,
            DiscoveryError::NotADirectory(p) => "Path is not a directory: "@ + p@,
            DiscoveryError::PermissionDenied(p) => "Permission denied: "@ + p@,
            DiscoveryError::WalkError(m) => "Error walking directory: "@ + m@,
            DiscoveryError::PathError(m) => "Path error: "@ + m@,
        }
    }

    /// The text of the error.
    pub fn message(&self) -> (r: String)
        ensures
            r@ == self.message_spec(),
    {
        match self {
            DiscoveryError::DirectoryNotFound(p) => String::from_str(
                "Template directory not found: ",
            ).concat(p.as_str()),
            DiscoveryError::NotADirectory(p) => String::from_str("Path is not a directory: ").concat(
                p.as_str(),
            ),
            DiscoveryError::PermissionDenied(p) => String::from_str("Permission denied: ").concat(
                p.as_str(),
            ),
            DiscoveryError::WalkError(m) => String::from_str("Error walking directory: ").concat(
                m.as_str(),
            ),
            DiscoveryError::PathError(m) => String::from_str("Path error: ").concat(m.as_str()),
        }
    }
}

/// What the walk of a directory tree reports, one for each step.
#[derive(Debug, PartialEq, Eq)]
pub enum WalkEvent {
    /// An entry of the tree: its path, and whether it is a regular file.
    Entry { path: String, is_file: bool },
    /// A step that failed: whether access was refused, the path where it
    /// failed if that is known, and the text of the failure.
    Failure { permission_denied: bool, at: Option<String>, message: String },
}

/// The name of the file that `path` leads to: what follows the last `/`.
pub open spec fn file_name_of(path: Seq<char>) -> Seq<char> {
    match last_position(path, '/') {
        Some(i) => path.skip(i + 1),
        None => path,
    }
}

/// The extension of a file name: what follows its last dot. A name
/// without a dot has none, and neither has a name whose only dot is its
/// first character, nor the name `..`.
pub open spec fn extension_of(name: Seq<char>) -> Option<Seq<char>> {
    if name == ".."@ {
        None
    } else {
        match last_position(name, '.') {
            Some(i) => if i == 0 {
                None
            } else {
                Some(name.skip(i + 1))
            },
            None => None,
        }
    }
}

/// A hidden name starts at position `i` of `path`: a dot that opens the
/// path or follows a `/`.
pub open spec fn hidden_at(path: Seq<char>, i: int) -> bool {
    0 <= i < path.len() && path[i] == '.' && (i == 0 || path[i - 1] == '/')
}

/// No directory on the way and not the file itself has a hidden name.
pub open spec fn visible(relative: Seq<char>) -> bool {
    forall|i: int| !hidden_at(relative, i)
}

/// The path from the directory `dir` to `path`, where `path` lies under
/// `dir`.
pub open spec fn relative_to(path: Seq<char>, dir: Seq<char>) -> Option<Seq<char>> {
    if !starts_with(path, dir) {
        None
    } else {
        let rest = path.skip(dir.len() as int);
        if dir.len() > 0 && dir.last() == '/' {
            Some(rest)
        } else if rest.len() == 0 {
            Some(rest)
        } else if rest[0] == '/' {
            Some(rest.skip(1))
        } else {
            None
        }
    }
}

/// The kind of the file at `path`, where its name has an extension that
/// stands for one.
pub open spec fn kind_of_path(path: Seq<char>) -> Option<TemplateFileType> {
    match extension_of(file_name_of(path)) {
        Some(extension) => kind_of(extension),
        None => None,
    }
}

/// The templates found after the first `n` events of a walk of `dir`, or
/// the error that ended the search.
///
/// A failure ends the search: with `PermissionDenied` where access was
/// refused, with `WalkError` otherwise. An entry counts where it is a
/// regular file whose extension stands for a kind; such a file that does
/// not lie under `dir` ends the search with `PathError`, and one that lies
/// under a hidden name is left out.
pub open spec fn found(dir: Seq<char>, events: Seq<WalkEvent>, n: nat) -> Result<
    Seq<(Seq<char>, Seq<char>, TemplateFileType)>,
    DiscoveryFailure,
>
    decreases n,
{
    if n == 0 || n > events.len() {
        Ok(Seq::empty())
    } else {
        match found(dir, events, (n - 1) as nat) {
            Err(e) => Err(e),
            Ok(files) => match events[n - 1] {
                WalkEvent::Failure { permission_denied, at, message } => if permission_denied {
                    Err(
                        DiscoveryFailure::PermissionDenied(
                            match at {
                                Some(p) => p@,
                                None => "unknown path"@,
                            },
                        ),
                    )
                } else {
                    Err(DiscoveryFailure::WalkError(message@))
                },
                WalkEvent::Entry { path, is_file } => match kind_of_path(path@) {
                    Some(kind) => if !is_file {
                        Ok(files)
                    } else {
                        match relative_to(path@, dir) {
                            None => Err(DiscoveryFailure::PathError("prefix not found"@)),
                            Some(relative) => if visible(relative) {
                                Ok(files.push((path@, relative, kind)))
                            } else {
                                Ok(files)
                            },
                        }
                    },
                    None => Ok(files),
                },
            },
        }
    }
}

/// A failed search as the proofs see it.
pub enum DiscoveryFailure {
    DirectoryNotFound(Seq<char>),
    NotADirectory(Seq<char>),
    PermissionDenied(Seq<char>),
    WalkError(Seq<char>),
    PathError(Seq<char>),
}

impl View for DiscoveryError {
    type V = DiscoveryFailure;

    open spec fn view(&self) -> DiscoveryFailure {
        match self {
            DiscoveryError::DirectoryNotFound(p) => DiscoveryFailure::DirectoryNotFound(p@),
            DiscoveryError::NotADirectory(p) => DiscoveryFailure::NotADirectory(p@),
            DiscoveryError::PermissionDenied(p) => DiscoveryFailure::PermissionDenied(p@),
            DiscoveryError::WalkError(m) => DiscoveryFailure::WalkError(m@),
            DiscoveryError::PathError(m) => DiscoveryFailure::PathError(m@),
        }
    }
}

/// The files as the proofs see them: path, relative path and kind.
pub open spec fn files_view(files: Seq<TemplateFile>) -> Seq<
    (Seq<char>, Seq<char>, TemplateFileType),
> {
    Seq::new(files.len(), |i: int| (files[i].path@, files[i].relative_path@, files[i].file_type))
}

/// What a search gives, given what is at the path of the directory and
/// what the walk reported.
pub open spec fn discovered(
    dir: Seq<char>,
    exists: bool,
    is_dir: bool,
    events: Seq<WalkEvent>,
) -> Result<Seq<(Seq<char>, Seq<char>, TemplateFileType)>, DiscoveryFailure> {
    if !exists {
        Err(DiscoveryFailure::DirectoryNotFound(dir))
    } else if !is_dir {
        Err(DiscoveryFailure::NotADirectory(dir))
    } else {
        found(dir, events, events.len())
    }
}

/// Whether a name is hidden: it starts with a dot.
pub fn is_hidden(name: &str) -> (r: bool)
    ensures
        r == (name@.len() > 0 && name@[0] == '.'),
{
    let chars = chars_of(name);
    chars.len() > 0 && chars[0] == '.'
}

/// Whether no name on the relative path is hidden.
pub fn is_visible(relative: &Vec<char>) -> (r: bool)
    ensures
        r == visible(relative@),
{
    let mut i: usize = 0;
    while i < relative.len()
        invariant
            i <= relative.len(),
            forall|j: int| 0 <= j < i ==> !hidden_at(relative@, j),
        decreases relative.len() - i,
    {
        if relative[i] == '.' && (i == 0 || relative[i - 1] == '/') {
            assert(hidden_at(relative@, i as int));
            return false;
        }
        i += 1;
    }
    true
}

/// The extension of the file that `path` leads to.
pub fn path_extension(path: &Vec<char>) -> (r: Option<Vec<char>>)
    ensures
        match r {
            Some(e) => extension_of(file_name_of(path@)) == Some(e@),
            None => extension_of(file_name_of(path@)) is None,
        },
{
    let start: usize = match last_index_of(path, '/') {
        Some(i) => i + 1,
        None => 0,
    };
    let name = slice_of(path, start, path.len());
    assert(name@ =~= file_name_of(path@));
    let dots: Vec<char> = vec!['.', '.'];
    proof {
        reveal_strlit("..");
        assert(dots@ =~= ".."@);
    }
    if name.len() == 2 && name[0] == '.' && name[1] == '.' {
        assert(name@ =~= ".."@);
        return None;
    }
    match last_index_of(&name, '.') {
        Some(i) => {
            if i == 0 {
                None
            } else {
                let e = slice_of(&name, i + 1, name.len());
                assert(e@ =~= name@.skip(i + 1));
                Some(e)
            }
        },
        None => None,
    }
}

/// The path from `dir` to `path`, where `path` lies under `dir`.
pub fn relative_path(path: &Vec<char>, dir: &Vec<char>) -> (r: Option<Vec<char>>)
    ensures
        match r {
            Some(p) => relative_to(path@, dir@) == Some(p@),
            None => relative_to(path@, dir@) is None,
        },
{
    if !has_prefix(path, dir) {
        return None;
    }
    let n = dir.len();
    if n > 0 && dir[n - 1] == '/' {
        let r = slice_of(path, n, path.len());
        assert(r@ =~= path@.skip(n as int));
        Some(r)
    } else if path.len() == n {
        let r = slice_of(path, n, path.len());
        assert(r@ =~= path@.skip(n as int));
        Some(r)
    } else if path[n] == '/' {
        let r = slice_of(path, n + 1, path.len());
        assert(r@ =~= path@.skip(n as int).skip(1));
        Some(r)
    } else {
        None
    }
}

/// Finds the template files under one directory.
#[derive(Debug)]
pub struct TemplateDiscovery {
    /// The directory that holds the templates.
    pub template_dir: String,
}

impl TemplateDiscovery {
    /// A search under `template_dir`.
    pub fn new(template_dir: String) -> (r: TemplateDiscovery)
        ensures
            r.template_dir == template_dir,
    {
        TemplateDiscovery { template_dir }
    }

    /// The template files among what a walk of the directory reported,
    /// in the order of the walk.
    ///
    /// `exists` and `is_dir` say what is at the path of the directory.
    pub fn discover_templates(&self, exists: bool, is_dir: bool, events: &Vec<WalkEvent>) -> (r:
        Result<Vec<TemplateFile>, DiscoveryError>)
        ensures
            match r {
                Ok(files) => discovered(self.template_dir@, exists, is_dir, events@) == Ok::<
                    Seq<(Seq<char>, Seq<char>, TemplateFileType)>,
                    DiscoveryFailure,
                >(files_view(files@)),
                Err(e) => discovered(self.template_dir@, exists, is_dir, events@) == Err::<
                    Seq<(Seq<char>, Seq<char>, TemplateFileType)>,
                    DiscoveryFailure,
                >(e@),
            },
    {
        if !exists {
            return Err(DiscoveryError::DirectoryNotFound(self.template_dir.clone()));
        }
        if !is_dir {
            return Err(DiscoveryError::NotADirectory(self.template_dir.clone()));
        }
        let dir = chars_of(self.template_dir.as_str());
        let mut files: Vec<TemplateFile> = Vec::new();
        let mut i: usize = 0;
        proof {
            assert(files_view(files@) =~= Seq::empty());
        }
        while i < events.len()
            invariant
                i <= events.len(),
                exists && is_dir,
                dir@ == self.template_dir@,
                found(dir@, events@, i as nat) == Ok::<
                    Seq<(Seq<char>, Seq<char>, TemplateFileType)>,
                    DiscoveryFailure,
                >(files_view(files@)),
            decreases events.len() - i,
        {
            let ghost before = files_view(files@);
            match &events[i] {
                WalkEvent::Failure { permission_denied, at, message } => {
                    let e = if *permission_denied {
                        match at {
                            Some(p) => DiscoveryError::PermissionDenied(p.clone()),
                            None => DiscoveryError::PermissionDenied(
                                String::from_str("unknown path"),
                            ),
                        }
                    } else {
                        DiscoveryError::WalkError(message.clone())
                    };
                    proof {
                        lemma_found_failed(dir@, events@, (i + 1) as nat, events@.len());
                    }
                    return Err(e);
                },
                WalkEvent::Entry { path, is_file } => {
                    let chars = chars_of(path.as_str());
                    let kind = match path_extension(&chars) {
                        Some(e) => {
                            let extension = string_of(&e);
                            TemplateFileType::from_extension(extension.as_str())
                        },
                        None => None,
                    };
                    if let Some(file_type) = kind {
                        if *is_file {
                            match relative_path(&chars, &dir) {
                                None => {
                                    proof {
                                        lemma_found_failed(
                                            dir@,
                                            events@,
                                            (i + 1) as nat,
                                            events@.len(),
                                        );
                                    }
                                    return Err(
                                        DiscoveryError::PathError(
                                            String::from_str("prefix not found"),
                                        ),
                                    );
                                },
                                Some(relative) => {
                                    if is_visible(&relative) {
                                        files.push(
                                            TemplateFile {
                                                path: path.clone(),
                                                relative_path: string_of(&relative),
                                                file_type,
                                            },
                                        );
                                        proof {
                                            assert(files_view(files@) =~= before.push(
                                                (path@, relative@, file_type),
                                            ));
                                        }
                                    }
                                },
                            }
                        }
                    }
                },
            }
            i += 1;
        }
        Ok(files)
    }
}

/// Whether an event of the walk is a template: a regular file under the
/// directory, under no hidden name, whose extension stands for a kind.
pub open spec fn is_template(dir: Seq<char>, event: WalkEvent) -> bool {
    match event {
        WalkEvent::Entry { path, is_file } => is_file && kind_of_path(path@) is Some && (
        match relative_to(path@, dir) {
            Some(relative) => visible(relative),
            None => false,
        }),
        _ => false,
    }
}

/// How many of the first `n` events are templates.
pub open spec fn count_templates(dir: Seq<char>, events: Seq<WalkEvent>, n: nat) -> nat
    decreases n,
{
    if n == 0 || n > events.len() {
        0
    } else {
        count_templates(dir, events, (n - 1) as nat) + if is_template(dir, events[n - 1]) {
            1nat
        } else {
            0nat
        }
    }
}

/// Whether `file` is one of the templates among the first `n` events,
/// with the path that leads to it from the directory and with the kind of
/// its extension.
pub open spec fn comes_from(
    dir: Seq<char>,
    events: Seq<WalkEvent>,
    n: nat,
    file: (Seq<char>, Seq<char>, TemplateFileType),
) -> bool {
    exists|j: int|
        0 <= j < n && j < events.len() && is_template(dir, #[trigger] events[j])
            && events[j]->path@ == file.0 && relative_to(file.0, dir) == Some(file.1)
            && kind_of_path(file.0) == Some(file.2)
}

/// The completeness law. A search that succeeds finds as many files as
/// there are templates among the events of the walk, neither more nor
/// fewer, and each file that it finds is one of them, with the path that
/// leads to it from the template directory and with the kind of its
/// extension.
pub proof fn lemma_discovery_complete(dir: Seq<char>, events: Seq<WalkEvent>, n: nat)
    requires
        n <= events.len(),
        found(dir, events, n) is Ok,
    ensures
        found(dir, events, n)->Ok_0.len() == count_templates(dir, events, n),
        forall|i: int|
            0 <= i < found(dir, events, n)->Ok_0.len() ==> comes_from(
                dir,
                events,
                n,
                #[trigger] found(dir, events, n)->Ok_0[i],
            ),
    decreases n,
{
    if n > 0 {
        let before = found(dir, events, (n - 1) as nat);
        assert(before is Ok);
        lemma_discovery_complete(dir, events, (n - 1) as nat);
        let files = found(dir, events, n)->Ok_0;
        assert forall|i: int| 0 <= i < files.len() implies comes_from(
            dir,
            events,
            n,
            #[trigger] files[i],
        ) by {
            if i < before->Ok_0.len() {
                assert(files[i] == before->Ok_0[i]);
                assert(comes_from(dir, events, (n - 1) as nat, before->Ok_0[i]));
                let j = choose|j: int|
                    0 <= j < n - 1 && j < events.len() && is_template(dir, #[trigger] events[j])
                        && events[j]->path@ == files[i].0 && relative_to(files[i].0, dir) == Some(
                        files[i].1,
                    ) && kind_of_path(files[i].0) == Some(files[i].2);
                assert(is_template(dir, events[j]));
            } else {
                assert(is_template(dir, events[n - 1]));
            }
        }
    }
}

/// Once the search has failed it stays failed, with the same error.
pub proof fn lemma_found_failed(dir: Seq<char>, events: Seq<WalkEvent>, n: nat, m: nat)
    requires
        found(dir, events, n) is Err,
        n <= m <= events.len(),
    ensures
        found(dir, events, m) == found(dir, events, n),
    decreases m,
{
    if n < m {
        lemma_found_failed(dir, events, n, (m - 1) as nat);
    }
}

/// A path that lies under a directory is the directory joined with the
/// path that leads to it from there, where the directory has a name and
/// the path from it is not empty and does not start at the root.
pub proof fn lemma_relative_joins(path: Seq<char>, dir: Seq<char>)
    requires
        dir.len() > 0,
        relative_to(path, dir) matches Some(relative) && relative.len() > 0 && relative[0]
            != '/',
    ensures
        join(dir, relative_to(path, dir).unwrap()) == path,
{
    let relative = relative_to(path, dir).unwrap();
    let rest = path.skip(dir.len() as int);
    assert(path =~= dir + rest);
    if dir.last() == '/' {
        assert(join(dir, relative) =~= dir + rest);
    } else {
        assert(rest =~= seq!['/'] + relative);
        assert(join(dir, relative) =~= dir + seq!['/'] + relative);
    }
}

/// Two paths under one directory that the same path leads to from there
/// are one path, where that path is not empty.
pub proof fn lemma_relative_injective(a: Seq<char>, b: Seq<char>, dir: Seq<char>)
    requires
        relative_to(a, dir) matches Some(relative) && relative.len() > 0,
        relative_to(a, dir) == relative_to(b, dir),
    ensures
        a == b,
{
    let x = a.skip(dir.len() as int);
    let y = b.skip(dir.len() as int);
    assert(a =~= dir + x);
    assert(b =~= dir + y);
    if !(dir.len() > 0 && dir.last() == '/') {
        assert(x =~= seq!['/'] + x.skip(1));
        assert(y =~= seq!['/'] + y.skip(1));
    }
}

/// No file of the walk is the directory itself: the path that leads to
/// a file from the directory is not empty.
pub open spec fn files_below(dir: Seq<char>, events: Seq<WalkEvent>) -> bool {
    forall|i: int|
        0 <= i < events.len() && (#[trigger] events[i]) is Entry ==> relative_to(
            events[i]->path@,
            dir,
        ) != Some(Seq::<char>::empty())
}

/// The entries of the walk all have different paths.
pub open spec fn distinct_entries(events: Seq<WalkEvent>) -> bool {
    forall|i: int, j: int|
        0 <= i < j < events.len() && (#[trigger] events[i]) is Entry && (#[trigger] events[j])
            is Entry ==> events[i]->path@ != events[j]->path@
}

/// Where the entries of the walk all have different paths and none is
/// the directory itself, the files that the search finds all have
/// different paths from the directory.
pub proof fn lemma_discovery_distinct(dir: Seq<char>, events: Seq<WalkEvent>, n: nat)
    requires
        n <= events.len(),
        found(dir, events, n) is Ok,
        distinct_entries(events),
        files_below(dir, events),
    ensures
        forall|i: int, k: int|
            0 <= i < k < found(dir, events, n)->Ok_0.len() ==> (#[trigger] found(
                dir,
                events,
                n,
            )->Ok_0[i]).1 != (#[trigger] found(dir, events, n)->Ok_0[k]).1,
    decreases n,
{
    if n > 0 {
        let before = found(dir, events, (n - 1) as nat);
        assert(before is Ok);
        lemma_discovery_distinct(dir, events, (n - 1) as nat);
        lemma_discovery_complete(dir, events, (n - 1) as nat);
        lemma_discovery_complete(dir, events, n);
        let files = found(dir, events, n)->Ok_0;
        let earlier = before->Ok_0;
        assert forall|i: int, k: int| 0 <= i < k < files.len() implies (#[trigger] files[i]).1 != (
        #[trigger] files[k]).1 by {
            if k < earlier.len() {
                assert(files[i] == earlier[i] && files[k] == earlier[k]);
            } else {
                // the last file comes from the last event, the others from earlier ones
                assert(files[i] == earlier[i]);
                assert(comes_from(dir, events, (n - 1) as nat, earlier[i]));
                let j = choose|j: int|
                    0 <= j < n - 1 && j < events.len() && is_template(dir, #[trigger] events[j])
                        && events[j]->path@ == earlier[i].0 && relative_to(earlier[i].0, dir)
                        == Some(earlier[i].1) && kind_of_path(earlier[i].0) == Some(earlier[i].2);
                assert(files[k].0 == events[n - 1]->path@);
                assert(events[j] is Entry && events[n - 1] is Entry);
                if files[i].1 == files[k].1 {
                    assert(relative_to(events[j]->path@, dir) == Some(files[i].1));
                    assert(relative_to(events[n - 1]->path@, dir) == Some(files[k].1));
                    assert(files[i].1 =~= Seq::<char>::empty() || files[i].1.len() > 0);
                    lemma_relative_injective(files[i].0, files[k].0, dir);
                }
            }
        }
    }
}

/// Every template among the events of the walk is among the files that
/// a search that succeeds finds, with the path that leads to it from the
/// directory and with the kind of its extension.
pub proof fn lemma_discovery_covers(dir: Seq<char>, events: Seq<WalkEvent>, n: nat, j: int)
    requires
        n <= events.len(),
        found(dir, events, n) is Ok,
        0 <= j < n,
        is_template(dir, events[j]),
    ensures
        found(dir, events, n)->Ok_0.contains(
            (
                events[j]->path@,
                relative_to(events[j]->path@, dir).unwrap(),
                kind_of_path(events[j]->path@).unwrap(),
            ),
        ),
    decreases n,
{
    let before = found(dir, events, (n - 1) as nat);
    assert(before is Ok);
    let files = found(dir, events, n)->Ok_0;
    let file = (
        events[j]->path@,
        relative_to(events[j]->path@, dir).unwrap(),
        kind_of_path(events[j]->path@).unwrap(),
    );
    if j < n - 1 {
        lemma_discovery_covers(dir, events, (n - 1) as nat, j);
        let i = choose|i: int| 0 <= i < before->Ok_0.len() && before->Ok_0[i] == file;
        assert(files[i] == file);
    } else {
        assert(files[files.len() - 1] == file);
    }
}

} // verus!
