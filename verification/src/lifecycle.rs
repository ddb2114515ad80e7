//! Decisions of staging and of sealed-input verification.

use vstd::prelude::*;
use vstd::string::*;

use crate::cargo_graph::{lemma_text_key_split, push_text_key, text_key};
use crate::journal::{
    JOURNAL_READY_PATH, JOURNAL_TEMP_PATH, LIFECYCLE_LOCK_PATH, TRANSACTION_JOURNAL_PATH,
};
use crate::ordered::{Distinct, Keyed, Sorted};
use crate::text::{join2, join3, join4, join6, same_text, split_on, split_text, texts};

verus! {

/// Failure while staging, publishing, or verifying a lifecycle project tree.
#[derive(Debug, PartialEq, Eq)]
pub enum LifecycleError {
    /// A new-project destination already exists.
    DestinationExists(String),
    /// A project tree contains an unsafe or unsupported entry.
    InvalidProject(String),
    /// A filesystem operation failed.
    Filesystem {
        /// Operation being performed.
        operation: String,
        /// Path involved in the failure.
        path: String,
        /// Underlying I/O failure.
        failure: String,
    },
}

impl LifecycleError {
    /// The diagnostic text.
    pub open spec fn text(self) -> Seq<char> {
        match self {
            LifecycleError::DestinationExists(path) => "new-project destination already exists: "@
                + path@,
            LifecycleError::InvalidProject(message) => message@,
            LifecycleError::Filesystem { operation, path, failure } => "cannot "@ + operation@
                + " `"@ + path@ + "`: "@ + failure@,
        }
    }

    /// Returns the diagnostic text.
    pub fn message(&self) -> (text: String)
        ensures
            text@ == self.text(),
    {
        match self {
            LifecycleError::DestinationExists(path) => join2(
                "new-project destination already exists: ",
                path.as_str(),
            ),
            LifecycleError::InvalidProject(message) => message.clone(),
            LifecycleError::Filesystem { operation, path, failure } => join6(
                "cannot ",
                operation.as_str(),
                " `",
                path.as_str(),
                "`: ",
                failure.as_str(),
            ),
        }
    }
}

/// What stands at a path.
#[derive(Clone, Copy, Debug, PartialEq, Eq, Structural)]
pub enum NodeKind {
    /// A regular file.
    File,
    /// A directory.
    Directory,
    /// A symbolic link.
    Symlink,
    /// Anything else.
    Other,
}

// The project tree.
/// Whether a path is no input of a project: version control, build outputs, and the lifecycle's
/// own control files.
pub open spec fn is_omitted(relative: Seq<char>) -> bool {
    let first = split_on(relative, '/')[0];
    ||| first == ".git"@
    ||| first == "target"@
    ||| relative == LIFECYCLE_LOCK_PATH@
    ||| relative == TRANSACTION_JOURNAL_PATH@
    ||| relative == JOURNAL_TEMP_PATH@
    ||| relative == JOURNAL_READY_PATH@
}

/// Returns whether a path is no input of a project.
pub fn omitted_path(relative: &str) -> (omitted: bool)
    ensures
        omitted == is_omitted(relative@),
{
    let components = split_text(relative, '/');
    let first = components[0].as_str();
    assert(texts(components@)[0] == first@);
    same_text(first, ".git") || same_text(first, "target") || same_text(
        relative,
        LIFECYCLE_LOCK_PATH,
    ) || same_text(relative, TRANSACTION_JOURNAL_PATH) || same_text(relative, JOURNAL_TEMP_PATH)
        || same_text(relative, JOURNAL_READY_PATH)
}

/// What to do with an entry of a project tree.
#[derive(Debug, PartialEq, Eq)]
pub enum TreeVisit {
    /// Leave it out.
    Omit,
    /// Visit the entries of the directory at this path.
    Descend(String),
    /// Take the file at this path as an input.
    Take(String),
}

/// The value of what to do with an entry.
pub enum VisitModel {
    /// Leave it out.
    Omit,
    /// Visit the entries of a directory.
    Descend(Seq<char>),
    /// Take a file as an input.
    Take(Seq<char>),
}

impl TreeVisit {
    /// The value of this decision.
    pub open spec fn view(&self) -> VisitModel {
        match *self {
            TreeVisit::Omit => VisitModel::Omit,
            TreeVisit::Descend(path) => VisitModel::Descend(path@),
            TreeVisit::Take(path) => VisitModel::Take(path@),
        }
    }
}

/// The path of an entry of a directory.
pub open spec fn entry_path(parent: Seq<char>, name: Seq<char>) -> Seq<char> {
    if parent.len() == 0 {
        name
    } else {
        parent + "/"@ + name
    }
}

/// What to do with an entry of a project tree, or why it cannot be staged.
pub open spec fn visit(parent: Seq<char>, name: Seq<char>, kind: NodeKind) -> Result<
    VisitModel,
    Seq<char>,
> {
    let relative = entry_path(parent, name);
    if is_omitted(relative) {
        Ok(VisitModel::Omit)
    } else {
        match kind {
            NodeKind::Symlink => Err("project staging refuses symlink `"@ + relative + "`"@),
            NodeKind::Directory => Ok(VisitModel::Descend(relative)),
            NodeKind::File => Ok(VisitModel::Take(relative)),
            NodeKind::Other => Err(
                "project staging refuses non-regular entry `"@ + relative + "`"@,
            ),
        }
    }
}

/// Decides what to do with an entry of a project tree.
pub fn visit_entry(parent: &str, name: &str, kind: NodeKind) -> (result: Result<
    TreeVisit,
    LifecycleError,
>)
    ensures
        match result {
            Ok(decision) => visit(parent@, name@, kind) == Ok::<VisitModel, Seq<char>>(decision@),
            Err(error) => error is InvalidProject && visit(parent@, name@, kind) == Err::<
                VisitModel,
                Seq<char>,
            >(error.text()),
        },
{
    let relative = if parent.is_empty() {
        name.to_owned()
    } else {
        join3(parent, "/", name)
    };
    if omitted_path(relative.as_str()) {
        return Ok(TreeVisit::Omit);
    }
    match kind {
        NodeKind::Symlink => Err(
            LifecycleError::InvalidProject(
                join3("project staging refuses symlink `", relative.as_str(), "`"),
            ),
        ),
        NodeKind::Directory => Ok(TreeVisit::Descend(relative)),
        NodeKind::File => Ok(TreeVisit::Take(relative)),
        NodeKind::Other => Err(
            LifecycleError::InvalidProject(
                join3("project staging refuses non-regular entry `", relative.as_str(), "`"),
            ),
        ),
    }
}

// Targets.
/// Why a path cannot be a target, given what stands at the components of it that are there, from
/// the first one on, of which `at` were looked at; `subject` names the path.
pub open spec fn target_defect(
    subject: Seq<char>,
    relative: Seq<char>,
    observed: Seq<NodeKind>,
    at: int,
) -> Option<Seq<char>>
    decreases observed.len() - at,
{
    if at < 0 || at >= observed.len() {
        None
    } else if observed[at] == NodeKind::Symlink {
        Some(subject + " has a symlinked component: `"@ + relative + "`"@)
    } else if at + 1 < split_on(relative, '/').len() && observed[at] != NodeKind::Directory {
        Some(subject + " has a non-directory ancestor: `"@ + relative + "`"@)
    } else {
        target_defect(subject, relative, observed, at + 1)
    }
}

/// Checks that a path can be a target, given what stands at the components of it that are there;
/// `subject` names the path in the diagnostic.
pub fn check_target(subject: &str, relative: &str, observed: &Vec<NodeKind>) -> (result: Result<
    (),
    String,
>)
    ensures
        match result {
            Ok(()) => target_defect(subject@, relative@, observed@, 0) is None,
            Err(message) => target_defect(subject@, relative@, observed@, 0) == Some(message@),
        },
{
    let components = split_text(relative, '/');
    let count: usize = components.len();
    assert(split_on(relative@, '/').len() == count);
    let mut index: usize = 0;
    while index < observed.len()
        invariant
            count == split_on(relative@, '/').len(),
            count >= 1,
            index <= observed@.len(),
            target_defect(subject@, relative@, observed@, 0) == target_defect(
                subject@,
                relative@,
                observed@,
                index as int,
            ),
        decreases observed@.len() - index,
    {
        let kind = observed[index];
        if kind == NodeKind::Symlink {
            return Err(
                join4(subject, " has a symlinked component: `", relative, "`"),
            );
        }
        if index < count - 1 && kind != NodeKind::Directory {
            return Err(
                join4(subject, " has a non-directory ancestor: `", relative, "`"),
            );
        }
        index += 1;
    }
    Ok(())
}

// Inputs.
/// A file that a sealed plan was based on, and the hash of its contents.
#[derive(Debug, PartialEq, Eq)]
pub struct InputHash {
    /// Project-relative path.
    pub path: String,
    /// Hash.
    pub hash: String,
}

/// The value of an input: path and hash.
pub type InputModel = (Seq<char>, Seq<char>);

impl Keyed for InputHash {
    type Model = InputModel;

    open spec fn model(&self) -> InputModel {
        (self.path@, self.hash@)
    }

    open spec fn key(model: InputModel) -> Seq<u32> {
        text_key(model.0) + text_key(model.1)
    }

    fn key_codes(&self) -> (result: Vec<u32>) {
        let mut key: Vec<u32> = Vec::new();
        push_text_key(&mut key, self.path.as_str());
        push_text_key(&mut key, self.hash.as_str());
        assert(key@ =~= text_key(self.path@) + text_key(self.hash@));
        key
    }

    fn duplicate(&self) -> (copy: Self) {
        InputHash { path: self.path.clone(), hash: self.hash.clone() }
    }
}

impl Distinct for InputHash {
    proof fn key_injective(left: InputModel, right: InputModel) {
        lemma_text_key_split(left.0, text_key(left.1), right.0, text_key(right.1));
        let none = Seq::<u32>::empty();
        assert(text_key(left.1) + none =~= text_key(left.1));
        assert(text_key(right.1) + none =~= text_key(right.1));
        lemma_text_key_split(left.1, none, right.1, none);
    }
}

/// The path of the first input, from place `at` on, that is not among other inputs.
pub open spec fn first_unmatched(list: Seq<InputModel>, other: Seq<InputModel>, at: int) -> Option<
    Seq<char>,
>
    decreases list.len() - at,
{
    if at < 0 || at >= list.len() {
        None
    } else if !other.contains(list[at]) {
        Some(list[at].0)
    } else {
        first_unmatched(list, other, at + 1)
    }
}

/// The path of the first input that is not what it was: changed or gone, or else new.
pub open spec fn changed_path(expected: Seq<InputModel>, actual: Seq<InputModel>) -> Option<
    Seq<char>,
> {
    match first_unmatched(expected, actual, 0) {
        Some(path) => Some(path),
        None => first_unmatched(actual, expected, 0),
    }
}

fn find_unmatched(list: &Sorted<InputHash>, other: &Sorted<InputHash>) -> (found: Option<String>)
    ensures
        match found {
            Some(path) => first_unmatched(list@, other@, 0) == Some(path@),
            None => first_unmatched(list@, other@, 0) is None,
        },
{
    let mut index: usize = 0;
    while index < list.len()
        invariant
            index <= list@.len(),
            first_unmatched(list@, other@, 0) == first_unmatched(list@, other@, index as int),
        decreases list@.len() - index,
    {
        let input = list.at(index);
        proof {
            crate::ordered::lemma_holds_value::<InputHash>(other@, input.model());
        }
        let key = input.key_codes();
        if !other.contains_key(&key) {
            return Some(input.path.clone());
        }
        index += 1;
    }
    None
}

/// Checks that the inputs of a sealed plan are what they were.
pub fn verify_project_inputs(expected: &Sorted<InputHash>, actual: &Sorted<InputHash>) -> (result:
    Result<(), LifecycleError>)
    ensures
        match result {
            Ok(()) => changed_path(expected@, actual@) is None && expected@ == actual@,
            Err(error) => changed_path(expected@, actual@) is Some && error
                is InvalidProject && error.text() == "sealed lifecycle input `"@ + changed_path(
                expected@,
                actual@,
            )->Some_0 + "` changed before apply"@,
        },
{
    let changed = match find_unmatched(expected, actual) {
        Some(path) => Some(path),
        None => find_unmatched(actual, expected),
    };
    match changed {
        None => {
            expected.use_order();
            actual.use_order();
            proof {
                lemma_all_matched(expected@, actual@, 0);
                lemma_all_matched(actual@, expected@, 0);
                assert forall|value: InputModel| #[trigger]
                    expected@.contains(value) <==> actual@.contains(value) by {
                    if expected@.contains(value) {
                        let k = choose|k: int| 0 <= k < expected@.len() && expected@[k] == value;
                        assert(actual@.contains(expected@[k]));
                    }
                    if actual@.contains(value) {
                        let k = choose|k: int| 0 <= k < actual@.len() && actual@[k] == value;
                        assert(expected@.contains(actual@[k]));
                    }
                }
                crate::ordered::lemma_ascending_extensional::<InputHash>(expected@, actual@);
            }
            Ok(())
        },
        Some(path) => Err(
            LifecycleError::InvalidProject(
                join3("sealed lifecycle input `", path.as_str(), "` changed before apply"),
            ),
        ),
    }
}

proof fn lemma_all_matched(list: Seq<InputModel>, other: Seq<InputModel>, at: int)
    requires
        0 <= at <= list.len(),
        first_unmatched(list, other, at) is None,
    ensures
        forall|i: int| at <= i < list.len() ==> other.contains(#[trigger] list[i]),
    decreases list.len() - at,
{
    if at < list.len() {
        lemma_all_matched(list, other, at + 1);
    }
}

/// Checks that both copies of a project were made from the same inputs.
pub fn check_stages(current: &Sorted<InputHash>, candidate: &Sorted<InputHash>) -> (result: Result<
    (),
    LifecycleError,
>)
    ensures
        match result {
            Ok(()) => current@ == candidate@,
            Err(error) => current@ != candidate@ && error is InvalidProject && error.text()
                == "project bytes changed while lifecycle staging was in progress"@,
        },
{
    match verify_project_inputs(current, candidate) {
        Ok(()) => Ok(()),
        Err(_) => {
            proof {
                if current@ == candidate@ {
                    lemma_same_inputs(current@, 0);
                }
            }
            Err(
                LifecycleError::InvalidProject(
                    "project bytes changed while lifecycle staging was in progress".to_owned(),
                ),
            )
        },
    }
}

proof fn lemma_same_inputs(list: Seq<InputModel>, at: int)
    requires
        0 <= at <= list.len(),
    ensures
        first_unmatched(list, list, at) is None,
    decreases list.len() - at,
{
    if at < list.len() {
        lemma_same_inputs(list, at + 1);
        assert(list.contains(list[at]));
    }
}

} // verus!
