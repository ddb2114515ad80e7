//! Selection of the release binding of a generator build.

use vstd::prelude::*;
use vstd::string::*;

use crate::revision::{is_release_revision, is_valid_release_revision};
use crate::text::{join3, join5, same_text};

verus! {

/// Git information observed for the source checkout at build time.
#[derive(Debug, PartialEq, Eq)]
pub struct GitSnapshot {
    /// The commit named by `HEAD^{commit}`.
    pub revision: String,
    /// Whether porcelain status reported any staged, unstaged, or untracked path.
    pub dirty: bool,
}

/// The release binding selected for this generator build.
#[derive(Debug, PartialEq, Eq)]
pub enum BuildBinding {
    /// No explicit revision and no source Git metadata were available.
    Unbound,
    /// The build is bound to an immutable revision.
    Bound {
        /// Full lowercase commit revision.
        revision: String,
        /// Whether the source checkout was dirty.
        dirty: bool,
    },
}

/// A deterministic release-binding validation failure.
#[derive(Debug, PartialEq, Eq)]
pub enum BuildBindingError {
    /// The explicit packager-provided revision was not a full lowercase SHA.
    InvalidExplicitRevision(String),
    /// Git returned a value that was not a full lowercase SHA.
    InvalidGitRevision(String),
    /// The explicit revision did not identify the checked-out commit.
    RevisionMismatch {
        /// Validated packager-provided revision.
        explicit: String,
        /// Validated `HEAD^{commit}` revision.
        git: String,
    },
}

impl BuildBindingError {
    /// The diagnostic text.
    pub open spec fn text(self) -> Seq<char> {
        match self {
            BuildBindingError::InvalidExplicitRevision(revision) =>
                "OMNIUS_RELEASE_REVISION must be exactly 40 lowercase hexadecimal characters, got `"@
                    + revision@ + "`"@,
            BuildBindingError::InvalidGitRevision(revision) =>
                "Git HEAD must resolve to exactly 40 lowercase hexadecimal characters, got `"@
                    + revision@ + "`"@,
            BuildBindingError::RevisionMismatch { explicit, git } => "OMNIUS_RELEASE_REVISION `"@
                + explicit@ + "` does not match Git HEAD `"@ + git@ + "`"@,
        }
    }

    /// Returns the diagnostic text.
    pub fn message(&self) -> (text: String)
        ensures
            text@ == self.text(),
    {
        match self {
            BuildBindingError::InvalidExplicitRevision(revision) => join3(
                "OMNIUS_RELEASE_REVISION must be exactly 40 lowercase hexadecimal characters, got `",
                revision.as_str(),
                "`",
            ),
            BuildBindingError::InvalidGitRevision(revision) => join3(
                "Git HEAD must resolve to exactly 40 lowercase hexadecimal characters, got `",
                revision.as_str(),
                "`",
            ),
            BuildBindingError::RevisionMismatch { explicit, git } => join5(
                "OMNIUS_RELEASE_REVISION `",
                explicit.as_str(),
                "` does not match Git HEAD `",
                git.as_str(),
                "`",
            ),
        }
    }
}

/// Selects and validates a build binding without consulting process or filesystem state.
///
/// An explicit revision must agree with the checkout when both are known; the checkout decides
/// whether the build is dirty.
pub fn resolve_build_binding(
    explicit_revision: Option<&str>,
    git: Option<&GitSnapshot>,
) -> (result: Result<BuildBinding, BuildBindingError>)
    ensures
        ({
            let explicit_ok = explicit_revision matches Some(revision) ==> is_release_revision(
                revision@,
            );
            let git_ok = git matches Some(snapshot) ==> is_release_revision(snapshot.revision@);
            let agree = (explicit_revision matches Some(revision) && git matches Some(snapshot))
                ==> explicit_revision->Some_0@ == git->Some_0.revision@;
            match result {
                Ok(BuildBinding::Unbound) => explicit_revision is None && git is None,
                Ok(BuildBinding::Bound { revision, dirty }) => explicit_ok && git_ok && agree && (
                explicit_revision is Some || git is Some) && revision@ == (
                if explicit_revision is Some {
                    explicit_revision->Some_0@
                } else {
                    git->Some_0.revision@
                }) && dirty == (git is Some && git->Some_0.dirty),
                Err(BuildBindingError::InvalidExplicitRevision(text)) => !explicit_ok && text@
                    == explicit_revision->Some_0@,
                Err(BuildBindingError::InvalidGitRevision(text)) => explicit_ok && !git_ok && text@
                    == git->Some_0.revision@,
                Err(BuildBindingError::RevisionMismatch { explicit, git: head }) => explicit_ok
                    && git_ok && !agree && explicit@ == explicit_revision->Some_0@ && head@
                    == git->Some_0.revision@,
            }
        }),
{
    if let Some(revision) = explicit_revision {
        if !is_valid_release_revision(revision) {
            return Err(BuildBindingError::InvalidExplicitRevision(revision.to_owned()));
        }
    }
    if let Some(snapshot) = git {
        if !is_valid_release_revision(snapshot.revision.as_str()) {
            return Err(BuildBindingError::InvalidGitRevision(snapshot.revision.clone()));
        }
    }
    match (explicit_revision, git) {
        (Some(explicit), Some(snapshot)) => {
            if !same_text(explicit, snapshot.revision.as_str()) {
                Err(
                    BuildBindingError::RevisionMismatch {
                        explicit: explicit.to_owned(),
                        git: snapshot.revision.clone(),
                    },
                )
            } else {
                Ok(BuildBinding::Bound { revision: explicit.to_owned(), dirty: snapshot.dirty })
            }
        },
        (Some(explicit), None) => Ok(
            BuildBinding::Bound { revision: explicit.to_owned(), dirty: false },
        ),
        (None, Some(snapshot)) => Ok(
            BuildBinding::Bound { revision: snapshot.revision.clone(), dirty: snapshot.dirty },
        ),
        (None, None) => Ok(BuildBinding::Unbound),
    }
}

/// The marker line that Cargo's own checkouts show in porcelain status.
pub open spec fn transport_marker() -> Seq<u8> {
    "?? .cargo-ok".spec_bytes()
}

/// Whether the bytes from `start` to `end` are one whole line: no line feed is inside, and each
/// end is an end of the output or stands at a line feed.
pub open spec fn is_line(output: Seq<u8>, start: int, end: int) -> bool {
    &&& 0 <= start <= end <= output.len()
    &&& (start == 0 || output[start - 1] == 10)
    &&& (end == output.len() || output[end] == 10)
    &&& forall|i: int| start <= i < end ==> #[trigger] output[i] != 10
}

/// Whether a line other than the transport marker is in the output.
pub open spec fn reports_change(output: Seq<u8>) -> bool {
    exists|start: int, end: int| #[trigger]
        is_line(output, start, end) && start < end && output.subrange(start, end)
            != transport_marker()
}

/// Reports whether exact porcelain-v1 output contains a source change.
///
/// Cargo creates an untracked `.cargo-ok` marker in Git dependency checkouts; that transport
/// marker is not part of the source tree and does not make a release build dirty.
pub fn porcelain_status_is_dirty(output: &[u8]) -> (dirty: bool)
    ensures
        dirty == reports_change(output@),
{
    let marker = "?? .cargo-ok".as_bytes();
    let mut start: usize = 0;
    let mut end: usize = 0;
    let mut line: Vec<u8> = Vec::new();
    let length: usize = output.len();
    while end < length
        invariant
            length == output@.len(),
            marker@ == transport_marker(),
            start <= end <= length,
            start == 0 || output@[start - 1] == 10,
            forall|i: int| start <= i < end ==> #[trigger] output@[i] != 10,
            line@ == output@.subrange(start as int, end as int),
            forall|s: int, e: int| #[trigger]
                is_line(output@, s, e) && s < start && s < e ==> output@.subrange(s, e)
                    == transport_marker(),
        decreases length - end,
    {
        let byte: u8 = output[end];
        if byte == 10 {
            if line.len() > 0 && !crate::text::same_bytes(line.as_slice(), marker) {
                assert(is_line(output@, start as int, end as int));
                return true;
            }
            assert forall|s: int, e: int| #[trigger]
                is_line(output@, s, e) && s < end + 1 && s < e implies output@.subrange(s, e)
                == transport_marker() by {
                if s >= start {
                    if s > start {
                        assert(output@[s - 1] == 10);
                        assert(s - 1 >= end);
                    }
                    if s == end {
                        assert(output@[s] == 10);
                    }
                    assert(s == start);
                    if e < end {
                        assert(output@[e] == 10);
                    }
                    if e > end {
                        assert(output@[end as int] == 10);
                    }
                    assert(e == end);
                }
            }
            start = end + 1;
            line = Vec::new();
        } else {
            line.push(byte);
        }
        end += 1;
        assert(line@ =~= output@.subrange(start as int, end as int));
    }
    if line.len() > 0 && !crate::text::same_bytes(line.as_slice(), marker) {
        assert(is_line(output@, start as int, end as int));
        return true;
    }
    assert forall|s: int, e: int| #[trigger]
        is_line(output@, s, e) && s < e implies output@.subrange(s, e)
        == transport_marker() by {
        if s >= start {
            if s > start {
                assert(output@[s - 1] == 10);
            }
            if e < end {
                assert(output@[e] == 10);
            }
        }
    }
    false
}

} // verus!
