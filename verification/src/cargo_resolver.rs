//! Resolution of a candidate lockfile: requests, Cargo invocations, and the order in which a
//! resolution proceeds.

use vstd::prelude::*;
use vstd::string::*;

use crate::cargo_difference::{CargoGraphDifference, ScopeModel};
use crate::cargo_framework::{framework_defect, framework_ids, legacy_framework_defect};
use crate::cargo_graph::{
    optional_str, outcome, CargoGraph, CargoGraphError, GraphDefect, GraphModel, FRAMEWORK_PACKAGE,
};
use crate::findings::or_else;
use crate::release::{ReleaseIdentity, ReleaseModel};
use crate::text::{
    chars_of, join2, join3, join4, join5, join6, join7, optional_view, same_bytes, same_text,
    texts, trim_text, trimmed,
};

verus! {

/// The Cargo operation used to resolve a candidate lifecycle plan.
#[derive(Debug, PartialEq, Eq)]
pub enum CargoResolverMode {
    /// Resolve a project that does not yet have a lockfile.
    New,
    /// Conservatively update the framework package in an existing lockfile.
    UpdateLocked,
    /// Reconcile a schema-1 local framework closure into the canonical Git package layout.
    LegacyCutover,
    /// Update the framework package to one exact Git commit.
    RevisionPrecise {
        /// Full lowercase commit revision passed to Cargo's `--precise` option.
        revision: String,
    },
}

/// The value of a resolution mode.
pub enum ModeModel {
    /// No lockfile yet.
    New,
    /// Conservative update.
    UpdateLocked,
    /// Legacy layout replaced.
    LegacyCutover,
    /// Exact revision.
    RevisionPrecise(Seq<char>),
}

impl CargoResolverMode {
    /// The value of this mode.
    pub open spec fn view(&self) -> ModeModel {
        match *self {
            CargoResolverMode::New => ModeModel::New,
            CargoResolverMode::UpdateLocked => ModeModel::UpdateLocked,
            CargoResolverMode::LegacyCutover => ModeModel::LegacyCutover,
            CargoResolverMode::RevisionPrecise { revision } => ModeModel::RevisionPrecise(
                revision@,
            ),
        }
    }
}

/// The value of a resolution request.
pub struct RequestModel {
    /// Project before the change, absent only for a new one.
    pub current: Option<Seq<char>>,
    /// Staged candidate project.
    pub candidate: Seq<char>,
    /// Operation.
    pub mode: ModeModel,
    /// Release expected before the change, absent for a new project and for one of the former
    /// form.
    pub before: Option<ReleaseModel>,
    /// Release required after the change.
    pub target: ReleaseModel,
    /// Whether every Cargo command runs offline.
    pub offline: bool,
}

/// Inputs for one Cargo-authoritative lockfile resolution.
#[derive(Debug, PartialEq, Eq)]
pub struct CargoResolverRequest {
    current_project: Option<String>,
    candidate_project: String,
    mode: CargoResolverMode,
    before_release: Option<ReleaseIdentity>,
    target_release: ReleaseIdentity,
    offline: bool,
}

/// The value of an optional release.
pub open spec fn release_view(release: Option<ReleaseIdentity>) -> Option<ReleaseModel> {
    match release {
        Some(identity) => Some(identity@),
        None => None,
    }
}

/// Path of the lockfile of a project.
pub open spec fn lockfile_path(project: Seq<char>) -> Seq<char> {
    if project.len() == 0 || project.last() == '/' {
        project + "Cargo.lock"@
    } else {
        project + "/Cargo.lock"@
    }
}

fn join_lockfile(project: &str) -> (path: String)
    ensures
        path@ == lockfile_path(project@),
{
    let chars = chars_of(project);
    if chars.len() == 0 || chars[chars.len() - 1] == '/' {
        join2(project, "Cargo.lock")
    } else {
        join2(project, "/Cargo.lock")
    }
}

impl RequestModel {
    /// Path of the lockfile of the current project.
    pub open spec fn current_lockfile(self) -> Option<Seq<char>> {
        match self.current {
            Some(project) => Some(lockfile_path(project)),
            None => None,
        }
    }

    /// Why the request is inconsistent, given whether both projects are the same place.
    pub open spec fn defect(self, same_project: bool) -> Option<Seq<char>> {
        if self.current is Some && same_project {
            Some(
                "current and candidate projects must be distinct so Cargo cannot mutate the destination before sealing"@,
            )
        } else {
            match self.mode {
                ModeModel::New => if self.current is Some || self.before is Some {
                    Some(
                        "new-project resolution cannot have a current project or before-release identity"@,
                    )
                } else {
                    None
                },
                ModeModel::LegacyCutover => if self.current is None || self.before is Some {
                    Some(
                        "legacy cutover requires a current project and no schema-2 before-release identity"@,
                    )
                } else {
                    None
                },
                ModeModel::UpdateLocked => if self.current is None || self.before is None {
                    Some("locked update requires a current project and before-release identity"@)
                } else if self.before != Some(self.target) {
                    Some(
                        "feature/profile lock updates require identical before and target release identities"@,
                    )
                } else {
                    None
                },
                ModeModel::RevisionPrecise(revision) => if self.current is None
                    || self.before is None {
                    Some(
                        "revision update requires a current project and before-release identity"@,
                    )
                } else if revision != self.target.revision {
                    Some(
                        "precise revision `"@ + revision
                            + "` does not match target release revision `"@ + self.target.revision
                            + "`"@,
                    )
                } else {
                    None
                },
            }
        }
    }

    /// What is wrong with the graph before the change.
    pub open spec fn before_defect(self, graph: GraphModel) -> Option<GraphDefect> {
        if self.mode is LegacyCutover {
            legacy_framework_defect(graph)
        } else {
            framework_defect(graph, self.before->Some_0)
        }
    }

    /// The scope of the change between two graphs.
    pub open spec fn scope(self, before: GraphModel, after: GraphModel) -> ScopeModel {
        ScopeModel {
            before,
            before_root: framework_ids(before.packages, self.mode is LegacyCutover)[0],
            after,
            after_root: framework_ids(after.packages, false)[0],
            legacy: self.mode is LegacyCutover,
        }
    }

    /// What is wrong with the graph after the change.
    pub open spec fn after_defect(self, before: Option<GraphModel>, after: GraphModel) -> Option<
        GraphDefect,
    > {
        or_else(
            framework_defect(after, self.target),
            match before {
                None => None,
                Some(graph) => if !(self.mode is LegacyCutover) && framework_ids(
                    graph.packages,
                    false,
                ).len() != 1 {
                    Some(
                        GraphDefect::FrameworkPackageCount {
                            actual: framework_ids(graph.packages, false),
                        },
                    )
                } else {
                    self.scope(graph, after).defect()
                },
            },
        )
    }

    /// The arguments of the Cargo command that resolves the candidate.
    pub open spec fn update_arguments(self) -> Seq<Seq<char>> {
        match self.mode {
            ModeModel::New => with_offline(seq!["generate-lockfile"@], self.offline),
            ModeModel::LegacyCutover => metadata_arguments(false, self.offline),
            ModeModel::UpdateLocked => update_command(self.target.version, None, self.offline),
            ModeModel::RevisionPrecise(revision) => update_command(
                self.before->Some_0.version,
                Some(revision),
                self.offline,
            ),
        }
    }
}

/// Arguments with the offline flag where it is wanted.
pub open spec fn with_offline(arguments: Seq<Seq<char>>, offline: bool) -> Seq<Seq<char>> {
    if offline {
        arguments.push("--offline"@)
    } else {
        arguments
    }
}

/// The arguments of a metadata command.
pub open spec fn metadata_arguments(locked: bool, offline: bool) -> Seq<Seq<char>> {
    let base = seq!["metadata"@, "--format-version"@, "1"@];
    with_offline(
        if locked {
            base.push("--locked"@)
        } else {
            base
        },
        offline,
    )
}

/// The arguments of an update command for the framework package at `version`.
pub open spec fn update_command(
    version: Seq<char>,
    precise: Option<Seq<char>>,
    offline: bool,
) -> Seq<Seq<char>> {
    let base = seq!["update"@, "-p"@, FRAMEWORK_PACKAGE@ + "@"@ + version];
    with_offline(
        match precise {
            Some(revision) => base.push("--precise"@).push(revision),
            None => base,
        },
        offline,
    )
}

/// Appends the offline flag where it is wanted.
pub fn cargo_args(arguments: Vec<String>, offline: bool) -> (result: Vec<String>)
    ensures
        texts(result@) == with_offline(texts(arguments@), offline),
{
    let mut result = arguments;
    let ghost before = texts(result@);
    if offline {
        result.push("--offline".to_owned());
        assert(texts(result@) =~= before.push("--offline"@));
    }
    result
}

/// Returns the arguments of a metadata command.
pub fn cargo_metadata_args(locked: bool, offline: bool) -> (result: Vec<String>)
    ensures
        texts(result@) == metadata_arguments(locked, offline),
{
    let mut arguments: Vec<String> = Vec::new();
    arguments.push("metadata".to_owned());
    arguments.push("--format-version".to_owned());
    arguments.push("1".to_owned());
    assert(texts(arguments@) =~= seq!["metadata"@, "--format-version"@, "1"@]);
    if locked {
        let ghost before = texts(arguments@);
        arguments.push("--locked".to_owned());
        assert(texts(arguments@) =~= before.push("--locked"@));
    }
    cargo_args(arguments, offline)
}

/// Returns the arguments of an update command for the framework package at `version`.
pub fn cargo_update_args(version: &str, precise: Option<&str>, offline: bool) -> (result: Vec<
    String,
>)
    ensures
        texts(result@) == update_command(
            version@,
            match precise {
                Some(revision) => Some(revision@),
                None => None,
            },
            offline,
        ),
{
    let mut arguments: Vec<String> = Vec::new();
    arguments.push("update".to_owned());
    arguments.push("-p".to_owned());
    arguments.push(join3(FRAMEWORK_PACKAGE, "@", version));
    assert(texts(arguments@) =~= seq!["update"@, "-p"@, FRAMEWORK_PACKAGE@ + "@"@ + version@]);
    if let Some(revision) = precise {
        let ghost before = texts(arguments@);
        arguments.push("--precise".to_owned());
        arguments.push(revision.to_owned());
        assert(texts(arguments@) =~= before.push("--precise"@).push(revision@));
    }
    cargo_args(arguments, offline)
}

impl CargoResolverRequest {
    /// The value of this request.
    pub closed spec fn view(&self) -> RequestModel {
        RequestModel {
            current: optional_view(self.current_project),
            candidate: self.candidate_project@,
            mode: self.mode@,
            before: release_view(self.before_release),
            target: self.target_release@,
            offline: self.offline,
        }
    }

    /// Constructs a request from all its parts.
    pub fn from_parts(
        current_project: Option<String>,
        candidate_project: String,
        mode: CargoResolverMode,
        before_release: Option<ReleaseIdentity>,
        target_release: ReleaseIdentity,
        offline: bool,
    ) -> (request: Self)
        ensures
            request@ == (RequestModel {
                current: optional_view(current_project),
                candidate: candidate_project@,
                mode: mode@,
                before: release_view(before_release),
                target: target_release@,
                offline,
            }),
    {
        CargoResolverRequest {
            current_project,
            candidate_project,
            mode,
            before_release,
            target_release,
            offline,
        }
    }

    /// Constructs a request for a new project with no existing lockfile.
    pub fn new_project(
        candidate_project: String,
        target_release: ReleaseIdentity,
        offline: bool,
    ) -> (request: Self)
        ensures
            request@ == (RequestModel {
                current: None,
                candidate: candidate_project@,
                mode: ModeModel::New,
                before: None,
                target: target_release@,
                offline,
            }),
            request@.defect(false) is None,
    {
        CargoResolverRequest {
            current_project: None,
            candidate_project,
            mode: CargoResolverMode::New,
            before_release: None,
            target_release,
            offline,
        }
    }

    /// Constructs a request for a schema-2 feature or profile change.
    pub fn update_locked(
        current_project: String,
        candidate_project: String,
        release: ReleaseIdentity,
        offline: bool,
    ) -> (request: Self)
        ensures
            request@ == (RequestModel {
                current: Some(current_project@),
                candidate: candidate_project@,
                mode: ModeModel::UpdateLocked,
                before: Some(release@),
                target: release@,
                offline,
            }),
            request@.defect(false) is None,
    {
        CargoResolverRequest {
            current_project: Some(current_project),
            candidate_project,
            mode: CargoResolverMode::UpdateLocked,
            before_release: Some(release.duplicate()),
            target_release: release,
            offline,
        }
    }

    /// Constructs a request that cuts a schema-1 local framework closure over to schema 2.
    pub fn legacy_cutover(
        current_project: String,
        candidate_project: String,
        target_release: ReleaseIdentity,
        offline: bool,
    ) -> (request: Self)
        ensures
            request@ == (RequestModel {
                current: Some(current_project@),
                candidate: candidate_project@,
                mode: ModeModel::LegacyCutover,
                before: None,
                target: target_release@,
                offline,
            }),
            request@.defect(false) is None,
    {
        CargoResolverRequest {
            current_project: Some(current_project),
            candidate_project,
            mode: CargoResolverMode::LegacyCutover,
            before_release: None,
            target_release,
            offline,
        }
    }

    /// Constructs a request that moves an existing project to an exact revision.
    pub fn revision_precise(
        current_project: String,
        candidate_project: String,
        before_release: ReleaseIdentity,
        target_release: ReleaseIdentity,
        offline: bool,
    ) -> (request: Self)
        ensures
            request@ == (RequestModel {
                current: Some(current_project@),
                candidate: candidate_project@,
                mode: ModeModel::RevisionPrecise(target_release@.revision),
                before: Some(before_release@),
                target: target_release@,
                offline,
            }),
            request@.defect(false) is None,
    {
        let revision = target_release.revision().to_owned();
        CargoResolverRequest {
            current_project: Some(current_project),
            candidate_project,
            mode: CargoResolverMode::RevisionPrecise { revision },
            before_release: Some(before_release),
            target_release,
            offline,
        }
    }

    /// Returns the staged current project, absent only for a new project.
    pub fn current_project(&self) -> (project: Option<&str>)
        ensures
            match project {
                Some(path) => self@.current == Some(path@),
                None => self@.current is None,
            },
    {
        optional_str(&self.current_project)
    }

    /// Returns the staged candidate project Cargo is allowed to modify.
    pub fn candidate_project(&self) -> (project: &str)
        ensures
            project@ == self@.candidate,
    {
        self.candidate_project.as_str()
    }

    /// Returns the requested Cargo resolution operation.
    pub fn mode(&self) -> (mode: &CargoResolverMode)
        ensures
            mode@ == self@.mode,
    {
        &self.mode
    }

    /// Returns the release expected in the current graph, absent for a new project and for one of
    /// the former form.
    pub fn before_release(&self) -> (release: Option<&ReleaseIdentity>)
        ensures
            match release {
                Some(identity) => self@.before == Some(identity@),
                None => self@.before is None,
            },
    {
        match &self.before_release {
            Some(release) => Some(release),
            None => None,
        }
    }

    /// Returns the release required in the candidate graph.
    pub fn target_release(&self) -> (release: &ReleaseIdentity)
        ensures
            release@ == self@.target,
    {
        &self.target_release
    }

    /// Returns whether every Cargo command must run offline.
    pub fn offline(&self) -> (offline: bool)
        ensures
            offline == self@.offline,
    {
        self.offline
    }
}

/// The result of a resolution, by its values.
pub struct ResultModel {
    /// Exact lockfile bytes.
    pub lockfile: Seq<u8>,
    /// Graph before the change.
    pub before: Option<GraphModel>,
    /// Graph after the change.
    pub after: GraphModel,
}

/// Exact lock bytes and validated Cargo graphs produced while sealing a plan.
#[derive(Debug, PartialEq, Eq)]
pub struct CargoResolverResult {
    lockfile: Vec<u8>,
    before: Option<CargoGraph>,
    after: CargoGraph,
    difference: Option<CargoGraphDifference>,
}

/// The value of an optional graph.
pub open spec fn graph_view(graph: Option<CargoGraph>) -> Option<GraphModel> {
    match graph {
        Some(value) => Some(value@),
        None => None,
    }
}

impl CargoResolverResult {
    /// The value of this result.
    pub closed spec fn view(&self) -> ResultModel {
        ResultModel {
            lockfile: self.lockfile@,
            before: graph_view(self.before),
            after: self.after@,
        }
    }

    /// The difference between the graphs, absent only for a new project.
    pub closed spec fn changes(&self) -> Option<CargoGraphDifference> {
        self.difference
    }

    /// Constructs a resolver result from exact lock bytes and validated graph projections.
    pub fn from_parts(
        lockfile: Vec<u8>,
        before: Option<CargoGraph>,
        after: CargoGraph,
        difference: Option<CargoGraphDifference>,
    ) -> (result: Self)
        ensures
            result@ == (ResultModel {
                lockfile: lockfile@,
                before: graph_view(before),
                after: after@,
            }),
            result.changes() == difference,
    {
        CargoResolverResult { lockfile, before, after, difference }
    }

    /// Returns the exact resolved lockfile bytes.
    pub fn lockfile(&self) -> (bytes: &Vec<u8>)
        ensures
            bytes@ == self@.lockfile,
    {
        &self.lockfile
    }

    /// Returns the validated current graph, absent only for a new project.
    pub fn before(&self) -> (graph: Option<&CargoGraph>)
        ensures
            match graph {
                Some(value) => self@.before == Some(value@),
                None => self@.before is None,
            },
    {
        match &self.before {
            Some(graph) => Some(graph),
            None => None,
        }
    }

    /// Returns the validated candidate graph.
    pub fn after(&self) -> (graph: &CargoGraph)
        ensures
            graph@ == self@.after,
    {
        &self.after
    }

    /// Returns the validated bounded graph difference, absent only for a new project.
    pub fn difference(&self) -> (difference: Option<&CargoGraphDifference>)
        ensures
            match difference {
                Some(changes) => self.changes() == Some(*changes),
                None => self.changes() is None,
            },
    {
        match &self.difference {
            Some(difference) => Some(difference),
            None => None,
        }
    }
}

/// One shell-free Cargo invocation retained for actionable diagnostics.
#[derive(Debug, PartialEq, Eq)]
pub struct CargoInvocation {
    /// Program name.
    pub program: String,
    /// Arguments.
    pub arguments: Vec<String>,
}

/// Failure to execute, validate, or seal a Cargo resolution.
#[derive(Debug, PartialEq, Eq)]
pub enum CargoResolverError {
    /// The typed request contains an inconsistent mode or release identity.
    InvalidRequest(String),
    /// Cargo could not be started.
    Spawn {
        /// Exact shell-free invocation.
        command: CargoInvocation,
        /// Working directory supplied to Cargo.
        cwd: String,
        /// Process-spawn failure.
        failure: String,
    },
    /// Cargo exited unsuccessfully.
    CommandFailed {
        /// Exact shell-free invocation.
        command: CargoInvocation,
        /// Working directory supplied to Cargo.
        cwd: String,
        /// Cargo exit status.
        status: String,
        /// Captured standard output.
        stdout: String,
        /// Captured standard error.
        stderr: String,
    },
    /// Cargo emitted malformed or structurally invalid metadata.
    Metadata {
        /// Working directory used for the metadata command.
        cwd: String,
        /// Captured Cargo standard error.
        diagnostics: String,
        /// Metadata parsing or graph-projection failure.
        failure: String,
    },
    /// The resolved graph violated provenance or bounded-difference rules.
    Graph(CargoGraphError),
    /// `Cargo.lock` could not be inspected or read.
    LockfileIo {
        /// Lockfile path.
        path: String,
        /// Underlying filesystem failure.
        failure: String,
    },
    /// `Cargo.lock` exists but is a symlink or another non-regular file type.
    LockfileNotRegular {
        /// Unsafe lockfile path.
        path: String,
    },
    /// The candidate was not seeded with the current project's exact lockfile bytes.
    CandidateLockMismatch {
        /// Current project lockfile path.
        current: String,
        /// Candidate project lockfile path.
        candidate: String,
    },
    /// A new-project request found a pre-existing lockfile.
    UnexpectedLockfile {
        /// Pre-existing candidate lockfile path.
        path: String,
    },
}

/// The form in which a debugging listing shows a string.
pub uninterp spec fn debug_form(text: Seq<char>) -> Seq<char>;

/// Formats with the `Debug` form of `str`, which depends on `text` alone.
#[verifier::external_body]
pub(crate) fn debug_text(text: &str) -> (form: String)
    ensures
        form@ == debug_form(text@),
{
    format!("{:?}", text)
}

/// Captured output as a diagnostic shows it.
pub open spec fn shown_output(text: Seq<char>) -> Seq<char> {
    if trimmed(text).len() == 0 {
        "<empty>"@
    } else {
        trimmed(text)
    }
}

/// Returns captured output as a diagnostic shows it.
pub fn diagnostic_text(value: &str) -> (text: &str)
    ensures
        text@ == shown_output(value@),
{
    let text = trim_text(value);
    if text.is_empty() {
        "<empty>"
    } else {
        text
    }
}

/// The first `count` arguments, each in its debugging form behind a space.
pub open spec fn shown_arguments(arguments: Seq<Seq<char>>, count: int) -> Seq<char>
    decreases count,
{
    if count <= 0 {
        Seq::empty()
    } else {
        shown_arguments(arguments, count - 1) + " "@ + debug_form(arguments[count - 1])
    }
}

impl CargoInvocation {
    /// The command line as a diagnostic shows it.
    pub open spec fn text(self) -> Seq<char> {
        self.program@ + shown_arguments(texts(self.arguments@), self.arguments@.len() as int)
    }

    /// Returns the command line as a diagnostic shows it.
    pub fn message(&self) -> (text: String)
        ensures
            text@ == self.text(),
    {
        let mut text = self.program.clone();
        let ghost all = texts(self.arguments@);
        let mut index: usize = 0;
        assert(text@ =~= self.program@ + shown_arguments(all, 0));
        while index < self.arguments.len()
            invariant
                all == texts(self.arguments@),
                index <= self.arguments@.len(),
                text@ == self.program@ + shown_arguments(all, index as int),
            decreases self.arguments@.len() - index,
        {
            let argument = debug_text(self.arguments[index].as_str());
            text.append(" ");
            text.append(argument.as_str());
            assert(all[index as int] == self.arguments@[index as int]@);
            index += 1;
            assert(text@ =~= self.program@ + shown_arguments(all, index as int));
        }
        text
    }
}

impl CargoResolverError {
    /// The diagnostic text.
    pub open spec fn text(self) -> Seq<char> {
        match self {
            CargoResolverError::InvalidRequest(message) => "invalid Cargo resolver request: "@
                + message@,
            CargoResolverError::Spawn { command, cwd, failure } => "failed to start `"@
                + command.text() + "` in `"@ + cwd@ + "`: "@ + failure@,
            CargoResolverError::CommandFailed { command, cwd, status, stdout, stderr } => "`"@
                + command.text() + "` failed in `"@ + cwd@ + "` with status "@ + status@ + (
            "; stdout: "@ + shown_output(stdout@) + "; stderr: "@ + shown_output(stderr@)),
            CargoResolverError::Metadata { cwd, diagnostics, failure } =>
                "could not parse `cargo metadata` output for `"@ + cwd@ + "`: "@ + failure@
                    + "; stderr: "@ + shown_output(diagnostics@),
            CargoResolverError::Graph(error) => "resolved Cargo graph is not acceptable: "@
                + error.defect().text(),
            CargoResolverError::LockfileIo { path, failure } =>
                "could not read resolved lockfile `"@ + path@ + "`: "@ + failure@,
            CargoResolverError::LockfileNotRegular { path } => "resolved lockfile `"@ + path@
                + "` must be a regular file and must not be a symlink"@,
            CargoResolverError::CandidateLockMismatch { current, candidate } =>
                "candidate lockfile `"@ + candidate@
                    + "` must initially match current lockfile `"@ + current@
                    + "` byte-for-byte"@,
            CargoResolverError::UnexpectedLockfile { path } =>
                "new-project resolution requires a missing lockfile, but `"@ + path@
                    + "` already exists"@,
        }
    }

    /// Returns the diagnostic text.
    pub fn message(&self) -> (text: String)
        ensures
            text@ == self.text(),
    {
        match self {
            CargoResolverError::InvalidRequest(message) => join2(
                "invalid Cargo resolver request: ",
                message.as_str(),
            ),
            CargoResolverError::Spawn { command, cwd, failure } => {
                let line = command.message();
                join6(
                    "failed to start `",
                    line.as_str(),
                    "` in `",
                    cwd.as_str(),
                    "`: ",
                    failure.as_str(),
                )
            },
            CargoResolverError::CommandFailed { command, cwd, status, stdout, stderr } => {
                let line = command.message();
                let outputs = join4(
                    "; stdout: ",
                    diagnostic_text(stdout.as_str()),
                    "; stderr: ",
                    diagnostic_text(stderr.as_str()),
                );
                join7(
                    "`",
                    line.as_str(),
                    "` failed in `",
                    cwd.as_str(),
                    "` with status ",
                    status.as_str(),
                    outputs.as_str(),
                )
            },
            CargoResolverError::Metadata { cwd, diagnostics, failure } => join6(
                "could not parse `cargo metadata` output for `",
                cwd.as_str(),
                "`: ",
                failure.as_str(),
                "; stderr: ",
                diagnostic_text(diagnostics.as_str()),
            ),
            CargoResolverError::Graph(error) => {
                let detail = error.message();
                join2("resolved Cargo graph is not acceptable: ", detail.as_str())
            },
            CargoResolverError::LockfileIo { path, failure } => join4(
                "could not read resolved lockfile `",
                path.as_str(),
                "`: ",
                failure.as_str(),
            ),
            CargoResolverError::LockfileNotRegular { path } => join3(
                "resolved lockfile `",
                path.as_str(),
                "` must be a regular file and must not be a symlink",
            ),
            CargoResolverError::CandidateLockMismatch { current, candidate } => join5(
                "candidate lockfile `",
                candidate.as_str(),
                "` must initially match current lockfile `",
                current.as_str(),
                "` byte-for-byte",
            ),
            CargoResolverError::UnexpectedLockfile { path } => join3(
                "new-project resolution requires a missing lockfile, but `",
                path.as_str(),
                "` already exists",
            ),
        }
    }
}

/// Rejects a request whose mode, projects and releases do not fit together.
pub fn validate_request(request: &CargoResolverRequest, same_project: bool) -> (result: Result<
    (),
    CargoResolverError,
>)
    ensures
        match result {
            Ok(()) => request@.defect(same_project) is None,
            Err(CargoResolverError::InvalidRequest(message)) => request@.defect(same_project)
                == Some(message@),
            Err(_) => false,
        },
{
    if request.current_project.is_some() && same_project {
        return Err(
            CargoResolverError::InvalidRequest(
                "current and candidate projects must be distinct so Cargo cannot mutate the destination before sealing".to_owned(),
            ),
        );
    }
    match &request.mode {
        CargoResolverMode::New => {
            if request.current_project.is_some() || request.before_release.is_some() {
                return Err(
                    CargoResolverError::InvalidRequest(
                        "new-project resolution cannot have a current project or before-release identity".to_owned(),
                    ),
                );
            }
        },
        CargoResolverMode::LegacyCutover => {
            if request.current_project.is_none() || request.before_release.is_some() {
                return Err(
                    CargoResolverError::InvalidRequest(
                        "legacy cutover requires a current project and no schema-2 before-release identity".to_owned(),
                    ),
                );
            }
        },
        CargoResolverMode::UpdateLocked => {
            let same_release = match &request.before_release {
                Some(before) => before.same(&request.target_release),
                None => false,
            };
            if request.current_project.is_none() || request.before_release.is_none() {
                return Err(
                    CargoResolverError::InvalidRequest(
                        "locked update requires a current project and before-release identity".to_owned(),
                    ),
                );
            }
            if !same_release {
                return Err(
                    CargoResolverError::InvalidRequest(
                        "feature/profile lock updates require identical before and target release identities".to_owned(),
                    ),
                );
            }
        },
        CargoResolverMode::RevisionPrecise { revision } => {
            if request.current_project.is_none() || request.before_release.is_none() {
                return Err(
                    CargoResolverError::InvalidRequest(
                        "revision update requires a current project and before-release identity".to_owned(),
                    ),
                );
            }
            if !same_text(revision.as_str(), request.target_release.revision()) {
                return Err(
                    CargoResolverError::InvalidRequest(
                        join5(
                            "precise revision `",
                            revision.as_str(),
                            "` does not match target release revision `",
                            request.target_release.revision(),
                            "`",
                        ),
                    ),
                );
            }
        },
    }
    Ok(())
}

/// The value of optional bytes.
pub open spec fn bytes_view(bytes: Option<Vec<u8>>) -> Option<Seq<u8>> {
    match bytes {
        Some(value) => Some(value@),
        None => None,
    }
}

/// Checks the lockfiles found before a resolution: a new project has none, and any other
/// candidate starts from the lockfile of the current project, where there is one.
pub fn validate_lockfile_inputs(
    request: &CargoResolverRequest,
    candidate: &Option<Vec<u8>>,
    current: &Option<Vec<u8>>,
) -> (result: Result<(), CargoResolverError>)
    requires
        !(request@.mode is New) ==> candidate is Some && (request@.current is Some
            ==> current is Some),
    ensures
        match result {
            Ok(()) => if request@.mode is New {
                candidate is None
            } else {
                request@.current is None || bytes_view(*candidate) == bytes_view(*current)
            },
            Err(CargoResolverError::UnexpectedLockfile { path }) => request@.mode is New
                && candidate is Some && path@ == lockfile_path(request@.candidate),
            Err(CargoResolverError::CandidateLockMismatch { current: path, candidate: other }) => !(
            request@.mode is New) && bytes_view(*candidate) != bytes_view(*current) && Some(path@)
                == request@.current_lockfile() && other@ == lockfile_path(request@.candidate),
            Err(_) => false,
        },
{
    let candidate_path = join_lockfile(request.candidate_project.as_str());
    if let CargoResolverMode::New = request.mode {
        if candidate.is_some() {
            return Err(CargoResolverError::UnexpectedLockfile { path: candidate_path });
        }
        return Ok(());
    }
    if let (Some(project), Some(left), Some(right)) = (
        &request.current_project,
        candidate,
        current,
    ) {
        if !same_bytes(left.as_slice(), right.as_slice()) {
            return Err(
                CargoResolverError::CandidateLockMismatch {
                    current: join_lockfile(project.as_str()),
                    candidate: candidate_path,
                },
            );
        }
    }
    Ok(())
}

/// What a resolution asks for next.
#[derive(Debug, PartialEq, Eq)]
pub enum ResolverAction {
    /// Read the lockfiles of both projects.
    InspectLockfiles,
    /// Read the resolved metadata of the current project.
    ReadCurrentMetadata {
        /// Cargo arguments.
        arguments: Vec<String>,
    },
    /// Run Cargo in the candidate project, and parse its output where it is metadata.
    ResolveCandidate {
        /// Cargo arguments.
        arguments: Vec<String>,
    },
    /// Read the resolved metadata of the candidate project.
    ReadCandidateMetadata {
        /// Cargo arguments.
        arguments: Vec<String>,
    },
    /// Read the candidate lockfile.
    ReadLockfile,
}

/// What a resolution is answered.
#[derive(Debug, PartialEq, Eq)]
pub enum ResolverEvent {
    /// The lockfiles of both projects; only a new project may lack them.
    Lockfiles {
        /// Candidate lockfile.
        candidate: Option<Vec<u8>>,
        /// Current lockfile.
        current: Option<Vec<u8>>,
    },
    /// A parsed package graph.
    Metadata(CargoGraph),
    /// Cargo resolved the candidate.
    Resolved,
    /// The candidate lockfile.
    Lockfile(Vec<u8>),
}

/// Where a resolution stands.
#[derive(Debug, PartialEq, Eq)]
pub enum ResolutionState {
    /// The lockfiles are wanted.
    Lockfiles,
    /// The current graph is wanted.
    Current,
    /// Cargo is to resolve the candidate.
    Update {
        /// Validated current graph, absent only for a new project.
        before: Option<CargoGraph>,
    },
    /// The candidate graph is wanted.
    Candidate {
        /// Validated current graph, absent only for a new project.
        before: Option<CargoGraph>,
    },
    /// The candidate lockfile is wanted.
    Seal {
        /// Validated current graph, absent only for a new project.
        before: Option<CargoGraph>,
        /// Validated candidate graph.
        after: CargoGraph,
        /// Validated difference, absent only for a new project.
        difference: Option<CargoGraphDifference>,
    },
}

/// One step of a resolution.
#[derive(Debug, PartialEq, Eq)]
pub enum ResolutionStep {
    /// The resolution goes on.
    Continue {
        /// Next state.
        state: ResolutionState,
        /// What is wanted in that state.
        action: ResolverAction,
    },
    /// The resolution is sealed.
    Sealed(CargoResolverResult),
}

/// Whether a graph before the change is there exactly where the mode needs one, and is sound.
pub open spec fn before_is_sound(request: RequestModel, before: Option<GraphModel>) -> bool {
    match before {
        None => request.mode is New,
        Some(graph) => !(request.mode is New) && graph.is_consistent() && request.before_defect(
            graph,
        ) is None,
    }
}

impl ResolutionState {
    /// Whether everything that this state holds was validated for `request`.
    pub open spec fn is_sound(self, request: RequestModel) -> bool {
        match self {
            ResolutionState::Lockfiles => true,
            ResolutionState::Current => !(request.mode is New),
            ResolutionState::Update { before } => before_is_sound(request, graph_view(before)),
            ResolutionState::Candidate { before } => before_is_sound(request, graph_view(before)),
            ResolutionState::Seal { before, after, difference } => {
                &&& before_is_sound(request, graph_view(before))
                &&& request.after_defect(graph_view(before), after@) is None
                &&& difference is Some <==> before is Some
                &&& difference matches Some(changes) ==> request.scope(
                    graph_view(before)->Some_0,
                    after@,
                ).describes(changes@)
            },
        }
    }

    /// Whether this state waits for `event`.
    pub open spec fn awaits(self, request: RequestModel, event: ResolverEvent) -> bool {
        match self {
            ResolutionState::Lockfiles => event matches ResolverEvent::Lockfiles {
                candidate,
                current,
            } && (request.mode is New || candidate is Some && current is Some),
            ResolutionState::Current => event is Metadata,
            ResolutionState::Update { before } => if request.mode is LegacyCutover {
                event is Metadata
            } else {
                event is Resolved
            },
            ResolutionState::Candidate { before } => event is Metadata,
            ResolutionState::Seal { before, after, difference } => event is Lockfile,
        }
    }
}

/// Validates the graph before the change.
fn validate_before(request: &CargoResolverRequest, graph: &CargoGraph) -> (result: Result<
    (),
    CargoGraphError,
>)
    requires
        request@.defect(false) is None,
        !(request@.mode is New),
    ensures
        outcome(result) == request@.before_defect(graph@),
{
    match &request.mode {
        CargoResolverMode::LegacyCutover => match graph.validate_legacy_framework() {
            Ok(_) => Ok(()),
            Err(error) => Err(error),
        },
        _ => match &request.before_release {
            Some(release) => match graph.validate_framework(release) {
                Ok(_) => Ok(()),
                Err(error) => Err(error),
            },
            None => {
                assert(false);
                Ok(())
            },
        },
    }
}

/// Validates the graph after the change and its difference to the graph before.
fn validate_after(
    request: &CargoResolverRequest,
    before: &Option<CargoGraph>,
    after: &CargoGraph,
) -> (result: Result<Option<CargoGraphDifference>, CargoGraphError>)
    requires
        before_is_sound(request@, graph_view(*before)),
    ensures
        outcome(result) == request@.after_defect(graph_view(*before), after@),
        result matches Ok(difference) ==> (difference is Some <==> before is Some),
        result matches Ok(Some(changes)) ==> request@.scope(
            graph_view(*before)->Some_0,
            after@,
        ).describes(changes@),
{
    let after_framework = match after.validate_framework(&request.target_release) {
        Ok(id) => id,
        Err(error) => {
            return Err(error);
        },
    };
    match before {
        None => Ok(None),
        Some(graph) => {
            let difference = match &request.mode {
                CargoResolverMode::LegacyCutover => {
                    let before_framework = match graph.validate_legacy_framework() {
                        Ok(id) => id,
                        Err(error) => {
                            return Err(error);
                        },
                    };
                    graph.bounded_difference_from_roots(
                        after,
                        before_framework.as_str(),
                        after_framework.as_str(),
                        true,
                    )
                },
                _ => graph.bounded_framework_difference(after),
            };
            match difference {
                Ok(changes) => Ok(Some(changes)),
                Err(error) => Err(error),
            }
        },
    }
}

/// Returns the arguments of the Cargo command that resolves the candidate.
pub fn resolution_arguments(request: &CargoResolverRequest) -> (arguments: Vec<String>)
    requires
        request@.defect(false) is None,
    ensures
        texts(arguments@) == request@.update_arguments(),
{
    match &request.mode {
        CargoResolverMode::New => {
            let mut arguments: Vec<String> = Vec::new();
            arguments.push("generate-lockfile".to_owned());
            assert(texts(arguments@) =~= seq!["generate-lockfile"@]);
            cargo_args(arguments, request.offline)
        },
        CargoResolverMode::LegacyCutover => cargo_metadata_args(false, request.offline),
        CargoResolverMode::UpdateLocked => cargo_update_args(
            request.target_release.version(),
            None,
            request.offline,
        ),
        CargoResolverMode::RevisionPrecise { revision } => match &request.before_release {
            Some(before) => cargo_update_args(
                before.version(),
                Some(revision.as_str()),
                request.offline,
            ),
            None => {
                assert(false);
                Vec::new()
            },
        },
    }
}

/// Begins a resolution: rejects an inconsistent request, and asks for the lockfiles otherwise.
pub fn begin_resolution(request: &CargoResolverRequest, same_project: bool) -> (result: Result<
    ResolutionStep,
    CargoResolverError,
>)
    ensures
        match result {
            Ok(step) => request@.defect(same_project) is None && step == (
            ResolutionStep::Continue {
                state: ResolutionState::Lockfiles,
                action: ResolverAction::InspectLockfiles,
            }),
            Err(error) => request@.defect(same_project) is Some && error.text()
                == "invalid Cargo resolver request: "@ + request@.defect(same_project)->Some_0,
        },
{
    match validate_request(request, same_project) {
        Ok(()) => Ok(
            ResolutionStep::Continue {
                state: ResolutionState::Lockfiles,
                action: ResolverAction::InspectLockfiles,
            },
        ),
        Err(error) => Err(error),
    }
}

/// Takes one step of a resolution.
///
/// The lockfiles are compared first, then the current graph is validated, then Cargo resolves
/// the candidate, then the candidate graph and the difference are validated, and last the exact
/// lockfile bytes are sealed. Each Cargo command is asked for once.
pub fn resolve_lockfile(
    request: &CargoResolverRequest,
    state: ResolutionState,
    event: ResolverEvent,
) -> (result: Result<ResolutionStep, CargoResolverError>)
    requires
        request@.defect(false) is None,
        state.is_sound(request@),
        state.awaits(request@, event),
    ensures
        match (state, event) {
            (ResolutionState::Lockfiles, ResolverEvent::Lockfiles { candidate, current }) => {
                let accepted = if request@.mode is New {
                    candidate is None
                } else {
                    bytes_view(candidate) == bytes_view(current)
                };
                match result {
                    Ok(ResolutionStep::Continue { state: next, action }) => accepted && if request@.mode is New {
                        &&& next == (ResolutionState::Update { before: None })
                        &&& action is ResolveCandidate
                        &&& texts(action->ResolveCandidate_arguments@)
                            == request@.update_arguments()
                    } else {
                        &&& next is Current
                        &&& action is ReadCurrentMetadata
                        &&& texts(action->ReadCurrentMetadata_arguments@) == metadata_arguments(
                            true,
                            request@.offline,
                        )
                    },
                    Ok(_) => false,
                    Err(CargoResolverError::UnexpectedLockfile { path }) => {
                        &&& !accepted
                        &&& request@.mode is New
                        &&& path@ == lockfile_path(request@.candidate)
                    },
                    Err(CargoResolverError::CandidateLockMismatch { current: path, candidate: other }) => {
                        &&& !accepted
                        &&& !(request@.mode is New)
                        &&& Some(path@) == request@.current_lockfile()
                        &&& other@ == lockfile_path(request@.candidate)
                    },
                    Err(_) => false,
                }
            },
            (ResolutionState::Current, ResolverEvent::Metadata(graph)) => match result {
                Ok(ResolutionStep::Continue { state: next, action }) => {
                    &&& request@.before_defect(graph@) is None
                    &&& next == (ResolutionState::Update { before: Some(graph) })
                    &&& action is ResolveCandidate
                    &&& texts(action->ResolveCandidate_arguments@) == request@.update_arguments()
                },
                Err(CargoResolverError::Graph(error)) => request@.before_defect(graph@) == Some(
                    error.defect(),
                ),
                _ => false,
            },
            (ResolutionState::Update { before }, _) => match result {
                Ok(ResolutionStep::Continue { state: next, action }) => {
                    &&& next == (ResolutionState::Candidate { before })
                    &&& action is ReadCandidateMetadata
                    &&& texts(action->ReadCandidateMetadata_arguments@) == metadata_arguments(
                        true,
                        request@.offline,
                    )
                },
                _ => false,
            },
            (ResolutionState::Candidate { before }, ResolverEvent::Metadata(after)) => match result {
                Ok(ResolutionStep::Continue { state: next, action }) => {
                    &&& request@.after_defect(graph_view(before), after@) is None
                    &&& action is ReadLockfile
                    &&& next is Seal
                    &&& next->Seal_before == before
                    &&& next->Seal_after == after
                    &&& next.is_sound(request@)
                },
                Err(CargoResolverError::Graph(error)) => request@.after_defect(
                    graph_view(before),
                    after@,
                ) == Some(error.defect()),
                _ => false,
            },
            (
                ResolutionState::Seal { before, after, difference },
                ResolverEvent::Lockfile(bytes),
            ) => match result {
                Ok(ResolutionStep::Sealed(sealed)) => {
                    &&& sealed@ == (ResultModel {
                        lockfile: bytes@,
                        before: graph_view(before),
                        after: after@,
                    })
                    &&& sealed.changes() == difference
                },
                _ => false,
            },
            _ => false,
        },
        result matches Ok(ResolutionStep::Continue { state: next, action }) ==> next.is_sound(
            request@,
        ),
{
    match (state, event) {
        (ResolutionState::Lockfiles, ResolverEvent::Lockfiles { candidate, current }) => {
            match validate_lockfile_inputs(request, &candidate, &current) {
                Ok(()) => {},
                Err(error) => {
                    return Err(error);
                },
            }
            match &request.mode {
                CargoResolverMode::New => Ok(
                    ResolutionStep::Continue {
                        state: ResolutionState::Update { before: None },
                        action: ResolverAction::ResolveCandidate {
                            arguments: resolution_arguments(request),
                        },
                    },
                ),
                _ => Ok(
                    ResolutionStep::Continue {
                        state: ResolutionState::Current,
                        action: ResolverAction::ReadCurrentMetadata {
                            arguments: cargo_metadata_args(true, request.offline),
                        },
                    },
                ),
            }
        },
        (ResolutionState::Current, ResolverEvent::Metadata(graph)) => {
            match validate_before(request, &graph) {
                Ok(()) => {},
                Err(error) => {
                    return Err(CargoResolverError::Graph(error));
                },
            }
            let _ = graph.packages();
            Ok(
                ResolutionStep::Continue {
                    state: ResolutionState::Update { before: Some(graph) },
                    action: ResolverAction::ResolveCandidate {
                        arguments: resolution_arguments(request),
                    },
                },
            )
        },
        (ResolutionState::Update { before }, _) => Ok(
            ResolutionStep::Continue {
                state: ResolutionState::Candidate { before },
                action: ResolverAction::ReadCandidateMetadata {
                    arguments: cargo_metadata_args(true, request.offline),
                },
            },
        ),
        (ResolutionState::Candidate { before }, ResolverEvent::Metadata(after)) => {
            match validate_after(request, &before, &after) {
                Ok(difference) => Ok(
                    ResolutionStep::Continue {
                        state: ResolutionState::Seal { before, after, difference },
                        action: ResolverAction::ReadLockfile,
                    },
                ),
                Err(error) => Err(CargoResolverError::Graph(error)),
            }
        },
        (
            ResolutionState::Seal { before, after, difference },
            ResolverEvent::Lockfile(bytes),
        ) => Ok(
            ResolutionStep::Sealed(
                CargoResolverResult::from_parts(bytes, before, after, difference),
            ),
        ),
        _ => {
            assert(false);
            Err(CargoResolverError::InvalidRequest(String::new()))
        },
    }
}

} // verus!
