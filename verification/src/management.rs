//! Management plans: what they hold, how they are ordered, and how they fail.

use vstd::prelude::*;
use vstd::string::*;
use vstd::utf8::*;

use crate::cargo_graph::{
    lemma_optional_key_split, lemma_text_key_split, optional_key, push_optional_key, push_text_key,
    text_key,
};
use crate::cargo_resolver::CargoResolverError;
use crate::file_map::FileMap;
use crate::modules::CatalogError;
use crate::ordered::{codes, codes_of, models, Distinct, Keyed};
use crate::region::RegionError;
use crate::release::{ReleaseIdentity, ReleaseModel};
use crate::sorting::Ranked;
use crate::state::{ProjectState, StateModel};
use crate::text::{clone_optional_text, join2, join4, optional_view, texts};

verus! {

/// Version of the form of plans and reports.
pub const PLAN_SCHEMA_VERSION: u32 = 1;

/// Kind of deterministic management plan.
#[derive(Clone, Copy, Debug, PartialEq, Eq, Structural)]
pub enum PlanAction {
    /// Add a requested module and transitive dependencies.
    Add,
    /// Remove a module after reverse-dependency checks.
    Remove,
    /// Replace the selected module set with one exact bundled profile closure.
    ProfileSet,
    /// Reconcile selected state without changing selection.
    Diff,
    /// Upgrade a generated project through a versioned recipe.
    Upgrade,
}

/// One deterministic filesystem operation.
#[allow(inconsistent_fields)]
#[derive(Debug, PartialEq, Eq)]
pub enum PlanOperation {
    /// Create a previously absent kit-owned file.
    CreateFile {
        /// Project-relative target path.
        path: String,
        /// Hash of the new content.
        content_hash: String,
        /// Exact new UTF-8 content.
        content: String,
    },
    /// Replace a kit-owned file after exact source-baseline validation.
    ReplaceKitFile {
        /// Project-relative target path.
        path: String,
        /// Expected prior baseline hash.
        expected_hash: String,
        /// Hash of target baseline content.
        content_hash: String,
        /// Exact target baseline content.
        content: String,
    },
    /// Replace a file composed from approved managed-region reconciliations.
    ReconcileRegions {
        /// Project-relative target path.
        path: String,
        /// Expected whole-file hash before mutation.
        expected_hash: String,
        /// Hash after reconciliation.
        content_hash: String,
        /// Stable region IDs reconciled in this file.
        region_ids: Vec<String>,
        /// Exact whole-file content after preserving outside bytes.
        content: String,
    },
    /// Deterministically regenerate a derived file.
    RegenerateDerived {
        /// Project-relative target path.
        path: String,
        /// Expected hash, or `None` when creating the file.
        expected_hash: Option<String>,
        /// Hash of generated content.
        content_hash: String,
        /// Exact generated content.
        content: String,
    },
    /// Remove a kit-owned file whose current bytes match the approved baseline.
    RemoveFile {
        /// Project-relative target path.
        path: String,
        /// Expected approved baseline hash.
        expected_hash: String,
    },
    /// Update a generated Cargo lockfile after all source files.
    WriteLock {
        /// Always `Cargo.lock`.
        path: String,
        /// Expected prior lockfile hash.
        expected_hash: String,
        /// Hash of the upgraded lockfile.
        content_hash: String,
        /// Legacy UTF-8 upgraded lockfile contents.
        content: String,
    },
    /// Write exact Cargo-authoritative lockfile bytes while sealing lifecycle changes.
    WriteResolvedLock {
        /// Always `Cargo.lock`.
        path: String,
        /// Expected prior lockfile hash.
        expected_hash: String,
        /// Hash of the resolved lockfile.
        content_hash: String,
        /// Exact resolver-returned lockfile bytes.
        content: Vec<u8>,
    },
    /// Commit project state after every other operation succeeds.
    WriteState {
        /// Always `.omnius/service.toml`.
        path: String,
        /// Expected prior-state hash.
        expected_hash: String,
        /// Hash of the committed state.
        content_hash: String,
        /// Exact new TOML state.
        content: String,
    },
}

/// The value of a plan operation.
#[allow(inconsistent_fields)]
pub enum PlanStep {
    /// Create a file.
    CreateFile {
        /// Path.
        path: Seq<char>,
        /// Hash of the content.
        content_hash: Seq<char>,
        /// Content.
        content: Seq<char>,
    },
    /// Replace a kit-owned file.
    ReplaceKitFile {
        /// Path.
        path: Seq<char>,
        /// Hash before.
        expected_hash: Seq<char>,
        /// Hash of the content.
        content_hash: Seq<char>,
        /// Content.
        content: Seq<char>,
    },
    /// Reconcile managed regions.
    ReconcileRegions {
        /// Path.
        path: Seq<char>,
        /// Hash before.
        expected_hash: Seq<char>,
        /// Hash of the content.
        content_hash: Seq<char>,
        /// Region identifiers.
        region_ids: Seq<Seq<char>>,
        /// Content.
        content: Seq<char>,
    },
    /// Regenerate a derived file.
    RegenerateDerived {
        /// Path.
        path: Seq<char>,
        /// Hash before.
        expected_hash: Option<Seq<char>>,
        /// Hash of the content.
        content_hash: Seq<char>,
        /// Content.
        content: Seq<char>,
    },
    /// Remove a file.
    RemoveFile {
        /// Path.
        path: Seq<char>,
        /// Hash before.
        expected_hash: Seq<char>,
    },
    /// Update a lockfile.
    WriteLock {
        /// Path.
        path: Seq<char>,
        /// Hash before.
        expected_hash: Seq<char>,
        /// Hash of the content.
        content_hash: Seq<char>,
        /// Content.
        content: Seq<char>,
    },
    /// Write resolved lockfile bytes.
    WriteResolvedLock {
        /// Path.
        path: Seq<char>,
        /// Hash before.
        expected_hash: Seq<char>,
        /// Hash of the content.
        content_hash: Seq<char>,
        /// Content.
        content: Seq<u8>,
    },
    /// Commit project state.
    WriteState {
        /// Path.
        path: Seq<char>,
        /// Hash before.
        expected_hash: Seq<char>,
        /// Hash of the content.
        content_hash: Seq<char>,
        /// Content.
        content: Seq<char>,
    },
}

impl PlanStep {
    /// The path that the step changes.
    pub open spec fn target(self) -> Seq<char> {
        match self {
            PlanStep::CreateFile { path, .. } => path,
            PlanStep::ReplaceKitFile { path, .. } => path,
            PlanStep::ReconcileRegions { path, .. } => path,
            PlanStep::RegenerateDerived { path, .. } => path,
            PlanStep::RemoveFile { path, .. } => path,
            PlanStep::WriteLock { path, .. } => path,
            PlanStep::WriteResolvedLock { path, .. } => path,
            PlanStep::WriteState { path, .. } => path,
        }
    }

    /// The bytes that the step writes.
    pub open spec fn bytes(self) -> Option<Seq<u8>> {
        match self {
            PlanStep::CreateFile { content, .. } => Some(encode_utf8(content)),
            PlanStep::ReplaceKitFile { content, .. } => Some(encode_utf8(content)),
            PlanStep::ReconcileRegions { content, .. } => Some(encode_utf8(content)),
            PlanStep::RegenerateDerived { content, .. } => Some(encode_utf8(content)),
            PlanStep::RemoveFile { .. } => None,
            PlanStep::WriteLock { content, .. } => Some(encode_utf8(content)),
            PlanStep::WriteResolvedLock { content, .. } => Some(content),
            PlanStep::WriteState { content, .. } => Some(encode_utf8(content)),
        }
    }

    /// The hash of what the step expects to find.
    pub open spec fn hash_before(self) -> Option<Seq<char>> {
        match self {
            PlanStep::CreateFile { .. } => None,
            PlanStep::ReplaceKitFile { expected_hash, .. } => Some(expected_hash),
            PlanStep::ReconcileRegions { expected_hash, .. } => Some(expected_hash),
            PlanStep::RegenerateDerived { expected_hash, .. } => expected_hash,
            PlanStep::RemoveFile { expected_hash, .. } => Some(expected_hash),
            PlanStep::WriteLock { expected_hash, .. } => Some(expected_hash),
            PlanStep::WriteResolvedLock { expected_hash, .. } => Some(expected_hash),
            PlanStep::WriteState { expected_hash, .. } => Some(expected_hash),
        }
    }

    /// The hash of what the step writes.
    pub open spec fn hash_after(self) -> Option<Seq<char>> {
        match self {
            PlanStep::CreateFile { content_hash, .. } => Some(content_hash),
            PlanStep::ReplaceKitFile { content_hash, .. } => Some(content_hash),
            PlanStep::ReconcileRegions { content_hash, .. } => Some(content_hash),
            PlanStep::RegenerateDerived { content_hash, .. } => Some(content_hash),
            PlanStep::RemoveFile { .. } => None,
            PlanStep::WriteLock { content_hash, .. } => Some(content_hash),
            PlanStep::WriteResolvedLock { content_hash, .. } => Some(content_hash),
            PlanStep::WriteState { content_hash, .. } => Some(content_hash),
        }
    }

    /// The phase in which the step is taken: creations, replacements, regenerations, removals,
    /// the lockfile, and the state last.
    pub open spec fn phase(self) -> u32 {
        match self {
            PlanStep::CreateFile { .. } => 0,
            PlanStep::ReplaceKitFile { .. } => 1,
            PlanStep::ReconcileRegions { .. } => 1,
            PlanStep::RegenerateDerived { .. } => 2,
            PlanStep::RemoveFile { .. } => 3,
            PlanStep::WriteLock { .. } => 4,
            PlanStep::WriteResolvedLock { .. } => 4,
            PlanStep::WriteState { .. } => 5,
        }
    }
}

/// The rank of a step: its phase, then its path.
pub open spec fn step_rank() -> spec_fn(PlanStep) -> Seq<u32> {
    |step: PlanStep| seq![step.phase()] + codes(step.target())
}

/// The values of plan operations.
pub open spec fn steps(operations: Seq<PlanOperation>) -> Seq<PlanStep> {
    operations.map_values(|operation: PlanOperation| operation@)
}

impl PlanOperation {
    /// The value of this operation.
    pub open spec fn view(&self) -> PlanStep {
        match *self {
            PlanOperation::CreateFile { path, content_hash, content } => PlanStep::CreateFile {
                path: path@,
                content_hash: content_hash@,
                content: content@,
            },
            PlanOperation::ReplaceKitFile {
                path,
                expected_hash,
                content_hash,
                content,
            } => PlanStep::ReplaceKitFile {
                path: path@,
                expected_hash: expected_hash@,
                content_hash: content_hash@,
                content: content@,
            },
            PlanOperation::ReconcileRegions {
                path,
                expected_hash,
                content_hash,
                region_ids,
                content,
            } => PlanStep::ReconcileRegions {
                path: path@,
                expected_hash: expected_hash@,
                content_hash: content_hash@,
                region_ids: texts(region_ids@),
                content: content@,
            },
            PlanOperation::RegenerateDerived {
                path,
                expected_hash,
                content_hash,
                content,
            } => PlanStep::RegenerateDerived {
                path: path@,
                expected_hash: optional_view(expected_hash),
                content_hash: content_hash@,
                content: content@,
            },
            PlanOperation::RemoveFile { path, expected_hash } => PlanStep::RemoveFile {
                path: path@,
                expected_hash: expected_hash@,
            },
            PlanOperation::WriteLock {
                path,
                expected_hash,
                content_hash,
                content,
            } => PlanStep::WriteLock {
                path: path@,
                expected_hash: expected_hash@,
                content_hash: content_hash@,
                content: content@,
            },
            PlanOperation::WriteResolvedLock {
                path,
                expected_hash,
                content_hash,
                content,
            } => PlanStep::WriteResolvedLock {
                path: path@,
                expected_hash: expected_hash@,
                content_hash: content_hash@,
                content: content@,
            },
            PlanOperation::WriteState {
                path,
                expected_hash,
                content_hash,
                content,
            } => PlanStep::WriteState {
                path: path@,
                expected_hash: expected_hash@,
                content_hash: content_hash@,
                content: content@,
            },
        }
    }

    /// Returns the path that the operation changes.
    pub fn path(&self) -> (path: &str)
        ensures
            path@ == self@.target(),
    {
        match self {
            PlanOperation::CreateFile { path, .. } => path.as_str(),
            PlanOperation::ReplaceKitFile { path, .. } => path.as_str(),
            PlanOperation::ReconcileRegions { path, .. } => path.as_str(),
            PlanOperation::RegenerateDerived { path, .. } => path.as_str(),
            PlanOperation::RemoveFile { path, .. } => path.as_str(),
            PlanOperation::WriteLock { path, .. } => path.as_str(),
            PlanOperation::WriteResolvedLock { path, .. } => path.as_str(),
            PlanOperation::WriteState { path, .. } => path.as_str(),
        }
    }

    /// Returns the bytes that the operation writes.
    pub fn replacement_bytes(&self) -> (bytes: Option<&[u8]>)
        ensures
            match bytes {
                Some(content) => self@.bytes() == Some(content@),
                None => self@.bytes() is None,
            },
    {
        match self {
            PlanOperation::CreateFile { content, .. } => Some(content.as_str().as_bytes()),
            PlanOperation::ReplaceKitFile { content, .. } => Some(content.as_str().as_bytes()),
            PlanOperation::ReconcileRegions { content, .. } => Some(content.as_str().as_bytes()),
            PlanOperation::RegenerateDerived { content, .. } => Some(content.as_str().as_bytes()),
            PlanOperation::RemoveFile { .. } => None,
            PlanOperation::WriteLock { content, .. } => Some(content.as_str().as_bytes()),
            PlanOperation::WriteResolvedLock { content, .. } => Some(content.as_slice()),
            PlanOperation::WriteState { content, .. } => Some(content.as_str().as_bytes()),
        }
    }

    /// Returns the hash of what the operation expects to find.
    pub fn expected_hash(&self) -> (hash: Option<&str>)
        ensures
            match hash {
                Some(text) => self@.hash_before() == Some(text@),
                None => self@.hash_before() is None,
            },
    {
        match self {
            PlanOperation::CreateFile { .. } => None,
            PlanOperation::ReplaceKitFile { expected_hash, .. } => Some(expected_hash.as_str()),
            PlanOperation::ReconcileRegions { expected_hash, .. } => Some(expected_hash.as_str()),
            PlanOperation::RegenerateDerived { expected_hash, .. } => match expected_hash {
                Some(hash) => Some(hash.as_str()),
                None => None,
            },
            PlanOperation::RemoveFile { expected_hash, .. } => Some(expected_hash.as_str()),
            PlanOperation::WriteLock { expected_hash, .. } => Some(expected_hash.as_str()),
            PlanOperation::WriteResolvedLock { expected_hash, .. } => Some(expected_hash.as_str()),
            PlanOperation::WriteState { expected_hash, .. } => Some(expected_hash.as_str()),
        }
    }

    /// Returns the hash of what the operation writes.
    pub fn content_hash(&self) -> (hash: Option<&str>)
        ensures
            match hash {
                Some(text) => self@.hash_after() == Some(text@),
                None => self@.hash_after() is None,
            },
    {
        match self {
            PlanOperation::CreateFile { content_hash, .. } => Some(content_hash.as_str()),
            PlanOperation::ReplaceKitFile { content_hash, .. } => Some(content_hash.as_str()),
            PlanOperation::ReconcileRegions { content_hash, .. } => Some(content_hash.as_str()),
            PlanOperation::RegenerateDerived { content_hash, .. } => Some(content_hash.as_str()),
            PlanOperation::RemoveFile { .. } => None,
            PlanOperation::WriteLock { content_hash, .. } => Some(content_hash.as_str()),
            PlanOperation::WriteResolvedLock { content_hash, .. } => Some(content_hash.as_str()),
            PlanOperation::WriteState { content_hash, .. } => Some(content_hash.as_str()),
        }
    }

    /// Returns the phase in which the operation is performed.
    pub fn order(&self) -> (phase: u32)
        ensures
            phase == self@.phase(),
    {
        match self {
            PlanOperation::CreateFile { .. } => 0,
            PlanOperation::ReplaceKitFile { .. } => 1,
            PlanOperation::ReconcileRegions { .. } => 1,
            PlanOperation::RegenerateDerived { .. } => 2,
            PlanOperation::RemoveFile { .. } => 3,
            PlanOperation::WriteLock { .. } => 4,
            PlanOperation::WriteResolvedLock { .. } => 4,
            PlanOperation::WriteState { .. } => 5,
        }
    }
}

impl Ranked for PlanOperation {
    open spec fn rank(&self) -> Seq<u32> {
        seq![self@.phase()] + codes(self@.target())
    }

    fn rank_codes(&self) -> (codes: Vec<u32>) {
        let mut rank: Vec<u32> = Vec::new();
        rank.push(self.order());
        let mut path = codes_of(self.path());
        rank.append(&mut path);
        assert(rank@ =~= seq![self@.phase()] + crate::ordered::codes(self@.target()));
        rank
    }
}

/// Reviewable deterministic desired-state plan; application requires a sealed wrapper.
#[derive(Debug, PartialEq, Eq)]
pub struct ManagementPlan {
    /// Machine output schema.
    pub schema_version: u32,
    /// SHA-256 identity of every plan input and operation.
    pub plan_id: String,
    /// Requested operation.
    pub action: PlanAction,
    /// Explicit requested module for add/remove.
    pub requested_module: Option<String>,
    /// Explicit upgrade target for upgrade plans.
    pub target_version: Option<String>,
    /// Newly selected modules, including transitive prerequisites.
    pub added_modules: Vec<String>,
    /// Modules removed from selection.
    pub removed_modules: Vec<String>,
    /// Ordered filesystem changes; project state is always last.
    pub operations: Vec<PlanOperation>,
    /// Migration or persistence paths explicitly retained on removal.
    pub preserved_paths: Vec<String>,
}

/// The value of a plan, without its identity.
pub struct PlanModel {
    /// Machine output schema.
    pub schema_version: u32,
    /// Requested operation.
    pub action: PlanAction,
    /// Requested module.
    pub requested: Option<Seq<char>>,
    /// Upgrade target.
    pub target_version: Option<Seq<char>>,
    /// Newly selected modules.
    pub added: Seq<Seq<char>>,
    /// Modules removed from selection.
    pub removed: Seq<Seq<char>>,
    /// Filesystem changes.
    pub steps: Seq<PlanStep>,
    /// Retained paths.
    pub preserved: Seq<Seq<char>>,
}

impl ManagementPlan {
    /// The value of this plan, without its identity.
    pub open spec fn view(&self) -> PlanModel {
        PlanModel {
            schema_version: self.schema_version,
            action: self.action,
            requested: optional_view(self.requested_module),
            target_version: optional_view(self.target_version),
            added: texts(self.added_modules@),
            removed: texts(self.removed_modules@),
            steps: steps(self.operations@),
            preserved: texts(self.preserved_paths@),
        }
    }

    /// Returns whether applying the plan would change no project file.
    pub fn is_empty(&self) -> (empty: bool)
        ensures
            empty == (self@.steps.len() == 0),
    {
        self.operations.len() == 0
    }
}

/// One deterministic doctor finding.
#[derive(Debug, PartialEq, Eq, PartialOrd, Ord)]
pub struct Diagnostic {
    /// Stable machine-readable category.
    pub code: String,
    /// Related project path, when applicable.
    pub path: Option<String>,
    /// Actionable human-readable explanation.
    pub message: String,
}

/// The value of a finding: code, path and message.
pub type DiagnosticModel = (Seq<char>, Option<Seq<char>>, Seq<char>);

impl Keyed for Diagnostic {
    type Model = DiagnosticModel;

    open spec fn model(&self) -> DiagnosticModel {
        (self.code@, optional_view(self.path), self.message@)
    }

    open spec fn key(model: DiagnosticModel) -> Seq<u32> {
        text_key(model.0) + optional_key(model.1) + text_key(model.2)
    }

    fn key_codes(&self) -> (result: Vec<u32>) {
        let mut key: Vec<u32> = Vec::new();
        push_text_key(&mut key, self.code.as_str());
        push_optional_key(&mut key, &self.path);
        push_text_key(&mut key, self.message.as_str());
        assert(key@ =~= text_key(self.code@) + optional_key(optional_view(self.path)) + text_key(
            self.message@,
        ));
        key
    }

    fn duplicate(&self) -> (copy: Self) {
        Diagnostic {
            code: self.code.clone(),
            path: clone_optional_text(&self.path),
            message: self.message.clone(),
        }
    }
}

impl Distinct for Diagnostic {
    proof fn key_injective(left: DiagnosticModel, right: DiagnosticModel) {
        let none = Seq::<u32>::empty();
        let left_rest = optional_key(left.1) + (text_key(left.2) + none);
        let right_rest = optional_key(right.1) + (text_key(right.2) + none);
        assert(text_key(left.0) + optional_key(left.1) + text_key(left.2) =~= text_key(left.0)
            + left_rest);
        assert(text_key(right.0) + optional_key(right.1) + text_key(right.2) =~= text_key(right.0)
            + right_rest);
        lemma_text_key_split(left.0, left_rest, right.0, right_rest);
        lemma_optional_key_split(
            left.1,
            text_key(left.2) + none,
            right.1,
            text_key(right.2) + none,
        );
        lemma_text_key_split(left.2, none, right.2, none);
    }
}

/// Copies findings.
pub fn clone_diagnostics(list: &Vec<Diagnostic>) -> (copy: Vec<Diagnostic>)
    ensures
        models(copy@) == models(list@),
{
    let mut copy: Vec<Diagnostic> = Vec::new();
    let mut index: usize = 0;
    while index < list.len()
        invariant
            index <= list@.len(),
            models(copy@) == models(list@).take(index as int),
        decreases list@.len() - index,
    {
        let ghost before = models(copy@);
        copy.push(list[index].duplicate());
        assert(models(copy@) =~= before.push(models(list@)[index as int]));
        assert(models(list@).take(index + 1) =~= models(list@).take(index as int).push(
            models(list@)[index as int],
        ));
        index += 1;
    }
    assert(models(list@).take(index as int) =~= models(list@));
    copy
}

/// Nonmutating health report for state, catalog, ownership, and generated files.
#[derive(Debug, PartialEq, Eq)]
pub struct DoctorReport {
    /// Machine output schema.
    pub schema_version: u32,
    /// True only when no findings exist.
    pub healthy: bool,
    /// Sorted deterministic findings.
    pub diagnostics: Vec<Diagnostic>,
}

/// Result of a successfully committed sealed plan.
#[derive(Debug, PartialEq, Eq)]
pub struct ApplyOutcome {
    /// Applied deterministic plan identity.
    pub plan_id: String,
    /// Number of project files changed, including state.
    pub changed_files: usize,
}

/// Filesystem-free inputs to deterministic module planning.
#[derive(Debug)]
pub struct ProjectSnapshot {
    /// Strict project state.
    pub state: ProjectState,
    /// What is wrong with the state, if anything.
    pub state_error: Option<String>,
    /// Exact UTF-8 contents of known project paths. Missing keys mean absent files.
    pub files: FileMap,
    /// Explicit immutable framework release used by every generated dependency.
    pub release_identity: ReleaseIdentity,
    /// Deterministically rendered compile-time base descriptors.
    pub base_files: FileMap,
    /// Manifest and Cargo-configuration provenance findings captured from the filesystem.
    pub provenance_diagnostics: Vec<Diagnostic>,
    /// Exact bytes of the committed Cargo lockfile, stored outside the UTF-8 file map.
    pub lockfile: Option<Vec<u8>>,
}

/// The value of a snapshot.
pub struct SnapshotModel {
    /// Project state.
    pub state: StateModel,
    /// What is wrong with the state.
    pub state_error: Option<Seq<char>>,
    /// Contents of files.
    pub files: Map<Seq<char>, Seq<char>>,
    /// Release in use.
    pub release: ReleaseModel,
    /// Base descriptors.
    pub base_files: Map<Seq<char>, Seq<char>>,
    /// Provenance findings.
    pub provenance: Seq<DiagnosticModel>,
    /// Lockfile.
    pub lockfile: Option<Seq<u8>>,
}

/// The value of optional bytes.
pub open spec fn bytes_value(bytes: Option<Vec<u8>>) -> Option<Seq<u8>> {
    match bytes {
        Some(content) => Some(content@),
        None => None,
    }
}

impl ProjectSnapshot {
    /// The value of this snapshot.
    pub open spec fn view(&self) -> SnapshotModel {
        SnapshotModel {
            state: self.state@,
            state_error: optional_view(self.state_error),
            files: self.files@,
            release: self.release_identity@,
            base_files: self.base_files@,
            provenance: models(self.provenance_diagnostics@),
            lockfile: bytes_value(self.lockfile),
        }
    }
}

/// Planning, validation, ownership, or filesystem failure, by its values.
pub enum ManagerFailure {
    /// Module catalog error.
    Catalog(Seq<char>),
    /// Project state error.
    State(Seq<char>),
    /// Managed marker error.
    Region(Seq<char>),
    /// Preflight findings.
    Preflight(Seq<DiagnosticModel>),
    /// A plan no longer matches current project bytes.
    StalePlan(Seq<char>),
    /// A project path or source was unavailable or unsafe.
    InvalidProject(Seq<char>),
    /// Cargo resolution failed.
    Resolver(Seq<char>),
    /// Staging, publication, or input verification failed.
    Lifecycle(Seq<char>),
    /// Lifecycle lock, recovery, or transaction application failed.
    Journal(Seq<char>),
    /// A filesystem operation failed.
    Filesystem(Seq<char>, Seq<char>),
    /// Plan identity encoding failed.
    PlanEncoding(Seq<char>),
}

/// Planning, validation, ownership, or filesystem failure.
#[derive(Debug)]
pub enum ManagerError {
    /// Module catalog error.
    Catalog(CatalogError),
    /// Strict project state error.
    State(String),
    /// Managed marker error.
    Region(RegionError),
    /// Project preflight findings blocked planning or application.
    Preflight(Vec<Diagnostic>),
    /// A plan no longer matches current project bytes.
    StalePlan(String),
    /// A project path or source was unavailable or unsafe.
    InvalidProject(String),
    /// Cargo resolution failed while sealing a staged candidate.
    Resolver(CargoResolverError),
    /// Sibling staging, publication, or sealed-input verification failed.
    Lifecycle(String),
    /// Lifecycle lock, recovery, or durable transaction application failed.
    Journal(String),
    /// A filesystem operation failed.
    Filesystem {
        /// Path whose filesystem operation failed.
        path: String,
        /// Underlying I/O failure.
        failure: String,
    },
    /// Deterministic plan identity encoding failed.
    PlanEncoding(String),
}

/// What a list of findings adds to a diagnostic.
pub open spec fn findings_text(findings: Seq<DiagnosticModel>, count: int) -> Seq<char>
    decreases count,
{
    if count <= 0 {
        Seq::empty()
    } else {
        findings_text(findings, count - 1) + "; "@ + findings[count - 1].0 + ": "@ + findings[count
            - 1].2
    }
}

impl ManagerFailure {
    /// The diagnostic text.
    pub open spec fn text(self) -> Seq<char> {
        match self {
            ManagerFailure::Catalog(message) => "module catalog error: "@ + message,
            ManagerFailure::State(message) => "project state error: "@ + message,
            ManagerFailure::Region(message) => "managed region error: "@ + message,
            ManagerFailure::Preflight(findings) => "project preflight failed"@ + findings_text(
                findings,
                findings.len() as int,
            ),
            ManagerFailure::StalePlan(message) => message,
            ManagerFailure::InvalidProject(message) => message,
            ManagerFailure::Resolver(message) => "Cargo resolution failed: "@ + message,
            ManagerFailure::Lifecycle(message) => "lifecycle staging failed: "@ + message,
            ManagerFailure::Journal(message) => "durable lifecycle transaction failed: "@ + message,
            ManagerFailure::Filesystem(path, failure) => "filesystem operation failed for "@ + path
                + ": "@ + failure,
            ManagerFailure::PlanEncoding(message) =>
                "cannot encode deterministic plan identity: "@ + message,
        }
    }
}

impl ManagerError {
    /// The failure that this error reports.
    pub open spec fn failure(self) -> ManagerFailure {
        match self {
            ManagerError::Catalog(error) => ManagerFailure::Catalog(error.text()),
            ManagerError::State(message) => ManagerFailure::State(message@),
            ManagerError::Region(error) => ManagerFailure::Region(error.text()),
            ManagerError::Preflight(findings) => ManagerFailure::Preflight(models(findings@)),
            ManagerError::StalePlan(message) => ManagerFailure::StalePlan(message@),
            ManagerError::InvalidProject(message) => ManagerFailure::InvalidProject(message@),
            ManagerError::Resolver(error) => ManagerFailure::Resolver(error.text()),
            ManagerError::Lifecycle(message) => ManagerFailure::Lifecycle(message@),
            ManagerError::Journal(message) => ManagerFailure::Journal(message@),
            ManagerError::Filesystem { path, failure } => ManagerFailure::Filesystem(
                path@,
                failure@,
            ),
            ManagerError::PlanEncoding(message) => ManagerFailure::PlanEncoding(message@),
        }
    }

    /// Returns the diagnostic text.
    pub fn message(&self) -> (text: String)
        ensures
            text@ == self.failure().text(),
    {
        match self {
            ManagerError::Catalog(error) => join2("module catalog error: ", error.message()),
            ManagerError::State(message) => join2("project state error: ", message.as_str()),
            ManagerError::Region(error) => join2("managed region error: ", error.message()),
            ManagerError::Preflight(findings) => {
                let listed = list_findings(findings);
                join2("project preflight failed", listed.as_str())
            },
            ManagerError::StalePlan(message) => message.clone(),
            ManagerError::InvalidProject(message) => message.clone(),
            ManagerError::Resolver(error) => {
                let message = error.message();
                join2("Cargo resolution failed: ", message.as_str())
            },
            ManagerError::Lifecycle(message) => join2(
                "lifecycle staging failed: ",
                message.as_str(),
            ),
            ManagerError::Journal(message) => join2(
                "durable lifecycle transaction failed: ",
                message.as_str(),
            ),
            ManagerError::Filesystem { path, failure } => join4(
                "filesystem operation failed for ",
                path.as_str(),
                ": ",
                failure.as_str(),
            ),
            ManagerError::PlanEncoding(message) => join2(
                "cannot encode deterministic plan identity: ",
                message.as_str(),
            ),
        }
    }
}

fn list_findings(findings: &Vec<Diagnostic>) -> (text: String)
    ensures
        text@ == findings_text(models(findings@), findings@.len() as int),
{
    let ghost all = models(findings@);
    let mut text = String::new();
    let mut index: usize = 0;
    while index < findings.len()
        invariant
            all == models(findings@),
            index <= findings@.len(),
            text@ == findings_text(all, index as int),
        decreases findings@.len() - index,
    {
        assert(all[index as int] == findings@[index as int].model());
        text.append("; ");
        text.append(findings[index].code.as_str());
        text.append(": ");
        text.append(findings[index].message.as_str());
        index += 1;
    }
    text
}

/// What a fallible planning step finds.
pub open spec fn planned<T>(result: Result<T, ManagerError>) -> Option<ManagerFailure> {
    match result {
        Ok(_) => None,
        Err(error) => Some(error.failure()),
    }
}

} // verus!
