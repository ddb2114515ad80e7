//! Sealing of plans: what a resolved lockfile adds to them, and what is handed to the journal.

use vstd::prelude::*;
use vstd::string::*;

use crate::cargo_resolver::{CargoResolverRequest, CargoResolverResult, ModeModel, RequestModel};
use crate::digest::{hex, sha256, sha256_hex};
use crate::file_map::FileMap;
use crate::findings::or_else;
use crate::journal::{
    hash_failure, operation_path_failure, optional_hash_failure, shown_hash, JournalFailure,
};
use crate::lifecycle::InputHash;
use crate::management::{
    steps, ApplyOutcome, ManagementPlan, ManagerError, ManagerFailure, PlanModel, PlanOperation,
    PlanStep, ProjectSnapshot, SnapshotModel,
};
use crate::ordered::Sorted;
use crate::plan_files::push_step;
use crate::planning::identify_management_plan;
use crate::state::{owner_of, OwnershipKind};
use crate::text::{join3, same_bytes};
use crate::transaction::{JournalOperation, OperationModel};

verus! {

/// Which kind of request a plan is sealed for.
#[derive(Clone, Copy, Debug, PartialEq, Eq, Structural)]
pub enum SealKind {
    /// A change of the selection.
    Change,
    /// An update of the framework.
    Update,
}

// Before resolution.
/// What keeps the plan of a change from being sealed.
pub open spec fn change_defect(snapshot: SnapshotModel) -> Option<Seq<char>> {
    if snapshot.lockfile is None {
        Some("schema-2 lifecycle mutation requires a committed Cargo.lock"@)
    } else if owner_of(snapshot.state.ownership, "Cargo.lock"@) != Some(
        OwnershipKind::DependencyLock,
    ) {
        Some("schema-2 lifecycle mutation requires dependency-lock ownership for Cargo.lock"@)
    } else {
        None
    }
}

/// What keeps a plan from being sealed.
pub open spec fn seal_defect(snapshot: SnapshotModel, kind: SealKind) -> Option<Seq<char>> {
    match kind {
        SealKind::Change => change_defect(snapshot),
        SealKind::Update => if snapshot.lockfile is None {
            Some("project update requires a committed Cargo.lock"@)
        } else {
            None
        },
    }
}

/// Returns the committed lockfile that a plan is sealed against.
pub fn sealed_lockfile(snapshot: &ProjectSnapshot, kind: SealKind) -> (result: Result<
    &Vec<u8>,
    ManagerError,
>)
    ensures
        match result {
            Ok(lockfile) => seal_defect(snapshot@, kind) is None && snapshot@.lockfile == Some(
                lockfile@,
            ),
            Err(error) => seal_defect(snapshot@, kind) is Some && error.failure()
                == ManagerFailure::InvalidProject(seal_defect(snapshot@, kind)->Some_0),
        },
{
    let lockfile = match &snapshot.lockfile {
        Some(lockfile) => lockfile,
        None => {
            let message = match kind {
                SealKind::Change =>
                    "schema-2 lifecycle mutation requires a committed Cargo.lock",
                SealKind::Update => "project update requires a committed Cargo.lock",
            };
            return Err(ManagerError::InvalidProject(message.to_owned()));
        },
    };
    if kind == SealKind::Change && snapshot.state.ownership_of("Cargo.lock") != Some(
        OwnershipKind::DependencyLock,
    ) {
        return Err(
            ManagerError::InvalidProject(
                "schema-2 lifecycle mutation requires dependency-lock ownership for Cargo.lock".to_owned(),
            ),
        );
    }
    Ok(lockfile)
}

/// Makes the request to resolve the lockfile of a staged plan: a change keeps the release of the
/// project; an update moves to the release in use, from the recorded one or, for a project of the
/// former form, from none.
pub fn seal_request(
    kind: SealKind,
    legacy: bool,
    current: String,
    candidate: String,
    snapshot: &ProjectSnapshot,
    offline: bool,
) -> (request: CargoResolverRequest)
    ensures
        request@ == (RequestModel {
            current: Some(current@),
            candidate: candidate@,
            mode: match kind {
                SealKind::Change => ModeModel::UpdateLocked,
                SealKind::Update => if legacy {
                    ModeModel::LegacyCutover
                } else {
                    ModeModel::RevisionPrecise(snapshot@.release.revision)
                },
            },
            before: if kind == SealKind::Update && legacy {
                None
            } else {
                Some(snapshot@.state.framework)
            },
            target: match kind {
                SealKind::Change => snapshot@.state.framework,
                SealKind::Update => snapshot@.release,
            },
            offline,
        }),
        request@.defect(false) is None,
{
    let recorded = &snapshot.state.framework;
    let release = &snapshot.release_identity;
    match kind {
        SealKind::Change => CargoResolverRequest::update_locked(
            current,
            candidate,
            recorded.duplicate(),
            offline,
        ),
        SealKind::Update => {
            if legacy {
                CargoResolverRequest::legacy_cutover(
                    current,
                    candidate,
                    release.duplicate(),
                    offline,
                )
            } else {
                CargoResolverRequest::revision_precise(
                    current,
                    candidate,
                    recorded.duplicate(),
                    release.duplicate(),
                    offline,
                )
            }
        },
    }
}

/// The place, from `at` on, of the first step that commits the state.
pub open spec fn state_place(list: Seq<PlanStep>, at: int) -> int
    decreases list.len() - at,
{
    if at < 0 || at >= list.len() || list[at] is WriteState {
        at
    } else {
        state_place(list, at + 1)
    }
}

/// Whether a step writes the lockfile or the state.
pub open spec fn is_final_write(step: PlanStep) -> bool {
    step is WriteLock || step is WriteResolvedLock || step is WriteState
}

/// What keeps a plan from being staged.
pub open spec fn staging_defect(list: Seq<PlanStep>, kind: SealKind) -> Option<Seq<char>> {
    let place = state_place(list, 0);
    if place >= list.len() {
        Some(
            match kind {
                SealKind::Change => "nonempty schema-2 lifecycle plan must commit state last"@,
                SealKind::Update => "nonempty project update must commit schema-2 state last"@,
            },
        )
    } else if exists|i: int|
        0 <= i < list.remove(place).len() && is_final_write(#[trigger] list.remove(place)[i]) {
        Some(
            match kind {
                SealKind::Change =>
                    "pure schema-2 planning unexpectedly emitted a lock or duplicate state write"@,
                SealKind::Update =>
                    "pure project update unexpectedly emitted a lock or duplicate state write"@,
            },
        )
    } else {
        None
    }
}

/// A plan whose changes of files can be staged, and the change of the state, which comes last.
#[derive(Debug)]
pub struct StagedPlan {
    /// The plan without the change of the state.
    pub plan: ManagementPlan,
    /// The change of the state.
    pub state_operation: PlanOperation,
}

/// A plan with other steps.
pub open spec fn with_steps(plan: PlanModel, list: Seq<PlanStep>) -> PlanModel {
    PlanModel { steps: list, ..plan }
}

fn find_state_operation(operations: &Vec<PlanOperation>) -> (found: Option<usize>)
    ensures
        ({
            let place = state_place(steps(operations@), 0);
            match found {
                Some(index) => place == index && index < operations@.len(),
                None => place >= operations@.len(),
            }
        }),
{
    let ghost all = steps(operations@);
    let mut index: usize = 0;
    while index < operations.len()
        invariant
            all == steps(operations@),
            index <= operations@.len(),
            state_place(all, 0) == state_place(all, index as int),
        decreases operations@.len() - index,
    {
        assert(all[index as int] == operations@[index as int]@);
        if let PlanOperation::WriteState { .. } = &operations[index] {
            return Some(index);
        }
        index += 1;
    }
    None
}

fn has_final_write(operations: &Vec<PlanOperation>) -> (found: bool)
    ensures
        found == exists|i: int|
            0 <= i < steps(operations@).len() && is_final_write(#[trigger] steps(operations@)[i]),
{
    let ghost all = steps(operations@);
    let mut index: usize = 0;
    while index < operations.len()
        invariant
            all == steps(operations@),
            index <= operations@.len(),
            forall|i: int| 0 <= i < index ==> !is_final_write(#[trigger] all[i]),
        decreases operations@.len() - index,
    {
        assert(all[index as int] == operations@[index as int]@);
        match &operations[index] {
            PlanOperation::WriteLock { .. } => {
                assert(is_final_write(all[index as int]));
                return true;
            },
            PlanOperation::WriteResolvedLock { .. } => {
                assert(is_final_write(all[index as int]));
                return true;
            },
            PlanOperation::WriteState { .. } => {
                assert(is_final_write(all[index as int]));
                return true;
            },
            _ => {},
        }
        index += 1;
    }
    false
}

/// Takes the change of the state out of a plan, so that the rest can be staged.
pub fn stage_plan(plan: ManagementPlan, kind: SealKind) -> (result: Result<StagedPlan, ManagerError>)
    ensures
        match result {
            Ok(staged) => {
                let place = state_place(plan@.steps, 0);
                &&& staging_defect(plan@.steps, kind) is None
                &&& staged.plan@ == with_steps(plan@, plan@.steps.remove(place))
                &&& staged.state_operation@ == plan@.steps[place]
                &&& staged.state_operation@ is WriteState
            },
            Err(error) => staging_defect(plan@.steps, kind) is Some && error.failure()
                == ManagerFailure::InvalidProject(staging_defect(plan@.steps, kind)->Some_0),
        },
{
    let ghost all = plan@.steps;
    let mut plan = plan;
    let place = match find_state_operation(&plan.operations) {
        Some(place) => place,
        None => {
            let message = match kind {
                SealKind::Change => "nonempty schema-2 lifecycle plan must commit state last",
                SealKind::Update => "nonempty project update must commit schema-2 state last",
            };
            return Err(ManagerError::InvalidProject(message.to_owned()));
        },
    };
    proof {
        lemma_state_place(all, 0);
    }
    let state_operation = plan.operations.remove(place);
    assert(steps(plan.operations@) =~= all.remove(place as int));
    if has_final_write(&plan.operations) {
        let message = match kind {
            SealKind::Change =>
                "pure schema-2 planning unexpectedly emitted a lock or duplicate state write",
            SealKind::Update =>
                "pure project update unexpectedly emitted a lock or duplicate state write",
        };
        return Err(ManagerError::InvalidProject(message.to_owned()));
    }
    Ok(StagedPlan { plan, state_operation })
}

pub(crate) proof fn lemma_state_place(list: Seq<PlanStep>, at: int)
    requires
        0 <= at <= list.len(),
    ensures
        at <= state_place(list, at) <= list.len(),
        state_place(list, at) < list.len() ==> list[state_place(list, at)] is WriteState,
    decreases list.len() - at,
{
    if at < list.len() && !(list[at] is WriteState) {
        lemma_state_place(list, at + 1);
    }
}

// After resolution.
/// The change of the lockfile, where there is one.
pub open spec fn lock_steps(current: Seq<u8>, resolved: Seq<u8>) -> Seq<PlanStep> {
    if resolved == current {
        Seq::empty()
    } else {
        seq![
            PlanStep::WriteResolvedLock {
                path: "Cargo.lock"@,
                expected_hash: hex(sha256(current)),
                content_hash: hex(sha256(resolved)),
                content: resolved,
            },
        ]
    }
}

/// Adds the resolved lockfile to a staged plan, and the change of the state behind it.
fn with_lockfile(staged: StagedPlan, current: &Vec<u8>, resolved: &Vec<u8>) -> (plan:
    ManagementPlan)
    ensures
        plan@ == with_steps(
            staged.plan@,
            staged.plan@.steps + lock_steps(current@, resolved@) + seq![staged.state_operation@],
        ),
{
    let mut plan = staged.plan;
    let ghost start = plan@.steps;
    if !same_bytes(resolved.as_slice(), current.as_slice()) {
        let operation = PlanOperation::WriteResolvedLock {
            path: "Cargo.lock".to_owned(),
            expected_hash: sha256_hex(current.as_slice()),
            content_hash: sha256_hex(resolved.as_slice()),
            content: resolved.clone(),
        };
        let ghost step = operation@;
        push_step(&mut plan.operations, operation);
        assert(start.push(step) =~= start + seq![step]);
    } else {
        assert(start + Seq::<PlanStep>::empty() =~= start);
    }
    let ghost before = steps(plan.operations@);
    let ghost last = staged.state_operation@;
    push_step(&mut plan.operations, staged.state_operation);
    assert(before.push(last) =~= before + seq![last]);
    plan
}

/// A Cargo-resolved plan whose exact filesystem inputs and lock bytes are immutable.
#[derive(Debug)]
pub struct SealedManagementPlan {
    plan: ManagementPlan,
    expected_inputs: Sorted<InputHash>,
    resolution: Option<CargoResolverResult>,
}

/// How the sealing of a plan goes on.
#[derive(Debug)]
pub enum SealCourse {
    /// Nothing changes: the plan is sealed without a resolution.
    Unchanged(SealedManagementPlan),
    /// The rest of the plan is to be staged, and the lockfile to be resolved once.
    Staged(StagedPlan),
}

/// Begins to seal a plan: one without steps is sealed as it is, and no lockfile is resolved for
/// it; any other one is to be staged.
pub fn begin_seal(plan: ManagementPlan, expected_inputs: &Sorted<InputHash>, kind: SealKind) -> (result:
    Result<SealCourse, ManagerError>)
    ensures
        match result {
            Ok(SealCourse::Unchanged(sealed)) => {
                &&& plan@.steps.len() == 0
                &&& sealed.sealed() == plan
                &&& sealed.inputs() == expected_inputs@
                &&& sealed.resolved() is None
            },
            Ok(SealCourse::Staged(staged)) => {
                let place = state_place(plan@.steps, 0);
                &&& plan@.steps.len() > 0
                &&& staging_defect(plan@.steps, kind) is None
                &&& staged.plan@ == with_steps(plan@, plan@.steps.remove(place))
                &&& staged.state_operation@ == plan@.steps[place]
                &&& staged.state_operation@ is WriteState
            },
            Err(error) => {
                &&& plan@.steps.len() > 0
                &&& staging_defect(plan@.steps, kind) is Some
                &&& error.failure() == ManagerFailure::InvalidProject(
                    staging_defect(plan@.steps, kind)->Some_0,
                )
            },
        },
{
    if plan.is_empty() {
        let expected_inputs = expected_inputs.duplicate();
        return Ok(
            SealCourse::Unchanged(SealedManagementPlan { plan, expected_inputs, resolution: None }),
        );
    }
    match stage_plan(plan, kind) {
        Ok(staged) => Ok(SealCourse::Staged(staged)),
        Err(error) => Err(error),
    }
}

/// Seals a staged plan with what the resolver gave.
pub fn finish_seal(
    staged: StagedPlan,
    current: &Vec<u8>,
    expected_inputs: &Sorted<InputHash>,
    resolution: CargoResolverResult,
) -> (result: SealedManagementPlan)
    ensures
        result.sealed()@ == with_steps(
            staged.plan@,
            staged.plan@.steps + lock_steps(current@, resolution@.lockfile)
                + seq![staged.state_operation@],
        ),
        result.inputs() == expected_inputs@,
        result.resolved() == Some(resolution),
{
    let plan = with_lockfile(staged, current, resolution.lockfile());
    assert(plan@.steps.last() == staged.state_operation@);
    let expected_inputs = expected_inputs.duplicate();
    SealedManagementPlan { plan, expected_inputs, resolution: Some(resolution) }
}

impl SealedManagementPlan {
    #[verifier::type_invariant]
    spec fn is_resolved_where_changed(&self) -> bool {
        self.resolution is None <==> self.plan@.steps.len() == 0
    }

    /// The plan that is sealed.
    pub closed spec fn sealed(&self) -> ManagementPlan {
        self.plan
    }

    /// The inputs that the plan was sealed against.
    pub closed spec fn inputs(&self) -> Seq<(Seq<char>, Seq<char>)> {
        self.expected_inputs@
    }

    /// What the resolver gave.
    pub closed spec fn resolved(&self) -> Option<CargoResolverResult> {
        self.resolution
    }

    /// Gives the plan the identity of its encoded form.
    pub fn identified(self, encoded: &[u8]) -> (result: Self)
        ensures
            result.sealed()@ == self.sealed()@,
            result.sealed().plan_id@ == hex(sha256(encoded@)),
            result.inputs() == self.inputs(),
            result.resolved() == self.resolved(),
    {
        proof {
            use_type_invariant(&self);
        }
        let SealedManagementPlan { plan, expected_inputs, resolution } = self;
        let mut plan = plan;
        identify_management_plan(&mut plan, encoded);
        SealedManagementPlan { plan, expected_inputs, resolution }
    }

    /// Returns the reviewable filesystem plan, including exact lock bytes when changed.
    pub fn plan(&self) -> (plan: &ManagementPlan)
        ensures
            *plan == self.sealed(),
    {
        &self.plan
    }

    /// Returns the inputs that the plan was sealed against.
    pub fn expected_inputs(&self) -> (inputs: &Sorted<InputHash>)
        ensures
            inputs@ == self.inputs(),
    {
        &self.expected_inputs
    }

    /// Returns the resolver result. Idempotent no-op plans do not run a resolver: there is a
    /// result exactly where the plan changes something.
    pub fn resolution(&self) -> (resolution: Option<&CargoResolverResult>)
        ensures
            match resolution {
                Some(result) => self.resolved() == Some(*result),
                None => self.resolved() is None,
            },
            resolution is None <==> self.sealed()@.steps.len() == 0,
    {
        proof {
            use_type_invariant(self);
        }
        match &self.resolution {
            Some(result) => Some(result),
            None => None,
        }
    }

    /// Returns whether applying the sealed plan would change no project file; this is so exactly
    /// where no resolver was run.
    pub fn is_empty(&self) -> (empty: bool)
        ensures
            empty == (self.sealed()@.steps.len() == 0),
            empty == (self.resolved() is None),
    {
        proof {
            use_type_invariant(self);
        }
        self.plan.is_empty()
    }
}

// Application.
/// The diagnostic text of a journal failure that the library itself finds.
pub open spec fn journal_failure_text(failure: JournalFailure) -> Seq<char> {
    match failure {
        JournalFailure::UnsafePath { path, reason } => "unsafe lifecycle path "@ + path + ": "@
            + reason,
        JournalFailure::InvalidPlan(message) => "invalid lifecycle plan: "@ + message,
        JournalFailure::InvalidOperation { path, reason } => "invalid lifecycle operation `"@
            + path + "`: "@ + reason,
        JournalFailure::StaleInput { path, expected, actual } => "stale lifecycle input `"@ + path
            + "`: expected "@ + shown_hash(expected) + ", found "@ + shown_hash(actual),
        JournalFailure::UnexpectedContents { path, expected, actual } =>
            "unexpected bytes at `"@ + path + "`: expected "@ + expected + ", found "@
                + shown_hash(actual),
        JournalFailure::Outside => Seq::empty(),
    }
}

/// What is wrong with a step as an operation of the journal.
pub open spec fn operation_failure(step: PlanStep) -> Option<JournalFailure> {
    let path = step.target();
    match step.bytes() {
        Some(bytes) => or_else(
            operation_path_failure(path),
            or_else(
                optional_hash_failure(step.hash_before(), path, "before"@),
                or_else(
                    hash_failure(step.hash_after()->Some_0, path, "after"@),
                    if hex(sha256(bytes)) != step.hash_after()->Some_0 {
                        Some(
                            JournalFailure::InvalidOperation {
                                path,
                                reason: "replacement SHA-256 `"@ + hex(sha256(bytes))
                                    + "` does not match sealed after hash `"@
                                    + step.hash_after()->Some_0 + "`"@,
                            },
                        )
                    } else {
                        None
                    },
                ),
            ),
        ),
        None => or_else(
            operation_path_failure(path),
            hash_failure(step.hash_before()->Some_0, path, "before"@),
        ),
    }
}

/// The operation of the journal that a step becomes.
pub open spec fn operation_of(step: PlanStep) -> OperationModel {
    OperationModel {
        path: step.target(),
        before_hash: step.hash_before(),
        after_hash: step.hash_after(),
        replacement: step.bytes(),
    }
}

/// Makes an operation of the journal from an operation of a plan.
pub fn journal_operation(operation: &PlanOperation) -> (result: Result<
    JournalOperation,
    ManagerError,
>)
    ensures
        match result {
            Ok(entry) => operation_failure(operation@) is None && entry@ == operation_of(
                operation@,
            ),
            Err(error) => operation_failure(operation@) is Some && error.failure()
                == ManagerFailure::Journal(
                journal_failure_text(operation_failure(operation@)->Some_0),
            ),
        },
{
    let path = operation.path().to_owned();
    let expected = match operation.expected_hash() {
        Some(hash) => Some(hash.to_owned()),
        None => None,
    };
    let outcome = match (operation.replacement_bytes(), operation.content_hash()) {
        (Some(bytes), Some(hash)) => {
            let replacement = copy_bytes(bytes);
            JournalOperation::write(path, expected, replacement, hash.to_owned())
        },
        _ => match expected {
            Some(hash) => JournalOperation::remove(path, hash),
            None => {
                return Err(
                    ManagerError::InvalidProject(
                        join3(
                            "remove operation for `",
                            path.as_str(),
                            "` is missing its sealed input hash",
                        ),
                    ),
                );
            },
        },
    };
    match outcome {
        Ok(entry) => Ok(entry),
        Err(error) => Err(ManagerError::Journal(error.message())),
    }
}

fn copy_bytes(bytes: &[u8]) -> (copy: Vec<u8>)
    ensures
        copy@ == bytes@,
{
    let mut copy: Vec<u8> = Vec::new();
    let mut index: usize = 0;
    while index < bytes.len()
        invariant
            index <= bytes@.len(),
            copy@ == bytes@.take(index as int),
        decreases bytes@.len() - index,
    {
        copy.push(bytes[index]);
        index += 1;
        assert(bytes@.take(index as int) =~= bytes@.take(index - 1).push(bytes@[index - 1]));
    }
    assert(bytes@.take(index as int) =~= bytes@);
    copy
}

/// Reports that a sealed plan was applied, or that it had nothing to apply.
pub fn apply_outcome(sealed: &SealedManagementPlan) -> (outcome: ApplyOutcome)
    ensures
        outcome.plan_id@ == sealed.sealed().plan_id@,
        outcome.changed_files == sealed.sealed()@.steps.len(),
{
    ApplyOutcome {
        plan_id: sealed.plan.plan_id.clone(),
        changed_files: sealed.plan.operations.len(),
    }
}

// Plans on files.
/// Files after the first `count` steps of a plan were taken.
pub open spec fn applied(
    files: Map<Seq<char>, Seq<char>>,
    list: Seq<PlanStep>,
    count: int,
) -> Result<Map<Seq<char>, Seq<char>>, ManagerFailure>
    decreases count,
{
    if count <= 0 {
        Ok(files)
    } else {
        match applied(files, list, count - 1) {
            Err(failure) => Err(failure),
            Ok(before) => match list[count - 1] {
                PlanStep::CreateFile { path, content, .. } => Ok(before.insert(path, content)),
                PlanStep::ReplaceKitFile { path, content, .. } => Ok(before.insert(path, content)),
                PlanStep::ReconcileRegions { path, content, .. } => Ok(
                    before.insert(path, content),
                ),
                PlanStep::RegenerateDerived { path, content, .. } => Ok(
                    before.insert(path, content),
                ),
                PlanStep::RemoveFile { path, .. } => Ok(before.remove(path)),
                PlanStep::WriteLock { path, content, .. } => Ok(before.insert(path, content)),
                PlanStep::WriteState { path, content, .. } => Ok(before.insert(path, content)),
                PlanStep::WriteResolvedLock { .. } => Err(
                    ManagerFailure::InvalidProject(
                        "initial profile composition unexpectedly emitted resolved lock bytes"@,
                    ),
                ),
            },
        }
    }
}

proof fn lemma_applied_fail(
    files: Map<Seq<char>, Seq<char>>,
    list: Seq<PlanStep>,
    count: int,
    total: int,
)
    requires
        applied(files, list, count) is Err,
        count <= total,
    ensures
        applied(files, list, total) == applied(files, list, count),
    decreases total - count,
{
    if count < total {
        lemma_applied_fail(files, list, count, total - 1);
    }
}

/// Takes the steps of a plan on files.
pub fn apply_to_files(files: &mut FileMap, operations: &Vec<PlanOperation>) -> (result: Result<
    (),
    ManagerError,
>)
    ensures
        match result {
            Ok(()) => applied(old(files)@, steps(operations@), operations@.len() as int) == Ok::<
                Map<Seq<char>, Seq<char>>,
                ManagerFailure,
            >(final(files)@),
            Err(error) => applied(
                old(files)@,
                steps(operations@),
                operations@.len() as int,
            ) == Err::<Map<Seq<char>, Seq<char>>, ManagerFailure>(error.failure()),
        },
{
    let ghost start = files@;
    let ghost all = steps(operations@);
    let ghost total = operations@.len() as int;
    let mut index: usize = 0;
    while index < operations.len()
        invariant
            start == old(files)@,
            all == steps(operations@),
            total == operations@.len(),
            index <= total,
            applied(start, all, index as int) == Ok::<
                Map<Seq<char>, Seq<char>>,
                ManagerFailure,
            >(files@),
        decreases total - index,
    {
        assert(all[index as int] == operations@[index as int]@);
        match &operations[index] {
            PlanOperation::CreateFile { path, content, .. } => {
                files.insert(path.clone(), content.clone());
            },
            PlanOperation::ReplaceKitFile { path, content, .. } => {
                files.insert(path.clone(), content.clone());
            },
            PlanOperation::ReconcileRegions { path, content, .. } => {
                files.insert(path.clone(), content.clone());
            },
            PlanOperation::RegenerateDerived { path, content, .. } => {
                files.insert(path.clone(), content.clone());
            },
            PlanOperation::RemoveFile { path, .. } => {
                files.remove(path.as_str());
            },
            PlanOperation::WriteLock { path, content, .. } => {
                files.insert(path.clone(), content.clone());
            },
            PlanOperation::WriteState { path, content, .. } => {
                files.insert(path.clone(), content.clone());
            },
            PlanOperation::WriteResolvedLock { .. } => {
                proof {
                    lemma_applied_fail(start, all, index + 1, total);
                }
                return Err(
                    ManagerError::InvalidProject(
                        "initial profile composition unexpectedly emitted resolved lock bytes".to_owned(),
                    ),
                );
            },
        }
        index += 1;
    }
    Ok(())
}

} // verus!
