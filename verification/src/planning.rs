//! Deterministic plans for management requests.
//!
//! A plan is made in two parts. Planning decides on the next state of the project and on every
//! change of its files but the one of the state itself. Completion takes the text of the next
//! state, adds that change, and brings all changes into their order.

use vstd::prelude::*;
use vstd::string::*;

use crate::application_templates::{template_catalog_defect, validate_application_template_catalog};
use crate::diagnosis::{
    diagnose_snapshot, hash_text, snapshot_findings, text_hash, InputsModel, PlanningInputs,
};
use crate::digest::{hex, sha256, sha256_hex};
use crate::file_map::{FileMap, ProjectFile};
use crate::management::{
    step_rank, steps, Diagnostic, DiagnosticModel, ManagementPlan, ManagerError, ManagerFailure,
    PlanAction, PlanModel, PlanOperation, PlanStep, ProjectSnapshot, SnapshotModel,
    PLAN_SCHEMA_VERSION,
};
use crate::ordered::{models, Keyed, Sorted, TextSet};
use crate::plan_derived::{derived_plan, plan_derived};
use crate::plan_files::{
    plan_application_templates, plan_release_base_files, push_step, release_plan, template_plan,
    TargetProject,
};
use crate::plan_regions::{plan_regions, region_plan};
use crate::plan_selection::{
    build_next_state, next_selection, normalize_next_state, normalized, only_in, resolve_selection,
    state_after, SelectionChange,
};
use crate::selection::{listing, selection_defect};
use crate::sorting::{arranged, lemma_arranged, sort_ranked};
use crate::state::{selected_ids, selected_of, ProjectState, StateModel, PROJECT_STATE_PATH};
use crate::text::{clone_texts, join3, optional_view, same_text, texts};

verus! {

// Operations.
/// What a change of the selection does to files: the next state, the steps, and the paths that it
/// leaves in place. `target` is the project as the release in use would make it, or why it cannot
/// be made.
pub open spec fn change_plan(
    inputs: InputsModel,
    snapshot: SnapshotModel,
    files: Seq<ProjectFile>,
    target: Result<(StateModel, Map<Seq<char>, Seq<char>>), Seq<char>>,
    before: Seq<Seq<char>>,
    added: Seq<Seq<char>>,
    removed: Seq<Seq<char>>,
    state: StateModel,
) -> Result<(StateModel, Seq<PlanStep>, Seq<Seq<char>>), ManagerFailure> {
    match base_plan(snapshot, target, state) {
        Err(failure) => Err(failure),
        Ok(base) => match template_plan(inputs, snapshot, base.0, added, removed) {
            Err(failure) => Err(failure),
            Ok(templates) => {
                let after = selected_of(templates.0);
                match selection_defect(inputs.catalog, after) {
                    Some(message) => Err(ManagerFailure::Catalog(message)),
                    None => match region_plan(
                        inputs,
                        snapshot,
                        files,
                        before,
                        after,
                        templates.0,
                    ) {
                        Err(failure) => Err(failure),
                        Ok(regions) => match derived_plan(
                            inputs,
                            snapshot,
                            before,
                            after,
                            regions.0,
                        ) {
                            Err(failure) => Err(failure),
                            Ok(derived) => Ok(
                                (
                                    derived.0,
                                    base.1 + templates.1 + regions.1 + derived.1,
                                    templates.2,
                                ),
                            ),
                        },
                    },
                }
            },
        },
    }
}

/// What a change of release does to kit-owned files, where there is one.
pub open spec fn base_plan(
    snapshot: SnapshotModel,
    target: Result<(StateModel, Map<Seq<char>, Seq<char>>), Seq<char>>,
    state: StateModel,
) -> Result<(StateModel, Seq<PlanStep>), ManagerFailure> {
    if snapshot.state.framework == snapshot.release {
        Ok((state, Seq::empty()))
    } else {
        match target {
            Err(message) => Err(ManagerFailure::InvalidProject(message)),
            Ok(project) => release_plan(snapshot, state, project.0, project.1),
        }
    }
}

/// The value of a target project.
pub open spec fn target_value(target: Result<TargetProject, String>) -> Result<
    (StateModel, Map<Seq<char>, Seq<char>>),
    Seq<char>,
> {
    match target {
        Ok(project) => Ok((project.state@, project.files@)),
        Err(message) => Err(message@),
    }
}

/// Plans what a change of the selection does to files; returns the paths that it leaves in place.
fn build_plan_operations(
    inputs: &PlanningInputs,
    snapshot: &ProjectSnapshot,
    target: &Result<TargetProject, String>,
    selection: &SelectionChange,
    next_state: &mut ProjectState,
    operations: &mut Vec<PlanOperation>,
) -> (result: Result<Vec<String>, ManagerError>)
    requires
        old(operations)@.len() == 0,
    ensures
        ({
            let owed = change_plan(
                inputs@,
                snapshot@,
                snapshot.files.listed(),
                target_value(*target),
                selection.before@,
                selection.added@,
                selection.removed@,
                old(next_state)@,
            );
            match result {
                Ok(preserved) => owed == Ok::<
                    (StateModel, Seq<PlanStep>, Seq<Seq<char>>),
                    ManagerFailure,
                >((final(next_state)@, steps(final(operations)@), texts(preserved@))),
                Err(error) => owed == Err::<
                    (StateModel, Seq<PlanStep>, Seq<Seq<char>>),
                    ManagerFailure,
                >(error.failure()),
            }
        }),
{
    let ghost first = next_state@;
    assert(steps(operations@) =~= Seq::<PlanStep>::empty());
    if !snapshot.state.framework.same(&snapshot.release_identity) {
        match target {
            Ok(project) => {
                match plan_release_base_files(snapshot, project, next_state, operations) {
                    Ok(()) => {},
                    Err(error) => {
                        return Err(error);
                    },
                }
                proof {
                    let more = release_plan(
                        snapshot@,
                        first,
                        project.state@,
                        project.files@,
                    )->Ok_0.1;
                    assert(Seq::<PlanStep>::empty() + more =~= more);
                }
            },
            Err(message) => {
                return Err(ManagerError::InvalidProject(message.clone()));
            },
        }
    }
    let preserved = match plan_application_templates(
        inputs,
        snapshot,
        &selection.added,
        &selection.removed,
        next_state,
        operations,
    ) {
        Ok(preserved) => preserved,
        Err(error) => {
            return Err(error);
        },
    };
    let after = selected_ids(next_state);
    match inputs.catalog.validate_selection(&after) {
        Ok(()) => {},
        Err(error) => {
            return Err(ManagerError::Catalog(error));
        },
    }
    match plan_regions(inputs, snapshot, &selection.before, &after, next_state, operations) {
        Ok(()) => {},
        Err(error) => {
            return Err(error);
        },
    }
    match plan_derived(inputs, snapshot, &selection.before, &after, next_state, operations) {
        Ok(()) => {},
        Err(error) => {
            return Err(error);
        },
    }
    Ok(preserved)
}

// Requests.
/// The findings among the first `count` that are not about the release.
pub open spec fn beside_release(findings: Seq<DiagnosticModel>, count: int) -> Seq<DiagnosticModel>
    decreases count,
{
    if count <= 0 {
        Seq::empty()
    } else if findings[count - 1].0 == "release-mismatch"@ {
        beside_release(findings, count - 1)
    } else {
        beside_release(findings, count - 1).push(findings[count - 1])
    }
}

/// Whether a request is made for a project of another release.
pub open spec fn crosses_release(snapshot: SnapshotModel, action: PlanAction) -> bool {
    (action == PlanAction::Diff || action == PlanAction::Upgrade) && snapshot.state.framework
        != snapshot.release
}

/// The findings that stand in the way of a request.
pub open spec fn blocking_findings(
    findings: Seq<DiagnosticModel>,
    snapshot: SnapshotModel,
    action: PlanAction,
) -> Seq<DiagnosticModel> {
    if crosses_release(snapshot, action) {
        beside_release(findings, findings.len() as int)
    } else {
        findings
    }
}

/// What planning a request leads to.
pub enum PlanOutcome {
    /// Nothing is to be done.
    Unchanged,
    /// The project changes.
    Change {
        /// Next state, in canonical form.
        state: StateModel,
        /// Newly selected modules.
        added: Seq<Seq<char>>,
        /// Modules removed from selection.
        removed: Seq<Seq<char>>,
        /// Steps, but for the one of the state.
        steps: Seq<PlanStep>,
        /// Paths left in place.
        preserved: Seq<Seq<char>>,
    },
}

/// What planning a request for an unhindered project leads to.
pub open spec fn selection_outcome(
    inputs: InputsModel,
    snapshot: SnapshotModel,
    files: Seq<ProjectFile>,
    target: Result<(StateModel, Map<Seq<char>, Seq<char>>), Seq<char>>,
    action: PlanAction,
    requested: Option<Seq<char>>,
) -> Result<PlanOutcome, ManagerFailure> {
    match next_selection(inputs, snapshot.state, action, requested) {
        Err(failure) => Err(failure),
        Ok(set) => {
            let before = selected_of(snapshot.state);
            let added = only_in(set, before.to_set());
            let removed = only_in(before.to_set(), set);
            if (action == PlanAction::Add || action == PlanAction::Remove) && added.len() == 0
                && removed.len() == 0 {
                Ok(PlanOutcome::Unchanged)
            } else {
                match state_after(
                    inputs.catalog,
                    snapshot.state,
                    action,
                    requested,
                    listing(set),
                    added,
                    removed,
                ) {
                    Err(failure) => Err(failure),
                    Ok(state) => match change_plan(
                        inputs,
                        snapshot,
                        files,
                        target,
                        before,
                        added,
                        removed,
                        state,
                    ) {
                        Err(failure) => Err(failure),
                        Ok(change) => Ok(
                            PlanOutcome::Change {
                                state: normalized(change.0, snapshot.release),
                                added,
                                removed,
                                steps: change.1,
                                preserved: change.2,
                            },
                        ),
                    },
                }
            }
        },
    }
}

/// What planning a request leads to.
pub open spec fn plan_outcome(
    inputs: InputsModel,
    snapshot: SnapshotModel,
    files: Seq<ProjectFile>,
    target: Result<(StateModel, Map<Seq<char>, Seq<char>>), Seq<char>>,
    action: PlanAction,
    requested: Option<Seq<char>>,
) -> Result<PlanOutcome, ManagerFailure> {
    let blocking = blocking_findings(
        snapshot_findings(inputs, snapshot, files),
        snapshot,
        action,
    );
    if blocking.len() > 0 {
        Err(ManagerFailure::Preflight(blocking))
    } else if action == PlanAction::Diff && crosses_release(snapshot, action) {
        Ok(PlanOutcome::Unchanged)
    } else {
        selection_outcome(inputs, snapshot, files, target, action, requested)
    }
}

/// A plan but for the change of the state.
#[derive(Debug)]
pub struct PlanDraft {
    /// Requested operation.
    pub action: PlanAction,
    /// Requested module or profile.
    pub requested_module: Option<String>,
    /// Next state, in canonical form.
    pub next_state: ProjectState,
    /// Newly selected modules.
    pub added_modules: Vec<String>,
    /// Modules removed from selection.
    pub removed_modules: Vec<String>,
    /// Filesystem changes, but for the one of the state.
    pub operations: Vec<PlanOperation>,
    /// Paths left in place.
    pub preserved_paths: Vec<String>,
}

/// What planning a request has led to.
#[derive(Debug)]
pub enum PlannedChange {
    /// Nothing is to be done; the plan is complete.
    Unchanged(ManagementPlan),
    /// The plan is to be completed.
    Draft(PlanDraft),
}

impl PlannedChange {
    /// The outcome that this reports.
    pub open spec fn outcome(self) -> PlanOutcome {
        match self {
            PlannedChange::Unchanged(_) => PlanOutcome::Unchanged,
            PlannedChange::Draft(draft) => PlanOutcome::Change {
                state: draft.next_state@,
                added: texts(draft.added_modules@),
                removed: texts(draft.removed_modules@),
                steps: steps(draft.operations@),
                preserved: texts(draft.preserved_paths@),
            },
        }
    }
}

/// The plan that changes nothing.
pub open spec fn empty_plan(action: PlanAction, requested: Option<Seq<char>>) -> PlanModel {
    PlanModel {
        schema_version: PLAN_SCHEMA_VERSION,
        action,
        requested,
        target_version: None,
        added: Seq::empty(),
        removed: Seq::empty(),
        steps: Seq::empty(),
        preserved: Seq::empty(),
    }
}

/// The value of an optional request.
pub open spec fn request_value(requested: Option<&str>) -> Option<Seq<char>> {
    match requested {
        Some(text) => Some(text@),
        None => None,
    }
}

fn keep_beside_release(list: Vec<Diagnostic>) -> (rest: Vec<Diagnostic>)
    ensures
        models(rest@) == beside_release(models(list@), list@.len() as int),
{
    let ghost all = models(list@);
    let mut rest: Vec<Diagnostic> = Vec::new();
    assert(models(rest@) =~= Seq::<DiagnosticModel>::empty());
    let mut index: usize = 0;
    while index < list.len()
        invariant
            all == models(list@),
            index <= list@.len(),
            models(rest@) == beside_release(all, index as int),
        decreases list@.len() - index,
    {
        assert(all[index as int] == list@[index as int].model());
        if !same_text(list[index].code.as_str(), "release-mismatch") {
            let ghost before = models(rest@);
            let copy = list[index].duplicate();
            let ghost value = copy.model();
            rest.push(copy);
            assert(models(rest@) =~= before.push(value));
        }
        index += 1;
    }
    rest
}

fn optional_request(requested: Option<&str>) -> (text: Option<String>)
    ensures
        optional_view(text) == request_value(requested),
{
    match requested {
        Some(text) => Some(text.to_owned()),
        None => None,
    }
}

fn unchanged(action: PlanAction, requested: Option<&str>) -> (plan: ManagementPlan)
    ensures
        plan@ == empty_plan(action, request_value(requested)),
        plan.plan_id@.len() == 0,
{
    let none: Vec<String> = Vec::new();
    let gone: Vec<String> = Vec::new();
    let kept: Vec<String> = Vec::new();
    let operations: Vec<PlanOperation> = Vec::new();
    let plan = ManagementPlan {
        schema_version: PLAN_SCHEMA_VERSION,
        plan_id: String::new(),
        action,
        requested_module: optional_request(requested),
        target_version: None,
        added_modules: none,
        removed_modules: gone,
        operations,
        preserved_paths: kept,
    };
    assert(texts(plan.added_modules@) =~= Seq::<Seq<char>>::empty());
    assert(texts(plan.removed_modules@) =~= Seq::<Seq<char>>::empty());
    assert(steps(plan.operations@) =~= Seq::<PlanStep>::empty());
    assert(texts(plan.preserved_paths@) =~= Seq::<Seq<char>>::empty());
    plan
}

fn set_texts(set: &TextSet) -> (list: Vec<String>)
    ensures
        texts(list@) == set@,
{
    let items = set.items();
    assert(models(items@) =~= texts(items@));
    clone_texts(items)
}

/// Whether `result` is what planning a request leads to.
pub open spec fn plans(
    result: Result<PlannedChange, ManagerError>,
    owed: Result<PlanOutcome, ManagerFailure>,
    action: PlanAction,
    requested: Option<Seq<char>>,
) -> bool {
    match result {
        Ok(change) => {
            &&& owed == Ok::<PlanOutcome, ManagerFailure>(change.outcome())
            &&& match change {
                PlannedChange::Unchanged(plan) => plan@ == empty_plan(action, requested)
                    && plan.plan_id@.len() == 0,
                PlannedChange::Draft(draft) => draft.action == action && optional_view(
                    draft.requested_module,
                ) == requested,
            }
        },
        Err(error) => owed == Err::<PlanOutcome, ManagerFailure>(error.failure()),
    }
}

fn plan_selection_change(
    inputs: &PlanningInputs,
    snapshot: &ProjectSnapshot,
    target: &Result<TargetProject, String>,
    action: PlanAction,
    requested: Option<&str>,
) -> (result: Result<PlannedChange, ManagerError>)
    ensures
        plans(
            result,
            selection_outcome(
                inputs@,
                snapshot@,
                snapshot.files.listed(),
                target_value(*target),
                action,
                request_value(requested),
            ),
            action,
            request_value(requested),
        ),
{
    let selection = match resolve_selection(inputs, &snapshot.state, action, requested) {
        Ok(selection) => selection,
        Err(error) => {
            return Err(error);
        },
    };
    if (action == PlanAction::Add || action == PlanAction::Remove) && selection.added.is_empty()
        && selection.removed.is_empty() {
        return Ok(PlannedChange::Unchanged(unchanged(action, requested)));
    }
    let mut next_state = match build_next_state(
        inputs.catalog,
        &snapshot.state,
        action,
        requested,
        &selection,
    ) {
        Ok(state) => state,
        Err(error) => {
            return Err(error);
        },
    };
    let mut operations: Vec<PlanOperation> = Vec::new();
    let preserved = match build_plan_operations(
        inputs,
        snapshot,
        target,
        &selection,
        &mut next_state,
        &mut operations,
    ) {
        Ok(preserved) => preserved,
        Err(error) => {
            return Err(error);
        },
    };
    normalize_next_state(&mut next_state, &snapshot.release_identity);
    Ok(
        PlannedChange::Draft(
            PlanDraft {
                action,
                requested_module: optional_request(requested),
                next_state,
                added_modules: set_texts(&selection.added),
                removed_modules: set_texts(&selection.removed),
                operations,
                preserved_paths: preserved,
            },
        ),
    )
}

/// Plans a management request.
pub fn plan(
    inputs: &PlanningInputs,
    snapshot: &ProjectSnapshot,
    target: &Result<TargetProject, String>,
    action: PlanAction,
    requested: Option<&str>,
) -> (result: Result<PlannedChange, ManagerError>)
    ensures
        plans(
            result,
            plan_outcome(
                inputs@,
                snapshot@,
                snapshot.files.listed(),
                target_value(*target),
                action,
                request_value(requested),
            ),
            action,
            (if action == PlanAction::Diff && crosses_release(snapshot@, action) {
                None
            } else {
                request_value(requested)
            }),
        ),
{
    let mut findings = diagnose_snapshot(inputs, snapshot);
    let crossing = (action == PlanAction::Diff || action == PlanAction::Upgrade)
        && !snapshot.state.framework.same(&snapshot.release_identity);
    assert(models(findings@).len() == findings@.len());
    if crossing {
        findings = keep_beside_release(findings);
    }
    assert(models(findings@).len() == findings@.len());
    if findings.len() > 0 {
        return Err(ManagerError::Preflight(findings));
    }
    if crossing && action == PlanAction::Diff {
        return Ok(PlannedChange::Unchanged(unchanged(PlanAction::Diff, None)));
    }
    plan_selection_change(inputs, snapshot, target, action, requested)
}

/// Non-filesystem add planning from a caller-supplied immutable snapshot.
pub fn plan_add(
    inputs: &PlanningInputs,
    snapshot: &ProjectSnapshot,
    target: &Result<TargetProject, String>,
    requested: &str,
) -> (result: Result<PlannedChange, ManagerError>)
    ensures
        plans(
            result,
            plan_outcome(
                inputs@,
                snapshot@,
                snapshot.files.listed(),
                target_value(*target),
                PlanAction::Add,
                Some(requested@),
            ),
            PlanAction::Add,
            Some(requested@),
        ),
{
    plan(inputs, snapshot, target, PlanAction::Add, Some(requested))
}

/// Non-filesystem remove planning from a caller-supplied immutable snapshot.
pub fn plan_remove(
    inputs: &PlanningInputs,
    snapshot: &ProjectSnapshot,
    target: &Result<TargetProject, String>,
    requested: &str,
) -> (result: Result<PlannedChange, ManagerError>)
    ensures
        plans(
            result,
            plan_outcome(
                inputs@,
                snapshot@,
                snapshot.files.listed(),
                target_value(*target),
                PlanAction::Remove,
                Some(requested@),
            ),
            PlanAction::Remove,
            Some(requested@),
        ),
{
    plan(inputs, snapshot, target, PlanAction::Remove, Some(requested))
}

/// Non-filesystem exact profile planning from a caller-supplied immutable snapshot.
pub fn plan_profile_set(
    inputs: &PlanningInputs,
    snapshot: &ProjectSnapshot,
    target: &Result<TargetProject, String>,
    profile: &str,
) -> (result: Result<PlannedChange, ManagerError>)
    ensures
        plans(
            result,
            plan_outcome(
                inputs@,
                snapshot@,
                snapshot.files.listed(),
                target_value(*target),
                PlanAction::ProfileSet,
                Some(profile@),
            ),
            PlanAction::ProfileSet,
            Some(profile@),
        ),
{
    plan(inputs, snapshot, target, PlanAction::ProfileSet, Some(profile))
}

/// Non-filesystem reconciliation planning from a caller-supplied immutable snapshot.
pub fn plan_diff(
    inputs: &PlanningInputs,
    snapshot: &ProjectSnapshot,
    target: &Result<TargetProject, String>,
) -> (result: Result<PlannedChange, ManagerError>)
    ensures
        plans(
            result,
            plan_outcome(
                inputs@,
                snapshot@,
                snapshot.files.listed(),
                target_value(*target),
                PlanAction::Diff,
                None,
            ),
            PlanAction::Diff,
            None,
        ),
{
    plan(inputs, snapshot, target, PlanAction::Diff, None)
}

// New projects.
/// What composing a new project leads to: its next state in canonical form, and the steps but for
/// the one of the state.
pub open spec fn initial_outcome(
    inputs: InputsModel,
    snapshot: SnapshotModel,
    files: Seq<ProjectFile>,
    target: Result<(StateModel, Map<Seq<char>, Seq<char>>), Seq<char>>,
) -> Result<(StateModel, Seq<PlanStep>), ManagerFailure> {
    let selected = selected_of(snapshot.state);
    match template_catalog_defect(inputs.templates, inputs.catalog.modules@) {
        Some(message) => Err(ManagerFailure::InvalidProject(message)),
        None => match selection_defect(inputs.catalog, selected) {
            Some(message) => Err(ManagerFailure::Catalog(message)),
            None => match change_plan(
                inputs,
                snapshot,
                files,
                target,
                selected,
                selected,
                Seq::empty(),
                snapshot.state,
            ) {
                Err(failure) => Err(failure),
                Ok(change) => Ok((normalized(change.0, snapshot.release), change.1)),
            },
        },
    }
}

/// Composes the initial profile of a new project: every selected module counts as added.
pub fn compose_initial_profile(
    inputs: &PlanningInputs,
    snapshot: &ProjectSnapshot,
    target: &Result<TargetProject, String>,
) -> (result: Result<PlanDraft, ManagerError>)
    ensures
        ({
            let owed = initial_outcome(
                inputs@,
                snapshot@,
                snapshot.files.listed(),
                target_value(*target),
            );
            match result {
                Ok(draft) => owed == Ok::<(StateModel, Seq<PlanStep>), ManagerFailure>(
                    (draft.next_state@, steps(draft.operations@)),
                ) && draft.action == PlanAction::Add && draft.requested_module is None
                    && texts(draft.added_modules@) == selected_of(snapshot@.state)
                    && draft.removed_modules@.len() == 0,
                Err(error) => owed == Err::<(StateModel, Seq<PlanStep>), ManagerFailure>(
                    error.failure(),
                ),
            }
        }),
{
    if let Err(message) = validate_application_template_catalog(inputs.templates, inputs.catalog) {
        return Err(ManagerError::InvalidProject(message));
    }
    let selected = selected_ids(&snapshot.state);
    match inputs.catalog.validate_selection(&selected) {
        Ok(()) => {},
        Err(error) => {
            return Err(ManagerError::Catalog(error));
        },
    }
    let selection = SelectionChange {
        before: selected.duplicate(),
        after: selected.duplicate(),
        added: selected.duplicate(),
        removed: Sorted::new(),
    };
    let mut next_state = snapshot.state.duplicate();
    let mut operations: Vec<PlanOperation> = Vec::new();
    let preserved_paths = match build_plan_operations(
        inputs,
        snapshot,
        target,
        &selection,
        &mut next_state,
        &mut operations,
    ) {
        Ok(preserved) => preserved,
        Err(error) => {
            return Err(error);
        },
    };
    normalize_next_state(&mut next_state, &snapshot.release_identity);
    let removed_modules: Vec<String> = Vec::new();
    Ok(
        PlanDraft {
            action: PlanAction::Add,
            requested_module: None,
            next_state,
            added_modules: set_texts(&selected),
            removed_modules,
            operations,
            preserved_paths,
        },
    )
}

// Completion.
/// The change of the state, where there is one.
pub open spec fn state_steps(current: Seq<char>, content: Seq<char>) -> Seq<PlanStep> {
    if content == current {
        Seq::empty()
    } else {
        seq![
            PlanStep::WriteState {
                path: PROJECT_STATE_PATH@,
                expected_hash: text_hash(current),
                content_hash: text_hash(content),
                content,
            },
        ]
    }
}

/// Steps in their order.
pub open spec fn in_order(list: Seq<PlanStep>) -> Seq<PlanStep> {
    arranged(list, step_rank(), list.len() as int)
}

fn sort_operations(operations: Vec<PlanOperation>) -> (sorted: Vec<PlanOperation>)
    ensures
        steps(sorted@) == in_order(steps(operations@)),
{
    let ghost unsorted = operations@;
    let sorted = sort_ranked(operations);
    proof {
        let view = |operation: PlanOperation| operation@;
        lemma_arranged(unsorted, view, step_rank(), unsorted.len() as int);
        assert(steps(unsorted) == unsorted.map_values(view));
    }
    sorted
}

/// The plan that a draft becomes with the text of its state.
pub open spec fn completed(draft: PlanDraft, current: Seq<char>, content: Seq<char>) -> PlanModel {
    PlanModel {
        schema_version: PLAN_SCHEMA_VERSION,
        action: draft.action,
        requested: optional_view(draft.requested_module),
        target_version: None,
        added: texts(draft.added_modules@),
        removed: texts(draft.removed_modules@),
        steps: in_order(steps(draft.operations@) + state_steps(current, content)),
        preserved: texts(draft.preserved_paths@),
    }
}

/// The failure that a project has no recorded state.
pub open spec fn state_missing() -> ManagerFailure {
    ManagerFailure::InvalidProject("missing required `"@ + PROJECT_STATE_PATH@ + "`"@)
}

/// Completes a plan with the text of its next state.
pub fn complete_plan(draft: PlanDraft, files: &FileMap, state_content: String) -> (result: Result<
    ManagementPlan,
    ManagerError,
>)
    ensures
        match result {
            Ok(plan) => files@.contains_key(PROJECT_STATE_PATH@) && plan@ == completed(
                draft,
                files@[PROJECT_STATE_PATH@],
                state_content@,
            ) && plan.plan_id@.len() == 0,
            Err(error) => !files@.contains_key(PROJECT_STATE_PATH@) && error.failure()
                == state_missing(),
        },
{
    let current = match files.get(PROJECT_STATE_PATH) {
        Some(current) => current,
        None => {
            return Err(
                ManagerError::InvalidProject(
                    join3("missing required `", PROJECT_STATE_PATH, "`"),
                ),
            );
        },
    };
    let mut operations = draft.operations;
    let ghost before = steps(operations@);
    if !same_text(state_content.as_str(), current) {
        let operation = PlanOperation::WriteState {
            path: PROJECT_STATE_PATH.to_owned(),
            expected_hash: hash_text(current),
            content_hash: hash_text(state_content.as_str()),
            content: state_content,
        };
        let ghost step = operation@;
        push_step(&mut operations, operation);
        assert(before.push(step) =~= before + seq![step]);
    } else {
        assert(before + Seq::<PlanStep>::empty() =~= before);
    }
    Ok(
        ManagementPlan {
            schema_version: PLAN_SCHEMA_VERSION,
            plan_id: String::new(),
            action: draft.action,
            requested_module: draft.requested_module,
            target_version: None,
            added_modules: draft.added_modules,
            removed_modules: draft.removed_modules,
            operations: sort_operations(operations),
            preserved_paths: draft.preserved_paths,
        },
    )
}

/// Makes the plan of an upgrade to a version.
pub fn finish_upgrade_plan(
    target_version: &str,
    operations: Vec<PlanOperation>,
    preserved_paths: Vec<String>,
) -> (plan: ManagementPlan)
    ensures
        plan@ == (PlanModel {
            schema_version: PLAN_SCHEMA_VERSION,
            action: PlanAction::Upgrade,
            requested: None,
            target_version: Some(target_version@),
            added: Seq::empty(),
            removed: Seq::empty(),
            steps: in_order(steps(operations@)),
            preserved: texts(preserved_paths@),
        }),
        plan.plan_id@.len() == 0,
{
    let added_modules: Vec<String> = Vec::new();
    let removed_modules: Vec<String> = Vec::new();
    assert(texts(added_modules@) =~= Seq::<Seq<char>>::empty());
    assert(texts(removed_modules@) =~= Seq::<Seq<char>>::empty());
    ManagementPlan {
        schema_version: PLAN_SCHEMA_VERSION,
        plan_id: String::new(),
        action: PlanAction::Upgrade,
        requested_module: None,
        target_version: Some(target_version.to_owned()),
        added_modules,
        removed_modules,
        operations: sort_operations(operations),
        preserved_paths,
    }
}

/// Gives a plan the identity of its encoded form.
pub fn identify_management_plan(plan: &mut ManagementPlan, encoded: &[u8])
    ensures
        final(plan)@ == old(plan)@,
        final(plan).plan_id@ == hex(sha256(encoded@)),
{
    plan.plan_id = sha256_hex(encoded);
}

} // verus!
