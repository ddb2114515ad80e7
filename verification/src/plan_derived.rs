//! Planned changes of derived files.

use vstd::prelude::*;
use vstd::string::*;

use crate::diagnosis::{
    hash_text, is_migratable, is_migratable_legacy_react_index, project_derived,
    render_project_derived, text_hash, InputsModel, PlanningInputs,
};
use crate::management::{
    steps, ManagerError, ManagerFailure, PlanOperation, PlanStep, ProjectSnapshot, SnapshotModel,
};
use crate::ordered::{set_holds, TextSet};
use crate::plan_files::{find_owner, owner_place, push_step};
use crate::plan_regions::{approving, unite, update_approved_hash};
use crate::rendering::{derived_paths, selected_derived_paths};
use crate::selection::listing;
use crate::state::{
    owner_of, ownership_models, OwnershipKind, OwnershipModel, OwnershipRecord, ProjectState,
    StateModel,
};
use crate::text::{join3, same_text};

verus! {

/// The records among the first `count` that do not have a path.
pub open spec fn without_path(
    records: Seq<OwnershipModel>,
    path: Seq<char>,
    count: int,
) -> Seq<OwnershipModel>
    decreases count,
{
    if count <= 0 {
        Seq::empty()
    } else if records[count - 1].path == path {
        without_path(records, path, count - 1)
    } else {
        without_path(records, path, count - 1).push(records[count - 1])
    }
}

/// The failure that a derived file was edited.
pub open spec fn edited(path: Seq<char>) -> ManagerFailure {
    ManagerFailure::InvalidProject(
        "refusing edited derived file `"@ + path + "`; run doctor before retrying"@,
    )
}

/// The failure that a derived file is missing.
pub open spec fn derived_missing(path: Seq<char>) -> ManagerFailure {
    ManagerFailure::InvalidProject("owned derived file `"@ + path + "` is missing"@)
}

/// What happens to a file that is no longer derived: the next state, and the steps.
pub open spec fn retired(
    inputs: InputsModel,
    snapshot: SnapshotModel,
    before: Seq<Seq<char>>,
    state: StateModel,
    path: Seq<char>,
) -> Result<(StateModel, Seq<PlanStep>), ManagerFailure> {
    let owner = owner_of(snapshot.state.ownership, path);
    if !snapshot.files.contains_key(path) {
        if owner is Some {
            Err(derived_missing(path))
        } else {
            Ok((state, Seq::empty()))
        }
    } else if owner != Some(OwnershipKind::Derived) {
        Err(
            ManagerFailure::InvalidProject(
                "refusing to remove non-derived file `"@ + path + "`"@,
            ),
        )
    } else {
        match project_derived(inputs, snapshot, path, before) {
            Err(failure) => Err(failure),
            Ok(baseline) => if snapshot.files[path] != baseline {
                Err(edited(path))
            } else {
                Ok(
                    (
                        StateModel {
                            ownership: without_path(
                                state.ownership,
                                path,
                                state.ownership.len() as int,
                            ),
                            ..state
                        },
                        seq![
                            PlanStep::RemoveFile {
                                path,
                                expected_hash: text_hash(snapshot.files[path]),
                            },
                        ],
                    ),
                )
            },
        }
    }
}

/// Whether a file of the application becomes derived.
pub open spec fn migrates(snapshot: SnapshotModel, state: StateModel, path: Seq<char>) -> bool {
    &&& snapshot.files.contains_key(path)
    &&& is_migratable(snapshot, path, snapshot.files[path])
    &&& owner_place(state.ownership, path, 0) < state.ownership.len()
}

/// A state in which a file is derived, with its contents approved.
pub open spec fn migrated(state: StateModel, path: Seq<char>, contents: Seq<char>) -> StateModel {
    let place = owner_place(state.ownership, path, 0);
    StateModel {
        ownership: state.ownership.update(
            place,
            OwnershipModel {
                kind: OwnershipKind::Derived,
                approved: Some(text_hash(contents)),
                ..state.ownership[place]
            },
        ),
        ..state
    }
}

/// What happens to a file that is to be derived and is there: the next state, and the steps.
pub open spec fn regenerated(
    inputs: InputsModel,
    snapshot: SnapshotModel,
    before: Seq<Seq<char>>,
    before_paths: Seq<Seq<char>>,
    state: StateModel,
    path: Seq<char>,
    desired: Seq<char>,
    moved: bool,
) -> Result<(StateModel, Seq<PlanStep>), ManagerFailure> {
    let owner = owner_of(snapshot.state.ownership, path);
    let current = snapshot.files[path];
    let baseline = project_derived(inputs, snapshot, path, before);
    let compares = before_paths.contains(path) && !moved;
    if owner != Some(OwnershipKind::Derived) && !moved {
        Err(
            ManagerFailure::InvalidProject(
                "refusing to regenerate non-derived file `"@ + path + "`"@,
            ),
        )
    } else if compares && baseline is Err {
        Err(baseline->Err_0)
    } else if compares && current != baseline->Ok_0 {
        Err(edited(path))
    } else if current == desired {
        Ok((state, Seq::empty()))
    } else {
        Ok(
            (
                approving(state, path, desired),
                seq![
                    PlanStep::RegenerateDerived {
                        path,
                        expected_hash: Some(text_hash(current)),
                        content_hash: text_hash(desired),
                        content: desired,
                    },
                ],
            ),
        )
    }
}

/// What happens to a file that is to be derived: the next state, and the steps.
pub open spec fn kept_derived(
    inputs: InputsModel,
    snapshot: SnapshotModel,
    before: Seq<Seq<char>>,
    after: Seq<Seq<char>>,
    before_paths: Seq<Seq<char>>,
    state: StateModel,
    path: Seq<char>,
) -> Result<(StateModel, Seq<PlanStep>), ManagerFailure> {
    let owner = owner_of(snapshot.state.ownership, path);
    let moved = migrates(snapshot, state, path);
    match project_derived(inputs, snapshot, path, after) {
        Err(failure) => Err(failure),
        Ok(desired) => if !moved && owner == Some(OwnershipKind::ApplicationOwned) {
            Err(
                ManagerFailure::InvalidProject(
                    "refusing generator change to application-owned file `"@ + path + "`"@,
                ),
            )
        } else if snapshot.files.contains_key(path) {
            regenerated(
                inputs,
                snapshot,
                before,
                before_paths,
                if moved {
                    migrated(state, path, snapshot.files[path])
                } else {
                    state
                },
                path,
                desired,
                moved,
            )
        } else if owner is Some {
            Err(derived_missing(path))
        } else {
            Ok(
                (
                    StateModel {
                        ownership: state.ownership.push(
                            OwnershipModel {
                                path,
                                kind: OwnershipKind::Derived,
                                approved: Some(text_hash(desired)),
                            },
                        ),
                        ..state
                    },
                    seq![
                        PlanStep::RegenerateDerived {
                            path,
                            expected_hash: None,
                            content_hash: text_hash(desired),
                            content: desired,
                        },
                    ],
                ),
            )
        },
    }
}

/// What happens to the first `count` paths: the next state, and the steps.
pub open spec fn paths_derived_plan(
    inputs: InputsModel,
    snapshot: SnapshotModel,
    before: Seq<Seq<char>>,
    after: Seq<Seq<char>>,
    before_paths: Seq<Seq<char>>,
    after_paths: Seq<Seq<char>>,
    state: StateModel,
    paths: Seq<Seq<char>>,
    count: int,
) -> Result<(StateModel, Seq<PlanStep>), ManagerFailure>
    decreases count,
{
    if count <= 0 {
        Ok((state, Seq::empty()))
    } else {
        match paths_derived_plan(
            inputs,
            snapshot,
            before,
            after,
            before_paths,
            after_paths,
            state,
            paths,
            count - 1,
        ) {
            Err(failure) => Err(failure),
            Ok(earlier) => {
                let path = paths[count - 1];
                let outcome = if after_paths.contains(path) {
                    kept_derived(
                        inputs,
                        snapshot,
                        before,
                        after,
                        before_paths,
                        earlier.0,
                        path,
                    )
                } else {
                    retired(inputs, snapshot, before, earlier.0, path)
                };
                match outcome {
                    Err(failure) => Err(failure),
                    Ok(more) => Ok((more.0, earlier.1 + more.1)),
                }
            },
        }
    }
}

/// What a change of the selection does to derived files: the next state, and the steps.
pub open spec fn derived_plan(
    inputs: InputsModel,
    snapshot: SnapshotModel,
    before: Seq<Seq<char>>,
    after: Seq<Seq<char>>,
    state: StateModel,
) -> Result<(StateModel, Seq<PlanStep>), ManagerFailure> {
    match derived_paths(inputs.catalog, before) {
        Err(failure) => Err(failure),
        Ok(before_paths) => match derived_paths(inputs.catalog, after) {
            Err(failure) => Err(failure),
            Ok(after_paths) => {
                let paths = listing(before_paths.to_set().union(after_paths.to_set()));
                paths_derived_plan(
                    inputs,
                    snapshot,
                    before,
                    after,
                    before_paths,
                    after_paths,
                    state,
                    paths,
                    paths.len() as int,
                )
            },
        },
    }
}

/// Whether a planning step has done what is owed.
pub open spec fn carries_out(
    result: Result<(), ManagerError>,
    owed: Result<(StateModel, Seq<PlanStep>), ManagerFailure>,
    state: StateModel,
    before: Seq<PlanStep>,
    after: Seq<PlanStep>,
) -> bool {
    match result {
        Ok(()) => owed is Ok && state == owed->Ok_0.0 && after == before + owed->Ok_0.1,
        Err(error) => owed == Err::<(StateModel, Seq<PlanStep>), ManagerFailure>(error.failure()),
    }
}

fn edited_error(path: &str) -> (error: ManagerError)
    ensures
        error.failure() == edited(path@),
{
    ManagerError::InvalidProject(
        join3("refusing edited derived file `", path, "`; run doctor before retrying"),
    )
}

fn missing_error(path: &str) -> (error: ManagerError)
    ensures
        error.failure() == derived_missing(path@),
{
    ManagerError::InvalidProject(join3("owned derived file `", path, "` is missing"))
}

fn drop_owner(state: &mut ProjectState, path: &str)
    ensures
        final(state)@ == (StateModel {
            ownership: without_path(
                old(state)@.ownership,
                path@,
                old(state)@.ownership.len() as int,
            ),
            ..old(state)@
        }),
{
    let ghost all = ownership_models(state.ownership@);
    let mut rest: Vec<OwnershipRecord> = Vec::new();
    assert(ownership_models(rest@) =~= Seq::<OwnershipModel>::empty());
    let mut index: usize = 0;
    while index < state.ownership.len()
        invariant
            state@ == old(state)@,
            all == ownership_models(state.ownership@),
            index <= state.ownership@.len(),
            ownership_models(rest@) == without_path(all, path@, index as int),
        decreases state.ownership@.len() - index,
    {
        assert(all[index as int] == state.ownership@[index as int]@);
        if !same_text(state.ownership[index].path.as_str(), path) {
            let ghost before = ownership_models(rest@);
            let copy = state.ownership[index].duplicate();
            let ghost value = copy@;
            rest.push(copy);
            assert(ownership_models(rest@) =~= before.push(value));
        }
        index += 1;
    }
    state.ownership = rest;
}

fn retire_derived(
    inputs: &PlanningInputs,
    snapshot: &ProjectSnapshot,
    before: &TextSet,
    path: &str,
    next_state: &mut ProjectState,
    operations: &mut Vec<PlanOperation>,
) -> (result: Result<(), ManagerError>)
    ensures
        carries_out(
            result,
            retired(inputs@, snapshot@, before@, old(next_state)@, path@),
            final(next_state)@,
            steps(old(operations)@),
            steps(final(operations)@),
        ),
{
    let ghost start = steps(operations@);
    assert(start + Seq::<PlanStep>::empty() =~= start);
    let owner = snapshot.state.ownership_of(path);
    let current = match snapshot.files.get(path) {
        Some(current) => current,
        None => {
            if owner.is_some() {
                return Err(missing_error(path));
            }
            return Ok(());
        },
    };
    if owner != Some(OwnershipKind::Derived) {
        return Err(
            ManagerError::InvalidProject(
                join3("refusing to remove non-derived file `", path, "`"),
            ),
        );
    }
    let baseline = match render_project_derived(inputs, snapshot, path, before) {
        Ok(baseline) => baseline,
        Err(error) => {
            return Err(error);
        },
    };
    if !same_text(current, baseline.as_str()) {
        return Err(edited_error(path));
    }
    let operation = PlanOperation::RemoveFile {
        path: path.to_owned(),
        expected_hash: hash_text(current),
    };
    let ghost step = operation@;
    push_step(operations, operation);
    assert(start.push(step) =~= start + seq![step]);
    drop_owner(next_state, path);
    Ok(())
}

/// Makes a file of the application derived, where it can become so.
fn migrate_legacy_react_index_ownership(
    snapshot: &ProjectSnapshot,
    next_state: &mut ProjectState,
    path: &str,
) -> (done: bool)
    ensures
        done == migrates(snapshot@, old(next_state)@, path@),
        final(next_state)@ == (if done {
            migrated(old(next_state)@, path@, snapshot@.files[path@])
        } else {
            old(next_state)@
        }),
{
    let current = match snapshot.files.get(path) {
        Some(current) => current,
        None => {
            return false;
        },
    };
    if !is_migratable_legacy_react_index(snapshot, path, current) {
        return false;
    }
    let place = match find_owner(&next_state.ownership, path) {
        Some(place) => place,
        None => {
            return false;
        },
    };
    let ghost before = next_state@.ownership;
    let record = next_state.ownership[place].duplicate();
    assert(before[place as int] == record@);
    let changed = OwnershipRecord {
        path: record.path,
        kind: OwnershipKind::Derived,
        approved_sha256: Some(hash_text(current)),
    };
    let ghost value = changed@;
    next_state.ownership.set(place, changed);
    assert(ownership_models(next_state.ownership@) =~= before.update(place as int, value));
    true
}

fn regenerate(
    inputs: &PlanningInputs,
    snapshot: &ProjectSnapshot,
    before: &TextSet,
    before_paths: &TextSet,
    path: &str,
    current: &str,
    desired: String,
    moved: bool,
    next_state: &mut ProjectState,
    operations: &mut Vec<PlanOperation>,
) -> (result: Result<(), ManagerError>)
    requires
        snapshot@.files.contains_key(path@),
        snapshot@.files[path@] == current@,
    ensures
        carries_out(
            result,
            regenerated(
                inputs@,
                snapshot@,
                before@,
                before_paths@,
                old(next_state)@,
                path@,
                desired@,
                moved,
            ),
            final(next_state)@,
            steps(old(operations)@),
            steps(final(operations)@),
        ),
{
    let ghost start = steps(operations@);
    assert(start + Seq::<PlanStep>::empty() =~= start);
    let owner = snapshot.state.ownership_of(path);
    if owner != Some(OwnershipKind::Derived) && !moved {
        return Err(
            ManagerError::InvalidProject(
                join3("refusing to regenerate non-derived file `", path, "`"),
            ),
        );
    }
    if set_holds(before_paths, path) && !moved {
        let baseline = match render_project_derived(inputs, snapshot, path, before) {
            Ok(baseline) => baseline,
            Err(error) => {
                return Err(error);
            },
        };
        if !same_text(current, baseline.as_str()) {
            return Err(edited_error(path));
        }
    }
    if !same_text(current, desired.as_str()) {
        update_approved_hash(next_state, path, desired.as_str());
        let operation = PlanOperation::RegenerateDerived {
            path: path.to_owned(),
            expected_hash: Some(hash_text(current)),
            content_hash: hash_text(desired.as_str()),
            content: desired,
        };
        let ghost step = operation@;
        push_step(operations, operation);
        assert(start.push(step) =~= start + seq![step]);
    }
    Ok(())
}

fn keep_derived(
    inputs: &PlanningInputs,
    snapshot: &ProjectSnapshot,
    before: &TextSet,
    after: &TextSet,
    before_paths: &TextSet,
    path: &str,
    next_state: &mut ProjectState,
    operations: &mut Vec<PlanOperation>,
) -> (result: Result<(), ManagerError>)
    ensures
        carries_out(
            result,
            kept_derived(
                inputs@,
                snapshot@,
                before@,
                after@,
                before_paths@,
                old(next_state)@,
                path@,
            ),
            final(next_state)@,
            steps(old(operations)@),
            steps(final(operations)@),
        ),
{
    let ghost start = steps(operations@);
    let desired = match render_project_derived(inputs, snapshot, path, after) {
        Ok(desired) => desired,
        Err(error) => {
            return Err(error);
        },
    };
    let moved = migrate_legacy_react_index_ownership(snapshot, next_state, path);
    let owner = snapshot.state.ownership_of(path);
    if !moved && owner == Some(OwnershipKind::ApplicationOwned) {
        return Err(
            ManagerError::InvalidProject(
                join3("refusing generator change to application-owned file `", path, "`"),
            ),
        );
    }
    if let Some(current) = snapshot.files.get(path) {
        return regenerate(
            inputs,
            snapshot,
            before,
            before_paths,
            path,
            current,
            desired,
            moved,
            next_state,
            operations,
        );
    }
    if owner.is_some() {
        return Err(missing_error(path));
    }
    let approved = hash_text(desired.as_str());
    let ghost records = ownership_models(next_state.ownership@);
    let record = OwnershipRecord {
        path: path.to_owned(),
        kind: OwnershipKind::Derived,
        approved_sha256: Some(approved.clone()),
    };
    let ghost value = record@;
    let operation = PlanOperation::RegenerateDerived {
        path: path.to_owned(),
        expected_hash: None,
        content_hash: approved,
        content: desired,
    };
    let ghost step = operation@;
    push_step(operations, operation);
    assert(start.push(step) =~= start + seq![step]);
    next_state.ownership.push(record);
    assert(ownership_models(next_state.ownership@) =~= records.push(value));
    Ok(())
}

proof fn lemma_paths_fail(
    inputs: InputsModel,
    snapshot: SnapshotModel,
    before: Seq<Seq<char>>,
    after: Seq<Seq<char>>,
    before_paths: Seq<Seq<char>>,
    after_paths: Seq<Seq<char>>,
    state: StateModel,
    paths: Seq<Seq<char>>,
    count: int,
    total: int,
)
    requires
        paths_derived_plan(
            inputs,
            snapshot,
            before,
            after,
            before_paths,
            after_paths,
            state,
            paths,
            count,
        ) is Err,
        count <= total,
    ensures
        paths_derived_plan(
            inputs,
            snapshot,
            before,
            after,
            before_paths,
            after_paths,
            state,
            paths,
            total,
        ) == paths_derived_plan(
            inputs,
            snapshot,
            before,
            after,
            before_paths,
            after_paths,
            state,
            paths,
            count,
        ),
    decreases total - count,
{
    if count < total {
        lemma_paths_fail(
            inputs,
            snapshot,
            before,
            after,
            before_paths,
            after_paths,
            state,
            paths,
            count,
            total - 1,
        );
    }
}

/// Plans what a change of the selection does to derived files.
pub fn plan_derived(
    inputs: &PlanningInputs,
    snapshot: &ProjectSnapshot,
    before: &TextSet,
    after: &TextSet,
    next_state: &mut ProjectState,
    operations: &mut Vec<PlanOperation>,
) -> (result: Result<(), ManagerError>)
    ensures
        carries_out(
            result,
            derived_plan(inputs@, snapshot@, before@, after@, old(next_state)@),
            final(next_state)@,
            steps(old(operations)@),
            steps(final(operations)@),
        ),
{
    let ghost first = next_state@;
    let ghost start = steps(operations@);
    let before_paths = match selected_derived_paths(inputs.catalog, before) {
        Ok(paths) => paths,
        Err(error) => {
            return Err(error);
        },
    };
    let after_paths = match selected_derived_paths(inputs.catalog, after) {
        Ok(paths) => paths,
        Err(error) => {
            return Err(error);
        },
    };
    let paths = unite(&before_paths, &after_paths);
    let ghost total = paths@.len() as int;
    let ghost mut done = Seq::<PlanStep>::empty();
    assert(start + done =~= start);
    let mut index: usize = 0;
    while index < paths.len()
        invariant
            first == old(next_state)@,
            derived_paths(inputs@.catalog, before@) == Ok::<Seq<Seq<char>>, ManagerFailure>(
                before_paths@,
            ),
            derived_paths(inputs@.catalog, after@) == Ok::<Seq<Seq<char>>, ManagerFailure>(
                after_paths@,
            ),
            paths@ == listing(before_paths@.to_set().union(after_paths@.to_set())),
            total == paths@.len(),
            index <= total,
            paths_derived_plan(
                inputs@,
                snapshot@,
                before@,
                after@,
                before_paths@,
                after_paths@,
                first,
                paths@,
                index as int,
            ) == Ok::<(StateModel, Seq<PlanStep>), ManagerFailure>((next_state@, done)),
            steps(operations@) == start + done,
        decreases total - index,
    {
        let path = paths.at(index).as_str();
        assert(paths@[index as int] == path@);
        proof {
            if paths_derived_plan(
                inputs@,
                snapshot@,
                before@,
                after@,
                before_paths@,
                after_paths@,
                first,
                paths@,
                index + 1,
            ) is Err {
                lemma_paths_fail(
                    inputs@,
                    snapshot@,
                    before@,
                    after@,
                    before_paths@,
                    after_paths@,
                    first,
                    paths@,
                    index + 1,
                    total,
                );
            }
        }
        let ghost here = next_state@;
        let outcome = if set_holds(&after_paths, path) {
            keep_derived(
                inputs,
                snapshot,
                before,
                after,
                &before_paths,
                path,
                next_state,
                operations,
            )
        } else {
            retire_derived(inputs, snapshot, before, path, next_state, operations)
        };
        match outcome {
            Ok(()) => {},
            Err(error) => {
                return Err(error);
            },
        }
        proof {
            let more = if after_paths@.contains(path@) {
                kept_derived(
                    inputs@,
                    snapshot@,
                    before@,
                    after@,
                    before_paths@,
                    here,
                    path@,
                )->Ok_0.1
            } else {
                retired(inputs@, snapshot@, before@, here, path@)->Ok_0.1
            };
            assert((start + done) + more =~= start + (done + more));
            done = done + more;
        }
        index += 1;
    }
    Ok(())
}

} // verus!
