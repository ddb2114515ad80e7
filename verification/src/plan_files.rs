//! Planned changes of kit-owned files and application templates.

use vstd::prelude::*;
use vstd::string::*;

use crate::application_templates::{
    application_template, has_sql_name, is_sql_name, template_place, ApplicationTemplateDescriptor,
};
use crate::diagnosis::{hash_text, text_hash, InputsModel, PlanningInputs};
use crate::file_map::FileMap;
use crate::management::{
    steps, ManagerError, ManagerFailure, PlanOperation, PlanStep, ProjectSnapshot, SnapshotModel,
};
use crate::ordered::{codes, codes_of, models, sort_unique, sorted_listing, TextSet};
use crate::rendering::{required_module, unknown_selected};
use crate::sorting::{arranged, lemma_arranged, sort_ranked, Ranked};
use crate::state::{
    owner_of, ownership_models, OwnershipKind, OwnershipModel, OwnershipRecord, ProjectState,
    StateModel,
};
use crate::text::{clone_texts, join3, join5, same_text, split_on, split_text, texts};

verus! {

// Records.
/// The place, from `at` on, of the first record with a path.
pub open spec fn owner_place(records: Seq<OwnershipModel>, path: Seq<char>, at: int) -> int
    decreases records.len() - at,
{
    if at < 0 || at >= records.len() || records[at].path == path {
        at
    } else {
        owner_place(records, path, at + 1)
    }
}

/// Finds the first record with a path.
pub fn find_owner(records: &Vec<OwnershipRecord>, path: &str) -> (found: Option<usize>)
    ensures
        ({
            let place = owner_place(ownership_models(records@), path@, 0);
            match found {
                Some(index) => place == index && index < records@.len(),
                None => place >= records@.len(),
            }
        }),
{
    let ghost all = ownership_models(records@);
    let mut index: usize = 0;
    while index < records.len()
        invariant
            all == ownership_models(records@),
            index <= records@.len(),
            owner_place(all, path@, 0) == owner_place(all, path@, index as int),
        decreases records@.len() - index,
    {
        assert(all[index as int] == records@[index as int]@);
        if same_text(records[index].path.as_str(), path) {
            return Some(index);
        }
        index += 1;
    }
    None
}

/// The name of an owner in a diagnostic.
pub open spec fn kind_name(kind: OwnershipKind) -> Seq<char> {
    match kind {
        OwnershipKind::KitOwned => "KitOwned"@,
        OwnershipKind::ApplicationOwned => "ApplicationOwned"@,
        OwnershipKind::Derived => "Derived"@,
        OwnershipKind::DependencyLock => "DependencyLock"@,
    }
}

/// Returns the name of an owner in a diagnostic.
pub fn show_kind(kind: OwnershipKind) -> (name: &'static str)
    ensures
        name@ == kind_name(kind),
{
    match kind {
        OwnershipKind::KitOwned => "KitOwned",
        OwnershipKind::ApplicationOwned => "ApplicationOwned",
        OwnershipKind::Derived => "Derived",
        OwnershipKind::DependencyLock => "DependencyLock",
    }
}

/// Appends one operation to a plan.
pub(crate) fn push_step(operations: &mut Vec<PlanOperation>, operation: PlanOperation)
    ensures
        steps(final(operations)@) == steps(old(operations)@).push(operation@),
{
    let ghost before = steps(operations@);
    operations.push(operation);
    assert(steps(operations@) =~= before.push(operation@));
}

// Kit-owned files.
/// A project as the release in use would make it.
#[derive(Debug)]
pub struct TargetProject {
    /// Its state.
    pub state: ProjectState,
    /// Its files.
    pub files: FileMap,
}

/// Whether a later kit-owned record has the path of the one at a place.
pub open spec fn kit_overridden(records: Seq<OwnershipModel>, at: int) -> bool {
    exists|i: int|
        at < i < records.len() && (#[trigger] records[i]).kind == OwnershipKind::KitOwned
            && records[i].path == records[at].path
}

/// The kit-owned records among the first `count` that no later one overrides.
pub open spec fn kit_records(records: Seq<OwnershipModel>, count: int) -> Seq<OwnershipModel>
    decreases count,
{
    if count <= 0 {
        Seq::empty()
    } else {
        let before = kit_records(records, count - 1);
        if records[count - 1].kind == OwnershipKind::KitOwned && !kit_overridden(
            records,
            count - 1,
        ) {
            before.push(records[count - 1])
        } else {
            before
        }
    }
}

/// The rank of a record: its path.
pub open spec fn path_rank() -> spec_fn(OwnershipModel) -> Seq<u32> {
    |record: OwnershipModel| codes(record.path)
}

/// The kit-owned records in the order of their paths.
pub open spec fn kit_listing(records: Seq<OwnershipModel>) -> Seq<OwnershipModel> {
    let kept = kit_records(records, records.len() as int);
    arranged(kept, path_rank(), kept.len() as int)
}

/// Whether a kit-owned record has a path.
pub open spec fn kit_owns(records: Seq<OwnershipModel>, path: Seq<char>) -> bool {
    exists|i: int|
        0 <= i < records.len() && (#[trigger] records[i]).kind == OwnershipKind::KitOwned
            && records[i].path == path
}

/// The contents of a kit-owned file as they were approved.
pub open spec fn approved_contents(snapshot: SnapshotModel, record: OwnershipModel) -> Result<
    Seq<char>,
    ManagerFailure,
> {
    if !snapshot.files.contains_key(record.path) {
        Err(ManagerFailure::InvalidProject("owned kit file `"@ + record.path + "` is missing"@))
    } else if record.approved != Some(text_hash(snapshot.files[record.path])) {
        Err(
            ManagerFailure::InvalidProject(
                "refusing edited kit-owned file `"@ + record.path + "` during revision update"@,
            ),
        )
    } else {
        Ok(snapshot.files[record.path])
    }
}

/// The removal that an owned file calls for, where the release has no such file.
pub open spec fn removal_step(
    snapshot: SnapshotModel,
    target: Seq<OwnershipModel>,
    record: OwnershipModel,
) -> Result<Seq<PlanStep>, ManagerFailure> {
    let place = owner_place(target, record.path, 0);
    if record.kind != OwnershipKind::KitOwned {
        Ok(Seq::empty())
    } else if place < target.len() && target[place].kind != OwnershipKind::KitOwned {
        Err(
            ManagerFailure::InvalidProject(
                "revision update cannot change kit-owned file `"@ + record.path + "` to "@
                    + kind_name(target[place].kind) + " ownership"@,
            ),
        )
    } else if kit_owns(target, record.path) {
        Ok(Seq::empty())
    } else {
        match approved_contents(snapshot, record) {
            Err(failure) => Err(failure),
            Ok(current) => Ok(
                seq![
                    PlanStep::RemoveFile { path: record.path, expected_hash: text_hash(current) },
                ],
            ),
        }
    }
}

/// The removals that the first `count` records call for.
pub open spec fn removal_steps(
    snapshot: SnapshotModel,
    target: Seq<OwnershipModel>,
    count: int,
) -> Result<Seq<PlanStep>, ManagerFailure>
    decreases count,
{
    if count <= 0 {
        Ok(Seq::empty())
    } else {
        match removal_steps(snapshot, target, count - 1) {
            Err(failure) => Err(failure),
            Ok(before) => match removal_step(
                snapshot,
                target,
                snapshot.state.ownership[count - 1],
            ) {
                Err(failure) => Err(failure),
                Ok(more) => Ok(before + more),
            },
        }
    }
}

/// The creation or replacement that a file of the release calls for.
pub open spec fn release_step(
    snapshot: SnapshotModel,
    files: Map<Seq<char>, Seq<char>>,
    record: OwnershipModel,
) -> Result<Seq<PlanStep>, ManagerFailure> {
    let path = record.path;
    let owned = snapshot.state.ownership;
    let place = owner_place(owned, path, 0);
    if !files.contains_key(path) {
        Err(
            ManagerFailure::InvalidProject(
                "target ownership references missing kit-owned file `"@ + path + "`"@,
            ),
        )
    } else if record.approved != Some(text_hash(files[path])) {
        Err(
            ManagerFailure::InvalidProject(
                "target renderer approved the wrong hash for kit-owned file `"@ + path + "`"@,
            ),
        )
    } else if place < owned.len() {
        if owned[place].kind != OwnershipKind::KitOwned {
            Err(
                ManagerFailure::InvalidProject(
                    "revision update cannot replace "@ + kind_name(owned[place].kind) + " file `"@
                        + path + "` with a kit-owned file"@,
                ),
            )
        } else {
            match approved_contents(snapshot, owned[place]) {
                Err(failure) => Err(failure),
                Ok(current) => if current == files[path] {
                    Ok(Seq::empty())
                } else {
                    Ok(
                        seq![
                            PlanStep::ReplaceKitFile {
                                path,
                                expected_hash: text_hash(current),
                                content_hash: text_hash(files[path]),
                                content: files[path],
                            },
                        ],
                    )
                },
            }
        }
    } else if snapshot.files.contains_key(path) {
        Err(
            ManagerFailure::InvalidProject(
                "revision update cannot claim unowned file `"@ + path + "`"@,
            ),
        )
    } else {
        Ok(
            seq![
                PlanStep::CreateFile {
                    path,
                    content_hash: text_hash(files[path]),
                    content: files[path],
                },
            ],
        )
    }
}

/// The creations and replacements that the first `count` files of the release call for.
pub open spec fn release_steps(
    snapshot: SnapshotModel,
    files: Map<Seq<char>, Seq<char>>,
    records: Seq<OwnershipModel>,
    count: int,
) -> Result<Seq<PlanStep>, ManagerFailure>
    decreases count,
{
    if count <= 0 {
        Ok(Seq::empty())
    } else {
        match release_steps(snapshot, files, records, count - 1) {
            Err(failure) => Err(failure),
            Ok(before) => match release_step(snapshot, files, records[count - 1]) {
                Err(failure) => Err(failure),
                Ok(more) => Ok(before + more),
            },
        }
    }
}

/// The records among the first `count` that are not kit-owned.
pub open spec fn without_kit(records: Seq<OwnershipModel>, count: int) -> Seq<OwnershipModel>
    decreases count,
{
    if count <= 0 {
        Seq::empty()
    } else if records[count - 1].kind == OwnershipKind::KitOwned {
        without_kit(records, count - 1)
    } else {
        without_kit(records, count - 1).push(records[count - 1])
    }
}

/// What a change of release does to the kit-owned files: the steps, and the next state.
pub open spec fn release_plan(
    snapshot: SnapshotModel,
    state: StateModel,
    target: StateModel,
    files: Map<Seq<char>, Seq<char>>,
) -> Result<(StateModel, Seq<PlanStep>), ManagerFailure> {
    let kept = kit_listing(target.ownership);
    match removal_steps(snapshot, target.ownership, snapshot.state.ownership.len() as int) {
        Err(failure) => Err(failure),
        Ok(removals) => match release_steps(snapshot, files, kept, kept.len() as int) {
            Err(failure) => Err(failure),
            Ok(changes) => Ok(
                (
                    StateModel {
                        ownership: without_kit(state.ownership, state.ownership.len() as int)
                            + kept,
                        ..state
                    },
                    removals + changes,
                ),
            ),
        },
    }
}

impl Ranked for OwnershipRecord {
    open spec fn rank(&self) -> Seq<u32> {
        codes(self.path@)
    }

    fn rank_codes(&self) -> (codes: Vec<u32>) {
        codes_of(self.path.as_str())
    }
}

fn overridden(records: &Vec<OwnershipRecord>, at: usize) -> (found: bool)
    requires
        at < records@.len(),
    ensures
        found == kit_overridden(ownership_models(records@), at as int),
{
    let ghost all = ownership_models(records@);
    let length: usize = records.len();
    let mut index: usize = at + 1;
    while index < length
        invariant
            all == ownership_models(records@),
            length == records@.len(),
            at < index <= length,
            forall|i: int|
                at < i < index ==> !((#[trigger] all[i]).kind == OwnershipKind::KitOwned
                    && all[i].path == all[at as int].path),
        decreases length - index,
    {
        assert(all[index as int] == records@[index as int]@);
        assert(all[at as int] == records@[at as int]@);
        if records[index].kind == OwnershipKind::KitOwned && same_text(
            records[index].path.as_str(),
            records[at].path.as_str(),
        ) {
            assert(all[index as int].path == all[at as int].path);
            return true;
        }
        index += 1;
    }
    false
}

fn list_kit_records(records: &Vec<OwnershipRecord>) -> (kept: Vec<OwnershipRecord>)
    ensures
        ownership_models(kept@) == kit_listing(ownership_models(records@)),
{
    let ghost all = ownership_models(records@);
    let mut kept: Vec<OwnershipRecord> = Vec::new();
    assert(ownership_models(kept@) =~= Seq::<OwnershipModel>::empty());
    let mut index: usize = 0;
    while index < records.len()
        invariant
            all == ownership_models(records@),
            index <= records@.len(),
            ownership_models(kept@) == kit_records(all, index as int),
        decreases records@.len() - index,
    {
        assert(all[index as int] == records@[index as int]@);
        if records[index].kind == OwnershipKind::KitOwned && !overridden(records, index) {
            let ghost before = ownership_models(kept@);
            let copy = records[index].duplicate();
            let ghost value = copy@;
            kept.push(copy);
            assert(ownership_models(kept@) =~= before.push(value));
        }
        index += 1;
    }
    let ghost unsorted = kept@;
    let sorted = sort_ranked(kept);
    proof {
        let view = |record: OwnershipRecord| record@;
        lemma_arranged(unsorted, view, path_rank(), unsorted.len() as int);
        assert(ownership_models(unsorted) == unsorted.map_values(view));
    }
    sorted
}

fn finds_kit_owner(records: &Vec<OwnershipRecord>, path: &str) -> (found: bool)
    ensures
        found == kit_owns(ownership_models(records@), path@),
{
    let ghost all = ownership_models(records@);
    let mut index: usize = 0;
    while index < records.len()
        invariant
            all == ownership_models(records@),
            index <= records@.len(),
            forall|i: int|
                0 <= i < index ==> !((#[trigger] all[i]).kind == OwnershipKind::KitOwned
                    && all[i].path == path@),
        decreases records@.len() - index,
    {
        assert(all[index as int] == records@[index as int]@);
        if records[index].kind == OwnershipKind::KitOwned && same_text(
            records[index].path.as_str(),
            path,
        ) {
            assert(all[index as int].path == path@);
            return true;
        }
        index += 1;
    }
    false
}

/// Returns the contents of a kit-owned file as they were approved.
pub fn approved_kit_file<'a>(snapshot: &'a ProjectSnapshot, record: &OwnershipRecord) -> (result:
    Result<&'a str, ManagerError>)
    ensures
        match result {
            Ok(text) => approved_contents(snapshot@, record@) == Ok::<Seq<char>, ManagerFailure>(
                text@,
            ),
            Err(error) => approved_contents(snapshot@, record@) == Err::<
                Seq<char>,
                ManagerFailure,
            >(error.failure()),
        },
{
    let path = record.path.as_str();
    let contents = match snapshot.files.get(path) {
        Some(contents) => contents,
        None => {
            return Err(
                ManagerError::InvalidProject(join3("owned kit file `", path, "` is missing")),
            );
        },
    };
    let actual = hash_text(contents);
    let approved = match &record.approved_sha256 {
        Some(hash) => same_text(hash.as_str(), actual.as_str()),
        None => false,
    };
    if !approved {
        return Err(
            ManagerError::InvalidProject(
                join3("refusing edited kit-owned file `", path, "` during revision update"),
            ),
        );
    }
    Ok(contents)
}

fn plan_removal(
    snapshot: &ProjectSnapshot,
    target: &Vec<OwnershipRecord>,
    record: &OwnershipRecord,
    operations: &mut Vec<PlanOperation>,
) -> (result: Result<(), ManagerError>)
    ensures
        match result {
            Ok(()) => removal_step(snapshot@, ownership_models(target@), record@) is Ok && steps(
                final(operations)@,
            ) == steps(old(operations)@) + removal_step(
                snapshot@,
                ownership_models(target@),
                record@,
            )->Ok_0,
            Err(error) => removal_step(snapshot@, ownership_models(target@), record@) == Err::<
                Seq<PlanStep>,
                ManagerFailure,
            >(error.failure()),
        },
{
    let ghost before = steps(operations@);
    assert(before + Seq::<PlanStep>::empty() =~= before);
    if record.kind != OwnershipKind::KitOwned {
        return Ok(());
    }
    let path = record.path.as_str();
    if let Some(place) = find_owner(target, path) {
        let kind = target[place].kind;
        assert(ownership_models(target@)[place as int] == target@[place as int]@);
        if kind != OwnershipKind::KitOwned {
            return Err(
                ManagerError::InvalidProject(
                    join5(
                        "revision update cannot change kit-owned file `",
                        path,
                        "` to ",
                        show_kind(kind),
                        " ownership",
                    ),
                ),
            );
        }
    }
    if finds_kit_owner(target, path) {
        return Ok(());
    }
    let current = match approved_kit_file(snapshot, record) {
        Ok(current) => current,
        Err(error) => {
            return Err(error);
        },
    };
    let operation = PlanOperation::RemoveFile {
        path: record.path.clone(),
        expected_hash: hash_text(current),
    };
    let ghost step = operation@;
    push_step(operations, operation);
    assert(before.push(step) =~= before + seq![step]);
    Ok(())
}

fn plan_release_file(
    snapshot: &ProjectSnapshot,
    files: &FileMap,
    record: &OwnershipRecord,
    operations: &mut Vec<PlanOperation>,
) -> (result: Result<(), ManagerError>)
    ensures
        match result {
            Ok(()) => release_step(snapshot@, files@, record@) is Ok && steps(final(operations)@)
                == steps(old(operations)@) + release_step(snapshot@, files@, record@)->Ok_0,
            Err(error) => release_step(snapshot@, files@, record@) == Err::<
                Seq<PlanStep>,
                ManagerFailure,
            >(error.failure()),
        },
{
    let ghost before = steps(operations@);
    assert(before + Seq::<PlanStep>::empty() =~= before);
    let path = record.path.as_str();
    let desired = match files.get(path) {
        Some(desired) => desired,
        None => {
            return Err(
                ManagerError::InvalidProject(
                    join3("target ownership references missing kit-owned file `", path, "`"),
                ),
            );
        },
    };
    let desired_hash = hash_text(desired);
    let approved = match &record.approved_sha256 {
        Some(hash) => same_text(hash.as_str(), desired_hash.as_str()),
        None => false,
    };
    if !approved {
        return Err(
            ManagerError::InvalidProject(
                join3(
                    "target renderer approved the wrong hash for kit-owned file `",
                    path,
                    "`",
                ),
            ),
        );
    }
    match find_owner(&snapshot.state.ownership, path) {
        Some(place) => {
            let owner = &snapshot.state.ownership[place];
            assert(snapshot@.state.ownership[place as int] == owner@);
            if owner.kind != OwnershipKind::KitOwned {
                return Err(
                    ManagerError::InvalidProject(
                        join5(
                            "revision update cannot replace ",
                            show_kind(owner.kind),
                            " file `",
                            path,
                            "` with a kit-owned file",
                        ),
                    ),
                );
            }
            let current = match approved_kit_file(snapshot, owner) {
                Ok(current) => current,
                Err(error) => {
                    return Err(error);
                },
            };
            if !same_text(current, desired) {
                let operation = PlanOperation::ReplaceKitFile {
                    path: record.path.clone(),
                    expected_hash: hash_text(current),
                    content_hash: desired_hash,
                    content: desired.to_owned(),
                };
                let ghost step = operation@;
                push_step(operations, operation);
                assert(before.push(step) =~= before + seq![step]);
            }
        },
        None => {
            if snapshot.files.contains_key(path) {
                return Err(
                    ManagerError::InvalidProject(
                        join3("revision update cannot claim unowned file `", path, "`"),
                    ),
                );
            }
            let operation = PlanOperation::CreateFile {
                path: record.path.clone(),
                content_hash: desired_hash,
                content: desired.to_owned(),
            };
            let ghost step = operation@;
            push_step(operations, operation);
            assert(before.push(step) =~= before + seq![step]);
        },
    }
    Ok(())
}

proof fn lemma_removals_fail(
    snapshot: SnapshotModel,
    target: Seq<OwnershipModel>,
    count: int,
    total: int,
)
    requires
        removal_steps(snapshot, target, count) is Err,
        count <= total,
    ensures
        removal_steps(snapshot, target, total) == removal_steps(snapshot, target, count),
    decreases total - count,
{
    if count < total {
        lemma_removals_fail(snapshot, target, count, total - 1);
    }
}

proof fn lemma_release_fail(
    snapshot: SnapshotModel,
    files: Map<Seq<char>, Seq<char>>,
    records: Seq<OwnershipModel>,
    count: int,
    total: int,
)
    requires
        release_steps(snapshot, files, records, count) is Err,
        count <= total,
    ensures
        release_steps(snapshot, files, records, total) == release_steps(
            snapshot,
            files,
            records,
            count,
        ),
    decreases total - count,
{
    if count < total {
        lemma_release_fail(snapshot, files, records, count, total - 1);
    }
}

fn drop_kit_records(records: &Vec<OwnershipRecord>) -> (rest: Vec<OwnershipRecord>)
    ensures
        ownership_models(rest@) == without_kit(ownership_models(records@), records@.len() as int),
{
    let ghost all = ownership_models(records@);
    let mut rest: Vec<OwnershipRecord> = Vec::new();
    assert(ownership_models(rest@) =~= Seq::<OwnershipModel>::empty());
    let mut index: usize = 0;
    while index < records.len()
        invariant
            all == ownership_models(records@),
            index <= records@.len(),
            ownership_models(rest@) == without_kit(all, index as int),
        decreases records@.len() - index,
    {
        assert(all[index as int] == records@[index as int]@);
        if records[index].kind != OwnershipKind::KitOwned {
            let ghost before = ownership_models(rest@);
            let copy = records[index].duplicate();
            let ghost value = copy@;
            rest.push(copy);
            assert(ownership_models(rest@) =~= before.push(value));
        }
        index += 1;
    }
    rest
}

/// Plans what a change of release does to the kit-owned files.
pub fn plan_release_base_files(
    snapshot: &ProjectSnapshot,
    target: &TargetProject,
    next_state: &mut ProjectState,
    operations: &mut Vec<PlanOperation>,
) -> (result: Result<(), ManagerError>)
    ensures
        ({
            let owed = release_plan(
                snapshot@,
                old(next_state)@,
                target.state@,
                target.files@,
            );
            match result {
                Ok(()) => owed is Ok && final(next_state)@ == owed->Ok_0.0 && steps(
                    final(operations)@,
                ) == steps(old(operations)@) + owed->Ok_0.1,
                Err(error) => owed == Err::<(StateModel, Seq<PlanStep>), ManagerFailure>(
                    error.failure(),
                ),
            }
        }),
{
    let ghost start = steps(operations@);
    let ghost owned = target.state@.ownership;
    let ghost total = snapshot@.state.ownership.len() as int;
    let ghost mut done = Seq::<PlanStep>::empty();
    assert(start + done =~= start);
    let mut index: usize = 0;
    while index < snapshot.state.ownership.len()
        invariant
            owned == ownership_models(target.state.ownership@),
            owned == target.state@.ownership,
            total == snapshot@.state.ownership.len(),
            total == snapshot.state.ownership@.len(),
            index <= total,
            removal_steps(snapshot@, owned, index as int) == Ok::<Seq<PlanStep>, ManagerFailure>(
                done,
            ),
            steps(operations@) == start + done,
            next_state@ == old(next_state)@,
        decreases total - index,
    {
        let record = &snapshot.state.ownership[index];
        assert(snapshot@.state.ownership[index as int] == record@);
        proof {
            if removal_steps(snapshot@, owned, index + 1) is Err {
                lemma_removals_fail(snapshot@, owned, index + 1, total);
            }
        }
        match plan_removal(snapshot, &target.state.ownership, record, operations) {
            Ok(()) => {},
            Err(error) => {
                return Err(error);
            },
        }
        proof {
            let more = removal_step(snapshot@, owned, record@)->Ok_0;
            assert((start + done) + more =~= start + (done + more));
            done = done + more;
        }
        index += 1;
    }
    let ghost removals = done;
    let kept = list_kit_records(&target.state.ownership);
    let ghost records = ownership_models(kept@);
    let ghost mut changes = Seq::<PlanStep>::empty();
    assert(start + (removals + changes) =~= start + removals);
    let mut index: usize = 0;
    while index < kept.len()
        invariant
            records == ownership_models(kept@),
            records == kit_listing(target.state@.ownership),
            index <= kept@.len(),
            removal_steps(
                snapshot@,
                target.state@.ownership,
                snapshot@.state.ownership.len() as int,
            ) == Ok::<Seq<PlanStep>, ManagerFailure>(removals),
            release_steps(snapshot@, target.files@, records, index as int) == Ok::<
                Seq<PlanStep>,
                ManagerFailure,
            >(changes),
            steps(operations@) == start + (removals + changes),
            next_state@ == old(next_state)@,
        decreases kept@.len() - index,
    {
        let record = &kept[index];
        assert(records[index as int] == record@);
        proof {
            if release_steps(snapshot@, target.files@, records, index + 1) is Err {
                lemma_release_fail(
                    snapshot@,
                    target.files@,
                    records,
                    index + 1,
                    records.len() as int,
                );
            }
        }
        match plan_release_file(snapshot, &target.files, record, operations) {
            Ok(()) => {},
            Err(error) => {
                return Err(error);
            },
        }
        proof {
            let more = release_step(snapshot@, target.files@, record@)->Ok_0;
            assert((start + (removals + changes)) + more =~= start + (removals + (changes
                + more)));
            changes = changes + more;
        }
        index += 1;
    }
    let mut ownership = drop_kit_records(&next_state.ownership);
    let ghost rest = ownership_models(ownership@);
    let mut more = kept;
    ownership.append(&mut more);
    assert(ownership_models(ownership@) =~= rest + records);
    next_state.ownership = ownership;
    Ok(())
}

// Application templates.
/// The step that a template of a module calls for.
pub open spec fn template_steps(
    templates: Seq<ApplicationTemplateDescriptor>,
    snapshot: SnapshotModel,
    id: Seq<char>,
    path: Seq<char>,
) -> Result<Seq<PlanStep>, ManagerFailure> {
    let place = template_place(templates, id, path, 0);
    let owner = owner_of(snapshot.state.ownership, path);
    if place >= templates.len() {
        Err(
            ManagerFailure::InvalidProject(
                "module `"@ + id + "` application template `"@ + path
                    + "` has no embedded descriptor"@,
            ),
        )
    } else if snapshot.files.contains_key(path) {
        match owner {
            None => Ok(Seq::empty()),
            Some(OwnershipKind::ApplicationOwned) => Ok(Seq::empty()),
            Some(kind) => Err(
                ManagerFailure::InvalidProject(
                    "application template target `"@ + path + "` is already owned as "@
                        + kind_name(kind),
                ),
            ),
        }
    } else if owner is Some {
        Err(
            ManagerFailure::InvalidProject(
                "owned application template target `"@ + path + "` is missing"@,
            ),
        )
    } else {
        Ok(
            seq![
                PlanStep::CreateFile {
                    path,
                    content_hash: text_hash(templates[place].source@),
                    content: templates[place].source@,
                },
            ],
        )
    }
}

/// A state in which the application owns a path, unless it has an owner.
pub open spec fn with_application_owner(state: StateModel, path: Seq<char>) -> StateModel {
    if owner_of(state.ownership, path) is None {
        StateModel {
            ownership: state.ownership.push(
                OwnershipModel { path, kind: OwnershipKind::ApplicationOwned, approved: None },
            ),
            ..state
        }
    } else {
        state
    }
}

/// What the first `count` templates of a module do: the next state, and the steps.
pub open spec fn module_template_plan(
    templates: Seq<ApplicationTemplateDescriptor>,
    snapshot: SnapshotModel,
    state: StateModel,
    id: Seq<char>,
    paths: Seq<Seq<char>>,
    count: int,
) -> Result<(StateModel, Seq<PlanStep>), ManagerFailure>
    decreases count,
{
    if count <= 0 {
        Ok((state, Seq::empty()))
    } else {
        match module_template_plan(templates, snapshot, state, id, paths, count - 1) {
            Err(failure) => Err(failure),
            Ok(before) => match template_steps(templates, snapshot, id, paths[count - 1]) {
                Err(failure) => Err(failure),
                Ok(more) => Ok(
                    (with_application_owner(before.0, paths[count - 1]), before.1 + more),
                ),
            },
        }
    }
}

/// What the templates of the first `count` added modules do: the next state, and the steps.
pub open spec fn added_template_plan(
    inputs: InputsModel,
    snapshot: SnapshotModel,
    state: StateModel,
    added: Seq<Seq<char>>,
    count: int,
) -> Result<(StateModel, Seq<PlanStep>), ManagerFailure>
    decreases count,
{
    if count <= 0 {
        Ok((state, Seq::empty()))
    } else {
        match added_template_plan(inputs, snapshot, state, added, count - 1) {
            Err(failure) => Err(failure),
            Ok(before) => match inputs.catalog.find(added[count - 1]) {
                None => Err(unknown_selected(added[count - 1])),
                Some(module) => match module_template_plan(
                    inputs.templates,
                    snapshot,
                    before.0,
                    added[count - 1],
                    texts(module.application_templates@),
                    module.application_templates@.len() as int,
                ) {
                    Err(failure) => Err(failure),
                    Ok(more) => Ok((more.0, before.1 + more.1)),
                },
            },
        }
    }
}

/// Those of the first `count` paths at which there is a file.
pub open spec fn present_paths(
    files: Map<Seq<char>, Seq<char>>,
    paths: Seq<Seq<char>>,
    count: int,
) -> Seq<Seq<char>>
    decreases count,
{
    if count <= 0 {
        Seq::empty()
    } else if files.contains_key(paths[count - 1]) {
        present_paths(files, paths, count - 1).push(paths[count - 1])
    } else {
        present_paths(files, paths, count - 1)
    }
}

/// What the removal of the first `count` removed modules leaves in place.
pub open spec fn left_by_modules(
    inputs: InputsModel,
    snapshot: SnapshotModel,
    removed: Seq<Seq<char>>,
    count: int,
) -> Result<Seq<Seq<char>>, ManagerFailure>
    decreases count,
{
    if count <= 0 {
        Ok(Seq::empty())
    } else {
        match left_by_modules(inputs, snapshot, removed, count - 1) {
            Err(failure) => Err(failure),
            Ok(before) => match inputs.catalog.find(removed[count - 1]) {
                None => Err(unknown_selected(removed[count - 1])),
                Some(module) => Ok(
                    before + texts(module.persistence@) + present_paths(
                        snapshot.files,
                        texts(module.application_templates@),
                        module.application_templates@.len() as int,
                    ),
                ),
            },
        }
    }
}

/// The last component of a path that names something, of the first `count`.
pub open spec fn naming_component(components: Seq<Seq<char>>, count: int) -> Option<Seq<char>>
    decreases count,
{
    if count <= 0 {
        None
    } else {
        let component = components[count - 1];
        if component.len() == 0 || component == "."@ {
            naming_component(components, count - 1)
        } else if component == ".."@ {
            None
        } else {
            Some(component)
        }
    }
}

/// Whether a component, from place `at` on, is one of two words.
pub open spec fn has_word(
    components: Seq<Seq<char>>,
    at: int,
    first: Seq<char>,
    second: Seq<char>,
) -> bool {
    exists|i: int|
        at <= i < components.len() && ((#[trigger] components[i]) == first || components[i]
            == second)
}

/// Whether a path names migrations, persisted data, or history that module removal must retain.
pub open spec fn is_historical(path: Seq<char>) -> bool {
    let components = split_on(path, '/');
    ||| components[0] == "migration"@
    ||| components[0] == "migrations"@
    ||| components[0] == "data"@
    ||| components[0] == "history"@
    ||| has_word(components, 1, "data"@, "history"@)
    ||| has_word(components, 1, "migration"@, "migrations"@) && (naming_component(
        components,
        components.len() as int,
    ) matches Some(name) && is_sql_name(name))
}

/// The historical paths among the first `count` owned ones.
pub open spec fn historical_paths(records: Seq<OwnershipModel>, count: int) -> Seq<Seq<char>>
    decreases count,
{
    if count <= 0 {
        Seq::empty()
    } else if is_historical(records[count - 1].path) {
        historical_paths(records, count - 1).push(records[count - 1].path)
    } else {
        historical_paths(records, count - 1)
    }
}

/// The paths that a removal leaves in place, in order.
pub open spec fn preserved_paths(
    inputs: InputsModel,
    snapshot: SnapshotModel,
    removed: Seq<Seq<char>>,
) -> Result<Seq<Seq<char>>, ManagerFailure> {
    let owned = snapshot.state.ownership;
    match left_by_modules(inputs, snapshot, removed, removed.len() as int) {
        Err(failure) => Err(failure),
        Ok(left) => Ok(
            sorted_listing::<String>(
                if removed.len() == 0 {
                    left
                } else {
                    left + historical_paths(owned, owned.len() as int)
                },
            ),
        ),
    }
}

fn finds_word(components: &Vec<String>, at: usize, first: &str, second: &str) -> (found: bool)
    requires
        at <= components@.len(),
    ensures
        found == has_word(texts(components@), at as int, first@, second@),
{
    let ghost all = texts(components@);
    let mut index: usize = at;
    while index < components.len()
        invariant
            all == texts(components@),
            at <= index <= components@.len(),
            forall|i: int| at <= i < index ==> (#[trigger] all[i]) != first@ && all[i] != second@,
        decreases components@.len() - index,
    {
        let component = components[index].as_str();
        assert(all[index as int] == component@);
        if same_text(component, first) || same_text(component, second) {
            return true;
        }
        index += 1;
    }
    false
}

fn names_sql_file(components: &Vec<String>) -> (result: bool)
    ensures
        result == (naming_component(texts(components@), components@.len() as int) matches Some(
            name,
        ) && is_sql_name(name)),
{
    let ghost all = texts(components@);
    let mut count: usize = components.len();
    while count > 0
        invariant
            all == texts(components@),
            count <= components@.len(),
            naming_component(all, components@.len() as int) == naming_component(
                all,
                count as int,
            ),
        decreases count,
    {
        let component = components[count - 1].as_str();
        assert(all[count - 1] == component@);
        if component.is_empty() || same_text(component, ".") {
            count -= 1;
        } else if same_text(component, "..") {
            return false;
        } else {
            return has_sql_name(component);
        }
    }
    false
}

/// Returns whether a path names migrations, persisted data, or history that module removal must
/// retain.
pub fn preserves_historical_path(path: &str) -> (result: bool)
    ensures
        result == is_historical(path@),
{
    let components = split_text(path, '/');
    let first = components[0].as_str();
    assert(texts(components@)[0] == first@);
    if same_text(first, "migration") || same_text(first, "migrations") || same_text(first, "data")
        || same_text(first, "history") {
        return true;
    }
    finds_word(&components, 1, "data", "history") || (finds_word(
        &components,
        1,
        "migration",
        "migrations",
    ) && names_sql_file(&components))
}

fn plan_template(
    templates: &Vec<ApplicationTemplateDescriptor>,
    snapshot: &ProjectSnapshot,
    id: &str,
    path: &str,
    operations: &mut Vec<PlanOperation>,
) -> (result: Result<(), ManagerError>)
    ensures
        match result {
            Ok(()) => template_steps(templates@, snapshot@, id@, path@) is Ok && steps(
                final(operations)@,
            ) == steps(old(operations)@) + template_steps(
                templates@,
                snapshot@,
                id@,
                path@,
            )->Ok_0,
            Err(error) => template_steps(templates@, snapshot@, id@, path@) == Err::<
                Seq<PlanStep>,
                ManagerFailure,
            >(error.failure()),
        },
{
    let ghost before = steps(operations@);
    assert(before + Seq::<PlanStep>::empty() =~= before);
    let descriptor = match application_template(templates, id, path) {
        Some(descriptor) => descriptor,
        None => {
            return Err(
                ManagerError::InvalidProject(
                    join5(
                        "module `",
                        id,
                        "` application template `",
                        path,
                        "` has no embedded descriptor",
                    ),
                ),
            );
        },
    };
    let owner = snapshot.state.ownership_of(path);
    if snapshot.files.contains_key(path) {
        match owner {
            None => {},
            Some(OwnershipKind::ApplicationOwned) => {},
            Some(kind) => {
                let mut message = join3(
                    "application template target `",
                    path,
                    "` is already owned as ",
                );
                message.append(show_kind(kind));
                return Err(ManagerError::InvalidProject(message));
            },
        }
        return Ok(());
    }
    if owner.is_some() {
        return Err(
            ManagerError::InvalidProject(
                join3("owned application template target `", path, "` is missing"),
            ),
        );
    }
    let operation = PlanOperation::CreateFile {
        path: path.to_owned(),
        content_hash: hash_text(descriptor.source.as_str()),
        content: descriptor.source.clone(),
    };
    let ghost step = operation@;
    push_step(operations, operation);
    assert(before.push(step) =~= before + seq![step]);
    Ok(())
}

fn own_by_application(state: &mut ProjectState, path: &str)
    ensures
        final(state)@ == with_application_owner(old(state)@, path@),
{
    if state.ownership_of(path).is_none() {
        let ghost before = ownership_models(state.ownership@);
        state.ownership.push(
            OwnershipRecord {
                path: path.to_owned(),
                kind: OwnershipKind::ApplicationOwned,
                approved_sha256: None,
            },
        );
        assert(ownership_models(state.ownership@) =~= before.push(
            OwnershipModel {
                path: path@,
                kind: OwnershipKind::ApplicationOwned,
                approved: None,
            },
        ));
    }
}

proof fn lemma_module_templates_fail(
    templates: Seq<ApplicationTemplateDescriptor>,
    snapshot: SnapshotModel,
    state: StateModel,
    id: Seq<char>,
    paths: Seq<Seq<char>>,
    count: int,
    total: int,
)
    requires
        module_template_plan(templates, snapshot, state, id, paths, count) is Err,
        count <= total,
    ensures
        module_template_plan(templates, snapshot, state, id, paths, total)
            == module_template_plan(templates, snapshot, state, id, paths, count),
    decreases total - count,
{
    if count < total {
        lemma_module_templates_fail(templates, snapshot, state, id, paths, count, total - 1);
    }
}

proof fn lemma_added_templates_fail(
    inputs: InputsModel,
    snapshot: SnapshotModel,
    state: StateModel,
    added: Seq<Seq<char>>,
    count: int,
    total: int,
)
    requires
        added_template_plan(inputs, snapshot, state, added, count) is Err,
        count <= total,
    ensures
        added_template_plan(inputs, snapshot, state, added, total) == added_template_plan(
            inputs,
            snapshot,
            state,
            added,
            count,
        ),
    decreases total - count,
{
    if count < total {
        lemma_added_templates_fail(inputs, snapshot, state, added, count, total - 1);
    }
}

proof fn lemma_left_fail(
    inputs: InputsModel,
    snapshot: SnapshotModel,
    removed: Seq<Seq<char>>,
    count: int,
    total: int,
)
    requires
        left_by_modules(inputs, snapshot, removed, count) is Err,
        count <= total,
    ensures
        left_by_modules(inputs, snapshot, removed, total) == left_by_modules(
            inputs,
            snapshot,
            removed,
            count,
        ),
    decreases total - count,
{
    if count < total {
        lemma_left_fail(inputs, snapshot, removed, count, total - 1);
    }
}

fn plan_module_templates(
    templates: &Vec<ApplicationTemplateDescriptor>,
    snapshot: &ProjectSnapshot,
    id: &str,
    paths: &Vec<String>,
    next_state: &mut ProjectState,
    operations: &mut Vec<PlanOperation>,
) -> (result: Result<(), ManagerError>)
    ensures
        ({
            let owed = module_template_plan(
                templates@,
                snapshot@,
                old(next_state)@,
                id@,
                texts(paths@),
                paths@.len() as int,
            );
            match result {
                Ok(()) => owed is Ok && final(next_state)@ == owed->Ok_0.0 && steps(
                    final(operations)@,
                ) == steps(old(operations)@) + owed->Ok_0.1,
                Err(error) => owed == Err::<(StateModel, Seq<PlanStep>), ManagerFailure>(
                    error.failure(),
                ),
            }
        }),
{
    let ghost all = texts(paths@);
    let ghost total = paths@.len() as int;
    let ghost start = steps(operations@);
    let ghost first = next_state@;
    let ghost mut done = Seq::<PlanStep>::empty();
    assert(start + done =~= start);
    let mut index: usize = 0;
    while index < paths.len()
        invariant
            all == texts(paths@),
            total == paths@.len(),
            first == old(next_state)@,
            index <= total,
            module_template_plan(templates@, snapshot@, first, id@, all, index as int) == Ok::<
                (StateModel, Seq<PlanStep>),
                ManagerFailure,
            >((next_state@, done)),
            steps(operations@) == start + done,
        decreases total - index,
    {
        let path = paths[index].as_str();
        assert(all[index as int] == path@);
        proof {
            if module_template_plan(
                templates@,
                snapshot@,
                first,
                id@,
                all,
                index + 1,
            ) is Err {
                lemma_module_templates_fail(
                    templates@,
                    snapshot@,
                    first,
                    id@,
                    all,
                    index + 1,
                    total,
                );
            }
        }
        match plan_template(templates, snapshot, id, path, operations) {
            Ok(()) => {},
            Err(error) => {
                return Err(error);
            },
        }
        proof {
            let more = template_steps(templates@, snapshot@, id@, path@)->Ok_0;
            assert((start + done) + more =~= start + (done + more));
            done = done + more;
        }
        own_by_application(next_state, path);
        index += 1;
    }
    Ok(())
}

fn plan_added_templates(
    inputs: &PlanningInputs,
    snapshot: &ProjectSnapshot,
    added: &TextSet,
    next_state: &mut ProjectState,
    operations: &mut Vec<PlanOperation>,
) -> (result: Result<(), ManagerError>)
    ensures
        ({
            let owed = added_template_plan(
                inputs@,
                snapshot@,
                old(next_state)@,
                added@,
                added@.len() as int,
            );
            match result {
                Ok(()) => owed is Ok && final(next_state)@ == owed->Ok_0.0 && steps(
                    final(operations)@,
                ) == steps(old(operations)@) + owed->Ok_0.1,
                Err(error) => owed == Err::<(StateModel, Seq<PlanStep>), ManagerFailure>(
                    error.failure(),
                ),
            }
        }),
{
    let ghost total = added@.len() as int;
    let ghost start = steps(operations@);
    let ghost first = next_state@;
    let ghost mut done = Seq::<PlanStep>::empty();
    assert(start + done =~= start);
    let mut index: usize = 0;
    while index < added.len()
        invariant
            total == added@.len(),
            first == old(next_state)@,
            index <= total,
            added_template_plan(inputs@, snapshot@, first, added@, index as int) == Ok::<
                (StateModel, Seq<PlanStep>),
                ManagerFailure,
            >((next_state@, done)),
            steps(operations@) == start + done,
        decreases total - index,
    {
        let id = added.at(index).as_str();
        assert(added@[index as int] == id@);
        proof {
            if added_template_plan(inputs@, snapshot@, first, added@, index + 1) is Err {
                lemma_added_templates_fail(
                    inputs@,
                    snapshot@,
                    first,
                    added@,
                    index + 1,
                    total,
                );
            }
        }
        let module = match required_module(inputs.catalog, id) {
            Ok(module) => module,
            Err(error) => {
                return Err(error);
            },
        };
        let ghost here = next_state@;
        match plan_module_templates(
            inputs.templates,
            snapshot,
            id,
            &module.application_templates,
            next_state,
            operations,
        ) {
            Ok(()) => {},
            Err(error) => {
                return Err(error);
            },
        }
        proof {
            let more = module_template_plan(
                inputs@.templates,
                snapshot@,
                here,
                id@,
                texts(module.application_templates@),
                module.application_templates@.len() as int,
            )->Ok_0.1;
            assert((start + done) + more =~= start + (done + more));
            done = done + more;
        }
        index += 1;
    }
    Ok(())
}

fn add_present(files: &FileMap, paths: &Vec<String>, list: &mut Vec<String>)
    ensures
        texts(final(list)@) == texts(old(list)@) + present_paths(
            files@,
            texts(paths@),
            paths@.len() as int,
        ),
{
    let ghost all = texts(paths@);
    let ghost start = texts(list@);
    assert(start + Seq::<Seq<char>>::empty() =~= start);
    let mut index: usize = 0;
    while index < paths.len()
        invariant
            all == texts(paths@),
            index <= paths@.len(),
            texts(list@) == start + present_paths(files@, all, index as int),
        decreases paths@.len() - index,
    {
        let path = paths[index].as_str();
        assert(all[index as int] == path@);
        if files.contains_key(path) {
            let ghost before = texts(list@);
            list.push(path.to_owned());
            assert(texts(list@) =~= before.push(path@));
            assert(start + present_paths(files@, all, index + 1) =~= before.push(path@));
        }
        index += 1;
    }
}

fn add_historical(records: &Vec<OwnershipRecord>, list: &mut Vec<String>)
    ensures
        texts(final(list)@) == texts(old(list)@) + historical_paths(
            ownership_models(records@),
            records@.len() as int,
        ),
{
    let ghost all = ownership_models(records@);
    let ghost start = texts(list@);
    assert(start + Seq::<Seq<char>>::empty() =~= start);
    let mut index: usize = 0;
    while index < records.len()
        invariant
            all == ownership_models(records@),
            index <= records@.len(),
            texts(list@) == start + historical_paths(all, index as int),
        decreases records@.len() - index,
    {
        let path = records[index].path.as_str();
        assert(all[index as int].path == path@);
        if preserves_historical_path(path) {
            let ghost before = texts(list@);
            list.push(path.to_owned());
            assert(texts(list@) =~= before.push(path@));
            assert(start + historical_paths(all, index + 1) =~= before.push(path@));
        }
        index += 1;
    }
}

fn list_preserved(
    inputs: &PlanningInputs,
    snapshot: &ProjectSnapshot,
    removed: &TextSet,
) -> (result: Result<Vec<String>, ManagerError>)
    ensures
        match result {
            Ok(paths) => preserved_paths(inputs@, snapshot@, removed@) == Ok::<
                Seq<Seq<char>>,
                ManagerFailure,
            >(texts(paths@)),
            Err(error) => preserved_paths(inputs@, snapshot@, removed@) == Err::<
                Seq<Seq<char>>,
                ManagerFailure,
            >(error.failure()),
        },
{
    let ghost total = removed@.len() as int;
    let mut list: Vec<String> = Vec::new();
    assert(texts(list@) =~= Seq::<Seq<char>>::empty());
    let mut index: usize = 0;
    while index < removed.len()
        invariant
            total == removed@.len(),
            index <= total,
            left_by_modules(inputs@, snapshot@, removed@, index as int) == Ok::<
                Seq<Seq<char>>,
                ManagerFailure,
            >(texts(list@)),
        decreases total - index,
    {
        let id = removed.at(index).as_str();
        assert(removed@[index as int] == id@);
        proof {
            if left_by_modules(inputs@, snapshot@, removed@, index + 1) is Err {
                lemma_left_fail(inputs@, snapshot@, removed@, index + 1, total);
            }
        }
        let module = match required_module(inputs.catalog, id) {
            Ok(module) => module,
            Err(error) => {
                return Err(error);
            },
        };
        let ghost before = texts(list@);
        let mut persistent = clone_texts(&module.persistence);
        list.append(&mut persistent);
        assert(texts(list@) =~= before + texts(module.persistence@));
        add_present(&snapshot.files, &module.application_templates, &mut list);
        index += 1;
    }
    if removed.len() > 0 {
        add_historical(&snapshot.state.ownership, &mut list);
    }
    assert(models(list@) =~= texts(list@));
    let sorted = sort_unique(list);
    let items = sorted.items();
    assert(models(items@) =~= texts(items@));
    Ok(clone_texts(items))
}

/// What a change of the selection does to application templates: the next state, the steps, and
/// the paths that it leaves in place.
pub open spec fn template_plan(
    inputs: InputsModel,
    snapshot: SnapshotModel,
    state: StateModel,
    added: Seq<Seq<char>>,
    removed: Seq<Seq<char>>,
) -> Result<(StateModel, Seq<PlanStep>, Seq<Seq<char>>), ManagerFailure> {
    match added_template_plan(inputs, snapshot, state, added, added.len() as int) {
        Err(failure) => Err(failure),
        Ok(plan) => match preserved_paths(inputs, snapshot, removed) {
            Err(failure) => Err(failure),
            Ok(preserved) => Ok((plan.0, plan.1, preserved)),
        },
    }
}

/// Plans what a change of the selection does to application templates; returns the paths that it
/// leaves in place.
pub fn plan_application_templates(
    inputs: &PlanningInputs,
    snapshot: &ProjectSnapshot,
    added: &TextSet,
    removed: &TextSet,
    next_state: &mut ProjectState,
    operations: &mut Vec<PlanOperation>,
) -> (result: Result<Vec<String>, ManagerError>)
    ensures
        ({
            let owed = template_plan(inputs@, snapshot@, old(next_state)@, added@, removed@);
            match result {
                Ok(preserved) => owed is Ok && final(next_state)@ == owed->Ok_0.0 && steps(
                    final(operations)@,
                ) == steps(old(operations)@) + owed->Ok_0.1 && texts(preserved@)
                    == owed->Ok_0.2,
                Err(error) => owed == Err::<
                    (StateModel, Seq<PlanStep>, Seq<Seq<char>>),
                    ManagerFailure,
                >(error.failure()),
            }
        }),
{
    match plan_added_templates(inputs, snapshot, added, next_state, operations) {
        Ok(()) => {},
        Err(error) => {
            return Err(error);
        },
    }
    list_preserved(inputs, snapshot, removed)
}

} // verus!
