//! Planned changes of managed regions.

use vstd::prelude::*;
use vstd::string::*;

use crate::diagnosis::{hash_text, text_hash, InputsModel, PlanningInputs};
use crate::file_map::{FileMap, ProjectFile};
use crate::management::{
    steps, ManagerError, ManagerFailure, PlanOperation, PlanStep, ProjectSnapshot, SnapshotModel,
};
use crate::module_checks::last_place;
use crate::modules::ModuleCatalog;
use crate::ordered::{ascending, models, sort_unique, sorted_listing, TextSet};
use crate::plan_files::{find_owner, owner_place, push_step};
use crate::region::{reconcile_managed_region, reconciled};
use crate::release::{ReleaseIdentity, ReleaseModel};
use crate::rendering::{region_text, render_region, required_module, unknown_selected};
use crate::selection::{insert_text, lemma_listing, listing};
use crate::state::{
    ownership_models, record_models, record_of, record_place, ManagedRegionRecord, OwnershipKind,
    OwnershipModel, OwnershipRecord, ProjectState, RecordModel, StateModel, MANAGED_MARKER_VERSION,
};
use crate::text::{
    chars_of, clone_texts, contains_char, join3, join5, same_text, split_on, split_text,
    text_between, texts,
};

verus! {

// Patterns.
/// Whether a path matches a pattern in which `*` stands for one component.
pub open spec fn path_matches(path: Seq<char>, pattern: Seq<char>) -> bool {
    let parts = split_on(path, '/');
    let expected = split_on(pattern, '/');
    &&& parts.len() == expected.len()
    &&& forall|i: int|
        0 <= i < parts.len() ==> (#[trigger] expected[i]) == "*"@ || parts[i] == expected[i]
}

/// Returns whether a path matches a pattern in which `*` stands for one component.
pub fn path_matches_pattern(path: &str, pattern: &str) -> (matched: bool)
    ensures
        matched == path_matches(path@, pattern@),
{
    let parts = split_text(path, '/');
    let expected = split_text(pattern, '/');
    let ghost left = split_on(path@, '/');
    let ghost right = split_on(pattern@, '/');
    assert(left.len() == parts@.len() && right.len() == expected@.len());
    if parts.len() != expected.len() {
        return false;
    }
    let mut index: usize = 0;
    while index < parts.len()
        invariant
            left == texts(parts@),
            right == texts(expected@),
            left == split_on(path@, '/'),
            right == split_on(pattern@, '/'),
            parts@.len() == expected@.len(),
            index <= parts@.len(),
            forall|i: int|
                0 <= i < index ==> (#[trigger] right[i]) == "*"@ || left[i] == right[i],
        decreases parts@.len() - index,
    {
        assert(left[index as int] == parts@[index as int]@);
        assert(right[index as int] == expected@[index as int]@);
        if !same_text(expected[index].as_str(), "*") && !same_text(
            parts[index].as_str(),
            expected[index].as_str(),
        ) {
            assert(!(right[index as int] == "*"@ || left[index as int] == right[index as int]));
            return false;
        }
        index += 1;
    }
    true
}

/// The paths of the first `count` files that match a pattern.
pub open spec fn matching_paths(files: Seq<ProjectFile>, pattern: Seq<char>, count: int) -> Seq<
    Seq<char>,
>
    decreases count,
{
    if count <= 0 {
        Seq::empty()
    } else if path_matches(files[count - 1].path@, pattern) {
        matching_paths(files, pattern, count - 1).push(files[count - 1].path@)
    } else {
        matching_paths(files, pattern, count - 1)
    }
}

/// The paths that a pattern stands for.
pub open spec fn pattern_targets(files: Seq<ProjectFile>, pattern: Seq<char>) -> Seq<Seq<char>> {
    if pattern.contains('*') {
        matching_paths(files, pattern, files.len() as int)
    } else {
        seq![pattern]
    }
}

/// Returns the paths of files that match a pattern.
pub fn matching_snapshot_paths(files: &FileMap, pattern: &str) -> (paths: Vec<String>)
    ensures
        texts(paths@) == matching_paths(files.listed(), pattern@, files.listed().len() as int),
{
    let ghost listed = files.listed();
    let mut paths: Vec<String> = Vec::new();
    assert(texts(paths@) =~= Seq::<Seq<char>>::empty());
    let mut index: usize = 0;
    while index < files.len()
        invariant
            listed == files.listed(),
            index <= listed.len(),
            texts(paths@) == matching_paths(listed, pattern@, index as int),
        decreases listed.len() - index,
    {
        let path = files.at(index).path.as_str();
        if path_matches_pattern(path, pattern) {
            let ghost before = texts(paths@);
            paths.push(path.to_owned());
            assert(texts(paths@) =~= before.push(path@));
        }
        index += 1;
    }
    paths
}

fn find_targets(files: &FileMap, pattern: &str) -> (paths: Vec<String>)
    ensures
        texts(paths@) == pattern_targets(files.listed(), pattern@),
{
    if contains_char(pattern, '*') {
        matching_snapshot_paths(files, pattern)
    } else {
        let mut paths: Vec<String> = Vec::new();
        paths.push(pattern.to_owned());
        assert(texts(paths@) =~= seq![pattern@]);
        paths
    }
}

// References.
/// The region references of the first `count` modules.
pub open spec fn reference_list(
    catalog: ModuleCatalog,
    ids: Seq<Seq<char>>,
    count: int,
) -> Result<Seq<Seq<char>>, ManagerFailure>
    decreases count,
{
    if count <= 0 {
        Ok(Seq::empty())
    } else {
        match reference_list(catalog, ids, count - 1) {
            Err(failure) => Err(failure),
            Ok(list) => match catalog.find(ids[count - 1]) {
                None => Err(unknown_selected(ids[count - 1])),
                Some(module) => Ok(list + texts(module.generator_ownership.managed_regions@)),
            },
        }
    }
}

/// A place in a project: a path and a region.
pub type PlaceModel = (Seq<char>, Seq<char>);

/// The places of records.
pub open spec fn recorded_places(records: Seq<RecordModel>) -> Seq<PlaceModel> {
    records.map_values(|record: RecordModel| (record.path, record.id))
}

/// The places with one region in several paths.
pub open spec fn places_in(paths: Seq<Seq<char>>, id: Seq<char>) -> Seq<PlaceModel> {
    paths.map_values(|path: Seq<char>| (path, id))
}

/// The places that a reference stands for.
pub open spec fn reference_places(files: Seq<ProjectFile>, reference: Seq<char>) -> Result<
    Seq<PlaceModel>,
    ManagerFailure,
> {
    let place = last_place(reference, '#', reference.len() as int);
    if place < 0 {
        Ok(Seq::empty())
    } else {
        let pattern = reference.take(place);
        let targets = pattern_targets(files, pattern);
        if targets.len() == 0 {
            Err(
                ManagerFailure::InvalidProject(
                    "managed path pattern `"@ + pattern + "` matched no project file"@,
                ),
            )
        } else {
            Ok(places_in(targets, reference.skip(place + 1)))
        }
    }
}

/// The known places and those of the first `count` references.
pub open spec fn all_places(
    known: Seq<PlaceModel>,
    files: Seq<ProjectFile>,
    references: Seq<Seq<char>>,
    count: int,
) -> Result<Seq<PlaceModel>, ManagerFailure>
    decreases count,
{
    if count <= 0 {
        Ok(known)
    } else {
        match all_places(known, files, references, count - 1) {
            Err(failure) => Err(failure),
            Ok(before) => match reference_places(files, references[count - 1]) {
                Err(failure) => Err(failure),
                Ok(more) => Ok(before + more),
            },
        }
    }
}

/// The places that a change of the selection concerns.
pub open spec fn concerned_places(
    catalog: ModuleCatalog,
    files: Seq<ProjectFile>,
    state: StateModel,
    before: Seq<Seq<char>>,
    after: Seq<Seq<char>>,
) -> Result<Seq<PlaceModel>, ManagerFailure> {
    let ids = listing(before.to_set().union(after.to_set()));
    match reference_list(catalog, ids, ids.len() as int) {
        Err(failure) => Err(failure),
        Ok(list) => {
            let references = sorted_listing::<String>(list);
            all_places(
                recorded_places(state.regions),
                files,
                references,
                references.len() as int,
            )
        },
    }
}

/// The paths of places, in order.
pub open spec fn place_paths(places: Seq<PlaceModel>) -> Seq<Seq<char>> {
    sorted_listing::<String>(places.map_values(|place: PlaceModel| place.0))
}

/// The regions of the first `count` places in a path.
pub open spec fn regions_in(places: Seq<PlaceModel>, path: Seq<char>, count: int) -> Seq<Seq<char>>
    decreases count,
{
    if count <= 0 {
        Seq::empty()
    } else if places[count - 1].0 == path {
        regions_in(places, path, count - 1).push(places[count - 1].1)
    } else {
        regions_in(places, path, count - 1)
    }
}

/// The regions of places in a path, in order.
pub open spec fn place_regions(places: Seq<PlaceModel>, path: Seq<char>) -> Seq<Seq<char>> {
    sorted_listing::<String>(regions_in(places, path, places.len() as int))
}

/// A place in a project.
#[derive(Debug, PartialEq, Eq)]
pub struct RegionPlace {
    /// Project-relative path.
    pub path: String,
    /// Region identifier.
    pub id: String,
}

/// The values of places.
pub open spec fn place_models(places: Seq<RegionPlace>) -> Seq<PlaceModel> {
    places.map_values(|place: RegionPlace| (place.path@, place.id@))
}

proof fn lemma_references_fail(
    catalog: ModuleCatalog,
    ids: Seq<Seq<char>>,
    count: int,
    total: int,
)
    requires
        reference_list(catalog, ids, count) is Err,
        count <= total,
    ensures
        reference_list(catalog, ids, total) == reference_list(catalog, ids, count),
    decreases total - count,
{
    if count < total {
        lemma_references_fail(catalog, ids, count, total - 1);
    }
}

proof fn lemma_places_fail(
    known: Seq<PlaceModel>,
    files: Seq<ProjectFile>,
    references: Seq<Seq<char>>,
    count: int,
    total: int,
)
    requires
        all_places(known, files, references, count) is Err,
        count <= total,
    ensures
        all_places(known, files, references, total) == all_places(known, files, references, count),
    decreases total - count,
{
    if count < total {
        lemma_places_fail(known, files, references, count, total - 1);
    }
}

pub(crate) fn unite(left: &TextSet, right: &TextSet) -> (all: TextSet)
    ensures
        all@ == listing(left@.to_set().union(right@.to_set())),
{
    let mut all = left.duplicate();
    all.use_order();
    let ghost start = left@.to_set();
    let mut index: usize = 0;
    assert(right@.take(0).to_set() =~= Set::<Seq<char>>::empty());
    assert(start.union(Set::<Seq<char>>::empty()) =~= start);
    while index < right.len()
        invariant
            index <= right@.len(),
            ascending::<String>(all@),
            all@.to_set() == start.union(right@.take(index as int).to_set()),
        decreases right@.len() - index,
    {
        let text = right.at(index).as_str();
        insert_text(&mut all, text);
        proof {
            let more = right@.take(index + 1);
            assert(more =~= right@.take(index as int).push(text@));
            assert forall|value: Seq<char>| more.to_set().contains(value)
                <==> right@.take(index as int).to_set().insert(text@).contains(value) by {
                let seen = right@.take(index as int);
                if seen.contains(value) {
                    let k = choose|k: int| 0 <= k < seen.len() && seen[k] == value;
                    assert(more[k] == value);
                }
                if value == text@ {
                    assert(more[index as int] == value);
                }
            }
            assert(all@.to_set() =~= start.union(more.to_set()));
        }
        index += 1;
    }
    proof {
        assert(right@.take(index as int) =~= right@);
        lemma_listing(all@);
    }
    all
}

fn collect_references(catalog: &ModuleCatalog, ids: &TextSet) -> (result: Result<
    Vec<String>,
    ManagerError,
>)
    ensures
        match result {
            Ok(list) => reference_list(*catalog, ids@, ids@.len() as int) == Ok::<
                Seq<Seq<char>>,
                ManagerFailure,
            >(texts(list@)),
            Err(error) => reference_list(*catalog, ids@, ids@.len() as int) == Err::<
                Seq<Seq<char>>,
                ManagerFailure,
            >(error.failure()),
        },
{
    let mut list: Vec<String> = Vec::new();
    assert(texts(list@) =~= Seq::<Seq<char>>::empty());
    let mut index: usize = 0;
    while index < ids.len()
        invariant
            index <= ids@.len(),
            reference_list(*catalog, ids@, index as int) == Ok::<
                Seq<Seq<char>>,
                ManagerFailure,
            >(texts(list@)),
        decreases ids@.len() - index,
    {
        let id = ids.at(index).as_str();
        assert(ids@[index as int] == id@);
        let module = match required_module(catalog, id) {
            Ok(module) => module,
            Err(error) => {
                proof {
                    lemma_references_fail(*catalog, ids@, index + 1, ids@.len() as int);
                }
                return Err(error);
            },
        };
        let ghost before = texts(list@);
        let mut more = clone_texts(&module.generator_ownership.managed_regions);
        list.append(&mut more);
        assert(texts(list@) =~= before + texts(module.generator_ownership.managed_regions@));
        index += 1;
    }
    Ok(list)
}

fn list_recorded_places(records: &Vec<ManagedRegionRecord>) -> (places: Vec<RegionPlace>)
    ensures
        place_models(places@) == recorded_places(record_models(records@)),
{
    let ghost all = recorded_places(record_models(records@));
    let mut places: Vec<RegionPlace> = Vec::new();
    let mut index: usize = 0;
    while index < records.len()
        invariant
            all == recorded_places(record_models(records@)),
            index <= records@.len(),
            place_models(places@) == all.take(index as int),
        decreases records@.len() - index,
    {
        let ghost before = place_models(places@);
        let path = records[index].path.clone();
        let id = records[index].id.clone();
        let ghost value = (path@, id@);
        places.push(RegionPlace { path, id });
        proof {
            assert(all[index as int] == value);
            assert(place_models(places@) =~= before.push(value));
            assert(all.take(index + 1) =~= all.take(index as int).push(value));
        }
        index += 1;
    }
    assert(all.take(index as int) =~= all);
    places
}

fn add_reference_places(files: &FileMap, reference: &str, places: &mut Vec<RegionPlace>) -> (result:
    Result<(), ManagerError>)
    ensures
        match result {
            Ok(()) => reference_places(files.listed(), reference@) is Ok && place_models(
                final(places)@,
            ) == place_models(old(places)@) + reference_places(
                files.listed(),
                reference@,
            )->Ok_0,
            Err(error) => reference_places(files.listed(), reference@) == Err::<
                Seq<PlaceModel>,
                ManagerFailure,
            >(error.failure()),
        },
{
    let ghost start = place_models(places@);
    assert(start + Seq::<PlaceModel>::empty() =~= start);
    let chars = chars_of(reference);
    let mut end: usize = chars.len();
    while end > 0 && chars[end - 1] != '#'
        invariant
            chars@ == reference@,
            end <= chars@.len(),
            last_place(reference@, '#', reference@.len() as int) == last_place(
                reference@,
                '#',
                end as int,
            ),
        decreases end,
    {
        end -= 1;
    }
    if end == 0 {
        return Ok(());
    }
    assert(last_place(reference@, '#', reference@.len() as int) == end - 1);
    let pattern = text_between(&chars, 0, end - 1);
    let id = text_between(&chars, end, chars.len());
    assert(reference@.take(end - 1) =~= reference@.subrange(0, end - 1));
    assert(reference@.skip(end as int) =~= reference@.subrange(
        end as int,
        reference@.len() as int,
    ));
    let targets = find_targets(files, pattern.as_str());
    let ghost paths = texts(targets@);
    assert(paths.len() == targets@.len());
    if targets.len() == 0 {
        return Err(
            ManagerError::InvalidProject(
                join3(
                    "managed path pattern `",
                    pattern.as_str(),
                    "` matched no project file",
                ),
            ),
        );
    }
    let ghost all = places_in(paths, id@);
    let mut index: usize = 0;
    assert(start + all.take(0) =~= start);
    while index < targets.len()
        invariant
            paths == texts(targets@),
            all == places_in(paths, id@),
            index <= targets@.len(),
            place_models(places@) == start + all.take(index as int),
        decreases targets@.len() - index,
    {
        let ghost before = place_models(places@);
        let path = targets[index].clone();
        let ghost value = (path@, id@);
        places.push(RegionPlace { path, id: id.clone() });
        proof {
            assert(all[index as int] == value);
            assert(place_models(places@) =~= before.push(value));
            assert(start + all.take(index + 1) =~= before.push(value));
        }
        index += 1;
    }
    assert(all.take(index as int) =~= all);
    Ok(())
}

fn collect_places(
    catalog: &ModuleCatalog,
    files: &FileMap,
    state: &ProjectState,
    before: &TextSet,
    after: &TextSet,
) -> (result: Result<Vec<RegionPlace>, ManagerError>)
    ensures
        ({
            let owed = concerned_places(*catalog, files.listed(), state@, before@, after@);
            match result {
                Ok(places) => owed == Ok::<Seq<PlaceModel>, ManagerFailure>(place_models(places@)),
                Err(error) => owed == Err::<Seq<PlaceModel>, ManagerFailure>(error.failure()),
            }
        }),
{
    let ids = unite(before, after);
    let list = match collect_references(catalog, &ids) {
        Ok(list) => list,
        Err(error) => {
            return Err(error);
        },
    };
    assert(models(list@) =~= texts(list@));
    let references = sort_unique(list);
    let ghost known = recorded_places(state@.regions);
    let mut places = list_recorded_places(&state.managed_regions);
    let mut index: usize = 0;
    while index < references.len()
        invariant
            known == recorded_places(state@.regions),
            index <= references@.len(),
            concerned_places(*catalog, files.listed(), state@, before@, after@) == all_places(
                known,
                files.listed(),
                references@,
                references@.len() as int,
            ),
            all_places(known, files.listed(), references@, index as int) == Ok::<
                Seq<PlaceModel>,
                ManagerFailure,
            >(place_models(places@)),
        decreases references@.len() - index,
    {
        let reference = references.at(index).as_str();
        assert(references@[index as int] == reference@);
        proof {
            if all_places(known, files.listed(), references@, index + 1) is Err {
                lemma_places_fail(
                    known,
                    files.listed(),
                    references@,
                    index + 1,
                    references@.len() as int,
                );
            }
        }
        match add_reference_places(files, reference, &mut places) {
            Ok(()) => {},
            Err(error) => {
                return Err(error);
            },
        }
        index += 1;
    }
    Ok(places)
}

// Reconciliation.
/// A state in which the record of a region tells of new contents.
pub open spec fn with_region(
    state: StateModel,
    path: Seq<char>,
    id: Seq<char>,
    content: Seq<char>,
) -> StateModel {
    let place = record_place(state.regions, path, id, 0);
    StateModel {
        regions: state.regions.update(
            place,
            RecordModel {
                marker_version: MANAGED_MARKER_VERSION,
                content_hash: text_hash(content),
                ..state.regions[place]
            },
        ),
        ..state
    }
}

/// The state and the contents of a file after its first `count` regions were reconciled.
pub open spec fn regions_reconciled(
    catalog: ModuleCatalog,
    release: ReleaseModel,
    after: Seq<Seq<char>>,
    state: StateModel,
    path: Seq<char>,
    contents: Seq<char>,
    ids: Seq<Seq<char>>,
    count: int,
) -> Result<(StateModel, Seq<char>), ManagerFailure>
    decreases count,
{
    if count <= 0 {
        Ok((state, contents))
    } else {
        match regions_reconciled(
            catalog,
            release,
            after,
            state,
            path,
            contents,
            ids,
            count - 1,
        ) {
            Err(failure) => Err(failure),
            Ok(before) => {
                let id = ids[count - 1];
                match record_of(before.0.regions, path, id) {
                    None => Err(
                        ManagerFailure::InvalidProject(
                            "managed region `"@ + id + "` in `"@ + path
                                + "` has no state ownership record"@,
                        ),
                    ),
                    Some(record) => match region_text(catalog, id, after, release) {
                        Err(failure) => Err(failure),
                        Ok(desired) => match reconciled(before.1, record, desired) {
                            Err(message) => Err(ManagerFailure::Region(message)),
                            Ok(text) => Ok((with_region(before.0, path, id, desired), text)),
                        },
                    },
                }
            },
        }
    }
}

/// Whether the generator approves the contents of a file.
pub open spec fn is_approved_kind(kind: OwnershipKind) -> bool {
    kind == OwnershipKind::KitOwned || kind == OwnershipKind::Derived
}

/// A state that approves the contents of a file, where the generator approves them at all.
pub open spec fn approving(state: StateModel, path: Seq<char>, contents: Seq<char>) -> StateModel {
    let place = owner_place(state.ownership, path, 0);
    if place < state.ownership.len() && is_approved_kind(state.ownership[place].kind) {
        StateModel {
            ownership: state.ownership.update(
                place,
                OwnershipModel { approved: Some(text_hash(contents)), ..state.ownership[place] },
            ),
            ..state
        }
    } else {
        state
    }
}

/// What happens to the regions of a file: the next state, and the steps.
pub open spec fn file_region_plan(
    inputs: InputsModel,
    snapshot: SnapshotModel,
    after: Seq<Seq<char>>,
    state: StateModel,
    path: Seq<char>,
    ids: Seq<Seq<char>>,
) -> Result<(StateModel, Seq<PlanStep>), ManagerFailure> {
    if !snapshot.files.contains_key(path) {
        Err(
            ManagerFailure::InvalidProject("managed-region target `"@ + path + "` is missing"@),
        )
    } else {
        let current = snapshot.files[path];
        match regions_reconciled(
            inputs.catalog,
            snapshot.release,
            after,
            state,
            path,
            current,
            ids,
            ids.len() as int,
        ) {
            Err(failure) => Err(failure),
            Ok(outcome) => Ok(
                (
                    approving(outcome.0, path, outcome.1),
                    if outcome.1 == current {
                        Seq::empty()
                    } else {
                        seq![
                            PlanStep::ReconcileRegions {
                                path,
                                expected_hash: text_hash(current),
                                content_hash: text_hash(outcome.1),
                                region_ids: ids,
                                content: outcome.1,
                            },
                        ]
                    },
                ),
            ),
        }
    }
}

/// What happens to the regions of the first `count` files: the next state, and the steps.
pub open spec fn paths_region_plan(
    inputs: InputsModel,
    snapshot: SnapshotModel,
    after: Seq<Seq<char>>,
    state: StateModel,
    places: Seq<PlaceModel>,
    paths: Seq<Seq<char>>,
    count: int,
) -> Result<(StateModel, Seq<PlanStep>), ManagerFailure>
    decreases count,
{
    if count <= 0 {
        Ok((state, Seq::empty()))
    } else {
        match paths_region_plan(inputs, snapshot, after, state, places, paths, count - 1) {
            Err(failure) => Err(failure),
            Ok(before) => match file_region_plan(
                inputs,
                snapshot,
                after,
                before.0,
                paths[count - 1],
                place_regions(places, paths[count - 1]),
            ) {
                Err(failure) => Err(failure),
                Ok(more) => Ok((more.0, before.1 + more.1)),
            },
        }
    }
}

/// What a change of the selection does to managed regions: the next state, and the steps.
pub open spec fn region_plan(
    inputs: InputsModel,
    snapshot: SnapshotModel,
    files: Seq<ProjectFile>,
    before: Seq<Seq<char>>,
    after: Seq<Seq<char>>,
    state: StateModel,
) -> Result<(StateModel, Seq<PlanStep>), ManagerFailure> {
    match concerned_places(inputs.catalog, files, state, before, after) {
        Err(failure) => Err(failure),
        Ok(places) => {
            let paths = place_paths(places);
            paths_region_plan(
                inputs,
                snapshot,
                after,
                state,
                places,
                paths,
                paths.len() as int,
            )
        },
    }
}

fn record_region(state: &mut ProjectState, place: usize, desired: &str)
    requires
        place < old(state).managed_regions@.len(),
        place == record_place(
            old(state)@.regions,
            old(state)@.regions[place as int].path,
            old(state)@.regions[place as int].id,
            0,
        ),
    ensures
        final(state)@ == with_region(
            old(state)@,
            old(state)@.regions[place as int].path,
            old(state)@.regions[place as int].id,
            desired@,
        ),
{
    let ghost before = state@.regions;
    let record = state.managed_regions[place].duplicate();
    assert(before[place as int] == record@);
    let changed = ManagedRegionRecord {
        id: record.id,
        path: record.path,
        marker_version: MANAGED_MARKER_VERSION,
        content_hash: hash_text(desired),
    };
    let ghost value = changed@;
    state.managed_regions.set(place, changed);
    assert(record_models(state.managed_regions@) =~= before.update(place as int, value));
}

proof fn lemma_record_place(
    records: Seq<RecordModel>,
    path: Seq<char>,
    id: Seq<char>,
    at: int,
)
    requires
        0 <= at <= records.len(),
    ensures
        at <= record_place(records, path, id, at) <= records.len(),
        record_place(records, path, id, at) < records.len() ==> records[record_place(
            records,
            path,
            id,
            at,
        )].path == path && records[record_place(records, path, id, at)].id == id,
    decreases records.len() - at,
{
    if at < records.len() && !(records[at].path == path && records[at].id == id) {
        lemma_record_place(records, path, id, at + 1);
    }
}

proof fn lemma_reconciled_fail(
    catalog: ModuleCatalog,
    release: ReleaseModel,
    after: Seq<Seq<char>>,
    state: StateModel,
    path: Seq<char>,
    contents: Seq<char>,
    ids: Seq<Seq<char>>,
    count: int,
    total: int,
)
    requires
        regions_reconciled(catalog, release, after, state, path, contents, ids, count) is Err,
        count <= total,
    ensures
        regions_reconciled(catalog, release, after, state, path, contents, ids, total)
            == regions_reconciled(catalog, release, after, state, path, contents, ids, count),
    decreases total - count,
{
    if count < total {
        lemma_reconciled_fail(
            catalog,
            release,
            after,
            state,
            path,
            contents,
            ids,
            count,
            total - 1,
        );
    }
}

fn reconcile_regions(
    catalog: &ModuleCatalog,
    release: &ReleaseIdentity,
    after: &TextSet,
    next_state: &mut ProjectState,
    path: &str,
    current: &str,
    ids: &TextSet,
) -> (result: Result<String, ManagerError>)
    ensures
        ({
            let owed = regions_reconciled(
                *catalog,
                release@,
                after@,
                old(next_state)@,
                path@,
                current@,
                ids@,
                ids@.len() as int,
            );
            match result {
                Ok(text) => owed == Ok::<(StateModel, Seq<char>), ManagerFailure>(
                    (final(next_state)@, text@),
                ),
                Err(error) => owed == Err::<(StateModel, Seq<char>), ManagerFailure>(
                    error.failure(),
                ),
            }
        }),
{
    let ghost first = next_state@;
    let ghost total = ids@.len() as int;
    let mut text = current.to_owned();
    let mut index: usize = 0;
    while index < ids.len()
        invariant
            first == old(next_state)@,
            total == ids@.len(),
            index <= total,
            regions_reconciled(
                *catalog,
                release@,
                after@,
                first,
                path@,
                current@,
                ids@,
                index as int,
            ) == Ok::<(StateModel, Seq<char>), ManagerFailure>((next_state@, text@)),
        decreases total - index,
    {
        let id = ids.at(index).as_str();
        assert(ids@[index as int] == id@);
        proof {
            if regions_reconciled(
                *catalog,
                release@,
                after@,
                first,
                path@,
                current@,
                ids@,
                index + 1,
            ) is Err {
                lemma_reconciled_fail(
                    *catalog,
                    release@,
                    after@,
                    first,
                    path@,
                    current@,
                    ids@,
                    index + 1,
                    total,
                );
            }
        }
        let place = match next_state.managed_region(path, id) {
            Some(place) => place,
            None => {
                return Err(
                    ManagerError::InvalidProject(
                        join5(
                            "managed region `",
                            id,
                            "` in `",
                            path,
                            "` has no state ownership record",
                        ),
                    ),
                );
            },
        };
        proof {
            lemma_record_place(next_state@.regions, path@, id@, 0);
        }
        assert(next_state@.regions[place as int] == next_state.managed_regions@[place as int]@);
        let desired = match render_region(catalog, id, after, release) {
            Ok(desired) => desired,
            Err(error) => {
                return Err(error);
            },
        };
        let changed = match reconcile_managed_region(
            text.as_str(),
            &next_state.managed_regions[place],
            desired.as_str(),
        ) {
            Ok(changed) => changed,
            Err(error) => {
                return Err(ManagerError::Region(error));
            },
        };
        text = changed;
        record_region(next_state, place, desired.as_str());
        index += 1;
    }
    Ok(text)
}

/// Approves the contents of a file, where the generator approves them at all.
pub fn update_approved_hash(state: &mut ProjectState, path: &str, contents: &str)
    ensures
        final(state)@ == approving(old(state)@, path@, contents@),
{
    let ghost before = state@.ownership;
    if let Some(place) = find_owner(&state.ownership, path) {
        let record = state.ownership[place].duplicate();
        assert(before[place as int] == record@);
        match record.kind {
            OwnershipKind::KitOwned | OwnershipKind::Derived => {
                let changed = OwnershipRecord {
                    path: record.path,
                    kind: record.kind,
                    approved_sha256: Some(hash_text(contents)),
                };
                let ghost value = changed@;
                state.ownership.set(place, changed);
                assert(ownership_models(state.ownership@) =~= before.update(place as int, value));
            },
            _ => {},
        }
    }
}

fn list_place_paths(places: &Vec<RegionPlace>) -> (paths: TextSet)
    ensures
        paths@ == place_paths(place_models(places@)),
{
    let ghost all = place_models(places@).map_values(|place: PlaceModel| place.0);
    let mut list: Vec<String> = Vec::new();
    let mut index: usize = 0;
    while index < places.len()
        invariant
            all == place_models(places@).map_values(|place: PlaceModel| place.0),
            index <= places@.len(),
            models(list@) == all.take(index as int),
        decreases places@.len() - index,
    {
        let ghost before = models(list@);
        let path = places[index].path.clone();
        let ghost value = path@;
        list.push(path);
        proof {
            assert(all[index as int] == value);
            assert(models(list@) =~= before.push(value));
            assert(all.take(index + 1) =~= all.take(index as int).push(value));
        }
        index += 1;
    }
    assert(all.take(index as int) =~= all);
    sort_unique(list)
}

fn list_place_regions(places: &Vec<RegionPlace>, path: &str) -> (ids: TextSet)
    ensures
        ids@ == place_regions(place_models(places@), path@),
{
    let ghost all = place_models(places@);
    let mut list: Vec<String> = Vec::new();
    assert(models(list@) =~= Seq::<Seq<char>>::empty());
    let mut index: usize = 0;
    while index < places.len()
        invariant
            all == place_models(places@),
            index <= places@.len(),
            models(list@) == regions_in(all, path@, index as int),
        decreases places@.len() - index,
    {
        assert(all[index as int] == (places@[index as int].path@, places@[index as int].id@));
        if same_text(places[index].path.as_str(), path) {
            let ghost before = models(list@);
            let id = places[index].id.clone();
            let ghost value = id@;
            list.push(id);
            assert(models(list@) =~= before.push(value));
        }
        index += 1;
    }
    sort_unique(list)
}

fn plan_file_regions(
    inputs: &PlanningInputs,
    snapshot: &ProjectSnapshot,
    after: &TextSet,
    path: &str,
    ids: &TextSet,
    next_state: &mut ProjectState,
    operations: &mut Vec<PlanOperation>,
) -> (result: Result<(), ManagerError>)
    ensures
        ({
            let owed = file_region_plan(
                inputs@,
                snapshot@,
                after@,
                old(next_state)@,
                path@,
                ids@,
            );
            match result {
                Ok(()) => owed is Ok && final(next_state)@ == owed->Ok_0.0 && steps(
                    final(operations)@,
                ) == steps(old(operations)@) + owed->Ok_0.1,
                Err(error) => owed == Err::<(StateModel, Seq<PlanStep>), ManagerFailure>(
                    error.failure(),
                ),
            }
        }),
{
    let ghost before = steps(operations@);
    assert(before + Seq::<PlanStep>::empty() =~= before);
    let current = match snapshot.files.get(path) {
        Some(current) => current,
        None => {
            return Err(
                ManagerError::InvalidProject(
                    join3("managed-region target `", path, "` is missing"),
                ),
            );
        },
    };
    let text = match reconcile_regions(
        inputs.catalog,
        &snapshot.release_identity,
        after,
        next_state,
        path,
        current,
        ids,
    ) {
        Ok(text) => text,
        Err(error) => {
            return Err(error);
        },
    };
    update_approved_hash(next_state, path, text.as_str());
    if !same_text(text.as_str(), current) {
        let items = ids.items();
        assert(models(items@) =~= texts(items@));
        let operation = PlanOperation::ReconcileRegions {
            path: path.to_owned(),
            expected_hash: hash_text(current),
            content_hash: hash_text(text.as_str()),
            region_ids: clone_texts(items),
            content: text,
        };
        let ghost step = operation@;
        push_step(operations, operation);
        assert(before.push(step) =~= before + seq![step]);
    }
    Ok(())
}

proof fn lemma_paths_fail(
    inputs: InputsModel,
    snapshot: SnapshotModel,
    after: Seq<Seq<char>>,
    state: StateModel,
    places: Seq<PlaceModel>,
    paths: Seq<Seq<char>>,
    count: int,
    total: int,
)
    requires
        paths_region_plan(inputs, snapshot, after, state, places, paths, count) is Err,
        count <= total,
    ensures
        paths_region_plan(inputs, snapshot, after, state, places, paths, total)
            == paths_region_plan(inputs, snapshot, after, state, places, paths, count),
    decreases total - count,
{
    if count < total {
        lemma_paths_fail(inputs, snapshot, after, state, places, paths, count, total - 1);
    }
}

/// Plans what a change of the selection does to managed regions.
pub fn plan_regions(
    inputs: &PlanningInputs,
    snapshot: &ProjectSnapshot,
    before: &TextSet,
    after: &TextSet,
    next_state: &mut ProjectState,
    operations: &mut Vec<PlanOperation>,
) -> (result: Result<(), ManagerError>)
    ensures
        ({
            let owed = region_plan(
                inputs@,
                snapshot@,
                snapshot.files.listed(),
                before@,
                after@,
                old(next_state)@,
            );
            match result {
                Ok(()) => owed is Ok && final(next_state)@ == owed->Ok_0.0 && steps(
                    final(operations)@,
                ) == steps(old(operations)@) + owed->Ok_0.1,
                Err(error) => owed == Err::<(StateModel, Seq<PlanStep>), ManagerFailure>(
                    error.failure(),
                ),
            }
        }),
{
    let ghost first = next_state@;
    let ghost start = steps(operations@);
    let places = match collect_places(
        inputs.catalog,
        &snapshot.files,
        next_state,
        before,
        after,
    ) {
        Ok(places) => places,
        Err(error) => {
            return Err(error);
        },
    };
    let ghost known = place_models(places@);
    let paths = list_place_paths(&places);
    let ghost total = paths@.len() as int;
    let ghost mut done = Seq::<PlanStep>::empty();
    assert(start + done =~= start);
    let mut index: usize = 0;
    while index < paths.len()
        invariant
            first == old(next_state)@,
            known == place_models(places@),
            paths@ == place_paths(known),
            concerned_places(
                inputs@.catalog,
                snapshot.files.listed(),
                first,
                before@,
                after@,
            ) == Ok::<Seq<PlaceModel>, ManagerFailure>(known),
            total == paths@.len(),
            index <= total,
            paths_region_plan(
                inputs@,
                snapshot@,
                after@,
                first,
                known,
                paths@,
                index as int,
            ) == Ok::<(StateModel, Seq<PlanStep>), ManagerFailure>((next_state@, done)),
            steps(operations@) == start + done,
        decreases total - index,
    {
        let path = paths.at(index).as_str();
        assert(paths@[index as int] == path@);
        proof {
            if paths_region_plan(
                inputs@,
                snapshot@,
                after@,
                first,
                known,
                paths@,
                index + 1,
            ) is Err {
                lemma_paths_fail(
                    inputs@,
                    snapshot@,
                    after@,
                    first,
                    known,
                    paths@,
                    index + 1,
                    total,
                );
            }
        }
        let ids = list_place_regions(&places, path);
        let ghost here = next_state@;
        match plan_file_regions(inputs, snapshot, after, path, &ids, next_state, operations) {
            Ok(()) => {},
            Err(error) => {
                return Err(error);
            },
        }
        proof {
            let more = file_region_plan(
                inputs@,
                snapshot@,
                after@,
                here,
                path@,
                place_regions(known, path@),
            )->Ok_0.1;
            assert((start + done) + more =~= start + (done + more));
            done = done + more;
        }
        index += 1;
    }
    Ok(())
}

} // verus!
