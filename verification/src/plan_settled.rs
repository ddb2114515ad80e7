//! What planning does to a project that is as it should be.

use vstd::prelude::*;
use vstd::string::*;

use crate::diagnosis::{
    derived_findings, detailed_findings, inventory_findings, lemma_healthy, managed_findings,
    owned_file_findings, project_derived, snapshot_findings, text_hash, InputsModel,
};
use crate::file_map::ProjectFile;
use crate::management::{Diagnostic, ManagerFailure, PlanAction, PlanStep, SnapshotModel};
use crate::module_resolution::{
    composition, ids_in, lemma_composed_ids, lemma_order_is_prerequisite_first, rounds,
};
use crate::modules::{ModuleCatalog, ModuleDefinition};
use crate::ordered::{ascending, lemma_listing_exists, lemma_sorted_listing, sorted_listing};
use crate::plan_derived::paths_derived_plan;
use crate::plan_regions::{
    all_places, concerned_places, paths_region_plan, place_paths, place_regions, recorded_places,
    reference_list, region_plan, regions_reconciled, PlaceModel,
};
use crate::plan_selection::{only_in, selected_pairs, state_after};
use crate::planning::{selection_outcome, PlanOutcome};
use crate::region::regions_of;
use crate::region_laws::{lemma_regions_authentic, lemma_same_place};
use crate::rendering::{derived_paths, region_text};
use crate::selection::{lemma_listing, listing};
use crate::state::{
    module_ids_of, owner_of, record_place, selected_of, OwnershipKind, OwnershipModel, RecordModel,
    StateModel, MANAGED_MARKER_VERSION,
};

verus! {

/// Whether a project is at the release in use and nothing is wrong with it.
pub open spec fn is_healthy(
    inputs: InputsModel,
    snapshot: SnapshotModel,
    files: Seq<ProjectFile>,
) -> bool {
    snapshot_findings(inputs, snapshot, files).len() == 0
}

// The selection.
/// Recording a selection in the order of composition keeps it.
pub(crate) proof fn lemma_selection_stays(catalog: ModuleCatalog, selected: Seq<Seq<char>>)
    requires
        ascending::<String>(selected),
    ensures
        composition(catalog, selected) matches Ok(list) ==> forall|state: StateModel|
            state.modules == selected_pairs(list) ==> #[trigger] selected_of(state) == selected,
{
    if let Ok(list) = composition(catalog, selected) {
        let none = Seq::<ModuleDefinition>::empty();
        lemma_composed_ids(catalog, selected, none);
        assert(ids_in(none) =~= Seq::<Seq<char>>::empty());
        lemma_order_is_prerequisite_first(catalog, selected);
        let order = ids_in(list);
        assert(rounds(catalog, selected, Seq::empty()) == Some(order));
        assert forall|state: StateModel|
            state.modules == selected_pairs(list) implies #[trigger] selected_of(state)
            == selected by {
            assert(module_ids_of(state) =~= order);
            assert forall|value: Seq<char>| #[trigger]
                selected.contains(value) <==> order.contains(value) by {
                assert(selected.to_set().contains(value) <==> order.to_set().contains(value));
            }
            lemma_sorted_listing::<String>(selected, order);
        }
    }
}

proof fn lemma_nothing_between(set: Set<Seq<char>>)
    ensures
        only_in(set, set).len() == 0,
{
    let none = Seq::<Seq<char>>::empty();
    assert(set.difference(set) =~= Set::<Seq<char>>::empty());
    assert(none.to_set() =~= Set::<Seq<char>>::empty());
    assert(ascending::<String>(none));
    lemma_listing(none);
}

// Regions.
proof fn lemma_found_record(records: Seq<RecordModel>, path: Seq<char>, id: Seq<char>, at: int)
    requires
        0 <= at <= records.len(),
    ensures
        ({
            let place = record_place(records, path, id, at);
            &&& at <= place <= records.len()
            &&& place < records.len() ==> records[place].path == path && records[place].id == id
        }),
    decreases records.len() - at,
{
    if at < records.len() && !(records[at].path == path && records[at].id == id) {
        lemma_found_record(records, path, id, at + 1);
    }
}

/// Reconciling the regions of a file with what they hold changes neither the file nor the records.
proof fn lemma_regions_stay(
    inputs: InputsModel,
    snapshot: SnapshotModel,
    files: Seq<ProjectFile>,
    state: StateModel,
    path: Seq<char>,
    ids: Seq<Seq<char>>,
    count: int,
)
    requires
        is_healthy(inputs, snapshot, files),
        state.regions == snapshot.state.regions,
        snapshot.files.contains_key(path),
        0 <= count <= ids.len(),
    ensures
        regions_reconciled(
            inputs.catalog,
            snapshot.release,
            selected_of(snapshot.state),
            state,
            path,
            snapshot.files[path],
            ids,
            count,
        ) matches Ok(outcome) ==> outcome.0 == state && outcome.1 == snapshot.files[path],
        regions_reconciled(
            inputs.catalog,
            snapshot.release,
            selected_of(snapshot.state),
            state,
            path,
            snapshot.files[path],
            ids,
            count,
        ) matches Err(failure) ==> !(failure is Preflight),
    decreases count,
{
    if count > 0 {
        lemma_regions_stay(inputs, snapshot, files, state, path, ids, count - 1);
        lemma_healthy(inputs, snapshot, files);
        let records = snapshot.state.regions;
        let id = ids[count - 1];
        let contents = snapshot.files[path];
        lemma_found_record(records, path, id, 0);
        let place = record_place(records, path, id, 0);
        if place < records.len() {
            let record = records[place];
            assert(managed_findings(inputs, snapshot, record).len() == 0);
            lemma_regions_authentic(contents);
            let regions = regions_of(contents)->Ok_0;
            lemma_same_place(regions, regions, id, 0);
            if let Ok(desired) = region_text(
                inputs.catalog,
                id,
                selected_of(snapshot.state),
                snapshot.release,
            ) {
                assert(records.update(
                    place,
                    RecordModel {
                        marker_version: MANAGED_MARKER_VERSION,
                        content_hash: text_hash(desired),
                        ..record
                    },
                ) =~= records);
            }
        }
    }
}

proof fn lemma_files_stay(
    inputs: InputsModel,
    snapshot: SnapshotModel,
    files: Seq<ProjectFile>,
    state: StateModel,
    places: Seq<PlaceModel>,
    paths: Seq<Seq<char>>,
    count: int,
)
    requires
        is_healthy(inputs, snapshot, files),
        state.regions == snapshot.state.regions,
        0 <= count <= paths.len(),
    ensures
        paths_region_plan(
            inputs,
            snapshot,
            selected_of(snapshot.state),
            state,
            places,
            paths,
            count,
        ) matches Ok(outcome) ==> outcome.0.regions == snapshot.state.regions && outcome.1.len() == 0,
        paths_region_plan(
            inputs,
            snapshot,
            selected_of(snapshot.state),
            state,
            places,
            paths,
            count,
        ) matches Err(failure) ==> !(failure is Preflight),
    decreases count,
{
    if count > 0 {
        lemma_files_stay(inputs, snapshot, files, state, places, paths, count - 1);
        if let Ok(before) = paths_region_plan(
            inputs,
            snapshot,
            selected_of(snapshot.state),
            state,
            places,
            paths,
            count - 1,
        ) {
            let path = paths[count - 1];
            let ids = place_regions(places, path);
            if snapshot.files.contains_key(path) {
                lemma_regions_stay(
                    inputs,
                    snapshot,
                    files,
                    before.0,
                    path,
                    ids,
                    ids.len() as int,
                );
            }
        }
    }
}

proof fn lemma_references_fail(catalog: ModuleCatalog, ids: Seq<Seq<char>>, count: int)
    ensures
        reference_list(catalog, ids, count) matches Err(failure) ==> !(failure is Preflight),
    decreases count,
{
    if count > 0 {
        lemma_references_fail(catalog, ids, count - 1);
    }
}

proof fn lemma_all_places_fail(
    known: Seq<PlaceModel>,
    files: Seq<ProjectFile>,
    references: Seq<Seq<char>>,
    count: int,
)
    ensures
        all_places(known, files, references, count) matches Err(failure) ==> !(failure is Preflight),
    decreases count,
{
    if count > 0 {
        lemma_all_places_fail(known, files, references, count - 1);
    }
}

/// Where the concerned places cannot be told, the reason is no finding.
proof fn lemma_places_fail(
    catalog: ModuleCatalog,
    files: Seq<ProjectFile>,
    state: StateModel,
    selected: Seq<Seq<char>>,
)
    ensures
        concerned_places(catalog, files, state, selected, selected) matches Err(failure) ==> !(
        failure is Preflight),
{
    let ids = listing(selected.to_set().union(selected.to_set()));
    lemma_references_fail(catalog, ids, ids.len() as int);
    if let Ok(list) = reference_list(catalog, ids, ids.len() as int) {
        let references = sorted_listing::<String>(list);
        lemma_all_places_fail(
            recorded_places(state.regions),
            files,
            references,
            references.len() as int,
        );
    }
}

// Derived files.
proof fn lemma_derived_recorded(snapshot: SnapshotModel, paths: Seq<Seq<char>>, count: int, at: int)
    requires
        derived_findings(snapshot, paths, count).len() == 0,
        snapshot.state.framework == snapshot.release,
        0 <= at < count <= paths.len(),
    ensures
        owner_of(snapshot.state.ownership, paths[at]) == Some(OwnershipKind::Derived),
    decreases count,
{
    if at < count - 1 {
        lemma_derived_recorded(snapshot, paths, count - 1, at);
    }
}

proof fn lemma_owner_found(records: Seq<OwnershipModel>, path: Seq<char>) -> (at: int)
    requires
        owner_of(records, path) is Some,
    ensures
        0 <= at < records.len(),
        records[at].path == path,
        Some(records[at].kind) == owner_of(records, path),
    decreases records.len(),
{
    if records[0].path == path {
        0
    } else {
        let rest = records.drop_first();
        let found = lemma_owner_found(rest, path);
        assert(rest[found] == records[found + 1]);
        found + 1
    }
}

/// A derived file of a healthy project holds what it is derived to.
proof fn lemma_derived_current(
    inputs: InputsModel,
    snapshot: SnapshotModel,
    files: Seq<ProjectFile>,
    path: Seq<char>,
)
    requires
        is_healthy(inputs, snapshot, files),
        derived_paths(inputs.catalog, selected_of(snapshot.state))->Ok_0.contains(path),
    ensures
        owner_of(snapshot.state.ownership, path) == Some(OwnershipKind::Derived),
        snapshot.files.contains_key(path),
        project_derived(inputs, snapshot, path, selected_of(snapshot.state)) == Ok::<
            Seq<char>,
            ManagerFailure,
        >(snapshot.files[path]),
{
    lemma_healthy(inputs, snapshot, files);
    let paths = derived_paths(inputs.catalog, selected_of(snapshot.state))->Ok_0;
    let at = choose|at: int| 0 <= at < paths.len() && paths[at] == path;
    lemma_inventory_is_empty(inputs, snapshot, files);
    lemma_derived_recorded(snapshot, paths, paths.len() as int, at);
    let found = lemma_owner_found(snapshot.state.ownership, path);
    let record = snapshot.state.ownership[found];
    assert(owned_file_findings(inputs, snapshot, record).len() == 0);
}

/// Nothing is wrong with the inventory of a healthy project.
pub proof fn lemma_inventory_is_empty(
    inputs: InputsModel,
    snapshot: SnapshotModel,
    files: Seq<ProjectFile>,
)
    requires
        is_healthy(inputs, snapshot, files),
    ensures
        derived_paths(inputs.catalog, selected_of(snapshot.state)) is Ok,
        inventory_findings(
            snapshot,
            derived_paths(inputs.catalog, selected_of(snapshot.state))->Ok_0,
        ).len() == 0,
{
    lemma_healthy(inputs, snapshot, files);
    let paths = derived_paths(inputs.catalog, selected_of(snapshot.state))->Ok_0;
    let all = detailed_findings(inputs, snapshot, files, paths);
    lemma_listing_exists::<Diagnostic>(all);
    if all.len() > 0 {
        assert(all.contains(all[0]));
        assert(sorted_listing::<Diagnostic>(all).contains(all[0]));
    }
}

proof fn lemma_derived_stay(
    inputs: InputsModel,
    snapshot: SnapshotModel,
    files: Seq<ProjectFile>,
    state: StateModel,
    list: Seq<Seq<char>>,
    count: int,
)
    requires
        is_healthy(inputs, snapshot, files),
        0 <= count <= list.len(),
        forall|i: int|
            0 <= i < list.len() ==> derived_paths(
                inputs.catalog,
                selected_of(snapshot.state),
            )->Ok_0.contains(#[trigger] list[i]),
    ensures
        ({
            let selected = selected_of(snapshot.state);
            let paths = derived_paths(inputs.catalog, selected)->Ok_0;
            paths_derived_plan(
                inputs,
                snapshot,
                selected,
                selected,
                paths,
                paths,
                state,
                list,
                count,
            ) == Ok::<(StateModel, Seq<PlanStep>), ManagerFailure>((state, Seq::empty()))
        }),
    decreases count,
{
    if count > 0 {
        lemma_derived_stay(inputs, snapshot, files, state, list, count - 1);
        lemma_healthy(inputs, snapshot, files);
        let path = list[count - 1];
        lemma_derived_current(inputs, snapshot, files, path);
        assert(Seq::<PlanStep>::empty() + Seq::<PlanStep>::empty() =~= Seq::<PlanStep>::empty());
    }
}

// The law.
/// Where nothing is wrong with a project, reconciling it changes no file and no selection, and
/// does not fail for a finding.
pub proof fn lemma_healthy_project_is_settled(
    inputs: InputsModel,
    snapshot: SnapshotModel,
    files: Seq<ProjectFile>,
    target: Result<(StateModel, Map<Seq<char>, Seq<char>>), Seq<char>>,
    action: PlanAction,
)
    requires
        is_healthy(inputs, snapshot, files),
        action == PlanAction::Diff || action == PlanAction::Upgrade,
    ensures
        selection_outcome(inputs, snapshot, files, target, action, None) matches Ok(outcome)
            ==> (outcome matches PlanOutcome::Change { added, removed, steps, .. } && added.len()
            == 0 && removed.len() == 0 && steps.len() == 0),
        selection_outcome(inputs, snapshot, files, target, action, None) matches Err(failure)
            ==> !(failure is Preflight),
{
    lemma_healthy(inputs, snapshot, files);
    let selected = selected_of(snapshot.state);
    lemma_listing_exists::<String>(module_ids_of(snapshot.state));
    assert(ascending::<String>(selected));
    lemma_listing(selected);
    let set = selected.to_set();
    lemma_nothing_between(set);
    lemma_selection_stays(inputs.catalog, selected);
    let none = Seq::<Seq<char>>::empty();
    assert(only_in(set, set) =~= none);
    if let Ok(state) = state_after(
        inputs.catalog,
        snapshot.state,
        action,
        None,
        selected,
        none,
        none,
    ) {
        assert(selected_of(state) == selected);
        assert(state.regions == snapshot.state.regions);
        lemma_places_fail(inputs.catalog, files, state, selected);
        if let Ok(places) = concerned_places(inputs.catalog, files, state, selected, selected) {
            let paths = place_paths(places);
            lemma_files_stay(inputs, snapshot, files, state, places, paths, paths.len() as int);
        }
        if let Ok(regions) = region_plan(inputs, snapshot, files, selected, selected, state) {
            let paths = derived_paths(inputs.catalog, selected)->Ok_0;
            let both = paths.to_set().union(paths.to_set());
            let list = listing(both);
            assert(both =~= paths.to_set());
            lemma_listing_holds(paths);
            lemma_derived_stay(inputs, snapshot, files, regions.0, list, list.len() as int);
        }
    }
}

/// The listing of the values of a list is the sorted one.
pub(crate) proof fn lemma_listing_holds(values: Seq<Seq<char>>)
    ensures
        listing(values.to_set()) == sorted_listing::<String>(values),
        forall|i: int|
            0 <= i < listing(values.to_set()).len() ==> values.contains(
                #[trigger] listing(values.to_set())[i],
            ),
{
    let sorted = sorted_listing::<String>(values);
    lemma_listing_exists::<String>(values);
    assert(sorted.to_set() =~= values.to_set()) by {
        assert forall|value: Seq<char>| sorted.to_set().contains(
            value,
        ) <==> values.to_set().contains(value) by {
            assert(sorted.contains(value) <==> values.contains(value));
        }
    }
    lemma_listing(sorted);
    assert forall|i: int| 0 <= i < sorted.len() implies values.contains(#[trigger] sorted[i]) by {
        assert(sorted.contains(sorted[i]));
    }
}

} // verus!
