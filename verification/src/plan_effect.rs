//! What a project holds once a plan was applied to it.

use vstd::prelude::*;
use vstd::string::*;

use crate::compose::{
    block_rank, block_volumes, dependency_fragments, service_blocks, BlockModel,
};
use crate::diagnosis::{
    is_required_region, lemma_healthy, project_derived, record_findings, text_hash, InputsModel,
};
use crate::file_map::ProjectFile;
use crate::management::{ManagerFailure, PlanAction, PlanStep, SnapshotModel};
use crate::module_resolution::composition;
use crate::modules::{ModuleCatalog, RuntimeDependencyDescriptor};
use crate::ordered::{
    lemma_ascending_distinct, lemma_listing_exists, lemma_sorted_listing, sorted_listing,
};
use crate::plan_derived::{derived_plan, paths_derived_plan};
use crate::plan_files::{added_template_plan, module_template_plan};
use crate::plan_laws::{lemma_arranged_in_order, lemma_phases_in_order};
use crate::plan_regions::{
    all_places, concerned_places, paths_region_plan, place_paths, place_regions, recorded_places,
    reference_list, region_plan, regions_in, regions_reconciled, PlaceModel,
};
use crate::plan_selection::{next_selection, selected_pairs, state_after, with_volumes};
use crate::plan_settled::{is_healthy, lemma_inventory_is_empty};
use crate::planning::{in_order, selection_outcome, PlanOutcome};
use crate::region::{is_region_hash, reconciled, region_place, regions_of, RegionModel};
use crate::region_laws::{
    lemma_regions_authentic, lemma_replaced_reads, lemma_same_place, same_region,
};
use crate::release::ReleaseModel;
use crate::rendering::{dependencies_of, derived_paths, region_text};
use crate::sealing::applied;
use crate::selection::{lemma_listing, listing};
use crate::sorting::arranged;
use crate::state::{
    module_ids_of, owner_of, record_of, record_place, selected_of, OwnershipKind, RecordModel,
    StateModel,
};
use crate::text::texts;

verus! {

// Regions of a text.
/// Whether a text has a region with these contents.
pub open spec fn holds_region(text: Seq<char>, id: Seq<char>, content: Seq<char>) -> bool {
    regions_of(text) matches Ok(regions) && region_place(regions, id, 0) < regions.len()
        && regions[region_place(regions, id, 0)].content == content
}

/// Whether the hash of each rendered region has the form that a marker needs.
pub open spec fn hashes_fit(
    catalog: ModuleCatalog,
    release: ReleaseModel,
    selected: Seq<Seq<char>>,
) -> bool {
    forall|id: Seq<char>| #[trigger]
        region_text(catalog, id, selected, release) matches Ok(content) ==> is_region_hash(
            text_hash(content),
        )
}

proof fn lemma_place(regions: Seq<RegionModel>, id: Seq<char>, from: int)
    requires
        0 <= from <= regions.len(),
    ensures
        from <= region_place(regions, id, from) <= regions.len(),
        region_place(regions, id, from) < regions.len() ==> regions[region_place(
            regions,
            id,
            from,
        )].id == id,
    decreases regions.len() - from,
{
    if from < regions.len() && regions[from].id != id {
        lemma_place(regions, id, from + 1);
    }
}

/// Reconciling one region gives the text that region's contents, and leaves every other region.
proof fn lemma_reconciled_holds(
    source: Seq<char>,
    record: RecordModel,
    content: Seq<char>,
    other: Seq<char>,
    kept: Seq<char>,
)
    requires
        reconciled(source, record, content) is Ok,
        is_region_hash(text_hash(content)),
        other != record.id,
    ensures
        holds_region(reconciled(source, record, content)->Ok_0, record.id, content),
        holds_region(source, other, kept) ==> holds_region(
            reconciled(source, record, content)->Ok_0,
            other,
            kept,
        ),
{
    let next = reconciled(source, record, content)->Ok_0;
    let before = regions_of(source)->Ok_0;
    let place = region_place(before, record.id, 0);
    lemma_place(before, record.id, 0);
    lemma_place(before, other, 0);
    lemma_regions_authentic(source);
    let same = text_hash(content) == before[place].hash && content == before[place].content;
    if !same {
        lemma_replaced_reads(source, place, content);
        let after = regions_of(next)->Ok_0;
        assert forall|i: int| 0 <= i < before.len() implies (#[trigger] before[i]).id
            == after[i].id by {
            if i != place {
                assert(same_region(before[i], after[i]));
            }
        }
        lemma_same_place(before, after, record.id, 0);
        lemma_same_place(before, after, other, 0);
        let kept_place = region_place(before, other, 0);
        if kept_place < before.len() {
            assert(kept_place != place);
            assert(same_region(before[kept_place], after[kept_place]));
        }
    }
}

/// Once the regions of a file were reconciled, each of them holds what the selection calls for.
proof fn lemma_regions_reached(
    catalog: ModuleCatalog,
    release: ReleaseModel,
    after: Seq<Seq<char>>,
    state: StateModel,
    path: Seq<char>,
    contents: Seq<char>,
    ids: Seq<Seq<char>>,
    count: int,
    at: int,
)
    requires
        hashes_fit(catalog, release, after),
        ids.no_duplicates(),
        0 <= at < count <= ids.len(),
        regions_reconciled(catalog, release, after, state, path, contents, ids, count) is Ok,
    ensures
        region_text(catalog, ids[at], after, release) is Ok,
        holds_region(
            regions_reconciled(
                catalog,
                release,
                after,
                state,
                path,
                contents,
                ids,
                count,
            )->Ok_0.1,
            ids[at],
            region_text(catalog, ids[at], after, release)->Ok_0,
        ),
    decreases count,
{
    let earlier = regions_reconciled(
        catalog,
        release,
        after,
        state,
        path,
        contents,
        ids,
        count - 1,
    )->Ok_0;
    let id = ids[count - 1];
    let record = record_of(earlier.0.regions, path, id)->Some_0;
    let desired = region_text(catalog, id, after, release)->Ok_0;
    lemma_record_id(earlier.0.regions, path, id, 0);
    assert(is_region_hash(text_hash(desired)));
    if at < count - 1 {
        lemma_regions_reached(
            catalog,
            release,
            after,
            state,
            path,
            contents,
            ids,
            count - 1,
            at,
        );
        let kept = region_text(catalog, ids[at], after, release)->Ok_0;
        assert(ids[at] != id);
        lemma_reconciled_holds(earlier.1, record, desired, ids[at], kept);
    } else {
        let other = id.push('x');
        assert(other.len() != id.len());
        lemma_reconciled_holds(earlier.1, record, desired, other, desired);
    }
}

proof fn lemma_record_id(
    records: Seq<RecordModel>,
    path: Seq<char>,
    id: Seq<char>,
    at: int,
)
    requires
        0 <= at <= records.len(),
    ensures
        ({
            let place = record_place(records, path, id, at);
            at <= place <= records.len() && (place < records.len() ==> records[place].id == id)
        }),
    decreases records.len() - at,
{
    if at < records.len() && !(records[at].path == path && records[at].id == id) {
        lemma_record_id(records, path, id, at + 1);
    }
}

// Steps.
/// The text that a step writes.
pub open spec fn step_text(step: PlanStep) -> Option<Seq<char>> {
    match step {
        PlanStep::CreateFile { content, .. } => Some(content),
        PlanStep::ReplaceKitFile { content, .. } => Some(content),
        PlanStep::ReconcileRegions { content, .. } => Some(content),
        PlanStep::RegenerateDerived { content, .. } => Some(content),
        PlanStep::WriteLock { content, .. } => Some(content),
        PlanStep::WriteState { content, .. } => Some(content),
        _ => None,
    }
}

/// Whether every step at a path writes the same text, and there is one or the path holds it.
pub open spec fn settles(
    files: Map<Seq<char>, Seq<char>>,
    list: Seq<PlanStep>,
    path: Seq<char>,
    text: Seq<char>,
) -> bool {
    &&& forall|i: int|
        0 <= i < list.len() && (#[trigger] list[i]).target() == path ==> step_text(list[i]) == Some(
            text,
        )
    &&& (exists|i: int| 0 <= i < list.len() && (#[trigger] list[i]).target() == path) || (
    files.contains_key(path) && files[path] == text)
}

proof fn lemma_settled_count(
    files: Map<Seq<char>, Seq<char>>,
    list: Seq<PlanStep>,
    count: int,
    path: Seq<char>,
    text: Seq<char>,
)
    requires
        0 <= count <= list.len(),
        forall|i: int|
            0 <= i < list.len() && (#[trigger] list[i]).target() == path ==> step_text(list[i])
                == Some(text),
    ensures
        applied(files, list, count) matches Ok(after) ==> {
            &&& (exists|i: int| 0 <= i < count && (#[trigger] list[i]).target() == path)
                ==> after.contains_key(path) && after[path] == text
            &&& !(exists|i: int| 0 <= i < count && (#[trigger] list[i]).target() == path)
                ==> after.contains_key(path) == files.contains_key(path) && (files.contains_key(
                path,
            ) ==> after[path] == files[path])
        },
    decreases count,
{
    if count > 0 {
        lemma_settled_count(files, list, count - 1, path, text);
        let step = list[count - 1];
        if exists|i: int| 0 <= i < count - 1 && (#[trigger] list[i]).target() == path {
            let i = choose|i: int| 0 <= i < count - 1 && (#[trigger] list[i]).target() == path;
            assert(list[i].target() == path);
        }
        if exists|i: int| 0 <= i < count && (#[trigger] list[i]).target() == path {
            let i = choose|i: int| 0 <= i < count && (#[trigger] list[i]).target() == path;
            if i < count - 1 {
                assert(list[i].target() == path);
            }
        }
    }
}

/// Applying a plan leaves the text that its steps agree on.
proof fn lemma_settles(
    files: Map<Seq<char>, Seq<char>>,
    list: Seq<PlanStep>,
    path: Seq<char>,
    text: Seq<char>,
)
    requires
        settles(files, list, path, text),
    ensures
        applied(files, in_order(list), in_order(list).len() as int) matches Ok(after)
            ==> after.contains_key(path) && after[path] == text,
{
    lemma_phases_in_order(list);
    let sorted = in_order(list);
    assert forall|i: int| 0 <= i < sorted.len() && (#[trigger] sorted[i]).target()
        == path implies step_text(sorted[i]) == Some(text) by {
        let step = sorted[i];
        sorted.to_multiset_ensures();
        list.to_multiset_ensures();
        assert(sorted.contains(step));
        assert(list.to_multiset().count(step) > 0);
        let k = choose|k: int| 0 <= k < list.len() && list[k] == step;
        assert(list[k].target() == path);
    }
    lemma_settled_count(files, sorted, sorted.len() as int, path, text);
    if exists|i: int| 0 <= i < list.len() && (#[trigger] list[i]).target() == path {
        let i = choose|i: int| 0 <= i < list.len() && (#[trigger] list[i]).target() == path;
        let step = list[i];
        sorted.to_multiset_ensures();
        list.to_multiset_ensures();
        assert(list.contains(step));
        assert(sorted.to_multiset().count(step) > 0);
        let k = choose|k: int| 0 <= k < sorted.len() && sorted[k] == step;
        assert(sorted[k].target() == path);
    }
}

/// Whether a state has the selection, the name and the volumes of another.
pub open spec fn keeps_project(next: StateModel, state: StateModel) -> bool {
    next.modules == state.modules && next.service == state.service && next.retained_volumes
        == state.retained_volumes
}

// Templates.
/// The steps of application templates create files where there is none, at paths of templates.
proof fn lemma_module_template_steps(
    inputs: InputsModel,
    snapshot: SnapshotModel,
    state: StateModel,
    id: Seq<char>,
    paths: Seq<Seq<char>>,
    count: int,
)
    requires
        0 <= count <= paths.len(),
    ensures
        module_template_plan(inputs.templates, snapshot, state, id, paths, count) matches Ok(plan)
            ==> {
            &&& keeps_project(plan.0, state)
            &&& plan.0.regions == state.regions
            &&& forall|i: int|
                0 <= i < plan.1.len() ==> paths.contains((#[trigger] plan.1[i]).target())
                    && !snapshot.files.contains_key(plan.1[i].target())
        },
    decreases count,
{
    if count > 0 {
        lemma_module_template_steps(inputs, snapshot, state, id, paths, count - 1);
        if let Ok(plan) = module_template_plan(
            inputs.templates,
            snapshot,
            state,
            id,
            paths,
            count,
        ) {
            let before = module_template_plan(
                inputs.templates,
                snapshot,
                state,
                id,
                paths,
                count - 1,
            )->Ok_0;
            assert forall|i: int| 0 <= i < plan.1.len() implies paths.contains(
                (#[trigger] plan.1[i]).target(),
            ) && !snapshot.files.contains_key(plan.1[i].target()) by {
                if i < before.1.len() {
                    assert(plan.1[i] == before.1[i]);
                }
            }
        }
    }
}

/// Whether a path is that of an application template of the catalog.
pub open spec fn is_template_path(catalog: ModuleCatalog, path: Seq<char>) -> bool {
    exists|id: Seq<char>| #[trigger]
        catalog.find(id) matches Some(module) && texts(module.application_templates@).contains(path)
}

proof fn lemma_template_steps(
    inputs: InputsModel,
    snapshot: SnapshotModel,
    state: StateModel,
    added: Seq<Seq<char>>,
    count: int,
)
    requires
        0 <= count <= added.len(),
    ensures
        added_template_plan(inputs, snapshot, state, added, count) matches Ok(plan) ==> {
            &&& keeps_project(plan.0, state)
            &&& plan.0.regions == state.regions
            &&& forall|i: int|
                0 <= i < plan.1.len() ==> is_template_path(
                    inputs.catalog,
                    (#[trigger] plan.1[i]).target(),
                ) && !snapshot.files.contains_key(plan.1[i].target())
        },
    decreases count,
{
    if count > 0 {
        lemma_template_steps(inputs, snapshot, state, added, count - 1);
        if let Ok(plan) = added_template_plan(inputs, snapshot, state, added, count) {
            let before = added_template_plan(inputs, snapshot, state, added, count - 1)->Ok_0;
            let id = added[count - 1];
            let module = inputs.catalog.find(id)->Some_0;
            let paths = texts(module.application_templates@);
            lemma_module_template_steps(
                inputs,
                snapshot,
                before.0,
                id,
                paths,
                paths.len() as int,
            );
            assert forall|i: int| 0 <= i < plan.1.len() implies is_template_path(
                inputs.catalog,
                (#[trigger] plan.1[i]).target(),
            ) && !snapshot.files.contains_key(plan.1[i].target()) by {
                if i < before.1.len() {
                    assert(plan.1[i] == before.1[i]);
                } else {
                    assert(paths.contains(plan.1[i].target()));
                    assert(inputs.catalog.find(id) is Some);
                }
            }
        }
    }
}

// Regions of files.
/// Whether two lists of records tell of the same regions.
pub open spec fn same_places(left: Seq<RecordModel>, right: Seq<RecordModel>) -> bool {
    &&& left.len() == right.len()
    &&& forall|i: int|
        0 <= i < left.len() ==> (#[trigger] left[i]).path == right[i].path && left[i].id
            == right[i].id
}

proof fn lemma_place_stays(
    left: Seq<RecordModel>,
    right: Seq<RecordModel>,
    path: Seq<char>,
    id: Seq<char>,
    at: int,
)
    requires
        same_places(left, right),
        0 <= at <= left.len(),
    ensures
        record_place(left, path, id, at) == record_place(right, path, id, at),
        at <= record_place(left, path, id, at) <= left.len(),
        record_place(left, path, id, at) < left.len() ==> left[record_place(
            left,
            path,
            id,
            at,
        )].path == path,
    decreases left.len() - at,
{
    if at < left.len() && !(left[at].path == path && left[at].id == id) {
        lemma_place_stays(left, right, path, id, at + 1);
    }
}

proof fn lemma_reconciled_state(
    catalog: ModuleCatalog,
    release: ReleaseModel,
    after: Seq<Seq<char>>,
    state: StateModel,
    path: Seq<char>,
    contents: Seq<char>,
    ids: Seq<Seq<char>>,
    count: int,
)
    requires
        0 <= count <= ids.len(),
    ensures
        regions_reconciled(catalog, release, after, state, path, contents, ids, count) matches Ok(
            outcome,
        ) ==> {
            &&& keeps_project(outcome.0, state)
            &&& same_places(outcome.0.regions, state.regions)
            &&& count > 0 ==> record_of(state.regions, path, ids[0]) is Some
        },
    decreases count,
{
    if count > 0 {
        lemma_reconciled_state(catalog, release, after, state, path, contents, ids, count - 1);
        if let Ok(earlier) = regions_reconciled(
            catalog,
            release,
            after,
            state,
            path,
            contents,
            ids,
            count - 1,
        ) {
            let id = ids[count - 1];
            lemma_place_stays(earlier.0.regions, state.regions, path, id, 0);
        }
    }
}

proof fn lemma_region_steps(
    inputs: InputsModel,
    snapshot: SnapshotModel,
    after: Seq<Seq<char>>,
    state: StateModel,
    places: Seq<PlaceModel>,
    paths: Seq<Seq<char>>,
    count: int,
)
    requires
        0 <= count <= paths.len(),
        forall|j: int|
            0 <= j < paths.len() ==> place_regions(places, #[trigger] paths[j]).len() > 0,
    ensures
        paths_region_plan(inputs, snapshot, after, state, places, paths, count) matches Ok(plan)
            ==> {
            &&& keeps_project(plan.0, state)
            &&& same_places(plan.0.regions, state.regions)
            &&& forall|i: int|
                0 <= i < plan.1.len() ==> paths.take(count).contains(
                    (#[trigger] plan.1[i]).target(),
                )
            &&& forall|j: int|
                0 <= j < count ==> snapshot.files.contains_key(#[trigger] paths[j]) && record_of(
                    state.regions,
                    paths[j],
                    place_regions(places, paths[j])[0],
                ) is Some
        },
    decreases count,
{
    if count > 0 {
        lemma_region_steps(inputs, snapshot, after, state, places, paths, count - 1);
        if let Ok(plan) = paths_region_plan(inputs, snapshot, after, state, places, paths, count) {
            let before = paths_region_plan(
                inputs,
                snapshot,
                after,
                state,
                places,
                paths,
                count - 1,
            )->Ok_0;
            let path = paths[count - 1];
            let ids = place_regions(places, path);
            lemma_reconciled_state(
                inputs.catalog,
                snapshot.release,
                after,
                before.0,
                path,
                snapshot.files[path],
                ids,
                ids.len() as int,
            );
            lemma_place_stays(before.0.regions, state.regions, path, ids[0], 0);
            assert forall|i: int| 0 <= i < plan.1.len() implies paths.take(count).contains(
                (#[trigger] plan.1[i]).target(),
            ) by {
                if i < before.1.len() {
                    assert(plan.1[i] == before.1[i]);
                    let first = paths.take(count - 1);
                    let target = plan.1[i].target();
                    let j = choose|j: int| 0 <= j < first.len() && first[j] == target;
                    assert(paths.take(count)[j] == plan.1[i].target());
                } else {
                    assert(paths.take(count)[count - 1] == plan.1[i].target());
                }
            }
        }
    }
}

/// The steps of regions settle each file at a text whose regions hold what the selection calls
/// for.
proof fn lemma_regions_settle(
    inputs: InputsModel,
    snapshot: SnapshotModel,
    after: Seq<Seq<char>>,
    state: StateModel,
    places: Seq<PlaceModel>,
    paths: Seq<Seq<char>>,
    count: int,
    at: int,
) -> (text: Seq<char>)
    requires
        hashes_fit(inputs.catalog, snapshot.release, after),
        paths.no_duplicates(),
        0 <= at < count <= paths.len(),
        forall|j: int|
            0 <= j < paths.len() ==> place_regions(places, #[trigger] paths[j]).len() > 0
                && place_regions(places, paths[j]).no_duplicates(),
        paths_region_plan(inputs, snapshot, after, state, places, paths, count) is Ok,
    ensures
        settles(
            snapshot.files,
            paths_region_plan(inputs, snapshot, after, state, places, paths, count)->Ok_0.1,
            paths[at],
            text,
        ),
        forall|k: int|
            0 <= k < place_regions(places, paths[at]).len() ==> region_text(
                inputs.catalog,
                #[trigger] place_regions(places, paths[at])[k],
                after,
                snapshot.release,
            ) is Ok && holds_region(
                text,
                place_regions(places, paths[at])[k],
                region_text(
                    inputs.catalog,
                    place_regions(places, paths[at])[k],
                    after,
                    snapshot.release,
                )->Ok_0,
            ),
    decreases count,
{
    let plan = paths_region_plan(inputs, snapshot, after, state, places, paths, count)->Ok_0;
    let before = paths_region_plan(
        inputs,
        snapshot,
        after,
        state,
        places,
        paths,
        count - 1,
    )->Ok_0;
    let path = paths[count - 1];
    let ids = place_regions(places, path);
    lemma_region_steps(inputs, snapshot, after, state, places, paths, count - 1);
    if at < count - 1 {
        let text = lemma_regions_settle(
            inputs,
            snapshot,
            after,
            state,
            places,
            paths,
            count - 1,
            at,
        );
        assert(paths[at] != path);
        assert forall|i: int| 0 <= i < plan.1.len() && (#[trigger] plan.1[i]).target()
            == paths[at] implies step_text(plan.1[i]) == Some(text) by {
            assert(i < before.1.len());
            assert(plan.1[i] == before.1[i]);
        }
        if exists|i: int| 0 <= i < before.1.len() && (#[trigger] before.1[i]).target()
            == paths[at] {
            let i = choose|i: int|
                0 <= i < before.1.len() && (#[trigger] before.1[i]).target() == paths[at];
            assert(plan.1[i].target() == paths[at]);
        }
        text
    } else {
        let outcome = regions_reconciled(
            inputs.catalog,
            snapshot.release,
            after,
            before.0,
            path,
            snapshot.files[path],
            ids,
            ids.len() as int,
        )->Ok_0;
        let text = outcome.1;
        assert forall|k: int| 0 <= k < ids.len() implies region_text(
            inputs.catalog,
            #[trigger] ids[k],
            after,
            snapshot.release,
        ) is Ok && holds_region(
            text,
            ids[k],
            region_text(inputs.catalog, ids[k], after, snapshot.release)->Ok_0,
        ) by {
            lemma_regions_reached(
                inputs.catalog,
                snapshot.release,
                after,
                before.0,
                path,
                snapshot.files[path],
                ids,
                ids.len() as int,
                k,
            );
        }
        assert forall|i: int| 0 <= i < plan.1.len() && (#[trigger] plan.1[i]).target()
            == path implies step_text(plan.1[i]) == Some(text) by {
            if i < before.1.len() {
                assert(plan.1[i] == before.1[i]);
                let first = paths.take(count - 1);
                let target = before.1[i].target();
                let j = choose|j: int| 0 <= j < first.len() && first[j] == target;
                assert(paths[j] == path);
            }
        }
        if text != snapshot.files[path] {
            assert(plan.1[before.1.len() as int].target() == path);
        }
        text
    }
}

// Derived files.
proof fn lemma_derived_steps(
    inputs: InputsModel,
    snapshot: SnapshotModel,
    before: Seq<Seq<char>>,
    after: Seq<Seq<char>>,
    before_paths: Seq<Seq<char>>,
    after_paths: Seq<Seq<char>>,
    state: StateModel,
    paths: Seq<Seq<char>>,
    count: int,
)
    requires
        snapshot.state.framework == snapshot.release,
        0 <= count <= paths.len(),
    ensures
        paths_derived_plan(
            inputs,
            snapshot,
            before,
            after,
            before_paths,
            after_paths,
            state,
            paths,
            count,
        ) matches Ok(plan) ==> {
            &&& keeps_project(plan.0, state)
            &&& forall|i: int|
                0 <= i < plan.1.len() ==> paths.take(count).contains(
                    (#[trigger] plan.1[i]).target(),
                ) && (!snapshot.files.contains_key(plan.1[i].target()) || owner_of(
                    snapshot.state.ownership,
                    plan.1[i].target(),
                ) == Some(OwnershipKind::Derived))
        },
    decreases count,
{
    if count > 0 {
        lemma_derived_steps(
            inputs,
            snapshot,
            before,
            after,
            before_paths,
            after_paths,
            state,
            paths,
            count - 1,
        );
        if let Ok(plan) = paths_derived_plan(
            inputs,
            snapshot,
            before,
            after,
            before_paths,
            after_paths,
            state,
            paths,
            count,
        ) {
            let earlier = paths_derived_plan(
                inputs,
                snapshot,
                before,
                after,
                before_paths,
                after_paths,
                state,
                paths,
                count - 1,
            )->Ok_0;
            assert forall|i: int| 0 <= i < plan.1.len() implies paths.take(count).contains(
                (#[trigger] plan.1[i]).target(),
            ) && (!snapshot.files.contains_key(plan.1[i].target()) || owner_of(
                snapshot.state.ownership,
                plan.1[i].target(),
            ) == Some(OwnershipKind::Derived)) by {
                let target = plan.1[i].target();
                if i < earlier.1.len() {
                    assert(plan.1[i] == earlier.1[i]);
                    let first = paths.take(count - 1);
                    let j = choose|j: int| 0 <= j < first.len() && first[j] == target;
                    assert(paths.take(count)[j] == target);
                } else {
                    assert(paths.take(count)[count - 1] == target);
                }
            }
        }
    }
}

/// The steps of derived files settle each of them at what it is derived to.
proof fn lemma_derived_settle(
    inputs: InputsModel,
    snapshot: SnapshotModel,
    before: Seq<Seq<char>>,
    after: Seq<Seq<char>>,
    before_paths: Seq<Seq<char>>,
    after_paths: Seq<Seq<char>>,
    state: StateModel,
    paths: Seq<Seq<char>>,
    count: int,
    at: int,
)
    requires
        snapshot.state.framework == snapshot.release,
        paths.no_duplicates(),
        0 <= at < count <= paths.len(),
        after_paths.contains(paths[at]),
        paths_derived_plan(
            inputs,
            snapshot,
            before,
            after,
            before_paths,
            after_paths,
            state,
            paths,
            count,
        ) is Ok,
    ensures
        project_derived(inputs, snapshot, paths[at], after) is Ok,
        snapshot.files.contains_key(paths[at]) ==> owner_of(snapshot.state.ownership, paths[at])
            == Some(OwnershipKind::Derived),
        settles(
            snapshot.files,
            paths_derived_plan(
                inputs,
                snapshot,
                before,
                after,
                before_paths,
                after_paths,
                state,
                paths,
                count,
            )->Ok_0.1,
            paths[at],
            project_derived(inputs, snapshot, paths[at], after)->Ok_0,
        ),
    decreases count,
{
    let plan = paths_derived_plan(
        inputs,
        snapshot,
        before,
        after,
        before_paths,
        after_paths,
        state,
        paths,
        count,
    )->Ok_0;
    let earlier = paths_derived_plan(
        inputs,
        snapshot,
        before,
        after,
        before_paths,
        after_paths,
        state,
        paths,
        count - 1,
    )->Ok_0;
    lemma_derived_steps(
        inputs,
        snapshot,
        before,
        after,
        before_paths,
        after_paths,
        state,
        paths,
        count - 1,
    );
    let path = paths[at];
    let text = project_derived(inputs, snapshot, path, after)->Ok_0;
    if at < count - 1 {
        lemma_derived_settle(
            inputs,
            snapshot,
            before,
            after,
            before_paths,
            after_paths,
            state,
            paths,
            count - 1,
            at,
        );
        assert(paths[count - 1] != path);
        assert forall|i: int| 0 <= i < plan.1.len() && (#[trigger] plan.1[i]).target()
            == path implies step_text(plan.1[i]) == Some(text) by {
            assert(i < earlier.1.len());
            assert(plan.1[i] == earlier.1[i]);
        }
        if exists|i: int| 0 <= i < earlier.1.len() && (#[trigger] earlier.1[i]).target() == path {
            let i = choose|i: int|
                0 <= i < earlier.1.len() && (#[trigger] earlier.1[i]).target() == path;
            assert(plan.1[i].target() == path);
        }
    } else {
        assert forall|i: int| 0 <= i < plan.1.len() && (#[trigger] plan.1[i]).target()
            == path implies step_text(plan.1[i]) == Some(text) by {
            if i < earlier.1.len() {
                assert(plan.1[i] == earlier.1[i]);
                let first = paths.take(count - 1);
                let j = choose|j: int| 0 <= j < first.len() && first[j] == path;
                assert(paths[j] == path);
            }
        }
        if !(snapshot.files.contains_key(path) && snapshot.files[path] == text) {
            assert(plan.1[earlier.1.len() as int].target() == path);
        }
    }
}

// The places that a change concerns.
proof fn lemma_recorded_concern(
    start: Seq<PlaceModel>,
    files: Seq<ProjectFile>,
    references: Seq<Seq<char>>,
    count: int,
    place: PlaceModel,
)
    requires
        0 <= count <= references.len(),
        start.contains(place),
    ensures
        all_places(start, files, references, count) matches Ok(places) ==> places.contains(place),
    decreases count,
{
    if count > 0 {
        lemma_recorded_concern(start, files, references, count - 1, place);
        if let Ok(places) = all_places(start, files, references, count) {
            let earlier = all_places(start, files, references, count - 1)->Ok_0;
            let k = choose|k: int| 0 <= k < earlier.len() && earlier[k] == place;
            assert(places[k] == place);
        }
    }
}

proof fn lemma_regions_in(places: Seq<PlaceModel>, path: Seq<char>, count: int, at: int)
    requires
        0 <= at < count <= places.len(),
        places[at].0 == path,
    ensures
        regions_in(places, path, count).contains(places[at].1),
    decreases count,
{
    let all = regions_in(places, path, count);
    if at == count - 1 {
        assert(all.last() == places[at].1);
    } else {
        lemma_regions_in(places, path, count - 1, at);
        let earlier = regions_in(places, path, count - 1);
        let k = choose|k: int| 0 <= k < earlier.len() && earlier[k] == places[at].1;
        assert(all[k] == places[at].1);
    }
}

/// The paths of places come once each, and each has its regions once each.
proof fn lemma_places(places: Seq<PlaceModel>)
    ensures
        place_paths(places).no_duplicates(),
        forall|j: int|
            0 <= j < place_paths(places).len() ==> place_regions(
                places,
                #[trigger] place_paths(places)[j],
            ).len() > 0 && place_regions(places, place_paths(places)[j]).no_duplicates(),
        forall|at: int|
            0 <= at < places.len() ==> place_paths(places).contains((#[trigger] places[at]).0)
                && place_regions(places, places[at].0).contains(places[at].1),
{
    let all = places.map_values(|place: PlaceModel| place.0);
    let paths = place_paths(places);
    lemma_listing_exists::<String>(all);
    lemma_ascending_distinct::<String>(paths);
    assert forall|at: int| 0 <= at < places.len() implies paths.contains((#[trigger] places[at]).0)
        && place_regions(places, places[at].0).contains(places[at].1) by {
        assert(all[at] == places[at].0);
        assert(all.contains(places[at].0));
        let path = places[at].0;
        lemma_regions_in(places, path, places.len() as int, at);
        lemma_listing_exists::<String>(regions_in(places, path, places.len() as int));
    }
    assert forall|j: int| 0 <= j < paths.len() implies place_regions(
        places,
        #[trigger] paths[j],
    ).len() > 0 && place_regions(places, paths[j]).no_duplicates() by {
        let path = paths[j];
        assert(paths.contains(path));
        let at = choose|at: int| 0 <= at < all.len() && all[at] == path;
        assert(places[at].0 == path);
        let ids = place_regions(places, path);
        assert(ids.contains(places[at].1));
        lemma_listing_exists::<String>(regions_in(places, path, places.len() as int));
        lemma_ascending_distinct::<String>(ids);
    }
}

proof fn lemma_required_records(regions: Seq<RecordModel>, count: int, at: int)
    requires
        record_findings(regions, count).len() == 0,
        0 <= at < count <= regions.len(),
    ensures
        is_required_region(regions[at].path, regions[at].id),
    decreases count,
{
    if at < count - 1 {
        lemma_required_records(regions, count - 1, at);
    }
}

/// The application owns the file of every region that a healthy project records.
proof fn lemma_region_owner(
    inputs: InputsModel,
    snapshot: SnapshotModel,
    files: Seq<ProjectFile>,
    at: int,
)
    requires
        is_healthy(inputs, snapshot, files),
        0 <= at < snapshot.state.regions.len(),
    ensures
        owner_of(snapshot.state.ownership, snapshot.state.regions[at].path) == Some(
            OwnershipKind::ApplicationOwned,
        ),
{
    lemma_inventory_is_empty(inputs, snapshot, files);
    let regions = snapshot.state.regions;
    lemma_required_records(regions, regions.len() as int, at);
}

proof fn lemma_union_listing(left: Seq<Seq<char>>, right: Seq<Seq<char>>)
    ensures
        ({
            let list = listing(left.to_set().union(right.to_set()));
            &&& list.no_duplicates()
            &&& forall|value: Seq<char>| #[trigger] right.contains(value) ==> list.contains(value)
        }),
{
    let both = left + right;
    let sorted = sorted_listing::<String>(both);
    lemma_listing_exists::<String>(both);
    let set = left.to_set().union(right.to_set());
    assert(sorted.to_set() =~= set) by {
        assert forall|value: Seq<char>| sorted.to_set().contains(value) <==> set.contains(
            value,
        ) by {
            assert(sorted.contains(value) <==> both.contains(value));
            lemma_in_both(left, right, value);
        }
    }
    lemma_listing(sorted);
    lemma_ascending_distinct::<String>(sorted);
    assert forall|value: Seq<char>| #[trigger] right.contains(value) implies sorted.contains(
        value,
    ) by {
        lemma_in_both(left, right, value);
        assert(sorted.contains(value) <==> both.contains(value));
    }
}

proof fn lemma_in_both(left: Seq<Seq<char>>, right: Seq<Seq<char>>, value: Seq<char>)
    ensures
        (left + right).contains(value) <==> left.contains(value) || right.contains(value),
{
    let both = left + right;
    if left.contains(value) {
        let k = choose|k: int| 0 <= k < left.len() && left[k] == value;
        assert(both[k] == value);
    }
    if right.contains(value) {
        let k = choose|k: int| 0 <= k < right.len() && right[k] == value;
        assert(both[left.len() + k] == value);
    }
    if both.contains(value) {
        let k = choose|k: int| 0 <= k < both.len() && both[k] == value;
        if k >= left.len() {
            assert(right[k - left.len()] == value);
        }
    }
}

/// Steps that do not touch a path do not matter to it.
proof fn lemma_settles_among(
    files: Map<Seq<char>, Seq<char>>,
    first: Seq<PlanStep>,
    middle: Seq<PlanStep>,
    last: Seq<PlanStep>,
    path: Seq<char>,
    text: Seq<char>,
)
    requires
        settles(files, middle, path, text),
        forall|i: int| 0 <= i < first.len() ==> (#[trigger] first[i]).target() != path,
        forall|i: int| 0 <= i < last.len() ==> (#[trigger] last[i]).target() != path,
    ensures
        settles(files, first + middle + last, path, text),
{
    let all = first + middle + last;
    assert forall|i: int| 0 <= i < all.len() && (#[trigger] all[i]).target()
        == path implies step_text(all[i]) == Some(text) by {
        if i < first.len() {
            assert(all[i] == first[i]);
        } else if i < first.len() + middle.len() {
            assert(all[i] == middle[i - first.len()]);
        } else {
            assert(all[i] == last[i - first.len() - middle.len()]);
        }
    }
    if exists|i: int| 0 <= i < middle.len() && (#[trigger] middle[i]).target() == path {
        let i = choose|i: int| 0 <= i < middle.len() && (#[trigger] middle[i]).target() == path;
        assert(all[first.len() + i] == middle[i]);
    }
}

// Volumes.
/// Whether one of the first `count` dependencies is a local service with a volume.
pub open spec fn has_volume(
    dependencies: Seq<RuntimeDependencyDescriptor>,
    volume: Seq<char>,
    count: int,
) -> bool {
    exists|i: int|
        0 <= i < count && (#[trigger] dependencies[i] matches RuntimeDependencyDescriptor::Compose {
            volume: own,
            ..
        } && own@ == volume)
}

proof fn lemma_has_volume(
    dependencies: Seq<RuntimeDependencyDescriptor>,
    volume: Seq<char>,
    count: int,
)
    requires
        0 < count <= dependencies.len(),
    ensures
        has_volume(dependencies, volume, count) <==> has_volume(dependencies, volume, count - 1)
            || (dependencies[count - 1] matches RuntimeDependencyDescriptor::Compose {
            volume: own,
            ..
        } && own@ == volume),
{
    if has_volume(dependencies, volume, count) {
        let i = choose|i: int|
            0 <= i < count && (
            #[trigger] dependencies[i] matches RuntimeDependencyDescriptor::Compose {
                volume: own,
                ..
            } && own@ == volume);
        assert(i == count - 1 || 0 <= i < count - 1);
    }
}

proof fn lemma_with_volumes(
    retained: Seq<Seq<char>>,
    dependencies: Seq<RuntimeDependencyDescriptor>,
    count: int,
    volume: Seq<char>,
)
    requires
        0 <= count <= dependencies.len(),
    ensures
        with_volumes(retained, dependencies, count).contains(volume) <==> retained.contains(volume)
            || has_volume(dependencies, volume, count),
    decreases count,
{
    if count > 0 {
        lemma_with_volumes(retained, dependencies, count - 1, volume);
        lemma_has_volume(dependencies, volume, count);
        let before = with_volumes(retained, dependencies, count - 1);
        if let RuntimeDependencyDescriptor::Compose { volume: own, .. } = dependencies[count - 1] {
            if !before.contains(own@) {
                let more = before.push(own@);
                assert(more.last() == own@);
                if before.contains(volume) {
                    let k = choose|k: int| 0 <= k < before.len() && before[k] == volume;
                    assert(more[k] == volume);
                }
                if more.contains(volume) {
                    let k = choose|k: int| 0 <= k < more.len() && more[k] == volume;
                    if k < before.len() {
                        assert(before[k] == volume);
                    }
                }
            }
        }
    }
}

proof fn lemma_block_volumes(
    dependencies: Seq<RuntimeDependencyDescriptor>,
    count: int,
    volume: Seq<char>,
)
    requires
        0 <= count <= dependencies.len(),
    ensures
        block_volumes(service_blocks(dependencies, count)).contains(volume) <==> has_volume(
            dependencies,
            volume,
            count,
        ),
    decreases count,
{
    let all = block_volumes(service_blocks(dependencies, count));
    if count > 0 {
        lemma_block_volumes(dependencies, count - 1, volume);
        lemma_has_volume(dependencies, volume, count);
        let before = block_volumes(service_blocks(dependencies, count - 1));
        if let RuntimeDependencyDescriptor::Compose { volume: own, .. } = dependencies[count - 1] {
            assert(all =~= before.push(own@));
            assert(all.last() == own@);
            if before.contains(volume) {
                let k = choose|k: int| 0 <= k < before.len() && before[k] == volume;
                assert(all[k] == volume);
            }
            if all.contains(volume) {
                let k = choose|k: int| 0 <= k < all.len() && all[k] == volume;
                if k < before.len() {
                    assert(before[k] == volume);
                }
            }
        } else {
            assert(all =~= before);
        }
    }
}

proof fn lemma_arranged_volumes(blocks: Seq<BlockModel>, volume: Seq<char>)
    ensures
        block_volumes(arranged(blocks, block_rank(), blocks.len() as int)).contains(volume)
            <==> block_volumes(blocks).contains(volume),
{
    let ordered = arranged(blocks, block_rank(), blocks.len() as int);
    lemma_arranged_in_order(blocks, block_rank(), blocks.len() as int);
    assert(blocks.take(blocks.len() as int) =~= blocks);
    blocks.to_multiset_ensures();
    ordered.to_multiset_ensures();
    if block_volumes(ordered).contains(volume) {
        let k = choose|k: int|
            0 <= k < block_volumes(ordered).len() && block_volumes(ordered)[k] == volume;
        let block = ordered[k];
        assert(ordered.contains(block));
        assert(blocks.to_multiset().count(block) > 0);
        let j = choose|j: int| 0 <= j < blocks.len() && blocks[j] == block;
        assert(block_volumes(blocks)[j] == volume);
    }
    if block_volumes(blocks).contains(volume) {
        let k = choose|k: int|
            0 <= k < block_volumes(blocks).len() && block_volumes(blocks)[k] == volume;
        let block = blocks[k];
        assert(blocks.contains(block));
        assert(ordered.to_multiset().count(block) > 0);
        let j = choose|j: int| 0 <= j < ordered.len() && ordered[j] == block;
        assert(block_volumes(ordered)[j] == volume);
    }
}

/// Retaining the volumes of the dependencies themselves changes nothing in what is derived.
proof fn lemma_own_volumes(
    dependencies: Seq<RuntimeDependencyDescriptor>,
    retained: Seq<Seq<char>>,
)
    ensures
        dependency_fragments(
            dependencies,
            sorted_listing::<String>(
                with_volumes(retained, dependencies, dependencies.len() as int),
            ),
        ) == dependency_fragments(dependencies, retained),
{
    let total = dependencies.len() as int;
    let more = with_volumes(retained, dependencies, total);
    let kept = sorted_listing::<String>(more);
    lemma_listing_exists::<String>(more);
    let blocks = service_blocks(dependencies, total);
    let ordered = arranged(blocks, block_rank(), blocks.len() as int);
    let own = block_volumes(ordered);
    let left = kept + own;
    let right = retained + own;
    assert forall|volume: Seq<char>| left.contains(volume) <==> right.contains(volume) by {
        lemma_in_both(kept, own, volume);
        lemma_in_both(retained, own, volume);
        assert(kept.contains(volume) <==> more.contains(volume));
        lemma_with_volumes(retained, dependencies, total, volume);
        lemma_block_volumes(dependencies, total, volume);
        lemma_arranged_volumes(blocks, volume);
    }
    lemma_listing_exists::<String>(left);
    let sorted = sorted_listing::<String>(left);
    assert forall|volume: Seq<char>| #[trigger]
        sorted.contains(volume) <==> right.contains(volume) by {
        assert(sorted.contains(volume) <==> left.contains(volume));
    }
    lemma_sorted_listing::<String>(sorted, right);
}

// The law.
/// Whether each recorded region of a project holds what a selection calls for.
pub open spec fn regions_current(
    inputs: InputsModel,
    snapshot: SnapshotModel,
    selected: Seq<Seq<char>>,
    files: Map<Seq<char>, Seq<char>>,
) -> bool {
    forall|i: int|
        0 <= i < snapshot.state.regions.len() ==> {
            let record = #[trigger] snapshot.state.regions[i];
            &&& files.contains_key(record.path)
            &&& region_text(inputs.catalog, record.id, selected, snapshot.release) matches Ok(
                content,
            ) && holds_region(files[record.path], record.id, content)
        }
}

/// Whether each derived file of a project in this state holds what it is derived to.
pub open spec fn derived_current(
    inputs: InputsModel,
    snapshot: SnapshotModel,
    state: StateModel,
    files: Map<Seq<char>, Seq<char>>,
) -> bool {
    derived_paths(inputs.catalog, selected_of(state)) matches Ok(paths) && forall|i: int|
        0 <= i < paths.len() ==> files.contains_key(#[trigger] paths[i]) && project_derived(
            inputs,
            (SnapshotModel { state, ..snapshot }),
            paths[i],
            selected_of(state),
        ) == Ok::<Seq<char>, ManagerFailure>(files[paths[i]])
}

/// Once a plan for a healthy project was applied, each recorded region holds what the new
/// selection calls for, and each of its derived files holds what it is derived to. The hashes of
/// regions have to fit into markers, and no application template may stand where a derived file
/// does.
pub proof fn lemma_change_takes_effect(
    inputs: InputsModel,
    snapshot: SnapshotModel,
    files: Seq<ProjectFile>,
    target: Result<(StateModel, Map<Seq<char>, Seq<char>>), Seq<char>>,
    action: PlanAction,
    requested: Option<Seq<char>>,
)
    requires
        is_healthy(inputs, snapshot, files),
        selection_outcome(inputs, snapshot, files, target, action, requested) matches Ok(
            PlanOutcome::Change { state, .. },
        ) ==> hashes_fit(inputs.catalog, snapshot.release, selected_of(state)) && (derived_paths(
            inputs.catalog,
            selected_of(state),
        ) matches Ok(paths) ==> forall|i: int|
            0 <= i < paths.len() ==> !is_template_path(inputs.catalog, #[trigger] paths[i])),
    ensures
        selection_outcome(inputs, snapshot, files, target, action, requested) matches Ok(
            PlanOutcome::Change { state, steps, .. },
        ) ==> (applied(snapshot.files, in_order(steps), in_order(steps).len() as int) matches Ok(
            after,
        ) ==> regions_current(inputs, snapshot, selected_of(state), after) && derived_current(
            inputs,
            snapshot,
            state,
            after,
        )),
{
    let outcome = selection_outcome(inputs, snapshot, files, target, action, requested);
    if let Ok(PlanOutcome::Change { state: last_state, added, removed, steps, preserved: _ }) =
        outcome {
        lemma_healthy(inputs, snapshot, files);
        let set = next_selection(inputs, snapshot.state, action, requested)->Ok_0;
        let before = selected_of(snapshot.state);
        let state = state_after(
            inputs.catalog,
            snapshot.state,
            action,
            requested,
            listing(set),
            added,
            removed,
        )->Ok_0;
        let templates = added_template_plan(
            inputs,
            snapshot,
            state,
            added,
            added.len() as int,
        )->Ok_0;
        lemma_template_steps(inputs, snapshot, state, added, added.len() as int);
        let after = selected_of(templates.0);
        let regions = region_plan(inputs, snapshot, files, before, after, templates.0)->Ok_0;
        let places = concerned_places(
            inputs.catalog,
            files,
            templates.0,
            before,
            after,
        )->Ok_0;
        let paths = place_paths(places);
        lemma_places(places);
        lemma_region_steps(
            inputs,
            snapshot,
            after,
            templates.0,
            places,
            paths,
            paths.len() as int,
        );
        assert(paths.take(paths.len() as int) =~= paths);
        let derived = derived_plan(inputs, snapshot, before, after, regions.0)->Ok_0;
        let before_paths = derived_paths(inputs.catalog, before)->Ok_0;
        let after_paths = derived_paths(inputs.catalog, after)->Ok_0;
        let list = listing(before_paths.to_set().union(after_paths.to_set()));
        lemma_union_listing(before_paths, after_paths);
        lemma_derived_steps(
            inputs,
            snapshot,
            before,
            after,
            before_paths,
            after_paths,
            regions.0,
            list,
            list.len() as int,
        );
        assert(module_ids_of(last_state) =~= module_ids_of(templates.0));
        assert(keeps_project(derived.0, state));
        let recorded = StateModel {
            modules: selected_pairs(composition(inputs.catalog, listing(set))->Ok_0),
            ..snapshot.state
        };
        assert(module_ids_of(recorded) =~= module_ids_of(last_state));
        assert(selected_of(last_state) == after);
        let none = Seq::<PlanStep>::empty();
        assert(steps =~= templates.1 + regions.1 + derived.1);
        assert(hashes_fit(inputs.catalog, snapshot.release, after));
        if let Ok(result) = applied(snapshot.files, in_order(steps), in_order(steps).len() as int) {
            assert forall|i: int| 0 <= i < snapshot.state.regions.len() implies {
                let record = #[trigger] snapshot.state.regions[i];
                &&& result.contains_key(record.path)
                &&& region_text(inputs.catalog, record.id, after, snapshot.release) matches Ok(
                    content,
                ) && holds_region(result[record.path], record.id, content)
            } by {
                let record = snapshot.state.regions[i];
                lemma_region_owner(inputs, snapshot, files, i);
                let known = recorded_places(templates.0.regions);
                assert(known[i] == (record.path, record.id));
                lemma_concerned(
                    inputs.catalog,
                    files,
                    templates.0,
                    before,
                    after,
                    (record.path, record.id),
                );
                let place = choose|place: int|
                    0 <= place < places.len() && places[place] == (record.path, record.id);
                assert(paths.contains(places[place].0));
                let at = choose|at: int| 0 <= at < paths.len() && paths[at] == record.path;
                let text = lemma_regions_settle(
                    inputs,
                    snapshot,
                    after,
                    templates.0,
                    places,
                    paths,
                    paths.len() as int,
                    at,
                );
                assert(snapshot.files.contains_key(paths[at]));
                lemma_settles_among(
                    snapshot.files,
                    templates.1,
                    regions.1,
                    derived.1,
                    record.path,
                    text,
                );
                lemma_settles(snapshot.files, steps, record.path, text);
                let ids = place_regions(places, record.path);
                let k = choose|k: int| 0 <= k < ids.len() && ids[k] == record.id;
                assert(place_regions(places, paths[at])[k] == record.id);
            }
            let next = SnapshotModel { state: last_state, ..snapshot };
            let dependencies = dependencies_of(inputs.catalog, after)->Ok_0;
            lemma_own_volumes(dependencies, snapshot.state.retained_volumes);
            assert forall|i: int| 0 <= i < after_paths.len() implies result.contains_key(
                #[trigger] after_paths[i],
            ) && project_derived(inputs, next, after_paths[i], after) == Ok::<
                Seq<char>,
                ManagerFailure,
            >(result[after_paths[i]]) by {
                let path = after_paths[i];
                assert(project_derived(inputs, next, path, after) == project_derived(
                    inputs,
                    snapshot,
                    path,
                    after,
                ));
                assert(after_paths.contains(path));
                let at = choose|at: int| 0 <= at < list.len() && list[at] == path;
                lemma_derived_settle(
                    inputs,
                    snapshot,
                    before,
                    after,
                    before_paths,
                    after_paths,
                    regions.0,
                    list,
                    list.len() as int,
                    at,
                );
                let text = project_derived(inputs, snapshot, path, after)->Ok_0;
                let first = templates.1 + regions.1;
                assert forall|j: int| 0 <= j < first.len() implies (
                #[trigger] first[j]).target() != path by {
                    if j < templates.1.len() {
                        assert(first[j] == templates.1[j]);
                        assert(is_template_path(inputs.catalog, templates.1[j].target()));
                    } else {
                        let step = regions.1[j - templates.1.len()];
                        assert(first[j] == step);
                        assert(paths.contains(step.target()));
                        if step.target() == path {
                            let k = choose|k: int| 0 <= k < paths.len() && paths[k] == path;
                            assert(snapshot.files.contains_key(paths[k]));
                            let id = place_regions(places, paths[k])[0];
                            let records = snapshot.state.regions;
                            lemma_place_stays(records, records, path, id, 0);
                            lemma_region_owner(
                                inputs,
                                snapshot,
                                files,
                                record_place(records, path, id, 0),
                            );
                        }
                    }
                }
                lemma_settles_among(snapshot.files, first, derived.1, none, path, text);
                assert(first + derived.1 + none =~= steps);
                lemma_settles(snapshot.files, steps, path, text);
            }
        }
    }
}

/// A change concerns every region that the state records.
proof fn lemma_concerned(
    catalog: ModuleCatalog,
    files: Seq<ProjectFile>,
    state: StateModel,
    before: Seq<Seq<char>>,
    after: Seq<Seq<char>>,
    place: PlaceModel,
)
    requires
        recorded_places(state.regions).contains(place),
    ensures
        concerned_places(catalog, files, state, before, after) matches Ok(places)
            ==> places.contains(place),
{
    if let Ok(places) = concerned_places(catalog, files, state, before, after) {
        let ids = listing(before.to_set().union(after.to_set()));
        let list = reference_list(catalog, ids, ids.len() as int)->Ok_0;
        let references = sorted_listing::<String>(list);
        lemma_recorded_concern(
            recorded_places(state.regions),
            files,
            references,
            references.len() as int,
            place,
        );
    }
}

} // verus!
