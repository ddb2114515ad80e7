//! What holds of every plan.

use vstd::prelude::*;
use vstd::utf8::*;

use crate::application_templates::ApplicationTemplateDescriptor;
use crate::diagnosis::{is_migratable, text_hash, InputsModel};
use crate::file_map::ProjectFile;
use crate::management::{step_rank, PlanAction, PlanStep, SnapshotModel};
use crate::ordered::{lemma_precedes_irreflexive, lemma_precedes_transitive, precedes};
use crate::plan_derived::{derived_plan, kept_derived, paths_derived_plan, retired};
use crate::plan_files::{
    added_template_plan, kit_listing, module_template_plan, owner_place, release_step,
    release_steps, removal_step, removal_steps, template_plan, template_steps,
};
use crate::plan_regions::{
    concerned_places, file_region_plan, paths_region_plan, place_paths, place_regions, region_plan,
    PlaceModel,
};
use crate::planning::{base_plan, change_plan, in_order, selection_outcome, PlanOutcome};
use crate::sealing::applied;
use crate::sorting::{arranged, value_place};
use crate::state::{owner_of, selected_of, OwnershipKind, OwnershipModel, StateModel};
use crate::text::texts;

verus! {

// Order.
proof fn lemma_value_place<M>(
    list: Seq<M>,
    rank_of: spec_fn(M) -> Seq<u32>,
    rank: Seq<u32>,
    at: int,
)
    requires
        0 <= at <= list.len(),
    ensures
        at <= value_place(list, rank_of, rank, at) <= list.len(),
        forall|i: int|
            at <= i < value_place(list, rank_of, rank, at) ==> !precedes(
                rank,
                rank_of(#[trigger] list[i]),
            ),
        value_place(list, rank_of, rank, at) < list.len() ==> precedes(
            rank,
            rank_of(list[value_place(list, rank_of, rank, at)]),
        ),
    decreases list.len() - at,
{
    if at < list.len() && !precedes(rank, rank_of(list[at])) {
        lemma_value_place(list, rank_of, rank, at + 1);
    }
}

/// Arranging values keeps them, and puts them in the order of their ranks.
pub proof fn lemma_arranged_in_order<M>(list: Seq<M>, rank_of: spec_fn(M) -> Seq<u32>, count: int)
    requires
        0 <= count <= list.len(),
    ensures
        arranged(list, rank_of, count).len() == count,
        arranged(list, rank_of, count).to_multiset() == list.take(count).to_multiset(),
        forall|i: int, j: int|
            0 <= i < j < count ==> !precedes(
                rank_of(#[trigger] arranged(list, rank_of, count)[j]),
                rank_of(#[trigger] arranged(list, rank_of, count)[i]),
            ),
    decreases count,
{
    broadcast use vstd::seq_lib::group_to_multiset_ensures;

    if count > 0 {
        lemma_arranged_in_order(list, rank_of, count - 1);
        let before = arranged(list, rank_of, count - 1);
        let item = list[count - 1];
        let rank = rank_of(item);
        lemma_value_place(before, rank_of, rank, 0);
        let place = value_place(before, rank_of, rank, 0);
        let after = before.insert(place, item);
        assert(arranged(list, rank_of, count) == after);
        assert forall|i: int, j: int| 0 <= i < j < count implies !precedes(
            rank_of(#[trigger] after[j]),
            rank_of(#[trigger] after[i]),
        ) by {
            if j < place {
                assert(after[i] == before[i] && after[j] == before[j]);
            } else if j == place {
                assert(after[i] == before[i]);
            } else if i < place {
                assert(after[i] == before[i] && after[j] == before[j - 1]);
            } else if i == place {
                assert(after[j] == before[j - 1]);
                if precedes(rank_of(after[j]), rank) {
                    lemma_precedes_transitive(rank_of(after[j]), rank, rank_of(before[place]));
                    if j - 1 == place {
                        lemma_precedes_irreflexive(rank_of(before[place]));
                    }
                }
            } else {
                assert(after[i] == before[i - 1] && after[j] == before[j - 1]);
            }
        }
        assert(list.take(count) =~= list.take(count - 1).push(item));
        vstd::seq_lib::to_multiset_insert(before, place, item);
    } else {
        assert(list.take(0) =~= Seq::<M>::empty());
    }
}

/// Ordering steps gives the same steps, and no step comes after one of a later phase. The state is
/// committed after every other step.
pub proof fn lemma_phases_in_order(list: Seq<PlanStep>)
    ensures
        in_order(list).len() == list.len(),
        in_order(list).to_multiset() == list.to_multiset(),
        forall|i: int, j: int|
            0 <= i < j < list.len() ==> (#[trigger] in_order(list)[i]).phase() <= (
            #[trigger] in_order(list)[j]).phase(),
{
    let sorted = in_order(list);
    lemma_arranged_in_order(list, step_rank(), list.len() as int);
    assert(list.take(list.len() as int) =~= list);
    assert forall|i: int, j: int| 0 <= i < j < list.len() implies (#[trigger] sorted[i]).phase() <= (
    #[trigger] sorted[j]).phase() by {
        let left = step_rank()(sorted[i]);
        let right = step_rank()(sorted[j]);
        assert(left[0] == sorted[i].phase() && right[0] == sorted[j].phase());
        assert(left.len() > 0 && right.len() > 0);
        if sorted[i].phase() > sorted[j].phase() {
            assert(precedes(right, left));
        }
    }
}

// Safety.
/// Whether one of the records of a path is of a kind.
pub open spec fn some_owner(
    records: Seq<OwnershipModel>,
    path: Seq<char>,
    kind: OwnershipKind,
) -> bool {
    exists|i: int|
        0 <= i < records.len() && (#[trigger] records[i]).path == path && records[i].kind == kind
}

/// Whether a step expects what a project holds and leaves the application's files alone: it
/// creates files only where there is none, replaces and removes only files of the kit and derived
/// files, and changes another file only inside its managed regions.
pub open spec fn is_safe(snapshot: SnapshotModel, step: PlanStep) -> bool {
    let files = snapshot.files;
    let owned = snapshot.state.ownership;
    match step {
        PlanStep::CreateFile { path, content_hash, content } => !files.contains_key(path)
            && content_hash == text_hash(content),
        PlanStep::ReplaceKitFile { path, expected_hash, content_hash, content } => {
            &&& files.contains_key(path)
            &&& expected_hash == text_hash(files[path])
            &&& content_hash == text_hash(content)
            &&& some_owner(owned, path, OwnershipKind::KitOwned)
        },
        PlanStep::ReconcileRegions { path, expected_hash, content_hash, region_ids, content } => {
            &&& files.contains_key(path)
            &&& expected_hash == text_hash(files[path])
            &&& content_hash == text_hash(content)
        },
        PlanStep::RegenerateDerived { path, expected_hash, content_hash, content } => {
            &&& content_hash == text_hash(content)
            &&& match expected_hash {
                Some(hash) => {
                    &&& files.contains_key(path)
                    &&& hash == text_hash(files[path])
                    &&& owner_of(owned, path) == Some(OwnershipKind::Derived) || is_migratable(
                        snapshot,
                        path,
                        files[path],
                    )
                },
                None => !files.contains_key(path),
            }
        },
        PlanStep::RemoveFile { path, expected_hash } => {
            &&& files.contains_key(path)
            &&& expected_hash == text_hash(files[path])
            &&& some_owner(owned, path, OwnershipKind::KitOwned) || owner_of(owned, path) == Some(
                OwnershipKind::Derived,
            )
        },
        _ => false,
    }
}

/// Whether all steps are safe.
pub open spec fn all_safe(snapshot: SnapshotModel, list: Seq<PlanStep>) -> bool {
    forall|i: int| 0 <= i < list.len() ==> is_safe(snapshot, #[trigger] list[i])
}

proof fn lemma_safe_join(snapshot: SnapshotModel, left: Seq<PlanStep>, right: Seq<PlanStep>)
    requires
        all_safe(snapshot, left),
        all_safe(snapshot, right),
    ensures
        all_safe(snapshot, left + right),
{
    assert forall|i: int| 0 <= i < (left + right).len() implies is_safe(
        snapshot,
        #[trigger] (left + right)[i],
    ) by {
        if i < left.len() {
            assert((left + right)[i] == left[i]);
        } else {
            assert((left + right)[i] == right[i - left.len()]);
        }
    }
}

proof fn lemma_owner_place(records: Seq<OwnershipModel>, path: Seq<char>, at: int)
    requires
        0 <= at <= records.len(),
    ensures
        at <= owner_place(records, path, at) <= records.len(),
        owner_place(records, path, at) < records.len() ==> records[owner_place(
            records,
            path,
            at,
        )].path == path,
    decreases records.len() - at,
{
    if at < records.len() && records[at].path != path {
        lemma_owner_place(records, path, at + 1);
    }
}

proof fn lemma_removals_safe(snapshot: SnapshotModel, target: Seq<OwnershipModel>, count: int)
    requires
        0 <= count <= snapshot.state.ownership.len(),
    ensures
        removal_steps(snapshot, target, count) matches Ok(list) ==> all_safe(snapshot, list),
    decreases count,
{
    if count > 0 {
        lemma_removals_safe(snapshot, target, count - 1);
        let record = snapshot.state.ownership[count - 1];
        if let Ok(before) = removal_steps(snapshot, target, count - 1) {
            if let Ok(more) = removal_step(snapshot, target, record) {
                assert(all_safe(snapshot, more)) by {
                    if more.len() > 0 {
                        assert(snapshot.state.ownership[count - 1].path == record.path);
                        assert(some_owner(
                            snapshot.state.ownership,
                            record.path,
                            OwnershipKind::KitOwned,
                        ));
                    }
                }
                lemma_safe_join(snapshot, before, more);
            }
        }
    }
}

proof fn lemma_releases_safe(
    snapshot: SnapshotModel,
    files: Map<Seq<char>, Seq<char>>,
    records: Seq<OwnershipModel>,
    count: int,
)
    requires
        0 <= count <= records.len(),
    ensures
        release_steps(snapshot, files, records, count) matches Ok(list) ==> all_safe(
            snapshot,
            list,
        ),
    decreases count,
{
    if count > 0 {
        lemma_releases_safe(snapshot, files, records, count - 1);
        let record = records[count - 1];
        if let Ok(before) = release_steps(snapshot, files, records, count - 1) {
            if let Ok(more) = release_step(snapshot, files, record) {
                let owned = snapshot.state.ownership;
                lemma_owner_place(owned, record.path, 0);
                let place = owner_place(owned, record.path, 0);
                assert(all_safe(snapshot, more)) by {
                    if place < owned.len() {
                        assert(owned[place].path == record.path);
                    }
                }
                lemma_safe_join(snapshot, before, more);
            }
        }
    }
}

proof fn lemma_module_templates_safe(
    templates: Seq<ApplicationTemplateDescriptor>,
    snapshot: SnapshotModel,
    state: StateModel,
    id: Seq<char>,
    paths: Seq<Seq<char>>,
    count: int,
)
    ensures
        module_template_plan(templates, snapshot, state, id, paths, count) matches Ok(plan)
            ==> all_safe(snapshot, plan.1),
    decreases count,
{
    if count > 0 {
        lemma_module_templates_safe(templates, snapshot, state, id, paths, count - 1);
        if let Ok(before) = module_template_plan(
            templates,
            snapshot,
            state,
            id,
            paths,
            count - 1,
        ) {
            if let Ok(more) = template_steps(templates, snapshot, id, paths[count - 1]) {
                assert(all_safe(snapshot, more));
                lemma_safe_join(snapshot, before.1, more);
            }
        }
    }
}

proof fn lemma_templates_safe(
    inputs: InputsModel,
    snapshot: SnapshotModel,
    state: StateModel,
    added: Seq<Seq<char>>,
    count: int,
)
    ensures
        added_template_plan(inputs, snapshot, state, added, count) matches Ok(plan) ==> all_safe(
            snapshot,
            plan.1,
        ),
    decreases count,
{
    if count > 0 {
        lemma_templates_safe(inputs, snapshot, state, added, count - 1);
        if let Ok(before) = added_template_plan(inputs, snapshot, state, added, count - 1) {
            if let Some(module) = inputs.catalog.find(added[count - 1]) {
                let paths = texts(module.application_templates@);
                let total = module.application_templates@.len() as int;
                lemma_module_templates_safe(
                    inputs.templates,
                    snapshot,
                    before.0,
                    added[count - 1],
                    paths,
                    total,
                );
                if let Ok(more) = module_template_plan(
                    inputs.templates,
                    snapshot,
                    before.0,
                    added[count - 1],
                    paths,
                    total,
                ) {
                    lemma_safe_join(snapshot, before.1, more.1);
                }
            }
        }
    }
}

proof fn lemma_regions_safe(
    inputs: InputsModel,
    snapshot: SnapshotModel,
    after: Seq<Seq<char>>,
    state: StateModel,
    places: Seq<PlaceModel>,
    paths: Seq<Seq<char>>,
    count: int,
)
    ensures
        paths_region_plan(inputs, snapshot, after, state, places, paths, count) matches Ok(plan)
            ==> all_safe(snapshot, plan.1),
    decreases count,
{
    if count > 0 {
        lemma_regions_safe(inputs, snapshot, after, state, places, paths, count - 1);
        if let Ok(before) = paths_region_plan(
            inputs,
            snapshot,
            after,
            state,
            places,
            paths,
            count - 1,
        ) {
            if let Ok(more) = file_region_plan(
                inputs,
                snapshot,
                after,
                before.0,
                paths[count - 1],
                place_regions(places, paths[count - 1]),
            ) {
                assert(all_safe(snapshot, more.1));
                lemma_safe_join(snapshot, before.1, more.1);
            }
        }
    }
}

proof fn lemma_derived_safe(
    inputs: InputsModel,
    snapshot: SnapshotModel,
    before: Seq<Seq<char>>,
    after: Seq<Seq<char>>,
    before_paths: Seq<Seq<char>>,
    after_paths: Seq<Seq<char>>,
    state: StateModel,
    paths: Seq<Seq<char>>,
    count: int,
)
    ensures
        paths_derived_plan(
            inputs,
            snapshot,
            before,
            after,
            before_paths,
            after_paths,
            state,
            paths,
            count,
        ) matches Ok(plan) ==> all_safe(snapshot, plan.1),
    decreases count,
{
    if count > 0 {
        lemma_derived_safe(
            inputs,
            snapshot,
            before,
            after,
            before_paths,
            after_paths,
            state,
            paths,
            count - 1,
        );
        if let Ok(earlier) = paths_derived_plan(
            inputs,
            snapshot,
            before,
            after,
            before_paths,
            after_paths,
            state,
            paths,
            count - 1,
        ) {
            let path = paths[count - 1];
            let outcome = if after_paths.contains(path) {
                kept_derived(inputs, snapshot, before, after, before_paths, earlier.0, path)
            } else {
                retired(inputs, snapshot, before, earlier.0, path)
            };
            if let Ok(more) = outcome {
                assert(all_safe(snapshot, more.1));
                lemma_safe_join(snapshot, earlier.1, more.1);
            }
        }
    }
}

/// Every step of a plan expects what the project holds, and none touches a file of the
/// application but inside its managed regions, whatever the request. In particular planning
/// writes neither the lockfile nor the state.
pub proof fn lemma_plan_is_safe(
    inputs: InputsModel,
    snapshot: SnapshotModel,
    files: Seq<ProjectFile>,
    target: Result<(StateModel, Map<Seq<char>, Seq<char>>), Seq<char>>,
    action: PlanAction,
    requested: Option<Seq<char>>,
)
    ensures
        selection_outcome(inputs, snapshot, files, target, action, requested) matches Ok(
            PlanOutcome::Change { steps, .. },
        ) ==> all_safe(snapshot, steps),
{
    if let Ok(PlanOutcome::Change { state: _, added, removed, steps, preserved: _ }) =
        selection_outcome(inputs, snapshot, files, target, action, requested) {
        let before = selected_of(snapshot.state);
        let state = crate::plan_selection::state_after(
            inputs.catalog,
            snapshot.state,
            action,
            requested,
            crate::selection::listing(
                crate::plan_selection::next_selection(
                    inputs,
                    snapshot.state,
                    action,
                    requested,
                )->Ok_0,
            ),
            added,
            removed,
        )->Ok_0;
        lemma_change_is_safe(inputs, snapshot, files, target, before, added, removed, state);
    }
}

proof fn lemma_change_is_safe(
    inputs: InputsModel,
    snapshot: SnapshotModel,
    files: Seq<ProjectFile>,
    target: Result<(StateModel, Map<Seq<char>, Seq<char>>), Seq<char>>,
    before: Seq<Seq<char>>,
    added: Seq<Seq<char>>,
    removed: Seq<Seq<char>>,
    state: StateModel,
)
    ensures
        change_plan(inputs, snapshot, files, target, before, added, removed, state) matches Ok(
            change,
        ) ==> all_safe(snapshot, change.1),
{
    if let Ok(change) = change_plan(
        inputs,
        snapshot,
        files,
        target,
        before,
        added,
        removed,
        state,
    ) {
        let base = base_plan(snapshot, target, state)->Ok_0;
        if snapshot.state.framework != snapshot.release {
            let project = target->Ok_0;
            let kept = kit_listing(project.0.ownership);
            lemma_removals_safe(
                snapshot,
                project.0.ownership,
                snapshot.state.ownership.len() as int,
            );
            lemma_releases_safe(snapshot, project.1, kept, kept.len() as int);
            lemma_safe_join(
                snapshot,
                removal_steps(
                    snapshot,
                    project.0.ownership,
                    snapshot.state.ownership.len() as int,
                )->Ok_0,
                release_steps(snapshot, project.1, kept, kept.len() as int)->Ok_0,
            );
        }
        let templates = template_plan(inputs, snapshot, base.0, added, removed)->Ok_0;
        lemma_templates_safe(inputs, snapshot, base.0, added, added.len() as int);
        let after = selected_of(templates.0);
        let regions = region_plan(inputs, snapshot, files, before, after, templates.0)->Ok_0;
        let places = concerned_places(inputs.catalog, files, templates.0, before, after)->Ok_0;
        let paths = place_paths(places);
        lemma_regions_safe(
            inputs,
            snapshot,
            after,
            templates.0,
            places,
            paths,
            paths.len() as int,
        );
        let before_paths = crate::rendering::derived_paths(inputs.catalog, before)->Ok_0;
        let after_paths = crate::rendering::derived_paths(inputs.catalog, after)->Ok_0;
        let all = crate::selection::listing(before_paths.to_set().union(after_paths.to_set()));
        lemma_derived_safe(
            inputs,
            snapshot,
            before,
            after,
            before_paths,
            after_paths,
            regions.0,
            all,
            all.len() as int,
        );
        let derived = derived_plan(inputs, snapshot, before, after, regions.0)->Ok_0;
        lemma_safe_join(snapshot, base.1, templates.1);
        lemma_safe_join(snapshot, base.1 + templates.1, regions.1);
        lemma_safe_join(snapshot, base.1 + templates.1 + regions.1, derived.1);
    }
}

// Application.
/// Applying steps changes nothing but their targets.
pub proof fn lemma_only_targets_change(
    files: Map<Seq<char>, Seq<char>>,
    list: Seq<PlanStep>,
    count: int,
    path: Seq<char>,
)
    requires
        0 <= count <= list.len(),
        forall|i: int| 0 <= i < count ==> (#[trigger] list[i]).target() != path,
    ensures
        applied(files, list, count) matches Ok(after) ==> {
            &&& after.contains_key(path) == files.contains_key(path)
            &&& files.contains_key(path) ==> after[path] == files[path]
        },
    decreases count,
{
    if count > 0 {
        lemma_only_targets_change(files, list, count - 1, path);
        assert(list[count - 1].target() != path);
    }
}

/// Applying steps leaves at every target what the last step there writes, or nothing where that
/// step removes it.
pub proof fn lemma_last_write_stays(
    files: Map<Seq<char>, Seq<char>>,
    list: Seq<PlanStep>,
    at: int,
    count: int,
)
    requires
        0 <= at < count <= list.len(),
        forall|i: int| at < i < count ==> (#[trigger] list[i]).target() != list[at].target(),
    ensures
        applied(files, list, count) matches Ok(after) ==> match list[at].bytes() {
            Some(bytes) => after.contains_key(list[at].target()) && encode_utf8(
                after[list[at].target()],
            ) == bytes,
            None => !after.contains_key(list[at].target()),
        },
    decreases count,
{
    if count > at + 1 {
        lemma_last_write_stays(files, list, at, count - 1);
        assert(list[count - 1].target() != list[at].target());
    }
}

} // verus!
