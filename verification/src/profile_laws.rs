//! What a plan that sets a profile comes to, and where plans write the state.

use vstd::prelude::*;
use vstd::string::*;

use crate::application_templates::ApplicationTemplateDescriptor;
use crate::catalog::resolved;
use crate::diagnosis::InputsModel;
use crate::file_map::ProjectFile;
use crate::management::{ManagerFailure, PlanAction, PlanStep, SnapshotModel};
use crate::module_resolution::composition;
use crate::modules::ModuleCatalog;
use crate::ordered::{ascending, lemma_listing_exists, sorted_listing};
use crate::plan_derived::paths_derived_plan;
use crate::plan_files::{added_template_plan, module_template_plan};
use crate::plan_laws::{all_safe, is_safe, lemma_phases_in_order, lemma_plan_is_safe};
use crate::plan_regions::{
    concerned_places, paths_region_plan, place_paths, place_regions, regions_reconciled, PlaceModel,
};
use crate::plan_selection::{next_selection, only_in, selected_pairs, state_after};
use crate::plan_settled::{lemma_listing_holds, lemma_selection_stays};
use crate::planning::{
    base_plan, change_plan, completed, in_order, plan_outcome, state_steps, PlanDraft, PlanOutcome,
    PlannedChange,
};
use crate::release::ReleaseModel;
use crate::rendering::derived_paths;
use crate::sealing::{
    is_final_write, lemma_state_place, lock_steps, staging_defect, state_place, SealKind,
};
use crate::selection::{lemma_listing, listing};
use crate::state::{module_ids_of, selected_of, StateModel};
use crate::text::texts;

verus! {

// The selection.
/// Whether two states record the same selection: the service, its modules, profile, providers and
/// retained volumes.
pub open spec fn same_selection(left: StateModel, right: StateModel) -> bool {
    &&& left.service == right.service
    &&& left.modules == right.modules
    &&& left.profile == right.profile
    &&& left.providers == right.providers
    &&& left.retained_volumes == right.retained_volumes
}

proof fn lemma_module_templates_keep(
    templates: Seq<ApplicationTemplateDescriptor>,
    snapshot: SnapshotModel,
    state: StateModel,
    id: Seq<char>,
    paths: Seq<Seq<char>>,
    count: int,
)
    ensures
        module_template_plan(templates, snapshot, state, id, paths, count) matches Ok(plan)
            ==> same_selection(plan.0, state),
    decreases count,
{
    if count > 0 {
        lemma_module_templates_keep(templates, snapshot, state, id, paths, count - 1);
    }
}

pub(crate) proof fn lemma_templates_keep(
    inputs: InputsModel,
    snapshot: SnapshotModel,
    state: StateModel,
    added: Seq<Seq<char>>,
    count: int,
)
    ensures
        added_template_plan(inputs, snapshot, state, added, count) matches Ok(plan)
            ==> same_selection(plan.0, state),
    decreases count,
{
    if count > 0 {
        lemma_templates_keep(inputs, snapshot, state, added, count - 1);
        if let Ok(before) = added_template_plan(inputs, snapshot, state, added, count - 1) {
            if let Some(module) = inputs.catalog.find(added[count - 1]) {
                lemma_module_templates_keep(
                    inputs.templates,
                    snapshot,
                    before.0,
                    added[count - 1],
                    texts(module.application_templates@),
                    module.application_templates@.len() as int,
                );
            }
        }
    }
}

proof fn lemma_regions_keep(
    catalog: ModuleCatalog,
    release: ReleaseModel,
    after: Seq<Seq<char>>,
    state: StateModel,
    path: Seq<char>,
    contents: Seq<char>,
    ids: Seq<Seq<char>>,
    count: int,
)
    ensures
        regions_reconciled(catalog, release, after, state, path, contents, ids, count) matches Ok(
            outcome,
        ) ==> same_selection(outcome.0, state),
    decreases count,
{
    if count > 0 {
        lemma_regions_keep(catalog, release, after, state, path, contents, ids, count - 1);
    }
}

proof fn lemma_region_paths_keep(
    inputs: InputsModel,
    snapshot: SnapshotModel,
    after: Seq<Seq<char>>,
    state: StateModel,
    places: Seq<PlaceModel>,
    paths: Seq<Seq<char>>,
    count: int,
)
    ensures
        paths_region_plan(inputs, snapshot, after, state, places, paths, count) matches Ok(plan)
            ==> same_selection(plan.0, state),
    decreases count,
{
    if count > 0 {
        lemma_region_paths_keep(inputs, snapshot, after, state, places, paths, count - 1);
        if let Ok(before) = paths_region_plan(
            inputs,
            snapshot,
            after,
            state,
            places,
            paths,
            count - 1,
        ) {
            let path = paths[count - 1];
            let ids = place_regions(places, path);
            lemma_regions_keep(
                inputs.catalog,
                snapshot.release,
                after,
                before.0,
                path,
                snapshot.files[path],
                ids,
                ids.len() as int,
            );
        }
    }
}

proof fn lemma_derived_keep(
    inputs: InputsModel,
    snapshot: SnapshotModel,
    before: Seq<Seq<char>>,
    after: Seq<Seq<char>>,
    before_paths: Seq<Seq<char>>,
    after_paths: Seq<Seq<char>>,
    state: StateModel,
    paths: Seq<Seq<char>>,
    count: int,
)
    ensures
        paths_derived_plan(
            inputs,
            snapshot,
            before,
            after,
            before_paths,
            after_paths,
            state,
            paths,
            count,
        ) matches Ok(plan) ==> same_selection(plan.0, state),
    decreases count,
{
    if count > 0 {
        lemma_derived_keep(
            inputs,
            snapshot,
            before,
            after,
            before_paths,
            after_paths,
            state,
            paths,
            count - 1,
        );
    }
}

/// Planning the changes of files keeps the selection that the state records.
pub proof fn lemma_change_keeps_selection(
    inputs: InputsModel,
    snapshot: SnapshotModel,
    files: Seq<ProjectFile>,
    target: Result<(StateModel, Map<Seq<char>, Seq<char>>), Seq<char>>,
    before: Seq<Seq<char>>,
    added: Seq<Seq<char>>,
    removed: Seq<Seq<char>>,
    state: StateModel,
)
    ensures
        change_plan(inputs, snapshot, files, target, before, added, removed, state) matches Ok(
            change,
        ) ==> same_selection(change.0, state),
{
    if let Ok(change) = change_plan(
        inputs,
        snapshot,
        files,
        target,
        before,
        added,
        removed,
        state,
    ) {
        let base = base_plan(snapshot, target, state)->Ok_0;
        lemma_templates_keep(inputs, snapshot, base.0, added, added.len() as int);
        let next = added_template_plan(
            inputs,
            snapshot,
            base.0,
            added,
            added.len() as int,
        )->Ok_0.0;
        let after = selected_of(next);
        let places = concerned_places(inputs.catalog, files, next, before, after)->Ok_0;
        let paths = place_paths(places);
        lemma_region_paths_keep(
            inputs,
            snapshot,
            after,
            next,
            places,
            paths,
            paths.len() as int,
        );
        let regions = paths_region_plan(
            inputs,
            snapshot,
            after,
            next,
            places,
            paths,
            paths.len() as int,
        )->Ok_0.0;
        let before_paths = derived_paths(inputs.catalog, before)->Ok_0;
        let after_paths = derived_paths(inputs.catalog, after)->Ok_0;
        let all = listing(before_paths.to_set().union(after_paths.to_set()));
        lemma_derived_keep(
            inputs,
            snapshot,
            before,
            after,
            before_paths,
            after_paths,
            regions,
            all,
            all.len() as int,
        );
    }
}

proof fn lemma_rest(left: Seq<Seq<char>>, right: Seq<Seq<char>>) -> (rest: Seq<Seq<char>>)
    ensures
        forall|id: Seq<char>| #[trigger]
            rest.contains(id) <==> left.contains(id) && !right.contains(id),
    decreases left.len(),
{
    if left.len() == 0 {
        left
    } else {
        let fewer = left.drop_last();
        let last = left.last();
        let before = lemma_rest(fewer, right);
        let rest = if right.contains(last) {
            before
        } else {
            before.push(last)
        };
        assert forall|id: Seq<char>| #[trigger] rest.contains(id) <==> left.contains(id)
            && !right.contains(id) by {
            assert(before.contains(id) <==> fewer.contains(id) && !right.contains(id));
            assert(left =~= fewer.push(last));
            if rest.contains(id) && !before.contains(id) {
                let k = choose|k: int| 0 <= k < rest.len() && rest[k] == id;
                if k < before.len() {
                    assert(before[k] == id);
                }
                assert(id == last);
                assert(left[left.len() - 1] == id);
            }
            if before.contains(id) {
                let k = choose|k: int| 0 <= k < before.len() && before[k] == id;
                assert(rest[k] == id);
                let m = choose|m: int| 0 <= m < fewer.len() && fewer[m] == id;
                assert(left[m] == id);
            }
            if left.contains(id) && !right.contains(id) && !before.contains(id) {
                let m = choose|m: int| 0 <= m < left.len() && left[m] == id;
                if m < fewer.len() {
                    assert(fewer[m] == id);
                }
                assert(id == last);
                assert(rest[before.len() as int] == id);
            }
        }
        rest
    }
}

/// The strings of a list that another does not hold, in order.
pub(crate) proof fn lemma_only_in(left: Seq<Seq<char>>, right: Seq<Seq<char>>)
    ensures
        ascending::<String>(only_in(left.to_set(), right.to_set())),
        forall|id: Seq<char>| #[trigger]
            only_in(left.to_set(), right.to_set()).contains(id) <==> left.contains(id)
                && !right.contains(id),
{
    let rest = lemma_rest(left, right);
    let wanted = left.to_set().difference(right.to_set());
    let sorted = sorted_listing::<String>(rest);
    lemma_listing_exists::<String>(rest);
    assert forall|id: Seq<char>| sorted.to_set().contains(id) <==> wanted.contains(id) by {
        assert(sorted.contains(id) <==> rest.contains(id));
    }
    assert(sorted.to_set() =~= wanted);
    lemma_listing(sorted);
    assert(only_in(left.to_set(), right.to_set()) == sorted);
}

// The state.
/// Whether the state is written last: no step but the last one writes it.
pub open spec fn state_is_last(list: Seq<PlanStep>) -> bool {
    forall|i: int| 0 <= i < list.len() - 1 ==> !((#[trigger] list[i]) is WriteState)
}

proof fn lemma_ordered_member(list: Seq<PlanStep>, at: int) -> (from: int)
    requires
        0 <= at < in_order(list).len(),
    ensures
        0 <= from < list.len(),
        list[from] == in_order(list)[at],
{
    lemma_phases_in_order(list);
    let sorted = in_order(list);
    sorted.to_multiset_ensures();
    list.to_multiset_ensures();
    assert(sorted.contains(sorted[at]));
    assert(list.to_multiset().count(sorted[at]) > 0);
    choose|k: int| 0 <= k < list.len() && list[k] == sorted[at]
}

/// Of steps that do not write the state and the change of the state, ordering puts the latter last.
proof fn lemma_ordered_state(changes: Seq<PlanStep>, current: Seq<char>, content: Seq<char>)
    requires
        forall|i: int| 0 <= i < changes.len() ==> !((#[trigger] changes[i]) is WriteState),
    ensures
        ({
            let list = in_order(changes + state_steps(current, content));
            &&& list.len() == changes.len() + state_steps(current, content).len()
            &&& state_is_last(list)
            &&& if content == current {
                forall|i: int| 0 <= i < list.len() ==> !((#[trigger] list[i]) is WriteState)
            } else {
                list.last() == state_steps(current, content)[0]
            }
        }),
{
    let all = changes + state_steps(current, content);
    let list = in_order(all);
    lemma_phases_in_order(all);
    if content == current {
        assert(all =~= changes);
        assert forall|i: int| 0 <= i < list.len() implies !((#[trigger] list[i]) is WriteState) by {
            let from = lemma_ordered_member(all, i);
            assert(changes[from] == list[i]);
        }
    } else {
        let state = state_steps(current, content)[0];
        let last = list.len() - 1;
        assert(all[changes.len() as int] == state);
        all.to_multiset_ensures();
        list.to_multiset_ensures();
        assert(all.contains(state));
        assert(list.to_multiset().count(state) > 0);
        let at = choose|k: int| 0 <= k < list.len() && list[k] == state;
        let from = lemma_ordered_member(all, last);
        assert(list[at].phase() <= list[last].phase());
        if from < changes.len() {
            assert(!(changes[from] is WriteState));
            assert(list[last].phase() < 5);
        }
        assert(list[last] == state);
        assert forall|i: int| 0 <= i < last implies !((#[trigger] list[i]) is WriteState) by {
            if list[i] is WriteState {
                let place = lemma_ordered_member(all, i);
                assert(list[i] == state) by {
                    if place < changes.len() {
                        assert(!(changes[place] is WriteState));
                    }
                }
                lemma_counted_twice(list, i, last);
                lemma_counted_once(changes, state);
                assert(all =~= changes.push(state));
                broadcast use vstd::seq_lib::group_to_multiset_ensures;

                assert(all.to_multiset().count(state) == 1);
            }
        }
    }
}

proof fn lemma_counted_once(changes: Seq<PlanStep>, state: PlanStep)
    requires
        forall|i: int| 0 <= i < changes.len() ==> #[trigger] changes[i] != state,
    ensures
        changes.to_multiset().count(state) == 0,
{
    changes.to_multiset_ensures();
    if changes.to_multiset().count(state) > 0 {
        assert(changes.contains(state));
    }
}

proof fn lemma_counted_twice(list: Seq<PlanStep>, left: int, right: int)
    requires
        0 <= left < right < list.len(),
        list[left] == list[right],
    ensures
        list.to_multiset().count(list[left]) >= 2,
{
    let rest = list.remove(right);
    let step = list[right];
    assert(rest[left] == step);
    assert(rest.contains(step));
    rest.to_multiset_ensures();
    assert(rest.to_multiset().count(step) > 0);
    assert(list =~= rest.insert(right, step));
    vstd::seq_lib::to_multiset_insert(rest, right, step);
}

/// Whatever the request, a finished plan writes the state exactly where its text changes, once,
/// and behind every other step.
pub proof fn lemma_state_is_written_last(
    inputs: InputsModel,
    snapshot: SnapshotModel,
    files: Seq<ProjectFile>,
    target: Result<(StateModel, Map<Seq<char>, Seq<char>>), Seq<char>>,
    action: PlanAction,
    requested: Option<Seq<char>>,
    draft: PlanDraft,
    current: Seq<char>,
    content: Seq<char>,
)
    requires
        plan_outcome(inputs, snapshot, files, target, action, requested) == Ok::<
            PlanOutcome,
            ManagerFailure,
        >(PlannedChange::Draft(draft).outcome()),
    ensures
        ({
            let plan = completed(draft, current, content);
            &&& state_is_last(plan.steps)
            &&& content == current ==> forall|i: int|
                0 <= i < plan.steps.len() ==> !((#[trigger] plan.steps[i]) is WriteState)
            &&& content != current ==> plan.steps.len() > 0 && plan.steps.last() == state_steps(
                current,
                content,
            )[0]
        }),
{
    lemma_plan_is_safe(inputs, snapshot, files, target, action, requested);
    let changes = crate::management::steps(draft.operations@);
    assert(all_safe(snapshot, changes));
    assert forall|i: int| 0 <= i < changes.len() implies !((#[trigger] changes[i]) is WriteState) by {
        assert(is_safe(snapshot, changes[i]));
    }
    lemma_ordered_state(changes, current, content);
}

/// A sealed plan that changes something ends with the state, and writes it nowhere else.
pub proof fn lemma_sealed_state_is_last(
    list: Seq<PlanStep>,
    kind: SealKind,
    current: Seq<u8>,
    resolved_lock: Seq<u8>,
)
    requires
        staging_defect(list, kind) is None,
    ensures
        ({
            let place = state_place(list, 0);
            let sealed = list.remove(place) + lock_steps(current, resolved_lock) + seq![list[place]];
            state_is_last(sealed) && sealed.last() is WriteState
        }),
{
    lemma_state_place(list, 0);
    let place = state_place(list, 0);
    let rest = list.remove(place);
    let locks = lock_steps(current, resolved_lock);
    let sealed = rest + locks + seq![list[place]];
    assert forall|i: int| 0 <= i < sealed.len() - 1 implies !((#[trigger] sealed[i]) is WriteState) by {
        if i < rest.len() {
            assert(!is_final_write(rest[i]));
            assert(sealed[i] == rest[i]);
        } else {
            assert(sealed[i] == locks[i - rest.len()]);
        }
    }
}

// The law.
/// A finished plan that sets a profile adds exactly the modules of the profile that were not
/// selected and removes exactly the selected ones that are not of the profile, each in order. The
/// next state selects exactly the modules of the profile and records it without additions and
/// removals. No step but the last one writes the state.
pub proof fn lemma_profile_set(
    inputs: InputsModel,
    snapshot: SnapshotModel,
    files: Seq<ProjectFile>,
    target: Result<(StateModel, Map<Seq<char>, Seq<char>>), Seq<char>>,
    profile: Seq<char>,
    draft: PlanDraft,
    current: Seq<char>,
    content: Seq<char>,
)
    requires
        plan_outcome(
            inputs,
            snapshot,
            files,
            target,
            PlanAction::ProfileSet,
            Some(profile),
        ) == Ok::<PlanOutcome, ManagerFailure>(PlannedChange::Draft(draft).outcome()),
    ensures
        resolved(inputs.profiles, inputs.catalog, profile) matches Ok(model) && {
            let plan = completed(draft, current, content);
            let next = draft.next_state@;
            let before = module_ids_of(snapshot.state);
            &&& ascending::<String>(plan.added)
            &&& forall|id: Seq<char>| #[trigger]
                plan.added.contains(id) <==> model.modules.contains(id) && !before.contains(id)
            &&& ascending::<String>(plan.removed)
            &&& forall|id: Seq<char>| #[trigger]
                plan.removed.contains(id) <==> before.contains(id) && !model.modules.contains(id)
            &&& selected_of(next) == sorted_listing::<String>(model.modules)
            &&& next.profile.id == profile
            &&& next.profile.additions.len() == 0
            &&& next.profile.removals.len() == 0
            &&& state_is_last(plan.steps)
            &&& content != current ==> plan.steps.len() > 0 && plan.steps.last() is WriteState
        },
{
    let action = PlanAction::ProfileSet;
    let requested = Some(profile);
    lemma_state_is_written_last(
        inputs,
        snapshot,
        files,
        target,
        action,
        requested,
        draft,
        current,
        content,
    );
    let model = resolved(inputs.profiles, inputs.catalog, profile)->Ok_0;
    let set = next_selection(inputs, snapshot.state, action, requested)->Ok_0;
    assert(set == model.modules.to_set());
    let before = selected_of(snapshot.state);
    let ids = module_ids_of(snapshot.state);
    lemma_listing_exists::<String>(ids);
    lemma_only_in(model.modules, before);
    lemma_only_in(before, model.modules);
    let added = only_in(set, before.to_set());
    let removed = only_in(before.to_set(), set);
    assert forall|id: Seq<char>| #[trigger] added.contains(id) <==> model.modules.contains(id)
        && !ids.contains(id) by {
        assert(before.contains(id) <==> ids.contains(id));
    }
    assert forall|id: Seq<char>| #[trigger] removed.contains(id) <==> ids.contains(id)
        && !model.modules.contains(id) by {
        assert(before.contains(id) <==> ids.contains(id));
    }
    lemma_listing_holds(model.modules);
    lemma_listing_exists::<String>(model.modules);
    let after = listing(set);
    assert(ascending::<String>(after));
    lemma_selection_stays(inputs.catalog, after);
    let state = state_after(
        inputs.catalog,
        snapshot.state,
        action,
        requested,
        after,
        added,
        removed,
    )->Ok_0;
    assert(state.modules == selected_pairs(composition(inputs.catalog, after)->Ok_0));
    assert(selected_of(state) == after);
    lemma_change_keeps_selection(
        inputs,
        snapshot,
        files,
        target,
        before,
        added,
        removed,
        state,
    );
    let next = draft.next_state@;
    assert(next.modules == state.modules);
    assert(module_ids_of(next) == module_ids_of(state));
    let none = Seq::<Seq<char>>::empty();
    lemma_listing_exists::<String>(none);
    let sorted = sorted_listing::<String>(none);
    if sorted.len() > 0 {
        assert(sorted.contains(sorted[0]));
        assert(none.contains(sorted[0]));
    }
}

} // verus!
