//! What a request to add or remove comes to: the selection after it, and the record of it.

use vstd::prelude::*;
use vstd::string::*;

use crate::catalog::{profile_place, resolved};
use crate::diagnosis::InputsModel;
use crate::file_map::ProjectFile;
use crate::management::{ManagerFailure, PlanAction, SnapshotModel};
use crate::module_resolution::{
    composed, composition, ids_in, is_ready, leads_to, lemma_added, lemma_removed,
    needed_descriptors, one_round_of,
};
use crate::modules::{ModuleCatalog, ModuleDefinition, RuntimeDependencyDescriptor};
use crate::ordered::{ascending, lemma_listing_exists, sorted_listing};
use crate::plan_selection::{
    all_added, first_place, moved, next_selection, profile_after, recorded_providers,
    selected_pairs, state_after, with_volumes, without_profile,
};
use crate::plan_settled::{lemma_listing_holds, lemma_selection_stays};
use crate::planning::{plan_outcome, PlanOutcome};
use crate::profile_laws::{lemma_change_keeps_selection, lemma_only_in};
use crate::selection::{collect, collect_each, listing, selection_defect};
use crate::state::{module_ids_of, selected_of, StateModel};
use crate::text::texts;

verus! {

// Profiles.
/// Whether the profile at `at` is the one that a request names: no module has the identifier, and
/// no earlier profile.
pub open spec fn asks_for_profile(inputs: InputsModel, requested: Seq<char>, at: int) -> bool {
    &&& inputs.catalog.find(requested) is None
    &&& 0 <= at < inputs.profiles.len()
    &&& inputs.profiles[at].id@ == requested
    &&& forall|i: int| 0 <= i < at ==> (#[trigger] inputs.profiles[i]).id@ != requested
}

proof fn lemma_profile_found(inputs: InputsModel, requested: Seq<char>, at: int, from: int)
    requires
        asks_for_profile(inputs, requested, at),
        0 <= from <= at,
    ensures
        profile_place(inputs.profiles, requested, from) == at,
    decreases at - from,
{
    if from < at {
        lemma_profile_found(inputs, requested, at, from + 1);
    }
}

proof fn lemma_without(
    before: Set<Seq<char>>,
    modules: Seq<Seq<char>>,
    state: StateModel,
    requested: Seq<char>,
    count: int,
)
    requires
        0 <= count <= modules.len(),
    ensures
        forall|m: Seq<char>| #[trigger]
            without_profile(before, modules, state, requested, count).contains(m)
                <==> before.contains(m) && !(modules.take(count).contains(m) && (state.profile.id
                == requested || state.profile.additions.contains(m))),
    decreases count,
{
    if count > 0 {
        lemma_without(before, modules, state, requested, count - 1);
        let few = modules.take(count - 1);
        let more = modules.take(count);
        let rest = without_profile(before, modules, state, requested, count - 1);
        assert forall|m: Seq<char>| #[trigger] without_profile(
            before,
            modules,
            state,
            requested,
            count,
        ).contains(m) <==> before.contains(m) && !(more.contains(m) && (state.profile.id
            == requested || state.profile.additions.contains(m))) by {
            assert(rest.contains(m) <==> before.contains(m) && !(few.contains(m) && (
            state.profile.id == requested || state.profile.additions.contains(m))));
            if more.contains(m) {
                let k = choose|k: int| 0 <= k < more.len() && more[k] == m;
                if k < few.len() {
                    assert(few[k] == m);
                }
            }
            if few.contains(m) {
                let k = choose|k: int| 0 <= k < few.len() && few[k] == m;
                assert(more[k] == m);
            }
            assert(more[count - 1] == modules[count - 1]);
        }
    } else {
        assert(modules.take(0) =~= Seq::<Seq<char>>::empty());
    }
}

/// Removing a profile takes out of the selection exactly those of the modules that the profile
/// declares that came with it: all of them where the project is on that profile, and otherwise
/// those that are recorded as additions. It fails only where the rest is no valid selection.
pub proof fn lemma_profile_removal(
    inputs: InputsModel,
    state: StateModel,
    requested: Seq<char>,
    at: int,
)
    requires
        asks_for_profile(inputs, requested, at),
    ensures
        ({
            let own = texts(inputs.profiles[at].modules@);
            let before = module_ids_of(state);
            match next_selection(inputs, state, PlanAction::Remove, Some(requested)) {
                Ok(after) => {
                    &&& forall|m: Seq<char>| #[trigger]
                        after.contains(m) <==> before.contains(m) && !(own.contains(m) && (
                        state.profile.id == requested || state.profile.additions.contains(m)))
                    &&& selection_defect(inputs.catalog, listing(after)) is None
                },
                Err(failure) => exists|after: Set<Seq<char>>|
                    {
                        &&& #[trigger] selection_defect(inputs.catalog, listing(after)) is Some
                        &&& failure == ManagerFailure::Catalog(
                            selection_defect(inputs.catalog, listing(after))->Some_0,
                        )
                        &&& forall|m: Seq<char>| #[trigger]
                            after.contains(m) <==> before.contains(m) && !(own.contains(m) && (
                            state.profile.id == requested || state.profile.additions.contains(m)))
                    },
            }
        }),
{
    lemma_profile_found(inputs, requested, at, 0);
    let own = texts(inputs.profiles[at].modules@);
    let before = selected_of(state);
    let count = own.len() as int;
    let after = without_profile(before.to_set(), own, state, requested, count);
    lemma_without(before.to_set(), own, state, requested, count);
    assert(own.take(count) =~= own);
    lemma_listing_exists::<String>(module_ids_of(state));
    assert forall|m: Seq<char>| #[trigger] after.contains(m) <==> module_ids_of(state).contains(m)
        && !(own.contains(m) && (state.profile.id == requested
        || state.profile.additions.contains(m))) by {
        assert(before.contains(m) <==> module_ids_of(state).contains(m));
    }
    if selection_defect(inputs.catalog, listing(after)) is Some {
        assert(next_selection(inputs, state, PlanAction::Remove, Some(requested)) is Err);
    }
}

proof fn lemma_all_added(
    catalog: ModuleCatalog,
    before: Set<Seq<char>>,
    modules: Seq<Seq<char>>,
    count: int,
)
    requires
        0 <= count <= modules.len(),
    ensures
        all_added(catalog, before, modules, count) matches Ok(after) ==> {
            &&& before.subset_of(after)
            &&& forall|i: int| 0 <= i < count ==> after.contains(#[trigger] modules[i])
            &&& forall|m: Seq<char>|
                #![trigger after.contains(m)]
                after.contains(m) ==> before.contains(m) || exists|i: int|
                    0 <= i < count && (m == #[trigger] modules[i] || leads_to(
                        catalog,
                        modules[i],
                        m,
                    ))
            &&& count > 0 ==> selection_defect(catalog, listing(after)) is None
        },
    decreases count,
{
    if count > 0 {
        lemma_all_added(catalog, before, modules, count - 1);
        if let Ok(after) = all_added(catalog, before, modules, count) {
            let middle = all_added(catalog, before, modules, count - 1)->Ok_0;
            let last = modules[count - 1];
            lemma_added(catalog, middle, last);
            assert(middle.subset_of(after));
            assert forall|m: Seq<char>|
                #![trigger after.contains(m)]
                after.contains(m) implies before.contains(m) || exists|i: int|
                0 <= i < count && (m == #[trigger] modules[i] || leads_to(
                    catalog,
                    modules[i],
                    m,
                )) by {
                if middle.contains(m) {
                    if !before.contains(m) {
                        let i = choose|i: int|
                            0 <= i < count - 1 && (m == #[trigger] modules[i] || leads_to(
                                catalog,
                                modules[i],
                                m,
                            ));
                        assert(m == modules[i] || leads_to(catalog, modules[i], m));
                    }
                } else {
                    assert(m == modules[count - 1] || leads_to(catalog, modules[count - 1], m));
                }
            }
        }
    }
}

/// Adding a profile keeps the selection, selects every module of the profile, inherited ones too,
/// and adds nothing beside these and what their prerequisites lead to.
pub proof fn lemma_profile_addition(
    inputs: InputsModel,
    state: StateModel,
    requested: Seq<char>,
    at: int,
)
    requires
        asks_for_profile(inputs, requested, at),
    ensures
        next_selection(inputs, state, PlanAction::Add, Some(requested)) matches Ok(after) ==> (
        resolved(inputs.profiles, inputs.catalog, requested) matches Ok(profile) && {
            let before = module_ids_of(state);
            &&& forall|m: Seq<char>| #[trigger] before.contains(m) ==> after.contains(m)
            &&& forall|i: int|
                0 <= i < profile.modules.len() ==> after.contains(#[trigger] profile.modules[i])
            &&& forall|m: Seq<char>|
                #![trigger after.contains(m)]
                after.contains(m) ==> before.contains(m) || exists|i: int|
                    0 <= i < profile.modules.len() && (m == #[trigger] profile.modules[i]
                        || leads_to(inputs.catalog, profile.modules[i], m))
        }),
        next_selection(inputs, state, PlanAction::Add, Some(requested)) is Err && resolved(
            inputs.profiles,
            inputs.catalog,
            requested,
        ) is Ok ==> resolved(
            inputs.profiles,
            inputs.catalog,
            requested,
        )->Ok_0.modules.len() > 0,
{
    lemma_profile_found(inputs, requested, at, 0);
    if let Ok(profile) = resolved(inputs.profiles, inputs.catalog, requested) {
        let before = selected_of(state);
        lemma_all_added(
            inputs.catalog,
            before.to_set(),
            profile.modules,
            profile.modules.len() as int,
        );
        lemma_listing_exists::<String>(module_ids_of(state));
        if let Ok(after) = next_selection(inputs, state, PlanAction::Add, Some(requested)) {
            assert forall|m: Seq<char>| #[trigger] module_ids_of(state).contains(
                m,
            ) implies after.contains(m) by {
                assert(before.contains(m));
                assert(before.to_set().contains(m));
            }
            assert forall|m: Seq<char>|
                #![trigger after.contains(m)]
                after.contains(m) implies module_ids_of(state).contains(m) || exists|i: int|
                0 <= i < profile.modules.len() && (m == #[trigger] profile.modules[i]
                    || leads_to(inputs.catalog, profile.modules[i], m)) by {
                if before.to_set().contains(m) {
                    assert(before.contains(m));
                }
            }
        }
    }
}

/// A request for a module: adding it keeps the selection, selects it, and adds nothing beside it and
/// what its prerequisites lead to; removing it takes out that module alone. The result is a valid
/// selection.
pub proof fn lemma_module_request(inputs: InputsModel, state: StateModel, requested: Seq<char>)
    requires
        inputs.catalog.find(requested) is Some,
    ensures
        next_selection(inputs, state, PlanAction::Add, Some(requested)) matches Ok(after) ==> {
            let before = module_ids_of(state);
            &&& after.contains(requested)
            &&& forall|m: Seq<char>| #[trigger] before.contains(m) ==> after.contains(m)
            &&& forall|m: Seq<char>|
                #![trigger after.contains(m)]
                after.contains(m) ==> before.contains(m) || m == requested || leads_to(
                    inputs.catalog,
                    requested,
                    m,
                )
            &&& selection_defect(inputs.catalog, listing(after)) is None
        },
        next_selection(inputs, state, PlanAction::Remove, Some(requested)) matches Ok(after)
            ==> forall|m: Seq<char>| #[trigger]
            after.contains(m) <==> module_ids_of(state).contains(m) && m != requested,
{
    let before = selected_of(state);
    lemma_listing_exists::<String>(module_ids_of(state));
    lemma_added(inputs.catalog, before.to_set(), requested);
    lemma_removed(inputs.catalog, before, requested);
    assert forall|m: Seq<char>| before.to_set().contains(m) <==> #[trigger] module_ids_of(
        state,
    ).contains(m) by {
        assert(before.contains(m) <==> module_ids_of(state).contains(m));
    }
    if let Ok(after) = next_selection(inputs, state, PlanAction::Remove, Some(requested)) {
        assert forall|m: Seq<char>| #[trigger] after.contains(m) <==> module_ids_of(
            state,
        ).contains(m) && m != requested by {
            assert(before.to_set().remove(requested).contains(m) <==> before.to_set().contains(m)
                && m != requested);
            assert(before.to_set().contains(m) <==> module_ids_of(state).contains(m));
        }
    }
    if let Ok(after) = next_selection(inputs, state, PlanAction::Add, Some(requested)) {
        assert forall|m: Seq<char>|
            #![trigger after.contains(m)]
            after.contains(m) implies module_ids_of(state).contains(m) || m == requested
            || leads_to(inputs.catalog, requested, m) by {
            assert(before.to_set().contains(m) <==> module_ids_of(state).contains(m));
        }
    }
}

// The record.
proof fn lemma_first_place(list: Seq<Seq<char>>, text: Seq<char>, at: int)
    requires
        0 <= at <= list.len(),
    ensures
        at <= first_place(list, text, at) <= list.len(),
        first_place(list, text, at) < list.len() ==> list[first_place(list, text, at)] == text,
        first_place(list, text, at) == list.len() ==> forall|i: int|
            at <= i < list.len() ==> #[trigger] list[i] != text,
    decreases list.len() - at,
{
    if at < list.len() && list[at] != text {
        lemma_first_place(list, text, at + 1);
    }
}

proof fn lemma_taken_out(list: Seq<Seq<char>>, at: int)
    requires
        list.no_duplicates(),
        0 <= at < list.len(),
    ensures
        list.remove(at).no_duplicates(),
        forall|m: Seq<char>| #[trigger]
            list.remove(at).contains(m) <==> list.contains(m) && m != list[at],
{
    let rest = list.remove(at);
    assert forall|m: Seq<char>| #[trigger] rest.contains(m) <==> list.contains(m) && m
        != list[at] by {
        if rest.contains(m) {
            let k = choose|k: int| 0 <= k < rest.len() && rest[k] == m;
            let from = if k < at {
                k
            } else {
                k + 1
            };
            assert(list[from] == m);
        }
        if list.contains(m) && m != list[at] {
            let k = choose|k: int| 0 <= k < list.len() && list[k] == m;
            if k < at {
                assert(rest[k] == m);
            } else {
                assert(rest[k - 1] == m);
            }
        }
    }
}

proof fn lemma_moved(
    front: Seq<Seq<char>>,
    back: Seq<Seq<char>>,
    ids: Seq<Seq<char>>,
    count: int,
)
    requires
        back.no_duplicates(),
        ids.no_duplicates(),
        0 <= count <= ids.len(),
    ensures
        moved(front, back, ids, count).1.no_duplicates(),
        forall|m: Seq<char>| #[trigger]
            moved(front, back, ids, count).0.contains(m) <==> front.contains(m) || (ids.take(
                count,
            ).contains(m) && !back.contains(m)),
        forall|m: Seq<char>| #[trigger]
            moved(front, back, ids, count).1.contains(m) <==> back.contains(m) && !ids.take(
                count,
            ).contains(m),
    decreases count,
{
    if count > 0 {
        lemma_moved(front, back, ids, count - 1);
        let lists = moved(front, back, ids, count - 1);
        let now = moved(front, back, ids, count);
        let few = ids.take(count - 1);
        let more = ids.take(count);
        let id = ids[count - 1];
        assert(!few.contains(id)) by {
            if few.contains(id) {
                let k = choose|k: int| 0 <= k < few.len() && few[k] == id;
                assert(ids[k] == ids[count - 1]);
            }
        }
        assert forall|m: Seq<char>| #[trigger] more.contains(m) <==> few.contains(m) || m == id by {
            if more.contains(m) {
                let k = choose|k: int| 0 <= k < more.len() && more[k] == m;
                if k < few.len() {
                    assert(few[k] == m);
                }
            }
            if few.contains(m) {
                let k = choose|k: int| 0 <= k < few.len() && few[k] == m;
                assert(more[k] == m);
            }
            assert(more[count - 1] == id);
        }
        let place = first_place(lists.1, id, 0);
        lemma_first_place(lists.1, id, 0);
        if place < lists.1.len() {
            lemma_taken_out(lists.1, place);
            assert(lists.1.contains(id));
            assert forall|m: Seq<char>| #[trigger] now.1.contains(m) <==> back.contains(m)
                && !more.contains(m) by {
                assert(lists.1.contains(m) <==> back.contains(m) && !few.contains(m));
                assert(more.contains(m) <==> few.contains(m) || m == id);
            }
            assert forall|m: Seq<char>| #[trigger] now.0.contains(m) <==> front.contains(m) || (
            more.contains(m) && !back.contains(m)) by {
                assert(more.contains(m) <==> few.contains(m) || m == id);
            }
        } else {
            assert(!lists.1.contains(id));
            assert(!back.contains(id));
            assert forall|m: Seq<char>| #[trigger] now.1.contains(m) <==> back.contains(m)
                && !more.contains(m) by {
                assert(more.contains(m) <==> few.contains(m) || m == id);
            }
            assert forall|m: Seq<char>| #[trigger] now.0.contains(m) <==> front.contains(m) || (
            more.contains(m) && !back.contains(m)) by {
                assert(more.contains(m) <==> few.contains(m) || m == id);
                if !lists.0.contains(id) {
                    assert(now.0 == lists.0.push(id));
                    if lists.0.contains(m) {
                        let k = choose|k: int| 0 <= k < lists.0.len() && lists.0[k] == m;
                        assert(now.0[k] == m);
                    }
                    if now.0.contains(m) && m != id {
                        let k = choose|k: int| 0 <= k < now.0.len() && now.0[k] == m;
                        assert(lists.0[k] == m);
                    }
                    assert(now.0[lists.0.len() as int] == id);
                }
            }
        }
    } else {
        assert(ids.take(0) =~= Seq::<Seq<char>>::empty());
    }
}

proof fn lemma_ascending_is_distinct(list: Seq<Seq<char>>)
    requires
        ascending::<String>(list),
    ensures
        list.no_duplicates(),
{
    crate::ordered::lemma_ascending_distinct::<String>(list);
}

proof fn lemma_volumes(
    retained: Seq<Seq<char>>,
    list: Seq<RuntimeDependencyDescriptor>,
    count: int,
)
    requires
        0 <= count <= list.len(),
    ensures
        forall|v: Seq<char>| #[trigger]
            with_volumes(retained, list, count).contains(v) <==> retained.contains(v) || exists|
                i: int,
            |
                0 <= i < count && (#[trigger] list[i] matches RuntimeDependencyDescriptor::Compose {
                    volume,
                    ..
                } && volume@ == v),
    decreases count,
{
    if count > 0 {
        lemma_volumes(retained, list, count - 1);
        let before = with_volumes(retained, list, count - 1);
        let now = with_volumes(retained, list, count);
        assert forall|v: Seq<char>| #[trigger] now.contains(v) <==> retained.contains(v) || exists|
            i: int,
        |
            0 <= i < count && (#[trigger] list[i] matches RuntimeDependencyDescriptor::Compose {
                volume,
                ..
            } && volume@ == v) by {
            assert(before.contains(v) <==> retained.contains(v) || exists|i: int|
                0 <= i < count - 1 && (#[trigger] list[i] matches
                    RuntimeDependencyDescriptor::Compose { volume, .. } && volume@ == v));
            if before.contains(v) && now.len() > before.len() {
                let k = choose|k: int| 0 <= k < before.len() && before[k] == v;
                assert(now[k] == v);
            }
            if now.contains(v) && !before.contains(v) {
                let k = choose|k: int| 0 <= k < now.len() && now[k] == v;
                assert(k == before.len()) by {
                    if k < before.len() {
                        assert(before[k] == v);
                    }
                }
                assert(list[count - 1] is Compose);
            }
            if let RuntimeDependencyDescriptor::Compose { volume, .. } = list[count - 1] {
                if volume@ == v && !before.contains(v) {
                    assert(now[before.len() as int] == v);
                }
            }
        }
    }
}

pub(crate) proof fn lemma_needed(catalog: ModuleCatalog, selected: Seq<Seq<char>>, count: int)
    requires
        0 <= count <= catalog.runtime_dependencies@.len(),
    ensures
        forall|item: RuntimeDependencyDescriptor| #[trigger]
            needed_descriptors(catalog, selected, count).contains(item) <==> exists|i: int|
                0 <= i < count && (#[trigger] catalog.runtime_dependencies@[i]) == item
                    && needs(catalog, selected, item),
    decreases count,
{
    let now = needed_descriptors(catalog, selected, count);
    if count > 0 {
        lemma_needed(catalog, selected, count - 1);
        let before = needed_descriptors(catalog, selected, count - 1);
        let last = catalog.runtime_dependencies@[count - 1];
        assert forall|item: RuntimeDependencyDescriptor| #[trigger] now.contains(item)
            <==> exists|i: int|
            0 <= i < count && (#[trigger] catalog.runtime_dependencies@[i]) == item && needs(
                catalog,
                selected,
                item,
            ) by {
            assert(before.contains(item) <==> exists|i: int|
                0 <= i < count - 1 && (#[trigger] catalog.runtime_dependencies@[i]) == item
                    && needs(catalog, selected, item));
            if now != before {
                assert(now == before.push(last));
                if before.contains(item) {
                    let k = choose|k: int| 0 <= k < before.len() && before[k] == item;
                    assert(now[k] == item);
                }
                if now.contains(item) && item != last {
                    let k = choose|k: int| 0 <= k < now.len() && now[k] == item;
                    assert(before[k] == item);
                }
                assert(now[before.len() as int] == last);
            }
        }
    }
}

/// Whether a selected module needs a runtime dependency.
pub open spec fn needs(
    catalog: ModuleCatalog,
    selected: Seq<Seq<char>>,
    dependency: RuntimeDependencyDescriptor,
) -> bool {
    exists|i: int|
        0 <= i < selected.len() && (catalog.find(#[trigger] selected[i]) matches Some(module)
            && module.runtime_dependencies@.contains(dependency.dependency_id()))
}

proof fn lemma_recorded_providers(
    catalog: ModuleCatalog,
    modules: Seq<(Seq<char>, Seq<char>)>,
    count: int,
)
    requires
        0 <= count <= modules.len(),
    ensures
        forall|slot: Seq<char>, id: Seq<char>| #[trigger]
            recorded_providers(catalog, modules, count).contains((slot, id)) <==> exists|i: int|
                0 <= i < count && (#[trigger] modules[i]).0 == id && fills(catalog, id, slot),
    decreases count,
{
    let now = recorded_providers(catalog, modules, count);
    if count > 0 {
        lemma_recorded_providers(catalog, modules, count - 1);
        let before = recorded_providers(catalog, modules, count - 1);
        assert forall|slot: Seq<char>, id: Seq<char>| #[trigger] now.contains((slot, id))
            <==> exists|i: int|
            0 <= i < count && (#[trigger] modules[i]).0 == id && fills(catalog, id, slot) by {
            assert(before.contains((slot, id)) <==> exists|i: int|
                0 <= i < count - 1 && (#[trigger] modules[i]).0 == id && fills(catalog, id, slot));
            if now != before {
                if before.contains((slot, id)) {
                    let k = choose|k: int| 0 <= k < before.len() && before[k] == (slot, id);
                    assert(now[k] == (slot, id));
                }
                if now.contains((slot, id)) && !before.contains((slot, id)) {
                    let k = choose|k: int| 0 <= k < now.len() && now[k] == (slot, id);
                    if k < before.len() {
                        assert(before[k] == (slot, id));
                    }
                    assert(modules[count - 1].0 == id && fills(catalog, id, slot));
                }
                assert(now[before.len() as int].1 == modules[count - 1].0);
            }
        }
    }
}

/// Whether a module fills a provider slot.
pub open spec fn fills(catalog: ModuleCatalog, id: Seq<char>, slot: Seq<char>) -> bool {
    catalog.find(id) matches Some(module) && (module.provider_slot matches Some(own) && own@
        == slot)
}

/// Whatever the request, the next state of a plan that changes something records exactly the
/// selection that the request leads to: each module with the version of the catalog, each filled
/// provider slot, and the volumes that were retained before and those of every selected Compose
/// service. The lists of added and removed modules are what the two selections differ in.
pub proof fn lemma_request_is_recorded(
    inputs: InputsModel,
    snapshot: SnapshotModel,
    files: Seq<ProjectFile>,
    target: Result<(StateModel, Map<Seq<char>, Seq<char>>), Seq<char>>,
    action: PlanAction,
    requested: Option<Seq<char>>,
)
    ensures
        plan_outcome(inputs, snapshot, files, target, action, requested) matches Ok(
            PlanOutcome::Change { state, added: new_ids, removed: old_ids, .. },
        ) ==> (next_selection(inputs, snapshot.state, action, requested) matches Ok(set) && {
            let before = module_ids_of(snapshot.state);
            let after = module_ids_of(state);
            &&& state.service == snapshot.state.service
            &&& state.framework == snapshot.release
            &&& forall|m: Seq<char>| #[trigger] set.contains(m) ==> after.contains(m)
            &&& forall|m: Seq<char>| #[trigger] after.contains(m) ==> set.contains(m)
            &&& ascending::<String>(new_ids)
            &&& ascending::<String>(old_ids)
            &&& forall|m: Seq<char>| #[trigger]
                new_ids.contains(m) <==> after.contains(m) && !before.contains(m)
            &&& forall|m: Seq<char>| #[trigger]
                old_ids.contains(m) <==> before.contains(m) && !after.contains(m)
            &&& forall|i: int|
                0 <= i < state.modules.len() ==> is_of_catalog(
                    inputs.catalog,
                    #[trigger] state.modules[i],
                )
            &&& forall|slot: Seq<char>, id: Seq<char>| #[trigger]
                state.providers.contains((slot, id)) <==> after.contains(id) && fills(
                    inputs.catalog,
                    id,
                    slot,
                )
            &&& forall|v: Seq<char>| #[trigger]
                state.retained_volumes.contains(v) <==> snapshot.state.retained_volumes.contains(v)
                    || exists|i: int|
                    0 <= i < inputs.catalog.runtime_dependencies@.len() && needs(
                        inputs.catalog,
                        after,
                        #[trigger] inputs.catalog.runtime_dependencies@[i],
                    ) && (inputs.catalog.runtime_dependencies@[i] matches
                        RuntimeDependencyDescriptor::Compose { volume, .. } && volume@ == v)
            &&& selection_defect(inputs.catalog, sorted_listing::<String>(after)) is None
        }),
{
    if let Ok(PlanOutcome::Change { state, added: new_ids, removed: old_ids, .. }) = plan_outcome(
        inputs,
        snapshot,
        files,
        target,
        action,
        requested,
    ) {
        let set = next_selection(inputs, snapshot.state, action, requested)->Ok_0;
        let before = selected_of(snapshot.state);
        let old_list = module_ids_of(snapshot.state);
        lemma_listing_exists::<String>(old_list);
        let list = lemma_set_listed(inputs, snapshot.state, action, requested);
        lemma_only_in(list, before);
        lemma_only_in(before, list);
        let chosen = sorted_listing::<String>(list);
        lemma_listing_holds(list);
        lemma_listing_exists::<String>(list);
        assert(listing(set) == chosen);
        lemma_selection_stays(inputs.catalog, chosen);
        let first = state_after(
            inputs.catalog,
            snapshot.state,
            action,
            requested,
            chosen,
            new_ids,
            old_ids,
        )->Ok_0;
        let defs = composition(inputs.catalog, chosen)->Ok_0;
        assert(first.modules == selected_pairs(defs));
        assert(selected_of(first) == chosen);
        lemma_change_keeps_selection(
            inputs,
            snapshot,
            files,
            target,
            before,
            new_ids,
            old_ids,
            first,
        );
        assert(state.modules == first.modules);
        let after = module_ids_of(state);
        assert(after == module_ids_of(first));
        lemma_listing_exists::<String>(after);
        assert(sorted_listing::<String>(after) == chosen);
        assert forall|m: Seq<char>| #[trigger] after.contains(m) <==> list.contains(m) by {
            assert(chosen.contains(m) <==> after.contains(m));
            assert(chosen.contains(m) <==> list.contains(m));
        }
        assert forall|m: Seq<char>| #[trigger] set.contains(m) implies after.contains(m) by {
            assert(list.to_set().contains(m));
        }
        assert forall|m: Seq<char>| #[trigger] after.contains(m) implies set.contains(m) by {
            assert(list.to_set().contains(m));
        }
        assert forall|m: Seq<char>| #[trigger] new_ids.contains(m) <==> after.contains(m)
            && !old_list.contains(m) by {
            assert(before.contains(m) <==> old_list.contains(m));
            assert(after.contains(m) <==> list.contains(m));
        }
        assert forall|m: Seq<char>| #[trigger] old_ids.contains(m) <==> old_list.contains(m)
            && !after.contains(m) by {
            assert(before.contains(m) <==> old_list.contains(m));
            assert(after.contains(m) <==> list.contains(m));
        }
        lemma_composed_versions(inputs.catalog, chosen, Seq::empty());
        assert forall|i: int| 0 <= i < state.modules.len() implies is_of_catalog(
            inputs.catalog,
            #[trigger] state.modules[i],
        ) by {
            assert(state.modules[i] == (defs[i].id@, defs[i].version@));
        }
        let total = first.modules.len() as int;
        lemma_recorded_providers(inputs.catalog, first.modules, total);
        assert(state.providers == recorded_providers(inputs.catalog, first.modules, total));
        assert forall|slot: Seq<char>, id: Seq<char>| #[trigger] state.providers.contains(
            (slot, id),
        ) <==> after.contains(id) && fills(inputs.catalog, id, slot) by {
            if after.contains(id) {
                let k = choose|k: int| 0 <= k < after.len() && after[k] == id;
                assert(first.modules[k].0 == id);
            }
            if exists|i: int| 0 <= i < total && (#[trigger] first.modules[i]).0 == id {
                let i = choose|i: int| 0 <= i < total && (#[trigger] first.modules[i]).0 == id;
                assert(after[i] == id);
            }
        }
        lemma_retained(inputs.catalog, snapshot.state, first, chosen, state.retained_volumes, after);
    }
}

/// Whether the catalog has a module of this identifier and version.
pub open spec fn is_of_catalog(catalog: ModuleCatalog, module: (Seq<char>, Seq<char>)) -> bool {
    exists|k: int|
        0 <= k < catalog.modules@.len() && (#[trigger] catalog.modules@[k]).id@ == module.0
            && catalog.modules@[k].version@ == module.1
}

proof fn lemma_round_versions(
    catalog: ModuleCatalog,
    selected: Seq<Seq<char>>,
    emitted: Seq<ModuleDefinition>,
    at: int,
)
    requires
        forall|i: int|
            0 <= i < emitted.len() ==> is_of_catalog(
                catalog,
                ((#[trigger] emitted[i]).id@, emitted[i].version@),
            ),
    ensures
        ({
            let next = one_round_of(catalog, selected, emitted, at);
            forall|i: int|
                0 <= i < next.len() ==> is_of_catalog(
                    catalog,
                    ((#[trigger] next[i]).id@, next[i].version@),
                )
        }),
    decreases catalog.modules@.len() - at,
{
    if 0 <= at < catalog.modules@.len() {
        let module = catalog.modules@[at];
        if is_ready(module, selected, ids_in(emitted)) {
            assert(is_of_catalog(catalog, (module.id@, module.version@)));
            lemma_round_versions(catalog, selected, emitted.push(module), at + 1);
        } else {
            lemma_round_versions(catalog, selected, emitted, at + 1);
        }
    }
}

proof fn lemma_composed_versions(
    catalog: ModuleCatalog,
    selected: Seq<Seq<char>>,
    emitted: Seq<ModuleDefinition>,
)
    requires
        forall|i: int|
            0 <= i < emitted.len() ==> is_of_catalog(
                catalog,
                ((#[trigger] emitted[i]).id@, emitted[i].version@),
            ),
    ensures
        composed(catalog, selected, emitted) matches Some(list) ==> forall|i: int|
            0 <= i < list.len() ==> is_of_catalog(
                catalog,
                ((#[trigger] list[i]).id@, list[i].version@),
            ),
    decreases (if selected.len() > emitted.len() {
        (selected.len() - emitted.len()) as nat
    } else {
        0nat
    }),
{
    if emitted.len() < selected.len() {
        let next = one_round_of(catalog, selected, emitted, 0);
        lemma_round_versions(catalog, selected, emitted, 0);
        if next.len() > emitted.len() {
            lemma_composed_versions(catalog, selected, next);
        }
    }
}

proof fn lemma_retained(
    catalog: ModuleCatalog,
    start: StateModel,
    first: StateModel,
    chosen: Seq<Seq<char>>,
    sorted: Seq<Seq<char>>,
    after: Seq<Seq<char>>,
)
    requires
        selection_defect(catalog, chosen) is None,
        first.retained_volumes == ({
            let list = needed_descriptors(
                catalog,
                chosen,
                catalog.runtime_dependencies@.len() as int,
            );
            with_volumes(start.retained_volumes, list, list.len() as int)
        }),
        sorted == sorted_listing::<String>(first.retained_volumes),
        forall|m: Seq<char>| #[trigger] chosen.contains(m) <==> after.contains(m),
    ensures
        forall|v: Seq<char>| #[trigger]
            sorted.contains(v) <==> start.retained_volumes.contains(v) || exists|i: int|
                0 <= i < catalog.runtime_dependencies@.len() && needs(
                    catalog,
                    after,
                    #[trigger] catalog.runtime_dependencies@[i],
                ) && (catalog.runtime_dependencies@[i] matches
                    RuntimeDependencyDescriptor::Compose { volume, .. } && volume@ == v),
{
    let total = catalog.runtime_dependencies@.len() as int;
    let list = needed_descriptors(catalog, chosen, total);
    lemma_needed(catalog, chosen, total);
    lemma_volumes(start.retained_volumes, list, list.len() as int);
    lemma_listing_exists::<String>(first.retained_volumes);
    assert forall|item: RuntimeDependencyDescriptor| needs(catalog, chosen, item) <==> #[trigger] needs(
        catalog,
        after,
        item,
    ) by {
        if needs(catalog, chosen, item) {
            let i = choose|i: int|
                0 <= i < chosen.len() && (catalog.find(#[trigger] chosen[i]) matches Some(module)
                    && module.runtime_dependencies@.contains(item.dependency_id()));
            assert(chosen.contains(chosen[i]));
            let k = choose|k: int| 0 <= k < after.len() && after[k] == chosen[i];
            assert(catalog.find(after[k]) is Some);
        }
        if needs(catalog, after, item) {
            let i = choose|i: int|
                0 <= i < after.len() && (catalog.find(#[trigger] after[i]) matches Some(module)
                    && module.runtime_dependencies@.contains(item.dependency_id()));
            assert(after.contains(after[i]));
            assert(chosen.contains(after[i]));
            let k = choose|k: int| 0 <= k < chosen.len() && chosen[k] == after[i];
            assert(catalog.find(chosen[k]) is Some);
        }
    }
    assert forall|v: Seq<char>| #[trigger] sorted.contains(v) <==> start.retained_volumes.contains(
        v,
    ) || exists|i: int|
        0 <= i < total && needs(catalog, after, #[trigger] catalog.runtime_dependencies@[i]) && (
        catalog.runtime_dependencies@[i] matches RuntimeDependencyDescriptor::Compose {
            volume,
            ..
        } && volume@ == v) by {
        assert(sorted.contains(v) <==> first.retained_volumes.contains(v));
        if exists|i: int|
            0 <= i < list.len() && (#[trigger] list[i] matches
                RuntimeDependencyDescriptor::Compose { volume, .. } && volume@ == v) {
            let i = choose|i: int|
                0 <= i < list.len() && (#[trigger] list[i] matches
                    RuntimeDependencyDescriptor::Compose { volume, .. } && volume@ == v);
            assert(list.contains(list[i]));
            let k = choose|k: int|
                0 <= k < total && (#[trigger] catalog.runtime_dependencies@[k]) == list[i] && needs(
                    catalog,
                    chosen,
                    list[i],
                );
            assert(needs(catalog, after, catalog.runtime_dependencies@[k]));
        }
        if exists|i: int|
            0 <= i < total && needs(catalog, after, #[trigger] catalog.runtime_dependencies@[i])
                && (catalog.runtime_dependencies@[i] matches
                RuntimeDependencyDescriptor::Compose { volume, .. } && volume@ == v) {
            let i = choose|i: int|
                0 <= i < total && needs(catalog, after, #[trigger] catalog.runtime_dependencies@[i])
                    && (catalog.runtime_dependencies@[i] matches
                    RuntimeDependencyDescriptor::Compose { volume, .. } && volume@ == v);
            let item = catalog.runtime_dependencies@[i];
            assert(needs(catalog, chosen, item));
            assert(list.contains(item));
            let k = choose|k: int| 0 <= k < list.len() && list[k] == item;
            assert(list[k] is Compose);
        }
    }
}

proof fn lemma_collect_finite(
    catalog: ModuleCatalog,
    id: Seq<char>,
    path: Seq<Seq<char>>,
    collected: Set<Seq<char>>,
)
    requires
        collected.finite(),
    ensures
        collect(catalog, id, path, collected) matches Ok(more) ==> more.finite(),
    decreases catalog.modules@.len() - path.len(), 0nat,
{
    if !collected.contains(id) && !path.contains(id) && path.len() <= catalog.modules@.len() {
        if let Some(module) = catalog.find(id) {
            if path.len() != catalog.modules@.len() {
                let list = texts(module.prerequisites@);
                lemma_collect_each_finite(catalog, list, 0, path.push(id), collected);
            }
        }
    }
}

proof fn lemma_collect_each_finite(
    catalog: ModuleCatalog,
    list: Seq<Seq<char>>,
    at: int,
    path: Seq<Seq<char>>,
    collected: Set<Seq<char>>,
)
    requires
        collected.finite(),
        path.len() <= catalog.modules@.len(),
    ensures
        collect_each(catalog, list, at, path, collected) matches Ok(more) ==> more.finite(),
    decreases catalog.modules@.len() - path.len(), (list.len() - at + 1) as nat,
{
    if 0 <= at < list.len() {
        lemma_collect_finite(catalog, list[at], path, collected);
        if let Ok(more) = collect(catalog, list[at], path, collected) {
            lemma_collect_each_finite(catalog, list, at + 1, path, more.insert(list[at]));
        }
    }
}

proof fn lemma_all_added_finite(
    catalog: ModuleCatalog,
    before: Set<Seq<char>>,
    modules: Seq<Seq<char>>,
    count: int,
)
    requires
        before.finite(),
    ensures
        all_added(catalog, before, modules, count) matches Ok(after) ==> after.finite(),
    decreases count,
{
    if count > 0 {
        lemma_all_added_finite(catalog, before, modules, count - 1);
        if let Ok(set) = all_added(catalog, before, modules, count - 1) {
            lemma_collect_finite(catalog, modules[count - 1], Seq::empty(), set);
        }
    }
}

proof fn lemma_without_finite(
    before: Set<Seq<char>>,
    modules: Seq<Seq<char>>,
    state: StateModel,
    requested: Seq<char>,
    count: int,
)
    requires
        before.finite(),
    ensures
        without_profile(before, modules, state, requested, count).finite(),
    decreases count,
{
    if count > 0 {
        lemma_without_finite(before, modules, state, requested, count - 1);
    }
}

/// A list of the selection that a request leads to.
proof fn lemma_set_listed(
    inputs: InputsModel,
    state: StateModel,
    action: PlanAction,
    requested: Option<Seq<char>>,
) -> (list: Seq<Seq<char>>)
    requires
        next_selection(inputs, state, action, requested) is Ok,
    ensures
        list.to_set() == next_selection(inputs, state, action, requested)->Ok_0,
{
    let set = next_selection(inputs, state, action, requested)->Ok_0;
    let before = selected_of(state);
    vstd::seq_lib::seq_to_set_is_finite(before);
    if let Some(request) = requested {
        lemma_collect_finite(inputs.catalog, request, Seq::empty(), before.to_set());
        if let Ok(profile) = resolved(inputs.profiles, inputs.catalog, request) {
            vstd::seq_lib::seq_to_set_is_finite(profile.modules);
            lemma_all_added_finite(
                inputs.catalog,
                before.to_set(),
                profile.modules,
                profile.modules.len() as int,
            );
        }
        let declared = inputs.profiles[profile_place(inputs.profiles, request, 0)];
        lemma_without_finite(
            before.to_set(),
            texts(declared.modules@),
            state,
            request,
            declared.modules@.len() as int,
        );
    }
    assert(set.finite());
    let list = set.to_seq();
    set.lemma_to_seq_to_set_id();
    assert(list.to_set() =~= set);
    list
}

/// Adding modules or a profile moves exactly the modules that were added: each leaves the recorded
/// removals or else becomes an addition. The profile stays.
pub proof fn lemma_addition_is_recorded(
    inputs: InputsModel,
    snapshot: SnapshotModel,
    files: Seq<ProjectFile>,
    target: Result<(StateModel, Map<Seq<char>, Seq<char>>), Seq<char>>,
    requested: Option<Seq<char>>,
)
    requires
        snapshot.state.profile.removals.no_duplicates(),
    ensures
        plan_outcome(inputs, snapshot, files, target, PlanAction::Add, requested) matches Ok(
            PlanOutcome::Change { state, added: new_ids, .. },
        ) ==> {
            let profile = snapshot.state.profile;
            &&& state.profile.id == profile.id
            &&& state.profile.version == profile.version
            &&& forall|m: Seq<char>| #[trigger]
                state.profile.additions.contains(m) <==> profile.additions.contains(m) || (
                new_ids.contains(m) && !profile.removals.contains(m))
            &&& forall|m: Seq<char>| #[trigger]
                state.profile.removals.contains(m) <==> profile.removals.contains(m)
                    && !new_ids.contains(m)
        },
{
    let action = PlanAction::Add;
    if let Ok(PlanOutcome::Change { state, added: new_ids, removed: old_ids, .. }) = plan_outcome(
        inputs,
        snapshot,
        files,
        target,
        action,
        requested,
    ) {
        lemma_request_is_recorded(inputs, snapshot, files, target, action, requested);
        lemma_ascending_is_distinct(new_ids);
        let first = lemma_profile_kept(inputs, snapshot, files, target, action, requested);
        let profile = snapshot.state.profile;
        lemma_moved(profile.additions, profile.removals, new_ids, new_ids.len() as int);
        assert(new_ids.take(new_ids.len() as int) =~= new_ids);
        assert(next_selection(inputs, snapshot.state, action, None) is Err);
    }
}

/// Removing a module or a profile moves exactly the modules that were removed: each leaves the
/// recorded additions or else becomes a removal. The profile stays.
pub proof fn lemma_removal_is_recorded(
    inputs: InputsModel,
    snapshot: SnapshotModel,
    files: Seq<ProjectFile>,
    target: Result<(StateModel, Map<Seq<char>, Seq<char>>), Seq<char>>,
    requested: Option<Seq<char>>,
)
    requires
        snapshot.state.profile.additions.no_duplicates(),
    ensures
        plan_outcome(inputs, snapshot, files, target, PlanAction::Remove, requested) matches Ok(
            PlanOutcome::Change { state, removed: old_ids, .. },
        ) ==> {
            let profile = snapshot.state.profile;
            &&& state.profile.id == profile.id
            &&& state.profile.version == profile.version
            &&& forall|m: Seq<char>| #[trigger]
                state.profile.removals.contains(m) <==> profile.removals.contains(m) || (
                old_ids.contains(m) && !profile.additions.contains(m))
            &&& forall|m: Seq<char>| #[trigger]
                state.profile.additions.contains(m) <==> profile.additions.contains(m)
                    && !old_ids.contains(m)
        },
{
    let action = PlanAction::Remove;
    if let Ok(PlanOutcome::Change { state, added: new_ids, removed: old_ids, .. }) = plan_outcome(
        inputs,
        snapshot,
        files,
        target,
        action,
        requested,
    ) {
        lemma_request_is_recorded(inputs, snapshot, files, target, action, requested);
        lemma_ascending_is_distinct(old_ids);
        let first = lemma_profile_kept(inputs, snapshot, files, target, action, requested);
        let profile = snapshot.state.profile;
        lemma_moved(profile.removals, profile.additions, old_ids, old_ids.len() as int);
        assert(old_ids.take(old_ids.len() as int) =~= old_ids);
        assert(next_selection(inputs, snapshot.state, action, None) is Err);
    }
}

/// The next state records what the request makes of the profile.
proof fn lemma_profile_kept(
    inputs: InputsModel,
    snapshot: SnapshotModel,
    files: Seq<ProjectFile>,
    target: Result<(StateModel, Map<Seq<char>, Seq<char>>), Seq<char>>,
    action: PlanAction,
    requested: Option<Seq<char>>,
) -> (first: crate::state::ProfileModel)
    requires
        plan_outcome(inputs, snapshot, files, target, action, requested) matches Ok(outcome)
            && outcome is Change,
    ensures
        plan_outcome(inputs, snapshot, files, target, action, requested) matches Ok(
            PlanOutcome::Change { state, added: new_ids, removed: old_ids, .. },
        ) && {
            &&& first == profile_after(
                snapshot.state.profile,
                action,
                requested,
                new_ids,
                old_ids,
            )
            &&& state.profile.id == first.id
            &&& state.profile.version == first.version
            &&& forall|m: Seq<char>| #[trigger]
                state.profile.additions.contains(m) <==> first.additions.contains(m)
            &&& forall|m: Seq<char>| #[trigger]
                state.profile.removals.contains(m) <==> first.removals.contains(m)
        },
{
    let outcome = plan_outcome(inputs, snapshot, files, target, action, requested)->Ok_0;
    let new_ids = outcome->Change_added;
    let old_ids = outcome->Change_removed;
    let before = selected_of(snapshot.state);
    let set = next_selection(inputs, snapshot.state, action, requested)->Ok_0;
    let first = state_after(
        inputs.catalog,
        snapshot.state,
        action,
        requested,
        listing(set),
        new_ids,
        old_ids,
    )->Ok_0;
    lemma_change_keeps_selection(
        inputs,
        snapshot,
        files,
        target,
        before,
        new_ids,
        old_ids,
        first,
    );
    lemma_listing_exists::<String>(first.profile.additions);
    lemma_listing_exists::<String>(first.profile.removals);
    first.profile
}

/// Adding a profile and removing it again leaves none of the modules selected that the profile
/// declares itself, where none of them was selected before and none was recorded as removed.
pub proof fn lemma_profile_added_and_removed(
    inputs: InputsModel,
    snapshot: SnapshotModel,
    files: Seq<ProjectFile>,
    target: Result<(StateModel, Map<Seq<char>, Seq<char>>), Seq<char>>,
    requested: Seq<char>,
    at: int,
)
    requires
        asks_for_profile(inputs, requested, at),
        snapshot.state.profile.removals.no_duplicates(),
        forall|i: int|
            0 <= i < inputs.profiles[at].modules@.len() ==> !module_ids_of(
                snapshot.state,
            ).contains((#[trigger] inputs.profiles[at].modules@[i])@)
                && !snapshot.state.profile.removals.contains(inputs.profiles[at].modules@[i]@),
        plan_outcome(
            inputs,
            snapshot,
            files,
            target,
            PlanAction::Add,
            Some(requested),
        ) matches Ok(outcome) && outcome is Change,
    ensures
        ({
            let added_state = plan_outcome(
                inputs,
                snapshot,
                files,
                target,
                PlanAction::Add,
                Some(requested),
            )->Ok_0->state;
            next_selection(inputs, added_state, PlanAction::Remove, Some(requested)) matches Ok(
                after,
            ) ==> forall|i: int|
                0 <= i < inputs.profiles[at].modules@.len() ==> !after.contains(
                    (#[trigger] inputs.profiles[at].modules@[i])@,
                )
        }),
{
    let outcome = plan_outcome(
        inputs,
        snapshot,
        files,
        target,
        PlanAction::Add,
        Some(requested),
    )->Ok_0;
    let state = outcome->state;
    let own = texts(inputs.profiles[at].modules@);
    lemma_request_is_recorded(inputs, snapshot, files, target, PlanAction::Add, Some(requested));
    lemma_addition_is_recorded(inputs, snapshot, files, target, Some(requested));
    lemma_profile_gone(inputs, snapshot.state, state, outcome->Change_added, requested, at);
}

proof fn lemma_profile_gone(
    inputs: InputsModel,
    old_state: StateModel,
    state: StateModel,
    new_ids: Seq<Seq<char>>,
    requested: Seq<char>,
    at: int,
)
    requires
        asks_for_profile(inputs, requested, at),
        forall|i: int|
            0 <= i < inputs.profiles[at].modules@.len() ==> !module_ids_of(old_state).contains(
                (#[trigger] inputs.profiles[at].modules@[i])@,
            ) && !old_state.profile.removals.contains(inputs.profiles[at].modules@[i]@),
        forall|m: Seq<char>| #[trigger]
            new_ids.contains(m) <==> module_ids_of(state).contains(m) && !module_ids_of(
                old_state,
            ).contains(m),
        forall|m: Seq<char>| #[trigger]
            state.profile.additions.contains(m) <==> old_state.profile.additions.contains(m) || (
            new_ids.contains(m) && !old_state.profile.removals.contains(m)),
    ensures
        next_selection(inputs, state, PlanAction::Remove, Some(requested)) matches Ok(after)
            ==> forall|i: int|
            0 <= i < inputs.profiles[at].modules@.len() ==> !after.contains(
                (#[trigger] inputs.profiles[at].modules@[i])@,
            ),
{
    let own = texts(inputs.profiles[at].modules@);
    lemma_profile_removal(inputs, state, requested, at);
    if let Ok(after) = next_selection(inputs, state, PlanAction::Remove, Some(requested)) {
        assert forall|i: int| 0 <= i < inputs.profiles[at].modules@.len() implies !after.contains(
            (#[trigger] inputs.profiles[at].modules@[i])@,
        ) by {
            let m = inputs.profiles[at].modules@[i]@;
            assert(own[i] == m);
            assert(own.contains(m));
            if after.contains(m) {
                assert(module_ids_of(state).contains(m));
                assert(new_ids.contains(m));
                assert(state.profile.additions.contains(m));
            }
        }
    }
}

} // verus!
