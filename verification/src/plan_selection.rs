//! The selection that a management request leads to, and the state that records it.

use vstd::prelude::*;
use vstd::string::*;

use crate::catalog::{profile_place, resolved, ProfileDefinition, ProfileError, ProfileFailure};
use crate::cargo_graph::{
    lemma_optional_key_split, lemma_text_key_split, optional_key, push_optional_key, push_text_key,
    text_key,
};
use crate::diagnosis::{InputsModel, PlanningInputs};
use crate::management::{ManagerError, ManagerFailure, PlanAction};
use crate::module_resolution::{added, composition, descriptors_of, modules_of, removed};
use crate::modules::{ModuleCatalog, ModuleDefinition, RuntimeDependencyDescriptor};
use crate::ordered::{
    ascending, difference, is_sorted_listing, lemma_listing_exists, lemma_sorted_listing, models,
    set_add, sort_unique, sorted_listing, Distinct, Keyed, Sorted, TextSet,
};
use crate::release::{ReleaseIdentity, ReleaseModel};
use crate::rendering::dependencies_of;
use crate::selection::{lemma_listing, listing, selection_defect};
use crate::state::{
    module_pairs, ownership_models, provider_pairs, record_models, selected_ids, selected_of,
    ManagedRegionRecord, OwnershipKind, OwnershipModel, OwnershipRecord, ProfileModel, ProjectState,
    RecordModel, SelectedModule, SelectedProvider, StateModel,
};
use crate::text::{clone_texts, holds_text, optional_view, same_text, texts};

verus! {

// Requests.
/// The diagnostic text of a profile failure.
pub open spec fn profile_failure_text(failure: ProfileFailure) -> Seq<char> {
    match failure {
        ProfileFailure::InvalidName =>
            "profile name must use lowercase ASCII letters, digits, and internal hyphens"@,
        ProfileFailure::UnknownProfile(profile) => "unknown base profile: "@ + profile,
        ProfileFailure::Decode(message) => message,
        ProfileFailure::InvalidCatalog(message) => message,
        ProfileFailure::Modules(message) => message,
    }
}

/// The failure of a catalog operation.
pub open spec fn catalog_result(result: Result<Set<Seq<char>>, Seq<char>>) -> Result<
    Set<Seq<char>>,
    ManagerFailure,
> {
    match result {
        Ok(set) => Ok(set),
        Err(message) => Err(ManagerFailure::Catalog(message)),
    }
}

/// The selection after the first `count` of `modules` were added to it.
pub open spec fn all_added(
    catalog: ModuleCatalog,
    before: Set<Seq<char>>,
    modules: Seq<Seq<char>>,
    count: int,
) -> Result<Set<Seq<char>>, ManagerFailure>
    decreases count,
{
    if count <= 0 {
        Ok(before)
    } else {
        match all_added(catalog, before, modules, count - 1) {
            Err(failure) => Err(failure),
            Ok(set) => catalog_result(added(catalog, set, modules[count - 1])),
        }
    }
}

/// Whether a request names a profile and no module.
pub open spec fn names_profile(inputs: InputsModel, requested: Seq<char>) -> bool {
    &&& inputs.catalog.find(requested) is None
    &&& profile_place(inputs.profiles, requested, 0) < inputs.profiles.len()
}

/// The selection after an addition: of a module, or of all modules of a profile.
pub open spec fn addition(inputs: InputsModel, before: Seq<Seq<char>>, requested: Seq<char>) -> Result<
    Set<Seq<char>>,
    ManagerFailure,
> {
    if !names_profile(inputs, requested) {
        catalog_result(added(inputs.catalog, before.to_set(), requested))
    } else {
        match resolved(inputs.profiles, inputs.catalog, requested) {
            Err(failure) => Err(ManagerFailure::InvalidProject(profile_failure_text(failure))),
            Ok(profile) => all_added(
                inputs.catalog,
                before.to_set(),
                profile.modules,
                profile.modules.len() as int,
            ),
        }
    }
}

/// The selection without those of the first `count` modules of a profile that came with it.
pub open spec fn without_profile(
    before: Set<Seq<char>>,
    modules: Seq<Seq<char>>,
    state: StateModel,
    requested: Seq<char>,
    count: int,
) -> Set<Seq<char>>
    decreases count,
{
    if count <= 0 {
        before
    } else {
        let rest = without_profile(before, modules, state, requested, count - 1);
        let module = modules[count - 1];
        if state.profile.id == requested || state.profile.additions.contains(module) {
            rest.remove(module)
        } else {
            rest
        }
    }
}

/// The selection after a removal: of a module, or of the modules that came with a profile.
pub open spec fn removal(
    inputs: InputsModel,
    state: StateModel,
    before: Seq<Seq<char>>,
    requested: Seq<char>,
) -> Result<Set<Seq<char>>, ManagerFailure> {
    if !names_profile(inputs, requested) {
        catalog_result(removed(inputs.catalog, before, requested))
    } else {
        let profile = inputs.profiles[profile_place(inputs.profiles, requested, 0)];
        let after = without_profile(
            before.to_set(),
            texts(profile.modules@),
            state,
            requested,
            profile.modules@.len() as int,
        );
        match selection_defect(inputs.catalog, listing(after)) {
            Some(message) => Err(ManagerFailure::Catalog(message)),
            None => Ok(after),
        }
    }
}

/// The selection that a request leads to.
pub open spec fn next_selection(
    inputs: InputsModel,
    state: StateModel,
    action: PlanAction,
    requested: Option<Seq<char>>,
) -> Result<Set<Seq<char>>, ManagerFailure> {
    let before = selected_of(state);
    match (action, requested) {
        (PlanAction::Add, Some(request)) => addition(inputs, before, request),
        (PlanAction::Remove, Some(request)) => removal(inputs, state, before, request),
        (PlanAction::ProfileSet, Some(request)) => match resolved(
            inputs.profiles,
            inputs.catalog,
            request,
        ) {
            Err(failure) => Err(ManagerFailure::InvalidProject(profile_failure_text(failure))),
            Ok(profile) => Ok(profile.modules.to_set()),
        },
        (PlanAction::Upgrade, None) => Ok(before.to_set()),
        (PlanAction::Diff, None) => Ok(before.to_set()),
        _ => Err(ManagerFailure::InvalidProject("invalid management plan request"@)),
    }
}

/// A change of the selection.
#[derive(Debug, PartialEq, Eq)]
pub struct SelectionChange {
    /// Selected modules before.
    pub before: TextSet,
    /// Selected modules after.
    pub after: TextSet,
    /// Modules that are new.
    pub added: TextSet,
    /// Modules that are gone.
    pub removed: TextSet,
}

/// Whether `result` is the outcome of a request.
pub open spec fn selects(
    result: Result<TextSet, ManagerError>,
    owed: Result<Set<Seq<char>>, ManagerFailure>,
) -> bool {
    match result {
        Ok(set) => owed == Ok::<Set<Seq<char>>, ManagerFailure>(set@.to_set()) && ascending::<
            String,
        >(set@),
        Err(error) => owed == Err::<Set<Seq<char>>, ManagerFailure>(error.failure()),
    }
}

fn add_module(catalog: &ModuleCatalog, before: &TextSet, requested: &str) -> (result: Result<
    TextSet,
    ManagerError,
>)
    ensures
        selects(result, catalog_result(added(*catalog, before@.to_set(), requested@))),
{
    match catalog.resolve_add(before, requested) {
        Ok(set) => Ok(set),
        Err(error) => Err(ManagerError::Catalog(error)),
    }
}

fn find_profile(profiles: &Vec<ProfileDefinition>, id: &str) -> (found: Option<usize>)
    ensures
        ({
            let place = profile_place(profiles@, id@, 0);
            match found {
                Some(index) => place == index && index < profiles@.len(),
                None => place >= profiles@.len(),
            }
        }),
{
    let mut index: usize = 0;
    while index < profiles.len()
        invariant
            index <= profiles@.len(),
            profile_place(profiles@, id@, 0) == profile_place(profiles@, id@, index as int),
        decreases profiles@.len() - index,
    {
        if same_text(profiles[index].id.as_str(), id) {
            return Some(index);
        }
        index += 1;
    }
    None
}

fn profile_error(error: ProfileError) -> (result: ManagerError)
    ensures
        result.failure() == ManagerFailure::InvalidProject(profile_failure_text(error.failure())),
{
    ManagerError::InvalidProject(error.message())
}

proof fn lemma_all_added_fail(
    catalog: ModuleCatalog,
    before: Set<Seq<char>>,
    modules: Seq<Seq<char>>,
    count: int,
    total: int,
)
    requires
        all_added(catalog, before, modules, count) is Err,
        count <= total,
    ensures
        all_added(catalog, before, modules, total) == all_added(catalog, before, modules, count),
    decreases total - count,
{
    if count < total {
        lemma_all_added_fail(catalog, before, modules, count, total - 1);
    }
}

/// Resolves a request to add a module or a profile.
pub fn resolve_add_request(inputs: &PlanningInputs, before: &TextSet, requested: &str) -> (result:
    Result<TextSet, ManagerError>)
    ensures
        selects(result, addition(inputs@, before@, requested@)),
{
    if inputs.catalog.module(requested).is_some() {
        return add_module(inputs.catalog, before, requested);
    }
    if find_profile(inputs.profiles.profiles(), requested).is_none() {
        return add_module(inputs.catalog, before, requested);
    }
    let profile = match inputs.profiles.resolve(requested, inputs.catalog) {
        Ok(profile) => profile,
        Err(error) => {
            return Err(profile_error(error));
        },
    };
    let modules = profile.modules();
    let ghost list = texts(modules@);
    let ghost start = before@.to_set();
    let mut after = before.duplicate();
    after.use_order();
    let mut index: usize = 0;
    while index < modules.len()
        invariant
            list == texts(modules@),
            addition(inputs@, before@, requested@) == all_added(
                *inputs.catalog,
                start,
                list,
                list.len() as int,
            ),
            index <= modules@.len(),
            ascending::<String>(after@),
            all_added(*inputs.catalog, start, list, index as int) == Ok::<
                Set<Seq<char>>,
                ManagerFailure,
            >(after@.to_set()),
        decreases modules@.len() - index,
    {
        assert(list[index as int] == modules@[index as int]@);
        match add_module(inputs.catalog, &after, modules[index].as_str()) {
            Ok(more) => {
                after = more;
            },
            Err(error) => {
                proof {
                    lemma_all_added_fail(
                        *inputs.catalog,
                        start,
                        list,
                        index + 1,
                        list.len() as int,
                    );
                }
                return Err(error);
            },
        }
        index += 1;
    }
    Ok(after)
}

/// Returns a set without a string.
fn without(set: &TextSet, text: &str) -> (rest: TextSet)
    ensures
        rest@.to_set() == set@.to_set().remove(text@),
        ascending::<String>(rest@),
{
    let mut single: TextSet = Sorted::new();
    set_add(&mut single, text);
    let rest = difference(set, &single);
    proof {
        assert forall|value: Seq<char>| rest@.to_set().contains(value)
            <==> set@.to_set().remove(text@).contains(value) by {
            assert(rest@.contains(value) <==> set@.contains(value) && !single@.contains(value));
        }
        assert(rest@.to_set() =~= set@.to_set().remove(text@));
    }
    rest
}

/// Resolves a request to remove a module or a profile.
pub fn resolve_remove_request(
    inputs: &PlanningInputs,
    state: &ProjectState,
    before: &TextSet,
    requested: &str,
) -> (result: Result<TextSet, ManagerError>)
    ensures
        selects(result, removal(inputs@, state@, before@, requested@)),
{
    let profiles = inputs.profiles.profiles();
    let place = if inputs.catalog.module(requested).is_some() {
        None
    } else {
        find_profile(profiles, requested)
    };
    let place = match place {
        Some(place) => place,
        None => {
            return match inputs.catalog.resolve_remove(before, requested) {
                Ok(set) => Ok(set),
                Err(error) => Err(ManagerError::Catalog(error)),
            };
        },
    };
    let profile = &profiles[place];
    let whole = same_text(state.profile.id.as_str(), requested);
    let ghost list = texts(profile.modules@);
    let mut after = before.duplicate();
    after.use_order();
    let mut index: usize = 0;
    while index < profile.modules.len()
        invariant
            list == texts(profile.modules@),
            whole == (state@.profile.id == requested@),
            index <= profile.modules@.len(),
            ascending::<String>(after@),
            after@.to_set() == without_profile(
                before@.to_set(),
                list,
                state@,
                requested@,
                index as int,
            ),
        decreases profile.modules@.len() - index,
    {
        let module = profile.modules[index].as_str();
        assert(list[index as int] == module@);
        if whole || holds_text(&state.profile.additions, module) {
            after = without(&after, module);
        }
        index += 1;
    }
    proof {
        lemma_listing(after@);
    }
    match inputs.catalog.validate_selection(&after) {
        Ok(()) => Ok(after),
        Err(error) => Err(ManagerError::Catalog(error)),
    }
}

fn profile_selection(inputs: &PlanningInputs, requested: &str) -> (result: Result<
    TextSet,
    ManagerError,
>)
    ensures
        selects(
            result,
            (match resolved(inputs@.profiles, inputs@.catalog, requested@) {
                Err(failure) => Err(ManagerFailure::InvalidProject(profile_failure_text(failure))),
                Ok(profile) => Ok(profile.modules.to_set()),
            }),
        ),
{
    let profile = match inputs.profiles.resolve(requested, inputs.catalog) {
        Ok(profile) => profile,
        Err(error) => {
            return Err(profile_error(error));
        },
    };
    let modules = clone_texts(profile.modules());
    let ghost list = texts(modules@);
    assert(models(modules@) =~= list);
    let set = sort_unique(modules);
    proof {
        assert forall|value: Seq<char>| set@.to_set().contains(value)
            <==> list.to_set().contains(value) by {
            assert(set@.contains(value) <==> list.contains(value));
        }
        assert(set@.to_set() =~= list.to_set());
    }
    Ok(set)
}

/// The strings of a set that another does not hold, in order.
pub open spec fn only_in(left: Set<Seq<char>>, right: Set<Seq<char>>) -> Seq<Seq<char>> {
    listing(left.difference(right))
}

fn set_difference(left: &TextSet, right: &TextSet) -> (rest: TextSet)
    ensures
        rest@ == only_in(left@.to_set(), right@.to_set()),
        ascending::<String>(rest@),
{
    let rest = difference(left, right);
    proof {
        let wanted = left@.to_set().difference(right@.to_set());
        assert forall|value: Seq<char>| rest@.to_set().contains(value) <==> wanted.contains(value) by {
            assert(rest@.contains(value) <==> left@.contains(value) && !right@.contains(value));
        }
        assert(rest@.to_set() =~= wanted);
        lemma_listing(rest@);
    }
    rest
}

/// Resolves a management request to a change of the selection.
pub fn resolve_selection(
    inputs: &PlanningInputs,
    state: &ProjectState,
    action: PlanAction,
    requested: Option<&str>,
) -> (result: Result<SelectionChange, ManagerError>)
    ensures
        ({
            let request = match requested {
                Some(text) => Some(text@),
                None => None,
            };
            let owed = next_selection(inputs@, state@, action, request);
            match result {
                Ok(change) => {
                    &&& owed == Ok::<Set<Seq<char>>, ManagerFailure>(change.after@.to_set())
                    &&& change.before@ == selected_of(state@)
                    &&& change.after@ == listing(change.after@.to_set())
                    &&& ascending::<String>(change.after@)
                    &&& change.added@ == only_in(
                        change.after@.to_set(),
                        selected_of(state@).to_set(),
                    )
                    &&& change.removed@ == only_in(
                        selected_of(state@).to_set(),
                        change.after@.to_set(),
                    )
                },
                Err(error) => owed == Err::<Set<Seq<char>>, ManagerFailure>(error.failure()),
            }
        }),
{
    let before = selected_ids(state);
    let resolution = match (action, requested) {
        (PlanAction::Add, Some(request)) => resolve_add_request(inputs, &before, request),
        (PlanAction::Remove, Some(request)) => resolve_remove_request(
            inputs,
            state,
            &before,
            request,
        ),
        (PlanAction::ProfileSet, Some(request)) => profile_selection(inputs, request),
        (PlanAction::Upgrade, None) => {
            before.use_order();
            Ok(before.duplicate())
        },
        (PlanAction::Diff, None) => {
            before.use_order();
            Ok(before.duplicate())
        },
        _ => Err(
            ManagerError::InvalidProject("invalid management plan request".to_owned()),
        ),
    };
    let after = match resolution {
        Ok(after) => after,
        Err(error) => {
            return Err(error);
        },
    };
    proof {
        lemma_listing(after@);
    }
    let added = set_difference(&after, &before);
    let removed = set_difference(&before, &after);
    Ok(SelectionChange { before, after, added, removed })
}

// The next state.
/// The place, from `at` on, of the first occurrence of a string in a list.
pub open spec fn first_place(list: Seq<Seq<char>>, text: Seq<char>, at: int) -> int
    decreases list.len() - at,
{
    if at < 0 || at >= list.len() || list[at] == text {
        at
    } else {
        first_place(list, text, at + 1)
    }
}

/// Two lists after the first `count` of `ids` were moved: each is taken out of `back` where it is
/// there, and put into `front` otherwise.
pub open spec fn moved(
    front: Seq<Seq<char>>,
    back: Seq<Seq<char>>,
    ids: Seq<Seq<char>>,
    count: int,
) -> (Seq<Seq<char>>, Seq<Seq<char>>)
    decreases count,
{
    if count <= 0 {
        (front, back)
    } else {
        let lists = moved(front, back, ids, count - 1);
        let id = ids[count - 1];
        let place = first_place(lists.1, id, 0);
        if place < lists.1.len() {
            (lists.0, lists.1.remove(place))
        } else if lists.0.contains(id) {
            lists
        } else {
            (lists.0.push(id), lists.1)
        }
    }
}

/// How a request changes the record of the profile.
pub open spec fn profile_after(
    profile: ProfileModel,
    action: PlanAction,
    requested: Option<Seq<char>>,
    added: Seq<Seq<char>>,
    removed: Seq<Seq<char>>,
) -> ProfileModel {
    match requested {
        None => profile,
        Some(request) => match action {
            PlanAction::Add => {
                let lists = moved(profile.additions, profile.removals, added, added.len() as int);
                ProfileModel { additions: lists.0, removals: lists.1, ..profile }
            },
            PlanAction::Remove => {
                let lists = moved(
                    profile.removals,
                    profile.additions,
                    removed,
                    removed.len() as int,
                );
                ProfileModel { additions: lists.1, removals: lists.0, ..profile }
            },
            PlanAction::ProfileSet => ProfileModel {
                id: request,
                additions: Seq::empty(),
                removals: Seq::empty(),
                ..profile
            },
            _ => profile,
        },
    }
}

fn find_text(list: &Vec<String>, text: &str) -> (found: Option<usize>)
    ensures
        ({
            let place = first_place(texts(list@), text@, 0);
            match found {
                Some(index) => place == index && index < list@.len(),
                None => place >= list@.len(),
            }
        }),
{
    let ghost all = texts(list@);
    let mut index: usize = 0;
    while index < list.len()
        invariant
            all == texts(list@),
            index <= list@.len(),
            first_place(all, text@, 0) == first_place(all, text@, index as int),
        decreases list@.len() - index,
    {
        assert(all[index as int] == list@[index as int]@);
        if same_text(list[index].as_str(), text) {
            return Some(index);
        }
        index += 1;
    }
    None
}

fn move_ids(front: &mut Vec<String>, back: &mut Vec<String>, ids: &TextSet)
    ensures
        (texts(final(front)@), texts(final(back)@)) == moved(
            texts(old(front)@),
            texts(old(back)@),
            ids@,
            ids@.len() as int,
        ),
{
    let ghost first = texts(front@);
    let ghost second = texts(back@);
    let mut index: usize = 0;
    while index < ids.len()
        invariant
            first == texts(old(front)@),
            second == texts(old(back)@),
            index <= ids@.len(),
            (texts(front@), texts(back@)) == moved(first, second, ids@, index as int),
        decreases ids@.len() - index,
    {
        let id = ids.at(index).as_str();
        assert(ids@[index as int] == id@);
        match find_text(back, id) {
            Some(place) => {
                let ghost before = texts(back@);
                back.remove(place);
                assert(texts(back@) =~= before.remove(place as int));
            },
            None => {
                if !holds_text(front, id) {
                    let ghost before = texts(front@);
                    front.push(id.to_owned());
                    assert(texts(front@) =~= before.push(id@));
                }
            },
        }
        index += 1;
    }
}

/// Records in the profile what a request changed.
pub fn update_profile_selection(
    state: &mut ProjectState,
    action: PlanAction,
    requested: Option<&str>,
    added: &TextSet,
    removed: &TextSet,
)
    ensures
        final(state)@ == (StateModel {
            profile: profile_after(
                old(state)@.profile,
                action,
                (match requested {
                    Some(text) => Some(text@),
                    None => None,
                }),
                added@,
                removed@,
            ),
            ..old(state)@
        }),
{
    let request = match requested {
        Some(request) => request,
        None => {
            return;
        },
    };
    match action {
        PlanAction::Add => {
            move_ids(&mut state.profile.additions, &mut state.profile.removals, added);
        },
        PlanAction::Remove => {
            move_ids(&mut state.profile.removals, &mut state.profile.additions, removed);
        },
        PlanAction::ProfileSet => {
            state.profile.id = request.to_owned();
            state.profile.additions = Vec::new();
            state.profile.removals = Vec::new();
            assert(texts(state.profile.additions@) =~= Seq::<Seq<char>>::empty());
            assert(texts(state.profile.removals@) =~= Seq::<Seq<char>>::empty());
        },
        PlanAction::Diff => {},
        PlanAction::Upgrade => {},
    }
}

/// The identifiers and versions of modules.
pub open spec fn selected_pairs(list: Seq<ModuleDefinition>) -> Seq<(Seq<char>, Seq<char>)> {
    list.map_values(|module: ModuleDefinition| (module.id@, module.version@))
}

/// The providers of the first `count` recorded modules.
pub open spec fn recorded_providers(
    catalog: ModuleCatalog,
    modules: Seq<(Seq<char>, Seq<char>)>,
    count: int,
) -> Seq<(Seq<char>, Seq<char>)>
    decreases count,
{
    if count <= 0 {
        Seq::empty()
    } else {
        let before = recorded_providers(catalog, modules, count - 1);
        match catalog.find(modules[count - 1].0) {
            Some(module) => match module.provider_slot {
                Some(slot) => before.push((slot@, modules[count - 1].0)),
                None => before,
            },
            None => before,
        }
    }
}

/// The retained volumes with those of the first `count` dependencies.
pub open spec fn with_volumes(
    retained: Seq<Seq<char>>,
    dependencies: Seq<RuntimeDependencyDescriptor>,
    count: int,
) -> Seq<Seq<char>>
    decreases count,
{
    if count <= 0 {
        retained
    } else {
        let before = with_volumes(retained, dependencies, count - 1);
        match dependencies[count - 1] {
            RuntimeDependencyDescriptor::Compose { volume, .. } => if before.contains(volume@) {
                before
            } else {
                before.push(volume@)
            },
            RuntimeDependencyDescriptor::External { .. } => before,
        }
    }
}

/// A state that retains the volumes of its selected modules.
pub open spec fn retaining(state: StateModel, catalog: ModuleCatalog) -> Result<
    StateModel,
    ManagerFailure,
> {
    match dependencies_of(catalog, selected_of(state)) {
        Err(failure) => Err(failure),
        Ok(list) => Ok(
            StateModel {
                retained_volumes: with_volumes(state.retained_volumes, list, list.len() as int),
                ..state
            },
        ),
    }
}

/// The state that records a selection, before any file is planned.
pub open spec fn state_after(
    catalog: ModuleCatalog,
    state: StateModel,
    action: PlanAction,
    requested: Option<Seq<char>>,
    after: Seq<Seq<char>>,
    added: Seq<Seq<char>>,
    removed: Seq<Seq<char>>,
) -> Result<StateModel, ManagerFailure> {
    match composition(catalog, after) {
        Err(message) => Err(ManagerFailure::Catalog(message)),
        Ok(list) => {
            let modules = selected_pairs(list);
            match retaining(StateModel { modules, ..state }, catalog) {
                Err(failure) => Err(failure),
                Ok(next) => Ok(
                    StateModel {
                        providers: recorded_providers(catalog, modules, modules.len() as int),
                        profile: profile_after(state.profile, action, requested, added, removed),
                        ..next
                    },
                ),
            }
        },
    }
}

/// Makes a state retain the volumes of its selected modules.
pub fn retain_selected_compose_volumes(state: &mut ProjectState, catalog: &ModuleCatalog) -> (result:
    Result<(), ManagerError>)
    ensures
        match result {
            Ok(()) => retaining(old(state)@, *catalog) == Ok::<StateModel, ManagerFailure>(
                final(state)@,
            ),
            Err(error) => retaining(old(state)@, *catalog) == Err::<StateModel, ManagerFailure>(
                error.failure(),
            ) && final(state)@ == old(state)@,
        },
{
    let selected = selected_ids(state);
    let dependencies = match catalog.selected_runtime_dependencies(&selected) {
        Ok(dependencies) => dependencies,
        Err(error) => {
            return Err(ManagerError::Catalog(error));
        },
    };
    let ghost list = descriptors_of(dependencies@);
    let ghost start = texts(state.retained_compose_volumes@);
    let mut volumes = clone_texts(&state.retained_compose_volumes);
    let mut index: usize = 0;
    while index < dependencies.len()
        invariant
            list == descriptors_of(dependencies@),
            index <= dependencies@.len(),
            texts(volumes@) == with_volumes(start, list, index as int),
        decreases dependencies@.len() - index,
    {
        assert(list[index as int] == *dependencies@[index as int]);
        if let RuntimeDependencyDescriptor::Compose { volume, .. } = dependencies[index] {
            if !holds_text(&volumes, volume.as_str()) {
                let ghost before = texts(volumes@);
                volumes.push(volume.clone());
                assert(texts(volumes@) =~= before.push(volume@));
            }
        }
        index += 1;
    }
    state.retained_compose_volumes = volumes;
    Ok(())
}

fn select_modules(ordered: &Vec<&ModuleDefinition>) -> (modules: Vec<SelectedModule>)
    ensures
        module_pairs(modules@) == selected_pairs(modules_of(ordered@)),
{
    let ghost list = selected_pairs(modules_of(ordered@));
    let mut modules: Vec<SelectedModule> = Vec::new();
    let mut index: usize = 0;
    while index < ordered.len()
        invariant
            list == selected_pairs(modules_of(ordered@)),
            index <= ordered@.len(),
            module_pairs(modules@) == list.take(index as int),
        decreases ordered@.len() - index,
    {
        let ghost before = module_pairs(modules@);
        let id = ordered[index].id.clone();
        let version = ordered[index].version.clone();
        let ghost pair = (id@, version@);
        modules.push(SelectedModule { id, version });
        proof {
            assert(list[index as int] == pair);
            assert(module_pairs(modules@) =~= before.push(pair));
            assert(list.take(index + 1) =~= list.take(index as int).push(pair));
        }
        index += 1;
    }
    assert(list.take(index as int) =~= list);
    modules
}

fn record_providers(catalog: &ModuleCatalog, modules: &Vec<SelectedModule>) -> (providers: Vec<
    SelectedProvider,
>)
    ensures
        provider_pairs(providers@) == recorded_providers(
            *catalog,
            module_pairs(modules@),
            modules@.len() as int,
        ),
{
    let ghost list = module_pairs(modules@);
    let mut providers: Vec<SelectedProvider> = Vec::new();
    assert(provider_pairs(providers@) =~= Seq::<(Seq<char>, Seq<char>)>::empty());
    let mut index: usize = 0;
    while index < modules.len()
        invariant
            list == module_pairs(modules@),
            index <= modules@.len(),
            provider_pairs(providers@) == recorded_providers(*catalog, list, index as int),
        decreases modules@.len() - index,
    {
        let id = modules[index].id.as_str();
        assert(list[index as int].0 == id@);
        if let Some(module) = catalog.module(id) {
            if let Some(slot) = &module.provider_slot {
                let ghost before = provider_pairs(providers@);
                providers.push(SelectedProvider { slot: slot.clone(), module: id.to_owned() });
                assert(provider_pairs(providers@) =~= before.push((slot@, id@)));
            }
        }
        index += 1;
    }
    providers
}

/// Builds the state that records a selection, before any file is planned.
pub fn build_next_state(
    catalog: &ModuleCatalog,
    state: &ProjectState,
    action: PlanAction,
    requested: Option<&str>,
    selection: &SelectionChange,
) -> (result: Result<ProjectState, ManagerError>)
    ensures
        ({
            let request = match requested {
                Some(text) => Some(text@),
                None => None,
            };
            let owed = state_after(
                *catalog,
                state@,
                action,
                request,
                selection.after@,
                selection.added@,
                selection.removed@,
            );
            match result {
                Ok(next) => owed == Ok::<StateModel, ManagerFailure>(next@),
                Err(error) => owed == Err::<StateModel, ManagerFailure>(error.failure()),
            }
        }),
{
    let mut next = state.duplicate();
    let ordered = match catalog.composition_order(&selection.after) {
        Ok(ordered) => ordered,
        Err(error) => {
            return Err(ManagerError::Catalog(error));
        },
    };
    next.modules = select_modules(&ordered);
    match retain_selected_compose_volumes(&mut next, catalog) {
        Ok(()) => {},
        Err(error) => {
            return Err(error);
        },
    }
    next.providers = record_providers(catalog, &next.modules);
    update_profile_selection(
        &mut next,
        action,
        requested,
        &selection.added,
        &selection.removed,
    );
    Ok(next)
}

// Normalization.
/// The place of an owner in the order of owners.
pub open spec fn kind_rank(kind: OwnershipKind) -> u32 {
    match kind {
        OwnershipKind::KitOwned => 0,
        OwnershipKind::ApplicationOwned => 1,
        OwnershipKind::Derived => 2,
        OwnershipKind::DependencyLock => 3,
    }
}

impl Keyed for OwnershipRecord {
    type Model = OwnershipModel;

    open spec fn model(&self) -> OwnershipModel {
        self@
    }

    open spec fn key(model: OwnershipModel) -> Seq<u32> {
        text_key(model.path) + seq![kind_rank(model.kind)] + optional_key(model.approved)
    }

    fn key_codes(&self) -> (result: Vec<u32>) {
        let mut key: Vec<u32> = Vec::new();
        push_text_key(&mut key, self.path.as_str());
        let rank: u32 = match self.kind {
            OwnershipKind::KitOwned => 0,
            OwnershipKind::ApplicationOwned => 1,
            OwnershipKind::Derived => 2,
            OwnershipKind::DependencyLock => 3,
        };
        key.push(rank);
        push_optional_key(&mut key, &self.approved_sha256);
        assert(key@ =~= text_key(self.path@) + seq![kind_rank(self.kind)] + optional_key(
            optional_view(self.approved_sha256),
        ));
        key
    }

    fn duplicate(&self) -> (copy: Self) {
        OwnershipRecord::duplicate(self)
    }
}

impl Distinct for OwnershipRecord {
    proof fn key_injective(left: OwnershipModel, right: OwnershipModel) {
        let none = Seq::<u32>::empty();
        let left_rest = seq![kind_rank(left.kind)] + optional_key(left.approved);
        let right_rest = seq![kind_rank(right.kind)] + optional_key(right.approved);
        assert(Self::key(left) =~= text_key(left.path) + left_rest);
        assert(Self::key(right) =~= text_key(right.path) + right_rest);
        lemma_text_key_split(left.path, left_rest, right.path, right_rest);
        assert(left_rest[0] == kind_rank(left.kind) && right_rest[0] == kind_rank(right.kind));
        assert(left_rest.skip(1) =~= optional_key(left.approved) + none);
        assert(right_rest.skip(1) =~= optional_key(right.approved) + none);
        lemma_optional_key_split(left.approved, none, right.approved, none);
    }
}

impl Keyed for ManagedRegionRecord {
    type Model = RecordModel;

    open spec fn model(&self) -> RecordModel {
        self@
    }

    open spec fn key(model: RecordModel) -> Seq<u32> {
        text_key(model.id) + text_key(model.path) + seq![model.marker_version] + text_key(
            model.content_hash,
        )
    }

    fn key_codes(&self) -> (result: Vec<u32>) {
        let mut key: Vec<u32> = Vec::new();
        push_text_key(&mut key, self.id.as_str());
        push_text_key(&mut key, self.path.as_str());
        key.push(self.marker_version);
        push_text_key(&mut key, self.content_hash.as_str());
        assert(key@ =~= text_key(self.id@) + text_key(self.path@) + seq![self.marker_version]
            + text_key(self.content_hash@));
        key
    }

    fn duplicate(&self) -> (copy: Self) {
        ManagedRegionRecord::duplicate(self)
    }
}

impl Distinct for ManagedRegionRecord {
    proof fn key_injective(left: RecordModel, right: RecordModel) {
        let none = Seq::<u32>::empty();
        let left_end = seq![left.marker_version] + (text_key(left.content_hash) + none);
        let right_end = seq![right.marker_version] + (text_key(right.content_hash) + none);
        let left_rest = text_key(left.path) + left_end;
        let right_rest = text_key(right.path) + right_end;
        assert(Self::key(left) =~= text_key(left.id) + left_rest);
        assert(Self::key(right) =~= text_key(right.id) + right_rest);
        lemma_text_key_split(left.id, left_rest, right.id, right_rest);
        lemma_text_key_split(left.path, left_end, right.path, right_end);
        assert(left_end[0] == left.marker_version && right_end[0] == right.marker_version);
        assert(left_end.skip(1) =~= text_key(left.content_hash) + none);
        assert(right_end.skip(1) =~= text_key(right.content_hash) + none);
        lemma_text_key_split(left.content_hash, none, right.content_hash, none);
    }
}

/// A state in its canonical form, for a release.
pub open spec fn normalized(state: StateModel, release: ReleaseModel) -> StateModel {
    StateModel {
        framework: release,
        profile: ProfileModel {
            additions: sorted_listing::<String>(state.profile.additions),
            removals: sorted_listing::<String>(state.profile.removals),
            ..state.profile
        },
        retained_volumes: sorted_listing::<String>(state.retained_volumes),
        ownership: sorted_listing::<OwnershipRecord>(state.ownership),
        regions: sorted_listing::<ManagedRegionRecord>(state.regions),
        ..state
    }
}

fn sort_texts(list: &Vec<String>) -> (sorted: Vec<String>)
    ensures
        texts(sorted@) == sorted_listing::<String>(texts(list@)),
{
    let copy = clone_texts(list);
    assert(models(copy@) =~= texts(list@));
    let set = sort_unique(copy);
    let items = set.items();
    assert(models(items@) =~= texts(items@));
    clone_texts(items)
}

/// Brings a state to its canonical form, for a release.
pub fn normalize_next_state(state: &mut ProjectState, framework: &ReleaseIdentity)
    ensures
        final(state)@ == normalized(old(state)@, framework@),
{
    let ghost before = state@;
    state.framework = framework.duplicate();
    state.profile.additions = sort_texts(&state.profile.additions);
    state.profile.removals = sort_texts(&state.profile.removals);
    state.retained_compose_volumes = sort_texts(&state.retained_compose_volumes);
    let ownership = crate::state::clone_ownership(&state.ownership);
    assert(models(ownership@) =~= ownership_models(ownership@));
    let records = sort_unique(ownership);
    let kept = records.items();
    assert(models(kept@) =~= ownership_models(kept@));
    state.ownership = crate::state::clone_ownership(kept);
    let regions = crate::state::clone_records(&state.managed_regions);
    assert(models(regions@) =~= record_models(regions@));
    let listed = sort_unique(regions);
    let rest = listed.items();
    assert(models(rest@) =~= record_models(rest@));
    state.managed_regions = crate::state::clone_records(rest);
}

/// Canonical form is reached at once: bringing a canonical state to it changes nothing.
pub proof fn lemma_normalized_twice(state: StateModel, release: ReleaseModel)
    ensures
        normalized(normalized(state, release), release) == normalized(state, release),
{
    lemma_listing_of_listing::<String>(state.profile.additions);
    lemma_listing_of_listing::<String>(state.profile.removals);
    lemma_listing_of_listing::<String>(state.retained_volumes);
    lemma_listing_of_listing::<OwnershipRecord>(state.ownership);
    lemma_listing_of_listing::<ManagedRegionRecord>(state.regions);
}

proof fn lemma_listing_of_listing<T: Distinct>(values: Seq<T::Model>)
    ensures
        sorted_listing::<T>(sorted_listing::<T>(values)) == sorted_listing::<T>(values),
{
    lemma_listing_exists::<T>(values);
    let sorted = sorted_listing::<T>(values);
    assert(is_sorted_listing::<T>(sorted, sorted));
    lemma_sorted_listing::<T>(sorted, sorted);
}

} // verus!
