//! What adding and removing a module gives, and the order of composition.

use vstd::prelude::*;
use vstd::string::*;

use crate::findings::lemma_no_finding;
use crate::module_catalog::{catalog_defect, holds_id, lemma_valid_collects};
use crate::modules::{
    outcome, CatalogError, ModuleCatalog, ModuleDefinition, RuntimeDependencyDescriptor,
    RuntimeDependencyId,
};
use crate::ordered::{
    ascending, lemma_ascending_distinct, set_add, set_holds, Keyed, Sorted, TextSet,
};
use crate::selection::{
    collect, collect_each, depends, insert_text, lemma_listing, listing, member_check,
    prerequisite_check, selection_defect,
};
use crate::text::{join3, join4, join_texts, joined, same_text, texts};

verus! {

/// The diagnostic of a request for an unknown module.
pub open spec fn unknown_request_text(requested: Seq<char>) -> Seq<char> {
    "unknown module `"@ + requested + "`; select an id from the module catalog"@
}

/// A set if it is a valid selection, or what keeps it from being one.
pub open spec fn checked(catalog: ModuleCatalog, set: Set<Seq<char>>) -> Result<
    Set<Seq<char>>,
    Seq<char>,
> {
    match selection_defect(catalog, listing(set)) {
        Some(message) => Err(message),
        None => Ok(set),
    }
}

/// What adding the module `requested` to a selection gives.
pub open spec fn added(
    catalog: ModuleCatalog,
    selected: Set<Seq<char>>,
    requested: Seq<char>,
) -> Result<Set<Seq<char>>, Seq<char>> {
    if !catalog.has_module(requested) {
        Err(unknown_request_text(requested))
    } else {
        match collect(catalog, requested, Seq::empty(), selected) {
            Err(message) => Err(message),
            Ok(collected) => checked(catalog, collected.insert(requested)),
        }
    }
}

/// Those of the first `count` selected modules that depend on `requested`.
pub open spec fn blockers(
    catalog: ModuleCatalog,
    selected: Seq<Seq<char>>,
    requested: Seq<char>,
    count: int,
) -> Result<Seq<Seq<char>>, Seq<char>>
    decreases count,
{
    if count <= 0 {
        Ok(Seq::empty())
    } else {
        match blockers(catalog, selected, requested, count - 1) {
            Err(message) => Err(message),
            Ok(found) => if selected[count - 1] == requested {
                Ok(found)
            } else {
                match depends(catalog, selected[count - 1], requested, Seq::empty()) {
                    Err(message) => Err(message),
                    Ok(true) => Ok(found.push(selected[count - 1])),
                    Ok(false) => Ok(found),
                }
            },
        }
    }
}

/// What removing the module `requested` from a selection gives.
pub open spec fn removed(
    catalog: ModuleCatalog,
    selected: Seq<Seq<char>>,
    requested: Seq<char>,
) -> Result<Set<Seq<char>>, Seq<char>> {
    if !catalog.has_module(requested) {
        Err(unknown_request_text(requested))
    } else if !selected.contains(requested) {
        Ok(selected.to_set())
    } else {
        match blockers(catalog, selected, requested, selected.len() as int) {
            Err(message) => Err(message),
            Ok(found) => if found.len() > 0 {
                Err(
                    "cannot remove module `"@ + requested + "`; selected dependents: "@ + joined(
                        found,
                        ", "@,
                    ),
                )
            } else {
                checked(catalog, selected.to_set().remove(requested))
            },
        }
    }
}

/// Whether a selected module needs the runtime dependency `id`.
pub open spec fn is_needed(
    catalog: ModuleCatalog,
    selected: Seq<Seq<char>>,
    id: RuntimeDependencyId,
) -> bool {
    exists|i: int|
        0 <= i < selected.len() && (catalog.find(#[trigger] selected[i]) matches Some(module)
            && module.runtime_dependencies@.contains(id))
}

/// Those of the first `count` descriptors that a selection needs.
pub open spec fn needed_descriptors(
    catalog: ModuleCatalog,
    selected: Seq<Seq<char>>,
    count: int,
) -> Seq<RuntimeDependencyDescriptor>
    decreases count,
{
    if count <= 0 {
        Seq::empty()
    } else {
        let descriptor = catalog.runtime_dependencies@[count - 1];
        let before = needed_descriptors(catalog, selected, count - 1);
        if is_needed(catalog, selected, descriptor.dependency_id()) {
            before.push(descriptor)
        } else {
            before
        }
    }
}

/// The descriptors behind references.
pub open spec fn descriptors_of(list: Seq<&RuntimeDependencyDescriptor>) -> Seq<
    RuntimeDependencyDescriptor,
> {
    list.map_values(|descriptor: &RuntimeDependencyDescriptor| *descriptor)
}

// Order.
/// Whether a module can be composed behind the modules `emitted`.
pub open spec fn is_ready(
    module: ModuleDefinition,
    selected: Seq<Seq<char>>,
    emitted: Seq<Seq<char>>,
) -> bool {
    &&& selected.contains(module.id@)
    &&& !emitted.contains(module.id@)
    &&& forall|i: int|
        0 <= i < module.prerequisites@.len() ==> emitted.contains(
            (#[trigger] module.prerequisites@[i])@,
        )
}

/// The modules that are composed when those from place `at` on were considered once more.
pub open spec fn one_round(
    catalog: ModuleCatalog,
    selected: Seq<Seq<char>>,
    emitted: Seq<Seq<char>>,
    at: int,
) -> Seq<Seq<char>>
    decreases catalog.modules@.len() - at,
{
    if at < 0 || at >= catalog.modules@.len() {
        emitted
    } else if is_ready(catalog.modules@[at], selected, emitted) {
        one_round(catalog, selected, emitted.push(catalog.modules@[at].id@), at + 1)
    } else {
        one_round(catalog, selected, emitted, at + 1)
    }
}

/// The modules in the order of composition, when those of `emitted` are composed; absent where a
/// round adds nothing and some are left.
pub open spec fn rounds(
    catalog: ModuleCatalog,
    selected: Seq<Seq<char>>,
    emitted: Seq<Seq<char>>,
) -> Option<Seq<Seq<char>>>
    decreases (if selected.len() > emitted.len() {
        (selected.len() - emitted.len()) as nat
    } else {
        0nat
    }),
{
    if emitted.len() >= selected.len() {
        Some(emitted)
    } else {
        let next = one_round(catalog, selected, emitted, 0);
        if next.len() <= emitted.len() {
            None
        } else {
            rounds(catalog, selected, next)
        }
    }
}

/// The identifiers of modules.
pub open spec fn ids_in(list: Seq<ModuleDefinition>) -> Seq<Seq<char>> {
    list.map_values(|module: ModuleDefinition| module.id@)
}

/// Like `one_round`, with the modules themselves.
pub open spec fn one_round_of(
    catalog: ModuleCatalog,
    selected: Seq<Seq<char>>,
    emitted: Seq<ModuleDefinition>,
    at: int,
) -> Seq<ModuleDefinition>
    decreases catalog.modules@.len() - at,
{
    if at < 0 || at >= catalog.modules@.len() {
        emitted
    } else if is_ready(catalog.modules@[at], selected, ids_in(emitted)) {
        one_round_of(catalog, selected, emitted.push(catalog.modules@[at]), at + 1)
    } else {
        one_round_of(catalog, selected, emitted, at + 1)
    }
}

/// Like `rounds`, with the modules themselves.
pub open spec fn composed(
    catalog: ModuleCatalog,
    selected: Seq<Seq<char>>,
    emitted: Seq<ModuleDefinition>,
) -> Option<Seq<ModuleDefinition>>
    decreases (if selected.len() > emitted.len() {
        (selected.len() - emitted.len()) as nat
    } else {
        0nat
    }),
{
    if emitted.len() >= selected.len() {
        Some(emitted)
    } else {
        let next = one_round_of(catalog, selected, emitted, 0);
        if next.len() <= emitted.len() {
            None
        } else {
            composed(catalog, selected, next)
        }
    }
}

/// The selected modules in the order of composition, or why there is none.
pub open spec fn composition(catalog: ModuleCatalog, selected: Seq<Seq<char>>) -> Result<
    Seq<ModuleDefinition>,
    Seq<char>,
> {
    match selection_defect(catalog, selected) {
        Some(message) => Err(message),
        None => match composed(catalog, selected, Seq::empty()) {
            Some(list) => Ok(list),
            None => Err("selected modules cannot be ordered by prerequisites"@),
        },
    }
}

/// The modules behind references.
pub open spec fn modules_of(list: Seq<&ModuleDefinition>) -> Seq<ModuleDefinition> {
    list.map_values(|module: &ModuleDefinition| *module)
}

proof fn lemma_round_ids(
    catalog: ModuleCatalog,
    selected: Seq<Seq<char>>,
    emitted: Seq<ModuleDefinition>,
    at: int,
)
    ensures
        ids_in(one_round_of(catalog, selected, emitted, at)) == one_round(
            catalog,
            selected,
            ids_in(emitted),
            at,
        ),
    decreases catalog.modules@.len() - at,
{
    if 0 <= at < catalog.modules@.len() {
        let module = catalog.modules@[at];
        if is_ready(module, selected, ids_in(emitted)) {
            assert(ids_in(emitted.push(module)) =~= ids_in(emitted).push(module.id@));
            lemma_round_ids(catalog, selected, emitted.push(module), at + 1);
        } else {
            lemma_round_ids(catalog, selected, emitted, at + 1);
        }
    }
}

/// The modules in the order of composition have the identifiers in the order of composition.
pub proof fn lemma_composed_ids(
    catalog: ModuleCatalog,
    selected: Seq<Seq<char>>,
    emitted: Seq<ModuleDefinition>,
)
    ensures
        match composed(catalog, selected, emitted) {
            Some(list) => rounds(catalog, selected, ids_in(emitted)) == Some(ids_in(list)),
            None => rounds(catalog, selected, ids_in(emitted)) is None,
        },
    decreases (if selected.len() > emitted.len() {
        (selected.len() - emitted.len()) as nat
    } else {
        0nat
    }),
{
    if emitted.len() < selected.len() {
        let next = one_round_of(catalog, selected, emitted, 0);
        lemma_round_ids(catalog, selected, emitted, 0);
        if next.len() > emitted.len() {
            lemma_composed_ids(catalog, selected, next);
        }
    }
}

/// The identifiers of modules behind references.
pub open spec fn ids_of(list: Seq<&ModuleDefinition>) -> Seq<Seq<char>> {
    list.map_values(|module: &ModuleDefinition| module.id@)
}

impl ModuleCatalog {
    /// Resolves a requested module and all transitive prerequisites, then checks explicit
    /// conflicts and provider-slot exclusivity for the full selection.
    pub fn resolve_add(&self, selected: &TextSet, requested: &str) -> (result: Result<
        TextSet,
        CatalogError,
    >)
        ensures
            match result {
                Ok(resolved) => added(*self, selected@.to_set(), requested@) == Ok::<
                    Set<Seq<char>>,
                    Seq<char>,
                >(resolved@.to_set()) && ascending::<String>(resolved@),
                Err(error) => added(*self, selected@.to_set(), requested@) == Err::<
                    Set<Seq<char>>,
                    Seq<char>,
                >(error.text()),
            },
    {
        if self.module(requested).is_none() {
            return Err(
                CatalogError::new(
                    join3(
                        "unknown module `",
                        requested,
                        "`; select an id from the module catalog",
                    ),
                ),
            );
        }
        let mut resolved = selected.duplicate();
        let visiting: Vec<String> = Vec::new();
        assert(texts(visiting@) =~= Seq::<Seq<char>>::empty());
        match self.collect_dependencies(requested, &visiting, &mut resolved) {
            Ok(()) => {},
            Err(error) => {
                return Err(error);
            },
        }
        insert_text(&mut resolved, requested);
        proof {
            lemma_listing(resolved@);
        }
        match self.validate_selection(&resolved) {
            Ok(()) => Ok(resolved),
            Err(error) => Err(error),
        }
    }

    fn find_blockers(&self, selected: &TextSet, requested: &str) -> (result: Result<
        Vec<String>,
        CatalogError,
    >)
        ensures
            match result {
                Ok(found) => blockers(*self, selected@, requested@, selected@.len() as int)
                    == Ok::<Seq<Seq<char>>, Seq<char>>(texts(found@)),
                Err(error) => blockers(*self, selected@, requested@, selected@.len() as int)
                    == Err::<Seq<Seq<char>>, Seq<char>>(error.text()),
            },
    {
        let visiting: Vec<String> = Vec::new();
        let mut found: Vec<String> = Vec::new();
        let mut index: usize = 0;
        assert(texts(visiting@) =~= Seq::<Seq<char>>::empty());
        assert(texts(found@) =~= Seq::<Seq<char>>::empty());
        while index < selected.len()
            invariant
                texts(visiting@) == Seq::<Seq<char>>::empty(),
                index <= selected@.len(),
                blockers(*self, selected@, requested@, index as int) == Ok::<
                    Seq<Seq<char>>,
                    Seq<char>,
                >(texts(found@)),
            decreases selected@.len() - index,
        {
            let id = selected.at(index).as_str();
            if !same_text(id, requested) {
                match self.depends_on(id, requested, &visiting) {
                    Ok(true) => {
                        let ghost before = texts(found@);
                        found.push(id.to_owned());
                        assert(texts(found@) =~= before.push(id@));
                    },
                    Ok(false) => {},
                    Err(error) => {
                        proof {
                            lemma_blockers_error(
                                *self,
                                selected@,
                                requested@,
                                index + 1,
                                selected@.len() as int,
                            );
                        }
                        return Err(error);
                    },
                }
            }
            index += 1;
        }
        Ok(found)
    }

    /// Removes one selected module only when no remaining module depends on it. Repeating removal
    /// of an absent module is an idempotent no-op.
    pub fn resolve_remove(&self, selected: &TextSet, requested: &str) -> (result: Result<
        TextSet,
        CatalogError,
    >)
        ensures
            match result {
                Ok(resolved) => removed(*self, selected@, requested@) == Ok::<
                    Set<Seq<char>>,
                    Seq<char>,
                >(resolved@.to_set()) && ascending::<String>(resolved@),
                Err(error) => removed(*self, selected@, requested@) == Err::<
                    Set<Seq<char>>,
                    Seq<char>,
                >(error.text()),
            },
    {
        if self.module(requested).is_none() {
            return Err(
                CatalogError::new(
                    join3(
                        "unknown module `",
                        requested,
                        "`; select an id from the module catalog",
                    ),
                ),
            );
        }
        if !set_holds(selected, requested) {
            selected.use_order();
            return Ok(selected.duplicate());
        }
        let found = match self.find_blockers(selected, requested) {
            Ok(found) => found,
            Err(error) => {
                return Err(error);
            },
        };
        assert(texts(found@).len() == found@.len());
        if found.len() > 0 {
            let list = join_texts(&found, ", ");
            return Err(
                CatalogError::new(
                    join4(
                        "cannot remove module `",
                        requested,
                        "`; selected dependents: ",
                        list.as_str(),
                    ),
                ),
            );
        }
        let resolved = remove_text(selected, requested);
        proof {
            lemma_listing(resolved@);
        }
        match self.validate_selection(&resolved) {
            Ok(()) => Ok(resolved),
            Err(error) => Err(error),
        }
    }

    /// Returns selected runtime dependencies in deterministic registry order.
    pub fn selected_runtime_dependencies(&self, selected: &TextSet) -> (result: Result<
        Vec<&RuntimeDependencyDescriptor>,
        CatalogError,
    >)
        ensures
            outcome(result) == selection_defect(*self, selected@),
            result matches Ok(list) ==> descriptors_of(list@) == needed_descriptors(
                *self,
                selected@,
                self.runtime_dependencies@.len() as int,
            ),
    {
        match self.validate_selection(selected) {
            Ok(()) => {},
            Err(error) => {
                return Err(error);
            },
        }
        let mut list: Vec<&RuntimeDependencyDescriptor> = Vec::new();
        let mut index: usize = 0;
        assert(descriptors_of(list@) =~= Seq::<RuntimeDependencyDescriptor>::empty());
        while index < self.runtime_dependencies.len()
            invariant
                index <= self.runtime_dependencies@.len(),
                selection_defect(*self, selected@) is None,
                descriptors_of(list@) == needed_descriptors(*self, selected@, index as int),
            decreases self.runtime_dependencies@.len() - index,
        {
            let descriptor = &self.runtime_dependencies[index];
            if self.needs(selected, descriptor.id()) {
                let ghost before = descriptors_of(list@);
                list.push(descriptor);
                assert(descriptors_of(list@) =~= before.push(*descriptor));
            }
            index += 1;
        }
        Ok(list)
    }

    fn needs(&self, selected: &TextSet, id: RuntimeDependencyId) -> (found: bool)
        ensures
            found == is_needed(*self, selected@, id),
    {
        let mut index: usize = 0;
        while index < selected.len()
            invariant
                index <= selected@.len(),
                forall|i: int|
                    0 <= i < index ==> !(self.find(#[trigger] selected@[i]) matches Some(module)
                        && module.runtime_dependencies@.contains(id)),
            decreases selected@.len() - index,
        {
            if let Some(module) = self.module(selected.at(index).as_str()) {
                if holds_id(&module.runtime_dependencies, id) {
                    assert(self.find(selected@[index as int]) == Some(*module));
                    return true;
                }
            }
            index += 1;
        }
        false
    }

    /// Returns selected modules in prerequisite-first catalog order.
    pub fn composition_order(&self, selected: &TextSet) -> (result: Result<
        Vec<&ModuleDefinition>,
        CatalogError,
    >)
        ensures
            match result {
                Ok(ordered) => composition(*self, selected@) == Ok::<
                    Seq<ModuleDefinition>,
                    Seq<char>,
                >(modules_of(ordered@)),
                Err(error) => composition(*self, selected@) == Err::<
                    Seq<ModuleDefinition>,
                    Seq<char>,
                >(error.text()),
            },
            match result {
                Ok(ordered) => selection_defect(*self, selected@) is None && rounds(
                    *self,
                    selected@,
                    Seq::empty(),
                ) == Some(ids_of(ordered@)) && forall|i: int|
                    0 <= i < ordered@.len() ==> self.modules@.contains(*#[trigger] ordered@[i]),
                Err(error) => match selection_defect(*self, selected@) {
                    Some(message) => error.text() == message,
                    None => rounds(*self, selected@, Seq::empty()) is None && error.text()
                        == "selected modules cannot be ordered by prerequisites"@,
                },
            },
    {
        match self.validate_selection(selected) {
            Ok(()) => {},
            Err(error) => {
                return Err(error);
            },
        }
        let mut ordered: Vec<&ModuleDefinition> = Vec::new();
        let mut emitted: TextSet = Sorted::new();
        assert(ids_of(ordered@) =~= Seq::<Seq<char>>::empty());
        assert(modules_of(ordered@) =~= Seq::<ModuleDefinition>::empty());
        while ordered.len() < selected.len()
            invariant
                selection_defect(*self, selected@) is None,
                composed(*self, selected@, Seq::empty()) == composed(
                    *self,
                    selected@,
                    modules_of(ordered@),
                ),
                rounds(*self, selected@, Seq::empty()) == rounds(
                    *self,
                    selected@,
                    ids_of(ordered@),
                ),
                forall|id: Seq<char>| #[trigger]
                    emitted@.contains(id) <==> ids_of(ordered@).contains(id),
                forall|i: int|
                    0 <= i < ordered@.len() ==> self.modules@.contains(*#[trigger] ordered@[i]),
            decreases (if selected@.len() > ordered@.len() {
                (selected@.len() - ordered@.len()) as nat
            } else {
                0nat
            }),
        {
            let before: usize = ordered.len();
            let ghost start = ids_of(ordered@);
            let ghost start_modules = modules_of(ordered@);
            let mut index: usize = 0;
            while index < self.modules.len()
                invariant
                    index <= self.modules@.len(),
                    before == start.len(),
                    before <= ordered@.len(),
                    before == start_modules.len(),
                    one_round_of(*self, selected@, start_modules, 0) == one_round_of(
                        *self,
                        selected@,
                        modules_of(ordered@),
                        index as int,
                    ),
                    one_round(*self, selected@, start, 0) == one_round(
                        *self,
                        selected@,
                        ids_of(ordered@),
                        index as int,
                    ),
                    forall|id: Seq<char>| #[trigger]
                        emitted@.contains(id) <==> ids_of(ordered@).contains(id),
                    forall|i: int|
                        0 <= i < ordered@.len() ==> self.modules@.contains(
                            *#[trigger] ordered@[i],
                        ),
                decreases self.modules@.len() - index,
            {
                let module = &self.modules[index];
                let ready = set_holds(selected, module.id.as_str()) && !set_holds(
                    &emitted,
                    module.id.as_str(),
                ) && all_held(&emitted, &module.prerequisites);
                proof {
                    let done = ids_of(ordered@);
                    assert(ids_in(modules_of(ordered@)) =~= done);
                    assert(ready == is_ready(*module, selected@, done)) by {
                        assert forall|i: int| 0 <= i < module.prerequisites@.len() implies (
                        emitted@.contains((#[trigger] module.prerequisites@[i])@)
                            <==> done.contains(module.prerequisites@[i]@)) by {}
                    }
                }
                if ready {
                    let ghost done = ids_of(ordered@);
                    let ghost held = emitted@;
                    let ghost done_modules = modules_of(ordered@);
                    set_add(&mut emitted, module.id.as_str());
                    ordered.push(module);
                    proof {
                        let more = ids_of(ordered@);
                        assert(more =~= done.push(module.id@));
                        assert(modules_of(ordered@) =~= done_modules.push(*module));
                        assert forall|id: Seq<char>| #[trigger]
                            emitted@.contains(id) <==> more.contains(id) by {
                            assert(held.contains(id) <==> done.contains(id));
                            if done.contains(id) {
                                let k = choose|k: int| 0 <= k < done.len() && done[k] == id;
                                assert(more[k] == id);
                            }
                            if id == module.id@ {
                                assert(more[done.len() as int] == id);
                            }
                        }
                        assert forall|i: int| 0 <= i < ordered@.len() implies self.modules@.contains(
                            *#[trigger] ordered@[i],
                        ) by {
                            if i == done.len() {
                                assert(self.modules@[index as int] == *module);
                            }
                        }
                    }
                }
                index += 1;
            }
            assert(ids_of(ordered@).len() == ordered@.len());
            if ordered.len() == before {
                return Err(
                    CatalogError::new(
                        "selected modules cannot be ordered by prerequisites".to_owned(),
                    ),
                );
            }
        }
        assert(ids_of(ordered@).len() == ordered@.len());
        Ok(ordered)
    }
}

proof fn lemma_blockers_error(
    catalog: ModuleCatalog,
    selected: Seq<Seq<char>>,
    requested: Seq<char>,
    count: int,
    total: int,
)
    requires
        blockers(catalog, selected, requested, count) is Err,
        0 <= count <= total,
    ensures
        blockers(catalog, selected, requested, total) == blockers(
            catalog,
            selected,
            requested,
            count,
        ),
    decreases total - count,
{
    if count < total {
        lemma_blockers_error(catalog, selected, requested, count, total - 1);
    }
}

fn all_held(set: &TextSet, list: &Vec<String>) -> (held: bool)
    ensures
        held == forall|i: int|
            0 <= i < list@.len() ==> set@.contains((#[trigger] list@[i])@),
{
    let mut index: usize = 0;
    while index < list.len()
        invariant
            index <= list@.len(),
            forall|i: int| 0 <= i < index ==> set@.contains((#[trigger] list@[i])@),
        decreases list@.len() - index,
    {
        if !set_holds(set, list[index].as_str()) {
            assert(!set@.contains(list@[index as int]@));
            return false;
        }
        index += 1;
    }
    true
}

fn remove_text(set: &TextSet, text: &str) -> (result: TextSet)
    ensures
        result@.to_set() == set@.to_set().remove(text@),
        ascending::<String>(result@),
{
    let mut result: TextSet = Sorted::new();
    let mut index: usize = 0;
    result.use_order();
    while index < set.len()
        invariant
            index <= set@.len(),
            ascending::<String>(result@),
            forall|value: Seq<char>| #[trigger]
                result@.contains(value) <==> value != text@ && set@.take(index as int).contains(
                    value,
                ),
        decreases set@.len() - index,
    {
        let item = set.at(index).as_str();
        let ghost before = result@;
        if !same_text(item, text) {
            set_add(&mut result, item);
        }
        proof {
            let seen = set@.take(index as int);
            let more = set@.take(index + 1);
            assert(more =~= seen.push(item@));
            assert forall|value: Seq<char>| #[trigger]
                result@.contains(value) <==> value != text@ && more.contains(value) by {
                assert(before.contains(value) <==> value != text@ && seen.contains(value));
                if seen.contains(value) {
                    let k = choose|k: int| 0 <= k < seen.len() && seen[k] == value;
                    assert(more[k] == value);
                }
                if value == item@ {
                    assert(more[index as int] == value);
                }
                if more.contains(value) {
                    let k = choose|k: int| 0 <= k < more.len() && more[k] == value;
                    if k < index {
                        assert(seen[k] == value);
                    }
                }
            }
        }
        index += 1;
    }
    proof {
        assert(set@.take(index as int) =~= set@);
        assert forall|value: Seq<char>| result@.to_set().contains(value)
            <==> set@.to_set().remove(text@).contains(value) by {
            assert(result@.contains(value) <==> value != text@ && set@.contains(value));
        }
        assert(result@.to_set() =~= set@.to_set().remove(text@));
    }
    result
}

// Laws of selections.
/// Whether each module of `chain` has the next one as a prerequisite.
pub open spec fn is_chain(catalog: ModuleCatalog, chain: Seq<Seq<char>>) -> bool {
    forall|i: int|
        0 <= i < chain.len() - 1 ==> (catalog.find(#[trigger] chain[i]) matches Some(module)
            && texts(module.prerequisites@).contains(chain[i + 1]))
}

/// Whether prerequisites lead from `id` to `target`, in one step or more.
pub open spec fn leads_to(catalog: ModuleCatalog, id: Seq<char>, target: Seq<char>) -> bool {
    exists|chain: Seq<Seq<char>>| #[trigger]
        is_chain(catalog, chain) && chain.len() >= 2 && chain[0] == id && chain.last() == target
}

pub(crate) proof fn lemma_leads_step(catalog: ModuleCatalog, id: Seq<char>, at: int)
    requires
        catalog.find(id) is Some,
        0 <= at < catalog.find(id)->Some_0.prerequisites@.len(),
    ensures
        leads_to(catalog, id, texts(catalog.find(id)->Some_0.prerequisites@)[at]),
{
    let module = catalog.find(id)->Some_0;
    let target = texts(module.prerequisites@)[at];
    let chain = seq![id, target];
    assert(texts(module.prerequisites@).contains(target));
    assert forall|i: int| 0 <= i < chain.len() - 1 implies (catalog.find(#[trigger] chain[i]) matches
        Some(found) && texts(found.prerequisites@).contains(chain[i + 1])) by {}
    assert(is_chain(catalog, chain) && chain.len() >= 2 && chain[0] == id && chain.last()
        == target);
}

pub(crate) proof fn lemma_leads_on(catalog: ModuleCatalog, id: Seq<char>, at: int, target: Seq<char>)
    requires
        catalog.find(id) is Some,
        0 <= at < catalog.find(id)->Some_0.prerequisites@.len(),
        leads_to(catalog, texts(catalog.find(id)->Some_0.prerequisites@)[at], target),
    ensures
        leads_to(catalog, id, target),
{
    let module = catalog.find(id)->Some_0;
    let middle = texts(module.prerequisites@)[at];
    assert(texts(module.prerequisites@).contains(middle));
    let chain = choose|chain: Seq<Seq<char>>| #[trigger]
        is_chain(catalog, chain) && chain.len() >= 2 && chain[0] == middle && chain.last()
            == target;
    let longer = seq![id] + chain;
    assert forall|i: int| 0 <= i < longer.len() - 1 implies (catalog.find(#[trigger] longer[i]) matches
        Some(found) && texts(found.prerequisites@).contains(longer[i + 1])) by {
        if i > 0 {
            assert(longer[i] == chain[i - 1]);
            assert(longer[i + 1] == chain[i]);
        } else {
            assert(longer[1] == middle);
        }
    }
    assert(is_chain(catalog, longer) && longer.len() >= 2 && longer[0] == id && longer.last()
        == target);
}

/// Collecting the prerequisites of a module keeps what was collected, and adds only what its
/// prerequisites lead to.
pub proof fn lemma_collect_sound(
    catalog: ModuleCatalog,
    id: Seq<char>,
    path: Seq<Seq<char>>,
    collected: Set<Seq<char>>,
)
    requires
        path.len() <= catalog.modules@.len(),
    ensures
        collect(catalog, id, path, collected) matches Ok(more) ==> collected.subset_of(more)
            && forall|value: Seq<char>|
            #![trigger more.contains(value)]
            more.contains(value) ==> collected.contains(value) || leads_to(catalog, id, value),
    decreases catalog.modules@.len() - path.len(), 0nat,
{
    if !collected.contains(id) && !path.contains(id) {
        if let Some(module) = catalog.find(id) {
            if path.len() < catalog.modules@.len() {
                lemma_collect_each_sound(catalog, id, module, 0, path.push(id), collected);
            }
        }
    }
}

proof fn lemma_collect_each_sound(
    catalog: ModuleCatalog,
    id: Seq<char>,
    module: ModuleDefinition,
    at: int,
    path: Seq<Seq<char>>,
    collected: Set<Seq<char>>,
)
    requires
        catalog.find(id) == Some(module),
        path.len() <= catalog.modules@.len(),
        0 <= at <= module.prerequisites@.len(),
    ensures
        collect_each(catalog, texts(module.prerequisites@), at, path, collected) matches Ok(more)
            ==> collected.subset_of(more) && forall|value: Seq<char>|
            #![trigger more.contains(value)]
            more.contains(value) ==> collected.contains(value) || leads_to(catalog, id, value),
    decreases
            catalog.modules@.len() - path.len(),
            (module.prerequisites@.len() - at + 1) as nat,
{
    let list = texts(module.prerequisites@);
    if at < list.len() {
        lemma_collect_sound(catalog, list[at], path, collected);
        match collect(catalog, list[at], path, collected) {
            Err(_) => {},
            Ok(more) => {
                let grown = more.insert(list[at]);
                lemma_collect_each_sound(catalog, id, module, at + 1, path, grown);
                match collect_each(catalog, list, at + 1, path, grown) {
                    Err(_) => {},
                    Ok(all) => {
                        assert forall|value: Seq<char>| collected.contains(
                            value,
                        ) implies all.contains(value) by {
                            assert(more.contains(value));
                            assert(grown.contains(value));
                        }
                        assert forall|value: Seq<char>|
                            #![trigger all.contains(value)]
                            all.contains(value) implies collected.contains(value) || leads_to(
                            catalog,
                            id,
                            value,
                        ) by {
                            if !leads_to(catalog, id, value) {
                                assert(grown.contains(value));
                                if value == list[at] {
                                    lemma_leads_step(catalog, id, at);
                                } else {
                                    assert(more.contains(value));
                                    if leads_to(catalog, list[at], value) {
                                        lemma_leads_on(catalog, id, at, value);
                                    }
                                }
                            }
                        }
                    },
                }
            },
        }
    }
}

/// A valid selection has the prerequisites of its modules, and no unknown module.
pub proof fn lemma_selection_closed(catalog: ModuleCatalog, selected: Seq<Seq<char>>, id: Seq<char>)
    requires
        selection_defect(catalog, selected) is None,
        selected.contains(id),
    ensures
        catalog.has_module(id),
        forall|i: int|
            0 <= i < catalog.find(id)->Some_0.prerequisites@.len() ==> selected.contains(
                (#[trigger] catalog.find(id)->Some_0.prerequisites@[i])@,
            ),
{
    let check = member_check(catalog, selected);
    lemma_no_finding(selected, check);
    let k = choose|k: int| 0 <= k < selected.len() && selected[k] == id;
    assert(check(selected[k]) is None);
    let module = catalog.find(id)->Some_0;
    let list = texts(module.prerequisites@);
    lemma_no_finding(list, prerequisite_check(selected, id));
    assert forall|i: int| 0 <= i < module.prerequisites@.len() implies selected.contains(
        (#[trigger] module.prerequisites@[i])@,
    ) by {
        assert(prerequisite_check(selected, id)(list[i]) is None);
    }
}

/// Adding a module keeps the selection, selects the module, and adds nothing beside what its
/// prerequisites lead to; the result is a valid selection.
pub proof fn lemma_added(
    catalog: ModuleCatalog,
    selected: Set<Seq<char>>,
    requested: Seq<char>,
)
    ensures
        added(catalog, selected, requested) matches Ok(resolved) ==> {
            &&& selected.subset_of(resolved)
            &&& resolved.contains(requested)
            &&& forall|value: Seq<char>|
                #![trigger resolved.contains(value)]
                resolved.contains(value) ==> selected.contains(value) || value == requested
                    || leads_to(catalog, requested, value)
            &&& selection_defect(catalog, listing(resolved)) is None
        },
{
    lemma_collect_sound(catalog, requested, Seq::empty(), selected);
    if let Ok(resolved) = added(catalog, selected, requested) {
        let collected = collect(catalog, requested, Seq::empty(), selected)->Ok_0;
        assert forall|value: Seq<char>|
            #![trigger resolved.contains(value)]
            resolved.contains(value) implies selected.contains(value) || value == requested
            || leads_to(catalog, requested, value) by {
            if value != requested {
                assert(collected.contains(value));
            }
        }
    }
}

/// Removing a module that is not selected changes nothing, and removing a selected one takes
/// away that module alone.
pub proof fn lemma_removed(
    catalog: ModuleCatalog,
    selected: Seq<Seq<char>>,
    requested: Seq<char>,
)
    ensures
        removed(catalog, selected, requested) matches Ok(resolved) ==> {
            &&& resolved == selected.to_set().remove(requested)
            &&& selected.contains(requested) ==> selection_defect(catalog, listing(resolved)) is None
        },
{
    if removed(catalog, selected, requested) is Ok && !selected.contains(requested) {
        assert(selected.to_set().remove(requested) =~= selected.to_set());
    }
}

// Laws of the order.
/// Whether the modules of `order` are selected, each once, and behind their prerequisites.
pub open spec fn is_ordered(
    catalog: ModuleCatalog,
    selected: Seq<Seq<char>>,
    order: Seq<Seq<char>>,
) -> bool {
    &&& order.no_duplicates()
    &&& forall|k: int|
        0 <= k < order.len() ==> selected.contains(#[trigger] order[k]) && emitted_ready(
            catalog,
            selected,
            order,
            k,
        )
}

/// Whether the module at `k` could be composed behind those before it.
pub open spec fn emitted_ready(
    catalog: ModuleCatalog,
    selected: Seq<Seq<char>>,
    order: Seq<Seq<char>>,
    k: int,
) -> bool {
    exists|i: int|
        0 <= i < catalog.modules@.len() && (#[trigger] catalog.modules@[i]).id@ == order[k]
            && is_ready(catalog.modules@[i], selected, order.take(k))
}

proof fn lemma_one_round(
    catalog: ModuleCatalog,
    selected: Seq<Seq<char>>,
    emitted: Seq<Seq<char>>,
    at: int,
)
    requires
        is_ordered(catalog, selected, emitted),
        0 <= at <= catalog.modules@.len(),
    ensures
        is_ordered(catalog, selected, one_round(catalog, selected, emitted, at)),
        emitted.is_prefix_of(one_round(catalog, selected, emitted, at)),
    decreases catalog.modules@.len() - at,
{
    if at < catalog.modules@.len() {
        let module = catalog.modules@[at];
        if is_ready(module, selected, emitted) {
            let more = emitted.push(module.id@);
            assert(more.no_duplicates()) by {
                assert forall|i: int, j: int| 0 <= i < more.len() && 0 <= j < more.len() && i
                    != j implies more[i] != more[j] by {
                    if i == emitted.len() {
                        assert(emitted.contains(emitted[j]));
                    } else if j == emitted.len() {
                        assert(emitted.contains(emitted[i]));
                    }
                }
            }
            assert forall|k: int| 0 <= k < more.len() implies selected.contains(
                #[trigger] more[k],
            ) && emitted_ready(catalog, selected, more, k) by {
                if k < emitted.len() {
                    assert(more[k] == emitted[k]);
                    assert(more.take(k) =~= emitted.take(k));
                    assert(emitted_ready(catalog, selected, emitted, k));
                    let i = choose|i: int|
                        0 <= i < catalog.modules@.len() && (#[trigger] catalog.modules@[i]).id@
                            == emitted[k] && is_ready(
                            catalog.modules@[i],
                            selected,
                            emitted.take(k),
                        );
                    assert(catalog.modules@[i].id@ == more[k]);
                } else {
                    assert(more.take(k) =~= emitted);
                    assert(catalog.modules@[at].id@ == more[k]);
                }
            }
            lemma_one_round(catalog, selected, more, at + 1);
            assert(emitted.is_prefix_of(more));
        } else {
            lemma_one_round(catalog, selected, emitted, at + 1);
        }
    }
}

proof fn lemma_rounds(
    catalog: ModuleCatalog,
    selected: Seq<Seq<char>>,
    emitted: Seq<Seq<char>>,
)
    requires
        is_ordered(catalog, selected, emitted),
    ensures
        rounds(catalog, selected, emitted) matches Some(order) ==> is_ordered(
            catalog,
            selected,
            order,
        ) && order.len() >= selected.len(),
    decreases (if selected.len() > emitted.len() {
        (selected.len() - emitted.len()) as nat
    } else {
        0nat
    }),
{
    if emitted.len() < selected.len() {
        lemma_one_round(catalog, selected, emitted, 0);
        let next = one_round(catalog, selected, emitted, 0);
        if next.len() > emitted.len() {
            lemma_rounds(catalog, selected, next);
        }
    }
}

/// The order of composition holds every selected module once, each behind its prerequisites.
pub proof fn lemma_order_is_prerequisite_first(catalog: ModuleCatalog, selected: Seq<Seq<char>>)
    requires
        ascending::<String>(selected),
    ensures
        rounds(catalog, selected, Seq::empty()) matches Some(order) ==> {
            &&& is_ordered(catalog, selected, order)
            &&& order.to_set() == selected.to_set()
            &&& order.len() == selected.len()
        },
{
    let none = Seq::<Seq<char>>::empty();
    assert(is_ordered(catalog, selected, none));
    lemma_rounds(catalog, selected, none);
    if let Some(order) = rounds(catalog, selected, none) {
        lemma_ascending_distinct::<String>(selected);
        assert(selected.no_duplicates());
        order.unique_seq_to_set();
        selected.unique_seq_to_set();
        assert(order.to_set().subset_of(selected.to_set())) by {
            assert forall|id: Seq<char>| order.to_set().contains(
                id,
            ) implies selected.to_set().contains(id) by {
                let k = choose|k: int| 0 <= k < order.len() && order[k] == id;
                assert(selected.contains(order[k]));
            }
        }
        vstd::set_lib::lemma_len_subset(order.to_set(), selected.to_set());
        vstd::set_lib::lemma_subset_equality(order.to_set(), selected.to_set());
    }
}

/// A round that adds nothing leaves no module that could be composed.
proof fn lemma_stuck_round(
    catalog: ModuleCatalog,
    selected: Seq<Seq<char>>,
    emitted: Seq<Seq<char>>,
    at: int,
    place: int,
)
    requires
        is_ordered(catalog, selected, emitted),
        0 <= at <= place < catalog.modules@.len(),
        one_round(catalog, selected, emitted, at).len() <= emitted.len(),
    ensures
        !is_ready(catalog.modules@[place], selected, emitted),
    decreases catalog.modules@.len() - at,
{
    let module = catalog.modules@[at];
    if is_ready(module, selected, emitted) {
        let more = emitted.push(module.id@);
        assert(one_round(catalog, selected, emitted, at) == one_round(
            catalog,
            selected,
            more,
            at + 1,
        ));
        lemma_round_grows(catalog, selected, more, at + 1);
    } else if at < place {
        lemma_stuck_round(catalog, selected, emitted, at + 1, place);
    }
}

proof fn lemma_round_grows(
    catalog: ModuleCatalog,
    selected: Seq<Seq<char>>,
    emitted: Seq<Seq<char>>,
    at: int,
)
    ensures
        one_round(catalog, selected, emitted, at).len() >= emitted.len(),
    decreases catalog.modules@.len() - at,
{
    if 0 <= at < catalog.modules@.len() {
        if is_ready(catalog.modules@[at], selected, emitted) {
            lemma_round_grows(
                catalog,
                selected,
                emitted.push(catalog.modules@[at].id@),
                at + 1,
            );
        } else {
            lemma_round_grows(catalog, selected, emitted, at + 1);
        }
    }
}

/// Whether every module of `knot` has a prerequisite in `knot`.
pub open spec fn is_knot(catalog: ModuleCatalog, knot: Set<Seq<char>>) -> bool {
    forall|id: Seq<char>|
        #![trigger knot.contains(id)]
        knot.contains(id) ==> (catalog.find(id) matches Some(module) && exists|i: int|
            0 <= i < module.prerequisites@.len() && knot.contains(
                (#[trigger] module.prerequisites@[i])@,
            ))
}

/// Modules that need each other in a circle cannot be collected.
pub(crate) proof fn lemma_knot_fails(
    catalog: ModuleCatalog,
    knot: Set<Seq<char>>,
    id: Seq<char>,
    path: Seq<Seq<char>>,
    collected: Set<Seq<char>>,
)
    requires
        is_knot(catalog, knot),
        path.len() <= catalog.modules@.len(),
        collected.disjoint(knot),
    ensures
        knot.contains(id) ==> collect(catalog, id, path, collected) is Err,
        collect(catalog, id, path, collected) matches Ok(more) ==> more.disjoint(knot),
    decreases catalog.modules@.len() - path.len(), 0nat,
{
    if knot.contains(id) {
        assert(!collected.contains(id));
    }
    if !collected.contains(id) && !path.contains(id) {
        if let Some(module) = catalog.find(id) {
            if path.len() < catalog.modules@.len() {
                lemma_knot_fails_each(catalog, knot, module, 0, path.push(id), collected);
                if knot.contains(id) {
                    let i = choose|i: int|
                        0 <= i < module.prerequisites@.len() && knot.contains(
                            (#[trigger] module.prerequisites@[i])@,
                        );
                    assert(knot.contains(texts(module.prerequisites@)[i]));
                }
            }
        }
    }
}

proof fn lemma_knot_fails_each(
    catalog: ModuleCatalog,
    knot: Set<Seq<char>>,
    module: ModuleDefinition,
    at: int,
    path: Seq<Seq<char>>,
    collected: Set<Seq<char>>,
)
    requires
        is_knot(catalog, knot),
        path.len() <= catalog.modules@.len(),
        collected.disjoint(knot),
        0 <= at <= module.prerequisites@.len(),
    ensures
        (exists|i: int|
            at <= i < module.prerequisites@.len() && knot.contains(
                #[trigger] texts(module.prerequisites@)[i],
            )) ==> collect_each(
            catalog,
            texts(module.prerequisites@),
            at,
            path,
            collected,
        ) is Err,
        collect_each(catalog, texts(module.prerequisites@), at, path, collected) matches Ok(more)
            ==> more.disjoint(knot),
    decreases
            catalog.modules@.len() - path.len(),
            (module.prerequisites@.len() - at + 1) as nat,
{
    let list = texts(module.prerequisites@);
    if at < list.len() {
        lemma_knot_fails(catalog, knot, list[at], path, collected);
        match collect(catalog, list[at], path, collected) {
            Err(_) => {},
            Ok(more) => {
                let grown = more.insert(list[at]);
                assert(!knot.contains(list[at]));
                assert(grown.disjoint(knot));
                lemma_knot_fails_each(catalog, knot, module, at + 1, path, grown);
                if exists|i: int| at <= i < module.prerequisites@.len() && knot.contains(
                    #[trigger] list[i],
                ) {
                    let i = choose|i: int| at <= i < module.prerequisites@.len() && knot.contains(
                        #[trigger] list[i],
                    );
                    assert(i >= at + 1);
                    assert(knot.contains(list[i]));
                }
            },
        }
    }
}

/// Every valid selection from a valid catalog can be ordered.
pub proof fn lemma_valid_selection_is_ordered(
    catalog: ModuleCatalog,
    workspace: Seq<Seq<char>>,
    selected: Seq<Seq<char>>,
)
    requires
        catalog_defect(catalog, workspace) is None,
        ascending::<String>(selected),
        selection_defect(catalog, selected) is None,
    ensures
        rounds(catalog, selected, Seq::empty()) is Some,
{
    assert(is_ordered(catalog, selected, Seq::<Seq<char>>::empty()));
    lemma_rounds_complete(catalog, workspace, selected, Seq::empty());
}

proof fn lemma_rounds_complete(
    catalog: ModuleCatalog,
    workspace: Seq<Seq<char>>,
    selected: Seq<Seq<char>>,
    emitted: Seq<Seq<char>>,
)
    requires
        catalog_defect(catalog, workspace) is None,
        ascending::<String>(selected),
        selection_defect(catalog, selected) is None,
        is_ordered(catalog, selected, emitted),
    ensures
        rounds(catalog, selected, emitted) is Some,
    decreases (if selected.len() > emitted.len() {
        (selected.len() - emitted.len()) as nat
    } else {
        0nat
    }),
{
    if emitted.len() < selected.len() {
        let next = one_round(catalog, selected, emitted, 0);
        lemma_one_round(catalog, selected, emitted, 0);
        lemma_round_adds(catalog, workspace, selected, emitted);
        lemma_rounds_complete(catalog, workspace, selected, next);
    }
}

/// While modules are left, a round composes one of them.
proof fn lemma_round_adds(
    catalog: ModuleCatalog,
    workspace: Seq<Seq<char>>,
    selected: Seq<Seq<char>>,
    emitted: Seq<Seq<char>>,
)
    requires
        catalog_defect(catalog, workspace) is None,
        ascending::<String>(selected),
        selection_defect(catalog, selected) is None,
        is_ordered(catalog, selected, emitted),
        emitted.len() < selected.len(),
    ensures
        one_round(catalog, selected, emitted, 0).len() > emitted.len(),
{
    if one_round(catalog, selected, emitted, 0).len() <= emitted.len() {
        let knot = selected.to_set().difference(emitted.to_set());
        lemma_ascending_distinct::<String>(selected);
        assert(selected.no_duplicates());
        selected.unique_seq_to_set();
        emitted.unique_seq_to_set();
        assert forall|id: Seq<char>|
            #![trigger knot.contains(id)]
            knot.contains(id) implies (catalog.find(id) matches Some(module) && exists|i: int|
            0 <= i < module.prerequisites@.len() && knot.contains(
                (#[trigger] module.prerequisites@[i])@,
            )) by {
            assert(selected.contains(id));
            lemma_selection_closed(catalog, selected, id);
            catalog.lemma_find(id);
            let module = catalog.find(id)->Some_0;
            let place = choose|i: int|
                0 <= i < catalog.modules@.len() && #[trigger] catalog.modules@[i] == module;
            lemma_stuck_round(catalog, selected, emitted, 0, place);
            assert(!is_ready(module, selected, emitted));
            let i = choose|i: int|
                0 <= i < module.prerequisites@.len() && !emitted.contains(
                    (#[trigger] module.prerequisites@[i])@,
                );
            assert(selected.contains(module.prerequisites@[i]@));
            assert(knot.contains(module.prerequisites@[i]@));
        }
        assert(is_knot(catalog, knot));
        if selected.to_set().subset_of(emitted.to_set()) {
            vstd::set_lib::lemma_len_subset(selected.to_set(), emitted.to_set());
            assert(false);
        }
        let id = choose|id: Seq<char>|
            selected.to_set().contains(id) && !emitted.to_set().contains(id);
        assert(knot.contains(id));
        assert(selected.contains(id));
        lemma_selection_closed(catalog, selected, id);
        catalog.lemma_find(id);
        let module = catalog.find(id)->Some_0;
        let place = choose|i: int|
            0 <= i < catalog.modules@.len() && #[trigger] catalog.modules@[i] == module;
        lemma_valid_collects(catalog, workspace, place);
        lemma_knot_fails(catalog, knot, id, Seq::empty(), Set::empty());
    }
}

} // verus!
