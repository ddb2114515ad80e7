//! Selections of modules: their validity, what adding and removing a module gives, and the order
//! in which selected modules are composed.

use vstd::prelude::*;
use vstd::string::*;

use crate::configuration_checks::{configuration_path_is_secret, is_secret_path};
use crate::findings::{
    first_finding, lemma_finding_prefix, lemma_finding_step, lemma_no_finding, or_else,
};
use crate::modules::{
    outcome, CatalogError, ConfigurationField, FieldModel, ModuleCatalog, ModuleDefinition,
};
use crate::ordered::{ascending, lemma_ascending_extensional, set_add, set_holds, TextSet};
use crate::text::{
    clone_texts, holds_text, join3, join5, join7, optional_view, same_optional_text, same_text,
    texts,
};

verus! {

// Sets.
/// The sorted list of a set of strings.
pub open spec fn listing(set: Set<Seq<char>>) -> Seq<Seq<char>> {
    choose|list: Seq<Seq<char>>| ascending::<String>(list) && list.to_set() == set
}

/// There is at most one sorted list of a set.
pub proof fn lemma_listing(list: Seq<Seq<char>>)
    requires
        ascending::<String>(list),
    ensures
        listing(list.to_set()) == list,
{
    let other = listing(list.to_set());
    assert(ascending::<String>(list) && list.to_set() == list.to_set());
    assert(ascending::<String>(other) && other.to_set() == list.to_set());
    assert forall|value: Seq<char>| other.contains(value) <==> list.contains(value) by {
        assert(other.to_set().contains(value) <==> list.to_set().contains(value));
    }
    lemma_ascending_extensional::<String>(other, list);
}

/// Adds a string to a set.
pub(crate) fn insert_text(set: &mut TextSet, text: &str)
    ensures
        final(set)@.to_set() == old(set)@.to_set().insert(text@),
        ascending::<String>(final(set)@),
{
    let ghost before = set@;
    set_add(set, text);
    proof {
        assert forall|value: Seq<char>| set@.to_set().contains(value)
            <==> before.to_set().insert(text@).contains(value) by {
            assert(set@.contains(value) <==> before.contains(value) || value == text@);
        }
        assert(set@.to_set() =~= before.to_set().insert(text@));
    }
}

// Validity of a selection.
/// The check that a prerequisite of `id` is selected.
pub open spec fn prerequisite_check(selected: Seq<Seq<char>>, id: Seq<char>) -> spec_fn(
    Seq<char>,
) -> Option<Seq<char>> {
    |required: Seq<char>|
        if selected.contains(required) {
            None
        } else {
            Some(
                "selected module `"@ + id + "` requires missing module `"@ + required + "`"@,
            )
        }
}

/// The check that a selected module is known and has its prerequisites selected.
pub open spec fn member_check(catalog: ModuleCatalog, selected: Seq<Seq<char>>) -> spec_fn(
    Seq<char>,
) -> Option<Seq<char>> {
    |id: Seq<char>|
        match catalog.find(id) {
            None => Some("project state selects unknown module `"@ + id + "`"@),
            Some(module) => first_finding(
                texts(module.prerequisites@),
                prerequisite_check(selected, id),
            ),
        }
}

/// Whether two modules exclude each other explicitly.
pub open spec fn modules_conflict(left: ModuleDefinition, right: ModuleDefinition) -> bool {
    texts(left.conflicts_with@).contains(right.id@) || texts(right.conflicts_with@).contains(
        left.id@,
    )
}

/// What keeps two modules from being selected together.
pub open spec fn pair_defect(left: ModuleDefinition, right: ModuleDefinition) -> Option<
    Seq<char>,
> {
    if modules_conflict(left, right) {
        Some(
            "module conflict: `"@ + left.id@ + "` cannot be selected with `"@ + right.id@ + "`"@,
        )
    } else if left.provider_slot is Some && optional_view(left.provider_slot) == optional_view(
        right.provider_slot,
    ) {
        Some(
            "provider slot `"@ + left.provider_slot->Some_0@
                + "` has multiple selected providers: `"@ + left.id@ + "` and `"@ + right.id@
                + "`"@,
        )
    } else {
        None
    }
}

/// The check that a module can be selected together with `left`.
pub open spec fn pair_check(catalog: ModuleCatalog, left: Seq<char>) -> spec_fn(
    Seq<char>,
) -> Option<Seq<char>> {
    |right: Seq<char>|
        match (catalog.find(left), catalog.find(right)) {
            (Some(left_module), Some(right_module)) => pair_defect(left_module, right_module),
            (None, _) => Some("unknown module `"@ + left + "`"@),
            (_, None) => Some("unknown module `"@ + right + "`"@),
        }
}

/// What keeps one of the first `count` modules from being selected together with a later one.
pub open spec fn pairs_defect(
    catalog: ModuleCatalog,
    selected: Seq<Seq<char>>,
    count: int,
) -> Option<Seq<char>>
    decreases count,
{
    if count <= 0 {
        None
    } else {
        or_else(
            pairs_defect(catalog, selected, count - 1),
            first_finding(selected.skip(count), pair_check(catalog, selected[count - 1])),
        )
    }
}

/// A configuration field that a selected module declares.
pub struct DeclaredModel {
    /// Module.
    pub owner: Seq<char>,
    /// Field.
    pub field: FieldModel,
    /// Whether the field is secret.
    pub secret: bool,
}

/// The first `count` fields that a module declares.
pub open spec fn declared_by(module: ModuleDefinition, count: int) -> Seq<DeclaredModel>
    decreases count,
{
    if count <= 0 {
        Seq::empty()
    } else {
        let field = module.configuration.fields@[count - 1];
        declared_by(module, count - 1).push(
            DeclaredModel {
                owner: module.id@,
                field: field@,
                secret: is_secret_path(
                    field.path@,
                    texts(module.configuration.secret_fields@),
                ),
            },
        )
    }
}

/// The fields that the first `count` selected modules declare.
pub open spec fn declared(
    catalog: ModuleCatalog,
    selected: Seq<Seq<char>>,
    count: int,
) -> Seq<DeclaredModel>
    decreases count,
{
    if count <= 0 {
        Seq::empty()
    } else {
        declared(catalog, selected, count - 1) + match catalog.find(selected[count - 1]) {
            Some(module) => declared_by(module, module.configuration.fields@.len() as int),
            None => Seq::empty(),
        }
    }
}

/// The place of the last of the first `count` declarations of a path, or -1.
pub open spec fn last_declared(list: Seq<DeclaredModel>, path: Seq<char>, count: int) -> int
    decreases count,
{
    if count <= 0 {
        -1
    } else if list[count - 1].field.path == path {
        count - 1
    } else {
        last_declared(list, path, count - 1)
    }
}

/// What is wrong with the first `count` declarations: one differs from the one before it.
pub open spec fn declarations_defect(list: Seq<DeclaredModel>, count: int) -> Option<Seq<char>>
    decreases count,
{
    if count <= 0 {
        None
    } else {
        let here = list[count - 1];
        let place = last_declared(list, here.field.path, count - 1);
        or_else(
            declarations_defect(list, count - 1),
            if place >= 0 && (list[place].field != here.field || list[place].secret
                != here.secret) {
                Some(
                    "selected modules `"@ + list[place].owner + "` and `"@ + here.owner
                        + "` define conflicting configuration for `"@ + here.field.path + "`"@,
                )
            } else {
                None
            },
        )
    }
}

/// What keeps a selection from being valid.
pub open spec fn selection_defect(catalog: ModuleCatalog, selected: Seq<Seq<char>>) -> Option<
    Seq<char>,
> {
    let list = declared(catalog, selected, selected.len() as int);
    or_else(
        first_finding(selected, member_check(catalog, selected)),
        or_else(
            pairs_defect(catalog, selected, selected.len() as int),
            declarations_defect(list, list.len() as int),
        ),
    )
}

/// Nothing is wrong with pairs exactly where nothing is wrong with any two of the modules.
pub(crate) proof fn lemma_pairs(catalog: ModuleCatalog, selected: Seq<Seq<char>>, count: int)
    requires
        0 <= count <= selected.len(),
    ensures
        pairs_defect(catalog, selected, count) is None <==> forall|i: int, j: int|
            0 <= i < count && i < j < selected.len() ==> pair_check(
                catalog,
                #[trigger] selected[i],
            )(#[trigger] selected[j]) is None,
    decreases count,
{
    if count > 0 {
        lemma_pairs(catalog, selected, count - 1);
        let check = pair_check(catalog, selected[count - 1]);
        let later = selected.skip(count);
        lemma_no_finding(later, check);
        if pairs_defect(catalog, selected, count) is None {
            assert forall|i: int, j: int| 0 <= i < count && i < j < selected.len() implies pair_check(
                catalog,
                #[trigger] selected[i],
            )(#[trigger] selected[j]) is None by {
                if i == count - 1 {
                    assert(later[j - count] == selected[j]);
                }
            }
        }
        if forall|i: int, j: int|
            0 <= i < count && i < j < selected.len() ==> pair_check(
                catalog,
                #[trigger] selected[i],
            )(#[trigger] selected[j]) is None {
            assert forall|k: int| 0 <= k < later.len() implies check(#[trigger] later[k]) is None by {
                assert(later[k] == selected[count + k]);
                assert(selected[count - 1] == selected[count - 1]);
            }
        }
    }
}

proof fn lemma_pairs_stay(
    catalog: ModuleCatalog,
    selected: Seq<Seq<char>>,
    count: int,
    total: int,
)
    requires
        pairs_defect(catalog, selected, count) is Some,
        count <= total,
    ensures
        pairs_defect(catalog, selected, total) == pairs_defect(catalog, selected, count),
    decreases total - count,
{
    if count < total {
        lemma_pairs_stay(catalog, selected, count, total - 1);
    }
}

proof fn lemma_declarations_stay(list: Seq<DeclaredModel>, count: int, total: int)
    requires
        declarations_defect(list, count) is Some,
        count <= total,
    ensures
        declarations_defect(list, total) == declarations_defect(list, count),
    decreases total - count,
{
    if count < total {
        lemma_declarations_stay(list, count, total - 1);
    }
}

fn check_prerequisites(module: &ModuleDefinition, selected: &TextSet, id: &str) -> (result: Result<
    (),
    CatalogError,
>)
    ensures
        outcome(result) == first_finding(
            texts(module.prerequisites@),
            prerequisite_check(selected@, id@),
        ),
{
    let ghost all = texts(module.prerequisites@);
    let ghost check = prerequisite_check(selected@, id@);
    let mut index: usize = 0;
    while index < module.prerequisites.len()
        invariant
            all == texts(module.prerequisites@),
            check == prerequisite_check(selected@, id@),
            index <= all.len(),
            first_finding(all.take(index as int), check) is None,
        decreases all.len() - index,
    {
        let required = module.prerequisites[index].as_str();
        assert(all[index as int] == required@);
        proof {
            lemma_finding_step(all, index as int, check);
        }
        if !set_holds(selected, required) {
            proof {
                lemma_finding_prefix(all, index + 1, check);
            }
            return Err(
                CatalogError::new(
                    join5(
                        "selected module `",
                        id,
                        "` requires missing module `",
                        required,
                        "`",
                    ),
                ),
            );
        }
        index += 1;
    }
    assert(all.take(index as int) =~= all);
    Ok(())
}

fn check_pair(left: &ModuleDefinition, right: &ModuleDefinition) -> (result: Result<
    (),
    CatalogError,
>)
    ensures
        outcome(result) == pair_defect(*left, *right),
{
    if holds_text(&left.conflicts_with, right.id.as_str()) || holds_text(
        &right.conflicts_with,
        left.id.as_str(),
    ) {
        return Err(
            CatalogError::new(
                join5(
                    "module conflict: `",
                    left.id.as_str(),
                    "` cannot be selected with `",
                    right.id.as_str(),
                    "`",
                ),
            ),
        );
    }
    if let Some(slot) = &left.provider_slot {
        if same_optional_text(&left.provider_slot, &right.provider_slot) {
            return Err(
                CatalogError::new(
                    join7(
                        "provider slot `",
                        slot.as_str(),
                        "` has multiple selected providers: `",
                        left.id.as_str(),
                        "` and `",
                        right.id.as_str(),
                        "`",
                    ),
                ),
            );
        }
    }
    Ok(())
}

struct Declared<'a> {
    owner: &'a str,
    field: &'a ConfigurationField,
    secret: bool,
}

impl<'a> Declared<'a> {
    spec fn view(&self) -> DeclaredModel {
        DeclaredModel { owner: self.owner@, field: self.field@, secret: self.secret }
    }
}

spec fn declared_models(list: Seq<Declared>) -> Seq<DeclaredModel> {
    list.map_values(|entry: Declared| entry@)
}

impl ModuleCatalog {
    fn check_members(&self, selected: &TextSet) -> (result: Result<(), CatalogError>)
        ensures
            outcome(result) == first_finding(selected@, member_check(*self, selected@)),
    {
        let ghost check = member_check(*self, selected@);
        let mut index: usize = 0;
        while index < selected.len()
            invariant
                check == member_check(*self, selected@),
                index <= selected@.len(),
                first_finding(selected@.take(index as int), check) is None,
            decreases selected@.len() - index,
        {
            let id = selected.at(index).as_str();
            proof {
                lemma_finding_step(selected@, index as int, check);
                if check(selected@[index as int]) is Some {
                    lemma_finding_prefix(selected@, index + 1, check);
                }
            }
            match self.module(id) {
                None => {
                    return Err(
                        CatalogError::new(
                            join3("project state selects unknown module `", id, "`"),
                        ),
                    );
                },
                Some(module) => match check_prerequisites(module, selected, id) {
                    Ok(()) => {},
                    Err(error) => {
                        return Err(error);
                    },
                },
            }
            index += 1;
        }
        assert(selected@.take(index as int) =~= selected@);
        Ok(())
    }

    fn check_pairs_of(&self, selected: &TextSet, at: usize) -> (result: Result<(), CatalogError>)
        requires
            at < selected@.len(),
        ensures
            outcome(result) == first_finding(
                selected@.skip(at + 1),
                pair_check(*self, selected@[at as int]),
            ),
    {
        let left_id = selected.at(at).as_str();
        let ghost rest = selected@.skip(at + 1);
        let ghost check = pair_check(*self, left_id@);
        let length: usize = selected.len();
        let mut index: usize = at + 1;
        assert(length == selected@.len());
        assert(rest.take(0) =~= Seq::<Seq<char>>::empty());
        while index < selected.len()
            invariant
                at < selected@.len(),
                left_id@ == selected@[at as int],
                rest == selected@.skip(at + 1),
                check == pair_check(*self, left_id@),
                at + 1 <= index <= selected@.len(),
                first_finding(rest.take(index - at - 1), check) is None,
            decreases selected@.len() - index,
        {
            let right_id = selected.at(index).as_str();
            proof {
                assert(rest[index - at - 1] == right_id@);
                lemma_finding_step(rest, index - at - 1, check);
                if check(right_id@) is Some {
                    lemma_finding_prefix(rest, index - at, check);
                }
            }
            let left = match self.module(left_id) {
                Some(module) => module,
                None => {
                    return Err(CatalogError::new(join3("unknown module `", left_id, "`")));
                },
            };
            let right = match self.module(right_id) {
                Some(module) => module,
                None => {
                    return Err(CatalogError::new(join3("unknown module `", right_id, "`")));
                },
            };
            match check_pair(left, right) {
                Ok(()) => {},
                Err(error) => {
                    return Err(error);
                },
            }
            index += 1;
        }
        assert(rest.take(index - at - 1) =~= rest);
        Ok(())
    }

    fn check_pairs(&self, selected: &TextSet) -> (result: Result<(), CatalogError>)
        ensures
            outcome(result) == pairs_defect(*self, selected@, selected@.len() as int),
    {
        let mut index: usize = 0;
        while index < selected.len()
            invariant
                index <= selected@.len(),
                pairs_defect(*self, selected@, index as int) is None,
            decreases selected@.len() - index,
        {
            match self.check_pairs_of(selected, index) {
                Ok(()) => {},
                Err(error) => {
                    proof {
                        lemma_pairs_stay(*self, selected@, index + 1, selected@.len() as int);
                    }
                    return Err(error);
                },
            }
            index += 1;
        }
        Ok(())
    }

    fn declarations<'a>(&'a self, selected: &TextSet) -> (list: Vec<Declared<'a>>)
        ensures
            declared_models(list@) == declared(*self, selected@, selected@.len() as int),
    {
        let mut list: Vec<Declared<'a>> = Vec::new();
        let mut index: usize = 0;
        assert(declared_models(list@) =~= declared(*self, selected@, 0));
        while index < selected.len()
            invariant
                index <= selected@.len(),
                declared_models(list@) == declared(*self, selected@, index as int),
            decreases selected@.len() - index,
        {
            let ghost before = declared_models(list@);
            if let Some(module) = self.module(selected.at(index).as_str()) {
                let mut at: usize = 0;
                let ghost total = module.configuration.fields@.len() as int;
                assert(before + declared_by(*module, 0) =~= before);
                while at < module.configuration.fields.len()
                    invariant
                        total == module.configuration.fields@.len(),
                        at <= total,
                        declared_models(list@) == before + declared_by(*module, at as int),
                    decreases total - at,
                {
                    let field = &module.configuration.fields[at];
                    let secret = configuration_path_is_secret(
                        field.path.as_str(),
                        &module.configuration.secret_fields,
                    );
                    let entry = Declared { owner: module.id.as_str(), field, secret };
                    let ghost value = entry@;
                    let ghost grown = declared_models(list@);
                    list.push(entry);
                    assert(declared_models(list@) =~= grown.push(value));
                    at += 1;
                    assert(declared_models(list@) =~= before + declared_by(*module, at as int));
                }
            } else {
                assert(before + Seq::<DeclaredModel>::empty() =~= before);
            }
            index += 1;
        }
        list
    }

    /// Checks that selected modules agree on the configuration that they share.
    fn check_declarations(&self, selected: &TextSet) -> (result: Result<(), CatalogError>)
        ensures
            outcome(result) == ({
                let list = declared(*self, selected@, selected@.len() as int);
                declarations_defect(list, list.len() as int)
            }),
    {
        let list = self.declarations(selected);
        let ghost all = declared_models(list@);
        let ghost total = all.len() as int;
        let mut index: usize = 0;
        while index < list.len()
            invariant
                all == declared_models(list@),
                all == declared(*self, selected@, selected@.len() as int),
                total == all.len(),
                index <= total,
                declarations_defect(all, index as int) is None,
            decreases total - index,
        {
            let here = &list[index];
            assert(all[index as int] == here@);
            proof {
                if declarations_defect(all, index + 1) is Some {
                    lemma_declarations_stay(all, index + 1, total);
                }
            }
            let mut end: usize = index;
            while end > 0 && !same_text(
                list[end - 1].field.path.as_str(),
                here.field.path.as_str(),
            )
                invariant
                    all == declared_models(list@),
                    index < all.len(),
                    here@ == all[index as int],
                    end <= index,
                    last_declared(all, here@.field.path, index as int) == last_declared(
                        all,
                        here@.field.path,
                        end as int,
                    ),
                decreases end,
            {
                assert(all[end - 1] == list@[end - 1]@);
                end -= 1;
            }
            if end > 0 {
                let earlier = &list[end - 1];
                assert(all[end - 1] == earlier@);
                if !earlier.field.same(here.field) || earlier.secret != here.secret {
                    return Err(
                        CatalogError::new(
                            join7(
                                "selected modules `",
                                earlier.owner,
                                "` and `",
                                here.owner,
                                "` define conflicting configuration for `",
                                here.field.path.as_str(),
                                "`",
                            ),
                        ),
                    );
                }
            }
            index += 1;
        }
        Ok(())
    }

    /// Checks dependency closure, conflicts, and provider slots for a selection.
    pub fn validate_selection(&self, selected: &TextSet) -> (result: Result<(), CatalogError>)
        ensures
            outcome(result) == selection_defect(*self, selected@),
    {
        match self.check_members(selected) {
            Ok(()) => {},
            Err(error) => {
                return Err(error);
            },
        }
        match self.check_pairs(selected) {
            Ok(()) => {},
            Err(error) => {
                return Err(error);
            },
        }
        self.check_declarations(selected)
    }
}

// Prerequisites.
/// The diagnostic of a cycle.
pub open spec fn cycle_text(id: Seq<char>) -> Seq<char> {
    "module dependency cycle contains `"@ + id + "`"@
}

/// The diagnostic of an unknown module.
pub open spec fn unknown_text(id: Seq<char>) -> Seq<char> {
    "unknown module `"@ + id + "`"@
}

/// What collecting the prerequisites of `id` adds to `collected`, when the modules of `path` are
/// being visited. Modules that are collected are not visited again.
pub open spec fn collect(
    catalog: ModuleCatalog,
    id: Seq<char>,
    path: Seq<Seq<char>>,
    collected: Set<Seq<char>>,
) -> Result<Set<Seq<char>>, Seq<char>>
    decreases catalog.modules@.len() - path.len(), 0nat,
{
    if collected.contains(id) {
        Ok(collected)
    } else if path.contains(id) || path.len() > catalog.modules@.len() {
        Err(cycle_text(id))
    } else {
        match catalog.find(id) {
            None => Err(unknown_text(id)),
            Some(module) => if path.len() == catalog.modules@.len() {
                Err(cycle_text(id))
            } else {
                collect_each(catalog, texts(module.prerequisites@), 0, path.push(id), collected)
            },
        }
    }
}

/// What collecting the modules of `list` from place `at` on, with their prerequisites, adds to
/// `collected`.
pub open spec fn collect_each(
    catalog: ModuleCatalog,
    list: Seq<Seq<char>>,
    at: int,
    path: Seq<Seq<char>>,
    collected: Set<Seq<char>>,
) -> Result<Set<Seq<char>>, Seq<char>>
    decreases catalog.modules@.len() - path.len(), (list.len() - at + 1) as nat,
{
    if at < 0 || at >= list.len() {
        Ok(collected)
    } else {
        match collect(catalog, list[at], path, collected) {
            Err(message) => Err(message),
            Ok(more) => collect_each(catalog, list, at + 1, path, more.insert(list[at])),
        }
    }
}

/// Whether `id` depends on `target`, when the modules of `path` are being visited.
pub open spec fn depends(
    catalog: ModuleCatalog,
    id: Seq<char>,
    target: Seq<char>,
    path: Seq<Seq<char>>,
) -> Result<bool, Seq<char>>
    decreases catalog.modules@.len() - path.len(), 0nat,
{
    if path.contains(id) || path.len() > catalog.modules@.len() {
        Err(cycle_text(id))
    } else {
        match catalog.find(id) {
            None => Err(unknown_text(id)),
            Some(module) => if path.len() == catalog.modules@.len() {
                Err(cycle_text(id))
            } else {
                depends_each(catalog, texts(module.prerequisites@), 0, target, path.push(id))
            },
        }
    }
}

/// Whether one of the modules of `list` from place `at` on is `target` or depends on it.
pub open spec fn depends_each(
    catalog: ModuleCatalog,
    list: Seq<Seq<char>>,
    at: int,
    target: Seq<char>,
    path: Seq<Seq<char>>,
) -> Result<bool, Seq<char>>
    decreases catalog.modules@.len() - path.len(), (list.len() - at + 1) as nat,
{
    if at < 0 || at >= list.len() {
        Ok(false)
    } else if list[at] == target {
        Ok(true)
    } else {
        match depends(catalog, list[at], target, path) {
            Err(message) => Err(message),
            Ok(true) => Ok(true),
            Ok(false) => depends_each(catalog, list, at + 1, target, path),
        }
    }
}

/// Whether a path visits known modules, each once.
pub open spec fn is_visit(catalog: ModuleCatalog, path: Seq<Seq<char>>) -> bool {
    &&& path.no_duplicates()
    &&& forall|i: int| 0 <= i < path.len() ==> catalog.has_module(#[trigger] path[i])
}

/// A visit is at most as long as there are modules.
pub proof fn lemma_visit_bound(catalog: ModuleCatalog, path: Seq<Seq<char>>)
    requires
        is_visit(catalog, path),
    ensures
        path.len() <= catalog.modules@.len(),
{
    let names = catalog.modules@.map_values(|module: ModuleDefinition| module.id@);
    path.unique_seq_to_set();
    assert(path.to_set().subset_of(names.to_set())) by {
        assert forall|id: Seq<char>| path.to_set().contains(id) implies names.to_set().contains(
            id,
        ) by {
            let k = choose|k: int| 0 <= k < path.len() && path[k] == id;
            assert(catalog.has_module(path[k]));
            catalog.lemma_find(id);
            let i = choose|i: int|
                0 <= i < catalog.modules@.len() && #[trigger] catalog.modules@[i]
                    == catalog.find(id)->Some_0;
            assert(names[i] == id);
        }
    }
    vstd::set_lib::lemma_len_subset(path.to_set(), names.to_set());
    names.lemma_cardinality_of_set();
}

pub(crate) proof fn lemma_visit_grows(catalog: ModuleCatalog, path: Seq<Seq<char>>, id: Seq<char>)
    requires
        is_visit(catalog, path),
        catalog.has_module(id),
        !path.contains(id),
    ensures
        is_visit(catalog, path.push(id)),
        path.len() < catalog.modules@.len(),
{
    let longer = path.push(id);
    assert(longer.no_duplicates()) by {
        assert forall|i: int, j: int| 0 <= i < longer.len() && 0 <= j < longer.len() && i
            != j implies longer[i] != longer[j] by {
            if i == path.len() {
                assert(path.contains(path[j]));
            } else if j == path.len() {
                assert(path.contains(path[i]));
            }
        }
    }
    lemma_visit_bound(catalog, longer);
}

impl ModuleCatalog {
    /// Collects the prerequisites of a module.
    pub fn collect_dependencies(
        &self,
        id: &str,
        visiting: &Vec<String>,
        collected: &mut TextSet,
    ) -> (result: Result<(), CatalogError>)
        requires
            is_visit(*self, texts(visiting@)),
        ensures
            match result {
                Ok(()) => collect(*self, id@, texts(visiting@), old(collected)@.to_set()) == Ok::<
                    Set<Seq<char>>,
                    Seq<char>,
                >(final(collected)@.to_set()),
                Err(error) => collect(*self, id@, texts(visiting@), old(collected)@.to_set())
                    == Err::<Set<Seq<char>>, Seq<char>>(error.text()),
            },
        decreases self.modules@.len() - visiting@.len(), 0nat,
    {
        let ghost path = texts(visiting@);
        proof {
            lemma_visit_bound(*self, path);
        }
        if set_holds(collected, id) {
            return Ok(());
        }
        if holds_text(visiting, id) {
            return Err(
                CatalogError::new(join3("module dependency cycle contains `", id, "`")),
            );
        }
        let module = match self.module(id) {
            Some(module) => module,
            None => {
                return Err(CatalogError::new(join3("unknown module `", id, "`")));
            },
        };
        proof {
            lemma_visit_grows(*self, path, id@);
        }
        let mut next = clone_texts(visiting);
        next.push(id.to_owned());
        assert(texts(next@) =~= path.push(id@));
        let ghost all = texts(module.prerequisites@);
        let ghost before = collected@.to_set();
        let mut index: usize = 0;
        while index < module.prerequisites.len()
            invariant
                all == texts(module.prerequisites@),
                path == texts(visiting@),
                is_visit(*self, texts(next@)),
                next@.len() == visiting@.len() + 1,
                visiting@.len() < self.modules@.len(),
                index <= all.len(),
                collect_each(*self, all, 0, texts(next@), before) == collect_each(
                    *self,
                    all,
                    index as int,
                    texts(next@),
                    collected@.to_set(),
                ),
                before == old(collected)@.to_set(),
                collect(*self, id@, path, before) == collect_each(
                    *self,
                    all,
                    0,
                    texts(next@),
                    before,
                ),
            decreases all.len() - index,
        {
            let required = module.prerequisites[index].as_str();
            assert(all[index as int] == required@);
            match self.collect_dependencies(required, &next, collected) {
                Ok(()) => {},
                Err(error) => {
                    return Err(error);
                },
            }
            insert_text(collected, required);
            index += 1;
        }
        Ok(())
    }

    /// Returns whether a module depends on another.
    pub fn depends_on(&self, id: &str, target: &str, visiting: &Vec<String>) -> (result: Result<
        bool,
        CatalogError,
    >)
        requires
            is_visit(*self, texts(visiting@)),
        ensures
            match result {
                Ok(found) => depends(*self, id@, target@, texts(visiting@)) == Ok::<
                    bool,
                    Seq<char>,
                >(found),
                Err(error) => depends(*self, id@, target@, texts(visiting@)) == Err::<
                    bool,
                    Seq<char>,
                >(error.text()),
            },
        decreases self.modules@.len() - visiting@.len(), 0nat,
    {
        let ghost path = texts(visiting@);
        proof {
            lemma_visit_bound(*self, path);
        }
        if holds_text(visiting, id) {
            return Err(
                CatalogError::new(join3("module dependency cycle contains `", id, "`")),
            );
        }
        let module = match self.module(id) {
            Some(module) => module,
            None => {
                return Err(CatalogError::new(join3("unknown module `", id, "`")));
            },
        };
        proof {
            lemma_visit_grows(*self, path, id@);
        }
        let mut next = clone_texts(visiting);
        next.push(id.to_owned());
        assert(texts(next@) =~= path.push(id@));
        let ghost all = texts(module.prerequisites@);
        let mut index: usize = 0;
        while index < module.prerequisites.len()
            invariant
                all == texts(module.prerequisites@),
                path == texts(visiting@),
                is_visit(*self, texts(next@)),
                next@.len() == visiting@.len() + 1,
                visiting@.len() < self.modules@.len(),
                index <= all.len(),
                depends(*self, id@, target@, path) == depends_each(
                    *self,
                    all,
                    index as int,
                    target@,
                    texts(next@),
                ),
            decreases all.len() - index,
        {
            let required = module.prerequisites[index].as_str();
            assert(all[index as int] == required@);
            if same_text(required, target) {
                return Ok(true);
            }
            match self.depends_on(required, target, &next) {
                Ok(true) => {
                    return Ok(true);
                },
                Ok(false) => {},
                Err(error) => {
                    return Err(error);
                },
            }
            index += 1;
        }
        Ok(false)
    }
}

} // verus!
