//! Laws of the removal of modules.

use vstd::prelude::*;

use crate::findings::lemma_no_finding;
use crate::module_catalog::{catalog_defect, lemma_valid_collects};
use crate::module_resolution::{
    blockers, is_chain, is_knot, leads_to, lemma_knot_fails, lemma_leads_on, lemma_leads_step,
    lemma_selection_closed, removed,
};
use crate::modules::ModuleCatalog;
use crate::ordered::{ascending, lemma_ascending_distinct};
use crate::selection::{
    declarations_defect, declared, declared_by, depends, depends_each, is_visit, last_declared,
    lemma_listing, lemma_pairs, lemma_visit_grows, listing, member_check, pair_check,
    prerequisite_check, selection_defect, DeclaredModel,
};
use crate::text::texts;

verus! {

// Dependents.
/// In a valid catalog no chain of prerequisites comes back to where it began.
pub proof fn lemma_no_circle(
    catalog: ModuleCatalog,
    workspace: Seq<Seq<char>>,
    chain: Seq<Seq<char>>,
)
    requires
        catalog_defect(catalog, workspace) is None,
        is_chain(catalog, chain),
        chain.len() >= 2,
    ensures
        chain[0] != chain.last(),
{
    if chain[0] == chain.last() {
        let knot = chain.to_set();
        assert forall|id: Seq<char>|
            #![trigger knot.contains(id)]
            knot.contains(id) implies (catalog.find(id) matches Some(module) && exists|i: int|
            0 <= i < module.prerequisites@.len() && knot.contains(
                (#[trigger] module.prerequisites@[i])@,
            )) by {
            let k = choose|k: int| 0 <= k < chain.len() && chain[k] == id;
            let at = if k == chain.len() - 1 {
                0
            } else {
                k
            };
            assert(chain[at] == id);
            let module = catalog.find(chain[at])->Some_0;
            let list = texts(module.prerequisites@);
            let i = choose|i: int| 0 <= i < list.len() && list[i] == chain[at + 1];
            assert(knot.contains(chain[at + 1]));
            assert(knot.contains(module.prerequisites@[i]@));
        }
        assert(is_knot(catalog, knot));
        let id = chain[0];
        assert(knot.contains(id));
        catalog.lemma_find(id);
        let at = choose|i: int|
            0 <= i < catalog.modules@.len() && #[trigger] catalog.modules@[i]
                == catalog.find(id)->Some_0;
        lemma_valid_collects(catalog, workspace, at);
        lemma_knot_fails(catalog, knot, id, Seq::empty(), Set::empty());
    }
}

/// Prerequisites lead from a module to what it needs itself and to what that leads to.
proof fn lemma_leads_first(catalog: ModuleCatalog, id: Seq<char>, target: Seq<char>)
    requires
        leads_to(catalog, id, target),
    ensures
        catalog.find(id) matches Some(module) && exists|i: int|
            0 <= i < module.prerequisites@.len() && (#[trigger] texts(module.prerequisites@)[i]
                == target || leads_to(catalog, texts(module.prerequisites@)[i], target)),
{
    let chain = choose|chain: Seq<Seq<char>>| #[trigger]
        is_chain(catalog, chain) && chain.len() >= 2 && chain[0] == id && chain.last() == target;
    let module = catalog.find(chain[0])->Some_0;
    let list = texts(module.prerequisites@);
    assert(list.contains(chain[1]));
    let i = choose|i: int| 0 <= i < list.len() && list[i] == chain[1];
    if chain.len() > 2 {
        let rest = chain.skip(1);
        assert forall|k: int| 0 <= k < rest.len() - 1 implies (catalog.find(#[trigger] rest[k]) matches
            Some(found) && texts(found.prerequisites@).contains(rest[k + 1])) by {
            assert(rest[k] == chain[k + 1]);
        }
        assert(is_chain(catalog, rest) && rest.len() >= 2 && rest[0] == list[i] && rest.last()
            == target);
        assert(leads_to(catalog, list[i], target));
    }
    assert(list[i] == target || leads_to(catalog, list[i], target));
}

/// In a valid catalog the search for a dependency of a selected module succeeds, and finds what
/// prerequisites lead to.
proof fn lemma_depends(
    catalog: ModuleCatalog,
    workspace: Seq<Seq<char>>,
    selected: Seq<Seq<char>>,
    id: Seq<char>,
    target: Seq<char>,
    path: Seq<Seq<char>>,
)
    requires
        catalog_defect(catalog, workspace) is None,
        selection_defect(catalog, selected) is None,
        selected.contains(id),
        is_visit(catalog, path),
        is_chain(catalog, path.push(id)),
    ensures
        depends(catalog, id, target, path) == Ok::<bool, Seq<char>>(leads_to(catalog, id, target)),
    decreases catalog.modules@.len() - path.len(), 0nat,
{
    lemma_selection_closed(catalog, selected, id);
    let chain = path.push(id);
    if path.contains(id) {
        let k = choose|k: int| 0 <= k < path.len() && path[k] == id;
        let circle = chain.skip(k);
        assert forall|i: int| 0 <= i < circle.len() - 1 implies (catalog.find(#[trigger] circle[i]) matches
            Some(found) && texts(found.prerequisites@).contains(circle[i + 1])) by {
            assert(circle[i] == chain[k + i]);
            assert(circle[i + 1] == chain[k + i + 1]);
        }
        lemma_no_circle(catalog, workspace, circle);
    }
    lemma_visit_grows(catalog, path, id);
    let module = catalog.find(id)->Some_0;
    lemma_depends_each(catalog, workspace, selected, id, target, chain, 0);
    let list = texts(module.prerequisites@);
    if leads_to(catalog, id, target) {
        lemma_leads_first(catalog, id, target);
    }
    if exists|i: int|
        0 <= i < list.len() && (#[trigger] list[i] == target || leads_to(catalog, list[i], target)) {
        let i = choose|i: int|
            0 <= i < list.len() && (#[trigger] list[i] == target || leads_to(
                catalog,
                list[i],
                target,
            ));
        if list[i] == target {
            lemma_leads_step(catalog, id, i);
        } else {
            lemma_leads_on(catalog, id, i, target);
        }
    }
}

proof fn lemma_depends_each(
    catalog: ModuleCatalog,
    workspace: Seq<Seq<char>>,
    selected: Seq<Seq<char>>,
    id: Seq<char>,
    target: Seq<char>,
    path: Seq<Seq<char>>,
    at: int,
)
    requires
        catalog_defect(catalog, workspace) is None,
        selection_defect(catalog, selected) is None,
        selected.contains(id),
        catalog.has_module(id),
        is_visit(catalog, path),
        is_chain(catalog, path),
        path.len() > 0,
        path.last() == id,
        0 <= at <= catalog.find(id)->Some_0.prerequisites@.len(),
    ensures
        ({
            let list = texts(catalog.find(id)->Some_0.prerequisites@);
            depends_each(catalog, list, at, target, path) == Ok::<bool, Seq<char>>(
                exists|i: int|
                    at <= i < list.len() && (#[trigger] list[i] == target || leads_to(
                        catalog,
                        list[i],
                        target,
                    )),
            )
        }),
    decreases
            catalog.modules@.len() - path.len(),
            (catalog.find(id)->Some_0.prerequisites@.len() - at + 1) as nat,
{
    let module = catalog.find(id)->Some_0;
    let list = texts(module.prerequisites@);
    if at < list.len() {
        lemma_selection_closed(catalog, selected, id);
        assert(selected.contains(module.prerequisites@[at]@));
        assert(list[at] == module.prerequisites@[at]@);
        let chain = path.push(list[at]);
        assert forall|i: int| 0 <= i < chain.len() - 1 implies (catalog.find(#[trigger] chain[i]) matches
            Some(found) && texts(found.prerequisites@).contains(chain[i + 1])) by {
            assert(chain[i] == path[i]);
            if i == path.len() - 1 {
                assert(list.contains(list[at]));
            } else {
                assert(chain[i + 1] == path[i + 1]);
            }
        }
        if list[at] != target {
            lemma_depends(catalog, workspace, selected, list[at], target, path);
            lemma_depends_each(catalog, workspace, selected, id, target, path, at + 1);
        }
    }
}

/// Whether a selected module beside `requested` needs it, directly or through others.
pub open spec fn is_required(
    catalog: ModuleCatalog,
    selected: Seq<Seq<char>>,
    requested: Seq<char>,
) -> bool {
    exists|id: Seq<char>| #[trigger]
        selected.contains(id) && id != requested && leads_to(catalog, id, requested)
}

proof fn lemma_blockers(
    catalog: ModuleCatalog,
    workspace: Seq<Seq<char>>,
    selected: Seq<Seq<char>>,
    requested: Seq<char>,
    count: int,
)
    requires
        catalog_defect(catalog, workspace) is None,
        selection_defect(catalog, selected) is None,
        0 <= count <= selected.len(),
    ensures
        blockers(catalog, selected, requested, count) matches Ok(found) && (found.len() > 0
            <==> exists|i: int|
            0 <= i < count && #[trigger] selected[i] != requested && leads_to(
                catalog,
                selected[i],
                requested,
            )),
    decreases count,
{
    if count > 0 {
        lemma_blockers(catalog, workspace, selected, requested, count - 1);
        let id = selected[count - 1];
        assert(selected.contains(id));
        let none = Seq::<Seq<char>>::empty();
        assert(is_chain(catalog, none.push(id)));
        lemma_depends(catalog, workspace, selected, id, requested, none);
    }
}

// What is left.
/// Whether two declarations of one path say the same.
pub open spec fn agree(left: DeclaredModel, right: DeclaredModel) -> bool {
    left.field.path == right.field.path ==> left.field == right.field && left.secret
        == right.secret
}

proof fn lemma_last_declared(list: Seq<DeclaredModel>, path: Seq<char>, count: int)
    requires
        0 <= count <= list.len(),
    ensures
        -1 <= last_declared(list, path, count) < count,
        last_declared(list, path, count) >= 0 ==> list[last_declared(list, path, count)].field.path
            == path,
        forall|i: int|
            last_declared(list, path, count) < i < count ==> (#[trigger] list[i]).field.path != path,
    decreases count,
{
    if count > 0 && list[count - 1].field.path != path {
        lemma_last_declared(list, path, count - 1);
    }
}

pub(crate) proof fn lemma_declarations(list: Seq<DeclaredModel>, count: int)
    requires
        0 <= count <= list.len(),
    ensures
        declarations_defect(list, count) is None <==> forall|i: int, j: int|
            0 <= i < j < count ==> agree(#[trigger] list[i], #[trigger] list[j]),
    decreases count,
{
    if count > 0 {
        lemma_declarations(list, count - 1);
        let here = list[count - 1];
        let place = last_declared(list, here.field.path, count - 1);
        lemma_last_declared(list, here.field.path, count - 1);
        if declarations_defect(list, count) is None {
            assert forall|i: int, j: int| 0 <= i < j < count implies agree(
                #[trigger] list[i],
                #[trigger] list[j],
            ) by {
                if j == count - 1 && list[i].field.path == here.field.path {
                    assert(i <= place);
                    if i < place {
                        assert(agree(list[i], list[place]));
                    }
                }
            }
        }
        if forall|i: int, j: int|
            0 <= i < j < count ==> agree(#[trigger] list[i], #[trigger] list[j]) {
            if place >= 0 {
                assert(agree(list[place], list[count - 1]));
            }
        }
    }
}

/// The declarations of a module are those of a selection that holds it, and no others.
pub(crate) proof fn lemma_declared(catalog: ModuleCatalog, selected: Seq<Seq<char>>, count: int)
    requires
        0 <= count <= selected.len(),
    ensures
        forall|item: DeclaredModel| #[trigger]
            declared(catalog, selected, count).contains(item) <==> exists|k: int|
                0 <= k < count && declares(catalog, #[trigger] selected[k], item),
    decreases count,
{
    if count > 0 {
        lemma_declared(catalog, selected, count - 1);
        let before = declared(catalog, selected, count - 1);
        let own = match catalog.find(selected[count - 1]) {
            Some(module) => declared_by(module, module.configuration.fields@.len() as int),
            None => Seq::empty(),
        };
        let all = declared(catalog, selected, count);
        assert(all == before + own);
        assert forall|item: DeclaredModel| #[trigger] all.contains(item) <==> exists|k: int|
            0 <= k < count && declares(catalog, #[trigger] selected[k], item) by {
            if all.contains(item) {
                let i = choose|i: int| 0 <= i < all.len() && all[i] == item;
                if i < before.len() {
                    assert(before[i] == item);
                    assert(before.contains(item));
                } else {
                    assert(own[i - before.len()] == item);
                    assert(own.contains(item));
                    assert(declares(catalog, selected[count - 1], item));
                }
            }
            if exists|k: int| 0 <= k < count && declares(catalog, #[trigger] selected[k], item) {
                let k = choose|k: int|
                    0 <= k < count && declares(catalog, #[trigger] selected[k], item);
                if k < count - 1 {
                    assert(before.contains(item));
                    let i = choose|i: int| 0 <= i < before.len() && before[i] == item;
                    assert(all[i] == item);
                } else {
                    let i = choose|i: int| 0 <= i < own.len() && own[i] == item;
                    assert(all[before.len() + i] == item);
                }
            }
        }
    } else {
        assert forall|item: DeclaredModel| !#[trigger] declared(catalog, selected, 0).contains(
            item,
        ) by {}
    }
}

/// Whether the module `id` declares a field.
pub open spec fn declares(catalog: ModuleCatalog, id: Seq<char>, item: DeclaredModel) -> bool {
    catalog.find(id) matches Some(module) && declared_by(
        module,
        module.configuration.fields@.len() as int,
    ).contains(item)
}

/// A valid selection stays valid without a module that no other selected module needs.
proof fn lemma_rest_is_valid(
    catalog: ModuleCatalog,
    selected: Seq<Seq<char>>,
    at: int,
)
    requires
        ascending::<String>(selected),
        selection_defect(catalog, selected) is None,
        0 <= at < selected.len(),
        !is_required(catalog, selected, selected[at]),
    ensures
        selection_defect(catalog, selected.remove(at)) is None,
{
    let rest = selected.remove(at);
    lemma_ascending_distinct::<String>(selected);
    assert forall|i: int| 0 <= i < rest.len() implies member_check(catalog, rest)(
        #[trigger] rest[i],
    ) is None by {
        let from = if i < at {
            i
        } else {
            i + 1
        };
        let id = rest[i];
        assert(selected[from] == id);
        assert(selected.contains(id));
        lemma_selection_closed(catalog, selected, id);
        let module = catalog.find(id)->Some_0;
        let list = texts(module.prerequisites@);
        let check = prerequisite_check(rest, id);
        assert forall|k: int| 0 <= k < list.len() implies check(#[trigger] list[k]) is None by {
            assert(selected.contains(module.prerequisites@[k]@));
            assert(list[k] == module.prerequisites@[k]@);
            lemma_leads_step(catalog, id, k);
            assert(list[k] != selected[at]);
            let place = choose|p: int| 0 <= p < selected.len() && selected[p] == list[k];
            if place < at {
                assert(rest[place] == list[k]);
            } else {
                assert(rest[place - 1] == list[k]);
            }
            assert(rest.contains(list[k]));
        }
        lemma_no_finding(list, check);
    }
    lemma_no_finding(rest, member_check(catalog, rest));
    lemma_pairs(catalog, selected, selected.len() as int);
    assert forall|i: int, j: int| 0 <= i < rest.len() && i < j < rest.len() implies pair_check(
        catalog,
        #[trigger] rest[i],
    )(#[trigger] rest[j]) is None by {
        let left = if i < at {
            i
        } else {
            i + 1
        };
        let right = if j < at {
            j
        } else {
            j + 1
        };
        assert(pair_check(catalog, selected[left])(selected[right]) is None);
    }
    lemma_pairs(catalog, rest, rest.len() as int);
    let all = declared(catalog, selected, selected.len() as int);
    let fewer = declared(catalog, rest, rest.len() as int);
    lemma_declared(catalog, selected, selected.len() as int);
    lemma_declared(catalog, rest, rest.len() as int);
    lemma_declarations(all, all.len() as int);
    assert forall|i: int, j: int| 0 <= i < j < fewer.len() implies agree(
        #[trigger] fewer[i],
        #[trigger] fewer[j],
    ) by {
        lemma_declared_before(catalog, selected, at, fewer[i]);
        lemma_declared_before(catalog, selected, at, fewer[j]);
        let p = choose|p: int| 0 <= p < all.len() && all[p] == fewer[i];
        let q = choose|q: int| 0 <= q < all.len() && all[q] == fewer[j];
        if p < q {
            assert(agree(all[p], all[q]));
        } else if q < p {
            assert(agree(all[q], all[p]));
        }
    }
    lemma_declarations(fewer, fewer.len() as int);
}

proof fn lemma_declared_before(
    catalog: ModuleCatalog,
    selected: Seq<Seq<char>>,
    at: int,
    item: DeclaredModel,
)
    requires
        0 <= at < selected.len(),
        declared(catalog, selected.remove(at), selected.len() - 1).contains(item),
    ensures
        declared(catalog, selected, selected.len() as int).contains(item),
{
    let rest = selected.remove(at);
    lemma_declared(catalog, selected, selected.len() as int);
    lemma_declared(catalog, rest, rest.len() as int);
    let k = choose|k: int| 0 <= k < rest.len() && declares(catalog, #[trigger] rest[k], item);
    let from = if k < at {
        k
    } else {
        k + 1
    };
    assert(declares(catalog, selected[from], item));
}

/// The sorted list of a selection without one of its modules.
proof fn lemma_rest_listed(selected: Seq<Seq<char>>, at: int)
    requires
        ascending::<String>(selected),
        0 <= at < selected.len(),
    ensures
        listing(selected.to_set().remove(selected[at])) == selected.remove(at),
        !selected.remove(at).contains(selected[at]),
        selected.remove(at).to_set() == selected.to_set().remove(selected[at]),
{
    let rest = selected.remove(at);
    lemma_ascending_distinct::<String>(selected);
    assert(ascending::<String>(rest));
    assert forall|value: Seq<char>| rest.to_set().contains(value) <==> selected.to_set().remove(
        selected[at],
    ).contains(value) by {
        if rest.contains(value) {
            let k = choose|k: int| 0 <= k < rest.len() && rest[k] == value;
            let from = if k < at {
                k
            } else {
                k + 1
            };
            assert(selected[from] == value);
        }
        if selected.contains(value) && value != selected[at] {
            let k = choose|k: int| 0 <= k < selected.len() && selected[k] == value;
            if k < at {
                assert(rest[k] == value);
            } else {
                assert(rest[k - 1] == value);
            }
        }
    }
    assert(rest.to_set() =~= selected.to_set().remove(selected[at]));
    lemma_listing(rest);
    assert(!rest.to_set().contains(selected[at]));
}

/// Removal from a valid selection: an unknown module is refused; a module that is not selected
/// leaves the selection as it is; a selected one that another selected module needs, directly or
/// through others, is refused; any other one is taken out alone. Repeating a removal changes
/// nothing.
pub proof fn lemma_removal(
    catalog: ModuleCatalog,
    workspace: Seq<Seq<char>>,
    selected: Seq<Seq<char>>,
    requested: Seq<char>,
)
    requires
        catalog_defect(catalog, workspace) is None,
        ascending::<String>(selected),
        selection_defect(catalog, selected) is None,
    ensures
        match removed(catalog, selected, requested) {
            Err(_) => !catalog.has_module(requested) || (selected.contains(requested)
                && is_required(catalog, selected, requested)),
            Ok(resolved) => {
                &&& catalog.has_module(requested)
                &&& !(selected.contains(requested) && is_required(catalog, selected, requested))
                &&& resolved == if selected.contains(requested) {
                    selected.to_set().remove(requested)
                } else {
                    selected.to_set()
                }
                &&& selection_defect(catalog, listing(resolved)) is None
                &&& removed(catalog, listing(resolved), requested) == Ok::<
                    Set<Seq<char>>,
                    Seq<char>,
                >(resolved)
            },
        },
{
    lemma_listing(selected);
    if catalog.has_module(requested) && selected.contains(requested) {
        let at = choose|k: int| 0 <= k < selected.len() && selected[k] == requested;
        lemma_blockers(catalog, workspace, selected, requested, selected.len() as int);
        lemma_rest_listed(selected, at);
        if is_required(catalog, selected, requested) {
            let id = choose|id: Seq<char>| #[trigger]
                selected.contains(id) && id != requested && leads_to(catalog, id, requested);
            let k = choose|k: int| 0 <= k < selected.len() && selected[k] == id;
            assert(selected[k] != requested && leads_to(catalog, selected[k], requested));
        } else {
            assert forall|i: int| 0 <= i < selected.len() && #[trigger] selected[i]
                != requested implies !leads_to(catalog, selected[i], requested) by {
                assert(selected.contains(selected[i]));
            }
            lemma_rest_is_valid(catalog, selected, at);
        }
    }
}

} // verus!
