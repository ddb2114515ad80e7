//! What a valid selection of modules is.

use vstd::prelude::*;
use vstd::string::*;

use crate::catalog_laws::{is_secret, lemma_secret};
use crate::configuration_checks::is_secret_path;
use crate::findings::lemma_no_finding;
use crate::modules::{ModuleCatalog, ModuleDefinition};
use crate::removal_laws::{agree, declares, lemma_declarations, lemma_declared};
use crate::selection::{
    declared, declared_by, lemma_pairs, member_check, pair_check,
    prerequisite_check, selection_defect, DeclaredModel,
};
use crate::text::{optional_view, texts};

verus! {

/// Whether two modules can be selected together: neither excludes the other, and they do not fill
/// the same provider slot.
pub open spec fn are_compatible(left: ModuleDefinition, right: ModuleDefinition) -> bool {
    &&& !texts(left.conflicts_with@).contains(right.id@)
    &&& !texts(right.conflicts_with@).contains(left.id@)
    &&& left.provider_slot matches Some(slot) ==> optional_view(right.provider_slot) != Some(slot@)
}

/// Whether what two modules declare at a path is the same field, secret in both or in neither.
pub open spec fn declare_alike(left: ModuleDefinition, right: ModuleDefinition) -> bool {
    forall|a: int, b: int|
        0 <= a < left.configuration.fields@.len() && 0 <= b < right.configuration.fields@.len() && (
        #[trigger] left.configuration.fields@[a]).path@ == (
        #[trigger] right.configuration.fields@[b]).path@ ==> {
            &&& left.configuration.fields@[a]@ == right.configuration.fields@[b]@
            &&& is_secret(
                left.configuration.fields@[a].path@,
                texts(left.configuration.secret_fields@),
            ) == is_secret(
                right.configuration.fields@[b].path@,
                texts(right.configuration.secret_fields@),
            )
        }
}

/// Whether a selected module is known, with its prerequisites selected.
pub open spec fn is_supported(
    catalog: ModuleCatalog,
    selected: Seq<Seq<char>>,
    id: Seq<char>,
) -> bool {
    catalog.find(id) matches Some(module) && forall|k: int|
        0 <= k < module.prerequisites@.len() ==> selected.contains(
            (#[trigger] module.prerequisites@[k])@,
        )
}

/// Whether a selection is valid: every module is known and has its prerequisites selected, any two
/// can be selected together, and what two of them declare at a path is the same.
pub open spec fn selection_is_valid(catalog: ModuleCatalog, selected: Seq<Seq<char>>) -> bool {
    &&& forall|i: int|
        0 <= i < selected.len() ==> is_supported(catalog, selected, #[trigger] selected[i])
    &&& forall|i: int, j: int|
        0 <= i < j < selected.len() ==> are_compatible(
            catalog.find(#[trigger] selected[i])->Some_0,
            catalog.find(#[trigger] selected[j])->Some_0,
        )
    &&& forall|i: int, j: int|
        0 <= i < selected.len() && 0 <= j < selected.len() ==> declare_alike(
            catalog.find(#[trigger] selected[i])->Some_0,
            catalog.find(#[trigger] selected[j])->Some_0,
        )
}

proof fn lemma_supported(catalog: ModuleCatalog, selected: Seq<Seq<char>>, id: Seq<char>)
    ensures
        member_check(catalog, selected)(id) is None <==> is_supported(catalog, selected, id),
{
    if let Some(module) = catalog.find(id) {
        let list = texts(module.prerequisites@);
        lemma_no_finding(list, prerequisite_check(selected, id));
        assert forall|k: int| 0 <= k < list.len() implies #[trigger] list[k]
            == module.prerequisites@[k]@ by {}
        if is_supported(catalog, selected, id) {
            assert forall|k: int| 0 <= k < list.len() implies prerequisite_check(selected, id)(
                #[trigger] list[k],
            ) is None by {
                assert(selected.contains(module.prerequisites@[k]@));
            }
        }
        if member_check(catalog, selected)(id) is None {
            assert forall|k: int| 0 <= k < module.prerequisites@.len() implies selected.contains(
                (#[trigger] module.prerequisites@[k])@,
            ) by {
                assert(prerequisite_check(selected, id)(list[k]) is None);
            }
        }
    }
}

proof fn lemma_declares(module: ModuleDefinition, count: int)
    requires
        0 <= count <= module.configuration.fields@.len(),
    ensures
        declared_by(module, count).len() == count,
        forall|i: int|
            0 <= i < count ==> (#[trigger] declared_by(module, count)[i]).field
                == module.configuration.fields@[i]@ && declared_by(module, count)[i].secret
                == is_secret_path(
                module.configuration.fields@[i].path@,
                texts(module.configuration.secret_fields@),
            ),
    decreases count,
{
    if count > 0 {
        lemma_declares(module, count - 1);
    }
}

proof fn lemma_alike(
    catalog: ModuleCatalog,
    left: Seq<char>,
    right: Seq<char>,
)
    requires
        catalog.find(left) is Some,
        catalog.find(right) is Some,
    ensures
        declare_alike(catalog.find(left)->Some_0, catalog.find(right)->Some_0) <==> forall|
            a: DeclaredModel,
            b: DeclaredModel,
        |
            #[trigger] declares(catalog, left, a) && #[trigger] declares(catalog, right, b)
                ==> agree(a, b),
{
    let l = catalog.find(left)->Some_0;
    let r = catalog.find(right)->Some_0;
    let ls = declared_by(l, l.configuration.fields@.len() as int);
    let rs = declared_by(r, r.configuration.fields@.len() as int);
    lemma_declares(l, l.configuration.fields@.len() as int);
    lemma_declares(r, r.configuration.fields@.len() as int);
    assert forall|path: Seq<char>, secrets: Seq<Seq<char>>|
        #[trigger] is_secret_path(path, secrets) == is_secret(path, secrets) by {
        lemma_secret(path, secrets);
    }
    if declare_alike(l, r) {
        assert forall|a: DeclaredModel, b: DeclaredModel|
            #[trigger] declares(catalog, left, a) && #[trigger] declares(
                catalog,
                right,
                b,
            ) implies agree(a, b) by {
            let i = choose|i: int| 0 <= i < ls.len() && ls[i] == a;
            let j = choose|j: int| 0 <= j < rs.len() && rs[j] == b;
            assert(ls[i].field == l.configuration.fields@[i]@);
            assert(rs[j].field == r.configuration.fields@[j]@);
            if a.field.path == b.field.path {
                assert(l.configuration.fields@[i].path@ == r.configuration.fields@[j].path@);
            }
        }
    }
    if forall|a: DeclaredModel, b: DeclaredModel|
        #[trigger] declares(catalog, left, a) && #[trigger] declares(catalog, right, b) ==> agree(
            a,
            b,
        ) {
        assert forall|a: int, b: int|
            0 <= a < l.configuration.fields@.len() && 0 <= b < r.configuration.fields@.len() && (
            #[trigger] l.configuration.fields@[a]).path@ == (
            #[trigger] r.configuration.fields@[b]).path@ implies {
            &&& l.configuration.fields@[a]@ == r.configuration.fields@[b]@
            &&& is_secret(
                l.configuration.fields@[a].path@,
                texts(l.configuration.secret_fields@),
            ) == is_secret(
                r.configuration.fields@[b].path@,
                texts(r.configuration.secret_fields@),
            )
        } by {
            assert(ls.contains(ls[a]));
            assert(rs.contains(rs[b]));
            assert(declares(catalog, left, ls[a]));
            assert(declares(catalog, right, rs[b]));
            assert(agree(ls[a], rs[b]));
        }
    }
}

/// A selection is accepted if and only if it is valid.
pub proof fn lemma_valid_selection(catalog: ModuleCatalog, selected: Seq<Seq<char>>)
    ensures
        selection_defect(catalog, selected) is None <==> selection_is_valid(catalog, selected),
{
    let list = declared(catalog, selected, selected.len() as int);
    let count = selected.len() as int;
    lemma_no_finding(selected, member_check(catalog, selected));
    lemma_pairs(catalog, selected, count);
    lemma_declarations(list, list.len() as int);
    lemma_declared(catalog, selected, count);
    assert forall|i: int| 0 <= i < count implies (member_check(catalog, selected)(
        #[trigger] selected[i],
    ) is None <==> is_supported(catalog, selected, selected[i])) by {
        lemma_supported(catalog, selected, selected[i]);
    }
    let supported = forall|i: int|
        0 <= i < count ==> is_supported(catalog, selected, #[trigger] selected[i]);
    if supported {
        assert forall|i: int, j: int| 0 <= i < j < count implies (pair_check(
            catalog,
            #[trigger] selected[i],
        )(#[trigger] selected[j]) is None <==> are_compatible(
            catalog.find(selected[i])->Some_0,
            catalog.find(selected[j])->Some_0,
        )) by {
            assert(is_supported(catalog, selected, selected[i]));
            assert(is_supported(catalog, selected, selected[j]));
        }
        assert forall|i: int, j: int| 0 <= i < count && 0 <= j < count implies (declare_alike(
            catalog.find(#[trigger] selected[i])->Some_0,
            catalog.find(#[trigger] selected[j])->Some_0,
        ) <==> forall|a: DeclaredModel, b: DeclaredModel|
            #[trigger] declares(catalog, selected[i], a) && #[trigger] declares(
                catalog,
                selected[j],
                b,
            ) ==> agree(a, b)) by {
            assert(is_supported(catalog, selected, selected[i]));
            assert(is_supported(catalog, selected, selected[j]));
            lemma_alike(catalog, selected[i], selected[j]);
        }
        lemma_declared_alike(catalog, selected, list);
    }
}

proof fn lemma_declared_alike(
    catalog: ModuleCatalog,
    selected: Seq<Seq<char>>,
    list: Seq<DeclaredModel>,
)
    requires
        forall|item: DeclaredModel| #[trigger]
            list.contains(item) <==> exists|k: int|
                0 <= k < selected.len() && declares(catalog, #[trigger] selected[k], item),
    ensures
        (forall|i: int, j: int|
            0 <= i < j < list.len() ==> agree(#[trigger] list[i], #[trigger] list[j])) <==> forall|
            i: int,
            j: int,
            a: DeclaredModel,
            b: DeclaredModel,
        |
            0 <= i < selected.len() && 0 <= j < selected.len() && #[trigger] declares(
                catalog,
                selected[i],
                a,
            ) && #[trigger] declares(catalog, selected[j], b) ==> agree(a, b),
{
    if forall|i: int, j: int|
        0 <= i < j < list.len() ==> agree(#[trigger] list[i], #[trigger] list[j]) {
        assert forall|i: int, j: int, a: DeclaredModel, b: DeclaredModel|
            0 <= i < selected.len() && 0 <= j < selected.len() && #[trigger] declares(
                catalog,
                selected[i],
                a,
            ) && #[trigger] declares(catalog, selected[j], b) implies agree(a, b) by {
            assert(list.contains(a));
            assert(list.contains(b));
            let x = choose|x: int| 0 <= x < list.len() && list[x] == a;
            let y = choose|y: int| 0 <= y < list.len() && list[y] == b;
            if x < y {
                assert(agree(list[x], list[y]));
            } else if y < x {
                assert(agree(list[y], list[x]));
            }
        }
    }
    if forall|i: int, j: int, a: DeclaredModel, b: DeclaredModel|
        0 <= i < selected.len() && 0 <= j < selected.len() && #[trigger] declares(
            catalog,
            selected[i],
            a,
        ) && #[trigger] declares(catalog, selected[j], b) ==> agree(a, b) {
        assert forall|i: int, j: int| 0 <= i < j < list.len() implies agree(
            #[trigger] list[i],
            #[trigger] list[j],
        ) by {
            assert(list.contains(list[i]));
            assert(list.contains(list[j]));
            let x = choose|k: int|
                0 <= k < selected.len() && declares(catalog, #[trigger] selected[k], list[i]);
            let y = choose|k: int|
                0 <= k < selected.len() && declares(catalog, #[trigger] selected[k], list[j]);
            assert(declares(catalog, selected[x], list[i]));
            assert(declares(catalog, selected[y], list[j]));
        }
    }
}

} // verus!
