//! What an accepted lockfile resolution leaves as it was, and what it must hold.

use vstd::prelude::*;
use vstd::string::*;

use crate::cargo_difference::{
    edge_of, has_edge, is_omnius_package, is_toml, normal_and, same_beside_toml, same_members,
    toml_normal_kind_removed, ComparableModel, DifferenceModel, ScopeModel,
};
use crate::cargo_framework::{
    alias_check, framework_defect, framework_ids, is_framework_candidate, legacy_framework_defect,
    legacy_package_check, member_alias_check, names_equal, normalized_name_char, release_check,
    root_edge_defect,
};
use crate::cargo_graph::{
    has_node, has_package, lemma_package_at, node_of, package_of, CargoPackage, DependencyModel,
    EdgeModel, GraphModel, KindModel, NodeModel, PackageModel, ROOT_FRAMEWORK_ALIAS,
};
use crate::findings::lemma_no_finding;
use crate::ordered::{
    ascending, lemma_ascending_distinct, lemma_listing_exists, sorted_listing, Keyed,
};
use crate::release::ReleaseModel;
use crate::text::occurs;

verus! {

// Differences.
/// Whether the framework of one of the two graphs reaches a package.
pub open spec fn framework_reaches(scope: ScopeModel, id: Seq<char>) -> bool {
    scope.before.reaches(scope.before_root, id) || scope.after.reaches(scope.after_root, id)
}

/// Whether a dependency of the graph before stands in the graph after: under the same alias and in
/// the same contexts, and on the same package, or, where the framework reaches that package, on one
/// of the same name that the framework reaches.
pub open spec fn dependency_kept(
    scope: ScopeModel,
    old_edge: DependencyModel,
    new_edge: DependencyModel,
) -> bool {
    &&& old_edge.name == new_edge.name
    &&& old_edge.kinds == new_edge.kinds
    &&& if framework_reaches(scope, old_edge.package) {
        &&& framework_reaches(scope, new_edge.package)
        &&& package_of(scope.before.packages, old_edge.package) matches Some(old_package)
            && package_of(scope.after.packages, new_edge.package) matches Some(new_package)
            && old_package.name == new_package.name
    } else {
        old_edge.package == new_edge.package
    }
}

/// Whether a dependency of the graph before is kept by a package of the graph after.
pub open spec fn stands_after(
    scope: ScopeModel,
    old_edge: DependencyModel,
    new_node: NodeModel,
) -> bool {
    exists|k: int|
        0 <= k < new_node.dependencies.len() && dependency_kept(
            scope,
            old_edge,
            #[trigger] new_node.dependencies[k],
        )
}

/// Whether a dependency of the graph after was one of a package of the graph before.
pub open spec fn stood_before(
    scope: ScopeModel,
    old_node: NodeModel,
    new_edge: DependencyModel,
) -> bool {
    exists|j: int|
        0 <= j < old_node.dependencies.len() && dependency_kept(
            scope,
            #[trigger] old_node.dependencies[j],
            new_edge,
        )
}

proof fn lemma_target_recorded(graph: GraphModel, id: Seq<char>, at: int)
    requires
        graph.is_consistent(),
        node_of(graph.nodes, id) is Some,
        0 <= at < node_of(graph.nodes, id)->Some_0.dependencies.len(),
    ensures
        package_of(
            graph.packages,
            node_of(graph.nodes, id)->Some_0.dependencies[at].package,
        ) is Some,
{
    graph.lemma_consistent();
    let place = choose|i: int| 0 <= i < graph.nodes.len() && #[trigger] graph.nodes[i].id == id;
    let target = graph.nodes[place].dependencies[at].package;
    assert(has_node(graph.nodes, target));
    let k = choose|i: int| 0 <= i < graph.nodes.len() && #[trigger] graph.nodes[i].id == target;
    assert(has_package(graph.packages, graph.nodes[k].id));
}

proof fn lemma_node_recorded(graph: GraphModel, id: Seq<char>)
    requires
        graph.is_consistent(),
    ensures
        node_of(graph.nodes, id) is Some <==> has_package(graph.packages, id),
{
    graph.lemma_consistent();
    if has_node(graph.nodes, id) {
        let k = choose|i: int| 0 <= i < graph.nodes.len() && #[trigger] graph.nodes[i].id == id;
        assert(has_package(graph.packages, graph.nodes[k].id));
    }
    if has_package(graph.packages, id) {
        let k = choose|i: int|
            0 <= i < graph.packages.len() && #[trigger] graph.packages[i].id == id;
        assert(has_node(graph.nodes, graph.packages[k].id));
    }
}

proof fn lemma_comparables(
    scope: ScopeModel,
    after: bool,
    list: Seq<DependencyModel>,
    item: ComparableModel,
)
    ensures
        scope.comparables(after, list).contains(item) <==> exists|j: int|
            0 <= j < list.len() && !scope.left_out(after, (#[trigger] list[j]).package) && item
                == scope.comparable(after, list[j]),
    decreases list.len(),
{
    let all = scope.comparables(after, list);
    if list.len() > 0 {
        let fewer = list.drop_last();
        let last = list.last();
        lemma_comparables(scope, after, fewer, item);
        let before = scope.comparables(after, fewer);
        if all.contains(item) {
            let k = choose|k: int| 0 <= k < all.len() && all[k] == item;
            if k < before.len() {
                assert(before[k] == item);
                let j = choose|j: int|
                    0 <= j < fewer.len() && !scope.left_out(after, (#[trigger] fewer[j]).package)
                        && item == scope.comparable(after, fewer[j]);
                assert(list[j] == fewer[j]);
            } else {
                assert(list[list.len() - 1] == last);
            }
        }
        if exists|j: int|
            0 <= j < list.len() && !scope.left_out(after, (#[trigger] list[j]).package) && item
                == scope.comparable(after, list[j]) {
            let j = choose|j: int|
                0 <= j < list.len() && !scope.left_out(after, (#[trigger] list[j]).package) && item
                    == scope.comparable(after, list[j]);
            if j < fewer.len() {
                assert(fewer[j] == list[j]);
                let k = choose|k: int| 0 <= k < before.len() && before[k] == item;
                assert(all[k] == item);
            } else {
                assert(all[before.len() as int] == item);
            }
        }
    }
}

/// Where both lists hold the same compared dependencies, each dependency that is compared is kept.
proof fn lemma_kept_forward(
    scope: ScopeModel,
    id: Seq<char>,
    j: int,
    skips_toml: bool,
)
    requires
        scope.before.is_consistent(),
        scope.after.is_consistent(),
        node_of(scope.before.nodes, id) is Some,
        node_of(scope.after.nodes, id) is Some,
        ({
            let old_node = node_of(scope.before.nodes, id)->Some_0;
            let new_node = node_of(scope.after.nodes, id)->Some_0;
            let old_list = scope.comparables(false, old_node.dependencies);
            let new_list = scope.comparables(true, new_node.dependencies);
            &&& 0 <= j < old_node.dependencies.len()
            &&& !scope.left_out(false, old_node.dependencies[j].package)
            &&& if skips_toml {
                same_beside_toml(old_list, new_list) && !names_equal(
                    old_node.dependencies[j].name,
                    "toml"@,
                )
            } else {
                same_members(old_list, new_list)
            }
        }),
    ensures
        ({
            let old_node = node_of(scope.before.nodes, id)->Some_0;
            let new_node = node_of(scope.after.nodes, id)->Some_0;
            stands_after(scope, old_node.dependencies[j], new_node)
        }),
{
    let old_node = node_of(scope.before.nodes, id)->Some_0;
    let new_node = node_of(scope.after.nodes, id)->Some_0;
    let old_list = scope.comparables(false, old_node.dependencies);
    let new_list = scope.comparables(true, new_node.dependencies);
    let old_edge = old_node.dependencies[j];
    let item = scope.comparable(false, old_edge);
    lemma_comparables(scope, false, old_node.dependencies, item);
    lemma_comparables(scope, true, new_node.dependencies, item);
    assert(old_list.contains(item));
    if skips_toml {
        assert(!is_toml(item));
    }
    assert(new_list.contains(item));
    let k = choose|k: int|
        0 <= k < new_node.dependencies.len() && !scope.left_out(
            true,
            (#[trigger] new_node.dependencies[k]).package,
        ) && item == scope.comparable(true, new_node.dependencies[k]);
    lemma_target_recorded(scope.before, id, j);
    lemma_target_recorded(scope.after, id, k);
    assert(dependency_kept(scope, old_edge, new_node.dependencies[k]));
}

proof fn lemma_kept_back(
    scope: ScopeModel,
    id: Seq<char>,
    k: int,
    skips_toml: bool,
)
    requires
        scope.before.is_consistent(),
        scope.after.is_consistent(),
        node_of(scope.before.nodes, id) is Some,
        node_of(scope.after.nodes, id) is Some,
        ({
            let old_node = node_of(scope.before.nodes, id)->Some_0;
            let new_node = node_of(scope.after.nodes, id)->Some_0;
            let old_list = scope.comparables(false, old_node.dependencies);
            let new_list = scope.comparables(true, new_node.dependencies);
            &&& 0 <= k < new_node.dependencies.len()
            &&& !scope.left_out(true, new_node.dependencies[k].package)
            &&& if skips_toml {
                same_beside_toml(old_list, new_list) && !names_equal(
                    new_node.dependencies[k].name,
                    "toml"@,
                )
            } else {
                same_members(old_list, new_list)
            }
        }),
    ensures
        ({
            let old_node = node_of(scope.before.nodes, id)->Some_0;
            let new_node = node_of(scope.after.nodes, id)->Some_0;
            stood_before(scope, old_node, new_node.dependencies[k])
        }),
{
    let old_node = node_of(scope.before.nodes, id)->Some_0;
    let new_node = node_of(scope.after.nodes, id)->Some_0;
    let old_list = scope.comparables(false, old_node.dependencies);
    let new_list = scope.comparables(true, new_node.dependencies);
    let new_edge = new_node.dependencies[k];
    let item = scope.comparable(true, new_edge);
    lemma_comparables(scope, false, old_node.dependencies, item);
    lemma_comparables(scope, true, new_node.dependencies, item);
    assert(new_list.contains(item));
    if skips_toml {
        assert(!is_toml(item));
    }
    assert(old_list.contains(item));
    let j = choose|j: int|
        0 <= j < old_node.dependencies.len() && !scope.left_out(
            false,
            (#[trigger] old_node.dependencies[j]).package,
        ) && item == scope.comparable(false, old_node.dependencies[j]);
    lemma_target_recorded(scope.before, id, j);
    lemma_target_recorded(scope.after, id, k);
    assert(dependency_kept(scope, old_node.dependencies[j], new_edge));
}

/// An accepted resolution changes nothing of a package that neither framework reaches: its record,
/// its enabled features, and, where no former layout is replaced, each of its dependencies are the
/// same before and after. Nor does it change the members of the workspace.
pub proof fn lemma_accepted_resolution(scope: ScopeModel, id: Seq<char>)
    requires
        scope.before.is_consistent(),
        scope.after.is_consistent(),
        scope.defect() is None,
        !scope.before.reaches(scope.before_root, id),
        !scope.after.reaches(scope.after_root, id),
    ensures
        has_package(scope.before.packages, id) <==> has_package(scope.after.packages, id),
        package_of(scope.before.packages, id) == package_of(scope.after.packages, id),
        node_of(scope.before.nodes, id) is Some <==> node_of(scope.after.nodes, id) is Some,
        node_of(scope.before.nodes, id) matches Some(old_node) ==> (node_of(
            scope.after.nodes,
            id,
        ) matches Some(new_node) ==> {
            &&& old_node.features == new_node.features
            &&& forall|feature: Seq<char>| #[trigger]
                old_node.features.contains(feature) <==> new_node.features.contains(feature)
            &&& !scope.legacy ==> forall|j: int|
                0 <= j < old_node.dependencies.len() ==> stands_after(scope, #[trigger] old_node.dependencies[j], new_node)
            &&& !scope.legacy ==> forall|k: int|
                0 <= k < new_node.dependencies.len() ==> stood_before(scope, old_node, #[trigger] new_node.dependencies[k])
        }),
        !scope.legacy ==> scope.before.members == scope.after.members,
        scope.before.members.contains(id) <==> scope.after.members.contains(id),
{
    lemma_node_recorded(scope.before, id);
    lemma_node_recorded(scope.after, id);
    assert(!scope.may_change(id));
    if has_package(scope.before.packages, id) || has_package(scope.after.packages, id) {
        scope.lemma_outside_unchanged(id);
        let old_node = node_of(scope.before.nodes, id)->Some_0;
        let new_node = node_of(scope.after.nodes, id)->Some_0;
        if !scope.legacy {
            assert forall|j: int| 0 <= j < old_node.dependencies.len() implies stands_after(scope, #[trigger] old_node.dependencies[j], new_node) by {
                lemma_kept_forward(scope, id, j, false);
            }
            assert forall|k: int| 0 <= k < new_node.dependencies.len() implies stood_before(scope, old_node, #[trigger] new_node.dependencies[k]) by {
                lemma_kept_back(scope, id, k, false);
            }
        }
    }
    assert(scope.same_workspace());
}

/// Whether a dependency before led into a framework of the former layout.
pub open spec fn led_to_framework(scope: ScopeModel, edge: DependencyModel) -> bool {
    &&& scope.before.reaches(scope.before_root, edge.package)
    &&& edge.package == scope.before_root || (package_of(
        scope.before.packages,
        edge.package,
    ) matches Some(package) && "omnius-"@.is_prefix_of(package.name))
}

/// Where a former layout is replaced, a package that neither framework reaches keeps its
/// dependencies but for those on the framework: where it had such ones, one dependency on the
/// canonical framework stands for all of them, under the alias of the framework, for ordinary use
/// and for tests, and it depends on nothing else of the family; where it had none, it has none. Only
/// the contexts of a dependency named `toml` of a former user may change.
pub proof fn lemma_accepted_cutover(scope: ScopeModel, id: Seq<char>)
    requires
        scope.before.is_consistent(),
        scope.after.is_consistent(),
        scope.legacy,
        scope.defect() is None,
        !scope.before.reaches(scope.before_root, id),
        !scope.after.reaches(scope.after_root, id),
        node_of(scope.before.nodes, id) is Some,
    ensures
        ({
            let old_node = node_of(scope.before.nodes, id)->Some_0;
            let new_node = node_of(scope.after.nodes, id)->Some_0;
            let used = exists|j: int|
                0 <= j < old_node.dependencies.len() && led_to_framework(
                    scope,
                    #[trigger] old_node.dependencies[j],
                );
            &&& old_node.features == new_node.features
            &&& forall|j: int|
                0 <= j < old_node.dependencies.len() && !led_to_framework(
                    scope,
                    old_node.dependencies[j],
                ) && (!used || !names_equal(old_node.dependencies[j].name, "toml"@)) ==> stands_after(scope, #[trigger] old_node.dependencies[j], new_node)
            &&& forall|k: int|
                0 <= k < new_node.dependencies.len() && new_node.dependencies[k].package
                    != scope.after_root && (!used || !names_equal(
                    new_node.dependencies[k].name,
                    "toml"@,
                )) ==> stood_before(scope, old_node, #[trigger] new_node.dependencies[k])
            &&& !used ==> forall|k: int|
                0 <= k < new_node.dependencies.len() ==> (
                #[trigger] new_node.dependencies[k]).package != scope.after_root
            &&& used ==> exists|at: int|
                {
                    let edge = new_node.dependencies[at];
                    &&& 0 <= at < new_node.dependencies.len()
                    &&& (#[trigger] new_node.dependencies[at]).package == scope.after_root
                    &&& names_equal(edge.name, "service-kit"@)
                    &&& edge.kinds.contains(KindModel { kind: None, target: None })
                    &&& edge.kinds.contains(KindModel { kind: Some("dev"@), target: None })
                    &&& forall|k: int|
                        0 <= k < new_node.dependencies.len() && k != at ==> (
                        #[trigger] new_node.dependencies[k]).package != scope.after_root && !(
                        package_of(
                            scope.after.packages,
                            new_node.dependencies[k].package,
                        ) matches Some(package) && "omnius-"@.is_prefix_of(package.name))
                }
        }),
{
    lemma_node_recorded(scope.before, id);
    lemma_node_recorded(scope.after, id);
    assert(!scope.may_change(id));
    scope.lemma_outside_unchanged(id);
    let old_node = node_of(scope.before.nodes, id)->Some_0;
    let new_node = node_of(scope.after.nodes, id)->Some_0;
    let old_list = scope.comparables(false, old_node.dependencies);
    let new_list = scope.comparables(true, new_node.dependencies);
    let used = exists|j: int|
        0 <= j < old_node.dependencies.len() && led_to_framework(
            scope,
            #[trigger] old_node.dependencies[j],
        );
    assert forall|edge: DependencyModel| #[trigger] led_to_framework(scope, edge)
        == scope.was_boundary(edge.package) by {}
    if used {
        let j = choose|j: int|
            0 <= j < old_node.dependencies.len() && led_to_framework(
                scope,
                #[trigger] old_node.dependencies[j],
            );
        assert(scope.was_boundary(old_node.dependencies[j].package));
        assert(scope.was_framework_user(old_node));
    }
    if scope.was_framework_user(old_node) {
        let j = choose|j: int|
            0 <= j < old_node.dependencies.len() && scope.was_boundary(
                (#[trigger] old_node.dependencies[j]).package,
            );
        assert(led_to_framework(scope, old_node.dependencies[j]));
    }
    assert(used == scope.was_framework_user(old_node));
    let skips = !same_members(old_list, new_list);
    if skips {
        assert(toml_normal_kind_removed(old_list, new_list));
        assert(same_beside_toml(old_list, new_list));
    }
    assert forall|j: int|
        0 <= j < old_node.dependencies.len() && !led_to_framework(
            scope,
            old_node.dependencies[j],
        ) && (!used || !names_equal(old_node.dependencies[j].name, "toml"@)) implies stands_after(scope, #[trigger] old_node.dependencies[j], new_node) by {
        lemma_kept_forward(scope, id, j, skips);
    }
    assert forall|k: int|
        0 <= k < new_node.dependencies.len() && new_node.dependencies[k].package
            != scope.after_root && (!used || !names_equal(
            new_node.dependencies[k].name,
            "toml"@,
        )) implies stood_before(scope, old_node, #[trigger] new_node.dependencies[k]) by {
        lemma_kept_back(scope, id, k, skips);
    }
    lemma_boundary(scope, old_node, new_node);
}

proof fn lemma_boundary(scope: ScopeModel, old_node: NodeModel, new_node: NodeModel)
    requires
        scope.legacy,
        scope.boundary_kept(old_node, new_node),
    ensures
        !scope.was_framework_user(old_node) ==> forall|k: int|
            0 <= k < new_node.dependencies.len() ==> (
            #[trigger] new_node.dependencies[k]).package != scope.after_root,
        scope.was_framework_user(old_node) ==> exists|at: int|
            {
                let edge = new_node.dependencies[at];
                &&& 0 <= at < new_node.dependencies.len()
                &&& (#[trigger] new_node.dependencies[at]).package == scope.after_root
                &&& names_equal(edge.name, "service-kit"@)
                &&& edge.kinds.contains(KindModel { kind: None, target: None })
                &&& edge.kinds.contains(KindModel { kind: Some("dev"@), target: None })
                &&& forall|k: int|
                    0 <= k < new_node.dependencies.len() && k != at ==> (
                    #[trigger] new_node.dependencies[k]).package != scope.after_root && !(
                    package_of(
                        scope.after.packages,
                        new_node.dependencies[k].package,
                    ) matches Some(package) && "omnius-"@.is_prefix_of(package.name))
            },
{
    let used = scope.was_framework_user(old_node);
    if used {
        let at = choose|at: int|
            {
                &&& #[trigger] scope.is_sole_replacement(new_node, at)
                &&& names_equal(new_node.dependencies[at].name, ROOT_FRAMEWORK_ALIAS@)
                &&& normal_and(new_node.dependencies[at].kinds, "dev"@)
                &&& forall|j: int|
                    0 <= j < new_node.dependencies.len() ==> (
                    #[trigger] new_node.dependencies[j]).package == scope.after_root
                        || !is_omnius_package(
                        scope.after,
                        new_node.dependencies[j].package,
                    )
            };
        assert(scope.is_sole_replacement(new_node, at));
        assert(new_node.dependencies[at].package == scope.after_root);
        assert forall|k: int| 0 <= k < new_node.dependencies.len() && k != at implies (
        #[trigger] new_node.dependencies[k]).package != scope.after_root && !(package_of(
            scope.after.packages,
            new_node.dependencies[k].package,
        ) matches Some(package) && "omnius-"@.is_prefix_of(package.name)) by {
            if new_node.dependencies[k].package == scope.after_root {
                assert(scope.is_boundary(new_node.dependencies[k].package));
            }
        }
    } else {
        assert forall|k: int| 0 <= k < new_node.dependencies.len() implies (
        #[trigger] new_node.dependencies[k]).package != scope.after_root by {
            assert(!scope.is_boundary(new_node.dependencies[k].package));
        }
    }
}

/// Whether a package has the same record, the same features and the same dependencies before and
/// after.
pub open spec fn package_kept(scope: ScopeModel, id: Seq<char>) -> bool {
    &&& package_of(scope.before.packages, id) == package_of(scope.after.packages, id)
    &&& match (node_of(scope.before.nodes, id), node_of(scope.after.nodes, id)) {
        (Some(old_node), Some(new_node)) => {
            &&& old_node.features == new_node.features
            &&& forall|j: int|
                0 <= j < old_node.dependencies.len() ==> stands_after(scope, #[trigger] old_node.dependencies[j], new_node)
            &&& forall|k: int|
                0 <= k < new_node.dependencies.len() ==> stood_before(scope, old_node, #[trigger] new_node.dependencies[k])
        },
        _ => true,
    }
}

proof fn lemma_kept_item(scope: ScopeModel, id: Seq<char>, item: ComparableModel)
    requires
        !scope.legacy,
        package_kept(scope, id),
        node_of(scope.before.nodes, id) is Some,
        node_of(scope.after.nodes, id) is Some,
    ensures
        scope.comparables(
            false,
            node_of(scope.before.nodes, id)->Some_0.dependencies,
        ).contains(item) <==> scope.comparables(
            true,
            node_of(scope.after.nodes, id)->Some_0.dependencies,
        ).contains(item),
{
    let old_node = node_of(scope.before.nodes, id)->Some_0;
    let new_node = node_of(scope.after.nodes, id)->Some_0;
    lemma_comparables(scope, false, old_node.dependencies, item);
    lemma_comparables(scope, true, new_node.dependencies, item);
    if scope.comparables(false, old_node.dependencies).contains(item) {
        let j = choose|j: int|
            0 <= j < old_node.dependencies.len() && !scope.left_out(
                false,
                (#[trigger] old_node.dependencies[j]).package,
            ) && item == scope.comparable(false, old_node.dependencies[j]);
        assert(stands_after(scope, old_node.dependencies[j], new_node));
        let k = choose|k: int|
            0 <= k < new_node.dependencies.len() && dependency_kept(
                scope,
                old_node.dependencies[j],
                #[trigger] new_node.dependencies[k],
            );
        assert(item == scope.comparable(true, new_node.dependencies[k]));
    }
    if scope.comparables(true, new_node.dependencies).contains(item) {
        let k = choose|k: int|
            0 <= k < new_node.dependencies.len() && !scope.left_out(
                true,
                (#[trigger] new_node.dependencies[k]).package,
            ) && item == scope.comparable(true, new_node.dependencies[k]);
        assert(stood_before(scope, old_node, new_node.dependencies[k]));
        let j = choose|j: int|
            0 <= j < old_node.dependencies.len() && dependency_kept(
                scope,
                #[trigger] old_node.dependencies[j],
                new_node.dependencies[k],
            );
        assert(item == scope.comparable(false, old_node.dependencies[j]));
    }
}

proof fn lemma_kept_passes(scope: ScopeModel, package: PackageModel)
    requires
        scope.before.is_consistent(),
        scope.after.is_consistent(),
        !scope.legacy,
        !framework_reaches(scope, package.id) ==> package_kept(scope, package.id),
        has_package(scope.before.packages, package.id) || has_package(
            scope.after.packages,
            package.id,
        ),
    ensures
        scope.package_check()(package) is None,
{
    let id = package.id;
    if !scope.may_change(id) {
        lemma_node_recorded(scope.before, id);
        lemma_node_recorded(scope.after, id);
        let old_node = node_of(scope.before.nodes, id)->Some_0;
        let new_node = node_of(scope.after.nodes, id)->Some_0;
        let old_list = scope.comparables(false, old_node.dependencies);
        let new_list = scope.comparables(true, new_node.dependencies);
        assert forall|item: ComparableModel| #[trigger]
            old_list.contains(item) <==> new_list.contains(item) by {
            lemma_kept_item(scope, id, item);
        }
        assert(scope.same_node(old_node, new_node));
    }
}

/// A resolution that leaves the members of the workspace and every package that neither framework
/// reaches as it was is accepted.
pub proof fn lemma_harmless_resolution_is_accepted(scope: ScopeModel)
    requires
        scope.before.is_consistent(),
        scope.after.is_consistent(),
        !scope.legacy,
        has_node(scope.before.nodes, scope.before_root),
        has_node(scope.after.nodes, scope.after_root),
        scope.before.members == scope.after.members,
        forall|id: Seq<char>|
            !framework_reaches(scope, id) ==> #[trigger] package_kept(scope, id),
    ensures
        scope.defect() is None,
{
    let check = scope.package_check();
    assert forall|i: int| 0 <= i < scope.before.packages.len() implies check(
        #[trigger] scope.before.packages[i],
    ) is None by {
        let package = scope.before.packages[i];
        assert(has_package(scope.before.packages, package.id));
        assert(!framework_reaches(scope, package.id) ==> package_kept(scope, package.id));
        lemma_kept_passes(scope, package);
    }
    assert forall|i: int| 0 <= i < scope.after.packages.len() implies check(
        #[trigger] scope.after.packages[i],
    ) is None by {
        let package = scope.after.packages[i];
        assert(has_package(scope.after.packages, package.id));
        assert(!framework_reaches(scope, package.id) ==> package_kept(scope, package.id));
        lemma_kept_passes(scope, package);
    }
    lemma_no_finding(scope.before.packages, check);
    lemma_no_finding(scope.after.packages, check);
}

/// Whether one of the packages of a graph has a dependency.
pub open spec fn has_dependency(graph: GraphModel, edge: EdgeModel) -> bool {
    exists|i: int, j: int|
        0 <= i < graph.nodes.len() && 0 <= j < graph.nodes[i].dependencies.len() && edge.from
            == graph.nodes[i].id && edge.name == (
        #[trigger] graph.nodes[i].dependencies[j]).name && edge.to
            == graph.nodes[i].dependencies[j].package && edge.kinds
            == graph.nodes[i].dependencies[j].kinds
}

proof fn lemma_edge(graph: GraphModel, edge: EdgeModel)
    ensures
        has_dependency(graph, edge) == has_edge(graph.nodes, edge),
{
    if has_dependency(graph, edge) {
        let (i, j) = choose|i: int, j: int|
            0 <= i < graph.nodes.len() && 0 <= j < graph.nodes[i].dependencies.len() && edge.from
                == graph.nodes[i].id && edge.name == (
            #[trigger] graph.nodes[i].dependencies[j]).name && edge.to
                == graph.nodes[i].dependencies[j].package && edge.kinds
                == graph.nodes[i].dependencies[j].kinds;
        assert(edge == edge_of(graph.nodes[i].id, graph.nodes[i].dependencies[j]));
    }
}

/// The difference of two graphs names exactly the packages and the dependencies that one of them
/// has and the other has not, and what each framework reaches.
pub proof fn lemma_difference_is_exact(scope: ScopeModel, changes: DifferenceModel)
    requires
        scope.describes(changes),
    ensures
        forall|id: Seq<char>| #[trigger]
            changes.before_closure.contains(id) <==> scope.before.reaches(scope.before_root, id),
        forall|id: Seq<char>| #[trigger]
            changes.after_closure.contains(id) <==> scope.after.reaches(scope.after_root, id),
        forall|id: Seq<char>| #[trigger]
            changes.added_packages.contains(id) <==> has_package(scope.after.packages, id)
                && !has_package(scope.before.packages, id),
        forall|id: Seq<char>| #[trigger]
            changes.removed_packages.contains(id) <==> has_package(scope.before.packages, id)
                && !has_package(scope.after.packages, id),
        forall|edge: EdgeModel| #[trigger]
            changes.added_edges.contains(edge) <==> has_dependency(scope.after, edge)
                && !has_dependency(scope.before, edge),
        forall|edge: EdgeModel| #[trigger]
            changes.removed_edges.contains(edge) <==> has_dependency(scope.before, edge)
                && !has_dependency(scope.after, edge),
{
    assert forall|edge: EdgeModel| #[trigger]
        changes.added_edges.contains(edge) <==> has_dependency(scope.after, edge)
            && !has_dependency(scope.before, edge) by {
        lemma_edge(scope.before, edge);
        lemma_edge(scope.after, edge);
    }
    assert forall|edge: EdgeModel| #[trigger]
        changes.removed_edges.contains(edge) <==> has_dependency(scope.before, edge)
            && !has_dependency(scope.after, edge) by {
        lemma_edge(scope.before, edge);
        lemma_edge(scope.after, edge);
    }
}

// The framework.
/// Whether two names are the same when hyphens are read as underscores.
pub open spec fn reads_as(left: Seq<char>, right: Seq<char>) -> bool {
    left.len() == right.len() && forall|i: int|
        0 <= i < left.len() ==> #[trigger] left[i] == right[i] || (left[i] == '-' && right[i]
            == '_') || (left[i] == '_' && right[i] == '-')
}

/// Two names are equal for Cargo exactly where they are the same when hyphens are read as
/// underscores.
pub proof fn lemma_names(left: Seq<char>, right: Seq<char>)
    ensures
        names_equal(left, right) <==> reads_as(left, right),
{
    if reads_as(left, right) {
        assert forall|i: int| 0 <= i < left.len() implies normalized_name_char(
            #[trigger] left[i],
        ) == normalized_name_char(right[i]) by {}
    }
}

proof fn lemma_some_ids(packages: Seq<PackageModel>, legacy: bool)
    ensures
        forall|id: Seq<char>| #[trigger]
            framework_ids(packages, legacy).contains(id) <==> exists|i: int|
                0 <= i < packages.len() && (#[trigger] packages[i]).id == id
                    && is_framework_candidate(packages[i], legacy),
    decreases packages.len(),
{
    let now = framework_ids(packages, legacy);
    if packages.len() > 0 {
        let fewer = packages.drop_last();
        let last = packages.last();
        lemma_some_ids(fewer, legacy);
        let before = framework_ids(fewer, legacy);
        assert forall|id: Seq<char>| #[trigger] now.contains(id) <==> exists|i: int|
            0 <= i < packages.len() && (#[trigger] packages[i]).id == id && is_framework_candidate(
                packages[i],
                legacy,
            ) by {
            if before.contains(id) {
                let i = choose|i: int|
                    0 <= i < fewer.len() && (#[trigger] fewer[i]).id == id
                        && is_framework_candidate(fewer[i], legacy);
                assert(packages[i] == fewer[i]);
                let k = choose|k: int| 0 <= k < before.len() && before[k] == id;
                assert(now[k] == id);
            }
            if now.contains(id) && !before.contains(id) {
                let k = choose|k: int| 0 <= k < now.len() && now[k] == id;
                if k < before.len() {
                    assert(before[k] == id);
                }
                assert(packages[packages.len() - 1] == last);
            }
            if exists|i: int|
                0 <= i < packages.len() && (#[trigger] packages[i]).id == id
                    && is_framework_candidate(packages[i], legacy) {
                let i = choose|i: int|
                    0 <= i < packages.len() && (#[trigger] packages[i]).id == id
                        && is_framework_candidate(packages[i], legacy);
                if i < fewer.len() {
                    assert(fewer[i] == packages[i]);
                    assert(before.contains(id));
                } else {
                    assert(now[before.len() as int] == id);
                }
            }
        }
    }
}

proof fn lemma_kept_ids(nodes: Seq<NodeModel>, graph: GraphModel, root: Seq<char>) -> (list: Seq<
    Seq<char>,
>)
    ensures
        forall|id: Seq<char>| #[trigger]
            list.contains(id) <==> id == root || (graph.reaches(root, id) && has_node(nodes, id)),
    decreases nodes.len(),
{
    if nodes.len() == 0 {
        let list = seq![root];
        assert(list[0] == root);
        list
    } else {
        let fewer = nodes.drop_last();
        let before = lemma_kept_ids(fewer, graph, root);
        let last = nodes.last();
        let list = if graph.reaches(root, last.id) {
            before.push(last.id)
        } else {
            before
        };
        assert forall|id: Seq<char>| #[trigger] list.contains(id) <==> id == root || (
        graph.reaches(root, id) && has_node(nodes, id)) by {
            if has_node(fewer, id) {
                let i = choose|i: int| 0 <= i < fewer.len() && #[trigger] fewer[i].id == id;
                assert(nodes[i].id == id);
            }
            if has_node(nodes, id) && !has_node(fewer, id) {
                let i = choose|i: int| 0 <= i < nodes.len() && #[trigger] nodes[i].id == id;
                if i < fewer.len() {
                    assert(fewer[i].id == id);
                }
                assert(id == last.id);
            }
            assert(nodes[nodes.len() - 1].id == last.id);
            if before.contains(id) {
                let k = choose|k: int| 0 <= k < before.len() && before[k] == id;
                assert(list[k] == id);
            }
            if list.contains(id) && !before.contains(id) {
                let k = choose|k: int| 0 <= k < list.len() && list[k] == id;
                if k < before.len() {
                    assert(before[k] == id);
                }
            }
            if id == last.id && graph.reaches(root, id) {
                assert(list[before.len() as int] == id);
            }
        }
        list
    }
}

proof fn lemma_reached_has_node(graph: GraphModel, root: Seq<char>, id: Seq<char>)
    requires
        graph.is_consistent(),
        graph.reaches(root, id),
    ensures
        id == root || has_node(graph.nodes, id),
{
    let path = choose|path: Seq<Seq<char>>| #[trigger]
        graph.is_path(path) && path[0] == root && path.last() == id;
    if path.len() > 1 {
        let from = path[path.len() - 2];
        assert(graph.depends(path[path.len() - 2], path[path.len() - 2 + 1]));
        let node = node_of(graph.nodes, from)->Some_0;
        let place = choose|i: int|
            0 <= i < graph.nodes.len() && #[trigger] graph.nodes[i].id == from;
        let j = choose|j: int|
            0 <= j < node.dependencies.len() && #[trigger] node.dependencies[j].package == id;
        graph.lemma_consistent();
        assert(has_node(graph.nodes, graph.nodes[place].dependencies[j].package));
    }
}

/// The closure of a package lists exactly what it reaches.
pub proof fn lemma_closure(graph: GraphModel, root: Seq<char>)
    requires
        graph.is_consistent(),
    ensures
        graph.is_closure(root, graph.closure(root)),
{
    let list = lemma_kept_ids(graph.nodes, graph, root);
    let sorted = sorted_listing::<String>(list);
    lemma_listing_exists::<String>(list);
    assert forall|id: Seq<char>| #[trigger] sorted.contains(id) <==> graph.reaches(root, id) by {
        assert(sorted.contains(id) <==> list.contains(id));
        if graph.reaches(root, id) {
            lemma_reached_has_node(graph, root, id);
        }
        graph.lemma_reaches_self(root);
    }
    assert(graph.is_closure(root, sorted));
}

/// Whether a package is the only one with a property.
pub open spec fn is_only(
    packages: Seq<PackageModel>,
    id: Seq<char>,
    property: spec_fn(PackageModel) -> bool,
) -> bool {
    exists|at: int|
        {
            &&& 0 <= at < packages.len()
            &&& (#[trigger] packages[at]).id == id
            &&& property(packages[at])
            &&& forall|i: int|
                0 <= i < packages.len() && property(#[trigger] packages[i]) ==> i == at
        }
}

/// Whether a package is named after the framework.
pub open spec fn named_after_framework() -> spec_fn(PackageModel) -> bool {
    |package: PackageModel| package.name == "omnius-service-kit"@
}

/// Whether a package is local and stands at the framework's place in the workspace.
pub open spec fn stands_at_framework() -> spec_fn(PackageModel) -> bool {
    |package: PackageModel|
        package.source is None && occurs("workspace+crates/service-kit/Cargo.toml#"@, package.id)
}

/// Whether a workspace member depends on the framework, and none does under another alias.
pub open spec fn uses_framework(graph: GraphModel, framework: Seq<char>) -> bool {
    &&& exists|i: int|
        0 <= i < graph.members.len() && graph.depends(#[trigger] graph.members[i], framework)
    &&& forall|i: int, j: int|
        0 <= i < graph.members.len() && (node_of(graph.nodes, #[trigger] graph.members[i]) matches
            Some(node) && 0 <= j < node.dependencies.len() && node.dependencies[j].package
            == framework) ==> reads_as(
            (#[trigger] node_of(graph.nodes, graph.members[i])->Some_0.dependencies[j]).name,
            "service-kit"@,
        )
}

proof fn lemma_only(
    packages: Seq<PackageModel>,
    legacy: bool,
    property: spec_fn(PackageModel) -> bool,
)
    requires
        ascending::<CargoPackage>(packages),
        forall|package: PackageModel| #[trigger]
            property(package) <==> is_framework_candidate(package, legacy),
    ensures
        framework_ids(packages, legacy).len() == 1 <==> exists|id: Seq<char>| #[trigger]
            is_only(packages, id, property),
        framework_ids(packages, legacy).len() == 1 ==> is_only(
            packages,
            framework_ids(packages, legacy)[0],
            property,
        ),
{
    let ids = framework_ids(packages, legacy);
    lemma_some_ids(packages, legacy);
    lemma_ids_distinct(packages, legacy);
    if ids.len() == 1 {
        assert(ids.contains(ids[0]));
        let at = choose|i: int|
            0 <= i < packages.len() && (#[trigger] packages[i]).id == ids[0]
                && is_framework_candidate(packages[i], legacy);
        assert(property(packages[at]));
        assert forall|i: int|
            0 <= i < packages.len() && property(#[trigger] packages[i]) implies i == at by {
            assert(ids.contains(packages[i].id));
            let k = choose|k: int| 0 <= k < ids.len() && ids[k] == packages[i].id;
            assert(packages[i].id == packages[at].id);
            lemma_package_at(packages, i);
            lemma_package_at(packages, at);
            lemma_ascending_distinct::<CargoPackage>(packages);
            if i != at {
                assert(<CargoPackage as Keyed>::key(packages[i]) != <CargoPackage as Keyed>::key(
                    packages[at],
                ));
            }
        }
        assert(is_only(packages, ids[0], property));
    }
    if exists|id: Seq<char>| #[trigger] is_only(packages, id, property) {
        let id = choose|id: Seq<char>| #[trigger] is_only(packages, id, property);
        let at = choose|at: int|
            {
                &&& 0 <= at < packages.len()
                &&& (#[trigger] packages[at]).id == id
                &&& property(packages[at])
                &&& forall|i: int|
                    0 <= i < packages.len() && property(#[trigger] packages[i]) ==> i == at
            };
        assert(is_framework_candidate(packages[at], legacy));
        assert(ids.contains(id));
        if ids.len() > 1 {
            assert(ids.contains(ids[0]) && ids.contains(ids[1]));
            let i = choose|i: int|
                0 <= i < packages.len() && (#[trigger] packages[i]).id == ids[0]
                    && is_framework_candidate(packages[i], legacy);
            let j = choose|i: int|
                0 <= i < packages.len() && (#[trigger] packages[i]).id == ids[1]
                    && is_framework_candidate(packages[i], legacy);
            assert(property(packages[i]) && property(packages[j]));
            assert(ids[0] == ids[1]);
        }
    }
}

proof fn lemma_ids_distinct(packages: Seq<PackageModel>, legacy: bool)
    requires
        ascending::<CargoPackage>(packages),
    ensures
        framework_ids(packages, legacy).no_duplicates(),
    decreases packages.len(),
{
    if packages.len() > 0 {
        let fewer = packages.drop_last();
        assert(ascending::<CargoPackage>(fewer));
        lemma_ids_distinct(fewer, legacy);
        lemma_some_ids(fewer, legacy);
        let before = framework_ids(fewer, legacy);
        let last = packages.last();
        if before.contains(last.id) {
            let i = choose|i: int|
                0 <= i < fewer.len() && (#[trigger] fewer[i]).id == last.id
                    && is_framework_candidate(fewer[i], legacy);
            lemma_ascending_distinct::<CargoPackage>(packages);
            assert(<CargoPackage as Keyed>::key(packages[i]) != <CargoPackage as Keyed>::key(
                packages[packages.len() - 1],
            ));
        }
        let now = framework_ids(packages, legacy);
        assert forall|i: int, j: int| 0 <= i < now.len() && 0 <= j < now.len() && i
            != j implies now[i] != now[j] by {
            if i == before.len() {
                assert(before.contains(before[j]));
            } else if j == before.len() {
                assert(before.contains(before[i]));
            }
        }
    }
}

proof fn lemma_uses(graph: GraphModel, framework: Seq<char>)
    requires
        graph.is_consistent(),
    ensures
        root_edge_defect(graph, framework) is None <==> uses_framework(graph, framework),
{
    let check = member_alias_check(graph, framework);
    lemma_no_finding(graph.members, check);
    assert forall|i: int| 0 <= i < graph.members.len() implies (check(
        #[trigger] graph.members[i],
    ) is None <==> (node_of(graph.nodes, graph.members[i]) matches Some(node) ==> forall|j: int|
        0 <= j < node.dependencies.len() && (#[trigger] node.dependencies[j]).package == framework
            ==> reads_as(node.dependencies[j].name, "service-kit"@))) by {
        if let Some(node) = node_of(graph.nodes, graph.members[i]) {
            let inner = alias_check(node.id, framework);
            lemma_no_finding(node.dependencies, inner);
            assert forall|j: int| 0 <= j < node.dependencies.len() implies (inner(
                #[trigger] node.dependencies[j],
            ) is None <==> (node.dependencies[j].package == framework ==> reads_as(
                node.dependencies[j].name,
                "service-kit"@,
            ))) by {
                lemma_names(node.dependencies[j].name, "service-kit"@);
            }
        }
    }
    if root_edge_defect(graph, framework) is None {
        assert forall|i: int, j: int|
            0 <= i < graph.members.len() && (node_of(
                graph.nodes,
                #[trigger] graph.members[i],
            ) matches Some(node) && 0 <= j < node.dependencies.len() && node.dependencies[j].package
                == framework) implies reads_as(
            (#[trigger] node_of(graph.nodes, graph.members[i])->Some_0.dependencies[j]).name,
            "service-kit"@,
        ) by {
            assert(check(graph.members[i]) is None);
        }
    }
    if uses_framework(graph, framework) {
        assert forall|i: int| 0 <= i < graph.members.len() implies check(
            #[trigger] graph.members[i],
        ) is None by {
            if let Some(node) = node_of(graph.nodes, graph.members[i]) {
                assert forall|j: int|
                    0 <= j < node.dependencies.len() && (
                    #[trigger] node.dependencies[j]).package == framework implies reads_as(
                    node.dependencies[j].name,
                    "service-kit"@,
                ) by {
                    let found = node_of(graph.nodes, graph.members[i])->Some_0.dependencies[j];
                    assert(found.package == framework);
                }
            }
        }
    }
}

/// A graph is accepted for a release exactly where it holds one package named after the framework,
/// a workspace member depends on it and none does so under another alias, and everything of the
/// family that it reaches is of that version and comes from the repository at that revision.
pub proof fn lemma_framework_accepted(graph: GraphModel, release: ReleaseModel)
    requires
        graph.is_consistent(),
    ensures
        framework_defect(graph, release) is None <==> exists|framework: Seq<char>|
            {
                &&& #[trigger] is_only(graph.packages, framework, named_after_framework())
                &&& uses_framework(graph, framework)
                &&& forall|id: Seq<char>| #[trigger]
                    graph.reaches(framework, id) ==> (package_of(graph.packages, id) matches Some(
                        package,
                    ) && ("omnius-"@.is_prefix_of(package.name) ==> package.version
                        == release.version && package.source == Some(
                        "git+"@ + release.repository + "?rev="@ + release.revision + "#"@
                            + release.revision,
                    )))
            },
{
    let property = named_after_framework();
    let ids = framework_ids(graph.packages, false);
    lemma_only(graph.packages, false, property);
    if ids.len() == 1 {
        let framework = ids[0];
        lemma_uses(graph, framework);
        lemma_closure(graph, framework);
        let closure = graph.closure(framework);
        let check = release_check(graph, release);
        lemma_no_finding(closure, check);
        if framework_defect(graph, release) is None {
            assert forall|id: Seq<char>| #[trigger] graph.reaches(framework, id) implies (
            package_of(graph.packages, id) matches Some(package) && ("omnius-"@.is_prefix_of(
                package.name,
            ) ==> package.version == release.version && package.source == Some(
                "git+"@ + release.repository + "?rev="@ + release.revision + "#"@
                    + release.revision,
            ))) by {
                assert(closure.contains(id));
                let k = choose|k: int| 0 <= k < closure.len() && closure[k] == id;
                assert(check(closure[k]) is None);
            }
        }
        if exists|other: Seq<char>|
            {
                &&& #[trigger] is_only(graph.packages, other, property)
                &&& uses_framework(graph, other)
                &&& forall|id: Seq<char>| #[trigger]
                    graph.reaches(other, id) ==> (package_of(graph.packages, id) matches Some(
                        package,
                    ) && ("omnius-"@.is_prefix_of(package.name) ==> package.version
                        == release.version && package.source == Some(
                        "git+"@ + release.repository + "?rev="@ + release.revision + "#"@
                            + release.revision,
                    )))
            } {
            let other = choose|other: Seq<char>|
                {
                    &&& #[trigger] is_only(graph.packages, other, property)
                    &&& uses_framework(graph, other)
                    &&& forall|id: Seq<char>| #[trigger]
                        graph.reaches(other, id) ==> (package_of(graph.packages, id) matches Some(
                            package,
                        ) && ("omnius-"@.is_prefix_of(package.name) ==> package.version
                            == release.version && package.source == Some(
                            "git+"@ + release.repository + "?rev="@ + release.revision + "#"@
                                + release.revision,
                        )))
                };
            assert(is_only(graph.packages, framework, property));
            let a = choose|at: int|
                {
                    &&& 0 <= at < graph.packages.len()
                    &&& (#[trigger] graph.packages[at]).id == framework
                    &&& property(graph.packages[at])
                    &&& forall|i: int|
                        0 <= i < graph.packages.len() && property(#[trigger] graph.packages[i])
                            ==> i == at
                };
            assert(other == framework);
            assert forall|k: int| 0 <= k < closure.len() implies check(
                #[trigger] closure[k],
            ) is None by {
                assert(closure.contains(closure[k]));
                assert(graph.reaches(framework, closure[k]));
            }
        }
    }
}

/// A graph holds a framework of the former layout exactly where one local package stands at the
/// framework's place in the workspace, a workspace member depends on it and none does so under
/// another alias, and every package of the family is local and reached by it.
pub proof fn lemma_former_framework_accepted(graph: GraphModel)
    requires
        graph.is_consistent(),
    ensures
        legacy_framework_defect(graph) is None <==> exists|framework: Seq<char>|
            {
                &&& #[trigger] is_only(graph.packages, framework, stands_at_framework())
                &&& uses_framework(graph, framework)
                &&& forall|i: int|
                    0 <= i < graph.packages.len() && "omnius-"@.is_prefix_of(
                        (#[trigger] graph.packages[i]).name,
                    ) ==> graph.packages[i].source is None && graph.reaches(
                        framework,
                        graph.packages[i].id,
                    )
            },
{
    let property = stands_at_framework();
    let ids = framework_ids(graph.packages, true);
    lemma_only(graph.packages, true, property);
    if ids.len() == 1 {
        let framework = ids[0];
        lemma_uses(graph, framework);
        let check = legacy_package_check(graph, framework);
        lemma_no_finding(graph.packages, check);
        assert(is_only(graph.packages, framework, property));
        let a = choose|at: int|
            {
                &&& 0 <= at < graph.packages.len()
                &&& (#[trigger] graph.packages[at]).id == framework
                &&& property(graph.packages[at])
                &&& forall|i: int|
                    0 <= i < graph.packages.len() && property(#[trigger] graph.packages[i]) ==> i
                        == at
            };
        assert forall|other: Seq<char>| #[trigger] is_only(
            graph.packages,
            other,
            property,
        ) implies other == framework by {}
        if legacy_framework_defect(graph) is None {
            assert forall|i: int|
                0 <= i < graph.packages.len() && "omnius-"@.is_prefix_of(
                    (#[trigger] graph.packages[i]).name,
                ) implies graph.packages[i].source is None && graph.reaches(
                framework,
                graph.packages[i].id,
            ) by {
                assert(check(graph.packages[i]) is None);
            }
        }
        if uses_framework(graph, framework) && forall|i: int|
            0 <= i < graph.packages.len() && "omnius-"@.is_prefix_of(
                (#[trigger] graph.packages[i]).name,
            ) ==> graph.packages[i].source is None && graph.reaches(
                framework,
                graph.packages[i].id,
            ) {
            assert forall|i: int| 0 <= i < graph.packages.len() implies check(
                #[trigger] graph.packages[i],
            ) is None by {}
        }
    }
}

} // verus!
