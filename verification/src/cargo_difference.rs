//! The difference that a framework resolution makes to a package graph.
//!
//! A resolution may change what the framework reaches, before or after; everything else has to
//! stay as it was.

use vstd::prelude::*;
use vstd::string::*;

use crate::cargo_framework::{cargo_names_equal, framework_ids, is_omnius_name, names_equal};
use crate::cargo_graph::{
    has_node, has_package, node_of, outcome, package_of, CargoDependencyKind, CargoGraph,
    CargoGraphEdge, CargoGraphError, CargoNode, CargoPackage, DependencyModel, EdgeModel,
    GraphDefect, GraphModel, KindModel, NodeModel, PackageModel, ROOT_FRAMEWORK_ALIAS,
};
use crate::findings::{
    first_finding, lemma_finding_prefix, lemma_finding_step, lemma_no_finding, or_else,
};
use crate::ordered::{
    ascending, difference, models, same_set, set_holds, sort_unique, Keyed, Sorted, TextSet,
};
use crate::text::{same_optional_text, same_text, starts_with};

verus! {

/// Two graphs and the framework in each of them; `legacy` where a local framework closure is
/// replaced by the canonical one.
pub struct ScopeModel {
    /// Graph before the resolution.
    pub before: GraphModel,
    /// Framework before the resolution.
    pub before_root: Seq<char>,
    /// Graph after the resolution.
    pub after: GraphModel,
    /// Framework after the resolution.
    pub after_root: Seq<char>,
    /// Whether a legacy layout is replaced.
    pub legacy: bool,
}

/// A dependency as it is compared across a resolution: a target that may change counts by its
/// package name, any other by its identifier.
pub struct ComparableModel {
    /// Dependency alias.
    pub name: Seq<char>,
    /// Whether the target may change.
    pub movable: bool,
    /// Package name of a target that may change, identifier of one that may not.
    pub target: Seq<char>,
    /// Contexts of the edge, in order.
    pub kinds: Seq<KindModel>,
}

/// Whether the package `id` of `graph` belongs to the Omnius family.
pub open spec fn is_omnius_package(graph: GraphModel, id: Seq<char>) -> bool {
    package_of(graph.packages, id) matches Some(package) && is_omnius_name(package.name)
}

/// The name of the package `id` of `graph`.
pub open spec fn package_name(graph: GraphModel, id: Seq<char>) -> Seq<char> {
    match package_of(graph.packages, id) {
        Some(package) => package.name,
        None => Seq::empty(),
    }
}

/// Whether `kinds` are the normal kind and the kind `other`, both for every target.
pub open spec fn normal_and(kinds: Seq<KindModel>, other: Seq<char>) -> bool {
    let normal = KindModel { kind: None, target: None };
    let second = KindModel { kind: Some(other), target: None };
    &&& kinds.contains(normal)
    &&& kinds.contains(second)
    &&& forall|i: int|
        0 <= i < kinds.len() ==> #[trigger] kinds[i] == normal || kinds[i] == second
}

/// Whether `kinds` is the build kind alone.
pub open spec fn build_only(kinds: Seq<KindModel>) -> bool {
    kinds.len() == 1 && kinds[0] == (KindModel { kind: Some("build"@), target: None })
}

/// Whether a compared dependency has the alias `toml`.
pub open spec fn is_toml(dependency: ComparableModel) -> bool {
    names_equal(dependency.name, "toml"@)
}

/// Whether `only` is the one dependency of `list` with the alias `toml`.
pub open spec fn sole_toml(list: Seq<ComparableModel>, only: ComparableModel) -> bool {
    &&& list.contains(only)
    &&& is_toml(only)
    &&& forall|i: int| 0 <= i < list.len() && is_toml(#[trigger] list[i]) ==> list[i] == only
}

/// Whether two lists hold the same dependencies.
pub open spec fn same_members(
    left: Seq<ComparableModel>,
    right: Seq<ComparableModel>,
) -> bool {
    forall|dependency: ComparableModel| #[trigger]
        left.contains(dependency) <==> right.contains(dependency)
}

/// Whether two lists hold the same dependencies apart from those with the alias `toml`.
pub open spec fn same_beside_toml(
    left: Seq<ComparableModel>,
    right: Seq<ComparableModel>,
) -> bool {
    forall|dependency: ComparableModel|
        !is_toml(dependency) ==> (#[trigger] left.contains(dependency) <==> right.contains(
            dependency,
        ))
}

/// Whether the only change is that the `toml` dependency lost its normal kind and kept its
/// build kind.
pub open spec fn toml_normal_kind_removed(
    before: Seq<ComparableModel>,
    after: Seq<ComparableModel>,
) -> bool {
    exists|old_toml: ComparableModel, new_toml: ComparableModel|
        {
            &&& #[trigger] sole_toml(before, old_toml)
            &&& #[trigger] sole_toml(after, new_toml)
            &&& old_toml.movable == new_toml.movable
            &&& old_toml.target == new_toml.target
            &&& normal_and(old_toml.kinds, "build"@)
            &&& build_only(new_toml.kinds)
            &&& same_beside_toml(before, after)
        }
}

/// The edge that `dependency` is in the node `from`.
pub open spec fn edge_of(from: Seq<char>, dependency: DependencyModel) -> EdgeModel {
    EdgeModel {
        from,
        name: dependency.name,
        to: dependency.package,
        kinds: dependency.kinds,
    }
}

/// Whether `edge` is one of the dependencies of the nodes `nodes`.
pub open spec fn has_edge(nodes: Seq<NodeModel>, edge: EdgeModel) -> bool {
    exists|i: int, j: int|
        0 <= i < nodes.len() && 0 <= j < nodes[i].dependencies.len() && edge == edge_of(
            nodes[i].id,
            #[trigger] nodes[i].dependencies[j],
        )
}

impl ScopeModel {
    /// Whether the framework reaches `id` before or after: such a package may change.
    pub open spec fn may_change(self, id: Seq<char>) -> bool {
        self.before.reaches(self.before_root, id) || self.after.reaches(self.after_root, id)
    }

    /// Whether an edge to `id` was part of the legacy framework boundary.
    pub open spec fn was_boundary(self, id: Seq<char>) -> bool {
        self.legacy && self.before.reaches(self.before_root, id) && (id == self.before_root
            || is_omnius_package(self.before, id))
    }

    /// Whether an edge to `id` is part of the canonical framework boundary.
    pub open spec fn is_boundary(self, id: Seq<char>) -> bool {
        self.legacy && id == self.after_root
    }

    /// The graph of one side.
    pub open spec fn side(self, after: bool) -> GraphModel {
        if after {
            self.after
        } else {
            self.before
        }
    }

    /// Whether an edge to `id` is left out of the comparison on one side.
    pub open spec fn left_out(self, after: bool, id: Seq<char>) -> bool {
        if after {
            self.is_boundary(id)
        } else {
            self.was_boundary(id)
        }
    }

    /// A dependency of one side as it is compared.
    pub open spec fn comparable(self, after: bool, dependency: DependencyModel) -> ComparableModel {
        ComparableModel {
            name: dependency.name,
            movable: self.may_change(dependency.package),
            target: if self.may_change(dependency.package) {
                package_name(self.side(after), dependency.package)
            } else {
                dependency.package
            },
            kinds: dependency.kinds,
        }
    }

    /// The dependencies of one side as they are compared.
    pub open spec fn comparables(self, after: bool, list: Seq<DependencyModel>) -> Seq<
        ComparableModel,
    >
        decreases list.len(),
    {
        if list.len() == 0 {
            Seq::empty()
        } else {
            let before = self.comparables(after, list.drop_last());
            if self.left_out(after, list.last().package) {
                before
            } else {
                before.push(self.comparable(after, list.last()))
            }
        }
    }

    /// Whether a node depended on the legacy framework.
    pub open spec fn was_framework_user(self, node: NodeModel) -> bool {
        exists|j: int|
            0 <= j < node.dependencies.len() && self.was_boundary(
                (#[trigger] node.dependencies[j]).package,
            )
    }

    /// Whether the dependency at `at` is the node's only edge to the canonical framework.
    pub open spec fn is_sole_replacement(self, node: NodeModel, at: int) -> bool {
        &&& 0 <= at < node.dependencies.len()
        &&& self.is_boundary(node.dependencies[at].package)
        &&& forall|j: int|
            0 <= j < node.dependencies.len() && self.is_boundary(
                (#[trigger] node.dependencies[j]).package,
            ) ==> j == at
    }

    /// Whether the edges of a node to a legacy framework were replaced by one canonical edge,
    /// and no edge was added where there was none.
    pub open spec fn boundary_kept(self, before: NodeModel, after: NodeModel) -> bool {
        if self.was_framework_user(before) {
            exists|at: int|
                {
                    &&& #[trigger] self.is_sole_replacement(after, at)
                    &&& names_equal(after.dependencies[at].name, ROOT_FRAMEWORK_ALIAS@)
                    &&& normal_and(after.dependencies[at].kinds, "dev"@)
                    &&& forall|j: int|
                        0 <= j < after.dependencies.len() ==> (
                        #[trigger] after.dependencies[j]).package == self.after_root
                            || !is_omnius_package(self.after, after.dependencies[j].package)
                }
        } else {
            forall|j: int|
                0 <= j < after.dependencies.len() ==> !self.is_boundary(
                    (#[trigger] after.dependencies[j]).package,
                )
        }
    }

    /// Whether two nodes differ at most in edges to what may change.
    pub open spec fn same_node(self, before: NodeModel, after: NodeModel) -> bool {
        let old_list = self.comparables(false, before.dependencies);
        let new_list = self.comparables(true, after.dependencies);
        &&& before.features == after.features
        &&& self.legacy ==> self.boundary_kept(before, after)
        &&& same_members(old_list, new_list) || (self.legacy && self.was_framework_user(before)
            && toml_normal_kind_removed(old_list, new_list))
    }

    /// Whether the nodes of one package, if there are any, differ at most in edges to what may
    /// change.
    pub open spec fn same_nodes(self, id: Seq<char>) -> bool {
        match (node_of(self.before.nodes, id), node_of(self.after.nodes, id)) {
            (Some(before), Some(after)) => self.same_node(before, after),
            (None, None) => true,
            _ => false,
        }
    }

    /// The check that a package that may not change has the same record and node on both sides.
    pub open spec fn package_check(self) -> spec_fn(PackageModel) -> Option<GraphDefect> {
        |package: PackageModel|
            if self.may_change(package.id) {
                None
            } else if package_of(self.before.packages, package.id) != package_of(
                self.after.packages,
                package.id,
            ) {
                Some(GraphDefect::OutOfScopePackageChange { package: package.id })
            } else if !self.same_nodes(package.id) {
                Some(GraphDefect::OutOfScopeNodeChange { package: package.id })
            } else {
                None
            }
    }

    /// Whether the workspace kept its members; in a legacy layout those beside the framework.
    pub open spec fn same_workspace(self) -> bool {
        if self.legacy {
            forall|id: Seq<char>|
                #![trigger self.before.members.contains(id)]
                #![trigger self.after.members.contains(id)]
                (self.before.members.contains(id) && !self.before.reaches(self.before_root, id))
                    <==> (self.after.members.contains(id) && !self.after.reaches(
                    self.after_root,
                    id,
                ))
        } else {
            self.before.members == self.after.members
        }
    }

    /// The first change that is out of scope.
    pub open spec fn defect(self) -> Option<GraphDefect> {
        if !has_node(self.before.nodes, self.before_root) {
            Some(GraphDefect::PackageNodeMissing { package: self.before_root })
        } else if !has_node(self.after.nodes, self.after_root) {
            Some(GraphDefect::PackageNodeMissing { package: self.after_root })
        } else if !self.same_workspace() {
            Some(
                GraphDefect::OutOfScopeWorkspaceChange {
                    before: self.before.members,
                    after: self.after.members,
                },
            )
        } else {
            or_else(
                first_finding(self.before.packages, self.package_check()),
                first_finding(self.after.packages, self.package_check()),
            )
        }
    }

    /// Whether `changes` lists exactly what the resolution added and removed.
    pub open spec fn describes(self, changes: DifferenceModel) -> bool {
        &&& self.before.is_closure(self.before_root, changes.before_closure)
        &&& self.after.is_closure(self.after_root, changes.after_closure)
        &&& ascending::<String>(changes.added_packages)
        &&& ascending::<String>(changes.removed_packages)
        &&& ascending::<CargoGraphEdge>(changes.added_edges)
        &&& ascending::<CargoGraphEdge>(changes.removed_edges)
        &&& forall|id: Seq<char>| #[trigger]
            changes.added_packages.contains(id) <==> has_package(self.after.packages, id)
                && !has_package(self.before.packages, id)
        &&& forall|id: Seq<char>| #[trigger]
            changes.removed_packages.contains(id) <==> has_package(self.before.packages, id)
                && !has_package(self.after.packages, id)
        &&& forall|edge: EdgeModel| #[trigger]
            changes.added_edges.contains(edge) <==> has_edge(self.after.nodes, edge) && !has_edge(
                self.before.nodes,
                edge,
            )
        &&& forall|edge: EdgeModel| #[trigger]
            changes.removed_edges.contains(edge) <==> has_edge(self.before.nodes, edge)
                && !has_edge(self.after.nodes, edge)
    }

    /// An accepted resolution leaves every package that the framework does not reach with its
    /// record, and with a node that differs at most in edges to what may change.
    pub proof fn lemma_outside_unchanged(self, id: Seq<char>)
        requires
            self.defect() is None,
            !self.may_change(id),
            has_package(self.before.packages, id) || has_package(self.after.packages, id),
        ensures
            package_of(self.before.packages, id) == package_of(self.after.packages, id),
            self.same_nodes(id),
    {
        let check = self.package_check();
        lemma_no_finding(self.before.packages, check);
        lemma_no_finding(self.after.packages, check);
        if has_package(self.before.packages, id) {
            let i = choose|i: int|
                0 <= i < self.before.packages.len() && #[trigger] self.before.packages[i].id == id;
            assert(check(self.before.packages[i]) is None);
        } else {
            let i = choose|i: int|
                0 <= i < self.after.packages.len() && #[trigger] self.after.packages[i].id == id;
            assert(check(self.after.packages[i]) is None);
        }
    }

    /// A resolution that changes nothing is accepted, and adds and removes nothing.
    pub proof fn lemma_no_change(self, changes: DifferenceModel)
        requires
            self.before == self.after,
            self.before_root == self.after_root,
            !self.legacy,
            has_node(self.before.nodes, self.before_root),
            self.describes(changes),
        ensures
            self.defect() is None,
            changes.added_packages.len() == 0,
            changes.removed_packages.len() == 0,
            changes.added_edges.len() == 0,
            changes.removed_edges.len() == 0,
    {
        let check = self.package_check();
        assert forall|package: PackageModel| #[trigger] check(package) is None by {
            match node_of(self.before.nodes, package.id) {
                Some(node) => {
                    self.lemma_comparables_agree(node.dependencies);
                    assert(self.same_node(node, node));
                },
                None => {},
            }
        }
        lemma_no_finding(self.before.packages, check);
        lemma_no_finding(self.after.packages, check);
        if changes.added_packages.len() > 0 {
            assert(changes.added_packages.contains(changes.added_packages[0]));
        }
        if changes.removed_packages.len() > 0 {
            assert(changes.removed_packages.contains(changes.removed_packages[0]));
        }
        if changes.added_edges.len() > 0 {
            assert(changes.added_edges.contains(changes.added_edges[0]));
        }
        if changes.removed_edges.len() > 0 {
            assert(changes.removed_edges.contains(changes.removed_edges[0]));
        }
    }

    proof fn lemma_comparables_agree(self, list: Seq<DependencyModel>)
        requires
            self.before == self.after,
            !self.legacy,
        ensures
            self.comparables(false, list) == self.comparables(true, list),
        decreases list.len(),
    {
        if list.len() > 0 {
            self.lemma_comparables_agree(list.drop_last());
        }
    }
}

/// What a resolution added and removed.
pub struct DifferenceModel {
    /// What the framework reached before.
    pub before_closure: Seq<Seq<char>>,
    /// What the framework reaches after.
    pub after_closure: Seq<Seq<char>>,
    /// Added package identifiers.
    pub added_packages: Seq<Seq<char>>,
    /// Removed package identifiers.
    pub removed_packages: Seq<Seq<char>>,
    /// Added edges.
    pub added_edges: Seq<EdgeModel>,
    /// Removed edges.
    pub removed_edges: Seq<EdgeModel>,
}

/// A deterministic graph difference whose mutable scope was validated.
#[derive(Debug, PartialEq, Eq)]
pub struct CargoGraphDifference {
    before_framework_closure: TextSet,
    after_framework_closure: TextSet,
    added_packages: TextSet,
    removed_packages: TextSet,
    added_edges: Sorted<CargoGraphEdge>,
    removed_edges: Sorted<CargoGraphEdge>,
}

impl CargoGraphDifference {
    /// The value of this difference.
    pub closed spec fn view(&self) -> DifferenceModel {
        DifferenceModel {
            before_closure: self.before_framework_closure@,
            after_closure: self.after_framework_closure@,
            added_packages: self.added_packages@,
            removed_packages: self.removed_packages@,
            added_edges: self.added_edges@,
            removed_edges: self.removed_edges@,
        }
    }

    /// Returns the current framework dependency closure.
    pub fn before_framework_closure(&self) -> (closure: &TextSet)
        ensures
            closure@ == self@.before_closure,
    {
        &self.before_framework_closure
    }

    /// Returns the candidate framework dependency closure.
    pub fn after_framework_closure(&self) -> (closure: &TextSet)
        ensures
            closure@ == self@.after_closure,
    {
        &self.after_framework_closure
    }

    /// Returns package identities added by the candidate.
    pub fn added_packages(&self) -> (packages: &TextSet)
        ensures
            packages@ == self@.added_packages,
    {
        &self.added_packages
    }

    /// Returns package identities removed by the candidate.
    pub fn removed_packages(&self) -> (packages: &TextSet)
        ensures
            packages@ == self@.removed_packages,
    {
        &self.removed_packages
    }

    /// Returns resolved edges added by the candidate.
    pub fn added_edges(&self) -> (edges: &Sorted<CargoGraphEdge>)
        ensures
            edges@ == self@.added_edges,
    {
        &self.added_edges
    }

    /// Returns resolved edges removed by the candidate.
    pub fn removed_edges(&self) -> (edges: &Sorted<CargoGraphEdge>)
        ensures
            edges@ == self@.removed_edges,
    {
        &self.removed_edges
    }
}

struct ComparableDependency {
    name: String,
    movable: bool,
    target: String,
    kinds: Sorted<CargoDependencyKind>,
}

impl ComparableDependency {
    spec fn model(&self) -> ComparableModel {
        ComparableModel {
            name: self.name@,
            movable: self.movable,
            target: self.target@,
            kinds: self.kinds@,
        }
    }

    fn same(&self, other: &Self) -> (same: bool)
        ensures
            same == (self.model() == other.model()),
    {
        self.movable == other.movable && same_text(self.name.as_str(), other.name.as_str())
            && same_text(self.target.as_str(), other.target.as_str()) && same_kinds(
            &self.kinds,
            &other.kinds,
        )
    }
}

spec fn comparable_models(list: Seq<ComparableDependency>) -> Seq<ComparableModel> {
    list.map_values(|dependency: ComparableDependency| dependency.model())
}

fn same_kinds(left: &Sorted<CargoDependencyKind>, right: &Sorted<CargoDependencyKind>) -> (same:
    bool)
    ensures
        same == (left@ == right@),
{
    if left.len() != right.len() {
        return false;
    }
    let mut index: usize = 0;
    while index < left.len()
        invariant
            index <= left@.len(),
            left@.len() == right@.len(),
            forall|i: int| 0 <= i < index ==> left@[i] == right@[i],
        decreases left@.len() - index,
    {
        let left_kind = left.at(index);
        let right_kind = right.at(index);
        if !(same_optional_text(&left_kind.kind, &right_kind.kind) && same_optional_text(
            &left_kind.target,
            &right_kind.target,
        )) {
            return false;
        }
        index += 1;
    }
    assert(left@ =~= right@);
    true
}

fn is_kind(kind: &CargoDependencyKind, name: Option<&str>) -> (same: bool)
    ensures
        same == (kind.model() == (KindModel {
            kind: match name {
                Some(text) => Some(text@),
                None => None,
            },
            target: None,
        })),
{
    if kind.target.is_some() {
        return false;
    }
    match (&kind.kind, name) {
        (Some(text), Some(name)) => same_text(text.as_str(), name),
        (None, None) => true,
        _ => false,
    }
}

fn has_normal_and(kinds: &Sorted<CargoDependencyKind>, other: &str) -> (found: bool)
    ensures
        found == normal_and(kinds@, other@),
{
    let ghost plain = KindModel { kind: None, target: None };
    let ghost extra = KindModel { kind: Some(other@), target: None };
    let mut normal = false;
    let mut second = false;
    let mut index: usize = 0;
    while index < kinds.len()
        invariant
            plain == (KindModel { kind: None, target: None }),
            extra == (KindModel { kind: Some(other@), target: None }),
            index <= kinds@.len(),
            normal == kinds@.take(index as int).contains(plain),
            second == kinds@.take(index as int).contains(extra),
            forall|i: int|
                0 <= i < index ==> #[trigger] kinds@[i] == plain || kinds@[i] == extra,
        decreases kinds@.len() - index,
    {
        let kind = kinds.at(index);
        let ghost seen = kinds@.take(index as int);
        let ghost more = kinds@.take(index + 1);
        proof {
            assert(more =~= seen.push(kind.model()));
            assert forall|value: KindModel| more.contains(value) <==> seen.contains(value) || value
                == kind.model() by {
                if seen.contains(value) {
                    let k = choose|k: int| 0 <= k < seen.len() && seen[k] == value;
                    assert(more[k] == value);
                }
                if value == kind.model() {
                    assert(more[index as int] == value);
                }
            }
        }
        if is_kind(kind, None) {
            normal = true;
        } else if is_kind(kind, Some(other)) {
            second = true;
        } else {
            assert(kinds@[index as int] != plain && kinds@[index as int] != extra);
            return false;
        }
        index += 1;
    }
    assert(kinds@.take(index as int) =~= kinds@);
    normal && second
}

fn is_build_only(kinds: &Sorted<CargoDependencyKind>) -> (found: bool)
    ensures
        found == build_only(kinds@),
{
    kinds.len() == 1 && is_kind(kinds.at(0), Some("build"))
}

fn holds_comparable(list: &Vec<ComparableDependency>, wanted: &ComparableDependency) -> (found:
    bool)
    ensures
        found == comparable_models(list@).contains(wanted.model()),
{
    let ghost all = comparable_models(list@);
    let mut index: usize = 0;
    while index < list.len()
        invariant
            all == comparable_models(list@),
            index <= list@.len(),
            forall|i: int| 0 <= i < index ==> #[trigger] all[i] != wanted.model(),
        decreases list@.len() - index,
    {
        if list[index].same(wanted) {
            assert(all[index as int] == wanted.model());
            return true;
        }
        assert(all[index as int] != wanted.model());
        index += 1;
    }
    false
}

/// Returns whether every dependency of `left` that counts is in `right`.
fn inside(
    left: &Vec<ComparableDependency>,
    right: &Vec<ComparableDependency>,
    beside_toml: bool,
) -> (result: bool)
    ensures
        result == forall|dependency: ComparableModel| #[trigger]
            comparable_models(left@).contains(dependency) && !(beside_toml && is_toml(dependency))
                ==> comparable_models(right@).contains(dependency),
{
    let ghost from = comparable_models(left@);
    let ghost to = comparable_models(right@);
    let mut index: usize = 0;
    while index < left.len()
        invariant
            from == comparable_models(left@),
            to == comparable_models(right@),
            index <= left@.len(),
            forall|i: int|
                0 <= i < index && !(beside_toml && is_toml(#[trigger] from[i])) ==> to.contains(
                    from[i],
                ),
        decreases left@.len() - index,
    {
        let dependency = &left[index];
        assert(from[index as int] == dependency.model());
        if !(beside_toml && cargo_names_equal(dependency.name.as_str(), "toml")) {
            if !holds_comparable(right, dependency) {
                assert(from.contains(dependency.model()));
                return false;
            }
        }
        index += 1;
    }
    true
}

fn find_sole_toml(list: &Vec<ComparableDependency>) -> (found: Option<usize>)
    ensures
        match found {
            Some(at) => at < list@.len() && sole_toml(
                comparable_models(list@),
                list@[at as int].model(),
            ),
            None => forall|only: ComparableModel| !sole_toml(comparable_models(list@), only),
        },
{
    let ghost all = comparable_models(list@);
    let mut found: Option<usize> = None;
    let mut index: usize = 0;
    while index < list.len()
        invariant
            all == comparable_models(list@),
            index <= list@.len(),
            match found {
                Some(at) => at < index && is_toml(all[at as int]) && forall|i: int|
                    0 <= i < index && is_toml(#[trigger] all[i]) ==> all[i] == all[at as int],
                None => forall|i: int| 0 <= i < index ==> !is_toml(#[trigger] all[i]),
            },
        decreases list@.len() - index,
    {
        assert(all[index as int] == list@[index as int].model());
        if cargo_names_equal(list[index].name.as_str(), "toml") {
            match found {
                None => {
                    found = Some(index);
                },
                Some(at) => {
                    if !list[at].same(&list[index]) {
                        proof {
                            assert(all[at as int] == list@[at as int].model());
                            assert forall|only: ComparableModel| !sole_toml(all, only) by {
                                if sole_toml(all, only) {
                                    assert(all[at as int] == only);
                                    assert(all[index as int] == only);
                                }
                            }
                        }
                        return None;
                    }
                    assert(all[at as int] == list@[at as int].model());
                },
            }
        }
        index += 1;
    }
    proof {
        match found {
            Some(at) => {
                assert(all[at as int] == list@[at as int].model());
                assert(all.contains(all[at as int]));
            },
            None => {
                assert forall|only: ComparableModel| !sole_toml(all, only) by {
                    if sole_toml(all, only) {
                        let k = choose|k: int| 0 <= k < all.len() && all[k] == only;
                        assert(!is_toml(all[k]));
                    }
                }
            },
        }
    }
    found
}

/// Returns whether the only change is that the `toml` dependency lost its normal kind.
fn legacy_toml_normal_kind_removed(
    before: &Vec<ComparableDependency>,
    after: &Vec<ComparableDependency>,
) -> (removed: bool)
    ensures
        removed == toml_normal_kind_removed(
            comparable_models(before@),
            comparable_models(after@),
        ),
{
    let ghost old_list = comparable_models(before@);
    let ghost new_list = comparable_models(after@);
    let old_at = match find_sole_toml(before) {
        Some(at) => at,
        None => {
            return false;
        },
    };
    let new_at = match find_sole_toml(after) {
        Some(at) => at,
        None => {
            return false;
        },
    };
    let old_toml = &before[old_at];
    let new_toml = &after[new_at];
    let same_target = old_toml.movable == new_toml.movable && same_text(
        old_toml.target.as_str(),
        new_toml.target.as_str(),
    );
    let kinds_changed = has_normal_and(&old_toml.kinds, "build") && is_build_only(&new_toml.kinds);
    let rest_same = inside(before, after, true) && inside(after, before, true);
    proof {
        assert(rest_same == same_beside_toml(old_list, new_list)) by {
            if rest_same {
                assert forall|dependency: ComparableModel| !is_toml(dependency) implies (
                #[trigger] old_list.contains(dependency) <==> new_list.contains(dependency)) by {}
            }
            if same_beside_toml(old_list, new_list) {
                assert forall|dependency: ComparableModel| #[trigger]
                    new_list.contains(dependency) && !is_toml(
                        dependency,
                    ) implies old_list.contains(dependency) by {
                    assert(old_list.contains(dependency) <==> new_list.contains(dependency));
                }
            }
        }
        if toml_normal_kind_removed(old_list, new_list) {
            let (o, n) = choose|o: ComparableModel, n: ComparableModel|
                {
                    &&& #[trigger] sole_toml(old_list, o)
                    &&& #[trigger] sole_toml(new_list, n)
                    &&& o.movable == n.movable
                    &&& o.target == n.target
                    &&& normal_and(o.kinds, "build"@)
                    &&& build_only(n.kinds)
                    &&& same_beside_toml(old_list, new_list)
                };
            assert(old_list[old_at as int] == old_toml.model());
            assert(new_list[new_at as int] == new_toml.model());
            assert(o == old_toml.model());
            assert(n == new_toml.model());
        }
    }
    same_target && kinds_changed && rest_same
}

struct Scope<'a> {
    before: &'a CargoGraph,
    after: &'a CargoGraph,
    before_root: &'a str,
    after_root: &'a str,
    before_closure: TextSet,
    after_closure: TextSet,
    legacy: bool,
}

impl<'a> Scope<'a> {
    spec fn view(&self) -> ScopeModel {
        ScopeModel {
            before: self.before@,
            before_root: self.before_root@,
            after: self.after@,
            after_root: self.after_root@,
            legacy: self.legacy,
        }
    }

    spec fn wf(&self) -> bool {
        &&& self.before@.is_closure(self.before_root@, self.before_closure@)
        &&& self.after@.is_closure(self.after_root@, self.after_closure@)
    }

    fn may_change(&self, id: &str) -> (result: bool)
        requires
            self.wf(),
        ensures
            result == self@.may_change(id@),
    {
        set_holds(&self.before_closure, id) || set_holds(&self.after_closure, id)
    }

    fn left_out(&self, after: bool, id: &str) -> (result: bool)
        requires
            self.wf(),
        ensures
            result == self@.left_out(after, id@),
    {
        if !self.legacy {
            false
        } else if after {
            same_text(id, self.after_root)
        } else {
            set_holds(&self.before_closure, id) && (same_text(id, self.before_root) || is_omnius(
                self.before,
                id,
            ))
        }
    }

    /// Lists the dependencies of one side's node as they are compared.
    fn comparable_dependencies(&self, after: bool, node: &CargoNode) -> (list: Vec<
        ComparableDependency,
    >)
        requires
            self.wf(),
        ensures
            comparable_models(list@) == self@.comparables(after, node.model().dependencies),
    {
        let ghost all = node.model().dependencies;
        let mut list: Vec<ComparableDependency> = Vec::new();
        let mut index: usize = 0;
        assert(comparable_models(list@) =~= self@.comparables(after, all.take(0)));
        while index < node.dependencies.len()
            invariant
                self.wf(),
                all == node.dependencies@,
                index <= all.len(),
                comparable_models(list@) == self@.comparables(after, all.take(index as int)),
            decreases all.len() - index,
        {
            let dependency = node.dependencies.at(index);
            assert(all.take(index + 1).drop_last() =~= all.take(index as int));
            assert(all.take(index + 1).last() == dependency.model());
            if !self.left_out(after, dependency.package.as_str()) {
                let movable = self.may_change(dependency.package.as_str());
                let target = if movable {
                    let graph = if after {
                        self.after
                    } else {
                        self.before
                    };
                    match graph.package(dependency.package.as_str()) {
                        Some(package) => package.name.clone(),
                        None => String::new(),
                    }
                } else {
                    dependency.package.clone()
                };
                let ghost before_push = comparable_models(list@);
                let item = ComparableDependency {
                    name: dependency.name.clone(),
                    movable,
                    target,
                    kinds: dependency.kinds.duplicate(),
                };
                let ghost value = item.model();
                list.push(item);
                assert(comparable_models(list@) =~= before_push.push(value));
                assert(value == self@.comparable(after, dependency.model()));
            }
            index += 1;
        }
        assert(all.take(index as int) =~= all);
        list
    }

    /// Returns whether a node's edges to a legacy framework were replaced by one canonical edge.
    fn boundary_kept(&self, before: &CargoNode, after: &CargoNode, was_user: bool) -> (kept: bool)
        requires
            self.wf(),
            self.legacy,
            was_user == self@.was_framework_user(before.model()),
        ensures
            kept == self@.boundary_kept(before.model(), after.model()),
    {
        let ghost scope = self@;
        let ghost node = after.model();
        let ghost list = node.dependencies;
        let mut replacement: Option<usize> = None;
        let mut foreign = false;
        let mut index: usize = 0;
        while index < after.dependencies.len()
            invariant
                self.wf(),
                self.legacy,
                scope == self@,
                node == after.model(),
                list == node.dependencies,
                list == after.dependencies@,
                index <= list.len(),
                match replacement {
                    Some(at) => at < index && scope.is_boundary(list[at as int].package)
                        && forall|j: int|
                        0 <= j < index && scope.is_boundary((#[trigger] list[j]).package) ==> j
                            == at,
                    None => forall|j: int|
                        0 <= j < index ==> !scope.is_boundary((#[trigger] list[j]).package),
                },
                foreign == exists|j: int|
                    0 <= j < index && (#[trigger] list[j]).package != scope.after_root
                        && is_omnius_package(scope.after, list[j].package),
            decreases list.len() - index,
        {
            let dependency = after.dependencies.at(index);
            assert(list[index as int] == dependency.model());
            if same_text(dependency.package.as_str(), self.after_root) {
                match replacement {
                    Some(at) => {
                        proof {
                            assert(scope.is_boundary(list[at as int].package));
                            assert(scope.is_boundary(list[index as int].package));
                            assert forall|k: int| !scope.is_sole_replacement(node, k) by {
                                if scope.is_sole_replacement(node, k) {
                                    assert(scope.is_boundary(node.dependencies[at as int].package));
                                    assert(scope.is_boundary(
                                        node.dependencies[index as int].package,
                                    ));
                                }
                            }
                            assert(scope.is_boundary(node.dependencies[index as int].package));
                        }
                        return false;
                    },
                    None => {
                        replacement = Some(index);
                    },
                }
            } else if is_omnius(self.after, dependency.package.as_str()) {
                foreign = true;
            }
            index += 1;
        }
        match replacement {
            Some(at) => {
                let dependency = after.dependencies.at(at);
                let kept = was_user && cargo_names_equal(
                    dependency.name.as_str(),
                    ROOT_FRAMEWORK_ALIAS,
                ) && has_normal_and(&dependency.kinds, "dev") && !foreign;
                proof {
                    assert(scope.is_sole_replacement(node, at as int));
                    assert(node.dependencies[at as int] == dependency.model());
                    assert(scope.is_boundary(node.dependencies[at as int].package));
                    assert forall|k: int| scope.is_sole_replacement(node, k) implies k == at by {
                        assert(scope.is_boundary(node.dependencies[at as int].package));
                    }
                }
                kept
            },
            None => {
                proof {
                    assert forall|k: int| !scope.is_sole_replacement(node, k) by {}
                }
                !was_user
            },
        }
    }

    fn was_framework_user(&self, node: &CargoNode) -> (found: bool)
        requires
            self.wf(),
        ensures
            found == self@.was_framework_user(node.model()),
    {
        let ghost list = node.model().dependencies;
        let mut index: usize = 0;
        while index < node.dependencies.len()
            invariant
                self.wf(),
                list == node.dependencies@,
                index <= list.len(),
                forall|j: int|
                    0 <= j < index ==> !self@.was_boundary((#[trigger] list[j]).package),
            decreases list.len() - index,
        {
            let dependency = node.dependencies.at(index);
            if self.left_out(false, dependency.package.as_str()) {
                assert(self@.was_boundary(node.model().dependencies[index as int].package));
                return true;
            }
            index += 1;
        }
        false
    }

    /// Returns whether two nodes differ at most in edges to what may change.
    fn same_node(&self, before: &CargoNode, after: &CargoNode) -> (same: bool)
        requires
            self.wf(),
        ensures
            same == self@.same_node(before.model(), after.model()),
    {
        if !same_set(&before.features, &after.features) {
            return false;
        }
        let was_user = self.was_framework_user(before);
        if self.legacy && !self.boundary_kept(before, after, was_user) {
            return false;
        }
        let old_list = self.comparable_dependencies(false, before);
        let new_list = self.comparable_dependencies(true, after);
        let same = inside(&old_list, &new_list, false) && inside(&new_list, &old_list, false);
        assert(same == same_members(comparable_models(old_list@), comparable_models(new_list@)));
        same || (self.legacy && was_user && legacy_toml_normal_kind_removed(&old_list, &new_list))
    }

    /// Returns whether the nodes of `id` differ at most in edges to what may change.
    fn nodes_equal_outside_mutable_closures(&self, id: &str) -> (same: bool)
        requires
            self.wf(),
        ensures
            same == self@.same_nodes(id@),
    {
        match (self.before.node(id), self.after.node(id)) {
            (Some(before), Some(after)) => self.same_node(before, after),
            (None, None) => true,
            _ => false,
        }
    }

    fn check_package(&self, package: &CargoPackage) -> (result: Result<(), CargoGraphError>)
        requires
            self.wf(),
        ensures
            outcome(result) == self@.package_check()(package.model()),
    {
        let id = package.id.as_str();
        if self.may_change(id) {
            return Ok(());
        }
        let same_record = match (self.before.package(id), self.after.package(id)) {
            (Some(before), Some(after)) => same_package(before, after),
            (None, None) => true,
            _ => false,
        };
        if !same_record {
            return Err(CargoGraphError::OutOfScopePackageChange { package: package.id.clone() });
        }
        if !self.nodes_equal_outside_mutable_closures(id) {
            return Err(CargoGraphError::OutOfScopeNodeChange { package: package.id.clone() });
        }
        Ok(())
    }

    fn check_packages(&self, packages: &Sorted<CargoPackage>) -> (result: Result<
        (),
        CargoGraphError,
    >)
        requires
            self.wf(),
        ensures
            outcome(result) == first_finding(packages@, self@.package_check()),
    {
        let ghost check = self@.package_check();
        let mut index: usize = 0;
        while index < packages.len()
            invariant
                self.wf(),
                check == self@.package_check(),
                index <= packages@.len(),
                first_finding(packages@.take(index as int), check) is None,
            decreases packages@.len() - index,
        {
            proof {
                lemma_finding_step(packages@, index as int, check);
            }
            match self.check_package(packages.at(index)) {
                Ok(()) => {},
                Err(error) => {
                    proof {
                        lemma_finding_prefix(packages@, index + 1, check);
                    }
                    return Err(error);
                },
            }
            index += 1;
        }
        assert(packages@.take(index as int) =~= packages@);
        Ok(())
    }

    fn workspace_unchanged(&self) -> (same: bool)
        requires
            self.wf(),
        ensures
            same == self@.same_workspace(),
    {
        let before_members = self.before.workspace_members();
        let after_members = self.after.workspace_members();
        if !self.legacy {
            return same_set(before_members, after_members);
        }
        let before_rest = difference(before_members, &self.before_closure);
        let after_rest = difference(after_members, &self.after_closure);
        let same = same_set(&before_rest, &after_rest);
        proof {
            let scope = self@;
            if same {
                assert forall|id: Seq<char>|
                    #![trigger scope.before.members.contains(id)]
                    #![trigger scope.after.members.contains(id)]
                    (scope.before.members.contains(id) && !scope.before.reaches(
                        scope.before_root,
                        id,
                    )) <==> (scope.after.members.contains(id) && !scope.after.reaches(
                        scope.after_root,
                        id,
                    )) by {
                    assert(before_rest@.contains(id) <==> before_members@.contains(id)
                        && !self.before_closure@.contains(id));
                    assert(after_rest@.contains(id) <==> after_members@.contains(id)
                        && !self.after_closure@.contains(id));
                }
            } else {
                if scope.same_workspace() {
                    assert forall|id: Seq<char>| before_rest@.contains(id)
                        <==> after_rest@.contains(id) by {
                        assert(before_rest@.contains(id) <==> before_members@.contains(id)
                            && !self.before_closure@.contains(id));
                        assert(after_rest@.contains(id) <==> after_members@.contains(id)
                            && !self.after_closure@.contains(id));
                        assert((scope.before.members.contains(id) && !scope.before.reaches(
                            scope.before_root,
                            id,
                        )) <==> (scope.after.members.contains(id) && !scope.after.reaches(
                            scope.after_root,
                            id,
                        )));
                        assert(self.before_closure@.contains(id) <==> scope.before.reaches(
                            scope.before_root,
                            id,
                        ));
                        assert(self.after_closure@.contains(id) <==> scope.after.reaches(
                            scope.after_root,
                            id,
                        ));
                    }
                    crate::ordered::lemma_ascending_extensional::<String>(
                        before_rest@,
                        after_rest@,
                    );
                }
            }
        }
        same
    }
}

fn is_omnius(graph: &CargoGraph, id: &str) -> (result: bool)
    ensures
        result == is_omnius_package(graph@, id@),
{
    match graph.package(id) {
        Some(package) => starts_with(package.name.as_str(), "omnius-"),
        None => false,
    }
}

fn same_package(left: &CargoPackage, right: &CargoPackage) -> (same: bool)
    ensures
        same == (left.model() == right.model()),
{
    same_text(left.id.as_str(), right.id.as_str()) && same_text(
        left.name.as_str(),
        right.name.as_str(),
    ) && same_text(left.version.as_str(), right.version.as_str()) && same_optional_text(
        &left.source,
        &right.source,
    )
}

fn package_ids(graph: &CargoGraph) -> (ids: TextSet)
    ensures
        ascending::<String>(ids@),
        forall|id: Seq<char>| #[trigger] ids@.contains(id) <==> has_package(graph@.packages, id),
{
    let packages = graph.packages();
    let ghost all = packages@;
    let mut list: Vec<String> = Vec::new();
    let mut index: usize = 0;
    while index < packages.len()
        invariant
            all == packages@,
            index <= all.len(),
            list@.len() == index,
            forall|i: int| 0 <= i < index ==> (#[trigger] list@[i])@ == all[i].id,
        decreases all.len() - index,
    {
        list.push(packages.at(index).id.clone());
        index += 1;
    }
    let ghost values = models(list@);
    let ids = sort_unique(list);
    proof {
        assert forall|id: Seq<char>| #[trigger] ids@.contains(id) <==> has_package(
            graph@.packages,
            id,
        ) by {
            assert(ids@.contains(id) <==> values.contains(id));
            if values.contains(id) {
                let k = choose|k: int| 0 <= k < values.len() && values[k] == id;
                assert(values[k] == list@[k]@);
                assert(all[k].id == id);
            }
            if has_package(all, id) {
                let k = choose|k: int| 0 <= k < all.len() && #[trigger] all[k].id == id;
                assert(list@[k]@ == id);
                assert(values[k] == id);
            }
        }
    }
    ids
}

fn graph_edges(graph: &CargoGraph) -> (edges: Sorted<CargoGraphEdge>)
    ensures
        ascending::<CargoGraphEdge>(edges@),
        forall|edge: EdgeModel| #[trigger] edges@.contains(edge) <==> has_edge(graph@.nodes, edge),
{
    let nodes = graph.nodes();
    let ghost all = nodes@;
    let mut list: Vec<CargoGraphEdge> = Vec::new();
    let mut index: usize = 0;
    while index < nodes.len()
        invariant
            all == nodes@,
            index <= all.len(),
            forall|k: int|
                0 <= k < list@.len() ==> has_edge(all, (#[trigger] list@[k]).model()),
            forall|i: int, j: int|
                0 <= i < index && 0 <= j < all[i].dependencies.len() ==> models(list@).contains(
                    edge_of(all[i].id, #[trigger] all[i].dependencies[j]),
                ),
        decreases all.len() - index,
    {
        let node = nodes.at(index);
        let mut at: usize = 0;
        while at < node.dependencies.len()
            invariant
                all == nodes@,
                index < all.len(),
                node.model() == all[index as int],
                at <= node.dependencies@.len(),
                forall|k: int|
                    0 <= k < list@.len() ==> has_edge(all, (#[trigger] list@[k]).model()),
                forall|i: int, j: int|
                    0 <= i < index && 0 <= j < all[i].dependencies.len() ==> models(
                        list@,
                    ).contains(edge_of(all[i].id, #[trigger] all[i].dependencies[j])),
                forall|j: int|
                    0 <= j < at ==> models(list@).contains(
                        edge_of(all[index as int].id, #[trigger] all[index as int].dependencies[j]),
                    ),
            decreases node.dependencies@.len() - at,
        {
            let dependency = node.dependencies.at(at);
            let ghost before = models(list@);
            let edge = CargoGraphEdge {
                from: node.id.clone(),
                name: dependency.name.clone(),
                to: dependency.package.clone(),
                kinds: dependency.kinds.duplicate(),
            };
            let ghost value = edge.model();
            proof {
                assert(all[index as int].dependencies[at as int] == dependency.model());
                assert(value == edge_of(
                    all[index as int].id,
                    all[index as int].dependencies[at as int],
                ));
                assert(has_edge(all, value));
            }
            list.push(edge);
            proof {
                let after = models(list@);
                assert(after =~= before.push(value));
                assert(after[before.len() as int] == value);
                assert forall|other: EdgeModel| before.contains(other) implies after.contains(
                    other,
                ) by {
                    let k = choose|k: int| 0 <= k < before.len() && before[k] == other;
                    assert(after[k] == other);
                }
            }
            at += 1;
        }
        index += 1;
    }
    let ghost values = models(list@);
    let edges = sort_unique(list);
    proof {
        assert forall|edge: EdgeModel| #[trigger] edges@.contains(edge) <==> has_edge(
            graph@.nodes,
            edge,
        ) by {
            assert(edges@.contains(edge) <==> values.contains(edge));
            if values.contains(edge) {
                let k = choose|k: int| 0 <= k < values.len() && values[k] == edge;
                assert(values[k] == list@[k].model());
            }
            if has_edge(all, edge) {
                let (i, j) = choose|i: int, j: int|
                    0 <= i < all.len() && 0 <= j < all[i].dependencies.len() && edge == edge_of(
                        all[i].id,
                        #[trigger] all[i].dependencies[j],
                    );
                assert(values.contains(edge_of(all[i].id, all[i].dependencies[j])));
            }
        }
    }
    edges
}

impl CargoGraph {
    /// Compares two graphs and rejects changes outside their framework closures.
    pub fn bounded_framework_difference(&self, after: &Self) -> (result: Result<
        CargoGraphDifference,
        CargoGraphError,
    >)
        ensures
            ({
                let before_ids = framework_ids(self@.packages, false);
                let after_ids = framework_ids(after@.packages, false);
                let scope = ScopeModel {
                    before: self@,
                    before_root: before_ids[0],
                    after: after@,
                    after_root: after_ids[0],
                    legacy: false,
                };
                if before_ids.len() != 1 {
                    outcome(result) == Some(
                        GraphDefect::FrameworkPackageCount { actual: before_ids },
                    )
                } else if after_ids.len() != 1 {
                    outcome(result) == Some(
                        GraphDefect::FrameworkPackageCount { actual: after_ids },
                    )
                } else {
                    outcome(result) == scope.defect() && (result matches Ok(changes)
                        ==> scope.describes(changes@))
                }
            }),
    {
        let before_framework = match self.unique_framework_id() {
            Ok(id) => id,
            Err(error) => {
                return Err(error);
            },
        };
        let after_framework = match after.unique_framework_id() {
            Ok(id) => id,
            Err(error) => {
                return Err(error);
            },
        };
        self.bounded_difference_from_roots(
            after,
            before_framework.as_str(),
            after_framework.as_str(),
            false,
        )
    }

    /// Compares two graphs from the given framework packages and rejects changes outside what
    /// these reach; a legacy workspace may lose the framework's own members.
    pub fn bounded_difference_from_roots(
        &self,
        after: &Self,
        before_framework: &str,
        after_framework: &str,
        allow_framework_workspace_removal: bool,
    ) -> (result: Result<CargoGraphDifference, CargoGraphError>)
        ensures
            ({
                let scope = ScopeModel {
                    before: self@,
                    before_root: before_framework@,
                    after: after@,
                    after_root: after_framework@,
                    legacy: allow_framework_workspace_removal,
                };
                outcome(result) == scope.defect() && (result matches Ok(changes)
                    ==> scope.describes(changes@))
            }),
    {
        let before_closure = match self.dependency_closure(before_framework) {
            Ok(closure) => closure,
            Err(error) => {
                return Err(error);
            },
        };
        let after_closure = match after.dependency_closure(after_framework) {
            Ok(closure) => closure,
            Err(error) => {
                return Err(error);
            },
        };
        let scope = Scope {
            before: self,
            after,
            before_root: before_framework,
            after_root: after_framework,
            before_closure,
            after_closure,
            legacy: allow_framework_workspace_removal,
        };
        if !scope.workspace_unchanged() {
            return Err(
                CargoGraphError::OutOfScopeWorkspaceChange {
                    before: self.workspace_members().duplicate(),
                    after: after.workspace_members().duplicate(),
                },
            );
        }
        match scope.check_packages(self.packages()) {
            Ok(()) => {},
            Err(error) => {
                return Err(error);
            },
        }
        match scope.check_packages(after.packages()) {
            Ok(()) => {},
            Err(error) => {
                return Err(error);
            },
        }
        let before_packages = package_ids(self);
        let after_packages = package_ids(after);
        let before_edges = graph_edges(self);
        let after_edges = graph_edges(after);
        Ok(
            CargoGraphDifference {
                before_framework_closure: scope.before_closure,
                after_framework_closure: scope.after_closure,
                added_packages: difference(&after_packages, &before_packages),
                removed_packages: difference(&before_packages, &after_packages),
                added_edges: difference(&after_edges, &before_edges),
                removed_edges: difference(&before_edges, &after_edges),
            },
        )
    }
}

} // verus!
