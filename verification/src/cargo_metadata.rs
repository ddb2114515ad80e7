//! Projection of Cargo metadata onto a package graph.
//!
//! Local packages get identifiers that name their manifest relative to the workspace root, so
//! that graphs of two copies of one project can be compared.

use vstd::prelude::*;
use vstd::string::*;

use crate::cargo_graph::{
    outcome, CargoDependency, CargoDependencyKind, CargoGraph, CargoGraphError, CargoNode,
    CargoPackage, DependencyModel, GraphDefect, GraphModel, KindModel, NodeModel, PackageModel,
};
use crate::findings::or_else;
use crate::ordered::{
    codes, holds_key, is_sorted_listing, lemma_codes_injective, lemma_sorted_listing, models,
    set_add, sort_unique, sorted_listing, Keyed, Sorted, TextSet,
};
use crate::text::{
    chars_of, clone_optional_text, join6, join_texts, joined, optional_view, same_text, split_on,
    split_text, texts,
};

verus! {

/// One package of a metadata document.
#[derive(Debug, PartialEq, Eq)]
pub struct RawPackage {
    /// Cargo's package identifier.
    pub id: String,
    /// Package name.
    pub name: String,
    /// Package version.
    pub version: String,
    /// Source identifier, absent for a local package.
    pub source: Option<String>,
    /// Path of the package manifest.
    pub manifest_path: Option<String>,
}

/// One dependency kind of a metadata document.
#[derive(Debug, PartialEq, Eq)]
pub struct RawDependencyKind {
    /// Dependency kind, absent for the normal one.
    pub kind: Option<String>,
    /// Target-platform expression.
    pub target: Option<String>,
}

/// One resolved dependency of a metadata document.
#[derive(Debug, PartialEq, Eq)]
pub struct RawDependency {
    /// Dependency alias.
    pub name: String,
    /// Cargo's identifier of the target package.
    pub pkg: String,
    /// Contexts of the edge.
    pub dep_kinds: Vec<RawDependencyKind>,
}

/// One resolve node of a metadata document.
#[derive(Debug, PartialEq, Eq)]
pub struct RawNode {
    /// Cargo's package identifier.
    pub id: String,
    /// Resolved dependencies.
    pub deps: Vec<RawDependency>,
    /// Enabled features.
    pub features: Vec<String>,
}

/// The resolve graph of a metadata document.
#[derive(Debug, PartialEq, Eq)]
pub struct RawResolve {
    /// Resolve nodes.
    pub nodes: Vec<RawNode>,
}

/// A metadata document of format version 1.
#[derive(Debug, PartialEq, Eq)]
pub struct RawMetadata {
    /// Packages.
    pub packages: Vec<RawPackage>,
    /// Resolve graph.
    pub resolve: Option<RawResolve>,
    /// Cargo's identifiers of the workspace members.
    pub workspace_members: Vec<String>,
    /// Path of the workspace root.
    pub workspace_root: Option<String>,
}

/// The components that one piece of a path, at place `at` between slashes, gives.
pub open spec fn piece_components(piece: Seq<char>, at: int) -> Seq<Seq<char>> {
    if piece.len() == 0 || (piece == "."@ && at > 0) {
        Seq::empty()
    } else {
        seq![piece]
    }
}

/// The components of the first `count` pieces of a path.
pub open spec fn pieces_components(pieces: Seq<Seq<char>>, count: int) -> Seq<Seq<char>>
    decreases count,
{
    if count <= 0 {
        Seq::empty()
    } else {
        pieces_components(pieces, count - 1) + piece_components(pieces[count - 1], count - 1)
    }
}

/// The components of a path: a slash for its root, then its names. Repeated slashes and inner
/// `.` components count nothing.
pub open spec fn components(path: Seq<char>) -> Seq<Seq<char>> {
    let pieces = split_on(path, '/');
    let names = pieces_components(pieces, pieces.len() as int);
    if path.len() > 0 && path[0] == '/' {
        seq!["/"@] + names
    } else {
        names
    }
}

/// The length of the common beginning of two lists of components, from place `at` on.
pub open spec fn common_from(left: Seq<Seq<char>>, right: Seq<Seq<char>>, at: int) -> int
    decreases left.len() - at,
{
    if 0 <= at < left.len() && at < right.len() && left[at] == right[at] {
        common_from(left, right, at + 1)
    } else {
        at
    }
}

/// The steps that lead up out of the components `base[from..to]`; absent where one of them
/// cannot be left.
pub open spec fn climb(base: Seq<Seq<char>>, from: int, to: int) -> Option<Seq<Seq<char>>>
    decreases to - from,
{
    if to <= from {
        Some(Seq::empty())
    } else {
        match climb(base, from, to - 1) {
            None => None,
            Some(steps) => if base[to - 1] == "/"@ || base[to - 1] == ".."@ {
                None
            } else if base[to - 1] == "."@ {
                Some(steps)
            } else {
                Some(steps.push(".."@))
            },
        }
    }
}

/// The lexical path that leads from `base` to `target`.
pub open spec fn relative_path(base: Seq<char>, target: Seq<char>) -> Option<Seq<char>> {
    let from = components(base);
    let to = components(target);
    let common = common_from(from, to, 0);
    match climb(from, common, from.len() as int) {
        None => None,
        Some(steps) => if to.skip(common).contains("/"@) {
            None
        } else {
            Some(joined(steps + to.skip(common), "/"@))
        },
    }
}

/// `text` with every backslash turned into a slash.
pub open spec fn with_slashes(text: Seq<char>) -> Seq<char> {
    text.map_values(
        |character: char|
            if character == '\\' {
                '/'
            } else {
                character
            },
    )
}

/// The stable identifier of a package: local packages are named by their manifest's place
/// relative to the workspace root.
pub open spec fn stable_id(package: RawPackage, root: Option<Seq<char>>) -> Seq<char> {
    if package.source is None && root is Some && package.manifest_path is Some && relative_path(
        root->Some_0,
        package.manifest_path->Some_0@,
    ) is Some {
        "workspace+"@ + with_slashes(
            relative_path(root->Some_0, package.manifest_path->Some_0@)->Some_0,
        ) + "#"@ + package.name@ + "@"@ + package.version@
    } else {
        package.id@
    }
}

/// Whether a package with Cargo's identifier `id` is among the first `count` packages.
pub open spec fn raw_id_before(packages: Seq<RawPackage>, id: Seq<char>, count: int) -> bool {
    exists|j: int| 0 <= j < count && (#[trigger] packages[j]).id@ == id
}

/// Whether a package with the stable identifier `id` is among the first `count` packages.
pub open spec fn stable_id_before(
    packages: Seq<RawPackage>,
    root: Option<Seq<char>>,
    id: Seq<char>,
    count: int,
) -> bool {
    exists|j: int| 0 <= j < count && stable_id(#[trigger] packages[j], root) == id
}

/// The first repeated identifier among the first `count` packages.
pub open spec fn repeated_package(
    packages: Seq<RawPackage>,
    root: Option<Seq<char>>,
    count: int,
) -> Option<GraphDefect>
    decreases count,
{
    if count <= 0 {
        None
    } else {
        let at = count - 1;
        or_else(
            repeated_package(packages, root, at),
            if raw_id_before(packages, packages[at].id@, at) {
                Some(GraphDefect::DuplicatePackageId { package: packages[at].id@ })
            } else if stable_id_before(packages, root, stable_id(packages[at], root), at) {
                Some(GraphDefect::DuplicatePackageId { package: stable_id(packages[at], root) })
            } else {
                None
            },
        )
    }
}

/// The stable identifier of the package that Cargo names `id`; an unknown name stays.
pub open spec fn translated(
    packages: Seq<RawPackage>,
    root: Option<Seq<char>>,
    id: Seq<char>,
) -> Seq<char> {
    if raw_id_before(packages, id, packages.len() as int) {
        let at = choose|j: int| 0 <= j < packages.len() && (#[trigger] packages[j]).id@ == id;
        stable_id(packages[at], root)
    } else {
        id
    }
}

/// Whether a node with the stable identifier `id` is among the first `count` nodes.
pub open spec fn node_id_before(
    packages: Seq<RawPackage>,
    root: Option<Seq<char>>,
    nodes: Seq<RawNode>,
    id: Seq<char>,
    count: int,
) -> bool {
    exists|j: int| 0 <= j < count && translated(packages, root, (#[trigger] nodes[j]).id@) == id
}

/// The first repeated identifier among the first `count` nodes.
pub open spec fn repeated_node(
    packages: Seq<RawPackage>,
    root: Option<Seq<char>>,
    nodes: Seq<RawNode>,
    count: int,
) -> Option<GraphDefect>
    decreases count,
{
    if count <= 0 {
        None
    } else {
        let at = count - 1;
        let id = translated(packages, root, nodes[at].id@);
        or_else(
            repeated_node(packages, root, nodes, at),
            if node_id_before(packages, root, nodes, id, at) {
                Some(GraphDefect::DuplicateNodeId { package: id })
            } else {
                None
            },
        )
    }
}

/// The record of a package.
pub open spec fn package_record(package: RawPackage, root: Option<Seq<char>>) -> PackageModel {
    PackageModel {
        id: stable_id(package, root),
        name: package.name@,
        version: package.version@,
        source: optional_view(package.source),
    }
}

/// The records of packages.
pub open spec fn package_records(packages: Seq<RawPackage>, root: Option<Seq<char>>) -> Seq<
    PackageModel,
> {
    packages.map_values(|package: RawPackage| package_record(package, root))
}

/// The kinds of a dependency.
pub open spec fn kind_values(kinds: Seq<RawDependencyKind>) -> Seq<KindModel> {
    kinds.map_values(
        |kind: RawDependencyKind|
            KindModel { kind: optional_view(kind.kind), target: optional_view(kind.target) },
    )
}

/// The edge of a dependency.
pub open spec fn dependency_value(
    packages: Seq<RawPackage>,
    root: Option<Seq<char>>,
    dependency: RawDependency,
) -> DependencyModel {
    DependencyModel {
        name: dependency.name@,
        package: translated(packages, root, dependency.pkg@),
        kinds: sorted_listing::<CargoDependencyKind>(kind_values(dependency.dep_kinds@)),
    }
}

/// The edges of dependencies.
pub open spec fn dependency_values(
    packages: Seq<RawPackage>,
    root: Option<Seq<char>>,
    dependencies: Seq<RawDependency>,
) -> Seq<DependencyModel> {
    dependencies.map_values(
        |dependency: RawDependency| dependency_value(packages, root, dependency),
    )
}

/// The node of a resolve entry.
pub open spec fn node_value(
    packages: Seq<RawPackage>,
    root: Option<Seq<char>>,
    node: RawNode,
) -> NodeModel {
    NodeModel {
        id: translated(packages, root, node.id@),
        dependencies: sorted_listing::<CargoDependency>(
            dependency_values(packages, root, node.deps@),
        ),
        features: sorted_listing::<String>(texts(node.features@)),
    }
}

/// The nodes of resolve entries.
pub open spec fn node_values(
    packages: Seq<RawPackage>,
    root: Option<Seq<char>>,
    nodes: Seq<RawNode>,
) -> Seq<NodeModel> {
    nodes.map_values(|node: RawNode| node_value(packages, root, node))
}

/// The stable identifiers of workspace members.
pub open spec fn member_values(
    packages: Seq<RawPackage>,
    root: Option<Seq<char>>,
    members: Seq<String>,
) -> Seq<Seq<char>> {
    members.map_values(|member: String| translated(packages, root, member@))
}

impl RawMetadata {
    /// The workspace root.
    pub open spec fn root(self) -> Option<Seq<char>> {
        optional_view(self.workspace_root)
    }

    /// The graph that the document describes.
    pub open spec fn graph(self) -> GraphModel
        recommends
            self.resolve is Some,
    {
        GraphModel {
            packages: sorted_listing::<CargoPackage>(package_records(self.packages@, self.root())),
            nodes: sorted_listing::<CargoNode>(
                node_values(self.packages@, self.root(), self.resolve->Some_0.nodes@),
            ),
            members: sorted_listing::<String>(
                member_values(self.packages@, self.root(), self.workspace_members@),
            ),
        }
    }

    /// The first defect of the document.
    pub open spec fn defect(self) -> Option<GraphDefect> {
        or_else(
            repeated_package(self.packages@, self.root(), self.packages@.len() as int),
            match self.resolve {
                None => Some(GraphDefect::MissingResolve),
                Some(resolve) => or_else(
                    repeated_node(
                        self.packages@,
                        self.root(),
                        resolve.nodes@,
                        resolve.nodes@.len() as int,
                    ),
                    self.graph().structure_defect(),
                ),
            },
        )
    }
}

/// Splits a path into its components.
pub fn path_components(path: &str) -> (list: Vec<String>)
    ensures
        texts(list@) == components(path@),
{
    let pieces = split_text(path, '/');
    let ghost all = split_on(path@, '/');
    let mut names: Vec<String> = Vec::new();
    let mut index: usize = 0;
    assert(texts(names@) =~= pieces_components(all, 0));
    while index < pieces.len()
        invariant
            all == texts(pieces@),
            index <= pieces@.len(),
            texts(names@) == pieces_components(all, index as int),
        decreases pieces@.len() - index,
    {
        let piece = &pieces[index];
        let ghost before = texts(names@);
        assert(all[index as int] == piece@);
        if piece.as_str().is_empty() || (index > 0 && same_text(piece.as_str(), ".")) {
            assert(before + Seq::<Seq<char>>::empty() =~= before);
        } else {
            names.push(piece.clone());
            assert(texts(names@) =~= before + seq![piece@]);
        }
        index += 1;
    }
    let chars = chars_of(path);
    if chars.len() > 0 && chars[0] == '/' {
        let ghost before = texts(names@);
        let mut list: Vec<String> = Vec::new();
        list.push("/".to_owned());
        list.append(&mut names);
        assert(texts(list@) =~= seq!["/"@] + before);
        list
    } else {
        names
    }
}

/// Finds the lexical path that leads from `base` to `target`.
pub fn lexical_relative_path(base: &str, target: &str) -> (result: Option<String>)
    ensures
        match result {
            Some(path) => relative_path(base@, target@) == Some(path@),
            None => relative_path(base@, target@) is None,
        },
{
    let from = path_components(base);
    let to = path_components(target);
    let ghost from_all = components(base@);
    let ghost to_all = components(target@);
    let mut common: usize = 0;
    while common < from.len() && common < to.len() && same_text(
        from[common].as_str(),
        to[common].as_str(),
    )
        invariant
            from_all == texts(from@),
            to_all == texts(to@),
            common <= from@.len(),
            common <= to@.len(),
            common_from(from_all, to_all, 0) == common_from(from_all, to_all, common as int),
        decreases from@.len() - common,
    {
        assert(from_all[common as int] == from@[common as int]@);
        assert(to_all[common as int] == to@[common as int]@);
        common += 1;
    }
    proof {
        if common < from@.len() && common < to@.len() {
            assert(from_all[common as int] == from@[common as int]@);
            assert(to_all[common as int] == to@[common as int]@);
        }
        assert(common_from(from_all, to_all, 0) == common);
    }
    let mut steps: Vec<String> = Vec::new();
    let mut index: usize = common;
    assert(texts(steps@) =~= Seq::<Seq<char>>::empty());
    while index < from.len()
        invariant
            from_all == texts(from@),
            to_all == texts(to@),
            from_all == components(base@),
            to_all == components(target@),
            common_from(from_all, to_all, 0) == common,
            common <= index <= from@.len(),
            climb(from_all, common as int, index as int) == Some(texts(steps@)),
        decreases from@.len() - index,
    {
        let component = &from[index];
        assert(from_all[index as int] == component@);
        if same_text(component.as_str(), "/") || same_text(component.as_str(), "..") {
            proof {
                assert(climb(from_all, common as int, index + 1) is None);
                lemma_climb_stuck(from_all, common as int, index + 1, from_all.len() as int);
            }
            return None;
        }
        if !same_text(component.as_str(), ".") {
            let ghost before = texts(steps@);
            steps.push("..".to_owned());
            assert(texts(steps@) =~= before.push(".."@));
        }
        index += 1;
    }
    let ghost up = texts(steps@);
    let mut index: usize = common;
    while index < to.len()
        invariant
            from_all == texts(from@),
            to_all == texts(to@),
            from_all == components(base@),
            to_all == components(target@),
            common_from(from_all, to_all, 0) == common,
            common <= index <= to@.len(),
            climb(from_all, common as int, from_all.len() as int) == Some(up),
            texts(steps@) == up + to_all.subrange(common as int, index as int),
            forall|i: int| common <= i < index ==> #[trigger] to_all[i] != "/"@,
        decreases to@.len() - index,
    {
        let component = &to[index];
        assert(to_all[index as int] == component@);
        if same_text(component.as_str(), "/") {
            proof {
                assert(to_all.skip(common as int)[index - common] == "/"@);
            }
            return None;
        }
        let ghost before = texts(steps@);
        steps.push(component.clone());
        assert(texts(steps@) =~= before.push(component@));
        index += 1;
        assert(texts(steps@) =~= up + to_all.subrange(common as int, index as int));
    }
    proof {
        let rest = to_all.skip(common as int);
        assert(to_all.subrange(common as int, index as int) =~= rest);
        assert forall|i: int| 0 <= i < rest.len() implies rest[i] != "/"@ by {
            assert(rest[i] == to_all[common + i]);
        }
    }
    Some(join_texts(&steps, "/"))
}

/// A path below `base` leads there by its components below `base`, wherever `base` is.
pub proof fn lemma_relative_below(base: Seq<char>, target: Seq<char>, below: Seq<Seq<char>>)
    requires
        components(target) == components(base) + below,
        !below.contains("/"@),
    ensures
        relative_path(base, target) == Some(joined(below, "/"@)),
{
    let from = components(base);
    let to = components(target);
    assert(to.take(from.len() as int) =~= from);
    lemma_common_whole(from, to, 0);
    assert(to.skip(from.len() as int) =~= below);
    assert(climb(from, from.len() as int, from.len() as int) == Some(Seq::<Seq<char>>::empty()));
    assert(Seq::<Seq<char>>::empty() + below =~= below);
}

proof fn lemma_common_whole(from: Seq<Seq<char>>, to: Seq<Seq<char>>, at: int)
    requires
        0 <= at <= from.len() <= to.len(),
        to.take(from.len() as int) == from,
    ensures
        common_from(from, to, at) == from.len(),
    decreases from.len() - at,
{
    if at < from.len() {
        assert(to.take(from.len() as int)[at] == to[at]);
        lemma_common_whole(from, to, at + 1);
    }
}

proof fn lemma_climb_stuck(base: Seq<Seq<char>>, from: int, at: int, to: int)
    requires
        climb(base, from, at) is None,
        at <= to,
    ensures
        climb(base, from, to) is None,
    decreases to - at,
{
    if at < to {
        lemma_climb_stuck(base, from, at, to - 1);
    }
}

fn replace_backslashes(text: &str) -> (result: String)
    ensures
        result@ == with_slashes(text@),
{
    let chars = chars_of(text);
    let mut result = String::new();
    let mut index: usize = 0;
    assert(result@ =~= with_slashes(text@).take(0));
    while index < chars.len()
        invariant
            chars@ == text@,
            index <= chars@.len(),
            result@ == with_slashes(text@).take(index as int),
        decreases chars@.len() - index,
    {
        if chars[index] == '\\' {
            result.push('/');
        } else {
            result.push(chars[index]);
        }
        index += 1;
        assert(result@ =~= with_slashes(text@).take(index as int));
    }
    assert(with_slashes(text@).take(index as int) =~= with_slashes(text@));
    result
}

/// Returns the stable identifier of a package.
pub fn normalized_package_id(package: &RawPackage, workspace_root: &Option<String>) -> (id: String)
    ensures
        id@ == stable_id(*package, optional_view(*workspace_root)),
{
    if package.source.is_none() {
        if let (Some(root), Some(manifest)) = (workspace_root, &package.manifest_path) {
            if let Some(relative) = lexical_relative_path(root.as_str(), manifest.as_str()) {
                let stable = replace_backslashes(relative.as_str());
                return join6(
                    "workspace+",
                    stable.as_str(),
                    "#",
                    package.name.as_str(),
                    "@",
                    package.version.as_str(),
                );
            }
        }
    }
    package.id.clone()
}

struct Translation<'a> {
    packages: &'a Vec<RawPackage>,
    stable: Vec<String>,
    root: &'a Option<String>,
}

impl<'a> Translation<'a> {
    spec fn wf(&self) -> bool {
        &&& self.stable@.len() == self.packages@.len()
        &&& forall|i: int|
            0 <= i < self.stable@.len() ==> (#[trigger] self.stable@[i])@ == stable_id(
                self.packages@[i],
                optional_view(*self.root),
            )
        &&& forall|i: int, j: int|
            0 <= i < j < self.packages@.len() ==> (#[trigger] self.packages@[i]).id@ != (
            #[trigger] self.packages@[j]).id@
    }

    fn translated_package_id(&self, id: &str) -> (result: String)
        requires
            self.wf(),
        ensures
            result@ == translated(self.packages@, optional_view(*self.root), id@),
    {
        let mut index: usize = 0;
        while index < self.packages.len()
            invariant
                self.wf(),
                index <= self.packages@.len(),
                forall|i: int| 0 <= i < index ==> (#[trigger] self.packages@[i]).id@ != id@,
            decreases self.packages@.len() - index,
        {
            if same_text(self.packages[index].id.as_str(), id) {
                proof {
                    assert(self.packages@[index as int].id@ == id@);
                    let at = choose|j: int|
                        0 <= j < self.packages@.len() && (#[trigger] self.packages@[j]).id@ == id@;
                    assert(at == index) by {
                        if at < index {
                            assert(self.packages@[at].id@ != self.packages@[index as int].id@);
                        } else if at > index {
                            assert(self.packages@[index as int].id@ != self.packages@[at].id@);
                        }
                    }
                }
                return self.stable[index].clone();
            }
            index += 1;
        }
        id.to_owned()
    }

    fn dependency(&self, raw: &RawDependency) -> (dependency: CargoDependency)
        requires
            self.wf(),
        ensures
            dependency.model() == dependency_value(
                self.packages@,
                optional_view(*self.root),
                *raw,
            ),
    {
        let mut kinds: Vec<CargoDependencyKind> = Vec::new();
        let ghost values = kind_values(raw.dep_kinds@);
        let mut index: usize = 0;
        while index < raw.dep_kinds.len()
            invariant
                values == kind_values(raw.dep_kinds@),
                index <= raw.dep_kinds@.len(),
                kinds@.len() == index,
                forall|i: int| 0 <= i < index ==> (#[trigger] kinds@[i]).model() == values[i],
            decreases raw.dep_kinds@.len() - index,
        {
            let kind = &raw.dep_kinds[index];
            kinds.push(
                CargoDependencyKind {
                    kind: clone_optional_text(&kind.kind),
                    target: clone_optional_text(&kind.target),
                },
            );
            index += 1;
        }
        assert(models(kinds@) =~= values);
        CargoDependency {
            name: raw.name.clone(),
            package: self.translated_package_id(raw.pkg.as_str()),
            kinds: sort_unique(kinds),
        }
    }

    fn node(&self, raw: &RawNode) -> (node: CargoNode)
        requires
            self.wf(),
        ensures
            node.model() == node_value(self.packages@, optional_view(*self.root), *raw),
    {
        let ghost root = optional_view(*self.root);
        let ghost values = dependency_values(self.packages@, root, raw.deps@);
        let mut dependencies: Vec<CargoDependency> = Vec::new();
        let mut index: usize = 0;
        while index < raw.deps.len()
            invariant
                self.wf(),
                root == optional_view(*self.root),
                values == dependency_values(self.packages@, root, raw.deps@),
                index <= raw.deps@.len(),
                dependencies@.len() == index,
                forall|i: int|
                    0 <= i < index ==> (#[trigger] dependencies@[i]).model() == values[i],
            decreases raw.deps@.len() - index,
        {
            dependencies.push(self.dependency(&raw.deps[index]));
            index += 1;
        }
        assert(models(dependencies@) =~= values);
        let features = crate::text::clone_texts(&raw.features);
        assert(models(features@) =~= texts(raw.features@));
        CargoNode {
            id: self.translated_package_id(raw.id.as_str()),
            dependencies: sort_unique(dependencies),
            features: sort_unique(features),
        }
    }
}

proof fn lemma_repeated_package_stays(
    packages: Seq<RawPackage>,
    root: Option<Seq<char>>,
    count: int,
    total: int,
)
    requires
        repeated_package(packages, root, count) is Some,
        count <= total,
    ensures
        repeated_package(packages, root, total) == repeated_package(packages, root, count),
    decreases total - count,
{
    if count < total {
        lemma_repeated_package_stays(packages, root, count, total - 1);
    }
}

proof fn lemma_repeated_node_stays(
    packages: Seq<RawPackage>,
    root: Option<Seq<char>>,
    nodes: Seq<RawNode>,
    count: int,
    total: int,
)
    requires
        repeated_node(packages, root, nodes, count) is Some,
        count <= total,
    ensures
        repeated_node(packages, root, nodes, total) == repeated_node(packages, root, nodes, count),
    decreases total - count,
{
    if count < total {
        lemma_repeated_node_stays(packages, root, nodes, count, total - 1);
    }
}

/// Growing a sorted listing by an item whose key is new lists one value more.
proof fn lemma_listing_grows<T: Keyed>(
    before: Seq<T::Model>,
    after: Seq<T::Model>,
    values: Seq<T::Model>,
    index: int,
)
    requires
        0 <= index < values.len(),
        is_sorted_listing::<T>(before, values.take(index)),
        crate::ordered::ascending::<T>(after),
        forall|value: T::Model| #[trigger]
            after.contains(value) <==> before.contains(value) || value == values[index],
    ensures
        is_sorted_listing::<T>(after, values.take(index + 1)),
{
    let seen = values.take(index);
    let more = values.take(index + 1);
    assert(more =~= seen.push(values[index]));
    assert forall|value: T::Model| #[trigger] after.contains(value) <==> more.contains(value) by {
        assert(before.contains(value) <==> seen.contains(value));
        if seen.contains(value) {
            let k = choose|k: int| 0 <= k < seen.len() && seen[k] == value;
            assert(more[k] == value);
        }
        if value == values[index] {
            assert(more[index] == value);
        }
        if more.contains(value) {
            let k = choose|k: int| 0 <= k < more.len() && more[k] == value;
            if k < index {
                assert(seen[k] == value);
            }
        }
    }
}

impl CargoGraph {
    /// Projects a metadata document onto a structurally consistent graph.
    pub fn from_raw(metadata: &RawMetadata) -> (result: Result<Self, CargoGraphError>)
        ensures
            outcome(result) == metadata.defect(),
            result matches Ok(graph) ==> graph@ == metadata.graph() && graph@.is_consistent(),
    {
        let ghost root = metadata.root();
        let ghost raws = metadata.packages@;
        let ghost records = package_records(raws, root);
        let mut raw_ids: TextSet = Sorted::new();
        let mut packages: Sorted<CargoPackage> = Sorted::new();
        let mut stable: Vec<String> = Vec::new();
        packages.use_order();
        assert(is_sorted_listing::<CargoPackage>(packages@, records.take(0)));
        let mut index: usize = 0;
        while index < metadata.packages.len()
            invariant
                root == metadata.root(),
                raws == metadata.packages@,
                records == package_records(raws, root),
                index <= raws.len(),
                repeated_package(raws, root, index as int) is None,
                stable@.len() == index,
                forall|i: int|
                    0 <= i < index ==> (#[trigger] stable@[i])@ == stable_id(raws[i], root),
                forall|id: Seq<char>| #[trigger]
                    raw_ids@.contains(id) <==> raw_id_before(raws, id, index as int),
                forall|i: int, j: int|
                    0 <= i < j < index ==> (#[trigger] raws[i]).id@ != (#[trigger] raws[j]).id@,
                is_sorted_listing::<CargoPackage>(packages@, records.take(index as int)),
            decreases raws.len() - index,
        {
            let raw = &metadata.packages[index];
            let ghost here = records[index as int];
            let id = normalized_package_id(raw, &metadata.workspace_root);
            proof {
                assert(here == package_record(*raw, root));
                assert(records.take(index as int).len() == index);
            }
            let ghost ids_before = raw_ids@;
            let new_raw_id = set_add(&mut raw_ids, raw.id.as_str());
            if !new_raw_id {
                proof {
                    lemma_repeated_package_stays(raws, root, index + 1, raws.len() as int);
                }
                return Err(CargoGraphError::DuplicatePackageId { package: raw.id.clone() });
            }
            proof {
                assert(!raw_id_before(raws, raw.id@, index as int));
                assert forall|i: int| 0 <= i < index implies (#[trigger] raws[i]).id@
                    != raws[index as int].id@ by {}
                assert forall|other: Seq<char>| #[trigger]
                    raw_ids@.contains(other) <==> raw_id_before(raws, other, index + 1) by {
                    assert(ids_before.contains(other) <==> raw_id_before(
                        raws,
                        other,
                        index as int,
                    ));
                    if raw_id_before(raws, other, index as int) {
                        let j = choose|j: int|
                            0 <= j < index && (#[trigger] raws[j]).id@ == other;
                        assert(raws[j].id@ == other);
                    }
                    if other == raw.id@ {
                        assert(raws[index as int].id@ == other);
                    }
                    if raw_id_before(raws, other, index + 1) {
                        let j = choose|j: int|
                            0 <= j < index + 1 && (#[trigger] raws[j]).id@ == other;
                        if j < index {
                            assert(raw_id_before(raws, other, index as int));
                        }
                    }
                }
            }
            let package = CargoPackage {
                id: id.clone(),
                name: raw.name.clone(),
                version: raw.version.clone(),
                source: clone_optional_text(&raw.source),
            };
            let ghost before = packages@;
            let ghost seen = records.take(index as int);
            assert(package.model() == here);
            let new_id = packages.insert(package);
            proof {
                let key = codes(id@);
                if holds_key::<CargoPackage>(before, key) {
                    let k = choose|k: int|
                        0 <= k < before.len() && <CargoPackage as Keyed>::key(
                            #[trigger] before[k],
                        ) == key;
                    assert(before.contains(before[k]));
                    assert(seen.contains(before[k]));
                    let j = choose|j: int| 0 <= j < seen.len() && seen[j] == before[k];
                    lemma_codes_injective(before[k].id, id@);
                    assert(seen[j] == package_record(raws[j], root));
                    assert(stable_id(raws[j], root) == id@);
                    assert(stable_id_before(raws, root, id@, index as int));
                }
                if stable_id_before(raws, root, id@, index as int) {
                    let j = choose|j: int|
                        0 <= j < index && stable_id(#[trigger] raws[j], root) == id@;
                    assert(seen[j] == package_record(raws[j], root));
                    assert(seen.contains(seen[j]));
                    assert(before.contains(seen[j]));
                    let k = choose|k: int| 0 <= k < before.len() && before[k] == seen[j];
                    assert(<CargoPackage as Keyed>::key(before[k]) == key);
                    assert(holds_key::<CargoPackage>(before, key));
                }
            }
            if !new_id {
                proof {
                    lemma_repeated_package_stays(raws, root, index + 1, raws.len() as int);
                }
                return Err(CargoGraphError::DuplicatePackageId { package: id });
            }
            proof {
                lemma_listing_grows::<CargoPackage>(before, packages@, records, index as int);
            }
            stable.push(id);
            index += 1;
        }
        assert(records.take(index as int) =~= records);
        proof {
            lemma_sorted_listing::<CargoPackage>(packages@, records);
        }
        let resolve = match &metadata.resolve {
            Some(resolve) => resolve,
            None => {
                return Err(CargoGraphError::MissingResolve);
            },
        };
        let translation = Translation {
            packages: &metadata.packages,
            stable,
            root: &metadata.workspace_root,
        };
        let ghost raw_nodes = resolve.nodes@;
        let ghost values = node_values(raws, root, raw_nodes);
        let mut nodes: Sorted<CargoNode> = Sorted::new();
        nodes.use_order();
        assert(is_sorted_listing::<CargoNode>(nodes@, values.take(0)));
        let mut index: usize = 0;
        while index < resolve.nodes.len()
            invariant
                root == metadata.root(),
                raws == metadata.packages@,
                metadata.resolve == Some(*resolve),
                repeated_package(raws, root, raws.len() as int) is None,
                translation.wf(),
                translation.packages@ == raws,
                optional_view(*translation.root) == root,
                raw_nodes == resolve.nodes@,
                values == node_values(raws, root, raw_nodes),
                index <= raw_nodes.len(),
                repeated_node(raws, root, raw_nodes, index as int) is None,
                is_sorted_listing::<CargoNode>(nodes@, values.take(index as int)),
            decreases raw_nodes.len() - index,
        {
            let node = translation.node(&resolve.nodes[index]);
            let id = node.id.clone();
            let ghost here = values[index as int];
            let ghost seen = values.take(index as int);
            let ghost before = nodes@;
            assert(node.model() == here);
            assert(id@ == translated(raws, root, raw_nodes[index as int].id@));
            let new_id = nodes.insert(node);
            proof {
                let key = codes(id@);
                if holds_key::<CargoNode>(before, key) {
                    let k = choose|k: int|
                        0 <= k < before.len() && <CargoNode as Keyed>::key(#[trigger] before[k])
                            == key;
                    assert(before.contains(before[k]));
                    assert(seen.contains(before[k]));
                    let j = choose|j: int| 0 <= j < seen.len() && seen[j] == before[k];
                    lemma_codes_injective(before[k].id, id@);
                    assert(seen[j] == node_value(raws, root, raw_nodes[j]));
                    assert(translated(raws, root, raw_nodes[j].id@) == id@);
                    assert(node_id_before(raws, root, raw_nodes, id@, index as int));
                }
                if node_id_before(raws, root, raw_nodes, id@, index as int) {
                    let j = choose|j: int|
                        0 <= j < index && translated(raws, root, (#[trigger] raw_nodes[j]).id@)
                            == id@;
                    assert(seen[j] == node_value(raws, root, raw_nodes[j]));
                    assert(seen.contains(seen[j]));
                    assert(before.contains(seen[j]));
                    let k = choose|k: int| 0 <= k < before.len() && before[k] == seen[j];
                    assert(<CargoNode as Keyed>::key(before[k]) == key);
                    assert(holds_key::<CargoNode>(before, key));
                }
            }
            if !new_id {
                proof {
                    lemma_repeated_node_stays(
                        raws,
                        root,
                        raw_nodes,
                        index + 1,
                        raw_nodes.len() as int,
                    );
                }
                return Err(CargoGraphError::DuplicateNodeId { package: id });
            }
            proof {
                lemma_listing_grows::<CargoNode>(before, nodes@, values, index as int);
            }
            index += 1;
        }
        assert(values.take(index as int) =~= values);
        proof {
            lemma_sorted_listing::<CargoNode>(nodes@, values);
        }
        let mut members: Vec<String> = Vec::new();
        let ghost member_list = member_values(raws, root, metadata.workspace_members@);
        let mut index: usize = 0;
        while index < metadata.workspace_members.len()
            invariant
                translation.wf(),
                translation.packages@ == raws,
                optional_view(*translation.root) == root,
                member_list == member_values(raws, root, metadata.workspace_members@),
                index <= metadata.workspace_members@.len(),
                members@.len() == index,
                forall|i: int| 0 <= i < index ==> (#[trigger] members@[i])@ == member_list[i],
            decreases metadata.workspace_members@.len() - index,
        {
            members.push(
                translation.translated_package_id(metadata.workspace_members[index].as_str()),
            );
            index += 1;
        }
        assert(models(members@) =~= member_list);
        let workspace_members = sort_unique(members);
        CargoGraph::assemble(packages, nodes, workspace_members)
    }
}

} // verus!
