//! What the graph of a metadata document holds.

use vstd::prelude::*;
use vstd::string::*;

use crate::cargo_graph::{
    CargoDependency, CargoDependencyKind, CargoNode, CargoPackage, DependencyModel, KindModel,
    NodeModel, PackageModel,
};
use crate::cargo_metadata::{
    dependency_value, dependency_values, kind_values, member_values, node_id_before, node_value,
    node_values, package_record, package_records, raw_id_before, relative_path, repeated_node,
    repeated_package, stable_id, stable_id_before, translated, with_slashes, RawDependency,
    RawMetadata, RawNode, RawPackage,
};
use crate::ordered::{
    ascending, lemma_codes_injective, lemma_keyed_listing_exists, lemma_listing_exists, Keyed,
};
use crate::text::{optional_view, texts};

verus! {

/// The name that a package has in the graph: a local package is named by the place of its manifest
/// below the workspace, by its name and by its version; any other keeps Cargo's name.
pub open spec fn graph_name(package: RawPackage, root: Option<Seq<char>>) -> Seq<char> {
    match (package.source, root, package.manifest_path) {
        (None, Some(base), Some(manifest)) => match relative_path(base, manifest@) {
            Some(place) => "workspace+"@ + Seq::new(
                place.len(),
                |i: int|
                    if place[i] == '\\' {
                        '/'
                    } else {
                        place[i]
                    },
            ) + "#"@ + package.name@ + "@"@ + package.version@,
            None => package.id@,
        },
        _ => package.id@,
    }
}

/// Every package is known by its name in the graph.
pub proof fn lemma_graph_name(package: RawPackage, root: Option<Seq<char>>)
    ensures
        stable_id(package, root) == graph_name(package, root),
{
    if package.source is None && root is Some && package.manifest_path is Some {
        if let Some(place) = relative_path(root->Some_0, package.manifest_path->Some_0@) {
            assert(with_slashes(place) =~= Seq::new(
                place.len(),
                |i: int|
                    if place[i] == '\\' {
                        '/'
                    } else {
                        place[i]
                    },
            ));
        }
    }
}

/// Whether a package has a name of Cargo's and a name in the graph.
pub open spec fn is_named(
    package: RawPackage,
    root: Option<Seq<char>>,
    raw: Seq<char>,
    name: Seq<char>,
) -> bool {
    package.id@ == raw && graph_name(package, root) == name
}

/// Whether a name of Cargo's stands for a name in the graph: that of the package that has it, or
/// itself where no package does.
pub open spec fn names(
    packages: Seq<RawPackage>,
    root: Option<Seq<char>>,
    raw: Seq<char>,
    name: Seq<char>,
) -> bool {
    ||| exists|k: int| 0 <= k < packages.len() && #[trigger] is_named(packages[k], root, raw, name)
    ||| name == raw && forall|k: int|
        0 <= k < packages.len() ==> (#[trigger] packages[k]).id@ != raw
}

proof fn lemma_translated(packages: Seq<RawPackage>, root: Option<Seq<char>>, raw: Seq<char>)
    requires
        forall|i: int, j: int|
            0 <= i < j < packages.len() ==> (#[trigger] packages[i]).id@ != (
            #[trigger] packages[j]).id@,
    ensures
        names(packages, root, raw, translated(packages, root, raw)),
{
    if raw_id_before(packages, raw, packages.len() as int) {
        let at = choose|j: int| 0 <= j < packages.len() && (#[trigger] packages[j]).id@ == raw;
        assert(0 <= at < packages.len() && packages[at].id@ == raw);
        assert forall|j: int|
            0 <= j < packages.len() && (#[trigger] packages[j]).id@ == raw implies j == at by {
            if j < at {
                assert(packages[j].id@ != packages[at].id@);
            } else if j > at {
                assert(packages[at].id@ != packages[j].id@);
            }
        }
        lemma_graph_name(packages[at], root);
        assert(is_named(packages[at], root, raw, translated(packages, root, raw)));
    }
}

proof fn lemma_packages_differ(packages: Seq<RawPackage>, root: Option<Seq<char>>, count: int)
    requires
        0 <= count <= packages.len(),
    ensures
        repeated_package(packages, root, count) is None <==> forall|i: int, j: int|
            0 <= i < j < count ==> (#[trigger] packages[i]).id@ != (#[trigger] packages[j]).id@
                && graph_name(packages[i], root) != graph_name(packages[j], root),
    decreases count,
{
    if count > 0 {
        lemma_packages_differ(packages, root, count - 1);
        let at = count - 1;
        assert forall|j: int| 0 <= j < packages.len() implies stable_id(
            #[trigger] packages[j],
            root,
        ) == graph_name(packages[j], root) by {
            lemma_graph_name(packages[j], root);
        }
        assert(raw_id_before(packages, packages[at].id@, at) <==> exists|j: int|
            0 <= j < at && (#[trigger] packages[j]).id@ == packages[at].id@);
        assert(stable_id_before(packages, root, stable_id(packages[at], root), at) <==> exists|
            j: int,
        |
            0 <= j < at && graph_name(#[trigger] packages[j], root) == graph_name(
                packages[at],
                root,
            ));
    }
}

proof fn lemma_nodes_differ(
    packages: Seq<RawPackage>,
    root: Option<Seq<char>>,
    nodes: Seq<RawNode>,
    count: int,
)
    requires
        0 <= count <= nodes.len(),
    ensures
        repeated_node(packages, root, nodes, count) is None <==> forall|i: int, j: int|
            0 <= i < j < count ==> translated(packages, root, (#[trigger] nodes[i]).id@)
                != translated(packages, root, (#[trigger] nodes[j]).id@),
    decreases count,
{
    if count > 0 {
        lemma_nodes_differ(packages, root, nodes, count - 1);
        let at = count - 1;
        let id = translated(packages, root, nodes[at].id@);
        assert(node_id_before(packages, root, nodes, id, at) <==> exists|j: int|
            0 <= j < at && translated(packages, root, (#[trigger] nodes[j]).id@) == id);
    }
}

/// Whether a package of the graph is the record of a package of the document.
pub open spec fn records_package(
    package: RawPackage,
    root: Option<Seq<char>>,
    record: PackageModel,
) -> bool {
    &&& record.id == graph_name(package, root)
    &&& record.name == package.name@
    &&& record.version == package.version@
    &&& record.source == optional_view(package.source)
}

/// Whether an edge of the graph is that of a dependency of the document: its name, the package it
/// leads to, and every kind of it, each with its target.
pub open spec fn records_dependency(
    packages: Seq<RawPackage>,
    root: Option<Seq<char>>,
    dependency: RawDependency,
    edge: DependencyModel,
) -> bool {
    &&& edge.name == dependency.name@
    &&& names(packages, root, dependency.pkg@, edge.package)
    &&& forall|kind: KindModel| #[trigger]
        edge.kinds.contains(kind) <==> exists|k: int|
            0 <= k < dependency.dep_kinds@.len() && optional_view(
                (#[trigger] dependency.dep_kinds@[k]).kind,
            ) == kind.kind && optional_view(dependency.dep_kinds@[k].target) == kind.target
}

/// Whether a node of the graph is that of a resolved entry of the document: with every dependency
/// and every feature of it, and no others.
pub open spec fn records_node(
    packages: Seq<RawPackage>,
    root: Option<Seq<char>>,
    node: RawNode,
    record: NodeModel,
) -> bool {
    &&& names(packages, root, node.id@, record.id)
    &&& ascending::<String>(record.features)
    &&& forall|feature: Seq<char>| #[trigger]
        record.features.contains(feature) <==> texts(node.features@).contains(feature)
    &&& forall|k: int|
        0 <= k < node.deps@.len() ==> is_recorded(
            packages,
            root,
            #[trigger] node.deps@[k],
            record.dependencies,
        )
    &&& forall|e: int|
        0 <= e < record.dependencies.len() ==> is_declared(
            packages,
            root,
            node.deps@,
            #[trigger] record.dependencies[e],
        )
}

/// Whether one of the edges is that of a dependency.
pub open spec fn is_recorded(
    packages: Seq<RawPackage>,
    root: Option<Seq<char>>,
    dependency: RawDependency,
    edges: Seq<DependencyModel>,
) -> bool {
    exists|e: int|
        0 <= e < edges.len() && #[trigger] records_dependency(packages, root, dependency, edges[e])
}

/// Whether an edge is that of one of the dependencies.
pub open spec fn is_declared(
    packages: Seq<RawPackage>,
    root: Option<Seq<char>>,
    dependencies: Seq<RawDependency>,
    edge: DependencyModel,
) -> bool {
    exists|k: int|
        0 <= k < dependencies.len() && #[trigger] records_dependency(
            packages,
            root,
            dependencies[k],
            edge,
        )
}

proof fn lemma_dependency(
    packages: Seq<RawPackage>,
    root: Option<Seq<char>>,
    dependency: RawDependency,
)
    requires
        forall|i: int, j: int|
            0 <= i < j < packages.len() ==> (#[trigger] packages[i]).id@ != (
            #[trigger] packages[j]).id@,
    ensures
        records_dependency(
            packages,
            root,
            dependency,
            dependency_value(packages, root, dependency),
        ),
{
    let edge = dependency_value(packages, root, dependency);
    let kinds = kind_values(dependency.dep_kinds@);
    lemma_translated(packages, root, dependency.pkg@);
    lemma_listing_exists::<CargoDependencyKind>(kinds);
    assert forall|kind: KindModel| #[trigger] edge.kinds.contains(kind) <==> exists|k: int|
        0 <= k < dependency.dep_kinds@.len() && optional_view(
            (#[trigger] dependency.dep_kinds@[k]).kind,
        ) == kind.kind && optional_view(dependency.dep_kinds@[k].target) == kind.target by {
        if kinds.contains(kind) {
            let k = choose|k: int| 0 <= k < kinds.len() && kinds[k] == kind;
            assert(optional_view(dependency.dep_kinds@[k].kind) == kind.kind);
        }
        if exists|k: int|
            0 <= k < dependency.dep_kinds@.len() && optional_view(
                (#[trigger] dependency.dep_kinds@[k]).kind,
            ) == kind.kind && optional_view(dependency.dep_kinds@[k].target) == kind.target {
            let k = choose|k: int|
                0 <= k < dependency.dep_kinds@.len() && optional_view(
                    (#[trigger] dependency.dep_kinds@[k]).kind,
                ) == kind.kind && optional_view(dependency.dep_kinds@[k].target) == kind.target;
            assert(kinds[k] == kind);
        }
    }
}

proof fn lemma_node(packages: Seq<RawPackage>, root: Option<Seq<char>>, node: RawNode)
    requires
        forall|i: int, j: int|
            0 <= i < j < packages.len() ==> (#[trigger] packages[i]).id@ != (
            #[trigger] packages[j]).id@,
    ensures
        records_node(packages, root, node, node_value(packages, root, node)),
{
    let record = node_value(packages, root, node);
    let edges = dependency_values(packages, root, node.deps@);
    lemma_translated(packages, root, node.id@);
    lemma_listing_exists::<String>(texts(node.features@));
    lemma_listing_exists::<CargoDependency>(edges);
    assert forall|k: int| 0 <= k < node.deps@.len() implies is_recorded(
        packages,
        root,
        #[trigger] node.deps@[k],
        record.dependencies,
    ) by {
        lemma_dependency(packages, root, node.deps@[k]);
        assert(edges[k] == dependency_value(packages, root, node.deps@[k]));
        assert(edges.contains(edges[k]));
        assert(record.dependencies.contains(edges[k]));
        let e = choose|e: int|
            0 <= e < record.dependencies.len() && record.dependencies[e] == edges[k];
        assert(records_dependency(packages, root, node.deps@[k], record.dependencies[e]));
    }
    assert forall|e: int| 0 <= e < record.dependencies.len() implies is_declared(
        packages,
        root,
        node.deps@,
        #[trigger] record.dependencies[e],
    ) by {
        assert(record.dependencies.contains(record.dependencies[e]));
        assert(edges.contains(record.dependencies[e]));
        let k = choose|k: int| 0 <= k < edges.len() && edges[k] == record.dependencies[e];
        lemma_dependency(packages, root, node.deps@[k]);
        assert(records_dependency(packages, root, node.deps@[k], record.dependencies[e]));
    }
}

/// The graph of a document without a defect records every package, every resolved entry and every
/// workspace member of it, and nothing else.
pub proof fn lemma_metadata_graph(document: RawMetadata)
    requires
        document.defect() is None,
    ensures
        ({
            let packages = document.packages@;
            let nodes = document.resolve->Some_0.nodes@;
            let root = optional_view(document.workspace_root);
            let graph = document.graph();
            &&& forall|record: PackageModel| #[trigger]
                graph.packages.contains(record) <==> exists|k: int|
                    0 <= k < packages.len() && records_package(#[trigger] packages[k], root, record)
            &&& forall|k: int|
                0 <= k < nodes.len() ==> exists|n: int|
                    0 <= n < graph.nodes.len() && records_node(
                        packages,
                        root,
                        #[trigger] nodes[k],
                        #[trigger] graph.nodes[n],
                    )
            &&& forall|n: int|
                0 <= n < graph.nodes.len() ==> exists|k: int|
                    0 <= k < nodes.len() && records_node(
                        packages,
                        root,
                        #[trigger] nodes[k],
                        #[trigger] graph.nodes[n],
                    )
            &&& forall|k: int|
                0 <= k < document.workspace_members@.len() ==> exists|m: int|
                    0 <= m < graph.members.len() && names(
                        packages,
                        root,
                        (#[trigger] document.workspace_members@[k])@,
                        #[trigger] graph.members[m],
                    )
            &&& forall|m: int|
                0 <= m < graph.members.len() ==> exists|k: int|
                    0 <= k < document.workspace_members@.len() && names(
                        packages,
                        root,
                        (#[trigger] document.workspace_members@[k])@,
                        #[trigger] graph.members[m],
                    )
        }),
{
    let packages = document.packages@;
    let nodes = document.resolve->Some_0.nodes@;
    let root = optional_view(document.workspace_root);
    let graph = document.graph();
    let records = package_records(packages, root);
    let entries = node_values(packages, root, nodes);
    let members = member_values(packages, root, document.workspace_members@);
    lemma_packages_differ(packages, root, packages.len() as int);
    lemma_nodes_differ(packages, root, nodes, nodes.len() as int);
    assert forall|i: int, j: int| 0 <= i < j < records.len() implies CargoPackage::key(
        #[trigger] records[i],
    ) != CargoPackage::key(#[trigger] records[j]) by {
        lemma_graph_name(packages[i], root);
        lemma_graph_name(packages[j], root);
        assert(packages[i].id@ != packages[j].id@);
        if CargoPackage::key(records[i]) == CargoPackage::key(records[j]) {
            lemma_codes_injective(records[i].id, records[j].id);
        }
    }
    assert forall|i: int, j: int| 0 <= i < j < entries.len() implies CargoNode::key(
        #[trigger] entries[i],
    ) != CargoNode::key(#[trigger] entries[j]) by {
        assert(translated(packages, root, nodes[i].id@) != translated(
            packages,
            root,
            nodes[j].id@,
        ));
        if CargoNode::key(entries[i]) == CargoNode::key(entries[j]) {
            lemma_codes_injective(entries[i].id, entries[j].id);
        }
    }
    lemma_keyed_listing_exists::<CargoPackage>(records);
    lemma_keyed_listing_exists::<CargoNode>(entries);
    lemma_listing_exists::<String>(members);
    assert forall|record: PackageModel| #[trigger] graph.packages.contains(record) <==> exists|
        k: int,
    |
        0 <= k < packages.len() && records_package(#[trigger] packages[k], root, record) by {
        if records.contains(record) {
            let k = choose|k: int| 0 <= k < records.len() && records[k] == record;
            lemma_graph_name(packages[k], root);
            assert(records_package(packages[k], root, record));
        }
        if exists|k: int|
            0 <= k < packages.len() && records_package(#[trigger] packages[k], root, record) {
            let k = choose|k: int|
                0 <= k < packages.len() && records_package(#[trigger] packages[k], root, record);
            lemma_graph_name(packages[k], root);
            assert(records[k] == package_record(packages[k], root));
            assert(records[k] == record);
        }
    }
    assert forall|k: int| 0 <= k < nodes.len() implies exists|n: int|
        0 <= n < graph.nodes.len() && records_node(
            packages,
            root,
            #[trigger] nodes[k],
            #[trigger] graph.nodes[n],
        ) by {
        lemma_node(packages, root, nodes[k]);
        assert(entries[k] == node_value(packages, root, nodes[k]));
        assert(entries.contains(entries[k]));
        assert(graph.nodes.contains(entries[k]));
        let n = choose|n: int| 0 <= n < graph.nodes.len() && graph.nodes[n] == entries[k];
        assert(records_node(packages, root, nodes[k], graph.nodes[n]));
    }
    assert forall|n: int| 0 <= n < graph.nodes.len() implies exists|k: int|
        0 <= k < nodes.len() && records_node(
            packages,
            root,
            #[trigger] nodes[k],
            #[trigger] graph.nodes[n],
        ) by {
        assert(graph.nodes.contains(graph.nodes[n]));
        let k = choose|k: int| 0 <= k < entries.len() && entries[k] == graph.nodes[n];
        lemma_node(packages, root, nodes[k]);
        assert(records_node(packages, root, nodes[k], graph.nodes[n]));
    }
    assert forall|k: int| 0 <= k < document.workspace_members@.len() implies exists|m: int|
        0 <= m < graph.members.len() && names(
            packages,
            root,
            (#[trigger] document.workspace_members@[k])@,
            #[trigger] graph.members[m],
        ) by {
        lemma_translated(packages, root, document.workspace_members@[k]@);
        assert(members.contains(members[k]));
        assert(graph.members.contains(members[k]));
        let m = choose|m: int| 0 <= m < graph.members.len() && graph.members[m] == members[k];
        assert(names(packages, root, document.workspace_members@[k]@, graph.members[m]));
    }
    assert forall|m: int| 0 <= m < graph.members.len() implies exists|k: int|
        0 <= k < document.workspace_members@.len() && names(
            packages,
            root,
            (#[trigger] document.workspace_members@[k])@,
            #[trigger] graph.members[m],
        ) by {
        assert(graph.members.contains(graph.members[m]));
        let k = choose|k: int| 0 <= k < members.len() && members[k] == graph.members[m];
        lemma_translated(packages, root, document.workspace_members@[k]@);
        assert(names(packages, root, document.workspace_members@[k]@, graph.members[m]));
    }
}

/// A document is accepted if and only if no two of its packages share a name of Cargo's or a name
/// in the graph, it is resolved, no two resolved entries are of one package, and the graph fits
/// together.
pub proof fn lemma_document_accepted(document: RawMetadata)
    ensures
        document.defect() is None <==> {
            let packages = document.packages@;
            let root = optional_view(document.workspace_root);
            &&& forall|i: int, j: int|
                0 <= i < j < packages.len() ==> (#[trigger] packages[i]).id@ != (
                #[trigger] packages[j]).id@ && graph_name(packages[i], root) != graph_name(
                    packages[j],
                    root,
                )
            &&& document.resolve matches Some(resolve) && {
                &&& forall|i: int, j: int|
                    0 <= i < j < resolve.nodes@.len() ==> translated(
                        packages,
                        root,
                        (#[trigger] resolve.nodes@[i]).id@,
                    ) != translated(packages, root, (#[trigger] resolve.nodes@[j]).id@)
                &&& document.graph().structure_defect() is None
            }
        },
{
    let packages = document.packages@;
    let root = optional_view(document.workspace_root);
    lemma_packages_differ(packages, root, packages.len() as int);
    if let Some(resolve) = document.resolve {
        lemma_nodes_differ(packages, root, resolve.nodes@, resolve.nodes@.len() as int);
    }
}

} // verus!
