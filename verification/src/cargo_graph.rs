//! Resolved Cargo package graphs: their structure, the framework closure in them, and the
//! changes that a framework resolution may make.

use vstd::prelude::*;
use vstd::string::*;
use vstd::utf8::{char_is_scalar, char_u32_cast};

use crate::findings::{
    first_finding, lemma_finding_prefix, lemma_finding_step, lemma_no_finding, or_else,
};
use crate::ordered::{
    ascending, codes, codes_of, lemma_ascending_distinct, lemma_ascending_extensional,
    lemma_codes_injective, models, set_add, Distinct, Keyed, Sorted, TextSet,
};
use crate::text::{
    chars_of, clone_optional_text, decimal, decimal_text, join3, join5, join7, join_texts, joined,
    optional_view, texts,
};

verus! {

/// Name of the framework package.
pub const FRAMEWORK_PACKAGE: &'static str = "omnius-service-kit";

/// Name by which a workspace package depends on the framework.
pub const ROOT_FRAMEWORK_ALIAS: &'static str = "service-kit";

/// The value of a package record.
pub struct PackageModel {
    /// Stable package identifier.
    pub id: Seq<char>,
    /// Package name.
    pub name: Seq<char>,
    /// Package version.
    pub version: Seq<char>,
    /// Source identifier, absent for a local package.
    pub source: Option<Seq<char>>,
}

/// The value of a dependency kind.
pub struct KindModel {
    /// Dependency kind, absent for the normal one.
    pub kind: Option<Seq<char>>,
    /// Target-platform expression.
    pub target: Option<Seq<char>>,
}

/// The value of a named dependency edge.
pub struct DependencyModel {
    /// Dependency alias.
    pub name: Seq<char>,
    /// Target package identifier.
    pub package: Seq<char>,
    /// Contexts of the edge, in order.
    pub kinds: Seq<KindModel>,
}

/// The value of a resolve node.
pub struct NodeModel {
    /// Package identifier.
    pub id: Seq<char>,
    /// Dependency edges, in order.
    pub dependencies: Seq<DependencyModel>,
    /// Enabled features, in order.
    pub features: Seq<Seq<char>>,
}

/// The value of a fully-qualified edge.
pub struct EdgeModel {
    /// Depending package identifier.
    pub from: Seq<char>,
    /// Dependency alias.
    pub name: Seq<char>,
    /// Target package identifier.
    pub to: Seq<char>,
    /// Contexts of the edge, in order.
    pub kinds: Seq<KindModel>,
}

/// One Cargo package identity.
#[derive(Debug, PartialEq, Eq)]
pub struct CargoPackage {
    pub(crate) id: String,
    pub(crate) name: String,
    pub(crate) version: String,
    pub(crate) source: Option<String>,
}

/// One dependency kind attached to a resolved edge.
#[derive(Debug, PartialEq, Eq)]
pub struct CargoDependencyKind {
    pub(crate) kind: Option<String>,
    pub(crate) target: Option<String>,
}

/// One named edge in a resolved package graph.
#[derive(Debug, PartialEq, Eq)]
pub struct CargoDependency {
    pub(crate) name: String,
    pub(crate) package: String,
    pub(crate) kinds: Sorted<CargoDependencyKind>,
}

/// One node in a resolved package graph.
#[derive(Debug, PartialEq, Eq)]
pub struct CargoNode {
    pub(crate) id: String,
    pub(crate) dependencies: Sorted<CargoDependency>,
    pub(crate) features: TextSet,
}

/// One fully-qualified graph edge used in graph differences.
#[derive(Debug, PartialEq, Eq)]
pub struct CargoGraphEdge {
    pub(crate) from: String,
    pub(crate) name: String,
    pub(crate) to: String,
    pub(crate) kinds: Sorted<CargoDependencyKind>,
}

// Keys.
/// The code of a character inside a key; zero ends a string.
pub open spec fn char_code(character: char) -> u32 {
    (character as u32 + 1) as u32
}

/// The key part of a string.
pub open spec fn text_key(text: Seq<char>) -> Seq<u32> {
    text.map_values(|character: char| char_code(character)).push(0)
}

/// The key part of an optional string; absence stands before presence.
pub open spec fn optional_key(text: Option<Seq<char>>) -> Seq<u32> {
    match text {
        None => seq![0u32],
        Some(value) => seq![1u32] + text_key(value),
    }
}

/// The key of a dependency kind.
pub open spec fn kind_key(kind: KindModel) -> Seq<u32> {
    optional_key(kind.kind) + optional_key(kind.target)
}

/// The key part of a sequence of dependency kinds.
pub open spec fn kinds_key(kinds: Seq<KindModel>) -> Seq<u32>
    decreases kinds.len(),
{
    if kinds.len() == 0 {
        seq![0u32]
    } else {
        seq![1u32] + kind_key(kinds[0]) + kinds_key(kinds.drop_first())
    }
}

/// The key of a dependency.
pub open spec fn dependency_key(dependency: DependencyModel) -> Seq<u32> {
    text_key(dependency.name) + text_key(dependency.package) + kinds_key(dependency.kinds)
}

/// The key of an edge.
pub open spec fn edge_key(edge: EdgeModel) -> Seq<u32> {
    text_key(edge.from) + text_key(edge.name) + text_key(edge.to) + kinds_key(edge.kinds)
}

proof fn lemma_char_code(left: char, right: char)
    ensures
        char_code(left) > 0,
        char_code(left) == char_code(right) ==> left == right,
{
    char_is_scalar(left);
    char_is_scalar(right);
    char_u32_cast(left, left as u32);
    char_u32_cast(right, right as u32);
}

/// A key part shows where it ends.
pub proof fn lemma_text_key_split(a: Seq<char>, x: Seq<u32>, b: Seq<char>, y: Seq<u32>)
    requires
        text_key(a) + x == text_key(b) + y,
    ensures
        a == b,
        x == y,
{
    let left = text_key(a) + x;
    let right = text_key(b) + y;
    if a.len() < b.len() {
        let at = a.len() as int;
        assert(left[at] == 0);
        assert(right[at] == char_code(b[at]));
        lemma_char_code(b[at], b[at]);
    }
    if b.len() < a.len() {
        let at = b.len() as int;
        assert(right[at] == 0);
        assert(left[at] == char_code(a[at]));
        lemma_char_code(a[at], a[at]);
    }
    assert forall|i: int| 0 <= i < a.len() implies a[i] == b[i] by {
        assert(left[i] == char_code(a[i]));
        assert(right[i] == char_code(b[i]));
        lemma_char_code(a[i], b[i]);
    }
    assert(a =~= b);
    assert(x =~= left.skip(a.len() as int + 1));
    assert(y =~= right.skip(b.len() as int + 1));
}

/// The key part of an optional string shows where it ends.
pub proof fn lemma_optional_key_split(
    a: Option<Seq<char>>,
    x: Seq<u32>,
    b: Option<Seq<char>>,
    y: Seq<u32>,
)
    requires
        optional_key(a) + x == optional_key(b) + y,
    ensures
        a == b,
        x == y,
{
    let left = optional_key(a) + x;
    let right = optional_key(b) + y;
    assert(left[0] == optional_key(a)[0]);
    assert(right[0] == optional_key(b)[0]);
    match (a, b) {
        (Some(s), Some(t)) => {
            assert(left.skip(1) =~= text_key(s) + x);
            assert(right.skip(1) =~= text_key(t) + y);
            lemma_text_key_split(s, x, t, y);
        },
        (None, None) => {
            assert(left.skip(1) =~= x);
            assert(right.skip(1) =~= y);
        },
        _ => {},
    }
}

proof fn lemma_kind_key_split(a: KindModel, x: Seq<u32>, b: KindModel, y: Seq<u32>)
    requires
        kind_key(a) + x == kind_key(b) + y,
    ensures
        a == b,
        x == y,
{
    assert(kind_key(a) + x =~= optional_key(a.kind) + (optional_key(a.target) + x));
    assert(kind_key(b) + y =~= optional_key(b.kind) + (optional_key(b.target) + y));
    lemma_optional_key_split(
        a.kind,
        optional_key(a.target) + x,
        b.kind,
        optional_key(b.target) + y,
    );
    lemma_optional_key_split(a.target, x, b.target, y);
}

proof fn lemma_kinds_key_injective(a: Seq<KindModel>, b: Seq<KindModel>)
    requires
        kinds_key(a) == kinds_key(b),
    ensures
        a == b,
    decreases a.len(),
{
    assert(kinds_key(a)[0] == if a.len() == 0 {
        0u32
    } else {
        1u32
    });
    assert(kinds_key(b)[0] == if b.len() == 0 {
        0u32
    } else {
        1u32
    });
    if a.len() == 0 {
        assert(a =~= b);
    } else {
        assert(kinds_key(a).skip(1) =~= kind_key(a[0]) + kinds_key(a.drop_first()));
        assert(kinds_key(b).skip(1) =~= kind_key(b[0]) + kinds_key(b.drop_first()));
        lemma_kind_key_split(a[0], kinds_key(a.drop_first()), b[0], kinds_key(b.drop_first()));
        lemma_kinds_key_injective(a.drop_first(), b.drop_first());
        assert(a =~= seq![a[0]] + a.drop_first());
        assert(b =~= seq![b[0]] + b.drop_first());
    }
}

/// Appends the key part of a string.
pub fn push_text_key(key: &mut Vec<u32>, text: &str)
    ensures
        final(key)@ == old(key)@ + text_key(text@),
{
    let chars = chars_of(text);
    let ghost before = key@;
    let ghost mapped = text@.map_values(|character: char| char_code(character));
    let mut index: usize = 0;
    while index < chars.len()
        invariant
            chars@ == text@,
            mapped == text@.map_values(|character: char| char_code(character)),
            index <= chars@.len(),
            key@ == before + mapped.take(index as int),
        decreases chars@.len() - index,
    {
        proof {
            char_is_scalar(chars@[index as int]);
        }
        let code: u32 = chars[index] as u32 + 1;
        key.push(code);
        index += 1;
        assert(key@ =~= before + mapped.take(index as int));
    }
    key.push(0);
    assert(mapped.take(index as int) =~= mapped);
    assert(key@ =~= before + text_key(text@));
}

/// Appends the key part of an optional string.
pub fn push_optional_key(key: &mut Vec<u32>, text: &Option<String>)
    ensures
        final(key)@ == old(key)@ + optional_key(optional_view(*text)),
{
    match text {
        None => {
            key.push(0);
        },
        Some(value) => {
            let ghost before = key@;
            key.push(1);
            push_text_key(key, value.as_str());
            assert(key@ =~= before + (seq![1u32] + text_key(value@)));
        },
    }
}

fn push_kinds_key(key: &mut Vec<u32>, kinds: &Sorted<CargoDependencyKind>)
    ensures
        final(key)@ == old(key)@ + kinds_key(kinds@),
{
    let ghost before = key@;
    let mut index: usize = 0;
    assert(kinds@.skip(0) =~= kinds@);
    while index < kinds.len()
        invariant
            index <= kinds@.len(),
            key@ + kinds_key(kinds@.skip(index as int)) == before + kinds_key(kinds@),
        decreases kinds@.len() - index,
    {
        let kind = kinds.at(index);
        let ghost here = key@;
        let ghost rest = kinds@.skip(index as int);
        key.push(1);
        push_optional_key(key, &kind.kind);
        push_optional_key(key, &kind.target);
        assert(rest[0] == kind.model());
        assert(rest.drop_first() =~= kinds@.skip(index + 1));
        assert(key@ + kinds_key(rest.drop_first()) =~= here + kinds_key(rest));
        index += 1;
    }
    assert(kinds@.skip(index as int).len() == 0);
    key.push(0);
}

impl Keyed for CargoPackage {
    type Model = PackageModel;

    open(crate) spec fn model(&self) -> PackageModel {
        PackageModel {
            id: self.id@,
            name: self.name@,
            version: self.version@,
            source: optional_view(self.source),
        }
    }

    open spec fn key(model: PackageModel) -> Seq<u32> {
        codes(model.id)
    }

    fn key_codes(&self) -> (result: Vec<u32>) {
        codes_of(self.id.as_str())
    }

    fn duplicate(&self) -> (copy: Self) {
        CargoPackage {
            id: self.id.clone(),
            name: self.name.clone(),
            version: self.version.clone(),
            source: clone_optional_text(&self.source),
        }
    }
}

impl Keyed for CargoDependencyKind {
    type Model = KindModel;

    open(crate) spec fn model(&self) -> KindModel {
        KindModel { kind: optional_view(self.kind), target: optional_view(self.target) }
    }

    open spec fn key(model: KindModel) -> Seq<u32> {
        kind_key(model)
    }

    fn key_codes(&self) -> (result: Vec<u32>) {
        let mut key: Vec<u32> = Vec::new();
        push_optional_key(&mut key, &self.kind);
        push_optional_key(&mut key, &self.target);
        assert(key@ =~= kind_key(self.model()));
        key
    }

    fn duplicate(&self) -> (copy: Self) {
        CargoDependencyKind {
            kind: clone_optional_text(&self.kind),
            target: clone_optional_text(&self.target),
        }
    }
}

impl Distinct for CargoDependencyKind {
    proof fn key_injective(left: KindModel, right: KindModel) {
        assert(kind_key(left) + Seq::<u32>::empty() =~= kind_key(left));
        assert(kind_key(right) + Seq::<u32>::empty() =~= kind_key(right));
        lemma_kind_key_split(left, Seq::empty(), right, Seq::empty());
    }
}

impl Keyed for CargoDependency {
    type Model = DependencyModel;

    open(crate) spec fn model(&self) -> DependencyModel {
        DependencyModel { name: self.name@, package: self.package@, kinds: self.kinds@ }
    }

    open spec fn key(model: DependencyModel) -> Seq<u32> {
        dependency_key(model)
    }

    fn key_codes(&self) -> (result: Vec<u32>) {
        let mut key: Vec<u32> = Vec::new();
        push_text_key(&mut key, self.name.as_str());
        push_text_key(&mut key, self.package.as_str());
        push_kinds_key(&mut key, &self.kinds);
        assert(key@ =~= dependency_key(self.model()));
        key
    }

    fn duplicate(&self) -> (copy: Self) {
        CargoDependency {
            name: self.name.clone(),
            package: self.package.clone(),
            kinds: self.kinds.duplicate(),
        }
    }
}

impl Distinct for CargoDependency {
    proof fn key_injective(left: DependencyModel, right: DependencyModel) {
        assert(dependency_key(left) =~= text_key(left.name) + (text_key(left.package) + kinds_key(
            left.kinds,
        )));
        assert(dependency_key(right) =~= text_key(right.name) + (text_key(right.package)
            + kinds_key(right.kinds)));
        lemma_text_key_split(
            left.name,
            text_key(left.package) + kinds_key(left.kinds),
            right.name,
            text_key(right.package) + kinds_key(right.kinds),
        );
        lemma_text_key_split(
            left.package,
            kinds_key(left.kinds),
            right.package,
            kinds_key(right.kinds),
        );
        lemma_kinds_key_injective(left.kinds, right.kinds);
    }
}

impl Keyed for CargoGraphEdge {
    type Model = EdgeModel;

    open(crate) spec fn model(&self) -> EdgeModel {
        EdgeModel { from: self.from@, name: self.name@, to: self.to@, kinds: self.kinds@ }
    }

    open spec fn key(model: EdgeModel) -> Seq<u32> {
        edge_key(model)
    }

    fn key_codes(&self) -> (result: Vec<u32>) {
        let mut key: Vec<u32> = Vec::new();
        push_text_key(&mut key, self.from.as_str());
        push_text_key(&mut key, self.name.as_str());
        push_text_key(&mut key, self.to.as_str());
        push_kinds_key(&mut key, &self.kinds);
        assert(key@ =~= edge_key(self.model()));
        key
    }

    fn duplicate(&self) -> (copy: Self) {
        CargoGraphEdge {
            from: self.from.clone(),
            name: self.name.clone(),
            to: self.to.clone(),
            kinds: self.kinds.duplicate(),
        }
    }
}

impl Distinct for CargoGraphEdge {
    proof fn key_injective(left: EdgeModel, right: EdgeModel) {
        let left_rest = text_key(left.to) + kinds_key(left.kinds);
        let right_rest = text_key(right.to) + kinds_key(right.kinds);
        assert(edge_key(left) =~= text_key(left.from) + (text_key(left.name) + left_rest));
        assert(edge_key(right) =~= text_key(right.from) + (text_key(right.name) + right_rest));
        lemma_text_key_split(
            left.from,
            text_key(left.name) + left_rest,
            right.from,
            text_key(right.name) + right_rest,
        );
        lemma_text_key_split(left.name, left_rest, right.name, right_rest);
        lemma_text_key_split(left.to, kinds_key(left.kinds), right.to, kinds_key(right.kinds));
        lemma_kinds_key_injective(left.kinds, right.kinds);
    }
}

impl Keyed for CargoNode {
    type Model = NodeModel;

    open(crate) spec fn model(&self) -> NodeModel {
        NodeModel { id: self.id@, dependencies: self.dependencies@, features: self.features@ }
    }

    open spec fn key(model: NodeModel) -> Seq<u32> {
        codes(model.id)
    }

    fn key_codes(&self) -> (result: Vec<u32>) {
        codes_of(self.id.as_str())
    }

    fn duplicate(&self) -> (copy: Self) {
        CargoNode {
            id: self.id.clone(),
            dependencies: self.dependencies.duplicate(),
            features: self.features.duplicate(),
        }
    }
}

// Graphs.
/// The value of a resolved graph.
pub struct GraphModel {
    /// Package records, in order of their identifiers.
    pub packages: Seq<PackageModel>,
    /// Resolve nodes, in order of their identifiers.
    pub nodes: Seq<NodeModel>,
    /// Workspace package identifiers, in order.
    pub members: Seq<Seq<char>>,
}

/// A structural, provenance, alias, or bounded-difference graph violation, by its values.
#[allow(inconsistent_fields)]
pub enum GraphDefect {
    /// Metadata did not contain a resolve graph.
    MissingResolve,
    /// Metadata repeated one package identifier.
    DuplicatePackageId {
        /// Repeated package identifier.
        package: Seq<char>,
    },
    /// Metadata repeated one resolve-node identifier.
    DuplicateNodeId {
        /// Repeated resolve-node identifier.
        package: Seq<char>,
    },
    /// A resolve node did not have a corresponding package record.
    NodePackageMissing {
        /// Resolve-node package identifier.
        package: Seq<char>,
    },
    /// A package record did not have a corresponding resolve node.
    PackageNodeMissing {
        /// Package identifier missing from the resolve graph.
        package: Seq<char>,
    },
    /// A workspace member did not have a corresponding resolve node.
    WorkspaceMemberMissing {
        /// Workspace-member package identifier.
        package: Seq<char>,
    },
    /// A dependency edge targeted an unknown package identifier.
    DependencyTargetMissing {
        /// Depending package identifier.
        from: Seq<char>,
        /// Dependency alias.
        dependency: Seq<char>,
        /// Missing target package identifier.
        target: Seq<char>,
    },
    /// The graph did not contain exactly one canonical framework package.
    FrameworkPackageCount {
        /// Framework package identifiers found, in order.
        actual: Seq<Seq<char>>,
    },
    /// Workspace members did not contain an edge to the framework package.
    RootFrameworkEdgeCount {
        /// Canonical framework package identifier.
        framework: Seq<char>,
        /// Descriptions of edges that were found.
        actual: Seq<Seq<char>>,
    },
    /// A workspace-to-framework edge used the wrong alias.
    RootAliasMismatch {
        /// Depending workspace package identifier.
        root: Seq<char>,
        /// Required stable alias.
        expected: Seq<char>,
        /// Alias reported by Cargo.
        actual: Seq<char>,
    },
    /// A reachable Omnius package had the wrong version.
    OmniusVersionMismatch {
        /// Resolved Omnius package identifier.
        package: Seq<char>,
        /// Required release version.
        expected: Seq<char>,
        /// Resolved package version.
        actual: Seq<char>,
    },
    /// A reachable Omnius package had a noncanonical source or revision.
    OmniusSourceMismatch {
        /// Resolved Omnius package identifier.
        package: Seq<char>,
        /// Required source identifier.
        expected: Seq<char>,
        /// Resolved source identifier, absent for a local package.
        actual: Option<Seq<char>>,
    },
    /// Candidate resolution changed workspace membership.
    OutOfScopeWorkspaceChange {
        /// Workspace members before resolution.
        before: Seq<Seq<char>>,
        /// Workspace members after resolution.
        after: Seq<Seq<char>>,
    },
    /// Candidate resolution changed a package outside the framework closures.
    OutOfScopePackageChange {
        /// Unrelated package identifier that changed.
        package: Seq<char>,
    },
    /// Candidate resolution changed features or edges outside the framework closures.
    OutOfScopeNodeChange {
        /// Unrelated resolve-node package identifier that changed.
        package: Seq<char>,
    },
}

/// A structural, provenance, alias, or bounded-difference graph violation.
#[allow(inconsistent_fields)]
#[derive(Debug, PartialEq, Eq)]
pub enum CargoGraphError {
    /// Metadata did not contain a resolve graph.
    MissingResolve,
    /// Metadata repeated one package identifier.
    DuplicatePackageId {
        /// Repeated package identifier.
        package: String,
    },
    /// Metadata repeated one resolve-node identifier.
    DuplicateNodeId {
        /// Repeated resolve-node identifier.
        package: String,
    },
    /// A resolve node did not have a corresponding package record.
    NodePackageMissing {
        /// Resolve-node package identifier.
        package: String,
    },
    /// A package record did not have a corresponding resolve node.
    PackageNodeMissing {
        /// Package identifier missing from the resolve graph.
        package: String,
    },
    /// A workspace member did not have a corresponding resolve node.
    WorkspaceMemberMissing {
        /// Workspace-member package identifier.
        package: String,
    },
    /// A dependency edge targeted an unknown package identifier.
    DependencyTargetMissing {
        /// Depending package identifier.
        from: String,
        /// Dependency alias.
        dependency: String,
        /// Missing target package identifier.
        target: String,
    },
    /// The graph did not contain exactly one canonical framework package.
    FrameworkPackageCount {
        /// Sorted framework package identifiers found in the graph.
        actual: Vec<String>,
    },
    /// Workspace members did not contain an edge to the framework package.
    RootFrameworkEdgeCount {
        /// Canonical framework package identifier.
        framework: String,
        /// Sorted `root:alias` descriptions of edges that were found.
        actual: Vec<String>,
    },
    /// A workspace-to-framework edge used the wrong alias.
    RootAliasMismatch {
        /// Depending workspace package identifier.
        root: String,
        /// Required stable alias.
        expected: &'static str,
        /// Alias reported by Cargo.
        actual: String,
    },
    /// A reachable Omnius package had the wrong version.
    OmniusVersionMismatch {
        /// Resolved Omnius package identifier.
        package: String,
        /// Required release version.
        expected: String,
        /// Resolved package version.
        actual: String,
    },
    /// A reachable Omnius package had a noncanonical source or revision.
    OmniusSourceMismatch {
        /// Resolved Omnius package identifier.
        package: String,
        /// Required immutable Cargo source identifier.
        expected: String,
        /// Resolved source identifier, or `None` for a local package.
        actual: Option<String>,
    },
    /// Candidate resolution changed workspace membership.
    OutOfScopeWorkspaceChange {
        /// Workspace members before resolution.
        before: TextSet,
        /// Workspace members after resolution.
        after: TextSet,
    },
    /// Candidate resolution changed a package outside the framework closures.
    OutOfScopePackageChange {
        /// Unrelated package identifier that changed.
        package: String,
    },
    /// Candidate resolution changed features or edges outside the framework closures.
    OutOfScopeNodeChange {
        /// Unrelated resolve-node package identifier that changed.
        package: String,
    },
}

impl CargoGraphError {
    /// The violation that this error reports.
    pub open spec fn defect(self) -> GraphDefect {
        match self {
            CargoGraphError::MissingResolve => GraphDefect::MissingResolve,
            CargoGraphError::DuplicatePackageId { package } => GraphDefect::DuplicatePackageId {
                package: package@,
            },
            CargoGraphError::DuplicateNodeId { package } => GraphDefect::DuplicateNodeId {
                package: package@,
            },
            CargoGraphError::NodePackageMissing { package } => GraphDefect::NodePackageMissing {
                package: package@,
            },
            CargoGraphError::PackageNodeMissing { package } => GraphDefect::PackageNodeMissing {
                package: package@,
            },
            CargoGraphError::WorkspaceMemberMissing { package } =>
                GraphDefect::WorkspaceMemberMissing { package: package@ },
            CargoGraphError::DependencyTargetMissing { from, dependency, target } =>
                GraphDefect::DependencyTargetMissing {
                    from: from@,
                    dependency: dependency@,
                    target: target@,
                },
            CargoGraphError::FrameworkPackageCount { actual } =>
                GraphDefect::FrameworkPackageCount { actual: texts(actual@) },
            CargoGraphError::RootFrameworkEdgeCount { framework, actual } =>
                GraphDefect::RootFrameworkEdgeCount {
                    framework: framework@,
                    actual: texts(actual@),
                },
            CargoGraphError::RootAliasMismatch { root, expected, actual } =>
                GraphDefect::RootAliasMismatch {
                    root: root@,
                    expected: expected@,
                    actual: actual@,
                },
            CargoGraphError::OmniusVersionMismatch { package, expected, actual } =>
                GraphDefect::OmniusVersionMismatch {
                    package: package@,
                    expected: expected@,
                    actual: actual@,
                },
            CargoGraphError::OmniusSourceMismatch { package, expected, actual } =>
                GraphDefect::OmniusSourceMismatch {
                    package: package@,
                    expected: expected@,
                    actual: optional_view(actual),
                },
            CargoGraphError::OutOfScopeWorkspaceChange { before, after } =>
                GraphDefect::OutOfScopeWorkspaceChange { before: before@, after: after@ },
            CargoGraphError::OutOfScopePackageChange { package } =>
                GraphDefect::OutOfScopePackageChange { package: package@ },
            CargoGraphError::OutOfScopeNodeChange { package } =>
                GraphDefect::OutOfScopeNodeChange { package: package@ },
        }
    }
}

/// What a fallible graph check finds.
pub open spec fn outcome<T>(result: Result<T, CargoGraphError>) -> Option<GraphDefect> {
    match result {
        Ok(_) => None,
        Err(error) => Some(error.defect()),
    }
}

/// Whether a package with identifier `id` is recorded.
pub open spec fn has_package(packages: Seq<PackageModel>, id: Seq<char>) -> bool {
    exists|i: int| 0 <= i < packages.len() && #[trigger] packages[i].id == id
}

/// The package record with identifier `id`.
pub open spec fn package_of(packages: Seq<PackageModel>, id: Seq<char>) -> Option<PackageModel> {
    if has_package(packages, id) {
        let at = choose|i: int| 0 <= i < packages.len() && #[trigger] packages[i].id == id;
        Some(packages[at])
    } else {
        None
    }
}

/// Whether a node with identifier `id` is in the resolve graph.
pub open spec fn has_node(nodes: Seq<NodeModel>, id: Seq<char>) -> bool {
    exists|i: int| 0 <= i < nodes.len() && #[trigger] nodes[i].id == id
}

/// The resolve node with identifier `id`.
pub open spec fn node_of(nodes: Seq<NodeModel>, id: Seq<char>) -> Option<NodeModel> {
    if has_node(nodes, id) {
        let at = choose|i: int| 0 <= i < nodes.len() && #[trigger] nodes[i].id == id;
        Some(nodes[at])
    } else {
        None
    }
}

pub(crate) proof fn lemma_package_at(packages: Seq<PackageModel>, at: int)
    requires
        ascending::<CargoPackage>(packages),
        0 <= at < packages.len(),
    ensures
        has_package(packages, packages[at].id),
        package_of(packages, packages[at].id) == Some(packages[at]),
{
    let id = packages[at].id;
    assert(has_package(packages, id));
    let found = choose|i: int| 0 <= i < packages.len() && #[trigger] packages[i].id == id;
    lemma_ascending_distinct::<CargoPackage>(packages);
    if found != at {
        assert(<CargoPackage as Keyed>::key(packages[found]) != <CargoPackage as Keyed>::key(
            packages[at],
        ));
    }
}

proof fn lemma_node_at(nodes: Seq<NodeModel>, at: int)
    requires
        ascending::<CargoNode>(nodes),
        0 <= at < nodes.len(),
    ensures
        has_node(nodes, nodes[at].id),
        node_of(nodes, nodes[at].id) == Some(nodes[at]),
{
    let id = nodes[at].id;
    assert(has_node(nodes, id));
    let found = choose|i: int| 0 <= i < nodes.len() && #[trigger] nodes[i].id == id;
    lemma_ascending_distinct::<CargoNode>(nodes);
    if found != at {
        assert(<CargoNode as Keyed>::key(nodes[found]) != <CargoNode as Keyed>::key(nodes[at]));
    }
}

/// The check that a node has a package record.
pub open spec fn node_recorded(packages: Seq<PackageModel>) -> spec_fn(NodeModel) -> Option<
    GraphDefect,
> {
    |node: NodeModel|
        if has_package(packages, node.id) {
            None
        } else {
            Some(GraphDefect::NodePackageMissing { package: node.id })
        }
}

/// The check that a package has a resolve node.
pub open spec fn package_resolved(nodes: Seq<NodeModel>) -> spec_fn(PackageModel) -> Option<
    GraphDefect,
> {
    |package: PackageModel|
        if has_node(nodes, package.id) {
            None
        } else {
            Some(GraphDefect::PackageNodeMissing { package: package.id })
        }
}

/// The check that a workspace member has a resolve node.
pub open spec fn member_resolved(nodes: Seq<NodeModel>) -> spec_fn(Seq<char>) -> Option<
    GraphDefect,
> {
    |member: Seq<char>|
        if has_node(nodes, member) {
            None
        } else {
            Some(GraphDefect::WorkspaceMemberMissing { package: member })
        }
}

/// The check that a dependency of `from` leads to a resolve node.
pub open spec fn target_resolved(nodes: Seq<NodeModel>, from: Seq<char>) -> spec_fn(
    DependencyModel,
) -> Option<GraphDefect> {
    |dependency: DependencyModel|
        if has_node(nodes, dependency.package) {
            None
        } else {
            Some(
                GraphDefect::DependencyTargetMissing {
                    from,
                    dependency: dependency.name,
                    target: dependency.package,
                },
            )
        }
}

/// The check that all dependencies of a node lead to resolve nodes.
pub open spec fn targets_resolved(nodes: Seq<NodeModel>) -> spec_fn(NodeModel) -> Option<
    GraphDefect,
> {
    |node: NodeModel| first_finding(node.dependencies, target_resolved(nodes, node.id))
}

impl GraphModel {
    /// The first structural defect of the graph.
    pub open spec fn structure_defect(self) -> Option<GraphDefect> {
        or_else(
            first_finding(self.nodes, node_recorded(self.packages)),
            or_else(
                first_finding(self.packages, package_resolved(self.nodes)),
                or_else(
                    first_finding(self.members, member_resolved(self.nodes)),
                    first_finding(self.nodes, targets_resolved(self.nodes)),
                ),
            ),
        )
    }

    /// Whether records, nodes, members and edges fit together.
    pub open spec fn is_consistent(self) -> bool {
        &&& ascending::<CargoPackage>(self.packages)
        &&& ascending::<CargoNode>(self.nodes)
        &&& ascending::<String>(self.members)
        &&& self.structure_defect() is None
    }

    /// Whether the package `from` has an edge to the package `to`.
    pub open spec fn depends(self, from: Seq<char>, to: Seq<char>) -> bool {
        match node_of(self.nodes, from) {
            Some(node) => exists|j: int|
                0 <= j < node.dependencies.len() && #[trigger] node.dependencies[j].package == to,
            None => false,
        }
    }

    /// Whether each package of `path` depends on the next one.
    pub open spec fn is_path(self, path: Seq<Seq<char>>) -> bool {
        &&& path.len() >= 1
        &&& forall|i: int| 0 <= i < path.len() - 1 ==> #[trigger] self.depends(path[i], path[i + 1])
    }

    /// Whether dependency edges lead from `root` to `id`.
    pub open spec fn reaches(self, root: Seq<char>, id: Seq<char>) -> bool {
        exists|path: Seq<Seq<char>>| #[trigger]
            self.is_path(path) && path[0] == root && path.last() == id
    }

    /// Whether `listing` is the sorted list of everything that `root` reaches.
    pub open spec fn is_closure(self, root: Seq<char>, listing: Seq<Seq<char>>) -> bool {
        &&& ascending::<String>(listing)
        &&& forall|id: Seq<char>| #[trigger] listing.contains(id) <==> self.reaches(root, id)
    }

    /// The sorted list of everything that `root` reaches.
    pub open spec fn closure(self, root: Seq<char>) -> Seq<Seq<char>> {
        choose|listing: Seq<Seq<char>>| self.is_closure(root, listing)
    }

    /// In a consistent graph every node has a record, every record, member and edge target has a
    /// node.
    pub proof fn lemma_consistent(self)
        requires
            self.structure_defect() is None,
        ensures
            forall|i: int|
                0 <= i < self.nodes.len() ==> has_package(
                    self.packages,
                    (#[trigger] self.nodes[i]).id,
                ),
            forall|i: int|
                0 <= i < self.packages.len() ==> has_node(
                    self.nodes,
                    (#[trigger] self.packages[i]).id,
                ),
            forall|i: int|
                0 <= i < self.members.len() ==> has_node(self.nodes, #[trigger] self.members[i]),
            forall|i: int, j: int|
                0 <= i < self.nodes.len() && 0 <= j < self.nodes[i].dependencies.len() ==> has_node(
                    self.nodes,
                    (#[trigger] self.nodes[i].dependencies[j]).package,
                ),
    {
        lemma_no_finding(self.nodes, node_recorded(self.packages));
        lemma_no_finding(self.packages, package_resolved(self.nodes));
        lemma_no_finding(self.members, member_resolved(self.nodes));
        lemma_no_finding(self.nodes, targets_resolved(self.nodes));
        assert forall|i: int| 0 <= i < self.nodes.len() implies has_package(
            self.packages,
            (#[trigger] self.nodes[i]).id,
        ) by {
            assert(node_recorded(self.packages)(self.nodes[i]) is None);
        }
        assert forall|i: int| 0 <= i < self.packages.len() implies has_node(
            self.nodes,
            (#[trigger] self.packages[i]).id,
        ) by {
            assert(package_resolved(self.nodes)(self.packages[i]) is None);
        }
        assert forall|i: int| 0 <= i < self.members.len() implies has_node(
            self.nodes,
            #[trigger] self.members[i],
        ) by {
            assert(member_resolved(self.nodes)(self.members[i]) is None);
        }
        assert forall|i: int, j: int|
            0 <= i < self.nodes.len() && 0 <= j < self.nodes[i].dependencies.len() implies has_node(
            self.nodes,
            (#[trigger] self.nodes[i].dependencies[j]).package,
        ) by {
            assert(targets_resolved(self.nodes)(self.nodes[i]) is None);
            let check = target_resolved(self.nodes, self.nodes[i].id);
            lemma_no_finding(self.nodes[i].dependencies, check);
            assert(check(self.nodes[i].dependencies[j]) is None);
        }
    }

    /// Everything reaches itself.
    pub proof fn lemma_reaches_self(self, root: Seq<char>)
        ensures
            self.reaches(root, root),
    {
        let path = seq![root];
        assert(self.is_path(path) && path[0] == root && path.last() == root);
    }

    /// What is reached reaches its dependencies.
    pub proof fn lemma_reaches_step(self, root: Seq<char>, id: Seq<char>, next: Seq<char>)
        requires
            self.reaches(root, id),
            self.depends(id, next),
        ensures
            self.reaches(root, next),
    {
        let path = choose|path: Seq<Seq<char>>| #[trigger]
            self.is_path(path) && path[0] == root && path.last() == id;
        let longer = path.push(next);
        assert forall|i: int| 0 <= i < longer.len() - 1 implies #[trigger] self.depends(
            longer[i],
            longer[i + 1],
        ) by {
            if i < path.len() - 1 {
                assert(longer[i] == path[i] && longer[i + 1] == path[i + 1]);
                assert(self.depends(path[i], path[i + 1]));
            } else {
                assert(longer[i] == path.last() && longer[i + 1] == next);
            }
        }
        assert(self.is_path(longer) && longer[0] == root && longer.last() == next);
    }

    /// A set that holds `root` and is closed under dependency holds everything `root` reaches.
    pub proof fn lemma_closed_holds(
        self,
        root: Seq<char>,
        closed: Seq<Seq<char>>,
        id: Seq<char>,
    )
        requires
            closed.contains(root),
            forall|a: Seq<char>, b: Seq<char>|
                closed.contains(a) && #[trigger] self.depends(a, b) ==> closed.contains(b),
            self.reaches(root, id),
        ensures
            closed.contains(id),
    {
        let path = choose|path: Seq<Seq<char>>| #[trigger]
            self.is_path(path) && path[0] == root && path.last() == id;
        self.lemma_path_inside(closed, path, path.len() - 1);
    }

    proof fn lemma_path_inside(self, closed: Seq<Seq<char>>, path: Seq<Seq<char>>, at: int)
        requires
            self.is_path(path),
            closed.contains(path[0]),
            forall|a: Seq<char>, b: Seq<char>|
                closed.contains(a) && #[trigger] self.depends(a, b) ==> closed.contains(b),
            0 <= at < path.len(),
        ensures
            closed.contains(path[at]),
        decreases at,
    {
        if at > 0 {
            self.lemma_path_inside(closed, path, at - 1);
            assert(self.depends(path[at - 1], path[at - 1 + 1]));
        }
    }

    /// There is at most one closure listing.
    pub proof fn lemma_closure_unique(self, root: Seq<char>, listing: Seq<Seq<char>>)
        requires
            self.is_closure(root, listing),
        ensures
            self.closure(root) == listing,
    {
        let other = self.closure(root);
        assert(self.is_closure(root, other));
        assert forall|id: Seq<char>| other.contains(id) <==> listing.contains(id) by {
            assert(other.contains(id) <==> self.reaches(root, id));
            assert(listing.contains(id) <==> self.reaches(root, id));
        }
        lemma_ascending_extensional::<String>(other, listing);
    }
}

/// Deterministic, structurally consistent package graph.
#[derive(Debug, PartialEq, Eq)]
pub struct CargoGraph {
    packages: Sorted<CargoPackage>,
    nodes: Sorted<CargoNode>,
    workspace_members: TextSet,
}

fn find_package<'a>(packages: &'a Sorted<CargoPackage>, id: &str) -> (found: Option<
    &'a CargoPackage,
>)
    ensures
        match found {
            Some(package) => package_of(packages@, id@) == Some(package.model()),
            None => package_of(packages@, id@) is None,
        },
{
    packages.use_order();
    let key = codes_of(id);
    match packages.find(&key) {
        Some(at) => {
            let package = packages.at(at);
            proof {
                lemma_codes_injective(package.model().id, id@);
                lemma_package_at(packages@, at as int);
            }
            Some(package)
        },
        None => {
            proof {
                assert forall|i: int| 0 <= i < packages@.len() implies #[trigger] packages@[i].id
                    != id@ by {
                    assert(<CargoPackage as Keyed>::key(packages@[i]) != codes(id@));
                }
            }
            None
        },
    }
}

fn find_node<'a>(nodes: &'a Sorted<CargoNode>, id: &str) -> (found: Option<&'a CargoNode>)
    ensures
        match found {
            Some(node) => node_of(nodes@, id@) == Some(node.model()),
            None => node_of(nodes@, id@) is None,
        },
{
    nodes.use_order();
    let key = codes_of(id);
    match nodes.find(&key) {
        Some(at) => {
            let node = nodes.at(at);
            proof {
                lemma_codes_injective(node.model().id, id@);
                lemma_node_at(nodes@, at as int);
            }
            Some(node)
        },
        None => {
            proof {
                assert forall|i: int| 0 <= i < nodes@.len() implies #[trigger] nodes@[i].id
                    != id@ by {
                    assert(<CargoNode as Keyed>::key(nodes@[i]) != codes(id@));
                }
            }
            None
        },
    }
}

/// Checks that records, nodes, members and edges fit together.
#[verifier::loop_isolation(false)]
fn validate_structure(
    packages: &Sorted<CargoPackage>,
    nodes: &Sorted<CargoNode>,
    members: &TextSet,
) -> (result: Result<(), CargoGraphError>)
    ensures
        outcome(result) == (GraphModel {
            packages: packages@,
            nodes: nodes@,
            members: members@,
        }).structure_defect(),
{
    let ghost recorded = node_recorded(packages@);
    let ghost resolved = package_resolved(nodes@);
    let ghost member_check = member_resolved(nodes@);
    let ghost targets = targets_resolved(nodes@);
    let mut index: usize = 0;
    while index < nodes.len()
        invariant
            index <= nodes@.len(),
            recorded == node_recorded(packages@),
            first_finding(nodes@.take(index as int), recorded) is None,
        decreases nodes@.len() - index,
    {
        let node = nodes.at(index);
        proof {
            lemma_finding_step(nodes@, index as int, recorded);
        }
        if find_package(packages, node.id.as_str()).is_none() {
            proof {
                lemma_finding_prefix(nodes@, index + 1, recorded);
            }
            return Err(CargoGraphError::NodePackageMissing { package: node.id.clone() });
        }
        index += 1;
    }
    assert(nodes@.take(index as int) =~= nodes@);
    let mut index: usize = 0;
    while index < packages.len()
        invariant
            index <= packages@.len(),
            resolved == package_resolved(nodes@),
            first_finding(packages@.take(index as int), resolved) is None,
        decreases packages@.len() - index,
    {
        let package = packages.at(index);
        proof {
            lemma_finding_step(packages@, index as int, resolved);
        }
        if find_node(nodes, package.id.as_str()).is_none() {
            proof {
                lemma_finding_prefix(packages@, index + 1, resolved);
            }
            return Err(CargoGraphError::PackageNodeMissing { package: package.id.clone() });
        }
        index += 1;
    }
    assert(packages@.take(index as int) =~= packages@);
    let mut index: usize = 0;
    while index < members.len()
        invariant
            index <= members@.len(),
            member_check == member_resolved(nodes@),
            first_finding(members@.take(index as int), member_check) is None,
        decreases members@.len() - index,
    {
        let member = members.at(index);
        proof {
            lemma_finding_step(members@, index as int, member_check);
        }
        if find_node(nodes, member.as_str()).is_none() {
            proof {
                lemma_finding_prefix(members@, index + 1, member_check);
            }
            return Err(CargoGraphError::WorkspaceMemberMissing { package: member.clone() });
        }
        index += 1;
    }
    assert(members@.take(index as int) =~= members@);
    let mut index: usize = 0;
    while index < nodes.len()
        invariant
            index <= nodes@.len(),
            targets == targets_resolved(nodes@),
            first_finding(nodes@.take(index as int), targets) is None,
        decreases nodes@.len() - index,
    {
        let node = nodes.at(index);
        proof {
            lemma_finding_step(nodes@, index as int, targets);
        }
        match validate_targets(nodes, node) {
            Ok(()) => {},
            Err(error) => {
                proof {
                    lemma_finding_prefix(nodes@, index + 1, targets);
                }
                return Err(error);
            },
        }
        index += 1;
    }
    assert(nodes@.take(index as int) =~= nodes@);
    Ok(())
}

fn validate_targets(nodes: &Sorted<CargoNode>, node: &CargoNode) -> (result: Result<
    (),
    CargoGraphError,
>)
    ensures
        outcome(result) == targets_resolved(nodes@)(node.model()),
{
    let ghost check = target_resolved(nodes@, node.id@);
    let ghost list = node.dependencies@;
    let mut index: usize = 0;
    while index < node.dependencies.len()
        invariant
            list == node.dependencies@,
            check == target_resolved(nodes@, node.id@),
            index <= list.len(),
            first_finding(list.take(index as int), check) is None,
        decreases list.len() - index,
    {
        let dependency = node.dependencies.at(index);
        proof {
            lemma_finding_step(list, index as int, check);
        }
        if find_node(nodes, dependency.package.as_str()).is_none() {
            proof {
                lemma_finding_prefix(list, index + 1, check);
            }
            return Err(
                CargoGraphError::DependencyTargetMissing {
                    from: node.id.clone(),
                    dependency: dependency.name.clone(),
                    target: dependency.package.clone(),
                },
            );
        }
        index += 1;
    }
    assert(list.take(index as int) =~= list);
    Ok(())
}

impl CargoGraph {
    /// The value of this graph.
    pub closed spec fn view(&self) -> GraphModel {
        GraphModel {
            packages: self.packages@,
            nodes: self.nodes@,
            members: self.workspace_members@,
        }
    }

    #[verifier::type_invariant]
    closed spec fn consistent(self) -> bool {
        self@.is_consistent()
    }

    /// Returns the resolved package graph without any package.
    pub fn empty() -> (graph: Self)
        ensures
            graph@.packages.len() == 0,
            graph@.nodes.len() == 0,
            graph@.members.len() == 0,
            graph@.is_consistent(),
    {
        let packages: Sorted<CargoPackage> = Sorted::new();
        let nodes: Sorted<CargoNode> = Sorted::new();
        let workspace_members: TextSet = Sorted::new();
        packages.use_order();
        nodes.use_order();
        workspace_members.use_order();
        CargoGraph { packages, nodes, workspace_members }
    }

    /// Assembles a graph, or reports its first structural defect.
    pub(crate) fn assemble(
        packages: Sorted<CargoPackage>,
        nodes: Sorted<CargoNode>,
        workspace_members: TextSet,
    ) -> (result: Result<Self, CargoGraphError>)
        ensures
            outcome(result) == (GraphModel {
                packages: packages@,
                nodes: nodes@,
                members: workspace_members@,
            }).structure_defect(),
            result matches Ok(graph) ==> graph@.is_consistent() && graph@ == (GraphModel {
                packages: packages@,
                nodes: nodes@,
                members: workspace_members@,
            }),
    {
        match validate_structure(&packages, &nodes, &workspace_members) {
            Ok(()) => {},
            Err(error) => {
                return Err(error);
            },
        }
        packages.use_order();
        nodes.use_order();
        workspace_members.use_order();
        Ok(CargoGraph { packages, nodes, workspace_members })
    }

    /// Returns the package record with identifier `id`.
    pub fn package(&self, id: &str) -> (found: Option<&CargoPackage>)
        ensures
            match found {
                Some(package) => package_of(self@.packages, id@) == Some(package.model()),
                None => package_of(self@.packages, id@) is None,
            },
    {
        find_package(&self.packages, id)
    }

    /// Returns the resolve node with identifier `id`.
    pub fn node(&self, id: &str) -> (found: Option<&CargoNode>)
        ensures
            match found {
                Some(node) => node_of(self@.nodes, id@) == Some(node.model()),
                None => node_of(self@.nodes, id@) is None,
            },
    {
        find_node(&self.nodes, id)
    }

    /// Returns packages in order of their identifiers.
    pub fn packages(&self) -> (packages: &Sorted<CargoPackage>)
        ensures
            packages@ == self@.packages,
            self@.is_consistent(),
    {
        proof {
            use_type_invariant(self);
        }
        &self.packages
    }

    /// Returns resolve nodes in order of their identifiers.
    pub fn nodes(&self) -> (nodes: &Sorted<CargoNode>)
        ensures
            nodes@ == self@.nodes,
            self@.is_consistent(),
    {
        proof {
            use_type_invariant(self);
        }
        &self.nodes
    }

    /// Returns the workspace package identifiers.
    pub fn workspace_members(&self) -> (members: &TextSet)
        ensures
            members@ == self@.members,
            self@.is_consistent(),
    {
        proof {
            use_type_invariant(self);
        }
        &self.workspace_members
    }

    /// Collects everything that `root` reaches.
    pub fn dependency_closure(&self, root: &str) -> (result: Result<TextSet, CargoGraphError>)
        ensures
            match result {
                Ok(closure) => has_node(self@.nodes, root@) && self@.is_closure(root@, closure@)
                    && closure@ == self@.closure(root@),
                Err(error) => !has_node(self@.nodes, root@) && error.defect()
                    == (GraphDefect::PackageNodeMissing { package: root@ }),
            },
    {
        proof {
            use_type_invariant(self);
        }
        let ghost graph = self@;
        if find_node(&self.nodes, root).is_none() {
            return Err(CargoGraphError::PackageNodeMissing { package: root.to_owned() });
        }
        let mut closure: TextSet = Sorted::new();
        let mut pending: Vec<String> = Vec::new();
        pending.push(root.to_owned());
        closure.use_order();
        proof {
            graph.lemma_reaches_self(root@);
            graph.lemma_consistent();
            assert(texts(pending@)[0] == root@);
            assert(texts(pending@).contains(root@));
            lemma_ids_bound(graph.nodes, closure@);
        }
        while pending.len() > 0
            invariant
                graph == self@,
                graph.is_consistent(),
                has_node(graph.nodes, root@),
                ascending::<String>(closure@),
                closure@.contains(root@) || texts(pending@).contains(root@),
                forall|id: Seq<char>|
                    #![trigger closure@.contains(id)]
                    closure@.contains(id) ==> has_node(graph.nodes, id) && graph.reaches(root@, id),
                forall|id: Seq<char>|
                    #![trigger texts(pending@).contains(id)]
                    texts(pending@).contains(id) ==> has_node(graph.nodes, id) && graph.reaches(
                        root@,
                        id,
                    ),
                forall|a: Seq<char>, b: Seq<char>|
                    closure@.contains(a) && #[trigger] graph.depends(a, b) ==> closure@.contains(b)
                        || texts(pending@).contains(b),
                closure@.len() <= graph.nodes.len(),
            decreases graph.nodes.len() - closure@.len(), pending@.len(),
        {
            let ghost waiting = texts(pending@);
            let ghost seen = closure@;
            let popped = pending.pop();
            let id = match popped {
                Some(id) => id,
                None => {
                    return Err(CargoGraphError::PackageNodeMissing { package: root.to_owned() });
                },
            };
            let ghost rest = texts(pending@);
            proof {
                assert(waiting.last() == id@);
                assert(waiting =~= rest.push(id@));
                assert(waiting[waiting.len() - 1] == id@);
                assert(waiting.contains(id@));
                assert forall|other: Seq<char>| waiting.contains(other) implies rest.contains(other)
                    || other == id@ by {
                    let k = choose|k: int| 0 <= k < waiting.len() && waiting[k] == other;
                    if k < rest.len() {
                        assert(rest[k] == other);
                    }
                }
                assert forall|other: Seq<char>| rest.contains(other) implies waiting.contains(
                    other,
                ) by {
                    let k = choose|k: int| 0 <= k < rest.len() && rest[k] == other;
                    assert(waiting[k] == other);
                }
            }
            if !set_add(&mut closure, id.as_str()) {
                continue;
            }
            proof {
                assert forall|i: int| 0 <= i < closure@.len() implies has_node(
                    graph.nodes,
                    #[trigger] closure@[i],
                ) by {
                    assert(closure@.contains(closure@[i]));
                }
                lemma_ids_bound(graph.nodes, closure@);
            }
            match find_node(&self.nodes, id.as_str()) {
                Some(node) => {
                    let mut index: usize = 0;
                    let ghost list = node.dependencies@;
                    proof {
                        assert(node.model().dependencies == list);
                    }
                    while index < node.dependencies.len()
                        invariant
                            graph == self@,
                            graph.is_consistent(),
                            list == node.dependencies@,
                            list == node.model().dependencies,
                            node_of(graph.nodes, id@) == Some(node.model()),
                            graph.reaches(root@, id@),
                            index <= list.len(),
                            forall|other: Seq<char>|
                                #![trigger texts(pending@).contains(other)]
                                texts(pending@).contains(other) ==> has_node(graph.nodes, other)
                                    && graph.reaches(root@, other),
                            forall|other: Seq<char>|
                                #![trigger rest.contains(other)]
                                rest.contains(other) ==> texts(pending@).contains(other),
                            forall|j: int|
                                0 <= j < index ==> texts(pending@).contains(
                                    (#[trigger] list[j]).package,
                                ),
                        decreases list.len() - index,
                    {
                        let dependency = node.dependencies.at(index);
                        let ghost before = texts(pending@);
                        pending.push(dependency.package.clone());
                        proof {
                            let target = dependency.package@;
                            assert(list[index as int] == dependency.model());
                            assert(list[index as int].package == target);
                            let value = node_of(graph.nodes, id@)->Some_0;
                            assert(value == node.model());
                            assert(0 <= index < value.dependencies.len());
                            assert(value.dependencies[index as int].package == target);
                            assert(graph.depends(id@, target));
                            graph.lemma_reaches_step(root@, id@, target);
                            graph.lemma_consistent();
                            let at = choose|i: int|
                                0 <= i < graph.nodes.len() && #[trigger] graph.nodes[i].id == id@;
                            assert(graph.nodes[at] == node.model());
                            assert(has_node(graph.nodes, graph.nodes[at].dependencies[index as int].package));
                            let after = texts(pending@);
                            assert(after =~= before.push(target));
                            assert(after[before.len() as int] == target);
                            assert forall|other: Seq<char>| before.contains(
                                other,
                            ) implies after.contains(other) by {
                                let k = choose|k: int| 0 <= k < before.len() && before[k] == other;
                                assert(after[k] == other);
                            }
                            assert forall|other: Seq<char>| after.contains(
                                other,
                            ) implies before.contains(other) || other == target by {
                                let k = choose|k: int| 0 <= k < after.len() && after[k] == other;
                                if k < before.len() {
                                    assert(before[k] == other);
                                }
                            }
                        }
                        index += 1;
                    }
                    proof {
                        assert forall|a: Seq<char>, b: Seq<char>|
                            closure@.contains(a) && #[trigger] graph.depends(
                                a,
                                b,
                            ) implies closure@.contains(b) || texts(pending@).contains(b) by {
                            if a == id@ {
                                let j = choose|j: int|
                                    0 <= j < node.model().dependencies.len()
                                        && #[trigger] node.model().dependencies[j].package == b;
                                assert(list[j].package == b);
                            } else {
                                assert(seen.contains(a));
                                assert(seen.contains(b) || waiting.contains(b));
                                if !seen.contains(b) && b != id@ {
                                    assert(rest.contains(b));
                                }
                            }
                        }
                    }
                },
                None => {
                    assert(false);
                },
            }
        }
        proof {
            assert forall|id: Seq<char>| #[trigger] closure@.contains(id) <==> graph.reaches(
                root@,
                id,
            ) by {
                if graph.reaches(root@, id) {
                    graph.lemma_closed_holds(root@, closure@, id);
                }
            }
            graph.lemma_closure_unique(root@, closure@);
        }
        Ok(closure)
    }
}

/// Distinct identifiers of nodes are at most as many as the nodes.
proof fn lemma_ids_bound(nodes: Seq<NodeModel>, ids: Seq<Seq<char>>)
    requires
        ascending::<String>(ids),
        forall|i: int| 0 <= i < ids.len() ==> has_node(nodes, #[trigger] ids[i]),
    ensures
        ids.len() <= nodes.len(),
{
    lemma_ascending_distinct::<String>(ids);
    assert(ids.no_duplicates());
    let names = nodes.map_values(|node: NodeModel| node.id);
    ids.unique_seq_to_set();
    assert(ids.to_set().subset_of(names.to_set())) by {
        assert forall|id: Seq<char>| ids.to_set().contains(id) implies names.to_set().contains(
            id,
        ) by {
            let k = choose|k: int| 0 <= k < ids.len() && ids[k] == id;
            assert(has_node(nodes, ids[k]));
            let i = choose|i: int| 0 <= i < nodes.len() && #[trigger] nodes[i].id == ids[k];
            assert(names[i] == id);
        }
    }
    vstd::set_lib::lemma_len_subset(ids.to_set(), names.to_set());
    names.lemma_cardinality_of_set();
}

impl GraphDefect {
    /// The diagnostic text.
    pub open spec fn text(self) -> Seq<char> {
        match self {
            GraphDefect::MissingResolve =>
                "Cargo metadata did not include a resolve graph; run metadata without --no-deps"@,
            GraphDefect::DuplicatePackageId { package } =>
                "Cargo metadata repeated package identifier `"@ + package + "`"@,
            GraphDefect::DuplicateNodeId { package } =>
                "Cargo metadata repeated resolve-node identifier `"@ + package + "`"@,
            GraphDefect::NodePackageMissing { package } => "resolve node `"@ + package
                + "` has no corresponding package record"@,
            GraphDefect::PackageNodeMissing { package } => "package `"@ + package
                + "` has no corresponding resolve node"@,
            GraphDefect::WorkspaceMemberMissing { package } => "workspace member `"@ + package
                + "` has no corresponding resolve node"@,
            GraphDefect::DependencyTargetMissing { from, dependency, target } => "dependency `"@
                + dependency + "` from `"@ + from + "` targets unknown package `"@ + target
                + "`"@,
            GraphDefect::FrameworkPackageCount { actual } =>
                "resolved graph must contain exactly one `omnius-service-kit` package; found "@
                    + decimal(actual.len()) + " ("@ + joined(actual, ", "@) + ")"@,
            GraphDefect::RootFrameworkEdgeCount { framework, actual } =>
                "workspace members must contain at least one dependency edge to framework package `"@
                    + framework + "`; found "@ + decimal(actual.len()) + " ("@ + joined(
                    actual,
                    ", "@,
                ) + ")"@,
            GraphDefect::RootAliasMismatch { root, expected, actual } => "workspace package `"@
                + root + "` must depend on the framework through alias `"@ + expected
                + "`, got `"@ + actual + "`"@,
            GraphDefect::OmniusVersionMismatch { package, expected, actual } =>
                "reachable Omnius package `"@ + package + "` must have version `"@ + expected
                    + "`, got `"@ + actual + "`"@,
            GraphDefect::OmniusSourceMismatch { package, expected, actual } =>
                "reachable Omnius package `"@ + package + "` must have source `"@ + expected
                    + "`, got `"@ + (match actual {
                    Some(source) => source,
                    None => "<local/path>"@,
                }) + "`"@,
            GraphDefect::OutOfScopeWorkspaceChange { before, after } =>
                "framework resolution changed workspace members outside its mutable scope: before ["@
                    + joined(before, ", "@) + "], after ["@ + joined(after, ", "@) + "]"@,
            GraphDefect::OutOfScopePackageChange { package } =>
                "framework resolution changed unrelated package record `"@ + package + "`"@,
            GraphDefect::OutOfScopeNodeChange { package } =>
                "framework resolution changed unrelated features or dependency edges for `"@
                    + package + "`"@,
        }
    }
}

impl CargoGraphError {
    /// Returns the diagnostic text.
    pub fn message(&self) -> (text: String)
        ensures
            text@ == self.defect().text(),
    {
        match self {
            CargoGraphError::MissingResolve =>
                "Cargo metadata did not include a resolve graph; run metadata without --no-deps".to_owned(),
            CargoGraphError::DuplicatePackageId { package } => join3(
                "Cargo metadata repeated package identifier `",
                package.as_str(),
                "`",
            ),
            CargoGraphError::DuplicateNodeId { package } => join3(
                "Cargo metadata repeated resolve-node identifier `",
                package.as_str(),
                "`",
            ),
            CargoGraphError::NodePackageMissing { package } => join3(
                "resolve node `",
                package.as_str(),
                "` has no corresponding package record",
            ),
            CargoGraphError::PackageNodeMissing { package } => join3(
                "package `",
                package.as_str(),
                "` has no corresponding resolve node",
            ),
            CargoGraphError::WorkspaceMemberMissing { package } => join3(
                "workspace member `",
                package.as_str(),
                "` has no corresponding resolve node",
            ),
            CargoGraphError::DependencyTargetMissing { from, dependency, target } => join7(
                "dependency `",
                dependency.as_str(),
                "` from `",
                from.as_str(),
                "` targets unknown package `",
                target.as_str(),
                "`",
            ),
            CargoGraphError::FrameworkPackageCount { actual } => {
                let count = decimal_text(actual.len() as u64);
                let list = join_texts(actual, ", ");
                join5(
                    "resolved graph must contain exactly one `omnius-service-kit` package; found ",
                    count.as_str(),
                    " (",
                    list.as_str(),
                    ")",
                )
            },
            CargoGraphError::RootFrameworkEdgeCount { framework, actual } => {
                let count = decimal_text(actual.len() as u64);
                let list = join_texts(actual, ", ");
                join7(
                    "workspace members must contain at least one dependency edge to framework package `",
                    framework.as_str(),
                    "`; found ",
                    count.as_str(),
                    " (",
                    list.as_str(),
                    ")",
                )
            },
            CargoGraphError::RootAliasMismatch { root, expected, actual } => join7(
                "workspace package `",
                root.as_str(),
                "` must depend on the framework through alias `",
                expected,
                "`, got `",
                actual.as_str(),
                "`",
            ),
            CargoGraphError::OmniusVersionMismatch { package, expected, actual } => join7(
                "reachable Omnius package `",
                package.as_str(),
                "` must have version `",
                expected.as_str(),
                "`, got `",
                actual.as_str(),
                "`",
            ),
            CargoGraphError::OmniusSourceMismatch { package, expected, actual } => {
                let source = match actual {
                    Some(source) => source.as_str(),
                    None => "<local/path>",
                };
                join7(
                    "reachable Omnius package `",
                    package.as_str(),
                    "` must have source `",
                    expected.as_str(),
                    "`, got `",
                    source,
                    "`",
                )
            },
            CargoGraphError::OutOfScopeWorkspaceChange { before, after } => {
                let before_list = join_set(before);
                let after_list = join_set(after);
                join5(
                    "framework resolution changed workspace members outside its mutable scope: before [",
                    before_list.as_str(),
                    "], after [",
                    after_list.as_str(),
                    "]",
                )
            },
            CargoGraphError::OutOfScopePackageChange { package } => join3(
                "framework resolution changed unrelated package record `",
                package.as_str(),
                "`",
            ),
            CargoGraphError::OutOfScopeNodeChange { package } => join3(
                "framework resolution changed unrelated features or dependency edges for `",
                package.as_str(),
                "`",
            ),
        }
    }
}

/// Joins a set of strings with commas.
pub fn join_set(values: &TextSet) -> (text: String)
    ensures
        text@ == joined(values@, ", "@),
{
    let items = values.items();
    assert(models(items@) =~= texts(items@));
    join_texts(items, ", ")
}

/// Returns an optional string as a slice.
pub(crate) fn optional_str(text: &Option<String>) -> (result: Option<&str>)
    ensures
        match result {
            Some(value) => optional_view(*text) == Some(value@),
            None => optional_view(*text) is None,
        },
{
    match text {
        Some(value) => Some(value.as_str()),
        None => None,
    }
}

impl CargoPackage {
    /// Returns Cargo's stable package identifier.
    pub fn id(&self) -> (id: &str)
        ensures
            id@ == self.model().id,
    {
        self.id.as_str()
    }

    /// Returns the package name.
    pub fn name(&self) -> (name: &str)
        ensures
            name@ == self.model().name,
    {
        self.name.as_str()
    }

    /// Returns the package version.
    pub fn version(&self) -> (version: &str)
        ensures
            version@ == self.model().version,
    {
        self.version.as_str()
    }

    /// Returns Cargo's source identifier for non-workspace packages.
    pub fn source(&self) -> (source: Option<&str>)
        ensures
            match source {
                Some(value) => self.model().source == Some(value@),
                None => self.model().source is None,
            },
    {
        optional_str(&self.source)
    }
}

impl CargoDependencyKind {
    /// Returns the Cargo dependency kind; `None` is the normal kind.
    pub fn kind(&self) -> (kind: Option<&str>)
        ensures
            match kind {
                Some(value) => self.model().kind == Some(value@),
                None => self.model().kind is None,
            },
    {
        optional_str(&self.kind)
    }

    /// Returns the optional target-platform expression.
    pub fn target(&self) -> (target: Option<&str>)
        ensures
            match target {
                Some(value) => self.model().target == Some(value@),
                None => self.model().target is None,
            },
    {
        optional_str(&self.target)
    }
}

impl CargoDependency {
    /// Returns the dependency alias.
    pub fn name(&self) -> (name: &str)
        ensures
            name@ == self.model().name,
    {
        self.name.as_str()
    }

    /// Returns the target package identifier.
    pub fn package(&self) -> (package: &str)
        ensures
            package@ == self.model().package,
    {
        self.package.as_str()
    }

    /// Returns all resolved dependency contexts for this edge.
    pub fn kinds(&self) -> (kinds: &Sorted<CargoDependencyKind>)
        ensures
            kinds@ == self.model().kinds,
    {
        &self.kinds
    }
}

impl CargoNode {
    /// Returns the stable package identifier.
    pub fn id(&self) -> (id: &str)
        ensures
            id@ == self.model().id,
    {
        self.id.as_str()
    }

    /// Returns the node's resolved dependency edges.
    pub fn dependencies(&self) -> (dependencies: &Sorted<CargoDependency>)
        ensures
            dependencies@ == self.model().dependencies,
    {
        &self.dependencies
    }

    /// Returns the features enabled for this package.
    pub fn features(&self) -> (features: &TextSet)
        ensures
            features@ == self.model().features,
    {
        &self.features
    }
}

impl CargoGraphEdge {
    /// Returns the depending package identifier.
    pub fn from(&self) -> (from: &str)
        ensures
            from@ == self.model().from,
    {
        self.from.as_str()
    }

    /// Returns the dependency alias.
    pub fn name(&self) -> (name: &str)
        ensures
            name@ == self.model().name,
    {
        self.name.as_str()
    }

    /// Returns the target package identifier.
    pub fn to(&self) -> (to: &str)
        ensures
            to@ == self.model().to,
    {
        self.to.as_str()
    }

    /// Returns all dependency contexts represented by the edge.
    pub fn kinds(&self) -> (kinds: &Sorted<CargoDependencyKind>)
        ensures
            kinds@ == self.model().kinds,
    {
        &self.kinds
    }
}

} // verus!
