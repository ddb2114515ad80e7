//! Where the framework stands in a resolved graph, and whether it stands there as it must.

use vstd::prelude::*;
use vstd::string::*;

use crate::cargo_graph::{
    has_node, has_package, node_of, outcome, package_of, CargoGraph, CargoGraphError, CargoNode,
    GraphDefect, GraphModel, PackageModel, DependencyModel, FRAMEWORK_PACKAGE, ROOT_FRAMEWORK_ALIAS,
};
use crate::findings::{first_finding, lemma_finding_prefix, lemma_finding_step, or_else};
use crate::ordered::{set_holds, Keyed};
use crate::release::{ReleaseIdentity, ReleaseModel};
use crate::text::{
    chars_of, clone_optional_text, contains_text, join6, occurs, same_text, starts_with, texts,
};

verus! {

/// A character of a package name with hyphens read as underscores.
pub open spec fn normalized_name_char(character: char) -> char {
    if character == '-' {
        '_'
    } else {
        character
    }
}

/// Whether Cargo treats two names as the same.
pub open spec fn names_equal(left: Seq<char>, right: Seq<char>) -> bool {
    &&& left.len() == right.len()
    &&& forall|i: int|
        0 <= i < left.len() ==> normalized_name_char(#[trigger] left[i]) == normalized_name_char(
            right[i],
        )
}

/// Returns whether Cargo treats two names as the same.
pub fn cargo_names_equal(left: &str, right: &str) -> (same: bool)
    ensures
        same == names_equal(left@, right@),
{
    let left_chars = chars_of(left);
    let right_chars = chars_of(right);
    if left_chars.len() != right_chars.len() {
        return false;
    }
    let mut index: usize = 0;
    while index < left_chars.len()
        invariant
            left_chars@ == left@,
            right_chars@ == right@,
            left@.len() == right@.len(),
            index <= left@.len(),
            forall|i: int|
                0 <= i < index ==> normalized_name_char(#[trigger] left@[i])
                    == normalized_name_char(right@[i]),
        decreases left@.len() - index,
    {
        if normalize_cargo_name_char(left_chars[index]) != normalize_cargo_name_char(
            right_chars[index],
        ) {
            assert(normalized_name_char(left@[index as int]) != normalized_name_char(
                right@[index as int],
            ));
            return false;
        }
        index += 1;
    }
    true
}

fn normalize_cargo_name_char(character: char) -> (normalized: char)
    ensures
        normalized == normalized_name_char(character),
{
    if character == '-' {
        '_'
    } else {
        character
    }
}

/// Whether a package belongs to the Omnius family by its name.
pub open spec fn is_omnius_name(name: Seq<char>) -> bool {
    "omnius-"@.is_prefix_of(name)
}

/// Whether a package can be the framework: by its name, or in a legacy layout by its place.
pub open spec fn is_framework_candidate(package: PackageModel, legacy: bool) -> bool {
    if legacy {
        package.source is None && occurs("workspace+crates/service-kit/Cargo.toml#"@, package.id)
    } else {
        package.name == FRAMEWORK_PACKAGE@
    }
}

/// The identifiers of the packages that can be the framework, in order.
pub open spec fn framework_ids(packages: Seq<PackageModel>, legacy: bool) -> Seq<Seq<char>>
    decreases packages.len(),
{
    if packages.len() == 0 {
        Seq::empty()
    } else {
        let before = framework_ids(packages.drop_last(), legacy);
        if is_framework_candidate(packages.last(), legacy) {
            before.push(packages.last().id)
        } else {
            before
        }
    }
}

/// The framework identifiers are those of the recorded candidates.
pub proof fn lemma_framework_ids(packages: Seq<PackageModel>, legacy: bool)
    ensures
        forall|k: int|
            0 <= k < framework_ids(packages, legacy).len() ==> has_package(
                packages,
                #[trigger] framework_ids(packages, legacy)[k],
            ),
    decreases packages.len(),
{
    if packages.len() > 0 {
        lemma_framework_ids(packages.drop_last(), legacy);
        let shorter = packages.drop_last();
        let ids = framework_ids(packages, legacy);
        let before = framework_ids(shorter, legacy);
        assert forall|k: int| 0 <= k < ids.len() implies has_package(packages, #[trigger] ids[k]) by {
            if k < before.len() {
                assert(ids[k] == before[k]);
                assert(has_package(shorter, before[k]));
                let i = choose|i: int| 0 <= i < shorter.len() && #[trigger] shorter[i].id
                    == before[k];
                assert(packages[i].id == ids[k]);
            } else {
                assert(packages[packages.len() - 1].id == ids[k]);
            }
        }
    }
}

/// The check that an edge of `root` to the framework uses the required alias.
pub open spec fn alias_check(root: Seq<char>, framework: Seq<char>) -> spec_fn(
    DependencyModel,
) -> Option<GraphDefect> {
    |dependency: DependencyModel|
        if dependency.package == framework && !names_equal(
            dependency.name,
            ROOT_FRAMEWORK_ALIAS@,
        ) {
            Some(
                GraphDefect::RootAliasMismatch {
                    root,
                    expected: ROOT_FRAMEWORK_ALIAS@,
                    actual: dependency.name,
                },
            )
        } else {
            None
        }
}

/// The check that a workspace member reaches the framework under the required alias only.
pub open spec fn member_alias_check(graph: GraphModel, framework: Seq<char>) -> spec_fn(
    Seq<char>,
) -> Option<GraphDefect> {
    |member: Seq<char>|
        match node_of(graph.nodes, member) {
            Some(node) => first_finding(node.dependencies, alias_check(node.id, framework)),
            None => None,
        }
}

/// Whether a workspace member depends on the framework.
pub open spec fn has_root_edge(graph: GraphModel, framework: Seq<char>) -> bool {
    exists|i: int|
        0 <= i < graph.members.len() && graph.depends(#[trigger] graph.members[i], framework)
}

/// What is wrong with the workspace's edges to the framework.
pub open spec fn root_edge_defect(graph: GraphModel, framework: Seq<char>) -> Option<GraphDefect> {
    if !has_root_edge(graph, framework) {
        Some(GraphDefect::RootFrameworkEdgeCount { framework, actual: Seq::empty() })
    } else {
        first_finding(graph.members, member_alias_check(graph, framework))
    }
}

/// The source identifier of the packages of a release.
pub open spec fn canonical_source(release: ReleaseModel) -> Seq<char> {
    "git+"@ + release.repository + "?rev="@ + release.revision + "#"@ + release.revision
}

/// The check that a package, if it is of the Omnius family, is that of the release.
pub open spec fn release_check(graph: GraphModel, release: ReleaseModel) -> spec_fn(
    Seq<char>,
) -> Option<GraphDefect> {
    |id: Seq<char>|
        match package_of(graph.packages, id) {
            None => Some(GraphDefect::NodePackageMissing { package: id }),
            Some(package) => if !is_omnius_name(package.name) {
                None
            } else if package.version != release.version {
                Some(
                    GraphDefect::OmniusVersionMismatch {
                        package: package.id,
                        expected: release.version,
                        actual: package.version,
                    },
                )
            } else if package.source != Some(canonical_source(release)) {
                Some(
                    GraphDefect::OmniusSourceMismatch {
                        package: package.id,
                        expected: canonical_source(release),
                        actual: package.source,
                    },
                )
            } else {
                None
            },
        }
}

/// What keeps a graph from resolving the framework of `release`.
pub open spec fn framework_defect(graph: GraphModel, release: ReleaseModel) -> Option<
    GraphDefect,
> {
    let ids = framework_ids(graph.packages, false);
    if ids.len() != 1 {
        Some(GraphDefect::FrameworkPackageCount { actual: ids })
    } else {
        or_else(
            root_edge_defect(graph, ids[0]),
            first_finding(graph.closure(ids[0]), release_check(graph, release)),
        )
    }
}

/// The check that an Omnius package is local and inside the legacy framework closure.
pub open spec fn legacy_package_check(graph: GraphModel, framework: Seq<char>) -> spec_fn(
    PackageModel,
) -> Option<GraphDefect> {
    |package: PackageModel|
        if is_omnius_name(package.name) && (package.source is Some || !graph.reaches(
            framework,
            package.id,
        )) {
            Some(
                GraphDefect::OmniusSourceMismatch {
                    package: package.id,
                    expected: "the verified legacy local framework closure"@,
                    actual: package.source,
                },
            )
        } else {
            None
        }
}

/// What keeps a graph from holding a legacy local framework closure.
pub open spec fn legacy_framework_defect(graph: GraphModel) -> Option<GraphDefect> {
    let ids = framework_ids(graph.packages, true);
    if ids.len() != 1 {
        Some(GraphDefect::FrameworkPackageCount { actual: ids })
    } else {
        or_else(
            root_edge_defect(graph, ids[0]),
            first_finding(graph.packages, legacy_package_check(graph, ids[0])),
        )
    }
}

/// Renders the source identifier of the packages of a release.
pub fn canonical_git_source(release: &ReleaseIdentity) -> (source: String)
    ensures
        source@ == canonical_source(release@),
{
    join6("git+", release.repository(), "?rev=", release.revision(), "#", release.revision())
}

impl CargoGraph {
    /// Collects the identifiers of the packages that can be the framework.
    pub fn framework_candidates(&self, legacy: bool) -> (ids: Vec<String>)
        ensures
            texts(ids@) == framework_ids(self@.packages, legacy),
            self@.is_consistent(),
    {
        let packages = self.packages();
        let mut ids: Vec<String> = Vec::new();
        let mut index: usize = 0;
        assert(texts(ids@) =~= framework_ids(packages@.take(0), legacy));
        while index < packages.len()
            invariant
                index <= packages@.len(),
                texts(ids@) == framework_ids(packages@.take(index as int), legacy),
            decreases packages@.len() - index,
        {
            let package = packages.at(index);
            assert(packages@.take(index + 1).drop_last() =~= packages@.take(index as int));
            assert(packages@.take(index + 1).last() == package.model());
            let candidate = if legacy {
                package.source.is_none() && contains_text(
                    package.id.as_str(),
                    "workspace+crates/service-kit/Cargo.toml#",
                )
            } else {
                same_text(package.name.as_str(), FRAMEWORK_PACKAGE)
            };
            if candidate {
                let ghost before = texts(ids@);
                ids.push(package.id.clone());
                assert(texts(ids@) =~= before.push(package.id@));
            }
            index += 1;
        }
        assert(packages@.take(index as int) =~= packages@);
        ids
    }

    /// Returns the identifier of the only framework package.
    pub fn unique_framework_id(&self) -> (result: Result<String, CargoGraphError>)
        ensures
            ({
                let ids = framework_ids(self@.packages, false);
                match result {
                    Ok(id) => ids.len() == 1 && id@ == ids[0] && has_node(self@.nodes, id@),
                    Err(error) => ids.len() != 1 && error.defect() == (
                    GraphDefect::FrameworkPackageCount { actual: ids }),
                }
            }),
    {
        self.only_framework(false)
    }

    fn only_framework(&self, legacy: bool) -> (result: Result<String, CargoGraphError>)
        ensures
            ({
                let ids = framework_ids(self@.packages, legacy);
                match result {
                    Ok(id) => ids.len() == 1 && id@ == ids[0] && has_node(self@.nodes, id@),
                    Err(error) => ids.len() != 1 && error.defect() == (
                    GraphDefect::FrameworkPackageCount { actual: ids }),
                }
            }),
    {
        let ids = self.framework_candidates(legacy);
        if ids.len() != 1 {
            assert(framework_ids(self@.packages, legacy).len() == ids@.len());
            return Err(CargoGraphError::FrameworkPackageCount { actual: ids });
        }
        let id = ids[0].clone();
        proof {
            assert(texts(ids@)[0] == id@);
            lemma_framework_ids(self@.packages, legacy);
            assert(has_package(self@.packages, framework_ids(self@.packages, legacy)[0]));
            self@.lemma_consistent();
            let at = choose|i: int|
                0 <= i < self@.packages.len() && #[trigger] self@.packages[i].id == id@;
            assert(has_node(self@.nodes, self@.packages[at].id));
        }
        Ok(id)
    }

    /// Checks the workspace's edges to the package `framework`.
    fn validate_root_edges(&self, framework: &str) -> (result: Result<(), CargoGraphError>)
        ensures
            outcome(result) == root_edge_defect(self@, framework@),
    {
        let members = self.workspace_members();
        let ghost graph = self@;
        let ghost check = member_alias_check(graph, framework@);
        let mut found = false;
        let mut index: usize = 0;
        while index < members.len() && !found
            invariant
                graph == self@,
                members@ == graph.members,
                index <= members@.len(),
                !found ==> forall|i: int|
                    0 <= i < index ==> !graph.depends(#[trigger] graph.members[i], framework@),
                found ==> has_root_edge(graph, framework@),
            decreases members@.len() - index,
        {
            let member = members.at(index);
            if let Some(node) = self.node(member.as_str()) {
                let mut at: usize = 0;
                let ghost list = node.model().dependencies;
                while at < node.dependencies.len() && !found
                    invariant
                        graph == self@,
                        members@ == graph.members,
                        index < members@.len(),
                        member@ == graph.members[index as int],
                        list == node.dependencies@,
                        list == node.model().dependencies,
                        node_of(graph.nodes, member@) == Some(node.model()),
                        at <= list.len(),
                        !found ==> forall|j: int|
                            0 <= j < at ==> (#[trigger] list[j]).package != framework@,
                        found ==> graph.depends(member@, framework@),
                    decreases list.len() - at,
                {
                    let dependency = node.dependencies.at(at);
                    assert(list[at as int] == dependency.model());
                    if same_text(dependency.package.as_str(), framework) {
                        let ghost value = node_of(graph.nodes, member@)->Some_0;
                        assert(value.dependencies[at as int].package == framework@);
                        found = true;
                    }
                    at += 1;
                }
            }
            if found {
                assert(graph.depends(graph.members[index as int], framework@));
            }
            index += 1;
        }
        if !found {
            assert(!has_root_edge(graph, framework@));
            let actual: Vec<String> = Vec::new();
            assert(texts(actual@) =~= Seq::<Seq<char>>::empty());
            return Err(
                CargoGraphError::RootFrameworkEdgeCount { framework: framework.to_owned(), actual },
            );
        }
        let mut index: usize = 0;
        while index < members.len()
            invariant
                graph == self@,
                members@ == graph.members,
                check == member_alias_check(graph, framework@),
                has_root_edge(graph, framework@),
                index <= members@.len(),
                first_finding(members@.take(index as int), check) is None,
            decreases members@.len() - index,
        {
            let member = members.at(index);
            proof {
                lemma_finding_step(members@, index as int, check);
            }
            if let Some(node) = self.node(member.as_str()) {
                match validate_aliases(node, framework) {
                    Ok(()) => {},
                    Err(error) => {
                        proof {
                            lemma_finding_prefix(members@, index + 1, check);
                        }
                        return Err(error);
                    },
                }
            }
            index += 1;
        }
        assert(members@.take(index as int) =~= members@);
        Ok(())
    }

    /// Validates the canonical framework package, the workspace aliases, and every reachable
    /// Omnius package against `release`, and returns the framework's identifier.
    pub fn validate_framework(&self, release: &ReleaseIdentity) -> (result: Result<
        String,
        CargoGraphError,
    >)
        ensures
            outcome(result) == framework_defect(self@, release@),
            result matches Ok(id) ==> id@ == framework_ids(self@.packages, false)[0] && has_node(
                self@.nodes,
                id@,
            ),
    {
        let framework = match self.only_framework(false) {
            Ok(id) => id,
            Err(error) => {
                return Err(error);
            },
        };
        match self.validate_root_edges(framework.as_str()) {
            Ok(()) => {},
            Err(error) => {
                return Err(error);
            },
        }
        let expected_source = canonical_git_source(release);
        let closure = match self.dependency_closure(framework.as_str()) {
            Ok(closure) => closure,
            Err(error) => {
                return Err(error);
            },
        };
        let ghost check = release_check(self@, release@);
        let mut index: usize = 0;
        while index < closure.len()
            invariant
                check == release_check(self@, release@),
                expected_source@ == canonical_source(release@),
                framework_ids(self@.packages, false).len() == 1,
                framework@ == framework_ids(self@.packages, false)[0],
                root_edge_defect(self@, framework@) is None,
                closure@ == self@.closure(framework@),
                index <= closure@.len(),
                first_finding(closure@.take(index as int), check) is None,
            decreases closure@.len() - index,
        {
            let id = closure.at(index);
            proof {
                lemma_finding_step(closure@, index as int, check);
                if check(closure@[index as int]) is Some {
                    lemma_finding_prefix(closure@, index + 1, check);
                }
            }
            match self.package(id.as_str()) {
                None => {
                    return Err(CargoGraphError::NodePackageMissing { package: id.clone() });
                },
                Some(package) => {
                    if starts_with(package.name.as_str(), "omnius-") {
                        if !same_text(package.version.as_str(), release.version()) {
                            return Err(
                                CargoGraphError::OmniusVersionMismatch {
                                    package: package.id.clone(),
                                    expected: release.version().to_owned(),
                                    actual: package.version.clone(),
                                },
                            );
                        }
                        let canonical = match &package.source {
                            Some(source) => same_text(source.as_str(), expected_source.as_str()),
                            None => false,
                        };
                        if !canonical {
                            return Err(
                                CargoGraphError::OmniusSourceMismatch {
                                    package: package.id.clone(),
                                    expected: expected_source,
                                    actual: clone_optional_text(&package.source),
                                },
                            );
                        }
                    }
                },
            }
            index += 1;
        }
        assert(closure@.take(index as int) =~= closure@);
        Ok(framework)
    }

    /// Validates a legacy local framework closure and returns the framework's identifier.
    pub fn validate_legacy_framework(&self) -> (result: Result<String, CargoGraphError>)
        ensures
            outcome(result) == legacy_framework_defect(self@),
            result matches Ok(id) ==> id@ == framework_ids(self@.packages, true)[0] && has_node(
                self@.nodes,
                id@,
            ),
    {
        let framework = match self.only_framework(true) {
            Ok(id) => id,
            Err(error) => {
                return Err(error);
            },
        };
        let closure = match self.dependency_closure(framework.as_str()) {
            Ok(closure) => closure,
            Err(error) => {
                return Err(error);
            },
        };
        match self.validate_root_edges(framework.as_str()) {
            Ok(()) => {},
            Err(error) => {
                return Err(error);
            },
        }
        let packages = self.packages();
        let ghost check = legacy_package_check(self@, framework@);
        let mut index: usize = 0;
        while index < packages.len()
            invariant
                check == legacy_package_check(self@, framework@),
                framework_ids(self@.packages, true).len() == 1,
                framework@ == framework_ids(self@.packages, true)[0],
                root_edge_defect(self@, framework@) is None,
                self@.is_closure(framework@, closure@),
                packages@ == self@.packages,
                index <= packages@.len(),
                first_finding(packages@.take(index as int), check) is None,
            decreases packages@.len() - index,
        {
            let package = packages.at(index);
            proof {
                lemma_finding_step(packages@, index as int, check);
                if check(packages@[index as int]) is Some {
                    lemma_finding_prefix(packages@, index + 1, check);
                }
            }
            if starts_with(package.name.as_str(), "omnius-") {
                if package.source.is_some() || !set_holds(&closure, package.id.as_str()) {
                    return Err(
                        CargoGraphError::OmniusSourceMismatch {
                            package: package.id.clone(),
                            expected: "the verified legacy local framework closure".to_owned(),
                            actual: clone_optional_text(&package.source),
                        },
                    );
                }
            }
            index += 1;
        }
        assert(packages@.take(index as int) =~= packages@);
        Ok(framework)
    }
}

fn validate_aliases(node: &CargoNode, framework: &str) -> (result: Result<(), CargoGraphError>)
    ensures
        outcome(result) == first_finding(
            node.model().dependencies,
            alias_check(node.model().id, framework@),
        ),
{
    let ghost list = node.model().dependencies;
    let ghost check = alias_check(node.model().id, framework@);
    let mut index: usize = 0;
    while index < node.dependencies.len()
        invariant
            list == node.dependencies@,
            check == alias_check(node.id@, framework@),
            index <= list.len(),
            first_finding(list.take(index as int), check) is None,
        decreases list.len() - index,
    {
        let dependency = node.dependencies.at(index);
        proof {
            lemma_finding_step(list, index as int, check);
        }
        if same_text(dependency.package.as_str(), framework) && !cargo_names_equal(
            dependency.name.as_str(),
            ROOT_FRAMEWORK_ALIAS,
        ) {
            proof {
                lemma_finding_prefix(list, index + 1, check);
            }
            return Err(
                CargoGraphError::RootAliasMismatch {
                    root: node.id.clone(),
                    expected: ROOT_FRAMEWORK_ALIAS,
                    actual: dependency.name.clone(),
                },
            );
        }
        index += 1;
    }
    assert(list.take(index as int) =~= list);
    Ok(())
}

} // verus!
