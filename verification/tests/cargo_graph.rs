use omnius_generator::cargo_graph::{CargoGraph, CargoGraphError};
use omnius_generator::cargo_metadata::{
    lexical_relative_path, RawDependency, RawDependencyKind, RawMetadata, RawNode, RawPackage,
    RawResolve,
};
use omnius_generator::cargo_resolver::{cargo_args, cargo_metadata_args, cargo_update_args};
use omnius_generator::ordered::{set_holds, TextSet};
use omnius_generator::release::{ReleaseIdentity, CANONICAL_REPOSITORY};

const OLD_REVISION: &str = "1111111111111111111111111111111111111111";
const NEW_REVISION: &str = "2222222222222222222222222222222222222222";

fn release(revision: &str) -> ReleaseIdentity {
    ReleaseIdentity::new("0.3.0", CANONICAL_REPOSITORY, revision).expect("valid test identity")
}

fn parse_graph(document: &RawMetadata) -> CargoGraph {
    CargoGraph::from_raw(document).expect("valid test metadata")
}

fn source(revision: &str) -> String {
    format!("git+{CANONICAL_REPOSITORY}?rev={revision}#{revision}")
}

fn kit_id(revision: &str) -> String {
    format!("git-kit-{revision}")
}

fn runtime_id(revision: &str) -> String {
    format!("git-runtime-{revision}")
}

fn package(id: &str, name: &str, version: &str, source: Option<String>) -> RawPackage {
    RawPackage {
        id: id.to_owned(),
        name: name.to_owned(),
        version: version.to_owned(),
        source,
        manifest_path: None,
    }
}

fn kind(kind: Option<&str>) -> RawDependencyKind {
    RawDependencyKind { kind: kind.map(str::to_owned), target: None }
}

fn dependency(name: &str, package: &str, kinds: &[Option<&str>]) -> RawDependency {
    RawDependency {
        name: name.to_owned(),
        pkg: package.to_owned(),
        dep_kinds: kinds.iter().map(|value| kind(*value)).collect(),
    }
}

fn node(id: &str, deps: Vec<RawDependency>, features: &[&str]) -> RawNode {
    RawNode {
        id: id.to_owned(),
        deps,
        features: features.iter().map(|value| (*value).to_owned()).collect(),
    }
}

fn metadata(revision: &str, alias: &str, registry_id: &str, changed: bool) -> RawMetadata {
    let kit = kit_id(revision);
    let runtime = runtime_id(revision);
    let registry_version = if changed { "2.0.0" } else { "1.0.0" };
    RawMetadata {
        packages: vec![
            package("app", "example-service", "0.1.0", None),
            package(&kit, "omnius-service-kit", "0.3.0", Some(source(revision))),
            package(&runtime, "omnius-runtime", "0.3.0", Some(source(revision))),
            package(
                registry_id,
                "registry-dependency",
                registry_version,
                Some("registry+https://github.com/rust-lang/crates.io-index".to_owned()),
            ),
        ],
        workspace_members: vec!["app".to_owned()],
        resolve: Some(RawResolve {
            nodes: vec![
                node(
                    "app",
                    vec![
                        dependency(alias, &kit, &[None]),
                        dependency("registry_dependency", registry_id, &[None]),
                    ],
                    &[],
                ),
                node(&kit, vec![dependency("omnius_runtime", &runtime, &[None])], &["http"]),
                node(&runtime, vec![], &[]),
                node(registry_id, vec![], &[]),
            ],
        }),
        workspace_root: None,
    }
}

fn nodes(document: &mut RawMetadata) -> &mut Vec<RawNode> {
    &mut document.resolve.as_mut().expect("resolve graph").nodes
}

fn thin_metadata(revision: &str, registry_id: &str) -> RawMetadata {
    let mut document = metadata(revision, "service_kit", registry_id, false);
    nodes(&mut document)[0].deps[0].dep_kinds = vec![kind(None), kind(Some("dev"))];
    document
}

fn relocated_metadata(revision: &str, root: &str) -> RawMetadata {
    let mut document = metadata(revision, "service_kit", "registry-one", false);
    let application = format!("file://{root}#example-service@0.1.0");
    document.workspace_root = Some(root.to_owned());
    document.packages[0].id = application.clone();
    document.packages[0].manifest_path = Some(format!("{root}/Cargo.toml"));
    document.workspace_members[0] = application.clone();
    nodes(&mut document)[0].id = application;
    document
}

fn external_local_metadata(revision: &str, root: &str, shared: &str) -> RawMetadata {
    let mut document = relocated_metadata(revision, root);
    let id = format!("file://{shared}#registry-dependency@1.0.0");
    document.packages[3].id = id.clone();
    document.packages[3].source = None;
    document.packages[3].manifest_path = Some(format!("{shared}/Cargo.toml"));
    nodes(&mut document)[0].deps[1].pkg = id.clone();
    nodes(&mut document)[3].id = id;
    document
}

fn legacy_fixture() -> (RawMetadata, RawMetadata) {
    let registry = Some("registry+https://github.com/rust-lang/crates.io-index".to_owned());
    let before = RawMetadata {
        packages: vec![
            package("app", "short-link", "0.1.0", None),
            package("helper", "helper", "0.1.0", None),
            package("legacy-kit", "omnius-service-kit", "0.2.0", None),
            package("toml-one", "toml", "0.9.0", registry.clone()),
            package("serde-one", "serde", "1.0.0", registry.clone()),
        ],
        workspace_members: vec!["app".to_owned(), "helper".to_owned()],
        resolve: Some(RawResolve {
            nodes: vec![
                node(
                    "app",
                    vec![
                        dependency("service_kit", "legacy-kit", &[None]),
                        dependency("toml", "toml-one", &[None, Some("build")]),
                        dependency("serde", "serde-one", &[None]),
                    ],
                    &[],
                ),
                node("helper", vec![dependency("serde", "serde-one", &[None])], &[]),
                node("legacy-kit", vec![dependency("toml", "toml-one", &[None])], &[]),
                node("toml-one", vec![], &[]),
                node("serde-one", vec![], &[]),
            ],
        }),
        workspace_root: None,
    };
    let after = RawMetadata {
        packages: vec![
            package("app", "short-link", "0.1.0", None),
            package("helper", "helper", "0.1.0", None),
            package("git-kit", "omnius-service-kit", "0.3.0", Some(source(NEW_REVISION))),
            package("toml-one", "toml", "0.9.0", registry.clone()),
            package("serde-one", "serde", "1.0.0", registry),
        ],
        workspace_members: vec!["app".to_owned(), "helper".to_owned()],
        resolve: Some(RawResolve {
            nodes: vec![
                node(
                    "app",
                    vec![
                        dependency("service_kit", "git-kit", &[None, Some("dev")]),
                        dependency("toml", "toml-one", &[Some("build")]),
                        dependency("serde", "serde-one", &[None]),
                    ],
                    &[],
                ),
                node("helper", vec![dependency("serde", "serde-one", &[None])], &[]),
                node("git-kit", vec![dependency("toml", "toml-one", &[None])], &[]),
                node("toml-one", vec![], &[]),
                node("serde-one", vec![], &[]),
            ],
        }),
        workspace_root: None,
    };
    (before, after)
}

fn holds(set: &TextSet, text: &str) -> bool {
    set_holds(set, text)
}

#[test]
fn framework_validation_accepts_canonical_alias_and_reachable_packages() {
    let graph = parse_graph(&metadata(OLD_REVISION, "service_kit", "registry-one", false));
    assert_eq!(graph.validate_framework(&release(OLD_REVISION)), Ok(kit_id(OLD_REVISION)));
}

#[test]
fn framework_validation_accepts_multiple_canonical_workspace_aliases() {
    let mut document = metadata(OLD_REVISION, "service_kit", "registry-one", false);
    let kit = kit_id(OLD_REVISION);
    document.packages.push(package("worker", "example-worker", "0.1.0", None));
    document.workspace_members.push("worker".to_owned());
    nodes(&mut document).push(node(
        "worker",
        vec![dependency("service_kit", &kit, &[None])],
        &[],
    ));
    assert_eq!(
        parse_graph(&document).validate_framework(&release(OLD_REVISION)),
        Ok(kit_id(OLD_REVISION))
    );
}

#[test]
fn framework_validation_rejects_noncanonical_reachable_omnius_source() {
    let mut document = metadata(OLD_REVISION, "service_kit", "registry-one", false);
    document.packages[2].source = None;
    let error = parse_graph(&document).validate_framework(&release(OLD_REVISION));
    assert!(matches!(
        error,
        Err(CargoGraphError::OmniusSourceMismatch { package, actual: None, .. })
            if package == runtime_id(OLD_REVISION)
    ));
}

#[test]
fn framework_validation_rejects_wrong_resolved_revision() {
    let mut document = metadata(OLD_REVISION, "service_kit", "registry-one", false);
    document.packages[1].source = Some(source(NEW_REVISION));
    let error = parse_graph(&document).validate_framework(&release(OLD_REVISION));
    assert!(matches!(
        error,
        Err(CargoGraphError::OmniusSourceMismatch { package, .. })
            if package == kit_id(OLD_REVISION)
    ));
}

#[test]
fn framework_validation_rejects_wrong_root_alias() {
    let graph = parse_graph(&metadata(OLD_REVISION, "framework", "registry-one", false));
    let error = graph.validate_framework(&release(OLD_REVISION));
    assert!(matches!(
        error,
        Err(CargoGraphError::RootAliasMismatch { actual, .. }) if actual == "framework"
    ));
}

#[test]
fn bounded_difference_allows_changes_inside_old_and_new_framework_closures() {
    let before = parse_graph(&metadata(OLD_REVISION, "service_kit", "registry-one", false));
    let after = parse_graph(&metadata(NEW_REVISION, "service_kit", "registry-one", false));
    assert!(before.validate_framework(&release(OLD_REVISION)).is_ok());
    assert!(after.validate_framework(&release(NEW_REVISION)).is_ok());
    let difference = before.bounded_framework_difference(&after).expect("bounded difference");
    assert!(holds(difference.added_packages(), &kit_id(NEW_REVISION)));
    assert!(holds(difference.removed_packages(), &kit_id(OLD_REVISION)));
}

#[test]
fn legacy_cutover_allows_direct_framework_edges_to_collapse_behind_service_kit() {
    let mut document = metadata(OLD_REVISION, "service_kit", "registry-one", false);
    nodes(&mut document)[0].deps.push(dependency(
        "omnius_runtime",
        &runtime_id(OLD_REVISION),
        &[None],
    ));
    let before = parse_graph(&document);
    let after = parse_graph(&thin_metadata(NEW_REVISION, "registry-one"));
    let difference = before.bounded_difference_from_roots(
        &after,
        &kit_id(OLD_REVISION),
        &kit_id(NEW_REVISION),
        true,
    );
    assert!(difference.is_ok());
}

#[test]
fn legacy_short_link_fixture_allows_obsolete_toml_normal_kind_removal() {
    let (before, after) = legacy_fixture();
    let difference = parse_graph(&before).bounded_difference_from_roots(
        &parse_graph(&after),
        "legacy-kit",
        "git-kit",
        true,
    );
    assert!(difference.is_ok());
}

#[test]
fn legacy_cutover_rejects_application_external_edge_changes() {
    let (before, mut after) = legacy_fixture();
    nodes(&mut after)[0].deps.retain(|dependency| dependency.name != "serde");
    let error = parse_graph(&before).bounded_difference_from_roots(
        &parse_graph(&after),
        "legacy-kit",
        "git-kit",
        true,
    );
    assert!(matches!(
        error,
        Err(CargoGraphError::OutOfScopeNodeChange { package }) if package == "app"
    ));
}

#[test]
fn legacy_cutover_still_rejects_unrelated_workspace_edge_changes() {
    let (before, mut after) = legacy_fixture();
    nodes(&mut after)[1].deps.clear();
    let error = parse_graph(&before).bounded_difference_from_roots(
        &parse_graph(&after),
        "legacy-kit",
        "git-kit",
        true,
    );
    assert!(matches!(
        error,
        Err(CargoGraphError::OutOfScopeNodeChange { package }) if package == "helper"
    ));
}

#[test]
fn legacy_cutover_rejects_candidate_direct_omnius_edges() {
    let before = parse_graph(&metadata(OLD_REVISION, "service_kit", "registry-one", false));
    let mut document = thin_metadata(NEW_REVISION, "registry-one");
    nodes(&mut document)[0].deps.push(dependency(
        "omnius_runtime",
        &runtime_id(NEW_REVISION),
        &[None],
    ));
    let error = before.bounded_difference_from_roots(
        &parse_graph(&document),
        &kit_id(OLD_REVISION),
        &kit_id(NEW_REVISION),
        true,
    );
    assert!(matches!(
        error,
        Err(CargoGraphError::OutOfScopeNodeChange { package }) if package == "app"
    ));
}

#[test]
fn legacy_cutover_requires_the_canonical_service_kit_replacement_edge() {
    let before = parse_graph(&metadata(OLD_REVISION, "service_kit", "registry-one", false));
    let replacements = [
        vec![dependency("registry_dependency", "registry-one", &[None])],
        vec![
            dependency("framework", &kit_id(NEW_REVISION), &[None, Some("dev")]),
            dependency("registry_dependency", "registry-one", &[None]),
        ],
    ];
    for replacement in replacements {
        let mut document = thin_metadata(NEW_REVISION, "registry-one");
        nodes(&mut document)[0].deps = replacement;
        let error = before.bounded_difference_from_roots(
            &parse_graph(&document),
            &kit_id(OLD_REVISION),
            &kit_id(NEW_REVISION),
            true,
        );
        assert!(matches!(
            error,
            Err(CargoGraphError::OutOfScopeNodeChange { package }) if package == "app"
        ));
    }
}

#[test]
fn bounded_difference_normalizes_workspace_packages_across_stage_paths() {
    let before = parse_graph(&relocated_metadata(OLD_REVISION, "/tmp/current-service-project"));
    let after = parse_graph(&relocated_metadata(NEW_REVISION, "/tmp/candidate-service-project"));
    assert!(before.bounded_framework_difference(&after).is_ok());
}

#[test]
fn bounded_difference_rejects_framework_boundary_kind_change() {
    let before = parse_graph(&metadata(OLD_REVISION, "service_kit", "registry-one", false));
    let mut document = metadata(NEW_REVISION, "service_kit", "registry-one", false);
    nodes(&mut document)[0].deps[0].dep_kinds[0].kind = Some("dev".to_owned());
    let error = before.bounded_framework_difference(&parse_graph(&document));
    assert!(matches!(
        error,
        Err(CargoGraphError::OutOfScopeNodeChange { package }) if package == "app"
    ));
}

#[test]
fn bounded_difference_normalizes_external_local_packages_across_stage_paths() {
    let before = parse_graph(&external_local_metadata(
        OLD_REVISION,
        "/tmp/current/service",
        "/tmp/current/shared",
    ));
    let after = parse_graph(&external_local_metadata(
        NEW_REVISION,
        "/tmp/candidate/service",
        "/tmp/candidate/shared",
    ));
    assert!(before.bounded_framework_difference(&after).is_ok());
}

#[test]
fn bounded_difference_rejects_unrelated_package_identity_change() {
    let before = parse_graph(&metadata(OLD_REVISION, "service_kit", "registry-one", false));
    let after = parse_graph(&metadata(NEW_REVISION, "service_kit", "registry-one", true));
    let error = before.bounded_framework_difference(&after);
    assert!(matches!(
        error,
        Err(CargoGraphError::OutOfScopePackageChange { package }) if package == "registry-one"
    ));
}

#[test]
fn bounded_difference_rejects_unrelated_edge_change() {
    let before = parse_graph(&metadata(OLD_REVISION, "service_kit", "registry-one", false));
    let mut document = metadata(NEW_REVISION, "service_kit", "registry-one", false);
    nodes(&mut document)[0].deps.clear();
    let error = before.bounded_framework_difference(&parse_graph(&document));
    assert!(matches!(
        error,
        Err(CargoGraphError::OutOfScopeNodeChange { package }) if package == "app"
    ));
}

#[test]
fn metadata_projection_rejects_dependency_to_unknown_package() {
    let mut document = metadata(OLD_REVISION, "service_kit", "registry-one", false);
    nodes(&mut document)[1].deps[0].pkg = "missing".to_owned();
    let error = CargoGraph::from_raw(&document);
    assert!(matches!(
        error,
        Err(CargoGraphError::DependencyTargetMissing { target, .. }) if target == "missing"
    ));
}

#[test]
fn precise_offline_update_selects_the_locked_framework_version() {
    let arguments = cargo_update_args("0.2.0", Some(NEW_REVISION), true);
    assert_eq!(
        arguments,
        vec![
            "update".to_owned(),
            "-p".to_owned(),
            "omnius-service-kit@0.2.0".to_owned(),
            "--precise".to_owned(),
            NEW_REVISION.to_owned(),
            "--offline".to_owned(),
        ]
    );
}

#[test]
fn an_unchanged_graph_has_an_empty_difference() {
    let graph = parse_graph(&metadata(OLD_REVISION, "service_kit", "registry-one", false));
    let same = parse_graph(&metadata(OLD_REVISION, "service_kit", "registry-one", false));
    let difference = graph.bounded_framework_difference(&same).expect("bounded difference");
    assert_eq!(difference.added_packages().len(), 0);
    assert_eq!(difference.removed_packages().len(), 0);
    assert_eq!(difference.added_edges().len(), 0);
    assert_eq!(difference.removed_edges().len(), 0);
}

#[test]
fn relative_paths_climb_out_of_the_base() {
    assert_eq!(
        lexical_relative_path("/tmp/current/service", "/tmp/current/shared/Cargo.toml"),
        Some("../shared/Cargo.toml".to_owned())
    );
    assert_eq!(lexical_relative_path("/a/b", "/a/b/c/d"), Some("c/d".to_owned()));
    assert_eq!(lexical_relative_path("relative", "/absolute"), None);
}

#[test]
fn cargo_arguments_add_offline_last() {
    assert_eq!(
        cargo_args(vec!["generate-lockfile".to_owned()], true),
        vec!["generate-lockfile".to_owned(), "--offline".to_owned()]
    );
    assert_eq!(
        cargo_metadata_args(true, false),
        vec![
            "metadata".to_owned(),
            "--format-version".to_owned(),
            "1".to_owned(),
            "--locked".to_owned(),
        ]
    );
}
