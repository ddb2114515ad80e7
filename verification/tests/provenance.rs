use omnius_generator::provenance_project::{
    expand_component, finish_expansion, inspect_project_provenance, member_pattern_matches,
    member_patterns, safe_member_pattern, source_names_canonical_omnius, DirectoryEntry, EntryKind,
    PatternCandidate, PatternExpansion, ProvenanceFile, ProvenanceFiles,
};
use omnius_generator::release::{ReleaseIdentity, CANONICAL_REPOSITORY};
use omnius_generator::snapshot::{expand_names, find_wildcard, state_form, StateForm};
use omnius_generator::toml_text::{read_toml, workspace_dependency_keys};
use omnius_generator::wildcard::wildcard_component_matches;

const REVISION: &str = "0123456789abcdef0123456789abcdef01234567";

fn text(value: &str) -> String {
    value.to_owned()
}

fn release() -> ReleaseIdentity {
    ReleaseIdentity::new("0.1.0", CANONICAL_REPOSITORY, REVISION).expect("identity")
}

fn root_manifest(features: &str) -> String {
    format!(
        "[workspace]\nmembers = [\"apps/*\"]\n\n[workspace.dependencies.service-kit]\npackage = \"omnius-service-kit\"\nversion = \"=0.1.0\"\ngit = \"{CANONICAL_REPOSITORY}\"\nrev = \"{REVISION}\"\ndefault-features = false\nfeatures = [{features}]\n"
    )
}

const MEMBER: &str = "[package]\nname = \"service\"\n\n[dependencies]\nservice-kit.workspace = true\n";

fn files(root: Option<String>, member: Option<&str>) -> ProvenanceFiles {
    ProvenanceFiles {
        root,
        expansions: vec![PatternExpansion {
            pattern: text("apps/*"),
            members: vec![text("apps/service")],
        }],
        manifests: vec![ProvenanceFile {
            path: text("apps/service/Cargo.toml"),
            source: member.map(text),
        }],
        configurations: vec![],
    }
}

fn codes(files: &ProvenanceFiles) -> Vec<&'static str> {
    inspect_project_provenance(files, &release(), &vec![text("http")])
        .findings
        .iter()
        .map(|finding| finding.code)
        .collect()
}

#[test]
fn wildcard_matching_should_cover_cargo_member_patterns() {
    assert!(wildcard_component_matches("service-*", "service-api"));
    assert!(!wildcard_component_matches("service-*", "worker-api"));
    assert!(wildcard_component_matches("?pp", "app"));
}

#[test]
fn wildcards_backtrack() {
    assert!(wildcard_component_matches("*a*b", "xaayab"));
    assert!(!wildcard_component_matches("*a*b", "xaaya"));
    assert!(wildcard_component_matches("*", ""));
    assert!(!wildcard_component_matches("?", ""));
    assert!(!wildcard_component_matches("*", "*x"));
}

#[test]
fn a_canonical_project_has_no_findings() {
    let inspected = files(Some(root_manifest("\"http\"")), Some(MEMBER));
    assert!(codes(&inspected).is_empty());
    let inspection = inspect_project_provenance(&inspected, &release(), &vec![text("http")]);
    assert_eq!(inspection.manifest_files.len(), 2);
    assert_eq!(inspection.manifest_files.at(0).path, "Cargo.toml");
}

#[test]
fn findings_name_what_departs_from_the_canonical_declaration() {
    assert_eq!(codes(&files(None, None)), ["manifest-missing"]);
    assert_eq!(codes(&files(Some(text("= broken")), None)), ["manifest-invalid"]);
    assert_eq!(
        codes(&files(Some(root_manifest("\"other\"")), Some(MEMBER))),
        ["framework-features-invalid"]
    );
    assert_eq!(
        codes(&files(Some(root_manifest("\"http\"")), None)),
        ["workspace-member-missing"]
    );
    let patched = format!("{}\n[patch.crates-io]\n", root_manifest("\"http\""));
    assert_eq!(codes(&files(Some(patched), Some(MEMBER))), ["manifest-patch-forbidden"]);
    let direct = format!("{MEMBER}omnius-http = \"1\"\n");
    assert_eq!(
        codes(&files(Some(root_manifest("\"http\"")), Some(&direct))),
        ["omnius-dependency-forbidden"]
    );
    let own = "[dependencies]\nservice-kit = \"1\"\n";
    assert_eq!(
        codes(&files(Some(root_manifest("\"http\"")), Some(own))),
        ["member-framework-use-invalid"]
    );
    let branch = root_manifest("\"http\"").replace("rev =", "branch =");
    assert_eq!(
        codes(&files(Some(branch), Some(MEMBER))),
        ["framework-dependency-invalid", "framework-dependency-invalid"]
    );
}

#[test]
fn configurations_cannot_replace_the_canonical_source() {
    let mut inspected = files(Some(root_manifest("\"http\"")), Some(MEMBER));
    inspected.configurations = vec![
        ProvenanceFile {
            path: text(".cargo/config.toml"),
            source: Some(format!(
                "[source.mirror]\ngit = \"{CANONICAL_REPOSITORY}\"\nreplace-with = \"local\"\n"
            )),
        },
        ProvenanceFile { path: text(".cargo/config"), source: Some(text("paths = [\"x\"]\n")) },
        ProvenanceFile { path: text("absent"), source: None },
    ];
    let inspection = inspect_project_provenance(&inspected, &release(), &vec![text("http")]);
    let messages =
        inspection.findings.iter().map(|finding| finding.message.as_str()).collect::<Vec<_>>();
    assert_eq!(
        messages,
        [
            "Cargo paths substitution is forbidden for lifecycle provenance",
            "Cargo source `mirror` replaces the canonical Omnius Git source",
        ]
    );
    assert!(source_names_canonical_omnius("https://github.com/bmanturner/omnius.git.git"));
    assert!(!source_names_canonical_omnius("https://github.com/other/omnius"));
}

#[test]
fn member_patterns_stay_in_the_project() {
    assert!(safe_member_pattern("apps/*"));
    assert!(!safe_member_pattern("../apps"));
    assert!(!safe_member_pattern("/apps"));
    assert!(!safe_member_pattern("apps/[ab]"));
    assert!(!safe_member_pattern(""));
    assert!(member_pattern_matches("apps/s*", "apps/service"));
    assert!(!member_pattern_matches("apps/*", "apps/a/b"));
    let document = read_toml(&root_manifest("")).expect("TOML");
    assert_eq!(member_patterns(&document), vec![text("apps/*")]);
}

#[test]
fn patterns_expand_component_by_component() {
    let entry = |name: &str, kind| DirectoryEntry { name: text(name), kind };
    let candidates = vec![PatternCandidate {
        relative: vec![text("apps")],
        entries: vec![
            entry("worker", EntryKind::Directory),
            entry("notes", EntryKind::File),
            entry("service", EntryKind::Directory),
        ],
    }];
    let reached = expand_component("*", &candidates).expect("directories");
    assert_eq!(finish_expansion(&reached), vec![text("apps/service"), text("apps/worker")]);
    let linked = vec![PatternCandidate {
        relative: vec![],
        entries: vec![entry("link", EntryKind::Symlink)],
    }];
    let link = expand_component("link", &linked).expect_err("symlink");
    assert_eq!((link.candidate, link.name.as_str()), (0, "link"));
}

#[test]
fn catalog_patterns_have_one_wildcard() {
    assert!(matches!(find_wildcard("a/*/c"), Ok(Some(1))));
    assert!(matches!(find_wildcard("a/b"), Ok(None)));
    assert!(find_wildcard("*/*").is_err());
    assert_eq!(
        expand_names("a/*/c", 1, &vec![text("y"), text("x")]),
        vec![text("a/x/c"), text("a/y/c")]
    );
}

#[test]
fn workspace_dependencies_are_read_from_the_manifest() {
    let keys = workspace_dependency_keys("[workspace.dependencies]\nb = \"1\"\na = \"2\"\n")
        .expect("keys");
    assert_eq!(keys.items(), &vec![text("a"), text("b")]);
    assert_eq!(
        workspace_dependency_keys("x = 1\n").expect_err("none").message(),
        "workspace manifest lacks workspace.dependencies"
    );
    assert!(workspace_dependency_keys("= 1")
        .expect_err("TOML")
        .message()
        .starts_with("invalid workspace manifest: "));
}

#[test]
fn the_form_of_a_state_is_read_from_it() {
    assert!(matches!(state_form("schema_version = 1\n"), Ok(StateForm::Legacy)));
    assert!(matches!(state_form("schema_version = 2\n"), Ok(StateForm::Current)));
    assert_eq!(
        state_form("schema_version = -7\n").expect_err("unsupported").message(),
        "unsupported project state schema version -7"
    );
    assert_eq!(
        state_form("x = 1\n").expect_err("missing").message(),
        "project state is missing integer `schema_version`"
    );
}
