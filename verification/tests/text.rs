use omnius_generator::cargo_resolver::diagnostic_text;
use omnius_generator::digest::{decode_hex, encode_hex, sha256_hex};
use omnius_generator::file_map::FileMap;
use omnius_generator::lifecycle::{
    check_stages, check_target, omitted_path, verify_project_inputs, visit_entry, InputHash,
    NodeKind, TreeVisit,
};
use omnius_generator::ordered::{sort_unique, Sorted};
use omnius_generator::paths::validate_relative_path;
use omnius_generator::text::{join_texts, replace_text, split_text};
use omnius_generator::thin_service::{
    application_migration, check_crate_root, check_manifest_source, check_migration, check_root,
    is_reserved_version, list_legacy_roots, visit_crate_entry, CrateVisit,
};

fn text(value: &str) -> String {
    value.to_owned()
}

fn inputs(values: &[(&str, &str)]) -> Sorted<InputHash> {
    sort_unique(
        values
            .iter()
            .map(|(path, hash)| InputHash { path: text(path), hash: text(hash) })
            .collect(),
    )
}

#[test]
fn splitting_and_joining_are_inverse() {
    let pieces = split_text("a//b/", '/');
    assert_eq!(pieces, vec![text("a"), text(""), text("b"), text("")]);
    assert_eq!(join_texts(&pieces, "/"), "a//b/");
}

#[test]
fn replacement_takes_occurrences_from_the_left() {
    assert_eq!(replace_text("aaa", "aa", "b"), "ba");
    assert_eq!(replace_text("{{x}}-{{x}}", "{{x}}", "{{x}}y"), "{{x}}y-{{x}}y");
}

#[test]
fn digests_are_lowercase_hexadecimal() {
    assert_eq!(
        sha256_hex(b"abc"),
        "ba7816bf8f01cfea414140de5dae2223b00361a396177a9cb410ff61f20015ad"
    );
    let bytes = [0u8, 15, 16, 255];
    let encoded = encode_hex(&bytes);
    assert_eq!(encoded, "000f10ff");
    assert_eq!(decode_hex(&encoded), Ok(bytes.to_vec()));
    assert!(decode_hex("0F").is_err());
    assert!(decode_hex("0").is_err());
}

#[test]
fn relative_paths_are_portable() {
    assert_eq!(validate_relative_path("a/b.rs"), Ok(()));
    assert!(validate_relative_path("").is_err());
    assert!(validate_relative_path("/a").is_err());
    assert!(validate_relative_path("a\\b").is_err());
    assert!(validate_relative_path("a/../b").is_err());
}

#[test]
fn a_file_map_keeps_one_file_per_path() {
    let mut files = FileMap::new();
    files.insert(text("a"), text("1"));
    files.insert(text("b"), text("2"));
    files.insert(text("a"), text("3"));
    assert_eq!(files.len(), 2);
    assert_eq!(files.get("a"), Some("3"));
    assert_eq!(files.remove("a"), Some(text("3")));
    assert_eq!(files.get("a"), None);
    assert!(files.contains_key("b"));
}

#[test]
fn control_files_are_no_inputs() {
    assert!(omitted_path(".git/config"));
    assert!(omitted_path("target"));
    assert!(omitted_path(".omnius/lifecycle.lock"));
    assert!(!omitted_path(".omnius/service.toml"));
    assert!(!omitted_path("apps/target/x"));
}

#[test]
fn tree_entries_are_taken_visited_or_refused() {
    assert_eq!(visit_entry("", "target", NodeKind::Directory), Ok(TreeVisit::Omit));
    assert_eq!(
        visit_entry("apps", "service", NodeKind::Directory),
        Ok(TreeVisit::Descend(text("apps/service")))
    );
    assert_eq!(visit_entry("", "README.md", NodeKind::File), Ok(TreeVisit::Take(text("README.md"))));
    assert_eq!(
        visit_entry("a", "b", NodeKind::Symlink).expect_err("symlink").message(),
        "project staging refuses symlink `a/b`"
    );
    assert_eq!(
        visit_entry("a", "b", NodeKind::Other).expect_err("device").message(),
        "project staging refuses non-regular entry `a/b`"
    );
}

#[test]
fn targets_have_no_links_and_no_files_above_them() {
    let observed = |kinds: &[NodeKind]| check_target("managed path", "a/b/c", &kinds.to_vec());
    assert_eq!(observed(&[NodeKind::Directory, NodeKind::Directory, NodeKind::File]), Ok(()));
    assert_eq!(observed(&[]), Ok(()));
    assert_eq!(
        observed(&[NodeKind::Directory, NodeKind::Symlink]),
        Err(text("managed path has a symlinked component: `a/b/c`"))
    );
    assert_eq!(
        observed(&[NodeKind::File]),
        Err(text("managed path has a non-directory ancestor: `a/b/c`"))
    );
}

#[test]
fn changed_inputs_are_named() {
    let sealed = inputs(&[("a", "1"), ("b", "2")]);
    assert_eq!(verify_project_inputs(&sealed, &inputs(&[("b", "2"), ("a", "1")])), Ok(()));
    let message = |actual: &[(&str, &str)]| {
        verify_project_inputs(&sealed, &inputs(actual)).expect_err("changed").message()
    };
    assert_eq!(
        message(&[("a", "1"), ("b", "3")]),
        "sealed lifecycle input `b` changed before apply"
    );
    assert_eq!(
        message(&[("a", "1"), ("b", "2"), ("c", "3")]),
        "sealed lifecycle input `c` changed before apply"
    );
    assert!(check_stages(&sealed, &inputs(&[("a", "1")])).is_err());
}

#[test]
fn thin_candidate_rejects_untracked_omnius_crate_without_manifest() {
    let error = visit_crate_entry(
        true,
        Some("omnius-extra"),
        "crates/omnius-extra",
        NodeKind::Directory,
    )
    .expect_err("untracked Omnius crate must be rejected");
    assert!(error.message().contains("omnius-extra"));
    assert!(matches!(
        visit_crate_entry(false, Some("omnius-extra"), "crates/a/omnius-extra", NodeKind::Directory),
        Ok(CrateVisit::Descend)
    ));
    assert!(matches!(
        visit_crate_entry(true, Some("Cargo.toml"), "crates/Cargo.toml", NodeKind::File),
        Ok(CrateVisit::Inspect)
    ));
    assert!(check_crate_root("crates", NodeKind::Symlink).is_err());
    assert!(check_root("xtask").is_err());
    assert!(check_root("apps").is_ok());
    let forbidden = list_legacy_roots().iter().filter(|name| check_root(name).is_err()).count();
    assert_eq!((list_legacy_roots().len(), forbidden), (5, 4));
}

#[test]
fn framework_manifests_are_forbidden() {
    let source = "[package]\nname = \"omnius-extra\"\n";
    let error = check_manifest_source("crates/x/Cargo.toml", "crates/x/Cargo.toml", source)
        .expect_err("framework package");
    assert!(error.message().contains("legacy framework crate `crates/x/Cargo.toml`"));
    assert!(check_manifest_source("crates/x/Cargo.toml", "x", "[package]\nname = \"own\"\n").is_ok());
    let broken = check_manifest_source("crates/x/Cargo.toml", "x", "= broken").expect_err("TOML");
    assert!(broken.message().starts_with("candidate crate manifest `x` is invalid TOML: "));
}

#[test]
fn application_migrations_have_reserved_versions() {
    assert!(application_migration("9000000000000000000_fixture.sql"));
    assert!(application_migration("9099999999999999999_last.sql"));
    assert!(!application_migration("9100000000000000000_beyond.sql"));
    assert!(!application_migration("0001_framework.sql"));
    assert!(!application_migration("9000000000000000000_.sql"));
    assert!(!application_migration("9000000000000000000.sql"));
    assert!(!application_migration("9000000000000000000_fixture.SQL"));
    assert!(is_reserved_version("+9000000000000000001"));
    assert!(!is_reserved_version("99999999999999999999999"));
    assert!(check_migration(Some("application-compatibility.toml"), "m", NodeKind::File).is_ok());
    assert!(check_migration(Some("x.sql"), "m", NodeKind::Directory).is_err());
    assert!(check_migration(None, "m", NodeKind::File).is_err());
}

#[test]
fn captured_output_is_trimmed() {
    assert_eq!(diagnostic_text("  error: x\n"), "error: x");
    assert_eq!(diagnostic_text(" \u{2003}\n\t"), "<empty>");
    assert_eq!(diagnostic_text(""), "<empty>");
    let white = "\u{b}\u{c}\r\u{85}\u{a0}\u{1680}\u{2000}\u{200a}\u{2028}\u{2029}\u{202f}\u{205f}\u{3000}";
    assert_eq!(diagnostic_text(&format!("{white}x{white}")), "x");
    assert_eq!(diagnostic_text("\u{200b}x\u{180e}"), "\u{200b}x\u{180e}");
}
