//! What the inspection of a project's provenance never finds.

use vstd::prelude::*;
use vstd::string::*;

use crate::diff_laws::spares_release;
use crate::ordered::{lemma_listing_exists, sorted_listing};
use crate::provenance::{
    canonical_findings, canonical_table_findings, dependency_findings, entry_findings,
    kind_findings, kinds_findings, manifest_findings, member_findings, string_note,
    table_findings, targets_findings, FindingModel, ProvenanceFinding,
};
use crate::provenance_project::{
    configuration_findings, configurations_findings, member_manifest_findings, member_values,
    members_findings,
    project_document_findings, project_findings, source_note, source_of, sources_findings,
    value_findings, values_findings, workspace_findings, workspace_members,
    PatternExpansion, ProvenanceFile, ProvenanceFiles,
};
use crate::release::ReleaseModel;
use crate::snapshot::provenance_findings;
use crate::toml_text::{nested, toml_parsed, TomlEntry, TomlValue};

verus! {

/// Whether none of the findings carries the code of a release mismatch.
spec fn spares(findings: Seq<FindingModel>) -> bool {
    forall|i: int| 0 <= i < findings.len() ==> (#[trigger] findings[i]).0 != "release-mismatch"@
}

proof fn lemma_manifest_codes()
    ensures
        "framework-dependency-invalid"@ != "release-mismatch"@,
        "framework-dependency-missing"@ != "release-mismatch"@,
        "framework-features-invalid"@ != "release-mismatch"@,
        "member-framework-use-invalid"@ != "release-mismatch"@,
        "omnius-dependency-forbidden"@ != "release-mismatch"@,
        "manifest-patch-forbidden"@ != "release-mismatch"@,
        "manifest-replace-forbidden"@ != "release-mismatch"@,
        "source-override"@ != "release-mismatch"@,
        "member-framework-use-missing"@ != "release-mismatch"@,
{
    reveal_strlit("release-mismatch");
    assert("release-mismatch"@.len() == 16);
    reveal_strlit("framework-dependency-invalid");
    assert("framework-dependency-invalid"@.len() == 28);
    reveal_strlit("framework-dependency-missing");
    assert("framework-dependency-missing"@.len() == 28);
    reveal_strlit("framework-features-invalid");
    assert("framework-features-invalid"@.len() == 26);
    reveal_strlit("member-framework-use-invalid");
    assert("member-framework-use-invalid"@.len() == 28);
    reveal_strlit("omnius-dependency-forbidden");
    assert("omnius-dependency-forbidden"@.len() == 27);
    reveal_strlit("manifest-patch-forbidden");
    assert("manifest-patch-forbidden"@.len() == 24);
    reveal_strlit("manifest-replace-forbidden");
    assert("manifest-replace-forbidden"@.len() == 26);
    reveal_strlit("source-override");
    assert("source-override"@.len() == 15);
    reveal_strlit("member-framework-use-missing");
    assert("member-framework-use-missing"@.len() == 28);
}

proof fn lemma_workspace_codes()
    ensures
        "workspace-member-invalid"@ != "release-mismatch"@,
        "workspace-member-missing"@ != "release-mismatch"@,
        "workspace-invalid"@ != "release-mismatch"@,
        "cargo-config-invalid"@ != "release-mismatch"@,
        "manifest-invalid"@ != "release-mismatch"@,
        "manifest-missing"@ != "release-mismatch"@,
{
    reveal_strlit("release-mismatch");
    assert("release-mismatch"@.len() == 16);
    reveal_strlit("workspace-member-invalid");
    assert("workspace-member-invalid"@.len() == 24);
    reveal_strlit("workspace-member-missing");
    assert("workspace-member-missing"@.len() == 24);
    reveal_strlit("workspace-invalid");
    assert("workspace-invalid"@.len() == 17);
    reveal_strlit("cargo-config-invalid");
    assert("cargo-config-invalid"@.len() == 20);
    reveal_strlit("manifest-invalid");
    assert("manifest-invalid"@[0] != "release-mismatch"@[0]);
    reveal_strlit("manifest-missing");
    assert("manifest-missing"@[0] != "release-mismatch"@[0]);
}

// Manifests.
proof fn lemma_canonical_spares(
    path: Seq<char>,
    document: TomlValue,
    framework: ReleaseModel,
    features: Seq<Seq<char>>,
)
    ensures
        spares(canonical_findings(path, document, framework, features)),
{
    lemma_manifest_codes();
    if let Some(dependency) = nested(
        nested(document.entry("workspace"@), "dependencies"@),
        "service-kit"@,
    ) {
        if let Some(table) = dependency.entries() {
            assert(spares(string_note(path, table, "package"@, "omnius-service-kit"@)));
            assert(spares(canonical_table_findings(path, table, framework, features)));
        }
    }
}

proof fn lemma_table_spares(
    path: Seq<char>,
    table_name: Seq<char>,
    table: Seq<TomlEntry>,
    member_use_allowed: bool,
    dev: bool,
    canonical_workspace: bool,
    count: int,
)
    ensures
        spares(
            table_findings(
                path,
                table_name,
                table,
                member_use_allowed,
                dev,
                canonical_workspace,
                count,
            ),
        ),
    decreases count,
{
    lemma_manifest_codes();
    if count > 0 {
        lemma_table_spares(
            path,
            table_name,
            table,
            member_use_allowed,
            dev,
            canonical_workspace,
            count - 1,
        );
        let entry = table[count - 1];
        assert(spares(member_findings(path, table_name, entry.value, dev)));
        assert(spares(
            entry_findings(path, table_name, entry, member_use_allowed, dev, canonical_workspace),
        ));
    }
}

proof fn lemma_kind_spares(
    path: Seq<char>,
    prefix: Seq<char>,
    declared: TomlValue,
    kind: Seq<char>,
    root: bool,
    dev: bool,
)
    ensures
        spares(kind_findings(path, prefix, declared, kind, root, dev)),
{
    if let Some(value) = declared.entry(kind) {
        if let Some(table) = value.entries() {
            let count = table.len() as int;
            lemma_table_spares(path, prefix + kind, table, !root, dev, false, count);
        }
    }
}

proof fn lemma_kinds_spare(path: Seq<char>, prefix: Seq<char>, declared: TomlValue, root: bool)
    ensures
        spares(kinds_findings(path, prefix, declared, root)),
{
    lemma_kind_spares(path, prefix, declared, "dependencies"@, root, false);
    lemma_kind_spares(path, prefix, declared, "dev-dependencies"@, root, true);
    lemma_kind_spares(path, prefix, declared, "build-dependencies"@, root, false);
}

proof fn lemma_targets_spare(path: Seq<char>, targets: Seq<TomlEntry>, root: bool, count: int)
    ensures
        spares(targets_findings(path, targets, root, count)),
    decreases count,
{
    if count > 0 {
        lemma_targets_spare(path, targets, root, count - 1);
        lemma_kinds_spare(
            path,
            "target."@ + targets[count - 1].key@ + "."@,
            targets[count - 1].value,
            root,
        );
    }
}

proof fn lemma_dependencies_spare(path: Seq<char>, document: TomlValue, root: bool)
    ensures
        spares(dependency_findings(path, document, root)),
{
    lemma_kinds_spare(path, Seq::empty(), document, root);
    if let Some(value) = document.entry("target"@) {
        if let Some(targets) = value.entries() {
            lemma_targets_spare(path, targets, root, targets.len() as int);
        }
    }
    if let Some(value) = nested(document.entry("workspace"@), "dependencies"@) {
        if let Some(table) = value.entries() {
            lemma_table_spares(
                path,
                "workspace.dependencies"@,
                table,
                false,
                false,
                root,
                table.len() as int,
            );
        }
    }
}

proof fn lemma_manifest_spares(
    path: Seq<char>,
    document: TomlValue,
    root: bool,
    framework: ReleaseModel,
    features: Seq<Seq<char>>,
)
    ensures
        spares(manifest_findings(path, document, root, framework, features)),
{
    lemma_manifest_codes();
    lemma_canonical_spares(path, document, framework, features);
    lemma_dependencies_spare(path, document, root);
}

// Workspaces and configurations.
proof fn lemma_values_spare(
    values: Seq<TomlValue>,
    expansions: Seq<PatternExpansion>,
    count: int,
)
    ensures
        spares(values_findings(values, expansions, count)),
    decreases count,
{
    lemma_workspace_codes();
    if count > 0 {
        lemma_values_spare(values, expansions, count - 1);
        assert(spares(value_findings(values[count - 1], expansions)));
    }
}

proof fn lemma_members_spare(
    members: Seq<Seq<char>>,
    files: Seq<ProvenanceFile>,
    framework: ReleaseModel,
    features: Seq<Seq<char>>,
    count: int,
)
    ensures
        spares(members_findings(members, files, framework, features, count)),
    decreases count,
{
    lemma_workspace_codes();
    if count > 0 {
        lemma_members_spare(members, files, framework, features, count - 1);
        let manifest = members[count - 1] + "/Cargo.toml"@;
        let source = source_of(files, manifest, 0);
        if let Some(text) = source {
            if let Ok(document) = toml_parsed(text) {
                lemma_manifest_spares(manifest, document, false, framework, features);
            }
        }
        assert(spares(member_manifest_findings(members[count - 1], source, framework, features)));
    }
}

proof fn lemma_sources_spare(display: Seq<char>, sources: Seq<TomlEntry>, count: int)
    ensures
        spares(sources_findings(display, sources, count)),
    decreases count,
{
    lemma_manifest_codes();
    if count > 0 {
        lemma_sources_spare(display, sources, count - 1);
        assert(spares(source_note(display, sources[count - 1])));
    }
}

proof fn lemma_configurations_spare(files: Seq<ProvenanceFile>, count: int)
    ensures
        spares(configurations_findings(files, count)),
    decreases count,
{
    lemma_workspace_codes();
    lemma_manifest_codes();
    if count > 0 {
        lemma_configurations_spare(files, count - 1);
        if let Some(source) = files[count - 1].source {
            if let Ok(document) = toml_parsed(source@) {
                let display = files[count - 1].path@;
                if let Some(value) = document.entry("source"@) {
                    if let Some(sources) = value.entries() {
                        lemma_sources_spare(display, sources, sources.len() as int);
                    }
                }
                assert(spares(configuration_findings(display, document)));
            }
        }
    }
}

proof fn lemma_document_spares(
    files: ProvenanceFiles,
    document: TomlValue,
    framework: ReleaseModel,
    features: Seq<Seq<char>>,
)
    ensures
        spares(project_document_findings(files, document, framework, features)),
{
    lemma_workspace_codes();
    let members = workspace_members(document, files.expansions@);
    lemma_manifest_spares("Cargo.toml"@, document, true, framework, features);
    if let Ok(values) = member_values(document) {
        lemma_values_spare(values, files.expansions@, values.len() as int);
    }
    assert(spares(workspace_findings(document, files.expansions@)));
    lemma_members_spare(members, files.manifests@, framework, features, members.len() as int);
}

// The law.
/// The inspection of a project's provenance finds no release mismatch; a snapshot made with it
/// carries none.
pub proof fn lemma_inspection_spares_release(
    files: ProvenanceFiles,
    framework: ReleaseModel,
    features: Seq<Seq<char>>,
)
    ensures
        spares_release(provenance_findings(project_findings(files, framework, features))),
{
    lemma_workspace_codes();
    let configured = configurations_findings(
        files.configurations@,
        files.configurations@.len() as int,
    );
    lemma_configurations_spare(files.configurations@, files.configurations@.len() as int);
    let findings = project_findings(files, framework, features);
    if let Some(root) = files.root {
        let declared = match toml_parsed(root@) {
            Err(message) => seq![
                (
                    "manifest-invalid"@,
                    "Cargo.toml"@,
                    "root Cargo manifest is invalid TOML: "@ + message,
                ),
            ],
            Ok(document) => project_document_findings(files, document, framework, features),
        };
        if let Ok(document) = toml_parsed(root@) {
            lemma_document_spares(files, document, framework, features);
        }
        let all = declared + configured;
        assert(spares(all));
        lemma_listing_exists::<ProvenanceFinding>(all);
        assert(findings == sorted_listing::<ProvenanceFinding>(all));
        assert forall|i: int| 0 <= i < findings.len() implies (#[trigger] findings[i]).0
            != "release-mismatch"@ by {
            assert(findings.contains(findings[i]));
            assert(all.contains(findings[i]));
        }
    } else {
        assert(spares(findings));
    }
    let shown = provenance_findings(findings);
    assert forall|i: int| 0 <= i < shown.len() implies (#[trigger] shown[i]).0
        != "release-mismatch"@ by {
        assert(shown[i].0 == findings[i].0);
    }
}

} // verus!
