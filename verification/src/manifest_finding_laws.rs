//! What an inspection reports of a manifest.

use vstd::prelude::*;
use vstd::string::*;

use crate::lifecycle_laws::lemma_in_sum;
use crate::provenance::{
    canonical_findings, dependency_findings, entry_findings, kind_findings, kinds_findings,
    list_entry, manifest_findings, note, package_of, table_findings, text_entry, FindingModel,
};
use crate::release::{ReleaseModel, CANONICAL_REPOSITORY};
use crate::toml_text::{entry_of, nested, TomlEntry, TomlValue};

verus! {

/// Whether something is reported of a path.
pub open spec fn notes(findings: Seq<FindingModel>, code: Seq<char>, path: Seq<char>) -> bool {
    exists|finding: FindingModel| #[trigger]
        findings.contains(finding) && finding.0 == code && finding.1 == path
}

proof fn lemma_noted_in(
    few: Seq<FindingModel>,
    many: Seq<FindingModel>,
    code: Seq<char>,
    path: Seq<char>,
)
    requires
        forall|finding: FindingModel| #[trigger] few.contains(finding) ==> many.contains(finding),
    ensures
        notes(few, code, path) ==> notes(many, code, path),
{
    if notes(few, code, path) {
        let finding = choose|finding: FindingModel| #[trigger]
            few.contains(finding) && finding.0 == code && finding.1 == path;
        assert(many.contains(finding));
    }
}

proof fn lemma_first_noted(findings: Seq<FindingModel>, path: Seq<char>)
    requires
        findings.len() > 0,
        findings[0].1 == path,
    ensures
        notes(findings, findings[0].0, path),
{
    assert(findings.contains(findings[0]));
}

/// Whether what a table declares against the rules is reported: a package of the framework by
/// another name than `service-kit`, and `service-kit` where it must not be declared.
pub open spec fn entry_is_noted(
    path: Seq<char>,
    entry: TomlEntry,
    root: bool,
    findings: Seq<FindingModel>,
) -> bool {
    let named = "omnius-"@.is_prefix_of(entry.key@) || (package_of(entry.value) matches Some(
        package,
    ) && "omnius-"@.is_prefix_of(package));
    &&& entry.key@ != "service-kit"@ && named ==> notes(
        findings,
        "omnius-dependency-forbidden"@,
        path,
    )
    &&& entry.key@ == "service-kit"@ && root ==> notes(
        findings,
        "framework-dependency-invalid"@,
        path,
    )
    &&& entry.key@ == "service-kit"@ && !root && entry_of(
        entry.value.entries()->Some_0,
        "workspace"@,
    ) != Some(TomlValue::Flag(true)) ==> notes(findings, "member-framework-use-invalid"@, path)
}

proof fn lemma_entry_noted(
    path: Seq<char>,
    table_name: Seq<char>,
    entry: TomlEntry,
    root: bool,
    dev: bool,
)
    ensures
        entry_is_noted(
            path,
            entry,
            root,
            entry_findings(path, table_name, entry, !root, dev, false),
        ),
{
    let found = entry_findings(path, table_name, entry, !root, dev, false);
    if found.len() > 0 {
        assert(found[0].1 == path);
        lemma_first_noted(found, path);
    }
}

proof fn lemma_table_listed(
    path: Seq<char>,
    table_name: Seq<char>,
    table: Seq<TomlEntry>,
    root: bool,
    dev: bool,
    count: int,
    at: int,
    finding: FindingModel,
)
    requires
        0 <= at < count <= table.len(),
        entry_findings(path, table_name, table[at], !root, dev, false).contains(finding),
    ensures
        table_findings(path, table_name, table, !root, dev, false, count).contains(finding),
    decreases count,
{
    lemma_in_sum(
        table_findings(path, table_name, table, !root, dev, false, count - 1),
        entry_findings(path, table_name, table[count - 1], !root, dev, false),
        finding,
    );
    if at < count - 1 {
        lemma_table_listed(path, table_name, table, root, dev, count - 1, at, finding);
    }
}

proof fn lemma_entry_still_noted(
    path: Seq<char>,
    entry: TomlEntry,
    root: bool,
    few: Seq<FindingModel>,
    many: Seq<FindingModel>,
)
    requires
        entry_is_noted(path, entry, root, few),
        forall|finding: FindingModel| #[trigger] few.contains(finding) ==> many.contains(finding),
    ensures
        entry_is_noted(path, entry, root, many),
{
    lemma_noted_in(few, many, "omnius-dependency-forbidden"@, path);
    lemma_noted_in(few, many, "framework-dependency-invalid"@, path);
    lemma_noted_in(few, many, "member-framework-use-invalid"@, path);
}

/// Whether every entry of a table of dependencies is reported where it breaks the rules.
pub open spec fn kind_is_noted(
    path: Seq<char>,
    document: TomlValue,
    kind: Seq<char>,
    root: bool,
    findings: Seq<FindingModel>,
) -> bool {
    document.entry(kind) matches Some(value) ==> (value.entries() matches Some(table) ==> forall|
        i: int,
    |
        0 <= i < table.len() ==> entry_is_noted(path, #[trigger] table[i], root, findings))
}

proof fn lemma_kind_noted(
    path: Seq<char>,
    document: TomlValue,
    kind: Seq<char>,
    root: bool,
    dev: bool,
    many: Seq<FindingModel>,
)
    requires
        forall|finding: FindingModel| #[trigger]
            kind_findings(path, Seq::empty(), document, kind, root, dev).contains(finding)
                ==> many.contains(finding),
    ensures
        kind_is_noted(path, document, kind, root, many),
{
    let few = kind_findings(path, Seq::empty(), document, kind, root, dev);
    if let Some(value) = document.entry(kind) {
        if let Some(table) = value.entries() {
            let name = Seq::<char>::empty() + kind;
            assert forall|i: int| 0 <= i < table.len() implies entry_is_noted(
                path,
                #[trigger] table[i],
                root,
                many,
            ) by {
                let own = entry_findings(path, name, table[i], !root, dev, false);
                lemma_entry_noted(path, name, table[i], root, dev);
                assert forall|finding: FindingModel| #[trigger] own.contains(
                    finding,
                ) implies many.contains(finding) by {
                    lemma_table_listed(
                        path,
                        name,
                        table,
                        root,
                        dev,
                        table.len() as int,
                        i,
                        finding,
                    );
                    assert(few.contains(finding));
                }
                lemma_entry_still_noted(path, table[i], root, own, many);
            }
        }
    }
}

/// Whether what is wrong with the declaration of the framework is reported: that it is missing, that
/// it is not the release's, or that its features are not those of the selection.
pub open spec fn declaration_is_noted(
    path: Seq<char>,
    document: TomlValue,
    framework: ReleaseModel,
    features: Seq<Seq<char>>,
    findings: Seq<FindingModel>,
) -> bool {
    match nested(nested(document.entry("workspace"@), "dependencies"@), "service-kit"@) {
        None => notes(findings, "framework-dependency-missing"@, path),
        Some(dependency) => match dependency.entries() {
            None => notes(findings, "framework-dependency-invalid"@, path),
            Some(table) => {
                &&& text_entry(table, "package"@) != Some("omnius-service-kit"@) || text_entry(
                    table,
                    "version"@,
                ) != Some("="@ + framework.version) || text_entry(table, "git"@) != Some(
                    CANONICAL_REPOSITORY@,
                ) || text_entry(table, "rev"@) != Some(framework.revision) || entry_of(
                    table,
                    "default-features"@,
                ) != Some(TomlValue::Flag(false)) ==> notes(
                    findings,
                    "framework-dependency-invalid"@,
                    path,
                )
                &&& list_entry(table, "features"@) != Some(features) ==> notes(
                    findings,
                    "framework-features-invalid"@,
                    path,
                )
            },
        },
    }
}

proof fn lemma_declaration_noted(
    path: Seq<char>,
    document: TomlValue,
    framework: ReleaseModel,
    features: Seq<Seq<char>>,
)
    ensures
        declaration_is_noted(
            path,
            document,
            framework,
            features,
            canonical_findings(path, document, framework, features),
        ),
{
    let found = canonical_findings(path, document, framework, features);
    match nested(nested(document.entry("workspace"@), "dependencies"@), "service-kit"@) {
        None => {
            lemma_first_noted(found, path);
        },
        Some(dependency) => {
            match dependency.entries() {
                None => {
                    lemma_first_noted(found, path);
                },
                Some(table) => {
                    let wrong_features = list_entry(table, "features"@) != Some(features);
                    let last = found.len() - 1;
                    if wrong_features {
                        assert(found[last].0 == "framework-features-invalid"@ && found[last].1
                            == path);
                        assert(found.contains(found[last]));
                    }
                    let wrong = text_entry(table, "package"@) != Some("omnius-service-kit"@)
                        || text_entry(table, "version"@) != Some("="@ + framework.version)
                        || text_entry(table, "git"@) != Some(CANONICAL_REPOSITORY@) || text_entry(
                        table,
                        "rev"@,
                    ) != Some(framework.revision) || entry_of(table, "default-features"@) != Some(
                        TomlValue::Flag(false),
                    );
                    if wrong {
                        assert(found[0].0 == "framework-dependency-invalid"@ && found[0].1 == path);
                        assert(found.contains(found[0]));
                    }
                },
            }
        },
    }
}

/// The inspection of a manifest reports every way to replace sources, at its path, what is wrong
/// with the declaration of the framework at the root, that the application does not use it, and
/// every dependency that breaks the rules.
pub proof fn lemma_manifest_findings(
    path: Seq<char>,
    document: TomlValue,
    root: bool,
    framework: ReleaseModel,
    features: Seq<Seq<char>>,
)
    ensures
        ({
            let findings = manifest_findings(path, document, root, framework, features);
            &&& document.entry("patch"@) is Some ==> notes(
                findings,
                "manifest-patch-forbidden"@,
                path,
            )
            &&& document.entry("replace"@) is Some ==> notes(
                findings,
                "manifest-replace-forbidden"@,
                path,
            )
            &&& document.entry("paths"@) is Some ==> notes(findings, "source-override"@, path)
            &&& root ==> declaration_is_noted(path, document, framework, features, findings)
            &&& path == "apps/service/Cargo.toml"@ && nested(
                document.entry("dependencies"@),
                "service-kit"@,
            ) is None ==> notes(findings, "member-framework-use-missing"@, path)
            &&& kind_is_noted(path, document, "dependencies"@, root, findings)
            &&& kind_is_noted(path, document, "dev-dependencies"@, root, findings)
            &&& kind_is_noted(path, document, "build-dependencies"@, root, findings)
        }),
{
    let findings = manifest_findings(path, document, root, framework, features);
    let canonical = if root {
        canonical_findings(path, document, framework, features)
    } else {
        Seq::empty()
    };
    let patch = note(
        document.entry("patch"@) is Some,
        "manifest-patch-forbidden"@,
        path,
        "Cargo [patch] tables are forbidden in managed projects"@,
    );
    let replace = note(
        document.entry("replace"@) is Some,
        "manifest-replace-forbidden"@,
        path,
        "Cargo [replace] tables are forbidden in managed projects"@,
    );
    let paths = note(
        document.entry("paths"@) is Some,
        "source-override"@,
        path,
        "Cargo paths substitution is forbidden in managed projects"@,
    );
    let unused = note(
        path == "apps/service/Cargo.toml"@ && nested(
            document.entry("dependencies"@),
            "service-kit"@,
        ) is None,
        "member-framework-use-missing"@,
        path,
        "apps/service must inherit service-kit from workspace.dependencies"@,
    );
    let tables = dependency_findings(path, document, root);
    assert(findings == patch + replace + paths + canonical + unused + tables);
    assert forall|finding: FindingModel| #[trigger] findings.contains(finding) <==> patch.contains(
        finding,
    ) || replace.contains(finding) || paths.contains(finding) || canonical.contains(finding)
        || unused.contains(finding) || tables.contains(finding) by {
        lemma_in_sum(patch, replace, finding);
        lemma_in_sum(patch + replace, paths, finding);
        lemma_in_sum(patch + replace + paths, canonical, finding);
        lemma_in_sum(patch + replace + paths + canonical, unused, finding);
        lemma_in_sum(patch + replace + paths + canonical + unused, tables, finding);
    }
    if document.entry("patch"@) is Some {
        lemma_first_noted(patch, path);
        lemma_noted_in(patch, findings, "manifest-patch-forbidden"@, path);
    }
    if document.entry("replace"@) is Some {
        lemma_first_noted(replace, path);
        lemma_noted_in(replace, findings, "manifest-replace-forbidden"@, path);
    }
    if document.entry("paths"@) is Some {
        lemma_first_noted(paths, path);
        lemma_noted_in(paths, findings, "source-override"@, path);
    }
    if unused.len() > 0 {
        lemma_first_noted(unused, path);
        lemma_noted_in(unused, findings, "member-framework-use-missing"@, path);
    }
    if root {
        lemma_declaration_noted(path, document, framework, features);
        lemma_noted_in(canonical, findings, "framework-dependency-missing"@, path);
        lemma_noted_in(canonical, findings, "framework-dependency-invalid"@, path);
        lemma_noted_in(canonical, findings, "framework-features-invalid"@, path);
    }
    let none = Seq::<char>::empty();
    let plain = kind_findings(path, none, document, "dependencies"@, root, false);
    let dev = kind_findings(path, none, document, "dev-dependencies"@, root, true);
    let build = kind_findings(path, none, document, "build-dependencies"@, root, false);
    let kinds = kinds_findings(path, none, document, root);
    assert forall|finding: FindingModel| #[trigger] kinds.contains(
        finding,
    ) implies findings.contains(finding) by {
        lemma_in_tables(path, document, root, finding);
    }
    assert forall|finding: FindingModel|
        #![trigger plain.contains(finding)]
        #![trigger dev.contains(finding)]
        #![trigger build.contains(finding)]
        plain.contains(finding) || dev.contains(finding) || build.contains(
            finding,
        ) implies findings.contains(finding) by {
        lemma_in_sum(plain, dev, finding);
        lemma_in_sum(plain + dev, build, finding);
        assert(kinds.contains(finding));
    }
    lemma_kind_noted(path, document, "dependencies"@, root, false, findings);
    lemma_kind_noted(path, document, "dev-dependencies"@, root, true, findings);
    lemma_kind_noted(path, document, "build-dependencies"@, root, false, findings);
}

proof fn lemma_in_tables(
    path: Seq<char>,
    document: TomlValue,
    root: bool,
    finding: FindingModel,
)
    requires
        kinds_findings(path, Seq::empty(), document, root).contains(finding),
    ensures
        dependency_findings(path, document, root).contains(finding),
{
    let kinds = kinds_findings(path, Seq::empty(), document, root);
    let all = dependency_findings(path, document, root);
    let k = choose|k: int| 0 <= k < kinds.len() && kinds[k] == finding;
    assert(all[k] == finding);
}

} // verus!
