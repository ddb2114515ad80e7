//! What a project whose provenance inspection finds nothing looks like.

use vstd::prelude::*;
use vstd::string::*;

use crate::ordered::{lemma_listing_exists, sorted_listing};
use crate::provenance::{
    canonical_findings, canonical_table_findings, dependency_findings, entry_findings,
    forbidden_key, has_foreign_key, is_canonical_key, is_foreign_key, is_test_support,
    kind_findings, kinds_findings, manifest_findings, member_findings, names_omnius, package_of,
    table_findings, targets_findings, ProvenanceFinding,
};
use crate::provenance_project::{
    configuration_findings, configurations_findings, declares_release, expansion_of, is_excluded,
    is_canonical_repository, is_safe_pattern, kept_members, member_values, members_findings,
    project_document_findings, project_findings, source_note, source_of, sources_findings,
    value_findings, value_members, values_findings, values_members, excluded_patterns,
    workspace_members, PatternExpansion, ProvenanceFile, ProvenanceFiles,
};
use crate::release::ReleaseModel;
use crate::toml_text::{entry_of, nested, toml_parsed, TomlEntry, TomlValue};

verus! {

// Members.
/// Whether a member only inherits the framework: a table whose only key is `workspace`, with the
/// value true; for tests it may beside that enable `test-support` alone.
pub open spec fn only_inherits(value: TomlValue, dev: bool) -> bool {
    value matches TomlValue::Table(table) && {
        &&& entry_of(table@, "workspace"@) == Some(TomlValue::Flag(true))
        &&& forall|i: int|
            0 <= i < table@.len() ==> (#[trigger] table@[i]).key@ == "workspace"@ || (dev
                && table@[i].key@ == "features"@)
        &&& entry_of(table@, "features"@) matches Some(features) ==> dev && (features matches
            TomlValue::List(items) && items@.len() == 1 && (items@[0] matches TomlValue::Text(
            text,
        ) && text@ == "test-support"@))
    }
}

/// Whether an entry of a dependency table is allowed: `service-kit` where the root declares it and
/// where a member inherits it, and otherwise nothing that is named or renamed from the family.
pub open spec fn is_allowed(entry: TomlEntry, member: bool, dev: bool, declares: bool) -> bool {
    if entry.key@ == "service-kit"@ {
        declares || member && only_inherits(entry.value, dev)
    } else {
        &&& !"omnius-"@.is_prefix_of(entry.key@)
        &&& !(entry.value.entry("package"@) matches Some(TomlValue::Text(package))
            && "omnius-"@.is_prefix_of(package@))
    }
}

/// Whether all entries of a dependency table are allowed.
pub open spec fn table_allowed(
    value: Option<TomlValue>,
    member: bool,
    dev: bool,
    declares: bool,
) -> bool {
    value matches Some(TomlValue::Table(table)) ==> forall|i: int|
        0 <= i < table@.len() ==> is_allowed(#[trigger] table@[i], member, dev, declares)
}

/// Whether the dependencies of every kind that a table declares are allowed.
pub open spec fn kinds_allowed(declared: TomlValue, member: bool) -> bool {
    &&& table_allowed(declared.entry("dependencies"@), member, false, false)
    &&& table_allowed(declared.entry("dev-dependencies"@), member, true, false)
    &&& table_allowed(declared.entry("build-dependencies"@), member, false, false)
}

/// Whether a manifest is clean: it overrides no source, the root declares the framework
/// canonically, the service uses it, and all dependencies, also those of targets, are allowed.
pub open spec fn manifest_is_clean(
    path: Seq<char>,
    document: TomlValue,
    root: bool,
    framework: ReleaseModel,
    features: Seq<Seq<char>>,
) -> bool {
    &&& document.entry("patch"@) is None
    &&& document.entry("replace"@) is None
    &&& document.entry("paths"@) is None
    &&& root ==> declares_release(document, framework, features)
    &&& path == "apps/service/Cargo.toml"@ ==> nested(
        document.entry("dependencies"@),
        "service-kit"@,
    ) is Some
    &&& kinds_allowed(document, !root)
    &&& document.entry("target"@) matches Some(TomlValue::Table(targets)) ==> forall|i: int|
        0 <= i < targets@.len() ==> kinds_allowed((#[trigger] targets@[i]).value, !root)
    &&& table_allowed(nested(document.entry("workspace"@), "dependencies"@), false, false, root)
}

proof fn lemma_member_use(path: Seq<char>, table_name: Seq<char>, value: TomlValue, dev: bool)
    ensures
        member_findings(path, table_name, value, dev).len() == 0 <==> only_inherits(value, dev),
{
    if let TomlValue::Table(table) = value {
        let entries = table@;
        if has_foreign_key(entries, dev) {
            let i = choose|i: int|
                0 <= i < entries.len() && is_foreign_key((#[trigger] entries[i]).key@, dev);
            assert(!(entries[i].key@ == "workspace"@ || (dev && entries[i].key@ == "features"@)));
        } else {
            assert forall|i: int| 0 <= i < entries.len() implies (#[trigger] entries[i]).key@
                == "workspace"@ || (dev && entries[i].key@ == "features"@) by {
                assert(!is_foreign_key(entries[i].key@, dev));
            }
        }
        if let Some(features) = entry_of(entries, "features"@) {
            assert(is_test_support(features) <==> (features matches TomlValue::List(items)
                && items@.len() == 1 && (items@[0] matches TomlValue::Text(text) && text@
                == "test-support"@)));
        }
    }
}

proof fn lemma_table_clean(
    path: Seq<char>,
    table_name: Seq<char>,
    table: Seq<TomlEntry>,
    member: bool,
    dev: bool,
    canonical: bool,
    count: int,
)
    requires
        0 <= count <= table.len(),
    ensures
        table_findings(path, table_name, table, member, dev, canonical, count).len() == 0
            <==> forall|i: int|
            0 <= i < count ==> is_allowed(
                #[trigger] table[i],
                member,
                dev,
                canonical && table_name == "workspace.dependencies"@,
            ),
    decreases count,
{
    if count > 0 {
        lemma_table_clean(path, table_name, table, member, dev, canonical, count - 1);
        let entry = table[count - 1];
        lemma_member_use(path, table_name, entry.value, dev);
        reveal_strlit("omnius-");
        reveal_strlit("omnius-generator");
        assert(names_omnius(entry.key@) == "omnius-"@.is_prefix_of(entry.key@));
        if let Some(package) = package_of(entry.value) {
            assert(names_omnius(package) == "omnius-"@.is_prefix_of(package));
        }
        let found = entry_findings(path, table_name, entry, member, dev, canonical);
        assert(found.len() == 0 <==> is_allowed(
            entry,
            member,
            dev,
            canonical && table_name == "workspace.dependencies"@,
        ));
    }
}

proof fn lemma_kind_clean(
    path: Seq<char>,
    prefix: Seq<char>,
    declared: TomlValue,
    kind: Seq<char>,
    root: bool,
    dev: bool,
)
    ensures
        kind_findings(path, prefix, declared, kind, root, dev).len() == 0 <==> table_allowed(
            declared.entry(kind),
            !root,
            dev,
            false,
        ),
{
    if let Some(TomlValue::Table(table)) = declared.entry(kind) {
        lemma_table_clean(path, prefix + kind, table@, !root, dev, false, table@.len() as int);
    }
}

proof fn lemma_kinds_clean(path: Seq<char>, prefix: Seq<char>, declared: TomlValue, root: bool)
    ensures
        kinds_findings(path, prefix, declared, root).len() == 0 <==> kinds_allowed(
            declared,
            !root,
        ),
{
    lemma_kind_clean(path, prefix, declared, "dependencies"@, root, false);
    lemma_kind_clean(path, prefix, declared, "dev-dependencies"@, root, true);
    lemma_kind_clean(path, prefix, declared, "build-dependencies"@, root, false);
}

proof fn lemma_targets_clean(path: Seq<char>, targets: Seq<TomlEntry>, root: bool, count: int)
    requires
        0 <= count <= targets.len(),
    ensures
        targets_findings(path, targets, root, count).len() == 0 <==> forall|i: int|
            0 <= i < count ==> kinds_allowed((#[trigger] targets[i]).value, !root),
    decreases count,
{
    if count > 0 {
        lemma_targets_clean(path, targets, root, count - 1);
        lemma_kinds_clean(
            path,
            "target."@ + targets[count - 1].key@ + "."@,
            targets[count - 1].value,
            root,
        );
    }
}

proof fn lemma_keys_allowed(table: Seq<TomlEntry>, at: int)
    requires
        0 <= at <= table.len(),
    ensures
        forbidden_key(table, at) is None <==> forall|i: int|
            at <= i < table.len() ==> is_canonical_key((#[trigger] table[i]).key@),
    decreases table.len() - at,
{
    if at < table.len() {
        lemma_keys_allowed(table, at + 1);
    }
}

proof fn lemma_declaration_clean(
    path: Seq<char>,
    document: TomlValue,
    framework: ReleaseModel,
    features: Seq<Seq<char>>,
)
    ensures
        canonical_findings(path, document, framework, features).len() == 0 <==> declares_release(
            document,
            framework,
            features,
        ),
{
    if let Some(dependency) = nested(
        nested(document.entry("workspace"@), "dependencies"@),
        "service-kit"@,
    ) {
        if let Some(table) = dependency.entries() {
            lemma_keys_allowed(table, 0);
            assert(canonical_table_findings(path, table, framework, features).len() == 0
                <==> declares_release(document, framework, features));
        }
    }
}

/// A manifest has no finding exactly where it is clean.
pub proof fn lemma_clean_manifest(
    path: Seq<char>,
    document: TomlValue,
    root: bool,
    framework: ReleaseModel,
    features: Seq<Seq<char>>,
)
    ensures
        manifest_findings(path, document, root, framework, features).len() == 0
            <==> manifest_is_clean(path, document, root, framework, features),
{
    lemma_declaration_clean(path, document, framework, features);
    lemma_kinds_clean(path, Seq::empty(), document, root);
    if let Some(TomlValue::Table(targets)) = document.entry("target"@) {
        lemma_targets_clean(path, targets@, root, targets@.len() as int);
    }
    if let Some(TomlValue::Table(table)) = nested(document.entry("workspace"@), "dependencies"@) {
        lemma_table_clean(
            path,
            "workspace.dependencies"@,
            table@,
            false,
            false,
            root,
            table@.len() as int,
        );
    }
    assert(dependency_findings(path, document, root).len() == 0 <==> {
        &&& kinds_allowed(document, !root)
        &&& document.entry("target"@) matches Some(TomlValue::Table(targets)) ==> forall|i: int|
            0 <= i < targets@.len() ==> kinds_allowed((#[trigger] targets@[i]).value, !root)
        &&& table_allowed(nested(document.entry("workspace"@), "dependencies"@), false, false, root)
    });
}

// Configurations.
/// Whether a Cargo configuration substitutes no path and replaces the canonical repository under no
/// source, named by its key or by its address.
pub open spec fn configuration_is_clean(document: TomlValue) -> bool {
    &&& document.entry("paths"@) is None
    &&& document.entry("source"@) matches Some(TomlValue::Table(sources)) ==> forall|i: int|
        0 <= i < sources@.len() && (#[trigger] sources@[i]).value.entry("replace-with"@) is Some
            ==> !is_canonical_repository(sources@[i].key@) && !(sources@[i].value.entry(
            "git"@,
        ) matches Some(TomlValue::Text(address)) && is_canonical_repository(address@))
}

proof fn lemma_sources_clean(display: Seq<char>, sources: Seq<TomlEntry>, count: int)
    requires
        0 <= count <= sources.len(),
    ensures
        sources_findings(display, sources, count).len() == 0 <==> forall|i: int|
            0 <= i < count && (#[trigger] sources[i]).value.entry("replace-with"@) is Some
                ==> !is_canonical_repository(sources[i].key@) && !(sources[i].value.entry(
                "git"@,
            ) matches Some(TomlValue::Text(address)) && is_canonical_repository(address@)),
    decreases count,
{
    if count > 0 {
        lemma_sources_clean(display, sources, count - 1);
        let source = sources[count - 1];
        assert(source_note(display, source).len() == 0 <==> (source.value.entry(
            "replace-with"@,
        ) is Some ==> !is_canonical_repository(source.key@) && !(source.value.entry(
            "git"@,
        ) matches Some(TomlValue::Text(address)) && is_canonical_repository(address@))));
    }
}

proof fn lemma_configuration_clean(display: Seq<char>, document: TomlValue)
    ensures
        configuration_findings(display, document).len() == 0 <==> configuration_is_clean(document),
{
    if let Some(TomlValue::Table(sources)) = document.entry("source"@) {
        lemma_sources_clean(display, sources@, sources@.len() as int);
    }
}

proof fn lemma_configurations_clean(files: Seq<ProvenanceFile>, count: int)
    requires
        0 <= count <= files.len(),
    ensures
        configurations_findings(files, count).len() == 0 <==> forall|i: int|
            0 <= i < count ==> file_is_clean(#[trigger] files[i]),
    decreases count,
{
    if count > 0 {
        lemma_configurations_clean(files, count - 1);
        if let Some(source) = files[count - 1].source {
            if let Ok(document) = toml_parsed(source@) {
                lemma_configuration_clean(files[count - 1].path@, document);
            }
        }
    }
}

/// Whether a configuration file, if there is one, is a clean document.
pub open spec fn file_is_clean(file: ProvenanceFile) -> bool {
    file.source matches Some(source) ==> (toml_parsed(source@) matches Ok(document)
        && configuration_is_clean(document))
}

// Workspaces.
proof fn lemma_values_clean(
    values: Seq<TomlValue>,
    expansions: Seq<PatternExpansion>,
    count: int,
)
    requires
        0 <= count <= values.len(),
    ensures
        values_findings(values, expansions, count).len() == 0 <==> forall|i: int|
            0 <= i < count ==> pattern_is_clean(#[trigger] values[i], expansions),
    decreases count,
{
    if count > 0 {
        lemma_values_clean(values, expansions, count - 1);
        assert(value_findings(values[count - 1], expansions).len() == 0 <==> pattern_is_clean(
            values[count - 1],
            expansions,
        ));
    }
}

/// Whether a member entry is a safe pattern that stands for some directory.
pub open spec fn pattern_is_clean(value: TomlValue, expansions: Seq<PatternExpansion>) -> bool {
    value matches TomlValue::Text(pattern) && is_safe_pattern(pattern@) && expansion_of(
        expansions,
        pattern@,
        0,
    ).len() > 0
}

proof fn lemma_members_clean(
    members: Seq<Seq<char>>,
    files: Seq<ProvenanceFile>,
    framework: ReleaseModel,
    features: Seq<Seq<char>>,
    count: int,
)
    requires
        0 <= count <= members.len(),
    ensures
        members_findings(members, files, framework, features, count).len() == 0 <==> forall|i: int|
            0 <= i < count ==> member_is_clean(#[trigger] members[i], files, framework, features),
    decreases count,
{
    if count > 0 {
        lemma_members_clean(members, files, framework, features, count - 1);
        let manifest = members[count - 1] + "/Cargo.toml"@;
        if let Some(text) = source_of(files, manifest, 0) {
            if let Ok(document) = toml_parsed(text) {
                lemma_clean_manifest(manifest, document, false, framework, features);
            }
        }
    }
}

/// Whether a member has a manifest, and a clean one.
pub open spec fn member_is_clean(
    member: Seq<char>,
    files: Seq<ProvenanceFile>,
    framework: ReleaseModel,
    features: Seq<Seq<char>>,
) -> bool {
    let manifest = member + "/Cargo.toml"@;
    source_of(files, manifest, 0) matches Some(text) && (toml_parsed(text) matches Ok(document)
        && manifest_is_clean(manifest, document, false, framework, features))
}

/// An inspection finds nothing exactly where the root manifest is a clean document, its members
/// array holds safe patterns that stand for some directory, the service is a member, every member
/// has a clean manifest, and every Cargo configuration in effect is a clean document.
pub proof fn lemma_clean_project(
    files: ProvenanceFiles,
    framework: ReleaseModel,
    features: Seq<Seq<char>>,
)
    ensures
        project_findings(files, framework, features).len() == 0 <==> {
            &&& files.root matches Some(root) && (toml_parsed(root@) matches Ok(document) && {
                let members = workspace_members(document, files.expansions@);
                &&& manifest_is_clean("Cargo.toml"@, document, true, framework, features)
                &&& nested(document.entry("workspace"@), "members"@) matches Some(
                    TomlValue::List(values),
                ) && forall|i: int|
                    0 <= i < values@.len() ==> pattern_is_clean(
                        #[trigger] values@[i],
                        files.expansions@,
                    )
                &&& members.contains("apps/service"@)
                &&& forall|i: int|
                    0 <= i < members.len() ==> member_is_clean(
                        #[trigger] members[i],
                        files.manifests@,
                        framework,
                        features,
                    )
            })
            &&& forall|i: int|
                0 <= i < files.configurations@.len() ==> file_is_clean(
                    #[trigger] files.configurations@[i],
                )
        },
{
    let configured = configurations_findings(
        files.configurations@,
        files.configurations@.len() as int,
    );
    lemma_configurations_clean(files.configurations@, files.configurations@.len() as int);
    if let Some(root) = files.root {
        if let Ok(document) = toml_parsed(root@) {
            let members = workspace_members(document, files.expansions@);
            lemma_clean_manifest("Cargo.toml"@, document, true, framework, features);
            if let Ok(values) = member_values(document) {
                lemma_values_clean(values, files.expansions@, values.len() as int);
            }
            lemma_members_clean(
                members,
                files.manifests@,
                framework,
                features,
                members.len() as int,
            );
            let declared = project_document_findings(files, document, framework, features);
            let all = declared + configured;
            lemma_listing_exists::<ProvenanceFinding>(all);
            let sorted = sorted_listing::<ProvenanceFinding>(all);
            if all.len() > 0 {
                assert(all.contains(all[0]));
                assert(sorted.contains(all[0]));
            }
            if sorted.len() > 0 {
                assert(sorted.contains(sorted[0]));
                assert(all.contains(sorted[0]));
            }
            assert(project_findings(files, framework, features) == sorted);
        } else {
            let message = toml_parsed(root@)->Err_0;
            let declared = seq![
                (
                    "manifest-invalid"@,
                    "Cargo.toml"@,
                    "root Cargo manifest is invalid TOML: "@ + message,
                ),
            ];
            let all = declared + configured;
            lemma_listing_exists::<ProvenanceFinding>(all);
            assert(all.contains(all[0]));
            assert(sorted_listing::<ProvenanceFinding>(all).contains(all[0]));
        }
    }
}

proof fn lemma_kept_members(expanded: Seq<Seq<char>>, excluded: Seq<Seq<char>>, count: int)
    requires
        0 <= count <= expanded.len(),
    ensures
        forall|member: Seq<char>| #[trigger]
            kept_members(expanded, excluded, count).contains(member) <==> expanded.take(
                count,
            ).contains(member) && member != "."@ && !is_excluded(excluded, member),
    decreases count,
{
    let now = kept_members(expanded, excluded, count);
    if count > 0 {
        lemma_kept_members(expanded, excluded, count - 1);
        let before = kept_members(expanded, excluded, count - 1);
        let few = expanded.take(count - 1);
        let more = expanded.take(count);
        let last = expanded[count - 1];
        assert forall|member: Seq<char>| #[trigger] now.contains(member) <==> more.contains(member)
            && member != "."@ && !is_excluded(excluded, member) by {
            assert(before.contains(member) <==> few.contains(member) && member != "."@
                && !is_excluded(excluded, member));
            if more.contains(member) {
                let k = choose|k: int| 0 <= k < more.len() && more[k] == member;
                if k < few.len() {
                    assert(few[k] == member);
                }
            }
            if few.contains(member) {
                let k = choose|k: int| 0 <= k < few.len() && few[k] == member;
                assert(more[k] == member);
            }
            assert(more[count - 1] == last);
            if now != before {
                assert(now == before.push(last));
                if before.contains(member) {
                    let k = choose|k: int| 0 <= k < before.len() && before[k] == member;
                    assert(now[k] == member);
                }
                if now.contains(member) && member != last {
                    let k = choose|k: int| 0 <= k < now.len() && now[k] == member;
                    assert(before[k] == member);
                }
                assert(now[before.len() as int] == last);
            }
        }
    } else {
        assert(expanded.take(0) =~= Seq::<Seq<char>>::empty());
    }
}

proof fn lemma_values_members(
    values: Seq<TomlValue>,
    excluded: Seq<Seq<char>>,
    expansions: Seq<PatternExpansion>,
    count: int,
)
    requires
        0 <= count <= values.len(),
    ensures
        forall|member: Seq<char>| #[trigger]
            values_members(values, excluded, expansions, count).contains(member) <==> exists|i: int|
                0 <= i < count && stands_for(#[trigger] values[i], expansions, member) && member
                    != "."@ && !is_excluded(excluded, member),
    decreases count,
{
    let now = values_members(values, excluded, expansions, count);
    if count > 0 {
        lemma_values_members(values, excluded, expansions, count - 1);
        let before = values_members(values, excluded, expansions, count - 1);
        let more = value_members(values[count - 1], excluded, expansions);
        assert(now == before + more);
        assert forall|member: Seq<char>| #[trigger] now.contains(member) <==> exists|i: int|
            0 <= i < count && stands_for(#[trigger] values[i], expansions, member) && member
                != "."@ && !is_excluded(excluded, member) by {
            assert(before.contains(member) <==> exists|i: int|
                0 <= i < count - 1 && stands_for(#[trigger] values[i], expansions, member)
                    && member != "."@ && !is_excluded(excluded, member));
            if let TomlValue::Text(pattern) = values[count - 1] {
                let expanded = expansion_of(expansions, pattern@, 0);
                lemma_kept_members(expanded, excluded, expanded.len() as int);
                assert(expanded.take(expanded.len() as int) =~= expanded);
            }
            assert(more.contains(member) <==> stands_for(values[count - 1], expansions, member)
                && member != "."@ && !is_excluded(excluded, member));
            if now.contains(member) {
                let k = choose|k: int| 0 <= k < now.len() && now[k] == member;
                if k < before.len() {
                    assert(before[k] == member);
                } else {
                    assert(more[k - before.len()] == member);
                }
            }
            if before.contains(member) {
                let k = choose|k: int| 0 <= k < before.len() && before[k] == member;
                assert(now[k] == member);
            }
            if more.contains(member) {
                let k = choose|k: int| 0 <= k < more.len() && more[k] == member;
                assert(now[before.len() + k] == member);
            }
        }
    }
}

/// Whether a member entry is a safe pattern that stands for a directory.
pub open spec fn stands_for(
    value: TomlValue,
    expansions: Seq<PatternExpansion>,
    member: Seq<char>,
) -> bool {
    value matches TomlValue::Text(pattern) && is_safe_pattern(pattern@) && expansion_of(
        expansions,
        pattern@,
        0,
    ).contains(member)
}

/// The members of a workspace are exactly the directories that one of its safe member patterns
/// stands for, but for the root itself and for what is excluded.
pub proof fn lemma_workspace_members(
    document: TomlValue,
    expansions: Seq<PatternExpansion>,
    member: Seq<char>,
)
    ensures
        workspace_members(document, expansions).contains(member) <==> (nested(
            document.entry("workspace"@),
            "members"@,
        ) matches Some(TomlValue::List(values)) && member != "."@ && !is_excluded(
            excluded_patterns(document.entry("workspace"@)->Some_0),
            member,
        ) && exists|i: int|
            0 <= i < values@.len() && stands_for(#[trigger] values@[i], expansions, member)),
{
    if let Ok(values) = member_values(document) {
        let excluded = excluded_patterns(document.entry("workspace"@)->Some_0);
        let all = values_members(values, excluded, expansions, values.len() as int);
        lemma_values_members(values, excluded, expansions, values.len() as int);
        lemma_listing_exists::<String>(all);
        assert(workspace_members(document, expansions).contains(member) <==> all.contains(member));
    }
}

} // verus!
