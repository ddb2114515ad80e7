//! Provenance of the framework in Cargo manifests and configuration.

use vstd::prelude::*;
use vstd::string::*;

use crate::cargo_graph::{lemma_text_key_split, push_text_key, text_key};
use crate::ordered::{models, Distinct, Keyed};
use crate::release::{ReleaseIdentity, ReleaseModel, CANONICAL_REPOSITORY};
use crate::text::{join2, join3, join5, join_texts, joined, same_text, same_texts, starts_with, texts};
use crate::toml_text::{entry_of, find_entry, get_nested, nested, TomlEntry, TomlValue};

verus! {

/// One deterministic manifest or Cargo-configuration provenance violation.
#[derive(Debug)]
pub struct ProvenanceFinding {
    /// Stable diagnostic code.
    pub code: &'static str,
    /// Manifest-relative or configuration path.
    pub path: String,
    /// Actionable violation description.
    pub message: String,
}

/// The value of a finding: code, path and message.
pub type FindingModel = (Seq<char>, Seq<char>, Seq<char>);

impl Keyed for ProvenanceFinding {
    type Model = FindingModel;

    open spec fn model(&self) -> FindingModel {
        (self.code@, self.path@, self.message@)
    }

    open spec fn key(model: FindingModel) -> Seq<u32> {
        text_key(model.0) + text_key(model.1) + text_key(model.2)
    }

    fn key_codes(&self) -> (result: Vec<u32>) {
        let mut key: Vec<u32> = Vec::new();
        push_text_key(&mut key, self.code);
        push_text_key(&mut key, self.path.as_str());
        push_text_key(&mut key, self.message.as_str());
        assert(key@ =~= text_key(self.code@) + text_key(self.path@) + text_key(self.message@));
        key
    }

    fn duplicate(&self) -> (copy: Self) {
        ProvenanceFinding {
            code: self.code,
            path: self.path.clone(),
            message: self.message.clone(),
        }
    }
}

impl Distinct for ProvenanceFinding {
    proof fn key_injective(left: FindingModel, right: FindingModel) {
        let none = Seq::<u32>::empty();
        let left_rest = text_key(left.1) + (text_key(left.2) + none);
        let right_rest = text_key(right.1) + (text_key(right.2) + none);
        assert(text_key(left.0) + text_key(left.1) + text_key(left.2) =~= text_key(left.0)
            + left_rest);
        assert(text_key(right.0) + text_key(right.1) + text_key(right.2) =~= text_key(right.0)
            + right_rest);
        lemma_text_key_split(left.0, left_rest, right.0, right_rest);
        lemma_text_key_split(left.1, text_key(left.2) + none, right.1, text_key(right.2) + none);
        lemma_text_key_split(left.2, none, right.2, none);
    }
}

/// A finding, where a condition holds.
pub open spec fn note(
    condition: bool,
    code: Seq<char>,
    path: Seq<char>,
    message: Seq<char>,
) -> Seq<FindingModel> {
    if condition {
        seq![(code, path, message)]
    } else {
        Seq::empty()
    }
}

fn report(findings: &mut Vec<ProvenanceFinding>, code: &'static str, path: &str, message: String)
    ensures
        models(final(findings)@) == models(old(findings)@) + seq![(code@, path@, message@)],
{
    let ghost before = models(findings@);
    findings.push(ProvenanceFinding { code, path: path.to_owned(), message });
    assert(models(findings@) =~= before + seq![(code@, path@, message@)]);
}

pub(crate) fn report_when(
    findings: &mut Vec<ProvenanceFinding>,
    condition: bool,
    code: &'static str,
    path: &str,
    message: &str,
)
    ensures
        models(final(findings)@) == models(old(findings)@) + note(condition, code@, path@, message@),
{
    if condition {
        report(findings, code, path, message.to_owned());
    } else {
        assert(models(findings@) =~= models(findings@) + Seq::<FindingModel>::empty());
    }
}

pub(crate) fn no_findings() -> (findings: Vec<ProvenanceFinding>)
    ensures
        models(findings@) == Seq::<FindingModel>::empty(),
{
    let findings: Vec<ProvenanceFinding> = Vec::new();
    assert(models(findings@) =~= Seq::<FindingModel>::empty());
    findings
}

pub(crate) fn one_finding(code: &'static str, path: &str, message: String) -> (findings: Vec<
    ProvenanceFinding,
>)
    ensures
        models(findings@) == seq![(code@, path@, message@)],
{
    let mut findings: Vec<ProvenanceFinding> = Vec::new();
    findings.push(ProvenanceFinding { code, path: path.to_owned(), message });
    assert(models(findings@) =~= seq![(code@, path@, message@)]);
    findings
}

pub(crate) fn append_findings(findings: &mut Vec<ProvenanceFinding>, more: Vec<ProvenanceFinding>)
    ensures
        models(final(findings)@) == models(old(findings)@) + models(more@),
{
    let ghost before = models(findings@);
    let ghost added = models(more@);
    let mut rest = more;
    findings.append(&mut rest);
    assert(models(findings@) =~= before + added);
}

pub(crate) proof fn lemma_first(findings: Seq<FindingModel>)
    ensures
        Seq::<FindingModel>::empty() + findings == findings,
{
    assert(Seq::<FindingModel>::empty() + findings =~= findings);
}

// The canonical dependency.
/// Whether the canonical dependency may have a key.
pub open spec fn is_canonical_key(key: Seq<char>) -> bool {
    ||| key == "package"@
    ||| key == "version"@
    ||| key == "git"@
    ||| key == "rev"@
    ||| key == "default-features"@
    ||| key == "features"@
}

/// The first key, from place `at` on, that the canonical dependency may not have.
pub open spec fn forbidden_key(table: Seq<TomlEntry>, at: int) -> Option<Seq<char>>
    decreases table.len() - at,
{
    if at < 0 || at >= table.len() {
        None
    } else if !is_canonical_key(table[at].key@) {
        Some(table[at].key@)
    } else {
        forbidden_key(table, at + 1)
    }
}

/// The finding that a key of the canonical dependency is not the string that it must be.
pub open spec fn string_note(
    path: Seq<char>,
    table: Seq<TomlEntry>,
    key: Seq<char>,
    expected: Seq<char>,
) -> Seq<FindingModel> {
    note(
        text_entry(table, key) != Some(expected),
        "framework-dependency-invalid"@,
        path,
        "workspace.dependencies.service-kit `"@ + key + "` must be exactly `"@ + expected + "`"@,
    )
}

/// The string that a key of a table has.
pub open spec fn text_entry(table: Seq<TomlEntry>, key: Seq<char>) -> Option<Seq<char>> {
    match entry_of(table, key) {
        Some(value) => value.text(),
        None => None,
    }
}

/// The first `count` items of an array, where all of them are strings.
pub open spec fn text_items(items: Seq<TomlValue>, count: int) -> Option<Seq<Seq<char>>>
    decreases count,
{
    if count <= 0 {
        Some(Seq::empty())
    } else {
        match (text_items(items, count - 1), items[count - 1].text()) {
            (Some(list), Some(text)) => Some(list.push(text)),
            _ => None,
        }
    }
}

/// The strings of an array of strings that a key of a table has.
pub open spec fn list_entry(table: Seq<TomlEntry>, key: Seq<char>) -> Option<Seq<Seq<char>>> {
    match entry_of(table, key) {
        Some(value) => match value.items() {
            Some(items) => text_items(items, items.len() as int),
            None => None,
        },
        None => None,
    }
}

/// What is wrong with the canonical declaration of the framework.
pub open spec fn canonical_findings(
    path: Seq<char>,
    document: TomlValue,
    framework: ReleaseModel,
    features: Seq<Seq<char>>,
) -> Seq<FindingModel> {
    match nested(nested(document.entry("workspace"@), "dependencies"@), "service-kit"@) {
        None => seq![
            (
                "framework-dependency-missing"@,
                path,
                "root workspace must declare workspace.dependencies.service-kit"@,
            ),
        ],
        Some(dependency) => match dependency.entries() {
            None => seq![
                (
                    "framework-dependency-invalid"@,
                    path,
                    "workspace.dependencies.service-kit must be a dependency table"@,
                ),
            ],
            Some(table) => canonical_table_findings(path, table, framework, features),
        },
    }
}

/// What is wrong with the table of the canonical declaration.
pub open spec fn canonical_table_findings(
    path: Seq<char>,
    table: Seq<TomlEntry>,
    framework: ReleaseModel,
    features: Seq<Seq<char>>,
) -> Seq<FindingModel> {
    note(
        forbidden_key(table, 0) is Some,
        "framework-dependency-invalid"@,
        path,
        "workspace.dependencies.service-kit contains forbidden key `"@ + (match forbidden_key(
            table,
            0,
        ) {
            Some(key) => key,
            None => Seq::empty(),
        }) + "`"@,
    ) + string_note(path, table, "package"@, "omnius-service-kit"@) + string_note(
        path,
        table,
        "version"@,
        "="@ + framework.version,
    ) + string_note(path, table, "git"@, CANONICAL_REPOSITORY@) + string_note(
        path,
        table,
        "rev"@,
        framework.revision,
    ) + note(
        entry_of(table, "default-features"@) != Some(TomlValue::Flag(false)),
        "framework-dependency-invalid"@,
        path,
        "workspace.dependencies.service-kit must set default-features = false"@,
    ) + note(
        list_entry(table, "features"@) != Some(features),
        "framework-features-invalid"@,
        path,
        "workspace.dependencies.service-kit features must exactly match ["@ + joined(
            features,
            ", "@,
        ) + "]"@,
    )
}

fn canonical_key(key: &str) -> (result: bool)
    ensures
        result == is_canonical_key(key@),
{
    same_text(key, "package") || same_text(key, "version") || same_text(key, "git") || same_text(
        key,
        "rev",
    ) || same_text(key, "default-features") || same_text(key, "features")
}

fn find_forbidden_key(table: &Vec<TomlEntry>) -> (found: Option<&str>)
    ensures
        match found {
            Some(key) => forbidden_key(table@, 0) == Some(key@),
            None => forbidden_key(table@, 0) is None,
        },
{
    let mut index: usize = 0;
    while index < table.len()
        invariant
            index <= table@.len(),
            forbidden_key(table@, 0) == forbidden_key(table@, index as int),
        decreases table@.len() - index,
    {
        if !canonical_key(table[index].key.as_str()) {
            return Some(table[index].key.as_str());
        }
        index += 1;
    }
    None
}

fn require_dependency_string(
    path: &str,
    table: &Vec<TomlEntry>,
    key: &str,
    expected: &str,
    findings: &mut Vec<ProvenanceFinding>,
)
    ensures
        models(final(findings)@) == models(old(findings)@) + string_note(
            path@,
            table@,
            key@,
            expected@,
        ),
{
    let same = match find_entry(table, key) {
        Some(value) => value.is_text(expected),
        None => false,
    };
    let message = join5(
        "workspace.dependencies.service-kit `",
        key,
        "` must be exactly `",
        expected,
        "`",
    );
    report_when(findings, !same, "framework-dependency-invalid", path, message.as_str());
}

fn items_are(items: &Vec<TomlValue>, expected: &Vec<String>) -> (same: bool)
    ensures
        same == (text_items(items@, items@.len() as int) == Some(texts(expected@))),
{
    let mut list: Vec<String> = Vec::new();
    let mut index: usize = 0;
    assert(texts(list@) =~= Seq::<Seq<char>>::empty());
    while index < items.len()
        invariant
            index <= items@.len(),
            text_items(items@, index as int) == Some(texts(list@)),
        decreases items@.len() - index,
    {
        match items[index].as_text() {
            Some(text) => {
                let ghost before = texts(list@);
                list.push(text.to_owned());
                assert(texts(list@) =~= before.push(text@));
            },
            None => {
                proof {
                    lemma_text_items_fail(items@, index + 1, items@.len() as int);
                }
                return false;
            },
        }
        index += 1;
    }
    same_texts(&list, expected)
}

proof fn lemma_text_items_fail(items: Seq<TomlValue>, count: int, total: int)
    requires
        text_items(items, count) is None,
        count <= total,
    ensures
        text_items(items, total) is None,
    decreases total - count,
{
    if count < total {
        lemma_text_items_fail(items, count, total - 1);
    }
}

fn inspect_canonical_table(
    path: &str,
    table: &Vec<TomlEntry>,
    framework: &ReleaseIdentity,
    runtime_features: &Vec<String>,
) -> (findings: Vec<ProvenanceFinding>)
    ensures
        models(findings@) == canonical_table_findings(
            path@,
            table@,
            framework@,
            texts(runtime_features@),
        ),
{
    let mut findings = no_findings();
    let forbidden = find_forbidden_key(table);
    let unwanted = match forbidden {
        Some(key) => key,
        None => "",
    };
    let message = join3(
        "workspace.dependencies.service-kit contains forbidden key `",
        unwanted,
        "`",
    );
    proof {
        reveal_strlit("");
        assert(forbidden is None ==> unwanted@ =~= Seq::<char>::empty());
        lemma_first(
            note(forbidden is Some, "framework-dependency-invalid"@, path@, message@),
        );
    }
    report_when(
        &mut findings,
        forbidden.is_some(),
        "framework-dependency-invalid",
        path,
        message.as_str(),
    );
    let version = join2("=", framework.version());
    require_dependency_string(path, table, "package", "omnius-service-kit", &mut findings);
    require_dependency_string(path, table, "version", version.as_str(), &mut findings);
    require_dependency_string(path, table, "git", CANONICAL_REPOSITORY, &mut findings);
    require_dependency_string(path, table, "rev", framework.revision(), &mut findings);
    let defaults_off = match find_entry(table, "default-features") {
        Some(value) => value.is_flag(false),
        None => false,
    };
    report_when(
        &mut findings,
        !defaults_off,
        "framework-dependency-invalid",
        path,
        "workspace.dependencies.service-kit must set default-features = false",
    );
    let features_match = match find_entry(table, "features") {
        Some(value) => match value.as_list() {
            Some(items) => items_are(items, runtime_features),
            None => false,
        },
        None => false,
    };
    let listed = join_texts(runtime_features, ", ");
    let message = join3(
        "workspace.dependencies.service-kit features must exactly match [",
        listed.as_str(),
        "]",
    );
    report_when(
        &mut findings,
        !features_match,
        "framework-features-invalid",
        path,
        message.as_str(),
    );
    findings
}

fn inspect_canonical_workspace_dependency(
    path: &str,
    document: &TomlValue,
    framework: &ReleaseIdentity,
    runtime_features: &Vec<String>,
) -> (findings: Vec<ProvenanceFinding>)
    ensures
        models(findings@) == canonical_findings(
            path@,
            *document,
            framework@,
            texts(runtime_features@),
        ),
{
    let workspace = document.get("workspace");
    let dependencies = get_nested(workspace, "dependencies");
    match get_nested(dependencies, "service-kit") {
        None => one_finding(
            "framework-dependency-missing",
            path,
            "root workspace must declare workspace.dependencies.service-kit".to_owned(),
        ),
        Some(dependency) => match dependency.as_table() {
            None => one_finding(
                "framework-dependency-invalid",
                path,
                "workspace.dependencies.service-kit must be a dependency table".to_owned(),
            ),
            Some(table) => inspect_canonical_table(path, table, framework, runtime_features),
        },
    }
}

// Dependency tables.
/// Whether a package is one of the framework's own by its name.
pub open spec fn names_omnius(name: Seq<char>) -> bool {
    "omnius-"@.is_prefix_of(name) || name == "omnius-generator"@
}

/// Whether a key is one that a member's use of the framework may not have.
pub open spec fn is_foreign_key(key: Seq<char>, dev: bool) -> bool {
    key != "workspace"@ && !(dev && key == "features"@)
}

/// Whether a member's use of the framework has a key that it may not have.
pub open spec fn has_foreign_key(table: Seq<TomlEntry>, dev: bool) -> bool {
    exists|i: int| 0 <= i < table.len() && is_foreign_key((#[trigger] table[i]).key@, dev)
}

/// Whether a value is an array that holds `test-support` alone.
pub open spec fn is_test_support(features: TomlValue) -> bool {
    features.items() matches Some(items) && items.len() == 1 && items[0].text() == Some(
        "test-support"@,
    )
}

/// What is wrong with a member's use of the framework.
pub open spec fn member_findings(
    path: Seq<char>,
    table_name: Seq<char>,
    dependency: TomlValue,
    dev: bool,
) -> Seq<FindingModel> {
    let code = "member-framework-use-invalid"@;
    match dependency.entries() {
        None => seq![(code, path, "`"@ + table_name + ".service-kit` must set workspace = true"@)],
        Some(table) => if entry_of(table, "workspace"@) != Some(TomlValue::Flag(true))
            || has_foreign_key(table, dev) {
            seq![
                (
                    code,
                    path,
                    "`"@ + table_name + ".service-kit` may only inherit workspace = true"@ + (if dev {
                        " and enable test-support"@
                    } else {
                        ""@
                    }),
                ),
            ]
        } else {
            match entry_of(table, "features"@) {
                Some(features) => note(
                    !(dev && is_test_support(features)),
                    code,
                    path,
                    "`"@ + table_name
                        + ".service-kit` may only enable the test-support feature from dev-dependencies"@,
                ),
                None => Seq::empty(),
            }
        },
    }
}

/// The package that a dependency names.
pub open spec fn package_of(dependency: TomlValue) -> Option<Seq<char>> {
    match dependency.entry("package"@) {
        Some(value) => value.text(),
        None => None,
    }
}

/// What is wrong with one entry of a dependency table.
pub open spec fn entry_findings(
    path: Seq<char>,
    table_name: Seq<char>,
    entry: TomlEntry,
    member_use_allowed: bool,
    dev: bool,
    canonical_workspace: bool,
) -> Seq<FindingModel> {
    let key = entry.key@;
    let names = names_omnius(key) || (package_of(entry.value) matches Some(package)
        && names_omnius(package));
    if canonical_workspace && table_name == "workspace.dependencies"@ && key == "service-kit"@ {
        Seq::empty()
    } else if key == "service-kit"@ {
        if member_use_allowed {
            member_findings(path, table_name, entry.value, dev)
        } else {
            seq![
                (
                    "framework-dependency-invalid"@,
                    path,
                    "service-kit may only be declared canonically in workspace.dependencies or inherited by workspace members; found `"@
                        + table_name + "."@ + key + "`"@,
                ),
            ]
        }
    } else {
        note(
            names,
            "omnius-dependency-forbidden"@,
            path,
            "direct Omnius dependency `"@ + table_name + "."@ + key
                + "` is forbidden; use service-kit.workspace = true"@,
        )
    }
}

/// What is wrong with the first `count` entries of a dependency table.
pub open spec fn table_findings(
    path: Seq<char>,
    table_name: Seq<char>,
    table: Seq<TomlEntry>,
    member_use_allowed: bool,
    dev: bool,
    canonical_workspace: bool,
    count: int,
) -> Seq<FindingModel>
    decreases count,
{
    if count <= 0 {
        Seq::empty()
    } else {
        table_findings(
            path,
            table_name,
            table,
            member_use_allowed,
            dev,
            canonical_workspace,
            count - 1,
        ) + entry_findings(
            path,
            table_name,
            table[count - 1],
            member_use_allowed,
            dev,
            canonical_workspace,
        )
    }
}

/// What is wrong with the dependencies of one kind that a table declares.
pub open spec fn kind_findings(
    path: Seq<char>,
    prefix: Seq<char>,
    declared: TomlValue,
    kind: Seq<char>,
    root: bool,
    dev: bool,
) -> Seq<FindingModel> {
    match declared.entry(kind) {
        Some(value) => match value.entries() {
            Some(table) => table_findings(
                path,
                prefix + kind,
                table,
                !root,
                dev,
                false,
                table.len() as int,
            ),
            None => Seq::empty(),
        },
        None => Seq::empty(),
    }
}

/// What is wrong with the dependencies of every kind that a table declares.
pub open spec fn kinds_findings(
    path: Seq<char>,
    prefix: Seq<char>,
    declared: TomlValue,
    root: bool,
) -> Seq<FindingModel> {
    kind_findings(path, prefix, declared, "dependencies"@, root, false) + kind_findings(
        path,
        prefix,
        declared,
        "dev-dependencies"@,
        root,
        true,
    ) + kind_findings(path, prefix, declared, "build-dependencies"@, root, false)
}

/// What is wrong with the dependencies of the first `count` targets.
pub open spec fn targets_findings(
    path: Seq<char>,
    targets: Seq<TomlEntry>,
    root: bool,
    count: int,
) -> Seq<FindingModel>
    decreases count,
{
    if count <= 0 {
        Seq::empty()
    } else {
        targets_findings(path, targets, root, count - 1) + kinds_findings(
            path,
            "target."@ + targets[count - 1].key@ + "."@,
            targets[count - 1].value,
            root,
        )
    }
}

/// What is wrong with the dependencies of a manifest.
pub open spec fn dependency_findings(path: Seq<char>, document: TomlValue, root: bool) -> Seq<
    FindingModel,
> {
    kinds_findings(path, Seq::empty(), document, root) + (match document.entry("target"@) {
        Some(value) => match value.entries() {
            Some(targets) => targets_findings(path, targets, root, targets.len() as int),
            None => Seq::empty(),
        },
        None => Seq::empty(),
    }) + (match nested(document.entry("workspace"@), "dependencies"@) {
        Some(value) => match value.entries() {
            Some(table) => table_findings(
                path,
                "workspace.dependencies"@,
                table,
                false,
                false,
                root,
                table.len() as int,
            ),
            None => Seq::empty(),
        },
        None => Seq::empty(),
    })
}

fn finds_foreign_key(table: &Vec<TomlEntry>, dev: bool) -> (found: bool)
    ensures
        found == has_foreign_key(table@, dev),
{
    let mut index: usize = 0;
    while index < table.len()
        invariant
            index <= table@.len(),
            forall|i: int| 0 <= i < index ==> !is_foreign_key((#[trigger] table@[i]).key@, dev),
        decreases table@.len() - index,
    {
        let key = table[index].key.as_str();
        if !same_text(key, "workspace") && !(dev && same_text(key, "features")) {
            assert(is_foreign_key(table@[index as int].key@, dev));
            return true;
        }
        index += 1;
    }
    false
}

fn test_support(features: &TomlValue) -> (result: bool)
    ensures
        result == is_test_support(*features),
{
    match features.as_list() {
        Some(items) => items.len() == 1 && items[0].is_text("test-support"),
        None => false,
    }
}

fn inspect_member_service_kit(
    path: &str,
    table_name: &str,
    dependency: &TomlValue,
    dev: bool,
) -> (findings: Vec<ProvenanceFinding>)
    ensures
        models(findings@) == member_findings(path@, table_name@, *dependency, dev),
{
    let table = match dependency.as_table() {
        Some(table) => table,
        None => {
            return one_finding(
                "member-framework-use-invalid",
                path,
                join3("`", table_name, ".service-kit` must set workspace = true"),
            );
        },
    };
    let inherits = match find_entry(table, "workspace") {
        Some(value) => value.is_flag(true),
        None => false,
    };
    if !inherits || finds_foreign_key(table, dev) {
        let more = if dev {
            " and enable test-support"
        } else {
            ""
        };
        let message = join2(
            join3("`", table_name, ".service-kit` may only inherit workspace = true").as_str(),
            more,
        );
        return one_finding("member-framework-use-invalid", path, message);
    }
    let mut findings = no_findings();
    if let Some(features) = find_entry(table, "features") {
        let valid = dev && test_support(features);
        let message = join3(
            "`",
            table_name,
            ".service-kit` may only enable the test-support feature from dev-dependencies",
        );
        report_when(
            &mut findings,
            !valid,
            "member-framework-use-invalid",
            path,
            message.as_str(),
        );
        proof {
            lemma_first(
                note(!valid, "member-framework-use-invalid"@, path@, message@),
            );
        }
    }
    findings
}

fn omnius_name(name: &str) -> (result: bool)
    ensures
        result == names_omnius(name@),
{
    starts_with(name, "omnius-") || same_text(name, "omnius-generator")
}

fn inspect_dependency_entry(
    path: &str,
    table_name: &str,
    entry: &TomlEntry,
    member_use_allowed: bool,
    dev: bool,
    canonical_workspace: bool,
) -> (findings: Vec<ProvenanceFinding>)
    ensures
        models(findings@) == entry_findings(
            path@,
            table_name@,
            *entry,
            member_use_allowed,
            dev,
            canonical_workspace,
        ),
{
    let key = entry.key.as_str();
    let service_kit = same_text(key, "service-kit");
    if canonical_workspace && same_text(table_name, "workspace.dependencies") && service_kit {
        return no_findings();
    }
    if service_kit {
        if member_use_allowed {
            return inspect_member_service_kit(path, table_name, &entry.value, dev);
        }
        return one_finding(
            "framework-dependency-invalid",
            path,
            join5(
                "service-kit may only be declared canonically in workspace.dependencies or inherited by workspace members; found `",
                table_name,
                ".",
                key,
                "`",
            ),
        );
    }
    let package = match entry.value.get("package") {
        Some(value) => value.as_text(),
        None => None,
    };
    let names = omnius_name(key) || match package {
        Some(package) => omnius_name(package),
        None => false,
    };
    if names {
        return one_finding(
            "omnius-dependency-forbidden",
            path,
            join5(
                "direct Omnius dependency `",
                table_name,
                ".",
                key,
                "` is forbidden; use service-kit.workspace = true",
            ),
        );
    }
    no_findings()
}

fn inspect_dependency_table(
    path: &str,
    table_name: &str,
    table: &Vec<TomlEntry>,
    member_use_allowed: bool,
    dev: bool,
    canonical_workspace: bool,
) -> (findings: Vec<ProvenanceFinding>)
    ensures
        models(findings@) == table_findings(
            path@,
            table_name@,
            table@,
            member_use_allowed,
            dev,
            canonical_workspace,
            table@.len() as int,
        ),
{
    let mut findings = no_findings();
    let mut index: usize = 0;
    while index < table.len()
        invariant
            index <= table@.len(),
            models(findings@) == table_findings(
                path@,
                table_name@,
                table@,
                member_use_allowed,
                dev,
                canonical_workspace,
                index as int,
            ),
        decreases table@.len() - index,
    {
        let more = inspect_dependency_entry(
            path,
            table_name,
            &table[index],
            member_use_allowed,
            dev,
            canonical_workspace,
        );
        append_findings(&mut findings, more);
        index += 1;
    }
    findings
}

fn inspect_dependency_kind(
    path: &str,
    prefix: &str,
    declared: &TomlValue,
    kind: &str,
    root: bool,
    dev: bool,
) -> (findings: Vec<ProvenanceFinding>)
    ensures
        models(findings@) == kind_findings(path@, prefix@, *declared, kind@, root, dev),
{
    if let Some(value) = declared.get(kind) {
        if let Some(table) = value.as_table() {
            let name = join2(prefix, kind);
            return inspect_dependency_table(path, name.as_str(), table, !root, dev, false);
        }
    }
    no_findings()
}

fn inspect_dependency_kinds(path: &str, prefix: &str, declared: &TomlValue, root: bool) -> (findings:
    Vec<ProvenanceFinding>)
    ensures
        models(findings@) == kinds_findings(path@, prefix@, *declared, root),
{
    let mut findings = inspect_dependency_kind(path, prefix, declared, "dependencies", root, false);
    let dev = inspect_dependency_kind(path, prefix, declared, "dev-dependencies", root, true);
    append_findings(&mut findings, dev);
    let build = inspect_dependency_kind(path, prefix, declared, "build-dependencies", root, false);
    append_findings(&mut findings, build);
    findings
}

fn inspect_targets(path: &str, targets: &Vec<TomlEntry>, root: bool) -> (findings: Vec<
    ProvenanceFinding,
>)
    ensures
        models(findings@) == targets_findings(path@, targets@, root, targets@.len() as int),
{
    let mut findings = no_findings();
    let mut index: usize = 0;
    while index < targets.len()
        invariant
            index <= targets@.len(),
            models(findings@) == targets_findings(path@, targets@, root, index as int),
        decreases targets@.len() - index,
    {
        let prefix = join3("target.", targets[index].key.as_str(), ".");
        let more = inspect_dependency_kinds(path, prefix.as_str(), &targets[index].value, root);
        append_findings(&mut findings, more);
        index += 1;
    }
    findings
}

/// Inspects the dependencies that a manifest declares.
pub fn inspect_dependency_tables(path: &str, document: &TomlValue, root: bool) -> (findings: Vec<
    ProvenanceFinding,
>)
    ensures
        models(findings@) == dependency_findings(path@, *document, root),
{
    proof {
        reveal_strlit("");
        assert(""@ =~= Seq::<char>::empty());
    }
    let mut findings = inspect_dependency_kinds(path, "", document, root);
    let targets = match document.get("target") {
        Some(value) => match value.as_table() {
            Some(targets) => inspect_targets(path, targets, root),
            None => no_findings(),
        },
        None => no_findings(),
    };
    append_findings(&mut findings, targets);
    let workspace = match get_nested(document.get("workspace"), "dependencies") {
        Some(value) => match value.as_table() {
            Some(table) => inspect_dependency_table(
                path,
                "workspace.dependencies",
                table,
                false,
                false,
                root,
            ),
            None => no_findings(),
        },
        None => no_findings(),
    };
    append_findings(&mut findings, workspace);
    findings
}

// Manifests.
/// What is wrong with a manifest.
pub open spec fn manifest_findings(
    path: Seq<char>,
    document: TomlValue,
    root: bool,
    framework: ReleaseModel,
    features: Seq<Seq<char>>,
) -> Seq<FindingModel> {
    note(
        document.entry("patch"@) is Some,
        "manifest-patch-forbidden"@,
        path,
        "Cargo [patch] tables are forbidden in managed projects"@,
    ) + note(
        document.entry("replace"@) is Some,
        "manifest-replace-forbidden"@,
        path,
        "Cargo [replace] tables are forbidden in managed projects"@,
    ) + note(
        document.entry("paths"@) is Some,
        "source-override"@,
        path,
        "Cargo paths substitution is forbidden in managed projects"@,
    ) + (if root {
        canonical_findings(path, document, framework, features)
    } else {
        Seq::empty()
    }) + note(
        path == "apps/service/Cargo.toml"@ && nested(
            document.entry("dependencies"@),
            "service-kit"@,
        ) is None,
        "member-framework-use-missing"@,
        path,
        "apps/service must inherit service-kit from workspace.dependencies"@,
    ) + dependency_findings(path, document, root)
}

/// Inspects a manifest.
pub fn inspect_manifest(
    path: &str,
    document: &TomlValue,
    root: bool,
    framework: &ReleaseIdentity,
    runtime_features: &Vec<String>,
) -> (findings: Vec<ProvenanceFinding>)
    ensures
        models(findings@) == manifest_findings(
            path@,
            *document,
            root,
            framework@,
            texts(runtime_features@),
        ),
{
    let mut findings = no_findings();
    let patch = document.get("patch").is_some();
    report_when(
        &mut findings,
        patch,
        "manifest-patch-forbidden",
        path,
        "Cargo [patch] tables are forbidden in managed projects",
    );
    proof {
        lemma_first(
            note(
                patch,
                "manifest-patch-forbidden"@,
                path@,
                "Cargo [patch] tables are forbidden in managed projects"@,
            ),
        );
    }
    report_when(
        &mut findings,
        document.get("replace").is_some(),
        "manifest-replace-forbidden",
        path,
        "Cargo [replace] tables are forbidden in managed projects",
    );
    report_when(
        &mut findings,
        document.get("paths").is_some(),
        "source-override",
        path,
        "Cargo paths substitution is forbidden in managed projects",
    );
    let canonical = if root {
        inspect_canonical_workspace_dependency(path, document, framework, runtime_features)
    } else {
        no_findings()
    };
    append_findings(&mut findings, canonical);
    let unused = same_text(path, "apps/service/Cargo.toml") && get_nested(
        document.get("dependencies"),
        "service-kit",
    ).is_none();
    report_when(
        &mut findings,
        unused,
        "member-framework-use-missing",
        path,
        "apps/service must inherit service-kit from workspace.dependencies",
    );
    let dependencies = inspect_dependency_tables(path, document, root);
    append_findings(&mut findings, dependencies);
    findings
}

} // verus!
