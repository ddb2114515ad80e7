//! What is read from a project before it is planned or diagnosed.

use vstd::prelude::*;
use vstd::string::*;

use crate::application_templates::ApplicationTemplateDescriptor;
use crate::file_map::{FileMap, ProjectFile};
use crate::management::{
    bytes_value, Diagnostic, DiagnosticModel, ManagerError, ManagerFailure, ProjectSnapshot,
    SnapshotModel,
};
use crate::module_checks::last_place;
use crate::modules::{ModuleCatalog, ModuleDefinition};
use crate::ordered::{models, sort_unique, sorted_listing, TextSet};
use crate::provenance::{FindingModel, ProvenanceFinding};
use crate::provenance_project::{
    expansion_of, find_expansion, PatternExpansion, ProvenanceInspection,
};
use crate::release::ReleaseIdentity;
use crate::rendering::{derivable, is_derivable};
use crate::state::{
    module_ids_of, ownership_models, record_models, OwnershipModel, ProjectState, RecordModel,
    StateModel, PROJECT_STATE_PATH,
};
use crate::text::{
    chars_of, clone_texts, contains_char, decimal, decimal_text, join2, join3, join_texts, joined,
    optional_view, same_text, split_on, split_text, text_between, texts,
};
use crate::toml_text::{read_toml, toml_parsed, TomlValue};

verus! {

// The form of the state.
/// The decimal numeral of an integer.
pub open spec fn signed_decimal(number: int) -> Seq<char> {
    if number < 0 {
        "-"@ + decimal((-number) as nat)
    } else {
        decimal(number as nat)
    }
}

fn signed_text(number: i64) -> (text: String)
    ensures
        text@ == signed_decimal(number as int),
{
    if number < 0 {
        let magnitude: u64 = if number == i64::MIN {
            9223372036854775808u64
        } else {
            (-number) as u64
        };
        let digits = decimal_text(magnitude);
        join2("-", digits.as_str())
    } else {
        decimal_text(number as u64)
    }
}

/// The form that a recorded state has.
#[derive(Clone, Copy, Debug, PartialEq, Eq, Structural)]
pub enum StateForm {
    /// The form of earlier releases.
    Legacy,
    /// The form of this release.
    Current,
}

/// The form that a parsed state tells of.
pub open spec fn stated_form(state: TomlValue) -> Result<StateForm, Seq<char>> {
    match state.entry("schema_version"@) {
        Some(TomlValue::Integer(number)) => if number == 1 {
            Ok(StateForm::Legacy)
        } else if number == 2 {
            Ok(StateForm::Current)
        } else {
            Err("unsupported project state schema version "@ + signed_decimal(number as int))
        },
        _ => Err("project state is missing integer `schema_version`"@),
    }
}

/// The form that a recorded state has, given what its text holds.
pub open spec fn recorded_form(parsed: Result<TomlValue, Seq<char>>) -> Result<
    StateForm,
    Seq<char>,
> {
    match parsed {
        Err(message) => Err(message),
        Ok(state) => stated_form(state),
    }
}

/// Returns the form that a parsed state tells of.
pub fn form_of(state: &TomlValue) -> (result: Result<StateForm, ManagerError>)
    ensures
        match result {
            Ok(form) => stated_form(*state) == Ok::<StateForm, Seq<char>>(form),
            Err(error) => stated_form(*state) is Err && error.failure()
                == ManagerFailure::InvalidProject(stated_form(*state)->Err_0),
        },
{
    match state.get("schema_version") {
        Some(TomlValue::Integer(number)) => {
            if *number == 1 {
                Ok(StateForm::Legacy)
            } else if *number == 2 {
                Ok(StateForm::Current)
            } else {
                let shown = signed_text(*number);
                Err(
                    ManagerError::InvalidProject(
                        join2("unsupported project state schema version ", shown.as_str()),
                    ),
                )
            }
        },
        _ => Err(
            ManagerError::InvalidProject(
                "project state is missing integer `schema_version`".to_owned(),
            ),
        ),
    }
}

/// Returns the form that a recorded state has.
pub fn state_form(source: &str) -> (result: Result<StateForm, ManagerError>)
    ensures
        match result {
            Ok(form) => recorded_form(toml_parsed(source@)) == Ok::<StateForm, Seq<char>>(form),
            Err(error) => recorded_form(toml_parsed(source@)) is Err && error.failure()
                == ManagerFailure::InvalidProject(recorded_form(toml_parsed(source@))->Err_0),
        },
{
    match read_toml(source) {
        Ok(state) => form_of(&state),
        Err(message) => Err(ManagerError::InvalidProject(message)),
    }
}

/// Checks that a recorded state does not have the form of earlier releases.
pub fn reject_legacy_state(source: &str) -> (result: Result<(), ManagerError>)
    ensures
        ({
            let legacy = recorded_form(toml_parsed(source@)) == Ok::<StateForm, Seq<char>>(
                StateForm::Legacy,
            );
            match result {
                Ok(()) => !legacy,
                Err(error) => legacy && error.failure() == ManagerFailure::InvalidProject(
                    "legacy schema-1 project; run `cargo service update`"@,
                ),
            }
        }),
{
    match state_form(source) {
        Ok(StateForm::Legacy) => Err(
            ManagerError::InvalidProject(
                "legacy schema-1 project; run `cargo service update`".to_owned(),
            ),
        ),
        _ => Ok(()),
    }
}

// Patterns.
/// The number of components, from place `at` on, that are wildcards.
pub open spec fn wildcards(parts: Seq<Seq<char>>, at: int) -> nat
    decreases parts.len() - at,
{
    if at < 0 || at >= parts.len() {
        0
    } else {
        wildcards(parts, at + 1) + (if parts[at] == "*"@ {
            1nat
        } else {
            0nat
        })
    }
}

/// The place, from `at` on, of the first wildcard.
pub open spec fn wildcard_place(parts: Seq<Seq<char>>, at: int) -> int
    decreases parts.len() - at,
{
    if at < 0 || at >= parts.len() || parts[at] == "*"@ {
        at
    } else {
        wildcard_place(parts, at + 1)
    }
}

/// The place of the only wildcard of a pattern, absent where there is none, or the failure that
/// there are several.
pub open spec fn pattern_wildcard(pattern: Seq<char>) -> Result<Option<int>, Seq<char>> {
    let parts = split_on(pattern, '/');
    if wildcard_place(parts, 0) >= parts.len() {
        Ok(None)
    } else if wildcards(parts, 0) != 1 {
        Err(
            "catalog path pattern supports exactly one wildcard component: `"@ + pattern + "`"@,
        )
    } else {
        Ok(Some(wildcard_place(parts, 0)))
    }
}

/// The paths that a pattern gives with names in place of its wildcard.
pub open spec fn named_paths(parts: Seq<Seq<char>>, place: int, names: Seq<Seq<char>>) -> Seq<
    Seq<char>,
> {
    names.map_values(|name: Seq<char>| joined(parts.update(place, name), "/"@))
}

proof fn lemma_wildcards(parts: Seq<Seq<char>>, at: int)
    requires
        0 <= at <= parts.len(),
    ensures
        wildcard_place(parts, at) >= parts.len() ==> wildcards(parts, at) == 0,
        at <= wildcard_place(parts, at) <= parts.len(),
    decreases parts.len() - at,
{
    if at < parts.len() && parts[at] != "*"@ {
        lemma_wildcards(parts, at + 1);
    }
}

/// Finds the only wildcard of a pattern: the component in whose directory names are looked up.
pub fn find_wildcard(pattern: &str) -> (result: Result<Option<usize>, ManagerError>)
    ensures
        match result {
            Ok(Some(place)) => pattern_wildcard(pattern@) == Ok::<Option<int>, Seq<char>>(
                Some(place as int),
            ) && place < split_on(pattern@, '/').len(),
            Ok(None) => pattern_wildcard(pattern@) == Ok::<Option<int>, Seq<char>>(None),
            Err(error) => pattern_wildcard(pattern@) is Err && error.failure()
                == ManagerFailure::InvalidProject(pattern_wildcard(pattern@)->Err_0),
        },
{
    let parts = split_text(pattern, '/');
    let ghost all = split_on(pattern@, '/');
    let length: usize = parts.len();
    assert(all.len() == length);
    let mut count: usize = 0;
    let mut first: usize = length;
    let mut index: usize = length;
    while index > 0
        invariant
            all == texts(parts@),
            length == parts@.len(),
            length == all.len(),
            index <= length,
            count <= length - index,
            count == wildcards(all, index as int),
            first == wildcard_place(all, index as int),
            first <= length,
        decreases index,
    {
        index -= 1;
        assert(all[index as int] == parts@[index as int]@);
        if same_text(parts[index].as_str(), "*") {
            count += 1;
            first = index;
        }
    }
    if first >= length {
        return Ok(None);
    }
    if count != 1 {
        return Err(
            ManagerError::InvalidProject(
                join3(
                    "catalog path pattern supports exactly one wildcard component: `",
                    pattern,
                    "`",
                ),
            ),
        );
    }
    Ok(Some(first))
}

/// Puts names in place of the only wildcard of a pattern.
pub fn expand_names(pattern: &str, place: usize, names: &Vec<String>) -> (paths: Vec<String>)
    requires
        place < split_on(pattern@, '/').len(),
    ensures
        texts(paths@) == sorted_listing::<String>(
            named_paths(split_on(pattern@, '/'), place as int, texts(names@)),
        ),
{
    let parts = split_text(pattern, '/');
    let ghost all = named_paths(split_on(pattern@, '/'), place as int, texts(names@));
    let mut paths: Vec<String> = Vec::new();
    let mut index: usize = 0;
    assert(split_on(pattern@, '/').len() == parts@.len());
    while index < names.len()
        invariant
            texts(parts@) == split_on(pattern@, '/'),
            place < parts@.len(),
            all == named_paths(split_on(pattern@, '/'), place as int, texts(names@)),
            index <= names@.len(),
            texts(paths@) == all.take(index as int),
        decreases names@.len() - index,
    {
        let mut candidate = clone_texts(&parts);
        let ghost before = texts(candidate@);
        candidate.set(place, names[index].clone());
        assert(texts(candidate@) =~= before.update(place as int, names@[index as int]@));
        let path = join_texts(&candidate, "/");
        let ghost value = path@;
        let ghost earlier = texts(paths@);
        paths.push(path);
        proof {
            assert(all[index as int] == value);
            assert(texts(paths@) =~= earlier.push(value));
            assert(all.take(index + 1) =~= all.take(index as int).push(value));
        }
        index += 1;
    }
    assert(all.take(index as int) =~= all);
    assert(models(paths@) =~= texts(paths@));
    let sorted = sort_unique(paths);
    let items = sorted.items();
    assert(models(items@) =~= texts(items@));
    clone_texts(items)
}

// Paths.
/// The paths of ownership records.
pub open spec fn owned_paths(records: Seq<OwnershipModel>) -> Seq<Seq<char>> {
    records.map_values(|record: OwnershipModel| record.path)
}

/// The paths of region records.
pub open spec fn region_paths(records: Seq<RecordModel>) -> Seq<Seq<char>> {
    records.map_values(|record: RecordModel| record.path)
}

/// The paths of files.
pub open spec fn file_paths(files: Seq<ProjectFile>) -> Seq<Seq<char>> {
    files.map_values(|file: ProjectFile| file.path@)
}

/// The paths of templates.
pub open spec fn template_paths(templates: Seq<ApplicationTemplateDescriptor>) -> Seq<Seq<char>> {
    templates.map_values(|template: ApplicationTemplateDescriptor| template.path@)
}

/// Those of the first `count` paths that the generator can derive.
pub open spec fn derivable_paths(paths: Seq<Seq<char>>, count: int) -> Seq<Seq<char>>
    decreases count,
{
    if count <= 0 {
        Seq::empty()
    } else if is_derivable(paths[count - 1]) {
        derivable_paths(paths, count - 1).push(paths[count - 1])
    } else {
        derivable_paths(paths, count - 1)
    }
}

/// The paths that the first `count` region references stand for.
pub open spec fn referenced_paths(
    references: Seq<Seq<char>>,
    expansions: Seq<PatternExpansion>,
    count: int,
) -> Seq<Seq<char>>
    decreases count,
{
    if count <= 0 {
        Seq::empty()
    } else {
        let reference = references[count - 1];
        let place = last_place(reference, '#', reference.len() as int);
        let before = referenced_paths(references, expansions, count - 1);
        if place < 0 {
            before
        } else if reference.take(place).contains('*') {
            before + expansion_of(expansions, reference.take(place), 0)
        } else {
            before.push(reference.take(place))
        }
    }
}

/// The paths that the first `count` modules of a catalog concern.
pub open spec fn catalog_paths(
    modules: Seq<ModuleDefinition>,
    expansions: Seq<PatternExpansion>,
    count: int,
) -> Seq<Seq<char>>
    decreases count,
{
    if count <= 0 {
        Seq::empty()
    } else {
        let owned = modules[count - 1].generator_ownership;
        catalog_paths(modules, expansions, count - 1) + derivable_paths(
            texts(owned.derived@),
            owned.derived@.len() as int,
        ) + referenced_paths(
            texts(owned.managed_regions@),
            expansions,
            owned.managed_regions@.len() as int,
        )
    }
}

/// The paths to read for a snapshot, beside the lockfile.
pub open spec fn snapshot_paths(
    state: StateModel,
    base_files: Seq<ProjectFile>,
    templates: Seq<ApplicationTemplateDescriptor>,
    catalog: ModuleCatalog,
    expansions: Seq<PatternExpansion>,
) -> Seq<Seq<char>> {
    let all = seq![PROJECT_STATE_PATH@] + owned_paths(state.ownership) + region_paths(
        state.regions,
    ) + file_paths(base_files) + template_paths(templates) + catalog_paths(
        catalog.modules@,
        expansions,
        catalog.modules@.len() as int,
    );
    sorted_listing::<String>(without_lock(all, all.len() as int))
}

/// The first `count` paths, without that of the lockfile.
pub open spec fn without_lock(paths: Seq<Seq<char>>, count: int) -> Seq<Seq<char>>
    decreases count,
{
    if count <= 0 {
        Seq::empty()
    } else if paths[count - 1] == "Cargo.lock"@ {
        without_lock(paths, count - 1)
    } else {
        without_lock(paths, count - 1).push(paths[count - 1])
    }
}

fn push_text(list: &mut Vec<String>, text: &str)
    ensures
        texts(final(list)@) == texts(old(list)@).push(text@),
{
    let ghost before = texts(list@);
    list.push(text.to_owned());
    assert(texts(list@) =~= before.push(text@));
}

fn append_texts(list: &mut Vec<String>, more: Vec<String>)
    ensures
        texts(final(list)@) == texts(old(list)@) + texts(more@),
{
    let ghost before = texts(list@);
    let ghost added = texts(more@);
    let mut rest = more;
    list.append(&mut rest);
    assert(texts(list@) =~= before + added);
}

fn list_recorded(state: &ProjectState) -> (list: Vec<String>)
    ensures
        texts(list@) == seq![PROJECT_STATE_PATH@] + owned_paths(state@.ownership) + region_paths(
            state@.regions,
        ),
{
    let ghost owned = owned_paths(state@.ownership);
    let ghost regions = region_paths(state@.regions);
    let mut list: Vec<String> = Vec::new();
    list.push(PROJECT_STATE_PATH.to_owned());
    let ghost first = seq![PROJECT_STATE_PATH@];
    assert(texts(list@) =~= first + owned.take(0));
    let mut index: usize = 0;
    while index < state.ownership.len()
        invariant
            owned == owned_paths(ownership_models(state.ownership@)),
            index <= state.ownership@.len(),
            texts(list@) == first + owned.take(index as int),
        decreases state.ownership@.len() - index,
    {
        let path = state.ownership[index].path.as_str();
        push_text(&mut list, path);
        proof {
            assert(owned[index as int] == path@);
            assert(first + owned.take(index + 1) =~= (first + owned.take(index as int)).push(
                path@,
            ));
        }
        index += 1;
    }
    assert(owned.take(index as int) =~= owned);
    assert(first + owned + regions.take(0) =~= first + owned);
    let mut index: usize = 0;
    while index < state.managed_regions.len()
        invariant
            regions == region_paths(record_models(state.managed_regions@)),
            index <= state.managed_regions@.len(),
            texts(list@) == first + owned + regions.take(index as int),
        decreases state.managed_regions@.len() - index,
    {
        let path = state.managed_regions[index].path.as_str();
        push_text(&mut list, path);
        proof {
            assert(regions[index as int] == path@);
            assert(first + owned + regions.take(index + 1) =~= (first + owned + regions.take(
                index as int,
            )).push(path@));
        }
        index += 1;
    }
    assert(regions.take(index as int) =~= regions);
    list
}

fn list_file_paths(files: &FileMap) -> (list: Vec<String>)
    ensures
        texts(list@) == file_paths(files.listed()),
{
    let ghost all = file_paths(files.listed());
    let mut list: Vec<String> = Vec::new();
    let mut index: usize = 0;
    assert(texts(list@) =~= all.take(0));
    while index < files.len()
        invariant
            all == file_paths(files.listed()),
            index <= files.listed().len(),
            texts(list@) == all.take(index as int),
        decreases files.listed().len() - index,
    {
        let path = files.at(index).path.as_str();
        push_text(&mut list, path);
        proof {
            assert(all[index as int] == path@);
            assert(all.take(index + 1) =~= all.take(index as int).push(path@));
        }
        index += 1;
    }
    assert(all.take(index as int) =~= all);
    list
}

fn list_template_paths(templates: &Vec<ApplicationTemplateDescriptor>) -> (list: Vec<String>)
    ensures
        texts(list@) == template_paths(templates@),
{
    let ghost all = template_paths(templates@);
    let mut list: Vec<String> = Vec::new();
    let mut index: usize = 0;
    assert(texts(list@) =~= all.take(0));
    while index < templates.len()
        invariant
            all == template_paths(templates@),
            index <= templates@.len(),
            texts(list@) == all.take(index as int),
        decreases templates@.len() - index,
    {
        let path = templates[index].path.as_str();
        push_text(&mut list, path);
        proof {
            assert(all[index as int] == path@);
            assert(all.take(index + 1) =~= all.take(index as int).push(path@));
        }
        index += 1;
    }
    assert(all.take(index as int) =~= all);
    list
}

fn list_derivable(paths: &Vec<String>) -> (list: Vec<String>)
    ensures
        texts(list@) == derivable_paths(texts(paths@), paths@.len() as int),
{
    let ghost all = texts(paths@);
    let mut list: Vec<String> = Vec::new();
    assert(texts(list@) =~= Seq::<Seq<char>>::empty());
    let mut index: usize = 0;
    while index < paths.len()
        invariant
            all == texts(paths@),
            index <= paths@.len(),
            texts(list@) == derivable_paths(all, index as int),
        decreases paths@.len() - index,
    {
        let path = paths[index].as_str();
        assert(all[index as int] == path@);
        if derivable(path) {
            push_text(&mut list, path);
        }
        index += 1;
    }
    list
}

/// The pattern of a region reference, absent where the reference has none.
pub fn reference_pattern(reference: &str) -> (pattern: Option<String>)
    ensures
        ({
            let place = last_place(reference@, '#', reference@.len() as int);
            match pattern {
                Some(text) => place >= 0 && text@ == reference@.take(place),
                None => place < 0,
            }
        }),
{
    let chars = chars_of(reference);
    let mut end: usize = chars.len();
    while end > 0 && chars[end - 1] != '#'
        invariant
            chars@ == reference@,
            end <= chars@.len(),
            last_place(reference@, '#', reference@.len() as int) == last_place(
                reference@,
                '#',
                end as int,
            ),
        decreases end,
    {
        end -= 1;
    }
    if end == 0 {
        return None;
    }
    assert(reference@.take(end - 1) =~= reference@.subrange(0, end - 1));
    Some(text_between(&chars, 0, end - 1))
}

fn list_referenced(references: &Vec<String>, expansions: &Vec<PatternExpansion>) -> (list: Vec<
    String,
>)
    ensures
        texts(list@) == referenced_paths(
            texts(references@),
            expansions@,
            references@.len() as int,
        ),
{
    let ghost all = texts(references@);
    let mut list: Vec<String> = Vec::new();
    assert(texts(list@) =~= Seq::<Seq<char>>::empty());
    let mut index: usize = 0;
    while index < references.len()
        invariant
            all == texts(references@),
            index <= references@.len(),
            texts(list@) == referenced_paths(all, expansions@, index as int),
        decreases references@.len() - index,
    {
        assert(all[index as int] == references@[index as int]@);
        if let Some(pattern) = reference_pattern(references[index].as_str()) {
            if contains_char(pattern.as_str(), '*') {
                append_texts(&mut list, find_expansion(expansions, pattern.as_str()));
            } else {
                push_text(&mut list, pattern.as_str());
            }
        }
        index += 1;
    }
    list
}

fn list_catalog(modules: &Vec<ModuleDefinition>, expansions: &Vec<PatternExpansion>) -> (list: Vec<
    String,
>)
    ensures
        texts(list@) == catalog_paths(modules@, expansions@, modules@.len() as int),
{
    let mut list: Vec<String> = Vec::new();
    assert(texts(list@) =~= Seq::<Seq<char>>::empty());
    let mut index: usize = 0;
    while index < modules.len()
        invariant
            index <= modules@.len(),
            texts(list@) == catalog_paths(modules@, expansions@, index as int),
        decreases modules@.len() - index,
    {
        let owned = &modules[index].generator_ownership;
        append_texts(&mut list, list_derivable(&owned.derived));
        append_texts(&mut list, list_referenced(&owned.managed_regions, expansions));
        index += 1;
    }
    list
}

/// Lists the paths to read for a snapshot, beside the lockfile.
pub fn list_snapshot_paths(
    state: &ProjectState,
    base_files: &FileMap,
    templates: &Vec<ApplicationTemplateDescriptor>,
    catalog: &ModuleCatalog,
    expansions: &Vec<PatternExpansion>,
) -> (paths: TextSet)
    ensures
        paths@ == snapshot_paths(
            state@,
            base_files.listed(),
            templates@,
            *catalog,
            expansions@,
        ),
{
    let mut list = list_recorded(state);
    append_texts(&mut list, list_file_paths(base_files));
    append_texts(&mut list, list_template_paths(templates));
    append_texts(&mut list, list_catalog(&catalog.modules, expansions));
    let ghost all = texts(list@);
    let mut kept: Vec<String> = Vec::new();
    assert(texts(kept@) =~= Seq::<Seq<char>>::empty());
    let mut index: usize = 0;
    while index < list.len()
        invariant
            all == texts(list@),
            index <= list@.len(),
            texts(kept@) == without_lock(all, index as int),
        decreases list@.len() - index,
    {
        let path = list[index].as_str();
        assert(all[index as int] == path@);
        if !same_text(path, "Cargo.lock") {
            push_text(&mut kept, path);
        }
        index += 1;
    }
    assert(models(kept@) =~= texts(kept@));
    sort_unique(kept)
}

// Provenance.
/// The findings of a provenance inspection as findings of a diagnosis.
pub open spec fn provenance_findings(findings: Seq<FindingModel>) -> Seq<DiagnosticModel> {
    findings.map_values(|finding: FindingModel| (finding.0, Some(finding.1), finding.2))
}

/// Turns the findings of a provenance inspection into findings of a diagnosis.
pub fn provenance_diagnostics(findings: &Vec<ProvenanceFinding>) -> (list: Vec<Diagnostic>)
    ensures
        models(list@) == provenance_findings(models(findings@)),
{
    let ghost all = provenance_findings(models(findings@));
    let mut list: Vec<Diagnostic> = Vec::new();
    let mut index: usize = 0;
    while index < findings.len()
        invariant
            all == provenance_findings(models(findings@)),
            index <= findings@.len(),
            models(list@) == all.take(index as int),
        decreases findings@.len() - index,
    {
        let finding = &findings[index];
        let ghost before = models(list@);
        let found = Diagnostic {
            code: finding.code.to_owned(),
            path: Some(finding.path.clone()),
            message: finding.message.clone(),
        };
        let ghost value = (finding.code@, Some(finding.path@), finding.message@);
        list.push(found);
        proof {
            assert(all[index as int] == value);
            assert(models(list@) =~= before.push(value));
            assert(all.take(index + 1) =~= all.take(index as int).push(value));
        }
        index += 1;
    }
    assert(all.take(index as int) =~= all);
    list
}

/// Checks that the candidate of an update has no provenance findings.
pub fn validate_update_candidate(findings: &Vec<ProvenanceFinding>) -> (result: Result<
    (),
    ManagerError,
>)
    ensures
        match result {
            Ok(()) => findings@.len() == 0,
            Err(error) => findings@.len() > 0 && error.failure() == ManagerFailure::Preflight(
                provenance_findings(models(findings@)),
            ),
        },
{
    if findings.len() == 0 {
        Ok(())
    } else {
        Err(ManagerError::Preflight(provenance_diagnostics(findings)))
    }
}

/// Returns the framework features that a state calls for: its selected modules.
pub fn runtime_features(state: &ProjectState) -> (features: Vec<String>)
    ensures
        texts(features@) == module_ids_of(state@),
{
    let ghost all = module_ids_of(state@);
    let mut features: Vec<String> = Vec::new();
    let mut index: usize = 0;
    assert(texts(features@) =~= all.take(0));
    while index < state.modules.len()
        invariant
            all == module_ids_of(state@),
            index <= state.modules@.len(),
            texts(features@) == all.take(index as int),
        decreases state.modules@.len() - index,
    {
        let id = state.modules[index].id.as_str();
        push_text(&mut features, id);
        proof {
            assert(all[index as int] == id@);
            assert(all.take(index + 1) =~= all.take(index as int).push(id@));
        }
        index += 1;
    }
    assert(all.take(index as int) =~= all);
    features
}

// The snapshot.
/// The contents of the first `count` manifests by their paths.
pub open spec fn manifests_by_path(
    manifests: Seq<(Seq<char>, Seq<char>)>,
    count: int,
) -> Map<Seq<char>, Seq<char>>
    decreases count,
{
    if count <= 0 {
        Map::empty()
    } else {
        manifests_by_path(manifests, count - 1).insert(
            manifests[count - 1].0,
            manifests[count - 1].1,
        )
    }
}

/// The first `count` of `files` put over others.
pub open spec fn overlaid(
    below: Map<Seq<char>, Seq<char>>,
    files: Seq<ProjectFile>,
    count: int,
) -> Map<Seq<char>, Seq<char>>
    decreases count,
{
    if count <= 0 {
        below
    } else {
        overlaid(below, files, count - 1).insert(
            files[count - 1].path@,
            files[count - 1].contents@,
        )
    }
}

/// The files of a snapshot: the manifests, over them what was read, over it the lockfile where it
/// is text.
pub open spec fn snapshot_files(
    manifests: Seq<(Seq<char>, Seq<char>)>,
    read: Seq<ProjectFile>,
    lock_text: Option<Seq<char>>,
) -> Map<Seq<char>, Seq<char>> {
    let files = overlaid(
        manifests_by_path(manifests, manifests.len() as int),
        read,
        read.len() as int,
    );
    match lock_text {
        Some(text) => files.insert("Cargo.lock"@, text),
        None => files,
    }
}

/// What was read from a project, beside its state.
#[derive(Debug)]
pub struct SnapshotParts {
    /// Provenance of manifests and Cargo configuration.
    pub provenance: ProvenanceInspection,
    /// Base descriptors, which are rendered only where the project is at the release in use.
    pub base_files: FileMap,
    /// Files that were read.
    pub read: Vec<ProjectFile>,
    /// Lockfile.
    pub lockfile: Option<Vec<u8>>,
    /// Lockfile as text, where it is UTF-8.
    pub lock_text: Option<String>,
}

/// Puts a snapshot together from what was read.
pub fn assemble_snapshot(
    state: ProjectState,
    state_error: Option<String>,
    parts: SnapshotParts,
    release_identity: &ReleaseIdentity,
) -> (snapshot: ProjectSnapshot)
    ensures
        snapshot@ == (SnapshotModel {
            state: state@,
            state_error: optional_view(state_error),
            files: snapshot_files(
                parts.provenance.manifest_files@,
                parts.read@,
                optional_view(parts.lock_text),
            ),
            release: release_identity@,
            base_files: parts.base_files@,
            provenance: provenance_findings(models(parts.provenance.findings@)),
            lockfile: bytes_value(parts.lockfile),
        }),
{
    let ghost manifests = parts.provenance.manifest_files@;
    let ghost read = parts.read@;
    let mut files = FileMap::new();
    let mut index: usize = 0;
    while index < parts.provenance.manifest_files.len()
        invariant
            manifests == parts.provenance.manifest_files@,
            index <= manifests.len(),
            files@ == manifests_by_path(manifests, index as int),
        decreases manifests.len() - index,
    {
        let file = parts.provenance.manifest_files.at(index);
        files.insert(file.path.clone(), file.source.clone());
        index += 1;
    }
    let ghost below = files@;
    let mut place: usize = 0;
    while place < parts.read.len()
        invariant
            read == parts.read@,
            place <= read.len(),
            files@ == overlaid(below, read, place as int),
        decreases read.len() - place,
    {
        let file = &parts.read[place];
        files.insert(file.path.clone(), file.contents.clone());
        place += 1;
    }
    if let Some(text) = &parts.lock_text {
        files.insert("Cargo.lock".to_owned(), text.clone());
    }
    ProjectSnapshot {
        state,
        state_error,
        files,
        release_identity: release_identity.duplicate(),
        base_files: parts.base_files,
        provenance_diagnostics: provenance_diagnostics(&parts.provenance.findings),
        lockfile: parts.lockfile,
    }
}

} // verus!
