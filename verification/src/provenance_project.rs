//! Inspection of all of a project's Cargo manifests and configuration.

use vstd::prelude::*;
use vstd::string::*;

use crate::cargo_graph::{lemma_text_key_split, push_text_key, text_key};
use crate::configuration_checks::{strip_suffix, without_suffix};
use crate::ordered::{
    lemma_listing_exists, models, sort_unique, sorted_listing, Distinct, Keyed, Sorted,
};
use crate::provenance::{
    append_findings, forbidden_key, inspect_manifest, is_canonical_key, lemma_first, list_entry,
    manifest_findings, no_findings, note, one_finding, report_when, text_entry, FindingModel,
    ProvenanceFinding,
};
use crate::release::{ReleaseIdentity, ReleaseModel, CANONICAL_REPOSITORY};
use crate::text::{
    clone_texts, contains_char, contains_text, holds_text, join2, join3, join_texts, joined, occurs,
    same_text, split_on, split_text, texts,
};
use crate::toml_text::{entry_of, nested, read_toml, toml_parsed, TomlEntry, TomlValue};
use crate::wildcard::{component_matches, wildcard_component_matches};

verus! {

// Member patterns.
/// Whether a component of a workspace member pattern is empty or the parent directory.
pub open spec fn is_unsafe_component(component: Seq<char>) -> bool {
    component.len() == 0 || component == ".."@
}

/// Whether a workspace member pattern stays in the project and uses only `?` and `*`.
pub open spec fn is_safe_pattern(pattern: Seq<char>) -> bool {
    &&& pattern.len() > 0
    &&& !pattern.contains('\\')
    &&& forall|i: int|
        0 <= i < split_on(pattern, '/').len() ==> !is_unsafe_component(
            #[trigger] split_on(pattern, '/')[i],
        )
    &&& !pattern.contains('[')
    &&& !pattern.contains(']')
}

/// Returns whether a workspace member pattern stays in the project and uses only `?` and `*`.
pub fn safe_member_pattern(pattern: &str) -> (safe: bool)
    ensures
        safe == is_safe_pattern(pattern@),
{
    if pattern.is_empty() || contains_char(pattern, '\\') || contains_char(pattern, '[')
        || contains_char(pattern, ']') {
        return false;
    }
    let components = split_text(pattern, '/');
    let ghost all = split_on(pattern@, '/');
    let mut index: usize = 0;
    while index < components.len()
        invariant
            all == texts(components@),
            all == split_on(pattern@, '/'),
            index <= components@.len(),
            forall|i: int| 0 <= i < index ==> !is_unsafe_component(#[trigger] all[i]),
        decreases components@.len() - index,
    {
        let component = components[index].as_str();
        assert(all[index as int] == component@);
        if component.is_empty() || same_text(component, "..") {
            assert(is_unsafe_component(split_on(pattern@, '/')[index as int]));
            return false;
        }
        index += 1;
    }
    true
}

/// Whether a member matches a pattern, component by component.
pub open spec fn member_matches(pattern: Seq<char>, member: Seq<char>) -> bool {
    let expected = split_on(pattern, '/');
    let actual = split_on(member, '/');
    &&& is_safe_pattern(pattern)
    &&& expected.len() == actual.len()
    &&& forall|i: int|
        0 <= i < expected.len() ==> component_matches(#[trigger] expected[i], actual[i])
}

/// Returns whether a member matches a pattern, component by component.
pub fn member_pattern_matches(pattern: &str, member: &str) -> (matched: bool)
    ensures
        matched == member_matches(pattern@, member@),
{
    if !safe_member_pattern(pattern) {
        return false;
    }
    let expected = split_text(pattern, '/');
    let actual = split_text(member, '/');
    let ghost wanted = split_on(pattern@, '/');
    let ghost found = split_on(member@, '/');
    if expected.len() != actual.len() {
        assert(wanted.len() == expected@.len() && found.len() == actual@.len());
        return false;
    }
    let mut index: usize = 0;
    while index < expected.len()
        invariant
            wanted == texts(expected@),
            found == texts(actual@),
            wanted == split_on(pattern@, '/'),
            found == split_on(member@, '/'),
            expected@.len() == actual@.len(),
            index <= expected@.len(),
            forall|i: int| 0 <= i < index ==> component_matches(#[trigger] wanted[i], found[i]),
        decreases expected@.len() - index,
    {
        assert(wanted[index as int] == expected@[index as int]@);
        assert(found[index as int] == actual@[index as int]@);
        if !wildcard_component_matches(expected[index].as_str(), actual[index].as_str()) {
            assert(!component_matches(
                split_on(pattern@, '/')[index as int],
                split_on(member@, '/')[index as int],
            ));
            return false;
        }
        index += 1;
    }
    true
}

// Expansion of patterns.
/// What stands under a name in a directory.
#[derive(Clone, Copy, Debug, PartialEq, Eq, Structural)]
pub enum EntryKind {
    /// A directory.
    Directory,
    /// A symbolic link.
    Symlink,
    /// Anything else.
    File,
}

/// A name in a directory and what stands under it.
#[derive(Debug, PartialEq, Eq)]
pub struct DirectoryEntry {
    /// File name.
    pub name: String,
    /// What stands under the name.
    pub kind: EntryKind,
}

/// A directory that a pattern has reached, and the entries there that were looked at: all of
/// them where the next component holds a wildcard, the one of that name otherwise, and none
/// where there is no such directory or entry.
#[derive(Debug, PartialEq, Eq)]
pub struct PatternCandidate {
    /// Components of the directory's project-relative path.
    pub relative: Vec<String>,
    /// Entries that were looked at.
    pub entries: Vec<DirectoryEntry>,
}

/// Whether a pattern component holds a wildcard.
pub open spec fn is_wildcard(component: Seq<char>) -> bool {
    component.contains('*') || component.contains('?')
}

/// Returns whether a pattern component holds a wildcard.
pub fn has_wildcard(component: &str) -> (found: bool)
    ensures
        found == is_wildcard(component@),
{
    contains_char(component, '*') || contains_char(component, '?')
}

/// Whether an entry is one that a pattern component asks for.
pub open spec fn is_wanted(component: Seq<char>, name: Seq<char>) -> bool {
    !is_wildcard(component) || component_matches(component, name)
}

/// The path of what a pattern component reaches under a name.
pub open spec fn child_path(
    relative: Seq<Seq<char>>,
    component: Seq<char>,
    name: Seq<char>,
) -> Seq<Seq<char>> {
    if is_wildcard(component) {
        relative.push(name)
    } else if component == "."@ {
        relative
    } else {
        relative.push(component)
    }
}

/// The paths that a pattern component reaches among the first `count` entries of a directory, or
/// the name of a symbolic link in the way.
pub open spec fn reached_entries(
    component: Seq<char>,
    relative: Seq<Seq<char>>,
    entries: Seq<DirectoryEntry>,
    count: int,
) -> Result<Seq<Seq<Seq<char>>>, Seq<char>>
    decreases count,
{
    if count <= 0 {
        Ok(Seq::empty())
    } else {
        match reached_entries(component, relative, entries, count - 1) {
            Err(name) => Err(name),
            Ok(paths) => {
                let entry = entries[count - 1];
                if !is_wanted(component, entry.name@) {
                    Ok(paths)
                } else {
                    match entry.kind {
                        EntryKind::Symlink => Err(entry.name@),
                        EntryKind::Directory => Ok(
                            paths.push(child_path(relative, component, entry.name@)),
                        ),
                        EntryKind::File => Ok(paths),
                    }
                }
            },
        }
    }
}

/// The paths that a pattern component reaches from the first `count` directories, or the place
/// of the directory and the name of a symbolic link in the way.
pub open spec fn reached_paths(
    component: Seq<char>,
    candidates: Seq<PatternCandidate>,
    count: int,
) -> Result<Seq<Seq<Seq<char>>>, (int, Seq<char>)>
    decreases count,
{
    if count <= 0 {
        Ok(Seq::empty())
    } else {
        match reached_paths(component, candidates, count - 1) {
            Err(link) => Err(link),
            Ok(paths) => {
                let candidate = candidates[count - 1];
                match reached_entries(
                    component,
                    texts(candidate.relative@),
                    candidate.entries@,
                    candidate.entries@.len() as int,
                ) {
                    Err(name) => Err((count - 1, name)),
                    Ok(more) => Ok(paths + more),
                }
            },
        }
    }
}

/// A symbolic link in the way of a pattern: the place of its directory among the candidates, and
/// its name.
#[derive(Debug, PartialEq, Eq)]
pub struct PatternLink {
    /// Place of the directory.
    pub candidate: usize,
    /// File name of the link.
    pub name: String,
}

/// The values of paths.
pub open spec fn path_lists(paths: Seq<Vec<String>>) -> Seq<Seq<Seq<char>>> {
    paths.map_values(|path: Vec<String>| texts(path@))
}

proof fn lemma_entries_link(
    component: Seq<char>,
    relative: Seq<Seq<char>>,
    entries: Seq<DirectoryEntry>,
    count: int,
    total: int,
)
    requires
        reached_entries(component, relative, entries, count) is Err,
        count <= total,
    ensures
        reached_entries(component, relative, entries, total) == reached_entries(
            component,
            relative,
            entries,
            count,
        ),
    decreases total - count,
{
    if count < total {
        lemma_entries_link(component, relative, entries, count, total - 1);
    }
}

proof fn lemma_paths_link(
    component: Seq<char>,
    candidates: Seq<PatternCandidate>,
    count: int,
    total: int,
)
    requires
        reached_paths(component, candidates, count) is Err,
        count <= total,
    ensures
        reached_paths(component, candidates, total) == reached_paths(component, candidates, count),
    decreases total - count,
{
    if count < total {
        lemma_paths_link(component, candidates, count, total - 1);
    }
}

fn expand_entries(component: &str, candidate: &PatternCandidate) -> (result: Result<
    Vec<Vec<String>>,
    String,
>)
    ensures
        ({
            let reached = reached_entries(
                component@,
                texts(candidate.relative@),
                candidate.entries@,
                candidate.entries@.len() as int,
            );
            match result {
                Ok(paths) => reached == Ok::<Seq<Seq<Seq<char>>>, Seq<char>>(path_lists(paths@)),
                Err(name) => reached == Err::<Seq<Seq<Seq<char>>>, Seq<char>>(name@),
            }
        }),
{
    let ghost relative = texts(candidate.relative@);
    let ghost total = candidate.entries@.len() as int;
    let wildcard = has_wildcard(component);
    let mut paths: Vec<Vec<String>> = Vec::new();
    let mut index: usize = 0;
    assert(path_lists(paths@) =~= Seq::<Seq<Seq<char>>>::empty());
    while index < candidate.entries.len()
        invariant
            relative == texts(candidate.relative@),
            total == candidate.entries@.len(),
            wildcard == is_wildcard(component@),
            index <= total,
            reached_entries(component@, relative, candidate.entries@, index as int) == Ok::<
                Seq<Seq<Seq<char>>>,
                Seq<char>,
            >(path_lists(paths@)),
        decreases total - index,
    {
        let entry = &candidate.entries[index];
        if !wildcard || wildcard_component_matches(component, entry.name.as_str()) {
            match entry.kind {
                EntryKind::Symlink => {
                    proof {
                        lemma_entries_link(
                            component@,
                            relative,
                            candidate.entries@,
                            index + 1,
                            total,
                        );
                    }
                    return Err(entry.name.clone());
                },
                EntryKind::Directory => {
                    let mut path = clone_texts(&candidate.relative);
                    if wildcard {
                        path.push(entry.name.clone());
                        assert(texts(path@) =~= relative.push(entry.name@));
                    } else if !same_text(component, ".") {
                        path.push(component.to_owned());
                        assert(texts(path@) =~= relative.push(component@));
                    }
                    let ghost before = path_lists(paths@);
                    let ghost child = texts(path@);
                    paths.push(path);
                    assert(path_lists(paths@) =~= before.push(child));
                },
                EntryKind::File => {},
            }
        }
        index += 1;
    }
    Ok(paths)
}

/// Follows one component of a workspace member pattern from the directories reached so far.
pub fn expand_component(component: &str, candidates: &Vec<PatternCandidate>) -> (result: Result<
    Vec<Vec<String>>,
    PatternLink,
>)
    ensures
        ({
            let reached = reached_paths(component@, candidates@, candidates@.len() as int);
            match result {
                Ok(paths) => reached == Ok::<Seq<Seq<Seq<char>>>, (int, Seq<char>)>(
                    path_lists(paths@),
                ),
                Err(link) => reached == Err::<Seq<Seq<Seq<char>>>, (int, Seq<char>)>(
                    (link.candidate as int, link.name@),
                ),
            }
        }),
{
    let ghost total = candidates@.len() as int;
    let mut paths: Vec<Vec<String>> = Vec::new();
    let mut index: usize = 0;
    assert(path_lists(paths@) =~= Seq::<Seq<Seq<char>>>::empty());
    while index < candidates.len()
        invariant
            total == candidates@.len(),
            index <= total,
            reached_paths(component@, candidates@, index as int) == Ok::<
                Seq<Seq<Seq<char>>>,
                (int, Seq<char>),
            >(path_lists(paths@)),
        decreases total - index,
    {
        match expand_entries(component, &candidates[index]) {
            Ok(more) => {
                let ghost before = path_lists(paths@);
                let ghost added = path_lists(more@);
                let mut rest = more;
                paths.append(&mut rest);
                assert(path_lists(paths@) =~= before + added);
            },
            Err(name) => {
                proof {
                    lemma_paths_link(component@, candidates@, index + 1, total);
                }
                return Err(PatternLink { candidate: index, name });
            },
        }
        index += 1;
    }
    Ok(paths)
}

/// The nonempty paths among the first `count`, written with `/`.
pub open spec fn written_paths(paths: Seq<Seq<Seq<char>>>, count: int) -> Seq<Seq<char>>
    decreases count,
{
    if count <= 0 {
        Seq::empty()
    } else {
        let path = joined(paths[count - 1], "/"@);
        if path.len() == 0 {
            written_paths(paths, count - 1)
        } else {
            written_paths(paths, count - 1).push(path)
        }
    }
}

/// Writes the paths that a pattern has reached, in order and without repetition.
pub fn finish_expansion(paths: &Vec<Vec<String>>) -> (members: Vec<String>)
    ensures
        texts(members@) == sorted_listing::<String>(
            written_paths(path_lists(paths@), paths@.len() as int),
        ),
{
    let ghost all = path_lists(paths@);
    let mut written: Vec<String> = Vec::new();
    let mut index: usize = 0;
    assert(texts(written@) =~= Seq::<Seq<char>>::empty());
    while index < paths.len()
        invariant
            all == path_lists(paths@),
            index <= paths@.len(),
            texts(written@) == written_paths(all, index as int),
        decreases paths@.len() - index,
    {
        let path = join_texts(&paths[index], "/");
        assert(all[index as int] == texts(paths@[index as int]@));
        if !path.as_str().is_empty() {
            let ghost before = texts(written@);
            let ghost value = path@;
            written.push(path);
            assert(texts(written@) =~= before.push(value));
        }
        index += 1;
    }
    assert(models(written@) =~= texts(written@));
    let sorted = sort_unique(written);
    let items = sorted.items();
    assert(models(items@) =~= texts(items@));
    clone_texts(items)
}

/// Returns the components that a workspace member pattern follows, or nothing for `.`, which
/// stands for itself.
pub fn pattern_components(pattern: &str) -> (components: Option<Vec<String>>)
    ensures
        match components {
            Some(list) => pattern@ != "."@ && texts(list@) == split_on(pattern@, '/'),
            None => pattern@ == "."@,
        },
{
    if same_text(pattern, ".") {
        None
    } else {
        Some(split_text(pattern, '/'))
    }
}

// Members.
/// What a workspace member pattern expands to.
#[derive(Debug, PartialEq, Eq)]
pub struct PatternExpansion {
    /// Pattern.
    pub pattern: String,
    /// Project-relative directories, in order.
    pub members: Vec<String>,
}

/// What a pattern expands to, by the first of `expansions` from place `at` on that tells it.
pub open spec fn expansion_of(expansions: Seq<PatternExpansion>, pattern: Seq<char>, at: int) -> Seq<
    Seq<char>,
>
    decreases expansions.len() - at,
{
    if at < 0 || at >= expansions.len() {
        Seq::empty()
    } else if expansions[at].pattern@ == pattern {
        texts(expansions[at].members@)
    } else {
        expansion_of(expansions, pattern, at + 1)
    }
}

pub(crate) fn find_expansion(expansions: &Vec<PatternExpansion>, pattern: &str) -> (members: Vec<String>)
    ensures
        texts(members@) == expansion_of(expansions@, pattern@, 0),
{
    let mut index: usize = 0;
    while index < expansions.len()
        invariant
            index <= expansions@.len(),
            expansion_of(expansions@, pattern@, 0) == expansion_of(
                expansions@,
                pattern@,
                index as int,
            ),
        decreases expansions@.len() - index,
    {
        if same_text(expansions[index].pattern.as_str(), pattern) {
            return clone_texts(&expansions[index].members);
        }
        index += 1;
    }
    let none: Vec<String> = Vec::new();
    assert(texts(none@) =~= Seq::<Seq<char>>::empty());
    none
}

/// The strings among the first `count` values.
pub open spec fn text_values(values: Seq<TomlValue>, count: int) -> Seq<Seq<char>>
    decreases count,
{
    if count <= 0 {
        Seq::empty()
    } else {
        match values[count - 1].text() {
            Some(text) => text_values(values, count - 1).push(text),
            None => text_values(values, count - 1),
        }
    }
}

/// The patterns of directories that are not members.
pub open spec fn excluded_patterns(workspace: TomlValue) -> Seq<Seq<char>> {
    match workspace.entry("exclude"@) {
        Some(value) => match value.items() {
            Some(values) => text_values(values, values.len() as int),
            None => Seq::empty(),
        },
        None => Seq::empty(),
    }
}

fn read_excluded_patterns(workspace: &TomlValue) -> (patterns: Vec<String>)
    ensures
        texts(patterns@) == excluded_patterns(*workspace),
{
    let mut patterns: Vec<String> = Vec::new();
    assert(texts(patterns@) =~= Seq::<Seq<char>>::empty());
    if let Some(value) = workspace.get("exclude") {
        if let Some(values) = value.as_list() {
            let mut index: usize = 0;
            while index < values.len()
                invariant
                    index <= values@.len(),
                    texts(patterns@) == text_values(values@, index as int),
                decreases values@.len() - index,
            {
                if let Some(text) = values[index].as_text() {
                    let ghost before = texts(patterns@);
                    patterns.push(text.to_owned());
                    assert(texts(patterns@) =~= before.push(text@));
                }
                index += 1;
            }
        }
    }
    patterns
}

/// Whether one of the patterns matches a member.
pub open spec fn is_excluded(patterns: Seq<Seq<char>>, member: Seq<char>) -> bool {
    exists|i: int| 0 <= i < patterns.len() && member_matches(#[trigger] patterns[i], member)
}

fn excluded(patterns: &Vec<String>, member: &str) -> (found: bool)
    ensures
        found == is_excluded(texts(patterns@), member@),
{
    let ghost all = texts(patterns@);
    let mut index: usize = 0;
    while index < patterns.len()
        invariant
            all == texts(patterns@),
            index <= patterns@.len(),
            forall|i: int| 0 <= i < index ==> !member_matches(#[trigger] all[i], member@),
        decreases patterns@.len() - index,
    {
        assert(all[index as int] == patterns@[index as int]@);
        if member_pattern_matches(patterns[index].as_str(), member) {
            assert(member_matches(all[index as int], member@));
            return true;
        }
        index += 1;
    }
    false
}

/// Those of the first `count` directories that are members: not the root, and not excluded.
pub open spec fn kept_members(
    expanded: Seq<Seq<char>>,
    excluded: Seq<Seq<char>>,
    count: int,
) -> Seq<Seq<char>>
    decreases count,
{
    if count <= 0 {
        Seq::empty()
    } else {
        let member = expanded[count - 1];
        let before = kept_members(expanded, excluded, count - 1);
        if member != "."@ && !is_excluded(excluded, member) {
            before.push(member)
        } else {
            before
        }
    }
}

/// The members that one value of the members array gives.
pub open spec fn value_members(
    value: TomlValue,
    excluded: Seq<Seq<char>>,
    expansions: Seq<PatternExpansion>,
) -> Seq<Seq<char>> {
    match value.text() {
        Some(pattern) => if is_safe_pattern(pattern) {
            let expanded = expansion_of(expansions, pattern, 0);
            kept_members(expanded, excluded, expanded.len() as int)
        } else {
            Seq::empty()
        },
        None => Seq::empty(),
    }
}

/// What is wrong with one value of the members array.
pub open spec fn value_findings(value: TomlValue, expansions: Seq<PatternExpansion>) -> Seq<
    FindingModel,
> {
    match value.text() {
        None => seq![
            (
                "workspace-member-invalid"@,
                "Cargo.toml"@,
                "workspace member entries must be strings"@,
            ),
        ],
        Some(pattern) => if !is_safe_pattern(pattern) {
            seq![
                (
                    "workspace-member-invalid"@,
                    "Cargo.toml"@,
                    "workspace member pattern `"@ + pattern + "` is unsafe or unsupported"@,
                ),
            ]
        } else {
            note(
                expansion_of(expansions, pattern, 0).len() == 0,
                "workspace-member-missing"@,
                "Cargo.toml"@,
                "workspace member pattern `"@ + pattern + "` matched no directories"@,
            )
        },
    }
}

/// The members that the first `count` values of the members array give.
pub open spec fn values_members(
    values: Seq<TomlValue>,
    excluded: Seq<Seq<char>>,
    expansions: Seq<PatternExpansion>,
    count: int,
) -> Seq<Seq<char>>
    decreases count,
{
    if count <= 0 {
        Seq::empty()
    } else {
        values_members(values, excluded, expansions, count - 1) + value_members(
            values[count - 1],
            excluded,
            expansions,
        )
    }
}

/// What is wrong with the first `count` values of the members array.
pub open spec fn values_findings(
    values: Seq<TomlValue>,
    expansions: Seq<PatternExpansion>,
    count: int,
) -> Seq<FindingModel>
    decreases count,
{
    if count <= 0 {
        Seq::empty()
    } else {
        values_findings(values, expansions, count - 1) + value_findings(
            values[count - 1],
            expansions,
        )
    }
}

/// The values of the members array of a root manifest, or what is wrong.
pub open spec fn member_values(document: TomlValue) -> Result<Seq<TomlValue>, FindingModel> {
    match document.entry("workspace"@) {
        Some(workspace) => if workspace.entries() is None {
            Err(
                (
                    "workspace-invalid"@,
                    "Cargo.toml"@,
                    "root Cargo manifest must declare [workspace]"@,
                ),
            )
        } else {
            match workspace.entry("members"@) {
                Some(value) => match value.items() {
                    Some(values) => Ok(values),
                    None => Err(members_missing()),
                },
                None => Err(members_missing()),
            }
        },
        None => Err(
            (
                "workspace-invalid"@,
                "Cargo.toml"@,
                "root Cargo manifest must declare [workspace]"@,
            ),
        ),
    }
}

/// The finding that a workspace has no members array.
pub open spec fn members_missing() -> FindingModel {
    (
        "workspace-invalid"@,
        "Cargo.toml"@,
        "root Cargo workspace must declare a members array"@,
    )
}

/// The members of a workspace, in order.
pub open spec fn workspace_members(
    document: TomlValue,
    expansions: Seq<PatternExpansion>,
) -> Seq<Seq<char>> {
    match member_values(document) {
        Ok(values) => sorted_listing::<String>(
            values_members(
                values,
                excluded_patterns(document.entry("workspace"@)->Some_0),
                expansions,
                values.len() as int,
            ),
        ),
        Err(_) => Seq::empty(),
    }
}

/// What is wrong with the declaration of a workspace's members.
pub open spec fn workspace_findings(
    document: TomlValue,
    expansions: Seq<PatternExpansion>,
) -> Seq<FindingModel> {
    match member_values(document) {
        Ok(values) => values_findings(values, expansions, values.len() as int),
        Err(finding) => seq![finding],
    }
}

/// The safe patterns among the first `count` values.
pub open spec fn safe_patterns(values: Seq<TomlValue>, count: int) -> Seq<Seq<char>>
    decreases count,
{
    if count <= 0 {
        Seq::empty()
    } else {
        let before = safe_patterns(values, count - 1);
        match values[count - 1].text() {
            Some(pattern) => if is_safe_pattern(pattern) {
                before.push(pattern)
            } else {
                before
            },
            None => before,
        }
    }
}

fn read_member_values(document: &TomlValue) -> (result: Result<
    (&TomlValue, &Vec<TomlValue>),
    &'static str,
>)
    ensures
        match result {
            Ok(parts) => {
                &&& document.entry("workspace"@) == Some(*parts.0)
                &&& member_values(*document) == Ok::<Seq<TomlValue>, FindingModel>(parts.1@)
            },
            Err(message) => member_values(*document) == Err::<Seq<TomlValue>, FindingModel>(
                ("workspace-invalid"@, "Cargo.toml"@, message@),
            ),
        },
{
    let workspace = match document.get("workspace") {
        Some(workspace) => workspace,
        None => {
            return Err("root Cargo manifest must declare [workspace]");
        },
    };
    if workspace.as_table().is_none() {
        return Err("root Cargo manifest must declare [workspace]");
    }
    match workspace.get("members") {
        Some(value) => match value.as_list() {
            Some(values) => Ok((workspace, values)),
            None => Err("root Cargo workspace must declare a members array"),
        },
        None => Err("root Cargo workspace must declare a members array"),
    }
}

/// Returns the safe member patterns of a root manifest, which have to be expanded.
pub fn member_patterns(document: &TomlValue) -> (patterns: Vec<String>)
    ensures
        texts(patterns@) == (match member_values(*document) {
            Ok(values) => safe_patterns(values, values.len() as int),
            Err(_) => Seq::empty(),
        }),
{
    let mut patterns: Vec<String> = Vec::new();
    assert(texts(patterns@) =~= Seq::<Seq<char>>::empty());
    if let Ok((_, values)) = read_member_values(document) {
        let mut index: usize = 0;
        while index < values.len()
            invariant
                index <= values@.len(),
                texts(patterns@) == safe_patterns(values@, index as int),
            decreases values@.len() - index,
        {
            if let Some(pattern) = values[index].as_text() {
                if safe_member_pattern(pattern) {
                    let ghost before = texts(patterns@);
                    patterns.push(pattern.to_owned());
                    assert(texts(patterns@) =~= before.push(pattern@));
                }
            }
            index += 1;
        }
    }
    patterns
}

/// Members and findings of a workspace's declaration.
#[derive(Debug)]
pub struct MemberDiscovery {
    /// Project-relative member directories, in order.
    pub members: Vec<String>,
    /// Violations.
    pub findings: Vec<ProvenanceFinding>,
}

fn keep_members(expanded: &Vec<String>, patterns: &Vec<String>) -> (members: Vec<String>)
    ensures
        texts(members@) == kept_members(
            texts(expanded@),
            texts(patterns@),
            expanded@.len() as int,
        ),
{
    let ghost all = texts(expanded@);
    let mut members: Vec<String> = Vec::new();
    assert(texts(members@) =~= Seq::<Seq<char>>::empty());
    let mut index: usize = 0;
    while index < expanded.len()
        invariant
            all == texts(expanded@),
            index <= expanded@.len(),
            texts(members@) == kept_members(all, texts(patterns@), index as int),
        decreases expanded@.len() - index,
    {
        let member = expanded[index].as_str();
        assert(all[index as int] == member@);
        if !same_text(member, ".") && !excluded(patterns, member) {
            let ghost before = texts(members@);
            members.push(member.to_owned());
            assert(texts(members@) =~= before.push(member@));
        }
        index += 1;
    }
    members
}

fn inspect_member_value(
    value: &TomlValue,
    patterns: &Vec<String>,
    expansions: &Vec<PatternExpansion>,
) -> (discovery: MemberDiscovery)
    ensures
        texts(discovery.members@) == value_members(*value, texts(patterns@), expansions@),
        models(discovery.findings@) == value_findings(*value, expansions@),
{
    let none: Vec<String> = Vec::new();
    assert(texts(none@) =~= Seq::<Seq<char>>::empty());
    let pattern = match value.as_text() {
        Some(pattern) => pattern,
        None => {
            return MemberDiscovery {
                members: none,
                findings: one_finding(
                    "workspace-member-invalid",
                    "Cargo.toml",
                    "workspace member entries must be strings".to_owned(),
                ),
            };
        },
    };
    if !safe_member_pattern(pattern) {
        return MemberDiscovery {
            members: none,
            findings: one_finding(
                "workspace-member-invalid",
                "Cargo.toml",
                join3("workspace member pattern `", pattern, "` is unsafe or unsupported"),
            ),
        };
    }
    let expanded = find_expansion(expansions, pattern);
    let findings = if expanded.len() == 0 {
        assert(expansion_of(expansions@, pattern@, 0).len() == 0);
        one_finding(
            "workspace-member-missing",
            "Cargo.toml",
            join3("workspace member pattern `", pattern, "` matched no directories"),
        )
    } else {
        assert(expansion_of(expansions@, pattern@, 0).len() == expanded@.len());
        no_findings()
    };
    MemberDiscovery { members: keep_members(&expanded, patterns), findings }
}

/// Discovers the members of a workspace from the expansions of its member patterns.
pub fn discover_workspace_members(document: &TomlValue, expansions: &Vec<PatternExpansion>) -> (discovery:
    MemberDiscovery)
    ensures
        texts(discovery.members@) == workspace_members(*document, expansions@),
        models(discovery.findings@) == workspace_findings(*document, expansions@),
{
    let mut members: Vec<String> = Vec::new();
    let mut findings = no_findings();
    assert(texts(members@) =~= Seq::<Seq<char>>::empty());
    let (workspace, values) = match read_member_values(document) {
        Ok(parts) => parts,
        Err(message) => {
            return MemberDiscovery {
                members,
                findings: one_finding("workspace-invalid", "Cargo.toml", message.to_owned()),
            };
        },
    };
    let patterns = read_excluded_patterns(workspace);
    let ghost excluded = texts(patterns@);
    let mut index: usize = 0;
    while index < values.len()
        invariant
            excluded == texts(patterns@),
            index <= values@.len(),
            texts(members@) == values_members(values@, excluded, expansions@, index as int),
            models(findings@) == values_findings(values@, expansions@, index as int),
        decreases values@.len() - index,
    {
        let found = inspect_member_value(&values[index], &patterns, expansions);
        let ghost before = texts(members@);
        let ghost added = texts(found.members@);
        let mut more = found.members;
        members.append(&mut more);
        assert(texts(members@) =~= before + added);
        append_findings(&mut findings, found.findings);
        index += 1;
    }
    assert(models(members@) =~= texts(members@));
    let sorted = sort_unique(members);
    let items = sorted.items();
    assert(models(items@) =~= texts(items@));
    MemberDiscovery { members: clone_texts(items), findings }
}

// Cargo configuration.
/// `text` without `.git` at its end, however often it stands there.
pub open spec fn without_git(text: Seq<char>) -> Seq<char>
    decreases text.len(),
{
    let shorter = without_suffix(text, ".git"@);
    if shorter.len() >= text.len() {
        text
    } else {
        without_git(shorter)
    }
}

/// Whether a source is the canonical repository, in whatever spelling.
pub open spec fn is_canonical_repository(value: Seq<char>) -> bool {
    value == CANONICAL_REPOSITORY@ || occurs("github.com/bmanturner/omnius"@, without_git(value))
}

fn strip_git(text: &str) -> (result: String)
    ensures
        result@ == without_git(text@),
{
    let mut result = text.to_owned();
    loop
        invariant
            without_git(result@) == without_git(text@),
        ensures
            result@ == without_git(text@),
        decreases result@.len(),
    {
        let shorter = strip_suffix(result.as_str(), ".git");
        proof {
            reveal_strlit(".git");
        }
        if same_text(shorter.as_str(), result.as_str()) {
            break;
        }
        result = shorter;
    }
    result
}

/// Returns whether a source is the canonical repository, in whatever spelling.
pub fn source_names_canonical_omnius(value: &str) -> (result: bool)
    ensures
        result == is_canonical_repository(value@),
{
    same_text(value, CANONICAL_REPOSITORY) || contains_text(
        strip_git(value).as_str(),
        "github.com/bmanturner/omnius",
    )
}

/// The finding that one source of a Cargo configuration replaces the canonical repository.
pub open spec fn source_note(display: Seq<char>, source: TomlEntry) -> Seq<FindingModel> {
    let git = match source.value.entry("git"@) {
        Some(value) => value.text(),
        None => None,
    };
    note(
        source.value.entry("replace-with"@) is Some && (is_canonical_repository(source.key@) || (
        git matches Some(address) && is_canonical_repository(address))),
        "source-override"@,
        display,
        "Cargo source `"@ + source.key@ + "` replaces the canonical Omnius Git source"@,
    )
}

/// What is wrong with the first `count` sources of a Cargo configuration.
pub open spec fn sources_findings(display: Seq<char>, sources: Seq<TomlEntry>, count: int) -> Seq<
    FindingModel,
>
    decreases count,
{
    if count <= 0 {
        Seq::empty()
    } else {
        sources_findings(display, sources, count - 1) + source_note(display, sources[count - 1])
    }
}

/// What is wrong with a Cargo configuration.
pub open spec fn configuration_findings(display: Seq<char>, document: TomlValue) -> Seq<
    FindingModel,
> {
    note(
        document.entry("paths"@) is Some,
        "source-override"@,
        display,
        "Cargo paths substitution is forbidden for lifecycle provenance"@,
    ) + (match document.entry("source"@) {
        Some(value) => match value.entries() {
            Some(sources) => sources_findings(display, sources, sources.len() as int),
            None => Seq::empty(),
        },
        None => Seq::empty(),
    })
}

fn inspect_source(display: &str, source: &TomlEntry) -> (findings: Vec<ProvenanceFinding>)
    ensures
        models(findings@) == source_note(display@, *source),
{
    if source.value.get("replace-with").is_none() {
        return no_findings();
    }
    let git = match source.value.get("git") {
        Some(value) => value.as_text(),
        None => None,
    };
    let canonical = source_names_canonical_omnius(source.key.as_str()) || match git {
        Some(address) => source_names_canonical_omnius(address),
        None => false,
    };
    if canonical {
        one_finding(
            "source-override",
            display,
            join3(
                "Cargo source `",
                source.key.as_str(),
                "` replaces the canonical Omnius Git source",
            ),
        )
    } else {
        no_findings()
    }
}

/// Inspects a parsed Cargo configuration.
pub fn inspect_cargo_configuration(display: &str, document: &TomlValue) -> (findings: Vec<
    ProvenanceFinding,
>)
    ensures
        models(findings@) == configuration_findings(display@, *document),
{
    let mut findings = no_findings();
    let substituted = document.get("paths").is_some();
    report_when(
        &mut findings,
        substituted,
        "source-override",
        display,
        "Cargo paths substitution is forbidden for lifecycle provenance",
    );
    proof {
        lemma_first(
            note(
                substituted,
                "source-override"@,
                display@,
                "Cargo paths substitution is forbidden for lifecycle provenance"@,
            ),
        );
    }
    let mut replaced = no_findings();
    if let Some(value) = document.get("source") {
        if let Some(sources) = value.as_table() {
            let mut index: usize = 0;
            while index < sources.len()
                invariant
                    index <= sources@.len(),
                    models(replaced@) == sources_findings(display@, sources@, index as int),
                decreases sources@.len() - index,
            {
                let more = inspect_source(display, &sources[index]);
                append_findings(&mut replaced, more);
                index += 1;
            }
        }
    }
    append_findings(&mut findings, replaced);
    findings
}

// The whole project.
/// A file that was looked for: its path, and its contents where it is there.
#[derive(Debug, PartialEq, Eq)]
pub struct ProvenanceFile {
    /// Project-relative or displayed path.
    pub path: String,
    /// Contents.
    pub source: Option<String>,
}

/// A Cargo manifest of the project.
#[derive(Debug, PartialEq, Eq)]
pub struct ManifestFile {
    /// Project-relative path.
    pub path: String,
    /// Contents.
    pub source: String,
}

impl Keyed for ManifestFile {
    type Model = (Seq<char>, Seq<char>);

    open spec fn model(&self) -> (Seq<char>, Seq<char>) {
        (self.path@, self.source@)
    }

    open spec fn key(model: (Seq<char>, Seq<char>)) -> Seq<u32> {
        text_key(model.0) + text_key(model.1)
    }

    fn key_codes(&self) -> (result: Vec<u32>) {
        let mut key: Vec<u32> = Vec::new();
        push_text_key(&mut key, self.path.as_str());
        push_text_key(&mut key, self.source.as_str());
        assert(key@ =~= text_key(self.path@) + text_key(self.source@));
        key
    }

    fn duplicate(&self) -> (copy: Self) {
        ManifestFile { path: self.path.clone(), source: self.source.clone() }
    }
}

impl Distinct for ManifestFile {
    proof fn key_injective(left: (Seq<char>, Seq<char>), right: (Seq<char>, Seq<char>)) {
        lemma_text_key_split(left.0, text_key(left.1), right.0, text_key(right.1));
        let none = Seq::<u32>::empty();
        assert(text_key(left.1) + none =~= text_key(left.1));
        assert(text_key(right.1) + none =~= text_key(right.1));
        lemma_text_key_split(left.1, none, right.1, none);
    }
}

/// What was read for an inspection: the root manifest, the expansions of member patterns, the
/// manifests of members and the Cargo configurations in effect.
#[derive(Debug, PartialEq, Eq)]
pub struct ProvenanceFiles {
    /// Root manifest.
    pub root: Option<String>,
    /// Expansions of the root manifest's member patterns.
    pub expansions: Vec<PatternExpansion>,
    /// Member manifests, by project-relative path.
    pub manifests: Vec<ProvenanceFile>,
    /// Cargo configurations, by displayed path.
    pub configurations: Vec<ProvenanceFile>,
}

/// Files and findings captured while inspecting Cargo provenance.
#[derive(Debug)]
pub struct ProvenanceInspection {
    /// UTF-8 Cargo manifests in the order of their project-relative paths.
    pub manifest_files: Sorted<ManifestFile>,
    /// Provenance violations.
    pub findings: Vec<ProvenanceFinding>,
}

/// What is wrong with the first `count` Cargo configurations.
pub open spec fn configurations_findings(files: Seq<ProvenanceFile>, count: int) -> Seq<
    FindingModel,
>
    decreases count,
{
    if count <= 0 {
        Seq::empty()
    } else {
        configurations_findings(files, count - 1) + (match files[count - 1].source {
            Some(source) => match toml_parsed(source@) {
                Ok(document) => configuration_findings(files[count - 1].path@, document),
                Err(message) => seq![
                    (
                        "cargo-config-invalid"@,
                        files[count - 1].path@,
                        "Cargo configuration is invalid TOML: "@ + message,
                    ),
                ],
            },
            None => Seq::empty(),
        })
    }
}

/// The contents of a file, by the first of `files` from place `at` on that has its path.
pub open spec fn source_of(files: Seq<ProvenanceFile>, path: Seq<char>, at: int) -> Option<
    Seq<char>,
>
    decreases files.len() - at,
{
    if at < 0 || at >= files.len() {
        None
    } else if files[at].path@ == path {
        match files[at].source {
            Some(source) => Some(source@),
            None => None,
        }
    } else {
        source_of(files, path, at + 1)
    }
}

/// What is wrong with the manifest of a member.
pub open spec fn member_manifest_findings(
    member: Seq<char>,
    source: Option<Seq<char>>,
    framework: ReleaseModel,
    features: Seq<Seq<char>>,
) -> Seq<FindingModel> {
    let manifest = member + "/Cargo.toml"@;
    match source {
        None => seq![
            (
                "workspace-member-missing"@,
                manifest,
                "workspace member `"@ + member + "` has no Cargo.toml"@,
            ),
        ],
        Some(text) => match toml_parsed(text) {
            Err(message) => seq![
                (
                    "manifest-invalid"@,
                    manifest,
                    "workspace member manifest is invalid TOML: "@ + message,
                ),
            ],
            Ok(document) => manifest_findings(manifest, document, false, framework, features),
        },
    }
}

/// What is wrong with the manifests of the first `count` members.
pub open spec fn members_findings(
    members: Seq<Seq<char>>,
    files: Seq<ProvenanceFile>,
    framework: ReleaseModel,
    features: Seq<Seq<char>>,
    count: int,
) -> Seq<FindingModel>
    decreases count,
{
    if count <= 0 {
        Seq::empty()
    } else {
        members_findings(members, files, framework, features, count - 1)
            + member_manifest_findings(
            members[count - 1],
            source_of(files, members[count - 1] + "/Cargo.toml"@, 0),
            framework,
            features,
        )
    }
}

/// The manifests of the first `count` members.
pub open spec fn members_files(
    members: Seq<Seq<char>>,
    files: Seq<ProvenanceFile>,
    count: int,
) -> Seq<(Seq<char>, Seq<char>)>
    decreases count,
{
    if count <= 0 {
        Seq::empty()
    } else {
        let manifest = members[count - 1] + "/Cargo.toml"@;
        match source_of(files, manifest, 0) {
            Some(source) => members_files(members, files, count - 1).push((manifest, source)),
            None => members_files(members, files, count - 1),
        }
    }
}

/// What is wrong with a workspace whose root manifest is `document`.
pub open spec fn project_document_findings(
    files: ProvenanceFiles,
    document: TomlValue,
    framework: ReleaseModel,
    features: Seq<Seq<char>>,
) -> Seq<FindingModel> {
    let members = workspace_members(document, files.expansions@);
    manifest_findings("Cargo.toml"@, document, true, framework, features) + workspace_findings(
        document,
        files.expansions@,
    ) + note(
        !members.contains("apps/service"@),
        "workspace-member-missing"@,
        "Cargo.toml"@,
        "root workspace members must include apps/service"@,
    ) + members_findings(
        members,
        files.manifests@,
        framework,
        features,
        members.len() as int,
    )
}

/// What is wrong with a project: in the order of codes, paths and messages where there is a root
/// manifest.
pub open spec fn project_findings(
    files: ProvenanceFiles,
    framework: ReleaseModel,
    features: Seq<Seq<char>>,
) -> Seq<FindingModel> {
    let configured = configurations_findings(
        files.configurations@,
        files.configurations@.len() as int,
    );
    match files.root {
        None => seq![
            ("manifest-missing"@, "Cargo.toml"@, "root Cargo manifest is missing"@),
        ] + configured,
        Some(root) => {
            let declared = match toml_parsed(root@) {
                Err(message) => seq![
                    (
                        "manifest-invalid"@,
                        "Cargo.toml"@,
                        "root Cargo manifest is invalid TOML: "@ + message,
                    ),
                ],
                Ok(document) => project_document_findings(files, document, framework, features),
            };
            sorted_listing::<ProvenanceFinding>(declared + configured)
        },
    }
}

/// The manifests of a project.
pub open spec fn project_manifests(files: ProvenanceFiles) -> Seq<(Seq<char>, Seq<char>)> {
    match files.root {
        None => Seq::empty(),
        Some(root) => sorted_listing::<ManifestFile>(
            seq![("Cargo.toml"@, root@)] + (match toml_parsed(root@) {
                Err(_) => Seq::empty(),
                Ok(document) => {
                    let members = workspace_members(document, files.expansions@);
                    members_files(members, files.manifests@, members.len() as int)
                },
            }),
        ),
    }
}

fn inspect_cargo_configs(files: &Vec<ProvenanceFile>) -> (findings: Vec<ProvenanceFinding>)
    ensures
        models(findings@) == configurations_findings(files@, files@.len() as int),
{
    let mut findings = no_findings();
    let mut index: usize = 0;
    while index < files.len()
        invariant
            index <= files@.len(),
            models(findings@) == configurations_findings(files@, index as int),
        decreases files@.len() - index,
    {
        let more = match &files[index].source {
            Some(source) => match read_toml(source.as_str()) {
                Ok(document) => inspect_cargo_configuration(
                    files[index].path.as_str(),
                    &document,
                ),
                Err(message) => one_finding(
                    "cargo-config-invalid",
                    files[index].path.as_str(),
                    join2("Cargo configuration is invalid TOML: ", message.as_str()),
                ),
            },
            None => no_findings(),
        };
        append_findings(&mut findings, more);
        index += 1;
    }
    findings
}

fn find_source<'a>(files: &'a Vec<ProvenanceFile>, path: &str) -> (source: Option<&'a str>)
    ensures
        match source {
            Some(text) => source_of(files@, path@, 0) == Some(text@),
            None => source_of(files@, path@, 0) is None,
        },
{
    let mut index: usize = 0;
    while index < files.len()
        invariant
            index <= files@.len(),
            source_of(files@, path@, 0) == source_of(files@, path@, index as int),
        decreases files@.len() - index,
    {
        if same_text(files[index].path.as_str(), path) {
            return match &files[index].source {
                Some(source) => Some(source.as_str()),
                None => None,
            };
        }
        index += 1;
    }
    None
}

fn inspect_member_manifest(
    member: &str,
    source: Option<&str>,
    framework: &ReleaseIdentity,
    runtime_features: &Vec<String>,
) -> (findings: Vec<ProvenanceFinding>)
    ensures
        models(findings@) == member_manifest_findings(
            member@,
            (match source {
                Some(text) => Some(text@),
                None => None,
            }),
            framework@,
            texts(runtime_features@),
        ),
{
    let manifest = join2(member, "/Cargo.toml");
    match source {
        None => one_finding(
            "workspace-member-missing",
            manifest.as_str(),
            join3("workspace member `", member, "` has no Cargo.toml"),
        ),
        Some(text) => match read_toml(text) {
            Err(message) => one_finding(
                "manifest-invalid",
                manifest.as_str(),
                join2("workspace member manifest is invalid TOML: ", message.as_str()),
            ),
            Ok(document) => inspect_manifest(
                manifest.as_str(),
                &document,
                false,
                framework,
                runtime_features,
            ),
        },
    }
}

fn inspect_members(
    members: &Vec<String>,
    files: &Vec<ProvenanceFile>,
    framework: &ReleaseIdentity,
    runtime_features: &Vec<String>,
) -> (findings: Vec<ProvenanceFinding>)
    ensures
        models(findings@) == members_findings(
            texts(members@),
            files@,
            framework@,
            texts(runtime_features@),
            members@.len() as int,
        ),
{
    let ghost all = texts(members@);
    let mut findings = no_findings();
    let mut index: usize = 0;
    while index < members.len()
        invariant
            all == texts(members@),
            index <= members@.len(),
            models(findings@) == members_findings(
                all,
                files@,
                framework@,
                texts(runtime_features@),
                index as int,
            ),
        decreases members@.len() - index,
    {
        let member = members[index].as_str();
        assert(all[index as int] == member@);
        let manifest = join2(member, "/Cargo.toml");
        let source = find_source(files, manifest.as_str());
        let more = inspect_member_manifest(member, source, framework, runtime_features);
        append_findings(&mut findings, more);
        index += 1;
    }
    findings
}

fn collect_member_files(members: &Vec<String>, files: &Vec<ProvenanceFile>) -> (manifests: Vec<
    ManifestFile,
>)
    ensures
        models(manifests@) == members_files(texts(members@), files@, members@.len() as int),
{
    let ghost all = texts(members@);
    let mut manifests: Vec<ManifestFile> = Vec::new();
    assert(models(manifests@) =~= Seq::<(Seq<char>, Seq<char>)>::empty());
    let mut index: usize = 0;
    while index < members.len()
        invariant
            all == texts(members@),
            index <= members@.len(),
            models(manifests@) == members_files(all, files@, index as int),
        decreases members@.len() - index,
    {
        assert(all[index as int] == members@[index as int]@);
        let manifest = join2(members[index].as_str(), "/Cargo.toml");
        if let Some(source) = find_source(files, manifest.as_str()) {
            let ghost before = models(manifests@);
            let ghost path = manifest@;
            manifests.push(ManifestFile { path: manifest, source: source.to_owned() });
            assert(models(manifests@) =~= before.push((path, source@)));
        }
        index += 1;
    }
    manifests
}

/// Inspects a workspace whose root manifest is `document`.
pub fn inspect_project_document(
    files: &ProvenanceFiles,
    document: &TomlValue,
    framework: &ReleaseIdentity,
    runtime_features: &Vec<String>,
) -> (found: (Vec<ProvenanceFinding>, Vec<String>))
    ensures
        models(found.0@) == project_document_findings(
            *files,
            *document,
            framework@,
            texts(runtime_features@),
        ),
        texts(found.1@) == workspace_members(*document, files.expansions@),
{
    let mut findings = inspect_manifest(
        "Cargo.toml",
        document,
        true,
        framework,
        runtime_features,
    );
    let discovery = discover_workspace_members(document, &files.expansions);
    append_findings(&mut findings, discovery.findings);
    let members = discovery.members;
    report_when(
        &mut findings,
        !holds_text(&members, "apps/service"),
        "workspace-member-missing",
        "Cargo.toml",
        "root workspace members must include apps/service",
    );
    let more = inspect_members(&members, &files.manifests, framework, runtime_features);
    append_findings(&mut findings, more);
    (findings, members)
}

fn sort_findings(findings: Vec<ProvenanceFinding>) -> (sorted: Vec<ProvenanceFinding>)
    ensures
        models(sorted@) == sorted_listing::<ProvenanceFinding>(models(findings@)),
{
    let listing = sort_unique(findings);
    let mut sorted: Vec<ProvenanceFinding> = Vec::new();
    let mut index: usize = 0;
    while index < listing.len()
        invariant
            index <= listing@.len(),
            models(sorted@) == listing@.take(index as int),
        decreases listing@.len() - index,
    {
        let ghost before = models(sorted@);
        let copy = listing.at(index).duplicate();
        sorted.push(copy);
        assert(models(sorted@) =~= before.push(listing@[index as int]));
        assert(listing@.take(index + 1) =~= listing@.take(index as int).push(
            listing@[index as int],
        ));
        index += 1;
    }
    assert(listing@.take(index as int) =~= listing@);
    sorted
}

/// Inspects a project's manifests and the Cargo configurations in effect.
pub fn inspect_project_provenance(
    files: &ProvenanceFiles,
    framework: &ReleaseIdentity,
    runtime_features: &Vec<String>,
) -> (inspection: ProvenanceInspection)
    ensures
        models(inspection.findings@) == project_findings(
            *files,
            framework@,
            texts(runtime_features@),
        ),
        inspection.manifest_files@ == project_manifests(*files),
{
    let configured = inspect_cargo_configs(&files.configurations);
    let root = match &files.root {
        None => {
            let mut findings = one_finding(
                "manifest-missing",
                "Cargo.toml",
                "root Cargo manifest is missing".to_owned(),
            );
            append_findings(&mut findings, configured);
            return ProvenanceInspection { manifest_files: Sorted::new(), findings };
        },
        Some(root) => root,
    };
    let mut manifests: Vec<ManifestFile> = Vec::new();
    manifests.push(ManifestFile { path: "Cargo.toml".to_owned(), source: root.clone() });
    let ghost first = seq![("Cargo.toml"@, root@)];
    assert(models(manifests@) =~= first);
    let mut findings = match read_toml(root.as_str()) {
        Err(message) => {
            assert(first =~= first + Seq::<(Seq<char>, Seq<char>)>::empty());
            one_finding(
                "manifest-invalid",
                "Cargo.toml",
                join2("root Cargo manifest is invalid TOML: ", message.as_str()),
            )
        },
        Ok(document) => {
            let (findings, members) = inspect_project_document(
                files,
                &document,
                framework,
                runtime_features,
            );
            let more = collect_member_files(&members, &files.manifests);
            let ghost added = models(more@);
            assert(texts(members@).len() == members@.len());
            let mut rest = more;
            manifests.append(&mut rest);
            assert(models(manifests@) =~= first + added);
            findings
        },
    };
    append_findings(&mut findings, configured);
    ProvenanceInspection {
        manifest_files: sort_unique(manifests),
        findings: sort_findings(findings),
    }
}

// The law.
/// Whether a manifest declares the framework canonically: at this release and with these features,
/// and in no other way.
pub open spec fn declares_release(
    document: TomlValue,
    framework: ReleaseModel,
    features: Seq<Seq<char>>,
) -> bool {
    nested(nested(document.entry("workspace"@), "dependencies"@), "service-kit"@) matches Some(
        dependency,
    ) && (dependency.entries() matches Some(table) && {
        &&& forall|i: int| 0 <= i < table.len() ==> is_canonical_key((#[trigger] table[i]).key@)
        &&& text_entry(table, "package"@) == Some("omnius-service-kit"@)
        &&& text_entry(table, "version"@) == Some("="@ + framework.version)
        &&& text_entry(table, "git"@) == Some(CANONICAL_REPOSITORY@)
        &&& text_entry(table, "rev"@) == Some(framework.revision)
        &&& entry_of(table, "default-features"@) == Some(TomlValue::Flag(false))
        &&& list_entry(table, "features"@) == Some(features)
    })
}

proof fn lemma_no_forbidden_key(table: Seq<TomlEntry>, at: int)
    requires
        forbidden_key(table, at) is None,
        0 <= at <= table.len(),
    ensures
        forall|i: int| at <= i < table.len() ==> is_canonical_key((#[trigger] table[i]).key@),
    decreases table.len() - at,
{
    if at < table.len() {
        lemma_no_forbidden_key(table, at + 1);
    }
}

/// A project without a finding has a root manifest that declares the framework canonically and
/// overrides no source, and its service is a member of the workspace.
pub proof fn lemma_clean_provenance(
    files: ProvenanceFiles,
    framework: ReleaseModel,
    features: Seq<Seq<char>>,
)
    requires
        project_findings(files, framework, features).len() == 0,
    ensures
        files.root matches Some(root) && (toml_parsed(root@) matches Ok(document) && {
            &&& declares_release(document, framework, features)
            &&& document.entry("patch"@) is None
            &&& document.entry("replace"@) is None
            &&& document.entry("paths"@) is None
            &&& workspace_members(document, files.expansions@).contains("apps/service"@)
        }),
        configurations_findings(
            files.configurations@,
            files.configurations@.len() as int,
        ).len() == 0,
{
    let configured = configurations_findings(
        files.configurations@,
        files.configurations@.len() as int,
    );
    if let Some(root) = files.root {
        let declared = match toml_parsed(root@) {
            Err(message) => seq![
                (
                    "manifest-invalid"@,
                    "Cargo.toml"@,
                    "root Cargo manifest is invalid TOML: "@ + message,
                ),
            ],
            Ok(document) => project_document_findings(files, document, framework, features),
        };
        let all = declared + configured;
        lemma_listing_exists::<ProvenanceFinding>(all);
        if all.len() > 0 {
            assert(all.contains(all[0]));
            assert(sorted_listing::<ProvenanceFinding>(all).contains(all[0]));
        }
        if let Ok(document) = toml_parsed(root@) {
            if let Some(dependency) = nested(
                nested(document.entry("workspace"@), "dependencies"@),
                "service-kit"@,
            ) {
                if let Some(table) = dependency.entries() {
                    lemma_no_forbidden_key(table, 0);
                }
            }
        }
    }
}

} // verus!
