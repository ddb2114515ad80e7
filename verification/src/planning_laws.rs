//! When a request is planned, and what an update and a removal come to.

use vstd::prelude::*;
use vstd::string::*;

use crate::configuration_checks::{environment_key, key_of, upper, upper_char};
use crate::diagnosis::{snapshot_findings, text_hash, InputsModel};
use crate::file_map::ProjectFile;
use crate::file_plan_laws::{is_released, leaves, lemma_preserved, lemma_release_change};
use crate::management::{DiagnosticModel, ManagerFailure, PlanAction, PlanStep, SnapshotModel};
use crate::ordered::{ascending, lemma_keyed_listing_exists, lemma_listing_exists, Keyed};
use crate::plan_derived::derived_plan;
use crate::plan_files::{
    has_word, is_historical, kit_owns, naming_component, release_plan, template_plan,
};
use crate::plan_regions::region_plan;
use crate::plan_selection::{next_selection, normalized, state_after};
use crate::planning::{base_plan, beside_release, plan_outcome, PlanOutcome};
use crate::release::ReleaseModel;
use crate::selection::listing;
use crate::state::{
    selected_of, ManagedRegionRecord, OwnershipKind, OwnershipModel, OwnershipRecord, RecordModel,
    StateModel,
};
use crate::template_laws::{is_sql_file, lemma_sql_file};
use crate::text::{joined, lemma_split_pieces, split_on};

verus! {

// Findings.
proof fn lemma_beside(findings: Seq<DiagnosticModel>, count: int)
    requires
        0 <= count <= findings.len(),
    ensures
        forall|finding: DiagnosticModel| #[trigger]
            beside_release(findings, count).contains(finding) <==> finding.0
                != "release-mismatch"@ && exists|i: int|
                0 <= i < count && #[trigger] findings[i] == finding,
    decreases count,
{
    if count > 0 {
        lemma_beside(findings, count - 1);
        let before = beside_release(findings, count - 1);
        let now = beside_release(findings, count);
        let last = findings[count - 1];
        assert forall|finding: DiagnosticModel| #[trigger] now.contains(finding) <==> finding.0
            != "release-mismatch"@ && exists|i: int|
            0 <= i < count && #[trigger] findings[i] == finding by {
            assert(before.contains(finding) <==> finding.0 != "release-mismatch"@ && exists|i: int|
                0 <= i < count - 1 && #[trigger] findings[i] == finding);
            if now != before {
                if now.contains(finding) {
                    let k = choose|k: int| 0 <= k < now.len() && now[k] == finding;
                    if k < before.len() {
                        assert(before[k] == finding);
                    }
                }
                if before.contains(finding) {
                    let k = choose|k: int| 0 <= k < before.len() && before[k] == finding;
                    assert(now[k] == finding);
                }
                assert(now[before.len() as int] == last);
            }
            assert(findings[count - 1] == last);
        }
    }
}

/// Whether a finding stands in the way of a request: any does, but that of another release where a
/// project of another release is compared or updated.
pub open spec fn hinders(
    snapshot: SnapshotModel,
    action: PlanAction,
    finding: DiagnosticModel,
) -> bool {
    !(finding.0 == "release-mismatch"@ && snapshot.state.framework != snapshot.release && (action
        == PlanAction::Diff || action == PlanAction::Upgrade))
}

/// A request is refused before it is planned if and only if a finding stands in its way, and it is
/// refused with exactly those findings.
pub proof fn lemma_preflight(
    inputs: InputsModel,
    snapshot: SnapshotModel,
    files: Seq<ProjectFile>,
    target: Result<(StateModel, Map<Seq<char>, Seq<char>>), Seq<char>>,
    action: PlanAction,
    requested: Option<Seq<char>>,
)
    ensures
        ({
            let findings = snapshot_findings(inputs, snapshot, files);
            let owed = plan_outcome(inputs, snapshot, files, target, action, requested);
            &&& (exists|i: int|
                0 <= i < findings.len() && hinders(snapshot, action, #[trigger] findings[i]))
                ==> (owed matches Err(ManagerFailure::Preflight(list)) && forall|
                finding: DiagnosticModel,
            | #[trigger]
                list.contains(finding) <==> findings.contains(finding) && hinders(
                    snapshot,
                    action,
                    finding,
                ))
            &&& owed is Ok ==> forall|i: int|
                0 <= i < findings.len() ==> !hinders(snapshot, action, #[trigger] findings[i])
        }),
{
    let findings = snapshot_findings(inputs, snapshot, files);
    lemma_beside(findings, findings.len() as int);
    let rest = beside_release(findings, findings.len() as int);
    let owed = plan_outcome(inputs, snapshot, files, target, action, requested);
    if exists|i: int|
        0 <= i < findings.len() && hinders(snapshot, action, #[trigger] findings[i]) {
        let i = choose|i: int|
            0 <= i < findings.len() && hinders(snapshot, action, #[trigger] findings[i]);
        assert(findings.contains(findings[i]));
        if findings[i].0 != "release-mismatch"@ {
            assert(rest.contains(findings[i]));
        }
        let list = owed->Err_0->Preflight_0;
        assert forall|finding: DiagnosticModel| #[trigger] list.contains(finding)
            <==> findings.contains(finding) && hinders(snapshot, action, finding) by {
            assert(rest.contains(finding) <==> finding.0 != "release-mismatch"@ && exists|k: int|
                0 <= k < findings.len() && #[trigger] findings[k] == finding);
            if findings.contains(finding) {
                let k = choose|k: int| 0 <= k < findings.len() && findings[k] == finding;
                assert(findings[k] == finding);
            }
        }
    }
}

// Updates and removals.
/// An update to another release brings every file of the kit to that release: what the release has
/// is written or is there as it is to be, and what it has not is removed. The state records the
/// release.
pub proof fn lemma_update(
    inputs: InputsModel,
    snapshot: SnapshotModel,
    files: Seq<ProjectFile>,
    project: StateModel,
    contents: Map<Seq<char>, Seq<char>>,
    action: PlanAction,
    requested: Option<Seq<char>>,
)
    requires
        snapshot.state.framework != snapshot.release,
    ensures
        plan_outcome(
            inputs,
            snapshot,
            files,
            Ok((project, contents)),
            action,
            requested,
        ) matches Ok(PlanOutcome::Change { state, steps, .. }) ==> {
            &&& state.framework == snapshot.release
            &&& forall|i: int|
                0 <= i < project.ownership.len() && (#[trigger] project.ownership[i]).kind
                    == OwnershipKind::KitOwned ==> contents.contains_key(project.ownership[i].path)
                    && is_released(
                    snapshot,
                    steps,
                    project.ownership[i].path,
                    contents[project.ownership[i].path],
                )
            &&& forall|i: int|
                0 <= i < snapshot.state.ownership.len() && (
                #[trigger] snapshot.state.ownership[i]).kind == OwnershipKind::KitOwned
                    && !kit_owns(project.ownership, snapshot.state.ownership[i].path)
                    ==> steps.contains(
                    PlanStep::RemoveFile {
                        path: snapshot.state.ownership[i].path,
                        expected_hash: text_hash(
                            snapshot.files[snapshot.state.ownership[i].path],
                        ),
                    },
                )
        },
{
    let target = Ok::<(StateModel, Map<Seq<char>, Seq<char>>), Seq<char>>((project, contents));
    if let Ok(PlanOutcome::Change { state: last, added, removed, steps, .. }) = plan_outcome(
        inputs,
        snapshot,
        files,
        target,
        action,
        requested,
    ) {
        let before = selected_of(snapshot.state);
        let set = next_selection(inputs, snapshot.state, action, requested)->Ok_0;
        let state = state_after(
            inputs.catalog,
            snapshot.state,
            action,
            requested,
            listing(set),
            added,
            removed,
        )->Ok_0;
        let base = base_plan(snapshot, target, state)->Ok_0;
        assert(base == release_plan(snapshot, state, project, contents)->Ok_0);
        lemma_release_change(snapshot, state, project, contents);
        let templates = template_plan(inputs, snapshot, base.0, added, removed)->Ok_0;
        let after = selected_of(templates.0);
        let regions = region_plan(inputs, snapshot, files, before, after, templates.0)->Ok_0;
        let derived = derived_plan(inputs, snapshot, before, after, regions.0)->Ok_0;
        assert(steps == base.1 + templates.1 + regions.1 + derived.1);
        assert forall|step: PlanStep| #[trigger] base.1.contains(step) implies steps.contains(
            step,
        ) by {
            let k = choose|k: int| 0 <= k < base.1.len() && base.1[k] == step;
            assert(steps[k] == step);
        }
        assert forall|i: int|
            0 <= i < project.ownership.len() && (#[trigger] project.ownership[i]).kind
                == OwnershipKind::KitOwned implies contents.contains_key(project.ownership[i].path)
            && is_released(
            snapshot,
            steps,
            project.ownership[i].path,
            contents[project.ownership[i].path],
        ) by {
            assert(is_released(
                snapshot,
                base.1,
                project.ownership[i].path,
                contents[project.ownership[i].path],
            ));
        }
    }
}

/// A change names, in order, exactly what it leaves in place: what the removed modules persist,
/// their application templates that are there, and, where a module is removed, every owned path of
/// migrations, data and history.
pub proof fn lemma_change_preserves(
    inputs: InputsModel,
    snapshot: SnapshotModel,
    files: Seq<ProjectFile>,
    target: Result<(StateModel, Map<Seq<char>, Seq<char>>), Seq<char>>,
    action: PlanAction,
    requested: Option<Seq<char>>,
)
    ensures
        plan_outcome(inputs, snapshot, files, target, action, requested) matches Ok(
            PlanOutcome::Change { removed, preserved, .. },
        ) ==> {
            &&& ascending::<String>(preserved)
            &&& forall|path: Seq<char>| #[trigger]
                preserved.contains(path) <==> (exists|i: int|
                    0 <= i < removed.len() && leaves(
                        inputs,
                        snapshot,
                        #[trigger] removed[i],
                        path,
                    )) || (removed.len() > 0 && is_history(path) && exists|i: int|
                    0 <= i < snapshot.state.ownership.len() && (
                    #[trigger] snapshot.state.ownership[i]).path == path)
        },
{
    if let Ok(PlanOutcome::Change { added, removed, preserved, .. }) = plan_outcome(
        inputs,
        snapshot,
        files,
        target,
        action,
        requested,
    ) {
        lemma_preserved(inputs, snapshot, removed);
        assert forall|path: Seq<char>| #[trigger] is_historical(path) == is_history(path) by {
            lemma_history(path);
        }
    }
}

// Canonical states.
/// The canonical form of a state is of the release and records what the state does: the same
/// service, profile, modules and providers, the same additions, removals and volumes, and, where no
/// record is there twice, the same owners and regions.
pub proof fn lemma_normalized_keeps(state: StateModel, release: ReleaseModel)
    ensures
        ({
            let after = normalized(state, release);
            &&& after.framework == release
            &&& after.schema_version == state.schema_version
            &&& after.service == state.service
            &&& after.modules == state.modules
            &&& after.providers == state.providers
            &&& after.profile.id == state.profile.id
            &&& after.profile.version == state.profile.version
            &&& forall|id: Seq<char>| #[trigger]
                after.profile.additions.contains(id) <==> state.profile.additions.contains(id)
            &&& forall|id: Seq<char>| #[trigger]
                after.profile.removals.contains(id) <==> state.profile.removals.contains(id)
            &&& forall|volume: Seq<char>| #[trigger]
                after.retained_volumes.contains(volume) <==> state.retained_volumes.contains(volume)
            &&& (forall|i: int, j: int|
                0 <= i < j < state.ownership.len() ==> OwnershipRecord::key(
                    #[trigger] state.ownership[i],
                ) != OwnershipRecord::key(#[trigger] state.ownership[j])) ==> forall|
                record: OwnershipModel,
            | #[trigger]
                after.ownership.contains(record) <==> state.ownership.contains(record)
            &&& (forall|i: int, j: int|
                0 <= i < j < state.regions.len() ==> ManagedRegionRecord::key(
                    #[trigger] state.regions[i],
                ) != ManagedRegionRecord::key(#[trigger] state.regions[j])) ==> forall|
                record: RecordModel,
            | #[trigger]
                after.regions.contains(record) <==> state.regions.contains(record)
        }),
{
    lemma_listing_exists::<String>(state.profile.additions);
    lemma_listing_exists::<String>(state.profile.removals);
    lemma_listing_exists::<String>(state.retained_volumes);
    if forall|i: int, j: int|
        0 <= i < j < state.ownership.len() ==> OwnershipRecord::key(#[trigger] state.ownership[i])
            != OwnershipRecord::key(#[trigger] state.ownership[j]) {
        lemma_keyed_listing_exists::<OwnershipRecord>(state.ownership);
    }
    if forall|i: int, j: int|
        0 <= i < j < state.regions.len() ==> ManagedRegionRecord::key(#[trigger] state.regions[i])
            != ManagedRegionRecord::key(#[trigger] state.regions[j]) {
        lemma_keyed_listing_exists::<ManagedRegionRecord>(state.regions);
    }
}

// History.
/// Whether a component of a path, from place `from` on, is a word.
pub open spec fn passes(path: Seq<char>, from: int, word: Seq<char>) -> bool {
    exists|i: int| from <= i < split_on(path, '/').len() && #[trigger] split_on(path, '/')[i] == word
}

/// The last component of a path that is neither empty nor the current directory, unless it is the
/// parent directory.
pub open spec fn file_name_of(path: Seq<char>, name: Seq<char>) -> bool {
    exists|k: int|
        0 <= k < split_on(path, '/').len() && #[trigger] split_on(path, '/')[k] == name
            && name.len() > 0 && name != "."@ && name != ".."@ && forall|i: int|
            k < i < split_on(path, '/').len() ==> (#[trigger] split_on(path, '/')[i]).len() == 0
                || split_on(path, '/')[i] == "."@
}

/// Whether a path is history that a removal leaves in place: it begins with migrations, or data or
/// history stand in it, or it is SQL below migrations.
pub open spec fn is_history(path: Seq<char>) -> bool {
    ||| passes(path, 0, "data"@)
    ||| passes(path, 0, "history"@)
    ||| split_on(path, '/')[0] == "migration"@
    ||| split_on(path, '/')[0] == "migrations"@
    ||| (passes(path, 1, "migration"@) || passes(path, 1, "migrations"@)) && exists|name: Seq<char>|
        #[trigger] file_name_of(path, name) && is_sql_file(name)
}

proof fn lemma_naming(components: Seq<Seq<char>>, count: int)
    requires
        0 <= count <= components.len(),
    ensures
        match naming_component(components, count) {
            Some(name) => exists|k: int|
                0 <= k < count && #[trigger] components[k] == name && name.len() > 0 && name
                    != "."@ && name != ".."@ && forall|i: int|
                    k < i < count ==> (#[trigger] components[i]).len() == 0 || components[i]
                        == "."@,
            None => (forall|i: int|
                0 <= i < count ==> (#[trigger] components[i]).len() == 0 || components[i]
                    == "."@) || exists|k: int|
                0 <= k < count && #[trigger] components[k] == ".."@ && forall|i: int|
                    k < i < count ==> (#[trigger] components[i]).len() == 0 || components[i]
                        == "."@,
        },
    decreases count,
{
    reveal_strlit(".");
    reveal_strlit("..");
    if count > 0 {
        let component = components[count - 1];
        if component.len() == 0 || component == "."@ {
            lemma_naming(components, count - 1);
            match naming_component(components, count - 1) {
                Some(name) => {
                    let k = choose|k: int|
                        0 <= k < count - 1 && #[trigger] components[k] == name && name.len() > 0
                            && name != "."@ && name != ".."@ && forall|i: int|
                            k < i < count - 1 ==> (#[trigger] components[i]).len() == 0
                                || components[i] == "."@;
                    assert(components[k] == name);
                },
                None => {
                    if exists|k: int|
                        0 <= k < count - 1 && #[trigger] components[k] == ".."@ && forall|i: int|
                            k < i < count - 1 ==> (#[trigger] components[i]).len() == 0
                                || components[i] == "."@ {
                        let k = choose|k: int|
                            0 <= k < count - 1 && #[trigger] components[k] == ".."@ && forall|
                                i: int,
                            |
                                k < i < count - 1 ==> (#[trigger] components[i]).len() == 0
                                    || components[i] == "."@;
                        assert(components[k] == ".."@);
                    }
                },
            }
        } else {
            assert(components[count - 1] == component);
        }
    }
}

/// A path is kept as history if and only if it is history.
pub proof fn lemma_history(path: Seq<char>)
    ensures
        is_historical(path) <==> is_history(path),
{
    let components = split_on(path, '/');
    lemma_split_pieces(path, '/');
    lemma_naming(components, components.len() as int);
    lemma_word(path, "data"@, "history"@);
    lemma_word(path, "migration"@, "migrations"@);
    assert(passes(path, 0, "data"@) <==> components[0] == "data"@ || passes(path, 1, "data"@)) by {
        lemma_passes(path, "data"@);
    }
    assert(passes(path, 0, "history"@) <==> components[0] == "history"@ || passes(
        path,
        1,
        "history"@,
    )) by {
        lemma_passes(path, "history"@);
    }
    let found = naming_component(components, components.len() as int);
    if let Some(name) = found {
        lemma_sql_file(name);
        assert(file_name_of(path, name));
    }
    if exists|name: Seq<char>|
        #[trigger] file_name_of(path, name) && is_sql_file(name) {
        let name = choose|name: Seq<char>|
            #[trigger] file_name_of(path, name) && is_sql_file(name);
        lemma_one_name(path, name, components);
        lemma_sql_file(name);
    }
}

proof fn lemma_one_name(path: Seq<char>, name: Seq<char>, components: Seq<Seq<char>>)
    requires
        components == split_on(path, '/'),
        file_name_of(path, name),
    ensures
        naming_component(components, components.len() as int) == Some(name),
{
    lemma_naming(components, components.len() as int);
    reveal_strlit(".");
    reveal_strlit("..");
    let k = choose|k: int|
        0 <= k < split_on(path, '/').len() && #[trigger] split_on(path, '/')[k] == name
            && name.len() > 0 && name != "."@ && name != ".."@ && forall|i: int|
            k < i < split_on(path, '/').len() ==> (#[trigger] split_on(path, '/')[i]).len() == 0
                || split_on(path, '/')[i] == "."@;
    assert(components[k] == name);
    match naming_component(components, components.len() as int) {
        Some(other) => {
            let m = choose|m: int|
                0 <= m < components.len() && #[trigger] components[m] == other && other.len() > 0
                    && other != "."@ && other != ".."@ && forall|i: int|
                    m < i < components.len() ==> (#[trigger] components[i]).len() == 0
                        || components[i] == "."@;
            if m < k {
                assert(components[k].len() == 0 || components[k] == "."@);
            } else if k < m {
                assert(components[m].len() == 0 || components[m] == "."@);
            }
        },
        None => {
            if exists|m: int|
                0 <= m < components.len() && #[trigger] components[m] == ".."@ && forall|i: int|
                    m < i < components.len() ==> (#[trigger] components[i]).len() == 0
                        || components[i] == "."@ {
                let m = choose|m: int|
                    0 <= m < components.len() && #[trigger] components[m] == ".."@ && forall|i: int|
                        m < i < components.len() ==> (#[trigger] components[i]).len() == 0
                            || components[i] == "."@;
                if m < k {
                    assert(components[k].len() == 0 || components[k] == "."@);
                } else if k < m {
                    assert(components[m].len() == 0 || components[m] == "."@);
                }
            } else {
                assert(components[k].len() == 0 || components[k] == "."@);
            }
        },
    }
}

proof fn lemma_word(path: Seq<char>, first: Seq<char>, second: Seq<char>)
    ensures
        has_word(split_on(path, '/'), 1, first, second) <==> passes(path, 1, first) || passes(
            path,
            1,
            second,
        ),
{
    let components = split_on(path, '/');
    if has_word(components, 1, first, second) {
        let i = choose|i: int|
            1 <= i < components.len() && ((#[trigger] components[i]) == first || components[i]
                == second);
        assert(split_on(path, '/')[i] == first || split_on(path, '/')[i] == second);
    }
    if passes(path, 1, first) {
        let i = choose|i: int|
            1 <= i < split_on(path, '/').len() && #[trigger] split_on(path, '/')[i] == first;
        assert(components[i] == first);
    }
    if passes(path, 1, second) {
        let i = choose|i: int|
            1 <= i < split_on(path, '/').len() && #[trigger] split_on(path, '/')[i] == second;
        assert(components[i] == second);
    }
}

proof fn lemma_passes(path: Seq<char>, word: Seq<char>)
    ensures
        passes(path, 0, word) <==> split_on(path, '/')[0] == word || passes(path, 1, word),
{
    lemma_split_pieces(path, '/');
    if passes(path, 0, word) {
        let i = choose|i: int|
            0 <= i < split_on(path, '/').len() && #[trigger] split_on(path, '/')[i] == word;
        assert(i == 0 || 1 <= i);
    }
    if passes(path, 1, word) {
        let i = choose|i: int|
            1 <= i < split_on(path, '/').len() && #[trigger] split_on(path, '/')[i] == word;
        assert(split_on(path, '/')[i] == word);
    }
}

// Environment.
/// A string with its ASCII letters in upper case.
pub open spec fn in_capitals(text: Seq<char>) -> Seq<char> {
    Seq::new(
        text.len(),
        |i: int|
            if 'a' <= text[i] && text[i] <= 'z' {
                (text[i] as u32 - 'a' as u32 + 'A' as u32) as char
            } else {
                text[i]
            },
    )
}

/// The environment key of a configuration path is the name of the framework and the components of
/// the path, in capitals, with two underscores between each two.
pub proof fn lemma_environment_key(path: Seq<char>)
    ensures
        environment_key(path) == joined(
            seq!["OMNIUS"@] + Seq::new(
                split_on(path, '.').len(),
                |i: int| in_capitals(split_on(path, '.')[i]),
            ),
            "__"@,
        ),
{
    lemma_key(split_on(path, '.'), split_on(path, '.').len() as int);
    let components = split_on(path, '.');
    assert(Seq::new(components.len(), |i: int| in_capitals(components[i])) =~= Seq::new(
        split_on(path, '.').len(),
        |i: int| in_capitals(split_on(path, '.')[i]),
    ));
    assert(components.take(components.len() as int) =~= components);
    assert(capitals(components) =~= Seq::new(
        split_on(path, '.').len(),
        |i: int| in_capitals(split_on(path, '.')[i]),
    ));
}

spec fn capitals(components: Seq<Seq<char>>) -> Seq<Seq<char>> {
    Seq::new(components.len(), |i: int| in_capitals(components[i]))
}

proof fn lemma_key(components: Seq<Seq<char>>, count: int)
    requires
        0 <= count <= components.len(),
    ensures
        key_of(components, count) == joined(
            seq!["OMNIUS"@] + capitals(components.take(count)),
            "__"@,
        ),
    decreases count,
{
    let words = seq!["OMNIUS"@] + capitals(components.take(count));
    if count > 0 {
        lemma_key(components, count - 1);
        let fewer = seq!["OMNIUS"@] + capitals(components.take(count - 1));
        assert(words.drop_last() =~= fewer);
        let last = components[count - 1];
        assert(upper(last) =~= in_capitals(last)) by {
            assert forall|i: int| 0 <= i < last.len() implies #[trigger] upper(last)[i]
                == in_capitals(last)[i] by {
                assert(upper(last)[i] == upper_char(last[i]));
            }
        }
        assert(words.last() == in_capitals(last));
    } else {
        assert(words =~= seq!["OMNIUS"@]);
    }
}

} // verus!
