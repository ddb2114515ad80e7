//! The order in which the files of a project are listed does not matter.

use vstd::prelude::*;
use vstd::string::*;

use crate::diagnosis::{
    detailed_findings, file_findings, inventory_findings, managed_list_findings, owned_findings,
    selection_findings, snapshot_findings, untracked_findings, InputsModel,
};
use crate::file_map::{
    contents_by_path, distinct_paths, file_place, lemma_file_place, lemma_only_place, ProjectFile,
};
use crate::management::{Diagnostic, DiagnosticModel, PlanAction, SnapshotModel};
use crate::module_checks::last_place;
use crate::ordered::{lemma_listing_exists, lemma_sorted_listing, sorted_listing};
use crate::plan_regions::{
    all_places, concerned_places, matching_paths, path_matches, paths_region_plan, pattern_targets,
    place_paths, place_regions, places_in, recorded_places, reference_list, reference_places,
    region_plan, regions_in, PlaceModel,
};
use crate::planning::{change_plan, initial_outcome, plan_outcome, selection_outcome};
use crate::rendering::derived_paths;
use crate::selection::listing;
use crate::state::{selected_of, RecordModel, StateModel};

verus! {

/// Whether two lists hold the same values.
pub open spec fn same_members<A>(left: Seq<A>, right: Seq<A>) -> bool {
    forall|value: A| #[trigger] left.contains(value) <==> right.contains(value)
}

proof fn lemma_members_joined<A>(left: Seq<A>, right: Seq<A>)
    ensures
        forall|value: A| #[trigger]
            (left + right).contains(value) <==> left.contains(value) || right.contains(value),
{
    assert forall|value: A| #[trigger]
        (left + right).contains(value) <==> left.contains(value) || right.contains(value) by {
        let all = left + right;
        if all.contains(value) {
            let i = choose|i: int| 0 <= i < all.len() && all[i] == value;
            if i < left.len() {
                assert(left[i] == value);
            } else {
                assert(right[i - left.len()] == value);
            }
        }
        if left.contains(value) {
            let i = choose|i: int| 0 <= i < left.len() && left[i] == value;
            assert(all[i] == value);
        }
        if right.contains(value) {
            let i = choose|i: int| 0 <= i < right.len() && right[i] == value;
            assert(all[left.len() + i] == value);
        }
    }
}

// Regions.
proof fn lemma_matching(files: Seq<ProjectFile>, pattern: Seq<char>, count: int)
    requires
        0 <= count <= files.len(),
    ensures
        forall|path: Seq<char>| #[trigger]
            matching_paths(files, pattern, count).contains(path) <==> path_matches(path, pattern)
                && exists|i: int| 0 <= i < count && (#[trigger] files[i]).path@ == path,
    decreases count,
{
    let now = matching_paths(files, pattern, count);
    if count > 0 {
        lemma_matching(files, pattern, count - 1);
        let before = matching_paths(files, pattern, count - 1);
        let last = files[count - 1].path@;
        assert forall|path: Seq<char>| #[trigger] now.contains(path) <==> path_matches(
            path,
            pattern,
        ) && exists|i: int| 0 <= i < count && (#[trigger] files[i]).path@ == path by {
            if now != before {
                lemma_members_joined(before, seq![last]);
                assert(now =~= before + seq![last]);
                assert(seq![last].contains(path) <==> path == last) by {
                    assert(seq![last][0] == last);
                }
            }
            assert(files[count - 1].path@ == last);
            assert(before.contains(path) <==> path_matches(path, pattern) && exists|i: int|
                0 <= i < count - 1 && (#[trigger] files[i]).path@ == path);
        }
    }
}

proof fn lemma_has_file(files: Seq<ProjectFile>, path: Seq<char>)
    ensures
        contents_by_path(files).contains_key(path) <==> exists|i: int|
            0 <= i < files.len() && (#[trigger] files[i]).path@ == path,
{
    lemma_file_place(files, path, 0);
    let place = file_place(files, path, 0);
    if place < files.len() {
        assert(files[place].path@ == path);
    }
}

proof fn lemma_same_targets(
    left: Seq<ProjectFile>,
    right: Seq<ProjectFile>,
    pattern: Seq<char>,
)
    requires
        contents_by_path(left) == contents_by_path(right),
    ensures
        same_members(pattern_targets(left, pattern), pattern_targets(right, pattern)),
        pattern_targets(left, pattern).len() == 0 <==> pattern_targets(right, pattern).len() == 0,
{
    let one = pattern_targets(left, pattern);
    let other = pattern_targets(right, pattern);
    lemma_matching(left, pattern, left.len() as int);
    lemma_matching(right, pattern, right.len() as int);
    assert forall|path: Seq<char>| #[trigger] one.contains(path) <==> other.contains(path) by {
        lemma_has_file(left, path);
        lemma_has_file(right, path);
    }
    if one.len() > 0 {
        assert(one.contains(one[0]));
        assert(other.contains(one[0]));
    }
    if other.len() > 0 {
        assert(other.contains(other[0]));
        assert(one.contains(other[0]));
    }
}

proof fn lemma_places_in(paths: Seq<Seq<char>>, id: Seq<char>)
    ensures
        forall|place: PlaceModel| #[trigger]
            places_in(paths, id).contains(place) <==> place.1 == id && paths.contains(place.0),
{
    let places = places_in(paths, id);
    assert forall|place: PlaceModel| #[trigger] places.contains(place) <==> place.1 == id
        && paths.contains(place.0) by {
        if places.contains(place) {
            let i = choose|i: int| 0 <= i < places.len() && places[i] == place;
            assert(paths[i] == place.0);
        }
        if place.1 == id && paths.contains(place.0) {
            let i = choose|i: int| 0 <= i < paths.len() && paths[i] == place.0;
            assert(places[i] == place);
        }
    }
}

/// Whether two lists of places differ at most in their order, or cannot be told for one reason.
spec fn agree<F>(left: Result<Seq<PlaceModel>, F>, right: Result<Seq<PlaceModel>, F>) -> bool {
    match (left, right) {
        (Ok(one), Ok(other)) => same_members(one, other),
        (Err(one), Err(other)) => one == other,
        _ => false,
    }
}

proof fn lemma_same_reference(
    left: Seq<ProjectFile>,
    right: Seq<ProjectFile>,
    reference: Seq<char>,
)
    requires
        contents_by_path(left) == contents_by_path(right),
    ensures
        agree(reference_places(left, reference), reference_places(right, reference)),
{
    let place = last_place(reference, '#', reference.len() as int);
    if place >= 0 {
        let pattern = reference.take(place);
        let id = reference.skip(place + 1);
        lemma_same_targets(left, right, pattern);
        let one = pattern_targets(left, pattern);
        let other = pattern_targets(right, pattern);
        lemma_places_in(one, id);
        lemma_places_in(other, id);
        assert forall|value: PlaceModel| #[trigger] places_in(one, id).contains(value) <==> places_in(
            other,
            id,
        ).contains(value) by {
            assert(one.contains(value.0) <==> other.contains(value.0));
        }
    }
}

proof fn lemma_same_places(
    known: Seq<PlaceModel>,
    left: Seq<ProjectFile>,
    right: Seq<ProjectFile>,
    references: Seq<Seq<char>>,
    count: int,
)
    requires
        contents_by_path(left) == contents_by_path(right),
    ensures
        agree(
            all_places(known, left, references, count),
            all_places(known, right, references, count),
        ),
    decreases count,
{
    if count > 0 {
        lemma_same_places(known, left, right, references, count - 1);
        lemma_same_reference(left, right, references[count - 1]);
        let one = all_places(known, left, references, count - 1);
        let other = all_places(known, right, references, count - 1);
        let more = reference_places(left, references[count - 1]);
        let others = reference_places(right, references[count - 1]);
        if one is Ok && more is Ok {
            lemma_members_joined(one->Ok_0, more->Ok_0);
            lemma_members_joined(other->Ok_0, others->Ok_0);
            assert forall|value: PlaceModel| #[trigger]
                (one->Ok_0 + more->Ok_0).contains(value) <==> (other->Ok_0 + others->Ok_0).contains(
                    value,
                ) by {
                assert(one->Ok_0.contains(value) <==> other->Ok_0.contains(value));
                assert(more->Ok_0.contains(value) <==> others->Ok_0.contains(value));
            }
        }
    }
}

proof fn lemma_regions_in(places: Seq<PlaceModel>, path: Seq<char>, count: int)
    requires
        0 <= count <= places.len(),
    ensures
        forall|id: Seq<char>| #[trigger]
            regions_in(places, path, count).contains(id) <==> places.take(count).contains(
                (path, id),
            ),
    decreases count,
{
    let now = regions_in(places, path, count);
    if count > 0 {
        lemma_regions_in(places, path, count - 1);
        let before = regions_in(places, path, count - 1);
        let last = places[count - 1];
        let few = places.take(count - 1);
        assert(places.take(count) =~= few + seq![last]);
        lemma_members_joined(few, seq![last]);
        lemma_members_joined(before, seq![last.1]);
        assert forall|id: Seq<char>| #[trigger] now.contains(id) <==> places.take(count).contains(
            (path, id),
        ) by {
            assert(before.contains(id) <==> few.contains((path, id)));
            assert((few + seq![last]).contains((path, id)) <==> few.contains((path, id))
                || seq![last].contains((path, id)));
            assert(seq![last].contains((path, id)) <==> last == (path, id)) by {
                assert(seq![last][0] == last);
            }
            assert(seq![last.1].contains(id) <==> last.1 == id) by {
                assert(seq![last.1][0] == last.1);
            }
            if last.0 == path {
                assert(now =~= before + seq![last.1]);
            }
        }
    } else {
        assert(places.take(0) =~= Seq::<PlaceModel>::empty());
    }
}

proof fn lemma_same_listing(left: Seq<Seq<char>>, right: Seq<Seq<char>>)
    requires
        same_members(left, right),
    ensures
        sorted_listing::<String>(left) == sorted_listing::<String>(right),
{
    lemma_listing_exists::<String>(left);
    let sorted = sorted_listing::<String>(left);
    assert forall|value: Seq<char>| #[trigger] sorted.contains(value) <==> right.contains(
        value,
    ) by {
        assert(left.contains(value) <==> right.contains(value));
    }
    lemma_sorted_listing::<String>(sorted, right);
}

proof fn lemma_same_regions(left: Seq<PlaceModel>, right: Seq<PlaceModel>, path: Seq<char>)
    requires
        same_members(left, right),
    ensures
        place_regions(left, path) == place_regions(right, path),
{
    lemma_regions_in(left, path, left.len() as int);
    lemma_regions_in(right, path, right.len() as int);
    assert(left.take(left.len() as int) =~= left);
    assert(right.take(right.len() as int) =~= right);
    let one = regions_in(left, path, left.len() as int);
    let other = regions_in(right, path, right.len() as int);
    assert forall|id: Seq<char>| #[trigger] one.contains(id) <==> other.contains(id) by {
        assert(left.contains((path, id)) <==> right.contains((path, id)));
    }
    lemma_same_listing(one, other);
}

proof fn lemma_same_paths(left: Seq<PlaceModel>, right: Seq<PlaceModel>)
    requires
        same_members(left, right),
    ensures
        place_paths(left) == place_paths(right),
{
    let path_of = |place: PlaceModel| place.0;
    let one = left.map_values(path_of);
    let other = right.map_values(path_of);
    assert forall|path: Seq<char>| #[trigger] one.contains(path) <==> other.contains(path) by {
        if one.contains(path) {
            let i = choose|i: int| 0 <= i < one.len() && one[i] == path;
            assert(left.contains(left[i]));
            assert(right.contains(left[i]));
            let j = choose|j: int| 0 <= j < right.len() && right[j] == left[i];
            assert(other[j] == path);
        }
        if other.contains(path) {
            let i = choose|i: int| 0 <= i < other.len() && other[i] == path;
            assert(right.contains(right[i]));
            assert(left.contains(right[i]));
            let j = choose|j: int| 0 <= j < left.len() && left[j] == right[i];
            assert(one[j] == path);
        }
    }
    lemma_same_listing(one, other);
}

proof fn lemma_same_paths_plan(
    inputs: InputsModel,
    snapshot: SnapshotModel,
    after: Seq<Seq<char>>,
    state: StateModel,
    left: Seq<PlaceModel>,
    right: Seq<PlaceModel>,
    paths: Seq<Seq<char>>,
    count: int,
)
    requires
        same_members(left, right),
    ensures
        paths_region_plan(inputs, snapshot, after, state, left, paths, count)
            == paths_region_plan(inputs, snapshot, after, state, right, paths, count),
    decreases count,
{
    if count > 0 {
        lemma_same_paths_plan(inputs, snapshot, after, state, left, right, paths, count - 1);
        lemma_same_regions(left, right, paths[count - 1]);
    }
}

proof fn lemma_same_region_plan(
    inputs: InputsModel,
    snapshot: SnapshotModel,
    left: Seq<ProjectFile>,
    right: Seq<ProjectFile>,
    before: Seq<Seq<char>>,
    after: Seq<Seq<char>>,
    state: StateModel,
)
    requires
        contents_by_path(left) == contents_by_path(right),
    ensures
        region_plan(inputs, snapshot, left, before, after, state) == region_plan(
            inputs,
            snapshot,
            right,
            before,
            after,
            state,
        ),
{
    let ids = listing(before.to_set().union(after.to_set()));
    if let Ok(list) = reference_list(inputs.catalog, ids, ids.len() as int) {
        let references = sorted_listing::<String>(list);
        lemma_same_places(
            recorded_places(state.regions),
            left,
            right,
            references,
            references.len() as int,
        );
        let one = concerned_places(inputs.catalog, left, state, before, after);
        let other = concerned_places(inputs.catalog, right, state, before, after);
        if one is Ok {
            let paths = place_paths(one->Ok_0);
            lemma_same_paths(one->Ok_0, other->Ok_0);
            lemma_same_paths_plan(
                inputs,
                snapshot,
                after,
                state,
                one->Ok_0,
                other->Ok_0,
                paths,
                paths.len() as int,
            );
        }
    }
}

proof fn lemma_same_change(
    inputs: InputsModel,
    snapshot: SnapshotModel,
    left: Seq<ProjectFile>,
    right: Seq<ProjectFile>,
    target: Result<(StateModel, Map<Seq<char>, Seq<char>>), Seq<char>>,
    before: Seq<Seq<char>>,
    added: Seq<Seq<char>>,
    removed: Seq<Seq<char>>,
    state: StateModel,
)
    requires
        contents_by_path(left) == contents_by_path(right),
    ensures
        change_plan(inputs, snapshot, left, target, before, added, removed, state) == change_plan(
            inputs,
            snapshot,
            right,
            target,
            before,
            added,
            removed,
            state,
        ),
{
    assert forall|after: Seq<Seq<char>>, next: StateModel| #[trigger]
        region_plan(inputs, snapshot, left, before, after, next) == region_plan(
            inputs,
            snapshot,
            right,
            before,
            after,
            next,
        ) by {
        lemma_same_region_plan(inputs, snapshot, left, right, before, after, next);
    }
}

/// Composing a new project does not depend on the order in which its files are listed.
pub proof fn lemma_listing_of_new_project(
    inputs: InputsModel,
    snapshot: SnapshotModel,
    left: Seq<ProjectFile>,
    right: Seq<ProjectFile>,
    target: Result<(StateModel, Map<Seq<char>, Seq<char>>), Seq<char>>,
)
    requires
        contents_by_path(left) == contents_by_path(right),
    ensures
        initial_outcome(inputs, snapshot, left, target) == initial_outcome(
            inputs,
            snapshot,
            right,
            target,
        ),
{
    let selected = selected_of(snapshot.state);
    lemma_same_change(
        inputs,
        snapshot,
        left,
        right,
        target,
        selected,
        selected,
        Seq::empty(),
        snapshot.state,
    );
}

// Findings.
proof fn lemma_untracked(records: Seq<RecordModel>, files: Seq<ProjectFile>, count: int)
    requires
        0 <= count <= files.len(),
    ensures
        forall|item: DiagnosticModel| #[trigger]
            untracked_findings(records, files, count).contains(item) <==> exists|i: int|
                0 <= i < count && file_findings(
                    records,
                    (#[trigger] files[i]).path@,
                    files[i].contents@,
                ).contains(item),
    decreases count,
{
    let now = untracked_findings(records, files, count);
    if count > 0 {
        lemma_untracked(records, files, count - 1);
        let before = untracked_findings(records, files, count - 1);
        let last = files[count - 1];
        let more = file_findings(records, last.path@, last.contents@);
        lemma_members_joined(before, more);
        assert(now == before + more);
        assert forall|item: DiagnosticModel| #[trigger] now.contains(item) <==> exists|i: int|
            0 <= i < count && file_findings(
                records,
                (#[trigger] files[i]).path@,
                files[i].contents@,
            ).contains(item) by {
            assert((before + more).contains(item) <==> before.contains(item) || more.contains(
                item,
            ));
            assert(files[count - 1] == last);
            if before.contains(item) {
                let i = choose|i: int|
                    0 <= i < count - 1 && file_findings(
                        records,
                        (#[trigger] files[i]).path@,
                        files[i].contents@,
                    ).contains(item);
                assert(files[i].path@ == files[i].path@);
            }
        }
    }
}

proof fn lemma_untracked_held(
    records: Seq<RecordModel>,
    left: Seq<ProjectFile>,
    right: Seq<ProjectFile>,
    item: DiagnosticModel,
)
    requires
        contents_by_path(left) == contents_by_path(right),
        distinct_paths(left),
        untracked_findings(records, left, left.len() as int).contains(item),
    ensures
        untracked_findings(records, right, right.len() as int).contains(item),
{
    lemma_untracked(records, left, left.len() as int);
    lemma_untracked(records, right, right.len() as int);
    let i = choose|i: int|
        0 <= i < left.len() && file_findings(
            records,
            (#[trigger] left[i]).path@,
            left[i].contents@,
        ).contains(item);
    let path = left[i].path@;
    lemma_only_place(left, i);
    assert(contents_by_path(left).contains_key(path));
    assert(contents_by_path(left)[path] == left[i].contents@);
    lemma_file_place(right, path, 0);
    let j = file_place(right, path, 0);
    assert(contents_by_path(right).contains_key(path));
    assert(contents_by_path(right)[path] == right[j].contents@);
    assert(file_findings(records, right[j].path@, right[j].contents@).contains(item));
}

/// The diagnosis of a project does not depend on the order in which its files are listed.
pub proof fn lemma_listing_of_findings(
    inputs: InputsModel,
    snapshot: SnapshotModel,
    left: Seq<ProjectFile>,
    right: Seq<ProjectFile>,
)
    requires
        contents_by_path(left) == contents_by_path(right),
        distinct_paths(left),
        distinct_paths(right),
    ensures
        snapshot_findings(inputs, snapshot, left) == snapshot_findings(inputs, snapshot, right),
{
    let records = snapshot.state.regions;
    if let Ok(paths) = derived_paths(inputs.catalog, selected_of(snapshot.state)) {
        let earlier = snapshot.provenance + inventory_findings(snapshot, paths)
            + selection_findings(inputs.catalog, snapshot) + owned_findings(
            inputs,
            snapshot,
            snapshot.state.ownership.len() as int,
        ) + managed_list_findings(inputs, snapshot, records.len() as int);
        let one = untracked_findings(records, left, left.len() as int);
        let other = untracked_findings(records, right, right.len() as int);
        let all = detailed_findings(inputs, snapshot, left, paths);
        let others = detailed_findings(inputs, snapshot, right, paths);
        assert(all == earlier + one);
        assert(others == earlier + other);
        lemma_members_joined(earlier, one);
        lemma_members_joined(earlier, other);
        lemma_listing_exists::<Diagnostic>(all);
        let sorted = sorted_listing::<Diagnostic>(all);
        assert forall|item: DiagnosticModel| #[trigger] sorted.contains(item) <==> others.contains(
            item,
        ) by {
            if one.contains(item) {
                lemma_untracked_held(records, left, right, item);
            }
            if other.contains(item) {
                lemma_untracked_held(records, right, left, item);
            }
            assert((earlier + one).contains(item) <==> earlier.contains(item) || one.contains(
                item,
            ));
            assert((earlier + other).contains(item) <==> earlier.contains(item)
                || other.contains(item));
        }
        lemma_sorted_listing::<Diagnostic>(sorted, others);
    }
}

/// Planning a request does not depend on the order in which the files of a project are listed.
pub proof fn lemma_listing_of_plan(
    inputs: InputsModel,
    snapshot: SnapshotModel,
    left: Seq<ProjectFile>,
    right: Seq<ProjectFile>,
    target: Result<(StateModel, Map<Seq<char>, Seq<char>>), Seq<char>>,
    action: PlanAction,
    requested: Option<Seq<char>>,
)
    requires
        contents_by_path(left) == contents_by_path(right),
        distinct_paths(left),
        distinct_paths(right),
    ensures
        plan_outcome(inputs, snapshot, left, target, action, requested) == plan_outcome(
            inputs,
            snapshot,
            right,
            target,
            action,
            requested,
        ),
{
    lemma_listing_of_findings(inputs, snapshot, left, right);
    assert forall|
        before: Seq<Seq<char>>,
        added: Seq<Seq<char>>,
        removed: Seq<Seq<char>>,
        state: StateModel,
    | #[trigger]
        change_plan(inputs, snapshot, left, target, before, added, removed, state) == change_plan(
            inputs,
            snapshot,
            right,
            target,
            before,
            added,
            removed,
            state,
        ) by {
        lemma_same_change(
            inputs,
            snapshot,
            left,
            right,
            target,
            before,
            added,
            removed,
            state,
        );
    }
    assert(selection_outcome(inputs, snapshot, left, target, action, requested)
        == selection_outcome(inputs, snapshot, right, target, action, requested));
}

} // verus!
