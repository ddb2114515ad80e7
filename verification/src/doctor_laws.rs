//! When a project is healthy.

use vstd::prelude::*;
use vstd::string::*;

use crate::application_templates::template_catalog_defect;
use crate::diagnosis::{
    becomes_derived, derived_findings, detailed_findings, file_findings, inactive_findings,
    inventory_findings, is_required_region, managed_findings, managed_list_findings,
    matches_baseline, owned_file_findings, owned_findings, project_derived, record_findings,
    selection_findings, snapshot_findings, text_hash, tooling_findings, untracked_findings,
    untracked_regions, version_findings, InputsModel,
};
use crate::file_map::ProjectFile;
use crate::management::{Diagnostic, ManagerFailure, SnapshotModel};
use crate::module_catalog::catalog_defect;
use crate::module_resolution::{composition, ids_in};
use crate::modules::ModuleCatalog;
use crate::ordered::{lemma_listing_exists, sorted_listing};
use crate::region::{region_place, regions_of, RegionModel};
use crate::rendering::{derived_paths, region_text};
use crate::state::{
    module_ids_of, owner_of, record_of, selected_of, OwnershipKind, OwnershipModel, RecordModel,
    StateModel,
};
use crate::text::occurs;

verus! {

// Conditions.
/// Whether the two regions that every project has, and no others, are recorded, in files that are
/// the application's.
pub open spec fn regions_recorded(state: StateModel) -> bool {
    &&& record_of(state.regions, "Cargo.toml"@, "framework-dependency"@) is Some
    &&& record_of(state.regions, "apps/service/src/composition.rs"@, "modules"@) is Some
    &&& owner_of(state.ownership, "Cargo.toml"@) == Some(OwnershipKind::ApplicationOwned)
    &&& owner_of(state.ownership, "apps/service/src/composition.rs"@) == Some(
        OwnershipKind::ApplicationOwned,
    )
    &&& forall|i: int|
        0 <= i < state.regions.len() ==> ((#[trigger] state.regions[i]).path == "Cargo.toml"@
            && state.regions[i].id == "framework-dependency"@) || (state.regions[i].path
            == "apps/service/src/composition.rs"@ && state.regions[i].id == "modules"@)
}

/// Whether exactly the derived files of the selection are recorded as derived.
pub open spec fn derived_recorded(state: StateModel, paths: Seq<Seq<char>>) -> bool {
    &&& forall|i: int|
        0 <= i < paths.len() ==> owner_of(state.ownership, #[trigger] paths[i]) == Some(
            OwnershipKind::Derived,
        )
    &&& forall|i: int|
        0 <= i < state.ownership.len() && (#[trigger] state.ownership[i]).kind
            == OwnershipKind::Derived ==> paths.contains(state.ownership[i].path)
}

/// Whether the selection is recorded in the order of composition, with the versions of the
/// catalog, without tools, and at one version with the release.
pub open spec fn selection_recorded(catalog: ModuleCatalog, snapshot: SnapshotModel) -> bool {
    let state = snapshot.state;
    &&& state.framework == snapshot.release
    &&& catalog.bundle_version@ == snapshot.release.version
    &&& state.profile.version == snapshot.release.version
    &&& forall|i: int|
        0 <= i < state.modules.len() ==> (#[trigger] state.modules[i]).0 != "generator"@
            && state.modules[i].0 != "test-support"@ && (catalog.find(
            state.modules[i].0,
        ) matches Some(module) && module.version@ == state.modules[i].1)
    &&& composition(catalog, selected_of(state)) matches Ok(list) && ids_in(list) == module_ids_of(
        state,
    )
}

/// Whether an owned file is there and as its owner has it: a file of the kit is the approved one,
/// and outside its regions the one of the release; a derived one is the approved one, and what is
/// derived now.
pub open spec fn file_is_right(
    inputs: InputsModel,
    snapshot: SnapshotModel,
    record: OwnershipModel,
) -> bool {
    &&& record.path == "Cargo.lock"@ <==> record.kind == OwnershipKind::DependencyLock
    &&& record.kind == OwnershipKind::DependencyLock ==> snapshot.lockfile is Some
    &&& record.kind != OwnershipKind::DependencyLock ==> snapshot.files.contains_key(record.path)
    &&& record.kind == OwnershipKind::KitOwned ==> {
        &&& record.approved matches Some(hash) ==> hash == text_hash(snapshot.files[record.path])
        &&& snapshot.base_files.contains_key(record.path)
        &&& matches_baseline(
            record.path,
            snapshot.files[record.path],
            snapshot.base_files[record.path],
            snapshot.state.regions,
        ) == Ok::<bool, Seq<char>>(true)
    }
    &&& record.kind == OwnershipKind::Derived ==> {
        &&& record.approved matches Some(hash) ==> hash == text_hash(snapshot.files[record.path])
        &&& project_derived(inputs, snapshot, record.path, selected_of(snapshot.state)) == Ok::<
            Seq<char>,
            ManagerFailure,
        >(snapshot.files[record.path])
    }
}

/// Whether a recorded region is there, with the version and hash of its record, and holds what the
/// selection calls for.
pub open spec fn region_is_right(
    inputs: InputsModel,
    snapshot: SnapshotModel,
    record: RecordModel,
) -> bool {
    &&& snapshot.files.contains_key(record.path)
    &&& regions_of(snapshot.files[record.path]) matches Ok(regions) && {
        let place = region_place(regions, record.id, 0);
        &&& place < regions.len()
        &&& regions[place].version == record.marker_version
        &&& regions[place].hash == record.content_hash
        &&& region_text(
            inputs.catalog,
            record.id,
            selected_of(snapshot.state),
            snapshot.release,
        ) == Ok::<Seq<char>, ManagerFailure>(regions[place].content)
    }
}

/// Whether a file holds no region without a record, and no marker that cannot be read.
pub open spec fn file_is_tracked(records: Seq<RecordModel>, file: ProjectFile) -> bool {
    match regions_of(file.contents@) {
        Ok(regions) => forall|i: int|
            0 <= i < regions.len() ==> record_of(
                records,
                file.path@,
                (#[trigger] regions[i]).id,
            ) is Some,
        Err(_) => !occurs("omnius:managed-"@, file.contents@),
    }
}

// Lists.
proof fn lemma_records(regions: Seq<RecordModel>, count: int)
    requires
        0 <= count <= regions.len(),
    ensures
        record_findings(regions, count).len() == 0 <==> forall|i: int|
            0 <= i < count ==> is_required_region(
                (#[trigger] regions[i]).path,
                regions[i].id,
            ),
    decreases count,
{
    if count > 0 {
        lemma_records(regions, count - 1);
    }
}

proof fn lemma_derived(snapshot: SnapshotModel, paths: Seq<Seq<char>>, count: int)
    requires
        0 <= count <= paths.len(),
    ensures
        derived_findings(snapshot, paths, count).len() == 0 <==> forall|i: int|
            0 <= i < count ==> owner_of(snapshot.state.ownership, #[trigger] paths[i]) == Some(
                OwnershipKind::Derived,
            ) || becomes_derived(snapshot, paths[i]),
    decreases count,
{
    if count > 0 {
        lemma_derived(snapshot, paths, count - 1);
    }
}

proof fn lemma_inactive(ownership: Seq<OwnershipModel>, paths: Seq<Seq<char>>, count: int)
    requires
        0 <= count <= ownership.len(),
    ensures
        inactive_findings(ownership, paths, count).len() == 0 <==> forall|i: int|
            0 <= i < count && (#[trigger] ownership[i]).kind == OwnershipKind::Derived
                ==> paths.contains(ownership[i].path),
    decreases count,
{
    if count > 0 {
        lemma_inactive(ownership, paths, count - 1);
    }
}

proof fn lemma_tools(modules: Seq<(Seq<char>, Seq<char>)>, count: int)
    requires
        0 <= count <= modules.len(),
    ensures
        tooling_findings(modules, count).len() == 0 <==> forall|i: int|
            0 <= i < count ==> (#[trigger] modules[i]).0 != "generator"@ && modules[i].0
                != "test-support"@,
    decreases count,
{
    if count > 0 {
        lemma_tools(modules, count - 1);
    }
}

proof fn lemma_versions(
    catalog: ModuleCatalog,
    modules: Seq<(Seq<char>, Seq<char>)>,
    count: int,
)
    requires
        0 <= count <= modules.len(),
    ensures
        version_findings(catalog, modules, count).len() == 0 <==> forall|i: int|
            0 <= i < count ==> (catalog.find((#[trigger] modules[i]).0) matches Some(module)
                && module.version@ == modules[i].1),
    decreases count,
{
    if count > 0 {
        lemma_versions(catalog, modules, count - 1);
    }
}

proof fn lemma_owned(inputs: InputsModel, snapshot: SnapshotModel, count: int)
    requires
        snapshot.state.framework == snapshot.release,
        0 <= count <= snapshot.state.ownership.len(),
    ensures
        owned_findings(inputs, snapshot, count).len() == 0 <==> owner_of(
            snapshot.state.ownership,
            "Cargo.lock"@,
        ) == Some(OwnershipKind::DependencyLock) && forall|i: int|
            0 <= i < count ==> file_is_right(
                inputs,
                snapshot,
                #[trigger] snapshot.state.ownership[i],
            ),
    decreases count,
{
    if count > 0 {
        lemma_owned(inputs, snapshot, count - 1);
        let record = snapshot.state.ownership[count - 1];
        assert(owned_file_findings(inputs, snapshot, record).len() == 0 <==> file_is_right(
            inputs,
            snapshot,
            record,
        ));
    }
}

proof fn lemma_managed(inputs: InputsModel, snapshot: SnapshotModel, count: int)
    requires
        snapshot.state.framework == snapshot.release,
        0 <= count <= snapshot.state.regions.len(),
    ensures
        managed_list_findings(inputs, snapshot, count).len() == 0 <==> forall|i: int|
            0 <= i < count ==> region_is_right(
                inputs,
                snapshot,
                #[trigger] snapshot.state.regions[i],
            ),
    decreases count,
{
    if count > 0 {
        lemma_managed(inputs, snapshot, count - 1);
        let record = snapshot.state.regions[count - 1];
        assert(managed_findings(inputs, snapshot, record).len() == 0 <==> region_is_right(
            inputs,
            snapshot,
            record,
        ));
    }
}

proof fn lemma_untracked_regions(
    records: Seq<RecordModel>,
    path: Seq<char>,
    regions: Seq<RegionModel>,
    count: int,
)
    requires
        0 <= count <= regions.len(),
    ensures
        untracked_regions(records, path, regions, count).len() == 0 <==> forall|i: int|
            0 <= i < count ==> record_of(records, path, (#[trigger] regions[i]).id) is Some,
    decreases count,
{
    if count > 0 {
        lemma_untracked_regions(records, path, regions, count - 1);
    }
}

proof fn lemma_untracked(records: Seq<RecordModel>, files: Seq<ProjectFile>, count: int)
    requires
        0 <= count <= files.len(),
    ensures
        untracked_findings(records, files, count).len() == 0 <==> forall|i: int|
            0 <= i < count ==> file_is_tracked(records, #[trigger] files[i]),
    decreases count,
{
    if count > 0 {
        lemma_untracked(records, files, count - 1);
        let file = files[count - 1];
        if let Ok(regions) = regions_of(file.contents@) {
            lemma_untracked_regions(records, file.path@, regions, regions.len() as int);
        }
        assert(file_findings(records, file.path@, file.contents@).len() == 0 <==> file_is_tracked(
            records,
            file,
        ));
    }
}

// The law.
/// A project is found healthy exactly where its catalogs and its state are valid, its provenance is
/// clean, it is at the release in use with a selection that is recorded as the catalog has it,
/// exactly the right regions and derived files are recorded, every owned file and every recorded
/// region is as it should be, and no file holds a region without a record.
pub proof fn lemma_healthy_exactly(
    inputs: InputsModel,
    snapshot: SnapshotModel,
    files: Seq<ProjectFile>,
)
    ensures
        snapshot_findings(inputs, snapshot, files).len() == 0 <==> {
            let state = snapshot.state;
            &&& catalog_defect(inputs.catalog, inputs.workspace) is None
            &&& template_catalog_defect(inputs.templates, inputs.catalog.modules@) is None
            &&& snapshot.state_error is None
            &&& snapshot.provenance.len() == 0
            &&& selection_recorded(inputs.catalog, snapshot)
            &&& regions_recorded(state)
            &&& derived_paths(inputs.catalog, selected_of(state)) matches Ok(paths)
                && derived_recorded(state, paths)
            &&& owner_of(state.ownership, "Cargo.lock"@) == Some(OwnershipKind::DependencyLock)
            &&& forall|i: int|
                0 <= i < state.ownership.len() ==> file_is_right(
                    inputs,
                    snapshot,
                    #[trigger] state.ownership[i],
                )
            &&& forall|i: int|
                0 <= i < state.regions.len() ==> region_is_right(
                    inputs,
                    snapshot,
                    #[trigger] state.regions[i],
                )
            &&& forall|i: int|
                0 <= i < files.len() ==> file_is_tracked(state.regions, #[trigger] files[i])
        },
{
    let state = snapshot.state;
    if let Ok(paths) = derived_paths(inputs.catalog, selected_of(state)) {
        let all = detailed_findings(inputs, snapshot, files, paths);
        lemma_listing_exists::<Diagnostic>(all);
        let sorted = sorted_listing::<Diagnostic>(all);
        if all.len() > 0 {
            assert(all.contains(all[0]));
            assert(sorted.contains(all[0]));
        }
        if sorted.len() > 0 {
            assert(sorted.contains(sorted[0]));
            assert(all.contains(sorted[0]));
        }
        lemma_records(state.regions, state.regions.len() as int);
        lemma_derived(snapshot, paths, paths.len() as int);
        lemma_inactive(state.ownership, paths, state.ownership.len() as int);
        lemma_tools(state.modules, state.modules.len() as int);
        lemma_versions(inputs.catalog, state.modules, state.modules.len() as int);
        lemma_untracked(state.regions, files, files.len() as int);
        if state.framework == snapshot.release {
            lemma_owned(inputs, snapshot, state.ownership.len() as int);
            lemma_managed(inputs, snapshot, state.regions.len() as int);
            assert forall|path: Seq<char>| !#[trigger] becomes_derived(snapshot, path) by {}
            assert(inventory_findings(snapshot, paths).len() == 0 <==> regions_recorded(state)
                && derived_recorded(state, paths));
            assert(selection_findings(inputs.catalog, snapshot).len() == 0 <==> selection_recorded(
                inputs.catalog,
                snapshot,
            ));
        }
    }
}

} // verus!
