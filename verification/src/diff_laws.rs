//! When reconciliation is held up by what is wrong with a project.

use vstd::prelude::*;
use vstd::string::*;

use crate::diagnosis::{
    approved_findings, derived_file_findings, derived_findings, detailed_findings, file_findings,
    inactive_findings, inventory_findings, kit_findings, managed_findings, managed_list_findings,
    order_findings, owned_file_findings, owned_findings, record_findings,
    required_region_findings, selection_findings, snapshot_findings, tooling_findings,
    untracked_findings, untracked_regions, version_findings, InputsModel,
};
use crate::file_map::ProjectFile;
use crate::management::{Diagnostic, DiagnosticModel, ManagerFailure, PlanAction, SnapshotModel};
use crate::modules::ModuleCatalog;
use crate::ordered::{lemma_listing_exists, sorted_listing};
use crate::plan_settled::lemma_healthy_project_is_settled;
use crate::planning::{
    beside_release, crosses_release, plan_outcome, PlanOutcome,
};
use crate::region::{regions_of, RegionModel};
use crate::rendering::derived_paths;
use crate::state::{selected_of, OwnershipModel, RecordModel, StateModel};

verus! {

/// Whether none of the findings is about the release.
pub open spec fn spares_release(findings: Seq<DiagnosticModel>) -> bool {
    forall|i: int| 0 <= i < findings.len() ==> (#[trigger] findings[i]).0 != "release-mismatch"@
}

/// Whether one of the findings is about something beside the release.
pub open spec fn blames_other(findings: Seq<DiagnosticModel>) -> bool {
    exists|i: int| 0 <= i < findings.len() && (#[trigger] findings[i]).0 != "release-mismatch"@
}

proof fn lemma_inventory_codes()
    ensures
        "managed-region-state-missing"@ != "release-mismatch"@,
        "managed-path-ownership-invalid"@ != "release-mismatch"@,
        "managed-region-state-unsupported"@ != "release-mismatch"@,
        "derived-ownership-invalid"@ != "release-mismatch"@,
        "derived-ownership-unexpected"@ != "release-mismatch"@,
        "catalog-invalid"@ != "release-mismatch"@,
        "state-invalid"@ != "release-mismatch"@,
{
    reveal_strlit("release-mismatch");
    assert("release-mismatch"@.len() == 16);
    reveal_strlit("managed-region-state-missing");
    assert("managed-region-state-missing"@.len() == 28);
    reveal_strlit("managed-path-ownership-invalid");
    assert("managed-path-ownership-invalid"@.len() == 30);
    reveal_strlit("managed-region-state-unsupported");
    assert("managed-region-state-unsupported"@.len() == 32);
    reveal_strlit("derived-ownership-invalid");
    assert("derived-ownership-invalid"@.len() == 25);
    reveal_strlit("derived-ownership-unexpected");
    assert("derived-ownership-unexpected"@.len() == 28);
    reveal_strlit("catalog-invalid");
    assert("catalog-invalid"@.len() == 15);
    reveal_strlit("state-invalid");
    assert("state-invalid"@.len() == 13);
}

proof fn lemma_selection_codes()
    ensures
        "tooling-module-forbidden"@ != "release-mismatch"@,
        "module-version-mismatch"@ != "release-mismatch"@,
        "unknown-module"@ != "release-mismatch"@,
        "selection-invalid"@ != "release-mismatch"@,
        "module-order-mismatch"@ != "release-mismatch"@,
        "release-version-mismatch"@ != "release-mismatch"@,
{
    reveal_strlit("release-mismatch");
    assert("release-mismatch"@.len() == 16);
    reveal_strlit("tooling-module-forbidden");
    assert("tooling-module-forbidden"@.len() == 24);
    reveal_strlit("module-version-mismatch");
    assert("module-version-mismatch"@.len() == 23);
    reveal_strlit("unknown-module");
    assert("unknown-module"@.len() == 14);
    reveal_strlit("selection-invalid");
    assert("selection-invalid"@.len() == 17);
    reveal_strlit("module-order-mismatch");
    assert("module-order-mismatch"@.len() == 21);
    reveal_strlit("release-version-mismatch");
    assert("release-version-mismatch"@.len() == 24);
}

proof fn lemma_owned_codes()
    ensures
        "approved-hash-mismatch"@ != "release-mismatch"@,
        "base-descriptor-missing"@ != "release-mismatch"@,
        "kit-owned-drift"@ != "release-mismatch"@,
        "derived-drift"@ != "release-mismatch"@,
        "derived-unsupported"@ != "release-mismatch"@,
        "dependency-lock-ownership-invalid"@ != "release-mismatch"@,
        "owned-file-missing"@ != "release-mismatch"@,
{
    reveal_strlit("release-mismatch");
    assert("release-mismatch"@.len() == 16);
    reveal_strlit("approved-hash-mismatch");
    assert("approved-hash-mismatch"@.len() == 22);
    reveal_strlit("base-descriptor-missing");
    assert("base-descriptor-missing"@.len() == 23);
    reveal_strlit("kit-owned-drift");
    assert("kit-owned-drift"@.len() == 15);
    reveal_strlit("derived-drift");
    assert("derived-drift"@.len() == 13);
    reveal_strlit("derived-unsupported");
    assert("derived-unsupported"@.len() == 19);
    reveal_strlit("dependency-lock-ownership-invalid");
    assert("dependency-lock-ownership-invalid"@.len() == 33);
    reveal_strlit("owned-file-missing");
    assert("owned-file-missing"@.len() == 18);
}

proof fn lemma_managed_codes()
    ensures
        "managed-region-drift"@ != "release-mismatch"@,
        "managed-region-render-failed"@ != "release-mismatch"@,
        "managed-file-missing"@ != "release-mismatch"@,
        "managed-region-corrupt"@ != "release-mismatch"@,
        "managed-region-missing"@ != "release-mismatch"@,
        "managed-region-state-mismatch"@ != "release-mismatch"@,
        "managed-region-untracked"@ != "release-mismatch"@,
{
    reveal_strlit("release-mismatch");
    assert("release-mismatch"@.len() == 16);
    reveal_strlit("managed-region-drift");
    assert("managed-region-drift"@.len() == 20);
    reveal_strlit("managed-region-render-failed");
    assert("managed-region-render-failed"@.len() == 28);
    reveal_strlit("managed-file-missing");
    assert("managed-file-missing"@.len() == 20);
    reveal_strlit("managed-region-corrupt");
    assert("managed-region-corrupt"@.len() == 22);
    reveal_strlit("managed-region-missing");
    assert("managed-region-missing"@.len() == 22);
    reveal_strlit("managed-region-state-mismatch");
    assert("managed-region-state-mismatch"@.len() == 29);
    reveal_strlit("managed-region-untracked");
    assert("managed-region-untracked"@.len() == 24);
}

// Findings about something beside the release.
proof fn lemma_records_spare(regions: Seq<RecordModel>, count: int)
    ensures
        spares_release(record_findings(regions, count)),
    decreases count,
{
    lemma_inventory_codes();
    if count > 0 {
        lemma_records_spare(regions, count - 1);
    }
}

proof fn lemma_derived_spare(snapshot: SnapshotModel, paths: Seq<Seq<char>>, count: int)
    ensures
        spares_release(derived_findings(snapshot, paths, count)),
    decreases count,
{
    lemma_inventory_codes();
    if count > 0 {
        lemma_derived_spare(snapshot, paths, count - 1);
    }
}

proof fn lemma_inactive_spare(
    ownership: Seq<OwnershipModel>,
    paths: Seq<Seq<char>>,
    count: int,
)
    ensures
        spares_release(inactive_findings(ownership, paths, count)),
    decreases count,
{
    lemma_inventory_codes();
    if count > 0 {
        lemma_inactive_spare(ownership, paths, count - 1);
    }
}

proof fn lemma_inventory_spares(snapshot: SnapshotModel, paths: Seq<Seq<char>>)
    ensures
        spares_release(inventory_findings(snapshot, paths)),
{
    let state = snapshot.state;
    lemma_inventory_codes();
    lemma_records_spare(state.regions, state.regions.len() as int);
    lemma_derived_spare(snapshot, paths, paths.len() as int);
    lemma_inactive_spare(state.ownership, paths, state.ownership.len() as int);
    assert(spares_release(
        required_region_findings(state, "Cargo.toml"@, "framework-dependency"@),
    ));
    assert(spares_release(
        required_region_findings(state, "apps/service/src/composition.rs"@, "modules"@),
    ));
}

proof fn lemma_tooling_spares(modules: Seq<(Seq<char>, Seq<char>)>, count: int)
    ensures
        spares_release(tooling_findings(modules, count)),
    decreases count,
{
    lemma_selection_codes();
    if count > 0 {
        lemma_tooling_spares(modules, count - 1);
    }
}

proof fn lemma_versions_spare(
    catalog: ModuleCatalog,
    modules: Seq<(Seq<char>, Seq<char>)>,
    count: int,
)
    ensures
        spares_release(version_findings(catalog, modules, count)),
    decreases count,
{
    lemma_selection_codes();
    if count > 0 {
        lemma_versions_spare(catalog, modules, count - 1);
    }
}

proof fn lemma_selection_spares(catalog: ModuleCatalog, snapshot: SnapshotModel)
    requires
        snapshot.state.framework == snapshot.release,
    ensures
        spares_release(selection_findings(catalog, snapshot)),
{
    let state = snapshot.state;
    lemma_selection_codes();
    lemma_tooling_spares(state.modules, state.modules.len() as int);
    lemma_versions_spare(catalog, state.modules, state.modules.len() as int);
    assert(spares_release(order_findings(catalog, state)));
}

proof fn lemma_owned_spare(inputs: InputsModel, snapshot: SnapshotModel, count: int)
    ensures
        spares_release(owned_findings(inputs, snapshot, count)),
    decreases count,
{
    lemma_owned_codes();
    if count > 0 {
        lemma_owned_spare(inputs, snapshot, count - 1);
        let record = snapshot.state.ownership[count - 1];
        let contents = snapshot.files[record.path];
        assert(spares_release(approved_findings(record, contents)));
        assert(spares_release(kit_findings(snapshot, record.path, contents)));
        assert(spares_release(derived_file_findings(inputs, snapshot, record.path, contents)));
        assert(spares_release(owned_file_findings(inputs, snapshot, record)));
    }
}

proof fn lemma_managed_spare(inputs: InputsModel, snapshot: SnapshotModel, count: int)
    ensures
        spares_release(managed_list_findings(inputs, snapshot, count)),
    decreases count,
{
    lemma_managed_codes();
    if count > 0 {
        lemma_managed_spare(inputs, snapshot, count - 1);
        assert(spares_release(
            managed_findings(inputs, snapshot, snapshot.state.regions[count - 1]),
        ));
    }
}

proof fn lemma_regions_spare(
    records: Seq<RecordModel>,
    path: Seq<char>,
    regions: Seq<RegionModel>,
    count: int,
)
    ensures
        spares_release(untracked_regions(records, path, regions, count)),
    decreases count,
{
    lemma_managed_codes();
    if count > 0 {
        lemma_regions_spare(records, path, regions, count - 1);
    }
}

proof fn lemma_untracked_spare(records: Seq<RecordModel>, files: Seq<ProjectFile>, count: int)
    ensures
        spares_release(untracked_findings(records, files, count)),
    decreases count,
{
    lemma_managed_codes();
    if count > 0 {
        lemma_untracked_spare(records, files, count - 1);
        let file = files[count - 1];
        if let Ok(regions) = regions_of(file.contents@) {
            lemma_regions_spare(records, file.path@, regions, regions.len() as int);
        }
        assert(spares_release(file_findings(records, file.path@, file.contents@)));
    }
}

/// The diagnosis of a project at the release in use finds nothing about the release, where the
/// inspection of its provenance found nothing about it.
pub proof fn lemma_release_is_spared(
    inputs: InputsModel,
    snapshot: SnapshotModel,
    files: Seq<ProjectFile>,
)
    requires
        snapshot.state.framework == snapshot.release,
        spares_release(snapshot.provenance),
    ensures
        spares_release(snapshot_findings(inputs, snapshot, files)),
{
    let findings = snapshot_findings(inputs, snapshot, files);
    lemma_inventory_codes();
    if let Ok(paths) = derived_paths(inputs.catalog, selected_of(snapshot.state)) {
        let state = snapshot.state;
        lemma_inventory_spares(snapshot, paths);
        lemma_selection_spares(inputs.catalog, snapshot);
        lemma_owned_spare(inputs, snapshot, state.ownership.len() as int);
        lemma_managed_spare(inputs, snapshot, state.regions.len() as int);
        lemma_untracked_spare(state.regions, files, files.len() as int);
        let all = detailed_findings(inputs, snapshot, files, paths);
        assert(spares_release(all));
        lemma_listing_exists::<Diagnostic>(all);
        let sorted = sorted_listing::<Diagnostic>(all);
        assert forall|i: int| 0 <= i < sorted.len() implies (#[trigger] sorted[i]).0
            != "release-mismatch"@ by {
            assert(sorted.contains(sorted[i]));
            assert(all.contains(sorted[i]));
        }
    }
}

proof fn lemma_beside_release(findings: Seq<DiagnosticModel>, count: int)
    requires
        0 <= count <= findings.len(),
    ensures
        beside_release(findings, count).len() > 0 <==> exists|i: int|
            0 <= i < count && (#[trigger] findings[i]).0 != "release-mismatch"@,
        spares_release(findings.take(count)) ==> beside_release(findings, count) == findings.take(
            count,
        ),
    decreases count,
{
    if count > 0 {
        lemma_beside_release(findings, count - 1);
        if spares_release(findings.take(count)) {
            let fewer = findings.take(count - 1);
            assert forall|i: int| 0 <= i < fewer.len() implies (#[trigger] fewer[i]).0
                != "release-mismatch"@ by {
                assert(fewer[i] == findings.take(count)[i]);
            }
            assert(findings.take(count)[count - 1] == findings[count - 1]);
            assert(fewer.push(findings[count - 1]) =~= findings.take(count));
        }
    } else {
        assert(findings.take(0) =~= Seq::<DiagnosticModel>::empty());
    }
}

// The law.
/// Reconciliation fails for findings exactly where a diagnosis reports something beside a release
/// mismatch, and then names all of that. Where there is nothing beside such a mismatch, a project
/// of another release is left as it is. A reconciliation that succeeds selects nothing, deselects
/// nothing, and has no step beside the one of the state.
pub proof fn lemma_diff_preflight(
    inputs: InputsModel,
    snapshot: SnapshotModel,
    files: Seq<ProjectFile>,
    target: Result<(StateModel, Map<Seq<char>, Seq<char>>), Seq<char>>,
)
    requires
        spares_release(snapshot.provenance),
    ensures
        ({
            let findings = snapshot_findings(inputs, snapshot, files);
            let owed = plan_outcome(inputs, snapshot, files, target, PlanAction::Diff, None);
            &&& owed is Err && owed->Err_0 is Preflight <==> blames_other(
                sorted_listing::<Diagnostic>(findings),
            )
            &&& owed matches Err(ManagerFailure::Preflight(list)) ==> list == beside_release(
                findings,
                findings.len() as int,
            )
            &&& !blames_other(sorted_listing::<Diagnostic>(findings)) && snapshot.state.framework
                != snapshot.release ==> owed == Ok::<PlanOutcome, ManagerFailure>(
                PlanOutcome::Unchanged,
            )
            &&& owed matches Ok(PlanOutcome::Change { added, removed, steps, .. }) ==> added.len()
                == 0 && removed.len() == 0 && steps.len() == 0
        }),
{
    let findings = snapshot_findings(inputs, snapshot, files);
    let total = findings.len() as int;
    let sorted = sorted_listing::<Diagnostic>(findings);
    lemma_listing_exists::<Diagnostic>(findings);
    lemma_beside_release(findings, total);
    assert(findings.take(total) =~= findings);
    if blames_other(sorted) {
        let i = choose|i: int|
            0 <= i < sorted.len() && (#[trigger] sorted[i]).0 != "release-mismatch"@;
        assert(sorted.contains(sorted[i]));
        assert(findings.contains(sorted[i]));
        let j = choose|j: int| 0 <= j < findings.len() && findings[j] == sorted[i];
        assert(findings[j].0 != "release-mismatch"@);
    }
    if blames_other(findings) {
        let i = choose|i: int|
            0 <= i < findings.len() && (#[trigger] findings[i]).0 != "release-mismatch"@;
        assert(findings.contains(findings[i]));
        assert(sorted.contains(findings[i]));
        let j = choose|j: int| 0 <= j < sorted.len() && sorted[j] == findings[i];
        assert(sorted[j].0 != "release-mismatch"@);
    }
    assert(blames_other(sorted) <==> blames_other(findings));
    if !crosses_release(snapshot, PlanAction::Diff) {
        lemma_release_is_spared(inputs, snapshot, files);
        if total > 0 {
            assert(findings[0].0 != "release-mismatch"@);
        } else {
            lemma_healthy_project_is_settled(inputs, snapshot, files, target, PlanAction::Diff);
        }
    }
}

} // verus!
