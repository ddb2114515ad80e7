//! What a diagnosis and an inspection report.

use vstd::prelude::*;
use vstd::string::*;

use crate::application_templates::template_catalog_defect;
use crate::diagnosis::{
    approved_findings, derived_file_findings, detailed_findings, inventory_findings, kit_findings,
    managed_findings, managed_list_findings, matches_baseline, order_findings, owned_file_findings,
    owned_findings, project_derived, selection_findings, snapshot_findings, text_hash,
    tooling_findings, untracked_findings, version_findings, InputsModel,
};
use crate::file_map::ProjectFile;
use crate::lifecycle_laws::lemma_in_sum;
use crate::management::{Diagnostic, DiagnosticModel, SnapshotModel};
use crate::module_catalog::catalog_defect;
use crate::ordered::lemma_listing_exists;
use crate::region::{region_place, regions_of};
use crate::rendering::{derived_paths, region_text};
use crate::state::{selected_of, OwnershipKind, OwnershipModel, RecordModel};

verus! {

/// Whether something is reported of a path.
pub open spec fn reports(
    findings: Seq<DiagnosticModel>,
    code: Seq<char>,
    path: Seq<char>,
) -> bool {
    exists|finding: DiagnosticModel| #[trigger]
        findings.contains(finding) && finding.0 == code && finding.1 == Some(path)
}

/// Whether what is wrong with an owned file is reported: that it is missing, that it is not the
/// approved one, whatever the release, and, in a project of the release, that it is not what the
/// release or the generator has.
pub open spec fn file_is_reported(
    inputs: InputsModel,
    snapshot: SnapshotModel,
    record: OwnershipModel,
    findings: Seq<DiagnosticModel>,
) -> bool {
    let lock = record.kind == OwnershipKind::DependencyLock;
    let hashed = record.kind == OwnershipKind::KitOwned || record.kind == OwnershipKind::Derived;
    let current = snapshot.state.framework == snapshot.release;
    let there = snapshot.files.contains_key(record.path);
    let contents = snapshot.files[record.path];
    &&& lock && snapshot.lockfile is None ==> reports(
        findings,
        "owned-file-missing"@,
        "Cargo.lock"@,
    )
    &&& !lock && !there ==> reports(findings, "owned-file-missing"@, record.path)
    &&& lock != (record.path == "Cargo.lock"@) ==> reports(
        findings,
        "dependency-lock-ownership-invalid"@,
        record.path,
    )
    &&& hashed && there && record.approved is Some && record.approved != Some(text_hash(contents))
        ==> reports(findings, "approved-hash-mismatch"@, record.path)
    &&& record.kind == OwnershipKind::KitOwned && there && current
        && !snapshot.base_files.contains_key(record.path) ==> reports(
        findings,
        "base-descriptor-missing"@,
        record.path,
    )
    &&& record.kind == OwnershipKind::KitOwned && there && current
        && snapshot.base_files.contains_key(record.path) && matches_baseline(
        record.path,
        contents,
        snapshot.base_files[record.path],
        snapshot.state.regions,
    ) != Ok::<bool, Seq<char>>(true) ==> reports(findings, "kit-owned-drift"@, record.path)
    &&& record.kind == OwnershipKind::Derived && there && current && (project_derived(
        inputs,
        snapshot,
        record.path,
        selected_of(snapshot.state),
    ) matches Ok(expected) && expected != contents) ==> reports(
        findings,
        "derived-drift"@,
        record.path,
    )
}

/// Whether what is wrong with a recorded region is reported: that its file or the region is
/// missing, that the markers cannot be read or are not those of the record, and, in a project of
/// the release, that it does not hold what the selection calls for.
pub open spec fn region_is_reported(
    inputs: InputsModel,
    snapshot: SnapshotModel,
    record: RecordModel,
    findings: Seq<DiagnosticModel>,
) -> bool {
    if !snapshot.files.contains_key(record.path) {
        reports(findings, "managed-file-missing"@, record.path)
    } else {
        match regions_of(snapshot.files[record.path]) {
            Err(_) => reports(findings, "managed-region-corrupt"@, record.path),
            Ok(regions) => {
                let place = region_place(regions, record.id, 0);
                &&& place >= regions.len() ==> reports(
                    findings,
                    "managed-region-missing"@,
                    record.path,
                )
                &&& place < regions.len() && (regions[place].version != record.marker_version
                    || regions[place].hash != record.content_hash) ==> reports(
                    findings,
                    "managed-region-state-mismatch"@,
                    record.path,
                )
                &&& place < regions.len() && regions[place].version == record.marker_version
                    && regions[place].hash == record.content_hash && snapshot.state.framework
                    == snapshot.release && (region_text(
                    inputs.catalog,
                    record.id,
                    selected_of(snapshot.state),
                    snapshot.release,
                ) matches Ok(expected) && expected != regions[place].content) ==> reports(
                    findings,
                    "managed-region-drift"@,
                    record.path,
                )
            },
        }
    }
}

/// Whether what is wrong with a selected module is reported: that it is a tool, and, in a project
/// of the release, that the catalog lacks it or has another version.
pub open spec fn module_is_reported(
    inputs: InputsModel,
    snapshot: SnapshotModel,
    module: (Seq<char>, Seq<char>),
    findings: Seq<DiagnosticModel>,
) -> bool {
    let current = snapshot.state.framework == snapshot.release;
    &&& module.0 == "generator"@ || module.0 == "test-support"@ ==> reports(
        findings,
        "tooling-module-forbidden"@,
        ".omnius/service.toml"@,
    )
    &&& current && inputs.catalog.find(module.0) is None ==> reports(
        findings,
        "unknown-module"@,
        ".omnius/service.toml"@,
    )
    &&& current && (inputs.catalog.find(module.0) matches Some(definition) && definition.version@
        != module.1) ==> reports(findings, "module-version-mismatch"@, ".omnius/service.toml"@)
}

proof fn lemma_reported(findings: Seq<DiagnosticModel>, finding: DiagnosticModel, path: Seq<char>)
    requires
        findings.contains(finding),
        finding.1 == Some(path),
    ensures
        reports(findings, finding.0, path),
{
}

proof fn lemma_owned_listed(
    inputs: InputsModel,
    snapshot: SnapshotModel,
    count: int,
    at: int,
    finding: DiagnosticModel,
)
    requires
        0 <= at < count <= snapshot.state.ownership.len(),
        owned_file_findings(inputs, snapshot, snapshot.state.ownership[at]).contains(finding),
    ensures
        owned_findings(inputs, snapshot, count).contains(finding),
    decreases count,
{
    lemma_in_sum(
        owned_findings(inputs, snapshot, count - 1),
        owned_file_findings(inputs, snapshot, snapshot.state.ownership[count - 1]),
        finding,
    );
    if at < count - 1 {
        lemma_owned_listed(inputs, snapshot, count - 1, at, finding);
    }
}

proof fn lemma_managed_listed(
    inputs: InputsModel,
    snapshot: SnapshotModel,
    count: int,
    at: int,
    finding: DiagnosticModel,
)
    requires
        0 <= at < count <= snapshot.state.regions.len(),
        managed_findings(inputs, snapshot, snapshot.state.regions[at]).contains(finding),
    ensures
        managed_list_findings(inputs, snapshot, count).contains(finding),
    decreases count,
{
    lemma_in_sum(
        managed_list_findings(inputs, snapshot, count - 1),
        managed_findings(inputs, snapshot, snapshot.state.regions[count - 1]),
        finding,
    );
    if at < count - 1 {
        lemma_managed_listed(inputs, snapshot, count - 1, at, finding);
    }
}

proof fn lemma_tool_listed(modules: Seq<(Seq<char>, Seq<char>)>, count: int, at: int)
    requires
        0 <= at < count <= modules.len(),
        modules[at].0 == "generator"@ || modules[at].0 == "test-support"@,
    ensures
        reports(
            tooling_findings(modules, count),
            "tooling-module-forbidden"@,
            ".omnius/service.toml"@,
        ),
    decreases count,
{
    let before = tooling_findings(modules, count - 1);
    let all = tooling_findings(modules, count);
    if at < count - 1 {
        lemma_tool_listed(modules, count - 1, at);
        let finding = choose|finding: DiagnosticModel| #[trigger]
            before.contains(finding) && finding.0 == "tooling-module-forbidden"@ && finding.1
                == Some(".omnius/service.toml"@);
        let k = choose|k: int| 0 <= k < before.len() && before[k] == finding;
        assert(all[k] == finding);
        assert(all.contains(finding));
    } else {
        let finding = all[before.len() as int];
        assert(all.contains(finding));
        assert(finding.0 == "tooling-module-forbidden"@);
    }
}

proof fn lemma_version_listed(
    inputs: InputsModel,
    modules: Seq<(Seq<char>, Seq<char>)>,
    count: int,
    at: int,
)
    requires
        0 <= at < count <= modules.len(),
    ensures
        inputs.catalog.find(modules[at].0) is None ==> reports(
            version_findings(inputs.catalog, modules, count),
            "unknown-module"@,
            ".omnius/service.toml"@,
        ),
        (inputs.catalog.find(modules[at].0) matches Some(definition) && definition.version@
            != modules[at].1) ==> reports(
            version_findings(inputs.catalog, modules, count),
            "module-version-mismatch"@,
            ".omnius/service.toml"@,
        ),
    decreases count,
{
    let before = version_findings(inputs.catalog, modules, count - 1);
    let all = version_findings(inputs.catalog, modules, count);
    if at < count - 1 {
        lemma_version_listed(inputs, modules, count - 1, at);
        assert(all.take(before.len() as int) =~= before);
        lemma_longer(before, all, "unknown-module"@, ".omnius/service.toml"@);
        lemma_longer(before, all, "module-version-mismatch"@, ".omnius/service.toml"@);
    } else if inputs.catalog.find(modules[at].0) is None || inputs.catalog.find(
        modules[at].0,
    )->Some_0.version@ != modules[at].1 {
        let finding = all[before.len() as int];
        assert(all.contains(finding));
        lemma_reported(all, finding, ".omnius/service.toml"@);
    }
}

proof fn lemma_longer(
    few: Seq<DiagnosticModel>,
    many: Seq<DiagnosticModel>,
    code: Seq<char>,
    path: Seq<char>,
)
    requires
        few.is_prefix_of(many) || forall|finding: DiagnosticModel| #[trigger]
            few.contains(finding) ==> many.contains(finding),
    ensures
        reports(few, code, path) ==> reports(many, code, path),
{
    if reports(few, code, path) {
        let finding = choose|finding: DiagnosticModel| #[trigger]
            few.contains(finding) && finding.0 == code && finding.1 == Some(path);
        let k = choose|k: int| 0 <= k < few.len() && few[k] == finding;
        if few.is_prefix_of(many) {
            assert(many[k] == finding);
        }
        assert(many.contains(finding));
    }
}

proof fn lemma_parts(
    inputs: InputsModel,
    snapshot: SnapshotModel,
    files: Seq<ProjectFile>,
    paths: Seq<Seq<char>>,
    finding: DiagnosticModel,
)
    ensures
        snapshot.provenance.contains(finding) || selection_findings(
            inputs.catalog,
            snapshot,
        ).contains(finding) || inventory_findings(snapshot, paths).contains(finding)
            || owned_findings(
            inputs,
            snapshot,
            snapshot.state.ownership.len() as int,
        ).contains(finding) || managed_list_findings(
            inputs,
            snapshot,
            snapshot.state.regions.len() as int,
        ).contains(finding) ==> detailed_findings(inputs, snapshot, files, paths).contains(finding),
{
    let a = snapshot.provenance;
    let b = inventory_findings(snapshot, paths);
    let c = selection_findings(inputs.catalog, snapshot);
    let d = owned_findings(inputs, snapshot, snapshot.state.ownership.len() as int);
    let e = managed_list_findings(inputs, snapshot, snapshot.state.regions.len() as int);
    let f = untracked_findings(snapshot.state.regions, files, files.len() as int);
    lemma_in_sum(a, b, finding);
    lemma_in_sum(a + b, c, finding);
    lemma_in_sum(a + b + c, d, finding);
    lemma_in_sum(a + b + c + d, e, finding);
    lemma_in_sum(a + b + c + d + e, f, finding);
}

proof fn lemma_file_reported(
    inputs: InputsModel,
    snapshot: SnapshotModel,
    record: OwnershipModel,
)
    ensures
        file_is_reported(
            inputs,
            snapshot,
            record,
            owned_file_findings(inputs, snapshot, record),
        ),
{
    let found = owned_file_findings(inputs, snapshot, record);
    let lock = record.kind == OwnershipKind::DependencyLock;
    let contents = snapshot.files[record.path];
    let misplaced = lock != (record.path == "Cargo.lock"@);
    let rest: int = if misplaced {
        1
    } else {
        0
    };
    if misplaced {
        assert(found.contains(found[0]));
        lemma_reported(found, found[0], record.path);
    }
    if lock {
        if snapshot.lockfile is None {
            assert(found.contains(found[rest]));
            lemma_reported(found, found[rest], "Cargo.lock"@);
        }
    } else if !snapshot.files.contains_key(record.path) {
        assert(found.contains(found[rest]));
        lemma_reported(found, found[rest], record.path);
    } else {
        let approved = approved_findings(record, contents);
        if record.kind == OwnershipKind::KitOwned || record.kind == OwnershipKind::Derived {
            if approved.len() > 0 {
                assert(found[rest] == approved[0]);
                assert(found.contains(found[rest]));
                lemma_reported(found, found[rest], record.path);
            }
            let next = rest + approved.len() as int;
            if snapshot.state.framework == snapshot.release {
                if record.kind == OwnershipKind::KitOwned {
                    let more = kit_findings(snapshot, record.path, contents);
                    if more.len() > 0 {
                        assert(found[next] == more[0]);
                        assert(found.contains(found[next]));
                        lemma_reported(found, found[next], record.path);
                    }
                } else {
                    let more = derived_file_findings(inputs, snapshot, record.path, contents);
                    if more.len() > 0 {
                        assert(found[next] == more[0]);
                        assert(found.contains(found[next]));
                        lemma_reported(found, found[next], record.path);
                    }
                }
            }
        }
    }
}

proof fn lemma_region_reported(
    inputs: InputsModel,
    snapshot: SnapshotModel,
    record: RecordModel,
)
    ensures
        region_is_reported(
            inputs,
            snapshot,
            record,
            managed_findings(inputs, snapshot, record),
        ),
{
    let found = managed_findings(inputs, snapshot, record);
    if found.len() > 0 {
        assert(found.contains(found[0]));
        lemma_reported(found, found[0], record.path);
    }
}

proof fn lemma_file_still_reported(
    inputs: InputsModel,
    snapshot: SnapshotModel,
    record: OwnershipModel,
    few: Seq<DiagnosticModel>,
    many: Seq<DiagnosticModel>,
)
    requires
        file_is_reported(inputs, snapshot, record, few),
        forall|finding: DiagnosticModel| #[trigger]
            few.contains(finding) ==> many.contains(finding),
    ensures
        file_is_reported(inputs, snapshot, record, many),
{
    lemma_longer(few, many, "owned-file-missing"@, "Cargo.lock"@);
    lemma_longer(few, many, "owned-file-missing"@, record.path);
    lemma_longer(few, many, "dependency-lock-ownership-invalid"@, record.path);
    lemma_longer(few, many, "approved-hash-mismatch"@, record.path);
    lemma_longer(few, many, "base-descriptor-missing"@, record.path);
    lemma_longer(few, many, "kit-owned-drift"@, record.path);
    lemma_longer(few, many, "derived-drift"@, record.path);
}

proof fn lemma_region_still_reported(
    inputs: InputsModel,
    snapshot: SnapshotModel,
    record: RecordModel,
    few: Seq<DiagnosticModel>,
    many: Seq<DiagnosticModel>,
)
    requires
        region_is_reported(inputs, snapshot, record, few),
        forall|finding: DiagnosticModel| #[trigger]
            few.contains(finding) ==> many.contains(finding),
    ensures
        region_is_reported(inputs, snapshot, record, many),
{
    lemma_longer(few, many, "managed-file-missing"@, record.path);
    lemma_longer(few, many, "managed-region-corrupt"@, record.path);
    lemma_longer(few, many, "managed-region-missing"@, record.path);
    lemma_longer(few, many, "managed-region-state-mismatch"@, record.path);
    lemma_longer(few, many, "managed-region-drift"@, record.path);
}

/// The diagnosis of a project whose catalog and state can be read reports what an inspection of its
/// sources found, that it is of another release, and what is wrong with each owned file, each
/// recorded region and each selected module.
pub proof fn lemma_project_findings(
    inputs: InputsModel,
    snapshot: SnapshotModel,
    files: Seq<ProjectFile>,
)
    requires
        catalog_defect(inputs.catalog, inputs.workspace) is None,
        template_catalog_defect(inputs.templates, inputs.catalog.modules@) is None,
        snapshot.state_error is None,
        derived_paths(inputs.catalog, selected_of(snapshot.state)) is Ok,
    ensures
        ({
            let findings = snapshot_findings(inputs, snapshot, files);
            let state = snapshot.state;
            &&& forall|i: int|
                0 <= i < snapshot.provenance.len() ==> findings.contains(
                    #[trigger] snapshot.provenance[i],
                )
            &&& state.framework != snapshot.release ==> reports(
                findings,
                "release-mismatch"@,
                ".omnius/service.toml"@,
            )
            &&& forall|i: int|
                0 <= i < state.ownership.len() ==> file_is_reported(
                    inputs,
                    snapshot,
                    #[trigger] state.ownership[i],
                    findings,
                )
            &&& forall|i: int|
                0 <= i < state.regions.len() ==> region_is_reported(
                    inputs,
                    snapshot,
                    #[trigger] state.regions[i],
                    findings,
                )
            &&& forall|i: int|
                0 <= i < state.modules.len() ==> module_is_reported(
                    inputs,
                    snapshot,
                    #[trigger] state.modules[i],
                    findings,
                )
        }),
{
    let findings = snapshot_findings(inputs, snapshot, files);
    let state = snapshot.state;
    let paths = derived_paths(inputs.catalog, selected_of(state))->Ok_0;
    let all = detailed_findings(inputs, snapshot, files, paths);
    lemma_listing_exists::<Diagnostic>(all);
    let selection = selection_findings(inputs.catalog, snapshot);
    assert forall|finding: DiagnosticModel| #[trigger] selection.contains(
        finding,
    ) implies findings.contains(finding) by {
        lemma_parts(inputs, snapshot, files, paths, finding);
    }
    assert forall|i: int| 0 <= i < snapshot.provenance.len() implies findings.contains(
        #[trigger] snapshot.provenance[i],
    ) by {
        assert(snapshot.provenance.contains(snapshot.provenance[i]));
        lemma_parts(inputs, snapshot, files, paths, snapshot.provenance[i]);
    }
    let tools = tooling_findings(state.modules, state.modules.len() as int);
    if state.framework != snapshot.release {
        let finding = selection[tools.len() as int];
        assert(finding.0 == "release-mismatch"@);
        assert(selection.contains(finding));
        lemma_reported(findings, finding, ".omnius/service.toml"@);
    }
    assert forall|i: int| 0 <= i < state.ownership.len() implies file_is_reported(
        inputs,
        snapshot,
        #[trigger] state.ownership[i],
        findings,
    ) by {
        let record = state.ownership[i];
        let own = owned_file_findings(inputs, snapshot, record);
        lemma_file_reported(inputs, snapshot, record);
        assert forall|finding: DiagnosticModel| #[trigger] own.contains(
            finding,
        ) implies findings.contains(finding) by {
            lemma_owned_listed(inputs, snapshot, state.ownership.len() as int, i, finding);
            lemma_parts(inputs, snapshot, files, paths, finding);
        }
        lemma_file_still_reported(inputs, snapshot, record, own, findings);
    }
    assert forall|i: int| 0 <= i < state.regions.len() implies region_is_reported(
        inputs,
        snapshot,
        #[trigger] state.regions[i],
        findings,
    ) by {
        let record = state.regions[i];
        let own = managed_findings(inputs, snapshot, record);
        lemma_region_reported(inputs, snapshot, record);
        assert forall|finding: DiagnosticModel| #[trigger] own.contains(
            finding,
        ) implies findings.contains(finding) by {
            lemma_managed_listed(inputs, snapshot, state.regions.len() as int, i, finding);
            lemma_parts(inputs, snapshot, files, paths, finding);
        }
        lemma_region_still_reported(inputs, snapshot, record, own, findings);
    }
    assert forall|i: int| 0 <= i < state.modules.len() implies module_is_reported(
        inputs,
        snapshot,
        #[trigger] state.modules[i],
        findings,
    ) by {
        let module = state.modules[i];
        let count = state.modules.len() as int;
        if module.0 == "generator"@ || module.0 == "test-support"@ {
            lemma_tool_listed(state.modules, count, i);
            assert(selection.take(tools.len() as int) =~= tools);
            lemma_longer(tools, selection, "tooling-module-forbidden"@, ".omnius/service.toml"@);
            lemma_longer(
                selection,
                findings,
                "tooling-module-forbidden"@,
                ".omnius/service.toml"@,
            );
        }
        if state.framework == snapshot.release {
            lemma_version_listed(inputs, state.modules, count, i);
            let versions = version_findings(inputs.catalog, state.modules, count);
            assert forall|finding: DiagnosticModel| #[trigger] versions.contains(
                finding,
            ) implies selection.contains(finding) by {
                lemma_in_selection(inputs, snapshot, finding);
            }
            lemma_longer(versions, selection, "unknown-module"@, ".omnius/service.toml"@);
            lemma_longer(selection, findings, "unknown-module"@, ".omnius/service.toml"@);
            lemma_longer(versions, selection, "module-version-mismatch"@, ".omnius/service.toml"@);
            lemma_longer(selection, findings, "module-version-mismatch"@, ".omnius/service.toml"@);
        }
    }
}

proof fn lemma_in_selection(inputs: InputsModel, snapshot: SnapshotModel, finding: DiagnosticModel)
    requires
        snapshot.state.framework == snapshot.release,
        version_findings(
            inputs.catalog,
            snapshot.state.modules,
            snapshot.state.modules.len() as int,
        ).contains(finding),
    ensures
        selection_findings(inputs.catalog, snapshot).contains(finding),
{
    let selection = selection_findings(inputs.catalog, snapshot);
    let count = snapshot.state.modules.len() as int;
    let tools = tooling_findings(snapshot.state.modules, count);
    let versions = version_findings(inputs.catalog, snapshot.state.modules, count);
    let order = order_findings(inputs.catalog, snapshot.state);
    let k = choose|k: int| 0 <= k < versions.len() && versions[k] == finding;
    let from = selection.len() - order.len() - versions.len();
    assert(selection[from + k] == finding);
}

} // verus!
