//! Diagnosis of a project against its recorded state and the catalogs.

use vstd::prelude::*;
use vstd::string::*;
use vstd::utf8::*;

use crate::application_templates::{
    template_catalog_defect, validate_application_template_catalog, ApplicationTemplateDescriptor,
};
use crate::catalog::{ProfileCatalog, ProfileDefinition};
use crate::derived::{managed_text, render_managed_derived};
use crate::digest::{hex, sha256, sha256_hex};
use crate::file_map::ProjectFile;
use crate::management::{
    clone_diagnostics, Diagnostic, DiagnosticModel, DoctorReport, ManagerError, ManagerFailure,
    ProjectSnapshot, SnapshotModel, PLAN_SCHEMA_VERSION,
};
use crate::module_catalog::catalog_defect;
use crate::module_resolution::{composition, ids_in, modules_of};
use crate::modules::ModuleCatalog;
use crate::ordered::{
    codes, codes_of, lemma_listing_exists, models, set_holds, sort_unique, sorted_listing, Keyed,
    TextSet,
};
use crate::region::{
    parse_managed_regions, reconcile_managed_region, reconciled, region_models, region_place,
    regions_of, ManagedRegion, RegionError, RegionModel,
};
use crate::rendering::{
    derived_paths, region_text, render_region, selected_derived_paths,
    LEGACY_APPLICATION_REACT_INDEX, REACT_INDEX_PATH,
};
use crate::selection::selection_defect;
use crate::sorting::{arranged, lemma_arranged, sort_ranked, Ranked};
use crate::state::{
    owner_of, record_models, record_of, selected_ids, selected_of, ManagedRegionRecord,
    OwnershipKind, OwnershipModel, OwnershipRecord, ProjectState, RecordModel, StateModel,
    PROJECT_STATE_PATH,
};
use crate::text::{contains_text, join3, join5, join6, join7, occurs, same_text};

verus! {

/// What planning and diagnosis are based on beside the project itself.
pub struct PlanningInputs<'a> {
    /// Module catalog.
    pub catalog: &'a ModuleCatalog,
    /// Profile catalog.
    pub profiles: &'a ProfileCatalog,
    /// Dependencies that the framework's workspace declares.
    pub workspace_dependencies: &'a TextSet,
    /// Embedded application templates.
    pub templates: &'a Vec<ApplicationTemplateDescriptor>,
    /// Template of the container image.
    pub image_template: &'a str,
}

/// The value of planning inputs.
pub struct InputsModel {
    /// Module catalog.
    pub catalog: ModuleCatalog,
    /// Profiles.
    pub profiles: Seq<ProfileDefinition>,
    /// Dependencies that the framework's workspace declares.
    pub workspace: Seq<Seq<char>>,
    /// Embedded application templates.
    pub templates: Seq<ApplicationTemplateDescriptor>,
    /// Template of the container image.
    pub image: Seq<char>,
}

impl<'a> PlanningInputs<'a> {
    /// The value of these inputs.
    pub open spec fn view(&self) -> InputsModel {
        InputsModel {
            catalog: *self.catalog,
            profiles: self.profiles.declarations(),
            workspace: self.workspace_dependencies@,
            templates: self.templates@,
            image: self.image_template@,
        }
    }
}

// Findings.
/// A finding, where a condition holds.
pub open spec fn finding(
    condition: bool,
    code: Seq<char>,
    path: Option<Seq<char>>,
    message: Seq<char>,
) -> Seq<DiagnosticModel> {
    if condition {
        seq![(code, path, message)]
    } else {
        Seq::empty()
    }
}

fn none_found() -> (list: Vec<Diagnostic>)
    ensures
        models(list@) == Seq::<DiagnosticModel>::empty(),
{
    let list: Vec<Diagnostic> = Vec::new();
    assert(models(list@) =~= Seq::<DiagnosticModel>::empty());
    list
}

fn one_found(code: &str, path: Option<&str>, message: String) -> (list: Vec<Diagnostic>)
    ensures
        models(list@) == seq![
            (
                code@,
                (match path {
                    Some(text) => Some(text@),
                    None => None,
                }),
                message@,
            ),
        ],
{
    let mut list: Vec<Diagnostic> = Vec::new();
    let place = match path {
        Some(text) => Some(text.to_owned()),
        None => None,
    };
    list.push(Diagnostic { code: code.to_owned(), path: place, message });
    assert(models(list@) =~= seq![
        (
            code@,
            (match path {
                Some(text) => Some(text@),
                None => None,
            }),
            message@,
        ),
    ]);
    list
}

fn found_when(condition: bool, code: &str, path: &str, message: String) -> (list: Vec<Diagnostic>)
    ensures
        models(list@) == finding(condition, code@, Some(path@), message@),
{
    if condition {
        one_found(code, Some(path), message)
    } else {
        none_found()
    }
}

fn append(list: &mut Vec<Diagnostic>, more: Vec<Diagnostic>)
    ensures
        models(final(list)@) == models(old(list)@) + models(more@),
{
    let ghost before = models(list@);
    let ghost added = models(more@);
    let mut rest = more;
    list.append(&mut rest);
    assert(models(list@) =~= before + added);
}

/// Sorts findings and drops repetitions.
pub fn sort_diagnostics(list: Vec<Diagnostic>) -> (sorted: Vec<Diagnostic>)
    ensures
        models(sorted@) == sorted_listing::<Diagnostic>(models(list@)),
{
    let listing = sort_unique(list);
    let items = listing.items();
    clone_diagnostics(items)
}

// Inventory of regions and derived files.
/// Whether the application's index of web adapters can become a derived file.
pub open spec fn is_migratable(snapshot: SnapshotModel, path: Seq<char>, current: Seq<char>) -> bool {
    &&& path == REACT_INDEX_PATH@
    &&& snapshot.state.framework != snapshot.release
    &&& owner_of(snapshot.state.ownership, path) == Some(OwnershipKind::ApplicationOwned)
    &&& current == LEGACY_APPLICATION_REACT_INDEX@
}

/// Returns whether the application's index of web adapters can become a derived file.
pub fn is_migratable_legacy_react_index(
    snapshot: &ProjectSnapshot,
    path: &str,
    current: &str,
) -> (result: bool)
    ensures
        result == is_migratable(snapshot@, path@, current@),
{
    same_text(path, REACT_INDEX_PATH) && !snapshot.state.framework.same(&snapshot.release_identity)
        && snapshot.state.ownership_of(path) == Some(OwnershipKind::ApplicationOwned) && same_text(
        current,
        LEGACY_APPLICATION_REACT_INDEX,
    )
}

/// What is wrong with a region that every project has.
pub open spec fn required_region_findings(
    state: StateModel,
    path: Seq<char>,
    id: Seq<char>,
) -> Seq<DiagnosticModel> {
    finding(
        record_of(state.regions, path, id) is None,
        "managed-region-state-missing"@,
        Some(PROJECT_STATE_PATH@),
        "schema 2 state must record managed region `"@ + id + "` in `"@ + path + "`"@,
    ) + finding(
        owner_of(state.ownership, path) != Some(OwnershipKind::ApplicationOwned),
        "managed-path-ownership-invalid"@,
        Some(path),
        "schema 2 managed-region target `"@ + path
            + "` must be application-owned outside its region"@,
    )
}

/// Whether every project has a region.
pub open spec fn is_required_region(path: Seq<char>, id: Seq<char>) -> bool {
    (path == "Cargo.toml"@ && id == "framework-dependency"@) || (path
        == "apps/service/src/composition.rs"@ && id == "modules"@)
}

/// What is wrong with the first `count` records of regions.
pub open spec fn record_findings(regions: Seq<RecordModel>, count: int) -> Seq<DiagnosticModel>
    decreases count,
{
    if count <= 0 {
        Seq::empty()
    } else {
        let record = regions[count - 1];
        record_findings(regions, count - 1) + finding(
            !is_required_region(record.path, record.id),
            "managed-region-state-unsupported"@,
            Some(PROJECT_STATE_PATH@),
            "schema 2 state contains unsupported managed region `"@ + record.id + "` in `"@
                + record.path + "`"@,
        )
    }
}

/// Whether the file at a path can become derived.
pub open spec fn becomes_derived(snapshot: SnapshotModel, path: Seq<char>) -> bool {
    snapshot.files.contains_key(path) && is_migratable(snapshot, path, snapshot.files[path])
}

/// What is wrong with the ownership of the first `count` derived paths.
pub open spec fn derived_findings(
    snapshot: SnapshotModel,
    paths: Seq<Seq<char>>,
    count: int,
) -> Seq<DiagnosticModel>
    decreases count,
{
    if count <= 0 {
        Seq::empty()
    } else {
        let path = paths[count - 1];
        derived_findings(snapshot, paths, count - 1) + finding(
            owner_of(snapshot.state.ownership, path) != Some(OwnershipKind::Derived)
                && !becomes_derived(snapshot, path),
            "derived-ownership-invalid"@,
            Some(path),
            "schema 2 derived file `"@ + path + "` must be recorded as derived"@,
        )
    }
}

/// Which of the first `count` records own a derived file that is not active.
pub open spec fn inactive_findings(
    ownership: Seq<OwnershipModel>,
    paths: Seq<Seq<char>>,
    count: int,
) -> Seq<DiagnosticModel>
    decreases count,
{
    if count <= 0 {
        Seq::empty()
    } else {
        let record = ownership[count - 1];
        inactive_findings(ownership, paths, count - 1) + finding(
            record.kind == OwnershipKind::Derived && !paths.contains(record.path),
            "derived-ownership-unexpected"@,
            Some(record.path),
            "schema 2 state records inactive derived file `"@ + record.path + "`"@,
        )
    }
}

/// What is wrong with the inventory of regions and derived files.
pub open spec fn inventory_findings(snapshot: SnapshotModel, paths: Seq<Seq<char>>) -> Seq<
    DiagnosticModel,
> {
    let state = snapshot.state;
    required_region_findings(state, "Cargo.toml"@, "framework-dependency"@)
        + required_region_findings(state, "apps/service/src/composition.rs"@, "modules"@)
        + record_findings(state.regions, state.regions.len() as int) + derived_findings(
        snapshot,
        paths,
        paths.len() as int,
    ) + inactive_findings(state.ownership, paths, state.ownership.len() as int)
}

fn diagnose_required_region(state: &ProjectState, path: &str, id: &str) -> (list: Vec<Diagnostic>)
    ensures
        models(list@) == required_region_findings(state@, path@, id@),
{
    let mut list = found_when(
        state.managed_region(path, id).is_none(),
        "managed-region-state-missing",
        PROJECT_STATE_PATH,
        join5("schema 2 state must record managed region `", id, "` in `", path, "`"),
    );
    let owned = state.ownership_of(path) == Some(OwnershipKind::ApplicationOwned);
    append(
        &mut list,
        found_when(
            !owned,
            "managed-path-ownership-invalid",
            path,
            join3(
                "schema 2 managed-region target `",
                path,
                "` must be application-owned outside its region",
            ),
        ),
    );
    list
}

fn required_region(path: &str, id: &str) -> (result: bool)
    ensures
        result == is_required_region(path@, id@),
{
    (same_text(path, "Cargo.toml") && same_text(id, "framework-dependency")) || (same_text(
        path,
        "apps/service/src/composition.rs",
    ) && same_text(id, "modules"))
}

fn diagnose_records(state: &ProjectState) -> (list: Vec<Diagnostic>)
    ensures
        models(list@) == record_findings(state@.regions, state@.regions.len() as int),
{
    let ghost regions = state@.regions;
    let mut list = none_found();
    let mut index: usize = 0;
    while index < state.managed_regions.len()
        invariant
            regions == record_models(state.managed_regions@),
            index <= regions.len(),
            models(list@) == record_findings(regions, index as int),
        decreases regions.len() - index,
    {
        let record = &state.managed_regions[index];
        assert(regions[index as int] == record@);
        append(
            &mut list,
            found_when(
                !required_region(record.path.as_str(), record.id.as_str()),
                "managed-region-state-unsupported",
                PROJECT_STATE_PATH,
                join5(
                    "schema 2 state contains unsupported managed region `",
                    record.id.as_str(),
                    "` in `",
                    record.path.as_str(),
                    "`",
                ),
            ),
        );
        index += 1;
    }
    list
}

fn diagnose_derived_ownership(snapshot: &ProjectSnapshot, paths: &TextSet) -> (list: Vec<
    Diagnostic,
>)
    ensures
        models(list@) == derived_findings(snapshot@, paths@, paths@.len() as int),
{
    let mut list = none_found();
    let mut index: usize = 0;
    while index < paths.len()
        invariant
            index <= paths@.len(),
            models(list@) == derived_findings(snapshot@, paths@, index as int),
        decreases paths@.len() - index,
    {
        let path = paths.at(index).as_str();
        assert(paths@[index as int] == path@);
        let migratable = match snapshot.files.get(path) {
            Some(current) => is_migratable_legacy_react_index(snapshot, path, current),
            None => false,
        };
        let derived = snapshot.state.ownership_of(path) == Some(OwnershipKind::Derived);
        append(
            &mut list,
            found_when(
                !derived && !migratable,
                "derived-ownership-invalid",
                path,
                join3("schema 2 derived file `", path, "` must be recorded as derived"),
            ),
        );
        index += 1;
    }
    list
}

fn diagnose_inactive(state: &ProjectState, paths: &TextSet) -> (list: Vec<Diagnostic>)
    ensures
        models(list@) == inactive_findings(
            state@.ownership,
            paths@,
            state@.ownership.len() as int,
        ),
{
    let ghost ownership = state@.ownership;
    let mut list = none_found();
    let mut index: usize = 0;
    while index < state.ownership.len()
        invariant
            ownership == crate::state::ownership_models(state.ownership@),
            index <= ownership.len(),
            models(list@) == inactive_findings(ownership, paths@, index as int),
        decreases ownership.len() - index,
    {
        let record = &state.ownership[index];
        assert(ownership[index as int] == record@);
        append(
            &mut list,
            found_when(
                record.kind == OwnershipKind::Derived && !set_holds(paths, record.path.as_str()),
                "derived-ownership-unexpected",
                record.path.as_str(),
                join3(
                    "schema 2 state records inactive derived file `",
                    record.path.as_str(),
                    "`",
                ),
            ),
        );
        index += 1;
    }
    list
}

/// Diagnoses the inventory of regions and derived files.
pub fn diagnose_managed_region_inventory(snapshot: &ProjectSnapshot, derived: &TextSet) -> (list:
    Vec<Diagnostic>)
    ensures
        models(list@) == inventory_findings(snapshot@, derived@),
{
    let mut list = diagnose_required_region(&snapshot.state, "Cargo.toml", "framework-dependency");
    append(
        &mut list,
        diagnose_required_region(&snapshot.state, "apps/service/src/composition.rs", "modules"),
    );
    append(&mut list, diagnose_records(&snapshot.state));
    append(&mut list, diagnose_derived_ownership(snapshot, derived));
    append(&mut list, diagnose_inactive(&snapshot.state, derived));
    list
}

// Selection.
/// Whether a module is a tool rather than a part of a running service.
pub open spec fn is_tooling_id(id: Seq<char>) -> bool {
    id == "generator"@ || id == "test-support"@
}

/// Which of the first `count` selected modules are tools.
pub open spec fn tooling_findings(modules: Seq<(Seq<char>, Seq<char>)>, count: int) -> Seq<
    DiagnosticModel,
>
    decreases count,
{
    if count <= 0 {
        Seq::empty()
    } else {
        let id = modules[count - 1].0;
        tooling_findings(modules, count - 1) + finding(
            is_tooling_id(id),
            "tooling-module-forbidden"@,
            Some(PROJECT_STATE_PATH@),
            "tooling module `"@ + id + "` cannot be selected in schema 2 runtime state"@,
        )
    }
}

/// What is wrong with the versions of the first `count` selected modules.
pub open spec fn version_findings(
    catalog: ModuleCatalog,
    modules: Seq<(Seq<char>, Seq<char>)>,
    count: int,
) -> Seq<DiagnosticModel>
    decreases count,
{
    if count <= 0 {
        Seq::empty()
    } else {
        let module = modules[count - 1];
        version_findings(catalog, modules, count - 1) + (match catalog.find(module.0) {
            Some(definition) => finding(
                definition.version@ != module.1,
                "module-version-mismatch"@,
                Some(PROJECT_STATE_PATH@),
                "module `"@ + module.0 + "` records version "@ + module.1 + ", catalog requires "@
                    + definition.version@,
            ),
            None => seq![
                (
                    "unknown-module"@,
                    Some(PROJECT_STATE_PATH@),
                    "project selects unknown module `"@ + module.0 + "`"@,
                ),
            ],
        })
    }
}

/// What is wrong with the order of the selected modules.
pub open spec fn order_findings(catalog: ModuleCatalog, state: StateModel) -> Seq<DiagnosticModel> {
    match composition(catalog, selected_of(state)) {
        Err(message) => seq![("selection-invalid"@, Some(PROJECT_STATE_PATH@), message)],
        Ok(list) => finding(
            ids_in(list) != crate::state::module_ids_of(state),
            "module-order-mismatch"@,
            Some(PROJECT_STATE_PATH@),
            "selected modules are not recorded in canonical prerequisite order"@,
        ),
    }
}

/// The message that a project was made by another release.
pub open spec fn mismatch_text(snapshot: SnapshotModel) -> Seq<char> {
    let recorded = snapshot.state.framework;
    let current = snapshot.release;
    "project framework "@ + recorded.version + " "@ + recorded.repository + " @ "@
        + recorded.revision + " does not exactly match executing release "@ + current.version + " "@
        + current.repository + " @ "@ + current.revision
        + "; install the recorded CLI to inspect its generated bytes or run update"@
}

/// What is wrong with the selection.
pub open spec fn selection_findings(catalog: ModuleCatalog, snapshot: SnapshotModel) -> Seq<
    DiagnosticModel,
> {
    let state = snapshot.state;
    tooling_findings(state.modules, state.modules.len() as int) + (if state.framework
        != snapshot.release {
        seq![("release-mismatch"@, Some(PROJECT_STATE_PATH@), mismatch_text(snapshot))]
    } else {
        finding(
            catalog.bundle_version@ != snapshot.release.version || state.profile.version
                != catalog.bundle_version@,
            "release-version-mismatch"@,
            Some(PROJECT_STATE_PATH@),
            "catalog/profile versions "@ + catalog.bundle_version@ + "/"@ + state.profile.version
                + " do not match release "@ + snapshot.release.version,
        ) + version_findings(catalog, state.modules, state.modules.len() as int) + order_findings(
            catalog,
            state,
        )
    })
}

fn diagnose_tooling(state: &ProjectState) -> (list: Vec<Diagnostic>)
    ensures
        models(list@) == tooling_findings(state@.modules, state@.modules.len() as int),
{
    let ghost modules = state@.modules;
    let mut list = none_found();
    let mut index: usize = 0;
    while index < state.modules.len()
        invariant
            modules == crate::state::module_pairs(state.modules@),
            index <= modules.len(),
            models(list@) == tooling_findings(modules, index as int),
        decreases modules.len() - index,
    {
        let id = state.modules[index].id.as_str();
        assert(modules[index as int].0 == id@);
        append(
            &mut list,
            found_when(
                same_text(id, "generator") || same_text(id, "test-support"),
                "tooling-module-forbidden",
                PROJECT_STATE_PATH,
                join3("tooling module `", id, "` cannot be selected in schema 2 runtime state"),
            ),
        );
        index += 1;
    }
    list
}

fn diagnose_versions(catalog: &ModuleCatalog, state: &ProjectState) -> (list: Vec<Diagnostic>)
    ensures
        models(list@) == version_findings(*catalog, state@.modules, state@.modules.len() as int),
{
    let ghost modules = state@.modules;
    let mut list = none_found();
    let mut index: usize = 0;
    while index < state.modules.len()
        invariant
            modules == crate::state::module_pairs(state.modules@),
            index <= modules.len(),
            models(list@) == version_findings(*catalog, modules, index as int),
        decreases modules.len() - index,
    {
        let module = &state.modules[index];
        assert(modules[index as int] == (module.id@, module.version@));
        let more = match catalog.module(module.id.as_str()) {
            Some(definition) => found_when(
                !same_text(definition.version.as_str(), module.version.as_str()),
                "module-version-mismatch",
                PROJECT_STATE_PATH,
                join6(
                    "module `",
                    module.id.as_str(),
                    "` records version ",
                    module.version.as_str(),
                    ", catalog requires ",
                    definition.version.as_str(),
                ),
            ),
            None => one_found(
                "unknown-module",
                Some(PROJECT_STATE_PATH),
                join3("project selects unknown module `", module.id.as_str(), "`"),
            ),
        };
        append(&mut list, more);
        index += 1;
    }
    list
}

fn recorded_in_order(ordered: &Vec<&crate::modules::ModuleDefinition>, state: &ProjectState) -> (same:
    bool)
    ensures
        same == (ids_in(modules_of(ordered@)) == crate::state::module_ids_of(state@)),
{
    let ghost ids = ids_in(modules_of(ordered@));
    let ghost recorded = crate::state::module_ids_of(state@);
    if ordered.len() != state.modules.len() {
        assert(ids.len() != recorded.len());
        return false;
    }
    let mut index: usize = 0;
    while index < ordered.len()
        invariant
            ids == ids_in(modules_of(ordered@)),
            recorded == crate::state::module_ids_of(state@),
            ordered@.len() == state.modules@.len(),
            index <= ordered@.len(),
            forall|i: int| 0 <= i < index ==> ids[i] == recorded[i],
        decreases ordered@.len() - index,
    {
        assert(ids[index as int] == ordered@[index as int].id@);
        assert(recorded[index as int] == state.modules@[index as int].id@);
        if !same_text(ordered[index].id.as_str(), state.modules[index].id.as_str()) {
            return false;
        }
        index += 1;
    }
    assert(ids =~= recorded);
    true
}

fn diagnose_order(catalog: &ModuleCatalog, state: &ProjectState) -> (list: Vec<Diagnostic>)
    ensures
        models(list@) == order_findings(*catalog, state@),
{
    let selected = selected_ids(state);
    match catalog.composition_order(&selected) {
        Err(error) => one_found(
            "selection-invalid",
            Some(PROJECT_STATE_PATH),
            error.message().to_owned(),
        ),
        Ok(ordered) => found_when(
            !recorded_in_order(&ordered, state),
            "module-order-mismatch",
            PROJECT_STATE_PATH,
            "selected modules are not recorded in canonical prerequisite order".to_owned(),
        ),
    }
}

fn mismatch_message(snapshot: &ProjectSnapshot) -> (message: String)
    ensures
        message@ == mismatch_text(snapshot@),
{
    let mut message = "project framework ".to_owned();
    message.append(snapshot.state.framework.version());
    message.append(" ");
    message.append(snapshot.state.framework.repository());
    message.append(" @ ");
    message.append(snapshot.state.framework.revision());
    message.append(" does not exactly match executing release ");
    message.append(snapshot.release_identity.version());
    message.append(" ");
    message.append(snapshot.release_identity.repository());
    message.append(" @ ");
    message.append(snapshot.release_identity.revision());
    message.append("; install the recorded CLI to inspect its generated bytes or run update");
    message
}

/// Diagnoses the selection.
pub fn diagnose_state_selection(catalog: &ModuleCatalog, snapshot: &ProjectSnapshot) -> (list: Vec<
    Diagnostic,
>)
    ensures
        models(list@) == selection_findings(*catalog, snapshot@),
{
    let mut list = diagnose_tooling(&snapshot.state);
    if !snapshot.state.framework.same(&snapshot.release_identity) {
        append(
            &mut list,
            one_found(
                "release-mismatch",
                Some(PROJECT_STATE_PATH),
                mismatch_message(snapshot),
            ),
        );
        return list;
    }
    let version = snapshot.release_identity.version();
    let mut rest = found_when(
        !same_text(catalog.bundle_version.as_str(), version) || !same_text(
            snapshot.state.profile.version.as_str(),
            catalog.bundle_version.as_str(),
        ),
        "release-version-mismatch",
        PROJECT_STATE_PATH,
        join6(
            "catalog/profile versions ",
            catalog.bundle_version.as_str(),
            "/",
            snapshot.state.profile.version.as_str(),
            " do not match release ",
            version,
        ),
    );
    append(&mut rest, diagnose_versions(catalog, &snapshot.state));
    append(&mut rest, diagnose_order(catalog, &snapshot.state));
    append(&mut list, rest);
    list
}

// Owned files.
/// The hash of a text.
pub open spec fn text_hash(text: Seq<char>) -> Seq<char> {
    hex(sha256(encode_utf8(text)))
}

/// How a diagnostic names an owner.
pub open spec fn owner_name(kind: OwnershipKind) -> Seq<char> {
    match kind {
        OwnershipKind::KitOwned => "kit-owned"@,
        OwnershipKind::Derived => "derived"@,
        OwnershipKind::ApplicationOwned => "unhashed"@,
        OwnershipKind::DependencyLock => "unhashed"@,
    }
}

/// The finding that a file is not the approved one.
pub open spec fn approved_findings(record: OwnershipModel, contents: Seq<char>) -> Seq<
    DiagnosticModel,
> {
    match record.approved {
        None => Seq::empty(),
        Some(approved) => finding(
            text_hash(contents) != approved,
            "approved-hash-mismatch"@,
            Some(record.path),
            owner_name(record.kind) + " file `"@ + record.path + "` has SHA-256 "@ + text_hash(
                contents,
            ) + ", but state approves "@ + approved,
        ),
    }
}

/// The records of regions of a file, of the first `count`.
pub open spec fn records_in(regions: Seq<RecordModel>, path: Seq<char>, count: int) -> Seq<
    RecordModel,
>
    decreases count,
{
    if count <= 0 {
        Seq::empty()
    } else if regions[count - 1].path == path {
        records_in(regions, path, count - 1).push(regions[count - 1])
    } else {
        records_in(regions, path, count - 1)
    }
}

/// The rank of a record: its region's identifier.
pub open spec fn record_rank() -> spec_fn(RecordModel) -> Seq<u32> {
    |record: RecordModel| codes(record.id)
}

/// A file with the first `count` regions restored from the approved one.
pub open spec fn restored(
    path: Seq<char>,
    contents: Seq<char>,
    baseline: Seq<RegionModel>,
    records: Seq<RecordModel>,
    count: int,
) -> Result<Seq<char>, Seq<char>>
    decreases count,
{
    if count <= 0 {
        Ok(contents)
    } else {
        match restored(path, contents, baseline, records, count - 1) {
            Err(message) => Err(message),
            Ok(text) => {
                let record = records[count - 1];
                let place = region_place(baseline, record.id, 0);
                if place >= baseline.len() {
                    Err(
                        "approved baseline for `"@ + path + "` is missing managed region `"@
                            + record.id + "`"@,
                    )
                } else {
                    reconciled(text, record, baseline[place].content)
                }
            },
        }
    }
}

/// Whether a file is the approved one outside its managed regions.
pub open spec fn matches_baseline(
    path: Seq<char>,
    contents: Seq<char>,
    baseline: Seq<char>,
    regions: Seq<RecordModel>,
) -> Result<bool, Seq<char>> {
    match regions_of(baseline) {
        Err(message) => Err(message),
        Ok(approved) => {
            let own = records_in(regions, path, regions.len() as int);
            let records = arranged(own, record_rank(), own.len() as int);
            match restored(path, contents, approved, records, records.len() as int) {
                Err(message) => Err(message),
                Ok(text) => Ok(text == baseline),
            }
        },
    }
}

/// What is wrong with a file that the kit owns.
pub open spec fn kit_findings(snapshot: SnapshotModel, path: Seq<char>, contents: Seq<char>) -> Seq<
    DiagnosticModel,
> {
    if !snapshot.base_files.contains_key(path) {
        seq![
            (
                "base-descriptor-missing"@,
                Some(path),
                "embedded base descriptor for kit-owned file `"@ + path + "` is unavailable"@,
            ),
        ]
    } else {
        match matches_baseline(
            path,
            contents,
            snapshot.base_files[path],
            snapshot.state.regions,
        ) {
            Ok(same) => finding(
                !same,
                "kit-owned-drift"@,
                Some(path),
                "kit-owned file `"@ + path
                    + "` differs from its embedded base descriptor outside managed regions"@,
            ),
            Err(message) => seq![("kit-owned-drift"@, Some(path), message)],
        }
    }
}

/// The contents of a derived file of a project.
pub open spec fn project_derived(
    inputs: InputsModel,
    snapshot: SnapshotModel,
    path: Seq<char>,
    selected: Seq<Seq<char>>,
) -> Result<Seq<char>, ManagerFailure> {
    managed_text(
        path,
        inputs.catalog,
        selected,
        snapshot.state.service,
        snapshot.state.retained_volumes,
        inputs.image,
    )
}

/// What is wrong with a derived file.
pub open spec fn derived_file_findings(
    inputs: InputsModel,
    snapshot: SnapshotModel,
    path: Seq<char>,
    contents: Seq<char>,
) -> Seq<DiagnosticModel> {
    match project_derived(inputs, snapshot, path, selected_of(snapshot.state)) {
        Ok(expected) => finding(
            expected != contents,
            "derived-drift"@,
            Some(path),
            "derived file `"@ + path + "` is not current"@,
        ),
        Err(failure) => seq![("derived-unsupported"@, Some(path), failure.text())],
    }
}

/// What is wrong with an owned file.
pub open spec fn owned_file_findings(
    inputs: InputsModel,
    snapshot: SnapshotModel,
    record: OwnershipModel,
) -> Seq<DiagnosticModel> {
    let current = snapshot.state.framework == snapshot.release;
    finding(
        (record.path == "Cargo.lock"@ && record.kind != OwnershipKind::DependencyLock) || (
        record.kind == OwnershipKind::DependencyLock && record.path != "Cargo.lock"@),
        "dependency-lock-ownership-invalid"@,
        Some(record.path),
        "Cargo.lock is the only dependency-lock path and must not use another ownership kind"@,
    ) + (if record.kind == OwnershipKind::DependencyLock {
        finding(
            snapshot.lockfile is None,
            "owned-file-missing"@,
            Some("Cargo.lock"@),
            "owned dependency lock `Cargo.lock` is missing"@,
        )
    } else if !snapshot.files.contains_key(record.path) {
        seq![
            (
                "owned-file-missing"@,
                Some(record.path),
                "owned file `"@ + record.path + "` is missing"@,
            ),
        ]
    } else {
        let contents = snapshot.files[record.path];
        match record.kind {
            OwnershipKind::KitOwned => approved_findings(record, contents) + (if current {
                kit_findings(snapshot, record.path, contents)
            } else {
                Seq::empty()
            }),
            OwnershipKind::Derived => approved_findings(record, contents) + (if current {
                derived_file_findings(inputs, snapshot, record.path, contents)
            } else {
                Seq::empty()
            }),
            _ => Seq::empty(),
        }
    })
}

/// What is wrong with the first `count` owned files.
pub open spec fn owned_findings(inputs: InputsModel, snapshot: SnapshotModel, count: int) -> Seq<
    DiagnosticModel,
>
    decreases count,
{
    if count <= 0 {
        finding(
            owner_of(snapshot.state.ownership, "Cargo.lock"@) != Some(
                OwnershipKind::DependencyLock,
            ),
            "dependency-lock-ownership-invalid"@,
            Some("Cargo.lock"@),
            "schema-2 state must own Cargo.lock as dependency-lock"@,
        )
    } else {
        owned_findings(inputs, snapshot, count - 1) + owned_file_findings(
            inputs,
            snapshot,
            snapshot.state.ownership[count - 1],
        )
    }
}

/// Returns the hash of a text.
pub fn hash_text(text: &str) -> (hash: String)
    ensures
        hash@ == text_hash(text@),
{
    sha256_hex(text.as_bytes())
}

fn diagnose_approved_hash(record: &OwnershipRecord, contents: &str) -> (list: Vec<Diagnostic>)
    ensures
        models(list@) == approved_findings(record@, contents@),
{
    let approved = match &record.approved_sha256 {
        Some(approved) => approved.as_str(),
        None => {
            return none_found();
        },
    };
    let actual = hash_text(contents);
    if same_text(actual.as_str(), approved) {
        return none_found();
    }
    let name = match record.kind {
        OwnershipKind::KitOwned => "kit-owned",
        OwnershipKind::Derived => "derived",
        OwnershipKind::ApplicationOwned => "unhashed",
        OwnershipKind::DependencyLock => "unhashed",
    };
    one_found(
        "approved-hash-mismatch",
        Some(record.path.as_str()),
        join7(
            name,
            " file `",
            record.path.as_str(),
            "` has SHA-256 ",
            actual.as_str(),
            ", but state approves ",
            approved,
        ),
    )
}

impl Ranked for ManagedRegionRecord {
    open spec fn rank(&self) -> Seq<u32> {
        codes(self.id@)
    }

    fn rank_codes(&self) -> (codes: Vec<u32>) {
        codes_of(self.id.as_str())
    }
}

fn collect_records(records: &Vec<ManagedRegionRecord>, path: &str) -> (own: Vec<
    ManagedRegionRecord,
>)
    ensures
        record_models(own@) == records_in(
            record_models(records@),
            path@,
            records@.len() as int,
        ),
{
    let ghost all = record_models(records@);
    let mut own: Vec<ManagedRegionRecord> = Vec::new();
    assert(record_models(own@) =~= Seq::<RecordModel>::empty());
    let mut index: usize = 0;
    while index < records.len()
        invariant
            all == record_models(records@),
            index <= records@.len(),
            record_models(own@) == records_in(all, path@, index as int),
        decreases records@.len() - index,
    {
        assert(all[index as int] == records@[index as int]@);
        if same_text(records[index].path.as_str(), path) {
            let ghost before = record_models(own@);
            let copy = records[index].duplicate();
            let ghost value = copy@;
            own.push(copy);
            assert(record_models(own@) =~= before.push(value));
        }
        index += 1;
    }
    own
}

fn find_region(regions: &Vec<ManagedRegion>, id: &str) -> (found: Option<usize>)
    ensures
        ({
            let place = region_place(region_models(regions@), id@, 0);
            match found {
                Some(index) => place == index && index < regions@.len(),
                None => place >= regions@.len(),
            }
        }),
{
    let ghost all = region_models(regions@);
    let mut index: usize = 0;
    while index < regions.len()
        invariant
            all == region_models(regions@),
            index <= regions@.len(),
            region_place(all, id@, 0) == region_place(all, id@, index as int),
        decreases regions@.len() - index,
    {
        assert(all[index as int] == regions@[index as int]@);
        if same_text(regions[index].id.as_str(), id) {
            return Some(index);
        }
        index += 1;
    }
    None
}

proof fn lemma_restored_fail(
    path: Seq<char>,
    contents: Seq<char>,
    baseline: Seq<RegionModel>,
    records: Seq<RecordModel>,
    count: int,
    total: int,
)
    requires
        restored(path, contents, baseline, records, count) is Err,
        count <= total,
    ensures
        restored(path, contents, baseline, records, total) == restored(
            path,
            contents,
            baseline,
            records,
            count,
        ),
    decreases total - count,
{
    if count < total {
        lemma_restored_fail(path, contents, baseline, records, count, total - 1);
    }
}

/// Returns whether a file is the approved one outside its managed regions.
pub fn matches_approved_baseline(
    path: &str,
    contents: &str,
    baseline: &str,
    state: &ProjectState,
) -> (result: Result<bool, RegionError>)
    ensures
        match result {
            Ok(same) => matches_baseline(path@, contents@, baseline@, state@.regions) == Ok::<
                bool,
                Seq<char>,
            >(same),
            Err(error) => matches_baseline(path@, contents@, baseline@, state@.regions) == Err::<
                bool,
                Seq<char>,
            >(error.text()),
        },
{
    let regions = match parse_managed_regions(baseline) {
        Ok(regions) => regions,
        Err(error) => {
            return Err(error);
        },
    };
    let ghost approved = region_models(regions@);
    let own = collect_records(&state.managed_regions, path);
    let ghost unsorted = own@;
    let sorted = sort_ranked(own);
    let ghost records = record_models(sorted@);
    let ghost total = records.len() as int;
    proof {
        let view = |record: ManagedRegionRecord| record@;
        lemma_arranged(unsorted, view, record_rank(), unsorted.len() as int);
        assert(record_models(unsorted) == unsorted.map_values(view));
    }
    let mut normalized = contents.to_owned();
    let mut index: usize = 0;
    while index < sorted.len()
        invariant
            approved == region_models(regions@),
            regions_of(baseline@) == Ok::<Seq<RegionModel>, Seq<char>>(approved),
            records == record_models(sorted@),
            records == arranged(
                records_in(state@.regions, path@, state@.regions.len() as int),
                record_rank(),
                records_in(state@.regions, path@, state@.regions.len() as int).len() as int,
            ),
            total == records.len(),
            index <= total,
            restored(path@, contents@, approved, records, index as int) == Ok::<
                Seq<char>,
                Seq<char>,
            >(normalized@),
        decreases total - index,
    {
        let record = &sorted[index];
        assert(records[index as int] == record@);
        proof {
            if restored(path@, contents@, approved, records, index + 1) is Err {
                lemma_restored_fail(path@, contents@, approved, records, index + 1, total);
            }
        }
        let place = match find_region(&regions, record.id.as_str()) {
            Some(place) => place,
            None => {
                return Err(
                    RegionError::new(
                        join5(
                            "approved baseline for `",
                            path,
                            "` is missing managed region `",
                            record.id.as_str(),
                            "`",
                        ),
                    ),
                );
            },
        };
        assert(approved[place as int] == regions@[place as int]@);
        match reconcile_managed_region(
            normalized.as_str(),
            record,
            regions[place].content.as_str(),
        ) {
            Ok(text) => {
                normalized = text;
            },
            Err(error) => {
                return Err(error);
            },
        }
        index += 1;
    }
    Ok(same_text(normalized.as_str(), baseline))
}

fn diagnose_kit_owned_file(snapshot: &ProjectSnapshot, path: &str, contents: &str) -> (list: Vec<
    Diagnostic,
>)
    ensures
        models(list@) == kit_findings(snapshot@, path@, contents@),
{
    let approved = match snapshot.base_files.get(path) {
        Some(approved) => approved,
        None => {
            return one_found(
                "base-descriptor-missing",
                Some(path),
                join3(
                    "embedded base descriptor for kit-owned file `",
                    path,
                    "` is unavailable",
                ),
            );
        },
    };
    match matches_approved_baseline(path, contents, approved, &snapshot.state) {
        Ok(same) => found_when(
            !same,
            "kit-owned-drift",
            path,
            join3(
                "kit-owned file `",
                path,
                "` differs from its embedded base descriptor outside managed regions",
            ),
        ),
        Err(error) => one_found("kit-owned-drift", Some(path), error.message().to_owned()),
    }
}

/// Renders a derived file of a project.
pub fn render_project_derived(
    inputs: &PlanningInputs,
    snapshot: &ProjectSnapshot,
    path: &str,
    selected: &TextSet,
) -> (result: Result<String, ManagerError>)
    ensures
        crate::rendering::renders(
            result,
            project_derived(inputs@, snapshot@, path@, selected@),
        ),
{
    render_managed_derived(
        path,
        inputs.catalog,
        selected,
        snapshot.state.service.as_str(),
        &snapshot.state.retained_compose_volumes,
        inputs.image_template,
    )
}

fn diagnose_derived_file(
    inputs: &PlanningInputs,
    snapshot: &ProjectSnapshot,
    selected: &TextSet,
    path: &str,
    contents: &str,
) -> (list: Vec<Diagnostic>)
    requires
        selected@ == selected_of(snapshot@.state),
    ensures
        models(list@) == derived_file_findings(inputs@, snapshot@, path@, contents@),
{
    match render_project_derived(inputs, snapshot, path, selected) {
        Ok(expected) => found_when(
            !same_text(expected.as_str(), contents),
            "derived-drift",
            path,
            join3("derived file `", path, "` is not current"),
        ),
        Err(error) => one_found("derived-unsupported", Some(path), error.message()),
    }
}

fn diagnose_owned_file(
    inputs: &PlanningInputs,
    snapshot: &ProjectSnapshot,
    selected: &TextSet,
    record: &OwnershipRecord,
) -> (list: Vec<Diagnostic>)
    requires
        selected@ == selected_of(snapshot@.state),
    ensures
        models(list@) == owned_file_findings(inputs@, snapshot@, record@),
{
    let current = snapshot.state.framework.same(&snapshot.release_identity);
    let path = record.path.as_str();
    let lock_path = same_text(path, "Cargo.lock");
    let lock_kind = record.kind == OwnershipKind::DependencyLock;
    let mut list = found_when(
        (lock_path && !lock_kind) || (lock_kind && !lock_path),
        "dependency-lock-ownership-invalid",
        path,
        "Cargo.lock is the only dependency-lock path and must not use another ownership kind".to_owned(),
    );
    if lock_kind {
        append(
            &mut list,
            found_when(
                snapshot.lockfile.is_none(),
                "owned-file-missing",
                "Cargo.lock",
                "owned dependency lock `Cargo.lock` is missing".to_owned(),
            ),
        );
        return list;
    }
    let contents = match snapshot.files.get(path) {
        Some(contents) => contents,
        None => {
            append(
                &mut list,
                one_found(
                    "owned-file-missing",
                    Some(path),
                    join3("owned file `", path, "` is missing"),
                ),
            );
            return list;
        },
    };
    let mut rest = none_found();
    match record.kind {
        OwnershipKind::KitOwned => {
            rest = diagnose_approved_hash(record, contents);
            let more = if current {
                diagnose_kit_owned_file(snapshot, path, contents)
            } else {
                none_found()
            };
            append(&mut rest, more);
        },
        OwnershipKind::Derived => {
            rest = diagnose_approved_hash(record, contents);
            let more = if current {
                diagnose_derived_file(inputs, snapshot, selected, path, contents)
            } else {
                none_found()
            };
            append(&mut rest, more);
        },
        OwnershipKind::ApplicationOwned => {},
        OwnershipKind::DependencyLock => {},
    }
    append(&mut list, rest);
    list
}

/// Diagnoses the owned files.
fn diagnose_owned_files(
    inputs: &PlanningInputs,
    snapshot: &ProjectSnapshot,
    selected: &TextSet,
) -> (list: Vec<Diagnostic>)
    requires
        selected@ == selected_of(snapshot@.state),
    ensures
        models(list@) == owned_findings(
            inputs@,
            snapshot@,
            snapshot@.state.ownership.len() as int,
        ),
{
    let locked = snapshot.state.ownership_of("Cargo.lock") == Some(OwnershipKind::DependencyLock);
    let mut list = found_when(
        !locked,
        "dependency-lock-ownership-invalid",
        "Cargo.lock",
        "schema-2 state must own Cargo.lock as dependency-lock".to_owned(),
    );
    let ghost ownership = snapshot@.state.ownership;
    let mut index: usize = 0;
    while index < snapshot.state.ownership.len()
        invariant
            selected@ == selected_of(snapshot@.state),
            ownership == crate::state::ownership_models(snapshot.state.ownership@),
            ownership == snapshot@.state.ownership,
            index <= ownership.len(),
            models(list@) == owned_findings(inputs@, snapshot@, index as int),
        decreases ownership.len() - index,
    {
        let record = &snapshot.state.ownership[index];
        assert(ownership[index as int] == record@);
        let more = diagnose_owned_file(inputs, snapshot, selected, record);
        append(&mut list, more);
        index += 1;
    }
    list
}

// Managed regions.
/// What is wrong with a recorded region whose marker agrees with its record.
pub open spec fn region_findings(
    inputs: InputsModel,
    snapshot: SnapshotModel,
    record: RecordModel,
    region: RegionModel,
) -> Seq<DiagnosticModel> {
    match region_text(
        inputs.catalog,
        record.id,
        selected_of(snapshot.state),
        snapshot.release,
    ) {
        Ok(expected) => finding(
            expected != region.content,
            "managed-region-drift"@,
            Some(record.path),
            "managed region `"@ + record.id + "` does not match selected modules"@,
        ),
        Err(failure) => seq![
            ("managed-region-render-failed"@, Some(record.path), failure.text()),
        ],
    }
}

/// What is wrong with a recorded region.
pub open spec fn managed_findings(
    inputs: InputsModel,
    snapshot: SnapshotModel,
    record: RecordModel,
) -> Seq<DiagnosticModel> {
    if !snapshot.files.contains_key(record.path) {
        seq![
            (
                "managed-file-missing"@,
                Some(record.path),
                "managed-region file `"@ + record.path + "` is missing"@,
            ),
        ]
    } else {
        match regions_of(snapshot.files[record.path]) {
            Err(message) => seq![("managed-region-corrupt"@, Some(record.path), message)],
            Ok(regions) => {
                let place = region_place(regions, record.id, 0);
                let region = regions[place];
                if place >= regions.len() {
                    seq![
                        (
                            "managed-region-missing"@,
                            Some(record.path),
                            "managed region `"@ + record.id + "` is missing"@,
                        ),
                    ]
                } else if region.version != record.marker_version || region.hash
                    != record.content_hash {
                    seq![
                        (
                            "managed-region-state-mismatch"@,
                            Some(record.path),
                            "managed region `"@ + record.id
                                + "` marker metadata differs from project state"@,
                        ),
                    ]
                } else if snapshot.state.framework != snapshot.release {
                    Seq::empty()
                } else {
                    region_findings(inputs, snapshot, record, region)
                }
            },
        }
    }
}

/// What is wrong with the first `count` recorded regions.
pub open spec fn managed_list_findings(
    inputs: InputsModel,
    snapshot: SnapshotModel,
    count: int,
) -> Seq<DiagnosticModel>
    decreases count,
{
    if count <= 0 {
        Seq::empty()
    } else {
        managed_list_findings(inputs, snapshot, count - 1) + managed_findings(
            inputs,
            snapshot,
            snapshot.state.regions[count - 1],
        )
    }
}

/// Which of the first `count` regions of a file no record tells of.
pub open spec fn untracked_regions(
    records: Seq<RecordModel>,
    path: Seq<char>,
    regions: Seq<RegionModel>,
    count: int,
) -> Seq<DiagnosticModel>
    decreases count,
{
    if count <= 0 {
        Seq::empty()
    } else {
        let id = regions[count - 1].id;
        untracked_regions(records, path, regions, count - 1) + finding(
            record_of(records, path, id) is None,
            "managed-region-untracked"@,
            Some(path),
            "managed region `"@ + id + "` has no project state record"@,
        )
    }
}

/// What is wrong with the regions of a file, recorded or not.
pub open spec fn file_findings(records: Seq<RecordModel>, path: Seq<char>, contents: Seq<char>) -> Seq<
    DiagnosticModel,
> {
    match regions_of(contents) {
        Ok(regions) => untracked_regions(records, path, regions, regions.len() as int),
        Err(message) => finding(
            occurs("omnius:managed-"@, contents),
            "managed-region-corrupt"@,
            Some(path),
            message,
        ),
    }
}

/// What is wrong with the regions of the first `count` files.
pub open spec fn untracked_findings(
    records: Seq<RecordModel>,
    files: Seq<ProjectFile>,
    count: int,
) -> Seq<DiagnosticModel>
    decreases count,
{
    if count <= 0 {
        Seq::empty()
    } else {
        untracked_findings(records, files, count - 1) + file_findings(
            records,
            files[count - 1].path@,
            files[count - 1].contents@,
        )
    }
}

fn diagnose_managed_record(
    inputs: &PlanningInputs,
    snapshot: &ProjectSnapshot,
    selected: &TextSet,
    record: &ManagedRegionRecord,
) -> (list: Vec<Diagnostic>)
    requires
        selected@ == selected_of(snapshot@.state),
    ensures
        models(list@) == managed_findings(inputs@, snapshot@, record@),
{
    let path = record.path.as_str();
    let id = record.id.as_str();
    let contents = match snapshot.files.get(path) {
        Some(contents) => contents,
        None => {
            return one_found(
                "managed-file-missing",
                Some(path),
                join3("managed-region file `", path, "` is missing"),
            );
        },
    };
    let regions = match parse_managed_regions(contents) {
        Ok(regions) => regions,
        Err(error) => {
            return one_found("managed-region-corrupt", Some(path), error.message().to_owned());
        },
    };
    let ghost all = region_models(regions@);
    let place = match find_region(&regions, id) {
        Some(place) => place,
        None => {
            return one_found(
                "managed-region-missing",
                Some(path),
                join3("managed region `", id, "` is missing"),
            );
        },
    };
    let region = &regions[place];
    assert(all[place as int] == region@);
    if region.marker_version != record.marker_version || !same_text(
        region.content_hash.as_str(),
        record.content_hash.as_str(),
    ) {
        return one_found(
            "managed-region-state-mismatch",
            Some(path),
            join3("managed region `", id, "` marker metadata differs from project state"),
        );
    }
    if !snapshot.state.framework.same(&snapshot.release_identity) {
        return none_found();
    }
    match render_region(inputs.catalog, id, selected, &snapshot.release_identity) {
        Ok(expected) => found_when(
            !same_text(expected.as_str(), region.content.as_str()),
            "managed-region-drift",
            path,
            join3("managed region `", id, "` does not match selected modules"),
        ),
        Err(error) => one_found("managed-region-render-failed", Some(path), error.message()),
    }
}

/// Diagnoses the recorded regions.
fn diagnose_managed_records(
    inputs: &PlanningInputs,
    snapshot: &ProjectSnapshot,
    selected: &TextSet,
) -> (list: Vec<Diagnostic>)
    requires
        selected@ == selected_of(snapshot@.state),
    ensures
        models(list@) == managed_list_findings(
            inputs@,
            snapshot@,
            snapshot@.state.regions.len() as int,
        ),
{
    let ghost regions = snapshot@.state.regions;
    let mut list = none_found();
    let mut index: usize = 0;
    while index < snapshot.state.managed_regions.len()
        invariant
            selected@ == selected_of(snapshot@.state),
            regions == record_models(snapshot.state.managed_regions@),
            regions == snapshot@.state.regions,
            index <= regions.len(),
            models(list@) == managed_list_findings(inputs@, snapshot@, index as int),
        decreases regions.len() - index,
    {
        let record = &snapshot.state.managed_regions[index];
        assert(regions[index as int] == record@);
        let more = diagnose_managed_record(inputs, snapshot, selected, record);
        append(&mut list, more);
        index += 1;
    }
    list
}

fn diagnose_file_regions(state: &ProjectState, path: &str, contents: &str) -> (list: Vec<
    Diagnostic,
>)
    ensures
        models(list@) == file_findings(state@.regions, path@, contents@),
{
    let regions = match parse_managed_regions(contents) {
        Ok(regions) => regions,
        Err(error) => {
            return found_when(
                contains_text(contents, "omnius:managed-"),
                "managed-region-corrupt",
                path,
                error.message().to_owned(),
            );
        },
    };
    let ghost all = region_models(regions@);
    let mut list = none_found();
    let mut index: usize = 0;
    while index < regions.len()
        invariant
            all == region_models(regions@),
            index <= regions@.len(),
            models(list@) == untracked_regions(state@.regions, path@, all, index as int),
        decreases regions@.len() - index,
    {
        let id = regions[index].id.as_str();
        assert(all[index as int] == regions@[index as int]@);
        append(
            &mut list,
            found_when(
                state.managed_region(path, id).is_none(),
                "managed-region-untracked",
                path,
                join3("managed region `", id, "` has no project state record"),
            ),
        );
        index += 1;
    }
    list
}

/// Diagnoses regions that no record tells of.
pub fn diagnose_untracked_regions(snapshot: &ProjectSnapshot) -> (list: Vec<Diagnostic>)
    ensures
        models(list@) == untracked_findings(
            snapshot@.state.regions,
            snapshot.files.listed(),
            snapshot.files.listed().len() as int,
        ),
{
    let ghost files = snapshot.files.listed();
    let mut list = none_found();
    let mut index: usize = 0;
    while index < snapshot.files.len()
        invariant
            files == snapshot.files.listed(),
            index <= files.len(),
            models(list@) == untracked_findings(snapshot@.state.regions, files, index as int),
        decreases files.len() - index,
    {
        let file = snapshot.files.at(index);
        let more = diagnose_file_regions(
            &snapshot.state,
            file.path.as_str(),
            file.contents.as_str(),
        );
        append(&mut list, more);
        index += 1;
    }
    list
}

// The whole project.
/// All findings of a project whose catalogs and state are in order.
pub open spec fn detailed_findings(
    inputs: InputsModel,
    snapshot: SnapshotModel,
    files: Seq<ProjectFile>,
    paths: Seq<Seq<char>>,
) -> Seq<DiagnosticModel> {
    snapshot.provenance + inventory_findings(snapshot, paths) + selection_findings(
        inputs.catalog,
        snapshot,
    ) + owned_findings(inputs, snapshot, snapshot.state.ownership.len() as int)
        + managed_list_findings(inputs, snapshot, snapshot.state.regions.len() as int)
        + untracked_findings(snapshot.state.regions, files, files.len() as int)
}

/// The findings of a project. The order in which its files are listed does not matter but for
/// the place of what is found in them.
pub open spec fn snapshot_findings(
    inputs: InputsModel,
    snapshot: SnapshotModel,
    files: Seq<ProjectFile>,
) -> Seq<DiagnosticModel> {
    match catalog_defect(inputs.catalog, inputs.workspace) {
        Some(message) => seq![("catalog-invalid"@, None, message)],
        None => match template_catalog_defect(inputs.templates, inputs.catalog.modules@) {
            Some(message) => seq![("catalog-invalid"@, None, message)],
            None => match snapshot.state_error {
                Some(message) => seq![("state-invalid"@, Some(PROJECT_STATE_PATH@), message)],
                None => match derived_paths(inputs.catalog, selected_of(snapshot.state)) {
                    Err(failure) => snapshot.provenance + seq![
                        ("catalog-invalid"@, None, failure.text()),
                    ],
                    Ok(paths) => sorted_listing::<Diagnostic>(
                        detailed_findings(inputs, snapshot, files, paths),
                    ),
                },
            },
        },
    }
}

/// Diagnoses a project.
pub fn diagnose_snapshot(inputs: &PlanningInputs, snapshot: &ProjectSnapshot) -> (list: Vec<
    Diagnostic,
>)
    ensures
        models(list@) == snapshot_findings(inputs@, snapshot@, snapshot.files.listed()),
{
    if let Err(error) = inputs.catalog.validate(inputs.workspace_dependencies) {
        return one_found("catalog-invalid", None, error.message().to_owned());
    }
    if let Err(message) = validate_application_template_catalog(inputs.templates, inputs.catalog) {
        return one_found("catalog-invalid", None, message);
    }
    if let Some(message) = &snapshot.state_error {
        return one_found("state-invalid", Some(PROJECT_STATE_PATH), message.clone());
    }
    let mut list = clone_diagnostics(&snapshot.provenance_diagnostics);
    let selected = selected_ids(&snapshot.state);
    let derived = match selected_derived_paths(inputs.catalog, &selected) {
        Ok(paths) => paths,
        Err(error) => {
            append(&mut list, one_found("catalog-invalid", None, error.message()));
            return list;
        },
    };
    append(&mut list, diagnose_managed_region_inventory(snapshot, &derived));
    append(&mut list, diagnose_state_selection(inputs.catalog, snapshot));
    append(&mut list, diagnose_owned_files(inputs, snapshot, &selected));
    append(&mut list, diagnose_managed_records(inputs, snapshot, &selected));
    append(&mut list, diagnose_untracked_regions(snapshot));
    sort_diagnostics(list)
}

/// Pure deterministic doctor evaluation from a supplied snapshot.
pub fn doctor(inputs: &PlanningInputs, snapshot: &ProjectSnapshot) -> (report: DoctorReport)
    ensures
        report.schema_version == PLAN_SCHEMA_VERSION,
        models(report.diagnostics@) == sorted_listing::<Diagnostic>(
            snapshot_findings(inputs@, snapshot@, snapshot.files.listed()),
        ),
        report.healthy == (snapshot_findings(
            inputs@,
            snapshot@,
            snapshot.files.listed(),
        ).len() == 0),
{
    let findings = diagnose_snapshot(inputs, snapshot);
    let healthy = findings.len() == 0;
    proof {
        assert(models(findings@).len() == findings@.len());
    }
    let diagnostics = sort_diagnostics(findings);
    DoctorReport { schema_version: PLAN_SCHEMA_VERSION, healthy, diagnostics }
}

/// A project that is found healthy has no finding of any kind.
pub proof fn lemma_healthy(inputs: InputsModel, snapshot: SnapshotModel, files: Seq<ProjectFile>)
    requires
        snapshot_findings(inputs, snapshot, files).len() == 0,
    ensures
        catalog_defect(inputs.catalog, inputs.workspace) is None,
        template_catalog_defect(inputs.templates, inputs.catalog.modules@) is None,
        snapshot.state_error is None,
        snapshot.provenance.len() == 0,
        snapshot.state.framework == snapshot.release,
        selection_defect(inputs.catalog, selected_of(snapshot.state)) is None,
        derived_paths(inputs.catalog, selected_of(snapshot.state)) is Ok,
        forall|i: int|
            0 <= i < snapshot.state.ownership.len() ==> owned_file_findings(
                inputs,
                snapshot,
                #[trigger] snapshot.state.ownership[i],
            ).len() == 0,
        forall|i: int|
            0 <= i < snapshot.state.regions.len() ==> managed_findings(
                inputs,
                snapshot,
                #[trigger] snapshot.state.regions[i],
            ).len() == 0,
{
    let paths = derived_paths(inputs.catalog, selected_of(snapshot.state))->Ok_0;
    assert(derived_paths(inputs.catalog, selected_of(snapshot.state)) is Ok);
    let all = detailed_findings(inputs, snapshot, files, paths);
    lemma_listing_exists::<Diagnostic>(all);
    if all.len() > 0 {
        assert(all.contains(all[0]));
        assert(sorted_listing::<Diagnostic>(all).contains(all[0]));
    }
    lemma_owned_none(inputs, snapshot, snapshot.state.ownership.len() as int);
    lemma_managed_none(inputs, snapshot, snapshot.state.regions.len() as int);
}

proof fn lemma_owned_none(inputs: InputsModel, snapshot: SnapshotModel, count: int)
    requires
        owned_findings(inputs, snapshot, count).len() == 0,
        0 <= count <= snapshot.state.ownership.len(),
    ensures
        forall|i: int|
            0 <= i < count ==> owned_file_findings(
                inputs,
                snapshot,
                #[trigger] snapshot.state.ownership[i],
            ).len() == 0,
    decreases count,
{
    if count > 0 {
        lemma_owned_none(inputs, snapshot, count - 1);
    }
}

proof fn lemma_managed_none(inputs: InputsModel, snapshot: SnapshotModel, count: int)
    requires
        managed_list_findings(inputs, snapshot, count).len() == 0,
        0 <= count <= snapshot.state.regions.len(),
    ensures
        forall|i: int|
            0 <= i < count ==> managed_findings(
                inputs,
                snapshot,
                #[trigger] snapshot.state.regions[i],
            ).len() == 0,
    decreases count,
{
    if count > 0 {
        lemma_managed_none(inputs, snapshot, count - 1);
    }
}

} // verus!
