//! The recorded state of a managed project.

use vstd::prelude::*;
use vstd::string::*;

use crate::ordered::{is_sorted_listing, models, sort_unique, sorted_listing, TextSet};
use crate::release::{ReleaseIdentity, ReleaseModel};
use crate::text::{clone_optional_text, clone_texts, optional_view, same_text, texts};

verus! {

/// Version of the managed marker grammar.
pub const MANAGED_MARKER_VERSION: u32 = 1;

/// Version of the state's form.
pub const PROJECT_STATE_SCHEMA_VERSION: u32 = 2;

/// Project-relative path of the recorded state.
pub const PROJECT_STATE_PATH: &'static str = ".omnius/service.toml";

/// Who decides on the contents of a file.
#[derive(Clone, Copy, Debug, PartialEq, Eq, Structural)]
pub enum OwnershipKind {
    /// The kit, by its release.
    KitOwned,
    /// The application's authors.
    ApplicationOwned,
    /// The generator, from the selected modules.
    Derived,
    /// Cargo.
    DependencyLock,
}

/// Ownership of one file.
#[derive(Debug, PartialEq, Eq)]
pub struct OwnershipRecord {
    /// Project-relative path.
    pub path: String,
    /// Owner.
    pub kind: OwnershipKind,
    /// Hash of the approved contents, where the generator approves them.
    pub approved_sha256: Option<String>,
}

/// One managed region of a file.
#[derive(Debug, PartialEq, Eq)]
pub struct ManagedRegionRecord {
    /// Stable region identifier.
    pub id: String,
    /// Project-relative path of the file.
    pub path: String,
    /// Marker grammar version.
    pub marker_version: u32,
    /// Hash of the approved contents.
    pub content_hash: String,
}

/// The profile that a project was made from, and how its selection departs from it.
#[derive(Debug, PartialEq, Eq)]
pub struct ProfileSelection {
    /// Profile identifier.
    pub id: String,
    /// Version of the profile bundle.
    pub version: String,
    /// Modules selected beside the profile's.
    pub additions: Vec<String>,
    /// Modules of the profile that are not selected.
    pub removals: Vec<String>,
}

/// One selected module.
#[derive(Debug, PartialEq, Eq)]
pub struct SelectedModule {
    /// Module identifier.
    pub id: String,
    /// Module version.
    pub version: String,
}

/// The module that fills a provider slot.
#[derive(Debug, PartialEq, Eq)]
pub struct SelectedProvider {
    /// Provider slot.
    pub slot: String,
    /// Module identifier.
    pub module: String,
}

/// The recorded state of a managed project.
#[derive(Debug, PartialEq, Eq)]
pub struct ProjectState {
    /// Version of the form.
    pub schema_version: u32,
    /// Service name.
    pub service: String,
    /// Release of the framework.
    pub framework: ReleaseIdentity,
    /// Profile.
    pub profile: ProfileSelection,
    /// Selected modules.
    pub modules: Vec<SelectedModule>,
    /// Selected providers.
    pub providers: Vec<SelectedProvider>,
    /// Compose volumes that are kept though no selected module needs them.
    pub retained_compose_volumes: Vec<String>,
    /// Ownership of files.
    pub ownership: Vec<OwnershipRecord>,
    /// Managed regions.
    pub managed_regions: Vec<ManagedRegionRecord>,
}

/// The value of an ownership record.
pub struct OwnershipModel {
    /// Project-relative path.
    pub path: Seq<char>,
    /// Owner.
    pub kind: OwnershipKind,
    /// Hash of the approved contents.
    pub approved: Option<Seq<char>>,
}

/// The value of a managed-region record.
pub struct RecordModel {
    /// Stable region identifier.
    pub id: Seq<char>,
    /// Project-relative path of the file.
    pub path: Seq<char>,
    /// Marker grammar version.
    pub marker_version: u32,
    /// Hash of the approved contents.
    pub content_hash: Seq<char>,
}

/// The value of a profile selection.
pub struct ProfileModel {
    /// Profile identifier.
    pub id: Seq<char>,
    /// Version of the profile bundle.
    pub version: Seq<char>,
    /// Modules selected beside the profile's.
    pub additions: Seq<Seq<char>>,
    /// Modules of the profile that are not selected.
    pub removals: Seq<Seq<char>>,
}

/// The value of a recorded state. Modules are pairs of identifier and version, providers pairs
/// of slot and module.
pub struct StateModel {
    /// Version of the form.
    pub schema_version: u32,
    /// Service name.
    pub service: Seq<char>,
    /// Release of the framework.
    pub framework: ReleaseModel,
    /// Profile.
    pub profile: ProfileModel,
    /// Selected modules.
    pub modules: Seq<(Seq<char>, Seq<char>)>,
    /// Selected providers.
    pub providers: Seq<(Seq<char>, Seq<char>)>,
    /// Compose volumes that are kept though no selected module needs them.
    pub retained_volumes: Seq<Seq<char>>,
    /// Ownership of files.
    pub ownership: Seq<OwnershipModel>,
    /// Managed regions.
    pub regions: Seq<RecordModel>,
}

impl OwnershipRecord {
    /// The value of this record.
    pub open spec fn view(&self) -> OwnershipModel {
        OwnershipModel {
            path: self.path@,
            kind: self.kind,
            approved: optional_view(self.approved_sha256),
        }
    }

    /// Returns a record of the same value.
    pub fn duplicate(&self) -> (copy: Self)
        ensures
            copy@ == self@,
    {
        OwnershipRecord {
            path: self.path.clone(),
            kind: self.kind,
            approved_sha256: clone_optional_text(&self.approved_sha256),
        }
    }
}

impl ManagedRegionRecord {
    /// The value of this record.
    pub open spec fn view(&self) -> RecordModel {
        RecordModel {
            id: self.id@,
            path: self.path@,
            marker_version: self.marker_version,
            content_hash: self.content_hash@,
        }
    }

    /// Returns a record of the same value.
    pub fn duplicate(&self) -> (copy: Self)
        ensures
            copy@ == self@,
    {
        ManagedRegionRecord {
            id: self.id.clone(),
            path: self.path.clone(),
            marker_version: self.marker_version,
            content_hash: self.content_hash.clone(),
        }
    }
}

impl ProfileSelection {
    /// The value of this selection.
    pub open spec fn view(&self) -> ProfileModel {
        ProfileModel {
            id: self.id@,
            version: self.version@,
            additions: texts(self.additions@),
            removals: texts(self.removals@),
        }
    }

    /// Returns a selection of the same value.
    pub fn duplicate(&self) -> (copy: Self)
        ensures
            copy@ == self@,
    {
        ProfileSelection {
            id: self.id.clone(),
            version: self.version.clone(),
            additions: clone_texts(&self.additions),
            removals: clone_texts(&self.removals),
        }
    }
}

/// The values of selected modules.
pub open spec fn module_pairs(modules: Seq<SelectedModule>) -> Seq<(Seq<char>, Seq<char>)> {
    modules.map_values(|module: SelectedModule| (module.id@, module.version@))
}

/// The values of selected providers.
pub open spec fn provider_pairs(providers: Seq<SelectedProvider>) -> Seq<(Seq<char>, Seq<char>)> {
    providers.map_values(|provider: SelectedProvider| (provider.slot@, provider.module@))
}

/// The values of ownership records.
pub open spec fn ownership_models(records: Seq<OwnershipRecord>) -> Seq<OwnershipModel> {
    records.map_values(|record: OwnershipRecord| record@)
}

/// The values of managed-region records.
pub open spec fn record_models(records: Seq<ManagedRegionRecord>) -> Seq<RecordModel> {
    records.map_values(|record: ManagedRegionRecord| record@)
}

/// The owner of the file at `path`: that of the first record with the path.
pub open spec fn owner_of(records: Seq<OwnershipModel>, path: Seq<char>) -> Option<OwnershipKind>
    decreases records.len(),
{
    if records.len() == 0 {
        None
    } else if records[0].path == path {
        Some(records[0].kind)
    } else {
        owner_of(records.drop_first(), path)
    }
}

/// The place, from `at` on, of the first record of a region of a file.
pub open spec fn record_place(
    records: Seq<RecordModel>,
    path: Seq<char>,
    id: Seq<char>,
    at: int,
) -> int
    decreases records.len() - at,
{
    if at < 0 || at >= records.len() || (records[at].path == path && records[at].id == id) {
        at
    } else {
        record_place(records, path, id, at + 1)
    }
}

/// The first record of a region of a file.
pub open spec fn record_of(records: Seq<RecordModel>, path: Seq<char>, id: Seq<char>) -> Option<
    RecordModel,
> {
    let place = record_place(records, path, id, 0);
    if place < records.len() {
        Some(records[place])
    } else {
        None
    }
}

/// The identifiers of the selected modules, in order.
pub open spec fn selected_of(state: StateModel) -> Seq<Seq<char>> {
    sorted_listing::<String>(module_ids_of(state))
}

/// Returns the identifiers of the selected modules.
pub fn selected_ids(state: &ProjectState) -> (selected: TextSet)
    ensures
        selected@ == selected_of(state@),
        is_sorted_listing::<String>(selected@, module_ids_of(state@)),
{
    let ghost all = module_ids_of(state@);
    let mut ids: Vec<String> = Vec::new();
    let mut index: usize = 0;
    while index < state.modules.len()
        invariant
            all == module_ids_of(state@),
            index <= state.modules@.len(),
            models(ids@) == all.take(index as int),
        decreases state.modules@.len() - index,
    {
        let ghost before = models(ids@);
        let id = state.modules[index].id.clone();
        let ghost value = id@;
        ids.push(id);
        proof {
            assert(all[index as int] == value);
            assert(models(ids@) =~= before.push(value));
            assert(all.take(index + 1) =~= all.take(index as int).push(value));
        }
        index += 1;
    }
    assert(all.take(index as int) =~= all);
    sort_unique(ids)
}

/// The identifiers of the selected modules, as they are recorded.
pub open spec fn module_ids_of(state: StateModel) -> Seq<Seq<char>> {
    state.modules.map_values(|module: (Seq<char>, Seq<char>)| module.0)
}

impl ProjectState {
    /// The value of this state.
    pub open spec fn view(&self) -> StateModel {
        StateModel {
            schema_version: self.schema_version,
            service: self.service@,
            framework: self.framework@,
            profile: self.profile@,
            modules: module_pairs(self.modules@),
            providers: provider_pairs(self.providers@),
            retained_volumes: texts(self.retained_compose_volumes@),
            ownership: ownership_models(self.ownership@),
            regions: record_models(self.managed_regions@),
        }
    }

    /// Returns the owner of the file at `path`.
    pub fn ownership_of(&self, path: &str) -> (kind: Option<OwnershipKind>)
        ensures
            kind == owner_of(self@.ownership, path@),
    {
        let ghost all = self@.ownership;
        let mut index: usize = 0;
        assert(all.skip(0) =~= all);
        while index < self.ownership.len()
            invariant
                all == ownership_models(self.ownership@),
                index <= all.len(),
                owner_of(all, path@) == owner_of(all.skip(index as int), path@),
            decreases all.len() - index,
        {
            let record = &self.ownership[index];
            assert(all.skip(index as int)[0] == record@);
            if same_text(record.path.as_str(), path) {
                return Some(record.kind);
            }
            assert(all.skip(index as int).drop_first() =~= all.skip(index + 1));
            index += 1;
        }
        None
    }

    /// Returns the place of the record of a region of a file.
    pub fn managed_region(&self, path: &str, id: &str) -> (found: Option<usize>)
        ensures
            ({
                let place = record_place(self@.regions, path@, id@, 0);
                match found {
                    Some(index) => place == index && index < self.managed_regions@.len(),
                    None => place == self@.regions.len(),
                }
            }),
    {
        let ghost all = self@.regions;
        let mut index: usize = 0;
        while index < self.managed_regions.len()
            invariant
                all == record_models(self.managed_regions@),
                index <= all.len(),
                record_place(all, path@, id@, 0) == record_place(all, path@, id@, index as int),
            decreases all.len() - index,
        {
            assert(all[index as int] == self.managed_regions@[index as int]@);
            if same_text(self.managed_regions[index].path.as_str(), path) && same_text(
                self.managed_regions[index].id.as_str(),
                id,
            ) {
                return Some(index);
            }
            index += 1;
        }
        None
    }

    /// Returns a state of the same value.
    pub fn duplicate(&self) -> (copy: Self)
        ensures
            copy@ == self@,
    {
        let copy = ProjectState {
            schema_version: self.schema_version,
            service: self.service.clone(),
            framework: self.framework.duplicate(),
            profile: self.profile.duplicate(),
            modules: clone_modules(&self.modules),
            providers: clone_providers(&self.providers),
            retained_compose_volumes: clone_texts(&self.retained_compose_volumes),
            ownership: clone_ownership(&self.ownership),
            managed_regions: clone_records(&self.managed_regions),
        };
        copy
    }
}

/// Copies selected modules.
pub fn clone_modules(modules: &Vec<SelectedModule>) -> (copy: Vec<SelectedModule>)
    ensures
        module_pairs(copy@) == module_pairs(modules@),
{
    let mut copy: Vec<SelectedModule> = Vec::new();
    let mut index: usize = 0;
    while index < modules.len()
        invariant
            index <= modules@.len(),
            copy@.len() == index,
            forall|i: int|
                0 <= i < index ==> (#[trigger] copy@[i]).id@ == modules@[i].id@
                    && copy@[i].version@ == modules@[i].version@,
        decreases modules@.len() - index,
    {
        let module = &modules[index];
        copy.push(SelectedModule { id: module.id.clone(), version: module.version.clone() });
        index += 1;
    }
    assert(module_pairs(copy@) =~= module_pairs(modules@));
    copy
}

/// Copies selected providers.
pub fn clone_providers(providers: &Vec<SelectedProvider>) -> (copy: Vec<SelectedProvider>)
    ensures
        provider_pairs(copy@) == provider_pairs(providers@),
{
    let mut copy: Vec<SelectedProvider> = Vec::new();
    let mut index: usize = 0;
    while index < providers.len()
        invariant
            index <= providers@.len(),
            copy@.len() == index,
            forall|i: int|
                0 <= i < index ==> (#[trigger] copy@[i]).slot@ == providers@[i].slot@
                    && copy@[i].module@ == providers@[i].module@,
        decreases providers@.len() - index,
    {
        let provider = &providers[index];
        copy.push(
            SelectedProvider { slot: provider.slot.clone(), module: provider.module.clone() },
        );
        index += 1;
    }
    assert(provider_pairs(copy@) =~= provider_pairs(providers@));
    copy
}

/// Copies ownership records.
pub fn clone_ownership(records: &Vec<OwnershipRecord>) -> (copy: Vec<OwnershipRecord>)
    ensures
        ownership_models(copy@) == ownership_models(records@),
{
    let mut copy: Vec<OwnershipRecord> = Vec::new();
    let mut index: usize = 0;
    while index < records.len()
        invariant
            index <= records@.len(),
            copy@.len() == index,
            forall|i: int| 0 <= i < index ==> (#[trigger] copy@[i])@ == records@[i]@,
        decreases records@.len() - index,
    {
        copy.push(records[index].duplicate());
        index += 1;
    }
    assert(ownership_models(copy@) =~= ownership_models(records@));
    copy
}

/// Copies managed-region records.
pub fn clone_records(records: &Vec<ManagedRegionRecord>) -> (copy: Vec<ManagedRegionRecord>)
    ensures
        record_models(copy@) == record_models(records@),
{
    let mut copy: Vec<ManagedRegionRecord> = Vec::new();
    let mut index: usize = 0;
    while index < records.len()
        invariant
            index <= records@.len(),
            copy@.len() == index,
            forall|i: int| 0 <= i < index ==> (#[trigger] copy@[i])@ == records@[i]@,
        decreases records@.len() - index,
    {
        copy.push(records[index].duplicate());
        index += 1;
    }
    assert(record_models(copy@) =~= record_models(records@));
    copy
}

} // verus!
