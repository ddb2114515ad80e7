//! Extension of module catalogs, and the shape that a base catalog's document must have.

use vstd::prelude::*;
use vstd::string::*;

use crate::findings::{first_finding, lemma_finding_prefix, lemma_finding_step, or_else};
use crate::module_checks::{contains_control, has_control, hollow, is_hollow};
use crate::modules::{
    descriptor_place, outcome, CatalogError, ComposeEnvironmentBinding, ComposeHealthcheck,
    ComposeMigration, ExternalEnvironmentBinding, ModuleCatalog, ModuleCatalogExtension,
    ModuleDefinition, RuntimeDependencyDescriptor, RuntimeDependencyId, EXTENSION_SCHEMA_VERSION,
};
use crate::ordered::{codes, codes_of};
use crate::sorting::{ranked, sort_ranked, Ranked};
use crate::yaml_text::{read_yaml, yaml_parsed, YamlValue};
use crate::text::{contains_char, join2, join3, join4, join5, join6, same_text, same_texts, texts};

verus! {

// Descriptors.
/// The value of a health check: command, interval, timeout and retries.
pub open spec fn healthcheck_value(check: ComposeHealthcheck) -> (
    Seq<Seq<char>>,
    Seq<char>,
    Seq<char>,
    u32,
) {
    (texts(check.test@), check.interval@, check.timeout@, check.retries)
}

/// The value of a Compose binding: name, value, and both flags.
pub open spec fn binding_value(binding: ComposeEnvironmentBinding) -> (
    Seq<char>,
    Seq<char>,
    bool,
    bool,
) {
    (binding.name@, binding.value@, binding.secret, binding.development_only)
}

/// The values of Compose bindings.
pub open spec fn binding_values(bindings: Seq<ComposeEnvironmentBinding>) -> Seq<
    (Seq<char>, Seq<char>, bool, bool),
> {
    bindings.map_values(|binding: ComposeEnvironmentBinding| binding_value(binding))
}

/// The values of external bindings: name, message and flag.
pub open spec fn external_values(bindings: Seq<ExternalEnvironmentBinding>) -> Seq<
    (Seq<char>, Seq<char>, bool),
> {
    bindings.map_values(
        |binding: ExternalEnvironmentBinding| (binding.name@, binding.message@, binding.credential),
    )
}

/// The value of a migration: module and command.
pub open spec fn migration_value(migration: Option<ComposeMigration>) -> Option<
    (Seq<char>, Seq<Seq<char>>),
> {
    match migration {
        Some(owner) => Some((owner.required_module@, texts(owner.command@))),
        None => None,
    }
}

/// Whether two descriptors say the same.
pub open spec fn same_descriptor(
    left: RuntimeDependencyDescriptor,
    right: RuntimeDependencyDescriptor,
) -> bool {
    match (left, right) {
        (
            RuntimeDependencyDescriptor::Compose {
                id,
                service,
                image,
                volume,
                volume_mount,
                healthcheck,
                service_environment,
                application_environment,
                migration,
            },
            RuntimeDependencyDescriptor::Compose {
                id: other_id,
                service: other_service,
                image: other_image,
                volume: other_volume,
                volume_mount: other_mount,
                healthcheck: other_healthcheck,
                service_environment: other_service_environment,
                application_environment: other_application_environment,
                migration: other_migration,
            },
        ) => {
            &&& id == other_id
            &&& service@ == other_service@
            &&& image@ == other_image@
            &&& volume@ == other_volume@
            &&& volume_mount@ == other_mount@
            &&& healthcheck_value(*healthcheck) == healthcheck_value(*other_healthcheck)
            &&& binding_values(service_environment@) == binding_values(other_service_environment@)
            &&& binding_values(application_environment@) == binding_values(
                other_application_environment@,
            )
            &&& migration_value(migration) == migration_value(other_migration)
        },
        (
            RuntimeDependencyDescriptor::External { id, bindings },
            RuntimeDependencyDescriptor::External { id: other_id, bindings: other_bindings },
        ) => id == other_id && external_values(bindings@) == external_values(other_bindings@),
        _ => false,
    }
}

fn same_bindings(
    left: &Vec<ComposeEnvironmentBinding>,
    right: &Vec<ComposeEnvironmentBinding>,
) -> (same: bool)
    ensures
        same == (binding_values(left@) == binding_values(right@)),
{
    let ghost left_all = binding_values(left@);
    let ghost right_all = binding_values(right@);
    if left.len() != right.len() {
        assert(left_all.len() != right_all.len());
        return false;
    }
    let mut index: usize = 0;
    while index < left.len()
        invariant
            left_all == binding_values(left@),
            right_all == binding_values(right@),
            left@.len() == right@.len(),
            index <= left@.len(),
            forall|i: int| 0 <= i < index ==> left_all[i] == right_all[i],
        decreases left@.len() - index,
    {
        let a = &left[index];
        let b = &right[index];
        assert(left_all[index as int] == binding_value(*a));
        assert(right_all[index as int] == binding_value(*b));
        if !(same_text(a.name.as_str(), b.name.as_str()) && same_text(
            a.value.as_str(),
            b.value.as_str(),
        ) && a.secret == b.secret && a.development_only == b.development_only) {
            return false;
        }
        index += 1;
    }
    assert(left_all =~= right_all);
    true
}

fn same_external(
    left: &Vec<ExternalEnvironmentBinding>,
    right: &Vec<ExternalEnvironmentBinding>,
) -> (same: bool)
    ensures
        same == (external_values(left@) == external_values(right@)),
{
    let ghost left_all = external_values(left@);
    let ghost right_all = external_values(right@);
    if left.len() != right.len() {
        assert(left_all.len() != right_all.len());
        return false;
    }
    let mut index: usize = 0;
    while index < left.len()
        invariant
            left_all == external_values(left@),
            right_all == external_values(right@),
            left@.len() == right@.len(),
            index <= left@.len(),
            forall|i: int| 0 <= i < index ==> left_all[i] == right_all[i],
        decreases left@.len() - index,
    {
        let a = &left[index];
        let b = &right[index];
        assert(left_all[index as int] == (a.name@, a.message@, a.credential));
        assert(right_all[index as int] == (b.name@, b.message@, b.credential));
        if !(same_text(a.name.as_str(), b.name.as_str()) && same_text(
            a.message.as_str(),
            b.message.as_str(),
        ) && a.credential == b.credential) {
            return false;
        }
        index += 1;
    }
    assert(left_all =~= right_all);
    true
}

fn same_migration(left: &Option<ComposeMigration>, right: &Option<ComposeMigration>) -> (same: bool)
    ensures
        same == (migration_value(*left) == migration_value(*right)),
{
    match (left, right) {
        (Some(a), Some(b)) => same_text(a.required_module.as_str(), b.required_module.as_str())
            && same_texts(&a.command, &b.command),
        (None, None) => true,
        _ => false,
    }
}

fn same_healthcheck(left: &ComposeHealthcheck, right: &ComposeHealthcheck) -> (same: bool)
    ensures
        same == (healthcheck_value(*left) == healthcheck_value(*right)),
{
    same_texts(&left.test, &right.test) && same_text(
        left.interval.as_str(),
        right.interval.as_str(),
    ) && same_text(left.timeout.as_str(), right.timeout.as_str()) && left.retries == right.retries
}

impl RuntimeDependencyDescriptor {
    /// Returns whether two descriptors say the same.
    pub fn same(&self, other: &Self) -> (same: bool)
        ensures
            same == same_descriptor(*self, *other),
    {
        match (self, other) {
            (
                RuntimeDependencyDescriptor::Compose {
                    id,
                    service,
                    image,
                    volume,
                    volume_mount,
                    healthcheck,
                    service_environment,
                    application_environment,
                    migration,
                },
                RuntimeDependencyDescriptor::Compose {
                    id: other_id,
                    service: other_service,
                    image: other_image,
                    volume: other_volume,
                    volume_mount: other_mount,
                    healthcheck: other_healthcheck,
                    service_environment: other_service_environment,
                    application_environment: other_application_environment,
                    migration: other_migration,
                },
            ) => *id == *other_id && same_text(service.as_str(), other_service.as_str())
                && same_text(image.as_str(), other_image.as_str()) && same_text(
                volume.as_str(),
                other_volume.as_str(),
            ) && same_text(volume_mount.as_str(), other_mount.as_str()) && same_healthcheck(
                healthcheck,
                other_healthcheck,
            ) && same_bindings(service_environment, other_service_environment) && same_bindings(
                application_environment,
                other_application_environment,
            ) && same_migration(migration, other_migration),
            (
                RuntimeDependencyDescriptor::External { id, bindings },
                RuntimeDependencyDescriptor::External { id: other_id, bindings: other_bindings },
            ) => *id == *other_id && same_external(bindings, other_bindings),
            _ => false,
        }
    }
}

// Merging.
/// Whether the first descriptor of the same dependency in `known` says something else.
pub open spec fn contradicts(
    known: Seq<RuntimeDependencyDescriptor>,
    descriptor: RuntimeDependencyDescriptor,
) -> bool {
    let place = descriptor_place(known, descriptor.dependency_id(), 0);
    place < known.len() && !same_descriptor(known[place], descriptor)
}

/// Whether `known` has a descriptor of the same dependency.
pub open spec fn is_known(
    known: Seq<RuntimeDependencyDescriptor>,
    descriptor: RuntimeDependencyDescriptor,
) -> bool {
    descriptor_place(known, descriptor.dependency_id(), 0) < known.len()
}

/// The descriptors `known` with the first `count` of `list`, up to one that contradicts.
pub open spec fn merged(
    known: Seq<RuntimeDependencyDescriptor>,
    list: Seq<RuntimeDependencyDescriptor>,
    count: int,
) -> Seq<RuntimeDependencyDescriptor>
    decreases count,
{
    if count <= 0 {
        known
    } else {
        let before = merged(known, list, count - 1);
        if merge_conflict(known, list, count - 1) is Some || is_known(before, list[count - 1]) {
            before
        } else {
            before.push(list[count - 1])
        }
    }
}

/// The dependency of the first of the first `count` descriptors of `list` that contradicts.
pub open spec fn merge_conflict(
    known: Seq<RuntimeDependencyDescriptor>,
    list: Seq<RuntimeDependencyDescriptor>,
    count: int,
) -> Option<RuntimeDependencyId>
    decreases count,
{
    if count <= 0 {
        None
    } else {
        or_else(
            merge_conflict(known, list, count - 1),
            if contradicts(merged(known, list, count - 1), list[count - 1]) {
                Some(list[count - 1].dependency_id())
            } else {
                None
            },
        )
    }
}

proof fn lemma_conflict_stays(
    known: Seq<RuntimeDependencyDescriptor>,
    list: Seq<RuntimeDependencyDescriptor>,
    count: int,
    total: int,
)
    requires
        merge_conflict(known, list, count) is Some,
        count <= total,
    ensures
        merge_conflict(known, list, total) == merge_conflict(known, list, count),
        merged(known, list, total) == merged(known, list, count),
    decreases total - count,
{
    if count < total {
        lemma_conflict_stays(known, list, count, total - 1);
    }
}

fn find_descriptor(known: &Vec<RuntimeDependencyDescriptor>, id: RuntimeDependencyId) -> (found: Option<
    usize,
>)
    ensures
        match found {
            Some(place) => place < known@.len() && descriptor_place(known@, id, 0) == place,
            None => descriptor_place(known@, id, 0) >= known@.len(),
        },
{
    let mut index: usize = 0;
    while index < known.len()
        invariant
            index <= known@.len(),
            descriptor_place(known@, id, 0) == descriptor_place(known@, id, index as int),
        decreases known@.len() - index,
    {
        if known[index].id() == id {
            return Some(index);
        }
        index += 1;
    }
    None
}

/// Merges descriptors into those that are known; returns the dependency of one that contradicts.
fn merge_descriptors(
    known: &mut Vec<RuntimeDependencyDescriptor>,
    list: Vec<RuntimeDependencyDescriptor>,
) -> (conflict: Option<RuntimeDependencyId>)
    ensures
        conflict == merge_conflict(old(known)@, list@, list@.len() as int),
        final(known)@ == merged(old(known)@, list@, list@.len() as int),
{
    let ghost start = known@;
    let ghost all = list@;
    let total: usize = list.len();
    let mut rest = list;
    let mut count: usize = 0;
    assert(all.skip(0) =~= all);
    while rest.len() > 0
        invariant
            start == old(known)@,
            all == list@,
            total == all.len(),
            count <= all.len(),
            rest@ == all.skip(count as int),
            merge_conflict(start, all, count as int) is None,
            known@ == merged(start, all, count as int),
        decreases rest@.len(),
    {
        let descriptor = rest.remove(0);
        proof {
            assert(descriptor == all[count as int]);
            assert(rest@ =~= all.skip(count + 1));
        }
        let id = descriptor.id();
        match find_descriptor(known, id) {
            Some(place) => {
                if !known[place].same(&descriptor) {
                    proof {
                        lemma_conflict_stays(start, all, count + 1, all.len() as int);
                    }
                    return Some(id);
                }
            },
            None => {
                known.push(descriptor);
            },
        }
        proof {
            assert(all.skip(count as int).len() > 0);
        }
        count += 1;
    }
    assert(count == all.len());
    None
}

// Sorting.
impl Ranked for ModuleDefinition {
    open spec fn rank(&self) -> Seq<u32> {
        codes(self.id@)
    }

    fn rank_codes(&self) -> (codes: Vec<u32>) {
        codes_of(self.id.as_str())
    }
}

// Extension.
/// What keeps an extension from fitting a catalog.
pub open spec fn extension_defect(
    catalog: ModuleCatalog,
    label: Seq<char>,
    extension: ModuleCatalogExtension,
    required_web: Option<Seq<char>>,
) -> Option<Seq<char>> {
    if extension.schema_version@ != EXTENSION_SCHEMA_VERSION@ {
        Some(
            "unsupported "@ + label + " module catalog schema version "@
                + extension.schema_version@ + "; expected "@ + EXTENSION_SCHEMA_VERSION@,
        )
    } else if extension.extension_version@.len() == 0 {
        Some(label + " module catalog extension_version is empty"@)
    } else if extension.base_bundle_version@ != catalog.bundle_version@ {
        Some(
            label + " module catalog requires base bundle "@ + extension.base_bundle_version@
                + "; bundled base is "@ + catalog.bundle_version@,
        )
    } else {
        match required_web {
            None => None,
            Some(required) => match extension.web_extension_version {
                None => Some(label + " module catalog must declare web_extension_version"@),
                Some(actual) => if actual@ != required {
                    Some(
                        label + " module catalog requires web extension "@ + actual@
                            + "; bundled web extension is "@ + required,
                    )
                } else {
                    None
                },
            },
        }
    }
}

impl ModuleCatalog {
    /// Extends this catalog, and returns the version of the extension.
    ///
    /// Descriptors that the catalog already has are inherited and must agree; modules are
    /// appended in the order of their identifiers.
    pub fn append_extension(
        &mut self,
        label: &str,
        extension: ModuleCatalogExtension,
        required_web_extension_version: Option<&str>,
    ) -> (result: Result<String, CatalogError>)
        ensures
            ({
                let required = match required_web_extension_version {
                    Some(version) => Some(version@),
                    None => None,
                };
                let list = extension.runtime_dependencies@;
                let known = old(self).runtime_dependencies@;
                let defect = extension_defect(*old(self), label@, extension, required);
                let conflict = merge_conflict(known, list, list.len() as int);
                &&& final(self).schema_version == old(self).schema_version
                &&& final(self).bundle_version == old(self).bundle_version
                &&& match result {
                    Ok(version) => {
                        &&& defect is None && conflict is None
                        &&& version@ == extension.extension_version@
                        &&& final(self).runtime_dependencies@ == merged(
                            known,
                            list,
                            list.len() as int,
                        )
                        &&& final(self).modules@ == old(self).modules@ + ranked(
                            extension.modules@,
                            extension.modules@.len() as int,
                        )
                    },
                    Err(error) => {
                        &&& final(self).modules@ == old(self).modules@
                        &&& match defect {
                            Some(message) => error.text() == message
                                && final(self).runtime_dependencies@ == known,
                            None => conflict is Some && error.text() == label@
                                + " module catalog defines a conflicting inherited runtime dependency `"@
                                + conflict->Some_0.text() + "`"@
                                && final(self).runtime_dependencies@ == merged(
                                known,
                                list,
                                list.len() as int,
                            ),
                        }
                    },
                }
            }),
    {
        if !same_text(extension.schema_version.as_str(), EXTENSION_SCHEMA_VERSION) {
            return Err(
                CatalogError::new(
                    join6(
                        "unsupported ",
                        label,
                        " module catalog schema version ",
                        extension.schema_version.as_str(),
                        "; expected ",
                        EXTENSION_SCHEMA_VERSION,
                    ),
                ),
            );
        }
        if extension.extension_version.as_str().is_empty() {
            return Err(
                CatalogError::new(join2(label, " module catalog extension_version is empty")),
            );
        }
        if !same_text(extension.base_bundle_version.as_str(), self.bundle_version.as_str()) {
            return Err(
                CatalogError::new(
                    join5(
                        label,
                        " module catalog requires base bundle ",
                        extension.base_bundle_version.as_str(),
                        "; bundled base is ",
                        self.bundle_version.as_str(),
                    ),
                ),
            );
        }
        if let Some(required) = required_web_extension_version {
            match &extension.web_extension_version {
                None => {
                    return Err(
                        CatalogError::new(
                            join2(label, " module catalog must declare web_extension_version"),
                        ),
                    );
                },
                Some(actual) => {
                    if !same_text(actual.as_str(), required) {
                        return Err(
                            CatalogError::new(
                                join5(
                                    label,
                                    " module catalog requires web extension ",
                                    actual.as_str(),
                                    "; bundled web extension is ",
                                    required,
                                ),
                            ),
                        );
                    }
                },
            }
        }
        match merge_descriptors(&mut self.runtime_dependencies, extension.runtime_dependencies) {
            Some(id) => {
                return Err(
                    CatalogError::new(
                        join4(
                            label,
                            " module catalog defines a conflicting inherited runtime dependency `",
                            id.as_str(),
                            "`",
                        ),
                    ),
                );
            },
            None => {},
        }
        let mut sorted = sort_ranked(extension.modules);
        self.modules.append(&mut sorted);
        Ok(extension.extension_version)
    }
}

// The shape of a base catalog.
/// Whether a managed-region declaration cannot be used.
pub open spec fn is_invalid_declaration(declaration: Seq<char>, path_reference: bool) -> bool {
    is_hollow(declaration) || has_control(declaration) || (path_reference
        && !declaration.contains('#'))
}

/// The check of a managed-region item.
pub open spec fn wire_region_check(path_reference: bool) -> spec_fn(YamlValue) -> Option<Seq<char>> {
    |item: YamlValue|
        match item.text() {
            None => Some("module managed region must be a string"@),
            Some(declaration) => if is_invalid_declaration(declaration, path_reference) {
                Some("invalid managed region declaration `"@ + declaration + "`"@)
            } else {
                None
            },
        }
}

/// The managed regions of a module entry.
pub open spec fn wire_regions(module: YamlValue) -> Option<Seq<YamlValue>> {
    match module.entry("generator_ownership"@) {
        Some(ownership) => match ownership.entry("managed_regions"@) {
            Some(regions) => regions.items(),
            None => None,
        },
        None => None,
    }
}

/// What is wrong with the managed regions of a module entry.
pub open spec fn wire_regions_defect(module: YamlValue, path_reference: bool) -> Option<Seq<char>> {
    match wire_regions(module) {
        None => Some("module managed_regions must be a sequence"@),
        Some(items) => first_finding(items, wire_region_check(path_reference)),
    }
}

/// The check that a module entry is a mapping.
pub open spec fn wire_mapping_check() -> spec_fn(YamlValue) -> Option<Seq<char>> {
    |module: YamlValue|
        if module is Mapping {
            None
        } else {
            Some("base module catalog module must be a mapping"@)
        }
}

/// The check of a module entry.
pub open spec fn wire_module_check() -> spec_fn(YamlValue) -> Option<Seq<char>> {
    |module: YamlValue|
        if module.entry("provider_slot"@) is None {
            Some("base module catalog entries must explicitly declare provider_slot"@)
        } else {
            wire_regions_defect(module, true)
        }
}

/// What is wrong with the shape of a base catalog.
pub open spec fn wire_defect(document: YamlValue) -> Option<Seq<char>> {
    if !(document is Mapping) {
        Some("base module catalog root must be a mapping"@)
    } else {
        match document.entry("modules"@) {
            Some(value) => match value.items() {
                Some(modules) => or_else(
                    first_finding(modules, wire_mapping_check()),
                    first_finding(modules, wire_module_check()),
                ),
                None => Some("base module catalog modules must be a sequence"@),
            },
            None => Some("base module catalog modules must be a sequence"@),
        }
    }
}

/// Checks the managed regions of a module entry.
pub fn validate_wire_managed_regions(module: &YamlValue, require_path_reference: bool) -> (result:
    Result<(), CatalogError>)
    ensures
        outcome(result) == wire_regions_defect(*module, require_path_reference),
{
    let regions = match module.get("generator_ownership") {
        Some(ownership) => match ownership.get("managed_regions") {
            Some(regions) => regions.as_list(),
            None => None,
        },
        None => None,
    };
    let items = match regions {
        Some(items) => items,
        None => {
            return Err(
                CatalogError::new("module managed_regions must be a sequence".to_owned()),
            );
        },
    };
    let ghost check = wire_region_check(require_path_reference);
    let mut index: usize = 0;
    while index < items.len()
        invariant
            check == wire_region_check(require_path_reference),
            wire_regions_defect(*module, require_path_reference) == first_finding(items@, check),
            index <= items@.len(),
            first_finding(items@.take(index as int), check) is None,
        decreases items@.len() - index,
    {
        proof {
            lemma_finding_step(items@, index as int, check);
            if check(items@[index as int]) is Some {
                lemma_finding_prefix(items@, index + 1, check);
            }
        }
        match items[index].as_text() {
            None => {
                return Err(
                    CatalogError::new("module managed region must be a string".to_owned()),
                );
            },
            Some(declaration) => {
                if hollow(declaration) || contains_control(declaration) || (require_path_reference
                    && !contains_char(declaration, '#')) {
                    return Err(
                        CatalogError::new(
                            join3("invalid managed region declaration `", declaration, "`"),
                        ),
                    );
                }
            },
        }
        index += 1;
    }
    assert(items@.take(index as int) =~= items@);
    Ok(())
}

/// Returns the module entries of a catalog document.
fn wire_modules(document: &YamlValue) -> (result: Result<&Vec<YamlValue>, CatalogError>)
    ensures
        match result {
            Ok(modules) => document is Mapping && document.entry("modules"@) is Some
                && document.entry("modules"@)->Some_0.items() == Some(modules@) && first_finding(
                modules@,
                wire_mapping_check(),
            ) is None,
            Err(error) => wire_defect(*document) == Some(error.text()),
        },
{
    if !document.is_mapping() {
        return Err(CatalogError::new("base module catalog root must be a mapping".to_owned()));
    }
    let listed = match document.get("modules") {
        Some(value) => value.as_list(),
        None => None,
    };
    let modules = match listed {
        Some(modules) => modules,
        None => {
            return Err(
                CatalogError::new("base module catalog modules must be a sequence".to_owned()),
            );
        },
    };
    let ghost mapping = wire_mapping_check();
    let mut index: usize = 0;
    while index < modules.len()
        invariant
            document is Mapping,
            document.entry("modules"@) is Some,
            document.entry("modules"@)->Some_0.items() == Some(modules@),
            mapping == wire_mapping_check(),
            index <= modules@.len(),
            first_finding(modules@.take(index as int), mapping) is None,
        decreases modules@.len() - index,
    {
        proof {
            lemma_finding_step(modules@, index as int, mapping);
        }
        if !modules[index].is_mapping() {
            proof {
                lemma_finding_prefix(modules@, index + 1, mapping);
            }
            return Err(
                CatalogError::new("base module catalog module must be a mapping".to_owned()),
            );
        }
        index += 1;
    }
    assert(modules@.take(index as int) =~= modules@);
    Ok(modules)
}

/// Checks the shape of a parsed base catalog.
pub fn validate_wire_document(document: &YamlValue) -> (result: Result<(), CatalogError>)
    ensures
        outcome(result) == wire_defect(*document),
{
    let modules = match wire_modules(document) {
        Ok(modules) => modules,
        Err(error) => {
            return Err(error);
        },
    };
    let ghost check = wire_module_check();
    let mut index: usize = 0;
    while index < modules.len()
        invariant
            check == wire_module_check(),
            wire_defect(*document) == first_finding(modules@, check),
            index <= modules@.len(),
            first_finding(modules@.take(index as int), check) is None,
        decreases modules@.len() - index,
    {
        proof {
            lemma_finding_step(modules@, index as int, check);
            if check(modules@[index as int]) is Some {
                lemma_finding_prefix(modules@, index + 1, check);
            }
        }
        if modules[index].get("provider_slot").is_none() {
            return Err(
                CatalogError::new(
                    "base module catalog entries must explicitly declare provider_slot".to_owned(),
                ),
            );
        }
        match validate_wire_managed_regions(&modules[index], true) {
            Ok(()) => {},
            Err(error) => {
                return Err(error);
            },
        }
        index += 1;
    }
    assert(modules@.take(index as int) =~= modules@);
    Ok(())
}

/// Checks the shape of a base catalog.
pub fn validate_base_wire_shape(source: &str) -> (result: Result<(), CatalogError>)
    ensures
        outcome(result) == (match yaml_parsed(source@) {
            Err(message) => Some("invalid base module catalog: "@ + message),
            Ok(document) => wire_defect(document),
        }),
{
    match read_yaml(source) {
        Ok(document) => validate_wire_document(&document),
        Err(message) => Err(
            CatalogError::new(join2("invalid base module catalog: ", message.as_str())),
        ),
    }
}

} // verus!
