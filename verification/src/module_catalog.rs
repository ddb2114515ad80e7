//! Whole module catalogs: their validity and extension, and the selections they allow.

use vstd::prelude::*;
use vstd::string::*;

use crate::configuration_checks::{
    configuration_defect, environment_key, hierarchical_environment_key, validate_configuration,
};
use crate::dependency_checks::{registry_defect, validate_runtime_dependency_registry};
use crate::findings::{first_finding, lemma_finding_prefix, lemma_finding_step, or_else};
use crate::module_checks::{
    composition_defect, id_defect, lemma_seen_grows, ownership_defect, repeats, unique_defect,
    validate_composition, validate_id, validate_ownership, validate_unique_list,
};
use crate::modules::{
    outcome, CatalogError, ComposeEnvironmentBinding, ComposeMigration, ModuleCatalog,
    ModuleDefinition, RuntimeDependencyDescriptor, RuntimeDependencyId,
    MODULE_CATALOG_SCHEMA_VERSION,
};
use crate::ordered::{set_add, Sorted, TextSet};
use crate::selection::collect;
use crate::text::{decimal, decimal_text, holds_text, join3, join4, join5, same_text, texts};

verus! {

/// The identifiers of modules.
pub open spec fn module_ids(modules: Seq<ModuleDefinition>) -> Seq<Seq<char>> {
    modules.map_values(|module: ModuleDefinition| module.id@)
}

// Modules.
/// Whether an earlier runtime dependency than the one at `at` is the same.
pub open spec fn dependency_repeats(list: Seq<RuntimeDependencyId>, at: int) -> bool {
    exists|j: int| 0 <= j < at && #[trigger] list[j] == list[at]
}

/// What is wrong with the first `count` runtime dependencies of a module.
pub open spec fn dependencies_defect(
    catalog: ModuleCatalog,
    module: ModuleDefinition,
    count: int,
) -> Option<Seq<char>>
    decreases count,
{
    if count <= 0 {
        None
    } else {
        let id = module.runtime_dependencies@[count - 1];
        or_else(
            dependencies_defect(catalog, module, count - 1),
            if dependency_repeats(module.runtime_dependencies@, count - 1) {
                Some(
                    "module `"@ + module.id@ + "` has duplicate runtime dependency `"@ + id.text()
                        + "`"@,
                )
            } else if catalog.find_dependency(id) is None {
                Some(
                    "module `"@ + module.id@ + "` references unknown runtime dependency `"@
                        + id.text() + "`"@,
                )
            } else {
                None
            },
        )
    }
}

/// What is wrong with the module at `at` apart from its references to other modules.
pub open spec fn module_defect(
    catalog: ModuleCatalog,
    workspace: Seq<Seq<char>>,
    at: int,
) -> Option<Seq<char>> {
    let module = catalog.modules@[at];
    or_else(
        id_defect(module.id@),
        if repeats(module_ids(catalog.modules@), at) {
            Some("duplicate module id `"@ + module.id@ + "`"@)
        } else if module.version@.len() == 0 {
            Some("module `"@ + module.id@ + "` has an empty version"@)
        } else {
            or_else(
                unique_defect(texts(module.prerequisites@), module.id@, "requires"@),
                or_else(
                    unique_defect(texts(module.conflicts_with@), module.id@, "conflicts_with"@),
                    module_content_defect(catalog, workspace, module),
                ),
            )
        },
    )
}

/// What is wrong with the contents of a module.
pub open spec fn module_content_defect(
    catalog: ModuleCatalog,
    workspace: Seq<Seq<char>>,
    module: ModuleDefinition,
) -> Option<Seq<char>> {
    if texts(module.prerequisites@).contains(module.id@) {
        Some("module `"@ + module.id@ + "` requires itself"@)
    } else if texts(module.conflicts_with@).contains(module.id@) {
        Some("module `"@ + module.id@ + "` conflicts with itself"@)
    } else if module.provider_slot is Some && module.provider_slot->Some_0@.len() == 0 {
        Some("module `"@ + module.id@ + "` has an empty provider slot"@)
    } else {
        or_else(
            ownership_defect(module),
            or_else(
                composition_defect(module, workspace),
                or_else(
                    configuration_defect(module),
                    dependencies_defect(
                        catalog,
                        module,
                        module.runtime_dependencies@.len() as int,
                    ),
                ),
            ),
        )
    }
}

/// What is wrong with the first `count` modules apart from their references to other modules.
pub open spec fn modules_defect(
    catalog: ModuleCatalog,
    workspace: Seq<Seq<char>>,
    count: int,
) -> Option<Seq<char>>
    decreases count,
{
    if count <= 0 {
        None
    } else {
        or_else(
            modules_defect(catalog, workspace, count - 1),
            module_defect(catalog, workspace, count - 1),
        )
    }
}

/// The check that a prerequisite of `module` is known.
pub open spec fn known_prerequisite_check(catalog: ModuleCatalog, module: Seq<char>) -> spec_fn(
    Seq<char>,
) -> Option<Seq<char>> {
    |id: Seq<char>|
        if catalog.has_module(id) {
            None
        } else {
            Some("module `"@ + module + "` requires unknown module `"@ + id + "`"@)
        }
}

/// The check that a module that `module` excludes is known.
pub open spec fn known_conflict_check(catalog: ModuleCatalog, module: Seq<char>) -> spec_fn(
    Seq<char>,
) -> Option<Seq<char>> {
    |id: Seq<char>|
        if catalog.has_module(id) {
            None
        } else {
            Some("module `"@ + module + "` conflicts with unknown module `"@ + id + "`"@)
        }
}

/// The check that a module refers to known modules only.
pub open spec fn reference_check(catalog: ModuleCatalog) -> spec_fn(ModuleDefinition) -> Option<
    Seq<char>,
> {
    |module: ModuleDefinition|
        or_else(
            first_finding(
                texts(module.prerequisites@),
                known_prerequisite_check(catalog, module.id@),
            ),
            first_finding(
                texts(module.conflicts_with@),
                known_conflict_check(catalog, module.id@),
            ),
        )
}

// Migrations.
/// Whether a module declares the configuration that an environment key sets.
pub open spec fn declares_key(catalog: ModuleCatalog, key: Seq<char>) -> bool {
    exists|i: int, j: int|
        0 <= i < catalog.modules@.len() && 0 <= j
            < catalog.modules@[i].configuration.fields@.len() && environment_key(
            (#[trigger] catalog.modules@[i].configuration.fields@[j]).path@,
        ) == key
}

/// The check that a binding sets configuration that a module declares.
pub open spec fn declared_binding_check(
    catalog: ModuleCatalog,
    id: RuntimeDependencyId,
) -> spec_fn(ComposeEnvironmentBinding) -> Option<Seq<char>> {
    |binding: ComposeEnvironmentBinding|
        if declares_key(catalog, binding.name@) {
            None
        } else {
            Some(
                "runtime dependency `"@ + id.text()
                    + "` binds undeclared application configuration `"@ + binding.name@ + "`"@,
            )
        }
}

/// What is wrong with the ownership of migrations.
pub open spec fn migration_owner_defect(
    catalog: ModuleCatalog,
    id: RuntimeDependencyId,
    migration: ComposeMigration,
) -> Option<Seq<char>> {
    if migration.required_module@ != "migrations"@ {
        Some(
            "runtime dependency `"@ + id.text()
                + "` migration ownership must require the `migrations` module"@,
        )
    } else {
        match catalog.find(migration.required_module@) {
            None => Some(
                "runtime dependency `"@ + id.text()
                    + "` owns migrations without the migrations module"@,
            ),
            Some(owner) => if owner.runtime_dependencies@.contains(id) {
                None
            } else {
                Some(
                    "migrations module does not reference runtime dependency `"@ + id.text()
                        + "`"@,
                )
            },
        }
    }
}

/// The check that a runtime dependency sets declared configuration, and that its migrations are
/// owned.
pub open spec fn migration_check(catalog: ModuleCatalog) -> spec_fn(RuntimeDependencyId) -> Option<
    Seq<char>,
> {
    |id: RuntimeDependencyId|
        match catalog.find_dependency(id) {
            Some(
                RuntimeDependencyDescriptor::Compose { application_environment, migration, .. },
            ) => or_else(
                first_finding(application_environment@, declared_binding_check(catalog, id)),
                match migration {
                    Some(owner) => migration_owner_defect(catalog, id, owner),
                    None => None,
                },
            ),
            _ => None,
        }
}

/// What is wrong with the prerequisites of the first `count` modules: a cycle among them.
pub open spec fn cycles_defect(catalog: ModuleCatalog, count: int) -> Option<Seq<char>>
    decreases count,
{
    if count <= 0 {
        None
    } else {
        or_else(
            cycles_defect(catalog, count - 1),
            match collect(catalog, catalog.modules@[count - 1].id@, Seq::empty(), Set::empty()) {
                Ok(_) => None,
                Err(message) => Some(message),
            },
        )
    }
}

/// What is wrong with a catalog, given the dependencies of the workspace.
pub open spec fn catalog_defect(catalog: ModuleCatalog, workspace: Seq<Seq<char>>) -> Option<
    Seq<char>,
> {
    if catalog.schema_version != MODULE_CATALOG_SCHEMA_VERSION {
        Some(
            "unsupported module catalog schema version "@ + decimal(catalog.schema_version as nat)
                + "; expected "@ + decimal(MODULE_CATALOG_SCHEMA_VERSION as nat),
        )
    } else if catalog.bundle_version@.len() == 0 {
        Some("module catalog bundle_version is empty"@)
    } else {
        or_else(
            registry_defect(catalog.runtime_dependencies@),
            or_else(
                modules_defect(catalog, workspace, catalog.modules@.len() as int),
                or_else(
                    first_finding(catalog.modules@, reference_check(catalog)),
                    or_else(
                        first_finding(RuntimeDependencyId::every(), migration_check(catalog)),
                        cycles_defect(catalog, catalog.modules@.len() as int),
                    ),
                ),
            ),
        )
    }
}

proof fn lemma_dependencies_stay(
    catalog: ModuleCatalog,
    module: ModuleDefinition,
    count: int,
    total: int,
)
    requires
        dependencies_defect(catalog, module, count) is Some,
        count <= total,
    ensures
        dependencies_defect(catalog, module, total) == dependencies_defect(
            catalog,
            module,
            count,
        ),
    decreases total - count,
{
    if count < total {
        lemma_dependencies_stay(catalog, module, count, total - 1);
    }
}

proof fn lemma_modules_stay(
    catalog: ModuleCatalog,
    workspace: Seq<Seq<char>>,
    count: int,
    total: int,
)
    requires
        modules_defect(catalog, workspace, count) is Some,
        count <= total,
    ensures
        modules_defect(catalog, workspace, total) == modules_defect(catalog, workspace, count),
    decreases total - count,
{
    if count < total {
        lemma_modules_stay(catalog, workspace, count, total - 1);
    }
}

proof fn lemma_cycles_stay(catalog: ModuleCatalog, count: int, total: int)
    requires
        cycles_defect(catalog, count) is Some,
        count <= total,
    ensures
        cycles_defect(catalog, total) == cycles_defect(catalog, count),
    decreases total - count,
{
    if count < total {
        lemma_cycles_stay(catalog, count, total - 1);
    }
}

/// In a catalog without a defect the prerequisites of every module can be collected.
pub proof fn lemma_valid_collects(
    catalog: ModuleCatalog,
    workspace: Seq<Seq<char>>,
    at: int,
)
    requires
        catalog_defect(catalog, workspace) is None,
        0 <= at < catalog.modules@.len(),
    ensures
        collect(catalog, catalog.modules@[at].id@, Seq::empty(), Set::empty()) is Ok,
{
    if collect(catalog, catalog.modules@[at].id@, Seq::empty(), Set::empty()) is Err {
        assert(cycles_defect(catalog, at + 1) is Some);
        lemma_cycles_stay(catalog, at + 1, catalog.modules@.len() as int);
    }
}

/// In a catalog without a defect no two modules have the same identifier.
pub proof fn lemma_valid_ids(catalog: ModuleCatalog, workspace: Seq<Seq<char>>, i: int, j: int)
    requires
        catalog_defect(catalog, workspace) is None,
        0 <= i < j < catalog.modules@.len(),
    ensures
        catalog.modules@[i].id@ != catalog.modules@[j].id@,
{
    let ids = module_ids(catalog.modules@);
    if catalog.modules@[i].id@ == catalog.modules@[j].id@ {
        assert(ids[i] == ids[j]);
        assert(repeats(ids, j));
        assert(module_defect(catalog, workspace, j) is Some);
        assert(modules_defect(catalog, workspace, j + 1) is Some);
        lemma_modules_stay(catalog, workspace, j + 1, catalog.modules@.len() as int);
    }
}

impl ModuleCatalog {
    fn validate_dependencies(&self, module: &ModuleDefinition) -> (result: Result<
        (),
        CatalogError,
    >)
        ensures
            outcome(result) == dependencies_defect(
                *self,
                *module,
                module.runtime_dependencies@.len() as int,
            ),
    {
        let ghost list = module.runtime_dependencies@;
        let ghost total = list.len() as int;
        let mut index: usize = 0;
        while index < module.runtime_dependencies.len()
            invariant
                list == module.runtime_dependencies@,
                total == list.len(),
                index <= total,
                dependencies_defect(*self, *module, index as int) is None,
            decreases total - index,
        {
            let id = module.runtime_dependencies[index];
            proof {
                if dependencies_defect(*self, *module, index + 1) is Some {
                    lemma_dependencies_stay(*self, *module, index + 1, total);
                }
            }
            if repeats_id(&module.runtime_dependencies, index) {
                return Err(
                    CatalogError::new(
                        join5(
                            "module `",
                            module.id.as_str(),
                            "` has duplicate runtime dependency `",
                            id.as_str(),
                            "`",
                        ),
                    ),
                );
            }
            if self.runtime_dependency(id).is_none() {
                return Err(
                    CatalogError::new(
                        join5(
                            "module `",
                            module.id.as_str(),
                            "` references unknown runtime dependency `",
                            id.as_str(),
                            "`",
                        ),
                    ),
                );
            }
            index += 1;
        }
        Ok(())
    }

    fn validate_content(&self, module: &ModuleDefinition, workspace_dependencies: &TextSet) -> (result:
        Result<(), CatalogError>)
        ensures
            outcome(result) == module_content_defect(*self, workspace_dependencies@, *module),
    {
        let id = module.id.as_str();
        if holds_text(&module.prerequisites, id) {
            return Err(CatalogError::new(join3("module `", id, "` requires itself")));
        }
        if holds_text(&module.conflicts_with, id) {
            return Err(CatalogError::new(join3("module `", id, "` conflicts with itself")));
        }
        if let Some(slot) = &module.provider_slot {
            if slot.as_str().is_empty() {
                return Err(
                    CatalogError::new(join3("module `", id, "` has an empty provider slot")),
                );
            }
        }
        match validate_ownership(module) {
            Ok(()) => {},
            Err(error) => {
                return Err(error);
            },
        }
        match validate_composition(module, workspace_dependencies) {
            Ok(()) => {},
            Err(error) => {
                return Err(error);
            },
        }
        match validate_configuration(module) {
            Ok(()) => {},
            Err(error) => {
                return Err(error);
            },
        }
        self.validate_dependencies(module)
    }

    fn validate_modules(&self, workspace_dependencies: &TextSet) -> (result: Result<
        (),
        CatalogError,
    >)
        ensures
            outcome(result) == modules_defect(
                *self,
                workspace_dependencies@,
                self.modules@.len() as int,
            ),
    {
        let ghost workspace = workspace_dependencies@;
        let ghost ids = module_ids(self.modules@);
        let ghost total = self.modules@.len() as int;
        let mut seen: TextSet = Sorted::new();
        let mut index: usize = 0;
        while index < self.modules.len()
            invariant
                workspace == workspace_dependencies@,
                ids == module_ids(self.modules@),
                total == self.modules@.len(),
                index <= total,
                modules_defect(*self, workspace, index as int) is None,
                forall|value: Seq<char>| #[trigger]
                    seen@.contains(value) <==> exists|j: int|
                        0 <= j < index && #[trigger] ids[j] == value,
            decreases total - index,
        {
            let module = &self.modules[index];
            let id = module.id.as_str();
            proof {
                if modules_defect(*self, workspace, index + 1) is Some {
                    lemma_modules_stay(*self, workspace, index + 1, total);
                }
                assert(ids[index as int] == id@);
            }
            match validate_id(id) {
                Ok(()) => {},
                Err(error) => {
                    return Err(error);
                },
            }
            let ghost before = seen@;
            let added = set_add(&mut seen, id);
            proof {
                lemma_seen_grows(before, seen@, ids, index as int);
            }
            if !added {
                return Err(CatalogError::new(join3("duplicate module id `", id, "`")));
            }
            if module.version.as_str().is_empty() {
                return Err(CatalogError::new(join3("module `", id, "` has an empty version")));
            }
            match validate_unique_list(&module.prerequisites, id, "requires") {
                Ok(()) => {},
                Err(error) => {
                    return Err(error);
                },
            }
            match validate_unique_list(&module.conflicts_with, id, "conflicts_with") {
                Ok(()) => {},
                Err(error) => {
                    return Err(error);
                },
            }
            match self.validate_content(module, workspace_dependencies) {
                Ok(()) => {},
                Err(error) => {
                    return Err(error);
                },
            }
            index += 1;
        }
        Ok(())
    }

    fn validate_reference_list(&self, list: &Vec<String>, module: &str, conflicts: bool) -> (result:
        Result<(), CatalogError>)
        ensures
            outcome(result) == first_finding(
                texts(list@),
                if conflicts {
                    known_conflict_check(*self, module@)
                } else {
                    known_prerequisite_check(*self, module@)
                },
            ),
    {
        let ghost all = texts(list@);
        let ghost check = if conflicts {
            known_conflict_check(*self, module@)
        } else {
            known_prerequisite_check(*self, module@)
        };
        let mut index: usize = 0;
        while index < list.len()
            invariant
                all == texts(list@),
                check == (if conflicts {
                    known_conflict_check(*self, module@)
                } else {
                    known_prerequisite_check(*self, module@)
                }),
                index <= all.len(),
                first_finding(all.take(index as int), check) is None,
            decreases all.len() - index,
        {
            let id = list[index].as_str();
            assert(all[index as int] == id@);
            proof {
                lemma_finding_step(all, index as int, check);
            }
            if self.module(id).is_none() {
                proof {
                    lemma_finding_prefix(all, index + 1, check);
                }
                let middle = if conflicts {
                    "` conflicts with unknown module `"
                } else {
                    "` requires unknown module `"
                };
                return Err(CatalogError::new(join5("module `", module, middle, id, "`")));
            }
            index += 1;
        }
        assert(all.take(index as int) =~= all);
        Ok(())
    }

    fn validate_references(&self) -> (result: Result<(), CatalogError>)
        ensures
            outcome(result) == first_finding(self.modules@, reference_check(*self)),
    {
        let ghost check = reference_check(*self);
        let mut index: usize = 0;
        while index < self.modules.len()
            invariant
                check == reference_check(*self),
                index <= self.modules@.len(),
                first_finding(self.modules@.take(index as int), check) is None,
            decreases self.modules@.len() - index,
        {
            let module = &self.modules[index];
            proof {
                lemma_finding_step(self.modules@, index as int, check);
                if check(self.modules@[index as int]) is Some {
                    lemma_finding_prefix(self.modules@, index + 1, check);
                }
            }
            match self.validate_reference_list(&module.prerequisites, module.id.as_str(), false) {
                Ok(()) => {},
                Err(error) => {
                    return Err(error);
                },
            }
            match self.validate_reference_list(&module.conflicts_with, module.id.as_str(), true) {
                Ok(()) => {},
                Err(error) => {
                    return Err(error);
                },
            }
            index += 1;
        }
        assert(self.modules@.take(index as int) =~= self.modules@);
        Ok(())
    }

    fn declares_environment(&self, key: &str) -> (found: bool)
        ensures
            found == declares_key(*self, key@),
    {
        let mut index: usize = 0;
        while index < self.modules.len()
            invariant
                index <= self.modules@.len(),
                forall|i: int, j: int|
                    0 <= i < index && 0 <= j < self.modules@[i].configuration.fields@.len()
                        ==> environment_key(
                        (#[trigger] self.modules@[i].configuration.fields@[j]).path@,
                    ) != key@,
            decreases self.modules@.len() - index,
        {
            let fields = &self.modules[index].configuration.fields;
            let mut at: usize = 0;
            while at < fields.len()
                invariant
                    index < self.modules@.len(),
                    fields@ == self.modules@[index as int].configuration.fields@,
                    at <= fields@.len(),
                    forall|j: int|
                        0 <= j < at ==> environment_key(
                            (#[trigger] self.modules@[index as int].configuration.fields@[j]).path@,
                        ) != key@,
                decreases fields@.len() - at,
            {
                let declared = hierarchical_environment_key(fields[at].path.as_str());
                if same_text(declared.as_str(), key) {
                    assert(environment_key(
                        self.modules@[index as int].configuration.fields@[at as int].path@,
                    ) == key@);
                    return true;
                }
                at += 1;
            }
            index += 1;
        }
        false
    }

    fn validate_declared_bindings(
        &self,
        id: RuntimeDependencyId,
        bindings: &Vec<ComposeEnvironmentBinding>,
    ) -> (result: Result<(), CatalogError>)
        ensures
            outcome(result) == first_finding(bindings@, declared_binding_check(*self, id)),
    {
        let ghost check = declared_binding_check(*self, id);
        let mut index: usize = 0;
        while index < bindings.len()
            invariant
                check == declared_binding_check(*self, id),
                index <= bindings@.len(),
                first_finding(bindings@.take(index as int), check) is None,
            decreases bindings@.len() - index,
        {
            let binding = &bindings[index];
            proof {
                lemma_finding_step(bindings@, index as int, check);
            }
            if !self.declares_environment(binding.name.as_str()) {
                proof {
                    lemma_finding_prefix(bindings@, index + 1, check);
                }
                return Err(
                    CatalogError::new(
                        join5(
                            "runtime dependency `",
                            id.as_str(),
                            "` binds undeclared application configuration `",
                            binding.name.as_str(),
                            "`",
                        ),
                    ),
                );
            }
            index += 1;
        }
        assert(bindings@.take(index as int) =~= bindings@);
        Ok(())
    }

    fn validate_migration_owner(&self, id: RuntimeDependencyId, migration: &ComposeMigration) -> (result:
        Result<(), CatalogError>)
        ensures
            outcome(result) == migration_owner_defect(*self, id, *migration),
    {
        if !same_text(migration.required_module.as_str(), "migrations") {
            return Err(
                CatalogError::new(
                    join3(
                        "runtime dependency `",
                        id.as_str(),
                        "` migration ownership must require the `migrations` module",
                    ),
                ),
            );
        }
        match self.module(migration.required_module.as_str()) {
            None => Err(
                CatalogError::new(
                    join3(
                        "runtime dependency `",
                        id.as_str(),
                        "` owns migrations without the migrations module",
                    ),
                ),
            ),
            Some(owner) => {
                if holds_id(&owner.runtime_dependencies, id) {
                    Ok(())
                } else {
                    Err(
                        CatalogError::new(
                            join3(
                                "migrations module does not reference runtime dependency `",
                                id.as_str(),
                                "`",
                            ),
                        ),
                    )
                }
            },
        }
    }

    /// Checks that runtime dependencies set declared configuration, and that their migrations are
    /// owned.
    pub fn validate_migration_ownership(&self) -> (result: Result<(), CatalogError>)
        ensures
            outcome(result) == first_finding(RuntimeDependencyId::every(), migration_check(*self)),
    {
        let ids = RuntimeDependencyId::all();
        let ghost check = migration_check(*self);
        let mut index: usize = 0;
        while index < ids.len()
            invariant
                ids@ == RuntimeDependencyId::every(),
                check == migration_check(*self),
                index <= ids@.len(),
                first_finding(ids@.take(index as int), check) is None,
            decreases ids@.len() - index,
        {
            let id = ids[index];
            proof {
                lemma_finding_step(ids@, index as int, check);
                if check(id) is Some {
                    lemma_finding_prefix(ids@, index + 1, check);
                }
            }
            if let Some(
                RuntimeDependencyDescriptor::Compose { application_environment, migration, .. },
            ) = self.runtime_dependency(id) {
                match self.validate_declared_bindings(id, application_environment) {
                    Ok(()) => {},
                    Err(error) => {
                        return Err(error);
                    },
                }
                if let Some(owner) = migration {
                    match self.validate_migration_owner(id, owner) {
                        Ok(()) => {},
                        Err(error) => {
                            return Err(error);
                        },
                    }
                }
            }
            index += 1;
        }
        assert(ids@.take(index as int) =~= ids@);
        Ok(())
    }

    fn validate_acyclic(&self) -> (result: Result<(), CatalogError>)
        ensures
            outcome(result) == cycles_defect(*self, self.modules@.len() as int),
    {
        let ghost total = self.modules@.len() as int;
        let mut index: usize = 0;
        while index < self.modules.len()
            invariant
                total == self.modules@.len(),
                index <= total,
                cycles_defect(*self, index as int) is None,
            decreases total - index,
        {
            let visiting: Vec<String> = Vec::new();
            let mut collected: TextSet = Sorted::new();
            proof {
                assert(texts(visiting@) =~= Seq::<Seq<char>>::empty());
                assert(collected@.to_set() =~= Set::<Seq<char>>::empty());
                if cycles_defect(*self, index + 1) is Some {
                    lemma_cycles_stay(*self, index + 1, total);
                }
            }
            match self.collect_dependencies(
                self.modules[index].id.as_str(),
                &visiting,
                &mut collected,
            ) {
                Ok(()) => {},
                Err(error) => {
                    return Err(error);
                },
            }
            index += 1;
        }
        Ok(())
    }

    /// Validates catalog-wide constraints, given the dependencies of the workspace, and reports
    /// the first violation.
    pub fn validate(&self, workspace_dependencies: &TextSet) -> (result: Result<(), CatalogError>)
        ensures
            outcome(result) == catalog_defect(*self, workspace_dependencies@),
    {
        if self.schema_version != MODULE_CATALOG_SCHEMA_VERSION {
            let found = decimal_text(self.schema_version as u64);
            let expected = decimal_text(MODULE_CATALOG_SCHEMA_VERSION as u64);
            return Err(
                CatalogError::new(
                    join4(
                        "unsupported module catalog schema version ",
                        found.as_str(),
                        "; expected ",
                        expected.as_str(),
                    ),
                ),
            );
        }
        if self.bundle_version.as_str().is_empty() {
            return Err(
                CatalogError::new("module catalog bundle_version is empty".to_owned()),
            );
        }
        match validate_runtime_dependency_registry(&self.runtime_dependencies) {
            Ok(()) => {},
            Err(error) => {
                return Err(error);
            },
        }
        match self.validate_modules(workspace_dependencies) {
            Ok(()) => {},
            Err(error) => {
                return Err(error);
            },
        }
        match self.validate_references() {
            Ok(()) => {},
            Err(error) => {
                return Err(error);
            },
        }
        match self.validate_migration_ownership() {
            Ok(()) => {},
            Err(error) => {
                return Err(error);
            },
        }
        self.validate_acyclic()
    }
}

fn repeats_id(list: &Vec<RuntimeDependencyId>, at: usize) -> (found: bool)
    requires
        at < list@.len(),
    ensures
        found == dependency_repeats(list@, at as int),
{
    let mut index: usize = 0;
    while index < at
        invariant
            at < list@.len(),
            index <= at,
            forall|j: int| 0 <= j < index ==> #[trigger] list@[j] != list@[at as int],
        decreases at - index,
    {
        if list[index] == list[at] {
            assert(list@[index as int] == list@[at as int]);
            return true;
        }
        index += 1;
    }
    false
}

pub(crate) fn holds_id(list: &Vec<RuntimeDependencyId>, id: RuntimeDependencyId) -> (found: bool)
    ensures
        found == list@.contains(id),
{
    let mut index: usize = 0;
    while index < list.len()
        invariant
            index <= list@.len(),
            forall|j: int| 0 <= j < index ==> list@[j] != id,
        decreases list@.len() - index,
    {
        if list[index] == id {
            return true;
        }
        index += 1;
    }
    false
}

} // verus!
