//! Text that the generator derives from the selected modules.

use vstd::prelude::*;
use vstd::string::*;

use crate::cargo_resolver::{debug_form, debug_text};
use crate::management::{ManagerError, ManagerFailure};
use crate::module_resolution::{composition, descriptors_of, modules_of, needed_descriptors};
use crate::modules::{
    ExternalEnvironmentBinding, ModuleCatalog, ModuleDefinition, RuntimeDependencyDescriptor,
};
use crate::ordered::{models, set_holds, sort_unique, sorted_listing, TextSet};
use crate::release::{ReleaseIdentity, ReleaseModel};
use crate::selection::selection_defect;
use crate::text::{join3, join5, join_texts, joined, same_text, texts};

verus! {

/// Path of the generated index of web adapters.
pub const REACT_INDEX_PATH: &'static str = "packages/web-sdk/src/react/index.ts";

/// Contents of the index of web adapters that earlier releases handed to the application.
pub const LEGACY_APPLICATION_REACT_INDEX: &'static str =
    "export * from \"./core.js\";\nexport * from \"./auth.js\";\nexport * from \"./capabilities.js\";\n";

/// The failure that a selected module is not in the catalog.
pub open spec fn unknown_selected(id: Seq<char>) -> ManagerFailure {
    ManagerFailure::InvalidProject("project selects unknown module `"@ + id + "`"@)
}

/// Returns the module of an identifier.
pub fn required_module<'a>(catalog: &'a ModuleCatalog, id: &str) -> (result: Result<
    &'a ModuleDefinition,
    ManagerError,
>)
    ensures
        match result {
            Ok(module) => catalog.find(id@) == Some(*module) && module.id@ == id@,
            Err(error) => catalog.find(id@) is None && error.failure() == unknown_selected(id@),
        },
{
    match catalog.module(id) {
        Some(module) => Ok(module),
        None => Err(
            ManagerError::InvalidProject(join3("project selects unknown module `", id, "`")),
        ),
    }
}

// Managed regions.
/// The identifier of the first tooling module among the first `count`.
pub open spec fn tooling_module(list: Seq<ModuleDefinition>, at: int) -> Option<Seq<char>>
    decreases list.len() - at,
{
    if at < 0 || at >= list.len() {
        None
    } else if list[at].kind@ == "tooling"@ {
        Some(list[at].id@)
    } else {
        tooling_module(list, at + 1)
    }
}

/// The features of the framework dependency for the first `count` modules.
pub open spec fn feature_lines(list: Seq<ModuleDefinition>, count: int) -> Seq<char>
    decreases count,
{
    if count <= 0 {
        Seq::empty()
    } else {
        feature_lines(list, count - 1) + "  "@ + debug_form(list[count - 1].id@) + ",\n"@
    }
}

/// The framework dependency of a workspace.
pub open spec fn framework_text(list: Seq<ModuleDefinition>, release: ReleaseModel) -> Seq<char> {
    "[workspace.dependencies.service-kit]\npackage = \"omnius-service-kit\"\n"@ + "version = \"="@
        + release.version + "\"\n"@ + "git = "@ + debug_form(release.repository) + "\n"@ + "rev = "@
        + debug_form(release.revision) + "\n"@ + "default-features = false\nfeatures = [\n"@
        + feature_lines(list, list.len() as int) + "]\n"@
}

/// The region that declares the framework dependency.
pub open spec fn framework_region(
    catalog: ModuleCatalog,
    selected: Seq<Seq<char>>,
    release: ReleaseModel,
) -> Result<Seq<char>, ManagerFailure> {
    match composition(catalog, selected) {
        Err(message) => Err(ManagerFailure::Catalog(message)),
        Ok(list) => match tooling_module(list, 0) {
            Some(id) => Err(
                ManagerFailure::InvalidProject(
                    "tooling module `"@ + id + "` cannot become a service-kit runtime feature"@,
                ),
            ),
            None => Ok(framework_text(list, release)),
        },
    }
}

/// The listing of the first `count` modules.
pub open spec fn module_lines(list: Seq<ModuleDefinition>, count: int) -> Seq<char>
    decreases count,
{
    if count <= 0 {
        Seq::empty()
    } else {
        module_lines(list, count - 1) + "    \""@ + list[count - 1].id@ + "\",\n"@
    }
}

/// The region that lists the selected modules.
pub open spec fn modules_region(catalog: ModuleCatalog, selected: Seq<Seq<char>>) -> Result<
    Seq<char>,
    ManagerFailure,
> {
    match composition(catalog, selected) {
        Err(message) => Err(ManagerFailure::Catalog(message)),
        Ok(list) => Ok(module_lines(list, list.len() as int)),
    }
}

/// The contents of a managed region.
pub open spec fn region_text(
    catalog: ModuleCatalog,
    id: Seq<char>,
    selected: Seq<Seq<char>>,
    release: ReleaseModel,
) -> Result<Seq<char>, ManagerFailure> {
    if id == "framework-dependency"@ {
        framework_region(catalog, selected, release)
    } else if id == "modules"@ {
        modules_region(catalog, selected)
    } else {
        Err(
            ManagerFailure::InvalidProject(
                "no deterministic renderer exists for managed region `"@ + id + "`"@,
            ),
        )
    }
}

/// Whether `result` is the text that is owed.
pub open spec fn renders(
    result: Result<String, ManagerError>,
    owed: Result<Seq<char>, ManagerFailure>,
) -> bool {
    match result {
        Ok(text) => owed == Ok::<Seq<char>, ManagerFailure>(text@),
        Err(error) => owed == Err::<Seq<char>, ManagerFailure>(error.failure()),
    }
}

/// Renders the region that declares the framework dependency.
pub fn render_framework_dependency(
    catalog: &ModuleCatalog,
    selected: &TextSet,
    release_identity: &ReleaseIdentity,
) -> (result: Result<String, ManagerError>)
    ensures
        renders(result, framework_region(*catalog, selected@, release_identity@)),
{
    let ordered = match catalog.composition_order(selected) {
        Ok(ordered) => ordered,
        Err(error) => {
            return Err(ManagerError::Catalog(error));
        },
    };
    let ghost list = modules_of(ordered@);
    let mut index: usize = 0;
    while index < ordered.len()
        invariant
            list == modules_of(ordered@),
            composition(*catalog, selected@) == Ok::<Seq<ModuleDefinition>, Seq<char>>(list),
            index <= ordered@.len(),
            tooling_module(list, 0) == tooling_module(list, index as int),
        decreases ordered@.len() - index,
    {
        let module = ordered[index];
        assert(list[index as int] == *module);
        if same_text(module.kind.as_str(), "tooling") {
            return Err(
                ManagerError::InvalidProject(
                    join3(
                        "tooling module `",
                        module.id.as_str(),
                        "` cannot become a service-kit runtime feature",
                    ),
                ),
            );
        }
        index += 1;
    }
    let mut features = String::new();
    let mut index: usize = 0;
    while index < ordered.len()
        invariant
            list == modules_of(ordered@),
            index <= ordered@.len(),
            features@ == feature_lines(list, index as int),
        decreases ordered@.len() - index,
    {
        assert(list[index as int] == *ordered@[index as int]);
        let id = debug_text(ordered[index].id.as_str());
        features.append("  ");
        features.append(id.as_str());
        features.append(",\n");
        index += 1;
    }
    let mut content =
        "[workspace.dependencies.service-kit]\npackage = \"omnius-service-kit\"\n".to_owned();
    content.append("version = \"=");
    content.append(release_identity.version());
    content.append("\"\n");
    content.append("git = ");
    content.append(debug_text(release_identity.repository()).as_str());
    content.append("\n");
    content.append("rev = ");
    content.append(debug_text(release_identity.revision()).as_str());
    content.append("\n");
    content.append("default-features = false\nfeatures = [\n");
    content.append(features.as_str());
    content.append("]\n");
    Ok(content)
}

/// Renders the region that lists the selected modules.
pub fn render_modules_region(catalog: &ModuleCatalog, selected: &TextSet) -> (result: Result<
    String,
    ManagerError,
>)
    ensures
        renders(result, modules_region(*catalog, selected@)),
{
    let ordered = match catalog.composition_order(selected) {
        Ok(ordered) => ordered,
        Err(error) => {
            return Err(ManagerError::Catalog(error));
        },
    };
    let ghost list = modules_of(ordered@);
    let mut content = String::new();
    let mut index: usize = 0;
    while index < ordered.len()
        invariant
            list == modules_of(ordered@),
            index <= ordered@.len(),
            content@ == module_lines(list, index as int),
        decreases ordered@.len() - index,
    {
        assert(list[index as int] == *ordered@[index as int]);
        content.append("    \"");
        content.append(ordered[index].id.as_str());
        content.append("\",\n");
        index += 1;
    }
    Ok(content)
}

/// Renders the contents of a managed region.
pub fn render_region(
    catalog: &ModuleCatalog,
    id: &str,
    selected: &TextSet,
    release_identity: &ReleaseIdentity,
) -> (result: Result<String, ManagerError>)
    ensures
        renders(result, region_text(*catalog, id@, selected@, release_identity@)),
{
    if same_text(id, "framework-dependency") {
        render_framework_dependency(catalog, selected, release_identity)
    } else if same_text(id, "modules") {
        render_modules_region(catalog, selected)
    } else {
        Err(
            ManagerError::InvalidProject(
                join3("no deterministic renderer exists for managed region `", id, "`"),
            ),
        )
    }
}

// The index of web adapters.
/// The line of the index that exports an adapter, where its module is selected.
pub open spec fn export_line(
    selected: Seq<Seq<char>>,
    module: Seq<char>,
    adapter: Seq<char>,
) -> Seq<char> {
    if selected.contains(module) {
        "export * from \"./"@ + adapter + ".js\";\n"@
    } else {
        Seq::empty()
    }
}

/// The index of the web adapters of the selected modules.
pub open spec fn react_index(selected: Seq<Seq<char>>) -> Seq<char> {
    export_line(selected, "web-react"@, "core"@) + export_line(selected, "web-auth"@, "auth"@)
        + export_line(selected, "web-realtime"@, "realtime"@) + export_line(
        selected,
        "web-forms"@,
        "forms"@,
    ) + export_line(selected, "web-local-state"@, "local-state"@) + export_line(
        selected,
        "web-react"@,
        "capabilities"@,
    ) + export_line(selected, "web-tenancy"@, "tenant"@) + export_line(
        selected,
        "web-uploads"@,
        "uploads"@,
    ) + export_line(selected, "web-llm"@, "llm"@)
}

fn push_export(content: &mut String, selected: &TextSet, module: &str, adapter: &str)
    ensures
        final(content)@ == old(content)@ + export_line(selected@, module@, adapter@),
{
    let ghost before = content@;
    if set_holds(selected, module) {
        content.append("export * from \"./");
        content.append(adapter);
        content.append(".js\";\n");
        assert(content@ =~= before + export_line(selected@, module@, adapter@));
    } else {
        assert(before + Seq::<char>::empty() =~= before);
    }
}

/// Renders the index of the web adapters of the selected modules.
pub fn render_react_index(selected: &TextSet) -> (content: String)
    ensures
        content@ == react_index(selected@),
{
    let mut content = String::new();
    push_export(&mut content, selected, "web-react", "core");
    assert(content@ =~= export_line(selected@, "web-react"@, "core"@));
    push_export(&mut content, selected, "web-auth", "auth");
    push_export(&mut content, selected, "web-realtime", "realtime");
    push_export(&mut content, selected, "web-forms", "forms");
    push_export(&mut content, selected, "web-local-state", "local-state");
    push_export(&mut content, selected, "web-react", "capabilities");
    push_export(&mut content, selected, "web-tenancy", "tenant");
    push_export(&mut content, selected, "web-uploads", "uploads");
    push_export(&mut content, selected, "web-llm", "llm");
    content
}

// The listing of modules.
/// The rows of the first `count` selected modules.
pub open spec fn module_rows(
    catalog: ModuleCatalog,
    selected: Seq<Seq<char>>,
    count: int,
) -> Result<Seq<char>, ManagerFailure>
    decreases count,
{
    if count <= 0 {
        Ok(Seq::empty())
    } else {
        match module_rows(catalog, selected, count - 1) {
            Err(failure) => Err(failure),
            Ok(rows) => match catalog.find(selected[count - 1]) {
                None => Err(unknown_selected(selected[count - 1])),
                Some(module) => Ok(
                    rows + "| `"@ + module.id@ + "` | `"@ + module.version@ + "` | "@ + (
                    match module.provider_slot {
                        Some(slot) => slot@,
                        None => "-"@,
                    }) + " |\n"@,
                ),
            },
        }
    }
}

/// The names of external bindings, in code quotes.
pub open spec fn quoted_names(bindings: Seq<ExternalEnvironmentBinding>) -> Seq<Seq<char>> {
    bindings.map_values(|binding: ExternalEnvironmentBinding| "`"@ + binding.name@ + "`"@)
}

/// The row of a runtime dependency.
pub open spec fn dependency_row(dependency: RuntimeDependencyDescriptor) -> Seq<char> {
    match dependency {
        RuntimeDependencyDescriptor::Compose { id, service, .. } => "| `"@ + id.text()
            + "` | Compose service `"@ + service@
            + "` | development-only bindings managed in `ops/compose.yaml` |\n"@,
        RuntimeDependencyDescriptor::External { id, bindings } => "| `"@ + id.text()
            + "` | External (no generated container) | "@ + joined(quoted_names(bindings@), ", "@)
            + " |\n"@,
    }
}

/// The rows of the first `count` runtime dependencies.
pub open spec fn dependency_rows(list: Seq<RuntimeDependencyDescriptor>, count: int) -> Seq<char>
    decreases count,
{
    if count <= 0 {
        Seq::empty()
    } else {
        dependency_rows(list, count - 1) + dependency_row(list[count - 1])
    }
}

/// The runtime dependencies of the selected modules, or why the selection is invalid.
pub open spec fn dependencies_of(catalog: ModuleCatalog, selected: Seq<Seq<char>>) -> Result<
    Seq<RuntimeDependencyDescriptor>,
    ManagerFailure,
> {
    match selection_defect(catalog, selected) {
        Some(message) => Err(ManagerFailure::Catalog(message)),
        None => Ok(
            needed_descriptors(catalog, selected, catalog.runtime_dependencies@.len() as int),
        ),
    }
}

/// The document that lists the selected modules and their runtime dependencies.
pub open spec fn module_listing(catalog: ModuleCatalog, selected: Seq<Seq<char>>) -> Result<
    Seq<char>,
    ManagerFailure,
> {
    match module_rows(catalog, selected, selected.len() as int) {
        Err(failure) => Err(failure),
        Ok(rows) => match dependencies_of(catalog, selected) {
            Err(failure) => Err(failure),
            Ok(list) => Ok(
                "# Selected service modules\n\n| Module | Version | Provider slot |\n|---|---:|---|\n"@
                    + rows
                    + "\n## Runtime dependencies\n\n| Dependency | Resolution | Required environment |\n|---|---|---|\n"@
                    + dependency_rows(list, list.len() as int),
            ),
        },
    }
}

proof fn lemma_module_rows_fail(
    catalog: ModuleCatalog,
    selected: Seq<Seq<char>>,
    count: int,
    total: int,
)
    requires
        module_rows(catalog, selected, count) is Err,
        count <= total,
    ensures
        module_rows(catalog, selected, total) == module_rows(catalog, selected, count),
    decreases total - count,
{
    if count < total {
        lemma_module_rows_fail(catalog, selected, count, total - 1);
    }
}

fn render_dependency_row(dependency: &RuntimeDependencyDescriptor) -> (row: String)
    ensures
        row@ == dependency_row(*dependency),
{
    match dependency {
        RuntimeDependencyDescriptor::Compose { id, service, .. } => join5(
            "| `",
            id.as_str(),
            "` | Compose service `",
            service.as_str(),
            "` | development-only bindings managed in `ops/compose.yaml` |\n",
        ),
        RuntimeDependencyDescriptor::External { id, bindings } => {
            let mut names: Vec<String> = Vec::new();
            let mut index: usize = 0;
            while index < bindings.len()
                invariant
                    index <= bindings@.len(),
                    texts(names@) == quoted_names(bindings@).take(index as int),
                decreases bindings@.len() - index,
            {
                let ghost before = texts(names@);
                let name = join3("`", bindings[index].name.as_str(), "`");
                let ghost value = name@;
                names.push(name);
                assert(texts(names@) =~= before.push(value));
                assert(quoted_names(bindings@).take(index + 1) =~= quoted_names(bindings@).take(
                    index as int,
                ).push(value));
                index += 1;
            }
            assert(quoted_names(bindings@).take(index as int) =~= quoted_names(bindings@));
            let environment = join_texts(&names, ", ");
            join5(
                "| `",
                id.as_str(),
                "` | External (no generated container) | ",
                environment.as_str(),
                " |\n",
            )
        },
    }
}

/// Renders the document that lists the selected modules and their runtime dependencies.
pub fn render_selected_module_catalog(catalog: &ModuleCatalog, selected: &TextSet) -> (result: Result<
    String,
    ManagerError,
>)
    ensures
        renders(result, module_listing(*catalog, selected@)),
{
    let mut rows = String::new();
    let mut index: usize = 0;
    while index < selected.len()
        invariant
            index <= selected@.len(),
            module_rows(*catalog, selected@, index as int) == Ok::<Seq<char>, ManagerFailure>(
                rows@,
            ),
        decreases selected@.len() - index,
    {
        let id = selected.at(index).as_str();
        assert(selected@[index as int] == id@);
        let module = match required_module(catalog, id) {
            Ok(module) => module,
            Err(error) => {
                proof {
                    lemma_module_rows_fail(
                        *catalog,
                        selected@,
                        index + 1,
                        selected@.len() as int,
                    );
                }
                return Err(error);
            },
        };
        let slot = match &module.provider_slot {
            Some(slot) => slot.as_str(),
            None => "-",
        };
        rows.append("| `");
        rows.append(module.id.as_str());
        rows.append("` | `");
        rows.append(module.version.as_str());
        rows.append("` | ");
        rows.append(slot);
        rows.append(" |\n");
        index += 1;
    }
    let dependencies = match catalog.selected_runtime_dependencies(selected) {
        Ok(dependencies) => dependencies,
        Err(error) => {
            return Err(ManagerError::Catalog(error));
        },
    };
    let ghost list = descriptors_of(dependencies@);
    let mut described = String::new();
    let mut index: usize = 0;
    while index < dependencies.len()
        invariant
            list == descriptors_of(dependencies@),
            index <= dependencies@.len(),
            described@ == dependency_rows(list, index as int),
        decreases dependencies@.len() - index,
    {
        assert(list[index as int] == *dependencies@[index as int]);
        let row = render_dependency_row(dependencies[index]);
        described.append(row.as_str());
        index += 1;
    }
    let mut output =
        "# Selected service modules\n\n| Module | Version | Provider slot |\n|---|---:|---|\n".to_owned();
    output.append(rows.as_str());
    output.append(
        "\n## Runtime dependencies\n\n| Dependency | Resolution | Required environment |\n|---|---|---|\n",
    );
    output.append(described.as_str());
    Ok(output)
}

// Derived paths.
/// Whether the generator derives the file at a path in every project.
pub open spec fn always_derived() -> Seq<Seq<char>> {
    seq![
        "config/reference.toml"@,
        "docs/module-catalog.md"@,
        "ops/compose.yaml"@,
        "ops/Dockerfile"@,
    ]
}

/// Whether the generator can derive the file at a path.
pub open spec fn is_derivable(path: Seq<char>) -> bool {
    always_derived().contains(path) || path == REACT_INDEX_PATH@
}

/// The derived paths of a module, or the one that cannot be derived.
pub open spec fn module_derived(
    id: Seq<char>,
    paths: Seq<Seq<char>>,
    known: Seq<Seq<char>>,
    count: int,
) -> Result<Seq<Seq<char>>, ManagerFailure>
    decreases count,
{
    if count <= 0 {
        Ok(known)
    } else {
        match module_derived(id, paths, known, count - 1) {
            Err(failure) => Err(failure),
            Ok(list) => if !is_derivable(paths[count - 1]) {
                Err(
                    ManagerFailure::InvalidProject(
                        "module `"@ + id + "` declares unsupported derived path `"@ + paths[count
                            - 1] + "`"@,
                    ),
                )
            } else {
                Ok(list.push(paths[count - 1]))
            },
        }
    }
}

/// The paths that are derived for the first `count` selected modules, in the order of their
/// declaration.
pub open spec fn derived_list(
    catalog: ModuleCatalog,
    selected: Seq<Seq<char>>,
    count: int,
) -> Result<Seq<Seq<char>>, ManagerFailure>
    decreases count,
{
    if count <= 0 {
        Ok(always_derived())
    } else {
        match derived_list(catalog, selected, count - 1) {
            Err(failure) => Err(failure),
            Ok(list) => match catalog.find(selected[count - 1]) {
                None => Err(unknown_selected(selected[count - 1])),
                Some(module) => module_derived(
                    selected[count - 1],
                    texts(module.generator_ownership.derived@),
                    list,
                    module.generator_ownership.derived@.len() as int,
                ),
            },
        }
    }
}

/// The paths that are derived for the selected modules, in order.
pub open spec fn derived_paths(catalog: ModuleCatalog, selected: Seq<Seq<char>>) -> Result<
    Seq<Seq<char>>,
    ManagerFailure,
> {
    match derived_list(catalog, selected, selected.len() as int) {
        Ok(list) => Ok(sorted_listing::<String>(list)),
        Err(failure) => Err(failure),
    }
}

/// Returns the paths of the files that the generator derives in every project.
pub fn unconditional_derived_paths() -> (paths: Vec<String>)
    ensures
        texts(paths@) == always_derived(),
{
    let mut paths: Vec<String> = Vec::new();
    paths.push("config/reference.toml".to_owned());
    paths.push("docs/module-catalog.md".to_owned());
    paths.push("ops/compose.yaml".to_owned());
    paths.push("ops/Dockerfile".to_owned());
    assert(texts(paths@) =~= always_derived());
    paths
}

/// Returns whether the generator can derive the file at a path.
pub fn derivable(path: &str) -> (result: bool)
    ensures
        result == is_derivable(path@),
{
    proof {
        let all = always_derived();
        assert(all[0] == "config/reference.toml"@ && all[1] == "docs/module-catalog.md"@ && all[2]
            == "ops/compose.yaml"@ && all[3] == "ops/Dockerfile"@);
    }
    same_text(path, "config/reference.toml") || same_text(path, "docs/module-catalog.md")
        || same_text(path, "ops/compose.yaml") || same_text(path, "ops/Dockerfile") || same_text(
        path,
        REACT_INDEX_PATH,
    )
}

proof fn lemma_module_derived_fail(
    id: Seq<char>,
    paths: Seq<Seq<char>>,
    known: Seq<Seq<char>>,
    count: int,
    total: int,
)
    requires
        module_derived(id, paths, known, count) is Err,
        count <= total,
    ensures
        module_derived(id, paths, known, total) == module_derived(id, paths, known, count),
    decreases total - count,
{
    if count < total {
        lemma_module_derived_fail(id, paths, known, count, total - 1);
    }
}

proof fn lemma_derived_list_fail(
    catalog: ModuleCatalog,
    selected: Seq<Seq<char>>,
    count: int,
    total: int,
)
    requires
        derived_list(catalog, selected, count) is Err,
        count <= total,
    ensures
        derived_list(catalog, selected, total) == derived_list(catalog, selected, count),
    decreases total - count,
{
    if count < total {
        lemma_derived_list_fail(catalog, selected, count, total - 1);
    }
}

fn add_module_derived(id: &str, declared: &Vec<String>, known: Vec<String>) -> (result: Result<
    Vec<String>,
    ManagerError,
>)
    ensures
        ({
            let owed = module_derived(
                id@,
                texts(declared@),
                texts(known@),
                declared@.len() as int,
            );
            match result {
                Ok(list) => owed == Ok::<Seq<Seq<char>>, ManagerFailure>(texts(list@)),
                Err(error) => owed == Err::<Seq<Seq<char>>, ManagerFailure>(error.failure()),
            }
        }),
{
    let ghost all = texts(declared@);
    let ghost start = texts(known@);
    let mut list = known;
    let mut index: usize = 0;
    while index < declared.len()
        invariant
            all == texts(declared@),
            start == texts(known@),
            index <= declared@.len(),
            module_derived(id@, all, start, index as int) == Ok::<Seq<Seq<char>>, ManagerFailure>(
                texts(list@),
            ),
        decreases declared@.len() - index,
    {
        let path = declared[index].as_str();
        assert(all[index as int] == path@);
        if !derivable(path) {
            proof {
                lemma_module_derived_fail(id@, all, start, index + 1, declared@.len() as int);
            }
            return Err(
                ManagerError::InvalidProject(
                    join5("module `", id, "` declares unsupported derived path `", path, "`"),
                ),
            );
        }
        let ghost before = texts(list@);
        list.push(path.to_owned());
        assert(texts(list@) =~= before.push(path@));
        index += 1;
    }
    Ok(list)
}

/// Returns the paths that are derived for the selected modules.
pub fn selected_derived_paths(catalog: &ModuleCatalog, selected: &TextSet) -> (result: Result<
    TextSet,
    ManagerError,
>)
    ensures
        match result {
            Ok(paths) => derived_paths(*catalog, selected@) == Ok::<
                Seq<Seq<char>>,
                ManagerFailure,
            >(paths@),
            Err(error) => derived_paths(*catalog, selected@) == Err::<
                Seq<Seq<char>>,
                ManagerFailure,
            >(error.failure()),
        },
{
    let mut list = unconditional_derived_paths();
    let mut index: usize = 0;
    while index < selected.len()
        invariant
            index <= selected@.len(),
            derived_list(*catalog, selected@, index as int) == Ok::<
                Seq<Seq<char>>,
                ManagerFailure,
            >(texts(list@)),
        decreases selected@.len() - index,
    {
        let id = selected.at(index).as_str();
        assert(selected@[index as int] == id@);
        proof {
            if derived_list(*catalog, selected@, index + 1) is Err {
                lemma_derived_list_fail(*catalog, selected@, index + 1, selected@.len() as int);
            }
        }
        let module = match required_module(catalog, id) {
            Ok(module) => module,
            Err(error) => {
                return Err(error);
            },
        };
        list =
        match add_module_derived(id, &module.generator_ownership.derived, list) {
            Ok(list) => list,
            Err(error) => {
                return Err(error);
            },
        };
        index += 1;
    }
    assert(models(list@) =~= texts(list@));
    Ok(sort_unique(list))
}

} // verus!
