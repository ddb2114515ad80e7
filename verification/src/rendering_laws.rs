//! What managed regions and derived listings hold of the selected modules.

use vstd::prelude::*;
use vstd::string::*;

use crate::cargo_resolver::debug_form;
use crate::compose::compose_file;
use crate::compose_laws::lines;
use crate::derived::managed_text;
use crate::management::ManagerFailure;
use crate::module_resolution::{composition, ids_in};
use crate::modules::{
    ExternalEnvironmentBinding, ModuleCatalog, ModuleDefinition, RuntimeDependencyDescriptor,
};
use crate::ordered::{ascending, lemma_listing_exists};
use crate::reference_config::{reference_document, toml_writing};
use crate::release::ReleaseModel;
use crate::rendering::{
    always_derived, dependencies_of, dependency_row, dependency_rows, derived_list, derived_paths,
    feature_lines, is_derivable, module_derived, module_lines, module_listing, module_rows,
    quoted_names, react_index, region_text, tooling_module,
};
use crate::request_laws::{lemma_needed, needs};
use crate::text::{joined, texts};

verus! {

// Regions.
proof fn lemma_feature_lines(list: Seq<ModuleDefinition>, count: int)
    requires
        0 <= count <= list.len(),
    ensures
        feature_lines(list, count) == lines(
            ids_in(list).take(count).map_values(
                |id: Seq<char>| "  "@ + debug_form(id) + ",\n"@,
            ),
        ),
    decreases count,
{
    let line = |id: Seq<char>| "  "@ + debug_form(id) + ",\n"@;
    let ids = ids_in(list);
    if count > 0 {
        lemma_feature_lines(list, count - 1);
        let few = ids.take(count - 1).map_values(line);
        let more = ids.take(count).map_values(line);
        assert(more =~= few.push(line(list[count - 1].id@)));
        few.lemma_flatten_push(line(list[count - 1].id@));
        assert(feature_lines(list, count) =~= lines(more));
    } else {
        assert(ids.take(0).map_values(line) =~= Seq::<Seq<char>>::empty());
    }
}

proof fn lemma_module_lines(list: Seq<ModuleDefinition>, count: int)
    requires
        0 <= count <= list.len(),
    ensures
        module_lines(list, count) == lines(
            ids_in(list).take(count).map_values(|id: Seq<char>| "    \""@ + id + "\",\n"@),
        ),
    decreases count,
{
    let line = |id: Seq<char>| "    \""@ + id + "\",\n"@;
    let ids = ids_in(list);
    if count > 0 {
        lemma_module_lines(list, count - 1);
        let few = ids.take(count - 1).map_values(line);
        let more = ids.take(count).map_values(line);
        assert(more =~= few.push(line(list[count - 1].id@)));
        few.lemma_flatten_push(line(list[count - 1].id@));
        assert(module_lines(list, count) =~= lines(more));
    } else {
        assert(ids.take(0).map_values(line) =~= Seq::<Seq<char>>::empty());
    }
}

proof fn lemma_tooling(list: Seq<ModuleDefinition>, at: int)
    requires
        0 <= at <= list.len(),
    ensures
        tooling_module(list, at) is None <==> forall|i: int|
            at <= i < list.len() ==> (#[trigger] list[i]).kind@ != "tooling"@,
    decreases list.len() - at,
{
    if at < list.len() {
        lemma_tooling(list, at + 1);
    }
}

/// The managed regions list exactly the selected modules, in the order of composition: one as the
/// features of the framework at its release, and only where none of them is a tool, the other as
/// strings. There is no other region.
pub proof fn lemma_regions_written(
    catalog: ModuleCatalog,
    selected: Seq<Seq<char>>,
    release: ReleaseModel,
    id: Seq<char>,
)
    ensures
        match composition(catalog, selected) {
            Ok(list) => {
                &&& region_text(catalog, "modules"@, selected, release) == Ok::<
                    Seq<char>,
                    ManagerFailure,
                >(lines(ids_in(list).map_values(|id: Seq<char>| "    \""@ + id + "\",\n"@)))
                &&& if exists|i: int|
                    0 <= i < list.len() && (#[trigger] list[i]).kind@ == "tooling"@ {
                    region_text(catalog, "framework-dependency"@, selected, release) is Err
                } else {
                    region_text(catalog, "framework-dependency"@, selected, release) == Ok::<
                        Seq<char>,
                        ManagerFailure,
                    >(
                        "[workspace.dependencies.service-kit]\npackage = \"omnius-service-kit\"\n"@
                            + "version = \"="@ + release.version + "\"\n"@ + "git = "@ + debug_form(
                            release.repository,
                        ) + "\n"@ + "rev = "@ + debug_form(release.revision) + "\n"@
                            + "default-features = false\nfeatures = [\n"@ + lines(
                            ids_in(list).map_values(
                                |id: Seq<char>| "  "@ + debug_form(id) + ",\n"@,
                            ),
                        ) + "]\n"@,
                    )
                }
            },
            Err(message) => {
                &&& region_text(catalog, "modules"@, selected, release) == Err::<
                    Seq<char>,
                    ManagerFailure,
                >(ManagerFailure::Catalog(message))
                &&& region_text(catalog, "framework-dependency"@, selected, release) == Err::<
                    Seq<char>,
                    ManagerFailure,
                >(ManagerFailure::Catalog(message))
            },
        },
        id != "modules"@ && id != "framework-dependency"@ ==> region_text(
            catalog,
            id,
            selected,
            release,
        ) is Err,
{
    reveal_strlit("modules");
    reveal_strlit("framework-dependency");
    assert("modules"@.len() == 7);
    assert("framework-dependency"@.len() == 20);
    if let Ok(list) = composition(catalog, selected) {
        lemma_feature_lines(list, list.len() as int);
        lemma_module_lines(list, list.len() as int);
        lemma_tooling(list, 0);
        assert(ids_in(list).take(list.len() as int) =~= ids_in(list));
    }
}

// Listings.
/// The row of a module: its identifier, its version, and the slot that it fills.
pub open spec fn module_row(module: ModuleDefinition) -> Seq<char> {
    "| `"@ + module.id@ + "` | `"@ + module.version@ + "` | "@ + (match module.provider_slot {
        Some(slot) => slot@,
        None => "-"@,
    }) + " |\n"@
}

/// The row of a runtime dependency: how it is resolved, and what it requires.
pub open spec fn resolution_row(dependency: RuntimeDependencyDescriptor) -> Seq<char> {
    match dependency {
        RuntimeDependencyDescriptor::Compose { id, service, .. } => "| `"@ + id.text()
            + "` | Compose service `"@ + service@
            + "` | development-only bindings managed in `ops/compose.yaml` |\n"@,
        RuntimeDependencyDescriptor::External { id, bindings } => "| `"@ + id.text()
            + "` | External (no generated container) | "@ + joined(
            bindings@.map_values(
                |binding: ExternalEnvironmentBinding| "`"@ + binding.name@ + "`"@,
            ),
            ", "@,
        ) + " |\n"@,
    }
}

proof fn lemma_rows(catalog: ModuleCatalog, selected: Seq<Seq<char>>, count: int)
    requires
        0 <= count <= selected.len(),
    ensures
        module_rows(catalog, selected, count) is Ok <==> forall|i: int|
            0 <= i < count ==> catalog.has_module(#[trigger] selected[i]),
        module_rows(catalog, selected, count) matches Ok(rows) ==> rows == lines(
            selected.take(count).map_values(
                |id: Seq<char>| module_row(catalog.find(id)->Some_0),
            ),
        ),
    decreases count,
{
    let line = |id: Seq<char>| module_row(catalog.find(id)->Some_0);
    if count > 0 {
        lemma_rows(catalog, selected, count - 1);
        let few = selected.take(count - 1).map_values(line);
        let more = selected.take(count).map_values(line);
        assert(more =~= few.push(line(selected[count - 1])));
        few.lemma_flatten_push(line(selected[count - 1]));
        if let Ok(rows) = module_rows(catalog, selected, count) {
            assert(rows =~= lines(more));
        }
    } else {
        assert(selected.take(0).map_values(line) =~= Seq::<Seq<char>>::empty());
    }
}

proof fn lemma_dependency_rows(list: Seq<RuntimeDependencyDescriptor>, count: int)
    requires
        0 <= count <= list.len(),
    ensures
        dependency_rows(list, count) == lines(
            list.take(count).map_values(
                |dependency: RuntimeDependencyDescriptor| resolution_row(dependency),
            ),
        ),
    decreases count,
{
    let line = |dependency: RuntimeDependencyDescriptor| resolution_row(dependency);
    if count > 0 {
        lemma_dependency_rows(list, count - 1);
        let few = list.take(count - 1).map_values(line);
        let more = list.take(count).map_values(line);
        assert(more =~= few.push(line(list[count - 1])));
        few.lemma_flatten_push(line(list[count - 1]));
        if let RuntimeDependencyDescriptor::External { bindings, .. } = list[count - 1] {
            assert(quoted_names(bindings@) =~= bindings@.map_values(
                |binding: ExternalEnvironmentBinding| "`"@ + binding.name@ + "`"@,
            ));
        }
        assert(dependency_row(list[count - 1]) =~= resolution_row(list[count - 1]));
        assert(dependency_rows(list, count) =~= lines(more));
    } else {
        assert(list.take(0).map_values(line) =~= Seq::<Seq<char>>::empty());
    }
}

/// The module catalog of a selection has one row for each selected module, in their order, and one
/// for each runtime dependency that a selected module needs, and no other.
pub proof fn lemma_module_catalog(catalog: ModuleCatalog, selected: Seq<Seq<char>>) -> (needed: Seq<
    RuntimeDependencyDescriptor,
>)
    ensures
        module_listing(catalog, selected) matches Ok(text) ==> {
            &&& text
                == "# Selected service modules\n\n| Module | Version | Provider slot |\n|---|---:|---|\n"@
                + lines(
                selected.map_values(|id: Seq<char>| module_row(catalog.find(id)->Some_0)),
            )
                + "\n## Runtime dependencies\n\n| Dependency | Resolution | Required environment |\n|---|---|---|\n"@
                + lines(
                needed.map_values(
                    |dependency: RuntimeDependencyDescriptor| resolution_row(dependency),
                ),
            )
            &&& forall|item: RuntimeDependencyDescriptor| #[trigger]
                needed.contains(item) <==> catalog.runtime_dependencies@.contains(item) && needs(
                    catalog,
                    selected,
                    item,
                )
        },
{
    let needed = dependencies_of(catalog, selected)->Ok_0;
    if module_listing(catalog, selected) is Ok {
        lemma_rows(catalog, selected, selected.len() as int);
        assert(selected.take(selected.len() as int) =~= selected);
        lemma_dependency_rows(needed, needed.len() as int);
        assert(needed.take(needed.len() as int) =~= needed);
        let all = catalog.runtime_dependencies@;
        lemma_needed(catalog, selected, all.len() as int);
        assert forall|item: RuntimeDependencyDescriptor| #[trigger] needed.contains(item)
            <==> all.contains(item) && needs(catalog, selected, item) by {
            if all.contains(item) {
                let i = choose|i: int| 0 <= i < all.len() && all[i] == item;
                assert(all[i] == item);
            }
        }
    }
    needed
}

/// The adapters of the web client, and the modules that they come with.
pub open spec fn web_adapters() -> Seq<(Seq<char>, Seq<char>)> {
    seq![
        ("web-react"@, "core"@),
        ("web-auth"@, "auth"@),
        ("web-realtime"@, "realtime"@),
        ("web-forms"@, "forms"@),
        ("web-local-state"@, "local-state"@),
        ("web-react"@, "capabilities"@),
        ("web-tenancy"@, "tenant"@),
        ("web-uploads"@, "uploads"@),
        ("web-llm"@, "llm"@),
    ]
}

/// The index of the web client exports, in order, exactly the adapters whose module is selected.
pub proof fn lemma_web_index(selected: Seq<Seq<char>>)
    ensures
        react_index(selected) == lines(
            web_adapters().map_values(
                |adapter: (Seq<char>, Seq<char>)|
                    if selected.contains(adapter.0) {
                        "export * from \"./"@ + adapter.1 + ".js\";\n"@
                    } else {
                        Seq::empty()
                    },
            ),
        ),
{
    let line = |adapter: (Seq<char>, Seq<char>)|
        if selected.contains(adapter.0) {
            "export * from \"./"@ + adapter.1 + ".js\";\n"@
        } else {
            Seq::empty()
        };
    let all = web_adapters().map_values(line);
    assert(all.len() == 9);
    lemma_unfolded(all);
    assert(react_index(selected) =~= all[0] + all[1] + all[2] + all[3] + all[4] + all[5] + all[6]
        + all[7] + all[8]);
}

proof fn lemma_unfolded(all: Seq<Seq<char>>)
    requires
        all.len() == 9,
    ensures
        lines(all) == all[0] + all[1] + all[2] + all[3] + all[4] + all[5] + all[6] + all[7]
            + all[8],
{
    let none = Seq::<Seq<char>>::empty();
    let a = none.push(all[0]);
    let b = a.push(all[1]);
    let c = b.push(all[2]);
    let d = c.push(all[3]);
    let e = d.push(all[4]);
    let f = e.push(all[5]);
    let g = f.push(all[6]);
    let h = g.push(all[7]);
    let i = h.push(all[8]);
    assert(i =~= all);
    none.lemma_flatten_push(all[0]);
    a.lemma_flatten_push(all[1]);
    b.lemma_flatten_push(all[2]);
    c.lemma_flatten_push(all[3]);
    d.lemma_flatten_push(all[4]);
    e.lemma_flatten_push(all[5]);
    f.lemma_flatten_push(all[6]);
    g.lemma_flatten_push(all[7]);
    h.lemma_flatten_push(all[8]);
    assert(none.flatten() + all[0] =~= all[0]);
}

// Derived files.
proof fn lemma_module_derived(
    id: Seq<char>,
    paths: Seq<Seq<char>>,
    known: Seq<Seq<char>>,
    count: int,
)
    requires
        0 <= count <= paths.len(),
    ensures
        module_derived(id, paths, known, count) is Ok <==> forall|i: int|
            0 <= i < count ==> is_derivable(#[trigger] paths[i]),
        module_derived(id, paths, known, count) matches Ok(list) ==> list == known + paths.take(
            count,
        ),
    decreases count,
{
    if count > 0 {
        lemma_module_derived(id, paths, known, count - 1);
        if let Ok(list) = module_derived(id, paths, known, count) {
            assert(list =~= known + paths.take(count));
        }
    } else {
        assert(known + paths.take(0) =~= known);
    }
}

/// Whether one of the first `count` selected modules declares a derived path.
pub open spec fn declares_derived(
    catalog: ModuleCatalog,
    selected: Seq<Seq<char>>,
    count: int,
    path: Seq<char>,
) -> bool {
    exists|i: int|
        0 <= i < count && (catalog.find(#[trigger] selected[i]) matches Some(module) && texts(
            module.generator_ownership.derived@,
        ).contains(path))
}

/// Whether a path is derived in every project.
pub open spec fn is_always_derived(path: Seq<char>) -> bool {
    path == "config/reference.toml"@ || path == "docs/module-catalog.md"@ || path
        == "ops/compose.yaml"@ || path == "ops/Dockerfile"@
}

proof fn lemma_always(path: Seq<char>)
    ensures
        always_derived().contains(path) <==> is_always_derived(path),
{
    let all = always_derived();
    assert(all[0] == "config/reference.toml"@);
    assert(all[1] == "docs/module-catalog.md"@);
    assert(all[2] == "ops/compose.yaml"@);
    assert(all[3] == "ops/Dockerfile"@);
}

proof fn lemma_derived_list(catalog: ModuleCatalog, selected: Seq<Seq<char>>, count: int)
    requires
        0 <= count <= selected.len(),
    ensures
        derived_list(catalog, selected, count) matches Ok(list) ==> forall|path: Seq<char>| #[trigger]
            list.contains(path) <==> is_always_derived(path) || declares_derived(
                catalog,
                selected,
                count,
                path,
            ),
        derived_list(catalog, selected, count) is Ok <==> (forall|i: int|
            0 <= i < count ==> catalog.has_module(#[trigger] selected[i])) && forall|path: Seq<char>| #[trigger]
            declares_derived(catalog, selected, count, path) ==> is_derivable(path),
    decreases count,
{
    if count > 0 {
        lemma_derived_list(catalog, selected, count - 1);
        assert forall|path: Seq<char>| #[trigger]
            declares_derived(catalog, selected, count, path) <==> declares_derived(
                catalog,
                selected,
                count - 1,
                path,
            ) || (catalog.find(selected[count - 1]) matches Some(module) && texts(
                module.generator_ownership.derived@,
            ).contains(path)) by {
            if declares_derived(catalog, selected, count - 1, path) {
                let i = choose|i: int|
                    0 <= i < count - 1 && (catalog.find(#[trigger] selected[i]) matches Some(module)
                        && texts(module.generator_ownership.derived@).contains(path));
                assert(catalog.find(selected[i]) is Some);
            }
            if catalog.find(selected[count - 1]) matches Some(module) && texts(
                module.generator_ownership.derived@,
            ).contains(path) {
                assert(catalog.find(selected[count - 1]) is Some);
            }
        }
        if let Some(module) = catalog.find(selected[count - 1]) {
            let paths = texts(module.generator_ownership.derived@);
            if let Ok(before) = derived_list(catalog, selected, count - 1) {
                lemma_module_derived(selected[count - 1], paths, before, paths.len() as int);
                assert(paths.take(paths.len() as int) =~= paths);
                if let Ok(list) = derived_list(catalog, selected, count) {
                    assert(list == before + paths);
                    assert forall|path: Seq<char>| #[trigger] list.contains(path)
                        <==> is_always_derived(path) || declares_derived(
                        catalog,
                        selected,
                        count,
                        path,
                    ) by {
                        assert(before.contains(path) <==> is_always_derived(path)
                            || declares_derived(catalog, selected, count - 1, path));
                        if list.contains(path) {
                            let k = choose|k: int| 0 <= k < list.len() && list[k] == path;
                            if k < before.len() {
                                assert(before[k] == path);
                            } else {
                                assert(paths[k - before.len()] == path);
                            }
                        }
                        if before.contains(path) {
                            let k = choose|k: int| 0 <= k < before.len() && before[k] == path;
                            assert(list[k] == path);
                        }
                        if paths.contains(path) {
                            let k = choose|k: int| 0 <= k < paths.len() && paths[k] == path;
                            assert(list[before.len() + k] == path);
                        }
                    }
                }
                if forall|i: int| 0 <= i < paths.len() ==> is_derivable(#[trigger] paths[i]) {
                    assert forall|path: Seq<char>| #[trigger]
                        declares_derived(catalog, selected, count, path) implies is_derivable(
                        path,
                    ) by {
                        if paths.contains(path) {
                            let k = choose|k: int| 0 <= k < paths.len() && paths[k] == path;
                            assert(is_derivable(paths[k]));
                        }
                    }
                } else {
                    let i = choose|i: int| 0 <= i < paths.len() && !is_derivable(
                        #[trigger] paths[i],
                    );
                    assert(paths.contains(paths[i]));
                    assert(declares_derived(catalog, selected, count, paths[i]));
                }
            } else {
                if exists|path: Seq<char>| #[trigger]
                    declares_derived(catalog, selected, count - 1, path) && !is_derivable(path) {
                    let path = choose|path: Seq<char>| #[trigger]
                        declares_derived(catalog, selected, count - 1, path) && !is_derivable(path);
                    assert(declares_derived(catalog, selected, count, path));
                }
            }
        }
    } else {
        assert forall|path: Seq<char>| #[trigger] always_derived().contains(path)
            <==> is_always_derived(path) || declares_derived(catalog, selected, 0, path) by {
            lemma_always(path);
        }
    }
}

/// The derived paths of a selection are, in order, the four of every project and those that the
/// selected modules declare; there are none only where a selected module is unknown or declares a
/// path that cannot be derived.
pub proof fn lemma_derived_paths(catalog: ModuleCatalog, selected: Seq<Seq<char>>)
    ensures
        match derived_paths(catalog, selected) {
            Ok(paths) => {
                &&& ascending::<String>(paths)
                &&& forall|path: Seq<char>| #[trigger]
                    paths.contains(path) <==> is_always_derived(path) || declares_derived(
                        catalog,
                        selected,
                        selected.len() as int,
                        path,
                    )
            },
            Err(_) => (exists|i: int|
                0 <= i < selected.len() && !catalog.has_module(#[trigger] selected[i])) || exists|
                path: Seq<char>,
            | #[trigger]
                declares_derived(catalog, selected, selected.len() as int, path)
                    && !is_always_derived(path) && path
                    != "packages/web-sdk/src/react/index.ts"@,
        },
{
    let total = selected.len() as int;
    lemma_derived_list(catalog, selected, total);
    if let Ok(list) = derived_list(catalog, selected, total) {
        lemma_listing_exists::<String>(list);
    } else if forall|i: int| 0 <= i < total ==> catalog.has_module(#[trigger] selected[i]) {
        let path = choose|path: Seq<char>| #[trigger]
            declares_derived(catalog, selected, total, path) && !is_derivable(path);
        lemma_always(path);
    }
}

/// Each derived file has its own contents.
pub proof fn lemma_derived_files(
    catalog: ModuleCatalog,
    selected: Seq<Seq<char>>,
    service: Seq<char>,
    retained: Seq<Seq<char>>,
    image: Seq<char>,
)
    ensures
        managed_text("docs/module-catalog.md"@, catalog, selected, service, retained, image)
            == module_listing(catalog, selected),
        managed_text("config/reference.toml"@, catalog, selected, service, retained, image)
            == reference_document(catalog, selected, service, toml_writing()),
        managed_text("ops/compose.yaml"@, catalog, selected, service, retained, image)
            == compose_file(catalog, selected, retained),
        managed_text(
            "packages/web-sdk/src/react/index.ts"@,
            catalog,
            selected,
            service,
            retained,
            image,
        ) == Ok::<Seq<char>, ManagerFailure>(react_index(selected)),
{
    lemma_always("docs/module-catalog.md"@);
    lemma_always("config/reference.toml"@);
    lemma_always("ops/compose.yaml"@);
    reveal_strlit("docs/module-catalog.md");
    reveal_strlit("config/reference.toml");
    reveal_strlit("ops/compose.yaml");
    reveal_strlit("ops/Dockerfile");
    reveal_strlit("packages/web-sdk/src/react/index.ts");
    assert("docs/module-catalog.md"@.len() == 22);
    assert("config/reference.toml"@.len() == 21);
    assert("ops/compose.yaml"@.len() == 16);
    assert("ops/Dockerfile"@.len() == 14);
    assert("packages/web-sdk/src/react/index.ts"@.len() == 35);
}

} // verus!
