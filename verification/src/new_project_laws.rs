//! What the files and the state of a new project are.

use vstd::prelude::*;
use vstd::string::*;

use crate::application_templates::{
    template_catalog_defect, template_place, ApplicationTemplateDescriptor,
};
use crate::compose_laws::lemma_arranged_members;
use crate::derived::derived_text;
use crate::diagnosis::{text_hash, InputsModel};
use crate::management::ManagerFailure;
use crate::modules::ModuleCatalog;
use crate::ordered::sorted_listing;
use crate::plan_files::owner_place;
use crate::plan_selection::retaining;
use crate::release::ReleaseModel;
use crate::render::{
    application_files, base_files, initial_modules, is_name_char, is_service_name,
    module_template_files, RenderedModel, TemplateFile, TemplateOwnership,
};
use crate::render_course::{
    begun, by_path, canonical, request_context, state_file, ProfileRequestModel,
};
use crate::render_profile::{
    added_files, all_refreshed, composed_files, composed_owner, derived_files, derived_order,
    merged_files, refreshed, rendered_rank, with_all_rendered,
};
use crate::rendering::REACT_INDEX_PATH;
use crate::selection::listing;
use crate::state::{owner_of, OwnershipKind, OwnershipModel, StateModel, PROJECT_STATE_PATH};
use crate::templates::{named_source, template_text, ContextModel};
use crate::text::texts;

verus! {

/// A service name is one to sixty-four lowercase letters, digits and hyphens; it begins with a
/// letter and does not end with a hyphen.
pub proof fn lemma_service_name(name: Seq<char>)
    ensures
        is_service_name(name) <==> {
            &&& 1 <= name.len() <= 64
            &&& 'a' <= name[0] && name[0] <= 'z'
            &&& name[name.len() - 1] != '-'
            &&& forall|i: int|
                0 <= i < name.len() ==> {
                    let character = #[trigger] name[i];
                    ||| 'a' <= character && character <= 'z'
                    ||| '0' <= character && character <= '9'
                    ||| character == '-'
                }
        },
{
    assert forall|i: int| 0 <= i < name.len() implies (is_name_char(#[trigger] name[i]) <==> ('a'
        <= name[i] && name[i] <= 'z') || ('0' <= name[i] && name[i] <= '9') || name[i] == '-') by {}
}

/// The base of a new project has one file for each template, in order: at its path, with its owner,
/// and with what the template gives for the service.
pub proof fn lemma_base_files(
    templates: Seq<TemplateFile>,
    service: Seq<char>,
    context: ContextModel,
    count: int,
)
    requires
        0 <= count <= templates.len(),
    ensures
        match base_files(templates, service, context, count) {
            Ok(files) => {
                &&& files.len() == count
                &&& forall|i: int|
                    0 <= i < count ==> {
                        &&& (#[trigger] files[i]).path == templates[i].path@
                        &&& files[i].ownership == templates[i].ownership
                        &&& template_text(
                            templates[i].path@,
                            named_source(templates[i].source@, service),
                            context,
                        ) == Ok::<Seq<char>, Seq<char>>(files[i].contents)
                    }
            },
            Err(message) => exists|i: int|
                0 <= i < count && template_text(
                    (#[trigger] templates[i]).path@,
                    named_source(templates[i].source@, service),
                    context,
                ) == Err::<Seq<char>, Seq<char>>(message),
        },
    decreases count,
{
    if count > 0 {
        lemma_base_files(templates, service, context, count - 1);
        match base_files(templates, service, context, count) {
            Ok(files) => {
                let before = base_files(templates, service, context, count - 1)->Ok_0;
                assert forall|i: int| 0 <= i < count implies {
                    &&& (#[trigger] files[i]).path == templates[i].path@
                    &&& files[i].ownership == templates[i].ownership
                    &&& template_text(
                        templates[i].path@,
                        named_source(templates[i].source@, service),
                        context,
                    ) == Ok::<Seq<char>, Seq<char>>(files[i].contents)
                } by {
                    if i < count - 1 {
                        assert(files[i] == before[i]);
                    }
                }
            },
            Err(message) => {
                match base_files(templates, service, context, count - 1) {
                    Err(earlier) => {
                        let i = choose|i: int|
                            0 <= i < count - 1 && template_text(
                                (#[trigger] templates[i]).path@,
                                named_source(templates[i].source@, service),
                                context,
                            ) == Err::<Seq<char>, Seq<char>>(earlier);
                        assert(templates[i].path@ == templates[i].path@);
                    },
                    Ok(before) => {
                        assert(templates[count - 1].path@ == templates[count - 1].path@);
                    },
                }
            },
        }
    }
}

/// A new project records every module of its profile, in order, with the version that the catalog
/// has; it fails where the catalog lacks one.
pub proof fn lemma_initial_modules(catalog: ModuleCatalog, modules: Seq<Seq<char>>, count: int)
    requires
        0 <= count <= modules.len(),
    ensures
        match initial_modules(catalog, modules, count) {
            Ok(pairs) => {
                &&& pairs.len() == count
                &&& forall|i: int|
                    0 <= i < count ==> {
                        &&& (#[trigger] pairs[i]).0 == modules[i]
                        &&& catalog.find(modules[i]) matches Some(module) && pairs[i].1
                            == module.version@
                    }
            },
            Err(_) => exists|i: int|
                0 <= i < count && catalog.find(#[trigger] modules[i]) is None,
        },
    decreases count,
{
    if count > 0 {
        lemma_initial_modules(catalog, modules, count - 1);
        if let Ok(pairs) = initial_modules(catalog, modules, count) {
            let before = initial_modules(catalog, modules, count - 1)->Ok_0;
            assert forall|i: int| 0 <= i < count implies {
                &&& (#[trigger] pairs[i]).0 == modules[i]
                &&& catalog.find(modules[i]) matches Some(module) && pairs[i].1 == module.version@
            } by {
                if i < count - 1 {
                    assert(pairs[i] == before[i]);
                }
            }
        } else if initial_modules(catalog, modules, count - 1) is Ok {
            assert(catalog.find(modules[count - 1]) is None);
        }
    }
}

/// Whether a file is what an application template of a module gives.
pub open spec fn is_template_of(
    templates: Seq<ApplicationTemplateDescriptor>,
    id: Seq<char>,
    file: RenderedModel,
) -> bool {
    &&& file.ownership == TemplateOwnership::Application
    &&& exists|k: int|
        0 <= k < templates.len() && (#[trigger] templates[k]).module@ == id
            && templates[k].path@ == file.path && templates[k].source@ == file.contents
}

proof fn lemma_template_place(
    templates: Seq<ApplicationTemplateDescriptor>,
    id: Seq<char>,
    path: Seq<char>,
    at: int,
)
    requires
        0 <= at <= templates.len(),
    ensures
        ({
            let place = template_place(templates, id, path, at);
            at <= place <= templates.len() && (place < templates.len() ==> templates[place].module@
                == id && templates[place].path@ == path)
        }),
    decreases templates.len() - at,
{
    if at < templates.len() && !(templates[at].module@ == id && templates[at].path@ == path) {
        lemma_template_place(templates, id, path, at + 1);
    }
}

proof fn lemma_module_templates(
    templates: Seq<ApplicationTemplateDescriptor>,
    id: Seq<char>,
    paths: Seq<Seq<char>>,
    count: int,
)
    requires
        0 <= count <= paths.len(),
    ensures
        module_template_files(templates, id, paths, count) matches Ok(files) ==> {
            &&& files.len() == count
            &&& forall|i: int|
                0 <= i < count ==> (#[trigger] files[i]).path == paths[i] && is_template_of(
                    templates,
                    id,
                    files[i],
                )
        },
    decreases count,
{
    if count > 0 {
        lemma_module_templates(templates, id, paths, count - 1);
        if let Ok(files) = module_template_files(templates, id, paths, count) {
            let before = module_template_files(templates, id, paths, count - 1)->Ok_0;
            lemma_template_place(templates, id, paths[count - 1], 0);
            let place = template_place(templates, id, paths[count - 1], 0);
            assert forall|i: int| 0 <= i < count implies (#[trigger] files[i]).path == paths[i]
                && is_template_of(templates, id, files[i]) by {
                if i < count - 1 {
                    assert(files[i] == before[i]);
                } else {
                    assert(templates[place].source@ == files[i].contents);
                }
            }
        }
    }
}

/// Whether an application template of a module is among files.
pub open spec fn has_template(
    templates: Seq<ApplicationTemplateDescriptor>,
    files: Seq<RenderedModel>,
    id: Seq<char>,
    path: Seq<char>,
) -> bool {
    exists|k: int|
        0 <= k < files.len() && (#[trigger] files[k]).path == path && is_template_of(
            templates,
            id,
            files[k],
        )
}

/// Whether a module declares a file as one of its application templates.
pub open spec fn brings(
    catalog: ModuleCatalog,
    templates: Seq<ApplicationTemplateDescriptor>,
    id: Seq<char>,
    file: RenderedModel,
) -> bool {
    &&& catalog.find(id) matches Some(module) && texts(module.application_templates@).contains(
        file.path,
    )
    &&& is_template_of(templates, id, file)
}

proof fn lemma_more_files(
    templates: Seq<ApplicationTemplateDescriptor>,
    files: Seq<RenderedModel>,
    more: Seq<RenderedModel>,
    id: Seq<char>,
    path: Seq<char>,
)
    ensures
        has_template(templates, files, id, path) ==> has_template(templates, files + more, id, path),
        has_template(templates, more, id, path) ==> has_template(templates, files + more, id, path),
{
    let all = files + more;
    if has_template(templates, files, id, path) {
        let k = choose|k: int|
            0 <= k < files.len() && (#[trigger] files[k]).path == path && is_template_of(
                templates,
                id,
                files[k],
            );
        assert(all[k] == files[k]);
    }
    if has_template(templates, more, id, path) {
        let k = choose|k: int|
            0 <= k < more.len() && (#[trigger] more[k]).path == path && is_template_of(
                templates,
                id,
                more[k],
            );
        assert(all[files.len() + k] == more[k]);
    }
}

/// A new project gets every application template of its modules, and nothing else of them: each
/// template at its path, owned by the application, as it is embedded for its module.
pub proof fn lemma_application_files(
    catalog: ModuleCatalog,
    templates: Seq<ApplicationTemplateDescriptor>,
    modules: Seq<Seq<char>>,
    count: int,
)
    requires
        0 <= count <= modules.len(),
    ensures
        application_files(catalog, templates, modules, count) matches Ok(files) ==> {
            &&& forall|i: int, path: Seq<char>|
                0 <= i < count && (catalog.find(modules[i]) matches Some(module) && texts(
                    module.application_templates@,
                ).contains(path)) ==> #[trigger] has_template(templates, files, modules[i], path)
            &&& forall|k: int|
                0 <= k < files.len() ==> exists|i: int|
                    0 <= i < count && brings(
                        catalog,
                        templates,
                        #[trigger] modules[i],
                        #[trigger] files[k],
                    )
        },
    decreases count,
{
    if count > 0 {
        lemma_application_files(catalog, templates, modules, count - 1);
        if let Ok(files) = application_files(catalog, templates, modules, count) {
            let before = application_files(catalog, templates, modules, count - 1)->Ok_0;
            let last = modules[count - 1];
            let module = catalog.find(last)->Some_0;
            let paths = texts(module.application_templates@);
            let more = module_template_files(templates, last, paths, paths.len() as int)->Ok_0;
            lemma_module_templates(templates, last, paths, paths.len() as int);
            assert(files == before + more);
            assert forall|i: int, path: Seq<char>|
                0 <= i < count && (catalog.find(modules[i]) matches Some(module) && texts(
                    module.application_templates@,
                ).contains(path)) implies #[trigger] has_template(
                templates,
                files,
                modules[i],
                path,
            ) by {
                lemma_more_files(templates, before, more, modules[i], path);
                if i < count - 1 {
                    assert(has_template(templates, before, modules[i], path));
                } else {
                    let j = choose|j: int| 0 <= j < paths.len() && paths[j] == path;
                    assert(more[j].path == path);
                    assert(has_template(templates, more, last, path));
                }
            }
            assert forall|k: int| 0 <= k < files.len() implies exists|i: int|
                0 <= i < count && brings(
                    catalog,
                    templates,
                    #[trigger] modules[i],
                    #[trigger] files[k],
                ) by {
                if k < before.len() {
                    assert(files[k] == before[k]);
                    let i = choose|i: int|
                        0 <= i < count - 1 && brings(
                            catalog,
                            templates,
                            #[trigger] modules[i],
                            before[k],
                        );
                    assert(brings(catalog, templates, modules[i], files[k]));
                } else {
                    assert(files[k] == more[k - before.len()]);
                    assert(paths[k - before.len()] == files[k].path);
                    assert(paths.contains(files[k].path));
                    assert(brings(catalog, templates, modules[count - 1], files[k]));
                }
            }
        }
    }
}

/// A new project has five derived files, each with its text: the reference configuration, the
/// module catalog, the Compose file, the image, and the index of the web application.
pub proof fn lemma_derived_files(
    catalog: ModuleCatalog,
    selected: Seq<Seq<char>>,
    state: StateModel,
    image: Seq<char>,
)
    ensures
        derived_files(catalog, selected, state, image, 5) matches Ok(files) ==> {
            &&& files.len() == 5
            &&& files[0].path == "config/reference.toml"@
            &&& files[1].path == "docs/module-catalog.md"@
            &&& files[2].path == "ops/compose.yaml"@
            &&& files[3].path == "ops/Dockerfile"@
            &&& files[4].path == REACT_INDEX_PATH@
            &&& forall|i: int|
                0 <= i < 5 ==> (#[trigger] files[i]).ownership == TemplateOwnership::Derived
                    && derived_text(
                    files[i].path,
                    catalog,
                    selected,
                    state.service,
                    state.retained_volumes,
                    image,
                ) == Ok::<Seq<char>, ManagerFailure>(files[i].contents)
        },
{
    lemma_derived_each(catalog, selected, state, image, 5);
}

proof fn lemma_derived_each(
    catalog: ModuleCatalog,
    selected: Seq<Seq<char>>,
    state: StateModel,
    image: Seq<char>,
    count: int,
)
    requires
        0 <= count <= 5,
    ensures
        derived_files(catalog, selected, state, image, count) matches Ok(files) ==> {
            &&& files.len() == count
            &&& forall|i: int|
                0 <= i < count ==> (#[trigger] files[i]).path == derived_order()[i]
                    && files[i].ownership == TemplateOwnership::Derived && derived_text(
                    files[i].path,
                    catalog,
                    selected,
                    state.service,
                    state.retained_volumes,
                    image,
                ) == Ok::<Seq<char>, ManagerFailure>(files[i].contents)
        },
    decreases count,
{
    if count > 0 {
        lemma_derived_each(catalog, selected, state, image, count - 1);
        if let Ok(files) = derived_files(catalog, selected, state, image, count) {
            let before = derived_files(catalog, selected, state, image, count - 1)->Ok_0;
            assert forall|i: int| 0 <= i < count implies (#[trigger] files[i]).path
                == derived_order()[i] && files[i].ownership == TemplateOwnership::Derived
                && derived_text(
                files[i].path,
                catalog,
                selected,
                state.service,
                state.retained_volumes,
                image,
            ) == Ok::<Seq<char>, ManagerFailure>(files[i].contents) by {
                if i < count - 1 {
                    assert(files[i] == before[i]);
                }
            }
        }
    }
}

// Records.
/// Whether no path is recorded twice.
pub open spec fn are_distinct(records: Seq<OwnershipModel>) -> bool {
    forall|i: int, j: int|
        0 <= i < j < records.len() ==> (#[trigger] records[i]).path != (#[trigger] records[j]).path
}

/// Whether a record is that of a file: its owner is that of the template, and what the kit or the
/// generator owns is approved as it is.
pub open spec fn records_file(record: OwnershipModel, file: RenderedModel) -> bool {
    &&& record.path == file.path
    &&& match file.ownership {
        TemplateOwnership::Kit => record.kind == OwnershipKind::KitOwned && record.approved
            == Some(text_hash(file.contents)),
        TemplateOwnership::Derived => record.kind == OwnershipKind::Derived && record.approved
            == Some(text_hash(file.contents)),
        TemplateOwnership::Application => record.kind == OwnershipKind::ApplicationOwned
            && record.approved is None,
    }
}

proof fn lemma_owner_place(records: Seq<OwnershipModel>, path: Seq<char>, at: int)
    requires
        0 <= at <= records.len(),
    ensures
        at <= owner_place(records, path, at) <= records.len(),
        owner_place(records, path, at) < records.len() ==> records[owner_place(
            records,
            path,
            at,
        )].path == path,
        forall|i: int|
            at <= i < owner_place(records, path, at) ==> (#[trigger] records[i]).path != path,
    decreases records.len() - at,
{
    if at < records.len() && records[at].path != path {
        lemma_owner_place(records, path, at + 1);
    }
}

/// Recording the files of a new project, each at a path of its own, gives every file but the state
/// itself one record, with its owner and, where the kit or the generator owns it, its hash. Records
/// of other paths stay, and none is added.
pub proof fn lemma_recorded_files(
    records: Seq<OwnershipModel>,
    files: Seq<RenderedModel>,
    count: int,
)
    requires
        0 <= count <= files.len(),
        are_distinct(records),
        forall|i: int, j: int|
            0 <= i < j < files.len() ==> (#[trigger] files[i]).path != (#[trigger] files[j]).path,
    ensures
        with_all_rendered(records, files, count) matches Ok(after) ==> {
            &&& are_distinct(after)
            &&& forall|k: int|
                0 <= k < count && (#[trigger] files[k]).path != ".omnius/service.toml"@
                    ==> exists|i: int|
                    0 <= i < after.len() && records_file(#[trigger] after[i], files[k])
            &&& forall|i: int|
                0 <= i < records.len() && (forall|k: int|
                    0 <= k < count ==> (#[trigger] files[k]).path != records[i].path)
                    ==> after.contains(#[trigger] records[i])
            &&& forall|i: int|
                0 <= i < after.len() ==> records.contains(#[trigger] after[i]) || exists|k: int|
                    0 <= k < count && records_file(after[i], #[trigger] files[k])
        },
    decreases count,
{
    if count > 0 {
        lemma_recorded_files(records, files, count - 1);
        if let Ok(after) = with_all_rendered(records, files, count) {
            let before = with_all_rendered(records, files, count - 1)->Ok_0;
            let file = files[count - 1];
            lemma_owner_place(before, file.path, 0);
            let place = owner_place(before, file.path, 0);
            assert(PROJECT_STATE_PATH@ == ".omnius/service.toml"@);
            if file.path == ".omnius/service.toml"@ {
                assert(after == before);
            } else {
                assert(after.len() == before.len() || after.len() == before.len() + 1);
                assert(place < after.len() && records_file(after[place], file));
                assert forall|i: int| 0 <= i < before.len() && i != place implies after[i]
                    == #[trigger] before[i] by {}
            }
            assert forall|k: int|
                0 <= k < count && (#[trigger] files[k]).path
                    != ".omnius/service.toml"@ implies exists|i: int|
                0 <= i < after.len() && records_file(#[trigger] after[i], files[k]) by {
                if k < count - 1 {
                    let i = choose|i: int|
                        0 <= i < before.len() && records_file(#[trigger] before[i], files[k]);
                    assert(files[k].path != file.path);
                    assert(after[i] == before[i]);
                } else {
                    assert(records_file(after[place], files[k]));
                }
            }
            assert forall|i: int|
                0 <= i < records.len() && (forall|k: int|
                    0 <= k < count ==> (#[trigger] files[k]).path
                        != records[i].path) implies after.contains(#[trigger] records[i]) by {
                assert(before.contains(records[i]));
                let m = choose|m: int| 0 <= m < before.len() && before[m] == records[i];
                assert(files[count - 1].path != records[i].path);
                assert(after[m] == before[m]);
            }
            assert forall|i: int| 0 <= i < after.len() implies records.contains(
                #[trigger] after[i],
            ) || exists|k: int| 0 <= k < count && records_file(after[i], #[trigger] files[k]) by {
                if i < before.len() && after[i] == before[i] {
                    if !records.contains(before[i]) {
                        let k = choose|k: int|
                            0 <= k < count - 1 && records_file(before[i], #[trigger] files[k]);
                        assert(records_file(after[i], files[k]));
                    }
                } else {
                    assert(records_file(after[i], files[count - 1]));
                }
            }
            assert forall|i: int, j: int| 0 <= i < j < after.len() implies (
            #[trigger] after[i]).path != (#[trigger] after[j]).path by {
                if j < before.len() {
                    assert(before[i].path != before[j].path);
                } else if i < before.len() {
                    assert(before[i].path != file.path);
                }
            }
        }
    }
}

/// Refreshing records keeps their paths and owners, in order; what the kit or the generator owns is
/// approved as it is in the files, where it has to be, and nothing else is approved.
pub proof fn lemma_refreshed(
    records: Seq<OwnershipModel>,
    files: Map<Seq<char>, Seq<char>>,
    count: int,
)
    requires
        0 <= count <= records.len(),
    ensures
        all_refreshed(records, files, count) matches Ok(after) ==> {
            &&& after.len() == count
            &&& forall|i: int|
                0 <= i < count ==> {
                    let record = #[trigger] after[i];
                    &&& record.path == records[i].path
                    &&& record.kind == records[i].kind
                    &&& record.path != ".omnius/service.toml"@
                    &&& if record.kind == OwnershipKind::KitOwned || record.kind
                        == OwnershipKind::Derived {
                        files.contains_key(record.path) && record.approved == Some(
                            text_hash(files[record.path]),
                        )
                    } else {
                        record.approved is None
                    }
                }
        },
    decreases count,
{
    if count > 0 {
        lemma_refreshed(records, files, count - 1);
        if let Ok(after) = all_refreshed(records, files, count) {
            let before = all_refreshed(records, files, count - 1)->Ok_0;
            assert(after == before.push(refreshed(records[count - 1], files)->Ok_0));
            assert forall|i: int| 0 <= i < count implies {
                let record = #[trigger] after[i];
                &&& record.path == records[i].path
                &&& record.kind == records[i].kind
                &&& record.path != ".omnius/service.toml"@
                &&& if record.kind == OwnershipKind::KitOwned || record.kind
                    == OwnershipKind::Derived {
                    files.contains_key(record.path) && record.approved == Some(
                        text_hash(files[record.path]),
                    )
                } else {
                    record.approved is None
                }
            } by {
                if i < count - 1 {
                    assert(after[i] == before[i]);
                }
            }
        }
    }
}

// Composition.
proof fn lemma_composed(
    files: Seq<RenderedModel>,
    composed: Map<Seq<char>, Seq<char>>,
    count: int,
)
    requires
        0 <= count <= files.len(),
    ensures
        composed_files(files, composed, count) matches Ok(taken) ==> {
            &&& taken.0.len() == count
            &&& forall|i: int|
                0 <= i < count ==> (#[trigger] taken.0[i]).path == files[i].path
                    && taken.0[i].ownership == files[i].ownership && composed.contains_key(
                    files[i].path,
                ) && taken.0[i].contents == composed[files[i].path]
            &&& forall|path: Seq<char>| #[trigger]
                taken.1.contains_key(path) <==> composed.contains_key(path) && forall|i: int|
                    0 <= i < count ==> (#[trigger] files[i]).path != path
            &&& forall|path: Seq<char>| #[trigger]
                taken.1.contains_key(path) ==> taken.1[path] == composed[path]
        },
    decreases count,
{
    if count > 0 {
        lemma_composed(files, composed, count - 1);
        if let Ok(taken) = composed_files(files, composed, count) {
            let before = composed_files(files, composed, count - 1)->Ok_0;
            let file = files[count - 1];
            assert(before.1.contains_key(file.path));
            assert forall|i: int| 0 <= i < count implies (#[trigger] taken.0[i]).path
                == files[i].path && taken.0[i].ownership == files[i].ownership
                && composed.contains_key(files[i].path) && taken.0[i].contents
                == composed[files[i].path] by {
                if i < count - 1 {
                    assert(taken.0[i] == before.0[i]);
                }
            }
            assert forall|path: Seq<char>| #[trigger]
                taken.1.contains_key(path) <==> composed.contains_key(path) && forall|i: int|
                    0 <= i < count ==> (#[trigger] files[i]).path != path by {
                assert(taken.1.contains_key(path) <==> before.1.contains_key(path) && path
                    != file.path);
                if composed.contains_key(path) && forall|i: int|
                    0 <= i < count ==> (#[trigger] files[i]).path != path {
                    assert(files[count - 1].path != path);
                }
            }
        }
    }
}

/// The owner of a file that a record names.
pub open spec fn recorded_owner(kind: Option<OwnershipKind>) -> Option<TemplateOwnership> {
    match kind {
        Some(OwnershipKind::KitOwned) => Some(TemplateOwnership::Kit),
        Some(OwnershipKind::Derived) => Some(TemplateOwnership::Derived),
        Some(OwnershipKind::ApplicationOwned) => Some(TemplateOwnership::Application),
        _ => None,
    }
}

proof fn lemma_added(
    state: StateModel,
    rest: Map<Seq<char>, Seq<char>>,
    paths: Seq<Seq<char>>,
    count: int,
)
    requires
        0 <= count <= paths.len(),
    ensures
        added_files(state, rest, paths, count) matches Ok(files) ==> {
            &&& files.len() == count
            &&& forall|i: int|
                0 <= i < count ==> (#[trigger] files[i]).path == paths[i] && files[i].contents
                    == rest[paths[i]] && recorded_owner(owner_of(state.ownership, paths[i]))
                    == Some(files[i].ownership)
        },
    decreases count,
{
    if count > 0 {
        lemma_added(state, rest, paths, count - 1);
        if let Ok(files) = added_files(state, rest, paths, count) {
            let before = added_files(state, rest, paths, count - 1)->Ok_0;
            assert(composed_owner(state, paths[count - 1]) is Ok);
            assert forall|i: int| 0 <= i < count implies (#[trigger] files[i]).path == paths[i]
                && files[i].contents == rest[paths[i]] && recorded_owner(
                owner_of(state.ownership, paths[i]),
            ) == Some(files[i].ownership) by {
                if i < count - 1 {
                    assert(files[i] == before[i]);
                }
            }
        }
    }
}

/// The files of a new project are exactly those that composition leaves, with its contents. What
/// was rendered before keeps its owner; what composition adds has the owner that the state records.
pub proof fn lemma_merged(
    files: Seq<RenderedModel>,
    state: StateModel,
    composed: Map<Seq<char>, Seq<char>>,
)
    requires
        composed.dom().finite(),
    ensures
        merged_files(files, state, composed) matches Ok(all) ==> {
            &&& forall|i: int|
                0 <= i < files.len() ==> composed.contains_key((#[trigger] files[i]).path)
                    && all.contains(
                    RenderedModel { contents: composed[files[i].path], ..files[i] },
                )
            &&& forall|file: RenderedModel| #[trigger]
                all.contains(file) ==> composed.contains_key(file.path) && file.contents
                    == composed[file.path] && ((exists|i: int|
                    0 <= i < files.len() && (#[trigger] files[i]).path == file.path
                        && files[i].ownership == file.ownership) || recorded_owner(
                    owner_of(state.ownership, file.path),
                ) == Some(file.ownership))
            &&& forall|path: Seq<char>| #[trigger]
                composed.contains_key(path) ==> exists|k: int|
                    0 <= k < all.len() && (#[trigger] all[k]).path == path
        },
{
    if let Ok(all) = merged_files(files, state, composed) {
        lemma_composed(files, composed, files.len() as int);
        let taken = composed_files(files, composed, files.len() as int)->Ok_0;
        let paths = listing(taken.1.dom());
        assert(taken.1.dom().subset_of(composed.dom()));
        vstd::set_lib::lemma_set_subset_finite(composed.dom(), taken.1.dom());
        lemma_listing_of(taken.1.dom());
        lemma_added(state, taken.1, paths, paths.len() as int);
        let more = added_files(state, taken.1, paths, paths.len() as int)->Ok_0;
        let both = taken.0 + more;
        lemma_arranged_members(both, rendered_rank());
        assert forall|file: RenderedModel| #[trigger] all.contains(file) <==> both.contains(
            file,
        ) by {}
        assert forall|i: int| 0 <= i < files.len() implies composed.contains_key(
            (#[trigger] files[i]).path,
        ) && all.contains(RenderedModel { contents: composed[files[i].path], ..files[i] }) by {
            let file = RenderedModel { contents: composed[files[i].path], ..files[i] };
            assert(taken.0[i] == file);
            assert(both[i] == file);
            assert(both.contains(file));
        }
        assert forall|file: RenderedModel| #[trigger] all.contains(
            file,
        ) implies composed.contains_key(file.path) && file.contents == composed[file.path] && ((
        exists|i: int|
            0 <= i < files.len() && (#[trigger] files[i]).path == file.path && files[i].ownership
                == file.ownership) || recorded_owner(owner_of(state.ownership, file.path)) == Some(
            file.ownership,
        )) by {
            assert(both.contains(file));
            let k = choose|k: int| 0 <= k < both.len() && both[k] == file;
            if k < taken.0.len() {
                assert(taken.0[k] == file);
                assert(files[k].path == file.path);
            } else {
                let m = k - taken.0.len();
                assert(more[m] == file);
                assert(paths.contains(paths[m]));
                assert(taken.1.contains_key(file.path));
            }
        }
        assert forall|path: Seq<char>| #[trigger] composed.contains_key(path) implies exists|k: int|
            0 <= k < all.len() && (#[trigger] all[k]).path == path by {
            let file = if taken.1.contains_key(path) {
                assert(paths.contains(path));
                let m = choose|m: int| 0 <= m < paths.len() && paths[m] == path;
                assert(both[taken.0.len() + m] == more[m]);
                more[m]
            } else {
                let i = choose|i: int| 0 <= i < files.len() && (#[trigger] files[i]).path == path;
                assert(both[i] == taken.0[i]);
                taken.0[i]
            };
            assert(file.path == path);
            assert(both.contains(file));
            assert(all.contains(file));
            let k = choose|k: int| 0 <= k < all.len() && all[k] == file;
            assert(all[k].path == path);
        }
    }
}

proof fn lemma_listing_of(set: Set<Seq<char>>)
    requires
        set.finite(),
    ensures
        forall|path: Seq<char>| #[trigger] listing(set).contains(path) <==> set.contains(path),
{
    let list = set.to_seq();
    set.lemma_to_seq_to_set_id();
    assert(list.to_set() == set);
    crate::plan_settled::lemma_listing_holds(list);
    crate::ordered::lemma_listing_exists::<String>(list);
    assert forall|path: Seq<char>| #[trigger] listing(set).contains(path) <==> set.contains(
        path,
    ) by {
        assert(list.to_set().contains(path) <==> list.contains(path));
    }
}

// Stages.
/// Whether a region is recorded as empty.
pub open spec fn is_recorded_empty(state: StateModel, path: Seq<char>, id: Seq<char>) -> bool {
    exists|i: int|
        0 <= i < state.regions.len() && (#[trigger] state.regions[i]).path == path
            && state.regions[i].id == id && state.regions[i].content_hash == text_hash(Seq::empty())
}

/// A new project begins only with a catalog of the release. Its state records the service, the
/// release, the profile without changes to it, every module with its version, the providers that
/// were asked for, the lockfile as such, and the two regions, empty; its files are those of the
/// templates.
pub proof fn lemma_begun(
    inputs: InputsModel,
    templates: Seq<TemplateFile>,
    request: ProfileRequestModel,
    release: ReleaseModel,
)
    ensures
        begun(inputs, templates, request, release) matches Ok(stage) ==> {
            let state = stage.0;
            &&& inputs.catalog.bundle_version@ == release.version
            &&& template_catalog_defect(inputs.templates, inputs.catalog.modules@) is None
            &&& state.schema_version == 2
            &&& state.service == request.service
            &&& state.framework == release
            &&& state.profile.id == request.profile
            &&& state.profile.version == release.version
            &&& state.profile.additions.len() == 0
            &&& state.profile.removals.len() == 0
            &&& state.retained_volumes.len() == 0
            &&& state.providers == request.providers
            &&& state.modules.len() == request.modules.len()
            &&& forall|i: int|
                0 <= i < state.modules.len() ==> (#[trigger] state.modules[i]).0
                    == request.modules[i] && (inputs.catalog.find(request.modules[i]) matches Some(
                    module,
                ) && state.modules[i].1 == module.version@)
            &&& state.ownership.len() == 1
            &&& state.ownership[0].path == "Cargo.lock"@
            &&& state.ownership[0].kind == OwnershipKind::DependencyLock
            &&& state.regions.len() == 2
            &&& is_recorded_empty(state, "Cargo.toml"@, "framework-dependency"@)
            &&& is_recorded_empty(state, "apps/service/src/composition.rs"@, "modules"@)
            &&& stage.1.len() == templates.len()
            &&& forall|i: int|
                0 <= i < templates.len() ==> (#[trigger] stage.1[i]).path == templates[i].path@
                    && stage.1[i].ownership == templates[i].ownership
        },
{
    if let Ok(stage) = begun(inputs, templates, request, release) {
        lemma_base_files(
            templates,
            request.service,
            request_context(request, release),
            templates.len() as int,
        );
        lemma_initial_modules(inputs.catalog, request.modules, request.modules.len() as int);
        assert(stage.0.regions[0].path == "Cargo.toml"@);
        assert(stage.0.regions[1].path == "apps/service/src/composition.rs"@);
    }
}

proof fn lemma_by_path(files: Seq<RenderedModel>, count: int, path: Seq<char>)
    requires
        0 <= count <= files.len(),
    ensures
        by_path(files, count).contains_key(path) <==> exists|i: int|
            0 <= i < count && (#[trigger] files[i]).path == path,
        by_path(files, count).contains_key(path) ==> exists|i: int|
            0 <= i < count && (#[trigger] files[i]).path == path && files[i].contents == by_path(
                files,
                count,
            )[path] && forall|j: int| i < j < count ==> (#[trigger] files[j]).path != path,
    decreases count,
{
    if count > 0 {
        lemma_by_path(files, count - 1, path);
        if files[count - 1].path == path {
            assert(files[count - 1].path == path);
        } else if by_path(files, count - 1).contains_key(path) {
            let i = choose|i: int|
                0 <= i < count - 1 && (#[trigger] files[i]).path == path && files[i].contents
                    == by_path(files, count - 1)[path] && forall|j: int|
                    i < j < count - 1 ==> (#[trigger] files[j]).path != path;
            assert(files[i].path == path);
        }
    }
}

/// The canonical form of a new project has the files of its templates, then the state, then the
/// application templates of its modules, then the derived files. Its state keeps the selection, is
/// of the release, and has the base of the project as it was begun.
pub proof fn lemma_canonical(
    inputs: InputsModel,
    modules: Seq<Seq<char>>,
    release: ReleaseModel,
    stage: (StateModel, Seq<RenderedModel>),
    text: Seq<char>,
    path: Seq<char>,
)
    ensures
        canonical(inputs, modules, release, stage, text) matches Ok(model) ==> {
            let more = application_files(
                inputs.catalog,
                inputs.templates,
                modules,
                modules.len() as int,
            );
            let derived = derived_files(
                inputs.catalog,
                sorted_listing::<String>(modules),
                retaining(stage.0, inputs.catalog)->Ok_0,
                inputs.image,
                5,
            );
            let state = stage.1.len() as int;
            &&& more is Ok && derived is Ok
            &&& model.rendered.len() == state + 1 + more->Ok_0.len() + derived->Ok_0.len()
            &&& forall|i: int| 0 <= i < state ==> #[trigger] model.rendered[i] == stage.1[i]
            &&& model.rendered[state].path == ".omnius/service.toml"@
            &&& model.rendered[state].contents == text
            &&& forall|i: int|
                0 <= i < more->Ok_0.len() ==> model.rendered[state + 1 + i] == #[trigger] more->Ok_0[i]
            &&& forall|i: int|
                0 <= i < derived->Ok_0.len() ==> model.rendered[state + 1 + more->Ok_0.len() + i]
                    == #[trigger] derived->Ok_0[i]
            &&& model.state.framework == release
            &&& model.state.modules == stage.0.modules
            &&& model.state.providers == stage.0.providers
            &&& model.state.service == stage.0.service
            &&& model.base_files.contains_key(path) <==> path == ".omnius/service.toml"@ || exists|
                i: int,
            |
                0 <= i < state && (#[trigger] stage.1[i]).path == path
        },
{
    if let Ok(model) = canonical(inputs, modules, release, stage, text) {
        let base = stage.1.push(state_file(text));
        lemma_by_path(base, base.len() as int, path);
        if path == ".omnius/service.toml"@ {
            assert(base[stage.1.len() as int].path == path);
        }
        if exists|i: int| 0 <= i < stage.1.len() && (#[trigger] stage.1[i]).path == path {
            let i = choose|i: int| 0 <= i < stage.1.len() && (#[trigger] stage.1[i]).path == path;
            assert(base[i].path == path);
        }
        if model.base_files.contains_key(path) {
            let i = choose|i: int| 0 <= i < base.len() && (#[trigger] base[i]).path == path;
            if i < stage.1.len() {
                assert(stage.1[i].path == path);
            }
        }
    }
}

} // verus!
