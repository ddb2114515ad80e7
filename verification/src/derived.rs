//! Files that the generator derives from the selected modules.

use vstd::prelude::*;
use vstd::string::*;

use crate::compose::{compose_file, render_compose};
use crate::management::{ManagerError, ManagerFailure};
use crate::modules::ModuleCatalog;
use crate::ordered::{set_holds, TextSet};
use crate::reference_config::{reference_document, render_reference_config, toml_writing};
use crate::rendering::{
    derivable, is_derivable, module_listing, react_index, render_react_index,
    render_selected_module_catalog, renders, REACT_INDEX_PATH,
};
use crate::templates::{named_source, render_image_template, template_text, ContextModel};
use crate::text::{join2, join3, same_text, texts};

verus! {

/// The description of the container image, given what its template gives.
pub open spec fn image_outcome(evaluated: Result<Seq<char>, Seq<char>>) -> Result<
    Seq<char>,
    ManagerFailure,
> {
    match evaluated {
        Ok(text) => Ok(text),
        Err(message) => Err(
            ManagerFailure::InvalidProject("base service template failed: "@ + message),
        ),
    }
}

/// The description of the container image of a service.
pub open spec fn image_text(
    source: Seq<char>,
    service: Seq<char>,
    selected: Seq<Seq<char>>,
) -> Result<Seq<char>, ManagerFailure> {
    image_outcome(
        template_text(
            "ops/Dockerfile"@,
            named_source(source, service),
            (ContextModel::Image { profile: ""@, web_static: selected.contains("web-static"@) }),
        ),
    )
}

/// Renders the description of the container image of a service from its template.
pub fn render_managed_dockerfile(source: &str, service_name: &str, selected: &TextSet) -> (result:
    Result<String, ManagerError>)
    ensures
        renders(result, image_text(source@, service_name@, selected@)),
{
    match render_image_template(source, service_name, set_holds(selected, "web-static")) {
        Ok(text) => Ok(text),
        Err(message) => Err(
            ManagerError::InvalidProject(
                join2("base service template failed: ", message.as_str()),
            ),
        ),
    }
}

/// The contents of a derived file.
pub open spec fn derived_text(
    path: Seq<char>,
    catalog: ModuleCatalog,
    selected: Seq<Seq<char>>,
    service: Seq<char>,
    retained: Seq<Seq<char>>,
    image_source: Seq<char>,
) -> Result<Seq<char>, ManagerFailure> {
    if path == "docs/module-catalog.md"@ {
        module_listing(catalog, selected)
    } else if path == "config/reference.toml"@ {
        reference_document(catalog, selected, service, toml_writing())
    } else if path == "ops/compose.yaml"@ {
        compose_file(catalog, selected, retained)
    } else if path == "ops/Dockerfile"@ {
        image_text(image_source, service, selected)
    } else if path == REACT_INDEX_PATH@ {
        Ok(react_index(selected))
    } else {
        Err(
            ManagerFailure::InvalidProject(
                "no deterministic derived renderer exists for `"@ + path + "`"@,
            ),
        )
    }
}

/// Renders the contents of a derived file.
pub fn render_derived_with_retained_volumes(
    path: &str,
    catalog: &ModuleCatalog,
    selected: &TextSet,
    service_name: &str,
    retained_volumes: &Vec<String>,
    image_source: &str,
) -> (result: Result<String, ManagerError>)
    ensures
        renders(
            result,
            derived_text(
                path@,
                *catalog,
                selected@,
                service_name@,
                texts(retained_volumes@),
                image_source@,
            ),
        ),
{
    if same_text(path, "docs/module-catalog.md") {
        render_selected_module_catalog(catalog, selected)
    } else if same_text(path, "config/reference.toml") {
        render_reference_config(catalog, selected, service_name)
    } else if same_text(path, "ops/compose.yaml") {
        render_compose(catalog, selected, retained_volumes)
    } else if same_text(path, "ops/Dockerfile") {
        render_managed_dockerfile(image_source, service_name, selected)
    } else if same_text(path, REACT_INDEX_PATH) {
        Ok(render_react_index(selected))
    } else {
        Err(
            ManagerError::InvalidProject(
                join3("no deterministic derived renderer exists for `", path, "`"),
            ),
        )
    }
}

/// The contents of a file that the generator manages as derived.
pub open spec fn managed_text(
    path: Seq<char>,
    catalog: ModuleCatalog,
    selected: Seq<Seq<char>>,
    service: Seq<char>,
    retained: Seq<Seq<char>>,
    image_source: Seq<char>,
) -> Result<Seq<char>, ManagerFailure> {
    if !is_derivable(path) {
        Err(
            ManagerFailure::InvalidProject(
                "no deterministic renderer exists for derived file `"@ + path + "`"@,
            ),
        )
    } else {
        derived_text(path, catalog, selected, service, retained, image_source)
    }
}

/// Renders the contents of a file that the generator manages as derived.
pub fn render_managed_derived(
    path: &str,
    catalog: &ModuleCatalog,
    selected: &TextSet,
    service_name: &str,
    retained_volumes: &Vec<String>,
    image_source: &str,
) -> (result: Result<String, ManagerError>)
    ensures
        renders(
            result,
            managed_text(
                path@,
                *catalog,
                selected@,
                service_name@,
                texts(retained_volumes@),
                image_source@,
            ),
        ),
{
    if !derivable(path) {
        return Err(
            ManagerError::InvalidProject(
                join3("no deterministic renderer exists for derived file `", path, "`"),
            ),
        );
    }
    render_derived_with_retained_volumes(
        path,
        catalog,
        selected,
        service_name,
        retained_volumes,
        image_source,
    )
}

} // verus!
