//! Rendering of new projects.

use vstd::prelude::*;
use vstd::string::*;

use crate::application_templates::{
    application_template, template_place, ApplicationTemplateDescriptor,
};
use crate::cargo_resolver::CargoResolverError;
use crate::catalog::{provider_values, ProfileError, ProviderSelection};
use crate::diagnosis::{hash_text, text_hash};
use crate::modules::ModuleCatalog;
use crate::release::{ReleaseIdentity, ReleaseModel};
use crate::state::{
    module_pairs, provider_pairs, ManagedRegionRecord, OwnershipKind, OwnershipModel,
    OwnershipRecord, ProfileModel, ProfileSelection, ProjectState, RecordModel, SelectedModule,
    SelectedProvider, StateModel, MANAGED_MARKER_VERSION, PROJECT_STATE_SCHEMA_VERSION,
};
use crate::templates::{
    named_source, render_base_template, template_text, BaseContext, ContextModel,
};
use crate::text::{chars_of, clone_texts, holds_text, join2, join3, join5, same_text, texts};

verus! {

/// Who decides on the contents of a rendered file.
#[derive(Clone, Copy, Debug, PartialEq, Eq, Structural)]
pub enum TemplateOwnership {
    /// The kit.
    Kit,
    /// The application's authors.
    Application,
    /// The generator.
    Derived,
}

impl TemplateOwnership {
    /// The owner that a state records.
    pub open spec fn recorded(self) -> OwnershipKind {
        match self {
            TemplateOwnership::Kit => OwnershipKind::KitOwned,
            TemplateOwnership::Application => OwnershipKind::ApplicationOwned,
            TemplateOwnership::Derived => OwnershipKind::Derived,
        }
    }
}

/// A base template.
#[derive(Debug, PartialEq, Eq)]
pub struct TemplateFile {
    /// Project-relative path.
    pub path: String,
    /// Template.
    pub source: String,
    /// Owner of the rendered file.
    pub ownership: TemplateOwnership,
}

/// A rendered file.
#[derive(Debug, PartialEq, Eq)]
pub struct RenderedFile {
    /// Project-relative path.
    pub path: String,
    /// Contents.
    pub contents: String,
    /// Owner.
    pub ownership: TemplateOwnership,
}

/// The value of a rendered file.
pub struct RenderedModel {
    /// Project-relative path.
    pub path: Seq<char>,
    /// Contents.
    pub contents: Seq<char>,
    /// Owner.
    pub ownership: TemplateOwnership,
}

impl RenderedFile {
    /// The value of this file.
    pub open spec fn view(&self) -> RenderedModel {
        RenderedModel {
            path: self.path@,
            contents: self.contents@,
            ownership: self.ownership,
        }
    }
}

/// The values of rendered files.
pub open spec fn rendered_models(files: Seq<RenderedFile>) -> Seq<RenderedModel> {
    files.map_values(|file: RenderedFile| file@)
}

/// Result of atomically publishing a newly resolved project.
#[derive(Clone, Copy, Debug, PartialEq, Eq)]
pub struct RenderOutcome {
    /// Number of canonical rendered files, including `Cargo.lock`.
    pub files: usize,
}

/// Failure to validate or safely expand a base service.
#[derive(Debug)]
pub enum RenderError {
    /// The requested service name was not canonical Cargo kebab case.
    InvalidServiceName,
    /// The selected base profile was invalid or unknown.
    Profile(ProfileError),
    /// The new-project destination already exists, whether empty or nonempty.
    DestinationExists(String),
    /// A bundled template could not be evaluated.
    Template(String),
    /// Canonical manager-owned state or artifact generation failed.
    Canonical(String),
    /// Cargo failed to resolve the staged new project.
    Resolver(CargoResolverError),
    /// Generated manifests or effective Cargo configuration violate provenance policy.
    Provenance(String),
    /// Sibling staging or atomic publication failed.
    Lifecycle(String),
}

impl RenderError {
    /// The diagnostic text.
    pub open spec fn text(self) -> Seq<char> {
        match self {
            RenderError::InvalidServiceName =>
                "service name must start with a lowercase ASCII letter and contain only lowercase ASCII letters, digits, and internal hyphens"@,
            RenderError::Profile(error) => "cannot resolve service profile: "@ + error.text(),
            RenderError::DestinationExists(path) => "new-project destination already exists: "@
                + path@,
            RenderError::Template(message) => "base service template failed: "@ + message@,
            RenderError::Canonical(message) => "cannot canonicalize generated profile: "@
                + message@,
            RenderError::Resolver(error) => "Cargo resolution failed: "@ + error.text(),
            RenderError::Provenance(message) => "generated project provenance is invalid: "@
                + message@,
            RenderError::Lifecycle(message) => "new-project lifecycle failed: "@ + message@,
        }
    }

    /// Returns the diagnostic text.
    pub fn message(&self) -> (text: String)
        ensures
            text@ == self.text(),
    {
        match self {
            RenderError::InvalidServiceName =>
                "service name must start with a lowercase ASCII letter and contain only lowercase ASCII letters, digits, and internal hyphens".to_owned(),
            RenderError::Profile(error) => {
                let message = error.message();
                join2("cannot resolve service profile: ", message.as_str())
            },
            RenderError::DestinationExists(path) => join2(
                "new-project destination already exists: ",
                path.as_str(),
            ),
            RenderError::Template(message) => join2(
                "base service template failed: ",
                message.as_str(),
            ),
            RenderError::Canonical(message) => join2(
                "cannot canonicalize generated profile: ",
                message.as_str(),
            ),
            RenderError::Resolver(error) => {
                let message = error.message();
                join2("Cargo resolution failed: ", message.as_str())
            },
            RenderError::Provenance(message) => join2(
                "generated project provenance is invalid: ",
                message.as_str(),
            ),
            RenderError::Lifecycle(message) => join2(
                "new-project lifecycle failed: ",
                message.as_str(),
            ),
        }
    }
}

/// Whether an error says that a project cannot be brought to its canonical form, and why.
pub open spec fn is_canonical_error(error: RenderError, message: Seq<char>) -> bool {
    error matches RenderError::Canonical(text) && text@ == message
}

// Names.
/// Whether a character can stand in a service name.
pub open spec fn is_name_char(character: char) -> bool {
    ('a' <= character && character <= 'z') || ('0' <= character && character <= '9') || character
        == '-'
}

/// Whether a string is a service name.
pub open spec fn is_service_name(name: Seq<char>) -> bool {
    &&& 1 <= name.len() <= 64
    &&& 'a' <= name[0] && name[0] <= 'z'
    &&& name.last() != '-'
    &&& forall|i: int| 0 <= i < name.len() ==> is_name_char(#[trigger] name[i])
}

/// Checks a service name.
pub fn validate_service_name(name: &str) -> (result: Result<(), RenderError>)
    ensures
        match result {
            Ok(()) => is_service_name(name@),
            Err(error) => !is_service_name(name@) && error is InvalidServiceName,
        },
{
    let chars = chars_of(name);
    let length: usize = chars.len();
    if length == 0 || length > 64 || !(chars[0] >= 'a' && chars[0] <= 'z') || chars[length - 1]
        == '-' {
        return Err(RenderError::InvalidServiceName);
    }
    let mut index: usize = 0;
    while index < length
        invariant
            chars@ == name@,
            length == chars@.len(),
            1 <= length <= 64,
            'a' <= name@[0] && name@[0] <= 'z',
            name@.last() != '-',
            index <= length,
            forall|i: int| 0 <= i < index ==> is_name_char(#[trigger] name@[i]),
        decreases length - index,
    {
        let character = chars[index];
        if !((character >= 'a' && character <= 'z') || (character >= '0' && character <= '9')
            || character == '-') {
            assert(!is_name_char(name@[index as int]));
            return Err(RenderError::InvalidServiceName);
        }
        index += 1;
    }
    Ok(())
}

// Base files.
/// The context of the base templates.
pub fn base_context(
    profile: &str,
    modules: &Vec<String>,
    providers: &Vec<ProviderSelection>,
    runtime_dependencies: &Vec<String>,
    release_identity: &ReleaseIdentity,
) -> (context: BaseContext)
    ensures
        context.profile@ == profile@,
        context.kit_version@ == release_identity@.version,
        context.resolved_context,
        context.web_static == texts(modules@).contains("web-static"@),
        texts(context.modules@) == texts(modules@),
        provider_values(context.providers@) == provider_values(providers@),
        texts(context.runtime_dependencies@) == texts(runtime_dependencies@),
{
    BaseContext {
        profile: profile.to_owned(),
        kit_version: release_identity.version().to_owned(),
        resolved_context: true,
        web_static: holds_text(modules, "web-static"),
        modules: clone_texts(modules),
        providers: copy_providers(providers),
        runtime_dependencies: clone_texts(runtime_dependencies),
    }
}

fn copy_providers(providers: &Vec<ProviderSelection>) -> (copy: Vec<ProviderSelection>)
    ensures
        provider_values(copy@) == provider_values(providers@),
{
    let ghost all = provider_values(providers@);
    let mut copy: Vec<ProviderSelection> = Vec::new();
    let mut index: usize = 0;
    while index < providers.len()
        invariant
            all == provider_values(providers@),
            index <= providers@.len(),
            provider_values(copy@) == all.take(index as int),
        decreases providers@.len() - index,
    {
        let ghost before = provider_values(copy@);
        let slot = providers[index].slot.clone();
        let module = providers[index].module.clone();
        let ghost value = (slot@, module@);
        copy.push(ProviderSelection { slot, module });
        proof {
            assert(all[index as int] == value);
            assert(provider_values(copy@) =~= before.push(value));
            assert(all.take(index + 1) =~= all.take(index as int).push(value));
        }
        index += 1;
    }
    assert(all.take(index as int) =~= all);
    copy
}

/// The files that the first `count` templates give, or the failure of one of them.
pub open spec fn base_files(
    templates: Seq<TemplateFile>,
    service: Seq<char>,
    context: ContextModel,
    count: int,
) -> Result<Seq<RenderedModel>, Seq<char>>
    decreases count,
{
    if count <= 0 {
        Ok(Seq::empty())
    } else {
        let file = templates[count - 1];
        match base_files(templates, service, context, count - 1) {
            Err(message) => Err(message),
            Ok(before) => match template_text(
                file.path@,
                named_source(file.source@, service),
                context,
            ) {
                Err(message) => Err(message),
                Ok(contents) => Ok(
                    before.push(
                        RenderedModel { path: file.path@, contents, ownership: file.ownership },
                    ),
                ),
            },
        }
    }
}

proof fn lemma_base_files_fail(
    templates: Seq<TemplateFile>,
    service: Seq<char>,
    context: ContextModel,
    count: int,
    total: int,
)
    requires
        base_files(templates, service, context, count) is Err,
        count <= total,
    ensures
        base_files(templates, service, context, total) == base_files(
            templates,
            service,
            context,
            count,
        ),
    decreases total - count,
{
    if count < total {
        lemma_base_files_fail(templates, service, context, count, total - 1);
    }
}

/// Renders the base templates for a service.
pub fn render_base_files(
    templates: &Vec<TemplateFile>,
    service_name: &str,
    context: &BaseContext,
) -> (result: Result<Vec<RenderedFile>, RenderError>)
    ensures
        ({
            let owed = base_files(templates@, service_name@, context@, templates@.len() as int);
            match result {
                Ok(files) => owed == Ok::<Seq<RenderedModel>, Seq<char>>(rendered_models(files@)),
                Err(error) => error matches RenderError::Template(message) && owed == Err::<
                    Seq<RenderedModel>,
                    Seq<char>,
                >(message@),
            }
        }),
{
    let ghost total = templates@.len() as int;
    let mut files: Vec<RenderedFile> = Vec::new();
    assert(rendered_models(files@) =~= Seq::<RenderedModel>::empty());
    let mut index: usize = 0;
    while index < templates.len()
        invariant
            total == templates@.len(),
            index <= total,
            base_files(templates@, service_name@, context@, index as int) == Ok::<
                Seq<RenderedModel>,
                Seq<char>,
            >(rendered_models(files@)),
        decreases total - index,
    {
        let template = &templates[index];
        let contents = match render_base_template(
            template.path.as_str(),
            template.source.as_str(),
            service_name,
            context,
        ) {
            Ok(contents) => contents,
            Err(message) => {
                proof {
                    lemma_base_files_fail(
                        templates@,
                        service_name@,
                        context@,
                        index + 1,
                        total,
                    );
                }
                return Err(RenderError::Template(message));
            },
        };
        let ghost before = rendered_models(files@);
        let file = RenderedFile {
            path: template.path.clone(),
            contents,
            ownership: template.ownership,
        };
        let ghost value = file@;
        files.push(file);
        assert(rendered_models(files@) =~= before.push(value));
        index += 1;
    }
    Ok(files)
}

// The initial state.
/// The modules of a new project and their versions, of the first `count`.
pub open spec fn initial_modules(catalog: ModuleCatalog, modules: Seq<Seq<char>>, count: int) -> Result<
    Seq<(Seq<char>, Seq<char>)>,
    Seq<char>,
>
    decreases count,
{
    if count <= 0 {
        Ok(Seq::empty())
    } else {
        match initial_modules(catalog, modules, count - 1) {
            Err(message) => Err(message),
            Ok(before) => match catalog.find(modules[count - 1]) {
                None => Err("profile selects unknown module `"@ + modules[count - 1] + "`"@),
                Some(module) => Ok(before.push((modules[count - 1], module.version@))),
            },
        }
    }
}

/// The record of a region that is empty.
pub open spec fn empty_region(id: Seq<char>, path: Seq<char>) -> RecordModel {
    RecordModel {
        id,
        path,
        marker_version: MANAGED_MARKER_VERSION,
        content_hash: text_hash(Seq::empty()),
    }
}

/// The state of a new project before its files are recorded.
pub open spec fn initial_state(
    service: Seq<char>,
    profile: Seq<char>,
    modules: Seq<(Seq<char>, Seq<char>)>,
    providers: Seq<(Seq<char>, Seq<char>)>,
    release: ReleaseModel,
    catalog: ModuleCatalog,
) -> StateModel {
    StateModel {
        schema_version: PROJECT_STATE_SCHEMA_VERSION,
        service,
        framework: release,
        profile: ProfileModel {
            id: profile,
            version: catalog.bundle_version@,
            additions: Seq::empty(),
            removals: Seq::empty(),
        },
        modules,
        providers,
        retained_volumes: Seq::empty(),
        ownership: seq![
            OwnershipModel {
                path: "Cargo.lock"@,
                kind: OwnershipKind::DependencyLock,
                approved: None,
            },
        ],
        regions: seq![
            empty_region("framework-dependency"@, "Cargo.toml"@),
            empty_region("modules"@, "apps/service/src/composition.rs"@),
        ],
    }
}

fn record_initial_modules(catalog: &ModuleCatalog, modules: &Vec<String>) -> (result: Result<
    Vec<SelectedModule>,
    RenderError,
>)
    ensures
        ({
            let owed = initial_modules(*catalog, texts(modules@), modules@.len() as int);
            match result {
                Ok(list) => owed == Ok::<Seq<(Seq<char>, Seq<char>)>, Seq<char>>(
                    module_pairs(list@),
                ),
                Err(error) => owed is Err && is_canonical_error(error, owed->Err_0),
            }
        }),
{
    let ghost all = texts(modules@);
    let ghost total = modules@.len() as int;
    let mut list: Vec<SelectedModule> = Vec::new();
    assert(module_pairs(list@) =~= Seq::<(Seq<char>, Seq<char>)>::empty());
    let mut index: usize = 0;
    while index < modules.len()
        invariant
            all == texts(modules@),
            total == modules@.len(),
            index <= total,
            initial_modules(*catalog, all, index as int) == Ok::<
                Seq<(Seq<char>, Seq<char>)>,
                Seq<char>,
            >(module_pairs(list@)),
        decreases total - index,
    {
        let id = modules[index].as_str();
        assert(all[index as int] == id@);
        let module = match catalog.module(id) {
            Some(module) => module,
            None => {
                proof {
                    lemma_initial_modules_fail(*catalog, all, index + 1, total);
                }
                return Err(
                    RenderError::Canonical(
                        join3("profile selects unknown module `", id, "`"),
                    ),
                );
            },
        };
        let ghost before = module_pairs(list@);
        list.push(SelectedModule { id: id.to_owned(), version: module.version.clone() });
        assert(module_pairs(list@) =~= before.push((id@, module.version@)));
        index += 1;
    }
    Ok(list)
}

proof fn lemma_initial_modules_fail(
    catalog: ModuleCatalog,
    modules: Seq<Seq<char>>,
    count: int,
    total: int,
)
    requires
        initial_modules(catalog, modules, count) is Err,
        count <= total,
    ensures
        initial_modules(catalog, modules, total) == initial_modules(catalog, modules, count),
    decreases total - count,
{
    if count < total {
        lemma_initial_modules_fail(catalog, modules, count, total - 1);
    }
}

fn record_initial_providers(providers: &Vec<ProviderSelection>) -> (list: Vec<SelectedProvider>)
    ensures
        provider_pairs(list@) == provider_values(providers@),
{
    let ghost all = provider_values(providers@);
    let mut list: Vec<SelectedProvider> = Vec::new();
    let mut index: usize = 0;
    while index < providers.len()
        invariant
            all == provider_values(providers@),
            index <= providers@.len(),
            provider_pairs(list@) == all.take(index as int),
        decreases providers@.len() - index,
    {
        let ghost before = provider_pairs(list@);
        let slot = providers[index].slot.clone();
        let module = providers[index].module.clone();
        let ghost value = (slot@, module@);
        list.push(SelectedProvider { slot, module });
        proof {
            assert(all[index as int] == value);
            assert(provider_pairs(list@) =~= before.push(value));
            assert(all.take(index + 1) =~= all.take(index as int).push(value));
        }
        index += 1;
    }
    assert(all.take(index as int) =~= all);
    list
}

fn empty_record(id: &str, path: &str) -> (record: ManagedRegionRecord)
    ensures
        record@ == empty_region(id@, path@),
{
    proof {
        reveal_strlit("");
        assert(""@ =~= Seq::<char>::empty());
    }
    ManagedRegionRecord {
        id: id.to_owned(),
        path: path.to_owned(),
        marker_version: MANAGED_MARKER_VERSION,
        content_hash: hash_text(""),
    }
}

/// Makes the state of a new project before its files are recorded.
pub fn initial_project_state(
    service_name: &str,
    profile: &str,
    modules: &Vec<String>,
    providers: &Vec<ProviderSelection>,
    release_identity: &ReleaseIdentity,
    catalog: &ModuleCatalog,
) -> (result: Result<ProjectState, RenderError>)
    ensures
        ({
            let owed = initial_modules(*catalog, texts(modules@), modules@.len() as int);
            match result {
                Ok(state) => owed is Ok && state@ == initial_state(
                    service_name@,
                    profile@,
                    owed->Ok_0,
                    provider_values(providers@),
                    release_identity@,
                    *catalog,
                ),
                Err(error) => owed is Err && is_canonical_error(error, owed->Err_0),
            }
        }),
{
    let selected = match record_initial_modules(catalog, modules) {
        Ok(selected) => selected,
        Err(error) => {
            return Err(error);
        },
    };
    let mut ownership: Vec<OwnershipRecord> = Vec::new();
    ownership.push(
        OwnershipRecord {
            path: "Cargo.lock".to_owned(),
            kind: OwnershipKind::DependencyLock,
            approved_sha256: None,
        },
    );
    let mut managed_regions: Vec<ManagedRegionRecord> = Vec::new();
    managed_regions.push(empty_record("framework-dependency", "Cargo.toml"));
    managed_regions.push(empty_record("modules", "apps/service/src/composition.rs"));
    let additions: Vec<String> = Vec::new();
    let removals: Vec<String> = Vec::new();
    let volumes: Vec<String> = Vec::new();
    let state = ProjectState {
        schema_version: PROJECT_STATE_SCHEMA_VERSION,
        service: service_name.to_owned(),
        framework: release_identity.duplicate(),
        profile: ProfileSelection {
            id: profile.to_owned(),
            version: catalog.bundle_version.clone(),
            additions,
            removals,
        },
        modules: selected,
        providers: record_initial_providers(providers),
        retained_compose_volumes: volumes,
        ownership,
        managed_regions,
    };
    proof {
        let owed = initial_modules(*catalog, texts(modules@), modules@.len() as int)->Ok_0;
        let wanted = initial_state(
            service_name@,
            profile@,
            owed,
            provider_values(providers@),
            release_identity@,
            *catalog,
        );
        assert(state@.profile.additions =~= wanted.profile.additions);
        assert(state@.profile.removals =~= wanted.profile.removals);
        assert(state@.retained_volumes =~= wanted.retained_volumes);
        assert(state@.ownership =~= wanted.ownership);
        assert(state@.regions =~= wanted.regions);
    }
    Ok(state)
}

// Application templates.
/// What keeps a release from rendering with a catalog.
pub open spec fn version_defect(catalog: ModuleCatalog, release: ReleaseModel) -> Option<Seq<char>> {
    if catalog.bundle_version@ != release.version {
        Some(
            "release version `"@ + release.version + "` does not match bundled catalog version `"@
                + catalog.bundle_version@ + "`"@,
        )
    } else {
        None
    }
}

/// Checks that a release can render with a catalog.
pub fn check_catalog_version(catalog: &ModuleCatalog, release_identity: &ReleaseIdentity) -> (result:
    Result<(), RenderError>)
    ensures
        match result {
            Ok(()) => version_defect(*catalog, release_identity@) is None,
            Err(error) => version_defect(*catalog, release_identity@) is Some && is_canonical_error(
                error,
                version_defect(*catalog, release_identity@)->Some_0,
            ),
        },
{
    let version = release_identity.version();
    if same_text(catalog.bundle_version.as_str(), version) {
        Ok(())
    } else {
        Err(
            RenderError::Canonical(
                join5(
                    "release version `",
                    version,
                    "` does not match bundled catalog version `",
                    catalog.bundle_version.as_str(),
                    "`",
                ),
            ),
        )
    }
}

/// The files that the first `count` templates of a module give.
pub open spec fn module_template_files(
    templates: Seq<ApplicationTemplateDescriptor>,
    id: Seq<char>,
    paths: Seq<Seq<char>>,
    count: int,
) -> Result<Seq<RenderedModel>, Seq<char>>
    decreases count,
{
    if count <= 0 {
        Ok(Seq::empty())
    } else {
        let path = paths[count - 1];
        let place = template_place(templates, id, path, 0);
        match module_template_files(templates, id, paths, count - 1) {
            Err(message) => Err(message),
            Ok(before) => if place >= templates.len() {
                Err(
                    "application template `"@ + path + "` for module `"@ + id
                        + "` is not embedded"@,
                )
            } else {
                Ok(
                    before.push(
                        RenderedModel {
                            path,
                            contents: templates[place].source@,
                            ownership: TemplateOwnership::Application,
                        },
                    ),
                )
            },
        }
    }
}

/// The files that the templates of the first `count` modules give.
pub open spec fn application_files(
    catalog: ModuleCatalog,
    templates: Seq<ApplicationTemplateDescriptor>,
    modules: Seq<Seq<char>>,
    count: int,
) -> Result<Seq<RenderedModel>, Seq<char>>
    decreases count,
{
    if count <= 0 {
        Ok(Seq::empty())
    } else {
        match application_files(catalog, templates, modules, count - 1) {
            Err(message) => Err(message),
            Ok(before) => match catalog.find(modules[count - 1]) {
                None => Err(
                    "profile selects unknown application-template module `"@ + modules[count - 1]
                        + "`"@,
                ),
                Some(module) => match module_template_files(
                    templates,
                    modules[count - 1],
                    texts(module.application_templates@),
                    module.application_templates@.len() as int,
                ) {
                    Err(message) => Err(message),
                    Ok(more) => Ok(before + more),
                },
            },
        }
    }
}

proof fn lemma_module_files_fail(
    templates: Seq<ApplicationTemplateDescriptor>,
    id: Seq<char>,
    paths: Seq<Seq<char>>,
    count: int,
    total: int,
)
    requires
        module_template_files(templates, id, paths, count) is Err,
        count <= total,
    ensures
        module_template_files(templates, id, paths, total) == module_template_files(
            templates,
            id,
            paths,
            count,
        ),
    decreases total - count,
{
    if count < total {
        lemma_module_files_fail(templates, id, paths, count, total - 1);
    }
}

proof fn lemma_application_files_fail(
    catalog: ModuleCatalog,
    templates: Seq<ApplicationTemplateDescriptor>,
    modules: Seq<Seq<char>>,
    count: int,
    total: int,
)
    requires
        application_files(catalog, templates, modules, count) is Err,
        count <= total,
    ensures
        application_files(catalog, templates, modules, total) == application_files(
            catalog,
            templates,
            modules,
            count,
        ),
    decreases total - count,
{
    if count < total {
        lemma_application_files_fail(catalog, templates, modules, count, total - 1);
    }
}

fn render_module_templates(
    templates: &Vec<ApplicationTemplateDescriptor>,
    id: &str,
    paths: &Vec<String>,
) -> (result: Result<Vec<RenderedFile>, RenderError>)
    ensures
        ({
            let owed = module_template_files(
                templates@,
                id@,
                texts(paths@),
                paths@.len() as int,
            );
            match result {
                Ok(files) => owed == Ok::<Seq<RenderedModel>, Seq<char>>(rendered_models(files@)),
                Err(error) => owed is Err && is_canonical_error(error, owed->Err_0),
            }
        }),
{
    let ghost all = texts(paths@);
    let ghost total = paths@.len() as int;
    let mut files: Vec<RenderedFile> = Vec::new();
    assert(rendered_models(files@) =~= Seq::<RenderedModel>::empty());
    let mut index: usize = 0;
    while index < paths.len()
        invariant
            all == texts(paths@),
            total == paths@.len(),
            index <= total,
            module_template_files(templates@, id@, all, index as int) == Ok::<
                Seq<RenderedModel>,
                Seq<char>,
            >(rendered_models(files@)),
        decreases total - index,
    {
        let path = paths[index].as_str();
        assert(all[index as int] == path@);
        let descriptor = match application_template(templates, id, path) {
            Some(descriptor) => descriptor,
            None => {
                proof {
                    lemma_module_files_fail(templates@, id@, all, index + 1, total);
                }
                return Err(
                    RenderError::Canonical(
                        join5(
                            "application template `",
                            path,
                            "` for module `",
                            id,
                            "` is not embedded",
                        ),
                    ),
                );
            },
        };
        let ghost before = rendered_models(files@);
        let file = RenderedFile {
            path: path.to_owned(),
            contents: descriptor.source.clone(),
            ownership: TemplateOwnership::Application,
        };
        let ghost value = file@;
        files.push(file);
        assert(rendered_models(files@) =~= before.push(value));
        index += 1;
    }
    Ok(files)
}

/// Renders the application templates of the selected modules.
pub fn render_application_files(
    catalog: &ModuleCatalog,
    templates: &Vec<ApplicationTemplateDescriptor>,
    modules: &Vec<String>,
) -> (result: Result<Vec<RenderedFile>, RenderError>)
    ensures
        ({
            let owed = application_files(
                *catalog,
                templates@,
                texts(modules@),
                modules@.len() as int,
            );
            match result {
                Ok(files) => owed == Ok::<Seq<RenderedModel>, Seq<char>>(rendered_models(files@)),
                Err(error) => owed is Err && is_canonical_error(error, owed->Err_0),
            }
        }),
{
    let ghost all = texts(modules@);
    let ghost total = modules@.len() as int;
    let mut files: Vec<RenderedFile> = Vec::new();
    assert(rendered_models(files@) =~= Seq::<RenderedModel>::empty());
    let mut index: usize = 0;
    while index < modules.len()
        invariant
            all == texts(modules@),
            total == modules@.len(),
            index <= total,
            application_files(*catalog, templates@, all, index as int) == Ok::<
                Seq<RenderedModel>,
                Seq<char>,
            >(rendered_models(files@)),
        decreases total - index,
    {
        let id = modules[index].as_str();
        assert(all[index as int] == id@);
        proof {
            if application_files(*catalog, templates@, all, index + 1) is Err {
                lemma_application_files_fail(*catalog, templates@, all, index + 1, total);
            }
        }
        let module = match catalog.module(id) {
            Some(module) => module,
            None => {
                return Err(
                    RenderError::Canonical(
                        join3("profile selects unknown application-template module `", id, "`"),
                    ),
                );
            },
        };
        let more = match render_module_templates(templates, id, &module.application_templates) {
            Ok(more) => more,
            Err(error) => {
                return Err(error);
            },
        };
        let ghost before = rendered_models(files@);
        let ghost added = rendered_models(more@);
        let mut rest = more;
        files.append(&mut rest);
        assert(rendered_models(files@) =~= before + added);
        index += 1;
    }
    Ok(files)
}

} // verus!
