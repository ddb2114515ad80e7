//! The course of rendering a new project.
//!
//! The state of a project is recorded in its files, so the course stops wherever a state has to be
//! encoded and goes on with its text.

use vstd::prelude::*;
use vstd::string::*;

use crate::application_templates::{template_catalog_defect, validate_application_template_catalog};
use crate::catalog::{provider_values, ProviderSelection};
use crate::diagnosis::{InputsModel, PlanningInputs};
use crate::file_map::{contents_by_path, FileMap, ProjectFile};
use crate::listing_laws::lemma_listing_of_new_project;
use crate::management::{
    steps, Diagnostic, DiagnosticModel, ManagerFailure, PlanStep, ProjectSnapshot, SnapshotModel,
};
use crate::ordered::{models, sort_unique, sorted_listing, TextSet};
use crate::plan_files::TargetProject;
use crate::plan_selection::{
    normalize_next_state, normalized, retain_selected_compose_volumes, retaining,
};
use crate::planning::{
    complete_plan, completed, compose_initial_profile, initial_outcome, state_missing,
    target_value, PlanDraft,
};
use crate::release::{ReleaseIdentity, ReleaseModel};
use crate::render::{
    application_files, base_context, base_files, check_catalog_version, initial_modules,
    initial_project_state, initial_state, is_canonical_error, render_application_files,
    render_base_files, rendered_models, version_defect, RenderError, RenderedFile, RenderedModel,
    TemplateFile, TemplateOwnership,
};
use crate::render_profile::{
    all_refreshed, append_derived_files, derived_files, merge_composed_files, merged_files,
    record_rendered_ownership, refresh_approved_hashes, with_all_rendered,
};
use crate::sealing::{applied, apply_to_files};
use crate::state::{ProjectState, StateModel, PROJECT_STATE_PATH};
use crate::templates::ContextModel;
use crate::text::{clone_texts, same_text, texts};

verus! {

/// Why a project cannot be rendered: a template fails, or canonical form cannot be reached.
pub enum RenderFailure {
    /// A template cannot be evaluated.
    Template(Seq<char>),
    /// Canonical state or artifact generation fails.
    Canonical(Seq<char>),
}

/// Whether an error reports a failure.
pub open spec fn fails_with(error: RenderError, failure: RenderFailure) -> bool {
    match failure {
        RenderFailure::Template(message) => error matches RenderError::Template(text) && text@
            == message,
        RenderFailure::Canonical(message) => is_canonical_error(error, message),
    }
}

/// What a new project is rendered from.
#[derive(Clone, Copy)]
pub struct ProfileRequest<'a> {
    /// Service name.
    pub service_name: &'a str,
    /// Profile identifier.
    pub profile: &'a str,
    /// Modules of the profile.
    pub modules: &'a Vec<String>,
    /// Providers of the profile.
    pub providers: &'a Vec<ProviderSelection>,
    /// Runtime dependencies of the profile.
    pub runtime_dependencies: &'a Vec<String>,
}

/// The value of what a new project is rendered from.
pub struct ProfileRequestModel {
    /// Service name.
    pub service: Seq<char>,
    /// Profile identifier.
    pub profile: Seq<char>,
    /// Modules of the profile.
    pub modules: Seq<Seq<char>>,
    /// Providers of the profile.
    pub providers: Seq<(Seq<char>, Seq<char>)>,
    /// Runtime dependencies of the profile.
    pub dependencies: Seq<Seq<char>>,
}

impl<'a> ProfileRequest<'a> {
    /// The value of this request.
    pub open spec fn view(&self) -> ProfileRequestModel {
        ProfileRequestModel {
            service: self.service_name@,
            profile: self.profile@,
            modules: texts(self.modules@),
            providers: provider_values(self.providers@),
            dependencies: texts(self.runtime_dependencies@),
        }
    }
}

// Base files.
/// A project under way: its state, and its files but for those that are still to come.
#[derive(Debug)]
pub struct RenderStage {
    /// State, which is to be encoded next.
    pub state: ProjectState,
    /// Files.
    pub rendered: Vec<RenderedFile>,
}

impl RenderStage {
    /// The value of this stage.
    pub open spec fn view(&self) -> (StateModel, Seq<RenderedModel>) {
        (self.state@, rendered_models(self.rendered@))
    }
}

/// What base templates can refer to in a request.
pub open spec fn request_context(request: ProfileRequestModel, release: ReleaseModel) -> ContextModel {
    ContextModel::Base {
        profile: request.profile,
        kit_version: release.version,
        resolved: true,
        web_static: request.modules.contains("web-static"@),
        modules: request.modules,
        providers: request.providers,
        dependencies: request.dependencies,
    }
}

/// The first state and the base files of a request.
pub open spec fn base_stage(
    inputs: InputsModel,
    templates: Seq<TemplateFile>,
    request: ProfileRequestModel,
    release: ReleaseModel,
) -> Result<(StateModel, Seq<RenderedModel>), RenderFailure> {
    match base_files(
        templates,
        request.service,
        request_context(request, release),
        templates.len() as int,
    ) {
        Err(message) => Err(RenderFailure::Template(message)),
        Ok(files) => match initial_modules(
            inputs.catalog,
            request.modules,
            request.modules.len() as int,
        ) {
            Err(message) => Err(RenderFailure::Canonical(message)),
            Ok(modules) => Ok(
                (
                    initial_state(
                        request.service,
                        request.profile,
                        modules,
                        request.providers,
                        release,
                        inputs.catalog,
                    ),
                    files,
                ),
            ),
        },
    }
}

/// Renders the base files of a request, and makes its first state.
pub fn render_base_stage(
    inputs: &PlanningInputs,
    templates: &Vec<TemplateFile>,
    request: &ProfileRequest,
    release: &ReleaseIdentity,
) -> (result: Result<RenderStage, RenderError>)
    ensures
        ({
            let owed = base_stage(inputs@, templates@, request@, release@);
            match result {
                Ok(stage) => owed == Ok::<(StateModel, Seq<RenderedModel>), RenderFailure>(stage@),
                Err(error) => owed is Err && fails_with(error, owed->Err_0),
            }
        }),
{
    let context = base_context(
        request.profile,
        request.modules,
        request.providers,
        request.runtime_dependencies,
        release,
    );
    assert(context@ == request_context(request@, release@));
    let rendered = match render_base_files(templates, request.service_name, &context) {
        Ok(rendered) => rendered,
        Err(error) => {
            return Err(error);
        },
    };
    assert(texts(request.modules@).len() == request.modules@.len());
    match initial_project_state(
        request.service_name,
        request.profile,
        request.modules,
        request.providers,
        release,
        inputs.catalog,
    ) {
        Ok(state) => Ok(RenderStage { state, rendered }),
        Err(error) => Err(error),
    }
}

/// What keeps a project from being rendered at all, or its first state and base files.
pub open spec fn begun(
    inputs: InputsModel,
    templates: Seq<TemplateFile>,
    request: ProfileRequestModel,
    release: ReleaseModel,
) -> Result<(StateModel, Seq<RenderedModel>), RenderFailure> {
    match template_catalog_defect(inputs.templates, inputs.catalog.modules@) {
        Some(message) => Err(RenderFailure::Canonical(message)),
        None => match version_defect(inputs.catalog, release) {
            Some(message) => Err(RenderFailure::Canonical(message)),
            None => base_stage(inputs, templates, request, release),
        },
    }
}

/// Begins to render a project.
pub fn begin_rendering(
    inputs: &PlanningInputs,
    templates: &Vec<TemplateFile>,
    request: &ProfileRequest,
    release: &ReleaseIdentity,
) -> (result: Result<RenderStage, RenderError>)
    ensures
        ({
            let owed = begun(inputs@, templates@, request@, release@);
            match result {
                Ok(stage) => owed == Ok::<(StateModel, Seq<RenderedModel>), RenderFailure>(stage@),
                Err(error) => owed is Err && fails_with(error, owed->Err_0),
            }
        }),
{
    match validate_application_template_catalog(inputs.templates, inputs.catalog) {
        Ok(()) => {},
        Err(message) => {
            return Err(RenderError::Canonical(message));
        },
    }
    match check_catalog_version(inputs.catalog, release) {
        Ok(()) => {},
        Err(error) => {
            return Err(error);
        },
    }
    render_base_stage(inputs, templates, request, release)
}

// Files by their paths.
/// The contents of the first `count` rendered files by their paths.
pub open spec fn by_path(files: Seq<RenderedModel>, count: int) -> Map<Seq<char>, Seq<char>>
    decreases count,
{
    if count <= 0 {
        Map::empty()
    } else {
        by_path(files, count - 1).insert(files[count - 1].path, files[count - 1].contents)
    }
}

/// Collects rendered files by their paths.
pub fn collect_files(rendered: &Vec<RenderedFile>) -> (files: FileMap)
    ensures
        files@ == by_path(rendered_models(rendered@), rendered@.len() as int),
{
    let ghost all = rendered_models(rendered@);
    let mut files = FileMap::new();
    let mut index: usize = 0;
    while index < rendered.len()
        invariant
            all == rendered_models(rendered@),
            index <= rendered@.len(),
            files@ == by_path(all, index as int),
        decreases rendered@.len() - index,
    {
        let file = &rendered[index];
        assert(all[index as int] == file@);
        files.insert(file.path.clone(), file.contents.clone());
        index += 1;
    }
    files
}

/// The file that records a state.
pub open spec fn state_file(text: Seq<char>) -> RenderedModel {
    RenderedModel {
        path: PROJECT_STATE_PATH@,
        contents: text,
        ownership: TemplateOwnership::Kit,
    }
}

// Canonical form.
/// A project whose files are all known and owned.
#[derive(Debug)]
pub struct CanonicalStage {
    /// State, which is to be encoded next.
    pub state: ProjectState,
    /// Files.
    pub rendered: Vec<RenderedFile>,
    /// Base descriptors.
    pub base_files: FileMap,
}

/// The value of a project whose files are all known and owned.
pub struct CanonicalModel {
    /// State.
    pub state: StateModel,
    /// Files.
    pub rendered: Seq<RenderedModel>,
    /// Base descriptors.
    pub base_files: Map<Seq<char>, Seq<char>>,
}

impl CanonicalStage {
    /// The value of this stage.
    pub open spec fn view(&self) -> CanonicalModel {
        CanonicalModel {
            state: self.state@,
            rendered: rendered_models(self.rendered@),
            base_files: self.base_files@,
        }
    }
}

/// The canonical form of a project whose first state has the text `text`: the files of its
/// application templates and its derived files are added, and every file has its owner.
pub open spec fn canonical(
    inputs: InputsModel,
    modules: Seq<Seq<char>>,
    release: ReleaseModel,
    stage: (StateModel, Seq<RenderedModel>),
    text: Seq<char>,
) -> Result<CanonicalModel, Seq<char>> {
    let base = stage.1.push(state_file(text));
    match application_files(inputs.catalog, inputs.templates, modules, modules.len() as int) {
        Err(message) => Err(message),
        Ok(more) => match retaining(stage.0, inputs.catalog) {
            Err(failure) => Err(failure.text()),
            Ok(kept) => match derived_files(
                inputs.catalog,
                sorted_listing::<String>(modules),
                kept,
                inputs.image,
                5,
            ) {
                Err(failure) => Err(failure.text()),
                Ok(derived) => {
                    let all = base + more + derived;
                    match with_all_rendered(kept.ownership, all, all.len() as int) {
                        Err(message) => Err(message),
                        Ok(ownership) => Ok(
                            CanonicalModel {
                                state: normalized(StateModel { ownership, ..kept }, release),
                                rendered: all,
                                base_files: by_path(base, base.len() as int),
                            },
                        ),
                    }
                },
            },
        },
    }
}

fn select(modules: &Vec<String>) -> (selected: TextSet)
    ensures
        selected@ == sorted_listing::<String>(texts(modules@)),
{
    let copy = clone_texts(modules);
    assert(models(copy@) =~= texts(modules@));
    sort_unique(copy)
}

/// Brings a project whose first state has the text `state_text` into canonical form.
pub fn canonicalize_profile(
    inputs: &PlanningInputs,
    modules: &Vec<String>,
    release: &ReleaseIdentity,
    stage: RenderStage,
    state_text: String,
) -> (result: Result<CanonicalStage, RenderError>)
    ensures
        ({
            let owed = canonical(inputs@, texts(modules@), release@, stage@, state_text@);
            match result {
                Ok(next) => owed == Ok::<CanonicalModel, Seq<char>>(next@),
                Err(error) => owed is Err && is_canonical_error(error, owed->Err_0),
            }
        }),
{
    let ghost base = stage@.1.push(state_file(state_text@));
    assert(texts(modules@).len() == modules@.len());
    let mut state = stage.state;
    let mut rendered = stage.rendered;
    rendered.push(
        RenderedFile {
            path: PROJECT_STATE_PATH.to_owned(),
            contents: state_text,
            ownership: TemplateOwnership::Kit,
        },
    );
    assert(rendered_models(rendered@) =~= base);
    let base_files = collect_files(&rendered);
    let mut more = match render_application_files(inputs.catalog, inputs.templates, modules) {
        Ok(more) => more,
        Err(error) => {
            return Err(error);
        },
    };
    let ghost added = rendered_models(more@);
    rendered.append(&mut more);
    assert(rendered_models(rendered@) =~= base + added);
    match retain_selected_compose_volumes(&mut state, inputs.catalog) {
        Ok(()) => {},
        Err(error) => {
            return Err(RenderError::Canonical(error.message()));
        },
    }
    let selected = select(modules);
    match append_derived_files(
        &mut rendered,
        inputs.catalog,
        &selected,
        &state,
        inputs.image_template,
    ) {
        Ok(()) => {},
        Err(error) => {
            return Err(error);
        },
    }
    assert(rendered_models(rendered@).len() == rendered@.len());
    match record_rendered_ownership(&rendered, &mut state) {
        Ok(()) => {},
        Err(error) => {
            return Err(error);
        },
    }
    normalize_next_state(&mut state, release);
    Ok(CanonicalStage { state, rendered, base_files })
}

// Composition.
/// The place, from `at` on, of the file that records the state.
pub open spec fn state_place(files: Seq<RenderedModel>, at: int) -> int
    decreases files.len() - at,
{
    if at < 0 || at >= files.len() || files[at].path == PROJECT_STATE_PATH@ {
        at
    } else {
        state_place(files, at + 1)
    }
}

/// Files with the recorded state replaced.
pub open spec fn with_state_text(files: Seq<RenderedModel>, text: Seq<char>) -> Option<
    Seq<RenderedModel>,
> {
    let place = state_place(files, 0);
    if place < files.len() {
        Some(files.update(place, RenderedModel { contents: text, ..files[place] }))
    } else {
        None
    }
}

fn record_state(files: Vec<RenderedFile>, text: String) -> (result: Result<
    Vec<RenderedFile>,
    RenderError,
>)
    ensures
        match result {
            Ok(rendered) => with_state_text(rendered_models(files@), text@) == Some(
                rendered_models(rendered@),
            ),
            Err(error) => with_state_text(rendered_models(files@), text@) is None
                && is_canonical_error(error, "rendered state is missing"@),
        },
{
    let ghost all = rendered_models(files@);
    let mut rendered = files;
    let mut index: usize = 0;
    while index < rendered.len()
        invariant
            all == rendered_models(files@),
            all == rendered_models(rendered@),
            index <= rendered@.len(),
            state_place(all, 0) == state_place(all, index as int),
        decreases rendered@.len() - index,
    {
        assert(all[index as int] == rendered@[index as int]@);
        if same_text(rendered[index].path.as_str(), PROJECT_STATE_PATH) {
            let changed = RenderedFile {
                path: rendered[index].path.clone(),
                contents: text,
                ownership: rendered[index].ownership,
            };
            let ghost value = changed@;
            rendered.set(index, changed);
            assert(rendered_models(rendered@) =~= all.update(index as int, value));
            return Ok(rendered);
        }
        index += 1;
    }
    Err(RenderError::Canonical("rendered state is missing".to_owned()))
}

/// The snapshot that a new project is composed from.
pub open spec fn new_snapshot(
    state: StateModel,
    files: Map<Seq<char>, Seq<char>>,
    base_files: Map<Seq<char>, Seq<char>>,
    release: ReleaseModel,
) -> SnapshotModel {
    SnapshotModel {
        state,
        state_error: None,
        files,
        release,
        base_files,
        provenance: Seq::empty(),
        lockfile: None,
    }
}

/// A project whose composition is planned.
#[derive(Debug)]
pub struct ComposedStage {
    /// The plan but for the change of the state, whose next form is to be encoded next.
    pub draft: PlanDraft,
    /// Files.
    pub rendered: Vec<RenderedFile>,
    /// Contents of the files by their paths.
    pub files: FileMap,
}

/// Plans the composition of a project whose canonical state has the text `state_text`. The order
/// in which the files are listed does not matter.
pub fn compose_profile(
    inputs: &PlanningInputs,
    release: &ReleaseIdentity,
    stage: CanonicalStage,
    state_text: String,
) -> (result: Result<ComposedStage, RenderError>)
    ensures
        match with_state_text(stage@.rendered, state_text@) {
            None => result matches Err(error) && is_canonical_error(
                error,
                "rendered state is missing"@,
            ),
            Some(rendered) => {
                let files = by_path(rendered, rendered.len() as int);
                &&& exists|listed: Seq<ProjectFile>| #[trigger] contents_by_path(listed) == files
                &&& forall|listed: Seq<ProjectFile>| #[trigger]
                    contents_by_path(listed) == files ==> {
                        let owed = initial_outcome(
                            inputs@,
                            new_snapshot(stage@.state, files, stage@.base_files, release@),
                            listed,
                            Err("a new project has no earlier release"@),
                        );
                        match result {
                            Ok(next) => {
                                &&& owed == Ok::<(StateModel, Seq<PlanStep>), ManagerFailure>(
                                    (next.draft.next_state@, steps(next.draft.operations@)),
                                )
                                &&& rendered_models(next.rendered@) == rendered
                                &&& next.files@ == files
                            },
                            Err(error) => owed is Err && is_canonical_error(
                                error,
                                owed->Err_0.text(),
                            ),
                        }
                    }
            },
        },
{
    let rendered = match record_state(stage.rendered, state_text) {
        Ok(rendered) => rendered,
        Err(error) => {
            return Err(error);
        },
    };
    assert(rendered_models(rendered@).len() == rendered@.len());
    let files = collect_files(&rendered);
    let none: Vec<Diagnostic> = Vec::new();
    assert(models(none@) =~= Seq::<DiagnosticModel>::empty());
    let snapshot = ProjectSnapshot {
        state: stage.state,
        state_error: None,
        files: files.duplicate(),
        release_identity: release.duplicate(),
        base_files: stage.base_files,
        provenance_diagnostics: none,
        lockfile: None,
    };
    let target: Result<TargetProject, String> = Err(
        "a new project has no earlier release".to_owned(),
    );
    assert(contents_by_path(snapshot.files.listed()) == files@);
    proof {
        let target_model = target_value(target);
        assert forall|listed: Seq<ProjectFile>| #[trigger]
            contents_by_path(listed) == files@ implies initial_outcome(
            inputs@,
            snapshot@,
            listed,
            target_model,
        ) == initial_outcome(inputs@, snapshot@, snapshot.files.listed(), target_model) by {
            lemma_listing_of_new_project(
                inputs@,
                snapshot@,
                listed,
                snapshot.files.listed(),
                target_model,
            );
        }
    }
    match compose_initial_profile(inputs, &snapshot, &target) {
        Ok(draft) => Ok(ComposedStage { draft, rendered, files }),
        Err(error) => Err(RenderError::Canonical(error.message())),
    }
}

/// A project whose composition is applied.
#[derive(Debug)]
pub struct AppliedStage {
    /// State, which is to be encoded next.
    pub state: ProjectState,
    /// Files as they were before.
    pub rendered: Vec<RenderedFile>,
    /// Contents of the files by their paths.
    pub files: FileMap,
}

/// The files that a planned composition leads to, given the text of the next state.
pub open spec fn composed_contents(
    draft: PlanDraft,
    files: Map<Seq<char>, Seq<char>>,
    text: Seq<char>,
) -> Result<Map<Seq<char>, Seq<char>>, ManagerFailure> {
    if !files.contains_key(PROJECT_STATE_PATH@) {
        Err(state_missing())
    } else {
        let list = completed(draft, files[PROJECT_STATE_PATH@], text).steps;
        applied(files, list, list.len() as int)
    }
}

/// The state and the files that a planned composition leads to.
pub open spec fn settled(
    draft: PlanDraft,
    files: Map<Seq<char>, Seq<char>>,
    text: Seq<char>,
    release: ReleaseModel,
) -> Result<(StateModel, Map<Seq<char>, Seq<char>>), Seq<char>> {
    match composed_contents(draft, files, text) {
        Err(failure) => Err(failure.text()),
        Ok(after) => {
            let state = draft.next_state@;
            match all_refreshed(state.ownership, after, state.ownership.len() as int) {
                Err(message) => Err(message),
                Ok(ownership) => Ok(
                    (normalized(StateModel { ownership, ..state }, release), after),
                ),
            }
        },
    }
}

/// Applies a planned composition whose next state has the text `state_text`.
pub fn apply_composition(stage: ComposedStage, state_text: String, release: &ReleaseIdentity) -> (result:
    Result<AppliedStage, RenderError>)
    ensures
        ({
            let owed = settled(stage.draft, stage.files@, state_text@, release@);
            match result {
                Ok(next) => owed == Ok::<(StateModel, Map<Seq<char>, Seq<char>>), Seq<char>>(
                    (next.state@, next.files@),
                ) && rendered_models(next.rendered@) == rendered_models(stage.rendered@),
                Err(error) => owed is Err && is_canonical_error(error, owed->Err_0),
            }
        }),
{
    let mut state = stage.draft.next_state.duplicate();
    let mut files = stage.files;
    let plan = match complete_plan(stage.draft, &files, state_text) {
        Ok(plan) => plan,
        Err(error) => {
            return Err(RenderError::Canonical(error.message()));
        },
    };
    assert(steps(plan.operations@).len() == plan.operations@.len());
    match apply_to_files(&mut files, &plan.operations) {
        Ok(()) => {},
        Err(error) => {
            return Err(RenderError::Canonical(error.message()));
        },
    }
    match refresh_approved_hashes(&mut state, &files) {
        Ok(()) => {},
        Err(error) => {
            return Err(error);
        },
    }
    normalize_next_state(&mut state, release);
    Ok(AppliedStage { state, rendered: stage.rendered, files })
}

/// Finishes a project whose last state has the text `state_text`.
pub fn finish_rendering(stage: AppliedStage, state_text: String) -> (result: Result<
    Vec<RenderedFile>,
    RenderError,
>)
    ensures
        ({
            let owed = merged_files(
                rendered_models(stage.rendered@),
                stage.state@,
                stage.files@.insert(PROJECT_STATE_PATH@, state_text@),
            );
            match result {
                Ok(files) => owed == Ok::<Seq<RenderedModel>, Seq<char>>(rendered_models(files@)),
                Err(error) => owed is Err && is_canonical_error(error, owed->Err_0),
            }
        }),
{
    let mut files = stage.files;
    files.insert(PROJECT_STATE_PATH.to_owned(), state_text);
    merge_composed_files(&stage.rendered, &stage.state, files)
}

} // verus!
