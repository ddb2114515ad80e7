use omnius_generator::application_templates::{
    application_template, validate_application_template_catalog,
    validate_application_template_path, ApplicationTemplateDescriptor,
};
use omnius_generator::cargo_graph::CargoGraph;
use omnius_generator::cargo_metadata::{RawMetadata, RawNode, RawPackage, RawResolve};
use omnius_generator::cargo_resolver::CargoResolverResult;
use omnius_generator::catalog::{
    BaseProfiles, ProfileCatalog, ProfileDefinition, ProfileError, ProviderSelection,
};
use omnius_generator::compose::{compose_parts, render_compose, Fragment};
use omnius_generator::derived::{render_managed_dockerfile, render_managed_derived};
use omnius_generator::diagnosis::{doctor, PlanningInputs};
use omnius_generator::digest::sha256_hex;
use omnius_generator::file_map::FileMap;
use omnius_generator::management::{
    ManagementPlan, ManagerError, PlanAction, PlanOperation, ProjectSnapshot,
};
use omnius_generator::modules::{
    ComposeEnvironmentBinding, ComposeHealthcheck, ComposeMigration, CompositionCrate,
    ConfigurationField, ConfigurationValue, ConfigurationValueType, ExternalEnvironmentBinding,
    GeneratorOwnership, ModuleCatalog, ModuleComposition, ModuleConfiguration, ModuleDefinition,
    RuntimeDependencyDescriptor, RuntimeDependencyId,
};
use omnius_generator::ordered::{set_add, set_holds, Sorted, TextSet};
use omnius_generator::plan_files::TargetProject;
use omnius_generator::planning::{
    complete_plan, finish_upgrade_plan, identify_management_plan, plan, plan_add, plan_diff, plan_profile_set, plan_remove, PlannedChange,
};
use omnius_generator::reference_config::render_reference_config;
use omnius_generator::region::{parse_managed_regions, reconcile_managed_region};
use omnius_generator::release::{ReleaseIdentity, CANONICAL_REPOSITORY};
use omnius_generator::render::{
    base_context, check_catalog_version, render_application_files, render_base_files,
    validate_service_name, RenderError, TemplateFile, TemplateOwnership,
};
use omnius_generator::render_course::{
    apply_composition, begin_rendering, canonicalize_profile, collect_files, compose_profile,
    finish_rendering, ProfileRequest,
};
use omnius_generator::render_profile::take_rendered_state;
use omnius_generator::rendering::{
    render_react_index, render_region, render_selected_module_catalog, selected_derived_paths,
    LEGACY_APPLICATION_REACT_INDEX, REACT_INDEX_PATH,
};
use omnius_generator::requirements::ApplicationRequirement;
use omnius_generator::sealing::{
    apply_outcome, apply_to_files, begin_seal, finish_seal, journal_operation, sealed_lockfile,
    SealCourse, SealKind,
};
use omnius_generator::state::{
    ManagedRegionRecord, OwnershipKind, ProjectState, PROJECT_STATE_PATH,
};

const REVISION: &str = "0123456789abcdef0123456789abcdef01234567";
const COMPOSE: &str = r#"services:
  app:
    build:
      context: ..
      dockerfile: ops/Dockerfile
    environment:
      OMNIUS__MIGRATIONS__RUN_ON_STARTUP: "false"
      OMNIUS__POSTGRES__URL: "postgres://postgres/omnius"
      OMNIUS__SERVER__LISTEN_ADDRESS: "0.0.0.0:3000"
    depends_on:
      postgres:
        condition: service_healthy
      migrate:
        condition: service_completed_successfully
    ports:
    - "127.0.0.1:3000:3000"
    read_only: true
    tmpfs:
    - /tmp:size=16m,mode=1777
    security_opt:
    - no-new-privileges:true
  migrate:
    build:
      context: ..
      dockerfile: ops/Dockerfile
    command: ["migrate"]
    environment:
      OMNIUS__MIGRATIONS__RUN_ON_STARTUP: "false"
      OMNIUS__POSTGRES__URL: "postgres://postgres/omnius"
    depends_on:
      postgres:
        condition: service_healthy
    restart: "no"
    read_only: true
    tmpfs:
    - /tmp:size=16m,mode=1777
    security_opt:
    - no-new-privileges:true
  postgres:
    image: postgres@sha256:DIGEST
    environment:
      POSTGRES_DB: "omnius"
      POSTGRES_PASSWORD: "development"
      POSTGRES_USER: "omnius"
    volumes:
    - "postgres-data:/var/lib/postgresql/data"
    healthcheck:
      test: ["CMD", "pg_isready"]
      interval: 5s
      timeout: 3s
      retries: 20
volumes:
  postgres-data:
"#;
const RETAINED_COMPOSE: &str = r#"services:
  app:
    build:
      context: ..
      dockerfile: ops/Dockerfile
    environment:
      OMNIUS__SERVER__LISTEN_ADDRESS: "0.0.0.0:3000"
    ports:
    - "127.0.0.1:3000:3000"
    read_only: true
    tmpfs:
    - /tmp:size=16m,mode=1777
    security_opt:
    - no-new-privileges:true
volumes:
  postgres-data:
"#;
const IMAGE: &str = "FROM scratch\nLABEL name={{project-name}}\n{% if web_static %}COPY web /web\n{% endif %}";

fn text(value: &str) -> String {
    value.to_owned()
}

fn list(values: &[&str]) -> Vec<String> {
    values.iter().map(|value| text(value)).collect()
}

fn set(values: &[&str]) -> TextSet {
    let mut result: TextSet = Sorted::new();
    for value in values {
        set_add(&mut result, value);
    }
    result
}

fn workspace() -> TextSet {
    set(&["omnius-config", "omnius-http", "omnius-telemetry"])
}

fn module(id: &str, prerequisites: &[&str]) -> ModuleDefinition {
    ModuleDefinition {
        id: text(id),
        title: text(id),
        version: text("0.1.0"),
        owner: text("kit"),
        spec_id: text("S-1"),
        kind: text("runtime"),
        prerequisites: list(prerequisites),
        conflicts_with: vec![],
        provider_slot: None,
        criticality: text("core"),
        runtime_toggle: false,
        runtime_dependencies: vec![],
        primary_crates: vec![],
        composition: ModuleComposition {
            crates: vec![],
            registrar: true,
            application_requirements: vec![],
        },
        acceptance: vec![],
        persistence: vec![],
        configuration: ModuleConfiguration {
            prefix: id.replace('-', "_"),
            schema: None,
            secret_fields: vec![],
            fields: vec![],
        },
        routes: vec![],
        background_tasks: vec![],
        health_checks: vec![],
        metrics_prefix: text("omnius"),
        test_fixtures: vec![],
        application_templates: vec![],
        generator_ownership: GeneratorOwnership {
            kit_owned: vec![],
            managed_regions: vec![],
            derived: vec![],
        },
        removal_behavior: text("remove"),
    }
}

fn field(path: &str, value: Option<&str>, environment: Option<&str>) -> ConfigurationField {
    ConfigurationField {
        path: text(path),
        value_type: ConfigurationValueType::String,
        required: true,
        reference_default: value.map(|value| ConfigurationValue::String(text(value))),
        environment: environment.map(text),
    }
}

fn binding(name: &str, value: &str, secret: bool) -> ComposeEnvironmentBinding {
    ComposeEnvironmentBinding {
        name: text(name),
        value: text(value),
        secret,
        development_only: true,
    }
}

fn postgres_descriptor() -> RuntimeDependencyDescriptor {
    RuntimeDependencyDescriptor::Compose {
        id: RuntimeDependencyId::Postgresql,
        service: text("postgres"),
        image: format!("postgres@sha256:{}", "a".repeat(64)),
        volume: text("postgres-data"),
        volume_mount: text("/var/lib/postgresql/data"),
        healthcheck: Box::new(ComposeHealthcheck {
            test: list(&["CMD", "pg_isready"]),
            interval: text("5s"),
            timeout: text("3s"),
            retries: 20,
        }),
        service_environment: vec![
            binding("POSTGRES_DB", "omnius", false),
            binding("POSTGRES_PASSWORD", "development", true),
            binding("POSTGRES_USER", "omnius", false),
        ],
        application_environment: vec![
            binding("OMNIUS__POSTGRES__URL", "postgres://postgres/omnius", true),
            binding("OMNIUS__MIGRATIONS__RUN_ON_STARTUP", "false", false),
        ],
        migration: Some(ComposeMigration {
            required_module: text("migrations"),
            command: list(&["migrate"]),
        }),
    }
}

fn redis_descriptor(message: &str) -> RuntimeDependencyDescriptor {
    RuntimeDependencyDescriptor::External {
        id: RuntimeDependencyId::RedisOrValkey,
        bindings: vec![ExternalEnvironmentBinding {
            name: text("OMNIUS__REDIS__URL"),
            message: text(message),
            credential: true,
        }],
    }
}

fn external_descriptor(id: RuntimeDependencyId, name: &str) -> RuntimeDependencyDescriptor {
    RuntimeDependencyDescriptor::External {
        id,
        bindings: vec![ExternalEnvironmentBinding {
            name: text(name),
            message: text("supply the endpoint"),
            credential: true,
        }],
    }
}

fn descriptors() -> Vec<RuntimeDependencyDescriptor> {
    vec![
        postgres_descriptor(),
        redis_descriptor("supply the Redis endpoint"),
        external_descriptor(RuntimeDependencyId::OidcProvider, "OMNIUS__OIDC__ISSUER"),
        external_descriptor(RuntimeDependencyId::NatsJetstream, "OMNIUS__NATS__URL"),
        external_descriptor(RuntimeDependencyId::ObjectStore, "OMNIUS__OBJECTS__URL"),
        external_descriptor(RuntimeDependencyId::SmtpOrEmailProvider, "OMNIUS__EMAIL__URL"),
        external_descriptor(RuntimeDependencyId::Svix, "OMNIUS__SVIX__URL"),
        external_descriptor(RuntimeDependencyId::FlagProvider, "OMNIUS__FLAGS__URL"),
        external_descriptor(RuntimeDependencyId::Meilisearch, "OMNIUS__MEILISEARCH__URL"),
        external_descriptor(RuntimeDependencyId::ConfiguredLlmProviderApis, "OMNIUS__LLM__URL"),
        external_descriptor(RuntimeDependencyId::AwsBedrockRuntime, "OMNIUS__BEDROCK__KEY"),
        external_descriptor(RuntimeDependencyId::GoogleVertexAi, "OMNIUS__VERTEX__KEY"),
    ]
}

fn web_react() -> ModuleDefinition {
    let mut web = module("web-react", &["http"]);
    web.generator_ownership.derived.push(text(REACT_INDEX_PATH));
    web
}

fn base_catalog() -> ModuleCatalog {
    let mut config = module("config", &[]);
    config.composition.crates.push(CompositionCrate {
        dependency: text("omnius-config"),
        features: vec![],
    });
    let mut telemetry = module("telemetry", &["config"]);
    telemetry.configuration.fields.push(field(
        "telemetry.service",
        Some("{{service-name}}"),
        None,
    ));
    telemetry.generator_ownership.managed_regions = list(&[
        "Cargo.toml#framework-dependency",
        "apps/*/src/composition.rs#modules",
    ]);
    let mut postgres = module("postgres", &["config"]);
    postgres.runtime_dependencies.push(RuntimeDependencyId::Postgresql);
    postgres.provider_slot = Some(text("database"));
    postgres.configuration.secret_fields.push(text("postgres.url"));
    postgres.configuration.fields.push(field("postgres.url", None, Some("OMNIUS__POSTGRES__URL")));
    let mut migrations = module("migrations", &["postgres"]);
    migrations.runtime_dependencies.push(RuntimeDependencyId::Postgresql);
    migrations.configuration.fields.push(ConfigurationField {
        path: text("migrations.run_on_startup"),
        value_type: ConfigurationValueType::Boolean,
        required: true,
        reference_default: Some(ConfigurationValue::Boolean(false)),
        environment: None,
    });
    migrations.application_templates.push(text("apps/service/src/first.rs"));
    let mut admin = module("admin", &["http"]);
    admin.composition.application_requirements = ApplicationRequirement::all();
    ModuleCatalog {
        schema_version: 1,
        bundle_version: text("0.1.0"),
        runtime_dependencies: descriptors(),
        modules: vec![
            module("health", &["runtime", "http"]),
            config,
            module("runtime", &["config"]),
            module("http", &["runtime"]),
            web_react(),
            module("web-auth", &["web-react"]),
            module("web-llm", &["web-react"]),
            module("web-tenancy", &["web-react"]),
            telemetry,
            postgres,
            migrations,
            admin,
        ],
    }
}

fn release() -> ReleaseIdentity {
    ReleaseIdentity::new("0.1.0", CANONICAL_REPOSITORY, REVISION).expect("identity")
}

fn application_templates() -> Vec<ApplicationTemplateDescriptor> {
    vec![ApplicationTemplateDescriptor {
        module: text("migrations"),
        path: text("apps/service/src/first.rs"),
        source: text("pub struct First;\n"),
    }]
}

fn profile(id: &str, extends: Option<&str>, modules: &[&str]) -> ProfileDefinition {
    ProfileDefinition {
        id: text(id),
        description: text(id),
        extends: extends.map(text),
        modules: list(modules),
    }
}

fn minimal() -> ProfileDefinition {
    profile("minimal", None, &["config", "runtime", "http", "web-react", "telemetry"])
}

fn profiles(catalog: &ModuleCatalog) -> ProfileCatalog {
    let mut profiles = vec![profile("data", Some("minimal"), &["postgres"]), minimal()];
    for id in ["a", "b", "c", "d", "e", "f", "g", "h"] {
        profiles.push(profile(id, None, &["config"]));
    }
    let document = BaseProfiles { schema_version: 1, bundle_version: text("0.1.0"), profiles };
    ProfileCatalog::from_overlay(document, catalog).expect("profiles")
}

fn base_templates() -> Vec<TemplateFile> {
    let empty = sha256_hex(b"");
    let file = |path: &str, source: String, ownership| TemplateFile {
        path: text(path),
        source,
        ownership,
    };
    vec![
        file(
            "Cargo.toml",
            format!("[workspace]\n# omnius:managed-begin id=framework-dependency version=1 hash={empty}\n# omnius:managed-end id=framework-dependency\n"),
            TemplateOwnership::Application,
        ),
        file(
            "apps/service/src/composition.rs",
            format!("const MODULES: &[&str] = &[\n    // omnius:managed-begin id=modules version=1 hash={empty}\n    // omnius:managed-end id=modules\n];\n"),
            TemplateOwnership::Application,
        ),
        file(
            "config/base.toml",
            text("name = \"{{project-name}}\"\nprofile = \"{{ profile }}\"\nkit = \"{{ kit_version }}\"\n{% for module in modules %}# {{ module }}\n{% endfor %}"),
            TemplateOwnership::Kit,
        ),
    ]
}

struct Fixture {
    catalog: ModuleCatalog,
    profiles: ProfileCatalog,
    workspace: TextSet,
    templates: Vec<ApplicationTemplateDescriptor>,
}

impl Fixture {
    fn new() -> Self {
        let catalog = base_catalog();
        let profiles = profiles(&catalog);
        Self { catalog, profiles, workspace: workspace(), templates: application_templates() }
    }

    fn inputs(&self) -> PlanningInputs<'_> {
        PlanningInputs {
            catalog: &self.catalog,
            profiles: &self.profiles,
            workspace_dependencies: &self.workspace,
            templates: &self.templates,
            image_template: IMAGE,
        }
    }

    fn base(&self) -> FileMap {
        let resolved = self.profiles.resolve("minimal", &self.catalog).expect("profile");
        let context = base_context(
            "minimal",
            resolved.modules(),
            resolved.providers(),
            resolved.external_services(),
            &release(),
        );
        collect_files(&render_base_files(&base_templates(), "demo", &context).expect("files"))
    }

    fn snapshot(&self, state: ProjectState, files: FileMap) -> ProjectSnapshot {
        ProjectSnapshot {
            state,
            state_error: None,
            files,
            release_identity: release(),
            base_files: self.base(),
            provenance_diagnostics: vec![],
            lockfile: Some(b"version = 4\n".to_vec()),
        }
    }

    fn target(&self, snapshot: &ProjectSnapshot) -> Result<TargetProject, String> {
        Ok(TargetProject {
            state: snapshot.state.duplicate(),
            files: snapshot.base_files.duplicate(),
        })
    }

    /// Renders and composes a new project from the smallest profile.
    fn project(&self) -> ProjectSnapshot {
        let resolved = self.profiles.resolve("minimal", &self.catalog).expect("profile");
        let request = ProfileRequest {
            service_name: "demo",
            profile: "minimal",
            modules: resolved.modules(),
            providers: resolved.providers(),
            runtime_dependencies: resolved.external_services(),
        };
        let inputs = self.inputs();
        let stage =
            begin_rendering(&inputs, &base_templates(), &request, &release()).expect("base");
        let stage =
            canonicalize_profile(&inputs, resolved.modules(), &release(), stage, text("first"))
                .expect("canonical form");
        assert!(stage.base_files.contains_key(PROJECT_STATE_PATH));
        let stage = compose_profile(&inputs, &release(), stage, text("canonical"))
            .expect("composition");
        let stage = apply_composition(stage, text("composed"), &release()).expect("application");
        assert_eq!(stage.files.get(PROJECT_STATE_PATH), Some("composed"));
        let state = stage.state.duplicate();
        let mut rendered = finish_rendering(stage, text("last")).expect("files");
        let files = collect_files(&rendered);
        let state_file = take_rendered_state(&mut rendered).expect("state file");
        assert_eq!(state_file.contents, "last");
        self.snapshot(state, files)
    }

    fn plan(&self, snapshot: &ProjectSnapshot, change: PlannedChange) -> (ManagementPlan, ProjectState) {
        match change {
            PlannedChange::Unchanged(plan) => (plan, snapshot.state.duplicate()),
            PlannedChange::Draft(draft) => {
                let state = draft.next_state.duplicate();
                let plan = complete_plan(draft, &snapshot.files, text("changed")).expect("plan");
                (plan, state)
            }
        }
    }
}

fn phases(plan: &ManagementPlan) -> Vec<u32> {
    plan.operations.iter().map(PlanOperation::order).collect()
}

#[test]
fn react_barrel_exports_only_selected_adapters() -> Result<(), ManagerError> {
    let catalog = base_catalog();
    let selected = set(&["web-auth", "web-llm", "web-react", "web-tenancy"]);
    assert!(set_holds(
        &selected_derived_paths(&catalog, &selected)?,
        "packages/web-sdk/src/react/index.ts"
    ));
    assert_eq!(
        render_react_index(&selected),
        "export * from \"./core.js\";\nexport * from \"./auth.js\";\nexport * from \"./capabilities.js\";\nexport * from \"./tenant.js\";\nexport * from \"./llm.js\";\n"
    );
    let selected = set(&["web-auth", "web-llm", "web-react"]);
    assert!(!render_react_index(&selected).contains("./tenant.js"));
    let selected = set(&["web-auth", "web-react"]);
    assert!(!render_react_index(&selected).contains("./llm.js"));
    Ok(())
}

#[test]
fn a_new_project_is_healthy() {
    let fixture = Fixture::new();
    let project = fixture.project();
    let report = doctor(&fixture.inputs(), &project);
    assert_eq!(report.diagnostics, vec![]);
    assert!(report.healthy);
    assert_eq!(project.state.ownership_of("Cargo.toml"), Some(OwnershipKind::ApplicationOwned));
    assert_eq!(project.state.ownership_of("config/base.toml"), Some(OwnershipKind::KitOwned));
    assert_eq!(
        project.files.get("config/base.toml"),
        Some("name = \"demo\"\nprofile = \"minimal\"\nkit = \"0.1.0\"\n# config\n# runtime\n# http\n# web-react\n# telemetry\n")
    );
    assert_eq!(
        project.files.get("ops/Dockerfile"),
        Some("FROM scratch\nLABEL name=demo\n")
    );
    let regions =
        parse_managed_regions(project.files.get("Cargo.toml").expect("manifest")).expect("regions");
    assert_eq!(regions.len(), 1);
    assert_eq!(
        regions[0].content,
        format!("[workspace.dependencies.service-kit]\npackage = \"omnius-service-kit\"\nversion = \"=0.1.0\"\ngit = \"{CANONICAL_REPOSITORY}\"\nrev = \"{REVISION}\"\ndefault-features = false\nfeatures = [\n  \"config\",\n  \"runtime\",\n  \"http\",\n  \"web-react\",\n  \"telemetry\",\n]\n")
    );
}

#[test]
fn an_unchanged_project_has_nothing_to_plan() {
    let fixture = Fixture::new();
    let project = fixture.project();
    let target = fixture.target(&project);
    let added = plan_add(&fixture.inputs(), &project, &target, "http").expect("plan");
    assert!(matches!(added, PlannedChange::Unchanged(ref plan) if plan.is_empty()));
    let removed = plan_remove(&fixture.inputs(), &project, &target, "postgres").expect("plan");
    assert!(matches!(removed, PlannedChange::Unchanged(_)));
}

#[test]
fn adding_and_removing_a_module_plans_safe_changes() {
    let fixture = Fixture::new();
    let project = fixture.project();
    let change = plan_add(&fixture.inputs(), &project, &fixture.target(&project), "migrations")
        .expect("change");
    let (mut plan, state) = fixture.plan(&project, change);
    assert_eq!(plan.action, PlanAction::Add);
    assert_eq!(plan.added_modules, list(&["migrations", "postgres"]));
    assert_eq!(state.retained_compose_volumes, list(&["postgres-data"]));
    let order = phases(&plan);
    assert!(order.windows(2).all(|pair| pair[0] <= pair[1]));
    assert!(matches!(plan.operations.last(), Some(PlanOperation::WriteState { .. })));
    assert!(plan.operations.iter().any(|operation| matches!(
        operation,
        PlanOperation::CreateFile { path, .. } if path == "apps/service/src/first.rs"
    )));
    identify_management_plan(&mut plan, b"encoded plan");
    assert_eq!(plan.plan_id, sha256_hex(b"encoded plan"));
    let mut files = project.files.duplicate();
    apply_to_files(&mut files, &plan.operations).expect("application");
    assert_eq!(files.get("config/base.toml"), project.files.get("config/base.toml"));
    let next = fixture.snapshot(state, files);
    assert_eq!(doctor(&fixture.inputs(), &next).diagnostics, vec![]);

    let change =
        plan_remove(&fixture.inputs(), &next, &fixture.target(&next), "migrations").expect("change");
    let (plan, state) = fixture.plan(&next, change);
    assert_eq!(plan.removed_modules, list(&["migrations"]));
    assert_eq!(plan.preserved_paths, list(&["apps/service/src/first.rs"]));
    let mut files = next.files.duplicate();
    apply_to_files(&mut files, &plan.operations).expect("application");
    assert!(files.contains_key("apps/service/src/first.rs"));
    let last = fixture.snapshot(state, files);
    assert_eq!(doctor(&fixture.inputs(), &last).diagnostics, vec![]);
}

#[test]
fn selecting_a_profile_resolves_its_modules() {
    let fixture = Fixture::new();
    let project = fixture.project();
    let change =
        plan_profile_set(&fixture.inputs(), &project, &fixture.target(&project), "data")
            .expect("change");
    let (plan, state) = fixture.plan(&project, change);
    assert_eq!(plan.added_modules, list(&["postgres"]));
    assert_eq!(plan.removed_modules, list(&[]));
    assert_eq!(state.profile.id, "data");
    let count = plan.operations.len();
    for (index, operation) in plan.operations.iter().enumerate() {
        assert_eq!(matches!(operation, PlanOperation::WriteState { .. }), index + 1 == count);
    }
    let change =
        plan_profile_set(&fixture.inputs(), &project, &fixture.target(&project), "a")
            .expect("change");
    let (plan, state) = fixture.plan(&project, change);
    assert_eq!(plan.added_modules, list(&[]));
    assert_eq!(plan.removed_modules, list(&["http", "runtime", "telemetry", "web-react"]));
    let selected = state.modules.iter().map(|module| module.id.clone()).collect::<Vec<_>>();
    assert_eq!(selected, list(&["config"]));
    let unknown =
        plan_profile_set(&fixture.inputs(), &project, &fixture.target(&project), "absent")
            .expect_err("profile");
    assert!(unknown.message().contains("absent"));
}

#[test]
fn a_prerequisite_cannot_be_removed() {
    let fixture = Fixture::new();
    let project = fixture.project();
    let target = fixture.target(&project);
    let error =
        plan_remove(&fixture.inputs(), &project, &target, "config").expect_err("dependants");
    assert!(matches!(error, ManagerError::InvalidProject(_) | ManagerError::Catalog(_)));
    assert!(plan_add(&fixture.inputs(), &project, &target, "absent").is_err());
}

#[test]
fn edited_files_stop_planning() {
    let fixture = Fixture::new();
    let mut project = fixture.project();
    project.files.insert(text("config/base.toml"), text("edited"));
    let report = doctor(&fixture.inputs(), &project);
    assert!(!report.healthy);
    let error = plan_diff(&fixture.inputs(), &project, &fixture.target(&project))
        .expect_err("preflight");
    match error {
        ManagerError::Preflight(findings) => assert_eq!(findings, report.diagnostics),
        other => panic!("unexpected {}", other.message()),
    }
    project.state_error = Some(text("broken"));
    let report = doctor(&fixture.inputs(), &project);
    assert_eq!(report.diagnostics.len(), 1);
    assert_eq!(report.diagnostics[0].code, "state-invalid");
}

#[test]
fn the_former_barrel_is_migrated() {
    let fixture = Fixture::new();
    let mut project = fixture.project();
    project.files.insert(text(REACT_INDEX_PATH), text(LEGACY_APPLICATION_REACT_INDEX));
    for record in &mut project.state.ownership {
        if record.path == REACT_INDEX_PATH {
            record.kind = OwnershipKind::ApplicationOwned;
            record.approved_sha256 = None;
        }
    }
    let codes = |project: &ProjectSnapshot| {
        let report = doctor(&fixture.inputs(), project);
        report.diagnostics.iter().map(|finding| finding.code.clone()).collect::<Vec<_>>()
    };
    assert_eq!(codes(&project), list(&["derived-ownership-invalid"]));
    project.state.framework =
        ReleaseIdentity::new("0.0.9", CANONICAL_REPOSITORY, REVISION).expect("identity");
    assert_eq!(codes(&project), list(&["release-mismatch"]));
    let target = fixture.target(&project);
    let diff = plan_diff(&fixture.inputs(), &project, &target).expect("change");
    assert!(matches!(diff, PlannedChange::Unchanged(_)));
    let change = plan(&fixture.inputs(), &project, &target, PlanAction::Upgrade, None)
        .expect("change");
    let (plan, state) = fixture.plan(&project, change);
    assert!(plan.operations.iter().any(|operation| operation.path() == REACT_INDEX_PATH));
    assert_eq!(state.ownership_of(REACT_INDEX_PATH), Some(OwnershipKind::Derived));
}

#[test]
fn the_order_of_files_does_not_matter() {
    let fixture = Fixture::new();
    let mut project = fixture.project();
    project.files.insert(
        text("other.toml"),
        format!("# omnius:managed-begin id=other version=1 hash={}\n# omnius:managed-end id=other\n", sha256_hex(b"")),
    );
    let mut reversed = fixture.project();
    reversed.files = FileMap::new();
    for index in (0..project.files.len()).rev() {
        let file = project.files.at(index);
        reversed.files.insert(file.path.clone(), file.contents.clone());
    }
    let report = doctor(&fixture.inputs(), &project);
    assert!(!report.healthy);
    assert_eq!(doctor(&fixture.inputs(), &reversed).diagnostics, report.diagnostics);
    let failure = |project: &ProjectSnapshot| {
        plan_diff(&fixture.inputs(), project, &fixture.target(project))
            .expect_err("untracked region")
            .message()
    };
    assert_eq!(failure(&project), failure(&reversed));
}

fn resolution(lockfile: &[u8]) -> CargoResolverResult {
    let metadata = RawMetadata {
        packages: vec![RawPackage {
            id: text("app"),
            name: text("example-service"),
            version: text("0.1.0"),
            source: None,
            manifest_path: None,
        }],
        workspace_members: list(&["app"]),
        resolve: Some(RawResolve {
            nodes: vec![RawNode { id: text("app"), deps: vec![], features: vec![] }],
        }),
        workspace_root: None,
    };
    let graph = CargoGraph::from_raw(&metadata).expect("graph");
    CargoResolverResult::from_parts(lockfile.to_vec(), None, graph, None)
}

#[test]
fn a_plan_without_steps_is_sealed_without_a_resolution() {
    let fixture = Fixture::new();
    let project = fixture.project();
    let target = fixture.target(&project);
    let change = plan_add(&fixture.inputs(), &project, &target, "http").expect("change");
    let (plan, _) = fixture.plan(&project, change);
    assert!(plan.is_empty());
    let SealCourse::Unchanged(sealed) =
        begin_seal(plan, &Sorted::new(), SealKind::Change).expect("sealed")
    else {
        panic!("a plan without steps is not staged");
    };
    assert!(sealed.is_empty());
    assert!(sealed.resolution().is_none());
    assert_eq!(apply_outcome(&sealed).changed_files, 0);
    let lost = finish_upgrade_plan(
        "0.2.0",
        vec![PlanOperation::RemoveFile { path: text("a"), expected_hash: sha256_hex(b"") }],
        vec![],
    );
    assert_eq!(
        begin_seal(lost, &Sorted::new(), SealKind::Update).expect_err("no state").message(),
        "nonempty project update must commit schema-2 state last"
    );
}

#[test]
fn a_diff_fails_for_findings_beside_a_release_mismatch() {
    let fixture = Fixture::new();
    let mut project = fixture.project();
    project.state.framework =
        ReleaseIdentity::new("0.0.9", CANONICAL_REPOSITORY, REVISION).expect("identity");
    let target = fixture.target(&project);
    let change = plan_diff(&fixture.inputs(), &project, &target).expect("only the release");
    let PlannedChange::Unchanged(plan) = change else {
        panic!("another release is left as it is");
    };
    assert_eq!((plan.action, plan.operations.len()), (PlanAction::Diff, 0));
    project.lockfile = None;
    let codes = |project: &ProjectSnapshot| {
        let report = doctor(&fixture.inputs(), project);
        report.diagnostics.iter().map(|finding| finding.code.clone()).collect::<Vec<_>>()
    };
    assert_eq!(codes(&project), list(&["owned-file-missing", "release-mismatch"]));
    let error = plan_diff(&fixture.inputs(), &project, &target).expect_err("lockfile");
    let ManagerError::Preflight(findings) = error else {
        panic!("a finding stands in the way");
    };
    assert_eq!(findings.len(), 1);
    assert_eq!(findings[0].code, "owned-file-missing");
}

#[test]
fn sealing_puts_the_lockfile_before_the_state() {
    let fixture = Fixture::new();
    let project = fixture.project();
    let change = plan_add(&fixture.inputs(), &project, &fixture.target(&project), "postgres")
        .expect("change");
    let (plan, _) = fixture.plan(&project, change);
    let current = sealed_lockfile(&project, SealKind::Change).expect("lockfile").clone();
    let inputs = Sorted::new();
    let SealCourse::Staged(staged) =
        begin_seal(plan, &inputs, SealKind::Change).expect("staged")
    else {
        panic!("a plan with steps is staged");
    };
    assert!(matches!(staged.state_operation, PlanOperation::WriteState { .. }));
    let sealed = finish_seal(staged, &current, &inputs, resolution(b"version = 4\n# new\n"));
    let operations = &sealed.plan().operations;
    let count = operations.len();
    assert!(matches!(operations[count - 2], PlanOperation::WriteResolvedLock { .. }));
    assert!(matches!(operations[count - 1], PlanOperation::WriteState { .. }));
    assert_eq!(operations[count - 2].path(), "Cargo.lock");
    for operation in operations {
        assert_eq!(journal_operation(operation).expect("operation").path(), operation.path());
    }
    assert!(!sealed.is_empty());
    assert_eq!(
        sealed.resolution().expect("resolution").lockfile().as_slice(),
        b"version = 4\n# new\n"
    );
    let sealed = sealed.identified(b"abc");
    assert_eq!(sealed.plan().plan_id, sha256_hex(b"abc"));
    assert!(sealed.resolution().is_some());
    assert_eq!(apply_outcome(&sealed).changed_files, count);
    let mut bare = fixture.project();
    bare.lockfile = None;
    assert!(sealed_lockfile(&bare, SealKind::Change).is_err());
    let upgrade = finish_upgrade_plan("0.2.0", vec![], list(&["b", "a", "b"]));
    assert_eq!(upgrade.action, PlanAction::Upgrade);
    assert_eq!(upgrade.target_version.as_deref(), Some("0.2.0"));
}

#[test]
fn compose_services_follow_the_selection() {
    let catalog = base_catalog();
    let selected = set(&["config", "postgres", "migrations"]);
    let parts = compose_parts(&catalog, &selected, &vec![]).expect("parts");
    assert!(parts.contains(&Fragment::Quoted(text("postgres://postgres/omnius"))));
    assert_eq!(
        render_compose(&catalog, &selected, &vec![]).expect("compose"),
        COMPOSE.replace("DIGEST", &"a".repeat(64))
    );
    assert_eq!(
        render_compose(&catalog, &set(&["config"]), &list(&["postgres-data"])).expect("compose"),
        RETAINED_COMPOSE
    );
    let without_owner =
        render_compose(&catalog, &set(&["config", "postgres"]), &vec![]).expect("compose");
    assert!(!without_owner.contains("RUN_ON_STARTUP"));
    assert!(!without_owner.contains("migrate:"));
}

#[test]
fn external_dependencies_are_interpolated() {
    let mut catalog = base_catalog();
    let module = catalog.modules.iter_mut().find(|module| module.id == "http").expect("module");
    module.runtime_dependencies.push(RuntimeDependencyId::RedisOrValkey);
    let selected = set(&["config", "http", "runtime"]);
    let rendered = render_compose(&catalog, &selected, &vec![]).expect("compose");
    assert!(rendered.contains(
        "      OMNIUS__REDIS__URL: \"${OMNIUS__REDIS__URL:?supply the Redis endpoint}\"\n"
    ));
    assert!(!rendered.contains("depends_on:"));
    for descriptor in &mut catalog.runtime_dependencies {
        if let RuntimeDependencyDescriptor::External { id, bindings } = descriptor {
            if *id == RuntimeDependencyId::RedisOrValkey {
                bindings[0].message = text("\"\\/\u{8}\t\n\u{c}\r\u{0}\u{1f}\u{7f}\u{e9}");
            }
        }
    }
    let escaped = render_compose(&catalog, &selected, &vec![]).expect("compose");
    assert!(escaped.contains(
        "\"${OMNIUS__REDIS__URL:?\\\"\\\\/\\b\\t\\n\\f\\r\\u0000\\u001f\u{7f}\u{e9}}\"\n"
    ));
    assert_eq!(
        render_selected_module_catalog(&catalog, &set(&["config", "http", "postgres", "runtime"]))
            .expect("catalog"),
        "# Selected service modules\n\n| Module | Version | Provider slot |\n|---|---:|---|\n| `config` | `0.1.0` | - |\n| `http` | `0.1.0` | - |\n| `postgres` | `0.1.0` | database |\n| `runtime` | `0.1.0` | - |\n\n## Runtime dependencies\n\n| Dependency | Resolution | Required environment |\n|---|---|---|\n| `postgresql` | Compose service `postgres` | development-only bindings managed in `ops/compose.yaml` |\n| `redis-or-valkey` | External (no generated container) | `OMNIUS__REDIS__URL` |\n"
    );
}

#[test]
fn the_reference_configuration_is_a_document() {
    let catalog = base_catalog();
    let selected = set(&["config", "telemetry", "postgres", "migrations"]);
    assert_eq!(
        render_reference_config(&catalog, &selected, "demo").expect("TOML"),
        "# Generated safe runtime configuration. Secrets are supplied through the process environment.\n[migrations]\nrun_on_startup = false\n\n[postgres]\n\n[telemetry]\nservice = \"demo\"\n"
    );
    assert!(render_reference_config(&catalog, &set(&["absent"]), "demo").is_err());
}

#[test]
fn derived_files_have_renderers() {
    let catalog = base_catalog();
    let selected = set(&["config", "web-static"]);
    assert_eq!(
        render_managed_dockerfile(IMAGE, "demo", &selected).expect("image"),
        "FROM scratch\nLABEL name=demo\nCOPY web /web\n"
    );
    assert!(render_managed_dockerfile("{{ missing }}", "demo", &selected)
        .expect_err("undefined")
        .message()
        .contains("base service template failed: "));
    assert!(render_managed_derived("absent", &catalog, &set(&[]), "demo", &vec![], IMAGE).is_err());
    assert!(render_region(&catalog, "absent", &set(&[]), &release()).is_err());
    assert_eq!(
        render_region(&catalog, "modules", &set(&["http", "config", "runtime"]), &release())
            .expect("region"),
        "    \"config\",\n    \"runtime\",\n    \"http\",\n"
    );
}

#[test]
fn reconciliation_keeps_the_surroundings() {
    let source = format!(
        "before\n  <!-- omnius:managed-begin id=x version=1 hash={} -->\na\n  <!-- omnius:managed-end id=x -->\nafter",
        sha256_hex(b"a\n")
    );
    let record = |hash: String| ManagedRegionRecord {
        id: text("x"),
        path: text("p"),
        marker_version: 1,
        content_hash: hash,
    };
    let approved = record(sha256_hex(b"a\n"));
    let next = reconcile_managed_region(&source, &approved, "b\n").expect("reconciled");
    assert_eq!(
        next,
        format!(
            "before\n  <!-- omnius:managed-begin id=x version=1 hash={} -->\nb\n  <!-- omnius:managed-end id=x -->\nafter",
            sha256_hex(b"b\n")
        )
    );
    assert_eq!(reconcile_managed_region(&source, &approved, "a\n").expect("same"), source);
    let back = reconcile_managed_region(&next, &record(sha256_hex(b"b\n")), "a\n").expect("back");
    assert_eq!(back, source);
    assert!(reconcile_managed_region(&source, &record(sha256_hex(b"")), "b\n").is_err());
    assert!(reconcile_managed_region(&source, &approved, "no line break").is_err());
    let edited = source.replace("\na\n", "\nc\n");
    assert!(parse_managed_regions(&edited)
        .expect_err("edited")
        .message()
        .contains("content was edited outside the generator"));
}

#[test]
fn profiles_extend_one_another() {
    let catalog = base_catalog();
    let profiles = profiles(&catalog);
    let data = profiles.resolve("data", &catalog).expect("profile");
    assert_eq!(
        data.modules(),
        &list(&["config", "runtime", "http", "web-react", "telemetry", "postgres"])
    );
    assert_eq!(
        data.providers(),
        &vec![ProviderSelection { slot: text("database"), module: text("postgres") }]
    );
    assert_eq!(data.external_services(), &list(&["postgresql"]));
    assert_eq!(data.definition(), &profile("data", Some("minimal"), &["postgres"]));
    assert!(profiles.profiles().contains(data.definition()));
    let above = profiles.resolve("minimal", &catalog).expect("parent");
    assert_eq!(above.modules(), &above.definition().modules);
    assert_eq!(*data.modules(), [above.modules().clone(), data.definition().modules.clone()].concat());
    assert!(matches!(
        profiles.resolve("absent", &catalog),
        Err(ProfileError::UnknownProfile(_))
    ));
    assert!(matches!(profiles.resolve("Data", &catalog), Err(ProfileError::InvalidName)));
    let cyclic = BaseProfiles {
        schema_version: 1,
        bundle_version: text("0.1.0"),
        profiles: vec![
            profile("a", Some("b"), &["config"]),
            profile("b", Some("a"), &["config"]),
        ],
    };
    assert!(matches!(
        ProfileCatalog::decode(cyclic, &catalog, Some(2)),
        Err(ProfileError::InvalidCatalog(_))
    ));
    let few = BaseProfiles {
        schema_version: 1,
        bundle_version: text("0.1.0"),
        profiles: vec![minimal()],
    };
    assert!(ProfileCatalog::from_base(few, &catalog).is_err());
}

#[test]
fn application_templates_match_the_catalog() {
    let catalog = base_catalog();
    let templates = application_templates();
    assert_eq!(validate_application_template_catalog(&templates, &catalog), Ok(()));
    assert!(validate_application_template_catalog(&vec![], &catalog).is_err());
    assert!(application_template(&templates, "migrations", &templates[0].path).is_some());
    assert!(application_template(&templates, "postgres", &templates[0].path).is_none());
    assert!(validate_application_template_path("../x.rs").is_err());
    assert!(validate_application_template_path("apps/x.SQL").is_err());
    assert!(validate_application_template_path("migrations/x.rs").is_err());
}

#[test]
fn services_are_named_like_packages() {
    assert!(validate_service_name("a1-b").is_ok());
    for name in ["", "-a", "a-", "A", "1a", "a_b"] {
        assert!(matches!(validate_service_name(name), Err(RenderError::InvalidServiceName)));
    }
    assert!(validate_service_name(&"a".repeat(64)).is_ok());
    assert!(validate_service_name(&"a".repeat(65)).is_err());
    let other = ReleaseIdentity::new("0.2.0", CANONICAL_REPOSITORY, REVISION).expect("identity");
    assert!(check_catalog_version(&base_catalog(), &other).is_err());
    assert!(check_catalog_version(&base_catalog(), &release()).is_ok());
}

#[test]
fn a_healthy_project_has_nothing_to_reconcile() {
    let fixture = Fixture::new();
    let project = fixture.project();
    let target = fixture.target(&project);
    assert!(doctor(&fixture.inputs(), &project).healthy);
    match plan_diff(&fixture.inputs(), &project, &target).expect("change") {
        PlannedChange::Draft(draft) => {
            assert!(draft.operations.is_empty());
            assert!(draft.added_modules.is_empty() && draft.removed_modules.is_empty());
        }
        PlannedChange::Unchanged(plan) => assert!(plan.is_empty()),
    }
}

#[test]
fn reconciling_twice_changes_nothing() {
    let empty = sha256_hex(b"");
    let source = format!("# omnius:managed-begin  version=1 id=x hash={empty}\n# omnius:managed-end id=x\n");
    let record = |hash: String| ManagedRegionRecord {
        id: text("x"),
        path: text("p"),
        marker_version: 1,
        content_hash: hash,
    };
    let once = reconcile_managed_region(&source, &record(empty), "a\n").expect("once");
    let regions = parse_managed_regions(&once).expect("regions");
    assert_eq!(regions[0].content, "a\n");
    assert_eq!(regions[0].content_hash, sha256_hex(b"a\n"));
    let twice =
        reconcile_managed_region(&once, &record(sha256_hex(b"a\n")), "a\n").expect("twice");
    assert_eq!(twice, once);
}

#[test]
fn rendering_needs_matching_catalogs() {
    let fixture = Fixture::new();
    let resolved = fixture.profiles.resolve("minimal", &fixture.catalog).expect("profile");
    let request = ProfileRequest {
        service_name: "demo",
        profile: "minimal",
        modules: resolved.modules(),
        providers: resolved.providers(),
        runtime_dependencies: resolved.external_services(),
    };
    let other = ReleaseIdentity::new("0.2.0", CANONICAL_REPOSITORY, REVISION).expect("identity");
    let refused = begin_rendering(&fixture.inputs(), &base_templates(), &request, &other);
    assert_eq!(
        refused.expect_err("version").message(),
        "cannot canonicalize generated profile: release version `0.2.0` does not match bundled catalog version `0.1.0`"
    );
    let broken = vec![TemplateFile {
        path: text("x"),
        source: text("{{ missing }}"),
        ownership: TemplateOwnership::Kit,
    }];
    let refused = begin_rendering(&fixture.inputs(), &broken, &request, &release());
    assert!(matches!(refused, Err(RenderError::Template(_))));
    let files = render_application_files(
        &fixture.catalog,
        &fixture.templates,
        &list(&["config", "migrations"]),
    )
    .expect("files");
    assert_eq!(files.len(), 1);
    assert_eq!(files[0].contents, "pub struct First;\n");
}
