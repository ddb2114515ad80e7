use std::collections::BTreeSet;

use omnius_generator::catalog_extension::validate_base_wire_shape;
use omnius_generator::configuration_checks::{
    configuration_path_is_secret, hierarchical_environment_key, validate_configuration_path,
};
use omnius_generator::modules::{
    CatalogError, ComposeEnvironmentBinding, ComposeHealthcheck, ComposeMigration,
    CompositionCrate, ConfigurationField, ConfigurationValue, ConfigurationValueType,
    ExternalEnvironmentBinding, GeneratorOwnership, ModuleCatalog, ModuleCatalogExtension,
    ModuleComposition, ModuleConfiguration, ModuleDefinition, RuntimeDependencyDescriptor,
    RuntimeDependencyId,
};
use omnius_generator::ordered::{set_add, set_holds, Sorted, TextSet};
use omnius_generator::requirements::ApplicationRequirement;

/// Identifiers of every requirement that an application can have.
const REQUIREMENTS: [&str; 53] = [
    "admin.authority-resolver",
    "admin.operation-handler",
    "auth.authenticated-runtime",
    "auth.redis-session-runtime",
    "auth-oidc.runtime",
    "auth.oauth-runtime",
    "auth-webauthn.runtime",
    "auth-totp.runtime",
    "billing.provider",
    "feature-flags.exposure-recorder",
    "feature-flags.provider",
    "graphql.request-data-injector",
    "graphql.schema",
    "grpc.application-service",
    "grpc.authenticator",
    "grpc.method-policies",
    "inbox.consumers",
    "jobs.handlers",
    "llm.evaluation-repository",
    "llm.media-authorization",
    "llm.media-scanner",
    "llm.tool-audit",
    "llm.tool-authorization",
    "mcp.apps-ports",
    "mcp.bearer-authenticator",
    "mcp.cancellation-runtime",
    "mcp.capability-executor",
    "mcp.capability-registry",
    "mcp.enterprise-ports",
    "mcp.subscription-authorizer",
    "mcp.subscription-delivery",
    "mcp.subscription-repository",
    "mcp.subscription-runtime",
    "mcp.task-payload-protector",
    "outbox.publisher",
    "privacy.authorizer",
    "privacy.consent-policy",
    "privacy.inventory-adapters",
    "privacy.inventory-manifest",
    "privacy.lifecycle-handler",
    "privacy.moderation-policy",
    "realtime.event-handler",
    "realtime.fanout-authorizer",
    "realtime.identity-revalidator",
    "scheduler.envelope-factory",
    "search.index-schema",
    "search.projection-resolver",
    "search.reauthorizer",
    "uploads.authorization",
    "uploads.workflow",
    "webhooks-inbound.handlers",
    "webhooks-inbound.provider-adapters",
    "webhooks-svix.replay-admission",
];

fn text(value: &str) -> String {
    value.to_owned()
}

fn list(values: &[&str]) -> Vec<String> {
    values.iter().map(|value| text(value)).collect()
}

fn set(values: &[&str]) -> TextSet {
    let mut result: TextSet = Sorted::new();
    for value in values {
        set_add(&mut result, value);
    }
    result
}

fn workspace() -> TextSet {
    set(&["omnius-config", "omnius-http", "omnius-telemetry"])
}

fn module(id: &str, prerequisites: &[&str]) -> ModuleDefinition {
    ModuleDefinition {
        id: text(id),
        title: text(id),
        version: text("0.1.0"),
        owner: text("kit"),
        spec_id: text("S-1"),
        kind: text("runtime"),
        prerequisites: list(prerequisites),
        conflicts_with: vec![],
        provider_slot: None,
        criticality: text("core"),
        runtime_toggle: false,
        runtime_dependencies: vec![],
        primary_crates: vec![],
        composition: ModuleComposition {
            crates: vec![],
            registrar: true,
            application_requirements: vec![],
        },
        acceptance: vec![],
        persistence: vec![],
        configuration: ModuleConfiguration {
            prefix: id.replace('-', "_"),
            schema: None,
            secret_fields: vec![],
            fields: vec![],
        },
        routes: vec![],
        background_tasks: vec![],
        health_checks: vec![],
        metrics_prefix: text("omnius"),
        test_fixtures: vec![],
        application_templates: vec![],
        generator_ownership: GeneratorOwnership {
            kit_owned: vec![],
            managed_regions: vec![],
            derived: vec![],
        },
        removal_behavior: text("remove"),
    }
}

fn field(path: &str, value: Option<&str>, environment: Option<&str>) -> ConfigurationField {
    ConfigurationField {
        path: text(path),
        value_type: ConfigurationValueType::String,
        required: true,
        reference_default: value.map(|value| ConfigurationValue::String(text(value))),
        environment: environment.map(text),
    }
}

fn binding(name: &str, value: &str, secret: bool) -> ComposeEnvironmentBinding {
    ComposeEnvironmentBinding {
        name: text(name),
        value: text(value),
        secret,
        development_only: true,
    }
}

fn postgres_descriptor() -> RuntimeDependencyDescriptor {
    RuntimeDependencyDescriptor::Compose {
        id: RuntimeDependencyId::Postgresql,
        service: text("postgres"),
        image: format!("postgres@sha256:{}", "a".repeat(64)),
        volume: text("postgres-data"),
        volume_mount: text("/var/lib/postgresql/data"),
        healthcheck: Box::new(ComposeHealthcheck {
            test: list(&["CMD", "pg_isready"]),
            interval: text("5s"),
            timeout: text("3s"),
            retries: 20,
        }),
        service_environment: vec![
            binding("POSTGRES_DB", "omnius", false),
            binding("POSTGRES_PASSWORD", "development", true),
            binding("POSTGRES_USER", "omnius", false),
        ],
        application_environment: vec![
            binding("OMNIUS__POSTGRES__URL", "postgres://postgres/omnius", true),
            binding("OMNIUS__MIGRATIONS__RUN_ON_STARTUP", "false", false),
        ],
        migration: Some(ComposeMigration {
            required_module: text("migrations"),
            command: list(&["migrate"]),
        }),
    }
}

fn redis_descriptor(message: &str) -> RuntimeDependencyDescriptor {
    RuntimeDependencyDescriptor::External {
        id: RuntimeDependencyId::RedisOrValkey,
        bindings: vec![ExternalEnvironmentBinding {
            name: text("OMNIUS__REDIS__URL"),
            message: text(message),
            credential: true,
        }],
    }
}

fn external_descriptor(id: RuntimeDependencyId, name: &str) -> RuntimeDependencyDescriptor {
    RuntimeDependencyDescriptor::External {
        id,
        bindings: vec![ExternalEnvironmentBinding {
            name: text(name),
            message: text("supply the endpoint"),
            credential: true,
        }],
    }
}

fn descriptors() -> Vec<RuntimeDependencyDescriptor> {
    vec![
        postgres_descriptor(),
        redis_descriptor("supply the Redis endpoint"),
        external_descriptor(RuntimeDependencyId::OidcProvider, "OMNIUS__OIDC__ISSUER"),
        external_descriptor(RuntimeDependencyId::NatsJetstream, "OMNIUS__NATS__URL"),
        external_descriptor(RuntimeDependencyId::ObjectStore, "OMNIUS__OBJECTS__URL"),
        external_descriptor(RuntimeDependencyId::SmtpOrEmailProvider, "OMNIUS__EMAIL__URL"),
        external_descriptor(RuntimeDependencyId::Svix, "OMNIUS__SVIX__URL"),
        external_descriptor(RuntimeDependencyId::FlagProvider, "OMNIUS__FLAGS__URL"),
        external_descriptor(RuntimeDependencyId::Meilisearch, "OMNIUS__MEILISEARCH__URL"),
        external_descriptor(RuntimeDependencyId::ConfiguredLlmProviderApis, "OMNIUS__LLM__URL"),
        external_descriptor(RuntimeDependencyId::AwsBedrockRuntime, "OMNIUS__BEDROCK__KEY"),
        external_descriptor(RuntimeDependencyId::GoogleVertexAi, "OMNIUS__VERTEX__KEY"),
    ]
}

fn base_catalog() -> ModuleCatalog {
    let mut config = module("config", &[]);
    config.composition.crates.push(CompositionCrate {
        dependency: text("omnius-config"),
        features: vec![],
    });
    let mut telemetry = module("telemetry", &["config"]);
    telemetry.configuration.fields.push(field(
        "telemetry.service",
        Some("{{service-name}}"),
        None,
    ));
    let mut postgres = module("postgres", &["config"]);
    postgres.runtime_dependencies.push(RuntimeDependencyId::Postgresql);
    postgres.provider_slot = Some(text("database"));
    postgres.configuration.secret_fields.push(text("postgres.url"));
    postgres.configuration.fields.push(field("postgres.url", None, Some("OMNIUS__POSTGRES__URL")));
    let mut migrations = module("migrations", &["postgres"]);
    migrations.runtime_dependencies.push(RuntimeDependencyId::Postgresql);
    migrations.configuration.fields.push(ConfigurationField {
        path: text("migrations.run_on_startup"),
        value_type: ConfigurationValueType::Boolean,
        required: true,
        reference_default: Some(ConfigurationValue::Boolean(false)),
        environment: None,
    });
    let mut admin = module("admin", &["http"]);
    admin.composition.application_requirements = REQUIREMENTS
        .iter()
        .map(|id| ApplicationRequirement::parse(id).expect("requirement"))
        .collect();
    ModuleCatalog {
        schema_version: 1,
        bundle_version: text("0.1.0"),
        runtime_dependencies: descriptors(),
        modules: vec![
            module("health", &["runtime", "http"]),
            config,
            module("runtime", &["config"]),
            module("http", &["runtime"]),
            telemetry,
            postgres,
            migrations,
            admin,
        ],
    }
}

fn extension(
    version: &str,
    web: Option<&str>,
    modules: Vec<ModuleDefinition>,
) -> ModuleCatalogExtension {
    ModuleCatalogExtension {
        schema_version: text("1.0.0"),
        extension_version: text(version),
        base_bundle_version: text("0.1.0"),
        web_extension_version: web.map(text),
        runtime_dependencies: vec![],
        modules,
    }
}

fn base_with_web() -> Result<(ModuleCatalog, String), CatalogError> {
    let mut catalog = base_catalog();
    let web = extension("0.1.0", None, vec![module("web-react", &["http"])]);
    let version = catalog.append_extension("web", web, None)?;
    Ok((catalog, version))
}

fn find<'a>(catalog: &'a mut ModuleCatalog, id: &str) -> &'a mut ModuleDefinition {
    catalog.modules.iter_mut().find(|module| module.id == id).expect("module")
}

fn error_of(catalog: &ModuleCatalog) -> String {
    text(catalog.validate(&workspace()).expect_err("invalid catalog").message())
}

#[test]
fn the_fixture_catalog_is_valid() {
    assert_eq!(base_catalog().validate(&workspace()), Ok(()));
}

#[test]
fn bundled_catalog_requirements_match_the_closed_runtime_set() {
    let catalog = base_catalog();
    let declared = catalog
        .modules
        .iter()
        .flat_map(|module| module.composition.application_requirements.iter().copied())
        .collect::<BTreeSet<_>>();
    let closed = ApplicationRequirement::all().into_iter().collect::<BTreeSet<_>>();
    assert_eq!(declared, closed);
}

#[test]
fn ai_extension_rejects_wrong_web_extension_version() -> Result<(), CatalogError> {
    let (mut catalog, web_version) = base_with_web()?;
    let incompatible = extension("0.1.0", Some("incompatible"), vec![]);
    let error = catalog
        .append_extension("AI", incompatible, Some(web_version.as_str()))
        .expect_err("incompatible extension");
    assert!(error.message().contains("requires web extension incompatible"));
    Ok(())
}

#[test]
fn composed_catalog_rejects_duplicate_ai_module_ids() -> Result<(), CatalogError> {
    let (mut catalog, web_version) = base_with_web()?;
    let duplicate = extension(
        "0.1.0",
        Some(web_version.as_str()),
        vec![module("agent-capability-registry", &[]), module("agent-capability-registry", &[])],
    );
    catalog.append_extension("AI", duplicate, Some(web_version.as_str()))?;
    assert!(error_of(&catalog).contains("duplicate module id `agent-capability-registry`"));
    Ok(())
}

#[test]
fn composition_rejects_unknown_workspace_dependency() {
    let mut catalog = base_catalog();
    find(&mut catalog, "runtime").composition.crates.push(CompositionCrate {
        dependency: text("omnius-missing"),
        features: vec![],
    });
    assert!(error_of(&catalog).contains("unknown workspace dependency"));
}

#[test]
fn composition_rejects_unknown_application_requirement() {
    let error = ApplicationRequirement::parse("admin.unknown-authority-resolver")
        .expect_err("unknown requirement");
    assert!(error
        .message()
        .contains("unknown application requirement `admin.unknown-authority-resolver`"));
}

#[test]
fn composition_rejects_duplicate_crates_features_and_requirements() {
    let mut duplicate_crate = base_catalog();
    find(&mut duplicate_crate, "config").composition.crates.push(CompositionCrate {
        dependency: text("omnius-config"),
        features: vec![],
    });
    assert!(error_of(&duplicate_crate).contains("duplicate composition dependency"));

    let mut duplicate_feature = base_catalog();
    find(&mut duplicate_feature, "config").composition.crates[0].features =
        list(&["testing", "testing"]);
    assert!(error_of(&duplicate_feature).contains("composition.crates.features"));

    let mut duplicate_requirement = base_catalog();
    let requirements =
        &mut find(&mut duplicate_requirement, "admin").composition.application_requirements;
    let first = requirements[0];
    requirements.push(first);
    assert!(error_of(&duplicate_requirement).contains("composition.application_requirements"));
}

#[test]
fn composition_rejects_unowned_runtime_contract() {
    let mut catalog = base_catalog();
    let telemetry = find(&mut catalog, "telemetry");
    telemetry.composition.registrar = false;
    telemetry.health_checks.push(text("telemetry"));
    assert!(error_of(&catalog).contains("without a registrar or application requirement"));
}

#[test]
fn configuration_rejects_wrong_types_secret_defaults_and_missing_sources() {
    let mut wrong_type = base_catalog();
    find(&mut wrong_type, "telemetry").configuration.fields[0].value_type =
        ConfigurationValueType::Boolean;
    assert!(error_of(&wrong_type).contains("does not match declared type"));

    let mut secret_default = base_catalog();
    find(&mut secret_default, "telemetry")
        .configuration
        .secret_fields
        .push(text("telemetry.service"));
    assert!(error_of(&secret_default).contains("cannot have a reference default"));

    let mut missing_source = base_catalog();
    find(&mut missing_source, "telemetry").configuration.fields[0].reference_default = None;
    assert!(error_of(&missing_source)
        .contains("needs a reference default or environment binding"));
}

#[test]
fn configuration_rejects_inexact_environment_keys_and_selected_conflicts() {
    let mut inexact = base_catalog();
    find(&mut inexact, "postgres").configuration.fields[0].environment =
        Some(text("OMNIUS_POSTGRES_URL"));
    assert!(error_of(&inexact)
        .contains("must bind exact environment key `OMNIUS__POSTGRES__URL`"));

    let mut conflict = base_catalog();
    find(&mut conflict, "config").configuration.fields.push(field(
        "telemetry.service",
        Some("other-service"),
        None,
    ));
    assert_eq!(conflict.validate(&workspace()), Ok(()));
    let error = conflict.resolve_add(&set(&[]), "telemetry").expect_err("conflict");
    assert!(error.message().contains("conflicting configuration"));
}

#[test]
fn configuration_secret_paths_accept_canonical_array_suffixes() {
    let array_path = "webhooks_inbound.fixture_hmac_providers[].secrets[]";
    assert!(validate_configuration_path(array_path, true).is_ok());
    assert!(validate_configuration_path(array_path, false).is_err());
    assert!(configuration_path_is_secret(
        "webhooks_inbound.fixture_hmac_providers.secrets",
        &vec![text(array_path)]
    ));
    assert!(validate_configuration_path("table.entries[][]", true).is_err());
}

#[test]
fn runtime_dependencies_reject_unknown_ids_and_invalid_compose_contracts() {
    let unknown = RuntimeDependencyId::parse("unknown-topology").expect_err("unknown id");
    assert!(unknown.message().contains("unknown variant"));

    let mut invalid_name = base_catalog();
    match &mut invalid_name.runtime_dependencies[0] {
        RuntimeDependencyDescriptor::Compose { service, .. } => {
            *service = text("Invalid_Service");
        }
        _ => panic!("PostgreSQL descriptor is not Compose"),
    }
    assert!(error_of(&invalid_name).contains("invalid Compose service or volume name"));

    let mut secret_default = base_catalog();
    match &mut secret_default.runtime_dependencies[0] {
        RuntimeDependencyDescriptor::Compose { service_environment, .. } => {
            service_environment
                .iter_mut()
                .find(|binding| binding.name == "POSTGRES_PASSWORD")
                .expect("password binding")
                .development_only = false;
        }
        _ => panic!("PostgreSQL descriptor is not Compose"),
    }
    assert!(error_of(&secret_default).contains("must be explicitly development-only"));

    let mut migration_owner = base_catalog();
    match &mut migration_owner.runtime_dependencies[0] {
        RuntimeDependencyDescriptor::Compose { migration: Some(migration), .. } => {
            migration.required_module = text("runtime");
        }
        _ => panic!("PostgreSQL migration owner is missing"),
    }
    assert!(error_of(&migration_owner).contains("must require the `migrations` module"));
}

#[test]
fn extension_rejects_conflicting_inherited_runtime_descriptor() {
    let mut catalog = base_catalog();
    let mut conflicting = extension("0.1.0", None, vec![module("web-react", &["http"])]);
    conflicting.runtime_dependencies.push(redis_descriptor("use a conflicting Redis endpoint"));
    let error = catalog.append_extension("web", conflicting, None).expect_err("conflict");
    assert!(error
        .message()
        .contains("conflicting inherited runtime dependency `redis-or-valkey`"));
}

#[test]
fn composition_order_is_prerequisite_first() -> Result<(), CatalogError> {
    let catalog = base_catalog();
    let selected = catalog.resolve_add(&set(&[]), "health")?;
    let ordered = catalog.composition_order(&selected)?;
    let ids = ordered.iter().map(|module| module.id.as_str()).collect::<Vec<_>>();
    let health = ids.iter().position(|id| *id == "health").expect("health");
    for required in ["runtime", "http"] {
        let position = ids.iter().position(|id| *id == required).expect("prerequisite");
        assert!(position < health);
    }
    Ok(())
}

#[test]
fn adding_and_removing_a_module_are_inverse_on_a_leaf() -> Result<(), CatalogError> {
    let catalog = base_catalog();
    let selected = catalog.resolve_add(&set(&[]), "http")?;
    assert!(set_holds(&selected, "config"));
    let more = catalog.resolve_add(&selected, "telemetry")?;
    let less = catalog.resolve_remove(&more, "telemetry")?;
    assert_eq!(less, selected);
    assert_eq!(catalog.resolve_remove(&less, "telemetry")?, less);
    assert!(catalog.resolve_remove(&selected, "absent").is_err());
    let error = catalog.resolve_remove(&selected, "config").expect_err("needed");
    assert!(error.message().contains("config"));
    Ok(())
}

#[test]
fn an_extension_appends_its_modules_in_order() -> Result<(), CatalogError> {
    let mut catalog = base_catalog();
    let count = catalog.modules.len();
    let version = catalog.append_extension(
        "web",
        extension("2.0.0", None, vec![module("b", &[]), module("a", &[])]),
        None,
    )?;
    assert_eq!(version, "2.0.0");
    let ids = catalog.modules[count..].iter().map(|module| module.id.as_str()).collect::<Vec<_>>();
    assert_eq!(ids, ["a", "b"]);
    Ok(())
}

#[test]
fn environment_keys_follow_their_paths() {
    assert_eq!(hierarchical_environment_key("postgres.url"), "OMNIUS__POSTGRES__URL");
}

#[test]
fn base_documents_must_have_the_wire_shape() {
    let good = "modules:\n- id: config\n  provider_slot: null\n  generator_ownership:\n    managed_regions:\n    - Cargo.toml#framework-dependency\n";
    assert_eq!(validate_base_wire_shape(good), Ok(()));
    let message = |source: &str| {
        text(validate_base_wire_shape(source).expect_err("invalid shape").message())
    };
    assert_eq!(message("- a\n"), "base module catalog root must be a mapping");
    assert_eq!(message("modules: 1\n"), "base module catalog modules must be a sequence");
    assert_eq!(message("modules: [1]\n"), "base module catalog module must be a mapping");
    assert_eq!(
        message("modules:\n- id: a\n"),
        "base module catalog entries must explicitly declare provider_slot"
    );
    assert_eq!(
        message("modules:\n- provider_slot: x\n"),
        "module managed_regions must be a sequence"
    );
    assert_eq!(
        message(&good.replace("Cargo.toml#framework-dependency", "no-reference")),
        "invalid managed region declaration `no-reference`"
    );
    assert!(message("a: [\n").starts_with("invalid base module catalog: "));
}
