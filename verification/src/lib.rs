//! Deterministic service generation and catalog-driven module management.

pub mod application_templates;
pub mod applicator;
pub mod applicator_laws;
pub mod build_support;
pub mod cargo_difference;
pub mod cargo_framework;
pub mod cargo_graph;
pub mod cargo_metadata;
pub mod cargo_resolver;
pub mod cargo_service;
pub mod catalog;
pub mod catalog_extension;
pub mod catalog_laws;
pub mod clean_laws;
pub mod command_laws;
pub mod compose;
pub mod compose_laws;
pub mod configuration_checks;
pub mod dependency_checks;
pub mod derived;
pub mod diagnosis;
pub mod diff_laws;
pub mod digest;
pub mod doctor_laws;
pub mod extension_laws;
pub mod file_map;
pub mod file_plan_laws;
pub mod finding_laws;
pub mod findings;
pub mod graph_laws;
pub mod journal;
pub mod journal_laws;
pub mod lifecycle;
pub mod lifecycle_laws;
pub mod listing_laws;
pub mod management;
pub mod manifest_finding_laws;
pub mod metadata_laws;
pub mod module_catalog;
pub mod module_checks;
pub mod module_resolution;
pub mod modules;
pub mod new_project_laws;
pub mod ordered;
pub mod paths;
pub mod plan_derived;
pub mod plan_effect;
pub mod plan_files;
pub mod plan_laws;
pub mod plan_regions;
pub mod plan_selection;
pub mod plan_settled;
pub mod planning;
pub mod planning_laws;
pub mod profile_catalog_laws;
pub mod profile_laws;
pub mod provenance;
pub mod provenance_laws;
pub mod provenance_project;
pub mod recovery;
pub mod recovery_course;
pub mod reference_config;
pub mod reference_laws;
pub mod region;
pub mod region_laws;
pub mod release;
pub mod removal_laws;
pub mod render;
pub mod render_course;
pub mod render_profile;
pub mod rendering;
pub mod rendering_laws;
pub mod request_laws;
pub mod requirements;
pub mod resolver_laws;
pub mod restorer;
pub mod restorer_laws;
pub mod revision;
pub mod sealing;
pub mod selection;
pub mod selection_laws;
pub mod service_run;
pub mod snapshot;
pub mod sorting;
pub mod state;
pub mod template_laws;
pub mod templates;
pub mod text;
pub mod thin_service;
pub mod thin_service_laws;
pub mod toml_text;
pub mod transaction;
pub mod wildcard;
pub mod yaml_text;

pub use crate::cargo_difference::CargoGraphDifference;
pub use crate::cargo_graph::{
    CargoDependency, CargoDependencyKind, CargoGraph, CargoGraphEdge, CargoGraphError, CargoNode,
    CargoPackage,
};
pub use crate::cargo_resolver::{
    resolve_lockfile, CargoInvocation, CargoResolverError, CargoResolverMode, CargoResolverRequest,
    CargoResolverResult,
};
pub use crate::catalog::{
    resolve_profile, ProfileCatalog, ProfileDefinition, ProfileError, ProviderSelection,
    ResolvedProfile, KIT_VERSION,
};
pub use crate::diagnosis::doctor;
pub use crate::lifecycle::LifecycleError;
pub use crate::management::{
    ApplyOutcome, Diagnostic, DoctorReport, ManagementPlan, ManagerError, PlanAction,
    PlanOperation, ProjectSnapshot,
};
pub use crate::modules::{
    CatalogError, ComposeEnvironmentBinding, ComposeHealthcheck, ComposeMigration,
    ConfigurationField, ConfigurationValue, ConfigurationValueType, ExternalEnvironmentBinding,
    GeneratorOwnership, ModuleCatalog, ModuleConfiguration, ModuleDefinition,
    RuntimeDependencyDescriptor, RuntimeDependencyId,
};
pub use crate::plan_files::preserves_historical_path;
pub use crate::planning::{plan_add, plan_diff, plan_profile_set, plan_remove};
pub use crate::region::{
    parse_managed_regions, reconcile_managed_region, ManagedRegion, RegionError,
};
pub use crate::release::{
    ReleaseBuildStatus, ReleaseIdentity, ReleaseIdentityError, CANONICAL_REPOSITORY,
    GENERATOR_VERSION,
};
pub use crate::render::{RenderError, RenderOutcome};
pub use crate::requirements::{ApplicationRequirement, ApplicationRequirementProviderFamily};
pub use crate::sealing::SealedManagementPlan;
pub use crate::state::{
    ManagedRegionRecord, OwnershipKind, OwnershipRecord, ProfileSelection, ProjectState,
    SelectedModule, SelectedProvider, MANAGED_MARKER_VERSION, PROJECT_STATE_PATH,
    PROJECT_STATE_SCHEMA_VERSION,
};
