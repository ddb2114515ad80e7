//! Module catalogs: the descriptors of selectable modules, and their lookup.

use vstd::prelude::*;
use vstd::string::*;

use crate::requirements::ApplicationRequirement;
use crate::text::{
    join3, optional_view, same_optional_text, same_text, same_texts, texts,
};

verus! {

/// Version of the catalog's form.
pub const MODULE_CATALOG_SCHEMA_VERSION: u32 = 1;

/// Version of the form of catalog extensions.
pub const EXTENSION_SCHEMA_VERSION: &'static str = "1.0.0";

/// Deterministic module selection or catalog validation failure.
#[derive(Debug, PartialEq, Eq)]
pub struct CatalogError {
    message: String,
}

impl CatalogError {
    /// The diagnostic text.
    pub closed spec fn text(self) -> Seq<char> {
        self.message@
    }

    /// Creates an error with a diagnostic text.
    pub fn new(message: String) -> (error: Self)
        ensures
            error.text() == message@,
    {
        CatalogError { message }
    }

    /// Returns the diagnostic text.
    pub fn message(&self) -> (text: &str)
        ensures
            text@ == self.text(),
    {
        self.message.as_str()
    }
}

/// What a fallible catalog check finds.
pub open spec fn outcome<T>(result: Result<T, CatalogError>) -> Option<Seq<char>> {
    match result {
        Ok(_) => None,
        Err(error) => Some(error.text()),
    }
}

/// Authoritative module catalog used by pure selection planning.
#[derive(Debug, PartialEq, Eq)]
pub struct ModuleCatalog {
    /// Catalog serialization version.
    pub schema_version: u32,
    /// Version shared by module descriptors.
    pub bundle_version: String,
    /// Module descriptors in authoritative catalog order.
    pub modules: Vec<ModuleDefinition>,
    /// Closed runtime dependency descriptors referenced by module IDs.
    pub runtime_dependencies: Vec<RuntimeDependencyDescriptor>,
}

/// An extension of a module catalog.
#[derive(Debug, PartialEq, Eq)]
pub struct ModuleCatalogExtension {
    /// Extension serialization version.
    pub schema_version: String,
    /// Version of the extension.
    pub extension_version: String,
    /// Version of the catalog that is extended.
    pub base_bundle_version: String,
    /// Version of the web extension that is relied on.
    pub web_extension_version: Option<String>,
    /// Further runtime dependency descriptors.
    pub runtime_dependencies: Vec<RuntimeDependencyDescriptor>,
    /// Further module descriptors.
    pub modules: Vec<ModuleDefinition>,
}

/// Generator-relevant module descriptor plus validated catalog metadata.
#[derive(Debug, PartialEq, Eq)]
pub struct ModuleDefinition {
    /// Stable module identifier.
    pub id: String,
    /// Human-readable title.
    pub title: String,
    /// Module version.
    pub version: String,
    /// Owning kit component.
    pub owner: String,
    /// Normative document identifier.
    pub spec_id: String,
    /// Module kind.
    pub kind: String,
    /// Direct module prerequisites.
    pub prerequisites: Vec<String>,
    /// Explicitly incompatible module identifiers.
    pub conflicts_with: Vec<String>,
    /// Mutually exclusive provider capability.
    pub provider_slot: Option<String>,
    /// Runtime criticality classification.
    pub criticality: String,
    /// Whether runtime configuration may disable the compiled module.
    pub runtime_toggle: bool,
    /// Closed runtime dependencies required by this module.
    pub runtime_dependencies: Vec<RuntimeDependencyId>,
    /// Primary upstream crates.
    pub primary_crates: Vec<String>,
    /// Compile-time application composition owned by the generator.
    pub composition: ModuleComposition,
    /// Acceptance criterion identifiers.
    pub acceptance: Vec<String>,
    /// Durable resources that removal must preserve.
    pub persistence: Vec<String>,
    /// Configuration contract.
    pub configuration: ModuleConfiguration,
    /// Registered HTTP routes.
    pub routes: Vec<String>,
    /// Registered background tasks.
    pub background_tasks: Vec<String>,
    /// Registered health checks.
    pub health_checks: Vec<String>,
    /// Metrics prefix.
    pub metrics_prefix: String,
    /// Test fixtures.
    pub test_fixtures: Vec<String>,
    /// Files that the module gives the application to own.
    pub application_templates: Vec<String>,
    /// Generator-owned outputs.
    pub generator_ownership: GeneratorOwnership,
    /// Human-readable safe removal behavior.
    pub removal_behavior: String,
}

/// Static composition metadata for one selectable module.
#[derive(Debug, PartialEq, Eq)]
pub struct ModuleComposition {
    /// Workspace crates that the generated composition layer imports.
    pub crates: Vec<CompositionCrate>,
    /// Whether generated code calls a built-in static registrar.
    pub registrar: bool,
    /// Application-owned contributions required before assembly can succeed.
    pub application_requirements: Vec<ApplicationRequirement>,
}

/// One exact workspace dependency used by a generated registrar.
#[derive(Debug, PartialEq, Eq)]
pub struct CompositionCrate {
    /// Dependency key from the root workspace dependency table.
    pub dependency: String,
    /// Additive Cargo features enabled for this dependency.
    pub features: Vec<String>,
}

/// Configuration metadata retained from the catalog.
#[derive(Debug, PartialEq, Eq)]
pub struct ModuleConfiguration {
    /// Primary configuration namespace.
    pub prefix: String,
    /// Optional external schema path for application-owned configuration.
    pub schema: Option<String>,
    /// Secret-bearing configuration fields.
    pub secret_fields: Vec<String>,
    /// Closed field schema for framework-owned generated configuration.
    pub fields: Vec<ConfigurationField>,
}

/// One typed framework-owned configuration field.
#[derive(Debug, PartialEq, Eq)]
pub struct ConfigurationField {
    /// Fully qualified dotted configuration path.
    pub path: String,
    /// TOML value type accepted by the selected runtime schema.
    pub value_type: ConfigurationValueType,
    /// Whether deserialization requires this field.
    pub required: bool,
    /// Safe value written to `config/reference.toml`.
    pub reference_default: Option<ConfigurationValue>,
    /// Exact hierarchical environment key required at runtime.
    pub environment: Option<String>,
}

/// Supported generated TOML scalar and array types.
#[derive(Clone, Copy, Debug, PartialEq, Eq, Structural)]
pub enum ConfigurationValueType {
    /// UTF-8 TOML string.
    String,
    /// Signed TOML integer.
    Integer,
    /// TOML boolean.
    Boolean,
    /// TOML array containing only strings.
    StringArray,
    /// TOML array containing only integers.
    IntegerArray,
}

/// A typed, secret-free value eligible for the checked-in reference overlay.
#[derive(Debug, PartialEq, Eq)]
pub enum ConfigurationValue {
    /// UTF-8 TOML string.
    String(String),
    /// Signed TOML integer.
    Integer(i64),
    /// TOML boolean.
    Boolean(bool),
    /// TOML array containing only strings.
    StringArray(Vec<String>),
    /// TOML array containing only integers.
    IntegerArray(Vec<i64>),
}

/// Paths and regions the catalog permits the generator to change.
#[derive(Debug, PartialEq, Eq)]
pub struct GeneratorOwnership {
    /// Files replaceable only from a matching kit baseline.
    pub kit_owned: Vec<String>,
    /// `path#region-id` managed region references.
    pub managed_regions: Vec<String>,
    /// Files regenerated entirely from selected modules.
    pub derived: Vec<String>,
}

/// Closed identifiers for infrastructure required by generated runtimes.
#[derive(Clone, Copy, Debug, PartialEq, Eq, PartialOrd, Ord, Structural)]
pub enum RuntimeDependencyId {
    /// Repository-owned pinned PostgreSQL development topology.
    Postgresql,
    /// Redis or Valkey endpoint supplied by the application operator.
    RedisOrValkey,
    /// `OpenID Connect` provider endpoints and credentials.
    OidcProvider,
    /// NATS `JetStream` endpoint and credentials.
    NatsJetstream,
    /// Object storage endpoint and credentials.
    ObjectStore,
    /// SMTP or hosted email provider endpoint and credentials.
    SmtpOrEmailProvider,
    /// Svix webhook provider endpoint and credential.
    Svix,
    /// Feature flag provider endpoint and credential.
    FlagProvider,
    /// Meilisearch endpoint and credential.
    Meilisearch,
    /// Application-selected LLM provider endpoints and credentials.
    ConfiguredLlmProviderApis,
    /// AWS Bedrock Runtime credentials.
    AwsBedrockRuntime,
    /// Google Vertex AI endpoint and credentials.
    GoogleVertexAi,
}

/// One closed runtime dependency descriptor.
#[derive(Debug, PartialEq, Eq)]
pub enum RuntimeDependencyDescriptor {
    /// Repository-owned, pinned, health-checked local development service.
    Compose {
        /// Closed dependency identifier.
        id: RuntimeDependencyId,
        /// Stable Compose service name.
        service: String,
        /// Digest-pinned development image.
        image: String,
        /// Named volume retained after module removal.
        volume: String,
        /// Absolute container path where the named volume is mounted.
        volume_mount: String,
        /// Health contract gating application startup.
        healthcheck: Box<ComposeHealthcheck>,
        /// Environment supplied to the infrastructure service.
        service_environment: Vec<ComposeEnvironmentBinding>,
        /// Environment supplied to generated application containers.
        application_environment: Vec<ComposeEnvironmentBinding>,
        /// Optional one-shot migration ownership.
        migration: Option<ComposeMigration>,
    },
    /// Operator-supplied dependency with no pretend local container.
    External {
        /// Closed dependency identifier.
        id: RuntimeDependencyId,
        /// Exact required endpoint and credential environment names.
        bindings: Vec<ExternalEnvironmentBinding>,
    },
}

/// Health check for a repository-owned Compose dependency.
#[derive(Debug, PartialEq, Eq)]
pub struct ComposeHealthcheck {
    /// Exact Compose health command vector.
    pub test: Vec<String>,
    /// Probe interval.
    pub interval: String,
    /// Individual probe timeout.
    pub timeout: String,
    /// Failed probes allowed before unhealthy.
    pub retries: u32,
}

/// One literal binding used only by a repository-owned development topology.
#[derive(Debug, PartialEq, Eq)]
pub struct ComposeEnvironmentBinding {
    /// Exact environment name.
    pub name: String,
    /// Exact development value.
    pub value: String,
    /// Whether the value is credential material.
    pub secret: bool,
    /// Explicit acknowledgement that this value is development-only.
    pub development_only: bool,
}

/// One required operator-supplied environment binding.
#[derive(Debug, PartialEq, Eq)]
pub struct ExternalEnvironmentBinding {
    /// Exact environment name.
    pub name: String,
    /// Human-readable fail-closed Compose interpolation diagnostic.
    pub message: String,
    /// Whether the binding carries credentials rather than an endpoint.
    pub credential: bool,
}

/// One-shot Compose migration owner.
#[derive(Debug, PartialEq, Eq)]
pub struct ComposeMigration {
    /// Module that supplies the generated migration command.
    pub required_module: String,
    /// Arguments passed to the generated service entrypoint.
    pub command: Vec<String>,
}

impl RuntimeDependencyDescriptor {
    /// The closed dependency identifier.
    pub open spec fn dependency_id(self) -> RuntimeDependencyId {
        match self {
            RuntimeDependencyDescriptor::Compose { id, .. } => id,
            RuntimeDependencyDescriptor::External { id, .. } => id,
        }
    }

    /// Returns the closed dependency identifier.
    pub fn id(&self) -> (id: RuntimeDependencyId)
        ensures
            id == self.dependency_id(),
    {
        match self {
            RuntimeDependencyDescriptor::Compose { id, .. } => *id,
            RuntimeDependencyDescriptor::External { id, .. } => *id,
        }
    }
}

impl RuntimeDependencyId {
    /// The canonical kebab-case identifier.
    pub open spec fn text(self) -> Seq<char> {
        match self {
            RuntimeDependencyId::Postgresql => "postgresql"@,
            RuntimeDependencyId::RedisOrValkey => "redis-or-valkey"@,
            RuntimeDependencyId::OidcProvider => "oidc-provider"@,
            RuntimeDependencyId::NatsJetstream => "nats-jetstream"@,
            RuntimeDependencyId::ObjectStore => "object-store"@,
            RuntimeDependencyId::SmtpOrEmailProvider => "smtp-or-email-provider"@,
            RuntimeDependencyId::Svix => "svix"@,
            RuntimeDependencyId::FlagProvider => "flag-provider"@,
            RuntimeDependencyId::Meilisearch => "meilisearch"@,
            RuntimeDependencyId::ConfiguredLlmProviderApis => "configured-llm-provider-apis"@,
            RuntimeDependencyId::AwsBedrockRuntime => "aws-bedrock-runtime"@,
            RuntimeDependencyId::GoogleVertexAi => "google-vertex-ai"@,
        }
    }

    /// Returns the canonical kebab-case identifier.
    pub fn as_str(self) -> (text: &'static str)
        ensures
            text@ == self.text(),
    {
        match self {
            RuntimeDependencyId::Postgresql => "postgresql",
            RuntimeDependencyId::RedisOrValkey => "redis-or-valkey",
            RuntimeDependencyId::OidcProvider => "oidc-provider",
            RuntimeDependencyId::NatsJetstream => "nats-jetstream",
            RuntimeDependencyId::ObjectStore => "object-store",
            RuntimeDependencyId::SmtpOrEmailProvider => "smtp-or-email-provider",
            RuntimeDependencyId::Svix => "svix",
            RuntimeDependencyId::FlagProvider => "flag-provider",
            RuntimeDependencyId::Meilisearch => "meilisearch",
            RuntimeDependencyId::ConfiguredLlmProviderApis => "configured-llm-provider-apis",
            RuntimeDependencyId::AwsBedrockRuntime => "aws-bedrock-runtime",
            RuntimeDependencyId::GoogleVertexAi => "google-vertex-ai",
        }
    }

    /// All identifiers in order.
    pub open spec fn every() -> Seq<RuntimeDependencyId> {
        seq![
            RuntimeDependencyId::Postgresql,
            RuntimeDependencyId::RedisOrValkey,
            RuntimeDependencyId::OidcProvider,
            RuntimeDependencyId::NatsJetstream,
            RuntimeDependencyId::ObjectStore,
            RuntimeDependencyId::SmtpOrEmailProvider,
            RuntimeDependencyId::Svix,
            RuntimeDependencyId::FlagProvider,
            RuntimeDependencyId::Meilisearch,
            RuntimeDependencyId::ConfiguredLlmProviderApis,
            RuntimeDependencyId::AwsBedrockRuntime,
            RuntimeDependencyId::GoogleVertexAi,
        ]
    }

    /// Returns all identifiers in order.
    pub fn all() -> (ids: Vec<RuntimeDependencyId>)
        ensures
            ids@ == Self::every(),
    {
        let mut ids: Vec<RuntimeDependencyId> = Vec::new();
        ids.push(RuntimeDependencyId::Postgresql);
        ids.push(RuntimeDependencyId::RedisOrValkey);
        ids.push(RuntimeDependencyId::OidcProvider);
        ids.push(RuntimeDependencyId::NatsJetstream);
        ids.push(RuntimeDependencyId::ObjectStore);
        ids.push(RuntimeDependencyId::SmtpOrEmailProvider);
        ids.push(RuntimeDependencyId::Svix);
        ids.push(RuntimeDependencyId::FlagProvider);
        ids.push(RuntimeDependencyId::Meilisearch);
        ids.push(RuntimeDependencyId::ConfiguredLlmProviderApis);
        ids.push(RuntimeDependencyId::AwsBedrockRuntime);
        ids.push(RuntimeDependencyId::GoogleVertexAi);
        assert(ids@ =~= Self::every());
        ids
    }

    /// Every identifier is listed.
    pub proof fn lemma_every(id: RuntimeDependencyId)
        ensures
            Self::every().contains(id),
    {
        let all = Self::every();
        let place = match id {
            RuntimeDependencyId::Postgresql => 0int,
            RuntimeDependencyId::RedisOrValkey => 1,
            RuntimeDependencyId::OidcProvider => 2,
            RuntimeDependencyId::NatsJetstream => 3,
            RuntimeDependencyId::ObjectStore => 4,
            RuntimeDependencyId::SmtpOrEmailProvider => 5,
            RuntimeDependencyId::Svix => 6,
            RuntimeDependencyId::FlagProvider => 7,
            RuntimeDependencyId::Meilisearch => 8,
            RuntimeDependencyId::ConfiguredLlmProviderApis => 9,
            RuntimeDependencyId::AwsBedrockRuntime => 10,
            RuntimeDependencyId::GoogleVertexAi => 11,
        };
        assert(all[place] == id);
    }

    /// Reads an identifier.
    pub fn parse(value: &str) -> (result: Result<Self, CatalogError>)
        ensures
            match result {
                Ok(id) => id.text() == value@,
                Err(error) => (forall|id: RuntimeDependencyId| #[trigger] id.text() != value@)
                    && error.text() == "unknown variant `"@ + value@ + "`"@,
            },
    {
        let ids = Self::all();
        let mut index: usize = 0;
        while index < ids.len()
            invariant
                ids@ == Self::every(),
                index <= ids@.len(),
                forall|i: int| 0 <= i < index ==> (#[trigger] ids@[i]).text() != value@,
            decreases ids@.len() - index,
        {
            if same_text(ids[index].as_str(), value) {
                return Ok(ids[index]);
            }
            index += 1;
        }
        proof {
            assert forall|id: RuntimeDependencyId| #[trigger] id.text() != value@ by {
                Self::lemma_every(id);
                let k = choose|k: int| 0 <= k < ids@.len() && ids@[k] == id;
                assert(ids@[k].text() != value@);
            }
        }
        Err(CatalogError::new(join3("unknown variant `", value, "`")))
    }
}

// Values.
/// The value of a configuration value.
pub enum ValueModel {
    /// A string.
    Text(Seq<char>),
    /// An integer.
    Integer(i64),
    /// A boolean.
    Boolean(bool),
    /// Strings.
    Texts(Seq<Seq<char>>),
    /// Integers.
    Integers(Seq<i64>),
}

/// The value of a configuration field.
pub struct FieldModel {
    /// Dotted path.
    pub path: Seq<char>,
    /// Declared type.
    pub value_type: ConfigurationValueType,
    /// Whether the field is required.
    pub required: bool,
    /// Reference default.
    pub reference_default: Option<ValueModel>,
    /// Environment key.
    pub environment: Option<Seq<char>>,
}

impl ConfigurationValue {
    /// The value of this value.
    pub open spec fn view(&self) -> ValueModel {
        match *self {
            ConfigurationValue::String(text) => ValueModel::Text(text@),
            ConfigurationValue::Integer(number) => ValueModel::Integer(number),
            ConfigurationValue::Boolean(flag) => ValueModel::Boolean(flag),
            ConfigurationValue::StringArray(list) => ValueModel::Texts(texts(list@)),
            ConfigurationValue::IntegerArray(list) => ValueModel::Integers(list@),
        }
    }

    /// Whether this value has the type `expected`.
    pub open spec fn has_type(self, expected: ConfigurationValueType) -> bool {
        match self {
            ConfigurationValue::String(_) => expected == ConfigurationValueType::String,
            ConfigurationValue::Integer(_) => expected == ConfigurationValueType::Integer,
            ConfigurationValue::Boolean(_) => expected == ConfigurationValueType::Boolean,
            ConfigurationValue::StringArray(_) => expected == ConfigurationValueType::StringArray,
            ConfigurationValue::IntegerArray(_) => expected
                == ConfigurationValueType::IntegerArray,
        }
    }

    /// Returns whether this value has the type `expected`.
    pub fn matches(&self, expected: ConfigurationValueType) -> (same: bool)
        ensures
            same == self.has_type(expected),
    {
        match self {
            ConfigurationValue::String(_) => expected == ConfigurationValueType::String,
            ConfigurationValue::Integer(_) => expected == ConfigurationValueType::Integer,
            ConfigurationValue::Boolean(_) => expected == ConfigurationValueType::Boolean,
            ConfigurationValue::StringArray(_) => expected == ConfigurationValueType::StringArray,
            ConfigurationValue::IntegerArray(_) => expected
                == ConfigurationValueType::IntegerArray,
        }
    }

    /// Returns whether two values are the same.
    pub fn same(&self, other: &Self) -> (same: bool)
        ensures
            same == (self@ == other@),
    {
        match (self, other) {
            (ConfigurationValue::String(left), ConfigurationValue::String(right)) => same_text(
                left.as_str(),
                right.as_str(),
            ),
            (ConfigurationValue::Integer(left), ConfigurationValue::Integer(right)) => *left
                == *right,
            (ConfigurationValue::Boolean(left), ConfigurationValue::Boolean(right)) => *left
                == *right,
            (ConfigurationValue::StringArray(left), ConfigurationValue::StringArray(right)) =>
                same_texts(left, right),
            (ConfigurationValue::IntegerArray(left), ConfigurationValue::IntegerArray(right)) =>
                same_integers(left, right),
            _ => false,
        }
    }
}

fn same_integers(left: &Vec<i64>, right: &Vec<i64>) -> (same: bool)
    ensures
        same == (left@ == right@),
{
    if left.len() != right.len() {
        return false;
    }
    let mut index: usize = 0;
    while index < left.len()
        invariant
            index <= left@.len(),
            left@.len() == right@.len(),
            forall|i: int| 0 <= i < index ==> left@[i] == right@[i],
        decreases left@.len() - index,
    {
        if left[index] != right[index] {
            return false;
        }
        index += 1;
    }
    assert(left@ =~= right@);
    true
}

/// The value of an optional configuration value.
pub open spec fn optional_value(value: Option<ConfigurationValue>) -> Option<ValueModel> {
    match value {
        Some(found) => Some(found@),
        None => None,
    }
}

impl ConfigurationField {
    /// The value of this field.
    pub open spec fn view(&self) -> FieldModel {
        FieldModel {
            path: self.path@,
            value_type: self.value_type,
            required: self.required,
            reference_default: optional_value(self.reference_default),
            environment: optional_view(self.environment),
        }
    }

    /// Returns whether two fields are the same.
    pub fn same(&self, other: &Self) -> (same: bool)
        ensures
            same == (self@ == other@),
    {
        let same_default = match (&self.reference_default, &other.reference_default) {
            (Some(left), Some(right)) => left.same(right),
            (None, None) => true,
            _ => false,
        };
        same_default && self.value_type == other.value_type && self.required == other.required
            && same_text(self.path.as_str(), other.path.as_str()) && same_optional_text(
            &self.environment,
            &other.environment,
        )
    }
}

// Lookup.
/// The place of the first module with identifier `id` from place `from` on; the number of
/// modules if there is none.
pub open spec fn module_place(modules: Seq<ModuleDefinition>, id: Seq<char>, from: int) -> int
    decreases modules.len() - from,
{
    if from < 0 || from >= modules.len() || modules[from].id@ == id {
        from
    } else {
        module_place(modules, id, from + 1)
    }
}

/// The place of the first descriptor of the dependency `id` from place `from` on; the number of
/// descriptors if there is none.
pub open spec fn descriptor_place(
    descriptors: Seq<RuntimeDependencyDescriptor>,
    id: RuntimeDependencyId,
    from: int,
) -> int
    decreases descriptors.len() - from,
{
    if from < 0 || from >= descriptors.len() || descriptors[from].dependency_id() == id {
        from
    } else {
        descriptor_place(descriptors, id, from + 1)
    }
}

impl ModuleCatalog {
    /// The first module with identifier `id`.
    pub open spec fn find(self, id: Seq<char>) -> Option<ModuleDefinition> {
        let place = module_place(self.modules@, id, 0);
        if place < self.modules@.len() {
            Some(self.modules@[place])
        } else {
            None
        }
    }

    /// The first descriptor of the dependency `id`.
    pub open spec fn find_dependency(self, id: RuntimeDependencyId) -> Option<
        RuntimeDependencyDescriptor,
    > {
        let place = descriptor_place(self.runtime_dependencies@, id, 0);
        if place < self.runtime_dependencies@.len() {
            Some(self.runtime_dependencies@[place])
        } else {
            None
        }
    }

    /// Whether a module has identifier `id`.
    pub open spec fn has_module(self, id: Seq<char>) -> bool {
        self.find(id) is Some
    }

    /// A module is found exactly where there is one with the identifier, and it has it.
    pub proof fn lemma_find(self, id: Seq<char>)
        ensures
            match self.find(id) {
                Some(module) => module.id@ == id && exists|i: int|
                    0 <= i < self.modules@.len() && #[trigger] self.modules@[i] == module,
                None => forall|i: int|
                    0 <= i < self.modules@.len() ==> (#[trigger] self.modules@[i]).id@ != id,
            },
    {
        lemma_module_place(self.modules@, id, 0);
        let place = module_place(self.modules@, id, 0);
        if place < self.modules@.len() {
            assert(self.modules@[place] == self.find(id)->Some_0);
        }
    }

    /// Returns one module descriptor by stable ID.
    pub fn module(&self, id: &str) -> (found: Option<&ModuleDefinition>)
        ensures
            match found {
                Some(module) => self.find(id@) == Some(*module) && module.id@ == id@,
                None => self.find(id@) is None,
            },
    {
        let mut index: usize = 0;
        while index < self.modules.len()
            invariant
                index <= self.modules@.len(),
                module_place(self.modules@, id@, 0) == module_place(
                    self.modules@,
                    id@,
                    index as int,
                ),
            decreases self.modules@.len() - index,
        {
            if same_text(self.modules[index].id.as_str(), id) {
                return Some(&self.modules[index]);
            }
            index += 1;
        }
        None
    }

    /// Returns one closed runtime dependency descriptor by ID.
    pub fn runtime_dependency(&self, id: RuntimeDependencyId) -> (found: Option<
        &RuntimeDependencyDescriptor,
    >)
        ensures
            match found {
                Some(descriptor) => self.find_dependency(id) == Some(*descriptor)
                    && descriptor.dependency_id() == id,
                None => self.find_dependency(id) is None,
            },
    {
        let mut index: usize = 0;
        while index < self.runtime_dependencies.len()
            invariant
                index <= self.runtime_dependencies@.len(),
                descriptor_place(self.runtime_dependencies@, id, 0) == descriptor_place(
                    self.runtime_dependencies@,
                    id,
                    index as int,
                ),
            decreases self.runtime_dependencies@.len() - index,
        {
            if self.runtime_dependencies[index].id() == id {
                return Some(&self.runtime_dependencies[index]);
            }
            index += 1;
        }
        None
    }
}

proof fn lemma_module_place(modules: Seq<ModuleDefinition>, id: Seq<char>, from: int)
    requires
        0 <= from <= modules.len(),
    ensures
        from <= module_place(modules, id, from) <= modules.len(),
        module_place(modules, id, from) < modules.len() ==> modules[module_place(
            modules,
            id,
            from,
        )].id@ == id,
        forall|i: int|
            from <= i < module_place(modules, id, from) ==> (#[trigger] modules[i]).id@ != id,
    decreases modules.len() - from,
{
    if from < modules.len() && modules[from].id@ != id {
        lemma_module_place(modules, id, from + 1);
    }
}

} // verus!
