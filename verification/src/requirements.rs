//! Requirements that a generated application has to fulfil, and who provides for them.

use vstd::prelude::*;
use vstd::string::*;

use crate::modules::CatalogError;
use crate::text::{join3, same_text};

verus! {

/// Runtime contract family that owns one or more application requirements.
#[derive(Clone, Copy, Debug, PartialEq, Eq, PartialOrd, Ord, Structural)]
pub enum ApplicationRequirementProviderFamily {
    /// Administrative authority and operation handling.
    Admin,
    /// Authentication, session, identity-provider, and second-factor runtimes.
    Auth,
    /// Billing provider integration.
    Billing,
    /// Feature-flag evaluation and exposure recording.
    FeatureFlags,
    /// GraphQL schema and request context.
    Graphql,
    /// gRPC services, authentication, and method policies.
    Grpc,
    /// Durable inbox consumers.
    Inbox,
    /// Background job handlers.
    Jobs,
    /// LLM authorization, audit, media, and evaluation ports.
    Llm,
    /// MCP Apps protocol ports.
    McpApps,
    /// MCP bearer authentication.
    McpAuth,
    /// MCP capability registry.
    McpCore,
    /// Enterprise MCP authorization ports.
    McpEnterprise,
    /// MCP subscription persistence, policy, runtime, and delivery.
    McpSubscriptions,
    /// Durable MCP task protection, cancellation, and execution.
    McpTasks,
    /// Transactional outbox publishing.
    Outbox,
    /// Privacy inventory, authorization, lifecycle, consent, and moderation.
    Privacy,
    /// Realtime authorization, identity revalidation, and event handling.
    Realtime,
    /// Scheduled envelope construction.
    Scheduler,
    /// Search schema, reauthorization, and projection.
    Search,
    /// Upload workflow and authorization.
    Uploads,
    /// Inbound webhook adapters and handlers.
    WebhooksInbound,
    /// Svix webhook replay admission.
    WebhooksSvix,
}

impl ApplicationRequirementProviderFamily {
    /// Returns every provider family accepted by the application contract boundary.
    pub fn all() -> (families: Vec<Self>)
        ensures
            forall|family: Self| #[trigger] families@.contains(family),
            families@.no_duplicates(),
    {
        let mut families: Vec<Self> = Vec::new();
        families.push(ApplicationRequirementProviderFamily::Admin);
        families.push(ApplicationRequirementProviderFamily::Auth);
        families.push(ApplicationRequirementProviderFamily::Billing);
        families.push(ApplicationRequirementProviderFamily::FeatureFlags);
        families.push(ApplicationRequirementProviderFamily::Graphql);
        families.push(ApplicationRequirementProviderFamily::Grpc);
        families.push(ApplicationRequirementProviderFamily::Inbox);
        families.push(ApplicationRequirementProviderFamily::Jobs);
        families.push(ApplicationRequirementProviderFamily::Llm);
        families.push(ApplicationRequirementProviderFamily::McpApps);
        families.push(ApplicationRequirementProviderFamily::McpAuth);
        families.push(ApplicationRequirementProviderFamily::McpCore);
        families.push(ApplicationRequirementProviderFamily::McpEnterprise);
        families.push(ApplicationRequirementProviderFamily::McpSubscriptions);
        families.push(ApplicationRequirementProviderFamily::McpTasks);
        families.push(ApplicationRequirementProviderFamily::Outbox);
        families.push(ApplicationRequirementProviderFamily::Privacy);
        families.push(ApplicationRequirementProviderFamily::Realtime);
        families.push(ApplicationRequirementProviderFamily::Scheduler);
        families.push(ApplicationRequirementProviderFamily::Search);
        families.push(ApplicationRequirementProviderFamily::Uploads);
        families.push(ApplicationRequirementProviderFamily::WebhooksInbound);
        families.push(ApplicationRequirementProviderFamily::WebhooksSvix);
        proof {
            let list = families@;
            assert forall|family: Self| #[trigger] list.contains(family) by {
                match family {
                    ApplicationRequirementProviderFamily::Admin => {
                        assert(list[0] == family);
                    },
                    ApplicationRequirementProviderFamily::Auth => {
                        assert(list[1] == family);
                    },
                    ApplicationRequirementProviderFamily::Billing => {
                        assert(list[2] == family);
                    },
                    ApplicationRequirementProviderFamily::FeatureFlags => {
                        assert(list[3] == family);
                    },
                    ApplicationRequirementProviderFamily::Graphql => {
                        assert(list[4] == family);
                    },
                    ApplicationRequirementProviderFamily::Grpc => {
                        assert(list[5] == family);
                    },
                    ApplicationRequirementProviderFamily::Inbox => {
                        assert(list[6] == family);
                    },
                    ApplicationRequirementProviderFamily::Jobs => {
                        assert(list[7] == family);
                    },
                    ApplicationRequirementProviderFamily::Llm => {
                        assert(list[8] == family);
                    },
                    ApplicationRequirementProviderFamily::McpApps => {
                        assert(list[9] == family);
                    },
                    ApplicationRequirementProviderFamily::McpAuth => {
                        assert(list[10] == family);
                    },
                    ApplicationRequirementProviderFamily::McpCore => {
                        assert(list[11] == family);
                    },
                    ApplicationRequirementProviderFamily::McpEnterprise => {
                        assert(list[12] == family);
                    },
                    ApplicationRequirementProviderFamily::McpSubscriptions => {
                        assert(list[13] == family);
                    },
                    ApplicationRequirementProviderFamily::McpTasks => {
                        assert(list[14] == family);
                    },
                    ApplicationRequirementProviderFamily::Outbox => {
                        assert(list[15] == family);
                    },
                    ApplicationRequirementProviderFamily::Privacy => {
                        assert(list[16] == family);
                    },
                    ApplicationRequirementProviderFamily::Realtime => {
                        assert(list[17] == family);
                    },
                    ApplicationRequirementProviderFamily::Scheduler => {
                        assert(list[18] == family);
                    },
                    ApplicationRequirementProviderFamily::Search => {
                        assert(list[19] == family);
                    },
                    ApplicationRequirementProviderFamily::Uploads => {
                        assert(list[20] == family);
                    },
                    ApplicationRequirementProviderFamily::WebhooksInbound => {
                        assert(list[21] == family);
                    },
                    ApplicationRequirementProviderFamily::WebhooksSvix => {
                        assert(list[22] == family);
                    },
                }
            }
        }
        families
    }
}

/// Closed application-owned requirements accepted by bundled module catalogs.
#[derive(Clone, Copy, Debug, PartialEq, Eq, PartialOrd, Ord, Structural)]
pub enum ApplicationRequirement {
    /// Application requirement `admin.authority-resolver`.
    AdminAuthorityResolver,
    /// Application requirement `admin.operation-handler`.
    AdminOperationHandler,
    /// Application requirement `auth.authenticated-runtime`.
    AuthAuthenticatedRuntime,
    /// Application requirement `auth.redis-session-runtime`.
    AuthRedisSessionRuntime,
    /// Application requirement `auth-oidc.runtime`.
    AuthOidcRuntime,
    /// Application requirement `auth.oauth-runtime`.
    AuthOauthRuntime,
    /// Application requirement `auth-webauthn.runtime`.
    AuthWebAuthnRuntime,
    /// Application requirement `auth-totp.runtime`.
    AuthTotpRuntime,
    /// Application requirement `billing.provider`.
    BillingProvider,
    /// Application requirement `feature-flags.exposure-recorder`.
    FeatureFlagsExposureRecorder,
    /// Application requirement `feature-flags.provider`.
    FeatureFlagsProvider,
    /// Application requirement `graphql.request-data-injector`.
    GraphqlRequestDataInjector,
    /// Application requirement `graphql.schema`.
    GraphqlSchema,
    /// Application requirement `grpc.application-service`.
    GrpcApplicationService,
    /// Application requirement `grpc.authenticator`.
    GrpcAuthenticator,
    /// Application requirement `grpc.method-policies`.
    GrpcMethodPolicies,
    /// Application requirement `inbox.consumers`.
    InboxConsumers,
    /// Application requirement `jobs.handlers`.
    JobsHandlers,
    /// Application requirement `llm.evaluation-repository`.
    LlmEvaluationRepository,
    /// Application requirement `llm.media-authorization`.
    LlmMediaAuthorization,
    /// Application requirement `llm.media-scanner`.
    LlmMediaScanner,
    /// Application requirement `llm.tool-audit`.
    LlmToolAudit,
    /// Application requirement `llm.tool-authorization`.
    LlmToolAuthorization,
    /// Application requirement `mcp.apps-ports`.
    McpAppsPorts,
    /// Application requirement `mcp.bearer-authenticator`.
    McpBearerAuthenticator,
    /// Application requirement `mcp.cancellation-runtime`.
    McpCancellationRuntime,
    /// Application requirement `mcp.capability-executor`.
    McpCapabilityExecutor,
    /// Application requirement `mcp.capability-registry`.
    McpCapabilityRegistry,
    /// Application requirement `mcp.enterprise-ports`.
    McpEnterprisePorts,
    /// Application requirement `mcp.subscription-authorizer`.
    McpSubscriptionAuthorizer,
    /// Application requirement `mcp.subscription-delivery`.
    McpSubscriptionDelivery,
    /// Application requirement `mcp.subscription-repository`.
    McpSubscriptionRepository,
    /// Application requirement `mcp.subscription-runtime`.
    McpSubscriptionRuntime,
    /// Application requirement `mcp.task-payload-protector`.
    McpTaskPayloadProtector,
    /// Application requirement `outbox.publisher`.
    OutboxPublisher,
    /// Application requirement `privacy.authorizer`.
    PrivacyAuthorizer,
    /// Application requirement `privacy.consent-policy`.
    PrivacyConsentPolicy,
    /// Application requirement `privacy.inventory-adapters`.
    PrivacyInventoryAdapters,
    /// Application requirement `privacy.inventory-manifest`.
    PrivacyInventoryManifest,
    /// Application requirement `privacy.lifecycle-handler`.
    PrivacyLifecycleHandler,
    /// Application requirement `privacy.moderation-policy`.
    PrivacyModerationPolicy,
    /// Application requirement `realtime.event-handler`.
    RealtimeEventHandler,
    /// Application requirement `realtime.fanout-authorizer`.
    RealtimeFanoutAuthorizer,
    /// Application requirement `realtime.identity-revalidator`.
    RealtimeIdentityRevalidator,
    /// Application requirement `scheduler.envelope-factory`.
    SchedulerEnvelopeFactory,
    /// Application requirement `search.index-schema`.
    SearchIndexSchema,
    /// Application requirement `search.projection-resolver`.
    SearchProjectionResolver,
    /// Application requirement `search.reauthorizer`.
    SearchReauthorizer,
    /// Application requirement `uploads.authorization`.
    UploadsAuthorization,
    /// Application requirement `uploads.workflow`.
    UploadsWorkflow,
    /// Application requirement `webhooks-inbound.handlers`.
    WebhooksInboundHandlers,
    /// Application requirement `webhooks-inbound.provider-adapters`.
    WebhooksInboundProviderAdapters,
    /// Application requirement `webhooks-svix.replay-admission`.
    WebhooksSvixReplayAdmission,
}

impl ApplicationRequirement {
    /// The canonical identifier.
    pub open spec fn id(self) -> Seq<char> {
        match self {
            ApplicationRequirement::AdminAuthorityResolver => "admin.authority-resolver"@,
            ApplicationRequirement::AdminOperationHandler => "admin.operation-handler"@,
            ApplicationRequirement::AuthAuthenticatedRuntime => "auth.authenticated-runtime"@,
            ApplicationRequirement::AuthRedisSessionRuntime => "auth.redis-session-runtime"@,
            ApplicationRequirement::AuthOidcRuntime => "auth-oidc.runtime"@,
            ApplicationRequirement::AuthOauthRuntime => "auth.oauth-runtime"@,
            ApplicationRequirement::AuthWebAuthnRuntime => "auth-webauthn.runtime"@,
            ApplicationRequirement::AuthTotpRuntime => "auth-totp.runtime"@,
            ApplicationRequirement::BillingProvider => "billing.provider"@,
            ApplicationRequirement::FeatureFlagsExposureRecorder => "feature-flags.exposure-recorder"@,
            ApplicationRequirement::FeatureFlagsProvider => "feature-flags.provider"@,
            ApplicationRequirement::GraphqlRequestDataInjector => "graphql.request-data-injector"@,
            ApplicationRequirement::GraphqlSchema => "graphql.schema"@,
            ApplicationRequirement::GrpcApplicationService => "grpc.application-service"@,
            ApplicationRequirement::GrpcAuthenticator => "grpc.authenticator"@,
            ApplicationRequirement::GrpcMethodPolicies => "grpc.method-policies"@,
            ApplicationRequirement::InboxConsumers => "inbox.consumers"@,
            ApplicationRequirement::JobsHandlers => "jobs.handlers"@,
            ApplicationRequirement::LlmEvaluationRepository => "llm.evaluation-repository"@,
            ApplicationRequirement::LlmMediaAuthorization => "llm.media-authorization"@,
            ApplicationRequirement::LlmMediaScanner => "llm.media-scanner"@,
            ApplicationRequirement::LlmToolAudit => "llm.tool-audit"@,
            ApplicationRequirement::LlmToolAuthorization => "llm.tool-authorization"@,
            ApplicationRequirement::McpAppsPorts => "mcp.apps-ports"@,
            ApplicationRequirement::McpBearerAuthenticator => "mcp.bearer-authenticator"@,
            ApplicationRequirement::McpCancellationRuntime => "mcp.cancellation-runtime"@,
            ApplicationRequirement::McpCapabilityExecutor => "mcp.capability-executor"@,
            ApplicationRequirement::McpCapabilityRegistry => "mcp.capability-registry"@,
            ApplicationRequirement::McpEnterprisePorts => "mcp.enterprise-ports"@,
            ApplicationRequirement::McpSubscriptionAuthorizer => "mcp.subscription-authorizer"@,
            ApplicationRequirement::McpSubscriptionDelivery => "mcp.subscription-delivery"@,
            ApplicationRequirement::McpSubscriptionRepository => "mcp.subscription-repository"@,
            ApplicationRequirement::McpSubscriptionRuntime => "mcp.subscription-runtime"@,
            ApplicationRequirement::McpTaskPayloadProtector => "mcp.task-payload-protector"@,
            ApplicationRequirement::OutboxPublisher => "outbox.publisher"@,
            ApplicationRequirement::PrivacyAuthorizer => "privacy.authorizer"@,
            ApplicationRequirement::PrivacyConsentPolicy => "privacy.consent-policy"@,
            ApplicationRequirement::PrivacyInventoryAdapters => "privacy.inventory-adapters"@,
            ApplicationRequirement::PrivacyInventoryManifest => "privacy.inventory-manifest"@,
            ApplicationRequirement::PrivacyLifecycleHandler => "privacy.lifecycle-handler"@,
            ApplicationRequirement::PrivacyModerationPolicy => "privacy.moderation-policy"@,
            ApplicationRequirement::RealtimeEventHandler => "realtime.event-handler"@,
            ApplicationRequirement::RealtimeFanoutAuthorizer => "realtime.fanout-authorizer"@,
            ApplicationRequirement::RealtimeIdentityRevalidator => "realtime.identity-revalidator"@,
            ApplicationRequirement::SchedulerEnvelopeFactory => "scheduler.envelope-factory"@,
            ApplicationRequirement::SearchIndexSchema => "search.index-schema"@,
            ApplicationRequirement::SearchProjectionResolver => "search.projection-resolver"@,
            ApplicationRequirement::SearchReauthorizer => "search.reauthorizer"@,
            ApplicationRequirement::UploadsAuthorization => "uploads.authorization"@,
            ApplicationRequirement::UploadsWorkflow => "uploads.workflow"@,
            ApplicationRequirement::WebhooksInboundHandlers => "webhooks-inbound.handlers"@,
            ApplicationRequirement::WebhooksInboundProviderAdapters => "webhooks-inbound.provider-adapters"@,
            ApplicationRequirement::WebhooksSvixReplayAdmission => "webhooks-svix.replay-admission"@,
        }
    }

    /// The one runtime contract family that must provide for this requirement.
    pub open spec fn family(self) -> ApplicationRequirementProviderFamily {
        match self {
            ApplicationRequirement::AdminAuthorityResolver => ApplicationRequirementProviderFamily::Admin,
            ApplicationRequirement::AdminOperationHandler => ApplicationRequirementProviderFamily::Admin,
            ApplicationRequirement::AuthAuthenticatedRuntime => ApplicationRequirementProviderFamily::Auth,
            ApplicationRequirement::AuthRedisSessionRuntime => ApplicationRequirementProviderFamily::Auth,
            ApplicationRequirement::AuthOidcRuntime => ApplicationRequirementProviderFamily::Auth,
            ApplicationRequirement::AuthOauthRuntime => ApplicationRequirementProviderFamily::Auth,
            ApplicationRequirement::AuthWebAuthnRuntime => ApplicationRequirementProviderFamily::Auth,
            ApplicationRequirement::AuthTotpRuntime => ApplicationRequirementProviderFamily::Auth,
            ApplicationRequirement::BillingProvider => ApplicationRequirementProviderFamily::Billing,
            ApplicationRequirement::FeatureFlagsExposureRecorder => ApplicationRequirementProviderFamily::FeatureFlags,
            ApplicationRequirement::FeatureFlagsProvider => ApplicationRequirementProviderFamily::FeatureFlags,
            ApplicationRequirement::GraphqlRequestDataInjector => ApplicationRequirementProviderFamily::Graphql,
            ApplicationRequirement::GraphqlSchema => ApplicationRequirementProviderFamily::Graphql,
            ApplicationRequirement::GrpcApplicationService => ApplicationRequirementProviderFamily::Grpc,
            ApplicationRequirement::GrpcAuthenticator => ApplicationRequirementProviderFamily::Grpc,
            ApplicationRequirement::GrpcMethodPolicies => ApplicationRequirementProviderFamily::Grpc,
            ApplicationRequirement::InboxConsumers => ApplicationRequirementProviderFamily::Inbox,
            ApplicationRequirement::JobsHandlers => ApplicationRequirementProviderFamily::Jobs,
            ApplicationRequirement::LlmEvaluationRepository => ApplicationRequirementProviderFamily::Llm,
            ApplicationRequirement::LlmMediaAuthorization => ApplicationRequirementProviderFamily::Llm,
            ApplicationRequirement::LlmMediaScanner => ApplicationRequirementProviderFamily::Llm,
            ApplicationRequirement::LlmToolAudit => ApplicationRequirementProviderFamily::Llm,
            ApplicationRequirement::LlmToolAuthorization => ApplicationRequirementProviderFamily::Llm,
            ApplicationRequirement::McpAppsPorts => ApplicationRequirementProviderFamily::McpApps,
            ApplicationRequirement::McpBearerAuthenticator => ApplicationRequirementProviderFamily::McpAuth,
            ApplicationRequirement::McpCancellationRuntime => ApplicationRequirementProviderFamily::McpTasks,
            ApplicationRequirement::McpCapabilityExecutor => ApplicationRequirementProviderFamily::McpTasks,
            ApplicationRequirement::McpCapabilityRegistry => ApplicationRequirementProviderFamily::McpCore,
            ApplicationRequirement::McpEnterprisePorts => ApplicationRequirementProviderFamily::McpEnterprise,
            ApplicationRequirement::McpSubscriptionAuthorizer => ApplicationRequirementProviderFamily::McpSubscriptions,
            ApplicationRequirement::McpSubscriptionDelivery => ApplicationRequirementProviderFamily::McpSubscriptions,
            ApplicationRequirement::McpSubscriptionRepository => ApplicationRequirementProviderFamily::McpSubscriptions,
            ApplicationRequirement::McpSubscriptionRuntime => ApplicationRequirementProviderFamily::McpSubscriptions,
            ApplicationRequirement::McpTaskPayloadProtector => ApplicationRequirementProviderFamily::McpTasks,
            ApplicationRequirement::OutboxPublisher => ApplicationRequirementProviderFamily::Outbox,
            ApplicationRequirement::PrivacyAuthorizer => ApplicationRequirementProviderFamily::Privacy,
            ApplicationRequirement::PrivacyConsentPolicy => ApplicationRequirementProviderFamily::Privacy,
            ApplicationRequirement::PrivacyInventoryAdapters => ApplicationRequirementProviderFamily::Privacy,
            ApplicationRequirement::PrivacyInventoryManifest => ApplicationRequirementProviderFamily::Privacy,
            ApplicationRequirement::PrivacyLifecycleHandler => ApplicationRequirementProviderFamily::Privacy,
            ApplicationRequirement::PrivacyModerationPolicy => ApplicationRequirementProviderFamily::Privacy,
            ApplicationRequirement::RealtimeEventHandler => ApplicationRequirementProviderFamily::Realtime,
            ApplicationRequirement::RealtimeFanoutAuthorizer => ApplicationRequirementProviderFamily::Realtime,
            ApplicationRequirement::RealtimeIdentityRevalidator => ApplicationRequirementProviderFamily::Realtime,
            ApplicationRequirement::SchedulerEnvelopeFactory => ApplicationRequirementProviderFamily::Scheduler,
            ApplicationRequirement::SearchIndexSchema => ApplicationRequirementProviderFamily::Search,
            ApplicationRequirement::SearchProjectionResolver => ApplicationRequirementProviderFamily::Search,
            ApplicationRequirement::SearchReauthorizer => ApplicationRequirementProviderFamily::Search,
            ApplicationRequirement::UploadsAuthorization => ApplicationRequirementProviderFamily::Uploads,
            ApplicationRequirement::UploadsWorkflow => ApplicationRequirementProviderFamily::Uploads,
            ApplicationRequirement::WebhooksInboundHandlers => ApplicationRequirementProviderFamily::WebhooksInbound,
            ApplicationRequirement::WebhooksInboundProviderAdapters => ApplicationRequirementProviderFamily::WebhooksInbound,
            ApplicationRequirement::WebhooksSvixReplayAdmission => ApplicationRequirementProviderFamily::WebhooksSvix,
        }
    }

    /// The place of this requirement among all requirements.
    pub open spec fn place(self) -> int {
        match self {
            ApplicationRequirement::AdminAuthorityResolver => 0,
            ApplicationRequirement::AdminOperationHandler => 1,
            ApplicationRequirement::AuthAuthenticatedRuntime => 2,
            ApplicationRequirement::AuthRedisSessionRuntime => 3,
            ApplicationRequirement::AuthOidcRuntime => 4,
            ApplicationRequirement::AuthOauthRuntime => 5,
            ApplicationRequirement::AuthWebAuthnRuntime => 6,
            ApplicationRequirement::AuthTotpRuntime => 7,
            ApplicationRequirement::BillingProvider => 8,
            ApplicationRequirement::FeatureFlagsExposureRecorder => 9,
            ApplicationRequirement::FeatureFlagsProvider => 10,
            ApplicationRequirement::GraphqlRequestDataInjector => 11,
            ApplicationRequirement::GraphqlSchema => 12,
            ApplicationRequirement::GrpcApplicationService => 13,
            ApplicationRequirement::GrpcAuthenticator => 14,
            ApplicationRequirement::GrpcMethodPolicies => 15,
            ApplicationRequirement::InboxConsumers => 16,
            ApplicationRequirement::JobsHandlers => 17,
            ApplicationRequirement::LlmEvaluationRepository => 18,
            ApplicationRequirement::LlmMediaAuthorization => 19,
            ApplicationRequirement::LlmMediaScanner => 20,
            ApplicationRequirement::LlmToolAudit => 21,
            ApplicationRequirement::LlmToolAuthorization => 22,
            ApplicationRequirement::McpAppsPorts => 23,
            ApplicationRequirement::McpBearerAuthenticator => 24,
            ApplicationRequirement::McpCancellationRuntime => 25,
            ApplicationRequirement::McpCapabilityExecutor => 26,
            ApplicationRequirement::McpCapabilityRegistry => 27,
            ApplicationRequirement::McpEnterprisePorts => 28,
            ApplicationRequirement::McpSubscriptionAuthorizer => 29,
            ApplicationRequirement::McpSubscriptionDelivery => 30,
            ApplicationRequirement::McpSubscriptionRepository => 31,
            ApplicationRequirement::McpSubscriptionRuntime => 32,
            ApplicationRequirement::McpTaskPayloadProtector => 33,
            ApplicationRequirement::OutboxPublisher => 34,
            ApplicationRequirement::PrivacyAuthorizer => 35,
            ApplicationRequirement::PrivacyConsentPolicy => 36,
            ApplicationRequirement::PrivacyInventoryAdapters => 37,
            ApplicationRequirement::PrivacyInventoryManifest => 38,
            ApplicationRequirement::PrivacyLifecycleHandler => 39,
            ApplicationRequirement::PrivacyModerationPolicy => 40,
            ApplicationRequirement::RealtimeEventHandler => 41,
            ApplicationRequirement::RealtimeFanoutAuthorizer => 42,
            ApplicationRequirement::RealtimeIdentityRevalidator => 43,
            ApplicationRequirement::SchedulerEnvelopeFactory => 44,
            ApplicationRequirement::SearchIndexSchema => 45,
            ApplicationRequirement::SearchProjectionResolver => 46,
            ApplicationRequirement::SearchReauthorizer => 47,
            ApplicationRequirement::UploadsAuthorization => 48,
            ApplicationRequirement::UploadsWorkflow => 49,
            ApplicationRequirement::WebhooksInboundHandlers => 50,
            ApplicationRequirement::WebhooksInboundProviderAdapters => 51,
            ApplicationRequirement::WebhooksSvixReplayAdmission => 52,
        }
    }

    /// The name of this requirement in generated code.
    pub open spec fn variant(self) -> Seq<char> {
        match self {
            ApplicationRequirement::AdminAuthorityResolver => "AdminAuthorityResolver"@,
            ApplicationRequirement::AdminOperationHandler => "AdminOperationHandler"@,
            ApplicationRequirement::AuthAuthenticatedRuntime => "AuthAuthenticatedRuntime"@,
            ApplicationRequirement::AuthRedisSessionRuntime => "AuthRedisSessionRuntime"@,
            ApplicationRequirement::AuthOidcRuntime => "AuthOidcRuntime"@,
            ApplicationRequirement::AuthOauthRuntime => "AuthOauthRuntime"@,
            ApplicationRequirement::AuthWebAuthnRuntime => "AuthWebAuthnRuntime"@,
            ApplicationRequirement::AuthTotpRuntime => "AuthTotpRuntime"@,
            ApplicationRequirement::BillingProvider => "BillingProvider"@,
            ApplicationRequirement::FeatureFlagsExposureRecorder => "FeatureFlagsExposureRecorder"@,
            ApplicationRequirement::FeatureFlagsProvider => "FeatureFlagsProvider"@,
            ApplicationRequirement::GraphqlRequestDataInjector => "GraphqlRequestDataInjector"@,
            ApplicationRequirement::GraphqlSchema => "GraphqlSchema"@,
            ApplicationRequirement::GrpcApplicationService => "GrpcApplicationService"@,
            ApplicationRequirement::GrpcAuthenticator => "GrpcAuthenticator"@,
            ApplicationRequirement::GrpcMethodPolicies => "GrpcMethodPolicies"@,
            ApplicationRequirement::InboxConsumers => "InboxConsumers"@,
            ApplicationRequirement::JobsHandlers => "JobsHandlers"@,
            ApplicationRequirement::LlmEvaluationRepository => "LlmEvaluationRepository"@,
            ApplicationRequirement::LlmMediaAuthorization => "LlmMediaAuthorization"@,
            ApplicationRequirement::LlmMediaScanner => "LlmMediaScanner"@,
            ApplicationRequirement::LlmToolAudit => "LlmToolAudit"@,
            ApplicationRequirement::LlmToolAuthorization => "LlmToolAuthorization"@,
            ApplicationRequirement::McpAppsPorts => "McpAppsPorts"@,
            ApplicationRequirement::McpBearerAuthenticator => "McpBearerAuthenticator"@,
            ApplicationRequirement::McpCancellationRuntime => "McpCancellationRuntime"@,
            ApplicationRequirement::McpCapabilityExecutor => "McpCapabilityExecutor"@,
            ApplicationRequirement::McpCapabilityRegistry => "McpCapabilityRegistry"@,
            ApplicationRequirement::McpEnterprisePorts => "McpEnterprisePorts"@,
            ApplicationRequirement::McpSubscriptionAuthorizer => "McpSubscriptionAuthorizer"@,
            ApplicationRequirement::McpSubscriptionDelivery => "McpSubscriptionDelivery"@,
            ApplicationRequirement::McpSubscriptionRepository => "McpSubscriptionRepository"@,
            ApplicationRequirement::McpSubscriptionRuntime => "McpSubscriptionRuntime"@,
            ApplicationRequirement::McpTaskPayloadProtector => "McpTaskPayloadProtector"@,
            ApplicationRequirement::OutboxPublisher => "OutboxPublisher"@,
            ApplicationRequirement::PrivacyAuthorizer => "PrivacyAuthorizer"@,
            ApplicationRequirement::PrivacyConsentPolicy => "PrivacyConsentPolicy"@,
            ApplicationRequirement::PrivacyInventoryAdapters => "PrivacyInventoryAdapters"@,
            ApplicationRequirement::PrivacyInventoryManifest => "PrivacyInventoryManifest"@,
            ApplicationRequirement::PrivacyLifecycleHandler => "PrivacyLifecycleHandler"@,
            ApplicationRequirement::PrivacyModerationPolicy => "PrivacyModerationPolicy"@,
            ApplicationRequirement::RealtimeEventHandler => "RealtimeEventHandler"@,
            ApplicationRequirement::RealtimeFanoutAuthorizer => "RealtimeFanoutAuthorizer"@,
            ApplicationRequirement::RealtimeIdentityRevalidator => "RealtimeIdentityRevalidator"@,
            ApplicationRequirement::SchedulerEnvelopeFactory => "SchedulerEnvelopeFactory"@,
            ApplicationRequirement::SearchIndexSchema => "SearchIndexSchema"@,
            ApplicationRequirement::SearchProjectionResolver => "SearchProjectionResolver"@,
            ApplicationRequirement::SearchReauthorizer => "SearchReauthorizer"@,
            ApplicationRequirement::UploadsAuthorization => "UploadsAuthorization"@,
            ApplicationRequirement::UploadsWorkflow => "UploadsWorkflow"@,
            ApplicationRequirement::WebhooksInboundHandlers => "WebhooksInboundHandlers"@,
            ApplicationRequirement::WebhooksInboundProviderAdapters => "WebhooksInboundProviderAdapters"@,
            ApplicationRequirement::WebhooksSvixReplayAdmission => "WebhooksSvixReplayAdmission"@,
        }
    }

    /// Returns the canonical diagnostic identifier.
    pub fn as_str(&self) -> (id: &'static str)
        ensures
            id@ == self.id(),
    {
        match *self {
            ApplicationRequirement::AdminAuthorityResolver => "admin.authority-resolver",
            ApplicationRequirement::AdminOperationHandler => "admin.operation-handler",
            ApplicationRequirement::AuthAuthenticatedRuntime => "auth.authenticated-runtime",
            ApplicationRequirement::AuthRedisSessionRuntime => "auth.redis-session-runtime",
            ApplicationRequirement::AuthOidcRuntime => "auth-oidc.runtime",
            ApplicationRequirement::AuthOauthRuntime => "auth.oauth-runtime",
            ApplicationRequirement::AuthWebAuthnRuntime => "auth-webauthn.runtime",
            ApplicationRequirement::AuthTotpRuntime => "auth-totp.runtime",
            ApplicationRequirement::BillingProvider => "billing.provider",
            ApplicationRequirement::FeatureFlagsExposureRecorder => "feature-flags.exposure-recorder",
            ApplicationRequirement::FeatureFlagsProvider => "feature-flags.provider",
            ApplicationRequirement::GraphqlRequestDataInjector => "graphql.request-data-injector",
            ApplicationRequirement::GraphqlSchema => "graphql.schema",
            ApplicationRequirement::GrpcApplicationService => "grpc.application-service",
            ApplicationRequirement::GrpcAuthenticator => "grpc.authenticator",
            ApplicationRequirement::GrpcMethodPolicies => "grpc.method-policies",
            ApplicationRequirement::InboxConsumers => "inbox.consumers",
            ApplicationRequirement::JobsHandlers => "jobs.handlers",
            ApplicationRequirement::LlmEvaluationRepository => "llm.evaluation-repository",
            ApplicationRequirement::LlmMediaAuthorization => "llm.media-authorization",
            ApplicationRequirement::LlmMediaScanner => "llm.media-scanner",
            ApplicationRequirement::LlmToolAudit => "llm.tool-audit",
            ApplicationRequirement::LlmToolAuthorization => "llm.tool-authorization",
            ApplicationRequirement::McpAppsPorts => "mcp.apps-ports",
            ApplicationRequirement::McpBearerAuthenticator => "mcp.bearer-authenticator",
            ApplicationRequirement::McpCancellationRuntime => "mcp.cancellation-runtime",
            ApplicationRequirement::McpCapabilityExecutor => "mcp.capability-executor",
            ApplicationRequirement::McpCapabilityRegistry => "mcp.capability-registry",
            ApplicationRequirement::McpEnterprisePorts => "mcp.enterprise-ports",
            ApplicationRequirement::McpSubscriptionAuthorizer => "mcp.subscription-authorizer",
            ApplicationRequirement::McpSubscriptionDelivery => "mcp.subscription-delivery",
            ApplicationRequirement::McpSubscriptionRepository => "mcp.subscription-repository",
            ApplicationRequirement::McpSubscriptionRuntime => "mcp.subscription-runtime",
            ApplicationRequirement::McpTaskPayloadProtector => "mcp.task-payload-protector",
            ApplicationRequirement::OutboxPublisher => "outbox.publisher",
            ApplicationRequirement::PrivacyAuthorizer => "privacy.authorizer",
            ApplicationRequirement::PrivacyConsentPolicy => "privacy.consent-policy",
            ApplicationRequirement::PrivacyInventoryAdapters => "privacy.inventory-adapters",
            ApplicationRequirement::PrivacyInventoryManifest => "privacy.inventory-manifest",
            ApplicationRequirement::PrivacyLifecycleHandler => "privacy.lifecycle-handler",
            ApplicationRequirement::PrivacyModerationPolicy => "privacy.moderation-policy",
            ApplicationRequirement::RealtimeEventHandler => "realtime.event-handler",
            ApplicationRequirement::RealtimeFanoutAuthorizer => "realtime.fanout-authorizer",
            ApplicationRequirement::RealtimeIdentityRevalidator => "realtime.identity-revalidator",
            ApplicationRequirement::SchedulerEnvelopeFactory => "scheduler.envelope-factory",
            ApplicationRequirement::SearchIndexSchema => "search.index-schema",
            ApplicationRequirement::SearchProjectionResolver => "search.projection-resolver",
            ApplicationRequirement::SearchReauthorizer => "search.reauthorizer",
            ApplicationRequirement::UploadsAuthorization => "uploads.authorization",
            ApplicationRequirement::UploadsWorkflow => "uploads.workflow",
            ApplicationRequirement::WebhooksInboundHandlers => "webhooks-inbound.handlers",
            ApplicationRequirement::WebhooksInboundProviderAdapters => "webhooks-inbound.provider-adapters",
            ApplicationRequirement::WebhooksSvixReplayAdmission => "webhooks-svix.replay-admission",
        }
    }

    /// Returns the one runtime contract family that must provide this requirement.
    pub fn provider_family(&self) -> (family: ApplicationRequirementProviderFamily)
        ensures
            family == self.family(),
    {
        match *self {
            ApplicationRequirement::AdminAuthorityResolver => ApplicationRequirementProviderFamily::Admin,
            ApplicationRequirement::AdminOperationHandler => ApplicationRequirementProviderFamily::Admin,
            ApplicationRequirement::AuthAuthenticatedRuntime => ApplicationRequirementProviderFamily::Auth,
            ApplicationRequirement::AuthRedisSessionRuntime => ApplicationRequirementProviderFamily::Auth,
            ApplicationRequirement::AuthOidcRuntime => ApplicationRequirementProviderFamily::Auth,
            ApplicationRequirement::AuthOauthRuntime => ApplicationRequirementProviderFamily::Auth,
            ApplicationRequirement::AuthWebAuthnRuntime => ApplicationRequirementProviderFamily::Auth,
            ApplicationRequirement::AuthTotpRuntime => ApplicationRequirementProviderFamily::Auth,
            ApplicationRequirement::BillingProvider => ApplicationRequirementProviderFamily::Billing,
            ApplicationRequirement::FeatureFlagsExposureRecorder => ApplicationRequirementProviderFamily::FeatureFlags,
            ApplicationRequirement::FeatureFlagsProvider => ApplicationRequirementProviderFamily::FeatureFlags,
            ApplicationRequirement::GraphqlRequestDataInjector => ApplicationRequirementProviderFamily::Graphql,
            ApplicationRequirement::GraphqlSchema => ApplicationRequirementProviderFamily::Graphql,
            ApplicationRequirement::GrpcApplicationService => ApplicationRequirementProviderFamily::Grpc,
            ApplicationRequirement::GrpcAuthenticator => ApplicationRequirementProviderFamily::Grpc,
            ApplicationRequirement::GrpcMethodPolicies => ApplicationRequirementProviderFamily::Grpc,
            ApplicationRequirement::InboxConsumers => ApplicationRequirementProviderFamily::Inbox,
            ApplicationRequirement::JobsHandlers => ApplicationRequirementProviderFamily::Jobs,
            ApplicationRequirement::LlmEvaluationRepository => ApplicationRequirementProviderFamily::Llm,
            ApplicationRequirement::LlmMediaAuthorization => ApplicationRequirementProviderFamily::Llm,
            ApplicationRequirement::LlmMediaScanner => ApplicationRequirementProviderFamily::Llm,
            ApplicationRequirement::LlmToolAudit => ApplicationRequirementProviderFamily::Llm,
            ApplicationRequirement::LlmToolAuthorization => ApplicationRequirementProviderFamily::Llm,
            ApplicationRequirement::McpAppsPorts => ApplicationRequirementProviderFamily::McpApps,
            ApplicationRequirement::McpBearerAuthenticator => ApplicationRequirementProviderFamily::McpAuth,
            ApplicationRequirement::McpCancellationRuntime => ApplicationRequirementProviderFamily::McpTasks,
            ApplicationRequirement::McpCapabilityExecutor => ApplicationRequirementProviderFamily::McpTasks,
            ApplicationRequirement::McpCapabilityRegistry => ApplicationRequirementProviderFamily::McpCore,
            ApplicationRequirement::McpEnterprisePorts => ApplicationRequirementProviderFamily::McpEnterprise,
            ApplicationRequirement::McpSubscriptionAuthorizer => ApplicationRequirementProviderFamily::McpSubscriptions,
            ApplicationRequirement::McpSubscriptionDelivery => ApplicationRequirementProviderFamily::McpSubscriptions,
            ApplicationRequirement::McpSubscriptionRepository => ApplicationRequirementProviderFamily::McpSubscriptions,
            ApplicationRequirement::McpSubscriptionRuntime => ApplicationRequirementProviderFamily::McpSubscriptions,
            ApplicationRequirement::McpTaskPayloadProtector => ApplicationRequirementProviderFamily::McpTasks,
            ApplicationRequirement::OutboxPublisher => ApplicationRequirementProviderFamily::Outbox,
            ApplicationRequirement::PrivacyAuthorizer => ApplicationRequirementProviderFamily::Privacy,
            ApplicationRequirement::PrivacyConsentPolicy => ApplicationRequirementProviderFamily::Privacy,
            ApplicationRequirement::PrivacyInventoryAdapters => ApplicationRequirementProviderFamily::Privacy,
            ApplicationRequirement::PrivacyInventoryManifest => ApplicationRequirementProviderFamily::Privacy,
            ApplicationRequirement::PrivacyLifecycleHandler => ApplicationRequirementProviderFamily::Privacy,
            ApplicationRequirement::PrivacyModerationPolicy => ApplicationRequirementProviderFamily::Privacy,
            ApplicationRequirement::RealtimeEventHandler => ApplicationRequirementProviderFamily::Realtime,
            ApplicationRequirement::RealtimeFanoutAuthorizer => ApplicationRequirementProviderFamily::Realtime,
            ApplicationRequirement::RealtimeIdentityRevalidator => ApplicationRequirementProviderFamily::Realtime,
            ApplicationRequirement::SchedulerEnvelopeFactory => ApplicationRequirementProviderFamily::Scheduler,
            ApplicationRequirement::SearchIndexSchema => ApplicationRequirementProviderFamily::Search,
            ApplicationRequirement::SearchProjectionResolver => ApplicationRequirementProviderFamily::Search,
            ApplicationRequirement::SearchReauthorizer => ApplicationRequirementProviderFamily::Search,
            ApplicationRequirement::UploadsAuthorization => ApplicationRequirementProviderFamily::Uploads,
            ApplicationRequirement::UploadsWorkflow => ApplicationRequirementProviderFamily::Uploads,
            ApplicationRequirement::WebhooksInboundHandlers => ApplicationRequirementProviderFamily::WebhooksInbound,
            ApplicationRequirement::WebhooksInboundProviderAdapters => ApplicationRequirementProviderFamily::WebhooksInbound,
            ApplicationRequirement::WebhooksSvixReplayAdmission => ApplicationRequirementProviderFamily::WebhooksSvix,
        }
    }

    /// Returns the name of this requirement in generated code.
    pub fn rust_variant(&self) -> (variant: &'static str)
        ensures
            variant@ == self.variant(),
    {
        match *self {
            ApplicationRequirement::AdminAuthorityResolver => "AdminAuthorityResolver",
            ApplicationRequirement::AdminOperationHandler => "AdminOperationHandler",
            ApplicationRequirement::AuthAuthenticatedRuntime => "AuthAuthenticatedRuntime",
            ApplicationRequirement::AuthRedisSessionRuntime => "AuthRedisSessionRuntime",
            ApplicationRequirement::AuthOidcRuntime => "AuthOidcRuntime",
            ApplicationRequirement::AuthOauthRuntime => "AuthOauthRuntime",
            ApplicationRequirement::AuthWebAuthnRuntime => "AuthWebAuthnRuntime",
            ApplicationRequirement::AuthTotpRuntime => "AuthTotpRuntime",
            ApplicationRequirement::BillingProvider => "BillingProvider",
            ApplicationRequirement::FeatureFlagsExposureRecorder => "FeatureFlagsExposureRecorder",
            ApplicationRequirement::FeatureFlagsProvider => "FeatureFlagsProvider",
            ApplicationRequirement::GraphqlRequestDataInjector => "GraphqlRequestDataInjector",
            ApplicationRequirement::GraphqlSchema => "GraphqlSchema",
            ApplicationRequirement::GrpcApplicationService => "GrpcApplicationService",
            ApplicationRequirement::GrpcAuthenticator => "GrpcAuthenticator",
            ApplicationRequirement::GrpcMethodPolicies => "GrpcMethodPolicies",
            ApplicationRequirement::InboxConsumers => "InboxConsumers",
            ApplicationRequirement::JobsHandlers => "JobsHandlers",
            ApplicationRequirement::LlmEvaluationRepository => "LlmEvaluationRepository",
            ApplicationRequirement::LlmMediaAuthorization => "LlmMediaAuthorization",
            ApplicationRequirement::LlmMediaScanner => "LlmMediaScanner",
            ApplicationRequirement::LlmToolAudit => "LlmToolAudit",
            ApplicationRequirement::LlmToolAuthorization => "LlmToolAuthorization",
            ApplicationRequirement::McpAppsPorts => "McpAppsPorts",
            ApplicationRequirement::McpBearerAuthenticator => "McpBearerAuthenticator",
            ApplicationRequirement::McpCancellationRuntime => "McpCancellationRuntime",
            ApplicationRequirement::McpCapabilityExecutor => "McpCapabilityExecutor",
            ApplicationRequirement::McpCapabilityRegistry => "McpCapabilityRegistry",
            ApplicationRequirement::McpEnterprisePorts => "McpEnterprisePorts",
            ApplicationRequirement::McpSubscriptionAuthorizer => "McpSubscriptionAuthorizer",
            ApplicationRequirement::McpSubscriptionDelivery => "McpSubscriptionDelivery",
            ApplicationRequirement::McpSubscriptionRepository => "McpSubscriptionRepository",
            ApplicationRequirement::McpSubscriptionRuntime => "McpSubscriptionRuntime",
            ApplicationRequirement::McpTaskPayloadProtector => "McpTaskPayloadProtector",
            ApplicationRequirement::OutboxPublisher => "OutboxPublisher",
            ApplicationRequirement::PrivacyAuthorizer => "PrivacyAuthorizer",
            ApplicationRequirement::PrivacyConsentPolicy => "PrivacyConsentPolicy",
            ApplicationRequirement::PrivacyInventoryAdapters => "PrivacyInventoryAdapters",
            ApplicationRequirement::PrivacyInventoryManifest => "PrivacyInventoryManifest",
            ApplicationRequirement::PrivacyLifecycleHandler => "PrivacyLifecycleHandler",
            ApplicationRequirement::PrivacyModerationPolicy => "PrivacyModerationPolicy",
            ApplicationRequirement::RealtimeEventHandler => "RealtimeEventHandler",
            ApplicationRequirement::RealtimeFanoutAuthorizer => "RealtimeFanoutAuthorizer",
            ApplicationRequirement::RealtimeIdentityRevalidator => "RealtimeIdentityRevalidator",
            ApplicationRequirement::SchedulerEnvelopeFactory => "SchedulerEnvelopeFactory",
            ApplicationRequirement::SearchIndexSchema => "SearchIndexSchema",
            ApplicationRequirement::SearchProjectionResolver => "SearchProjectionResolver",
            ApplicationRequirement::SearchReauthorizer => "SearchReauthorizer",
            ApplicationRequirement::UploadsAuthorization => "UploadsAuthorization",
            ApplicationRequirement::UploadsWorkflow => "UploadsWorkflow",
            ApplicationRequirement::WebhooksInboundHandlers => "WebhooksInboundHandlers",
            ApplicationRequirement::WebhooksInboundProviderAdapters => "WebhooksInboundProviderAdapters",
            ApplicationRequirement::WebhooksSvixReplayAdmission => "WebhooksSvixReplayAdmission",
        }
    }

    /// The requirement at a place.
    pub open spec fn at_place(place: int) -> Self {
        if place == 0 {
            ApplicationRequirement::AdminAuthorityResolver
        } else if place == 1 {
            ApplicationRequirement::AdminOperationHandler
        } else if place == 2 {
            ApplicationRequirement::AuthAuthenticatedRuntime
        } else if place == 3 {
            ApplicationRequirement::AuthRedisSessionRuntime
        } else if place == 4 {
            ApplicationRequirement::AuthOidcRuntime
        } else if place == 5 {
            ApplicationRequirement::AuthOauthRuntime
        } else if place == 6 {
            ApplicationRequirement::AuthWebAuthnRuntime
        } else if place == 7 {
            ApplicationRequirement::AuthTotpRuntime
        } else if place == 8 {
            ApplicationRequirement::BillingProvider
        } else if place == 9 {
            ApplicationRequirement::FeatureFlagsExposureRecorder
        } else if place == 10 {
            ApplicationRequirement::FeatureFlagsProvider
        } else if place == 11 {
            ApplicationRequirement::GraphqlRequestDataInjector
        } else if place == 12 {
            ApplicationRequirement::GraphqlSchema
        } else if place == 13 {
            ApplicationRequirement::GrpcApplicationService
        } else if place == 14 {
            ApplicationRequirement::GrpcAuthenticator
        } else if place == 15 {
            ApplicationRequirement::GrpcMethodPolicies
        } else if place == 16 {
            ApplicationRequirement::InboxConsumers
        } else if place == 17 {
            ApplicationRequirement::JobsHandlers
        } else if place == 18 {
            ApplicationRequirement::LlmEvaluationRepository
        } else if place == 19 {
            ApplicationRequirement::LlmMediaAuthorization
        } else if place == 20 {
            ApplicationRequirement::LlmMediaScanner
        } else if place == 21 {
            ApplicationRequirement::LlmToolAudit
        } else if place == 22 {
            ApplicationRequirement::LlmToolAuthorization
        } else if place == 23 {
            ApplicationRequirement::McpAppsPorts
        } else if place == 24 {
            ApplicationRequirement::McpBearerAuthenticator
        } else if place == 25 {
            ApplicationRequirement::McpCancellationRuntime
        } else if place == 26 {
            ApplicationRequirement::McpCapabilityExecutor
        } else if place == 27 {
            ApplicationRequirement::McpCapabilityRegistry
        } else if place == 28 {
            ApplicationRequirement::McpEnterprisePorts
        } else if place == 29 {
            ApplicationRequirement::McpSubscriptionAuthorizer
        } else if place == 30 {
            ApplicationRequirement::McpSubscriptionDelivery
        } else if place == 31 {
            ApplicationRequirement::McpSubscriptionRepository
        } else if place == 32 {
            ApplicationRequirement::McpSubscriptionRuntime
        } else if place == 33 {
            ApplicationRequirement::McpTaskPayloadProtector
        } else if place == 34 {
            ApplicationRequirement::OutboxPublisher
        } else if place == 35 {
            ApplicationRequirement::PrivacyAuthorizer
        } else if place == 36 {
            ApplicationRequirement::PrivacyConsentPolicy
        } else if place == 37 {
            ApplicationRequirement::PrivacyInventoryAdapters
        } else if place == 38 {
            ApplicationRequirement::PrivacyInventoryManifest
        } else if place == 39 {
            ApplicationRequirement::PrivacyLifecycleHandler
        } else if place == 40 {
            ApplicationRequirement::PrivacyModerationPolicy
        } else if place == 41 {
            ApplicationRequirement::RealtimeEventHandler
        } else if place == 42 {
            ApplicationRequirement::RealtimeFanoutAuthorizer
        } else if place == 43 {
            ApplicationRequirement::RealtimeIdentityRevalidator
        } else if place == 44 {
            ApplicationRequirement::SchedulerEnvelopeFactory
        } else if place == 45 {
            ApplicationRequirement::SearchIndexSchema
        } else if place == 46 {
            ApplicationRequirement::SearchProjectionResolver
        } else if place == 47 {
            ApplicationRequirement::SearchReauthorizer
        } else if place == 48 {
            ApplicationRequirement::UploadsAuthorization
        } else if place == 49 {
            ApplicationRequirement::UploadsWorkflow
        } else if place == 50 {
            ApplicationRequirement::WebhooksInboundHandlers
        } else if place == 51 {
            ApplicationRequirement::WebhooksInboundProviderAdapters
        } else {
            ApplicationRequirement::WebhooksSvixReplayAdmission
        }
    }

    proof fn lemma_place(self)
        ensures
            0 <= self.place() < 53,
            Self::at_place(self.place()) == self,
    {
    }

    fn from_place(place: usize) -> (requirement: Self)
        requires
            place < 53,
        ensures
            requirement == Self::at_place(place as int),
    {
        match place {
            0 => ApplicationRequirement::AdminAuthorityResolver,
            1 => ApplicationRequirement::AdminOperationHandler,
            2 => ApplicationRequirement::AuthAuthenticatedRuntime,
            3 => ApplicationRequirement::AuthRedisSessionRuntime,
            4 => ApplicationRequirement::AuthOidcRuntime,
            5 => ApplicationRequirement::AuthOauthRuntime,
            6 => ApplicationRequirement::AuthWebAuthnRuntime,
            7 => ApplicationRequirement::AuthTotpRuntime,
            8 => ApplicationRequirement::BillingProvider,
            9 => ApplicationRequirement::FeatureFlagsExposureRecorder,
            10 => ApplicationRequirement::FeatureFlagsProvider,
            11 => ApplicationRequirement::GraphqlRequestDataInjector,
            12 => ApplicationRequirement::GraphqlSchema,
            13 => ApplicationRequirement::GrpcApplicationService,
            14 => ApplicationRequirement::GrpcAuthenticator,
            15 => ApplicationRequirement::GrpcMethodPolicies,
            16 => ApplicationRequirement::InboxConsumers,
            17 => ApplicationRequirement::JobsHandlers,
            18 => ApplicationRequirement::LlmEvaluationRepository,
            19 => ApplicationRequirement::LlmMediaAuthorization,
            20 => ApplicationRequirement::LlmMediaScanner,
            21 => ApplicationRequirement::LlmToolAudit,
            22 => ApplicationRequirement::LlmToolAuthorization,
            23 => ApplicationRequirement::McpAppsPorts,
            24 => ApplicationRequirement::McpBearerAuthenticator,
            25 => ApplicationRequirement::McpCancellationRuntime,
            26 => ApplicationRequirement::McpCapabilityExecutor,
            27 => ApplicationRequirement::McpCapabilityRegistry,
            28 => ApplicationRequirement::McpEnterprisePorts,
            29 => ApplicationRequirement::McpSubscriptionAuthorizer,
            30 => ApplicationRequirement::McpSubscriptionDelivery,
            31 => ApplicationRequirement::McpSubscriptionRepository,
            32 => ApplicationRequirement::McpSubscriptionRuntime,
            33 => ApplicationRequirement::McpTaskPayloadProtector,
            34 => ApplicationRequirement::OutboxPublisher,
            35 => ApplicationRequirement::PrivacyAuthorizer,
            36 => ApplicationRequirement::PrivacyConsentPolicy,
            37 => ApplicationRequirement::PrivacyInventoryAdapters,
            38 => ApplicationRequirement::PrivacyInventoryManifest,
            39 => ApplicationRequirement::PrivacyLifecycleHandler,
            40 => ApplicationRequirement::PrivacyModerationPolicy,
            41 => ApplicationRequirement::RealtimeEventHandler,
            42 => ApplicationRequirement::RealtimeFanoutAuthorizer,
            43 => ApplicationRequirement::RealtimeIdentityRevalidator,
            44 => ApplicationRequirement::SchedulerEnvelopeFactory,
            45 => ApplicationRequirement::SearchIndexSchema,
            46 => ApplicationRequirement::SearchProjectionResolver,
            47 => ApplicationRequirement::SearchReauthorizer,
            48 => ApplicationRequirement::UploadsAuthorization,
            49 => ApplicationRequirement::UploadsWorkflow,
            50 => ApplicationRequirement::WebhooksInboundHandlers,
            51 => ApplicationRequirement::WebhooksInboundProviderAdapters,
            _ => ApplicationRequirement::WebhooksSvixReplayAdmission,
        }
    }

    /// Returns every application requirement accepted by the catalog parser and generated
    /// runtime, in order.
    pub fn all() -> (requirements: Vec<Self>)
        ensures
            requirements@.len() == 53,
            forall|requirement: Self|
                0 <= #[trigger] requirement.place() < requirements@.len()
                    && requirements@[requirement.place()] == requirement,
    {
        let mut requirements: Vec<Self> = Vec::new();
        let mut place: usize = 0;
        while place < 53
            invariant
                place <= 53,
                requirements@.len() == place,
                forall|i: int| 0 <= i < place ==> requirements@[i] == Self::at_place(i),
            decreases 53 - place,
        {
            requirements.push(Self::from_place(place));
            place += 1;
        }
        proof {
            assert forall|requirement: Self|
                0 <= #[trigger] requirement.place() < requirements@.len()
                    && requirements@[requirement.place()] == requirement by {
                requirement.lemma_place();
            }
        }
        requirements
    }

    /// Different requirements have different identifiers.
    pub proof fn lemma_ids_distinct(left: Self, right: Self)
        requires
            left.id() == right.id(),
        ensures
            left == right,
    {
        left.lemma_id_code();
        right.lemma_id_code();
    }

    /// A number that tells the identifiers apart.
    spec fn code(id: Seq<char>) -> int {
        if id.len() == 13 {
            17
        } else if id.len() == 14 {
            if id[0] == 'g' {
                12
            } else if id[0] == 'l' {
                21
            } else {
                23
            }
        } else if id.len() == 15 {
            16
        } else if id.len() == 16 {
            if id[0] == 'b' {
                8
            } else if id[0] == 'o' {
                34
            } else {
                49
            }
        } else if id.len() == 17 {
            if id[5] == 'e' {
                20
            } else if id[5] == 'o' {
                4
            } else {
                7
            }
        } else if id.len() == 18 {
            if id[0] == 'a' {
                5
            } else if id[0] == 'g' {
                14
            } else {
                35
            }
        } else if id.len() == 19 {
            if id[7] == 'i' {
                45
            } else {
                47
            }
        } else if id.len() == 20 {
            if id[0] == 'g' {
                15
            } else {
                28
            }
        } else if id.len() == 21 {
            if id[0] == 'a' {
                6
            } else {
                48
            }
        } else if id.len() == 22 {
            if id[0] == 'f' {
                10
            } else if id[0] == 'l' {
                22
            } else if id[0] == 'p' {
                36
            } else {
                41
            }
        } else if id.len() == 23 {
            if id[16] == 'e' {
                27
            } else if id[16] == 'h' {
                1
            } else if id[16] == 'i' {
                19
            } else {
                26
            }
        } else if id.len() == 24 {
            if id[4] == '.' {
                13
            } else if id[4] == 'b' {
                24
            } else if id[4] == 'c' {
                25
            } else if id[4] == 'n' {
                0
            } else {
                32
            }
        } else if id.len() == 25 {
            if id[8] == '-' {
                50
            } else if id[8] == 'c' {
                30
            } else if id[8] == 'l' {
                39
            } else if id[8] == 'm' {
                40
            } else {
                18
            }
        } else if id.len() == 26 {
            if id[6] == '.' {
                46
            } else if id[6] == 'e' {
                3
            } else if id[6] == 'l' {
                44
            } else if id[6] == 'm' {
                42
            } else if id[6] == 's' {
                33
            } else if id[6] == 'u' {
                2
            } else {
                if id[18] == 'a' {
                    37
                } else {
                    38
                }
            }
        } else if id.len() == 27 {
            if id[17] == 'a' {
                29
            } else {
                31
            }
        } else if id.len() == 29 {
            if id[0] == 'g' {
                11
            } else {
                43
            }
        } else if id.len() == 30 {
            52
        } else if id.len() == 31 {
            9
        } else if id.len() == 34 {
            51
        } else {
            -1
        }
    }

    proof fn lemma_id_code(self)
        ensures
            Self::code(self.id()) == self.place(),
    {
        match self {
            ApplicationRequirement::AdminAuthorityResolver => {
                reveal_strlit("admin.authority-resolver");
            },
            ApplicationRequirement::AdminOperationHandler => {
                reveal_strlit("admin.operation-handler");
            },
            ApplicationRequirement::AuthAuthenticatedRuntime => {
                reveal_strlit("auth.authenticated-runtime");
            },
            ApplicationRequirement::AuthRedisSessionRuntime => {
                reveal_strlit("auth.redis-session-runtime");
            },
            ApplicationRequirement::AuthOidcRuntime => {
                reveal_strlit("auth-oidc.runtime");
            },
            ApplicationRequirement::AuthOauthRuntime => {
                reveal_strlit("auth.oauth-runtime");
            },
            ApplicationRequirement::AuthWebAuthnRuntime => {
                reveal_strlit("auth-webauthn.runtime");
            },
            ApplicationRequirement::AuthTotpRuntime => {
                reveal_strlit("auth-totp.runtime");
            },
            ApplicationRequirement::BillingProvider => {
                reveal_strlit("billing.provider");
            },
            ApplicationRequirement::FeatureFlagsExposureRecorder => {
                reveal_strlit("feature-flags.exposure-recorder");
            },
            ApplicationRequirement::FeatureFlagsProvider => {
                reveal_strlit("feature-flags.provider");
            },
            ApplicationRequirement::GraphqlRequestDataInjector => {
                reveal_strlit("graphql.request-data-injector");
            },
            ApplicationRequirement::GraphqlSchema => {
                reveal_strlit("graphql.schema");
            },
            ApplicationRequirement::GrpcApplicationService => {
                reveal_strlit("grpc.application-service");
            },
            ApplicationRequirement::GrpcAuthenticator => {
                reveal_strlit("grpc.authenticator");
            },
            ApplicationRequirement::GrpcMethodPolicies => {
                reveal_strlit("grpc.method-policies");
            },
            ApplicationRequirement::InboxConsumers => {
                reveal_strlit("inbox.consumers");
            },
            ApplicationRequirement::JobsHandlers => {
                reveal_strlit("jobs.handlers");
            },
            ApplicationRequirement::LlmEvaluationRepository => {
                reveal_strlit("llm.evaluation-repository");
            },
            ApplicationRequirement::LlmMediaAuthorization => {
                reveal_strlit("llm.media-authorization");
            },
            ApplicationRequirement::LlmMediaScanner => {
                reveal_strlit("llm.media-scanner");
            },
            ApplicationRequirement::LlmToolAudit => {
                reveal_strlit("llm.tool-audit");
            },
            ApplicationRequirement::LlmToolAuthorization => {
                reveal_strlit("llm.tool-authorization");
            },
            ApplicationRequirement::McpAppsPorts => {
                reveal_strlit("mcp.apps-ports");
            },
            ApplicationRequirement::McpBearerAuthenticator => {
                reveal_strlit("mcp.bearer-authenticator");
            },
            ApplicationRequirement::McpCancellationRuntime => {
                reveal_strlit("mcp.cancellation-runtime");
            },
            ApplicationRequirement::McpCapabilityExecutor => {
                reveal_strlit("mcp.capability-executor");
            },
            ApplicationRequirement::McpCapabilityRegistry => {
                reveal_strlit("mcp.capability-registry");
            },
            ApplicationRequirement::McpEnterprisePorts => {
                reveal_strlit("mcp.enterprise-ports");
            },
            ApplicationRequirement::McpSubscriptionAuthorizer => {
                reveal_strlit("mcp.subscription-authorizer");
            },
            ApplicationRequirement::McpSubscriptionDelivery => {
                reveal_strlit("mcp.subscription-delivery");
            },
            ApplicationRequirement::McpSubscriptionRepository => {
                reveal_strlit("mcp.subscription-repository");
            },
            ApplicationRequirement::McpSubscriptionRuntime => {
                reveal_strlit("mcp.subscription-runtime");
            },
            ApplicationRequirement::McpTaskPayloadProtector => {
                reveal_strlit("mcp.task-payload-protector");
            },
            ApplicationRequirement::OutboxPublisher => {
                reveal_strlit("outbox.publisher");
            },
            ApplicationRequirement::PrivacyAuthorizer => {
                reveal_strlit("privacy.authorizer");
            },
            ApplicationRequirement::PrivacyConsentPolicy => {
                reveal_strlit("privacy.consent-policy");
            },
            ApplicationRequirement::PrivacyInventoryAdapters => {
                reveal_strlit("privacy.inventory-adapters");
            },
            ApplicationRequirement::PrivacyInventoryManifest => {
                reveal_strlit("privacy.inventory-manifest");
            },
            ApplicationRequirement::PrivacyLifecycleHandler => {
                reveal_strlit("privacy.lifecycle-handler");
            },
            ApplicationRequirement::PrivacyModerationPolicy => {
                reveal_strlit("privacy.moderation-policy");
            },
            ApplicationRequirement::RealtimeEventHandler => {
                reveal_strlit("realtime.event-handler");
            },
            ApplicationRequirement::RealtimeFanoutAuthorizer => {
                reveal_strlit("realtime.fanout-authorizer");
            },
            ApplicationRequirement::RealtimeIdentityRevalidator => {
                reveal_strlit("realtime.identity-revalidator");
            },
            ApplicationRequirement::SchedulerEnvelopeFactory => {
                reveal_strlit("scheduler.envelope-factory");
            },
            ApplicationRequirement::SearchIndexSchema => {
                reveal_strlit("search.index-schema");
            },
            ApplicationRequirement::SearchProjectionResolver => {
                reveal_strlit("search.projection-resolver");
            },
            ApplicationRequirement::SearchReauthorizer => {
                reveal_strlit("search.reauthorizer");
            },
            ApplicationRequirement::UploadsAuthorization => {
                reveal_strlit("uploads.authorization");
            },
            ApplicationRequirement::UploadsWorkflow => {
                reveal_strlit("uploads.workflow");
            },
            ApplicationRequirement::WebhooksInboundHandlers => {
                reveal_strlit("webhooks-inbound.handlers");
            },
            ApplicationRequirement::WebhooksInboundProviderAdapters => {
                reveal_strlit("webhooks-inbound.provider-adapters");
            },
            ApplicationRequirement::WebhooksSvixReplayAdmission => {
                reveal_strlit("webhooks-svix.replay-admission");
            },
        }
    }

    /// Reads a canonical identifier; no other spelling is accepted.
    pub fn parse(value: &str) -> (result: Result<Self, CatalogError>)
        ensures
            match result {
                Ok(requirement) => requirement.id() == value@,
                Err(error) => (forall|requirement: Self| #[trigger] requirement.id() != value@)
                    && error.text() == "unknown application requirement `"@ + value@ + "`"@,
            },
    {
        let all = Self::all();
        let mut index: usize = 0;
        while index < all.len()
            invariant
                index <= all@.len(),
                forall|i: int| 0 <= i < index ==> (#[trigger] all@[i]).id() != value@,
            decreases all@.len() - index,
        {
            let requirement = all[index];
            if same_text(requirement.as_str(), value) {
                return Ok(requirement);
            }
            index += 1;
        }
        proof {
            assert forall|requirement: Self| #[trigger] requirement.id() != value@ by {
                assert(all@[requirement.place()] == requirement);
            }
        }
        Err(CatalogError::new(join3("unknown application requirement `", value, "`")))
    }

    /// Reading the identifier of a requirement gives that requirement.
    pub proof fn lemma_parse_of_id(requirement: Self, parsed: Self)
        requires
            parsed.id() == requirement.id(),
        ensures
            parsed == requirement,
    {
        Self::lemma_ids_distinct(parsed, requirement);
    }
}

impl std::str::FromStr for ApplicationRequirement {
    type Err = CatalogError;

    fn from_str(value: &str) -> (result: Result<Self, CatalogError>) {
        ApplicationRequirement::parse(value)
    }
}

} // verus!
