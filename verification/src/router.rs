//! The HTTP surface: which handler answers which method and path, how the operations are
//! grouped in the API document, and what the surface answers by itself.

use crate::ids;
use crate::text;
use vstd::prelude::*;

verus! {

#[derive(Debug, Clone, Copy, PartialEq, Eq, Structural)]
pub enum Method {
    Get,
    Post,
    Put,
    Delete,
}

/// The operations of the API.
#[derive(Debug, Clone, Copy, PartialEq, Eq, Structural)]
pub enum Handler {
    Healthz,
    Readyz,
    Metrics,
    Openapi,
    Jwks,
    OpenidConfiguration,
    Login,
    OauthLoginRedirect,
    OauthCallback,
    Logout,
    Me,
    ListBindings,
    PutBinding,
    DeleteBinding,
    ImportBindings,
    ListProjects,
    ListRepoRuns,
    CreateRun,
    ListRuns,
    GetRun,
    GetEvents,
    GetLogs,
    RerunStep,
    RetryStep,
    CancelRun,
    ListArtifacts,
    DownloadArtifact,
    GetStepLogs,
    GetServices,
    GetServiceLogs,
    AttachStep,
    DebugPodStep,
    ListWorkspace,
    GetWorkspaceFile,
    ApproveGate,
    ReleaseGateExternal,
    GetStepResults,
    IngestStepResults,
    GetAttemptConsumed,
    PutSecret,
    ListSecrets,
    DeleteSecret,
    ListEnvironments,
    PutEnvironment,
    GetEnvironment,
    DeleteEnvironment,
    ListDeployments,
    ListConnections,
    CreateConnection,
    DeleteConnection,
    ResyncConnection,
    ConnectionPreflight,
    AvailableRepos,
    BindRepo,
    UnbindRepo,
    RegisterRepoWebhook,
    SecretMatrix,
    SilenceSecretCell,
    UnsilenceSecretCell,
    ListRefs,
    ListPipelines,
    PipelineInterface,
    Dispatch,
    GithubWebhook,
    ForgejoWebhook,
}

impl Handler {
    /// The method of an operation.
    pub open spec fn verb(self) -> Method {
        match self {
            Handler::Login | Handler::Logout | Handler::ImportBindings | Handler::CreateRun
            | Handler::RerunStep | Handler::RetryStep | Handler::CancelRun | Handler::ApproveGate
            | Handler::ReleaseGateExternal | Handler::IngestStepResults | Handler::PutSecret
            | Handler::CreateConnection | Handler::ResyncConnection | Handler::BindRepo
            | Handler::RegisterRepoWebhook | Handler::Dispatch | Handler::GithubWebhook
            | Handler::ForgejoWebhook => Method::Post,
            Handler::PutBinding | Handler::PutEnvironment | Handler::SilenceSecretCell => Method::Put,
            Handler::DeleteBinding | Handler::DeleteSecret | Handler::DeleteEnvironment
            | Handler::DeleteConnection | Handler::UnbindRepo | Handler::UnsilenceSecretCell => Method::Delete,
            _ => Method::Get,
        }
    }

    /// The path of an operation, its parameters in braces.
    pub open spec fn pattern(self) -> Seq<char> {
        match self {
            Handler::Healthz => "/healthz"@,
            Handler::Readyz => "/readyz"@,
            Handler::Metrics => "/metrics"@,
            Handler::Openapi => "/openapi.json"@,
            Handler::Jwks => "/.well-known/jwks.json"@,
            Handler::OpenidConfiguration => "/.well-known/openid-configuration"@,
            Handler::Login => "/v1/auth/login"@,
            Handler::OauthLoginRedirect => "/v1/auth/login"@,
            Handler::OauthCallback => "/v1/auth/callback"@,
            Handler::Logout => "/v1/auth/logout"@,
            Handler::Me => "/v1/me"@,
            Handler::ListBindings => "/v1/orgs/{org}/bindings"@,
            Handler::PutBinding => "/v1/orgs/{org}/bindings"@,
            Handler::DeleteBinding => "/v1/orgs/{org}/bindings"@,
            Handler::ImportBindings => "/v1/repos/{org}/{repo}/bindings/import"@,
            Handler::ListProjects => "/v1/repos"@,
            Handler::ListRepoRuns => "/v1/repos/{org}/{repo}/runs"@,
            Handler::CreateRun => "/v1/runs"@,
            Handler::ListRuns => "/v1/runs"@,
            Handler::GetRun => "/v1/runs/{id}"@,
            Handler::GetEvents => "/v1/runs/{id}/events"@,
            Handler::GetLogs => "/v1/runs/{id}/logs"@,
            Handler::RerunStep => "/v1/runs/{id}/steps/{step}/rerun"@,
            Handler::RetryStep => "/v1/runs/{id}/steps/{step}/retry"@,
            Handler::CancelRun => "/v1/runs/{id}/cancel"@,
            Handler::ListArtifacts => "/v1/runs/{id}/artifacts"@,
            Handler::DownloadArtifact => "/v1/runs/{id}/artifacts/{*name}"@,
            Handler::GetStepLogs => "/v1/runs/{id}/steps/{step}/logs"@,
            Handler::GetServices => "/v1/runs/{id}/services"@,
            Handler::GetServiceLogs => "/v1/runs/{id}/services/{service}/logs"@,
            Handler::AttachStep => "/v1/runs/{id}/steps/{step}/attach"@,
            Handler::DebugPodStep => "/v1/runs/{id}/steps/{step}/debug-pod"@,
            Handler::ListWorkspace => "/v1/runs/{id}/steps/{step}/workspace"@,
            Handler::GetWorkspaceFile => "/v1/runs/{id}/steps/{step}/workspace/file"@,
            Handler::ApproveGate => "/v1/runs/{id}/gates/{step}/approve"@,
            Handler::ReleaseGateExternal => "/v1/runs/{id}/gates/{step}/release"@,
            Handler::GetStepResults => "/v1/runs/{id}/steps/{step}/results"@,
            Handler::IngestStepResults => "/v1/runs/{id}/steps/{step}/results"@,
            Handler::GetAttemptConsumed => "/v1/runs/{id}/steps/{step}/consumed"@,
            Handler::PutSecret => "/v1/secrets"@,
            Handler::ListSecrets => "/v1/secrets"@,
            Handler::DeleteSecret => "/v1/secrets"@,
            Handler::ListEnvironments => "/v1/repos/{org}/{repo}/environments"@,
            Handler::PutEnvironment => "/v1/repos/{org}/{repo}/environments/{name}"@,
            Handler::GetEnvironment => "/v1/repos/{org}/{repo}/environments/{name}"@,
            Handler::DeleteEnvironment => "/v1/repos/{org}/{repo}/environments/{name}"@,
            Handler::ListDeployments => "/v1/repos/{org}/{repo}/environments/{name}/deployments"@,
            Handler::ListConnections => "/v1/connections"@,
            Handler::CreateConnection => "/v1/connections"@,
            Handler::DeleteConnection => "/v1/connections/{id}"@,
            Handler::ResyncConnection => "/v1/connections/{id}/resync"@,
            Handler::ConnectionPreflight => "/v1/connections/{id}/preflight"@,
            Handler::AvailableRepos => "/v1/connections/{id}/available-repos"@,
            Handler::BindRepo => "/v1/connections/{id}/repos"@,
            Handler::UnbindRepo => "/v1/connections/{id}/repos/{owner}/{name}"@,
            Handler::RegisterRepoWebhook => "/v1/connections/{id}/repos/{owner}/{name}/webhook"@,
            Handler::SecretMatrix => "/v1/repos/{org}/{repo}/secrets/matrix"@,
            Handler::SilenceSecretCell => "/v1/repos/{org}/{repo}/secrets/matrix/silenced"@,
            Handler::UnsilenceSecretCell => "/v1/repos/{org}/{repo}/secrets/matrix/silenced"@,
            Handler::ListRefs => "/v1/repos/{org}/{repo}/refs"@,
            Handler::ListPipelines => "/v1/repos/{org}/{repo}/pipelines"@,
            Handler::PipelineInterface => "/v1/repos/{org}/{repo}/pipelines/{name}/interface"@,
            Handler::Dispatch => "/v1/repos/{org}/{repo}/dispatch"@,
            Handler::GithubWebhook => "/webhooks/github"@,
            Handler::ForgejoWebhook => "/webhooks/forgejo"@,
        }
    }

    /// The place of an operation in the routing table.
    pub open spec fn place(self) -> int {
        match self {
            Handler::Healthz => 0,
            Handler::Readyz => 1,
            Handler::Metrics => 2,
            Handler::Openapi => 3,
            Handler::Jwks => 4,
            Handler::OpenidConfiguration => 5,
            Handler::Login => 6,
            Handler::OauthLoginRedirect => 7,
            Handler::OauthCallback => 8,
            Handler::Logout => 9,
            Handler::Me => 10,
            Handler::ListBindings => 11,
            Handler::PutBinding => 12,
            Handler::DeleteBinding => 13,
            Handler::ImportBindings => 14,
            Handler::ListProjects => 15,
            Handler::ListRepoRuns => 16,
            Handler::CreateRun => 17,
            Handler::ListRuns => 18,
            Handler::GetRun => 19,
            Handler::GetEvents => 20,
            Handler::GetLogs => 21,
            Handler::RerunStep => 22,
            Handler::RetryStep => 23,
            Handler::CancelRun => 24,
            Handler::ListArtifacts => 25,
            Handler::DownloadArtifact => 26,
            Handler::GetStepLogs => 27,
            Handler::GetServices => 28,
            Handler::GetServiceLogs => 29,
            Handler::AttachStep => 30,
            Handler::DebugPodStep => 31,
            Handler::ListWorkspace => 32,
            Handler::GetWorkspaceFile => 33,
            Handler::ApproveGate => 34,
            Handler::ReleaseGateExternal => 35,
            Handler::GetStepResults => 36,
            Handler::IngestStepResults => 37,
            Handler::GetAttemptConsumed => 38,
            Handler::PutSecret => 39,
            Handler::ListSecrets => 40,
            Handler::DeleteSecret => 41,
            Handler::ListEnvironments => 42,
            Handler::PutEnvironment => 43,
            Handler::GetEnvironment => 44,
            Handler::DeleteEnvironment => 45,
            Handler::ListDeployments => 46,
            Handler::ListConnections => 47,
            Handler::CreateConnection => 48,
            Handler::DeleteConnection => 49,
            Handler::ResyncConnection => 50,
            Handler::ConnectionPreflight => 51,
            Handler::AvailableRepos => 52,
            Handler::BindRepo => 53,
            Handler::UnbindRepo => 54,
            Handler::RegisterRepoWebhook => 55,
            Handler::SecretMatrix => 56,
            Handler::SilenceSecretCell => 57,
            Handler::UnsilenceSecretCell => 58,
            Handler::ListRefs => 59,
            Handler::ListPipelines => 60,
            Handler::PipelineInterface => 61,
            Handler::Dispatch => 62,
            Handler::GithubWebhook => 63,
            Handler::ForgejoWebhook => 64,
        }
    }

    /// Whether the API document lists the operation: all but the document itself.
    pub open spec fn documented(self) -> bool {
        self != Handler::Openapi
    }

    pub fn method(self) -> (r: Method)
        ensures
            r == self.verb(),
    {
        match self {
            Handler::Login | Handler::Logout | Handler::ImportBindings | Handler::CreateRun
            | Handler::RerunStep | Handler::RetryStep | Handler::CancelRun | Handler::ApproveGate
            | Handler::ReleaseGateExternal | Handler::IngestStepResults | Handler::PutSecret
            | Handler::CreateConnection | Handler::ResyncConnection | Handler::BindRepo
            | Handler::RegisterRepoWebhook | Handler::Dispatch | Handler::GithubWebhook
            | Handler::ForgejoWebhook => Method::Post,
            Handler::PutBinding | Handler::PutEnvironment | Handler::SilenceSecretCell => Method::Put,
            Handler::DeleteBinding | Handler::DeleteSecret | Handler::DeleteEnvironment
            | Handler::DeleteConnection | Handler::UnbindRepo | Handler::UnsilenceSecretCell => Method::Delete,
            _ => Method::Get,
        }
    }

    pub fn path(self) -> (r: &'static str)
        ensures
            r@ == self.pattern(),
    {
        match self {
            Handler::Healthz => "/healthz",
            Handler::Readyz => "/readyz",
            Handler::Metrics => "/metrics",
            Handler::Openapi => "/openapi.json",
            Handler::Jwks => "/.well-known/jwks.json",
            Handler::OpenidConfiguration => "/.well-known/openid-configuration",
            Handler::Login => "/v1/auth/login",
            Handler::OauthLoginRedirect => "/v1/auth/login",
            Handler::OauthCallback => "/v1/auth/callback",
            Handler::Logout => "/v1/auth/logout",
            Handler::Me => "/v1/me",
            Handler::ListBindings => "/v1/orgs/{org}/bindings",
            Handler::PutBinding => "/v1/orgs/{org}/bindings",
            Handler::DeleteBinding => "/v1/orgs/{org}/bindings",
            Handler::ImportBindings => "/v1/repos/{org}/{repo}/bindings/import",
            Handler::ListProjects => "/v1/repos",
            Handler::ListRepoRuns => "/v1/repos/{org}/{repo}/runs",
            Handler::CreateRun => "/v1/runs",
            Handler::ListRuns => "/v1/runs",
            Handler::GetRun => "/v1/runs/{id}",
            Handler::GetEvents => "/v1/runs/{id}/events",
            Handler::GetLogs => "/v1/runs/{id}/logs",
            Handler::RerunStep => "/v1/runs/{id}/steps/{step}/rerun",
            Handler::RetryStep => "/v1/runs/{id}/steps/{step}/retry",
            Handler::CancelRun => "/v1/runs/{id}/cancel",
            Handler::ListArtifacts => "/v1/runs/{id}/artifacts",
            Handler::DownloadArtifact => "/v1/runs/{id}/artifacts/{*name}",
            Handler::GetStepLogs => "/v1/runs/{id}/steps/{step}/logs",
            Handler::GetServices => "/v1/runs/{id}/services",
            Handler::GetServiceLogs => "/v1/runs/{id}/services/{service}/logs",
            Handler::AttachStep => "/v1/runs/{id}/steps/{step}/attach",
            Handler::DebugPodStep => "/v1/runs/{id}/steps/{step}/debug-pod",
            Handler::ListWorkspace => "/v1/runs/{id}/steps/{step}/workspace",
            Handler::GetWorkspaceFile => "/v1/runs/{id}/steps/{step}/workspace/file",
            Handler::ApproveGate => "/v1/runs/{id}/gates/{step}/approve",
            Handler::ReleaseGateExternal => "/v1/runs/{id}/gates/{step}/release",
            Handler::GetStepResults => "/v1/runs/{id}/steps/{step}/results",
            Handler::IngestStepResults => "/v1/runs/{id}/steps/{step}/results",
            Handler::GetAttemptConsumed => "/v1/runs/{id}/steps/{step}/consumed",
            Handler::PutSecret => "/v1/secrets",
            Handler::ListSecrets => "/v1/secrets",
            Handler::DeleteSecret => "/v1/secrets",
            Handler::ListEnvironments => "/v1/repos/{org}/{repo}/environments",
            Handler::PutEnvironment => "/v1/repos/{org}/{repo}/environments/{name}",
            Handler::GetEnvironment => "/v1/repos/{org}/{repo}/environments/{name}",
            Handler::DeleteEnvironment => "/v1/repos/{org}/{repo}/environments/{name}",
            Handler::ListDeployments => "/v1/repos/{org}/{repo}/environments/{name}/deployments",
            Handler::ListConnections => "/v1/connections",
            Handler::CreateConnection => "/v1/connections",
            Handler::DeleteConnection => "/v1/connections/{id}",
            Handler::ResyncConnection => "/v1/connections/{id}/resync",
            Handler::ConnectionPreflight => "/v1/connections/{id}/preflight",
            Handler::AvailableRepos => "/v1/connections/{id}/available-repos",
            Handler::BindRepo => "/v1/connections/{id}/repos",
            Handler::UnbindRepo => "/v1/connections/{id}/repos/{owner}/{name}",
            Handler::RegisterRepoWebhook => "/v1/connections/{id}/repos/{owner}/{name}/webhook",
            Handler::SecretMatrix => "/v1/repos/{org}/{repo}/secrets/matrix",
            Handler::SilenceSecretCell => "/v1/repos/{org}/{repo}/secrets/matrix/silenced",
            Handler::UnsilenceSecretCell => "/v1/repos/{org}/{repo}/secrets/matrix/silenced",
            Handler::ListRefs => "/v1/repos/{org}/{repo}/refs",
            Handler::ListPipelines => "/v1/repos/{org}/{repo}/pipelines",
            Handler::PipelineInterface => "/v1/repos/{org}/{repo}/pipelines/{name}/interface",
            Handler::Dispatch => "/v1/repos/{org}/{repo}/dispatch",
            Handler::GithubWebhook => "/webhooks/github",
            Handler::ForgejoWebhook => "/webhooks/forgejo",
        }
    }

    fn at(i: usize) -> (r: Option<Handler>)
        ensures
            match r {
                Some(h) => h.place() == i,
                None => i >= OPERATIONS,
            },
    {
        match i {
            0 => Some(Handler::Healthz),
            1 => Some(Handler::Readyz),
            2 => Some(Handler::Metrics),
            3 => Some(Handler::Openapi),
            4 => Some(Handler::Jwks),
            5 => Some(Handler::OpenidConfiguration),
            6 => Some(Handler::Login),
            7 => Some(Handler::OauthLoginRedirect),
            8 => Some(Handler::OauthCallback),
            9 => Some(Handler::Logout),
            10 => Some(Handler::Me),
            11 => Some(Handler::ListBindings),
            12 => Some(Handler::PutBinding),
            13 => Some(Handler::DeleteBinding),
            14 => Some(Handler::ImportBindings),
            15 => Some(Handler::ListProjects),
            16 => Some(Handler::ListRepoRuns),
            17 => Some(Handler::CreateRun),
            18 => Some(Handler::ListRuns),
            19 => Some(Handler::GetRun),
            20 => Some(Handler::GetEvents),
            21 => Some(Handler::GetLogs),
            22 => Some(Handler::RerunStep),
            23 => Some(Handler::RetryStep),
            24 => Some(Handler::CancelRun),
            25 => Some(Handler::ListArtifacts),
            26 => Some(Handler::DownloadArtifact),
            27 => Some(Handler::GetStepLogs),
            28 => Some(Handler::GetServices),
            29 => Some(Handler::GetServiceLogs),
            30 => Some(Handler::AttachStep),
            31 => Some(Handler::DebugPodStep),
            32 => Some(Handler::ListWorkspace),
            33 => Some(Handler::GetWorkspaceFile),
            34 => Some(Handler::ApproveGate),
            35 => Some(Handler::ReleaseGateExternal),
            36 => Some(Handler::GetStepResults),
            37 => Some(Handler::IngestStepResults),
            38 => Some(Handler::GetAttemptConsumed),
            39 => Some(Handler::PutSecret),
            40 => Some(Handler::ListSecrets),
            41 => Some(Handler::DeleteSecret),
            42 => Some(Handler::ListEnvironments),
            43 => Some(Handler::PutEnvironment),
            44 => Some(Handler::GetEnvironment),
            45 => Some(Handler::DeleteEnvironment),
            46 => Some(Handler::ListDeployments),
            47 => Some(Handler::ListConnections),
            48 => Some(Handler::CreateConnection),
            49 => Some(Handler::DeleteConnection),
            50 => Some(Handler::ResyncConnection),
            51 => Some(Handler::ConnectionPreflight),
            52 => Some(Handler::AvailableRepos),
            53 => Some(Handler::BindRepo),
            54 => Some(Handler::UnbindRepo),
            55 => Some(Handler::RegisterRepoWebhook),
            56 => Some(Handler::SecretMatrix),
            57 => Some(Handler::SilenceSecretCell),
            58 => Some(Handler::UnsilenceSecretCell),
            59 => Some(Handler::ListRefs),
            60 => Some(Handler::ListPipelines),
            61 => Some(Handler::PipelineInterface),
            62 => Some(Handler::Dispatch),
            63 => Some(Handler::GithubWebhook),
            64 => Some(Handler::ForgejoWebhook),
            _ => None,
        }
    }
}

/// The number of operations.
pub const OPERATIONS: usize = 65;

proof fn place_identifies(a: Handler, b: Handler)
    requires
        a.place() == b.place(),
    ensures
        a == b,
{
}

/// The number of characters of an operation's path.
spec fn pattern_length(h: Handler) -> nat {
    match h {
        Handler::Healthz => 8,
        Handler::Readyz => 7,
        Handler::Metrics => 8,
        Handler::Openapi => 13,
        Handler::Jwks => 22,
        Handler::OpenidConfiguration => 33,
        Handler::Login => 14,
        Handler::OauthLoginRedirect => 14,
        Handler::OauthCallback => 17,
        Handler::Logout => 15,
        Handler::Me => 6,
        Handler::ListBindings => 23,
        Handler::PutBinding => 23,
        Handler::DeleteBinding => 23,
        Handler::ImportBindings => 38,
        Handler::ListProjects => 9,
        Handler::ListRepoRuns => 27,
        Handler::CreateRun => 8,
        Handler::ListRuns => 8,
        Handler::GetRun => 13,
        Handler::GetEvents => 20,
        Handler::GetLogs => 18,
        Handler::RerunStep => 32,
        Handler::RetryStep => 32,
        Handler::CancelRun => 20,
        Handler::ListArtifacts => 23,
        Handler::DownloadArtifact => 31,
        Handler::GetStepLogs => 31,
        Handler::GetServices => 22,
        Handler::GetServiceLogs => 37,
        Handler::AttachStep => 33,
        Handler::DebugPodStep => 36,
        Handler::ListWorkspace => 36,
        Handler::GetWorkspaceFile => 41,
        Handler::ApproveGate => 34,
        Handler::ReleaseGateExternal => 34,
        Handler::GetStepResults => 34,
        Handler::IngestStepResults => 34,
        Handler::GetAttemptConsumed => 35,
        Handler::PutSecret => 11,
        Handler::ListSecrets => 11,
        Handler::DeleteSecret => 11,
        Handler::ListEnvironments => 35,
        Handler::PutEnvironment => 42,
        Handler::GetEnvironment => 42,
        Handler::DeleteEnvironment => 42,
        Handler::ListDeployments => 54,
        Handler::ListConnections => 15,
        Handler::CreateConnection => 15,
        Handler::DeleteConnection => 20,
        Handler::ResyncConnection => 27,
        Handler::ConnectionPreflight => 30,
        Handler::AvailableRepos => 36,
        Handler::BindRepo => 26,
        Handler::UnbindRepo => 41,
        Handler::RegisterRepoWebhook => 49,
        Handler::SecretMatrix => 37,
        Handler::SilenceSecretCell => 46,
        Handler::UnsilenceSecretCell => 46,
        Handler::ListRefs => 27,
        Handler::ListPipelines => 32,
        Handler::PipelineInterface => 49,
        Handler::Dispatch => 31,
        Handler::GithubWebhook => 16,
        Handler::ForgejoWebhook => 17,
    }
}

proof fn patterns_have_their_length(h: Handler)
    ensures
        h.pattern().len() == pattern_length(h),
{
    match h {
        Handler::Healthz => {
            reveal_strlit("/healthz");
        },
        Handler::Readyz => {
            reveal_strlit("/readyz");
        },
        Handler::Metrics => {
            reveal_strlit("/metrics");
        },
        Handler::Openapi => {
            reveal_strlit("/openapi.json");
        },
        Handler::Jwks => {
            reveal_strlit("/.well-known/jwks.json");
        },
        Handler::OpenidConfiguration => {
            reveal_strlit("/.well-known/openid-configuration");
        },
        Handler::Login => {
            reveal_strlit("/v1/auth/login");
        },
        Handler::OauthLoginRedirect => {
            reveal_strlit("/v1/auth/login");
        },
        Handler::OauthCallback => {
            reveal_strlit("/v1/auth/callback");
        },
        Handler::Logout => {
            reveal_strlit("/v1/auth/logout");
        },
        Handler::Me => {
            reveal_strlit("/v1/me");
        },
        Handler::ListBindings => {
            reveal_strlit("/v1/orgs/{org}/bindings");
        },
        Handler::PutBinding => {
            reveal_strlit("/v1/orgs/{org}/bindings");
        },
        Handler::DeleteBinding => {
            reveal_strlit("/v1/orgs/{org}/bindings");
        },
        Handler::ImportBindings => {
            reveal_strlit("/v1/repos/{org}/{repo}/bindings/import");
        },
        Handler::ListProjects => {
            reveal_strlit("/v1/repos");
        },
        Handler::ListRepoRuns => {
            reveal_strlit("/v1/repos/{org}/{repo}/runs");
        },
        Handler::CreateRun => {
            reveal_strlit("/v1/runs");
        },
        Handler::ListRuns => {
            reveal_strlit("/v1/runs");
        },
        Handler::GetRun => {
            reveal_strlit("/v1/runs/{id}");
        },
        Handler::GetEvents => {
            reveal_strlit("/v1/runs/{id}/events");
        },
        Handler::GetLogs => {
            reveal_strlit("/v1/runs/{id}/logs");
        },
        Handler::RerunStep => {
            reveal_strlit("/v1/runs/{id}/steps/{step}/rerun");
        },
        Handler::RetryStep => {
            reveal_strlit("/v1/runs/{id}/steps/{step}/retry");
        },
        Handler::CancelRun => {
            reveal_strlit("/v1/runs/{id}/cancel");
        },
        Handler::ListArtifacts => {
            reveal_strlit("/v1/runs/{id}/artifacts");
        },
        Handler::DownloadArtifact => {
            reveal_strlit("/v1/runs/{id}/artifacts/{*name}");
        },
        Handler::GetStepLogs => {
            reveal_strlit("/v1/runs/{id}/steps/{step}/logs");
        },
        Handler::GetServices => {
            reveal_strlit("/v1/runs/{id}/services");
        },
        Handler::GetServiceLogs => {
            reveal_strlit("/v1/runs/{id}/services/{service}/logs");
        },
        Handler::AttachStep => {
            reveal_strlit("/v1/runs/{id}/steps/{step}/attach");
        },
        Handler::DebugPodStep => {
            reveal_strlit("/v1/runs/{id}/steps/{step}/debug-pod");
        },
        Handler::ListWorkspace => {
            reveal_strlit("/v1/runs/{id}/steps/{step}/workspace");
        },
        Handler::GetWorkspaceFile => {
            reveal_strlit("/v1/runs/{id}/steps/{step}/workspace/file");
        },
        Handler::ApproveGate => {
            reveal_strlit("/v1/runs/{id}/gates/{step}/approve");
        },
        Handler::ReleaseGateExternal => {
            reveal_strlit("/v1/runs/{id}/gates/{step}/release");
        },
        Handler::GetStepResults => {
            reveal_strlit("/v1/runs/{id}/steps/{step}/results");
        },
        Handler::IngestStepResults => {
            reveal_strlit("/v1/runs/{id}/steps/{step}/results");
        },
        Handler::GetAttemptConsumed => {
            reveal_strlit("/v1/runs/{id}/steps/{step}/consumed");
        },
        Handler::PutSecret => {
            reveal_strlit("/v1/secrets");
        },
        Handler::ListSecrets => {
            reveal_strlit("/v1/secrets");
        },
        Handler::DeleteSecret => {
            reveal_strlit("/v1/secrets");
        },
        Handler::ListEnvironments => {
            reveal_strlit("/v1/repos/{org}/{repo}/environments");
        },
        Handler::PutEnvironment => {
            reveal_strlit("/v1/repos/{org}/{repo}/environments/{name}");
        },
        Handler::GetEnvironment => {
            reveal_strlit("/v1/repos/{org}/{repo}/environments/{name}");
        },
        Handler::DeleteEnvironment => {
            reveal_strlit("/v1/repos/{org}/{repo}/environments/{name}");
        },
        Handler::ListDeployments => {
            reveal_strlit("/v1/repos/{org}/{repo}/environments/{name}/deployments");
        },
        Handler::ListConnections => {
            reveal_strlit("/v1/connections");
        },
        Handler::CreateConnection => {
            reveal_strlit("/v1/connections");
        },
        Handler::DeleteConnection => {
            reveal_strlit("/v1/connections/{id}");
        },
        Handler::ResyncConnection => {
            reveal_strlit("/v1/connections/{id}/resync");
        },
        Handler::ConnectionPreflight => {
            reveal_strlit("/v1/connections/{id}/preflight");
        },
        Handler::AvailableRepos => {
            reveal_strlit("/v1/connections/{id}/available-repos");
        },
        Handler::BindRepo => {
            reveal_strlit("/v1/connections/{id}/repos");
        },
        Handler::UnbindRepo => {
            reveal_strlit("/v1/connections/{id}/repos/{owner}/{name}");
        },
        Handler::RegisterRepoWebhook => {
            reveal_strlit("/v1/connections/{id}/repos/{owner}/{name}/webhook");
        },
        Handler::SecretMatrix => {
            reveal_strlit("/v1/repos/{org}/{repo}/secrets/matrix");
        },
        Handler::SilenceSecretCell => {
            reveal_strlit("/v1/repos/{org}/{repo}/secrets/matrix/silenced");
        },
        Handler::UnsilenceSecretCell => {
            reveal_strlit("/v1/repos/{org}/{repo}/secrets/matrix/silenced");
        },
        Handler::ListRefs => {
            reveal_strlit("/v1/repos/{org}/{repo}/refs");
        },
        Handler::ListPipelines => {
            reveal_strlit("/v1/repos/{org}/{repo}/pipelines");
        },
        Handler::PipelineInterface => {
            reveal_strlit("/v1/repos/{org}/{repo}/pipelines/{name}/interface");
        },
        Handler::Dispatch => {
            reveal_strlit("/v1/repos/{org}/{repo}/dispatch");
        },
        Handler::GithubWebhook => {
            reveal_strlit("/webhooks/github");
        },
        Handler::ForgejoWebhook => {
            reveal_strlit("/webhooks/forgejo");
        },
    }
}

proof fn equally_long_patterns_differ(a: Handler, b: Handler)
    requires
        a.place() < b.place(),
        a.verb() == b.verb(),
        pattern_length(a) == pattern_length(b),
    ensures
        a.pattern() != b.pattern(),
{
    match (a, b) {
        (Handler::Healthz, Handler::Metrics) => {
            reveal_strlit("/healthz");
            reveal_strlit("/metrics");
            assert(a.pattern()[1] != b.pattern()[1]);
        },
        (Handler::Healthz, Handler::ListRuns) => {
            reveal_strlit("/healthz");
            reveal_strlit("/v1/runs");
            assert(a.pattern()[1] != b.pattern()[1]);
        },
        (Handler::Metrics, Handler::ListRuns) => {
            reveal_strlit("/metrics");
            reveal_strlit("/v1/runs");
            assert(a.pattern()[1] != b.pattern()[1]);
        },
        (Handler::Openapi, Handler::GetRun) => {
            reveal_strlit("/openapi.json");
            reveal_strlit("/v1/runs/{id}");
            assert(a.pattern()[1] != b.pattern()[1]);
        },
        (Handler::Jwks, Handler::GetServices) => {
            reveal_strlit("/.well-known/jwks.json");
            reveal_strlit("/v1/runs/{id}/services");
            assert(a.pattern()[1] != b.pattern()[1]);
        },
        (Handler::OpenidConfiguration, Handler::AttachStep) => {
            reveal_strlit("/.well-known/openid-configuration");
            reveal_strlit("/v1/runs/{id}/steps/{step}/attach");
            assert(a.pattern()[1] != b.pattern()[1]);
        },
        (Handler::Logout, Handler::CreateConnection) => {
            reveal_strlit("/v1/auth/logout");
            reveal_strlit("/v1/connections");
            assert(a.pattern()[4] != b.pattern()[4]);
        },
        (Handler::ListBindings, Handler::ListArtifacts) => {
            reveal_strlit("/v1/orgs/{org}/bindings");
            reveal_strlit("/v1/runs/{id}/artifacts");
            assert(a.pattern()[4] != b.pattern()[4]);
        },
        (Handler::ListRepoRuns, Handler::ListRefs) => {
            reveal_strlit("/v1/repos/{org}/{repo}/runs");
            reveal_strlit("/v1/repos/{org}/{repo}/refs");
            assert(a.pattern()[24] != b.pattern()[24]);
        },
        (Handler::RerunStep, Handler::RetryStep) => {
            reveal_strlit("/v1/runs/{id}/steps/{step}/rerun");
            reveal_strlit("/v1/runs/{id}/steps/{step}/retry");
            assert(a.pattern()[29] != b.pattern()[29]);
        },
        (Handler::DownloadArtifact, Handler::GetStepLogs) => {
            reveal_strlit("/v1/runs/{id}/artifacts/{*name}");
            reveal_strlit("/v1/runs/{id}/steps/{step}/logs");
            assert(a.pattern()[14] != b.pattern()[14]);
        },
        (Handler::GetServiceLogs, Handler::SecretMatrix) => {
            reveal_strlit("/v1/runs/{id}/services/{service}/logs");
            reveal_strlit("/v1/repos/{org}/{repo}/secrets/matrix");
            assert(a.pattern()[5] != b.pattern()[5]);
        },
        (Handler::DebugPodStep, Handler::ListWorkspace) => {
            reveal_strlit("/v1/runs/{id}/steps/{step}/debug-pod");
            reveal_strlit("/v1/runs/{id}/steps/{step}/workspace");
            assert(a.pattern()[27] != b.pattern()[27]);
        },
        (Handler::DebugPodStep, Handler::AvailableRepos) => {
            reveal_strlit("/v1/runs/{id}/steps/{step}/debug-pod");
            reveal_strlit("/v1/connections/{id}/available-repos");
            assert(a.pattern()[4] != b.pattern()[4]);
        },
        (Handler::ListWorkspace, Handler::AvailableRepos) => {
            reveal_strlit("/v1/runs/{id}/steps/{step}/workspace");
            reveal_strlit("/v1/connections/{id}/available-repos");
            assert(a.pattern()[4] != b.pattern()[4]);
        },
        (Handler::ApproveGate, Handler::ReleaseGateExternal) => {
            reveal_strlit("/v1/runs/{id}/gates/{step}/approve");
            reveal_strlit("/v1/runs/{id}/gates/{step}/release");
            assert(a.pattern()[27] != b.pattern()[27]);
        },
        (Handler::ApproveGate, Handler::IngestStepResults) => {
            reveal_strlit("/v1/runs/{id}/gates/{step}/approve");
            reveal_strlit("/v1/runs/{id}/steps/{step}/results");
            assert(a.pattern()[14] != b.pattern()[14]);
        },
        (Handler::ReleaseGateExternal, Handler::IngestStepResults) => {
            reveal_strlit("/v1/runs/{id}/gates/{step}/release");
            reveal_strlit("/v1/runs/{id}/steps/{step}/results");
            assert(a.pattern()[14] != b.pattern()[14]);
        },
        (Handler::GetAttemptConsumed, Handler::ListEnvironments) => {
            reveal_strlit("/v1/runs/{id}/steps/{step}/consumed");
            reveal_strlit("/v1/repos/{org}/{repo}/environments");
            assert(a.pattern()[5] != b.pattern()[5]);
        },
        _ => {},
    }
}

/// No two operations are asked for in the same way.
pub proof fn operations_do_not_overlap(a: Handler, b: Handler)
    requires
        a.verb() == b.verb(),
        a.pattern() == b.pattern(),
    ensures
        a == b,
{
    patterns_have_their_length(a);
    patterns_have_their_length(b);
    if a.place() < b.place() {
        equally_long_patterns_differ(a, b);
    } else if b.place() < a.place() {
        equally_long_patterns_differ(b, a);
    } else {
        place_identifies(a, b);
    }
}

/// One entry of the routing table.
#[derive(Debug, Clone, Copy)]
pub struct Route {
    pub method: Method,
    pub path: &'static str,
    pub handler: Handler,
}

/// The route leads to its operation by the operation's own method and path.
pub open spec fn canonical_route(r: Route) -> bool {
    r.method == r.handler.verb() && r.path@ == r.handler.pattern()
}

/// The route is the deprecated way to ask for a rerun.
pub open spec fn alias_route(r: Route) -> bool {
    r.method == Method::Post && r.path@ == "/v1/runs/{id}/steps/{step}/restart"@ && r.handler == Handler::RerunStep
}

/// Whether the API document describes a route: all but the document's own and the deprecated way
/// to ask for a rerun.
pub fn is_documented(route: &Route) -> (r: bool)
    ensures
        r == !(route.handler is Openapi || alias_route(*route)),
{
    match (route.handler, route.method) {
        (Handler::Openapi, _) => false,
        (Handler::RerunStep, Method::Post) => !text::str_eq(route.path, "/v1/runs/{id}/steps/{step}/restart"),
        _ => true,
    }
}

/// The routing table: every operation is served once by its own method and path, and the one
/// further entry is the deprecated way to ask for a rerun.
pub fn routes() -> (r: Vec<Route>)
    ensures
        r@.len() == OPERATIONS + 1,
        forall|h: Handler|
            #![trigger h.place()]
            0 <= h.place() < OPERATIONS && r@[h.place()].handler == h && canonical_route(r@[h.place()]),
        forall|i: int| 0 <= i < OPERATIONS ==> (#[trigger] r@[i]).handler.place() == i,
        alias_route(r@[OPERATIONS as int]),
{
    let mut out: Vec<Route> = Vec::new();
    let mut i: usize = 0;
    loop
        invariant
            i == out@.len(),
            i <= OPERATIONS,
            forall|j: int| 0 <= j < i ==> canonical_route(#[trigger] out@[j]) && out@[j].handler.place() == j,
        ensures
            i == OPERATIONS,
        decreases OPERATIONS - i,
    {
        match Handler::at(i) {
            Some(h) => {
                out.push(Route { method: h.method(), path: h.path(), handler: h });
                i = i + 1;
            },
            None => {
                break;
            },
        }
    }
    let ghost table = out@;
    out.push(Route { method: Method::Post, path: "/v1/runs/{id}/steps/{step}/restart", handler: Handler::RerunStep });
    proof {
        assert forall|h: Handler|
            #![trigger h.place()]
            0 <= h.place() < OPERATIONS && out@[h.place()].handler == h && canonical_route(out@[h.place()]) by {
            let p = h.place();
            assert(out@[p] == table[p]);
            place_identifies(table[p].handler, h);
        }
    }
    out
}

/// The group of an operation, by its path: the first rule that claims the path decides.
pub open spec fn group_of(path: Seq<char>) -> Option<Seq<char>> {
    if text::has_prefix(path, "/webhooks/"@) {
        Some("Webhooks"@)
    } else if text::has_prefix(path, "/v1/connections"@) {
        Some("Forge Connections"@)
    } else if text::has_prefix(path, "/.well-known/"@) || text::has_prefix(path, "/v1/auth/"@) || path == "/v1/me"@
        || text::contains(path, "bindings"@) {
        Some("Auth & Identity"@)
    } else if path == "/healthz"@ || path == "/readyz"@ || path == "/metrics"@ {
        Some("System"@)
    } else if text::contains(path, "/environments"@) {
        Some("Environments"@)
    } else if text::contains(path, "/secrets"@) {
        Some("Secrets"@)
    } else if text::contains(path, "/runs"@) {
        Some("Runs"@)
    } else if text::has_prefix(path, "/v1/repos"@) {
        Some("Repositories"@)
    } else {
        None
    }
}

/// The group that the operations of a path belong to, where a rule claims the path.
pub fn tag_for_path(path: &str) -> (r: Option<&'static str>)
    ensures
        match r {
            Some(g) => group_of(path@) == Some(g@),
            None => group_of(path@) is None,
        },
{
    if text::starts_with(path, "/webhooks/") {
        Some("Webhooks")
    } else if text::starts_with(path, "/v1/connections") {
        Some("Forge Connections")
    } else if text::starts_with(path, "/.well-known/") || text::starts_with(path, "/v1/auth/") || text::str_eq(
        path,
        "/v1/me",
    ) || text::has_substring(path, "bindings") {
        Some("Auth & Identity")
    } else if text::str_eq(path, "/healthz") || text::str_eq(path, "/readyz") || text::str_eq(path, "/metrics") {
        Some("System")
    } else if text::has_substring(path, "/environments") {
        Some("Environments")
    } else if text::has_substring(path, "/secrets") {
        Some("Secrets")
    } else if text::has_substring(path, "/runs") {
        Some("Runs")
    } else if text::starts_with(path, "/v1/repos") {
        Some("Repositories")
    } else {
        None
    }
}

proof fn claimed_by_prefix(path: Seq<char>, p: Seq<char>)
    requires
        p.len() <= path.len(),
        forall|i: int| 0 <= i < p.len() ==> path[i] == p[i],
    ensures
        text::has_prefix(path, p),
{
    assert(path.subrange(0, p.len() as int) =~= p);
}

proof fn claimed_by_piece(path: Seq<char>, p: Seq<char>, at: int)
    requires
        0 <= at <= path.len() - p.len(),
        forall|i: int| 0 <= i < p.len() ==> path[at + i] == p[i],
    ensures
        text::contains(path, p),
{
    assert(path.subrange(at, at + p.len()) =~= p);
    assert(text::occurs_at(path, p, at));
}

/// Every operation that the API document lists belongs to a group.
pub proof fn every_operation_is_grouped(h: Handler)
    requires
        h.documented(),
    ensures
        group_of(h.pattern()) is Some,
{
    match h {
        Handler::Healthz => {},
        Handler::Readyz => {},
        Handler::Metrics => {},
        Handler::Openapi => {},
        Handler::Jwks => {
            reveal_strlit("/.well-known/jwks.json");
            reveal_strlit("/.well-known/");
            claimed_by_prefix(h.pattern(), "/.well-known/"@);
        },
        Handler::OpenidConfiguration => {
            reveal_strlit("/.well-known/openid-configuration");
            reveal_strlit("/.well-known/");
            claimed_by_prefix(h.pattern(), "/.well-known/"@);
        },
        Handler::Login => {
            reveal_strlit("/v1/auth/login");
            reveal_strlit("/v1/auth/");
            claimed_by_prefix(h.pattern(), "/v1/auth/"@);
        },
        Handler::OauthLoginRedirect => {
            reveal_strlit("/v1/auth/login");
            reveal_strlit("/v1/auth/");
            claimed_by_prefix(h.pattern(), "/v1/auth/"@);
        },
        Handler::OauthCallback => {
            reveal_strlit("/v1/auth/callback");
            reveal_strlit("/v1/auth/");
            claimed_by_prefix(h.pattern(), "/v1/auth/"@);
        },
        Handler::Logout => {
            reveal_strlit("/v1/auth/logout");
            reveal_strlit("/v1/auth/");
            claimed_by_prefix(h.pattern(), "/v1/auth/"@);
        },
        Handler::Me => {},
        Handler::ListBindings => {
            reveal_strlit("/v1/orgs/{org}/bindings");
            reveal_strlit("bindings");
            claimed_by_piece(h.pattern(), "bindings"@, 15);
        },
        Handler::PutBinding => {
            reveal_strlit("/v1/orgs/{org}/bindings");
            reveal_strlit("bindings");
            claimed_by_piece(h.pattern(), "bindings"@, 15);
        },
        Handler::DeleteBinding => {
            reveal_strlit("/v1/orgs/{org}/bindings");
            reveal_strlit("bindings");
            claimed_by_piece(h.pattern(), "bindings"@, 15);
        },
        Handler::ImportBindings => {
            reveal_strlit("/v1/repos/{org}/{repo}/bindings/import");
            reveal_strlit("bindings");
            claimed_by_piece(h.pattern(), "bindings"@, 23);
        },
        Handler::ListProjects => {
            reveal_strlit("/v1/repos");
            reveal_strlit("/v1/repos");
            claimed_by_prefix(h.pattern(), "/v1/repos"@);
        },
        Handler::ListRepoRuns => {
            reveal_strlit("/v1/repos/{org}/{repo}/runs");
            reveal_strlit("/runs");
            claimed_by_piece(h.pattern(), "/runs"@, 22);
        },
        Handler::CreateRun => {
            reveal_strlit("/v1/runs");
            reveal_strlit("/runs");
            claimed_by_piece(h.pattern(), "/runs"@, 3);
        },
        Handler::ListRuns => {
            reveal_strlit("/v1/runs");
            reveal_strlit("/runs");
            claimed_by_piece(h.pattern(), "/runs"@, 3);
        },
        Handler::GetRun => {
            reveal_strlit("/v1/runs/{id}");
            reveal_strlit("/runs");
            claimed_by_piece(h.pattern(), "/runs"@, 3);
        },
        Handler::GetEvents => {
            reveal_strlit("/v1/runs/{id}/events");
            reveal_strlit("/runs");
            claimed_by_piece(h.pattern(), "/runs"@, 3);
        },
        Handler::GetLogs => {
            reveal_strlit("/v1/runs/{id}/logs");
            reveal_strlit("/runs");
            claimed_by_piece(h.pattern(), "/runs"@, 3);
        },
        Handler::RerunStep => {
            reveal_strlit("/v1/runs/{id}/steps/{step}/rerun");
            reveal_strlit("/runs");
            claimed_by_piece(h.pattern(), "/runs"@, 3);
        },
        Handler::RetryStep => {
            reveal_strlit("/v1/runs/{id}/steps/{step}/retry");
            reveal_strlit("/runs");
            claimed_by_piece(h.pattern(), "/runs"@, 3);
        },
        Handler::CancelRun => {
            reveal_strlit("/v1/runs/{id}/cancel");
            reveal_strlit("/runs");
            claimed_by_piece(h.pattern(), "/runs"@, 3);
        },
        Handler::ListArtifacts => {
            reveal_strlit("/v1/runs/{id}/artifacts");
            reveal_strlit("/runs");
            claimed_by_piece(h.pattern(), "/runs"@, 3);
        },
        Handler::DownloadArtifact => {
            reveal_strlit("/v1/runs/{id}/artifacts/{*name}");
            reveal_strlit("/runs");
            claimed_by_piece(h.pattern(), "/runs"@, 3);
        },
        Handler::GetStepLogs => {
            reveal_strlit("/v1/runs/{id}/steps/{step}/logs");
            reveal_strlit("/runs");
            claimed_by_piece(h.pattern(), "/runs"@, 3);
        },
        Handler::GetServices => {
            reveal_strlit("/v1/runs/{id}/services");
            reveal_strlit("/runs");
            claimed_by_piece(h.pattern(), "/runs"@, 3);
        },
        Handler::GetServiceLogs => {
            reveal_strlit("/v1/runs/{id}/services/{service}/logs");
            reveal_strlit("/runs");
            claimed_by_piece(h.pattern(), "/runs"@, 3);
        },
        Handler::AttachStep => {
            reveal_strlit("/v1/runs/{id}/steps/{step}/attach");
            reveal_strlit("/runs");
            claimed_by_piece(h.pattern(), "/runs"@, 3);
        },
        Handler::DebugPodStep => {
            reveal_strlit("/v1/runs/{id}/steps/{step}/debug-pod");
            reveal_strlit("/runs");
            claimed_by_piece(h.pattern(), "/runs"@, 3);
        },
        Handler::ListWorkspace => {
            reveal_strlit("/v1/runs/{id}/steps/{step}/workspace");
            reveal_strlit("/runs");
            claimed_by_piece(h.pattern(), "/runs"@, 3);
        },
        Handler::GetWorkspaceFile => {
            reveal_strlit("/v1/runs/{id}/steps/{step}/workspace/file");
            reveal_strlit("/runs");
            claimed_by_piece(h.pattern(), "/runs"@, 3);
        },
        Handler::ApproveGate => {
            reveal_strlit("/v1/runs/{id}/gates/{step}/approve");
            reveal_strlit("/runs");
            claimed_by_piece(h.pattern(), "/runs"@, 3);
        },
        Handler::ReleaseGateExternal => {
            reveal_strlit("/v1/runs/{id}/gates/{step}/release");
            reveal_strlit("/runs");
            claimed_by_piece(h.pattern(), "/runs"@, 3);
        },
        Handler::GetStepResults => {
            reveal_strlit("/v1/runs/{id}/steps/{step}/results");
            reveal_strlit("/runs");
            claimed_by_piece(h.pattern(), "/runs"@, 3);
        },
        Handler::IngestStepResults => {
            reveal_strlit("/v1/runs/{id}/steps/{step}/results");
            reveal_strlit("/runs");
            claimed_by_piece(h.pattern(), "/runs"@, 3);
        },
        Handler::GetAttemptConsumed => {
            reveal_strlit("/v1/runs/{id}/steps/{step}/consumed");
            reveal_strlit("/runs");
            claimed_by_piece(h.pattern(), "/runs"@, 3);
        },
        Handler::PutSecret => {
            reveal_strlit("/v1/secrets");
            reveal_strlit("/secrets");
            claimed_by_piece(h.pattern(), "/secrets"@, 3);
        },
        Handler::ListSecrets => {
            reveal_strlit("/v1/secrets");
            reveal_strlit("/secrets");
            claimed_by_piece(h.pattern(), "/secrets"@, 3);
        },
        Handler::DeleteSecret => {
            reveal_strlit("/v1/secrets");
            reveal_strlit("/secrets");
            claimed_by_piece(h.pattern(), "/secrets"@, 3);
        },
        Handler::ListEnvironments => {
            reveal_strlit("/v1/repos/{org}/{repo}/environments");
            reveal_strlit("/environments");
            claimed_by_piece(h.pattern(), "/environments"@, 22);
        },
        Handler::PutEnvironment => {
            reveal_strlit("/v1/repos/{org}/{repo}/environments/{name}");
            reveal_strlit("/environments");
            claimed_by_piece(h.pattern(), "/environments"@, 22);
        },
        Handler::GetEnvironment => {
            reveal_strlit("/v1/repos/{org}/{repo}/environments/{name}");
            reveal_strlit("/environments");
            claimed_by_piece(h.pattern(), "/environments"@, 22);
        },
        Handler::DeleteEnvironment => {
            reveal_strlit("/v1/repos/{org}/{repo}/environments/{name}");
            reveal_strlit("/environments");
            claimed_by_piece(h.pattern(), "/environments"@, 22);
        },
        Handler::ListDeployments => {
            reveal_strlit("/v1/repos/{org}/{repo}/environments/{name}/deployments");
            reveal_strlit("/environments");
            claimed_by_piece(h.pattern(), "/environments"@, 22);
        },
        Handler::ListConnections => {
            reveal_strlit("/v1/connections");
            reveal_strlit("/v1/connections");
            claimed_by_prefix(h.pattern(), "/v1/connections"@);
        },
        Handler::CreateConnection => {
            reveal_strlit("/v1/connections");
            reveal_strlit("/v1/connections");
            claimed_by_prefix(h.pattern(), "/v1/connections"@);
        },
        Handler::DeleteConnection => {
            reveal_strlit("/v1/connections/{id}");
            reveal_strlit("/v1/connections");
            claimed_by_prefix(h.pattern(), "/v1/connections"@);
        },
        Handler::ResyncConnection => {
            reveal_strlit("/v1/connections/{id}/resync");
            reveal_strlit("/v1/connections");
            claimed_by_prefix(h.pattern(), "/v1/connections"@);
        },
        Handler::ConnectionPreflight => {
            reveal_strlit("/v1/connections/{id}/preflight");
            reveal_strlit("/v1/connections");
            claimed_by_prefix(h.pattern(), "/v1/connections"@);
        },
        Handler::AvailableRepos => {
            reveal_strlit("/v1/connections/{id}/available-repos");
            reveal_strlit("/v1/connections");
            claimed_by_prefix(h.pattern(), "/v1/connections"@);
        },
        Handler::BindRepo => {
            reveal_strlit("/v1/connections/{id}/repos");
            reveal_strlit("/v1/connections");
            claimed_by_prefix(h.pattern(), "/v1/connections"@);
        },
        Handler::UnbindRepo => {
            reveal_strlit("/v1/connections/{id}/repos/{owner}/{name}");
            reveal_strlit("/v1/connections");
            claimed_by_prefix(h.pattern(), "/v1/connections"@);
        },
        Handler::RegisterRepoWebhook => {
            reveal_strlit("/v1/connections/{id}/repos/{owner}/{name}/webhook");
            reveal_strlit("/v1/connections");
            claimed_by_prefix(h.pattern(), "/v1/connections"@);
        },
        Handler::SecretMatrix => {
            reveal_strlit("/v1/repos/{org}/{repo}/secrets/matrix");
            reveal_strlit("/secrets");
            claimed_by_piece(h.pattern(), "/secrets"@, 22);
        },
        Handler::SilenceSecretCell => {
            reveal_strlit("/v1/repos/{org}/{repo}/secrets/matrix/silenced");
            reveal_strlit("/secrets");
            claimed_by_piece(h.pattern(), "/secrets"@, 22);
        },
        Handler::UnsilenceSecretCell => {
            reveal_strlit("/v1/repos/{org}/{repo}/secrets/matrix/silenced");
            reveal_strlit("/secrets");
            claimed_by_piece(h.pattern(), "/secrets"@, 22);
        },
        Handler::ListRefs => {
            reveal_strlit("/v1/repos/{org}/{repo}/refs");
            reveal_strlit("/v1/repos");
            claimed_by_prefix(h.pattern(), "/v1/repos"@);
        },
        Handler::ListPipelines => {
            reveal_strlit("/v1/repos/{org}/{repo}/pipelines");
            reveal_strlit("/v1/repos");
            claimed_by_prefix(h.pattern(), "/v1/repos"@);
        },
        Handler::PipelineInterface => {
            reveal_strlit("/v1/repos/{org}/{repo}/pipelines/{name}/interface");
            reveal_strlit("/v1/repos");
            claimed_by_prefix(h.pattern(), "/v1/repos"@);
        },
        Handler::Dispatch => {
            reveal_strlit("/v1/repos/{org}/{repo}/dispatch");
            reveal_strlit("/v1/repos");
            claimed_by_prefix(h.pattern(), "/v1/repos"@);
        },
        Handler::GithubWebhook => {
            reveal_strlit("/webhooks/github");
            reveal_strlit("/webhooks/");
            claimed_by_prefix(h.pattern(), "/webhooks/"@);
        },
        Handler::ForgejoWebhook => {
            reveal_strlit("/webhooks/forgejo");
            reveal_strlit("/webhooks/");
            claimed_by_prefix(h.pattern(), "/webhooks/"@);
        },
    }
}

/// A group of operations: its name and what it is about.
#[derive(Debug, Clone, Copy)]
pub struct TagGroup {
    pub name: &'static str,
    pub description: &'static str,
}

/// The names of the groups, in the order in which the document lists them.
pub open spec fn group_names() -> Seq<Seq<char>> {
    seq![
        "Runs"@,
        "Repositories"@,
        "Environments"@,
        "Secrets"@,
        "Webhooks"@,
        "Forge Connections"@,
        "Auth & Identity"@,
        "System"@,
    ]
}

/// What each group is about, in the order of the names.
pub open spec fn group_texts() -> Seq<Seq<char>> {
    seq![
        "Launch, read, cancel, rerun and retry Runs; their events, logs, results, workspace, artifacts and gates."@,
        "The governed repos Scarab knows about, their pipeline catalog, refs, launch interface and manual dispatch."@,
        "Environments and their protection rules, plus deployment history."@,
        "Scoped secrets (org / repo / environment) and the effective-status matrix that resolves them."@,
        "Forge delivery endpoints. Called by the forge, not by clients; each verifies its own signature."@,
        "The ForgeConnections Scarab authenticates to a forge with, and the reconciliation that refreshes what they can see (ADR-0046)."@,
        "Login/session, the current principal, OIDC discovery and JWKS, and RBAC role bindings."@,
        "Liveness, readiness and Prometheus metrics (ADR-0053)."@,
    ]
}

pub open spec fn names_of(groups: Seq<TagGroup>) -> Seq<Seq<char>> {
    groups.map_values(|g: TagGroup| g.name@)
}

pub open spec fn texts_of(groups: Seq<TagGroup>) -> Seq<Seq<char>> {
    groups.map_values(|g: TagGroup| g.description@)
}

/// The curated groups in display order.
pub fn tag_groups() -> (r: Vec<TagGroup>)
    ensures
        names_of(r@) == group_names(),
        texts_of(r@) == group_texts(),
{
    let r = vec![
        TagGroup {
            name: "Runs",
            description: "Launch, read, cancel, rerun and retry Runs; their events, logs, results, workspace, artifacts and gates.",
        },
        TagGroup {
            name: "Repositories",
            description: "The governed repos Scarab knows about, their pipeline catalog, refs, launch interface and manual dispatch.",
        },
        TagGroup {
            name: "Environments",
            description: "Environments and their protection rules, plus deployment history.",
        },
        TagGroup {
            name: "Secrets",
            description: "Scoped secrets (org / repo / environment) and the effective-status matrix that resolves them.",
        },
        TagGroup {
            name: "Webhooks",
            description: "Forge delivery endpoints. Called by the forge, not by clients; each verifies its own signature.",
        },
        TagGroup {
            name: "Forge Connections",
            description: "The ForgeConnections Scarab authenticates to a forge with, and the reconciliation that refreshes what they can see (ADR-0046).",
        },
        TagGroup {
            name: "Auth & Identity",
            description: "Login/session, the current principal, OIDC discovery and JWKS, and RBAC role bindings.",
        },
        TagGroup { name: "System", description: "Liveness, readiness and Prometheus metrics (ADR-0053)." },
    ];
    assert(names_of(r@) =~= group_names());
    assert(texts_of(r@) =~= group_texts());
    r
}

/// A path of the document belongs to the group.
pub open spec fn in_use(paths: Seq<Seq<char>>, group: Seq<char>) -> bool {
    exists|i: int| 0 <= i < paths.len() && group_of(#[trigger] paths[i]) == Some(group)
}

/// The members of `of` at the positions of the names whose group has a path.
pub open spec fn used(paths: Seq<Seq<char>>, names: Seq<Seq<char>>, of: Seq<Seq<char>>) -> Seq<Seq<char>>
    decreases names.len(),
{
    if names.len() == 0 {
        Seq::empty()
    } else if in_use(paths, names.last()) {
        used(paths, names.drop_last(), of).push(of[names.len() - 1])
    } else {
        used(paths, names.drop_last(), of)
    }
}

fn group_in_use(paths: &Vec<String>, group: &str) -> (r: bool)
    ensures
        r == in_use(text::views(paths@), group@),
{
    let mut i: usize = 0;
    while i < paths.len()
        invariant
            i <= paths@.len(),
            forall|j: int| 0 <= j < i ==> group_of(#[trigger] text::views(paths@)[j]) != Some(group@),
        decreases paths@.len() - i,
    {
        assert(text::views(paths@)[i as int] == paths@[i as int]@);
        match tag_for_path(paths[i].as_str()) {
            Some(g) => {
                if text::str_eq(g, group) {
                    return true;
                }
            },
            None => {},
        }
        i = i + 1;
    }
    false
}

/// The groups that the document declares: those with at least one path, in display order, each
/// with what it is about.
pub fn declared_groups(paths: &Vec<String>) -> (r: Vec<TagGroup>)
    ensures
        names_of(r@) == used(text::views(paths@), group_names(), group_names()),
        texts_of(r@) == used(text::views(paths@), group_names(), group_texts()),
{
    let all = tag_groups();
    let mut out: Vec<TagGroup> = Vec::new();
    let mut i: usize = 0;
    assert(names_of(out@) =~= used(text::views(paths@), group_names().take(0), group_names()));
    assert(texts_of(out@) =~= used(text::views(paths@), group_names().take(0), group_texts()));
    while i < all.len()
        invariant
            i <= all@.len(),
            names_of(all@) == group_names(),
            texts_of(all@) == group_texts(),
            names_of(out@) == used(text::views(paths@), group_names().take(i as int), group_names()),
            texts_of(out@) == used(text::views(paths@), group_names().take(i as int), group_texts()),
        decreases all@.len() - i,
    {
        let ghost before = out@;
        let ghost names = group_names().take(i + 1);
        let g = all[i];
        assert(names_of(all@)[i as int] == g.name@);
        assert(texts_of(all@)[i as int] == g.description@);
        assert(names.drop_last() =~= group_names().take(i as int));
        assert(names.last() == g.name@);
        if group_in_use(paths, g.name) {
            out.push(g);
            assert(names_of(out@) =~= names_of(before).push(g.name@));
            assert(texts_of(out@) =~= texts_of(before).push(g.description@));
        }
        i = i + 1;
    }
    assert(group_names().take(i as int) =~= group_names());
    out
}

/// Every group that a path belongs to is one of the curated groups.
pub proof fn groups_are_curated(path: Seq<char>)
    ensures
        group_of(path) matches Some(g) ==> group_names().contains(g),
{
    let names = group_names();
    assert(names[0] == "Runs"@);
    assert(names[1] == "Repositories"@);
    assert(names[2] == "Environments"@);
    assert(names[3] == "Secrets"@);
    assert(names[4] == "Webhooks"@);
    assert(names[5] == "Forge Connections"@);
    assert(names[6] == "Auth & Identity"@);
    assert(names[7] == "System"@);
}

/// A piece of a path that may name a file of the UI.
pub open spec fn ui_piece(s: Seq<char>) -> bool {
    s.len() > 0 && s != "."@ && s != ".."@ && !text::contains(s, seq!['\\'])
}

/// The pieces that may name a file, in their order.
pub open spec fn ui_pieces(pieces: Seq<Seq<char>>) -> Seq<Seq<char>>
    decreases pieces.len(),
{
    if pieces.len() == 0 {
        Seq::empty()
    } else if ui_piece(pieces.last()) {
        ui_pieces(pieces.drop_last()).push(pieces.last())
    } else {
        ui_pieces(pieces.drop_last())
    }
}

/// The names, below the UI's directory, of the file that a path asks for. A piece that could
/// leave the directory is passed over.
pub fn ui_segments(path: &str) -> (r: Vec<String>)
    ensures
        text::views(r@) == ui_pieces(text::split(text::trim_start(path@, '/'), '/')),
{
    let rel = text::trim_start_char(path, '/');
    let pieces = text::split_char(rel.as_str(), '/');
    let ghost all = text::views(pieces@);
    let mut out: Vec<String> = Vec::new();
    let mut i: usize = 0;
    assert(text::views(out@) =~= ui_pieces(all.take(0)));
    while i < pieces.len()
        invariant
            i <= pieces@.len(),
            all == text::views(pieces@),
            text::views(out@) == ui_pieces(all.take(i as int)),
        decreases pieces@.len() - i,
    {
        let ghost before = text::views(out@);
        let p = &pieces[i];
        assert(all.take(i + 1).drop_last() =~= all.take(i as int));
        assert(all.take(i + 1).last() == p@);
        proof {
            reveal_strlit("\\");
            assert("\\"@ =~= seq!['\\']);
        }
        if p.as_str().unicode_len() == 0 || text::str_eq(p.as_str(), ".") || text::str_eq(p.as_str(), "..")
            || text::has_substring(p.as_str(), "\\") {
        } else {
            out.push(p.clone());
            assert(text::views(out@) =~= before.push(p@));
        }
        i = i + 1;
    }
    assert(all.take(i as int) =~= all);
    out
}

/// A request for the UI never leaves the UI's directory: none of the names it leads to is empty,
/// `.` or `..`, and none holds a separator.
pub proof fn ui_paths_stay_inside(path: Seq<char>, i: int)
    requires
        0 <= i < ui_pieces(text::split(path, '/')).len(),
    ensures
        ui_piece(ui_pieces(text::split(path, '/'))[i]),
        !ui_pieces(text::split(path, '/'))[i].contains('/'),
{
    pieces_are_kept_whole(text::split(path, '/'), i);
    let pieces = text::split(path, '/');
    let k = choose|k: int| 0 <= k < pieces.len() && pieces[k] == ui_pieces(pieces)[i];
    text::pieces_hold_no_separator(path, '/', k);
}

proof fn pieces_are_kept_whole(pieces: Seq<Seq<char>>, i: int)
    requires
        0 <= i < ui_pieces(pieces).len(),
    ensures
        ui_piece(ui_pieces(pieces)[i]),
        exists|k: int| 0 <= k < pieces.len() && pieces[k] == ui_pieces(pieces)[i],
    decreases pieces.len(),
{
    let rest = pieces.drop_last();
    if i < ui_pieces(rest).len() {
        pieces_are_kept_whole(rest, i);
        let k = choose|k: int| 0 <= k < rest.len() && rest[k] == ui_pieces(rest)[i];
        assert(pieces[k] == ui_pieces(pieces)[i]);
    } else {
        assert(pieces[pieces.len() - 1] == ui_pieces(pieces)[i]);
    }
}

/// The content type of a UI file, by its extension.
pub open spec fn ui_type(extension: Seq<char>) -> Seq<char> {
    if extension == "html"@ {
        "text/html; charset=utf-8"@
    } else if extension == "js"@ {
        "application/javascript"@
    } else if extension == "css"@ {
        "text/css"@
    } else if extension == "svg"@ {
        "image/svg+xml"@
    } else if extension == "png"@ {
        "image/png"@
    } else if extension == "ico"@ {
        "image/x-icon"@
    } else if extension == "json"@ {
        "application/json"@
    } else if extension == "woff2"@ {
        "font/woff2"@
    } else {
        "application/octet-stream"@
    }
}

/// The content type of a UI file, by its extension.
pub fn ui_content_type(extension: &str) -> (r: &'static str)
    ensures
        r@ == ui_type(extension@),
{
    if text::str_eq(extension, "html") {
        "text/html; charset=utf-8"
    } else if text::str_eq(extension, "js") {
        "application/javascript"
    } else if text::str_eq(extension, "css") {
        "text/css"
    } else if text::str_eq(extension, "svg") {
        "image/svg+xml"
    } else if text::str_eq(extension, "png") {
        "image/png"
    } else if text::str_eq(extension, "ico") {
        "image/x-icon"
    } else if text::str_eq(extension, "json") {
        "application/json"
    } else if text::str_eq(extension, "woff2") {
        "font/woff2"
    } else {
        "application/octet-stream"
    }
}

/// The id that a request is correlated by: the one it brought, or else a fresh one.
pub fn request_id(inbound: Option<String>) -> (r: String)
    ensures
        match inbound {
            Some(id) => r == id,
            None => ids::hyphenated_uuid(r@, '4'),
        },
{
    match inbound {
        Some(id) => id,
        None => ids::uuid_v4(),
    }
}

/// The answer of the readiness probe, from what the database and the object store said: the
/// message of the first that failed, under a status that takes the replica out of rotation.
pub fn readyz(db_failure: Option<String>, store_failure: Option<String>) -> (r: (u16, String))
    ensures
        (r.0, r.1@) == (match (db_failure, store_failure) {
            (Some(e), _) => (503u16, "db: "@ + e@),
            (None, Some(e)) => (503u16, "store: "@ + e@),
            (None, None) => (200u16, "ready"@),
        }),
{
    match db_failure {
        Some(e) => {
            let mut m: String = "db: ".to_owned();
            m.append(e.as_str());
            return (503, m);
        },
        None => {},
    }
    match store_failure {
        Some(e) => {
            let mut m: String = "store: ".to_owned();
            m.append(e.as_str());
            (503, m)
        },
        None => (200, "ready".to_owned()),
    }
}

/// What is done with a run stands below the run.
pub proof fn operations_on_a_run_stand_below_it()
    ensures
        Handler::GetRun.pattern() == "/v1/runs/{id}"@,
        Handler::GetEvents.pattern() == "/v1/runs/{id}"@ + "/events"@,
        Handler::GetLogs.pattern() == "/v1/runs/{id}"@ + "/logs"@,
        Handler::CancelRun.pattern() == "/v1/runs/{id}"@ + "/cancel"@,
        Handler::ListArtifacts.pattern() == "/v1/runs/{id}"@ + "/artifacts"@,
        Handler::DownloadArtifact.pattern() == "/v1/runs/{id}"@ + "/artifacts/{*name}"@,
        Handler::GetServices.pattern() == "/v1/runs/{id}"@ + "/services"@,
        Handler::GetServiceLogs.pattern() == "/v1/runs/{id}"@ + "/services/{service}/logs"@,
        Handler::ApproveGate.pattern() == "/v1/runs/{id}"@ + "/gates/{step}/approve"@,
        Handler::ReleaseGateExternal.pattern() == "/v1/runs/{id}"@ + "/gates/{step}/release"@,
{
    reveal_strlit("/v1/runs/{id}");
    reveal_strlit("/events");
    reveal_strlit("/v1/runs/{id}/events");
    assert("/v1/runs/{id}/events"@ =~= "/v1/runs/{id}"@ + "/events"@);
    reveal_strlit("/logs");
    reveal_strlit("/v1/runs/{id}/logs");
    assert("/v1/runs/{id}/logs"@ =~= "/v1/runs/{id}"@ + "/logs"@);
    reveal_strlit("/cancel");
    reveal_strlit("/v1/runs/{id}/cancel");
    assert("/v1/runs/{id}/cancel"@ =~= "/v1/runs/{id}"@ + "/cancel"@);
    reveal_strlit("/artifacts");
    reveal_strlit("/v1/runs/{id}/artifacts");
    assert("/v1/runs/{id}/artifacts"@ =~= "/v1/runs/{id}"@ + "/artifacts"@);
    reveal_strlit("/artifacts/{*name}");
    reveal_strlit("/v1/runs/{id}/artifacts/{*name}");
    assert("/v1/runs/{id}/artifacts/{*name}"@ =~= "/v1/runs/{id}"@ + "/artifacts/{*name}"@);
    reveal_strlit("/services");
    reveal_strlit("/v1/runs/{id}/services");
    assert("/v1/runs/{id}/services"@ =~= "/v1/runs/{id}"@ + "/services"@);
    reveal_strlit("/services/{service}/logs");
    reveal_strlit("/v1/runs/{id}/services/{service}/logs");
    assert("/v1/runs/{id}/services/{service}/logs"@ =~= "/v1/runs/{id}"@ + "/services/{service}/logs"@);
    reveal_strlit("/gates/{step}/approve");
    reveal_strlit("/v1/runs/{id}/gates/{step}/approve");
    assert("/v1/runs/{id}/gates/{step}/approve"@ =~= "/v1/runs/{id}"@ + "/gates/{step}/approve"@);
    reveal_strlit("/gates/{step}/release");
    reveal_strlit("/v1/runs/{id}/gates/{step}/release");
    assert("/v1/runs/{id}/gates/{step}/release"@ =~= "/v1/runs/{id}"@ + "/gates/{step}/release"@);
}

/// What is done with a step stands below the step, which stands below its run.
pub proof fn operations_on_a_step_stand_below_it()
    ensures
        Handler::RerunStep.pattern() == "/v1/runs/{id}/steps/{step}"@ + "/rerun"@,
        Handler::RetryStep.pattern() == "/v1/runs/{id}/steps/{step}"@ + "/retry"@,
        Handler::GetStepLogs.pattern() == "/v1/runs/{id}/steps/{step}"@ + "/logs"@,
        Handler::AttachStep.pattern() == "/v1/runs/{id}/steps/{step}"@ + "/attach"@,
        Handler::DebugPodStep.pattern() == "/v1/runs/{id}/steps/{step}"@ + "/debug-pod"@,
        Handler::ListWorkspace.pattern() == "/v1/runs/{id}/steps/{step}"@ + "/workspace"@,
        Handler::GetWorkspaceFile.pattern() == "/v1/runs/{id}/steps/{step}"@ + "/workspace/file"@,
        Handler::GetStepResults.pattern() == "/v1/runs/{id}/steps/{step}"@ + "/results"@,
        Handler::IngestStepResults.pattern() == "/v1/runs/{id}/steps/{step}"@ + "/results"@,
        Handler::GetAttemptConsumed.pattern() == "/v1/runs/{id}/steps/{step}"@ + "/consumed"@,
{
    reveal_strlit("/v1/runs/{id}/steps/{step}");
    reveal_strlit("/rerun");
    reveal_strlit("/v1/runs/{id}/steps/{step}/rerun");
    assert("/v1/runs/{id}/steps/{step}/rerun"@ =~= "/v1/runs/{id}/steps/{step}"@ + "/rerun"@);
    reveal_strlit("/retry");
    reveal_strlit("/v1/runs/{id}/steps/{step}/retry");
    assert("/v1/runs/{id}/steps/{step}/retry"@ =~= "/v1/runs/{id}/steps/{step}"@ + "/retry"@);
    reveal_strlit("/logs");
    reveal_strlit("/v1/runs/{id}/steps/{step}/logs");
    assert("/v1/runs/{id}/steps/{step}/logs"@ =~= "/v1/runs/{id}/steps/{step}"@ + "/logs"@);
    reveal_strlit("/attach");
    reveal_strlit("/v1/runs/{id}/steps/{step}/attach");
    assert("/v1/runs/{id}/steps/{step}/attach"@ =~= "/v1/runs/{id}/steps/{step}"@ + "/attach"@);
    reveal_strlit("/debug-pod");
    reveal_strlit("/v1/runs/{id}/steps/{step}/debug-pod");
    assert("/v1/runs/{id}/steps/{step}/debug-pod"@ =~= "/v1/runs/{id}/steps/{step}"@ + "/debug-pod"@);
    reveal_strlit("/workspace");
    reveal_strlit("/v1/runs/{id}/steps/{step}/workspace");
    assert("/v1/runs/{id}/steps/{step}/workspace"@ =~= "/v1/runs/{id}/steps/{step}"@ + "/workspace"@);
    reveal_strlit("/workspace/file");
    reveal_strlit("/v1/runs/{id}/steps/{step}/workspace/file");
    assert("/v1/runs/{id}/steps/{step}/workspace/file"@ =~= "/v1/runs/{id}/steps/{step}"@ + "/workspace/file"@);
    reveal_strlit("/results");
    reveal_strlit("/v1/runs/{id}/steps/{step}/results");
    assert("/v1/runs/{id}/steps/{step}/results"@ =~= "/v1/runs/{id}/steps/{step}"@ + "/results"@);
    reveal_strlit("/consumed");
    reveal_strlit("/v1/runs/{id}/steps/{step}/consumed");
    assert("/v1/runs/{id}/steps/{step}/consumed"@ =~= "/v1/runs/{id}/steps/{step}"@ + "/consumed"@);
}

/// What is done with a repo stands below the repo.
pub proof fn operations_on_a_repo_stand_below_it()
    ensures
        Handler::ImportBindings.pattern() == "/v1/repos/{org}/{repo}"@ + "/bindings/import"@,
        Handler::ListRepoRuns.pattern() == "/v1/repos/{org}/{repo}"@ + "/runs"@,
        Handler::ListEnvironments.pattern() == "/v1/repos/{org}/{repo}"@ + "/environments"@,
        Handler::PutEnvironment.pattern() == "/v1/repos/{org}/{repo}"@ + "/environments/{name}"@,
        Handler::GetEnvironment.pattern() == "/v1/repos/{org}/{repo}"@ + "/environments/{name}"@,
        Handler::DeleteEnvironment.pattern() == "/v1/repos/{org}/{repo}"@ + "/environments/{name}"@,
        Handler::ListDeployments.pattern() == "/v1/repos/{org}/{repo}"@ + "/environments/{name}/deployments"@,
        Handler::SecretMatrix.pattern() == "/v1/repos/{org}/{repo}"@ + "/secrets/matrix"@,
        Handler::SilenceSecretCell.pattern() == "/v1/repos/{org}/{repo}"@ + "/secrets/matrix/silenced"@,
        Handler::UnsilenceSecretCell.pattern() == "/v1/repos/{org}/{repo}"@ + "/secrets/matrix/silenced"@,
        Handler::ListRefs.pattern() == "/v1/repos/{org}/{repo}"@ + "/refs"@,
        Handler::ListPipelines.pattern() == "/v1/repos/{org}/{repo}"@ + "/pipelines"@,
        Handler::PipelineInterface.pattern() == "/v1/repos/{org}/{repo}"@ + "/pipelines/{name}/interface"@,
        Handler::Dispatch.pattern() == "/v1/repos/{org}/{repo}"@ + "/dispatch"@,
{
    reveal_strlit("/v1/repos/{org}/{repo}");
    reveal_strlit("/bindings/import");
    reveal_strlit("/v1/repos/{org}/{repo}/bindings/import");
    assert("/v1/repos/{org}/{repo}/bindings/import"@ =~= "/v1/repos/{org}/{repo}"@ + "/bindings/import"@);
    reveal_strlit("/runs");
    reveal_strlit("/v1/repos/{org}/{repo}/runs");
    assert("/v1/repos/{org}/{repo}/runs"@ =~= "/v1/repos/{org}/{repo}"@ + "/runs"@);
    reveal_strlit("/environments");
    reveal_strlit("/v1/repos/{org}/{repo}/environments");
    assert("/v1/repos/{org}/{repo}/environments"@ =~= "/v1/repos/{org}/{repo}"@ + "/environments"@);
    reveal_strlit("/environments/{name}");
    reveal_strlit("/v1/repos/{org}/{repo}/environments/{name}");
    assert("/v1/repos/{org}/{repo}/environments/{name}"@ =~= "/v1/repos/{org}/{repo}"@ + "/environments/{name}"@);
    reveal_strlit("/environments/{name}/deployments");
    reveal_strlit("/v1/repos/{org}/{repo}/environments/{name}/deployments");
    assert("/v1/repos/{org}/{repo}/environments/{name}/deployments"@ =~= "/v1/repos/{org}/{repo}"@ + "/environments/{name}/deployments"@);
    reveal_strlit("/secrets/matrix");
    reveal_strlit("/v1/repos/{org}/{repo}/secrets/matrix");
    assert("/v1/repos/{org}/{repo}/secrets/matrix"@ =~= "/v1/repos/{org}/{repo}"@ + "/secrets/matrix"@);
    reveal_strlit("/secrets/matrix/silenced");
    reveal_strlit("/v1/repos/{org}/{repo}/secrets/matrix/silenced");
    assert("/v1/repos/{org}/{repo}/secrets/matrix/silenced"@ =~= "/v1/repos/{org}/{repo}"@ + "/secrets/matrix/silenced"@);
    reveal_strlit("/refs");
    reveal_strlit("/v1/repos/{org}/{repo}/refs");
    assert("/v1/repos/{org}/{repo}/refs"@ =~= "/v1/repos/{org}/{repo}"@ + "/refs"@);
    reveal_strlit("/pipelines");
    reveal_strlit("/v1/repos/{org}/{repo}/pipelines");
    assert("/v1/repos/{org}/{repo}/pipelines"@ =~= "/v1/repos/{org}/{repo}"@ + "/pipelines"@);
    reveal_strlit("/pipelines/{name}/interface");
    reveal_strlit("/v1/repos/{org}/{repo}/pipelines/{name}/interface");
    assert("/v1/repos/{org}/{repo}/pipelines/{name}/interface"@ =~= "/v1/repos/{org}/{repo}"@ + "/pipelines/{name}/interface"@);
    reveal_strlit("/dispatch");
    reveal_strlit("/v1/repos/{org}/{repo}/dispatch");
    assert("/v1/repos/{org}/{repo}/dispatch"@ =~= "/v1/repos/{org}/{repo}"@ + "/dispatch"@);
}

/// What is done with a connection stands below the connection.
pub proof fn operations_on_a_connection_stand_below_it()
    ensures
        Handler::DeleteConnection.pattern() == "/v1/connections/{id}"@,
        Handler::ResyncConnection.pattern() == "/v1/connections/{id}"@ + "/resync"@,
        Handler::ConnectionPreflight.pattern() == "/v1/connections/{id}"@ + "/preflight"@,
        Handler::AvailableRepos.pattern() == "/v1/connections/{id}"@ + "/available-repos"@,
        Handler::BindRepo.pattern() == "/v1/connections/{id}"@ + "/repos"@,
        Handler::UnbindRepo.pattern() == "/v1/connections/{id}"@ + "/repos/{owner}/{name}"@,
        Handler::RegisterRepoWebhook.pattern() == "/v1/connections/{id}"@ + "/repos/{owner}/{name}/webhook"@,
{
    reveal_strlit("/v1/connections/{id}");
    reveal_strlit("/resync");
    reveal_strlit("/v1/connections/{id}/resync");
    assert("/v1/connections/{id}/resync"@ =~= "/v1/connections/{id}"@ + "/resync"@);
    reveal_strlit("/preflight");
    reveal_strlit("/v1/connections/{id}/preflight");
    assert("/v1/connections/{id}/preflight"@ =~= "/v1/connections/{id}"@ + "/preflight"@);
    reveal_strlit("/available-repos");
    reveal_strlit("/v1/connections/{id}/available-repos");
    assert("/v1/connections/{id}/available-repos"@ =~= "/v1/connections/{id}"@ + "/available-repos"@);
    reveal_strlit("/repos");
    reveal_strlit("/v1/connections/{id}/repos");
    assert("/v1/connections/{id}/repos"@ =~= "/v1/connections/{id}"@ + "/repos"@);
    reveal_strlit("/repos/{owner}/{name}");
    reveal_strlit("/v1/connections/{id}/repos/{owner}/{name}");
    assert("/v1/connections/{id}/repos/{owner}/{name}"@ =~= "/v1/connections/{id}"@ + "/repos/{owner}/{name}"@);
    reveal_strlit("/repos/{owner}/{name}/webhook");
    reveal_strlit("/v1/connections/{id}/repos/{owner}/{name}/webhook");
    assert("/v1/connections/{id}/repos/{owner}/{name}/webhook"@ =~= "/v1/connections/{id}"@ + "/repos/{owner}/{name}/webhook"@);
}

/// The collections of the API, and who asks, stand below its version.
pub proof fn collections_stand_below_the_version()
    ensures
        Handler::ListRuns.pattern() == "/v1"@ + "/runs"@,
        Handler::CreateRun.pattern() == "/v1"@ + "/runs"@,
        Handler::ListProjects.pattern() == "/v1"@ + "/repos"@,
        Handler::ListConnections.pattern() == "/v1"@ + "/connections"@,
        Handler::CreateConnection.pattern() == "/v1"@ + "/connections"@,
        Handler::ListSecrets.pattern() == "/v1"@ + "/secrets"@,
        Handler::PutSecret.pattern() == "/v1"@ + "/secrets"@,
        Handler::DeleteSecret.pattern() == "/v1"@ + "/secrets"@,
        Handler::Me.pattern() == "/v1"@ + "/me"@,
        Handler::Login.pattern() == "/v1"@ + "/auth/login"@,
        Handler::OauthLoginRedirect.pattern() == "/v1"@ + "/auth/login"@,
        Handler::OauthCallback.pattern() == "/v1"@ + "/auth/callback"@,
        Handler::Logout.pattern() == "/v1"@ + "/auth/logout"@,
        Handler::ListBindings.pattern() == "/v1"@ + "/orgs/{org}/bindings"@,
        Handler::PutBinding.pattern() == "/v1"@ + "/orgs/{org}/bindings"@,
        Handler::DeleteBinding.pattern() == "/v1"@ + "/orgs/{org}/bindings"@,
{
    reveal_strlit("/v1");
    reveal_strlit("/runs");
    reveal_strlit("/v1/runs");
    assert("/v1/runs"@ =~= "/v1"@ + "/runs"@);
    reveal_strlit("/repos");
    reveal_strlit("/v1/repos");
    assert("/v1/repos"@ =~= "/v1"@ + "/repos"@);
    reveal_strlit("/connections");
    reveal_strlit("/v1/connections");
    assert("/v1/connections"@ =~= "/v1"@ + "/connections"@);
    reveal_strlit("/secrets");
    reveal_strlit("/v1/secrets");
    assert("/v1/secrets"@ =~= "/v1"@ + "/secrets"@);
    reveal_strlit("/me");
    reveal_strlit("/v1/me");
    assert("/v1/me"@ =~= "/v1"@ + "/me"@);
    reveal_strlit("/auth/login");
    reveal_strlit("/v1/auth/login");
    assert("/v1/auth/login"@ =~= "/v1"@ + "/auth/login"@);
    reveal_strlit("/auth/callback");
    reveal_strlit("/v1/auth/callback");
    assert("/v1/auth/callback"@ =~= "/v1"@ + "/auth/callback"@);
    reveal_strlit("/auth/logout");
    reveal_strlit("/v1/auth/logout");
    assert("/v1/auth/logout"@ =~= "/v1"@ + "/auth/logout"@);
    reveal_strlit("/orgs/{org}/bindings");
    reveal_strlit("/v1/orgs/{org}/bindings");
    assert("/v1/orgs/{org}/bindings"@ =~= "/v1"@ + "/orgs/{org}/bindings"@);
}

/// What belongs to no version stands at the root.
pub proof fn the_rest_stands_at_the_root()
    ensures
        Handler::Healthz.pattern() == "/"@ + "healthz"@,
        Handler::Readyz.pattern() == "/"@ + "readyz"@,
        Handler::Metrics.pattern() == "/"@ + "metrics"@,
        Handler::Openapi.pattern() == "/"@ + "openapi.json"@,
        Handler::Jwks.pattern() == "/"@ + ".well-known/jwks.json"@,
        Handler::OpenidConfiguration.pattern() == "/"@ + ".well-known/openid-configuration"@,
        Handler::GithubWebhook.pattern() == "/"@ + "webhooks/github"@,
        Handler::ForgejoWebhook.pattern() == "/"@ + "webhooks/forgejo"@,
{
    reveal_strlit("/");
    reveal_strlit("healthz");
    reveal_strlit("/healthz");
    assert("/healthz"@ =~= "/"@ + "healthz"@);
    reveal_strlit("readyz");
    reveal_strlit("/readyz");
    assert("/readyz"@ =~= "/"@ + "readyz"@);
    reveal_strlit("metrics");
    reveal_strlit("/metrics");
    assert("/metrics"@ =~= "/"@ + "metrics"@);
    reveal_strlit("openapi.json");
    reveal_strlit("/openapi.json");
    assert("/openapi.json"@ =~= "/"@ + "openapi.json"@);
    reveal_strlit(".well-known/jwks.json");
    reveal_strlit("/.well-known/jwks.json");
    assert("/.well-known/jwks.json"@ =~= "/"@ + ".well-known/jwks.json"@);
    reveal_strlit(".well-known/openid-configuration");
    reveal_strlit("/.well-known/openid-configuration");
    assert("/.well-known/openid-configuration"@ =~= "/"@ + ".well-known/openid-configuration"@);
    reveal_strlit("webhooks/github");
    reveal_strlit("/webhooks/github");
    assert("/webhooks/github"@ =~= "/"@ + "webhooks/github"@);
    reveal_strlit("webhooks/forgejo");
    reveal_strlit("/webhooks/forgejo");
    assert("/webhooks/forgejo"@ =~= "/"@ + "webhooks/forgejo"@);
}

/// Only what removes something is asked for by `DELETE`, only what sets a thing under its name by
/// `PUT`, and only what starts something or hands something in by `POST`; everything else reads.
pub proof fn methods_say_what_is_done(h: Handler)
    ensures
        h.verb() == Method::Delete <==> h is DeleteBinding || h is DeleteSecret || h is DeleteEnvironment
            || h is DeleteConnection || h is UnbindRepo || h is UnsilenceSecretCell,
        h.verb() == Method::Put <==> h is PutBinding || h is PutEnvironment || h is SilenceSecretCell,
        h.verb() == Method::Post <==> h is Login || h is Logout || h is ImportBindings || h is CreateRun || h is RerunStep
            || h is RetryStep || h is CancelRun || h is ApproveGate || h is ReleaseGateExternal || h is IngestStepResults
            || h is PutSecret || h is CreateConnection || h is ResyncConnection || h is BindRepo
            || h is RegisterRepoWebhook || h is Dispatch || h is GithubWebhook || h is ForgejoWebhook,
        !h.documented() <==> h is Openapi,
{
}

/// What a path's beginning claims goes before what it holds, and of the things that it may hold
/// environments go before secrets and secrets before runs.
pub proof fn paths_belong_to_their_group(path: Seq<char>)
    ensures
        text::has_prefix(path, "/webhooks/"@) ==> group_of(path) == Some("Webhooks"@),
        text::has_prefix(path, "/v1/connections"@) && !text::has_prefix(path, "/webhooks/"@) ==> group_of(path) == Some(
            "Forge Connections"@,
        ),
        ({
            let claimed = text::has_prefix(path, "/webhooks/"@) || text::has_prefix(path, "/v1/connections"@);
            let identity = text::has_prefix(path, "/.well-known/"@) || text::has_prefix(path, "/v1/auth/"@) || path
                == "/v1/me"@ || text::contains(path, "bindings"@);
            let system = path == "/healthz"@ || path == "/readyz"@ || path == "/metrics"@;
            let environments = text::contains(path, "/environments"@);
            let secrets = text::contains(path, "/secrets"@);
            let runs = text::contains(path, "/runs"@);
            &&& !claimed && identity ==> group_of(path) == Some("Auth & Identity"@)
            &&& !claimed && !identity && system ==> group_of(path) == Some("System"@)
            &&& !claimed && !identity && !system && environments ==> group_of(path) == Some("Environments"@)
            &&& !claimed && !identity && !system && !environments && secrets ==> group_of(path) == Some("Secrets"@)
            &&& !claimed && !identity && !system && !environments && !secrets && runs ==> group_of(path) == Some("Runs"@)
            &&& !claimed && !identity && !system && !environments && !secrets && !runs ==> group_of(path) == (
            if text::has_prefix(path, "/v1/repos"@) {
                Some("Repositories"@)
            } else {
                None
            })
        }),
{
}

/// The document declares exactly the groups that one of its paths belongs to.
pub proof fn groups_in_use_are_declared(paths: Seq<Seq<char>>, names: Seq<Seq<char>>, i: int)
    requires
        0 <= i < names.len(),
    ensures
        in_use(paths, names[i]) ==> used(paths, names, names).contains(names[i]),
        used(paths, names, names).len() <= names.len(),
        forall|g: Seq<char>| #[trigger] used(paths, names, names).contains(g) ==> names.contains(g) && in_use(paths, g),
{
    assert(names.take(names.len() as int) =~= names);
    used_up_to(paths, names, names);
}

proof fn used_up_to(paths: Seq<Seq<char>>, names: Seq<Seq<char>>, of: Seq<Seq<char>>)
    requires
        names.len() <= of.len(),
        of.take(names.len() as int) == names,
    ensures
        used(paths, names, of).len() <= names.len(),
        forall|i: int| 0 <= i < names.len() && in_use(paths, #[trigger] names[i]) ==> used(paths, names, of).contains(names[i]),
        forall|g: Seq<char>| #[trigger] used(paths, names, of).contains(g) ==> names.contains(g) && in_use(paths, g),
    decreases names.len(),
{
    if names.len() > 0 {
        let rest = names.drop_last();
        assert(of.take(rest.len() as int) =~= rest) by {
            assert forall|k: int| 0 <= k < rest.len() implies of[k] == rest[k] by {
                assert(of.take(names.len() as int)[k] == names[k]);
            }
        }
        used_up_to(paths, rest, of);
        let before = used(paths, rest, of);
        let all = used(paths, names, of);
        assert(of.take(names.len() as int)[names.len() - 1] == names.last());
        assert forall|i: int| 0 <= i < names.len() && in_use(paths, #[trigger] names[i]) implies all.contains(names[i]) by {
            if i < rest.len() {
                assert(rest[i] == names[i]);
                assert(before.contains(rest[i]));
                let k = choose|k: int| 0 <= k < before.len() && before[k] == names[i];
                assert(all[k] == names[i]);
            } else {
                assert(all[all.len() - 1] == names[i]);
            }
        }
        assert forall|g: Seq<char>| #[trigger] all.contains(g) implies names.contains(g) && in_use(paths, g) by {
            let k = choose|k: int| 0 <= k < all.len() && all[k] == g;
            if k < before.len() {
                assert(before[k] == g);
                assert(before.contains(g));
                let j = choose|j: int| 0 <= j < rest.len() && rest[j] == g;
                assert(names[j] == g);
            } else {
                assert(names[names.len() - 1] == g);
            }
        }
    }
}

/// A request for the UI keeps every piece of its path that may name a file, in order.
pub proof fn ui_paths_keep_their_names(first: Seq<Seq<char>>, more: Seq<Seq<char>>, piece: Seq<char>)
    ensures
        ui_pieces(first + more) == ui_pieces(first) + ui_pieces(more),
        ui_pieces(seq![piece]) == (if piece.len() > 0 && piece != "."@ && piece != ".."@ && !text::contains(piece, seq!['\\']) {
            seq![piece]
        } else {
            Seq::empty()
        }),
    decreases more.len(),
{
    reveal_with_fuel(ui_pieces, 2);
    assert(seq![piece].drop_last() =~= Seq::<Seq<char>>::empty());
    assert(Seq::<Seq<char>>::empty().push(piece) =~= seq![piece]);
    if more.len() == 0 {
        assert(first + more =~= first);
        assert(ui_pieces(first) + ui_pieces(more) =~= ui_pieces(first));
    } else {
        let rest = more.drop_last();
        ui_paths_keep_their_names(first, rest, piece);
        assert((first + more).drop_last() =~= first + rest);
        assert((first + more).last() == more.last());
        assert(ui_pieces(first + more) =~= ui_pieces(first) + ui_pieces(more));
    }
}

/// A UI file is served by the type of its extension, and any other as plain bytes.
pub proof fn ui_files_have_their_type(extension: Seq<char>)
    ensures
        ui_type("html"@) == "text/html; charset=utf-8"@,
        ui_type("js"@) == "application/javascript"@,
        ui_type("css"@) == "text/css"@,
        ui_type("svg"@) == "image/svg+xml"@,
        ui_type("png"@) == "image/png"@,
        ui_type("ico"@) == "image/x-icon"@,
        ui_type("json"@) == "application/json"@,
        ui_type("woff2"@) == "font/woff2"@,
        extension != "html"@ && extension != "js"@ && extension != "css"@ && extension != "svg"@ && extension != "png"@
            && extension != "ico"@ && extension != "json"@ && extension != "woff2"@ ==> ui_type(extension)
            == "application/octet-stream"@,
{
    reveal_strlit("html");
    reveal_strlit("js");
    reveal_strlit("css");
    reveal_strlit("svg");
    reveal_strlit("png");
    reveal_strlit("ico");
    reveal_strlit("json");
    reveal_strlit("woff2");
    assert("css"@[0] == 'c' && "svg"@[0] == 's' && "png"@[0] == 'p' && "ico"@[0] == 'i');
    assert("html"@[0] == 'h' && "json"@[0] == 'j');
    assert("js"@.len() == 2 && "css"@.len() == 3 && "svg"@.len() == 3 && "png"@.len() == 3 && "ico"@.len() == 3);
    assert("html"@.len() == 4 && "json"@.len() == 4 && "woff2"@.len() == 5);
}

} // verus!
