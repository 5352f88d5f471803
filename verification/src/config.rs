//! The backend's configuration, and the bodies of its API requests and answers.
use vstd::prelude::*;
use crate::execution::{QueuedTaskStatus, RunnerWorkForFrontend};
use crate::ids::{TaskId, TeamId};
use crate::queue::WorkItem;
use crate::users::TeamEntry;

verus! {

/// How tasks are built and tested.
#[derive(Debug, Clone)]
pub struct ExecutionConfig {
    pub runner_token: String,
    pub build_command: Vec<String>,
    pub binary_arguments: Vec<String>,
    pub compile_command: Vec<String>,
    /// How long a build may take, in milliseconds.
    pub build_timeout_ms: u64,
    /// How long a test may take, in milliseconds.
    pub test_timeout_ms: u64,
    pub build_image: String,
    pub reference_compiler_image: Option<String>,
    pub local_repo_path: String,
}

impl ExecutionConfig {
    /// Whether tests cannot be tasted: there is no reference compiler.
    pub fn tasting_disabled(&self) -> (res: bool)
        ensures
            res == (self.reference_compiler_image is None),
    {
        self.reference_compiler_image.is_none()
    }
}

/// The GitHub app.
#[derive(Debug, Clone)]
pub struct GithubConfig {
    pub app_id: u64,
    pub app_name: String,
    pub app_private_key: String,
    pub frontend_url: String,
    /// How often check runs are updated, in milliseconds.
    pub status_check_interval_ms: u64,
    /// How often workflow files are checked, in milliseconds.
    pub workflow_check_interval_ms: u64,
    pub workflow_path: String,
    pub workflow_template: String,
}

/// The dates of a test category, in milliseconds since the epoch.
#[derive(Debug, Clone, Copy)]
pub struct TestCategory {
    pub starts_at: i64,
    pub labs_end_at: i64,
    pub tests_end_at: i64,
}

impl TestCategory {
    /// Whether tests of this category can no longer change at `now`.
    pub fn is_after_test_deadline(&self, now: i64) -> (res: bool)
        ensures
            res == (self.tests_end_at < now),
    {
        self.tests_end_at < now
    }

    /// Whether the labs of this category are over at `now`.
    pub fn is_after_labs_deadline(&self, now: i64) -> (res: bool)
        ensures
            res == (self.labs_end_at < now),
    {
        self.labs_end_at < now
    }
}

/// The test categories.
#[derive(Debug, Clone)]
pub struct TestConfig {
    pub categories: Vec<(String, TestCategory)>,
}

/// The OpenID Connect provider.
#[derive(Debug, Clone)]
pub struct OidcConfig {
    pub client_id: String,
    pub client_secret: String,
    pub issuer_url: String,
    pub redirect_url: String,
    pub scopes: Vec<String>,
}

/// The SSH keys with which team repositories are fetched.
#[derive(Debug, Clone)]
pub struct SshConfig {
    pub team_to_key: Vec<(TeamId, String)>,
}

/// Where grading snapshots go.
#[derive(Debug, Clone)]
pub struct GradingConfig {
    pub snapshot_path: String,
}

/// The whole configuration of the backend.
#[derive(Debug, Clone)]
pub struct Config {
    pub database_path: String,
    pub jwt_secret: String,
    pub teams: Vec<TeamEntry>,
    pub execution: ExecutionConfig,
    pub grading: GradingConfig,
    pub github: Option<GithubConfig>,
    pub test: TestConfig,
    pub oidc: OidcConfig,
    pub ssh: Option<SshConfig>,
}

/// A request body or an answer, as JSON.
#[derive(Debug, Clone)]
pub struct Json<T>(pub T);

/// Parameters taken from a request path.
#[derive(Debug, Clone)]
pub struct Path<T>(pub T);

/// The status of a task, as a team's CI asks for it.
#[derive(Debug, Clone, Copy)]
pub struct IntegrationTaskStatusResponse {
    pub status: QueuedTaskStatus,
}

/// What the OpenID Connect provider hands back after a login.
#[derive(Debug, Clone)]
pub struct OidcCallbackPayload {
    pub code: String,
    pub state: String,
}

/// A team's CI asking for a revision to be tested.
#[derive(Debug, Clone)]
pub struct IntegrationRequestRevisionPayload {
    pub commit_message: String,
    pub checked_commit: Option<String>,
}

/// A team setting its repository.
#[derive(Debug, Clone)]
pub struct TeamPatchPayload {
    pub repo_url: String,
}

/// A team choosing the task that counts for some categories.
#[derive(Debug, Clone)]
pub struct SetFinalTaskPayload {
    pub task_id: TaskId,
    pub categories: Vec<String>,
}

/// The queue and the runners, as the frontend shows them.
#[derive(Debug, Clone)]
pub struct QueueResponse {
    pub queue: Vec<WorkItem>,
    pub runners: Vec<RunnerForFrontend>,
}

/// A runner, as the frontend shows it.
#[derive(Debug, Clone)]
pub struct RunnerForFrontend {
    pub id: String,
    pub info: String,
    pub working_on: Option<RunnerWorkForFrontend>,
    /// When the runner was last heard of, in milliseconds since the epoch.
    pub last_seen: u64,
    pub test_taster: bool,
}

/// The runners, and how many frontends follow each task in progress.
#[derive(Debug, Clone)]
pub struct ExecutorInfo {
    pub runners: Vec<RunnerForFrontend>,
    pub in_progress: Vec<(TaskId, usize)>,
}

} // verus!
