//! The backend's routes and the guard that stands before each: the runner token for the
//! executor endpoints, the admin role for the administrative ones.
use vstd::prelude::*;
use crate::text::same_text;
use crate::users::{UserRole, WebError};

verus! {

/// An HTTP method the backend serves.
#[derive(Debug, Clone, Copy, PartialEq, Eq, Structural)]
pub enum Method {
    Get,
    Post,
    Put,
    Delete,
    Head,
}

/// What a request must show before its handler runs.
#[derive(Debug, Clone, Copy, PartialEq, Eq, Structural)]
pub enum Guard {
    /// The runner token, as the password of basic authentication.
    Runner,
    /// A login whose role is admin.
    Admin,
    /// Nothing at the route; the handler checks what it needs.
    Open,
}

/// Whether `method` is served by a route's GET handler: GET itself, and HEAD, which axum
/// answers with the GET handler (under the same guard) where the route has no HEAD handler of
/// its own.
pub open spec fn get_like(method: Method) -> bool {
    method == Method::Get || method == Method::Head
}

/// The executor endpoints, which need the runner token.
pub open spec fn executor_path(path: Seq<char>) -> bool {
    path == "/executor/done"@ || path == "/executor/done-taste-test"@ || path == "/executor/ping"@ || path
        == "/executor/register"@ || path == "/executor/request-work"@ || path
        == "/executor/request-work-taste-test"@ || path == "/executor/update"@ || path
        == "/executor/request-tar"@
}

/// The administrative endpoints, which need the admin role.
pub open spec fn admin_path(path: Seq<char>) -> bool {
    path == "/executor/info"@ || path == "/team/tasks/:team_id"@ || path == "/users"@ || path
        == "/admin/team_statistics"@ || path == "/admin/snapshot"@ || path
        == "/admin/rerun_submissions/:category"@ || path == "/admin/rehash_tests"@
}

/// The guard of the route `path` (an axum route pattern, `:name` for a parameter) under
/// `method`, or `None` where the backend has no such route.
pub open spec fn route_guard_spec(method: Method, path: Seq<char>) -> Option<Guard> {
    if path == "/executor/done"@ || path == "/executor/done-taste-test"@ || path == "/executor/ping"@
        || path == "/executor/register"@ || path == "/executor/request-work"@ || path
        == "/executor/request-work-taste-test"@ || path == "/executor/update"@ {
        if method == Method::Post { Some(Guard::Runner) } else { None }
    } else if path == "/executor/request-tar"@ {
        if get_like(method) { Some(Guard::Runner) } else { None }
    } else if path == "/executor/info"@ || path == "/team/tasks/:team_id"@ || path == "/users"@ || path
        == "/admin/team_statistics"@ {
        if get_like(method) { Some(Guard::Admin) } else { None }
    } else if path == "/admin/snapshot"@ || path == "/admin/rerun_submissions/:category"@ || path
        == "/admin/rehash_tests"@ {
        if method == Method::Post { Some(Guard::Admin) } else { None }
    } else if path == "/integration/token/queue/rev/:revision"@ || path == "/queue/rev/:revision"@ {
        if method == Method::Put { Some(Guard::Open) } else { None }
    } else if path == "/integration/token/task/:task_id"@ || path == "/queue"@ || path
        == "/queue/task/:task_id"@ || path == "/tasks/:task_id"@ || path == "/team/info/:team_id"@
        || path == "/team/recent-tasks"@ || path == "/team/recent-tasks/:count"@ || path == "/tests"@
        || path == "/top-tasks"@ || path == "/users/me"@ || path == "/users/me/integrations"@ || path
        == "/login"@ || path == "/tasks/:task_id/stream"@ {
        if get_like(method) { Some(Guard::Open) } else { None }
    } else if path == "/repo/:team_id"@ || path == "/team/final-tasks"@ {
        if get_like(method) || method == Method::Put { Some(Guard::Open) } else { None }
    } else if path == "/tests/:test_id"@ {
        if get_like(method) || method == Method::Put || method == Method::Delete {
            Some(Guard::Open)
        } else {
            None
        }
    } else if path == "/login/oidc/callback"@ {
        if method == Method::Post { Some(Guard::Open) } else { None }
    } else {
        None
    }
}

fn guarded_by(method: Method, want: Method, guard: Guard) -> (res: Option<Guard>)
    ensures
        res == (if method == want { Some(guard) } else { None::<Guard> }),
{
    if method == want { Some(guard) } else { None }
}

fn guarded_get(method: Method, guard: Guard) -> (res: Option<Guard>)
    ensures
        res == (if get_like(method) { Some(guard) } else { None::<Guard> }),
{
    if method == Method::Get || method == Method::Head { Some(guard) } else { None }
}

/// The guard of the route `path` under `method`, or `None` where the backend has no such
/// route.
pub fn route_guard(method: Method, path: &str) -> (res: Option<Guard>)
    ensures
        res == route_guard_spec(method, path@),
{
    if same_text(path, "/executor/done") || same_text(path, "/executor/done-taste-test") || same_text(
        path,
        "/executor/ping",
    ) || same_text(path, "/executor/register") || same_text(path, "/executor/request-work")
        || same_text(path, "/executor/request-work-taste-test") || same_text(path, "/executor/update") {
        guarded_by(method, Method::Post, Guard::Runner)
    } else if same_text(path, "/executor/request-tar") {
        guarded_get(method, Guard::Runner)
    } else if same_text(path, "/executor/info") || same_text(path, "/team/tasks/:team_id") || same_text(
        path,
        "/users",
    ) || same_text(path, "/admin/team_statistics") {
        guarded_get(method, Guard::Admin)
    } else if same_text(path, "/admin/snapshot") || same_text(path, "/admin/rerun_submissions/:category")
        || same_text(path, "/admin/rehash_tests") {
        guarded_by(method, Method::Post, Guard::Admin)
    } else if same_text(path, "/integration/token/queue/rev/:revision") || same_text(
        path,
        "/queue/rev/:revision",
    ) {
        guarded_by(method, Method::Put, Guard::Open)
    } else if same_text(path, "/integration/token/task/:task_id") || same_text(path, "/queue")
        || same_text(path, "/queue/task/:task_id") || same_text(path, "/tasks/:task_id") || same_text(
        path,
        "/team/info/:team_id",
    ) || same_text(path, "/team/recent-tasks") || same_text(path, "/team/recent-tasks/:count")
        || same_text(path, "/tests") || same_text(path, "/top-tasks") || same_text(path, "/users/me")
        || same_text(path, "/users/me/integrations") || same_text(path, "/login") || same_text(
        path,
        "/tasks/:task_id/stream",
    ) {
        guarded_get(method, Guard::Open)
    } else if same_text(path, "/repo/:team_id") || same_text(path, "/team/final-tasks") {
        if method == Method::Get || method == Method::Head || method == Method::Put {
            Some(Guard::Open)
        } else {
            None
        }
    } else if same_text(path, "/tests/:test_id") {
        if method == Method::Get || method == Method::Head || method == Method::Put || method == Method::Delete {
            Some(Guard::Open)
        } else {
            None
        }
    } else if same_text(path, "/login/oidc/callback") {
        guarded_by(method, Method::Post, Guard::Open)
    } else {
        None
    }
}

/// The admin guard: a login with the admin role passes, any other is refused as
/// `Unauthorized`.
pub fn admin_gate(role: UserRole) -> (res: Result<(), WebError>)
    ensures
        role == UserRole::Admin <==> res is Ok,
        res is Err ==> res matches Err(WebError::Unauthorized),
{
    match role {
        UserRole::Admin => Ok(()),
        UserRole::Regular => Err(WebError::Unauthorized),
    }
}

/// The runner guard: the password of the request's basic authentication must be the
/// configured runner token, else the request is refused as `InvalidCredentials`.
pub fn runner_gate(password: &str, runner_token: &str) -> (res: Result<(), WebError>)
    ensures
        password@ == runner_token@ <==> res is Ok,
        res is Err ==> res matches Err(WebError::InvalidCredentials),
{
    if same_text(password, runner_token) {
        Ok(())
    } else {
        Err(WebError::InvalidCredentials)
    }
}

/// What becomes of a request before its handler: no route for it, the basic-authentication
/// header that the runner guard reads is missing, a guard refuses it, or it reaches its
/// handler.
#[derive(Debug, Clone)]
pub enum RequestVerdict {
    NoRoute,
    MissingBasicAuth,
    Refused(WebError),
    Admitted,
}

/// What becomes of a request for the route `path` under `method`, from the role of its login
/// (`None` where it sent no bearer token), the password of its basic authentication (`None`
/// where it sent none) and the configured runner token.
pub open spec fn request_verdict(
    method: Method,
    path: Seq<char>,
    role: Option<UserRole>,
    password: Option<Seq<char>>,
    runner_token: Seq<char>,
) -> RequestVerdict {
    match route_guard_spec(method, path) {
        None => RequestVerdict::NoRoute,
        Some(Guard::Open) => RequestVerdict::Admitted,
        Some(Guard::Admin) => match role {
            None => RequestVerdict::Refused(WebError::InvalidCredentials),
            Some(UserRole::Admin) => RequestVerdict::Admitted,
            Some(UserRole::Regular) => RequestVerdict::Refused(WebError::Unauthorized),
        },
        Some(Guard::Runner) => match password {
            None => RequestVerdict::MissingBasicAuth,
            Some(p) => if p == runner_token {
                RequestVerdict::Admitted
            } else {
                RequestVerdict::Refused(WebError::InvalidCredentials)
            },
        },
    }
}

/// What becomes of a request before its handler: its route's guard applied to its login and
/// its basic authentication.
pub fn check_request(
    method: Method,
    path: &str,
    role: Option<UserRole>,
    password: Option<&str>,
    runner_token: &str,
) -> (res: RequestVerdict)
    ensures
        res == request_verdict(
            method,
            path@,
            role,
            match password {
                Some(p) => Some(p@),
                None => None,
            },
            runner_token@,
        ),
{
    match route_guard(method, path) {
        None => RequestVerdict::NoRoute,
        Some(Guard::Open) => RequestVerdict::Admitted,
        Some(Guard::Admin) => match role {
            None => RequestVerdict::Refused(WebError::InvalidCredentials),
            Some(r) => match admin_gate(r) {
                Ok(()) => RequestVerdict::Admitted,
                Err(e) => RequestVerdict::Refused(e),
            },
        },
        Some(Guard::Runner) => match password {
            None => RequestVerdict::MissingBasicAuth,
            Some(p) => match runner_gate(p, runner_token) {
                Ok(()) => RequestVerdict::Admitted,
                Err(e) => RequestVerdict::Refused(e),
            },
        },
    }
}

/// A request reaches the handler of an executor endpoint only with the runner token as its
/// password, and that of an administrative endpoint only with a login of the admin role,
/// whatever its method.
pub proof fn lemma_guarded_routes(
    method: Method,
    path: Seq<char>,
    role: Option<UserRole>,
    password: Option<Seq<char>>,
    runner_token: Seq<char>,
)
    requires
        request_verdict(method, path, role, password, runner_token) is Admitted,
    ensures
        executor_path(path) ==> password == Some(runner_token),
        admin_path(path) ==> role == Some(UserRole::Admin),
{
    if admin_path(path) {
        reveal_strlit("/executor/done");
        reveal_strlit("/executor/done-taste-test");
        reveal_strlit("/executor/ping");
        reveal_strlit("/executor/register");
        reveal_strlit("/executor/request-work");
        reveal_strlit("/executor/request-work-taste-test");
        reveal_strlit("/executor/update");
        reveal_strlit("/executor/request-tar");
        if path == "/executor/info"@ {
            reveal_strlit("/executor/info");
            assert(path[10] == 'i');
            assert("/executor/done"@[10] != 'i');
            assert("/executor/done-taste-test"@[10] != 'i');
            assert("/executor/ping"@[10] != 'i');
            assert("/executor/register"@[10] != 'i');
            assert("/executor/request-work"@[10] != 'i');
            assert("/executor/request-work-taste-test"@[10] != 'i');
            assert("/executor/update"@[10] != 'i');
            assert("/executor/request-tar"@[10] != 'i');
        } else {
            reveal_strlit("/team/tasks/:team_id");
            reveal_strlit("/users");
            reveal_strlit("/admin/team_statistics");
            reveal_strlit("/admin/snapshot");
            reveal_strlit("/admin/rerun_submissions/:category");
            reveal_strlit("/admin/rehash_tests");
            assert(path[1] != 'e');
            assert("/executor/done"@[1] == 'e');
            assert("/executor/done-taste-test"@[1] == 'e');
            assert("/executor/ping"@[1] == 'e');
            assert("/executor/register"@[1] == 'e');
            assert("/executor/request-work"@[1] == 'e');
            assert("/executor/request-work-taste-test"@[1] == 'e');
            assert("/executor/update"@[1] == 'e');
            assert("/executor/request-tar"@[1] == 'e');
        }
    }
}

} // verus!
