use crow::routes::{admin_gate, check_request, route_guard, runner_gate, Guard, Method, RequestVerdict};
use crow::users::{UserRole, WebError};

#[test]
fn executor_endpoints_need_the_runner_token() {
    for path in [
        "/executor/done",
        "/executor/done-taste-test",
        "/executor/ping",
        "/executor/register",
        "/executor/request-work",
        "/executor/request-work-taste-test",
        "/executor/update",
    ] {
        assert_eq!(route_guard(Method::Post, path), Some(Guard::Runner));
        assert_eq!(route_guard(Method::Get, path), None);
    }
    assert_eq!(route_guard(Method::Get, "/executor/request-tar"), Some(Guard::Runner));
    assert_eq!(route_guard(Method::Post, "/executor/request-tar"), None);
}

#[test]
fn admin_endpoints_need_the_admin_role() {
    assert_eq!(route_guard(Method::Get, "/executor/info"), Some(Guard::Admin));
    assert_eq!(route_guard(Method::Get, "/team/tasks/:team_id"), Some(Guard::Admin));
    assert_eq!(route_guard(Method::Get, "/users"), Some(Guard::Admin));
    assert_eq!(route_guard(Method::Get, "/admin/team_statistics"), Some(Guard::Admin));
    assert_eq!(route_guard(Method::Post, "/admin/snapshot"), Some(Guard::Admin));
    assert_eq!(route_guard(Method::Post, "/admin/rerun_submissions/:category"), Some(Guard::Admin));
    assert_eq!(route_guard(Method::Post, "/admin/rehash_tests"), Some(Guard::Admin));
    assert_eq!(route_guard(Method::Get, "/admin/snapshot"), None);
}

#[test]
fn other_routes_are_open_under_their_methods() {
    assert_eq!(route_guard(Method::Get, "/users/me"), Some(Guard::Open));
    assert_eq!(route_guard(Method::Put, "/queue/rev/:revision"), Some(Guard::Open));
    assert_eq!(route_guard(Method::Head, "/tasks/:task_id/stream"), Some(Guard::Open));
    assert_eq!(route_guard(Method::Delete, "/tests/:test_id"), Some(Guard::Open));
    assert_eq!(route_guard(Method::Put, "/tests/:test_id"), Some(Guard::Open));
    assert_eq!(route_guard(Method::Put, "/team/final-tasks"), Some(Guard::Open));
    assert_eq!(route_guard(Method::Post, "/login/oidc/callback"), Some(Guard::Open));
    assert_eq!(route_guard(Method::Delete, "/repo/:team_id"), None);
    assert_eq!(route_guard(Method::Get, "/nowhere"), None);
    assert_eq!(route_guard(Method::Get, "/users/"), None);
}

#[test]
fn admin_gate_refuses_regular_users() {
    assert!(admin_gate(UserRole::Admin).is_ok());
    assert!(matches!(admin_gate(UserRole::Regular), Err(WebError::Unauthorized)));
}

#[test]
fn runner_gate_compares_the_token() {
    assert!(runner_gate("s3cret", "s3cret").is_ok());
    assert!(matches!(runner_gate("s3cre", "s3cret"), Err(WebError::InvalidCredentials)));
    assert!(matches!(runner_gate("", "s3cret"), Err(WebError::InvalidCredentials)));
}

#[test]
fn head_requests_take_the_get_route() {
    assert_eq!(route_guard(Method::Head, "/executor/request-tar"), Some(Guard::Runner));
    assert_eq!(route_guard(Method::Head, "/users"), Some(Guard::Admin));
    assert_eq!(route_guard(Method::Head, "/queue"), Some(Guard::Open));
    assert_eq!(route_guard(Method::Head, "/tests/:test_id"), Some(Guard::Open));
    assert_eq!(route_guard(Method::Head, "/executor/ping"), None);
    assert_eq!(route_guard(Method::Head, "/admin/snapshot"), None);
}

#[test]
fn requests_reach_handlers_only_past_their_guard() {
    let token = "tok";
    assert!(matches!(check_request(Method::Post, "/executor/ping", None, Some("tok"), token), RequestVerdict::Admitted));
    assert!(matches!(
        check_request(Method::Post, "/executor/ping", Some(UserRole::Admin), Some("nope"), token),
        RequestVerdict::Refused(WebError::InvalidCredentials)
    ));
    assert!(matches!(check_request(Method::Post, "/executor/ping", None, None, token), RequestVerdict::MissingBasicAuth));
    assert!(matches!(check_request(Method::Get, "/users", Some(UserRole::Admin), None, token), RequestVerdict::Admitted));
    assert!(matches!(
        check_request(Method::Get, "/users", Some(UserRole::Regular), Some("tok"), token),
        RequestVerdict::Refused(WebError::Unauthorized)
    ));
    assert!(matches!(
        check_request(Method::Get, "/users", None, None, token),
        RequestVerdict::Refused(WebError::InvalidCredentials)
    ));
    assert!(matches!(check_request(Method::Get, "/users/me", None, None, token), RequestVerdict::Admitted));
    assert!(matches!(check_request(Method::Post, "/users/me", None, None, token), RequestVerdict::NoRoute));
}
