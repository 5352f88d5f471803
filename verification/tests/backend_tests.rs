use crow::execution::{AbortedExecution, ExecutionRow, ExecutorUpdate, InternalError, RunnerUpdate};
use crow::grading::FinalizedTask;
use crow::catalog::stored_test_hash;
use crow::catalog::{check_delete, find_category, prepare_test, tasting_verdict, AddTestPayload, SetTestResponse, Test};
use crow::config::{SetFinalTaskPayload, TestCategory, TestConfig};
use crow::execution::{
    ExecutionExitStatus, ExecutionOutput, FinishedCompilerTask, FinishedCompilerTaskStatistics,
    FinishedCompilerTaskSummary, FinishedExecution, FinishedTaskInfo, FinishedTest, FinishedTestSummary,
    QueuedTaskStatus, TestExecutionOutput,
};
use crow::ids::{TaskId, TeamId, TestId};
use crow::modifiers::TestModifier;
use crow::submissions::{check_final_task_change, rerun_plan, rerun_task};
use crow::ids::UserId;
use crow::users::{get_team_mapping, team_of_user, teams_to_remove, TeamEntry, UserRole, WebError};

fn config() -> TestConfig {
    TestConfig {
        categories: vec![
            ("lab1".to_string(), TestCategory { starts_at: 0, labs_end_at: 100, tests_end_at: 50 }),
            ("lab2".to_string(), TestCategory { starts_at: 100, labs_end_at: 300, tests_end_at: 200 }),
        ],
    }
}

fn payload(category: &str) -> AddTestPayload {
    AddTestPayload {
        compiler_modifiers: vec![TestModifier::ShouldSucceed],
        binary_modifiers: vec![TestModifier::ExitCode { code: 0 }],
        category: category.to_string(),
        ignore_test_tasting: false,
    }
}

fn stored(owner: &str, provisional: Option<&str>) -> Test {
    Test {
        id: TestId("t1".to_string()),
        compiler_modifiers: vec![],
        binary_modifiers: vec![],
        owner: TeamId(owner.to_string()),
        admin_authored: true,
        category: "lab1".to_string(),
        provisional_for_category: provisional.map(|s| s.to_string()),
        limited_to_category: true,
        last_updated: 5,
    }
}

fn success() -> FinishedExecution {
    FinishedExecution { stdout: String::new(), stderr: String::new(), runtime_ms: 10, exit_status: Some(0) }
}

#[test]
fn new_test_belongs_to_submitter() {
    let t = prepare_test(TestId("t1".to_string()), &TeamId("a".to_string()), false, None, payload("lab1"), &config(), 10)
        .unwrap();
    assert_eq!(t.owner.0, "a");
    assert!(!t.admin_authored);
    assert!(!t.limited_to_category);
    assert_eq!(t.provisional_for_category, None);
    assert_eq!(t.last_updated, 10);
    assert_eq!(t.category, "lab1");
}

#[test]
fn test_after_deadline_is_provisional() {
    let t = prepare_test(TestId("t2".to_string()), &TeamId("a".to_string()), false, None, payload("lab1"), &config(), 60)
        .unwrap();
    assert_eq!(t.provisional_for_category, Some("lab1".to_string()));
}

#[test]
fn admin_edit_keeps_owner_and_flags() {
    let existing = stored("a", None);
    let t = prepare_test(TestId("t1".to_string()), &TeamId("admins".to_string()), true, Some(&existing), payload("lab1"), &config(), 10)
        .unwrap();
    assert_eq!(t.owner.0, "a");
    assert!(t.admin_authored);
    assert!(t.limited_to_category);
}

#[test]
fn stranger_may_not_edit() {
    let existing = stored("a", None);
    let r = prepare_test(TestId("t1".to_string()), &TeamId("b".to_string()), false, Some(&existing), payload("lab1"), &config(), 10);
    assert!(matches!(r, Err(WebError::Unauthorized)));
}

#[test]
fn unknown_category_is_not_found() {
    let r = prepare_test(TestId("t1".to_string()), &TeamId("a".to_string()), false, None, payload("lab9"), &config(), 10);
    match r {
        Err(WebError::NamedNotFound { what }) => assert_eq!(what, "lab9"),
        other => panic!("unexpected {:?}", other),
    }
}

#[test]
fn finalized_test_is_frozen_after_deadline() {
    let existing = stored("a", None);
    let r = prepare_test(TestId("t1".to_string()), &TeamId("a".to_string()), false, Some(&existing), payload("lab1"), &config(), 60);
    match r {
        Err(WebError::NamedUnauthorized { action }) => assert_eq!(action, "edit an existing test after test deadline"),
        other => panic!("unexpected {:?}", other),
    }
    let provisional = stored("a", Some("lab1"));
    assert!(prepare_test(TestId("t1".to_string()), &TeamId("a".to_string()), false, Some(&provisional), payload("lab1"), &config(), 60).is_ok());
}

#[test]
fn failed_tasting_rejects_unless_ignored() {
    let failed = TestExecutionOutput::CompilerFailed { compiler_output: ExecutionOutput::Failure { execution: success(), accumulated_errors: None } };
    assert!(matches!(tasting_verdict(Some(failed.clone()), false), Err(SetTestResponse::TastingFailed { .. })));
    assert!(matches!(tasting_verdict(Some(failed), true), Ok(Some(_))));
    let ok = TestExecutionOutput::Success {
        compiler_output: ExecutionOutput::Success(success()),
        binary_output: ExecutionOutput::Success(success()),
    };
    assert!(matches!(tasting_verdict(Some(ok), false), Ok(Some(_))));
    assert!(matches!(tasting_verdict(None, false), Ok(None)));
}

#[test]
fn delete_rules() {
    let team = TeamId("a".to_string());
    assert!(check_delete(&team, true, None, &config(), 10).is_ok());
    assert!(matches!(check_delete(&team, false, None, &config(), 10), Err(WebError::NotFound)));
    let other = stored("b", None);
    assert!(matches!(check_delete(&team, false, Some(&other), &config(), 10), Err(WebError::Unauthorized)));
    let mine = stored("a", None);
    assert!(check_delete(&team, false, Some(&mine), &config(), 10).is_ok());
    match check_delete(&team, false, Some(&mine), &config(), 60) {
        Err(WebError::NamedUnauthorized { action }) => assert_eq!(action, "delete a finalized test"),
        other => panic!("unexpected {:?}", other),
    }
    let provisional = stored("a", Some("lab1"));
    assert!(check_delete(&team, false, Some(&provisional), &config(), 60).is_ok());
}

#[test]
fn categories_are_found_by_name() {
    assert_eq!(find_category(&config(), "lab2").map(|c| c.tests_end_at), Some(200));
    assert!(find_category(&config(), "lab3").is_none());
}

#[test]
fn web_error_codes() {
    assert_eq!(WebError::Unauthorized.to_http_code(), 401);
    assert_eq!(WebError::NotFound.to_http_code(), 404);
    assert_eq!(WebError::NotInTeam.to_http_code(), 403);
    assert_eq!(WebError::Sqlx.to_http_code(), 500);
    assert_eq!(WebError::InvalidCredentials.to_error_code(), "invalid_credentials");
    assert_eq!(WebError::NamedNotFound { what: "x".to_string() }.to_error_code(), "named_not_found");
    assert_eq!(
        WebError::NamedNotFound { what: "x".to_string() }.to_extra(),
        Some(("what".to_string(), "x".to_string()))
    );
    assert!(WebError::InternalError { message: "m".to_string() }.is_internal());
    assert!(!WebError::NotFound.is_internal());
}

#[test]
fn final_task_moves() {
    let payload = SetFinalTaskPayload { task_id: TaskId("t9".to_string()), categories: vec!["lab2".to_string()] };
    let current = vec![None, None];
    assert!(check_final_task_change(&payload, &config(), &current, 150).is_ok());
    match check_final_task_change(&payload, &config(), &current, 350) {
        Err(WebError::NamedUnauthorized { action }) => {
            assert_eq!(action, "submit solution, as `lab2` is already past the deadline")
        }
        other => panic!("unexpected {:?}", other),
    }
    let unknown = SetFinalTaskPayload { task_id: TaskId("t9".to_string()), categories: vec!["lab7".to_string()] };
    match check_final_task_change(&unknown, &config(), &current, 10) {
        Err(WebError::NamedNotFound { what }) => assert_eq!(what, "category `lab7`"),
        other => panic!("unexpected {:?}", other),
    }
    let already = vec![None, Some(TaskId("t9".to_string()))];
    assert!(check_final_task_change(&payload, &config(), &already, 350).is_ok());
    let leave = SetFinalTaskPayload { task_id: TaskId("t9".to_string()), categories: vec![] };
    let in_lab1 = vec![Some(TaskId("t9".to_string())), None];
    match check_final_task_change(&leave, &config(), &in_lab1, 150) {
        Err(WebError::NamedUnauthorized { action }) => assert_eq!(action, "change the solution, as `lab1` was already due"),
        other => panic!("unexpected {:?}", other),
    }
}

#[test]
fn rerun_plans_each_final_task() {
    let finals = vec![
        (TeamId("a".to_string()), Some("rev-a".to_string())),
        (TeamId("b".to_string()), None),
    ];
    let plan = rerun_plan("lab1", &config(), &finals).unwrap();
    assert_eq!(plan.errors, vec!["No final task found for team `b` in category `lab1`".to_string()]);
    assert_eq!(plan.reruns.len(), 1);
    assert_eq!(plan.reruns[0].0 .0, "a");
    assert_eq!(plan.reruns[0].1, "rev-a");
    match rerun_plan("lab5", &config(), &finals) {
        Err(WebError::NamedNotFound { what }) => assert_eq!(what, "Category `lab5`"),
        other => panic!("unexpected {:?}", other.map(|_| ())),
    }
    let item = rerun_task(TaskId("x".to_string()), TeamId("a".to_string()), "rev-a".to_string(), "lab1", 7);
    assert_eq!(item.commit_message, "Grading rerun for category `lab1`");
    assert_eq!(item.insert_time, 7);
}

#[test]
fn removed_teams_are_those_not_configured() {
    let teams = vec![TeamEntry {
        id: TeamId("a".to_string()),
        display_name: "A".to_string(),
        members: vec![],
        is_admin: false,
    }];
    let existing = vec!["a".to_string(), "old".to_string(), "gone".to_string()];
    assert_eq!(teams_to_remove(&existing, &teams), vec!["old".to_string(), "gone".to_string()]);
}

fn summary(output: ExecutionExitStatus, provisional: bool) -> FinishedTestSummary {
    FinishedTestSummary {
        test_id: TestId("t".to_string()),
        output,
        provisional_for_category: if provisional { Some("lab2".to_string()) } else { None },
        category: Some("lab1".to_string()),
    }
}

#[test]
fn statistics_partition_the_tests() {
    let tests = vec![
        summary(ExecutionExitStatus::Success, false),
        summary(ExecutionExitStatus::Success, true),
        summary(ExecutionExitStatus::Failure, false),
        summary(ExecutionExitStatus::Timeout, false),
        summary(ExecutionExitStatus::Aborted, true),
    ];
    let st = FinishedCompilerTaskStatistics::from_summaries(&tests);
    assert_eq!(st.total.total, 5);
    assert_eq!(st.total.provisional, 2);
    assert_eq!(st.success.total, 2);
    assert_eq!(st.success.provisional, 1);
    assert_eq!(st.failure.normal, 1);
    assert_eq!(st.timeout.total, 1);
    assert_eq!(st.abort.provisional, 1);
    assert_eq!(st.error.total, 0);
    assert_eq!(
        st.abort.total + st.error.total + st.failure.total + st.success.total + st.timeout.total,
        st.total.total
    );
}

fn info() -> FinishedTaskInfo {
    FinishedTaskInfo {
        task_id: "task".to_string(),
        start_ms: 1,
        end_ms: 2,
        team_id: "a".to_string(),
        revision_id: "rev".to_string(),
        commit_message: "msg".to_string(),
    }
}

#[test]
fn task_summary_counts_tests() {
    let tests = vec![
        FinishedTest {
            test_id: "x".to_string(),
            output: TestExecutionOutput::Success {
                compiler_output: ExecutionOutput::Success(success()),
                binary_output: ExecutionOutput::Success(success()),
            },
            provisional_for_category: None,
            category: None,
        },
        FinishedTest {
            test_id: "y".to_string(),
            output: TestExecutionOutput::BinaryFailed {
                compiler_output: ExecutionOutput::Success(success()),
                binary_output: ExecutionOutput::Failure { execution: success(), accumulated_errors: None },
            },
            provisional_for_category: None,
            category: None,
        },
    ];
    let task = FinishedCompilerTask::RanTests { info: info(), build_output: success(), tests };
    assert_eq!(QueuedTaskStatus::from_task(&task), QueuedTaskStatus::Failure);
    match FinishedCompilerTaskSummary::from_task(task, vec![TestId("y".to_string())]) {
        FinishedCompilerTaskSummary::RanTests { statistics, outdated, info } => {
            assert_eq!(statistics.success.total, 1);
            assert_eq!(statistics.failure.total, 1);
            assert_eq!(statistics.total.total, 2);
            assert_eq!(outdated.len(), 1);
            assert_eq!(info.task_id, "task");
        }
        _ => panic!("expected tests"),
    }
    let failed = FinishedCompilerTask::BuildFailed { info: info(), build_output: ExecutionOutput::Timeout(success()) };
    match FinishedCompilerTaskSummary::from_task(failed, vec![]) {
        FinishedCompilerTaskSummary::BuildFailed { status, .. } => assert_eq!(status, ExecutionExitStatus::Timeout),
        _ => panic!("expected a failed build"),
    }
}

#[test]
fn login_team_is_the_last_listing() {
    let teams = vec![
        TeamEntry {
            id: TeamId("first".to_string()),
            display_name: "First".to_string(),
            members: vec![UserId("u1".to_string()), UserId("u2".to_string())],
            is_admin: false,
        },
        TeamEntry {
            id: TeamId("tutors".to_string()),
            display_name: "Tutors".to_string(),
            members: vec![UserId("u2".to_string())],
            is_admin: true,
        },
    ];
    let mapping = get_team_mapping(&teams);
    assert_eq!(mapping.len(), 2);
    let (team, role) = team_of_user(&mapping, &UserId("u2".to_string())).unwrap();
    assert_eq!(team.0, "tutors");
    assert_eq!(role, UserRole::Admin);
    let (team, role) = team_of_user(&mapping, &UserId("u1".to_string())).unwrap();
    assert_eq!(team.0, "first");
    assert_eq!(role, UserRole::Regular);
    assert!(team_of_user(&mapping, &UserId("nobody".to_string())).is_none());
}

#[test]
fn stored_runs_read_back() {
    let runs = vec![
        ExecutionOutput::Success(success()),
        ExecutionOutput::Failure {
            execution: FinishedExecution { exit_status: Some(3), ..success() },
            accumulated_errors: None,
        },
        ExecutionOutput::Failure {
            execution: FinishedExecution { exit_status: Some(1), ..success() },
            accumulated_errors: Some("expected 3 lines".into()),
        },
        ExecutionOutput::Timeout(FinishedExecution { exit_status: None, ..success() }),
        ExecutionOutput::Aborted(AbortedExecution { stdout: "o".into(), stderr: "e".into(), runtime_ms: 4 }),
        ExecutionOutput::Error(InternalError { message: "boom".into(), runtime_ms: 2 }),
    ];
    for run in runs {
        let row = ExecutionRow::from_output(&run);
        let back = row.into_output();
        assert_eq!(format!("{:?}", back), format!("{:?}", run));
    }
    let row = ExecutionRow::from_output(&ExecutionOutput::Error(InternalError { message: "m".into(), runtime_ms: 1 }));
    assert_eq!(row.stdout, "");
    assert_eq!(row.error, Some("m".to_string()));
    assert_eq!(row.accumulated_errors, None);
    let missing = ExecutionRow { error: None, ..row };
    match missing.into_output() {
        ExecutionOutput::Error(e) => assert_eq!(e.message, "N/A"),
        other => panic!("unexpected {:?}", other),
    }
}

#[test]
fn relayed_updates_sum_up_tests() {
    let update = ExecutorUpdate::FinishedTest {
        result: FinishedTest {
            test_id: "t".to_string(),
            output: TestExecutionOutput::CompilerFailed { compiler_output: ExecutionOutput::Timeout(success()) },
            provisional_for_category: None,
            category: Some("lab1".to_string()),
        },
    };
    match RunnerUpdate::from_executor(update) {
        RunnerUpdate::FinishedTest { result } => {
            assert_eq!(result.test_id.0, "t");
            assert_eq!(result.output, ExecutionExitStatus::Timeout);
        }
        other => panic!("unexpected {:?}", other),
    }
    assert!(matches!(RunnerUpdate::from_executor(ExecutorUpdate::Done), RunnerUpdate::Done));
}

#[test]
fn finalized_tasks_keep_their_statistics() {
    let failed = FinishedCompilerTaskSummary::BuildFailed { info: info(), status: ExecutionExitStatus::Failure };
    let f = FinalizedTask::from_summary(failed);
    assert_eq!(f.task_id.0, "task");
    assert_eq!(f.statistics.total.total, 0);
}

#[test]
fn stored_hash_covers_owner_and_category() {
    let a = stored("a", None);
    let b = stored("b", None);
    let ha = stored_test_hash(&a, "[]", "[]");
    assert_eq!(ha.len(), 64);
    assert_ne!(ha, stored_test_hash(&b, "[]", "[]"));
    assert_eq!(ha, stored_test_hash(&stored("a", Some("lab1")), "[]", "[]"));
}
