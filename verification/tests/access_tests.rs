use crow::access::{check_team_access, points_for, queued_task_answer, recent_task_limit, repo_team, team_name_of, top_task_rows};
use crow::submissions::{choose_final_task, ManualChoice};
use crow::execution::{ExecutionExitStatus, FinalSubmittedTask, FinishedCompilerTaskSummary, FinishedTaskInfo};
use crow::ids::{TaskId, TeamId};
use crow::queue::WorkItem;
use crow::users::{Team, WebError};

fn team(id: &str, name: &str) -> Team {
    Team { id: TeamId(id.to_string()), display_name: name.to_string() }
}

fn summary(task: &str) -> FinishedCompilerTaskSummary {
    FinishedCompilerTaskSummary::BuildFailed {
        info: FinishedTaskInfo {
            task_id: task.to_string(),
            start_ms: 0,
            end_ms: 1,
            team_id: "a".to_string(),
            revision_id: "r".to_string(),
            commit_message: String::new(),
        },
        status: ExecutionExitStatus::Failure,
    }
}

#[test]
fn teams_act_only_on_themselves() {
    let a = TeamId("a".to_string());
    let b = TeamId("b".to_string());
    assert!(check_team_access(false, &a, &a).is_ok());
    assert!(matches!(check_team_access(false, &a, &b), Err(WebError::Unauthorized)));
    assert!(check_team_access(true, &a, &b).is_ok());
    assert_eq!(repo_team(false, &a, &b).0, "a");
    assert_eq!(repo_team(true, &a, &b).0, "b");
}

#[test]
fn zero_recent_tasks_means_all() {
    assert_eq!(recent_task_limit(0), u32::MAX);
    assert_eq!(recent_task_limit(10), 10);
}

#[test]
fn points_only_for_finalized_tasks() {
    assert!(points_for(&FinalSubmittedTask::Finalized { summary: summary("t") }));
    assert!(!points_for(&FinalSubmittedTask::AutomaticallySelected { summary: summary("t") }));
    let chosen = FinalSubmittedTask::ManuallyOverridden { summary: summary("t"), user_id: "u".to_string(), time: 3 };
    assert!(!points_for(&chosen));
    assert_eq!(chosen.task_id().0, "t");
}

#[test]
fn leaderboard_names_teams() {
    let teams = vec![team("a", "Alpha"), team("b", "Beta")];
    assert_eq!(team_name_of(&teams, &TeamId("b".to_string())), "Beta");
    assert_eq!(team_name_of(&teams, &TeamId("z".to_string())), "");
    let rows = top_task_rows(
        vec![(TeamId("b".to_string()), summary("t1")), (TeamId("z".to_string()), summary("t2"))],
        &teams,
    );
    assert_eq!(rows.len(), 2);
    assert_eq!(rows[0].1.team_name, "Beta");
    assert_eq!(rows[1].1.team_name, "");
    assert_eq!(rows[1].1.task.info().task_id, "t2");
}

#[test]
fn queued_tasks_are_found_only_while_waiting() {
    let w = WorkItem {
        id: TaskId("t".to_string()),
        team: TeamId("a".to_string()),
        revision: "r".to_string(),
        commit_message: String::new(),
        insert_time: 0,
    };
    assert!(matches!(queued_task_answer(true, Some(w.clone())), Err(WebError::NotFound)));
    assert!(matches!(queued_task_answer(false, None), Err(WebError::NotFound)));
    assert_eq!(queued_task_answer(false, Some(w)).unwrap().id.0, "t");
}

#[test]
fn final_task_precedence() {
    let manual = || Some(ManualChoice { summary: summary("m"), user_id: "u".to_string(), time: 7 });
    let chosen = choose_final_task(true, Some(summary("f")), manual(), Some(summary("a"))).unwrap();
    assert!(matches!(chosen, FinalSubmittedTask::Finalized { .. }));
    assert_eq!(chosen.task_id().0, "f");
    let chosen = choose_final_task(false, Some(summary("f")), manual(), Some(summary("a"))).unwrap();
    match &chosen {
        FinalSubmittedTask::ManuallyOverridden { user_id, time, .. } => assert_eq!((user_id.as_str(), *time), ("u", 7)),
        other => panic!("unexpected {:?}", other),
    }
    assert_eq!(chosen.task_id().0, "m");
    let chosen = choose_final_task(true, None, None, Some(summary("a"))).unwrap();
    assert!(matches!(chosen, FinalSubmittedTask::AutomaticallySelected { .. }));
    assert!(choose_final_task(true, None, None, None).is_none());
}
