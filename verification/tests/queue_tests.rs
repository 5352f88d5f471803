use crow::catalog::Test;
use crow::config::RunnerForFrontend;
use crow::execution::{RunnerUpdate, RunnerWorkForFrontend};
use crow::ids::{TaskId, TeamId, TestId};
use crow::queue::{Queue, WorkItem};
use crow::runners::{queue_listing, RunnerTable, TestTasting};

fn item(id: &str, team: &str, time: u64) -> WorkItem {
    WorkItem {
        id: TaskId(id.to_string()),
        team: TeamId(team.to_string()),
        revision: format!("rev-{id}"),
        commit_message: String::new(),
        insert_time: time,
    }
}

fn ids(v: &[WorkItem]) -> Vec<String> {
    v.iter().map(|w| w.id.0.clone()).collect()
}

fn sample() -> Vec<WorkItem> {
    vec![item("a1", "alpha", 1), item("a2", "alpha", 2), item("b1", "beta", 3), item("c1", "gamma", 0)]
}

#[test]
fn teams_take_turns_oldest_first() {
    let q = Queue::new();
    assert_eq!(ids(&q.reorder_queue(sample())), vec!["a1", "b1", "c1", "a2"]);
}

#[test]
fn polling_rotates_through_teams() {
    let mut q = Queue::new();
    let mut remaining = sample();
    let mut served = Vec::new();
    while let Some(next) = q.poll_task(remaining.clone()) {
        served.push(next.id.0.clone());
        remaining.retain(|w| w.id.0 != next.id.0);
    }
    assert_eq!(served, vec!["a1", "b1", "c1", "a2"]);
}

#[test]
fn rotation_remembers_the_next_team() {
    let mut q = Queue::new();
    let first = q.poll_task(sample()).unwrap();
    assert_eq!(first.id.0, "a1");
    // a new alpha task does not jump ahead of beta, whose turn it is
    let tasks = vec![item("a0", "alpha", 0), item("b1", "beta", 3)];
    assert_eq!(q.poll_task(tasks).unwrap().id.0, "b1");
}

#[test]
fn empty_queue_gives_nothing() {
    let mut q = Queue::new();
    assert!(q.poll_task(vec![]).is_none());
    assert!(q.reorder_queue(vec![]).is_empty());
}

fn runner(id: &str, working_on: Option<RunnerWorkForFrontend>) -> RunnerForFrontend {
    RunnerForFrontend { id: id.to_string(), info: String::new(), working_on, last_seen: 0, test_taster: false }
}

#[test]
fn listing_puts_running_tasks_first() {
    let runners = vec![
        runner("r1", Some(RunnerWorkForFrontend::Testing(item("b1", "beta", 3)))),
        runner("r2", Some(RunnerWorkForFrontend::TestTasting)),
        runner("r3", None),
    ];
    let listing = queue_listing(&Queue::new(), &runners, sample());
    assert_eq!(ids(&listing), vec!["b1", "a1", "c1", "a2"]);
}

#[test]
fn runners_get_distinct_tasks() {
    let mut table = RunnerTable::new();
    table.register_runner("r1".to_string(), "one".to_string(), false, 0);
    table.register_runner("r2".to_string(), "two".to_string(), false, 0);
    let mut q = Queue::new();
    let tasks = sample();
    let w1 = table.assign_work("r1", &tasks, vec![TestId("t1".to_string())], &mut q, 5).unwrap().unwrap();
    let w2 = table.assign_work("r2", &tasks, vec![], &mut q, 6).unwrap().unwrap();
    assert_ne!(w1.id.0, w2.id.0);
    assert_eq!(w1.id.0, "a1");
    assert_eq!(w2.id.0, "b1");
    assert!(table.assign_work("nobody", &tasks, vec![], &mut q, 7).is_err());
    // the refused request did not move the rotation on: gamma is next
    let probe = table.assign_work("r1", &tasks, vec![], &mut q, 8).unwrap().unwrap();
    assert_eq!(probe.id.0, "c1");
    let running = table.get_running_task("a1").unwrap();
    assert_eq!(running.so_far.len(), 1);
    assert_eq!(running.so_far[0].time_ms, 5);
    assert!(matches!(&running.so_far[0].update, RunnerUpdate::AllTests { tests } if tests.len() == 1));
    table.update_task("r2", RunnerUpdate::StartedBuild, 9);
    assert_eq!(table.get_running_task("b1").unwrap().so_far.len(), 2);
    table.finish_task("r2");
    assert!(table.get_running_task("b1").is_none());
    assert!(table.get_current_task("r2").is_none());
    let shown = table.get_runners(&vec!["r2".to_string()]);
    assert_eq!(shown.len(), 2);
    assert!(matches!(shown[1].working_on, Some(RunnerWorkForFrontend::TestTasting)));
    assert!(matches!(&shown[0].working_on, Some(RunnerWorkForFrontend::Testing(w)) if w.id.0 == "c1"));
}

fn test(id: &str) -> Test {
    Test {
        id: TestId(id.to_string()),
        compiler_modifiers: vec![],
        binary_modifiers: vec![],
        owner: TeamId("t".to_string()),
        admin_authored: false,
        category: "lab1".to_string(),
        provisional_for_category: None,
        limited_to_category: false,
        last_updated: 0,
    }
}

#[test]
fn tastings_go_newest_first() {
    let mut tasting = TestTasting::new();
    tasting.add_tasting(test("x"), "taste-1".to_string(), 1);
    tasting.add_tasting(test("y"), "taste-2".to_string(), 2);
    assert_eq!(tasting.poll_tasting("r1".to_string()), Some("taste-2".to_string()));
    assert_eq!(tasting.get_tasting_runners(), vec!["r1".to_string()]);
    assert!(tasting.finish_tasting(&"taste-2".to_string()));
    assert!(!tasting.finish_tasting(&"taste-2".to_string()));
    assert_eq!(tasting.poll_tasting("r1".to_string()), Some("taste-1".to_string()));
    assert_eq!(tasting.poll_tasting("r2".to_string()), None);
}

#[test]
fn every_window_of_polls_serves_each_team_once() {
    let mut q = Queue::new();
    let tasks = vec![item("g", "gamma", 0), item("a", "alpha", 1), item("b", "beta", 2), item("a2", "alpha", 3)];
    let mut teams = Vec::new();
    for _ in 0..7 {
        let next = q.poll_task(tasks.clone()).unwrap();
        teams.push(next.team.0.clone());
    }
    assert_eq!(teams, vec!["alpha", "beta", "gamma", "alpha", "beta", "gamma", "alpha"]);
    for w in teams.windows(3) {
        let mut sorted = w.to_vec();
        sorted.sort();
        assert_eq!(sorted, vec!["alpha", "beta", "gamma"]);
    }
}
