//! The tasks that count for grading: which categories a team may move its final task into or
//! out of, and how the final tasks of a category are run again.
use vstd::prelude::*;
use crate::catalog::{category_lookup, find_category};
use crate::config::{SetFinalTaskPayload, TestConfig};
use crate::execution::{FinalSubmittedTask, FinishedCompilerTaskSummary};
use crate::ids::{TaskId, TeamId};
use crate::queue::WorkItem;
use crate::runners::listed;
use crate::text::{concat3, same_text};
use crate::users::WebError;

verus! {

/// Whether `o` is the task `task`.
pub open spec fn is_task(o: Option<TaskId>, task: Seq<char>) -> bool {
    match o {
        Some(t) => t@ == task,
        None => false,
    }
}

/// Whether the task `task` is the current final task of a category named `name`, where
/// `current[i]` is the current final task of the `i`-th configured category.
pub open spec fn is_current(
    cats: Seq<(String, crate::config::TestCategory)>,
    current: Seq<Option<TaskId>>,
    name: Seq<char>,
    task: Seq<char>,
) -> bool {
    exists|i: int| 0 <= i < cats.len() && (#[trigger] cats[i]).0@ == name && is_task(current[i], task)
}

/// The first category of `names` that the task may not newly count for at `now`, and whether
/// that is because the category is unknown (else its labs are past due). Categories for which
/// the task already counts are never refused.
pub open spec fn added_refusal(
    names: Seq<String>,
    cats: Seq<(String, crate::config::TestCategory)>,
    current: Seq<Option<TaskId>>,
    task: Seq<char>,
    now: int,
) -> Option<(Seq<char>, bool)>
    decreases names.len(),
{
    if names.len() == 0 {
        None
    } else {
        let n = names[0]@;
        if is_current(cats, current, n, task) {
            added_refusal(names.drop_first(), cats, current, task, now)
        } else {
            match category_lookup(cats, n) {
                None => Some((n, true)),
                Some(c) => if c.labs_end_at < now {
                    Some((n, false))
                } else {
                    added_refusal(names.drop_first(), cats, current, task, now)
                },
            }
        }
    }
}

/// The first configured category whose labs are past due at `now`, that `names` leaves out,
/// and whose current final task is `task`: the task would stop counting for it too late.
pub open spec fn removed_refusal(
    cats: Seq<(String, crate::config::TestCategory)>,
    current: Seq<Option<TaskId>>,
    names: Seq<String>,
    task: Seq<char>,
    now: int,
) -> Option<Seq<char>>
    decreases cats.len(),
{
    if cats.len() == 0 {
        None
    } else if cats[0].1.labs_end_at < now && !listed(names, cats[0].0@) && is_task(current[0], task) {
        Some(cats[0].0@)
    } else {
        removed_refusal(cats.drop_first(), current.drop_first(), names, task, now)
    }
}

fn current_contains(config: &TestConfig, current: &Vec<Option<TaskId>>, name: &str, task: &TaskId) -> (res: bool)
    requires
        current.len() == config.categories.len(),
    ensures
        res == is_current(config.categories@, current@, name@, task@),
{
    let mut i: usize = 0;
    while i < config.categories.len()
        invariant
            i <= config.categories.len(),
            current.len() == config.categories.len(),
            forall|j: int| 0 <= j < i ==> !((#[trigger] config.categories@[j]).0@ == name@ && is_task(current@[j], task@)),
        decreases config.categories.len() - i,
    {
        if same_text(config.categories[i].0.as_str(), name) {
            if let Some(t) = &current[i] {
                if same_text(t.0.as_str(), task.0.as_str()) {
                    return true;
                }
            }
        }
        i = i + 1;
    }
    false
}

fn names_contain(names: &Vec<String>, name: &str) -> (res: bool)
    ensures
        res == listed(names@, name@),
{
    let mut i: usize = 0;
    while i < names.len()
        invariant
            i <= names.len(),
            forall|j: int| 0 <= j < i ==> names@[j]@ != name@,
        decreases names.len() - i,
    {
        if same_text(names[i].as_str(), name) {
            return true;
        }
        i = i + 1;
    }
    false
}

/// Whether a team may make `payload.task_id` its final task for exactly `payload.categories`
/// at `now` (milliseconds since the epoch), where `current[i]` is its current final task for
/// the `i`-th configured category. Refused, in this order: a category that the task does not
/// count for yet and that is unknown (`NamedNotFound`) or past its labs deadline
/// (`NamedUnauthorized`); then a category past its labs deadline that the task counts for and
/// that the payload leaves out (`NamedUnauthorized`).
pub fn check_final_task_change(
    payload: &SetFinalTaskPayload,
    config: &TestConfig,
    current: &Vec<Option<TaskId>>,
    now: i64,
) -> (res: Result<(), WebError>)
    requires
        current.len() == config.categories.len(),
    ensures
        ({
            let cats = config.categories@;
            let task = payload.task_id@;
            let added = added_refusal(payload.categories@, cats, current@, task, now as int);
            let removed = removed_refusal(cats, current@, payload.categories@, task, now as int);
            match added {
                Some((n, true)) => res matches Err(WebError::NamedNotFound { what }) && what@ == "category `"@ + n
                    + "`"@,
                Some((n, false)) => res matches Err(WebError::NamedUnauthorized { action }) && action@
                    == "submit solution, as `"@ + n + "` is already past the deadline"@,
                None => match removed {
                    Some(n) => res matches Err(WebError::NamedUnauthorized { action }) && action@
                        == "change the solution, as `"@ + n + "` was already due"@,
                    None => res is Ok,
                },
            }
        }),
{
    let ghost cats = config.categories@;
    let ghost task = payload.task_id@;
    let names = &payload.categories;
    let mut k: usize = 0;
    assert(names@.skip(0) =~= names@);
    while k < names.len()
        invariant
            k <= names.len(),
            current.len() == config.categories.len(),
            cats == config.categories@,
            task == payload.task_id@,
            names == &payload.categories,
            added_refusal(names@.skip(k as int), cats, current@, task, now as int) == added_refusal(
                names@,
                cats,
                current@,
                task,
                now as int,
            ),
        decreases names.len() - k,
    {
        let ghost rest = names@.skip(k as int);
        assert(rest[0] == names@[k as int]);
        assert(rest.drop_first() =~= names@.skip(k + 1));
        let name = names[k].as_str();
        if !current_contains(config, current, name, &payload.task_id) {
            match find_category(config, name) {
                None => {
                    return Err(WebError::NamedNotFound { what: concat3("category `", name, "`") });
                },
                Some(c) => {
                    if c.is_after_labs_deadline(now) {
                        return Err(
                            WebError::NamedUnauthorized {
                                action: concat3("submit solution, as `", name, "` is already past the deadline"),
                            },
                        );
                    }
                },
            }
        }
        k = k + 1;
    }
    assert(names@.skip(k as int) =~= Seq::<String>::empty());
    let mut i: usize = 0;
    assert(cats.skip(0) =~= cats);
    assert(current@.skip(0) =~= current@);
    while i < config.categories.len()
        invariant
            i <= config.categories.len(),
            current.len() == config.categories.len(),
            cats == config.categories@,
            task == payload.task_id@,
            names == &payload.categories,
            added_refusal(names@, cats, current@, task, now as int) is None,
            removed_refusal(cats.skip(i as int), current@.skip(i as int), names@, task, now as int)
                == removed_refusal(cats, current@, names@, task, now as int),
        decreases config.categories.len() - i,
    {
        let ghost rc = cats.skip(i as int);
        let ghost rcur = current@.skip(i as int);
        assert(rc[0] == cats[i as int]);
        assert(rcur[0] == current@[i as int]);
        assert(rc.drop_first() =~= cats.skip(i + 1));
        assert(rcur.drop_first() =~= current@.skip(i + 1));
        let name = config.categories[i].0.as_str();
        let meta = config.categories[i].1;
        if meta.is_after_labs_deadline(now) && !names_contain(names, name) {
            if let Some(t) = &current[i] {
                if same_text(t.0.as_str(), payload.task_id.0.as_str()) {
                    return Err(
                        WebError::NamedUnauthorized {
                            action: concat3("change the solution, as `", name, "` was already due"),
                        },
                    );
                }
            }
        }
        i = i + 1;
    }
    assert(cats.skip(i as int) =~= Seq::<(String, crate::config::TestCategory)>::empty());
    Ok(())
}

/// The commit message of a task that reruns the final submissions of `category`.
pub open spec fn rerun_message(category: Seq<char>) -> Seq<char> {
    "Grading rerun for category `"@ + category + "`"@
}

/// The error for a team without a final task in `category`.
pub open spec fn missing_final_message(team: Seq<char>, category: Seq<char>) -> Seq<char> {
    "No final task found for team `"@ + team + "` in category `"@ + category + "`"@
}

/// What rerunning the final submissions of a category calls for: the errors of the teams
/// without a final task, and the revision to run again for each of the others.
#[derive(Debug, Clone)]
pub struct RerunPlan {
    pub errors: Vec<String>,
    pub reruns: Vec<(TeamId, String)>,
}

/// The plan for rerunning the final submissions of `category`, where `finals` holds each
/// team with the revision of its final task in that category, if it has one. An unknown
/// category is refused (`NamedNotFound`). Teams keep their order.
pub fn rerun_plan(category: &str, config: &TestConfig, finals: &Vec<(TeamId, Option<String>)>) -> (res: Result<
    RerunPlan,
    WebError,
>)
    ensures
        category_lookup(config.categories@, category@) is None ==> (res matches Err(WebError::NamedNotFound { what })
            && what@ == "Category `"@ + category@ + "`"@),
        category_lookup(config.categories@, category@) is Some ==> (res matches Ok(plan) && ({
            let missing = finals@.filter(|f: (TeamId, Option<String>)| f.1 is None);
            let present = finals@.filter(|f: (TeamId, Option<String>)| f.1 is Some);
            &&& plan.errors@.len() == missing.len()
            &&& forall|i: int| 0 <= i < missing.len() ==> (#[trigger] plan.errors@[i])@ == missing_final_message(
                missing[i].0@,
                category@,
            )
            &&& plan.reruns@.len() == present.len()
            &&& forall|i: int| 0 <= i < present.len() ==> (#[trigger] plan.reruns@[i]).0@ == present[i].0@
                && plan.reruns@[i].1@ == present[i].1->0@
        })),
{
    if find_category(config, category).is_none() {
        return Err(WebError::NamedNotFound { what: concat3("Category `", category, "`") });
    }
    let ghost missing_of = |f: (TeamId, Option<String>)| f.1 is None;
    let ghost present_of = |f: (TeamId, Option<String>)| f.1 is Some;
    let mut errors: Vec<String> = Vec::new();
    let mut reruns: Vec<(TeamId, String)> = Vec::new();
    let mut i: usize = 0;
    while i < finals.len()
        invariant
            i <= finals.len(),
            forall|f: (TeamId, Option<String>)| #[trigger] missing_of(f) == (f.1 is None),
            forall|f: (TeamId, Option<String>)| #[trigger] present_of(f) == (f.1 is Some),
            errors@.len() == finals@.take(i as int).filter(missing_of).len(),
            forall|k: int| 0 <= k < errors@.len() ==> (#[trigger] errors@[k])@ == missing_final_message(
                finals@.take(i as int).filter(missing_of)[k].0@,
                category@,
            ),
            reruns@.len() == finals@.take(i as int).filter(present_of).len(),
            forall|k: int| 0 <= k < reruns@.len() ==> (#[trigger] reruns@[k]).0@ == finals@.take(i as int).filter(
                present_of,
            )[k].0@ && reruns@[k].1@ == finals@.take(i as int).filter(present_of)[k].1->0@,
        decreases finals.len() - i,
    {
        proof {
            crate::client::lemma_filter_take_step(finals@, missing_of, i as int);
            crate::client::lemma_filter_take_step(finals@, present_of, i as int);
        }
        let team = &finals[i].0;
        match &finals[i].1 {
            Some(revision) => {
                assert(present_of(finals@[i as int]) && !missing_of(finals@[i as int]));
                reruns.push((team.duplicate(), revision.clone()));
            },
            None => {
                assert(!present_of(finals@[i as int]) && missing_of(finals@[i as int]));
                let mut m = String::from_str("No final task found for team `");
                m.append(team.0.as_str());
                m.append("` in category `");
                m.append(category);
                m.append("`");
                errors.push(m);
            },
        }
        i = i + 1;
    }
    assert(finals@.take(i as int) =~= finals@);
    assert(missing_of =~= (|f: (TeamId, Option<String>)| f.1 is None));
    assert(present_of =~= (|f: (TeamId, Option<String>)| f.1 is Some));
    Ok(RerunPlan { errors, reruns })
}

/// The task that reruns `revision` of `team` for grading `category`, queued at `now_ns`
/// (nanoseconds since the epoch) under the fresh id `task_id`.
pub fn rerun_task(task_id: TaskId, team: TeamId, revision: String, category: &str, now_ns: u64) -> (res: WorkItem)
    ensures
        res.id == task_id,
        res.team == team,
        res.revision == revision,
        res.commit_message@ == rerun_message(category@),
        res.insert_time == now_ns,
{
    WorkItem {
        id: task_id,
        team,
        revision,
        commit_message: concat3("Grading rerun for category `", category, "`"),
        insert_time: now_ns,
    }
}

/// A team's manual choice of final task in a category: the task's summary, who chose it and
/// when.
#[derive(Debug, Clone)]
pub struct ManualChoice {
    pub summary: FinishedCompilerTaskSummary,
    pub user_id: String,
    pub time: i64,
}

/// The final task of a team in a category: its finalized task where finalized tasks count and
/// it has one, else its manual choice, else the automatically selected best task, if any.
pub open spec fn final_task_spec(
    respect_finalized: bool,
    finalized: Option<FinishedCompilerTaskSummary>,
    manual: Option<ManualChoice>,
    automatic: Option<FinishedCompilerTaskSummary>,
) -> Option<FinalSubmittedTask> {
    if respect_finalized && finalized is Some {
        Some(FinalSubmittedTask::Finalized { summary: finalized->0 })
    } else if manual is Some {
        Some(
            FinalSubmittedTask::ManuallyOverridden {
                summary: manual->0.summary,
                user_id: manual->0.user_id,
                time: manual->0.time,
            },
        )
    } else {
        match automatic {
            Some(summary) => Some(FinalSubmittedTask::AutomaticallySelected { summary }),
            None => None,
        }
    }
}

/// The final task of a team in a category, from its finalized task, its manual choice and its
/// automatically selected best task, in that order of precedence.
pub fn choose_final_task(
    respect_finalized: bool,
    finalized: Option<FinishedCompilerTaskSummary>,
    manual: Option<ManualChoice>,
    automatic: Option<FinishedCompilerTaskSummary>,
) -> (res: Option<FinalSubmittedTask>)
    ensures
        res == final_task_spec(respect_finalized, finalized, manual, automatic),
{
    if respect_finalized {
        if let Some(summary) = finalized {
            return Some(FinalSubmittedTask::Finalized { summary });
        }
    }
    match manual {
        Some(m) => Some(FinalSubmittedTask::ManuallyOverridden { summary: m.summary, user_id: m.user_id, time: m.time }),
        None => match automatic {
            Some(summary) => Some(FinalSubmittedTask::AutomaticallySelected { summary }),
            None => None,
        },
    }
}

} // verus!
