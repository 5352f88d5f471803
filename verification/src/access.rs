//! Who may see and change what through the backend's team and task endpoints, and the small
//! choices those endpoints make.
use vstd::prelude::*;
use crate::execution::{FinalSubmittedTask, FinishedCompilerTaskSummary};
use crate::ids::TeamId;
use crate::queue::WorkItem;
use crate::text::same_text;
use crate::users::{Team, WebError};

verus! {

/// Whether a user of `own_team` may act on the team `target`: admins always, others only on
/// their own team; the others are refused with `Unauthorized`.
pub fn check_team_access(is_admin: bool, own_team: &TeamId, target: &TeamId) -> (res: Result<(), WebError>)
    ensures
        (is_admin || own_team@ == target@) ==> res is Ok,
        !(is_admin || own_team@ == target@) ==> (res matches Err(WebError::Unauthorized)),
{
    if !is_admin && !same_text(own_team.0.as_str(), target.0.as_str()) {
        return Err(WebError::Unauthorized);
    }
    Ok(())
}

/// The team whose repository a user sees: the requested one for an admin, their own otherwise.
pub fn repo_team(is_admin: bool, own_team: &TeamId, requested: &TeamId) -> (res: TeamId)
    ensures
        res@ == if is_admin { requested@ } else { own_team@ },
{
    if is_admin {
        requested.duplicate()
    } else {
        own_team.duplicate()
    }
}

/// How many recent tasks to list when `count` are asked for: all of them for zero.
pub fn recent_task_limit(count: u32) -> (res: u32)
    ensures
        res == if count == 0 { u32::MAX } else { count },
{
    if count == 0 {
        u32::MAX
    } else {
        count
    }
}

/// Whether grading points are computed for a team's final task: only once it is finalized.
pub fn points_for(task: &FinalSubmittedTask) -> (res: bool)
    ensures
        res == (*task is Finalized),
{
    match task {
        FinalSubmittedTask::Finalized { .. } => true,
        _ => false,
    }
}

/// The display name of team `id` among `teams`: that of its last entry, or empty where it has
/// none.
pub open spec fn team_name(teams: Seq<Team>, id: Seq<char>) -> Seq<char>
    decreases teams.len(),
{
    if teams.len() == 0 {
        Seq::empty()
    } else if teams.last().id@ == id {
        teams.last().display_name@
    } else {
        team_name(teams.drop_last(), id)
    }
}

/// The display name of team `id`.
pub fn team_name_of(teams: &Vec<Team>, id: &TeamId) -> (res: String)
    ensures
        res@ == team_name(teams@, id@),
{
    let mut k: usize = teams.len();
    assert(teams@.take(k as int) =~= teams@);
    while k > 0
        invariant
            k <= teams.len(),
            team_name(teams@, id@) == team_name(teams@.take(k as int), id@),
        decreases k,
    {
        assert(teams@.take(k as int).drop_last() =~= teams@.take(k - 1));
        assert(teams@.take(k as int).last() == teams@[k - 1]);
        if same_text(teams[k - 1].id.0.as_str(), id.0.as_str()) {
            return teams[k - 1].display_name.clone();
        }
        k = k - 1;
    }
    String::new()
}

/// A team's best task with the team's display name, as the leaderboard shows it.
#[derive(Debug, Clone)]
pub struct ApiFinishedCompilerTaskSummary {
    pub task: FinishedCompilerTaskSummary,
    pub team_name: String,
}

/// The leaderboard rows: each team's best task with the team's display name.
pub fn top_task_rows(top: Vec<(TeamId, FinishedCompilerTaskSummary)>, teams: &Vec<Team>) -> (res: Vec<
    (TeamId, ApiFinishedCompilerTaskSummary),
>)
    ensures
        res@.len() == top@.len(),
        forall|i: int| 0 <= i < res@.len() ==> (#[trigger] res@[i]).0 == top@[i].0 && res@[i].1.task == top@[i].1
            && res@[i].1.team_name@ == team_name(teams@, top@[i].0@),
{
    let mut res: Vec<(TeamId, ApiFinishedCompilerTaskSummary)> = Vec::new();
    let mut rest = top;
    let ghost all = rest@;
    assert(all.skip(0) =~= all);
    while rest.len() > 0
        invariant
            res@.len() + rest@.len() == all.len(),
            rest@ == all.skip(res@.len() as int),
            forall|k: int| 0 <= k < res@.len() ==> (#[trigger] res@[k]).0 == all[k].0 && res@[k].1.task == all[k].1
                && res@[k].1.team_name@ == team_name(teams@, all[k].0@),
        decreases rest.len(),
    {
        let ghost n = res@.len() as int;
        assert(rest@[0] == all[n]);
        let (team, task) = rest.remove(0);
        assert(rest@ =~= all.skip(n + 1));
        let team_name = team_name_of(teams, &team);
        res.push((team, ApiFinishedCompilerTaskSummary { task, team_name }));
    }
    res
}

/// The answer about a queued task: not found while an executor runs it or once it left the
/// queue, else the queued task.
pub fn queued_task_answer(running: bool, queued: Option<WorkItem>) -> (res: Result<WorkItem, WebError>)
    ensures
        running ==> (res matches Err(WebError::NotFound)),
        !running ==> match queued {
            Some(w) => res == Ok::<WorkItem, WebError>(w),
            None => res matches Err(WebError::NotFound),
        },
{
    if running {
        return Err(WebError::NotFound);
    }
    match queued {
        Some(w) => Ok(w),
        None => Err(WebError::NotFound),
    }
}

} // verus!
