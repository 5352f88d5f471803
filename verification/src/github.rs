//! The GitHub integration: which repository a team's URL names, which check-run events the
//! queue calls for, and whether a repository's workflow file needs an update.
use vstd::prelude::*;
use base64::Engine;
use crate::execution::{
    CreatedExternalRun, ExecutionExitStatus, ExternalRunStatus, QueuedTaskStatus, Repo, lemma_task_status, task_status_spec,
};
use crate::ids::{TaskId, TeamId};
use crate::queue::WorkItem;
use crate::text::{
    chars_of, concat, concat3, contains_spec, contains_text, first_index_of, lowercase_text, replace_all,
    replace_spec, starts_with_spec, string_of, strip_prefix_text, to_lowercase, trim, trim_spec, lossy_text,
    utf8_lossy,
};

verus! {

/// The part of `s` before the first `/`, or all of it.
pub open spec fn before_slash(s: Seq<char>) -> Seq<char> {
    match first_index_of(s, '/') {
        Some(i) => s.take(i),
        None => s,
    }
}

/// The owner and repository of a path `owner/repo[/...]`: the first two parts between
/// slashes, or nothing where the path has no slash.
pub open spec fn path_owner_spec(path: Seq<char>) -> Option<(Seq<char>, Seq<char>)> {
    match first_index_of(path, '/') {
        Some(i) => Some((path.take(i), before_slash(path.skip(i + 1)))),
        None => None,
    }
}

fn find_slash(v: &Vec<char>, start: usize) -> (res: Option<usize>)
    requires
        start <= v.len(),
    ensures
        match res {
            Some(i) => first_index_of(v@.skip(start as int), '/') == Some(i - start) && start <= i < v.len(),
            None => first_index_of(v@.skip(start as int), '/') is None,
        },
{
    let mut k: usize = start;
    while k < v.len()
        invariant
            start <= k <= v.len(),
            first_index_of(v@.skip(start as int), '/') == match first_index_of(v@.skip(k as int), '/') {
                Some(j) => Some(j + (k - start)),
                None => None::<int>,
            },
        decreases v.len() - k,
    {
        assert(v@.skip(k as int).drop_first() =~= v@.skip(k + 1));
        if v[k] == '/' {
            assert(v@.skip(k as int)[0] == '/');
            return Some(k);
        }
        k = k + 1;
    }
    assert(v@.skip(k as int).len() == 0);
    None
}

/// The owner and repository of a path `owner/repo`.
pub fn parse_path_to_repo_owner(path: &str) -> (res: Option<(String, String)>)
    ensures
        match path_owner_spec(path@) {
            Some((o, r)) => res matches Some(x) && x.0@ == o && x.1@ == r,
            None => res is None,
        },
{
    let v = chars_of(path);
    assert(v@.skip(0) =~= v@);
    match find_slash(&v, 0) {
        None => None,
        Some(i) => {
            let owner = string_of(&v.as_slice()[0..i]);
            assert(owner@ =~= path@.take(i as int));
            let second = find_slash(&v, i + 1);
            let end: usize = match second {
                Some(j) => j,
                None => v.len(),
            };
            let repo = string_of(&v.as_slice()[i + 1..end]);
            proof {
                let rest = path@.skip(i + 1);
                assert(v@.skip(i + 1) == rest);
                match second {
                    Some(j) => {
                        assert(rest.take(j - (i + 1)) =~= v@.subrange(i + 1, j as int));
                    },
                    None => {
                        assert(rest =~= v@.subrange(i + 1, v.len() as int));
                    },
                }
            }
            Some((owner, repo))
        },
    }
}

/// The owner and repository that a repository URL names, read in lower case: an SSH URL
/// `git@github.com:owner/repo`, or an HTTP(S) URL `github.com/owner/repo`.
pub open spec fn url_owner_spec(url: Seq<char>) -> Option<(Seq<char>, Seq<char>)> {
    let u = lowercase_text(url);
    if !contains_spec(u, "github.com"@) {
        None
    } else if starts_with_spec(u, "git@github.com:"@) {
        path_owner_spec(u.skip("git@github.com:"@.len() as int))
    } else {
        let v = replace_spec(replace_spec(u, "http://"@, Seq::empty()), "https://"@, Seq::empty());
        if starts_with_spec(v, "github.com/"@) {
            path_owner_spec(v.skip("github.com/"@.len() as int))
        } else {
            None
        }
    }
}

/// The owner and repository that a GitHub repository URL names.
pub fn parse_url_to_repo_owner(url: &str) -> (res: Option<(String, String)>)
    ensures
        match url_owner_spec(url@) {
            Some((o, r)) => res matches Some(x) && x.0@ == o && x.1@ == r,
            None => res is None,
        },
{
    proof {
        reveal_strlit("http://");
        reveal_strlit("https://");
        reveal_strlit("");
        assert(""@ =~= Seq::<char>::empty());
    }
    let url = to_lowercase(url);
    if !contains_text(url.as_str(), "github.com") {
        return None;
    }
    if let Some(rest) = strip_prefix_text(url.as_str(), "git@github.com:") {
        return parse_path_to_repo_owner(rest.as_str());
    }
    let url = replace_all(url.as_str(), "http://", "");
    let url = replace_all(url.as_str(), "https://", "");
    if let Some(rest) = strip_prefix_text(url.as_str(), "github.com/") {
        return parse_path_to_repo_owner(rest.as_str());
    }
    None
}

/// The full name of a repository: its owner and name.
#[derive(Debug, Clone)]
pub struct RepoFullName {
    pub owner: String,
    pub repo: String,
}

impl RepoFullName {
    /// The repository that a URL names, if it names a GitHub repository.
    pub fn from_url(url: &str) -> (res: Option<Self>)
        ensures
            match url_owner_spec(url@) {
                Some((o, r)) => res matches Some(x) && x.owner@ == o && x.repo@ == r,
                None => res is None,
            },
    {
        match parse_url_to_repo_owner(url) {
            Some((owner, repo)) => Some(RepoFullName { owner, repo }),
            None => None,
        }
    }

    /// `owner/repo`.
    pub fn full_name(&self) -> (res: String)
        ensures
            res@ == self.owner@ + "/"@ + self.repo@,
    {
        concat3(self.owner.as_str(), "/", self.repo.as_str())
    }

    /// The key under which the app installation of this repository is kept: its full name in
    /// lower case.
    pub fn installation_key(&self) -> (res: String)
        ensures
            res@ == lowercase_text(self.owner@ + "/"@ + self.repo@),
    {
        to_lowercase(self.full_name().as_str())
    }

    /// A copy of this name.
    pub fn duplicate(&self) -> (res: Self)
        ensures
            res.owner@ == self.owner@ && res.repo@ == self.repo@,
    {
        RepoFullName { owner: self.owner.clone(), repo: self.repo.clone() }
    }
}

} // verus!

verus! {

/// The data of a check run to create for a queued task.
#[derive(Debug, Clone)]
pub struct CheckCreateData {
    pub repo_name: RepoFullName,
    pub commitish: String,
    pub task_id: TaskId,
    pub details_url: String,
}

/// The data of a check run whose task started running.
#[derive(Debug, Clone)]
pub struct CheckStartData {
    pub repo_name: RepoFullName,
    pub check_run_id: u64,
}

/// How a finished check run concluded.
#[derive(Debug, Clone, Copy, PartialEq, Eq, Structural)]
pub enum CheckRunConclusion {
    Stale,
    Failure,
    TimedOut,
    Cancelled,
    Success,
    Neutral,
}

/// The data of a check run whose task finished.
#[derive(Debug, Clone)]
pub struct CheckFinishData {
    pub repo_name: RepoFullName,
    pub check_run_id: u64,
    pub conclusion: CheckRunConclusion,
}

/// A change of a task that GitHub has to hear about.
#[derive(Debug, Clone)]
pub enum EventForGithub {
    Queued(CheckCreateData),
    Running(CheckStartData),
    Finished { repo_name: RepoFullName, check_run_id: u64, task_id: TaskId },
}

/// The abstract value of an [`EventForGithub`].
pub enum EventView {
    Queued { owner: Seq<char>, repo: Seq<char>, commitish: Seq<char>, task_id: Seq<char>, details_url: Seq<char> },
    Running { owner: Seq<char>, repo: Seq<char>, check_run_id: u64 },
    Finished { owner: Seq<char>, repo: Seq<char>, check_run_id: u64, task_id: Seq<char> },
}

impl View for EventForGithub {
    type V = EventView;

    open spec fn view(&self) -> EventView {
        match self {
            EventForGithub::Queued(d) => EventView::Queued {
                owner: d.repo_name.owner@,
                repo: d.repo_name.repo@,
                commitish: d.commitish@,
                task_id: d.task_id@,
                details_url: d.details_url@,
            },
            EventForGithub::Running(d) => EventView::Running {
                owner: d.repo_name.owner@,
                repo: d.repo_name.repo@,
                check_run_id: d.check_run_id,
            },
            EventForGithub::Finished { repo_name, check_run_id, task_id } => EventView::Finished {
                owner: repo_name.owner@,
                repo: repo_name.repo@,
                check_run_id: *check_run_id,
                task_id: task_id@,
            },
        }
    }
}

/// The views of a sequence of events.
pub open spec fn events_view(v: Seq<EventForGithub>) -> Seq<EventView> {
    v.map_values(|e: EventForGithub| e@)
}

/// Whether the run at `i` is the last one recorded for its task.
pub open spec fn run_is_last(runs: Seq<CreatedExternalRun>, i: int) -> bool {
    forall|j: int| i < j < runs.len() ==> (#[trigger] runs[j]).task_id@ != runs[i].task_id@
}

/// Whether the task at `i` is the last one queued with its id.
pub open spec fn task_is_last(tasks: Seq<WorkItem>, i: int) -> bool {
    forall|j: int| i < j < tasks.len() ==> (#[trigger] tasks[j]).id@ != tasks[i].id@
}

/// Whether the task `id` is queued.
pub open spec fn is_queued(tasks: Seq<WorkItem>, id: Seq<char>) -> bool {
    exists|j: int| 0 <= j < tasks.len() && (#[trigger] tasks[j]).id@ == id
}

/// Whether the task `id` is running on an executor.
pub open spec fn is_running(running: Seq<TaskId>, id: Seq<char>) -> bool {
    exists|j: int| 0 <= j < running.len() && (#[trigger] running[j])@ == id
}

/// Whether a run exists for the task `id`.
pub open spec fn has_run(runs: Seq<CreatedExternalRun>, id: Seq<char>) -> bool {
    exists|j: int| 0 <= j < runs.len() && (#[trigger] runs[j]).task_id@ == id
}

/// The event that an existing run calls for: its task left the queue, so it finished; or its
/// task, queued before, now runs; or none.
pub open spec fn run_event(r: CreatedExternalRun, tasks: Seq<WorkItem>, running: Seq<TaskId>) -> Option<EventView> {
    if !is_queued(tasks, r.task_id@) {
        Some(EventView::Finished { owner: r.owner@, repo: r.repo@, check_run_id: r.run_id.0, task_id: r.task_id@ })
    } else if r.status == ExternalRunStatus::Running {
        None
    } else if !is_running(running, r.task_id@) {
        None
    } else {
        Some(EventView::Running { owner: r.owner@, repo: r.repo@, check_run_id: r.run_id.0 })
    }
}

/// The events of the first `n` runs, each task's last run only.
pub open spec fn run_events(runs: Seq<CreatedExternalRun>, tasks: Seq<WorkItem>, running: Seq<TaskId>, n: int) -> Seq<EventView>
    decreases n,
{
    if n <= 0 {
        Seq::empty()
    } else {
        let prev = run_events(runs, tasks, running, n - 1);
        if run_is_last(runs, n - 1) {
            match run_event(runs[n - 1], tasks, running) {
                Some(e) => prev.push(e),
                None => prev,
            }
        } else {
            prev
        }
    }
}

/// The repository of a team: that of its last repository whose URL names a GitHub
/// repository.
pub open spec fn repo_for(repos: Seq<Repo>, team: Seq<char>) -> Option<(Seq<char>, Seq<char>)>
    decreases repos.len(),
{
    if repos.len() == 0 {
        None
    } else if repos.last().team@ == team && url_owner_spec(repos.last().url@) is Some {
        url_owner_spec(repos.last().url@)
    } else {
        repo_for(repos.drop_last(), team)
    }
}

/// The page of a task in the frontend.
pub open spec fn details_url_spec(task_id: Seq<char>) -> Seq<char> {
    "http://localhost:5173/task-detail/"@ + task_id
}

/// The event that a queued task calls for: a new check run where it has none yet and its team
/// has a GitHub repository.
pub open spec fn task_event(w: WorkItem, runs: Seq<CreatedExternalRun>, repos: Seq<Repo>) -> Option<EventView> {
    if has_run(runs, w.id@) {
        None
    } else {
        match repo_for(repos, w.team@) {
            None => None,
            Some((o, r)) => Some(
                EventView::Queued {
                    owner: o,
                    repo: r,
                    commitish: w.revision@,
                    task_id: w.id@,
                    details_url: details_url_spec(w.id@),
                },
            ),
        }
    }
}

/// The events of the first `n` queued tasks, each id's last task only.
pub open spec fn task_events(tasks: Seq<WorkItem>, runs: Seq<CreatedExternalRun>, repos: Seq<Repo>, n: int) -> Seq<EventView>
    decreases n,
{
    if n <= 0 {
        Seq::empty()
    } else {
        let prev = task_events(tasks, runs, repos, n - 1);
        if task_is_last(tasks, n - 1) {
            match task_event(tasks[n - 1], runs, repos) {
                Some(e) => prev.push(e),
                None => prev,
            }
        } else {
            prev
        }
    }
}

fn queued_contains(tasks: &Vec<WorkItem>, id: &TaskId) -> (res: bool)
    ensures
        res == is_queued(tasks@, id@),
{
    let mut j: usize = 0;
    while j < tasks.len()
        invariant
            j <= tasks.len(),
            forall|k: int| 0 <= k < j ==> (#[trigger] tasks@[k]).id@ != id@,
        decreases tasks.len() - j,
    {
        if tasks[j].id.0 == id.0 {
            return true;
        }
        j = j + 1;
    }
    false
}

fn running_contains(running: &Vec<TaskId>, id: &TaskId) -> (res: bool)
    ensures
        res == is_running(running@, id@),
{
    let mut j: usize = 0;
    while j < running.len()
        invariant
            j <= running.len(),
            forall|k: int| 0 <= k < j ==> (#[trigger] running@[k])@ != id@,
        decreases running.len() - j,
    {
        if running[j].0 == id.0 {
            return true;
        }
        j = j + 1;
    }
    false
}

fn runs_contain(runs: &Vec<CreatedExternalRun>, id: &TaskId) -> (res: bool)
    ensures
        res == has_run(runs@, id@),
{
    let mut j: usize = 0;
    while j < runs.len()
        invariant
            j <= runs.len(),
            forall|k: int| 0 <= k < j ==> (#[trigger] runs@[k]).task_id@ != id@,
        decreases runs.len() - j,
    {
        if runs[j].task_id.0 == id.0 {
            return true;
        }
        j = j + 1;
    }
    false
}

fn last_run_of_task(runs: &Vec<CreatedExternalRun>, i: usize) -> (res: bool)
    requires
        i < runs.len(),
    ensures
        res == run_is_last(runs@, i as int),
{
    let mut j: usize = i + 1;
    while j < runs.len()
        invariant
            i < j <= runs.len(),
            forall|k: int| i < k < j ==> (#[trigger] runs@[k]).task_id@ != runs@[i as int].task_id@,
        decreases runs.len() - j,
    {
        if runs[j].task_id.0 == runs[i].task_id.0 {
            return false;
        }
        j = j + 1;
    }
    true
}

fn last_task_of_id(tasks: &Vec<WorkItem>, i: usize) -> (res: bool)
    requires
        i < tasks.len(),
    ensures
        res == task_is_last(tasks@, i as int),
{
    let mut j: usize = i + 1;
    while j < tasks.len()
        invariant
            i < j <= tasks.len(),
            forall|k: int| i < k < j ==> (#[trigger] tasks@[k]).id@ != tasks@[i as int].id@,
        decreases tasks.len() - j,
    {
        if tasks[j].id.0 == tasks[i].id.0 {
            return false;
        }
        j = j + 1;
    }
    true
}

/// The GitHub repository of a team, if it has one.
pub fn repo_for_team(repos: &Vec<Repo>, team: &TeamId) -> (res: Option<RepoFullName>)
    ensures
        match repo_for(repos@, team@) {
            Some((o, r)) => res matches Some(x) && x.owner@ == o && x.repo@ == r,
            None => res is None,
        },
{
    let mut k: usize = repos.len();
    assert(repos@.take(repos.len() as int) =~= repos@);
    while k > 0
        invariant
            k <= repos.len(),
            repo_for(repos@, team@) == repo_for(repos@.take(k as int), team@),
        decreases k,
    {
        assert(repos@.take(k as int).drop_last() =~= repos@.take(k - 1));
        assert(repos@.take(k as int).last() == repos@[k - 1]);
        if repos[k - 1].team.0 == team.0 {
            let name = RepoFullName::from_url(repos[k - 1].url.as_str());
            if name.is_some() {
                return name;
            }
        }
        k = k - 1;
    }
    None
}

/// The events that the state of the queue calls for: for each task's last run, whether it
/// finished or started running; then for each queued task without a run whose team has a
/// GitHub repository, a new check run. `running` holds the tasks that executors work on.
pub fn github_events(
    repos: &Vec<Repo>,
    existing_runs: &Vec<CreatedExternalRun>,
    queued_tasks: &Vec<WorkItem>,
    running: &Vec<TaskId>,
) -> (res: Vec<EventForGithub>)
    ensures
        events_view(res@) == run_events(existing_runs@, queued_tasks@, running@, existing_runs.len() as int)
            + task_events(queued_tasks@, existing_runs@, repos@, queued_tasks.len() as int),
{
    let mut res: Vec<EventForGithub> = Vec::new();
    let mut i: usize = 0;
    while i < existing_runs.len()
        invariant
            i <= existing_runs.len(),
            events_view(res@) == run_events(existing_runs@, queued_tasks@, running@, i as int),
        decreases existing_runs.len() - i,
    {
        let r = &existing_runs[i];
        let ghost before = events_view(res@);
        if last_run_of_task(existing_runs, i) {
            let name = RepoFullName { owner: r.owner.clone(), repo: r.repo.clone() };
            if !queued_contains(queued_tasks, &r.task_id) {
                res.push(EventForGithub::Finished { repo_name: name, check_run_id: r.run_id.0, task_id: r.task_id.duplicate() });
                assert(events_view(res@) =~= before.push(run_event(*r, queued_tasks@, running@)->0));
            } else if r.status == ExternalRunStatus::Running {
            } else if !running_contains(running, &r.task_id) {
            } else {
                res.push(EventForGithub::Running(CheckStartData { repo_name: name, check_run_id: r.run_id.0 }));
                assert(events_view(res@) =~= before.push(run_event(*r, queued_tasks@, running@)->0));
            }
        }
        i = i + 1;
    }
    let ghost runs_part = events_view(res@);
    let mut k: usize = 0;
    assert(events_view(res@) =~= runs_part + task_events(queued_tasks@, existing_runs@, repos@, 0));
    while k < queued_tasks.len()
        invariant
            k <= queued_tasks.len(),
            events_view(res@) == runs_part + task_events(queued_tasks@, existing_runs@, repos@, k as int),
        decreases queued_tasks.len() - k,
    {
        let w = &queued_tasks[k];
        let ghost before = events_view(res@);
        if last_task_of_id(queued_tasks, k) && !runs_contain(existing_runs, &w.id) {
            match repo_for_team(repos, &w.team) {
                Some(name) => {
                    let url = concat("http://localhost:5173/task-detail/", w.id.0.as_str());
                    res.push(
                        EventForGithub::Queued(
                            CheckCreateData {
                                repo_name: name,
                                commitish: w.revision.clone(),
                                task_id: w.id.duplicate(),
                                details_url: url,
                            },
                        ),
                    );
                    assert(events_view(res@) =~= before.push(task_event(*w, existing_runs@, repos@)->0));
                },
                None => {},
            }
        }
        k = k + 1;
    }
    res
}

/// How the check run of a task concludes: stale where the task is gone, else by its status.
pub open spec fn conclusion_spec(status: Option<QueuedTaskStatus>) -> CheckRunConclusion {
    match status {
        None => CheckRunConclusion::Stale,
        Some(QueuedTaskStatus::Error) => CheckRunConclusion::Failure,
        Some(QueuedTaskStatus::Timeout) => CheckRunConclusion::TimedOut,
        Some(QueuedTaskStatus::Aborted) => CheckRunConclusion::Cancelled,
        Some(QueuedTaskStatus::Success) => CheckRunConclusion::Success,
        Some(_) => CheckRunConclusion::Neutral,
    }
}

/// How the check run of a task concludes, given the task's status, or `None` where the
/// backend no longer knows the task.
pub fn check_conclusion(status: Option<QueuedTaskStatus>) -> (res: CheckRunConclusion)
    ensures
        res == conclusion_spec(status),
{
    match status {
        None => CheckRunConclusion::Stale,
        Some(QueuedTaskStatus::Error) => CheckRunConclusion::Failure,
        Some(QueuedTaskStatus::Timeout) => CheckRunConclusion::TimedOut,
        Some(QueuedTaskStatus::Aborted) => CheckRunConclusion::Cancelled,
        Some(QueuedTaskStatus::Success) => CheckRunConclusion::Success,
        Some(_) => CheckRunConclusion::Neutral,
    }
}

} // verus!

verus! {

/// The bytes that standard Base64 decodes `s` to, or `None` where `s` is not Base64.
pub uninterp spec fn base64_decoded(s: Seq<char>) -> Option<Seq<u8>>;

/// Decodes `s` with the standard Base64 engine of the `base64` crate. The contract claims only
/// that the result is a function of the text.
#[verifier::external_body]
fn decode_base64(s: &str) -> (res: Option<Vec<u8>>)
    ensures
        match base64_decoded(s@) {
            Some(b) => res matches Some(v) && v@ == b,
            None => res is None,
        },
{
    base64::engine::general_purpose::STANDARD.decode(s).ok()
}

/// The workflow file at a reference: its Base64 content and its blob sha.
pub type ExistingFileView = (Seq<char>, Seq<char>);

/// Whether the content of an existing workflow file is valid Base64.
pub open spec fn decodable(existing: Option<ExistingFileView>) -> bool {
    match existing {
        Some((content, _)) => base64_decoded(trim_spec(content)) is Some,
        None => true,
    }
}

/// The sha of the workflow file to update, and whether the file has to change: no file means
/// a change; a file with the template's text means none; another file is updated.
pub open spec fn difference_spec(existing: Option<ExistingFileView>, template: Seq<char>) -> (Option<Seq<char>>, bool) {
    match existing {
        None => (None, true),
        Some((content, sha)) => if lossy_text(base64_decoded(trim_spec(content))->0) == template {
            (None, false)
        } else {
            (Some(sha), true)
        },
    }
}

/// The views of an existing file.
pub open spec fn existing_view(e: Option<(String, String)>) -> Option<ExistingFileView> {
    match e {
        Some((c, s)) => Some((c@, s@)),
        None => None,
    }
}

/// The sha of the workflow file to update, and whether it has to change, given the file that
/// exists at a reference (its content and sha), if any.
pub fn existing_sha_and_difference(existing: &Option<(String, String)>, workflow_template: &str) -> (res: (Option<String>, bool))
    requires
        decodable(existing_view(*existing)),
    ensures
        (match res.0 {
            Some(s) => Some(s@),
            None => None::<Seq<char>>,
        }, res.1) == difference_spec(existing_view(*existing), workflow_template@),
{
    match existing {
        None => (None, true),
        Some((content, sha)) => {
            let trimmed = trim(content.as_str());
            let bytes = decode_base64(trimmed.as_str());
            match bytes {
                Some(b) => {
                    let text = utf8_lossy(b.as_slice());
                    if same_text_s(&text, workflow_template) {
                        (None, false)
                    } else {
                        (Some(sha.clone()), true)
                    }
                },
                None => (None, true),
            }
        },
    }
}

fn same_text_s(a: &String, b: &str) -> (res: bool)
    ensures
        res == (a@ == b@),
{
    crate::text::same_text(a.as_str(), b)
}

/// The sha of the workflow file to update and whether it has to change, or `None` where the
/// existing file's content is not Base64 (there the backend gives up on the repository).
pub fn workflow_difference(existing: &Option<(String, String)>, workflow_template: &str) -> (res: Option<(Option<String>, bool)>)
    ensures
        decodable(existing_view(*existing)) ==> (res matches Some(r) && (match r.0 {
            Some(s) => Some(s@),
            None => None::<Seq<char>>,
        }, r.1) == difference_spec(existing_view(*existing), workflow_template@)),
        !decodable(existing_view(*existing)) ==> res is None,
{
    match existing {
        Some((content, _)) => {
            let trimmed = trim(content.as_str());
            if decode_base64(trimmed.as_str()).is_none() {
                return None;
            }
        },
        None => {},
    }
    Some(existing_sha_and_difference(existing, workflow_template))
}

/// What to do about a repository's workflow integration.
#[derive(Debug, Clone)]
pub enum WorkflowAction {
    /// The repository has no default branch: nothing to do.
    NoDefaultBranch,
    /// The default branch already has the workflow.
    AlreadyIntegrated,
    /// The integration branch already has the workflow, waiting to be merged.
    BranchReady,
    /// Recreate the integration branch with the workflow, updating the file with this sha or
    /// adding it, and propose it.
    Propose { existing_sha: Option<String>, commit_message: String },
}

/// Whether the integration branch's workflow differs, where it was looked at.
pub open spec fn branch_differs(on_branch: Option<(Option<String>, bool)>) -> bool {
    match on_branch {
        Some(x) => x.1,
        None => true,
    }
}

/// What to do about a repository's workflow, given whether it has a default branch, the
/// difference on the default branch, and, where that differs, the difference on the
/// integration branch.
pub fn workflow_action(
    has_default_branch: bool,
    on_default: &(Option<String>, bool),
    on_branch: &Option<(Option<String>, bool)>,
) -> (res: WorkflowAction)
    requires
        has_default_branch && on_default.1 ==> on_branch is Some,
    ensures
        !has_default_branch ==> res is NoDefaultBranch,
        has_default_branch && !on_default.1 ==> res is AlreadyIntegrated,
        has_default_branch && on_default.1 && !branch_differs(*on_branch) ==> res is BranchReady,
        has_default_branch && on_default.1 && branch_differs(*on_branch) ==> (res matches WorkflowAction::Propose {
            existing_sha,
            commit_message,
        } && existing_sha == on_default.0 && commit_message@ == (if on_default.0 is Some {
            "Update crow workflow integration"@
        } else {
            "Add crow workflow integration"@
        })),
{
    if !has_default_branch {
        return WorkflowAction::NoDefaultBranch;
    }
    if !on_default.1 {
        return WorkflowAction::AlreadyIntegrated;
    }
    match on_branch {
        Some((_, false)) => WorkflowAction::BranchReady,
        _ => {
            let commit_message = if on_default.0.is_some() {
                String::from_str("Update crow workflow integration")
            } else {
                String::from_str("Add crow workflow integration")
            };
            WorkflowAction::Propose { existing_sha: on_default.0.clone(), commit_message }
        },
    }
}

/// A check run concludes as a success exactly for a task that succeeded, as a failure exactly
/// for a task that ended in an error, as timed out exactly for a timed-out task, as cancelled
/// exactly for an aborted task, and as stale exactly where the task is gone.
pub proof fn lemma_conclusion(status: Option<QueuedTaskStatus>)
    ensures
        conclusion_spec(status) == CheckRunConclusion::Success <==> status == Some(QueuedTaskStatus::Success),
        conclusion_spec(status) == CheckRunConclusion::Failure <==> status == Some(QueuedTaskStatus::Error),
        conclusion_spec(status) == CheckRunConclusion::TimedOut <==> status == Some(QueuedTaskStatus::Timeout),
        conclusion_spec(status) == CheckRunConclusion::Cancelled <==> status == Some(QueuedTaskStatus::Aborted),
        conclusion_spec(status) == CheckRunConclusion::Stale <==> status is None,
{
}

/// The check run of a finished task concludes as a success exactly when every run of the task
/// succeeded.
pub proof fn lemma_all_runs_pass_concludes_success(outcomes: Seq<ExecutionExitStatus>)
    ensures
        conclusion_spec(Some(task_status_spec(outcomes))) == CheckRunConclusion::Success <==> forall|i: int|
            0 <= i < outcomes.len() ==> outcomes[i] == ExecutionExitStatus::Success,
{
    lemma_task_status(outcomes);
    lemma_conclusion(Some(task_status_spec(outcomes)));
}

proof fn lemma_run_events_grow(runs: Seq<CreatedExternalRun>, tasks: Seq<WorkItem>, running: Seq<TaskId>, m: int, n: int, e: EventView)
    requires
        0 <= m <= n,
        run_events(runs, tasks, running, m).contains(e),
    ensures
        run_events(runs, tasks, running, n).contains(e),
    decreases n - m,
{
    if m < n {
        lemma_run_events_grow(runs, tasks, running, m, n - 1, e);
        let prev = run_events(runs, tasks, running, n - 1);
        let k = choose|k: int| 0 <= k < prev.len() && prev[k] == e;
        if n - 1 >= 0 && run_is_last(runs, n - 1) {
            if let Some(x) = run_event(runs[n - 1], tasks, running) {
                assert(prev.push(x)[k] == e);
            }
        }
    }
}

proof fn lemma_task_events_grow(tasks: Seq<WorkItem>, runs: Seq<CreatedExternalRun>, repos: Seq<Repo>, m: int, n: int, e: EventView)
    requires
        0 <= m <= n,
        task_events(tasks, runs, repos, m).contains(e),
    ensures
        task_events(tasks, runs, repos, n).contains(e),
    decreases n - m,
{
    if m < n {
        lemma_task_events_grow(tasks, runs, repos, m, n - 1, e);
        let prev = task_events(tasks, runs, repos, n - 1);
        let k = choose|k: int| 0 <= k < prev.len() && prev[k] == e;
        if n - 1 >= 0 && task_is_last(tasks, n - 1) {
            if let Some(x) = task_event(tasks[n - 1], runs, repos) {
                assert(prev.push(x)[k] == e);
            }
        }
    }
}

/// GitHub hears that a task finished: the last check run recorded for a task that is no longer
/// queued is reported finished, with its repository, its check run and its task.
pub proof fn lemma_finished_runs_reported(runs: Seq<CreatedExternalRun>, tasks: Seq<WorkItem>, running: Seq<TaskId>, i: int)
    requires
        0 <= i < runs.len(),
        forall|j: int| i < j < runs.len() ==> runs[j].task_id@ != runs[i].task_id@,
        forall|j: int| 0 <= j < tasks.len() ==> tasks[j].id@ != runs[i].task_id@,
    ensures
        run_events(runs, tasks, running, runs.len() as int).contains(
            EventView::Finished {
                owner: runs[i].owner@,
                repo: runs[i].repo@,
                check_run_id: runs[i].run_id.0,
                task_id: runs[i].task_id@,
            },
        ),
{
    let e = EventView::Finished {
        owner: runs[i].owner@,
        repo: runs[i].repo@,
        check_run_id: runs[i].run_id.0,
        task_id: runs[i].task_id@,
    };
    assert(run_is_last(runs, i));
    assert(!is_queued(tasks, runs[i].task_id@));
    let prev = run_events(runs, tasks, running, i);
    assert(run_events(runs, tasks, running, i + 1) == prev.push(e));
    assert(prev.push(e)[prev.len() as int] == e);
    lemma_run_events_grow(runs, tasks, running, i + 1, runs.len() as int, e);
}

/// GitHub hears of a new task: the last task queued with its id, with no check run yet, whose
/// team has a GitHub repository, gets a new check run on that repository for its revision,
/// pointing at the task's page.
pub proof fn lemma_queued_tasks_reported(
    tasks: Seq<WorkItem>,
    runs: Seq<CreatedExternalRun>,
    repos: Seq<Repo>,
    i: int,
    owner: Seq<char>,
    repo: Seq<char>,
)
    requires
        0 <= i < tasks.len(),
        forall|j: int| i < j < tasks.len() ==> tasks[j].id@ != tasks[i].id@,
        forall|j: int| 0 <= j < runs.len() ==> runs[j].task_id@ != tasks[i].id@,
        repo_for(repos, tasks[i].team@) == Some((owner, repo)),
    ensures
        task_events(tasks, runs, repos, tasks.len() as int).contains(
            EventView::Queued {
                owner,
                repo,
                commitish: tasks[i].revision@,
                task_id: tasks[i].id@,
                details_url: "http://localhost:5173/task-detail/"@ + tasks[i].id@,
            },
        ),
{
    let e = EventView::Queued {
        owner,
        repo,
        commitish: tasks[i].revision@,
        task_id: tasks[i].id@,
        details_url: "http://localhost:5173/task-detail/"@ + tasks[i].id@,
    };
    assert(task_is_last(tasks, i));
    assert(!has_run(runs, tasks[i].id@));
    let prev = task_events(tasks, runs, repos, i);
    assert(task_events(tasks, runs, repos, i + 1) == prev.push(e));
    assert(prev.push(e)[prev.len() as int] == e);
    lemma_task_events_grow(tasks, runs, repos, i + 1, tasks.len() as int, e);
}

} // verus!
