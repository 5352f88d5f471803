//! The backend's bookkeeping of executors: who is registered, who works on what, which test
//! tastings wait and which run.
use vstd::prelude::*;
use crate::catalog::Test;
use crate::ids::{TaskId, TestId};
use crate::config::RunnerForFrontend;
use crate::execution::{RunnerUpdate, RunnerUpdateForFrontend, RunnerWorkForFrontend};
use crate::queue::{Queue, WorkItem, WorkItemView, items_view, is_service_order, next_turn};

verus! {

/// A registered executor.
#[derive(Debug, Clone)]
pub struct Runner {
    pub id: String,
    pub info: String,
    pub working_on: Option<WorkItem>,
    /// When the runner was last heard of, in milliseconds since the epoch.
    pub last_ping_ms: u64,
    pub test_taster: bool,
}

/// The task a runner works on, by id.
pub open spec fn working_on_id(r: Runner) -> Option<Seq<char>> {
    match r.working_on {
        Some(w) => Some(w.id@),
        None => None,
    }
}

impl Runner {
    /// A copy of this runner.
    pub fn duplicate(&self) -> (res: Self)
        ensures
            res == *self,
    {
        Runner {
            id: self.id.clone(),
            info: self.info.clone(),
            working_on: match &self.working_on {
                Some(w) => Some(w.clone_exact()),
                None => None,
            },
            last_ping_ms: self.last_ping_ms,
            test_taster: self.test_taster,
        }
    }
}

/// A task that a runner works on, with the progress it reported so far.
#[derive(Debug)]
pub struct RunningTask {
    pub task_id: String,
    pub so_far: Vec<RunnerUpdateForFrontend>,
}

/// The executors, each registered once under its id, and the tasks in progress, each once.
#[derive(Debug)]
pub struct RunnerTable {
    pub runners: Vec<Runner>,
    pub in_progress: Vec<RunningTask>,
}

/// The position of the task `id` among those in progress.
pub open spec fn running_index(v: Seq<RunningTask>, id: Seq<char>) -> Option<int> {
    if exists|i: int| 0 <= i < v.len() && (#[trigger] v[i]).task_id@ == id {
        Some(choose|i: int| 0 <= i < v.len() && (#[trigger] v[i]).task_id@ == id)
    } else {
        None
    }
}

/// The tasks in progress without the task `id`.
pub open spec fn without_running(v: Seq<RunningTask>, id: Seq<char>) -> Seq<RunningTask> {
    match running_index(v, id) {
        Some(i) => v.remove(i),
        None => v,
    }
}

/// Whether each task in progress is there once.
pub open spec fn unique_running(v: Seq<RunningTask>) -> bool {
    forall|i: int, j: int| 0 <= i < j < v.len() ==> (#[trigger] v[i]).task_id@ != (#[trigger] v[j]).task_id@
}

/// The tasks in progress after the task `w` is handed out at `now_ms` with the tests `tests`:
/// any earlier record of it replaced by one that lists the tests.
pub open spec fn started(v: Seq<RunningTask>, w: WorkItem, tests: Vec<TestId>, now_ms: u64, n: Seq<RunningTask>) -> bool {
    &&& n.len() == without_running(v, w.id@).len() + 1
    &&& n.drop_last() == without_running(v, w.id@)
    &&& n.last().task_id@ == w.id@
    &&& n.last().so_far@.len() == 1
    &&& n.last().so_far@[0] == (RunnerUpdateForFrontend { update: RunnerUpdate::AllTests { tests }, time_ms: now_ms })
}

/// Why a runner got no work.
#[derive(Debug, Clone)]
pub enum ExecutorError {
    /// The runner is not registered.
    RunnerNotFound { runner_id: String },
}

proof fn lemma_without_running(v: Seq<RunningTask>, id: Seq<char>)
    requires
        unique_running(v),
    ensures
        unique_running(without_running(v, id)),
        forall|i: int| 0 <= i < without_running(v, id).len() ==> (#[trigger] without_running(v, id)[i]).task_id@ != id,
        running_index(v, id) matches Some(k) ==> 0 <= k < v.len() && v[k].task_id@ == id,
{
    let w = without_running(v, id);
    if let Some(k) = running_index(v, id) {
        assert(v[k].task_id@ == id);
        assert forall|i: int| 0 <= i < w.len() implies (#[trigger] w[i]).task_id@ != id by {
            if i < k {
                assert(w[i] == v[i]);
                assert(v[i].task_id@ != v[k].task_id@);
            } else {
                assert(w[i] == v[i + 1]);
                assert(v[k].task_id@ != v[i + 1].task_id@);
            }
        }
        assert forall|a: int, b: int| 0 <= a < b < w.len() implies (#[trigger] w[a]).task_id@ != (#[trigger] w[b]).task_id@ by {
            let a1 = if a < k { a } else { a + 1 };
            let b1 = if b < k { b } else { b + 1 };
            assert(w[a] == v[a1]);
            assert(w[b] == v[b1]);
        }
    } else {
        assert forall|i: int| 0 <= i < w.len() implies (#[trigger] w[i]).task_id@ != id by {
            assert(w[i] == v[i]);
        }
    }
}

impl RunnerTable {
    /// Whether each runner is registered once.
    pub open spec fn well_formed(&self) -> bool {
        &&& forall|i: int, j: int| 0 <= i < j < self.runners@.len() ==> (#[trigger] self.runners@[i]).id@
            != (#[trigger] self.runners@[j]).id@
        &&& unique_running(self.in_progress@)
    }

    /// The index of the runner `id`.
    pub open spec fn index_of(&self, id: Seq<char>) -> Option<int> {
        if exists|i: int| 0 <= i < self.runners@.len() && (#[trigger] self.runners@[i]).id@ == id {
            Some(choose|i: int| 0 <= i < self.runners@.len() && (#[trigger] self.runners@[i]).id@ == id)
        } else {
            None
        }
    }

    /// No runner registered.
    pub fn new() -> (res: Self)
        ensures
            res.runners@.len() == 0,
            res.in_progress@.len() == 0,
            res.well_formed(),
    {
        RunnerTable { runners: Vec::new(), in_progress: Vec::new() }
    }

    fn find(&self, id: &str) -> (res: Option<usize>)
        ensures
            match res {
                Some(i) => i < self.runners@.len() && self.runners@[i as int].id@ == id@,
                None => forall|j: int| 0 <= j < self.runners@.len() ==> self.runners@[j].id@ != id@,
            },
    {
        let mut i: usize = 0;
        while i < self.runners.len()
            invariant
                i <= self.runners.len(),
                forall|j: int| 0 <= j < i ==> self.runners@[j].id@ != id@,
            decreases self.runners.len() - i,
        {
            if crate::text::same_text(self.runners[i].id.as_str(), id) {
                return Some(i);
            }
            i = i + 1;
        }
        None
    }

    /// Registers a runner, replacing an earlier registration under its id: it works on
    /// nothing and was just heard of.
    pub fn register_runner(&mut self, id: String, info: String, test_taster: bool, now_ms: u64)
        requires
            old(self).well_formed(),
        ensures
            final(self).well_formed(),
            final(self).in_progress == old(self).in_progress,
            exists|i: int| 0 <= i < final(self).runners@.len() && {
                let r = #[trigger] final(self).runners@[i];
                r.id@ == id@ && r.info@ == info@ && r.working_on is None && r.last_ping_ms == now_ms && r.test_taster
                    == test_taster
            },
            forall|j: int| 0 <= j < old(self).runners@.len() && old(self).runners@[j].id@ != id@ ==> exists|i: int|
                0 <= i < final(self).runners@.len() && #[trigger] final(self).runners@[i] == #[trigger] old(self).runners@[j],
            forall|i: int| 0 <= i < final(self).runners@.len() && final(self).runners@[i].id@ != id@ ==> exists|j: int|
                0 <= j < old(self).runners@.len() && #[trigger] final(self).runners@[i] == #[trigger] old(self).runners@[j],
    {
        let r = Runner { id: id.clone(), info, working_on: None, last_ping_ms: now_ms, test_taster };
        match self.find(id.as_str()) {
            Some(i) => {
                let ghost before = self.runners@;
                self.runners.set(i, r);
                assert(self.runners@[i as int].id@ == id@);
                assert forall|j: int| 0 <= j < before.len() && before[j].id@ != id@ implies exists|k: int|
                    0 <= k < self.runners@.len() && #[trigger] self.runners@[k] == #[trigger] before[j] by {
                    assert(self.runners@[j] == before[j]);
                }
                assert forall|k: int| 0 <= k < self.runners@.len() && self.runners@[k].id@ != id@ implies exists|j: int|
                    0 <= j < before.len() && #[trigger] self.runners@[k] == #[trigger] before[j] by {
                    assert(self.runners@[k] == before[k]);
                }
            },
            None => {
                let ghost before = self.runners@;
                self.runners.push(r);
                assert(self.runners@[before.len() as int].id@ == id@);
                assert forall|j: int| 0 <= j < before.len() && before[j].id@ != id@ implies exists|k: int|
                    0 <= k < self.runners@.len() && #[trigger] self.runners@[k] == #[trigger] before[j] by {
                    assert(self.runners@[j] == before[j]);
                }
                assert forall|k: int| 0 <= k < self.runners@.len() && self.runners@[k].id@ != id@ implies exists|j: int|
                    0 <= j < before.len() && #[trigger] self.runners@[k] == #[trigger] before[j] by {
                    assert(self.runners@[k] == before[k]);
                }
            },
        }
    }

    /// Notes that the runner `id` was heard of at `now_ms`, if it is registered.
    pub fn runner_pinged(&mut self, id: &str, now_ms: u64)
        requires
            old(self).well_formed(),
        ensures
            final(self).well_formed(),
            final(self).in_progress == old(self).in_progress,
            final(self).runners@.len() == old(self).runners@.len(),
            forall|i: int| 0 <= i < old(self).runners@.len() ==> {
                let (o, n) = (old(self).runners@[i], #[trigger] final(self).runners@[i]);
                if o.id@ == id@ {
                    n == (Runner { last_ping_ms: now_ms, ..o })
                } else {
                    n == o
                }
            },
    {
        match self.find(id) {
            Some(i) => {
                let ghost before = self.runners@;
                let mut r = self.runners.remove(i);
                r.last_ping_ms = now_ms;
                self.runners.insert(i, r);
                assert(self.runners@ =~= before.update(i as int, Runner { last_ping_ms: now_ms, ..before[i as int] }));
                assert forall|a: int, b: int| 0 <= a < b < self.runners@.len() implies (#[trigger] self.runners@[a]).id@
                    != (#[trigger] self.runners@[b]).id@ by {
                    assert(before[a].id@ != before[b].id@);
                }
            },
            None => {},
        }
    }

    /// The task that the runner `id` works on, if it is registered and works on one.
    pub fn get_current_task(&self, id: &str) -> (res: Option<WorkItem>)
        requires
            self.well_formed(),
        ensures
            match self.index_of(id@) {
                Some(i) => match self.runners@[i].working_on {
                    Some(w) => res matches Some(x) && x@ == w@,
                    None => res is None,
                },
                None => res is None,
            },
    {
        match self.find(id) {
            Some(i) => {
                proof {
                    assert(self.index_of(id@) == Some(i as int)) by {
                        let k = choose|k: int| 0 <= k < self.runners@.len() && (#[trigger] self.runners@[k]).id@ == id@;
                        if k < i as int {
                            assert(self.runners@[k].id@ != self.runners@[i as int].id@);
                        } else if k > i as int {
                            assert(self.runners@[i as int].id@ != self.runners@[k].id@);
                        }
                    }
                }
                match &self.runners[i].working_on {
                    Some(w) => Some(w.duplicate()),
                    None => None,
                }
            },
            None => None,
        }
    }

    /// Whether a runner other than `id` works on the task `task`.
    pub open spec fn taken_by_other(&self, id: Seq<char>, task: Seq<char>) -> bool {
        exists|i: int| 0 <= i < self.runners@.len() && (#[trigger] self.runners@[i]).id@ != id
            && working_on_id(self.runners@[i]) == Some(task)
    }

    fn is_taken(&self, id: &str, task: &TaskId) -> (res: bool)
        ensures
            res == self.taken_by_other(id@, task@),
    {
        let mut i: usize = 0;
        while i < self.runners.len()
            invariant
                i <= self.runners.len(),
                forall|j: int| 0 <= j < i ==> !((#[trigger] self.runners@[j]).id@ != id@ && working_on_id(self.runners@[j])
                    == Some(task@)),
            decreases self.runners.len() - i,
        {
            if !crate::text::same_text(self.runners[i].id.as_str(), id) {
                match &self.runners[i].working_on {
                    Some(w) => {
                        if w.id.0 == task.0 {
                            return true;
                        }
                    },
                    None => {},
                }
            }
            i = i + 1;
        }
        false
    }

    /// The tasks that no runner other than `id` works on, in order.
    pub fn untaken_tasks(&self, id: &str, all_tasks: &Vec<WorkItem>) -> (res: Vec<WorkItem>)
        ensures
            items_view(res@) == items_view(all_tasks@).filter(|w: WorkItemView| !self.taken_by_other(id@, w.id)),
    {
        let ghost av = items_view(all_tasks@);
        let ghost p = |w: WorkItemView| !self.taken_by_other(id@, w.id);
        let mut res: Vec<WorkItem> = Vec::new();
        let mut i: usize = 0;
        assert(av.take(0).filter(p) =~= Seq::<WorkItemView>::empty()) by {
            reveal(Seq::filter);
        }
        assert(items_view(res@) =~= av.take(0).filter(p));
        while i < all_tasks.len()
            invariant
                i <= all_tasks.len(),
                av == items_view(all_tasks@),
                p == (|w: WorkItemView| !self.taken_by_other(id@, w.id)),
                items_view(res@) == av.take(i as int).filter(p),
            decreases all_tasks.len() - i,
        {
            proof {
                crate::client::lemma_filter_take_step(av, p, i as int);
            }
            assert(av[i as int] == all_tasks@[i as int]@);
            let ghost before = items_view(res@);
            if !self.is_taken(id, &all_tasks[i].id) {
                res.push(all_tasks[i].duplicate());
                assert(items_view(res@) =~= before.push(av[i as int]));
            }
            i = i + 1;
        }
        assert(av.take(i as int) =~= av);
        res
    }

    /// Hands the registered runner `id` the next task that no other runner works on, as the
    /// queue's rotation picks it, and records that it works on it (or on nothing).
    pub fn assign_work(
        &mut self,
        id: &str,
        all_tasks: &Vec<WorkItem>,
        test_ids: Vec<TestId>,
        queue: &mut Queue,
        now_ms: u64,
    ) -> (res: Result<Option<WorkItem>, ExecutorError>)
        requires
            old(self).well_formed(),
        ensures
            final(self).well_formed(),
            old(self).index_of(id@) is None ==> (res matches Err(ExecutorError::RunnerNotFound { runner_id }) && runner_id@
                == id@) && final(self).runners@ == old(self).runners@ && final(self).in_progress@ == old(
                self,
            ).in_progress@ && *final(queue) == *old(queue),
            old(self).index_of(id@) matches Some(i) ==> {
                let free = items_view(all_tasks@).filter(|w: WorkItemView| !old(self).taken_by_other(id@, w.id));
                &&& res matches Ok(t)
                &&& (free.len() == 0 <==> t is None)
                &&& t matches Some(w) ==> !old(self).taken_by_other(id@, w@.id) && exists|ord: Seq<int>|
                    is_service_order(free, old(queue).next_team_view(), ord) && w@ == free[ord[0]]
                &&& final(self).runners@.len() == old(self).runners@.len()
                &&& forall|j: int| 0 <= j < old(self).runners@.len() && j != i ==> #[trigger] final(self).runners@[j]
                    == old(self).runners@[j]
                &&& final(self).runners@[i].id == old(self).runners@[i].id
                &&& (match (t, final(self).runners@[i].working_on) {
                    (Some(w), Some(x)) => x@ == w@,
                    (None, None) => true,
                    _ => false,
                })
                &&& (free.len() == 0 ==> final(queue).next_team_view() is None)
                &&& (free.len() > 0 ==> (final(queue).next_team_view() matches Some(nt) && next_turn(
                    free,
                    old(queue).next_team_view(),
                    nt,
                )))
                &&& match t {
                    Some(w) => started(old(self).in_progress@, w, test_ids, now_ms, final(self).in_progress@),
                    None => final(self).in_progress@ == old(self).in_progress@,
                }
            },
    {
        let found = self.find(id);
        let i = match found {
            Some(i) => i,
            None => {
                return Err(ExecutorError::RunnerNotFound { runner_id: String::from_str(id) });
            },
        };
        proof {
            assert(self.index_of(id@) == Some(i as int)) by {
                let k = choose|k: int| 0 <= k < self.runners@.len() && (#[trigger] self.runners@[k]).id@ == id@;
                if k < i as int {
                    assert(self.runners@[k].id@ != self.runners@[i as int].id@);
                } else if k > i as int {
                    assert(self.runners@[i as int].id@ != self.runners@[k].id@);
                }
            }
        }
        let free = self.untaken_tasks(id, all_tasks);
        let ghost fv = items_view(free@);
        let ghost nt = queue.next_team_view();
        let task = queue.poll_task(free);
        proof {
            broadcast use vstd::seq_lib::group_filter_ensures;
            assert(fv.len() == free.len());
            if task is Some {
                let w = task->0;
                let ord = choose|ord: Seq<int>| is_service_order(fv, nt, ord) && w@ == fv[ord[0]];
                assert(0 <= ord[0] < fv.len());
                assert(!self.taken_by_other(id@, fv[ord[0]].id));
            }
        }
        let copy = match &task {
            Some(w) => Some(w.duplicate()),
            None => None,
        };
        let ghost before = self.runners@;
        let mut r = self.runners.remove(i);
        r.working_on = copy;
        self.runners.insert(i, r);
        assert(self.runners@ =~= before.update(i as int, Runner { working_on: copy, ..before[i as int] }));
        assert forall|a: int, b: int| 0 <= a < b < self.runners@.len() implies (#[trigger] self.runners@[a]).id@
            != (#[trigger] self.runners@[b]).id@ by {
            assert(before[a].id@ != before[b].id@);
        }
        if let Some(w) = &task {
            let ghost v0 = self.in_progress@;
            proof {
                lemma_without_running(v0, w.id@);
            }
            self.remove_running_only(w.id.0.as_str());
            let ghost kept = self.in_progress@;
            let mut so_far: Vec<RunnerUpdateForFrontend> = Vec::new();
            so_far.push(RunnerUpdateForFrontend { update: RunnerUpdate::AllTests { tests: test_ids }, time_ms: now_ms });
            self.in_progress.push(RunningTask { task_id: w.id.0.clone(), so_far });
            assert(self.in_progress@.drop_last() =~= kept);
            assert forall|a: int, b: int| 0 <= a < b < self.in_progress@.len() implies (#[trigger] self.in_progress@[a]).task_id@
                != (#[trigger] self.in_progress@[b]).task_id@ by {
                assert(self.in_progress@[a] == kept[a]);
                if b < kept.len() {
                    assert(self.in_progress@[b] == kept[b]);
                }
            }
        }
        Ok(task)
    }

    fn find_running(&self, task_id: &str) -> (res: Option<usize>)
        requires
            unique_running(self.in_progress@),
        ensures
            match res {
                Some(k) => running_index(self.in_progress@, task_id@) == Some(k as int) && k < self.in_progress@.len(),
                None => running_index(self.in_progress@, task_id@) is None,
            },
    {
        let mut k: usize = 0;
        while k < self.in_progress.len()
            invariant
                k <= self.in_progress.len(),
                unique_running(self.in_progress@),
                forall|j: int| 0 <= j < k ==> self.in_progress@[j].task_id@ != task_id@,
            decreases self.in_progress.len() - k,
        {
            if crate::text::same_text(self.in_progress[k].task_id.as_str(), task_id) {
                proof {
                    let v = self.in_progress@;
                    let c = choose|i: int| 0 <= i < v.len() && (#[trigger] v[i]).task_id@ == task_id@;
                    if c != k as int {
                        if c < k as int {
                        } else {
                            assert(v[k as int].task_id@ != v[c].task_id@);
                        }
                    }
                }
                return Some(k);
            }
            k = k + 1;
        }
        None
    }

    /// The progress of the task `task_id`, if a runner works on it.
    pub fn get_running_task(&self, task_id: &str) -> (res: Option<&RunningTask>)
        requires
            self.well_formed(),
        ensures
            match running_index(self.in_progress@, task_id@) {
                Some(k) => res == Some(&self.in_progress@[k]),
                None => res is None,
            },
    {
        match self.find_running(task_id) {
            Some(k) => Some(&self.in_progress[k]),
            None => None,
        }
    }

    /// Records `update`, arrived at `now_ms`, in the progress of the task that the runner `id`
    /// works on; nothing where the runner is unknown, idle, or its task has no record.
    pub fn update_task(&mut self, id: &str, update: RunnerUpdate, now_ms: u64)
        requires
            old(self).well_formed(),
        ensures
            final(self).well_formed(),
            final(self).runners == old(self).runners,
            match old(self).index_of(id@) {
                Some(i) => match old(self).runners@[i].working_on {
                    Some(w) => match running_index(old(self).in_progress@, w.id@) {
                        Some(k) => final(self).in_progress@.len() == old(self).in_progress@.len() && (forall|j: int|
                            0 <= j < old(self).in_progress@.len() && j != k ==> #[trigger] final(self).in_progress@[j]
                                == old(self).in_progress@[j]) && final(self).in_progress@[k].task_id
                            == old(self).in_progress@[k].task_id && final(self).in_progress@[k].so_far@ == old(
                            self,
                        ).in_progress@[k].so_far@.push(RunnerUpdateForFrontend { update, time_ms: now_ms }),
                        None => final(self).in_progress@ == old(self).in_progress@,
                    },
                    None => final(self).in_progress@ == old(self).in_progress@,
                },
                None => final(self).in_progress@ == old(self).in_progress@,
            },
    {
        let i = match self.find(id) {
            Some(i) => i,
            None => {
                return;
            },
        };
        proof {
            assert(self.index_of(id@) == Some(i as int)) by {
                let c = choose|c: int| 0 <= c < self.runners@.len() && (#[trigger] self.runners@[c]).id@ == id@;
                if c < i as int {
                    assert(self.runners@[c].id@ != self.runners@[i as int].id@);
                } else if c > i as int {
                    assert(self.runners@[i as int].id@ != self.runners@[c].id@);
                }
            }
        }
        let k = match &self.runners[i].working_on {
            Some(w) => match self.find_running(w.id.0.as_str()) {
                Some(k) => k,
                None => {
                    return;
                },
            },
            None => {
                return;
            },
        };
        let ghost before = self.in_progress@;
        let mut entry = self.in_progress.remove(k);
        entry.so_far.push(RunnerUpdateForFrontend { update, time_ms: now_ms });
        self.in_progress.insert(k, entry);
        assert forall|a: int, b: int| 0 <= a < b < self.in_progress@.len() implies (#[trigger] self.in_progress@[a]).task_id@
            != (#[trigger] self.in_progress@[b]).task_id@ by {
            assert(before[a].task_id@ != before[b].task_id@);
        }
    }

    /// Notes that the runner `id` finished its task: it works on nothing now, and the record of
    /// the task's progress is dropped.
    pub fn finish_task(&mut self, id: &str)
        requires
            old(self).well_formed(),
        ensures
            final(self).well_formed(),
            final(self).runners@.len() == old(self).runners@.len(),
            forall|i: int| 0 <= i < old(self).runners@.len() ==> {
                let (o, n) = (old(self).runners@[i], #[trigger] final(self).runners@[i]);
                if o.id@ == id@ {
                    n == (Runner { working_on: None, ..o })
                } else {
                    n == o
                }
            },
            final(self).in_progress@ == match old(self).index_of(id@) {
                Some(i) => match old(self).runners@[i].working_on {
                    Some(w) => without_running(old(self).in_progress@, w.id@),
                    None => old(self).in_progress@,
                },
                None => old(self).in_progress@,
            },
    {
        match self.find(id) {
            Some(i) => {
                proof {
                    assert(self.index_of(id@) == Some(i as int)) by {
                        let c = choose|c: int| 0 <= c < self.runners@.len() && (#[trigger] self.runners@[c]).id@ == id@;
                        if c < i as int {
                            assert(self.runners@[c].id@ != self.runners@[i as int].id@);
                        } else if c > i as int {
                            assert(self.runners@[i as int].id@ != self.runners@[c].id@);
                        }
                    }
                }
                let ghost before = self.runners@;
                let mut r = self.runners.remove(i);
                match &r.working_on {
                    Some(w) => {
                        proof {
                            lemma_without_running(self.in_progress@, w.id@);
                        }
                        self.remove_running_only(w.id.0.as_str());
                    },
                    None => {},
                }
                r.working_on = None;
                self.runners.insert(i, r);
                assert(self.runners@ =~= before.update(i as int, Runner { working_on: None, ..before[i as int] }));
                assert forall|a: int, b: int| 0 <= a < b < self.runners@.len() implies (#[trigger] self.runners@[a]).id@
                    != (#[trigger] self.runners@[b]).id@ by {
                    assert(before[a].id@ != before[b].id@);
                }
            },
            None => {},
        }
    }

    fn remove_running_only(&mut self, task_id: &str)
        requires
            unique_running(old(self).in_progress@),
        ensures
            final(self).runners == old(self).runners,
            final(self).in_progress@ == without_running(old(self).in_progress@, task_id@),
    {
        match self.find_running(task_id) {
            Some(k) => {
                let _ = self.in_progress.remove(k);
            },
            None => {},
        }
    }

    /// Forgets the runners not heard of for five minutes by `now_ms`.
    pub fn retain_recent(&mut self, now_ms: u64)
        requires
            old(self).well_formed(),
        ensures
            final(self).well_formed(),
            final(self).in_progress == old(self).in_progress,
            final(self).runners@ == old(self).runners@.filter(|r: Runner| !(r.last_ping_ms <= now_ms && now_ms - r.last_ping_ms >= 300_000)),
    {
        let ghost p = |r: Runner| !(r.last_ping_ms <= now_ms && now_ms - r.last_ping_ms >= 300_000);
        let ghost old_runners = self.runners@;
        let mut kept: Vec<Runner> = Vec::new();
        let mut i: usize = 0;
        assert(old_runners.take(0).filter(p) =~= Seq::<Runner>::empty()) by {
            reveal(Seq::filter);
        }
        while i < self.runners.len()
            invariant
                i <= self.runners.len(),
                self.runners@ == old_runners,
                forall|a: int, b: int| 0 <= a < b < old_runners.len() ==> (#[trigger] old_runners[a]).id@
                    != (#[trigger] old_runners[b]).id@,
                p == (|r: Runner| !(r.last_ping_ms <= now_ms && now_ms - r.last_ping_ms >= 300_000)),
                kept@ == old_runners.take(i as int).filter(p),
                forall|a: int| 0 <= a < kept@.len() ==> exists|j: int| 0 <= j < i && #[trigger] kept@[a] == old_runners[j],
                forall|a: int, b: int| 0 <= a < b < kept@.len() ==> (#[trigger] kept@[a]).id@ != (#[trigger] kept@[b]).id@,
            decreases self.runners.len() - i,
        {
            proof {
                crate::client::lemma_filter_take_step(old_runners, p, i as int);
            }
            let stale = self.runners[i].last_ping_ms <= now_ms && now_ms - self.runners[i].last_ping_ms >= 300_000;
            if !stale {
                let ghost before = kept@;
                kept.push(self.runners[i].duplicate());
                assert forall|a: int| 0 <= a < kept@.len() implies exists|j: int| 0 <= j < i + 1 && #[trigger] kept@[a]
                    == old_runners[j] by {
                    if a < before.len() {
                        assert(kept@[a] == before[a]);
                    } else {
                        assert(kept@[a] == old_runners[i as int]);
                    }
                }
                assert forall|a: int, b: int| 0 <= a < b < kept@.len() implies (#[trigger] kept@[a]).id@
                    != (#[trigger] kept@[b]).id@ by {
                    if b == before.len() {
                        assert(kept@[a] == before[a]);
                        let j = choose|j: int| 0 <= j < i && #[trigger] before[a] == old_runners[j];
                        assert(old_runners[j].id@ != old_runners[i as int].id@);
                    } else {
                        assert(kept@[a] == before[a] && kept@[b] == before[b]);
                    }
                }
            }
            i = i + 1;
        }
        assert(old_runners.take(i as int) =~= old_runners);
        self.runners = kept;
    }
}

} // verus!

verus! {

/// A test handed to an executor: how to compile it and what to expect.
#[derive(Debug, Clone)]
pub struct CompilerTest {
    pub test_id: String,
    /// How long the test may take, in milliseconds.
    pub timeout_ms: u64,
    pub compile_command: Vec<String>,
    pub binary_arguments: Vec<String>,
    pub compiler_modifiers: Vec<crate::modifiers::TestModifier>,
    pub binary_modifiers: Vec<crate::modifiers::TestModifier>,
}

/// A task handed to an executor: what to build, how, and which tests to run.
#[derive(Debug, Clone)]
pub struct CompilerTask {
    pub task_id: String,
    pub team_id: String,
    pub revision_id: String,
    pub commit_message: String,
    pub image: String,
    pub build_command: Vec<String>,
    /// How long the build may take, in milliseconds.
    pub build_timeout_ms: u64,
    pub tests: Vec<CompilerTest>,
}

/// The answer to an executor asking for work: a task, or none; and whether the executor
/// should drop what it believes it works on.
#[derive(Debug, Clone)]
pub struct RunnerWorkResponse {
    pub task: Option<CompilerTask>,
    pub reset: bool,
}

/// The tests of the backend as an executor runs them, under the execution configuration.
pub fn compiler_tests(tests: &Vec<Test>, config: &crate::config::ExecutionConfig) -> (res: Vec<CompilerTest>)
    ensures
        res.len() == tests.len(),
        forall|i: int| 0 <= i < tests.len() ==> {
            let (c, t) = (#[trigger] res@[i], tests@[i]);
            &&& c.test_id@ == t.id@
            &&& c.timeout_ms == config.test_timeout_ms
            &&& c.compile_command@ == config.compile_command@
            &&& c.binary_arguments@ == config.binary_arguments@
            &&& crate::modifiers::modifiers_view(c.compiler_modifiers@) == crate::modifiers::modifiers_view(t.compiler_modifiers@)
            &&& crate::modifiers::modifiers_view(c.binary_modifiers@) == crate::modifiers::modifiers_view(t.binary_modifiers@)
        },
{
    let mut res: Vec<CompilerTest> = Vec::new();
    let mut i: usize = 0;
    while i < tests.len()
        invariant
            i <= tests.len(),
            res.len() == i,
            forall|k: int| 0 <= k < i ==> {
                let (c, t) = (#[trigger] res@[k], tests@[k]);
                &&& c.test_id@ == t.id@
                &&& c.timeout_ms == config.test_timeout_ms
                &&& c.compile_command@ == config.compile_command@
                &&& c.binary_arguments@ == config.binary_arguments@
                &&& crate::modifiers::modifiers_view(c.compiler_modifiers@) == crate::modifiers::modifiers_view(t.compiler_modifiers@)
                &&& crate::modifiers::modifiers_view(c.binary_modifiers@) == crate::modifiers::modifiers_view(t.binary_modifiers@)
            },
        decreases tests.len() - i,
    {
        let t = &tests[i];
        res.push(
            CompilerTest {
                test_id: t.id.0.clone(),
                timeout_ms: config.test_timeout_ms,
                compile_command: copy_strings(&config.compile_command),
                binary_arguments: copy_strings(&config.binary_arguments),
                compiler_modifiers: copy_modifiers(&t.compiler_modifiers),
                binary_modifiers: copy_modifiers(&t.binary_modifiers),
            },
        );
        i = i + 1;
    }
    res
}

fn copy_strings(v: &Vec<String>) -> (res: Vec<String>)
    ensures
        res@ == v@,
{
    let mut res: Vec<String> = Vec::new();
    let mut i: usize = 0;
    while i < v.len()
        invariant
            i <= v.len(),
            res@ == v@.take(i as int),
        decreases v.len() - i,
    {
        res.push(v[i].clone());
        assert(res@ =~= v@.take(i + 1));
        i = i + 1;
    }
    assert(v@.take(i as int) =~= v@);
    res
}

fn copy_modifiers(v: &Vec<crate::modifiers::TestModifier>) -> (res: Vec<crate::modifiers::TestModifier>)
    ensures
        crate::modifiers::modifiers_view(res@) == crate::modifiers::modifiers_view(v@),
{
    let mut res: Vec<crate::modifiers::TestModifier> = Vec::new();
    let mut i: usize = 0;
    while i < v.len()
        invariant
            i <= v.len(),
            res.len() == i,
            forall|k: int| 0 <= k < i ==> (#[trigger] res@[k])@ == v@[k]@,
        decreases v.len() - i,
    {
        res.push(v[i].duplicate());
        i = i + 1;
    }
    assert(crate::modifiers::modifiers_view(res@) =~= crate::modifiers::modifiers_view(v@));
    res
}

/// The image in which tasks are built.
pub const BUILD_IMAGE: &'static str = "alpine:latest";

/// The task an executor gets for a work item, with the tests to run.
pub fn compiler_task(work: &WorkItem, config: &crate::config::ExecutionConfig, tests: Vec<CompilerTest>) -> (res: CompilerTask)
    ensures
        res.task_id@ == work.id@,
        res.team_id@ == work.team@,
        res.revision_id@ == work.revision@,
        res.commit_message@ == work.commit_message@,
        res.image@ == BUILD_IMAGE@,
        res.build_command@ == config.build_command@,
        res.build_timeout_ms == config.build_timeout_ms,
        res.tests == tests,
{
    CompilerTask {
        task_id: work.id.0.clone(),
        team_id: work.team.0.clone(),
        revision_id: work.revision.clone(),
        commit_message: work.commit_message.clone(),
        image: String::from_str(BUILD_IMAGE),
        build_command: copy_strings(&config.build_command),
        build_timeout_ms: config.build_timeout_ms,
        tests,
    }
}

/// What the backend answers an executor asking for work, before and after assigning: an
/// executor that claims to be another one is refused; one that believes it works on a task
/// is reset; one that cannot be assigned work is reset; otherwise it gets its task, or none.
#[derive(Debug, Clone)]
pub enum WorkDecision {
    /// The executor authenticated as `offender` but claims to be `victim`.
    Impersonation { victim: String, offender: String },
    /// Answer with this, without assigning work.
    Answer { reset: bool },
    /// Assign work.
    Assign,
}

/// Whether an executor asking for work is answered right away or assigned work.
pub fn work_decision(runner_id: &str, authenticated_as: &str, has_current_task: bool) -> (res: WorkDecision)
    ensures
        runner_id@ != authenticated_as@ ==> (res matches WorkDecision::Impersonation { victim, offender } && victim@
            == runner_id@ && offender@ == authenticated_as@),
        runner_id@ == authenticated_as@ && has_current_task ==> (res matches WorkDecision::Answer { reset } && reset),
        runner_id@ == authenticated_as@ && !has_current_task ==> res is Assign,
{
    if !crate::text::same_text(runner_id, authenticated_as) {
        return WorkDecision::Impersonation {
            victim: String::from_str(runner_id),
            offender: String::from_str(authenticated_as),
        };
    }
    if has_current_task {
        return WorkDecision::Answer { reset: true };
    }
    WorkDecision::Assign
}

/// The answer after assigning work: a reset where assigning failed, else the task, if any.
pub fn work_response(assigned: Result<Option<CompilerTask>, ExecutorError>) -> (res: RunnerWorkResponse)
    ensures
        match assigned {
            Err(_) => res.task is None && res.reset,
            Ok(t) => res.task == t && !res.reset,
        },
{
    match assigned {
        Err(_) => RunnerWorkResponse { task: None, reset: true },
        Ok(t) => RunnerWorkResponse { task: t, reset: false },
    }
}

/// How a team's CI sees a task: running where an executor works on it, queued where it waits,
/// else the status of its result.
pub fn integration_status(
    running: bool,
    queued: bool,
    finished: crate::execution::QueuedTaskStatus,
) -> (res: crate::execution::QueuedTaskStatus)
    ensures
        running ==> res == crate::execution::QueuedTaskStatus::Running,
        !running && queued ==> res == crate::execution::QueuedTaskStatus::Queued,
        !running && !queued ==> res == finished,
{
    if running {
        crate::execution::QueuedTaskStatus::Running
    } else if queued {
        crate::execution::QueuedTaskStatus::Queued
    } else {
        finished
    }
}

} // verus!

verus! {

/// A test waiting to be tasted, or being tasted.
#[derive(Debug, Clone)]
pub struct OpenTestTaste {
    pub id: String,
    pub test: Test,
    /// When the tasting was requested, in milliseconds since the epoch.
    pub start_ms: u64,
}

/// A tasting handed to an executor.
#[derive(Debug, Clone)]
pub struct TestTastingTask {
    pub test: Test,
    pub taste_id: String,
}

/// The tastings that wait, newest last, and those that executors work on, with the executor.
#[derive(Debug)]
pub struct TestTasting {
    pub open_tastings: Vec<OpenTestTaste>,
    pub in_progress_tastings: Vec<(OpenTestTaste, String)>,
}

/// The ids of tastings in progress.
pub open spec fn in_progress_ids(v: Seq<(OpenTestTaste, String)>) -> Seq<Seq<char>> {
    v.map_values(|e: (OpenTestTaste, String)| e.0.id@)
}

/// The position of the tasting `id` among those in progress.
pub open spec fn in_progress_index(v: Seq<(OpenTestTaste, String)>, id: Seq<char>) -> Option<int> {
    if exists|i: int| 0 <= i < v.len() && (#[trigger] v[i]).0.id@ == id {
        Some(choose|i: int| 0 <= i < v.len() && (#[trigger] v[i]).0.id@ == id)
    } else {
        None
    }
}

/// The tastings in progress without the one with id `id`.
pub open spec fn without_tasting(v: Seq<(OpenTestTaste, String)>, id: Seq<char>) -> Seq<(OpenTestTaste, String)> {
    match in_progress_index(v, id) {
        Some(i) => v.remove(i),
        None => v,
    }
}

/// Whether each tasting in `v` is there once.
pub open spec fn unique_tastings(v: Seq<(OpenTestTaste, String)>) -> bool {
    forall|i: int, j: int| 0 <= i < j < v.len() ==> (#[trigger] v[i]).0.id@ != (#[trigger] v[j]).0.id@
}

/// A tasting that is handed out and then reported done leaves no trace: finishing the tasting
/// `t` after it was handed to runner `r` leaves the tastings in progress as handing it out found
/// them, without any earlier tasting under its id.
pub proof fn lemma_tasting_done(v: Seq<(OpenTestTaste, String)>, t: OpenTestTaste, r: String)
    requires
        unique_tastings(v),
    ensures
        without_tasting(without_tasting(v, t.id@).push((t, r)), t.id@) == without_tasting(v, t.id@),
{
    let id = t.id@;
    let w = without_tasting(v, id);
    assert(in_progress_index(w, id) is None) by {
        if let Some(k) = in_progress_index(v, id) {
            assert(v[k].0.id@ == id);
            assert forall|i: int| 0 <= i < w.len() implies (#[trigger] w[i]).0.id@ != id by {
                let src = if i < k { i } else { i + 1 };
                assert(w[i] == v[src]);
                if i < k {
                    assert(v[i].0.id@ != v[k].0.id@);
                } else {
                    assert(v[k].0.id@ != v[i + 1].0.id@);
                }
            }
        } else {
            assert forall|i: int| 0 <= i < w.len() implies (#[trigger] w[i]).0.id@ != id by {
                assert(w[i] == v[i]);
            }
        }
    }
    let u = w.push((t, r));
    assert(u[w.len() as int].0.id@ == id);
    let k = choose|i: int| 0 <= i < u.len() && (#[trigger] u[i]).0.id@ == id;
    assert(k == w.len()) by {
        if k < w.len() {
            assert(u[k] == w[k]);
        }
    }
    assert(u.remove(w.len() as int) =~= w);
}

impl TestTasting {
    /// Whether each tasting in progress is there once.
    pub open spec fn well_formed(&self) -> bool {
        forall|i: int, j: int| 0 <= i < j < self.in_progress_tastings@.len() ==> (#[trigger] self.in_progress_tastings@[i]).0.id@
            != (#[trigger] self.in_progress_tastings@[j]).0.id@
    }

    /// No tasting waits or runs.
    pub fn new() -> (res: Self)
        ensures
            res.open_tastings@.len() == 0,
            res.in_progress_tastings@.len() == 0,
            res.well_formed(),
    {
        TestTasting { open_tastings: Vec::new(), in_progress_tastings: Vec::new() }
    }

    /// The executors that taste tests now.
    pub fn get_tasting_runners(&self) -> (res: Vec<String>)
        ensures
            res@ == self.in_progress_tastings@.map_values(|e: (OpenTestTaste, String)| e.1),
    {
        let mut res: Vec<String> = Vec::new();
        let mut i: usize = 0;
        while i < self.in_progress_tastings.len()
            invariant
                i <= self.in_progress_tastings.len(),
                res@ == self.in_progress_tastings@.take(i as int).map_values(|e: (OpenTestTaste, String)| e.1),
            decreases self.in_progress_tastings.len() - i,
        {
            res.push(self.in_progress_tastings[i].1.clone());
            assert(res@ =~= self.in_progress_tastings@.take(i + 1).map_values(|e: (OpenTestTaste, String)| e.1));
            i = i + 1;
        }
        assert(self.in_progress_tastings@.take(i as int) =~= self.in_progress_tastings@);
        res
    }

    /// Asks for `test` to be tasted, under the id `id`, at `now_ms`.
    pub fn add_tasting(&mut self, test: Test, id: String, now_ms: u64)
        ensures
            final(self).open_tastings@ == old(self).open_tastings@.push(OpenTestTaste { id, test, start_ms: now_ms }),
            final(self).in_progress_tastings@ == old(self).in_progress_tastings@,
    {
        self.open_tastings.push(OpenTestTaste { id, test, start_ms: now_ms });
    }

    fn find_in_progress(&self, id: &String) -> (res: Option<usize>)
        requires
            self.well_formed(),
        ensures
            match res {
                Some(i) => in_progress_index(self.in_progress_tastings@, id@) == Some(i as int),
                None => in_progress_index(self.in_progress_tastings@, id@) is None,
            },
    {
        let ghost v = self.in_progress_tastings@;
        let mut i: usize = 0;
        while i < self.in_progress_tastings.len()
            invariant
                i <= self.in_progress_tastings.len(),
                v == self.in_progress_tastings@,
                self.well_formed(),
                forall|k: int| 0 <= k < i ==> (#[trigger] v[k]).0.id@ != id@,
            decreases self.in_progress_tastings.len() - i,
        {
            if self.in_progress_tastings[i].0.id == *id {
                proof {
                    let k = choose|k: int| 0 <= k < v.len() && (#[trigger] v[k]).0.id@ == id@;
                    if k > i as int {
                        assert(v[i as int].0.id@ != v[k].0.id@);
                    }
                }
                return Some(i);
            }
            i = i + 1;
        }
        None
    }

    /// Ends the tasting `id`: it is no longer in progress. Whether it was in progress; the
    /// executor's result goes to whoever asked for the tasting.
    pub fn finish_tasting(&mut self, id: &String) -> (found: bool)
        requires
            old(self).well_formed(),
        ensures
            final(self).well_formed(),
            found == in_progress_index(old(self).in_progress_tastings@, id@) is Some,
            final(self).in_progress_tastings@ == without_tasting(old(self).in_progress_tastings@, id@),
            final(self).open_tastings@ == old(self).open_tastings@,
    {
        match self.find_in_progress(id) {
            Some(i) => {
                let ghost v = self.in_progress_tastings@;
                let _ = self.in_progress_tastings.remove(i);
                assert forall|a: int, b: int| 0 <= a < b < self.in_progress_tastings@.len() implies (#[trigger] self.in_progress_tastings@[a]).0.id@
                    != (#[trigger] self.in_progress_tastings@[b]).0.id@ by {
                    let a1 = if a < i { a } else { a + 1 };
                    let b1 = if b < i { b } else { b + 1 };
                    assert(self.in_progress_tastings@[a] == v[a1]);
                    assert(self.in_progress_tastings@[b] == v[b1]);
                }
                true
            },
            None => false,
        }
    }

    /// Hands the newest waiting tasting to the executor `runner_id`, which then works on it,
    /// in place of any tasting in progress under the same id.
    pub fn poll_tasting(&mut self, runner_id: String) -> (res: Option<String>)
        requires
            old(self).well_formed(),
        ensures
            final(self).well_formed(),
            old(self).open_tastings@.len() == 0 ==> res is None && final(self).open_tastings@ == old(self).open_tastings@
                && final(self).in_progress_tastings@ == old(self).in_progress_tastings@,
            old(self).open_tastings@.len() > 0 ==> {
                let t = old(self).open_tastings@.last();
                &&& res matches Some(taste_id) && taste_id@ == t.id@
                &&& final(self).open_tastings@ == old(self).open_tastings@.drop_last()
                &&& final(self).in_progress_tastings@ == without_tasting(old(self).in_progress_tastings@, t.id@).push(
                    (t, runner_id),
                )
            },
    {
        if self.open_tastings.len() == 0 {
            return None;
        }
        let taste = self.open_tastings.pop().unwrap();
        let id = taste.id.clone();
        let _ = self.finish_tasting(&id);
        let ghost v = self.in_progress_tastings@;
        self.in_progress_tastings.push((taste, runner_id));
        assert forall|a: int, b: int| 0 <= a < b < self.in_progress_tastings@.len() implies (#[trigger] self.in_progress_tastings@[a]).0.id@
            != (#[trigger] self.in_progress_tastings@[b]).0.id@ by {
            if b == v.len() {
                assert(self.in_progress_tastings@[a] == v[a]);
                assert(in_progress_index(v, id@) is None);
            }
        }
        Some(id)
    }
}

/// Whether `id` is among `ids`.
pub open spec fn listed(ids: Seq<String>, id: Seq<char>) -> bool {
    exists|i: int| 0 <= i < ids.len() && (#[trigger] ids[i])@ == id
}

fn is_listed(ids: &Vec<String>, id: &str) -> (res: bool)
    ensures
        res == listed(ids@, id@),
{
    let mut i: usize = 0;
    while i < ids.len()
        invariant
            i <= ids.len(),
            forall|j: int| 0 <= j < i ==> ids@[j]@ != id@,
        decreases ids.len() - i,
    {
        if crate::text::same_text(ids[i].as_str(), id) {
            return true;
        }
        i = i + 1;
    }
    false
}

/// What the frontend shows of runner `r`, where `tasting` tells whether it tastes a test.
pub open spec fn shown_as(f: RunnerForFrontend, r: Runner, tasting: bool) -> bool {
    &&& f.id@ == r.id@
    &&& f.info@ == r.info@
    &&& f.last_seen == r.last_ping_ms
    &&& f.test_taster == r.test_taster
    &&& f.working_on == if tasting {
        Some(RunnerWorkForFrontend::TestTasting)
    } else {
        match r.working_on {
            Some(w) => Some(RunnerWorkForFrontend::Testing(w)),
            None => None,
        }
    }
}

impl RunnerTable {
    /// The runners as the frontend shows them, in order: those in `tasting_runners` taste a
    /// test, the others work on their task, if any.
    pub fn get_runners(&self, tasting_runners: &Vec<String>) -> (res: Vec<RunnerForFrontend>)
        ensures
            res@.len() == self.runners@.len(),
            forall|i: int| 0 <= i < res@.len() ==> shown_as(
                #[trigger] res@[i],
                self.runners@[i],
                listed(tasting_runners@, self.runners@[i].id@),
            ),
    {
        let mut res: Vec<RunnerForFrontend> = Vec::new();
        let mut i: usize = 0;
        while i < self.runners.len()
            invariant
                i <= self.runners.len(),
                res@.len() == i,
                forall|j: int| 0 <= j < i ==> shown_as(
                    #[trigger] res@[j],
                    self.runners@[j],
                    listed(tasting_runners@, self.runners@[j].id@),
                ),
            decreases self.runners.len() - i,
        {
            let r = &self.runners[i];
            let working_on = if is_listed(tasting_runners, r.id.as_str()) {
                Some(RunnerWorkForFrontend::TestTasting)
            } else {
                match &r.working_on {
                    Some(w) => Some(RunnerWorkForFrontend::Testing(w.clone_exact())),
                    None => None,
                }
            };
            res.push(
                RunnerForFrontend {
                    id: r.id.clone(),
                    info: r.info.clone(),
                    working_on,
                    last_seen: r.last_ping_ms,
                    test_taster: r.test_taster,
                },
            );
            i = i + 1;
        }
        res
    }
}

/// The tasks that the runners test, in runner order.
pub open spec fn executing(runners: Seq<RunnerForFrontend>) -> Seq<WorkItemView>
    decreases runners.len(),
{
    if runners.len() == 0 {
        Seq::empty()
    } else {
        executing(runners.drop_last()) + match runners.last().working_on {
            Some(RunnerWorkForFrontend::Testing(w)) => seq![w@],
            _ => Seq::empty(),
        }
    }
}

/// Whether a task with id `id` occurs in `s`.
pub open spec fn has_task(s: Seq<WorkItemView>, id: Seq<char>) -> bool {
    exists|i: int| 0 <= i < s.len() && (#[trigger] s[i]).id == id
}

/// The queued tasks that no runner tests, in order.
pub open spec fn waiting(queued: Seq<WorkItemView>, running: Seq<WorkItemView>) -> Seq<WorkItemView>
    decreases queued.len(),
{
    if queued.len() == 0 {
        Seq::empty()
    } else {
        let rest = waiting(queued.drop_last(), running);
        if has_task(running, queued.last().id) {
            rest
        } else {
            rest.push(queued.last())
        }
    }
}

/// The queue as the frontend shows it: the tasks the runners test, in runner order, then the
/// queued tasks that no runner tests, in the order in which they will be served.
pub fn queue_listing(queue: &Queue, runners: &Vec<RunnerForFrontend>, queued: Vec<WorkItem>) -> (res: Vec<WorkItem>)
    ensures
        exists|ord: Seq<int>|
            is_service_order(#[trigger] waiting(items_view(queued@), executing(runners@)), queue.next_team_view(), ord)
                && items_view(res@) == executing(runners@) + ord.map_values(
                |i: int| waiting(items_view(queued@), executing(runners@))[i],
            ),
{
    let mut running: Vec<WorkItem> = Vec::new();
    let mut i: usize = 0;
    while i < runners.len()
        invariant
            i <= runners.len(),
            items_view(running@) == executing(runners@.take(i as int)),
        decreases runners.len() - i,
    {
        assert(runners@.take(i + 1).drop_last() =~= runners@.take(i as int));
        assert(runners@.take(i + 1).last() == runners@[i as int]);
        let ghost before = items_view(running@);
        match &runners[i].working_on {
            Some(RunnerWorkForFrontend::Testing(w)) => {
                running.push(w.clone_exact());
                assert(items_view(running@) =~= before + seq![w@]);
            },
            _ => {
                assert(items_view(running@) =~= before + Seq::<WorkItemView>::empty());
            },
        }
        i = i + 1;
    }
    assert(runners@.take(i as int) =~= runners@);
    let ghost run_view = items_view(running@);
    let mut others: Vec<WorkItem> = Vec::new();
    let mut k: usize = 0;
    while k < queued.len()
        invariant
            k <= queued.len(),
            run_view == items_view(running@),
            items_view(others@) == waiting(items_view(queued@).take(k as int), run_view),
        decreases queued.len() - k,
    {
        let ghost qv = items_view(queued@).take(k + 1);
        assert(qv.drop_last() =~= items_view(queued@).take(k as int));
        let item = &queued[k];
        let mut found = false;
        let mut j: usize = 0;
        while j < running.len()
            invariant
                j <= running.len(),
                run_view == items_view(running@),
                found == exists|x: int| 0 <= x < j && (#[trigger] run_view[x]).id == item@.id,
            decreases running.len() - j,
        {
            if crate::text::same_text(running[j].id.0.as_str(), item.id.0.as_str()) {
                found = true;
            }
            assert(run_view[j as int] == running@[j as int]@);
            j = j + 1;
        }
        let ghost before = items_view(others@);
        if !found {
            others.push(item.clone_exact());
            assert(items_view(others@) =~= before.push(item@));
        }
        k = k + 1;
    }
    assert(items_view(queued@).take(k as int) =~= items_view(queued@));
    let ghost w = items_view(others@);
    let ordered = queue.reorder_queue(others);
    let ghost head = items_view(running@);
    let mut res = running;
    let mut m: usize = 0;
    while m < ordered.len()
        invariant
            m <= ordered.len(),
            items_view(res@) == head + items_view(ordered@).take(m as int),
        decreases ordered.len() - m,
    {
        let ghost before = items_view(res@);
        res.push(ordered[m].clone_exact());
        assert(items_view(res@) =~= before.push(ordered@[m as int]@));
        assert(items_view(ordered@).take(m + 1) =~= items_view(ordered@).take(m as int).push(ordered@[m as int]@));
        assert(items_view(res@) =~= head + items_view(ordered@).take(m + 1));
        m = m + 1;
    }
    assert(items_view(ordered@).take(m as int) =~= items_view(ordered@));
    res
}

} // verus!
