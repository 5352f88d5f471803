//! The work queue: which queued task a runner gets next.
//!
//! Teams take turns in the lexicographic order of their ids, starting with the team whose
//! turn came up last time; within a team the oldest task goes first.
use vstd::prelude::*;
use vstd::arithmetic::div_mod::{
    lemma_add_mod_noop, lemma_add_mod_noop_right, lemma_fundamental_div_mod, lemma_mod_bound, lemma_small_mod,
};
use crate::ids::{TaskId, TeamId};
use crate::text::{
    chars_eq, chars_lt, chars_of, lemma_seq_lt_irreflexive, lemma_seq_lt_total,
    lemma_seq_lt_transitive, seq_lt, string_of,
};

verus! {

/// A task waiting to be executed.
#[derive(Debug, Clone)]
pub struct WorkItem {
    pub id: TaskId,
    pub team: TeamId,
    pub revision: String,
    pub commit_message: String,
    /// When the task was queued, in nanoseconds since the Unix epoch.
    pub insert_time: u64,
}

/// The abstract value of a [`WorkItem`].
pub struct WorkItemView {
    pub id: Seq<char>,
    pub team: Seq<char>,
    pub revision: Seq<char>,
    pub commit_message: Seq<char>,
    pub insert_time: u64,
}

impl View for WorkItem {
    type V = WorkItemView;

    open spec fn view(&self) -> WorkItemView {
        WorkItemView {
            id: self.id@,
            team: self.team@,
            revision: self.revision@,
            commit_message: self.commit_message@,
            insert_time: self.insert_time,
        }
    }
}

impl WorkItem {
    /// An exact copy of this work item.
    pub fn clone_exact(&self) -> (res: Self)
        ensures
            res == *self,
    {
        WorkItem {
            id: TaskId(self.id.0.clone()),
            team: TeamId(self.team.0.clone()),
            revision: self.revision.clone(),
            commit_message: self.commit_message.clone(),
            insert_time: self.insert_time,
        }
    }

    /// A copy of this work item.
    pub fn duplicate(&self) -> (res: Self)
        ensures
            res@ == self@,
    {
        WorkItem {
            id: self.id.duplicate(),
            team: self.team.duplicate(),
            revision: self.revision.clone(),
            commit_message: self.commit_message.clone(),
            insert_time: self.insert_time,
        }
    }
}

/// The views of a sequence of work items.
pub open spec fn items_view(v: Seq<WorkItem>) -> Seq<WorkItemView> {
    v.map_values(|w: WorkItem| w@)
}

/// The teams that occur in `s`, each once, in the order of their first occurrence.
pub open spec fn distinct_teams(s: Seq<WorkItemView>) -> Seq<Seq<char>>
    decreases s.len(),
{
    if s.len() == 0 {
        Seq::empty()
    } else {
        let d = distinct_teams(s.drop_last());
        if d.contains(s.last().team) {
            d
        } else {
            d.push(s.last().team)
        }
    }
}

/// How many entries of `ts` order strictly before `t`.
pub open spec fn count_before(ts: Seq<Seq<char>>, t: Seq<char>) -> nat
    decreases ts.len(),
{
    if ts.len() == 0 {
        0
    } else {
        count_before(ts.drop_last(), t) + if seq_lt(ts.last(), t) {
            1nat
        } else {
            0nat
        }
    }
}

/// The position of team `t` among the queued teams, in lexicographic order.
pub open spec fn team_position(s: Seq<WorkItemView>, t: Seq<char>) -> nat {
    count_before(distinct_teams(s), t)
}

/// The position at which this round of turns starts: that of the team remembered from last
/// time, or the first one when it has no queued task.
pub open spec fn start_position(s: Seq<WorkItemView>, next: Option<Seq<char>>) -> nat {
    match next {
        Some(t) => if distinct_teams(s).contains(t) {
            team_position(s, t)
        } else {
            0
        },
        None => 0,
    }
}

/// The place of team `t` in each round of turns: its position counted cyclically from the
/// start position.
pub open spec fn team_slot(s: Seq<WorkItemView>, next: Option<Seq<char>>, t: Seq<char>) -> int {
    let p = team_position(s, t) as int;
    let st = start_position(s, next) as int;
    if p >= st {
        p - st
    } else {
        p + distinct_teams(s).len() - st
    }
}

/// Whether the task at `j` goes before the task at `i` of the same team: it is older, or as
/// old and queued later in `s`.
pub open spec fn pops_before(s: Seq<WorkItemView>, j: int, i: int) -> bool {
    s[j].insert_time < s[i].insert_time || (s[j].insert_time == s[i].insert_time && j > i)
}

/// How many tasks of the team of `i` among the first `m` go before the task at `i`.
pub open spec fn rank_in(s: Seq<WorkItemView>, i: int, m: int) -> nat
    decreases m,
{
    if m <= 0 {
        0
    } else {
        rank_in(s, i, m - 1) + if s[m - 1].team == s[i].team && pops_before(s, m - 1, i) {
            1nat
        } else {
            0nat
        }
    }
}

/// The round of turns in which the task at `i` is served.
pub open spec fn turn_of(s: Seq<WorkItemView>, i: int) -> nat {
    rank_in(s, i, s.len() as int)
}

/// Whether the task at `i` is served before the task at `j`: in an earlier round, or in the
/// same round by a team that comes earlier in it.
pub open spec fn served_before(s: Seq<WorkItemView>, next: Option<Seq<char>>, i: int, j: int) -> bool {
    turn_of(s, i) < turn_of(s, j) || (turn_of(s, i) == turn_of(s, j) && team_slot(s, next, s[i].team)
        < team_slot(s, next, s[j].team))
}

/// `ord` lists the indices of `s` in the order in which the tasks are served.
pub open spec fn is_service_order(s: Seq<WorkItemView>, next: Option<Seq<char>>, ord: Seq<int>) -> bool {
    &&& ord.len() == s.len()
    &&& forall|a: int| 0 <= a < ord.len() ==> 0 <= #[trigger] ord[a] < s.len()
    &&& forall|a: int, b: int|
        0 <= a < b < ord.len() ==> served_before(s, next, #[trigger] ord[a], #[trigger] ord[b])
}

/// The team whose turn comes first next time.
pub open spec fn next_turn(s: Seq<WorkItemView>, next: Option<Seq<char>>, t: Seq<char>) -> bool {
    &&& distinct_teams(s).contains(t)
    &&& team_position(s, t) as int == (start_position(s, next) as int + 1) % (distinct_teams(s).len() as int)
}

} // verus!

verus! {

proof fn lemma_distinct_teams(s: Seq<WorkItemView>)
    ensures
        distinct_teams(s).no_duplicates(),
        forall|t: Seq<char>|
            distinct_teams(s).contains(t) <==> exists|i: int| 0 <= i < s.len() && #[trigger] s[i].team == t,
    decreases s.len(),
{
    if s.len() > 0 {
        let p = s.drop_last();
        lemma_distinct_teams(p);
        let d = distinct_teams(p);
        assert forall|t: Seq<char>|
            distinct_teams(s).contains(t) <==> exists|i: int| 0 <= i < s.len() && #[trigger] s[i].team == t by {
            if distinct_teams(s).contains(t) {
                if d.contains(t) {
                    let i = choose|i: int| 0 <= i < p.len() && #[trigger] p[i].team == t;
                    assert(s[i].team == t);
                } else {
                    assert(s[s.len() - 1].team == t);
                }
            }
            if exists|i: int| 0 <= i < s.len() && #[trigger] s[i].team == t {
                let i = choose|i: int| 0 <= i < s.len() && #[trigger] s[i].team == t;
                if i < s.len() - 1 {
                    assert(p[i].team == t);
                    assert(d.contains(t));
                    if !d.contains(s.last().team) {
                        let k = choose|k: int| 0 <= k < d.len() && d[k] == t;
                        assert(d.push(s.last().team)[k] == t);
                    }
                } else {
                    if !d.contains(t) {
                        assert(d.push(s.last().team)[d.len() as int] == t);
                    }
                }
            }
        }
    }
}

proof fn lemma_count_before_bound(ts: Seq<Seq<char>>, t: Seq<char>)
    ensures
        count_before(ts, t) <= ts.len(),
        ts.contains(t) ==> count_before(ts, t) < ts.len(),
    decreases ts.len(),
{
    if ts.len() > 0 {
        let p = ts.drop_last();
        lemma_count_before_bound(p, t);
        lemma_seq_lt_irreflexive(t);
        if ts.contains(t) && !p.contains(t) {
            let k = choose|k: int| 0 <= k < ts.len() && ts[k] == t;
            if k < ts.len() - 1 {
                assert(p[k] == t);
            }
        }
    }
}

proof fn lemma_count_before_monotone(ts: Seq<Seq<char>>, t: Seq<char>, u: Seq<char>)
    requires
        seq_lt(t, u),
    ensures
        count_before(ts, u) >= count_before(ts, t) + if ts.contains(t) {
            1int
        } else {
            0int
        },
    decreases ts.len(),
{
    if ts.len() > 0 {
        let p = ts.drop_last();
        lemma_count_before_monotone(p, t, u);
        let v = ts.last();
        if seq_lt(v, t) {
            lemma_seq_lt_transitive(v, t, u);
        }
        lemma_seq_lt_irreflexive(t);
        if ts.contains(t) && !p.contains(t) {
            let k = choose|k: int| 0 <= k < ts.len() && ts[k] == t;
            if k < ts.len() - 1 {
                assert(p[k] == t);
            }
        }
        if p.contains(t) {
            let k = choose|k: int| 0 <= k < p.len() && p[k] == t;
            assert(ts[k] == t);
        }
    }
}

/// Distinct teams have distinct positions.
proof fn lemma_position_injective(ts: Seq<Seq<char>>, t: Seq<char>, u: Seq<char>)
    requires
        ts.contains(t),
        ts.contains(u),
        t != u,
    ensures
        count_before(ts, t) != count_before(ts, u),
{
    lemma_seq_lt_total(t, u);
    if seq_lt(t, u) {
        lemma_count_before_monotone(ts, t, u);
    } else {
        lemma_count_before_monotone(ts, u, t);
    }
}

proof fn lemma_rank_bound(s: Seq<WorkItemView>, i: int, m: int)
    requires
        0 <= i < s.len(),
        0 <= m <= s.len(),
    ensures
        rank_in(s, i, m) <= m,
        i < m ==> rank_in(s, i, m) < m,
    decreases m,
{
    if m > 0 {
        lemma_rank_bound(s, i, m - 1);
    }
}

proof fn lemma_rank_monotone(s: Seq<WorkItemView>, i: int, j: int, m: int)
    requires
        0 <= i < s.len(),
        0 <= j < s.len(),
        0 <= m <= s.len(),
        s[i].team == s[j].team,
        pops_before(s, i, j),
    ensures
        rank_in(s, j, m) >= rank_in(s, i, m) + if i < m {
            1int
        } else {
            0int
        },
    decreases m,
{
    if m > 0 {
        lemma_rank_monotone(s, i, j, m - 1);
    }
}

/// Two different tasks of one team are served in different rounds.
proof fn lemma_turn_injective(s: Seq<WorkItemView>, i: int, j: int)
    requires
        0 <= i < s.len(),
        0 <= j < s.len(),
        i != j,
        s[i].team == s[j].team,
    ensures
        turn_of(s, i) != turn_of(s, j),
        turn_of(s, i) < turn_of(s, j) ==> pops_before(s, i, j),
{
    if pops_before(s, i, j) {
        lemma_rank_monotone(s, i, j, s.len() as int);
    } else {
        lemma_rank_monotone(s, j, i, s.len() as int);
    }
}

} // verus!

verus! {

/// A duplicate-free sequence that holds exactly the integers `0..n` has length `n`.
proof fn lemma_exact_cover_len(ord: Seq<int>, n: int)
    requires
        0 <= n,
        ord.no_duplicates(),
        forall|a: int| 0 <= a < ord.len() ==> 0 <= #[trigger] ord[a] < n,
        forall|i: int| 0 <= i < n ==> #[trigger] ord.contains(i),
    ensures
        ord.len() == n,
{
    vstd::set_lib::lemma_int_range(0, n);
    assert(ord.to_set() =~= vstd::set_lib::set_int_range(0, n)) by {
        assert forall|x: int| ord.to_set().contains(x) implies vstd::set_lib::set_int_range(0, n).contains(x) by {
            let a = choose|a: int| 0 <= a < ord.len() && ord[a] == x;
            assert(0 <= ord[a] < n);
        }
        assert forall|x: int| vstd::set_lib::set_int_range(0, n).contains(x) implies ord.to_set().contains(x) by {
            assert(ord.contains(x));
        }
    }
    ord.unique_seq_to_set();
}

/// Every position among the queued teams is taken by one of them.
proof fn lemma_position_onto(ts: Seq<Seq<char>>, k: int)
    requires
        ts.no_duplicates(),
        0 <= k < ts.len(),
    ensures
        exists|t: Seq<char>| ts.contains(t) && count_before(ts, t) == k,
{
    let x = ts.to_set();
    let f = |t: Seq<char>| count_before(ts, t) as int;
    let y = x.map(f);
    ts.unique_seq_to_set();
    assert(vstd::relations::injective_on(f, x)) by {
        assert forall|a: Seq<char>, b: Seq<char>|
            x.contains(a) && x.contains(b) && #[trigger] f(a) == #[trigger] f(b) implies a == b by {
            if a != b {
                lemma_position_injective(ts, a, b);
            }
        }
    }
    vstd::set_lib::lemma_map_size(x, y, f);
    vstd::set_lib::lemma_int_range(0, ts.len() as int);
    let r = vstd::set_lib::set_int_range(0, ts.len() as int);
    assert(y.subset_of(r)) by {
        assert forall|v: int| y.contains(v) implies r.contains(v) by {
            let t = choose|t: Seq<char>| x.contains(t) && f(t) == v;
            lemma_count_before_bound(ts, t);
        }
    }
    vstd::set_lib::lemma_subset_equality(y, r);
    assert(r.contains(k));
    assert(y.contains(k));
    let t = choose|t: Seq<char>| x.contains(t) && f(t) == k;
    assert(ts.contains(t));
}

} // verus!

verus! {

/// The views of a sequence of character vectors.
pub open spec fn chars_view(v: Seq<Vec<char>>) -> Seq<Seq<char>> {
    v.map_values(|x: Vec<char>| x@)
}

/// The team of a remembered turn, as a view.
pub open spec fn opt_team_view(o: Option<TeamId>) -> Option<Seq<char>> {
    match o {
        Some(t) => Some(t@),
        None => None,
    }
}

fn contains_chars(ds: &Vec<Vec<char>>, t: &Vec<char>) -> (res: bool)
    ensures
        res == chars_view(ds@).contains(t@),
{
    let mut k: usize = 0;
    while k < ds.len()
        invariant
            k <= ds.len(),
            forall|j: int| 0 <= j < k ==> ds@[j]@ != t@,
        decreases ds.len() - k,
    {
        if chars_eq(&ds[k], t) {
            assert(chars_view(ds@)[k as int] == t@);
            return true;
        }
        k = k + 1;
    }
    assert forall|j: int| 0 <= j < chars_view(ds@).len() implies chars_view(ds@)[j] != t@ by {
        assert(ds@[j]@ != t@);
    }
    false
}

fn count_lt(ds: &Vec<Vec<char>>, t: &Vec<char>) -> (res: usize)
    ensures
        res == count_before(chars_view(ds@), t@),
{
    let mut k: usize = 0;
    let mut c: usize = 0;
    while k < ds.len()
        invariant
            k <= ds.len(),
            c == count_before(chars_view(ds@).take(k as int), t@),
            c <= k,
        decreases ds.len() - k,
    {
        assert(chars_view(ds@).take(k + 1).drop_last() =~= chars_view(ds@).take(k as int));
        if chars_lt(&ds[k], t) {
            c = c + 1;
        }
        k = k + 1;
    }
    assert(chars_view(ds@).take(ds.len() as int) =~= chars_view(ds@));
    c
}

fn team_chars(items: &Vec<WorkItem>) -> (res: Vec<Vec<char>>)
    ensures
        res.len() == items.len(),
        forall|i: int| 0 <= i < items.len() ==> #[trigger] res@[i]@ == items@[i].team@,
{
    let mut res: Vec<Vec<char>> = Vec::new();
    for i in 0..items.len()
        invariant
            res.len() == i,
            forall|j: int| 0 <= j < i ==> #[trigger] res@[j]@ == items@[j].team@,
    {
        res.push(chars_of(items[i].team.0.as_str()));
    }
    res
}

fn distinct_of(teams: &Vec<Vec<char>>, Ghost(s): Ghost<Seq<WorkItemView>>) -> (res: Vec<Vec<char>>)
    requires
        teams.len() == s.len(),
        forall|i: int| 0 <= i < s.len() ==> #[trigger] teams@[i]@ == s[i].team,
    ensures
        chars_view(res@) == distinct_teams(s),
{
    let mut res: Vec<Vec<char>> = Vec::new();
    for i in 0..teams.len()
        invariant
            teams.len() == s.len(),
            forall|j: int| 0 <= j < s.len() ==> #[trigger] teams@[j]@ == s[j].team,
            chars_view(res@) == distinct_teams(s.take(i as int)),
    {
        assert(s.take(i + 1).drop_last() =~= s.take(i as int));
        assert(s.take(i + 1).last() == s[i as int]);
        if !contains_chars(&res, &teams[i]) {
            res.push(teams[i].clone());
            assert(chars_view(res@) =~= distinct_teams(s.take(i as int)).push(s[i as int].team));
        }
    }
    assert(s.take(s.len() as int) =~= s);
    res
}

} // verus!

verus! {

proof fn lemma_slot_range(s: Seq<WorkItemView>, next: Option<Seq<char>>, t: Seq<char>)
    requires
        distinct_teams(s).contains(t),
    ensures
        0 <= team_slot(s, next, t) < distinct_teams(s).len(),
        start_position(s, next) < distinct_teams(s).len(),
{
    lemma_count_before_bound(distinct_teams(s), t);
    if let Some(u) = next {
        lemma_count_before_bound(distinct_teams(s), u);
    }
}

proof fn lemma_slot_injective(s: Seq<WorkItemView>, next: Option<Seq<char>>, t: Seq<char>, u: Seq<char>)
    requires
        distinct_teams(s).contains(t),
        distinct_teams(s).contains(u),
        t != u,
    ensures
        team_slot(s, next, t) != team_slot(s, next, u),
{
    lemma_slot_range(s, next, t);
    lemma_slot_range(s, next, u);
    lemma_count_before_bound(distinct_teams(s), t);
    lemma_count_before_bound(distinct_teams(s), u);
    lemma_position_injective(distinct_teams(s), t, u);
}

/// Different tasks are never served at the same moment.
proof fn lemma_key_unique(s: Seq<WorkItemView>, next: Option<Seq<char>>, i: int, j: int)
    requires
        0 <= i < s.len(),
        0 <= j < s.len(),
        i != j,
        turn_of(s, i) == turn_of(s, j),
    ensures
        team_slot(s, next, s[i].team) != team_slot(s, next, s[j].team),
{
    lemma_distinct_teams(s);
    if s[i].team == s[j].team {
        lemma_turn_injective(s, i, j);
    } else {
        lemma_slot_injective(s, next, s[i].team, s[j].team);
    }
}

fn find_served(turns: &Vec<usize>, slots: &Vec<usize>, r: usize, k: usize) -> (res: Option<usize>)
    requires
        turns.len() == slots.len(),
    ensures
        res matches Some(i) ==> i < turns.len() && turns@[i as int] == r && slots@[i as int] == k,
        res is None ==> forall|i: int| 0 <= i < turns.len() ==> !(turns@[i] == r && slots@[i] == k),
{
    let mut i: usize = 0;
    while i < turns.len()
        invariant
            i <= turns.len(),
            turns.len() == slots.len(),
            forall|j: int| 0 <= j < i ==> !(turns@[j] == r && slots@[j] == k),
        decreases turns.len() - i,
    {
        if turns[i] == r && slots[i] == k {
            return Some(i);
        }
        i = i + 1;
    }
    None
}

/// Whether the task at `i` is served before round `r` reaches place `k`.
pub open spec fn served_by(s: Seq<WorkItemView>, next: Option<Seq<char>>, i: int, r: int, k: int) -> bool {
    turn_of(s, i) < r || (turn_of(s, i) == r && team_slot(s, next, s[i].team) < k)
}

/// The service order of `s`, given the round number and the place of each task.
fn service_order(
    turns: &Vec<usize>,
    slots: &Vec<usize>,
    n: usize,
    Ghost(s): Ghost<Seq<WorkItemView>>,
    Ghost(next): Ghost<Option<Seq<char>>>,
) -> (ord: Vec<usize>)
    requires
        turns.len() == s.len(),
        slots.len() == s.len(),
        n == distinct_teams(s).len(),
        forall|i: int| 0 <= i < s.len() ==> #[trigger] turns@[i] == turn_of(s, i),
        forall|i: int| 0 <= i < s.len() ==> #[trigger] slots@[i] == team_slot(s, next, s[i].team),
    ensures
        is_service_order(s, next, ord@.map_values(|x: usize| x as int)),
{
    let len = turns.len();
    let mut ord: Vec<usize> = Vec::new();
    let ghost mut go: Seq<int> = Seq::empty();
    let mut r: usize = 0;
    while r < len
        invariant
            r <= len,
            turns.len() == len,
            slots.len() == len,
            len == s.len(),
            n == distinct_teams(s).len(),
            forall|i: int| 0 <= i < s.len() ==> #[trigger] turns@[i] == turn_of(s, i),
            forall|i: int| 0 <= i < s.len() ==> #[trigger] slots@[i] == team_slot(s, next, s[i].team),
            go.len() == ord.len(),
            forall|a: int| 0 <= a < go.len() ==> #[trigger] go[a] == ord@[a] as int,
            forall|a: int| 0 <= a < go.len() ==> 0 <= #[trigger] go[a] < len,
            forall|a: int, b: int|
                0 <= a < b < go.len() ==> served_before(s, next, #[trigger] go[a], #[trigger] go[b]),
            forall|i: int| 0 <= i < len ==> (go.contains(i) <==> #[trigger] turn_of(s, i) < r),
        decreases len - r,
    {
        assert forall|i: int| 0 <= i < len implies (go.contains(i) <==> #[trigger] served_by(s, next, i, r as int, 0)) by {
            lemma_slot_of_item(s, next, i);
        }
        let mut k: usize = 0;
        while k < n
            invariant
                k <= n,
                turns.len() == len,
                slots.len() == len,
                len == s.len(),
                r < len,
                n == distinct_teams(s).len(),
                forall|i: int| 0 <= i < s.len() ==> #[trigger] turns@[i] == turn_of(s, i),
                forall|i: int| 0 <= i < s.len() ==> #[trigger] slots@[i] == team_slot(s, next, s[i].team),
                go.len() == ord.len(),
                forall|a: int| 0 <= a < go.len() ==> #[trigger] go[a] == ord@[a] as int,
                forall|a: int| 0 <= a < go.len() ==> 0 <= #[trigger] go[a] < len,
                forall|a: int| 0 <= a < go.len() ==> served_by(s, next, #[trigger] go[a], r as int, k as int),
                forall|a: int, b: int|
                    0 <= a < b < go.len() ==> served_before(s, next, #[trigger] go[a], #[trigger] go[b]),
                forall|i: int| 0 <= i < len ==> (go.contains(i) <==> #[trigger] served_by(s, next, i, r as int, k as int)),
            decreases n - k,
        {
            let ghost rr = r as int;
            let ghost k1 = k as int + 1;
            let found = find_served(turns, slots, r, k);
            match found {
                Some(i) => {
                    let ghost old_go = go;
                    assert(turn_of(s, i as int) == rr);
                    assert(team_slot(s, next, s[i as int].team) == k as int);
                    assert(served_by(s, next, i as int, rr, k1));
                    ord.push(i);
                    proof {
                        go = go.push(i as int);
                    }
                    assert(go[old_go.len() as int] == i as int);
                    assert(go.contains(i as int));
                    assert forall|j: int| 0 <= j < len implies (go.contains(j) <==> #[trigger] served_by(
                        s,
                        next,
                        j,
                        rr,
                        k1,
                    )) by {
                        assert(old_go.contains(j) == served_by(s, next, j, r as int, k as int));
                        if served_by(s, next, j, rr, k1) && !served_by(s, next, j, rr, k as int) {
                            if j != i {
                                lemma_key_unique(s, next, i as int, j);
                            }
                            assert(go[old_go.len() as int] == i);
                        }
                        if go.contains(j) && !old_go.contains(j) {
                            let a = choose|a: int| 0 <= a < go.len() && go[a] == j;
                            if a < old_go.len() {
                                assert(old_go[a] == j);
                            }
                            assert(a == old_go.len());
                            assert(j == i);
                        }
                        if old_go.contains(j) {
                            let a = choose|a: int| 0 <= a < old_go.len() && old_go[a] == j;
                            assert(go[a] == j);
                        }
                    }
                    assert forall|a: int| 0 <= a < go.len() implies served_by(s, next, #[trigger] go[a], rr, k1) by {
                        if a < old_go.len() {
                            assert(served_by(s, next, old_go[a], rr, k as int));
                        }
                    }
                    assert forall|a: int, b: int|
                        0 <= a < b < go.len() implies served_before(s, next, #[trigger] go[a], #[trigger] go[b]) by {
                        if b == old_go.len() {
                            assert(served_by(s, next, old_go[a], rr, k as int));
                        } else {
                            assert(served_before(s, next, old_go[a], old_go[b]));
                        }
                    }
                },
                None => {
                    assert forall|j: int| 0 <= j < len implies (go.contains(j) <==> #[trigger] served_by(
                        s,
                        next,
                        j,
                        rr,
                        k1,
                    )) by {
                        assert(!(turns@[j] == r && slots@[j] == k));
                        assert(served_by(s, next, j, rr, k as int) == go.contains(j));
                    }
                    assert forall|a: int| 0 <= a < go.len() implies served_by(s, next, #[trigger] go[a], rr, k1) by {
                        assert(served_by(s, next, go[a], rr, k as int));
                    }
                },
            }
            k = k + 1;
        }
        assert forall|i: int| 0 <= i < len implies (go.contains(i) <==> #[trigger] turn_of(s, i) < r + 1) by {
            lemma_slot_of_item(s, next, i);
            assert(served_by(s, next, i, r as int, n as int) == go.contains(i));
        }
        r = r + 1;
    }
    proof {
        assert forall|i: int| 0 <= i < len implies #[trigger] go.contains(i) by {
            lemma_rank_bound(s, i, len as int);
            assert(turn_of(s, i) < len);
        }
        assert(go.no_duplicates()) by {
            assert forall|a: int, b: int| 0 <= a < go.len() && 0 <= b < go.len() && a != b implies go[a] != go[b] by {
                if a < b {
                    assert(served_before(s, next, go[a], go[b]));
                } else {
                    assert(served_before(s, next, go[b], go[a]));
                }
            }
        }
        lemma_exact_cover_len(go, len as int);
        assert(go =~= ord@.map_values(|x: usize| x as int));
    }
    ord
}

proof fn lemma_slot_of_item(s: Seq<WorkItemView>, next: Option<Seq<char>>, i: int)
    requires
        0 <= i < s.len(),
    ensures
        distinct_teams(s).contains(s[i].team),
        0 <= team_slot(s, next, s[i].team) < distinct_teams(s).len(),
{
    lemma_distinct_teams(s);
    assert(exists|j: int| 0 <= j < s.len() && #[trigger] s[j].team == s[i].team);
    lemma_slot_range(s, next, s[i].team);
}

} // verus!

verus! {

/// The round of turns of each task.
fn turns_of(queue: &Vec<WorkItem>, teams: &Vec<Vec<char>>) -> (res: Vec<usize>)
    requires
        teams.len() == queue.len(),
        forall|i: int| 0 <= i < queue.len() ==> #[trigger] teams@[i]@ == queue@[i].team@,
    ensures
        res.len() == queue.len(),
        forall|i: int| 0 <= i < queue.len() ==> #[trigger] res@[i] == turn_of(items_view(queue@), i),
{
    let ghost s = items_view(queue@);
    let len = queue.len();
    let mut res: Vec<usize> = Vec::new();
    let mut i: usize = 0;
    while i < len
        invariant
            i <= len,
            len == queue.len(),
            s == items_view(queue@),
            teams.len() == len,
            forall|x: int| 0 <= x < len ==> #[trigger] teams@[x]@ == queue@[x].team@,
            res.len() == i,
            forall|x: int| 0 <= x < i ==> #[trigger] res@[x] == turn_of(s, x),
        decreases len - i,
    {
        let mut c: usize = 0;
        let mut j: usize = 0;
        while j < len
            invariant
                i < len,
                j <= len,
                len == queue.len(),
                s == items_view(queue@),
                teams.len() == len,
                forall|x: int| 0 <= x < len ==> #[trigger] teams@[x]@ == queue@[x].team@,
                c == rank_in(s, i as int, j as int),
                c <= j,
            decreases len - j,
        {
            let same = chars_eq(&teams[j], &teams[i]);
            let ti = queue[i].insert_time;
            let tj = queue[j].insert_time;
            if same && (tj < ti || (tj == ti && j > i)) {
                c = c + 1;
            }
            j = j + 1;
        }
        res.push(c);
        i = i + 1;
    }
    res
}

/// The place in each round of turns of the team of each task.
fn slots_of(
    teams: &Vec<Vec<char>>,
    ds: &Vec<Vec<char>>,
    start: usize,
    Ghost(s): Ghost<Seq<WorkItemView>>,
    Ghost(next): Ghost<Option<Seq<char>>>,
) -> (res: Vec<usize>)
    requires
        teams.len() == s.len(),
        forall|i: int| 0 <= i < s.len() ==> #[trigger] teams@[i]@ == s[i].team,
        chars_view(ds@) == distinct_teams(s),
        start == start_position(s, next),
    ensures
        res.len() == s.len(),
        forall|i: int| 0 <= i < s.len() ==> #[trigger] res@[i] == team_slot(s, next, s[i].team),
{
    let n = ds.len();
    let mut res: Vec<usize> = Vec::new();
    let mut i: usize = 0;
    while i < teams.len()
        invariant
            i <= teams.len(),
            teams.len() == s.len(),
            forall|x: int| 0 <= x < s.len() ==> #[trigger] teams@[x]@ == s[x].team,
            chars_view(ds@) == distinct_teams(s),
            n == ds.len(),
            start == start_position(s, next),
            res.len() == i,
            forall|x: int| 0 <= x < i ==> #[trigger] res@[x] == team_slot(s, next, s[x].team),
        decreases teams.len() - i,
    {
        proof {
            lemma_slot_of_item(s, next, i as int);
            lemma_slot_range(s, next, s[i as int].team);
            lemma_count_before_bound(distinct_teams(s), s[i as int].team);
            assert(chars_view(ds@).len() == ds.len());
        }
        let p = count_lt(ds, &teams[i]);
        let slot = if p >= start {
            p - start
        } else {
            n - start + p
        };
        res.push(slot);
        i = i + 1;
    }
    res
}

/// The index in `ds` of a team at position `target`.
fn team_at_position(ds: &Vec<Vec<char>>, target: usize) -> (res: usize)
    requires
        chars_view(ds@).no_duplicates(),
        target < ds.len(),
    ensures
        res < ds.len(),
        count_before(chars_view(ds@), ds@[res as int]@) == target,
{
    proof {
        lemma_position_onto(chars_view(ds@), target as int);
    }
    let mut k: usize = 0;
    while k < ds.len()
        invariant
            k <= ds.len(),
            chars_view(ds@).no_duplicates(),
            exists|t: Seq<char>| chars_view(ds@).contains(t) && count_before(chars_view(ds@), t) == target,
            forall|j: int| 0 <= j < k ==> count_before(chars_view(ds@), #[trigger] ds@[j]@) != target,
        decreases ds.len() - k,
    {
        if count_lt(ds, &ds[k]) == target {
            return k;
        }
        k = k + 1;
    }
    proof {
        let t = choose|t: Seq<char>| chars_view(ds@).contains(t) && count_before(chars_view(ds@), t) == target;
        let j = choose|j: int| 0 <= j < chars_view(ds@).len() && chars_view(ds@)[j] == t;
        assert(ds@[j]@ == t);
    }
    0
}

/// The rotation of teams through the queue.
#[derive(Debug)]
pub struct Queue {
    next_team: Option<TeamId>,
}

impl Queue {
    /// The team whose turn comes first next time, if one is remembered.
    pub closed spec fn next_team_view(&self) -> Option<Seq<char>> {
        opt_team_view(self.next_team)
    }

    /// A queue that remembers no team: the next round starts with the first team.
    pub fn new() -> (res: Self)
        ensures
            res.next_team_view() is None,
    {
        Queue { next_team: None }
    }

    /// Takes the task that is served first, and remembers whose turn comes next.
    pub fn poll_task(&mut self, tasks: Vec<WorkItem>) -> (res: Option<WorkItem>)
        ensures
            tasks.len() == 0 <==> res is None,
            tasks.len() == 0 ==> final(self).next_team_view() is None,
            tasks.len() > 0 ==> exists|ord: Seq<int>|
                is_service_order(items_view(tasks@), old(self).next_team_view(), ord)
                    && (res matches Some(w) && w@ == tasks@[ord[0]]@),
            tasks.len() > 0 ==> (final(self).next_team_view() matches Some(t) && next_turn(
                items_view(tasks@),
                old(self).next_team_view(),
                t,
            )),
    {
        let ghost s = items_view(tasks@);
        let ghost next = self.next_team_view();
        let ghost n = tasks.len();
        let (ordered, next_team) = self.reorder_queue_step(tasks);
        let ghost ord = choose|ord: Seq<int>|
            is_service_order(s, next, ord) && items_view(ordered@) == ord.map_values(|i: int| s[i]);
        assert(items_view(ordered@).len() == ordered.len());
        assert(ordered.len() == n);
        self.next_team = next_team;
        if ordered.len() == 0 {
            None
        } else {
            let mut ordered = ordered;
            assert(items_view(ordered@)[0] == ordered@[0]@);
            let first = ordered.swap_remove(0);
            assert(first@ == s[ord[0]]);
            Some(first)
        }
    }

    /// All given tasks, in the order in which they are served.
    pub fn reorder_queue(&self, tasks: Vec<WorkItem>) -> (res: Vec<WorkItem>)
        ensures
            exists|ord: Seq<int>|
                is_service_order(items_view(tasks@), self.next_team_view(), ord) && items_view(res@)
                    == ord.map_values(|i: int| items_view(tasks@)[i]),
    {
        self.reorder_queue_step(tasks).0
    }

    /// The tasks in service order, and the team whose turn comes first next time.
    fn reorder_queue_step(&self, queue: Vec<WorkItem>) -> (res: (Vec<WorkItem>, Option<TeamId>))
        ensures
            exists|ord: Seq<int>|
                is_service_order(items_view(queue@), self.next_team_view(), ord) && items_view(res.0@)
                    == ord.map_values(|i: int| items_view(queue@)[i]),
            queue.len() == 0 ==> res.1 is None,
            queue.len() > 0 ==> (res.1 matches Some(t) && next_turn(
                items_view(queue@),
                self.next_team_view(),
                t@,
            )),
    {
        let ghost s = items_view(queue@);
        let ghost next = self.next_team_view();
        if queue.len() == 0 {
            assert(is_service_order(s, next, Seq::<int>::empty()));
            assert(items_view(queue@) =~= Seq::<int>::empty().map_values(|i: int| s[i]));
            return (queue, None);
        }
        let len = queue.len();
        let teams = team_chars(&queue);
        let ds = distinct_of(&teams, Ghost(s));
        let n = ds.len();
        proof {
            lemma_distinct_teams(s);
            lemma_slot_of_item(s, next, 0);
        }
        let start: usize = match &self.next_team {
            Some(t) => {
                let tc = chars_of(t.0.as_str());
                if contains_chars(&ds, &tc) {
                    proof {
                        lemma_count_before_bound(distinct_teams(s), tc@);
                    }
                    count_lt(&ds, &tc)
                } else {
                    0
                }
            },
            None => 0,
        };
        let slots = slots_of(&teams, &ds, start, Ghost(s), Ghost(next));
        let turns = turns_of(&queue, &teams);
        let ord = service_order(&turns, &slots, n, Ghost(s), Ghost(next));
        let ghost o = ord@.map_values(|x: usize| x as int);
        let mut res: Vec<WorkItem> = Vec::new();
        let mut a: usize = 0;
        while a < ord.len()
            invariant
                a <= ord.len(),
                ord.len() == len,
                len == queue.len(),
                s == items_view(queue@),
                o == ord@.map_values(|x: usize| x as int),
                is_service_order(s, next, o),
                res.len() == a,
                forall|b: int| 0 <= b < a ==> #[trigger] res@[b]@ == s[o[b]],
            decreases ord.len() - a,
        {
            assert(0 <= o[a as int] < len);
            res.push(queue[ord[a]].duplicate());
            a = a + 1;
        }
        assert(items_view(res@) =~= o.map_values(|i: int| s[i]));
        proof { lemma_slot_range(s, next, s[0].team); }
        let target = (start + 1) % n;
        let k = team_at_position(&ds, target);
        proof {
            assert(chars_view(ds@)[k as int] == ds@[k as int]@);
            assert(distinct_teams(s).contains(ds@[k as int]@));
        }
        let team = TeamId(string_of(ds[k].as_slice()));
        (res, Some(team))
    }
}

} // verus!

verus! {

/// Reordering serves every queued task exactly once: a service order lists each index of the
/// queue once.
pub proof fn lemma_service_order_permutes(s: Seq<WorkItemView>, next: Option<Seq<char>>, ord: Seq<int>)
    requires
        is_service_order(s, next, ord),
    ensures
        ord.no_duplicates(),
        forall|i: int| 0 <= i < s.len() ==> #[trigger] ord.contains(i),
{
    assert forall|a: int, b: int| 0 <= a < ord.len() && 0 <= b < ord.len() && a != b implies ord[a]
        != ord[b] by {
        if a < b {
            assert(served_before(s, next, ord[a], ord[b]));
        } else {
            assert(served_before(s, next, ord[b], ord[a]));
        }
    }
    let n = s.len() as int;
    vstd::set_lib::lemma_int_range(0, n);
    let r = vstd::set_lib::set_int_range(0, n);
    ord.unique_seq_to_set();
    vstd::seq_lib::seq_to_set_is_finite(ord);
    assert(ord.to_set().subset_of(r)) by {
        assert forall|x: int| ord.to_set().contains(x) implies r.contains(x) by {
            let a = choose|a: int| 0 <= a < ord.len() && ord[a] == x;
            assert(0 <= ord[a] < s.len());
        }
    }
    vstd::set_lib::lemma_subset_equality(ord.to_set(), r);
    assert forall|i: int| 0 <= i < s.len() implies #[trigger] ord.contains(i) by {
        assert(r.contains(i));
        assert(ord.to_set().contains(i));
    }
}

/// Within one team, the oldest task is served first.
pub proof fn lemma_team_served_oldest_first(
    s: Seq<WorkItemView>,
    next: Option<Seq<char>>,
    ord: Seq<int>,
    a: int,
    b: int,
)
    requires
        is_service_order(s, next, ord),
        0 <= a < b < ord.len(),
        s[ord[a]].team == s[ord[b]].team,
    ensures
        s[ord[a]].insert_time <= s[ord[b]].insert_time,
{
    lemma_service_order_permutes(s, next, ord);
    assert(served_before(s, next, ord[a], ord[b]));
    assert(ord[a] != ord[b]);
    lemma_turn_injective(s, ord[a], ord[b]);
}

/// Among the tasks of team `t` in the first `m` of `s`, one goes before all others.
proof fn lemma_first_of_team(s: Seq<WorkItemView>, t: Seq<char>, m: int) -> (i: int)
    requires
        0 < m <= s.len(),
        exists|j: int| 0 <= j < m && #[trigger] s[j].team == t,
    ensures
        0 <= i < m,
        s[i].team == t,
        forall|j: int| 0 <= j < m && #[trigger] s[j].team == t && j != i ==> pops_before(s, i, j),
    decreases m,
{
    if s[m - 1].team == t && !(exists|j: int| 0 <= j < m - 1 && #[trigger] s[j].team == t) {
        m - 1
    } else if !(exists|j: int| 0 <= j < m - 1 && #[trigger] s[j].team == t) {
        let j = choose|j: int| 0 <= j < m && #[trigger] s[j].team == t;
        assert(false);
        0
    } else {
        let k = lemma_first_of_team(s, t, m - 1);
        if s[m - 1].team == t && pops_before(s, m - 1, k) {
            m - 1
        } else {
            k
        }
    }
}

/// A task that no task of its own team goes before is served in the first round.
proof fn lemma_first_turn(s: Seq<WorkItemView>, i: int, m: int)
    requires
        0 <= i < s.len(),
        0 <= m <= s.len(),
        forall|j: int| 0 <= j < s.len() && #[trigger] s[j].team == s[i].team && j != i ==> pops_before(s, i, j),
    ensures
        rank_in(s, i, m) == 0,
    decreases m,
{
    if m > 0 {
        lemma_first_turn(s, i, m - 1);
        if s[m - 1].team == s[i].team && m - 1 != i {
            assert(pops_before(s, i, m - 1));
        }
    }
}

/// The first task served is the oldest task of the team whose turn comes first: the team
/// remembered from the previous poll when it has a queued task, and otherwise the first team in
/// lexicographic order.
pub proof fn lemma_first_served(s: Seq<WorkItemView>, next: Option<Seq<char>>, ord: Seq<int>)
    requires
        is_service_order(s, next, ord),
        s.len() > 0,
    ensures
        team_slot(s, next, s[ord[0]].team) == 0,
        team_position(s, s[ord[0]].team) == start_position(s, next),
        forall|j: int| 0 <= j < s.len() && #[trigger] s[j].team == s[ord[0]].team ==> s[ord[0]].insert_time
            <= s[j].insert_time,
        forall|t: Seq<char>| next == Some(t) && #[trigger] distinct_teams(s).contains(t) ==> s[ord[0]].team == t,
{
    lemma_distinct_teams(s);
    lemma_service_order_permutes(s, next, ord);
    let ds = distinct_teams(s);
    lemma_slot_of_item(s, next, 0);
    lemma_slot_range(s, next, s[0].team);
    lemma_position_onto(ds, start_position(s, next) as int);
    let t = choose|t: Seq<char>| ds.contains(t) && count_before(ds, t) == start_position(s, next);
    assert(exists|j: int| 0 <= j < s.len() && #[trigger] s[j].team == t);
    let i = lemma_first_of_team(s, t, s.len() as int);
    lemma_first_turn(s, i, s.len() as int);
    assert(turn_of(s, i) == 0);
    assert(team_slot(s, next, t) == 0);
    let x = ord[0];
    lemma_slot_of_item(s, next, x);
    if x != i {
        assert(ord.contains(i));
        let a = choose|a: int| 0 <= a < ord.len() && ord[a] == i;
        assert(a != 0);
        assert(served_before(s, next, ord[0], ord[a]));
        assert(false);
    }
    assert forall|j: int| 0 <= j < s.len() && #[trigger] s[j].team == s[ord[0]].team implies s[ord[0]].insert_time
        <= s[j].insert_time by {
        if j != i {
            assert(pops_before(s, i, j));
        }
    }
    if let Some(u) = next {
        if ds.contains(u) {
            if u != t {
                lemma_position_injective(ds, t, u);
            }
        }
    }
}

} // verus!

verus! {

proof fn lemma_count_before_remove(s: Seq<Seq<char>>, j: int, t: Seq<char>)
    requires
        0 <= j < s.len(),
    ensures
        count_before(s, t) == count_before(s.remove(j), t) + if seq_lt(s[j], t) { 1nat } else { 0nat },
    decreases s.len(),
{
    if j == s.len() - 1 {
        assert(s.remove(j) =~= s.drop_last());
    } else {
        assert(s.remove(j).drop_last() =~= s.drop_last().remove(j));
        assert(s.remove(j).last() == s.last());
        lemma_count_before_remove(s.drop_last(), j, t);
    }
}

/// Two lists of distinct teams with the same teams have the same length and count the same
/// teams before any team.
proof fn lemma_same_teams(a: Seq<Seq<char>>, b: Seq<Seq<char>>)
    requires
        a.no_duplicates(),
        b.no_duplicates(),
        forall|t: Seq<char>| a.contains(t) <==> b.contains(t),
    ensures
        a.len() == b.len(),
        forall|t: Seq<char>| count_before(a, t) == count_before(b, t),
    decreases a.len(),
{
    if a.len() == 0 {
        if b.len() > 0 {
            assert(b.contains(b[0]));
        }
    } else {
        let x = a.last();
        assert(a.contains(x));
        let j = choose|j: int| 0 <= j < b.len() && b[j] == x;
        let a1 = a.drop_last();
        let b1 = b.remove(j);
        assert forall|t: Seq<char>| a1.contains(t) <==> b1.contains(t) by {
            if a1.contains(t) {
                let i = choose|i: int| 0 <= i < a1.len() && a1[i] == t;
                assert(a[i] == t && i != a.len() - 1);
                assert(t != x);
                assert(b.contains(t));
                let k = choose|k: int| 0 <= k < b.len() && b[k] == t;
                assert(k != j);
                if k < j {
                    assert(b1[k] == t);
                } else {
                    assert(b1[k - 1] == t);
                }
            }
            if b1.contains(t) {
                let k = choose|k: int| 0 <= k < b1.len() && b1[k] == t;
                let k0 = if k < j { k } else { k + 1 };
                assert(b[k0] == t && k0 != j);
                assert(t != x);
                assert(a.contains(t));
                let i = choose|i: int| 0 <= i < a.len() && a[i] == t;
                assert(i != a.len() - 1);
                assert(a1[i] == t);
            }
        }
        assert(b1.no_duplicates()) by {
            assert forall|p: int, q: int| 0 <= p < b1.len() && 0 <= q < b1.len() && p != q implies b1[p] != b1[q] by {
                let p0 = if p < j { p } else { p + 1 };
                let q0 = if q < j { q } else { q + 1 };
                assert(b1[p] == b[p0] && b1[q] == b[q0]);
            }
        }
        lemma_same_teams(a1, b1);
        assert forall|t: Seq<char>| count_before(a, t) == count_before(b, t) by {
            lemma_count_before_remove(b, j, t);
        }
    }
}

/// Teams take turns across polls: where two consecutive polls find tasks of the same teams,
/// the second serves the team that follows, in lexicographic order and cyclically, the team that
/// the first served. So over as many polls as there are teams, each team is served once.
pub proof fn lemma_rotation(
    s1: Seq<WorkItemView>,
    n1: Option<Seq<char>>,
    ord1: Seq<int>,
    t: Seq<char>,
    s2: Seq<WorkItemView>,
    ord2: Seq<int>,
)
    requires
        is_service_order(s1, n1, ord1),
        s1.len() > 0,
        next_turn(s1, n1, t),
        forall|u: Seq<char>| distinct_teams(s1).contains(u) <==> distinct_teams(s2).contains(u),
        is_service_order(s2, Some(t), ord2),
        s2.len() > 0,
    ensures
        distinct_teams(s2).len() == distinct_teams(s1).len(),
        team_position(s2, s2[ord2[0]].team) as int == (team_position(s1, s1[ord1[0]].team) as int + 1) % (
        distinct_teams(s1).len() as int),
{
    lemma_distinct_teams(s1);
    lemma_distinct_teams(s2);
    lemma_same_teams(distinct_teams(s1), distinct_teams(s2));
    lemma_first_served(s1, n1, ord1);
    lemma_first_served(s2, Some(t), ord2);
    assert(distinct_teams(s2).contains(t));
    assert(start_position(s2, Some(t)) == team_position(s2, t));
    assert(team_position(s2, t) == team_position(s1, t));
}

/// The team served by a poll that served something.
pub open spec fn served_team(s: Seq<WorkItemView>, ord: Seq<int>) -> Seq<char> {
    s[ord[0]].team
}

/// Whether `polls` is a run of consecutive polls over one set of teams: each poll found tasks
/// of exactly the teams of the first one and served them in its service order, and each poll
/// remembered, for the next, the team whose turn came next.
pub open spec fn consecutive_polls(
    polls: Seq<Seq<WorkItemView>>,
    nexts: Seq<Option<Seq<char>>>,
    ords: Seq<Seq<int>>,
) -> bool {
    &&& polls.len() > 0
    &&& nexts.len() == polls.len()
    &&& ords.len() == polls.len()
    &&& forall|i: int| 0 <= i < polls.len() ==> #[trigger] polls[i].len() > 0 && is_service_order(polls[i], nexts[i], ords[i])
    &&& forall|i: int, u: Seq<char>|
        0 <= i < polls.len() ==> (#[trigger] distinct_teams(polls[i]).contains(u) <==> distinct_teams(polls[0]).contains(u))
    &&& forall|i: int|
        1 <= i < polls.len() ==> #[trigger] nexts[i] is Some && next_turn(polls[i - 1], nexts[i - 1], nexts[i]->0)
}

proof fn lemma_positions_advance(polls: Seq<Seq<WorkItemView>>, nexts: Seq<Option<Seq<char>>>, ords: Seq<Seq<int>>, i: int)
    requires
        consecutive_polls(polls, nexts, ords),
        0 <= i < polls.len(),
    ensures
        distinct_teams(polls[i]).len() == distinct_teams(polls[0]).len(),
        team_position(polls[i], served_team(polls[i], ords[i])) as int == (team_position(
            polls[0],
            served_team(polls[0], ords[0]),
        ) as int + i) % (distinct_teams(polls[0]).len() as int),
    decreases i,
{
    let k = distinct_teams(polls[0]).len() as int;
    assert(polls[0].len() > 0 && is_service_order(polls[0], nexts[0], ords[0]));
    lemma_service_order_permutes(polls[0], nexts[0], ords[0]);
    lemma_distinct_teams(polls[0]);
    let a = team_position(polls[0], served_team(polls[0], ords[0])) as int;
    assert(0 <= ords[0][0] < polls[0].len());
    assert(distinct_teams(polls[0]).contains(polls[0][ords[0][0]].team));
    lemma_count_before_bound(distinct_teams(polls[0]), served_team(polls[0], ords[0]));
    if i == 0 {
        lemma_small_mod(a as nat, k as nat);
    } else {
        lemma_positions_advance(polls, nexts, ords, i - 1);
        assert(polls[i - 1].len() > 0 && is_service_order(polls[i - 1], nexts[i - 1], ords[i - 1]));
        assert(polls[i].len() > 0 && is_service_order(polls[i], nexts[i], ords[i]));
        assert(nexts[i] is Some && next_turn(polls[i - 1], nexts[i - 1], nexts[i]->0));
        assert forall|u: Seq<char>| distinct_teams(polls[i - 1]).contains(u) <==> distinct_teams(polls[i]).contains(u) by {
            assert(distinct_teams(polls[i - 1]).contains(u) <==> distinct_teams(polls[0]).contains(u));
            assert(distinct_teams(polls[i]).contains(u) <==> distinct_teams(polls[0]).contains(u));
        }
        lemma_rotation(polls[i - 1], nexts[i - 1], ords[i - 1], nexts[i]->0, polls[i], ords[i]);
        lemma_add_mod_noop(a + i - 1, 1, k);
        if k > 1 {
            lemma_small_mod(1, k as nat);
        }
    }
}

proof fn lemma_served_in_set(polls: Seq<Seq<WorkItemView>>, nexts: Seq<Option<Seq<char>>>, ords: Seq<Seq<int>>, i: int)
    requires
        consecutive_polls(polls, nexts, ords),
        0 <= i < polls.len(),
    ensures
        distinct_teams(polls[0]).contains(served_team(polls[i], ords[i])),
        team_position(polls[0], served_team(polls[i], ords[i])) as int == (team_position(
            polls[0],
            served_team(polls[0], ords[0]),
        ) as int + i) % (distinct_teams(polls[0]).len() as int),
{
    lemma_positions_advance(polls, nexts, ords, i);
    assert(polls[i].len() > 0 && is_service_order(polls[i], nexts[i], ords[i]));
    lemma_service_order_permutes(polls[i], nexts[i], ords[i]);
    lemma_distinct_teams(polls[i]);
    lemma_distinct_teams(polls[0]);
    assert(0 <= ords[i][0] < polls[i].len());
    assert(distinct_teams(polls[i]).contains(polls[i][ords[i][0]].team));
    let w = served_team(polls[i], ords[i]);
    assert(distinct_teams(polls[i]).contains(w) <==> distinct_teams(polls[0]).contains(w));
    assert forall|u: Seq<char>| distinct_teams(polls[0]).contains(u) <==> distinct_teams(polls[i]).contains(u) by {
        assert(distinct_teams(polls[i]).contains(u) <==> distinct_teams(polls[0]).contains(u));
    }
    lemma_same_teams(distinct_teams(polls[0]), distinct_teams(polls[i]));
}

proof fn lemma_window_covers(
    polls: Seq<Seq<WorkItemView>>,
    nexts: Seq<Option<Seq<char>>>,
    ords: Seq<Seq<int>>,
    j: int,
    u: Seq<char>,
) -> (i: int)
    requires
        consecutive_polls(polls, nexts, ords),
        0 <= j,
        j + distinct_teams(polls[0]).len() <= polls.len(),
        distinct_teams(polls[0]).contains(u),
    ensures
        j <= i < j + distinct_teams(polls[0]).len(),
        served_team(polls[i], ords[i]) == u,
{
    let k = distinct_teams(polls[0]).len() as int;
    let a = team_position(polls[0], served_team(polls[0], ords[0])) as int;
    lemma_distinct_teams(polls[0]);
    let pu = team_position(polls[0], u) as int;
    lemma_count_before_bound(distinct_teams(polls[0]), u);
    lemma_mod_bound(pu - a - j, k);
    let i = j + (pu - a - j) % k;
    lemma_add_mod_noop_right(a + j, pu - a - j, k);
    lemma_small_mod(pu as nat, k as nat);
    assert(a + i == (a + j) + (pu - a - j) % k);
    lemma_served_in_set(polls, nexts, ords, i);
    let w = served_team(polls[i], ords[i]);
    if w != u {
        lemma_position_injective(distinct_teams(polls[0]), w, u);
    }
    i
}

/// No team starves: over consecutive polls that find tasks of the same teams, the teams are
/// served in lexicographic order, cyclically, one per poll, so within any as many consecutive
/// polls as there are teams, every team is served exactly once.
pub proof fn lemma_rotation_window(
    polls: Seq<Seq<WorkItemView>>,
    nexts: Seq<Option<Seq<char>>>,
    ords: Seq<Seq<int>>,
    j: int,
)
    requires
        consecutive_polls(polls, nexts, ords),
        0 <= j,
        j + distinct_teams(polls[0]).len() <= polls.len(),
    ensures
        forall|i: int|
            0 <= i < polls.len() ==> team_position(polls[i], #[trigger] served_team(polls[i], ords[i])) as int
                == (team_position(polls[0], served_team(polls[0], ords[0])) as int + i) % (distinct_teams(
                polls[0],
            ).len() as int),
        forall|u: Seq<char>|
            #[trigger] distinct_teams(polls[0]).contains(u) ==> exists|i: int|
                j <= i < j + distinct_teams(polls[0]).len() && served_team(polls[i], ords[i]) == u,
        forall|i1: int, i2: int|
            j <= i1 < i2 < j + distinct_teams(polls[0]).len() ==> served_team(polls[i1], #[trigger] ords[i1])
                != served_team(polls[i2], #[trigger] ords[i2]),
{
    let k = distinct_teams(polls[0]).len() as int;
    let a = team_position(polls[0], served_team(polls[0], ords[0])) as int;
    assert forall|i: int|
        0 <= i < polls.len() implies team_position(polls[i], #[trigger] served_team(polls[i], ords[i])) as int == (a
            + i) % k by {
        lemma_positions_advance(polls, nexts, ords, i);
    }
    assert forall|u: Seq<char>| #[trigger] distinct_teams(polls[0]).contains(u) implies exists|i: int|
        j <= i < j + k && served_team(polls[i], ords[i]) == u by {
        let i = lemma_window_covers(polls, nexts, ords, j, u);
    }
    assert forall|i1: int, i2: int| j <= i1 < i2 < j + k implies served_team(polls[i1], #[trigger] ords[i1])
        != served_team(polls[i2], #[trigger] ords[i2]) by {
        lemma_served_in_set(polls, nexts, ords, i1);
        lemma_served_in_set(polls, nexts, ords, i2);
        lemma_mod_window(a + i1, i2 - i1, k);
    }
}

proof fn lemma_mod_window(x: int, d: int, k: int)
    requires
        0 < d < k,
    ensures
        x % k != (x + d) % k,
{
    lemma_fundamental_div_mod(x, k);
    lemma_fundamental_div_mod(x + d, k);
    lemma_mod_bound(x, k);
    lemma_mod_bound(x + d, k);
    assert((x % k) != ((x + d) % k)) by (nonlinear_arith)
        requires
            x == k * (x / k) + x % k,
            x + d == k * ((x + d) / k) + (x + d) % k,
            0 <= x % k < k,
            0 <= (x + d) % k < k,
            0 < d < k,
    {
        if x % k == (x + d) % k {
            assert(d == k * ((x + d) / k - x / k));
            if (x + d) / k - x / k >= 1 {
                assert(k * ((x + d) / k - x / k) >= k);
            } else if (x + d) / k - x / k <= 0 {
                assert(k * ((x + d) / k - x / k) <= 0);
            }
        }
    }
}

} // verus!
