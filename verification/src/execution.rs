//! What running a compiler and its tests produced, and how the backend sums it up.
use vstd::prelude::*;
use crate::ids::{TaskId, TeamId, TestId};
use crate::queue::WorkItem;
use crate::storage::opt_text;

verus! {

/// A finished process: its output, how long it ran, and its exit code if it had one.
#[derive(Debug, Clone)]
pub struct FinishedExecution {
    pub stdout: String,
    pub stderr: String,
    pub runtime_ms: u64,
    pub exit_status: Option<i32>,
}

/// A process that was stopped before it finished.
#[derive(Debug, Clone)]
pub struct AbortedExecution {
    pub stdout: String,
    pub stderr: String,
    pub runtime_ms: u64,
}

/// A run that the executor itself could not carry out.
#[derive(Debug, Clone)]
pub struct InternalError {
    pub message: String,
    pub runtime_ms: u64,
}

/// How one run of the compiler or of the compiled binary went.
#[derive(Debug, Clone)]
pub enum ExecutionOutput {
    Aborted(AbortedExecution),
    Error(InternalError),
    Success(FinishedExecution),
    /// A run that finished unsuccessfully, with the errors gathered while judging it, if any.
    Failure { execution: FinishedExecution, accumulated_errors: Option<String> },
    Timeout(FinishedExecution),
}

/// How one test went: the compiler run and, where it got that far, the binary run.
#[derive(Debug, Clone)]
pub enum TestExecutionOutput {
    BinaryFailed { compiler_output: ExecutionOutput, binary_output: ExecutionOutput },
    CompilerFailed { compiler_output: ExecutionOutput },
    Error { output_so_far: ExecutionOutput },
    Success { compiler_output: ExecutionOutput, binary_output: ExecutionOutput },
}

/// The outcome of a run, without its output.
#[derive(Debug, Clone, Copy, PartialEq, Eq, Structural)]
pub enum ExecutionExitStatus {
    Aborted,
    Error,
    Failure,
    Success,
    Timeout,
}

/// The outcome of a run.
pub open spec fn exit_status_spec(o: ExecutionOutput) -> ExecutionExitStatus {
    match o {
        ExecutionOutput::Aborted(_) => ExecutionExitStatus::Aborted,
        ExecutionOutput::Error(_) => ExecutionExitStatus::Error,
        ExecutionOutput::Success(_) => ExecutionExitStatus::Success,
        ExecutionOutput::Failure { .. } => ExecutionExitStatus::Failure,
        ExecutionOutput::Timeout(_) => ExecutionExitStatus::Timeout,
    }
}

/// The run whose outcome stands for a test: the binary run where there is one, else the
/// compiler run (or what ran before the error).
pub open spec fn deciding_output(t: TestExecutionOutput) -> ExecutionOutput {
    match t {
        TestExecutionOutput::BinaryFailed { binary_output, .. } => binary_output,
        TestExecutionOutput::Success { binary_output, .. } => binary_output,
        TestExecutionOutput::CompilerFailed { compiler_output } => compiler_output,
        TestExecutionOutput::Error { output_so_far } => output_so_far,
    }
}

impl ExecutionExitStatus {
    /// The outcome of a run.
    pub fn from_output(value: &ExecutionOutput) -> (res: Self)
        ensures
            res == exit_status_spec(*value),
    {
        match value {
            ExecutionOutput::Aborted(_) => ExecutionExitStatus::Aborted,
            ExecutionOutput::Error(_) => ExecutionExitStatus::Error,
            ExecutionOutput::Success(_) => ExecutionExitStatus::Success,
            ExecutionOutput::Failure { .. } => ExecutionExitStatus::Failure,
            ExecutionOutput::Timeout(_) => ExecutionExitStatus::Timeout,
        }
    }

    /// The outcome of a test: that of its binary run, or of its compiler run where the binary
    /// did not run.
    pub fn from_test_output(value: &TestExecutionOutput) -> (res: Self)
        ensures
            res == exit_status_spec(deciding_output(*value)),
    {
        match value {
            TestExecutionOutput::BinaryFailed { binary_output, .. } => Self::from_output(binary_output),
            TestExecutionOutput::Success { binary_output, .. } => Self::from_output(binary_output),
            TestExecutionOutput::CompilerFailed { compiler_output } => Self::from_output(compiler_output),
            TestExecutionOutput::Error { output_so_far } => Self::from_output(output_so_far),
        }
    }
}

impl TestExecutionOutput {
    /// The binary run, where the test got that far.
    pub fn binary_output(&self) -> (res: Option<&ExecutionOutput>)
        ensures
            res == match *self {
                TestExecutionOutput::BinaryFailed { binary_output, .. } => Some(&binary_output),
                TestExecutionOutput::Success { binary_output, .. } => Some(&binary_output),
                _ => None,
            },
    {
        match self {
            TestExecutionOutput::BinaryFailed { binary_output, .. } => Some(binary_output),
            TestExecutionOutput::Success { binary_output, .. } => Some(binary_output),
            _ => None,
        }
    }

    /// The compiler run, or what ran before the error.
    pub fn compiler_output(&self) -> (res: &ExecutionOutput)
        ensures
            *res == match *self {
                TestExecutionOutput::BinaryFailed { compiler_output, .. } => compiler_output,
                TestExecutionOutput::Success { compiler_output, .. } => compiler_output,
                TestExecutionOutput::CompilerFailed { compiler_output } => compiler_output,
                TestExecutionOutput::Error { output_so_far } => output_so_far,
            },
    {
        match self {
            TestExecutionOutput::BinaryFailed { compiler_output, .. } => compiler_output,
            TestExecutionOutput::Success { compiler_output, .. } => compiler_output,
            TestExecutionOutput::CompilerFailed { compiler_output } => compiler_output,
            TestExecutionOutput::Error { output_so_far } => output_so_far,
        }
    }
}

/// Whether a test passed.
pub open spec fn is_test_success(t: TestExecutionOutput) -> bool {
    t is Success
}

/// The outcome of tasting a test against the reference compiler.
#[derive(Debug, Clone)]
pub enum TestTastingResult {
    Success,
    Failure { output: TestExecutionOutput },
}

impl TestTastingResult {
    /// The tasting result of a test run: success where the test passed, else the run.
    pub fn from_output(output: TestExecutionOutput) -> (res: Self)
        ensures
            is_test_success(output) ==> res is Success,
            !is_test_success(output) ==> res == (TestTastingResult::Failure { output }),
    {
        if let TestExecutionOutput::Success { .. } = output {
            return TestTastingResult::Success;
        }
        TestTastingResult::Failure { output }
    }
}

/// A finished test, as the backend keeps it.
#[derive(Debug, Clone)]
pub struct FinishedTestSummary {
    pub test_id: TestId,
    pub output: ExecutionExitStatus,
    pub provisional_for_category: Option<String>,
    pub category: Option<String>,
}

/// A finished test as the executor reports it.
#[derive(Debug, Clone)]
pub struct FinishedTest {
    pub test_id: String,
    pub output: TestExecutionOutput,
    pub provisional_for_category: Option<String>,
    pub category: Option<String>,
}

impl FinishedTestSummary {
    /// The summary of a finished test: its id, its outcome and its categories.
    pub fn from_test(value: &FinishedTest) -> (res: Self)
        ensures
            res.test_id@ == value.test_id@,
            res.output == exit_status_spec(deciding_output(value.output)),
            res.provisional_for_category == value.provisional_for_category,
            res.category == value.category,
    {
        FinishedTestSummary {
            test_id: TestId(value.test_id.clone()),
            output: ExecutionExitStatus::from_test_output(&value.output),
            provisional_for_category: value.provisional_for_category.clone(),
            category: value.category.clone(),
        }
    }
}

/// A count of tests, split into those provisional for a later category and the others.
#[derive(Debug, Clone, Copy, PartialEq, Eq, Structural)]
pub struct CountWithProvisional {
    pub normal: usize,
    pub provisional: usize,
    pub total: usize,
}

impl CountWithProvisional {
    /// Nothing counted yet.
    pub fn new() -> (res: Self)
        ensures
            res.normal == 0 && res.provisional == 0 && res.total == 0,
    {
        CountWithProvisional { normal: 0, provisional: 0, total: 0 }
    }

    /// Counts one more test, provisional or not.
    pub fn inc(&mut self, provisional: bool)
        requires
            old(self).total < usize::MAX,
            provisional ==> old(self).provisional < usize::MAX,
            !provisional ==> old(self).normal < usize::MAX,
        ensures
            final(self).total == old(self).total + 1,
            final(self).provisional == old(self).provisional + if provisional { 1int } else { 0int },
            final(self).normal == old(self).normal + if provisional { 0int } else { 1int },
    {
        if provisional {
            self.provisional = self.provisional + 1;
        } else {
            self.normal = self.normal + 1;
        }
        self.total = self.total + 1;
    }
}

/// How many tests of each outcome a task had.
#[derive(Debug, Clone, Copy)]
pub struct FinishedCompilerTaskStatistics {
    pub abort: CountWithProvisional,
    pub error: CountWithProvisional,
    pub failure: CountWithProvisional,
    pub success: CountWithProvisional,
    pub timeout: CountWithProvisional,
    pub total: CountWithProvisional,
}

/// How many of the tests have outcome `s` (any outcome where `s` is `None`), and how many of
/// those are provisional.
pub open spec fn count_of(tests: Seq<FinishedTestSummary>, s: Option<ExecutionExitStatus>, provisional: bool) -> nat
    decreases tests.len(),
{
    if tests.len() == 0 {
        0
    } else {
        count_of(tests.drop_last(), s, provisional) + if (s is None || s == Some(tests.last().output))
            && tests.last().provisional_for_category is Some == provisional {
            1nat
        } else {
            0nat
        }
    }
}

/// Whether `c` counts the tests of outcome `s` exactly.
pub open spec fn counts(c: CountWithProvisional, tests: Seq<FinishedTestSummary>, s: Option<ExecutionExitStatus>) -> bool {
    &&& c.provisional == count_of(tests, s, true)
    &&& c.normal == count_of(tests, s, false)
    &&& c.total == c.provisional + c.normal
}

/// Whether the statistics count the tests exactly.
pub open spec fn statistics_of(st: FinishedCompilerTaskStatistics, tests: Seq<FinishedTestSummary>) -> bool {
    &&& counts(st.abort, tests, Some(ExecutionExitStatus::Aborted))
    &&& counts(st.error, tests, Some(ExecutionExitStatus::Error))
    &&& counts(st.failure, tests, Some(ExecutionExitStatus::Failure))
    &&& counts(st.success, tests, Some(ExecutionExitStatus::Success))
    &&& counts(st.timeout, tests, Some(ExecutionExitStatus::Timeout))
    &&& counts(st.total, tests, None)
}

proof fn lemma_count_bound(tests: Seq<FinishedTestSummary>, s: Option<ExecutionExitStatus>)
    ensures
        count_of(tests, s, true) + count_of(tests, s, false) <= tests.len(),
    decreases tests.len(),
{
    if tests.len() > 0 {
        lemma_count_bound(tests.drop_last(), s);
    }
}

impl FinishedCompilerTaskStatistics {
    /// The counts of the tests by outcome.
    pub fn from_summaries(tests: &[FinishedTestSummary]) -> (res: Self)
        requires
            tests@.len() < usize::MAX,
        ensures
            statistics_of(res, tests@),
    {
        let mut st = FinishedCompilerTaskStatistics {
            abort: CountWithProvisional::new(),
            error: CountWithProvisional::new(),
            failure: CountWithProvisional::new(),
            success: CountWithProvisional::new(),
            timeout: CountWithProvisional::new(),
            total: CountWithProvisional::new(),
        };
        let mut i: usize = 0;
        while i < tests.len()
            invariant
                i <= tests@.len() < usize::MAX,
                statistics_of(st, tests@.take(i as int)),
            decreases tests@.len() - i,
        {
            let ghost t = tests@.take(i + 1);
            assert(t.drop_last() =~= tests@.take(i as int));
            assert(t.last() == tests@[i as int]);
            proof {
                lemma_count_bound(tests@.take(i as int), Some(ExecutionExitStatus::Aborted));
                lemma_count_bound(tests@.take(i as int), Some(ExecutionExitStatus::Error));
                lemma_count_bound(tests@.take(i as int), Some(ExecutionExitStatus::Failure));
                lemma_count_bound(tests@.take(i as int), Some(ExecutionExitStatus::Success));
                lemma_count_bound(tests@.take(i as int), Some(ExecutionExitStatus::Timeout));
                lemma_count_bound(tests@.take(i as int), None);
            }
            let provisional = tests[i].provisional_for_category.is_some();
            match tests[i].output {
                ExecutionExitStatus::Aborted => st.abort.inc(provisional),
                ExecutionExitStatus::Error => st.error.inc(provisional),
                ExecutionExitStatus::Failure => st.failure.inc(provisional),
                ExecutionExitStatus::Success => st.success.inc(provisional),
                ExecutionExitStatus::Timeout => st.timeout.inc(provisional),
            }
            st.total.inc(provisional);
            i = i + 1;
        }
        assert(tests@.take(i as int) =~= tests@);
        st
    }
}

proof fn lemma_count_partition(tests: Seq<FinishedTestSummary>, provisional: bool)
    ensures
        count_of(tests, None, provisional) == count_of(tests, Some(ExecutionExitStatus::Aborted), provisional)
            + count_of(tests, Some(ExecutionExitStatus::Error), provisional) + count_of(
            tests,
            Some(ExecutionExitStatus::Failure),
            provisional,
        ) + count_of(tests, Some(ExecutionExitStatus::Success), provisional) + count_of(
            tests,
            Some(ExecutionExitStatus::Timeout),
            provisional,
        ),
        count_of(tests, None, true) + count_of(tests, None, false) == tests.len(),
    decreases tests.len(),
{
    if tests.len() > 0 {
        lemma_count_partition(tests.drop_last(), provisional);
    }
}

/// Every test is counted once: the statistics' total is the number of tests, and the counts
/// of the five outcomes add up to it, provisional and normal tests alike.
pub proof fn lemma_statistics_partition(st: FinishedCompilerTaskStatistics, tests: Seq<FinishedTestSummary>)
    requires
        statistics_of(st, tests),
    ensures
        st.total.total == tests.len(),
        st.abort.total + st.error.total + st.failure.total + st.success.total + st.timeout.total == st.total.total,
        st.abort.provisional + st.error.provisional + st.failure.provisional + st.success.provisional
            + st.timeout.provisional == st.total.provisional,
{
    lemma_count_partition(tests, true);
    lemma_count_partition(tests, false);
}

/// The state of a submitted task as the frontend shows it.
#[derive(Debug, Clone, Copy, PartialEq, Eq, Structural)]
pub enum QueuedTaskStatus {
    Aborted,
    Error,
    Failure,
    Queued,
    Running,
    Success,
    Timeout,
}

/// The status of a finished task from the outcomes of its runs: any abort makes it aborted,
/// then any error or timeout makes it an error, then any failure a failure; else it succeeded.
pub open spec fn task_status_spec(s: Seq<ExecutionExitStatus>) -> QueuedTaskStatus {
    if s.contains(ExecutionExitStatus::Aborted) {
        QueuedTaskStatus::Aborted
    } else if s.contains(ExecutionExitStatus::Error) {
        QueuedTaskStatus::Error
    } else if s.contains(ExecutionExitStatus::Timeout) {
        QueuedTaskStatus::Error
    } else if s.contains(ExecutionExitStatus::Failure) {
        QueuedTaskStatus::Failure
    } else {
        QueuedTaskStatus::Success
    }
}

/// A finished task succeeded exactly when every one of its runs succeeded; it was aborted
/// exactly when some run was aborted; it is an error exactly when no run was aborted and some
/// run had an internal error or timed out; and it failed exactly when no run was aborted, had
/// an error or timed out, and some run failed.
pub proof fn lemma_task_status(s: Seq<ExecutionExitStatus>)
    ensures
        task_status_spec(s) == QueuedTaskStatus::Success <==> forall|i: int|
            0 <= i < s.len() ==> s[i] == ExecutionExitStatus::Success,
        task_status_spec(s) == QueuedTaskStatus::Aborted <==> exists|i: int|
            0 <= i < s.len() && s[i] == ExecutionExitStatus::Aborted,
        task_status_spec(s) == QueuedTaskStatus::Error <==> (forall|i: int|
            0 <= i < s.len() ==> s[i] != ExecutionExitStatus::Aborted) && exists|i: int|
            0 <= i < s.len() && (s[i] == ExecutionExitStatus::Error || s[i] == ExecutionExitStatus::Timeout),
        task_status_spec(s) == QueuedTaskStatus::Failure <==> (forall|i: int|
            0 <= i < s.len() ==> s[i] != ExecutionExitStatus::Aborted && s[i] != ExecutionExitStatus::Error && s[i]
                != ExecutionExitStatus::Timeout) && exists|i: int|
            0 <= i < s.len() && s[i] == ExecutionExitStatus::Failure,
{
    assert forall|x: ExecutionExitStatus| s.contains(x) <==> exists|i: int| 0 <= i < s.len() && s[i] == x by {
        if s.contains(x) {
            let i = choose|i: int| 0 <= i < s.len() && s[i] == x;
        }
    }
    if !(forall|i: int| 0 <= i < s.len() ==> s[i] == ExecutionExitStatus::Success) {
        let i = choose|i: int| !(0 <= i < s.len() ==> s[i] == ExecutionExitStatus::Success);
        assert(s.contains(s[i]));
    }
}

fn contains_status(s: &Vec<ExecutionExitStatus>, x: ExecutionExitStatus) -> (res: bool)
    ensures
        res == s@.contains(x),
{
    let mut i: usize = 0;
    while i < s.len()
        invariant
            i <= s.len(),
            forall|j: int| 0 <= j < i ==> s@[j] != x,
        decreases s.len() - i,
    {
        if s[i] == x {
            return true;
        }
        i = i + 1;
    }
    false
}

/// What a finished task was: which task of which team at which revision, and when it ran, in
/// milliseconds since the epoch.
#[derive(Debug, Clone)]
pub struct FinishedTaskInfo {
    pub task_id: String,
    pub start_ms: u64,
    pub end_ms: u64,
    pub team_id: String,
    pub revision_id: String,
    pub commit_message: String,
}

/// A finished task as the executor reports it: a failed build, or the build and the tests
/// that ran.
#[derive(Debug, Clone)]
pub enum FinishedCompilerTask {
    BuildFailed { info: FinishedTaskInfo, build_output: ExecutionOutput },
    RanTests { info: FinishedTaskInfo, build_output: FinishedExecution, tests: Vec<FinishedTest> },
}

/// The outcomes of the runs of a finished task: its build where that failed, else its tests.
pub open spec fn task_outcomes(t: FinishedCompilerTask) -> Seq<ExecutionExitStatus> {
    match t {
        FinishedCompilerTask::BuildFailed { build_output, .. } => seq![exit_status_spec(build_output)],
        FinishedCompilerTask::RanTests { tests, .. } => tests@.map_values(
            |x: FinishedTest| exit_status_spec(deciding_output(x.output)),
        ),
    }
}

impl QueuedTaskStatus {
    /// The status that the outcomes of a task's runs add up to.
    pub fn from_outcomes(status: &Vec<ExecutionExitStatus>) -> (res: Self)
        ensures
            res == task_status_spec(status@),
    {
        if contains_status(status, ExecutionExitStatus::Aborted) {
            return QueuedTaskStatus::Aborted;
        }
        if contains_status(status, ExecutionExitStatus::Error) {
            return QueuedTaskStatus::Error;
        }
        if contains_status(status, ExecutionExitStatus::Timeout) {
            return QueuedTaskStatus::Error;
        }
        if contains_status(status, ExecutionExitStatus::Failure) {
            return QueuedTaskStatus::Failure;
        }
        QueuedTaskStatus::Success
    }

    /// The status of a finished task.
    pub fn from_task(value: &FinishedCompilerTask) -> (res: Self)
        ensures
            res == task_status_spec(task_outcomes(*value)),
    {
        let mut status: Vec<ExecutionExitStatus> = Vec::new();
        match value {
            FinishedCompilerTask::BuildFailed { build_output, .. } => {
                status.push(ExecutionExitStatus::from_output(build_output));
                assert(status@ =~= task_outcomes(*value));
            },
            FinishedCompilerTask::RanTests { tests, .. } => {
                let mut i: usize = 0;
                while i < tests.len()
                    invariant
                        i <= tests.len(),
                        status@ == tests@.take(i as int).map_values(
                            |x: FinishedTest| exit_status_spec(deciding_output(x.output)),
                        ),
                    decreases tests.len() - i,
                {
                    status.push(ExecutionExitStatus::from_test_output(&tests[i].output));
                    assert(status@ =~= tests@.take(i + 1).map_values(
                        |x: FinishedTest| exit_status_spec(deciding_output(x.output)),
                    ));
                    i = i + 1;
                }
                assert(tests@.take(i as int) =~= tests@);
            },
        }
        Self::from_outcomes(&status)
    }
}

/// Whether `s` sums up the finished tests `tests`, one for one: the same outcomes and the same
/// provisional categories.
pub open spec fn summarizes(s: Seq<FinishedTestSummary>, tests: Seq<FinishedTest>) -> bool {
    &&& s.len() == tests.len()
    &&& forall|i: int|
        0 <= i < s.len() ==> (#[trigger] s[i]).output == exit_status_spec(deciding_output(tests[i].output))
            && s[i].provisional_for_category == tests[i].provisional_for_category
}

proof fn lemma_count_of_summaries(a: Seq<FinishedTestSummary>, b: Seq<FinishedTestSummary>, tests: Seq<FinishedTest>)
    requires
        summarizes(a, tests),
        summarizes(b, tests),
    ensures
        forall|s: Option<ExecutionExitStatus>, p: bool| count_of(a, s, p) == count_of(b, s, p),
    decreases tests.len(),
{
    if tests.len() > 0 {
        let n = tests.len() - 1;
        assert(a[n as int].output == b[n as int].output);
        assert(summarizes(a.drop_last(), tests.drop_last()));
        assert(summarizes(b.drop_last(), tests.drop_last()));
        lemma_count_of_summaries(a.drop_last(), b.drop_last(), tests.drop_last());
        assert forall|s: Option<ExecutionExitStatus>, p: bool| count_of(a, s, p) == count_of(b, s, p) by {
            assert(count_of(a.drop_last(), s, p) == count_of(b.drop_last(), s, p));
        }
    }
}

/// The summaries of finished tests, in order.
pub fn summaries_of(tests: &[FinishedTest]) -> (res: Vec<FinishedTestSummary>)
    ensures
        summarizes(res@, tests@),
        forall|i: int| 0 <= i < res@.len() ==> (#[trigger] res@[i]).test_id@ == tests@[i].test_id@
            && res@[i].category == tests@[i].category,
{
    let mut res: Vec<FinishedTestSummary> = Vec::new();
    let mut i: usize = 0;
    while i < tests.len()
        invariant
            i <= tests@.len(),
            res@.len() == i,
            forall|j: int| 0 <= j < i ==> (#[trigger] res@[j]).output == exit_status_spec(
                deciding_output(tests@[j].output),
            ) && res@[j].provisional_for_category == tests@[j].provisional_for_category
                && res@[j].test_id@ == tests@[j].test_id@ && res@[j].category == tests@[j].category,
        decreases tests@.len() - i,
    {
        res.push(FinishedTestSummary::from_test(&tests[i]));
        i = i + 1;
    }
    res
}

impl FinishedCompilerTaskStatistics {
    /// The counts of finished tests by outcome: those of any summaries of them.
    pub fn from_tests(tests: &[FinishedTest]) -> (res: Self)
        requires
            tests@.len() < usize::MAX,
        ensures
            forall|s: Seq<FinishedTestSummary>| summarizes(s, tests@) ==> statistics_of(res, s),
    {
        let summaries = summaries_of(tests);
        let res = Self::from_summaries(summaries.as_slice());
        assert forall|s: Seq<FinishedTestSummary>| summarizes(s, tests@) implies statistics_of(res, s) by {
            lemma_count_of_summaries(summaries@, s, tests@);
        }
        res
    }
}

/// A finished task in short: the outcome of a failed build, or the statistics of the tests and
/// which of them have changed since.
#[derive(Debug, Clone)]
pub enum FinishedCompilerTaskSummary {
    BuildFailed { info: FinishedTaskInfo, status: ExecutionExitStatus },
    RanTests { info: FinishedTaskInfo, outdated: Vec<TestId>, statistics: FinishedCompilerTaskStatistics },
}

/// The statistics of a task's tests, where it ran them.
pub open spec fn task_statistics(st: FinishedCompilerTaskStatistics, t: FinishedCompilerTask) -> bool {
    match t {
        FinishedCompilerTask::RanTests { tests, .. } => forall|s: Seq<FinishedTestSummary>|
            summarizes(s, tests@) ==> statistics_of(st, s),
        _ => true,
    }
}

/// Whether a task ran fewer tests than `usize` counts.
pub open spec fn countable(t: FinishedCompilerTask) -> bool {
    match t {
        FinishedCompilerTask::RanTests { tests, .. } => tests@.len() < usize::MAX,
        _ => true,
    }
}

impl FinishedCompilerTaskSummary {
    /// The summary of a finished task, with the tests that changed since it ran.
    pub fn from_task(value: FinishedCompilerTask, outdated: Vec<TestId>) -> (res: Self)
        requires
            countable(value),
        ensures
            match value {
                FinishedCompilerTask::BuildFailed { info, build_output } => res == (FinishedCompilerTaskSummary::BuildFailed {
                    info,
                    status: exit_status_spec(build_output),
                }),
                FinishedCompilerTask::RanTests { info, .. } => res matches FinishedCompilerTaskSummary::RanTests {
                    info: i,
                    outdated: o,
                    statistics,
                } && i == info && o == outdated && task_statistics(statistics, value),
            },
    {
        match value {
            FinishedCompilerTask::BuildFailed { info, build_output } => {
                let status = ExecutionExitStatus::from_output(&build_output);
                FinishedCompilerTaskSummary::BuildFailed { info, status }
            },
            FinishedCompilerTask::RanTests { info, tests, .. } => {
                let statistics = FinishedCompilerTaskStatistics::from_tests(tests.as_slice());
                FinishedCompilerTaskSummary::RanTests { info, outdated, statistics }
            },
        }
    }

    /// What the task was.
    pub fn info(&self) -> (res: &FinishedTaskInfo)
        ensures
            *res == match *self {
                FinishedCompilerTaskSummary::BuildFailed { info, .. } => info,
                FinishedCompilerTaskSummary::RanTests { info, .. } => info,
            },
    {
        match self {
            FinishedCompilerTaskSummary::BuildFailed { info, .. } => info,
            FinishedCompilerTaskSummary::RanTests { info, .. } => info,
        }
    }
}

/// A finished task in full, with the tests that changed since it ran, and the statistics of its
/// tests where it ran them.
#[derive(Debug, Clone)]
pub enum FinishedCompilerTaskWithOutdated {
    BuildFailed { info: FinishedTaskInfo, build_output: ExecutionOutput, outdated: Vec<TestId> },
    RanTests {
        info: FinishedTaskInfo,
        build_output: FinishedExecution,
        tests: Vec<FinishedTest>,
        outdated: Vec<TestId>,
        statistics: FinishedCompilerTaskStatistics,
    },
}

impl FinishedCompilerTaskWithOutdated {
    /// A finished task with the tests that changed since it ran.
    pub fn from_task(value: FinishedCompilerTask, outdated: Vec<TestId>) -> (res: Self)
        requires
            countable(value),
        ensures
            match value {
                FinishedCompilerTask::BuildFailed { info, build_output } => res == (FinishedCompilerTaskWithOutdated::BuildFailed {
                    info,
                    build_output,
                    outdated,
                }),
                FinishedCompilerTask::RanTests { info, build_output, tests } => res matches FinishedCompilerTaskWithOutdated::RanTests {
                    info: i,
                    build_output: b,
                    tests: t,
                    outdated: o,
                    statistics,
                } && i == info && b == build_output && t == tests && o == outdated && task_statistics(
                    statistics,
                    value,
                ),
            },
    {
        match value {
            FinishedCompilerTask::BuildFailed { info, build_output } => FinishedCompilerTaskWithOutdated::BuildFailed {
                info,
                build_output,
                outdated,
            },
            FinishedCompilerTask::RanTests { info, build_output, tests } => {
                let statistics = FinishedCompilerTaskStatistics::from_tests(tests.as_slice());
                FinishedCompilerTaskWithOutdated::RanTests { info, build_output, tests, outdated, statistics }
            },
        }
    }
}

/// The task that counts for a team in a category: picked automatically, chosen by hand by a
/// user at some time (milliseconds since the epoch), or finalized.
#[derive(Debug, Clone)]
pub enum FinalSubmittedTask {
    AutomaticallySelected { summary: FinishedCompilerTaskSummary },
    ManuallyOverridden { summary: FinishedCompilerTaskSummary, user_id: String, time: i64 },
    Finalized { summary: FinishedCompilerTaskSummary },
}

impl FinalSubmittedTask {
    /// The summary of the task.
    pub fn summary(&self) -> (res: &FinishedCompilerTaskSummary)
        ensures
            *res == match *self {
                FinalSubmittedTask::AutomaticallySelected { summary } => summary,
                FinalSubmittedTask::ManuallyOverridden { summary, .. } => summary,
                FinalSubmittedTask::Finalized { summary } => summary,
            },
    {
        match self {
            FinalSubmittedTask::AutomaticallySelected { summary } => summary,
            FinalSubmittedTask::ManuallyOverridden { summary, .. } => summary,
            FinalSubmittedTask::Finalized { summary } => summary,
        }
    }

    /// The id of the task.
    pub fn task_id(&self) -> (res: TaskId)
        ensures
            res@ == self.summary_spec().info_spec().task_id@,
    {
        TaskId(self.summary().info().task_id.clone())
    }

    /// The summary of the task.
    pub open spec fn summary_spec(&self) -> FinishedCompilerTaskSummary {
        match *self {
            FinalSubmittedTask::AutomaticallySelected { summary } => summary,
            FinalSubmittedTask::ManuallyOverridden { summary, .. } => summary,
            FinalSubmittedTask::Finalized { summary } => summary,
        }
    }
}

impl FinishedCompilerTaskSummary {
    /// What the task was.
    pub open spec fn info_spec(&self) -> FinishedTaskInfo {
        match *self {
            FinishedCompilerTaskSummary::BuildFailed { info, .. } => info,
            FinishedCompilerTaskSummary::RanTests { info, .. } => info,
        }
    }
}

/// A stored run: its output, its error message (internal errors only), the errors gathered
/// while judging it (failures only), its outcome, how long it ran in milliseconds, and its exit
/// code.
#[derive(Debug, Clone)]
pub struct ExecutionRow {
    pub stdout: String,
    pub stderr: String,
    pub error: Option<String>,
    pub accumulated_errors: Option<String>,
    pub result: ExecutionExitStatus,
    pub duration_ms: u64,
    pub exit_code: Option<i32>,
}

/// The abstract value of an [`ExecutionRow`].
pub struct RowView {
    pub stdout: Seq<char>,
    pub stderr: Seq<char>,
    pub error: Option<Seq<char>>,
    pub accumulated_errors: Option<Seq<char>>,
    pub result: ExecutionExitStatus,
    pub duration_ms: u64,
    pub exit_code: Option<i32>,
}

impl View for ExecutionRow {
    type V = RowView;

    open spec fn view(&self) -> RowView {
        RowView {
            stdout: self.stdout@,
            stderr: self.stderr@,
            error: opt_text(self.error),
            accumulated_errors: opt_text(self.accumulated_errors),
            result: self.result,
            duration_ms: self.duration_ms,
            exit_code: self.exit_code,
        }
    }
}

/// The row under which a run is stored: a finished run keeps its output and exit code, an
/// aborted one its output, an internal error its message with empty output.
pub open spec fn stored_row(e: ExecutionOutput) -> RowView {
    match e {
        ExecutionOutput::Aborted(a) => RowView {
            stdout: a.stdout@,
            stderr: a.stderr@,
            error: None,
            accumulated_errors: None,
            result: ExecutionExitStatus::Aborted,
            duration_ms: a.runtime_ms,
            exit_code: None,
        },
        ExecutionOutput::Error(i) => RowView {
            stdout: Seq::empty(),
            stderr: Seq::empty(),
            error: Some(i.message@),
            accumulated_errors: None,
            result: ExecutionExitStatus::Error,
            duration_ms: i.runtime_ms,
            exit_code: None,
        },
        ExecutionOutput::Success(f) => RowView {
            stdout: f.stdout@,
            stderr: f.stderr@,
            error: None,
            accumulated_errors: None,
            result: ExecutionExitStatus::Success,
            duration_ms: f.runtime_ms,
            exit_code: f.exit_status,
        },
        ExecutionOutput::Failure { execution: f, accumulated_errors } => RowView {
            stdout: f.stdout@,
            stderr: f.stderr@,
            error: None,
            accumulated_errors: opt_text(accumulated_errors),
            result: ExecutionExitStatus::Failure,
            duration_ms: f.runtime_ms,
            exit_code: f.exit_status,
        },
        ExecutionOutput::Timeout(f) => RowView {
            stdout: f.stdout@,
            stderr: f.stderr@,
            error: None,
            accumulated_errors: None,
            result: ExecutionExitStatus::Timeout,
            duration_ms: f.runtime_ms,
            exit_code: f.exit_status,
        },
    }
}

/// Whether a finished run holds this output, runtime and exit code.
pub open spec fn finished_from(f: FinishedExecution, r: RowView) -> bool {
    f.stdout@ == r.stdout && f.stderr@ == r.stderr && f.runtime_ms == r.duration_ms && f.exit_status == r.exit_code
}

/// Whether `e` is the run that the row `r` describes: the variant of its outcome, with its
/// output, runtime and exit code, or its error message (`N/A` where the row has none).
pub open spec fn restored_from(r: RowView, e: ExecutionOutput) -> bool {
    match r.result {
        ExecutionExitStatus::Aborted => e matches ExecutionOutput::Aborted(a) && a.stdout@ == r.stdout && a.stderr@
            == r.stderr && a.runtime_ms == r.duration_ms,
        ExecutionExitStatus::Error => e matches ExecutionOutput::Error(i) && i.runtime_ms == r.duration_ms
            && i.message@ == match r.error {
            Some(m) => m,
            None => "N/A"@,
        },
        ExecutionExitStatus::Success => e matches ExecutionOutput::Success(f) && finished_from(f, r),
        ExecutionExitStatus::Failure => e matches ExecutionOutput::Failure { execution: f, accumulated_errors: a }
            && finished_from(f, r) && opt_text(a) == r.accumulated_errors,
        ExecutionExitStatus::Timeout => e matches ExecutionOutput::Timeout(f) && finished_from(f, r),
    }
}

/// Whether two runs are the same: the same variant with the same texts and numbers.
pub open spec fn same_output(a: ExecutionOutput, b: ExecutionOutput) -> bool {
    match (a, b) {
        (ExecutionOutput::Aborted(x), ExecutionOutput::Aborted(y)) => x.stdout@ == y.stdout@ && x.stderr@ == y.stderr@
            && x.runtime_ms == y.runtime_ms,
        (ExecutionOutput::Error(x), ExecutionOutput::Error(y)) => x.message@ == y.message@ && x.runtime_ms
            == y.runtime_ms,
        (ExecutionOutput::Success(x), ExecutionOutput::Success(y)) => x.stdout@ == y.stdout@ && x.stderr@
            == y.stderr@ && x.runtime_ms == y.runtime_ms && x.exit_status == y.exit_status,
        (
            ExecutionOutput::Failure { execution: x, accumulated_errors: xa },
            ExecutionOutput::Failure { execution: y, accumulated_errors: ya },
        ) => x.stdout@ == y.stdout@ && x.stderr@ == y.stderr@ && x.runtime_ms == y.runtime_ms && x.exit_status
            == y.exit_status && opt_text(xa) == opt_text(ya),
        (ExecutionOutput::Timeout(x), ExecutionOutput::Timeout(y)) => x.stdout@ == y.stdout@ && x.stderr@
            == y.stderr@ && x.runtime_ms == y.runtime_ms && x.exit_status == y.exit_status,
        _ => false,
    }
}

impl ExecutionRow {
    /// The row under which a run is stored.
    pub fn from_output(e: &ExecutionOutput) -> (res: Self)
        ensures
            res@ == stored_row(*e),
    {
        match e {
            ExecutionOutput::Aborted(a) => ExecutionRow {
                stdout: a.stdout.clone(),
                stderr: a.stderr.clone(),
                error: None,
                accumulated_errors: None,
                result: ExecutionExitStatus::Aborted,
                duration_ms: a.runtime_ms,
                exit_code: None,
            },
            ExecutionOutput::Error(i) => {
                let r = ExecutionRow {
                    stdout: String::new(),
                    stderr: String::new(),
                    error: Some(i.message.clone()),
                    accumulated_errors: None,
                    result: ExecutionExitStatus::Error,
                    duration_ms: i.runtime_ms,
                    exit_code: None,
                };
                assert(r@ =~= stored_row(*e));
                r
            },
            ExecutionOutput::Success(f) => ExecutionRow {
                stdout: f.stdout.clone(),
                stderr: f.stderr.clone(),
                error: None,
                accumulated_errors: None,
                result: ExecutionExitStatus::Success,
                duration_ms: f.runtime_ms,
                exit_code: f.exit_status,
            },
            ExecutionOutput::Failure { execution: f, accumulated_errors } => ExecutionRow {
                stdout: f.stdout.clone(),
                stderr: f.stderr.clone(),
                error: None,
                accumulated_errors: accumulated_errors.clone(),
                result: ExecutionExitStatus::Failure,
                duration_ms: f.runtime_ms,
                exit_code: f.exit_status,
            },
            ExecutionOutput::Timeout(f) => ExecutionRow {
                stdout: f.stdout.clone(),
                stderr: f.stderr.clone(),
                error: None,
                accumulated_errors: None,
                result: ExecutionExitStatus::Timeout,
                duration_ms: f.runtime_ms,
                exit_code: f.exit_status,
            },
        }
    }

    /// The run that a stored row describes.
    pub fn into_output(self) -> (res: ExecutionOutput)
        ensures
            restored_from(self@, res),
    {
        let ghost v = self@;
        match self.result {
            ExecutionExitStatus::Aborted => ExecutionOutput::Aborted(
                AbortedExecution { stdout: self.stdout, stderr: self.stderr, runtime_ms: self.duration_ms },
            ),
            ExecutionExitStatus::Error => {
                let message = match self.error {
                    Some(m) => m,
                    None => {
                        proof {
                            reveal_strlit("N/A");
                        }
                        String::from_str("N/A")
                    },
                };
                ExecutionOutput::Error(InternalError { message, runtime_ms: self.duration_ms })
            },
            ExecutionExitStatus::Success => ExecutionOutput::Success(
                FinishedExecution {
                    stdout: self.stdout,
                    stderr: self.stderr,
                    runtime_ms: self.duration_ms,
                    exit_status: self.exit_code,
                },
            ),
            ExecutionExitStatus::Failure => ExecutionOutput::Failure {
                execution: FinishedExecution {
                    stdout: self.stdout,
                    stderr: self.stderr,
                    runtime_ms: self.duration_ms,
                    exit_status: self.exit_code,
                },
                accumulated_errors: self.accumulated_errors,
            },
            ExecutionExitStatus::Timeout => ExecutionOutput::Timeout(
                FinishedExecution {
                    stdout: self.stdout,
                    stderr: self.stderr,
                    runtime_ms: self.duration_ms,
                    exit_status: self.exit_code,
                },
            ),
        }
    }
}

/// A stored run reads back as the run that was stored: whatever a read of its row gives is
/// the same run, with the same outcome, texts, runtime and exit code.
pub proof fn lemma_row_round_trip(e: ExecutionOutput, back: ExecutionOutput)
    requires
        restored_from(stored_row(e), back),
    ensures
        same_output(back, e),
{
}

/// What an executor reports while it works on a task.
#[derive(Debug, Clone)]
pub enum ExecutorUpdate {
    StartedBuild,
    FinishedBuild { result: FinishedExecution },
    StartedTest { test_id: String },
    FinishedTest { result: FinishedTest },
    Done,
}

/// The progress of a task as the backend relays it: the tests to run, the build starting and
/// ending, each test starting and ending (in short), and the end.
#[derive(Debug, Clone)]
pub enum RunnerUpdate {
    AllTests { tests: Vec<TestId> },
    StartedBuild,
    FinishedBuild { result: FinishedExecution },
    StartedTest { test_id: String },
    FinishedTest { result: FinishedTestSummary },
    Done,
}

impl RunnerUpdate {
    /// The relayed form of an executor's report: the same event, a finished test in short.
    pub fn from_executor(value: ExecutorUpdate) -> (res: Self)
        ensures
            match value {
                ExecutorUpdate::StartedBuild => res is StartedBuild,
                ExecutorUpdate::FinishedBuild { result } => res == (RunnerUpdate::FinishedBuild { result }),
                ExecutorUpdate::StartedTest { test_id } => res == (RunnerUpdate::StartedTest { test_id }),
                ExecutorUpdate::FinishedTest { result } => res matches RunnerUpdate::FinishedTest { result: r }
                    && r.test_id@ == result.test_id@ && r.output == exit_status_spec(deciding_output(result.output))
                    && r.provisional_for_category == result.provisional_for_category && r.category
                    == result.category,
                ExecutorUpdate::Done => res is Done,
            },
    {
        match value {
            ExecutorUpdate::StartedBuild => RunnerUpdate::StartedBuild,
            ExecutorUpdate::FinishedBuild { result } => RunnerUpdate::FinishedBuild { result },
            ExecutorUpdate::StartedTest { test_id } => RunnerUpdate::StartedTest { test_id },
            ExecutorUpdate::FinishedTest { result } => RunnerUpdate::FinishedTest {
                result: FinishedTestSummary::from_test(&result),
            },
            ExecutorUpdate::Done => RunnerUpdate::Done,
        }
    }
}

/// A relayed update with the time it arrived, in milliseconds since the epoch.
#[derive(Debug, Clone)]
pub struct RunnerUpdateForFrontend {
    pub update: RunnerUpdate,
    pub time_ms: u64,
}

/// What a runner is doing, as the frontend shows it.
#[derive(Debug, Clone)]
pub enum RunnerWorkForFrontend {
    Testing(WorkItem),
    TestTasting,
}

impl RunnerWorkForFrontend {
    /// The task being tested, if the runner tests one.
    pub fn task(&self) -> (res: Option<&WorkItem>)
        ensures
            res == match *self {
                RunnerWorkForFrontend::Testing(w) => Some(&w),
                RunnerWorkForFrontend::TestTasting => None,
            },
    {
        match self {
            RunnerWorkForFrontend::Testing(it) => Some(it),
            RunnerWorkForFrontend::TestTasting => None,
        }
    }
}

/// The id of a run on an outside platform (a GitHub check run).
#[derive(Debug, Clone, Copy, PartialEq, Eq, Structural)]
pub struct ExternalRunId(pub u64);

/// Where an outside run stands.
#[derive(Debug, Clone, Copy, PartialEq, Eq, Structural)]
pub enum ExternalRunStatus {
    Queued,
    Running,
    Finished,
}

/// A run created on an outside platform for a task.
#[derive(Debug, Clone)]
pub struct CreatedExternalRun {
    pub task_id: TaskId,
    pub run_id: ExternalRunId,
    pub platform: String,
    pub repo: String,
    pub owner: String,
    pub revision: String,
    pub status: ExternalRunStatus,
}

/// A team's repository.
#[derive(Debug, Clone)]
pub struct Repo {
    pub team: TeamId,
    pub url: String,
}

} // verus!
