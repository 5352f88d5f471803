//! The executor: the endpoints it talks to, how it waits between polls, the limits it puts on
//! containers, and how it reads what a container run left behind.
use vstd::prelude::*;
use crate::execution::{
    AbortedExecution, ExecutionOutput, FinishedCompilerTask, FinishedExecution, FinishedTaskInfo, FinishedTest,
    InternalError, TestExecutionOutput,
};
use crate::storage::{arg, command, join_path, join_paths, opt_text, runs, CommandSpec};
use crate::text::{
    lossy_text, same_text, utf8_lossy, int_text, i64_to_decimal, lowercase_text, to_lowercase,
    concat, contains_spec, contains_text, decimal, join_spec, join_strings, lines_of, lines_spec,
    parse_i32, parse_i32_spec, replace_all, replace_spec, starts_with_spec, strings_view,
    strip_prefix_text, trim, trim_spec, u64_to_decimal,
};

verus! {

/// The backend endpoints of an executor.
#[derive(Debug, Clone)]
pub struct Endpoints {
    pub done: String,
    pub done_taste_test: String,
    pub ping: String,
    pub register: String,
    pub tar: String,
    pub update: String,
    pub work: String,
    pub work_taste_test: String,
}

impl Endpoints {
    /// The endpoints under the backend URL `base`.
    pub fn new(base: &str) -> (res: Self)
        ensures
            res.done@ == base@ + "/executor/done"@,
            res.done_taste_test@ == base@ + "/executor/done-taste-test"@,
            res.ping@ == base@ + "/executor/ping"@,
            res.register@ == base@ + "/executor/register"@,
            res.tar@ == base@ + "/executor/request-tar"@,
            res.update@ == base@ + "/executor/update"@,
            res.work@ == base@ + "/executor/request-work"@,
            res.work_taste_test@ == base@ + "/executor/request-work-taste-test"@,
    {
        Endpoints {
            done: concat(base, "/executor/done"),
            done_taste_test: concat(base, "/executor/done-taste-test"),
            ping: concat(base, "/executor/ping"),
            register: concat(base, "/executor/register"),
            tar: concat(base, "/executor/request-tar"),
            update: concat(base, "/executor/update"),
            work: concat(base, "/executor/request-work"),
            work_taste_test: concat(base, "/executor/request-work-taste-test"),
        }
    }
}

/// The longest wait between two polls, in milliseconds.
pub const MAX_BACKOFF_MS: u64 = 60_000;

/// The first wait after a failed poll, in milliseconds.
pub const INITIAL_BACKOFF_MS: u64 = 1_000;

/// The wait when the backend has no task, in milliseconds.
pub const NO_TASK_BACKOFF_MS: u64 = 2_000;

/// The wait after an iteration failed, in milliseconds.
pub const EMERGENCY_BACKOFF_MS: u64 = 5_000;

/// The wait after the next failure: twice this one, at most a minute.
pub open spec fn next_backoff_spec(current: nat) -> nat {
    if 2 * current < MAX_BACKOFF_MS {
        2 * current
    } else {
        MAX_BACKOFF_MS as nat
    }
}

/// The wait after the next failure, given this one, in milliseconds.
pub fn next_backoff(current_ms: u64) -> (res: u64)
    requires
        current_ms <= u64::MAX / 2,
    ensures
        res == next_backoff_spec(current_ms as nat),
{
    let doubled = current_ms * 2;
    if doubled < MAX_BACKOFF_MS {
        doubled
    } else {
        MAX_BACKOFF_MS
    }
}

/// The wait after `n` failures in a row, starting from `start`.
pub open spec fn backoff_after(start: nat, n: nat) -> nat
    decreases n,
{
    if n == 0 {
        start
    } else {
        next_backoff_spec(backoff_after(start, (n - 1) as nat))
    }
}

/// Two to the power `n`.
pub open spec fn pow2(n: nat) -> nat
    decreases n,
{
    if n == 0 {
        1
    } else {
        2 * pow2((n - 1) as nat)
    }
}

proof fn lemma_pow2_at_least(n: nat)
    requires
        n >= 16,
    ensures
        pow2(n) >= 65536,
    decreases n,
{
    if n > 16 {
        lemma_pow2_at_least((n - 1) as nat);
    } else {
        reveal_with_fuel(pow2, 17);
    }
}

proof fn lemma_backoff_grows(start: nat, n: nat)
    ensures
        backoff_after(start, n) >= if start * pow2(n) < MAX_BACKOFF_MS { start * pow2(n) } else { MAX_BACKOFF_MS as nat },
    decreases n,
{
    if n > 0 {
        lemma_backoff_grows(start, (n - 1) as nat);
        let q = start * pow2((n - 1) as nat);
        assert(start * pow2(n) == 2 * q) by (nonlinear_arith)
            requires
                pow2(n) == 2 * pow2((n - 1) as nat),
                q == start * pow2((n - 1) as nat),
        ;
        let p = backoff_after(start, (n - 1) as nat);
        assert(backoff_after(start, n) == next_backoff_spec(p));
    } else {
        assert(pow2(0) == 1);
        assert(start * pow2(n) == start) by (nonlinear_arith)
            requires
                pow2(n) == 1,
        ;
    }
}

/// After a failure the wait is at most a minute and, below a minute, never shorter than
/// before; sixteen failures in a row bring it to a minute from any positive start.
pub proof fn lemma_backoff_bounded(start: nat, n: nat)
    requires
        start > 0,
    ensures
        n > 0 ==> backoff_after(start, n) <= MAX_BACKOFF_MS,
        start <= MAX_BACKOFF_MS ==> backoff_after(start, n) >= start,
        n >= 16 ==> backoff_after(start, n) == MAX_BACKOFF_MS,
    decreases n,
{
    if n > 0 {
        lemma_backoff_bounded(start, (n - 1) as nat);
    }
    if n >= 16 {
        lemma_backoff_grows(start, n);
        lemma_pow2_at_least(n);
        assert(start * pow2(n) >= pow2(n)) by (nonlinear_arith)
            requires
                start >= 1,
        ;
    }
}

/// What came of asking the backend for work.
#[derive(Debug, Clone, Copy, PartialEq, Eq, Structural)]
pub enum PollOutcome {
    /// The request did not go through.
    RequestFailed,
    /// The backend answered with an error status.
    BadStatus,
    /// The answer could not be read.
    Unparsable,
    /// The backend has nothing to do.
    NoTask,
    /// The backend handed out a task.
    GotTask,
}

/// What an executor does after asking for work.
#[derive(Debug, Clone, Copy, PartialEq, Eq, Structural)]
pub enum PollAction {
    /// Wait its current backoff, which then grows.
    Backoff,
    /// Wait the fixed wait for an idle backend.
    BackoffNoTask,
    /// Execute the task.
    Execute,
}

/// What an executor does after asking for work: it backs off on any failure, waits briefly
/// when there is nothing to do, and otherwise executes the task.
pub fn poll_action(outcome: PollOutcome) -> (res: PollAction)
    ensures
        res == match outcome {
            PollOutcome::RequestFailed | PollOutcome::BadStatus | PollOutcome::Unparsable => PollAction::Backoff,
            PollOutcome::NoTask => PollAction::BackoffNoTask,
            PollOutcome::GotTask => PollAction::Execute,
        },
{
    match outcome {
        PollOutcome::RequestFailed | PollOutcome::BadStatus | PollOutcome::Unparsable => PollAction::Backoff,
        PollOutcome::NoTask => PollAction::BackoffNoTask,
        PollOutcome::GotTask => PollAction::Execute,
    }
}

/// The arguments of the executor mode.
#[derive(Debug, Clone)]
pub struct CliExecutorArgs {
    /// A unique name for this runner.
    pub id: String,
    /// The runner token of the server.
    pub token: String,
    /// Endpoint to poll for work updates.
    pub endpoint: String,
    /// Whether this executor only tastes tests against the reference compiler.
    pub test_taster: bool,
}

/// The arguments of the shim mode: the command to run and its arguments.
#[derive(Debug, Clone)]
pub struct CliShimArgs {
    pub args: Vec<String>,
}

} // verus!

verus! {

/// Resource limits of a container; zero means unlimited.
#[derive(Debug, Clone, Copy)]
pub struct LimitsConfig {
    pub cpus: Option<u32>,
    pub memory_bytes: Option<usize>,
}

/// The text of a number, as `format!` writes an unsigned integer.
pub open spec fn num_text(n: nat) -> Seq<char> {
    decimal(n)
}

/// The cpu section that replaces `{cpu_limits}`.
pub open spec fn cpu_section(quota: nat) -> Seq<char> {
    "\n                   \"cpu\": {\n                       \"quota\": "@ + num_text(quota)
        + ",\n                       \"period\": 100000\n                   },\n                   "@
}

/// The memory section that replaces `{memory_limits}`.
pub open spec fn memory_section(limit: nat) -> Seq<char> {
    "\n                   \"memory\": {\n                       \"limit\": "@ + num_text(limit)
        + ",\n                       \"swap\": "@ + num_text(limit) + "\n                   },\n                   "@
}

/// A container configuration with the limits filled in.
pub open spec fn apply_spec(l: LimitsConfig, config: Seq<char>) -> Seq<char> {
    let c1 = match l.cpus {
        Some(c) => replace_spec(config, "{cpu_limits}"@, cpu_section((c * 100_000) as nat)),
        None => replace_spec(config, "{cpu_limits}"@, Seq::empty()),
    };
    match l.memory_bytes {
        Some(m) => replace_spec(c1, "{memory_limits}"@, memory_section(m as nat)),
        None => replace_spec(c1, "{memory_limits}"@, Seq::empty()),
    }
}

impl LimitsConfig {
    /// Limits of `cpus` cpus and `memory_bytes` bytes, where zero means no limit.
    pub fn new(cpus: u32, memory_bytes: usize) -> (res: Self)
        ensures
            res.cpus == (if cpus > 0 { Some(cpus) } else { None }),
            res.memory_bytes == (if memory_bytes > 0 { Some(memory_bytes) } else { None }),
    {
        LimitsConfig {
            cpus: if cpus > 0 { Some(cpus) } else { None },
            memory_bytes: if memory_bytes > 0 { Some(memory_bytes) } else { None },
        }
    }

    /// The container configuration `config` with its `{cpu_limits}` and `{memory_limits}`
    /// placeholders replaced by the limits, or removed where there is none.
    pub fn apply(&self, config: String) -> (res: String)
        requires
            self.cpus matches Some(c) ==> c * 100_000 <= u32::MAX,
        ensures
            res@ == apply_spec(*self, config@),
    {
        proof {
            reveal_strlit("{cpu_limits}");
            reveal_strlit("{memory_limits}");
            reveal_strlit("");
            assert(""@ =~= Seq::<char>::empty());
        }
        let c1 = match self.cpus {
            Some(cpus) => {
                let quota = u64_to_decimal((cpus * 100_000) as u64);
                let mut section = String::from_str("\n                   \"cpu\": {\n                       \"quota\": ");
                section.append(quota.as_str());
                section.append(",\n                       \"period\": 100000\n                   },\n                   ");
                assert(section@ == cpu_section((cpus * 100_000) as nat));
                replace_all(config.as_str(), "{cpu_limits}", section.as_str())
            },
            None => replace_all(config.as_str(), "{cpu_limits}", ""),
        };
        assert(c1@ == match self.cpus {
            Some(c) => replace_spec(config@, "{cpu_limits}"@, cpu_section((c * 100_000) as nat)),
            None => replace_spec(config@, "{cpu_limits}"@, Seq::empty()),
        });
        match self.memory_bytes {
            Some(memory) => {
                let m = u64_to_decimal(memory as u64);
                let mut section = String::from_str("\n                   \"memory\": {\n                       \"limit\": ");
                section.append(m.as_str());
                section.append(",\n                       \"swap\": ");
                section.append(m.as_str());
                section.append("\n                   },\n                   ");
                assert(section@ == memory_section(memory as nat));
                replace_all(c1.as_str(), "{memory_limits}", section.as_str())
            },
            None => replace_all(c1.as_str(), "{memory_limits}", ""),
        }
    }
}


/// The lower-case hexadecimal digit of `n`, below 16.
pub open spec fn hex_digit(n: nat) -> char {
    if n < 10 {
        (('0' as u32) + n) as char
    } else {
        (('a' as u32) + n - 10) as char
    }
}

/// How a character is written inside a JSON string: `"` and `\` after a backslash, the control
/// characters with a short escape where JSON has one and as `\u00XX` otherwise, and every
/// other character as itself.
pub open spec fn json_escape(c: char) -> Seq<char> {
    if c == '"' {
        seq!['\\', '"']
    } else if c == '\\' {
        seq!['\\', '\\']
    } else if c == '\u{8}' {
        seq!['\\', 'b']
    } else if c == '\t' {
        seq!['\\', 't']
    } else if c == '\n' {
        seq!['\\', 'n']
    } else if c == '\u{c}' {
        seq!['\\', 'f']
    } else if c == '\r' {
        seq!['\\', 'r']
    } else if (c as u32) < 0x20 {
        seq!['\\', 'u', '0', '0', hex_digit(((c as u32) / 16) as nat), hex_digit(((c as u32) % 16) as nat)]
    } else {
        seq![c]
    }
}

/// A text as a JSON string.
pub open spec fn json_string(s: Seq<char>) -> Seq<char> {
    seq!['"'] + s.map_values(|c: char| json_escape(c)).flatten() + seq!['"']
}

/// A list of texts as a JSON array of strings, without spaces.
pub open spec fn json_string_list(items: Seq<Seq<char>>) -> Seq<char> {
    seq!['['] + join_spec(items.map_values(|s: Seq<char>| json_string(s)), seq![',']) + seq![']']
}

/// Writes `items` as a JSON array of strings with `serde_json::to_string`, which escapes as
/// `json_escape` says (its `ESCAPE` table) and cannot fail on a list of strings, writing into
/// memory.
#[verifier::external_body]
fn to_json_string_list(items: &Vec<String>) -> (res: Option<String>)
    ensures
        opt_text(res) == Some(json_string_list(strings_view(items@))),
{
    serde_json::to_string(items).ok()
}

/// How a container sees its root file system.
#[derive(Debug, Clone, Copy, PartialEq, Eq, Structural)]
pub enum ContainerConfig {
    /// The root file system itself, writable.
    WritableRootfs,
    /// An overlay over the root file system, whose writes go to an upper directory.
    OverlayRootfs,
}

/// Why a container configuration could not be written.
#[derive(Debug, Clone)]
pub enum RunConfigError {
    /// The command could not be written as JSON.
    ArgsNotJson,
    /// A file or directory could not be written; the path and the report of the error.
    FileWrite { path: String, message: String },
}

/// The configuration of a container run, ready to be written to its work directory.
#[derive(Debug, Clone)]
pub struct RunConfig {
    /// Where the configuration goes.
    pub config_path: String,
    /// The configuration text.
    pub config: String,
    /// The directory that holds what the container writes.
    pub root: String,
    /// The directories that the overlay needs; none without an overlay.
    pub overlay_dirs: Vec<String>,
}

/// A configuration template with the root file system, the host user and the command filled in.
pub open spec fn base_config(template: Seq<char>, rootfs: Seq<char>, uid: Seq<char>, args: Seq<char>) -> Seq<char> {
    replace_spec(replace_spec(replace_spec(template, "{rootfs}"@, rootfs), "{host_uid}"@, uid), "{args}"@, args)
}

/// The overlay template further filled in with its lower, upper and work directories.
pub open spec fn overlay_config(c: Seq<char>, lower: Seq<char>, upper: Seq<char>, work: Seq<char>) -> Seq<char> {
    replace_spec(replace_spec(replace_spec(c, "{lower_dir}"@, lower), "{upper_dir}"@, upper), "{work_dir}"@, work)
}

/// Whether a directory of the overlay must be created: always, unless existing ones may be
/// reused and it exists.
pub fn must_create_dir(exists_okay: bool, exists: bool) -> (res: bool)
    ensures
        res == (!exists_okay || !exists),
{
    !exists_okay || !exists
}

impl ContainerConfig {
    /// The run configuration for the command `args` in a container over `rootfs`, kept in
    /// `workdir`, from the runtime's configuration `template` for this kind of root, for the
    /// host user `host_uid` and with the resource limits `limits`. The command goes in as a JSON
    /// array of strings.
    pub fn render(
        &self,
        template: &str,
        rootfs: &str,
        workdir: &str,
        host_uid: u32,
        args: &Vec<String>,
        limits: &LimitsConfig,
    ) -> (res: Result<RunConfig, RunConfigError>)
        requires
            limits.cpus matches Some(c) ==> c * 100_000 <= u32::MAX,
        ensures
            res matches Ok(r) && ({
                let j = json_string_list(strings_view(args@));
                let base = base_config(template@, rootfs@, decimal(host_uid as nat), j);
                let upper = join_path(workdir@, "overlay-upper"@);
                let work = join_path(workdir@, "overlay-work"@);
                &&& r.config_path@ == join_path(workdir@, "config.json"@)
                &&& *self == ContainerConfig::WritableRootfs ==> (r.config@ == apply_spec(*limits, base)
                    && r.root@ == rootfs@ && r.overlay_dirs@.len() == 0)
                &&& *self == ContainerConfig::OverlayRootfs ==> (r.config@ == apply_spec(
                    *limits,
                    overlay_config(base, rootfs@, upper, work),
                ) && r.root@ == upper && strings_view(r.overlay_dirs@) == seq![upper, work])
            }),
    {
        proof {
            reveal_strlit("{rootfs}");
            reveal_strlit("{host_uid}");
            reveal_strlit("{args}");
            reveal_strlit("{lower_dir}");
            reveal_strlit("{upper_dir}");
            reveal_strlit("{work_dir}");
        }
        let json = match to_json_string_list(args) {
            Some(j) => j,
            None => {
                return Err(RunConfigError::ArgsNotJson);
            },
        };
        let uid = u64_to_decimal(host_uid as u64);
        let c1 = replace_all(template, "{rootfs}", rootfs);
        let c2 = replace_all(c1.as_str(), "{host_uid}", uid.as_str());
        let c3 = replace_all(c2.as_str(), "{args}", json.as_str());
        let config_path = join_paths(workdir, "config.json");
        match self {
            ContainerConfig::WritableRootfs => {
                let config = limits.apply(c3);
                Ok(RunConfig { config_path, config, root: String::from_str(rootfs), overlay_dirs: Vec::new() })
            },
            ContainerConfig::OverlayRootfs => {
                let upper = join_paths(workdir, "overlay-upper");
                let work = join_paths(workdir, "overlay-work");
                let c4 = replace_all(c3.as_str(), "{lower_dir}", rootfs);
                let c5 = replace_all(c4.as_str(), "{upper_dir}", upper.as_str());
                let c6 = replace_all(c5.as_str(), "{work_dir}", work.as_str());
                let config = limits.apply(c6);
                let mut dirs: Vec<String> = Vec::new();
                dirs.push(upper.clone());
                dirs.push(work);
                assert(strings_view(dirs@) =~= seq![upper@, join_path(workdir@, "overlay-work"@)]);
                Ok(RunConfig { config_path, config, root: upper, overlay_dirs: dirs })
            },
        }
    }
}

} // verus!

verus! {

/// The marker line by which the shim reports the signal that killed the command.
pub const CROW_SIGNAL_SHIM_MAGIC: &'static str = "crow-internal_KILLED_BY_SIGNAL: ";

/// What the standard error of a finished container run says about it.
#[derive(Debug, Clone)]
pub enum StderrVerdict {
    /// The container runtime could not start the command; the message is the trimmed output.
    RuncFailed { message: String },
    /// The shim reported that the command died from `signal`; its marker line is dropped from
    /// the standard error.
    Signal { signal: i32, stderr: String },
    /// Nothing special: the run ended on its own.
    Plain,
}

/// The marker and the signal of the last line of the trimmed standard error, if it is a shim
/// marker with a number.
pub open spec fn shim_signal(stderr: Seq<char>) -> Option<int> {
    let ls = lines_spec(trim_spec(stderr));
    if ls.len() > 0 && starts_with_spec(ls.last(), CROW_SIGNAL_SHIM_MAGIC@) {
        parse_i32_spec(trim_spec(ls.last().skip(CROW_SIGNAL_SHIM_MAGIC@.len() as int)))
    } else {
        None
    }
}

/// The lines without the last one, as `Vec::pop` leaves them.
pub open spec fn without_last(ls: Seq<Seq<char>>) -> Seq<Seq<char>> {
    if ls.len() > 0 {
        ls.drop_last()
    } else {
        ls
    }
}

/// Whether a failed run's standard error is the container runtime's one-line start failure.
pub open spec fn is_runc_failure(success: bool, stderr: Seq<char>) -> bool {
    !success && lines_spec(trim_spec(stderr)).len() == 1 && contains_spec(stderr, "runc run failed:"@)
}

/// Reads the standard error of a finished container run: a one-line `runc run failed:`
/// message of a failed run is a start failure; a last line with the shim's marker and a
/// signal number means the command died from that signal, and that line is dropped.
pub fn read_stderr(success: bool, stderr: &str) -> (res: StderrVerdict)
    ensures
        is_runc_failure(success, stderr@) ==> (res matches StderrVerdict::RuncFailed { message } && message@
            == trim_spec(stderr@)),
        !is_runc_failure(success, stderr@) ==> match shim_signal(stderr@) {
            Some(sig) => res matches StderrVerdict::Signal { signal, stderr: rest } && signal == sig && rest@
                == join_spec(without_last(lines_spec(stderr@)), "\n"@),
            None => res is Plain,
        },
{
    let trimmed = trim(stderr);
    let tlines = lines_of(trimmed.as_str());
    if !success && tlines.len() == 1 && contains_text(stderr, "runc run failed:") {
        return StderrVerdict::RuncFailed { message: trimmed };
    }
    if tlines.len() > 0 {
        let last = &tlines[tlines.len() - 1];
        assert(strings_view(tlines@).last() == last@);
        match strip_prefix_text(last.as_str(), CROW_SIGNAL_SHIM_MAGIC) {
            Some(rest) => {
                let rest_trimmed = trim(rest.as_str());
                match parse_i32(rest_trimmed.as_str()) {
                    Some(signal) => {
                        let mut all = lines_of(stderr);
                        let ghost before = strings_view(all@);
                        if all.len() > 0 {
                            all.pop();
                            assert(strings_view(all@) =~= before.drop_last());
                        }
                        let rest_of_stderr = join_strings(&all, "\n");
                        return StderrVerdict::Signal { signal, stderr: rest_of_stderr };
                    },
                    None => {},
                }
            },
            None => {},
        }
    }
    StderrVerdict::Plain
}

/// How a waited-for container run ended, as far as the result of a test depends on it.
#[derive(Debug, Clone)]
pub enum WaitFailure {
    /// The run took too long.
    Timeout { runtime_ms: u64, stdout: String, stderr: String },
    /// The run was stopped on request.
    Aborted { runtime_ms: u64, stdout: String, stderr: String },
    /// Waiting failed otherwise; the report of the error.
    Other { report: String },
}

/// The output that a failed wait stands for: a timeout or an abort, with what the run wrote;
/// `None` for other failures.
pub fn execution_output_from_wait_error(error: &WaitFailure) -> (res: Option<ExecutionOutput>)
    ensures
        match *error {
            WaitFailure::Timeout { runtime_ms, stdout, stderr } => res matches Some(ExecutionOutput::Timeout(f))
                && f.stdout@ == stdout@ && f.stderr@ == stderr@ && f.runtime_ms == runtime_ms && f.exit_status is None,
            WaitFailure::Aborted { runtime_ms, stdout, stderr } => res matches Some(ExecutionOutput::Aborted(a))
                && a.stdout@ == stdout@ && a.stderr@ == stderr@ && a.runtime_ms == runtime_ms,
            WaitFailure::Other { .. } => res is None,
        },
{
    match error {
        WaitFailure::Timeout { runtime_ms, stdout, stderr } => Some(
            ExecutionOutput::Timeout(
                FinishedExecution {
                    stdout: stdout.clone(),
                    stderr: stderr.clone(),
                    runtime_ms: *runtime_ms,
                    exit_status: None,
                },
            ),
        ),
        WaitFailure::Aborted { runtime_ms, stdout, stderr } => Some(
            ExecutionOutput::Aborted(
                AbortedExecution { stdout: stdout.clone(), stderr: stderr.clone(), runtime_ms: *runtime_ms },
            ),
        ),
        WaitFailure::Other { .. } => None,
    }
}

/// A line diff of `old` and `new` as `similar` writes it in unified format.
pub uninterp spec fn unified_diff_text(
    old: Seq<char>,
    new: Seq<char>,
    radius: usize,
    old_header: Seq<char>,
    new_header: Seq<char>,
) -> Seq<char>;

/// Diffs `old` and `new` by lines with `similar::TextDiff::from_lines` and writes the
/// unified diff with the given context radius and file headers. The contract claims only
/// that the text is a function of the arguments.
#[verifier::external_body]
fn unified_line_diff(old: &str, new: &str, radius: usize, old_header: &str, new_header: &str) -> (res: String)
    ensures
        res@ == unified_diff_text(old@, new@, radius, old_header@, new_header@),
{
    let diff = similar::TextDiff::from_lines(old, new);
    let mut diff = diff.unified_diff();
    diff.context_radius(radius).header(old_header, new_header).to_string()
}

/// `s` ending in a newline: itself where it ends in `\n` or `\r`, else with `\n` added.
pub open spec fn with_newline(s: Seq<char>) -> Seq<char> {
    if s.len() > 0 && (s.last() == '\n' || s.last() == '\r') {
        s
    } else {
        s.push('\n')
    }
}

/// The standard error of a run whose output differs from the expected one: its own standard
/// error, then an explanation and the diff.
pub open spec fn judged_stderr(stderr: Seq<char>, expected: Seq<char>, actual: Seq<char>) -> Seq<char> {
    (if stderr.len() == 0 { stderr } else { stderr + "\n\n"@ }) + "A diff of your result follows. "@
        + "You can always compute it yourself by copying the stdout.\n"@ + unified_diff_text(
        with_newline(expected),
        with_newline(actual),
        5,
        "missing from yours"@,
        "extraneous in yours"@,
    )
}

fn ensure_newline(s: &str) -> (res: String)
    ensures
        res@ == with_newline(s@),
{
    let v = crate::text::chars_of(s);
    let mut r = String::from_str(s);
    if v.len() > 0 && (v[v.len() - 1] == '\n' || v[v.len() - 1] == '\r') {
        r
    } else {
        r.push('\n');
        r
    }
}

/// Judges a binary run against the expected output: a failed run fails; otherwise the run
/// succeeds when its output matches the expected one up to a final newline, and fails with a
/// diff in its standard error when it does not.
pub fn judge_output(expected_output: &str, exit_success: bool, execution: FinishedExecution) -> (res: ExecutionOutput)
    ensures
        !exit_success ==> res == (ExecutionOutput::Failure { execution, accumulated_errors: None }),
        exit_success && with_newline(expected_output@) == with_newline(execution.stdout@) ==> res
            == ExecutionOutput::Success(execution),
        exit_success && with_newline(expected_output@) != with_newline(execution.stdout@) ==> (res matches ExecutionOutput::Failure { execution: f, accumulated_errors: None }
            && f.stdout == execution.stdout && f.runtime_ms == execution.runtime_ms && f.exit_status == execution.exit_status
            && f.stderr@ == judged_stderr(execution.stderr@, expected_output@, execution.stdout@)),
{
    if !exit_success {
        return ExecutionOutput::Failure { execution, accumulated_errors: None };
    }
    let expected = ensure_newline(expected_output);
    let actual = ensure_newline(execution.stdout.as_str());
    if expected == actual {
        return ExecutionOutput::Success(execution);
    }
    let mut final_stderr = execution.stderr;
    if crate::text::chars_of(final_stderr.as_str()).len() > 0 {
        final_stderr.append("\n\n");
    }
    final_stderr.append("A diff of your result follows. ");
    final_stderr.append("You can always compute it yourself by copying the stdout.\n");
    let diff = unified_line_diff(expected.as_str(), actual.as_str(), 5, "missing from yours", "extraneous in yours");
    final_stderr.append(diff.as_str());
    ExecutionOutput::Failure {
        execution: FinishedExecution {
            stdout: execution.stdout,
            stderr: final_stderr,
            runtime_ms: execution.runtime_ms,
            exit_status: execution.exit_status,
        },
        accumulated_errors: None,
    }
}

} // verus!

verus! {

/// The line that the shim writes to standard error for a command killed by `signal`.
pub open spec fn shim_marker(signal: int) -> Seq<char> {
    CROW_SIGNAL_SHIM_MAGIC@ + int_text(signal)
}

/// What the shim does once its command ended: the marker line it writes where the command
/// was killed by a signal, and the exit code it ends with.
pub fn shim_outcome(signal: Option<i32>, code: Option<i32>) -> (res: (Option<String>, i32))
    ensures
        match signal {
            Some(s) => res.0 matches Some(m) && m@ == shim_marker(s as int),
            None => res.0 is None,
        },
        res.1 == match code {
            Some(c) => c,
            None => 21,
        },
{
    let marker = match signal {
        Some(s) => Some(concat(CROW_SIGNAL_SHIM_MAGIC, i64_to_decimal(s as i64).as_str())),
        None => None,
    };
    let exit = match code {
        Some(c) => c,
        None => 21,
    };
    (marker, exit)
}

/// The command that the shim runs: the first argument, with the rest as its arguments, or
/// the error that there is none.
pub fn shim_command(args: &CliShimArgs) -> (res: Result<(String, Vec<String>), String>)
    ensures
        args.args.len() == 0 ==> (res matches Err(m) && m@ == "No arguments, I don't know what to invoke"@),
        args.args.len() > 0 ==> (res matches Ok(c) && c.0 == args.args@[0] && c.1@ == args.args@.skip(1)),
{
    if args.args.len() == 0 {
        return Err(String::from_str("No arguments, I don't know what to invoke"));
    }
    let mut rest: Vec<String> = Vec::new();
    let mut i: usize = 1;
    while i < args.args.len()
        invariant
            1 <= i <= args.args.len(),
            rest@ == args.args@.subrange(1, i as int),
        decreases args.args.len() - i,
    {
        rest.push(args.args[i].clone());
        assert(rest@ =~= args.args@.subrange(1, i + 1));
        i = i + 1;
    }
    assert(args.args@.subrange(1, i as int) =~= args.args@.skip(1));
    Ok((args.args[0].clone(), rest))
}

/// The id of a container.
#[derive(Debug, Clone)]
pub struct ContainerId(pub String);

/// The name of a docker image.
#[derive(Debug, Clone)]
pub struct ImageId(pub String);

/// The state of a container that was created but not started.
#[derive(Debug, Clone, Copy)]
pub struct Created;

/// A log line of the container runtime.
#[derive(Debug, Clone)]
pub struct RuncLogMessage {
    pub level: String,
    pub msg: String,
    pub time: String,
}

/// Access to docker images, with an optional folder that caches exported images.
#[derive(Debug, Clone)]
pub struct Docker {
    pub cache_folder: Option<String>,
}

/// How an image is exported to a folder.
#[derive(Debug, Clone)]
pub enum ExportPlan {
    /// Through the cache folder: reused from there where it was exported before.
    Cached { image: String, target: String, cache: String },
    /// Straight from docker into the folder.
    Direct { image: String, target: String },
}

impl Docker {
    /// How `image_name` is exported unpacked into `target_folder`: through the cache where
    /// there is one, else directly.
    pub fn export_image_unpacked(&self, image_name: &ImageId, target_folder: &str) -> (res: ExportPlan)
        ensures
            match self.cache_folder {
                Some(c) => res matches ExportPlan::Cached { image, target, cache } && image@ == image_name.0@
                    && target@ == target_folder@ && cache@ == c@,
                None => res matches ExportPlan::Direct { image, target } && image@ == image_name.0@ && target@
                    == target_folder@,
            },
    {
        match &self.cache_folder {
            Some(cache) => ExportPlan::Cached {
                image: image_name.0.clone(),
                target: String::from_str(target_folder),
                cache: cache.clone(),
            },
            None => ExportPlan::Direct { image: image_name.0.clone(), target: String::from_str(target_folder) },
        }
    }
}

/// A container of a task: its work directory, the root file system it sees, its id, whether
/// it is cleaned up when dropped, and what is known of it in its current state.
#[derive(Debug, Clone)]
pub struct TaskContainer<T> {
    pub workdir: String,
    pub rootfs: String,
    pub container_id: ContainerId,
    pub do_cleanup: bool,
    pub data: T,
}

/// A container whose build finished: what the build wrote, how it ended (the exit code, none
/// where a signal ended it), and how long it ran in milliseconds.
#[derive(Debug, Clone)]
pub struct Built {
    pub stdout: String,
    pub stderr: String,
    pub exit_code: Option<i32>,
    pub runtime_ms: u64,
}

/// The command that starts container `container_id` from the configuration in `workdir`.
pub fn start_command(workdir: &str, container_id: &ContainerId) -> (res: CommandSpec)
    ensures
        runs(res, "runc"@, seq!["run"@, container_id.0@], Some(workdir@)),
{
    let mut c = command("runc", Some(workdir));
    arg(&mut c, "run");
    arg(&mut c, container_id.0.as_str());
    c
}

/// The command that kills container `container_id` with SIGKILL (it keeps no state worth a
/// gentler end), logging as JSON.
pub fn kill_command(container_id: &ContainerId) -> (res: CommandSpec)
    ensures
        runs(res, "runc"@, seq!["--log-format=json"@, "kill"@, container_id.0@, "KILL"@], None),
{
    let mut c = command("runc", None);
    arg(&mut c, "--log-format=json");
    arg(&mut c, "kill");
    arg(&mut c, container_id.0.as_str());
    arg(&mut c, "KILL");
    c
}

/// Why a container could not be killed.
#[derive(Debug, Clone)]
pub enum KillFailure {
    /// The runtime refused with this log message.
    Unknown { message: RuncLogMessage },
    /// The runtime's error output was no log message; the output as text.
    Unparsable { raw_output: String },
}

/// Whether a kill succeeded: the runtime succeeded, or it reported (in `log`, its error output
/// read as a log message, where it was one) that the container no longer exists.
pub fn kill_verdict(success: bool, log: Option<RuncLogMessage>, stderr: &[u8]) -> (res: Result<(), KillFailure>)
    ensures
        success ==> res is Ok,
        !success ==> match log {
            Some(m) => if m.msg@ == "container does not exist"@ {
                res is Ok
            } else {
                res == Err::<(), KillFailure>(KillFailure::Unknown { message: m })
            },
            None => res matches Err(KillFailure::Unparsable { raw_output }) && raw_output@ == lossy_text(stderr@),
        },
{
    if success {
        return Ok(());
    }
    match log {
        Some(m) => {
            if same_text(m.msg.as_str(), "container does not exist") {
                Ok(())
            } else {
                Err(KillFailure::Unknown { message: m })
            }
        },
        None => Err(KillFailure::Unparsable { raw_output: utf8_lossy(stderr) }),
    }
}

/// Whether the container must be killed after waiting for it failed: after an abort or a
/// failed wait, not after a timeout.
pub fn kill_after_wait(failure: &WaitFailure) -> (res: bool)
    ensures
        res == !(*failure is Timeout),
{
    match failure {
        WaitFailure::Timeout { .. } => false,
        _ => true,
    }
}

/// What `docker image inspect` said about an image.
#[derive(Debug, Clone)]
pub enum InspectOutcome {
    /// The image id: the first line of the output.
    Id(String),
    /// Docker does not know the image.
    ImageNotFound,
    /// Docker failed in another way; the trimmed standard error.
    UnknownResponse { response: String },
}

/// The first line of a text, or nothing.
pub open spec fn first_line(s: Seq<char>) -> Seq<char> {
    if lines_spec(s).len() > 0 {
        lines_spec(s)[0]
    } else {
        Seq::empty()
    }
}

/// Reads the answer of `docker image inspect --format {{ .Id }}`: on success the image id is
/// the first line of the trimmed output; a failure with no output and "no such image" in
/// the error means the image is missing; any other failure is unknown.
pub fn read_inspect(success: bool, stdout: &str, stderr: &str) -> (res: InspectOutcome)
    ensures
        success ==> (res matches InspectOutcome::Id(id) && id@ == first_line(trim_spec(stdout@))),
        !success && trim_spec(stdout@).len() == 0 && contains_spec(lowercase_text(trim_spec(stderr@)), "no such image"@)
            ==> res is ImageNotFound,
        !success && !(trim_spec(stdout@).len() == 0 && contains_spec(
            lowercase_text(trim_spec(stderr@)),
            "no such image"@,
        )) ==> (res matches InspectOutcome::UnknownResponse { response } && response@ == trim_spec(stderr@)),
{
    let out = trim(stdout);
    if success {
        let ls = lines_of(out.as_str());
        if ls.len() > 0 {
            assert(strings_view(ls@)[0] == ls@[0]@);
            return InspectOutcome::Id(ls[0].clone());
        }
        return InspectOutcome::Id(String::new());
    }
    let err = trim(stderr);
    let lower = to_lowercase(err.as_str());
    if crate::text::chars_of(out.as_str()).len() == 0 && contains_text(lower.as_str(), "no such image") {
        return InspectOutcome::ImageNotFound;
    }
    InspectOutcome::UnknownResponse { response: err }
}


/// The command that asks docker for the id of `image`.
pub fn inspect_command(image: &ImageId) -> (res: CommandSpec)
    ensures
        runs(res, "docker"@, seq!["image"@, "inspect"@, image.0@, "--format"@, "{{ .Id }}"@], None),
{
    let mut c = command("docker", None);
    arg(&mut c, "image");
    arg(&mut c, "inspect");
    arg(&mut c, image.0.as_str());
    arg(&mut c, "--format");
    arg(&mut c, "{{ .Id }}");
    c
}

/// Why an image could not be exported.
#[derive(Debug, Clone)]
pub enum DockerError {
    /// Docker does not know the image.
    ImageNotFound { image: ImageId },
    /// Docker failed in another way; its trimmed standard error.
    UnknownDockerResponse { response: String },
}

/// Where the cache keeps the unpacked image that docker inspected: under the cache folder, named
/// by the image id; a missing image and any other failure of the inspection are errors.
pub fn cached_image_path(inspect: InspectOutcome, cache: &str, image: &ImageId) -> (res: Result<String, DockerError>)
    ensures
        match inspect {
            InspectOutcome::Id(id) => res matches Ok(p) && p@ == join_path(cache@, id@),
            InspectOutcome::ImageNotFound => res matches Err(DockerError::ImageNotFound { image: i }) && i.0@
                == image.0@,
            InspectOutcome::UnknownResponse { response } => res matches Err(
                DockerError::UnknownDockerResponse { response: r },
            ) && r@ == response@,
        },
{
    match inspect {
        InspectOutcome::Id(id) => Ok(join_paths(cache, id.as_str())),
        InspectOutcome::ImageNotFound => Err(DockerError::ImageNotFound { image: ImageId(image.0.clone()) }),
        InspectOutcome::UnknownResponse { response } => Err(DockerError::UnknownDockerResponse { response }),
    }
}

/// What exporting through the cache does once the cached path is known.
#[derive(Debug, Clone, Copy, PartialEq, Eq, Structural)]
pub enum CacheStep {
    /// The image is cached already: copy it to the target, exporting nothing.
    Reuse,
    /// Export the image into the cache (under the exclusive lock), then copy it to the target.
    ExportThenCopy,
}

/// Reuse the cached copy where it exists, else export the image into the cache first.
pub fn cache_step(cached_exists: bool) -> (res: CacheStep)
    ensures
        res == if cached_exists { CacheStep::Reuse } else { CacheStep::ExportThenCopy },
{
    if cached_exists {
        CacheStep::Reuse
    } else {
        CacheStep::ExportThenCopy
    }
}

/// The command that copies the cached image to the target folder.
pub fn copy_from_cache_command(cached: &str, target: &str) -> (res: CommandSpec)
    ensures
        runs(res, "cp"@, seq!["-r"@, cached@, target@], None),
{
    let mut c = command("cp", None);
    arg(&mut c, "-r");
    arg(&mut c, cached);
    arg(&mut c, target);
    c
}

/// The commands that export `image` as the archive `tar_path`, for the container id that the
/// first one prints: create a container of the image, export its file system, remove it.
pub fn export_to_tar_commands(image: &ImageId, container: &str, tar_path: &str) -> (res: (CommandSpec, CommandSpec, CommandSpec))
    ensures
        runs(res.0, "docker"@, seq!["create"@, "-q"@, image.0@], None),
        runs(res.1, "docker"@, seq!["export"@, container@, "-o"@, tar_path@], None),
        runs(res.2, "docker"@, seq!["rm"@, container@], None),
{
    let mut create = command("docker", None);
    arg(&mut create, "create");
    arg(&mut create, "-q");
    arg(&mut create, image.0.as_str());
    let mut export = command("docker", None);
    arg(&mut export, "export");
    arg(&mut export, container);
    arg(&mut export, "-o");
    arg(&mut export, tar_path);
    let mut remove = command("docker", None);
    arg(&mut remove, "rm");
    arg(&mut remove, container);
    (create, export, remove)
}

} // verus!

verus! {

/// Why a task could not be carried out.
#[derive(Debug, Clone)]
pub enum TaskRunFailure {
    /// Waiting for the build failed, with what the build produced.
    WaitForBuild { output: ExecutionOutput },
    /// Anything else; the report of the error.
    Internal { report: String },
}

/// The message of an internal error while building a task.
pub open spec fn build_error_message(report: Seq<char>) -> Seq<char> {
    "Internal error while building task:\n"@ + report
}

/// The result of a task that could not be carried out: its build failed, with the build's
/// output where waiting for it failed, or with an internal error.
pub fn task_run_error_to_task(info: FinishedTaskInfo, e: TaskRunFailure, runtime_ms: u64) -> (res: FinishedCompilerTask)
    ensures
        match e {
            TaskRunFailure::WaitForBuild { output } => res == (FinishedCompilerTask::BuildFailed {
                info,
                build_output: output,
            }),
            TaskRunFailure::Internal { report } => res matches FinishedCompilerTask::BuildFailed {
                info: i,
                build_output: ExecutionOutput::Error(err),
            } && i == info && err.runtime_ms == runtime_ms && err.message@ == build_error_message(report@),
        },
{
    match e {
        TaskRunFailure::WaitForBuild { output } => FinishedCompilerTask::BuildFailed { info, build_output: output },
        TaskRunFailure::Internal { report } => FinishedCompilerTask::BuildFailed {
            info,
            build_output: ExecutionOutput::Error(
                InternalError {
                    runtime_ms,
                    message: concat("Internal error while building task:\n", report.as_str()),
                },
            ),
        },
    }
}

/// Why a test could not be run.
#[derive(Debug, Clone)]
pub enum TestRunFailure {
    /// Waiting for the test's container failed.
    Wait(WaitFailure),
    /// Anything else; the report of the error.
    Internal { report: String },
}

/// The message of an internal error while running a test.
pub open spec fn test_error_message(report: Seq<char>) -> Seq<char> {
    "Internal error while running test:\n"@ + report
}

/// Whether `o` is the output that a failed test run stands for: what the run produced where it
/// timed out or was stopped, else an internal error with the failure's report.
pub open spec fn test_failure_output(e: TestRunFailure, runtime_ms: u64, o: ExecutionOutput) -> bool {
    match e {
        TestRunFailure::Wait(w) => match w {
            WaitFailure::Timeout { runtime_ms: r, stdout, stderr } => o matches ExecutionOutput::Timeout(f)
                && f.stdout@ == stdout@ && f.stderr@ == stderr@ && f.runtime_ms == r && f.exit_status is None,
            WaitFailure::Aborted { runtime_ms: r, stdout, stderr } => o matches ExecutionOutput::Aborted(a)
                && a.stdout@ == stdout@ && a.stderr@ == stderr@ && a.runtime_ms == r,
            WaitFailure::Other { report } => o matches ExecutionOutput::Error(err) && err.runtime_ms == runtime_ms
                && err.message@ == test_error_message(report@),
        },
        TestRunFailure::Internal { report } => o matches ExecutionOutput::Error(err) && err.runtime_ms == runtime_ms
            && err.message@ == test_error_message(report@),
    }
}

/// The output that a failed test run stands for: its timeout or abort, or an internal error.
pub fn test_run_error_to_output(e: &TestRunFailure, runtime_ms: u64) -> (res: ExecutionOutput)
    ensures
        test_failure_output(*e, runtime_ms, res),
{
    match e {
        TestRunFailure::Wait(w) => {
            match w {
                WaitFailure::Other { report } => ExecutionOutput::Error(
                    InternalError { runtime_ms, message: concat("Internal error while running test:\n", report.as_str()) },
                ),
                _ => execution_output_from_wait_error(w).unwrap(),
            }
        },
        TestRunFailure::Internal { report } => ExecutionOutput::Error(
            InternalError { runtime_ms, message: concat("Internal error while running test:\n", report.as_str()) },
        ),
    }
}

/// The result of a test whose setup failed.
pub fn setup_error_output(report: &str, runtime_ms: u64) -> (res: TestExecutionOutput)
    ensures
        res matches TestExecutionOutput::Error { output_so_far: ExecutionOutput::Error(err) } && err.runtime_ms
            == runtime_ms && err.message@ == "Internal error while setting up test:\n"@ + report@,
{
    TestExecutionOutput::Error {
        output_so_far: ExecutionOutput::Error(
            InternalError { runtime_ms, message: concat("Internal error while setting up test:\n", report) },
        ),
    }
}

/// The outcome of a build: a failure with its output where it did not succeed.
pub fn build_failure(success: bool, build_output: &FinishedExecution) -> (res: Option<ExecutionOutput>)
    ensures
        success ==> res is None,
        !success ==> (res matches Some(ExecutionOutput::Failure { execution: f, accumulated_errors: None }) && f.stdout@ == build_output.stdout@ && f.stderr@
            == build_output.stderr@ && f.runtime_ms == build_output.runtime_ms && f.exit_status == build_output.exit_status),
{
    if success {
        None
    } else {
        Some(
            ExecutionOutput::Failure {
                execution: FinishedExecution {
                    stdout: build_output.stdout.clone(),
                    stderr: build_output.stderr.clone(),
                    runtime_ms: build_output.runtime_ms,
                    exit_status: build_output.exit_status,
                },
                accumulated_errors: None,
            },
        )
    }
}

/// The result of one test of a task: its output, or the error of running it.
pub fn finished_test(
    test_id: String,
    provisional_for_category: Option<String>,
    category: Option<String>,
    result: Result<TestExecutionOutput, TestRunFailure>,
    runtime_ms: u64,
) -> (res: FinishedTest)
    ensures
        res.test_id == test_id,
        res.provisional_for_category == provisional_for_category,
        res.category == category,
        match result {
            Ok(o) => res.output == o,
            Err(e) => res.output matches TestExecutionOutput::Error { output_so_far } && test_failure_output(
                e,
                runtime_ms,
                output_so_far,
            ),
        },
{
    let output = match result {
        Ok(o) => o,
        Err(e) => TestExecutionOutput::Error { output_so_far: test_run_error_to_output(&e, runtime_ms) },
    };
    FinishedTest { test_id, output, provisional_for_category, category }
}

/// How running one test of a task ended, with the test's id and categories and how long the
/// task had run by then, in milliseconds.
#[derive(Debug)]
pub struct TestRunResult {
    pub test_id: String,
    pub provisional_for_category: Option<String>,
    pub category: Option<String>,
    pub result: Result<TestExecutionOutput, TestRunFailure>,
    pub runtime_ms: u64,
}

/// Whether `t` is the finished test that the run `r` gives.
pub open spec fn finished_from_run(r: TestRunResult, t: FinishedTest) -> bool {
    &&& t.test_id == r.test_id
    &&& t.provisional_for_category == r.provisional_for_category
    &&& t.category == r.category
    &&& match r.result {
        Ok(o) => t.output == o,
        Err(e) => t.output matches TestExecutionOutput::Error { output_so_far } && test_failure_output(
            e,
            r.runtime_ms,
            output_so_far,
        ),
    }
}

/// The result of a task whose build finished: a failed build with its output where the build
/// did not succeed; else the build's output and one finished test per test run, in the order
/// in which the runs ended.
pub fn task_result(
    info: FinishedTaskInfo,
    build_success: bool,
    build_output: FinishedExecution,
    test_runs: Vec<TestRunResult>,
) -> (res: FinishedCompilerTask)
    ensures
        !build_success ==> res == (FinishedCompilerTask::BuildFailed {
            info,
            build_output: ExecutionOutput::Failure { execution: build_output, accumulated_errors: None },
        }),
        build_success ==> (res matches FinishedCompilerTask::RanTests { info: i, build_output: b, tests } && i
            == info && b == build_output && tests@.len() == test_runs@.len() && forall|k: int|
            0 <= k < test_runs@.len() ==> finished_from_run(#[trigger] test_runs@[k], tests@[k])),
{
    if !build_success {
        return FinishedCompilerTask::BuildFailed {
            info,
            build_output: ExecutionOutput::Failure { execution: build_output, accumulated_errors: None },
        };
    }
    let ghost all = test_runs@;
    let mut rest = test_runs;
    let mut tests: Vec<FinishedTest> = Vec::new();
    while rest.len() > 0
        invariant
            tests@.len() + rest@.len() == all.len(),
            rest@ == all.skip(tests@.len() as int),
            forall|q: int| 0 <= q < tests@.len() ==> finished_from_run(#[trigger] all[q], tests@[q]),
        decreases rest@.len(),
    {
        let ghost k = tests@.len() as int;
        let r = rest.remove(0);
        assert(r == all[k]);
        let t = finished_test(r.test_id, r.provisional_for_category, r.category, r.result, r.runtime_ms);
        tests.push(t);
        assert(rest@ =~= all.skip(tests@.len() as int));
    }
    FinishedCompilerTask::RanTests { info, build_output, tests }
}

} // verus!
