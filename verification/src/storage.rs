//! The mirrors of the team repositories: the git commands that keep them and export a revision
//! as an archive, and what the output of those commands means.
use vstd::prelude::*;
use crate::ids::{RevisionId, TeamId};
use crate::text::{
    concat, i64_to_decimal, int_text, join_spec, join_strings, lines_of, lines_spec, lossy_text, same_text,
    strings_view, trim, trim_spec, utf8_lossy,
};
use crate::users::WebError;

verus! {

/// A program to run: its name, its arguments, the directory to run it in and the environment
/// variables to set for it.
#[derive(Debug, Clone)]
pub struct CommandSpec {
    pub program: String,
    pub args: Vec<String>,
    pub cwd: Option<String>,
    pub env: Vec<(String, String)>,
}

/// The text of an optional string.
pub open spec fn opt_text(o: Option<String>) -> Option<Seq<char>> {
    match o {
        Some(s) => Some(s@),
        None => None,
    }
}

/// The text of an optional string slice.
pub open spec fn opt_str(o: Option<&str>) -> Option<Seq<char>> {
    match o {
        Some(s) => Some(s@),
        None => None,
    }
}

/// Whether `c` runs `program` with `args` in `cwd` and sets no environment variable.
pub open spec fn runs(c: CommandSpec, program: Seq<char>, args: Seq<Seq<char>>, cwd: Option<Seq<char>>) -> bool {
    &&& c.program@ == program
    &&& strings_view(c.args@) =~= args
    &&& opt_text(c.cwd) == cwd
    &&& c.env@.len() == 0
}

/// A command of `program` in `cwd`, with no argument yet.
pub(crate) fn command(program: &str, cwd: Option<&str>) -> (res: CommandSpec)
    ensures
        runs(res, program@, Seq::empty(), opt_str(cwd)),
{
    let dir = match cwd {
        Some(d) => Some(String::from_str(d)),
        None => None,
    };
    let res = CommandSpec { program: String::from_str(program), args: Vec::new(), cwd: dir, env: Vec::new() };
    assert(strings_view(res.args@) =~= Seq::<Seq<char>>::empty());
    res
}

/// Adds `a` to the arguments of `c`.
pub(crate) fn arg(c: &mut CommandSpec, a: &str)
    ensures
        final(c).program == old(c).program,
        final(c).cwd == old(c).cwd,
        final(c).env == old(c).env,
        strings_view(final(c).args@) == strings_view(old(c).args@).push(a@),
{
    let ghost before = strings_view(c.args@);
    c.args.push(String::from_str(a));
    assert(strings_view(c.args@) =~= before.push(a@));
}

/// The path of `name` under `base`, as `Path::join` forms it: an absolute `name` stands alone,
/// else a `/` separates the two unless `base` is empty or ends with one.
pub open spec fn join_path(base: Seq<char>, name: Seq<char>) -> Seq<char> {
    if name.len() > 0 && name[0] == '/' {
        name
    } else if base.len() == 0 {
        name
    } else if base.last() == '/' {
        base + name
    } else {
        base + seq!['/'] + name
    }
}

/// The path of `name` under `base`.
pub fn join_paths(base: &str, name: &str) -> (res: String)
    ensures
        res@ == join_path(base@, name@),
{
    let n = name.unicode_len();
    if n > 0 && name.get_char(0) == '/' {
        return String::from_str(name);
    }
    let b = base.unicode_len();
    if b == 0 {
        return String::from_str(name);
    }
    if base.get_char(b - 1) == '/' {
        return concat(base, name);
    }
    let mut r = String::from_str(base);
    r.push('/');
    r.append(name);
    assert(r@ =~= base@ + seq!['/'] + name@);
    r
}

/// Where the mirror of `team`'s repository lives under `base`.
pub fn repo_path(base: &str, team: &TeamId) -> (res: String)
    ensures
        res@ == join_path(base@, team@),
{
    join_paths(base, team.0.as_str())
}

/// The command that resolves `revision` to a commit in the mirror at `repo_dir`.
pub fn rev_parse_command(repo_dir: &str, revision: &str) -> (res: CommandSpec)
    ensures
        runs(
            res,
            "git"@,
            seq!["rev-parse"@, "--verify"@, "--end-of-options"@, revision@ + "^{commit}"@],
            Some(repo_dir@),
        ),
{
    let mut c = command("git", Some(repo_dir));
    arg(&mut c, "rev-parse");
    arg(&mut c, "--verify");
    arg(&mut c, "--end-of-options");
    let target = concat(revision, "^{commit}");
    arg(&mut c, target.as_str());
    c
}

/// The commit that a run of `rev_parse_command` named: its trimmed output when it succeeded,
/// nothing when git could not resolve the revision.
pub fn revision_from_output(success: bool, stdout: &[u8]) -> (res: Option<RevisionId>)
    ensures
        success ==> (res matches Some(r) && r@ == trim_spec(lossy_text(stdout@))),
        !success ==> res is None,
{
    if success {
        let text = utf8_lossy(stdout);
        Some(RevisionId(trim(text.as_str())))
    } else {
        None
    }
}

/// The command that prints the subject of the commit `revision` in the mirror at `repo_dir`.
pub fn revision_message_command(repo_dir: &str, revision: &RevisionId) -> (res: CommandSpec)
    ensures
        runs(res, "git"@, seq!["rev-list"@, "--format=%s"@, "--max-count=1"@, revision@], Some(repo_dir@)),
{
    let mut c = command("git", Some(repo_dir));
    arg(&mut c, "rev-list");
    arg(&mut c, "--format=%s");
    arg(&mut c, "--max-count=1");
    arg(&mut c, revision.0.as_str());
    c
}

/// The lines after the first, joined without a separator.
pub open spec fn after_first_line(lines: Seq<Seq<char>>) -> Seq<char> {
    if lines.len() == 0 {
        Seq::empty()
    } else {
        join_spec(lines.skip(1), Seq::empty())
    }
}

/// The subject of a commit, from the output of `revision_message_command`: the trimmed output
/// without its first line (which names the commit), the other lines joined.
pub fn revision_message(stdout: &[u8]) -> (res: String)
    ensures
        res@ == after_first_line(lines_spec(trim_spec(lossy_text(stdout@)))),
{
    let text = utf8_lossy(stdout);
    let trimmed = trim(text.as_str());
    let lines = lines_of(trimmed.as_str());
    let mut rest: Vec<String> = Vec::new();
    let mut i: usize = 1;
    let ghost all = strings_view(lines@);
    assert(strings_view(rest@) =~= all.skip(1).take(0));
    while i < lines.len()
        invariant
            1 <= i <= lines.len() || (lines.len() == 0 && i == 1),
            all == strings_view(lines@),
            strings_view(rest@) == all.skip(1).take(i - 1),
        decreases lines.len() - i,
    {
        let ghost before = strings_view(rest@);
        rest.push(lines[i].clone());
        assert(strings_view(rest@) =~= before.push(all[i as int]));
        assert(all.skip(1).take(i as int) =~= all.skip(1).take(i - 1).push(all[i as int]));
        i = i + 1;
    }
    if lines.len() == 0 {
        return String::new();
    }
    assert(all.skip(1).take(i - 1) =~= all.skip(1));
    proof {
        reveal_strlit("");
    }
    let res = join_strings(&rest, "");
    assert(""@ =~= Seq::<char>::empty());
    res
}

/// The commands that export `revision` of the mirror at `repo_dir` as the archive `target`,
/// working in the fresh directory `work_dir`: clone the mirror with its submodules, check out
/// the revision, update the submodules, remove untracked files, and archive the tree.
pub fn export_commands(repo_dir: &str, work_dir: &str, target: &str, revision: &RevisionId) -> (res: Vec<
    CommandSpec,
>)
    ensures
        res@.len() == 5,
        runs(res@[0], "git"@, seq!["clone"@, "--recursive"@, "--recurse-submodules"@, repo_dir@, work_dir@], None),
        runs(res@[1], "git"@, seq!["checkout"@, revision@], Some(work_dir@)),
        runs(
            res@[2],
            "git"@,
            seq!["submodule"@, "update"@, "--force"@, "--init"@, "--recursive"@],
            Some(work_dir@),
        ),
        runs(res@[3], "git"@, seq!["clean"@, "-fdx"@, revision@], Some(work_dir@)),
        runs(res@[4], "tar"@, seq!["cfa"@, target@, "."@], Some(work_dir@)),
{
    let rev = revision.0.as_str();
    let mut clone = command("git", None);
    arg(&mut clone, "clone");
    arg(&mut clone, "--recursive");
    arg(&mut clone, "--recurse-submodules");
    arg(&mut clone, repo_dir);
    arg(&mut clone, work_dir);
    let mut checkout = command("git", Some(work_dir));
    arg(&mut checkout, "checkout");
    arg(&mut checkout, rev);
    let mut submodules = command("git", Some(work_dir));
    arg(&mut submodules, "submodule");
    arg(&mut submodules, "update");
    arg(&mut submodules, "--force");
    arg(&mut submodules, "--init");
    arg(&mut submodules, "--recursive");
    let mut clean = command("git", Some(work_dir));
    arg(&mut clean, "clean");
    arg(&mut clean, "-fdx");
    arg(&mut clean, rev);
    let mut archive = command("tar", Some(work_dir));
    arg(&mut archive, "cfa");
    arg(&mut archive, target);
    arg(&mut archive, ".");
    let mut res: Vec<CommandSpec> = Vec::new();
    res.push(clone);
    res.push(checkout);
    res.push(submodules);
    res.push(clean);
    res.push(archive);
    res
}

/// The next step in keeping the mirror of a repository up to date.
#[derive(Debug, Clone, Copy, PartialEq, Eq, Structural)]
pub enum MirrorAction {
    /// Clone the repository as a new mirror.
    Clone,
    /// Ask the existing mirror for the URL it follows.
    CheckUrl,
    /// The mirror follows another URL: remove it and clone the repository anew.
    Recreate,
    /// Fetch all branches into the mirror, pruning the deleted ones.
    Fetch,
}

/// The first step for a mirror: clone one where none exists, else check its URL.
pub fn first_mirror_action(path_exists: bool) -> (res: MirrorAction)
    ensures
        res == (if path_exists { MirrorAction::CheckUrl } else { MirrorAction::Clone }),
{
    if path_exists {
        MirrorAction::CheckUrl
    } else {
        MirrorAction::Clone
    }
}

/// The step after the mirror reported the URL it follows (the output of `get_url_command`):
/// recreate it where that URL, trimmed, differs from `url`, else fetch.
pub fn mirror_action_for_url(current_url: &[u8], url: &str) -> (res: MirrorAction)
    ensures
        res == (if trim_spec(lossy_text(current_url@)) == url@ {
            MirrorAction::Fetch
        } else {
            MirrorAction::Recreate
        }),
{
    let text = utf8_lossy(current_url);
    let current = trim(text.as_str());
    if same_text(current.as_str(), url) {
        MirrorAction::Fetch
    } else {
        MirrorAction::Recreate
    }
}

/// The command that clones `url` as a mirror at `path`, never prompting for credentials.
pub fn clone_mirror_command(url: &str, path: &str) -> (res: CommandSpec)
    ensures
        res.program@ == "git"@,
        strings_view(res.args@) == seq!["clone"@, "--mirror"@, url@, path@],
        res.cwd is None,
        res.env@.len() == 1,
        res.env@[0].0@ == "GIT_TERMINAL_PROMPT"@,
        res.env@[0].1@ == "0"@,
{
    let mut c = command("git", None);
    arg(&mut c, "clone");
    arg(&mut c, "--mirror");
    arg(&mut c, url);
    arg(&mut c, path);
    c.env.push((String::from_str("GIT_TERMINAL_PROMPT"), String::from_str("0")));
    c
}

/// The command that prints the URL that the mirror at `path` follows.
pub fn get_url_command(path: &str) -> (res: CommandSpec)
    ensures
        runs(res, "git"@, seq!["remote"@, "get-url"@, "origin"@], Some(path@)),
{
    let mut c = command("git", Some(path));
    arg(&mut c, "remote");
    arg(&mut c, "get-url");
    arg(&mut c, "origin");
    c
}

/// The command that removes the mirror at `path`.
pub fn remove_command(path: &str) -> (res: CommandSpec)
    ensures
        runs(res, "rm"@, seq!["-rf"@, path@], None),
{
    let mut c = command("rm", None);
    arg(&mut c, "-rf");
    arg(&mut c, path);
    c
}

/// The command that fetches all branches into the mirror at `path`, pruning deleted ones.
pub fn fetch_command(path: &str) -> (res: CommandSpec)
    ensures
        runs(res, "git"@, seq!["fetch"@, "--all"@, "--prune"@], Some(path@)),
{
    let mut c = command("git", Some(path));
    arg(&mut c, "fetch");
    arg(&mut c, "--all");
    arg(&mut c, "--prune");
    c
}

/// The report of a command that exited unsuccessfully: its exit code as `{:?}` writes an
/// `Option<i32>`, then its trimmed standard error and standard output.
pub open spec fn exit_report(code: Option<i32>, stderr: Seq<char>, stdout: Seq<char>) -> Seq<char> {
    let code_text = match code {
        Some(c) => "Some("@ + int_text(c as int) + ")"@,
        None => "None"@,
    };
    "Exited with code "@ + code_text + "\nstderr:\n"@ + trim_spec(stderr) + "\n\nstdout\n"@ + trim_spec(stdout)
}

/// The report of a command that exited with `code` (none where a signal ended it).
pub fn exit_failure_message(code: Option<i32>, stderr: &[u8], stdout: &[u8]) -> (res: String)
    ensures
        res@ == exit_report(code, lossy_text(stderr@), lossy_text(stdout@)),
{
    let err = utf8_lossy(stderr);
    let out = utf8_lossy(stdout);
    let err_t = trim(err.as_str());
    let out_t = trim(out.as_str());
    let mut r = String::from_str("Exited with code ");
    match code {
        Some(c) => {
            let n = i64_to_decimal(c as i64);
            r.append("Some(");
            r.append(n.as_str());
            r.append(")");
        },
        None => {
            r.append("None");
        },
    }
    r.append("\nstderr:\n");
    r.append(err_t.as_str());
    r.append("\n\nstdout\n");
    r.append(out_t.as_str());
    r
}

/// Where a snapshot is assembled and where it ends up.
#[derive(Debug, Clone)]
pub struct SnapshotLayout {
    /// The hidden directory in which the snapshot is assembled.
    pub staging: String,
    /// Where the repositories go, each in a directory named by its team.
    pub repos: String,
    /// Where the copy of the database goes.
    pub database: String,
    /// What the staging directory is renamed to once the snapshot is complete.
    pub target: String,
}

/// The layout of a snapshot taken at `stamp` under `snapshot_path`: assembled in `.{stamp}`,
/// with `repos` and `crow.db` in it, and renamed to `{stamp}` at the end.
pub fn snapshot_layout(snapshot_path: &str, stamp: &str) -> (res: SnapshotLayout)
    ensures
        res.staging@ == join_path(snapshot_path@, seq!['.'] + stamp@),
        res.repos@ == join_path(res.staging@, "repos"@),
        res.database@ == join_path(res.staging@, "crow.db"@),
        res.target@ == join_path(snapshot_path@, stamp@),
{
    let mut hidden = String::new();
    hidden.push('.');
    hidden.append(stamp);
    assert(hidden@ =~= seq!['.'] + stamp@);
    let staging = join_paths(snapshot_path, hidden.as_str());
    let repos = join_paths(staging.as_str(), "repos");
    let database = join_paths(staging.as_str(), "crow.db");
    let target = join_paths(snapshot_path, stamp);
    SnapshotLayout { staging, repos, database, target }
}

/// Why a git operation on a team's repository failed; `message` holds the report of the
/// command that failed.
#[derive(Debug, Clone)]
pub enum GitError {
    NotCloned { team: TeamId, message: String },
    NotCheckedOut { team: TeamId, revision: RevisionId, message: String },
    SubmodulesNotUpdated { team: TeamId, revision: RevisionId, message: String },
    NotCleaned { team: TeamId, revision: RevisionId, message: String },
    TempDirCreation { team: TeamId, revision: RevisionId, message: String },
    NotTared { team: TeamId, revision: RevisionId, message: String },
    NotUpdated { team: TeamId, path: String, message: String },
    UrlNotChanged { team: TeamId, path: String, url: String, message: String },
    UrlNotFetched { team: TeamId, path: String, message: String },
    LookupCommitRev { revision: String, message: String },
}

/// The error of the export command at `step` of `export_commands`.
pub fn export_failure(step: usize, team: &TeamId, revision: &RevisionId, message: String) -> (res: GitError)
    requires
        step < 5,
    ensures
        step == 0 ==> (res matches GitError::NotCloned { team: t, message: m } && t@ == team@ && m@ == message@),
        step == 1 ==> (res matches GitError::NotCheckedOut { team: t, revision: r, message: m } && t@ == team@
            && r@ == revision@ && m@ == message@),
        step == 2 ==> (res matches GitError::SubmodulesNotUpdated { team: t, revision: r, message: m } && t@
            == team@ && r@ == revision@ && m@ == message@),
        step == 3 ==> (res matches GitError::NotCleaned { team: t, revision: r, message: m } && t@ == team@
            && r@ == revision@ && m@ == message@),
        step == 4 ==> (res matches GitError::NotTared { team: t, revision: r, message: m } && t@ == team@ && r@
            == revision@ && m@ == message@),
{
    let team = team.duplicate();
    let revision = RevisionId(revision.0.clone());
    if step == 0 {
        GitError::NotCloned { team, message }
    } else if step == 1 {
        GitError::NotCheckedOut { team, revision, message }
    } else if step == 2 {
        GitError::SubmodulesNotUpdated { team, revision, message }
    } else if step == 3 {
        GitError::NotCleaned { team, revision, message }
    } else {
        GitError::NotTared { team, revision, message }
    }
}

impl GitError {
    /// The HTTP status of a request that failed on this error: always an internal error.
    pub fn to_http_code(&self) -> (res: u16)
        ensures
            res == 500,
    {
        500
    }

    /// The machine-readable code of a request that failed on this error.
    pub fn to_error_code(&self) -> (res: String)
        ensures
            res@ == "git_error"@,
    {
        String::from_str("git_error")
    }

    /// The answer to a request that failed on this error.
    pub fn to_web_error(&self) -> (res: WebError)
        ensures
            res matches WebError::FromHttp { http_code, error_code } && http_code == 500 && error_code@
                == "git_error"@,
    {
        WebError::FromHttp { http_code: self.to_http_code(), error_code: self.to_error_code() }
    }
}

} // verus!
