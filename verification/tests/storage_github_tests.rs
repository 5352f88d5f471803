use crow::github::{parse_path_to_repo_owner, parse_url_to_repo_owner, workflow_action, workflow_difference, RepoFullName, WorkflowAction};
use crow::ids::{RevisionId, TeamId};
use crow::storage::{
    clone_mirror_command, exit_failure_message, export_commands, export_failure, fetch_command,
    first_mirror_action, get_url_command, join_paths, mirror_action_for_url, remove_command, repo_path,
    rev_parse_command, revision_from_output, revision_message, revision_message_command, snapshot_layout,
    GitError, MirrorAction,
};

#[test]
fn paths_join_like_path_join() {
    assert_eq!(join_paths("/srv/repos", "team"), "/srv/repos/team");
    assert_eq!(join_paths("/srv/repos/", "team"), "/srv/repos/team");
    assert_eq!(join_paths("", "team"), "team");
    assert_eq!(join_paths("/srv", "/abs"), "/abs");
    assert_eq!(repo_path("/srv", &TeamId("t1".to_string())), "/srv/t1");
}

#[test]
fn export_runs_five_commands() {
    let cmds = export_commands("/m/t1", "/tmp/x", "/out.tar.gz", &RevisionId("abc".to_string()));
    assert_eq!(cmds.len(), 5);
    assert_eq!(cmds[0].program, "git");
    assert_eq!(cmds[0].args, vec!["clone", "--recursive", "--recurse-submodules", "/m/t1", "/tmp/x"]);
    assert_eq!(cmds[0].cwd, None);
    assert_eq!(cmds[1].args, vec!["checkout", "abc"]);
    assert_eq!(cmds[1].cwd, Some("/tmp/x".to_string()));
    assert_eq!(cmds[2].args, vec!["submodule", "update", "--force", "--init", "--recursive"]);
    assert_eq!(cmds[3].args, vec!["clean", "-fdx", "abc"]);
    assert_eq!(cmds[4].program, "tar");
    assert_eq!(cmds[4].args, vec!["cfa", "/out.tar.gz", "."]);
}

#[test]
fn export_failures_name_the_step() {
    let team = TeamId("t".to_string());
    let rev = RevisionId("r".to_string());
    assert!(matches!(export_failure(0, &team, &rev, "m".to_string()), GitError::NotCloned { .. }));
    assert!(matches!(export_failure(1, &team, &rev, "m".to_string()), GitError::NotCheckedOut { .. }));
    assert!(matches!(export_failure(2, &team, &rev, "m".to_string()), GitError::SubmodulesNotUpdated { .. }));
    assert!(matches!(export_failure(3, &team, &rev, "m".to_string()), GitError::NotCleaned { .. }));
    assert!(matches!(export_failure(4, &team, &rev, "m".to_string()), GitError::NotTared { .. }));
    let e = export_failure(0, &team, &rev, "m".to_string());
    assert_eq!(e.to_http_code(), 500);
    assert_eq!(e.to_error_code(), "git_error");
}

#[test]
fn revisions_resolve_to_commits() {
    let c = rev_parse_command("/m/t1", "main");
    assert_eq!(c.args, vec!["rev-parse", "--verify", "--end-of-options", "main^{commit}"]);
    assert_eq!(c.cwd, Some("/m/t1".to_string()));
    assert_eq!(revision_from_output(true, b"  0123abcd\n").map(|r| r.0), Some("0123abcd".to_string()));
    assert!(revision_from_output(false, b"0123abcd\n").is_none());
}

#[test]
fn commit_message_skips_the_commit_line() {
    let c = revision_message_command("/m", &RevisionId("abc".to_string()));
    assert_eq!(c.args, vec!["rev-list", "--format=%s", "--max-count=1", "abc"]);
    assert_eq!(revision_message(b"commit abc\nFix the parser\n"), "Fix the parser");
    assert_eq!(revision_message(b"commit abc\n"), "");
    assert_eq!(revision_message(b""), "");
}

#[test]
fn mirrors_are_cloned_checked_and_fetched() {
    assert_eq!(first_mirror_action(false), MirrorAction::Clone);
    assert_eq!(first_mirror_action(true), MirrorAction::CheckUrl);
    assert_eq!(mirror_action_for_url(b"https://x/y\n", "https://x/y"), MirrorAction::Fetch);
    assert_eq!(mirror_action_for_url(b"https://x/z\n", "https://x/y"), MirrorAction::Recreate);
    let clone = clone_mirror_command("https://x/y", "/m/t");
    assert_eq!(clone.args, vec!["clone", "--mirror", "https://x/y", "/m/t"]);
    assert_eq!(clone.env, vec![("GIT_TERMINAL_PROMPT".to_string(), "0".to_string())]);
    assert_eq!(get_url_command("/m/t").args, vec!["remote", "get-url", "origin"]);
    assert_eq!(remove_command("/m/t").args, vec!["-rf", "/m/t"]);
    assert_eq!(fetch_command("/m/t").args, vec!["fetch", "--all", "--prune"]);
}

#[test]
fn failed_commands_are_reported() {
    assert_eq!(
        exit_failure_message(Some(128), b" fatal: bad \n", b"\nout\n"),
        "Exited with code Some(128)\nstderr:\nfatal: bad\n\nstdout\nout"
    );
    assert_eq!(exit_failure_message(None, b"", b""), "Exited with code None\nstderr:\n\n\nstdout\n");
}

#[test]
fn snapshots_are_staged_then_renamed() {
    let l = snapshot_layout("/snap", "2024-01-01T00:00:00Z");
    assert_eq!(l.staging, "/snap/.2024-01-01T00:00:00Z");
    assert_eq!(l.repos, "/snap/.2024-01-01T00:00:00Z/repos");
    assert_eq!(l.database, "/snap/.2024-01-01T00:00:00Z/crow.db");
    assert_eq!(l.target, "/snap/2024-01-01T00:00:00Z");
}

#[test]
fn github_urls_name_owner_and_repo() {
    let p = |o: &str, r: &str| Some((o.to_string(), r.to_string()));
    assert_eq!(parse_url_to_repo_owner("https://github.com/Owner/Repo"), p("owner", "repo"));
    assert_eq!(parse_url_to_repo_owner("git@github.com:owner/repo.git"), p("owner", "repo.git"));
    assert_eq!(parse_url_to_repo_owner("http://github.com/a/b/tree/main"), p("a", "b"));
    assert_eq!(parse_url_to_repo_owner("https://gitlab.com/a/b"), None);
    assert_eq!(parse_url_to_repo_owner("https://github.com/onlyowner"), None);
    assert_eq!(parse_path_to_repo_owner("a/b"), p("a", "b"));
    assert_eq!(parse_path_to_repo_owner("a"), None);
    let name = RepoFullName::from_url("https://github.com/a/b").unwrap();
    assert_eq!(name.full_name(), "a/b");
}

#[test]
fn workflow_updates_only_when_content_differs() {
    // "hello" in Base64
    let existing = Some(("aGVsbG8=\n".to_string(), "sha1".to_string()));
    assert_eq!(workflow_difference(&existing, "hello"), Some((None, false)));
    assert_eq!(workflow_difference(&existing, "other"), Some((Some("sha1".to_string()), true)));
    assert_eq!(workflow_difference(&None, "other"), Some((None, true)));
    let broken = Some(("!!!".to_string(), "sha1".to_string()));
    assert_eq!(workflow_difference(&broken, "hello"), None);
}

#[test]
fn workflow_actions() {
    assert!(matches!(workflow_action(false, &(None, true), &None), WorkflowAction::NoDefaultBranch));
    assert!(matches!(workflow_action(true, &(None, false), &None), WorkflowAction::AlreadyIntegrated));
    assert!(matches!(workflow_action(true, &(None, true), &Some((None, false))), WorkflowAction::BranchReady));
    match workflow_action(true, &(Some("s".to_string()), true), &Some((None, true))) {
        WorkflowAction::Propose { existing_sha, commit_message } => {
            assert_eq!(existing_sha, Some("s".to_string()));
            assert_eq!(commit_message, "Update crow workflow integration");
        }
        other => panic!("unexpected {:?}", other),
    }
    match workflow_action(true, &(None, true), &Some((None, true))) {
        WorkflowAction::Propose { commit_message, .. } => assert_eq!(commit_message, "Add crow workflow integration"),
        other => panic!("unexpected {:?}", other),
    }
}
