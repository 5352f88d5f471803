use crow::execution::{ExecutionOutput, FinishedExecution};
use crow::executor::{
    cache_step, cached_image_path, copy_from_cache_command, export_to_tar_commands, inspect_command, CacheStep,
    DockerError, ImageId,
    execution_output_from_wait_error, judge_output, kill_after_wait, kill_command, kill_verdict, next_backoff,
    poll_action, read_inspect, read_stderr, shim_outcome, start_command, ContainerConfig, ContainerId, Endpoints,
    InspectOutcome, KillFailure, LimitsConfig, PollAction, PollOutcome, RuncLogMessage, RunConfigError,
    StderrVerdict, WaitFailure, INITIAL_BACKOFF_MS, MAX_BACKOFF_MS,
};

#[test]
fn endpoints_hang_off_the_base() {
    let e = Endpoints::new("http://crow");
    assert_eq!(e.work, "http://crow/executor/request-work");
    assert_eq!(e.work_taste_test, "http://crow/executor/request-work-taste-test");
    assert_eq!(e.done, "http://crow/executor/done");
    assert_eq!(e.tar, "http://crow/executor/request-tar");
    assert_eq!(e.ping, "http://crow/executor/ping");
    assert_eq!(e.register, "http://crow/executor/register");
    assert_eq!(e.update, "http://crow/executor/update");
    assert_eq!(e.done_taste_test, "http://crow/executor/done-taste-test");
}

#[test]
fn backoff_doubles_up_to_the_maximum() {
    let mut b = INITIAL_BACKOFF_MS;
    let mut seen = vec![b];
    for _ in 0..10 {
        b = next_backoff(b);
        seen.push(b);
        assert!(b <= MAX_BACKOFF_MS);
    }
    assert_eq!(seen[1], 2 * INITIAL_BACKOFF_MS);
    assert_eq!(*seen.last().unwrap(), MAX_BACKOFF_MS);
}

#[test]
fn poll_outcomes_map_to_actions() {
    assert_eq!(poll_action(PollOutcome::RequestFailed), PollAction::Backoff);
    assert_eq!(poll_action(PollOutcome::BadStatus), PollAction::Backoff);
    assert_eq!(poll_action(PollOutcome::Unparsable), PollAction::Backoff);
    assert_eq!(poll_action(PollOutcome::NoTask), PollAction::BackoffNoTask);
    assert_eq!(poll_action(PollOutcome::GotTask), PollAction::Execute);
}

#[test]
fn limits_fill_the_template() {
    let none = LimitsConfig::new(0, 0);
    assert_eq!(none.apply("a{cpu_limits}b{memory_limits}c".to_string()), "abc");
    let some = LimitsConfig::new(2, 1024);
    let out = some.apply("{cpu_limits}|{memory_limits}".to_string());
    assert!(out.contains("\"quota\": 200000"));
    assert!(out.contains("\"period\": 100000"));
    assert!(out.contains("\"limit\": 1024"));
    assert!(out.contains("\"swap\": 1024"));
    assert!(!out.contains("{cpu_limits}"));
}

#[test]
fn run_config_writes_command_as_json() {
    let args = vec!["/bin/run".to_string(), "a \"quoted\" arg".to_string()];
    let limits = LimitsConfig::new(0, 0);
    let c = ContainerConfig::WritableRootfs
        .render("{\"root\":\"{rootfs}\",\"uid\":{host_uid},\"args\":{args}}", "/r", "/w", 1000, &args, &limits)
        .unwrap();
    assert_eq!(c.config, "{\"root\":\"/r\",\"uid\":1000,\"args\":[\"/bin/run\",\"a \\\"quoted\\\" arg\"]}");
    assert_eq!(c.config_path, "/w/config.json");
    assert_eq!(c.root, "/r");
    assert!(c.overlay_dirs.is_empty());
    let o = ContainerConfig::OverlayRootfs
        .render("{lower_dir}|{upper_dir}|{work_dir}", "/r", "/w/", 0, &args, &limits)
        .unwrap();
    assert_eq!(o.config, "/r|/w/overlay-upper|/w/overlay-work");
    assert_eq!(o.root, "/w/overlay-upper");
    assert_eq!(o.overlay_dirs, vec!["/w/overlay-upper".to_string(), "/w/overlay-work".to_string()]);
    let _unused: Option<RunConfigError> = None;
}

#[test]
fn stderr_reports_runc_failures_and_signals() {
    match read_stderr(false, "runc run failed: no such file\n") {
        StderrVerdict::RuncFailed { message } => assert_eq!(message, "runc run failed: no such file"),
        other => panic!("unexpected {:?}", other),
    }
    match read_stderr(false, "oops\ncrow-internal_KILLED_BY_SIGNAL: 11\n") {
        StderrVerdict::Signal { signal, stderr } => {
            assert_eq!(signal, 11);
            assert_eq!(stderr, "oops");
        }
        other => panic!("unexpected {:?}", other),
    }
    assert!(matches!(read_stderr(true, "all fine"), StderrVerdict::Plain));
}

fn run(stdout: &str) -> FinishedExecution {
    FinishedExecution { stdout: stdout.to_string(), stderr: String::new(), runtime_ms: 5, exit_status: Some(0) }
}

#[test]
fn output_is_judged_up_to_a_final_newline() {
    assert!(matches!(judge_output("42\n", true, run("42")), ExecutionOutput::Success(_)));
    assert!(matches!(judge_output("42", true, run("42\n")), ExecutionOutput::Success(_)));
    assert!(matches!(judge_output("42", false, run("42")), ExecutionOutput::Failure { accumulated_errors: None, .. }));
    match judge_output("1\n2\n", true, run("1\n3\n")) {
        ExecutionOutput::Failure { execution: e, accumulated_errors: None } => {
            assert!(e.stderr.starts_with("A diff of your result follows."));
            assert!(e.stderr.contains("-2"));
            assert!(e.stderr.contains("+3"));
        }
        other => panic!("unexpected {:?}", other),
    }
}

#[test]
fn wait_errors_become_outputs() {
    let t = WaitFailure::Timeout { runtime_ms: 9, stdout: "o".to_string(), stderr: "e".to_string() };
    assert!(matches!(execution_output_from_wait_error(&t), Some(ExecutionOutput::Timeout(_))));
    assert!(!kill_after_wait(&t));
    let a = WaitFailure::Aborted { runtime_ms: 9, stdout: "o".to_string(), stderr: "e".to_string() };
    assert!(matches!(execution_output_from_wait_error(&a), Some(ExecutionOutput::Aborted(_))));
    assert!(kill_after_wait(&a));
    let o = WaitFailure::Other { report: "r".to_string() };
    assert!(execution_output_from_wait_error(&o).is_none());
    assert!(kill_after_wait(&o));
}

#[test]
fn container_commands() {
    let id = ContainerId("c1".to_string());
    let k = kill_command(&id);
    assert_eq!(k.program, "runc");
    assert_eq!(k.args, vec!["--log-format=json", "kill", "c1", "KILL"]);
    let s = start_command("/w", &id);
    assert_eq!(s.args, vec!["run", "c1"]);
    assert_eq!(s.cwd, Some("/w".to_string()));
}

#[test]
fn kill_outcomes() {
    assert!(kill_verdict(true, None, b"").is_ok());
    let gone = RuncLogMessage { level: "error".into(), msg: "container does not exist".into(), time: "t".into() };
    assert!(kill_verdict(false, Some(gone), b"").is_ok());
    let other = RuncLogMessage { level: "error".into(), msg: "busy".into(), time: "t".into() };
    assert!(matches!(kill_verdict(false, Some(other), b""), Err(KillFailure::Unknown { .. })));
    match kill_verdict(false, None, b"garbage") {
        Err(KillFailure::Unparsable { raw_output }) => assert_eq!(raw_output, "garbage"),
        other => panic!("unexpected {:?}", other),
    }
}

#[test]
fn docker_inspect_answers() {
    match read_inspect(true, "sha256:abc\nmore\n", "") {
        InspectOutcome::Id(id) => assert_eq!(id, "sha256:abc"),
        other => panic!("unexpected {:?}", other),
    }
    assert!(matches!(read_inspect(false, "", "Error: No such image: x"), InspectOutcome::ImageNotFound));
    match read_inspect(false, "", " daemon down \n") {
        InspectOutcome::UnknownResponse { response } => assert_eq!(response, "daemon down"),
        other => panic!("unexpected {:?}", other),
    }
}

#[test]
fn shim_reports_signal_or_code() {
    let (marker, code) = shim_outcome(Some(9), None);
    assert_eq!(marker, Some("crow-internal_KILLED_BY_SIGNAL: 9".to_string()));
    assert_eq!(code, 21);
    let (marker, code) = shim_outcome(None, Some(3));
    assert_eq!(marker, None);
    assert_eq!(code, 3);
}

#[test]
fn control_characters_are_escaped_in_the_command() {
    let args = vec!["a\tb\u{1}".to_string()];
    let c = ContainerConfig::WritableRootfs.render("{args}", "/r", "/w", 0, &args, &LimitsConfig::new(0, 0)).unwrap();
    assert_eq!(c.config, "[\"a\\tb\\u0001\"]");
}

#[test]
fn images_are_exported_through_the_cache() {
    let image = ImageId("alpine".to_string());
    assert_eq!(inspect_command(&image).args, vec!["image", "inspect", "alpine", "--format", "{{ .Id }}"]);
    assert_eq!(cached_image_path(InspectOutcome::Id("sha256:1".to_string()), "/cache", &image).unwrap(), "/cache/sha256:1");
    assert!(matches!(
        cached_image_path(InspectOutcome::ImageNotFound, "/cache", &image),
        Err(DockerError::ImageNotFound { .. })
    ));
    assert_eq!(cache_step(true), CacheStep::Reuse);
    assert_eq!(cache_step(false), CacheStep::ExportThenCopy);
    assert_eq!(copy_from_cache_command("/cache/x", "/t").args, vec!["-r", "/cache/x", "/t"]);
    let (create, export, remove) = export_to_tar_commands(&image, "cid", "/tmp/i.tar");
    assert_eq!(create.args, vec!["create", "-q", "alpine"]);
    assert_eq!(export.args, vec!["export", "cid", "-o", "/tmp/i.tar"]);
    assert_eq!(remove.args, vec!["rm", "cid"]);
}
