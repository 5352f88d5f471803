use crow::execution::{ExecutionOutput, FinishedExecution, InternalError};
use crow::report::{execution_output_report, PieceKind};

fn pieces(o: &ExecutionOutput) -> Vec<(PieceKind, String)> {
    execution_output_report(o).into_iter().map(|p| (p.kind, p.text)).collect()
}

fn run(stdout: &str, stderr: &str, ms: u64) -> FinishedExecution {
    FinishedExecution { stdout: stdout.into(), stderr: stderr.into(), runtime_ms: ms, exit_status: Some(1) }
}

#[test]
fn failure_report_lists_gathered_errors_and_the_diff() {
    let o = ExecutionOutput::Failure { execution: run(" out \n", "\n-a\n+b\n", 2500), accumulated_errors: Some("bad".into()) };
    assert_eq!(
        pieces(&o),
        vec![
            (PieceKind::Plain, "Execution was ".to_string()),
            (PieceKind::Alarm, "unsuccessful".to_string()),
            (PieceKind::Plain, " after 2s".to_string()),
            (PieceKind::Heading, "\nErrors:\n".to_string()),
            (PieceKind::Indented, "bad".to_string()),
            (PieceKind::Heading, "\nStdout:\n".to_string()),
            (PieceKind::Indented, "out".to_string()),
            (PieceKind::Heading, "\nStderr:\n".to_string()),
            (PieceKind::IndentedDiff, "-a\n+b".to_string()),
            (PieceKind::Plain, "\n".to_string()),
        ]
    );
    let none = ExecutionOutput::Failure { execution: run("", "", 0), accumulated_errors: None };
    assert_eq!(pieces(&none)[4], (PieceKind::Indented, "No specific errors provided".to_string()));
}

#[test]
fn success_timeout_and_error_reports() {
    let s = pieces(&ExecutionOutput::Success(run("x", "", 999)));
    assert_eq!(s[1], (PieceKind::Good, "successful".to_string()));
    assert_eq!(s[2], (PieceKind::Plain, " after 0s".to_string()));
    assert_eq!(s.len(), 8);
    let t = pieces(&ExecutionOutput::Timeout(run("", "", 61_000)));
    assert_eq!(t[0], (PieceKind::Plain, "Execution timed out".to_string()));
    assert_eq!(t[1], (PieceKind::Alarm, "timed out ".to_string()));
    assert_eq!(t[2], (PieceKind::Plain, "after 61s".to_string()));
    let e = pieces(&ExecutionOutput::Error(InternalError { message: " m ".into(), runtime_ms: 3000 }));
    assert_eq!(
        e,
        vec![
            (PieceKind::Plain, "Execution encountered ".to_string()),
            (PieceKind::Alarm, "an internal error".to_string()),
            (PieceKind::Plain, " after 3s".to_string()),
            (PieceKind::Heading, "\nMessage:\n".to_string()),
            (PieceKind::Indented, " m ".to_string()),
            (PieceKind::Plain, "\n".to_string()),
        ]
    );
}
