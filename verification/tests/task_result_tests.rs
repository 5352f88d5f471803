use crow::execution::{
    ExecutionOutput, FinishedCompilerTask, FinishedExecution, FinishedTaskInfo, TestExecutionOutput,
};
use crow::executor::{task_result, TestRunFailure, TestRunResult};

fn info() -> FinishedTaskInfo {
    FinishedTaskInfo {
        task_id: "task".into(),
        start_ms: 1,
        end_ms: 2,
        team_id: "team".into(),
        revision_id: "rev".into(),
        commit_message: "msg".into(),
    }
}

fn build() -> FinishedExecution {
    FinishedExecution { stdout: "b".into(), stderr: String::new(), runtime_ms: 5, exit_status: Some(0) }
}

#[test]
fn failed_build_makes_a_build_failure() {
    match task_result(info(), false, build(), Vec::new()) {
        FinishedCompilerTask::BuildFailed { info: i, build_output: ExecutionOutput::Failure { execution, accumulated_errors: None } } => {
            assert_eq!(i.task_id, "task");
            assert_eq!(execution.stdout, "b");
        }
        other => panic!("unexpected {:?}", other),
    }
}

#[test]
fn each_test_run_becomes_one_finished_test() {
    let ok = TestExecutionOutput::CompilerFailed {
        compiler_output: ExecutionOutput::Failure { execution: build(), accumulated_errors: None },
    };
    let runs = vec![
        TestRunResult {
            test_id: "a".into(),
            provisional_for_category: None,
            category: Some("lab1".into()),
            result: Ok(ok),
            runtime_ms: 10,
        },
        TestRunResult {
            test_id: "b".into(),
            provisional_for_category: Some("lab2".into()),
            category: None,
            result: Err(TestRunFailure::Internal { report: "boom".into() }),
            runtime_ms: 20,
        },
    ];
    match task_result(info(), true, build(), runs) {
        FinishedCompilerTask::RanTests { info: i, build_output, tests } => {
            assert_eq!(i.revision_id, "rev");
            assert_eq!(build_output.stdout, "b");
            assert_eq!(tests.len(), 2);
            assert_eq!(tests[0].test_id, "a");
            assert_eq!(tests[0].category.as_deref(), Some("lab1"));
            assert!(matches!(tests[0].output, TestExecutionOutput::CompilerFailed { .. }));
            assert_eq!(tests[1].test_id, "b");
            assert_eq!(tests[1].provisional_for_category.as_deref(), Some("lab2"));
            match &tests[1].output {
                TestExecutionOutput::Error { output_so_far: ExecutionOutput::Error(e) } => {
                    assert_eq!(e.message, "Internal error while running test:\nboom");
                    assert_eq!(e.runtime_ms, 20);
                }
                other => panic!("unexpected {:?}", other),
            }
        }
        other => panic!("unexpected {:?}", other),
    }
}
