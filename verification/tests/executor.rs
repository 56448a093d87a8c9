use std::time::Duration;
use task_tester::{
    counts_as_failure, ChildOutput, Execution, ExecutionError, Exit, RunConfig, Test,
    TestTimeoutResult,
};

fn test_01() -> Test {
    Test {
        name: "01".to_string(),
        in_file: "in/sum01.in".to_string(),
        out_file: "out/sum01.out".to_string(),
    }
}

fn exited(stdout: &[u8], expected: Option<&[u8]>) -> Execution {
    Execution::Exited(Exit {
        time: Duration::from_millis(120),
        stdin: b"2 3\n".to_vec(),
        output: ChildOutput { status: Some(0), stdout: stdout.to_vec(), stderr: Vec::new() },
        expected: expected.map(|e| e.to_vec()),
    })
}

fn config(command: Option<&str>) -> RunConfig {
    RunConfig {
        task: "sum".to_string(),
        command: command.map(|c| c.to_string()),
        in_pattern: "in/{task}{test}.in".to_string(),
        out_pattern: "out/{task}{test}.out".to_string(),
        timeout: 5,
        parallel: 5,
    }
}

#[test]
fn right_answer_is_finished_and_correct() {
    match test_01().run(exited(b"5\n", Some(b"5\n"))) {
        Ok(TestTimeoutResult::Finished(res)) => {
            assert_eq!(res.name, "01");
            assert!(res.correct);
            assert_eq!(res.time, Duration::from_millis(120));
            assert_eq!(res.stdin, b"2 3\n");
            assert_eq!(res.output.stdout, b"5\n");
            assert_eq!(res.output.stderr, b"");
            assert_eq!(res.output.status, Some(0));
            assert_eq!(res.expected, b"5\n");
        }
        other => panic!("{:?}", other),
    }
}

#[test]
fn wrong_answer_is_finished_and_not_correct() {
    match test_01().run(exited(b"6\n", Some(b"5\n"))) {
        Ok(TestTimeoutResult::Finished(res)) => {
            assert_eq!(res.name, "01");
            assert!(!res.correct);
            assert_eq!(res.output.stdout, b"6\n");
            assert_eq!(res.expected, b"5\n");
        }
        other => panic!("{:?}", other),
    }
}

#[test]
fn answer_is_judged_after_trimming() {
    match test_01().run(exited(b"  5", Some(b"5\r\n"))) {
        Ok(TestTimeoutResult::Finished(res)) => {
            assert!(res.correct);
            // The bytes are handed on as they came.
            assert_eq!(res.output.stdout, b"  5");
            assert_eq!(res.expected, b"5\r\n");
        }
        other => panic!("{:?}", other),
    }
}

#[test]
fn exit_code_does_not_decide() {
    let execution = Execution::Exited(Exit {
        time: Duration::from_secs(1),
        stdin: Vec::new(),
        output: ChildOutput { status: Some(3), stdout: b"5".to_vec(), stderr: b"oops".to_vec() },
        expected: Some(b"5".to_vec()),
    });
    match test_01().run(execution) {
        Ok(TestTimeoutResult::Finished(res)) => {
            assert!(res.correct);
            assert_eq!(res.output.status, Some(3));
            assert_eq!(res.output.stderr, b"oops");
        }
        other => panic!("{:?}", other),
    }
}

#[test]
fn timeout_is_an_outcome() {
    match test_01().run(Execution::TimedOut) {
        Ok(TestTimeoutResult::TimedOut(name)) => assert_eq!(name, "01"),
        other => panic!("{:?}", other),
    }
}

#[test]
fn missing_expected_output_is_an_error() {
    match test_01().run(exited(b"5\n", None)) {
        Err(e) => assert_eq!(e, ExecutionError::ExpectedOutputMissing),
        other => panic!("{:?}", other),
    }
}

#[test]
fn failure_to_run_is_handed_on() {
    let kinds = [
        ExecutionError::InputUnreadable,
        ExecutionError::SpawnFailed,
        ExecutionError::StdinWriteFailed,
        ExecutionError::OutputUnreadable,
        ExecutionError::ExpectedOutputMissing,
    ];
    for kind in kinds {
        match test_01().run(Execution::Failed(kind)) {
            Err(e) => assert_eq!(e, kind),
            other => panic!("{:?}", other),
        }
    }
}

#[test]
fn all_but_a_right_answer_counts_as_failure() {
    assert!(!counts_as_failure(&test_01().run(exited(b"5", Some(b"5")))));
    assert!(counts_as_failure(&test_01().run(exited(b"6", Some(b"5")))));
    assert!(counts_as_failure(&test_01().run(Execution::TimedOut)));
    assert!(counts_as_failure(&test_01().run(exited(b"5", None))));
    assert!(counts_as_failure(&Err(ExecutionError::SpawnFailed)));
}

#[test]
fn command_is_the_one_configured() {
    assert_eq!(config(Some("./a.out")).command(false), "./a.out");
    assert_eq!(config(Some("./a.out")).command(true), "./a.out");
    assert_eq!(config(Some("")).command(true), "");
}

#[test]
fn command_defaults_to_the_task() {
    assert_eq!(config(None).command(false), "sum");
    assert_eq!(config(None).command(true), "sum.exe");
}

#[test]
fn config_needs_a_slot_and_a_timeout() {
    let mut c = config(None);
    assert!(c.is_valid());
    c.parallel = 1;
    c.timeout = 1;
    assert!(c.is_valid());
    c.parallel = 0;
    assert!(!c.is_valid());
    c.parallel = 1;
    c.timeout = 0;
    assert!(!c.is_valid());
}

#[test]
fn default_config_is_valid() {
    let c = RunConfig::new("sum".to_string());
    assert_eq!(c.task, "sum");
    assert_eq!(c.command, None);
    assert_eq!(c.in_pattern, "in/{task}{test}.in");
    assert_eq!(c.out_pattern, "out/{task}{test}.out");
    assert_eq!(c.timeout, 5);
    assert_eq!(c.parallel, 5);
    assert!(c.is_valid());
}

#[test]
fn clone_of_a_config_is_the_same() {
    let c = config(Some("./a.out"));
    let d = c.clone();
    assert_eq!(d.task, c.task);
    assert_eq!(d.command, c.command);
    assert_eq!(d.in_pattern, c.in_pattern);
    assert_eq!(d.out_pattern, c.out_pattern);
    assert_eq!(d.timeout, c.timeout);
    assert_eq!(d.parallel, c.parallel);
    assert_eq!(config(None).clone().command, None);
}

#[test]
fn clone_of_a_test_is_the_same() {
    let t = test_01();
    let u = t.clone();
    assert_eq!(u.name, "01");
    assert_eq!(u.in_file, "in/sum01.in");
    assert_eq!(u.out_file, "out/sum01.out");
}
