use agenticgen::capture::truncate_output;
use agenticgen::sandbox::ExecutionRequest;
use agenticgen::sandbox::ExecutionStatus;
use agenticgen::sandbox::PythonSandbox;
use agenticgen::sandbox::SandboxConfig;
use agenticgen::sandbox::SandboxError;
use agenticgen::sandbox::WorkerOutcome;

fn request(code: &str) -> ExecutionRequest {
    ExecutionRequest {
        code: code.to_string(),
        stdin: None,
        timeout: None,
        memory_limit: None,
    }
}

#[test]
fn test_sandbox_creation() {
    let config = SandboxConfig::default();
    let sandbox = PythonSandbox::new(config);
    assert!(sandbox.is_ok());
}

#[test]
fn creation_fails_without_interpreter() {
    let config = SandboxConfig {
        python_path: String::new(),
        ..SandboxConfig::default()
    };
    let sandbox = PythonSandbox::new(config);
    assert!(matches!(sandbox, Err(SandboxError::InterpreterMissing)));
}

#[test]
fn submit_issues_fresh_queued_ids() {
    let mut sandbox = PythonSandbox::new(SandboxConfig::default()).unwrap();
    let a = sandbox.submit_at(&request("print(1)"), 1000);
    let b = sandbox.submit_at(&request("print(2)"), 1001);
    assert_ne!(a, b);
    assert_eq!(sandbox.get_status(a), Some(ExecutionStatus::Queued));
    assert_eq!(sandbox.get_status(b), Some(ExecutionStatus::Queued));
    let c = sandbox.submit(&request("print(3)"));
    assert_ne!(c, a);
    assert_ne!(c, b);
    assert_eq!(sandbox.get_status(c), Some(ExecutionStatus::Queued));
}

#[test]
fn unknown_id_is_absent_everywhere() {
    let mut sandbox = PythonSandbox::new(SandboxConfig::default()).unwrap();
    assert_eq!(sandbox.get_status(7), None);
    assert!(sandbox.get_result(7).is_none());
    assert!(!sandbox.kill(7));
    assert!(!sandbox.record_outcome(7, WorkerOutcome::TimedOut));
}

#[test]
fn kill_on_queued_returns_false_and_keeps_status() {
    let mut sandbox = PythonSandbox::new(SandboxConfig::default()).unwrap();
    let id = sandbox.submit_at(&request("while True: pass"), 500);
    assert!(!sandbox.kill(id));
    assert_eq!(sandbox.get_status(id), Some(ExecutionStatus::Queued));
    assert!(sandbox.get_result(id).is_none());
}

#[test]
fn mark_running_applies_only_to_queued() {
    let mut sandbox = PythonSandbox::new(SandboxConfig::default()).unwrap();
    let id = sandbox.submit_at(&request("pass"), 500);
    assert!(sandbox.mark_running(id, 4242));
    assert_eq!(sandbox.get_status(id), Some(ExecutionStatus::Running));
    assert!(!sandbox.mark_running(id, 4243));
    assert!(!sandbox.mark_running(999, 4244));
}

#[test]
fn exit_zero_completes_with_captured_output() {
    let mut sandbox = PythonSandbox::new(SandboxConfig::default()).unwrap();
    let id = sandbox.submit_at(&request("print('ok')"), 1000);
    assert!(sandbox.mark_running(id, 4242));
    let applied = sandbox.apply_outcome_at(
        id,
        WorkerOutcome::Exited {
            exit_code: 0,
            stdout: "ok\n".to_string(),
            stderr: String::new(),
        },
        1250,
    );
    assert!(applied);
    assert_eq!(sandbox.get_status(id), Some(ExecutionStatus::Completed));
    let result = sandbox.get_result(id).unwrap();
    assert_eq!(result.exit_code, 0);
    assert_eq!(result.stdout, "ok\n");
    assert_eq!(result.stderr, "");
    assert_eq!(result.duration_ms, 250);
    assert!(result.duration_ms > 0);
}

#[test]
fn nonzero_exit_fails_with_stderr() {
    let mut sandbox = PythonSandbox::new(SandboxConfig::default()).unwrap();
    let id = sandbox.submit_at(&request("raise ValueError('boom')"), 1000);
    assert!(sandbox.mark_running(id, 4242));
    assert!(sandbox.apply_outcome_at(
        id,
        WorkerOutcome::Exited {
            exit_code: 1,
            stdout: String::new(),
            stderr: "Error: boom\n".to_string(),
        },
        1100,
    ));
    assert_eq!(sandbox.get_status(id), Some(ExecutionStatus::Failed));
    let result = sandbox.get_result(id).unwrap();
    assert_ne!(result.exit_code, 0);
    assert!(!result.stderr.is_empty());
}

#[test]
fn deadline_expiry_times_out_without_result() {
    let mut sandbox = PythonSandbox::new(SandboxConfig::default()).unwrap();
    let id = sandbox.submit_at(&request("while True: pass"), 1000);
    assert!(sandbox.mark_running(id, 4242));
    assert!(sandbox.apply_outcome_at(id, WorkerOutcome::TimedOut, 2000));
    assert_eq!(sandbox.get_status(id), Some(ExecutionStatus::TimedOut));
    assert!(sandbox.get_result(id).is_none());
}

#[test]
fn launch_failure_fails_a_queued_record() {
    let mut sandbox = PythonSandbox::new(SandboxConfig::default()).unwrap();
    let id = sandbox.submit_at(&request("pass"), 1000);
    assert!(sandbox.apply_outcome_at(id, WorkerOutcome::LaunchFailed, 1001));
    assert_eq!(sandbox.get_status(id), Some(ExecutionStatus::Failed));
    assert!(sandbox.get_result(id).is_none());
}

#[test]
fn signal_exit_fails_with_sentinel_code() {
    let mut sandbox = PythonSandbox::new(SandboxConfig::default()).unwrap();
    let id = sandbox.submit_at(&request("pass"), 1000);
    assert!(sandbox.mark_running(id, 4242));
    assert!(sandbox.apply_outcome_at(
        id,
        WorkerOutcome::Signaled {
            stdout: "partial".to_string(),
            stderr: String::new(),
        },
        1100,
    ));
    assert_eq!(sandbox.get_status(id), Some(ExecutionStatus::Failed));
    let result = sandbox.get_result(id).unwrap();
    assert_eq!(result.exit_code, -1);
    assert_eq!(result.stdout, "partial");
}

#[test]
fn wait_failure_fails_without_result() {
    let mut sandbox = PythonSandbox::new(SandboxConfig::default()).unwrap();
    let id = sandbox.submit_at(&request("pass"), 1000);
    assert!(sandbox.mark_running(id, 4242));
    assert!(sandbox.apply_outcome_at(id, WorkerOutcome::WaitFailed, 1100));
    assert_eq!(sandbox.get_status(id), Some(ExecutionStatus::Failed));
    assert!(sandbox.get_result(id).is_none());
}

#[test]
fn natural_completion_wins_over_later_kill() {
    let mut sandbox = PythonSandbox::new(SandboxConfig::default()).unwrap();
    let id = sandbox.submit_at(&request("print('fast')"), 1000);
    assert!(sandbox.mark_running(id, 4242));
    assert!(sandbox.apply_outcome_at(
        id,
        WorkerOutcome::Exited {
            exit_code: 0,
            stdout: "fast\n".to_string(),
            stderr: String::new(),
        },
        1001,
    ));
    assert_eq!(sandbox.get_status(id), Some(ExecutionStatus::Completed));
    // The racing kill arrives after the natural completion: it must
    // not touch the record or report a signaled worker.
    assert!(!sandbox.kill(id));
    assert_eq!(sandbox.get_status(id), Some(ExecutionStatus::Completed));
    // Nor does a second outcome transition the record again.
    assert!(!sandbox.apply_outcome_at(id, WorkerOutcome::TimedOut, 1002));
    assert_eq!(sandbox.get_status(id), Some(ExecutionStatus::Completed));
}

#[test]
fn kill_of_live_worker_wins_over_later_outcome() {
    let runtime = tokio::runtime::Runtime::new().unwrap();
    runtime.block_on(async {
        let mut child = tokio::process::Command::new("sleep")
            .arg("30")
            .spawn()
            .unwrap();
        let pid = child.id().unwrap() as i32;
        let mut sandbox = PythonSandbox::new(SandboxConfig::default()).unwrap();
        let id = sandbox.submit_at(&request("while True: pass"), 1000);
        assert!(sandbox.mark_running(id, pid));
        // The caller's kill reaches the live worker first.
        assert!(sandbox.kill(id));
        assert_eq!(sandbox.get_status(id), Some(ExecutionStatus::Killed));
        // The supervisor's own resolution then finds the record
        // already terminal and backs off.
        assert!(!sandbox.apply_outcome_at(
            id,
            WorkerOutcome::Exited {
                exit_code: 0,
                stdout: String::new(),
                stderr: String::new(),
            },
            1500,
        ));
        assert_eq!(sandbox.get_status(id), Some(ExecutionStatus::Killed));
        assert!(sandbox.get_result(id).is_none());
        let _ = child.wait().await;
    });
}

#[test]
fn live_clock_outcome_still_classifies_exactly() {
    let mut sandbox = PythonSandbox::new(SandboxConfig::default()).unwrap();
    let id = sandbox.submit(&request("print('ok')"));
    assert!(sandbox.mark_running(id, 4242));
    assert!(sandbox.record_outcome(
        id,
        WorkerOutcome::Exited {
            exit_code: 0,
            stdout: "ok\n".to_string(),
            stderr: String::new(),
        },
    ));
    assert_eq!(sandbox.get_status(id), Some(ExecutionStatus::Completed));
    let result = sandbox.get_result(id).unwrap();
    assert_eq!(result.exit_code, 0);
    assert_eq!(result.stdout, "ok\n");
}

#[test]
fn cleanup_drops_terminal_and_keeps_inflight() {
    let mut sandbox = PythonSandbox::new(SandboxConfig::default()).unwrap();
    let queued = sandbox.submit_at(&request("a"), 1000);
    let running = sandbox.submit_at(&request("b"), 1001);
    let done = sandbox.submit_at(&request("c"), 1002);
    let timed_out = sandbox.submit_at(&request("d"), 1003);
    assert!(sandbox.mark_running(running, 11));
    assert!(sandbox.mark_running(done, 12));
    assert!(sandbox.apply_outcome_at(
        done,
        WorkerOutcome::Exited {
            exit_code: 0,
            stdout: String::new(),
            stderr: String::new(),
        },
        1100,
    ));
    assert!(sandbox.mark_running(timed_out, 13));
    assert!(sandbox.apply_outcome_at(timed_out, WorkerOutcome::TimedOut, 1200));
    sandbox.cleanup();
    assert_eq!(sandbox.get_status(queued), Some(ExecutionStatus::Queued));
    assert_eq!(sandbox.get_status(running), Some(ExecutionStatus::Running));
    assert_eq!(sandbox.get_status(done), None);
    assert_eq!(sandbox.get_status(timed_out), None);
    // Identifiers are never reissued, even after a sweep.
    let fresh = sandbox.submit_at(&request("e"), 1300);
    assert_ne!(fresh, queued);
    assert_ne!(fresh, running);
    assert_ne!(fresh, done);
    assert_ne!(fresh, timed_out);
}

#[test]
fn output_is_cut_at_the_ceiling_with_marker() {
    assert_eq!(truncate_output("abc", 5), "abc");
    assert_eq!(truncate_output("abcde", 5), "abcde");
    assert_eq!(truncate_output("abcdefgh", 5), "abcde\n... [truncated]");
    assert_eq!(truncate_output("", 5), "");
    let cut = truncate_output("abcdefgh", 5);
    assert_eq!(cut.chars().count(), 5 + "\n... [truncated]".chars().count());
}

#[test]
fn truncation_cuts_at_a_character_boundary_of_the_byte_ceiling() {
    // "\u{e9}" occupies two bytes in UTF-8, so three of them are six.
    let text = "\u{e9}\u{e9}\u{e9}";
    // Six bytes fit a six-byte ceiling: stored whole.
    assert_eq!(truncate_output(text, 6), text);
    // A five-byte ceiling keeps two characters (four bytes): the third
    // would cross the ceiling.
    assert_eq!(truncate_output(text, 5), "\u{e9}\u{e9}\n... [truncated]");
    // A three-byte ceiling keeps one character (two bytes).
    assert_eq!(truncate_output(text, 3), "\u{e9}\n... [truncated]");
    // A one-byte ceiling keeps nothing of the stream.
    assert_eq!(truncate_output(text, 1), "\n... [truncated]");
    // The kept prefix never exceeds the ceiling, counted in bytes.
    let cut = truncate_output(text, 5);
    let kept = cut.strip_suffix("\n... [truncated]").unwrap();
    assert!(kept.len() <= 5);
}

#[test]
fn kill_refuses_a_group_addressing_handle() {
    let mut sandbox = PythonSandbox::new(SandboxConfig::default()).unwrap();
    let id = sandbox.submit_at(&request("while True: pass"), 1000);
    // A non-positive handle would address a whole process group
    // through kill(2); the coordinator must not signal it.
    assert!(sandbox.mark_running(id, -1));
    assert!(!sandbox.kill(id));
    assert_eq!(sandbox.get_status(id), Some(ExecutionStatus::Running));
}

#[test]
fn oversized_worker_output_is_stored_truncated() {
    let config = SandboxConfig {
        max_output_size: 4,
        ..SandboxConfig::default()
    };
    let mut sandbox = PythonSandbox::new(config).unwrap();
    let id = sandbox.submit_at(&request("print('x' * 100)"), 1000);
    assert!(sandbox.mark_running(id, 4242));
    assert!(sandbox.apply_outcome_at(
        id,
        WorkerOutcome::Exited {
            exit_code: 0,
            stdout: "xxxxxxxxxx".to_string(),
            stderr: "ab".to_string(),
        },
        1100,
    ));
    let result = sandbox.get_result(id).unwrap();
    assert_eq!(result.stdout, "xxxx\n... [truncated]");
    assert_eq!(result.stderr, "ab");
}

#[test]
fn effective_timeout_prefers_the_request() {
    let sandbox = PythonSandbox::new(SandboxConfig::default()).unwrap();
    let with_override = ExecutionRequest {
        timeout: Some(5),
        ..request("pass")
    };
    assert_eq!(sandbox.effective_timeout(&with_override), 5);
    assert_eq!(sandbox.effective_timeout(&request("pass")), 30);
}

#[test]
fn wrapped_code_embeds_policy_and_indented_code() {
    let sandbox = PythonSandbox::new(SandboxConfig::default()).unwrap();
    let wrapped = sandbox.wrap_code("print('hi')\nx = 1").unwrap();
    assert!(wrapped.contains("_allowed_modules = [\"math\",\"random\""));
    assert!(wrapped.contains("_blocked_modules = [\"os\",\"sys\""));
    assert!(wrapped.contains("try:\n    print('hi')\n    x = 1\nexcept Exception as e:"));
    assert!(wrapped.contains("builtins.__dict__.clear()"));
}
