use kaneo_core::life::{format_exit_status, Stamps};
use kaneo_core::{
    AgentRun, AgentSpec, ExitReport, OutputLine, RunManager, RunStatus, RunnerConfig, StartError,
    Worker, WorkerAction, WorkerEvent,
};
use std::collections::BTreeMap;
use std::time::{Duration, Instant};

fn shell_spec(id: &str, script: &str) -> AgentSpec {
    AgentSpec {
        id: Some(id.to_string()),
        workspace_id: "workspace".to_string(),
        project_id: "project".to_string(),
        prompt: "test".to_string(),
        cwd: "/work".to_string(),
        model: None,
        network_access: false,
        command: "sh".to_string(),
        command_args: vec!["-c".to_string(), script.to_string()],
        environment: BTreeMap::new(),
        max_seconds: 5,
    }
}

fn stamps() -> Stamps {
    Stamps {
        first: "1".to_string(),
        second: "2".to_string(),
        third: "3".to_string(),
    }
}

/// Tells the worker of a run that its process was started.
fn launch(manager: &mut RunManager, id: &str, script: &str, config: &RunnerConfig) -> Worker {
    let mut worker = Worker::new(id, &shell_spec(id, script), config);
    assert_eq!(manager.step(&mut worker, WorkerEvent::Begin), WorkerAction::Launch);
    assert_eq!(manager.step(&mut worker, WorkerEvent::Spawned), WorkerAction::ReadOutput);
    worker
}

/// Tells the worker of a run that its process ended with this report.
fn wait_for_terminal(
    manager: &mut RunManager,
    worker: &mut Worker,
    id: &str,
    report: ExitReport,
) -> AgentRun {
    let quiet = WorkerEvent::Quiet { deadline_reached: false };
    assert!(matches!(manager.step(worker, quiet), WorkerAction::CheckExit { .. }));
    assert_eq!(manager.step(worker, WorkerEvent::Exited(report)), WorkerAction::ReadOutput);
    let quiet = WorkerEvent::Quiet { deadline_reached: false };
    assert_eq!(manager.step(worker, quiet), WorkerAction::Stop);
    let run = manager.get(id).expect("run exists");
    assert!(!run.status.is_active());
    run
}

const GOOD: ExitReport = ExitReport { code: Some(0), success: true };

#[test]
fn enforces_the_active_run_bound() {
    let config = RunnerConfig {
        max_active_runs: 1,
        ..RunnerConfig::default()
    };
    let mut manager = RunManager::new(config);
    manager
        .start(&shell_spec("first", "sleep 0.15"), true)
        .expect("first run starts");
    assert_eq!(
        manager.start(&shell_spec("second", "true"), true),
        Err(StartError::AtCapacity { max_active_runs: 1 })
    );
    let mut worker = launch(&mut manager, "first", "sleep 0.15", &config);
    assert_eq!(
        manager.start(&shell_spec("second", "true"), true),
        Err(StartError::AtCapacity { max_active_runs: 1 })
    );
    let run = wait_for_terminal(&mut manager, &mut worker, "first", GOOD);
    assert_eq!(run.status, RunStatus::Completed);
    assert_eq!(manager.active_count(), 0);
    assert!(manager.start(&shell_spec("second", "true"), true).is_ok());
}

#[test]
fn runs_independent_jobs_in_parallel() {
    let config = RunnerConfig {
        max_active_runs: 2,
        ..RunnerConfig::default()
    };
    let mut manager = RunManager::new(config);
    let started = Instant::now();
    manager
        .start(&shell_spec("first", "sleep 0.20"), true)
        .expect("first run starts");
    manager
        .start(&shell_spec("second", "sleep 0.20"), true)
        .expect("second run starts");
    let mut one = launch(&mut manager, "first", "sleep 0.20", &config);
    let mut two = launch(&mut manager, "second", "sleep 0.20", &config);
    assert_eq!(manager.active_count(), 2);
    assert_eq!(manager.status("first"), Some(RunStatus::Running));
    assert_eq!(manager.status("second"), Some(RunStatus::Running));
    let first = wait_for_terminal(&mut manager, &mut one, "first", GOOD);
    let second = wait_for_terminal(&mut manager, &mut two, "second", GOOD);
    assert_eq!(first.status, RunStatus::Completed);
    assert_eq!(second.status, RunStatus::Completed);
    assert!(started.elapsed() < Duration::from_millis(380));
}

#[test]
fn a_directory_that_is_none_is_refused_before_capacity() {
    let config = RunnerConfig {
        max_active_runs: 0,
        ..RunnerConfig::default()
    };
    let mut manager = RunManager::new(config);
    assert_eq!(
        manager.start(&shell_spec("a", "true"), false),
        Err(StartError::InvalidWorkingDirectory("/work".to_string()))
    );
    assert_eq!(
        manager.start(&shell_spec("a", "true"), true),
        Err(StartError::AtCapacity { max_active_runs: 0 })
    );
    let mut spec = shell_spec("a", "true");
    spec.id = None;
    assert_eq!(manager.start(&spec, true), Err(StartError::AtCapacity { max_active_runs: 0 }));
    assert_eq!(manager.get("a"), None);
    assert_eq!(manager.get(""), None);
}

#[test]
fn start_errors_say_what_is_wrong() {
    assert_eq!(
        StartError::AtCapacity { max_active_runs: 12 }.message(),
        "Kaneo already has the maximum number of active agent runs (12)."
    );
    assert_eq!(
        StartError::InvalidWorkingDirectory("/nowhere".to_string()).message(),
        "Agent working directory is not a directory: /nowhere"
    );
}

#[test]
fn a_started_run_is_queued_and_can_be_read_back() {
    let mut manager = RunManager::new(RunnerConfig::default());
    let mut spec = shell_spec("a", "true");
    spec.model = Some("small".to_string());
    spec.network_access = true;
    let run = manager
        .start_at(&spec, true, "unused".to_string(), "17".to_string())
        .expect("starts");
    let expected = AgentRun {
        id: "a".to_string(),
        workspace_id: "workspace".to_string(),
        project_id: "project".to_string(),
        prompt: "test".to_string(),
        cwd: "/work".to_string(),
        model: Some("small".to_string()),
        network_access: true,
        status: RunStatus::Queued,
        created_at: "17".to_string(),
        started_at: None,
        finished_at: None,
        exit_code: None,
        error: None,
        events: Vec::new(),
    };
    assert_eq!(run, expected);
    assert_eq!(manager.get("a"), Some(expected));
    assert_eq!(manager.get("b"), None);
}

#[test]
fn a_run_without_an_id_gets_a_random_one() {
    let mut manager = RunManager::new(RunnerConfig::default());
    let mut spec = shell_spec("a", "true");
    spec.id = None;
    let first = manager.start(&spec, true).expect("starts");
    let second = manager.start(&spec, true).expect("starts");
    assert_ne!(first.id, second.id);
    for run in [first, second] {
        let id: Vec<char> = run.id.chars().collect();
        assert_eq!(id.len(), 36);
        for (i, c) in id.iter().enumerate() {
            if [8, 13, 18, 23].contains(&i) {
                assert_eq!(*c, '-');
            } else {
                assert!(c.is_ascii_digit() || ('a'..='f').contains(c));
            }
        }
        assert_eq!(id[14], '4');
        assert!(['8', '9', 'a', 'b'].contains(&id[19]));
        assert!(run.created_at.parse::<u128>().expect("a number") > 1_600_000_000_000);
    }
    assert_eq!(manager.active_count(), 2);
}

#[test]
fn a_start_with_a_known_id_replaces_the_run() {
    let mut manager = RunManager::new(RunnerConfig::default());
    manager.start(&shell_spec("a", "true"), true).expect("starts");
    let mut again = shell_spec("a", "true");
    again.prompt = "again".to_string();
    manager.start(&again, true).expect("starts");
    assert_eq!(manager.active_count(), 1);
    assert_eq!(manager.get("a").expect("exists").prompt, "again");
}

#[test]
fn cancelling_ends_an_active_run_once() {
    let mut manager = RunManager::new(RunnerConfig::default());
    assert_eq!(manager.cancel("a"), None);
    manager.start(&shell_spec("a", "true"), true).expect("starts");
    let done = manager.cancel_at("a", "5".to_string()).expect("exists");
    assert!(done.stop_process);
    assert_eq!(done.run.status, RunStatus::Cancelled);
    assert_eq!(done.run.finished_at, Some("5".to_string()));
    let again = manager.cancel_at("a", "6".to_string()).expect("exists");
    assert!(!again.stop_process);
    assert_eq!(again.run.finished_at, Some("5".to_string()));
    assert_eq!(manager.active_count(), 0);
}

#[test]
fn a_cancelled_run_is_killed_and_stays_cancelled() {
    let config = RunnerConfig::default();
    let mut manager = RunManager::new(config);
    manager.start(&shell_spec("a", "sleep 9"), true).expect("starts");
    let mut worker = launch(&mut manager, "a", "sleep 9", &config);
    assert!(manager.cancel("a").expect("exists").stop_process);
    let quiet = WorkerEvent::Quiet { deadline_reached: false };
    assert_eq!(manager.step(&mut worker, quiet), WorkerAction::CheckExit { kill: true });
    assert_eq!(
        manager.step(&mut worker, WorkerEvent::StillRunning),
        WorkerAction::RestThenRead
    );
    let report = ExitReport { code: None, success: false };
    let run = wait_for_terminal(&mut manager, &mut worker, "a", report);
    assert_eq!(run.status, RunStatus::Cancelled);
    assert_eq!(run.exit_code, None);
    assert_eq!(run.error, None);
    let last = run.events.last().expect("an event");
    assert_eq!(last.event_type, "run.cancelled");
    assert_eq!(last.text, "Agent run cancelled.");
}

#[test]
fn a_run_that_takes_too_long_is_killed_once_and_fails() {
    let config = RunnerConfig::default();
    let mut manager = RunManager::new(config);
    manager.start(&shell_spec("a", "sleep 9"), true).expect("starts");
    let mut worker = launch(&mut manager, "a", "sleep 9", &config);
    assert_eq!(worker.max_seconds(), 5);
    let late = WorkerEvent::Quiet { deadline_reached: true };
    assert_eq!(manager.step(&mut worker, late), WorkerAction::CheckExit { kill: true });
    manager.step(&mut worker, WorkerEvent::StillRunning);
    let late = WorkerEvent::Quiet { deadline_reached: true };
    assert_eq!(manager.step(&mut worker, late), WorkerAction::CheckExit { kill: false });
    manager.step(&mut worker, WorkerEvent::Exited(GOOD));
    let late = WorkerEvent::Quiet { deadline_reached: true };
    assert_eq!(manager.step(&mut worker, late), WorkerAction::Stop);
    let run = manager.get("a").expect("exists");
    assert_eq!(run.status, RunStatus::Failed);
    assert_eq!(run.error, Some("Agent run exceeded 5 seconds.".to_string()));
    assert_eq!(run.exit_code, Some(0));
    let kinds: Vec<&str> = run.events.iter().map(|e| e.event_type.as_str()).collect();
    assert_eq!(kinds, vec!["run.started", "timeout", "run.failed"]);
}

#[test]
fn a_process_that_ends_badly_fails_its_run() {
    for (report, said) in [
        (ExitReport { code: Some(3), success: false }, "Agent exited with code 3."),
        (ExitReport { code: Some(-7), success: false }, "Agent exited with code -7."),
        (ExitReport { code: None, success: false }, "Agent exited without a code."),
    ] {
        let config = RunnerConfig::default();
        let mut manager = RunManager::new(config);
        manager.start(&shell_spec("a", "exit"), true).expect("starts");
        let mut worker = launch(&mut manager, "a", "exit", &config);
        let run = wait_for_terminal(&mut manager, &mut worker, "a", report);
        assert_eq!(run.status, RunStatus::Failed);
        assert_eq!(run.exit_code, report.code);
        assert_eq!(run.error, Some(said.to_string()));
        assert_eq!(run.events.last().expect("an event").text, said);
    }
}

#[test]
fn a_process_that_cannot_be_started_fails_its_run() {
    let config = RunnerConfig::default();
    let mut manager = RunManager::new(config);
    manager.start(&shell_spec("a", "true"), true).expect("starts");
    let mut worker = Worker::new("a", &shell_spec("a", "true"), &config);
    manager.step_at(&mut worker, WorkerEvent::Begin, stamps());
    let event = WorkerEvent::SpawnFailed("no such file".to_string());
    assert!(worker.expects(&event));
    assert_eq!(manager.step_at(&mut worker, event, stamps()), WorkerAction::Stop);
    let run = manager.get("a").expect("exists");
    assert_eq!(run.status, RunStatus::Failed);
    assert_eq!(run.started_at, Some("1".to_string()));
    assert_eq!(run.finished_at, Some("1".to_string()));
    assert_eq!(run.error, Some("Could not start agent: no such file".to_string()));
    let log: Vec<(&str, &str, &str)> = run
        .events
        .iter()
        .map(|e| (e.at.as_str(), e.event_type.as_str(), e.text.as_str()))
        .collect();
    assert_eq!(
        log,
        vec![
            ("2", "run.started", "Agent started in /work."),
            ("2", "run.error", "Could not start agent: no such file"),
            ("3", "run.failed", "Could not start agent: no such file"),
        ]
    );
}

#[test]
fn output_is_logged_while_the_process_runs_and_after_it_ended() {
    let config = RunnerConfig::default();
    let mut manager = RunManager::new(config);
    manager.start(&shell_spec("a", "true"), true).expect("starts");
    let mut worker = launch(&mut manager, "a", "true", &config);
    let line = |stream: &'static str, line: &str| {
        WorkerEvent::Output(OutputLine { stream, line: line.to_string() })
    };
    assert_eq!(
        manager.step(&mut worker, line("stderr", "  Bearer abc  ")),
        WorkerAction::ReadOutput
    );
    manager.step(&mut worker, WorkerEvent::Quiet { deadline_reached: false });
    manager.step(&mut worker, WorkerEvent::Exited(GOOD));
    assert_eq!(
        manager.step(&mut worker, line("stdout", r#"{"type":"note","message":"bye"}"#)),
        WorkerAction::ReadOutput
    );
    manager.step(&mut worker, WorkerEvent::Quiet { deadline_reached: false });
    let run = manager.get("a").expect("exists");
    let log: Vec<(&str, &str)> = run
        .events
        .iter()
        .map(|e| (e.event_type.as_str(), e.text.as_str()))
        .collect();
    assert_eq!(
        log,
        vec![
            ("run.started", "Agent started in /work."),
            ("stderr", "Bearer [redacted]"),
            ("note", "bye"),
            ("run.completed", "Agent run completed successfully."),
        ]
    );
    assert!(!worker.expects(&WorkerEvent::Begin));
    assert!(!worker.expects(&WorkerEvent::Quiet { deadline_reached: false }));
}

#[test]
fn the_steps_of_one_run_leave_the_others_alone() {
    let config = RunnerConfig::default();
    let mut manager = RunManager::new(config);
    manager.start(&shell_spec("a", "true"), true).expect("starts");
    manager.start(&shell_spec("b", "true"), true).expect("starts");
    let before = manager.get("b");
    let mut worker = launch(&mut manager, "a", "true", &config);
    wait_for_terminal(&mut manager, &mut worker, "a", GOOD);
    assert_eq!(manager.get("b"), before);
    assert_eq!(manager.active_count(), 1);
}

#[test]
fn a_begin_after_a_cancel_starts_no_process() {
    let config = RunnerConfig {
        max_active_runs: 1,
        ..RunnerConfig::default()
    };
    let mut manager = RunManager::new(config);
    manager.start(&shell_spec("a", "true"), true).expect("starts");
    let cancelled = manager.cancel("a").expect("exists").run;
    manager.start(&shell_spec("b", "true"), true).expect("starts");
    let mut worker = Worker::new("a", &shell_spec("a", "true"), &config);
    assert_eq!(manager.step(&mut worker, WorkerEvent::Begin), WorkerAction::Stop);
    assert!(!worker.expects(&WorkerEvent::Spawned));
    assert_eq!(manager.get("a"), Some(cancelled));
    assert_eq!(manager.status("a"), Some(RunStatus::Cancelled));
    assert_eq!(manager.status("c"), None);
    assert_eq!(manager.active_count(), 1);
}

#[test]
fn a_run_that_is_over_is_never_woken() {
    let config = RunnerConfig::default();
    let mut manager = RunManager::new(config);
    manager.start(&shell_spec("a", "true"), true).expect("starts");
    let mut worker = launch(&mut manager, "a", "true", &config);
    let done = wait_for_terminal(&mut manager, &mut worker, "a", GOOD);
    manager.begin_run("a", "/work", stamps());
    assert_eq!(manager.get("a"), Some(done));
    assert_eq!(manager.active_count(), 0);
}

#[test]
fn what_a_run_shows_fits_its_status() {
    let config = RunnerConfig::default();
    let mut manager = RunManager::new(config);
    manager.start(&shell_spec("a", "true"), true).expect("starts");
    let run = manager.get("a").expect("exists");
    assert_eq!(run.status, RunStatus::Queued);
    assert_eq!((run.started_at, run.finished_at, run.exit_code, run.error), (None, None, None, None));
    assert!(run.events.is_empty());
    let mut worker = launch(&mut manager, "a", "true", &config);
    assert_eq!(manager.status("a"), Some(RunStatus::Running));
    let run = wait_for_terminal(&mut manager, &mut worker, "a", GOOD);
    assert_eq!((run.prompt.as_str(), run.cwd.as_str()), ("test", "/work"));
    assert_eq!(run.status, RunStatus::Completed);
    assert_eq!((run.exit_code, run.error), (Some(0), None));
    assert!(run.finished_at.is_some());
}

#[test]
fn the_logs_of_a_manager_stay_bounded() {
    let config = RunnerConfig {
        max_events: 2,
        max_event_text: 3,
        ..RunnerConfig::default()
    };
    let mut manager = RunManager::new(config);
    manager.start(&shell_spec("a", "true"), true).expect("starts");
    let mut worker = launch(&mut manager, "a", "true", &config);
    for line in ["first", "second", "third"] {
        let line = line.to_string();
        manager.step(&mut worker, WorkerEvent::Output(OutputLine { stream: "stdout", line }));
    }
    let run = manager.get("a").expect("exists");
    let texts: Vec<&str> = run.events.iter().map(|e| e.text.as_str()).collect();
    assert_eq!(texts, vec!["sec", "thi"]);
    assert_eq!(run.id, "a");
}

#[test]
fn an_exit_without_a_status_is_told() {
    assert_eq!(format_exit_status(None), "Agent process ended without an exit status.");
    let mut manager = RunManager::new(RunnerConfig::default());
    manager.start(&shell_spec("a", "true"), true).expect("starts");
    manager.finish_run("a", None, false, stamps());
    let run = manager.get("a").expect("exists");
    assert_eq!(run.status, RunStatus::Failed);
    assert_eq!(run.exit_code, None);
    assert_eq!(run.error, Some("Agent process ended without an exit status.".to_string()));
    manager.finish_run("b", None, false, stamps());
    assert_eq!(manager.get("b"), None);
}

#[test]
fn time_limits_are_defaulted_and_capped() {
    let config = RunnerConfig::default();
    assert_eq!(config.max_active_runs, 2);
    assert_eq!(config.max_events, 1_000);
    assert_eq!(config.max_event_text, 12_000);
    assert_eq!(config.default_max_seconds, 3_600);
    assert_eq!(config.max_seconds(0), 3_600);
    assert_eq!(config.max_seconds(1), 1);
    assert_eq!(config.max_seconds(86_400), 86_400);
    assert_eq!(config.max_seconds(86_401), 86_400);
}

#[test]
fn statuses_are_active_until_they_end() {
    assert!(RunStatus::Queued.is_active());
    assert!(RunStatus::Running.is_active());
    assert!(!RunStatus::Completed.is_active());
    assert!(!RunStatus::Failed.is_active());
    assert!(!RunStatus::Cancelled.is_active());
    assert_eq!(RunStatus::Completed.exit_code(), 0);
    assert_eq!(RunStatus::Failed.exit_code(), 1);
    assert_eq!(RunStatus::Cancelled.exit_code(), 1);
}
