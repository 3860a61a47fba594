use kaneo_core::clock::stamp;
use kaneo_core::event::{append_event_at, shown_text};
use kaneo_core::{append_event, now, AgentRun, RunStatus, RunnerConfig};
use std::time::{Duration, UNIX_EPOCH};

fn run() -> AgentRun {
    AgentRun {
        id: "a".to_string(),
        workspace_id: String::new(),
        project_id: String::new(),
        prompt: String::new(),
        cwd: String::new(),
        model: None,
        network_access: false,
        status: RunStatus::Running,
        created_at: "0".to_string(),
        started_at: None,
        finished_at: None,
        exit_code: None,
        error: None,
        events: Vec::new(),
    }
}

fn bounds(max_events: usize, max_event_text: usize) -> RunnerConfig {
    RunnerConfig {
        max_events,
        max_event_text,
        ..RunnerConfig::default()
    }
}

fn texts(run: &AgentRun) -> Vec<&str> {
    run.events.iter().map(|event| event.text.as_str()).collect()
}

#[test]
fn a_full_log_drops_its_oldest_event() {
    let config = bounds(2, 100);
    let mut run = run();
    for (at, text) in [("1", "one"), ("2", "two"), ("3", "three")] {
        append_event_at(&mut run, at.to_string(), "note", text, &config);
    }
    assert_eq!(texts(&run), vec!["two", "three"]);
    assert_eq!(run.events[1].at, "3");
    assert_eq!(run.events[1].event_type, "note");
}

#[test]
fn a_log_that_may_hold_nothing_stays_empty() {
    let mut run = run();
    append_event(&mut run, "note", "one", &bounds(0, 100));
    assert!(run.events.is_empty());
}

#[test]
fn a_log_over_its_bound_is_cut_down_to_it() {
    let mut run = run();
    for text in ["one", "two", "three"] {
        append_event(&mut run, "note", text, &bounds(9, 100));
    }
    append_event(&mut run, "note", "four", &bounds(2, 100));
    assert_eq!(texts(&run), vec!["three", "four"]);
}

#[test]
fn logged_text_is_redacted_before_it_is_clipped() {
    assert_eq!(shown_text("Bearer secret", &bounds(1, 10)), "Bearer [re");
    assert_eq!(shown_text("héllo", &bounds(1, 2)), "hé");
    assert_eq!(shown_text("héllo", &bounds(1, 5)), "héllo");
    assert_eq!(shown_text("x", &bounds(1, 0)), "");
}

#[test]
fn stamps_are_milliseconds_since_the_epoch() {
    let before = std::time::SystemTime::now()
        .duration_since(std::time::UNIX_EPOCH)
        .expect("after the epoch")
        .as_millis();
    let stamp: u128 = now().parse().expect("a number");
    assert!(before <= stamp && stamp < before + 60_000);
    let mut run = run();
    append_event(&mut run, "note", "x", &bounds(9, 9));
    assert!(run.events[0].at.parse::<u128>().expect("a number") >= stamp);
}

#[test]
fn a_stamp_counts_the_milliseconds_since_the_epoch() {
    assert_eq!(stamp(UNIX_EPOCH), "0");
    assert_eq!(stamp(UNIX_EPOCH + Duration::from_micros(1_234_567)), "1234");
    assert_eq!(stamp(UNIX_EPOCH - Duration::from_secs(5)), "0");
}
