//! The life of a run: how each thing that happens to it changes what is known of it.

use crate::clock;
use crate::event;
use crate::output;
use crate::run;
use crate::run::{AgentRun, AgentSpec, EventState, RunState, RunStatus, RunnerConfig};
use crate::text;
use vstd::prelude::*;
use vstd::string::StringExecFns;

verus! {

/// What the system reports of a process that ended. A process that was killed has no code.
#[derive(Debug, Clone, Copy, PartialEq, Eq)]
pub struct ExitReport {
    pub code: Option<i32>,
    pub success: bool,
}

impl ExitReport {
    /// Whether the report is one that the system makes: success is the code 0.
    pub open spec fn credible(self) -> bool {
        self.success <==> self.code == Some(0i32)
    }
}

/// The readings of the clock that one change of a run needs, in the order in which they are taken.
pub struct Stamps {
    pub first: String,
    pub second: String,
    pub third: String,
}

/// What the readings of the clock say.
pub ghost struct StampTexts {
    pub first: Seq<char>,
    pub second: Seq<char>,
    pub third: Seq<char>,
}

impl StampTexts {
    /// Whether the readings are stamps.
    pub open spec fn read(self) -> bool {
        clock::is_stamp(self.first) && clock::is_stamp(self.second) && clock::is_stamp(self.third)
    }
}

impl View for Stamps {
    type V = StampTexts;

    open spec fn view(&self) -> StampTexts {
        StampTexts { first: self.first@, second: self.second@, third: self.third@ }
    }
}

impl Stamps {
    /// Reads the clock.
    pub fn read() -> (r: Self)
        ensures
            r@.read(),
    {
        let first = clock::now();
        let second = clock::now();
        let third = clock::now();
        Stamps { first, second, third }
    }
}

/// A run that was just admitted.
pub open spec fn queued(spec: AgentSpec, id: Seq<char>, created_at: Seq<char>) -> RunState {
    RunState {
        id,
        workspace_id: spec.workspace_id@,
        project_id: spec.project_id@,
        prompt: spec.prompt@,
        cwd: spec.cwd@,
        model: run::optional_text(spec.model),
        network_access: spec.network_access,
        status: RunStatus::Queued,
        created_at,
        started_at: None,
        finished_at: None,
        exit_code: None,
        error: None,
        events: Seq::empty(),
    }
}

/// The run when its worker has begun. A run that is over is left as it is.
pub open spec fn begun(
    run: RunState,
    cwd: Seq<char>,
    stamps: StampTexts,
    config: RunnerConfig,
) -> RunState {
    if run.status.active() {
        event::logged(
            RunState { status: RunStatus::Running, started_at: Some(stamps.first), ..run },
            stamps.second,
            "run.started"@,
            "Agent started in "@ + cwd + "."@,
            config,
        )
    } else {
        run
    }
}

/// The run when it could not be carried out.
pub open spec fn failed(
    run: RunState,
    error: Seq<char>,
    stamps: StampTexts,
    config: RunnerConfig,
) -> RunState {
    event::logged(
        event::logged(
            RunState {
                status: RunStatus::Failed,
                error: Some(error),
                finished_at: Some(stamps.first),
                ..run
            },
            stamps.second,
            "run.error"@,
            error,
            config,
        ),
        stamps.third,
        "run.failed"@,
        error,
        config,
    )
}

/// The run when its agent has printed a line.
pub open spec fn heard(
    run: RunState,
    line: Seq<char>,
    stream: Seq<char>,
    stamps: StampTexts,
    config: RunnerConfig,
) -> RunState {
    let (event_type, text) = output::output_event(line, stream);
    event::logged(run, stamps.first, event_type, text, config)
}

/// What is said of a run that took too long.
pub open spec fn overdue_message(max_seconds: u64) -> Seq<char> {
    "Agent run exceeded "@ + text::numeral(max_seconds as nat) + " seconds."@
}

/// The run when it has taken too long.
pub open spec fn overdue(
    run: RunState,
    max_seconds: u64,
    stamps: StampTexts,
    config: RunnerConfig,
) -> RunState {
    event::logged(
        RunState { error: Some(overdue_message(max_seconds)), ..run },
        stamps.first,
        "timeout"@,
        overdue_message(max_seconds),
        config,
    )
}

/// What is said of a process that ended badly.
pub open spec fn exit_message(exit: Option<ExitReport>) -> Seq<char> {
    match exit {
        Some(ExitReport { code: Some(code), .. }) => "Agent exited with code "@
            + text::signed_numeral(code as int) + "."@,
        Some(ExitReport { code: None, .. }) => "Agent exited without a code."@,
        None => "Agent process ended without an exit status."@,
    }
}

/// Whether a process ended well.
pub open spec fn succeeded(exit: Option<ExitReport>) -> bool {
    exit matches Some(report) && report.success
}

/// The run when its process has ended. A cancelled run stays cancelled; any other has failed if it
/// took too long or its process ended badly, and an error that was noted before stays.
pub open spec fn finished(
    run: RunState,
    exit: Option<ExitReport>,
    timed_out: bool,
    stamps: StampTexts,
    config: RunnerConfig,
) -> RunState {
    let run = RunState {
        exit_code: match exit {
            Some(report) => report.code,
            None => None,
        },
        finished_at: Some(stamps.first),
        ..run
    };
    if run.status is Cancelled {
        event::logged(run, stamps.second, "run.cancelled"@, "Agent run cancelled."@, config)
    } else if timed_out || !succeeded(exit) {
        let error = match run.error {
            Some(error) => error,
            None => exit_message(exit),
        };
        event::logged(
            RunState { status: RunStatus::Failed, error: Some(error), ..run },
            stamps.second,
            "run.failed"@,
            error,
            config,
        )
    } else {
        event::logged(
            RunState { status: RunStatus::Completed, ..run },
            stamps.second,
            "run.completed"@,
            "Agent run completed successfully."@,
            config,
        )
    }
}

/// The run when it was asked to stop. A run that is over is left as it is.
pub open spec fn cancelled(run: RunState, at: Seq<char>) -> RunState {
    if run.status.active() {
        RunState { status: RunStatus::Cancelled, finished_at: Some(at), ..run }
    } else {
        run
    }
}

/// Makes the run that a spec asks for.
pub fn queue(spec: &AgentSpec, id: String, created_at: String) -> (r: AgentRun)
    ensures
        r@ == queued(*spec, id@, created_at@),
{
    let r = AgentRun {
        id,
        workspace_id: spec.workspace_id.clone(),
        project_id: spec.project_id.clone(),
        prompt: spec.prompt.clone(),
        cwd: spec.cwd.clone(),
        model: spec.model.clone(),
        network_access: spec.network_access,
        status: RunStatus::Queued,
        created_at,
        started_at: None,
        finished_at: None,
        exit_code: None,
        error: None,
        events: Vec::new(),
    };
    assert(r@.events == Seq::<run::EventState>::empty());
    r
}

/// Marks an active run as running.
pub fn begin(run: &mut AgentRun, cwd: &str, stamps: Stamps, config: &RunnerConfig)
    ensures
        final(run)@ == begun(old(run)@, cwd@, stamps@, *config),
        continues(old(run)@, final(run)@, *config),
{
    let ghost before = run@;
    let ghost said = stamps@;
    if run.status.is_active() {
        let mut text = String::from_str("Agent started in ");
        text.append(cwd);
        text.append(".");
        run.status = RunStatus::Running;
        run.started_at = Some(stamps.first);
        event::append_event_at(run, stamps.second, "run.started", text.as_str(), config);
    }
    proof {
        law_every_change_continues_the_run(
            before,
            cwd@,
            Seq::empty(),
            Seq::empty(),
            Seq::empty(),
            0,
            None,
            false,
            said,
            *config,
        );
    }
}

/// Marks a run as failed for the given reason.
pub fn finish_failed(run: &mut AgentRun, error: String, stamps: Stamps, config: &RunnerConfig)
    ensures
        final(run)@ == failed(old(run)@, error@, stamps@, *config),
        continues(old(run)@, final(run)@, *config),
{
    let ghost before = run@;
    let ghost said = stamps@;
    run.status = RunStatus::Failed;
    run.error = Some(error.clone());
    run.finished_at = Some(stamps.first);
    event::append_event_at(run, stamps.second, "run.error", error.as_str(), config);
    event::append_event_at(run, stamps.third, "run.failed", error.as_str(), config);
    proof {
        law_every_change_continues_the_run(
            before,
            Seq::empty(),
            error@,
            Seq::empty(),
            Seq::empty(),
            0,
            None,
            false,
            said,
            *config,
        );
    }
}

/// Logs a line that the agent printed.
pub fn add_output(
    run: &mut AgentRun,
    line: &str,
    stream: &str,
    stamps: Stamps,
    config: &RunnerConfig,
)
    ensures
        final(run)@ == heard(old(run)@, line@, stream@, stamps@, *config),
        continues(old(run)@, final(run)@, *config),
{
    let ghost before = run@;
    let ghost said = stamps@;
    let (event_type, text) = output::parse_output(line, stream);
    event::append_event_at(run, stamps.first, event_type.as_str(), text.as_str(), config);
    proof {
        law_every_change_continues_the_run(
            before,
            Seq::empty(),
            Seq::empty(),
            line@,
            stream@,
            0,
            None,
            false,
            said,
            *config,
        );
    }
}

/// Notes that a run has taken too long.
pub fn time_out(run: &mut AgentRun, max_seconds: u64, stamps: Stamps, config: &RunnerConfig)
    ensures
        final(run)@ == overdue(old(run)@, max_seconds, stamps@, *config),
        continues(old(run)@, final(run)@, *config),
{
    let ghost before = run@;
    let ghost said = stamps@;
    let mut error = String::from_str("Agent run exceeded ");
    error.append(text::decimal(max_seconds as u128).as_str());
    error.append(" seconds.");
    run.error = Some(error.clone());
    event::append_event_at(run, stamps.first, "timeout", error.as_str(), config);
    proof {
        law_every_change_continues_the_run(
            before,
            Seq::empty(),
            Seq::empty(),
            Seq::empty(),
            Seq::empty(),
            max_seconds,
            None,
            false,
            said,
            *config,
        );
    }
}

/// What is said of a process that ended badly.
pub fn format_exit_status(exit: Option<ExitReport>) -> (r: String)
    ensures
        r@ == exit_message(exit),
{
    match exit {
        Some(report) => match report.code {
            Some(code) => {
                let mut r = String::from_str("Agent exited with code ");
                r.append(text::signed_decimal(code).as_str());
                r.append(".");
                r
            },
            None => "Agent exited without a code.".to_string(),
        },
        None => "Agent process ended without an exit status.".to_string(),
    }
}

/// Closes a run whose process has ended.
pub fn finish(
    run: &mut AgentRun,
    exit: Option<ExitReport>,
    timed_out: bool,
    stamps: Stamps,
    config: &RunnerConfig,
)
    ensures
        final(run)@ == finished(old(run)@, exit, timed_out, stamps@, *config),
        continues(old(run)@, final(run)@, *config),
{
    let ghost before = run@;
    let ghost said = stamps@;
    let success = match exit {
        Some(report) => report.success,
        None => false,
    };
    run.exit_code = match exit {
        Some(report) => report.code,
        None => None,
    };
    run.finished_at = Some(stamps.first);
    if run.status == RunStatus::Cancelled {
        event::append_event_at(
            run,
            stamps.second,
            "run.cancelled",
            "Agent run cancelled.",
            config,
        );
    } else if timed_out || !success {
        run.status = RunStatus::Failed;
        let error = match &run.error {
            Some(error) => error.clone(),
            None => format_exit_status(exit),
        };
        run.error = Some(error.clone());
        event::append_event_at(run, stamps.second, "run.failed", error.as_str(), config);
    } else {
        run.status = RunStatus::Completed;
        event::append_event_at(
            run,
            stamps.second,
            "run.completed",
            "Agent run completed successfully.",
            config,
        );
    }
    proof {
        law_every_change_continues_the_run(
            before,
            Seq::empty(),
            Seq::empty(),
            Seq::empty(),
            Seq::empty(),
            0,
            exit,
            timed_out,
            said,
            *config,
        );
    }
}

/// Marks an active run as cancelled.
pub fn cancel(run: &mut AgentRun, at: String)
    ensures
        final(run)@ == cancelled(old(run)@, at@),
{
    if run.status.is_active() {
        run.status = RunStatus::Cancelled;
        run.finished_at = Some(at);
    }
}

/// Whether two states are of one run: its id, what was asked for and when it was admitted are the
/// same.
pub open spec fn same_run(one: RunState, other: RunState) -> bool {
    &&& one.id == other.id
    &&& one.workspace_id == other.workspace_id
    &&& one.project_id == other.project_id
    &&& one.prompt == other.prompt
    &&& one.cwd == other.cwd
    &&& one.model == other.model
    &&& one.network_access == other.network_access
    &&& one.created_at == other.created_at
}

/// Whether one log can follow another: it is the same, or has events added at its end, where only
/// the oldest over the bound are missing.
pub open spec fn log_continues(
    before: Seq<EventState>,
    after: Seq<EventState>,
    config: RunnerConfig,
) -> bool {
    after == before || exists|added: Seq<EventState>|
        added.len() > 0 && #[trigger] event::extended(
            before,
            added,
            after,
            config.max_events as nat,
        )
}

/// Whether one state of a run can follow another: it is the same run, it is active only if it was
/// before, its log loses nothing but its oldest events, and keeps its bounds.
pub open spec fn continues(before: RunState, after: RunState, config: RunnerConfig) -> bool {
    &&& same_run(before, after)
    &&& log_continues(before.events, after.events, config)
    &&& after.status.active() ==> before.status.active()
    &&& event::log_bounded(before, config) ==> event::log_bounded(after, config)
}

/// Nothing that happens to a run makes it another run, wakes it once it is over, takes anything but
/// the oldest events from its log, or takes its log out of its bounds.
pub proof fn law_every_change_continues_the_run(
    run: RunState,
    cwd: Seq<char>,
    error: Seq<char>,
    line: Seq<char>,
    stream: Seq<char>,
    max_seconds: u64,
    exit: Option<ExitReport>,
    timed_out: bool,
    stamps: StampTexts,
    config: RunnerConfig,
)
    ensures
        continues(run, begun(run, cwd, stamps, config), config),
        continues(run, failed(run, error, stamps, config), config),
        continues(run, heard(run, line, stream, stamps, config), config),
        continues(run, overdue(run, max_seconds, stamps, config), config),
        continues(run, finished(run, exit, timed_out, stamps, config), config),
        continues(run, cancelled(run, stamps.first), config),
{
    assert forall|before: RunState, at: Seq<char>, event_type: Seq<char>, text: Seq<char>|
        event::log_bounded(before, config) implies event::log_bounded(
        #[trigger] event::logged(before, at, event_type, text, config),
        config,
    ) by {
        event::law_log_stays_bounded(before, at, event_type, text, config);
    }
    law_begin_starts_an_active_run(run, cwd, stamps, config);
    law_failure_is_told_twice(run, error, stamps, config);
    law_output_is_logged(run, line, stream, stamps, config);
    law_overdue_is_told(run, max_seconds, stamps, config);
    law_exit_ends_the_run(run, exit, timed_out, stamps, config);
}

/// Nothing that happens to a run makes it active once it is over: a begin makes an active run
/// running, a failure, an exit and a cancellation end it, output and a time that is up leave it
/// where it stands.
pub proof fn law_no_change_wakes_a_run(
    run: RunState,
    cwd: Seq<char>,
    error: Seq<char>,
    line: Seq<char>,
    stream: Seq<char>,
    max_seconds: u64,
    exit: Option<ExitReport>,
    timed_out: bool,
    stamps: StampTexts,
    config: RunnerConfig,
)
    ensures
        begun(run, cwd, stamps, config).status.active() ==> run.status.active(),
        run.status.active() ==> begun(run, cwd, stamps, config).status is Running,
        !failed(run, error, stamps, config).status.active(),
        !finished(run, exit, timed_out, stamps, config).status.active(),
        !cancelled(run, stamps.first).status.active(),
        heard(run, line, stream, stamps, config).status == run.status,
        overdue(run, max_seconds, stamps, config).status == run.status,
{
}

/// What a reader can rely on in a run: while it is queued nothing has happened to it; completed, it
/// has the exit code 0 and no error; failed, it has an error; over, it has the time at which it
/// ended.
pub open spec fn coherent(run: RunState) -> bool {
    &&& run.status is Queued ==> {
        &&& run.started_at is None
        &&& run.finished_at is None
        &&& run.exit_code is None
        &&& run.error is None
        &&& run.events.len() == 0
    }
    &&& run.status is Completed ==> run.exit_code == Some(0i32) && run.error is None
    &&& run.status is Failed ==> run.error is Some
    &&& !run.status.active() ==> run.finished_at is Some
}

/// A run whose process has ended is no longer active. It is cancelled if it was cancelled before,
/// else completed if its process ended well in time, else failed with a reason.
pub proof fn law_finished_run_is_over(
    run: RunState,
    exit: Option<ExitReport>,
    timed_out: bool,
    stamps: StampTexts,
    config: RunnerConfig,
)
    ensures
        ({
            let after = finished(run, exit, timed_out, stamps, config);
            &&& !after.status.active()
            &&& after.finished_at is Some
            &&& after.status is Cancelled <==> run.status is Cancelled
            &&& after.status is Completed <==> !(run.status is Cancelled) && succeeded(exit)
                && !timed_out
            &&& after.status is Failed ==> after.error is Some
        }),
{
}

/// Cancelling ends an active run and changes no other; a second time it changes nothing.
pub proof fn law_cancelling_ends_a_run(run: RunState, at: Seq<char>, later: Seq<char>)
    ensures
        !cancelled(run, at).status.active(),
        run.status.active() ==> cancelled(run, at).status is Cancelled,
        !run.status.active() ==> cancelled(run, at) == run,
        cancelled(cancelled(run, at), later) == cancelled(run, at),
{
}

/// A run that took too long fails with that reason, however its process ends, unless it was
/// cancelled.
pub proof fn law_overdue_run_fails(
    run: RunState,
    max_seconds: u64,
    exit: Option<ExitReport>,
    noted: StampTexts,
    closed_at: StampTexts,
    config: RunnerConfig,
)
    requires
        !(run.status is Cancelled),
    ensures
        ({
            let after = finished(
                overdue(run, max_seconds, noted, config),
                exit,
                true,
                closed_at,
                config,
            );
            &&& after.status is Failed
            &&& after.error == Some(overdue_message(max_seconds))
        }),
{
}

/// The readings of the clock are kept in their order.
pub proof fn law_stamps_keep_their_order(stamps: Stamps)
    ensures
        stamps@.first == stamps.first@,
        stamps@.second == stamps.second@,
        stamps@.third == stamps.third@,
{
}

/// A run that was just admitted says what was asked for, is queued, and nothing has happened to it.
pub proof fn law_a_new_run_is_as_asked(spec: AgentSpec, id: Seq<char>, created_at: Seq<char>)
    ensures
        ({
            let run = queued(spec, id, created_at);
            &&& run.id == id
            &&& run.workspace_id == spec.workspace_id@
            &&& run.project_id == spec.project_id@
            &&& run.prompt == spec.prompt@
            &&& run.cwd == spec.cwd@
            &&& run.model is Some <==> spec.model is Some
            &&& spec.model matches Some(model) ==> run.model == Some(model@)
            &&& run.network_access == spec.network_access
            &&& run.status is Queued
            &&& run.created_at == created_at
            &&& run.started_at is None
            &&& run.finished_at is None
            &&& run.exit_code is None
            &&& run.error is None
            &&& run.events.len() == 0
        }),
{
}

/// A begin makes a queued or running run running, notes when, and logs the directory. It changes
/// nothing else, and nothing at all of a run that is over.
pub proof fn law_begin_starts_an_active_run(
    run: RunState,
    cwd: Seq<char>,
    stamps: StampTexts,
    config: RunnerConfig,
)
    ensures
        run.status is Queued || run.status is Running ==> {
            let after = begun(run, cwd, stamps, config);
            let event = EventState {
                at: stamps.second,
                event_type: "run.started"@,
                text: event::shown("Agent started in "@ + cwd + "."@, config),
            };
            &&& after.status is Running
            &&& after.started_at == Some(stamps.first)
            &&& event::extended(run.events, seq![event], after.events, config.max_events as nat)
            &&& RunState {
                status: run.status,
                started_at: run.started_at,
                events: run.events,
                ..after
            } == run
        },
        !(run.status is Queued) && !(run.status is Running) ==> begun(run, cwd, stamps, config)
            == run,
{
    event::law_logging_adds_one_event(
        RunState { status: RunStatus::Running, started_at: Some(stamps.first), ..run },
        stamps.second,
        "run.started"@,
        "Agent started in "@ + cwd + "."@,
        config,
    );
}

/// A failure ends the run with its reason, and logs the reason as an error and as the end of the
/// run. It changes nothing else.
pub proof fn law_failure_is_told_twice(
    run: RunState,
    error: Seq<char>,
    stamps: StampTexts,
    config: RunnerConfig,
)
    ensures
        ({
            let after = failed(run, error, stamps, config);
            let text = event::shown(error, config);
            let added = seq![
                EventState { at: stamps.second, event_type: "run.error"@, text },
                EventState { at: stamps.third, event_type: "run.failed"@, text },
            ];
            &&& after.status is Failed
            &&& after.error == Some(error)
            &&& after.finished_at == Some(stamps.first)
            &&& event::extended(run.events, added, after.events, config.max_events as nat)
            &&& RunState {
                status: run.status,
                error: run.error,
                finished_at: run.finished_at,
                events: run.events,
                ..after
            } == run
        }),
{
    let first = RunState {
        status: RunStatus::Failed,
        error: Some(error),
        finished_at: Some(stamps.first),
        ..run
    };
    let between = event::logged(first, stamps.second, "run.error"@, error, config);
    event::law_logging_adds_one_event(first, stamps.second, "run.error"@, error, config);
    event::law_logging_adds_one_event(between, stamps.third, "run.failed"@, error, config);
    let text = event::shown(error, config);
    let one = seq![EventState { at: stamps.second, event_type: "run.error"@, text }];
    let other = seq![EventState { at: stamps.third, event_type: "run.failed"@, text }];
    event::lemma_extended_twice(
        run.events,
        one,
        between.events,
        other,
        failed(run, error, stamps, config).events,
        config.max_events as nat,
    );
    assert(one + other =~= seq![one[0], other[0]]);
}

/// A printed line is logged with the type and the text of its event. It changes nothing else.
pub proof fn law_output_is_logged(
    run: RunState,
    line: Seq<char>,
    stream: Seq<char>,
    stamps: StampTexts,
    config: RunnerConfig,
)
    ensures
        ({
            let after = heard(run, line, stream, stamps, config);
            let event = EventState {
                at: stamps.first,
                event_type: output::output_event(line, stream).0,
                text: event::shown(output::output_event(line, stream).1, config),
            };
            &&& event::extended(run.events, seq![event], after.events, config.max_events as nat)
            &&& RunState { events: run.events, ..after } == run
        }),
{
    let (event_type, text) = output::output_event(line, stream);
    event::law_logging_adds_one_event(run, stamps.first, event_type, text, config);
}

/// A time that is up becomes the error of the run, with the seconds in it, and is logged. It
/// changes nothing else: the run stays where it stands.
pub proof fn law_overdue_is_told(
    run: RunState,
    max_seconds: u64,
    stamps: StampTexts,
    config: RunnerConfig,
)
    ensures
        ({
            let after = overdue(run, max_seconds, stamps, config);
            let said = "Agent run exceeded "@ + text::numeral(max_seconds as nat) + " seconds."@;
            let event = EventState {
                at: stamps.first,
                event_type: "timeout"@,
                text: event::shown(said, config),
            };
            &&& after.error == Some(said)
            &&& event::extended(run.events, seq![event], after.events, config.max_events as nat)
            &&& RunState { error: run.error, events: run.events, ..after } == run
        }),
{
    event::law_logging_adds_one_event(
        RunState { error: Some(overdue_message(max_seconds)), ..run },
        stamps.first,
        "timeout"@,
        overdue_message(max_seconds),
        config,
    );
}

/// What an exit says of itself: its code, that it has none, or that nothing is known of it.
pub proof fn law_exits_are_told_apart(code: i32, success: bool)
    ensures
        exit_message(Some(ExitReport { code: Some(code), success })) == "Agent exited with code "@
            + text::signed_numeral(code as int) + "."@,
        exit_message(Some(ExitReport { code: None, success })) == "Agent exited without a code."@,
        exit_message(None) == "Agent process ended without an exit status."@,
{
}

/// An exit notes its code and its time, and ends the run: a cancelled one stays cancelled, one in
/// time with a good exit is completed, any other has failed, with the error that was noted before
/// or else what the exit says. The end is logged, and nothing else changes.
pub proof fn law_exit_ends_the_run(
    run: RunState,
    exit: Option<ExitReport>,
    timed_out: bool,
    stamps: StampTexts,
    config: RunnerConfig,
)
    ensures
        ({
            let after = finished(run, exit, timed_out, stamps, config);
            let good = exit is Some && exit->0.success && !timed_out;
            let error = if run.error is Some {
                run.error->0
            } else {
                exit_message(exit)
            };
            let (event_type, said) = if run.status is Cancelled {
                ("run.cancelled"@, "Agent run cancelled."@)
            } else if good {
                ("run.completed"@, "Agent run completed successfully."@)
            } else {
                ("run.failed"@, error)
            };
            let event = EventState {
                at: stamps.second,
                event_type,
                text: event::shown(said, config),
            };
            &&& exit is Some ==> after.exit_code == exit->0.code
            &&& exit is None ==> after.exit_code is None
            &&& after.finished_at == Some(stamps.first)
            &&& after.status is Cancelled <==> run.status is Cancelled
            &&& after.status is Completed <==> !(run.status is Cancelled) && good
            &&& after.status is Failed <==> !(run.status is Cancelled) && !good
            &&& after.status is Failed ==> after.error == Some(error)
            &&& !(after.status is Failed) ==> after.error == run.error
            &&& event::extended(run.events, seq![event], after.events, config.max_events as nat)
            &&& RunState {
                exit_code: run.exit_code,
                finished_at: run.finished_at,
                status: run.status,
                error: run.error,
                events: run.events,
                ..after
            } == run
        }),
{
    let after = finished(run, exit, timed_out, stamps, config);
    let error = match run.error {
        Some(error) => error,
        None => exit_message(exit),
    };
    let (event_type, said) = if run.status is Cancelled {
        ("run.cancelled"@, "Agent run cancelled."@)
    } else if exit is Some && exit->0.success && !timed_out {
        ("run.completed"@, "Agent run completed successfully."@)
    } else {
        ("run.failed"@, error)
    };
    event::law_logging_adds_one_event(
        RunState { events: run.events, ..after },
        stamps.second,
        event_type,
        said,
        config,
    );
}

/// Cancelling changes nothing of an active run but where it stands and when it ended: its log, its
/// start, its exit code and its error stay. Of a run that is over it changes nothing at all.
pub proof fn law_cancelling_keeps_what_is_known(run: RunState, at: Seq<char>)
    ensures
        ({
            let after = cancelled(run, at);
            &&& after.events == run.events
            &&& after.started_at == run.started_at
            &&& after.exit_code == run.exit_code
            &&& after.error == run.error
            &&& RunState { status: run.status, finished_at: run.finished_at, ..after } == run
            &&& run.status is Queued || run.status is Running ==> after.status is Cancelled
                && after.finished_at == Some(at)
            &&& !(run.status is Queued) && !(run.status is Running) ==> after == run
        }),
{
}

} // verus!
