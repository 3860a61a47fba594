//! The worker of a run: what to do next with the agent's process, step by step.

use crate::life;
use crate::life::{ExitReport, StampTexts, Stamps};
use crate::manager;
use crate::manager::RunManager;
use crate::run;
use crate::run::{AgentSpec, RunStatus, RunnerConfig};
use vstd::prelude::*;
use vstd::string::StringExecFns;

verus! {

/// A line that the agent printed, and the stream on which it came.
#[derive(Debug, PartialEq, Eq)]
pub struct OutputLine {
    pub stream: &'static str,
    pub line: String,
}

/// What the surroundings of a worker tell it.
#[derive(Debug, PartialEq, Eq)]
pub enum WorkerEvent {
    /// The worker may begin.
    Begin,
    /// The process could not be started.
    SpawnFailed(String),
    /// The process was started.
    Spawned,
    /// A line of output was waiting.
    Output(OutputLine),
    /// No line of output was waiting; whether the time of the run was up by then.
    Quiet { deadline_reached: bool },
    /// The process has not ended.
    StillRunning,
    /// The process has ended.
    Exited(ExitReport),
}

/// What a worker asks of its surroundings.
#[derive(Debug, Clone, Copy, PartialEq, Eq)]
pub enum WorkerAction {
    /// Start the process.
    Launch,
    /// Look for a line of output.
    ReadOutput,
    /// Wait a moment, then look for a line of output.
    RestThenRead,
    /// Look whether the process has ended, after killing it if `kill` says so.
    CheckExit { kill: bool },
    /// There is nothing left to do.
    Stop,
}

/// How far a worker has come.
#[derive(Debug, Clone, Copy, PartialEq, Eq)]
pub enum Phase {
    Ready,
    Launching,
    Watching,
    Checking,
    Closing(ExitReport),
    Done,
}

/// What is known of a worker.
pub ghost struct WorkerState {
    pub id: Seq<char>,
    pub cwd: Seq<char>,
    pub max_seconds: u64,
    pub timed_out: bool,
    pub phase: Phase,
}

impl WorkerState {
    /// Whether the worker can be told this now.
    pub open spec fn expects(self, event: WorkerEvent) -> bool {
        match event {
            WorkerEvent::Begin => self.phase is Ready,
            WorkerEvent::SpawnFailed(_) | WorkerEvent::Spawned => self.phase is Launching,
            WorkerEvent::Output(_) | WorkerEvent::Quiet { .. } => self.phase is Watching
                || self.phase is Closing,
            WorkerEvent::StillRunning | WorkerEvent::Exited(_) => self.phase is Checking,
        }
    }
}

/// The worker for a run that was started with this spec.
pub open spec fn fresh(spec: AgentSpec, id: Seq<char>, config: RunnerConfig) -> WorkerState {
    WorkerState {
        id,
        cwd: spec.cwd@,
        max_seconds: run::time_limit(spec.max_seconds, config),
        timed_out: false,
        phase: Phase::Ready,
    }
}

/// Whether an event is an answer to what the worker asked.
pub open spec fn answers(event: WorkerEvent, action: WorkerAction) -> bool {
    match action {
        WorkerAction::Launch => event is SpawnFailed || event is Spawned,
        WorkerAction::ReadOutput | WorkerAction::RestThenRead => event is Output || event is Quiet,
        WorkerAction::CheckExit { .. } => event is StillRunning || event is Exited,
        WorkerAction::Stop => false,
    }
}

/// Whether a worker that finds no output learns only now that its time is up.
pub open spec fn newly_overdue(worker: WorkerState, event: WorkerEvent) -> bool {
    &&& worker.phase is Watching
    &&& !worker.timed_out
    &&& event matches WorkerEvent::Quiet { deadline_reached } && deadline_reached
}

/// The state of the worker's run after an event.
pub open spec fn run_after(
    run: run::RunState,
    worker: WorkerState,
    event: WorkerEvent,
    stamps: StampTexts,
    config: RunnerConfig,
) -> run::RunState {
    match event {
        WorkerEvent::Begin => life::begun(run, worker.cwd, stamps, config),
        WorkerEvent::SpawnFailed(error) => life::failed(
            run,
            "Could not start agent: "@ + error@,
            stamps,
            config,
        ),
        WorkerEvent::Output(output) => life::heard(
            run,
            output.line@,
            output.stream@,
            stamps,
            config,
        ),
        WorkerEvent::Quiet { .. } => match worker.phase {
            Phase::Closing(report) => life::finished(
                run,
                Some(report),
                worker.timed_out,
                stamps,
                config,
            ),
            _ => if newly_overdue(worker, event) {
                life::overdue(run, worker.max_seconds, stamps, config)
            } else {
                run
            },
        },
        WorkerEvent::Spawned | WorkerEvent::StillRunning | WorkerEvent::Exited(_) => run,
    }
}

/// Whether a worker is told to begin on a run that is over already.
pub open spec fn begins_too_late(event: WorkerEvent, status: Option<RunStatus>) -> bool {
    &&& event is Begin
    &&& status matches Some(status) && !status.active()
}

/// The worker after an event. `status` says where its run stood, if it was known.
pub open spec fn worker_after(
    worker: WorkerState,
    event: WorkerEvent,
    status: Option<RunStatus>,
) -> WorkerState {
    let phase = match event {
        WorkerEvent::Begin => if begins_too_late(event, status) {
            Phase::Done
        } else {
            Phase::Launching
        },
        WorkerEvent::SpawnFailed(_) => Phase::Done,
        WorkerEvent::Spawned | WorkerEvent::StillRunning => Phase::Watching,
        WorkerEvent::Output(_) => worker.phase,
        WorkerEvent::Quiet { .. } => if worker.phase is Closing {
            Phase::Done
        } else {
            Phase::Checking
        },
        WorkerEvent::Exited(report) => Phase::Closing(report),
    };
    WorkerState { phase, timed_out: worker.timed_out || newly_overdue(worker, event), ..worker }
}

/// What the worker asks for after an event. `status` says where its run stood, if it was known.
pub open spec fn action_after(
    worker: WorkerState,
    event: WorkerEvent,
    status: Option<RunStatus>,
) -> WorkerAction {
    match event {
        WorkerEvent::Begin => if begins_too_late(event, status) {
            WorkerAction::Stop
        } else {
            WorkerAction::Launch
        },
        WorkerEvent::SpawnFailed(_) => WorkerAction::Stop,
        WorkerEvent::Spawned | WorkerEvent::Output(_) | WorkerEvent::Exited(_) =>
            WorkerAction::ReadOutput,
        WorkerEvent::StillRunning => WorkerAction::RestThenRead,
        WorkerEvent::Quiet { .. } => if worker.phase is Closing {
            WorkerAction::Stop
        } else {
            WorkerAction::CheckExit {
                kill: status == Some(RunStatus::Cancelled) || newly_overdue(worker, event),
            }
        },
    }
}

/// The worker of a run.
pub struct Worker {
    id: String,
    cwd: String,
    max_seconds: u64,
    timed_out: bool,
    phase: Phase,
}

impl View for Worker {
    type V = WorkerState;

    closed spec fn view(&self) -> WorkerState {
        WorkerState {
            id: self.id@,
            cwd: self.cwd@,
            max_seconds: self.max_seconds,
            timed_out: self.timed_out,
            phase: self.phase,
        }
    }
}

impl Worker {
    /// The worker for a run that was started with this spec.
    pub fn new(id: &str, spec: &AgentSpec, config: &RunnerConfig) -> (r: Self)
        ensures
            r@ == fresh(*spec, id@, *config),
    {
        Worker {
            id: id.to_string(),
            cwd: spec.cwd.clone(),
            max_seconds: config.max_seconds(spec.max_seconds),
            timed_out: false,
            phase: Phase::Ready,
        }
    }

    /// How many seconds the run may take.
    pub fn max_seconds(&self) -> (r: u64)
        ensures
            r == self@.max_seconds,
    {
        self.max_seconds
    }

    /// Whether the worker can be told this now.
    pub fn expects(&self, event: &WorkerEvent) -> (r: bool)
        ensures
            r == self@.expects(*event),
    {
        match event {
            WorkerEvent::Begin => matches!(self.phase, Phase::Ready),
            WorkerEvent::SpawnFailed(_) | WorkerEvent::Spawned => matches!(
                self.phase,
                Phase::Launching
            ),
            WorkerEvent::Output(_) | WorkerEvent::Quiet { .. } => matches!(
                self.phase,
                Phase::Watching | Phase::Closing(_)
            ),
            WorkerEvent::StillRunning | WorkerEvent::Exited(_) => matches!(
                self.phase,
                Phase::Checking
            ),
        }
    }
}

impl RunManager {
    /// Tells a worker what happened, at the given times, and learns what it asks for.
    pub fn step_at(&mut self, worker: &mut Worker, event: WorkerEvent, stamps: Stamps) -> (r:
        WorkerAction)
        requires
            old(self).well_formed(),
            old(worker)@.expects(event),
        ensures
            final(self).well_formed(),
            final(self).config() == old(self).config(),
            final(self)@ == manager::amended(
                old(self)@,
                old(worker)@.id,
                run_after(
                    old(self)@[old(worker)@.id],
                    old(worker)@,
                    event,
                    stamps@,
                    old(self).config(),
                ),
            ),
            final(worker)@ == worker_after(
                old(worker)@,
                event,
                manager::status_in(old(self)@, old(worker)@.id),
            ),
            r == action_after(
                old(worker)@,
                event,
                manager::status_in(old(self)@, old(worker)@.id),
            ),
    {
        proof {
            lemma_unchanged(self@, worker@.id);
        }
        match event {
            WorkerEvent::Begin => {
                let too_late = match self.status(worker.id.as_str()) {
                    Some(status) => !status.is_active(),
                    None => false,
                };
                if too_late {
                    worker.phase = Phase::Done;
                    WorkerAction::Stop
                } else {
                    self.begin_run(worker.id.as_str(), worker.cwd.as_str(), stamps);
                    worker.phase = Phase::Launching;
                    WorkerAction::Launch
                }
            },
            WorkerEvent::SpawnFailed(error) => {
                let mut text = String::from_str("Could not start agent: ");
                text.append(error.as_str());
                self.fail_run(worker.id.as_str(), text, stamps);
                worker.phase = Phase::Done;
                WorkerAction::Stop
            },
            WorkerEvent::Spawned => {
                worker.phase = Phase::Watching;
                WorkerAction::ReadOutput
            },
            WorkerEvent::Output(output) => {
                self.add_output(worker.id.as_str(), output.line.as_str(), output.stream, stamps);
                WorkerAction::ReadOutput
            },
            WorkerEvent::Quiet { deadline_reached } => match worker.phase {
                Phase::Closing(report) => {
                    self.finish_run(worker.id.as_str(), Some(report), worker.timed_out, stamps);
                    worker.phase = Phase::Done;
                    WorkerAction::Stop
                },
                _ => {
                    let mut kill = matches!(
                        self.status(worker.id.as_str()),
                        Some(RunStatus::Cancelled)
                    );
                    if !worker.timed_out && deadline_reached {
                        worker.timed_out = true;
                        self.time_out_run(worker.id.as_str(), worker.max_seconds, stamps);
                        kill = true;
                    }
                    worker.phase = Phase::Checking;
                    WorkerAction::CheckExit { kill }
                },
            },
            WorkerEvent::StillRunning => {
                worker.phase = Phase::Watching;
                WorkerAction::RestThenRead
            },
            WorkerEvent::Exited(report) => {
                worker.phase = Phase::Closing(report);
                WorkerAction::ReadOutput
            },
        }
    }

    /// Tells a worker what happened and learns what it asks for.
    pub fn step(&mut self, worker: &mut Worker, event: WorkerEvent) -> (r: WorkerAction)
        requires
            old(self).well_formed(),
            old(worker)@.expects(event),
        ensures
            final(self).well_formed(),
            final(self).config() == old(self).config(),
            exists|stamps: StampTexts| #[trigger]
                stamps.read() && final(self)@ == manager::amended(
                    old(self)@,
                    old(worker)@.id,
                    run_after(
                        old(self)@[old(worker)@.id],
                        old(worker)@,
                        event,
                        stamps,
                        old(self).config(),
                    ),
                ),
            final(worker)@ == worker_after(
                old(worker)@,
                event,
                manager::status_in(old(self)@, old(worker)@.id),
            ),
            r == action_after(
                old(worker)@,
                event,
                manager::status_in(old(self)@, old(worker)@.id),
            ),
    {
        let stamps = Stamps::read();
        assert(stamps@.read());
        self.step_at(worker, event, stamps)
    }
}

proof fn lemma_unchanged(runs: manager::Runs, id: Seq<char>)
    ensures
        manager::amended(runs, id, runs[id]) == runs,
{
    assert(manager::amended(runs, id, runs[id]) =~= runs);
}

/// Whatever the worker asks, every answer to it is one that it expects; and it asks for nothing
/// only when it is done.
pub proof fn law_every_answer_is_expected(
    worker: WorkerState,
    event: WorkerEvent,
    status: Option<RunStatus>,
    answer: WorkerEvent,
)
    requires
        worker.expects(event),
    ensures
        answers(answer, action_after(worker, event, status)) ==> worker_after(
            worker,
            event,
            status,
        ).expects(answer),
        action_after(worker, event, status) is Stop <==> worker_after(worker, event, status).phase
            is Done,
{
}

/// Whether a worker and its run tell the same story: before the worker begins its run is queued or
/// was cancelled; from then on it is running or was cancelled, and the only error noted is that its
/// time was up; when the worker is done its run is over.
pub open spec fn in_step(worker: WorkerState, run: run::RunState) -> bool {
    match worker.phase {
        Phase::Ready => {
            &&& run.status is Queued || run.status is Cancelled
            &&& run.error is None
            &&& !worker.timed_out
        },
        Phase::Done => !run.status.active(),
        _ => {
            &&& run.status is Running || run.status is Cancelled
            &&& run.error == (if worker.timed_out {
                Some(life::overdue_message(worker.max_seconds))
            } else {
                None
            })
        },
    }
}

/// A worker and its run stay in step, whatever happens, also when the run is cancelled meanwhile.
pub proof fn law_worker_and_run_stay_in_step(
    run: run::RunState,
    worker: WorkerState,
    event: WorkerEvent,
    stamps: StampTexts,
    config: RunnerConfig,
)
    requires
        in_step(worker, run),
    ensures
        worker.expects(event) ==> in_step(
            worker_after(worker, event, Some(run.status)),
            run_after(run, worker, event, stamps, config),
        ),
        in_step(worker, life::cancelled(run, stamps.first)),
{
}

/// How a run ends whose process has ended: cancelled if it was cancelled, completed if the process
/// ended well in time, failed otherwise, with the reason.
pub proof fn law_how_a_run_ends(
    run: run::RunState,
    worker: WorkerState,
    report: ExitReport,
    event: WorkerEvent,
    stamps: StampTexts,
    config: RunnerConfig,
)
    requires
        in_step(worker, run),
        worker.phase == Phase::Closing(report),
        event is Quiet,
    ensures
        ({
            let after = run_after(run, worker, event, stamps, config);
            &&& worker_after(worker, event, Some(run.status)).phase is Done
            &&& after.exit_code == report.code
            &&& after.finished_at == Some(stamps.first)
            &&& after.status == (if run.status is Cancelled {
                RunStatus::Cancelled
            } else if report.success && !worker.timed_out {
                RunStatus::Completed
            } else {
                RunStatus::Failed
            })
            &&& after.status is Failed ==> after.error == Some(
                if worker.timed_out {
                    life::overdue_message(worker.max_seconds)
                } else {
                    life::exit_message(Some(report))
                },
            )
            &&& after.status is Completed ==> after.error is None
        }),
{
}

/// A run stays cancelled through everything that its worker does, unless its process cannot be
/// started. If it was cancelled before its worker began, no process is started.
pub proof fn law_cancelled_stays_cancelled(
    run: run::RunState,
    worker: WorkerState,
    event: WorkerEvent,
    stamps: StampTexts,
    config: RunnerConfig,
)
    requires
        run.status is Cancelled,
    ensures
        !(event is SpawnFailed) ==> run_after(run, worker, event, stamps, config).status
            is Cancelled,
        event is Begin ==> run_after(run, worker, event, stamps, config) == run,
        event is Begin ==> action_after(worker, event, Some(run.status)) is Stop,
{
}

/// The process is killed whenever its run was cancelled, and once when its time is up; never
/// otherwise.
pub proof fn law_when_the_process_is_killed(
    worker: WorkerState,
    event: WorkerEvent,
    status: Option<RunStatus>,
)
    requires
        worker.phase is Watching,
        event is Quiet,
    ensures
        action_after(worker, event, status) == (WorkerAction::CheckExit {
            kill: status == Some(RunStatus::Cancelled) || (event->deadline_reached
                && !worker.timed_out),
        }),
        event->deadline_reached ==> worker_after(worker, event, status).timed_out,
{
}

/// Whatever a worker does, its run stays the same run, is not woken once it is over, and keeps its
/// log in its bounds.
pub proof fn law_every_step_continues_the_run(
    run: run::RunState,
    worker: WorkerState,
    event: WorkerEvent,
    stamps: StampTexts,
    config: RunnerConfig,
)
    ensures
        life::continues(run, run_after(run, worker, event, stamps, config), config),
{
    let error = match event {
        WorkerEvent::SpawnFailed(error) => "Could not start agent: "@ + error@,
        _ => Seq::empty(),
    };
    let (line, stream) = match event {
        WorkerEvent::Output(output) => (output.line@, output.stream@),
        _ => (Seq::empty(), Seq::empty()),
    };
    let exit = match worker.phase {
        Phase::Closing(report) => Some(report),
        _ => None,
    };
    life::law_every_change_continues_the_run(
        run,
        worker.cwd,
        error,
        line,
        stream,
        worker.max_seconds,
        exit,
        worker.timed_out,
        stamps,
        config,
    );
}

/// No step of a worker raises the number of active runs.
pub proof fn law_step_respects_the_bound(
    runs: manager::Runs,
    worker: WorkerState,
    event: WorkerEvent,
    stamps: StampTexts,
    config: RunnerConfig,
)
    requires
        runs.dom().finite(),
    ensures
        manager::active_ids(
            manager::amended(
                runs,
                worker.id,
                run_after(runs[worker.id], worker, event, stamps, config),
            ),
        ).len() <= manager::active_ids(runs).len(),
{
    law_every_step_continues_the_run(runs[worker.id], worker, event, stamps, config);
    manager::law_active_runs_only_drop(
        runs,
        worker.id,
        run_after(runs[worker.id], worker, event, stamps, config),
    );
}

/// The worker of a run has its id, its directory and its time, is ready, and its time is not up.
pub proof fn law_a_new_worker_is_ready(spec: AgentSpec, id: Seq<char>, config: RunnerConfig)
    ensures
        ({
            let worker = fresh(spec, id, config);
            &&& worker.id == id
            &&& worker.cwd == spec.cwd@
            &&& spec.max_seconds == 0 ==> worker.max_seconds == config.default_max_seconds
            &&& 0 < spec.max_seconds <= 86_400 ==> worker.max_seconds == spec.max_seconds
            &&& spec.max_seconds > 86_400 ==> worker.max_seconds == 86_400
            &&& !worker.timed_out
            &&& worker.phase is Ready
        }),
{
}

/// A worker expects to begin when it is ready, to hear of the start of the process when that was
/// asked for, of its output while it watches the process or closes the run, and of its end when it
/// checks for that.
pub proof fn law_what_a_worker_expects(worker: WorkerState, event: WorkerEvent)
    ensures
        worker.phase is Ready ==> (worker.expects(event) <==> event is Begin),
        worker.phase is Launching ==> (worker.expects(event) <==> event is SpawnFailed || event
            is Spawned),
        worker.phase is Watching ==> (worker.expects(event) <==> event is Output || event
            is Quiet),
        worker.phase is Checking ==> (worker.expects(event) <==> event is StillRunning || event
            is Exited),
        worker.phase is Closing ==> (worker.expects(event) <==> event is Output || event is Quiet),
        worker.phase is Done ==> !worker.expects(event),
{
}

/// What a worker asks for: to start the process when it begins, unless its run is over; to read on
/// after the start of the process, after each line and after its end; to look whether the process
/// has ended when there is no output; to rest if it has not; and to stop when the process could not
/// be started, and when there is no output left of one that has ended.
pub proof fn law_what_a_worker_asks_for(
    worker: WorkerState,
    event: WorkerEvent,
    status: Option<RunStatus>,
)
    requires
        worker.expects(event),
    ensures
        ({
            let action = action_after(worker, event, status);
            let over = status == Some(RunStatus::Completed) || status == Some(RunStatus::Failed)
                || status == Some(RunStatus::Cancelled);
            &&& event is Begin && !over ==> action is Launch
            &&& event is Begin && over ==> action is Stop
            &&& event is Spawned ==> action is ReadOutput
            &&& event is SpawnFailed ==> action is Stop
            &&& event is Output ==> action is ReadOutput
            &&& event is Quiet && worker.phase is Watching ==> action is CheckExit
            &&& event is Quiet && worker.phase is Closing ==> action is Stop
            &&& event is StillRunning ==> action is RestThenRead
            &&& event is Exited ==> action is ReadOutput
        }),
{
}

/// How far a worker has come after an event. It keeps its id, its directory and its time, and
/// learns that its time is up from a moment without output while it watches the process, for good.
pub proof fn law_what_a_worker_remembers(
    worker: WorkerState,
    event: WorkerEvent,
    status: Option<RunStatus>,
)
    requires
        worker.expects(event),
    ensures
        ({
            let after = worker_after(worker, event, status);
            let over = status == Some(RunStatus::Completed) || status == Some(RunStatus::Failed)
                || status == Some(RunStatus::Cancelled);
            &&& WorkerState { phase: worker.phase, timed_out: worker.timed_out, ..after } == worker
            &&& after.timed_out <==> worker.timed_out || (worker.phase is Watching && event is Quiet
                && event->deadline_reached)
            &&& event is Begin && !over ==> after.phase is Launching
            &&& event is Begin && over ==> after.phase is Done
            &&& event is Spawned ==> after.phase is Watching
            &&& event is SpawnFailed ==> after.phase is Done
            &&& event is Output ==> after.phase == worker.phase
            &&& event is Quiet && worker.phase is Watching ==> after.phase is Checking
            &&& event is Quiet && worker.phase is Closing ==> after.phase is Done
            &&& event is StillRunning ==> after.phase is Watching
            &&& event matches WorkerEvent::Exited(report) ==> after.phase == Phase::Closing(report)
        }),
{
}

/// What an event does to the run: a begin begins it; a process that could not be started fails it,
/// with the reason; a line is logged, also one that comes after the process has ended; the first
/// moment without output behind the time notes that; and when no output is left of a process that
/// has ended, its report ends the run. Nothing else touches it.
pub proof fn law_what_an_event_does_to_the_run(
    run: run::RunState,
    worker: WorkerState,
    event: WorkerEvent,
    stamps: StampTexts,
    config: RunnerConfig,
)
    requires
        worker.expects(event),
    ensures
        ({
            let after = run_after(run, worker, event, stamps, config);
            &&& event is Begin ==> after == life::begun(run, worker.cwd, stamps, config)
            &&& event matches WorkerEvent::SpawnFailed(error) ==> after == life::failed(
                run,
                "Could not start agent: "@ + error@,
                stamps,
                config,
            )
            &&& event matches WorkerEvent::Output(output) ==> after == life::heard(
                run,
                output.line@,
                output.stream@,
                stamps,
                config,
            )
            &&& event is Quiet && worker.phase is Closing ==> after == life::finished(
                run,
                Some(worker.phase->Closing_0),
                worker.timed_out,
                stamps,
                config,
            )
            &&& event is Quiet && worker.phase is Watching && event->deadline_reached
                && !worker.timed_out ==> after == life::overdue(
                run,
                worker.max_seconds,
                stamps,
                config,
            )
            &&& event is Quiet && worker.phase is Watching && !(event->deadline_reached
                && !worker.timed_out) ==> after == run
            &&& event is Spawned || event is StillRunning || event is Exited ==> after == run
        }),
{
}

} // verus!
