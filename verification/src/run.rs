//! Agent runs: what is asked for, what is kept of it, and what can be refused.

use crate::text;
use std::collections::BTreeMap;
use vstd::prelude::*;
use vstd::string::StringExecFns;

verus! {

pub const DEFAULT_MAX_ACTIVE_RUNS: usize = 2;

pub const DEFAULT_MAX_EVENTS: usize = 1_000;

pub const DEFAULT_MAX_EVENT_TEXT: usize = 12_000;

pub const DEFAULT_MAX_SECONDS: u64 = 60 * 60;

/// The longest time for which a run can ask.
pub const LONGEST_MAX_SECONDS: u64 = 24 * 60 * 60;

/// Where a run stands.
#[derive(Debug, Clone, Copy, PartialEq, Eq, Structural)]
pub enum RunStatus {
    Queued,
    Running,
    Completed,
    Failed,
    Cancelled,
}

impl RunStatus {
    /// Whether the run still holds a place among the active runs.
    pub open spec fn active(self) -> bool {
        self is Queued || self is Running
    }

    /// Whether the run still holds a place among the active runs.
    pub fn is_active(self) -> (r: bool)
        ensures
            r == self.active(),
            r == (self is Queued || self is Running),
    {
        matches!(self, Self::Queued | Self::Running)
    }

    /// The exit code with which the command-line runner reports a run that ended so: 0 for a
    /// completed run, 1 for any other.
    pub fn exit_code(self) -> (r: i32)
        ensures
            r == (if self is Completed {
                0int
            } else {
                1int
            }),
    {
        match self {
            RunStatus::Completed => 0,
            RunStatus::Queued | RunStatus::Running | RunStatus::Failed | RunStatus::Cancelled => 1,
        }
    }
}

/// The text that may be there.
pub open spec fn optional_text(s: Option<String>) -> Option<Seq<char>> {
    match s {
        Some(s) => Some(s@),
        None => None,
    }
}

/// What an event says.
pub ghost struct EventState {
    pub at: Seq<char>,
    pub event_type: Seq<char>,
    pub text: Seq<char>,
}

/// Something that happened in a run.
#[derive(Debug, PartialEq, Eq)]
pub struct AgentEvent {
    pub at: String,
    pub event_type: String,
    pub text: String,
}

impl View for AgentEvent {
    type V = EventState;

    open spec fn view(&self) -> EventState {
        EventState { at: self.at@, event_type: self.event_type@, text: self.text@ }
    }
}

impl Clone for AgentEvent {
    fn clone(&self) -> (r: Self)
        ensures
            r@ == self@,
    {
        AgentEvent {
            at: self.at.clone(),
            event_type: self.event_type.clone(),
            text: self.text.clone(),
        }
    }
}

/// What is known of a run.
pub ghost struct RunState {
    pub id: Seq<char>,
    pub workspace_id: Seq<char>,
    pub project_id: Seq<char>,
    pub prompt: Seq<char>,
    pub cwd: Seq<char>,
    pub model: Option<Seq<char>>,
    pub network_access: bool,
    pub status: RunStatus,
    pub created_at: Seq<char>,
    pub started_at: Option<Seq<char>>,
    pub finished_at: Option<Seq<char>>,
    pub exit_code: Option<i32>,
    pub error: Option<Seq<char>>,
    pub events: Seq<EventState>,
}

/// A run as the manager keeps it.
#[derive(Debug, PartialEq, Eq)]
pub struct AgentRun {
    pub id: String,
    pub workspace_id: String,
    pub project_id: String,
    pub prompt: String,
    pub cwd: String,
    pub model: Option<String>,
    pub network_access: bool,
    pub status: RunStatus,
    pub created_at: String,
    pub started_at: Option<String>,
    pub finished_at: Option<String>,
    pub exit_code: Option<i32>,
    pub error: Option<String>,
    pub events: Vec<AgentEvent>,
}

impl View for AgentRun {
    type V = RunState;

    open spec fn view(&self) -> RunState {
        RunState {
            id: self.id@,
            workspace_id: self.workspace_id@,
            project_id: self.project_id@,
            prompt: self.prompt@,
            cwd: self.cwd@,
            model: optional_text(self.model),
            network_access: self.network_access,
            status: self.status,
            created_at: self.created_at@,
            started_at: optional_text(self.started_at),
            finished_at: optional_text(self.finished_at),
            exit_code: self.exit_code,
            error: optional_text(self.error),
            events: self.events@.map_values(|event: AgentEvent| event@),
        }
    }
}

impl Clone for AgentRun {
    fn clone(&self) -> (r: Self)
        ensures
            r@ == self@,
    {
        let r = AgentRun {
            id: self.id.clone(),
            workspace_id: self.workspace_id.clone(),
            project_id: self.project_id.clone(),
            prompt: self.prompt.clone(),
            cwd: self.cwd.clone(),
            model: self.model.clone(),
            network_access: self.network_access,
            status: self.status,
            created_at: self.created_at.clone(),
            started_at: self.started_at.clone(),
            finished_at: self.finished_at.clone(),
            exit_code: self.exit_code,
            error: self.error.clone(),
            events: self.events.clone(),
        };
        assert(r@.events == self@.events);
        r
    }
}

/// What is asked of an agent.
#[derive(Debug, Clone)]
pub struct AgentSpec {
    pub id: Option<String>,
    pub workspace_id: String,
    pub project_id: String,
    pub prompt: String,
    pub cwd: String,
    pub model: Option<String>,
    pub network_access: bool,
    pub command: String,
    pub command_args: Vec<String>,
    pub environment: BTreeMap<String, String>,
    pub max_seconds: u64,
}

/// The bounds of a manager.
#[derive(Debug, Clone, Copy)]
pub struct RunnerConfig {
    pub max_active_runs: usize,
    pub max_events: usize,
    pub max_event_text: usize,
    pub default_max_seconds: u64,
}

impl Default for RunnerConfig {
    fn default() -> (r: Self)
        ensures
            r.max_active_runs == DEFAULT_MAX_ACTIVE_RUNS,
            r.max_events == DEFAULT_MAX_EVENTS,
            r.max_event_text == DEFAULT_MAX_EVENT_TEXT,
            r.default_max_seconds == DEFAULT_MAX_SECONDS,
            r.max_active_runs == 2,
            r.max_events == 1_000,
            r.max_event_text == 12_000,
            r.default_max_seconds == 3_600,
    {
        Self {
            max_active_runs: DEFAULT_MAX_ACTIVE_RUNS,
            max_events: DEFAULT_MAX_EVENTS,
            max_event_text: DEFAULT_MAX_EVENT_TEXT,
            default_max_seconds: DEFAULT_MAX_SECONDS,
        }
    }
}

/// How long a run may take: what it asks for, at most a day; the configured time if it asks for
/// nothing.
pub open spec fn time_limit(asked: u64, config: RunnerConfig) -> u64 {
    if asked == 0 {
        config.default_max_seconds
    } else if asked > LONGEST_MAX_SECONDS {
        LONGEST_MAX_SECONDS
    } else {
        asked
    }
}

/// A run that asks for a time gets some time, no more than it asked for, and no more than a day.
pub proof fn law_asked_time_is_capped(asked: u64, config: RunnerConfig)
    requires
        asked > 0,
    ensures
        0 < time_limit(asked, config) <= asked,
        time_limit(asked, config) <= LONGEST_MAX_SECONDS,
{
}

impl RunnerConfig {
    /// How long a run may take that asks for `asked` seconds.
    pub fn max_seconds(&self, asked: u64) -> (r: u64)
        ensures
            r == time_limit(asked, *self),
            asked == 0 ==> r == self.default_max_seconds,
            0 < asked <= 86_400 ==> r == asked,
            asked > 86_400 ==> r == 86_400,
    {
        if asked == 0 {
            self.default_max_seconds
        } else if asked > LONGEST_MAX_SECONDS {
            LONGEST_MAX_SECONDS
        } else {
            asked
        }
    }
}

/// Why a run was not started.
#[derive(Debug, PartialEq, Eq)]
pub enum StartError {
    AtCapacity { max_active_runs: usize },
    InvalidWorkingDirectory(String),
}

impl StartError {
    /// What the error says.
    pub open spec fn said(self) -> Seq<char> {
        match self {
            StartError::AtCapacity { max_active_runs } =>
                "Kaneo already has the maximum number of active agent runs ("@ + text::numeral(
                max_active_runs as nat,
            ) + ")."@,
            StartError::InvalidWorkingDirectory(path) =>
                "Agent working directory is not a directory: "@ + path@,
        }
    }

    /// What the error says.
    pub fn message(&self) -> (r: String)
        ensures
            r@ == self.said(),
            *self matches StartError::AtCapacity { max_active_runs } ==> r@
                == "Kaneo already has the maximum number of active agent runs ("@ + text::numeral(
                max_active_runs as nat,
            ) + ")."@,
            *self matches StartError::InvalidWorkingDirectory(path) ==> r@
                == "Agent working directory is not a directory: "@ + path@,
    {
        match self {
            StartError::AtCapacity { max_active_runs } => {
                let mut r = String::from_str(
                    "Kaneo already has the maximum number of active agent runs (",
                );
                r.append(text::decimal(*max_active_runs as u128).as_str());
                r.append(").");
                r
            },
            StartError::InvalidWorkingDirectory(path) => {
                let mut r = String::from_str("Agent working directory is not a directory: ");
                r.append(path.as_str());
                r
            },
        }
    }
}

/// A run is active until it ends: queued and running runs are, the others are not.
pub proof fn law_active_until_the_end(status: RunStatus)
    ensures
        status is Queued ==> status.active(),
        status is Running ==> status.active(),
        status is Completed ==> !status.active(),
        status is Failed ==> !status.active(),
        status is Cancelled ==> !status.active(),
{
}

/// A run gets the seconds that it asks for up to those of a day, a day if it asks for more, and the
/// configured time if it asks for none.
pub proof fn law_asked_time_is_given(asked: u64, config: RunnerConfig)
    ensures
        asked == 0 ==> time_limit(asked, config) == config.default_max_seconds,
        0 < asked <= 86_400 ==> time_limit(asked, config) == asked,
        asked > 86_400 ==> time_limit(asked, config) == 86_400,
{
}

/// A run shows each thing that is kept of it under its own name.
pub proof fn law_a_run_shows_what_is_kept(run: AgentRun)
    ensures
        run@.id == run.id@,
        run@.workspace_id == run.workspace_id@,
        run@.project_id == run.project_id@,
        run@.prompt == run.prompt@,
        run@.cwd == run.cwd@,
        run@.network_access == run.network_access,
        run@.status == run.status,
        run@.created_at == run.created_at@,
        run@.exit_code == run.exit_code,
        run.model is Some ==> run@.model == Some(run.model->0@),
        run.model is None ==> run@.model is None,
        run.started_at is Some ==> run@.started_at == Some(run.started_at->0@),
        run.started_at is None ==> run@.started_at is None,
        run.finished_at is Some ==> run@.finished_at == Some(run.finished_at->0@),
        run.finished_at is None ==> run@.finished_at is None,
        run.error is Some ==> run@.error == Some(run.error->0@),
        run.error is None ==> run@.error is None,
        run@.events.len() == run.events@.len(),
        forall|i: int|
            0 <= i < run.events@.len() ==> {
                let event = #[trigger] run@.events[i];
                &&& event.at == run.events@[i].at@
                &&& event.event_type == run.events@[i].event_type@
                &&& event.text == run.events@[i].text@
            },
{
}

} // verus!
