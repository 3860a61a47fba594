//! The agent-run core of Kaneo: a bounded, observable scheduler for agent processes.
//!
//! A [`RunManager`] keeps the runs and bounds how many are active. A [`Worker`] carries one run
//! through: it is told what happened to the agent's process and says what to do next, so that
//! starting, reading, waiting and killing stay with the program around the library.

pub mod clock;
pub mod desktop;
pub mod env_file;
pub mod event;
pub mod json;
pub mod life;
pub mod manager;
pub mod output;
pub mod redact;
pub mod run;
pub mod system;
pub mod text;
pub mod worker;

pub use crate::clock::now;
pub use crate::event::append_event;
pub use crate::life::ExitReport;
pub use crate::manager::{Cancellation, RunManager};
pub use crate::redact::redact_secrets;
pub use crate::run::{
    AgentEvent, AgentRun, AgentSpec, RunStatus, RunnerConfig, StartError,
    DEFAULT_MAX_ACTIVE_RUNS, DEFAULT_MAX_EVENTS, DEFAULT_MAX_EVENT_TEXT, DEFAULT_MAX_SECONDS,
};
pub use crate::worker::{OutputLine, Worker, WorkerAction, WorkerEvent};
