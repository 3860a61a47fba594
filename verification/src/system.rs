//! The runs of a manager together with their workers: what holds in every state that they reach.

use crate::event;
use crate::life;
use crate::life::StampTexts;
use crate::manager;
use crate::run::{AgentSpec, RunnerConfig};
use crate::worker;
use crate::worker::{Phase, WorkerEvent, WorkerState};
use vstd::prelude::*;

verus! {

/// The runs of a manager, and the worker of each.
pub ghost struct System {
    pub runs: manager::Runs,
    pub workers: Map<Seq<char>, WorkerState>,
}

/// Something that happens to the runs: one is asked for ([`RunManager::start_at`], then
/// [`Worker::new`] if it was admitted), one is cancelled ([`RunManager::cancel_at`]), or the worker
/// of one is told of an event ([`RunManager::step_at`]).
///
/// [`RunManager::start_at`]: crate::manager::RunManager::start_at
/// [`RunManager::cancel_at`]: crate::manager::RunManager::cancel_at
/// [`RunManager::step_at`]: crate::manager::RunManager::step_at
/// [`Worker::new`]: crate::worker::Worker::new
pub ghost enum Move {
    Start { spec: AgentSpec, cwd_is_dir: bool, fresh_id: Seq<char>, at: Seq<char> },
    Cancel { id: Seq<char>, at: Seq<char> },
    Tell { id: Seq<char>, event: WorkerEvent, stamps: StampTexts },
}

/// Whether a move can be made: an id is not used twice, and a worker is told nothing but what it
/// expects, and of its process nothing but what the system reports.
pub open spec fn possible(system: System, step: Move) -> bool {
    match step {
        Move::Start { spec, fresh_id, .. } => !system.runs.dom().contains(
            manager::chosen_id(spec, fresh_id),
        ),
        Move::Cancel { .. } => true,
        Move::Tell { id, event, .. } => {
            &&& system.workers.dom().contains(id)
            &&& system.workers[id].expects(event)
            &&& event matches WorkerEvent::Exited(report) ==> report.credible()
        },
    }
}

/// The runs and their workers after a move.
pub open spec fn moved(system: System, step: Move, config: RunnerConfig) -> System {
    match step {
        Move::Start { spec, cwd_is_dir, fresh_id, at } => if manager::admissible(
            system.runs,
            config,
            cwd_is_dir,
        ) {
            let id = manager::chosen_id(spec, fresh_id);
            System {
                runs: system.runs.insert(id, life::queued(spec, id, at)),
                workers: system.workers.insert(id, worker::fresh(spec, id, config)),
            }
        } else {
            system
        },
        Move::Cancel { id, at } => System {
            runs: manager::amended(system.runs, id, life::cancelled(system.runs[id], at)),
            ..system
        },
        Move::Tell { id, event, stamps } => System {
            runs: manager::amended(
                system.runs,
                id,
                worker::run_after(system.runs[id], system.workers[id], event, stamps, config),
            ),
            workers: system.workers.insert(
                id,
                worker::worker_after(
                    system.workers[id],
                    event,
                    manager::status_in(system.runs, id),
                ),
            ),
        },
    }
}

/// Where a new manager gets by these moves.
pub open spec fn reached(moves: Seq<Move>, config: RunnerConfig) -> System
    decreases moves.len(),
{
    if moves.len() == 0 {
        System { runs: Map::empty(), workers: Map::empty() }
    } else {
        moved(reached(moves.drop_last(), config), moves.last(), config)
    }
}

/// Whether each of these moves can be made in its turn.
pub open spec fn can_happen(moves: Seq<Move>, config: RunnerConfig) -> bool
    decreases moves.len(),
{
    moves.len() > 0 ==> {
        &&& can_happen(moves.drop_last(), config)
        &&& possible(reached(moves.drop_last(), config), moves.last())
    }
}

/// Whether a run and its worker belong together and are as they should be.
pub open spec fn sound_run(system: System, id: Seq<char>, config: RunnerConfig) -> bool {
    &&& system.runs[id].id == id
    &&& system.workers[id].id == id
    &&& system.workers[id].cwd == system.runs[id].cwd
    &&& life::coherent(system.runs[id])
    &&& event::log_bounded(system.runs[id], config)
    &&& worker::in_step(system.workers[id], system.runs[id])
    &&& system.workers[id].phase matches Phase::Closing(report) ==> report.credible()
}

/// Whether all is as it should be: there are finitely many runs, each has its worker, no more are
/// active than may be, and each by itself is sound.
pub open spec fn sound(system: System, config: RunnerConfig) -> bool {
    &&& system.runs.dom().finite()
    &&& system.runs.dom() == system.workers.dom()
    &&& manager::active_ids(system.runs).len() <= config.max_active_runs
    &&& forall|id: Seq<char>| #[trigger]
        system.runs.dom().contains(id) ==> sound_run(system, id, config)
}

/// In every state that runs and workers reach, whatever is asked for, cancelled and reported, and
/// in whatever order, no more runs are active than may be; every run is coherent, keeps its log in
/// its bounds and stays in step with its worker; and when its worker is done, it is over.
pub proof fn law_every_reached_state_is_sound(moves: Seq<Move>, config: RunnerConfig)
    requires
        can_happen(moves, config),
    ensures
        sound(reached(moves, config), config),
    decreases moves.len(),
{
    if moves.len() == 0 {
        assert(manager::active_ids(reached(moves, config).runs) =~= Set::empty());
    } else {
        law_every_reached_state_is_sound(moves.drop_last(), config);
        law_every_move_keeps_the_whole_sound(
            reached(moves.drop_last(), config),
            moves.last(),
            config,
        );
    }
}

/// No move that can be made takes sound runs and workers out of order.
pub proof fn law_every_move_keeps_the_whole_sound(system: System, step: Move, config: RunnerConfig)
    requires
        sound(system, config),
        possible(system, step),
    ensures
        sound(moved(system, step, config), config),
{
    let after = moved(system, step, config);
    match step {
        Move::Start { spec, cwd_is_dir, fresh_id, at } => {
            if manager::admissible(system.runs, config, cwd_is_dir) {
                let id = manager::chosen_id(spec, fresh_id);
                manager::law_start_respects_the_bound(
                    system.runs,
                    config,
                    cwd_is_dir,
                    life::queued(spec, id, at),
                );
            }
        },
        Move::Cancel { id, at } => {
            manager::law_cancel_respects_the_bound(system.runs, id, at);
        },
        Move::Tell { id, event, stamps } => {
            let worker = system.workers[id];
            assert(sound_run(system, id, config));
            worker::law_step_respects_the_bound(system.runs, worker, event, stamps, config);
            worker::law_every_step_continues_the_run(
                system.runs[id],
                worker,
                event,
                stamps,
                config,
            );
            worker::law_worker_and_run_stay_in_step(
                system.runs[id],
                worker,
                event,
                stamps,
                config,
            );
        },
    }
    assert(after.runs.dom() =~= after.workers.dom());
    assert forall|id: Seq<char>| #[trigger] after.runs.dom().contains(id) implies sound_run(
        after,
        id,
        config,
    ) by {
        assert(system.runs.dom().contains(id) ==> sound_run(system, id, config));
    }
}

} // verus!
