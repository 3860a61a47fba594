//! The manager: the runs of one Kaneo process, and the bound on how many are active.

use crate::clock;
use crate::event;
use crate::life;
use crate::life::{ExitReport, Stamps};
use crate::run;
use crate::run::{AgentRun, AgentSpec, RunState, RunStatus, RunnerConfig, StartError};
use vstd::prelude::*;

verus! {

/// Whether a character is a hexadecimal digit in lower case.
pub open spec fn is_hex_digit(c: char) -> bool {
    '0' <= c <= '9' || 'a' <= c <= 'f'
}

/// Whether a text is a random (version 4) UUID in hyphenated form.
pub open spec fn is_random_uuid(s: Seq<char>) -> bool {
    &&& s.len() == 36
    &&& forall|i: int|
        0 <= i < 36 ==> if i == 8 || i == 13 || i == 18 || i == 23 {
            #[trigger] s[i] == '-'
        } else {
            is_hex_digit(s[i])
        }
    &&& s[14] == '4'
    &&& s[19] == '8' || s[19] == '9' || s[19] == 'a' || s[19] == 'b'
}

/// `Uuid::new_v4`, as text: a random UUID in hyphenated lower-case form. Which one comes back is
/// left to chance. On a machine without a source of randomness the call panics.
#[verifier::external_body]
fn random_id() -> (r: String)
    ensures
        is_random_uuid(r@),
{
    uuid::Uuid::new_v4().to_string()
}

/// The runs by their ids.
pub type Runs = Map<Seq<char>, RunState>;

/// The ids of the runs that are active.
pub open spec fn active_ids(runs: Runs) -> Set<Seq<char>> {
    runs.dom().filter(|id: Seq<char>| runs[id].status.active())
}

/// The runs with a new state of one of them. Nothing changes if there is no run of that id.
pub open spec fn amended(runs: Runs, id: Seq<char>, after: RunState) -> Runs {
    if runs.dom().contains(id) {
        runs.insert(id, after)
    } else {
        runs
    }
}

/// Where the run of an id stands, if there is one.
pub open spec fn status_in(runs: Runs, id: Seq<char>) -> Option<RunStatus> {
    if runs.dom().contains(id) {
        Some(runs[id].status)
    } else {
        None
    }
}

/// The id that a spec brings, or else a fresh one.
pub open spec fn chosen_id(spec: AgentSpec, fresh_id: Seq<char>) -> Seq<char> {
    match spec.id {
        Some(id) => id@,
        None => fresh_id,
    }
}

/// Whether a manager that holds these runs admits one more.
pub open spec fn admissible(runs: Runs, config: RunnerConfig, cwd_is_dir: bool) -> bool {
    cwd_is_dir && active_ids(runs).len() < config.max_active_runs
}

/// Whether a manager that holds these runs refuses one more with this error. A directory that is
/// none is told first.
pub open spec fn refused(
    runs: Runs,
    config: RunnerConfig,
    spec: AgentSpec,
    cwd_is_dir: bool,
    error: StartError,
) -> bool {
    if cwd_is_dir {
        &&& active_ids(runs).len() >= config.max_active_runs
        &&& error == StartError::AtCapacity { max_active_runs: config.max_active_runs }
    } else {
        error matches StartError::InvalidWorkingDirectory(path) && path@ == spec.cwd@
    }
}

/// What became of a wish to cancel a run.
#[derive(Debug, PartialEq, Eq)]
pub struct Cancellation {
    /// The run as it stands now.
    pub run: AgentRun,
    /// Whether the run was active, so that its process is to be stopped.
    pub stop_process: bool,
}

/// The runs of one process.
pub struct RunManager {
    runs: Vec<AgentRun>,
    config: RunnerConfig,
}

spec fn distinct_ids(runs: Seq<AgentRun>) -> bool {
    forall|i: int, j: int|
        0 <= i < j < runs.len() ==> (#[trigger] runs[i]).id@ != (#[trigger] runs[j]).id@
}

spec fn has_id(runs: Seq<AgentRun>, id: Seq<char>, i: int) -> bool {
    0 <= i < runs.len() && runs[i].id@ == id
}

spec fn by_id(runs: Seq<AgentRun>) -> Runs {
    Map::new(
        |id: Seq<char>| exists|i: int| has_id(runs, id, i),
        |id: Seq<char>| runs[choose|i: int| has_id(runs, id, i)]@,
    )
}

impl View for RunManager {
    type V = Runs;

    closed spec fn view(&self) -> Runs {
        by_id(self.runs@)
    }
}

impl RunManager {
    /// The bounds of the manager.
    pub closed spec fn config(self) -> RunnerConfig {
        self.config
    }

    /// Ids are distinct, the logs keep their bounds, and no more runs are active than may be.
    pub closed spec fn well_formed(self) -> bool {
        &&& self.stored_well()
        &&& active_ids(self@).len() <= self.config.max_active_runs
    }

    spec fn stored_well(self) -> bool {
        &&& distinct_ids(self.runs@)
        &&& forall|i: int|
            0 <= i < self.runs@.len() ==> event::log_bounded(
                (#[trigger] self.runs@[i])@,
                self.config,
            )
    }

    /// A manager without runs.
    pub fn new(config: RunnerConfig) -> (r: Self)
        ensures
            r.well_formed(),
            r.config() == config,
            r@ == Map::<Seq<char>, RunState>::empty(),
    {
        let r = Self { runs: Vec::new(), config };
        assert(r@ =~= Map::<Seq<char>, RunState>::empty());
        assert(active_ids(r@) =~= Set::empty());
        r
    }

    fn position(&self, id: &str) -> (r: Option<usize>)
        ensures
            match r {
                Some(i) => has_id(self.runs@, id@, i as int) && self@.dom().contains(id@),
                None => !self@.dom().contains(id@),
            },
    {
        let wanted = id.to_string();
        let mut i: usize = 0;
        while i < self.runs.len()
            invariant
                i <= self.runs@.len(),
                wanted@ == id@,
                forall|j: int| j < i ==> !#[trigger] has_id(self.runs@, id@, j),
            decreases self.runs@.len() - i,
        {
            if self.runs[i].id == wanted {
                assert(has_id(self.runs@, id@, i as int));
                return Some(i);
            }
            i = i + 1;
        }
        None
    }

    /// How many runs are active.
    pub fn active_count(&self) -> (r: usize)
        requires
            self.well_formed(),
        ensures
            active_ids(self@).finite(),
            r == active_ids(self@).len(),
            r <= self.config().max_active_runs,
    {
        let mut count: usize = 0;
        let mut i: usize = 0;
        let ghost mut seen: Set<Seq<char>> = Set::empty();
        while i < self.runs.len()
            invariant
                self.well_formed(),
                count <= i <= self.runs@.len(),
                seen.finite(),
                seen.len() == count,
                forall|id: Seq<char>| #[trigger]
                    seen.contains(id) <==> exists|j: int|
                        j < i && #[trigger] has_id(self.runs@, id, j)
                            && self.runs@[j].status.active(),
            decreases self.runs@.len() - i,
        {
            if self.runs[i].status.is_active() {
                count = count + 1;
                proof {
                    let id = self.runs@[i as int].id@;
                    assert(!seen.contains(id));
                    seen = seen.insert(id);
                    assert(has_id(self.runs@, id, i as int));
                }
            }
            i = i + 1;
        }
        proof {
            assert forall|id: Seq<char>| seen.contains(id) <==> active_ids(self@).contains(id) by {
                if self@.dom().contains(id) {
                    let j = choose|j: int| has_id(self.runs@, id, j);
                    lemma_by_id(self.runs@, j);
                }
                if seen.contains(id) {
                    let j = choose|j: int|
                        j < i && #[trigger] has_id(self.runs@, id, j)
                            && self.runs@[j].status.active();
                    lemma_by_id(self.runs@, j);
                }
            }
            assert(seen =~= active_ids(self@));
        }
        count
    }

    /// The run of an id.
    pub fn get(&self, id: &str) -> (r: Option<AgentRun>)
        requires
            self.well_formed(),
        ensures
            match r {
                Some(run) => self@.dom().contains(id@) && run@ == self@[id@],
                None => !self@.dom().contains(id@),
            },
    {
        match self.position(id) {
            Some(i) => {
                proof {
                    lemma_by_id(self.runs@, i as int);
                }
                Some(self.runs[i].clone())
            },
            None => None,
        }
    }

    /// Where the run of an id stands.
    pub fn status(&self, id: &str) -> (r: Option<RunStatus>)
        requires
            self.well_formed(),
        ensures
            r == status_in(self@, id@),
            self@.dom().contains(id@) ==> r == Some(self@[id@].status),
            !self@.dom().contains(id@) ==> r is None,
    {
        match self.position(id) {
            Some(i) => {
                proof {
                    lemma_by_id(self.runs@, i as int);
                }
                Some(self.runs[i].status)
            },
            None => None,
        }
    }

    /// Admits a run, given whether its directory is one, an id for it in case it brings none, and
    /// the time.
    pub fn start_at(
        &mut self,
        spec: &AgentSpec,
        cwd_is_dir: bool,
        fresh_id: String,
        at: String,
    ) -> (r: Result<AgentRun, StartError>)
        requires
            old(self).well_formed(),
        ensures
            final(self).well_formed(),
            final(self).config() == old(self).config(),
            match r {
                Ok(run) => {
                    &&& admissible(old(self)@, old(self).config(), cwd_is_dir)
                    &&& run@ == life::queued(*spec, chosen_id(*spec, fresh_id@), at@)
                    &&& spec.id is None ==> run@.id == fresh_id@
                    &&& final(self)@ == old(self)@.insert(run@.id, run@)
                },
                Err(error) => {
                    &&& refused(old(self)@, old(self).config(), *spec, cwd_is_dir, error)
                    &&& final(self)@ == old(self)@
                },
            },
            r is Ok <==> cwd_is_dir && active_ids(old(self)@).len()
                < old(self).config().max_active_runs,
            !cwd_is_dir ==> (r matches Err(StartError::InvalidWorkingDirectory(path)) && path@
                == spec.cwd@),
            cwd_is_dir && active_ids(old(self)@).len() >= old(self).config().max_active_runs ==> r
                == Err::<AgentRun, StartError>(
                StartError::AtCapacity { max_active_runs: old(self).config().max_active_runs },
            ),
            r is Ok ==> r->Ok_0@.status is Queued,
            r is Ok && spec.id is Some ==> r->Ok_0@.id == spec.id->0@,
    {
        if !cwd_is_dir {
            return Err(StartError::InvalidWorkingDirectory(spec.cwd.clone()));
        }
        if self.active_count() >= self.config.max_active_runs {
            return Err(StartError::AtCapacity { max_active_runs: self.config.max_active_runs });
        }
        let id = match &spec.id {
            Some(id) => id.clone(),
            None => fresh_id,
        };
        let run = life::queue(spec, id.clone(), at);
        let ghost before = *self;
        match self.position(id.as_str()) {
            Some(i) => {
                self.runs.set(i, run.clone());
                proof {
                    self.lemma_replaced(before, i as int, id@);
                }
            },
            None => {
                self.runs.push(run.clone());
                proof {
                    self.lemma_added(before, id@);
                }
            },
        }
        proof {
            lemma_finite(before);
            law_start_respects_the_bound(before@, before.config, cwd_is_dir, run@);
        }
        Ok(run)
    }

    /// Admits a run, given whether its directory is one.
    pub fn start(&mut self, spec: &AgentSpec, cwd_is_dir: bool) -> (r: Result<AgentRun, StartError>)
        requires
            old(self).well_formed(),
        ensures
            final(self).well_formed(),
            final(self).config() == old(self).config(),
            match r {
                Ok(run) => {
                    &&& admissible(old(self)@, old(self).config(), cwd_is_dir)
                    &&& clock::is_stamp(run@.created_at)
                    &&& spec.id is None ==> is_random_uuid(run@.id)
                    &&& run@ == life::queued(*spec, chosen_id(*spec, run@.id), run@.created_at)
                    &&& final(self)@ == old(self)@.insert(run@.id, run@)
                },
                Err(error) => {
                    &&& refused(old(self)@, old(self).config(), *spec, cwd_is_dir, error)
                    &&& final(self)@ == old(self)@
                },
            },
            r is Ok <==> cwd_is_dir && active_ids(old(self)@).len()
                < old(self).config().max_active_runs,
            !cwd_is_dir ==> (r matches Err(StartError::InvalidWorkingDirectory(path)) && path@
                == spec.cwd@),
            cwd_is_dir && active_ids(old(self)@).len() >= old(self).config().max_active_runs ==> r
                == Err::<AgentRun, StartError>(
                StartError::AtCapacity { max_active_runs: old(self).config().max_active_runs },
            ),
            r is Ok ==> r->Ok_0@.status is Queued,
            r is Ok && spec.id is Some ==> r->Ok_0@.id == spec.id->0@,
    {
        let draws_id = spec.id.is_none() && cwd_is_dir && self.active_count()
            < self.config.max_active_runs;
        let fresh_id = if draws_id {
            random_id()
        } else {
            String::new()
        };
        self.start_at(spec, cwd_is_dir, fresh_id, clock::now())
    }

    /// Cancels a run at the given time.
    pub fn cancel_at(&mut self, id: &str, at: String) -> (r: Option<Cancellation>)
        requires
            old(self).well_formed(),
        ensures
            final(self).well_formed(),
            final(self).config() == old(self).config(),
            final(self)@ == amended(old(self)@, id@, life::cancelled(old(self)@[id@], at@)),
            match r {
                Some(cancellation) => {
                    &&& old(self)@.dom().contains(id@)
                    &&& cancellation.run@ == final(self)@[id@]
                    &&& cancellation.stop_process == old(self)@[id@].status.active()
                },
                None => !old(self)@.dom().contains(id@),
            },
    {
        match self.position(id) {
            Some(i) => {
                let ghost before = *self;
                proof {
                    lemma_by_id(self.runs@, i as int);
                }
                let stop_process = self.runs[i].status.is_active();
                life::cancel(&mut self.runs[i], at);
                proof {
                    self.lemma_amended(before, i as int, id@);
                }
                Some(Cancellation { run: self.runs[i].clone(), stop_process })
            },
            None => None,
        }
    }

    /// Cancels a run.
    pub fn cancel(&mut self, id: &str) -> (r: Option<Cancellation>)
        requires
            old(self).well_formed(),
        ensures
            final(self).well_formed(),
            final(self).config() == old(self).config(),
            exists|at: Seq<char>| #[trigger]
                clock::is_stamp(at) && final(self)@ == amended(
                    old(self)@,
                    id@,
                    life::cancelled(old(self)@[id@], at),
                ),
            match r {
                Some(cancellation) => {
                    &&& old(self)@.dom().contains(id@)
                    &&& cancellation.run@ == final(self)@[id@]
                    &&& cancellation.stop_process == old(self)@[id@].status.active()
                },
                None => !old(self)@.dom().contains(id@),
            },
    {
        let at = clock::now();
        assert(clock::is_stamp(at@));
        self.cancel_at(id, at)
    }

    /// Marks an active run as running in the directory `cwd`.
    pub fn begin_run(&mut self, id: &str, cwd: &str, stamps: Stamps)
        requires
            old(self).well_formed(),
        ensures
            final(self).well_formed(),
            final(self).config() == old(self).config(),
            final(self)@ == amended(
                old(self)@,
                id@,
                life::begun(old(self)@[id@], cwd@, stamps@, old(self).config()),
            ),
    {
        if let Some(i) = self.position(id) {
            let ghost before = *self;
            let config = self.config;
            life::begin(&mut self.runs[i], cwd, stamps, &config);
            proof {
                self.lemma_amended(before, i as int, id@);
            }
        }
    }

    /// Marks a run as failed for the given reason.
    pub fn fail_run(&mut self, id: &str, error: String, stamps: Stamps)
        requires
            old(self).well_formed(),
        ensures
            final(self).well_formed(),
            final(self).config() == old(self).config(),
            final(self)@ == amended(
                old(self)@,
                id@,
                life::failed(old(self)@[id@], error@, stamps@, old(self).config()),
            ),
    {
        if let Some(i) = self.position(id) {
            let ghost before = *self;
            let config = self.config;
            life::finish_failed(&mut self.runs[i], error, stamps, &config);
            proof {
                self.lemma_amended(before, i as int, id@);
            }
        }
    }

    /// Logs a line that the agent of a run printed.
    pub fn add_output(&mut self, id: &str, line: &str, stream: &str, stamps: Stamps)
        requires
            old(self).well_formed(),
        ensures
            final(self).well_formed(),
            final(self).config() == old(self).config(),
            final(self)@ == amended(
                old(self)@,
                id@,
                life::heard(old(self)@[id@], line@, stream@, stamps@, old(self).config()),
            ),
    {
        if let Some(i) = self.position(id) {
            let ghost before = *self;
            let config = self.config;
            life::add_output(&mut self.runs[i], line, stream, stamps, &config);
            proof {
                self.lemma_amended(before, i as int, id@);
            }
        }
    }

    /// Notes that a run has taken longer than `max_seconds`.
    pub fn time_out_run(&mut self, id: &str, max_seconds: u64, stamps: Stamps)
        requires
            old(self).well_formed(),
        ensures
            final(self).well_formed(),
            final(self).config() == old(self).config(),
            final(self)@ == amended(
                old(self)@,
                id@,
                life::overdue(old(self)@[id@], max_seconds, stamps@, old(self).config()),
            ),
    {
        if let Some(i) = self.position(id) {
            let ghost before = *self;
            let config = self.config;
            life::time_out(&mut self.runs[i], max_seconds, stamps, &config);
            proof {
                self.lemma_amended(before, i as int, id@);
            }
        }
    }

    /// Closes a run whose process has ended.
    pub fn finish_run(
        &mut self,
        id: &str,
        exit: Option<ExitReport>,
        timed_out: bool,
        stamps: Stamps,
    )
        requires
            old(self).well_formed(),
        ensures
            final(self).well_formed(),
            final(self).config() == old(self).config(),
            final(self)@ == amended(
                old(self)@,
                id@,
                life::finished(old(self)@[id@], exit, timed_out, stamps@, old(self).config()),
            ),
    {
        if let Some(i) = self.position(id) {
            let ghost before = *self;
            let config = self.config;
            life::finish(&mut self.runs[i], exit, timed_out, stamps, &config);
            proof {
                self.lemma_amended(before, i as int, id@);
            }
        }
    }

    proof fn lemma_amended(self, before: Self, i: int, id: Seq<char>)
        requires
            before.well_formed(),
            has_id(before.runs@, id, i),
            self.config == before.config,
            self.runs@ == before.runs@.update(i, self.runs@[i]),
            life::continues(before.runs@[i]@, self.runs@[i]@, self.config),
        ensures
            self.well_formed(),
            before@.dom().contains(id),
            before@[id] == before.runs@[i]@,
            self@ == before@.insert(id, self.runs@[i]@),
    {
        lemma_by_id(before.runs@, i);
        assert(event::log_bounded(before.runs@[i]@, self.config));
        self.lemma_replaced(before, i, id);
        lemma_finite(before);
        law_active_runs_only_drop(before@, id, self.runs@[i]@);
        assert(self@ == amended(before@, id, self.runs@[i]@));
    }

    proof fn lemma_replaced(self, before: Self, i: int, id: Seq<char>)
        requires
            before.stored_well(),
            has_id(before.runs@, id, i),
            self.config == before.config,
            self.runs@ == before.runs@.update(i, self.runs@[i]),
            self.runs@[i].id@ == id,
            event::log_bounded(self.runs@[i]@, self.config),
        ensures
            self.stored_well(),
            self@ == before@.insert(id, self.runs@[i]@),
    {
        assert forall|j: int, k: int| 0 <= j < k < self.runs@.len() implies (
        #[trigger] self.runs@[j]).id@ != (#[trigger] self.runs@[k]).id@ by {
            assert(before.runs@[j].id@ != before.runs@[k].id@);
        }
        assert forall|j: int| 0 <= j < self.runs@.len() implies event::log_bounded(
            (#[trigger] self.runs@[j])@,
            self.config,
        ) by {
            assert(event::log_bounded(before.runs@[j]@, before.config));
        }
        assert forall|key: Seq<char>|
            #![trigger self@.dom().contains(key)]
            self@.dom().contains(key) <==> before@.insert(id, self.runs@[i]@).dom().contains(
                key,
            ) by {
            if self@.dom().contains(key) {
                let j = choose|j: int| has_id(self.runs@, key, j);
                assert(has_id(before.runs@, key, j));
            }
            if before@.dom().contains(key) {
                let j = choose|j: int| has_id(before.runs@, key, j);
                assert(has_id(self.runs@, key, j));
            }
            assert(has_id(self.runs@, id, i));
        }
        assert forall|key: Seq<char>| self@.dom().contains(key) implies self@[key]
            == before@.insert(id, self.runs@[i]@)[key] by {
            let j = choose|j: int| has_id(self.runs@, key, j);
            lemma_by_id(self.runs@, j);
            lemma_by_id(before.runs@, j);
        }
        assert(self@ =~= before@.insert(id, self.runs@[i]@));
    }

    proof fn lemma_added(self, before: Self, id: Seq<char>)
        requires
            before.stored_well(),
            !before@.dom().contains(id),
            self.config == before.config,
            self.runs@ == before.runs@.push(self.runs@.last()),
            self.runs@.last().id@ == id,
            event::log_bounded(self.runs@.last()@, self.config),
        ensures
            self.stored_well(),
            self@ == before@.insert(id, self.runs@.last()@),
    {
        let last = before.runs@.len() as int;
        assert forall|j: int, k: int| 0 <= j < k < self.runs@.len() implies (
        #[trigger] self.runs@[j]).id@ != (#[trigger] self.runs@[k]).id@ by {
            if k < last {
                assert(before.runs@[j].id@ != before.runs@[k].id@);
            } else {
                lemma_by_id(before.runs@, j);
            }
        }
        assert forall|j: int| 0 <= j < self.runs@.len() implies event::log_bounded(
            (#[trigger] self.runs@[j])@,
            self.config,
        ) by {
            if j < last {
                assert(event::log_bounded(before.runs@[j]@, before.config));
            }
        }
        assert forall|key: Seq<char>|
            #![trigger self@.dom().contains(key)]
            self@.dom().contains(key) <==> before@.insert(id, self.runs@.last()@).dom().contains(
                key,
            ) by {
            if self@.dom().contains(key) {
                let j = choose|j: int| has_id(self.runs@, key, j);
                if j < last {
                    assert(has_id(before.runs@, key, j));
                }
            }
            if before@.dom().contains(key) {
                let j = choose|j: int| has_id(before.runs@, key, j);
                assert(has_id(self.runs@, key, j));
            }
            assert(has_id(self.runs@, id, last));
        }
        assert forall|key: Seq<char>| self@.dom().contains(key) implies self@[key]
            == before@.insert(id, self.runs@.last()@)[key] by {
            let j = choose|j: int| has_id(self.runs@, key, j);
            lemma_by_id(self.runs@, j);
            if j < last {
                lemma_by_id(before.runs@, j);
            }
        }
        assert(self@ =~= before@.insert(id, self.runs@.last()@));
    }
}

proof fn lemma_by_id(runs: Seq<AgentRun>, i: int)
    requires
        distinct_ids(runs),
        0 <= i < runs.len(),
    ensures
        by_id(runs).dom().contains(runs[i].id@),
        by_id(runs)[runs[i].id@] == runs[i]@,
{
    let id = runs[i].id@;
    assert(has_id(runs, id, i));
    let chosen = choose|j: int| has_id(runs, id, j);
    assert(has_id(runs, id, chosen));
    assert(chosen == i) by {
        if chosen < i {
            assert(runs[chosen].id@ != runs[i].id@);
        } else if i < chosen {
            assert(runs[i].id@ != runs[chosen].id@);
        }
    }
}

proof fn lemma_finite(manager: RunManager)
    ensures
        manager@.dom().finite(),
{
    let runs = manager.runs@;
    let ids = runs.map_values(|run: AgentRun| run.id@);
    assert(manager@.dom() =~= ids.to_set()) by {
        assert forall|id: Seq<char>| manager@.dom().contains(id) <==> ids.to_set().contains(id) by {
            if manager@.dom().contains(id) {
                let i = choose|i: int| has_id(runs, id, i);
                assert(ids[i] == id);
            }
            if ids.to_set().contains(id) {
                let i = choose|i: int| 0 <= i < ids.len() && ids[i] == id;
                assert(has_id(runs, id, i));
            }
        }
    }
    vstd::seq_lib::seq_to_set_is_finite(ids);
}

/// What holds of every manager: it has finitely many runs, each under its own id, no more of them
/// are active than may be, and no log is out of its bounds.
pub proof fn law_manager_keeps_its_bounds(manager: RunManager)
    requires
        manager.well_formed(),
    ensures
        manager@.dom().finite(),
        active_ids(manager@).len() <= manager.config().max_active_runs,
        forall|id: Seq<char>| #[trigger]
            manager@.dom().contains(id) ==> manager@[id].id == id && event::log_bounded(
                manager@[id],
                manager.config(),
            ),
{
    let runs = manager.runs@;
    lemma_finite(manager);
    assert forall|id: Seq<char>| #[trigger] manager@.dom().contains(id) implies manager@[id].id
        == id && event::log_bounded(manager@[id], manager.config()) by {
        let i = choose|i: int| has_id(runs, id, i);
        lemma_by_id(runs, i);
    }
}

/// Admitting a run never takes the number of active runs over the bound.
pub proof fn law_start_respects_the_bound(
    runs: Runs,
    config: RunnerConfig,
    cwd_is_dir: bool,
    after: RunState,
)
    requires
        runs.dom().finite(),
        admissible(runs, config, cwd_is_dir),
    ensures
        active_ids(runs.insert(after.id, after)).finite(),
        active_ids(runs.insert(after.id, after)).len() <= config.max_active_runs,
{
    let before = active_ids(runs);
    vstd::set_lib::lemma_len_subset(
        active_ids(runs.insert(after.id, after)),
        before.insert(after.id),
    );
}

/// A change that wakes no run that was over raises the number of active runs never, and lowers it
/// by one when it ends an active run.
pub proof fn law_active_runs_only_drop(runs: Runs, id: Seq<char>, after: RunState)
    requires
        runs.dom().finite(),
        runs.dom().contains(id) && after.status.active() ==> runs[id].status.active(),
    ensures
        active_ids(amended(runs, id, after)).len() <= active_ids(runs).len(),
        runs.dom().contains(id) && runs[id].status.active() && !after.status.active()
            ==> active_ids(amended(runs, id, after)).len() == active_ids(runs).len() - 1,
{
    let before = active_ids(runs);
    let now = active_ids(amended(runs, id, after));
    if runs.dom().contains(id) && runs[id].status.active() && !after.status.active() {
        assert(now =~= before.remove(id));
    }
    vstd::set_lib::lemma_len_subset(now, before);
}

/// Cancelling a run never raises the number of active runs.
pub proof fn law_cancel_respects_the_bound(runs: Runs, id: Seq<char>, at: Seq<char>)
    requires
        runs.dom().finite(),
    ensures
        active_ids(amended(runs, id, life::cancelled(runs[id], at))).len() <= active_ids(
            runs,
        ).len(),
{
    law_active_runs_only_drop(runs, id, life::cancelled(runs[id], at));
}

/// A change of one run leaves every other run as it was, and loses none.
pub proof fn law_other_runs_are_untouched(
    runs: Runs,
    id: Seq<char>,
    after: RunState,
    other: Seq<char>,
)
    requires
        other != id,
    ensures
        amended(runs, id, after).dom() == runs.dom(),
        runs.dom().contains(other) ==> amended(runs, id, after)[other] == runs[other],
{
    assert(amended(runs, id, after).dom() =~= runs.dom());
}

/// A run counts as active exactly if it is known and queued or running.
pub proof fn law_which_runs_count_as_active(runs: Runs, id: Seq<char>)
    ensures
        active_ids(runs).contains(id) <==> runs.dom().contains(id) && (runs[id].status is Queued
            || runs[id].status is Running),
{
}

/// A run in a directory that is one is admitted exactly if fewer runs are active than may be. If it
/// is not admitted, there is one error for it: the directory if that is none, else the number of
/// runs that may be active.
pub proof fn law_a_free_place_is_given(
    runs: Runs,
    config: RunnerConfig,
    spec: AgentSpec,
    cwd_is_dir: bool,
    error: StartError,
)
    ensures
        cwd_is_dir && active_ids(runs).len() < config.max_active_runs ==> admissible(
            runs,
            config,
            cwd_is_dir,
        ) && !refused(runs, config, spec, cwd_is_dir, error),
        cwd_is_dir && active_ids(runs).len() >= config.max_active_runs ==> {
            &&& !admissible(runs, config, cwd_is_dir)
            &&& refused(runs, config, spec, cwd_is_dir, error) <==> error
                == (StartError::AtCapacity { max_active_runs: config.max_active_runs })
        },
        !cwd_is_dir ==> {
            &&& !admissible(runs, config, cwd_is_dir)
            &&& refused(runs, config, spec, cwd_is_dir, error) <==> (
            error is InvalidWorkingDirectory && error->InvalidWorkingDirectory_0@ == spec.cwd@)
        },
{
}

/// However many places there are, a new run takes one of them: admitting a run of a new id raises
/// the number of active runs by one, so that a manager without active runs admits as many runs as
/// may be active, and no more.
pub proof fn law_an_admitted_run_takes_one_place(
    runs: Runs,
    spec: AgentSpec,
    id: Seq<char>,
    created_at: Seq<char>,
    config: RunnerConfig,
)
    requires
        runs.dom().finite(),
        !runs.dom().contains(id),
    ensures
        ({
            let after = runs.insert(id, life::queued(spec, id, created_at));
            &&& active_ids(after) == active_ids(runs).insert(id)
            &&& active_ids(after).len() == active_ids(runs).len() + 1
            &&& admissible(after, config, true) <==> active_ids(runs).len() + 1
                < config.max_active_runs
        }),
{
    let after = runs.insert(id, life::queued(spec, id, created_at));
    assert(active_ids(after) =~= active_ids(runs).insert(id));
}

/// The id of a run is the one that its spec brings; only a spec without one gets a fresh one.
pub proof fn law_a_given_id_is_kept(spec: AgentSpec, fresh_id: Seq<char>)
    ensures
        spec.id is Some ==> chosen_id(spec, fresh_id) == spec.id->0@,
        spec.id is None ==> chosen_id(spec, fresh_id) == fresh_id,
{
}

/// A change of a run is what is found under its id; there is no change where no such run is known,
/// and then the run is not found either.
pub proof fn law_a_change_is_found_under_its_id(runs: Runs, id: Seq<char>, after: RunState)
    ensures
        runs.dom().contains(id) ==> amended(runs, id, after).dom().contains(id) && amended(
            runs,
            id,
            after,
        )[id] == after,
        !runs.dom().contains(id) ==> amended(runs, id, after) == runs,
        runs.dom().contains(id) ==> status_in(runs, id) == Some(runs[id].status),
        !runs.dom().contains(id) ==> status_in(runs, id) is None,
{
}

} // verus!
