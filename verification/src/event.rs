//! The event log of a run: redacted, clipped and bounded.

use crate::clock;
use crate::redact;
use crate::run::{AgentEvent, AgentRun, EventState, RunState, RunnerConfig};
use vstd::prelude::*;
use vstd::string::StrSliceExecFns;

verus! {

/// The last `n` items of a sequence, or all if it has no more.
pub open spec fn latest<T>(s: Seq<T>, n: nat) -> Seq<T> {
    if s.len() > n {
        s.skip(s.len() - n)
    } else {
        s
    }
}

/// The first `n` characters of a text, or all if it has no more.
pub open spec fn clipped(s: Seq<char>, n: nat) -> Seq<char> {
    if s.len() > n {
        s.take(n as int)
    } else {
        s
    }
}

/// A text as the log shows it: without secrets and no longer than the bound.
pub open spec fn shown(s: Seq<char>, config: RunnerConfig) -> Seq<char> {
    clipped(redact::secrets_redacted(s), config.max_event_text as nat)
}

/// The run with one more event in its log.
pub open spec fn logged(
    run: RunState,
    at: Seq<char>,
    event_type: Seq<char>,
    text: Seq<char>,
    config: RunnerConfig,
) -> RunState {
    RunState {
        events: latest(
            run.events.push(EventState { at, event_type, text: shown(text, config) }),
            config.max_events as nat,
        ),
        ..run
    }
}

/// Whether an event holds nothing but a shown text.
pub open spec fn shown_event(event: EventState, config: RunnerConfig) -> bool {
    exists|raw: Seq<char>| event.text == #[trigger] shown(raw, config)
}

/// The bounds of a log: no more events than configured, and every text as it may be shown.
pub open spec fn log_bounded(run: RunState, config: RunnerConfig) -> bool {
    &&& run.events.len() <= config.max_events
    &&& forall|i: int|
        0 <= i < run.events.len() ==> shown_event(#[trigger] run.events[i], config)
}

/// The text as the log shows it.
pub fn shown_text(text: &str, config: &RunnerConfig) -> (r: String)
    ensures
        r@ == shown(text@, *config),
        r@.len() <= config.max_event_text,
        r@.is_prefix_of(redact::secrets_redacted(text@)),
        r@.len() < config.max_event_text ==> r@ == redact::secrets_redacted(text@),
{
    let redacted = redact::redact_secrets(text);
    if redacted.as_str().unicode_len() > config.max_event_text {
        redacted.as_str().substring_char(0, config.max_event_text).to_string()
    } else {
        redacted
    }
}

/// Adds an event with the given stamp to the log of a run.
pub fn append_event_at(
    run: &mut AgentRun,
    at: String,
    event_type: &str,
    text: &str,
    config: &RunnerConfig,
)
    ensures
        final(run)@ == logged(old(run)@, at@, event_type@, text@, *config),
{
    let event = AgentEvent {
        at,
        event_type: event_type.to_string(),
        text: shown_text(text, config),
    };
    let ghost before = run@;
    run.events.push(event);
    assert(run@.events == before.events.push(event@));
    if run.events.len() > config.max_events {
        let remove: usize = run.events.len() - config.max_events;
        let kept = run.events.split_off(remove);
        run.events = kept;
        assert(run@.events == before.events.push(event@).skip(remove as int));
    }
}

/// Adds an event to the log of a run, stamped with the time at which the clock is read.
pub fn append_event(run: &mut AgentRun, event_type: &str, text: &str, config: &RunnerConfig)
    ensures
        exists|at: Seq<char>| #[trigger]
            clock::is_stamp(at) && final(run)@ == logged(
                old(run)@,
                at,
                event_type@,
                text@,
                *config,
            ),
{
    let at = clock::now();
    append_event_at(run, at, event_type, text, config);
    assert(clock::is_stamp(at@));
}

/// A log keeps its bounds when an event is added, and the event is in it unless it may hold none.
pub proof fn law_log_stays_bounded(
    run: RunState,
    at: Seq<char>,
    event_type: Seq<char>,
    text: Seq<char>,
    config: RunnerConfig,
)
    requires
        log_bounded(run, config),
    ensures
        log_bounded(logged(run, at, event_type, text, config), config),
        config.max_events > 0 ==> logged(run, at, event_type, text, config).events.last()
            == (EventState { at, event_type, text: shown(text, config) }),
{
    let event = EventState { at, event_type, text: shown(text, config) };
    let after = logged(run, at, event_type, text, config);
    assert(shown_event(event, config));
    assert forall|i: int| 0 <= i < after.events.len() implies shown_event(
        #[trigger] after.events[i],
        config,
    ) by {
        let k = i + run.events.len() + 1 - after.events.len();
        assert(after.events[i] == run.events.push(event)[k]);
        if k < run.events.len() {
            assert(shown_event(run.events[k], config));
        }
    }
}

/// An event is dropped only when the log is full, and then it is the oldest.
pub proof fn law_log_drops_the_oldest(
    run: RunState,
    at: Seq<char>,
    event_type: Seq<char>,
    text: Seq<char>,
    config: RunnerConfig,
)
    requires
        log_bounded(run, config),
    ensures
        ({
            let event = EventState { at, event_type, text: shown(text, config) };
            let after = logged(run, at, event_type, text, config).events;
            if run.events.len() < config.max_events {
                after == run.events.push(event)
            } else {
                after == run.events.push(event).drop_first()
            }
        }),
{
}

/// Whatever is logged, no shown text is longer than the bound.
pub proof fn law_shown_text_is_bounded(event: EventState, config: RunnerConfig)
    requires
        shown_event(event, config),
    ensures
        event.text.len() <= config.max_event_text,
{
}

/// A text is cut by its length only: what is shown of it is as long as the bound lets it be, and
/// stands character by character at the beginning of the text without its secrets.
pub proof fn law_text_is_cut_by_length_only(s: Seq<char>, config: RunnerConfig)
    ensures
        redact::secrets_redacted(s).len() <= config.max_event_text ==> shown(s, config)
            == redact::secrets_redacted(s),
        redact::secrets_redacted(s).len() > config.max_event_text ==> shown(s, config).len()
            == config.max_event_text,
        forall|i: int|
            0 <= i < shown(s, config).len() ==> #[trigger] shown(s, config)[i]
                == redact::secrets_redacted(s)[i],
{
}

/// A longer bound shows a text at least as far as a shorter one.
pub proof fn law_a_longer_bound_shows_no_less(s: Seq<char>, one: RunnerConfig, other: RunnerConfig)
    requires
        one.max_event_text <= other.max_event_text,
    ensures
        shown(s, one).is_prefix_of(shown(s, other)),
{
}

/// Whether a log is another one with some events added at its end, where only the oldest may be
/// missing, and only as many as there are over the bound.
pub open spec fn extended(
    before: Seq<EventState>,
    added: Seq<EventState>,
    after: Seq<EventState>,
    bound: nat,
) -> bool {
    let all = before + added;
    &&& all.len() <= bound ==> after.len() == all.len()
    &&& all.len() > bound ==> after.len() == bound
    &&& forall|i: int|
        0 <= i < after.len() ==> #[trigger] after[i] == all[all.len() - after.len() + i]
}

/// Logging adds one event at the end of the log, with the stamp, the type and the shown text, and
/// changes nothing else of the run.
pub proof fn law_logging_adds_one_event(
    run: RunState,
    at: Seq<char>,
    event_type: Seq<char>,
    text: Seq<char>,
    config: RunnerConfig,
)
    ensures
        ({
            let after = logged(run, at, event_type, text, config);
            let event = EventState { at, event_type, text: shown(text, config) };
            &&& extended(run.events, seq![event], after.events, config.max_events as nat)
            &&& RunState { events: run.events, ..after } == run
        }),
{
    let event = EventState { at, event_type, text: shown(text, config) };
    assert(run.events + seq![event] =~= run.events.push(event));
}

/// Logs that grow one after the other grow by both.
pub proof fn lemma_extended_twice(
    before: Seq<EventState>,
    first: Seq<EventState>,
    between: Seq<EventState>,
    second: Seq<EventState>,
    after: Seq<EventState>,
    bound: nat,
)
    requires
        extended(before, first, between, bound),
        extended(between, second, after, bound),
    ensures
        extended(before, first + second, after, bound),
{
    let all = before + (first + second);
    let some = before + first;
    let late = between + second;
    assert forall|i: int| 0 <= i < after.len() implies #[trigger] after[i] == all[all.len()
        - after.len() + i] by {
        let k = late.len() - after.len() + i;
        assert(after[i] == late[k]);
        if k < between.len() {
            assert(between[k] == some[some.len() - between.len() + k]);
        }
    }
}

/// A log within its bounds has no more events than configured, and none of its texts is longer
/// than configured.
pub proof fn law_the_bounds_of_a_log(run: RunState, config: RunnerConfig)
    requires
        log_bounded(run, config),
    ensures
        run.events.len() <= config.max_events,
        forall|i: int|
            0 <= i < run.events.len() ==> (#[trigger] run.events[i]).text.len()
                <= config.max_event_text,
{
    assert forall|i: int| 0 <= i < run.events.len() implies (#[trigger] run.events[i]).text.len()
        <= config.max_event_text by {
        law_shown_text_is_bounded(run.events[i], config);
    }
}

} // verus!
