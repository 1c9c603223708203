//! The polling worker's decision logic.
//!
//! The worker runs one unbounded loop. Each iteration it asks the terminal
//! for the next key; if one is there it wraps it in an event and sends it on
//! the event channel, swallowing a send failure; only on an idle iteration
//! (no key) does it poll the shutdown channel, and stops if a signal is
//! pending. The functions here decide each iteration; the thread that runs
//! the loop, the terminal handle and the channels live outside this crate
//! and feed these functions what they observed.

use vstd::prelude::*;

use crate::event::Event;
use crate::event::Key;

verus! {

/// What the worker observes in one iteration of its polling loop: the
/// terminal's answer to "next key, if any", and whether a shutdown signal
/// was pending at the idle checkpoint. The shutdown channel is consulted
/// only when the terminal yields no key, so `shutdown` records what that
/// non-blocking check observed (or would have observed); when `input` is
/// `Some`, it has no bearing on the outcome. A shutdown channel that is
/// merely disconnected, with no signal ever sent, reads as `shutdown ==
/// false`: the worker keeps polling.
#[derive(Clone, Copy, Debug)]
pub struct Observation {
    pub input: Option<Key>,
    pub shutdown: bool,
}

/// What the worker does next, decided from one observation.
#[derive(Clone, Copy, PartialEq, Eq, Structural, Debug)]
pub enum Directive {
    /// Send this event on the event channel, then poll again.
    Forward(Event),
    /// Exit the polling loop; the worker's thread ends.
    Stop,
    /// Nothing to do this iteration; poll again.
    Idle,
}

/// Decide one iteration of the polling loop.
///
/// A pending key always takes priority: it is forwarded even when a shutdown
/// signal arrived in the same iteration, so no keystroke that raced with a
/// shutdown request is dropped. Only an idle iteration observes shutdown.
pub fn decide(input: Option<Key>, shutdown: bool) -> (directive: Directive)
    ensures
        input matches Some(key) ==> directive == Directive::Forward(Event::Key(key)),
        input is None && shutdown ==> directive == Directive::Stop,
        input is None && !shutdown ==> directive == Directive::Idle,
{
    match input {
        Some(key) => Directive::Forward(Event::Key(key)),
        None => {
            if shutdown {
                Directive::Stop
            } else {
                Directive::Idle
            }
        },
    }
}

/// Decide whether the loop keeps running after an attempt to send an event.
///
/// It always does: a dropped receiver means no one is listening any more,
/// not that input handling should die. The shutdown channel is the only
/// authoritative stop signal, so the send outcome is deliberately ignored.
pub fn after_forward(delivered: bool) -> (keep_running: bool)
    ensures
        keep_running,
{
    let _ = delivered;
    true
}

/// The events the loop sends when it runs over `trace`, in sending order.
/// The loop walks the observations front to back: a key becomes its event,
/// an idle observation with a pending shutdown ends the run, any other idle
/// observation contributes nothing.
pub open spec fn sent_events(trace: Seq<Observation>) -> Seq<Event>
    decreases trace.len(),
{
    if trace.len() == 0 {
        Seq::empty()
    } else {
        match trace[0].input {
            Some(key) => seq![Event::Key(key)] + sent_events(trace.skip(1)),
            None => {
                if trace[0].shutdown {
                    Seq::empty()
                } else {
                    sent_events(trace.skip(1))
                }
            },
        }
    }
}

/// The keys the terminal hands the loop before the loop stops, in the order
/// they were produced.
pub open spec fn consumed_keys(trace: Seq<Observation>) -> Seq<Key>
    decreases trace.len(),
{
    if trace.len() == 0 {
        Seq::empty()
    } else {
        match trace[0].input {
            Some(key) => seq![key] + consumed_keys(trace.skip(1)),
            None => {
                if trace[0].shutdown {
                    Seq::empty()
                } else {
                    consumed_keys(trace.skip(1))
                }
            },
        }
    }
}

/// The iteration on which the loop exits, if the trace makes it exit: the
/// first idle observation with a pending shutdown.
pub open spec fn stop_index(trace: Seq<Observation>) -> Option<int>
    decreases trace.len(),
{
    if trace.len() == 0 {
        None
    } else if trace[0].input is None && trace[0].shutdown {
        Some(0int)
    } else {
        match stop_index(trace.skip(1)) {
            Some(at) => Some(at + 1),
            None => None,
        }
    }
}

/// Run the loop's decision logic over a finite, pre-recorded trace of
/// observations: collect the events the worker sends, in order, and report
/// whether it exited the loop within the trace. This is the whole worker
/// except the waiting: the live loop differs only in drawing each
/// observation from the terminal and the shutdown channel as it goes.
pub fn replay(trace: &Vec<Observation>) -> (outcome: (Vec<Event>, bool))
    ensures
        outcome.0@ == sent_events(trace@),
        outcome.1 == stop_index(trace@) is Some,
{
    let mut events: Vec<Event> = Vec::new();
    let mut at: usize = 0;
    proof {
        assert(trace@.skip(0) =~= trace@);
    }
    while at < trace.len()
        invariant
            at <= trace.len(),
            sent_events(trace@) == events@ + sent_events(trace@.skip(at as int)),
            stop_index(trace@) is Some <==> stop_index(trace@.skip(at as int)) is Some,
        decreases trace.len() - at,
    {
        let observed = trace[at];
        proof {
            lemma_trace_step(trace@, at as int);
        }
        match decide(observed.input, observed.shutdown) {
            Directive::Forward(event) => {
                // The live loop attempts the send here; its outcome never
                // stops the loop (`after_forward`), so the replay records
                // the event and carries on unconditionally.
                events.push(event);
            },
            Directive::Stop => {
                proof {
                    assert(events@ + Seq::<Event>::empty() =~= events@);
                }
                return (events, true);
            },
            Directive::Idle => {},
        }
        at = at + 1;
    }
    proof {
        assert(events@ + Seq::<Event>::empty() =~= events@);
    }
    (events, false)
}

/// Forwarding: every key the terminal produces is sent as its key event,
/// exactly once per production and before any later key is processed — the
/// events of a run are exactly the consumed keys, wrapped, in the same
/// positions.
pub proof fn lemma_forwarding(trace: Seq<Observation>)
    ensures
        sent_events(trace).len() == consumed_keys(trace).len(),
        forall|at: int|
            0 <= at < consumed_keys(trace).len() ==> sent_events(trace)[at] == Event::Key(
                consumed_keys(trace)[at],
            ),
    decreases trace.len(),
{
    if trace.len() == 0 {
    } else {
        lemma_forwarding(trace.skip(1));
    }
}

/// Ordering: two keys produced in sequence are observed on the channel in
/// the same order — the event at each earlier position wraps the earlier
/// key.
pub proof fn lemma_ordering(trace: Seq<Observation>, first: int, second: int)
    requires
        0 <= first < second < consumed_keys(trace).len(),
    ensures
        sent_events(trace).len() == consumed_keys(trace).len(),
        sent_events(trace)[first] == Event::Key(consumed_keys(trace)[first]),
        sent_events(trace)[second] == Event::Key(consumed_keys(trace)[second]),
{
    lemma_forwarding(trace);
}

/// No fabrication: on a trace where the terminal never reports an available
/// key, the listener sends nothing at all.
pub proof fn lemma_no_fabrication(trace: Seq<Observation>)
    requires
        forall|at: int| 0 <= at < trace.len() ==> trace[at].input is None,
    ensures
        sent_events(trace).len() == 0,
    decreases trace.len(),
{
    if trace.len() == 0 {
    } else if trace[0].shutdown {
    } else {
        assert forall|at: int| 0 <= at < trace.skip(1).len() implies trace.skip(1)[at].input
            is None by {
            assert(trace.skip(1)[at] == trace[at + 1]);
        }
        lemma_no_fabrication(trace.skip(1));
    }
}

/// Shutdown honored: once an idle iteration observes a pending shutdown
/// signal, the loop exits there or earlier — within a bounded number of
/// iterations of the signal, if no further keys hold it off.
pub proof fn lemma_shutdown_honored(trace: Seq<Observation>, at: int)
    requires
        0 <= at < trace.len(),
        trace[at].input is None,
        trace[at].shutdown,
    ensures
        stop_index(trace) matches Some(stop) && stop <= at,
    decreases trace.len(),
{
    if trace[0].input is None && trace[0].shutdown {
    } else {
        assert(trace.skip(1)[at - 1] == trace[at]);
        lemma_shutdown_honored(trace.skip(1), at - 1);
    }
}

/// A racing shutdown drops no key: when a key arrives in the very iteration
/// a shutdown signal is pending, and the loop reaches that iteration, the
/// key's event is still sent before the loop exits.
pub proof fn lemma_pending_key_not_dropped(trace: Seq<Observation>, at: int, key: Key)
    requires
        0 <= at < trace.len(),
        trace[at].input == Some(key),
        trace[at].shutdown,
        forall|before: int|
            0 <= before < at ==> !(trace[before].input is None && trace[before].shutdown),
    ensures
        sent_events(trace).contains(Event::Key(key)),
    decreases trace.len(),
{
    if at == 0 {
        assert(sent_events(trace)[0] == Event::Key(key));
    } else {
        assert forall|before: int|
            0 <= before < at - 1 implies !(trace.skip(1)[before].input is None && trace.skip(
            1,
        )[before].shutdown) by {
            assert(trace.skip(1)[before] == trace[before + 1]);
        }
        assert(trace.skip(1)[at - 1] == trace[at]);
        lemma_pending_key_not_dropped(trace.skip(1), at - 1, key);
        let witness = choose|found: int|
            0 <= found < sent_events(trace.skip(1)).len() && sent_events(trace.skip(1))[found]
                == Event::Key(key);
        if trace[0].input is Some {
            assert(sent_events(trace)[witness + 1] == Event::Key(key));
        } else {
            assert(!trace[0].shutdown);
            assert(sent_events(trace)[witness] == Event::Key(key));
        }
    }
}

/// One step of the trace: dropping the first remaining observation relates
/// the run over `trace.skip(at)` to the run over `trace.skip(at + 1)`.
proof fn lemma_trace_step(trace: Seq<Observation>, at: int)
    requires
        0 <= at < trace.len(),
    ensures
        trace.skip(at).len() == trace.len() - at,
        trace.skip(at)[0] == trace[at],
        trace.skip(at).skip(1) == trace.skip(at + 1),
{
    assert(trace.skip(at).skip(1) =~= trace.skip(at + 1));
}

} // verus!
