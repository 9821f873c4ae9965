//! The transition monitor: a two-state machine that turns a stream of
//! presence samples into "opened" and "closed" events.

use vstd::prelude::*;

verus! {

/// A change of presence.
#[derive(Clone, Copy, Debug, PartialEq, Eq, Structural)]
pub enum Transition {
    /// A target came to be running while none was.
    Opened,
    /// The last running target went away.
    Closed,
}

/// The event, if any, that a sample raises in the given state.
pub open spec fn transition_of(running: bool, sample: bool) -> Option<Transition> {
    if sample && !running {
        Some(Transition::Opened)
    } else if !sample && running {
        Some(Transition::Closed)
    } else {
        None
    }
}

/// The events raised by feeding `samples`, in order, to a monitor whose last
/// known presence is `running`.
pub open spec fn events_from(running: bool, samples: Seq<bool>) -> Seq<Transition>
    decreases samples.len(),
{
    if samples.len() == 0 {
        seq![]
    } else {
        let rest = events_from(samples[0], samples.drop_first());
        match transition_of(running, samples[0]) {
            Some(t) => seq![t] + rest,
            None => rest,
        }
    }
}

/// The number of times `t` occurs in `events`.
pub open spec fn count_events(events: Seq<Transition>, t: Transition) -> nat
    decreases events.len(),
{
    if events.len() == 0 {
        0
    } else {
        (if events[0] == t { 1nat } else { 0nat }) + count_events(events.drop_first(), t)
    }
}

/// The number of places where the presence goes from `from` to `!from`, in
/// `samples` preceded by `prev`.
pub open spec fn edges(prev: bool, samples: Seq<bool>, from: bool) -> nat
    decreases samples.len(),
{
    if samples.len() == 0 {
        0
    } else {
        (if prev == from && samples[0] != from { 1nat } else { 0nat }) + edges(
            samples[0],
            samples.drop_first(),
            from,
        )
    }
}

/// The monitor's state: whether the most recent sample found a target.
pub struct Monitor {
    running: bool,
}

impl Monitor {
    pub closed spec fn running_spec(&self) -> bool {
        self.running
    }

    /// A monitor that has seen no sample yet: nothing is running.
    pub fn new() -> (r: Monitor)
        ensures
            !r.running_spec(),
    {
        Monitor { running: false }
    }

    /// The presence found by the most recent sample.
    pub fn is_running(&self) -> (r: bool)
        ensures
            r == self.running_spec(),
    {
        self.running
    }

    /// Takes in one sample; returns the event it raises, if any.
    pub fn observe(&mut self, sample: bool) -> (r: Option<Transition>)
        ensures
            final(self).running_spec() == sample,
            r == transition_of(old(self).running_spec(), sample),
    {
        let was = self.running;
        self.running = sample;
        if sample && !was {
            Some(Transition::Opened)
        } else if !sample && was {
            Some(Transition::Closed)
        } else {
            None
        }
    }
}

proof fn lemma_count_prepend(t: Transition, rest: Seq<Transition>, x: Transition)
    ensures
        count_events(seq![t] + rest, x) == (if t == x { 1nat } else { 0nat }) + count_events(
            rest,
            x,
        ),
{
    let s = seq![t] + rest;
    assert(s.drop_first() =~= rest);
}

/// Each kind of event is raised once per edge of that kind: "opened" once for
/// each step from not running to running, "closed" once for each step back,
/// counting from the state the monitor started in.
pub proof fn lemma_events_count_edges(running: bool, samples: Seq<bool>)
    ensures
        count_events(events_from(running, samples), Transition::Opened) == edges(
            running,
            samples,
            false,
        ),
        count_events(events_from(running, samples), Transition::Closed) == edges(
            running,
            samples,
            true,
        ),
    decreases samples.len(),
{
    if samples.len() > 0 {
        let rest = events_from(samples[0], samples.drop_first());
        lemma_events_count_edges(samples[0], samples.drop_first());
        if let Some(t) = transition_of(running, samples[0]) {
            lemma_count_prepend(t, rest, Transition::Opened);
            lemma_count_prepend(t, rest, Transition::Closed);
        }
    }
}

/// The events raised from any sequence of samples alternate: two events in a
/// row are never of the same kind, and the first one leaves the state the
/// monitor started in.
pub proof fn lemma_events_alternate(running: bool, samples: Seq<bool>)
    ensures
        ({
            let e = events_from(running, samples);
            &&& e.len() > 0 ==> e[0] == (if running {
                Transition::Closed
            } else {
                Transition::Opened
            })
            &&& forall|i: int| 0 <= i < e.len() - 1 ==> #[trigger] e[i] != e[i + 1]
        }),
    decreases samples.len(),
{
    if samples.len() > 0 {
        lemma_events_alternate(samples[0], samples.drop_first());
        let rest = events_from(samples[0], samples.drop_first());
        let e = events_from(running, samples);
        if let Some(t) = transition_of(running, samples[0]) {
            assert(e == seq![t] + rest);
            assert forall|i: int| 0 <= i < e.len() - 1 implies #[trigger] e[i] != e[i + 1] by {
                if i > 0 {
                    assert(e[i] == rest[i - 1]);
                    assert(e[i + 1] == rest[i]);
                }
            }
        }
    }
}

} // verus!
