//! Histories: the steps of producers and consumer, in the order in which
//! they take effect.
//!
//! Each operation of the queue is one step, or two: `begin_push` is a
//! `Claim`, `finish_push` a `Link`, `raw_pop` an `Attempt`, `push` a `Claim`
//! followed at once by its `Link`, and `drain` one `Attempt` after another
//! until one takes nothing.

use crate::model::{Model, PopResult};
use vstd::prelude::*;

verus! {

/// One step of the protocol.
pub enum Event<T> {
    /// A producer claims the head for a value.
    Claim(T),
    /// The producer of the item that now stands at this index stores its
    /// link.
    Link(int),
    /// The consumer makes one attempt to take the front item.
    Attempt,
}

impl<T> Model<T> {
    /// Whether `e` can happen in this state: a link can be stored only by a
    /// push that is in flight.
    pub open spec fn enabled(self, e: Event<T>) -> bool {
        match e {
            Event::Link(i) => self.in_flight(i),
            _ => true,
        }
    }

    /// The state after `e`.
    pub open spec fn step(self, e: Event<T>) -> Self {
        match e {
            Event::Claim(value) => self.claim(value),
            Event::Link(i) => self.link(i),
            Event::Attempt => self.after_attempt(),
        }
    }

    /// Whether each step of `h` can happen when its turn comes.
    pub open spec fn admits(self, h: Seq<Event<T>>) -> bool
        decreases h.len(),
    {
        h.len() > 0 ==> self.enabled(h[0]) && self.step(h[0]).admits(h.drop_first())
    }

    /// The state after all of `h`.
    pub open spec fn run(self, h: Seq<Event<T>>) -> Self
        decreases h.len(),
    {
        if h.len() == 0 {
            self
        } else {
            self.step(h[0]).run(h.drop_first())
        }
    }

    /// The payloads that the attempts of `h` take, in the order in which they
    /// take them.
    pub open spec fn popped(self, h: Seq<Event<T>>) -> Seq<T>
        decreases h.len(),
    {
        if h.len() == 0 {
            Seq::empty()
        } else {
            let rest = self.step(h[0]).popped(h.drop_first());
            match (h[0], self.attempt()) {
                (Event::Attempt, PopResult::Data(value)) => seq![value] + rest,
                _ => rest,
            }
        }
    }

    /// The payloads that the consumer takes if it goes on until an attempt
    /// takes nothing.
    pub open spec fn drained(self) -> Seq<T>
        decreases self.entries.len(),
    {
        match self.attempt() {
            PopResult::Data(value) => seq![value] + self.after_attempt().drained(),
            _ => Seq::empty(),
        }
    }
}

/// The payloads for which `h` claims the head, in the order of the claims.
pub open spec fn claimed<T>(h: Seq<Event<T>>) -> Seq<T>
    decreases h.len(),
{
    if h.len() == 0 {
        Seq::empty()
    } else {
        match h[0] {
            Event::Claim(value) => seq![value] + claimed(h.drop_first()),
            _ => claimed(h.drop_first()),
        }
    }
}

/// Whether `h` holds steps of producers only.
pub open spec fn producers_only<T>(h: Seq<Event<T>>) -> bool {
    forall|k: int| 0 <= k < h.len() ==> !((#[trigger] h[k]) is Attempt)
}

} // verus!
