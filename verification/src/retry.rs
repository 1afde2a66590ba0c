//! What a consumer does between its attempts when it shares the queue with
//! producers.

use crate::model::PopResult;
use vstd::prelude::*;

verus! {

/// What the consumer does after an attempt.
pub enum PopStep<T> {
    /// The pop is over, with this result.
    Done(Option<T>),
    /// A push is in flight: let the producers run, then try again.
    Yield,
    /// The queue was found empty after it had been found blocked. No history
    /// of the protocol leads here: the queue is broken and the pop must not
    /// pass this off as an empty queue.
    Fault,
}

/// The state of one consumer across the attempts of a pop.
pub struct Retry {
    retrying: bool,
}

impl Retry {
    /// Whether the pop under way has found the queue blocked.
    pub closed spec fn retrying(&self) -> bool {
        self.retrying
    }

    /// What follows an attempt, given whether the pop under way has found the
    /// queue blocked before.
    pub open spec fn decide<T>(retrying: bool, attempt: PopResult<T>) -> PopStep<T> {
        match attempt {
            PopResult::Data(value) => PopStep::Done(Some(value)),
            PopResult::Empty => if retrying {
                PopStep::Fault
            } else {
                PopStep::Done(None)
            },
            PopResult::Inconsistent => PopStep::Yield,
        }
    }

    /// The state before the first attempt of a pop.
    pub fn new() -> (r: Self)
        ensures
            !r.retrying(),
    {
        Retry { retrying: false }
    }

    /// Takes the result of an attempt and says what to do next. After `Done`
    /// the state is ready for the next pop.
    pub fn step<T>(&mut self, attempt: PopResult<T>) -> (s: PopStep<T>)
        ensures
            s == Self::decide(old(self).retrying(), attempt),
            final(self).retrying() == !(s is Done),
    {
        match attempt {
            PopResult::Data(value) => {
                self.retrying = false;
                PopStep::Done(Some(value))
            },
            PopResult::Empty => {
                if self.retrying {
                    PopStep::Fault
                } else {
                    PopStep::Done(None)
                }
            },
            PopResult::Inconsistent => {
                self.retrying = true;
                PopStep::Yield
            },
        }
    }
}

} // verus!
