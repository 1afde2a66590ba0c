//! An unbounded multi-producer, single-consumer queue kept as a singly linked
//! chain of nodes in an index arena.
//!
//! A push is two steps: it first claims the head of the chain, then stores
//! the forward link of the node that was head before. Between the two steps
//! the new node, and whatever is pushed after it, cannot be reached from the
//! consumer's end: an attempt to pop then finds the queue *inconsistent*, and
//! the consumer yields and tries again until the push is done.
//!
//! [`Queue`] offers each step as an operation of its own, so that any
//! interleaving of producers and consumer can be played out on it, one step
//! at a time, by whoever holds it. What a step does is stated over an
//! abstract [`model::Model`]; what follows for whole histories of steps is
//! proved in [`laws`]: items leave in the order in which their pushes claimed
//! the head, none is lost or taken twice, and a consumer that has found the
//! queue inconsistent is never told that it is empty. At the end of a queue's
//! life [`Queue::drain`] gives up what is left, oldest first.

pub mod history;
pub mod laws;
pub mod model;
pub mod queue;
pub mod retry;

pub use model::PopResult;
pub use queue::{PendingPush, Queue};
pub use retry::{PopStep, Retry};
