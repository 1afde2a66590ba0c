//! The abstract state of the queue and the steps that change it.

use vstd::prelude::*;

verus! {

/// What one attempt to take the front item finds.
pub enum PopResult<T> {
    /// The front item was taken.
    Data(T),
    /// Nothing is enqueued and no push is in flight.
    Empty,
    /// A push has claimed the head but has not stored its link yet: the item
    /// exists but cannot be reached. A later attempt will find it.
    Inconsistent,
}

/// One enqueued item, as the consumer will come to see it.
pub struct Entry<T> {
    /// The payload.
    pub value: T,
    /// Whether the push that brought the item has stored the link that leads
    /// to it.
    pub linked: bool,
}

/// Everything between the consumer's end and the head, in the order in which
/// the pushes claimed the head.
pub struct Model<T> {
    /// The items, oldest claim first. The consumer can reach those that stand
    /// before the first one that is not linked.
    pub entries: Seq<Entry<T>>,
}

impl<T> Model<T> {
    /// The queue with nothing in it.
    pub open spec fn empty() -> Self {
        Model { entries: Seq::empty() }
    }

    /// The number of items that are enqueued, reachable or not.
    pub open spec fn len(self) -> nat {
        self.entries.len()
    }

    /// The payloads, oldest claim first.
    pub open spec fn items(self) -> Seq<T> {
        Seq::new(self.entries.len(), |i: int| self.entries[i].value)
    }

    /// Whether the push of the item at `i` is still in flight.
    pub open spec fn in_flight(self, i: int) -> bool {
        0 <= i < self.entries.len() && !self.entries[i].linked
    }

    /// Whether every push that claimed the head has also stored its link.
    pub open spec fn settled(self) -> bool {
        forall|i: int| 0 <= i < self.entries.len() ==> (#[trigger] self.entries[i]).linked
    }

    /// First step of a push: the new item becomes the head, unlinked.
    pub open spec fn claim(self, value: T) -> Self {
        Model { entries: self.entries.push(Entry { value, linked: false }) }
    }

    /// Second step of a push: the link to the item at `i` is stored.
    pub open spec fn link(self, i: int) -> Self
        recommends
            self.in_flight(i),
    {
        Model {
            entries: self.entries.update(i, Entry { value: self.entries[i].value, linked: true }),
        }
    }

    /// Both steps of a push with nothing in between.
    pub open spec fn push(self, value: T) -> Self {
        Model { entries: self.entries.push(Entry { value, linked: true }) }
    }

    /// What an attempt to take the front item finds.
    pub open spec fn attempt(self) -> PopResult<T> {
        if self.entries.len() == 0 {
            PopResult::Empty
        } else if self.entries[0].linked {
            PopResult::Data(self.entries[0].value)
        } else {
            PopResult::Inconsistent
        }
    }

    /// Whether the consumer faces an item whose push is still in flight.
    pub open spec fn blocked(self) -> bool {
        self.in_flight(0)
    }

    /// The state that an attempt leaves: without the front item if it was
    /// taken, unchanged otherwise.
    pub open spec fn after_attempt(self) -> Self {
        if self.attempt() is Data {
            Model { entries: self.entries.drop_first() }
        } else {
            self
        }
    }
}

} // verus!
