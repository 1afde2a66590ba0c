//! The queue: a chain of nodes in an index arena, and the steps of its
//! protocol.

use crate::model::{Entry, Model, PopResult};
use crate::retry::{PopStep, Retry};
use vstd::prelude::*;

verus! {

/// One slot of the arena.
struct Node<T> {
    /// The node that was pushed next, once that push has stored its link.
    next: Option<usize>,
    /// The payload, until the consumer takes it.
    value: Option<T>,
}

/// A push between its two steps: it has claimed the head and still owes the
/// link from the node that was head before.
///
/// [`Queue::begin_push`] hands one out and [`Queue::finish_push`] uses it up.
/// It can be neither copied nor made in any other way. A push that is begun
/// and never finished leaves its item, and every later one, out of the
/// consumer's reach for good.
#[must_use]
pub struct PendingPush {
    prev: usize,
    node: usize,
}

/// The queue. Any number of producers push; one consumer pops.
///
/// The nodes live in an arena and name each other by index. Only the
/// consumer gives a node up, and only the one that it leaves behind when it
/// takes an item: a node that a pending push still has to write to is never
/// given up. A node that was given up is kept and serves a later push.
///
/// Dropping the queue frees every node, the one at the consumer's end
/// included, and with it every payload that is still enqueued, in the order
/// of the arena. An owner that wants the payloads given up oldest first
/// calls [`Queue::drain`] before it lets the queue go.
pub struct Queue<T> {
    /// The arena. A node is named by its index.
    nodes: Vec<Node<T>>,
    /// The indices of the nodes that are not in use.
    free: Vec<usize>,
    /// The node that was pushed last.
    head: usize,
    /// The node whose payload was taken last, or the first node if none was.
    tail: usize,
    /// The nodes in use, from `tail` to `head`, in the order in which their
    /// pushes claimed the head.
    chain: Ghost<Seq<usize>>,
}

impl<T> Queue<T> {
    /// The nodes in use are told apart, lie in the arena and are kept apart
    /// from the free ones; every node of the arena is one or the other.
    spec fn arena_wf(&self) -> bool {
        let chain = self.chain@;
        let free = self.free@;
        &&& chain.len() + free.len() == self.nodes@.len()
        &&& forall|i: int| 0 <= i < chain.len() ==> (#[trigger] chain[i]) < self.nodes@.len()
        &&& forall|j: int| 0 <= j < free.len() ==> (#[trigger] free[j]) < self.nodes@.len()
        &&& forall|i: int, j: int|
            0 <= i < j < chain.len() ==> (#[trigger] chain[i]) != (#[trigger] chain[j])
        &&& forall|i: int, j: int|
            0 <= i < j < free.len() ==> (#[trigger] free[i]) != (#[trigger] free[j])
        &&& forall|i: int, j: int|
            0 <= i < chain.len() && 0 <= j < free.len() ==> (#[trigger] chain[i])
                != (#[trigger] free[j])
    }

    /// The chain runs from `tail` to `head`; the node at `tail` holds no
    /// payload and every later one holds one; a node's link, once stored,
    /// leads to the node that claimed the head after it; free nodes are blank.
    spec fn chain_wf(&self) -> bool {
        let chain = self.chain@;
        let free = self.free@;
        let nodes = self.nodes@;
        &&& chain.len() >= 1
        &&& chain[0] == self.tail
        &&& chain[chain.len() - 1] == self.head
        &&& nodes[self.tail as int].value is None
        &&& nodes[self.head as int].next is None
        &&& forall|i: int|
            1 <= i < chain.len() ==> (#[trigger] nodes[chain[i] as int]).value is Some
        &&& forall|i: int|
            0 <= i < chain.len() - 1 ==> {
                let next = (#[trigger] nodes[chain[i] as int]).next;
                next is None || next == Some(chain[i + 1])
            }
        &&& forall|j: int|
            0 <= j < free.len() ==> {
                let node = #[trigger] nodes[free[j] as int];
                node.next is None && node.value is None
            }
    }

    /// The invariant of the queue. [`Queue::new`] sets it up and every
    /// operation keeps it.
    pub closed spec fn wf(&self) -> bool {
        self.arena_wf() && self.chain_wf()
    }

    /// The enqueued items, reachable or not, oldest claim first.
    pub closed spec fn view(&self) -> Model<T> {
        Model {
            entries: Seq::new(
                (self.chain@.len() - 1) as nat,
                |i: int|
                    Entry {
                        value: self.nodes@[self.chain@[i + 1] as int].value.unwrap(),
                        linked: self.nodes@[self.chain@[i] as int].next is Some,
                    },
            ),
        }
    }

    /// The number of nodes that the arena holds.
    pub closed spec fn nodes(&self) -> nat {
        self.nodes@.len()
    }

    /// The number of nodes that are kept for later pushes.
    pub closed spec fn spare(&self) -> nat {
        self.free@.len()
    }

    /// Whether `p` stands at place `j` of the chain and still owes its link.
    spec fn owes(&self, p: PendingPush, j: int) -> bool {
        &&& 1 <= j < self.chain@.len()
        &&& self.chain@[j] == p.node
        &&& self.chain@[j - 1] == p.prev
        &&& self.nodes@[p.prev as int].next is None
    }

    /// Whether `p` is a push of this queue that has claimed the head and has
    /// not stored its link yet.
    pub closed spec fn pending(&self, p: PendingPush) -> bool {
        exists|j: int| self.owes(p, j)
    }

    /// The index, among the enqueued items, of the item that `p` brought.
    pub closed spec fn slot(&self, p: PendingPush) -> int {
        (choose|j: int| self.owes(p, j)) - 1
    }

    /// Whether every push that is pending in `self` is still pending in
    /// `after`, with its item `shift` places nearer to the front.
    pub open spec fn carries(&self, after: &Self, shift: int) -> bool {
        forall|q: PendingPush| #[trigger]
            self.pending(q) ==> after.pending(q) && after.slot(q) == self.slot(q) - shift
    }

    /// A pending push stands at one place only.
    proof fn lemma_slot(&self, p: PendingPush, j: int)
        requires
            self.arena_wf(),
            self.owes(p, j),
        ensures
            self.pending(p),
            self.slot(p) == j - 1,
    {
        let k = choose|k: int| self.owes(p, k);
        assert(self.owes(p, k));
        if k < j {
            assert(self.chain@[k] != self.chain@[j]);
        } else if j < k {
            assert(self.chain@[j] != self.chain@[k]);
        }
    }

    /// A pending push is in flight in the model, at its slot.
    pub proof fn lemma_pending_in_flight(&self, p: PendingPush)
        requires
            self.wf(),
            self.pending(p),
        ensures
            self@.in_flight(self.slot(p)),
    {
        let j = choose|j: int| self.owes(p, j);
        self.lemma_slot(p, j);
    }

    /// No node is lost: every node of the arena is the one at the consumer's
    /// end, holds an enqueued item, or is spare.
    pub proof fn lemma_nodes_accounted(&self)
        requires
            self.wf(),
        ensures
            self.nodes() == 1 + self@.len() + self.spare(),
    {
    }

    /// Creates an empty queue. Its arena holds one node, which stands at the
    /// consumer's end and carries no payload.
    pub fn new() -> (q: Self)
        ensures
            q.wf(),
            q@ == Model::<T>::empty(),
            q.spare() == 0,
            forall|p: PendingPush| !q.pending(p),
    {
        let mut nodes: Vec<Node<T>> = Vec::new();
        nodes.push(Node { next: None, value: None });
        let chain = Ghost(Seq::empty().push(0usize));
        let q = Queue { nodes, free: Vec::new(), head: 0, tail: 0, chain };
        assert(q@.entries =~= Model::<T>::empty().entries);
        q
    }

    /// Whether nothing is enqueued: no item is reachable and no push is in
    /// flight.
    pub fn is_empty(&self) -> (b: bool)
        requires
            self.wf(),
        ensures
            b == (self@.len() == 0),
    {
        self.head == self.tail
    }

    /// Takes a node for `value` from the free ones, or makes the arena one
    /// node longer. The node's link is empty.
    fn new_node(nodes: &mut Vec<Node<T>>, free: &mut Vec<usize>, value: Option<T>) -> (idx: usize)
        requires
            forall|j: int|
                0 <= j < old(free)@.len() ==> (#[trigger] old(free)@[j]) < old(nodes)@.len(),
            forall|j: int|
                0 <= j < old(free)@.len() ==> (#[trigger] old(nodes)@[old(free)@[j] as int]).next
                    is None,
        ensures
            old(free)@.len() > 0 ==> {
                &&& idx == old(free)@.last()
                &&& final(free)@ == old(free)@.drop_last()
                &&& final(nodes)@ == old(nodes)@.update(idx as int, (Node { next: None, value }))
            },
            old(free)@.len() == 0 ==> {
                &&& idx == old(nodes)@.len()
                &&& final(free)@ == old(free)@
                &&& final(nodes)@ == old(nodes)@.push((Node { next: None, value }))
            },
    {
        match free.pop() {
            Some(idx) => {
                nodes[idx].value = value;
                idx
            },
            None => {
                let idx: usize = nodes.len();
                nodes.push(Node { next: None, value });
                idx
            },
        }
    }

    /// First step of a push: puts `value` in a node of its own and makes that
    /// node the head. The item is enqueued from now on, but the consumer
    /// cannot reach it, nor anything pushed after it, before
    /// [`Queue::finish_push`] has been called with the result.
    ///
    /// The node is a spare one if there is any; the arena grows only if there
    /// is none.
    pub fn begin_push(&mut self, value: T) -> (p: PendingPush)
        requires
            old(self).wf(),
        ensures
            final(self).wf(),
            final(self)@ == old(self)@.claim(value),
            final(self).spare() == (if old(self).spare() > 0 {
                old(self).spare() - 1
            } else {
                0
            }),
            !old(self).pending(p),
            final(self).pending(p),
            final(self).slot(p) == old(self)@.len(),
            old(self).carries(final(self), 0),
    {
        let node: usize = Self::new_node(&mut self.nodes, &mut self.free, Some(value));
        let prev: usize = self.head;
        self.head = node;
        self.chain = Ghost(self.chain@.push(node));
        let p = PendingPush { prev, node };
        proof {
            let before = old(self).chain@;
            let spare = old(self).free@;
            let was = old(self).nodes@;
            let now = self.nodes@;
            assert forall|i: int| 0 <= i < before.len() implies
                #[trigger] now[before[i] as int] == was[before[i] as int] by {
                if spare.len() > 0 {
                    assert(before[i] != spare[spare.len() - 1]);
                }
            }
            assert(self@.entries =~= old(self)@.claim(value).entries);
            self.lemma_slot(p, before.len() as int);
            let start = *old(self);
            assert forall|q: PendingPush| #[trigger] start.pending(q) implies
                self.pending(q) && self.slot(q) == start.slot(q) by {
                let j = choose|j: int| old(self).owes(q, j);
                old(self).lemma_slot(q, j);
                assert(now[before[j - 1] as int] == was[before[j - 1] as int]);
                self.lemma_slot(q, j);
            }
        }
        p
    }

    /// Second step of a push: stores the link that leads to the node of `p`.
    /// If every older push has stored its link too, the consumer can now
    /// reach the item.
    pub fn finish_push(&mut self, p: PendingPush)
        requires
            old(self).wf(),
            old(self).pending(p),
        ensures
            final(self).wf(),
            old(self)@.in_flight(old(self).slot(p)),
            final(self)@ == old(self)@.link(old(self).slot(p)),
            final(self).spare() == old(self).spare(),
            !final(self).pending(p),
            forall|q: PendingPush| #[trigger]
                old(self).pending(q) && q != p ==> final(self).pending(q) && final(self).slot(q)
                    == old(self).slot(q),
    {
        proof {
            old(self).lemma_pending_in_flight(p);
        }
        let ghost at = old(self).slot(p) + 1;
        self.nodes[p.prev].next = Some(p.node);
        proof {
            let chain = self.chain@;
            let free = self.free@;
            let was = old(self).nodes@;
            let now = self.nodes@;
            assert(chain[at - 1] == p.prev && chain[at] == p.node);
            assert forall|i: int| 0 <= i < chain.len() && i != at - 1 implies
                #[trigger] now[chain[i] as int] == was[chain[i] as int] by {
                if i < at - 1 {
                    assert(chain[i] != chain[at - 1]);
                } else {
                    assert(chain[at - 1] != chain[i]);
                }
            }
            assert forall|j: int| 0 <= j < free.len() implies
                #[trigger] now[free[j] as int] == was[free[j] as int] by {
                assert(chain[at - 1] != free[j]);
            }
            assert(self@.entries =~= old(self)@.link(at - 1).entries);
            let start = *old(self);
            assert forall|q: PendingPush| #[trigger] start.pending(q) && q != p implies
                self.pending(q) && self.slot(q) == start.slot(q) by {
                let j = choose|j: int| old(self).owes(q, j);
                old(self).lemma_slot(q, j);
                if j < at {
                    assert(chain[j] != chain[at]);
                    assert(chain[j - 1] != chain[at - 1]);
                } else if at < j {
                    assert(chain[at] != chain[j]);
                    assert(chain[at - 1] != chain[j - 1]);
                }
                self.lemma_slot(q, j);
            }
            assert forall|j: int| !self.owes(p, j) by {}
        }
    }

    /// Enqueues `value`: both steps of a push, one after the other.
    pub fn push(&mut self, value: T)
        requires
            old(self).wf(),
        ensures
            final(self).wf(),
            final(self)@ == old(self)@.push(value),
            final(self).spare() == (if old(self).spare() > 0 {
                old(self).spare() - 1
            } else {
                0
            }),
            old(self).carries(final(self), 0),
    {
        let p = self.begin_push(value);
        self.finish_push(p);
        proof {
            assert(self@.entries =~= old(self)@.push(value).entries);
        }
    }

    /// One attempt to take the front item. It takes it if the link that leads
    /// to it has been stored; the node that was at the consumer's end then
    /// becomes a spare one, and the node of the item takes its place.
    /// Otherwise it changes nothing and tells whether the queue is empty or a
    /// push is in flight.
    pub fn raw_pop(&mut self) -> (r: PopResult<T>)
        requires
            old(self).wf(),
        ensures
            final(self).wf(),
            r == old(self)@.attempt(),
            final(self)@ == old(self)@.after_attempt(),
            final(self).spare() == old(self).spare() + (if r is Data {
                1int
            } else {
                0int
            }),
            old(self).carries(final(self), (if r is Data { 1int } else { 0int })),
    {
        let tail: usize = self.tail;
        match self.nodes[tail].next {
            Some(next) => {
                self.tail = next;
                let taken = self.nodes[next].value.take();
                self.free.push(tail);
                self.nodes[tail].next = None;
                self.chain = Ghost(self.chain@.drop_first());
                proof {
                    let before = old(self).chain@;
                    let chain = self.chain@;
                    let was = old(self).nodes@;
                    let now = self.nodes@;
                    assert(before[0] == tail && before[1] == next);
                    assert forall|i: int| 0 <= i < chain.len() implies
                        chain[i] == before[i + 1] by {}
                    assert forall|i: int| 1 <= i < chain.len() implies
                        #[trigger] now[chain[i] as int] == was[chain[i] as int] by {
                        assert(before[0] != before[i + 1]);
                        assert(before[1] != before[i + 1]);
                    }
                    assert(self@.entries =~= old(self)@.after_attempt().entries);
                    let start = *old(self);
                    assert forall|q: PendingPush| #[trigger] start.pending(q) implies
                        self.pending(q) && self.slot(q) == start.slot(q) - 1 by {
                        let j = choose|j: int| old(self).owes(q, j);
                        old(self).lemma_slot(q, j);
                        self.lemma_slot(q, j - 1);
                    }
                }
                PopResult::Data(taken.unwrap())
            },
            None => {
                if self.head == tail {
                    PopResult::Empty
                } else {
                    PopResult::Inconsistent
                }
            },
        }
    }

    /// Takes the front item, or tells that the queue is empty.
    ///
    /// The caller holds the queue alone, so a push that is in flight cannot
    /// finish while this runs: the queue must not be blocked by one. The
    /// first attempt then settles the pop. A consumer that shares the queue
    /// with producers calls [`Queue::raw_pop`] and lets [`Retry`] tell it
    /// when to try again.
    pub fn pop(&mut self) -> (r: Option<T>)
        requires
            old(self).wf(),
            !old(self)@.blocked(),
        ensures
            final(self).wf(),
            r == (match old(self)@.attempt() {
                PopResult::Data(value) => Some(value),
                _ => None,
            }),
            Retry::decide(false, old(self)@.attempt()) == PopStep::Done(r),
            final(self)@ == old(self)@.after_attempt(),
            final(self).spare() == old(self).spare() + (if r is Some {
                1int
            } else {
                0int
            }),
            old(self).carries(final(self), (if r is Some { 1int } else { 0int })),
    {
        match self.raw_pop() {
            PopResult::Data(value) => Some(value),
            PopResult::Empty => None,
            PopResult::Inconsistent => vstd::pervasive::unreached(),
        }
    }

    /// Takes every item that the consumer can reach, oldest first, and gives
    /// each payload up as soon as it is taken. Returns how many there were.
    ///
    /// It stops at the first item whose push is in flight, or when the queue
    /// is empty: what is then left is out of the consumer's reach, and stays
    /// enqueued. Every node that it passes becomes a spare one, once, and
    /// none leaves the arena.
    pub fn drain(&mut self) -> (n: usize)
        requires
            old(self).wf(),
        ensures
            final(self).wf(),
            !(final(self)@.attempt() is Data),
            n == old(self)@.drained().len(),
            n <= old(self)@.len(),
            forall|i: int| 0 <= i < n ==> (#[trigger] old(self)@.entries[i]).linked,
            final(self)@.entries == old(self)@.entries.skip(n as int),
            final(self).spare() == old(self).spare() + n,
            final(self).nodes() == old(self).nodes(),
            old(self)@.settled() ==> final(self)@ == Model::<T>::empty() && n == old(self)@.len(),
            old(self).carries(final(self), n as int),
    {
        let ghost start = *old(self);
        let mut n: usize = 0;
        proof {
            assert(self@.entries =~= start@.entries.skip(0));
            assert(start@.len() < start.nodes.len());
        }
        loop
            invariant
                start@.len() < usize::MAX,
                self.wf(),
                n <= start@.len(),
                forall|i: int| 0 <= i < n ==> (#[trigger] start@.entries[i]).linked,
                self@.entries == start@.entries.skip(n as int),
                start@.drained().len() == n + self@.drained().len(),
                self.spare() == start.spare() + n,
                start.carries(self, n as int),
            ensures
                !(self@.attempt() is Data),
            decreases self@.len(),
        {
            match self.raw_pop() {
                PopResult::Data(_) => {
                    proof {
                        assert(start@.entries.skip(n as int)[0] == start@.entries[n as int]);
                        assert(self@.entries =~= start@.entries.skip(n + 1));
                    }
                    n = n + 1;
                },
                _ => {
                    break;
                },
            }
        }
        proof {
            if start@.settled() && self@.len() > 0 {
                assert(self@.entries[0] == start@.entries[n as int]);
            }
            assert(self@.len() == 0 ==> self@.entries =~= Model::<T>::empty().entries);
        }
        n
    }
}

} // verus!
