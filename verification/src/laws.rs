//! What holds of every history of the queue.

use crate::history::{claimed, producers_only, Event};
use crate::model::{Model, PopResult};
use crate::retry::{PopStep, Retry};
use vstd::prelude::*;

verus! {

/// A push made in one go is its two steps with nothing in between.
pub proof fn law_push_is_two_steps<T>(m: Model<T>, value: T)
    ensures
        m.push(value) == m.claim(value).link(m.len() as int),
        m.admits(seq![Event::Claim(value), Event::Link(m.len() as int)]),
        m.run(seq![Event::Claim(value), Event::Link(m.len() as int)]) == m.push(value),
{
    let h = seq![Event::Claim(value), Event::Link(m.len() as int)];
    let claimed = m.claim(value);
    assert(m.push(value).entries =~= claimed.link(m.len() as int).entries);
    assert(h.drop_first() =~= seq![Event::Link(m.len() as int)]);
    assert(h.drop_first().drop_first() =~= Seq::<Event<T>>::empty());
    assert(claimed.in_flight(m.len() as int));
    assert(claimed.link(m.len() as int).admits(h.drop_first().drop_first()));
    assert(claimed.admits(h.drop_first()));
    assert(claimed.link(m.len() as int).run(h.drop_first().drop_first()) == m.push(value));
    assert(claimed.run(h.drop_first()) == m.push(value));
}

/// Items leave in the order in which their pushes claimed the head: at any
/// moment, what has been taken so far, followed by what is still enqueued,
/// is what was enqueued at the start followed by what has been claimed since.
/// Nothing is lost, taken twice or made up, however the steps of producers
/// and consumer interleave.
pub proof fn law_order<T>(m: Model<T>, h: Seq<Event<T>>)
    requires
        m.admits(h),
    ensures
        m.popped(h) + m.run(h).items() == m.items() + claimed(h),
    decreases h.len(),
{
    if h.len() == 0 {
        assert(m.popped(h) + m.run(h).items() =~= m.items() + claimed(h));
    } else {
        let next = m.step(h[0]);
        let rest = h.drop_first();
        law_order(next, rest);
        match h[0] {
            Event::Claim(value) => {
                assert(next.items() =~= m.items() + seq![value]);
                assert((m.items() + seq![value]) + claimed(rest) =~= m.items() + (seq![value]
                    + claimed(rest)));
            },
            Event::Link(i) => {
                assert(next.items() =~= m.items());
            },
            Event::Attempt => {
                if let PopResult::Data(value) = m.attempt() {
                    let left = next.run(rest).items();
                    assert(m.items() =~= seq![value] + next.items());
                    assert((seq![value] + next.popped(rest)) + left =~= seq![value]
                        + (next.popped(rest) + left));
                    assert(seq![value] + (next.items() + claimed(rest)) =~= (seq![value]
                        + next.items()) + claimed(rest));
                }
            },
        }
    }
}

/// First in, first out: on a queue that starts empty, the items that have
/// been taken are the first ones that were claimed, in that order. The same
/// holds of the items that any `mine` picks out, such as those of one
/// producer, whose pushes claim the head in the order in which it makes
/// them.
pub proof fn law_fifo<T>(h: Seq<Event<T>>, mine: spec_fn(T) -> bool)
    requires
        Model::<T>::empty().admits(h),
    ensures
        Model::<T>::empty().popped(h).is_prefix_of(claimed(h)),
        Model::<T>::empty().popped(h).filter(mine).is_prefix_of(claimed(h).filter(mine)),
        Model::<T>::empty().popped(h).filter(mine) + Model::<T>::empty().run(h).items().filter(
            mine,
        ) == claimed(h).filter(mine),
{
    let m = Model::<T>::empty();
    let taken = m.popped(h);
    let left = m.run(h).items();
    law_order(m, h);
    assert(m.items() + claimed(h) =~= claimed(h));
    assert(taken =~= (taken + left).subrange(0, taken.len() as int));
    Seq::filter_distributes_over_add(taken, left, mine);
    assert(taken.filter(mine) =~= (taken.filter(mine) + left.filter(mine)).subrange(
        0,
        taken.filter(mine).len() as int,
    ));
}

/// What is left of a history of producers after its first step is a history
/// of producers.
proof fn lemma_rest_of_producers<T>(h: Seq<Event<T>>)
    requires
        producers_only(h),
        h.len() > 0,
    ensures
        !(h[0] is Attempt),
        producers_only(h.drop_first()),
{
    let rest = h.drop_first();
    assert forall|k: int| 0 <= k < rest.len() implies !((#[trigger] rest[k]) is Attempt) by {
        assert(rest[k] == h[k + 1]);
    }
}

/// Steps of producers take nothing out of the queue.
proof fn lemma_producers_take_nothing<T>(m: Model<T>, h: Seq<Event<T>>)
    requires
        producers_only(h),
    ensures
        m.popped(h) == Seq::<T>::empty(),
    decreases h.len(),
{
    if h.len() > 0 {
        lemma_rest_of_producers(h);
        lemma_producers_take_nothing(m.step(h[0]), h.drop_first());
    }
}

/// Once no push is in flight, a consumer that goes on until an attempt takes
/// nothing takes every item, in order.
proof fn lemma_drain_takes_all<T>(m: Model<T>)
    requires
        m.settled(),
    ensures
        m.drained() == m.items(),
    decreases m.entries.len(),
{
    if m.entries.len() == 0 {
        assert(m.drained() =~= m.items());
    } else {
        let next = m.after_attempt();
        assert(m.entries[0].linked);
        assert forall|i: int| 0 <= i < next.entries.len() implies
            (#[trigger] next.entries[i]).linked by {
            assert(next.entries[i] == m.entries[i + 1]);
        }
        lemma_drain_takes_all(next);
        assert(m.drained() =~= m.items());
    }
}

/// No loss: when producers alone have run, in any interleaving, and each has
/// finished its pushes, a consumer that then drains the queue takes exactly
/// the items that were pushed, each once, in the order of their claims.
pub proof fn law_no_loss<T>(h: Seq<Event<T>>)
    requires
        Model::<T>::empty().admits(h),
        producers_only(h),
        Model::<T>::empty().run(h).settled(),
    ensures
        Model::<T>::empty().run(h).drained() == claimed(h),
        Model::<T>::empty().run(h).drained().to_multiset() == claimed(h).to_multiset(),
{
    let m = Model::<T>::empty();
    law_order(m, h);
    lemma_producers_take_nothing(m, h);
    lemma_drain_takes_all(m.run(h));
    assert(m.popped(h) + m.run(h).items() =~= m.run(h).items());
    assert(m.items() + claimed(h) =~= claimed(h));
}

/// Nothing lost, doubled or made up under any interleaving: when producers
/// and consumer have run together and every push has finished, what the
/// consumer took on the way, followed by what it takes when it then drains
/// the queue, is what was pushed: as many items, and each as often.
pub proof fn law_interleaved<T>(h: Seq<Event<T>>)
    requires
        Model::<T>::empty().admits(h),
        Model::<T>::empty().run(h).settled(),
    ensures
        Model::<T>::empty().popped(h) + Model::<T>::empty().run(h).drained() == claimed(h),
        Model::<T>::empty().popped(h).len() + Model::<T>::empty().run(h).drained().len()
            == claimed(h).len(),
        (Model::<T>::empty().popped(h) + Model::<T>::empty().run(h).drained()).to_multiset()
            == claimed(h).to_multiset(),
{
    let m = Model::<T>::empty();
    law_order(m, h);
    lemma_drain_takes_all(m.run(h));
    assert(m.items() + claimed(h) =~= claimed(h));
}

/// A new queue is empty: an attempt finds nothing, and nothing is enqueued.
pub proof fn law_new_is_empty<T>()
    ensures
        Model::<T>::empty().len() == 0,
        Model::<T>::empty().attempt() == PopResult::<T>::Empty,
        Model::<T>::empty().after_attempt() == Model::<T>::empty(),
{
}

/// Round trip: a push onto an empty queue, then an attempt, gives the pushed
/// value back and leaves the queue empty.
pub proof fn law_round_trip<T>(m: Model<T>, value: T)
    requires
        m.len() == 0,
    ensures
        m.push(value).attempt() == PopResult::Data(value),
        m.push(value).after_attempt() == m,
        m.push(value).after_attempt().attempt() == PopResult::<T>::Empty,
{
    assert(m.push(value).after_attempt().entries =~= m.entries);
}

/// Steps of producers leave a front item that can be reached as it is.
proof fn lemma_linked_front_stays<T>(m: Model<T>, h: Seq<Event<T>>)
    requires
        m.attempt() is Data,
        m.admits(h),
        producers_only(h),
    ensures
        m.run(h).attempt() == m.attempt(),
    decreases h.len(),
{
    if h.len() > 0 {
        lemma_rest_of_producers(h);
        lemma_linked_front_stays(m.step(h[0]), h.drop_first());
    }
}

/// A blocked consumer is not sent away empty: while producers alone run, an
/// attempt on a queue that was found blocked never finds it empty. It finds
/// the item that was at the front exactly when the push that brought that
/// item has stored its link, and finds the queue blocked until then.
pub proof fn law_blocked_pop_gets_data<T>(m: Model<T>, h: Seq<Event<T>>)
    requires
        m.blocked(),
        m.admits(h),
        producers_only(h),
    ensures
        !(m.run(h).attempt() is Empty),
        h.contains(Event::Link(0)) ==> m.run(h).attempt() == PopResult::Data(m.entries[0].value),
        !h.contains(Event::Link(0)) ==> m.run(h).attempt() == PopResult::<T>::Inconsistent,
    decreases h.len(),
{
    if h.len() > 0 {
        let next = m.step(h[0]);
        let rest = h.drop_first();
        lemma_rest_of_producers(h);
        assert(next.entries[0].value == m.entries[0].value);
        if h[0] == Event::<T>::Link(0) {
            lemma_linked_front_stays(next, rest);
            assert(h.contains(Event::Link(0)));
        } else {
            assert(next.blocked());
            law_blocked_pop_gets_data(next, rest);
            if rest.contains(Event::Link(0)) {
                let k = choose|k: int| 0 <= k < rest.len() && rest[k] == Event::<T>::Link(0);
                assert(h[k + 1] == Event::<T>::Link(0));
            }
            if h.contains(Event::Link(0)) {
                let k = choose|k: int| 0 <= k < h.len() && h[k] == Event::<T>::Link(0);
                assert(rest[k - 1] == Event::<T>::Link(0));
            }
        }
    } else {
        assert(!h.contains(Event::Link(0)));
    }
}

/// A consumer that found the queue blocked and tries again while producers
/// run is never led to a fault: it is told to yield until the push that
/// blocks it has stored its link, and then its pop is over with the item
/// that was at the front.
pub proof fn law_retry_gets_data<T>(m: Model<T>, h: Seq<Event<T>>)
    requires
        m.blocked(),
        m.admits(h),
        producers_only(h),
    ensures
        !(Retry::decide(true, m.run(h).attempt()) is Fault),
        h.contains(Event::Link(0)) ==> Retry::decide(true, m.run(h).attempt()) == PopStep::Done(
            Some(m.entries[0].value),
        ),
        !h.contains(Event::Link(0)) ==> Retry::decide(true, m.run(h).attempt())
            == PopStep::<T>::Yield,
{
    law_blocked_pop_gets_data(m, h);
}

} // verus!
