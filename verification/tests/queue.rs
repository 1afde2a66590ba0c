use mpsc_queue::{PopResult, Queue};
use std::cell::Cell;
use std::rc::Rc;

#[test]
fn fresh_queue_is_empty() {
    let mut q: Queue<u32> = Queue::new();
    assert!(q.is_empty());
    assert!(matches!(q.raw_pop(), PopResult::Empty));
    assert_eq!(q.pop(), None);
    assert!(q.is_empty());
}

#[test]
fn single_item_round_trip() {
    let mut q: Queue<String> = Queue::new();
    q.push(String::from("x"));
    assert!(!q.is_empty());
    assert_eq!(q.pop(), Some(String::from("x")));
    assert!(q.is_empty());
    assert_eq!(q.pop(), None);
}

#[test]
fn one_producer_is_first_in_first_out() {
    let mut q: Queue<u32> = Queue::new();
    for v in 0..100u32 {
        q.push(v);
    }
    for v in 0..100u32 {
        assert_eq!(q.pop(), Some(v));
    }
    assert_eq!(q.pop(), None);
}

#[test]
fn pushes_and_pops_can_alternate() {
    let mut q: Queue<u32> = Queue::new();
    q.push(1);
    q.push(2);
    assert_eq!(q.pop(), Some(1));
    q.push(3);
    assert_eq!(q.pop(), Some(2));
    assert_eq!(q.pop(), Some(3));
    assert_eq!(q.pop(), None);
    q.push(4);
    assert_eq!(q.pop(), Some(4));
    assert!(q.is_empty());
}

#[test]
fn nodes_are_used_again() {
    let mut q: Queue<usize> = Queue::new();
    for round in 0..1000usize {
        q.push(round);
        q.push(round + 1);
        assert_eq!(q.pop(), Some(round));
        assert_eq!(q.pop(), Some(round + 1));
        assert!(q.is_empty());
    }
}

#[test]
fn push_in_flight_blocks_the_consumer() {
    let mut q: Queue<u32> = Queue::new();
    let p = q.begin_push(7);
    assert!(!q.is_empty());
    assert!(matches!(q.raw_pop(), PopResult::Inconsistent));
    assert!(matches!(q.raw_pop(), PopResult::Inconsistent));
    q.finish_push(p);
    assert!(matches!(q.raw_pop(), PopResult::Data(7)));
    assert!(matches!(q.raw_pop(), PopResult::Empty));
    assert!(q.is_empty());
}

#[test]
fn later_push_waits_for_the_earlier_link() {
    let mut q: Queue<u32> = Queue::new();
    let a = q.begin_push(1);
    let b = q.begin_push(2);
    q.finish_push(b);
    assert!(matches!(q.raw_pop(), PopResult::Inconsistent));
    q.finish_push(a);
    assert_eq!(q.pop(), Some(1));
    assert_eq!(q.pop(), Some(2));
    assert_eq!(q.pop(), None);
}

#[test]
fn consumer_stops_at_the_first_missing_link() {
    let mut q: Queue<u32> = Queue::new();
    q.push(1);
    let b = q.begin_push(2);
    q.push(3);
    assert!(matches!(q.raw_pop(), PopResult::Data(1)));
    assert!(matches!(q.raw_pop(), PopResult::Inconsistent));
    assert!(!q.is_empty());
    q.finish_push(b);
    assert_eq!(q.pop(), Some(2));
    assert_eq!(q.pop(), Some(3));
    assert!(q.is_empty());
}

struct Counted {
    drops: Rc<Cell<usize>>,
}

impl Drop for Counted {
    fn drop(&mut self) {
        self.drops.set(self.drops.get() + 1);
    }
}

#[test]
fn dropping_the_queue_drops_each_payload_once() {
    let drops = Rc::new(Cell::new(0usize));
    {
        let mut q: Queue<Counted> = Queue::new();
        for _ in 0..5 {
            q.push(Counted { drops: drops.clone() });
        }
        let taken = q.pop();
        assert!(taken.is_some());
        assert_eq!(drops.get(), 0);
        drop(taken);
        assert_eq!(drops.get(), 1);
    }
    assert_eq!(drops.get(), 5);
}

#[test]
fn dropping_with_a_push_in_flight_drops_its_payload() {
    let drops = Rc::new(Cell::new(0usize));
    {
        let mut q: Queue<Counted> = Queue::new();
        q.push(Counted { drops: drops.clone() });
        let _p = q.begin_push(Counted { drops: drops.clone() });
    }
    assert_eq!(drops.get(), 2);
}

#[test]
fn dropping_an_unused_queue_is_fine() {
    let q: Queue<Counted> = Queue::new();
    assert!(q.is_empty());
    drop(q);
}

#[test]
fn is_empty_sees_a_push_in_flight() {
    let mut q: Queue<u8> = Queue::new();
    assert!(q.is_empty());
    let p = q.begin_push(1);
    assert!(!q.is_empty());
    q.finish_push(p);
    assert!(!q.is_empty());
    assert_eq!(q.pop(), Some(1));
    assert!(q.is_empty());
}

#[test]
fn push_is_its_two_steps() {
    let mut whole: Queue<u32> = Queue::new();
    let mut split: Queue<u32> = Queue::new();
    for v in [3u32, 1, 4, 1, 5] {
        whole.push(v);
        let p = split.begin_push(v);
        split.finish_push(p);
    }
    loop {
        let a = whole.pop();
        let b = split.pop();
        assert_eq!(a, b);
        if a.is_none() {
            break;
        }
    }
}
