use mpsc_queue::{PopResult, Queue};
use std::cell::RefCell;
use std::rc::Rc;

/// A payload that writes its name down when it is destroyed.
struct Named {
    name: u32,
    log: Rc<RefCell<Vec<u32>>>,
}

impl Drop for Named {
    fn drop(&mut self) {
        self.log.borrow_mut().push(self.name);
    }
}

fn named(name: u32, log: &Rc<RefCell<Vec<u32>>>) -> Named {
    Named { name, log: log.clone() }
}

#[test]
fn drain_empties_a_settled_queue_and_counts() {
    let mut q: Queue<u32> = Queue::new();
    for v in 0..7u32 {
        q.push(v);
    }
    assert_eq!(q.drain(), 7);
    assert!(q.is_empty());
    assert_eq!(q.pop(), None);
}

#[test]
fn drain_of_an_empty_queue_takes_nothing() {
    let mut q: Queue<u32> = Queue::new();
    assert_eq!(q.drain(), 0);
    assert!(q.is_empty());
    q.push(1);
    assert_eq!(q.pop(), Some(1));
    assert_eq!(q.drain(), 0);
    assert!(q.is_empty());
}

#[test]
fn drain_stops_at_the_first_push_in_flight() {
    let mut q: Queue<u32> = Queue::new();
    q.push(1);
    q.push(2);
    let p = q.begin_push(3);
    q.push(4);
    assert_eq!(q.drain(), 2);
    assert!(!q.is_empty());
    assert!(matches!(q.raw_pop(), PopResult::Inconsistent));
    assert_eq!(q.drain(), 0);
    q.finish_push(p);
    assert_eq!(q.pop(), Some(3));
    assert_eq!(q.drain(), 1);
    assert!(q.is_empty());
}

#[test]
fn drain_gives_payloads_up_oldest_first() {
    let log = Rc::new(RefCell::new(Vec::new()));
    let mut q: Queue<Named> = Queue::new();
    for name in 0..5u32 {
        q.push(named(name, &log));
    }
    assert!(log.borrow().is_empty());
    assert_eq!(q.drain(), 5);
    assert_eq!(*log.borrow(), vec![0, 1, 2, 3, 4]);
    drop(q);
    assert_eq!(*log.borrow(), vec![0, 1, 2, 3, 4]);
}

#[test]
fn drain_gives_payloads_up_oldest_first_after_a_node_was_used_again() {
    let log = Rc::new(RefCell::new(Vec::new()));
    let mut q: Queue<Named> = Queue::new();
    q.push(named(1, &log));
    q.push(named(2, &log));
    drop(q.pop());
    assert_eq!(*log.borrow(), vec![1]);
    q.push(named(3, &log));
    assert_eq!(q.drain(), 2);
    assert_eq!(*log.borrow(), vec![1, 2, 3]);
    assert!(q.is_empty());
}

#[test]
fn drain_leaves_what_it_cannot_reach_to_the_drop() {
    let log = Rc::new(RefCell::new(Vec::new()));
    {
        let mut q: Queue<Named> = Queue::new();
        q.push(named(1, &log));
        let _p = q.begin_push(named(2, &log));
        q.push(named(3, &log));
        assert_eq!(q.drain(), 1);
        assert_eq!(*log.borrow(), vec![1]);
    }
    let mut all = log.borrow().clone();
    all.sort();
    assert_eq!(all, vec![1, 2, 3]);
}

#[test]
fn queue_serves_again_after_a_drain() {
    let mut q: Queue<u32> = Queue::new();
    for round in 0..50u32 {
        for v in 0..4u32 {
            q.push(round * 4 + v);
        }
        assert_eq!(q.pop(), Some(round * 4));
        assert_eq!(q.drain(), 3);
        assert!(q.is_empty());
    }
}
