use mpsc_queue::{PopResult, PopStep, Queue, Retry};

#[test]
fn data_ends_the_pop() {
    let mut retry = Retry::new();
    assert!(matches!(retry.step(PopResult::Data(3u32)), PopStep::Done(Some(3))));
}

#[test]
fn empty_on_the_first_attempt_ends_the_pop() {
    let mut retry = Retry::new();
    assert!(matches!(retry.step(PopResult::<u32>::Empty), PopStep::Done(None)));
}

#[test]
fn inconsistent_asks_for_a_yield() {
    let mut retry = Retry::new();
    assert!(matches!(retry.step(PopResult::<u32>::Inconsistent), PopStep::Yield));
    assert!(matches!(retry.step(PopResult::<u32>::Inconsistent), PopStep::Yield));
    assert!(matches!(retry.step(PopResult::Data(9u32)), PopStep::Done(Some(9))));
}

#[test]
fn empty_after_inconsistent_is_a_fault() {
    let mut retry = Retry::new();
    assert!(matches!(retry.step(PopResult::<u32>::Inconsistent), PopStep::Yield));
    assert!(matches!(retry.step(PopResult::<u32>::Empty), PopStep::Fault));
}

#[test]
fn retry_is_fresh_again_after_a_pop() {
    let mut retry = Retry::new();
    assert!(matches!(retry.step(PopResult::<u32>::Inconsistent), PopStep::Yield));
    assert!(matches!(retry.step(PopResult::Data(1u32)), PopStep::Done(Some(1))));
    assert!(matches!(retry.step(PopResult::<u32>::Empty), PopStep::Done(None)));
}

#[test]
fn blocked_pop_gets_the_item_once_the_push_is_done() {
    let mut q: Queue<&str> = Queue::new();
    let mut retry = Retry::new();
    let pending = q.begin_push("late");
    let mut yields = 0;
    let mut pending = Some(pending);
    let got = loop {
        match retry.step(q.raw_pop()) {
            PopStep::Done(result) => break result,
            PopStep::Yield => {
                yields += 1;
                if yields == 3 {
                    q.finish_push(pending.take().unwrap());
                }
            }
            PopStep::Fault => panic!("fault"),
        }
    };
    assert_eq!(got, Some("late"));
    assert_eq!(yields, 3);
    assert!(q.is_empty());
}
