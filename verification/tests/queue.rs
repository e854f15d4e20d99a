use std::cmp::Ordering;
use timewrap::Time;
use timewrap::WaitQueue;
use timewrap::Waiting;

fn entry(time: u64, id: usize) -> Waiting<u64> {
    Waiting { id, time }
}

fn drain(queue: &mut WaitQueue<u64>) -> Vec<(u64, usize)> {
    let mut out = Vec::new();
    while let Some(first) = queue.pop() {
        out.push((first.time, first.id));
    }
    out
}

#[test]
fn time_orders_by_ticks() {
    assert!(3u64.is_before(&4));
    assert!(!4u64.is_before(&4));
    assert!(!5u64.is_before(&4));
    assert!((-2i64).is_before(&-1));
    assert!(!(7i32).is_before(&-7));
    assert!(0u32.is_before(&u32::MAX));
    assert!(1usize.is_before(&2));
}

#[test]
fn time_duplicates_and_advances() {
    assert_eq!(41u64.duplicate(), 41);
    assert_eq!(41u64.advanced_by(&1), 42);
    assert_eq!(u64::MAX.advanced_by(&0), u64::MAX);
    assert_eq!((-5i64).advanced_by(&15), 10);
    assert_eq!(10i32.advanced_by(&-15), -5);
    assert_eq!(7u32.advanced_by(&8), 15);
    assert_eq!(7usize.advanced_by(&8), 15);
    assert_eq!((-3i32).duplicate(), -3);
}

#[test]
fn time_knows_what_it_can_hold() {
    assert!(u64::MAX.can_advance_by(&0));
    assert!(!u64::MAX.can_advance_by(&1));
    assert!((u64::MAX - 5).can_advance_by(&5));
    assert!(!(u64::MAX - 5).can_advance_by(&6));
    assert!(!1u32.can_advance_by(&u32::MAX));
    assert!(0usize.can_advance_by(&usize::MAX));
    assert!(i64::MAX.can_advance_by(&-1));
    assert!(!i64::MAX.can_advance_by(&1));
    assert!(i64::MIN.can_advance_by(&1));
    assert!(!i64::MIN.can_advance_by(&-1));
    assert!(0i64.can_advance_by(&i64::MIN));
    assert!(!(-1i64).can_advance_by(&i64::MIN));
    assert!(i32::MIN.can_advance_by(&i32::MAX));
    assert!(!i32::MAX.can_advance_by(&i32::MAX));
    assert!(0i32.can_advance_by(&i32::MIN));
}

#[test]
fn waiting_compares_by_time_reversed() {
    let early = entry(5, 9);
    let late = entry(8, 1);
    assert_eq!(early.cmp(&late), Ordering::Greater);
    assert_eq!(late.cmp(&early), Ordering::Less);
    assert_eq!(early.cmp(&entry(5, 2)), Ordering::Equal);
    assert_eq!(early.partial_cmp(&late), Some(Ordering::Greater));
    assert_eq!(late.partial_cmp(&early), Some(Ordering::Less));
    assert_eq!(late.partial_cmp(&entry(8, 77)), Some(Ordering::Equal));
    assert!(early > late);
    assert!(late < early);
    assert!(early >= entry(5, 0));
    assert!(early <= entry(5, 0));
}

#[test]
fn waiting_is_equal_when_times_are() {
    assert!(entry(5, 1) == entry(5, 2));
    assert!(entry(5, 1) != entry(6, 1));
    assert!(entry(0, 0) == entry(0, 0));
}

#[test]
fn waiting_is_due_before_goes_by_time_alone() {
    assert!(entry(5, 9).is_due_before(&entry(8, 1)));
    assert!(!entry(8, 1).is_due_before(&entry(5, 9)));
    assert!(!entry(5, 1).is_due_before(&entry(5, 2)));
}

#[test]
fn new_queue_is_empty() {
    let mut queue = WaitQueue::<u64>::new();
    assert_eq!(queue.len(), 0);
    assert!(queue.is_empty());
    assert!(queue.peek().is_none());
    assert!(queue.pop().is_none());
    assert!(!queue.mentions(0));
}

#[test]
fn queue_pops_in_ascending_time() {
    let mut queue = WaitQueue::new();
    for (time, id) in [(50u64, 1usize), (10, 2), (40, 3), (20, 4), (30, 5), (0, 6), (60, 7)] {
        queue.push(entry(time, id));
    }
    assert_eq!(queue.len(), 7);
    assert!(!queue.is_empty());
    assert_eq!(
        drain(&mut queue),
        vec![(0, 6), (10, 2), (20, 4), (30, 5), (40, 3), (50, 1), (60, 7)]
    );
    assert!(queue.is_empty());
}

#[test]
fn queue_peek_shows_what_pop_takes() {
    let mut queue = WaitQueue::new();
    queue.push(entry(9, 1));
    queue.push(entry(3, 2));
    queue.push(entry(6, 3));
    let seen = queue.peek().map(|first| (first.time, first.id));
    assert_eq!(seen, Some((3, 2)));
    assert_eq!(queue.len(), 3);
    let taken = queue.pop().map(|first| (first.time, first.id));
    assert_eq!(taken, Some((3, 2)));
    assert_eq!(queue.len(), 2);
    assert_eq!(queue.peek().map(|first| first.time), Some(6));
}

#[test]
fn queue_keeps_every_entry_of_equal_time() {
    let mut queue = WaitQueue::new();
    for id in 0..5usize {
        queue.push(entry(7, id));
    }
    queue.push(entry(1, 100));
    let mut out = drain(&mut queue);
    assert_eq!(out[0], (1, 100));
    assert!(out[1..].iter().all(|&(time, _)| time == 7));
    out.sort();
    assert_eq!(out, vec![(1, 100), (7, 0), (7, 1), (7, 2), (7, 3), (7, 4)]);
}

#[test]
fn queue_holds_one_task_more_than_once() {
    let mut queue = WaitQueue::new();
    queue.push(entry(20, 4));
    queue.push(entry(10, 4));
    queue.push(entry(20, 4));
    assert_eq!(queue.len(), 3);
    assert_eq!(drain(&mut queue), vec![(10, 4), (20, 4), (20, 4)]);
}

#[test]
fn queue_mentions_only_tasks_with_an_entry() {
    let mut queue = WaitQueue::new();
    queue.push(entry(4, 11));
    queue.push(entry(2, 12));
    queue.push(entry(8, 13));
    assert!(queue.mentions(11));
    assert!(queue.mentions(12));
    assert!(queue.mentions(13));
    assert!(!queue.mentions(14));
    queue.pop();
    assert!(!queue.mentions(12));
    assert!(queue.mentions(11));
}

#[test]
fn queue_orders_many_entries() {
    let mut queue = WaitQueue::new();
    let mut expected = Vec::new();
    let mut seed: u64 = 12345;
    for id in 0..500usize {
        seed = seed.wrapping_mul(6364136223846793005).wrapping_add(1442695040888963407);
        let time = (seed >> 33) % 1000;
        queue.push(entry(time, id));
        expected.push(time);
    }
    expected.sort();
    let times: Vec<u64> = drain(&mut queue).into_iter().map(|(time, _)| time).collect();
    assert_eq!(times, expected);
}

#[test]
fn queue_orders_when_pushes_and_pops_alternate() {
    let mut queue = WaitQueue::new();
    queue.push(entry(5, 1));
    queue.push(entry(3, 2));
    assert_eq!(queue.pop().map(|first| first.time), Some(3));
    queue.push(entry(4, 3));
    queue.push(entry(1, 4));
    assert_eq!(queue.pop().map(|first| first.time), Some(1));
    assert_eq!(queue.pop().map(|first| first.time), Some(4));
    queue.push(entry(9, 5));
    assert_eq!(queue.pop().map(|first| first.time), Some(5));
    assert_eq!(queue.pop().map(|first| first.time), Some(9));
    assert_eq!(queue.pop().map(|first| first.time), None);
}
