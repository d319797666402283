use ak_os_kernel::task::{Poll, TaskId};
use ak_os_kernel::time::{boot_elapsed, sleep_sync, SleepCounter, Time};

#[test]
fn the_clock_counts_ticks() {
    let mut time = Time::new();
    assert_eq!(boot_elapsed(None), 0);
    assert_eq!(boot_elapsed(Some(&time)), 0);
    time.increment();
    time.increment();
    assert_eq!(time.boot_elapsed(), 2);
    assert_eq!(boot_elapsed(Some(&time)), 2);
}

#[test]
fn a_sleep_is_over_at_its_deadline_and_not_before() {
    let c = SleepCounter::new(5, 10);
    assert!(!c.is_done(10));
    assert!(!c.is_done(14));
    assert!(c.is_done(15));
    assert!(c.is_done(16));
    assert!(SleepCounter::new(0, 3).is_done(3));
    assert!(!SleepCounter::new(u64::MAX, 1).is_done(u64::MAX));
}

#[test]
fn a_sleeper_resumes_only_at_its_deadline() {
    let mut time = Time::new();
    time.increment();
    let slot = time.sleep(3);
    assert_eq!(slot, 0);
    for _ in 0..3 {
        assert_eq!(time.poll_sleep(slot, TaskId(1)), Poll::Pending);
        assert!(time.boot_elapsed() < 4);
        time.increment();
    }
    assert_eq!(time.boot_elapsed(), 4);
    assert_eq!(time.wake_sleepers(), vec![TaskId(1)]);
    assert_eq!(time.wake_sleepers(), Vec::new());
    assert_eq!(time.poll_sleep(slot, TaskId(1)), Poll::Ready(()));
    assert_eq!(time.poll_sleep(slot, TaskId(1)), Poll::Ready(()));
    assert_eq!(time.poll_sleep(17, TaskId(1)), Poll::Ready(()));
}

#[test]
fn the_pass_wakes_the_due_sleepers_in_slot_order() {
    let mut time = Time::new();
    let a = time.sleep(2);
    let b = time.sleep(1);
    let c = time.sleep(2);
    assert_eq!((a, b, c), (0, 1, 2));
    assert_eq!(time.poll_sleep(a, TaskId(10)), Poll::Pending);
    assert_eq!(time.poll_sleep(b, TaskId(11)), Poll::Pending);
    assert_eq!(time.wake_sleepers(), Vec::new());
    time.increment();
    assert_eq!(time.wake_sleepers(), vec![TaskId(11)]);
    assert_eq!(time.poll_sleep(c, TaskId(12)), Poll::Pending);
    time.increment();
    assert_eq!(time.wake_sleepers(), vec![TaskId(10), TaskId(12)]);
}

#[test]
fn a_finished_sleep_frees_its_slot() {
    let mut time = Time::new();
    let a = time.sleep(0);
    let b = time.sleep(5);
    assert_eq!(time.poll_sleep(a, TaskId(1)), Poll::Ready(()));
    assert_eq!(time.sleep(1), a);
    assert_eq!(time.sleep(1), 2);
    assert_eq!(time.poll_sleep(b, TaskId(2)), Poll::Pending);
}

#[test]
fn a_counter_for_a_caller_that_spins() {
    let mut time = Time::new();
    time.increment();
    let c = sleep_sync(&time, 2);
    assert_eq!(c, SleepCounter::new(2, 1));
    let mut spins = 0;
    while !c.is_done(time.boot_elapsed()) {
        time.increment();
        spins += 1;
    }
    assert_eq!(spins, 2);
}

#[test]
fn a_counter_polls_and_wakes_on_its_own() {
    let mut c = SleepCounter::new(2, 0);
    assert_eq!(c.wake(5), None);
    let mut c2 = SleepCounter::new(2, 0);
    assert_eq!(c2.poll(1, TaskId(3)), Poll::Pending);
    assert_eq!(c2.wake(1), None);
    assert_eq!(c2.wake(2), Some(TaskId(3)));
    assert_eq!(c2.wake(2), None);
    assert_eq!(c2.poll(2, TaskId(3)), Poll::Ready(()));
    assert_eq!(c.poll(2, TaskId(3)), Poll::Ready(()));
}
