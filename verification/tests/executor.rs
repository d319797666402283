use ak_os_kernel::task::executor::{
    Executor, IdleStep, PassRecord, Polled, TaskPoll, TASK_QUEUE_CAPACITY,
};
use ak_os_kernel::task::{Poll, Task, TaskId, TaskIds};
use ak_os_kernel::time::Time;
use ak_os_kernel::util::spinlock::RawSpinlock;
use std::cell::RefCell;

#[test]
fn task_ids_count_up_from_zero() {
    let mut ids = TaskIds::new();
    assert_eq!(TaskId::new(&mut ids), TaskId(0));
    assert_eq!(TaskId::new(&mut ids), TaskId(1));
    let t = Task::new(&mut ids);
    assert_eq!(t.id(), TaskId(2));
    assert_eq!(t.name(), None);
    let t = Task::new_with_name("keyboard", &mut ids);
    assert_eq!(t.id(), TaskId(3));
    assert_eq!(t.name(), Some("keyboard"));
}

#[test]
fn spawn_files_the_task_and_marks_it_ready() {
    let mut ids = TaskIds::new();
    let mut exec = Executor::new();
    assert_eq!(exec.pending(), 0);
    let t = Task::new(&mut ids);
    assert!(exec.can_spawn(&t));
    exec.spawn(t);
    assert!(exec.contains(TaskId(0)));
    assert!(!exec.contains(TaskId(1)));
    assert_eq!(exec.task_count(), 1);
    assert_eq!(exec.pending(), 1);
    let mut other_ids = TaskIds::new();
    let twin = Task::new(&mut other_ids);
    assert!(!exec.can_spawn(&twin));
}

#[test]
fn a_pass_polls_in_wake_order() {
    let mut ids = TaskIds::new();
    let mut exec = Executor::new();
    for _ in 0..3 {
        exec.spawn(Task::new(&mut ids));
    }
    exec.wake(TaskId(1));
    let mut budget = exec.pending();
    assert_eq!(budget, 4);
    let mut order = Vec::new();
    while let Some(id) = exec.next_ready(&mut budget) {
        order.push(id);
        exec.task_polled(id, false);
    }
    assert_eq!(order, vec![TaskId(0), TaskId(1), TaskId(2), TaskId(1)]);
    assert_eq!(exec.pending(), 0);
}

#[test]
fn a_task_that_wakes_itself_waits_for_the_next_pass() {
    let mut ids = TaskIds::new();
    let mut exec = Executor::new();
    exec.spawn(Task::new(&mut ids));
    exec.spawn(Task::new(&mut ids));
    let mut budget = exec.pending();
    assert_eq!(exec.next_ready(&mut budget), Some(TaskId(0)));
    exec.wake(TaskId(0));
    exec.task_polled(TaskId(0), false);
    assert_eq!(exec.next_ready(&mut budget), Some(TaskId(1)));
    exec.task_polled(TaskId(1), false);
    assert_eq!(exec.next_ready(&mut budget), None);
    assert_eq!(budget, 0);
    assert_eq!(exec.pending(), 1);
    let mut budget = exec.pending();
    assert_eq!(exec.next_ready(&mut budget), Some(TaskId(0)));
}

#[test]
fn finished_tasks_leave_and_their_ids_are_dropped() {
    let mut ids = TaskIds::new();
    let mut exec = Executor::new();
    exec.spawn(Task::new(&mut ids));
    exec.spawn(Task::new(&mut ids));
    let mut budget = exec.pending();
    assert_eq!(exec.next_ready(&mut budget), Some(TaskId(0)));
    exec.task_polled(TaskId(0), true);
    assert!(!exec.contains(TaskId(0)));
    assert_eq!(exec.task_count(), 1);
    exec.wake(TaskId(0));
    exec.wake(TaskId(0));
    assert_eq!(exec.next_ready(&mut budget), Some(TaskId(1)));
    exec.task_polled(TaskId(1), false);
    let mut budget = exec.pending();
    assert_eq!(budget, 2);
    assert_eq!(exec.next_ready(&mut budget), None);
    assert_eq!(exec.pending(), 0);
}

#[test]
fn the_ready_queue_is_bounded() {
    let mut ids = TaskIds::new();
    let mut exec = Executor::new();
    exec.spawn(Task::new(&mut ids));
    let mut n = 1;
    while exec.has_room() {
        exec.wake(TaskId(0));
        n += 1;
    }
    assert_eq!(n, TASK_QUEUE_CAPACITY);
    assert_eq!(exec.pending(), 1024);
    let t = Task::new(&mut ids);
    assert!(!exec.can_spawn(&t));
}

#[test]
fn an_idle_processor_looks_twice_before_it_halts() {
    let mut ids = TaskIds::new();
    let mut exec = Executor::new();
    assert_eq!(exec.sleep_if_idle(false), IdleStep::DisableInterrupts);
    assert_eq!(exec.sleep_if_idle(true), IdleStep::EnableAndHalt);
    exec.spawn(Task::new(&mut ids));
    assert_eq!(exec.sleep_if_idle(false), IdleStep::Continue);
    assert_eq!(exec.sleep_if_idle(true), IdleStep::EnableInterrupts);
}

/// A task of the scenario below: it locks the counter, changes it by
/// `delta`, unlocks, and sleeps `pause` ticks, `rounds` times over.
struct Worker {
    id: TaskId,
    delta: i32,
    pause: u64,
    rounds: Option<u32>,
    sleeping: Option<usize>,
    holds_lock: bool,
    result: Option<i32>,
}

impl Worker {
    fn poll(&mut self, lock: &mut RawSpinlock, counter: &mut i32, time: &mut Time) -> bool {
        loop {
            if let Some(slot) = self.sleeping {
                if time.poll_sleep(slot, self.id) == Poll::Pending {
                    return false;
                }
                self.sleeping = None;
            }
            if lock.poll(self.id) == Poll::Pending {
                return false;
            }
            assert!(!self.holds_lock);
            self.holds_lock = true;
            if self.rounds == Some(0) {
                self.result = Some(*counter);
                self.holds_lock = false;
                lock.unlock();
                return true;
            }
            *counter += self.delta;
            self.holds_lock = false;
            lock.unlock();
            if let Some(r) = self.rounds.as_mut() {
                *r -= 1;
            }
            self.sleeping = Some(time.sleep(self.pause));
        }
    }
}

#[test]
fn two_tasks_share_a_counter_by_the_clock() {
    let mut ids = TaskIds::new();
    let mut exec = Executor::new();
    let time = Time::new();
    let lock = RawSpinlock::new();
    let counter = 0i32;
    let a = Task::new(&mut ids);
    let b = Task::new(&mut ids);
    let workers = vec![
        Worker { id: a.id(), delta: -1, pause: 3, rounds: Some(50), sleeping: None, holds_lock: false, result: None },
        Worker { id: b.id(), delta: 1, pause: 2, rounds: None, sleeping: None, holds_lock: false, result: None },
    ];
    exec.spawn(a);
    exec.spawn(b);
    let state = RefCell::new((workers, lock, counter, time));
    let mut ticks = 0;
    loop {
        let record = exec.run_ready_tasks(|id| {
            let mut guard = state.borrow_mut();
            let (workers, lock, counter, time) = &mut *guard;
            let worker = workers.iter_mut().find(|w| w.id == id).unwrap();
            TaskPoll { done: worker.poll(lock, counter, time), woken: Vec::new() }
        });
        assert!(record.lost.is_empty());
        if record.polled.iter().any(|p| p.task == TaskId(0) && p.outcome.done) {
            break;
        }
        if exec.sleep_if_idle(false) == IdleStep::DisableInterrupts
            && exec.sleep_if_idle(true) == IdleStep::EnableAndHalt
        {
            state.borrow_mut().3.increment();
            ticks += 1;
            assert!(ticks <= 1000);
        }
        let due = state.borrow_mut().3.wake_sleepers();
        for id in due {
            exec.wake(id);
        }
    }
    let (workers, _lock, _counter, time) = state.into_inner();
    assert_eq!(workers[0].result, Some(25));
    assert_eq!(time.boot_elapsed(), 150);
    assert!(!exec.contains(TaskId(0)));
    assert!(exec.contains(TaskId(1)));
}

#[test]
fn ten_sleeps_of_five_ticks_take_fifty_ticks() {
    let mut ids = TaskIds::new();
    let mut exec = Executor::new();
    let mut time = Time::new();
    let task = Task::new(&mut ids);
    let id = task.id();
    exec.spawn(task);
    let mut sleeps_left = 10;
    let mut slot: Option<usize> = None;
    let mut finished_at = None;
    while finished_at.is_none() {
        let mut budget = exec.pending();
        while let Some(next) = exec.next_ready(&mut budget) {
            assert_eq!(next, id);
            let mut done = false;
            loop {
                if let Some(s) = slot {
                    if time.poll_sleep(s, id) == Poll::Pending {
                        break;
                    }
                    slot = None;
                }
                if sleeps_left == 0 {
                    finished_at = Some(time.boot_elapsed());
                    done = true;
                    break;
                }
                sleeps_left -= 1;
                slot = Some(time.sleep(5));
            }
            exec.task_polled(next, done);
        }
        if exec.sleep_if_idle(false) == IdleStep::DisableInterrupts {
            time.increment();
        }
        for woken in time.wake_sleepers() {
            exec.wake(woken);
        }
    }
    assert_eq!(finished_at, Some(50));
}

#[test]
fn additional_processors_wait_for_the_main_loop() {
    let mut exec = Executor::new();
    assert!(!exec.schedule());
    exec.run();
    assert!(exec.schedule());
}

fn polled(task: u64, done: bool, woken: &[u64]) -> Polled {
    Polled {
        task: TaskId(task),
        outcome: TaskPoll { done, woken: woken.iter().map(|id| TaskId(*id)).collect() },
    }
}

#[test]
fn a_pass_records_what_it_polled() {
    let mut ids = TaskIds::new();
    let mut exec = Executor::new();
    for _ in 0..3 {
        exec.spawn(Task::new(&mut ids));
    }
    exec.wake(TaskId(1));
    exec.wake(TaskId(7));
    exec.wake(TaskId(0));
    let polls = RefCell::new(Vec::new());
    let record = exec.run_ready_tasks(|id| {
        polls.borrow_mut().push(id);
        TaskPoll { done: id == TaskId(1), woken: Vec::new() }
    });
    assert_eq!(polls.into_inner(), vec![TaskId(0), TaskId(1), TaskId(2), TaskId(0)]);
    assert_eq!(
        record,
        PassRecord {
            polled: vec![
                polled(0, false, &[]),
                polled(1, true, &[]),
                polled(2, false, &[]),
                polled(0, false, &[]),
            ],
            lost: Vec::new(),
        }
    );
    assert_eq!(exec.pending(), 0);
    assert!(exec.contains(TaskId(0)));
    assert!(!exec.contains(TaskId(1)));
    assert!(exec.contains(TaskId(2)));
    let empty = exec.run_ready_tasks(|_| TaskPoll { done: true, woken: Vec::new() });
    assert_eq!(empty, PassRecord { polled: Vec::new(), lost: Vec::new() });
    assert_eq!(exec.task_count(), 2);
}

#[test]
fn a_task_that_wakes_itself_in_its_poll_is_polled_once_per_pass() {
    let mut ids = TaskIds::new();
    let mut exec = Executor::new();
    exec.spawn(Task::new(&mut ids));
    exec.spawn(Task::new(&mut ids));
    for _ in 0..3 {
        let record = exec.run_ready_tasks(|id| TaskPoll {
            done: false,
            woken: if id == TaskId(0) { vec![id] } else { Vec::new() },
        });
        assert_eq!(record.polled.iter().filter(|p| p.task == TaskId(0)).count(), 1);
        assert!(record.lost.is_empty());
        assert_eq!(exec.pending(), 1);
        let mut budget = exec.pending();
        assert_eq!(exec.next_ready(&mut budget), Some(TaskId(0)));
        exec.wake(TaskId(0));
    }
}

#[test]
fn tasks_woken_in_a_pass_are_queued_behind_it_in_order() {
    let mut ids = TaskIds::new();
    let mut exec = Executor::new();
    for _ in 0..3 {
        exec.spawn(Task::new(&mut ids));
    }
    let record = exec.run_ready_tasks(|id| TaskPoll {
        done: id == TaskId(1),
        woken: match id.0 {
            0 => vec![TaskId(2), TaskId(0)],
            2 => vec![TaskId(1)],
            _ => Vec::new(),
        },
    });
    assert_eq!(
        record.polled,
        vec![polled(0, false, &[2, 0]), polled(1, true, &[]), polled(2, false, &[1])]
    );
    let order = RefCell::new(Vec::new());
    exec.run_ready_tasks(|id| {
        order.borrow_mut().push(id);
        TaskPoll { done: false, woken: Vec::new() }
    });
    assert_eq!(order.into_inner(), vec![TaskId(2), TaskId(0)]);
}

#[test]
fn a_wake_up_that_finds_the_queue_full_is_reported() {
    let mut ids = TaskIds::new();
    let mut exec = Executor::new();
    exec.spawn(Task::new(&mut ids));
    while exec.has_room() {
        exec.wake(TaskId(9));
    }
    let record = exec.run_ready_tasks(|_| TaskPoll {
        done: false,
        woken: vec![TaskId(0), TaskId(0), TaskId(0)],
    });
    assert_eq!(record.polled.len(), 1);
    assert_eq!(record.lost, vec![TaskId(0), TaskId(0)]);
    assert_eq!(exec.pending(), 1);
    let record = exec.run_ready_tasks(|_| TaskPoll {
        done: false,
        woken: (0..1025).map(|n| TaskId(n % 2)).collect(),
    });
    assert_eq!(record.polled.len(), 1);
    assert_eq!(record.lost, vec![TaskId(0)]);
    assert_eq!(exec.pending(), 1024);
    assert!(!exec.has_room());
}
