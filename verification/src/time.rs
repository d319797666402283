//! Elapsed time since boot, and tasks that sleep.
//!
//! Time is counted in ticks of the timer interrupt. A task that sleeps for
//! `n` ticks gets a counter that is done once `n` ticks have passed since it
//! was made; the task is woken by the pass over the counters that the
//! scheduler makes after each round, and its counter goes away when the task
//! finds it done.

use crate::task::waker::WakerSlot;
use crate::task::{Poll, TaskId};
use vstd::prelude::*;

verus! {

/// A sleep of `dur` ticks that began at tick `start`.
#[derive(Clone, Copy, Debug, PartialEq, Eq, Structural)]
pub struct SleepCounter {
    /// Number of ticks to sleep.
    pub dur: u64,
    /// The tick at which the sleep began.
    pub start: u64,
    /// Where the sleeping task leaves word that it wants to be woken.
    pub waker: WakerSlot,
}

impl SleepCounter {
    /// Number of ticks to sleep.
    pub open spec fn dur(&self) -> u64 {
        self.dur
    }

    /// The tick at which the sleep began.
    pub open spec fn start(&self) -> u64 {
        self.start
    }

    /// The task that is registered to be woken, if one is.
    pub open spec fn waiter(&self) -> Option<TaskId> {
        self.waker.waiter()
    }

    /// Whether the sleep is over at tick `now`.
    pub open spec fn done_at(&self, now: u64) -> bool {
        self.start() + self.dur() <= now
    }

    /// The same counter with nobody registered.
    pub open spec fn cleared(&self) -> SleepCounter {
        SleepCounter { dur: self.dur, start: self.start, waker: WakerSlot { waiter: None } }
    }

    /// The same counter with `task` registered.
    pub open spec fn registered(&self, task: TaskId) -> SleepCounter {
        SleepCounter { dur: self.dur, start: self.start, waker: WakerSlot { waiter: Some(task) } }
    }

    /// A sleep of `dur` ticks that begins at tick `now`.
    pub fn new(dur: u64, now: u64) -> (c: SleepCounter)
        ensures
            c == sleep_from(dur, now),
            c.dur() == dur,
            c.start() == now,
            c.waiter() is None,
    {
        SleepCounter { dur, start: now, waker: WakerSlot::new() }
    }

    /// Tells whether the sleep is over at tick `now`. A sleep whose end lies
    /// beyond the last tick that can be counted is never over.
    pub fn is_done(&self, now: u64) -> (b: bool)
        ensures
            b == self.done_at(now),
    {
        match self.start.checked_add(self.dur) {
            Some(end) => end <= now,
            None => false,
        }
    }

    /// One poll of the sleeping `task` at tick `now`. The task goes on if
    /// the sleep is over. Else it is registered for the wake-up, the counter
    /// is looked at once more, and the task waits.
    pub fn poll(&mut self, now: u64, task: TaskId) -> (res: Poll<()>)
        ensures
            final(self).dur() == old(self).dur(),
            final(self).start() == old(self).start(),
            old(self).done_at(now) ==> res == Poll::Ready(()) && *final(self) == *old(self),
            !old(self).done_at(now) ==> res == Poll::<()>::Pending && *final(self) == old(self).registered(task)
                && final(self).waiter() == Some(task),
    {
        if self.is_done(now) {
            return Poll::Ready(());
        }
        self.waker.register(task);
        if self.is_done(now) {
            let _ = self.waker.take();
            Poll::Ready(())
        } else {
            Poll::Pending
        }
    }

    /// Hands out the registered task if the sleep is over at tick `now`, to
    /// be marked as ready.
    pub fn wake(&mut self, now: u64) -> (woken: Option<TaskId>)
        ensures
            final(self).dur() == old(self).dur(),
            final(self).start() == old(self).start(),
            woken == due(Some(*old(self)), now),
            Some(*final(self)) == after_wake(Some(*old(self)), now),
            old(self).done_at(now) ==> woken == old(self).waiter() && final(self).waiter() is None,
            !old(self).done_at(now) ==> woken is None && *final(self) == *old(self),
    {
        if self.is_done(now) {
            self.waker.wake()
        } else {
            None
        }
    }
}

/// The task that a pass over the counters wakes from this slot at tick
/// `now`: the one registered with a counter whose sleep is over.
pub open spec fn due(slot: Option<SleepCounter>, now: u64) -> Option<TaskId> {
    match slot {
        Some(c) => if c.done_at(now) {
            c.waiter()
        } else {
            None
        },
        None => None,
    }
}

/// The slot after a pass over the counters at tick `now`: a counter whose
/// sleep is over has nobody registered any more.
pub open spec fn after_wake(slot: Option<SleepCounter>, now: u64) -> Option<SleepCounter> {
    match slot {
        Some(c) => if c.done_at(now) {
            Some(c.cleared())
        } else {
            Some(c)
        },
        None => None,
    }
}

/// The tasks that a pass over the slots wakes at tick `now`, in the order of
/// the slots.
pub open spec fn woken(slots: Seq<Option<SleepCounter>>, now: u64) -> Seq<TaskId>
    decreases slots.len(),
{
    if slots.len() == 0 {
        Seq::empty()
    } else {
        woken(slots.drop_last(), now) + match due(slots.last(), now) {
            Some(task) => seq![task],
            None => Seq::empty(),
        }
    }
}

/// Index of the first empty slot, or the number of slots where none is empty.
pub open spec fn first_free(slots: Seq<Option<SleepCounter>>) -> int
    decreases slots.len(),
{
    if slots.len() == 0 || slots[0] is None {
        0
    } else {
        1 + first_free(slots.skip(1))
    }
}

/// `first_free` gives the least index of an empty slot.
pub proof fn lemma_first_free(slots: Seq<Option<SleepCounter>>)
    ensures
        0 <= first_free(slots) <= slots.len(),
        first_free(slots) < slots.len() ==> slots[first_free(slots)] is None,
        forall|i: int| 0 <= i < first_free(slots) ==> (#[trigger] slots[i]) is Some,
    decreases slots.len(),
{
    if slots.len() > 0 && slots[0] is Some {
        let rest = slots.skip(1);
        lemma_first_free(rest);
        assert forall|i: int| 0 <= i < first_free(slots) implies (#[trigger] slots[i]) is Some by {
            if i > 0 {
                assert(slots[i] == rest[i - 1]);
            }
        }
    }
}

/// A count of taken slots that ends at an empty slot, or at the end, is the
/// index of the first empty slot.
proof fn lemma_first_free_is(slots: Seq<Option<SleepCounter>>, n: int)
    requires
        0 <= n <= slots.len(),
        forall|i: int| 0 <= i < n ==> (#[trigger] slots[i]) is Some,
        n < slots.len() ==> slots[n] is None,
    ensures
        first_free(slots) == n,
{
    lemma_first_free(slots);
    let f = first_free(slots);
    if f < n {
        assert(slots[f] is Some);
    } else if n < f {
        assert(slots[n] is Some);
    }
}

/// The clock of the kernel and the tasks that sleep by it.
#[derive(Debug)]
pub struct Time {
    boot_elapsed: u64,
    sleepers: Vec<Option<SleepCounter>>,
}

impl Time {
    /// Ticks since boot.
    pub closed spec fn now(&self) -> u64 {
        self.boot_elapsed
    }

    /// The slots of the sleep counters. A sleep keeps its slot until it is
    /// found over by its task; then the slot is empty again.
    pub closed spec fn sleepers(&self) -> Seq<Option<SleepCounter>> {
        self.sleepers@
    }

    /// A clock at tick zero with nobody asleep.
    pub fn new() -> (t: Time)
        ensures
            t.now() == 0,
            t.sleepers() == Seq::<Option<SleepCounter>>::empty(),
    {
        Time { boot_elapsed: 0, sleepers: Vec::new() }
    }

    /// Ticks since boot.
    pub fn boot_elapsed(&self) -> (n: u64)
        ensures
            n == self.now(),
    {
        self.boot_elapsed
    }

    /// Counts one tick. After the largest 64-bit number the count starts
    /// again at zero.
    pub fn increment(&mut self)
        ensures
            final(self).sleepers() == old(self).sleepers(),
            final(self).now() == if old(self).now() == u64::MAX {
                0
            } else {
                (old(self).now() + 1) as u64
            },
    {
        self.boot_elapsed = if self.boot_elapsed == u64::MAX {
            0
        } else {
            self.boot_elapsed + 1
        };
    }

    /// Begins a sleep of `n` ticks and tells its slot, by which the sleeping
    /// task polls it. The first empty slot is taken; without one, a new slot
    /// is made.
    pub fn sleep(&mut self, n: u64) -> (slot: usize)
        ensures
            final(self).now() == old(self).now(),
            slot == first_free(old(self).sleepers()),
            slot < old(self).sleepers().len() ==> final(self).sleepers() == old(self).sleepers().update(slot as int, Some(sleep_from(n, old(self).now()))),
            slot == old(self).sleepers().len() ==> final(self).sleepers() == old(self).sleepers().push(Some(sleep_from(n, old(self).now()))),
    {
        let counter = SleepCounter::new(n, self.boot_elapsed);
        let mut i: usize = 0;
        while i < self.sleepers.len()
            invariant
                0 <= i <= self.sleepers@.len(),
                *self == *old(self),
                counter == sleep_from(n, old(self).now()),
                forall|j: int| 0 <= j < i ==> (#[trigger] self.sleepers@[j]) is Some,
            decreases self.sleepers@.len() - i,
        {
            if self.sleepers[i].is_none() {
                proof {
                    lemma_first_free_is(self.sleepers@, i as int);
                }
                self.sleepers[i] = Some(counter);
                return i;
            }
            i += 1;
        }
        proof {
            lemma_first_free_is(self.sleepers@, i as int);
        }
        self.sleepers.push(Some(counter));
        i
    }

    /// One poll of the task that sleeps in `slot`. A sleep that is over ends
    /// here: the task goes on and the slot is emptied. Else the task is
    /// registered for the wake-up and waits. A slot without a sleep lets the
    /// task go on.
    pub fn poll_sleep(&mut self, slot: usize, task: TaskId) -> (res: Poll<()>)
        ensures
            final(self).now() == old(self).now(),
            slot >= old(self).sleepers().len() || old(self).sleepers()[slot as int] is None ==> res
                == Poll::Ready(()) && final(self).sleepers() == old(self).sleepers(),
            slot < old(self).sleepers().len() && old(self).sleepers()[slot as int] is Some ==> ({
                let c = old(self).sleepers()[slot as int].unwrap();
                if c.done_at(old(self).now()) {
                    res == Poll::Ready(()) && final(self).sleepers() == old(self).sleepers().update(
                        slot as int,
                        None,
                    )
                } else {
                    res == Poll::<()>::Pending && final(self).sleepers() == old(
                        self
                    ).sleepers().update(slot as int, Some(c.registered(task)))
                }
            }),
    {
        if slot >= self.sleepers.len() {
            return Poll::Ready(());
        }
        let mut counter = match self.sleepers[slot] {
            Some(c) => c,
            None => { return Poll::Ready(()); },
        };
        match counter.poll(self.boot_elapsed, task) {
            Poll::Ready(()) => {
                self.sleepers[slot] = None;
                Poll::Ready(())
            },
            Poll::Pending => {
                self.sleepers[slot] = Some(counter);
                Poll::Pending
            },
        }
    }

    /// The pass over the counters: each task that is registered with a
    /// counter whose sleep is over is handed out, in the order of the slots,
    /// to be marked as ready; its registration is used up.
    pub fn wake_sleepers(&mut self) -> (tasks: Vec<TaskId>)
        ensures
            final(self).now() == old(self).now(),
            tasks@ == woken(old(self).sleepers(), old(self).now()),
            final(self).sleepers().len() == old(self).sleepers().len(),
            forall|i: int|
                0 <= i < old(self).sleepers().len() ==> #[trigger] final(self).sleepers()[i]
                    == after_wake(old(self).sleepers()[i], old(self).now()),
    {
        let mut tasks: Vec<TaskId> = Vec::new();
        let now = self.boot_elapsed;
        let n = self.sleepers.len();
        let ghost before = self.sleepers@;
        let mut i: usize = 0;
        assert(before.take(0) =~= Seq::<Option<SleepCounter>>::empty());
        while i < n
            invariant
                0 <= i <= n,
                n == before.len(),
                before == old(self).sleepers(),
                now == old(self).now(),
                self.boot_elapsed == now,
                self.sleepers@.len() == n,
                tasks@ == woken(before.take(i as int), now),
                forall|j: int| 0 <= j < i ==> #[trigger] self.sleepers@[j] == after_wake(before[j], now),
                forall|j: int| i <= j < n ==> #[trigger] self.sleepers@[j] == before[j],
            decreases n - i,
        {
            proof {
                assert(before.take(i + 1).drop_last() =~= before.take(i as int));
            }
            let ghost tasks0 = tasks@;
            match self.sleepers[i] {
                Some(c) => {
                    let mut counter = c;
                    if let Some(task) = counter.wake(now) {
                        tasks.push(task);
                        assert(tasks@ =~= tasks0 + seq![task]);
                    } else {
                        assert(tasks@ =~= tasks0 + Seq::<TaskId>::empty());
                    }
                    self.sleepers[i] = Some(counter);
                },
                None => {
                    assert(tasks@ =~= tasks0 + Seq::<TaskId>::empty());
                },
            }
            i += 1;
        }
        assert(before.take(n as int) =~= before);
        tasks
    }
}

/// The counter of a sleep of `n` ticks that begins at tick `now`.
pub open spec fn sleep_from(n: u64, now: u64) -> SleepCounter {
    SleepCounter::new_spec(n, now)
}

impl SleepCounter {
    /// The counter of a sleep of `dur` ticks that begins at tick `now`, with
    /// nobody registered.
    pub open spec fn new_spec(dur: u64, now: u64) -> SleepCounter {
        SleepCounter { dur, start: now, waker: WakerSlot { waiter: None } }
    }
}

/// Ticks since boot, or zero while there is no clock yet.
pub fn boot_elapsed(time: Option<&Time>) -> (n: u64)
    ensures
        n == match time {
            Some(t) => t.now(),
            None => 0,
        },
{
    match time {
        Some(t) => t.boot_elapsed(),
        None => 0,
    }
}

/// The counter for a caller that cannot be suspended and sleeps `n` ticks by
/// looking at the clock until the counter is done.
pub fn sleep_sync(time: &Time, n: u64) -> (c: SleepCounter)
    ensures
        c == sleep_from(n, time.now()),
{
    SleepCounter::new(n, time.boot_elapsed())
}

/// A pass over counters that a pass at the same tick has just gone over
/// wakes nobody: each registration is used up by the pass that wakes its
/// task.
pub proof fn law_second_pass_wakes_nobody(
    before: Seq<Option<SleepCounter>>,
    after: Seq<Option<SleepCounter>>,
    now: u64,
)
    requires
        after.len() == before.len(),
        forall|i: int| 0 <= i < before.len() ==> #[trigger] after[i] == after_wake(before[i], now),
    ensures
        woken(after, now) == Seq::<TaskId>::empty(),
    decreases before.len(),
{
    if before.len() > 0 {
        law_second_pass_wakes_nobody(before.drop_last(), after.drop_last(), now);
        assert(after.last() == after_wake(before.last(), now));
        assert(due(after.last(), now) is None);
        assert(woken(after, now) =~= Seq::<TaskId>::empty());
    }
}

/// A task does not go on before its sleep is over: a poll of its slot at a
/// tick before the sleep's end lets it wait, registered for the wake-up.
pub proof fn law_no_early_resume(counter: SleepCounter, now: u64, task: TaskId)
    requires
        now < counter.start() + counter.dur(),
    ensures
        !counter.done_at(now),
        counter.registered(task).waiter() == Some(task),
        due(Some(counter.registered(task)), now) is None,
{
}

} // verus!
