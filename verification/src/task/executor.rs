//! The scheduler of kernel tasks.
//!
//! The executor keeps the table of live tasks and the queue of task ids that
//! are ready to be polled. It decides which task is polled next and what
//! becomes of a task after its poll; the caller runs the computation of the
//! task and tells the outcome.
//!
//! One pass over the ready queue visits the ids that were queued when the
//! pass began, oldest first. An id that is queued while the pass runs waits
//! for the next pass.

use crate::task::queue::{
    id_capacity,
    id_count,
    id_room,
    new_id_queue,
    pop_id,
    push_id,
    queued_ids,
};
use crate::task::{Task, TaskId};
use crossbeam_queue::ArrayQueue;
use std::collections::BTreeMap;
use vstd::prelude::*;

verus! {

broadcast use vstd::std_specs::btree::group_btree_axioms;

/// Number of ids that the ready queue holds at most.
pub const TASK_QUEUE_CAPACITY: usize = 1024;

/// What an idle processor does next.
#[derive(Clone, Copy, Debug, PartialEq, Eq, Structural)]
pub enum IdleStep {
    /// Work is queued: go on with the next pass.
    Continue,
    /// Nothing is queued: switch interrupts off and ask again.
    DisableInterrupts,
    /// Still nothing is queued: switch interrupts on and halt until one
    /// arrives, in one step.
    EnableAndHalt,
    /// Work arrived in between: switch interrupts on and go on.
    EnableInterrupts,
}

/// Index of the first of the ids `ready[0..limit]` that names a live task, or
/// `limit` where none of them does.
pub open spec fn first_live(ready: Seq<u64>, live: Set<u64>, limit: int) -> int
    decreases limit,
{
    if limit <= 0 || ready.len() == 0 {
        0
    } else if live.contains(ready[0]) {
        0
    } else {
        1 + first_live(ready.skip(1), live, limit - 1)
    }
}

/// `first_live` gives the least index, below the limit, of an id that names
/// a live task.
pub proof fn lemma_first_live(ready: Seq<u64>, live: Set<u64>, limit: int)
    requires
        0 <= limit <= ready.len(),
    ensures
        0 <= first_live(ready, live, limit) <= limit,
        first_live(ready, live, limit) < limit ==> live.contains(
            ready[first_live(ready, live, limit)],
        ),
        forall|i: int| 0 <= i < first_live(ready, live, limit) ==> !live.contains(#[trigger] ready[i]),
    decreases limit,
{
    if limit > 0 && !live.contains(ready[0]) {
        let rest = ready.skip(1);
        lemma_first_live(rest, live, limit - 1);
        assert forall|i: int| 0 <= i < first_live(ready, live, limit) implies !live.contains(
            #[trigger] ready[i],
        ) by {
            if i > 0 {
                assert(ready[i] == rest[i - 1]);
            }
        }
    }
}

/// An id that is queued while a pass runs does not change what the pass
/// visits: the pass looks at the first `limit` ids only, and a new id goes
/// behind them.
pub proof fn law_wake_waits_for_next_pass(ready: Seq<u64>, live: Set<u64>, limit: int, id: u64)
    requires
        0 <= limit <= ready.len(),
    ensures
        ready.push(id).take(limit) == ready.take(limit),
        first_live(ready.push(id), live, limit) == first_live(ready, live, limit),
    decreases limit,
{
    assert(ready.push(id).take(limit) =~= ready.take(limit));
    if limit > 0 && !live.contains(ready[0]) {
        assert(ready.push(id).skip(1) =~= ready.skip(1).push(id));
        law_wake_waits_for_next_pass(ready.skip(1), live, limit - 1, id);
    }
}

/// What a poll of a task came to: whether its computation is done, and the
/// tasks that were woken while it ran, in the order of the wake-ups. A task
/// that wakes itself names itself here.
#[derive(Debug, PartialEq, Eq)]
pub struct TaskPoll {
    pub done: bool,
    pub woken: Vec<TaskId>,
}

/// One line of the record of a pass: the task that was polled, and what the
/// poll came to.
#[derive(Debug, PartialEq, Eq)]
pub struct Polled {
    pub task: TaskId,
    pub outcome: TaskPoll,
}

/// The record of a pass: the tasks that were polled, in order, and the
/// wake-ups that found the ready queue full and are lost, in order.
#[derive(Debug, PartialEq, Eq)]
pub struct PassRecord {
    pub polled: Vec<Polled>,
    pub lost: Vec<TaskId>,
}

/// How a pass ends: the ids of the live tasks, the ready queue, and the
/// wake-ups that were lost.
pub struct PassEnd {
    pub live: Set<u64>,
    pub ready: Seq<u64>,
    pub lost: Seq<TaskId>,
}

/// The ids of a run of tasks.
pub open spec fn ids_of(tasks: Seq<TaskId>) -> Seq<u64> {
    Seq::new(tasks.len(), |i: int| tasks[i].0)
}

/// How many of the wake-ups `woken`, taken from the front, go into a queue
/// with room for `room` more ids.
pub open spec fn fitting(woken: Seq<TaskId>, room: int) -> int {
    if room <= 0 {
        0
    } else if woken.len() <= room {
        woken.len() as int
    } else {
        room
    }
}

/// The end of a pass with `lost` put before what the pass lost itself.
pub open spec fn add_lost(lost: Seq<TaskId>, end: Option<PassEnd>) -> Option<PassEnd> {
    match end {
        Some(e) => Some(PassEnd { live: e.live, ready: e.ready, lost: lost + e.lost }),
        None => None,
    }
}

/// The end of a pass that visits the first `budget` ids of `ready` and polls
/// the tasks of `record`, in that order, or nothing where `record` is not the
/// record of such a pass. The pass takes the ids from the front: an id of a
/// task that is gone is dropped; a live task is polled, and leaves if its
/// computation is done. The tasks that a poll woke go to the back of the
/// queue, as far as the queue of `capacity` ids has room; they lie behind the
/// ids that the pass visits, so they wait for the next pass.
pub open spec fn replay(
    live: Set<u64>,
    ready: Seq<u64>,
    budget: int,
    capacity: int,
    record: Seq<Polled>,
) -> Option<PassEnd>
    decreases budget,
{
    if budget <= 0 || ready.len() == 0 {
        if record.len() == 0 {
            Some(PassEnd { live, ready, lost: Seq::empty() })
        } else {
            None
        }
    } else if !live.contains(ready[0]) {
        replay(live, ready.skip(1), budget - 1, capacity, record)
    } else if record.len() > 0 && record[0].task.0 == ready[0] {
        let woken = record[0].outcome.woken@;
        let rest = ready.skip(1);
        let n = fitting(woken, capacity - rest.len());
        add_lost(
            woken.skip(n),
            replay(
                if record[0].outcome.done {
                    live.remove(ready[0])
                } else {
                    live
                },
                rest + ids_of(woken.take(n)),
                budget - 1,
                capacity,
                record.skip(1),
            ),
        )
    } else {
        None
    }
}

/// A pass polls no more tasks than it may visit ids, however often the
/// tasks wake themselves or each other.
pub proof fn law_pass_is_bounded(
    live: Set<u64>,
    ready: Seq<u64>,
    budget: int,
    capacity: int,
    record: Seq<Polled>,
)
    requires
        0 <= budget,
        replay(live, ready, budget, capacity, record) is Some,
    ensures
        record.len() <= budget,
    decreases budget,
{
    if budget <= 0 || ready.len() == 0 {
    } else if !live.contains(ready[0]) {
        law_pass_is_bounded(live, ready.skip(1), budget - 1, capacity, record);
    } else {
        let woken = record[0].outcome.woken@;
        let rest = ready.skip(1);
        let n = fitting(woken, capacity - rest.len());
        law_pass_is_bounded(
            if record[0].outcome.done {
                live.remove(ready[0])
            } else {
                live
            },
            rest + ids_of(woken.take(n)),
            budget - 1,
            capacity,
            record.skip(1),
        );
    }
}

/// A task that wakes itself during its poll and is not done is polled once
/// in the pass, and its id is in the ready queue when the pass ends: it is
/// polled again in the next pass.
pub proof fn law_self_wake_waits_for_next_pass(
    live: Set<u64>,
    task: TaskId,
    capacity: int,
    record: Seq<Polled>,
)
    requires
        live.contains(task.0),
        capacity >= 1,
        record.len() == 1,
        record[0].task == task,
        !record[0].outcome.done,
        record[0].outcome.woken@ == seq![task],
    ensures
        replay(live, seq![task.0], 1, capacity, record) == Some(
            PassEnd { live, ready: seq![task.0], lost: Seq::empty() },
        ),
{
    let ready = seq![task.0];
    let woken = record[0].outcome.woken@;
    let rest = ready.skip(1);
    let none = Seq::<Polled>::empty();
    assert(rest =~= Seq::<u64>::empty());
    assert(fitting(woken, capacity - rest.len()) == 1);
    assert(woken.take(1) =~= woken);
    assert(ids_of(woken) =~= ready);
    assert(rest + ids_of(woken.take(1)) =~= ready);
    assert(record.skip(1) =~= none);
    assert(woken.skip(1) =~= Seq::<TaskId>::empty());
    let inner = replay(live, ready, 0, capacity, none);
    assert(inner == Some(PassEnd { live, ready, lost: Seq::empty() }));
    lemma_add_no_lost(inner);
    assert(replay(live, ready, 1, capacity, record) == add_lost(woken.skip(1), inner));
}

/// Nothing put before what a pass lost leaves the end of the pass as it is.
pub proof fn lemma_add_no_lost(end: Option<PassEnd>)
    ensures
        add_lost(Seq::empty(), end) == end,
{
    if let Some(e) = end {
        assert(Seq::<TaskId>::empty() + e.lost =~= e.lost);
    }
}

/// Putting two runs of lost wake-ups before the end of a pass, one after
/// the other, is putting the two runs before it as one.
pub proof fn lemma_add_lost_twice(first: Seq<TaskId>, second: Seq<TaskId>, end: Option<PassEnd>)
    ensures
        add_lost(first, add_lost(second, end)) == add_lost(first + second, end),
{
    if let Some(e) = end {
        assert(first + (second + e.lost) =~= (first + second) + e.lost);
    }
}

/// Each task of the table is filed under its own id.
pub open spec fn filed_by_id(tasks: Map<u64, Task>) -> bool {
    forall|id: u64| #[trigger] tasks.contains_key(id) ==> tasks[id].spec_id().0 == id
}

/// The scheduler: the live tasks by id, the ids that are ready, and whether
/// additional processors may join in.
pub struct Executor {
    tasks: BTreeMap<u64, Task>,
    task_queue: ArrayQueue<u64>,
    can_schedule: bool,
}

impl Executor {
    /// The live tasks, by id.
    pub closed spec fn tasks(&self) -> Map<u64, Task> {
        self.tasks@
    }

    /// The ids that are ready to be polled, oldest first.
    pub closed spec fn ready(&self) -> Seq<u64> {
        queued_ids(self.task_queue)
    }

    /// Number of ids that the ready queue holds at most.
    pub closed spec fn capacity(&self) -> nat {
        id_capacity(self.task_queue)
    }

    /// Whether the main processor has begun its loop, so that additional
    /// processors may poll tasks too.
    pub closed spec fn scheduling(&self) -> bool {
        self.can_schedule
    }

    /// The ready queue is within its capacity, and each task is filed under
    /// its own id.
    pub open spec fn wf(&self) -> bool {
        &&& self.ready().len() <= self.capacity()
        &&& filed_by_id(self.tasks())
    }

    /// An executor without tasks, with room for [`TASK_QUEUE_CAPACITY`] ready
    /// ids.
    pub fn new() -> (e: Executor)
        ensures
            e.wf(),
            e.tasks() == Map::<u64, Task>::empty(),
            e.ready() == Seq::<u64>::empty(),
            e.capacity() == TASK_QUEUE_CAPACITY,
            !e.scheduling(),
    {
        Executor {
            tasks: BTreeMap::new(),
            task_queue: new_id_queue(TASK_QUEUE_CAPACITY),
            can_schedule: false,
        }
    }

    /// Begins the loop of the main processor: from now on additional
    /// processors may poll tasks. Each round of the loop is one pass over the
    /// ready queue, the halt of an idle processor, and the pass over the
    /// sleep counters.
    pub fn run(&mut self)
        ensures
            final(self).scheduling(),
            final(self).tasks() == old(self).tasks(),
            final(self).ready() == old(self).ready(),
            final(self).capacity() == old(self).capacity(),
    {
        self.can_schedule = true;
    }

    /// Tells an additional processor whether it may begin its loop: it waits
    /// until the main processor has begun its own. Each round of its loop is
    /// one pass over the ready queue and the halt of an idle processor.
    pub fn schedule(&self) -> (go: bool)
        ensures
            go == self.scheduling(),
    {
        self.can_schedule
    }

    /// Tells whether a task with this id is live.
    pub fn contains(&self, id: TaskId) -> (b: bool)
        ensures
            b == self.tasks().contains_key(id.0),
    {
        self.tasks.contains_key(&id.0)
    }

    /// Number of live tasks.
    pub fn task_count(&self) -> (n: usize)
        ensures
            n == self.tasks().len(),
    {
        self.tasks.len()
    }

    /// Number of ids in the ready queue: the ids that the next pass visits.
    pub fn pending(&self) -> (n: usize)
        ensures
            n == self.ready().len(),
    {
        id_count(&self.task_queue)
    }

    /// Tells whether the ready queue has room for one more id.
    pub fn has_room(&self) -> (b: bool)
        ensures
            b == (self.ready().len() < self.capacity()),
    {
        id_count(&self.task_queue) < id_room(&self.task_queue)
    }

    /// Tells whether `task` can be spawned: no live task has its id, and the
    /// ready queue has room.
    pub fn can_spawn(&self, task: &Task) -> (b: bool)
        requires
            self.wf(),
        ensures
            b == (!self.tasks().contains_key(task.spec_id().0) && self.ready().len()
                < self.capacity()),
    {
        !self.tasks.contains_key(&task.id().0) && self.has_room()
    }

    /// Takes a task in and marks it as ready. The task brings its id; no live
    /// task may have the same, and the ready queue must have room.
    pub fn spawn(&mut self, task: Task)
        requires
            old(self).wf(),
            !old(self).tasks().contains_key(task.spec_id().0),
            old(self).ready().len() < old(self).capacity(),
        ensures
            final(self).wf(),
            final(self).tasks() == old(self).tasks().insert(task.spec_id().0, task),
            final(self).ready() == old(self).ready().push(task.spec_id().0),
            final(self).capacity() == old(self).capacity(),
            final(self).scheduling() == old(self).scheduling(),
    {
        let id = task.id().0;
        let _ = self.tasks.insert(id, task);
        let _ = push_id(&mut self.task_queue, id);
        assert forall|k: u64| #[trigger] self.tasks().contains_key(k) implies self.tasks()[k].spec_id().0
            == k by {
            if k != id {
                assert(old(self).tasks().contains_key(k));
            }
        }
    }

    /// Marks a task as ready: its id goes to the back of the ready queue,
    /// whether or not it is there already. The queue must have room.
    pub fn wake(&mut self, id: TaskId)
        requires
            old(self).wf(),
            old(self).ready().len() < old(self).capacity(),
        ensures
            final(self).wf(),
            final(self).tasks() == old(self).tasks(),
            final(self).ready() == old(self).ready().push(id.0),
            final(self).capacity() == old(self).capacity(),
            final(self).scheduling() == old(self).scheduling(),
    {
        let _ = push_id(&mut self.task_queue, id.0);
    }

    /// The next task to poll in a pass that may still visit `budget` ids of
    /// the ready queue. Ids are taken from the front of the queue until one
    /// names a live task or the budget is used up; ids of tasks that are gone
    /// are dropped. Each id that is taken counts against the budget.
    pub fn next_ready(&mut self, budget: &mut usize) -> (next: Option<TaskId>)
        requires
            old(self).wf(),
            *old(budget) <= old(self).ready().len(),
        ensures
            final(self).wf(),
            final(self).tasks() == old(self).tasks(),
            final(self).capacity() == old(self).capacity(),
            final(self).scheduling() == old(self).scheduling(),
            *final(budget) <= final(self).ready().len(),
            ({
                let k = first_live(old(self).ready(), old(self).tasks().dom(), *old(budget) as int);
                if k < *old(budget) {
                    &&& next == Some(TaskId(old(self).ready()[k]))
                    &&& final(self).ready() == old(self).ready().skip(k + 1)
                    &&& *final(budget) == *old(budget) - (k + 1)
                } else {
                    &&& next is None
                    &&& final(self).ready() == old(self).ready().skip(*old(budget) as int)
                    &&& *final(budget) == 0
                }
            }),
    {
        let ghost ready0 = self.ready();
        let ghost live = self.tasks().dom();
        let ghost budget0 = *budget as int;
        let ghost mut taken: int = 0;
        assert(ready0.skip(0) =~= ready0);
        while *budget > 0
            invariant
                self.wf(),
                self.tasks() == old(self).tasks(),
                self.capacity() == old(self).capacity(),
                self.scheduling() == old(self).scheduling(),
                live == self.tasks().dom(),
                ready0 == old(self).ready(),
                budget0 == *old(budget),
                0 <= taken <= budget0 <= ready0.len(),
                *budget == budget0 - taken,
                self.ready() == ready0.skip(taken),
                first_live(ready0, live, budget0) == taken + first_live(
                    ready0.skip(taken),
                    live,
                    budget0 - taken,
                ),
            decreases *budget,
        {
            let ghost before = self.ready();
            let id = match pop_id(&mut self.task_queue) {
                Some(id) => id,
                None => { return None; },
            };
            *budget = *budget - 1;
            proof {
                assert(ready0.skip(taken).skip(1) =~= ready0.skip(taken + 1));
                assert(id == ready0[taken]);
                assert(ready0.skip(taken)[0] == id);
                assert(live.contains(id) == self.tasks().contains_key(id));
            }
            if self.tasks.contains_key(&id) {
                assert(first_live(ready0.skip(taken), live, budget0 - taken) == 0);
                assert(self.ready() =~= ready0.skip(taken + 1));
                return Some(TaskId(id));
            }
            proof {
                assert(first_live(ready0.skip(taken), live, budget0 - taken) == 1 + first_live(
                    ready0.skip(taken + 1),
                    live,
                    budget0 - taken - 1,
                ));
                taken = taken + 1;
            }
        }
        proof {
            lemma_first_live(ready0, live, budget0);
        }
        None
    }

    /// One pass over the ready queue: the ids that are queued when the pass
    /// begins are taken out, oldest first, and each that names a live task
    /// has that task polled by `poll`. The poll tells whether the computation
    /// of the task is done, and which tasks were woken while it ran. A task
    /// that is done leaves the table. The tasks that were woken go to the
    /// back of the ready queue, behind the ids of this pass, and are polled
    /// in the next pass; a wake-up that finds the queue full is lost. The
    /// record of the pass comes back: the tasks that were polled, in order,
    /// each with what `poll` said of it, and the wake-ups that were lost.
    pub fn run_ready_tasks<F: Fn(TaskId) -> TaskPoll>(&mut self, poll: F) -> (record: PassRecord)
        requires
            old(self).wf(),
            forall|id: TaskId| call_requires(poll, (id,)),
        ensures
            final(self).wf(),
            final(self).capacity() == old(self).capacity(),
            final(self).scheduling() == old(self).scheduling(),
            replay(
                old(self).tasks().dom(),
                old(self).ready(),
                old(self).ready().len() as int,
                old(self).capacity() as int,
                record.polled@,
            ) == Some(
                PassEnd {
                    live: final(self).tasks().dom(),
                    ready: final(self).ready(),
                    lost: record.lost@,
                },
            ),
            final(self).tasks() == old(self).tasks().restrict(final(self).tasks().dom()),
            forall|i: int|
                0 <= i < record.polled@.len() ==> call_ensures(
                    poll,
                    ((#[trigger] record.polled@[i]).task,),
                    record.polled@[i].outcome,
                ),
    {
        let mut polled: Vec<Polled> = Vec::new();
        let mut lost: Vec<TaskId> = Vec::new();
        let ghost live0 = self.tasks().dom();
        let ghost ready0 = self.ready();
        let ghost tasks0 = self.tasks();
        let ghost cap = self.capacity() as int;
        let n = self.pending();
        let mut i: usize = 0;
        proof {
            assert forall|rest: Seq<Polled>| #[trigger]
                replay(live0, ready0, n as int, cap, polled@ + rest) == add_lost(
                    lost@,
                    replay(live0, ready0, n as int, cap, rest),
                ) by {
                assert(polled@ + rest =~= rest);
                lemma_add_no_lost(replay(live0, ready0, n as int, cap, rest));
            }
            assert(tasks0 =~= tasks0.restrict(live0));
        }
        while i < n
            invariant
                0 <= i <= n,
                self.wf(),
                self.capacity() == cap,
                cap == old(self).capacity(),
                self.scheduling() == old(self).scheduling(),
                live0 == old(self).tasks().dom(),
                ready0 == old(self).ready(),
                n == ready0.len(),
                tasks0 == old(self).tasks(),
                self.tasks() == tasks0.restrict(self.tasks().dom()),
                forall|id: TaskId| call_requires(poll, (id,)),
                forall|rest: Seq<Polled>| #[trigger]
                    replay(live0, ready0, n as int, cap, polled@ + rest) == add_lost(
                        lost@,
                        replay(self.tasks().dom(), self.ready(), n - i, cap, rest),
                    ),
                forall|j: int|
                    0 <= j < polled@.len() ==> call_ensures(
                        poll,
                        ((#[trigger] polled@[j]).task,),
                        polled@[j].outcome,
                    ),
            decreases n - i,
        {
            let ghost live = self.tasks().dom();
            let ghost here = self.ready();
            let ghost polled0 = polled@;
            let ghost lost0 = lost@;
            let id = match pop_id(&mut self.task_queue) {
                Some(id) => id,
                None => {
                    proof {
                        let none = Seq::<Polled>::empty();
                        assert(polled@ + none =~= polled@);
                        assert(replay(live0, ready0, n as int, cap, polled@ + none) == add_lost(
                            lost@,
                            replay(live, here, n - i, cap, none),
                        ));
                        assert(lost@ + Seq::<TaskId>::empty() =~= lost@);
                    }
                    return PassRecord { polled, lost };
                },
            };
            let ghost rest_ready = here.skip(1);
            proof {
                assert(here[0] == id);
                assert(live.contains(id) == self.tasks().contains_key(id));
            }
            if self.tasks.contains_key(&id) {
                let outcome = poll(TaskId(id));
                if outcome.done {
                    let _ = self.tasks.remove(&id);
                }
                let ghost live1 = self.tasks().dom();
                let ghost woken = outcome.woken@;
                let ghost room = cap - rest_ready.len();
                let mut j: usize = 0;
                proof {
                    assert(live1 =~= if outcome.done {
                        live.remove(id)
                    } else {
                        live
                    });
                    assert(self.tasks() =~= tasks0.restrict(live1));
                    assert forall|k: u64| #[trigger] self.tasks().contains_key(k) implies self.tasks()[k].spec_id().0
                        == k by {
                        assert(tasks0.contains_key(k));
                    }
                    assert(rest_ready + ids_of(woken.take(0)) =~= rest_ready);
                    assert(lost0 + woken.subrange(0, 0) =~= lost0);
                }
                while j < outcome.woken.len()
                    invariant
                        0 <= j <= woken.len(),
                        woken == outcome.woken@,
                        self.wf(),
                        self.capacity() == cap,
                        self.scheduling() == old(self).scheduling(),
                        self.tasks().dom() == live1,
                        self.tasks() == tasks0.restrict(live1),
                        room == cap - rest_ready.len(),
                        room >= 0,
                        self.ready() == rest_ready + ids_of(woken.take(fitting(woken.take(j as int), room))),
                        lost@ == lost0 + woken.subrange(fitting(woken.take(j as int), room), j as int),
                    decreases woken.len() - j,
                {
                    let ghost p = fitting(woken.take(j as int), room);
                    let ghost ready_now = self.ready();
                    let ghost lost_now = lost@;
                    let task = outcome.woken[j];
                    if self.has_room() {
                        let _ = push_id(&mut self.task_queue, task.0);
                        proof {
                            assert(p == j);
                            assert(fitting(woken.take(j + 1), room) == j + 1);
                            assert(ready_now.push(task.0) =~= rest_ready + ids_of(
                                woken.take(j + 1),
                            ));
                            assert(lost_now =~= lost0 + woken.subrange(j + 1, j + 1));
                        }
                    } else {
                        lost.push(task);
                        proof {
                            assert(p == room);
                            assert(fitting(woken.take(j + 1), room) == room);
                            assert(lost_now.push(task) =~= lost0 + woken.subrange(p, j + 1));
                        }
                    }
                    j += 1;
                }
                let entry = Polled { task: TaskId(id), outcome };
                let ghost fit = fitting(woken, room);
                proof {
                    assert(woken.take(woken.len() as int) =~= woken);
                    assert(woken.subrange(fit, woken.len() as int) =~= woken.skip(fit));
                }
                polled.push(entry);
                proof {
                    let entry = polled@[polled@.len() - 1];
                    assert forall|rest: Seq<Polled>| #[trigger]
                        replay(live0, ready0, n as int, cap, polled@ + rest) == add_lost(
                            lost@,
                            replay(live1, self.ready(), n - i - 1, cap, rest),
                        ) by {
                        let longer = seq![entry] + rest;
                        assert(polled@ + rest =~= polled0 + longer);
                        assert(longer.skip(1) =~= rest);
                        assert(longer[0] == entry);
                        assert(replay(live0, ready0, n as int, cap, polled0 + longer) == add_lost(
                            lost0,
                            replay(live, here, n - i, cap, longer),
                        ));
                        let inner = replay(live1, self.ready(), n - i - 1, cap, rest);
                        assert(replay(live, here, n - i, cap, longer) == add_lost(
                            woken.skip(fit),
                            inner,
                        ));
                        lemma_add_lost_twice(lost0, woken.skip(fit), inner);
                    }
                }
            } else {
                proof {
                    assert forall|rest: Seq<Polled>| #[trigger]
                        replay(live0, ready0, n as int, cap, polled@ + rest) == add_lost(
                            lost@,
                            replay(live, self.ready(), n - i - 1, cap, rest),
                        ) by {
                        assert(replay(live0, ready0, n as int, cap, polled0 + rest) == add_lost(
                            lost0,
                            replay(live, here, n - i, cap, rest),
                        ));
                    }
                }
            }
            i += 1;
        }
        proof {
            let none = Seq::<Polled>::empty();
            assert(polled@ + none =~= polled@);
            assert(replay(live0, ready0, n as int, cap, polled@ + none) == add_lost(
                lost@,
                replay(self.tasks().dom(), self.ready(), 0, cap, none),
            ));
            assert(lost@ + Seq::<TaskId>::empty() =~= lost@);
        }
        PassRecord { polled, lost }
    }

    /// Takes the outcome of the poll of a task: a task whose computation is
    /// done leaves the table; one that waits stays, and comes up again when
    /// it is woken.
    pub fn task_polled(&mut self, id: TaskId, done: bool)
        requires
            old(self).wf(),
        ensures
            final(self).wf(),
            final(self).ready() == old(self).ready(),
            final(self).capacity() == old(self).capacity(),
            final(self).scheduling() == old(self).scheduling(),
            final(self).tasks() == if done {
                old(self).tasks().remove(id.0)
            } else {
                old(self).tasks()
            },
    {
        if done {
            let _ = self.tasks.remove(&id.0);
            assert forall|k: u64| #[trigger] self.tasks().contains_key(k) implies self.tasks()[k].spec_id().0
                == k by {
                assert(old(self).tasks().contains_key(k));
            }
        }
    }

    /// Tells an idle processor what to do. With interrupts on, a processor
    /// with an empty ready queue switches them off and asks again, so that
    /// no wake-up slips in between the look at the queue and the halt.
    pub fn sleep_if_idle(&self, interrupts_disabled: bool) -> (step: IdleStep)
        ensures
            step == if !interrupts_disabled {
                if self.ready().len() > 0 {
                    IdleStep::Continue
                } else {
                    IdleStep::DisableInterrupts
                }
            } else {
                if self.ready().len() > 0 {
                    IdleStep::EnableInterrupts
                } else {
                    IdleStep::EnableAndHalt
                }
            },
    {
        let idle = id_count(&self.task_queue) == 0;
        if !interrupts_disabled {
            if idle {
                IdleStep::DisableInterrupts
            } else {
                IdleStep::Continue
            }
        } else {
            if idle {
                IdleStep::EnableAndHalt
            } else {
                IdleStep::EnableInterrupts
            }
        }
    }
}

} // verus!
