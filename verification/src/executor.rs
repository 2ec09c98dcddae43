//! The executable runtime: an executor that owns the ready queue and the
//! tasks, and the two kinds of producer, spawners and wakers.
//!
//! The executor advances no computation itself. A receipt hands the
//! computation of the next runnable task to the caller, who advances it with
//! nothing locked and reports the outcome back. The caller's loop is: receive,
//! advance, settle, until the receipt says that the runtime has finished.
//!
//! Spawners and wakers are plain values. They belong to the executor that
//! made them and are counted there, so each of them is to be released to that
//! executor when it is no longer needed.

use vstd::prelude::*;
use std::collections::VecDeque;
use crate::laws::{lemma_stale_head, lemma_unqueue_all_keeps_slots};
use crate::model::{
    attached, enqueued, stale_prefix, unqueue, unqueue_all, Decision, QueueError, RuntimeState,
    Settlement, TaskState,
};
use crate::timer::Poll;

verus! {

/// The capacity of the ready queue of a runtime made by
/// [`new_executor_and_spawner`].
pub const MAX_QUEUE_SIZE: usize = 10000;

/// A producer that creates tasks. It is counted as one live spawner of its
/// executor from its creation until it is released.
pub struct Spawner {
    token: (),
}

/// The capability to make one task runnable again. It is bound to that task
/// for good, and counted as one live waker of the task from its creation
/// until it is released. It may be invoked any number of times, at any time,
/// also after its task is over. A waker cannot be copied: holders that share
/// one keep it behind a shared pointer and release it when the last of them
/// lets go.
pub struct Waker {
    task: usize,
}

impl View for Waker {
    type V = usize;

    /// The number of the task that the waker is bound to.
    closed spec fn view(&self) -> usize {
        self.task
    }
}

/// The executor's record of one task: the slot for its computation, and how
/// many wakers and queued handles refer to it.
pub struct Task<F> {
    future: Option<F>,
    wakers: u64,
    queued: usize,
}

impl<F> View for Task<F> {
    type V = TaskState<F>;

    closed spec fn view(&self) -> TaskState<F> {
        TaskState { future: self.future, wakers: self.wakers as nat, queued: self.queued as nat }
    }
}

/// What a receipt hands to the caller.
pub enum Step<F> {
    /// Advance this computation with this fresh waker, then settle.
    Advance(Waker, F),
    /// Nothing is runnable; wait until a producer sends a handle.
    Idle,
    /// Nothing is runnable and no producer is left: the run is over.
    Finished,
    /// A computation is still out for advancing; settle it first.
    Busy,
}

impl<F> Step<F> {
    /// The decision that this step carries out.
    pub open spec fn decided(self) -> Decision<F> {
        match self {
            Step::Advance(waker, future) => Decision::Advance(waker@, future),
            Step::Idle => Decision::Idle,
            Step::Finished => Decision::Finished,
            Step::Busy => Decision::Busy,
        }
    }
}

/// What became of a computation whose advance was reported.
pub enum Settled<F> {
    /// It is back in its task's slot and waits to be woken.
    Suspended,
    /// Its task has completed; here it is, to be dropped.
    Completed(F),
    /// It is not done, but no waker and no queued handle refers to its task
    /// any more: the task is cancelled; here it is, to be dropped.
    Cancelled(F),
    /// Nothing was out for advancing; here it is, untouched.
    Refused(F),
}

impl<F> Settled<F> {
    /// How the report was taken.
    pub open spec fn settlement(self) -> Settlement {
        match self {
            Settled::Suspended => Settlement::Suspended,
            Settled::Completed(_) => Settlement::Completed,
            Settled::Cancelled(_) => Settlement::Cancelled,
            Settled::Refused(_) => Settlement::Refused,
        }
    }

    /// The computation that is handed back.
    pub open spec fn handed_back(self) -> Option<F> {
        match self {
            Settled::Suspended => None,
            Settled::Completed(future) => Some(future),
            Settled::Cancelled(future) => Some(future),
            Settled::Refused(future) => Some(future),
        }
    }
}

/// The consumer of the ready queue, and the owner of all runtime state.
pub struct Executor<F> {
    ready_queue: VecDeque<usize>,
    capacity: usize,
    spawners: u64,
    wakers: u64,
    open: bool,
    tasks: Vec<Task<F>>,
    polling: Option<usize>,
}

/// The records of a list of tasks.
pub open spec fn task_states<F>(tasks: Seq<Task<F>>) -> Seq<TaskState<F>> {
    tasks.map_values(|task: Task<F>| task@)
}

impl<F> View for Executor<F> {
    type V = RuntimeState<F>;

    closed spec fn view(&self) -> RuntimeState<F> {
        RuntimeState {
            queue: self.ready_queue@,
            capacity: self.capacity as nat,
            spawners: self.spawners as nat,
            wakers: self.wakers as nat,
            open: self.open,
            tasks: task_states(self.tasks@),
            polling: self.polling,
        }
    }
}

impl<F> Executor<F> {
    /// An executor with a ready queue of `capacity` handles, and its first
    /// spawner.
    pub fn with_capacity(capacity: usize) -> (pair: (Self, Spawner))
        ensures
            pair.0@ == RuntimeState::<F>::init(capacity as nat),
    {
        let executor = Executor {
            ready_queue: VecDeque::new(),
            capacity,
            spawners: 1,
            wakers: 0,
            open: true,
            tasks: Vec::new(),
            polling: None,
        };
        proof {
            assert(task_states(executor.tasks@) =~= Seq::<TaskState<F>>::empty());
        }
        (executor, Spawner { token: () })
    }

    /// Receives from the ready queue until a live handle turns up or the
    /// queue is empty. A live handle has its task's computation taken out of
    /// the slot and handed over with a fresh waker bound to that task; the
    /// slot stays empty until the advance is settled. A handle whose task has
    /// an empty slot is dropped and changes nothing but the count of queued
    /// handles. While a computation is out, nothing is received.
    pub fn next(&mut self) -> (step: Step<F>)
        ensures
            step.decided() == old(self)@.decision(),
            final(self)@ == old(self)@.received(),
    {
        if self.polling.is_some() {
            return Step::Busy;
        }
        let ghost start = self@;
        let ghost mut dropped: int = 0;
        proof {
            assert(start.queue.take(0) =~= Seq::<usize>::empty());
        }
        while self.ready_queue.len() > 0
            invariant
                start == old(self)@,
                self@.capacity == start.capacity,
                self@.spawners == start.spawners,
                self@.wakers == start.wakers,
                self@.open == start.open,
                self@.polling == start.polling,
                start.polling is None,
                0 <= dropped <= start.queue.len(),
                self@.queue == start.queue.skip(dropped),
                self@.tasks == unqueue_all(start.tasks, start.queue.take(dropped)),
                stale_prefix(start.queue, start.tasks) == dropped + stale_prefix(
                    self@.queue,
                    start.tasks,
                ),
            decreases self.ready_queue.len(),
        {
            let ghost before = self@;
            let task = self.ready_queue.pop_front().unwrap();
            proof {
                assert(before.queue.drop_first() == start.queue.skip(dropped + 1));
                assert(self@.queue == before.queue.drop_first());
                assert(start.queue.take(dropped + 1).drop_last() == start.queue.take(dropped));
                assert(start.queue.take(dropped + 1).last() == task);
                lemma_unqueue_all_keeps_slots(start.tasks, start.queue.take(dropped));
                lemma_unqueue_all_keeps_slots(start.tasks, start.queue.take(dropped + 1));
            }
            if task < self.tasks.len() {
                if self.tasks[task].queued > 0 {
                    self.tasks[task].queued = self.tasks[task].queued - 1;
                }
                proof {
                    assert(self@.tasks =~= unqueue(before.tasks, task));
                }
                if self.tasks[task].future.is_some() {
                    let future = self.tasks[task].future.take().unwrap();
                    if self.tasks[task].wakers < u64::MAX {
                        self.tasks[task].wakers = self.tasks[task].wakers + 1;
                    }
                    self.polling = Some(task);
                    self.wakers = if self.wakers == u64::MAX {
                        u64::MAX
                    } else {
                        self.wakers + 1
                    };
                    proof {
                        let rest = unqueue_all(start.tasks, start.queue.take(dropped + 1));
                        assert(stale_prefix(before.queue, start.tasks) == 0);
                        assert(before.queue[0] == start.queue[dropped]);
                        assert(self@.tasks =~= rest.update(
                            task as int,
                            TaskState {
                                future: None,
                                wakers: attached(rest[task as int].wakers),
                                ..rest[task as int]
                            },
                        ));
                    }
                    return Step::Advance(Waker { task }, future);
                }
            }
            proof {
                assert(self@.tasks == unqueue(before.tasks, task));
                lemma_stale_head(before.queue, start.tasks);
                dropped = dropped + 1;
            }
        }
        proof {
            assert(self@.queue =~= Seq::<usize>::empty());
            assert(start.queue.take(dropped) == start.queue);
        }
        if self.spawners == 0 && self.wakers == 0 {
            Step::Finished
        } else {
            Step::Idle
        }
    }

    /// Ends the advance of the computation that the last receipt handed out.
    /// After `Poll::Pending` the computation goes back into its task's slot,
    /// so that a later wake can resume it; where no waker and no queued
    /// handle refers to the task, the task is cancelled instead. After
    /// `Poll::Ready` the task has completed. The slot of a completed or
    /// cancelled task stays empty for good, and the computation is handed
    /// back to be dropped. With nothing out for advancing the runtime is left
    /// as it is and `future` is handed back.
    pub fn settle(&mut self, future: F, outcome: Poll) -> (settled: Settled<F>)
        ensures
            final(self)@ == old(self)@.settled(future, outcome),
            settled.settlement() == old(self)@.settlement(outcome),
            settled.handed_back() == if settled is Suspended {
                None
            } else {
                Some(future)
            },
    {
        match self.polling {
            None => Settled::Refused(future),
            Some(task) => {
                self.polling = None;
                match outcome {
                    Poll::Ready => Settled::Completed(future),
                    Poll::Pending => {
                        if task < self.tasks.len() && (self.tasks[task].wakers > 0
                            || self.tasks[task].queued > 0) {
                            self.tasks[task].future = Some(future);
                            proof {
                                assert(self@.tasks =~= old(self)@.tasks.update(
                                    task as int,
                                    TaskState {
                                        future: Some(future),
                                        ..old(self)@.tasks[task as int]
                                    },
                                ));
                            }
                            Settled::Suspended
                        } else {
                            Settled::Cancelled(future)
                        }
                    },
                }
            },
        }
    }

    /// Records that the consuming side is gone: from now on every handle is
    /// refused as `QueueError::Closed`.
    pub fn close(&mut self)
        ensures
            final(self)@ == old(self)@.closed(),
    {
        self.open = false;
    }

    /// The number of handles waiting in the ready queue.
    pub fn queued(&self) -> (count: usize)
        ensures
            count == self@.queue.len(),
    {
        self.ready_queue.len()
    }

    /// The number of handles that the ready queue may hold.
    pub fn capacity(&self) -> (capacity: usize)
        ensures
            capacity == self@.capacity,
    {
        self.capacity
    }

    /// The number of live spawners, exact below the limit.
    pub fn spawners(&self) -> (count: u64)
        ensures
            count == self@.spawners,
    {
        self.spawners
    }

    /// The number of live wakers of all tasks, exact below the limit.
    pub fn wakers(&self) -> (count: u64)
        ensures
            count == self@.wakers,
    {
        self.wakers
    }

    /// The number of tasks spawned so far.
    pub fn task_count(&self) -> (count: usize)
        ensures
            count == self@.tasks.len(),
    {
        self.tasks.len()
    }

    /// The task whose computation is out for advancing, if any.
    pub fn polling(&self) -> (task: Option<usize>)
        ensures
            task == self@.polling,
    {
        self.polling
    }

    /// Whether `task` holds its computation in its slot, waiting to be
    /// advanced.
    pub fn is_occupied(&self, task: usize) -> (yes: bool)
        ensures
            yes == self@.is_occupied(task),
    {
        task < self.tasks.len() && self.tasks[task].future.is_some()
    }

    /// Whether `task` is over, completed or cancelled.
    pub fn is_over(&self, task: usize) -> (yes: bool)
        ensures
            yes == self@.is_over(task),
    {
        let out = match self.polling {
            Some(current) => current == task,
            None => false,
        };
        task < self.tasks.len() && self.tasks[task].future.is_none() && !out
    }

    fn refusal(&self) -> (refusal: Option<QueueError>)
        ensures
            refusal == self@.refusal(),
    {
        if !self.open {
            Some(QueueError::Closed)
        } else if self.ready_queue.len() >= self.capacity {
            Some(QueueError::Full)
        } else {
            None
        }
    }
}

impl Spawner {
    /// Makes `future` a new task and sends its handle to the tail of the
    /// ready queue. The task gets the next free number. A closed or full
    /// queue refuses: the runtime is left as it is, and the reason is returned
    /// together with `future`.
    pub fn spawn<F>(&self, executor: &mut Executor<F>, future: F) -> (sent: Result<
        (),
        (QueueError, F),
    >)
        ensures
            final(executor)@ == old(executor)@.spawned(future),
            sent == match old(executor)@.spawn_refusal() {
                Some(reason) => Err::<(), (QueueError, F)>((reason, future)),
                None => Ok::<(), (QueueError, F)>(()),
            },
    {
        match executor.refusal() {
            Some(reason) => Err((reason, future)),
            None => {
                let task = executor.tasks.len();
                if task == usize::MAX {
                    return Err((QueueError::Full, future));
                }
                executor.tasks.push(Task { future: Some(future), wakers: 0, queued: 1 });
                executor.ready_queue.push_back(task);
                proof {
                    assert(executor@.tasks =~= old(executor)@.tasks.push(TaskState::fresh(future)));
                }
                Ok(())
            },
        }
    }

    /// A further spawner for the same executor, counted as one more live
    /// spawner.
    pub fn duplicate<F>(&self, executor: &mut Executor<F>) -> (twin: Spawner)
        ensures
            final(executor)@ == old(executor)@.joined(),
    {
        if executor.spawners < u64::MAX {
            executor.spawners = executor.spawners + 1;
        }
        Spawner { token: () }
    }

    /// Gives the spawner up: the executor has one live spawner fewer.
    pub fn release<F>(self, executor: &mut Executor<F>)
        ensures
            final(executor)@ == old(executor)@.left(),
    {
        if 0 < executor.spawners && executor.spawners < u64::MAX {
            executor.spawners = executor.spawners - 1;
        }
    }
}

impl Waker {
    /// The number of the task that the waker is bound to.
    pub fn task(&self) -> (task: usize)
        ensures
            task == self@,
    {
        self.task
    }

    /// Makes the task runnable again: sends its handle to the tail of the
    /// ready queue. No slot changes, whether the task is suspended, out for
    /// advancing or completed. A closed or full queue refuses: the runtime is
    /// left as it is and the reason is returned.
    pub fn wake_by_ref<F>(&self, executor: &mut Executor<F>) -> (sent: Result<(), QueueError>)
        ensures
            final(executor)@ == old(executor)@.woken(self@),
            sent == match old(executor)@.refusal() {
                Some(reason) => Err::<(), QueueError>(reason),
                None => Ok::<(), QueueError>(()),
            },
    {
        match executor.refusal() {
            Some(reason) => Err(reason),
            None => {
                executor.ready_queue.push_back(self.task);
                if self.task < executor.tasks.len() {
                    if executor.tasks[self.task].queued < usize::MAX {
                        executor.tasks[self.task].queued = executor.tasks[self.task].queued + 1;
                    }
                    proof {
                        let prior = old(executor)@.tasks;
                        assert(executor@.tasks =~= prior.update(
                            self.task as int,
                            TaskState {
                                queued: enqueued(prior[self.task as int].queued),
                                ..prior[self.task as int]
                            },
                        ));
                    }
                }
                Ok(())
            },
        }
    }

    /// Gives the waker up: its task has one live waker fewer. If that was the
    /// last waker of a suspended task of which no handle is queued, nothing
    /// can make the task run again: the task is cancelled, its slot stays
    /// empty for good, and its computation is handed out to be dropped.
    pub fn release<F>(self, executor: &mut Executor<F>) -> (orphan: Option<F>)
        ensures
            final(executor)@ == old(executor)@.released(self@),
            orphan == if old(executor)@.orphans(self@) {
                old(executor)@.tasks[self@ as int].future
            } else {
                None
            },
    {
        if 0 < executor.wakers && executor.wakers < u64::MAX {
            executor.wakers = executor.wakers - 1;
        }
        if self.task < executor.tasks.len() {
            let wakers = executor.tasks[self.task].wakers;
            if 0 < wakers && wakers < u64::MAX {
                executor.tasks[self.task].wakers = wakers - 1;
            }
            let orphan = if executor.tasks[self.task].wakers == 0 && executor.tasks[self.task].queued
                == 0 {
                executor.tasks[self.task].future.take()
            } else {
                None
            };
            proof {
                let prior = old(executor)@;
                assert(executor@.tasks =~= prior.released(self@).tasks);
            }
            orphan
        } else {
            None
        }
    }
}

/// An executor and its first spawner, sharing one ready queue of
/// [`MAX_QUEUE_SIZE`] handles.
pub fn new_executor_and_spawner<F>() -> (pair: (Executor<F>, Spawner))
    ensures
        pair.0@ == RuntimeState::<F>::init(MAX_QUEUE_SIZE as nat),
{
    Executor::with_capacity(MAX_QUEUE_SIZE)
}

} // verus!
