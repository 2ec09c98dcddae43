//! The mathematical model of the runtime: the ready queue, the tasks and the
//! producer counts as one value, with one total function per operation. The
//! executable types state their contracts over this model.

use vstd::prelude::*;
use crate::timer::Poll;

verus! {

/// The largest count of spawners or of wakers that is still exact.
pub open spec fn count_limit() -> nat {
    u64::MAX as nat
}

/// A count of spawners or of wakers after one more was made. A count that has
/// reached the limit stays there for good.
pub open spec fn attached(count: nat) -> nat {
    if count >= count_limit() {
        count
    } else {
        count + 1
    }
}

/// A count of spawners or of wakers after one was given up. A count at the
/// limit is no longer exact and is never lowered.
pub open spec fn detached(count: nat) -> nat {
    if count == 0 || count >= count_limit() {
        count
    } else {
        (count - 1) as nat
    }
}

/// A count of queued handles after one more was queued.
pub open spec fn enqueued(count: nat) -> nat {
    if count >= usize::MAX {
        count
    } else {
        count + 1
    }
}

/// A count of queued handles after one was received.
pub open spec fn dequeued(count: nat) -> nat {
    if count == 0 {
        0
    } else {
        (count - 1) as nat
    }
}

/// The runtime's record of one task.
pub ghost struct TaskState<F> {
    /// The slot: the computation while it is in progress and at rest here;
    /// empty while the computation is out for advancing, and for good once
    /// the task has completed or was cancelled.
    pub future: Option<F>,
    /// How many live wakers are bound to the task.
    pub wakers: nat,
    /// How many handles of the task wait in the ready queue.
    pub queued: nat,
}

impl<F> TaskState<F> {
    /// A task as it is spawned: the computation in the slot, one handle
    /// queued, no waker yet.
    pub open spec fn fresh(future: F) -> Self {
        TaskState { future: Some(future), wakers: 0, queued: 1 }
    }

    /// Whether something may still make the task run: a waker bound to it or
    /// a handle of it in the queue.
    pub open spec fn reachable(self) -> bool {
        self.wakers > 0 || self.queued > 0
    }
}

/// Whether task `task` exists in `tasks` and holds its computation.
pub open spec fn occupied<F>(tasks: Seq<TaskState<F>>, task: usize) -> bool {
    task < tasks.len() && tasks[task as int].future is Some
}

/// The number of leading handles of `queue` that are stale: their task has no
/// computation in its slot.
pub open spec fn stale_prefix<F>(queue: Seq<usize>, tasks: Seq<TaskState<F>>) -> nat
    decreases queue.len(),
{
    if queue.len() == 0 {
        0
    } else if occupied(tasks, queue[0]) {
        0
    } else {
        1 + stale_prefix(queue.drop_first(), tasks)
    }
}

/// `tasks` after one handle of `task` has left the queue.
pub open spec fn unqueue<F>(tasks: Seq<TaskState<F>>, task: usize) -> Seq<TaskState<F>> {
    if task < tasks.len() {
        tasks.update(
            task as int,
            TaskState { queued: dequeued(tasks[task as int].queued), ..tasks[task as int] },
        )
    } else {
        tasks
    }
}

/// `tasks` after all of `handles` have left the queue.
pub open spec fn unqueue_all<F>(tasks: Seq<TaskState<F>>, handles: Seq<usize>) -> Seq<
    TaskState<F>,
>
    decreases handles.len(),
{
    if handles.len() == 0 {
        tasks
    } else {
        unqueue(unqueue_all(tasks, handles.drop_last()), handles.last())
    }
}

/// What a receipt decided.
pub ghost enum Decision<F> {
    /// A computation is already out for advancing; nothing was received.
    Busy,
    /// The computation of the numbered task was taken out of its slot to be
    /// advanced.
    Advance(usize, F),
    /// No live handle is queued, but a producer may still send one.
    Idle,
    /// No live handle is queued and no producer is left.
    Finished,
}

/// How the report of an advance was taken.
pub ghost enum Settlement {
    /// Nothing was out for advancing.
    Refused,
    /// The computation is back in its slot.
    Suspended,
    /// The task has completed.
    Completed,
    /// The computation is not done, but nothing can make its task run again:
    /// the task is cancelled.
    Cancelled,
}

/// Something that happens to a runtime.
pub ghost enum Event<F> {
    /// A spawner offers a computation.
    Spawn(F),
    /// A waker bound to the numbered task is invoked.
    Wake(usize),
    /// The executor receives from the ready queue.
    Receive,
    /// The executor reports how the advance of the computation ended.
    Settle(F, Poll),
    /// A waker bound to the numbered task is given up.
    Drop(usize),
    /// A spawner is duplicated.
    Join,
    /// A spawner is given up.
    Leave,
    /// The consuming side goes away.
    Close,
}

/// The state of a runtime whose computations have type `F`.
pub ghost struct RuntimeState<F> {
    /// The handles waiting to be received, oldest first. A handle is the
    /// number of its task.
    pub queue: Seq<usize>,
    /// How many handles the queue may hold.
    pub capacity: nat,
    /// The live spawners.
    pub spawners: nat,
    /// The live wakers, of all tasks together.
    pub wakers: nat,
    /// Whether the consuming side still exists.
    pub open: bool,
    /// One record per task ever spawned, in spawn order.
    pub tasks: Seq<TaskState<F>>,
    /// The task whose computation is out for advancing.
    pub polling: Option<usize>,
}

impl<F> RuntimeState<F> {
    /// A fresh runtime with its first spawner.
    pub open spec fn init(capacity: nat) -> Self {
        RuntimeState {
            queue: Seq::empty(),
            capacity,
            spawners: 1,
            wakers: 0,
            open: true,
            tasks: Seq::empty(),
            polling: None,
        }
    }

    /// Whether `task` holds its computation in its slot.
    pub open spec fn is_occupied(self, task: usize) -> bool {
        occupied(self.tasks, task)
    }

    /// Whether `task` is over, completed or cancelled: it exists, its slot is
    /// empty, and its computation is not out for advancing.
    pub open spec fn is_over(self, task: usize) -> bool {
        &&& task < self.tasks.len()
        &&& self.tasks[task as int].future is None
        &&& self.polling != Some(task)
    }

    /// Why a handle cannot be sent now, if it cannot: a closed queue is
    /// reported before a full one.
    pub open spec fn refusal(self) -> Option<QueueError> {
        if !self.open {
            Some(QueueError::Closed)
        } else if self.queue.len() >= self.capacity {
            Some(QueueError::Full)
        } else {
            None
        }
    }

    /// Why a task cannot be spawned now, if it cannot. Besides the reasons
    /// for which a handle is refused, the runtime is full once the number of
    /// a further task would no longer fit a handle.
    pub open spec fn spawn_refusal(self) -> Option<QueueError> {
        if self.refusal() is None && self.tasks.len() >= usize::MAX {
            Some(QueueError::Full)
        } else {
            self.refusal()
        }
    }

    /// The state after an attempt to spawn `future`: unless it is refused, a
    /// new task with `future` in its slot is appended and its handle joins
    /// the tail of the queue.
    pub open spec fn spawned(self, future: F) -> Self {
        if self.spawn_refusal() is None {
            RuntimeState {
                queue: self.queue.push(self.tasks.len() as usize),
                tasks: self.tasks.push(TaskState::fresh(future)),
                ..self
            }
        } else {
            self
        }
    }

    /// The state after an attempt to wake `task`: unless it is refused, the
    /// task's handle joins the tail of the queue.
    pub open spec fn woken(self, task: usize) -> Self {
        if self.refusal() is None {
            RuntimeState {
                queue: self.queue.push(task),
                tasks: if task < self.tasks.len() {
                    self.tasks.update(
                        task as int,
                        TaskState {
                            queued: enqueued(self.tasks[task as int].queued),
                            ..self.tasks[task as int]
                        },
                    )
                } else {
                    self.tasks
                },
                ..self
            }
        } else {
            self
        }
    }

    /// What a receipt decides in this state. With nothing out for advancing,
    /// stale handles at the head of the queue are skipped and the first live
    /// one picks the task to advance. With no live handle, the run is over
    /// once no spawner and no waker is left.
    pub open spec fn decision(self) -> Decision<F> {
        let skip = stale_prefix(self.queue, self.tasks) as int;
        if self.polling is Some {
            Decision::Busy
        } else if skip < self.queue.len() {
            Decision::Advance(self.queue[skip], self.tasks[self.queue[skip] as int].future->0)
        } else if self.spawners == 0 && self.wakers == 0 {
            Decision::Finished
        } else {
            Decision::Idle
        }
    }

    /// The state after a receipt. An advance removes the handles up to and
    /// including the live one, empties the task's slot, marks the task as out
    /// for advancing and binds a fresh waker to it. Otherwise only the stale
    /// handles leave.
    pub open spec fn received(self) -> Self {
        let skip = stale_prefix(self.queue, self.tasks) as int;
        match self.decision() {
            Decision::Busy => self,
            Decision::Advance(task, _) => {
                let rest = unqueue_all(self.tasks, self.queue.take(skip + 1));
                RuntimeState {
                    queue: self.queue.skip(skip + 1),
                    tasks: rest.update(
                        task as int,
                        TaskState {
                            future: None,
                            wakers: attached(rest[task as int].wakers),
                            ..rest[task as int]
                        },
                    ),
                    polling: Some(task),
                    wakers: attached(self.wakers),
                    ..self
                }
            },
            _ => RuntimeState {
                queue: Seq::empty(),
                tasks: unqueue_all(self.tasks, self.queue),
                ..self
            },
        }
    }

    /// How the report that the advance ended with `outcome` is taken. A
    /// pending computation is suspended if its task is reachable, and
    /// cancelled if it is not.
    pub open spec fn settlement(self, outcome: Poll) -> Settlement {
        match self.polling {
            None => Settlement::Refused,
            Some(task) => if outcome == Poll::Ready {
                Settlement::Completed
            } else if task < self.tasks.len() && self.tasks[task as int].reachable() {
                Settlement::Suspended
            } else {
                Settlement::Cancelled
            },
        }
    }

    /// The state after the report that the advance of `future` ended with
    /// `outcome`: no task is out any more, and a suspended computation is
    /// back in its slot. In every other case the slot stays empty for good.
    pub open spec fn settled(self, future: F, outcome: Poll) -> Self {
        match self.polling {
            None => self,
            Some(task) => RuntimeState {
                tasks: if self.settlement(outcome) is Suspended {
                    self.tasks.update(
                        task as int,
                        TaskState { future: Some(future), ..self.tasks[task as int] },
                    )
                } else {
                    self.tasks
                },
                polling: None,
                ..self
            },
        }
    }

    /// Whether giving up a waker of `task` cancels the task: it was the last
    /// waker, no handle of the task is queued, and the computation rests in
    /// its slot.
    pub open spec fn orphans(self, task: usize) -> bool {
        &&& self.is_occupied(task)
        &&& detached(self.tasks[task as int].wakers) == 0
        &&& self.tasks[task as int].queued == 0
    }

    /// The state after a waker of `task` was given up. A task that this
    /// cancels has its slot emptied.
    pub open spec fn released(self, task: usize) -> Self {
        RuntimeState {
            wakers: detached(self.wakers),
            tasks: if task < self.tasks.len() {
                self.tasks.update(
                    task as int,
                    TaskState {
                        future: if self.orphans(task) {
                            None
                        } else {
                            self.tasks[task as int].future
                        },
                        wakers: detached(self.tasks[task as int].wakers),
                        ..self.tasks[task as int]
                    },
                )
            } else {
                self.tasks
            },
            ..self
        }
    }

    /// The state after a spawner was duplicated.
    pub open spec fn joined(self) -> Self {
        RuntimeState { spawners: attached(self.spawners), ..self }
    }

    /// The state after a spawner was given up.
    pub open spec fn left(self) -> Self {
        RuntimeState { spawners: detached(self.spawners), ..self }
    }

    /// The state after the consuming side went away.
    pub open spec fn closed(self) -> Self {
        RuntimeState { open: false, ..self }
    }

    /// The state after one event.
    pub open spec fn step(self, event: Event<F>) -> Self {
        match event {
            Event::Spawn(future) => self.spawned(future),
            Event::Wake(task) => self.woken(task),
            Event::Receive => self.received(),
            Event::Settle(future, outcome) => self.settled(future, outcome),
            Event::Drop(task) => self.released(task),
            Event::Join => self.joined(),
            Event::Leave => self.left(),
            Event::Close => self.closed(),
        }
    }

    /// The state after a sequence of events, first to last.
    pub open spec fn replay(self, events: Seq<Event<F>>) -> Self
        decreases events.len(),
    {
        if events.len() == 0 {
            self
        } else {
            self.replay(events.drop_last()).step(events.last())
        }
    }

    /// Whether a receipt in this state hands out the computation of `task`.
    pub open spec fn advances(self, task: usize) -> bool {
        match self.decision() {
            Decision::Advance(chosen, _) => chosen == task,
            _ => false,
        }
    }
}

/// How often `task` occurs among `handles`.
pub open spec fn occurrences(handles: Seq<usize>, task: usize) -> nat
    decreases handles.len(),
{
    if handles.len() == 0 {
        0
    } else {
        occurrences(handles.drop_last(), task) + if handles.last() == task {
            1nat
        } else {
            0nat
        }
    }
}

/// The live wakers of all of `tasks` together.
pub open spec fn total_wakers<F>(tasks: Seq<TaskState<F>>) -> nat
    decreases tasks.len(),
{
    if tasks.len() == 0 {
        0
    } else {
        total_wakers(tasks.drop_last()) + tasks.last().wakers
    }
}

impl<F> RuntimeState<F> {
    /// What every state satisfies that the runtime can get into: the queue is
    /// within its bound, the task out for advancing exists and has an empty
    /// slot, and a computation at rest in its slot belongs to a reachable
    /// task.
    pub open spec fn inv(self) -> bool {
        &&& self.queue.len() <= self.capacity
        &&& self.tasks.len() <= usize::MAX
        &&& self.spawners <= count_limit()
        &&& self.wakers <= count_limit()
        &&& match self.polling {
            Some(task) => task < self.tasks.len() && self.tasks[task as int].future is None,
            None => true,
        }
        &&& forall|i: int|
            0 <= i < self.tasks.len() && (#[trigger] self.tasks[i]).future is Some
                ==> self.tasks[i].reachable()
    }

    /// Whether the counts are exact: the invariant holds, every queued handle
    /// names a task, every task counts its queued handles and the runtime
    /// counts the wakers of all tasks, below the limit of the count.
    pub open spec fn consistent(self) -> bool {
        &&& self.inv()
        &&& self.capacity <= usize::MAX
        &&& self.wakers < count_limit()
        &&& self.wakers == total_wakers(self.tasks)
        &&& forall|i: int| 0 <= i < self.queue.len() ==> (#[trigger] self.queue[i]) < self.tasks.len()
        &&& forall|task: usize|
            task < self.tasks.len() ==> (#[trigger] self.tasks[task as int]).queued == occurrences(
                self.queue,
                task,
            )
    }

    /// Whether `event` can happen in this state: a waker that is invoked or
    /// given up exists, and a receipt leaves the count of wakers below its
    /// limit.
    pub open spec fn allows(self, event: Event<F>) -> bool {
        match event {
            Event::Wake(task) => task < self.tasks.len() && self.tasks[task as int].wakers > 0,
            Event::Drop(task) => task < self.tasks.len() && self.tasks[task as int].wakers > 0,
            Event::Receive => self.wakers + 1 < count_limit(),
            _ => true,
        }
    }
}

/// Whether each of `events`, taken in order from `state`, can happen in the
/// state before it.
pub open spec fn feasible<F>(state: RuntimeState<F>, events: Seq<Event<F>>) -> bool {
    forall|i: int| 0 <= i < events.len() ==> #[trigger] state.replay(events.take(i)).allows(events[i])
}

/// How many of `events`, taken in order from `state`, are receipts made
/// while no computation is out for advancing.
pub open spec fn receipts<F>(state: RuntimeState<F>, events: Seq<Event<F>>) -> nat
    decreases events.len(),
{
    if events.len() == 0 {
        0
    } else {
        receipts(state, events.drop_last()) + if events.last() is Receive && state.replay(
            events.drop_last(),
        ).polling is None {
            1nat
        } else {
            0nat
        }
    }
}

/// Whether the event at `index` of `events`, taken in order from `state`, is
/// a receipt that hands out the computation of `task`.
pub open spec fn advanced_at<F>(
    state: RuntimeState<F>,
    events: Seq<Event<F>>,
    task: usize,
    index: int,
) -> bool {
    &&& 0 <= index < events.len()
    &&& events[index] is Receive
    &&& state.replay(events.take(index)).advances(task)
}

/// Why the ready queue did not take a handle.
#[derive(Clone, Copy, Debug, PartialEq, Eq, Structural)]
pub enum QueueError {
    /// The queue holds as many handles as its capacity allows.
    Full,
    /// The consuming side is gone; nothing will be received any more.
    Closed,
}

} // verus!
