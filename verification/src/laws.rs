//! What holds of every run of the runtime, proved over the model that the
//! executable operations are specified with.

use vstd::prelude::*;
use crate::model::{
    advanced_at, count_limit, feasible, occupied, occurrences, receipts, stale_prefix,
    total_wakers, unqueue_all, Decision, Event, RuntimeState, TaskState,
};
use crate::timer::Poll;

verus! {

/// The stale prefix ends within the queue; the handles in it are stale and
/// the handle behind it, if there is one, is live.
pub proof fn lemma_stale_prefix<F>(queue: Seq<usize>, tasks: Seq<TaskState<F>>)
    ensures
        stale_prefix(queue, tasks) <= queue.len(),
        forall|i: int| 0 <= i < stale_prefix(queue, tasks) ==> !occupied(tasks, #[trigger] queue[i]),
        stale_prefix(queue, tasks) < queue.len() ==> occupied(
            tasks,
            queue[stale_prefix(queue, tasks) as int],
        ),
    decreases queue.len(),
{
    if queue.len() > 0 && !occupied(tasks, queue[0]) {
        let rest = queue.drop_first();
        lemma_stale_prefix(rest, tasks);
        assert forall|i: int| 0 <= i < stale_prefix(queue, tasks) implies !occupied(
            tasks,
            #[trigger] queue[i],
        ) by {
            if i > 0 {
                assert(queue[i] == rest[i - 1]);
            }
        }
        assert(stale_prefix(rest, tasks) < rest.len() ==> queue[stale_prefix(queue, tasks) as int]
            == rest[stale_prefix(rest, tasks) as int]);
    }
}

/// `queue` without its first handle, where that handle is stale, has one
/// stale leading handle fewer.
pub proof fn lemma_stale_head<F>(queue: Seq<usize>, tasks: Seq<TaskState<F>>)
    requires
        queue.len() > 0,
        !occupied(tasks, queue[0]),
    ensures
        stale_prefix(queue, tasks) == 1 + stale_prefix(queue.drop_first(), tasks),
{
}

/// Handles that leave the queue change no slot and no waker count.
pub proof fn lemma_unqueue_all_keeps_slots<F>(tasks: Seq<TaskState<F>>, handles: Seq<usize>)
    ensures
        unqueue_all(tasks, handles).len() == tasks.len(),
        forall|i: int|
            0 <= i < tasks.len() ==> {
                &&& (#[trigger] unqueue_all(tasks, handles)[i]).future == tasks[i].future
                &&& unqueue_all(tasks, handles)[i].wakers == tasks[i].wakers
            },
        forall|task: usize| occupied(unqueue_all(tasks, handles), task) == occupied(tasks, task),
    decreases handles.len(),
{
    if handles.len() > 0 {
        lemma_unqueue_all_keeps_slots(tasks, handles.drop_last());
    }
}

/// What a receipt does to the tasks: the slot of the task it hands out is
/// emptied, and no other slot changes.
pub proof fn lemma_receipt_touches_one_slot<F>(state: RuntimeState<F>)
    ensures
        state.received().tasks.len() == state.tasks.len(),
        forall|i: int|
            0 <= i < state.tasks.len() && !state.advances(i as usize) ==> (
            #[trigger] state.received().tasks[i]).future == state.tasks[i].future,
        forall|task: usize|
            state.advances(task) ==> {
                &&& state.is_occupied(task)
                &&& state.decision() == Decision::Advance(
                    task,
                    state.tasks[task as int].future->0,
                )
                &&& state.received().polling == Some(task)
                &&& state.received().tasks[task as int].future is None
                &&& state.received().tasks[task as int].wakers > 0
            },
        state.decision() is Advance ==> state.received().queue == state.queue.skip(
            stale_prefix(state.queue, state.tasks) as int + 1,
        ),
        !(state.decision() is Advance) ==> state.received().polling == state.polling,
{
    let skip = stale_prefix(state.queue, state.tasks) as int;
    lemma_stale_prefix(state.queue, state.tasks);
    lemma_unqueue_all_keeps_slots(state.tasks, state.queue);
    if skip < state.queue.len() {
        lemma_unqueue_all_keeps_slots(state.tasks, state.queue.take(skip + 1));
    }
}

/// A fresh runtime satisfies the invariant, and no event breaks it.
pub proof fn law_invariant_holds<F>(state: RuntimeState<F>, event: Event<F>)
    requires
        state.inv(),
    ensures
        state.step(event).inv(),
        state.step(event).capacity == state.capacity,
        forall|capacity: nat| (#[trigger] RuntimeState::<F>::init(capacity)).inv(),
{
    let next = state.step(event);
    match event {
        Event::Spawn(future) => {
            assert(next == state.spawned(future));
            match state.polling {
                Some(out) => {
                    assert(state.tasks[out as int].future is None);
                    assert(next.polling == Some(out));
                    assert(next.tasks[out as int] == state.tasks[out as int]);
                },
                None => {},
            }
            assert forall|i: int|
                0 <= i < next.tasks.len() && (
                #[trigger] next.tasks[i]).future is Some implies next.tasks[i].reachable() by {
                if state.spawn_refusal() is None && i < state.tasks.len() {
                    assert(next.tasks[i] == state.tasks[i]);
                }
            }
        },
        Event::Wake(task) => {
            assert forall|i: int|
                0 <= i < next.tasks.len() && (
                #[trigger] next.tasks[i]).future is Some implies next.tasks[i].reachable() by {
                assert(state.tasks[i].future is Some);
            }
        },
        Event::Receive => {
            lemma_stale_prefix(state.queue, state.tasks);
            lemma_receipt_touches_one_slot(state);
            lemma_receipt_keeps_reachable(state);
            if state.decision() is Advance {
                let chosen = state.queue[stale_prefix(state.queue, state.tasks) as int];
                assert(state.advances(chosen));
                assert(next.polling == Some(chosen));
                assert(next.tasks[chosen as int].future is None);
            } else {
                match state.polling {
                    Some(out) => {
                        assert(!state.advances(out));
                        assert(next.tasks[out as int].future == state.tasks[out as int].future);
                    },
                    None => {},
                }
            }
        },
        Event::Settle(future, outcome) => {
            assert forall|i: int|
                0 <= i < next.tasks.len() && (
                #[trigger] next.tasks[i]).future is Some implies next.tasks[i].reachable() by {
                if state.polling != Some(i as usize) {
                    assert(state.tasks[i].future is Some);
                }
            }
        },
        Event::Drop(task) => {
            assert forall|i: int|
                0 <= i < next.tasks.len() && (
                #[trigger] next.tasks[i]).future is Some implies next.tasks[i].reachable() by {
                assert(state.tasks[i].future is Some);
            }
        },
        Event::Join => {
            assert(next.tasks == state.tasks);
        },
        Event::Leave => {
            assert(next.tasks == state.tasks);
        },
        Event::Close => {
            assert(next.tasks == state.tasks);
        },
    }
}

/// A receipt leaves every suspended task reachable: the handles that leave
/// the queue are those of tasks with an empty slot, and that of the task
/// handed out.
proof fn lemma_receipt_keeps_reachable<F>(state: RuntimeState<F>)
    requires
        state.inv(),
    ensures
        forall|i: int|
            0 <= i < state.received().tasks.len() && (
            #[trigger] state.received().tasks[i]).future is Some
                ==> state.received().tasks[i].reachable(),
{
    let skip = stale_prefix(state.queue, state.tasks) as int;
    lemma_stale_prefix(state.queue, state.tasks);
    if state.polling is None {
        if skip < state.queue.len() {
            lemma_unqueue_stale_keeps_occupied(state.tasks, state.queue.take(skip));
            assert(state.queue.take(skip + 1).drop_last() == state.queue.take(skip));
            lemma_unqueue_all_keeps_slots(state.tasks, state.queue.take(skip));
            lemma_unqueue_all_keeps_slots(state.tasks, state.queue.take(skip + 1));
        } else {
            assert(state.queue.take(skip) == state.queue);
            lemma_unqueue_stale_keeps_occupied(state.tasks, state.queue);
            lemma_unqueue_all_keeps_slots(state.tasks, state.queue);
        }
    }
}

/// Stale handles that leave the queue change nothing in the record of a task
/// whose computation rests in its slot.
proof fn lemma_unqueue_stale_keeps_occupied<F>(tasks: Seq<TaskState<F>>, handles: Seq<usize>)
    requires
        forall|i: int| 0 <= i < handles.len() ==> !occupied(tasks, #[trigger] handles[i]),
    ensures
        forall|task: usize|
            occupied(tasks, task) ==> unqueue_all(tasks, handles)[task as int] == tasks[task as int],
    decreases handles.len(),
{
    lemma_unqueue_all_keeps_slots(tasks, handles);
    if handles.len() > 0 {
        let earlier = handles.drop_last();
        assert forall|i: int| 0 <= i < earlier.len() implies !occupied(
            tasks,
            #[trigger] earlier[i],
        ) by {
            assert(earlier[i] == handles[i]);
        }
        lemma_unqueue_stale_keeps_occupied(tasks, earlier);
        lemma_unqueue_all_keeps_slots(tasks, earlier);
        assert(!occupied(tasks, handles[handles.len() - 1]));
    }
}

/// The invariant holds after every sequence of events.
pub proof fn law_invariant_holds_throughout<F>(state: RuntimeState<F>, events: Seq<Event<F>>)
    requires
        state.inv(),
    ensures
        state.replay(events).inv(),
    decreases events.len(),
{
    if events.len() > 0 {
        law_invariant_holds_throughout(state, events.drop_last());
        law_invariant_holds(state.replay(events.drop_last()), events.last());
    }
}

/// A task that is over stays over, and a receipt never hands it out, whatever
/// event comes next.
pub proof fn law_over_is_final<F>(state: RuntimeState<F>, task: usize, event: Event<F>)
    requires
        state.is_over(task),
    ensures
        !state.advances(task),
        state.step(event).is_over(task),
{
    lemma_receipt_touches_one_slot(state);
    match event {
        Event::Receive => {
            assert(state.received().tasks[task as int].future == state.tasks[task as int].future);
            if state.decision() is Advance {
                let chosen = state.queue[stale_prefix(state.queue, state.tasks) as int];
                assert(state.advances(chosen));
            }
        },
        _ => {},
    }
}

/// No double completion: once a task has completed, no later receipt of its
/// handle leads to another advance of its computation. After any sequence of
/// events the task is still over and the next receipt does not hand it out.
pub proof fn law_completed_never_advanced<F>(
    state: RuntimeState<F>,
    task: usize,
    events: Seq<Event<F>>,
)
    requires
        state.is_over(task),
    ensures
        state.replay(events).is_over(task),
        !state.replay(events).advances(task),
    decreases events.len(),
{
    if events.len() > 0 {
        law_completed_never_advanced(state, task, events.drop_last());
        law_over_is_final(state.replay(events.drop_last()), task, events.last());
    }
    law_over_is_final(state.replay(events), task, Event::Receive);
}

/// A settlement with `Poll::Ready` completes the task that was out for
/// advancing.
pub proof fn law_ready_completes<F>(state: RuntimeState<F>, task: usize, future: F)
    requires
        state.inv(),
        state.polling == Some(task),
    ensures
        state.settlement(Poll::Ready) is Completed,
        state.settled(future, Poll::Ready).is_over(task),
{
}

/// Dead wakers are harmless: invoking a waker whose task is over is accepted
/// like any other wake, empties and fills no slot, and never brings the task
/// back. Whatever follows, the task stays over and is not handed out again.
pub proof fn law_dead_waker_is_harmless<F>(
    state: RuntimeState<F>,
    task: usize,
    events: Seq<Event<F>>,
)
    requires
        state.is_over(task),
    ensures
        state.woken(task).tasks.len() == state.tasks.len(),
        forall|i: int|
            0 <= i < state.tasks.len() ==> (#[trigger] state.woken(task).tasks[i]).future
                == state.tasks[i].future,
        state.woken(task).polling == state.polling,
        state.woken(task).replay(events).is_over(task),
        !state.woken(task).replay(events).advances(task),
{
    law_completed_never_advanced(state.woken(task), task, events);
}

/// One advance at a time: while a computation is out for advancing, every
/// receipt answers `Busy` and changes nothing, however many wakes, spawns or
/// other events arrive before the settlement. Handles queued twice for one
/// task therefore never put its computation into two advances at once.
pub proof fn law_no_concurrent_advance<F>(state: RuntimeState<F>, events: Seq<Event<F>>)
    requires
        state.polling is Some,
        forall|i: int| 0 <= i < events.len() ==> !(#[trigger] events[i] is Settle),
    ensures
        state.replay(events).polling == state.polling,
        state.replay(events).decision() == Decision::<F>::Busy,
        state.replay(events).received() == state.replay(events),
    decreases events.len(),
{
    if events.len() > 0 {
        let earlier = events.drop_last();
        assert forall|i: int| 0 <= i < earlier.len() implies !(#[trigger] earlier[i] is Settle) by {
            assert(earlier[i] == events[i]);
        }
        law_no_concurrent_advance(state, earlier);
        assert(events.last() == events[events.len() - 1]);
    }
}

/// While its computation is out for advancing, a task has an empty slot: a
/// receipt that hands a computation out leaves nothing behind to hand out a
/// second time, and binds a live waker to the task.
pub proof fn law_advance_empties_slot<F>(state: RuntimeState<F>, task: usize)
    requires
        state.advances(task),
    ensures
        state.is_occupied(task),
        state.decision() == Decision::Advance(task, state.tasks[task as int].future->0),
        state.received().polling == Some(task),
        !state.received().is_occupied(task),
        state.received().tasks[task as int].wakers > 0,
{
    lemma_receipt_touches_one_slot(state);
}

/// Wakes are first in, first out: an accepted wake puts the handle behind all
/// handles already queued and moves none of them.
pub proof fn law_wake_joins_tail<F>(state: RuntimeState<F>, task: usize)
    requires
        state.refusal() is None,
    ensures
        state.woken(task).queue.len() == state.queue.len() + 1,
        state.woken(task).queue.last() == task,
        forall|i: int| 0 <= i < state.queue.len() ==> state.woken(task).queue[i] == state.queue[i],
{
}

/// Queued work is not discarded: as long as the queue holds the handle of a
/// suspended task and nothing is out for advancing, a receipt hands a
/// computation out. It reports neither `Idle` nor `Finished`, even when every
/// producer has left.
pub proof fn law_queued_work_is_run<F>(state: RuntimeState<F>, place: int)
    requires
        state.polling is None,
        0 <= place < state.queue.len(),
        state.is_occupied(state.queue[place]),
    ensures
        state.decision() is Advance,
{
    lemma_stale_prefix(state.queue, state.tasks);
}

/// The run ends only when nothing is left to do: a receipt answers
/// `Finished` exactly when nothing is out for advancing, no queued handle
/// belongs to a suspended task, and neither a spawner nor a waker is left.
pub proof fn law_finished_means_drained<F>(state: RuntimeState<F>)
    ensures
        state.decision() is Finished <==> {
            &&& state.polling is None
            &&& state.spawners == 0
            &&& state.wakers == 0
            &&& forall|i: int| 0 <= i < state.queue.len() ==> !state.is_occupied(#[trigger] state.queue[i])
        },
{
    lemma_stale_prefix(state.queue, state.tasks);
}

/// A handle occurs at most as often as there are handles, and it occurs at
/// all exactly when it stands at some place.
pub proof fn lemma_occurrences(handles: Seq<usize>, task: usize)
    ensures
        occurrences(handles, task) <= handles.len(),
        occurrences(handles, task) > 0 <==> exists|i: int|
            0 <= i < handles.len() && #[trigger] handles[i] == task,
    decreases handles.len(),
{
    if handles.len() > 0 {
        let earlier = handles.drop_last();
        lemma_occurrences(earlier, task);
        if occurrences(earlier, task) > 0 {
            let i = choose|i: int| 0 <= i < earlier.len() && #[trigger] earlier[i] == task;
            assert(handles[i] == task);
        }
        if handles.last() == task {
            assert(handles[handles.len() - 1] == task);
        }
        if exists|i: int| 0 <= i < handles.len() && #[trigger] handles[i] == task {
            let i = choose|i: int| 0 <= i < handles.len() && #[trigger] handles[i] == task;
            if i < earlier.len() {
                assert(earlier[i] == task);
            }
        }
    }
}

/// The occurrences in a queue are those in its head and those in its tail.
pub proof fn lemma_occurrences_split(handles: Seq<usize>, task: usize, at: int)
    requires
        0 <= at <= handles.len(),
    ensures
        occurrences(handles, task) == occurrences(handles.take(at), task) + occurrences(
            handles.skip(at),
            task,
        ),
    decreases handles.len(),
{
    if at == handles.len() {
        assert(handles.take(at) == handles);
        assert(handles.skip(at).len() == 0);
    } else {
        let earlier = handles.drop_last();
        lemma_occurrences_split(earlier, task, at);
        assert(earlier.take(at) == handles.take(at));
        assert(handles.skip(at).drop_last() == earlier.skip(at));
        assert(handles.skip(at).last() == handles.last());
    }
}

/// Handles that leave the queue lower the count of queued handles of their
/// task, one by one.
pub proof fn lemma_unqueue_all_counts<F>(tasks: Seq<TaskState<F>>, handles: Seq<usize>)
    requires
        forall|task: usize|
            task < tasks.len() ==> (#[trigger] tasks[task as int]).queued >= occurrences(
                handles,
                task,
            ),
    ensures
        unqueue_all(tasks, handles).len() == tasks.len(),
        forall|task: usize|
            task < tasks.len() ==> (#[trigger] unqueue_all(tasks, handles)[task as int]).queued
                == tasks[task as int].queued - occurrences(handles, task),
    decreases handles.len(),
{
    lemma_unqueue_all_keeps_slots(tasks, handles);
    if handles.len() > 0 {
        let earlier = handles.drop_last();
        lemma_unqueue_all_keeps_slots(tasks, earlier);
        assert forall|task: usize| task < tasks.len() implies (
        #[trigger] tasks[task as int]).queued >= occurrences(earlier, task) by {}
        lemma_unqueue_all_counts(tasks, earlier);
    }
}

/// Replacing one record changes the total of wakers by the difference of the
/// two records.
pub proof fn lemma_total_wakers_update<F>(tasks: Seq<TaskState<F>>, at: int, record: TaskState<F>)
    requires
        0 <= at < tasks.len(),
    ensures
        total_wakers(tasks.update(at, record)) == total_wakers(tasks) - tasks[at].wakers
            + record.wakers,
        tasks[at].wakers <= total_wakers(tasks),
    decreases tasks.len(),
{
    let changed = tasks.update(at, record);
    if at == tasks.len() - 1 {
        assert(changed.drop_last() == tasks.drop_last());
    } else {
        lemma_total_wakers_update(tasks.drop_last(), at, record);
        assert(changed.drop_last() == tasks.drop_last().update(at, record));
    }
}

/// Two lists of records with the same waker counts have the same total.
pub proof fn lemma_total_wakers_same<F>(left: Seq<TaskState<F>>, right: Seq<TaskState<F>>)
    requires
        left.len() == right.len(),
        forall|i: int| 0 <= i < left.len() ==> (#[trigger] left[i]).wakers == right[i].wakers,
    ensures
        total_wakers(left) == total_wakers(right),
    decreases left.len(),
{
    if left.len() > 0 {
        lemma_total_wakers_same(left.drop_last(), right.drop_last());
    }
}

/// The counts stay exact: a fresh runtime is consistent, and so is the state
/// after every event that can happen in a consistent state.
pub proof fn law_counts_stay_exact<F>(state: RuntimeState<F>, event: Event<F>)
    requires
        state.consistent(),
        state.allows(event),
    ensures
        state.step(event).consistent(),
        forall|capacity: nat|
            capacity <= usize::MAX ==> (#[trigger] RuntimeState::<F>::init(capacity)).consistent(),
{
    let next = state.step(event);
    law_invariant_holds(state, event);
    match event {
        Event::Spawn(future) => {
            if state.spawn_refusal() is None {
                let fresh = state.tasks.len() as usize;
                assert(next.tasks.drop_last() == state.tasks);
                assert(next.queue.drop_last() == state.queue);
                lemma_occurrences(state.queue, fresh);
            }
        },
        Event::Wake(task) => {
            if state.refusal() is None {
                assert(next.queue.drop_last() == state.queue);
                lemma_occurrences(state.queue, task);
                lemma_total_wakers_update(state.tasks, task as int, next.tasks[task as int]);
            }
        },
        Event::Receive => {
            lemma_consistent_receipt(state);
        },
        Event::Settle(future, outcome) => {
            if state.settlement(outcome) is Suspended {
                let task = state.polling->0;
                lemma_total_wakers_update(state.tasks, task as int, next.tasks[task as int]);
            }
        },
        Event::Drop(task) => {
            lemma_total_wakers_update(state.tasks, task as int, next.tasks[task as int]);
        },
        _ => {},
    }
}

/// A receipt keeps the counts exact.
proof fn lemma_consistent_receipt<F>(state: RuntimeState<F>)
    requires
        state.consistent(),
        state.wakers + 1 < count_limit(),
    ensures
        state.received().consistent(),
{
    let next = state.received();
    let skip = stale_prefix(state.queue, state.tasks) as int;
    law_invariant_holds(state, Event::Receive);
    lemma_stale_prefix(state.queue, state.tasks);
    lemma_receipt_touches_one_slot(state);
    if state.polling is None {
        let gone = if skip < state.queue.len() {
            skip + 1
        } else {
            skip
        };
        let left = state.queue.take(gone);
        let rest = unqueue_all(state.tasks, left);
        assert(state.queue.skip(gone) == next.queue) by {
            if skip >= state.queue.len() {
                assert(state.queue.skip(gone) =~= Seq::<usize>::empty());
            }
        }
        assert(skip >= state.queue.len() ==> left == state.queue);
        assert forall|task: usize| task < state.tasks.len() implies (
        #[trigger] state.tasks[task as int]).queued >= occurrences(left, task) by {
            lemma_occurrences_split(state.queue, task, gone);
        }
        lemma_unqueue_all_counts(state.tasks, left);
        lemma_unqueue_all_keeps_slots(state.tasks, left);
        lemma_total_wakers_same(rest, state.tasks);
        assert forall|task: usize| task < next.tasks.len() implies (
        #[trigger] next.tasks[task as int]).queued == occurrences(next.queue, task) by {
            lemma_occurrences_split(state.queue, task, gone);
        }
        if skip < state.queue.len() {
            let chosen = state.queue[skip];
            lemma_total_wakers_update(rest, chosen as int, next.tasks[chosen as int]);
        }
    }
}

/// The counts stay exact throughout every feasible run.
pub proof fn law_counts_stay_exact_throughout<F>(state: RuntimeState<F>, events: Seq<Event<F>>)
    requires
        state.consistent(),
        feasible(state, events),
    ensures
        state.replay(events).consistent(),
    decreases events.len(),
{
    if events.len() > 0 {
        let earlier = events.drop_last();
        assert forall|i: int| 0 <= i < earlier.len() implies #[trigger] state.replay(
            earlier.take(i),
        ).allows(earlier[i]) by {
            assert(earlier.take(i) == events.take(i));
            assert(state.replay(events.take(i)).allows(events[i]));
        }
        law_counts_stay_exact_throughout(state, earlier);
        assert(events.take(events.len() - 1) == earlier);
        assert(state.replay(events.take(events.len() - 1)).allows(events[events.len() - 1]));
        law_counts_stay_exact(state.replay(earlier), events.last());
    }
}

/// When the run is over, every task is over: a receipt that answers
/// `Finished` leaves no task suspended, for a suspended task has a waker or a
/// queued handle, and at the end there is neither.
pub proof fn law_finished_means_all_over<F>(state: RuntimeState<F>, task: usize)
    requires
        state.consistent(),
        state.decision() is Finished,
        task < state.tasks.len(),
    ensures
        state.is_over(task),
        state.tasks[task as int].wakers == 0,
{
    law_finished_means_drained(state);
    lemma_total_wakers_update(state.tasks, task as int, state.tasks[task as int]);
    if state.tasks[task as int].future is Some {
        lemma_occurrences(state.queue, task);
        let i = choose|i: int| 0 <= i < state.queue.len() && #[trigger] state.queue[i] == task;
        assert(state.is_occupied(state.queue[i]));
    }
}

/// A task is cancelled only when nothing can make it run again: if giving up
/// a waker cancels a task, that waker was the last one bound to the task, no
/// handle of the task is queued, and the task is not out for advancing. The
/// task is over from then on.
pub proof fn law_cancelled_was_unreachable<F>(state: RuntimeState<F>, task: usize)
    requires
        state.consistent(),
        state.allows(Event::Drop(task)),
        state.orphans(task),
    ensures
        state.tasks[task as int].wakers == 1,
        forall|i: int| 0 <= i < state.queue.len() ==> #[trigger] state.queue[i] != task,
        state.polling != Some(task),
        state.released(task).is_over(task),
        state.released(task).tasks[task as int].wakers == 0,
{
    lemma_occurrences(state.queue, task);
    lemma_total_wakers_update(state.tasks, task as int, state.tasks[task as int]);
}

/// A reachable task is not cancelled: giving up a waker leaves the
/// computation of a suspended task in its slot as long as a handle of the
/// task is queued or another waker is bound to it, and giving up the waker
/// of another task never touches it.
pub proof fn law_reachable_task_survives<F>(state: RuntimeState<F>, task: usize, given_up: usize)
    requires
        state.consistent(),
        state.allows(Event::Drop(given_up)),
        state.is_occupied(task),
        given_up != task || state.tasks[task as int].wakers >= 2 || exists|i: int|
            0 <= i < state.queue.len() && #[trigger] state.queue[i] == task,
    ensures
        state.released(given_up).is_occupied(task),
        state.released(given_up).tasks[task as int].future == state.tasks[task as int].future,
{
    lemma_occurrences(state.queue, task);
    lemma_total_wakers_update(state.tasks, task as int, state.tasks[task as int]);
}

/// A pending computation is cancelled at its settlement only when nothing can
/// make its task run again: no waker is bound to the task and no handle of it
/// is queued. Otherwise it is suspended, back in its slot.
pub proof fn law_settlement_keeps_reachable<F>(state: RuntimeState<F>, task: usize, future: F)
    requires
        state.consistent(),
        state.polling == Some(task),
    ensures
        state.settlement(Poll::Pending) is Suspended || state.settlement(Poll::Pending) is Cancelled,
        state.settlement(Poll::Pending) is Cancelled <==> state.tasks[task as int].wakers == 0
            && forall|i: int| 0 <= i < state.queue.len() ==> #[trigger] state.queue[i] != task,
        state.settlement(Poll::Pending) is Suspended ==> state.settled(
            future,
            Poll::Pending,
        ).tasks[task as int].future == Some(future),
        state.settlement(Poll::Pending) is Cancelled ==> state.settled(
            future,
            Poll::Pending,
        ).is_over(task),
{
    lemma_occurrences(state.queue, task);
}

/// A run is its first event followed by the rest of the run.
pub proof fn lemma_replay_from_front<F>(state: RuntimeState<F>, events: Seq<Event<F>>)
    requires
        events.len() > 0,
    ensures
        state.replay(events) == state.step(events[0]).replay(events.drop_first()),
    decreases events.len(),
{
    if events.len() == 1 {
        assert(events.drop_last() =~= Seq::<Event<F>>::empty());
        assert(events.drop_first() =~= Seq::<Event<F>>::empty());
        assert(events.last() == events[0]);
        assert(state.replay(events.drop_last()) == state);
    } else {
        lemma_replay_from_front(state, events.drop_last());
        assert(events.drop_last().drop_first() == events.drop_first().drop_last());
        assert(events.drop_last()[0] == events[0]);
        assert(events.drop_first().last() == events.last());
    }
}

/// What holds of a run holds of its first event and of the rest of the run:
/// feasibility, the number of receipts, and the receipts that hand out a
/// given task.
proof fn lemma_run_from_front<F>(state: RuntimeState<F>, events: Seq<Event<F>>, task: usize)
    requires
        events.len() > 0,
    ensures
        feasible(state, events) ==> state.allows(events[0]) && feasible(
            state.step(events[0]),
            events.drop_first(),
        ),
        receipts(state, events) == receipts(state.step(events[0]), events.drop_first()) + if events[0] is Receive
            && state.polling is None {
            1nat
        } else {
            0nat
        },
        forall|index: int|
            advanced_at(state.step(events[0]), events.drop_first(), task, index) ==> advanced_at(
                state,
                events,
                task,
                index + 1,
            ),
    decreases events.len(),
{
    let first = events[0];
    let rest = events.drop_first();
    assert(events.take(0) =~= Seq::<Event<F>>::empty());
    if feasible(state, events) {
        assert(state.replay(events.take(0)).allows(events[0]));
        assert forall|i: int| 0 <= i < rest.len() implies #[trigger] state.step(first).replay(
            rest.take(i),
        ).allows(rest[i]) by {
            lemma_replay_from_front(state, events.take(i + 1));
            assert(events.take(i + 1).drop_first() == rest.take(i));
            assert(events.take(i + 1)[0] == first);
            assert(state.replay(events.take(i + 1)).allows(events[i + 1]));
        }
    }
    assert forall|index: int|
        advanced_at(state.step(first), rest, task, index) implies advanced_at(
        state,
        events,
        task,
        index + 1,
    ) by {
        lemma_replay_from_front(state, events.take(index + 1));
        assert(events.take(index + 1).drop_first() == rest.take(index));
        assert(events.take(index + 1)[0] == first);
    }
    if events.len() == 1 {
        assert(events.drop_last() =~= Seq::<Event<F>>::empty());
        assert(rest =~= Seq::<Event<F>>::empty());
        assert(events.last() == first);
        assert(state.replay(events.drop_last()) == state);
        assert(receipts(state, events.drop_last()) == 0);
        assert(receipts(state.step(first), rest) == 0);
    } else {
        let earlier = events.drop_last();
        lemma_run_from_front(state, earlier, task);
        lemma_replay_from_front(state, earlier);
        assert(earlier.drop_first() == rest.drop_last());
        assert(earlier[0] == first);
        assert(rest.last() == events.last());
        assert(state.replay(earlier) == state.step(first).replay(rest.drop_last()));
        assert(receipts(state, events) == receipts(state, earlier) + if events.last() is Receive
            && state.replay(earlier).polling is None {
            1nat
        } else {
            0nat
        });
        assert(receipts(state.step(first), rest) == receipts(state.step(first), rest.drop_last())
            + if rest.last() is Receive && state.step(first).replay(rest.drop_last()).polling is None {
            1nat
        } else {
            0nat
        });
    }
}

/// Only a receipt moves a queued handle: every other event that can happen
/// leaves the handle of a suspended task at its place in the queue and the
/// task's computation in its slot.
pub proof fn law_handle_keeps_its_place<F>(
    state: RuntimeState<F>,
    task: usize,
    place: int,
    event: Event<F>,
)
    requires
        state.consistent(),
        state.allows(event),
        !(event is Receive),
        0 <= place < state.queue.len(),
        state.queue[place] == task,
        state.is_occupied(task),
    ensures
        place < state.step(event).queue.len(),
        state.step(event).queue[place] == task,
        state.step(event).is_occupied(task),
{
    match event {
        Event::Drop(given_up) => {
            law_reachable_task_survives(state, task, given_up);
        },
        _ => {},
    }
}

/// Liveness under every interleaving. Let the handle of a suspended task
/// stand at `place` in the queue. Then, whatever spawners, wakers and the
/// executor do in whatever order, the task's computation is handed out for
/// advancing by one of the first `place + 1` receipts that are made while no
/// computation is out.
pub proof fn law_queued_task_is_reached<F>(
    state: RuntimeState<F>,
    task: usize,
    place: int,
    events: Seq<Event<F>>,
)
    requires
        state.consistent(),
        feasible(state, events),
        0 <= place < state.queue.len(),
        state.queue[place] == task,
        state.is_occupied(task),
        receipts(state, events) > place,
    ensures
        exists|index: int| advanced_at(state, events, task, index),
    decreases events.len(),
{
    if events.len() > 0 {
        let first = events[0];
        let rest = events.drop_first();
        let next = state.step(first);
        lemma_run_from_front(state, events, task);
        law_counts_stay_exact(state, first);
        if first is Receive {
            if state.polling is None {
                lemma_stale_prefix(state.queue, state.tasks);
                lemma_receipt_touches_one_slot(state);
                if state.advances(task) {
                    assert(events.take(0) =~= Seq::<Event<F>>::empty());
                    assert(advanced_at(state, events, task, 0));
                } else {
                    let skip = stale_prefix(state.queue, state.tasks) as int;
                    assert(skip < place);
                    assert(next.queue[place - skip - 1] == task);
                    assert(next.tasks[task as int].future == state.tasks[task as int].future);
                    law_queued_task_is_reached(next, task, place - skip - 1, rest);
                    let index = choose|index: int| advanced_at(next, rest, task, index);
                    assert(advanced_at(state, events, task, index + 1));
                }
            } else {
                law_queued_task_is_reached(next, task, place, rest);
                let index = choose|index: int| advanced_at(next, rest, task, index);
                assert(advanced_at(state, events, task, index + 1));
            }
        } else {
            law_handle_keeps_its_place(state, task, place, first);
            law_queued_task_is_reached(next, task, place, rest);
            let index = choose|index: int| advanced_at(next, rest, task, index);
            assert(advanced_at(state, events, task, index + 1));
        }
    }
}

/// A wake makes a suspended task runnable. Where the queue has room, the
/// wake puts the task's handle behind the handles already queued, and the
/// task's computation is handed out for advancing by one of the next receipts
/// made while no computation is out: at the latest by the one that follows as
/// many of them as handles were queued before.
pub proof fn law_woken_task_is_reached<F>(
    state: RuntimeState<F>,
    task: usize,
    events: Seq<Event<F>>,
)
    requires
        state.consistent(),
        state.allows(Event::Wake(task)),
        state.refusal() is None,
        state.is_occupied(task),
        feasible(state.woken(task), events),
        receipts(state.woken(task), events) > state.queue.len(),
    ensures
        exists|index: int| advanced_at(state.woken(task), events, task, index),
{
    law_counts_stay_exact(state, Event::Wake(task));
    law_queued_task_is_reached(state.woken(task), task, state.queue.len() as int, events);
}

} // verus!
