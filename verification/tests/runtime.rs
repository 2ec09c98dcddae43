use std::cell::RefCell;
use std::rc::Rc;
use std::time::{Duration, Instant};

use timer_future::executor::{
    new_executor_and_spawner, Executor, Settled, Spawner, Step, Waker, MAX_QUEUE_SIZE,
};
use timer_future::model::QueueError;
use timer_future::timer::{Poll, TimerFuture};

/// A waker as a computation sees it: shared, and handed back to the runtime
/// when its last holder lets go of it.
struct Handle {
    token: Option<Waker>,
    dropped: Rc<RefCell<Vec<Waker>>>,
}

impl Drop for Handle {
    fn drop(&mut self) {
        if let Some(token) = self.token.take() {
            self.dropped.borrow_mut().push(token);
        }
    }
}

/// A computation that waits for a timer and then records its label.
struct Sleeper {
    timer: usize,
    label: usize,
}

/// One executor, its timers and a clock that only moves when it is told to.
struct World {
    executor: Executor<Sleeper>,
    timers: Vec<TimerFuture<Rc<Handle>>>,
    dropped: Rc<RefCell<Vec<Waker>>>,
    now: u128,
    markers: Vec<(usize, u128)>,
    advances: Vec<usize>,
}

impl World {
    fn new(executor: Executor<Sleeper>) -> World {
        World {
            executor,
            timers: Vec::new(),
            dropped: Rc::new(RefCell::new(Vec::new())),
            now: 0,
            markers: Vec::new(),
            advances: Vec::new(),
        }
    }

    fn sleeper(&mut self, duration: u128) -> Sleeper {
        self.timers.push(TimerFuture::new(duration));
        Sleeper { timer: self.timers.len() - 1, label: self.timers.len() - 1 }
    }

    fn collect_dropped(&mut self) {
        let tokens: Vec<Waker> = self.dropped.borrow_mut().drain(..).collect();
        for token in tokens {
            // A task that this cancels has its computation dropped here.
            let _cancelled = token.release(&mut self.executor);
        }
    }

    /// Receives once and advances what was handed out. Says what the receipt
    /// was: "advance", "idle", "finished" or "busy".
    fn turn(&mut self) -> &'static str {
        let kind = match self.executor.next() {
            Step::Advance(token, sleeper) => {
                self.advances.push(token.task());
                let handle = Rc::new(Handle { token: Some(token), dropped: self.dropped.clone() });
                let outcome = self.timers[sleeper.timer].poll(handle);
                if outcome == Poll::Ready {
                    self.markers.push((sleeper.label, self.now));
                }
                match self.executor.settle(sleeper, outcome) {
                    Settled::Suspended => assert_eq!(outcome, Poll::Pending),
                    Settled::Completed(_) => assert_eq!(outcome, Poll::Ready),
                    Settled::Cancelled(_) => panic!("the timer holds a waker"),
                    Settled::Refused(_) => panic!("a computation was out"),
                }
                "advance"
            }
            Step::Idle => "idle",
            Step::Finished => "finished",
            Step::Busy => "busy",
        };
        self.collect_dropped();
        kind
    }

    /// Moves the clock to `now` and reports the time to every timer, as the
    /// timers' own threads would.
    fn pass_time(&mut self, now: u128) {
        self.now = now;
        for index in 0..self.timers.len() {
            if let Some(handle) = self.timers[index].expire(now) {
                let token = handle.token.as_ref().unwrap();
                token.wake_by_ref(&mut self.executor).unwrap();
            }
        }
        self.collect_dropped();
    }

    /// Runs until the executor reports that it has finished; whenever it is
    /// idle the clock jumps to the next moment at which a timer is due.
    fn run(&mut self) {
        loop {
            match self.turn() {
                "finished" => return,
                "idle" => {
                    let next = self
                        .timers
                        .iter()
                        .filter(|timer| !timer.is_completed())
                        .map(|timer| timer.duration())
                        .min()
                        .expect("idle with no timer left");
                    self.pass_time(next);
                }
                "advance" => {}
                other => panic!("unexpected receipt: {}", other),
            }
        }
    }
}

fn world_with_spawner() -> (World, Spawner) {
    let (executor, spawner) = new_executor_and_spawner();
    (World::new(executor), spawner)
}

#[test]
fn scenario_marker_waits_for_the_timer() {
    let (mut world, spawner) = world_with_spawner();
    let sleeper = world.sleeper(2_000_000_000);
    assert!(spawner.spawn(&mut world.executor, sleeper).is_ok());
    spawner.release(&mut world.executor);

    assert_eq!(world.turn(), "advance");
    assert!(world.markers.is_empty());
    // The timer holds the only waker: the run is not over.
    assert_eq!(world.executor.spawners(), 0);
    assert_eq!(world.executor.wakers(), 1);
    assert_eq!(world.turn(), "idle");
    world.pass_time(1_999_999_999);
    assert_eq!(world.turn(), "idle");
    assert!(world.markers.is_empty());
    world.pass_time(2_000_000_000);
    assert_eq!(world.executor.queued(), 1);
    assert_eq!(world.turn(), "advance");
    assert_eq!(world.markers, vec![(0, 2_000_000_000)]);
    assert!(world.executor.is_over(0));
    // Spawner and wakers are gone and the queue is empty.
    assert_eq!(world.executor.spawners(), 0);
    assert_eq!(world.executor.wakers(), 0);
    assert_eq!(world.executor.queued(), 0);
    assert_eq!(world.turn(), "finished");
    assert_eq!(world.advances, vec![0, 0]);
}

#[test]
fn scenario_hundred_timers_take_as_long_as_the_longest() {
    let (mut world, spawner) = world_with_spawner();
    for index in 0..100u128 {
        let sleeper = world.sleeper((index + 1) * 20_000_000);
        assert!(spawner.spawn(&mut world.executor, sleeper).is_ok());
    }
    spawner.release(&mut world.executor);
    world.run();
    assert_eq!(world.markers.len(), 100);
    for (label, at) in world.markers.iter() {
        assert_eq!(*at, (*label as u128 + 1) * 20_000_000);
    }
    assert_eq!(world.now, 2_000_000_000);
    for task in 0..100 {
        assert!(world.executor.is_over(task));
    }
    assert_eq!(world.advances.len(), 200);
}

#[test]
fn scenario_queued_task_survives_the_spawner() {
    let (mut world, spawner) = world_with_spawner();
    let sleeper = world.sleeper(0);
    world.pass_time(0);
    assert!(spawner.spawn(&mut world.executor, sleeper).is_ok());
    spawner.release(&mut world.executor);
    assert_eq!(world.executor.spawners(), 0);
    assert_eq!(world.executor.wakers(), 0);
    assert_eq!(world.executor.queued(), 1);
    // No producer is left, yet the queued task is run before the end.
    assert_eq!(world.turn(), "advance");
    assert_eq!(world.markers, vec![(0, 0)]);
    assert_eq!(world.turn(), "finished");
}

#[test]
fn run_waits_while_a_spawner_lives() {
    let (mut world, spawner) = world_with_spawner();
    assert_eq!(world.turn(), "idle");
    let twin = spawner.duplicate(&mut world.executor);
    assert_eq!(world.executor.spawners(), 2);
    spawner.release(&mut world.executor);
    assert_eq!(world.executor.spawners(), 1);
    assert_eq!(world.turn(), "idle");
    twin.release(&mut world.executor);
    assert_eq!(world.executor.spawners(), 0);
    assert_eq!(world.turn(), "finished");
}

#[test]
fn tasks_are_advanced_in_arrival_order() {
    let (mut executor, spawner) = Executor::<&str>::with_capacity(8);
    for name in ["a", "b", "c"] {
        assert!(spawner.spawn(&mut executor, name).is_ok());
    }
    assert_eq!(executor.task_count(), 3);
    let mut wakers = Vec::new();
    for (task, name) in ["a", "b", "c"].into_iter().enumerate() {
        match executor.next() {
            Step::Advance(waker, future) => {
                assert_eq!(waker.task(), task);
                assert_eq!(future, name);
                assert_eq!(executor.polling(), Some(task));
                assert!(matches!(executor.settle(future, Poll::Pending), Settled::Suspended));
                wakers.push(waker);
            }
            _ => panic!("a task was queued"),
        }
    }
    assert!(matches!(executor.next(), Step::Idle));
    // Woken in the order c, a: advanced in the order c, a.
    wakers[2].wake_by_ref(&mut executor).unwrap();
    wakers[0].wake_by_ref(&mut executor).unwrap();
    for (task, name) in [(2, "c"), (0, "a")] {
        match executor.next() {
            Step::Advance(waker, future) => {
                assert_eq!(waker.task(), task);
                assert_eq!(future, name);
                assert!(matches!(executor.settle(future, Poll::Ready), Settled::Completed(_)));
                waker.release(&mut executor);
            }
            _ => panic!("a task was queued"),
        }
    }
    assert!(executor.is_over(0));
    assert!(executor.is_occupied(1));
    assert!(!executor.is_over(1));
    assert!(executor.is_over(2));
}

#[test]
fn completed_task_is_never_advanced_again() {
    let (mut executor, spawner) = Executor::<u8>::with_capacity(8);
    assert!(spawner.spawn(&mut executor, 7).is_ok());
    let waker = match executor.next() {
        Step::Advance(waker, future) => {
            assert!(matches!(executor.settle(future, Poll::Ready), Settled::Completed(7)));
            waker
        }
        _ => panic!("a task was queued"),
    };
    assert!(executor.is_over(0));
    // A dead waker is taken like any other and brings nothing back.
    for _ in 0..3 {
        assert_eq!(waker.wake_by_ref(&mut executor), Ok(()));
    }
    assert_eq!(executor.queued(), 3);
    assert!(matches!(executor.next(), Step::Idle));
    assert_eq!(executor.queued(), 0);
    assert!(executor.is_over(0));
    assert!(!executor.is_occupied(0));
    assert_eq!(executor.polling(), None);
    waker.release(&mut executor);
    spawner.release(&mut executor);
    assert!(matches!(executor.next(), Step::Finished));
}

#[test]
fn stale_handles_are_skipped_up_to_the_first_live_one() {
    let (mut executor, spawner) = Executor::<u8>::with_capacity(8);
    assert!(spawner.spawn(&mut executor, 10).is_ok());
    assert!(spawner.spawn(&mut executor, 11).is_ok());
    let dead = match executor.next() {
        Step::Advance(waker, future) => {
            executor.settle(future, Poll::Ready);
            waker
        }
        _ => panic!("a task was queued"),
    };
    // Queue: 1, then 0, 0 behind it; put 0, 0 in front by draining 1 first.
    let live = match executor.next() {
        Step::Advance(waker, future) => {
            executor.settle(future, Poll::Pending);
            waker
        }
        _ => panic!("a task was queued"),
    };
    dead.wake_by_ref(&mut executor).unwrap();
    dead.wake_by_ref(&mut executor).unwrap();
    live.wake_by_ref(&mut executor).unwrap();
    dead.wake_by_ref(&mut executor).unwrap();
    assert_eq!(executor.queued(), 4);
    match executor.next() {
        Step::Advance(waker, future) => {
            assert_eq!(waker.task(), 1);
            assert_eq!(future, 11);
            // Only the handles up to the live one have left the queue.
            assert_eq!(executor.queued(), 1);
            executor.settle(future, Poll::Ready);
        }
        _ => panic!("a live handle was queued"),
    }
    assert!(matches!(executor.next(), Step::Idle));
    assert_eq!(executor.queued(), 0);
}

#[test]
fn repeated_wakes_never_overlap_advances() {
    let (mut executor, spawner) = Executor::<u8>::with_capacity(8);
    assert!(spawner.spawn(&mut executor, 5).is_ok());
    let first = match executor.next() {
        Step::Advance(waker, future) => {
            executor.settle(future, Poll::Pending);
            waker
        }
        _ => panic!("a task was queued"),
    };
    first.wake_by_ref(&mut executor).unwrap();
    first.wake_by_ref(&mut executor).unwrap();
    first.wake_by_ref(&mut executor).unwrap();
    assert_eq!(executor.queued(), 3);
    let (second, future) = match executor.next() {
        Step::Advance(waker, future) => (waker, future),
        _ => panic!("a task was queued"),
    };
    assert_eq!(second.task(), 0);
    assert_eq!(executor.polling(), Some(0));
    assert!(!executor.is_occupied(0));
    assert!(!executor.is_over(0));
    // The computation is out: nothing is handed out, nothing is received.
    for extra in 0..4 {
        assert!(matches!(executor.next(), Step::Busy));
        assert_eq!(executor.queued(), 2 + extra);
        second.wake_by_ref(&mut executor).unwrap();
        assert_eq!(executor.queued(), 3 + extra);
        assert_eq!(executor.polling(), Some(0));
    }
    assert!(matches!(executor.settle(future, Poll::Ready), Settled::Completed(5)));
    // The handles that are left find an empty slot.
    assert!(matches!(executor.next(), Step::Idle));
    assert_eq!(executor.queued(), 0);
}

#[test]
fn each_receipt_issues_a_fresh_waker() {
    let (mut executor, spawner) = Executor::<u8>::with_capacity(8);
    assert!(spawner.spawn(&mut executor, 5).is_ok());
    assert_eq!(executor.wakers(), 0);
    let (first, future) = match executor.next() {
        Step::Advance(waker, future) => (waker, future),
        _ => panic!("a task was queued"),
    };
    assert_eq!(executor.wakers(), 1);
    executor.settle(future, Poll::Pending);
    first.wake_by_ref(&mut executor).unwrap();
    let (second, future) = match executor.next() {
        Step::Advance(waker, future) => (waker, future),
        _ => panic!("a task was queued"),
    };
    assert_eq!(executor.wakers(), 2);
    assert_eq!(first.task(), second.task());
    executor.settle(future, Poll::Pending);
    assert_eq!(first.release(&mut executor), None);
    assert_eq!(executor.wakers(), 1);
    assert!(executor.is_occupied(0));
    // The older waker is gone; the fresh one still resumes the task.
    second.wake_by_ref(&mut executor).unwrap();
    assert!(matches!(executor.next(), Step::Advance(_, 5)));
}

#[test]
fn settle_without_an_advance_is_refused() {
    let (mut executor, spawner) = Executor::<u8>::with_capacity(8);
    assert!(matches!(executor.settle(9, Poll::Pending), Settled::Refused(9)));
    assert!(matches!(executor.settle(9, Poll::Ready), Settled::Refused(9)));
    assert_eq!(executor.task_count(), 0);
    assert!(spawner.spawn(&mut executor, 1).is_ok());
    assert!(matches!(executor.settle(9, Poll::Pending), Settled::Refused(9)));
    assert!(executor.is_occupied(0));
    assert!(matches!(executor.next(), Step::Advance(_, 1)));
}

#[test]
fn full_queue_refuses_spawn_and_wake() {
    let (mut executor, spawner) = Executor::<u8>::with_capacity(2);
    assert_eq!(executor.capacity(), 2);
    assert_eq!(spawner.spawn(&mut executor, 1), Ok(()));
    assert_eq!(spawner.spawn(&mut executor, 2), Ok(()));
    assert_eq!(spawner.spawn(&mut executor, 3), Err((QueueError::Full, 3)));
    assert_eq!(executor.task_count(), 2);
    assert_eq!(executor.queued(), 2);
    let waker = match executor.next() {
        Step::Advance(waker, future) => {
            executor.settle(future, Poll::Pending);
            waker
        }
        _ => panic!("a task was queued"),
    };
    assert_eq!(waker.wake_by_ref(&mut executor), Ok(()));
    assert_eq!(waker.wake_by_ref(&mut executor), Err(QueueError::Full));
    assert_eq!(executor.queued(), 2);
}

#[test]
fn queue_without_room_refuses_everything() {
    let (mut executor, spawner) = Executor::<u8>::with_capacity(0);
    assert_eq!(spawner.spawn(&mut executor, 1), Err((QueueError::Full, 1)));
    assert_eq!(executor.task_count(), 0);
    assert!(matches!(executor.next(), Step::Idle));
}

#[test]
fn default_queue_holds_ten_thousand_handles() {
    assert_eq!(MAX_QUEUE_SIZE, 10000);
    let (mut executor, spawner) = new_executor_and_spawner::<usize>();
    assert_eq!(executor.capacity(), 10000);
    assert_eq!(executor.spawners(), 1);
    assert_eq!(executor.wakers(), 0);
    for task in 0..10000 {
        assert_eq!(spawner.spawn(&mut executor, task), Ok(()));
    }
    assert_eq!(spawner.spawn(&mut executor, 10000), Err((QueueError::Full, 10000)));
    assert!(matches!(executor.next(), Step::Advance(_, 0)));
    assert_eq!(executor.queued(), 9999);
}

#[test]
fn closed_queue_refuses_spawn_and_wake() {
    let (mut executor, spawner) = Executor::<u8>::with_capacity(1);
    assert_eq!(spawner.spawn(&mut executor, 1), Ok(()));
    let waker = match executor.next() {
        Step::Advance(waker, future) => {
            executor.settle(future, Poll::Pending);
            waker
        }
        _ => panic!("a task was queued"),
    };
    executor.close();
    assert_eq!(spawner.spawn(&mut executor, 2), Err((QueueError::Closed, 2)));
    assert_eq!(waker.wake_by_ref(&mut executor), Err(QueueError::Closed));
    assert_eq!(executor.queued(), 0);
    assert_eq!(executor.task_count(), 1);
}

#[test]
fn closed_is_reported_before_full() {
    let (mut executor, spawner) = Executor::<u8>::with_capacity(1);
    assert_eq!(spawner.spawn(&mut executor, 1), Ok(()));
    assert_eq!(spawner.spawn(&mut executor, 2), Err((QueueError::Full, 2)));
    executor.close();
    assert_eq!(spawner.spawn(&mut executor, 2), Err((QueueError::Closed, 2)));
}

#[test]
fn unknown_task_numbers_are_stale_handles() {
    let (mut big, big_spawner) = Executor::<u8>::with_capacity(4);
    for future in 0..3 {
        assert!(big_spawner.spawn(&mut big, future).is_ok());
    }
    let mut foreign = Vec::new();
    for _ in 0..3 {
        match big.next() {
            Step::Advance(waker, future) => {
                big.settle(future, Poll::Pending);
                foreign.push(waker);
            }
            _ => panic!("a task was queued"),
        }
    }
    let (mut small, spawner) = Executor::<u8>::with_capacity(4);
    assert!(spawner.spawn(&mut small, 40).is_ok());
    // A waker of another executor names a task that does not exist here.
    assert_eq!(foreign[2].wake_by_ref(&mut small), Ok(()));
    assert!(!small.is_over(2));
    assert!(!small.is_occupied(2));
    assert!(matches!(small.next(), Step::Advance(_, 40)));
    small.settle(40, Poll::Ready);
    assert!(matches!(small.next(), Step::Idle));
}

#[test]
fn live_waker_keeps_the_run_idle() {
    let (mut executor, spawner) = Executor::<u8>::with_capacity(4);
    assert!(spawner.spawn(&mut executor, 1).is_ok());
    spawner.release(&mut executor);
    let waker = match executor.next() {
        Step::Advance(waker, future) => {
            assert!(matches!(executor.settle(future, Poll::Pending), Settled::Suspended));
            waker
        }
        _ => panic!("a task was queued"),
    };
    assert!(matches!(executor.next(), Step::Idle));
    assert!(matches!(executor.next(), Step::Idle));
    assert!(executor.is_occupied(0));
    // Giving up the last waker of a suspended task cancels it: the
    // computation comes back to be dropped, and the run ends.
    assert_eq!(waker.release(&mut executor), Some(1));
    assert!(!executor.is_occupied(0));
    assert!(executor.is_over(0));
    assert!(matches!(executor.next(), Step::Finished));
}

#[test]
fn queued_handle_keeps_a_task_alive() {
    let (mut executor, spawner) = Executor::<u8>::with_capacity(4);
    assert!(spawner.spawn(&mut executor, 1).is_ok());
    let waker = match executor.next() {
        Step::Advance(waker, future) => {
            executor.settle(future, Poll::Pending);
            waker
        }
        _ => panic!("a task was queued"),
    };
    waker.wake_by_ref(&mut executor).unwrap();
    // The last waker goes, but a handle of the task is queued.
    assert_eq!(waker.release(&mut executor), None);
    assert!(executor.is_occupied(0));
    assert!(matches!(executor.next(), Step::Advance(_, 1)));
}

#[test]
fn second_waker_keeps_a_task_alive() {
    let (mut executor, spawner) = Executor::<u8>::with_capacity(4);
    assert!(spawner.spawn(&mut executor, 1).is_ok());
    let first = match executor.next() {
        Step::Advance(waker, future) => {
            executor.settle(future, Poll::Pending);
            waker
        }
        _ => panic!("a task was queued"),
    };
    first.wake_by_ref(&mut executor).unwrap();
    let second = match executor.next() {
        Step::Advance(waker, future) => {
            executor.settle(future, Poll::Pending);
            waker
        }
        _ => panic!("a task was queued"),
    };
    assert_eq!(first.release(&mut executor), None);
    assert!(executor.is_occupied(0));
    assert_eq!(second.release(&mut executor), Some(1));
    assert!(executor.is_over(0));
}

#[test]
fn pending_without_a_waker_is_cancelled_at_settlement() {
    let (mut executor, spawner) = Executor::<u8>::with_capacity(4);
    assert!(spawner.spawn(&mut executor, 1).is_ok());
    assert!(spawner.spawn(&mut executor, 2).is_ok());
    let (waker, future) = match executor.next() {
        Step::Advance(waker, future) => (waker, future),
        _ => panic!("a task was queued"),
    };
    // The computation kept no waker: while it is out nothing is cancelled.
    assert_eq!(waker.release(&mut executor), None);
    assert_eq!(executor.polling(), Some(0));
    assert!(matches!(executor.settle(future, Poll::Pending), Settled::Cancelled(1)));
    assert!(executor.is_over(0));
    assert!(!executor.is_occupied(0));
    // The other task is untouched.
    assert!(executor.is_occupied(1));
    assert!(matches!(executor.next(), Step::Advance(_, 2)));
}

#[test]
fn pending_with_a_queued_handle_is_suspended() {
    let (mut executor, spawner) = Executor::<u8>::with_capacity(4);
    assert!(spawner.spawn(&mut executor, 1).is_ok());
    let (waker, future) = match executor.next() {
        Step::Advance(waker, future) => (waker, future),
        _ => panic!("a task was queued"),
    };
    // The computation wakes itself and keeps no waker.
    waker.wake_by_ref(&mut executor).unwrap();
    assert_eq!(waker.release(&mut executor), None);
    assert!(matches!(executor.settle(future, Poll::Pending), Settled::Suspended));
    assert!(executor.is_occupied(0));
    assert!(matches!(executor.next(), Step::Advance(_, 1)));
}

#[test]
fn finished_run_leaves_no_task_suspended() {
    let (mut executor, spawner) = Executor::<u8>::with_capacity(8);
    for future in 0..5 {
        assert!(spawner.spawn(&mut executor, future).is_ok());
    }
    spawner.release(&mut executor);
    let mut kept = Vec::new();
    loop {
        match executor.next() {
            Step::Advance(waker, future) => {
                let outcome = if future % 2 == 0 { Poll::Ready } else { Poll::Pending };
                executor.settle(future, outcome);
                kept.push(waker);
            }
            Step::Idle => {
                let waker = kept.pop().expect("idle means a waker is live");
                let _cancelled = waker.release(&mut executor);
            }
            Step::Finished => break,
            Step::Busy => panic!("every advance was settled"),
        }
    }
    assert!(kept.is_empty());
    for task in 0..5 {
        assert!(executor.is_over(task));
    }
    assert_eq!(executor.wakers(), 0);
}

#[test]
fn releasing_more_than_registered_stops_at_zero() {
    let (mut executor, spawner) = Executor::<u8>::with_capacity(4);
    let twin = Executor::<u8>::with_capacity(4).1;
    spawner.release(&mut executor);
    assert_eq!(executor.spawners(), 0);
    twin.release(&mut executor);
    assert_eq!(executor.spawners(), 0);
}

/// Runs `world` against the machine's clock: whenever the executor is idle,
/// waits until the next timer is due and reports the time that has really
/// passed since `start`.
fn run_on_real_clock(world: &mut World, start: Instant) {
    loop {
        match world.turn() {
            "finished" => return,
            "idle" => {
                let next = world
                    .timers
                    .iter()
                    .filter(|timer| !timer.is_completed())
                    .map(|timer| timer.duration())
                    .min()
                    .expect("idle with no timer left");
                while start.elapsed().as_nanos() < next {
                    std::hint::spin_loop();
                }
                world.pass_time(start.elapsed().as_nanos());
            }
            "advance" => {}
            other => panic!("unexpected receipt: {}", other),
        }
    }
}

#[test]
fn scenario_marker_appears_after_two_real_seconds() {
    let (mut world, spawner) = world_with_spawner();
    let start = Instant::now();
    let sleeper = world.sleeper(Duration::new(2, 0).as_nanos());
    assert!(spawner.spawn(&mut world.executor, sleeper).is_ok());
    spawner.release(&mut world.executor);
    run_on_real_clock(&mut world, start);
    assert!(start.elapsed() >= Duration::new(2, 0));
    assert_eq!(world.markers.len(), 1);
    assert!(world.markers[0].1 >= 2_000_000_000);
    assert_eq!(world.executor.spawners(), 0);
    assert_eq!(world.executor.wakers(), 0);
    assert_eq!(world.executor.queued(), 0);
}

#[test]
fn scenario_hundred_timers_run_side_by_side() {
    let (mut world, spawner) = world_with_spawner();
    let start = Instant::now();
    for index in 0..100u64 {
        let sleeper = world.sleeper(Duration::from_millis((index + 1) * 20).as_nanos());
        assert!(spawner.spawn(&mut world.executor, sleeper).is_ok());
    }
    spawner.release(&mut world.executor);
    run_on_real_clock(&mut world, start);
    let took = start.elapsed();
    assert_eq!(world.markers.len(), 100);
    for (label, at) in world.markers.iter() {
        assert!(*at >= (*label as u128 + 1) * 20_000_000);
    }
    // As long as the longest timer, not as long as all of them in a row.
    assert!(took >= Duration::new(2, 0));
    assert!(took < Duration::new(10, 0));
    assert!(took < Duration::from_millis(20 * 5050));
}
