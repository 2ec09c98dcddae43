//! A leaf computation that completes once a configured delay has elapsed.
//!
//! The timer is a two-state machine, not done and done, shared between the
//! side that polls it and the side that measures the delay. Every operation
//! here is one critical section: the caller holds whatever lock guards the
//! timer for the length of the call, so both fields change together.

use vstd::prelude::*;

verus! {

/// What one attempt to advance a computation gave.
#[derive(Clone, Copy, Debug, PartialEq, Eq, Structural)]
pub enum Poll {
    /// The computation is done; it must not be advanced again.
    Ready,
    /// The computation is not done yet and waits to be woken.
    Pending,
}

/// The mathematical state of a timer whose wakers have type `W`.
pub ghost struct TimerState<W> {
    /// The configured delay, in nanoseconds.
    pub duration: nat,
    /// Whether the delay was reported as elapsed.
    pub completed: bool,
    /// The waker of the latest poll that found the timer not done.
    pub waker: Option<W>,
}

/// Something that happens to a timer.
pub ghost enum TimerEvent<W> {
    /// A poll that brought this waker.
    Polled(W),
    /// A report that this many nanoseconds have passed since construction.
    Elapsed(nat),
}

impl<W> TimerState<W> {
    /// A fresh timer: not done, no waker stored.
    pub open spec fn init(duration: nat) -> Self {
        TimerState { duration, completed: false, waker: None }
    }

    /// A done timer holds no waker: the one it had was handed out on expiry.
    pub open spec fn wf(self) -> bool {
        self.completed ==> self.waker is None
    }

    /// What a poll answers in this state.
    pub open spec fn answer(self) -> Poll {
        if self.completed {
            Poll::Ready
        } else {
            Poll::Pending
        }
    }

    /// The state after a poll with `waker`: a done timer is left alone, any
    /// other stores the waker in place of the one it had.
    pub open spec fn polled(self, waker: W) -> Self {
        if self.completed {
            self
        } else {
            TimerState { waker: Some(waker), ..self }
        }
    }

    /// Whether a report of `elapsed` nanoseconds reaches the configured delay.
    pub open spec fn due(self, elapsed: nat) -> bool {
        elapsed >= self.duration
    }

    /// The state after a report of `elapsed` nanoseconds: once the delay is
    /// reached the timer is done and gives up its waker.
    pub open spec fn expired(self, elapsed: nat) -> Self {
        if self.due(elapsed) {
            TimerState { completed: true, waker: None, ..self }
        } else {
            self
        }
    }

    /// The waker that a report of `elapsed` nanoseconds releases.
    pub open spec fn released(self, elapsed: nat) -> Option<W> {
        if self.due(elapsed) {
            self.waker
        } else {
            None
        }
    }

    /// The state after one event.
    pub open spec fn step(self, event: TimerEvent<W>) -> Self {
        match event {
            TimerEvent::Polled(waker) => self.polled(waker),
            TimerEvent::Elapsed(elapsed) => self.expired(elapsed),
        }
    }

    /// The state after a sequence of events, first to last.
    pub open spec fn replay(self, events: Seq<TimerEvent<W>>) -> Self
        decreases events.len(),
    {
        if events.len() == 0 {
            self
        } else {
            self.replay(events.drop_last()).step(events.last())
        }
    }
}

/// Whether no report among `events` reaches `duration`.
pub open spec fn all_early<W>(events: Seq<TimerEvent<W>>, duration: nat) -> bool {
    forall|i: int|
        0 <= i < events.len() ==> match #[trigger] events[i] {
            TimerEvent::Polled(_) => true,
            TimerEvent::Elapsed(elapsed) => elapsed < duration,
        }
}

/// The waker that the last poll among `events` brought, or `stored` where
/// `events` holds no poll.
pub open spec fn latest_waker<W>(events: Seq<TimerEvent<W>>, stored: Option<W>) -> Option<W>
    decreases events.len(),
{
    if events.len() == 0 {
        stored
    } else {
        match events.last() {
            TimerEvent::Polled(waker) => Some(waker),
            TimerEvent::Elapsed(_) => latest_waker(events.drop_last(), stored),
        }
    }
}

/// No event changes the configured delay.
pub proof fn law_delay_is_fixed<W>(state: TimerState<W>, events: Seq<TimerEvent<W>>)
    ensures
        state.replay(events).duration == state.duration,
    decreases events.len(),
{
    if events.len() > 0 {
        law_delay_is_fixed(state, events.drop_last());
    }
}

/// Every state reached from a well-formed one is well formed.
pub proof fn law_replay_keeps_wf<W>(state: TimerState<W>, events: Seq<TimerEvent<W>>)
    requires
        state.wf(),
    ensures
        state.replay(events).wf(),
        state.replay(events).duration == state.duration,
    decreases events.len(),
{
    if events.len() > 0 {
        law_replay_keeps_wf(state, events.drop_last());
    }
}

/// As long as no report reaches the delay, the timer is not done: every poll
/// made before the delay has elapsed answers `Pending`.
pub proof fn law_pending_before_delay<W>(duration: nat, events: Seq<TimerEvent<W>>)
    requires
        all_early(events, duration),
    ensures
        !TimerState::<W>::init(duration).replay(events).completed,
        TimerState::<W>::init(duration).replay(events).answer() == Poll::Pending,
    decreases events.len(),
{
    let fresh = TimerState::<W>::init(duration);
    if events.len() > 0 {
        let earlier = events.drop_last();
        assert forall|i: int| 0 <= i < earlier.len() implies match #[trigger] earlier[i] {
            TimerEvent::Polled(_) => true,
            TimerEvent::Elapsed(elapsed) => elapsed < duration,
        } by {
            assert(earlier[i] == events[i]);
        }
        law_pending_before_delay(duration, earlier);
        law_replay_keeps_wf(fresh, earlier);
        assert(events.last() == events[events.len() - 1]);
    }
}

/// No wake-up is missed: as long as no report has reached the delay, the
/// timer holds the waker of the latest poll, and the first report that
/// reaches the delay releases exactly that waker.
pub proof fn law_latest_waker_is_released<W>(
    state: TimerState<W>,
    events: Seq<TimerEvent<W>>,
    elapsed: nat,
)
    requires
        !state.completed,
        all_early(events, state.duration),
        state.due(elapsed),
    ensures
        !state.replay(events).completed,
        state.replay(events).waker == latest_waker(events, state.waker),
        state.replay(events).released(elapsed) == latest_waker(events, state.waker),
        state.replay(events).expired(elapsed).completed,
    decreases events.len(),
{
    if events.len() > 0 {
        let earlier = events.drop_last();
        assert forall|i: int| 0 <= i < earlier.len() implies match #[trigger] earlier[i] {
            TimerEvent::Polled(_) => true,
            TimerEvent::Elapsed(early) => early < state.duration,
        } by {
            assert(earlier[i] == events[i]);
        }
        law_latest_waker_is_released(state, earlier, elapsed);
        law_delay_is_fixed(state, earlier);
        assert(events.last() == events[events.len() - 1]);
    }
}

/// A done timer stays done: after a report that reaches the delay, every poll
/// answers `Ready`, whatever happens in between.
pub proof fn law_ready_after_delay<W>(
    state: TimerState<W>,
    elapsed: nat,
    events: Seq<TimerEvent<W>>,
)
    requires
        state.due(elapsed),
    ensures
        state.expired(elapsed).replay(events).completed,
        state.expired(elapsed).replay(events).answer() == Poll::Ready,
    decreases events.len(),
{
    if events.len() > 0 {
        law_ready_after_delay(state, elapsed, events.drop_last());
    }
}

/// The waker is released at most once: a done timer releases nothing, and no
/// poll makes it hold a waker again.
pub proof fn law_done_releases_nothing<W>(
    state: TimerState<W>,
    events: Seq<TimerEvent<W>>,
    elapsed: nat,
)
    requires
        state.wf(),
        state.completed,
    ensures
        state.replay(events).completed,
        state.replay(events).released(elapsed) is None,
    decreases events.len(),
{
    if events.len() > 0 {
        law_done_releases_nothing(state, events.drop_last(), elapsed);
    }
    law_replay_keeps_wf(state, events);
}

/// A timer with its delay in nanoseconds, generic in the type of the wakers
/// that polls bring.
pub struct TimerFuture<W> {
    duration: u128,
    completed: bool,
    waker: Option<W>,
}

impl<W> View for TimerFuture<W> {
    type V = TimerState<W>;

    closed spec fn view(&self) -> TimerState<W> {
        TimerState { duration: self.duration as nat, completed: self.completed, waker: self.waker }
    }
}

impl<W> TimerFuture<W> {
    #[verifier::type_invariant]
    spec fn inv(self) -> bool {
        self.completed ==> self.waker is None
    }

    /// A timer for a delay of `duration` nanoseconds, not done.
    pub fn new(duration: u128) -> (timer: Self)
        ensures
            timer@ == TimerState::<W>::init(duration as nat),
    {
        TimerFuture { duration, completed: false, waker: None }
    }

    /// The configured delay in nanoseconds.
    pub fn duration(&self) -> (nanos: u128)
        ensures
            nanos == self@.duration,
    {
        self.duration
    }

    /// Whether the timer is done.
    pub fn is_completed(&self) -> (done: bool)
        ensures
            done == self@.completed,
            self@.wf(),
    {
        proof {
            use_type_invariant(self);
        }
        self.completed
    }

    /// Advances the timer by one poll. A done timer answers `Ready`, however
    /// often it is asked, and drops `waker`. Any other stores `waker`,
    /// overwriting the one it held, and answers `Pending`.
    pub fn poll(&mut self, waker: W) -> (poll: Poll)
        ensures
            poll == old(self)@.answer(),
            final(self)@ == old(self)@.polled(waker),
            old(self)@.wf(),
            final(self)@.wf(),
    {
        proof {
            use_type_invariant(&*self);
        }
        if self.completed {
            Poll::Ready
        } else {
            self.waker = Some(waker);
            Poll::Pending
        }
    }

    /// Takes a report that `elapsed` nanoseconds have passed since the timer
    /// was made. Once that reaches the delay, the timer is done and the stored
    /// waker, if any, is handed out to be invoked; it is handed out once only.
    /// An earlier report changes nothing and releases nothing.
    pub fn expire(&mut self, elapsed: u128) -> (wake: Option<W>)
        ensures
            final(self)@ == old(self)@.expired(elapsed as nat),
            wake == old(self)@.released(elapsed as nat),
            old(self)@.wf(),
            final(self)@.wf(),
    {
        proof {
            use_type_invariant(&*self);
        }
        if elapsed >= self.duration {
            let mut prior = TimerFuture { duration: self.duration, completed: true, waker: None };
            core::mem::swap(self, &mut prior);
            prior.waker
        } else {
            None
        }
    }
}

} // verus!
