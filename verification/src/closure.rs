//! A cell that computes its value on first use and keeps it, and a workout
//! plan.

use vstd::prelude::*;

verus! {

/// A function together with the value it gave when it was first asked.
#[verifier::reject_recursive_types(E)]
pub struct Counter<T, E> where T: Fn(E) -> E, E: Copy {
    query: T,
    value: Option<E>,
}

impl<T, E> Counter<T, E> where T: Fn(E) -> E, E: Copy {
    /// The function that computes the value.
    pub closed spec fn query(&self) -> T {
        self.query
    }

    /// The value kept so far.
    pub closed spec fn cached(&self) -> Option<E> {
        self.value
    }

    /// A cell around `query` that holds no value yet.
    pub fn new(query: T) -> (cell: Counter<T, E>)
        ensures
            cell.query() == query,
            cell.cached() is None,
    {
        Counter { query, value: None }
    }

    /// The kept value. The first call computes it from `arg` and keeps it;
    /// every later call returns it again, whatever `arg` is.
    pub fn value(&mut self, arg: E) -> (value: E)
        requires
            old(self).cached() is None ==> call_requires(old(self).query(), (arg,)),
        ensures
            final(self).query() == old(self).query(),
            final(self).cached() == Some(value),
            match old(self).cached() {
                Some(kept) => value == kept,
                None => call_ensures(old(self).query(), (arg,), value),
            },
    {
        match self.value {
            Some(kept) => kept,
            None => {
                let computed = (self.query)(arg);
                self.value = Some(computed);
                computed
            },
        }
    }
}

/// What to do in a training session.
#[derive(Clone, Copy, Debug, PartialEq, Eq, Structural)]
pub enum Workout {
    /// This many sets of push-ups, then this many sets of bench presses.
    Light(u32),
    /// No training today.
    Rest,
    /// This many sets of shoulder presses.
    Heavy(u32),
}

/// The plan for a session: an intensity below 25 asks for light exercises,
/// `intensity` sets of each; otherwise a random number divisible by three
/// calls the session off, and any other calls for `intensity` heavy sets.
pub open spec fn planned(intensity: u32, random_number: u32) -> Workout {
    if intensity < 25 {
        Workout::Light(intensity)
    } else if random_number % 3 == 0 {
        Workout::Rest
    } else {
        Workout::Heavy(intensity)
    }
}

/// Decides on the session for `intensity` and `random_number`.
pub fn plan(intensity: u32, random_number: u32) -> (workout: Workout)
    ensures
        workout == planned(intensity, random_number),
{
    if intensity < 25 {
        Workout::Light(intensity)
    } else if random_number % 3 == 0 {
        Workout::Rest
    } else {
        Workout::Heavy(intensity)
    }
}

} // verus!
