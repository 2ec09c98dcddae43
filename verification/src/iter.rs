//! A counter that yields the numbers from one to five.

use vstd::prelude::*;

verus! {

/// The last number that a counter yields.
pub const LAST: u32 = 5;

/// A counter; it holds the number it yielded last, zero at the start.
pub struct Counter {
    count: u32,
}

impl View for Counter {
    type V = nat;

    closed spec fn view(&self) -> nat {
        self.count as nat
    }
}

impl Counter {
    /// A counter that has yielded nothing yet.
    pub fn new() -> (counter: Counter)
        ensures
            counter@ == 0,
    {
        Counter { count: 0 }
    }

    /// The next number: one more than the last, as long as that was below
    /// `LAST`. After `LAST` the counter is exhausted and stays as it is.
    pub fn next(&mut self) -> (item: Option<u32>)
        ensures
            old(self)@ < LAST ==> item == Some((old(self)@ + 1) as u32) && final(self)@ == old(self)@
                + 1,
            old(self)@ >= LAST ==> item is None && final(self)@ == old(self)@,
    {
        if self.count < LAST {
            self.count += 1;
            Some(self.count)
        } else {
            None
        }
    }
}

} // verus!
