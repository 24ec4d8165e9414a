//! The timeline's time unit.

use vstd::prelude::*;

verus! {

/// A position or distance on the song timeline, in ticks: an unsigned 32-bit
/// quantity with a total order. Addition and subtraction must stay inside the
/// `u32` domain; leaving it is a caller defect, ruled out by `requires`.
#[derive(Clone, Copy, Debug, PartialEq, Eq, PartialOrd, Ord, Structural)]
pub struct Ticks(u32);

impl View for Ticks {
    type V = u32;

    closed spec fn view(&self) -> u32 {
        self.0
    }
}

impl Ticks {
    pub fn new(ticks: u32) -> (r: Self)
        ensures
            r@ == ticks,
    {
        Ticks(ticks)
    }

    pub fn as_u32(&self) -> (r: u32)
        ensures
            r == self@,
    {
        self.0
    }

    pub fn add(self, other: Self) -> (r: Self)
        requires
            self@ + other@ <= u32::MAX,
        ensures
            r@ == self@ + other@,
    {
        Ticks(self.0 + other.0)
    }

    pub fn sub(self, other: Self) -> (r: Self)
        requires
            other@ <= self@,
        ensures
            r@ == self@ - other@,
    {
        Ticks(self.0 - other.0)
    }
}

} // verus!
