//! How pages are arranged on the canvas.

use vstd::prelude::*;

verus! {

/// How pages flow on the canvas.
#[derive(Clone, Copy, Debug, PartialEq, Eq, Structural)]
pub enum Flow {
    /// All pages stacked vertically in reading order.
    Continuous,
    /// One page per row (1-up).
    Single,
    /// Two pages side by side per row (2-up spreads; last row may be short).
    Dual,
}

/// Pages laid out side by side within one row for `flow`.
pub fn pages_per_row(flow: Flow) -> (n: usize)
    ensures
        n == (match flow {
            Flow::Dual => 2usize,
            _ => 1usize,
        }),
{
    match flow {
        Flow::Continuous | Flow::Single => 1,
        Flow::Dual => 2,
    }
}

} // verus!
