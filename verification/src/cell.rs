//! Byte cells: wrapping increment and decrement at the 0-255 boundary.

use vstd::prelude::*;

verus! {

/// The value of a cell after one wrapping increment.
pub open spec fn wrap_inc(b: u8) -> u8 {
    if b == 255 {
        0
    } else {
        (b + 1) as u8
    }
}

/// The value of a cell after one wrapping decrement.
pub open spec fn wrap_dec(b: u8) -> u8 {
    if b == 0 {
        255
    } else {
        (b - 1) as u8
    }
}

/// A tape cell: a value that can be stepped up and down, wrapping at the
/// ends of its range.
pub trait CellKind: Sized {
    /// What one increment does to the value.
    spec fn inc_spec(self) -> Self;

    /// What one decrement does to the value.
    spec fn dec_spec(self) -> Self;

    /// Increase the value by one, wrapping at the top of the range.
    fn wrapping_increment(&mut self)
        ensures
            *final(self) == old(self).inc_spec(),
    ;

    /// Decrease the value by one, wrapping at the bottom of the range.
    fn wrapping_decrement(&mut self)
        ensures
            *final(self) == old(self).dec_spec(),
    ;
}

impl CellKind for u8 {
    open spec fn inc_spec(self) -> u8 {
        wrap_inc(self)
    }

    open spec fn dec_spec(self) -> u8 {
        wrap_dec(self)
    }

    fn wrapping_increment(&mut self) {
        *self = if *self == 255 {
            0
        } else {
            *self + 1
        };
    }

    fn wrapping_decrement(&mut self) {
        *self = if *self == 0 {
            255
        } else {
            *self - 1
        };
    }
}

/// Increment and decrement are inverse of one another, and wrap at the
/// 0-255 boundary: incrementing 255 yields 0 and decrementing 0 yields 255.
pub proof fn lemma_cell_wrapping(b: u8)
    ensures
        wrap_dec(wrap_inc(b)) == b,
        wrap_inc(wrap_dec(b)) == b,
        wrap_inc(255u8) == 0u8,
        wrap_dec(0u8) == 255u8,
{
}

} // verus!
