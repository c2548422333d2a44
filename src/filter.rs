//! The shape rule of the windowed-sinc low-pass designer.
use vstd::prelude::*;
use crate::error::DspError;

verus! {

/// The number of coefficients of a filter of order `num`: `num + 1`, and
/// none for a negative order.
pub open spec fn tap_count(num: int) -> int {
    if num < 0 {
        0
    } else {
        num + 1
    }
}

/// The number of coefficients that a design of order `num` yields with a
/// window of `window_len` weights: one per weight, where the window has
/// exactly one weight per tap; `ShapeMismatch` otherwise.
pub fn fir_taps(num: isize, window_len: usize) -> (r: Result<usize, DspError>)
    ensures
        match r {
            Ok(t) => t == window_len && window_len == tap_count(num as int),
            Err(e) => e == DspError::ShapeMismatch && window_len != tap_count(num as int),
        },
{
    if num < 0 {
        if window_len == 0 {
            Ok(0)
        } else {
            Err(DspError::ShapeMismatch)
        }
    } else if window_len >= 1 && num as usize == window_len - 1 {
        Ok(window_len)
    } else {
        Err(DspError::ShapeMismatch)
    }
}

} // verus!
