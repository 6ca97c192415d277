//! Two-point linear slope estimate over the retained window, for buffers
//! of integer samples.
//!
//! The window is treated as evenly spaced samples on an implicit index
//! axis, so the rate of change is simply the difference between the most
//! recent and the oldest retained sample divided by the number of steps
//! between them.  This is not a least-squares fit over all points.

use vstd::prelude::*;
use vstd::arithmetic::div_mod::lemma_div_nonincreasing;
use vstd::arithmetic::div_mod::lemma_div_pos_is_pos;
use crate::bump_buf::BumpBuf;

verus! {

/// Division rounding toward zero for a positive divisor, matching what
/// `/` does on the signed machine integers.
pub open spec fn div_toward_zero(a: int, b: int) -> int {
    if a >= 0 {
        a / b
    } else {
        -((-a) / b)
    }
}

/// Rounding toward zero never grows the magnitude, so the quotient of an
/// `i64`-ranged difference by a positive span stays in `i64` range.
proof fn lemma_div_toward_zero_bounds(a: int, b: int)
    requires
        b >= 1,
    ensures
        a >= 0 ==> 0 <= div_toward_zero(a, b) <= a,
        a < 0 ==> a <= div_toward_zero(a, b) <= 0,
{
    if a >= 0 {
        lemma_div_pos_is_pos(a, b);
        lemma_div_nonincreasing(a, b);
    } else {
        lemma_div_pos_is_pos(-a, b);
        lemma_div_nonincreasing(-a, b);
    }
}

impl<const CAP: usize> BumpBuf<i64, CAP> {
    /// The two-point slope of the retained window: the difference between
    /// the most recent and the oldest retained sample, divided by the
    /// number of steps between them; nothing when fewer than two samples
    /// are retained or when the difference overflows `i64`.
    pub open spec fn spec_slope(self) -> Option<i64> {
        let w = self.contents();
        if w.len() < 2 {
            None
        } else if w.last() - w.first() < i64::MIN || w.last() - w.first() > i64::MAX {
            None
        } else {
            Some(div_toward_zero(w.last() - w.first(), w.len() - 1) as i64)
        }
    }

    /// Estimates the linear rate of change across the retained window.
    ///
    /// Returns `None` for a freshly constructed buffer and after a single
    /// push, when the span between oldest and most recent sample is zero
    /// and no rate exists, and when the difference between the most
    /// recent and the oldest sample does not fit in `i64`.
    pub fn slope(&self) -> (r: Option<i64>)
        requires
            self.wf(),
            CAP as int <= i64::MAX,
        ensures
            r == self.spec_slope(),
    {
        let n = self.valid_len();
        if n < 2 {
            None
        } else {
            let newest = self.recent();
            let oldest = self.last();
            let span = (n - 1) as i64;
            match newest.checked_sub(oldest) {
                None => None,
                Some(diff) => {
                    proof {
                        lemma_div_toward_zero_bounds(diff as int, span as int);
                    }
                    diff.checked_div(span)
                },
            }
        }
    }
}

} // verus!
