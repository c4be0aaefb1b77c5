//! A brightness response curve: a piecewise-linear map from a light
//! measurement to a desired brightness percentage. Unlike
//! [`crate::piecewise_linear::PiecewiseLinear`], an empty breakpoint list is
//! accepted and evaluates to a flat 100% brightness.

use crate::breakpoints::{eval_at, eval_sorted, sort_pairs, sorted_pairs};
use vstd::prelude::*;

verus! {

/// What an evaluation of breakpoints `s` at `x` yields: 100 when there are no
/// breakpoints, the piecewise-linear value otherwise.
pub open spec fn target_at(s: Seq<(u32, u32)>, x: u32) -> int {
    if s.len() == 0 {
        100
    } else {
        eval_at(s, x)
    }
}

/// A brightness curve over `(lux, brightness)` breakpoints, sorted ascending
/// by lux value.
pub struct BrightnessCurve {
    curve: Vec<(u32, u32)>,
}

impl BrightnessCurve {
    /// The breakpoints, in ascending input order.
    pub closed spec fn points(&self) -> Seq<(u32, u32)> {
        self.curve@
    }

    pub open spec fn wf(&self) -> bool {
        sorted_pairs(self.points())
    }

    /// Build a brightness curve from `(lux, brightness)` pairs, in any order.
    pub fn from_steps(curve_steps: Vec<(u32, u32)>) -> (r: Self)
        ensures
            r.wf(),
            r.points().to_multiset() == curve_steps@.to_multiset(),
            r.points().len() == curve_steps@.len(),
    {
        BrightnessCurve { curve: sort_pairs(curve_steps) }
    }

    /// The brightness this curve asks for at the given lux value.
    pub fn target_brightness(&self, lux: u32) -> (b: u32)
        requires
            self.wf(),
        ensures
            b == target_at(self.points(), lux),
    {
        if self.curve.is_empty() {
            100
        } else {
            eval_sorted(&self.curve, lux)
        }
    }
}

} // verus!
