//! A piecewise-linear function over `u32`, built from breakpoints and
//! evaluated by exact interpolation. Construction rejects an empty breakpoint
//! list.

use crate::breakpoints::{eval_at, eval_sorted, sort_pairs, sorted_pairs};
use vstd::prelude::*;

verus! {

/// A piecewise-linear map from `u32` to `u32`: a non-empty breakpoint list
/// sorted ascending by input.
pub struct PiecewiseLinear {
    curve: Vec<(u32, u32)>,
}

impl PiecewiseLinear {
    /// The breakpoints, in ascending input order.
    pub closed spec fn points(&self) -> Seq<(u32, u32)> {
        self.curve@
    }

    pub open spec fn wf(&self) -> bool {
        self.points().len() > 0 && sorted_pairs(self.points())
    }

    /// Build a piecewise-linear function from `(input, output)` pairs, in any
    /// order; an empty list is rejected as an invalid curve.
    pub fn from_steps(curve_steps: Vec<(u32, u32)>) -> (r: Option<Self>)
        ensures
            match r {
                Some(pl) => pl.wf() && pl.points().to_multiset() == curve_steps@.to_multiset()
                    && pl.points().len() == curve_steps@.len(),
                None => curve_steps@.len() == 0,
            },
    {
        let sorted = sort_pairs(curve_steps);
        if sorted.is_empty() {
            None
        } else {
            Some(PiecewiseLinear { curve: sorted })
        }
    }

    /// Evaluate the function at `x`.
    pub fn eval(&self, x: u32) -> (y: u32)
        requires
            self.wf(),
        ensures
            y == eval_at(self.points(), x),
    {
        eval_sorted(&self.curve, x)
    }
}

} // verus!
