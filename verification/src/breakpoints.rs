//! Breakpoint lists: the ordered `(input, output)` pairs that define a
//! piecewise-linear curve, with sorting and exact interpolated evaluation.

use vstd::prelude::*;

verus! {

broadcast use vstd::seq_lib::group_to_multiset_ensures;

/// Ordering on breakpoints: by input value, ties broken by output value.
pub open spec fn pair_le(a: (u32, u32), b: (u32, u32)) -> bool {
    a.0 < b.0 || (a.0 == b.0 && a.1 <= b.1)
}

/// The breakpoint list is ascending by input, ties ascending by output.
pub open spec fn sorted_pairs(s: Seq<(u32, u32)>) -> bool {
    forall|i: int, j: int| 0 <= i < j < s.len() ==> #[trigger] pair_le(s[i], s[j])
}

/// Sort breakpoints ascending by input value, ties by output value.
pub(crate) fn sort_pairs(steps: Vec<(u32, u32)>) -> (r: Vec<(u32, u32)>)
    ensures
        sorted_pairs(r@),
        r@.to_multiset() == steps@.to_multiset(),
        r@.len() == steps@.len(),
{
    let mut rest = steps;
    let mut out: Vec<(u32, u32)> = Vec::new();
    while rest.len() > 0
        invariant
            sorted_pairs(out@),
            out@.to_multiset().add(rest@.to_multiset()) == steps@.to_multiset(),
            out@.len() + rest@.len() == steps@.len(),
        decreases rest.len(),
    {
        let x = rest.remove(0);
        let ghost prev_out = out@;
        let mut j: usize = 0;
        while j < out.len() && (out[j].0 < x.0 || (out[j].0 == x.0 && out[j].1 <= x.1))
            invariant
                j <= out.len(),
                out@ == prev_out,
                forall|k: int| 0 <= k < j ==> #[trigger] pair_le(out@[k], x),
            decreases out.len() - j,
        {
            j += 1;
        }
        out.insert(j, x);
        proof {
            assert forall|a: int, b: int| 0 <= a < b < out@.len() implies #[trigger] pair_le(
                out@[a],
                out@[b],
            ) by {
                if b > j {
                    assert(!pair_le(prev_out[j as int], x));
                    assert(pair_le(prev_out[j as int], prev_out[b - 1]));
                }
                if a < j && b == j {
                    assert(pair_le(prev_out[a], x));
                } else if a == j && b > j {
                    assert(pair_le(x, prev_out[b - 1]));
                } else if a < j && b > j {
                    assert(pair_le(prev_out[a], prev_out[b - 1]));
                } else if b < j {
                    assert(pair_le(prev_out[a], prev_out[b]));
                } else if a > j {
                    assert(pair_le(prev_out[a - 1], prev_out[b - 1]));
                }
            }
        }
    }
    proof {
        assert(out@.to_multiset() =~= steps@.to_multiset());
    }
    out
}

/// Index of the first breakpoint whose input exceeds `x` (the length of the
/// list when every input is at or below `x`).
pub open spec fn first_above(s: Seq<(u32, u32)>, x: u32) -> int
    decreases s.len(),
{
    if s.len() == 0 {
        0
    } else if s[0].0 > x {
        0
    } else {
        1 + first_above(s.drop_first(), x)
    }
}

/// Everything before `first_above` is at or below `x`; the breakpoint at
/// `first_above`, when there is one, is above `x`.
pub proof fn lemma_first_above_props(s: Seq<(u32, u32)>, x: u32)
    ensures
        0 <= first_above(s, x) <= s.len(),
        forall|j: int| 0 <= j < first_above(s, x) ==> (#[trigger] s[j]).0 <= x,
        first_above(s, x) < s.len() ==> s[first_above(s, x)].0 > x,
    decreases s.len(),
{
    if s.len() == 0 {
    } else if s[0].0 > x {
    } else {
        lemma_first_above_props(s.drop_first(), x);
        assert forall|j: int| 0 <= j < first_above(s, x) implies (#[trigger] s[j]).0 <= x by {
            if j > 0 {
                assert(s.drop_first()[j - 1] == s[j]);
            }
        }
        if first_above(s, x) < s.len() {
            assert(s.drop_first()[first_above(s, x) - 1] == s[first_above(s, x)]);
        }
    }
}

/// Any index with the two defining properties of `first_above` is `first_above`.
pub proof fn lemma_first_above_unique(s: Seq<(u32, u32)>, x: u32, i: int)
    requires
        0 <= i <= s.len(),
        forall|j: int| 0 <= j < i ==> (#[trigger] s[j]).0 <= x,
        i < s.len() ==> s[i].0 > x,
    ensures
        i == first_above(s, x),
{
    lemma_first_above_props(s, x);
    let f = first_above(s, x);
    if i < f {
        assert(s[i].0 <= x);
    } else if f < i {
        assert(s[f].0 <= x);
    }
}

/// Exact linear interpolation between `(lx, ly)` and `(rx, ry)` at `x`,
/// rounded toward zero: the quotient is of non-negative terms, so rounding
/// toward zero is rounding down.
pub open spec fn interp_at(lx: u32, ly: u32, rx: u32, ry: u32, x: u32) -> int
    recommends
        lx <= x <= rx,
        lx < rx,
{
    (ly * (rx - x) + ry * (x - lx)) / (rx - lx)
}

/// The value of the piecewise-linear curve `s` at `x`: the first output below
/// the smallest input, the last output above the largest, and exact
/// interpolation on the segment that contains `x` otherwise.
pub open spec fn eval_at(s: Seq<(u32, u32)>, x: u32) -> int
    recommends
        s.len() > 0,
{
    let i = first_above(s, x);
    if i >= s.len() {
        s.last().1 as int
    } else if i == 0 {
        s[0].1 as int
    } else {
        interp_at(s[i - 1].0, s[i - 1].1, s[i].0, s[i].1, x)
    }
}

/// Interpolation never leaves the segment's output range.
pub proof fn lemma_interp_bounds(lx: u32, ly: u32, rx: u32, ry: u32, x: u32)
    requires
        lx <= x <= rx,
        lx < rx,
    ensures
        ly <= ry ==> ly <= interp_at(lx, ly, rx, ry, x) <= ry,
        ry <= ly ==> ry <= interp_at(lx, ly, rx, ry, x) <= ly,
{
    let den = rx - lx;
    let num = ly * (rx - x) + ry * (x - lx);
    let lo: int = if ly <= ry {
        ly as int
    } else {
        ry as int
    };
    let hi: int = if ly <= ry {
        ry as int
    } else {
        ly as int
    };
    assert(lo * den <= num <= hi * den) by (nonlinear_arith)
        requires
            lx <= x <= rx,
            lx < rx,
            den == rx - lx,
            num == ly * (rx - x) + ry * (x - lx),
            lo <= ly <= hi,
            lo <= ry <= hi,
    ;
    vstd::arithmetic::div_mod::lemma_div_is_ordered(lo * den, num, den as int);
    vstd::arithmetic::div_mod::lemma_div_is_ordered(num, hi * den, den as int);
    vstd::arithmetic::div_mod::lemma_div_by_multiple(lo, den as int);
    vstd::arithmetic::div_mod::lemma_div_by_multiple(hi, den as int);
}

/// At the left endpoint interpolation is exactly the left output; at the right
/// endpoint, exactly the right output.
pub proof fn lemma_interp_endpoints(lx: u32, ly: u32, rx: u32, ry: u32)
    requires
        lx < rx,
    ensures
        interp_at(lx, ly, rx, ry, lx) == ly,
        interp_at(lx, ly, rx, ry, rx) == ry,
{
    let den = rx - lx;
    assert(ly * (rx - lx) + ry * (lx - lx) == ly * den && ly * (rx - rx) + ry * (rx - lx) == ry
        * den) by (nonlinear_arith)
        requires
            den == rx - lx,
    ;
    vstd::arithmetic::div_mod::lemma_div_by_multiple(ly as int, den as int);
    vstd::arithmetic::div_mod::lemma_div_by_multiple(ry as int, den as int);
}

/// Breakpoint inputs are pairwise distinct and ascending. A curve built from
/// pairwise-distinct inputs has this after sorting; with duplicate inputs the
/// evaluation laws below are not claimed.
pub open spec fn strictly_increasing_inputs(s: Seq<(u32, u32)>) -> bool {
    forall|i: int, j: int| 0 <= i < j < s.len() ==> (#[trigger] s[i]).0 < (#[trigger] s[j]).0
}

/// Breakpoint inputs are pairwise distinct, in any order.
pub open spec fn distinct_inputs(s: Seq<(u32, u32)>) -> bool {
    forall|i: int, j: int| 0 <= i < j < s.len() ==> (#[trigger] s[i]).0 != (#[trigger] s[j]).0
}

/// An element counted at least twice sits at two positions.
proof fn lemma_count_two_positions<A>(s: Seq<A>, e: A)
    requires
        s.to_multiset().count(e) >= 2,
    ensures
        exists|a: int, b: int| 0 <= a < b < s.len() && s[a] == e && s[b] == e,
{
    assert(s.contains(e));
    let a = choose|a: int| 0 <= a < s.len() && s[a] == e;
    assert(s.remove(a).to_multiset().count(e) >= 1);
    assert(s.remove(a).contains(e));
    let b0 = choose|b: int| 0 <= b < s.remove(a).len() && s.remove(a)[b] == e;
    if b0 < a {
        assert(s[b0] == e && s[a] == e);
    } else {
        assert(s[b0 + 1] == e && s[a] == e);
    }
}

/// Sorting preserves distinctness: a sorted rearrangement of a breakpoint
/// list with pairwise-distinct inputs has strictly increasing inputs, so the
/// evaluation laws below apply to any curve built from distinct inputs.
pub proof fn lemma_sorted_distinct_inputs_strict(s: Seq<(u32, u32)>, t: Seq<(u32, u32)>)
    requires
        t.to_multiset() == s.to_multiset(),
        sorted_pairs(t),
        distinct_inputs(s),
    ensures
        strictly_increasing_inputs(t),
{
    assert forall|i: int, j: int| 0 <= i < j < t.len() implies (#[trigger] t[i]).0 < (
    #[trigger] t[j]).0 by {
        assert(pair_le(t[i], t[j]));
        if t[i].0 == t[j].0 {
            if t[i] == t[j] {
                let e = t[i];
                assert(t.remove(i)[j - 1] == e);
                assert(t.remove(i).contains(e));
                assert(t.remove(i).to_multiset() == t.to_multiset().remove(e));
                assert(t.to_multiset().remove(e).count(e) == t.to_multiset().count(e) - 1) by {
                    broadcast use vstd::multiset::group_multiset_axioms;
                }
                assert(t.to_multiset().count(e) >= 2);
                lemma_count_two_positions(s, e);
                let (a, b) = choose|a: int, b: int|
                    0 <= a < b < s.len() && s[a] == e && s[b] == e;
                assert(s[a].0 != s[b].0);
            } else {
                assert(t.to_multiset().count(t[i]) > 0 && t.to_multiset().count(t[j]) > 0);
                assert(s.contains(t[i]) && s.contains(t[j]));
                let a = choose|a: int| 0 <= a < s.len() && s[a] == t[i];
                let b = choose|b: int| 0 <= b < s.len() && s[b] == t[j];
                if a < b {
                    assert(s[a].0 != s[b].0);
                } else {
                    assert(s[b].0 != s[a].0);
                }
            }
        }
    }
}

/// At or below the smallest input the curve yields the first breakpoint's
/// output; at or above the largest input, the last breakpoint's output.
pub proof fn lemma_eval_at_extremes(s: Seq<(u32, u32)>, x: u32)
    requires
        s.len() > 0,
        strictly_increasing_inputs(s),
    ensures
        x <= s[0].0 ==> eval_at(s, x) == s[0].1,
        x >= s.last().0 ==> eval_at(s, x) == s.last().1,
{
    let n = s.len() as int;
    if x < s[0].0 {
        lemma_first_above_unique(s, x, 0);
    } else if x == s[0].0 {
        if n == 1 {
            lemma_first_above_unique(s, x, 1);
        } else {
            lemma_first_above_unique(s, x, 1);
            lemma_interp_endpoints(s[0].0, s[0].1, s[1].0, s[1].1);
        }
    }
    if x >= s.last().0 {
        assert forall|j: int| 0 <= j < n implies (#[trigger] s[j]).0 <= x by {
            if j < n - 1 {
                assert(s[j].0 < s[n - 1].0);
            }
        }
        lemma_first_above_unique(s, x, n);
    }
}

/// Evaluating exactly at a breakpoint's input yields that breakpoint's output.
pub proof fn lemma_eval_at_breakpoint(s: Seq<(u32, u32)>, i: int)
    requires
        strictly_increasing_inputs(s),
        0 <= i < s.len(),
    ensures
        eval_at(s, s[i].0) == s[i].1,
{
    let x = s[i].0;
    assert forall|j: int| 0 <= j < i + 1 implies (#[trigger] s[j]).0 <= x by {
        if j < i {
            assert(s[j].0 < s[i].0);
        }
    }
    lemma_first_above_unique(s, x, i + 1);
    if i + 1 < s.len() {
        lemma_interp_endpoints(s[i].0, s[i].1, s[i + 1].0, s[i + 1].1);
    }
}

/// On the closed segment between two consecutive breakpoints, evaluation is
/// exactly the interpolation along that segment.
pub proof fn lemma_eval_on_segment(s: Seq<(u32, u32)>, i: int, x: u32)
    requires
        strictly_increasing_inputs(s),
        0 <= i,
        i + 1 < s.len(),
        s[i].0 <= x <= s[i + 1].0,
    ensures
        eval_at(s, x) == interp_at(s[i].0, s[i].1, s[i + 1].0, s[i + 1].1, x),
{
    if x < s[i + 1].0 {
        assert forall|j: int| 0 <= j < i + 1 implies (#[trigger] s[j]).0 <= x by {
            if j < i {
                assert(s[j].0 < s[i].0);
            }
        }
        lemma_first_above_unique(s, x, i + 1);
    } else {
        lemma_eval_at_breakpoint(s, i + 1);
        lemma_interp_endpoints(s[i].0, s[i].1, s[i + 1].0, s[i + 1].1);
    }
}

proof fn lemma_interp_monotone(lx: u32, ly: u32, rx: u32, ry: u32, x1: u32, x2: u32)
    requires
        lx <= x1 <= x2 <= rx,
        lx < rx,
    ensures
        ly <= ry ==> interp_at(lx, ly, rx, ry, x1) <= interp_at(lx, ly, rx, ry, x2),
        ry <= ly ==> interp_at(lx, ly, rx, ry, x2) <= interp_at(lx, ly, rx, ry, x1),
{
    let den = (rx - lx) as int;
    let num1 = ly * (rx - x1) + ry * (x1 - lx);
    let num2 = ly * (rx - x2) + ry * (x2 - lx);
    assert(num2 - num1 == (ry - ly) * (x2 - x1)) by (nonlinear_arith)
        requires
            num1 == ly * (rx - x1) + ry * (x1 - lx),
            num2 == ly * (rx - x2) + ry * (x2 - lx),
    ;
    assert(ly <= ry ==> num1 <= num2) by (nonlinear_arith)
        requires
            num2 - num1 == (ry - ly) * (x2 - x1),
            x1 <= x2,
    ;
    assert(ry <= ly ==> num2 <= num1) by (nonlinear_arith)
        requires
            num2 - num1 == (ry - ly) * (x2 - x1),
            x1 <= x2,
    ;
    if ly <= ry {
        vstd::arithmetic::div_mod::lemma_div_is_ordered(num1, num2, den);
    } else {
        vstd::arithmetic::div_mod::lemma_div_is_ordered(num2, num1, den);
    }
}

/// Between two consecutive breakpoints, evaluation moves in the same direction
/// as the segment's outputs and never leaves their range: interpolation does
/// not overshoot or undershoot.
pub proof fn lemma_eval_monotone_on_segment(s: Seq<(u32, u32)>, i: int, x1: u32, x2: u32)
    requires
        strictly_increasing_inputs(s),
        0 <= i,
        i + 1 < s.len(),
        s[i].0 <= x1 <= x2 <= s[i + 1].0,
    ensures
        s[i].1 <= s[i + 1].1 ==> s[i].1 <= eval_at(s, x1) <= eval_at(s, x2) <= s[i + 1].1,
        s[i + 1].1 <= s[i].1 ==> s[i + 1].1 <= eval_at(s, x2) <= eval_at(s, x1) <= s[i].1,
{
    lemma_eval_on_segment(s, i, x1);
    lemma_eval_on_segment(s, i, x2);
    lemma_interp_monotone(s[i].0, s[i].1, s[i + 1].0, s[i + 1].1, x1, x2);
    lemma_interp_bounds(s[i].0, s[i].1, s[i + 1].0, s[i + 1].1, x1);
    lemma_interp_bounds(s[i].0, s[i].1, s[i + 1].0, s[i + 1].1, x2);
}

fn interp_exec(lx: u32, ly: u32, rx: u32, ry: u32, x: u32) -> (y: u32)
    requires
        lx <= x < rx,
    ensures
        y == interp_at(lx, ly, rx, ry, x),
{
    proof {
        assert((ly as int) * ((rx - x) as int) <= 0xffff_ffff * 0xffff_ffff && (ry as int) * ((x
            - lx) as int) <= 0xffff_ffff * 0xffff_ffff) by (nonlinear_arith)
            requires
                0 <= ly <= 0xffff_ffff,
                0 <= ry <= 0xffff_ffff,
                0 <= rx - x <= 0xffff_ffff,
                0 <= x - lx <= 0xffff_ffff,
        ;
    }
    let num: u128 = (ly as u128) * ((rx - x) as u128) + (ry as u128) * ((x - lx) as u128);
    let den: u128 = (rx - lx) as u128;
    let q = num / den;
    proof {
        lemma_interp_bounds(lx, ly, rx, ry, x);
    }
    q as u32
}

/// Evaluate a sorted, non-empty breakpoint list at `x`.
pub(crate) fn eval_sorted(curve: &Vec<(u32, u32)>, x: u32) -> (y: u32)
    requires
        curve@.len() > 0,
        sorted_pairs(curve@),
    ensures
        y == eval_at(curve@, x),
{
    let n = curve.len();
    let mut i: usize = 0;
    while i < n && curve[i].0 <= x
        invariant
            n == curve@.len(),
            i <= n,
            forall|j: int| 0 <= j < i ==> (#[trigger] curve@[j]).0 <= x,
        decreases n - i,
    {
        i += 1;
    }
    proof {
        lemma_first_above_unique(curve@, x, i as int);
    }
    if i == n {
        curve[n - 1].1
    } else if i == 0 {
        curve[0].1
    } else {
        let (lx, ly) = curve[i - 1];
        let (rx, ry) = curve[i];
        interp_exec(lx, ly, rx, ry, x)
    }
}

} // verus!
