//! Per-monitor brightness state machine: turns a raw curve output into a
//! quantized, rate-limited brightness value, with hysteresis so a hovering
//! sensor reading does not make the brightness oscillate.
//!
//! The state machine itself performs no hardware access. A tick computes the
//! new quantized target and the value that must be written, if any; the
//! caller performs the write and, on success, records the written value. A
//! failed write therefore leaves the committed brightness unchanged.

use crate::breakpoints::eval_at;
use crate::piecewise_linear::PiecewiseLinear;
use vstd::prelude::*;

verus! {

/// Curve output clamped to the brightness percentage range.
pub open spec fn clamp_pct(v: int) -> int {
    if v > 100 {
        100
    } else {
        v
    }
}

/// Step granularity of quantization: coarse at higher brightness, finer below
/// 20%, where perception is more sensitive.
pub open spec fn granularity(raw: int) -> int {
    if raw > 20 {
        5
    } else {
        2
    }
}

/// The quantized target for a raw curve output `raw` against the committed
/// brightness `cur`: unchanged when equal; rounded up to a multiple of the
/// granularity when lowering and down when raising, biasing the target toward
/// the current value to damp oscillation.
pub open spec fn quantize(cur: int, raw: int) -> int {
    let g = granularity(raw);
    if raw == cur {
        cur
    } else if raw < cur {
        ((raw + g - 1) / g) * g
    } else {
        (raw / g) * g
    }
}

/// One rate-limited step from `cur` toward `target`: jump when within 3,
/// otherwise move by exactly 2, never overshooting.
pub open spec fn step_toward(cur: int, target: int) -> int {
    if -3 <= target - cur <= 3 {
        target
    } else if target > cur {
        cur + 2
    } else {
        cur - 2
    }
}

/// The quantized target a tick computes from the committed brightness `cur`
/// and the lux reading.
pub open spec fn tick_target(points: Seq<(u32, u32)>, cur: int, lux: u32) -> int {
    quantize(cur, clamp_pct(eval_at(points, lux)))
}

/// The hardware write a tick asks for: the rate-limited next value when it
/// differs from the committed brightness, nothing otherwise.
pub open spec fn tick_write(cur: int, target: int) -> Option<u16> {
    let next = step_toward(cur, target);
    if next == cur {
        None
    } else {
        Some(next as u16)
    }
}

/// The state for one display: its response curve, the committed brightness
/// (what the hardware was last told, `0..=100`) and the current quantized
/// target.
pub struct MonitorState {
    curve: PiecewiseLinear,
    target: u16,
    brightness: u16,
}

impl MonitorState {
    /// The breakpoints of this monitor's response curve.
    pub closed spec fn spec_points(&self) -> Seq<(u32, u32)> {
        self.curve.points()
    }

    /// The committed brightness: what the display was last told.
    pub closed spec fn spec_brightness(&self) -> u16 {
        self.brightness
    }

    /// The quantized target of the most recent tick.
    pub closed spec fn spec_target(&self) -> u16 {
        self.target
    }

    pub open spec fn wf(&self) -> bool {
        &&& self.spec_points().len() > 0
        &&& crate::breakpoints::sorted_pairs(self.spec_points())
        &&& self.spec_brightness() <= 100
        &&& self.spec_target() <= 100
    }

    /// Set up the state for one display with its response curve; the
    /// committed brightness starts at zero until the display is initialized.
    pub fn for_display(curve: PiecewiseLinear) -> (m: MonitorState)
        requires
            curve.wf(),
        ensures
            m.wf(),
            m.spec_points() == curve.points(),
            m.spec_brightness() == 0,
            m.spec_target() == 0,
    {
        MonitorState { curve, target: 0, brightness: 0 }
    }

    /// The clamped curve output for `lux`: the value written unconditionally
    /// at startup, with no quantization and no rate limiting.
    pub fn brightness_for_lux(&self, lux: u32) -> (b: u16)
        requires
            self.wf(),
        ensures
            b == clamp_pct(eval_at(self.spec_points(), lux)),
            b <= 100,
    {
        let y = self.curve.eval(lux);
        if y > 100 {
            100
        } else {
            y as u16
        }
    }

    /// The quantized brightness target for raw curve output `new` against the
    /// committed brightness `cur`.
    pub fn new_target_brightness(cur: u16, new: u16) -> (r: u16)
        requires
            new <= 100,
        ensures
            r == quantize(cur as int, new as int),
            r <= 100,
    {
        let round_to: u16 = if new > 20 {
            5
        } else {
            2
        };
        proof {
            lemma_quantize_bounds(cur as int, new as int);
        }
        if new == cur {
            new
        } else if new < cur {
            (new + round_to - 1) / round_to * round_to
        } else {
            new / round_to * round_to
        }
    }

    /// One tick: evaluate the curve at `lux`, clamp, quantize against the
    /// committed brightness, store the quantized target, and return the
    /// rate-limited value the caller must write to the display, or `None`
    /// when the committed brightness is already the next value. The committed
    /// brightness is not changed here: the caller records it only after the
    /// hardware write succeeded.
    pub fn tick(&mut self, lux: u32) -> (w: Option<u16>)
        requires
            old(self).wf(),
        ensures
            final(self).wf(),
            final(self).spec_points() == old(self).spec_points(),
            final(self).spec_brightness() == old(self).spec_brightness(),
            final(self).spec_target() == tick_target(
                old(self).spec_points(),
                old(self).spec_brightness() as int,
                lux,
            ),
            w == tick_write(old(self).spec_brightness() as int, final(self).spec_target() as int),
            w matches Some(pct) ==> pct <= 100,
    {
        let cur = self.brightness;
        let raw = self.brightness_for_lux(lux);
        let target = Self::new_target_brightness(cur, raw);
        self.target = target;
        let next: u16 = if target >= cur && target - cur <= 3 {
            target
        } else if cur >= target && cur - target <= 3 {
            target
        } else if target > cur {
            cur + 2
        } else {
            cur - 2
        };
        if next != cur {
            Some(next)
        } else {
            None
        }
    }

    /// Record a successful hardware write of `pct` as the committed
    /// brightness.
    pub fn record_brightness(&mut self, pct: u16)
        requires
            old(self).wf(),
            pct <= 100,
        ensures
            final(self).wf(),
            final(self).spec_points() == old(self).spec_points(),
            final(self).spec_target() == old(self).spec_target(),
            final(self).spec_brightness() == pct,
    {
        self.brightness = pct;
    }
}

/// The quantized target stays a valid brightness percentage.
pub proof fn lemma_quantize_bounds(cur: int, raw: int)
    requires
        0 <= raw <= 100,
    ensures
        0 <= quantize(cur, raw) <= 100,
{
    let g = granularity(raw);
    if raw != cur {
        if raw < cur {
            let q = (raw + g - 1) / g;
            vstd::arithmetic::div_mod::lemma_fundamental_div_mod(raw + g - 1, g);
            assert(g * q <= raw + g - 1);
            assert(0 <= q);
        } else {
            let q = raw / g;
            vstd::arithmetic::div_mod::lemma_fundamental_div_mod(raw, g);
            assert(g * q <= raw);
            assert(0 <= q);
        }
    }
}

/// Quantization hysteresis: an unchanged raw value keeps the target; a lower
/// raw value is rounded up to the nearest multiple of the granularity and a
/// higher one down, so the target always lands within one granularity step of
/// the raw value, on the side of the current value. In particular, when the
/// current value is itself a multiple of the granularity, every raw value
/// less than one step away folds back onto the current value.
pub proof fn lemma_quantize_hysteresis(cur: int, raw: int)
    requires
        0 <= raw <= 100,
    ensures
        raw == cur ==> quantize(cur, raw) == cur,
        raw < cur ==> raw <= quantize(cur, raw) < raw + granularity(raw) && quantize(cur, raw)
            % granularity(raw) == 0,
        raw > cur ==> raw - granularity(raw) < quantize(cur, raw) <= raw && quantize(cur, raw)
            % granularity(raw) == 0,
        cur % granularity(raw) == 0 && cur - granularity(raw) < raw < cur + granularity(raw)
            ==> quantize(cur, raw) == cur,
{
    let g = granularity(raw);
    if raw < cur {
        vstd::arithmetic::div_mod::lemma_fundamental_div_mod(raw + g - 1, g);
        assert(((raw + g - 1) / g * g) % g == 0) by {
            vstd::arithmetic::div_mod::lemma_mod_multiples_basic((raw + g - 1) / g, g);
        }
        if cur % g == 0 && cur - g < raw {
            vstd::arithmetic::div_mod::lemma_fundamental_div_mod(cur, g);
        }
    } else if raw > cur {
        vstd::arithmetic::div_mod::lemma_fundamental_div_mod(raw, g);
        assert((raw / g * g) % g == 0) by {
            vstd::arithmetic::div_mod::lemma_mod_multiples_basic(raw / g, g);
        }
        if cur % g == 0 && raw < cur + g {
            vstd::arithmetic::div_mod::lemma_fundamental_div_mod(cur, g);
        }
    }
}

/// The rate limiter: one step moves the committed brightness by at most 3,
/// never overshoots the target, and strictly shrinks the remaining distance
/// while any remains, so repeated ticks with a stable target converge to it
/// exactly.
pub proof fn lemma_step_toward_progress(cur: int, target: int)
    ensures
        cur <= target ==> cur <= step_toward(cur, target) <= target,
        target <= cur ==> target <= step_toward(cur, target) <= cur,
        -3 <= step_toward(cur, target) - cur <= 3,
        cur < target ==> target - step_toward(cur, target) < target - cur,
        target < cur ==> step_toward(cur, target) - target < cur - target,
        cur == target ==> step_toward(cur, target) == cur,
{
}

/// The committed value after `n` rate-limited steps toward a fixed target.
pub open spec fn iterate_step(cur: int, target: int, n: nat) -> int
    decreases n,
{
    if n == 0 {
        cur
    } else {
        step_toward(iterate_step(cur, target, (n - 1) as nat), target)
    }
}

/// Every rate-limited step closes the remaining distance to a fixed target by
/// at least one, without ever overshooting.
proof fn lemma_iterate_step_distance(cur: int, target: int, n: nat)
    ensures
        vstd::math::abs(target - iterate_step(cur, target, n)) <= vstd::math::max(
            vstd::math::abs(target - cur) - n,
            0,
        ),
    decreases n,
{
    if n > 0 {
        lemma_iterate_step_distance(cur, target, (n - 1) as nat);
        lemma_step_toward_progress(iterate_step(cur, target, (n - 1) as nat), target);
    }
}

/// Repeated rate-limited steps with a stable target reach it exactly: after
/// at least as many steps as the initial distance, the committed value equals
/// the target.
pub proof fn lemma_step_toward_converges(cur: int, target: int, n: nat)
    requires
        n >= vstd::math::abs(target - cur),
    ensures
        iterate_step(cur, target, n) == target,
{
    lemma_iterate_step_distance(cur, target, n);
}

/// Once the committed brightness equals the quantized target for the current
/// reading, a tick asks for no write, so with an unchanged lux value the
/// state stays settled forever.
pub proof fn lemma_settled_tick_is_noop(points: Seq<(u32, u32)>, cur: int, lux: u32)
    requires
        tick_target(points, cur, lux) == cur,
    ensures
        tick_write(cur, tick_target(points, cur, lux)) is None,
{
}

} // verus!
