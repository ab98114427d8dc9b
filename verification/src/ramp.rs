//! Linear ramp: follows a target at a bounded rate, with separate rates
//! for ramping up and down.

use crate::fixed_point::{
    abs_spec, div_spec, fits, lemma_real_fits, mul_spec, signum_spec, Real,
};
use vstd::arithmetic::div_mod::*;
use vstd::prelude::*;

verus! {

broadcast use lemma_real_fits;

/// How a ramp moves: `span` is covered in `ramp_up_millis` upwards and in
/// `ramp_down_millis` downwards; `first_interval_millis` is the time taken
/// as elapsed before the first update.
#[derive(Clone, Copy)]
pub struct LinearRampConfig {
    pub span: Real,
    pub ramp_up_millis: u64,
    pub ramp_down_millis: u64,
    pub first_interval_millis: u64,
}

/// The state of a ramp; `span` and `current` as raw fixed-point bits.
pub struct RampView {
    pub ramp_up_millis: nat,
    pub ramp_down_millis: nat,
    pub first_interval_millis: nat,
    pub span: int,
    pub current: int,
    pub last_updated_at: Option<u64>,
}

/// The time in milliseconds that an update at `now_millis` takes as elapsed:
/// the time since the last update (zero if the clock went back), or the
/// first interval before any update.
pub open spec fn ramp_period(v: RampView, now_millis: u64) -> int {
    match v.last_updated_at {
        Some(t) => if now_millis >= t { now_millis - t } else { 0 },
        None => v.first_interval_millis as int,
    }
}

/// The ramp time that applies when moving from the current value towards `target`.
pub open spec fn ramp_millis_towards(v: RampView, target: int) -> int {
    if target > v.current { v.ramp_up_millis as int } else { v.ramp_down_millis as int }
}

/// The largest move allowed by an update at `now_millis` towards `target`:
/// `span · period / ramp_millis` in the fixed-point arithmetic.
pub open spec fn max_step_spec(v: RampView, target: int, now_millis: u64) -> int {
    div_spec(mul_spec(v.span, ramp_period(v, now_millis) * 65536), ramp_millis_towards(v, target) * 65536)
}

/// The state after an update towards `target` at `now_millis`.
pub open spec fn ramp_update_spec(v: RampView, target: int, now_millis: u64) -> RampView {
    if target == v.current {
        v
    } else {
        let delta = target - v.current;
        let step = max_step_spec(v, target, now_millis);
        let next = if abs_spec(delta) <= step {
            target
        } else {
            v.current + mul_spec(step, signum_spec(delta))
        };
        RampView { current: next, last_updated_at: Some(now_millis), ..v }
    }
}

/// An update towards `target` at `now_millis` computes without a division
/// by zero or an overflow.
pub open spec fn ramp_update_defined(v: RampView, target: int, now_millis: u64) -> bool {
    let delta = target - v.current;
    let period = ramp_period(v, now_millis);
    let ramp = ramp_millis_towards(v, target);
    let step = max_step_spec(v, target, now_millis);
    target == v.current || {
        &&& fits(delta)
        &&& delta != i64::MIN
        &&& period * 65536 <= i64::MAX
        &&& ramp * 65536 <= i64::MAX
        &&& ramp != 0
        &&& fits(mul_spec(v.span, period * 65536))
        &&& fits(step)
        &&& (abs_spec(delta) > step ==> fits(mul_spec(step, signum_spec(delta))) && fits(
            v.current + mul_spec(step, signum_spec(delta)),
        ))
    }
}

/// A value that follows a target at a bounded rate.
#[derive(Clone)]
pub struct LinearRamp {
    ramp_up_millis: u64,
    ramp_down_millis: u64,
    first_interval_millis: u64,
    span: Real,
    current: Real,
    last_updated_at: Option<u64>,
}

impl View for LinearRamp {
    type V = RampView;

    closed spec fn view(&self) -> RampView {
        RampView {
            ramp_up_millis: self.ramp_up_millis as nat,
            ramp_down_millis: self.ramp_down_millis as nat,
            first_interval_millis: self.first_interval_millis as nat,
            span: self.span@,
            current: self.current@,
            last_updated_at: self.last_updated_at,
        }
    }
}

impl LinearRamp {
    /// A ramp at `current` that has not been updated yet.
    pub fn new(config: LinearRampConfig, current: Real) -> (r: LinearRamp)
        ensures
            r@ == (RampView {
                ramp_up_millis: config.ramp_up_millis as nat,
                ramp_down_millis: config.ramp_down_millis as nat,
                first_interval_millis: config.first_interval_millis as nat,
                span: config.span@,
                current: current@,
                last_updated_at: None,
            }),
    {
        LinearRamp {
            ramp_up_millis: config.ramp_up_millis,
            ramp_down_millis: config.ramp_down_millis,
            first_interval_millis: config.first_interval_millis,
            span: config.span,
            current,
            last_updated_at: None,
        }
    }

    /// The current value.
    pub fn value(&self) -> (v: Real)
        ensures
            v@ == self@.current,
    {
        self.current
    }

    /// Moves towards `target` by at most the step allowed for the time
    /// since the last update, and returns the new value. `dt_millis` is the
    /// time of this update.
    pub fn update(&mut self, target: Real, dt_millis: u64) -> (v: Real)
        requires
            ramp_update_defined(old(self)@, target@, dt_millis),
        ensures
            final(self)@ == ramp_update_spec(old(self)@, target@, dt_millis),
            v@ == final(self)@.current,
    {
        if target.eq(self.current) {
            return self.current;
        }
        let delta = target.sub(self.current);
        let ramp_millis = if Real::zero().lt(delta) {
            self.ramp_up_millis
        } else {
            self.ramp_down_millis
        };
        let period_from_last_update = match self.last_updated_at {
            Some(v) => if dt_millis >= v { dt_millis - v } else { 0 },
            None => self.first_interval_millis,
        };
        let max_step = self.span.mul(Real::from_u64(period_from_last_update)).div(
            Real::from_u64(ramp_millis),
        );
        if delta.abs().le(max_step) {
            self.current = target;
        } else {
            self.current = self.current.add(max_step.mul(delta.signum()));
        }
        self.last_updated_at = Some(dt_millis);
        self.current
    }
}

/// Scaling by the fixed-point sign moves by exactly the step, up or down.
pub proof fn lemma_step_by_sign(step: int, delta: int)
    ensures
        delta > 0 ==> mul_spec(step, signum_spec(delta)) == step,
        delta < 0 ==> mul_spec(step, signum_spec(delta)) == -step,
        delta == 0 ==> mul_spec(step, signum_spec(delta)) == 0,
{
    lemma_div_multiples_vanish(step, 65536);
    lemma_div_multiples_vanish(-step, 65536);
    assert(step * 65536 == 65536 * step);
    assert(step * -65536 == 65536 * -step);
}

/// A ramp already at its target is left as it is, its update time included.
pub proof fn lemma_ramp_at_target(v: RampView, now_millis: u64)
    ensures
        ramp_update_spec(v, v.current, now_millis) == v,
{
}

/// With a non-negative step, an update never passes the target, moves by
/// at most the allowed step, reaches the target when it is within that
/// step, and moves whenever the step is positive.
pub proof fn lemma_ramp_bounded_step(v: RampView, target: int, now_millis: u64)
    requires
        target != v.current,
        max_step_spec(v, target, now_millis) >= 0,
    ensures
        ({
            let n = ramp_update_spec(v, target, now_millis).current;
            let step = max_step_spec(v, target, now_millis);
            &&& (v.current < target ==> v.current <= n <= target)
            &&& (target < v.current ==> target <= n <= v.current)
            &&& abs_spec(n - v.current) <= step
            &&& (abs_spec(target - v.current) <= step ==> n == target)
            &&& (step > 0 ==> n != v.current)
        }),
{
    lemma_step_by_sign(max_step_spec(v, target, now_millis), target - v.current);
}

/// With a non-negative span, the allowed step is never negative.
pub proof fn lemma_max_step_nonneg(v: RampView, target: int, now_millis: u64)
    requires
        v.span >= 0,
        ramp_millis_towards(v, target) != 0,
    ensures
        max_step_spec(v, target, now_millis) >= 0,
{
    let p = ramp_period(v, now_millis) * 65536;
    let r = ramp_millis_towards(v, target) * 65536;
    assert(v.span * p >= 0) by (nonlinear_arith)
        requires
            v.span >= 0,
            p >= 0,
    ;
    lemma_div_is_ordered(0, v.span * p, 65536);
    let m = mul_spec(v.span, p);
    assert(m * 65536 >= 0) by (nonlinear_arith)
        requires
            m >= 0,
    ;
    lemma_div_is_ordered(0, m * 65536, r);
    assert(0int / r == 0);
}

/// An update that moves takes the time since the last update (zero if the
/// clock went back, the first interval before any update) and the ramp
/// time of its direction: the down time when the target lies below the
/// current value, the up time when above. It reaches the target when that
/// lies within `span · period / ramp time`, and else moves that far towards it.
pub proof fn lemma_ramp_rate_by_direction(v: RampView, target: int, now_millis: u64)
    requires
        target != v.current,
    ensures
        ({
            let period: int = match v.last_updated_at {
                Some(t) => if now_millis >= t { now_millis - t } else { 0 },
                None => v.first_interval_millis as int,
            };
            let rate: int = if target < v.current {
                v.ramp_down_millis as int
            } else {
                v.ramp_up_millis as int
            };
            let step = div_spec(mul_spec(v.span, period * 65536), rate * 65536);
            let delta = target - v.current;
            let n = ramp_update_spec(v, target, now_millis);
            &&& n.current == if (if delta >= 0 { delta } else { -delta }) <= step {
                target
            } else if target > v.current {
                v.current + step
            } else {
                v.current - step
            }
            &&& n.last_updated_at == Some(now_millis)
            &&& n.span == v.span
            &&& n.ramp_up_millis == v.ramp_up_millis
            &&& n.ramp_down_millis == v.ramp_down_millis
            &&& n.first_interval_millis == v.first_interval_millis
        }),
{
    lemma_step_by_sign(max_step_spec(v, target, now_millis), target - v.current);
}

} // verus!
