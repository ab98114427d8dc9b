//! Second-order low-pass filter (PT2): two first-order stages in series,
//! each with the same gain.

use crate::fixed_point::{
    div_spec, fits, lemma_real_fits, lemma_scale_between, mul_spec, Real, TAU_BITS,
};
use vstd::arithmetic::div_mod::*;
use vstd::arithmetic::mul::*;
use vstd::prelude::*;

verus! {

broadcast use lemma_real_fits;

/// Cutoff correction for two cascaded stages, `1 / sqrt(2^(1/2) - 1)`,
/// as the nearest multiple of `2^-16` to the `f32` constant 1.553773974.
pub const CUTOFF_CORRECTION_PT2_BITS: i64 = 101828;

/// Raw bits of the first-order gain `ω / (ω + 1)` with `ω = τ·f_cut / f_sample`,
/// computed in the fixed-point arithmetic.
pub open spec fn pt1_gain_spec(f_cut: int, f_sample: int) -> int {
    let omega = div_spec(mul_spec(TAU_BITS as int, f_cut), f_sample);
    div_spec(omega, omega + 65536)
}

/// The first-order gain can be computed without a division by zero or an
/// overflow.
pub open spec fn pt1_gain_defined(f_cut: int, f_sample: int) -> bool {
    let product = mul_spec(TAU_BITS as int, f_cut);
    let omega = div_spec(product, f_sample);
    &&& fits(product)
    &&& f_sample != 0
    &&& fits(omega)
    &&& fits(omega + 65536)
    &&& omega + 65536 != 0
    &&& fits(div_spec(omega, omega + 65536))
}

/// Raw bits of the PT2 stage gain: the first-order gain at the corrected cutoff.
pub open spec fn pt2_gain_spec(f_cut: int, f_sample: int) -> int {
    pt1_gain_spec(mul_spec(f_cut, CUTOFF_CORRECTION_PT2_BITS as int), f_sample)
}

pub open spec fn pt2_gain_defined(f_cut: int, f_sample: int) -> bool {
    &&& fits(mul_spec(f_cut, CUTOFF_CORRECTION_PT2_BITS as int))
    &&& pt1_gain_defined(mul_spec(f_cut, CUTOFF_CORRECTION_PT2_BITS as int), f_sample)
}

/// Gain of a first-order low-pass stage for cutoff `f_cut` at sample rate `f_sample`.
pub fn pt1_filter_gain(f_cut: Real, f_sample: Real) -> (k: Real)
    requires
        pt1_gain_defined(f_cut@, f_sample@),
    ensures
        k@ == pt1_gain_spec(f_cut@, f_sample@),
{
    let omega = Real::tau().mul(f_cut).div(f_sample);
    omega.div(omega.add(Real::one()))
}

/// Gain of each stage of a PT2 filter for cutoff `f_cut` at sample rate `f_sample`.
pub fn pt2_filter_gain(f_cut: Real, f_sample: Real) -> (k: Real)
    requires
        pt2_gain_defined(f_cut@, f_sample@),
    ensures
        k@ == pt2_gain_spec(f_cut@, f_sample@),
{
    pt1_filter_gain(f_cut.mul(Real::from_bits(CUTOFF_CORRECTION_PT2_BITS)), f_sample)
}

/// Bounds under which the gain is defined and lies in `[0, 1)`: a cutoff of
/// at most 1000 and a sample rate of at least 1 and at most 1000000.
pub proof fn lemma_pt2_gain_bounds(f_cut: int, f_sample: int)
    requires
        0 <= f_cut <= 1000 * 65536,
        65536 <= f_sample <= 1000000 * 65536,
    ensures
        pt2_gain_defined(f_cut, f_sample),
        0 <= pt2_gain_spec(f_cut, f_sample) < 65536,
{
    let c = mul_spec(f_cut, CUTOFF_CORRECTION_PT2_BITS as int);
    assert(0 <= f_cut * 101828 <= 1000 * 65536 * 101828) by (nonlinear_arith)
        requires
            0 <= f_cut <= 1000 * 65536,
    ;
    lemma_div_is_ordered(0, f_cut * 101828, 65536);
    lemma_div_is_ordered(f_cut * 101828, 1000 * 65536 * 101828int, 65536);
    assert(0 <= c <= 1000 * 101828);
    let p = mul_spec(TAU_BITS as int, c);
    assert(0 <= 411775 * c <= 411775 * (1000 * 101828)) by (nonlinear_arith)
        requires
            0 <= c <= 1000 * 101828,
    ;
    lemma_div_is_ordered(0, 411775 * c, 65536);
    lemma_div_is_ordered(411775 * c, 411775 * (1000 * 101828int), 65536);
    assert(0 <= p <= 700000000000);
    let omega = div_spec(p, f_sample);
    assert(0 <= p * 65536 <= 700000000000 * f_sample) by (nonlinear_arith)
        requires
            0 <= p <= 700000000000,
            65536 <= f_sample,
    ;
    lemma_div_is_ordered(0, p * 65536, f_sample);
    lemma_div_is_ordered(p * 65536, 700000000000 * f_sample, f_sample);
    lemma_div_multiples_vanish(700000000000, f_sample);
    assert(f_sample * 700000000000 == 700000000000 * f_sample) by {
        lemma_mul_is_commutative(f_sample, 700000000000);
    }
    assert(0 <= omega <= 700000000000);
    let g = div_spec(omega, omega + 65536);
    assert(0 <= omega * 65536 < 65536 * (omega + 65536)) by (nonlinear_arith)
        requires
            0 <= omega,
    ;
    lemma_div_is_ordered(0, omega * 65536, omega + 65536);
    lemma_multiply_divide_lt(omega * 65536, omega + 65536, 65536);
    assert((omega + 65536) * 65536 == 65536 * (omega + 65536)) by {
        lemma_mul_is_commutative(omega + 65536, 65536);
    }
    assert(0 <= g < 65536);
}

/// Rounding a quotient down keeps the order of the quotients.
proof fn lemma_floor_div_ordered(a: int, b: int, c: int, d: int)
    requires
        0 <= a,
        0 < b,
        0 < d,
        a * d <= c * b,
    ensures
        a / b <= c / d,
{
    let q = a / b;
    lemma_fundamental_div_mod(a, b);
    lemma_div_pos_is_pos(a, b);
    assert(q * b <= a) by {
        lemma_mod_bound(a, b);
    }
    assert(q * d <= c) by (nonlinear_arith)
        requires
            q * b <= a,
            a * d <= c * b,
            0 < b,
            0 < d,
            q >= 0,
    ;
    lemma_div_is_ordered(q * d, c, d);
    lemma_div_multiples_vanish(q, d);
    assert(d * q == q * d) by {
        lemma_mul_is_commutative(d, q);
    }
}

/// `ω ↦ ω / (ω + 1)` in the fixed-point arithmetic never decreases.
proof fn lemma_stage_gain_monotonic(w1: int, w2: int)
    requires
        0 <= w1 <= w2,
    ensures
        div_spec(w1, w1 + 65536) <= div_spec(w2, w2 + 65536),
{
    assert(w1 * 65536 * (w2 + 65536) <= w2 * 65536 * (w1 + 65536)) by (nonlinear_arith)
        requires
            0 <= w1 <= w2,
    ;
    lemma_floor_div_ordered(w1 * 65536, w1 + 65536, w2 * 65536, w2 + 65536);
}

/// The first-order gain never decreases as the cutoff grows, and never
/// increases as the sample rate grows. (Rounding makes neither strict.)
pub proof fn lemma_pt1_gain_monotonic(f_cut1: int, f_cut2: int, f_sample1: int, f_sample2: int)
    requires
        0 <= f_cut1 <= f_cut2,
        0 < f_sample1 <= f_sample2,
    ensures
        pt1_gain_spec(f_cut1, f_sample1) <= pt1_gain_spec(f_cut2, f_sample1),
        pt1_gain_spec(f_cut1, f_sample2) <= pt1_gain_spec(f_cut1, f_sample1),
{
    let p1 = mul_spec(TAU_BITS as int, f_cut1);
    let p2 = mul_spec(TAU_BITS as int, f_cut2);
    assert(0 <= 411775 * f_cut1 <= 411775 * f_cut2) by (nonlinear_arith)
        requires
            0 <= f_cut1 <= f_cut2,
    ;
    lemma_div_is_ordered(0, 411775 * f_cut1, 65536);
    lemma_div_is_ordered(411775 * f_cut1, 411775 * f_cut2, 65536);
    assert(0 <= p1 <= p2);
    // Larger cutoff at the same sample rate.
    assert(0 <= p1 * 65536 <= p2 * 65536) by (nonlinear_arith)
        requires
            0 <= p1 <= p2,
    ;
    lemma_div_is_ordered(0, p1 * 65536, f_sample1);
    lemma_div_is_ordered(p1 * 65536, p2 * 65536, f_sample1);
    lemma_stage_gain_monotonic(div_spec(p1, f_sample1), div_spec(p2, f_sample1));
    // Larger sample rate at the same cutoff.
    lemma_div_is_ordered(0, p1 * 65536, f_sample2);
    assert(p1 * 65536 * f_sample1 <= p1 * 65536 * f_sample2) by (nonlinear_arith)
        requires
            0 <= p1,
            0 < f_sample1 <= f_sample2,
    ;
    lemma_floor_div_ordered(p1 * 65536, f_sample2, p1 * 65536, f_sample1);
    lemma_stage_gain_monotonic(div_spec(p1, f_sample2), div_spec(p1, f_sample1));
}

/// The stage gain of the PT2 filter never decreases as the cutoff grows,
/// and never increases as the sample rate grows.
pub proof fn lemma_pt2_gain_monotonic(f_cut1: int, f_cut2: int, f_sample1: int, f_sample2: int)
    requires
        0 <= f_cut1 <= f_cut2,
        0 < f_sample1 <= f_sample2,
    ensures
        pt2_gain_spec(f_cut1, f_sample1) <= pt2_gain_spec(f_cut2, f_sample1),
        pt2_gain_spec(f_cut1, f_sample2) <= pt2_gain_spec(f_cut1, f_sample1),
{
    let c1 = mul_spec(f_cut1, CUTOFF_CORRECTION_PT2_BITS as int);
    let c2 = mul_spec(f_cut2, CUTOFF_CORRECTION_PT2_BITS as int);
    assert(0 <= f_cut1 * 101828 <= f_cut2 * 101828) by (nonlinear_arith)
        requires
            0 <= f_cut1 <= f_cut2,
    ;
    lemma_div_is_ordered(0, f_cut1 * 101828, 65536);
    lemma_div_is_ordered(f_cut1 * 101828, f_cut2 * 101828, 65536);
    lemma_pt1_gain_monotonic(c1, c2, f_sample1, f_sample2);
}

/// The state of a filter: the output stage, the first stage, the stage
/// gain and the state that `reset` restores, each as raw fixed-point bits.
pub struct Pt2View {
    pub state: int,
    pub state1: int,
    pub gain: int,
    pub initial: int,
}

/// A filter at rest at `initial` with the gain for `f_cut` and `f_sample`.
pub open spec fn fresh_spec(f_cut: int, f_sample: int, initial: int) -> Pt2View {
    Pt2View { state: initial, state1: initial, gain: pt2_gain_spec(f_cut, f_sample), initial: initial }
}

/// The state after a reset: both stages at the initial state.
pub open spec fn reset_spec(v: Pt2View) -> Pt2View {
    Pt2View { state: v.initial, state1: v.initial, ..v }
}

/// The state with the gain set for `f_cut` and `f_sample`.
pub open spec fn gain_set_spec(v: Pt2View, f_cut: int, f_sample: int) -> Pt2View {
    Pt2View { gain: pt2_gain_spec(f_cut, f_sample), ..v }
}

/// The state after one filter step on `input`.
pub open spec fn update_spec(v: Pt2View, input: int) -> Pt2View {
    let s1 = v.state1 + mul_spec(v.gain, input - v.state1);
    let s = v.state + mul_spec(v.gain, s1 - v.state);
    Pt2View { state: s, state1: s1, gain: v.gain, initial: v.initial }
}

/// One filter step on `input` computes without overflow.
pub open spec fn update_defined(v: Pt2View, input: int) -> bool {
    let d1 = input - v.state1;
    let s1 = v.state1 + mul_spec(v.gain, d1);
    let d = s1 - v.state;
    &&& fits(d1)
    &&& fits(mul_spec(v.gain, d1))
    &&& fits(s1)
    &&& fits(d)
    &&& fits(mul_spec(v.gain, d))
    &&& fits(v.state + mul_spec(v.gain, d))
}

/// A second-order low-pass filter.
#[derive(Clone, Copy)]
pub struct Pt2Filter {
    state: Real,
    state1: Real,
    k: Real,
    initial_state: Real,
}

impl View for Pt2Filter {
    type V = Pt2View;

    closed spec fn view(&self) -> Pt2View {
        Pt2View { state: self.state@, state1: self.state1@, gain: self.k@, initial: self.initial_state@ }
    }
}

impl Pt2Filter {
    /// A filter at rest at zero.
    pub fn new(f_cut: Real, f_sample: Real) -> (f: Pt2Filter)
        requires
            pt2_gain_defined(f_cut@, f_sample@),
        ensures
            f@ == fresh_spec(f_cut@, f_sample@, 0),
    {
        Self::with_initial_state(f_cut, f_sample, Real::zero())
    }

    /// A filter at rest at `initial_state`, to which `reset` returns it.
    pub fn with_initial_state(f_cut: Real, f_sample: Real, initial_state: Real) -> (f: Pt2Filter)
        requires
            pt2_gain_defined(f_cut@, f_sample@),
        ensures
            f@ == fresh_spec(f_cut@, f_sample@, initial_state@),
    {
        let k = pt2_filter_gain(f_cut, f_sample);
        Pt2Filter { state: initial_state, state1: initial_state, k, initial_state }
    }

    /// Sets the gain for a new cutoff or sample rate; the states are kept.
    pub fn update_gain(&mut self, f_cut: Real, f_sample: Real)
        requires
            pt2_gain_defined(f_cut@, f_sample@),
        ensures
            final(self)@ == gain_set_spec(old(self)@, f_cut@, f_sample@),
    {
        self.k = pt2_filter_gain(f_cut, f_sample);
    }

    /// Returns both stages to the initial state.
    pub fn reset(&mut self)
        ensures
            final(self)@ == reset_spec(old(self)@),
    {
        self.state = self.initial_state;
        self.state1 = self.initial_state;
    }

    /// Feeds one sample and returns the filtered value.
    pub fn update(&mut self, input: Real) -> (out: Real)
        requires
            update_defined(old(self)@, input@),
        ensures
            final(self)@ == update_spec(old(self)@, input@),
            out@ == final(self)@.state,
    {
        self.state1 = self.state1.add(self.k.mul(input.sub(self.state1)));
        self.state = self.state.add(self.k.mul(self.state1.sub(self.state)));
        self.state
    }

    /// The current output.
    pub fn state(&self) -> (s: Real)
        ensures
            s@ == self@.state,
    {
        self.state
    }
}

/// With a gain in `[0, 1]`, one step moves the first stage to a value
/// between its old value and the input, and the output stage to a value
/// between its old value and the new first stage: the filter never
/// overshoots.
pub proof fn lemma_update_between(v: Pt2View, input: int)
    requires
        0 <= v.gain <= 65536,
    ensures
        ({
            let n = update_spec(v, input);
            &&& (v.state1 <= input ==> v.state1 <= n.state1 <= input)
            &&& (input <= v.state1 ==> input <= n.state1 <= v.state1)
            &&& (v.state <= n.state1 ==> v.state <= n.state <= n.state1)
            &&& (n.state1 <= v.state ==> n.state1 <= n.state <= v.state)
        }),
{
    let n = update_spec(v, input);
    lemma_scale_between(v.gain, input - v.state1);
    lemma_scale_between(v.gain, n.state1 - v.state);
}

/// With a gain in `[0, 1]`, a step keeps both stages inside any interval
/// that holds them and the input; within `±2^40` it cannot overflow.
pub proof fn lemma_update_in_bounds(v: Pt2View, input: int, lo: int, hi: int)
    requires
        0 <= v.gain <= 65536,
        -0x100_0000_0000 <= lo,
        hi <= 0x100_0000_0000,
        lo <= v.state <= hi,
        lo <= v.state1 <= hi,
        lo <= input <= hi,
    ensures
        update_defined(v, input),
        lo <= update_spec(v, input).state <= hi,
        lo <= update_spec(v, input).state1 <= hi,
{
    let n = update_spec(v, input);
    lemma_scale_between(v.gain, input - v.state1);
    lemma_scale_between(v.gain, n.state1 - v.state);
}

/// A filter whose stages both rest at the input stays where it is.
pub proof fn lemma_rest_is_fixed_point(v: Pt2View)
    requires
        v.state == v.state1,
    ensures
        update_spec(v, v.state) == v,
{
    assert(v.gain * 0 == 0);
    assert(0int / 65536 == 0);
}

/// A reset forgets every input: two filters with the same gain and initial
/// state are equal after a reset, a second reset changes nothing, and after
/// the gain is set for `f_cut` and `f_sample` a reset gives a fresh filter
/// for those frequencies at the initial state. A filter made by `new` is a
/// fresh filter at zero.
pub proof fn lemma_reset_forgets_history(v: Pt2View, w: Pt2View, f_cut: int, f_sample: int)
    requires
        v.gain == w.gain,
        v.initial == w.initial,
    ensures
        reset_spec(v) == reset_spec(w),
        reset_spec(reset_spec(v)) == reset_spec(v),
        reset_spec(gain_set_spec(v, f_cut, f_sample)) == fresh_spec(f_cut, f_sample, v.initial),
        reset_spec(fresh_spec(f_cut, f_sample, v.initial)) == fresh_spec(f_cut, f_sample, v.initial),
{
}

/// Setting the gain keeps both stages and the initial state, and the filter
/// then steps as a fresh filter for those frequencies in the same state would.
pub proof fn lemma_gain_set_keeps_states(v: Pt2View, f_cut: int, f_sample: int, input: int)
    ensures
        gain_set_spec(v, f_cut, f_sample).state == v.state,
        gain_set_spec(v, f_cut, f_sample).state1 == v.state1,
        gain_set_spec(v, f_cut, f_sample).initial == v.initial,
        update_spec(gain_set_spec(v, f_cut, f_sample), input) == update_spec(
            Pt2View { state: v.state, state1: v.state1, ..fresh_spec(f_cut, f_sample, v.initial) },
            input,
        ),
{
}

} // verus!
