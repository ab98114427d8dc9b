use crsf2pwm::fixed_point::{Real, ONE_BITS, TAU_BITS};
use crsf2pwm::pt2::{pt1_filter_gain, pt2_filter_gain, Pt2Filter, CUTOFF_CORRECTION_PT2_BITS};
use fixed::types::{I16F16, I48F16};

fn num(v: u64) -> Real {
    Real::from_u64(v)
}

#[test]
fn test_pt2_filter_i16f16() {
    let mut f = Pt2Filter::with_initial_state(num(5), num(50), num(988));
    assert_eq!(f.update(num(1500)).to_i32(), 1112);
    assert_eq!(f.update(num(1500)).to_i32(), 1239);
    assert_eq!(f.update(num(1500)).to_i32(), 1335);
    assert_eq!(f.update(num(1500)).to_i32(), 1400);
    assert_eq!(f.update(num(1500)).to_i32(), 1441);
    assert_eq!(f.update(num(1500)).to_i32(), 1465);
    assert_eq!(f.update(num(1500)).to_i32(), 1480);
}

#[test]
fn filter_matches_i16f16_arithmetic() {
    // The same filter computed with the I16F16 type of the `fixed` crate.
    let tau = I16F16::from_num(core::f64::consts::TAU);
    let corr = I16F16::from_num(1.553773974f32);
    assert_eq!(tau.to_bits() as i64, TAU_BITS);
    assert_eq!(corr.to_bits() as i64, CUTOFF_CORRECTION_PT2_BITS);
    let fc = I16F16::from_num(5) * corr;
    let omega = tau * fc / I16F16::from_num(50);
    let k = omega / (omega + I16F16::from_num(1));
    let mut s1 = I16F16::from_num(988);
    let mut s = s1;
    let mut f = Pt2Filter::with_initial_state(num(5), num(50), num(988));
    for _ in 0..20 {
        s1 += k * (I16F16::from_num(1500) - s1);
        s += k * (s1 - s);
        assert_eq!(f.update(num(1500)).to_bits(), s.to_bits() as i64);
    }
}

#[test]
fn pt2_gain_exact_value() {
    assert_eq!(pt2_filter_gain(num(5), num(50)).to_bits(), 32374);
    // omega = tau * 5 / 50 in raw bits: 411775 * 5 / 50 = 41177 (rounded down),
    // then 41177 * 65536 / (41177 + 65536) = 25288.
    assert_eq!(pt1_filter_gain(num(5), num(50)).to_bits(), 25288);
}

#[test]
fn pt2_gain_in_unit_interval() {
    for fs in [25u64, 50, 100, 150, 250] {
        let k = pt2_filter_gain(num(5), num(fs)).to_bits();
        assert!(k >= 0 && k < ONE_BITS);
    }
}

#[test]
fn pt2_new_rests_at_zero() {
    let mut f = Pt2Filter::new(num(5), num(50));
    assert_eq!(f.state().to_bits(), 0);
    assert_eq!(f.update(num(0)).to_bits(), 0);
}

#[test]
fn pt2_reset_restores_initial_state() {
    let mut f = Pt2Filter::with_initial_state(num(5), num(50), num(1500));
    f.update(num(2000));
    f.update(num(2000));
    assert!(f.state().to_bits() > 1500 * ONE_BITS);
    f.reset();
    assert_eq!(f.state().to_bits(), 1500 * ONE_BITS);
    // Both stages are back: a constant input at the initial state keeps it.
    assert_eq!(f.update(num(1500)).to_bits(), 1500 * ONE_BITS);
}

#[test]
fn pt2_rest_is_fixed_point() {
    let mut f = Pt2Filter::with_initial_state(num(5), num(100), num(1234));
    for _ in 0..10 {
        assert_eq!(f.update(num(1234)).to_bits(), 1234 * ONE_BITS);
    }
}

#[test]
fn pt2_never_overshoots() {
    let mut f = Pt2Filter::with_initial_state(num(5), num(50), num(988));
    let mut prev = f.state().to_bits();
    for _ in 0..200 {
        let s = f.update(num(2012)).to_bits();
        assert!(s >= prev && s <= 2012 * ONE_BITS);
        prev = s;
    }
    for _ in 0..200 {
        let s = f.update(num(988)).to_bits();
        assert!(s <= prev && s >= 988 * ONE_BITS);
        prev = s;
    }
}

#[test]
fn pt2_update_gain_keeps_state() {
    let mut f = Pt2Filter::with_initial_state(num(5), num(50), num(1000));
    f.update(num(1500));
    let s = f.state().to_bits();
    f.update_gain(num(5), num(100));
    assert_eq!(f.state().to_bits(), s);
    let mut g = Pt2Filter::with_initial_state(num(5), num(100), num(1000));
    // A lower gain moves more slowly.
    let a = g.update(num(1500)).to_bits();
    let mut h = Pt2Filter::with_initial_state(num(5), num(50), num(1000));
    let b = h.update(num(1500)).to_bits();
    assert!(a < b);
}

#[test]
fn fixed_mul_rounds_down() {
    let a = Real::from_bits(-3 * ONE_BITS / 2);
    let b = Real::from_bits(1);
    // -1.5 * 2^-16 = -1.5 LSB, rounded down to -2 LSB.
    assert_eq!(a.mul(b).to_bits(), -2);
    let x = I48F16::from_bits(-3 * ONE_BITS / 2) * I48F16::from_bits(1);
    assert_eq!(x.to_bits(), -2);
    assert_eq!(num(3).mul(num(7)).to_bits(), 21 * ONE_BITS);
}

#[test]
fn fixed_div_rounds_toward_zero() {
    let one = Real::from_bits(1);
    let three = num(3);
    // (1 LSB) / 3 rounds to zero; -(1 LSB)/3 too.
    assert_eq!(one.div(three).to_bits(), 0);
    assert_eq!(Real::from_bits(-1).div(three).to_bits(), 0);
    assert_eq!(num(7).div(num(2)).to_bits(), 7 * ONE_BITS / 2);
    assert_eq!(Real::from_bits(-ONE_BITS).div(three).to_bits(), -21845);
}

#[test]
fn fixed_conversions() {
    assert_eq!(num(1500).to_bits(), 1500 * ONE_BITS);
    assert_eq!(Real::from_bits(-1).to_i32(), -1);
    assert_eq!(Real::from_bits(1500 * ONE_BITS + ONE_BITS - 1).to_i32(), 1500);
    assert_eq!(Real::one().to_bits(), ONE_BITS);
    assert_eq!(Real::zero().to_bits(), 0);
    assert_eq!(Real::tau().to_bits(), TAU_BITS);
}

#[test]
fn fixed_abs_signum_compare() {
    let m = Real::from_bits(-5);
    assert_eq!(m.abs().to_bits(), 5);
    assert_eq!(m.signum().to_bits(), -ONE_BITS);
    assert_eq!(num(2).signum().to_bits(), ONE_BITS);
    assert_eq!(Real::zero().signum().to_bits(), 0);
    assert!(m.lt(Real::zero()));
    assert!(m.le(m));
    assert!(m.eq(Real::from_bits(-5)));
    assert_eq!(num(2).add(num(3)).to_bits(), 5 * ONE_BITS);
    assert_eq!(num(2).sub(num(3)).to_bits(), -ONE_BITS);
}

#[test]
fn gain_grows_with_cutoff_and_falls_with_sample_rate() {
    let mut prev = 0;
    for fc in 0..=50u64 {
        let k = pt1_filter_gain(num(fc), num(50)).to_bits();
        assert!(k >= prev);
        prev = k;
    }
    let mut prev = ONE_BITS;
    for fs in 25..=250u64 {
        let k = pt2_filter_gain(num(5), num(fs)).to_bits();
        assert!(k <= prev);
        prev = k;
    }
}
