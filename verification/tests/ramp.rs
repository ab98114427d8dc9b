use crsf2pwm::fixed_point::{Real, ONE_BITS};
use crsf2pwm::ramp::{LinearRamp, LinearRampConfig};

fn as_f64(r: Real) -> f64 {
    r.to_bits() as f64 / ONE_BITS as f64
}

fn close(r: Real, expected: f64) -> bool {
    (as_f64(r) - expected).abs() <= 1.0 / ONE_BITS as f64
}

fn config() -> LinearRampConfig {
    LinearRampConfig {
        span: Real::from_u64(1024),
        ramp_up_millis: 1000,
        ramp_down_millis: 1000,
        first_interval_millis: 20,
    }
}

// The values that a floating-point ramp gives, which the fixed-point ramp
// meets to within one unit in the last place.
#[test]
fn test_linear_ramp() {
    let mut ramp = LinearRamp::new(config(), Real::zero());
    let t512 = Real::from_u64(512);
    let t1024 = Real::from_u64(1024);
    assert!(close(ramp.update(t512, 100), 20.48));
    assert!(close(ramp.update(t512, 100), 20.48));
    assert!(close(ramp.update(t512, 120), 40.96));
    assert!(close(ramp.update(t512, 200), 122.88));
    assert!(close(ramp.update(t1024, 1000), 942.08));
    assert!(close(ramp.update(t1024, 1100), 1024.0));
    assert!(close(ramp.update(t512, 1100), 1024.0));
    assert!(close(ramp.update(t512, 1120), 1003.52));
}

#[test]
fn linear_ramp_exact_bits() {
    let mut ramp = LinearRamp::new(config(), Real::zero());
    // 1024 * 20 / 1000 = 20.48, in raw bits rounded towards zero.
    assert_eq!(ramp.update(Real::from_u64(512), 100).to_bits(), 1342177);
    assert_eq!(ramp.value().to_bits(), 1342177);
}

#[test]
fn linear_ramp_at_target_keeps_update_time() {
    let mut ramp = LinearRamp::new(config(), Real::from_u64(100));
    // At the target nothing changes, not even the time of the last update:
    // the next move still uses the first interval.
    assert_eq!(ramp.update(Real::from_u64(100), 5000).to_bits(), 100 * ONE_BITS);
    assert_eq!(ramp.update(Real::from_u64(200), 5000).to_bits(), 100 * ONE_BITS + 1342177);
}

#[test]
fn linear_ramp_separate_down_rate() {
    let cfg = LinearRampConfig {
        span: Real::from_u64(1000),
        ramp_up_millis: 1000,
        ramp_down_millis: 100,
        first_interval_millis: 10,
    };
    let mut ramp = LinearRamp::new(cfg, Real::from_u64(500));
    // Down: 1000 * 10 / 100 = 100.
    assert_eq!(ramp.update(Real::from_u64(0), 0).to_bits(), 400 * ONE_BITS);
    // Up: 1000 * 10 / 1000 = 10.
    assert_eq!(ramp.update(Real::from_u64(1000), 10).to_bits(), 410 * ONE_BITS);
    // Clock going back counts as no time.
    assert_eq!(ramp.update(Real::from_u64(1000), 5).to_bits(), 410 * ONE_BITS);
}

#[test]
fn linear_ramp_never_overshoots() {
    let mut ramp = LinearRamp::new(config(), Real::zero());
    let target = Real::from_u64(300);
    let mut t = 0;
    let mut prev = 0;
    for _ in 0..100 {
        t += 37;
        let v = ramp.update(target, t).to_bits();
        assert!(v >= prev && v <= 300 * ONE_BITS);
        prev = v;
    }
    assert_eq!(prev, 300 * ONE_BITS);
}
