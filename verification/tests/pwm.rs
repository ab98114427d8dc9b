use crsf2pwm::pwm::{
    is_ext_pwm_active, latest_pulse, map_rc_channel_to_pwm, needs_sync_delay, pulse_width_from_raw,
    resolve_ext_pwm, slice_duty_values, CHANNEL_VALUE_MAX, CHANNEL_VALUE_MIN, PWM_MAX_VALUE,
    PWM_MID_VALUE, PWM_MIN_VALUE, RC_TO_PWM_SCALE_FACTOR,
};

#[test]
fn rc_channel_endpoints_map_to_servo_range() {
    assert_eq!(map_rc_channel_to_pwm(172), 988);
    assert_eq!(map_rc_channel_to_pwm(992), 1500);
    assert_eq!(map_rc_channel_to_pwm(1811), 2012);
    assert_eq!(map_rc_channel_to_pwm(0), 881);
    assert_eq!(map_rc_channel_to_pwm(2047), 2159);
}

#[test]
fn rc_channel_mapping_is_monotonic() {
    let mut prev = map_rc_channel_to_pwm(0);
    for v in 1..=2047u16 {
        let p = map_rc_channel_to_pwm(v);
        assert!(p >= prev);
        prev = p;
    }
}

#[test]
fn channel_limits_match_crsf() {
    assert_eq!(CHANNEL_VALUE_MIN, crsf::RcChannels::CHANNEL_VALUE_MIN);
    assert_eq!(CHANNEL_VALUE_MAX, crsf::RcChannels::CHANNEL_VALUE_MAX);
    let expected = (PWM_MAX_VALUE - PWM_MIN_VALUE) as u32 * 1_000_000
        / (CHANNEL_VALUE_MAX as u32 - CHANNEL_VALUE_MIN as u32);
    assert_eq!(RC_TO_PWM_SCALE_FACTOR, expected);
    assert_eq!(PWM_MID_VALUE, 1500);
}

#[test]
fn ext_pwm_active_outside_centre_and_recent() {
    assert!(is_ext_pwm_active(&(1800, 1_000), 1_000));
    assert!(is_ext_pwm_active(&(1489, 0), 49_999));
    assert!(!is_ext_pwm_active(&(1489, 0), 50_000));
    assert!(!is_ext_pwm_active(&(1490, 0), 0));
    assert!(!is_ext_pwm_active(&(1500, 0), 0));
    assert!(!is_ext_pwm_active(&(1510, 0), 0));
    assert!(is_ext_pwm_active(&(1511, 0), 0));
}

#[test]
fn ext_pwm_resolves_to_fallback() {
    assert_eq!(resolve_ext_pwm(&None, 1234, 10), 1234);
    assert_eq!(resolve_ext_pwm(&Some((1900, 5)), 1234, 10), 1900);
    assert_eq!(resolve_ext_pwm(&Some((1500, 5)), 1234, 10), 1234);
    assert_eq!(resolve_ext_pwm(&Some((1900, 5)), 1234, 60_000), 1234);
}

#[test]
fn pulse_width_from_count() {
    assert_eq!(pulse_width_from_raw(u32::MAX - 1500), 1500);
    assert_eq!(pulse_width_from_raw(u32::MAX), 0);
    assert_eq!(pulse_width_from_raw(u32::MAX - 70_000), 4464);
}

#[test]
fn latest_pulse_keeps_last_drained() {
    assert_eq!(latest_pulse(Some((1000, 7)), &vec![], 99), Some((1000, 7)));
    assert_eq!(latest_pulse(None, &vec![], 99), None);
    let drained = vec![u32::MAX - 1100, u32::MAX - 1200];
    assert_eq!(latest_pulse(Some((1000, 7)), &drained, 99), Some((1200, 99)));
}

#[test]
fn sync_delay_inside_longest_pulse() {
    assert!(needs_sync_delay(0));
    assert!(needs_sync_delay(2011));
    assert!(!needs_sync_delay(2012));
    assert!(!needs_sync_delay(19_999));
}

#[test]
fn each_slice_drives_two_channels() {
    let values: Vec<u16> = (0..8).map(|i| 1000 + i).collect();
    assert_eq!(slice_duty_values(&values, 0), (1000, 1001));
    assert_eq!(slice_duty_values(&values, 1), (1002, 1003));
    assert_eq!(slice_duty_values(&values, 3), (1006, 1007));
}
