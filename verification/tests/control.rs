use crsf2pwm::control::{failsafe_value, PwmController, RcPacket, Status};

fn packet(channel: u16, timestamp: u64) -> RcPacket {
    RcPacket { channels: [channel; 16], timestamp }
}

const NO_EXT: [Option<(u16, u64)>; 2] = [None, None];

#[test]
fn controller_starts_in_failsafe() {
    let c = PwmController::new();
    assert_eq!(c.values(), vec![1500, 1500, 988, 988, 988, 988, 988, 988]);
    assert!(c.is_rx_loss());
    assert_eq!(c.filter_sample_freq(), 50);
    assert_eq!(failsafe_value(0), 1500);
    assert_eq!(failsafe_value(7), 988);
}

#[test]
fn first_packet_reports_connected_once() {
    let mut c = PwmController::new();
    let p = Some(packet(992, 1000));
    assert!(c.can_step(&p, &NO_EXT, 1000));
    let out = c.step(p, NO_EXT, 1000);
    assert_eq!(out.crsf_status, Some(Status::Connected));
    assert_eq!(out.ext_pwm_status, None);
    // Centre stick on channels that rest at the minimum: the filter moves up.
    assert_eq!(out.values[0], 1500);
    assert!(out.values[2] > 988 && out.values[2] < 1500);
    let out2 = c.step(Some(packet(992, 21_000)), NO_EXT, 21_000);
    assert_eq!(out2.crsf_status, None);
    assert!(out2.values[2] > out.values[2]);
}

#[test]
fn out_of_range_channel_is_ignored() {
    let mut c = PwmController::new();
    // 0 maps to 881 us, outside the servo range: the channel keeps its value.
    let out = c.step(Some(packet(0, 10)), NO_EXT, 10);
    assert_eq!(out.values, vec![1500, 1500, 988, 988, 988, 988, 988, 988]);
    assert_eq!(out.crsf_status, Some(Status::Connected));
}

#[test]
fn rx_loss_after_timeout_gives_failsafe() {
    let mut c = PwmController::new();
    c.step(Some(packet(1811, 0)), NO_EXT, 0);
    for k in 1..30u64 {
        c.step(Some(packet(1811, k * 20_000)), NO_EXT, k * 20_000);
    }
    let before = c.values();
    assert!(before[3] > 1900);
    // 50 ms without a packet: still connected, channels hold.
    let out = c.step(None, NO_EXT, 29 * 20_000 + 50_000);
    assert_eq!(out.crsf_status, None);
    assert_eq!(out.values[3], before[3]);
    // 100 ms: the link is lost.
    let out = c.step(None, NO_EXT, 29 * 20_000 + 100_000);
    assert_eq!(out.crsf_status, Some(Status::RxLoss));
    assert_eq!(out.values, vec![1500, 1500, 988, 988, 988, 988, 988, 988]);
    assert!(c.is_rx_loss());
    let out = c.step(None, NO_EXT, 29 * 20_000 + 120_000);
    assert_eq!(out.crsf_status, None);
    // The next packet reconnects, with the filters back at failsafe.
    let out = c.step(Some(packet(172, 1_000_000)), NO_EXT, 1_000_000);
    assert_eq!(out.crsf_status, Some(Status::Connected));
    assert_eq!(out.values[3], 988);
}

#[test]
fn external_pwm_overrides_first_channels() {
    let mut c = PwmController::new();
    let ext = [Some((1900u16, 5u64)), Some((1500u16, 5u64))];
    let out = c.step(Some(packet(992, 10)), ext, 10);
    assert_eq!(out.ext_pwm_status, Some(true));
    assert_eq!(out.values[0], 1900);
    // A centred external pulse does not override.
    assert_eq!(out.values[1], 1500);
    let out = c.step(None, ext, 20_000);
    assert_eq!(out.ext_pwm_status, None);
    assert_eq!(out.values[0], 1900);
    // Stale external pulses stop overriding.
    let out = c.step(None, ext, 60_000);
    assert_eq!(out.ext_pwm_status, Some(false));
    assert_eq!(out.values[0], 1500);
}

#[test]
fn external_pwm_holds_during_rx_loss() {
    let mut c = PwmController::new();
    let ext = [None, Some((1000u16, 0u64))];
    // The loop starts with the link lost, so no report is due.
    let out = c.step(None, ext, 10);
    assert_eq!(out.crsf_status, None);
    assert_eq!(out.values[1], 1000);
    assert_eq!(out.values[0], 1500);
}

#[test]
fn packet_rate_sets_sample_frequency() {
    let mut c = PwmController::new();
    // Packets every 10 ms (100 Hz) for a little over a second.
    let mut t = 0u64;
    for _ in 0..=101 {
        let p = Some(packet(992, t));
        assert!(c.can_step(&p, &NO_EXT, t));
        c.step(p, NO_EXT, t);
        t += 10_000;
    }
    assert_eq!(c.filter_sample_freq(), 100);
}

#[test]
fn unmeasurable_rates_are_refused() {
    let mut c = PwmController::new();
    // Packets every 100 ms give 10 Hz, below the accepted range.
    let mut t = 0u64;
    for _ in 0..15 {
        c.step(Some(packet(992, t)), NO_EXT, t);
        t += 90_000;
    }
    assert_eq!(c.filter_sample_freq(), 50);
}

#[test]
fn can_step_refuses_panicking_inputs() {
    let c = PwmController::new();
    assert!(!c.can_step(&Some(packet(7000, 0)), &NO_EXT, 0));
    assert!(!c.can_step(&None, &[Some((1000, 10)), None], 5));
    assert!(c.can_step(&Some(packet(2047, 0)), &NO_EXT, 0));
}

#[test]
fn packet_rate_is_measured_after_each_window() {
    let mut c = PwmController::new();
    let mut t = 0u64;
    for _ in 0..=101 {
        c.step(Some(packet(992, t)), NO_EXT, t);
        t += 10_000;
    }
    assert_eq!(c.filter_sample_freq(), 100);
    // The window ended at the last packet, at t - 10_000. Then 28 packet
    // intervals in exactly one second: 28 Hz, rounded to 30 Hz.
    let start = t - 10_000;
    for k in 1..=28u64 {
        let ts = start + k * 1_000_000 / 28;
        c.step(Some(packet(992, ts)), NO_EXT, ts);
    }
    assert_eq!(c.filter_sample_freq(), 30);
}

#[test]
fn first_channels_in_range_unless_overridden() {
    let mut c = PwmController::new();
    let ext = [Some((2200u16, 0u64)), None];
    let out = c.step(Some(packet(1811, 0)), ext, 0);
    assert_eq!(out.values[0], 2200);
    assert!(out.values[1] >= 988 && out.values[1] <= 2012);
    let out = c.step(Some(packet(1811, 60_000)), ext, 60_000);
    assert!(out.values[0] >= 988 && out.values[0] <= 2012);
}
