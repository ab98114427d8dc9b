use crsf2pwm::clock::{Clock, Duration, FakeClock};

#[test]
fn fake_clock_starts_at_zero() {
    let clock = FakeClock::new();
    let mark = clock.now();
    assert_eq!(clock.duration_since(mark).as_millis(), 0);
}

#[test]
fn fake_clock_advances() {
    let mut clock = FakeClock::new();
    let start = clock.now();
    clock.advance_millis(250);
    let mid = clock.now();
    clock.advance_millis(750);
    assert_eq!(clock.duration_since(start).as_millis(), 1000);
    assert_eq!(clock.duration_since(mid).as_millis(), 750);
    clock.advance_millis(0);
    assert_eq!(clock.duration_since(clock.now()).as_millis(), 0);
}
