use crsf2pwm::control::Status;
use crsf2pwm::led::{dim, led_cycle, led_output, Rgb, LED_BRIGHTNESS};
use smart_leds::{brightness, colors, gamma, RGB8};

fn rgb(c: RGB8) -> Rgb {
    Rgb { r: c.r, g: c.g, b: c.b }
}

#[test]
fn led_colours_follow_link_state() {
    assert_eq!(led_cycle(Some(Status::Connected), None), vec![(rgb(colors::GREEN), 500)]);
    assert_eq!(led_cycle(Some(Status::RxLoss), Some(false)), vec![(rgb(colors::RED), 500)]);
    assert_eq!(led_cycle(None, None), vec![(rgb(colors::BLUE), 500)]);
}

#[test]
fn led_blinks_with_external_pwm() {
    assert_eq!(
        led_cycle(Some(Status::Connected), Some(true)),
        vec![(rgb(colors::GREEN), 250), (rgb(colors::BLACK), 250)]
    );
}

#[test]
fn led_output_matches_smart_leds() {
    for c in [colors::GREEN, colors::RED, colors::BLUE, colors::BLACK, colors::WHITE] {
        let expected = brightness(gamma([c].iter().cloned()), LED_BRIGHTNESS).next().unwrap();
        assert_eq!(led_output(rgb(c)), rgb(expected));
    }
    // Full red: gamma keeps 255, and 255 * 65 / 256 = 64.
    assert_eq!(led_output(rgb(colors::RED)), Rgb { r: 64, g: 0, b: 0 });
    assert_eq!(led_output(rgb(colors::BLACK)), rgb(colors::BLACK));
}

#[test]
fn dim_scales_levels() {
    assert_eq!(dim(Rgb { r: 255, g: 128, b: 1 }, 63), Rgb { r: 63, g: 32, b: 0 });
    assert_eq!(dim(Rgb { r: 255, g: 128, b: 1 }, 255), Rgb { r: 255, g: 128, b: 1 });
}
