//! The status LED: the colour and blinking that show the link state and
//! external PWM activity, and the gamma and brightness correction of the
//! colour sent to the WS2812.

use crate::control::Status;
use smart_leds::RGB8;
use vstd::prelude::*;

verus! {

/// A colour, 8 bits per channel.
#[derive(Clone, Copy, Debug, PartialEq, Eq)]
pub struct Rgb {
    pub r: u8,
    pub g: u8,
    pub b: u8,
}

/// Brightness the LED is driven at, out of 255.
pub const LED_BRIGHTNESS: u8 = 64;

/// Time the colour shows in one cycle when the LED blinks, in milliseconds.
pub const BLINK_ON_MILLIS: u64 = 250;

/// Time the LED is dark in one cycle when it blinks, in milliseconds.
pub const BLINK_OFF_MILLIS: u64 = 250;

/// Time one cycle lasts when the LED does not blink, in milliseconds.
pub const STEADY_MILLIS: u64 = 500;

pub open spec fn black() -> Rgb {
    Rgb { r: 0x00, g: 0x00, b: 0x00 }
}

pub open spec fn red() -> Rgb {
    Rgb { r: 0xFF, g: 0x00, b: 0x00 }
}

pub open spec fn green() -> Rgb {
    Rgb { r: 0x00, g: 0x80, b: 0x00 }
}

pub open spec fn blue() -> Rgb {
    Rgb { r: 0x00, g: 0x00, b: 0xFF }
}

/// The colour of a link state: green when connected, red when the link is
/// lost, blue before any state is known.
pub open spec fn status_color(status: Option<Status>) -> Rgb {
    match status {
        Some(Status::Connected) => green(),
        Some(Status::RxLoss) => red(),
        None => blue(),
    }
}

/// One cycle of the LED: the colours it shows, each with how long it
/// shows, in milliseconds. Blinking alternates the colour with dark.
pub open spec fn led_cycle_spec(status: Option<Status>, ext_pwm_active: Option<bool>) -> Seq<(Rgb, u64)> {
    if ext_pwm_active == Some(true) {
        seq![(status_color(status), BLINK_ON_MILLIS), (black(), BLINK_OFF_MILLIS)]
    } else {
        seq![(status_color(status), STEADY_MILLIS)]
    }
}

/// One cycle of the status LED for the last link state and the last
/// "external PWM active" state received (`None` where none was yet).
pub fn led_cycle(status: Option<Status>, ext_pwm_active: Option<bool>) -> (c: Vec<(Rgb, u64)>)
    ensures
        c@ == led_cycle_spec(status, ext_pwm_active),
{
    let color = match status {
        Some(Status::Connected) => Rgb { r: 0x00, g: 0x80, b: 0x00 },
        Some(Status::RxLoss) => Rgb { r: 0xFF, g: 0x00, b: 0x00 },
        None => Rgb { r: 0x00, g: 0x00, b: 0xFF },
    };
    let is_blinking = match ext_pwm_active {
        Some(b) => b,
        None => false,
    };
    let mut cycle: Vec<(Rgb, u64)> = Vec::new();
    if is_blinking {
        cycle.push((color, BLINK_ON_MILLIS));
        cycle.push((Rgb { r: 0x00, g: 0x00, b: 0x00 }, BLINK_OFF_MILLIS));
    } else {
        cycle.push((color, STEADY_MILLIS));
    }
    assert(cycle@ =~= led_cycle_spec(status, ext_pwm_active));
    cycle
}

/// Every LED cycle lasts half a second, blinking or not.
pub proof fn lemma_led_cycle_length(status: Option<Status>, ext_pwm_active: Option<bool>)
    ensures
        ({
            let c = led_cycle_spec(status, ext_pwm_active);
            c.len() == 1 && c[0].1 == 500 || c.len() == 2 && c[0].1 + c[1].1 == 500
        }),
{
}

/// The gamma-corrected level that `smart_leds::gamma` gives a channel
/// level (its lookup table).
pub uninterp spec fn gamma_level(v: u8) -> u8;

/// `smart_leds::gamma` on a single colour: each channel is looked up in
/// the crate's gamma table, where level zero stays zero.
#[verifier::external_body]
fn gamma_corrected(c: Rgb) -> (g: Rgb)
    ensures
        g == (Rgb { r: gamma_level(c.r), g: gamma_level(c.g), b: gamma_level(c.b) }),
        c.r == 0 ==> g.r == 0,
        c.g == 0 ==> g.g == 0,
        c.b == 0 ==> g.b == 0,
{
    let out = smart_leds::gamma([RGB8 { r: c.r, g: c.g, b: c.b }].into_iter()).next().unwrap();
    Rgb { r: out.r, g: out.g, b: out.b }
}

/// A channel level scaled by `brightness`, as `smart_leds::brightness` does.
pub open spec fn dimmed_level(v: u8, brightness: u8) -> int {
    v * (brightness + 1) / 256
}

/// `smart_leds::brightness` on a single colour: each channel becomes
/// `level · (brightness + 1) / 256`.
#[verifier::external_body]
fn brightness_scaled(c: Rgb, brightness: u8) -> (d: Rgb)
    ensures
        d.r == dimmed_level(c.r, brightness),
        d.g == dimmed_level(c.g, brightness),
        d.b == dimmed_level(c.b, brightness),
{
    let out = smart_leds::brightness([RGB8 { r: c.r, g: c.g, b: c.b }].into_iter(), brightness).next().unwrap();
    Rgb { r: out.r, g: out.g, b: out.b }
}

/// A colour scaled to `brightness` out of 255.
pub fn dim(c: Rgb, brightness: u8) -> (d: Rgb)
    ensures
        d.r == dimmed_level(c.r, brightness),
        d.g == dimmed_level(c.g, brightness),
        d.b == dimmed_level(c.b, brightness),
{
    brightness_scaled(c, brightness)
}

/// The colour to send to the LED for `color`: gamma-corrected first, then
/// scaled to the LED brightness.
pub fn led_output(color: Rgb) -> (out: Rgb)
    ensures
        out.r == dimmed_level(gamma_level(color.r), LED_BRIGHTNESS),
        out.g == dimmed_level(gamma_level(color.g), LED_BRIGHTNESS),
        out.b == dimmed_level(gamma_level(color.b), LED_BRIGHTNESS),
        color == black() ==> out == black(),
{
    dim(gamma_corrected(color), LED_BRIGHTNESS)
}

/// Every LED cycle starts with the colour of the link state, blinking or
/// not: green `(0, 0x80, 0)` when connected, red `(0xFF, 0, 0)` when the
/// link is lost, blue `(0, 0, 0xFF)` before any state. While external PWM
/// is active the colour shows for 250 ms and the LED is then dark
/// `(0, 0, 0)` for 250 ms; otherwise the colour shows for 500 ms.
pub proof fn lemma_led_cycle_colour(status: Option<Status>, ext_pwm_active: Option<bool>)
    ensures
        ({
            let c = led_cycle_spec(status, ext_pwm_active);
            &&& c.len() >= 1
            &&& c[0].0 == match status {
                Some(Status::Connected) => Rgb { r: 0x00, g: 0x80, b: 0x00 },
                Some(Status::RxLoss) => Rgb { r: 0xFF, g: 0x00, b: 0x00 },
                None => Rgb { r: 0x00, g: 0x00, b: 0xFF },
            }
            &&& ext_pwm_active == Some(true) ==> c.len() == 2 && c[0].1 == 250 && c[1] == (
            Rgb { r: 0x00, g: 0x00, b: 0x00 },
            250u64,
            )
            &&& ext_pwm_active != Some(true) ==> c.len() == 1 && c[0].1 == 500
        }),
{
}

} // verus!
