//! Servo pulse widths: the mapping from CRSF channel values, external PWM
//! inputs that can override a channel, and the PWM outputs.

use vstd::prelude::*;

verus! {

/// Number of PWM output channels.
pub const NUM_PWM_CHANNELS: usize = 8;

/// Number of external PWM inputs; they can override the first channels.
pub const NUM_EXT_PWM_INPUTS: usize = 2;

/// Shortest servo pulse, in microseconds.
pub const PWM_MIN_VALUE: u16 = 988;

/// Longest servo pulse, in microseconds.
pub const PWM_MAX_VALUE: u16 = 2012;

/// Centre servo pulse, in microseconds.
pub const PWM_MID_VALUE: u16 = 1500;

/// Smallest value of a CRSF RC channel.
pub const CHANNEL_VALUE_MIN: u16 = 172;

/// Largest value of a CRSF RC channel.
pub const CHANNEL_VALUE_MAX: u16 = 1811;

/// `(PWM_MAX_VALUE - PWM_MIN_VALUE) · 10^6 / (CHANNEL_VALUE_MAX - CHANNEL_VALUE_MIN)`,
/// the pulse width per channel step in millionths of a microsecond.
pub const RC_TO_PWM_SCALE_FACTOR: u32 = 624771;

/// Pulse width of channel value zero, in microseconds.
pub const RC_TO_PWM_OFFSET: u16 = 881;

/// Lower end of the band of external pulses that count as "centred" and
/// so do not override the channel.
pub const EXT_PWM_MIN_CENTRAL_VALUE: u16 = 1490;

/// Upper end of that band.
pub const EXT_PWM_MAX_CENTRAL_VALUE: u16 = 1510;

/// How long an external pulse stays valid, in microseconds.
pub const EXT_PWM_SIGNAL_TIMEOUT_MICROS: u64 = 50_000;

/// The scale factor is the quotient that its documentation gives.
pub proof fn lemma_scale_factor_value()
    ensures
        RC_TO_PWM_SCALE_FACTOR == (PWM_MAX_VALUE - PWM_MIN_VALUE) * 1_000_000 / (
        CHANNEL_VALUE_MAX - CHANNEL_VALUE_MIN),
{
    vstd::arithmetic::div_mod::lemma_fundamental_div_mod_converse(1024000000, 1639, 624771, 331);
}

/// The pulse width for an RC channel value, in microseconds.
pub open spec fn rc_to_pwm(rc_value: int) -> int {
    (RC_TO_PWM_SCALE_FACTOR * rc_value) / 1_000_000 + RC_TO_PWM_OFFSET
}

/// Channel values for which the mapping does not overflow its `u32` product.
pub open spec fn rc_value_mappable(rc_value: int) -> bool {
    RC_TO_PWM_SCALE_FACTOR * rc_value <= u32::MAX
}

/// Maps a CRSF channel value to a servo pulse width in microseconds:
/// 172 to 988, 992 to 1500 and 1811 to 2012.
pub fn map_rc_channel_to_pwm(rc_value: u16) -> (pwm: u16)
    requires
        rc_value_mappable(rc_value as int),
    ensures
        pwm == rc_to_pwm(rc_value as int),
{
    let product: u32 = RC_TO_PWM_SCALE_FACTOR * (rc_value as u32);
    let scaled: u32 = product / 1_000_000;
    assert(scaled <= 4294);
    (scaled as u16) + RC_TO_PWM_OFFSET
}

/// The mapping never decreases.
pub proof fn lemma_rc_to_pwm_monotonic(a: int, b: int)
    requires
        0 <= a <= b,
    ensures
        rc_to_pwm(a) <= rc_to_pwm(b),
{
    assert(RC_TO_PWM_SCALE_FACTOR * a <= RC_TO_PWM_SCALE_FACTOR * b) by (nonlinear_arith)
        requires
            0 <= a <= b,
    ;
    vstd::arithmetic::div_mod::lemma_div_is_ordered(
        RC_TO_PWM_SCALE_FACTOR * a,
        RC_TO_PWM_SCALE_FACTOR * b,
        1_000_000,
    );
}

/// Whether a pulse width lies in the servo range.
pub open spec fn in_pwm_range(pwm: int) -> bool {
    PWM_MIN_VALUE <= pwm <= PWM_MAX_VALUE
}

/// Whether an external reading `(pulse, received_at)` overrides its
/// channel at time `now`: it is recent and not in the centre band.
pub open spec fn ext_active(reading: (u16, u64), now: u64) -> bool {
    &&& now - reading.1 < EXT_PWM_SIGNAL_TIMEOUT_MICROS
    &&& !(EXT_PWM_MIN_CENTRAL_VALUE <= reading.0 <= EXT_PWM_MAX_CENTRAL_VALUE)
}

/// Whether an optional reading overrides its channel.
pub open spec fn ext_reading_active(reading: Option<(u16, u64)>, now: u64) -> bool {
    match reading {
        Some(r) => ext_active(r, now),
        None => false,
    }
}

/// The channel value: the external pulse where it overrides, else `fallback`.
pub open spec fn resolve_spec(reading: Option<(u16, u64)>, fallback: u16, now: u64) -> u16 {
    match reading {
        Some(r) => if ext_active(r, now) { r.0 } else { fallback },
        None => fallback,
    }
}

/// Whether the reading was taken no later than `now`.
pub open spec fn reading_not_after(reading: Option<(u16, u64)>, now: u64) -> bool {
    match reading {
        Some(r) => r.1 <= now,
        None => true,
    }
}

/// Whether an external reading taken at `reading.1` overrides its channel
/// at time `now` (microseconds).
pub fn is_ext_pwm_active(reading: &(u16, u64), now: u64) -> (b: bool)
    requires
        reading.1 <= now,
    ensures
        b == ext_active(*reading, now),
{
    let (v, t) = *reading;
    now - t < EXT_PWM_SIGNAL_TIMEOUT_MICROS && !(EXT_PWM_MIN_CENTRAL_VALUE <= v && v
        <= EXT_PWM_MAX_CENTRAL_VALUE)
}

/// The external pulse if it overrides the channel at `now`, else `fallback`.
pub fn resolve_ext_pwm(reading: &Option<(u16, u64)>, fallback: u16, now: u64) -> (v: u16)
    requires
        reading_not_after(*reading, now),
    ensures
        v == resolve_spec(*reading, fallback, now),
{
    match reading {
        Some(r) => if is_ext_pwm_active(r, now) { r.0 } else { fallback },
        None => fallback,
    }
}

/// Pulse width in microseconds from the count that the PIO program leaves:
/// the program counts down from `u32::MAX` while the pin is high; the
/// difference is kept in 16 bits.
pub open spec fn pulse_width_spec(raw: u32) -> int {
    (u32::MAX - raw) % 65536
}

pub fn pulse_width_from_raw(raw: u32) -> (w: u16)
    ensures
        w == pulse_width_spec(raw),
{
    let diff: u32 = 0xFFFF_FFFFu32 - raw;
    assert((diff as u16) == diff % 65536) by (bit_vector);
    diff as u16
}

/// The most recent pulse after draining a FIFO: the last raw count drained
/// at `now`, or the previous pulse when nothing was drained.
pub fn latest_pulse(previous: Option<(u16, u64)>, drained: &Vec<u32>, now: u64) -> (r: Option<(u16, u64)>)
    ensures
        drained.len() == 0 ==> r == previous,
        drained.len() > 0 ==> r == Some((pulse_width_spec(drained@.last()) as u16, now)),
{
    let mut last = previous;
    let mut i: usize = 0;
    while i < drained.len()
        invariant
            i <= drained.len(),
            i == 0 ==> last == previous,
            i > 0 ==> last == Some((pulse_width_spec(drained@[i - 1]) as u16, now)),
        decreases drained.len() - i,
    {
        last = Some((pulse_width_from_raw(drained[i]), now));
        i = i + 1;
    }
    last
}

/// Whether the PWM outputs should wait before taking new duty cycles: the
/// counter of the first slice is still inside the longest pulse, and
/// changing now could give a double pulse.
pub fn needs_sync_delay(counter: u16) -> (b: bool)
    ensures
        b == (counter < PWM_MAX_VALUE),
{
    counter < PWM_MAX_VALUE
}

/// The duty cycles of PWM slice `slice`: its output A drives channel
/// `2·slice` and its output B channel `2·slice + 1`.
pub fn slice_duty_values(values: &Vec<u16>, slice: usize) -> (d: (u16, u16))
    requires
        values.len() == NUM_PWM_CHANNELS,
        slice < NUM_PWM_CHANNELS / 2,
    ensures
        d == (values@[2 * slice as int], values@[2 * slice as int + 1]),
{
    (values[2 * slice], values[2 * slice + 1])
}

/// The mapping takes the lowest CRSF channel value to the shortest pulse,
/// the centre value to the centre pulse and the highest value to the longest
/// pulse, and every channel value between them into the servo range.
pub proof fn lemma_rc_to_pwm_range(x: int)
    ensures
        rc_to_pwm(172) == 988,
        rc_to_pwm(992) == 1500,
        rc_to_pwm(1811) == 2012,
        172 <= x <= 1811 ==> 988 <= rc_to_pwm(x) <= 2012,
{
    vstd::arithmetic::div_mod::lemma_fundamental_div_mod_converse(624771int * 172, 1000000, 107, 460612);
    vstd::arithmetic::div_mod::lemma_fundamental_div_mod_converse(624771int * 992, 1000000, 619, 772832);
    vstd::arithmetic::div_mod::lemma_fundamental_div_mod_converse(624771int * 1811, 1000000, 1131, 460281);
    if 172 <= x <= 1811 {
        lemma_rc_to_pwm_monotonic(172, x);
        lemma_rc_to_pwm_monotonic(x, 1811);
    }
}

/// The pulse width is the count's distance below `u32::MAX`: a count `w`
/// steps below it gives `w` for every `w` that fits 16 bits, and every
/// result fits 16 bits.
pub proof fn lemma_pulse_width_inverts_count(w: int, raw: u32)
    requires
        0 <= w < 65536,
    ensures
        pulse_width_spec((u32::MAX - w) as u32) == w,
        0 <= pulse_width_spec(raw) < 65536,
{
}

/// A reading overrides its channel exactly when it is less than 50 ms old
/// and outside the centre band 1490..=1510; then the channel takes its
/// pulse, else the fallback.
pub proof fn lemma_resolve_written_out(reading: Option<(u16, u64)>, fallback: u16, now: u64)
    ensures
        resolve_spec(reading, fallback, now) == match reading {
            Some(r) => if now - r.1 < 50_000 && !(1490 <= r.0 <= 1510) { r.0 } else { fallback },
            None => fallback,
        },
        ext_reading_active(reading, now) == match reading {
            Some(r) => now - r.1 < 50_000 && !(1490 <= r.0 <= 1510),
            None => false,
        },
{
}

} // verus!
