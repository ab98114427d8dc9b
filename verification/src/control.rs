//! The decisions of the PWM control loop: each turn of the loop hands in
//! what happened (an RC packet or a timeout, the external PWM readings and
//! the time) and takes back the status messages to send and the pulse
//! widths to output.

use crate::fixed_point::{lemma_real_fits, Real};
use crate::pt2::{
    lemma_pt2_gain_bounds, lemma_update_in_bounds, pt2_gain_defined, pt2_gain_spec, update_spec,
    Pt2Filter, Pt2View,
};
use crate::pwm::{
    ext_reading_active, in_pwm_range, is_ext_pwm_active, map_rc_channel_to_pwm, reading_not_after,
    rc_to_pwm, rc_value_mappable, resolve_ext_pwm, resolve_spec, NUM_EXT_PWM_INPUTS, NUM_PWM_CHANNELS,
    PWM_MAX_VALUE,
    PWM_MID_VALUE, PWM_MIN_VALUE,
};
use vstd::prelude::*;

verus! {

broadcast use lemma_real_fits;

/// Time without RC packets after which the link counts as lost, in microseconds.
pub const RX_LOSS_TIMEOUT_MICROS: u64 = 100_000;

/// Shortest time over which the packet rate is measured, in microseconds.
pub const FREQ_MEASUREMENT_MIN_MICROS: u64 = 1_000_000;

/// Lowest packet rate accepted as the filters' sample rate, in Hz.
pub const FILTER_SAMPLE_MIN_FREQ: u16 = 25;

/// Highest packet rate accepted as the filters' sample rate, in Hz.
pub const FILTER_SAMPLE_MAX_FREQ: u16 = 250;

/// Sample rate assumed until the packet rate is measured, in Hz.
pub const FILTER_SAMPLE_DEFAULT_FREQ: u16 = 50;

/// Cutoff frequency of the channel filters, in Hz.
pub const FILTER_CUT_FREQ: u16 = 5;

/// State of the CRSF link.
#[derive(Clone, Copy, Debug, PartialEq, Eq)]
pub enum Status {
    Connected,
    RxLoss,
}

/// Pulse width of channel `i` while the link is lost: centred for the
/// first two channels, shortest for the others.
pub open spec fn failsafe(i: int) -> u16 {
    if i < 2 { PWM_MID_VALUE } else { PWM_MIN_VALUE }
}

/// The failsafe pulse width of channel `i`.
pub fn failsafe_value(i: usize) -> (v: u16)
    requires
        i < NUM_PWM_CHANNELS,
    ensures
        v == failsafe(i as int),
{
    if i < 2 { PWM_MID_VALUE } else { PWM_MIN_VALUE }
}

/// The pulse width that a filter state gives: its integer part, clamped
/// to the servo range.
pub open spec fn filter_output(state: int) -> u16 {
    let v = state / 65536;
    if v < PWM_MIN_VALUE {
        PWM_MIN_VALUE
    } else if v > PWM_MAX_VALUE {
        PWM_MAX_VALUE
    } else {
        v as u16
    }
}

/// An RC channels packet: the channel values and when the packet came, in
/// microseconds.
#[derive(Clone, Copy)]
pub struct RcPacket {
    pub channels: [u16; 16],
    pub timestamp: u64,
}

/// What one turn of the loop asks to be done.
pub struct ControlOutput {
    /// A new link state to report.
    pub crsf_status: Option<Status>,
    /// A new "external PWM active" state to report.
    pub ext_pwm_status: Option<bool>,
    /// The pulse width of each channel, in microseconds.
    pub values: Vec<u16>,
}

/// The state of the control loop.
pub struct ControllerView {
    pub is_rx_loss: bool,
    pub is_ext_pwm: bool,
    pub filter_sample_freq: u16,
    pub filters: Seq<Pt2View>,
    pub freq_measurement_start_at: Option<u64>,
    pub freq_measurement_received_packets: u32,
    pub last_crsf_at: Option<u64>,
    pub values: Seq<u16>,
}

/// The external reading of channel `i`; only the first channels have one.
pub open spec fn ext_for(ext: [Option<(u16, u64)>; 2], i: int) -> Option<(u16, u64)> {
    if 0 <= i < 2 { ext@[i] } else { None }
}

/// Whether any external input overrides its channel.
pub open spec fn any_ext_active(ext: [Option<(u16, u64)>; 2], now: u64) -> bool {
    ext_reading_active(ext@[0], now) || ext_reading_active(ext@[1], now)
}

/// Raw fixed-point bits of the integer `v`.
pub open spec fn bits_of(v: int) -> int {
    v * 65536
}

/// The filter stage gain at sample rate `freq` Hz.
pub open spec fn gain_at(freq: int) -> int {
    pt2_gain_spec(bits_of(FILTER_CUT_FREQ as int), bits_of(freq))
}

/// The pulse width that channel value `ch` asks for.
pub open spec fn channel_pwm(ch: u16) -> int {
    rc_to_pwm(ch as int)
}

/// The filters after feeding each channel whose mapped pulse lies in the
/// servo range.
pub open spec fn filters_fed(filters: Seq<Pt2View>, channels: [u16; 16]) -> Seq<Pt2View> {
    Seq::new(
        8,
        |i: int|
            if in_pwm_range(channel_pwm(channels@[i])) {
                update_spec(filters[i], bits_of(channel_pwm(channels@[i])))
            } else {
                filters[i]
            },
    )
}

/// The channel values after a packet: the filtered pulse (or the external
/// override) for each channel whose mapped pulse lies in the servo range.
pub open spec fn values_fed(
    values: Seq<u16>,
    fed: Seq<Pt2View>,
    channels: [u16; 16],
    ext: [Option<(u16, u64)>; 2],
    now: u64,
) -> Seq<u16> {
    Seq::new(
        8,
        |i: int|
            if in_pwm_range(channel_pwm(channels@[i])) {
                resolve_spec(ext_for(ext, i), filter_output(fed[i].state), now)
            } else {
                values[i]
            },
    )
}

/// The filters with their gain set for sample rate `freq`.
pub open spec fn filters_with_gain(filters: Seq<Pt2View>, freq: int) -> Seq<Pt2View> {
    Seq::new(
        filters.len(),
        |i: int| Pt2View { gain: gain_at(freq), ..filters[i] },
    )
}

/// The filters returned to their initial states.
pub open spec fn filters_reset(filters: Seq<Pt2View>) -> Seq<Pt2View> {
    Seq::new(
        filters.len(),
        |i: int| Pt2View { state: filters[i].initial, state1: filters[i].initial, ..filters[i] },
    )
}

/// The packet rate, in Hz rounded to a multiple of 5, from `packets - 1`
/// intervals over `elapsed` microseconds (kept in 16 bits). `packets`
/// counts the packet that started the measurement too: after a measurement
/// the next one starts at its last packet, with a count of one.
pub open spec fn measured_freq(elapsed: int, packets: int) -> u16 {
    let interval = elapsed / (packets - 1);
    ((1_000_000int / interval + 2) / 5 * 5) as u16
}

/// Whether a measured rate replaces the current sample rate.
pub open spec fn freq_accepted(f: u16, current: u16) -> bool {
    FILTER_SAMPLE_MIN_FREQ <= f <= FILTER_SAMPLE_MAX_FREQ && f != current
}

/// The state after the external readings are looked at.
pub open spec fn observe_ext_spec(v: ControllerView, ext: [Option<(u16, u64)>; 2], now: u64) -> ControllerView {
    ControllerView { is_ext_pwm: any_ext_active(ext, now), ..v }
}

/// The "external PWM active" report of a turn: sent when the state changes.
pub open spec fn ext_status_spec(v: ControllerView, ext: [Option<(u16, u64)>; 2], now: u64) -> Option<bool> {
    if any_ext_active(ext, now) != v.is_ext_pwm { Some(any_ext_active(ext, now)) } else { None }
}

/// The state after an RC packet.
pub open spec fn packet_spec(
    v: ControllerView,
    p: RcPacket,
    ext: [Option<(u16, u64)>; 2],
    now: u64,
) -> ControllerView {
    let fed = filters_fed(v.filters, p.channels);
    let values = values_fed(v.values, fed, p.channels, ext, now);
    let packets = v.freq_measurement_received_packets + 1;
    let base = ControllerView {
        is_rx_loss: false,
        filters: fed,
        values: values,
        last_crsf_at: Some(p.timestamp),
        ..v
    };
    match v.freq_measurement_start_at {
        None => ControllerView {
            freq_measurement_start_at: Some(p.timestamp),
            freq_measurement_received_packets: packets as u32,
            ..base
        },
        Some(start) => {
            let elapsed = now - start;
            if packets > 3 && elapsed >= FREQ_MEASUREMENT_MIN_MICROS {
                let f = measured_freq(elapsed, packets);
                if freq_accepted(f, v.filter_sample_freq) {
                    ControllerView {
                        filter_sample_freq: f,
                        filters: filters_with_gain(fed, f as int),
                        freq_measurement_start_at: Some(p.timestamp),
                        freq_measurement_received_packets: 1,
                        ..base
                    }
                } else {
                    ControllerView {
                        freq_measurement_start_at: Some(p.timestamp),
                        freq_measurement_received_packets: 1,
                        ..base
                    }
                }
            } else {
                ControllerView { freq_measurement_received_packets: packets as u32, ..base }
            }
        },
    }
}

/// Whether the link counts as lost at `now` after a timeout.
pub open spec fn rx_loss_now(v: ControllerView, now: u64) -> bool {
    match v.last_crsf_at {
        None => true,
        Some(t) => now - t >= RX_LOSS_TIMEOUT_MICROS,
    }
}

/// The state after a turn without a packet.
pub open spec fn timeout_spec(v: ControllerView, ext: [Option<(u16, u64)>; 2], now: u64) -> ControllerView {
    if rx_loss_now(v, now) {
        let values = Seq::new(8, |i: int| resolve_spec(ext_for(ext, i), failsafe(i), now));
        if !v.is_rx_loss {
            ControllerView {
                values: values,
                freq_measurement_start_at: None,
                freq_measurement_received_packets: 0,
                is_rx_loss: true,
                filters: filters_reset(v.filters),
                ..v
            }
        } else {
            ControllerView { values: values, ..v }
        }
    } else {
        ControllerView {
            values: Seq::new(
                8,
                |i: int|
                    if i < 2 {
                        resolve_spec(ext_for(ext, i), filter_output(v.filters[i].state), now)
                    } else {
                        v.values[i]
                    },
            ),
            ..v
        }
    }
}

/// The link report of a turn: `Connected` on the first packet after a
/// loss, `RxLoss` when a loss is first seen.
pub open spec fn crsf_status_spec(v: ControllerView, packet: Option<RcPacket>, now: u64) -> Option<Status> {
    match packet {
        Some(_) => if v.is_rx_loss { Some(Status::Connected) } else { None },
        None => if rx_loss_now(v, now) && !v.is_rx_loss { Some(Status::RxLoss) } else { None },
    }
}

/// The state after a whole turn.
pub open spec fn step_spec(
    v: ControllerView,
    packet: Option<RcPacket>,
    ext: [Option<(u16, u64)>; 2],
    now: u64,
) -> ControllerView {
    let w = observe_ext_spec(v, ext, now);
    match packet {
        Some(p) => packet_spec(w, p, ext, now),
        None => timeout_spec(w, ext, now),
    }
}

/// Whether every channel of the packet maps without overflow.
pub open spec fn channels_mappable(p: RcPacket) -> bool {
    forall|i: int| 0 <= i < 8 ==> rc_value_mappable(#[trigger] p.channels@[i] as int)
}

/// A turn with packet `p` computes without a panic: the channels map
/// without overflow, the packet count does not overflow, the rate
/// measurement started no later than `now` and does not divide by zero.
pub open spec fn packet_defined(v: ControllerView, p: RcPacket, now: u64) -> bool {
    &&& channels_mappable(p)
    &&& v.freq_measurement_received_packets < u32::MAX
    &&& match v.freq_measurement_start_at {
        Some(start) => {
            &&& start <= now
            &&& (v.freq_measurement_received_packets + 1 > 3 && now - start
                >= FREQ_MEASUREMENT_MIN_MICROS) ==> now - start
                >= v.freq_measurement_received_packets
        },
        None => true,
    }
}

/// A turn without a packet computes without a panic: the last packet came
/// no later than `now`.
pub open spec fn timeout_defined(v: ControllerView, now: u64) -> bool {
    match v.last_crsf_at {
        Some(t) => t <= now,
        None => true,
    }
}

/// A turn computes without a panic: every time it measures from lies no
/// later than `now`, the channels map without overflow, the packet count
/// does not overflow, and a rate measurement does not divide by zero.
pub open spec fn step_defined(
    v: ControllerView,
    packet: Option<RcPacket>,
    ext: [Option<(u16, u64)>; 2],
    now: u64,
) -> bool {
    &&& reading_not_after(ext@[0], now)
    &&& reading_not_after(ext@[1], now)
    &&& match packet {
        Some(p) => packet_defined(v, p, now),
        None => timeout_defined(v, now),
    }
}

/// The invariant of the control loop: one filter per channel, each at the
/// gain of the current sample rate, with both stages in the servo range
/// and resting, after a reset, at the channel's failsafe; the sample rate
/// in its accepted range; and every channel without an external input in
/// the servo range.
pub open spec fn controller_wf(v: ControllerView) -> bool {
    &&& v.filters.len() == 8
    &&& v.values.len() == 8
    &&& FILTER_SAMPLE_MIN_FREQ <= v.filter_sample_freq <= FILTER_SAMPLE_MAX_FREQ
    &&& forall|i: int|
        0 <= i < 8 ==> {
            let f = #[trigger] v.filters[i];
            &&& f.gain == gain_at(v.filter_sample_freq as int)
            &&& bits_of(PWM_MIN_VALUE as int) <= f.state <= bits_of(PWM_MAX_VALUE as int)
            &&& bits_of(PWM_MIN_VALUE as int) <= f.state1 <= bits_of(PWM_MAX_VALUE as int)
            &&& f.initial == bits_of(failsafe(i) as int)
        }
    &&& forall|i: int| 2 <= i < 8 ==> in_pwm_range(#[trigger] v.values[i] as int)
}

/// The gain of every accepted sample rate is defined and lies in `[0, 1)`.
pub proof fn lemma_gain_at_bounds(freq: int)
    requires
        FILTER_SAMPLE_MIN_FREQ <= freq <= FILTER_SAMPLE_MAX_FREQ,
    ensures
        pt2_gain_defined(bits_of(FILTER_CUT_FREQ as int), bits_of(freq)),
        0 <= gain_at(freq) < 65536,
{
    lemma_pt2_gain_bounds(bits_of(FILTER_CUT_FREQ as int), bits_of(freq));
}

/// The control loop.
pub struct PwmController {
    is_rx_loss: bool,
    is_ext_pwm: bool,
    filter_sample_freq: u16,
    filtered_pwm_values: Vec<Pt2Filter>,
    freq_measurement_start_at: Option<u64>,
    freq_measurement_received_packets: u32,
    last_crsf_at: Option<u64>,
    values: Vec<u16>,
}

impl View for PwmController {
    type V = ControllerView;

    closed spec fn view(&self) -> ControllerView {
        ControllerView {
            is_rx_loss: self.is_rx_loss,
            is_ext_pwm: self.is_ext_pwm,
            filter_sample_freq: self.filter_sample_freq,
            filters: self.filtered_pwm_values@.map_values(|f: Pt2Filter| f@),
            freq_measurement_start_at: self.freq_measurement_start_at,
            freq_measurement_received_packets: self.freq_measurement_received_packets,
            last_crsf_at: self.last_crsf_at,
            values: self.values@,
        }
    }
}

/// The state of the loop before its first turn: link lost, no external
/// input, default sample rate, every channel at its failsafe.
pub open spec fn initial_spec() -> ControllerView {
    ControllerView {
        is_rx_loss: true,
        is_ext_pwm: false,
        filter_sample_freq: FILTER_SAMPLE_DEFAULT_FREQ,
        filters: Seq::new(
            8,
            |i: int|
                Pt2View {
                    state: bits_of(failsafe(i) as int),
                    state1: bits_of(failsafe(i) as int),
                    gain: gain_at(FILTER_SAMPLE_DEFAULT_FREQ as int),
                    initial: bits_of(failsafe(i) as int),
                },
        ),
        freq_measurement_start_at: None,
        freq_measurement_received_packets: 0,
        last_crsf_at: None,
        values: Seq::new(8, |i: int| failsafe(i)),
    }
}

/// The integer part of a filter output clamped to the servo range.
fn clamp_to_pwm(v: i32) -> (r: u16)
    ensures
        r == (if v < PWM_MIN_VALUE {
            PWM_MIN_VALUE
        } else if v > PWM_MAX_VALUE {
            PWM_MAX_VALUE
        } else {
            v as u16
        }),
{
    if v < PWM_MIN_VALUE as i32 {
        PWM_MIN_VALUE
    } else if v > PWM_MAX_VALUE as i32 {
        PWM_MAX_VALUE
    } else {
        v as u16
    }
}

/// The external reading of channel `i`.
fn ext_reading(ext: &[Option<(u16, u64)>; 2], i: usize) -> (r: Option<(u16, u64)>)
    ensures
        r == ext_for(*ext, i as int),
{
    if i < 2 { ext[i] } else { None }
}

impl PwmController {
    /// The loop before its first turn.
    pub fn new() -> (c: PwmController)
        ensures
            c@ == initial_spec(),
            controller_wf(c@),
    {
        let mut filters: Vec<Pt2Filter> = Vec::new();
        let mut values: Vec<u16> = Vec::new();
        proof {
            lemma_gain_at_bounds(FILTER_SAMPLE_DEFAULT_FREQ as int);
        }
        let mut i: usize = 0;
        while i < NUM_PWM_CHANNELS
            invariant
                i <= 8,
                filters.len() == i,
                values.len() == i,
                pt2_gain_defined(bits_of(FILTER_CUT_FREQ as int), bits_of(FILTER_SAMPLE_DEFAULT_FREQ as int)),
                forall|j: int| 0 <= j < i ==> #[trigger] filters@[j]@ == initial_spec().filters[j],
                forall|j: int| 0 <= j < i ==> #[trigger] values@[j] == failsafe(j),
            decreases 8 - i,
        {
            let v = failsafe_value(i);
            let f = Pt2Filter::with_initial_state(
                Real::from_u64(FILTER_CUT_FREQ as u64),
                Real::from_u64(FILTER_SAMPLE_DEFAULT_FREQ as u64),
                Real::from_u64(v as u64),
            );
            filters.push(f);
            values.push(v);
            i = i + 1;
        }
        let c = PwmController {
            is_rx_loss: true,
            is_ext_pwm: false,
            filter_sample_freq: FILTER_SAMPLE_DEFAULT_FREQ,
            filtered_pwm_values: filters,
            freq_measurement_start_at: None,
            freq_measurement_received_packets: 0,
            last_crsf_at: None,
            values,
        };
        assert(c@.filters =~= initial_spec().filters);
        assert(c@.values =~= initial_spec().values);
        c
    }

    /// The pulse width of each channel, in microseconds.
    pub fn values(&self) -> (v: Vec<u16>)
        ensures
            v@ == self@.values,
    {
        self.values.clone()
    }

    /// Whether the link is currently lost.
    pub fn is_rx_loss(&self) -> (b: bool)
        ensures
            b == self@.is_rx_loss,
    {
        self.is_rx_loss
    }

    /// The sample rate the filters are set for, in Hz.
    pub fn filter_sample_freq(&self) -> (f: u16)
        ensures
            f == self@.filter_sample_freq,
    {
        self.filter_sample_freq
    }

    fn observe_ext(&mut self, ext: &[Option<(u16, u64)>; 2], now: u64) -> (r: Option<bool>)
        requires
            reading_not_after(ext@[0], now),
            reading_not_after(ext@[1], now),
        ensures
            final(self)@ == observe_ext_spec(old(self)@, *ext, now),
            r == ext_status_spec(old(self)@, *ext, now),
    {
        let a0 = match &ext[0] {
            Some(r) => is_ext_pwm_active(r, now),
            None => false,
        };
        let a1 = match &ext[1] {
            Some(r) => is_ext_pwm_active(r, now),
            None => false,
        };
        let active = a0 || a1;
        if active != self.is_ext_pwm {
            self.is_ext_pwm = active;
            Some(active)
        } else {
            None
        }
    }

    /// Feeds the channels of a packet through the filters.
    fn feed_channels(&mut self, p: &RcPacket, ext: &[Option<(u16, u64)>; 2], now: u64)
        requires
            controller_wf(old(self)@),
            reading_not_after(ext@[0], now),
            reading_not_after(ext@[1], now),
            channels_mappable(*p),
        ensures
            final(self)@ == (ControllerView {
                filters: filters_fed(old(self)@.filters, p.channels),
                values: values_fed(
                    old(self)@.values,
                    filters_fed(old(self)@.filters, p.channels),
                    p.channels,
                    *ext,
                    now,
                ),
                ..old(self)@
            }),
    {
        let ghost old_v = self@;
        let ghost fed = filters_fed(old_v.filters, p.channels);
        let ghost vals = values_fed(old_v.values, fed, p.channels, *ext, now);
        proof {
            lemma_gain_at_bounds(old_v.filter_sample_freq as int);
        }
        let mut i: usize = 0;
        while i < NUM_PWM_CHANNELS
            invariant
                i <= 8,
                old_v == old(self)@,
                controller_wf(old_v),
                0 <= gain_at(old_v.filter_sample_freq as int) < 65536,
                fed == filters_fed(old_v.filters, p.channels),
                vals == values_fed(old_v.values, fed, p.channels, *ext, now),
                reading_not_after(ext@[0], now),
                reading_not_after(ext@[1], now),
                forall|j: int| 0 <= j < 8 ==> rc_value_mappable(#[trigger] p.channels@[j] as int),
                self.filtered_pwm_values@.len() == 8,
                self.values@.len() == 8,
                self.is_rx_loss == old_v.is_rx_loss,
                self.is_ext_pwm == old_v.is_ext_pwm,
                self.filter_sample_freq == old_v.filter_sample_freq,
                self.freq_measurement_start_at == old_v.freq_measurement_start_at,
                self.freq_measurement_received_packets == old_v.freq_measurement_received_packets,
                self.last_crsf_at == old_v.last_crsf_at,
                forall|j: int| 0 <= j < i ==> #[trigger] self.filtered_pwm_values@[j]@ == fed[j],
                forall|j: int| 0 <= j < i ==> #[trigger] self.values@[j] == vals[j],
                forall|j: int| i <= j < 8 ==> #[trigger] self.filtered_pwm_values@[j]@ == old_v.filters[j],
                forall|j: int| i <= j < 8 ==> #[trigger] self.values@[j] == old_v.values[j],
            decreases 8 - i,
        {
            let crsf_pwm = map_rc_channel_to_pwm(p.channels[i]);
            if PWM_MIN_VALUE <= crsf_pwm && crsf_pwm <= PWM_MAX_VALUE {
                let mut f = self.filtered_pwm_values[i];
                proof {
                    assert(f@ == old_v.filters[i as int]);
                    lemma_update_in_bounds(
                        f@,
                        bits_of(crsf_pwm as int),
                        bits_of(PWM_MIN_VALUE as int),
                        bits_of(PWM_MAX_VALUE as int),
                    );
                }
                let out = f.update(Real::from_u64(crsf_pwm as u64));
                proof {
                    vstd::arithmetic::div_mod::lemma_div_is_ordered(
                        bits_of(PWM_MIN_VALUE as int),
                        out@,
                        65536,
                    );
                    vstd::arithmetic::div_mod::lemma_div_is_ordered(
                        out@,
                        bits_of(PWM_MAX_VALUE as int),
                        65536,
                    );
                }
                self.filtered_pwm_values.set(i, f);
                let filtered = clamp_to_pwm(out.to_i32());
                let reading = ext_reading(ext, i);
                let v = resolve_ext_pwm(&reading, filtered, now);
                self.values.set(i, v);
                assert(fed[i as int] == f@);
                assert(vals[i as int] == v);
            } else {
                assert(fed[i as int] == old_v.filters[i as int]);
                assert(vals[i as int] == old_v.values[i as int]);
            }
            i = i + 1;
        }
        assert(self@.filters =~= fed);
        assert(self@.values =~= vals);
    }

    /// Sets every filter's gain for sample rate `freq`.
    fn set_gains(&mut self, freq: u16)
        requires
            old(self).filtered_pwm_values@.len() == 8,
            FILTER_SAMPLE_MIN_FREQ <= freq <= FILTER_SAMPLE_MAX_FREQ,
        ensures
            final(self)@ == (ControllerView {
                filters: filters_with_gain(old(self)@.filters, freq as int),
                ..old(self)@
            }),
    {
        let ghost old_v = self@;
        proof {
            lemma_gain_at_bounds(freq as int);
        }
        let mut i: usize = 0;
        while i < NUM_PWM_CHANNELS
            invariant
                i <= 8,
                old_v == old(self)@,
                old_v.filters.len() == 8,
                pt2_gain_defined(bits_of(FILTER_CUT_FREQ as int), bits_of(freq as int)),
                self.filtered_pwm_values@.len() == 8,
                self.values == old(self).values,
                self.is_rx_loss == old_v.is_rx_loss,
                self.is_ext_pwm == old_v.is_ext_pwm,
                self.filter_sample_freq == old_v.filter_sample_freq,
                self.freq_measurement_start_at == old_v.freq_measurement_start_at,
                self.freq_measurement_received_packets == old_v.freq_measurement_received_packets,
                self.last_crsf_at == old_v.last_crsf_at,
                forall|j: int|
                    0 <= j < i ==> #[trigger] self.filtered_pwm_values@[j]@ == filters_with_gain(
                        old_v.filters,
                        freq as int,
                    )[j],
                forall|j: int| i <= j < 8 ==> #[trigger] self.filtered_pwm_values@[j]@ == old_v.filters[j],
            decreases 8 - i,
        {
            let mut f = self.filtered_pwm_values[i];
            f.update_gain(Real::from_u64(FILTER_CUT_FREQ as u64), Real::from_u64(freq as u64));
            self.filtered_pwm_values.set(i, f);
            i = i + 1;
        }
        assert(self@.filters =~= filters_with_gain(old_v.filters, freq as int));
    }

    /// Returns every filter to its initial state.
    fn reset_filters(&mut self)
        requires
            old(self).filtered_pwm_values@.len() == 8,
        ensures
            final(self)@ == (ControllerView { filters: filters_reset(old(self)@.filters), ..old(self)@ }),
    {
        let ghost old_v = self@;
        let mut i: usize = 0;
        while i < NUM_PWM_CHANNELS
            invariant
                i <= 8,
                old_v == old(self)@,
                old_v.filters.len() == 8,
                self.filtered_pwm_values@.len() == 8,
                self.values == old(self).values,
                self.is_rx_loss == old_v.is_rx_loss,
                self.is_ext_pwm == old_v.is_ext_pwm,
                self.filter_sample_freq == old_v.filter_sample_freq,
                self.freq_measurement_start_at == old_v.freq_measurement_start_at,
                self.freq_measurement_received_packets == old_v.freq_measurement_received_packets,
                self.last_crsf_at == old_v.last_crsf_at,
                forall|j: int|
                    0 <= j < i ==> #[trigger] self.filtered_pwm_values@[j]@ == filters_reset(
                        old_v.filters,
                    )[j],
                forall|j: int| i <= j < 8 ==> #[trigger] self.filtered_pwm_values@[j]@ == old_v.filters[j],
            decreases 8 - i,
        {
            let mut f = self.filtered_pwm_values[i];
            f.reset();
            self.filtered_pwm_values.set(i, f);
            i = i + 1;
        }
        assert(self@.filters =~= filters_reset(old_v.filters));
    }

    /// A turn with an RC packet.
    fn on_packet(&mut self, p: &RcPacket, ext: &[Option<(u16, u64)>; 2], now: u64) -> (status: Option<Status>)
        requires
            controller_wf(old(self)@),
            reading_not_after(ext@[0], now),
            reading_not_after(ext@[1], now),
            packet_defined(old(self)@, *p, now),
        ensures
            final(self)@ == packet_spec(old(self)@, *p, *ext, now),
            status == crsf_status_spec(old(self)@, Some(*p), now),
    {
        let ghost old_v = self@;
        self.feed_channels(p, ext, now);
        self.last_crsf_at = Some(p.timestamp);
        let packets = self.freq_measurement_received_packets + 1;
        self.freq_measurement_received_packets = packets;
        match self.freq_measurement_start_at {
            Some(start) => {
                let elapsed = now - start;
                if packets > 3 && elapsed >= FREQ_MEASUREMENT_MIN_MICROS {
                    let avg_packet_interval = elapsed / ((packets - 1) as u64);
                    proof {
                        vstd::arithmetic::div_mod::lemma_div_is_ordered(
                            (packets - 1) as int,
                            elapsed as int,
                            (packets - 1) as int,
                        );
                        vstd::arithmetic::div_mod::lemma_div_by_self((packets - 1) as int);
                    }
                    let rounded: u64 = (1_000_000 / avg_packet_interval + 2) / 5 * 5;
                    let avg_packet_freq = (#[verifier::truncate] (rounded as u16));
                    assert(avg_packet_freq == measured_freq(elapsed as int, packets as int));
                    if FILTER_SAMPLE_MIN_FREQ <= avg_packet_freq && avg_packet_freq
                        <= FILTER_SAMPLE_MAX_FREQ && avg_packet_freq != self.filter_sample_freq {
                        self.filter_sample_freq = avg_packet_freq;
                        self.set_gains(avg_packet_freq);
                    }
                    self.freq_measurement_start_at = Some(p.timestamp);
                    self.freq_measurement_received_packets = 1;
                }
            },
            None => {
                self.freq_measurement_start_at = Some(p.timestamp);
            },
        }
        let status = if self.is_rx_loss {
            self.is_rx_loss = false;
            Some(Status::Connected)
        } else {
            None
        };
        proof {
            let want = packet_spec(old_v, *p, *ext, now);
            assert(self@.filters =~= want.filters);
            assert(self@.values =~= want.values);
        }
        status
    }

    /// A turn without a packet.
    fn on_timeout(&mut self, ext: &[Option<(u16, u64)>; 2], now: u64) -> (status: Option<Status>)
        requires
            controller_wf(old(self)@),
            reading_not_after(ext@[0], now),
            reading_not_after(ext@[1], now),
            timeout_defined(old(self)@, now),
        ensures
            final(self)@ == timeout_spec(old(self)@, *ext, now),
            status == crsf_status_spec(old(self)@, None, now),
    {
        let ghost old_v = self@;
        let rx_loss_now = match self.last_crsf_at {
            None => true,
            Some(t) => now - t >= RX_LOSS_TIMEOUT_MICROS,
        };
        if rx_loss_now {
            let ghost want = Seq::new(8, |j: int| resolve_spec(ext_for(*ext, j), failsafe(j), now));
            let mut i: usize = 0;
            while i < NUM_PWM_CHANNELS
                invariant
                    i <= 8,
                    self.values@.len() == 8,
                    self.filtered_pwm_values == old(self).filtered_pwm_values,
                    self.is_rx_loss == old_v.is_rx_loss,
                    self.is_ext_pwm == old_v.is_ext_pwm,
                    self.filter_sample_freq == old_v.filter_sample_freq,
                    self.freq_measurement_start_at == old_v.freq_measurement_start_at,
                    self.freq_measurement_received_packets == old_v.freq_measurement_received_packets,
                    self.last_crsf_at == old_v.last_crsf_at,
                    old_v == old(self)@,
                    reading_not_after(ext@[0], now),
                    reading_not_after(ext@[1], now),
                    want == Seq::new(8, |j: int| resolve_spec(ext_for(*ext, j), failsafe(j), now)),
                    forall|j: int| 0 <= j < i ==> #[trigger] self.values@[j] == want[j],
                decreases 8 - i,
            {
                let reading = ext_reading(ext, i);
                let v = resolve_ext_pwm(&reading, failsafe_value(i), now);
                self.values.set(i, v);
                i = i + 1;
            }
            assert(self.values@ =~= want);
            if !self.is_rx_loss {
                self.freq_measurement_start_at = None;
                self.freq_measurement_received_packets = 0;
                self.is_rx_loss = true;
                self.reset_filters();
                Some(Status::RxLoss)
            } else {
                None
            }
        } else {
            let ghost want = Seq::new(
                8,
                |j: int|
                    if j < 2 {
                        resolve_spec(ext_for(*ext, j), filter_output(old_v.filters[j].state), now)
                    } else {
                        old_v.values[j]
                    },
            );
            let mut i: usize = 0;
            while i < NUM_EXT_PWM_INPUTS
                invariant
                    i <= 2,
                    controller_wf(old_v),
                    self.values@.len() == 8,
                    self.filtered_pwm_values == old(self).filtered_pwm_values,
                    self.is_rx_loss == old_v.is_rx_loss,
                    self.is_ext_pwm == old_v.is_ext_pwm,
                    self.filter_sample_freq == old_v.filter_sample_freq,
                    self.freq_measurement_start_at == old_v.freq_measurement_start_at,
                    self.freq_measurement_received_packets == old_v.freq_measurement_received_packets,
                    self.last_crsf_at == old_v.last_crsf_at,
                    old_v == old(self)@,
                    reading_not_after(ext@[0], now),
                    reading_not_after(ext@[1], now),
                    want == Seq::new(
                        8,
                        |j: int|
                            if j < 2 {
                                resolve_spec(ext_for(*ext, j), filter_output(old_v.filters[j].state), now)
                            } else {
                                old_v.values[j]
                            },
                    ),
                    forall|j: int| 0 <= j < i ==> #[trigger] self.values@[j] == want[j],
                    forall|j: int| i <= j < 8 ==> #[trigger] self.values@[j] == old_v.values[j],
                decreases 2 - i,
            {
                let state = self.filtered_pwm_values[i].state();
                proof {
                    assert(self.filtered_pwm_values@[i as int]@ == old_v.filters[i as int]);
                    vstd::arithmetic::div_mod::lemma_div_is_ordered(
                        bits_of(PWM_MIN_VALUE as int),
                        state@,
                        65536,
                    );
                    vstd::arithmetic::div_mod::lemma_div_is_ordered(
                        state@,
                        bits_of(PWM_MAX_VALUE as int),
                        65536,
                    );
                }
                let last_filtered = clamp_to_pwm(state.to_i32());
                let reading = ext_reading(ext, i);
                let v = resolve_ext_pwm(&reading, last_filtered, now);
                self.values.set(i, v);
                i = i + 1;
            }
            assert(self.values@ =~= want);
            None
        }
    }

    /// One turn of the control loop: `packet` is the RC packet that came in
    /// (or `None` after a poll interval without one), `ext` the latest pulse
    /// of each external input with the time it came, and `now` the present
    /// time, all times in microseconds. Returns the reports to send and the
    /// pulse widths to output.
    pub fn step(&mut self, packet: Option<RcPacket>, ext: [Option<(u16, u64)>; 2], now: u64) -> (out: ControlOutput)
        requires
            controller_wf(old(self)@),
            step_defined(old(self)@, packet, ext, now),
        ensures
            controller_wf(final(self)@),
            final(self)@ == step_spec(old(self)@, packet, ext, now),
            out.ext_pwm_status == ext_status_spec(old(self)@, ext, now),
            out.crsf_status == crsf_status_spec(old(self)@, packet, now),
            out.values@ == final(self)@.values,
    {
        let ghost old_v = self@;
        let ext_pwm_status = self.observe_ext(&ext, now);
        let crsf_status = match packet {
            Some(p) => self.on_packet(&p, &ext, now),
            None => self.on_timeout(&ext, now),
        };
        proof {
            lemma_step_keeps_wf(old_v, packet, ext, now);
        }
        ControlOutput { crsf_status, ext_pwm_status, values: self.values() }
    }

    /// Whether a turn on these inputs computes without a panic; the loop
    /// tests it before each turn.
    pub fn can_step(&self, packet: &Option<RcPacket>, ext: &[Option<(u16, u64)>; 2], now: u64) -> (b: bool)
        ensures
            b == step_defined(self@, *packet, *ext, now),
    {
        let ext_ok = match ext[0] {
            Some(r) => r.1 <= now,
            None => true,
        } && match ext[1] {
            Some(r) => r.1 <= now,
            None => true,
        };
        if !ext_ok {
            return false;
        }
        match packet {
            Some(p) => {
                let mut i: usize = 0;
                while i < 8
                    invariant
                        i <= 8,
                        *packet == Some(*p),
                        reading_not_after(ext@[0], now),
                        reading_not_after(ext@[1], now),
                        forall|j: int| 0 <= j < i ==> rc_value_mappable(#[trigger] p.channels@[j] as int),
                    decreases 8 - i,
                {
                    if p.channels[i] > 6874 {
                        proof {
                            let c = p.channels@[i as int] as int;
                            assert(624771 * c > 4294967295) by (nonlinear_arith)
                                requires
                                    c > 6874,
                            ;
                            assert(!rc_value_mappable(p.channels@[i as int] as int));
                            assert(!channels_mappable(*p));
                            assert(!packet_defined(self@, *p, now));
                        }
                        return false;
                    }
                    proof {
                        let c = p.channels@[i as int] as int;
                        assert(624771 * c <= 4294967295) by (nonlinear_arith)
                            requires
                                0 <= c <= 6874,
                        ;
                    }
                    i = i + 1;
                }
                if self.freq_measurement_received_packets == u32::MAX {
                    return false;
                }
                match self.freq_measurement_start_at {
                    Some(start) => {
                        if start > now {
                            return false;
                        }
                        let n = self.freq_measurement_received_packets;
                        !(n + 1 > 3 && now - start >= FREQ_MEASUREMENT_MIN_MICROS && now - start
                            < n as u64)
                    },
                    None => true,
                }
            },
            None => match self.last_crsf_at {
                Some(t) => t <= now,
                None => true,
            },
        }
    }
}

/// Every turn keeps the invariant of the loop.
pub proof fn lemma_step_keeps_wf(
    v: ControllerView,
    packet: Option<RcPacket>,
    ext: [Option<(u16, u64)>; 2],
    now: u64,
)
    requires
        controller_wf(v),
        step_defined(v, packet, ext, now),
    ensures
        controller_wf(step_spec(v, packet, ext, now)),
{
    let w = observe_ext_spec(v, ext, now);
    assert(controller_wf(w));
    lemma_gain_at_bounds(v.filter_sample_freq as int);
    match packet {
        Some(p) => {
            let fed = filters_fed(w.filters, p.channels);
            assert forall|i: int| 0 <= i < 8 implies {
                let f = #[trigger] fed[i];
                &&& f.gain == gain_at(v.filter_sample_freq as int)
                &&& bits_of(PWM_MIN_VALUE as int) <= f.state <= bits_of(PWM_MAX_VALUE as int)
                &&& bits_of(PWM_MIN_VALUE as int) <= f.state1 <= bits_of(PWM_MAX_VALUE as int)
                &&& f.initial == bits_of(failsafe(i) as int)
            } by {
                let pwm = channel_pwm(p.channels@[i]);
                if in_pwm_range(pwm) {
                    lemma_update_in_bounds(
                        w.filters[i],
                        bits_of(pwm),
                        bits_of(PWM_MIN_VALUE as int),
                        bits_of(PWM_MAX_VALUE as int),
                    );
                }
            }
            let n = packet_spec(w, p, ext, now);
            if n.filter_sample_freq != v.filter_sample_freq {
                assert forall|i: int| 0 <= i < 8 implies (#[trigger] n.filters[i]).gain == gain_at(
                    n.filter_sample_freq as int,
                ) by {}
            }
            assert forall|i: int| 2 <= i < 8 implies in_pwm_range(#[trigger] n.values[i] as int) by {}
        },
        None => {
            let n = timeout_spec(w, ext, now);
            assert forall|i: int| 2 <= i < 8 implies in_pwm_range(#[trigger] n.values[i] as int) by {}
        },
    }
}

/// Once the link is lost (no packet for the loss timeout, or none ever),
/// every channel outputs its failsafe pulse, except a first channel whose
/// external input overrides it, which outputs the external pulse.
pub proof fn lemma_rx_loss_outputs_failsafe(v: ControllerView, ext: [Option<(u16, u64)>; 2], now: u64)
    requires
        rx_loss_now(v, now),
    ensures
        forall|i: int|
            0 <= i < 8 ==> #[trigger] step_spec(v, None, ext, now).values[i] == if ext_reading_active(
                ext_for(ext, i),
                now,
            ) {
                (ext_for(ext, i)->0).0
            } else {
                failsafe(i)
            },
        step_spec(v, None, ext, now).is_rx_loss,
{
}

/// A link report is sent exactly when the link state changes, and it names
/// the new state.
pub proof fn lemma_status_reports_changes(
    v: ControllerView,
    packet: Option<RcPacket>,
    ext: [Option<(u16, u64)>; 2],
    now: u64,
)
    ensures
        ({
            let n = step_spec(v, packet, ext, now);
            let s = crsf_status_spec(v, packet, now);
            &&& (s is Some <==> n.is_rx_loss != v.is_rx_loss)
            &&& (s == Some(Status::Connected) ==> !n.is_rx_loss)
            &&& (s == Some(Status::RxLoss) ==> n.is_rx_loss)
        }),
{
}

/// An "external PWM active" report is sent exactly when that state
/// changes, and it names the new state.
pub proof fn lemma_ext_status_reports_changes(v: ControllerView, ext: [Option<(u16, u64)>; 2], now: u64)
    ensures
        ({
            let n = observe_ext_spec(v, ext, now);
            let s = ext_status_spec(v, ext, now);
            &&& (s is Some <==> n.is_ext_pwm != v.is_ext_pwm)
            &&& (s matches Some(b) ==> b == n.is_ext_pwm)
        }),
{
}

/// A packet feeds each channel whose mapped pulse lies in the servo range
/// through that channel's filter (also when an external input overrides
/// the output) and outputs the clamped filter value, or the external pulse
/// where it overrides; every other channel keeps its filter state and value.
pub proof fn lemma_packet_feeds_channels(
    v: ControllerView,
    p: RcPacket,
    ext: [Option<(u16, u64)>; 2],
    now: u64,
)
    requires
        controller_wf(v),
    ensures
        forall|i: int|
            #![trigger step_spec(v, Some(p), ext, now).filters[i]]
            0 <= i < 8 ==> {
                let n = step_spec(v, Some(p), ext, now);
                let pwm = channel_pwm(p.channels@[i]);
                let fed = update_spec(v.filters[i], bits_of(pwm));
                if in_pwm_range(pwm) {
                    &&& n.filters[i].state == fed.state
                    &&& n.filters[i].state1 == fed.state1
                    &&& n.values[i] == resolve_spec(ext_for(ext, i), filter_output(fed.state), now)
                } else {
                    &&& n.filters[i].state == v.filters[i].state
                    &&& n.filters[i].state1 == v.filters[i].state1
                    &&& n.values[i] == v.values[i]
                }
            },
{
}

/// The loop starts with the link counted as lost, so its first link report
/// is `Connected`; while the link is lost no `RxLoss` report is sent.
pub proof fn lemma_first_report_is_connected(
    v: ControllerView,
    packet: Option<RcPacket>,
    ext: [Option<(u16, u64)>; 2],
    now: u64,
)
    requires
        v.is_rx_loss,
    ensures
        initial_spec().is_rx_loss,
        crsf_status_spec(v, packet, now) != Some(Status::RxLoss),
{
}

/// When a loss is first seen, every filter is reset and the packet-rate
/// measurement starts afresh.
pub proof fn lemma_rx_loss_resets(v: ControllerView, ext: [Option<(u16, u64)>; 2], now: u64)
    requires
        rx_loss_now(v, now),
        !v.is_rx_loss,
    ensures
        step_spec(v, None, ext, now).filters == filters_reset(v.filters),
        step_spec(v, None, ext, now).freq_measurement_start_at is None,
        step_spec(v, None, ext, now).freq_measurement_received_packets == 0,
{
}

/// Every output of a turn lies in the servo range, or is the pulse of an
/// external input that overrides its channel in this turn, or is the
/// channel's previous output (a channel left as it was). So a first channel
/// whose previous output was in the servo range outputs a value in the
/// servo range unless its external input overrides it in this turn.
pub proof fn lemma_outputs_in_range_or_ext(
    v: ControllerView,
    packet: Option<RcPacket>,
    ext: [Option<(u16, u64)>; 2],
    now: u64,
)
    requires
        controller_wf(v),
    ensures
        forall|i: int|
            #![trigger step_spec(v, packet, ext, now).values[i]]
            0 <= i < 8 ==> {
                let out = step_spec(v, packet, ext, now).values[i];
                ||| in_pwm_range(out as int)
                ||| (ext_reading_active(ext_for(ext, i), now) && out == (ext_for(ext, i)->0).0)
                ||| out == v.values[i]
            },
        forall|i: int|
            #![trigger step_spec(v, packet, ext, now).values[i]]
            0 <= i < 2 && in_pwm_range(v.values[i] as int) ==> {
                let out = step_spec(v, packet, ext, now).values[i];
                ||| in_pwm_range(out as int)
                ||| (ext_reading_active(ext_for(ext, i), now) && out == (ext_for(ext, i)->0).0)
            },
{
}

/// The loop starts with no external input active, so its first "external
/// PWM active" report is `true`; while none is active no `false` report is
/// sent, and while one is active no `true` report is sent.
pub proof fn lemma_first_ext_report_is_active(v: ControllerView, ext: [Option<(u16, u64)>; 2], now: u64)
    ensures
        !initial_spec().is_ext_pwm,
        !v.is_ext_pwm ==> ext_status_spec(v, ext, now) != Some(false),
        v.is_ext_pwm ==> ext_status_spec(v, ext, now) != Some(true),
{
}

/// Between packets, while the link is up (the last packet is less than
/// the loss timeout old), each of the first two channels outputs the pulse
/// of its external input when that input is recent (under 50 ms) and not
/// centred (outside 1490..=1510), and otherwise the integer part of its
/// filter's output stage, clamped to 988..=2012; the other channels keep
/// their outputs, and no filter changes.
pub proof fn lemma_poll_gap_holds_filtered(v: ControllerView, ext: [Option<(u16, u64)>; 2], now: u64)
    requires
        v.last_crsf_at matches Some(t) && t <= now && now - t < 100_000,
    ensures
        forall|i: int|
            #![trigger step_spec(v, None, ext, now).values[i]]
            0 <= i < 2 ==> step_spec(v, None, ext, now).values[i] == match ext@[i] {
                Some(r) => if now - r.1 < 50_000 && !(1490 <= r.0 <= 1510) {
                    r.0
                } else {
                    let q = v.filters[i].state / 65536;
                    if q < 988 {
                        988u16
                    } else if q > 2012 {
                        2012u16
                    } else {
                        q as u16
                    }
                },
                None => {
                    let q = v.filters[i].state / 65536;
                    if q < 988 {
                        988u16
                    } else if q > 2012 {
                        2012u16
                    } else {
                        q as u16
                    }
                },
            },
        forall|i: int|
            #![trigger step_spec(v, None, ext, now).values[i]]
            2 <= i < 8 ==> step_spec(v, None, ext, now).values[i] == v.values[i],
        step_spec(v, None, ext, now).filters == v.filters,
        !step_spec(v, None, ext, now).is_rx_loss || v.is_rx_loss,
{
}

/// After any turn, "external PWM active" holds exactly when at least one of
/// the two inputs has a pulse that is recent (under 50 ms) and not centred
/// (outside 1490..=1510); a report is sent exactly when that differs from
/// the state before the turn, and it carries the new state.
pub proof fn lemma_ext_state_is_any_input_active(
    v: ControllerView,
    packet: Option<RcPacket>,
    ext: [Option<(u16, u64)>; 2],
    now: u64,
)
    ensures
        ({
            let a0 = match ext@[0] {
                Some(r) => now - r.1 < 50_000 && !(1490 <= r.0 <= 1510),
                None => false,
            };
            let a1 = match ext@[1] {
                Some(r) => now - r.1 < 50_000 && !(1490 <= r.0 <= 1510),
                None => false,
            };
            &&& step_spec(v, packet, ext, now).is_ext_pwm == (a0 || a1)
            &&& ext_status_spec(v, ext, now) == if (a0 || a1) != v.is_ext_pwm {
                Some(a0 || a1)
            } else {
                None
            }
        }),
{
}

/// A packet, written out for each channel `i`: its value `ch` maps to the
/// pulse `624771 · ch / 10⁶ + 881` (rounded down). When that pulse lies in
/// 988..=2012, the channel's filter takes it (as `pulse · 2¹⁶`): the first
/// stage moves by `gain · (input − first stage) / 2¹⁶` and the output stage by
/// `gain · (new first stage − output stage) / 2¹⁶`, each rounded down; the
/// channel outputs the pulse of its external input if that is recent and
/// not centred (only the first two channels have one), else the integer
/// part of the new output stage clamped to 988..=2012. Any other channel
/// keeps its filter stages and output.
pub proof fn lemma_packet_turn_written_out(
    v: ControllerView,
    p: RcPacket,
    ext: [Option<(u16, u64)>; 2],
    now: u64,
)
    requires
        controller_wf(v),
    ensures
        forall|i: int|
            #![trigger step_spec(v, Some(p), ext, now).values[i]]
            0 <= i < 8 ==> {
                let n = step_spec(v, Some(p), ext, now);
                let pwm = (624771 * p.channels@[i]) / 1000000 + 881;
                let f = v.filters[i];
                let s1 = f.state1 + (f.gain * (pwm * 65536 - f.state1)) / 65536;
                let st = f.state + (f.gain * (s1 - f.state)) / 65536;
                let q = st / 65536;
                let clamped: u16 = if q < 988 {
                    988u16
                } else if q > 2012 {
                    2012u16
                } else {
                    q as u16
                };
                let reading = if i < 2 { ext@[i] } else { None };
                let out = match reading {
                    Some(r) => if now - r.1 < 50_000 && !(1490 <= r.0 <= 1510) { r.0 } else { clamped },
                    None => clamped,
                };
                if 988 <= pwm <= 2012 {
                    &&& n.filters[i].state == st
                    &&& n.filters[i].state1 == s1
                    &&& n.values[i] == out
                } else {
                    &&& n.filters[i].state == f.state
                    &&& n.filters[i].state1 == f.state1
                    &&& n.values[i] == v.values[i]
                }
            },
        step_spec(v, Some(p), ext, now).last_crsf_at == Some(p.timestamp),
        !step_spec(v, Some(p), ext, now).is_rx_loss,
{
}

/// When a turn without a packet finds the link lost (no packet ever, or the
/// last one at least 100 ms old), every channel outputs its failsafe: 1500
/// for the first two channels and 988 for the others, unless its external
/// input (first two channels only) is recent and not centred, whose pulse it
/// outputs instead.
pub proof fn lemma_rx_loss_written_out(v: ControllerView, ext: [Option<(u16, u64)>; 2], now: u64)
    requires
        match v.last_crsf_at {
            None => true,
            Some(t) => t <= now && now - t >= 100_000,
        },
    ensures
        forall|i: int|
            #![trigger step_spec(v, None, ext, now).values[i]]
            0 <= i < 8 ==> step_spec(v, None, ext, now).values[i] == {
                let fallback: u16 = if i < 2 { 1500u16 } else { 988u16 };
                let reading = if i < 2 { ext@[i] } else { None };
                match reading {
                    Some(r) => if now - r.1 < 50_000 && !(1490 <= r.0 <= 1510) {
                        r.0
                    } else {
                        fallback
                    },
                    None => fallback,
                }
            },
        step_spec(v, None, ext, now).is_rx_loss,
        !v.is_rx_loss ==> crsf_status_spec(v, None, now) == Some(Status::RxLoss),
        v.is_rx_loss ==> crsf_status_spec(v, None, now) is None,
{
}

/// A packet turn while a rate measurement runs (started at `start`, with
/// `count` packets so far): the count grows by one; once more than three
/// packets span at least one second, the rate is measured over the
/// `count` intervals as `(10⁶ / (elapsed / count) + 2) / 5 · 5` Hz (kept in
/// 16 bits), and when it lies in 25..=250 Hz and differs from the sample
/// rate it becomes the sample rate and every filter takes the gain for a
/// 5 Hz cutoff at that rate; the measurement then restarts at this packet
/// with a count of one. Otherwise the sample rate and gains stay.
pub proof fn lemma_packet_rate_written_out(
    v: ControllerView,
    p: RcPacket,
    ext: [Option<(u16, u64)>; 2],
    now: u64,
    start: u64,
)
    requires
        controller_wf(v),
        v.freq_measurement_start_at == Some(start),
        start <= now,
        v.freq_measurement_received_packets < u32::MAX,
        (v.freq_measurement_received_packets + 1 > 3 && now - start >= 1_000_000) ==> now - start
            >= v.freq_measurement_received_packets,
    ensures
        ({
            let n = step_spec(v, Some(p), ext, now);
            let count = v.freq_measurement_received_packets as int;
            let elapsed = now - start;
            if count + 1 > 3 && elapsed >= 1_000_000 {
                let f = ((1_000_000int / (elapsed / count) + 2) / 5 * 5) as u16;
                &&& n.freq_measurement_start_at == Some(p.timestamp)
                &&& n.freq_measurement_received_packets == 1
                &&& if 25 <= f <= 250 && f != v.filter_sample_freq {
                    &&& n.filter_sample_freq == f
                    &&& forall|i: int|
                        0 <= i < 8 ==> (#[trigger] n.filters[i]).gain == pt2_gain_spec(
                            5int * 65536,
                            f * 65536,
                        )
                } else {
                    &&& n.filter_sample_freq == v.filter_sample_freq
                    &&& forall|i: int| 0 <= i < 8 ==> (#[trigger] n.filters[i]).gain == v.filters[i].gain
                }
            } else {
                &&& n.freq_measurement_start_at == Some(start)
                &&& n.freq_measurement_received_packets == count + 1
                &&& n.filter_sample_freq == v.filter_sample_freq
                &&& forall|i: int| 0 <= i < 8 ==> (#[trigger] n.filters[i]).gain == v.filters[i].gain
            }
        }),
{
}

} // verus!
