use crsf::{Packet, PacketAddress, RcChannels};
use crsf2pwm::rx::CrsfReceiver;

fn frame(addr: PacketAddress, channels: [u16; 16]) -> Vec<u8> {
    Packet::RcChannels(RcChannels(channels)).into_raw(addr).data().to_vec()
}

fn channels() -> [u16; 16] {
    let mut c = [992u16; 16];
    c[0] = 172;
    c[1] = 1811;
    c[15] = 2047;
    c
}

#[test]
fn receiver_delivers_rc_frame_on_last_byte() {
    let mut rx = CrsfReceiver::new();
    let bytes = frame(PacketAddress::Controller, channels());
    let (last, head) = bytes.split_last().unwrap();
    for b in head {
        assert_eq!(rx.on_byte(*b), None);
    }
    assert_eq!(rx.on_byte(*last), Some(channels()));
    // The next frame comes through as well.
    let mut got = None;
    for b in frame(PacketAddress::Controller, [1000; 16]) {
        got = rx.on_byte(b);
    }
    assert_eq!(got, Some([1000; 16]));
}

#[test]
fn receiver_skips_noise_and_other_addresses() {
    let mut rx = CrsfReceiver::new();
    for b in [0x00u8, 0x13, 0x37] {
        assert_eq!(rx.on_byte(b), None);
    }
    let mut got = None;
    for b in frame(PacketAddress::Transmitter, channels()) {
        got = got.or(rx.on_byte(b));
    }
    assert_eq!(got, None);
    for b in frame(PacketAddress::Controller, channels()) {
        got = got.or(rx.on_byte(b));
    }
    assert_eq!(got, Some(channels()));
}

#[test]
fn receiver_rejects_bad_checksum() {
    let mut rx = CrsfReceiver::new();
    let mut bytes = frame(PacketAddress::Controller, channels());
    let n = bytes.len();
    bytes[n - 1] ^= 0xFF;
    let mut got = None;
    for b in bytes {
        got = got.or(rx.on_byte(b));
    }
    assert_eq!(got, None);
}

#[test]
fn receiver_read_error_drops_partial_frame() {
    let mut rx = CrsfReceiver::new();
    let bytes = frame(PacketAddress::Controller, channels());
    for b in &bytes[..10] {
        rx.on_byte(*b);
    }
    rx.on_read_error();
    let mut got = None;
    for b in &bytes[10..] {
        got = got.or(rx.on_byte(*b));
    }
    assert_eq!(got, None);
    for b in &bytes {
        got = got.or(rx.on_byte(*b));
    }
    assert_eq!(got, Some(channels()));
}

// CRC-8/DVB-S2 (polynomial 0xD5), the checksum of CRSF frames.
fn crc8_dvb_s2(data: &[u8]) -> u8 {
    let mut crc = 0u8;
    for b in data {
        crc ^= *b;
        for _ in 0..8 {
            crc = if crc & 0x80 != 0 { (crc << 1) ^ 0xD5 } else { crc << 1 };
        }
    }
    crc
}

#[test]
fn receiver_syncs_on_flight_controller_address() {
    let mut rx = CrsfReceiver::new();
    // A transmitter address just before the frame is skipped.
    assert_eq!(rx.on_byte(0xEE), None);
    let mut got = None;
    for b in frame(PacketAddress::Controller, channels()) {
        got = got.or(rx.on_byte(b));
    }
    assert_eq!(got, Some(channels()));
}

#[test]
fn receiver_resyncs_after_stray_address() {
    let mut rx = CrsfReceiver::new();
    // A stray flight-controller address: its "length" is the next frame's
    // address, which then starts the frame.
    assert_eq!(rx.on_byte(0xC8), None);
    let mut got = None;
    for b in frame(PacketAddress::Controller, channels()) {
        got = got.or(rx.on_byte(b));
    }
    assert_eq!(got, Some(channels()));
}

#[test]
fn receiver_ignores_short_rc_frame() {
    let mut rx = CrsfReceiver::new();
    // An RC channels frame with a valid checksum but no payload.
    let short = [0xC8u8, 0x02, 0x16, crc8_dvb_s2(&[0x16])];
    let mut got = None;
    for b in short {
        got = got.or(rx.on_byte(b));
    }
    assert_eq!(got, None);
    // A short link statistics frame too.
    let short_stats = [0xC8u8, 0x03, 0x14, 0x01, crc8_dvb_s2(&[0x14, 0x01])];
    for b in short_stats {
        got = got.or(rx.on_byte(b));
    }
    assert_eq!(got, None);
    for b in frame(PacketAddress::Controller, channels()) {
        got = got.or(rx.on_byte(b));
    }
    assert_eq!(got, Some(channels()));
}

#[test]
fn frames_back_to_back_are_each_delivered_once() {
    let mut rx = CrsfReceiver::new();
    let mut stream = Vec::new();
    stream.extend(frame(PacketAddress::Controller, channels()));
    stream.extend(frame(PacketAddress::Controller, [1000; 16]));
    stream.extend(frame(PacketAddress::Controller, [2000; 16]));
    let delivered: Vec<[u16; 16]> = stream.iter().filter_map(|b| rx.on_byte(*b)).collect();
    assert_eq!(delivered, vec![channels(), [1000; 16], [2000; 16]]);
}
