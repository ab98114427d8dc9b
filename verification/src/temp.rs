//! DS18B20 1-Wire temperature sensors: the Dallas/Maxim CRC-8 that guards
//! ROM addresses and scratchpads, the search for devices, and the
//! decoding of temperatures.

use vstd::bytes::{spec_u64_to_le_bytes, u64_to_le_bytes};
use vstd::prelude::*;

verus! {

/// ROM command that addresses every device on the bus.
pub const SKIP_ROM: u8 = 0xCC;

/// Function command that starts a temperature conversion.
pub const CONVERT_T: u8 = 0x44;

/// ROM command that addresses the device whose ROM address follows.
pub const MATCH_ROM: u8 = 0x55;

/// Function command that reads the 9-byte scratchpad.
pub const READ_SCRATCHPAD: u8 = 0xBE;

/// Time a 12-bit conversion can take, in milliseconds.
pub const CONVERSION_TIME_MILLIS: u64 = 750;

/// One bit of the CRC: the register and the remaining data bits before and
/// after. The register shifts right; where its low bit differs from the
/// data's, the reflected polynomial `0x8C` (x⁸ + x⁵ + x⁴ + 1) is added.
pub open spec fn crc_bit(crc: u8, data: u8) -> (u8, u8) {
    let temp = (crc ^ data) & 1;
    let shifted = crc >> 1;
    (if temp != 0 { shifted ^ 0x8C } else { shifted }, data >> 1)
}

/// The register and data after `n` bits of the byte.
pub open spec fn crc_bits(crc: u8, data: u8, n: nat) -> (u8, u8)
    decreases n,
{
    if n == 0 {
        (crc, data)
    } else {
        let prev = crc_bits(crc, data, (n - 1) as nat);
        crc_bit(prev.0, prev.1)
    }
}

/// The register after one byte.
pub open spec fn crc8_byte(crc: u8, b: u8) -> u8 {
    crc_bits(crc, b, 8).0
}

/// The Dallas/Maxim CRC-8 (1-Wire) of a byte sequence, starting from zero.
pub open spec fn crc8_spec(data: Seq<u8>) -> u8
    decreases data.len(),
{
    if data.len() == 0 {
        0
    } else {
        crc8_byte(crc8_spec(data.drop_last()), data.last())
    }
}

/// The Dallas/Maxim CRC-8 of `data`.
pub fn crc8(data: &[u8]) -> (crc: u8)
    ensures
        crc == crc8_spec(data@),
{
    let mut crc: u8 = 0;
    let mut i: usize = 0;
    while i < data.len()
        invariant
            i <= data.len(),
            crc == crc8_spec(data@.subrange(0, i as int)),
        decreases data.len() - i,
    {
        let b = data[i];
        let mut data_byte = b;
        let ghost crc0 = crc;
        let mut k: u8 = 0;
        while k < 8
            invariant
                k <= 8,
                (crc, data_byte) == crc_bits(crc0, b, k as nat),
            decreases 8 - k,
        {
            let temp = (crc ^ data_byte) & 0x01;
            crc = crc >> 1;
            if temp != 0 {
                crc = crc ^ 0x8C;
            }
            data_byte = data_byte >> 1;
            k = k + 1;
        }
        proof {
            let next = data@.subrange(0, i + 1);
            assert(next.drop_last() =~= data@.subrange(0, i as int));
        }
        i = i + 1;
    }
    assert(data@.subrange(0, data.len() as int) =~= data@);
    crc
}

/// Feeding the register its own value, bit by bit, clears it.
proof fn lemma_crc_bits_self(c: u8, n: u8)
    requires
        n <= 8,
    ensures
        crc_bits(c, c, n as nat) == (c >> n, c >> n),
    decreases n,
{
    if n > 0 {
        let m = (n - 1) as u8;
        lemma_crc_bits_self(c, m);
        assert(crc_bits(c, c, n as nat) == crc_bit(c >> m, c >> m));
        let x = c >> m;
        assert(((x ^ x) & 1) == 0 && x >> 1u8 == c >> n) by (bit_vector)
            requires
                x == c >> m,
                m < 8,
                n == m + 1,
        ;
        assert(crc_bit(x, x) == (x >> 1u8, x >> 1u8));
    } else {
        assert(c >> 0u8 == c) by (bit_vector);
    }
}

/// Appending the CRC of a sequence gives a sequence whose CRC is zero;
/// this is how a ROM address and a scratchpad carry their check byte.
pub proof fn lemma_crc8_append_crc(data: Seq<u8>)
    ensures
        crc8_spec(data.push(crc8_spec(data))) == 0,
{
    let c = crc8_spec(data);
    assert(data.push(c).drop_last() =~= data);
    lemma_crc_bits_self(c, 8u8);
    assert(c >> 8u8 == 0) by (bit_vector);
}

/// Feeding one byte clears the register exactly when the byte equals the
/// register.
proof fn lemma_crc8_byte_zero(c: u8, x: u8)
    ensures
        (crc8_byte(c, x) == 0) == (x == c),
{
    let s0 = crc_bits(c, x, 0);
    let s1 = crc_bits(c, x, 1);
    let s2 = crc_bits(c, x, 2);
    let s3 = crc_bits(c, x, 3);
    let s4 = crc_bits(c, x, 4);
    let s5 = crc_bits(c, x, 5);
    let s6 = crc_bits(c, x, 6);
    let s7 = crc_bits(c, x, 7);
    let s8 = crc_bits(c, x, 8);
    assert(s1 == crc_bit(s0.0, s0.1));
    assert(s2 == crc_bit(s1.0, s1.1));
    assert(s3 == crc_bit(s2.0, s2.1));
    assert(s4 == crc_bit(s3.0, s3.1));
    assert(s5 == crc_bit(s4.0, s4.1));
    assert(s6 == crc_bit(s5.0, s5.1));
    assert(s7 == crc_bit(s6.0, s6.1));
    assert(s8 == crc_bit(s7.0, s7.1));
    let (a0, b0) = (s0.0, s0.1);
    let (a1, b1) = (s1.0, s1.1);
    let (a2, b2) = (s2.0, s2.1);
    let (a3, b3) = (s3.0, s3.1);
    let (a4, b4) = (s4.0, s4.1);
    let (a5, b5) = (s5.0, s5.1);
    let (a6, b6) = (s6.0, s6.1);
    let (a7, b7) = (s7.0, s7.1);
    let a8 = s8.0;
    assert((a8 == 0) == (x == c)) by (bit_vector)
        requires
            a0 == c,
            b0 == x,
            a1 == (if ((a0 ^ b0) & 1) != 0 { (a0 >> 1) ^ 0x8C } else { a0 >> 1 }),
            b1 == b0 >> 1,
            a2 == (if ((a1 ^ b1) & 1) != 0 { (a1 >> 1) ^ 0x8C } else { a1 >> 1 }),
            b2 == b1 >> 1,
            a3 == (if ((a2 ^ b2) & 1) != 0 { (a2 >> 1) ^ 0x8C } else { a2 >> 1 }),
            b3 == b2 >> 1,
            a4 == (if ((a3 ^ b3) & 1) != 0 { (a3 >> 1) ^ 0x8C } else { a3 >> 1 }),
            b4 == b3 >> 1,
            a5 == (if ((a4 ^ b4) & 1) != 0 { (a4 >> 1) ^ 0x8C } else { a4 >> 1 }),
            b5 == b4 >> 1,
            a6 == (if ((a5 ^ b5) & 1) != 0 { (a5 >> 1) ^ 0x8C } else { a5 >> 1 }),
            b6 == b5 >> 1,
            a7 == (if ((a6 ^ b6) & 1) != 0 { (a6 >> 1) ^ 0x8C } else { a6 >> 1 }),
            b7 == b6 >> 1,
            a8 == (if ((a7 ^ b7) & 1) != 0 { (a7 >> 1) ^ 0x8C } else { a7 >> 1 }),
    ;
}

/// The check byte is unique: a block whose last byte is `x` has CRC zero
/// exactly when `x` is the CRC of the bytes before it. This is what the
/// zero check on ROM addresses and scratchpads accepts.
pub proof fn lemma_crc8_check_byte_unique(data: Seq<u8>, x: u8)
    ensures
        (crc8_spec(data.push(x)) == 0) == (x == crc8_spec(data)),
{
    assert(data.push(x).drop_last() =~= data);
    lemma_crc8_byte_zero(crc8_spec(data), x);
}

/// The bytewise exclusive or of two sequences of the same length.
pub open spec fn xor_bytes(a: Seq<u8>, b: Seq<u8>) -> Seq<u8> {
    Seq::new(a.len(), |i: int| a[i] ^ b[i])
}

/// One CRC bit step is linear over exclusive or.
proof fn lemma_crc_bit_xor(c1: u8, d1: u8, c2: u8, d2: u8)
    ensures
        crc_bit(c1 ^ c2, d1 ^ d2).0 == crc_bit(c1, d1).0 ^ crc_bit(c2, d2).0,
        crc_bit(c1 ^ c2, d1 ^ d2).1 == crc_bit(c1, d1).1 ^ crc_bit(c2, d2).1,
{
    assert((if (((c1 ^ c2) ^ (d1 ^ d2)) & 1) != 0 { ((c1 ^ c2) >> 1) ^ 0x8C } else { (c1 ^ c2) >> 1 })
        == (if ((c1 ^ d1) & 1) != 0 { (c1 >> 1) ^ 0x8C } else { c1 >> 1 }) ^ (if ((c2 ^ d2) & 1)
        != 0 { (c2 >> 1) ^ 0x8C } else { c2 >> 1 })) by (bit_vector);
    assert((d1 ^ d2) >> 1 == (d1 >> 1) ^ (d2 >> 1)) by (bit_vector);
}

/// Any number of CRC bit steps is linear over exclusive or.
proof fn lemma_crc_bits_xor(c1: u8, d1: u8, c2: u8, d2: u8, n: nat)
    ensures
        crc_bits(c1 ^ c2, d1 ^ d2, n).0 == crc_bits(c1, d1, n).0 ^ crc_bits(c2, d2, n).0,
        crc_bits(c1 ^ c2, d1 ^ d2, n).1 == crc_bits(c1, d1, n).1 ^ crc_bits(c2, d2, n).1,
    decreases n,
{
    if n > 0 {
        lemma_crc_bits_xor(c1, d1, c2, d2, (n - 1) as nat);
        let p1 = crc_bits(c1, d1, (n - 1) as nat);
        let p2 = crc_bits(c2, d2, (n - 1) as nat);
        lemma_crc_bit_xor(p1.0, p1.1, p2.0, p2.1);
    }
}

/// The CRC is linear: the CRC of the exclusive or of two sequences of the
/// same length is the exclusive or of their CRCs.
pub proof fn lemma_crc8_linear(a: Seq<u8>, b: Seq<u8>)
    requires
        a.len() == b.len(),
    ensures
        crc8_spec(xor_bytes(a, b)) == crc8_spec(a) ^ crc8_spec(b),
    decreases a.len(),
{
    let x = xor_bytes(a, b);
    if a.len() > 0 {
        lemma_crc8_linear(a.drop_last(), b.drop_last());
        assert(x.drop_last() =~= xor_bytes(a.drop_last(), b.drop_last()));
        lemma_crc_bits_xor(crc8_spec(a.drop_last()), a.last(), crc8_spec(b.drop_last()), b.last(), 8);
    } else {
        assert(0u8 ^ 0u8 == 0) by (bit_vector);
    }
}

/// The CRC of any run of zero bytes, the empty one included, is zero: the
/// register starts at zero and has no final exclusive or.
pub proof fn lemma_crc8_zeros(n: nat)
    ensures
        crc8_spec(Seq::new(n, |i: int| 0u8)) == 0,
{
    let z = Seq::new(n, |i: int| 0u8);
    lemma_crc8_linear(z, z);
    assert(xor_bytes(z, z) =~= z) by {
        assert(0u8 ^ 0u8 == 0) by (bit_vector);
    }
    let c = crc8_spec(z);
    assert(c ^ c == 0) by (bit_vector);
}

/// Whether a ROM address found on the bus is intact: its CRC, checked
/// over its little-endian bytes, is zero.
pub open spec fn rom_address_valid(address: u64) -> bool {
    crc8_spec(spec_u64_to_le_bytes(address)) == 0
}

/// The little-endian bytes of a ROM address, as they go on the bus.
pub fn rom_address_bytes(address: u64) -> (b: Vec<u8>)
    ensures
        b@ == spec_u64_to_le_bytes(address),
{
    u64_to_le_bytes(address)
}

/// Whether a ROM address found on the bus is intact.
pub fn is_valid_rom_address(address: u64) -> (b: bool)
    ensures
        b == rom_address_valid(address),
{
    let bytes = u64_to_le_bytes(address);
    crc8(bytes.as_slice()) == 0
}

/// The search for devices: at most `max_devices` search attempts, keeping
/// every intact address found.
pub struct DeviceScan {
    devices: Vec<u64>,
    attempts_left: usize,
}

pub struct DeviceScanView {
    pub devices: Seq<u64>,
    pub attempts_left: nat,
}

impl View for DeviceScan {
    type V = DeviceScanView;

    closed spec fn view(&self) -> DeviceScanView {
        DeviceScanView { devices: self.devices@, attempts_left: self.attempts_left as nat }
    }
}

impl DeviceScan {
    /// A search that may make `max_devices` attempts.
    pub fn new(max_devices: usize) -> (s: DeviceScan)
        ensures
            s@.devices == Seq::<u64>::empty(),
            s@.attempts_left == max_devices,
    {
        DeviceScan { devices: Vec::new(), attempts_left: max_devices }
    }

    /// Whether to make another search attempt, given whether the bus
    /// search has finished.
    pub fn wants_more(&self, search_finished: bool) -> (b: bool)
        ensures
            b == (self@.attempts_left > 0 && !search_finished),
    {
        self.attempts_left > 0 && !search_finished
    }

    /// Records the result of one search attempt: the address found, if
    /// any. An intact address is kept; a damaged one is dropped.
    pub fn record(&mut self, found: Option<u64>) -> (kept: bool)
        requires
            old(self)@.attempts_left > 0,
        ensures
            final(self)@.attempts_left == old(self)@.attempts_left - 1,
            kept == (found matches Some(a) && rom_address_valid(a)),
            kept ==> final(self)@.devices == old(self)@.devices.push(found->0),
            !kept ==> final(self)@.devices == old(self)@.devices,
    {
        self.attempts_left = self.attempts_left - 1;
        match found {
            Some(address) => {
                if is_valid_rom_address(address) {
                    self.devices.push(address);
                    true
                } else {
                    false
                }
            },
            None => false,
        }
    }

    /// The devices found so far, in the order they were found.
    pub fn devices(&self) -> (d: Vec<u64>)
        ensures
            d@ == self@.devices,
    {
        self.devices.clone()
    }
}

/// A search keeps only intact addresses, and no more than it made
/// attempts: every recording keeps at most one address.
pub proof fn lemma_record_keeps_valid(before: DeviceScanView, after: DeviceScanView, found: Option<u64>)
    requires
        forall|i: int| 0 <= i < before.devices.len() ==> rom_address_valid(#[trigger] before.devices[i]),
        before.attempts_left > 0,
        after.attempts_left == before.attempts_left - 1,
        (found matches Some(a) && rom_address_valid(a)) ==> after.devices == before.devices.push(found->0),
        !(found matches Some(a) && rom_address_valid(a)) ==> after.devices == before.devices,
    ensures
        forall|i: int| 0 <= i < after.devices.len() ==> rom_address_valid(#[trigger] after.devices[i]),
        after.devices.len() + after.attempts_left <= before.devices.len() + before.attempts_left,
{
    if found matches Some(a) && rom_address_valid(a) {
        assert forall|i: int| 0 <= i < after.devices.len() implies rom_address_valid(
            #[trigger] after.devices[i],
        ) by {
            if i < before.devices.len() {
                assert(after.devices[i] == before.devices[i]);
            }
        }
    }
}

/// Length of a DS18B20 scratchpad, its CRC included.
pub const SCRATCHPAD_LEN: usize = 9;

/// The temperature register of a scratchpad, in sixteenths of a degree
/// Celsius: the first two bytes, little-endian, as a signed number.
pub open spec fn scratchpad_raw_temperature(lsb: u8, msb: u8) -> int {
    if msb < 128 {
        msb * 256 + lsb
    } else {
        msb * 256 + lsb - 65536
    }
}

/// The temperature in a scratchpad, in sixteenths of a degree Celsius, or
/// `None` when its CRC shows it damaged.
pub fn scratchpad_temperature(data: &[u8; 9]) -> (t: Option<i16>)
    ensures
        crc8_spec(data@) == 0 ==> t == Some(scratchpad_raw_temperature(data@[0], data@[1]) as i16),
        crc8_spec(data@) != 0 ==> t is None,
        t matches Some(v) ==> v as int == scratchpad_raw_temperature(data@[0], data@[1]),
        t matches Some(v) ==> (v - (data@[1] * 256 + data@[0])) % 65536 == 0,
{
    if crc8(data) == 0 {
        let lsb = data[0];
        let msb = data[1];
        let v: i16 = if msb < 128 {
            (msb as i16) * 256 + lsb as i16
        } else {
            ((msb as i16) - 256) * 256 + lsb as i16
        };
        Some(v)
    } else {
        None
    }
}

/// The temperatures of the scratchpads read, in the order read, leaving
/// out every damaged one.
pub open spec fn temperatures_spec(scratchpads: Seq<[u8; 9]>) -> Seq<i16>
    decreases scratchpads.len(),
{
    if scratchpads.len() == 0 {
        Seq::empty()
    } else {
        let rest = temperatures_spec(scratchpads.drop_last());
        let last = scratchpads.last();
        if crc8_spec(last@) == 0 {
            rest.push(scratchpad_raw_temperature(last@[0], last@[1]) as i16)
        } else {
            rest
        }
    }
}

/// The temperatures, in sixteenths of a degree Celsius, of the scratchpads
/// read from the devices, damaged ones left out.
pub fn read_temperatures(scratchpads: &Vec<[u8; 9]>) -> (t: Vec<i16>)
    ensures
        t@ == temperatures_spec(scratchpads@),
{
    let mut measurements: Vec<i16> = Vec::new();
    let mut i: usize = 0;
    while i < scratchpads.len()
        invariant
            i <= scratchpads.len(),
            measurements@ == temperatures_spec(scratchpads@.subrange(0, i as int)),
        decreases scratchpads.len() - i,
    {
        let data = &scratchpads[i];
        let t = scratchpad_temperature(data);
        proof {
            let next = scratchpads@.subrange(0, i + 1);
            assert(next.drop_last() =~= scratchpads@.subrange(0, i as int));
            assert(next.last() == *data);
        }
        match t {
            Some(v) => measurements.push(v),
            None => {},
        }
        i = i + 1;
    }
    assert(scratchpads@.subrange(0, scratchpads.len() as int) =~= scratchpads@);
    measurements
}

/// The temperature register is the 16-bit two's-complement number of its
/// two bytes, low byte first: the value lies in the `i16` range and agrees
/// with `msb · 256 + lsb` modulo 2¹⁶ (so it is negative exactly when the
/// high byte's top bit is set).
pub proof fn lemma_raw_temperature_twos_complement(lsb: u8, msb: u8)
    ensures
        -32768 <= scratchpad_raw_temperature(lsb, msb) <= 32767,
        (scratchpad_raw_temperature(lsb, msb) - (msb * 256 + lsb)) % 65536 == 0,
        (scratchpad_raw_temperature(lsb, msb) < 0) == (msb >= 128),
{
}

/// Reading intact scratchpads gives one temperature per scratchpad, in
/// order, each the two's-complement number of that scratchpad's first two
/// bytes; damaged scratchpads add nothing.
pub proof fn lemma_temperatures_of_intact(scratchpads: Seq<[u8; 9]>)
    ensures
        (forall|i: int| 0 <= i < scratchpads.len() ==> crc8_spec((#[trigger] scratchpads[i])@) == 0)
            ==> {
            &&& temperatures_spec(scratchpads).len() == scratchpads.len()
            &&& forall|i: int|
                0 <= i < scratchpads.len() ==> (#[trigger] temperatures_spec(scratchpads)[i] - (
                scratchpads[i]@[1] * 256 + scratchpads[i]@[0])) % 65536 == 0
        },
        (forall|i: int| 0 <= i < scratchpads.len() ==> crc8_spec((#[trigger] scratchpads[i])@) != 0)
            ==> temperatures_spec(scratchpads).len() == 0,
    decreases scratchpads.len(),
{
    if scratchpads.len() > 0 {
        let init = scratchpads.drop_last();
        lemma_temperatures_of_intact(init);
        if forall|i: int| 0 <= i < scratchpads.len() ==> crc8_spec((#[trigger] scratchpads[i])@) == 0 {
            assert(forall|i: int| 0 <= i < init.len() ==> crc8_spec((#[trigger] init[i])@) == 0) by {
                assert forall|i: int| 0 <= i < init.len() implies crc8_spec((#[trigger] init[i])@) == 0 by {
                    assert(init[i] == scratchpads[i]);
                }
            }
            let last = scratchpads.last();
            assert(crc8_spec(scratchpads[scratchpads.len() - 1]@) == 0);
            lemma_raw_temperature_twos_complement(last@[0], last@[1]);
            let t = temperatures_spec(scratchpads);
            assert forall|i: int| 0 <= i < scratchpads.len() implies (#[trigger] t[i] - (
            scratchpads[i]@[1] * 256 + scratchpads[i]@[0])) % 65536 == 0 by {
                if i < scratchpads.len() - 1 {
                    assert(init[i] == scratchpads[i]);
                    assert(t[i] == temperatures_spec(init)[i]);
                }
            }
        }
        if forall|i: int| 0 <= i < scratchpads.len() ==> crc8_spec((#[trigger] scratchpads[i])@) != 0 {
            assert forall|i: int| 0 <= i < init.len() implies crc8_spec((#[trigger] init[i])@) != 0 by {
                assert(init[i] == scratchpads[i]);
            }
            assert(crc8_spec(scratchpads[scratchpads.len() - 1]@) != 0);
        }
    }
}

} // verus!
