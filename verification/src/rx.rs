//! Reception of CRSF frames byte by byte: the `crsf` crate's parser holds
//! the bytes; RC channel frames addressed to the flight controller come out.

use crsf::{Packet, PacketError, PacketParser, RawPacket};
use vstd::prelude::*;

verus! {

#[verifier::external_type_specification]
#[verifier::external_body]
pub struct ExPacketParser<const C: usize>(PacketParser<C>);

#[verifier::external_type_specification]
#[verifier::external_body]
pub struct ExRawPacket(RawPacket);

/// Capacity of the parser's buffer: one frame of the largest size.
pub const PARSER_CAPACITY: usize = 64;

/// Address byte of frames for the flight controller.
pub const FLIGHT_CONTROLLER_ADDRESS: u8 = 0xC8;

/// Frame type byte of RC channel frames.
pub const RC_CHANNELS_PACKED_TYPE: u8 = 0x16;

/// The bytes a parser holds, oldest first.
pub uninterp spec fn parser_buffer(p: PacketParser<64>) -> Seq<u8>;

/// The bytes of a raw frame: address, length, type, payload and checksum.
pub uninterp spec fn raw_packet_data(r: RawPacket) -> Seq<u8>;

/// The channels that `crsf::Packet::from_raw` finds in a frame's bytes when
/// it parses them as an RC channels frame (checksum and type accepted),
/// or `None` when it yields anything else.
pub uninterp spec fn rc_channels_of(data: Seq<u8>) -> Option<Seq<u16>>;

/// Whether a byte is one of the addresses that `crsf` synchronises on.
pub open spec fn is_crsf_address(b: u8) -> bool {
    b == 0xEE || b == 0xEA || b == 0xC8 || b == 0xEC
}

/// The buffer after the parser drops the bytes before the first address.
pub open spec fn synced(s: Seq<u8>) -> Seq<u8>
    decreases s.len(),
{
    if s.len() > 0 && !is_crsf_address(s[0]) {
        synced(s.drop_first())
    } else {
        s
    }
}

/// Why the parser rejected what it held.
#[derive(Clone, Copy, Debug, PartialEq, Eq)]
pub enum FrameError {
    /// The length byte lies outside `2..=62`.
    InvalidLength,
    /// Another rejection of the parser.
    Other,
}

/// What the parser's next step gives from buffer `s`: nothing yet, a
/// length error, or a complete frame of the given length.
pub enum NextFrame {
    Incomplete,
    BadLength,
    Frame(nat),
}

pub open spec fn next_frame_spec(s: Seq<u8>) -> NextFrame {
    let t = synced(s);
    if t.len() < 2 {
        NextFrame::Incomplete
    } else if !(2 <= t[1] <= 62) {
        NextFrame::BadLength
    } else if t[1] + 2 > t.len() {
        NextFrame::Incomplete
    } else {
        NextFrame::Frame((t[1] + 2) as nat)
    }
}

/// The buffer after the parser's next step.
pub open spec fn buffer_after_next(s: Seq<u8>) -> Seq<u8> {
    let t = synced(s);
    match next_frame_spec(s) {
        NextFrame::Incomplete => t,
        NextFrame::BadLength => t.skip(2),
        NextFrame::Frame(_) => if t.len() <= 64 { Seq::empty() } else { t.skip(64) },
    }
}

/// The buffer after a byte is pushed: the byte is dropped when it is full.
pub open spec fn buffer_after_push(s: Seq<u8>, b: u8) -> Seq<u8> {
    if s.len() < 64 { s.push(b) } else { s }
}

/// `PacketParser::<64>::new`: an empty buffer.
#[verifier::external_body]
fn parser_new() -> (p: PacketParser<64>)
    ensures
        parser_buffer(p) == Seq::<u8>::empty(),
{
    PacketParser::<64>::new()
}

/// `PacketParser::clear`: empties the buffer.
#[verifier::external_body]
fn parser_clear(p: &mut PacketParser<64>)
    ensures
        parser_buffer(*final(p)) == Seq::<u8>::empty(),
{
    p.clear()
}

/// `PacketParser::push_bytes` with one byte: appended unless the buffer is full.
#[verifier::external_body]
fn parser_push_byte(p: &mut PacketParser<64>, b: u8)
    ensures
        parser_buffer(*final(p)) == buffer_after_push(parser_buffer(*old(p)), b),
{
    p.push_bytes(&[b])
}

/// `PacketParser::next_raw_packet`: drops the bytes before the first
/// address; with fewer than two bytes left, or fewer than the length byte
/// announces, gives nothing; with a length byte outside `2..=62`, drops the
/// two header bytes and gives a length error; else takes out a whole frame
/// (emptying up to 64 bytes of the buffer) and gives its bytes.
#[verifier::external_body]
fn parser_next_raw(p: &mut PacketParser<64>) -> (r: Option<Result<RawPacket, FrameError>>)
    ensures
        parser_buffer(*final(p)) == buffer_after_next(parser_buffer(*old(p))),
        match next_frame_spec(parser_buffer(*old(p))) {
            NextFrame::Incomplete => r is None,
            NextFrame::BadLength => r == Some(Err::<RawPacket, FrameError>(FrameError::InvalidLength)),
            NextFrame::Frame(n) => r matches Some(Ok(raw)) && raw_packet_data(raw) == synced(
                parser_buffer(*old(p)),
            ).take(n as int),
        },
{
    match p.next_raw_packet() {
        None => None,
        Some(Ok(raw)) => Some(Ok(raw)),
        Some(Err(PacketError::InvalidLength { .. })) => Some(Err(FrameError::InvalidLength)),
        Some(Err(_)) => Some(Err(FrameError::Other)),
    }
}

/// `RawPacket::data`: the bytes of the frame.
#[verifier::external_body]
fn raw_packet_bytes(raw: &RawPacket) -> (d: Vec<u8>)
    ensures
        d@ == raw_packet_data(*raw),
{
    raw.data().to_vec()
}

/// Frame type byte of link statistics frames.
pub const LINK_STATISTICS_TYPE: u8 = 0x14;

/// `Packet::from_raw`, keeping RC channel frames: the sixteen channels
/// where it gives `Packet::RcChannels`, else `None`. A frame parsed as RC
/// channels has the RC channels type byte. The crate reads the payload of
/// an RC channels frame (22 bytes) and of a link statistics frame (10 bytes)
/// without checking the frame's length, and panics on shorter frames;
/// `requires` leaves those out. Left unsaid: that each channel is below
/// 2048. The crate takes each channel from an 11-bit field and then applies
/// `u16::from_le`, so that bound holds on little-endian targets only.
#[verifier::external_body]
fn packet_rc_channels(raw: &RawPacket) -> (c: Option<[u16; 16]>)
    requires
        raw_packet_data(*raw).len() >= 4,
        raw_packet_data(*raw)[2] == RC_CHANNELS_PACKED_TYPE ==> raw_packet_data(*raw).len() >= 25,
        raw_packet_data(*raw)[2] == LINK_STATISTICS_TYPE ==> raw_packet_data(*raw).len() >= 13,
    ensures
        c matches Some(ch) ==> rc_channels_of(raw_packet_data(*raw)) == Some(ch@),
        c is None ==> rc_channels_of(raw_packet_data(*raw)) is None,
        c matches Some(ch) ==> raw_packet_data(*raw)[2] == RC_CHANNELS_PACKED_TYPE,
{
    match Packet::from_raw(raw) {
        Ok(Packet::RcChannels(ch)) => Some(ch.0),
        _ => None,
    }
}

/// The bytes a receiver can hold between two calls: nothing, or the start
/// of a frame for the flight controller: its address, then, if there, a
/// valid length byte and fewer bytes than that length announces.
pub open spec fn receiver_wf(s: Seq<u8>) -> bool {
    s.len() == 0 || (s[0] == FLIGHT_CONTROLLER_ADDRESS && (s.len() == 1 || (2 <= s[1] <= 62
        && s.len() < s[1] + 2)))
}

/// The frame that byte `b` completes in buffer `s`, if any.
pub open spec fn completed_frame(s: Seq<u8>, b: u8) -> Option<Seq<u8>> {
    let p = s.push(b);
    if s.len() > 0 && p.len() >= 2 && 2 <= p[1] <= 62 && p.len() == p[1] + 2 {
        Some(p)
    } else {
        None
    }
}

/// The bytes held after byte `b` came into buffer `s`. With nothing held,
/// bytes other than the flight controller's address are skipped: the
/// receiver synchronises on that address alone. A complete frame is taken
/// out. A frame start whose length byte is out of range is dropped, and
/// when that length byte is itself the address, a new frame starts there.
pub open spec fn receiver_next(s: Seq<u8>, b: u8) -> Seq<u8> {
    if s.len() == 0 {
        if b == FLIGHT_CONTROLLER_ADDRESS { seq![b] } else { s }
    } else {
        let p = s.push(b);
        if p.len() == 2 && !(2 <= p[1] <= 62) {
            if b == FLIGHT_CONTROLLER_ADDRESS { seq![b] } else { Seq::empty() }
        } else if p.len() == p[1] + 2 {
            Seq::empty()
        } else {
            p
        }
    }
}

/// The RC channels that a complete frame delivers: those of an RC channels
/// frame of full length that the `crsf` crate parses as such.
pub open spec fn delivered_channels(frame: Seq<u8>) -> Option<Seq<u16>> {
    if frame[2] == RC_CHANNELS_PACKED_TYPE && frame.len() >= 25 {
        rc_channels_of(frame)
    } else {
        None
    }
}

/// What the receiver delivers after byte `b` came into buffer `s`.
pub open spec fn on_byte_spec(s: Seq<u8>, b: u8) -> Option<Seq<u16>> {
    match completed_frame(s, b) {
        Some(frame) => delivered_channels(frame),
        None => None,
    }
}

/// A receiver of CRSF frames on a serial line.
pub struct CrsfReceiver {
    parser: PacketParser<64>,
    held: usize,
}

impl View for CrsfReceiver {
    type V = Seq<u8>;

    /// The bytes held, waiting to complete a frame.
    closed spec fn view(&self) -> Seq<u8> {
        parser_buffer(self.parser)
    }
}

impl CrsfReceiver {
    /// The receiver's invariant: what it holds is a frame start
    /// (`receiver_wf`), and it knows how many bytes it holds.
    pub closed spec fn wf(&self) -> bool {
        &&& receiver_wf(self@)
        &&& self.held == self@.len()
    }

    /// A receiver holding no bytes.
    pub fn new() -> (r: CrsfReceiver)
        ensures
            r@ == Seq::<u8>::empty(),
            r.wf(),
    {
        CrsfReceiver { parser: parser_new(), held: 0 }
    }

    /// Takes one byte from the line; returns the channels of the RC frame
    /// that it completes, if any.
    pub fn on_byte(&mut self, byte: u8) -> (c: Option<[u16; 16]>)
        requires
            old(self).wf(),
        ensures
            final(self).wf(),
            final(self)@ == receiver_next(old(self)@, byte),
            c matches Some(ch) ==> on_byte_spec(old(self)@, byte) == Some(ch@),
            c is None ==> on_byte_spec(old(self)@, byte) is None,
            c is Some ==> ({
                let frame = completed_frame(old(self)@, byte)->0;
                &&& completed_frame(old(self)@, byte) is Some
                &&& frame[0] == FLIGHT_CONTROLLER_ADDRESS
                &&& frame[2] == RC_CHANNELS_PACKED_TYPE
                &&& frame.len() >= 25
            }),
    {
        let ghost s = self@;
        if self.held == 0 && byte != FLIGHT_CONTROLLER_ADDRESS {
            return None;
        }
        parser_push_byte(&mut self.parser, byte);
        let ghost p = s.push(byte);
        proof {
            assert(parser_buffer(self.parser) == p);
            assert(p[0] == FLIGHT_CONTROLLER_ADDRESS);
            assert(synced(p) == p);
        }
        match parser_next_raw(&mut self.parser) {
            Some(Ok(raw)) => {
                proof {
                    assert(p.take(p.len() as int) =~= p);
                }
                self.held = 0;
                let data = raw_packet_bytes(&raw);
                if data.len() >= 25 && data[2] == RC_CHANNELS_PACKED_TYPE {
                    packet_rc_channels(&raw)
                } else {
                    None
                }
            },
            Some(Err(_)) => {
                self.held = 0;
                if byte == FLIGHT_CONTROLLER_ADDRESS {
                    parser_push_byte(&mut self.parser, byte);
                    self.held = 1;
                    assert(parser_buffer(self.parser) =~= seq![byte]);
                } else {
                    assert(parser_buffer(self.parser) =~= Seq::<u8>::empty());
                }
                None
            },
            None => {
                self.held = self.held + 1;
                None
            },
        }
    }

    /// A read error or timeout on the line: the bytes held are dropped.
    pub fn on_read_error(&mut self)
        ensures
            final(self).wf(),
            final(self)@ == Seq::<u8>::empty(),
    {
        parser_clear(&mut self.parser);
        self.held = 0;
    }
}

/// A receiver that keeps its invariant holds nothing but a frame start.
pub proof fn lemma_receiver_holds_frame_start(r: CrsfReceiver)
    requires
        r.wf(),
    ensures
        receiver_wf(r@),
        r@.len() < 64,
{
}

/// The bytes held after feeding `bytes` one by one into buffer `s`.
pub open spec fn feed_buffer(s: Seq<u8>, bytes: Seq<u8>) -> Seq<u8>
    decreases bytes.len(),
{
    if bytes.len() == 0 {
        s
    } else {
        receiver_next(feed_buffer(s, bytes.drop_last()), bytes.last())
    }
}

/// What each byte delivers when `bytes` are fed one by one into buffer `s`.
pub open spec fn feed_outputs(s: Seq<u8>, bytes: Seq<u8>) -> Seq<Option<Seq<u16>>>
    decreases bytes.len(),
{
    if bytes.len() == 0 {
        Seq::empty()
    } else {
        feed_outputs(s, bytes.drop_last()).push(
            on_byte_spec(feed_buffer(s, bytes.drop_last()), bytes.last()),
        )
    }
}

/// A complete frame for the flight controller: its address, a valid
/// length byte, and as many bytes as that announces.
pub open spec fn is_fc_frame(f: Seq<u8>) -> bool {
    &&& f.len() >= 2
    &&& f[0] == FLIGHT_CONTROLLER_ADDRESS
    &&& 2 <= f[1] <= 62
    &&& f.len() == f[1] + 2
}

/// What feeding a complete frame delivers: nothing until its last byte,
/// then what the frame delivers.
pub open spec fn frame_outputs(f: Seq<u8>) -> Seq<Option<Seq<u16>>> {
    Seq::new(f.len(), |i: int| if i == f.len() - 1 { delivered_channels(f) } else { None })
}

/// The bytes of a sequence of frames, one after the other.
pub open spec fn concat_frames(frames: Seq<Seq<u8>>) -> Seq<u8>
    decreases frames.len(),
{
    if frames.len() == 0 {
        Seq::empty()
    } else {
        concat_frames(frames.drop_last()) + frames.last()
    }
}

/// What feeding a sequence of frames delivers, frame after frame.
pub open spec fn concat_frame_outputs(frames: Seq<Seq<u8>>) -> Seq<Option<Seq<u16>>>
    decreases frames.len(),
{
    if frames.len() == 0 {
        Seq::empty()
    } else {
        concat_frame_outputs(frames.drop_last()) + frame_outputs(frames.last())
    }
}

/// Feeding two runs of bytes one after the other is feeding the first,
/// then the second from where the first left the receiver.
pub proof fn lemma_feed_append(s: Seq<u8>, a: Seq<u8>, b: Seq<u8>)
    ensures
        feed_buffer(s, a + b) == feed_buffer(feed_buffer(s, a), b),
        feed_outputs(s, a + b) == feed_outputs(s, a) + feed_outputs(feed_buffer(s, a), b),
    decreases b.len(),
{
    if b.len() == 0 {
        assert(a + b =~= a);
        assert(feed_outputs(s, a) + feed_outputs(feed_buffer(s, a), b) =~= feed_outputs(s, a));
    } else {
        lemma_feed_append(s, a, b.drop_last());
        assert((a + b).drop_last() =~= a + b.drop_last());
        assert((a + b).last() == b.last());
        assert(feed_outputs(s, a + b) =~= feed_outputs(s, a) + feed_outputs(feed_buffer(s, a), b));
    }
}

/// Feeding the first `k` bytes of a frame to an empty receiver leaves it
/// holding them and delivers nothing.
proof fn lemma_frame_prefix(f: Seq<u8>, k: int)
    requires
        is_fc_frame(f),
        0 <= k < f.len(),
    ensures
        feed_buffer(Seq::empty(), f.take(k)) == f.take(k),
        feed_outputs(Seq::empty(), f.take(k)) == Seq::new(k as nat, |i: int| None::<Seq<u16>>),
    decreases k,
{
    if k > 0 {
        lemma_frame_prefix(f, k - 1);
        assert(f.take(k).drop_last() =~= f.take(k - 1));
        let prev = f.take(k - 1);
        let b = f[k - 1];
        if k == 1 {
            assert(receiver_next(prev, b) =~= f.take(1));
        } else {
            assert(prev.push(b) =~= f.take(k));
            assert(receiver_next(prev, b) =~= f.take(k));
            assert(completed_frame(prev, b) is None);
        }
        assert(feed_outputs(Seq::empty(), f.take(k)) =~= Seq::new(k as nat, |i: int| None::<Seq<u16>>));
    } else {
        assert(f.take(0) =~= Seq::<u8>::empty());
        assert(feed_outputs(Seq::empty(), f.take(0)) =~= Seq::new(0, |i: int| None::<Seq<u16>>));
    }
}

/// A complete frame fed to an empty receiver delivers what it carries
/// exactly once, at its last byte, and leaves the receiver empty.
pub proof fn lemma_frame_delivered_once(f: Seq<u8>)
    requires
        is_fc_frame(f),
    ensures
        feed_buffer(Seq::empty(), f) == Seq::<u8>::empty(),
        feed_outputs(Seq::empty(), f) == frame_outputs(f),
{
    let k = f.len() - 1;
    lemma_frame_prefix(f, k);
    assert(f.take(k) =~= f.drop_last());
    assert(f.drop_last().push(f.last()) =~= f);
    assert(completed_frame(f.drop_last(), f.last()) == Some(f));
    assert(feed_outputs(Seq::empty(), f) =~= frame_outputs(f));
}

/// Frames fed back to back to an empty receiver are each delivered exactly
/// once, at their last byte, in order, and the receiver ends empty.
pub proof fn lemma_frames_delivered_once(frames: Seq<Seq<u8>>)
    requires
        forall|i: int| 0 <= i < frames.len() ==> is_fc_frame(#[trigger] frames[i]),
    ensures
        feed_buffer(Seq::empty(), concat_frames(frames)) == Seq::<u8>::empty(),
        feed_outputs(Seq::empty(), concat_frames(frames)) == concat_frame_outputs(frames),
    decreases frames.len(),
{
    if frames.len() > 0 {
        let init = frames.drop_last();
        lemma_frames_delivered_once(init);
        lemma_feed_append(Seq::empty(), concat_frames(init), frames.last());
        lemma_frame_delivered_once(frames.last());
    }
}

/// Bytes other than the flight controller's address fed to an empty
/// receiver are skipped: it stays empty and delivers nothing.
pub proof fn lemma_noise_skipped(bytes: Seq<u8>)
    requires
        forall|i: int| 0 <= i < bytes.len() ==> #[trigger] bytes[i] != FLIGHT_CONTROLLER_ADDRESS,
    ensures
        feed_buffer(Seq::empty(), bytes) == Seq::<u8>::empty(),
        feed_outputs(Seq::empty(), bytes) == Seq::new(bytes.len(), |i: int| None::<Seq<u16>>),
    decreases bytes.len(),
{
    if bytes.len() > 0 {
        lemma_noise_skipped(bytes.drop_last());
        assert(bytes.last() != FLIGHT_CONTROLLER_ADDRESS);
        assert(feed_outputs(Seq::empty(), bytes) =~= Seq::new(bytes.len(), |i: int| None::<Seq<u16>>));
    } else {
        assert(feed_outputs(Seq::empty(), bytes) =~= Seq::new(0, |i: int| None::<Seq<u16>>));
    }
}

} // verus!
