//! SBUS receiver protocol of the ET16S transmitter: frame alignment on the
//! start byte and decoding of the sixteen 11-bit channels.

use vstd::prelude::*;

verus! {

/// The failsafe and frame-lost bits of the SBUS flags byte.
pub const DISCONNECT_FLAG_MASK: u8 = 0b0000_1100;

/// Length of an SBUS packet in bytes.
pub const PACKET_LEN: usize = 25;

/// The start byte of an SBUS packet.
pub const START_BYTE: u8 = 0x0F;

/// One decoded SBUS frame.
#[derive(Clone, Copy, Debug)]
pub struct Et16sFrame {
    /// The sixteen proportional channels, 11 bits each.
    pub channels: [u16; 16],
    /// The flags byte (digital channels, frame lost, failsafe).
    pub flags: u8,
}

impl Et16sFrame {
    /// `true` when the receiver reports a lost frame or failsafe.
    pub fn disconnected(&self) -> (r: bool)
        ensures
            r == (self.flags & 0x0Cu8 != 0),
    {
        self.flags & DISCONNECT_FLAG_MASK != 0
    }
}

/// The three packet bytes holding channel `k`, as a little-endian word.
pub open spec fn channel_window(p: Seq<u8>, k: int) -> u32 {
    let s = 1 + (11 * k) / 8;
    (p[s] as u32) | ((p[s + 1] as u32) << 8u32) | ((p[s + 2] as u32) << 16u32)
}

/// Channel `k` of a packet: the 11 bits starting at bit `11 * k` of the
/// little-endian payload that follows the start byte.
pub open spec fn sbus_channel(p: Seq<u8>, k: int) -> u16 {
    ((channel_window(p, k) >> (((11 * k) % 8) as u32)) & 0x7FFu32) as u16
}

/// `f` is the frame carried by packet `p`.
pub open spec fn frame_of(f: Et16sFrame, p: Seq<u8>) -> bool {
    &&& forall|k: int| 0 <= k < 16 ==> #[trigger] f.channels@[k] == sbus_channel(p, k)
    &&& f.flags == p[23]
}

/// Decodes the sixteen channels and the flags byte of a 25-byte SBUS packet.
pub fn parse_sbus_packet(packet: &[u8; 25]) -> (f: Et16sFrame)
    ensures
        frame_of(f, packet@),
{
    let p = packet;
    let mut channels = [0u16; 16];
    let (b1, b2, b3, b4, b5, b6) = (p[1] as u16, p[2] as u16, p[3] as u16, p[4] as u16, p[5] as u16, p[6] as u16);
    let (b7, b8, b9, b10, b11) = (p[7] as u16, p[8] as u16, p[9] as u16, p[10] as u16, p[11] as u16);
    let (b12, b13, b14, b15, b16) = (p[12] as u16, p[13] as u16, p[14] as u16, p[15] as u16, p[16] as u16);
    let (b17, b18, b19, b20, b21, b22) = (p[17] as u16, p[18] as u16, p[19] as u16, p[20] as u16, p[21] as u16, p[22] as u16);
    channels[0] = (b1 | (b2 << 8)) & 0x07FF;
    channels[1] = ((b2 >> 3) | (b3 << 5)) & 0x07FF;
    channels[2] = ((b3 >> 6) | (b4 << 2) | (b5 << 10)) & 0x07FF;
    channels[3] = ((b5 >> 1) | (b6 << 7)) & 0x07FF;
    channels[4] = ((b6 >> 4) | (b7 << 4)) & 0x07FF;
    channels[5] = ((b7 >> 7) | (b8 << 1) | (b9 << 9)) & 0x07FF;
    channels[6] = ((b9 >> 2) | (b10 << 6)) & 0x07FF;
    channels[7] = ((b10 >> 5) | (b11 << 3)) & 0x07FF;
    channels[8] = (b12 | (b13 << 8)) & 0x07FF;
    channels[9] = ((b13 >> 3) | (b14 << 5)) & 0x07FF;
    channels[10] = ((b14 >> 6) | (b15 << 2) | (b16 << 10)) & 0x07FF;
    channels[11] = ((b16 >> 1) | (b17 << 7)) & 0x07FF;
    channels[12] = ((b17 >> 4) | (b18 << 4)) & 0x07FF;
    channels[13] = ((b18 >> 7) | (b19 << 1) | (b20 << 9)) & 0x07FF;
    channels[14] = ((b20 >> 2) | (b21 << 6)) & 0x07FF;
    channels[15] = ((b21 >> 5) | (b22 << 3)) & 0x07FF;
    proof {
        assert(b1 >> 0u16 == b1 && b12 >> 0u16 == b12) by (bit_vector);
        lemma_channels_0_7(p@, channels@);
        lemma_channels_8_15(p@, channels@);
    }
    Et16sFrame { channels, flags: p[23] }
}

proof fn lemma_channel2(lo: u8, hi: u8, x: u8, shift: u32, c: u16)
    requires
        shift < 8,
        c == ((((lo as u16) >> (shift as u16)) | ((hi as u16) << ((8 - shift) as u16))) & 0x07FF),
        shift + 11 <= 16,
    ensures
        c == (((((lo as u32) | ((hi as u32) << 8u32) | ((x as u32) << 16u32)) >> shift) & 0x7FFu32) as u16),
{
    assert(c == (((((lo as u32) | ((hi as u32) << 8u32) | ((x as u32) << 16u32)) >> shift) & 0x7FFu32) as u16))
        by (bit_vector)
        requires
            shift < 8,
            shift + 11 <= 16,
            c == ((((lo as u16) >> (shift as u16)) | ((hi as u16) << ((8 - shift) as u16))) & 0x07FF),
    ;
}

proof fn lemma_channel3(lo: u8, mid: u8, hi: u8, shift: u32, c: u16)
    requires
        5 < shift < 8,
        c == ((((lo as u16) >> (shift as u16)) | ((mid as u16) << ((8 - shift) as u16))
            | ((hi as u16) << ((16 - shift) as u16))) & 0x07FF),
    ensures
        c == (((((lo as u32) | ((mid as u32) << 8u32) | ((hi as u32) << 16u32)) >> shift) & 0x7FFu32) as u16),
{
    assert(c == (((((lo as u32) | ((mid as u32) << 8u32) | ((hi as u32) << 16u32)) >> shift) & 0x7FFu32) as u16))
        by (bit_vector)
        requires
            5 < shift < 8,
            c == ((((lo as u16) >> (shift as u16)) | ((mid as u16) << ((8 - shift) as u16))
                | ((hi as u16) << ((16 - shift) as u16))) & 0x07FF),
    ;
}

proof fn lemma_channels_0_7(p: Seq<u8>, c: Seq<u16>)
    requires
        p.len() == 25,
        c.len() == 16,
        c[0] == (((p[1] as u16) >> 0u16) | ((p[2] as u16) << 8u16)) & 0x07FF,
        c[1] == (((p[2] as u16) >> 3u16) | ((p[3] as u16) << 5u16)) & 0x07FF,
        c[2] == (((p[3] as u16) >> 6u16) | ((p[4] as u16) << 2u16) | ((p[5] as u16) << 10u16)) & 0x07FF,
        c[3] == (((p[5] as u16) >> 1u16) | ((p[6] as u16) << 7u16)) & 0x07FF,
        c[4] == (((p[6] as u16) >> 4u16) | ((p[7] as u16) << 4u16)) & 0x07FF,
        c[5] == (((p[7] as u16) >> 7u16) | ((p[8] as u16) << 1u16) | ((p[9] as u16) << 9u16)) & 0x07FF,
        c[6] == (((p[9] as u16) >> 2u16) | ((p[10] as u16) << 6u16)) & 0x07FF,
        c[7] == (((p[10] as u16) >> 5u16) | ((p[11] as u16) << 3u16)) & 0x07FF,
    ensures
        forall|k: int| 0 <= k < 8 ==> #[trigger] c[k] == sbus_channel(p, k),
{
    lemma_channel2(p[1], p[2], p[3], 0, c[0]);
    lemma_channel2(p[2], p[3], p[4], 3, c[1]);
    lemma_channel3(p[3], p[4], p[5], 6, c[2]);
    lemma_channel2(p[5], p[6], p[7], 1, c[3]);
    lemma_channel2(p[6], p[7], p[8], 4, c[4]);
    lemma_channel3(p[7], p[8], p[9], 7, c[5]);
    lemma_channel2(p[9], p[10], p[11], 2, c[6]);
    lemma_channel2(p[10], p[11], p[12], 5, c[7]);
}

proof fn lemma_channels_8_15(p: Seq<u8>, c: Seq<u16>)
    requires
        p.len() == 25,
        c.len() == 16,
        c[8] == (((p[12] as u16) >> 0u16) | ((p[13] as u16) << 8u16)) & 0x07FF,
        c[9] == (((p[13] as u16) >> 3u16) | ((p[14] as u16) << 5u16)) & 0x07FF,
        c[10] == (((p[14] as u16) >> 6u16) | ((p[15] as u16) << 2u16) | ((p[16] as u16) << 10u16)) & 0x07FF,
        c[11] == (((p[16] as u16) >> 1u16) | ((p[17] as u16) << 7u16)) & 0x07FF,
        c[12] == (((p[17] as u16) >> 4u16) | ((p[18] as u16) << 4u16)) & 0x07FF,
        c[13] == (((p[18] as u16) >> 7u16) | ((p[19] as u16) << 1u16) | ((p[20] as u16) << 9u16)) & 0x07FF,
        c[14] == (((p[20] as u16) >> 2u16) | ((p[21] as u16) << 6u16)) & 0x07FF,
        c[15] == (((p[21] as u16) >> 5u16) | ((p[22] as u16) << 3u16)) & 0x07FF,
    ensures
        forall|k: int| 8 <= k < 16 ==> #[trigger] c[k] == sbus_channel(p, k),
{
    lemma_channel2(p[12], p[13], p[14], 0, c[8]);
    lemma_channel2(p[13], p[14], p[15], 3, c[9]);
    lemma_channel3(p[14], p[15], p[16], 6, c[10]);
    lemma_channel2(p[16], p[17], p[18], 1, c[11]);
    lemma_channel2(p[17], p[18], p[19], 4, c[12]);
    lemma_channel3(p[18], p[19], p[20], 7, c[13]);
    lemma_channel2(p[20], p[21], p[22], 2, c[14]);
    lemma_channel2(p[21], p[22], p[23], 5, c[15]);
}

/// The parser's next state (its buffered bytes) after `byte`, and whether the
/// byte completes a packet that is passed on.
///
/// While idle only the start byte 0x0F begins a packet; other bytes are
/// dropped. Once 25 bytes are buffered the parser becomes idle again and passes
/// the packet on when its last byte is 0x00, the end byte that keeps packets
/// aligned.
pub open spec fn push_step(buffered: Seq<u8>, byte: u8) -> (Seq<u8>, bool) {
    if buffered.len() == 0 {
        if byte != 0x0F {
            (Seq::empty(), false)
        } else {
            (seq![byte], false)
        }
    } else if buffered.len() + 1 < 25 {
        (buffered.push(byte), false)
    } else {
        (Seq::empty(), byte == 0)
    }
}

/// A parser buffer (fewer than 25 bytes) that is empty or begins with the start
/// byte stays so after any byte, and a packet is passed on only when it is the
/// 25th byte of a packet that began with the start byte.
pub proof fn lemma_push_keeps_start(buffered: Seq<u8>, byte: u8)
    requires
        buffered.len() < 25,
        buffered.len() == 0 || buffered[0] == 0x0F,
    ensures
        push_step(buffered, byte).0.len() == 0 || push_step(buffered, byte).0[0] == 0x0F,
        push_step(buffered, byte).1 ==> buffered.push(byte)[0] == 0x0F && buffered.len() == 24,
{
}

/// Incremental SBUS packet parser.
pub struct SbusParser {
    buffer: [u8; 25],
    index: usize,
}

impl SbusParser {
    #[verifier::type_invariant]
    spec fn inv(self) -> bool {
        &&& self.index < 25
        &&& self.index > 0 ==> self.buffer[0] == 0x0F
    }

    /// The bytes of the packet being received.
    pub closed spec fn buffered(self) -> Seq<u8> {
        self.buffer@.subrange(0, self.index as int)
    }

    /// Creates an idle parser.
    pub fn new() -> (p: SbusParser)
        ensures
            p.buffered() == Seq::<u8>::empty(),
    {
        let p = SbusParser { buffer: [0; 25], index: 0 };
        assert(p.buffered() =~= Seq::<u8>::empty());
        p
    }

    /// Feeds one received byte; returns the frame a completed packet carries.
    pub fn push(&mut self, byte: u8) -> (r: Option<Et16sFrame>)
        ensures
            final(self).buffered() == push_step(old(self).buffered(), byte).0,
            r is Some == push_step(old(self).buffered(), byte).1,
            r matches Some(f) ==> frame_of(f, old(self).buffered().push(byte)),
            old(self).buffered().len() < 25,
            old(self).buffered().len() == 0 || old(self).buffered()[0] == 0x0F,
    {
        proof { use_type_invariant(&*self); }
        if self.index == 0 {
            if byte != START_BYTE {
                return None;
            }
            self.buffer[0] = byte;
            self.index = 1;
            proof { assert(self.buffered() =~= seq![byte]); }
            return None;
        }
        let ghost before = self.buffered();
        let ghost old_buffer = self.buffer@;
        let at = self.index;
        self.buffer[at] = byte;
        assert(self.buffer@.subrange(0, at + 1) =~= before.push(byte)) by {
            assert(old_buffer.subrange(0, at as int) == before);
        }
        if at + 1 < PACKET_LEN {
            self.index = at + 1;
            return None;
        }
        self.index = 0;
        proof { assert(self.buffered() =~= Seq::<u8>::empty()); }
        if self.buffer[24] != 0x00 {
            return None;
        }
        assert(self.buffer@ =~= before.push(byte));
        Some(parse_sbus_packet(&self.buffer))
    }
}

/// A parser that starts idle takes a packet that begins with the start byte and
/// ends with the end byte one byte at a time: every proper prefix is buffered
/// without output, and the last byte emits the frame and leaves the parser idle.
pub proof fn lemma_packet_is_emitted_once(p: Seq<u8>)
    requires
        p.len() == 25,
        p[0] == 0x0F,
        p[24] == 0,
    ensures
        push_step(Seq::empty(), p[0]) == (p.subrange(0, 1), false),
        forall|i: int| 1 <= i < 24 ==> #[trigger] push_step(p.subrange(0, i), p[i]) == (p.subrange(0, i + 1), false),
        push_step(p.subrange(0, 24), p[24]) == (Seq::<u8>::empty(), true),
        p.subrange(0, 24).push(p[24]) == p,
{
    assert(p.subrange(0, 1) =~= seq![p[0]]);
    assert forall|i: int| 1 <= i < 24 implies #[trigger] push_step(p.subrange(0, i), p[i]) == (p.subrange(0, i + 1), false) by {
        assert(p.subrange(0, i).push(p[i]) =~= p.subrange(0, i + 1));
    }
    assert(p.subrange(0, 24).push(p[24]) =~= p);
}

/// Every channel of a frame fits in 11 bits.
pub proof fn lemma_channels_fit(p: Seq<u8>, k: int)
    ensures
        sbus_channel(p, k) < 2048,
{
    let w = channel_window(p, k);
    let s = ((11 * k) % 8) as u32;
    assert(((w >> s) & 0x7FFu32) < 2048) by (bit_vector);
}

} // verus!
