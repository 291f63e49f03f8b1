//! FlexCAN register map: offsets, bit fields and the encoders and decoders of
//! message-buffer words.

use vstd::prelude::*;

verus! {

/// Pad control value applied to the CAN TX / RX pads.
pub const CAN_PAD_CTL: u32 = 0x10B0;

/// Offset of the module configuration register (MCR).
pub const REG_MCR: usize = 0x00;
/// Offset of control register 1 (CTRL1).
pub const REG_CTRL1: usize = 0x04;
/// Offset of the free running timer; reading it unlocks a locked mailbox.
pub const REG_TIMER: usize = 0x08;
/// Offset of the RX mailboxes global mask register (RXMGMASK).
pub const REG_RXMGMASK: usize = 0x10;
/// Offset of the interrupt mask register for mailboxes 32..63 (IMASK2).
pub const REG_IMASK2: usize = 0x24;
/// Offset of the interrupt mask register for mailboxes 0..31 (IMASK1).
pub const REG_IMASK1: usize = 0x28;
/// Offset of the interrupt flag register for mailboxes 32..63 (IFLAG2).
pub const REG_IFLAG2: usize = 0x2C;
/// Offset of the interrupt flag register for mailboxes 0..31 (IFLAG1).
pub const REG_IFLAG1: usize = 0x30;
/// Offset of control register 2 (CTRL2).
pub const REG_CTRL2: usize = 0x34;
/// Offset of the RX FIFO global mask register (RXFGMASK).
pub const REG_RXFGMASK: usize = 0x48;
/// Offset of the first individual RX mask register (RXIMR0).
pub const REG_RXIMR0: usize = 0x880;

/// MCR: module disable.
pub const MCR_MDIS: u32 = 0x8000_0000;
/// MCR: freeze enable.
pub const MCR_FRZ: u32 = 0x4000_0000;
/// MCR: RX FIFO enable.
pub const MCR_FEN: u32 = 0x2000_0000;
/// MCR: halt.
pub const MCR_HALT: u32 = 0x1000_0000;
/// MCR: not ready.
pub const MCR_NOTRDY: u32 = 0x0800_0000;
/// MCR: wake-up interrupt mask.
pub const MCR_WAKMSK: u32 = 0x0400_0000;
/// MCR: soft reset.
pub const MCR_SOFTRST: u32 = 0x0200_0000;
/// MCR: freeze mode acknowledge.
pub const MCR_FRZACK: u32 = 0x0100_0000;
/// MCR: self wake-up.
pub const MCR_SLFWAK: u32 = 0x0040_0000;
/// MCR: warning interrupt enable.
pub const MCR_WRNEN: u32 = 0x0020_0000;
/// MCR: low-power mode acknowledge.
pub const MCR_LPMACK: u32 = 0x0010_0000;
/// MCR: wake-up source.
pub const MCR_WAKSRC: u32 = 0x0008_0000;
/// MCR: self reception disable.
pub const MCR_SRXDIS: u32 = 0x0002_0000;
/// MCR: individual RX masking and queue enable.
pub const MCR_IRMQ: u32 = 0x0001_0000;
/// MCR: DMA enable.
pub const MCR_DMA: u32 = 0x0000_8000;
/// MCR: local priority enable.
pub const MCR_LPRIOEN: u32 = 0x0000_2000;
/// MCR: abort enable.
pub const MCR_AEN: u32 = 0x0000_1000;
/// MCR: bit 11 (flexible data rate enable), kept cleared.
pub const MCR_FDEN: u32 = 0x0000_0800;
/// MCR: the MAXMB field (index of the last message buffer).
pub const MCR_MAXMB_MASK: u32 = 0x7F;

/// CTRL1: listen-only mode.
pub const CTRL1_LOM: u32 = 0x0000_0008;
/// CTRL1: error interrupt mask.
pub const CTRL1_ERRMSK: u32 = 0x0000_4000;

/// CTRL2: entire frame arbitration field comparison enable.
pub const CTRL2_EACEN: u32 = 0x0001_0000;
/// CTRL2: remote request storing.
pub const CTRL2_RRS: u32 = 0x0002_0000;
/// CTRL2: mailboxes reception priority.
pub const CTRL2_MRP: u32 = 0x0004_0000;
/// CTRL2: shift of the RFFN (number of RX FIFO filters) field.
pub const CTRL2_RFFN_SHIFT: u32 = 24;

/// Message buffer CS word: shift of the CODE field.
pub const MB_CS_CODE_SHIFT: u32 = 24;
/// Message buffer CS word: mask of the CODE field.
pub const MB_CS_CODE_MASK: u32 = 0x0F00_0000;
/// Message buffer CS word: substitute remote request.
pub const MB_CS_SRR: u32 = 0x0040_0000;
/// Message buffer CS word: identifier extension.
pub const MB_CS_IDE: u32 = 0x0020_0000;
/// Message buffer CS word: remote transmission request.
pub const MB_CS_RTR: u32 = 0x0010_0000;
/// Message buffer CS word: shift of the DLC field.
pub const MB_CS_DLC_SHIFT: u32 = 16;
/// Message buffer CS word: mask of the time stamp field.
pub const MB_CS_TIMESTAMP_MASK: u32 = 0xFFFF;

/// Message buffer code: inactive receive buffer.
pub const MB_CODE_RX_INACTIVE: u32 = 0x0;
/// Message buffer code: empty receive buffer.
pub const MB_CODE_RX_EMPTY: u32 = 0x4;
/// Message buffer code: full receive buffer.
pub const MB_CODE_RX_FULL: u32 = 0x2;
/// Message buffer code: receive buffer overrun.
pub const MB_CODE_RX_OVERRUN: u32 = 0x6;
/// Message buffer code: inactive transmit buffer.
pub const MB_CODE_TX_INACTIVE: u32 = 0x8;
/// Message buffer code: aborted transmit buffer.
pub const MB_CODE_TX_ABORT: u32 = 0x9;
/// Message buffer code: transmit the frame once.
pub const MB_CODE_TX_ONCE: u32 = 0xC;

/// Mask of a 29-bit extended identifier.
pub const MB_ID_EXT_MASK: u32 = 0x1FFF_FFFF;
/// Shift of an 11-bit standard identifier in the ID word.
pub const MB_ID_STD_SHIFT: u32 = 18;

/// The four big-endian bytes of a word, most significant first.
pub open spec fn be_bytes(word: u32) -> Seq<u8> {
    seq![(word >> 24u32) as u8, (word >> 16u32) as u8, (word >> 8u32) as u8, word as u8]
}

/// The word whose big-endian bytes are `b0 b1 b2 b3`.
pub open spec fn be_word(b0: u8, b1: u8, b2: u8, b3: u8) -> int {
    b0 * 0x100_0000 + b1 * 0x1_0000 + b2 * 0x100 + b3
}

/// The byte offset of message buffer `index` (its CS word).
pub fn mailbox_offset(index: u8) -> (r: usize)
    ensures
        r == 0x80 + index * 0x10,
{
    0x80 + index as usize * 0x10
}

/// Places a message buffer code into the CODE field of a CS word.
pub fn mb_code(code: u32) -> (r: u32)
    ensures
        r == code << 24u32,
        code < 16 ==> r == code * 0x100_0000,
{
    assert(code < 16 ==> code << 24u32 == code * 0x100_0000) by (bit_vector);
    code << MB_CS_CODE_SHIFT
}

/// Extracts the CODE field of a CS word.
pub fn mb_code_value(cs: u32) -> (r: u32)
    ensures
        r == (cs >> 24u32) % 16,
        r < 16,
{
    assert((cs & 0x0F00_0000) >> 24u32 == (cs >> 24u32) % 16) by (bit_vector);
    (cs & MB_CS_CODE_MASK) >> MB_CS_CODE_SHIFT
}

/// Encodes an 11-bit standard identifier into an ID word (bits 18..28).
pub fn mb_id_std(id: u32) -> (r: u32)
    ensures
        r == (id % 0x800) * 0x4_0000,
{
    assert((id & 0x7FF) << 18u32 == (id % 0x800) * 0x4_0000) by (bit_vector);
    (id & 0x7FF) << MB_ID_STD_SHIFT
}

/// Encodes a 29-bit extended identifier into an ID word (bits 0..28).
pub fn mb_id_ext(id: u32) -> (r: u32)
    ensures
        r == id % 0x2000_0000,
{
    assert(id & 0x1FFF_FFFF == id % 0x2000_0000) by (bit_vector);
    id & MB_ID_EXT_MASK
}

/// The CS word of an empty receive buffer, with IDE and SRR set for extended
/// identifiers.
pub fn rx_empty_cs(extended: bool) -> (r: u32)
    ensures
        r == if extended { 0x0460_0000u32 } else { 0x0400_0000u32 },
{
    let code = mb_code(MB_CODE_RX_EMPTY);
    assert(0x0400_0000u32 | (0x0020_0000u32 | 0x0040_0000u32) == 0x0460_0000u32
        && 0x0400_0000u32 | 0u32 == 0x0400_0000u32) by (bit_vector);
    if extended {
        code | (MB_CS_IDE | MB_CS_SRR)
    } else {
        code | 0
    }
}

/// `true` when the CODE field of a CS word denotes a transmit buffer.
pub fn mb_is_tx(cs: u32) -> (r: bool)
    ensures
        r == ((cs >> 24u32) % 16 >= 8),
{
    let v = mb_code_value(cs);
    assert(v < 16 ==> ((v >> 3u32 != 0) == (v >= 8))) by (bit_vector);
    v >> 3 != 0
}

/// Packs the first four bytes of `bytes` into a word, most significant first.
pub fn pack_word(bytes: &[u8]) -> (r: u32)
    requires
        bytes@.len() >= 4,
    ensures
        r == be_word(bytes@[0], bytes@[1], bytes@[2], bytes@[3]),
{
    let b0 = bytes[0];
    let b1 = bytes[1];
    let b2 = bytes[2];
    let b3 = bytes[3];
    let r = ((b0 as u32) << 24) | ((b1 as u32) << 16) | ((b2 as u32) << 8) | (b3 as u32);
    assert(r == b0 * 0x100_0000 + b1 * 0x1_0000 + b2 * 0x100 + b3) by (bit_vector)
        requires
            r == ((b0 as u32) << 24u32) | ((b1 as u32) << 16u32) | ((b2 as u32) << 8u32) | (b3 as u32),
    ;
    r
}

/// Writes `word` into the first four bytes of `out`, most significant first.
pub fn unpack_word(word: u32, out: &mut [u8])
    requires
        old(out)@.len() >= 4,
    ensures
        final(out)@.len() == old(out)@.len(),
        final(out)@.subrange(0, 4) == be_bytes(word),
        final(out)@.subrange(4, old(out)@.len() as int) == old(out)@.subrange(4, old(out)@.len() as int),
{
    out[0] = (word >> 24) as u8;
    out[1] = (word >> 16) as u8;
    out[2] = (word >> 8) as u8;
    out[3] = word as u8;
    assert(out@.subrange(0, 4) =~= be_bytes(word));
    assert(out@.subrange(4, out@.len() as int) =~= old(out)@.subrange(4, old(out)@.len() as int));
}

/// Unpacking a word and packing its bytes again gives the word back.
pub proof fn lemma_pack_unpack_word(word: u32)
    ensures
        be_word(be_bytes(word)[0], be_bytes(word)[1], be_bytes(word)[2], be_bytes(word)[3]) == word,
{
    let b0 = (word >> 24u32) as u8;
    let b1 = (word >> 16u32) as u8;
    let b2 = (word >> 8u32) as u8;
    let b3 = word as u8;
    assert(b0 * 0x100_0000 + b1 * 0x1_0000 + b2 * 0x100 + b3 == word) by (bit_vector)
        requires
            b0 == (word >> 24u32) as u8,
            b1 == (word >> 16u32) as u8,
            b2 == (word >> 8u32) as u8,
            b3 == word as u8,
    ;
}

/// Packing four bytes into a word and unpacking it gives the same bytes back.
pub proof fn lemma_unpack_pack_word(b0: u8, b1: u8, b2: u8, b3: u8)
    ensures
        be_word(b0, b1, b2, b3) <= u32::MAX,
        be_bytes(be_word(b0, b1, b2, b3) as u32) == seq![b0, b1, b2, b3],
{
    let w = be_word(b0, b1, b2, b3);
    assert(w <= u32::MAX) by (nonlinear_arith)
        requires
            w == b0 * 0x100_0000 + b1 * 0x1_0000 + b2 * 0x100 + b3,
            b0 < 256,
            b1 < 256,
            b2 < 256,
            b3 < 256,
    ;
    let wu = w as u32;
    assert(((wu >> 24u32) as u8) == b0 && ((wu >> 16u32) as u8) == b1 && ((wu >> 8u32) as u8) == b2
        && (wu as u8) == b3) by (bit_vector)
        requires
            wu == b0 * 0x100_0000 + b1 * 0x1_0000 + b2 * 0x100 + b3,
    ;
    assert(be_bytes(wu) =~= seq![b0, b1, b2, b3]);
}

/// The CODE field read back from a CS word holds the code that was placed there.
pub proof fn lemma_mb_code_round_trip(code: u32)
    requires
        code < 16,
    ensures
        ((code << 24u32) >> 24u32) % 16 == code,
        (((code << 24u32) >> 24u32) % 16 >= 8) == (code >= 8),
{
    assert(code < 16 ==> ((code << 24u32) >> 24u32) % 16 == code) by (bit_vector);
}

} // verus!
