//! The contents of FlexCAN message buffers: decoding a received frame, encoding
//! a frame for transmission, the mailbox state machine codes, acceptance
//! filter masks and the layout of the mailbox area.

use vstd::prelude::*;
use crate::can_registers::{
    MB_CODE_RX_EMPTY, MB_CODE_RX_FULL, MB_CODE_RX_INACTIVE, MB_CODE_RX_OVERRUN, MB_CODE_TX_ABORT,
    MB_CODE_TX_INACTIVE, MB_CODE_TX_ONCE, MB_CS_DLC_SHIFT, MB_CS_IDE, MB_CS_RTR, MB_CS_SRR,
    MB_CS_TIMESTAMP_MASK, MB_ID_EXT_MASK, MB_ID_STD_SHIFT, MCR_FEN, MCR_MAXMB_MASK,
    CTRL2_RFFN_SHIFT, be_bytes, be_word, lemma_unpack_pack_word, mb_code, mb_code_value, mb_id_ext,
    mb_id_std, unpack_word,
};
use crate::can_types::{CanMessage, MailboxState, MessageFlags, MAX_MAILBOXES};

verus! {

/// `true` when a CS word carries the identifier extension (IDE) bit.
pub open spec fn cs_extended(cs: u32) -> bool {
    cs & 0x0020_0000u32 != 0
}

/// `true` when a CS word carries the remote transmission request (RTR) bit.
pub open spec fn cs_remote(cs: u32) -> bool {
    cs & 0x0010_0000u32 != 0
}

/// The CODE field of a CS word.
pub open spec fn cs_code(cs: u32) -> u32 {
    (cs >> 24u32) % 16
}

/// The data length code of a CS word.
pub open spec fn cs_len(cs: u32) -> u8 {
    ((cs >> 16u32) % 16) as u8
}

/// The time stamp of a CS word.
pub open spec fn cs_timestamp(cs: u32) -> u16 {
    (cs % 0x1_0000) as u16
}

/// The identifier held by an ID word, read as extended or standard.
pub open spec fn frame_id(extended: bool, id_word: u32) -> u32 {
    if extended {
        id_word % 0x2000_0000
    } else {
        (id_word >> 18u32) % 0x800
    }
}

/// The ID word that transmits `id` as an extended or standard identifier.
pub open spec fn id_word(extended: bool, id: u32) -> u32 {
    if extended {
        id % 0x2000_0000
    } else {
        ((id % 0x800) * 0x4_0000) as u32
    }
}

/// The CS word that transmits a frame once with the given length and flags.
pub open spec fn tx_cs_word(len: u8, remote: bool, extended: bool) -> u32 {
    (((len as u32) % 16) << 16u32)
        | (if remote { 0x0010_0000u32 } else { 0u32 })
        | (if extended { 0x0060_0000u32 } else { 0u32 })
        | 0x0C00_0000u32
}

/// The CS word a receive buffer shows once it holds the frame transmitted with
/// CS word `tx_cs`, stamped at `timestamp`: the CODE becomes "full" and the
/// time stamp field is replaced.
pub open spec fn received_cs_word(tx_cs: u32, timestamp: u16) -> u32 {
    (tx_cs & 0xF0FF_0000u32) | 0x0200_0000u32 | (timestamp as u32)
}

/// The state that a CS word reports for its mailbox.
pub open spec fn state_of_cs(cs: u32) -> MailboxState {
    let extended = cs_extended(cs);
    let code = cs_code(cs);
    if code == 0 {
        MailboxState::RxInactive
    } else if code == 4 {
        MailboxState::RxEmpty { extended }
    } else if code == 2 {
        MailboxState::RxFull { extended }
    } else if code == 6 {
        MailboxState::RxOverrun { extended }
    } else if code == 8 {
        MailboxState::TxInactive
    } else if code == 9 {
        MailboxState::TxAbort
    } else if code == 0xC {
        MailboxState::TxBusy { extended }
    } else {
        MailboxState::Unknown(code)
    }
}

/// Decodes the message buffer words of mailbox `index` into a frame.
pub fn decode_frame(cs: u32, id_reg: u32, word0: u32, word1: u32, index: u8, bus: u8) -> (m: CanMessage)
    requires
        index < 128,
    ensures
        m.id == frame_id(cs_extended(cs), id_reg),
        m.timestamp == cs_timestamp(cs),
        m.idhit == 0,
        m.flags.extended == cs_extended(cs),
        m.flags.remote == cs_remote(cs),
        m.flags.overrun == (cs_code(cs) == 6),
        m.len == cs_len(cs),
        m.buf@ == be_bytes(word0) + be_bytes(word1),
        m.mb == index,
        m.bus == bus,
        !m.seq,
{
    let extended = cs & MB_CS_IDE != 0;
    let code = mb_code_value(cs);
    let mut lo = [0u8; 4];
    unpack_word(word0, &mut lo);
    let mut hi = [0u8; 4];
    unpack_word(word1, &mut hi);
    let buf = [lo[0], lo[1], lo[2], lo[3], hi[0], hi[1], hi[2], hi[3]];
    assert(lo@ =~= lo@.subrange(0, 4));
    assert(hi@ =~= hi@.subrange(0, 4));
    assert(buf@ =~= be_bytes(word0) + be_bytes(word1));
    let id = if extended {
        id_reg & MB_ID_EXT_MASK
    } else {
        (id_reg >> MB_ID_STD_SHIFT) & 0x7FF
    };
    assert(id_reg & 0x1FFF_FFFF == id_reg % 0x2000_0000
        && (id_reg >> 18u32) & 0x7FF == (id_reg >> 18u32) % 0x800
        && cs & 0xFFFF == cs % 0x1_0000
        && (cs >> 16u32) & 0xF == (cs >> 16u32) % 16) by (bit_vector);
    CanMessage {
        id,
        timestamp: (cs & MB_CS_TIMESTAMP_MASK) as u16,
        idhit: 0,
        flags: MessageFlags {
            extended,
            remote: cs & MB_CS_RTR != 0,
            overrun: code == MB_CODE_RX_OVERRUN,
        },
        len: ((cs >> MB_CS_DLC_SHIFT) & 0xF) as u8,
        buf,
        mb: index as i8,
        bus,
        seq: false,
    }
}

/// The ID word that transmits the identifier of `message`.
pub fn tx_id_word(message: &CanMessage) -> (r: u32)
    ensures
        r == id_word(message.flags.extended, message.id),
{
    if message.flags.extended {
        mb_id_ext(message.id)
    } else {
        mb_id_std(message.id)
    }
}

/// The CS word that transmits `message` once.
pub fn tx_cs(message: &CanMessage) -> (r: u32)
    ensures
        r == tx_cs_word(message.len, message.flags.remote, message.flags.extended),
{
    let len = message.len as u32;
    let mut code: u32 = (len & 0xF) << MB_CS_DLC_SHIFT;
    assert(len & 0xF == len % 16) by (bit_vector);
    let rtr: u32 = if message.flags.remote { MB_CS_RTR } else { 0 };
    let ide: u32 = if message.flags.extended { MB_CS_IDE | MB_CS_SRR } else { 0 };
    assert(0x0020_0000u32 | 0x0040_0000u32 == 0x0060_0000u32) by (bit_vector);
    code = code | rtr;
    code = code | ide;
    let once = mb_code(MB_CODE_TX_ONCE);
    code | once
}

/// The state of a mailbox from its CS word.
pub fn mailbox_state_of(cs: u32) -> (r: MailboxState)
    ensures
        r == state_of_cs(cs),
{
    let extended = cs & MB_CS_IDE != 0;
    let code = mb_code_value(cs);
    if code == MB_CODE_RX_INACTIVE {
        MailboxState::RxInactive
    } else if code == MB_CODE_RX_EMPTY {
        MailboxState::RxEmpty { extended }
    } else if code == MB_CODE_RX_FULL {
        MailboxState::RxFull { extended }
    } else if code == MB_CODE_RX_OVERRUN {
        MailboxState::RxOverrun { extended }
    } else if code == MB_CODE_TX_INACTIVE {
        MailboxState::TxInactive
    } else if code == MB_CODE_TX_ABORT {
        MailboxState::TxAbort
    } else if code == MB_CODE_TX_ONCE {
        MailboxState::TxBusy { extended }
    } else {
        MailboxState::Unknown(code)
    }
}

/// A frame transmitted from a mailbox and received by another one decodes to
/// the identifier, length, payload and flags it was sent with.
pub proof fn lemma_transmitted_frame_decodes(
    extended: bool,
    remote: bool,
    id: u32,
    len: u8,
    buf: Seq<u8>,
    timestamp: u16,
)
    requires
        len <= 8,
        buf.len() == 8,
        extended ==> id < 0x2000_0000,
        !extended ==> id < 0x800,
    ensures
        ({
            let cs = received_cs_word(tx_cs_word(len, remote, extended), timestamp);
            &&& cs_code(cs) == 2
            &&& cs_extended(cs) == extended
            &&& cs_remote(cs) == remote
            &&& cs_len(cs) == len
            &&& cs_timestamp(cs) == timestamp
            &&& frame_id(extended, id_word(extended, id)) == id
        }),
        ({
            let w0 = be_word(buf[0], buf[1], buf[2], buf[3]);
            let w1 = be_word(buf[4], buf[5], buf[6], buf[7]);
            be_bytes(w0 as u32) + be_bytes(w1 as u32) == buf
        }),
{
    let l = len as u32;
    let ts = timestamp as u32;
    let r: u32 = if remote { 0x0010_0000u32 } else { 0u32 };
    let e: u32 = if extended { 0x0060_0000u32 } else { 0u32 };
    let t: u32 = ((l % 16) << 16u32) | r | e | 0x0C00_0000u32;
    let cs: u32 = (t & 0xF0FF_0000u32) | 0x0200_0000u32 | ts;
    assert(cs == received_cs_word(tx_cs_word(len, remote, extended), timestamp));
    assert((cs >> 24u32) % 16 == 2 && (cs & 0x0020_0000u32 != 0) == (e == 0x0060_0000u32)
        && (cs & 0x0010_0000u32 != 0) == (r == 0x0010_0000u32) && ((cs >> 16u32) % 16) == l
        && cs % 0x1_0000 == ts) by (bit_vector)
        requires
            t == ((l % 16) << 16u32) | r | e | 0x0C00_0000u32,
            cs == (t & 0xF0FF_0000u32) | 0x0200_0000u32 | ts,
            l <= 8,
            ts < 0x1_0000,
            r == 0 || r == 0x0010_0000u32,
            e == 0 || e == 0x0060_0000u32,
    ;
    if !extended {
        let w = ((id % 0x800) * 0x4_0000) as u32;
        assert(id < 0x800 ==> (((((id % 0x800) * 0x4_0000) as u32) >> 18u32) % 0x800) == id) by (bit_vector);
    }
    lemma_unpack_pack_word(buf[0], buf[1], buf[2], buf[3]);
    lemma_unpack_pack_word(buf[4], buf[5], buf[6], buf[7]);
    assert(seq![buf[0], buf[1], buf[2], buf[3]] + seq![buf[4], buf[5], buf[6], buf[7]] =~= buf);
}

/// The bitwise OR of all identifiers.
pub open spec fn or_all(ids: Seq<u32>) -> u32
    decreases ids.len(),
{
    if ids.len() == 0 {
        0
    } else {
        or_all(ids.drop_last()) | ids.last()
    }
}

/// The bitwise AND of all identifiers and `init`.
pub open spec fn and_all(ids: Seq<u32>, init: u32) -> u32
    decreases ids.len(),
{
    if ids.len() == 0 {
        init
    } else {
        and_all(ids.drop_last(), init) & ids.last()
    }
}

/// The identifier bits of a standard (11) or extended (29) identifier.
pub open spec fn id_bits(extended: bool) -> u32 {
    if extended { 0x1FFF_FFFFu32 } else { 0x7FFu32 }
}

/// The RX individual mask that accepts every identifier of `ids`: a bit takes
/// part in the comparison when all identifiers agree on it and the user mask,
/// when given, keeps it.
pub open spec fn ids_filter_mask(ids: Seq<u32>, extended: bool, user_mask: Option<u32>) -> u32 {
    let full = id_bits(extended);
    let user = match user_mask {
        Some(m) => m,
        None => full,
    };
    let raw = ((or_all(ids) ^ and_all(ids, full)) ^ full) & user;
    id_word(extended, raw)
}

/// A user mask of all ones takes no compare bit away: the filter is the one
/// the identifiers alone give.
pub proof fn lemma_full_user_mask(ids: Seq<u32>, extended: bool)
    ensures
        ids_filter_mask(ids, extended, Some(0xFFFF_FFFFu32)) == ids_filter_mask(ids, extended, None),
{
    let x = (or_all(ids) ^ and_all(ids, id_bits(extended))) ^ id_bits(extended);
    assert((x & 0xFFFF_FFFFu32) % 0x2000_0000 == (x & 0x1FFF_FFFFu32) % 0x2000_0000
        && (x & 0xFFFF_FFFFu32) % 0x800 == (x & 0x7FFu32) % 0x800) by (bit_vector);
}

/// Every identifier of `ids` has its set bits within their OR, and all the set
/// bits of their AND (with `init`).
proof fn lemma_folds_cover(ids: Seq<u32>, init: u32, j: int)
    requires
        0 <= j < ids.len(),
    ensures
        ids[j] | or_all(ids) == or_all(ids),
        and_all(ids, init) & ids[j] == and_all(ids, init),
    decreases ids.len(),
{
    let x = ids[j];
    let l = ids.last();
    let o = or_all(ids.drop_last());
    let a = and_all(ids.drop_last(), init);
    if j < ids.len() - 1 {
        lemma_folds_cover(ids.drop_last(), init, j);
        assert(ids.drop_last()[j] == x);
    }
    assert((x | (o | x) == o | x) && ((a & x) & x == a & x)
        && (x | o == o ==> x | (o | l) == o | l) && (a & x == a ==> (a & l) & x == a & l)) by (bit_vector);
}

/// A filter built from example identifiers accepts every one of them: each
/// identifier's ID word agrees with the filter's ID word (that of the first
/// identifier) on every bit the mask compares, whatever the user mask.
pub proof fn lemma_ids_filter_accepts_every_id(ids: Seq<u32>, extended: bool, user_mask: Option<u32>, i: int)
    requires
        0 <= i < ids.len(),
    ensures
        (id_word(extended, ids[i]) ^ id_word(extended, ids[0])) & ids_filter_mask(ids, extended, user_mask) == 0,
{
    let f = id_bits(extended);
    let o = or_all(ids);
    let a = and_all(ids, f);
    let u = match user_mask {
        Some(m) => m,
        None => f,
    };
    let x = ids[i];
    let y = ids[0];
    lemma_folds_cover(ids, f, i);
    lemma_folds_cover(ids, f, 0);
    assert((x | o == o && y | o == o && a & x == a && a & y == a) ==> (
        (f == 0x1FFF_FFFFu32 ==> ((x % 0x2000_0000) ^ (y % 0x2000_0000)) & ((((o ^ a) ^ f) & u) % 0x2000_0000) == 0)
        && (f == 0x7FFu32 ==> ((((x % 0x800) * 0x4_0000) as u32) ^ (((y % 0x800) * 0x4_0000) as u32))
            & (((((o ^ a) ^ f) & u) % 0x800) * 0x4_0000) as u32 == 0))) by (bit_vector);
}

/// `x` with every bit below its highest set bit set as well.
pub open spec fn fill_below_msb(x: u32) -> u32 {
    let a = x | (x >> 1u32);
    let b = a | (a >> 2u32);
    let c = b | (b >> 4u32);
    let d = c | (c >> 8u32);
    d | (d >> 16u32)
}

/// The RX individual mask for the range `start..=end`: it compares the bits
/// above the highest bit in which `start` and `end` differ, the prefix that
/// every identifier of the range shares with `start`.
pub open spec fn range_filter_mask(start: u32, end: u32, extended: bool) -> u32 {
    id_word(extended, !fill_below_msb(start ^ end) & id_bits(extended))
}

/// A range filter accepts every identifier of its range: the identifier's ID
/// word agrees with the filter's ID word (that of `start`) on every bit the
/// mask compares.
pub proof fn lemma_range_filter_accepts_range(start: u32, end: u32, id: u32, extended: bool)
    requires
        start <= id <= end,
        end <= id_bits(extended),
    ensures
        (id_word(extended, id) ^ id_word(extended, start)) & range_filter_mask(start, end, extended) == 0,
{
    // Every identifier of the range agrees with `start` on the bits above the
    // highest bit in which `start` and `end` differ: the bits the mask keeps.
    let m = !fill_below_msb(start ^ end);
    if extended {
        assert(((id % 0x2000_0000) ^ (start % 0x2000_0000)) & ((m & 0x1FFF_FFFFu32) % 0x2000_0000) == 0) by (bit_vector)
            requires start <= id, id <= end, m == !fill_below_msb(start ^ end);
    } else {
        assert(((((id % 0x800) * 0x4_0000) as u32) ^ (((start % 0x800) * 0x4_0000) as u32))
            & ((((m & 0x7FFu32) % 0x800) * 0x4_0000) as u32) == 0) by (bit_vector)
            requires start <= id, id <= end, m == !fill_below_msb(start ^ end);
    }
}

/// Computes the RX individual mask for a filter on the identifiers `ids`.
pub fn filter_mask_for_ids(ids: &[u32], extended: bool, user_mask: Option<u32>) -> (r: u32)
    ensures
        r == ids_filter_mask(ids@, extended, user_mask),
{
    let full: u32 = if extended { 0x1FFF_FFFF } else { 0x7FF };
    let mut or: u32 = 0;
    let mut and: u32 = full;
    let mut i: usize = 0;
    while i < ids.len()
        invariant
            0 <= i <= ids@.len(),
            full == id_bits(extended),
            or == or_all(ids@.subrange(0, i as int)),
            and == and_all(ids@.subrange(0, i as int), full),
        decreases ids@.len() - i,
    {
        assert(ids@.subrange(0, i + 1).drop_last() =~= ids@.subrange(0, i as int));
        or = or | ids[i];
        and = and & ids[i];
        i = i + 1;
    }
    assert(ids@.subrange(0, ids@.len() as int) =~= ids@);
    let user = match user_mask {
        Some(m) => m,
        None => full,
    };
    let raw = ((or ^ and) ^ full) & user;
    if extended {
        mb_id_ext(raw)
    } else {
        mb_id_std(raw)
    }
}

/// Computes the RX individual mask for a filter on the range `start..=end`.
pub fn filter_mask_for_range(start: u32, end: u32, extended: bool) -> (r: u32)
    ensures
        r == range_filter_mask(start, end, extended),
{
    let x = start ^ end;
    let a = x | (x >> 1);
    let b = a | (a >> 2);
    let c = b | (b >> 4);
    let d = c | (c >> 8);
    let spread = d | (d >> 16);
    if extended {
        mb_id_ext(!spread & 0x1FFF_FFFF)
    } else {
        mb_id_std(!spread & 0x7FF)
    }
}

/// The number of mailboxes the MAXMB field of MCR enables.
pub open spec fn mcr_mailbox_count(mcr: u32) -> nat {
    ((mcr & 0x7Fu32) + 1) as nat
}

/// The end of the usable mailbox window: the enabled mailboxes, of which the
/// hardware has at most 64.
pub open spec fn window_end(mcr: u32) -> nat {
    if mcr_mailbox_count(mcr) <= 64 { mcr_mailbox_count(mcr) } else { 64 }
}

/// `true` when MCR has the RX FIFO enabled.
pub open spec fn mcr_fifo_enabled(mcr: u32) -> bool {
    mcr & 0x2000_0000u32 != 0
}

/// The first mailbox index usable for mailbox operations: with the RX FIFO on,
/// the FIFO and its `2 * (RFFN + 1)` filter words occupy the first
/// `6 + 2 * (RFFN + 1)` message buffers.
pub open spec fn first_mailbox(mcr: u32, ctrl2: u32) -> nat {
    if !mcr_fifo_enabled(mcr) {
        0
    } else {
        let reserved = 6 + 2 * (((ctrl2 >> 24u32) % 16) + 1);
        if mcr_mailbox_count(mcr) <= reserved { mcr_mailbox_count(mcr) } else { reserved as nat }
    }
}

/// The number of mailboxes enabled by `mcr`.
pub fn mailbox_count_of(mcr: u32) -> (r: u8)
    ensures
        r == mcr_mailbox_count(mcr),
{
    assert(mcr & 0x7F <= 0x7F) by (bit_vector);
    ((mcr & MCR_MAXMB_MASK) + 1) as u8
}

/// The first mailbox index usable for mailbox operations.
pub fn first_mailbox_of(mcr: u32, ctrl2: u32) -> (r: u8)
    ensures
        r == first_mailbox(mcr, ctrl2),
        r <= mcr_mailbox_count(mcr),
{
    let max = mailbox_count_of(mcr);
    if mcr & MCR_FEN == 0 {
        return 0;
    }
    assert((ctrl2 >> 24u32) & 0xF == (ctrl2 >> 24u32) % 16) by (bit_vector);
    let rffn = ((ctrl2 >> CTRL2_RFFN_SHIFT) & 0xF) + 1;
    let remaining = max.saturating_sub(6).saturating_sub((rffn * 2) as u8);
    max - remaining
}

/// The end of the usable mailbox window.
pub fn window_end_of(mcr: u32) -> (r: u8)
    ensures
        r == window_end(mcr),
        r <= 64,
{
    let max = mailbox_count_of(mcr);
    if max <= MAX_MAILBOXES { max } else { MAX_MAILBOXES }
}

} // verus!
