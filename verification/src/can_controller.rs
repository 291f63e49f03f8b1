//! The FlexCAN controller: bring-up, bit timing, mailbox configuration,
//! acceptance filters, transmission and reception.
//!
//! Every public operation states, over the instance's access history, the exact
//! sequence of register accesses it performs and the values it writes as a
//! function of the inputs and of the values it read.

use vstd::prelude::*;
use crate::can_bus::{BusOp, Instance, extends, is_read_of, ops_since, read_value};
use crate::can_frames::{
    cs_code, cs_extended, decode_frame, filter_mask_for_ids, filter_mask_for_range, first_mailbox,
    first_mailbox_of, frame_id, id_word, ids_filter_mask, mailbox_count_of, mailbox_state_of,
    mcr_fifo_enabled, mcr_mailbox_count, range_filter_mask, state_of_cs, tx_cs, tx_cs_word,
    tx_id_word, window_end, window_end_of,
};
use crate::can_registers::{
    CTRL1_LOM, CTRL2_EACEN, CTRL2_MRP, CTRL2_RRS, MB_CODE_RX_FULL, MB_CODE_RX_INACTIVE,
    MB_CODE_RX_OVERRUN, MB_CODE_TX_INACTIVE, MB_CS_IDE, MCR_AEN, MCR_DMA, MCR_FDEN, MCR_FEN,
    MCR_FRZ, MCR_FRZACK, MCR_HALT, MCR_IRMQ, MCR_LPMACK, MCR_LPRIOEN, MCR_MAXMB_MASK, MCR_MDIS,
    MCR_NOTRDY, MCR_SLFWAK, MCR_SOFTRST, MCR_SRXDIS, MCR_WAKMSK, MCR_WAKSRC, MCR_WRNEN,
    REG_CTRL1, REG_CTRL2, REG_IFLAG1, REG_IFLAG2, REG_IMASK1, REG_IMASK2, REG_MCR,
    REG_RXFGMASK, REG_RXIMR0, REG_RXMGMASK, REG_TIMER, be_bytes, be_word, mailbox_offset, mb_code,
    mb_code_value, mb_id_ext, mb_id_std, mb_is_tx, pack_word, rx_empty_cs,
};
use crate::can_timing::{
    baud_timing, ctrl1_divisor, ctrl1_for, ctrl1_quanta, distance, lemma_programmed_rate_within_tolerance,
    search_end, timing_ctrl1, timing_outcome,
};
use crate::can_types::{
    CanMessage, Clock, Error, FilterMode, IdType, Mailbox, MailboxMode, MailboxState,
};

verus! {

/// A read of `offset` that returned `value`.
pub open spec fn rd(offset: usize, value: u32) -> BusOp {
    BusOp::Read { offset, value }
}

/// A write of `value` to `offset`.
pub open spec fn wr(offset: usize, value: u32) -> BusOp {
    BusOp::Write { offset, value }
}

/// The value read by the `i`-th access of `d`.
pub open spec fn rv(d: Seq<BusOp>, i: int) -> u32 {
    read_value(d[i])
}

/// `d` reads `offset` and writes back `f` of the value read.
pub open spec fn rmw_ops(d: Seq<BusOp>, offset: usize, f: spec_fn(u32) -> u32) -> bool {
    &&& d.len() == 2
    &&& is_read_of(d[0], offset)
    &&& d[1] == wr(offset, f(rv(d, 0)))
}

/// `d` requests freeze mode (FRZ and HALT) and waits for its acknowledgement.
pub open spec fn enter_freeze_ops(d: Seq<BusOp>) -> bool {
    &&& d.len() == 3
    &&& rmw_ops(d.subrange(0, 2), REG_MCR, |v: u32| v | 0x4000_0000u32 | 0x1000_0000u32)
    &&& d[2] == (BusOp::WaitSet { offset: REG_MCR, mask: 0x0100_0000u32 })
}

/// `d` releases HALT and waits until the module left freeze mode and is ready.
pub open spec fn exit_freeze_ops(d: Seq<BusOp>) -> bool {
    &&& d.len() == 4
    &&& rmw_ops(d.subrange(0, 2), REG_MCR, |v: u32| v & !0x1000_0000u32)
    &&& d[2] == (BusOp::WaitClear { offset: REG_MCR, mask: 0x0100_0000u32 })
    &&& d[3] == (BusOp::WaitClear { offset: REG_MCR, mask: 0x0800_0000u32 })
}

/// `d` requests a soft reset and waits for its completion.
pub open spec fn soft_reset_ops(d: Seq<BusOp>) -> bool {
    &&& d.len() == 3
    &&& rmw_ops(d.subrange(0, 2), REG_MCR, |v: u32| v | 0x0200_0000u32)
    &&& d[2] == (BusOp::WaitClear { offset: REG_MCR, mask: 0x0200_0000u32 })
}

/// `true` when an MCR value shows the module outside freeze mode.
pub open spec fn outside_freeze(mcr: u32) -> bool {
    mcr & 0x0100_0000u32 == 0
}

/// The number of accesses that leave freeze mode at the end of `d`: four when
/// the module was not frozen when `d` began, none otherwise.
pub open spec fn freeze_tail(d: Seq<BusOp>) -> int {
    if outside_freeze(rv(d, 0)) { 4 } else { 0 }
}

/// `d` runs a body in freeze mode: it reads MCR, enters freeze mode, runs the
/// body and leaves freeze mode again when the module was not frozen before.
pub open spec fn frozen_frame(d: Seq<BusOp>) -> bool {
    &&& d.len() >= 4 + freeze_tail(d)
    &&& is_read_of(d[0], REG_MCR)
    &&& enter_freeze_ops(d.subrange(1, 4))
    &&& outside_freeze(rv(d, 0)) ==> exit_freeze_ops(d.subrange(d.len() - 4, d.len() as int))
}

/// The body of a history shaped by `frozen_frame`.
pub open spec fn frozen_body(d: Seq<BusOp>) -> Seq<BusOp> {
    d.subrange(4, d.len() - freeze_tail(d))
}

/// `d` reads MCR and CTRL2, which fix the mailbox window.
pub open spec fn window_ops(d: Seq<BusOp>) -> bool {
    &&& d.len() >= 2
    &&& is_read_of(d[0], REG_MCR)
    &&& is_read_of(d[1], REG_CTRL2)
}

/// The first mailbox of the window read by `d`.
pub open spec fn window_first(d: Seq<BusOp>) -> nat {
    first_mailbox(rv(d, 0), rv(d, 1))
}

/// The end of the window read by `d`.
pub open spec fn window_stop(d: Seq<BusOp>) -> nat {
    window_end(rv(d, 0))
}

/// `index` lies in the mailbox window read by `d`.
pub open spec fn in_window(d: Seq<BusOp>, index: u8) -> bool {
    window_first(d) <= index < window_stop(d)
}

/// The byte offset of the CS word of mailbox `index`.
pub open spec fn cs_offset(index: nat) -> usize {
    (0x80 + index * 0x10) as usize
}

/// The byte offset of the ID word of mailbox `index`.
pub open spec fn id_offset(index: nat) -> usize {
    (0x84 + index * 0x10) as usize
}

/// The byte offset of the first data word of mailbox `index`.
pub open spec fn word0_offset(index: nat) -> usize {
    (0x88 + index * 0x10) as usize
}

/// The byte offset of the second data word of mailbox `index`.
pub open spec fn word1_offset(index: nat) -> usize {
    (0x8C + index * 0x10) as usize
}

/// The byte offset of the individual RX mask of mailbox `index`.
pub open spec fn rximr_offset(index: nat) -> usize {
    (0x880 + index * 4) as usize
}

/// The IMASK register holding the interrupt enable of mailbox `index`.
pub open spec fn imask_offset(index: nat) -> usize {
    if index < 32 { 0x28usize } else { 0x24usize }
}

/// The IFLAG register holding the interrupt flag of mailbox `index`.
pub open spec fn iflag_offset(index: nat) -> usize {
    if index < 32 { 0x30usize } else { 0x2Cusize }
}

/// The bit of mailbox `index` in its IMASK / IFLAG register.
pub open spec fn mailbox_bit(index: nat) -> u32 {
    if index < 32 { (1u32 << (index as u32)) } else { (1u32 << ((index - 32) as u32)) }
}

/// An IMASK value with the bit of mailbox `index` set or cleared.
pub open spec fn imask_with(value: u32, index: nat, set: bool) -> u32 {
    if set { value | mailbox_bit(index) } else { value & !mailbox_bit(index) }
}

/// `d` sets or clears the interrupt enable of mailbox `index`.
pub open spec fn imask_bit_ops(d: Seq<BusOp>, index: nat, set: bool) -> bool {
    rmw_ops(d, imask_offset(index), |v: u32| imask_with(v, index, set))
}

/// `d` clears the interrupt flag of mailbox `index` (the flags are write-1-to-clear).
pub open spec fn iflag_clear_ops(d: Seq<BusOp>, index: nat) -> bool {
    d == seq![wr(iflag_offset(index), mailbox_bit(index))]
}

/// `d` zeroes the four words of mailbox `index`.
pub open spec fn clear_mailbox_ops(d: Seq<BusOp>, index: nat) -> bool {
    d == seq![wr(cs_offset(index), 0), wr(id_offset(index), 0), wr(word0_offset(index), 0),
        wr(word1_offset(index), 0)]
}

/// A 64-bit flag or mask value from its high and low registers.
pub open spec fn join_words(high: u32, low: u32) -> int {
    high * 0x1_0000_0000 + low
}

/// `d` reads both IFLAG registers and writes the flags read back, which clears them.
pub open spec fn flush_iflags_ops(d: Seq<BusOp>) -> bool {
    &&& d.len() == 4
    &&& is_read_of(d[0], REG_IFLAG2)
    &&& is_read_of(d[1], REG_IFLAG1)
    &&& d[2] == wr(REG_IFLAG2, rv(d, 0))
    &&& d[3] == wr(REG_IFLAG1, rv(d, 1))
}

/// A FlexCAN controller bound to a specific hardware instance.
pub struct FlexCan<I> {
    instance: I,
    clock: Clock,
    bus: u8,
}

impl<I: Instance> FlexCan<I> {
    /// The register accesses made through the controller's instance.
    pub closed spec fn ops(&self) -> Seq<BusOp> {
        self.instance.trace()
    }

    /// The logical CAN bus number of the controller's instance.
    pub closed spec fn bus(&self) -> u8 {
        self.bus
    }

    /// The functional clock the controller was last configured for.
    pub closed spec fn selected_clock(&self) -> Clock {
        self.clock
    }

    /// The accesses between `old` and `self`, when `self` continues `old`.
    pub open spec fn since(&self, old: &Self) -> Seq<BusOp> {
        ops_since(self.ops(), old.ops())
    }

    /// `self` continues the history of `old` with the same instance and clock.
    pub open spec fn continues(&self, old: &Self) -> bool {
        &&& extends(self.ops(), old.ops())
        &&& self.bus() == old.bus()
        &&& self.selected_clock() == old.selected_clock()
    }

    proof fn lemma_append(&self, old: &Self, d: Seq<BusOp>)
        requires
            self.ops() == old.ops() + d,
        ensures
            extends(self.ops(), old.ops()),
            self.since(old) == d,
    {
        assert(self.ops().subrange(0, old.ops().len() as int) =~= old.ops());
        assert(self.since(old) =~= d);
    }

    fn reg(&mut self, offset: usize) -> (v: u32)
        ensures
            final(self).ops() == old(self).ops() + seq![rd(offset, v)],
            final(self).bus() == old(self).bus(),
            final(self).clock == old(self).clock,
    {
        let v = self.instance.read(offset);
        assert(self.ops() =~= old(self).ops() + seq![rd(offset, v)]);
        v
    }

    fn write_reg(&mut self, offset: usize, value: u32)
        ensures
            final(self).ops() == old(self).ops() + seq![wr(offset, value)],
            final(self).bus() == old(self).bus(),
            final(self).clock == old(self).clock,
    {
        self.instance.write(offset, value);
        assert(self.ops() =~= old(self).ops() + seq![wr(offset, value)]);
    }

    fn wait_set(&mut self, offset: usize, mask: u32)
        ensures
            final(self).ops() == old(self).ops() + seq![BusOp::WaitSet { offset, mask }],
            final(self).bus() == old(self).bus(),
            final(self).clock == old(self).clock,
    {
        self.instance.wait_set(offset, mask);
        assert(self.ops() =~= old(self).ops() + seq![BusOp::WaitSet { offset, mask }]);
    }

    fn wait_clear(&mut self, offset: usize, mask: u32)
        ensures
            final(self).ops() == old(self).ops() + seq![BusOp::WaitClear { offset, mask }],
            final(self).bus() == old(self).bus(),
            final(self).clock == old(self).clock,
    {
        self.instance.wait_clear(offset, mask);
        assert(self.ops() =~= old(self).ops() + seq![BusOp::WaitClear { offset, mask }]);
    }

    fn set_bits(&mut self, offset: usize, bits: u32) -> (v: u32)
        ensures
            final(self).ops() == old(self).ops() + seq![rd(offset, v), wr(offset, v | bits)],
            final(self).bus() == old(self).bus(),
            final(self).clock == old(self).clock,
    {
        let v = self.reg(offset);
        self.write_reg(offset, v | bits);
        assert(self.ops() =~= old(self).ops() + seq![rd(offset, v), wr(offset, v | bits)]);
        v
    }

    fn clear_bits(&mut self, offset: usize, bits: u32) -> (v: u32)
        ensures
            final(self).ops() == old(self).ops() + seq![rd(offset, v), wr(offset, v & !bits)],
            final(self).bus() == old(self).bus(),
            final(self).clock == old(self).clock,
    {
        let v = self.reg(offset);
        self.write_reg(offset, v & !bits);
        assert(self.ops() =~= old(self).ops() + seq![rd(offset, v), wr(offset, v & !bits)]);
        v
    }

    fn enter_freeze_mode(&mut self) -> (v: u32)
        ensures
            final(self).ops() == old(self).ops() + enter_freeze_seq(v),
            final(self).bus() == old(self).bus(),
            final(self).clock == old(self).clock,
    {
        let v = self.set_bits(REG_MCR, MCR_FRZ | MCR_HALT);
        self.wait_set(REG_MCR, MCR_FRZACK);
        assert(0x4000_0000u32 | 0x1000_0000u32 == 0x5000_0000u32
            && v | (0x4000_0000u32 | 0x1000_0000u32) == v | 0x4000_0000u32 | 0x1000_0000u32) by (bit_vector);
        assert(self.ops() =~= old(self).ops() + enter_freeze_seq(v));
        v
    }

    fn exit_freeze_mode(&mut self) -> (v: u32)
        ensures
            final(self).ops() == old(self).ops() + exit_freeze_seq(v),
            final(self).bus() == old(self).bus(),
            final(self).clock == old(self).clock,
    {
        let v = self.clear_bits(REG_MCR, MCR_HALT);
        self.wait_clear(REG_MCR, MCR_FRZACK);
        self.wait_clear(REG_MCR, MCR_NOTRDY);
        assert(self.ops() =~= old(self).ops() + exit_freeze_seq(v));
        v
    }

    fn soft_reset(&mut self) -> (v: u32)
        ensures
            final(self).ops() == old(self).ops() + soft_reset_seq(v),
            final(self).bus() == old(self).bus(),
            final(self).clock == old(self).clock,
    {
        let v = self.set_bits(REG_MCR, MCR_SOFTRST);
        self.wait_clear(REG_MCR, MCR_SOFTRST);
        assert(self.ops() =~= old(self).ops() + soft_reset_seq(v));
        v
    }

    /// Reads MCR and enters freeze mode; returns the MCR value read first.
    fn begin_frozen(&mut self) -> (r: (u32, u32))
        ensures
            final(self).ops() == old(self).ops() + seq![rd(REG_MCR, r.0)] + enter_freeze_seq(r.1),
            final(self).bus() == old(self).bus(),
            final(self).clock == old(self).clock,
    {
        let m = self.reg(REG_MCR);
        let v = self.enter_freeze_mode();
        (m, v)
    }

    /// Leaves freeze mode when `leave` holds; returns the MCR value read.
    fn end_frozen(&mut self, leave: bool) -> (v: u32)
        ensures
            leave ==> final(self).ops() == old(self).ops() + exit_freeze_seq(v),
            !leave ==> final(self).ops() == old(self).ops(),
            final(self).bus() == old(self).bus(),
            final(self).clock == old(self).clock,
    {
        if leave {
            self.exit_freeze_mode()
        } else {
            assert(self.ops() =~= old(self).ops());
            0
        }
    }

    /// Reads MCR and CTRL2; returns them with the mailbox window they define.
    fn window(&mut self) -> (r: (u32, u32, u8, u8))
        ensures
            final(self).ops() == old(self).ops() + seq![rd(REG_MCR, r.0), rd(REG_CTRL2, r.1)],
            r.2 == first_mailbox(r.0, r.1),
            r.3 == window_end(r.0),
            r.3 <= 64,
            final(self).bus() == old(self).bus(),
            final(self).clock == old(self).clock,
    {
        let mcr = self.reg(REG_MCR);
        let ctrl2 = self.reg(REG_CTRL2);
        assert(self.ops() =~= old(self).ops() + seq![rd(REG_MCR, mcr), rd(REG_CTRL2, ctrl2)]);
        (mcr, ctrl2, first_mailbox_of(mcr, ctrl2), window_end_of(mcr))
    }

    fn read_mailbox_cs(&mut self, index: u8) -> (v: u32)
        ensures
            final(self).ops() == old(self).ops() + seq![rd(cs_offset(index as nat), v)],
            final(self).bus() == old(self).bus(),
            final(self).clock == old(self).clock,
    {
        self.reg(mailbox_offset(index))
    }

    fn write_mailbox_cs(&mut self, index: u8, value: u32)
        ensures
            final(self).ops() == old(self).ops() + seq![wr(cs_offset(index as nat), value)],
            final(self).bus() == old(self).bus(),
            final(self).clock == old(self).clock,
    {
        self.write_reg(mailbox_offset(index), value)
    }

    fn read_mailbox_id(&mut self, index: u8) -> (v: u32)
        ensures
            final(self).ops() == old(self).ops() + seq![rd(id_offset(index as nat), v)],
            final(self).bus() == old(self).bus(),
            final(self).clock == old(self).clock,
    {
        self.reg(mailbox_offset(index) + 0x4)
    }

    fn write_mailbox_id(&mut self, index: u8, value: u32)
        ensures
            final(self).ops() == old(self).ops() + seq![wr(id_offset(index as nat), value)],
            final(self).bus() == old(self).bus(),
            final(self).clock == old(self).clock,
    {
        self.write_reg(mailbox_offset(index) + 0x4, value)
    }

    fn read_mailbox_word0(&mut self, index: u8) -> (v: u32)
        ensures
            final(self).ops() == old(self).ops() + seq![rd(word0_offset(index as nat), v)],
            final(self).bus() == old(self).bus(),
            final(self).clock == old(self).clock,
    {
        self.reg(mailbox_offset(index) + 0x8)
    }

    fn write_mailbox_word0(&mut self, index: u8, value: u32)
        ensures
            final(self).ops() == old(self).ops() + seq![wr(word0_offset(index as nat), value)],
            final(self).bus() == old(self).bus(),
            final(self).clock == old(self).clock,
    {
        self.write_reg(mailbox_offset(index) + 0x8, value)
    }

    fn read_mailbox_word1(&mut self, index: u8) -> (v: u32)
        ensures
            final(self).ops() == old(self).ops() + seq![rd(word1_offset(index as nat), v)],
            final(self).bus() == old(self).bus(),
            final(self).clock == old(self).clock,
    {
        self.reg(mailbox_offset(index) + 0xC)
    }

    fn write_mailbox_word1(&mut self, index: u8, value: u32)
        ensures
            final(self).ops() == old(self).ops() + seq![wr(word1_offset(index as nat), value)],
            final(self).bus() == old(self).bus(),
            final(self).clock == old(self).clock,
    {
        self.write_reg(mailbox_offset(index) + 0xC, value)
    }

    fn write_rximr(&mut self, index: u8, value: u32)
        ensures
            final(self).ops() == old(self).ops() + seq![wr(rximr_offset(index as nat), value)],
            final(self).bus() == old(self).bus(),
            final(self).clock == old(self).clock,
    {
        self.write_reg(REG_RXIMR0 + (index as usize) * 4, value)
    }

    fn clear_mailbox(&mut self, index: u8)
        ensures
            clear_mailbox_ops(
                final(self).ops().subrange(old(self).ops().len() as int, final(self).ops().len() as int),
                index as nat,
            ),
            final(self).ops() == old(self).ops() + seq![
                wr(cs_offset(index as nat), 0),
                wr(id_offset(index as nat), 0),
                wr(word0_offset(index as nat), 0),
                wr(word1_offset(index as nat), 0),
            ],
            final(self).bus() == old(self).bus(),
            final(self).clock == old(self).clock,
    {
        self.write_mailbox_cs(index, 0);
        self.write_mailbox_id(index, 0);
        self.write_mailbox_word0(index, 0);
        self.write_mailbox_word1(index, 0);
        let ghost d = seq![
            wr(cs_offset(index as nat), 0),
            wr(id_offset(index as nat), 0),
            wr(word0_offset(index as nat), 0),
            wr(word1_offset(index as nat), 0),
        ];
        assert(self.ops() =~= old(self).ops() + d);
        assert(self.ops().subrange(old(self).ops().len() as int, self.ops().len() as int) =~= d);
    }

    fn mailbox_bit_of(index: u8) -> (r: (usize, usize, u32))
        requires
            index < 64,
        ensures
            r.0 == imask_offset(index as nat),
            r.1 == iflag_offset(index as nat),
            r.2 == mailbox_bit(index as nat),
    {
        if index < 32 {
            let sh: u32 = index as u32;
            (REG_IMASK1, REG_IFLAG1, 1u32 << sh)
        } else {
            let sh: u32 = (index - 32) as u32;
            (REG_IMASK2, REG_IFLAG2, 1u32 << sh)
        }
    }

    fn write_iflag_bit(&mut self, index: u8)
        requires
            index < 64,
        ensures
            final(self).ops() == old(self).ops() + seq![
                wr(iflag_offset(index as nat), mailbox_bit(index as nat)),
            ],
            final(self).bus() == old(self).bus(),
            final(self).clock == old(self).clock,
    {
        let (_, iflag, bit) = Self::mailbox_bit_of(index);
        self.write_reg(iflag, bit);
    }

    fn write_imask_bit(&mut self, index: u8, set: bool) -> (v: u32)
        requires
            index < 64,
        ensures
            final(self).ops() == old(self).ops() + seq![
                rd(imask_offset(index as nat), v),
                wr(imask_offset(index as nat), imask_with(v, index as nat, set)),
            ],
            final(self).bus() == old(self).bus(),
            final(self).clock == old(self).clock,
    {
        let (imask, _, bit) = Self::mailbox_bit_of(index);
        if set {
            self.set_bits(imask, bit)
        } else {
            self.clear_bits(imask, bit)
        }
    }
}

/// Requesting freeze mode: read MCR, set FRZ and HALT, wait for FRZACK.
pub open spec fn enter_freeze_seq(v: u32) -> Seq<BusOp> {
    seq![
        rd(REG_MCR, v),
        wr(REG_MCR, v | 0x4000_0000u32 | 0x1000_0000u32),
        BusOp::WaitSet { offset: REG_MCR, mask: 0x0100_0000u32 },
    ]
}

/// Leaving freeze mode: read MCR, clear HALT, wait for FRZACK and NOTRDY to clear.
pub open spec fn exit_freeze_seq(v: u32) -> Seq<BusOp> {
    seq![
        rd(REG_MCR, v),
        wr(REG_MCR, v & !0x1000_0000u32),
        BusOp::WaitClear { offset: REG_MCR, mask: 0x0100_0000u32 },
        BusOp::WaitClear { offset: REG_MCR, mask: 0x0800_0000u32 },
    ]
}

/// A soft reset: read MCR, set SOFTRST, wait for it to clear.
pub open spec fn soft_reset_seq(v: u32) -> Seq<BusOp> {
    seq![
        rd(REG_MCR, v),
        wr(REG_MCR, v | 0x0200_0000u32),
        BusOp::WaitClear { offset: REG_MCR, mask: 0x0200_0000u32 },
    ]
}

proof fn lemma_freeze_seqs(v: u32)
    ensures
        enter_freeze_ops(enter_freeze_seq(v)),
        exit_freeze_ops(exit_freeze_seq(v)),
        soft_reset_ops(soft_reset_seq(v)),
{
    assert(enter_freeze_seq(v).subrange(0, 2) =~= seq![rd(REG_MCR, v), wr(REG_MCR, v | 0x4000_0000u32 | 0x1000_0000u32)]);
    assert(exit_freeze_seq(v).subrange(0, 2) =~= seq![rd(REG_MCR, v), wr(REG_MCR, v & !0x1000_0000u32)]);
    assert(soft_reset_seq(v).subrange(0, 2) =~= seq![rd(REG_MCR, v), wr(REG_MCR, v | 0x0200_0000u32)]);
}

/// A body run in freeze mode yields a history framed by freeze mode.
proof fn lemma_frozen(m: u32, v: u32, body: Seq<BusOp>, w: u32)
    ensures
        ({
            let d = seq![rd(REG_MCR, m)] + enter_freeze_seq(v) + body
                + (if outside_freeze(m) { exit_freeze_seq(w) } else { Seq::empty() });
            frozen_frame(d) && frozen_body(d) == body
        }),
{
    lemma_freeze_seqs(v);
    lemma_freeze_seqs(w);
    let tail = if outside_freeze(m) { exit_freeze_seq(w) } else { Seq::<BusOp>::empty() };
    let d = seq![rd(REG_MCR, m)] + enter_freeze_seq(v) + body + tail;
    let t: int = if outside_freeze(m) { 4 } else { 0 };
    assert(d[0] == rd(REG_MCR, m));
    assert(d.subrange(1, 4) =~= enter_freeze_seq(v));
    assert(d.subrange(4, d.len() - t) =~= body);
    if outside_freeze(m) {
        assert(d.subrange(d.len() - 4, d.len() as int) =~= exit_freeze_seq(w));
    }
}

/// The IMASK1 value that enables or disables the RX FIFO interrupts.
pub open spec fn fifo_interrupt_mask(imask1: u32, enable: bool) -> u32 {
    (imask1 & !0xFFu32) | (if enable { 0x20u32 } else { 0u32 })
}

/// The individual RX mask that accepts everything or rejects everything.
pub open spec fn filter_mode_mask(mode: FilterMode) -> u32 {
    match mode {
        FilterMode::AcceptAll => 0,
        FilterMode::RejectAll => 0x3FFF_FFFF,
    }
}

/// The CS word `set_mailbox` programs for a mode and identifier type.
pub open spec fn configured_cs(mode: MailboxMode, id_type: IdType) -> u32 {
    match (mode, id_type) {
        (_, IdType::Inactive) => 0,
        (MailboxMode::Rx, IdType::Standard) => 0x0400_0000,
        (MailboxMode::Rx, IdType::Extended) => 0x0460_0000,
        (MailboxMode::Tx, _) => 0x0800_0000,
    }
}

/// The state a mailbox configured by `set_mailbox` reads back: a receive
/// mailbox is empty and expects the requested identifier type, a transmit
/// mailbox is inactive, and a mailbox made inactive is an inactive receive
/// mailbox.
pub proof fn lemma_configured_state(mode: MailboxMode, id_type: IdType)
    ensures
        state_of_cs(configured_cs(mode, id_type)) == match (mode, id_type) {
            (_, IdType::Inactive) => MailboxState::RxInactive,
            (MailboxMode::Rx, IdType::Standard) => MailboxState::RxEmpty { extended: false },
            (MailboxMode::Rx, IdType::Extended) => MailboxState::RxEmpty { extended: true },
            (MailboxMode::Tx, _) => MailboxState::TxInactive,
        },
{
    assert((0u32 >> 24u32) % 16 == 0
        && (0x0400_0000u32 >> 24u32) % 16 == 4 && 0x0400_0000u32 & 0x0020_0000u32 == 0
        && (0x0460_0000u32 >> 24u32) % 16 == 4 && 0x0460_0000u32 & 0x0020_0000u32 != 0
        && (0x0800_0000u32 >> 24u32) % 16 == 8) by (bit_vector);
}

/// `true` when `set_mailbox` makes a transmit mailbox.
pub open spec fn configures_tx(mode: MailboxMode, id_type: IdType) -> bool {
    mode == MailboxMode::Tx && id_type != IdType::Inactive
}

/// The accesses of `set_mailbox` on mailbox `index`, once the window is read.
pub open spec fn set_mailbox_ops(d: Seq<BusOp>, index: nat, mode: MailboxMode, id_type: IdType) -> bool {
    let tx = configures_tx(mode, id_type);
    let n: int = if tx { 11 } else { 9 };
    &&& d.len() == n
    &&& imask_bit_ops(d.subrange(0, 2), index, false)
    &&& is_read_of(d[2], cs_offset(index))
    &&& d[3] == wr(id_offset(index), 0)
    &&& d[4] == wr(word0_offset(index), 0)
    &&& d[5] == wr(word1_offset(index), 0)
    &&& d[6] == wr(cs_offset(index), configured_cs(mode, id_type))
    &&& tx ==> imask_bit_ops(d.subrange(7, 9), index, true)
    &&& is_read_of(d[n - 2], REG_TIMER)
    &&& iflag_clear_ops(d.subrange(n - 1, n), index)
}

impl<I: Instance> FlexCan<I> {
    /// Returns `true` when the hardware receive FIFO is enabled.
    pub fn fifo_enabled(&mut self) -> (r: bool)
        ensures
            final(self).continues(old(self)),
            final(self).since(old(self)).len() == 1,
            is_read_of(final(self).since(old(self))[0], REG_MCR),
            r == mcr_fifo_enabled(rv(final(self).since(old(self)), 0)),
    {
        let mcr = self.reg(REG_MCR);
        proof { assert(self.ops() =~= old(self).ops() + seq![rd(REG_MCR, mcr)]); self.lemma_append(old(self), seq![rd(REG_MCR, mcr)]); }
        mcr & MCR_FEN != 0
    }

    /// Returns the number of active hardware mailboxes (MAXMB + 1).
    pub fn max_mailboxes(&mut self) -> (r: u8)
        ensures
            final(self).continues(old(self)),
            final(self).since(old(self)).len() == 1,
            is_read_of(final(self).since(old(self))[0], REG_MCR),
            r == mcr_mailbox_count(rv(final(self).since(old(self)), 0)),
    {
        let mcr = self.reg(REG_MCR);
        proof { assert(self.ops() =~= old(self).ops() + seq![rd(REG_MCR, mcr)]); self.lemma_append(old(self), seq![rd(REG_MCR, mcr)]); }
        mailbox_count_of(mcr)
    }

    /// Returns the first mailbox index available for mailbox-based operations.
    ///
    /// When FIFO mode is enabled, the low mailbox region is reserved by the
    /// peripheral and this offset skips over it.
    pub fn mailbox_offset(&mut self) -> (r: u8)
        ensures
            final(self).continues(old(self)),
            final(self).since(old(self)).len() == 2,
            window_ops(final(self).since(old(self))),
            r == window_first(final(self).since(old(self))),
    {
        let (mcr, ctrl2, first, _) = self.window();
        proof { assert(self.ops() =~= old(self).ops() + seq![rd(REG_MCR, mcr), rd(REG_CTRL2, ctrl2)]); self.lemma_append(old(self), seq![rd(REG_MCR, mcr), rd(REG_CTRL2, ctrl2)]); }
        first
    }

    /// Reads the interrupt flag bitfield for all mailboxes.
    pub fn read_iflag(&mut self) -> (r: u64)
        ensures
            final(self).continues(old(self)),
            ({
                let d = final(self).since(old(self));
                &&& d.len() == 2
                &&& is_read_of(d[0], REG_IFLAG2)
                &&& is_read_of(d[1], REG_IFLAG1)
                &&& r == join_words(rv(d, 0), rv(d, 1))
            }),
    {
        let high = self.reg(REG_IFLAG2);
        let low = self.reg(REG_IFLAG1);
        proof { assert(self.ops() =~= old(self).ops() + seq![rd(REG_IFLAG2, high), rd(REG_IFLAG1, low)]); self.lemma_append(old(self), seq![rd(REG_IFLAG2, high), rd(REG_IFLAG1, low)]); }
        let r = ((high as u64) << 32) | low as u64;
        assert(r == high * 0x1_0000_0000 + low) by (bit_vector)
            requires r == ((high as u64) << 32u64) | low as u64;
        r
    }

    /// Writes the interrupt flag bitfield for all mailboxes (a set bit clears its flag).
    pub fn write_iflag(&mut self, value: u64)
        ensures
            final(self).continues(old(self)),
            final(self).since(old(self)) == seq![
                wr(REG_IFLAG2, (value >> 32u64) as u32),
                wr(REG_IFLAG1, value as u32),
            ],
    {
        self.write_reg(REG_IFLAG2, (value >> 32) as u32);
        self.write_reg(REG_IFLAG1, value as u32);
        proof {
            let d = seq![wr(REG_IFLAG2, (value >> 32u64) as u32), wr(REG_IFLAG1, value as u32)];
            assert(self.ops() =~= old(self).ops() + d);
            self.lemma_append(old(self), d);
        }
    }

    /// Reads the interrupt mask bitfield for all mailboxes.
    pub fn read_imask(&mut self) -> (r: u64)
        ensures
            final(self).continues(old(self)),
            ({
                let d = final(self).since(old(self));
                &&& d.len() == 2
                &&& is_read_of(d[0], REG_IMASK2)
                &&& is_read_of(d[1], REG_IMASK1)
                &&& r == join_words(rv(d, 0), rv(d, 1))
            }),
    {
        let high = self.reg(REG_IMASK2);
        let low = self.reg(REG_IMASK1);
        proof { assert(self.ops() =~= old(self).ops() + seq![rd(REG_IMASK2, high), rd(REG_IMASK1, low)]); self.lemma_append(old(self), seq![rd(REG_IMASK2, high), rd(REG_IMASK1, low)]); }
        let r = ((high as u64) << 32) | low as u64;
        assert(r == high * 0x1_0000_0000 + low) by (bit_vector)
            requires r == ((high as u64) << 32u64) | low as u64;
        r
    }

    /// Writes the interrupt mask bitfield for all mailboxes.
    pub fn write_imask(&mut self, value: u64)
        ensures
            final(self).continues(old(self)),
            final(self).since(old(self)) == seq![
                wr(REG_IMASK2, (value >> 32u64) as u32),
                wr(REG_IMASK1, value as u32),
            ],
    {
        self.write_reg(REG_IMASK2, (value >> 32) as u32);
        self.write_reg(REG_IMASK1, value as u32);
        proof {
            let d = seq![wr(REG_IMASK2, (value >> 32u64) as u32), wr(REG_IMASK1, value as u32)];
            assert(self.ops() =~= old(self).ops() + d);
            self.lemma_append(old(self), d);
        }
    }

    /// Returns pending controller events; there are none to report, so this is `0`.
    pub fn events(&mut self) -> (r: u64)
        ensures
            *final(self) == *old(self),
            r == 0,
    {
        0
    }

    /// Returns the currently configured FlexCAN clock selection.
    pub fn clock(&self) -> (r: Clock)
        ensures
            r == self.selected_clock(),
    {
        self.clock
    }

    /// Selects the FlexCAN functional clock by programming the CAN clock root.
    ///
    /// Call this before [`Self::set_baud_rate`] when you need a non-default
    /// clock source.
    pub fn set_clock(&mut self, clock: Clock)
        ensures
            extends(final(self).ops(), old(self).ops()),
            final(self).bus() == old(self).bus(),
            final(self).selected_clock() == clock,
            final(self).since(old(self)) == seq![
                BusOp::ClockRoot { sel: clock.root_encoding().0, podf: clock.root_encoding().1 },
            ],
    {
        self.clock = clock;
        let (sel, podf) = clock.cscmr2();
        self.instance.set_clock_root(sel, podf);
        proof {
            assert(self.ops() =~= old(self).ops() + seq![BusOp::ClockRoot { sel, podf }]);
            self.lemma_append(old(self), seq![BusOp::ClockRoot { sel, podf }]);
        }
    }

    /// Returns the current state of a mailbox, or `None` past the enabled mailboxes.
    pub fn mailbox_state(&mut self, mailbox: Mailbox) -> (r: Option<MailboxState>)
        ensures
            final(self).continues(old(self)),
            ({
                let d = final(self).since(old(self));
                &&& d.len() >= 1
                &&& is_read_of(d[0], REG_MCR)
                &&& if mailbox.0 < mcr_mailbox_count(rv(d, 0)) {
                    &&& d.len() == 2
                    &&& is_read_of(d[1], cs_offset(mailbox.0 as nat))
                    &&& r == Some(state_of_cs(rv(d, 1)))
                } else {
                    d.len() == 1 && r is None
                }
            }),
    {
        let index = mailbox.index();
        let mcr = self.reg(REG_MCR);
        let max = mailbox_count_of(mcr);
        if index >= max {
            proof { assert(self.ops() =~= old(self).ops() + seq![rd(REG_MCR, mcr)]); self.lemma_append(old(self), seq![rd(REG_MCR, mcr)]); }
            return None;
        }
        let cs = self.read_mailbox_cs(index);
        proof {
            assert(self.ops() =~= old(self).ops() + seq![rd(REG_MCR, mcr), rd(cs_offset(index as nat), cs)]);
            self.lemma_append(old(self), seq![rd(REG_MCR, mcr), rd(cs_offset(index as nat), cs)]);
        }
        Some(mailbox_state_of(cs))
    }

    /// Enables or disables the RX FIFO interrupts; without FIFO mode it does nothing
    /// past reading MCR.
    pub fn enable_fifo_interrupt(&mut self, enable: bool)
        ensures
            final(self).continues(old(self)),
            ({
                let d = final(self).since(old(self));
                &&& d.len() >= 1
                &&& is_read_of(d[0], REG_MCR)
                &&& if mcr_fifo_enabled(rv(d, 0)) {
                    &&& d.len() == 3
                    &&& rmw_ops(d.subrange(1, 3), REG_IMASK1, |v: u32| fifo_interrupt_mask(v, enable))
                } else {
                    d.len() == 1
                }
            }),
    {
        let mcr = self.reg(REG_MCR);
        if mcr & MCR_FEN == 0 {
            proof { assert(self.ops() =~= old(self).ops() + seq![rd(REG_MCR, mcr)]); self.lemma_append(old(self), seq![rd(REG_MCR, mcr)]); }
            return;
        }
        let imask1 = self.reg(REG_IMASK1);
        let mut value = imask1 & !0xFFu32;
        if enable {
            value = value | 0x20u32;
        } else {
            assert((imask1 & !0xFFu32) | 0u32 == imask1 & !0xFFu32) by (bit_vector);
        }
        self.write_reg(REG_IMASK1, value);
        proof {
            let d = seq![rd(REG_MCR, mcr), rd(REG_IMASK1, imask1), wr(REG_IMASK1, value)];
            assert(self.ops() =~= old(self).ops() + d);
            self.lemma_append(old(self), d);
            assert(d.subrange(1, 3) =~= seq![rd(REG_IMASK1, imask1), wr(REG_IMASK1, value)]);
        }
    }

    /// Enables or disables the interrupt of a single mailbox. Mailboxes outside
    /// the window (below the FIFO area or past the enabled mailboxes) are left alone.
    pub fn enable_mailbox_interrupt(&mut self, mailbox: Mailbox, enable: bool)
        ensures
            final(self).continues(old(self)),
            ({
                let d = final(self).since(old(self));
                &&& window_ops(d)
                &&& if in_window(d, mailbox.0) {
                    &&& d.len() == 4
                    &&& imask_bit_ops(d.subrange(2, 4), mailbox.0 as nat, enable)
                } else {
                    d.len() == 2
                }
            }),
    {
        let index = mailbox.index();
        let (mcr, ctrl2, first, end) = self.window();
        let ghost w = seq![rd(REG_MCR, mcr), rd(REG_CTRL2, ctrl2)];
        if index < first || index >= end {
            proof { assert(self.ops() =~= old(self).ops() + w); self.lemma_append(old(self), w); }
            return;
        }
        let v = self.write_imask_bit(index, enable);
        proof {
            let t = seq![rd(imask_offset(index as nat), v),
                wr(imask_offset(index as nat), imask_with(v, index as nat, enable))];
            let d = w + t;
            assert(self.ops() =~= old(self).ops() + d);
            self.lemma_append(old(self), d);
            assert(d.subrange(2, 4) =~= t);
        }
    }

    /// Sets the accept / reject behavior for one mailbox filter.
    pub fn set_mailbox_filter_state(&mut self, mailbox: Mailbox, mode: FilterMode) -> (r: Result<(), Error>)
        ensures
            final(self).continues(old(self)),
            ({
                let d = final(self).since(old(self));
                &&& window_ops(d)
                &&& if in_window(d, mailbox.0) {
                    &&& r is Ok
                    &&& d.len() == 3
                    &&& d[2] == wr(rximr_offset(mailbox.0 as nat), filter_mode_mask(mode))
                } else {
                    d.len() == 2 && r == Err::<(), Error>(Error::InvalidMailbox)
                }
            }),
    {
        let index = mailbox.index();
        let (mcr, ctrl2, first, end) = self.window();
        let ghost w = seq![rd(REG_MCR, mcr), rd(REG_CTRL2, ctrl2)];
        if index < first || index >= end {
            proof { assert(self.ops() =~= old(self).ops() + w); self.lemma_append(old(self), w); }
            return Err(Error::InvalidMailbox);
        }
        let mask = match mode {
            FilterMode::AcceptAll => 0,
            FilterMode::RejectAll => 0x3FFF_FFFF,
        };
        self.write_rximr(index, mask);
        proof {
            let d = w + seq![wr(rximr_offset(index as nat), mask)];
            assert(self.ops() =~= old(self).ops() + d);
            self.lemma_append(old(self), d);
        }
        Ok(())
    }

    /// Configures a mailbox for transmit, receive, or inactive use.
    pub fn set_mailbox(&mut self, mailbox: Mailbox, mode: MailboxMode, id_type: IdType) -> (r: Result<(), Error>)
        ensures
            final(self).continues(old(self)),
            ({
                let d = final(self).since(old(self));
                &&& window_ops(d)
                &&& if in_window(d, mailbox.0) {
                    &&& r is Ok
                    &&& set_mailbox_ops(d.subrange(2, d.len() as int), mailbox.0 as nat, mode, id_type)
                } else {
                    d.len() == 2 && r == Err::<(), Error>(Error::InvalidMailbox)
                }
            }),
    {
        let index = mailbox.index();
        let (mcr, ctrl2, first, end) = self.window();
        let ghost o = self.ops();
        let ghost w = seq![rd(REG_MCR, mcr), rd(REG_CTRL2, ctrl2)];
        if index < first || index >= end {
            proof { assert(self.ops() =~= old(self).ops() + w); self.lemma_append(old(self), w); }
            return Err(Error::InvalidMailbox);
        }
        let ghost i = index as nat;
        let v0 = self.write_imask_bit(index, false);
        let cs = self.read_mailbox_cs(index);
        self.write_mailbox_id(index, 0);
        self.write_mailbox_word0(index, 0);
        self.write_mailbox_word1(index, 0);
        let ghost mid = seq![
            rd(imask_offset(i), v0), wr(imask_offset(i), imask_with(v0, i, false)),
            rd(cs_offset(i), cs),
            wr(id_offset(i), 0), wr(word0_offset(i), 0), wr(word1_offset(i), 0),
        ];
        assert(self.ops() =~= o + mid);
        let tx = match (mode, id_type) {
            (_, IdType::Inactive) => {
                self.write_mailbox_cs(index, mb_code(MB_CODE_RX_INACTIVE));
                false
            },
            (MailboxMode::Rx, IdType::Standard) => {
                self.write_mailbox_cs(index, rx_empty_cs(false));
                false
            },
            (MailboxMode::Rx, IdType::Extended) => {
                self.write_mailbox_cs(index, rx_empty_cs(true));
                false
            },
            (MailboxMode::Tx, _) => {
                self.write_mailbox_cs(index, mb_code(MB_CODE_TX_INACTIVE));
                true
            },
        };
        assert(tx == configures_tx(mode, id_type));
        let ghost cs_write = seq![wr(cs_offset(i), configured_cs(mode, id_type))];
        assert(self.ops() =~= o + mid + cs_write);
        let ghost mut tx_part = Seq::<BusOp>::empty();
        if tx {
            let v1 = self.write_imask_bit(index, true);
            proof {
                tx_part = seq![rd(imask_offset(i), v1), wr(imask_offset(i), imask_with(v1, i, true))];
            }
        }
        assert(self.ops() =~= o + mid + cs_write + tx_part);
        let t = self.reg(REG_TIMER);
        self.write_iflag_bit(index);
        proof {
            let body = mid + cs_write + tx_part + seq![rd(REG_TIMER, t), wr(iflag_offset(i), mailbox_bit(i))];
            let d = w + body;
            assert(self.ops() =~= old(self).ops() + d);
            self.lemma_append(old(self), d);
            assert(d.subrange(2, d.len() as int) =~= body);
            assert(body.subrange(0, 2) =~= seq![rd(imask_offset(i), v0), wr(imask_offset(i), imask_with(v0, i, false))]);
            if tx {
                assert(body.subrange(7, 9) =~= tx_part);
            }
            let n = body.len() as int;
            assert(body.subrange(n - 1, n) =~= seq![wr(iflag_offset(i), mailbox_bit(i))]);
        }
        Ok(())
    }
}

/// The number of mailboxes in the window `first..end`.
pub open spec fn span(first: nat, end: nat) -> nat {
    if first < end { (end - first) as nat } else { 0 }
}

/// What `set_baud_rate` does in freeze mode for the search outcome `outcome`:
/// nothing when no timing fits, else write CTRL1 and set or clear listen-only.
pub open spec fn baud_body_ops(b: Seq<BusOp>, outcome: Option<(u32, u32)>, listen_only: bool) -> bool {
    match outcome {
        None => b.len() == 0,
        Some(t) => {
            &&& b.len() == 3
            &&& b[0] == wr(REG_CTRL1, ctrl1_for(t.0, t.1))
            &&& rmw_ops(b.subrange(1, 3), REG_CTRL1, |v: u32| if listen_only { v | 0x8u32 } else { v & !0x8u32 })
        },
    }
}

/// The accesses for mailbox `first + k` of `enable_mailbox_interrupts`: set or
/// clear its interrupt enable bit.
pub open spec fn interrupt_block(b: Seq<BusOp>, first: nat, k: int, enable: bool) -> bool {
    let at = 2 + 2 * k;
    let index = (first + k) as nat;
    &&& is_read_of(b[at], imask_offset(index))
    &&& b[at + 1] == wr(imask_offset(index), imask_with(rv(b, at), index, enable))
}

/// The body of `enable_mailbox_interrupts`: read the window, then one block per mailbox.
pub open spec fn interrupts_body_ops(b: Seq<BusOp>, enable: bool) -> bool {
    let f = window_first(b);
    let n = span(f, window_stop(b));
    &&& window_ops(b)
    &&& b.len() == 2 + 2 * n
    &&& forall|k: int| 0 <= k < n ==> #[trigger] interrupt_block(b, f, k, enable)
}

/// The `k`-th write of `set_mailbox_filter_mode`: the RX mask of mailbox `first + k`.
pub open spec fn rximr_write_at(b: Seq<BusOp>, first: nat, k: int, mask: u32) -> bool {
    b[2 + k] == wr(rximr_offset((first + k) as nat), mask)
}

/// The transmission of `m` from mailbox `index`: clear its flag, park the
/// mailbox, write identifier and payload, then start the transmission.
pub open spec fn tx_load_seq(index: nat, m: CanMessage) -> Seq<BusOp> {
    seq![
        wr(iflag_offset(index), mailbox_bit(index)),
        wr(cs_offset(index), 0x0800_0000),
        wr(id_offset(index), id_word(m.flags.extended, m.id)),
        wr(word0_offset(index), be_word(m.buf@[0], m.buf@[1], m.buf@[2], m.buf@[3]) as u32),
        wr(word1_offset(index), be_word(m.buf@[4], m.buf@[5], m.buf@[6], m.buf@[7]) as u32),
        wr(cs_offset(index), tx_cs_word(m.len, m.flags.remote, m.flags.extended)),
    ]
}

/// The `k`-th CS read of `write` found mailbox `first + k` not to be an
/// inactive (free) transmit mailbox.
pub open spec fn skipped_for_tx(b: Seq<BusOp>, first: nat, k: int) -> bool {
    &&& is_read_of(b[2 + k], cs_offset((first + k) as nat))
    &&& cs_code(rv(b, 2 + k)) != 8
}

/// The code of the `k`-th CS word read by a scan of the mailbox window.
pub open spec fn scanned_code(b: Seq<BusOp>, k: int) -> u32 {
    cs_code(rv(b, 2 + k))
}

/// A mailbox that `read` passes over holds no frame: its code is neither RX
/// full (2) nor RX overrun (6).
pub proof fn lemma_skipped_mailbox_holds_no_frame(b: Seq<BusOp>, first: nat, k: int)
    requires
        skipped_for_rx(b, first, k),
    ensures
        scanned_code(b, k) != 2,
        scanned_code(b, k) != 6,
{
}

/// The `k`-th CS read of `read` found mailbox `first + k` without a received frame.
pub open spec fn skipped_for_rx(b: Seq<BusOp>, first: nat, k: int) -> bool {
    &&& is_read_of(b[2 + k], cs_offset((first + k) as nat))
    &&& cs_code(rv(b, 2 + k)) != 2
    &&& cs_code(rv(b, 2 + k)) != 6
}

/// `m` is the frame decoded from the words `cs`, `id`, `w0`, `w1` of mailbox
/// `index` of bus `bus`.
pub open spec fn decoded_from(m: CanMessage, cs: u32, id: u32, w0: u32, w1: u32, index: int, bus: u8) -> bool {
    &&& m.id == frame_id(cs_extended(cs), id)
    &&& m.timestamp == (cs % 0x1_0000) as u16
    &&& m.idhit == 0
    &&& m.flags.extended == cs_extended(cs)
    &&& m.flags.remote == (cs & 0x0010_0000u32 != 0)
    &&& m.flags.overrun == (cs_code(cs) == 6)
    &&& m.len == ((cs >> 16u32) % 16) as u8
    &&& m.buf@ == be_bytes(w0) + be_bytes(w1)
    &&& m.mb == index
    &&& m.bus == bus
    &&& !m.seq
}

/// The last accesses of a filter update on mailbox `index`: the filter
/// identifier, the RX mask, a TIMER read that unlocks the mailbox and the
/// clearing of its flag.
pub open spec fn filter_update_seq(index: nat, filter_id: u32, extended: bool, mask: u32, timer: u32) -> Seq<BusOp> {
    seq![
        wr(id_offset(index), id_word(extended, filter_id)),
        wr(rximr_offset(index), mask),
        rd(REG_TIMER, timer),
        wr(iflag_offset(index), mailbox_bit(index)),
    ]
}

/// The accesses of a filter update of mailbox `index` after the window was read:
/// read the CS word, then (for a receive mailbox) program the filter built by
/// `mask_of` from the extension bit of the CS word.
pub open spec fn filter_ops(d: Seq<BusOp>, index: nat, filter_id: u32, mask_of: spec_fn(bool) -> u32) -> bool {
    let ext = cs_extended(rv(d, 2));
    &&& d.len() >= 3
    &&& is_read_of(d[2], cs_offset(index))
    &&& if cs_code(rv(d, 2)) >= 8 {
        d.len() == 3
    } else {
        &&& d.len() == 7
        &&& is_read_of(d[5], REG_TIMER)
        &&& d.subrange(3, 7) == filter_update_seq(index, filter_id, ext, mask_of(ext), rv(d, 5))
    }
}

impl<I: Instance> FlexCan<I> {
    /// Programs the nominal CAN bitrate.
    ///
    /// The controller enters freeze mode while timings are updated and leaves
    /// it again if it was running before. `listen_only` leaves the peripheral
    /// in bus-monitoring mode.
    pub fn set_baud_rate(&mut self, baud: u32, listen_only: bool) -> (r: Result<(), Error>)
        ensures
            final(self).continues(old(self)),
            ({
                let d = final(self).since(old(self));
                let clock = old(self).selected_clock().frequency() as nat;
                if baud == 0 || clock == 0 {
                    d.len() == 0 && r == Err::<(), Error>(Error::InvalidBaudRate)
                } else {
                    exists|n: nat| #[trigger] search_end(clock, baud as nat, n) && {
                        let outcome = timing_outcome(clock, baud as nat, n);
                        &&& frozen_frame(d)
                        &&& baud_body_ops(frozen_body(d), outcome, listen_only)
                        &&& (outcome is Some ==> r is Ok)
                        &&& (outcome is None ==> r == Err::<(), Error>(Error::InvalidBaudRate))
                        &&& (outcome matches Some((dv, q)) ==> {
                            let w = ctrl1_for(dv, q);
                            &&& ctrl1_divisor(w) <= 256
                            &&& distance(baud as int, (clock / (ctrl1_quanta(w) * ctrl1_divisor(w))) as int) <= 300
                        })
                    }
                }
            }),
    {
        if baud == 0 || self.clock.hz() == 0 {
            proof { self.lemma_append(old(self), Seq::empty()); assert(self.ops() =~= old(self).ops() + Seq::<BusOp>::empty()); }
            return Err(Error::InvalidBaudRate);
        }
        let ghost o = self.ops();
        let (m, v) = self.begin_frozen();
        let leave = m & MCR_FRZACK == 0;
        let timing = baud_timing(self.clock, baud);
        let ghost n = choose|n: nat| #[trigger] search_end(self.clock.frequency() as nat, baud as nat, n)
            && timing == timing_outcome(self.clock.frequency() as nat, baud as nat, n);
        proof {
            lemma_programmed_rate_within_tolerance(self.clock.frequency() as nat, baud as nat, n);
        }
        let ghost head = seq![rd(REG_MCR, m)] + enter_freeze_seq(v);
        let ghost mut body = Seq::<BusOp>::empty();
        let result = match timing {
            None => Err(Error::InvalidBaudRate),
            Some((divisor, q)) => {
                let ctrl1 = timing_ctrl1(divisor, q);
                self.write_reg(REG_CTRL1, ctrl1);
                let lom;
                if listen_only {
                    lom = self.set_bits(REG_CTRL1, CTRL1_LOM);
                } else {
                    lom = self.clear_bits(REG_CTRL1, CTRL1_LOM);
                }
                proof {
                    body = seq![
                        wr(REG_CTRL1, ctrl1),
                        rd(REG_CTRL1, lom),
                        wr(REG_CTRL1, if listen_only { lom | 0x8u32 } else { lom & !0x8u32 }),
                    ];
                    assert(body.subrange(1, 3) =~= seq![rd(REG_CTRL1, lom),
                        wr(REG_CTRL1, if listen_only { lom | 0x8u32 } else { lom & !0x8u32 })]);
                }
                Ok(())
            },
        };
        assert(self.ops() =~= o + head + body);
        let w = self.end_frozen(leave);
        proof {
            let tail = if outside_freeze(m) { exit_freeze_seq(w) } else { Seq::<BusOp>::empty() };
            let d = seq![rd(REG_MCR, m)] + enter_freeze_seq(v) + body + tail;
            assert(self.ops() =~= old(self).ops() + d);
            self.lemma_append(old(self), d);
            lemma_frozen(m, v, body, w);
            assert(search_end(self.clock.frequency() as nat, baud as nat, n));
        }
        result
    }

    /// Enables or disables interrupts for every usable mailbox, in freeze mode.
    pub fn enable_mailbox_interrupts(&mut self, enable: bool)
        ensures
            final(self).continues(old(self)),
            frozen_frame(final(self).since(old(self))),
            interrupts_body_ops(frozen_body(final(self).since(old(self))), enable),
    {
        let (m, v) = self.begin_frozen();
        let leave = m & MCR_FRZACK == 0;
        let ghost o = self.ops();
        let (mcr, ctrl2, first, end) = self.window();
        let ghost mut body = seq![rd(REG_MCR, mcr), rd(REG_CTRL2, ctrl2)];
        let mut index = first;
        while index < end
            invariant
                self.ops() == o + body,
                first <= index,
                (first < end && index <= end) || index == first,
                end <= 64,
                first == first_mailbox(mcr, ctrl2),
                end == window_end(mcr),
                body.len() == 2 + 2 * (index - first),
                body[0] == rd(REG_MCR, mcr),
                body[1] == rd(REG_CTRL2, ctrl2),
                forall|k: int| 0 <= k < index - first ==> #[trigger] interrupt_block(body, first as nat, k, enable),
                self.bus() == old(self).bus(),
                self.clock == old(self).clock,
            decreases end - index,
        {
            let iv = self.write_imask_bit(index, enable);
            let ghost i = index as nat;
            let ghost prev = body;
            proof {
                body = body + seq![rd(imask_offset(i), iv), wr(imask_offset(i), imask_with(iv, i, enable))];
                assert forall|k: int| 0 <= k < index + 1 - first implies #[trigger] interrupt_block(body, first as nat, k, enable) by {
                    if k < index - first {
                        assert(interrupt_block(prev, first as nat, k, enable));
                    }
                }
            }
            assert(self.ops() =~= o + body);
            index = index + 1;
        }
        let w = self.end_frozen(leave);
        proof {
            let tail = if outside_freeze(m) { exit_freeze_seq(w) } else { Seq::<BusOp>::empty() };
            let d = seq![rd(REG_MCR, m)] + enter_freeze_seq(v) + body + tail;
            assert(self.ops() =~= old(self).ops() + d);
            self.lemma_append(old(self), d);
            lemma_frozen(m, v, body, w);
            assert(span(first as nat, end as nat) == index - first);
        }
    }

    /// Sets the same accept / reject behavior for every mailbox filter of the window.
    pub fn set_mailbox_filter_mode(&mut self, mode: FilterMode)
        ensures
            final(self).continues(old(self)),
            ({
                let d = final(self).since(old(self));
                let f = window_first(d);
                let n = span(f, window_stop(d));
                &&& window_ops(d)
                &&& d.len() == 2 + n
                &&& forall|k: int| 0 <= k < n ==> #[trigger] rximr_write_at(d, f, k, filter_mode_mask(mode))
            }),
    {
        let mask = match mode {
            FilterMode::AcceptAll => 0,
            FilterMode::RejectAll => 0x3FFF_FFFF,
        };
        let ghost o = self.ops();
        let (mcr, ctrl2, first, end) = self.window();
        let ghost mut d = seq![rd(REG_MCR, mcr), rd(REG_CTRL2, ctrl2)];
        let mut index = first;
        while index < end
            invariant
                self.ops() == o + d,
                first <= index,
                (first < end && index <= end) || index == first,
                end <= 64,
                first == first_mailbox(mcr, ctrl2),
                end == window_end(mcr),
                d.len() == 2 + (index - first),
                d[0] == rd(REG_MCR, mcr),
                d[1] == rd(REG_CTRL2, ctrl2),
                mask == filter_mode_mask(mode),
                forall|k: int| 0 <= k < index - first ==> #[trigger] rximr_write_at(d, first as nat, k, mask),
                self.bus() == old(self).bus(),
                self.clock == old(self).clock,
            decreases end - index,
        {
            self.write_rximr(index, mask);
            let ghost prev = d;
            proof {
                d = d + seq![wr(rximr_offset(index as nat), mask)];
                assert forall|k: int| 0 <= k < index + 1 - first implies #[trigger] rximr_write_at(d, first as nat, k, mask) by {
                    if k < index - first {
                        assert(rximr_write_at(prev, first as nat, k, mask));
                    }
                }
            }
            assert(self.ops() =~= o + d);
            index = index + 1;
        }
        proof {
            self.lemma_append(old(self), d);
            assert(span(first as nat, end as nat) == index - first);
        }
    }

    /// Writes `message` into mailbox `index` and starts its transmission.
    fn load_tx(&mut self, index: u8, message: &CanMessage)
        requires
            index < 64,
        ensures
            final(self).ops() == old(self).ops() + tx_load_seq(index as nat, *message),
            final(self).bus() == old(self).bus(),
            final(self).clock == old(self).clock,
    {
        self.write_iflag_bit(index);
        self.write_mailbox_cs(index, mb_code(MB_CODE_TX_INACTIVE));
        self.write_mailbox_id(index, tx_id_word(message));
        let lo: [u8; 4] = [message.buf[0], message.buf[1], message.buf[2], message.buf[3]];
        let hi: [u8; 4] = [message.buf[4], message.buf[5], message.buf[6], message.buf[7]];
        let w0 = pack_word(&lo);
        let w1 = pack_word(&hi);
        self.write_mailbox_word0(index, w0);
        self.write_mailbox_word1(index, w1);
        self.write_mailbox_cs(index, tx_cs(message));
        assert(self.ops() =~= old(self).ops() + tx_load_seq(index as nat, *message));
    }

    /// Transmits a frame through a specific TX mailbox.
    ///
    /// Fails with `InvalidMessageLength` when the length exceeds 8, with
    /// `InvalidMailbox` when the mailbox is past the enabled mailboxes, and with
    /// `InvalidConfiguration` when the mailbox is not a transmit mailbox.
    pub fn write_mailbox(&mut self, mailbox: Mailbox, message: &CanMessage) -> (r: Result<(), Error>)
        ensures
            final(self).continues(old(self)),
            ({
                let d = final(self).since(old(self));
                let i = mailbox.0 as nat;
                if message.len > 8 {
                    d.len() == 0 && r == Err::<(), Error>(Error::InvalidMessageLength)
                } else {
                    &&& d.len() >= 1
                    &&& is_read_of(d[0], REG_MCR)
                    &&& if i >= window_end(rv(d, 0)) {
                        d.len() == 1 && r == Err::<(), Error>(Error::InvalidMailbox)
                    } else {
                        &&& d.len() >= 2
                        &&& is_read_of(d[1], cs_offset(i))
                        &&& if cs_code(rv(d, 1)) < 8 {
                            d.len() == 2 && r == Err::<(), Error>(Error::InvalidConfiguration)
                        } else {
                            r is Ok && d.subrange(2, d.len() as int) == tx_load_seq(i, *message)
                        }
                    }
                }
            }),
    {
        let index = mailbox.index();
        if message.len > 8 {
            proof { assert(self.ops() =~= old(self).ops() + Seq::<BusOp>::empty()); self.lemma_append(old(self), Seq::empty()); }
            return Err(Error::InvalidMessageLength);
        }
        let mcr = self.reg(REG_MCR);
        let end = window_end_of(mcr);
        if index >= end {
            proof { assert(self.ops() =~= old(self).ops() + seq![rd(REG_MCR, mcr)]); self.lemma_append(old(self), seq![rd(REG_MCR, mcr)]); }
            return Err(Error::InvalidMailbox);
        }
        let cs = self.read_mailbox_cs(index);
        let ghost head = seq![rd(REG_MCR, mcr), rd(cs_offset(index as nat), cs)];
        if !mb_is_tx(cs) {
            proof { assert(self.ops() =~= old(self).ops() + head); self.lemma_append(old(self), head); }
            return Err(Error::InvalidConfiguration);
        }
        self.load_tx(index, message);
        proof {
            let d = head + tx_load_seq(index as nat, *message);
            assert(self.ops() =~= old(self).ops() + d);
            self.lemma_append(old(self), d);
            assert(d.subrange(2, d.len() as int) =~= tx_load_seq(index as nat, *message));
        }
        Ok(())
    }

    /// Transmits a frame using the first available (inactive) transmit mailbox
    /// of the window; a mailbox still sending its frame is skipped.
    ///
    /// Fails with `InvalidMessageLength` for a length above 8 and with
    /// `WouldBlock` when the window holds no inactive transmit mailbox.
    pub fn write(&mut self, message: &CanMessage) -> (r: Result<(), Error>)
        ensures
            final(self).continues(old(self)),
            ({
                let d = final(self).since(old(self));
                let f = window_first(d);
                let n = span(f, window_stop(d));
                if message.len > 8 {
                    d.len() == 0 && r == Err::<(), Error>(Error::InvalidMessageLength)
                } else {
                    &&& window_ops(d)
                    &&& match r {
                        Ok(()) => {
                            let k = d.len() - 9;
                            &&& 0 <= k < n
                            &&& forall|j: int| 0 <= j < k ==> #[trigger] skipped_for_tx(d, f, j)
                            &&& is_read_of(d[2 + k], cs_offset((f + k) as nat))
                            &&& cs_code(rv(d, 2 + k)) == 8
                            &&& d.subrange(3 + k, d.len() as int) == tx_load_seq((f + k) as nat, *message)
                        },
                        Err(e) => {
                            &&& e == Error::WouldBlock
                            &&& d.len() == 2 + n
                            &&& forall|j: int| 0 <= j < n ==> #[trigger] skipped_for_tx(d, f, j)
                        },
                    }
                }
            }),
    {
        if message.len > 8 {
            proof { assert(self.ops() =~= old(self).ops() + Seq::<BusOp>::empty()); self.lemma_append(old(self), Seq::empty()); }
            return Err(Error::InvalidMessageLength);
        }
        let ghost o = self.ops();
        let (mcr, ctrl2, first, end) = self.window();
        let ghost mut d = seq![rd(REG_MCR, mcr), rd(REG_CTRL2, ctrl2)];
        let mut index = first;
        while index < end
            invariant
                self.ops() == o + d,
                o == old(self).ops(),
                message.len <= 8,
                first <= index,
                (first < end && index <= end) || index == first,
                end <= 64,
                first == first_mailbox(mcr, ctrl2),
                end == window_end(mcr),
                d.len() == 2 + (index - first),
                d[0] == rd(REG_MCR, mcr),
                d[1] == rd(REG_CTRL2, ctrl2),
                forall|k: int| 0 <= k < index - first ==> #[trigger] skipped_for_tx(d, first as nat, k),
                self.bus() == old(self).bus(),
                self.clock == old(self).clock,
            decreases end - index,
        {
            let cs = self.read_mailbox_cs(index);
            let ghost prev = d;
            proof {
                d = d + seq![rd(cs_offset(index as nat), cs)];
            }
            assert(self.ops() =~= o + d);
            if mb_code_value(cs) == MB_CODE_TX_INACTIVE {
                self.load_tx(index, message);
                proof {
                    let full = d + tx_load_seq(index as nat, *message);
                    assert(self.ops() =~= old(self).ops() + full);
                    self.lemma_append(old(self), full);
                    assert(full.subrange(3 + index - first, full.len() as int) =~= tx_load_seq(index as nat, *message));
                    assert forall|j: int| 0 <= j < index - first implies #[trigger] skipped_for_tx(full, first as nat, j) by {
                        assert(skipped_for_tx(prev, first as nat, j));
                    }
                }
                return Ok(());
            }
            proof {
                assert forall|k: int| 0 <= k < index + 1 - first implies #[trigger] skipped_for_tx(d, first as nat, k) by {
                    if k < index - first {
                        assert(skipped_for_tx(prev, first as nat, k));
                    }
                }
            }
            index = index + 1;
        }
        proof {
            self.lemma_append(old(self), d);
            assert(span(first as nat, end as nat) == index - first);
        }
        Err(Error::WouldBlock)
    }

    /// Reads the next received frame of the window, if any, and re-arms its mailbox.
    pub fn read(&mut self) -> (r: Option<CanMessage>)
        ensures
            final(self).continues(old(self)),
            ({
                let d = final(self).since(old(self));
                let f = window_first(d);
                let n = span(f, window_stop(d));
                &&& window_ops(d)
                &&& match r {
                    Some(m) => {
                        let k = m.mb - f;
                        let j = (f + k) as nat;
                        let cs = rv(d, 2 + k);
                        &&& 0 <= k < n
                        &&& d.len() == 2 + k + 7
                        &&& forall|i: int| 0 <= i < k ==> #[trigger] skipped_for_rx(d, f, i)
                        &&& is_read_of(d[2 + k], cs_offset(j))
                        &&& (cs_code(cs) == 2 || cs_code(cs) == 6)
                        &&& is_read_of(d[3 + k], id_offset(j))
                        &&& is_read_of(d[4 + k], word0_offset(j))
                        &&& is_read_of(d[5 + k], word1_offset(j))
                        &&& d[6 + k] == wr(cs_offset(j), if cs_extended(cs) { 0x0460_0000u32 } else { 0x0400_0000u32 })
                        &&& is_read_of(d[7 + k], REG_TIMER)
                        &&& d[8 + k] == wr(iflag_offset(j), mailbox_bit(j))
                        &&& decoded_from(m, cs, rv(d, 3 + k), rv(d, 4 + k), rv(d, 5 + k), j as int, old(self).bus())
                        &&& forall|i: int| 0 <= i < k ==> #[trigger] scanned_code(d, i) != 2 && scanned_code(d, i) != 6
                    },
                    None => {
                        &&& d.len() == 2 + n
                        &&& forall|i: int| 0 <= i < n ==> #[trigger] skipped_for_rx(d, f, i)
                        &&& forall|i: int| 0 <= i < n ==> #[trigger] scanned_code(d, i) != 2 && scanned_code(d, i) != 6
                    },
                }
            }),
    {
        let ghost o = self.ops();
        let (mcr, ctrl2, first, end) = self.window();
        let ghost mut d = seq![rd(REG_MCR, mcr), rd(REG_CTRL2, ctrl2)];
        let mut index = first;
        while index < end
            invariant
                self.ops() == o + d,
                o == old(self).ops(),
                first <= index,
                (first < end && index <= end) || index == first,
                end <= 64,
                first == first_mailbox(mcr, ctrl2),
                end == window_end(mcr),
                d.len() == 2 + (index - first),
                d[0] == rd(REG_MCR, mcr),
                d[1] == rd(REG_CTRL2, ctrl2),
                forall|k: int| 0 <= k < index - first ==> #[trigger] skipped_for_rx(d, first as nat, k),
                self.bus() == old(self).bus(),
                self.clock == old(self).clock,
            decreases end - index,
        {
            let cs = self.read_mailbox_cs(index);
            let code = mb_code_value(cs);
            let ghost prev = d;
            proof {
                d = d + seq![rd(cs_offset(index as nat), cs)];
            }
            assert(self.ops() =~= o + d);
            if code == MB_CODE_RX_FULL || code == MB_CODE_RX_OVERRUN {
                let id_reg = self.read_mailbox_id(index);
                let word0 = self.read_mailbox_word0(index);
                let word1 = self.read_mailbox_word1(index);
                let extended = cs & MB_CS_IDE != 0;
                let bus = self.bus;
                let message = decode_frame(cs, id_reg, word0, word1, index, bus);
                self.write_mailbox_cs(index, rx_empty_cs(extended));
                let t = self.reg(REG_TIMER);
                self.write_iflag_bit(index);
                proof {
                    let i = index as nat;
                    let full = d + seq![rd(id_offset(i), id_reg), rd(word0_offset(i), word0),
                        rd(word1_offset(i), word1), wr(cs_offset(i), rx_empty_cs_value(extended)),
                        rd(REG_TIMER, t), wr(iflag_offset(i), mailbox_bit(i))];
                    assert(self.ops() =~= old(self).ops() + full);
                    self.lemma_append(old(self), full);
                    assert forall|j: int| 0 <= j < index - first implies #[trigger] skipped_for_rx(full, first as nat, j) by {
                        assert(skipped_for_rx(prev, first as nat, j));
                    }
                    assert forall|j: int| 0 <= j < index - first implies #[trigger] scanned_code(full, j) != 2
                        && scanned_code(full, j) != 6 by {
                        assert(skipped_for_rx(prev, first as nat, j));
                        lemma_skipped_mailbox_holds_no_frame(full, first as nat, j);
                    }
                }
                return Some(message);
            }
            proof {
                assert forall|k: int| 0 <= k < index + 1 - first implies #[trigger] skipped_for_rx(d, first as nat, k) by {
                    if k < index - first {
                        assert(skipped_for_rx(prev, first as nat, k));
                    }
                }
            }
            index = index + 1;
        }
        proof {
            self.lemma_append(old(self), d);
            assert(span(first as nat, end as nat) == index - first);
            assert forall|j: int| 0 <= j < index - first implies #[trigger] scanned_code(d, j) != 2
                && scanned_code(d, j) != 6 by {
                lemma_skipped_mailbox_holds_no_frame(d, first as nat, j);
            }
        }
        None
    }
}

/// The CS word of an empty receive mailbox.
pub open spec fn rx_empty_cs_value(extended: bool) -> u32 {
    if extended { 0x0460_0000u32 } else { 0x0400_0000u32 }
}

/// `filter_update_seq` for the value read from TIMER.
proof fn lemma_filter_ops(d: Seq<BusOp>, index: nat, filter_id: u32, cs: u32, timer: u32, mask: u32, mask_of: spec_fn(bool) -> u32)
    requires
        d.len() == 7,
        is_read_of(d[2], cs_offset(index)),
        rv(d, 2) == cs,
        cs_code(cs) < 8,
        mask == mask_of(cs_extended(cs)),
        d.subrange(3, 7) == filter_update_seq(index, filter_id, cs_extended(cs), mask, timer),
    ensures
        filter_ops(d, index, filter_id, mask_of),
{
    assert(d[5] == d.subrange(3, 7)[2]);
}

impl<I: Instance> FlexCan<I> {
    fn filter_update(&mut self, index: u8, filter_id: u32, extended: bool, mask: u32) -> (t: u32)
        requires
            index < 64,
        ensures
            final(self).ops() == old(self).ops() + filter_update_seq(index as nat, filter_id, extended, mask, t),
            final(self).bus() == old(self).bus(),
            final(self).clock == old(self).clock,
    {
        let id = if extended { mb_id_ext(filter_id) } else { mb_id_std(filter_id) };
        self.write_mailbox_id(index, id);
        self.write_rximr(index, mask);
        let t = self.reg(REG_TIMER);
        self.write_iflag_bit(index);
        assert(self.ops() =~= old(self).ops() + filter_update_seq(index as nat, filter_id, extended, mask, t));
        t
    }

    fn set_mailbox_filter_inner(&mut self, mailbox: Mailbox, ids: &[u32], user_mask: Option<u32>) -> (r: Result<(), Error>)
        ensures
            final(self).continues(old(self)),
            ({
                let d = final(self).since(old(self));
                &&& window_ops(d)
                &&& if !in_window(d, mailbox.0) || ids@.len() == 0 || ids@.len() > 5 {
                    d.len() == 2 && r == Err::<(), Error>(Error::InvalidMailbox)
                } else {
                    &&& filter_ops(d, mailbox.0 as nat, ids@[0], |ext: bool| ids_filter_mask(ids@, ext, user_mask))
                    &&& (r is Ok <==> cs_code(rv(d, 2)) < 8)
                    &&& (r is Err ==> r == Err::<(), Error>(Error::InvalidMailbox))
                }
            }),
    {
        let index = mailbox.index();
        let (mcr, ctrl2, first, end) = self.window();
        let ghost w = seq![rd(REG_MCR, mcr), rd(REG_CTRL2, ctrl2)];
        if index < first || index >= end || ids.len() == 0 || ids.len() > 5 {
            proof { assert(self.ops() =~= old(self).ops() + w); self.lemma_append(old(self), w); }
            return Err(Error::InvalidMailbox);
        }
        let cs = self.read_mailbox_cs(index);
        let ghost head = w + seq![rd(cs_offset(index as nat), cs)];
        if mb_is_tx(cs) {
            proof { assert(self.ops() =~= old(self).ops() + head); self.lemma_append(old(self), head); }
            return Err(Error::InvalidMailbox);
        }
        let extended = cs & MB_CS_IDE != 0;
        let mask = filter_mask_for_ids(ids, extended, user_mask);
        let t = self.filter_update(index, ids[0], extended, mask);
        proof {
            let d = head + filter_update_seq(index as nat, ids@[0], extended, mask, t);
            assert(self.ops() =~= old(self).ops() + d);
            self.lemma_append(old(self), d);
            assert(d.subrange(3, 7) =~= filter_update_seq(index as nat, ids@[0], extended, mask, t));
            lemma_filter_ops(d, index as nat, ids@[0], cs, t, mask, |ext: bool| ids_filter_mask(ids@, ext, user_mask));
        }
        Ok(())
    }

    /// Programs a mailbox filter from one to five identifier examples: the filter
    /// compares the identifier bits on which all examples agree.
    ///
    /// Fails with `InvalidMailbox` for a mailbox outside the window, an empty or
    /// too long list, or a transmit mailbox.
    pub fn set_mailbox_filter(&mut self, mailbox: Mailbox, ids: &[u32]) -> (r: Result<(), Error>)
        ensures
            final(self).continues(old(self)),
            ({
                let d = final(self).since(old(self));
                &&& window_ops(d)
                &&& if !in_window(d, mailbox.0) || ids@.len() == 0 || ids@.len() > 5 {
                    d.len() == 2 && r == Err::<(), Error>(Error::InvalidMailbox)
                } else {
                    &&& filter_ops(d, mailbox.0 as nat, ids@[0], |ext: bool| ids_filter_mask(ids@, ext, None))
                    &&& (r is Ok <==> cs_code(rv(d, 2)) < 8)
                    &&& (r is Err ==> r == Err::<(), Error>(Error::InvalidMailbox))
                }
            }),
    {
        self.set_mailbox_filter_inner(mailbox, ids, None)
    }

    /// Programs a mailbox filter from identifier examples, restricted to the
    /// identifier bits of the user mask `mask`.
    pub fn set_mailbox_user_filter(&mut self, mailbox: Mailbox, ids: &[u32], mask: u32) -> (r: Result<(), Error>)
        ensures
            final(self).continues(old(self)),
            ({
                let d = final(self).since(old(self));
                &&& window_ops(d)
                &&& if !in_window(d, mailbox.0) || ids@.len() == 0 || ids@.len() > 5 {
                    d.len() == 2 && r == Err::<(), Error>(Error::InvalidMailbox)
                } else {
                    &&& filter_ops(d, mailbox.0 as nat, ids@[0], |ext: bool| ids_filter_mask(ids@, ext, Some(mask)))
                    &&& (r is Ok <==> cs_code(rv(d, 2)) < 8)
                    &&& (r is Err ==> r == Err::<(), Error>(Error::InvalidMailbox))
                }
            }),
    {
        self.set_mailbox_filter_inner(mailbox, ids, Some(mask))
    }

    /// Programs a mailbox filter that accepts every identifier in `start..=end`:
    /// it compares the bits above the highest bit in which `start` and `end`
    /// differ (see `lemma_range_filter_accepts_range`).
    pub fn set_mailbox_filter_range(&mut self, mailbox: Mailbox, start: u32, end: u32) -> (r: Result<(), Error>)
        ensures
            final(self).continues(old(self)),
            ({
                let d = final(self).since(old(self));
                &&& window_ops(d)
                &&& if !in_window(d, mailbox.0) {
                    d.len() == 2 && r == Err::<(), Error>(Error::InvalidMailbox)
                } else {
                    &&& filter_ops(d, mailbox.0 as nat, start, |ext: bool| range_filter_mask(start, end, ext))
                    &&& (r is Ok <==> cs_code(rv(d, 2)) < 8)
                    &&& (r is Err ==> r == Err::<(), Error>(Error::InvalidMailbox))
                }
            }),
    {
        let index = mailbox.index();
        let (mcr, ctrl2, first, stop) = self.window();
        let ghost w = seq![rd(REG_MCR, mcr), rd(REG_CTRL2, ctrl2)];
        if index < first || index >= stop {
            proof { assert(self.ops() =~= old(self).ops() + w); self.lemma_append(old(self), w); }
            return Err(Error::InvalidMailbox);
        }
        let cs = self.read_mailbox_cs(index);
        let ghost head = w + seq![rd(cs_offset(index as nat), cs)];
        if mb_is_tx(cs) {
            proof { assert(self.ops() =~= old(self).ops() + head); self.lemma_append(old(self), head); }
            return Err(Error::InvalidMailbox);
        }
        let extended = cs & MB_CS_IDE != 0;
        let mask = filter_mask_for_range(start, end, extended);
        let t = self.filter_update(index, start, extended, mask);
        proof {
            let d = head + filter_update_seq(index as nat, start, extended, mask, t);
            assert(self.ops() =~= old(self).ops() + d);
            self.lemma_append(old(self), d);
            assert(d.subrange(3, 7) =~= filter_update_seq(index as nat, start, extended, mask, t));
            lemma_filter_ops(d, index as nat, start, cs, t, mask, |ext: bool| range_filter_mask(start, end, ext));
        }
        Ok(())
    }
}

/// Block `k` of the first loop of `enable_fifo`: zero mailbox `k` and its RX mask.
pub open spec fn fifo_clear_block(b: Seq<BusOp>, k: int) -> bool {
    let at = 5 + 5 * k;
    let i = k as nat;
    &&& b[at] == wr(cs_offset(i), 0)
    &&& b[at + 1] == wr(id_offset(i), 0)
    &&& b[at + 2] == wr(word0_offset(i), 0)
    &&& b[at + 3] == wr(word1_offset(i), 0)
    &&& b[at + 4] == wr(rximr_offset(i), 0)
}

/// Block `k` of a loop starting at `base` that makes mailbox `first + k` an
/// inactive transmit mailbox with its interrupt enabled.
pub open spec fn tx_enable_block(b: Seq<BusOp>, base: int, first: nat, k: int) -> bool {
    let at = base + 3 * k;
    let i = (first + k) as nat;
    &&& b[at] == wr(cs_offset(i), 0x0800_0000)
    &&& is_read_of(b[at + 1], imask_offset(i))
    &&& b[at + 2] == wr(imask_offset(i), imask_with(rv(b, at + 1), i, true))
}

/// What `enable_fifo` does in freeze mode: disable the FIFO, mask all mailbox
/// interrupts, zero every mailbox and RX mask, zero the global masks, clear all
/// flags, enable the FIFO, then make every mailbox past the FIFO area an
/// inactive transmit mailbox with its interrupt enabled.
pub open spec fn enable_fifo_body(b: Seq<BusOp>) -> bool {
    let n1 = window_end(rv(b, 4));
    let p: int = 5 + 5 * (n1 as int);
    let f = first_mailbox(rv(b, p + 8), rv(b, p + 9));
    let n2 = span(f, window_end(rv(b, p + 8)));
    &&& b.len() == p + 10 + 3 * n2
    &&& rmw_ops(b.subrange(0, 2), REG_MCR, |v: u32| v & !0x2000_0000u32)
    &&& b[2] == wr(REG_IMASK2, 0)
    &&& b[3] == wr(REG_IMASK1, 0)
    &&& is_read_of(b[4], REG_MCR)
    &&& forall|k: int| 0 <= k < n1 ==> #[trigger] fifo_clear_block(b, k)
    &&& b[p] == wr(REG_RXMGMASK, 0)
    &&& b[p + 1] == wr(REG_RXFGMASK, 0)
    &&& flush_iflags_ops(b.subrange(p + 2, p + 6))
    &&& rmw_ops(b.subrange(p + 6, p + 8), REG_MCR, |v: u32| v | 0x2000_0000u32)
    &&& is_read_of(b[p + 8], REG_MCR)
    &&& is_read_of(b[p + 9], REG_CTRL2)
    &&& forall|k: int| 0 <= k < n2 ==> #[trigger] tx_enable_block(b, p + 10, f, k)
}

/// The individual RX mask `disable_fifo` gives receive mailboxes: with EACEN set
/// the RTR bit takes part in the comparison.
pub open spec fn rx_default_mask(ctrl2: u32) -> u32 {
    if ctrl2 & 0x0001_0000u32 != 0 { 0x4000_0000u32 } else { 0u32 }
}

/// The number of receive mailboxes `disable_fifo` sets up: the lower half of the
/// enabled mailboxes, within the window.
pub open spec fn rx_half(mcr: u32) -> nat {
    let h = mcr_mailbox_count(mcr) / 2;
    if h <= window_end(mcr) { h } else { window_end(mcr) }
}

/// Block `k` (a receive mailbox) of `disable_fifo`: zero the mailbox, arm it as
/// an empty receive mailbox (extended in its upper half) and set its RX mask.
pub open spec fn rx_default_block(b: Seq<BusOp>, k: int) -> bool {
    let at = 6 + 6 * k;
    let i = k as nat;
    let count = mcr_mailbox_count(rv(b, 4));
    &&& b[at] == wr(cs_offset(i), 0)
    &&& b[at + 1] == wr(id_offset(i), 0)
    &&& b[at + 2] == wr(word0_offset(i), 0)
    &&& b[at + 3] == wr(word1_offset(i), 0)
    &&& b[at + 4] == wr(cs_offset(i), rx_empty_cs_value(i >= count / 4))
    &&& b[at + 5] == wr(rximr_offset(i), rx_default_mask(rv(b, 5)))
}

/// Block `k` (a transmit mailbox, `rx_half + k`) of `disable_fifo`: zero the
/// mailbox, make it an inactive transmit mailbox and enable its interrupt.
pub open spec fn tx_default_block(b: Seq<BusOp>, base: int, first: nat, k: int) -> bool {
    let at = base + 7 * k;
    let i = (first + k) as nat;
    &&& b[at] == wr(cs_offset(i), 0)
    &&& b[at + 1] == wr(id_offset(i), 0)
    &&& b[at + 2] == wr(word0_offset(i), 0)
    &&& b[at + 3] == wr(word1_offset(i), 0)
    &&& b[at + 4] == wr(cs_offset(i), 0x0800_0000)
    &&& is_read_of(b[at + 5], imask_offset(i))
    &&& b[at + 6] == wr(imask_offset(i), imask_with(rv(b, at + 5), i, true))
}

/// What `disable_fifo` does in freeze mode: disable the FIFO, mask all mailbox
/// interrupts, read MCR and CTRL2, make the lower half of the mailboxes receive
/// mailboxes and the upper half transmit mailboxes, then clear all flags.
pub open spec fn disable_fifo_body(b: Seq<BusOp>) -> bool {
    let h = rx_half(rv(b, 4));
    let e = window_end(rv(b, 4));
    let t = span(h, e);
    let p: int = 6 + 6 * (h as int) + 7 * (t as int);
    &&& b.len() == p + 4
    &&& rmw_ops(b.subrange(0, 2), REG_MCR, |v: u32| v & !0x2000_0000u32)
    &&& b[2] == wr(REG_IMASK2, 0)
    &&& b[3] == wr(REG_IMASK1, 0)
    &&& is_read_of(b[4], REG_MCR)
    &&& is_read_of(b[5], REG_CTRL2)
    &&& forall|k: int| 0 <= k < h ==> #[trigger] rx_default_block(b, k)
    &&& forall|k: int| 0 <= k < t ==> #[trigger] tx_default_block(b, 6 + 6 * (h as int), h, k)
    &&& flush_iflags_ops(b.subrange(p, p + 4))
}

/// `s` is the complete history of an `enable_fifo` call.
#[verifier::opaque]
pub open spec fn enable_fifo_history(s: Seq<BusOp>) -> bool {
    frozen_frame(s) && enable_fifo_body(frozen_body(s))
}

/// `s` is the complete history of a `disable_fifo` call.
#[verifier::opaque]
pub open spec fn disable_fifo_history(s: Seq<BusOp>) -> bool {
    frozen_frame(s) && disable_fifo_body(frozen_body(s))
}

/// The MCR value with its MAXMB field replaced by `last`.
pub open spec fn mcr_with_maxmb(v: u32, last: u8) -> u32 {
    (v & !0x7Fu32) | (last as u32)
}

/// The body of `set_max_mailboxes` splits at `k`: after the MCR read come a
/// complete `disable_fifo` history up to `k`, the clearing of all flags, the
/// new MAXMB field and, if the FIFO was on, a complete `enable_fifo` history.
pub open spec fn max_mailboxes_split(b: Seq<BusOp>, k: int, last: u8) -> bool {
    &&& 1 <= k
    &&& k + 6 <= b.len()
    &&& is_read_of(b[0], REG_MCR)
    &&& disable_fifo_history(b.subrange(1, k))
    &&& flush_iflags_ops(b.subrange(k, k + 4))
    &&& rmw_ops(b.subrange(k + 4, k + 6), REG_MCR, |v: u32| mcr_with_maxmb(v, last))
    &&& if mcr_fifo_enabled(rv(b, 0)) {
        enable_fifo_history(b.subrange(k + 6, b.len() as int))
    } else {
        b.len() == k + 6
    }
}

/// The MCR value `begin` programs from `v`: self reception off, individual
/// masking, abort, local priority, self wake-up, wake-up source, warnings and
/// wake-up mask on; DMA and flexible data rate off.
pub open spec fn begin_mcr(v: u32) -> u32 {
    (v | 0x0002_0000u32 | 0x0001_0000u32 | 0x0000_1000u32 | 0x0000_2000u32 | 0x0040_0000u32
        | 0x0008_0000u32 | 0x0020_0000u32 | 0x0400_0000u32) & !(0x0000_8000u32 | 0x0000_0800u32)
}

/// The complete history of `begin`.
pub open spec fn begin_history(d: Seq<BusOp>) -> bool {
    &&& d.len() >= 23
    &&& d[0] == (BusOp::ClockRoot { sel: 1, podf: 0 })
    &&& rmw_ops(d.subrange(1, 3), REG_MCR, |v: u32| v & !0x8000_0000u32)
    &&& enter_freeze_ops(d.subrange(3, 6))
    &&& rmw_ops(d.subrange(6, 8), REG_CTRL1, |v: u32| v | 0x8u32)
    &&& rmw_ops(d.subrange(8, 10), REG_MCR, |v: u32| v | 0x4000_0000u32)
    &&& d[10] == (BusOp::WaitClear { offset: REG_MCR, mask: 0x0010_0000u32 })
    &&& soft_reset_ops(d.subrange(11, 14))
    &&& d[14] == (BusOp::WaitSet { offset: REG_MCR, mask: 0x0100_0000u32 })
    &&& rmw_ops(d.subrange(15, 17), REG_MCR, |v: u32| begin_mcr(v))
    &&& rmw_ops(d.subrange(17, 19), REG_CTRL2, |v: u32| v | 0x0002_0000u32 | 0x0001_0000u32 | 0x0004_0000u32)
    &&& disable_fifo_history(d.subrange(19, d.len() - 4))
    &&& exit_freeze_ops(d.subrange(d.len() - 4, d.len() as int))
}

proof fn lemma_rmw(offset: usize, v: u32, w: u32, f: spec_fn(u32) -> u32)
    requires
        w == f(v),
    ensures
        rmw_ops(seq![rd(offset, v), wr(offset, w)], offset, f),
{
}

proof fn lemma_flush(h: u32, l: u32)
    ensures
        flush_iflags_ops(seq![rd(REG_IFLAG2, h), rd(REG_IFLAG1, l), wr(REG_IFLAG2, h), wr(REG_IFLAG1, l)]),
{
}

impl<I: Instance> FlexCan<I> {
    /// Reads both flag registers and writes them back, clearing every flag set.
    fn flush_iflags(&mut self) -> (r: (u32, u32))
        ensures
            final(self).ops() == old(self).ops() + seq![
                rd(REG_IFLAG2, r.0), rd(REG_IFLAG1, r.1), wr(REG_IFLAG2, r.0), wr(REG_IFLAG1, r.1),
            ],
            final(self).bus() == old(self).bus(),
            final(self).clock == old(self).clock,
    {
        let h = self.reg(REG_IFLAG2);
        let l = self.reg(REG_IFLAG1);
        self.write_reg(REG_IFLAG2, h);
        self.write_reg(REG_IFLAG1, l);
        assert(self.ops() =~= old(self).ops() + seq![
            rd(REG_IFLAG2, h), rd(REG_IFLAG1, l), wr(REG_IFLAG2, h), wr(REG_IFLAG1, l),
        ]);
        (h, l)
    }

    /// Enables the hardware receive FIFO.
    ///
    /// This reinitializes mailbox state and reserves the low-numbered mailbox
    /// region for FIFO operation.
    pub fn enable_fifo(&mut self)
        ensures
            final(self).continues(old(self)),
            enable_fifo_history(final(self).since(old(self))),
    {
        let (m, v) = self.begin_frozen();
        let leave = m & MCR_FRZACK == 0;
        let ghost o = self.ops();
        let a = self.clear_bits(REG_MCR, MCR_FEN);
        self.write_reg(REG_IMASK2, 0);
        self.write_reg(REG_IMASK1, 0);
        let mcr1 = self.reg(REG_MCR);
        let end1 = window_end_of(mcr1);
        let ghost mut b = seq![rd(REG_MCR, a), wr(REG_MCR, a & !0x2000_0000u32), wr(REG_IMASK2, 0),
            wr(REG_IMASK1, 0), rd(REG_MCR, mcr1)];
        assert(self.ops() =~= o + b);
        let mut index: u8 = 0;
        while index < end1
            invariant
                self.ops() == o + b,
                index <= end1,
                end1 <= 64,
                end1 == window_end(mcr1),
                b.len() == 5 + 5 * index,
                b[0] == rd(REG_MCR, a),
                b[1] == wr(REG_MCR, a & !0x2000_0000u32),
                b[2] == wr(REG_IMASK2, 0),
                b[3] == wr(REG_IMASK1, 0),
                b[4] == rd(REG_MCR, mcr1),
                forall|k: int| 0 <= k < index ==> #[trigger] fifo_clear_block(b, k),
                self.bus() == old(self).bus(),
                self.clock == old(self).clock,
            decreases end1 - index,
        {
            self.clear_mailbox(index);
            self.write_rximr(index, 0);
            let ghost prev = b;
            let ghost i = index as nat;
            proof {
                b = b + seq![wr(cs_offset(i), 0), wr(id_offset(i), 0), wr(word0_offset(i), 0),
                    wr(word1_offset(i), 0), wr(rximr_offset(i), 0)];
                assert forall|k: int| 0 <= k < index + 1 implies #[trigger] fifo_clear_block(b, k) by {
                    if k < index {
                        assert(fifo_clear_block(prev, k));
                    }
                }
            }
            assert(self.ops() =~= o + b);
            index = index + 1;
        }
        let ghost p = b.len() as int;
        self.write_reg(REG_RXMGMASK, 0);
        self.write_reg(REG_RXFGMASK, 0);
        let (h, l) = self.flush_iflags();
        let c = self.set_bits(REG_MCR, MCR_FEN);
        let (mcr2, ctrl2, first, end) = self.window();
        let ghost base_part = b;
        proof {
            b = b + seq![wr(REG_RXMGMASK, 0), wr(REG_RXFGMASK, 0), rd(REG_IFLAG2, h), rd(REG_IFLAG1, l),
                wr(REG_IFLAG2, h), wr(REG_IFLAG1, l), rd(REG_MCR, c), wr(REG_MCR, c | 0x2000_0000u32),
                rd(REG_MCR, mcr2), rd(REG_CTRL2, ctrl2)];
            assert forall|k: int| 0 <= k < end1 implies #[trigger] fifo_clear_block(b, k) by {
                assert(fifo_clear_block(base_part, k));
            }
        }
        assert(self.ops() =~= o + b);
        let mut j = first;
        while j < end
            invariant
                self.ops() == o + b,
                first <= j,
                (first < end && j <= end) || j == first,
                end <= 64,
                first == first_mailbox(mcr2, ctrl2),
                end == window_end(mcr2),
                p == 5 + 5 * end1,
                b.len() == p + 10 + 3 * (j - first),
                b[0] == rd(REG_MCR, a),
                b[1] == wr(REG_MCR, a & !0x2000_0000u32),
                b[2] == wr(REG_IMASK2, 0),
                b[3] == wr(REG_IMASK1, 0),
                b[4] == rd(REG_MCR, mcr1),
                forall|k: int| 0 <= k < end1 ==> #[trigger] fifo_clear_block(b, k),
                b[p] == wr(REG_RXMGMASK, 0),
                b[p + 1] == wr(REG_RXFGMASK, 0),
                b[p + 2] == rd(REG_IFLAG2, h),
                b[p + 3] == rd(REG_IFLAG1, l),
                b[p + 4] == wr(REG_IFLAG2, h),
                b[p + 5] == wr(REG_IFLAG1, l),
                b[p + 6] == rd(REG_MCR, c),
                b[p + 7] == wr(REG_MCR, c | 0x2000_0000u32),
                b[p + 8] == rd(REG_MCR, mcr2),
                b[p + 9] == rd(REG_CTRL2, ctrl2),
                forall|k: int| 0 <= k < j - first ==> #[trigger] tx_enable_block(b, p + 10, first as nat, k),
                self.bus() == old(self).bus(),
                self.clock == old(self).clock,
            decreases end - j,
        {
            self.write_mailbox_cs(j, mb_code(MB_CODE_TX_INACTIVE));
            let iv = self.write_imask_bit(j, true);
            let ghost prev = b;
            let ghost i = j as nat;
            proof {
                b = b + seq![wr(cs_offset(i), 0x0800_0000), rd(imask_offset(i), iv),
                    wr(imask_offset(i), imask_with(iv, i, true))];
                assert forall|k: int| 0 <= k < end1 implies #[trigger] fifo_clear_block(b, k) by {
                    assert(fifo_clear_block(prev, k));
                }
                assert forall|k: int| 0 <= k < j + 1 - first implies #[trigger] tx_enable_block(b, p + 10, first as nat, k) by {
                    if k < j - first {
                        assert(tx_enable_block(prev, p + 10, first as nat, k));
                    }
                }
            }
            assert(self.ops() =~= o + b);
            j = j + 1;
        }
        let w = self.end_frozen(leave);
        proof {
            assert(span(first as nat, end as nat) == j - first);
            assert(b.subrange(0, 2) =~= seq![rd(REG_MCR, a), wr(REG_MCR, a & !0x2000_0000u32)]);
            assert(b.subrange(p + 2, p + 6) =~= seq![rd(REG_IFLAG2, h), rd(REG_IFLAG1, l), wr(REG_IFLAG2, h), wr(REG_IFLAG1, l)]);
            assert(b.subrange(p + 6, p + 8) =~= seq![rd(REG_MCR, c), wr(REG_MCR, c | 0x2000_0000u32)]);
            lemma_flush(h, l);
            let tail = if outside_freeze(m) { exit_freeze_seq(w) } else { Seq::<BusOp>::empty() };
            let d = seq![rd(REG_MCR, m)] + enter_freeze_seq(v) + b + tail;
            assert(self.ops() =~= old(self).ops() + d);
            self.lemma_append(old(self), d);
            lemma_frozen(m, v, b, w);
            reveal(enable_fifo_history);
        }
    }

    /// Disables the hardware receive FIFO and restores mailbox-based reception:
    /// the lower half of the mailboxes receive (standard identifiers in the first
    /// quarter, extended in the second), the upper half transmit.
    pub fn disable_fifo(&mut self)
        ensures
            final(self).continues(old(self)),
            disable_fifo_history(final(self).since(old(self))),
    {
        let (m, v) = self.begin_frozen();
        let leave = m & MCR_FRZACK == 0;
        let ghost o = self.ops();
        let a = self.clear_bits(REG_MCR, MCR_FEN);
        self.write_reg(REG_IMASK2, 0);
        self.write_reg(REG_IMASK1, 0);
        let mcr1 = self.reg(REG_MCR);
        let ctrl2 = self.reg(REG_CTRL2);
        let count = mailbox_count_of(mcr1);
        let end = window_end_of(mcr1);
        let half0 = count / 2;
        let half = if half0 <= end { half0 } else { end };
        let quarter = count / 4;
        let rx_mask: u32 = if ctrl2 & CTRL2_EACEN != 0 { 0x4000_0000 } else { 0 };
        assert(half == rx_half(mcr1));
        let ghost mut b = seq![rd(REG_MCR, a), wr(REG_MCR, a & !0x2000_0000u32), wr(REG_IMASK2, 0),
            wr(REG_IMASK1, 0), rd(REG_MCR, mcr1), rd(REG_CTRL2, ctrl2)];
        assert(self.ops() =~= o + b);
        let mut index: u8 = 0;
        while index < half
            invariant
                self.ops() == o + b,
                index <= half,
                half <= end,
                end <= 64,
                count == mcr_mailbox_count(mcr1),
                quarter == count / 4,
                rx_mask == rx_default_mask(ctrl2),
                b.len() == 6 + 6 * index,
                b[0] == rd(REG_MCR, a),
                b[1] == wr(REG_MCR, a & !0x2000_0000u32),
                b[2] == wr(REG_IMASK2, 0),
                b[3] == wr(REG_IMASK1, 0),
                b[4] == rd(REG_MCR, mcr1),
                b[5] == rd(REG_CTRL2, ctrl2),
                forall|k: int| 0 <= k < index ==> #[trigger] rx_default_block(b, k),
                self.bus() == old(self).bus(),
                self.clock == old(self).clock,
            decreases half - index,
        {
            self.clear_mailbox(index);
            let extended = index >= quarter;
            self.write_mailbox_cs(index, rx_empty_cs(extended));
            self.write_rximr(index, rx_mask);
            let ghost prev = b;
            let ghost i = index as nat;
            proof {
                b = b + seq![wr(cs_offset(i), 0), wr(id_offset(i), 0), wr(word0_offset(i), 0),
                    wr(word1_offset(i), 0), wr(cs_offset(i), rx_empty_cs_value(extended)),
                    wr(rximr_offset(i), rx_mask)];
                assert forall|k: int| 0 <= k < index + 1 implies #[trigger] rx_default_block(b, k) by {
                    if k < index {
                        assert(rx_default_block(prev, k));
                    }
                }
            }
            assert(self.ops() =~= o + b);
            index = index + 1;
        }
        let ghost rx_part = b;
        let mut j = half;
        while j < end
            invariant
                self.ops() == o + b,
                half <= j,
                (half < end && j <= end) || j == half,
                half <= end,
                end <= 64,
                end == window_end(mcr1),
                half == rx_half(mcr1),
                b.len() == 6 + 6 * half + 7 * (j - half),
                b[0] == rd(REG_MCR, a),
                b[1] == wr(REG_MCR, a & !0x2000_0000u32),
                b[2] == wr(REG_IMASK2, 0),
                b[3] == wr(REG_IMASK1, 0),
                b[4] == rd(REG_MCR, mcr1),
                b[5] == rd(REG_CTRL2, ctrl2),
                forall|k: int| 0 <= k < half ==> #[trigger] rx_default_block(b, k),
                forall|k: int| 0 <= k < j - half ==> #[trigger] tx_default_block(b, 6 + 6 * half, half as nat, k),
                self.bus() == old(self).bus(),
                self.clock == old(self).clock,
            decreases end - j,
        {
            self.clear_mailbox(j);
            self.write_mailbox_cs(j, mb_code(MB_CODE_TX_INACTIVE));
            let iv = self.write_imask_bit(j, true);
            let ghost prev = b;
            let ghost i = j as nat;
            proof {
                b = b + seq![wr(cs_offset(i), 0), wr(id_offset(i), 0), wr(word0_offset(i), 0),
                    wr(word1_offset(i), 0), wr(cs_offset(i), 0x0800_0000), rd(imask_offset(i), iv),
                    wr(imask_offset(i), imask_with(iv, i, true))];
                assert forall|k: int| 0 <= k < half implies #[trigger] rx_default_block(b, k) by {
                    assert(rx_default_block(prev, k));
                }
                assert forall|k: int| 0 <= k < j + 1 - half implies #[trigger] tx_default_block(b, 6 + 6 * half, half as nat, k) by {
                    if k < j - half {
                        assert(tx_default_block(prev, 6 + 6 * half, half as nat, k));
                    }
                }
            }
            assert(self.ops() =~= o + b);
            j = j + 1;
        }
        let (h, l) = self.flush_iflags();
        let ghost loops = b;
        proof {
            b = b + seq![rd(REG_IFLAG2, h), rd(REG_IFLAG1, l), wr(REG_IFLAG2, h), wr(REG_IFLAG1, l)];
            assert forall|k: int| 0 <= k < half implies #[trigger] rx_default_block(b, k) by {
                assert(rx_default_block(loops, k));
            }
            assert forall|k: int| 0 <= k < j - half implies #[trigger] tx_default_block(b, 6 + 6 * half, half as nat, k) by {
                assert(tx_default_block(loops, 6 + 6 * half, half as nat, k));
            }
        }
        assert(self.ops() =~= o + b);
        let w = self.end_frozen(leave);
        proof {
            assert(span(half as nat, end as nat) == j - half);
            let p = loops.len() as int;
            assert(b.subrange(0, 2) =~= seq![rd(REG_MCR, a), wr(REG_MCR, a & !0x2000_0000u32)]);
            assert(b.subrange(p, p + 4) =~= seq![rd(REG_IFLAG2, h), rd(REG_IFLAG1, l), wr(REG_IFLAG2, h), wr(REG_IFLAG1, l)]);
            lemma_flush(h, l);
            let tail = if outside_freeze(m) { exit_freeze_seq(w) } else { Seq::<BusOp>::empty() };
            let d = seq![rd(REG_MCR, m)] + enter_freeze_seq(v) + b + tail;
            assert(self.ops() =~= old(self).ops() + d);
            self.lemma_append(old(self), d);
            lemma_frozen(m, v, b, w);
            reveal(disable_fifo_history);
        }
    }
}

/// The MAXMB value `set_max_mailboxes` programs: one less than the requested
/// count clamped to `1..=64`.
pub open spec fn clamped_last(last_mailbox: u8) -> u8 {
    if last_mailbox < 1 { 0 } else if last_mailbox > 64 { 63 } else { (last_mailbox - 1) as u8 }
}

impl<I: Instance> FlexCan<I> {
    /// Limits the controller to the first `last_mailbox` mailboxes.
    ///
    /// Values are clamped to the hardware range `1..=64`. The mailboxes are set up
    /// again as by `disable_fifo` (and by `enable_fifo` when the FIFO was on).
    #[verifier::spinoff_prover]
    #[verifier::rlimit(60)]
    pub fn set_max_mailboxes(&mut self, last_mailbox: u8)
        ensures
            final(self).continues(old(self)),
            frozen_frame(final(self).since(old(self))),
            exists|k: int| #[trigger] max_mailboxes_split(
                frozen_body(final(self).since(old(self))), k, clamped_last(last_mailbox)),
    {
        let clamped = if last_mailbox < 1 { 1 } else if last_mailbox > 64 { 64 } else { last_mailbox };
        let last = clamped - 1;
        let (m, v) = self.begin_frozen();
        let leave = m & MCR_FRZACK == 0;
        let ghost o = self.ops();
        let f = self.reg(REG_MCR);
        let fifo = f & MCR_FEN != 0;
        let ghost before_disable = self.ops();
        self.disable_fifo();
        let ghost dis = ops_since(self.ops(), before_disable);
        let ghost after_disable = self.ops();
        let (h, l) = self.flush_iflags();
        let c = self.reg(REG_MCR);
        self.write_reg(REG_MCR, (c & !MCR_MAXMB_MASK) | (last as u32));
        let ghost mid = seq![rd(REG_IFLAG2, h), rd(REG_IFLAG1, l), wr(REG_IFLAG2, h), wr(REG_IFLAG1, l),
            rd(REG_MCR, c), wr(REG_MCR, (c & !0x7Fu32) | (last as u32))];
        assert(self.ops() =~= after_disable + mid);
        let ghost before_enable = self.ops();
        if fifo {
            self.enable_fifo();
        }
        let ghost en = ops_since(self.ops(), before_enable);
        proof {
            assert(self.ops() =~= before_enable + en);
            assert(after_disable =~= before_disable + dis);
            assert(before_disable =~= o + seq![rd(REG_MCR, f)]);
        }
        let ghost body = seq![rd(REG_MCR, f)] + dis + mid + en;
        assert(self.ops() =~= o + body);
        let w = self.end_frozen(leave);
        proof {
            let k: int = 1 + dis.len() as int;
            assert(body.subrange(1, k) =~= dis);
            assert(body.subrange(k, k + 4) =~= seq![rd(REG_IFLAG2, h), rd(REG_IFLAG1, l), wr(REG_IFLAG2, h), wr(REG_IFLAG1, l)]);
            lemma_flush(h, l);
            assert(body.subrange(k + 4, k + 6) =~= seq![rd(REG_MCR, c), wr(REG_MCR, (c & !0x7Fu32) | (last as u32))]);
            assert(last == clamped_last(last_mailbox));
            lemma_rmw(REG_MCR, c, (c & !0x7Fu32) | (last as u32), |v: u32| mcr_with_maxmb(v, clamped_last(last_mailbox)));
            assert(body.subrange(k + 6, body.len() as int) =~= en);
            if !fifo {
                assert(en.len() == 0);
            }
            assert(max_mailboxes_split(body, k, clamped_last(last_mailbox)));
            let tail = if outside_freeze(m) { exit_freeze_seq(w) } else { Seq::<BusOp>::empty() };
            let d = seq![rd(REG_MCR, m)] + enter_freeze_seq(v) + body + tail;
            assert(self.ops() =~= old(self).ops() + d);
            self.lemma_append(old(self), d);
            lemma_frozen(m, v, body, w);
        }
    }

    /// Resets and initializes the peripheral into a known default state: 24 MHz
    /// clock, module enabled, soft reset in freeze mode, the controller options
    /// of this driver, mailbox reception as by `disable_fifo`, then freeze mode left.
    #[verifier::spinoff_prover]
    #[verifier::rlimit(40)]
    pub fn begin(&mut self)
        ensures
            extends(final(self).ops(), old(self).ops()),
            final(self).bus() == old(self).bus(),
            final(self).selected_clock() == Clock::Mhz24,
            begin_history(final(self).since(old(self))),
    {
        self.set_clock(Clock::Mhz24);
        let ghost o = self.ops();
        let a = self.clear_bits(REG_MCR, MCR_MDIS);
        let e = self.enter_freeze_mode();
        let c1 = self.set_bits(REG_CTRL1, CTRL1_LOM);
        let c2 = self.set_bits(REG_MCR, MCR_FRZ);
        self.wait_clear(REG_MCR, MCR_LPMACK);
        let s = self.soft_reset();
        self.wait_set(REG_MCR, MCR_FRZACK);
        let c3 = self.reg(REG_MCR);
        let mut mcr = c3;
        mcr = mcr | (MCR_SRXDIS | MCR_IRMQ | MCR_AEN | MCR_LPRIOEN | MCR_SLFWAK | MCR_WAKSRC);
        mcr = mcr | (MCR_WRNEN | MCR_WAKMSK);
        mcr = mcr & !(MCR_DMA | MCR_FDEN);
        assert(mcr == begin_mcr(c3)) by (bit_vector)
            requires
                mcr == ((c3 | (0x0002_0000u32 | 0x0001_0000u32 | 0x0000_1000u32 | 0x0000_2000u32 | 0x0040_0000u32 | 0x0008_0000u32))
                    | (0x0020_0000u32 | 0x0400_0000u32)) & !(0x0000_8000u32 | 0x0000_0800u32),
        ;
        self.write_reg(REG_MCR, mcr);
        let c4 = self.set_bits(REG_CTRL2, CTRL2_RRS | CTRL2_EACEN | CTRL2_MRP);
        assert(c4 | (0x0002_0000u32 | 0x0001_0000u32 | 0x0004_0000u32) == c4 | 0x0002_0000u32 | 0x0001_0000u32 | 0x0004_0000u32) by (bit_vector);
        let ghost head = seq![rd(REG_MCR, a), wr(REG_MCR, a & !0x8000_0000u32)] + enter_freeze_seq(e)
            + seq![rd(REG_CTRL1, c1), wr(REG_CTRL1, c1 | 0x8u32), rd(REG_MCR, c2), wr(REG_MCR, c2 | 0x4000_0000u32),
                BusOp::WaitClear { offset: REG_MCR, mask: 0x0010_0000u32 }]
            + soft_reset_seq(s)
            + seq![BusOp::WaitSet { offset: REG_MCR, mask: 0x0100_0000u32 }, rd(REG_MCR, c3),
                wr(REG_MCR, begin_mcr(c3)), rd(REG_CTRL2, c4),
                wr(REG_CTRL2, c4 | 0x0002_0000u32 | 0x0001_0000u32 | 0x0004_0000u32)];
        assert(self.ops() =~= o + head);
        let ghost before_disable = self.ops();
        self.disable_fifo();
        let ghost dis = ops_since(self.ops(), before_disable);
        proof { assert(self.ops() =~= before_disable + dis); }
        let x = self.exit_freeze_mode();
        proof {
            let d = seq![BusOp::ClockRoot { sel: 1, podf: 0 }] + head + dis + exit_freeze_seq(x);
            assert(self.ops() =~= old(self).ops() + d);
            self.lemma_append(old(self), d);
            lemma_freeze_seqs(e);
            lemma_freeze_seqs(s);
            lemma_freeze_seqs(x);
            assert(d.subrange(1, 3) =~= seq![rd(REG_MCR, a), wr(REG_MCR, a & !0x8000_0000u32)]);
            assert(d.subrange(3, 6) =~= enter_freeze_seq(e));
            assert(d.subrange(6, 8) =~= seq![rd(REG_CTRL1, c1), wr(REG_CTRL1, c1 | 0x8u32)]);
            assert(d.subrange(8, 10) =~= seq![rd(REG_MCR, c2), wr(REG_MCR, c2 | 0x4000_0000u32)]);
            assert(d.subrange(11, 14) =~= soft_reset_seq(s));
            assert(d.subrange(15, 17) =~= seq![rd(REG_MCR, c3), wr(REG_MCR, begin_mcr(c3))]);
            assert(d.subrange(17, 19) =~= seq![rd(REG_CTRL2, c4), wr(REG_CTRL2, c4 | 0x0002_0000u32 | 0x0001_0000u32 | 0x0004_0000u32)]);
            assert(d.subrange(19, d.len() - 4) =~= dis);
            assert(d.subrange(d.len() - 4, d.len() as int) =~= exit_freeze_seq(x));
        }
    }

    /// Opens the clock gate of `instance` and brings the controller up with `begin`.
    pub fn bring_up(instance: I) -> (can: Self)
        ensures
            can.selected_clock() == Clock::Mhz24,
            extends(can.ops(), instance.trace().push(BusOp::EnableClock)),
            begin_history(ops_since(can.ops(), instance.trace().push(BusOp::EnableClock))),
    {
        let mut instance = instance;
        instance.enable_clock();
        let bus = instance.bus_number();
        let mut can = FlexCan { instance, clock: Clock::Mhz24, bus };
        can.begin();
        can
    }
}

} // verus!
