//! Access to one FlexCAN peripheral instance: its register block, its clock
//! gate and the shared CAN clock root.
//!
//! Every access is recorded in the instance's ghost trace of [`BusOp`]s, so
//! that the controller's contracts can say exactly which registers it reads and
//! writes, in which order, and which values it writes given the values it read.

use vstd::prelude::*;

verus! {

/// One access of the driver to the FlexCAN peripheral.
#[derive(Clone, Copy, Debug, PartialEq, Eq, Structural)]
pub enum BusOp {
    /// A read of the 32-bit register at `offset`, which returned `value`.
    Read { offset: usize, value: u32 },
    /// A write of `value` to the 32-bit register at `offset`.
    Write { offset: usize, value: u32 },
    /// A busy wait until all bits of `mask` read as set at `offset`.
    WaitSet { offset: usize, mask: u32 },
    /// A busy wait until all bits of `mask` read as clear at `offset`.
    WaitClear { offset: usize, mask: u32 },
    /// The peripheral's clock gate was opened.
    EnableClock,
    /// The CAN clock root was programmed with `(CAN_CLK_SEL, CAN_CLK_PODF)`.
    ClockRoot { sel: u32, podf: u32 },
}

/// The value a history entry read (zero for entries that are no reads).
pub open spec fn read_value(op: BusOp) -> u32 {
    match op {
        BusOp::Read { value, .. } => value,
        _ => 0,
    }
}

/// `true` when `op` is a read of `offset`.
pub open spec fn is_read_of(op: BusOp, offset: usize) -> bool {
    op == BusOp::Read { offset, value: read_value(op) }
}

/// What the history gained between `old` and `new`, when `new` extends `old`.
pub open spec fn ops_since(new: Seq<BusOp>, old: Seq<BusOp>) -> Seq<BusOp> {
    new.subrange(old.len() as int, new.len() as int)
}

/// `new` is `old` followed by more accesses.
pub open spec fn extends(new: Seq<BusOp>, old: Seq<BusOp>) -> bool {
    old.len() <= new.len() && new.subrange(0, old.len() as int) == old
}

/// A concrete FlexCAN peripheral instance.
///
/// The firmware implements this trait for the three FlexCAN peripherals of the
/// i.MX RT1062; it provides the bus number, the clock gate, the CAN clock root
/// and 32-bit volatile access to the register block.
///
/// `trace` is the record of the accesses made through the instance: each
/// method appends exactly the access it makes, with the value a read returned.
/// Nothing is promised of that value: it is whatever the hardware holds. The
/// controller's contracts are stated over this record. An implementation
/// verified with this library defines `trace`; for one that is not, the
/// clauses of the methods are what the controller takes on trust.
pub trait Instance: Sized {
    /// The accesses made through this instance, oldest first.
    open spec fn trace(&self) -> Seq<BusOp> {
        Seq::empty()
    }

    /// Logical CAN bus number used in received messages.
    fn bus_number(&self) -> u8;

    /// Opens the peripheral's clock gate.
    fn enable_clock(&mut self)
        ensures
            final(self).trace() == old(self).trace().push(BusOp::EnableClock),
    ;

    /// Programs the CAN clock root selector and divider (CCM_CSCMR2).
    fn set_clock_root(&mut self, sel: u32, podf: u32)
        ensures
            final(self).trace() == old(self).trace().push(BusOp::ClockRoot { sel, podf }),
    ;

    /// Reads the 32-bit register at byte offset `offset`.
    fn read(&mut self, offset: usize) -> (value: u32)
        ensures
            final(self).trace() == old(self).trace().push(BusOp::Read { offset, value }),
    ;

    /// Writes the 32-bit register at byte offset `offset`.
    fn write(&mut self, offset: usize, value: u32)
        ensures
            final(self).trace() == old(self).trace().push(BusOp::Write { offset, value }),
    ;

    /// Spins until all bits of `mask` read as set in the register at `offset`.
    fn wait_set(&mut self, offset: usize, mask: u32)
        ensures
            final(self).trace() == old(self).trace().push(BusOp::WaitSet { offset, mask }),
    ;

    /// Spins until all bits of `mask` read as clear in the register at `offset`.
    fn wait_clear(&mut self, offset: usize, mask: u32)
        ensures
            final(self).trace() == old(self).trace().push(BusOp::WaitClear { offset, mask }),
    ;
}

} // verus!
