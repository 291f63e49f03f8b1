//! Plain data types of the FlexCAN driver.

use vstd::prelude::*;

verus! {

/// Number of message buffers the FlexCAN hardware provides.
pub const MAX_MAILBOXES: u8 = 64;

/// Additional flags attached to a CAN frame.
#[derive(Clone, Copy, Debug, PartialEq, Eq, Structural)]
pub struct MessageFlags {
    /// `true` for a 29-bit identifier, `false` for an 11-bit identifier.
    pub extended: bool,
    /// `true` when the frame is a remote transmission request.
    pub remote: bool,
    /// `true` when the controller reported an RX overrun for the mailbox.
    pub overrun: bool,
}

/// A single classic CAN frame and associated metadata.
#[derive(Clone, Copy, Debug, PartialEq, Eq)]
pub struct CanMessage {
    /// CAN identifier.
    pub id: u32,
    /// Hardware timestamp captured by the controller.
    pub timestamp: u16,
    /// FIFO acceptance hit index.
    pub idhit: u8,
    /// Identifier / RTR / overrun flags.
    pub flags: MessageFlags,
    /// Number of valid data bytes in `buf`.
    pub len: u8,
    /// Payload bytes for the frame.
    pub buf: [u8; 8],
    /// Mailbox index that received the frame, or `-1` when unset.
    pub mb: i8,
    /// CAN bus number that received the frame.
    pub bus: u8,
    /// Sequence flag kept from the Teensy API surface.
    pub seq: bool,
}

impl Default for CanMessage {
    fn default() -> (m: Self)
        ensures
            m.id == 0,
            m.timestamp == 0,
            m.idhit == 0,
            m.flags == (MessageFlags { extended: false, remote: false, overrun: false }),
            m.len == 8,
            m.buf@ == seq![0u8, 0, 0, 0, 0, 0, 0, 0],
            m.mb == -1,
            m.bus == 0,
            !m.seq,
    {
        let m = CanMessage {
            id: 0,
            timestamp: 0,
            idhit: 0,
            flags: MessageFlags { extended: false, remote: false, overrun: false },
            len: 8,
            buf: [0u8; 8],
            mb: -1,
            bus: 0,
            seq: false,
        };
        assert(m.buf@ =~= seq![0u8, 0, 0, 0, 0, 0, 0, 0]);
        m
    }
}

/// Selects between the default and alternate pin routing for a peripheral.
#[derive(Clone, Copy, Debug, PartialEq, Eq, Structural)]
pub enum PinSelection {
    /// Use the primary pin routing.
    Default,
    /// Use the alternate pin routing.
    Alternate,
}

/// Direction assigned to a mailbox.
#[derive(Clone, Copy, Debug, PartialEq, Eq, Structural)]
pub enum MailboxMode {
    /// Transmit mailbox.
    Tx,
    /// Receive mailbox.
    Rx,
}

/// Identifier encoding assigned to a mailbox.
#[derive(Clone, Copy, Debug, PartialEq, Eq, Structural)]
pub enum IdType {
    /// 11-bit standard identifier.
    Standard,
    /// 29-bit extended identifier.
    Extended,
    /// Disable the mailbox.
    Inactive,
}

/// High-level mailbox filtering behavior.
#[derive(Clone, Copy, Debug, PartialEq, Eq, Structural)]
pub enum FilterMode {
    /// Accept any identifier for the mailbox.
    AcceptAll,
    /// Reject every identifier for the mailbox.
    RejectAll,
}

/// FlexCAN functional clock selection.
#[derive(Clone, Copy, Debug, PartialEq, Eq, Structural)]
pub enum Clock {
    /// Disable the CAN clock.
    Off,
    /// 8 MHz CAN clock.
    Mhz8,
    /// 16 MHz CAN clock.
    Mhz16,
    /// 20 MHz CAN clock.
    Mhz20,
    /// 24 MHz CAN clock.
    Mhz24,
    /// 30 MHz CAN clock.
    Mhz30,
    /// 40 MHz CAN clock.
    Mhz40,
    /// 60 MHz CAN clock.
    Mhz60,
    /// 80 MHz CAN clock.
    Mhz80,
}

impl Clock {
    /// The frequency of the clock selection, in hertz.
    pub open spec fn frequency(self) -> u32 {
        match self {
            Clock::Off => 0,
            Clock::Mhz8 => 8_000_000,
            Clock::Mhz16 => 16_000_000,
            Clock::Mhz20 => 20_000_000,
            Clock::Mhz24 => 24_000_000,
            Clock::Mhz30 => 30_000_000,
            Clock::Mhz40 => 40_000_000,
            Clock::Mhz60 => 60_000_000,
            Clock::Mhz80 => 80_000_000,
        }
    }

    /// The `(CAN_CLK_SEL, CAN_CLK_PODF)` pair of CCM_CSCMR2 that yields the clock.
    pub open spec fn root_encoding(self) -> (u32, u32) {
        match self {
            Clock::Off => (3, 0),
            Clock::Mhz8 => (2, 9),
            Clock::Mhz16 => (2, 4),
            Clock::Mhz20 => (2, 3),
            Clock::Mhz24 => (1, 0),
            Clock::Mhz30 => (0, 1),
            Clock::Mhz40 => (2, 1),
            Clock::Mhz60 => (0, 0),
            Clock::Mhz80 => (2, 0),
        }
    }

    /// Returns the selected clock frequency in hertz.
    pub fn hz(self) -> (r: u32)
        ensures
            r == self.frequency(),
    {
        match self {
            Clock::Off => 0,
            Clock::Mhz8 => 8_000_000,
            Clock::Mhz16 => 16_000_000,
            Clock::Mhz20 => 20_000_000,
            Clock::Mhz24 => 24_000_000,
            Clock::Mhz30 => 30_000_000,
            Clock::Mhz40 => 40_000_000,
            Clock::Mhz60 => 60_000_000,
            Clock::Mhz80 => 80_000_000,
        }
    }

    /// Returns the `(CAN_CLK_SEL, CAN_CLK_PODF)` field values for CCM_CSCMR2.
    pub fn cscmr2(self) -> (r: (u32, u32))
        ensures
            r == self.root_encoding(),
    {
        match self {
            Clock::Off => (3, 0),
            Clock::Mhz8 => (2, 9),
            Clock::Mhz16 => (2, 4),
            Clock::Mhz20 => (2, 3),
            Clock::Mhz24 => (1, 0),
            Clock::Mhz30 => (0, 1),
            Clock::Mhz40 => (2, 1),
            Clock::Mhz60 => (0, 0),
            Clock::Mhz80 => (2, 0),
        }
    }
}

/// Mailbox identifier.
#[derive(Clone, Copy, Debug, PartialEq, Eq, Structural)]
pub struct Mailbox(pub u8);

impl Mailbox {
    /// Pseudo-mailbox used by FIFO-oriented code paths (index 99).
    #[allow(non_snake_case)]
    pub fn FIFO() -> (m: Mailbox)
        ensures
            m == Mailbox(99),
    {
        Mailbox(99)
    }

    /// Creates a mailbox handle for a valid mailbox index.
    pub fn new(index: u8) -> (r: Option<Mailbox>)
        ensures
            index < MAX_MAILBOXES ==> r == Some(Mailbox(index)),
            index >= MAX_MAILBOXES ==> r is None,
    {
        if index < MAX_MAILBOXES {
            Some(Mailbox(index))
        } else {
            None
        }
    }

    /// Returns the raw mailbox index.
    pub fn index(self) -> (r: u8)
        ensures
            r == self.0,
    {
        self.0
    }
}

/// Current controller state for a mailbox.
#[derive(Clone, Copy, Debug, PartialEq, Eq, Structural)]
pub enum MailboxState {
    /// Receive mailbox is inactive.
    RxInactive,
    /// Receive mailbox is armed and empty.
    RxEmpty {
        /// `true` when the mailbox expects 29-bit identifiers.
        extended: bool,
    },
    /// Receive mailbox holds a frame.
    RxFull {
        /// `true` when the mailbox is configured for 29-bit identifiers.
        extended: bool,
    },
    /// Receive mailbox holds a frame and reported an overrun.
    RxOverrun {
        /// `true` when the mailbox is configured for 29-bit identifiers.
        extended: bool,
    },
    /// Transmit mailbox is idle.
    TxInactive,
    /// Transmit mailbox has been aborted.
    TxAbort,
    /// Transmit mailbox is actively sending.
    TxBusy {
        /// `true` when the queued frame uses a 29-bit identifier.
        extended: bool,
    },
    /// Raw mailbox code not modeled by this crate.
    Unknown(u32),
}

/// Errors returned by FlexCAN operations.
#[derive(Clone, Copy, Debug, PartialEq, Eq, Structural)]
pub enum Error {
    /// The requested baud rate cannot be represented with the current clock.
    InvalidBaudRate,
    /// The mailbox index or mailbox role is invalid for the operation.
    InvalidMailbox,
    /// The message length exceeded classic CAN's 8-byte payload limit.
    InvalidMessageLength,
    /// The peripheral state does not allow the requested operation.
    InvalidConfiguration,
    /// A non-blocking transmit operation found no free TX mailbox.
    WouldBlock,
}

} // verus!
