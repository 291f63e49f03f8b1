use std::cell::RefCell;
use std::collections::HashMap;
use std::rc::Rc;

use teensy_firmware::can_bus::Instance;
use teensy_firmware::can_controller::FlexCan;
use teensy_firmware::can_registers::{mailbox_offset, rx_empty_cs, REG_CTRL1, REG_IFLAG1, REG_IFLAG2, REG_IMASK1, REG_IMASK2, REG_RXIMR0};
use teensy_firmware::can_types::{
    CanMessage, Clock, Error, FilterMode, IdType, Mailbox, MailboxMode, MailboxState, MessageFlags,
};

/// A register file standing in for a FlexCAN peripheral: reads give back what
/// was written, and the busy waits find the hardware acknowledging at once.
#[derive(Default)]
struct Hardware {
    regs: HashMap<usize, u32>,
    clock_gate: bool,
    clock_root: Option<(u32, u32)>,
}

impl Hardware {
    fn get(&self, offset: usize) -> u32 {
        *self.regs.get(&offset).unwrap_or(&0)
    }
}

struct MockCan {
    hw: Rc<RefCell<Hardware>>,
    bus: u8,
}

impl Instance for MockCan {
    fn bus_number(&self) -> u8 {
        self.bus
    }

    fn enable_clock(&mut self) {
        self.hw.borrow_mut().clock_gate = true;
    }

    fn set_clock_root(&mut self, sel: u32, podf: u32) {
        self.hw.borrow_mut().clock_root = Some((sel, podf));
    }

    fn read(&mut self, offset: usize) -> u32 {
        self.hw.borrow().get(offset)
    }

    fn write(&mut self, offset: usize, value: u32) {
        self.hw.borrow_mut().regs.insert(offset, value);
    }

    fn wait_set(&mut self, offset: usize, mask: u32) {
        *self.hw.borrow_mut().regs.entry(offset).or_insert(0) |= mask;
    }

    fn wait_clear(&mut self, offset: usize, mask: u32) {
        *self.hw.borrow_mut().regs.entry(offset).or_insert(0) &= !mask;
    }
}

/// A controller on a peripheral with sixteen enabled mailboxes (the reset value of MAXMB).
fn controller() -> (FlexCan<MockCan>, Rc<RefCell<Hardware>>) {
    let hw = Rc::new(RefCell::new(Hardware::default()));
    hw.borrow_mut().regs.insert(0x00, 0x0000_000F);
    let can = FlexCan::bring_up(MockCan { hw: hw.clone(), bus: 3 });
    (can, hw)
}

fn frame(id: u32, len: u8, bytes: [u8; 8]) -> CanMessage {
    let mut m = CanMessage::default();
    m.id = id;
    m.len = len;
    m.buf = bytes;
    m
}

#[test]
fn bring_up_opens_clock_and_selects_24_mhz() {
    let (mut can, hw) = controller();
    assert!(hw.borrow().clock_gate);
    assert_eq!(hw.borrow().clock_root, Some((1, 0)));
    assert_eq!(can.clock(), Clock::Mhz24);
    assert!(!can.fifo_enabled());
    assert_eq!(can.max_mailboxes(), 16);
    assert_eq!(can.mailbox_offset(), 0);
    assert_eq!(hw.borrow().get(0x00) & 0x8000_0000, 0);
}

#[test]
fn bring_up_splits_mailboxes_between_rx_and_tx() {
    let (mut can, hw) = controller();
    assert_eq!(can.mailbox_state(Mailbox(0)), Some(MailboxState::RxEmpty { extended: false }));
    assert_eq!(can.mailbox_state(Mailbox(3)), Some(MailboxState::RxEmpty { extended: false }));
    assert_eq!(can.mailbox_state(Mailbox(4)), Some(MailboxState::RxEmpty { extended: true }));
    assert_eq!(can.mailbox_state(Mailbox(7)), Some(MailboxState::RxEmpty { extended: true }));
    assert_eq!(can.mailbox_state(Mailbox(8)), Some(MailboxState::TxInactive));
    assert_eq!(can.mailbox_state(Mailbox(15)), Some(MailboxState::TxInactive));
    assert_eq!(can.mailbox_state(Mailbox(16)), None);
    assert_eq!(can.mailbox_state(Mailbox::FIFO()), None);
    assert_eq!(can.read_imask(), 0xFF00);
    assert_eq!(hw.borrow().get(REG_RXIMR0), 1 << 30);
    assert_eq!(hw.borrow().get(REG_RXIMR0 + 4 * 8), 0);
}

#[test]
fn set_baud_rate_programs_ctrl1_timings() {
    let (mut can, hw) = controller();
    assert_eq!(can.set_baud_rate(1_000_000, false), Ok(()));
    assert_eq!(hw.borrow().get(REG_CTRL1), 0x0162_4002);
    assert_eq!(can.set_baud_rate(500_000, true), Ok(()));
    assert_eq!(hw.borrow().get(REG_CTRL1), 0x0362_400A);
}

#[test]
fn set_baud_rate_rejects_impossible_rates() {
    let (mut can, hw) = controller();
    let before = hw.borrow().get(REG_CTRL1);
    assert_eq!(can.set_baud_rate(0, false), Err(Error::InvalidBaudRate));
    assert_eq!(can.set_baud_rate(30_000_000, false), Err(Error::InvalidBaudRate));
    assert_eq!(hw.borrow().get(REG_CTRL1), before);
    can.set_clock(Clock::Off);
    assert_eq!(can.set_baud_rate(1_000_000, false), Err(Error::InvalidBaudRate));
}

#[test]
fn set_clock_programs_the_clock_root() {
    let (mut can, hw) = controller();
    can.set_clock(Clock::Mhz60);
    assert_eq!(can.clock(), Clock::Mhz60);
    assert_eq!(hw.borrow().clock_root, Some((0, 0)));
}

#[test]
fn write_uses_first_tx_mailbox() {
    let (mut can, hw) = controller();
    let message = frame(0x321, 2, [0xAA, 0xBB, 0, 0, 0, 0, 0, 0]);
    assert_eq!(can.write(&message), Ok(()));
    let base = mailbox_offset(8);
    assert_eq!(hw.borrow().get(base), (0xC << 24) | (2 << 16));
    assert_eq!(hw.borrow().get(base + 4), 0x321 << 18);
    assert_eq!(hw.borrow().get(base + 8), 0xAABB_0000);
    assert_eq!(hw.borrow().get(base + 12), 0);
    assert_eq!(hw.borrow().get(REG_IFLAG1), 1 << 8);
    assert_eq!(can.mailbox_state(Mailbox(8)), Some(MailboxState::TxBusy { extended: false }));
}

#[test]
fn write_mailbox_sends_extended_remote_frames() {
    let (mut can, hw) = controller();
    let mut message = frame(0x1ABC_DEF0, 0, [0; 8]);
    message.flags = MessageFlags { extended: true, remote: true, overrun: false };
    assert_eq!(can.write_mailbox(Mailbox(12), &message), Ok(()));
    let base = mailbox_offset(12);
    assert_eq!(hw.borrow().get(base), (0xC << 24) | 0x0070_0000);
    assert_eq!(hw.borrow().get(base + 4), 0x1ABC_DEF0);
}

#[test]
fn write_rejects_long_frames_and_rx_mailboxes() {
    let (mut can, _hw) = controller();
    let long = frame(1, 9, [0; 8]);
    assert_eq!(can.write(&long), Err(Error::InvalidMessageLength));
    assert_eq!(can.write_mailbox(Mailbox(8), &long), Err(Error::InvalidMessageLength));
    assert_eq!(can.write_mailbox(Mailbox(16), &long), Err(Error::InvalidMessageLength));
    let ok = frame(1, 1, [0; 8]);
    assert_eq!(can.write_mailbox(Mailbox(0), &ok), Err(Error::InvalidConfiguration));
    assert_eq!(can.write_mailbox(Mailbox(16), &ok), Err(Error::InvalidMailbox));
}

#[test]
fn write_would_block_without_tx_mailboxes() {
    let (mut can, _hw) = controller();
    for i in 8..16 {
        assert_eq!(can.set_mailbox(Mailbox(i), MailboxMode::Rx, IdType::Standard), Ok(()));
    }
    assert_eq!(can.write(&frame(1, 1, [0; 8])), Err(Error::WouldBlock));
}

#[test]
fn read_returns_a_received_frame_and_rearms_the_mailbox() {
    let (mut can, hw) = controller();
    assert_eq!(can.read(), None);
    let base = mailbox_offset(2);
    {
        let mut h = hw.borrow_mut();
        h.regs.insert(base, (0x2 << 24) | (4 << 16) | 0x1234);
        h.regs.insert(base + 4, 0x123 << 18);
        h.regs.insert(base + 8, 0xDEAD_BEEF);
        h.regs.insert(base + 12, 0x0102_0304);
    }
    let message = can.read().expect("a frame is waiting");
    assert_eq!(message.id, 0x123);
    assert_eq!(message.len, 4);
    assert_eq!(message.timestamp, 0x1234);
    assert_eq!(message.buf, [0xDE, 0xAD, 0xBE, 0xEF, 1, 2, 3, 4]);
    assert_eq!(message.mb, 2);
    assert_eq!(message.bus, 3);
    assert!(!message.flags.extended);
    assert!(!message.flags.overrun);
    assert_eq!(hw.borrow().get(base), rx_empty_cs(false));
    assert_eq!(hw.borrow().get(REG_IFLAG1), 1 << 2);
    assert_eq!(can.read(), None);
}

#[test]
fn set_mailbox_configures_roles() {
    let (mut can, _hw) = controller();
    assert_eq!(can.set_mailbox(Mailbox(3), MailboxMode::Tx, IdType::Standard), Ok(()));
    assert_eq!(can.mailbox_state(Mailbox(3)), Some(MailboxState::TxInactive));
    assert_eq!(can.read_imask() & (1 << 3), 1 << 3);
    assert_eq!(can.set_mailbox(Mailbox(9), MailboxMode::Rx, IdType::Extended), Ok(()));
    assert_eq!(can.mailbox_state(Mailbox(9)), Some(MailboxState::RxEmpty { extended: true }));
    assert_eq!(can.read_imask() & (1 << 9), 0);
    assert_eq!(can.set_mailbox(Mailbox(10), MailboxMode::Tx, IdType::Inactive), Ok(()));
    assert_eq!(can.mailbox_state(Mailbox(10)), Some(MailboxState::RxInactive));
    assert_eq!(can.set_mailbox(Mailbox(20), MailboxMode::Rx, IdType::Standard), Err(Error::InvalidMailbox));
}

#[test]
fn mailbox_filters_program_id_and_mask() {
    let (mut can, hw) = controller();
    assert_eq!(can.set_mailbox_filter(Mailbox(0), &[0x100, 0x101]), Ok(()));
    assert_eq!(hw.borrow().get(REG_RXIMR0), 0x7FE << 18);
    assert_eq!(hw.borrow().get(mailbox_offset(0) + 4), 0x100 << 18);
    assert_eq!(can.set_mailbox_user_filter(Mailbox(1), &[0x100, 0x101], 0x700), Ok(()));
    assert_eq!(hw.borrow().get(REG_RXIMR0 + 4), 0x700 << 18);
    assert_eq!(can.set_mailbox_filter_range(Mailbox(4), 0x1000, 0x10FF), Ok(()));
    assert_eq!(hw.borrow().get(REG_RXIMR0 + 16), 0x1FFF_FF00);
    assert_eq!(hw.borrow().get(mailbox_offset(4) + 4), 0x1000);
}

#[test]
fn mailbox_filters_reject_bad_requests() {
    let (mut can, _hw) = controller();
    assert_eq!(can.set_mailbox_filter(Mailbox(0), &[]), Err(Error::InvalidMailbox));
    assert_eq!(can.set_mailbox_filter(Mailbox(0), &[1, 2, 3, 4, 5, 6]), Err(Error::InvalidMailbox));
    assert_eq!(can.set_mailbox_filter(Mailbox(8), &[1]), Err(Error::InvalidMailbox));
    assert_eq!(can.set_mailbox_filter(Mailbox(16), &[1]), Err(Error::InvalidMailbox));
    assert_eq!(can.set_mailbox_filter_range(Mailbox(8), 0, 1), Err(Error::InvalidMailbox));
    assert_eq!(can.set_mailbox_filter_state(Mailbox(16), FilterMode::AcceptAll), Err(Error::InvalidMailbox));
}

#[test]
fn filter_states_accept_or_reject_everything() {
    let (mut can, hw) = controller();
    assert_eq!(can.set_mailbox_filter_state(Mailbox(1), FilterMode::RejectAll), Ok(()));
    assert_eq!(hw.borrow().get(REG_RXIMR0 + 4), 0x3FFF_FFFF);
    can.set_mailbox_filter_mode(FilterMode::AcceptAll);
    for i in 0..16 {
        assert_eq!(hw.borrow().get(REG_RXIMR0 + 4 * i), 0);
    }
    can.set_mailbox_filter_mode(FilterMode::RejectAll);
    for i in 0..16 {
        assert_eq!(hw.borrow().get(REG_RXIMR0 + 4 * i), 0x3FFF_FFFF);
    }
}

#[test]
fn fifo_mode_reserves_low_mailboxes() {
    let (mut can, _hw) = controller();
    can.enable_fifo_interrupt(true);
    assert_eq!(can.read_imask(), 0xFF00);
    can.enable_fifo();
    assert!(can.fifo_enabled());
    assert_eq!(can.mailbox_offset(), 8);
    assert_eq!(can.mailbox_state(Mailbox(8)), Some(MailboxState::TxInactive));
    can.enable_fifo_interrupt(true);
    assert_eq!(can.read_imask() & 0xFF, 0x20);
    can.enable_fifo_interrupt(false);
    assert_eq!(can.read_imask() & 0xFF, 0);
    assert_eq!(can.set_mailbox(Mailbox(2), MailboxMode::Tx, IdType::Standard), Err(Error::InvalidMailbox));
    can.disable_fifo();
    assert!(!can.fifo_enabled());
    assert_eq!(can.mailbox_offset(), 0);
}

#[test]
fn set_max_mailboxes_clamps_to_hardware_range() {
    let (mut can, _hw) = controller();
    can.set_max_mailboxes(8);
    assert_eq!(can.max_mailboxes(), 8);
    // The mailboxes are laid out for the old count before MAXMB changes.
    assert_eq!(can.mailbox_state(Mailbox(4)), Some(MailboxState::RxEmpty { extended: true }));
    assert_eq!(can.mailbox_state(Mailbox(8)), None);
    can.set_max_mailboxes(0);
    assert_eq!(can.max_mailboxes(), 1);
    can.set_max_mailboxes(200);
    assert_eq!(can.max_mailboxes(), 64);
}

#[test]
fn set_max_mailboxes_keeps_fifo_mode() {
    let (mut can, _hw) = controller();
    can.enable_fifo();
    can.set_max_mailboxes(32);
    assert!(can.fifo_enabled());
    assert_eq!(can.max_mailboxes(), 32);
    assert_eq!(can.mailbox_offset(), 8);
}

#[test]
fn flag_and_mask_words_split_into_two_registers() {
    let (mut can, hw) = controller();
    can.write_iflag(0x1_0000_0002);
    assert_eq!(hw.borrow().get(REG_IFLAG2), 1);
    assert_eq!(hw.borrow().get(REG_IFLAG1), 2);
    assert_eq!(can.read_iflag(), 0x1_0000_0002);
    can.write_imask(0x8000_0000_0000_0001);
    assert_eq!(hw.borrow().get(REG_IMASK2), 0x8000_0000);
    assert_eq!(hw.borrow().get(REG_IMASK1), 1);
    assert_eq!(can.read_imask(), 0x8000_0000_0000_0001);
}

#[test]
fn mailbox_interrupts_follow_the_request() {
    let (mut can, _hw) = controller();
    can.enable_mailbox_interrupts(true);
    assert_eq!(can.read_imask(), 0xFFFF);
    can.enable_mailbox_interrupts(false);
    assert_eq!(can.read_imask(), 0);
    can.enable_mailbox_interrupt(Mailbox(1), true);
    assert_eq!(can.read_imask(), 0x0002);
    can.enable_mailbox_interrupt(Mailbox(9), true);
    assert_eq!(can.read_imask(), 0x0202);
    can.enable_mailbox_interrupt(Mailbox(9), false);
    assert_eq!(can.read_imask(), 0x0002);
    can.enable_mailbox_interrupt(Mailbox(40), true);
    assert_eq!(can.read_imask(), 0x0002);
}

#[test]
fn write_skips_mailboxes_still_sending() {
    let (mut can, hw) = controller();
    let first = frame(0x10, 1, [1, 0, 0, 0, 0, 0, 0, 0]);
    let second = frame(0x20, 1, [2, 0, 0, 0, 0, 0, 0, 0]);
    assert_eq!(can.write(&first), Ok(()));
    assert_eq!(can.write(&second), Ok(()));
    assert_eq!(hw.borrow().get(mailbox_offset(8) + 4), 0x10 << 18);
    assert_eq!(hw.borrow().get(mailbox_offset(9) + 4), 0x20 << 18);
    assert_eq!(can.mailbox_state(Mailbox(9)), Some(MailboxState::TxBusy { extended: false }));
    for _ in 10..16 {
        assert_eq!(can.write(&second), Ok(()));
    }
    assert_eq!(can.write(&second), Err(Error::WouldBlock));
}

#[test]
fn range_filter_accepts_every_identifier_of_the_range() {
    let (mut can, hw) = controller();
    assert_eq!(can.set_mailbox_filter_range(Mailbox(0), 0, 5), Ok(()));
    let mask = hw.borrow().get(REG_RXIMR0);
    let filter_id = hw.borrow().get(mailbox_offset(0) + 4);
    assert_eq!(mask, 0x7F8 << 18);
    for id in 0u32..=5 {
        assert_eq!(((id << 18) ^ filter_id) & mask, 0, "identifier {} rejected", id);
    }
    assert_ne!(((8u32 << 18) ^ filter_id) & mask, 0);
}

#[test]
fn set_baud_rate_rejects_rates_beyond_the_prescaler() {
    let (mut can, hw) = controller();
    let before = hw.borrow().get(REG_CTRL1);
    assert_eq!(can.set_baud_rate(1_000, false), Err(Error::InvalidBaudRate));
    assert_eq!(hw.borrow().get(REG_CTRL1), before);
}

#[test]
fn events_are_always_empty() {
    let (mut can, _hw) = controller();
    assert_eq!(can.events(), 0);
}
