//! Decisions of the Teensy USB serial port: the configuration tracking and the
//! bootloader request of the Teensy tools, and the USB serial number string.

use vstd::prelude::*;

verus! {

/// The CDC line coding (baud rate) by which the Teensy tools request a reboot
/// into the bootloader.
pub const TEENSY_REBOOT_BAUD: u32 = 134;

/// The number of polls between the reboot request and the reboot.
pub const TEENSY_REBOOT_POLLS: u8 = 80;

/// What a poll of the USB device has to do after the stack was polled.
#[derive(Clone, Copy, Debug, PartialEq, Eq, Structural)]
pub struct PollActions {
    /// The device just became configured: configure the bus endpoints.
    pub configure_bus: bool,
    /// The device is configured: flush the serial port.
    pub flush: bool,
    /// Jump into the bootloader now.
    pub reboot: bool,
}

/// The state of the Teensy USB serial port between polls.
pub struct UsbTeensy4 {
    configured: bool,
    last_line_coding: u32,
    reboot_polls_remaining: u8,
}

/// The state of a port as plain values: configured, last line coding, polls
/// left before the reboot.
pub type PortState = (bool, u32, u8);

/// The state after a poll that saw the device `configured` with `line_coding`,
/// and the actions of that poll.
pub open spec fn poll_step(s: PortState, configured: bool, line_coding: u32) -> (PortState, PollActions) {
    let armed: u8 = if line_coding == 134 && s.1 != 134 { 80 } else { s.2 };
    let remaining: u8 = if armed > 0 { (armed - 1) as u8 } else { 0 };
    (
        (configured, line_coding, remaining),
        PollActions { configure_bus: configured && !s.0, flush: configured, reboot: armed == 1 },
    )
}

impl UsbTeensy4 {
    /// The state of the port as plain values.
    pub closed spec fn state(&self) -> PortState {
        (self.configured, self.last_line_coding, self.reboot_polls_remaining)
    }

    /// A port that is not configured, with no line coding seen and no reboot pending.
    pub fn new() -> (u: UsbTeensy4)
        ensures
            u.state() == (false, 0u32, 0u8),
    {
        UsbTeensy4 { configured: false, last_line_coding: 0, reboot_polls_remaining: 0 }
    }

    /// `true` once the host has configured the device.
    pub fn is_configured(&self) -> (r: bool)
        ensures
            r == self.state().0,
    {
        self.configured
    }

    /// Records a poll that saw the device `configured` and the CDC line coding
    /// `line_coding`, and returns what the poll has to do.
    ///
    /// A change of the line coding to 134 baud arms a countdown of 80 polls
    /// (this one included); the poll that ends it reboots into the bootloader.
    pub fn on_poll(&mut self, configured: bool, line_coding: u32) -> (a: PollActions)
        ensures
            (final(self).state(), a) == poll_step(old(self).state(), configured, line_coding),
    {
        let was_configured = self.configured;
        self.configured = configured;
        let configure_bus = configured && !was_configured;
        let last = self.last_line_coding;
        self.last_line_coding = line_coding;
        if line_coding == TEENSY_REBOOT_BAUD && last != TEENSY_REBOOT_BAUD {
            self.reboot_polls_remaining = TEENSY_REBOOT_POLLS;
        }
        let remaining = self.reboot_polls_remaining;
        let mut reboot = false;
        if remaining > 0 {
            self.reboot_polls_remaining = remaining - 1;
            if remaining == 1 {
                reboot = true;
            }
        }
        PollActions { configure_bus, flush: configured, reboot }
    }
}

/// The state after `k` polls that all see the line coding `line`, poll `i`
/// seeing the device configured as `configured[i]`.
pub open spec fn polls(s: PortState, configured: Seq<bool>, line: u32, k: nat) -> PortState
    decreases k,
{
    if k == 0 {
        s
    } else {
        poll_step(polls(s, configured, line, (k - 1) as nat), configured[k - 1], line).0
    }
}

/// Once the host switches the line coding to 134 baud, the port reboots on the
/// 80th poll that sees it, and on none of the polls before, whatever each poll
/// sees of the device configuration.
pub proof fn lemma_reboot_after_80_polls(s: PortState, configured: Seq<bool>)
    requires
        s.1 != 134,
    ensures
        forall|k: nat| k < 79 ==> !(#[trigger] poll_step(polls(s, configured, 134, k), configured[k as int], 134)).1.reboot,
        poll_step(polls(s, configured, 134, 79), configured[79], 134).1.reboot,
{
    assert forall|k: nat| k < 79 implies !(#[trigger] poll_step(polls(s, configured, 134, k), configured[k as int], 134)).1.reboot by {
        lemma_countdown(s, configured, k);
    }
    lemma_countdown(s, configured, 79);
}

proof fn lemma_countdown(s: PortState, configured: Seq<bool>, k: nat)
    requires
        s.1 != 134,
        k <= 79,
    ensures
        polls(s, configured, 134, k).2 == (if k == 0 { s.2 as int } else { 80 - k }),
        k > 0 ==> polls(s, configured, 134, k).1 == 134,
        k == 0 ==> polls(s, configured, 134, k) == s,
    decreases k,
{
    if k > 0 {
        lemma_countdown(s, configured, (k - 1) as nat);
    }
}

/// The decimal digits of `n`, most significant first, as ASCII.
pub open spec fn decimal_digits(n: nat) -> Seq<u8>
    decreases n,
{
    if n < 10 {
        seq![(48 + n) as u8]
    } else {
        decimal_digits(n / 10).push((48 + n % 10) as u8)
    }
}

/// `10` to the power `k`.
pub open spec fn ten_pow(k: nat) -> nat
    decreases k,
{
    if k == 0 { 1 } else { 10 * ten_pow((k - 1) as nat) }
}

proof fn lemma_digits_len(n: nat, k: nat)
    requires
        k >= 1,
        n < ten_pow(k),
    ensures
        decimal_digits(n).len() <= k,
    decreases k,
{
    if k == 1 {
        assert(ten_pow(0) == 1);
        assert(ten_pow(1) == 10);
    }
    if n >= 10 && k > 1 {
        let b = ten_pow((k - 1) as nat);
        assert(n / 10 < b) by (nonlinear_arith)
            requires n < 10 * b;
        lemma_digits_len(n / 10, (k - 1) as nat);
    }
}

/// The number the USB serial number shows for the OCOTP MAC0 word: its low 24
/// bits, times ten when below 10 000 000 (the convention of the Teensy USB stack for
/// the CDC-ACM serial handling of macOS).
pub open spec fn serial_value(mac0: u32) -> nat {
    let num = (mac0 % 0x100_0000) as nat;
    if num < 10_000_000 { num * 10 } else { num }
}

/// The ASCII digits of the USB serial number for the OCOTP MAC0 word: the
/// first `r.1` bytes of `r.0`, the rest of which is zero.
pub fn serial_number_digits(mac0: u32) -> (r: ([u8; 10], usize))
    ensures
        1 <= r.1 <= 10,
        r.0@.subrange(0, r.1 as int) == decimal_digits(serial_value(mac0)),
        forall|i: int| r.1 <= i < 10 ==> r.0@[i] == 0,
{
    let mut num = mac0 & 0x00ff_ffff;
    assert(mac0 & 0x00ff_ffff == mac0 % 0x100_0000) by (bit_vector);
    if num < 10_000_000 {
        num = num * 10;
    }
    let ghost orig = num as nat;
    assert(orig == serial_value(mac0));
    proof {
        reveal_with_fuel(ten_pow, 11);
        assert(ten_pow(10) == 10_000_000_000);
        lemma_digits_len(orig, 10);
    }
    let mut reversed = [0u8; 10];
    let mut len: usize = 0;
    assert(reversed@.subrange(0, 0).reverse() =~= Seq::<u8>::empty());
    assert(decimal_digits(orig) =~= decimal_digits(num as nat) + reversed@.subrange(0, 0).reverse());
    loop
        invariant_except_break
            orig < 10_000_000_000,
            len <= 10,
            decimal_digits(orig) == decimal_digits(num as nat) + reversed@.subrange(0, len as int).reverse(),
            len + decimal_digits(num as nat).len() <= 10,
        ensures
            decimal_digits(orig) == reversed@.subrange(0, len as int).reverse(),
            1 <= len <= 10,
        decreases num,
    {
        let digit = (num % 10) as u8;
        let ghost before = reversed@.subrange(0, len as int);
        let ghost n = num as nat;
        assert(decimal_digits(n).len() >= 1);
        reversed[len] = 48u8 + digit;
        len = len + 1;
        num = num / 10;
        proof {
            assert(reversed@.subrange(0, len as int) =~= before.push((48 + n % 10) as u8));
            assert(reversed@.subrange(0, len as int).reverse() =~= seq![(48 + n % 10) as u8] + before.reverse());
            if n >= 10 {
                assert(decimal_digits(n) == decimal_digits(n / 10).push((48 + n % 10) as u8));
                assert(decimal_digits(n / 10).push((48 + n % 10) as u8) + before.reverse()
                    =~= decimal_digits(n / 10) + (seq![(48 + n % 10) as u8] + before.reverse()));
            } else {
                assert(decimal_digits(n) == seq![(48 + n % 10) as u8]);
            }
        }
        if num == 0 {
            break;
        }
    }
    let ghost digits = reversed@.subrange(0, len as int).reverse();
    let mut out = [0u8; 10];
    let mut j: usize = 0;
    while j < len
        invariant
            1 <= len <= 10,
            j <= len,
            digits == reversed@.subrange(0, len as int).reverse(),
            out@.subrange(0, j as int) == digits.subrange(0, j as int),
            forall|i: int| j <= i < 10 ==> out@[i] == 0,
        decreases len - j,
    {
        let ghost prev = out@;
        out[j] = reversed[len - 1 - j];
        proof {
            assert(digits[j as int] == reversed@[len - 1 - j]);
            assert(out@.subrange(0, j + 1) =~= digits.subrange(0, j + 1)) by {
                assert(prev.subrange(0, j as int) == digits.subrange(0, j as int));
            }
        }
        j = j + 1;
    }
    assert(digits.subrange(0, len as int) =~= digits);
    (out, len)
}

} // verus!
