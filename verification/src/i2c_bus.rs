//! The I2C bus the IMU driver talks through.
//!
//! Every transfer is recorded in the bus's ghost record of [`I2cTransfer`]s,
//! so that the driver's contracts can say exactly which bytes it sends, to
//! which address, in which order, and where it stops when the bus reports an
//! error.

use vstd::prelude::*;

verus! {

/// One transfer on the I2C bus, with whether the bus reported success.
pub ghost enum I2cTransfer {
    /// A write of `bytes` to the device at `address`.
    Write { address: u8, bytes: Seq<u8>, ok: bool },
    /// A write of `bytes` followed by a read of `read` from the device at `address`.
    WriteRead { address: u8, bytes: Seq<u8>, read: Seq<u8>, ok: bool },
    /// Single-byte reads of `register` at `address`, repeated until the bits of
    /// `mask` read as clear (or a read failed).
    PollClear { address: u8, register: u8, mask: u8, ok: bool },
}

/// A transfer a driver operation intends to make.
pub ghost enum Planned {
    /// Write these bytes.
    Write(Seq<u8>),
    /// Write these bytes, then read this many bytes.
    WriteRead(Seq<u8>, nat),
    /// Poll this register until the bits of this mask clear.
    PollClear(u8, u8),
}

/// `true` when the bus reported success for `t`.
pub open spec fn transfer_ok(t: I2cTransfer) -> bool {
    match t {
        I2cTransfer::Write { ok, .. } => ok,
        I2cTransfer::WriteRead { ok, .. } => ok,
        I2cTransfer::PollClear { ok, .. } => ok,
    }
}

/// The first byte read by `t` (zero when `t` reads nothing).
pub open spec fn first_read(t: I2cTransfer) -> u8 {
    match t {
        I2cTransfer::WriteRead { read, .. } => if read.len() > 0 { read[0] } else { 0 },
        _ => 0,
    }
}

/// The bytes read by `t`.
pub open spec fn bytes_read(t: I2cTransfer) -> Seq<u8> {
    match t {
        I2cTransfer::WriteRead { read, .. } => read,
        _ => Seq::empty(),
    }
}

/// `t` is the transfer `p` to the device at `address`.
pub open spec fn performs(t: I2cTransfer, address: u8, p: Planned) -> bool {
    match p {
        Planned::Write(b) => t matches I2cTransfer::Write { address: a, bytes, .. } && a == address && bytes == b,
        Planned::WriteRead(b, n) => t matches I2cTransfer::WriteRead { address: a, bytes, read, .. }
            && a == address && bytes == b && read.len() == n,
        Planned::PollClear(r, m) => t matches I2cTransfer::PollClear { address: a, register, mask, .. }
            && a == address && register == r && mask == m,
    }
}

/// `d` carries out `script` on the device at `address` up to and including its
/// first failing transfer, and stops there.
pub open spec fn runs(d: Seq<I2cTransfer>, address: u8, script: Seq<Planned>) -> bool {
    &&& d.len() <= script.len()
    &&& forall|i: int| 0 <= i < d.len() ==> #[trigger] performs(d[i], address, script[i])
    &&& forall|i: int| 0 <= i < d.len() - 1 ==> transfer_ok(#[trigger] d[i])
    &&& d.len() < script.len() ==> (d.len() > 0 && !transfer_ok(d[d.len() - 1]))
}

/// Every transfer of `script` was made and succeeded.
pub open spec fn completed(d: Seq<I2cTransfer>, script: Seq<Planned>) -> bool {
    &&& d.len() == script.len()
    &&& forall|i: int| 0 <= i < d.len() ==> transfer_ok(#[trigger] d[i])
}

/// A run of a script followed by a run of the next one is a run of both.
pub proof fn lemma_runs_concat(d1: Seq<I2cTransfer>, s1: Seq<Planned>, d2: Seq<I2cTransfer>, s2: Seq<Planned>, address: u8)
    requires
        runs(d1, address, s1),
        completed(d1, s1),
        runs(d2, address, s2),
    ensures
        runs(d1 + d2, address, s1 + s2),
        completed(d1 + d2, s1 + s2) == completed(d2, s2),
{
    let d = d1 + d2;
    let s = s1 + s2;
    assert forall|i: int| 0 <= i < d.len() implies #[trigger] performs(d[i], address, s[i]) by {
        if i < d1.len() {
            assert(performs(d1[i], address, s1[i]));
        } else {
            assert(performs(d2[i - d1.len()], address, s2[i - d1.len()]));
        }
    }
    assert forall|i: int| 0 <= i < d.len() - 1 implies transfer_ok(#[trigger] d[i]) by {
        if i < d1.len() {
            assert(transfer_ok(d1[i]));
        } else {
            assert(transfer_ok(d2[i - d1.len()]));
        }
    }
    if d2.len() < s2.len() {
        assert(d[d.len() - 1] == d2[d2.len() - 1]);
    }
    if completed(d2, s2) {
        assert forall|i: int| 0 <= i < d.len() implies transfer_ok(#[trigger] d[i]) by {
            if i < d1.len() {
                assert(transfer_ok(d1[i]));
            } else {
                assert(transfer_ok(d2[i - d1.len()]));
            }
        }
    }
    if completed(d, s) {
        assert forall|i: int| 0 <= i < d2.len() implies transfer_ok(#[trigger] d2[i]) by {
            assert(transfer_ok(d[i + d1.len()]));
        }
    }
}

/// A run that stopped at a failure is a run of any longer script.
pub proof fn lemma_runs_stop(d: Seq<I2cTransfer>, s1: Seq<Planned>, s2: Seq<Planned>, address: u8)
    requires
        runs(d, address, s1),
        !completed(d, s1),
    ensures
        runs(d, address, s1 + s2),
        !completed(d, s1 + s2),
{
    if d.len() == s1.len() {
        assert(d.len() > 0);
        if transfer_ok(d[d.len() - 1]) {
            assert forall|i: int| 0 <= i < d.len() implies transfer_ok(#[trigger] d[i]) by {
                if i < d.len() - 1 {
                } else {
                    assert(i == d.len() - 1);
                }
            }
        }
    }
    assert forall|i: int| 0 <= i < d.len() implies #[trigger] performs(d[i], address, (s1 + s2)[i]) by {
        assert(performs(d[i], address, s1[i]));
    }
}

/// A single transfer is a run of the one-transfer script it performs.
pub proof fn lemma_runs_single(t: I2cTransfer, p: Planned, address: u8)
    requires
        performs(t, address, p),
    ensures
        runs(seq![t], address, seq![p]),
        completed(seq![t], seq![p]) == transfer_ok(t),
{
    let d = seq![t];
    if transfer_ok(t) {
        assert forall|i: int| 0 <= i < d.len() implies transfer_ok(#[trigger] d[i]) by {
            assert(i == 0);
        }
    } else {
        assert(!transfer_ok(d[0]));
    }
}

/// An empty script is run, and completed, by no transfer.
pub proof fn lemma_runs_empty(address: u8)
    ensures
        runs(Seq::<I2cTransfer>::empty(), address, Seq::<Planned>::empty()),
        completed(Seq::<I2cTransfer>::empty(), Seq::<Planned>::empty()),
{
}

/// An I2C bus controller: the transport of the IMU driver.
///
/// The firmware implements it on top of an `embedded-hal` I2C peripheral.
///
/// `transfers` is the record of the transfers made on the bus: each method
/// appends exactly the transfer it makes, with the bytes read and whether the
/// bus reported success. Nothing is promised of those bytes or of the outcome:
/// they are up to the bus and the device. The driver's contracts are stated
/// over this record. An implementation verified with this library defines
/// `transfers`; for one that is not, the clauses of the methods are what the
/// driver takes on trust.
pub trait I2cBus {
    /// The error type of the bus.
    type Error;

    /// The transfers made on this bus, oldest first.
    open spec fn transfers(&self) -> Seq<I2cTransfer> {
        Seq::empty()
    }

    /// Writes `bytes` to the device at `address`.
    fn write(&mut self, address: u8, bytes: &[u8]) -> (r: Result<(), Self::Error>)
        ensures
            final(self).transfers() == old(self).transfers().push(
                I2cTransfer::Write { address, bytes: bytes@, ok: r is Ok },
            ),
    ;

    /// Writes `bytes` to the device at `address`, then reads `buffer.len()` bytes into `buffer`.
    fn write_read(&mut self, address: u8, bytes: &[u8], buffer: &mut [u8]) -> (r: Result<(), Self::Error>)
        ensures
            final(buffer)@.len() == old(buffer)@.len(),
            final(self).transfers() == old(self).transfers().push(
                I2cTransfer::WriteRead { address, bytes: bytes@, read: final(buffer)@, ok: r is Ok },
            ),
    ;

    /// Reads the one-byte register `register` of the device at `address` until
    /// the bits of `mask` read as clear, or a read fails.
    fn poll_clear(&mut self, address: u8, register: u8, mask: u8) -> (r: Result<(), Self::Error>)
        ensures
            final(self).transfers() == old(self).transfers().push(
                I2cTransfer::PollClear { address, register, mask, ok: r is Ok },
            ),
    ;
}

} // verus!
