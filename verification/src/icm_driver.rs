//! I2C driver logic of the ICM-20649 6-DoF IMU: bank selection, register
//! access, range, filter and rate configuration, bring-up and sample reads.
//!
//! Every operation states, over the bus's transfer history, the exact script of
//! transfers it makes, with the bytes written as a function of the arguments and
//! of the bytes read, and that it stops at the first transfer the bus fails.

use vstd::prelude::*;
use crate::i2c_bus::{
    I2cBus, I2cTransfer, Planned, bytes_read, performs, completed, first_read, lemma_runs_concat,
    lemma_runs_empty, lemma_runs_single, lemma_runs_stop, runs, transfer_ok,
};
use crate::icm_types::{
    ACCEL_CONFIG_1, ACCEL_SMPLRT_DIV_1, ACCEL_XOUT_H, AccelDlpf, AccelRange, CHIP_ID,
    DEFAULT_ADDRESS, GYRO_CONFIG_1, GYRO_SMPLRT_DIV, GyroDlpf, GyroRange, I2C_BYPASS_EN_BIT,
    I2C_MST_EN_BIT, INT_PIN_CFG, PWR_MGMT_1, REG_BANK_SEL, RESET_BIT, RawSample, SLEEP_BIT,
    USER_CTRL, WHO_AM_I, be_i16, be_u16, bits_config, decode_raw_sample, dlpf_config,
    range_config, u16_from_be, with_bits, with_dlpf, with_range_field,
};

verus! {

/// Driver error returned by [`Icm20649`].
#[derive(Debug, PartialEq, Eq)]
pub enum Error<E> {
    /// Underlying I2C transport error.
    I2c(E),
    /// WHO_AM_I returned an unexpected value.
    InvalidChipId(u8),
}

/// A read-modify-write of a configuration register.
#[derive(Clone, Copy, Debug, PartialEq, Eq, Structural)]
pub enum RegUpdate {
    /// Replace the range field (bits 1..2) with this value.
    Range(u8),
    /// Enable the DLPF with this cutoff, or clear only its enable bit.
    Dlpf(bool, u8),
    /// Set or clear the bits of this mask.
    Bits(u8, bool),
}

impl RegUpdate {
    /// The new register value for the value read.
    pub open spec fn applied(self, value: u8) -> u8 {
        match self {
            RegUpdate::Range(field) => with_range_field(value, field),
            RegUpdate::Dlpf(enabled, cutoff) => with_dlpf(value, enabled, cutoff),
            RegUpdate::Bits(mask, set) => with_bits(value, mask, set),
        }
    }

    /// The update is well formed: a range field fits in two bits.
    pub open spec fn valid(self) -> bool {
        match self {
            RegUpdate::Range(field) => field < 4,
            _ => true,
        }
    }

    /// Computes the new register value for the value read.
    pub fn apply(self, value: u8) -> (r: u8)
        requires
            self.valid(),
        ensures
            r == self.applied(value),
    {
        match self {
            RegUpdate::Range(field) => range_config(value, field),
            RegUpdate::Dlpf(enabled, cutoff) => dlpf_config(value, enabled, cutoff),
            RegUpdate::Bits(mask, set) => bits_config(value, mask, set),
        }
    }
}

/// The bank select write needed to reach `bank` from the cached bank `cur`.
pub open spec fn bank_script(cur: u8, bank: u8) -> Seq<Planned> {
    if cur == bank % 4 {
        Seq::empty()
    } else {
        seq![Planned::Write(seq![0x7Fu8, ((bank % 4) * 16) as u8])]
    }
}

/// The number of transfers of `bank_script`.
pub open spec fn bank_len(cur: u8, bank: u8) -> int {
    if cur == bank % 4 { 0 } else { 1 }
}

/// The cached bank after an access to `bank` from `cur` that made the transfers `d`.
pub open spec fn bank_after(cur: u8, bank: u8, d: Seq<I2cTransfer>) -> u8 {
    if cur == bank % 4 || (d.len() > 0 && transfer_ok(d[0])) { bank % 4 } else { cur }
}

/// Read `n` bytes starting at `register` of `bank`.
pub open spec fn read_script(cur: u8, bank: u8, register: u8, n: nat) -> Seq<Planned> {
    bank_script(cur, bank) + seq![Planned::WriteRead(seq![register], n)]
}

/// Write `bytes` starting at `register` of `bank`.
pub open spec fn write_script(cur: u8, bank: u8, register: u8, bytes: Seq<u8>) -> Seq<Planned> {
    bank_script(cur, bank) + seq![Planned::Write(seq![register] + bytes)]
}

/// Read `register` of `bank`, then write back the update of the value read
/// (the byte read by the transfer after the bank select).
pub open spec fn update_script(cur: u8, bank: u8, register: u8, u: RegUpdate, d: Seq<I2cTransfer>) -> Seq<Planned> {
    let v = first_read(d[bank_len(cur, bank)]);
    read_script(cur, bank, register, 1) + seq![Planned::Write(seq![register, u.applied(v)])]
}

/// The value read by the read of a `read_script` run.
pub open spec fn value_read(cur: u8, bank: u8, d: Seq<I2cTransfer>) -> u8 {
    first_read(d[bank_len(cur, bank)])
}

/// `r` is an I2C error passed on from the bus.
pub open spec fn bus_error<T, E>(r: Result<T, Error<E>>) -> bool {
    r matches Err(Error::I2c(_))
}

/// The script of `init` from the cached bank `cur`, given the bytes read in `d`:
/// check WHO_AM_I, reset, leave sleep mode, then program the default ranges
/// (gyro 4000 dps, accel 30 g) and rate divisors (gyro 10, accel 20).
pub open spec fn init_script(cur: u8, d: Seq<I2cTransfer>) -> Seq<Planned> {
    let n = bank_len(cur, 0);
    init_script_with(cur, first_read(d[n + 3]), first_read(d[n + 6]), first_read(d[n + 8]))
}

/// The script of `init` when PWR_MGMT_1, GYRO_CONFIG_1 and ACCEL_CONFIG_1 read
/// as `v1`, `v2` and `v3`.
pub open spec fn init_script_with(cur: u8, v1: u8, v2: u8, v3: u8) -> Seq<Planned> {
    bank_script(cur, 0) + seq![
        Planned::WriteRead(seq![0x00u8], 1),
        Planned::Write(seq![0x06u8, 0x80u8]),
        Planned::PollClear(0x06u8, 0x80u8),
        Planned::WriteRead(seq![0x06u8], 1),
        Planned::Write(seq![0x06u8, with_bits(v1, 0x40u8, false)]),
        Planned::Write(seq![0x7Fu8, 0x20u8]),
        Planned::WriteRead(seq![0x01u8], 1),
        Planned::Write(seq![0x01u8, with_range_field(v2, 3)]),
        Planned::WriteRead(seq![0x14u8], 1),
        Planned::Write(seq![0x14u8, with_range_field(v3, 3)]),
        Planned::Write(seq![0x00u8, 10u8]),
        Planned::Write(seq![0x10u8, 0u8, 20u8]),
    ]
}

/// ICM-20649 I2C driver.
///
/// The driver caches the selected register bank, to skip bank select writes,
/// and the accel and gyro ranges, to scale samples without rereading the
/// configuration registers.
pub struct Icm20649<B> {
    i2c: B,
    address: u8,
    bank: u8,
    accel_range: AccelRange,
    gyro_range: GyroRange,
}

impl<B: I2cBus> Icm20649<B> {
    /// The transfer history of the driver's bus.
    pub closed spec fn transfers(&self) -> Seq<I2cTransfer> {
        self.i2c.transfers()
    }

    /// The I2C peripheral the driver talks through.
    pub closed spec fn bus(&self) -> B {
        self.i2c
    }

    /// The I2C address of the device.
    pub closed spec fn device_address(&self) -> u8 {
        self.address
    }

    /// The register bank the driver believes selected.
    pub closed spec fn selected_bank(&self) -> u8 {
        self.bank
    }

    /// The cached accelerometer range.
    pub closed spec fn cached_accel_range(&self) -> AccelRange {
        self.accel_range
    }

    /// The cached gyroscope range.
    pub closed spec fn cached_gyro_range(&self) -> GyroRange {
        self.gyro_range
    }

    /// The transfers made between `old` and `self`.
    pub open spec fn since(&self, old: &Self) -> Seq<I2cTransfer> {
        self.transfers().subrange(old.transfers().len() as int, self.transfers().len() as int)
    }

    /// `self` continues `old`: same device, history extended.
    pub open spec fn continues(&self, old: &Self) -> bool {
        &&& old.transfers().len() <= self.transfers().len()
        &&& self.transfers().subrange(0, old.transfers().len() as int) == old.transfers()
        &&& self.device_address() == old.device_address()
    }

    /// `self` continues `old` with the same cached ranges.
    pub open spec fn keeps_ranges(&self, old: &Self) -> bool {
        &&& self.cached_accel_range() == old.cached_accel_range()
        &&& self.cached_gyro_range() == old.cached_gyro_range()
    }

    proof fn lemma_since(&self, old: &Self, d: Seq<I2cTransfer>)
        requires
            self.transfers() == old.transfers() + d,
        ensures
            self.since(old) == d,
            old.transfers().len() <= self.transfers().len(),
            self.transfers().subrange(0, old.transfers().len() as int) == old.transfers(),
    {
        assert(self.transfers().subrange(0, old.transfers().len() as int) =~= old.transfers());
        assert(self.since(old) =~= d);
    }

    /// Create a driver with the default I2C address (`0x68`).
    pub fn new(i2c: B) -> (s: Self)
        ensures
            s.transfers() == i2c.transfers(),
            s.bus() == i2c,
            s.device_address() == DEFAULT_ADDRESS,
            s.selected_bank() == 0,
            s.cached_accel_range() == AccelRange::G30,
            s.cached_gyro_range() == GyroRange::Dps4000,
    {
        Self::new_with_address(i2c, DEFAULT_ADDRESS)
    }

    /// Create a driver with an explicit 7-bit I2C address.
    ///
    /// This only constructs the driver. Call [`init`](Self::init) before using
    /// the sensor.
    pub fn new_with_address(i2c: B, address: u8) -> (s: Self)
        ensures
            s.transfers() == i2c.transfers(),
            s.bus() == i2c,
            s.device_address() == address,
            s.selected_bank() == 0,
            s.cached_accel_range() == AccelRange::G30,
            s.cached_gyro_range() == GyroRange::Dps4000,
    {
        Icm20649 { i2c, address, bank: 0, accel_range: AccelRange::G30, gyro_range: GyroRange::Dps4000 }
    }

    /// Return ownership of the underlying I2C peripheral.
    pub fn free(self) -> (i2c: B)
        ensures
            i2c == self.bus(),
    {
        self.i2c
    }

    /// Return the cached accelerometer range, without touching the bus.
    pub fn accel_range(&self) -> (r: AccelRange)
        ensures
            r == self.cached_accel_range(),
    {
        self.accel_range
    }

    /// Return the cached gyroscope range, without touching the bus.
    pub fn gyro_range(&self) -> (r: GyroRange)
        ensures
            r == self.cached_gyro_range(),
    {
        self.gyro_range
    }

    fn set_bank(&mut self, bank: u8) -> (r: Result<(), Error<B::Error>>)
        ensures
            final(self).continues(old(self)),
            final(self).keeps_ranges(old(self)),
            runs(final(self).since(old(self)), old(self).device_address(), bank_script(old(self).selected_bank(), bank)),
            r is Ok <==> completed(final(self).since(old(self)), bank_script(old(self).selected_bank(), bank)),
            r is Err ==> bus_error(r),
            final(self).selected_bank() == bank_after(old(self).selected_bank(), bank, final(self).since(old(self))),
            final(self).selected_bank() < 4 || final(self).selected_bank() == old(self).selected_bank(),
    {
        let b = bank & 0b11;
        assert(bank & 3 == bank % 4) by (bit_vector);
        if self.bank == b {
            proof {
                assert(self.transfers() =~= old(self).transfers() + Seq::<I2cTransfer>::empty());
                self.lemma_since(old(self), Seq::empty());
                lemma_runs_empty(self.address);
                assert(bank_script(old(self).bank, bank) =~= Seq::<Planned>::empty());
            }
            return Ok(());
        }
        let bytes: [u8; 2] = [REG_BANK_SEL, b << 4];
        let result = self.i2c.write(self.address, &bytes);
        let ghost t = I2cTransfer::Write { address: self.address, bytes: bytes@, ok: result is Ok };
        proof {
            assert(self.transfers() =~= old(self).transfers() + seq![t]);
            self.lemma_since(old(self), seq![t]);
            assert(b << 4u8 == b * 16) by (bit_vector) requires b < 4;
            assert(bytes@ =~= seq![0x7Fu8, ((bank % 4) * 16) as u8]);
            lemma_runs_single(t, Planned::Write(seq![0x7Fu8, ((bank % 4) * 16) as u8]), self.address);
            assert(seq![Planned::Write(seq![0x7Fu8, ((bank % 4) * 16) as u8])] =~= bank_script(old(self).bank, bank));
        }
        match result {
            Ok(()) => {
                self.bank = b;
                Ok(())
            },
            Err(e) => Err(Error::I2c(e)),
        }
    }

    proof fn lemma_chain(&self, mid: &Self, old: &Self)
        requires
            mid.continues(old),
            self.continues(mid),
        ensures
            self.continues(old),
            self.since(old) == mid.since(old) + self.since(mid),
    {
        let a = old.transfers();
        let b = mid.transfers();
        let c = self.transfers();
        assert(b =~= a + mid.since(old));
        assert(c =~= b + self.since(mid));
        assert(c.subrange(0, a.len() as int) =~= a);
        assert(self.since(old) =~= mid.since(old) + self.since(mid));
    }

    /// The bank select of an access followed by its one transfer `p`.
    proof fn lemma_bank_then(d1: Seq<I2cTransfer>, s1: Seq<Planned>, d2: Seq<I2cTransfer>, p: Planned, address: u8)
        requires
            runs(d1, address, s1),
            completed(d1, s1),
            d2.len() == 1,
            performs(d2[0], address, p),
        ensures
            runs(d1 + d2, address, s1 + seq![p]),
            completed(d1 + d2, s1 + seq![p]) == transfer_ok(d2[0]),
            (d1 + d2)[(d1 + d2).len() - 1] == d2[0],
    {
        assert(d2 =~= seq![d2[0]]);
        lemma_runs_single(d2[0], p, address);
        lemma_runs_concat(d1, s1, d2, seq![p], address);
    }

    fn read_many(&mut self, bank: u8, register: u8, buffer: &mut [u8]) -> (r: Result<(), Error<B::Error>>)
        ensures
            final(self).continues(old(self)),
            final(self).keeps_ranges(old(self)),
            runs(final(self).since(old(self)), old(self).device_address(),
                read_script(old(self).selected_bank(), bank, register, old(buffer)@.len())),
            r is Ok <==> completed(final(self).since(old(self)),
                read_script(old(self).selected_bank(), bank, register, old(buffer)@.len())),
            r is Err ==> bus_error(r),
            final(self).selected_bank() == bank_after(old(self).selected_bank(), bank, final(self).since(old(self))),
            final(buffer)@.len() == old(buffer)@.len(),
            r is Ok ==> final(buffer)@ == bytes_read(final(self).since(old(self))[bank_len(old(self).selected_bank(), bank)]),
    {
        let ghost start = *self;
        let sel = self.set_bank(bank);
        let ghost s1 = bank_script(start.bank, bank);
        let ghost p = Planned::WriteRead(seq![register], old(buffer)@.len());
        if let Err(e) = sel {
            proof {
                lemma_runs_stop(self.since(&start), s1, seq![p], self.address);
            }
            return Err(e);
        }
        let ghost mid = *self;
        let reg: [u8; 1] = [register];
        let result = self.i2c.write_read(self.address, &reg, buffer);
        let ghost t = I2cTransfer::WriteRead { address: self.address, bytes: reg@, read: buffer@, ok: result is Ok };
        proof {
            assert(self.transfers() =~= mid.transfers() + seq![t]);
            self.lemma_since(&mid, seq![t]);
            self.lemma_chain(&mid, &start);
            assert(reg@ =~= seq![register]);
            Self::lemma_bank_then(mid.since(&start), s1, seq![t], p, self.address);
            assert(mid.since(&start).len() == bank_len(start.bank, bank)) by {
                if start.bank != bank % 4 {
                    assert(s1.len() == 1);
                }
            }
            assert(self.since(&start)[bank_len(start.bank, bank)] == t);
            if start.bank != bank % 4 {
                assert(self.since(&start)[0] == mid.since(&start)[0]);
            }
        }
        match result {
            Ok(()) => Ok(()),
            Err(e) => Err(Error::I2c(e)),
        }
    }

    fn read_reg(&mut self, bank: u8, register: u8) -> (r: Result<u8, Error<B::Error>>)
        ensures
            final(self).continues(old(self)),
            final(self).keeps_ranges(old(self)),
            runs(final(self).since(old(self)), old(self).device_address(),
                read_script(old(self).selected_bank(), bank, register, 1)),
            r is Ok <==> completed(final(self).since(old(self)), read_script(old(self).selected_bank(), bank, register, 1)),
            r is Err ==> bus_error(r),
            final(self).selected_bank() == bank_after(old(self).selected_bank(), bank, final(self).since(old(self))),
            r matches Ok(v) ==> v == value_read(old(self).selected_bank(), bank, final(self).since(old(self))),
    {
        let mut value: [u8; 1] = [0];
        let result = self.read_many(bank, register, &mut value);
        match result {
            Ok(()) => Ok(value[0]),
            Err(e) => Err(e),
        }
    }

    fn write_bytes(&mut self, bank: u8, bytes: &[u8]) -> (r: Result<(), Error<B::Error>>)
        requires
            bytes@.len() >= 1,
        ensures
            final(self).continues(old(self)),
            final(self).keeps_ranges(old(self)),
            runs(final(self).since(old(self)), old(self).device_address(),
                bank_script(old(self).selected_bank(), bank) + seq![Planned::Write(bytes@)]),
            r is Ok <==> completed(final(self).since(old(self)),
                bank_script(old(self).selected_bank(), bank) + seq![Planned::Write(bytes@)]),
            r is Err ==> bus_error(r),
            final(self).selected_bank() == bank_after(old(self).selected_bank(), bank, final(self).since(old(self))),
    {
        let ghost start = *self;
        let sel = self.set_bank(bank);
        let ghost s1 = bank_script(start.bank, bank);
        let ghost p = Planned::Write(bytes@);
        if let Err(e) = sel {
            proof {
                lemma_runs_stop(self.since(&start), s1, seq![p], self.address);
            }
            return Err(e);
        }
        let ghost mid = *self;
        let result = self.i2c.write(self.address, bytes);
        let ghost t = I2cTransfer::Write { address: self.address, bytes: bytes@, ok: result is Ok };
        proof {
            assert(self.transfers() =~= mid.transfers() + seq![t]);
            self.lemma_since(&mid, seq![t]);
            self.lemma_chain(&mid, &start);
            Self::lemma_bank_then(mid.since(&start), s1, seq![t], p, self.address);
            if start.bank != bank % 4 {
                assert(self.since(&start)[0] == mid.since(&start)[0]);
            }
        }
        match result {
            Ok(()) => Ok(()),
            Err(e) => Err(Error::I2c(e)),
        }
    }

    fn write_reg(&mut self, bank: u8, register: u8, value: u8) -> (r: Result<(), Error<B::Error>>)
        ensures
            final(self).continues(old(self)),
            final(self).keeps_ranges(old(self)),
            runs(final(self).since(old(self)), old(self).device_address(),
                write_script(old(self).selected_bank(), bank, register, seq![value])),
            r is Ok <==> completed(final(self).since(old(self)),
                write_script(old(self).selected_bank(), bank, register, seq![value])),
            r is Err ==> bus_error(r),
            final(self).selected_bank() == bank_after(old(self).selected_bank(), bank, final(self).since(old(self))),
    {
        let bytes: [u8; 2] = [register, value];
        assert(bytes@ =~= seq![register] + seq![value]);
        self.write_bytes(bank, &bytes)
    }

    fn write_many(&mut self, bank: u8, register: u8, values: &[u8]) -> (r: Result<(), Error<B::Error>>)
        requires
            values@.len() <= 2,
        ensures
            final(self).continues(old(self)),
            final(self).keeps_ranges(old(self)),
            runs(final(self).since(old(self)), old(self).device_address(),
                write_script(old(self).selected_bank(), bank, register, values@)),
            r is Ok <==> completed(final(self).since(old(self)),
                write_script(old(self).selected_bank(), bank, register, values@)),
            r is Err ==> bus_error(r),
            final(self).selected_bank() == bank_after(old(self).selected_bank(), bank, final(self).since(old(self))),
    {
        if values.len() == 0 {
            let bytes: [u8; 1] = [register];
            assert(bytes@ =~= seq![register] + values@);
            self.write_bytes(bank, &bytes)
        } else if values.len() == 1 {
            let bytes: [u8; 2] = [register, values[0]];
            assert(bytes@ =~= seq![register] + values@);
            self.write_bytes(bank, &bytes)
        } else {
            let bytes: [u8; 3] = [register, values[0], values[1]];
            assert(bytes@ =~= seq![register] + values@);
            self.write_bytes(bank, &bytes)
        }
    }

    fn update_reg(&mut self, bank: u8, register: u8, update: RegUpdate) -> (r: Result<(), Error<B::Error>>)
        requires
            update.valid(),
        ensures
            final(self).continues(old(self)),
            final(self).keeps_ranges(old(self)),
            runs(final(self).since(old(self)), old(self).device_address(),
                update_script(old(self).selected_bank(), bank, register, update, final(self).since(old(self)))),
            r is Ok <==> completed(final(self).since(old(self)),
                update_script(old(self).selected_bank(), bank, register, update, final(self).since(old(self)))),
            r is Err ==> bus_error(r),
            final(self).selected_bank() == bank_after(old(self).selected_bank(), bank, final(self).since(old(self))),
    {
        let ghost start = *self;
        let read = self.read_reg(bank, register);
        let ghost d1 = self.since(&start);
        let ghost s1 = read_script(start.bank, bank, register, 1);
        let value = match read {
            Ok(v) => v,
            Err(e) => {
                proof {
                    let v = first_read(d1[bank_len(start.bank, bank)]);
                    lemma_runs_stop(d1, s1, seq![Planned::Write(seq![register, update.applied(v)])], self.address);
                }
                return Err(e);
            },
        };
        let ghost mid = *self;
        let new_value = update.apply(value);
        let result = self.write_reg(bank, register, new_value);
        proof {
            self.lemma_chain(&mid, &start);
            assert(mid.bank == bank % 4);
            assert(bank_script(mid.bank, bank) =~= Seq::<Planned>::empty());
            let s2 = write_script(mid.bank, bank, register, seq![new_value]);
            assert(seq![register] + seq![new_value] =~= seq![register, new_value]);
            assert(s2 =~= seq![Planned::Write(seq![register, update.applied(value)])]);
            lemma_runs_concat(d1, s1, self.since(&mid), s2, self.address);
            let d = self.since(&start);
            assert(d[bank_len(start.bank, bank)] == d1[bank_len(start.bank, bank)]);
            assert(update_script(start.bank, bank, register, update, d) =~= s1 + s2);
            if start.bank != bank % 4 {
                assert(d[0] == d1[0]);
            }
        }
        result
    }

    /// The transfers since `old` carry out `script` up to its first failure.
    pub open spec fn ran(&self, old: &Self, script: Seq<Planned>) -> bool {
        runs(self.since(old), old.device_address(), script)
    }

    /// The transfers since `old` carry out all of `script`, all successful.
    pub open spec fn finished(&self, old: &Self, script: Seq<Planned>) -> bool {
        completed(self.since(old), script)
    }

    /// Read a single register from the selected bank.
    ///
    /// This is intended as an escape hatch for device features not wrapped by
    /// the typed API.
    pub fn read_register(&mut self, bank: u8, register: u8) -> (r: Result<u8, Error<B::Error>>)
        ensures
            final(self).continues(old(self)),
            final(self).keeps_ranges(old(self)),
            final(self).ran(old(self), read_script(old(self).selected_bank(), bank, register, 1)),
            r is Ok <==> final(self).finished(old(self), read_script(old(self).selected_bank(), bank, register, 1)),
            r is Err ==> bus_error(r),
            final(self).selected_bank() == bank_after(old(self).selected_bank(), bank, final(self).since(old(self))),
            r matches Ok(v) ==> v == value_read(old(self).selected_bank(), bank, final(self).since(old(self))),
    {
        self.read_reg(bank, register)
    }

    /// Write a single register in the selected bank.
    ///
    /// This is intended as an escape hatch for device features not wrapped by
    /// the typed API.
    pub fn write_register(&mut self, bank: u8, register: u8, value: u8) -> (r: Result<(), Error<B::Error>>)
        ensures
            final(self).continues(old(self)),
            final(self).keeps_ranges(old(self)),
            final(self).ran(old(self), write_script(old(self).selected_bank(), bank, register, seq![value])),
            r is Ok <==> final(self).finished(old(self), write_script(old(self).selected_bank(), bank, register, seq![value])),
            r is Err ==> bus_error(r),
            final(self).selected_bank() == bank_after(old(self).selected_bank(), bank, final(self).since(old(self))),
    {
        self.write_reg(bank, register, value)
    }

    /// Read the gyroscope sample-rate divisor (bank 2, GYRO_SMPLRT_DIV).
    pub fn gyro_rate_divisor(&mut self) -> (r: Result<u8, Error<B::Error>>)
        ensures
            final(self).continues(old(self)),
            final(self).keeps_ranges(old(self)),
            final(self).ran(old(self), read_script(old(self).selected_bank(), 2, GYRO_SMPLRT_DIV, 1)),
            r is Ok <==> final(self).finished(old(self), read_script(old(self).selected_bank(), 2, GYRO_SMPLRT_DIV, 1)),
            r is Err ==> bus_error(r),
            final(self).selected_bank() == bank_after(old(self).selected_bank(), 2, final(self).since(old(self))),
            r matches Ok(v) ==> v == value_read(old(self).selected_bank(), 2, final(self).since(old(self))),
    {
        self.read_reg(2, GYRO_SMPLRT_DIV)
    }

    /// Set the gyroscope sample-rate divisor (bank 2, GYRO_SMPLRT_DIV).
    pub fn set_gyro_rate_divisor(&mut self, divisor: u8) -> (r: Result<(), Error<B::Error>>)
        ensures
            final(self).continues(old(self)),
            final(self).keeps_ranges(old(self)),
            final(self).ran(old(self), write_script(old(self).selected_bank(), 2, GYRO_SMPLRT_DIV, seq![divisor])),
            r is Ok <==> final(self).finished(old(self), write_script(old(self).selected_bank(), 2, GYRO_SMPLRT_DIV, seq![divisor])),
            r is Err ==> bus_error(r),
            final(self).selected_bank() == bank_after(old(self).selected_bank(), 2, final(self).since(old(self))),
    {
        self.write_reg(2, GYRO_SMPLRT_DIV, divisor)
    }

    /// Read the accelerometer sample-rate divisor, a big-endian 16-bit value of
    /// which only the lower 12 bits are meaningful on the device.
    pub fn accel_rate_divisor(&mut self) -> (r: Result<u16, Error<B::Error>>)
        ensures
            final(self).continues(old(self)),
            final(self).keeps_ranges(old(self)),
            final(self).ran(old(self), read_script(old(self).selected_bank(), 2, ACCEL_SMPLRT_DIV_1, 2)),
            r is Ok <==> final(self).finished(old(self), read_script(old(self).selected_bank(), 2, ACCEL_SMPLRT_DIV_1, 2)),
            r is Err ==> bus_error(r),
            final(self).selected_bank() == bank_after(old(self).selected_bank(), 2, final(self).since(old(self))),
            r matches Ok(v) ==> ({
                let b = bytes_read(final(self).since(old(self))[bank_len(old(self).selected_bank(), 2)]);
                v == be_u16(b[0], b[1])
            }),
    {
        let mut bytes: [u8; 2] = [0; 2];
        let result = self.read_many(2, ACCEL_SMPLRT_DIV_1, &mut bytes);
        match result {
            Ok(()) => Ok(u16_from_be(bytes[0], bytes[1])),
            Err(e) => Err(e),
        }
    }

    /// Set the accelerometer sample-rate divisor; only the lower 12 bits are
    /// written, high byte first.
    pub fn set_accel_rate_divisor(&mut self, divisor: u16) -> (r: Result<(), Error<B::Error>>)
        ensures
            final(self).continues(old(self)),
            final(self).keeps_ranges(old(self)),
            final(self).ran(old(self), write_script(old(self).selected_bank(), 2, ACCEL_SMPLRT_DIV_1,
                seq![((divisor % 0x1000) / 256) as u8, ((divisor % 0x1000) % 256) as u8])),
            r is Ok <==> final(self).finished(old(self), write_script(old(self).selected_bank(), 2, ACCEL_SMPLRT_DIV_1,
                seq![((divisor % 0x1000) / 256) as u8, ((divisor % 0x1000) % 256) as u8])),
            r is Err ==> bus_error(r),
            final(self).selected_bank() == bank_after(old(self).selected_bank(), 2, final(self).since(old(self))),
    {
        let masked = divisor & 0x0FFF;
        let bytes: [u8; 2] = [(masked >> 8) as u8, masked as u8];
        assert(masked == divisor % 0x1000 && (masked >> 8u16) as u8 == (masked / 256) as u8
            && masked as u8 == (masked % 256) as u8) by (bit_vector)
            requires masked == divisor & 0x0FFF;
        assert(bytes@ =~= seq![((divisor % 0x1000) / 256) as u8, ((divisor % 0x1000) % 256) as u8]);
        self.write_many(2, ACCEL_SMPLRT_DIV_1, &bytes)
    }

    /// Read the accelerometer range from ACCEL_CONFIG_1 (bank 2); on success the
    /// cached range follows the value read.
    pub fn read_accel_range(&mut self) -> (r: Result<AccelRange, Error<B::Error>>)
        ensures
            final(self).continues(old(self)),
            final(self).cached_gyro_range() == old(self).cached_gyro_range(),
            final(self).ran(old(self), read_script(old(self).selected_bank(), 2, ACCEL_CONFIG_1, 1)),
            r is Ok <==> final(self).finished(old(self), read_script(old(self).selected_bank(), 2, ACCEL_CONFIG_1, 1)),
            r is Err ==> bus_error(r) && final(self).cached_accel_range() == old(self).cached_accel_range(),
            final(self).selected_bank() == bank_after(old(self).selected_bank(), 2, final(self).since(old(self))),
            r matches Ok(range) ==> range.field() == (value_read(old(self).selected_bank(), 2, final(self).since(old(self))) >> 1u8) % 4
                && final(self).cached_accel_range() == range,
    {
        let value = self.read_reg(2, ACCEL_CONFIG_1)?;
        let range = AccelRange::from_bits((value >> 1) & 0b11);
        assert(((value >> 1u8) & 3) % 4 == (value >> 1u8) % 4) by (bit_vector);
        self.accel_range = range;
        Ok(range)
    }

    /// Set the accelerometer full-scale range; on success the cached range is updated.
    pub fn set_accel_range(&mut self, range: AccelRange) -> (r: Result<(), Error<B::Error>>)
        ensures
            final(self).continues(old(self)),
            final(self).cached_gyro_range() == old(self).cached_gyro_range(),
            final(self).ran(old(self), update_script(old(self).selected_bank(), 2, ACCEL_CONFIG_1,
                RegUpdate::Range(range.field()), final(self).since(old(self)))),
            r is Ok <==> final(self).finished(old(self), update_script(old(self).selected_bank(), 2, ACCEL_CONFIG_1,
                RegUpdate::Range(range.field()), final(self).since(old(self)))),
            r is Ok ==> final(self).cached_accel_range() == range,
            r is Err ==> bus_error(r) && final(self).cached_accel_range() == old(self).cached_accel_range(),
            final(self).selected_bank() == bank_after(old(self).selected_bank(), 2, final(self).since(old(self))),
    {
        self.update_reg(2, ACCEL_CONFIG_1, RegUpdate::Range(range.bits()))?;
        self.accel_range = range;
        Ok(())
    }

    /// Read the gyroscope range from GYRO_CONFIG_1 (bank 2); on success the
    /// cached range follows the value read.
    pub fn read_gyro_range(&mut self) -> (r: Result<GyroRange, Error<B::Error>>)
        ensures
            final(self).continues(old(self)),
            final(self).cached_accel_range() == old(self).cached_accel_range(),
            final(self).ran(old(self), read_script(old(self).selected_bank(), 2, GYRO_CONFIG_1, 1)),
            r is Ok <==> final(self).finished(old(self), read_script(old(self).selected_bank(), 2, GYRO_CONFIG_1, 1)),
            r is Err ==> bus_error(r) && final(self).cached_gyro_range() == old(self).cached_gyro_range(),
            final(self).selected_bank() == bank_after(old(self).selected_bank(), 2, final(self).since(old(self))),
            r matches Ok(range) ==> range.field() == (value_read(old(self).selected_bank(), 2, final(self).since(old(self))) >> 1u8) % 4
                && final(self).cached_gyro_range() == range,
    {
        let value = self.read_reg(2, GYRO_CONFIG_1)?;
        let range = GyroRange::from_bits((value >> 1) & 0b11);
        assert(((value >> 1u8) & 3) % 4 == (value >> 1u8) % 4) by (bit_vector);
        self.gyro_range = range;
        Ok(range)
    }

    /// Set the gyroscope full-scale range; on success the cached range is updated.
    pub fn set_gyro_range(&mut self, range: GyroRange) -> (r: Result<(), Error<B::Error>>)
        ensures
            final(self).continues(old(self)),
            final(self).cached_accel_range() == old(self).cached_accel_range(),
            final(self).ran(old(self), update_script(old(self).selected_bank(), 2, GYRO_CONFIG_1,
                RegUpdate::Range(range.field()), final(self).since(old(self)))),
            r is Ok <==> final(self).finished(old(self), update_script(old(self).selected_bank(), 2, GYRO_CONFIG_1,
                RegUpdate::Range(range.field()), final(self).since(old(self)))),
            r is Ok ==> final(self).cached_gyro_range() == range,
            r is Err ==> bus_error(r) && final(self).cached_gyro_range() == old(self).cached_gyro_range(),
            final(self).selected_bank() == bank_after(old(self).selected_bank(), 2, final(self).since(old(self))),
    {
        self.update_reg(2, GYRO_CONFIG_1, RegUpdate::Range(range.bits()))?;
        self.gyro_range = range;
        Ok(())
    }

    /// Enable or disable the accelerometer DLPF: when `enabled`, `cutoff` is
    /// written into the filter selection bits; otherwise only the enable bit is
    /// cleared.
    pub fn enable_accel_dlpf(&mut self, enabled: bool, cutoff: AccelDlpf) -> (r: Result<(), Error<B::Error>>)
        ensures
            final(self).continues(old(self)),
            final(self).keeps_ranges(old(self)),
            final(self).ran(old(self), update_script(old(self).selected_bank(), 2, ACCEL_CONFIG_1,
                RegUpdate::Dlpf(enabled, cutoff.field()), final(self).since(old(self)))),
            r is Ok <==> final(self).finished(old(self), update_script(old(self).selected_bank(), 2, ACCEL_CONFIG_1,
                RegUpdate::Dlpf(enabled, cutoff.field()), final(self).since(old(self)))),
            r is Err ==> bus_error(r),
            final(self).selected_bank() == bank_after(old(self).selected_bank(), 2, final(self).since(old(self))),
    {
        self.update_reg(2, ACCEL_CONFIG_1, RegUpdate::Dlpf(enabled, cutoff.bits()))
    }

    /// Enable or disable the gyroscope DLPF: when `enabled`, `cutoff` is written
    /// into the filter selection bits; otherwise only the enable bit is cleared.
    pub fn enable_gyro_dlpf(&mut self, enabled: bool, cutoff: GyroDlpf) -> (r: Result<(), Error<B::Error>>)
        ensures
            final(self).continues(old(self)),
            final(self).keeps_ranges(old(self)),
            final(self).ran(old(self), update_script(old(self).selected_bank(), 2, GYRO_CONFIG_1,
                RegUpdate::Dlpf(enabled, cutoff.field()), final(self).since(old(self)))),
            r is Ok <==> final(self).finished(old(self), update_script(old(self).selected_bank(), 2, GYRO_CONFIG_1,
                RegUpdate::Dlpf(enabled, cutoff.field()), final(self).since(old(self)))),
            r is Err ==> bus_error(r),
            final(self).selected_bank() == bank_after(old(self).selected_bank(), 2, final(self).since(old(self))),
    {
        self.update_reg(2, GYRO_CONFIG_1, RegUpdate::Dlpf(enabled, cutoff.bits()))
    }

    /// Enable or disable the auxiliary I2C master (USER_CTRL, bank 0).
    pub fn enable_i2c_master(&mut self, enabled: bool) -> (r: Result<(), Error<B::Error>>)
        ensures
            final(self).continues(old(self)),
            final(self).keeps_ranges(old(self)),
            final(self).ran(old(self), update_script(old(self).selected_bank(), 0, USER_CTRL,
                RegUpdate::Bits(0x20, enabled), final(self).since(old(self)))),
            r is Ok <==> final(self).finished(old(self), update_script(old(self).selected_bank(), 0, USER_CTRL,
                RegUpdate::Bits(0x20, enabled), final(self).since(old(self)))),
            r is Err ==> bus_error(r),
            final(self).selected_bank() == bank_after(old(self).selected_bank(), 0, final(self).since(old(self))),
    {
        self.update_reg(0, USER_CTRL, RegUpdate::Bits(I2C_MST_EN_BIT, enabled))
    }

    /// Enable or disable I2C bypass mode (INT_PIN_CFG, bank 0).
    pub fn set_i2c_bypass(&mut self, enabled: bool) -> (r: Result<(), Error<B::Error>>)
        ensures
            final(self).continues(old(self)),
            final(self).keeps_ranges(old(self)),
            final(self).ran(old(self), update_script(old(self).selected_bank(), 0, INT_PIN_CFG,
                RegUpdate::Bits(0x02, enabled), final(self).since(old(self)))),
            r is Ok <==> final(self).finished(old(self), update_script(old(self).selected_bank(), 0, INT_PIN_CFG,
                RegUpdate::Bits(0x02, enabled), final(self).since(old(self)))),
            r is Err ==> bus_error(r),
            final(self).selected_bank() == bank_after(old(self).selected_bank(), 0, final(self).since(old(self))),
    {
        self.update_reg(0, INT_PIN_CFG, RegUpdate::Bits(I2C_BYPASS_EN_BIT, enabled))
    }

    /// Read one raw accel / gyro / temperature sample with a single 14-byte
    /// burst read starting at ACCEL_XOUT_H.
    pub fn read_raw_sample(&mut self) -> (r: Result<RawSample, Error<B::Error>>)
        ensures
            final(self).continues(old(self)),
            final(self).keeps_ranges(old(self)),
            final(self).ran(old(self), read_script(old(self).selected_bank(), 0, ACCEL_XOUT_H, 14)),
            r is Ok <==> final(self).finished(old(self), read_script(old(self).selected_bank(), 0, ACCEL_XOUT_H, 14)),
            r is Err ==> bus_error(r),
            final(self).selected_bank() == bank_after(old(self).selected_bank(), 0, final(self).since(old(self))),
            r matches Ok(s) ==> ({
                let b = bytes_read(final(self).since(old(self))[bank_len(old(self).selected_bank(), 0)]);
                &&& s.accel_x == be_i16(b[0], b[1])
                &&& s.accel_y == be_i16(b[2], b[3])
                &&& s.accel_z == be_i16(b[4], b[5])
                &&& s.gyro_x == be_i16(b[6], b[7])
                &&& s.gyro_y == be_i16(b[8], b[9])
                &&& s.gyro_z == be_i16(b[10], b[11])
                &&& s.temperature == be_i16(b[12], b[13])
            }),
    {
        let mut buffer: [u8; 14] = [0; 14];
        let result = self.read_many(0, ACCEL_XOUT_H, &mut buffer);
        match result {
            Ok(()) => Ok(decode_raw_sample(&buffer)),
            Err(e) => Err(e),
        }
    }

    /// Reset the device and wait until the reset bit clears; the cached bank is
    /// then bank 0.
    pub fn reset(&mut self) -> (r: Result<(), Error<B::Error>>)
        ensures
            final(self).continues(old(self)),
            final(self).keeps_ranges(old(self)),
            final(self).ran(old(self), write_script(old(self).selected_bank(), 0, PWR_MGMT_1, seq![0x80u8])
                + seq![Planned::PollClear(PWR_MGMT_1, RESET_BIT)]),
            r is Ok <==> final(self).finished(old(self), write_script(old(self).selected_bank(), 0, PWR_MGMT_1, seq![0x80u8])
                + seq![Planned::PollClear(PWR_MGMT_1, RESET_BIT)]),
            r is Err ==> bus_error(r),
            r is Ok ==> final(self).selected_bank() == 0,
            final(self).selected_bank() == bank_after(old(self).selected_bank(), 0, final(self).since(old(self))),
    {
        let ghost start = *self;
        let w = self.write_reg(0, PWR_MGMT_1, RESET_BIT);
        let ghost s1 = write_script(start.bank, 0, PWR_MGMT_1, seq![0x80u8]);
        let ghost p = Planned::PollClear(PWR_MGMT_1, RESET_BIT);
        if let Err(e) = w {
            proof {
                lemma_runs_stop(self.since(&start), s1, seq![p], self.address);
            }
            return Err(e);
        }
        let ghost mid = *self;
        let polled = self.i2c.poll_clear(self.address, PWR_MGMT_1, RESET_BIT);
        let ghost t = I2cTransfer::PollClear { address: self.address, register: PWR_MGMT_1, mask: RESET_BIT, ok: polled is Ok };
        proof {
            assert(self.transfers() =~= mid.transfers() + seq![t]);
            self.lemma_since(&mid, seq![t]);
            self.lemma_chain(&mid, &start);
            Self::lemma_bank_then(mid.since(&start), s1, seq![t], p, self.address);
            assert(start.bank != 0 ==> self.since(&start)[0] == mid.since(&start)[0]);
        }
        match polled {
            Ok(()) => {
                self.bank = 0;
                Ok(())
            },
            Err(e) => Err(Error::I2c(e)),
        }
    }

    /// Initialize the sensor with its default configuration.
    ///
    /// This validates the chip ID, performs a device reset, exits sleep mode,
    /// and programs the default ranges (gyro 4000 dps, accel 30 g) and
    /// sample-rate divisors (gyro 10, accel 20). A chip ID other than 0xE1 is
    /// refused with `InvalidChipId` right after it is read.
    #[verifier::rlimit(50)]
    pub fn init(&mut self) -> (r: Result<(), Error<B::Error>>)
        ensures
            final(self).continues(old(self)),
            ({
                let d = final(self).since(old(self));
                let cur = old(self).selected_bank();
                let n = bank_len(cur, 0);
                let who = bank_script(cur, 0) + seq![Planned::WriteRead(seq![0x00u8], 1)];
                if d.len() >= n + 1 && completed(d.subrange(0, n + 1), who) && first_read(d[n]) != 0xE1 {
                    d.len() == n + 1 && r == Err::<(), Error<B::Error>>(Error::InvalidChipId(first_read(d[n])))
                } else {
                    &&& runs(d, old(self).device_address(), init_script(cur, d))
                    &&& (r is Ok <==> completed(d, init_script(cur, d)))
                    &&& (r is Err ==> bus_error(r))
                }
            }),
            r is Ok ==> final(self).selected_bank() == 2 && final(self).cached_accel_range() == AccelRange::G30
                && final(self).cached_gyro_range() == GyroRange::Dps4000,
            r is Err ==> (final(self).cached_accel_range() == old(self).cached_accel_range()
                || final(self).cached_accel_range() == AccelRange::G30),
            r is Err ==> (final(self).cached_gyro_range() == old(self).cached_gyro_range()
                || final(self).cached_gyro_range() == GyroRange::Dps4000),
    {
        let ghost start = *self;
        let ghost cur = self.bank;
        let ghost addr = self.address;
        let ghost n = bank_len(cur, 0);
        let ghost who = bank_script(cur, 0) + seq![Planned::WriteRead(seq![0x00u8], 1)];
        // Step 1: select bank 0.
        let sel = self.set_bank(0);
        let ghost s_acc = bank_script(cur, 0);
        if let Err(e) = sel {
            proof {
                let d = self.since(&start);
                assert(d.len() <= n);
                assert(s_acc.subrange(0, d.len() as int) =~= init_script(cur, d).subrange(0, d.len() as int));
                Self::lemma_init_stop(cur, d, s_acc, addr, 0, 0, 0);
            }
            return Err(e);
        }
        // Step 2: check WHO_AM_I.
        let ghost m = *self;
        let chip = self.read_reg(0, WHO_AM_I);
        proof {
            self.lemma_chain(&m, &start);
            let s2 = read_script(0, 0, WHO_AM_I, 1);
            assert(s2 =~= seq![Planned::WriteRead(seq![0x00u8], 1)]);
            lemma_runs_concat(m.since(&start), s_acc, self.since(&m), s2, addr);
            s_acc = s_acc + s2;
            assert(s_acc =~= who);
        }
        let chip_id = match chip {
            Ok(v) => v,
            Err(e) => {
                proof {
                    let d = self.since(&start);
                    assert(d.subrange(0, n + 1) =~= d);
                    assert(s_acc.subrange(0, d.len() as int) =~= init_script(cur, d).subrange(0, d.len() as int));
                    Self::lemma_init_stop(cur, d, s_acc, addr, 0, 0, 0);
                }
                return Err(e);
            },
        };
        proof {
            let d = self.since(&start);
            assert(d[n] == self.since(&m)[0]);
            assert(d.subrange(0, n + 1) =~= d);
        }
        if chip_id != CHIP_ID {
            return Err(Error::InvalidChipId(chip_id));
        }
        let ghost d2 = self.since(&start);
        // Step 3: reset.
        let ghost m = *self;
        let res = self.reset();
        proof {
            self.lemma_chain(&m, &start);
            assert(m.since(&start).subrange(0, d2.len() as int) == d2);
            assert(self.since(&start).subrange(0, d2.len() as int) =~= d2);
            assert(seq![PWR_MGMT_1] + seq![0x80u8] =~= seq![0x06u8, 0x80u8]);
            let s3 = write_script(0, 0, PWR_MGMT_1, seq![0x80u8]) + seq![Planned::PollClear(PWR_MGMT_1, RESET_BIT)];
            assert(s3 =~= seq![Planned::Write(seq![0x06u8, 0x80u8]), Planned::PollClear(0x06u8, 0x80u8)]);
            lemma_runs_concat(m.since(&start), s_acc, self.since(&m), s3, addr);
            s_acc = s_acc + s3;
        }
        if let Err(e) = res {
            proof {
                let dd = self.since(&start);
                assert(s_acc.subrange(0, dd.len() as int) =~= init_script(cur, dd).subrange(0, dd.len() as int));
                Self::lemma_stop_after_who(cur, dd, d2, s_acc, addr, 0, 0, 0);
            }
            return Err(e);
        }
        // Step 4: leave sleep mode.
        let ghost m = *self;
        let wake = self.update_reg(0, PWR_MGMT_1, RegUpdate::Bits(SLEEP_BIT, false));
        let ghost v1 = first_read(self.since(&m)[0]);
        proof {
            self.lemma_chain(&m, &start);
            assert(m.since(&start).subrange(0, d2.len() as int) == d2);
            assert(self.since(&start).subrange(0, d2.len() as int) =~= d2);
            let dk = self.since(&m);
            let s4 = update_script(0, 0, PWR_MGMT_1, RegUpdate::Bits(SLEEP_BIT, false), dk);
            assert(s4 =~= seq![Planned::WriteRead(seq![0x06u8], 1), Planned::Write(seq![0x06u8, with_bits(v1, 0x40u8, false)])]);
            lemma_runs_concat(m.since(&start), s_acc, dk, s4, addr);
            s_acc = s_acc + s4;
            assert(self.since(&start)[n + 3] == dk[0]);
        }
        let ghost d4 = self.since(&start);
        if let Err(e) = wake {
            proof {
                let dd = d4;
                assert(s_acc.subrange(0, dd.len() as int) =~= init_script(cur, dd).subrange(0, dd.len() as int));
                Self::lemma_stop_after_who(cur, dd, d2, s_acc, addr, v1, 0, 0);
            }
            return Err(e);
        }
        // Step 5: gyro range 4000 dps.
        let ghost m = *self;
        let gyro = self.set_gyro_range(GyroRange::Dps4000);
        let ghost v2 = first_read(self.since(&m)[1]);
        proof {
            self.lemma_chain(&m, &start);
            assert(m.since(&start).subrange(0, d2.len() as int) == d2);
            assert(self.since(&start).subrange(0, d2.len() as int) =~= d2);
            let dk = self.since(&m);
            let s5 = update_script(0, 2, GYRO_CONFIG_1, RegUpdate::Range(3), dk);
            assert(s5 =~= seq![Planned::Write(seq![0x7Fu8, 0x20u8]), Planned::WriteRead(seq![0x01u8], 1),
                Planned::Write(seq![0x01u8, with_range_field(v2, 3)])]);
            lemma_runs_concat(m.since(&start), s_acc, dk, s5, addr);
            s_acc = s_acc + s5;
            assert(self.since(&start)[n + 3] == d4[n + 3]);
        }
        let ghost d5 = self.since(&start);
        if let Err(e) = gyro {
            proof {
                let dd = d5;
                assert(s_acc.subrange(0, dd.len() as int) =~= init_script(cur, dd).subrange(0, dd.len() as int));
                Self::lemma_stop_after_who(cur, dd, d2, s_acc, addr, v1, v2, 0);
            }
            return Err(e);
        }
        proof { assert(d5[n + 6] == self.since(&m)[1]); }
        // Step 6: accel range 30 g.
        let ghost m = *self;
        let accel = self.set_accel_range(AccelRange::G30);
        let ghost v3 = first_read(self.since(&m)[0]);
        proof {
            self.lemma_chain(&m, &start);
            assert(m.since(&start).subrange(0, d2.len() as int) == d2);
            assert(self.since(&start).subrange(0, d2.len() as int) =~= d2);
            let dk = self.since(&m);
            let s6 = update_script(2, 2, ACCEL_CONFIG_1, RegUpdate::Range(3), dk);
            assert(s6 =~= seq![Planned::WriteRead(seq![0x14u8], 1), Planned::Write(seq![0x14u8, with_range_field(v3, 3)])]);
            lemma_runs_concat(m.since(&start), s_acc, dk, s6, addr);
            s_acc = s_acc + s6;
            assert(self.since(&start)[n + 3] == d5[n + 3]);
            assert(self.since(&start)[n + 6] == d5[n + 6]);
            assert(self.since(&start)[n + 8] == dk[0]);
        }
        let ghost d6 = self.since(&start);
        if let Err(e) = accel {
            proof {
                let dd = d6;
                assert(s_acc.subrange(0, dd.len() as int) =~= init_script(cur, dd).subrange(0, dd.len() as int));
                Self::lemma_stop_after_who(cur, dd, d2, s_acc, addr, v1, v2, v3);
            }
            return Err(e);
        }
        // Step 7: gyro rate divisor 10.
        let ghost m = *self;
        let gdiv = self.set_gyro_rate_divisor(10);
        proof {
            self.lemma_chain(&m, &start);
            assert(m.since(&start).subrange(0, d2.len() as int) == d2);
            assert(self.since(&start).subrange(0, d2.len() as int) =~= d2);
            let s7 = write_script(2, 2, GYRO_SMPLRT_DIV, seq![10u8]);
            assert(seq![GYRO_SMPLRT_DIV] + seq![10u8] =~= seq![0x00u8, 10u8]);
            assert(s7 =~= seq![Planned::Write(seq![0x00u8, 10u8])]);
            lemma_runs_concat(m.since(&start), s_acc, self.since(&m), s7, addr);
            s_acc = s_acc + s7;
            assert(self.since(&start)[n + 3] == d6[n + 3]);
            assert(self.since(&start)[n + 6] == d6[n + 6]);
            assert(self.since(&start)[n + 8] == d6[n + 8]);
        }
        let ghost d7 = self.since(&start);
        if let Err(e) = gdiv {
            proof {
                let dd = d7;
                assert(s_acc.subrange(0, dd.len() as int) =~= init_script(cur, dd).subrange(0, dd.len() as int));
                Self::lemma_stop_after_who(cur, dd, d2, s_acc, addr, v1, v2, v3);
            }
            return Err(e);
        }
        // Step 8: accel rate divisor 20.
        let ghost m = *self;
        let adiv = self.set_accel_rate_divisor(20);
        proof {
            self.lemma_chain(&m, &start);
            assert(m.since(&start).subrange(0, d2.len() as int) == d2);
            assert(self.since(&start).subrange(0, d2.len() as int) =~= d2);
            let s8 = write_script(2, 2, ACCEL_SMPLRT_DIV_1, seq![((20u16 % 0x1000) / 256) as u8, ((20u16 % 0x1000) % 256) as u8]);
            assert(seq![ACCEL_SMPLRT_DIV_1] + seq![((20u16 % 0x1000) / 256) as u8, ((20u16 % 0x1000) % 256) as u8] =~= seq![0x10u8, 0u8, 20u8]);
            assert(s8 =~= seq![Planned::Write(seq![0x10u8, 0u8, 20u8])]);
            lemma_runs_concat(m.since(&start), s_acc, self.since(&m), s8, addr);
            s_acc = s_acc + s8;
            let d = self.since(&start);
            assert(d[n + 3] == d7[n + 3]);
            assert(d[n + 6] == d7[n + 6]);
            assert(d[n + 8] == d7[n + 8]);
            assert(d[n] == d2[n]);
            assert(d.subrange(0, n + 1) =~= d2.subrange(0, n + 1));
            assert(s_acc =~= init_script(cur, d));
        }
        if let Err(e) = adiv {
            return Err(e);
        }
        Ok(())
    }

    /// A run of `init` that stopped at a failing transfer, after the part
    /// `done` of its script, which agrees with the script on the transfers made.
    proof fn lemma_init_stop(cur: u8, d: Seq<I2cTransfer>, done: Seq<Planned>, address: u8, v1: u8, v2: u8, v3: u8)
        requires
            runs(d, address, done),
            !completed(d, done),
            done.len() <= init_script(cur, d).len(),
            done.subrange(0, d.len() as int) == init_script(cur, d).subrange(0, d.len() as int),
        ensures
            runs(d, address, init_script(cur, d)),
            !completed(d, init_script(cur, d)),
    {
        let full = init_script(cur, d);
        assert forall|i: int| 0 <= i < d.len() implies #[trigger] performs(d[i], address, full[i]) by {
            assert(performs(d[i], address, done[i]));
            assert(done[i] == done.subrange(0, d.len() as int)[i]);
            assert(full[i] == full.subrange(0, d.len() as int)[i]);
        }
        if d.len() == done.len() {
            if transfer_ok(d[d.len() - 1]) {
                assert forall|i: int| 0 <= i < d.len() implies transfer_ok(#[trigger] d[i]) by {
                    if i < d.len() - 1 {
                    } else {
                        assert(i == d.len() - 1);
                    }
                }
            }
        }
    }

    /// A failure after the WHO_AM_I check: the check passed, so `init` reports
    /// the bus error of the script run.
    proof fn lemma_stop_after_who(cur: u8, d: Seq<I2cTransfer>, d2: Seq<I2cTransfer>, done: Seq<Planned>, address: u8, v1: u8, v2: u8, v3: u8)
        requires
            runs(d, address, done),
            !completed(d, done),
            d2.len() == bank_len(cur, 0) + 1,
            d.len() >= d2.len(),
            d.subrange(0, d2.len() as int) == d2,
            first_read(d2[bank_len(cur, 0)]) == 0xE1,
            done.len() <= init_script(cur, d).len(),
            done.subrange(0, d.len() as int) == init_script(cur, d).subrange(0, d.len() as int),
        ensures
            runs(d, address, init_script(cur, d)),
            !completed(d, init_script(cur, d)),
            first_read(d[bank_len(cur, 0)]) == 0xE1,
    {
        Self::lemma_init_stop(cur, d, done, address, v1, v2, v3);
        assert(d[bank_len(cur, 0)] == d.subrange(0, d2.len() as int)[bank_len(cur, 0)]);
    }
}

} // verus!
