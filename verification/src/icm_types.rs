//! Register map and configuration types of the ICM-20649 IMU, and the pure
//! encoders and decoders of its register fields.

use vstd::prelude::*;

verus! {

/// Default 7-bit I2C address of the device.
pub const DEFAULT_ADDRESS: u8 = 0x68;

/// Bank 0: WHO_AM_I.
pub const WHO_AM_I: u8 = 0x00;
/// Bank 0: USER_CTRL.
pub const USER_CTRL: u8 = 0x03;
/// Bank 0: PWR_MGMT_1.
pub const PWR_MGMT_1: u8 = 0x06;
/// Bank 0: INT_PIN_CFG.
pub const INT_PIN_CFG: u8 = 0x0F;
/// Any bank: REG_BANK_SEL.
pub const REG_BANK_SEL: u8 = 0x7F;
/// Bank 0: ACCEL_XOUT_H, the first of the 14 sample registers.
pub const ACCEL_XOUT_H: u8 = 0x2D;

/// Bank 2: GYRO_SMPLRT_DIV.
pub const GYRO_SMPLRT_DIV: u8 = 0x00;
/// Bank 2: GYRO_CONFIG_1.
pub const GYRO_CONFIG_1: u8 = 0x01;
/// Bank 2: ACCEL_SMPLRT_DIV_1 (high byte; the low byte follows).
pub const ACCEL_SMPLRT_DIV_1: u8 = 0x10;
/// Bank 2: ACCEL_CONFIG_1.
pub const ACCEL_CONFIG_1: u8 = 0x14;

/// The WHO_AM_I value of an ICM-20649.
pub const CHIP_ID: u8 = 0xE1;
/// PWR_MGMT_1: device reset.
pub const RESET_BIT: u8 = 0x80;
/// PWR_MGMT_1: sleep.
pub const SLEEP_BIT: u8 = 0x40;
/// USER_CTRL: auxiliary I2C master enable.
pub const I2C_MST_EN_BIT: u8 = 0x20;
/// INT_PIN_CFG: I2C bypass enable.
pub const I2C_BYPASS_EN_BIT: u8 = 0x02;

/// Accelerometer full-scale range.
///
/// These map directly to the two range bits in `ACCEL_CONFIG_1`.
#[derive(Clone, Copy, Debug, PartialEq, Eq, Structural)]
pub enum AccelRange {
    /// +/-4 g
    G4,
    /// +/-8 g
    G8,
    /// +/-16 g
    G16,
    /// +/-30 g
    G30,
}

impl AccelRange {
    /// The value of the range field for this range.
    pub open spec fn field(self) -> u8 {
        match self {
            AccelRange::G4 => 0,
            AccelRange::G8 => 1,
            AccelRange::G16 => 2,
            AccelRange::G30 => 3,
        }
    }

    /// The value of the range field for this range.
    pub fn bits(self) -> (r: u8)
        ensures
            r == self.field(),
    {
        match self {
            AccelRange::G4 => 0,
            AccelRange::G8 => 1,
            AccelRange::G16 => 2,
            AccelRange::G30 => 3,
        }
    }

    /// The range whose field value is the low two bits of `bits`.
    pub fn from_bits(bits: u8) -> (r: AccelRange)
        ensures
            r.field() == bits % 4,
    {
        let b = bits & 0b11;
        assert(bits & 3 == bits % 4) by (bit_vector);
        if b == 0 {
            AccelRange::G4
        } else if b == 1 {
            AccelRange::G8
        } else if b == 2 {
            AccelRange::G16
        } else {
            AccelRange::G30
        }
    }
}

/// Gyroscope full-scale range.
///
/// These map directly to the two range bits in `GYRO_CONFIG_1`.
#[derive(Clone, Copy, Debug, PartialEq, Eq, Structural)]
pub enum GyroRange {
    /// +/-500 dps
    Dps500,
    /// +/-1000 dps
    Dps1000,
    /// +/-2000 dps
    Dps2000,
    /// +/-4000 dps
    Dps4000,
}

impl GyroRange {
    /// The value of the range field for this range.
    pub open spec fn field(self) -> u8 {
        match self {
            GyroRange::Dps500 => 0,
            GyroRange::Dps1000 => 1,
            GyroRange::Dps2000 => 2,
            GyroRange::Dps4000 => 3,
        }
    }

    /// The value of the range field for this range.
    pub fn bits(self) -> (r: u8)
        ensures
            r == self.field(),
    {
        match self {
            GyroRange::Dps500 => 0,
            GyroRange::Dps1000 => 1,
            GyroRange::Dps2000 => 2,
            GyroRange::Dps4000 => 3,
        }
    }

    /// The range whose field value is the low two bits of `bits`.
    pub fn from_bits(bits: u8) -> (r: GyroRange)
        ensures
            r.field() == bits % 4,
    {
        let b = bits & 0b11;
        assert(bits & 3 == bits % 4) by (bit_vector);
        if b == 0 {
            GyroRange::Dps500
        } else if b == 1 {
            GyroRange::Dps1000
        } else if b == 2 {
            GyroRange::Dps2000
        } else {
            GyroRange::Dps4000
        }
    }
}

/// Accelerometer DLPF cutoff selection.
#[derive(Clone, Copy, Debug, PartialEq, Eq, Structural)]
pub enum AccelDlpf {
    /// 246.0 Hz
    Hz246_0,
    /// 111.4 Hz
    Hz111_4,
    /// 50.4 Hz
    Hz50_4,
    /// 23.9 Hz
    Hz23_9,
    /// 11.5 Hz
    Hz11_5,
    /// 5.7 Hz
    Hz5_7,
    /// 473 Hz
    Hz473,
}

impl AccelDlpf {
    /// The value of the DLPF configuration field for this cutoff.
    pub open spec fn field(self) -> u8 {
        match self {
            AccelDlpf::Hz246_0 => 1,
            AccelDlpf::Hz111_4 => 2,
            AccelDlpf::Hz50_4 => 3,
            AccelDlpf::Hz23_9 => 4,
            AccelDlpf::Hz11_5 => 5,
            AccelDlpf::Hz5_7 => 6,
            AccelDlpf::Hz473 => 7,
        }
    }

    /// The value of the DLPF configuration field for this cutoff.
    pub fn bits(self) -> (r: u8)
        ensures
            r == self.field(),
    {
        match self {
            AccelDlpf::Hz246_0 => 1,
            AccelDlpf::Hz111_4 => 2,
            AccelDlpf::Hz50_4 => 3,
            AccelDlpf::Hz23_9 => 4,
            AccelDlpf::Hz11_5 => 5,
            AccelDlpf::Hz5_7 => 6,
            AccelDlpf::Hz473 => 7,
        }
    }
}

/// Gyroscope DLPF cutoff selection.
#[derive(Clone, Copy, Debug, PartialEq, Eq, Structural)]
pub enum GyroDlpf {
    /// 196.6 Hz
    Hz196_6,
    /// 151.8 Hz
    Hz151_8,
    /// 119.5 Hz
    Hz119_5,
    /// 51.2 Hz
    Hz51_2,
    /// 23.9 Hz
    Hz23_9,
    /// 11.6 Hz
    Hz11_6,
    /// 5.7 Hz
    Hz5_7,
    /// 361.4 Hz
    Hz361_4,
}

impl GyroDlpf {
    /// The value of the DLPF configuration field for this cutoff.
    pub open spec fn field(self) -> u8 {
        match self {
            GyroDlpf::Hz196_6 => 0,
            GyroDlpf::Hz151_8 => 1,
            GyroDlpf::Hz119_5 => 2,
            GyroDlpf::Hz51_2 => 3,
            GyroDlpf::Hz23_9 => 4,
            GyroDlpf::Hz11_6 => 5,
            GyroDlpf::Hz5_7 => 6,
            GyroDlpf::Hz361_4 => 7,
        }
    }

    /// The value of the DLPF configuration field for this cutoff.
    pub fn bits(self) -> (r: u8)
        ensures
            r == self.field(),
    {
        match self {
            GyroDlpf::Hz196_6 => 0,
            GyroDlpf::Hz151_8 => 1,
            GyroDlpf::Hz119_5 => 2,
            GyroDlpf::Hz51_2 => 3,
            GyroDlpf::Hz23_9 => 4,
            GyroDlpf::Hz11_6 => 5,
            GyroDlpf::Hz5_7 => 6,
            GyroDlpf::Hz361_4 => 7,
        }
    }
}

/// Raw sensor sample straight from the device registers.
///
/// Values are unscaled signed register readings.
#[derive(Clone, Copy, Debug, PartialEq, Eq, Structural)]
pub struct RawSample {
    /// Raw accelerometer X axis.
    pub accel_x: i16,
    /// Raw accelerometer Y axis.
    pub accel_y: i16,
    /// Raw accelerometer Z axis.
    pub accel_z: i16,
    /// Raw gyroscope X axis.
    pub gyro_x: i16,
    /// Raw gyroscope Y axis.
    pub gyro_y: i16,
    /// Raw gyroscope Z axis.
    pub gyro_z: i16,
    /// Raw temperature reading.
    pub temperature: i16,
}

/// The two's complement value of the big-endian bytes `hi lo`.
pub open spec fn be_i16(hi: u8, lo: u8) -> int {
    let u = hi * 256 + lo;
    if u >= 0x8000 { u - 0x1_0000 } else { u }
}

/// The unsigned value of the big-endian bytes `hi lo`.
pub open spec fn be_u16(hi: u8, lo: u8) -> int {
    hi * 256 + lo
}

/// A configuration register value with its range field (bits 1..2) set to `field`.
pub open spec fn with_range_field(value: u8, field: u8) -> u8 {
    (value & !0x06u8) | ((field << 1u8) & 0x06u8)
}

/// A configuration register value with the DLPF enabled and its cutoff field
/// (bits 3..5) set to `cutoff`, or with only the enable bit cleared.
pub open spec fn with_dlpf(value: u8, enabled: bool, cutoff: u8) -> u8 {
    if enabled {
        ((value | 0x01u8) & !0x38u8) | ((cutoff & 0x07u8) << 3u8)
    } else {
        value & !0x01u8
    }
}

/// A register value with the bits of `mask` set or cleared.
pub open spec fn with_bits(value: u8, mask: u8, set: bool) -> u8 {
    if set { value | mask } else { value & !mask }
}

/// Decodes a big-endian signed 16-bit value.
pub fn i16_from_be(hi: u8, lo: u8) -> (r: i16)
    ensures
        r == be_i16(hi, lo),
{
    let u: u16 = ((hi as u16) << 8) | (lo as u16);
    let r = u as i16;
    assert(u == hi * 256 + lo && r == (if u >= 0x8000 { u - 0x1_0000 } else { u as int })) by (bit_vector)
        requires
            u == ((hi as u16) << 8u16) | (lo as u16),
            r == u as i16,
    ;
    r
}

/// Decodes a big-endian unsigned 16-bit value.
pub fn u16_from_be(hi: u8, lo: u8) -> (r: u16)
    ensures
        r == be_u16(hi, lo),
{
    let u: u16 = ((hi as u16) << 8) | (lo as u16);
    assert(u == hi * 256 + lo) by (bit_vector)
        requires u == ((hi as u16) << 8u16) | (lo as u16);
    u
}

/// Decodes the 14 sample registers starting at ACCEL_XOUT_H: accelerometer,
/// gyroscope and temperature, each big-endian.
pub fn decode_raw_sample(buffer: &[u8]) -> (s: RawSample)
    requires
        buffer@.len() >= 14,
    ensures
        s.accel_x == be_i16(buffer@[0], buffer@[1]),
        s.accel_y == be_i16(buffer@[2], buffer@[3]),
        s.accel_z == be_i16(buffer@[4], buffer@[5]),
        s.gyro_x == be_i16(buffer@[6], buffer@[7]),
        s.gyro_y == be_i16(buffer@[8], buffer@[9]),
        s.gyro_z == be_i16(buffer@[10], buffer@[11]),
        s.temperature == be_i16(buffer@[12], buffer@[13]),
{
    RawSample {
        accel_x: i16_from_be(buffer[0], buffer[1]),
        accel_y: i16_from_be(buffer[2], buffer[3]),
        accel_z: i16_from_be(buffer[4], buffer[5]),
        gyro_x: i16_from_be(buffer[6], buffer[7]),
        gyro_y: i16_from_be(buffer[8], buffer[9]),
        gyro_z: i16_from_be(buffer[10], buffer[11]),
        temperature: i16_from_be(buffer[12], buffer[13]),
    }
}

/// A configuration register value with its range field replaced.
pub fn range_config(value: u8, field: u8) -> (r: u8)
    requires
        field < 4,
    ensures
        r == with_range_field(value, field),
{
    assert(field < 4 ==> (field << 1u8) & 0x06u8 == field << 1u8) by (bit_vector);
    (value & !0x06u8) | (field << 1)
}

/// A configuration register value with the DLPF enable and cutoff updated.
pub fn dlpf_config(value: u8, enabled: bool, cutoff: u8) -> (r: u8)
    ensures
        r == with_dlpf(value, enabled, cutoff),
{
    let with_enable = if enabled { value | 0x01 } else { value & !0x01u8 };
    if enabled {
        (with_enable & !0x38u8) | ((cutoff & 0x07) << 3)
    } else {
        with_enable
    }
}

/// A register value with the bits of `mask` set or cleared.
pub fn bits_config(value: u8, mask: u8, set: bool) -> (r: u8)
    ensures
        r == with_bits(value, mask, set),
{
    if set { value | mask } else { value & !mask }
}

/// Setting bits turns on exactly the bits of the mask and clearing turns them
/// off; every other bit keeps its value either way.
pub proof fn lemma_bits_set_or_cleared(value: u8, mask: u8)
    ensures
        with_bits(value, mask, true) & mask == mask,
        with_bits(value, mask, false) & mask == 0,
        with_bits(value, mask, true) & !mask == value & !mask,
        with_bits(value, mask, false) & !mask == value & !mask,
{
    assert((value | mask) & mask == mask && (value & !mask) & mask == 0
        && (value | mask) & !mask == value & !mask && (value & !mask) & !mask == value & !mask) by (bit_vector);
}

/// The range field read back from a register written with `with_range_field`
/// is the field written, and the other bits are kept.
pub proof fn lemma_range_field_round_trip(value: u8, field: u8)
    requires
        field < 4,
    ensures
        (with_range_field(value, field) >> 1u8) % 4 == field,
        with_range_field(value, field) & !0x06u8 == value & !0x06u8,
{
    assert(field < 4 ==> ((((value & !0x06u8) | ((field << 1u8) & 0x06u8)) >> 1u8) % 4 == field
        && ((value & !0x06u8) | ((field << 1u8) & 0x06u8)) & !0x06u8 == value & !0x06u8)) by (bit_vector);
}

/// A DLPF configuration written with `with_dlpf` reads back enabled with the
/// cutoff written, the bits outside the DLPF fields kept.
pub proof fn lemma_dlpf_round_trip(value: u8, cutoff: u8)
    requires
        cutoff < 8,
    ensures
        with_dlpf(value, true, cutoff) & 0x01u8 == 1,
        (with_dlpf(value, true, cutoff) >> 3u8) & 0x07u8 == cutoff,
        with_dlpf(value, true, cutoff) & !0x39u8 == value & !0x39u8,
        with_dlpf(value, false, cutoff) & 0x01u8 == 0,
{
    assert(cutoff < 8 ==> (((value | 0x01u8) & !0x38u8) | ((cutoff & 0x07u8) << 3u8)) & 0x01u8 == 1
        && ((((value | 0x01u8) & !0x38u8) | ((cutoff & 0x07u8) << 3u8)) >> 3u8) & 0x07u8 == cutoff
        && (((value | 0x01u8) & !0x38u8) | ((cutoff & 0x07u8) << 3u8)) & !0x39u8 == value & !0x39u8
        && (value & !0x01u8) & 0x01u8 == 0) by (bit_vector);
}

} // verus!
