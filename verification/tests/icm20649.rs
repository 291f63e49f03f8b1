use teensy_firmware::i2c_bus::I2cBus;
use teensy_firmware::icm_driver::{Error, Icm20649};
use teensy_firmware::icm_types::{
    bits_config, decode_raw_sample, dlpf_config, i16_from_be, range_config, u16_from_be, AccelDlpf,
    AccelRange, GyroDlpf, GyroRange, RawSample, ACCEL_CONFIG_1, ACCEL_SMPLRT_DIV_1, ACCEL_XOUT_H,
    CHIP_ID, DEFAULT_ADDRESS, GYRO_CONFIG_1, GYRO_SMPLRT_DIV, INT_PIN_CFG, PWR_MGMT_1,
    REG_BANK_SEL, RESET_BIT, SLEEP_BIT, USER_CTRL, WHO_AM_I,
};

/// One transfer the mock bus expects, or a transfer it refuses.
#[derive(Clone, Debug)]
enum Expectation {
    Write(Vec<u8>),
    WriteRead(Vec<u8>, Vec<u8>),
    Nack,
}

#[derive(Debug, PartialEq, Eq)]
struct Nack;

struct MockI2c {
    ops: Vec<Expectation>,
    next: usize,
    address: u8,
}

impl MockI2c {
    fn new(ops: Vec<Expectation>) -> Self {
        Self { ops, next: 0, address: DEFAULT_ADDRESS }
    }

    fn take(&mut self) -> Expectation {
        let op = self.ops.get(self.next).cloned().expect("unexpected I2C operation");
        self.next += 1;
        op
    }

    fn done(&self) {
        assert_eq!(self.next, self.ops.len(), "unused I2C expectations remain");
    }
}

impl I2cBus for MockI2c {
    type Error = Nack;

    fn write(&mut self, address: u8, bytes: &[u8]) -> Result<(), Nack> {
        assert_eq!(address, self.address);
        match self.take() {
            Expectation::Write(expected) => {
                assert_eq!(bytes, &expected[..]);
                Ok(())
            }
            Expectation::Nack => Err(Nack),
            Expectation::WriteRead(_, _) => panic!("expected write_read, got write"),
        }
    }

    fn write_read(&mut self, address: u8, bytes: &[u8], buffer: &mut [u8]) -> Result<(), Nack> {
        assert_eq!(address, self.address);
        match self.take() {
            Expectation::WriteRead(expected, read) => {
                assert_eq!(bytes, &expected[..]);
                buffer.copy_from_slice(&read);
                Ok(())
            }
            Expectation::Nack => Err(Nack),
            Expectation::Write(_) => panic!("expected write, got write_read"),
        }
    }

    fn poll_clear(&mut self, address: u8, register: u8, mask: u8) -> Result<(), Nack> {
        loop {
            let mut value = [0u8];
            self.write_read(address, &[register], &mut value)?;
            if value[0] & mask == 0 {
                return Ok(());
            }
        }
    }
}

fn w(bytes: &[u8]) -> Expectation {
    Expectation::Write(bytes.to_vec())
}

fn wr(bytes: &[u8], read: &[u8]) -> Expectation {
    Expectation::WriteRead(bytes.to_vec(), read.to_vec())
}

#[test]
fn init_verifies_id_and_programs_defaults() {
    let expectations = vec![
        wr(&[WHO_AM_I], &[CHIP_ID]),
        w(&[PWR_MGMT_1, RESET_BIT]),
        wr(&[PWR_MGMT_1], &[0]),
        wr(&[PWR_MGMT_1], &[SLEEP_BIT]),
        w(&[PWR_MGMT_1, 0]),
        w(&[REG_BANK_SEL, 0x20]),
        wr(&[GYRO_CONFIG_1], &[0]),
        w(&[GYRO_CONFIG_1, 0b110]),
        wr(&[ACCEL_CONFIG_1], &[0]),
        w(&[ACCEL_CONFIG_1, 0b110]),
        w(&[GYRO_SMPLRT_DIV, 10]),
        w(&[ACCEL_SMPLRT_DIV_1, 0, 20]),
    ];

    let mut sensor = Icm20649::new(MockI2c::new(expectations));
    sensor.init().unwrap();
    sensor.free().done();
}

#[test]
fn gyro_dlpf_uses_gyro_config_register() {
    let expectations = vec![
        w(&[REG_BANK_SEL, 0x20]),
        wr(&[GYRO_CONFIG_1], &[0]),
        w(&[GYRO_CONFIG_1, 0b1 | GyroDlpf::Hz51_2.bits() << 3]),
    ];

    let mut sensor = Icm20649::new(MockI2c::new(expectations));
    sensor.enable_gyro_dlpf(true, GyroDlpf::Hz51_2).unwrap();
    sensor.free().done();
}

#[test]
fn init_rejects_a_foreign_chip() {
    let mut sensor = Icm20649::new(MockI2c::new(vec![wr(&[WHO_AM_I], &[0x12])]));
    assert_eq!(sensor.init(), Err(Error::InvalidChipId(0x12)));
    sensor.free().done();
}

#[test]
fn init_stops_at_the_first_bus_error() {
    let mut sensor = Icm20649::new(MockI2c::new(vec![
        wr(&[WHO_AM_I], &[CHIP_ID]),
        Expectation::Nack,
    ]));
    assert_eq!(sensor.init(), Err(Error::I2c(Nack)));
    sensor.free().done();
}

#[test]
fn reset_polls_until_the_reset_bit_clears() {
    let mut sensor = Icm20649::new(MockI2c::new(vec![
        w(&[PWR_MGMT_1, RESET_BIT]),
        wr(&[PWR_MGMT_1], &[RESET_BIT]),
        wr(&[PWR_MGMT_1], &[RESET_BIT | SLEEP_BIT]),
        wr(&[PWR_MGMT_1], &[SLEEP_BIT]),
    ]));
    assert_eq!(sensor.reset(), Ok(()));
    sensor.free().done();
}

#[test]
fn driver_skips_bank_select_when_bank_is_current() {
    let mut sensor = Icm20649::new(MockI2c::new(vec![
        w(&[REG_BANK_SEL, 0x20]),
        w(&[GYRO_SMPLRT_DIV, 7]),
        wr(&[GYRO_SMPLRT_DIV], &[7]),
        w(&[REG_BANK_SEL, 0x00]),
        wr(&[WHO_AM_I], &[CHIP_ID]),
    ]));
    assert_eq!(sensor.set_gyro_rate_divisor(7), Ok(()));
    assert_eq!(sensor.gyro_rate_divisor(), Ok(7));
    assert_eq!(sensor.read_register(0, WHO_AM_I), Ok(CHIP_ID));
    sensor.free().done();
}

#[test]
fn accel_rate_divisor_is_twelve_bits_big_endian() {
    let mut sensor = Icm20649::new(MockI2c::new(vec![
        w(&[REG_BANK_SEL, 0x20]),
        w(&[ACCEL_SMPLRT_DIV_1, 0x0A, 0xBC]),
        wr(&[ACCEL_SMPLRT_DIV_1], &[0x0A, 0xBC]),
    ]));
    assert_eq!(sensor.set_accel_rate_divisor(0xFABC), Ok(()));
    assert_eq!(sensor.accel_rate_divisor(), Ok(0x0ABC));
    sensor.free().done();
}

#[test]
fn ranges_are_written_into_bits_one_and_two() {
    let mut sensor = Icm20649::new(MockI2c::new(vec![
        w(&[REG_BANK_SEL, 0x20]),
        wr(&[ACCEL_CONFIG_1], &[0xFF]),
        w(&[ACCEL_CONFIG_1, 0xFB]),
        wr(&[GYRO_CONFIG_1], &[0x00]),
        w(&[GYRO_CONFIG_1, 0x02]),
        wr(&[ACCEL_CONFIG_1], &[0x04]),
        wr(&[GYRO_CONFIG_1], &[0xF8]),
    ]));
    assert_eq!(sensor.set_accel_range(AccelRange::G8), Ok(()));
    assert_eq!(sensor.accel_range(), AccelRange::G8);
    assert_eq!(sensor.set_gyro_range(GyroRange::Dps1000), Ok(()));
    assert_eq!(sensor.gyro_range(), GyroRange::Dps1000);
    assert_eq!(sensor.read_accel_range(), Ok(AccelRange::G16));
    assert_eq!(sensor.accel_range(), AccelRange::G16);
    assert_eq!(sensor.read_gyro_range(), Ok(GyroRange::Dps500));
    assert_eq!(sensor.gyro_range(), GyroRange::Dps500);
    sensor.free().done();
}

#[test]
fn failed_range_write_keeps_the_cached_range() {
    let mut sensor = Icm20649::new(MockI2c::new(vec![
        w(&[REG_BANK_SEL, 0x20]),
        wr(&[ACCEL_CONFIG_1], &[0]),
        Expectation::Nack,
    ]));
    assert_eq!(sensor.set_accel_range(AccelRange::G4), Err(Error::I2c(Nack)));
    assert_eq!(sensor.accel_range(), AccelRange::G30);
    sensor.free().done();
}

#[test]
fn accel_dlpf_disable_only_clears_the_enable_bit() {
    let mut sensor = Icm20649::new(MockI2c::new(vec![
        w(&[REG_BANK_SEL, 0x20]),
        wr(&[ACCEL_CONFIG_1], &[0x3F]),
        w(&[ACCEL_CONFIG_1, 0x3E]),
        wr(&[ACCEL_CONFIG_1], &[0x3E]),
        w(&[ACCEL_CONFIG_1, 0x1F]),
    ]));
    assert_eq!(sensor.enable_accel_dlpf(false, AccelDlpf::Hz5_7), Ok(()));
    assert_eq!(sensor.enable_accel_dlpf(true, AccelDlpf::Hz50_4), Ok(()));
    sensor.free().done();
}

#[test]
fn user_ctrl_and_pin_config_bits() {
    let mut sensor = Icm20649::new(MockI2c::new(vec![
        wr(&[USER_CTRL], &[0x01]),
        w(&[USER_CTRL, 0x21]),
        wr(&[INT_PIN_CFG], &[0xFF]),
        w(&[INT_PIN_CFG, 0xFD]),
    ]));
    assert_eq!(sensor.enable_i2c_master(true), Ok(()));
    assert_eq!(sensor.set_i2c_bypass(false), Ok(()));
    sensor.free().done();
}

#[test]
fn raw_sample_decodes_big_endian_words() {
    let mut sensor = Icm20649::new(MockI2c::new(vec![wr(
        &[ACCEL_XOUT_H],
        &[0x04, 0x00, 0xFC, 0x00, 0x08, 0x00, 0x00, 0x52, 0xFF, 0x5C, 0x01, 0x48, 0x01, 0x4E],
    )]));
    let sample = sensor.read_raw_sample().unwrap();
    assert_eq!(
        sample,
        RawSample {
            accel_x: 1024,
            accel_y: -1024,
            accel_z: 2048,
            gyro_x: 82,
            gyro_y: -164,
            gyro_z: 328,
            temperature: 334,
        }
    );
    sensor.free().done();
}

#[test]
fn write_register_on_another_address() {
    let mut bus = MockI2c::new(vec![w(&[REG_BANK_SEL, 0x30]), w(&[0x05, 0x99])]);
    bus.address = 0x69;
    let mut sensor = Icm20649::new_with_address(bus, 0x69);
    assert_eq!(sensor.write_register(3, 0x05, 0x99), Ok(()));
    sensor.free().done();
}

#[test]
fn configuration_helpers() {
    assert_eq!(range_config(0xFF, 0), 0xF9);
    assert_eq!(range_config(0x00, 3), 0x06);
    assert_eq!(dlpf_config(0x00, true, 7), 0x39);
    assert_eq!(dlpf_config(0xFF, false, 7), 0xFE);
    assert_eq!(bits_config(0x10, 0x02, true), 0x12);
    assert_eq!(bits_config(0x12, 0x02, false), 0x10);
}

#[test]
fn byte_order_helpers() {
    assert_eq!(i16_from_be(0xFF, 0x5C), -164);
    assert_eq!(i16_from_be(0x7F, 0xFF), i16::MAX);
    assert_eq!(u16_from_be(0xAB, 0xCD), 0xABCD);
    let s = decode_raw_sample(&[0, 1, 0, 2, 0, 3, 0, 4, 0, 5, 0, 6, 0x80, 0]);
    assert_eq!(s.accel_x, 1);
    assert_eq!(s.gyro_z, 6);
    assert_eq!(s.temperature, i16::MIN);
}

#[test]
fn range_bits_round_trip() {
    for r in [AccelRange::G4, AccelRange::G8, AccelRange::G16, AccelRange::G30] {
        assert_eq!(AccelRange::from_bits(r.bits()), r);
    }
    for r in [GyroRange::Dps500, GyroRange::Dps1000, GyroRange::Dps2000, GyroRange::Dps4000] {
        assert_eq!(GyroRange::from_bits(r.bits()), r);
    }
    assert_eq!(AccelRange::from_bits(7), AccelRange::G30);
}
