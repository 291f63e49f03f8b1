//! Verified core of a Teensy 4.x flight-controller firmware: the FlexCAN
//! controller logic, the ICM-20649 IMU driver logic, the SBUS (ET16S) receiver
//! parser and the USB serial housekeeping decisions.

pub mod can_types;
pub mod can_registers;
pub mod can_bus;
pub mod can_timing;
pub mod can_frames;
pub mod can_controller;
pub mod i2c_bus;
pub mod icm_types;
pub mod icm_driver;
pub mod sbus;
pub mod usb_serial;
