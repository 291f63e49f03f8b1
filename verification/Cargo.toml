[package]
name = "teensy_firmware"
version = "0.1.0"
edition = "2021"
publish = false

[dependencies]
embedded-hal = "=1.0.0"
libm = "=0.2.16"
log = "=0.4.35"
usb-device = "=0.2.9"
usbd-serial = "=0.1.1"
imxrt-ral = { version = "=0.5.4", features = ["imxrt1062"] }
imxrt-iomuxc = { version = "=0.2.12", features = ["imxrt1060"] }
imxrt-log = { version = "=0.1.2", default-features = false, features = ["log", "usbd"] }
teensy4-bsp = "=0.5.2"
teensy4-panic = { version = "=0.2.3", default-features = false }
