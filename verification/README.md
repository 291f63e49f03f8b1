# teensy_firmware

Flight-controller firmware for the Teensy 4.1 (i.MX RT1062), with its logic
verified by Verus.

- `src/` is the verified library:
  - `can_types`, `can_registers`, `can_timing`, `can_frames`, `can_bus`,
    `can_controller`: the FlexCAN controller. The peripheral instance keeps a
    ghost trace of every register access made through it, and each
    operation's contract states over that trace the exact sequence of reads
    and writes it makes and the values it writes given the values it read.
  - `i2c_bus`, `icm_types`, `icm_driver`: the ICM-20649 IMU driver, with the
    exact I2C transfer script of each operation (over the bus's ghost record
    of its transfers) and where it stops on a bus error.
  - `sbus`: the SBUS (ET16S receiver) packet parser.
  - `usb_serial`: the poll decisions of the USB serial port (configuration,
    flushing, the 134-baud bootloader request) and the serial number digits.
- `app/` is the firmware around it: the FlexCAN, I2C and USB peripherals,
  floating-point sample scaling and filters, and the main loop.
- `tests/` runs the library against simulated peripherals.
