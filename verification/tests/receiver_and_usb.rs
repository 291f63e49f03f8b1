use teensy_firmware::sbus::{parse_sbus_packet, Et16sFrame, SbusParser, PACKET_LEN, START_BYTE};
use teensy_firmware::usb_serial::{
    serial_number_digits, PollActions, UsbTeensy4, TEENSY_REBOOT_BAUD, TEENSY_REBOOT_POLLS,
};

/// Packs sixteen 11-bit channels little-endian behind the start byte.
fn packet(channels: [u16; 16], flags: u8, end: u8) -> [u8; 25] {
    let mut p = [0u8; 25];
    p[0] = START_BYTE;
    let mut bits: u32 = 0;
    let mut nbits = 0;
    let mut at = 1;
    for c in channels {
        bits |= u32::from(c & 0x7FF) << nbits;
        nbits += 11;
        while nbits >= 8 {
            p[at] = bits as u8;
            at += 1;
            bits >>= 8;
            nbits -= 8;
        }
    }
    assert_eq!(at, 23);
    p[23] = flags;
    p[24] = end;
    p
}

fn sample_channels() -> [u16; 16] {
    [172, 992, 1811, 0, 2047, 1, 1024, 353, 1695, 600, 700, 800, 900, 1000, 1100, 1200]
}

fn feed(parser: &mut SbusParser, bytes: &[u8]) -> Vec<Et16sFrame> {
    bytes.iter().filter_map(|b| parser.push(*b)).collect()
}

#[test]
fn parse_sbus_packet_unpacks_eleven_bit_channels() {
    let channels = sample_channels();
    let frame = parse_sbus_packet(&packet(channels, 0x03, 0));
    assert_eq!(frame.channels, channels);
    assert_eq!(frame.flags, 0x03);
    assert!(!frame.disconnected());
}

#[test]
fn parse_sbus_packet_of_all_ones_saturates_every_channel() {
    let mut p = [0xFFu8; 25];
    p[0] = START_BYTE;
    p[23] = 0;
    let frame = parse_sbus_packet(&p);
    assert_eq!(frame.channels, [0x7FF; 16]);
}

#[test]
fn frame_lost_and_failsafe_flags_mean_disconnected() {
    let channels = sample_channels();
    assert!(parse_sbus_packet(&packet(channels, 0x04, 0)).disconnected());
    assert!(parse_sbus_packet(&packet(channels, 0x08, 0)).disconnected());
    assert!(!parse_sbus_packet(&packet(channels, 0xF3, 0)).disconnected());
}

#[test]
fn parser_emits_one_frame_per_packet() {
    let channels = sample_channels();
    let p = packet(channels, 0, 0);
    let mut parser = SbusParser::new();
    for (i, b) in p.iter().enumerate() {
        let out = parser.push(*b);
        if i + 1 < PACKET_LEN {
            assert!(out.is_none());
        } else {
            assert_eq!(out.expect("complete packet").channels, channels);
        }
    }
    // The parser is idle again: a second packet decodes as well.
    assert_eq!(feed(&mut parser, &p).len(), 1);
}

#[test]
fn parser_skips_bytes_before_the_start_byte() {
    let p = packet(sample_channels(), 0, 0);
    let mut parser = SbusParser::new();
    let mut stream = vec![0x00, 0x42, 0xFF];
    stream.extend_from_slice(&p);
    let frames = feed(&mut parser, &stream);
    assert_eq!(frames.len(), 1);
    assert_eq!(frames[0].channels, sample_channels());
}

#[test]
fn parser_drops_packets_without_end_byte() {
    let bad = packet(sample_channels(), 0, 0x04);
    let good = packet(sample_channels(), 0x0C, 0);
    let mut parser = SbusParser::new();
    assert!(feed(&mut parser, &bad).is_empty());
    let frames = feed(&mut parser, &good);
    assert_eq!(frames.len(), 1);
    assert!(frames[0].disconnected());
}

#[test]
fn usb_poll_configures_once_and_flushes_while_configured() {
    let mut port = UsbTeensy4::new();
    assert!(!port.is_configured());
    let idle = port.on_poll(false, 0);
    assert_eq!(idle, PollActions { configure_bus: false, flush: false, reboot: false });
    let first = port.on_poll(true, 115_200);
    assert_eq!(first, PollActions { configure_bus: true, flush: true, reboot: false });
    assert!(port.is_configured());
    let second = port.on_poll(true, 115_200);
    assert_eq!(second, PollActions { configure_bus: false, flush: true, reboot: false });
    port.on_poll(false, 115_200);
    assert!(!port.is_configured());
    assert!(port.on_poll(true, 115_200).configure_bus);
}

#[test]
fn usb_reboot_request_reboots_on_the_eightieth_poll() {
    let mut port = UsbTeensy4::new();
    port.on_poll(true, 9_600);
    for _ in 1..TEENSY_REBOOT_POLLS {
        assert!(!port.on_poll(true, TEENSY_REBOOT_BAUD).reboot);
    }
    assert!(port.on_poll(true, TEENSY_REBOOT_BAUD).reboot);
    for _ in 0..200 {
        assert!(!port.on_poll(true, TEENSY_REBOOT_BAUD).reboot);
    }
}

#[test]
fn usb_reboot_countdown_restarts_on_a_new_request() {
    let mut port = UsbTeensy4::new();
    for _ in 0..40 {
        assert!(!port.on_poll(true, TEENSY_REBOOT_BAUD).reboot);
    }
    assert!(!port.on_poll(true, 9_600).reboot);
    for _ in 1..80 {
        assert!(!port.on_poll(true, TEENSY_REBOOT_BAUD).reboot);
    }
    assert!(port.on_poll(true, TEENSY_REBOOT_BAUD).reboot);
}

fn serial(mac0: u32) -> Vec<u8> {
    let (digits, len) = serial_number_digits(mac0);
    assert!((1..=10).contains(&len));
    assert!(digits[len..].iter().all(|&b| b == 0));
    digits[..len].to_vec()
}

#[test]
fn serial_number_follows_the_teensy_convention() {
    assert_eq!(serial(0x0012_3456), b"11930460".to_vec());
    assert_eq!(serial(0xFFFF_FFFF), b"16777215".to_vec());
    assert_eq!(serial(0xAA98_9680), b"10000000".to_vec());
    assert_eq!(serial(0x0098_967F), b"99999990".to_vec());
    assert_eq!(serial(0), b"0".to_vec());
    assert_eq!(serial(7), b"70".to_vec());
}

#[test]
fn usb_reboot_countdown_ignores_configuration_changes() {
    let mut port = UsbTeensy4::new();
    port.on_poll(true, 9_600);
    for i in 1..TEENSY_REBOOT_POLLS {
        assert!(!port.on_poll(i % 3 == 0, TEENSY_REBOOT_BAUD).reboot);
    }
    assert!(port.on_poll(false, TEENSY_REBOOT_BAUD).reboot);
}

#[test]
fn parser_only_emits_packets_that_began_with_the_start_byte() {
    let mut parser = SbusParser::new();
    // 24 filler bytes and a zero: no start byte, so nothing is buffered or emitted.
    let mut stream = vec![0x55u8; 24];
    stream.push(0);
    assert!(feed(&mut parser, &stream).is_empty());
    // A start byte inside a packet is payload, not a new packet.
    let p = packet(sample_channels(), 0, 0);
    let mut shifted = vec![START_BYTE];
    shifted.extend_from_slice(&p[1..]);
    let frames = feed(&mut parser, &shifted);
    assert_eq!(frames.len(), 1);
}
