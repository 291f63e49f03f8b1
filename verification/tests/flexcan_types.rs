use teensy_firmware::can_frames::{
    decode_frame, filter_mask_for_ids, filter_mask_for_range, first_mailbox_of, mailbox_count_of,
    mailbox_state_of, tx_cs, tx_id_word, window_end_of,
};
use teensy_firmware::can_registers::{
    mailbox_offset, mb_code, mb_code_value, mb_id_ext, mb_id_std, mb_is_tx, pack_word,
    rx_empty_cs, unpack_word, MB_CODE_RX_EMPTY, MB_CODE_TX_INACTIVE, MB_CS_IDE, MB_CS_SRR,
};
use teensy_firmware::can_timing::{baud_timing, timing_ctrl1};
use teensy_firmware::can_types::{CanMessage, Clock, Mailbox, MailboxState, MessageFlags};

#[test]
fn can_message_default_matches_expected_defaults() {
    let message = CanMessage::default();

    assert_eq!(message.id, 0);
    assert_eq!(message.timestamp, 0);
    assert_eq!(message.idhit, 0);
    assert!(!message.flags.extended);
    assert!(!message.flags.remote);
    assert!(!message.flags.overrun);
    assert_eq!(message.len, 8);
    assert_eq!(message.buf, [0; 8]);
    assert_eq!(message.mb, -1);
    assert_eq!(message.bus, 0);
    assert!(!message.seq);
}

#[test]
fn clock_frequencies_match_documented_values() {
    assert_eq!(Clock::Off.hz(), 0);
    assert_eq!(Clock::Mhz8.hz(), 8_000_000);
    assert_eq!(Clock::Mhz16.hz(), 16_000_000);
    assert_eq!(Clock::Mhz20.hz(), 20_000_000);
    assert_eq!(Clock::Mhz24.hz(), 24_000_000);
    assert_eq!(Clock::Mhz30.hz(), 30_000_000);
    assert_eq!(Clock::Mhz40.hz(), 40_000_000);
    assert_eq!(Clock::Mhz60.hz(), 60_000_000);
    assert_eq!(Clock::Mhz80.hz(), 80_000_000);
}

#[test]
fn clock_cscmr2_encoding_matches_expected_register_values() {
    assert_eq!(Clock::Off.cscmr2(), (3, 0));
    assert_eq!(Clock::Mhz24.cscmr2(), (1, 0));
    assert_eq!(Clock::Mhz60.cscmr2(), (0, 0));
    assert_eq!(Clock::Mhz80.cscmr2(), (2, 0));
}

#[test]
fn mailbox_new_accepts_hardware_range_only() {
    assert_eq!(Mailbox::new(0), Some(Mailbox(0)));
    assert_eq!(Mailbox::new(63), Some(Mailbox(63)));
    assert_eq!(Mailbox::new(64), None);
    assert_eq!(Mailbox::FIFO().index(), 99);
}

#[test]
fn mailbox_code_helpers_round_trip_and_classify_tx() {
    let rx_empty = mb_code(MB_CODE_RX_EMPTY);
    let tx_inactive = mb_code(MB_CODE_TX_INACTIVE);

    assert_eq!(mb_code_value(rx_empty), MB_CODE_RX_EMPTY);
    assert_eq!(mb_code_value(tx_inactive), MB_CODE_TX_INACTIVE);
    assert!(!mb_is_tx(rx_empty));
    assert!(mb_is_tx(tx_inactive));
}

#[test]
fn rx_empty_cs_sets_extended_bits_only_for_extended_mailboxes() {
    assert_eq!(rx_empty_cs(false), mb_code(MB_CODE_RX_EMPTY));
    assert_eq!(
        rx_empty_cs(true),
        mb_code(MB_CODE_RX_EMPTY) | MB_CS_IDE | MB_CS_SRR
    );
}

#[test]
fn id_helpers_mask_and_shift_as_expected() {
    assert_eq!(mb_id_std(0x7FF), 0x7FF << 18);
    assert_eq!(mb_id_std(0xFFFF_FFFF), 0x7FF << 18);
    assert_eq!(mb_id_ext(0x1FFF_FFFF), 0x1FFF_FFFF);
    assert_eq!(mb_id_ext(0xFFFF_FFFF), 0x1FFF_FFFF);
}

#[test]
fn pack_and_unpack_word_preserve_byte_order() {
    let bytes = [0x12, 0x34, 0x56, 0x78];
    let word = pack_word(&bytes);
    let mut out = [0u8; 4];

    assert_eq!(word, 0x1234_5678);

    unpack_word(word, &mut out);
    assert_eq!(out, bytes);
}

#[test]
fn unpack_then_pack_gives_the_word_back() {
    let mut out = [0u8; 4];
    unpack_word(0xDEAD_BEEF, &mut out);
    assert_eq!(out, [0xDE, 0xAD, 0xBE, 0xEF]);
    assert_eq!(pack_word(&out), 0xDEAD_BEEF);
}

#[test]
fn mailbox_offsets_step_by_sixteen_bytes() {
    assert_eq!(mailbox_offset(0), 0x80);
    assert_eq!(mailbox_offset(1), 0x90);
    assert_eq!(mailbox_offset(63), 0x80 + 63 * 16);
}

#[test]
fn mailbox_new_and_index_round_trip() {
    for i in 0..64u8 {
        assert_eq!(Mailbox::new(i).map(|m| m.index()), Some(i));
    }
    assert_eq!(Mailbox::new(255), None);
}

#[test]
fn baud_timing_finds_exact_divisors_at_24_mhz() {
    assert_eq!(baud_timing(Clock::Mhz24, 1_000_000), Some((1, 12)));
    assert_eq!(baud_timing(Clock::Mhz24, 500_000), Some((3, 12)));
}

#[test]
fn baud_timing_rejects_rates_above_the_clock() {
    assert_eq!(baud_timing(Clock::Mhz24, 30_000_000), None);
}

#[test]
fn baud_timing_keeps_the_divisor_within_presdiv() {
    // 1 kbit/s at 24 MHz needs a divisor of about 2000: PRESDIV has 8 bits.
    assert_eq!(baud_timing(Clock::Mhz24, 1_000), None);
    // 10 kbit/s at 24 MHz: 2400 = 12 quanta * 200, the last exact preferred split.
    assert_eq!(baud_timing(Clock::Mhz24, 10_000), Some((199, 12)));
    assert_eq!(timing_ctrl1(199, 12) >> 24, 199);
}

#[test]
fn timing_ctrl1_packs_segments_divisor_and_error_mask() {
    // 12 quanta: propseg 2, pseg1 4, pseg2 2; RJW 1; ERRMSK; divisor 1.
    assert_eq!(timing_ctrl1(1, 12), 0x0162_4002);
    // 5 quanta: all segments zero but pseg2 = 1.
    assert_eq!(timing_ctrl1(0, 5), 0x0041_4000);
}

#[test]
fn decode_frame_reads_standard_frame() {
    let cs = (0x2 << 24) | (4 << 16) | 0x1234;
    let m = decode_frame(cs, 0x123 << 18, 0xDEAD_BEEF, 0x0102_0304, 5, 2);
    assert_eq!(m.id, 0x123);
    assert_eq!(m.timestamp, 0x1234);
    assert_eq!(m.idhit, 0);
    assert!(!m.flags.extended);
    assert!(!m.flags.remote);
    assert!(!m.flags.overrun);
    assert_eq!(m.len, 4);
    assert_eq!(m.buf, [0xDE, 0xAD, 0xBE, 0xEF, 1, 2, 3, 4]);
    assert_eq!(m.mb, 5);
    assert_eq!(m.bus, 2);
    assert!(!m.seq);
}

#[test]
fn decode_frame_reads_extended_remote_overrun_frame() {
    let cs = (0x6 << 24) | MB_CS_IDE | MB_CS_SRR | 0x0010_0000 | (8 << 16);
    let m = decode_frame(cs, 0xFFFF_FFFF, 0, 0, 40, 1);
    assert_eq!(m.id, 0x1FFF_FFFF);
    assert!(m.flags.extended);
    assert!(m.flags.remote);
    assert!(m.flags.overrun);
    assert_eq!(m.len, 8);
    assert_eq!(m.mb, 40);
}

#[test]
fn transmit_words_encode_identifier_and_control() {
    let mut m = CanMessage::default();
    m.id = 0x321;
    m.len = 3;
    assert_eq!(tx_id_word(&m), 0x321 << 18);
    assert_eq!(tx_cs(&m), (0xC << 24) | (3 << 16));

    m.flags = MessageFlags { extended: true, remote: true, overrun: false };
    m.id = 0x1ABC_DEF0;
    assert_eq!(tx_id_word(&m), 0x1ABC_DEF0);
    assert_eq!(tx_cs(&m), (0xC << 24) | (3 << 16) | 0x0010_0000 | MB_CS_IDE | MB_CS_SRR);
}

#[test]
fn mailbox_state_of_classifies_every_code() {
    assert_eq!(mailbox_state_of(0), MailboxState::RxInactive);
    assert_eq!(mailbox_state_of(rx_empty_cs(true)), MailboxState::RxEmpty { extended: true });
    assert_eq!(mailbox_state_of(mb_code(0x2)), MailboxState::RxFull { extended: false });
    assert_eq!(mailbox_state_of(mb_code(0x6) | MB_CS_IDE), MailboxState::RxOverrun { extended: true });
    assert_eq!(mailbox_state_of(mb_code(0x8)), MailboxState::TxInactive);
    assert_eq!(mailbox_state_of(mb_code(0x9)), MailboxState::TxAbort);
    assert_eq!(mailbox_state_of(mb_code(0xC)), MailboxState::TxBusy { extended: false });
    assert_eq!(mailbox_state_of(mb_code(0x1)), MailboxState::Unknown(0x1));
}

#[test]
fn filter_mask_for_ids_keeps_bits_all_ids_share() {
    assert_eq!(filter_mask_for_ids(&[0x100, 0x101], false, None), 0x7FE << 18);
    assert_eq!(filter_mask_for_ids(&[0x100], false, None), 0x7FF << 18);
    assert_eq!(filter_mask_for_ids(&[0x100, 0x101], false, Some(0x700)), 0x700 << 18);
    assert_eq!(filter_mask_for_ids(&[0x1000_0000, 0x1000_0003], true, None), 0x1FFF_FFFC);
}

#[test]
fn filter_mask_for_range_keeps_bits_the_ends_share() {
    assert_eq!(filter_mask_for_range(0x1000, 0x10FF, true), 0x1FFF_FF00);
    assert_eq!(filter_mask_for_range(0x100, 0x10F, false), 0x7F0 << 18);
    // 0..=5 differ in bit 2 at most: only bits 3 and up are compared.
    assert_eq!(filter_mask_for_range(0, 5, false), 0x7F8 << 18);
    assert_eq!(filter_mask_for_range(0x0FF, 0x100, true), 0x1FFF_FE00);
}

#[test]
fn mcr_mailbox_window_helpers() {
    assert_eq!(mailbox_count_of(0x0000_000F), 16);
    assert_eq!(mailbox_count_of(0x0000_007F), 128);
    assert_eq!(window_end_of(0x0000_007F), 64);
    assert_eq!(window_end_of(0x0000_000F), 16);
    assert_eq!(first_mailbox_of(0x0000_000F, 0), 0);
    // FIFO on, RFFN = 0: six FIFO buffers and two filter words.
    assert_eq!(first_mailbox_of(0x2000_000F, 0), 8);
    // FIFO on, RFFN = 15: the whole window is reserved.
    assert_eq!(first_mailbox_of(0x2000_000F, 0x0F00_0000), 16);
}

#[test]
fn baud_timing_results_come_within_300_bits_per_second() {
    for clock in [Clock::Mhz8, Clock::Mhz24, Clock::Mhz60, Clock::Mhz80] {
        for baud in [50_000u32, 83_333, 100_000, 125_000, 250_000, 500_000, 800_000, 1_000_000] {
            if let Some((d, q)) = baud_timing(clock, baud) {
                assert!((5..=25).contains(&q));
                assert_eq!(q, clock.hz() / baud / (d + 1));
                let actual = clock.hz() / (q * (d + 1));
                assert!(actual.abs_diff(baud) <= 300, "{:?} {} -> {} {}", clock, baud, d, q);
            }
        }
    }
    assert!(baud_timing(Clock::Mhz24, 250_000).is_some());
}

#[test]
fn full_user_mask_gives_the_plain_filter() {
    for ids in [&[0x100u32, 0x101][..], &[0x800], &[0x7FF, 0xFFFF_FFFF, 3], &[0x1234_5678, 0x1234_5600]] {
        for extended in [false, true] {
            assert_eq!(
                filter_mask_for_ids(ids, extended, Some(u32::MAX)),
                filter_mask_for_ids(ids, extended, None)
            );
        }
    }
}
