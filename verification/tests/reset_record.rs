use k20_bench::reset_record::{ResetRecord, DIAG_MAGIC, RESET_MAGIC};

fn garbage() -> ResetRecord {
    ResetRecord {
        magic: 0xDEAD_BEEF,
        resets: 0x1234,
        srs0: 0xFF,
        srs1: 0xFF,
        srs0_seen: 0xFFFF_FFFF,
        srs1_seen: 0xAAAA_AAAA,
    }
}

#[test]
fn first_boot_starts_record_clean() {
    let mut r = garbage();
    r.record_boot(RESET_MAGIC, 0x82, 0x00);
    assert_eq!(
        r,
        ResetRecord { magic: RESET_MAGIC, resets: 1, srs0: 0x82, srs1: 0, srs0_seen: 0x82, srs1_seen: 0 }
    );
}

#[test]
fn magic_words_spell_their_tags() {
    assert_eq!(RESET_MAGIC.to_be_bytes(), *b"RSTS");
    assert_eq!(DIAG_MAGIC.to_be_bytes(), *b"WDGD");
}

#[test]
fn later_boots_accumulate_sources_and_count() {
    let mut r = garbage();
    r.record_boot(RESET_MAGIC, 0x80, 0x00); // power-on
    r.record_boot(RESET_MAGIC, 0x20, 0x00); // watchdog
    r.record_boot(RESET_MAGIC, 0x40, 0x04); // pin, software
    assert_eq!(r.magic, RESET_MAGIC);
    assert_eq!(r.resets, 3);
    assert_eq!(r.srs0, 0x40);
    assert_eq!(r.srs1, 0x04);
    assert_eq!(r.srs0_seen, 0xE0);
    assert_eq!(r.srs1_seen, 0x04);
}

#[test]
fn seen_bit_set_only_for_sources_that_occurred() {
    let mut r = garbage();
    let boots: [(u8, u8); 4] = [(0x80, 0x00), (0x20, 0x00), (0x20, 0x08), (0x02, 0x00)];
    for (s0, s1) in boots {
        r.record_boot(DIAG_MAGIC, s0, s1);
    }
    for bit in 0..8u32 {
        let any0 = boots.iter().any(|b| (b.0 as u32 >> bit) & 1 == 1);
        let any1 = boots.iter().any(|b| (b.1 as u32 >> bit) & 1 == 1);
        assert_eq!((r.srs0_seen >> bit) & 1 == 1, any0, "srs0 bit {}", bit);
        assert_eq!((r.srs1_seen >> bit) & 1 == 1, any1, "srs1 bit {}", bit);
    }
    assert_eq!(r.resets, 4);
}

#[test]
fn started_record_keeps_earlier_tally() {
    let mut r = ResetRecord { magic: RESET_MAGIC, resets: 7, srs0: 0x20, srs1: 0, srs0_seen: 0x21, srs1_seen: 0x02 };
    r.record_boot(RESET_MAGIC, 0x40, 0x08);
    assert_eq!(
        r,
        ResetRecord { magic: RESET_MAGIC, resets: 8, srs0: 0x40, srs1: 0x08, srs0_seen: 0x61, srs1_seen: 0x0A }
    );
}

#[test]
fn record_of_other_firmware_is_restarted() {
    let mut r = ResetRecord { magic: DIAG_MAGIC, resets: 9, srs0: 0x20, srs1: 0, srs0_seen: 0x20, srs1_seen: 0x02 };
    r.record_boot(RESET_MAGIC, 0x40, 0x00);
    assert_eq!(r.magic, RESET_MAGIC);
    assert_eq!(r.resets, 1);
    assert_eq!(r.srs0_seen, 0x40);
    assert_eq!(r.srs1_seen, 0x00);
}

#[test]
fn reset_counter_wraps() {
    let mut r = ResetRecord { magic: RESET_MAGIC, resets: u32::MAX, srs0: 0, srs1: 0, srs0_seen: 0, srs1_seen: 0 };
    r.record_boot(RESET_MAGIC, 0x20, 0x00);
    assert_eq!(r.resets, 0);
    r.record_boot(RESET_MAGIC, 0x20, 0x00);
    assert_eq!(r.resets, 1);
}

#[test]
fn seen_bits_never_cleared_on_started_record() {
    let mut r = ResetRecord { magic: RESET_MAGIC, resets: 1, srs0: 0x80, srs1: 0x02, srs0_seen: 0x80, srs1_seen: 0x02 };
    r.record_boot(RESET_MAGIC, 0x00, 0x00);
    assert_eq!(r.srs0_seen, 0x80);
    assert_eq!(r.srs1_seen, 0x02);
    assert_eq!(r.srs0, 0);
    assert_eq!(r.srs1, 0);
}
