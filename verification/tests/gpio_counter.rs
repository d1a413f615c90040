use k20_bench::counter::next_count;
use k20_bench::gpio::{pin_mask, with_output, LED_PIN};

#[test]
fn led_mask_is_bit_five() {
    assert_eq!(LED_PIN, 5);
    assert_eq!(pin_mask(LED_PIN), 1 << 5);
    assert_eq!(pin_mask(LED_PIN), 0x20);
    assert_eq!(pin_mask(0), 1);
    assert_eq!(pin_mask(31), 0x8000_0000);
}

#[test]
fn output_direction_keeps_other_pins() {
    assert_eq!(with_output(0, LED_PIN), 0x20);
    assert_eq!(with_output(0x0000_0103, LED_PIN), 0x0000_0123);
    assert_eq!(with_output(0x20, LED_PIN), 0x20);
    assert_eq!(with_output(0xFFFF_FFDF, LED_PIN), 0xFFFF_FFFF);
}

#[test]
fn counter_advances_and_wraps() {
    assert_eq!(next_count(0), 1);
    assert_eq!(next_count(41), 42);
    assert_eq!(next_count(u32::MAX), 0);
    assert_ne!(next_count(u32::MAX), u32::MAX);
}
