use gmod_buttplug::device::{linear_duration_ms, DeviceHandle};

#[test]
fn tostring_form() {
    let d = DeviceHandle::new(3, "Lovense Hush");
    assert_eq!(d.index, 3);
    assert_eq!(d.name, "Lovense Hush");
    assert_eq!(d.describe(), "buttplug.Device[3: Lovense Hush]");
}

#[test]
fn tostring_multi_digit_and_zero_index() {
    assert_eq!(DeviceHandle::new(0, "").describe(), "buttplug.Device[0: ]");
    assert_eq!(DeviceHandle::new(1204, "Pad").describe(), "buttplug.Device[1204: Pad]");
    assert_eq!(
        DeviceHandle::new(u32::MAX, "x").describe(),
        "buttplug.Device[4294967295: x]"
    );
}

#[test]
fn linear_duration_clamps_negative_to_zero() {
    assert_eq!(linear_duration_ms(-5), 0);
    assert_eq!(linear_duration_ms(0), 0);
    assert_eq!(linear_duration_ms(isize::MIN), 0);
}

#[test]
fn linear_duration_passes_small_values() {
    assert_eq!(linear_duration_ms(500), 500);
    assert_eq!(linear_duration_ms(4_294_967_295), u32::MAX);
}

#[test]
fn linear_duration_keeps_low_32_bits() {
    if isize::BITS == 64 {
        assert_eq!(linear_duration_ms(4_294_967_296i64 as isize), 0);
        assert_eq!(linear_duration_ms(4_294_967_306i64 as isize), 10);
    }
}
