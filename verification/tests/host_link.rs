use deej_oled::deej_usb::{
    decimal_len, on_host_state, write_adc_values, HostState, LINE_CAPACITY, SEPARATOR,
};
use deej_oled::graphics::ScreenState;
use deej_oled::shared::SharedState;

#[test]
fn line_is_decimal_values_joined_by_bars() {
    assert_eq!(write_adc_values(&[512, 300, 1023, 0, 128]).as_str(), "512|300|1023|0|128");
}

#[test]
fn line_of_one_value_has_no_bar() {
    assert_eq!(write_adc_values(&[7]).as_str(), "7");
    assert_eq!(write_adc_values(&[0]).as_str(), "0");
}

#[test]
fn line_of_no_value_is_empty() {
    assert_eq!(write_adc_values(&[]).as_str(), "");
}

#[test]
fn line_takes_eight_values_of_any_size() {
    let line = write_adc_values(&[u32::MAX; 8]);
    assert_eq!(line.len(), 87);
    assert_eq!(
        line.as_str(),
        "4294967295|4294967295|4294967295|4294967295|4294967295|4294967295|4294967295|4294967295"
    );
    assert_eq!(write_adc_values(&[10, 9, 100, 99, 1000, 999, 4294967295, 0]).as_str(),
        "10|9|100|99|1000|999|4294967295|0");
}

#[test]
fn line_leaves_out_what_does_not_fit() {
    assert_eq!(LINE_CAPACITY, 96);
    assert_eq!(SEPARATOR, b'|');
    // Eight long values take 87 bytes. The ninth bar fits, the ninth long
    // value does not; a short value behind the tenth bar fits again.
    let mut values = vec![u32::MAX; 9];
    values.push(1234567);
    let line = write_adc_values(&values);
    let mut want = vec!["4294967295"; 8].join("|");
    want.push_str("||1234567");
    assert_eq!(line.as_str(), want);
    assert_eq!(line.len(), 96);
    values.push(5);
    assert_eq!(write_adc_values(&values).as_str(), want);
}

#[test]
fn host_waking_up_forces_a_publish_and_restarts_the_screen() {
    let mut shared = SharedState::new(5).unwrap();
    shared.set_value(3, 77);
    shared.set_active_channel(Some(3));
    shared.set_screen_state(ScreenState::STANDBY);
    on_host_state(&mut shared, HostState::Active);
    assert!(shared.force_push());
    assert_eq!(shared.screen_state(), ScreenState::INTRO);
    assert_eq!(shared.values(), &[0, 0, 0, 77, 0]);
    assert_eq!(shared.active_channel(), Some(3));
}

#[test]
fn host_going_to_sleep_changes_nothing() {
    let mut shared = SharedState::new(5).unwrap();
    shared.set_screen_state(ScreenState::ACTIVE);
    on_host_state(&mut shared, HostState::Suspended);
    assert!(!shared.force_push());
    assert_eq!(shared.screen_state(), ScreenState::ACTIVE);
}

#[test]
fn decimal_len_counts_digits() {
    assert_eq!(decimal_len(0), 1);
    assert_eq!(decimal_len(9), 1);
    assert_eq!(decimal_len(10), 2);
    assert_eq!(decimal_len(99), 2);
    assert_eq!(decimal_len(100), 3);
    assert_eq!(decimal_len(1023), 4);
    assert_eq!(decimal_len(999_999_999), 9);
    assert_eq!(decimal_len(1_000_000_000), 10);
    assert_eq!(decimal_len(u32::MAX), 10);
}
