use deej_oled::adc::{
    adc_channels, get_active_channel, normalize_value, read_adc_value, set_active_channel,
    AdcChanCfg, AdcConfig, AdcEngine, AdcTarget, ACTIVE_CHANNEL_TTL, ADC_TICK_MS, NOISE_THRESHOLD,
};
use deej_oled::graphics::ScreenState;
use deej_oled::shared::{
    decode_active_channel, encode_active_channel, SharedState, MAX_CHANNELS, NO_CHANNEL, VALUE_MAX,
};

fn cfg(invert: bool, min: u16, max: u16) -> AdcChanCfg {
    AdcChanCfg { invert, min, max, chan: 0, target: AdcTarget::System }
}

fn plain_config(channels: usize) -> AdcConfig {
    AdcConfig {
        channels: (0..channels).map(|i| AdcChanCfg { chan: i as u8, ..cfg(false, 0, 1023) }).collect(),
        noise_threshold: NOISE_THRESHOLD,
        active_ttl_ms: ACTIVE_CHANNEL_TTL as u64,
    }
}

#[test]
fn constants_are_the_tuned_values() {
    assert_eq!(NOISE_THRESHOLD, 15);
    assert_eq!(ACTIVE_CHANNEL_TTL, 1000);
    assert_eq!(ADC_TICK_MS, 200);
    assert_eq!(MAX_CHANNELS, 8);
    assert_eq!(VALUE_MAX, 1023);
    assert_eq!(NO_CHANNEL, -1);
}

#[test]
fn device_table_has_five_inverted_channels() {
    let table = adc_channels();
    let targets = [
        AdcTarget::System,
        AdcTarget::Mic,
        AdcTarget::Browser,
        AdcTarget::Steam,
        AdcTarget::Discord,
    ];
    for i in 0..5 {
        assert!(table[i].invert);
        assert_eq!(table[i].min, 0);
        assert_eq!(table[i].max, 1023);
        assert_eq!(table[i].chan as usize, i);
        assert_eq!(table[i].target, targets[i]);
    }
    let device = AdcConfig::device();
    assert_eq!(device.channels.len(), 5);
    assert_eq!(device.noise_threshold, 15);
    assert_eq!(device.active_ttl_ms, 1000);
    for i in 0..5 {
        assert_eq!(device.channels[i].target, targets[i]);
        assert_eq!(device.channels[i].chan as usize, i);
        assert!(device.channels[i].invert);
    }
}

#[test]
fn normalize_maps_the_ends_to_the_extremes() {
    assert_eq!(normalize_value(0, cfg(false, 0, 1023)), 0);
    assert_eq!(normalize_value(1023, cfg(false, 0, 1023)), 1023);
    assert_eq!(normalize_value(100, cfg(false, 100, 900)), 0);
    assert_eq!(normalize_value(900, cfg(false, 100, 900)), 1023);
    assert_eq!(normalize_value(100, cfg(true, 100, 900)), 1023);
    assert_eq!(normalize_value(900, cfg(true, 100, 900)), 0);
}

#[test]
fn normalize_inverted_full_range() {
    assert_eq!(normalize_value(1023, cfg(true, 0, 1023)), 0);
    assert_eq!(normalize_value(0, cfg(true, 0, 1023)), 1023);
    assert_eq!(normalize_value(1000, cfg(true, 0, 1023)), 23);
}

#[test]
fn normalize_rounds_half_up() {
    // (400 * 1023 + 400) / 800 = 512
    assert_eq!(normalize_value(500, cfg(false, 100, 900)), 512);
    // span 2: the middle is 511.5 and rounds up to 512.
    assert_eq!(normalize_value(11, cfg(false, 10, 12)), 512);
    // span 3: 1 * 1023 / 3 = 341, 2 * 1023 / 3 = 682.
    assert_eq!(normalize_value(1, cfg(false, 0, 3)), 341);
    assert_eq!(normalize_value(2, cfg(false, 0, 3)), 682);
    // span 4: 255.75 rounds to 256.
    assert_eq!(normalize_value(1, cfg(false, 0, 4)), 256);
    assert_eq!(normalize_value(3, cfg(false, 0, 4)), 767);
}

#[test]
fn normalize_clamps_to_the_range() {
    assert_eq!(normalize_value(5, cfg(false, 100, 900)), 0);
    assert_eq!(normalize_value(65535, cfg(false, 100, 900)), 1023);
    assert_eq!(normalize_value(65535, cfg(true, 100, 900)), 0);
    assert_eq!(normalize_value(0, cfg(true, 100, 900)), 1023);
}

#[test]
fn normalize_of_a_range_without_extent_is_zero() {
    assert_eq!(normalize_value(500, cfg(false, 500, 500)), 0);
    assert_eq!(normalize_value(0, cfg(true, 0, 0)), 0);
    assert_eq!(normalize_value(700, cfg(false, 900, 100)), 0);
    assert_eq!(normalize_value(700, cfg(true, 900, 100)), 0);
}

#[test]
fn normalize_is_monotonic_and_in_range() {
    for &(invert, min, max) in
        &[(false, 0u16, 1023u16), (true, 0, 1023), (false, 37, 911), (true, 37, 911), (true, 40000, 60000)]
    {
        let c = cfg(invert, min, max);
        let mut prev = normalize_value(0, c);
        for raw in (0..=65535u32).step_by(7) {
            let v = normalize_value(raw as u16, c);
            assert!(v <= 1023);
            if invert {
                assert!(v <= prev);
            } else {
                assert!(v >= prev);
            }
            prev = v;
        }
    }
}

#[test]
fn inverted_range_beyond_sixteen_bits_saturates() {
    // min + max does not fit sixteen bits: the mirror is taken at 65535.
    let c = cfg(true, 40000, 60000);
    assert_eq!(normalize_value(40000, c), 0);
    assert_eq!(normalize_value(5535, c), 1023);
    assert_eq!(normalize_value(15535, c), 512);
}

#[test]
fn shared_state_starts_empty() {
    let s = SharedState::new(5).unwrap();
    assert_eq!(s.channel_count(), 5);
    assert_eq!(s.values(), &[0, 0, 0, 0, 0]);
    assert_eq!(s.active_channel(), None);
    assert!(!s.force_push());
    assert!(!s.active_input());
    assert_eq!(s.screen_state(), ScreenState::OFF);
    assert!(SharedState::new(8).is_some());
    assert!(SharedState::new(9).is_none());
    assert_eq!(SharedState::new(0).unwrap().values().len(), 0);
}

#[test]
fn shared_state_fields_stand_alone() {
    let mut s = SharedState::new(3).unwrap();
    s.set_value(1, 700);
    s.set_force_push(true);
    s.set_active_input(true);
    s.set_screen_state(ScreenState::OUTRO);
    s.set_active_channel(Some(2));
    assert_eq!(s.values(), &[0, 700, 0]);
    assert_eq!(s.value(1), 700);
    assert_eq!(s.value(3), 0);
    assert!(s.force_push());
    assert!(s.active_input());
    assert_eq!(s.screen_state(), ScreenState::OUTRO);
    assert_eq!(s.active_channel(), Some(2));
}

#[test]
fn read_adc_value_of_no_channel_is_zero() {
    let mut s = SharedState::new(5).unwrap();
    s.set_value(4, 1023);
    assert_eq!(read_adc_value(&s, 4), 1023);
    assert_eq!(read_adc_value(&s, 5), 0);
    assert_eq!(read_adc_value(&s, 7), 0);
    assert_eq!(read_adc_value(&s, 8), 0);
    assert_eq!(read_adc_value(&s, usize::MAX), 0);
}

#[test]
fn active_channel_is_a_channel_or_none() {
    let mut s = SharedState::new(5).unwrap();
    assert_eq!(get_active_channel(&s), None);
    set_active_channel(&mut s, Some(4));
    assert_eq!(get_active_channel(&s), Some(4));
    set_active_channel(&mut s, Some(5));
    assert_eq!(get_active_channel(&s), None);
    set_active_channel(&mut s, Some(0));
    assert_eq!(get_active_channel(&s), Some(0));
    set_active_channel(&mut s, None);
    assert_eq!(get_active_channel(&s), None);
}

#[test]
fn active_channel_byte_encoding() {
    assert_eq!(encode_active_channel(Some(3), 5), 3);
    assert_eq!(encode_active_channel(Some(5), 5), -1);
    assert_eq!(encode_active_channel(None, 5), -1);
    assert_eq!(encode_active_channel(Some(127), 200), 127);
    assert_eq!(encode_active_channel(Some(128), 200), -1);
    assert_eq!(decode_active_channel(-1), None);
    assert_eq!(decode_active_channel(-128), None);
    assert_eq!(decode_active_channel(0), Some(0));
    assert_eq!(decode_active_channel(4), Some(4));
}

#[test]
fn inverted_reading_is_published_and_turns_the_channel_active() {
    let config = AdcConfig::device();
    let mut shared = SharedState::new(5).unwrap();
    let mut engine = AdcEngine::start(&mut shared, 5_000);
    assert_eq!(engine.active_deadline, 5_000);

    // Raw 1023 on channel 2 normalizes to 0: nothing changes.
    let first = [None, None, Some(1023), None, None];
    assert!(!engine.tick(&mut shared, &config, &first, 5_000));
    assert_eq!(shared.values(), &[0, 0, 0, 0, 0]);
    assert_eq!(get_active_channel(&shared), None);

    // Raw 0 normalizes to 1023: a change of 1023, published, channel 2 active.
    let second = [None, None, Some(0), None, None];
    assert!(engine.tick(&mut shared, &config, &second, 5_200));
    assert_eq!(shared.values(), &[0, 0, 1023, 0, 0]);
    assert_eq!(read_adc_value(&shared, 2), 1023);
    assert_eq!(get_active_channel(&shared), Some(2));
    assert_eq!(engine.active_deadline, 6_200);
}

#[test]
fn noise_never_changes_the_published_values() {
    let config = plain_config(3);
    let mut shared = SharedState::new(3).unwrap();
    let mut engine = AdcEngine::start(&mut shared, 0);
    assert!(engine.tick(&mut shared, &config, &[Some(100), Some(500), Some(900)], 0));
    assert_eq!(shared.values(), &[100, 500, 900]);
    let mut now = 0;
    for k in 0..200u16 {
        now += 200;
        let jitter = k % 15;
        let readings = [Some(100 + jitter), Some(500 - jitter), Some(900 + 14 - jitter)];
        assert!(!engine.tick(&mut shared, &config, &readings, now));
        assert_eq!(shared.values(), &[100, 500, 900]);
    }
}

#[test]
fn a_change_of_exactly_the_threshold_counts() {
    let config = plain_config(2);
    let mut shared = SharedState::new(2).unwrap();
    let mut engine = AdcEngine::start(&mut shared, 0);
    assert!(!engine.tick(&mut shared, &config, &[Some(14), Some(0)], 0));
    assert_eq!(shared.values(), &[0, 0]);
    assert!(engine.tick(&mut shared, &config, &[Some(15), Some(0)], 200));
    assert_eq!(shared.values(), &[15, 0]);
    assert_eq!(get_active_channel(&shared), Some(0));
}

#[test]
fn active_channel_lives_for_the_time_to_live() {
    let config = plain_config(3);
    let mut shared = SharedState::new(3).unwrap();
    let mut engine = AdcEngine::start(&mut shared, 10_000);
    assert!(engine.tick(&mut shared, &config, &[Some(0), Some(300), Some(0)], 10_000));
    assert_eq!(get_active_channel(&shared), Some(1));
    assert_eq!(engine.active_deadline, 11_000);
    for now in [10_200u64, 10_400, 10_600, 10_800, 10_999] {
        assert!(!engine.tick(&mut shared, &config, &[Some(0), Some(300), Some(0)], now));
        assert_eq!(get_active_channel(&shared), Some(1), "at {}", now);
    }
    assert!(!engine.tick(&mut shared, &config, &[Some(0), Some(300), Some(0)], 11_000));
    assert_eq!(get_active_channel(&shared), None);
    assert!(!engine.tick(&mut shared, &config, &[Some(0), Some(300), Some(0)], 11_200));
    assert_eq!(get_active_channel(&shared), None);
    assert_eq!(shared.values(), &[0, 300, 0]);
}

#[test]
fn a_new_change_restarts_the_time_to_live() {
    let config = plain_config(2);
    let mut shared = SharedState::new(2).unwrap();
    let mut engine = AdcEngine::start(&mut shared, 0);
    assert!(engine.tick(&mut shared, &config, &[Some(100), Some(0)], 0));
    assert!(engine.tick(&mut shared, &config, &[Some(200), Some(0)], 800));
    assert_eq!(engine.active_deadline, 1_800);
    assert!(!engine.tick(&mut shared, &config, &[Some(200), Some(0)], 1_600));
    assert_eq!(get_active_channel(&shared), Some(0));
    assert!(!engine.tick(&mut shared, &config, &[Some(200), Some(0)], 1_800));
    assert_eq!(get_active_channel(&shared), None);
}

#[test]
fn the_largest_change_wins_and_the_first_of_equals() {
    let config = plain_config(4);
    let mut shared = SharedState::new(4).unwrap();
    let mut engine = AdcEngine::start(&mut shared, 0);
    assert!(engine.tick(&mut shared, &config, &[Some(20), Some(400), Some(30), Some(399)], 0));
    assert_eq!(shared.values(), &[20, 400, 30, 399]);
    assert_eq!(get_active_channel(&shared), Some(1));
    // Channels 0 and 2 both change by 50: the first one wins.
    assert!(engine.tick(&mut shared, &config, &[Some(70), Some(400), Some(80), Some(399)], 200));
    assert_eq!(get_active_channel(&shared), Some(0));
    // A smaller change elsewhere takes the active channel over.
    assert!(engine.tick(&mut shared, &config, &[Some(70), Some(400), Some(80), Some(420)], 400));
    assert_eq!(get_active_channel(&shared), Some(3));
    assert_eq!(engine.active_deadline, 1_400);
}

#[test]
fn a_failed_read_keeps_the_value() {
    let config = plain_config(2);
    let mut shared = SharedState::new(2).unwrap();
    let mut engine = AdcEngine::start(&mut shared, 0);
    assert!(engine.tick(&mut shared, &config, &[Some(600), Some(700)], 0));
    assert!(!engine.tick(&mut shared, &config, &[None, None], 200));
    assert_eq!(shared.values(), &[600, 700]);
    assert!(engine.tick(&mut shared, &config, &[None, Some(100)], 400));
    assert_eq!(shared.values(), &[600, 100]);
    assert_eq!(get_active_channel(&shared), Some(1));
}

#[test]
fn a_forced_publish_happens_once() {
    let config = plain_config(2);
    let mut shared = SharedState::new(2).unwrap();
    let mut engine = AdcEngine::start(&mut shared, 0);
    shared.set_force_push(true);
    assert!(engine.tick(&mut shared, &config, &[Some(0), Some(0)], 0));
    assert!(!shared.force_push());
    assert_eq!(get_active_channel(&shared), None);
    assert!(!engine.tick(&mut shared, &config, &[Some(0), Some(0)], 200));
}

#[test]
fn a_tick_leaves_the_screen_alone() {
    let config = plain_config(1);
    let mut shared = SharedState::new(1).unwrap();
    shared.set_screen_state(ScreenState::STANDBY);
    shared.set_active_input(true);
    let mut engine = AdcEngine::start(&mut shared, 0);
    assert!(engine.tick(&mut shared, &config, &[Some(512)], 0));
    assert_eq!(shared.screen_state(), ScreenState::STANDBY);
    assert!(shared.active_input());
}

#[test]
fn starting_the_engine_clears_the_active_channel() {
    let mut shared = SharedState::new(3).unwrap();
    shared.set_active_channel(Some(1));
    shared.set_value(0, 9);
    let engine = AdcEngine::start(&mut shared, 77);
    assert_eq!(engine.active_deadline, 77);
    assert_eq!(get_active_channel(&shared), None);
    assert_eq!(shared.values(), &[9, 0, 0]);
}

#[test]
fn a_threshold_of_zero_takes_every_sample() {
    let mut config = plain_config(2);
    config.noise_threshold = 0;
    let mut shared = SharedState::new(2).unwrap();
    let mut engine = AdcEngine::start(&mut shared, 0);
    // Nothing changed, yet every sample counts: published, no channel active.
    assert!(engine.tick(&mut shared, &config, &[Some(0), Some(0)], 0));
    assert_eq!(get_active_channel(&shared), None);
    assert!(engine.tick(&mut shared, &config, &[Some(0), Some(1)], 200));
    assert_eq!(get_active_channel(&shared), Some(1));
}

#[test]
fn reset_puts_the_shared_state_back_to_its_start() {
    let mut s = SharedState::new(4).unwrap();
    s.set_value(2, 1023);
    s.set_active_channel(Some(2));
    s.set_force_push(true);
    s.set_active_input(true);
    s.set_screen_state(ScreenState::ACTIVE);
    s.reset();
    assert_eq!(s.channel_count(), 4);
    assert_eq!(s.values(), &[0, 0, 0, 0]);
    assert_eq!(s.active_channel(), None);
    assert!(!s.force_push());
    assert!(!s.active_input());
    assert_eq!(s.screen_state(), ScreenState::OFF);
}

#[test]
fn a_channel_without_a_sample_or_a_calibration_keeps_its_value() {
    let mut shared = SharedState::new(4).unwrap();
    let mut engine = AdcEngine::start(&mut shared, 0);
    // Three calibrations and two samples for four channels.
    let config = plain_config(3);
    assert!(engine.tick(&mut shared, &config, &[Some(100), Some(200)], 0));
    assert_eq!(shared.values(), &[100, 200, 0, 0]);
    assert_eq!(get_active_channel(&shared), Some(1));
    // Five samples: the fourth has no calibration, the fifth no channel.
    let readings = [Some(100), Some(200), Some(300), Some(400), Some(500)];
    assert!(engine.tick(&mut shared, &config, &readings, 200));
    assert_eq!(shared.values(), &[100, 200, 300, 0]);
    assert_eq!(get_active_channel(&shared), Some(2));
    assert!(!engine.tick(&mut shared, &config, &[], 400));
    assert_eq!(shared.values(), &[100, 200, 300, 0]);
}

#[test]
fn the_deadline_never_overflows() {
    let mut config = plain_config(1);
    config.active_ttl_ms = u64::MAX;
    let mut shared = SharedState::new(1).unwrap();
    let mut engine = AdcEngine::start(&mut shared, u64::MAX);
    assert_eq!(engine.active_deadline, u64::MAX as u128);
    assert!(engine.tick(&mut shared, &config, &[Some(512)], u64::MAX));
    assert_eq!(engine.active_deadline, 2 * (u64::MAX as u128));
    assert!(!engine.tick(&mut shared, &config, &[Some(512)], u64::MAX));
    assert_eq!(get_active_channel(&shared), Some(0));
}
