//! The ADC engine: from raw samples to channel values and the active channel.
//!
//! Once per tick every channel is sampled. A sample is normalized to 0..1023
//! by the channel's calibration and compared with the value the channel had:
//! a change below the noise threshold is dropped, a larger one is taken over.
//! The channel that changed most becomes the active channel and stays so for
//! a while after the last change. A tick in which anything was taken over
//! publishes all values.

use crate::shared::{shared_inv, SharedState, SharedView, MAX_CHANNELS, VALUE_MAX};
use vstd::prelude::*;

verus! {

/// The least change of a normalized value that counts as a change.
pub const NOISE_THRESHOLD: u32 = 15;

/// How long a channel stays active after its last change, in milliseconds.
pub const ACTIVE_CHANNEL_TTL: u32 = 1000;

/// The time between two ticks, in milliseconds.
pub const ADC_TICK_MS: u64 = 200;

/// What a channel controls; it only picks the icon.
#[derive(Clone, Copy, Debug, PartialEq, Eq, Structural)]
pub enum AdcTarget {
    System,
    Mic,
    Browser,
    Steam,
    Discord,
}

/// The calibration of one input.
#[derive(Clone, Copy, Debug)]
pub struct AdcChanCfg {
    /// Whether the slider is mounted upside down.
    pub invert: bool,
    /// The raw sample at one end of the slider's travel.
    pub min: u16,
    /// The raw sample at the other end.
    pub max: u16,
    /// The converter input that the slider is wired to.
    pub chan: u8,
    pub target: AdcTarget,
}

/// The channels of the device: five inverted sliders over the full range of
/// the converter.
pub fn adc_channels() -> (r: [AdcChanCfg; 5])
    ensures
        forall|i: int| 0 <= i < 5 ==> (#[trigger] r[i]).invert && r[i].min == 0 && r[i].max == 1023
            && r[i].chan == i,
        r[0].target == AdcTarget::System,
        r[1].target == AdcTarget::Mic,
        r[2].target == AdcTarget::Browser,
        r[3].target == AdcTarget::Steam,
        r[4].target == AdcTarget::Discord,
{
    [
        AdcChanCfg { invert: true, min: 0, max: 1023, chan: 0, target: AdcTarget::System },
        AdcChanCfg { invert: true, min: 0, max: 1023, chan: 1, target: AdcTarget::Mic },
        AdcChanCfg { invert: true, min: 0, max: 1023, chan: 2, target: AdcTarget::Browser },
        AdcChanCfg { invert: true, min: 0, max: 1023, chan: 3, target: AdcTarget::Steam },
        AdcChanCfg { invert: true, min: 0, max: 1023, chan: 4, target: AdcTarget::Discord },
    ]
}

/// The raw sample as the slider means it: mirrored within the calibrated
/// range where the slider is inverted, without leaving the 16-bit range.
pub open spec fn oriented_spec(raw: u16, cfg: AdcChanCfg) -> int {
    if cfg.invert {
        let top = if cfg.min + cfg.max > 0xFFFF {
            0xFFFF
        } else {
            cfg.min + cfg.max
        };
        if top - raw < 0 {
            0
        } else {
            top - raw
        }
    } else {
        raw as int
    }
}

/// `v` held to `[lo, hi]`; the upper bound wins where the two cross.
pub open spec fn clamp_spec(v: int, lo: int, hi: int) -> int {
    let low = if v < lo {
        lo
    } else {
        v
    };
    if low > hi {
        hi
    } else {
        low
    }
}

/// The normalized value of a raw sample: its place in the calibrated range,
/// scaled to 0..1023 and rounded half up. A range without extent gives 0.
pub open spec fn normalize_spec(raw: u16, cfg: AdcChanCfg) -> int {
    let span = cfg.max - cfg.min;
    if span <= 0 {
        0
    } else {
        ((clamp_spec(oriented_spec(raw, cfg), cfg.min as int, cfg.max as int) - cfg.min) * 1023
            + span / 2) / span
    }
}

/// The normalized value of a raw sample.
pub fn normalize_value(raw: u16, cfg: AdcChanCfg) -> (r: u32)
    ensures
        r == normalize_spec(raw, cfg),
        r <= VALUE_MAX,
{
    let mut v: u16 = if cfg.invert {
        cfg.min.saturating_add(cfg.max).saturating_sub(raw)
    } else {
        raw
    };
    if v < cfg.min {
        v = cfg.min;
    }
    if v > cfg.max {
        v = cfg.max;
    }
    let span: u16 = cfg.max.saturating_sub(cfg.min);
    if span == 0 {
        return 0;
    }
    let v0: u32 = (v - cfg.min) as u32;
    proof {
        lemma_scaled_in_range(v0 as int, span as int);
    }
    ((v0 * 1023) + (span as u32 / 2)) / (span as u32)
}

/// A place `v0` in a range of extent `span` scales to 0..1023, to 0 at the
/// lower and to 1023 at the upper end.
pub proof fn lemma_scaled_in_range(v0: int, span: int)
    requires
        0 <= v0 <= span,
        0 < span <= 0xFFFF,
    ensures
        0 <= v0 * 1023 <= 0xFFFF * 1023,
        0 <= (v0 * 1023 + span / 2) / span <= 1023,
        v0 == 0 ==> (v0 * 1023 + span / 2) / span == 0,
        v0 == span ==> (v0 * 1023 + span / 2) / span == 1023,
{
    assert(0 <= v0 * 1023 <= span * 1023);
    let n = v0 * 1023 + span / 2;
    assert(0 <= n < span * 1024);
    vstd::arithmetic::div_mod::lemma_div_pos_is_pos(n, span);
    assert(n / span <= 1023) by {
        vstd::arithmetic::div_mod::lemma_fundamental_div_mod(n, span);
        assert(n / span < 1024) by (nonlinear_arith)
            requires
                n == span * (n / span) + n % span,
                0 <= n % span,
                n < span * 1024,
                span > 0,
        ;
    }
    if v0 == 0 {
        vstd::arithmetic::div_mod::lemma_basic_div(span / 2, span);
    }
    if v0 == span {
        vstd::arithmetic::div_mod::lemma_fundamental_div_mod_converse(
            span * 1023 + span / 2,
            span,
            1023,
            span / 2,
        );
        assert(span * 1023 == 1023 * span) by (nonlinear_arith);
    }
}

/// Normalization keeps to 0..1023 and follows the sample: a larger sample
/// never gives a smaller value, and on an inverted channel never a larger
/// one.
pub proof fn lemma_normalize_monotonic(raw1: u16, raw2: u16, cfg: AdcChanCfg)
    requires
        raw1 <= raw2,
    ensures
        0 <= normalize_spec(raw1, cfg) <= 1023,
        0 <= normalize_spec(raw2, cfg) <= 1023,
        !cfg.invert ==> normalize_spec(raw1, cfg) <= normalize_spec(raw2, cfg),
        cfg.invert ==> normalize_spec(raw1, cfg) >= normalize_spec(raw2, cfg),
{
    let span = cfg.max - cfg.min;
    if span > 0 {
        let c1 = clamp_spec(oriented_spec(raw1, cfg), cfg.min as int, cfg.max as int) - cfg.min;
        let c2 = clamp_spec(oriented_spec(raw2, cfg), cfg.min as int, cfg.max as int) - cfg.min;
        lemma_scaled_in_range(c1, span);
        lemma_scaled_in_range(c2, span);
        if cfg.invert {
            assert(c2 <= c1);
            vstd::arithmetic::div_mod::lemma_div_is_ordered(
                c2 * 1023 + span / 2,
                c1 * 1023 + span / 2,
                span,
            );
        } else {
            assert(c1 <= c2);
            vstd::arithmetic::div_mod::lemma_div_is_ordered(
                c1 * 1023 + span / 2,
                c2 * 1023 + span / 2,
                span,
            );
        }
    }
}

/// The ends of the calibrated range map to the two extremes: `min` to 0 and
/// `max` to 1023, and the other way round on an inverted channel. The range
/// must have an extent, and on an inverted channel `min + max` must fit in
/// sixteen bits, as it does for every sample the converter can give.
pub proof fn lemma_normalize_extremes(cfg: AdcChanCfg)
    requires
        cfg.min < cfg.max,
        cfg.invert ==> cfg.min + cfg.max <= 0xFFFF,
    ensures
        !cfg.invert ==> normalize_spec(cfg.min, cfg) == 0 && normalize_spec(cfg.max, cfg) == 1023,
        cfg.invert ==> normalize_spec(cfg.min, cfg) == 1023 && normalize_spec(cfg.max, cfg) == 0,
{
    let span = cfg.max - cfg.min;
    lemma_scaled_in_range(0, span);
    lemma_scaled_in_range(span, span);
}

/// What the engine is built for: the channels and the two tuning values.
pub struct AdcConfig {
    pub channels: Vec<AdcChanCfg>,
    /// The least change of a normalized value that counts as a change.
    pub noise_threshold: u32,
    /// How long a channel stays active after its last change, in
    /// milliseconds.
    pub active_ttl_ms: u64,
}

impl AdcConfig {
    /// The configuration of the device: its five channels, a threshold of 15
    /// and a time to live of one second.
    pub fn device() -> (cfg: AdcConfig)
        ensures
            cfg.channels@ == adc_channels_spec(),
            cfg.noise_threshold == NOISE_THRESHOLD,
            cfg.active_ttl_ms == ACTIVE_CHANNEL_TTL,
    {
        let table = adc_channels();
        let mut channels: Vec<AdcChanCfg> = Vec::new();
        let mut i: usize = 0;
        while i < 5
            invariant
                i <= 5,
                channels@.len() == i,
                forall|k: int| 0 <= k < i ==> channels@[k] == table[k],
                forall|k: int|
                    0 <= k < 5 ==> (#[trigger] table[k]).invert && table[k].min == 0
                        && table[k].max == 1023 && table[k].chan == k,
                table[0].target == AdcTarget::System,
                table[1].target == AdcTarget::Mic,
                table[2].target == AdcTarget::Browser,
                table[3].target == AdcTarget::Steam,
                table[4].target == AdcTarget::Discord,
            decreases 5 - i,
        {
            channels.push(table[i]);
            i += 1;
        }
        proof {
            assert forall|k: int| 0 <= k < 5 implies channels@[k] == adc_channels_spec()[k] by {
                assert(table[k].invert);
            }
            assert(channels@ =~= adc_channels_spec());
        }
        AdcConfig {
            channels,
            noise_threshold: NOISE_THRESHOLD,
            active_ttl_ms: ACTIVE_CHANNEL_TTL as u64,
        }
    }
}

/// The target of each of the device's five channels.
pub open spec fn device_target(i: int) -> AdcTarget {
    if i == 0 {
        AdcTarget::System
    } else if i == 1 {
        AdcTarget::Mic
    } else if i == 2 {
        AdcTarget::Browser
    } else if i == 3 {
        AdcTarget::Steam
    } else {
        AdcTarget::Discord
    }
}

/// The channel table of the device.
pub open spec fn adc_channels_spec() -> Seq<AdcChanCfg> {
    Seq::new(
        5,
        |i: int|
            AdcChanCfg { invert: true, min: 0, max: 1023, chan: i as u8, target: device_target(i) },
    )
}

/// The distance between two values.
pub open spec fn abs_diff(a: int, b: int) -> int {
    if a > b {
        a - b
    } else {
        b - a
    }
}

/// The sample of channel `i` in a tick, if there is one: the read must have
/// succeeded, and the channel must have a calibration.
pub open spec fn reading_of(readings: Seq<Option<u16>>, cfg: AdcConfig, i: int) -> Option<u16> {
    if 0 <= i < readings.len() && i < cfg.channels@.len() {
        readings[i]
    } else {
        None
    }
}

/// How far a sample is from the value the channel has; a failed read is no
/// change.
pub open spec fn sample_diff(old_value: u32, reading: Option<u16>, cfg: AdcChanCfg) -> int {
    match reading {
        Some(raw) => abs_diff(old_value as int, normalize_spec(raw, cfg)),
        None => 0,
    }
}

/// Whether a sample is taken over: it was read, and it differs from the value
/// the channel has by the threshold or more.
pub open spec fn sample_counts(
    old_value: u32,
    reading: Option<u16>,
    cfg: AdcChanCfg,
    threshold: u32,
) -> bool {
    reading is Some && sample_diff(old_value, reading, cfg) >= threshold
}

/// The value of a channel after a tick.
pub open spec fn committed_value(
    old_value: u32,
    reading: Option<u16>,
    cfg: AdcChanCfg,
    threshold: u32,
) -> u32 {
    if sample_counts(old_value, reading, cfg, threshold) {
        normalize_spec(reading->0, cfg) as u32
    } else {
        old_value
    }
}

/// The values of all channels after a tick.
pub open spec fn tick_values(values: Seq<u32>, readings: Seq<Option<u16>>, cfg: AdcConfig) -> Seq<
    u32,
> {
    Seq::new(
        values.len(),
        |i: int| committed_value(values[i], reading_of(readings, cfg, i), cfg.channels@[i], cfg.noise_threshold),
    )
}

/// Whether a tick takes over any sample.
pub open spec fn any_counts(values: Seq<u32>, readings: Seq<Option<u16>>, cfg: AdcConfig) -> bool {
    exists|i: int|
        0 <= i < values.len() && #[trigger] sample_counts(
            values[i],
            reading_of(readings, cfg, i),
            cfg.channels@[i],
            cfg.noise_threshold,
        )
}

/// Whether channel `c` is the one that a tick makes active: its sample is
/// taken over, no sample that is taken over changed more, and none before it
/// changed as much.
pub open spec fn is_candidate(
    values: Seq<u32>,
    readings: Seq<Option<u16>>,
    cfg: AdcConfig,
    n: int,
    c: int,
) -> bool {
    &&& 0 <= c < n
    &&& sample_counts(values[c], reading_of(readings, cfg, c), cfg.channels@[c], cfg.noise_threshold)
    &&& sample_diff(values[c], reading_of(readings, cfg, c), cfg.channels@[c]) > 0
    &&& forall|j: int|
        0 <= j < n && #[trigger] sample_counts(
            values[j],
            reading_of(readings, cfg, j),
            cfg.channels@[j],
            cfg.noise_threshold,
        ) ==> sample_diff(values[j], reading_of(readings, cfg, j), cfg.channels@[j]) <= sample_diff(
            values[c],
            reading_of(readings, cfg, c),
            cfg.channels@[c],
        ) && (j < c ==> sample_diff(values[j], reading_of(readings, cfg, j), cfg.channels@[j]) < sample_diff(
            values[c],
            reading_of(readings, cfg, c),
            cfg.channels@[c],
        ))
}

/// Whether a tick makes no channel active: no sample that is taken over
/// changed at all.
pub open spec fn no_candidate(
    values: Seq<u32>,
    readings: Seq<Option<u16>>,
    cfg: AdcConfig,
    n: int,
) -> bool {
    forall|j: int|
        0 <= j < n && #[trigger] sample_counts(
            values[j],
            reading_of(readings, cfg, j),
            cfg.channels@[j],
            cfg.noise_threshold,
        ) ==> sample_diff(values[j], reading_of(readings, cfg, j), cfg.channels@[j]) == 0
}

/// The channel that the first `n` samples of a tick make active, if any.
pub open spec fn candidate_upto(
    values: Seq<u32>,
    readings: Seq<Option<u16>>,
    cfg: AdcConfig,
    n: int,
) -> Option<usize> {
    if exists|c: int| is_candidate(values, readings, cfg, n, c) {
        Some((choose|c: int| is_candidate(values, readings, cfg, n, c)) as usize)
    } else {
        None
    }
}

/// The channel that a tick makes active, if any.
pub open spec fn candidate_spec(values: Seq<u32>, readings: Seq<Option<u16>>, cfg: AdcConfig)
    -> Option<usize> {
    candidate_upto(values, readings, cfg, values.len() as int)
}

/// At most one channel is the candidate.
pub proof fn lemma_candidate_unique(
    values: Seq<u32>,
    readings: Seq<Option<u16>>,
    cfg: AdcConfig,
    n: int,
    c: int,
)
    requires
        is_candidate(values, readings, cfg, n, c),
        0 <= n <= usize::MAX,
    ensures
        candidate_upto(values, readings, cfg, n) == Some(c as usize),
{
    let d = choose|d: int| is_candidate(values, readings, cfg, n, d);
    assert(is_candidate(values, readings, cfg, n, d));
    if d < c {
        assert(sample_counts(values[d], reading_of(readings, cfg, d), cfg.channels@[d], cfg.noise_threshold));
    } else if c < d {
        assert(sample_counts(values[c], reading_of(readings, cfg, c), cfg.channels@[c], cfg.noise_threshold));
    }
}

/// Where no channel is the candidate, no sample that counts changed at all.
pub proof fn lemma_candidate_none(
    values: Seq<u32>,
    readings: Seq<Option<u16>>,
    cfg: AdcConfig,
    n: int,
)
    requires
        no_candidate(values, readings, cfg, n),
    ensures
        candidate_upto(values, readings, cfg, n) is None,
{
    if exists|c: int| is_candidate(values, readings, cfg, n, c) {
        let c = choose|c: int| is_candidate(values, readings, cfg, n, c);
        assert(sample_counts(values[c], reading_of(readings, cfg, c), cfg.channels@[c], cfg.noise_threshold));
    }
}

/// The engine with what it shares, as a tick sees it.
pub struct EngineView {
    pub shared: SharedView,
    /// When the active channel expires, in milliseconds.
    pub deadline: int,
}

/// What one tick at time `now` makes of the engine and the shared state.
pub open spec fn tick_spec(
    pre: EngineView,
    cfg: AdcConfig,
    readings: Seq<Option<u16>>,
    now: u64,
) -> EngineView {
    let candidate = candidate_spec(pre.shared.values, readings, cfg);
    EngineView {
        shared: SharedView {
            values: tick_values(pre.shared.values, readings, cfg),
            active: match candidate {
                Some(c) => Some(c),
                None => if now >= pre.deadline {
                    None
                } else {
                    pre.shared.active
                },
            },
            force_push: false,
            ..pre.shared
        },
        deadline: match candidate {
            Some(c) => now + cfg.active_ttl_ms,
            None => pre.deadline,
        },
    }
}

/// Whether a tick publishes: a sample was taken over, or publishing was
/// forced.
pub open spec fn tick_publishes(pre: SharedView, cfg: AdcConfig, readings: Seq<Option<u16>>)
    -> bool {
    any_counts(pre.values, readings, cfg) || pre.force_push
}

/// The part of the ADC engine that is its own: when the active channel
/// expires.
pub struct AdcEngine {
    /// In milliseconds; wide enough that a time plus the time to live always
    /// fits.
    pub active_deadline: u128,
}

impl AdcEngine {
    /// Starts the engine at time `now`: no channel is active.
    pub fn start(shared: &mut SharedState, now: u64) -> (engine: AdcEngine)
        ensures
            engine.active_deadline == now,
            final(shared)@ == (SharedView { active: None, ..old(shared)@ }),
    {
        shared.set_active_channel(None);
        AdcEngine { active_deadline: now as u128 }
    }

    /// One tick at time `now`: `readings` holds the raw sample of every
    /// channel, or `None` where the read failed. A channel for which
    /// `readings` or the calibration table has no entry counts as one whose
    /// read failed. Returns whether all values are to be published.
    #[verifier::rlimit(50)]
    pub fn tick(
        &mut self,
        shared: &mut SharedState,
        cfg: &AdcConfig,
        readings: &[Option<u16>],
        now: u64,
    ) -> (publish: bool)
        ensures
            publish == tick_publishes(old(shared)@, *cfg, readings@),
            final(shared)@ == tick_spec(
                EngineView { shared: old(shared)@, deadline: old(self).active_deadline as int },
                *cfg,
                readings@,
                now,
            ).shared,
            final(self).active_deadline == tick_spec(
                EngineView { shared: old(shared)@, deadline: old(self).active_deadline as int },
                *cfg,
                readings@,
                now,
            ).deadline,
            all_noise(old(shared)@.values, *cfg, readings@) ==> {
                &&& final(shared)@.values == old(shared)@.values
                &&& publish == old(shared)@.force_push
                &&& final(self).active_deadline == old(self).active_deadline
                &&& final(shared)@.active == if now >= old(self).active_deadline {
                    None
                } else {
                    old(shared)@.active
                }
            },
    {
        let ghost pre = shared@;
        proof {
            if all_noise(pre.values, *cfg, readings@) {
                lemma_noise_tick(
                    EngineView { shared: pre, deadline: self.active_deadline as int },
                    *cfg,
                    readings@,
                    now,
                );
            }
        }
        let n = shared.channel_count();
        let mut any_updated = false;
        let mut best_idx: Option<usize> = None;
        let mut best_diff: u32 = 0;
        let ghost mut witness: int = 0;
        let mut i: usize = 0;
        while i < n
            invariant
                i <= n,
                n == pre.values.len(),
                n <= MAX_CHANNELS,
                shared_inv(pre),
                shared@.values.len() == n,
                forall|j: int|
                    0 <= j < i ==> shared@.values[j] == committed_value(
                        pre.values[j],
                        reading_of(readings@, *cfg, j),
                        cfg.channels@[j],
                        cfg.noise_threshold,
                    ),
                forall|j: int| i <= j < n ==> shared@.values[j] == pre.values[j],
                shared@.active == pre.active,
                shared@.force_push == pre.force_push,
                shared@.screen == pre.screen,
                shared@.active_input == pre.active_input,
                any_updated ==> 0 <= witness < i && sample_counts(
                    pre.values[witness],
                    reading_of(readings@, *cfg, witness),
                    cfg.channels@[witness],
                    cfg.noise_threshold,
                ),
                !any_updated ==> forall|j: int|
                    0 <= j < i ==> !#[trigger] sample_counts(
                        pre.values[j],
                        reading_of(readings@, *cfg, j),
                        cfg.channels@[j],
                        cfg.noise_threshold,
                    ),
                match best_idx {
                    Some(c) => is_candidate(pre.values, readings@, *cfg, i as int, c as int)
                        && best_diff == sample_diff(
                        pre.values[c as int],
                        reading_of(readings@, *cfg, c as int),
                        cfg.channels@[c as int],
                    ),
                    None => best_diff == 0 && no_candidate(pre.values, readings@, *cfg, i as int),
                },
            decreases n - i,
        {
            let ghost was_best = best_idx;
            let reading: Option<u16> = if i < readings.len() && i < cfg.channels.len() {
                readings[i]
            } else {
                None
            };
            match reading {
                Some(raw) => {
                    let norm = normalize_value(raw, cfg.channels[i]);
                    let curr = shared.value(i);
                    let diff: u32 = if curr > norm {
                        curr - norm
                    } else {
                        norm - curr
                    };
                    if diff >= cfg.noise_threshold {
                        shared.set_value(i, norm);
                        any_updated = true;
                        proof {
                            witness = i as int;
                        }
                        if diff > best_diff {
                            best_diff = diff;
                            best_idx = Some(i);
                        }
                    }
                },
                None => {},
            }
            proof {
                match best_idx {
                    Some(c) => {
                        assert(is_candidate(pre.values, readings@, *cfg, i + 1, c as int));
                    },
                    None => {
                        assert(no_candidate(pre.values, readings@, *cfg, i + 1));
                    },
                }
            }
            i += 1;
        }
        proof {
            assert(shared@.values =~= tick_values(pre.values, readings@, *cfg));
            assert(any_updated == any_counts(pre.values, readings@, *cfg));
            match best_idx {
                Some(c) => {
                    lemma_candidate_unique(pre.values, readings@, *cfg, n as int, c as int);
                },
                None => {
                    lemma_candidate_none(pre.values, readings@, *cfg, n as int);
                },
            }
        }
        match best_idx {
            Some(idx) => {
                shared.set_active_channel(Some(idx));
                self.active_deadline = now as u128 + cfg.active_ttl_ms as u128;
            },
            None => {
                if now as u128 >= self.active_deadline {
                    shared.set_active_channel(None);
                }
            },
        }
        let publish = any_updated || shared.force_push();
        if publish {
            shared.set_force_push(false);
        }
        publish
    }
}

/// The value of a channel as the shared state holds it, or 0 for an index
/// that is no channel.
pub fn read_adc_value(shared: &SharedState, channel: usize) -> (v: u32)
    ensures
        v == if channel < shared@.values.len() {
            shared@.values[channel as int]
        } else {
            0u32
        },
        v <= VALUE_MAX,
{
    shared.value(channel)
}

/// Makes `channel` the active one; an index that is no channel, like `None`,
/// leaves no channel active.
pub fn set_active_channel(shared: &mut SharedState, channel: Option<usize>)
    ensures
        final(shared)@ == (SharedView {
            active: match channel {
                Some(c) => if c < old(shared)@.values.len() {
                    Some(c)
                } else {
                    None
                },
                None => None,
            },
            ..old(shared)@
        }),
{
    shared.set_active_channel(channel)
}

/// The active channel, if there is one.
pub fn get_active_channel(shared: &SharedState) -> (r: Option<usize>)
    ensures
        r == shared@.active,
        r is Some ==> r->0 < shared@.values.len(),
{
    shared.active_channel()
}

/// What one tick is given: the samples and the time.
pub struct TickInput {
    pub readings: Seq<Option<u16>>,
    pub now: u64,
}

/// What a run of ticks makes of the engine and the shared state.
pub open spec fn run_ticks(pre: EngineView, cfg: AdcConfig, inputs: Seq<TickInput>) -> EngineView
    decreases inputs.len(),
{
    if inputs.len() == 0 {
        pre
    } else {
        tick_spec(
            run_ticks(pre, cfg, inputs.drop_last()),
            cfg,
            inputs.last().readings,
            inputs.last().now,
        )
    }
}

/// Whether a tick's samples are all noise against the given values: none of
/// them differs by the threshold or more.
pub open spec fn all_noise(values: Seq<u32>, cfg: AdcConfig, readings: Seq<Option<u16>>) -> bool {
    forall|i: int|
        0 <= i < values.len() ==> !#[trigger] sample_counts(
            values[i],
            reading_of(readings, cfg, i),
            cfg.channels@[i],
            cfg.noise_threshold,
        )
}

/// A tick of noise changes no value, makes no channel active and publishes
/// only where publishing was forced.
pub proof fn lemma_noise_tick(pre: EngineView, cfg: AdcConfig, readings: Seq<Option<u16>>, now: u64)
    requires
        all_noise(pre.shared.values, cfg, readings),
    ensures
        tick_spec(pre, cfg, readings, now).shared.values == pre.shared.values,
        tick_spec(pre, cfg, readings, now).deadline == pre.deadline,
        tick_spec(pre, cfg, readings, now).shared.active == if now >= pre.deadline {
            None
        } else {
            pre.shared.active
        },
        tick_publishes(pre.shared, cfg, readings) == pre.shared.force_push,
{
    lemma_candidate_none(pre.shared.values, readings, cfg, pre.shared.values.len() as int);
    assert(tick_values(pre.shared.values, readings, cfg) =~= pre.shared.values);
}

/// Debounce: while every sample stays within the noise threshold of the
/// values that were published, the values never change, however many ticks
/// pass.
pub proof fn lemma_debounce(pre: EngineView, cfg: AdcConfig, inputs: Seq<TickInput>)
    requires
        forall|k: int|
            0 <= k < inputs.len() ==> all_noise(pre.shared.values, cfg, (#[trigger] inputs[k]).readings),
    ensures
        run_ticks(pre, cfg, inputs).shared.values == pre.shared.values,
        run_ticks(pre, cfg, inputs).deadline == pre.deadline,
        inputs.len() > 0 ==> !run_ticks(pre, cfg, inputs).shared.force_push,
        forall|k: int|
            0 <= k <= inputs.len() ==> (#[trigger] run_ticks(pre, cfg, inputs.take(k))).shared.values
                == pre.shared.values,
    decreases inputs.len(),
{
    if inputs.len() > 0 {
        let head = inputs.drop_last();
        assert forall|k: int| 0 <= k < head.len() implies all_noise(
            pre.shared.values,
            cfg,
            (#[trigger] head[k]).readings,
        ) by {
            assert(head[k] == inputs[k]);
        }
        lemma_debounce(pre, cfg, head);
        lemma_noise_tick(run_ticks(pre, cfg, head), cfg, inputs.last().readings, inputs.last().now);
        assert forall|k: int| 0 <= k <= inputs.len() implies (#[trigger] run_ticks(
            pre,
            cfg,
            inputs.take(k),
        )).shared.values == pre.shared.values by {
            if k == inputs.len() {
                assert(inputs.take(k) =~= inputs);
            } else {
                assert(inputs.take(k) =~= head.take(k));
            }
        }
    } else {
        assert forall|k: int| 0 <= k <= inputs.len() implies (#[trigger] run_ticks(
            pre,
            cfg,
            inputs.take(k),
        )).shared.values == pre.shared.values by {
            assert(inputs.take(k) =~= inputs);
        }
    }
}

/// Time to live of the active channel: a tick at time `first.now` in which
/// channel `a` changed most makes `a` the active channel. Through the ticks
/// of noise that follow, `a` stays active as long as every tick came before
/// `first.now` plus the time to live, and no channel is active once a tick
/// came at or after that time.
#[verifier::rlimit(50)]
pub proof fn lemma_active_ttl(
    pre: EngineView,
    cfg: AdcConfig,
    first: TickInput,
    a: int,
    rest: Seq<TickInput>,
)
    requires
        is_candidate(pre.shared.values, first.readings, cfg, pre.shared.values.len() as int, a),
        pre.shared.values.len() <= usize::MAX,
        forall|k: int|
            0 <= k < rest.len() ==> all_noise(
                tick_values(pre.shared.values, first.readings, cfg),
                cfg,
                (#[trigger] rest[k]).readings,
            ),
    ensures
        tick_spec(pre, cfg, first.readings, first.now).shared.active == Some(a as usize),
        tick_spec(pre, cfg, first.readings, first.now).deadline == first.now + cfg.active_ttl_ms,
        (forall|k: int| 0 <= k < rest.len() ==> (#[trigger] rest[k]).now < first.now + cfg.active_ttl_ms)
            ==> run_ticks(tick_spec(pre, cfg, first.readings, first.now), cfg, rest).shared.active
            == Some(a as usize),
        (exists|k: int| 0 <= k < rest.len() && (#[trigger] rest[k]).now >= first.now + cfg.active_ttl_ms)
            ==> run_ticks(
            tick_spec(pre, cfg, first.readings, first.now),
            cfg,
            rest,
        ).shared.active is None,
    decreases rest.len(),
{
    let s1 = tick_spec(pre, cfg, first.readings, first.now);
    lemma_candidate_unique(pre.shared.values, first.readings, cfg, pre.shared.values.len() as int, a);
    if rest.len() > 0 {
        let head = rest.drop_last();
        assert forall|k: int| 0 <= k < head.len() implies all_noise(
            tick_values(pre.shared.values, first.readings, cfg),
            cfg,
            (#[trigger] head[k]).readings,
        ) by {
            assert(head[k] == rest[k]);
        }
        lemma_active_ttl(pre, cfg, first, a, head);
        lemma_debounce(s1, cfg, head);
        let mid = run_ticks(s1, cfg, head);
        lemma_noise_tick(mid, cfg, rest.last().readings, rest.last().now);
        let deadline = first.now + cfg.active_ttl_ms;
        if forall|k: int| 0 <= k < rest.len() ==> (#[trigger] rest[k]).now < deadline {
            assert forall|k: int| 0 <= k < head.len() implies (#[trigger] head[k]).now
                < deadline by {
                assert(head[k] == rest[k]);
            }
            assert(rest.last() == rest[rest.len() - 1]);
        }
        if exists|k: int| 0 <= k < rest.len() && (#[trigger] rest[k]).now >= deadline {
            let k = choose|k: int| 0 <= k < rest.len() && (#[trigger] rest[k]).now >= deadline;
            if k < head.len() {
                assert(head[k] == rest[k]);
            } else {
                assert(rest.last() == rest[k]);
            }
            if !(rest.last().now >= deadline) {
                assert(k < head.len());
            } else if !(exists|j: int| 0 <= j < head.len() && (#[trigger] head[j]).now >= deadline) {
                assert forall|j: int| 0 <= j < head.len() implies (#[trigger] head[j]).now
                    < deadline by {}
            }
        }
    }
}

} // verus!
