//! What goes out to the LED strip, and the clock that drives blinking.

use crate::colors::{black, solid, RGB8};
use crate::shift_lights::{after_rules, compute_led_state, BakedLedRules};
use vstd::prelude::*;

verus! {

/// Nanoseconds in a millisecond.
pub const NANOS_PER_MS: u128 = 1_000_000;

/// Default timeout when no blinking is active
pub const DEFAULT_TIMEOUT_MS: u64 = 100;

/// How long each half of a boot blink lasts.
pub const BOOT_BLINK_MS: u64 = 250;

/// The time at one moment.
#[derive(Debug, Clone, Copy, PartialEq, Eq, Structural)]
pub struct Clock {
    /// Monotonic time in nanoseconds
    pub now_ns: u64,
    /// Wallclock time in milliseconds
    pub wall_ms: u64,
}

/// Time in ms from a moment until the next wallclock-aligned deadline
pub open spec fn until_deadline(now_ms: u64, interval_ms: u64) -> int {
    interval_ms - (now_ms % interval_ms)
}

/// Compute time in ms until the next wallclock-aligned deadline
pub fn time_until_next_deadline(now_ms: u64, interval_ms: u64) -> (r: u64)
    requires
        interval_ms > 0,
    ensures
        r == until_deadline(now_ms, interval_ms),
        1 <= r <= interval_ms,
        (now_ms + r) % interval_ms as int == 0,
{
    let into: u64 = now_ms % interval_ms;
    proof {
        let whole = now_ms as int / interval_ms as int;
        vstd::arithmetic::div_mod::lemma_fundamental_div_mod(now_ms as int, interval_ms as int);
        vstd::arithmetic::mul::lemma_mul_is_distributive_add(interval_ms as int, whole, 1);
        vstd::arithmetic::mul::lemma_mul_is_commutative(interval_ms as int, whole + 1);
        vstd::arithmetic::div_mod::lemma_mod_multiples_basic(whole + 1, interval_ms as int);
    }
    interval_ms - into
}

/// The on phase of a blink (true = on, false = off)
pub open spec fn phase_on(timestamp_ms: u64, interval_ms: u64) -> bool {
    (timestamp_ms / interval_ms) % 2 == 0
}

/// Compute whether we're in the on or off blink phase (true = on, false = off)
pub fn blink_phase_on(timestamp_ms: u64, interval_ms: u64) -> (r: bool)
    requires
        interval_ms > 0,
    ensures
        r == phase_on(timestamp_ms, interval_ms),
{
    (timestamp_ms / interval_ms) % 2 == 0
}

/// A value that was last updated at one moment is stale at another.
pub open spec fn is_stale(stale_timeout_ms: Option<u64>, updated_ns: u64, now_ns: u64) -> bool {
    stale_timeout_ms is Some && now_ns >= updated_ns + stale_timeout_ms->0 * NANOS_PER_MS
}

/// The time until a value is stale, in whole ms; zero if it is.
pub open spec fn until_stale(stale_timeout_ms: u64, updated_ns: u64, now_ns: u64) -> int {
    let deadline = updated_ns + stale_timeout_ms * NANOS_PER_MS;
    if now_ns >= deadline {
        0
    } else {
        (deadline - now_ns) / NANOS_PER_MS as int
    }
}

/// Whether a value that was last updated at one moment is stale at another.
pub(crate) fn stale(stale_timeout_ms: Option<u64>, updated_ns: u64, now_ns: u64) -> (r: bool)
    ensures
        r == is_stale(stale_timeout_ms, updated_ns, now_ns),
{
    match stale_timeout_ms {
        None => false,
        Some(ms) => now_ns as u128 >= updated_ns as u128 + ms as u128 * NANOS_PER_MS,
    }
}

/// The time until a value is stale, in whole ms, but at most `limit_ms`.
pub(crate) fn capped_until_stale(
    stale_timeout_ms: u64,
    updated_ns: u64,
    now_ns: u64,
    limit_ms: u64,
) -> (r: u64)
    ensures
        r == if until_stale(stale_timeout_ms, updated_ns, now_ns) < limit_ms {
            until_stale(stale_timeout_ms, updated_ns, now_ns)
        } else {
            limit_ms as int
        },
{
    let deadline: u128 = updated_ns as u128 + stale_timeout_ms as u128 * NANOS_PER_MS;
    if now_ns as u128 >= deadline {
        return 0;
    }
    let left: u128 = (deadline - now_ns as u128) / NANOS_PER_MS;
    if left < limit_ms as u128 {
        left as u64
    } else {
        limit_ms
    }
}

/// The staleness timeout of a configured value; zero disables it.
pub open spec fn configured_stale_timeout(ms: u16) -> Option<u64> {
    if ms == 0 {
        None
    } else {
        Some(ms as u64)
    }
}

/// Convert the `rpm_stale_timeout_ms` config value to a timeout in ms.
/// Returns `None` when the feature is disabled (value 0).
pub fn stale_timeout_from_config(rpm_stale_timeout_ms: u16) -> (r: Option<u64>)
    ensures
        r == configured_stale_timeout(rpm_stale_timeout_ms),
{
    if rpm_stale_timeout_ms == 0 {
        None
    } else {
        Some(rpm_stale_timeout_ms as u64)
    }
}

// ---------------------------------------------------------------------------
// Gamma and brightness
// ---------------------------------------------------------------------------

/// What gamma correction makes of a channel: an entry of the table in
/// `smart_leds`.
pub uninterp spec fn gamma_channel(channel: u8) -> u8;

/// A color after gamma correction.
pub open spec fn gamma_corrected(color: RGB8) -> RGB8 {
    RGB8 {
        r: gamma_channel(color.r),
        g: gamma_channel(color.g),
        b: gamma_channel(color.b),
    }
}

/// A channel at a brightness.
pub open spec fn dimmed_channel(channel: u8, brightness: u8) -> u8 {
    (channel * (brightness + 1) / 256) as u8
}

/// A color at a brightness.
pub open spec fn dimmed(color: RGB8, brightness: u8) -> RGB8 {
    RGB8 {
        r: dimmed_channel(color.r, brightness),
        g: dimmed_channel(color.g, brightness),
        b: dimmed_channel(color.b, brightness),
    }
}

/// `smart_leds::gamma`: each channel goes through the table of the crate. The
/// table leaves zero at zero, so that an LED that is off stays off.
#[verifier::external_body]
fn gamma(leds: &[RGB8]) -> (r: Vec<RGB8>)
    ensures
        r@.len() == leds@.len(),
        forall|i: int|
            0 <= i < r@.len() ==> (#[trigger] r@[i]).r == gamma_channel(leds@[i].r) && r@[i].g
                == gamma_channel(leds@[i].g) && r@[i].b == gamma_channel(leds@[i].b),
        forall|i: int| 0 <= i < r@.len() && leds@[i] == black() ==> #[trigger] r@[i] == black(),
{
    let colors = leds.iter().map(|c| smart_leds::RGB8::new(c.r, c.g, c.b));
    smart_leds::gamma(colors).map(|c| RGB8 { r: c.r, g: c.g, b: c.b }).collect()
}

/// `smart_leds::brightness`: each channel is multiplied by the brightness plus
/// one and divided by 256.
#[verifier::external_body]
fn dim(leds: &[RGB8], level: u8) -> (r: Vec<RGB8>)
    ensures
        r@ == leds@.map_values(|color: RGB8| dimmed(color, level)),
{
    let colors = leds.iter().map(|c| smart_leds::RGB8::new(c.r, c.g, c.b));
    smart_leds::brightness(colors, level).map(|c| RGB8 { r: c.r, g: c.g, b: c.b }).collect()
}

/// The LED strip as it is driven.
#[derive(Debug, Clone, Copy, PartialEq, Eq, Structural)]
pub struct LedController {
    pub brightness: u8,
}

/// What goes out for colors at a brightness: gamma correction first, then
/// brightness reduction.
pub open spec fn sent(leds: Seq<RGB8>, brightness: u8) -> Seq<RGB8> {
    leds.map_values(|color: RGB8| dimmed(gamma_corrected(color), brightness))
}

impl LedController {
    /// A strip at the given brightness.
    pub fn new(initial_brightness: u8) -> (r: LedController)
        ensures
            r.brightness == initial_brightness,
    {
        LedController { brightness: initial_brightness }
    }

    /// Set brightness level (0-255)
    pub fn set_brightness(&mut self, brightness: u8)
        ensures
            final(self).brightness == brightness,
    {
        self.brightness = brightness;
    }

    /// The colors to send for the colors to show.
    pub fn write_leds(&self, leds: &[RGB8]) -> (r: Vec<RGB8>)
        ensures
            r@ == sent(leds@, self.brightness),
            forall|i: int| 0 <= i < r@.len() && leds@[i] == black() ==> #[trigger] r@[i] == black(),
    {
        let corrected = gamma(leds);
        let out = dim(corrected.as_slice(), self.brightness);
        assert(out@ =~= sent(leds@, self.brightness));
        out
    }

    /// The colors to send for an RPM value.
    pub fn update(&self, rpm: u32, baked: &BakedLedRules, timestamp_ms: u64) -> (r: Vec<RGB8>)
        requires
            baked.well_formed(),
        ensures
            r@ == sent(
                after_rules(
                    Seq::new(baked.total_leds as nat, |i: int| black()),
                    baked.rules@,
                    rpm,
                    timestamp_ms,
                ),
                self.brightness,
            ),
    {
        let state = compute_led_state(rpm, baked, timestamp_ms);
        self.write_leds(state.leds.as_slice())
    }

    /// Blink the strip purple 3 times as a boot indicator: the frames to send,
    /// each shown for [`BOOT_BLINK_MS`].
    pub fn boot_animation(&self, total_leds: usize) -> (r: Vec<Vec<RGB8>>)
        ensures
            r@.len() == 6,
            forall|i: int|
                0 <= i < 6 ==> (#[trigger] r@[i])@ == sent(
                    Seq::new(
                        total_leds as nat,
                        |k: int|
                            if i % 2 == 0 {
                                RGB8 { r: 128, g: 0, b: 128 }
                            } else {
                                black()
                            },
                    ),
                    self.brightness,
                ),
    {
        let mut frames: Vec<Vec<RGB8>> = Vec::new();
        let mut i: usize = 0;
        while i < 6
            invariant
                i <= 6,
                frames@.len() == i,
                forall|j: int|
                    0 <= j < i ==> (#[trigger] frames@[j])@ == sent(
                        Seq::new(
                            total_leds as nat,
                            |k: int|
                                if j % 2 == 0 {
                                    RGB8 { r: 128, g: 0, b: 128 }
                                } else {
                                    black()
                                },
                        ),
                        self.brightness,
                    ),
            decreases 6 - i,
        {
            let color: RGB8 = if i % 2 == 0 {
                RGB8::new(128, 0, 128)
            } else {
                RGB8::default()
            };
            let leds: Vec<RGB8> = solid(color, total_leds);
            proof {
                let n = i as int;
                assert(leds@ =~= Seq::new(
                    total_leds as nat,
                    |k: int|
                        if n % 2 == 0 {
                            RGB8 { r: 128, g: 0, b: 128 }
                        } else {
                            black()
                        },
                ));
            }
            frames.push(self.write_leds(leds.as_slice()));
            i = i + 1;
        }
        frames
    }
}

/// Full brightness leaves a color as gamma correction made it, and more
/// brightness never makes a channel darker.
pub proof fn law_brightness(channel: u8, low: u8, high: u8)
    requires
        low <= high,
    ensures
        dimmed_channel(channel, 255) == channel,
        dimmed_channel(channel, low) <= dimmed_channel(channel, high) <= channel,
{
    assert(channel * (low + 1) <= channel * (high + 1)) by (nonlinear_arith)
        requires
            low <= high,
    ;
    assert(channel * (high + 1) <= channel * 256) by (nonlinear_arith)
        requires
            high <= 255,
    ;
    assert(channel * (255 + 1) == channel * 256);
}

/// The next deadline is the first multiple of the interval behind a moment.
pub proof fn law_deadline_is_the_next_multiple(now_ms: u64, interval_ms: u64, other: int)
    requires
        interval_ms > 0,
    ensures
        1 <= until_deadline(now_ms, interval_ms) <= interval_ms,
        (now_ms + until_deadline(now_ms, interval_ms)) % interval_ms as int == 0,
        0 < other < until_deadline(now_ms, interval_ms) ==> (now_ms + other) % interval_ms as int
            != 0,
{
    let m = interval_ms as int;
    let n = now_ms as int;
    let left = n % m;
    vstd::arithmetic::div_mod::lemma_mod_bound(n, m);
    vstd::arithmetic::div_mod::lemma_fundamental_div_mod(n, m);
    if 0 < other < m - left {
        vstd::arithmetic::div_mod::lemma_mod_multiples_vanish(n / m, left + other, m);
        vstd::arithmetic::div_mod::lemma_small_mod((left + other) as nat, m as nat);
    }
    vstd::arithmetic::div_mod::lemma_mod_multiples_vanish(n / m, m, m);
    vstd::arithmetic::div_mod::lemma_mod_self_0(m);
    assert(n + other == m * (n / m) + (left + other));
    assert(n + (m - left) == m * (n / m) + m);
}

/// The blink phase is on for one interval and off for the next.
pub proof fn law_phase_alternates(timestamp_ms: u64, interval_ms: u64)
    requires
        interval_ms > 0,
        timestamp_ms + interval_ms <= u64::MAX,
    ensures
        phase_on((timestamp_ms + interval_ms) as u64, interval_ms) != phase_on(
            timestamp_ms,
            interval_ms,
        ),
        timestamp_ms < interval_ms ==> phase_on(timestamp_ms, interval_ms),
{
    let m = interval_ms as int;
    vstd::arithmetic::div_mod::lemma_div_plus_one(timestamp_ms as int, m);
    if timestamp_ms < interval_ms {
        vstd::arithmetic::div_mod::lemma_basic_div(timestamp_ms as int, m);
    }
}

/// A value goes stale when its time has passed since it was updated, to the
/// nanosecond, and the time left counts the whole milliseconds until then; without a
/// timeout, which a setting of zero means, it never does.
pub proof fn law_value_goes_stale(setting_ms: u16, updated_ns: u64, now_ns: u64)
    ensures
        setting_ms == 0 ==> !is_stale(configured_stale_timeout(setting_ms), updated_ns, now_ns),
        setting_ms > 0 ==> (is_stale(configured_stale_timeout(setting_ms), updated_ns, now_ns)
            <==> now_ns >= updated_ns + setting_ms * 1_000_000),
        setting_ms > 0 ==> configured_stale_timeout(setting_ms) == Some(setting_ms as u64),
        ({
            let left = until_stale(setting_ms as u64, updated_ns, now_ns);
            let deadline = updated_ns + setting_ms * 1_000_000;
            &&& now_ns >= deadline ==> left == 0
            &&& now_ns < deadline ==> now_ns + left * 1_000_000 <= deadline < now_ns + (left + 1)
                * 1_000_000
        }),
{
}

/// What is sent for an LED depends on its own color alone: each channel is corrected,
/// and then scaled by the brightness in steps of a 256th.
pub proof fn law_sent_colors(leds: Seq<RGB8>, brightness: u8, i: int)
    requires
        0 <= i < leds.len(),
    ensures
        sent(leds, brightness).len() == leds.len(),
        ({
            let out = sent(leds, brightness)[i];
            let red = gamma_channel(leds[i].r) * (brightness + 1);
            let green = gamma_channel(leds[i].g) * (brightness + 1);
            let blue = gamma_channel(leds[i].b) * (brightness + 1);
            &&& 256 * out.r <= red < 256 * out.r + 256
            &&& 256 * out.g <= green < 256 * out.g + 256
            &&& 256 * out.b <= blue < 256 * out.b + 256
        }),
{
    lemma_dimmed(gamma_channel(leds[i].r), brightness);
    lemma_dimmed(gamma_channel(leds[i].g), brightness);
    lemma_dimmed(gamma_channel(leds[i].b), brightness);
}

proof fn lemma_dimmed(channel: u8, brightness: u8)
    ensures
        256 * dimmed_channel(channel, brightness) <= channel * (brightness + 1) < 256
            * dimmed_channel(channel, brightness) + 256,
{
    assert(0 <= channel * (brightness + 1) <= 255 * 256) by (nonlinear_arith);
}

} // verus!
