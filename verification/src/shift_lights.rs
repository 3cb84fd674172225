//! Shift light rendering logic.
//!
//! Determines which LEDs to light based on RPM and LED rule configuration. It
//! is hardware-agnostic.

use crate::colors::{black, solid, ColorStops, Gradient, LedIndices, RGB8};
use vstd::arithmetic::div_mod::{
    lemma_add_mod_noop, lemma_div_is_ordered, lemma_div_multiples_vanish, lemma_fundamental_div_mod,
    lemma_mod_bound, lemma_mul_mod_noop_left, lemma_small_mod,
};
use vstd::arithmetic::mul::{lemma_mul_inequality, lemma_mul_is_commutative};
use vstd::prelude::*;

verus! {

/// LED rule configuration for shift lights.
///
/// When only `rpm_lower` is set, all LEDs in the range light up when RPM
/// reaches it. When `rpm_upper` is also set, LEDs light up proportionally
/// within the RPM range. `start_led` can be greater than `end_led` for mirror
/// effect (LEDs light from outside in).
///
/// Multiple colors create a gradient across the lit LEDs.
#[derive(Debug, Clone)]
pub struct LedRule {
    pub name: String,
    /// Lower RPM bound (inclusive)
    pub rpm_lower: u32,
    /// Optional upper RPM bound for proportional LED lighting
    pub rpm_upper: Option<u32>,
    pub start_led: usize,
    pub end_led: usize,
    /// Colors for the LEDs - multiple colors create a gradient
    pub colors: ColorStops,
    pub blink: bool,
    pub blink_ms: u32,
}

/// The colors of a rule that names none: red.
pub fn default_colors() -> (r: ColorStops)
    ensures
        r@ == seq![RGB8 { r: 255, g: 0, b: 0 }],
{
    let colors: [RGB8; 1] = [RGB8::new(255, 0, 0)];
    assert(colors@ =~= seq![RGB8 { r: 255, g: 0, b: 0 }]);
    ColorStops::of(colors.as_slice())
}

/// The blink interval of a rule that names none.
pub fn default_blink_ms() -> (r: u32)
    ensures
        r == 500,
{
    500
}

/// Result of computing LED state from RPM
#[derive(Debug, Clone)]
pub struct LedState {
    /// RGB values for each LED
    pub leds: Vec<RGB8>,
    /// Whether any blinking rule is active
    pub has_blinking: bool,
}

/// A single LED rule with all values needed at render time pre-computed.
///
/// Created by [`bake_led_rules`] at configuration time. The clamped
/// `start`/`end` and `led_count` fields avoid per-frame bounds checking, and
/// `gradient` holds the pre-interpolated colors so that rendering is a lookup.
#[derive(Debug, Clone)]
pub struct BakedLedRule {
    pub rpm_lower: u32,
    pub rpm_upper: Option<u32>,
    /// First LED index, clamped to `[0, total_leds - 1]`.
    pub start: usize,
    /// Last LED index, clamped to `[0, total_leds - 1]`.
    pub end: usize,
    /// Number of LEDs in the range (inclusive), after clamping.
    pub led_count: usize,
    pub blink: bool,
    pub blink_ms: u32,
    /// Pre-computed RGB color for each LED position in the range.
    /// Index 0 corresponds to `start`, index 1 to the next LED toward `end`, etc.
    pub gradient: Gradient,
}

/// Collection of baked LED rules, ready for per-frame rendering.
///
/// Created via [`bake_led_rules`] when configuration changes, then passed to
/// [`compute_led_state`] on every render frame.
#[derive(Debug, Clone)]
pub struct BakedLedRules {
    pub rules: Vec<BakedLedRule>,
    pub total_leds: usize,
}

impl BakedLedRule {
    /// The count is that of the range, and the gradient has a color for each LED.
    pub open spec fn well_formed(&self) -> bool {
        &&& self.led_count == span(self.start as int, self.end as int)
        &&& self.gradient@.len() == self.led_count
    }

    /// The range lies on the strip; on an empty one it is at 0.
    pub open spec fn lies_on(&self, total_leds: usize) -> bool {
        &&& self.start < total_leds || self.start == 0
        &&& self.end < total_leds || self.end == 0
    }
}

impl BakedLedRules {
    /// Every rule is well-formed and lies on the strip.
    pub open spec fn well_formed(&self) -> bool {
        forall|i: int|
            0 <= i < self.rules@.len() ==> (#[trigger] self.rules@[i]).well_formed()
                && self.rules@[i].lies_on(self.total_leds)
    }
}

/// The number of LEDs from one to another, both counted.
pub open spec fn span(start: int, end: int) -> int {
    if start <= end {
        end - start + 1
    } else {
        start - end + 1
    }
}

/// An LED index on a strip of the given length.
pub open spec fn clamped(led: usize, total_leds: usize) -> int {
    let max_led = if total_leds == 0 {
        0
    } else {
        total_leds - 1
    };
    if led < max_led {
        led as int
    } else {
        max_led
    }
}

// ---------------------------------------------------------------------------
// Baking
// ---------------------------------------------------------------------------

/// The colors of a range that needs no blending: none for no LED, black for no
/// color, the first color for a single color or a single LED.
pub open spec fn plain_gradient(colors: Seq<RGB8>, total_positions: nat) -> Option<Seq<RGB8>> {
    if total_positions == 0 {
        Some(Seq::empty())
    } else if colors.len() == 0 {
        Some(Seq::new(total_positions, |i: int| black()))
    } else if colors.len() == 1 || total_positions == 1 {
        Some(Seq::new(total_positions, |i: int| colors[0]))
    } else {
        None
    }
}

/// The colors of a range that needs no blending, or `None` where the colors of
/// the range lie between those of the rule.
pub fn plain_gradient_colors(colors: &[RGB8], total_positions: usize) -> (r: Option<Gradient>)
    ensures
        match r {
            Some(gradient) => plain_gradient(colors@, total_positions as nat) == Some(gradient@),
            None => plain_gradient(colors@, total_positions as nat) is None,
        },
{
    if total_positions == 0 {
        return Some(Gradient::new());
    }
    if colors.len() == 0 {
        return Some(Gradient::from_elem(RGB8::default(), total_positions));
    }
    if colors.len() == 1 || total_positions == 1 {
        return Some(Gradient::from_elem(colors[0], total_positions));
    }
    None
}

/// The baked form of a rule on a strip. `blend` is what its colors blend into
/// over the LEDs of the range.
pub open spec fn is_baked(
    rule: LedRule,
    total_leds: usize,
    blend: Seq<RGB8>,
    baked: BakedLedRule,
) -> bool {
    let start = clamped(rule.start_led, total_leds);
    let end = clamped(rule.end_led, total_leds);
    &&& baked.rpm_lower == rule.rpm_lower
    &&& baked.rpm_upper == rule.rpm_upper
    &&& baked.start == start
    &&& baked.end == end
    &&& baked.led_count == span(start, end)
    &&& baked.blink == rule.blink
    &&& baked.blink_ms == rule.blink_ms
    &&& baked.gradient@ == match plain_gradient(rule.colors@, span(start, end) as nat) {
        Some(colors) => colors,
        None => blend,
    }
}

/// The colors that a rule blends into are as many as the LEDs that it covers,
/// where blended colors are needed.
pub open spec fn blend_fits(rule: LedRule, total_leds: usize, blend: Seq<RGB8>) -> bool {
    let count = span(clamped(rule.start_led, total_leds), clamped(rule.end_led, total_leds));
    plain_gradient(rule.colors@, count as nat) is None ==> blend.len() == count
}

/// There is a blend for each rule, and it fits.
pub open spec fn blends_fit(rules: Seq<LedRule>, total_leds: usize, blends: Seq<Vec<RGB8>>) -> bool {
    &&& blends.len() == rules.len()
    &&& forall|i: int|
        0 <= i < rules.len() ==> blend_fits(#[trigger] rules[i], total_leds, blends[i]@)
}

/// The number of LEDs that a rule covers on a strip.
pub fn covered_leds(rule: &LedRule, total_leds: usize) -> (r: usize)
    ensures
        r == span(clamped(rule.start_led, total_leds), clamped(rule.end_led, total_leds)),
{
    let max_led: usize = if total_leds == 0 {
        0
    } else {
        total_leds - 1
    };
    let start: usize = if rule.start_led < max_led {
        rule.start_led
    } else {
        max_led
    };
    let end: usize = if rule.end_led < max_led {
        rule.end_led
    } else {
        max_led
    };
    if start <= end {
        end - start + 1
    } else {
        start - end + 1
    }
}

/// Bake a set of LED rules for fast per-frame rendering.
///
/// Call this once when configuration changes. The returned [`BakedLedRules`]
/// is then passed to [`compute_led_state`] on every render frame. This looks
/// up gradient colors, clamps LED indices to `total_leds`, and caches
/// `led_count` so that rendering avoids redundant work.
///
/// `blends` holds, for each rule, its colors blended over [`covered_leds`]
/// positions; it is used where a rule has several colors and several LEDs.
pub fn bake_led_rules(rules: &[LedRule], total_leds: usize, blends: &[Vec<RGB8>]) -> (r:
    BakedLedRules)
    requires
        blends_fit(rules@, total_leds, blends@),
    ensures
        r.well_formed(),
        r.total_leds == total_leds,
        r.rules@.len() == rules@.len(),
        forall|i: int|
            0 <= i < rules@.len() ==> is_baked(
                rules@[i],
                total_leds,
                blends@[i]@,
                #[trigger] r.rules@[i],
            ),
{
    let max_led: usize = if total_leds == 0 {
        0
    } else {
        total_leds - 1
    };
    let mut baked: Vec<BakedLedRule> = Vec::new();
    let mut i: usize = 0;
    while i < rules.len()
        invariant
            i <= rules@.len(),
            blends_fit(rules@, total_leds, blends@),
            max_led == if total_leds == 0 {
                0
            } else {
                total_leds - 1
            },
            baked@.len() == i,
            forall|j: int|
                0 <= j < i ==> is_baked(
                    rules@[j],
                    total_leds,
                    blends@[j]@,
                    #[trigger] baked@[j],
                ) && baked@[j].well_formed() && baked@[j].lies_on(total_leds),
        decreases rules@.len() - i,
    {
        let rule: &LedRule = &rules[i];
        assert(blend_fits(rules@[i as int], total_leds, blends@[i as int]@));
        let start: usize = if rule.start_led < max_led {
            rule.start_led
        } else {
            max_led
        };
        let end: usize = if rule.end_led < max_led {
            rule.end_led
        } else {
            max_led
        };
        let led_count: usize = covered_leds(rule, total_leds);
        let gradient: Gradient = match plain_gradient_colors(rule.colors.colors(), led_count) {
            Some(gradient) => gradient,
            None => Gradient::of(blends[i].as_slice()),
        };
        baked.push(
            BakedLedRule {
                rpm_lower: rule.rpm_lower,
                rpm_upper: rule.rpm_upper,
                start,
                end,
                led_count,
                blink: rule.blink,
                blink_ms: rule.blink_ms,
                gradient,
            },
        );
        i = i + 1;
    }
    BakedLedRules { rules: baked, total_leds }
}

// ---------------------------------------------------------------------------
// Rendering
// ---------------------------------------------------------------------------

/// A blinking rule is in its "on" phase. An interval of zero is always on.
pub open spec fn blink_on(timestamp_ms: u64, blink_ms: u32) -> bool {
    blink_ms == 0 || (timestamp_ms as int / blink_ms as int) % 2 == 0
}

/// Compute whether a blinking rule is in its "on" phase
pub fn is_blink_on(timestamp_ms: u64, blink_ms: u32) -> (r: bool)
    ensures
        r == blink_on(timestamp_ms, blink_ms),
{
    // Avoid division by zero
    if blink_ms == 0 {
        return true;
    }
    (timestamp_ms / blink_ms as u64) % 2 == 0
}

/// How many LEDs of a rule are lit: all of them, or, with an upper bound, the
/// first one at the lower bound and one more for each equal part of the range.
pub open spec fn active_count(rule: BakedLedRule, rpm: u32) -> int {
    match rule.rpm_upper {
        None => rule.led_count as int,
        Some(upper) => if upper <= rule.rpm_lower {
            rule.led_count as int
        } else {
            let rpm_range = upper - rule.rpm_lower;
            let above = if rpm < rule.rpm_lower {
                0
            } else {
                rpm - rule.rpm_lower
            };
            let rpm_progress = if above < rpm_range {
                above
            } else {
                rpm_range
            };
            let count = 1 + (rpm_progress * rule.led_count) / rpm_range;
            if count < rule.led_count {
                count
            } else {
                rule.led_count as int
            }
        },
    }
}

/// The place of an LED within the range of a rule, counted from its start
/// toward its end.
pub open spec fn place_of(rule: BakedLedRule, led: int) -> int {
    if rule.start <= rule.end {
        led - rule.start
    } else {
        rule.start - led
    }
}

/// Compute which LED indices should be lit for a baked rule.
///
/// Handles both forward ranges (start < end) and reverse ranges (start > end)
/// for mirror effects. When `rpm_upper` is set, computes proportional lighting.
pub fn compute_leds_to_light(rpm: u32, rule: &BakedLedRule) -> (r: LedIndices)
    requires
        rule.well_formed(),
    ensures
        r@.len() == active_count(*rule, rpm),
        1 <= r@.len() <= rule.led_count,
        forall|i: int| 0 <= i < r@.len() ==> place_of(*rule, (#[trigger] r@[i]) as int) == i,
{
    let led_count: usize = rule.led_count;
    let count: usize = match rule.rpm_upper {
        None => led_count,
        Some(upper) => if upper <= rule.rpm_lower {
            led_count
        } else {
            // Divide the RPM range into `led_count` equal buckets; each bucket
            // adds one more LED
            let rpm_range: u32 = upper - rule.rpm_lower;
            let above: u32 = if rpm < rule.rpm_lower {
                0
            } else {
                rpm - rule.rpm_lower
            };
            let rpm_progress: u32 = if above < rpm_range {
                above
            } else {
                rpm_range
            };
            proof {
                lemma_progress(rpm_progress as int, rpm_range as int, led_count as int);
            }
            let scaled: u128 = rpm_progress as u128 * led_count as u128;
            let buckets: u128 = scaled / rpm_range as u128;
            if buckets < led_count as u128 - 1 {
                1 + buckets as usize
            } else {
                led_count
            }
        },
    };
    let mut lit = LedIndices::new();
    let mut i: usize = 0;
    while i < count
        invariant
            i <= count <= led_count,
            rule.well_formed(),
            led_count == rule.led_count,
            lit@.len() == i,
            forall|j: int| 0 <= j < i ==> place_of(*rule, (#[trigger] lit@[j]) as int) == j,
        decreases count - i,
    {
        if rule.start <= rule.end {
            // Forward: light from start toward end
            lit.push(rule.start + i);
        } else {
            // Reverse: light from start toward end (going down)
            lit.push(rule.start - i);
        }
        i = i + 1;
    }
    lit
}

proof fn lemma_progress(progress: int, range: int, count: int)
    requires
        0 <= progress <= range <= u32::MAX,
        0 < range,
        0 < count <= usize::MAX,
    ensures
        0 <= progress * count <= u32::MAX * count,
        progress * count <= u128::MAX,
        0 <= (progress * count) / range <= count,
{
    lemma_mul_inequality(0, progress, count);
    lemma_mul_inequality(progress, range, count);
    lemma_mul_inequality(range, u32::MAX as int, count);
    lemma_div_is_ordered(0, progress * count, range);
    lemma_div_is_ordered(progress * count, range * count, range);
    lemma_div_multiples_vanish(count, range);
    lemma_mul_is_commutative(range, count);
    assert(0int / range == 0) by (nonlinear_arith)
        requires
            range > 0,
    ;
}

/// The color at a place of a gradient; black behind its end.
pub open spec fn gradient_at(gradient: Seq<RGB8>, place: int) -> RGB8 {
    if place < gradient.len() {
        gradient[place]
    } else {
        black()
    }
}

/// A rule shows: its bound is reached, and it is not in the "off" phase of
/// its blinking.
pub open spec fn shows(rule: BakedLedRule, rpm: u32, timestamp_ms: u64) -> bool {
    rpm >= rule.rpm_lower && (rule.blink ==> blink_on(timestamp_ms, rule.blink_ms))
}

/// What one rule makes of a strip: its lit LEDs take their gradient colors, the
/// others stay.
pub open spec fn painted(leds: Seq<RGB8>, rule: BakedLedRule, rpm: u32) -> Seq<RGB8> {
    Seq::new(
        leds.len(),
        |led: int|
            if 0 <= place_of(rule, led) < active_count(rule, rpm) {
                gradient_at(rule.gradient@, place_of(rule, led))
            } else {
                leds[led]
            },
    )
}

/// What rules make of a strip, applied in order, so that later ones override.
pub open spec fn after_rules(
    leds: Seq<RGB8>,
    rules: Seq<BakedLedRule>,
    rpm: u32,
    timestamp_ms: u64,
) -> Seq<RGB8>
    decreases rules.len(),
{
    if rules.len() == 0 {
        leds
    } else {
        let before = after_rules(leds, rules.drop_last(), rpm, timestamp_ms);
        if shows(rules.last(), rpm, timestamp_ms) {
            painted(before, rules.last(), rpm)
        } else {
            before
        }
    }
}

/// Some blinking rule is active, in whichever phase.
pub open spec fn any_blinking(rules: Seq<BakedLedRule>, rpm: u32) -> bool {
    exists|i: int|
        0 <= i < rules.len() && (#[trigger] rules[i]).blink && rpm >= rules[i].rpm_lower
}

/// Apply all matching rules to a strip, in order.
pub fn apply_rules(
    rpm: u32,
    baked: &BakedLedRules,
    timestamp_ms: u64,
    leds: &mut Vec<RGB8>,
    has_blinking: &mut bool,
)
    requires
        baked.well_formed(),
    ensures
        final(leds)@ == after_rules(old(leds)@, baked.rules@, rpm, timestamp_ms),
        final(leds)@.len() == old(leds)@.len(),
        *final(has_blinking) == (*old(has_blinking) || any_blinking(baked.rules@, rpm)),
{
    let mut k: usize = 0;
    assert(baked.rules@.take(0) =~= Seq::empty());
    while k < baked.rules.len()
        invariant
            k <= baked.rules@.len(),
            baked.well_formed(),
            leds@ == after_rules(old(leds)@, baked.rules@.take(k as int), rpm, timestamp_ms),
            leds@.len() == old(leds)@.len(),
            *has_blinking == (*old(has_blinking) || any_blinking(
                baked.rules@.take(k as int),
                rpm,
            )),
        decreases baked.rules@.len() - k,
    {
        let rule: &BakedLedRule = &baked.rules[k];
        let ghost front = baked.rules@.take(k as int);
        let ghost upto = baked.rules@.take(k + 1);
        proof {
            assert(upto.drop_last() =~= front);
            assert(upto.last() == *rule);
            assert forall|i: int| 0 <= i < front.len() implies front[i] == upto[i] by {}
            assert(upto[k as int] == *rule);
            assert(any_blinking(upto, rpm) == (any_blinking(front, rpm) || (rule.blink && rpm
                >= rule.rpm_lower)));
        }
        k = k + 1;
        if rpm < rule.rpm_lower {
            continue;
        }
        if rule.blink {
            *has_blinking = true;
            // Skip this rule during its "off" phase
            if !is_blink_on(timestamp_ms, rule.blink_ms) {
                continue;
            }
        }
        paint(leds, rule, rpm);
    }
    assert(baked.rules@.take(k as int) =~= baked.rules@);
}

/// Give the lit LEDs of a rule their colors.
fn paint(leds: &mut Vec<RGB8>, rule: &BakedLedRule, rpm: u32)
    requires
        rule.well_formed(),
    ensures
        final(leds)@ == painted(old(leds)@, *rule, rpm),
{
    let lit = compute_leds_to_light(rpm, rule);
    let order: &[usize] = lit.as_slice();
    let gradient: &[RGB8] = rule.gradient.colors();
    let mut i: usize = 0;
    while i < order.len()
        invariant
            i <= order@.len(),
            order@.len() == active_count(*rule, rpm),
            forall|j: int|
                0 <= j < order@.len() ==> place_of(*rule, (#[trigger] order@[j]) as int) == j,
            gradient@ == rule.gradient@,
            leds@.len() == old(leds)@.len(),
            forall|led: int|
                0 <= led < leds@.len() ==> #[trigger] leds@[led] == if 0 <= place_of(*rule, led)
                    < i {
                    gradient_at(gradient@, place_of(*rule, led))
                } else {
                    old(leds)@[led]
                },
        decreases order@.len() - i,
    {
        let led: usize = order[i];
        assert(place_of(*rule, order@[i as int] as int) == i);
        if led < leds.len() {
            let color: RGB8 = if i < gradient.len() {
                gradient[i]
            } else {
                RGB8::default()
            };
            leds.set(led, color);
        }
        i = i + 1;
    }
    assert(leds@ =~= painted(old(leds)@, *rule, rpm));
}

/// Compute LED colors from baked rule data.
///
/// This is the per-frame render function.
///
/// All matching rules (where `rpm >= rule.rpm_lower`) are applied cumulatively
/// in order. This allows different LED ranges to have different colors at the
/// same RPM. Later rules override earlier ones for overlapping LED ranges.
///
/// When a rule has `rpm_upper` set, LEDs light up proportionally:
/// - At `rpm_lower`: first LED lights up
/// - At `rpm_upper`: all LEDs light up
/// - Values in between light up a proportional number of LEDs
///
/// Blinking rules independently compute their on/off state based on the
/// provided timestamp, allowing multiple blinking rules with different
/// intervals to coexist.
pub fn compute_led_state(rpm: u32, baked: &BakedLedRules, timestamp_ms: u64) -> (r: LedState)
    requires
        baked.well_formed(),
    ensures
        r.leds@ == after_rules(
            Seq::new(baked.total_leds as nat, |i: int| black()),
            baked.rules@,
            rpm,
            timestamp_ms,
        ),
        r.leds@.len() == baked.total_leds,
        r.has_blinking == any_blinking(baked.rules@, rpm),
{
    let mut leds: Vec<RGB8> = solid(RGB8::default(), baked.total_leds);
    let mut has_blinking = false;
    apply_rules(rpm, baked, timestamp_ms, &mut leds, &mut has_blinking);
    LedState { leds, has_blinking }
}

// ---------------------------------------------------------------------------
// Render interval
// ---------------------------------------------------------------------------

/// The greatest common divisor, by Euclid's algorithm.
pub open spec fn gcd(a: nat, b: nat) -> nat
    decreases b,
{
    if b == 0 {
        a
    } else {
        gcd(b, a % b)
    }
}

/// The greatest common divisor of two numbers that are not both zero divides
/// both of them, and each common divisor of theirs is at most as large.
pub proof fn law_gcd(a: nat, b: nat)
    requires
        a > 0 || b > 0,
    ensures
        gcd(a, b) > 0,
        a % gcd(a, b) == 0,
        b % gcd(a, b) == 0,
        forall|d: nat| #![trigger a % d] d > 0 && a % d == 0 && b % d == 0 ==> d <= gcd(a, b),
    decreases b,
{
    if b == 0 {
        assert(a % a == 0) by (nonlinear_arith)
            requires
                a > 0,
        ;
        lemma_small_mod(0, a);
        assert forall|d: nat| #![trigger a % d] d > 0 && a % d == 0 implies d <= a by {
            if d > a {
                lemma_small_mod(a, d);
            }
        }
    } else {
        let g = gcd(b, a % b);
        law_gcd(b, a % b);
        lemma_combined_divisor(a, b, g);
        assert forall|d: nat| #![trigger a % d] d > 0 && a % d == 0 && b % d == 0 implies d <= g by {
            lemma_remainder_divisor(a, b, d);
            assert(b % d == 0);
        }
    }
}

/// What divides a divisor and the remainder divides the dividend.
proof fn lemma_combined_divisor(a: nat, b: nat, d: nat)
    requires
        b > 0,
        d > 0,
        b % d == 0,
        (a % b) % d == 0,
    ensures
        a % d == 0,
{
    let q = a as int / b as int;
    lemma_fundamental_div_mod(a as int, b as int);
    lemma_mul_mod_noop_left(b as int, q, d as int);
    lemma_add_mod_noop(b * q, (a % b) as int, d as int);
    lemma_small_mod(0, d);
    assert(0 * q == 0);
}

/// What divides dividend and divisor divides the remainder.
proof fn lemma_remainder_divisor(a: nat, b: nat, d: nat)
    requires
        b > 0,
        d > 0,
        a % d == 0,
        b % d == 0,
    ensures
        (a % b) % d == 0,
{
    let q = a as int / b as int;
    lemma_fundamental_div_mod(a as int, b as int);
    lemma_mul_mod_noop_left(b as int, q, d as int);
    lemma_add_mod_noop(b * q, (a % b) as int, d as int);
    lemma_small_mod(0, d);
    assert(0 * q == 0);
    lemma_mod_bound((a % b) as int, d as int);
    lemma_small_mod(((a % b) % d) as nat, d);
}

/// `num_integer::Integer::gcd` for `u32`: the greatest common divisor; that of
/// zero and a number is the number.
#[verifier::external_body]
fn gcd_u32(a: u32, b: u32) -> (r: u32)
    ensures
        r == gcd(a as nat, b as nat),
{
    num_integer::Integer::gcd(&a, &b)
}

/// The blink intervals of the blinking rules.
pub open spec fn blink_intervals(rules: Seq<LedRule>) -> Seq<nat>
    decreases rules.len(),
{
    if rules.len() == 0 {
        Seq::empty()
    } else {
        let before = blink_intervals(rules.drop_last());
        let rule = rules.last();
        if rule.blink && rule.blink_ms > 0 {
            before.push(rule.blink_ms as nat)
        } else {
            before
        }
    }
}

/// The greatest common divisor of several numbers.
pub open spec fn gcd_of(numbers: Seq<nat>) -> nat
    decreases numbers.len(),
{
    if numbers.len() == 0 {
        0
    } else if numbers.len() == 1 {
        numbers[0]
    } else {
        gcd(gcd_of(numbers.drop_last()), numbers.last())
    }
}

/// How often to render rules: at each point where a blink phase may change, but
/// not more often than every 10 ms.
pub open spec fn render_interval(rules: Seq<LedRule>) -> Option<nat> {
    let intervals = blink_intervals(rules);
    if intervals.len() == 0 {
        None
    } else if gcd_of(intervals) < 10 {
        Some(10)
    } else {
        Some(gcd_of(intervals))
    }
}

/// Compute the optimal render interval for smooth blinking
///
/// This function finds the GCD of all blink intervals to ensure we hit all
/// blink transitions accurately when rendering at wallclock-aligned times.
///
/// Returns `Some(interval_ms)` if blinking rules exist, `None` if no blinking
/// (meaning rendering only needs to happen when RPM changes)
pub fn compute_render_interval(rules: &[LedRule]) -> (r: Option<u32>)
    ensures
        match r {
            Some(interval_ms) => render_interval(rules@) == Some(interval_ms as nat)
                && interval_ms >= 10,
            None => render_interval(rules@) is None,
        },
{
    let mut combined: Option<u32> = None;
    let mut i: usize = 0;
    assert(rules@.take(0) =~= Seq::empty());
    while i < rules.len()
        invariant
            i <= rules@.len(),
            match combined {
                None => blink_intervals(rules@.take(i as int)).len() == 0,
                Some(g) => blink_intervals(rules@.take(i as int)).len() > 0 && g == gcd_of(
                    blink_intervals(rules@.take(i as int)),
                ),
            },
        decreases rules@.len() - i,
    {
        let rule: &LedRule = &rules[i];
        proof {
            let upto = rules@.take(i + 1);
            assert(upto.drop_last() =~= rules@.take(i as int));
            let before = blink_intervals(rules@.take(i as int));
            assert(before.push(rule.blink_ms as nat).drop_last() =~= before);
        }
        if rule.blink && rule.blink_ms > 0 {
            combined = match combined {
                None => Some(rule.blink_ms),
                Some(g) => Some(gcd_u32(g, rule.blink_ms)),
            };
        }
        i = i + 1;
    }
    assert(rules@.take(i as int) =~= rules@);
    match combined {
        None => None,
        // Clamp to at least 10ms to avoid burning CPU
        Some(g) => if g < 10 {
            Some(10)
        } else {
            Some(g)
        },
    }
}

// ---------------------------------------------------------------------------
// Laws
// ---------------------------------------------------------------------------

/// With an upper bound above the lower one, the first LED lights up at the
/// lower bound, all of them are lit from the upper bound on, and more RPM never
/// lights fewer.
pub proof fn law_proportional_lighting(rule: BakedLedRule, upper: u32, rpm: u32, more: u32)
    requires
        rule.well_formed(),
        rule.rpm_upper == Some(upper),
        rule.rpm_lower < upper,
        rpm <= more,
    ensures
        active_count(rule, rule.rpm_lower) == 1,
        rpm >= upper ==> active_count(rule, rpm) == rule.led_count,
        active_count(rule, rpm) <= active_count(rule, more),
{
    let range = upper - rule.rpm_lower;
    let count = rule.led_count as int;
    assert(0 * count == 0);
    assert(0int / range == 0) by (nonlinear_arith)
        requires
            range > 0,
    ;
    lemma_mul_is_commutative(range, count);
    lemma_div_multiples_vanish(count, range);
    let low = if rpm < rule.rpm_lower {
        0
    } else if rpm - rule.rpm_lower < range {
        rpm - rule.rpm_lower
    } else {
        range
    };
    let high = if more < rule.rpm_lower {
        0
    } else if more - rule.rpm_lower < range {
        more - rule.rpm_lower
    } else {
        range
    };
    lemma_mul_inequality(low, high, count);
    lemma_div_is_ordered(low * count, high * count, range);
}

/// Each LED that a baked rule lights lies on the strip, and the rule's gradient
/// holds a color for it.
pub proof fn law_lit_leds_have_colors(baked: BakedLedRules, i: int, rpm: u32, led: int)
    requires
        baked.well_formed(),
        baked.total_leds > 0,
        0 <= i < baked.rules@.len(),
        0 <= place_of(baked.rules@[i], led) < active_count(baked.rules@[i], rpm),
    ensures
        0 <= led < baked.total_leds,
        place_of(baked.rules@[i], led) < baked.rules@[i].gradient@.len(),
        gradient_at(baked.rules@[i].gradient@, place_of(baked.rules@[i], led))
            == baked.rules@[i].gradient@[place_of(baked.rules@[i], led)],
{
}

/// Later rules override earlier ones: an LED that the last rule lights shows
/// the last rule's color, whatever the rules before it did.
pub proof fn law_later_rules_override(
    leds: Seq<RGB8>,
    rules: Seq<BakedLedRule>,
    last: BakedLedRule,
    rpm: u32,
    timestamp_ms: u64,
    led: int,
)
    requires
        0 <= led < leds.len(),
        shows(last, rpm, timestamp_ms),
        0 <= place_of(last, led) < active_count(last, rpm),
    ensures
        after_rules(leds, rules.push(last), rpm, timestamp_ms)[led] == gradient_at(
            last.gradient@,
            place_of(last, led),
        ),
{
    assert(rules.push(last).drop_last() =~= rules);
    lemma_rules_keep_length(leds, rules, rpm, timestamp_ms);
}

/// While a blinking rule is off, the strip shows what is underneath: what it
/// would show without that rule.
pub proof fn law_blink_off_shows_underneath(
    leds: Seq<RGB8>,
    before: Seq<BakedLedRule>,
    blinking: BakedLedRule,
    behind: Seq<BakedLedRule>,
    rpm: u32,
    timestamp_ms: u64,
)
    requires
        blinking.blink,
        !blink_on(timestamp_ms, blinking.blink_ms),
    ensures
        after_rules(leds, before.push(blinking) + behind, rpm, timestamp_ms) == after_rules(
            leds,
            before + behind,
            rpm,
            timestamp_ms,
        ),
    decreases behind.len(),
{
    if behind.len() == 0 {
        assert(before.push(blinking) + behind =~= before.push(blinking));
        assert(before + behind =~= before);
        assert(before.push(blinking).drop_last() =~= before);
    } else {
        law_blink_off_shows_underneath(
            leds,
            before,
            blinking,
            behind.drop_last(),
            rpm,
            timestamp_ms,
        );
        assert((before.push(blinking) + behind).drop_last() =~= before.push(blinking)
            + behind.drop_last());
        assert((before + behind).drop_last() =~= before + behind.drop_last());
    }
}

proof fn lemma_rules_keep_length(
    leds: Seq<RGB8>,
    rules: Seq<BakedLedRule>,
    rpm: u32,
    timestamp_ms: u64,
)
    ensures
        after_rules(leds, rules, rpm, timestamp_ms).len() == leds.len(),
    decreases rules.len(),
{
    if rules.len() > 0 {
        lemma_rules_keep_length(leds, rules.drop_last(), rpm, timestamp_ms);
    }
}

/// Below every rule's lower bound the strip stays as it is, and nothing blinks.
pub proof fn law_no_rule_active(
    leds: Seq<RGB8>,
    rules: Seq<BakedLedRule>,
    rpm: u32,
    timestamp_ms: u64,
)
    requires
        forall|i: int| 0 <= i < rules.len() ==> rpm < (#[trigger] rules[i]).rpm_lower,
    ensures
        after_rules(leds, rules, rpm, timestamp_ms) == leds,
        !any_blinking(rules, rpm),
    decreases rules.len(),
{
    if rules.len() > 0 {
        assert(rpm < rules[rules.len() - 1].rpm_lower);
        assert forall|i: int| 0 <= i < rules.drop_last().len() implies rpm < (
        #[trigger] rules.drop_last()[i]).rpm_lower by {
            assert(rules.drop_last()[i] == rules[i]);
        }
        law_no_rule_active(leds, rules.drop_last(), rpm, timestamp_ms);
    }
}

/// The greatest common divisor of positive numbers divides each of them.
pub proof fn law_gcd_of_divides(numbers: Seq<nat>, k: int)
    requires
        forall|i: int| 0 <= i < numbers.len() ==> #[trigger] numbers[i] > 0,
        0 <= k < numbers.len(),
    ensures
        gcd_of(numbers) > 0,
        numbers[k] % gcd_of(numbers) == 0,
    decreases numbers.len(),
{
    if numbers.len() == 1 {
        let n = numbers[0];
        assert(n % n == 0) by (nonlinear_arith)
            requires
                n > 0,
        ;
    } else {
        let front = numbers.drop_last();
        let g = gcd_of(front);
        assert forall|i: int| 0 <= i < front.len() implies #[trigger] front[i] > 0 by {
            assert(front[i] == numbers[i]);
        }
        law_gcd_of_divides(front, 0);
        law_gcd(g, numbers.last());
        if k < front.len() {
            law_gcd_of_divides(front, k);
            let h = gcd(g, numbers.last());
            lemma_divisor_of_divisor(front[k], g, h);
        }
    }
}

/// A divisor of a divisor is a divisor.
proof fn lemma_divisor_of_divisor(n: nat, g: nat, h: nat)
    requires
        g > 0,
        h > 0,
        n % g == 0,
        g % h == 0,
    ensures
        n % h == 0,
{
    lemma_small_mod(0, h);
    lemma_combined_divisor(n, g, h);
}

/// A render interval of more than 10 ms hits every blink transition: each
/// blinking rule's interval is a multiple of it.
pub proof fn law_render_hits_every_transition(rules: Seq<LedRule>, k: int)
    requires
        0 <= k < rules.len(),
        rules[k].blink,
        rules[k].blink_ms > 0,
    ensures
        render_interval(rules) is Some,
        gcd_of(blink_intervals(rules)) >= 10 ==> rules[k].blink_ms as nat
            % render_interval(rules)->0 == 0,
{
    lemma_intervals(rules);
    lemma_interval_index(rules, k);
    let intervals = blink_intervals(rules);
    let j = choose|j: int| 0 <= j < intervals.len() && intervals[j] == rules[k].blink_ms as nat;
    law_gcd_of_divides(intervals, j);
}

proof fn lemma_intervals(rules: Seq<LedRule>)
    ensures
        forall|i: int|
            0 <= i < blink_intervals(rules).len() ==> #[trigger] blink_intervals(rules)[i] > 0,
    decreases rules.len(),
{
    if rules.len() > 0 {
        lemma_intervals(rules.drop_last());
        let before = blink_intervals(rules.drop_last());
        assert forall|i: int| 0 <= i < blink_intervals(rules).len() implies
            #[trigger] blink_intervals(rules)[i] > 0 by {
            if i < before.len() {
                assert(blink_intervals(rules)[i] == before[i]);
            }
        }
    }
}

proof fn lemma_interval_index(rules: Seq<LedRule>, k: int)
    requires
        0 <= k < rules.len(),
        rules[k].blink,
        rules[k].blink_ms > 0,
    ensures
        exists|j: int|
            0 <= j < blink_intervals(rules).len() && #[trigger] blink_intervals(rules)[j]
                == rules[k].blink_ms as nat,
    decreases rules.len(),
{
    let front = rules.drop_last();
    if k == rules.len() - 1 {
        let j = blink_intervals(front).len() as int;
        assert(blink_intervals(rules)[j] == rules[k].blink_ms as nat);
    } else {
        lemma_interval_index(front, k);
        let j = choose|j: int|
            0 <= j < blink_intervals(front).len() && #[trigger] blink_intervals(front)[j]
                == front[k].blink_ms as nat;
        assert(blink_intervals(rules)[j] == rules[k].blink_ms as nat);
    }
}

/// With an upper bound each equal part of the RPM range adds one LED: the LED at a
/// place is lit once that many parts of the range have been reached.
pub proof fn law_each_part_adds_an_led(rule: BakedLedRule, upper: u32, rpm: u32, place: int)
    requires
        rule.rpm_upper == Some(upper),
        rule.rpm_lower < upper,
        rule.rpm_lower <= rpm,
        0 <= place < rule.led_count,
    ensures
        place < active_count(rule, rpm) <==> (rpm - rule.rpm_lower) * rule.led_count >= place * (
        upper - rule.rpm_lower),
{
    let range = upper - rule.rpm_lower;
    let n = rule.led_count as int;
    let above = rpm - rule.rpm_lower;
    let progress = if above < range {
        above
    } else {
        range
    };
    let parts = (progress * n) / range;
    vstd::arithmetic::div_mod::lemma_fundamental_div_mod(progress * n, range);
    vstd::arithmetic::div_mod::lemma_mod_bound(progress * n, range);
    let left = (progress * n) % range;
    assert(place <= parts <==> progress * n >= place * range) by (nonlinear_arith)
        requires
            progress * n == range * parts + left,
            0 <= left < range,
    ;
    if above >= range {
        assert(above * n >= place * range) by (nonlinear_arith)
            requires
                above >= range,
                range > 0,
                0 <= place < n,
        ;
        assert(range * n >= place * range) by (nonlinear_arith)
            requires
                range > 0,
                0 <= place < n,
        ;
    }
}

/// Without an upper bound, or with one that is not above the lower one, a rule lights
/// all of its LEDs.
pub proof fn law_no_bound_lights_all(rule: BakedLedRule, rpm: u32)
    requires
        rule.rpm_upper is None || rule.rpm_upper->0 <= rule.rpm_lower,
    ensures
        active_count(rule, rpm) == rule.led_count,
{
}

/// A rule colors its range from its start toward its end, whichever is the higher:
/// the LED at a place takes the gradient's color of that place if it is lit, and
/// else stays, as do the LEDs outside the range.
pub proof fn law_rule_fills_its_range(
    leds: Seq<RGB8>,
    rule: BakedLedRule,
    rpm: u32,
    place: int,
    led: int,
)
    requires
        rule.well_formed(),
        0 <= led < leds.len(),
        rule.start <= rule.end ==> led == rule.start + place,
        rule.start > rule.end ==> led == rule.start - place,
    ensures
        painted(leds, rule, rpm).len() == leds.len(),
        0 <= place < active_count(rule, rpm) ==> painted(leds, rule, rpm)[led]
            == rule.gradient@[place],
        place < 0 || place >= active_count(rule, rpm) ==> painted(leds, rule, rpm)[led]
            == leds[led],
{
}

/// A rule takes part from its lower bound on: it is then applied on top of those
/// before it, unless it blinks and is in an odd one of its intervals; below the bound
/// it changes nothing.
pub proof fn law_rule_takes_part_from_its_bound(
    leds: Seq<RGB8>,
    rules: Seq<BakedLedRule>,
    rule: BakedLedRule,
    rpm: u32,
    timestamp_ms: u64,
)
    ensures
        ({
            let below = after_rules(leds, rules, rpm, timestamp_ms);
            let off = rule.blink && rule.blink_ms != 0 && (timestamp_ms / rule.blink_ms as u64)
                % 2 == 1;
            after_rules(leds, rules.push(rule), rpm, timestamp_ms) == if rpm >= rule.rpm_lower
                && !off {
                painted(below, rule, rpm)
            } else {
                below
            }
        }),
        after_rules(leds, Seq::empty(), rpm, timestamp_ms) == leds,
{
    assert(rules.push(rule).drop_last() =~= rules);
}

/// A blinking rule is on for its interval and then off for as long, over and over.
pub proof fn law_blink_alternates(timestamp_ms: u64, blink_ms: u32)
    requires
        blink_ms > 0,
        timestamp_ms + blink_ms <= u64::MAX,
    ensures
        blink_on((timestamp_ms + blink_ms) as u64, blink_ms) != blink_on(timestamp_ms, blink_ms),
        timestamp_ms < blink_ms ==> blink_on(timestamp_ms, blink_ms),
{
    let m = blink_ms as int;
    vstd::arithmetic::div_mod::lemma_div_plus_one(timestamp_ms as int, m);
    if timestamp_ms < blink_ms {
        vstd::arithmetic::div_mod::lemma_basic_div(timestamp_ms as int, m);
    }
}

/// Baking keeps what a rule says and holds its ends to the strip; without a color its
/// LEDs are black, with one, or on a single LED, they have the first color, and else
/// the blended ones.
pub proof fn law_baking_keeps_the_rule(
    rule: LedRule,
    total_leds: usize,
    blend: Seq<RGB8>,
    baked: BakedLedRule,
)
    requires
        is_baked(rule, total_leds, blend, baked),
    ensures
        baked.rpm_lower == rule.rpm_lower && baked.rpm_upper == rule.rpm_upper,
        baked.blink == rule.blink && baked.blink_ms == rule.blink_ms,
        baked.start == if rule.start_led < total_leds {
            rule.start_led as int
        } else if total_leds > 0 {
            total_leds - 1
        } else {
            0
        },
        baked.end == if rule.end_led < total_leds {
            rule.end_led as int
        } else if total_leds > 0 {
            total_leds - 1
        } else {
            0
        },
        baked.start <= baked.end ==> baked.led_count == baked.end - baked.start + 1,
        baked.start > baked.end ==> baked.led_count == baked.start - baked.end + 1,
        rule.colors@.len() == 0 ==> baked.gradient@.len() == baked.led_count && forall|i: int|
            0 <= i < baked.led_count ==> #[trigger] baked.gradient@[i] == (RGB8 {
                r: 0,
                g: 0,
                b: 0,
            }),
        rule.colors@.len() == 1 || (rule.colors@.len() > 1 && baked.led_count == 1)
            ==> baked.gradient@.len() == baked.led_count && forall|i: int|
            0 <= i < baked.led_count ==> #[trigger] baked.gradient@[i] == rule.colors@[0],
        rule.colors@.len() > 1 && baked.led_count > 1 ==> baked.gradient@ == blend,
{
}

/// No larger number divides all of several positive ones.
proof fn lemma_gcd_of_is_greatest(numbers: Seq<nat>, d: nat)
    requires
        numbers.len() > 0,
        d > 0,
        forall|i: int| 0 <= i < numbers.len() ==> #[trigger] numbers[i] > 0 && numbers[i] % d == 0,
    ensures
        d <= gcd_of(numbers),
        gcd_of(numbers) % d == 0,
    decreases numbers.len(),
{
    assert(numbers[0] > 0 && numbers[0] % d == 0);
    if numbers.len() == 1 {
        lemma_divisor_is_smaller(numbers[0], d);
    } else {
        let front = numbers.drop_last();
        assert forall|i: int| 0 <= i < front.len() implies #[trigger] front[i] > 0 && front[i] % d
            == 0 by {
            assert(front[i] == numbers[i]);
        }
        lemma_gcd_of_is_greatest(front, d);
        let g = gcd_of(front);
        let last = numbers.last();
        assert(numbers[numbers.len() - 1] == last);
        law_gcd(g, last);
        assert(g % d == 0 && last % d == 0);
        lemma_common_divisor(g, last, d);
    }
}

pub(crate) proof fn lemma_divisor_is_smaller(n: nat, d: nat)
    requires
        n > 0,
        d > 0,
        n % d == 0,
    ensures
        d <= n,
{
    if n < d {
        lemma_small_mod(n, d);
    }
}

/// A common divisor divides the greatest one.
pub(crate) proof fn lemma_common_divisor(a: nat, b: nat, d: nat)
    requires
        d > 0,
        a % d == 0,
        b % d == 0,
    ensures
        gcd(a, b) % d == 0,
    decreases b,
{
    if b > 0 {
        assert((a % b) % d == 0) by {
            vstd::arithmetic::div_mod::lemma_fundamental_div_mod(a as int, b as int);
            vstd::arithmetic::div_mod::lemma_fundamental_div_mod(a as int, d as int);
            vstd::arithmetic::div_mod::lemma_fundamental_div_mod(b as int, d as int);
            let q = a / b;
            let x = a / d;
            let y = b / d;
            let r = a % b;
            assert(r == d * (x - y * q)) by (nonlinear_arith)
                requires
                    a == b * q + r,
                    a == d * x,
                    b == d * y,
            ;
            vstd::arithmetic::div_mod::lemma_mod_multiples_basic((x - y * q) as int, d as int);
            assert(d * (x - y * q) == (x - y * q) * d) by (nonlinear_arith);
        }
        lemma_common_divisor(b, a % b, d);
    }
}

/// The render interval is there exactly if a rule blinks; it is the largest number of
/// milliseconds, from 10 on, that divides every blink interval, and 10 if there is
/// none.
pub proof fn law_render_interval_is_the_largest(rules: Seq<LedRule>, d: nat, k: int)
    requires
        0 <= k < rules.len(),
        rules[k].blink,
        rules[k].blink_ms > 0,
        d >= 10,
        forall|i: int|
            0 <= i < rules.len() && (#[trigger] rules[i]).blink && rules[i].blink_ms > 0
                ==> rules[i].blink_ms as nat % d == 0,
    ensures
        render_interval(rules) is Some,
        d <= render_interval(rules)->0,
        rules[k].blink_ms as nat % render_interval(rules)->0 == 0,
{
    let intervals = blink_intervals(rules);
    lemma_intervals(rules);
    lemma_interval_index(rules, k);
    lemma_intervals_come_from_rules(rules);
    assert forall|i: int| 0 <= i < intervals.len() implies #[trigger] intervals[i] > 0
        && intervals[i] % d == 0 by {
        let j = choose|j: int|
            0 <= j < rules.len() && (#[trigger] rules[j]).blink && rules[j].blink_ms > 0
                && intervals[i] == rules[j].blink_ms as nat;
        assert(rules[j].blink);
    }
    lemma_gcd_of_is_greatest(intervals, d);
    law_render_hits_every_transition(rules, k);
}

/// Rules that do not blink need no rendering in between, and no render interval is
/// below 10 ms.
pub proof fn law_render_interval_needs_blinking(rules: Seq<LedRule>)
    ensures
        (forall|i: int|
            0 <= i < rules.len() ==> !((#[trigger] rules[i]).blink && rules[i].blink_ms > 0))
            ==> render_interval(rules) is None,
        render_interval(rules) is Some ==> render_interval(rules)->0 >= 10,
{
    let intervals = blink_intervals(rules);
    lemma_intervals_come_from_rules(rules);
    if intervals.len() > 0 {
        assert(exists|j: int|
            0 <= j < rules.len() && (#[trigger] rules[j]).blink && rules[j].blink_ms > 0
                && intervals[0] == rules[j].blink_ms as nat);
    }
}

proof fn lemma_intervals_come_from_rules(rules: Seq<LedRule>)
    ensures
        forall|i: int|
            0 <= i < blink_intervals(rules).len() ==> exists|j: int|
                0 <= j < rules.len() && (#[trigger] rules[j]).blink && rules[j].blink_ms > 0
                    && #[trigger] blink_intervals(rules)[i] == rules[j].blink_ms as nat,
    decreases rules.len(),
{
    if rules.len() > 0 {
        let front = rules.drop_last();
        lemma_intervals_come_from_rules(front);
        let before = blink_intervals(front);
        let all = blink_intervals(rules);
        assert forall|i: int| 0 <= i < all.len() implies exists|j: int|
            0 <= j < rules.len() && (#[trigger] rules[j]).blink && rules[j].blink_ms > 0
                && #[trigger] all[i] == rules[j].blink_ms as nat by {
            if i < before.len() {
                assert(all[i] == before[i]);
                let j = choose|j: int|
                    0 <= j < front.len() && (#[trigger] front[j]).blink && front[j].blink_ms > 0
                        && before[i] == front[j].blink_ms as nat;
                assert(rules[j] == front[j]);
            } else {
                assert(rules[rules.len() - 1].blink);
            }
        }
    }
}

/// Every rule that blinks needs rendering in between; where one blinks in less than 10 ms
/// this comes every 10 ms.
pub proof fn law_blinking_needs_rendering(rules: Seq<LedRule>, k: int)
    requires
        0 <= k < rules.len(),
        rules[k].blink,
        rules[k].blink_ms > 0,
    ensures
        render_interval(rules) is Some,
        rules[k].blink_ms < 10 ==> render_interval(rules) == Some(10nat),
{
    lemma_intervals(rules);
    lemma_interval_index(rules, k);
    let intervals = blink_intervals(rules);
    let j = choose|j: int| 0 <= j < intervals.len() && intervals[j] == rules[k].blink_ms as nat;
    assert(intervals[j] == rules[k].blink_ms as nat);
    law_gcd_of_divides(intervals, j);
    if rules[k].blink_ms < 10 {
        lemma_divisor_is_smaller(rules[k].blink_ms as nat, gcd_of(intervals));
    }
}

/// Blinking is reported if a rule that blinks has reached its bound, in whichever phase it
/// is.
pub proof fn law_blinking_is_reported(rules: Seq<BakedLedRule>, rule: BakedLedRule, rpm: u32)
    ensures
        any_blinking(rules.push(rule), rpm) <==> any_blinking(rules, rpm) || rule.blink && rpm
            >= rule.rpm_lower,
        !any_blinking(Seq::empty(), rpm),
{
    let all = rules.push(rule);
    if any_blinking(rules, rpm) {
        let i = choose|i: int|
            0 <= i < rules.len() && (#[trigger] rules[i]).blink && rpm >= rules[i].rpm_lower;
        assert(all[i] == rules[i]);
    }
    if rule.blink && rpm >= rule.rpm_lower {
        assert(all[rules.len() as int] == rule);
    }
    if any_blinking(all, rpm) {
        let i = choose|i: int|
            0 <= i < all.len() && (#[trigger] all[i]).blink && rpm >= all[i].rpm_lower;
        if i < rules.len() {
            assert(rules[i] == all[i]);
        }
    }
}

/// A baked rule counts the LEDs from its start to its end, both among them and in either
/// direction; those beyond the strip are brought to its last LED.
pub proof fn law_baked_rule_counts_its_leds(
    rule: LedRule,
    total_leds: usize,
    blend: Seq<RGB8>,
    baked: BakedLedRule,
)
    requires
        is_baked(rule, total_leds, blend, baked),
        total_leds > 0,
    ensures
        rule.start_led < total_leds ==> baked.start == rule.start_led,
        rule.start_led >= total_leds ==> baked.start == total_leds - 1,
        rule.end_led < total_leds ==> baked.end == rule.end_led,
        rule.end_led >= total_leds ==> baked.end == total_leds - 1,
        baked.start <= baked.end ==> baked.led_count == baked.end - baked.start + 1,
        baked.start >= baked.end ==> baked.led_count == baked.start - baked.end + 1,
        rule.colors@.len() == 0 ==> forall|i: int|
            0 <= i < baked.led_count ==> #[trigger] baked.gradient@[i] == (RGB8 {
                r: 0,
                g: 0,
                b: 0,
            }),
        rule.colors@.len() == 1 ==> forall|i: int|
            0 <= i < baked.led_count ==> #[trigger] baked.gradient@[i] == rule.colors@[0],
        rule.colors@.len() >= 2 && baked.led_count == 1 ==> baked.gradient@ =~= seq![
            rule.colors@[0],
        ],
        rule.colors@.len() >= 2 && baked.led_count >= 2 ==> baked.gradient@ == blend,
{
}

/// Places beyond a gradient have no color.
pub proof fn law_gradients_end(gradient: Seq<RGB8>, place: int)
    requires
        0 <= place,
    ensures
        place < gradient.len() ==> gradient_at(gradient, place) == gradient[place],
        place >= gradient.len() ==> gradient_at(gradient, place) == (RGB8 { r: 0, g: 0, b: 0 }),
{
}

} // verus!
