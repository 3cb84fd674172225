//! LEDs that follow thresholds.

use crate::colors::{black, solid, RGB8};
use crate::leds::NANOS_PER_MS;
use crate::threshold::config::RGB8Color;
use vstd::prelude::*;

verus! {

/// RPM from which a range of LEDs lights up or blinks in a color.
#[derive(Debug, Clone)]
pub struct Threshold {
    pub name: String,
    pub rpm: u32,
    pub start_led: usize,
    /// The last LED of the range
    pub end_led: usize,
    pub color: RGB8Color,
    pub blink: bool,
    pub blink_ms: u32,
}

/// The thresholds that an RPM has reached, in their order.
pub open spec fn reached(thresholds: Seq<Threshold>, rpm: u32) -> Seq<Threshold>
    decreases thresholds.len(),
{
    if thresholds.len() == 0 {
        Seq::empty()
    } else if rpm >= thresholds.last().rpm {
        reached(thresholds.drop_last(), rpm).push(thresholds.last())
    } else {
        reached(thresholds.drop_last(), rpm)
    }
}

/// The threshold that shows: the last one reached or, while that blinks off, the
/// one underneath it.
pub open spec fn showing(thresholds: Seq<Threshold>, rpm: u32, blink_on: bool) -> Option<
    Threshold,
> {
    let all = reached(thresholds, rpm);
    if all.len() == 0 {
        None
    } else if all.last().blink && !blink_on {
        if all.len() >= 2 {
            Some(all[all.len() - 2])
        } else {
            None
        }
    } else {
        Some(all.last())
    }
}

/// The smaller of two numbers.
pub open spec fn smaller(a: int, b: int) -> int {
    if a < b {
        a
    } else {
        b
    }
}

/// A threshold's range lies the right way round, as far as there are LEDs.
pub open spec fn drawable(t: Threshold, total_leds: usize) -> bool {
    &&& t.end_led < usize::MAX
    &&& smaller(t.start_led as int, total_leds as int) <= smaller(
        t.end_led + 1,
        total_leds as int,
    )
}

/// The LEDs that show a threshold, if any.
pub open spec fn drawn(t: Option<Threshold>, total_leds: usize) -> Seq<RGB8> {
    Seq::new(
        total_leds as nat,
        |i: int|
            match t {
                Some(t) => if t.start_led <= i <= t.end_led {
                    RGB8 { r: t.color.r, g: t.color.g, b: t.color.b }
                } else {
                    black()
                },
                None => black(),
            },
    )
}

/// The LED strip and where its blinking stands.
#[derive(Debug, Clone, Copy, PartialEq, Eq, Structural)]
pub struct LedController {
    /// When the blinking last changed (monotonic clock, ns)
    pub last_blink_ns: u64,
    pub blink_state: bool,
}

/// The blinking after an update: it changes when a blinking threshold shows and
/// its time is over.
pub open spec fn blinked(
    c: LedController,
    thresholds: Seq<Threshold>,
    rpm: u32,
    now_ns: u64,
) -> LedController {
    let all = reached(thresholds, rpm);
    let elapsed = if now_ns >= c.last_blink_ns {
        now_ns - c.last_blink_ns
    } else {
        0
    };
    if all.len() > 0 && all.last().blink && elapsed / (NANOS_PER_MS as int) >= all.last().blink_ms {
        LedController { last_blink_ns: now_ns, blink_state: !c.blink_state }
    } else {
        c
    }
}

/// Positions of the last two thresholds that an RPM has reached.
struct Reached {
    last: Option<usize>,
    before: Option<usize>,
}

spec fn is_reached(thresholds: Seq<Threshold>, rpm: u32, r: Reached) -> bool {
    let all = reached(thresholds, rpm);
    &&& r.last is Some <==> all.len() >= 1
    &&& r.before is Some <==> all.len() >= 2
    &&& r.last is Some ==> r.last->0 < thresholds.len() && thresholds[r.last->0 as int]
        == all.last()
    &&& r.before is Some ==> r.before->0 < thresholds.len() && thresholds[r.before->0 as int]
        == all[all.len() - 2]
}

fn find_reached(thresholds: &[Threshold], rpm: u32) -> (r: Reached)
    ensures
        is_reached(thresholds@, rpm, r),
{
    let mut found = Reached { last: None, before: None };
    let mut i: usize = 0;
    assert(thresholds@.take(0) =~= Seq::empty());
    while i < thresholds.len()
        invariant
            i <= thresholds@.len(),
            is_reached(thresholds@.take(i as int), rpm, found),
        decreases thresholds@.len() - i,
    {
        let ghost upto = thresholds@.take(i + 1);
        assert(upto.drop_last() =~= thresholds@.take(i as int));
        assert(upto.last() == thresholds@[i as int]);
        if rpm >= thresholds[i].rpm {
            found = Reached { last: Some(i), before: found.last };
        }
        i = i + 1;
    }
    assert(thresholds@.take(i as int) =~= thresholds@);
    found
}

impl LedController {
    /// A strip that has just been set up.
    pub fn new(now_ns: u64) -> (r: Self)
        ensures
            r == (LedController { last_blink_ns: now_ns, blink_state: false }),
    {
        LedController { last_blink_ns: now_ns, blink_state: false }
    }

    fn blink(&mut self, thresholds: &[Threshold], found: &Reached, now_ns: u64) -> (r: Option<
        usize,
    >)
        requires
            exists|rpm: u32| #[trigger] is_reached(thresholds@, rpm, *found),
        ensures
            forall|rpm: u32| #[trigger]
                is_reached(thresholds@, rpm, *found) ==> {
                    &&& *final(self) == blinked(*old(self), thresholds@, rpm, now_ns)
                    &&& match r {
                        Some(i) => i < thresholds@.len() && showing(
                            thresholds@,
                            rpm,
                            final(self).blink_state,
                        ) == Some(thresholds@[i as int]),
                        None => showing(thresholds@, rpm, final(self).blink_state) is None,
                    }
                },
    {
        match found.last {
            None => None,
            Some(last) => {
                let active: &Threshold = &thresholds[last];
                if active.blink {
                    let elapsed: u64 = now_ns.saturating_sub(self.last_blink_ns);
                    if elapsed as u128 / NANOS_PER_MS >= active.blink_ms as u128 {
                        self.blink_state = !self.blink_state;
                        self.last_blink_ns = now_ns;
                    }
                    if !self.blink_state {
                        return found.before;
                    }
                }
                Some(last)
            },
        }
    }

    /// Whether the threshold that shows next can be drawn.
    pub fn can_update(
        &self,
        rpm: u32,
        thresholds: &[Threshold],
        total_leds: usize,
        now_ns: u64,
    ) -> (r: bool)
        ensures
            r == match showing(
                thresholds@,
                rpm,
                blinked(*self, thresholds@, rpm, now_ns).blink_state,
            ) {
                Some(t) => drawable(t, total_leds),
                None => true,
            },
    {
        let mut next: LedController = *self;
        let found = find_reached(thresholds, rpm);
        match next.blink(thresholds, &found, now_ns) {
            None => true,
            Some(i) => {
                let t: &Threshold = &thresholds[i];
                if t.end_led == usize::MAX {
                    false
                } else {
                    t.start_led <= t.end_led + 1 || total_leds <= t.end_led + 1
                }
            },
        }
    }

    /// The LEDs to show for an RPM.
    pub fn update(
        &mut self,
        rpm: u32,
        thresholds: &[Threshold],
        total_leds: usize,
        now_ns: u64,
    ) -> (r: Vec<RGB8>)
        requires
            showing(
                thresholds@,
                rpm,
                blinked(*old(self), thresholds@, rpm, now_ns).blink_state,
            ) matches Some(t) ==> drawable(t, total_leds),
        ensures
            *final(self) == blinked(*old(self), thresholds@, rpm, now_ns),
            r@ == drawn(showing(thresholds@, rpm, final(self).blink_state), total_leds),
    {
        let found = find_reached(thresholds, rpm);
        let shown: Option<usize> = self.blink(thresholds, &found, now_ns);
        let mut leds: Vec<RGB8> = solid(RGB8::default(), total_leds);
        if let Some(k) = shown {
            let t: &Threshold = &thresholds[k];
            let color: RGB8 = RGB8::from(t.color);
            let start: usize = if t.start_led < total_leds {
                t.start_led
            } else {
                total_leds
            };
            let end: usize = if t.end_led + 1 < total_leds {
                t.end_led + 1
            } else {
                total_leds
            };
            let mut i: usize = start;
            while i < end
                invariant
                    start <= i <= end <= total_leds,
                    leds@.len() == total_leds,
                    forall|j: int|
                        0 <= j < total_leds ==> #[trigger] leds@[j] == if start <= j < i {
                            color
                        } else {
                            black()
                        },
                decreases end - i,
            {
                leds.set(i, color);
                i = i + 1;
            }
        }
        assert(leds@ =~= drawn(showing(thresholds@, rpm, self.blink_state), total_leds));
        leds
    }
}

/// Blink the strip purple 3 times as a boot indicator: the frames to show, each
/// for a quarter of a second.
pub fn boot_animation(total_leds: usize) -> (r: Vec<Vec<RGB8>>)
    ensures
        r@.len() == 6,
        forall|i: int|
            0 <= i < 6 ==> (#[trigger] r@[i])@ == Seq::new(
                total_leds as nat,
                |k: int|
                    if i % 2 == 0 {
                        RGB8 { r: 128, g: 0, b: 128 }
                    } else {
                        black()
                    },
            ),
{
    let mut frames: Vec<Vec<RGB8>> = Vec::new();
    let mut i: usize = 0;
    while i < 6
        invariant
            i <= 6,
            frames@.len() == i,
            forall|j: int|
                0 <= j < i ==> (#[trigger] frames@[j])@ == Seq::new(
                    total_leds as nat,
                    |k: int|
                        if j % 2 == 0 {
                            RGB8 { r: 128, g: 0, b: 128 }
                        } else {
                            black()
                        },
                ),
        decreases 6 - i,
    {
        let color: RGB8 = if i % 2 == 0 {
            RGB8::new(128, 0, 128)
        } else {
            RGB8::default()
        };
        let frame: Vec<RGB8> = solid(color, total_leds);
        assert(frame@ =~= Seq::new(
            total_leds as nat,
            |k: int|
                if i % 2 == 0 {
                    RGB8 { r: 128, g: 0, b: 128 }
                } else {
                    black()
                },
        ));
        frames.push(frame);
        i = i + 1;
    }
    frames
}

// ---------------------------------------------------------------------------
// Laws
// ---------------------------------------------------------------------------

/// While the last threshold reached blinks off, the LEDs show what they would
/// without it.
pub proof fn law_blink_off_shows_underneath(
    front: Seq<Threshold>,
    blinking: Threshold,
    rpm: u32,
    total_leds: usize,
)
    requires
        rpm >= blinking.rpm,
        blinking.blink,
        reached(front, rpm).len() > 0 ==> !reached(front, rpm).last().blink,
    ensures
        drawn(showing(front.push(blinking), rpm, false), total_leds) == drawn(
            showing(front, rpm, false),
            total_leds,
        ),
{
    assert(front.push(blinking).drop_last() =~= front);
}

/// A threshold at the end of the list changes nothing before it is reached.
pub proof fn law_unreached_threshold_is_idle(
    front: Seq<Threshold>,
    t: Threshold,
    rpm: u32,
    blink_on: bool,
)
    requires
        rpm < t.rpm,
    ensures
        showing(front.push(t), rpm, blink_on) == showing(front, rpm, blink_on),
{
    assert(front.push(t).drop_last() =~= front);
}

/// Below the first threshold all LEDs are off.
pub proof fn law_below_thresholds_is_dark(
    thresholds: Seq<Threshold>,
    rpm: u32,
    blink_on: bool,
    total_leds: usize,
)
    requires
        forall|i: int| 0 <= i < thresholds.len() ==> rpm < (#[trigger] thresholds[i]).rpm,
    ensures
        drawn(showing(thresholds, rpm, blink_on), total_leds) == Seq::new(
            total_leds as nat,
            |i: int| black(),
        ),
{
    lemma_none_reached(thresholds, rpm);
    assert(drawn(None, total_leds) =~= Seq::new(total_leds as nat, |i: int| black()));
}

proof fn lemma_none_reached(thresholds: Seq<Threshold>, rpm: u32)
    requires
        forall|i: int| 0 <= i < thresholds.len() ==> rpm < (#[trigger] thresholds[i]).rpm,
    ensures
        reached(thresholds, rpm).len() == 0,
    decreases thresholds.len(),
{
    if thresholds.len() > 0 {
        assert(rpm < thresholds[thresholds.len() - 1].rpm);
        lemma_none_reached(thresholds.drop_last(), rpm);
    }
}

/// The thresholds that are reached are those at or below the RPM, in their order.
pub proof fn law_reached_thresholds(thresholds: Seq<Threshold>, t: Threshold, rpm: u32, i: int)
    ensures
        t.rpm <= rpm ==> reached(thresholds.push(t), rpm) =~= reached(thresholds, rpm).push(t),
        t.rpm > rpm ==> reached(thresholds.push(t), rpm) =~= reached(thresholds, rpm),
        0 <= i < reached(thresholds, rpm).len() ==> reached(thresholds, rpm)[i].rpm <= rpm,
        reached(thresholds, rpm).len() <= thresholds.len(),
    decreases thresholds.len(),
{
    assert(thresholds.push(t).drop_last() =~= thresholds);
    if thresholds.len() > 0 {
        law_reached_thresholds(thresholds.drop_last(), t, rpm, i);
    }
}

/// The last threshold reached shows, whatever comes before it, unless it blinks off.
pub proof fn law_last_threshold_shows(
    front: Seq<Threshold>,
    t: Threshold,
    rpm: u32,
    blink_on: bool,
)
    requires
        t.rpm <= rpm,
        t.blink ==> blink_on,
    ensures
        showing(front.push(t), rpm, blink_on) == Some(t),
{
    assert(front.push(t).drop_last() =~= front);
}

/// While a threshold blinks off, the one reached before it shows, or nothing.
pub proof fn law_threshold_underneath_shows(
    front: Seq<Threshold>,
    under: Threshold,
    blinking: Threshold,
    rpm: u32,
)
    requires
        under.rpm <= rpm,
        blinking.rpm <= rpm,
        blinking.blink,
    ensures
        showing(front.push(under).push(blinking), rpm, false) == Some(under),
        showing(seq![blinking], rpm, false) is None,
{
    law_reached_thresholds(front.push(under), blinking, rpm, 0);
    law_reached_thresholds(front, under, rpm, 0);
    law_reached_thresholds(Seq::empty(), blinking, rpm, 0);
    let all = reached(front.push(under).push(blinking), rpm);
    assert(all =~= reached(front, rpm).push(under).push(blinking));
    assert(seq![blinking] =~= Seq::<Threshold>::empty().push(blinking));
}

/// A threshold lights the LEDs of its range, both ends among them, in its color; the
/// others are off.
pub proof fn law_threshold_lights_its_range(t: Threshold, total_leds: usize, i: int)
    requires
        0 <= i < total_leds,
    ensures
        drawn(Some(t), total_leds).len() == total_leds,
        t.start_led <= i && i <= t.end_led ==> ({
            let led = drawn(Some(t), total_leds)[i];
            led.r == t.color.r && led.g == t.color.g && led.b == t.color.b
        }),
        i < t.start_led || i > t.end_led ==> drawn(Some(t), total_leds)[i] == (RGB8 {
            r: 0,
            g: 0,
            b: 0,
        }),
        drawn(None, total_leds)[i] == (RGB8 { r: 0, g: 0, b: 0 }),
{
}

/// A range can be drawn if its end is not before its start, as far as the strip goes.
pub proof fn law_drawable_ranges(t: Threshold, total_leds: usize)
    requires
        t.end_led < usize::MAX,
    ensures
        drawable(t, total_leds) <==> t.start_led <= t.end_led + 1 || total_leds <= t.end_led + 1,
{
}

/// Blinking changes over once the last threshold reached has shown for its time, in
/// whole milliseconds; without a blinking threshold it stands still.
pub proof fn law_thresholds_blink(
    c: LedController,
    front: Seq<Threshold>,
    t: Threshold,
    rpm: u32,
    now_ns: u64,
)
    requires
        t.rpm <= rpm,
        c.last_blink_ns <= now_ns,
    ensures
        t.blink && now_ns >= c.last_blink_ns + t.blink_ms * 1_000_000 ==> blinked(
            c,
            front.push(t),
            rpm,
            now_ns,
        ) == (LedController { last_blink_ns: now_ns, blink_state: !c.blink_state }),
        !t.blink || now_ns < c.last_blink_ns + t.blink_ms * 1_000_000 ==> blinked(
            c,
            front.push(t),
            rpm,
            now_ns,
        ) == c,
        blinked(c, Seq::empty(), rpm, now_ns) == c,
{
    assert(front.push(t).drop_last() =~= front);
}

} // verus!
