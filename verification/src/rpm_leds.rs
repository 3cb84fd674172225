//! The task that shows the RPM on the LED strip.
//!
//! The program around it waits for messages with the timeout given here, and
//! passes each message, or the timeout, to [`RpmLedTaskState::step`].

use crate::colors::{black, RGB8};
use crate::config::Config;
use crate::leds::{
    blink_phase_on, capped_until_stale, configured_stale_timeout, is_stale, phase_on, stale,
    stale_timeout_from_config, time_until_next_deadline, until_deadline, until_stale, Clock,
    DEFAULT_TIMEOUT_MS,
};
use crate::shift_lights::{
    after_rules, bake_led_rules, blends_fit, compute_led_state, compute_render_interval, is_baked,
    render_interval, BakedLedRules,
};
use vstd::prelude::*;

verus! {

/// Duration to show `preview_rpm` after brightness change (ms)
pub const BRIGHTNESS_PREVIEW_DURATION_MS: u64 = 1000;

/// Messages sent to the LED task
#[derive(Debug, Clone, Copy, PartialEq, Eq, Structural)]
pub enum RpmTaskMessage {
    /// RPM update from client or poll
    Rpm(u32),
    /// Config changed, recalculate render interval
    ConfigChanged,
    /// Brightness changed (0-255), apply immediately
    Brightness(u8),
}

/// What ended the wait of the task.
#[derive(Debug, Clone, Copy, PartialEq, Eq, Structural)]
pub enum RpmTaskEvent {
    /// A message came.
    Message(RpmTaskMessage),
    /// The timeout passed; `render` is what [`RpmLedTaskState::compute_timeout`]
    /// gave along with it.
    Timeout { render: bool },
    /// Nobody can send messages any more.
    Disconnected,
}

/// What to do after an event.
#[derive(Debug)]
pub enum RpmTaskAction {
    /// End the task.
    Exit,
    /// Leave the LEDs as they are.
    Keep,
    /// Turn all LEDs off.
    TurnOff,
    /// Show colors, and tell the clients about an RPM value.
    Show { leds: Vec<RGB8>, publish: Option<u32> },
}

/// What the task knows at one moment, without the rules it shows.
#[derive(Debug, Clone, Copy, PartialEq, Eq, Structural)]
pub struct RpmDisplay {
    pub current_rpm: Option<u32>,
    pub last_rendered_rpm: Option<u32>,
    pub last_blink_on: Option<bool>,
    /// When set, use `preview_rpm` override until this timestamp (ms)
    pub preview_override_until: Option<u64>,
    /// When the last RPM update was received, for staleness detection (ns)
    pub last_rpm_ns: Option<u64>,
    pub blink_interval_ms: Option<u64>,
    pub stale_timeout_ms: Option<u64>,
}

/// Internal state for the RPM/LED task.
#[derive(Debug)]
pub struct RpmLedTaskState {
    pub display: RpmDisplay,
    pub baked_rules: BakedLedRules,
}

// ---------------------------------------------------------------------------
// The rules of the display
// ---------------------------------------------------------------------------

/// The blink interval of a configuration (None = no blinking, event-driven only)
pub open spec fn blink_interval(cfg: Config) -> Option<u64> {
    match render_interval(cfg.rules_in_use()) {
        Some(ms) => Some(ms as u64),
        None => None,
    }
}

/// Compute blink render interval from config (None = no blinking, event-driven only)
pub fn compute_blink_interval(cfg: &Config) -> (r: Option<u64>)
    ensures
        r == blink_interval(*cfg),
        r is Some ==> r->0 >= 10,
{
    match compute_render_interval(cfg.active_rules()) {
        Some(ms) => Some(ms as u64),
        None => None,
    }
}

/// The display after a configuration change.
pub open spec fn reconfigured(d: RpmDisplay, cfg: Config) -> RpmDisplay {
    RpmDisplay {
        blink_interval_ms: blink_interval(cfg),
        stale_timeout_ms: configured_stale_timeout(cfg.rpm_stale_timeout_ms),
        last_blink_on: None,
        ..d
    }
}

/// The blink phase has changed since it was last shown.
pub open spec fn phase_changed(d: RpmDisplay, wall_ms: u64) -> bool {
    d.blink_interval_ms is Some && d.last_blink_on != Some(
        phase_on(wall_ms, d.blink_interval_ms->0),
    )
}

/// The display after an RPM update.
pub open spec fn updated(d: RpmDisplay, rpm: u32, now_ns: u64) -> RpmDisplay {
    RpmDisplay { current_rpm: Some(rpm), last_rpm_ns: Some(now_ns), ..d }
}

/// The RPM has not been updated for too long.
pub open spec fn rpm_stale(d: RpmDisplay, now_ns: u64) -> bool {
    d.last_rpm_ns is Some && is_stale(d.stale_timeout_ms, d.last_rpm_ns->0, now_ns)
}

/// The display after the RPM was found stale.
pub open spec fn forgotten(d: RpmDisplay) -> RpmDisplay {
    RpmDisplay { current_rpm: None, last_rpm_ns: None, last_rendered_rpm: None, ..d }
}

/// A preview is being shown.
pub open spec fn previewing(d: RpmDisplay, timestamp_ms: u64) -> bool {
    d.preview_override_until is Some && timestamp_ms < d.preview_override_until->0
}

/// The preview RPM of the active profile.
pub open spec fn preview_of(cfg: Config) -> Option<u32> {
    if cfg.active_profile < cfg.profiles@.len() {
        Some(cfg.profiles@[cfg.active_profile as int].preview_rpm)
    } else {
        None
    }
}

/// The RPM to render: that of the preview while it lasts, else the actual one.
pub open spec fn rpm_to_render(d: RpmDisplay, cfg: Config, timestamp_ms: u64) -> Option<u32> {
    if previewing(d, timestamp_ms) && preview_of(cfg) is Some {
        preview_of(cfg)
    } else {
        d.current_rpm
    }
}

/// The display once an expired preview has been dropped.
pub open spec fn preview_checked(d: RpmDisplay, timestamp_ms: u64) -> RpmDisplay {
    if previewing(d, timestamp_ms) {
        d
    } else {
        RpmDisplay { preview_override_until: None, ..d }
    }
}

/// The RPM to tell the clients about on rendering: the actual one, where it
/// differs from the last one rendered and no preview is shown.
pub open spec fn to_publish(d: RpmDisplay) -> Option<u32> {
    if d.preview_override_until is None && d.last_rendered_rpm != d.current_rpm {
        d.current_rpm
    } else {
        None
    }
}

/// The display after rendering.
pub open spec fn rendered(d: RpmDisplay, timestamp_ms: u64) -> RpmDisplay {
    RpmDisplay {
        last_rendered_rpm: if d.preview_override_until is None {
            d.current_rpm
        } else {
            d.last_rendered_rpm
        },
        last_blink_on: match d.blink_interval_ms {
            Some(interval) => Some(phase_on(timestamp_ms, interval)),
            None => d.last_blink_on,
        },
        ..d
    }
}

/// The display after the first part of an event: before staleness is checked.
pub open spec fn received(
    d: RpmDisplay,
    event: RpmTaskEvent,
    cfg: Config,
    clock: Clock,
) -> RpmDisplay {
    match event {
        RpmTaskEvent::Message(RpmTaskMessage::Rpm(rpm)) => updated(d, rpm, clock.now_ns),
        RpmTaskEvent::Message(RpmTaskMessage::ConfigChanged) => reconfigured(d, cfg),
        RpmTaskEvent::Message(RpmTaskMessage::Brightness(_)) => RpmDisplay {
            preview_override_until: Some(
                (clock.wall_ms + BRIGHTNESS_PREVIEW_DURATION_MS) as u64,
            ),
            ..d
        },
        _ => d,
    }
}

/// The event by itself calls for rendering.
pub open spec fn event_renders(d: RpmDisplay, event: RpmTaskEvent, clock: Clock) -> bool {
    match event {
        RpmTaskEvent::Message(RpmTaskMessage::Rpm(rpm)) => d.current_rpm != Some(rpm)
            || phase_changed(d, clock.wall_ms),
        RpmTaskEvent::Message(_) => true,
        RpmTaskEvent::Timeout { render } => render,
        RpmTaskEvent::Disconnected => false,
    }
}

/// A preview has just run out.
pub open spec fn preview_expired(d: RpmDisplay, wall_ms: u64) -> bool {
    d.preview_override_until is Some && wall_ms >= d.preview_override_until->0
}

/// The timeout of the wait for a message, and whether it calls for rendering.
pub open spec fn wait_for(d: RpmDisplay, clock: Clock) -> (int, bool) {
    let (base, render) = match d.blink_interval_ms {
        Some(interval) => (until_deadline(clock.wall_ms, interval), true),
        None => (DEFAULT_TIMEOUT_MS as int, false),
    };
    match (d.stale_timeout_ms, d.last_rpm_ns) {
        (Some(stale_ms), Some(updated_ns)) => {
            let left = until_stale(stale_ms, updated_ns, clock.now_ns);
            (
                if left < base {
                    left
                } else {
                    base
                },
                render,
            )
        },
        _ => (base, render),
    }
}

/// The baked form of the rules of a configuration.
pub open spec fn bakes(baked: BakedLedRules, cfg: Config, blends: Seq<Vec<RGB8>>) -> bool {
    let rules = cfg.rules_in_use();
    &&& baked.well_formed()
    &&& baked.total_leds == cfg.total_leds
    &&& baked.rules@.len() == rules.len()
    &&& forall|i: int|
        0 <= i < rules.len() ==> is_baked(
            rules[i],
            cfg.total_leds,
            blends[i]@,
            #[trigger] baked.rules@[i],
        )
}

// ---------------------------------------------------------------------------
// The task
// ---------------------------------------------------------------------------

impl RpmLedTaskState {
    /// The rules are baked, and a blink interval is not zero.
    pub open spec fn well_formed(&self) -> bool {
        &&& self.baked_rules.well_formed()
        &&& self.display.blink_interval_ms is Some ==> self.display.blink_interval_ms->0 > 0
    }

    /// A task that has not received any RPM yet. `blends` holds the blended
    /// colors of the active rules.
    pub fn new(cfg: &Config, blends: &[Vec<RGB8>]) -> (r: Self)
        requires
            blends_fit(cfg.rules_in_use(), cfg.total_leds, blends@),
        ensures
            r.well_formed(),
            r.display == (RpmDisplay {
                current_rpm: None,
                last_rendered_rpm: None,
                last_blink_on: None,
                preview_override_until: None,
                last_rpm_ns: None,
                blink_interval_ms: blink_interval(*cfg),
                stale_timeout_ms: configured_stale_timeout(cfg.rpm_stale_timeout_ms),
            }),
            bakes(r.baked_rules, *cfg, blends@),
    {
        RpmLedTaskState {
            display: RpmDisplay {
                current_rpm: None,
                last_rendered_rpm: None,
                last_blink_on: None,
                preview_override_until: None,
                last_rpm_ns: None,
                blink_interval_ms: compute_blink_interval(cfg),
                stale_timeout_ms: stale_timeout_from_config(cfg.rpm_stale_timeout_ms),
            },
            baked_rules: bake_led_rules(cfg.active_rules(), cfg.total_leds, blends),
        }
    }

    /// Reload blink interval, baked rules, and stale timeout from config.
    pub fn reload_config(&mut self, cfg: &Config, blends: &[Vec<RGB8>])
        requires
            blends_fit(cfg.rules_in_use(), cfg.total_leds, blends@),
        ensures
            final(self).well_formed(),
            final(self).display == reconfigured(old(self).display, *cfg),
            bakes(final(self).baked_rules, *cfg, blends@),
    {
        self.display.blink_interval_ms = compute_blink_interval(cfg);
        self.baked_rules = bake_led_rules(cfg.active_rules(), cfg.total_leds, blends);
        self.display.stale_timeout_ms = stale_timeout_from_config(cfg.rpm_stale_timeout_ms);
        self.display.last_blink_on = None;
    }

    /// Compute the receive timeout in ms and whether to render on timeout.
    pub fn compute_timeout(&self, clock: Clock) -> (r: (u64, bool))
        requires
            self.well_formed(),
        ensures
            (r.0 as int, r.1) == wait_for(self.display, clock),
    {
        let (timeout_ms, render): (u64, bool) = match self.display.blink_interval_ms {
            Some(interval) => (time_until_next_deadline(clock.wall_ms, interval), true),
            None => (DEFAULT_TIMEOUT_MS, false),
        };
        match (self.display.stale_timeout_ms, self.display.last_rpm_ns) {
            (Some(stale_ms), Some(updated_ns)) => (
                capped_until_stale(stale_ms, updated_ns, clock.now_ns, timeout_ms),
                render,
            ),
            _ => (timeout_ms, render),
        }
    }

    /// Check for RPM staleness; returns true if stale (caller should turn off LEDs).
    pub fn check_staleness(&mut self, now_ns: u64) -> (r: bool)
        requires
            old(self).well_formed(),
        ensures
            final(self).well_formed(),
            final(self).baked_rules == old(self).baked_rules,
            r == rpm_stale(old(self).display, now_ns),
            final(self).display == if r {
                forgotten(old(self).display)
            } else {
                old(self).display
            },
    {
        let is_old = match self.display.last_rpm_ns {
            Some(updated_ns) => stale(self.display.stale_timeout_ms, updated_ns, now_ns),
            None => false,
        };
        if is_old {
            self.display.current_rpm = None;
            self.display.last_rpm_ns = None;
            self.display.last_rendered_rpm = None;
        }
        is_old
    }

    /// Handle an incoming RPM message; returns whether to render.
    pub fn handle_rpm(&mut self, rpm: u32, clock: Clock) -> (r: bool)
        requires
            old(self).well_formed(),
        ensures
            final(self).well_formed(),
            final(self).baked_rules == old(self).baked_rules,
            final(self).display == updated(old(self).display, rpm, clock.now_ns),
            r == (old(self).display.current_rpm != Some(rpm) || phase_changed(
                old(self).display,
                clock.wall_ms,
            )),
    {
        self.display.last_rpm_ns = Some(clock.now_ns);
        let changed = match self.display.current_rpm {
            Some(current) => current != rpm,
            None => true,
        };
        self.display.current_rpm = Some(rpm);
        changed || self.phase_has_changed(clock.wall_ms)
    }

    /// Whether the blink phase has changed since it was last shown.
    fn phase_has_changed(&self, wall_ms: u64) -> (r: bool)
        requires
            self.well_formed(),
        ensures
            r == phase_changed(self.display, wall_ms),
    {
        match self.display.blink_interval_ms {
            Some(interval) => {
                let on = blink_phase_on(wall_ms, interval);
                match self.display.last_blink_on {
                    Some(last) => last != on,
                    None => true,
                }
            },
            None => false,
        }
    }

    /// Handle a brightness change: show the preview for a while.
    pub fn handle_brightness(&mut self, wall_ms: u64) -> (r: bool)
        requires
            old(self).well_formed(),
            wall_ms + BRIGHTNESS_PREVIEW_DURATION_MS <= u64::MAX,
        ensures
            final(self).well_formed(),
            final(self).baked_rules == old(self).baked_rules,
            final(self).display == (RpmDisplay {
                preview_override_until: Some((wall_ms + BRIGHTNESS_PREVIEW_DURATION_MS) as u64),
                ..old(self).display
            }),
            r,
    {
        self.display.preview_override_until = Some(wall_ms + BRIGHTNESS_PREVIEW_DURATION_MS);
        true
    }

    /// Determine which RPM to render (preview override or actual).
    pub fn get_render_rpm(&mut self, cfg: &Config, timestamp_ms: u64) -> (r: Option<u32>)
        requires
            old(self).well_formed(),
        ensures
            final(self).well_formed(),
            final(self).baked_rules == old(self).baked_rules,
            final(self).display == preview_checked(old(self).display, timestamp_ms),
            r == rpm_to_render(old(self).display, *cfg, timestamp_ms),
    {
        let preview = match self.display.preview_override_until {
            Some(until) => timestamp_ms < until,
            None => false,
        };
        if !preview {
            self.display.preview_override_until = None;
            return self.display.current_rpm;
        }
        if cfg.active_profile < cfg.profiles.len() {
            Some(cfg.profiles[cfg.active_profile].preview_rpm)
        } else {
            self.display.current_rpm
        }
    }

    /// Update the last blink phase after rendering.
    pub fn update_blink_phase(&mut self, timestamp_ms: u64)
        requires
            old(self).well_formed(),
        ensures
            final(self).well_formed(),
            final(self).baked_rules == old(self).baked_rules,
            final(self).display == (RpmDisplay {
                last_blink_on: match old(self).display.blink_interval_ms {
                    Some(interval) => Some(phase_on(timestamp_ms, interval)),
                    None => old(self).display.last_blink_on,
                },
                ..old(self).display
            }),
    {
        if let Some(interval) = self.display.blink_interval_ms {
            self.display.last_blink_on = Some(blink_phase_on(timestamp_ms, interval));
        }
    }

    /// Render the LEDs for the RPM to show.
    pub fn render(&mut self, cfg: &Config, timestamp_ms: u64) -> (r: RpmTaskAction)
        requires
            old(self).well_formed(),
        ensures
            final(self).well_formed(),
            final(self).baked_rules == old(self).baked_rules,
            ({
                let checked = preview_checked(old(self).display, timestamp_ms);
                match rpm_to_render(old(self).display, *cfg, timestamp_ms) {
                    None => r is TurnOff && final(self).display == checked,
                    Some(rpm) => {
                        &&& r is Show
                        &&& r->leds@ == after_rules(
                            Seq::new(old(self).baked_rules.total_leds as nat, |i: int| black()),
                            old(self).baked_rules.rules@,
                            rpm,
                            timestamp_ms,
                        )
                        &&& r->publish == to_publish(checked)
                        &&& final(self).display == rendered(checked, timestamp_ms)
                    },
                }
            }),
    {
        match self.get_render_rpm(cfg, timestamp_ms) {
            None => RpmTaskAction::TurnOff,
            Some(rpm) => {
                let mut publish: Option<u32> = None;
                // Only tell the clients if the actual RPM changed (not during preview)
                if self.display.preview_override_until.is_none() {
                    let same = match (self.display.last_rendered_rpm, self.display.current_rpm) {
                        (Some(a), Some(b)) => a == b,
                        (None, None) => true,
                        _ => false,
                    };
                    if !same {
                        publish = self.display.current_rpm;
                        self.display.last_rendered_rpm = self.display.current_rpm;
                    }
                }
                self.update_blink_phase(timestamp_ms);
                let state = compute_led_state(rpm, &self.baked_rules, timestamp_ms);
                RpmTaskAction::Show { leds: state.leds, publish }
            },
        }
    }

    /// Handle one event: a message, or the end of the wait.
    pub fn step(
        &mut self,
        event: RpmTaskEvent,
        cfg: &Config,
        blends: &[Vec<RGB8>],
        clock: Clock,
    ) -> (r: RpmTaskAction)
        requires
            old(self).well_formed(),
            blends_fit(cfg.rules_in_use(), cfg.total_leds, blends@),
            clock.wall_ms + BRIGHTNESS_PREVIEW_DURATION_MS <= u64::MAX,
        ensures
            final(self).well_formed(),
            if event == RpmTaskEvent::Message(RpmTaskMessage::ConfigChanged) {
                bakes(final(self).baked_rules, *cfg, blends@)
            } else {
                final(self).baked_rules == old(self).baked_rules
            },
            ({
                let before = received(old(self).display, event, *cfg, clock);
                let checked = preview_checked(before, clock.wall_ms);
                if event == RpmTaskEvent::Disconnected {
                    r is Exit && final(self).display == old(self).display
                } else if rpm_stale(before, clock.now_ns) {
                    // No RPM update within the timeout
                    r is TurnOff && final(self).display == forgotten(before)
                } else if !event_renders(old(self).display, event, clock) && !preview_expired(
                    before,
                    clock.wall_ms,
                ) {
                    r is Keep && final(self).display == before
                } else {
                    match rpm_to_render(before, *cfg, clock.wall_ms) {
                        None => r is TurnOff && final(self).display == checked,
                        Some(rpm) => {
                            &&& r is Show
                            &&& r->leds@ == after_rules(
                                Seq::new(
                                    final(self).baked_rules.total_leds as nat,
                                    |i: int| black(),
                                ),
                                final(self).baked_rules.rules@,
                                rpm,
                                clock.wall_ms,
                            )
                            &&& r->publish == to_publish(checked)
                            &&& final(self).display == rendered(checked, clock.wall_ms)
                        },
                    }
                }
            }),
    {
        let mut should_render = match event {
            RpmTaskEvent::Message(RpmTaskMessage::Rpm(rpm)) => self.handle_rpm(rpm, clock),
            RpmTaskEvent::Message(RpmTaskMessage::ConfigChanged) => {
                self.reload_config(cfg, blends);
                true
            },
            RpmTaskEvent::Message(RpmTaskMessage::Brightness(_)) => self.handle_brightness(
                clock.wall_ms,
            ),
            RpmTaskEvent::Timeout { render } => render,
            RpmTaskEvent::Disconnected => {
                return RpmTaskAction::Exit;
            },
        };
        if self.check_staleness(clock.now_ns) {
            return RpmTaskAction::TurnOff;
        }
        // Force render when the brightness preview expires
        if let Some(until) = self.display.preview_override_until {
            if clock.wall_ms >= until {
                should_render = true;
            }
        }
        if should_render {
            self.render(cfg, clock.wall_ms)
        } else {
            RpmTaskAction::Keep
        }
    }
}

// ---------------------------------------------------------------------------
// Laws
// ---------------------------------------------------------------------------

/// The clients are told about each RPM value once: after a value has been
/// rendered without a preview, rendering again publishes nothing.
pub proof fn law_published_once(d: RpmDisplay, timestamp_ms: u64)
    requires
        d.preview_override_until is None,
    ensures
        to_publish(rendered(d, timestamp_ms)) is None,
{
}

/// A brightness change shows the preview for its duration, and then no longer.
pub proof fn law_preview_lasts(d: RpmDisplay, cfg: Config, level: u8, clock: Clock, later_ms: u64)
    requires
        clock.wall_ms <= later_ms,
        clock.wall_ms + BRIGHTNESS_PREVIEW_DURATION_MS <= u64::MAX,
        preview_of(cfg) is Some,
    ensures
        ({
            let after = received(
                d,
                RpmTaskEvent::Message(RpmTaskMessage::Brightness(level)),
                cfg,
                clock,
            );
            rpm_to_render(after, cfg, later_ms) == if later_ms < clock.wall_ms
                + BRIGHTNESS_PREVIEW_DURATION_MS {
                preview_of(cfg)
            } else {
                d.current_rpm
            }
        }),
{
}

/// The task waits no longer than until the RPM goes stale, and once it is stale
/// nothing but a preview is shown until the next update.
pub proof fn law_stale_rpm_is_not_shown(d: RpmDisplay, cfg: Config, clock: Clock)
    requires
        d.blink_interval_ms is Some ==> d.blink_interval_ms->0 > 0,
    ensures
        d.stale_timeout_ms is Some && d.last_rpm_ns is Some ==> wait_for(d, clock).0
            <= until_stale(d.stale_timeout_ms->0, d.last_rpm_ns->0, clock.now_ns),
        rpm_stale(d, clock.now_ns) ==> wait_for(d, clock).0 == 0,
        !previewing(d, clock.wall_ms) ==> rpm_to_render(forgotten(d), cfg, clock.wall_ms) is None,
        !rpm_stale(forgotten(d), clock.now_ns),
{
    if d.blink_interval_ms is Some {
        let interval = d.blink_interval_ms->0;
        assert(clock.wall_ms % interval < interval);
    }
}

/// The display follows the RPM, up and down: after a message with a value, that value
/// is the one to render, whatever was shown before, and nothing else has changed.
pub proof fn law_latest_rpm_is_rendered(
    d: RpmDisplay,
    rpm: u32,
    cfg: Config,
    clock: Clock,
    later_ms: u64,
)
    requires
        d.preview_override_until is None || d.preview_override_until->0 <= later_ms,
    ensures
        ({
            let after = received(
                d,
                RpmTaskEvent::Message(RpmTaskMessage::Rpm(rpm)),
                cfg,
                clock,
            );
            &&& rpm_to_render(after, cfg, later_ms) == Some(rpm)
            &&& after.current_rpm == Some(rpm)
            &&& after.last_rpm_ns == Some(clock.now_ns)
            &&& after.last_rendered_rpm == d.last_rendered_rpm
            &&& after.last_blink_on == d.last_blink_on
            &&& after.preview_override_until == d.preview_override_until
            &&& after.blink_interval_ms == d.blink_interval_ms
            &&& after.stale_timeout_ms == d.stale_timeout_ms
        }),
{
}

/// A new value is rendered at once and published, and then not published again until
/// it changes or goes stale; the same value again is rendered only for a blink phase
/// that was not shown yet.
pub proof fn law_new_rpm_is_published(d: RpmDisplay, rpm: u32, cfg: Config, clock: Clock)
    requires
        d.preview_override_until is None,
    ensures
        ({
            let event = RpmTaskEvent::Message(RpmTaskMessage::Rpm(rpm));
            let after = received(d, event, cfg, clock);
            let shown = rendered(after, clock.wall_ms);
            &&& d.current_rpm != Some(rpm) ==> event_renders(d, event, clock)
            &&& d.current_rpm == Some(rpm) && d.blink_interval_ms is None ==> !event_renders(
                d,
                event,
                clock,
            )
            &&& d.current_rpm == Some(rpm) && d.blink_interval_ms is Some ==> (event_renders(
                d,
                event,
                clock,
            ) <==> d.last_blink_on != Some((clock.wall_ms / d.blink_interval_ms->0) % 2 == 0))
            &&& d.last_rendered_rpm != Some(rpm) ==> to_publish(after) == Some(rpm)
            &&& d.last_rendered_rpm == Some(rpm) ==> to_publish(after) is None
            &&& shown.last_rendered_rpm == Some(rpm)
            &&& shown.current_rpm == Some(rpm)
            &&& d.blink_interval_ms is Some ==> shown.last_blink_on == Some(
                (clock.wall_ms / d.blink_interval_ms->0) % 2 == 0,
            )
            &&& forgotten(shown).last_rendered_rpm is None
        }),
{
}

/// Changes of the configuration and of the brightness are rendered at once; the end of
/// a wait is if it was to be.
pub proof fn law_changes_are_rendered(d: RpmDisplay, level: u8, render: bool, clock: Clock)
    ensures
        event_renders(d, RpmTaskEvent::Message(RpmTaskMessage::ConfigChanged), clock),
        event_renders(d, RpmTaskEvent::Message(RpmTaskMessage::Brightness(level)), clock),
        event_renders(d, RpmTaskEvent::Timeout { render }, clock) == render,
{
}

/// A brightness change shows the active profile's preview RPM for a second, even
/// without any RPM; meanwhile nothing is published, and behind it the actual RPM is
/// back.
pub proof fn law_preview_shows_the_profile(
    d: RpmDisplay,
    cfg: Config,
    level: u8,
    clock: Clock,
    later_ms: u64,
)
    requires
        clock.wall_ms + 1000 <= u64::MAX,
        cfg.active_profile < cfg.profiles@.len(),
    ensures
        ({
            let after = received(
                d,
                RpmTaskEvent::Message(RpmTaskMessage::Brightness(level)),
                cfg,
                clock,
            );
            &&& after.preview_override_until == Some((clock.wall_ms + 1000) as u64)
            &&& after.current_rpm == d.current_rpm && after.last_rpm_ns == d.last_rpm_ns
            &&& later_ms < clock.wall_ms + 1000 ==> rpm_to_render(after, cfg, later_ms) == Some(
                cfg.profiles@[cfg.active_profile as int].preview_rpm,
            ) && to_publish(preview_checked(after, later_ms)) is None && rendered(
                preview_checked(after, later_ms),
                later_ms,
            ).last_rendered_rpm == d.last_rendered_rpm
            &&& later_ms >= clock.wall_ms + 1000 ==> rpm_to_render(after, cfg, later_ms)
                == d.current_rpm && preview_expired(after, later_ms) && preview_checked(
                after,
                later_ms,
            ).preview_override_until is None
        }),
{
}

/// The RPM is stale once the timeout has passed since its last update, and then there
/// is none until the next one.
pub proof fn law_rpm_goes_stale(d: RpmDisplay, now_ns: u64)
    ensures
        rpm_stale(d, now_ns) <==> d.last_rpm_ns is Some && d.stale_timeout_ms is Some && now_ns
            >= d.last_rpm_ns->0 + d.stale_timeout_ms->0 * 1_000_000,
        forgotten(d).current_rpm is None,
        forgotten(d).last_rpm_ns is None,
        forgotten(d).last_rendered_rpm is None,
        forgotten(d).blink_interval_ms == d.blink_interval_ms,
        forgotten(d).stale_timeout_ms == d.stale_timeout_ms,
{
}

/// While rules blink the task wakes at the next multiple of the blink interval and
/// renders, else every 100 ms without rendering; before that if the RPM goes stale.
pub proof fn law_task_wakes_in_time(d: RpmDisplay, clock: Clock)
    requires
        d.blink_interval_ms is Some ==> d.blink_interval_ms->0 > 0,
    ensures
        wait_for(d, clock).1 == (d.blink_interval_ms is Some),
        d.stale_timeout_ms is None || d.last_rpm_ns is None ==> wait_for(d, clock).0
            == match d.blink_interval_ms {
            Some(interval) => interval - clock.wall_ms % interval,
            None => 100,
        },
        d.stale_timeout_ms is Some && d.last_rpm_ns is Some ==> ({
            let whole = wait_for(RpmDisplay { last_rpm_ns: None, ..d }, clock).0;
            let stale_ns = d.last_rpm_ns->0 + d.stale_timeout_ms->0 * 1_000_000;
            let wait = wait_for(d, clock).0;
            &&& 0 <= wait <= whole
            &&& wait < whole ==> clock.now_ns >= stale_ns && wait == 0 || clock.now_ns + wait
                * 1_000_000 <= stale_ns < clock.now_ns + (wait + 1) * 1_000_000
            &&& wait == whole ==> clock.now_ns + whole * 1_000_000 <= stale_ns || whole == 0
        }),
{
    if d.blink_interval_ms is Some {
        let interval = d.blink_interval_ms->0;
        assert(clock.wall_ms % interval < interval);
    }
}

/// A change of the configuration takes over its staleness timeout and the blink
/// interval of the active profile's rules, and forgets the shown phase, not the RPM.
pub proof fn law_configuration_is_taken_over(d: RpmDisplay, cfg: Config, clock: Clock)
    ensures
        ({
            let after = received(
                d,
                RpmTaskEvent::Message(RpmTaskMessage::ConfigChanged),
                cfg,
                clock,
            );
            &&& cfg.rpm_stale_timeout_ms == 0 ==> after.stale_timeout_ms is None
            &&& cfg.rpm_stale_timeout_ms > 0 ==> after.stale_timeout_ms == Some(
                cfg.rpm_stale_timeout_ms as u64,
            )
            &&& after.last_blink_on is None
            &&& after.current_rpm == d.current_rpm
            &&& after.last_rpm_ns == d.last_rpm_ns
            &&& after.last_rendered_rpm == d.last_rendered_rpm
            &&& after.preview_override_until == d.preview_override_until
            &&& cfg.active_profile < cfg.profiles@.len() ==> (after.blink_interval_ms is Some
                <==> render_interval(cfg.profiles@[cfg.active_profile as int].rules@) is Some)
            &&& after.blink_interval_ms is Some ==> cfg.active_profile < cfg.profiles@.len()
                && after.blink_interval_ms == Some(
                render_interval(cfg.profiles@[cfg.active_profile as int].rules@)->0 as u64,
            )
        }),
{
}

/// The baked rules are those of the active profile, one for one, for the whole strip.
pub proof fn law_active_rules_are_baked(
    baked: BakedLedRules,
    cfg: Config,
    blends: Seq<Vec<RGB8>>,
    i: int,
)
    requires
        bakes(baked, cfg, blends),
        cfg.active_profile < cfg.profiles@.len(),
        0 <= i < cfg.profiles@[cfg.active_profile as int].rules@.len(),
    ensures
        baked.total_leds == cfg.total_leds,
        baked.rules@.len() == cfg.profiles@[cfg.active_profile as int].rules@.len(),
        is_baked(
            cfg.profiles@[cfg.active_profile as int].rules@[i],
            cfg.total_leds,
            blends[i]@,
            baked.rules@[i],
        ),
{
    assert(baked.rules@[i] == baked.rules@[i]);
}

} // verus!
