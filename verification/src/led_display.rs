//! Profile-driven LED display: the task that shows PID values on the LED strip.
//!
//! The active normal profile is the base layer. Overlay profiles and enabled
//! triggered profiles are stacked on top of it (e.g. a coolant warning on top
//! of RPM). The program around it waits for messages with the timeout given
//! here, and passes each message, or the timeout, to
//! [`LedDisplayTaskState::step`].

use crate::colors::{black, solid, RGB8};
use crate::leds::{
    blink_phase_on, capped_until_stale, configured_stale_timeout, is_stale, phase_on, stale,
    stale_timeout_from_config, time_until_next_deadline, until_deadline, until_stale, Clock,
    DEFAULT_TIMEOUT_MS,
};
use crate::shift_lights::{
    after_rules, apply_rules, bake_led_rules, blends_fit, compute_led_state, compute_render_interval, gcd,
    is_baked, law_gcd, lemma_common_divisor, lemma_divisor_is_smaller, render_interval,
    BakedLedRules, LedRule,
};
use std::collections::HashMap;
use vstd::prelude::*;

verus! {

broadcast use vstd::std_specs::hash::group_hash_axioms;

// ---------------------------------------------------------------------------
// Profiles
// ---------------------------------------------------------------------------

/// When a profile is shown.
#[derive(Debug, Clone, Copy, PartialEq, Eq, Structural)]
pub enum ProfileType {
    /// Shown while it is the active profile
    Normal,
    /// Always stacked on top of the active profile
    Overlay,
    /// Shown while it is switched on with its button
    Triggered,
}

/// A named collection of LED rules for the value of one PID.
#[derive(Debug, Clone)]
pub struct DisplayProfile {
    pub name: String,
    pub profile_type: ProfileType,
    /// The PID whose value the rules show
    pub pid: u8,
    pub rules: Vec<LedRule>,
    /// The value to show when previewing this profile
    pub preview_value: u32,
    /// Button that switches a triggered profile - set to 0 for none
    pub button_pin: u8,
}

/// The part of the configuration that the display depends on.
#[derive(Debug, Clone)]
pub struct DisplayConfig {
    pub profiles: Vec<DisplayProfile>,
    /// Index of the currently active profile
    pub active_profile: usize,
    pub total_leds: usize,
    /// Forget a value after this many ms without an update (0 = disabled)
    pub rpm_stale_timeout_ms: u16,
    /// How long to show the preview after a brightness change (ms)
    pub preview_duration_ms: u32,
    /// LED brightness (0-255)
    pub brightness: u8,
}

/// A triggered profile is switched on.
pub open spec fn switched_on(triggered_enabled: Seq<bool>, index: int) -> bool {
    index < triggered_enabled.len() && triggered_enabled[index]
}

/// The profiles of one type, by index and in order; of the triggered ones, those
/// that are switched on.
pub open spec fn profiles_of(
    profiles: Seq<DisplayProfile>,
    profile_type: ProfileType,
    triggered_enabled: Seq<bool>,
) -> Seq<int>
    decreases profiles.len(),
{
    if profiles.len() == 0 {
        Seq::empty()
    } else {
        let before = profiles_of(profiles.drop_last(), profile_type, triggered_enabled);
        let index = profiles.len() - 1;
        if profiles.last().profile_type == profile_type && (profile_type == ProfileType::Triggered
            ==> switched_on(triggered_enabled, index)) {
            before.push(index)
        } else {
            before
        }
    }
}

impl DisplayConfig {
    /// The active profile, if it is a normal one.
    pub open spec fn active_normal(&self) -> Option<int> {
        if self.active_profile < self.profiles@.len()
            && self.profiles@[self.active_profile as int].profile_type == ProfileType::Normal {
            Some(self.active_profile as int)
        } else {
            None
        }
    }

    /// The profiles to stack on top: the overlays, then the triggered ones that
    /// are switched on.
    pub open spec fn stacked(&self, triggered_enabled: Seq<bool>) -> Seq<int> {
        profiles_of(self.profiles@, ProfileType::Overlay, triggered_enabled) + profiles_of(
            self.profiles@,
            ProfileType::Triggered,
            triggered_enabled,
        )
    }

    /// The active profile, if it is a normal one.
    pub fn active_normal_profile(&self) -> (r: Option<usize>)
        ensures
            match r {
                Some(index) => self.active_normal() == Some(index as int) && index
                    < self.profiles@.len(),
                None => self.active_normal() is None,
            },
    {
        if self.active_profile < self.profiles.len() {
            match self.profiles[self.active_profile].profile_type {
                ProfileType::Normal => Some(self.active_profile),
                _ => None,
            }
        } else {
            None
        }
    }

    /// The profiles of one type; of the triggered ones, those switched on.
    fn profiles_with(&self, profile_type: ProfileType, triggered_enabled: &[bool]) -> (r: Vec<
        usize,
    >)
        ensures
            r@.map_values(|i: usize| i as int) == profiles_of(
                self.profiles@,
                profile_type,
                triggered_enabled@,
            ),
            forall|k: int| 0 <= k < r@.len() ==> #[trigger] r@[k] < self.profiles@.len(),
    {
        let mut found: Vec<usize> = Vec::new();
        let mut i: usize = 0;
        assert(self.profiles@.take(0) =~= Seq::empty());
        assert(found@.map_values(|i: usize| i as int) =~= Seq::empty());
        while i < self.profiles.len()
            invariant
                i <= self.profiles@.len(),
                found@.map_values(|i: usize| i as int) == profiles_of(
                    self.profiles@.take(i as int),
                    profile_type,
                    triggered_enabled@,
                ),
                forall|k: int| 0 <= k < found@.len() ==> #[trigger] found@[k] < i,
            decreases self.profiles@.len() - i,
        {
            let ghost before = found@.map_values(|i: usize| i as int);
            assert(self.profiles@.take(i + 1).drop_last() =~= self.profiles@.take(i as int));
            let wanted = self.profiles[i].profile_type == profile_type && (profile_type
                != ProfileType::Triggered || (i < triggered_enabled.len() && triggered_enabled[i]));
            if wanted {
                found.push(i);
                assert(found@.map_values(|i: usize| i as int) =~= before.push(i as int));
            }
            i = i + 1;
        }
        assert(self.profiles@.take(i as int) =~= self.profiles@);
        found
    }

    /// The profiles to stack on top: the overlays, then the triggered ones that
    /// are switched on.
    pub fn stacked_profiles(&self, triggered_enabled: &[bool]) -> (r: Vec<usize>)
        ensures
            r@.map_values(|i: usize| i as int) == self.stacked(triggered_enabled@),
            forall|k: int| 0 <= k < r@.len() ==> #[trigger] r@[k] < self.profiles@.len(),
    {
        let overlays = self.profiles_with(ProfileType::Overlay, triggered_enabled);
        let triggered = self.profiles_with(ProfileType::Triggered, triggered_enabled);
        let mut all: Vec<usize> = overlays;
        let ghost front = all@;
        let mut k: usize = 0;
        assert(all@ =~= front + triggered@.take(0));
        while k < triggered.len()
            invariant
                k <= triggered@.len(),
                all@ == front + triggered@.take(k as int),
            decreases triggered@.len() - k,
        {
            all.push(triggered[k]);
            assert(all@ =~= front + triggered@.take(k + 1));
            k = k + 1;
        }
        assert(triggered@.take(k as int) =~= triggered@);
        assert(all@.map_values(|i: usize| i as int) =~= front.map_values(|i: usize| i as int)
            + triggered@.map_values(|i: usize| i as int));
        all
    }

    /// Some triggered profile is switched on.
    pub fn any_triggered(&self, triggered_enabled: &[bool]) -> (r: bool)
        ensures
            r == (profiles_of(
                self.profiles@,
                ProfileType::Triggered,
                triggered_enabled@,
            ).len() > 0),
    {
        let triggered = self.profiles_with(ProfileType::Triggered, triggered_enabled);
        assert(triggered@.map_values(|i: usize| i as int).len() == triggered@.len());
        triggered.len() > 0
    }
}

// ---------------------------------------------------------------------------
// Blink interval
// ---------------------------------------------------------------------------

/// Compute GCD of two values using Euclid's algorithm.
pub fn gcd_u64(a: u64, b: u64) -> (r: u64)
    ensures
        r == gcd(a as nat, b as nat),
{
    let mut x: u64 = a;
    let mut y: u64 = b;
    while y != 0
        invariant
            gcd(x as nat, y as nat) == gcd(a as nat, b as nat),
        decreases y,
    {
        let rest: u64 = x % y;
        x = y;
        y = rest;
    }
    x
}

/// A blink interval combined with that of one more profile.
pub open spec fn with_interval(combined: Option<nat>, interval: Option<nat>) -> Option<nat> {
    match (combined, interval) {
        (Some(a), Some(b)) => Some(gcd(a, b)),
        (None, b) => b,
        (a, None) => a,
    }
}

/// The blink interval of the given profiles on top of a first one.
pub open spec fn combined_interval(
    first: Option<nat>,
    profiles: Seq<DisplayProfile>,
    indices: Seq<int>,
) -> Option<nat>
    decreases indices.len(),
{
    if indices.len() == 0 {
        first
    } else {
        with_interval(
            combined_interval(first, profiles, indices.drop_last()),
            render_interval(profiles[indices.last()].rules@),
        )
    }
}

/// The blink interval of all active profiles: the greatest common divisor of
/// theirs, `None` when no profile has blinking rules.
pub open spec fn display_interval(cfg: DisplayConfig, triggered_enabled: Seq<bool>) -> Option<nat> {
    let first = match cfg.active_normal() {
        Some(index) => render_interval(cfg.profiles@[index].rules@),
        None => None,
    };
    combined_interval(first, cfg.profiles@, cfg.stacked(triggered_enabled))
}

/// Compute blink render interval from config as GCD across all active profiles.
/// Returns `None` when no profiles have blinking rules.
pub fn compute_blink_interval(cfg: &DisplayConfig, triggered_enabled: &[bool]) -> (r: Option<u64>)
    ensures
        match r {
            Some(ms) => display_interval(*cfg, triggered_enabled@) == Some(ms as nat) && ms > 0,
            None => display_interval(*cfg, triggered_enabled@) is None,
        },
{
    let mut combined: Option<u64> = None;
    if let Some(index) = cfg.active_normal_profile() {
        if let Some(ms) = compute_render_interval(cfg.profiles[index].rules.as_slice()) {
            combined = Some(ms as u64);
        }
    }
    let ghost first: Option<nat> = match combined {
        Some(ms) => Some(ms as nat),
        None => None,
    };
    let stacked = cfg.stacked_profiles(triggered_enabled);
    let ghost order = cfg.stacked(triggered_enabled@);
    let mut k: usize = 0;
    assert(order.take(0) =~= Seq::empty());
    while k < stacked.len()
        invariant
            k <= stacked@.len(),
            order == stacked@.map_values(|i: usize| i as int),
            forall|j: int| 0 <= j < stacked@.len() ==> #[trigger] stacked@[j] < cfg.profiles@.len(),
            match combined {
                Some(ms) => combined_interval(first, cfg.profiles@, order.take(k as int)) == Some(
                    ms as nat,
                ) && ms > 0,
                None => combined_interval(first, cfg.profiles@, order.take(k as int)) is None,
            },
        decreases stacked@.len() - k,
    {
        let index: usize = stacked[k];
        proof {
            assert(order.take(k + 1).drop_last() =~= order.take(k as int));
            assert(order.take(k + 1).last() == index as int);
        }
        if let Some(ms) = compute_render_interval(cfg.profiles[index].rules.as_slice()) {
            combined = match combined {
                Some(previous) => {
                    proof {
                        crate::shift_lights::law_gcd(previous as nat, ms as nat);
                    }
                    Some(gcd_u64(previous, ms as u64))
                },
                None => Some(ms as u64),
            };
        }
        k = k + 1;
    }
    assert(order.take(k as int) =~= order);
    combined
}

// ---------------------------------------------------------------------------
// Baked profiles
// ---------------------------------------------------------------------------

/// The baked rules of a profile.
pub open spec fn bakes_profile(
    baked: (u8, BakedLedRules),
    profile: DisplayProfile,
    total_leds: usize,
    blends: Seq<Vec<RGB8>>,
) -> bool {
    &&& baked.0 == profile.pid
    &&& baked.1.well_formed()
    &&& baked.1.total_leds == total_leds
    &&& baked.1.rules@.len() == profile.rules@.len()
    &&& forall|i: int|
        0 <= i < profile.rules@.len() ==> is_baked(
            profile.rules@[i],
            total_leds,
            blends[i]@,
            #[trigger] baked.1.rules@[i],
        )
}

/// The base layer of a configuration: the active normal profile, unless a
/// triggered profile is switched on.
pub open spec fn bakes_main(
    main: Option<(u8, BakedLedRules)>,
    cfg: DisplayConfig,
    triggered_enabled: Seq<bool>,
    blends: Seq<Vec<Vec<RGB8>>>,
) -> bool {
    if profiles_of(cfg.profiles@, ProfileType::Triggered, triggered_enabled).len() > 0 {
        main is None
    } else {
        match cfg.active_normal() {
            None => main is None,
            Some(index) => main is Some && bakes_profile(
                main->0,
                cfg.profiles@[index],
                cfg.total_leds,
                blends[index]@,
            ),
        }
    }
}

/// The layers on top of the base layer.
pub open spec fn bakes_overlays(
    overlays: Seq<(u8, BakedLedRules)>,
    cfg: DisplayConfig,
    triggered_enabled: Seq<bool>,
    blends: Seq<Vec<Vec<RGB8>>>,
) -> bool {
    let order = cfg.stacked(triggered_enabled);
    &&& overlays.len() == order.len()
    &&& forall|k: int|
        0 <= k < order.len() ==> bakes_profile(
            #[trigger] overlays[k],
            cfg.profiles@[order[k]],
            cfg.total_leds,
            blends[order[k]]@,
        )
}

/// There are blended colors for each rule of each profile.
pub open spec fn profile_blends_fit(cfg: DisplayConfig, blends: Seq<Vec<Vec<RGB8>>>) -> bool {
    &&& blends.len() == cfg.profiles@.len()
    &&& forall|i: int|
        0 <= i < blends.len() ==> blends_fit(
            cfg.profiles@[i].rules@,
            cfg.total_leds,
            (#[trigger] blends[i])@,
        )
}

fn bake_profile(cfg: &DisplayConfig, index: usize, blends: &[Vec<Vec<RGB8>>]) -> (r: (
    u8,
    BakedLedRules,
))
    requires
        index < cfg.profiles@.len(),
        profile_blends_fit(*cfg, blends@),
    ensures
        bakes_profile(
            r,
            cfg.profiles@[index as int],
            cfg.total_leds,
            blends@[index as int]@,
        ),
{
    let profile: &DisplayProfile = &cfg.profiles[index];
    assert(blends_fit(profile.rules@, cfg.total_leds, blends@[index as int]@));
    let table: &Vec<Vec<RGB8>> = &blends[index];
    (profile.pid, bake_led_rules(profile.rules.as_slice(), cfg.total_leds, table.as_slice()))
}

/// Bake the active normal profile and all overlay + enabled triggered profiles.
/// When any triggered profile is enabled, suppress the normal profile so it
/// doesn't show through underneath the triggered profile's LEDs.
pub fn bake_profiles(
    cfg: &DisplayConfig,
    triggered_enabled: &[bool],
    blends: &[Vec<Vec<RGB8>>],
) -> (r: (Option<(u8, BakedLedRules)>, Vec<(u8, BakedLedRules)>))
    requires
        profile_blends_fit(*cfg, blends@),
    ensures
        bakes_main(r.0, *cfg, triggered_enabled@, blends@),
        bakes_overlays(r.1@, *cfg, triggered_enabled@, blends@),
{
    let main_baked = if cfg.any_triggered(triggered_enabled) {
        None
    } else {
        match cfg.active_normal_profile() {
            Some(index) => Some(bake_profile(cfg, index, blends)),
            None => None,
        }
    };
    let stacked = cfg.stacked_profiles(triggered_enabled);
    let ghost order = cfg.stacked(triggered_enabled@);
    assert(order.len() == stacked@.len());
    let mut overlays: Vec<(u8, BakedLedRules)> = Vec::new();
    let mut k: usize = 0;
    while k < stacked.len()
        invariant
            k <= stacked@.len(),
            profile_blends_fit(*cfg, blends@),
            order == stacked@.map_values(|i: usize| i as int),
            order.len() == stacked@.len(),
            forall|j: int| 0 <= j < stacked@.len() ==> #[trigger] stacked@[j] < cfg.profiles@.len(),
            overlays@.len() == k,
            forall|j: int|
                0 <= j < k ==> bakes_profile(
                    #[trigger] overlays@[j],
                    cfg.profiles@[order[j]],
                    cfg.total_leds,
                    blends@[order[j]]@,
                ),
        decreases stacked@.len() - k,
    {
        overlays.push(bake_profile(cfg, stacked[k], blends));
        k = k + 1;
    }
    (main_baked, overlays)
}

// ---------------------------------------------------------------------------
// The task
// ---------------------------------------------------------------------------

/// Messages sent to the LED task
#[derive(Debug, Clone, Copy, PartialEq, Eq, Structural)]
pub enum LedTaskMessage {
    /// Decoded PID value update from cache manager
    PidValue { pid: u8, value: u32 },
    /// Config changed, recalculate render interval
    ConfigChanged,
    /// Brightness changed (0-255), apply immediately
    Brightness(u8),
}

/// What ended the wait of the task.
#[derive(Debug, Clone, Copy, PartialEq, Eq, Structural)]
pub enum LedTaskEvent {
    /// A message came.
    Message(LedTaskMessage),
    /// The timeout passed; `render` is what
    /// [`LedDisplayTaskState::compute_timeout`] gave along with it.
    Timeout { render: bool },
    /// Nobody can send messages any more.
    Disconnected,
}

/// What to do after an event.
#[derive(Debug)]
pub enum LedTaskAction {
    /// End the task.
    Exit,
    /// Leave the LEDs as they are.
    Keep,
    /// Turn all LEDs off.
    TurnOff,
    /// Show colors, and tell the clients about a PID's value.
    Show { leds: Vec<RGB8>, publish: Option<(u8, u32)> },
}

/// What the task keeps track of between events.
#[derive(Debug, Clone, Copy, PartialEq, Eq, Structural)]
pub struct DisplayStatus {
    /// Last rendered value for the main profile's PID
    pub last_rendered_main_value: Option<u32>,
    pub last_blink_on: Option<bool>,
    /// When set, use `preview_value` override until this timestamp (ms)
    pub preview_override_until: Option<u64>,
    pub blink_interval_ms: Option<u64>,
    pub stale_timeout_ms: Option<u64>,
}

/// Internal state for the LED display task.
#[derive(Debug)]
pub struct LedDisplayTaskState {
    /// Per-PID decoded values with last-update timestamps (ns)
    pub pid_values: HashMap<u8, (u32, u64)>,
    pub status: DisplayStatus,
    /// Baked rules for active normal profile: (pid, baked)
    pub main_baked: Option<(u8, BakedLedRules)>,
    /// Baked rules for overlay profiles: [(pid, baked), ...]
    pub overlay_baked: Vec<(u8, BakedLedRules)>,
}

/// The value of a PID, if there is one.
pub open spec fn value_of(values: Map<u8, (u32, u64)>, pid: Option<u8>) -> Option<u32> {
    if pid is Some && values.contains_key(pid->0) {
        Some(values[pid->0].0)
    } else {
        None
    }
}

/// The value of a PID, if there is one that is not stale.
pub open spec fn fresh_value(
    values: Map<u8, (u32, u64)>,
    pid: u8,
    stale_timeout_ms: Option<u64>,
    now_ns: u64,
) -> Option<u32> {
    if values.contains_key(pid) && !is_stale(stale_timeout_ms, values[pid].1, now_ns) {
        Some(values[pid].0)
    } else {
        None
    }
}

/// A strip with layers stacked on it: each one whose PID has a fresh value.
pub open spec fn after_layers(
    leds: Seq<RGB8>,
    layers: Seq<(u8, BakedLedRules)>,
    values: Map<u8, (u32, u64)>,
    stale_timeout_ms: Option<u64>,
    clock: Clock,
) -> Seq<RGB8>
    decreases layers.len(),
{
    if layers.len() == 0 {
        leds
    } else {
        let below = after_layers(leds, layers.drop_last(), values, stale_timeout_ms, clock);
        match fresh_value(values, layers.last().0, stale_timeout_ms, clock.now_ns) {
            Some(value) => after_rules(below, layers.last().1.rules@, value, clock.wall_ms),
            None => below,
        }
    }
}

/// The blink phase has changed since it was last shown.
pub open spec fn display_phase_changed(s: DisplayStatus, wall_ms: u64) -> bool {
    s.blink_interval_ms is Some && s.last_blink_on != Some(
        phase_on(wall_ms, s.blink_interval_ms->0),
    )
}

/// A preview is being shown.
pub open spec fn display_previewing(s: DisplayStatus, timestamp_ms: u64) -> bool {
    s.preview_override_until is Some && timestamp_ms < s.preview_override_until->0
}

/// The status once an expired preview has been dropped.
pub open spec fn display_preview_checked(s: DisplayStatus, timestamp_ms: u64) -> DisplayStatus {
    if display_previewing(s, timestamp_ms) {
        s
    } else {
        DisplayStatus { preview_override_until: None, ..s }
    }
}

/// The value to render for the main profile: that of the preview while it
/// lasts, else the value of the main PID.
pub open spec fn main_render_value(
    s: DisplayStatus,
    main_pid: Option<u8>,
    values: Map<u8, (u32, u64)>,
    cfg: DisplayConfig,
    timestamp_ms: u64,
) -> Option<u32> {
    if display_previewing(s, timestamp_ms) && cfg.active_normal() is Some {
        Some(cfg.profiles@[cfg.active_normal()->0].preview_value)
    } else {
        value_of(values, main_pid)
    }
}

/// The value to tell the clients about on rendering: that of the main PID,
/// where it differs from the last one rendered and no preview is shown.
pub open spec fn value_to_publish(
    s: DisplayStatus,
    main_pid: Option<u8>,
    values: Map<u8, (u32, u64)>,
) -> Option<(u8, u32)> {
    let current = value_of(values, main_pid);
    if s.preview_override_until is None && s.last_rendered_main_value != current && current is Some
    {
        Some((main_pid->0, current->0))
    } else {
        None
    }
}

/// The status after the main profile was rendered.
pub open spec fn display_rendered(
    s: DisplayStatus,
    main_pid: Option<u8>,
    values: Map<u8, (u32, u64)>,
    timestamp_ms: u64,
) -> DisplayStatus {
    DisplayStatus {
        last_rendered_main_value: if s.preview_override_until is None {
            value_of(values, main_pid)
        } else {
            s.last_rendered_main_value
        },
        last_blink_on: match s.blink_interval_ms {
            Some(interval) => Some(phase_on(timestamp_ms, interval)),
            None => s.last_blink_on,
        },
        ..s
    }
}

/// The value of the main PID has not been updated for too long.
pub open spec fn main_stale(
    s: DisplayStatus,
    main_pid: Option<u8>,
    values: Map<u8, (u32, u64)>,
    now_ns: u64,
) -> bool {
    main_pid is Some && values.contains_key(main_pid->0) && is_stale(
        s.stale_timeout_ms,
        values[main_pid->0].1,
        now_ns,
    )
}

/// The status after the first part of an event: before staleness is checked.
pub open spec fn status_received(
    s: DisplayStatus,
    event: LedTaskEvent,
    cfg: DisplayConfig,
    triggered_enabled: Seq<bool>,
    clock: Clock,
) -> DisplayStatus {
    match event {
        LedTaskEvent::Message(LedTaskMessage::ConfigChanged) => status_reloaded(
            s,
            cfg,
            triggered_enabled,
        ),
        LedTaskEvent::Message(LedTaskMessage::Brightness(_)) => DisplayStatus {
            preview_override_until: Some((clock.wall_ms + cfg.preview_duration_ms) as u64),
            ..s
        },
        _ => s,
    }
}

/// The status after a configuration change.
pub open spec fn status_reloaded(
    s: DisplayStatus,
    cfg: DisplayConfig,
    triggered_enabled: Seq<bool>,
) -> DisplayStatus {
    DisplayStatus {
        blink_interval_ms: match display_interval(cfg, triggered_enabled) {
            Some(ms) => Some(ms as u64),
            None => None,
        },
        stale_timeout_ms: configured_stale_timeout(cfg.rpm_stale_timeout_ms),
        last_blink_on: None,
        ..s
    }
}

/// The values after the first part of an event.
pub open spec fn values_received(
    values: Map<u8, (u32, u64)>,
    event: LedTaskEvent,
    clock: Clock,
) -> Map<u8, (u32, u64)> {
    match event {
        LedTaskEvent::Message(LedTaskMessage::PidValue { pid, value }) => values.insert(
            pid,
            (value, clock.now_ns),
        ),
        _ => values,
    }
}

/// The event by itself calls for rendering.
pub open spec fn display_event_renders(
    s: DisplayStatus,
    values: Map<u8, (u32, u64)>,
    event: LedTaskEvent,
    clock: Clock,
) -> bool {
    match event {
        LedTaskEvent::Message(LedTaskMessage::PidValue { pid, value }) => value_of(
            values,
            Some(pid),
        ) != Some(value) || display_phase_changed(s, clock.wall_ms),
        LedTaskEvent::Message(_) => true,
        LedTaskEvent::Timeout { render } => render,
        LedTaskEvent::Disconnected => false,
    }
}

/// The timeout of the wait without any value that may go stale.
pub open spec fn base_timeout(s: DisplayStatus, wall_ms: u64) -> int {
    match s.blink_interval_ms {
        Some(interval) => until_deadline(wall_ms, interval),
        None => DEFAULT_TIMEOUT_MS as int,
    }
}

/// The timeout is the least of the base timeout and of the times until a value
/// goes stale.
pub open spec fn is_display_timeout(
    timeout_ms: int,
    s: DisplayStatus,
    values: Map<u8, (u32, u64)>,
    clock: Clock,
) -> bool {
    let base = base_timeout(s, clock.wall_ms);
    match s.stale_timeout_ms {
        None => timeout_ms == base,
        Some(stale_ms) => {
            &&& timeout_ms <= base
            &&& forall|pid: u8| #[trigger]
                values.contains_key(pid) ==> timeout_ms <= until_stale(
                    stale_ms,
                    values[pid].1,
                    clock.now_ns,
                )
            &&& timeout_ms == base || exists|pid: u8| #[trigger]
                values.contains_key(pid) && timeout_ms == until_stale(
                    stale_ms,
                    values[pid].1,
                    clock.now_ns,
                )
        },
    }
}

impl LedDisplayTaskState {
    /// The rules are baked, and a blink interval is not zero.
    pub open spec fn well_formed(&self) -> bool {
        &&& self.status.blink_interval_ms is Some ==> self.status.blink_interval_ms->0 > 0
        &&& self.main_baked is Some ==> (self.main_baked->0).1.well_formed()
        &&& forall|k: int|
            0 <= k < self.overlay_baked@.len() ==> (#[trigger] self.overlay_baked@[k]).1.well_formed()
    }

    /// The PID of the base layer.
    pub open spec fn main_pid(&self) -> Option<u8> {
        match self.main_baked {
            Some(main) => Some(main.0),
            None => None,
        }
    }

    /// Nothing but values and status differ.
    pub open spec fn same_layers(&self, other: &Self) -> bool {
        self.main_baked == other.main_baked && self.overlay_baked == other.overlay_baked
    }

    /// A task that has not received any value yet. `blends` holds the blended
    /// colors of each rule of each profile.
    pub fn new(cfg: &DisplayConfig, triggered_enabled: &[bool], blends: &[Vec<Vec<RGB8>>]) -> (r:
        Self)
        requires
            profile_blends_fit(*cfg, blends@),
        ensures
            r.well_formed(),
            r.pid_values@ == Map::<u8, (u32, u64)>::empty(),
            r.status == status_reloaded(
                (DisplayStatus {
                    last_rendered_main_value: None,
                    last_blink_on: None,
                    preview_override_until: None,
                    blink_interval_ms: None,
                    stale_timeout_ms: None,
                }),
                *cfg,
                triggered_enabled@,
            ),
            bakes_main(r.main_baked, *cfg, triggered_enabled@, blends@),
            bakes_overlays(r.overlay_baked@, *cfg, triggered_enabled@, blends@),
    {
        let (main_baked, overlay_baked) = bake_profiles(cfg, triggered_enabled, blends);
        LedDisplayTaskState {
            pid_values: HashMap::new(),
            status: DisplayStatus {
                last_rendered_main_value: None,
                last_blink_on: None,
                preview_override_until: None,
                blink_interval_ms: compute_blink_interval(cfg, triggered_enabled),
                stale_timeout_ms: stale_timeout_from_config(cfg.rpm_stale_timeout_ms),
            },
            main_baked,
            overlay_baked,
        }
    }

    /// Reload blink interval, baked rules, and stale timeout from config.
    pub fn reload_config(
        &mut self,
        cfg: &DisplayConfig,
        triggered_enabled: &[bool],
        blends: &[Vec<Vec<RGB8>>],
    )
        requires
            profile_blends_fit(*cfg, blends@),
        ensures
            final(self).well_formed(),
            final(self).pid_values@ == old(self).pid_values@,
            final(self).status == status_reloaded(old(self).status, *cfg, triggered_enabled@),
            bakes_main(final(self).main_baked, *cfg, triggered_enabled@, blends@),
            bakes_overlays(final(self).overlay_baked@, *cfg, triggered_enabled@, blends@),
    {
        self.status.blink_interval_ms = compute_blink_interval(cfg, triggered_enabled);
        let (main_baked, overlay_baked) = bake_profiles(cfg, triggered_enabled, blends);
        self.main_baked = main_baked;
        self.overlay_baked = overlay_baked;
        self.status.stale_timeout_ms = stale_timeout_from_config(cfg.rpm_stale_timeout_ms);
        self.status.last_blink_on = None;
    }

    /// Compute the receive timeout in ms and whether to render on timeout.
    pub fn compute_timeout(&self, clock: Clock) -> (r: (u64, bool))
        requires
            self.well_formed(),
        ensures
            is_display_timeout(r.0 as int, self.status, self.pid_values@, clock),
            r.1 == (self.status.blink_interval_ms is Some),
    {
        let (base, render): (u64, bool) = match self.status.blink_interval_ms {
            Some(interval) => (time_until_next_deadline(clock.wall_ms, interval), true),
            None => (DEFAULT_TIMEOUT_MS, false),
        };
        let stale_ms: u64 = match self.status.stale_timeout_ms {
            Some(stale_ms) => stale_ms,
            None => {
                return (base, render);
            },
        };
        let mut timeout_ms: u64 = base;
        let mut n: u16 = 0;
        while n < 256
            invariant
                n <= 256,
                base == base_timeout(self.status, clock.wall_ms),
                timeout_ms <= base,
                forall|pid: u8|
                    pid < n && #[trigger] self.pid_values@.contains_key(pid) ==> timeout_ms
                        <= until_stale(stale_ms, self.pid_values@[pid].1, clock.now_ns),
                timeout_ms == base || exists|pid: u8| #[trigger]
                    self.pid_values@.contains_key(pid) && timeout_ms == until_stale(
                        stale_ms,
                        self.pid_values@[pid].1,
                        clock.now_ns,
                    ),
            decreases 256 - n,
        {
            let pid: u8 = n as u8;
            if let Some(entry) = self.pid_values.get(&pid) {
                assert(self.pid_values@.contains_key(pid));
                timeout_ms = capped_until_stale(stale_ms, entry.1, clock.now_ns, timeout_ms);
            }
            n = n + 1;
        }
        (timeout_ms, render)
    }

    /// Check for staleness of the main profile's PID; returns true if stale.
    pub fn check_main_staleness(&mut self, now_ns: u64) -> (r: bool)
        requires
            old(self).well_formed(),
        ensures
            final(self).well_formed(),
            final(self).same_layers(old(self)),
            r == main_stale(old(self).status, old(self).main_pid(), old(self).pid_values@, now_ns),
            if r {
                &&& final(self).pid_values@ == old(self).pid_values@.remove(
                    old(self).main_pid()->0,
                )
                &&& final(self).status == (DisplayStatus {
                    last_rendered_main_value: None,
                    ..old(self).status
                })
            } else {
                &&& final(self).pid_values@ == old(self).pid_values@
                &&& final(self).status == old(self).status
            },
    {
        let pid: u8 = match &self.main_baked {
            Some(main) => main.0,
            None => {
                return false;
            },
        };
        let is_old = match self.pid_values.get(&pid) {
            Some(entry) => stale(self.status.stale_timeout_ms, entry.1, now_ns),
            None => false,
        };
        if is_old {
            self.pid_values.remove(&pid);
            self.status.last_rendered_main_value = None;
        }
        is_old
    }

    /// Handle an incoming PID value message; returns whether to render.
    pub fn handle_pid_value(&mut self, pid: u8, value: u32, clock: Clock) -> (r: bool)
        requires
            old(self).well_formed(),
        ensures
            final(self).well_formed(),
            final(self).same_layers(old(self)),
            final(self).status == old(self).status,
            final(self).pid_values@ == old(self).pid_values@.insert(pid, (value, clock.now_ns)),
            r == (value_of(old(self).pid_values@, Some(pid)) != Some(value)
                || display_phase_changed(old(self).status, clock.wall_ms)),
    {
        let changed = match self.pid_values.get(&pid) {
            Some(entry) => entry.0 != value,
            None => true,
        };
        self.pid_values.insert(pid, (value, clock.now_ns));
        let phase = match self.status.blink_interval_ms {
            Some(interval) => {
                let on = blink_phase_on(clock.wall_ms, interval);
                match self.status.last_blink_on {
                    Some(last) => last != on,
                    None => true,
                }
            },
            None => false,
        };
        changed || phase
    }

    /// Handle a brightness change: show the preview for a while.
    pub fn handle_brightness(&mut self, preview_duration_ms: u32, wall_ms: u64) -> (r: bool)
        requires
            old(self).well_formed(),
            wall_ms + preview_duration_ms <= u64::MAX,
        ensures
            final(self).well_formed(),
            final(self).same_layers(old(self)),
            final(self).pid_values@ == old(self).pid_values@,
            final(self).status == (DisplayStatus {
                preview_override_until: Some((wall_ms + preview_duration_ms) as u64),
                ..old(self).status
            }),
            r,
    {
        self.status.preview_override_until = Some(wall_ms + preview_duration_ms as u64);
        true
    }

    /// The current value of the main PID.
    fn main_value(&self) -> (r: Option<u32>)
        ensures
            r == value_of(self.pid_values@, self.main_pid()),
    {
        match &self.main_baked {
            Some(main) => match self.pid_values.get(&main.0) {
                Some(entry) => Some(entry.0),
                None => None,
            },
            None => None,
        }
    }

    /// Get the value to render for the main profile (preview override or actual PID).
    pub fn get_main_render_value(&mut self, cfg: &DisplayConfig, timestamp_ms: u64) -> (r: Option<
        u32,
    >)
        requires
            old(self).well_formed(),
        ensures
            final(self).well_formed(),
            final(self).same_layers(old(self)),
            final(self).pid_values@ == old(self).pid_values@,
            final(self).status == display_preview_checked(old(self).status, timestamp_ms),
            r == main_render_value(
                old(self).status,
                old(self).main_pid(),
                old(self).pid_values@,
                *cfg,
                timestamp_ms,
            ),
    {
        let preview = match self.status.preview_override_until {
            Some(until) => timestamp_ms < until,
            None => false,
        };
        if !preview {
            self.status.preview_override_until = None;
            return self.main_value();
        }
        match cfg.active_normal_profile() {
            Some(index) => Some(cfg.profiles[index].preview_value),
            None => self.main_value(),
        }
    }

    /// Get a PID value if it's not stale.
    pub fn get_fresh_pid_value(&self, pid: u8, now_ns: u64) -> (r: Option<u32>)
        ensures
            r == fresh_value(self.pid_values@, pid, self.status.stale_timeout_ms, now_ns),
    {
        match self.pid_values.get(&pid) {
            Some(entry) => if stale(self.status.stale_timeout_ms, entry.1, now_ns) {
                None
            } else {
                Some(entry.0)
            },
            None => None,
        }
    }

    /// Update the last blink phase after rendering.
    pub fn update_blink_phase(&mut self, timestamp_ms: u64)
        requires
            old(self).well_formed(),
        ensures
            final(self).well_formed(),
            final(self).same_layers(old(self)),
            final(self).pid_values@ == old(self).pid_values@,
            final(self).status == (DisplayStatus {
                last_blink_on: match old(self).status.blink_interval_ms {
                    Some(interval) => Some(phase_on(timestamp_ms, interval)),
                    None => old(self).status.last_blink_on,
                },
                ..old(self).status
            }),
    {
        if let Some(interval) = self.status.blink_interval_ms {
            self.status.last_blink_on = Some(blink_phase_on(timestamp_ms, interval));
        }
    }

    /// Stack the layers on a strip.
    fn stack(&self, leds: &mut Vec<RGB8>, clock: Clock)
        requires
            self.well_formed(),
        ensures
            final(leds)@ == after_layers(
                old(leds)@,
                self.overlay_baked@,
                self.pid_values@,
                self.status.stale_timeout_ms,
                clock,
            ),
    {
        let mut has_blinking = false;
        let mut k: usize = 0;
        assert(self.overlay_baked@.take(0) =~= Seq::empty());
        while k < self.overlay_baked.len()
            invariant
                k <= self.overlay_baked@.len(),
                self.well_formed(),
                leds@ == after_layers(
                    old(leds)@,
                    self.overlay_baked@.take(k as int),
                    self.pid_values@,
                    self.status.stale_timeout_ms,
                    clock,
                ),
            decreases self.overlay_baked@.len() - k,
        {
            let layer: &(u8, BakedLedRules) = &self.overlay_baked[k];
            assert(self.overlay_baked@.take(k + 1).drop_last() =~= self.overlay_baked@.take(
                k as int,
            ));
            assert(self.overlay_baked@[k as int].1.well_formed());
            if let Some(value) = self.get_fresh_pid_value(layer.0, clock.now_ns) {
                apply_rules(value, &layer.1, clock.wall_ms, leds, &mut has_blinking);
            }
            k = k + 1;
        }
        assert(self.overlay_baked@.take(k as int) =~= self.overlay_baked@);
    }

    /// Render LEDs: base layer from main profile + overlay stacking.
    pub fn render(&mut self, cfg: &DisplayConfig, clock: Clock) -> (r: LedTaskAction)
        requires
            old(self).well_formed(),
        ensures
            final(self).well_formed(),
            final(self).same_layers(old(self)),
            final(self).pid_values@ == old(self).pid_values@,
            renders(
                old(self).status,
                old(self).pid_values@,
                old(self).main_baked,
                old(self).overlay_baked@,
                *cfg,
                clock,
                final(self).status,
                r,
            ),
    {
        match self.get_main_render_value(cfg, clock.wall_ms) {
            Some(main_value) => {
                let mut publish: Option<(u8, u32)> = None;
                // Tell the clients if the actual value changed (not during preview)
                if self.status.preview_override_until.is_none() {
                    let current = self.main_value();
                    let same = match (self.status.last_rendered_main_value, current) {
                        (Some(a), Some(b)) => a == b,
                        (None, None) => true,
                        _ => false,
                    };
                    if !same {
                        if let Some(value) = current {
                            if let Some(main) = &self.main_baked {
                                publish = Some((main.0, value));
                            }
                        }
                        self.status.last_rendered_main_value = current;
                    }
                }
                self.update_blink_phase(clock.wall_ms);
                match &self.main_baked {
                    Some(main) => {
                        // Base layer from the main profile, overlays on top
                        let base = compute_led_state(main_value, &main.1, clock.wall_ms);
                        let mut leds = base.leds;
                        self.stack(&mut leds, clock);
                        LedTaskAction::Show { leds, publish }
                    },
                    None => LedTaskAction::Keep,
                }
            },
            None => {
                // No main PID data: still render overlays that have data
                let mut leds = solid(RGB8::default(), cfg.total_leds);
                self.stack(&mut leds, clock);
                LedTaskAction::Show { leds, publish: None }
            },
        }
    }

    /// Handle one event: a message, or the end of the wait.
    pub fn step(
        &mut self,
        event: LedTaskEvent,
        cfg: &DisplayConfig,
        triggered_enabled: &[bool],
        blends: &[Vec<Vec<RGB8>>],
        clock: Clock,
    ) -> (r: LedTaskAction)
        requires
            old(self).well_formed(),
            profile_blends_fit(*cfg, blends@),
            clock.wall_ms + cfg.preview_duration_ms <= u64::MAX,
        ensures
            final(self).well_formed(),
            if event == LedTaskEvent::Message(LedTaskMessage::ConfigChanged) {
                &&& bakes_main(final(self).main_baked, *cfg, triggered_enabled@, blends@)
                &&& bakes_overlays(final(self).overlay_baked@, *cfg, triggered_enabled@, blends@)
            } else {
                final(self).same_layers(old(self))
            },
            ({
                let s = status_received(
                    old(self).status,
                    event,
                    *cfg,
                    triggered_enabled@,
                    clock,
                );
                let values = values_received(old(self).pid_values@, event, clock);
                let main_pid = final(self).main_pid();
                if event == LedTaskEvent::Disconnected {
                    &&& r is Exit
                    &&& final(self).status == s
                    &&& final(self).pid_values@ == values
                } else if main_stale(s, main_pid, values, clock.now_ns) {
                    // No update of the main PID within the timeout
                    &&& r is TurnOff
                    &&& final(self).status == (DisplayStatus {
                        last_rendered_main_value: None,
                        ..s
                    })
                    &&& final(self).pid_values@ == values.remove(main_pid->0)
                } else if !display_event_renders(
                    old(self).status,
                    old(self).pid_values@,
                    event,
                    clock,
                ) && !(s.preview_override_until is Some && clock.wall_ms
                    >= s.preview_override_until->0) {
                    &&& r is Keep
                    &&& final(self).status == s
                    &&& final(self).pid_values@ == values
                } else {
                    &&& final(self).pid_values@ == values
                    &&& renders(
                        s,
                        values,
                        final(self).main_baked,
                        final(self).overlay_baked@,
                        *cfg,
                        clock,
                        final(self).status,
                        r,
                    )
                }
            }),
    {
        let mut should_render = match event {
            LedTaskEvent::Message(LedTaskMessage::PidValue { pid, value }) => self.handle_pid_value(
                pid,
                value,
                clock,
            ),
            LedTaskEvent::Message(LedTaskMessage::ConfigChanged) => {
                self.reload_config(cfg, triggered_enabled, blends);
                true
            },
            LedTaskEvent::Message(LedTaskMessage::Brightness(_)) => self.handle_brightness(
                cfg.preview_duration_ms,
                clock.wall_ms,
            ),
            LedTaskEvent::Timeout { render } => render,
            LedTaskEvent::Disconnected => {
                return LedTaskAction::Exit;
            },
        };
        if self.check_main_staleness(clock.now_ns) {
            return LedTaskAction::TurnOff;
        }
        // Force render when the brightness preview expires
        if let Some(until) = self.status.preview_override_until {
            if clock.wall_ms >= until {
                should_render = true;
            }
        }
        if should_render {
            self.render(cfg, clock)
        } else {
            LedTaskAction::Keep
        }
    }
}

/// What rendering leads to: the base layer with the layers on top; without a
/// value for the base layer only the layers, on a strip that is off. A preview
/// shows nothing while there is no base layer.
pub open spec fn renders(
    s: DisplayStatus,
    values: Map<u8, (u32, u64)>,
    main: Option<(u8, BakedLedRules)>,
    overlays: Seq<(u8, BakedLedRules)>,
    cfg: DisplayConfig,
    clock: Clock,
    after: DisplayStatus,
    action: LedTaskAction,
) -> bool {
    let main_pid = match main {
        Some(layer) => Some(layer.0),
        None => None,
    };
    let checked = display_preview_checked(s, clock.wall_ms);
    match main_render_value(s, main_pid, values, cfg, clock.wall_ms) {
        Some(value) => {
            &&& after == display_rendered(checked, main_pid, values, clock.wall_ms)
            &&& match main {
                Some(layer) => {
                    &&& action is Show
                    &&& action->publish == value_to_publish(checked, main_pid, values)
                    &&& action->leds@ == after_layers(
                        after_rules(
                            Seq::new(layer.1.total_leds as nat, |i: int| black()),
                            layer.1.rules@,
                            value,
                            clock.wall_ms,
                        ),
                        overlays,
                        values,
                        s.stale_timeout_ms,
                        clock,
                    )
                },
                None => action is Keep,
            }
        },
        None => {
            &&& after == checked
            &&& action is Show
            &&& action->publish is None
            &&& action->leds@ == after_layers(
                Seq::new(cfg.total_leds as nat, |i: int| black()),
                overlays,
                values,
                s.stale_timeout_ms,
                clock,
            )
        },
    }
}

// ---------------------------------------------------------------------------
// Laws
// ---------------------------------------------------------------------------

/// Stale values are not shown: layers whose values are all stale or missing
/// leave the strip as it is.
pub proof fn law_stale_layers_show_nothing(
    leds: Seq<RGB8>,
    layers: Seq<(u8, BakedLedRules)>,
    values: Map<u8, (u32, u64)>,
    stale_timeout_ms: Option<u64>,
    clock: Clock,
)
    requires
        forall|k: int|
            0 <= k < layers.len() ==> fresh_value(
                values,
                (#[trigger] layers[k]).0,
                stale_timeout_ms,
                clock.now_ns,
            ) is None,
    ensures
        after_layers(leds, layers, values, stale_timeout_ms, clock) == leds,
    decreases layers.len(),
{
    if layers.len() > 0 {
        assert(layers.last() == layers[layers.len() - 1]);
        assert forall|k: int| 0 <= k < layers.drop_last().len() implies fresh_value(
            values,
            (#[trigger] layers.drop_last()[k]).0,
            stale_timeout_ms,
            clock.now_ns,
        ) is None by {
            assert(layers.drop_last()[k] == layers[k]);
        }
        law_stale_layers_show_nothing(leds, layers.drop_last(), values, stale_timeout_ms, clock);
    }
}

/// A switched-on triggered profile suppresses the normal profile, so that it
/// does not show through: the task has no base layer.
pub proof fn law_triggered_profile_replaces_base(
    cfg: DisplayConfig,
    triggered_enabled: Seq<bool>,
    blends: Seq<Vec<Vec<RGB8>>>,
    main: Option<(u8, BakedLedRules)>,
    index: int,
)
    requires
        0 <= index < cfg.profiles@.len(),
        cfg.profiles@[index].profile_type == ProfileType::Triggered,
        switched_on(triggered_enabled, index),
        bakes_main(main, cfg, triggered_enabled, blends),
    ensures
        main is None,
        cfg.stacked(triggered_enabled).contains(index),
{
    lemma_listed(cfg.profiles@, ProfileType::Triggered, triggered_enabled, index);
    let triggered = profiles_of(cfg.profiles@, ProfileType::Triggered, triggered_enabled);
    let overlays = profiles_of(cfg.profiles@, ProfileType::Overlay, triggered_enabled);
    let k = triggered.index_of(index);
    assert(cfg.stacked(triggered_enabled)[overlays.len() + k] == index);
}

proof fn lemma_listed(
    profiles: Seq<DisplayProfile>,
    profile_type: ProfileType,
    triggered_enabled: Seq<bool>,
    index: int,
)
    requires
        0 <= index < profiles.len(),
        profiles[index].profile_type == profile_type,
        profile_type == ProfileType::Triggered ==> switched_on(triggered_enabled, index),
    ensures
        profiles_of(profiles, profile_type, triggered_enabled).contains(index),
    decreases profiles.len(),
{
    let before = profiles_of(profiles.drop_last(), profile_type, triggered_enabled);
    let all = profiles_of(profiles, profile_type, triggered_enabled);
    if index == profiles.len() - 1 {
        assert(all[before.len() as int] == index);
    } else {
        lemma_listed(profiles.drop_last(), profile_type, triggered_enabled, index);
        let k = before.index_of(index);
        assert(all[k] == index);
    }
}

/// The profiles of a type are listed by index, lowest first and each once: all of
/// that type, but of the triggered ones only those that are switched on.
pub proof fn law_profiles_are_listed_in_order(
    profiles: Seq<DisplayProfile>,
    profile_type: ProfileType,
    triggered_enabled: Seq<bool>,
)
    ensures
        ({
            let list = profiles_of(profiles, profile_type, triggered_enabled);
            &&& forall|k: int|
                0 <= k < list.len() ==> 0 <= #[trigger] list[k] < profiles.len()
                    && profiles[list[k]].profile_type == profile_type && (profile_type
                    == ProfileType::Triggered ==> list[k] < triggered_enabled.len()
                    && triggered_enabled[list[k]])
            &&& forall|k: int, l: int| 0 <= k < l < list.len() ==> list[k] < list[l]
            &&& forall|i: int|
                0 <= i < profiles.len() && (#[trigger] profiles[i]).profile_type == profile_type && (
                profile_type == ProfileType::Triggered ==> i < triggered_enabled.len()
                    && triggered_enabled[i]) ==> list.contains(i)
        }),
    decreases profiles.len(),
{
    let list = profiles_of(profiles, profile_type, triggered_enabled);
    if profiles.len() > 0 {
        law_profiles_are_listed_in_order(profiles.drop_last(), profile_type, triggered_enabled);
        let before = profiles_of(profiles.drop_last(), profile_type, triggered_enabled);
        assert forall|k: int| 0 <= k < list.len() implies 0 <= #[trigger] list[k] < profiles.len()
            && profiles[list[k]].profile_type == profile_type && (profile_type
            == ProfileType::Triggered ==> list[k] < triggered_enabled.len()
            && triggered_enabled[list[k]]) by {
            if k < before.len() {
                assert(list[k] == before[k]);
                assert(profiles.drop_last()[list[k]] == profiles[list[k]]);
            }
        }
        assert forall|k: int, l: int| 0 <= k < l < list.len() implies list[k] < list[l] by {
            assert(list[k] == before[k]);
            if l < before.len() {
                assert(list[l] == before[l]);
            }
        }
    }
    assert forall|i: int|
        0 <= i < profiles.len() && (#[trigger] profiles[i]).profile_type == profile_type && (
        profile_type == ProfileType::Triggered ==> i < triggered_enabled.len()
            && triggered_enabled[i]) implies list.contains(i) by {
        lemma_listed(profiles, profile_type, triggered_enabled, i);
    }
}

/// On top of the base layer come the overlays, and on top of those the triggered
/// profiles; a normal profile is never stacked.
pub proof fn law_triggered_profiles_are_on_top(
    cfg: DisplayConfig,
    triggered_enabled: Seq<bool>,
    i: int,
    j: int,
)
    requires
        0 <= i < j < cfg.stacked(triggered_enabled).len(),
    ensures
        ({
            let order = cfg.stacked(triggered_enabled);
            let lower = cfg.profiles@[order[i]].profile_type;
            let upper = cfg.profiles@[order[j]].profile_type;
            &&& lower != ProfileType::Normal && upper != ProfileType::Normal
            &&& lower == ProfileType::Triggered ==> upper == ProfileType::Triggered
            &&& lower == upper ==> order[i] < order[j]
        }),
{
    law_profiles_are_listed_in_order(cfg.profiles@, ProfileType::Overlay, triggered_enabled);
    law_profiles_are_listed_in_order(cfg.profiles@, ProfileType::Triggered, triggered_enabled);
    let overlays = profiles_of(cfg.profiles@, ProfileType::Overlay, triggered_enabled);
    let triggered = profiles_of(cfg.profiles@, ProfileType::Triggered, triggered_enabled);
    let order = cfg.stacked(triggered_enabled);
    assert(order[i] == if i < overlays.len() {
        overlays[i]
    } else {
        triggered[i - overlays.len()]
    });
    assert(order[j] == if j < overlays.len() {
        overlays[j]
    } else {
        triggered[j - overlays.len()]
    });
}

/// The base layer is the active profile, if it is a normal one.
pub proof fn law_base_layer_is_the_active_profile(
    cfg: DisplayConfig,
    triggered_enabled: Seq<bool>,
    blends: Seq<Vec<Vec<RGB8>>>,
    main: Option<(u8, BakedLedRules)>,
)
    requires
        bakes_main(main, cfg, triggered_enabled, blends),
        forall|i: int|
            0 <= i < cfg.profiles@.len() && (#[trigger] cfg.profiles@[i]).profile_type
                == ProfileType::Triggered ==> i >= triggered_enabled.len() || !triggered_enabled[i],
    ensures
        main is Some <==> cfg.active_profile < cfg.profiles@.len()
            && cfg.profiles@[cfg.active_profile as int].profile_type == ProfileType::Normal,
        main is Some ==> {
            let profile = cfg.profiles@[cfg.active_profile as int];
            &&& (main->0).0 == profile.pid
            &&& (main->0).1.total_leds == cfg.total_leds
            &&& (main->0).1.rules@.len() == profile.rules@.len()
        },
{
    law_profiles_are_listed_in_order(cfg.profiles@, ProfileType::Triggered, triggered_enabled);
    let triggered = profiles_of(cfg.profiles@, ProfileType::Triggered, triggered_enabled);
    if triggered.len() > 0 {
        assert(cfg.profiles@[triggered[0]].profile_type == ProfileType::Triggered);
    }
}

/// Each layer on top is a profile of the configuration, with its PID.
pub proof fn law_layers_follow_the_profiles(
    overlays: Seq<(u8, BakedLedRules)>,
    cfg: DisplayConfig,
    triggered_enabled: Seq<bool>,
    blends: Seq<Vec<Vec<RGB8>>>,
    k: int,
)
    requires
        bakes_overlays(overlays, cfg, triggered_enabled, blends),
        0 <= k < overlays.len(),
    ensures
        overlays.len() == cfg.stacked(triggered_enabled).len(),
        overlays[k].0 == cfg.profiles@[cfg.stacked(triggered_enabled)[k]].pid,
        overlays[k].1.total_leds == cfg.total_leds,
        overlays[k].1.rules@.len() == cfg.profiles@[cfg.stacked(triggered_enabled)[k]].rules@.len(),
{
}

/// The blink interval of several profiles is there if one of them blinks. It
/// divides the interval of each, so that no change of phase is missed, and no
/// larger number does.
pub proof fn law_combined_interval(
    first: Option<nat>,
    profiles: Seq<DisplayProfile>,
    indices: Seq<int>,
    d: nat,
)
    requires
        first is Some ==> first->0 > 0,
        d > 0,
        first is Some ==> first->0 % d == 0,
        forall|k: int|
            #![trigger indices[k]]
            0 <= k < indices.len() ==> (render_interval(profiles[indices[k]].rules@) matches Some(
                ms,
            ) ==> ms > 0 && ms % d == 0),
    ensures
        combined_interval(first, profiles, indices) is Some <==> first is Some || exists|k: int|
            #![trigger indices[k]]
            0 <= k < indices.len() && render_interval(profiles[indices[k]].rules@) is Some,
        combined_interval(first, profiles, indices) matches Some(ms) ==> {
            &&& ms > 0
            &&& ms % d == 0
            &&& d <= ms
            &&& first is Some ==> first->0 % ms == 0
            &&& forall|k: int|
                #![trigger indices[k]]
                0 <= k < indices.len() ==> (render_interval(
                    profiles[indices[k]].rules@,
                ) matches Some(own) ==> own % ms == 0)
        },
    decreases indices.len(),
{
    if indices.len() == 0 {
        if first is Some {
            lemma_divisor_is_smaller(first->0, d);
            assert(first->0 % first->0 == 0) by {
                vstd::arithmetic::div_mod::lemma_mod_self_0(first->0 as int);
            }
        }
    } else {
        let front = indices.drop_last();
        let last = indices[indices.len() - 1];
        assert forall|k: int|
            #![trigger front[k]]
            0 <= k < front.len() implies (render_interval(profiles[front[k]].rules@) matches Some(
            ms,
        ) ==> ms > 0 && ms % d == 0) by {
            assert(indices[k] == front[k]);
        }
        law_combined_interval(first, profiles, front, d);
        let before = combined_interval(first, profiles, front);
        let own = render_interval(profiles[last].rules@);
        let all = combined_interval(first, profiles, indices);
        assert(all == with_interval(before, own));
        if all is Some {
            let ms = all->0;
            if before is Some && own is Some {
                law_gcd(before->0, own->0);
                lemma_common_divisor(before->0, own->0, d);
                lemma_divisor_is_smaller(ms, d);
                if first is Some {
                    lemma_divides_on(first->0, before->0, ms);
                }
            } else if own is Some {
                lemma_divisor_is_smaller(own->0, d);
                assert(own->0 % own->0 == 0) by {
                    vstd::arithmetic::div_mod::lemma_mod_self_0(own->0 as int);
                }
            }
            assert forall|k: int|
                #![trigger indices[k]]
                0 <= k < indices.len() implies (render_interval(
                profiles[indices[k]].rules@,
            ) matches Some(theirs) ==> theirs % ms == 0) by {
                let theirs = render_interval(profiles[indices[k]].rules@);
                if theirs is Some && k < front.len() {
                    assert(front[k] == indices[k]);
                    assert(before is Some);
                    assert(theirs->0 % before->0 == 0);
                    if own is Some {
                        lemma_divides_on(theirs->0, before->0, ms);
                    }
                }
            }
        }
        if exists|k: int|
            #![trigger indices[k]]
            0 <= k < indices.len() && render_interval(profiles[indices[k]].rules@) is Some {
            let k = choose|k: int|
                #![trigger indices[k]]
                0 <= k < indices.len() && render_interval(profiles[indices[k]].rules@) is Some;
            if k < front.len() {
                assert(front[k] == indices[k]);
            }
        }
        if exists|k: int|
            #![trigger front[k]]
            0 <= k < front.len() && render_interval(profiles[front[k]].rules@) is Some {
            let k = choose|k: int|
                #![trigger front[k]]
                0 <= k < front.len() && render_interval(profiles[front[k]].rules@) is Some;
            assert(indices[k] == front[k]);
        }
    }
}

/// What divides a divisor divides the number.
proof fn lemma_divides_on(n: nat, by: nat, d: nat)
    requires
        by > 0,
        d > 0,
        n % by == 0,
        by % d == 0,
    ensures
        n % d == 0,
{
    vstd::arithmetic::div_mod::lemma_fundamental_div_mod(n as int, by as int);
    vstd::arithmetic::div_mod::lemma_fundamental_div_mod(by as int, d as int);
    let x = n / by;
    let y = by / d;
    assert(n == (y * x) * d) by (nonlinear_arith)
        requires
            n == by * x,
            by == d * y,
    ;
    vstd::arithmetic::div_mod::lemma_mod_multiples_basic((y * x) as int, d as int);
}

/// The display's interval is that of the active profile, if it is a normal one,
/// together with those of the stacked profiles.
pub proof fn law_display_interval_covers_active_profiles(
    cfg: DisplayConfig,
    triggered_enabled: Seq<bool>,
)
    ensures
        cfg.active_profile < cfg.profiles@.len()
            && cfg.profiles@[cfg.active_profile as int].profile_type == ProfileType::Normal
            ==> display_interval(cfg, triggered_enabled) == combined_interval(
            render_interval(cfg.profiles@[cfg.active_profile as int].rules@),
            cfg.profiles@,
            cfg.stacked(triggered_enabled),
        ),
        cfg.active_profile >= cfg.profiles@.len()
            || cfg.profiles@[cfg.active_profile as int].profile_type != ProfileType::Normal
            ==> display_interval(cfg, triggered_enabled) == combined_interval(
            None,
            cfg.profiles@,
            cfg.stacked(triggered_enabled),
        ),
{
}

/// The latest value of a PID is the one that is shown, until the staleness timeout
/// has passed since it came; it leaves the other PIDs' values alone.
pub proof fn law_latest_value_is_shown(
    values: Map<u8, (u32, u64)>,
    pid: u8,
    value: u32,
    other: u8,
    clock: Clock,
    stale_timeout_ms: Option<u64>,
    later_ns: u64,
)
    requires
        other != pid,
    ensures
        ({
            let after = values_received(
                values,
                LedTaskEvent::Message(LedTaskMessage::PidValue { pid, value }),
                clock,
            );
            &&& value_of(after, Some(pid)) == Some(value)
            &&& fresh_value(after, pid, stale_timeout_ms, later_ns) == if stale_timeout_ms is Some
                && later_ns >= clock.now_ns + stale_timeout_ms->0 * 1_000_000 {
                None
            } else {
                Some(value)
            }
            &&& value_of(after, Some(other)) == value_of(values, Some(other))
            &&& after[other] == values[other]
        }),
        value_of(values, None) is None,
        !values.contains_key(pid) ==> value_of(values, Some(pid)) is None && fresh_value(
            values,
            pid,
            stale_timeout_ms,
            later_ns,
        ) is None,
{
}

/// The other events bring no value.
pub proof fn law_only_values_are_received(
    values: Map<u8, (u32, u64)>,
    event: LedTaskEvent,
    clock: Clock,
)
    requires
        !(event is Message && event->Message_0 is PidValue),
    ensures
        values_received(values, event, clock) == values,
{
}

/// Each layer goes on top of what the layers before it show, with the value of
/// its own PID.
pub proof fn law_layers_go_on_top(
    leds: Seq<RGB8>,
    layers: Seq<(u8, BakedLedRules)>,
    layer: (u8, BakedLedRules),
    values: Map<u8, (u32, u64)>,
    value: u32,
    clock: Clock,
)
    requires
        values.contains_key(layer.0),
        values[layer.0].0 == value,
    ensures
        after_layers(leds, layers.push(layer), values, None, clock) == after_rules(
            after_layers(leds, layers, values, None, clock),
            layer.1.rules@,
            value,
            clock.wall_ms,
        ),
{
    assert(layers.push(layer).drop_last() =~= layers);
}

/// A brightness change shows the preview value of the active profile for the
/// configured time, even without any value; meanwhile nothing is told to the
/// clients, and afterwards the actual value is back.
pub proof fn law_display_preview_lasts(
    s: DisplayStatus,
    main_pid: Option<u8>,
    values: Map<u8, (u32, u64)>,
    cfg: DisplayConfig,
    triggered_enabled: Seq<bool>,
    level: u8,
    clock: Clock,
    later_ms: u64,
)
    requires
        clock.wall_ms + cfg.preview_duration_ms <= u64::MAX,
        cfg.active_profile < cfg.profiles@.len(),
        cfg.profiles@[cfg.active_profile as int].profile_type == ProfileType::Normal,
    ensures
        ({
            let after = status_received(
                s,
                LedTaskEvent::Message(LedTaskMessage::Brightness(level)),
                cfg,
                triggered_enabled,
                clock,
            );
            let checked = display_preview_checked(after, later_ms);
            &&& after.last_rendered_main_value == s.last_rendered_main_value
            &&& after.last_blink_on == s.last_blink_on
            &&& after.blink_interval_ms == s.blink_interval_ms
            &&& after.stale_timeout_ms == s.stale_timeout_ms
            &&& later_ms < clock.wall_ms + cfg.preview_duration_ms ==> {
                &&& main_render_value(after, main_pid, values, cfg, later_ms) == Some(
                    cfg.profiles@[cfg.active_profile as int].preview_value,
                )
                &&& value_to_publish(checked, main_pid, values) is None
                &&& display_rendered(checked, main_pid, values, later_ms).last_rendered_main_value
                    == s.last_rendered_main_value
            }
            &&& later_ms >= clock.wall_ms + cfg.preview_duration_ms ==> {
                &&& main_render_value(after, main_pid, values, cfg, later_ms) == value_of(
                    values,
                    main_pid,
                )
                &&& checked.preview_override_until is None
            }
        }),
{
}

/// The clients are told a value of the main PID when it is first rendered, and
/// not again until it changes.
pub proof fn law_values_are_published_once(
    s: DisplayStatus,
    pid: u8,
    values: Map<u8, (u32, u64)>,
    timestamp_ms: u64,
)
    requires
        s.preview_override_until is None,
        values.contains_key(pid),
    ensures
        s.last_rendered_main_value != Some(values[pid].0) ==> value_to_publish(s, Some(pid), values)
            == Some((pid, values[pid].0)),
        value_to_publish(
            display_rendered(s, Some(pid), values, timestamp_ms),
            Some(pid),
            values,
        ) is None,
        display_rendered(s, Some(pid), values, timestamp_ms).last_rendered_main_value == Some(
            values[pid].0,
        ),
        s.blink_interval_ms is Some ==> display_rendered(
            s,
            Some(pid),
            values,
            timestamp_ms,
        ).last_blink_on == Some((timestamp_ms / s.blink_interval_ms->0) % 2 == 0),
{
}

/// A value that differs from the last one of its PID is rendered at once; the same
/// value again only for a blink phase that was not shown yet. Changes of the
/// configuration and of the brightness are rendered, and the end of a wait is if
/// it was to be.
pub proof fn law_display_renders_changes(
    s: DisplayStatus,
    values: Map<u8, (u32, u64)>,
    pid: u8,
    value: u32,
    level: u8,
    render: bool,
    clock: Clock,
)
    ensures
        ({
            let event = LedTaskEvent::Message(LedTaskMessage::PidValue { pid, value });
            &&& !values.contains_key(pid) || values[pid].0 != value ==> display_event_renders(
                s,
                values,
                event,
                clock,
            )
            &&& values.contains_key(pid) && values[pid].0 == value ==> (display_event_renders(
                s,
                values,
                event,
                clock,
            ) <==> s.blink_interval_ms is Some && s.last_blink_on != Some(
                (clock.wall_ms / s.blink_interval_ms->0) % 2 == 0,
            ))
        }),
        display_event_renders(
            s,
            values,
            LedTaskEvent::Message(LedTaskMessage::ConfigChanged),
            clock,
        ),
        display_event_renders(
            s,
            values,
            LedTaskEvent::Message(LedTaskMessage::Brightness(level)),
            clock,
        ),
        display_event_renders(s, values, LedTaskEvent::Timeout { render }, clock) == render,
{
}

/// The main PID's value is stale once the timeout has passed since its update.
pub proof fn law_main_value_goes_stale(
    s: DisplayStatus,
    pid: u8,
    values: Map<u8, (u32, u64)>,
    now_ns: u64,
)
    ensures
        main_stale(s, Some(pid), values, now_ns) <==> values.contains_key(pid)
            && s.stale_timeout_ms is Some && now_ns >= values[pid].1 + s.stale_timeout_ms->0
            * 1_000_000,
        !main_stale(s, None, values, now_ns),
{
}

/// The task wakes before any value has gone stale for a millisecond, and at the
/// latest at the next multiple of the blink interval, or after 100 ms where
/// nothing blinks.
pub proof fn law_display_wakes_in_time(
    timeout_ms: int,
    s: DisplayStatus,
    values: Map<u8, (u32, u64)>,
    clock: Clock,
    pid: u8,
)
    requires
        is_display_timeout(timeout_ms, s, values, clock),
        s.blink_interval_ms is Some ==> s.blink_interval_ms->0 > 0,
    ensures
        s.blink_interval_ms is None ==> 0 <= timeout_ms <= 100,
        s.blink_interval_ms is Some ==> 0 <= timeout_ms <= s.blink_interval_ms->0 - clock.wall_ms
            % s.blink_interval_ms->0,
        s.stale_timeout_ms is None || values =~= Map::<u8, (u32, u64)>::empty() ==> timeout_ms
            == match s.blink_interval_ms {
            Some(interval) => interval - clock.wall_ms % interval,
            None => 100int,
        },
        s.stale_timeout_ms is Some && values.contains_key(pid) ==> {
            let stale_ns = values[pid].1 + s.stale_timeout_ms->0 * 1_000_000;
            clock.now_ns + timeout_ms * 1_000_000 <= stale_ns || timeout_ms == 0
        },
{
    if s.blink_interval_ms is Some {
        let interval = s.blink_interval_ms->0;
        assert(clock.wall_ms % interval < interval);
    }
    if s.stale_timeout_ms is Some && values.contains_key(pid) {
        assert(timeout_ms <= until_stale(s.stale_timeout_ms->0, values[pid].1, clock.now_ns));
    }
}

/// A change of the configuration takes over its staleness timeout and the blink
/// interval, and forgets the shown phase, but neither a value nor a preview.
pub proof fn law_display_takes_configuration_over(
    s: DisplayStatus,
    cfg: DisplayConfig,
    triggered_enabled: Seq<bool>,
    clock: Clock,
)
    ensures
        ({
            let after = status_received(
                s,
                LedTaskEvent::Message(LedTaskMessage::ConfigChanged),
                cfg,
                triggered_enabled,
                clock,
            );
            &&& cfg.rpm_stale_timeout_ms == 0 ==> after.stale_timeout_ms is None
            &&& cfg.rpm_stale_timeout_ms > 0 ==> after.stale_timeout_ms == Some(
                cfg.rpm_stale_timeout_ms as u64,
            )
            &&& after.last_blink_on is None
            &&& after.last_rendered_main_value == s.last_rendered_main_value
            &&& after.preview_override_until == s.preview_override_until
            &&& after.blink_interval_ms is Some <==> display_interval(cfg, triggered_enabled)
                is Some
            &&& after.blink_interval_ms is Some ==> after.blink_interval_ms == Some(
                display_interval(cfg, triggered_enabled)->0 as u64,
            )
        }),
{
}

/// Without layers on top, the strip shows the main profile's rules for the value
/// of its PID, on LEDs that are off; without a value all LEDs are off.
pub proof fn law_strip_shows_the_main_value(
    s: DisplayStatus,
    values: Map<u8, (u32, u64)>,
    layer: (u8, BakedLedRules),
    cfg: DisplayConfig,
    clock: Clock,
    after: DisplayStatus,
    action: LedTaskAction,
)
    requires
        s.preview_override_until is None,
        renders(s, values, Some(layer), Seq::empty(), cfg, clock, after, action),
    ensures
        action is Show,
        values.contains_key(layer.0) ==> action->leds@ == after_rules(
            Seq::new(layer.1.total_leds as nat, |i: int| RGB8 { r: 0, g: 0, b: 0 }),
            layer.1.rules@,
            values[layer.0].0,
            clock.wall_ms,
        ),
        !values.contains_key(layer.0) ==> {
            &&& action->publish is None
            &&& action->leds@.len() == cfg.total_leds
            &&& forall|i: int|
                0 <= i < cfg.total_leds ==> #[trigger] action->leds@[i] == (RGB8 {
                    r: 0,
                    g: 0,
                    b: 0,
                })
        },
{
    assert(Seq::new(layer.1.total_leds as nat, |i: int| black()) =~= Seq::new(
        layer.1.total_leds as nat,
        |i: int| RGB8 { r: 0, g: 0, b: 0 },
    ));
}

/// Where the layers are the same, so are the PID that is shown and what is stacked on it.
pub proof fn law_same_layers_show_the_same(one: LedDisplayTaskState, other: LedDisplayTaskState)
    requires
        one.same_layers(&other),
    ensures
        one.main_pid() == other.main_pid(),
        one.main_baked == other.main_baked,
        one.overlay_baked@ == other.overlay_baked@,
{
}

/// Rendering ends a preview whose time is over, and changes neither the blink interval nor
/// the staleness timeout.
pub proof fn law_rendering_keeps_settings(
    s: DisplayStatus,
    values: Map<u8, (u32, u64)>,
    main: Option<(u8, BakedLedRules)>,
    overlays: Seq<(u8, BakedLedRules)>,
    cfg: DisplayConfig,
    clock: Clock,
    after: DisplayStatus,
    action: LedTaskAction,
)
    requires
        renders(s, values, main, overlays, cfg, clock, after, action),
    ensures
        after.blink_interval_ms == s.blink_interval_ms,
        after.stale_timeout_ms == s.stale_timeout_ms,
        s.preview_override_until is Some && clock.wall_ms >= s.preview_override_until->0
            ==> after.preview_override_until is None,
        s.preview_override_until is Some && clock.wall_ms < s.preview_override_until->0
            ==> after.preview_override_until == s.preview_override_until,
        !(action is Exit) && !(action is TurnOff),
{
}

} // verus!
