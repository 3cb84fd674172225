//! Physical controls for brightness and profile switching.
//!
//! A rotary encoder adjusts the brightness, a push button cycles through the
//! normal profiles, and further buttons switch triggered profiles on and off.
//! The program around it waits for the interrupts, passes what they counted to
//! [`ControlsState::step`], and carries out the actions in order.

use crate::led_display::{DisplayConfig, DisplayProfile, LedTaskMessage, ProfileType};
use crate::leds::NANOS_PER_MS;
use vstd::prelude::*;

verus! {

/// How long to wait after last encoder movement before saving, in ns.
pub const NVS_SAVE_DELAY_NS: u64 = 1_500_000_000;

/// Minimum time between button presses (debounce), in ns.
pub const BUTTON_DEBOUNCE_NS: u64 = 200_000_000;

/// Maximum number of triggered-profile buttons (one bit of a `u32` each).
pub const MAX_TRIGGERED_BUTTONS: usize = 32;

/// The time between two moments of the monotonic clock.
pub open spec fn elapsed_ns(since_ns: u64, now_ns: u64) -> int {
    if now_ns < since_ns {
        0
    } else {
        now_ns - since_ns
    }
}

fn elapsed(since_ns: u64, now_ns: u64) -> (r: u64)
    ensures
        r == elapsed_ns(since_ns, now_ns),
{
    if now_ns < since_ns {
        0
    } else {
        now_ns - since_ns
    }
}

// ---------------------------------------------------------------------------
// Encoder
// ---------------------------------------------------------------------------

/// How much faster the encoder counts when it is turned fast: four or two times
/// within the times given for that; a time of zero disables it.
pub open spec fn acceleration(
    last_event_ns: Option<u64>,
    now_ns: u64,
    accel_2x_ms: u16,
    accel_4x_ms: u16,
) -> int {
    match last_event_ns {
        None => 1,
        Some(last) => {
            let gap = elapsed_ns(last, now_ns);
            if accel_4x_ms > 0 && gap <= accel_4x_ms * NANOS_PER_MS {
                4
            } else if accel_2x_ms > 0 && gap <= accel_2x_ms * NANOS_PER_MS {
                2
            } else {
                1
            }
        },
    }
}

/// A number held to a range.
pub open spec fn held(value: int, low: int, high: int) -> int {
    if value < low {
        low
    } else if value > high {
        high
    } else {
        value
    }
}

/// The brightness after the encoder has been turned: in 16 bits, and then in
/// the range of a brightness.
pub open spec fn turned(current_brightness: i16, delta: i32, multiplier: int) -> int {
    let effective = held(delta * multiplier, i32::MIN as int, i32::MAX as int);
    let change = held(effective, i16::MIN as int, i16::MAX as int);
    held(held(current_brightness + change, i16::MIN as int, i16::MAX as int), 0, 255)
}

fn hold(value: i64, low: i64, high: i64) -> (r: i64)
    requires
        low <= high,
    ensures
        r == held(value as int, low as int, high as int),
        low <= r <= high,
{
    if value < low {
        low
    } else if value > high {
        high
    } else {
        value
    }
}

/// Process accumulated encoder delta with acceleration.
///
/// Returns `Some(new_brightness)` if brightness changed, `None` otherwise.
pub fn process_encoder_delta(
    current_brightness: i16,
    delta: i32,
    last_event_ns: &mut Option<u64>,
    now_ns: u64,
    accel_2x_ms: u16,
    accel_4x_ms: u16,
) -> (r: Option<i16>)
    ensures
        *final(last_event_ns) == if delta == 0 {
            *old(last_event_ns)
        } else {
            Some(now_ns)
        },
        ({
            let new = turned(
                current_brightness,
                delta,
                acceleration(*old(last_event_ns), now_ns, accel_2x_ms, accel_4x_ms),
            );
            match r {
                Some(brightness) => delta != 0 && brightness == new && new != current_brightness,
                None => delta == 0 || new == current_brightness,
            }
        }),
        r is Some ==> 0 <= r->0 <= 255,
{
    if delta == 0 {
        return None;
    }
    let multiplier: i64 = match *last_event_ns {
        None => 1,
        Some(last) => {
            let gap: u64 = elapsed(last, now_ns);
            if accel_4x_ms > 0 && gap as u128 <= accel_4x_ms as u128 * NANOS_PER_MS {
                4
            } else if accel_2x_ms > 0 && gap as u128 <= accel_2x_ms as u128 * NANOS_PER_MS {
                2
            } else {
                1
            }
        },
    };
    *last_event_ns = Some(now_ns);
    assert(-4 * 0x8000_0000 <= delta * multiplier <= 4 * 0x8000_0000) by (nonlinear_arith)
        requires
            1 <= multiplier <= 4,
            -0x8000_0000 <= delta <= 0x7fff_ffff,
    ;
    let effective: i64 = hold(delta as i64 * multiplier, i32::MIN as i64, i32::MAX as i64);
    let change: i64 = hold(effective, i16::MIN as i64, i16::MAX as i64);
    let sum: i64 = hold(current_brightness as i64 + change, i16::MIN as i64, i16::MAX as i64);
    let clamped: i16 = hold(sum, 0, 255) as i16;
    if clamped == current_brightness {
        None
    } else {
        Some(clamped)
    }
}

/// From a valid brightness the encoder moves by its accelerated count and stops
/// at the ends of the range.
pub proof fn law_encoder_stops_at_the_ends(current_brightness: i16, delta: i32, multiplier: int)
    requires
        0 <= current_brightness <= 255,
    ensures
        turned(current_brightness, delta, multiplier) == held(
            current_brightness + delta * multiplier,
            0,
            255,
        ),
        0 <= turned(current_brightness, delta, multiplier) <= 255,
{
}

/// Brightness step per encoder detent (encoder click) of a polled encoder.
pub const BRIGHTNESS_STEP: i16 = 8;

/// The difference of two counter values, in 16 bits.
pub open spec fn counted(count: i16, last_count: i16) -> int {
    let difference = count - last_count;
    if difference > 0x7fff {
        difference - 0x1_0000
    } else if difference < -0x8000 {
        difference + 0x1_0000
    } else {
        difference
    }
}

/// A rotary encoder whose counter is polled.
#[derive(Debug, Clone, Copy, PartialEq, Eq, Structural)]
pub struct PolledEncoder {
    pub current_brightness: i16,
    pub last_count: i16,
    /// When brightness was last changed (ns)
    pub last_change_ns: Option<u64>,
    pub pending_save: bool,
}

/// The encoder after its counter was read.
pub open spec fn encoder_read(e: PolledEncoder, count: i16, now_ns: u64) -> PolledEncoder {
    let brightness = held(
        held(
            e.current_brightness + counted(count, e.last_count) * 8,
            i16::MIN as int,
            i16::MAX as int,
        ),
        0,
        255,
    );
    if brightness == e.current_brightness || count == e.last_count {
        PolledEncoder { last_count: count, ..e }
    } else {
        PolledEncoder {
            current_brightness: brightness as i16,
            last_count: count,
            last_change_ns: Some(now_ns),
            pending_save: true,
        }
    }
}

/// A change is to be saved now: the encoder has settled.
pub open spec fn save_due(pending: bool, last_change_ns: Option<u64>, now_ns: u64) -> bool {
    pending && last_change_ns is Some && elapsed_ns(last_change_ns->0, now_ns) >= NVS_SAVE_DELAY_NS
}

impl PolledEncoder {
    /// An encoder with its counter at the given value.
    pub fn new(brightness: u8, count: i16) -> (r: PolledEncoder)
        ensures
            r.current_brightness == brightness,
            r.last_count == count,
            r.last_change_ns is None,
            !r.pending_save,
    {
        PolledEncoder {
            current_brightness: brightness as i16,
            last_count: count,
            last_change_ns: None,
            pending_save: false,
        }
    }

    /// Take a counter value in; returns the brightness to show, if it changed.
    /// The counter must not have moved by more than a 16-bit product holds.
    pub fn read(&mut self, count: i16, now_ns: u64) -> (r: Option<u8>)
        requires
            -4096 <= counted(count, old(self).last_count) <= 4095,
        ensures
            *final(self) == encoder_read(*old(self), count, now_ns),
            match r {
                Some(brightness) => brightness == final(self).current_brightness
                    && final(self).current_brightness != old(self).current_brightness,
                None => final(self).current_brightness == old(self).current_brightness,
            },
    {
        let difference: i32 = count as i32 - self.last_count as i32;
        let delta: i32 = if difference > 0x7fff {
            difference - 0x1_0000
        } else if difference < -0x8000 {
            difference + 0x1_0000
        } else {
            difference
        };
        if delta == 0 {
            return None;
        }
        self.last_count = count;
        let sum: i64 = hold(
            self.current_brightness as i64 + delta as i64 * 8,
            i16::MIN as i64,
            i16::MAX as i64,
        );
        let clamped: i16 = hold(sum, 0, 255) as i16;
        if clamped == self.current_brightness {
            return None;
        }
        self.current_brightness = clamped;
        self.last_change_ns = Some(now_ns);
        self.pending_save = true;
        Some(clamped as u8)
    }

    /// The brightness to save, once the encoder has settled.
    pub fn take_save(&mut self, now_ns: u64) -> (r: Option<i16>)
        ensures
            if save_due(old(self).pending_save, old(self).last_change_ns, now_ns) {
                &&& r == Some(old(self).current_brightness)
                &&& *final(self) == (PolledEncoder {
                    pending_save: false,
                    last_change_ns: None,
                    ..*old(self)
                })
            } else {
                &&& r is None
                &&& *final(self) == *old(self)
            },
    {
        if self.pending_save {
            if let Some(changed) = self.last_change_ns {
                if elapsed(changed, now_ns) >= NVS_SAVE_DELAY_NS {
                    self.pending_save = false;
                    self.last_change_ns = None;
                    return Some(self.current_brightness);
                }
            }
        }
        None
    }
}

// ---------------------------------------------------------------------------
// Profile cycling
// ---------------------------------------------------------------------------

/// The first normal profile at least `step` places behind the active one, going
/// round; the active one if there is none.
pub open spec fn next_normal(profiles: Seq<DisplayProfile>, active: int, step: int) -> int
    decreases profiles.len() - step,
{
    if profiles.len() == 0 || step >= profiles.len() {
        active
    } else {
        let index = (active % profiles.len() as int + step) % profiles.len() as int;
        if profiles[index].profile_type == ProfileType::Normal {
            index
        } else {
            next_normal(profiles, active, step + 1)
        }
    }
}

/// Make the next normal profile the active one; returns its index.
pub fn cycle_to_next_normal_profile(cfg: &mut DisplayConfig) -> (r: usize)
    ensures
        r == next_normal(old(cfg).profiles@, old(cfg).active_profile as int, 1),
        *final(cfg) == (DisplayConfig { active_profile: r, ..*old(cfg) }),
{
    let n: usize = cfg.profiles.len();
    let active: usize = cfg.active_profile;
    if n == 0 {
        return active;
    }
    let base: usize = active % n;
    let mut index: usize = base;
    let mut step: usize = 1;
    proof {
        vstd::arithmetic::div_mod::lemma_small_mod(base as nat, n as nat);
    }
    while step < n
        invariant
            1 <= step <= n,
            n == cfg.profiles@.len(),
            active == cfg.active_profile,
            base == active % n,
            base < n,
            index == (base + step - 1) % n as int,
            index < n,
            *cfg == *old(cfg),
            next_normal(cfg.profiles@, active as int, step as int) == next_normal(
                cfg.profiles@,
                active as int,
                1,
            ),
        decreases n - step,
    {
        let following: usize = if index + 1 == n {
            0
        } else {
            index + 1
        };
        proof {
            assert(following == (base + step) % n as int) by {
                let m = n as int;
                let before = (base + step - 1) as int;
                vstd::arithmetic::div_mod::lemma_fundamental_div_mod(before, m);
                vstd::arithmetic::div_mod::lemma_add_mod_noop(before, 1, m);
                if m == 1 {
                } else {
                    vstd::arithmetic::div_mod::lemma_small_mod(1, n as nat);
                    if index + 1 < n {
                        vstd::arithmetic::div_mod::lemma_small_mod((index + 1) as nat, n as nat);
                    } else {
                        vstd::arithmetic::div_mod::lemma_mod_self_0(m);
                    }
                }
            }
        }
        index = following;
        if cfg.profiles[index].profile_type == ProfileType::Normal {
            cfg.active_profile = index;
            return index;
        }
        step = step + 1;
    }
    active
}

// ---------------------------------------------------------------------------
// Triggered buttons
// ---------------------------------------------------------------------------

/// A triggered-profile button: tracks which profile it controls.
#[derive(Debug, Clone, Copy, PartialEq, Eq, Structural)]
pub struct TriggeredButton {
    pub profile_index: usize,
    pub bit: u32,
}

/// A profile is switched with a button.
pub open spec fn has_button(profile: DisplayProfile) -> bool {
    profile.profile_type == ProfileType::Triggered && profile.button_pin != 0
}

/// The buttons that work, in the order of their profiles.
#[derive(Debug)]
pub struct TriggeredButtons {
    pub buttons: Vec<TriggeredButton>,
}

impl TriggeredButtons {
    /// Each button has a bit of its own, and a profile of its own.
    pub open spec fn well_formed(&self) -> bool {
        &&& self.buttons@.len() <= MAX_TRIGGERED_BUTTONS
        &&& forall|k: int| 0 <= k < self.buttons@.len() ==> (#[trigger] self.buttons@[k]).bit == k
        &&& forall|j: int, k: int|
            0 <= j < k < self.buttons@.len() ==> (#[trigger] self.buttons@[j]).profile_index < (
            #[trigger] self.buttons@[k]).profile_index
        &&& forall|k: int|
            0 <= k < self.buttons@.len() ==> (#[trigger] self.buttons@[k]).profile_index
                < usize::MAX
    }

    /// No button yet.
    pub fn new() -> (r: Self)
        ensures
            r.well_formed(),
            r.buttons@.len() == 0,
    {
        TriggeredButtons { buttons: Vec::new() }
    }

    /// The next profile from an index on whose button is to be set up; none once
    /// all bits are taken.
    pub fn next_candidate(&self, cfg: &DisplayConfig, from: usize) -> (r: Option<usize>)
        ensures
            match r {
                Some(index) => {
                    &&& self.buttons@.len() < MAX_TRIGGERED_BUTTONS
                    &&& from <= index < cfg.profiles@.len()
                    &&& has_button(cfg.profiles@[index as int])
                    &&& forall|i: int| from <= i < index ==> !has_button(#[trigger] cfg.profiles@[i])
                },
                None => self.buttons@.len() >= MAX_TRIGGERED_BUTTONS || forall|i: int|
                    from <= i < cfg.profiles@.len() ==> !has_button(#[trigger] cfg.profiles@[i]),
            },
    {
        if self.buttons.len() >= MAX_TRIGGERED_BUTTONS {
            return None;
        }
        let mut i: usize = from;
        while i < cfg.profiles.len()
            invariant
                from <= i,
                self.buttons@.len() < MAX_TRIGGERED_BUTTONS,
                forall|j: int|
                    from <= j < i && j < cfg.profiles@.len() ==> !has_button(
                        #[trigger] cfg.profiles@[j],
                    ),
            decreases cfg.profiles@.len() - i,
        {
            if cfg.profiles[i].profile_type == ProfileType::Triggered && cfg.profiles[i].button_pin
                != 0 {
                return Some(i);
            }
            i = i + 1;
        }
        None
    }

    /// Add the button of a profile once it has been set up; it takes the next
    /// free bit.
    pub fn add(&mut self, profile_index: usize)
        requires
            old(self).well_formed(),
            old(self).buttons@.len() < MAX_TRIGGERED_BUTTONS,
            profile_index < usize::MAX,
            old(self).buttons@.len() > 0 ==> old(self).buttons@.last().profile_index
                < profile_index,
        ensures
            final(self).well_formed(),
            final(self).buttons@ == old(self).buttons@.push(
                (TriggeredButton { profile_index, bit: old(self).buttons@.len() as u32 }),
            ),
    {
        proof {
            if self.buttons@.len() > 0 {
                let last = self.buttons@[self.buttons@.len() - 1];
                assert(last == self.buttons@.last());
            }
        }
        self.buttons.push(TriggeredButton { profile_index, bit: self.buttons.len() as u32 });
    }
}

// ---------------------------------------------------------------------------
// The task
// ---------------------------------------------------------------------------

/// What the controls ask of the rest of the device.
#[derive(Debug, Clone, Copy, PartialEq, Eq, Structural)]
pub enum ControlsAction {
    /// The profiles in use have changed: bake their rules again.
    ProfileChanged,
    /// Send a message to the LED task.
    Led(LedTaskMessage),
    /// Save the configuration.
    Save,
}

/// What the interrupts counted since the last step.
#[derive(Debug, Clone, Copy, PartialEq, Eq, Structural)]
pub struct ControlsInput {
    /// The profile button was pressed
    pub main_pressed: bool,
    /// A bit for each triggered-profile button that was pressed
    pub triggered_pressed: u32,
    /// Positive = clockwise (brighter), negative = counter-clockwise (dimmer)
    pub encoder_delta: i32,
}

/// What the controls keep track of between steps.
#[derive(Debug, Clone, Copy, PartialEq, Eq, Structural)]
pub struct ControlsState {
    pub current_brightness: i16,
    pub accel_2x_ms: u16,
    pub accel_4x_ms: u16,
    /// When the encoder was last turned (ns)
    pub last_encoder_event_ns: Option<u64>,
    /// When something was last changed (ns)
    pub last_change_ns: Option<u64>,
    pub pending_brightness_save: bool,
    pub pending_profile_save: bool,
    /// When the profile button was last accepted (ns)
    pub last_button_press_ns: u64,
    /// When a triggered-profile button was last accepted (ns)
    pub last_triggered_press_ns: u64,
}

/// The profile button counts: it was not pressed just before.
pub open spec fn accepted(pressed: bool, last_press_ns: u64, now_ns: u64) -> bool {
    pressed && elapsed_ns(last_press_ns, now_ns) >= BUTTON_DEBOUNCE_NS
}

/// The profile after the profile button was pressed.
pub open spec fn cycled(cfg: DisplayConfig) -> int {
    next_normal(cfg.profiles@, cfg.active_profile as int, 1)
}

/// What a press of the profile button asks for: nothing if there is no other
/// profile to go to.
pub open spec fn cycle_actions(cfg: DisplayConfig) -> Seq<ControlsAction> {
    if cycled(cfg) == cfg.active_profile {
        Seq::empty()
    } else {
        seq![
            ControlsAction::ProfileChanged,
            ControlsAction::Led(LedTaskMessage::Brightness(cfg.brightness)),
        ]
    }
}

/// The switches with one for each profile up to an index.
pub open spec fn grown(enabled: Seq<bool>, index: int) -> Seq<bool> {
    if enabled.len() <= index {
        enabled + Seq::new((index + 1 - enabled.len()) as nat, |i: int| false)
    } else {
        enabled
    }
}

/// The switches after the button of a triggered profile was pressed.
pub open spec fn toggled(enabled: Seq<bool>, index: int) -> Seq<bool> {
    grown(enabled, index).update(index, !grown(enabled, index)[index])
}

/// What a press of a triggered profile's button asks for: on switching on, a
/// preview with the profile's own value.
pub open spec fn toggle_actions(cfg: DisplayConfig, enabled: Seq<bool>, index: int) -> Seq<
    ControlsAction,
> {
    let preview = ControlsAction::Led(LedTaskMessage::Brightness(cfg.brightness));
    if !toggled(enabled, index)[index] {
        seq![ControlsAction::ProfileChanged, preview]
    } else if index < cfg.profiles@.len() {
        let profile = cfg.profiles@[index];
        seq![
            ControlsAction::ProfileChanged,
            ControlsAction::Led(
                LedTaskMessage::PidValue { pid: profile.pid, value: profile.preview_value },
            ),
            preview,
        ]
    } else {
        seq![ControlsAction::ProfileChanged]
    }
}

/// A button's bit is among those pressed.
pub open spec fn bit_pressed(pressed: u32, bit: u32) -> bool {
    pressed & (1u32 << bit) != 0
}

/// The switches after several buttons, taken in order.
pub open spec fn all_toggled(enabled: Seq<bool>, buttons: Seq<TriggeredButton>, pressed: u32) -> Seq<
    bool,
>
    decreases buttons.len(),
{
    if buttons.len() == 0 {
        enabled
    } else {
        let before = all_toggled(enabled, buttons.drop_last(), pressed);
        if bit_pressed(pressed, buttons.last().bit) {
            toggled(before, buttons.last().profile_index as int)
        } else {
            before
        }
    }
}

/// What several buttons ask for, taken in order.
pub open spec fn all_toggle_actions(
    cfg: DisplayConfig,
    enabled: Seq<bool>,
    buttons: Seq<TriggeredButton>,
    pressed: u32,
) -> Seq<ControlsAction>
    decreases buttons.len(),
{
    if buttons.len() == 0 {
        Seq::empty()
    } else {
        let front = buttons.drop_last();
        let before = all_toggle_actions(cfg, enabled, front, pressed);
        if bit_pressed(pressed, buttons.last().bit) {
            before + toggle_actions(
                cfg,
                all_toggled(enabled, front, pressed),
                buttons.last().profile_index as int,
            )
        } else {
            before
        }
    }
}

/// Handle a button press by cycling to the next Normal profile; returns whether
/// the profile changed.
pub fn handle_button_press(cfg: &mut DisplayConfig, actions: &mut Vec<ControlsAction>) -> (r: bool)
    ensures
        r == (cycled(*old(cfg)) != old(cfg).active_profile),
        final(actions)@ == old(actions)@ + cycle_actions(*old(cfg)),
        *final(cfg) == (DisplayConfig {
            active_profile: cycled(*old(cfg)) as usize,
            ..*old(cfg)
        }),
{
    let old_profile: usize = cfg.active_profile;
    let new_profile: usize = cycle_to_next_normal_profile(cfg);
    if new_profile == old_profile {
        assert(actions@ =~= old(actions)@ + cycle_actions(*old(cfg)));
        return false;
    }
    actions.push(ControlsAction::ProfileChanged);
    actions.push(ControlsAction::Led(LedTaskMessage::Brightness(cfg.brightness)));
    assert(actions@ =~= old(actions)@ + cycle_actions(*old(cfg)));
    true
}

/// Toggle a triggered profile's enabled state.
pub fn handle_triggered_button(
    cfg: &DisplayConfig,
    enabled: &mut Vec<bool>,
    profile_index: usize,
    actions: &mut Vec<ControlsAction>,
)
    requires
        profile_index < usize::MAX,
    ensures
        final(enabled)@ == toggled(old(enabled)@, profile_index as int),
        final(actions)@ == old(actions)@ + toggle_actions(
            *cfg,
            old(enabled)@,
            profile_index as int,
        ),
{
    // Grow if needed (config may have changed)
    while enabled.len() <= profile_index
        invariant
            profile_index < usize::MAX,
            enabled@.len() >= old(enabled)@.len(),
            enabled@.len() <= profile_index + 1 || enabled@ == old(enabled)@,
            forall|i: int| 0 <= i < old(enabled)@.len() ==> enabled@[i] == old(enabled)@[i],
            forall|i: int| old(enabled)@.len() <= i < enabled@.len() ==> !enabled@[i],
        decreases profile_index + 1 - enabled@.len(),
    {
        enabled.push(false);
    }
    assert(enabled@ =~= grown(old(enabled)@, profile_index as int));
    let now_enabled = !enabled[profile_index];
    enabled.set(profile_index, now_enabled);
    actions.push(ControlsAction::ProfileChanged);
    // When enabling: show the triggered profile's own value in the preview
    if now_enabled {
        if profile_index < cfg.profiles.len() {
            let pid: u8 = cfg.profiles[profile_index].pid;
            let value: u32 = cfg.profiles[profile_index].preview_value;
            actions.push(ControlsAction::Led(LedTaskMessage::PidValue { pid, value }));
            actions.push(ControlsAction::Led(LedTaskMessage::Brightness(cfg.brightness)));
        }
    } else {
        actions.push(ControlsAction::Led(LedTaskMessage::Brightness(cfg.brightness)));
    }
    assert(actions@ =~= old(actions)@ + toggle_actions(*cfg, old(enabled)@, profile_index as int));
}

/// Toggle the triggered profiles whose buttons were pressed.
fn handle_triggered_buttons(
    cfg: &DisplayConfig,
    enabled: &mut Vec<bool>,
    buttons: &TriggeredButtons,
    pressed: u32,
    actions: &mut Vec<ControlsAction>,
)
    requires
        buttons.well_formed(),
    ensures
        final(enabled)@ == all_toggled(old(enabled)@, buttons.buttons@, pressed),
        final(actions)@ == old(actions)@ + all_toggle_actions(
            *cfg,
            old(enabled)@,
            buttons.buttons@,
            pressed,
        ),
{
    let ghost list = buttons.buttons@;
    let mut k: usize = 0;
    assert(list.take(0) =~= Seq::empty());
    assert(actions@ =~= old(actions)@ + all_toggle_actions(
        *cfg,
        old(enabled)@,
        list.take(0),
        pressed,
    ));
    while k < buttons.buttons.len()
        invariant
            k <= list.len(),
            list == buttons.buttons@,
            buttons.well_formed(),
            enabled@ == all_toggled(old(enabled)@, list.take(k as int), pressed),
            actions@ == old(actions)@ + all_toggle_actions(
                *cfg,
                old(enabled)@,
                list.take(k as int),
                pressed,
            ),
        decreases list.len() - k,
    {
        let button: TriggeredButton = buttons.buttons[k];
        assert(list.take(k + 1).drop_last() =~= list.take(k as int));
        assert(buttons.buttons@[k as int].bit == k);
        assert(buttons.buttons@[k as int].profile_index < usize::MAX);
        if pressed & (1u32 << button.bit) != 0 {
            handle_triggered_button(cfg, enabled, button.profile_index, actions);
            assert(actions@ =~= old(actions)@ + all_toggle_actions(
                *cfg,
                old(enabled)@,
                list.take(k + 1),
                pressed,
            ));
        }
        k = k + 1;
    }
    assert(list.take(k as int) =~= list);
}

/// The state and what has been asked for after the two kinds of buttons.
pub open spec fn after_buttons(
    s: ControlsState,
    cfg: DisplayConfig,
    input: ControlsInput,
    now_ns: u64,
) -> ControlsState {
    let main = accepted(input.main_pressed, s.last_button_press_ns, now_ns);
    let changed = main && cycled(cfg) != cfg.active_profile;
    ControlsState {
        last_button_press_ns: if main {
            now_ns
        } else {
            s.last_button_press_ns
        },
        last_triggered_press_ns: if accepted(
            input.triggered_pressed != 0,
            s.last_triggered_press_ns,
            now_ns,
        ) {
            now_ns
        } else {
            s.last_triggered_press_ns
        },
        last_change_ns: if changed {
            Some(now_ns)
        } else {
            s.last_change_ns
        },
        pending_profile_save: s.pending_profile_save || changed,
        ..s
    }
}

/// The brightness after the encoder.
pub open spec fn encoder_brightness(s: ControlsState, delta: i32, now_ns: u64) -> int {
    turned(
        s.current_brightness,
        delta,
        acceleration(s.last_encoder_event_ns, now_ns, s.accel_2x_ms, s.accel_4x_ms),
    )
}

/// The encoder has changed the brightness.
pub open spec fn encoder_changes(s: ControlsState, delta: i32, now_ns: u64) -> bool {
    delta != 0 && encoder_brightness(s, delta, now_ns) != s.current_brightness
}

/// The state after the encoder.
pub open spec fn after_encoder(s: ControlsState, delta: i32, now_ns: u64) -> ControlsState {
    let moved = ControlsState {
        last_encoder_event_ns: if delta == 0 {
            s.last_encoder_event_ns
        } else {
            Some(now_ns)
        },
        ..s
    };
    if encoder_changes(s, delta, now_ns) {
        ControlsState {
            current_brightness: encoder_brightness(s, delta, now_ns) as i16,
            last_change_ns: Some(now_ns),
            pending_brightness_save: true,
            ..moved
        }
    } else {
        moved
    }
}

/// What the encoder asks for.
pub open spec fn encoder_actions(s: ControlsState, delta: i32, now_ns: u64) -> Seq<ControlsAction> {
    if encoder_changes(s, delta, now_ns) {
        seq![
            ControlsAction::Led(
                LedTaskMessage::Brightness(encoder_brightness(s, delta, now_ns) as u8),
            ),
        ]
    } else {
        Seq::empty()
    }
}

/// A change is to be saved now.
pub open spec fn controls_save_due(s: ControlsState, now_ns: u64) -> bool {
    save_due(s.pending_brightness_save || s.pending_profile_save, s.last_change_ns, now_ns)
}

impl ControlsState {
    /// The brightness is one.
    pub open spec fn well_formed(&self) -> bool {
        0 <= self.current_brightness <= 255
    }

    /// Controls that have not been touched yet: the first press of a button
    /// counts at once.
    pub fn new(brightness: u8, accel_2x_ms: u16, accel_4x_ms: u16, now_ns: u64) -> (r: Self)
        ensures
            r.well_formed(),
            r == (ControlsState {
                current_brightness: brightness as i16,
                accel_2x_ms,
                accel_4x_ms,
                last_encoder_event_ns: None,
                last_change_ns: None,
                pending_brightness_save: false,
                pending_profile_save: false,
                last_button_press_ns: if now_ns >= BUTTON_DEBOUNCE_NS {
                    (now_ns - BUTTON_DEBOUNCE_NS) as u64
                } else {
                    now_ns
                },
                last_triggered_press_ns: if now_ns >= BUTTON_DEBOUNCE_NS {
                    (now_ns - BUTTON_DEBOUNCE_NS) as u64
                } else {
                    now_ns
                },
            }),
    {
        let before: u64 = if now_ns >= BUTTON_DEBOUNCE_NS {
            now_ns - BUTTON_DEBOUNCE_NS
        } else {
            now_ns
        };
        ControlsState {
            current_brightness: brightness as i16,
            accel_2x_ms,
            accel_4x_ms,
            last_encoder_event_ns: None,
            last_change_ns: None,
            pending_brightness_save: false,
            pending_profile_save: false,
            last_button_press_ns: before,
            last_triggered_press_ns: before,
        }
    }

    /// Debounced save: waits for controls to settle before persisting.
    pub fn maybe_save_nvs(
        &mut self,
        cfg: &mut DisplayConfig,
        now_ns: u64,
        actions: &mut Vec<ControlsAction>,
    )
        requires
            old(self).well_formed(),
        ensures
            final(self).well_formed(),
            if controls_save_due(*old(self), now_ns) {
                &&& *final(self) == (ControlsState {
                    pending_brightness_save: false,
                    pending_profile_save: false,
                    last_change_ns: None,
                    ..*old(self)
                })
                &&& final(actions)@ == old(actions)@.push(ControlsAction::Save)
                &&& *final(cfg) == (DisplayConfig {
                    brightness: if old(self).pending_brightness_save {
                        old(self).current_brightness as u8
                    } else {
                        old(cfg).brightness
                    },
                    ..*old(cfg)
                })
            } else {
                &&& *final(self) == *old(self)
                &&& final(actions)@ == old(actions)@
                &&& *final(cfg) == *old(cfg)
            },
    {
        if !self.pending_brightness_save && !self.pending_profile_save {
            return;
        }
        let changed: u64 = match self.last_change_ns {
            Some(changed) => changed,
            None => {
                return;
            },
        };
        if elapsed(changed, now_ns) < NVS_SAVE_DELAY_NS {
            return;
        }
        if self.pending_brightness_save {
            cfg.brightness = self.current_brightness as u8;
        }
        actions.push(ControlsAction::Save);
        self.pending_brightness_save = false;
        self.pending_profile_save = false;
        self.last_change_ns = None;
    }

    /// Handle what the interrupts counted: the profile button, the triggered
    /// buttons, the encoder, and then the saving of settled changes.
    pub fn step(
        &mut self,
        input: ControlsInput,
        cfg: &mut DisplayConfig,
        enabled: &mut Vec<bool>,
        buttons: &TriggeredButtons,
        now_ns: u64,
    ) -> (r: Vec<ControlsAction>)
        requires
            old(self).well_formed(),
            buttons.well_formed(),
        ensures
            final(self).well_formed(),
            ({
                let main = accepted(input.main_pressed, old(self).last_button_press_ns, now_ns);
                let triggered = accepted(
                    input.triggered_pressed != 0,
                    old(self).last_triggered_press_ns,
                    now_ns,
                );
                let pressed = after_buttons(*old(self), *old(cfg), input, now_ns);
                let turned_state = after_encoder(pressed, input.encoder_delta, now_ns);
                let cycled_cfg = DisplayConfig {
                    active_profile: if main {
                        cycled(*old(cfg)) as usize
                    } else {
                        old(cfg).active_profile
                    },
                    ..*old(cfg)
                };
                let asked = (if main {
                    cycle_actions(*old(cfg))
                } else {
                    Seq::empty()
                }) + (if triggered {
                    all_toggle_actions(
                        cycled_cfg,
                        old(enabled)@,
                        buttons.buttons@,
                        input.triggered_pressed,
                    )
                } else {
                    Seq::empty()
                }) + encoder_actions(pressed, input.encoder_delta, now_ns);
                let saves = controls_save_due(turned_state, now_ns);
                &&& final(enabled)@ == if triggered {
                    all_toggled(old(enabled)@, buttons.buttons@, input.triggered_pressed)
                } else {
                    old(enabled)@
                }
                &&& r@ == if saves {
                    asked.push(ControlsAction::Save)
                } else {
                    asked
                }
                &&& *final(self) == if saves {
                    ControlsState {
                        pending_brightness_save: false,
                        pending_profile_save: false,
                        last_change_ns: None,
                        ..turned_state
                    }
                } else {
                    turned_state
                }
                &&& *final(cfg) == DisplayConfig {
                    brightness: if saves && turned_state.pending_brightness_save {
                        turned_state.current_brightness as u8
                    } else {
                        old(cfg).brightness
                    },
                    ..cycled_cfg
                }
            }),
    {
        let mut actions: Vec<ControlsAction> = Vec::new();
        // Profile cycling
        if input.main_pressed && elapsed(self.last_button_press_ns, now_ns) >= BUTTON_DEBOUNCE_NS {
            self.last_button_press_ns = now_ns;
            if handle_button_press(cfg, &mut actions) {
                self.last_change_ns = Some(now_ns);
                self.pending_profile_save = true;
            }
        }
        let ghost after_main = actions@;
        // Triggered-profile buttons
        if input.triggered_pressed != 0 && elapsed(self.last_triggered_press_ns, now_ns)
            >= BUTTON_DEBOUNCE_NS {
            self.last_triggered_press_ns = now_ns;
            handle_triggered_buttons(
                cfg,
                enabled,
                buttons,
                input.triggered_pressed,
                &mut actions,
            );
        } else {
            assert(actions@ =~= after_main + Seq::<ControlsAction>::empty());
        }
        let ghost pressed = *self;
        let ghost after_pressed = actions@;
        assert(pressed == after_buttons(*old(self), *old(cfg), input, now_ns));
        // Encoder
        match process_encoder_delta(
            self.current_brightness,
            input.encoder_delta,
            &mut self.last_encoder_event_ns,
            now_ns,
            self.accel_2x_ms,
            self.accel_4x_ms,
        ) {
            Some(brightness) => {
                self.current_brightness = brightness;
                actions.push(ControlsAction::Led(LedTaskMessage::Brightness(brightness as u8)));
                self.last_change_ns = Some(now_ns);
                self.pending_brightness_save = true;
            },
            None => {},
        }
        assert(*self == after_encoder(pressed, input.encoder_delta, now_ns));
        assert(actions@ =~= after_pressed + encoder_actions(pressed, input.encoder_delta, now_ns));
        self.maybe_save_nvs(cfg, now_ns, &mut actions);
        actions
    }
}

// ---------------------------------------------------------------------------
// Laws
// ---------------------------------------------------------------------------

/// Pressing a triggered profile's button twice leaves its switch as it was, and
/// no press touches another profile's switch.
pub proof fn law_toggling_twice(enabled: Seq<bool>, index: int, other: int)
    requires
        0 <= index,
        0 <= other < enabled.len(),
    ensures
        toggled(toggled(enabled, index), index)[other] == enabled[other],
        other != index ==> toggled(enabled, index)[other] == enabled[other],
        toggled(toggled(enabled, index), index)[index] == grown(enabled, index)[index],
{
}

/// Bounces do not count: right after a press was accepted, no other one is.
pub proof fn law_bounces_are_ignored(press_ns: u64, bounce_ns: u64)
    requires
        press_ns <= bounce_ns < press_ns + BUTTON_DEBOUNCE_NS,
    ensures
        !accepted(true, press_ns, bounce_ns),
{
}

/// A cycle ends at a normal profile, or stays where it is.
pub proof fn law_cycle_finds_normal(profiles: Seq<DisplayProfile>, active: int, step: int)
    requires
        0 <= active,
        0 <= step,
    ensures
        ({
            let next = next_normal(profiles, active, step);
            next == active || (0 <= next < profiles.len() && profiles[next].profile_type
                == ProfileType::Normal)
        }),
    decreases profiles.len() - step,
{
    if profiles.len() > 0 && step < profiles.len() {
        let n = profiles.len() as int;
        vstd::arithmetic::div_mod::lemma_mod_bound(active % n + step, n);
        law_cycle_finds_normal(profiles, active, step + 1);
    }
}

/// The first turn counts once. A turn that follows another within the time for it
/// counts four times, or else twice; a time of zero switches that off.
pub proof fn law_fast_turns_count_more(
    last_ns: u64,
    now_ns: u64,
    accel_2x_ms: u16,
    accel_4x_ms: u16,
)
    requires
        last_ns <= now_ns,
    ensures
        acceleration(None, now_ns, accel_2x_ms, accel_4x_ms) == 1,
        ({
            let times = acceleration(Some(last_ns), now_ns, accel_2x_ms, accel_4x_ms);
            let within_4x = accel_4x_ms > 0 && now_ns <= last_ns + accel_4x_ms * 1_000_000;
            let within_2x = accel_2x_ms > 0 && now_ns <= last_ns + accel_2x_ms * 1_000_000;
            &&& times == 4 <==> within_4x
            &&& times == 2 <==> within_2x && !within_4x
            &&& times == 1 <==> !within_2x && !within_4x
        }),
{
}

/// The brightness moves by one for each count of the encoder, times its
/// acceleration, and stays between 0 and 255.
pub proof fn law_brightness_follows_the_encoder(
    current_brightness: i16,
    delta: i32,
    multiplier: int,
)
    requires
        0 <= current_brightness <= 255,
    ensures
        ({
            let wanted = current_brightness + delta * multiplier;
            let new = turned(current_brightness, delta, multiplier);
            &&& 0 <= wanted <= 255 ==> new == wanted
            &&& wanted < 0 ==> new == 0
            &&& wanted > 255 ==> new == 255
        }),
{
    law_encoder_stops_at_the_ends(current_brightness, delta, multiplier);
}

/// A counter that has gone round counts on: what is counted leads from the last
/// value to the new one in 16 bits, the shorter way.
pub proof fn law_counter_goes_round(count: i16, last_count: i16)
    ensures
        -32768 <= counted(count, last_count) <= 32767,
        (last_count + counted(count, last_count) - count) % 65536 == 0,
{
}

/// A polled encoder moves the brightness by eight for each count and keeps it
/// between 0 and 255. A change is remembered with its time and is to be saved;
/// without one only the counter is taken over.
pub proof fn law_polled_encoder_steps_by_eight(e: PolledEncoder, count: i16, now_ns: u64)
    requires
        0 <= e.current_brightness <= 255,
        -4096 <= counted(count, e.last_count) <= 4095,
    ensures
        ({
            let after = encoder_read(e, count, now_ns);
            let wanted = e.current_brightness + 8 * counted(count, e.last_count);
            &&& after.last_count == count
            &&& 0 <= wanted <= 255 ==> after.current_brightness == wanted
            &&& wanted < 0 ==> after.current_brightness == 0
            &&& wanted > 255 ==> after.current_brightness == 255
            &&& after.current_brightness != e.current_brightness ==> after.pending_save
                && after.last_change_ns == Some(now_ns)
            &&& after.current_brightness == e.current_brightness ==> after.pending_save
                == e.pending_save && after.last_change_ns == e.last_change_ns
        }),
{
}

/// A change is saved once one and a half seconds have passed without another, and
/// not before; without a change there is nothing to save.
pub proof fn law_changes_settle(pending: bool, change_ns: u64, now_ns: u64)
    requires
        change_ns <= now_ns,
    ensures
        save_due(pending, Some(change_ns), now_ns) <==> pending && now_ns >= change_ns
            + 1_500_000_000,
        !save_due(pending, None, now_ns),
{
}

/// The button goes to the first normal profile behind the active one, round the
/// end of the list.
pub proof fn law_cycle_goes_to_the_next(profiles: Seq<DisplayProfile>, active: int, d: int)
    requires
        0 <= active < profiles.len(),
        0 < d < profiles.len(),
        profiles[(active + d) % profiles.len() as int].profile_type == ProfileType::Normal,
        forall|e: int|
            0 < e < d ==> (#[trigger] profiles[(active + e) % profiles.len() as int]).profile_type
                != ProfileType::Normal,
    ensures
        next_normal(profiles, active, 1) == (active + d) % profiles.len() as int,
        next_normal(profiles, active, 1) != active,
{
    let n = profiles.len() as int;
    vstd::arithmetic::div_mod::lemma_small_mod(active as nat, n as nat);
    lemma_next_normal(profiles, active, 1, d);
    if active + d < n {
        vstd::arithmetic::div_mod::lemma_small_mod((active + d) as nat, n as nat);
    } else {
        vstd::arithmetic::div_mod::lemma_mod_sub_multiples_vanish(active + d, n);
        vstd::arithmetic::div_mod::lemma_small_mod((active + d - n) as nat, n as nat);
    }
}

proof fn lemma_next_normal(profiles: Seq<DisplayProfile>, active: int, step: int, d: int)
    requires
        0 <= active < profiles.len(),
        0 < step <= d < profiles.len(),
        profiles[(active + d) % profiles.len() as int].profile_type == ProfileType::Normal,
        forall|e: int|
            0 < e < d ==> (#[trigger] profiles[(active + e) % profiles.len() as int]).profile_type
                != ProfileType::Normal,
    ensures
        next_normal(profiles, active, step) == (active + d) % profiles.len() as int,
    decreases d - step,
{
    let n = profiles.len() as int;
    vstd::arithmetic::div_mod::lemma_small_mod(active as nat, n as nat);
    if step < d {
        assert(profiles[(active + step) % n].profile_type != ProfileType::Normal);
        lemma_next_normal(profiles, active, step + 1, d);
    }
}

/// Where no other profile is a normal one, the button stays at the active one.
pub proof fn law_cycle_stays_where_it_is_alone(
    profiles: Seq<DisplayProfile>,
    active: int,
    step: int,
)
    requires
        0 <= active < profiles.len(),
        0 < step,
        forall|i: int|
            0 <= i < profiles.len() && i != active ==> (#[trigger] profiles[i]).profile_type
                != ProfileType::Normal,
    ensures
        next_normal(profiles, active, step) == active,
    decreases profiles.len() - step,
{
    let n = profiles.len() as int;
    if step < n {
        vstd::arithmetic::div_mod::lemma_small_mod(active as nat, n as nat);
        if active + step < n {
            vstd::arithmetic::div_mod::lemma_small_mod((active + step) as nat, n as nat);
        } else {
            vstd::arithmetic::div_mod::lemma_mod_sub_multiples_vanish(active + step, n);
            vstd::arithmetic::div_mod::lemma_small_mod((active + step - n) as nat, n as nat);
        }
        law_cycle_stays_where_it_is_alone(profiles, active, step + 1);
    }
}

/// A press counts if 200 ms have passed since the last one that counted.
pub proof fn law_presses_are_debounced(pressed: bool, last_press_ns: u64, now_ns: u64)
    requires
        last_press_ns <= now_ns,
    ensures
        accepted(pressed, last_press_ns, now_ns) <==> pressed && now_ns >= last_press_ns
            + 200_000_000,
{
}

/// A change of profile is announced, and previewed at the configured brightness;
/// staying at the same one is not.
pub proof fn law_profile_change_is_previewed(cfg: DisplayConfig)
    ensures
        cycled(cfg) == cfg.active_profile ==> cycle_actions(cfg).len() == 0,
        cycled(cfg) != cfg.active_profile ==> cycle_actions(cfg) =~= seq![
            ControlsAction::ProfileChanged,
            ControlsAction::Led(LedTaskMessage::Brightness(cfg.brightness)),
        ],
        cycled(cfg) == next_normal(cfg.profiles@, cfg.active_profile as int, 1),
{
}

/// A button switches its own profile over and no other; the switches of profiles
/// that were never pressed are off.
pub proof fn law_button_switches_its_profile(enabled: Seq<bool>, index: int, other: int)
    requires
        0 <= index,
        0 <= other,
        other != index,
    ensures
        ({
            let after = toggled(enabled, index);
            &&& index < after.len()
            &&& enabled.len() <= after.len()
            &&& after[index] == (index >= enabled.len() || !enabled[index])
            &&& other < enabled.len() ==> after[other] == enabled[other]
            &&& enabled.len() <= other < after.len() ==> !after[other]
        }),
{
}

/// Switching a profile on announces it, shows its preview value for its PID, and
/// previews; switching it off announces and previews.
pub proof fn law_switching_on_shows_the_preview(
    cfg: DisplayConfig,
    enabled: Seq<bool>,
    index: int,
)
    requires
        0 <= index < cfg.profiles@.len(),
    ensures
        index >= enabled.len() || !enabled[index] ==> toggle_actions(cfg, enabled, index) =~= seq![
            ControlsAction::ProfileChanged,
            ControlsAction::Led(
                LedTaskMessage::PidValue {
                    pid: cfg.profiles@[index].pid,
                    value: cfg.profiles@[index].preview_value,
                },
            ),
            ControlsAction::Led(LedTaskMessage::Brightness(cfg.brightness)),
        ],
        index < enabled.len() && enabled[index] ==> toggle_actions(cfg, enabled, index) =~= seq![
            ControlsAction::ProfileChanged,
            ControlsAction::Led(LedTaskMessage::Brightness(cfg.brightness)),
        ],
{
}

/// Each button has a bit of its own: pressing another one does not press it.
pub proof fn law_bits_are_apart(pressed: u32, bit: u32, other: u32)
    requires
        bit < 32,
        other < 32,
        bit != other,
    ensures
        !bit_pressed(0, bit),
        bit_pressed(pressed | (1u32 << bit), bit),
        bit_pressed(pressed | (1u32 << other), bit) == bit_pressed(pressed, bit),
{
    assert(0u32 & (1u32 << bit) == 0) by (bit_vector);
    assert((pressed | (1u32 << bit)) & (1u32 << bit) != 0) by (bit_vector)
        requires
            bit < 32,
    ;
    assert((pressed | (1u32 << other)) & (1u32 << bit) == pressed & (1u32 << bit)) by (bit_vector)
        requires
            bit < 32,
            other < 32,
            bit != other,
    ;
}

/// Of several buttons, each one that was pressed switches its profile over, and
/// the others leave theirs alone.
pub proof fn law_pressed_buttons_switch(
    enabled: Seq<bool>,
    buttons: Seq<TriggeredButton>,
    pressed: u32,
    k: int,
)
    requires
        0 <= k < buttons.len(),
        forall|i: int, j: int|
            0 <= i < buttons.len() && 0 <= j < buttons.len() && i != j ==> (
            #[trigger] buttons[i]).profile_index != (#[trigger] buttons[j]).profile_index,
    ensures
        ({
            let index = buttons[k].profile_index as int;
            let was_on = index < enabled.len() && enabled[index];
            let after = all_toggled(enabled, buttons, pressed);
            let is_on = index < after.len() && after[index];
            is_on == (was_on != (pressed & (1u32 << buttons[k].bit) != 0))
        }),
    decreases buttons.len(),
{
    let front = buttons.drop_last();
    let last = buttons.last();
    let before = all_toggled(enabled, front, pressed);
    let index = buttons[k].profile_index as int;
    assert(forall|i: int| 0 <= i < front.len() ==> front[i] == buttons[i]);
    if k < front.len() {
        law_pressed_buttons_switch(enabled, front, pressed, k);
        assert(buttons[buttons.len() - 1] == last);
        assert(last.profile_index != buttons[k].profile_index);
    } else {
        assert forall|i: int| 0 <= i < front.len() implies (#[trigger] front[i]).profile_index
            != index by {
            assert(buttons[i].profile_index != buttons[k].profile_index);
        }
        lemma_untouched_switch(enabled, front, pressed, index);
    }
}

proof fn lemma_untouched_switch(
    enabled: Seq<bool>,
    buttons: Seq<TriggeredButton>,
    pressed: u32,
    index: int,
)
    requires
        0 <= index,
        forall|i: int| 0 <= i < buttons.len() ==> (#[trigger] buttons[i]).profile_index != index,
    ensures
        ({
            let after = all_toggled(enabled, buttons, pressed);
            (index < after.len() && after[index]) == (index < enabled.len() && enabled[index])
        }),
    decreases buttons.len(),
{
    if buttons.len() > 0 {
        let front = buttons.drop_last();
        assert(buttons[buttons.len() - 1].profile_index != index);
        assert forall|i: int| 0 <= i < front.len() implies (#[trigger] front[i]).profile_index
            != index by {
            assert(front[i] == buttons[i]);
        }
        lemma_untouched_switch(enabled, front, pressed, index);
    }
}

/// What the buttons ask for comes in the order of the buttons; one that was not
/// pressed asks for nothing.
pub proof fn law_buttons_ask_in_order(
    cfg: DisplayConfig,
    enabled: Seq<bool>,
    buttons: Seq<TriggeredButton>,
    button: TriggeredButton,
    pressed: u32,
)
    ensures
        all_toggle_actions(cfg, enabled, Seq::empty(), pressed).len() == 0,
        all_toggle_actions(cfg, enabled, buttons.push(button), pressed) =~= all_toggle_actions(
            cfg,
            enabled,
            buttons,
            pressed,
        ) + if pressed & (1u32 << button.bit) != 0 {
            toggle_actions(
                cfg,
                all_toggled(enabled, buttons, pressed),
                button.profile_index as int,
            )
        } else {
            Seq::empty()
        },
{
    assert(buttons.push(button).drop_last() =~= buttons);
}

/// The two kinds of buttons are debounced apart from each other, and a press of
/// the profile button is to be saved only if it changed the profile.
pub proof fn law_buttons_are_debounced_apart(
    s: ControlsState,
    cfg: DisplayConfig,
    input: ControlsInput,
    now_ns: u64,
)
    requires
        s.last_button_press_ns <= now_ns,
        s.last_triggered_press_ns <= now_ns,
    ensures
        ({
            let after = after_buttons(s, cfg, input, now_ns);
            let main = input.main_pressed && now_ns >= s.last_button_press_ns + 200_000_000;
            let triggered = input.triggered_pressed != 0 && now_ns >= s.last_triggered_press_ns
                + 200_000_000;
            let moved = main && cycled(cfg) != cfg.active_profile;
            &&& after.last_button_press_ns == if main {
                now_ns
            } else {
                s.last_button_press_ns
            }
            &&& after.last_triggered_press_ns == if triggered {
                now_ns
            } else {
                s.last_triggered_press_ns
            }
            &&& moved ==> after.pending_profile_save && after.last_change_ns == Some(now_ns)
            &&& !moved ==> after.pending_profile_save == s.pending_profile_save
                && after.last_change_ns == s.last_change_ns
            &&& after.current_brightness == s.current_brightness
            &&& after.pending_brightness_save == s.pending_brightness_save
            &&& after.last_encoder_event_ns == s.last_encoder_event_ns
        }),
{
}

/// A turn that changes the brightness shows the new one and is to be saved; one
/// that does not only counts for the acceleration, and no turn changes nothing.
pub proof fn law_encoder_changes_brightness(s: ControlsState, delta: i32, now_ns: u64)
    requires
        s.well_formed(),
    ensures
        ({
            let after = after_encoder(s, delta, now_ns);
            let times = acceleration(
                s.last_encoder_event_ns,
                now_ns,
                s.accel_2x_ms,
                s.accel_4x_ms,
            );
            let wanted = s.current_brightness + delta * times;
            &&& delta == 0 ==> after == s
            &&& delta != 0 ==> after.last_encoder_event_ns == Some(now_ns)
            &&& 0 <= wanted <= 255 ==> after.current_brightness == wanted
            &&& wanted < 0 ==> after.current_brightness == 0
            &&& wanted > 255 ==> after.current_brightness == 255
            &&& after.current_brightness != s.current_brightness ==> {
                &&& after.pending_brightness_save
                &&& after.last_change_ns == Some(now_ns)
                &&& encoder_actions(s, delta, now_ns) =~= seq![
                    ControlsAction::Led(
                        LedTaskMessage::Brightness(after.current_brightness as u8),
                    ),
                ]
            }
            &&& after.current_brightness == s.current_brightness ==> {
                &&& after.pending_brightness_save == s.pending_brightness_save
                &&& after.last_change_ns == s.last_change_ns
                &&& encoder_actions(s, delta, now_ns).len() == 0
            }
            &&& after.pending_profile_save == s.pending_profile_save
        }),
{
    let times = acceleration(s.last_encoder_event_ns, now_ns, s.accel_2x_ms, s.accel_4x_ms);
    law_encoder_stops_at_the_ends(s.current_brightness, delta, times);
    if delta == 0 {
        assert(delta * times == 0) by (nonlinear_arith)
            requires
                delta == 0,
        ;
    }
}

/// Saving waits for both kinds of changes to settle.
pub proof fn law_controls_save_when_settled(s: ControlsState, now_ns: u64)
    requires
        s.last_change_ns is Some ==> s.last_change_ns->0 <= now_ns,
    ensures
        controls_save_due(s, now_ns) <==> (s.pending_brightness_save || s.pending_profile_save)
            && s.last_change_ns is Some && now_ns >= s.last_change_ns->0 + 1_500_000_000,
{
}

/// Only a triggered profile has a button, and only with a pin other than zero.
pub proof fn law_triggered_profiles_have_buttons(profile: DisplayProfile)
    ensures
        has_button(profile) <==> profile.profile_type == ProfileType::Triggered
            && profile.button_pin > 0,
{
}

} // verus!
