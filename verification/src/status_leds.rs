//! Status LEDs.
//!
//! Three LEDs (red, yellow, green) indicate:
//! - **Red**: WiFi STA connection state (off/blink/solid)
//! - **Yellow**: OBD2 dongle TCP state (off/solid during init/flicker when active)
//! - **Green**: Client connection state (off/solid/flicker on activity)
//!
//! An OTA update overrides them with a chase across all three. The program
//! around it waits for messages until the next deadline, and drives the pins.

use crate::leds::NANOS_PER_MS;
use crate::obd2::dongle::DongleTcpState;
use crate::ota::OtaState;
use crate::wifi::WifiStaState;
use vstd::prelude::*;

verus! {

/// Blink half-period for WiFi "connecting" state (~2 Hz = 250 ms half-period),
/// in ns
pub const WIFI_BLINK_NS: u128 = 250_000_000;

/// OTA chase step duration (each LED lights for this long), in ns
pub const OTA_CHASE_NS: u128 = 200_000_000;

/// Messages sent to the status LED task.
#[derive(Debug, Clone, Copy, PartialEq, Eq, Structural)]
pub enum StatusLedMessage {
    /// WiFi STA state changed
    WifiState(WifiStaState),
    /// Dongle TCP state changed
    DongleState(DongleTcpState),
    /// OBD2 client count changed (downstream clients in proxy mode)
    ClientCount(u32),
    /// A request was sent to the dongle (triggers yellow flicker)
    DongleActivity,
    /// A request was received from / sent on behalf of a client (triggers green flicker)
    ClientActivity,
    /// OTA status changed
    OtaStatus(OtaState),
}

/// Which LEDs are on.
#[derive(Debug, Clone, Copy, PartialEq, Eq, Structural)]
pub struct StatusOutputs {
    pub red: bool,
    pub yellow: bool,
    pub green: bool,
}

/// All LEDs off.
pub open spec fn all_dark() -> StatusOutputs {
    StatusOutputs { red: false, yellow: false, green: false }
}

/// All LEDs off.
pub fn all_off() -> (r: StatusOutputs)
    ensures
        r == all_dark(),
{
    StatusOutputs { red: false, yellow: false, green: false }
}

/// Boot animation: each LED lights in turn, with all of them off in between.
/// Each of these outputs is held for the same time.
pub fn boot_animation() -> (r: Vec<StatusOutputs>)
    ensures
        r@ == seq![
            (StatusOutputs { red: true, yellow: false, green: false }),
            all_dark(),
            (StatusOutputs { red: false, yellow: true, green: false }),
            all_dark(),
            (StatusOutputs { red: false, yellow: false, green: true }),
            all_dark(),
        ],
{
    let mut outputs: Vec<StatusOutputs> = Vec::new();
    outputs.push(StatusOutputs { red: true, yellow: false, green: false });
    outputs.push(all_off());
    outputs.push(StatusOutputs { red: false, yellow: true, green: false });
    outputs.push(all_off());
    outputs.push(StatusOutputs { red: false, yellow: false, green: true });
    outputs.push(all_off());
    assert(outputs@ =~= seq![
        (StatusOutputs { red: true, yellow: false, green: false }),
        all_dark(),
        (StatusOutputs { red: false, yellow: true, green: false }),
        all_dark(),
        (StatusOutputs { red: false, yellow: false, green: true }),
        all_dark(),
    ]);
    outputs
}

/// What the LEDs show, and the timers behind it. Times are those of the
/// monotonic clock, in ns.
#[derive(Debug, Clone, Copy, PartialEq, Eq, Structural)]
pub struct LedTaskState {
    pub wifi: WifiStaState,
    pub dongle: DongleTcpState,
    pub client_count: u32,
    pub ota: OtaState,
    pub wifi_blink_on: bool,
    pub wifi_blink_deadline: u128,
    pub yellow_flicker_on: bool,
    pub yellow_activity_deadline: Option<u128>,
    pub green_flicker_on: bool,
    pub green_activity_deadline: Option<u128>,
    /// Which LED the chase lights: 0, 1 or 2
    pub ota_chase_index: u8,
    pub ota_chase_deadline: u128,
    /// How long activity keeps an LED flickering
    pub activity_timeout: u128,
}

/// What a message changes.
pub open spec fn processed(s: LedTaskState, msg: StatusLedMessage, now_ns: u64) -> LedTaskState {
    match msg {
        StatusLedMessage::WifiState(wifi) => if wifi == s.wifi {
            s
        } else {
            LedTaskState {
                wifi,
                wifi_blink_on: true,
                wifi_blink_deadline: (now_ns + WIFI_BLINK_NS) as u128,
                ..s
            }
        },
        StatusLedMessage::DongleState(dongle) => LedTaskState {
            dongle,
            yellow_activity_deadline: if dongle == DongleTcpState::Disconnected {
                None
            } else {
                s.yellow_activity_deadline
            },
            ..s
        },
        StatusLedMessage::ClientCount(n) => LedTaskState {
            client_count: n,
            green_activity_deadline: if n == 0 {
                None
            } else {
                s.green_activity_deadline
            },
            ..s
        },
        StatusLedMessage::DongleActivity => if s.dongle == DongleTcpState::Ready {
            LedTaskState {
                yellow_flicker_on: !s.yellow_flicker_on,
                yellow_activity_deadline: Some((now_ns + s.activity_timeout) as u128),
                ..s
            }
        } else {
            s
        },
        StatusLedMessage::ClientActivity => if s.client_count > 0 {
            LedTaskState {
                green_flicker_on: !s.green_flicker_on,
                green_activity_deadline: Some((now_ns + s.activity_timeout) as u128),
                ..s
            }
        } else {
            s
        },
        StatusLedMessage::OtaStatus(ota) => if ota == OtaState::Updating && s.ota
            != OtaState::Updating {
            LedTaskState {
                ota,
                ota_chase_index: 0,
                ota_chase_deadline: (now_ns + OTA_CHASE_NS) as u128,
                ..s
            }
        } else {
            LedTaskState { ota, ..s }
        },
    }
}

/// What several messages change, taken in order.
pub open spec fn all_processed(s: LedTaskState, msgs: Seq<StatusLedMessage>, now_ns: u64) ->
    LedTaskState
    decreases msgs.len(),
{
    if msgs.len() == 0 {
        s
    } else {
        processed(all_processed(s, msgs.drop_last(), now_ns), msgs.last(), now_ns)
    }
}

/// The state once the timers that have run out were dealt with.
pub open spec fn timers_updated(s: LedTaskState, now_ns: u64) -> LedTaskState {
    let blinks = s.wifi == WifiStaState::Connecting && now_ns >= s.wifi_blink_deadline;
    let yellow_ends = s.yellow_activity_deadline is Some && now_ns
        >= s.yellow_activity_deadline->0;
    let green_ends = s.green_activity_deadline is Some && now_ns >= s.green_activity_deadline->0;
    let chases = s.ota == OtaState::Updating && now_ns >= s.ota_chase_deadline;
    LedTaskState {
        wifi_blink_on: s.wifi_blink_on != blinks,
        wifi_blink_deadline: if blinks {
            (now_ns + WIFI_BLINK_NS) as u128
        } else {
            s.wifi_blink_deadline
        },
        yellow_flicker_on: s.yellow_flicker_on || yellow_ends,
        yellow_activity_deadline: if yellow_ends {
            None
        } else {
            s.yellow_activity_deadline
        },
        green_flicker_on: s.green_flicker_on || green_ends,
        green_activity_deadline: if green_ends {
            None
        } else {
            s.green_activity_deadline
        },
        ota_chase_index: if chases {
            ((s.ota_chase_index + 1) % 3) as u8
        } else {
            s.ota_chase_index
        },
        ota_chase_deadline: if chases {
            (now_ns + OTA_CHASE_NS) as u128
        } else {
            s.ota_chase_deadline
        },
        ..s
    }
}

/// Which LEDs are on: the chase during an update, else one LED for each state.
pub open spec fn outputs_of(s: LedTaskState) -> StatusOutputs {
    if s.ota == OtaState::Updating {
        StatusOutputs {
            red: s.ota_chase_index == 0,
            yellow: s.ota_chase_index == 1,
            green: s.ota_chase_index == 2,
        }
    } else {
        StatusOutputs {
            red: match s.wifi {
                WifiStaState::Disconnected => false,
                WifiStaState::Connecting => s.wifi_blink_on,
                WifiStaState::Connected => true,
            },
            yellow: match s.dongle {
                DongleTcpState::Disconnected => false,
                DongleTcpState::Initializing => true,
                DongleTcpState::Ready => s.yellow_activity_deadline is Some
                    ==> s.yellow_flicker_on,
            },
            green: s.client_count > 0 && (s.green_activity_deadline is Some ==> s.green_flicker_on),
        }
    }
}

/// The deadlines that matter at the moment.
pub open spec fn is_deadline(s: LedTaskState, t: u128) -> bool {
    ||| s.wifi == WifiStaState::Connecting && t == s.wifi_blink_deadline
    ||| s.yellow_activity_deadline == Some(t)
    ||| s.green_activity_deadline == Some(t)
    ||| s.ota == OtaState::Updating && t == s.ota_chase_deadline
}

/// How long to wait for a message.
#[derive(Debug, Clone, Copy, PartialEq, Eq, Structural)]
pub enum StatusWait {
    /// Until one comes
    Forever,
    /// Not at all: a deadline has passed
    Not,
    /// For this many nanoseconds at most
    AtMost(u128),
}

impl LedTaskState {
    /// The chase is at one of the three LEDs.
    pub open spec fn well_formed(&self) -> bool {
        self.ota_chase_index < 3 && self.activity_timeout <= u16::MAX * NANOS_PER_MS
    }

    /// Nothing is connected yet.
    pub fn new(activity_timeout_ms: u16, now_ns: u64) -> (r: Self)
        ensures
            r.well_formed(),
            r == (LedTaskState {
                wifi: WifiStaState::Disconnected,
                dongle: DongleTcpState::Disconnected,
                client_count: 0,
                ota: OtaState::Idle,
                wifi_blink_on: false,
                wifi_blink_deadline: now_ns as u128,
                yellow_flicker_on: true,
                yellow_activity_deadline: None,
                green_flicker_on: true,
                green_activity_deadline: None,
                ota_chase_index: 0,
                ota_chase_deadline: now_ns as u128,
                activity_timeout: (activity_timeout_ms * NANOS_PER_MS) as u128,
            }),
            outputs_of(r) == all_dark(),
    {
        LedTaskState {
            wifi: WifiStaState::Disconnected,
            dongle: DongleTcpState::Disconnected,
            client_count: 0,
            ota: OtaState::Idle,
            wifi_blink_on: false,
            wifi_blink_deadline: now_ns as u128,
            yellow_flicker_on: true,
            yellow_activity_deadline: None,
            green_flicker_on: true,
            green_activity_deadline: None,
            ota_chase_index: 0,
            ota_chase_deadline: now_ns as u128,
            activity_timeout: activity_timeout_ms as u128 * NANOS_PER_MS,
        }
    }

    /// Process a single status LED message.
    pub fn process_message(&mut self, msg: StatusLedMessage, now_ns: u64)
        requires
            old(self).well_formed(),
        ensures
            final(self).well_formed(),
            *final(self) == processed(*old(self), msg, now_ns),
    {
        match msg {
            StatusLedMessage::WifiState(wifi) => {
                if wifi != self.wifi {
                    self.wifi = wifi;
                    self.wifi_blink_on = true;
                    self.wifi_blink_deadline = now_ns as u128 + WIFI_BLINK_NS;
                }
            },
            StatusLedMessage::DongleState(dongle) => {
                self.dongle = dongle;
                if dongle == DongleTcpState::Disconnected {
                    self.yellow_activity_deadline = None;
                }
            },
            StatusLedMessage::ClientCount(n) => {
                self.client_count = n;
                if n == 0 {
                    self.green_activity_deadline = None;
                }
            },
            StatusLedMessage::DongleActivity => {
                if self.dongle == DongleTcpState::Ready {
                    self.yellow_flicker_on = !self.yellow_flicker_on;
                    self.yellow_activity_deadline = Some(now_ns as u128 + self.activity_timeout);
                }
            },
            StatusLedMessage::ClientActivity => {
                if self.client_count > 0 {
                    self.green_flicker_on = !self.green_flicker_on;
                    self.green_activity_deadline = Some(now_ns as u128 + self.activity_timeout);
                }
            },
            StatusLedMessage::OtaStatus(ota) => {
                let was_active = self.ota == OtaState::Updating;
                self.ota = ota;
                if ota == OtaState::Updating && !was_active {
                    self.ota_chase_index = 0;
                    self.ota_chase_deadline = now_ns as u128 + OTA_CHASE_NS;
                }
            },
        }
    }

    /// Compute the earliest deadline we need to wake for.
    pub fn next_deadline(&self) -> (r: Option<u128>)
        ensures
            match r {
                Some(t) => is_deadline(*self, t) && forall|u: u128|
                    #[trigger] is_deadline(*self, u) ==> t <= u,
                None => forall|u: u128| !#[trigger] is_deadline(*self, u),
            },
    {
        let mut earliest: Option<u128> = None;
        if self.wifi == WifiStaState::Connecting {
            earliest = Some(self.wifi_blink_deadline);
        }
        if let Some(t) = self.yellow_activity_deadline {
            earliest = Some(earlier(earliest, t));
        }
        if let Some(t) = self.green_activity_deadline {
            earliest = Some(earlier(earliest, t));
        }
        if self.ota == OtaState::Updating {
            earliest = Some(earlier(earliest, self.ota_chase_deadline));
        }
        earliest
    }

    /// How long to wait for a message.
    pub fn wait(&self, now_ns: u64) -> (r: StatusWait)
        ensures
            match r {
                StatusWait::Forever => forall|u: u128| !#[trigger] is_deadline(*self, u),
                StatusWait::Not => exists|u: u128| #[trigger]
                    is_deadline(*self, u) && u <= now_ns,
                StatusWait::AtMost(left) => left > 0 && is_deadline(
                    *self,
                    (now_ns + left) as u128,
                ) && forall|u: u128| #[trigger] is_deadline(*self, u) ==> now_ns + left <= u,
            },
    {
        match self.next_deadline() {
            None => StatusWait::Forever,
            Some(deadline) => if now_ns as u128 >= deadline {
                StatusWait::Not
            } else {
                StatusWait::AtMost(deadline - now_ns as u128)
            },
        }
    }

    /// Advance blink / flicker / chase timers based on the current time.
    pub fn update_timers(&mut self, now_ns: u64)
        requires
            old(self).well_formed(),
        ensures
            final(self).well_formed(),
            *final(self) == timers_updated(*old(self), now_ns),
    {
        let now: u128 = now_ns as u128;
        if self.wifi == WifiStaState::Connecting && now >= self.wifi_blink_deadline {
            self.wifi_blink_on = !self.wifi_blink_on;
            self.wifi_blink_deadline = now + WIFI_BLINK_NS;
        }
        if let Some(t) = self.yellow_activity_deadline {
            if now >= t {
                self.yellow_activity_deadline = None;
                self.yellow_flicker_on = true;
            }
        }
        if let Some(t) = self.green_activity_deadline {
            if now >= t {
                self.green_activity_deadline = None;
                self.green_flicker_on = true;
            }
        }
        if self.ota == OtaState::Updating && now >= self.ota_chase_deadline {
            self.ota_chase_index = (self.ota_chase_index + 1) % 3;
            self.ota_chase_deadline = now + OTA_CHASE_NS;
        }
    }

    /// Which LEDs are on.
    pub fn drive_leds(&self) -> (r: StatusOutputs)
        ensures
            r == outputs_of(*self),
    {
        if self.ota == OtaState::Updating {
            return StatusOutputs {
                red: self.ota_chase_index == 0,
                yellow: self.ota_chase_index == 1,
                green: self.ota_chase_index == 2,
            };
        }
        let red = match self.wifi {
            WifiStaState::Disconnected => false,
            WifiStaState::Connecting => self.wifi_blink_on,
            WifiStaState::Connected => true,
        };
        let yellow = match self.dongle {
            DongleTcpState::Disconnected => false,
            DongleTcpState::Initializing => true,
            DongleTcpState::Ready => self.yellow_activity_deadline.is_none()
                || self.yellow_flicker_on,
        };
        let green = self.client_count > 0 && (self.green_activity_deadline.is_none()
            || self.green_flicker_on);
        StatusOutputs { red, yellow, green }
    }

    /// Handle the messages that have come, if any, and then the timers.
    pub fn step(&mut self, msgs: &[StatusLedMessage], now_ns: u64) -> (r: StatusOutputs)
        requires
            old(self).well_formed(),
        ensures
            final(self).well_formed(),
            *final(self) == timers_updated(all_processed(*old(self), msgs@, now_ns), now_ns),
            r == outputs_of(*final(self)),
    {
        let mut i: usize = 0;
        assert(msgs@.take(0) =~= Seq::empty());
        while i < msgs.len()
            invariant
                i <= msgs@.len(),
                self.well_formed(),
                *self == all_processed(*old(self), msgs@.take(i as int), now_ns),
            decreases msgs@.len() - i,
        {
            assert(msgs@.take(i + 1).drop_last() =~= msgs@.take(i as int));
            self.process_message(msgs[i], now_ns);
            i = i + 1;
        }
        assert(msgs@.take(i as int) =~= msgs@);
        self.update_timers(now_ns);
        self.drive_leds()
    }
}

/// The earlier of two times.
fn earlier(a: Option<u128>, b: u128) -> (r: u128)
    ensures
        r == if a is Some && a->0 < b {
            a->0
        } else {
            b
        },
{
    match a {
        Some(t) => if t < b {
            t
        } else {
            b
        },
        None => b,
    }
}

// ---------------------------------------------------------------------------
// Laws
// ---------------------------------------------------------------------------

/// After the timers were dealt with no deadline lies in the past: the task
/// always waits.
pub proof fn law_no_deadline_left_behind(s: LedTaskState, now_ns: u64, t: u128)
    requires
        is_deadline(timers_updated(s, now_ns), t),
    ensures
        t > now_ns,
{
}

/// During an update exactly one LED is on.
pub proof fn law_chase_lights_one(s: LedTaskState)
    requires
        s.well_formed(),
        s.ota == OtaState::Updating,
    ensures
        ({
            let out = outputs_of(s);
            (out.red && !out.yellow && !out.green) || (!out.red && out.yellow && !out.green) || (
            !out.red && !out.yellow && out.green)
        }),
{
}

/// Without any connection, and without an update, all LEDs are off.
pub proof fn law_disconnected_is_dark(s: LedTaskState)
    requires
        s.ota != OtaState::Updating,
        s.wifi == WifiStaState::Disconnected,
        s.dongle == DongleTcpState::Disconnected,
        s.client_count == 0,
    ensures
        outputs_of(s) == all_dark(),
{
}

/// The yellow and the green LED are lit steadily once their activity is over.
pub proof fn law_flicker_ends_lit(s: LedTaskState, now_ns: u64)
    requires
        s.ota != OtaState::Updating,
    ensures
        s.dongle == DongleTcpState::Ready && (s.yellow_activity_deadline is Some ==> now_ns
            >= s.yellow_activity_deadline->0) ==> outputs_of(timers_updated(s, now_ns)).yellow,
        s.client_count > 0 && (s.green_activity_deadline is Some ==> now_ns
            >= s.green_activity_deadline->0) ==> outputs_of(timers_updated(s, now_ns)).green,
{
}

/// Each LED has one message kind that moves it: what the WiFi does shows on the red
/// one, the dongle on the yellow one, the clients on the green one, and no other
/// LED changes with it.
pub proof fn law_each_led_has_its_subject(
    s: LedTaskState,
    wifi: WifiStaState,
    dongle: DongleTcpState,
    clients: u32,
    now_ns: u64,
)
    requires
        s.ota != OtaState::Updating,
    ensures
        ({
            let before = outputs_of(s);
            let after = outputs_of(processed(s, StatusLedMessage::WifiState(wifi), now_ns));
            after.yellow == before.yellow && after.green == before.green
        }),
        ({
            let before = outputs_of(s);
            let after = outputs_of(processed(s, StatusLedMessage::DongleState(dongle), now_ns));
            let active = outputs_of(processed(s, StatusLedMessage::DongleActivity, now_ns));
            &&& after.red == before.red && after.green == before.green
            &&& active.red == before.red && active.green == before.green
            &&& dongle == DongleTcpState::Disconnected ==> !after.yellow
            &&& dongle == DongleTcpState::Initializing ==> after.yellow
            &&& dongle == DongleTcpState::Ready && s.yellow_activity_deadline is None
                ==> after.yellow
        }),
        ({
            let before = outputs_of(s);
            let after = outputs_of(processed(s, StatusLedMessage::ClientCount(clients), now_ns));
            let active = outputs_of(processed(s, StatusLedMessage::ClientActivity, now_ns));
            &&& after.red == before.red && after.yellow == before.yellow
            &&& active.red == before.red && active.yellow == before.yellow
            &&& clients == 0 ==> !after.green
            &&& clients > 0 && s.green_activity_deadline is None ==> after.green
        }),
{
}

/// The red LED is lit while the WiFi is connected and dark while it is not. When
/// it starts to connect the LED lights for 250 ms, and then goes off and on with
/// that period.
pub proof fn law_wifi_blinks_while_connecting(s: LedTaskState, now_ns: u64, later_ns: u64)
    requires
        s.ota != OtaState::Updating,
        s.wifi != WifiStaState::Connecting,
        now_ns <= later_ns,
    ensures
        ({
            let connecting = processed(
                s,
                StatusLedMessage::WifiState(WifiStaState::Connecting),
                now_ns,
            );
            let later = timers_updated(connecting, later_ns);
            &&& outputs_of(connecting).red
            &&& is_deadline(connecting, (now_ns + 250_000_000) as u128)
            &&& later_ns < now_ns + 250_000_000 ==> outputs_of(later).red
            &&& later_ns >= now_ns + 250_000_000 ==> !outputs_of(later).red && is_deadline(
                later,
                (later_ns + 250_000_000) as u128,
            )
            &&& outputs_of(
                processed(connecting, StatusLedMessage::WifiState(WifiStaState::Connected), now_ns),
            ).red
            &&& !outputs_of(
                processed(
                    connecting,
                    StatusLedMessage::WifiState(WifiStaState::Disconnected),
                    now_ns,
                ),
            ).red
            &&& processed(
                connecting,
                StatusLedMessage::WifiState(WifiStaState::Connecting),
                later_ns,
            ) == connecting
        }),
{
}

/// Activity of a dongle that is ready toggles the yellow LED, and keeps it
/// flickering until the activity timeout has passed since the last activity; a
/// dongle that is not ready does not flicker.
pub proof fn law_dongle_activity_flickers(s: LedTaskState, now_ns: u64)
    requires
        s.ota != OtaState::Updating,
        s.well_formed(),
    ensures
        s.dongle == DongleTcpState::Ready ==> ({
            let once = processed(s, StatusLedMessage::DongleActivity, now_ns);
            let twice = processed(once, StatusLedMessage::DongleActivity, now_ns);
            &&& outputs_of(once).yellow != s.yellow_flicker_on
            &&& outputs_of(twice).yellow == s.yellow_flicker_on
            &&& once.yellow_activity_deadline == Some((now_ns + s.activity_timeout) as u128)
            &&& is_deadline(once, (now_ns + s.activity_timeout) as u128)
        }),
        s.dongle != DongleTcpState::Ready ==> processed(s, StatusLedMessage::DongleActivity, now_ns)
            == s,
{
}

/// Activity of clients toggles the green LED in the same way, as long as there is
/// a client.
pub proof fn law_client_activity_flickers(s: LedTaskState, now_ns: u64)
    requires
        s.ota != OtaState::Updating,
        s.well_formed(),
    ensures
        s.client_count > 0 ==> ({
            let once = processed(s, StatusLedMessage::ClientActivity, now_ns);
            let twice = processed(once, StatusLedMessage::ClientActivity, now_ns);
            &&& outputs_of(once).green != s.green_flicker_on
            &&& outputs_of(twice).green == s.green_flicker_on
            &&& once.green_activity_deadline == Some((now_ns + s.activity_timeout) as u128)
            &&& is_deadline(once, (now_ns + s.activity_timeout) as u128)
        }),
        s.client_count == 0 ==> processed(s, StatusLedMessage::ClientActivity, now_ns) == s,
{
}

/// An update starts the chase at the red LED; each 200 ms it goes on to yellow, to
/// green, and to red again. A message that the update goes on does not restart it.
pub proof fn law_chase_goes_round(s: LedTaskState, now_ns: u64, later_ns: u64)
    requires
        s.well_formed(),
        now_ns <= later_ns,
    ensures
        s.ota != OtaState::Updating ==> ({
            let start = processed(s, StatusLedMessage::OtaStatus(OtaState::Updating), now_ns);
            &&& outputs_of(start) == (StatusOutputs { red: true, yellow: false, green: false })
            &&& is_deadline(start, (now_ns + 200_000_000) as u128)
            &&& later_ns < now_ns + 200_000_000 ==> outputs_of(timers_updated(start, later_ns))
                == outputs_of(start)
        }),
        s.ota == OtaState::Updating ==> ({
            let next = outputs_of(timers_updated(s, now_ns));
            let before = outputs_of(s);
            &&& processed(s, StatusLedMessage::OtaStatus(OtaState::Updating), now_ns) == s
            &&& now_ns < s.ota_chase_deadline ==> next == before
            &&& now_ns >= s.ota_chase_deadline ==> {
                &&& next.yellow == before.red
                &&& next.green == before.yellow
                &&& next.red == before.green
                &&& is_deadline(timers_updated(s, now_ns), (now_ns + 200_000_000) as u128)
            }
        }),
        ({
            let ended = processed(s, StatusLedMessage::OtaStatus(OtaState::Idle), now_ns);
            &&& ended.wifi == s.wifi && ended.dongle == s.dongle
            &&& ended.client_count == s.client_count
            &&& ended.ota == OtaState::Idle
        }),
{
}

/// Messages are taken in the order in which they came.
pub proof fn law_messages_are_taken_in_order(
    s: LedTaskState,
    msgs: Seq<StatusLedMessage>,
    msg: StatusLedMessage,
    now_ns: u64,
)
    ensures
        all_processed(s, Seq::empty(), now_ns) == s,
        all_processed(s, msgs.push(msg), now_ns) == processed(
            all_processed(s, msgs, now_ns),
            msg,
            now_ns,
        ),
{
    assert(msgs.push(msg).drop_last() =~= msgs);
}

/// The timers change nothing of what is connected.
pub proof fn law_timers_keep_states(s: LedTaskState, now_ns: u64)
    ensures
        ({
            let after = timers_updated(s, now_ns);
            &&& after.wifi == s.wifi
            &&& after.dongle == s.dongle
            &&& after.client_count == s.client_count
            &&& after.ota == s.ota
            &&& after.activity_timeout == s.activity_timeout
        }),
{
}

} // verus!
