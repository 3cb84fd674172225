//! The task that watches the RPM: it takes it from clients' requests, asks for it
//! itself while there are none, and drives the LEDs.

use crate::elm327::{extract_rpm_from_response, rpm_in};
use crate::leds::NANOS_PER_MS;
use crate::text::uppercase;
use crate::threshold::leds::Threshold;
use vstd::prelude::*;

verus! {

/// How often to ask for the RPM, in ms.
pub const IDLE_POLL_INTERVAL_MS: u64 = 100;

/// How long after a client's RPM to resume asking, in ms.
pub const CLIENT_ACTIVITY_BACKOFF_MS: u64 = 500;

/// What the task waited for.
#[derive(Debug, Clone, Copy, PartialEq, Eq, Structural)]
pub enum RpmEvent {
    /// A client's request brought an RPM
    Client(u32),
    /// Nothing happened in time
    Timeout,
    /// Nobody can report an RPM any more
    Disconnected,
}

/// What the task does next.
#[derive(Debug, Clone, Copy, PartialEq, Eq, Structural)]
pub enum RpmStep {
    /// Ask the dongle for the RPM
    Poll,
    /// Publish and show the current RPM, if there is one
    Show(Option<u32>),
    /// Stop
    Exit,
}

/// The task's state. Times are of the monotonic clock, in ns.
#[derive(Debug, Clone, Copy, PartialEq, Eq, Structural)]
pub struct RpmTask {
    pub current_rpm: Option<u32>,
    pub last_client_ns: Option<u64>,
    pub last_poll_ns: Option<u64>,
}

/// A time has passed since a moment, or the moment has not been yet.
pub open spec fn passed(since_ns: Option<u64>, now_ns: u64, ms: u64) -> bool {
    match since_ns {
        None => true,
        Some(since) => now_ns - since >= ms * NANOS_PER_MS,
    }
}

/// How long until the next poll, in ns.
pub open spec fn until_poll(last_poll_ns: Option<u64>, now_ns: u64) -> int {
    match last_poll_ns {
        None => 0,
        Some(last) => {
            let elapsed = if now_ns >= last {
                now_ns - last
            } else {
                0
            };
            if elapsed >= IDLE_POLL_INTERVAL_MS * NANOS_PER_MS {
                0
            } else {
                IDLE_POLL_INTERVAL_MS * NANOS_PER_MS - elapsed
            }
        },
    }
}

/// The blink time of the last blinking threshold that the RPM has reached.
pub open spec fn blink_time(thresholds: Seq<Threshold>, rpm: u32) -> Option<u32>
    decreases thresholds.len(),
{
    if thresholds.len() == 0 {
        None
    } else if rpm >= thresholds.last().rpm && thresholds.last().blink {
        Some(thresholds.last().blink_ms)
    } else {
        blink_time(thresholds.drop_last(), rpm)
    }
}

/// How long to wait, in ns: until the next poll, but no longer than a blink.
pub open spec fn wait_time(task: RpmTask, thresholds: Seq<Threshold>, now_ns: u64) -> int {
    let poll = until_poll(task.last_poll_ns, now_ns);
    let blink = match task.current_rpm {
        Some(rpm) => blink_time(thresholds, rpm),
        None => None,
    };
    match blink {
        Some(ms) => if ms * NANOS_PER_MS < poll {
            ms * NANOS_PER_MS
        } else {
            poll
        },
        None => poll,
    }
}

fn has_passed(since_ns: Option<u64>, now_ns: u64, ms: u64) -> (r: bool)
    requires
        ms > 0,
    ensures
        r == passed(since_ns, now_ns, ms),
{
    match since_ns {
        None => true,
        Some(since) => now_ns >= since && (now_ns - since) as u128 >= ms as u128 * NANOS_PER_MS,
    }
}

impl RpmTask {
    /// Nothing known, and nothing asked yet.
    pub fn new() -> (r: Self)
        ensures
            r == (RpmTask { current_rpm: None, last_client_ns: None, last_poll_ns: None }),
    {
        RpmTask { current_rpm: None, last_client_ns: None, last_poll_ns: None }
    }

    /// How long to wait for a client's RPM, in ns.
    pub fn timeout(&self, thresholds: &[Threshold], now_ns: u64) -> (r: u64)
        ensures
            r == wait_time(*self, thresholds@, now_ns),
    {
        let poll: u64 = match self.last_poll_ns {
            None => 0,
            Some(last) => {
                let elapsed: u64 = now_ns.saturating_sub(last);
                if elapsed >= 100_000_000 {
                    0
                } else {
                    100_000_000 - elapsed
                }
            },
        };
        assert(poll == until_poll(self.last_poll_ns, now_ns));
        if let Some(rpm) = self.current_rpm {
            let mut n: usize = thresholds.len();
            assert(thresholds@.take(n as int) =~= thresholds@);
            while n > 0
                invariant
                    n <= thresholds@.len(),
                    blink_time(thresholds@.take(n as int), rpm) == blink_time(thresholds@, rpm),
                    self.current_rpm == Some(rpm),
                    poll == until_poll(self.last_poll_ns, now_ns),
                decreases n,
            {
                n = n - 1;
                let ghost upto = thresholds@.take(n + 1);
                assert(upto.drop_last() =~= thresholds@.take(n as int));
                assert(upto.last() == thresholds@[n as int]);
                let t: &Threshold = &thresholds[n];
                if rpm >= t.rpm && t.blink {
                    let blink: u64 = t.blink_ms as u64 * 1_000_000;
                    return if blink < poll {
                        blink
                    } else {
                        poll
                    };
                }
            }
        }
        poll
    }

    /// Take in what the task waited for. A poll waits until no client has reported
    /// an RPM for a while, and until the last poll is long enough ago.
    pub fn receive(&mut self, event: RpmEvent, now_ns: u64) -> (r: RpmStep)
        ensures
            match event {
                RpmEvent::Client(rpm) => {
                    &&& *final(self) == (RpmTask {
                        current_rpm: Some(rpm),
                        last_client_ns: Some(now_ns),
                        ..*old(self)
                    })
                    &&& r == RpmStep::Show(Some(rpm))
                },
                RpmEvent::Timeout => if passed(
                    old(self).last_client_ns,
                    now_ns,
                    CLIENT_ACTIVITY_BACKOFF_MS,
                ) && passed(old(self).last_poll_ns, now_ns, IDLE_POLL_INTERVAL_MS) {
                    r == RpmStep::Poll && *final(self) == (RpmTask {
                        last_poll_ns: Some(now_ns),
                        ..*old(self)
                    })
                } else {
                    r == RpmStep::Show(old(self).current_rpm) && *final(self) == *old(self)
                },
                RpmEvent::Disconnected => r == RpmStep::Exit && *final(self) == *old(self),
            },
    {
        match event {
            RpmEvent::Client(rpm) => {
                self.last_client_ns = Some(now_ns);
                self.current_rpm = Some(rpm);
                RpmStep::Show(Some(rpm))
            },
            RpmEvent::Timeout => {
                let idle = has_passed(self.last_client_ns, now_ns, CLIENT_ACTIVITY_BACKOFF_MS);
                let due = has_passed(self.last_poll_ns, now_ns, IDLE_POLL_INTERVAL_MS);
                if idle && due {
                    self.last_poll_ns = Some(now_ns);
                    RpmStep::Poll
                } else {
                    RpmStep::Show(self.current_rpm)
                }
            },
            RpmEvent::Disconnected => RpmStep::Exit,
        }
    }

    /// The command that asks the dongle for the RPM.
    pub fn poll_command() -> (r: &'static str)
        ensures
            r@ == "010C"@,
    {
        "010C"
    }

    /// Take in the answer to a poll, if there is one; returns the RPM to publish and
    /// show. An answer without an RPM leaves the last one.
    pub fn finish_poll(&mut self, response: Option<&[u8]>) -> (r: Option<u32>)
        ensures
            r == final(self).current_rpm,
            final(self).last_client_ns == old(self).last_client_ns,
            final(self).last_poll_ns == old(self).last_poll_ns,
            match response {
                Some(data) => if vstd::utf8::valid_utf8(data@) && rpm_in(
                    uppercase(vstd::utf8::decode_utf8(data@)),
                ) is Some {
                    r is Some && rpm_in(uppercase(vstd::utf8::decode_utf8(data@))) == Some(
                        r->0 as nat,
                    )
                } else {
                    r == old(self).current_rpm
                },
                None => r == old(self).current_rpm,
            },
    {
        if let Some(data) = response {
            if let Some(rpm) = extract_rpm_from_response(data) {
                self.current_rpm = Some(rpm);
            }
        }
        self.current_rpm
    }
}

/// While clients keep reporting the RPM, the task does not ask for it.
pub proof fn law_clients_come_first(task: RpmTask, client_ns: u64, now_ns: u64)
    requires
        task.last_client_ns == Some(client_ns),
        now_ns - client_ns < CLIENT_ACTIVITY_BACKOFF_MS * NANOS_PER_MS,
    ensures
        !passed(task.last_client_ns, now_ns, CLIENT_ACTIVITY_BACKOFF_MS),
{
}

/// After the wait for a poll the poll is due.
pub proof fn law_waiting_makes_poll_due(last_poll_ns: Option<u64>, now_ns: u64, later_ns: u64)
    requires
        last_poll_ns matches Some(last) ==> last <= now_ns,
        later_ns >= now_ns + until_poll(last_poll_ns, now_ns),
    ensures
        passed(last_poll_ns, later_ns, IDLE_POLL_INTERVAL_MS),
{
}

/// A time has passed to the nanosecond; before the first time, it has.
pub proof fn law_times_pass(since_ns: u64, now_ns: u64, ms: u64)
    requires
        since_ns <= now_ns,
    ensures
        passed(Some(since_ns), now_ns, ms) <==> now_ns >= since_ns + ms * 1_000_000,
        passed(None, now_ns, ms),
{
}

/// The next poll is a tenth of a second after the last one, or at once where that has
/// passed or none was made; half a second after a client's RPM polls are made again.
pub proof fn law_polls_come_regularly(last_ns: u64, now_ns: u64)
    requires
        last_ns <= now_ns,
    ensures
        until_poll(None, now_ns) == 0,
        now_ns < last_ns + 100_000_000 ==> now_ns + until_poll(Some(last_ns), now_ns) == last_ns
            + 100_000_000,
        now_ns >= last_ns + 100_000_000 ==> until_poll(Some(last_ns), now_ns) == 0,
        passed(Some(last_ns), now_ns, CLIENT_ACTIVITY_BACKOFF_MS) <==> now_ns >= last_ns
            + 500_000_000,
        passed(Some(last_ns), now_ns, IDLE_POLL_INTERVAL_MS) <==> now_ns >= last_ns + 100_000_000,
{
}

/// The last blinking threshold that is reached sets the pace; others do not.
pub proof fn law_last_blinking_threshold_sets_the_pace(
    front: Seq<Threshold>,
    t: Threshold,
    rpm: u32,
)
    ensures
        t.blink && t.rpm <= rpm ==> blink_time(front.push(t), rpm) == Some(t.blink_ms),
        !t.blink || t.rpm > rpm ==> blink_time(front.push(t), rpm) == blink_time(front, rpm),
        blink_time(Seq::empty(), rpm) is None,
{
    assert(front.push(t).drop_last() =~= front);
}

/// The task waits until the next poll, but no longer than a blink takes at the current
/// RPM.
pub proof fn law_wait_is_the_shorter(task: RpmTask, thresholds: Seq<Threshold>, now_ns: u64)
    ensures
        ({
            let wait = wait_time(task, thresholds, now_ns);
            let poll = until_poll(task.last_poll_ns, now_ns);
            &&& wait <= poll
            &&& task.current_rpm is None ==> wait == poll
            &&& task.current_rpm matches Some(rpm) ==> (blink_time(thresholds, rpm) matches Some(
                ms,
            ) ==> wait <= ms * 1_000_000 && (wait == poll || wait == ms * 1_000_000))
            &&& task.current_rpm matches Some(rpm) ==> (blink_time(thresholds, rpm) is None ==> wait
                == poll)
        }),
{
}

} // verus!
