//! The connection to the dongle of the simpler device. Commands to it end in a
//! carriage return and its answers in a prompt, as those of the other device do.

use crate::leds::NANOS_PER_MS;
use crate::obd2::buffers::Obd2Buffer;
use crate::obd2::dongle::{is_fatal, DongleError};
use vstd::prelude::*;

verus! {

/// How long to wait before another attempt to connect, in ms.
pub const RECONNECT_DELAY_MS: u64 = 1000;

/// Request to the dongle task
pub struct DongleRequest {
    /// The OBD2 command to send (without terminator)
    pub command: Obd2Buffer,
    /// Channel to send the response back
    pub response_tx: oneshot::Sender<Result<Obd2Buffer, DongleError>>,
}

/// The commands that prepare a dongle: a reset, then no echo, no linefeeds, no
/// spaces, and the protocol of its choice.
pub fn init_commands() -> (r: [&'static str; 5])
    ensures
        r@ == seq!["ATZ\r", "ATE0\r", "ATL0\r", "ATS0\r", "ATSP0\r"],
{
    let commands: [&'static str; 5] = ["ATZ\r", "ATE0\r", "ATL0\r", "ATS0\r", "ATSP0\r"];
    assert(commands@ =~= seq!["ATZ\r", "ATE0\r", "ATL0\r", "ATS0\r", "ATSP0\r"]);
    commands
}

/// The connection to the dongle.
#[derive(Debug, Clone, Copy, PartialEq, Eq, Structural)]
pub struct DongleLink {
    pub connected: bool,
    /// When it was last tried to connect (monotonic clock, ns)
    pub last_attempt_ns: Option<u64>,
}

impl DongleLink {
    /// Not connected, and not tried yet.
    pub fn new() -> (r: Self)
        ensures
            r == (DongleLink { connected: false, last_attempt_ns: None }),
    {
        DongleLink { connected: false, last_attempt_ns: None }
    }

    /// Whether to try to connect now; if so, the attempt is noted.
    pub fn try_now(&mut self, now_ns: u64) -> (r: bool)
        ensures
            r == (!old(self).connected && match old(self).last_attempt_ns {
                Some(last) => now_ns - last >= RECONNECT_DELAY_MS * NANOS_PER_MS,
                None => true,
            }),
            *final(self) == if r {
                DongleLink { last_attempt_ns: Some(now_ns), ..*old(self) }
            } else {
                *old(self)
            },
    {
        let due = match self.last_attempt_ns {
            Some(last) => now_ns >= last && now_ns - last >= 1_000_000_000,
            None => true,
        };
        if !self.connected && due {
            self.last_attempt_ns = Some(now_ns);
            true
        } else {
            false
        }
    }

    /// An attempt to connect has ended.
    pub fn tried(&mut self, connected: bool)
        ensures
            *final(self) == (DongleLink { connected, ..*old(self) }),
    {
        self.connected = connected;
    }

    /// What a request gets: what came of the command, or an error if there is no
    /// connection to send it on. A connection that broke is given up.
    pub fn finish_request(&mut self, executed: Option<Result<Obd2Buffer, DongleError>>) -> (r:
        Result<Obd2Buffer, DongleError>)
        requires
            old(self).connected ==> executed is Some,
        ensures
            r == if old(self).connected {
                executed->0
            } else {
                Err(DongleError::NotConnected)
            },
            *final(self) == (DongleLink {
                connected: old(self).connected && !(r is Err && is_fatal(r->Err_0)),
                ..*old(self)
            }),
    {
        if !self.connected {
            return Err(DongleError::NotConnected);
        }
        match executed {
            None => Err(DongleError::NotConnected),
            Some(result) => {
                let lost = match &result {
                    Err(DongleError::Disconnected) => true,
                    Err(DongleError::IoError(_)) => true,
                    _ => false,
                };
                if lost {
                    self.connected = false;
                }
                result
            },
        }
    }
}

} // verus!
