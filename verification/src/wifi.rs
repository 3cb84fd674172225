//! WiFi connection management.
//!
//! The device always runs an access point, and beside it joins the network of
//! the dongle. The program around it talks to the driver: it reports what it
//! found to [`WifiManager::step`], and does what comes back.

use crate::config::IpConfig;
use crate::error::Error;
use vstd::prelude::*;

verus! {

/// How often an association is looked for after it was started, one second
/// apart.
pub const ASSOCIATION_CHECKS: u8 = 15;

/// WiFi STA connection state.
#[derive(Debug, Clone, Copy, PartialEq, Eq, Structural)]
pub enum WifiStaState {
    /// Not associated at L2
    Disconnected,
    /// Connecting (scanning, associating, or awaiting IP)
    Connecting,
    /// Fully connected with a valid IP address
    Connected,
}

impl Default for WifiStaState {
    fn default() -> (r: Self)
        ensures
            r == WifiStaState::Disconnected,
    {
        WifiStaState::Disconnected
    }
}

/// How a network is protected.
#[derive(Debug, Clone, Copy, PartialEq, Eq, Structural)]
pub enum AuthMethod {
    Open,
    WPA2Personal,
}

/// The protection that goes with a password: none without one.
pub open spec fn auth_for(password: Option<String>) -> AuthMethod {
    if password is Some && password->0@.len() > 0 {
        AuthMethod::WPA2Personal
    } else {
        AuthMethod::Open
    }
}

/// The protection that goes with a password: none without one.
pub fn auth_method(password: &Option<String>) -> (r: AuthMethod)
    ensures
        r == auth_for(*password),
{
    match password {
        Some(pw) => if pw.as_str().is_empty() {
            AuthMethod::Open
        } else {
            AuthMethod::WPA2Personal
        },
        None => AuthMethod::Open,
    }
}

/// How the station interface gets its address.
#[derive(Debug, Clone, Copy, PartialEq, Eq)]
pub enum StaAddress {
    /// From the network
    Dhcp,
    /// A fixed one, without a gateway
    Static { ip: [u8; 4], prefix_len: u8 },
}

/// How the station interface gets its address. `parsed` is the configured
/// address, if it is one.
pub fn sta_address(config: &IpConfig, parsed: Option<[u8; 4]>) -> (r: Result<StaAddress, Error>)
    ensures
        if config.use_dhcp {
            r == Ok::<StaAddress, Error>(StaAddress::Dhcp)
        } else {
            match parsed {
                Some(ip) => r == Ok::<StaAddress, Error>(
                    StaAddress::Static { ip, prefix_len: config.prefix_len },
                ),
                None => r is Err && r->Err_0 is InvalidStaticIp && r->Err_0->InvalidStaticIp_0@
                    == config.ip@,
            }
        },
{
    if config.use_dhcp {
        return Ok(StaAddress::Dhcp);
    }
    match parsed {
        Some(ip) => Ok(StaAddress::Static { ip, prefix_len: config.prefix_len }),
        None => Err(Error::InvalidStaticIp(config.ip.clone())),
    }
}

// ---------------------------------------------------------------------------
// Connection state
// ---------------------------------------------------------------------------

/// The connection of the station, as found.
#[derive(Debug, Clone, Copy, PartialEq, Eq)]
pub enum StaConnectionState {
    /// Not connected at L2 (WiFi association)
    Disconnected,
    /// Connecting (L2 associated but waiting for IP)
    Connecting,
    /// Fully connected with a valid IP address
    Connected([u8; 4]),
}

/// An address is none: all zeros.
pub open spec fn unspecified(ip: Seq<u8>) -> bool {
    ip[0] == 0 && ip[1] == 0 && ip[2] == 0 && ip[3] == 0
}

/// The connection for what the driver says: whether it is associated, and the
/// address, each if it could be asked.
pub open spec fn connection_found(associated: Option<bool>, ip: Option<[u8; 4]>) ->
    StaConnectionState {
    if associated == Some(true) {
        match ip {
            Some(address) => if unspecified(address@) {
                StaConnectionState::Connecting
            } else {
                StaConnectionState::Connected(address)
            },
            None => StaConnectionState::Connecting,
        }
    } else {
        StaConnectionState::Disconnected
    }
}

/// The connection for what the driver says.
pub fn connection_state(associated: Option<bool>, ip: Option<[u8; 4]>) -> (r: StaConnectionState)
    ensures
        r == connection_found(associated, ip),
{
    match associated {
        Some(true) => match ip {
            Some(address) => if address[0] == 0 && address[1] == 0 && address[2] == 0 && address[3]
                == 0 {
                StaConnectionState::Connecting
            } else {
                StaConnectionState::Connected(address)
            },
            None => StaConnectionState::Connecting,
        },
        _ => StaConnectionState::Disconnected,
    }
}

/// The state to show for a connection.
pub open spec fn shown_state(connection: StaConnectionState) -> WifiStaState {
    match connection {
        StaConnectionState::Disconnected => WifiStaState::Disconnected,
        StaConnectionState::Connecting => WifiStaState::Connecting,
        StaConnectionState::Connected(_) => WifiStaState::Connected,
    }
}

impl StaConnectionState {
    /// The state to show for a connection.
    pub fn sta_state(&self) -> (r: WifiStaState)
        ensures
            r == shown_state(*self),
    {
        match self {
            StaConnectionState::Disconnected => WifiStaState::Disconnected,
            StaConnectionState::Connecting => WifiStaState::Connecting,
            StaConnectionState::Connected(_) => WifiStaState::Connected,
        }
    }
}

// ---------------------------------------------------------------------------
// The connection manager
// ---------------------------------------------------------------------------

/// What to do next.
#[derive(Debug, Clone, Copy, PartialEq, Eq, Structural)]
pub enum WifiAction {
    /// Start to connect, and look again after a second
    Connect,
    /// Look again after a second
    Sleep,
    /// Look again at once
    Recheck,
}

/// What is worth a line in the log.
#[derive(Debug, Clone, Copy, PartialEq, Eq, Structural)]
pub enum WifiNews {
    /// The station has just got a connection
    Connected,
    /// The station has just lost its connection
    Lost,
}

/// What comes of a look at the connection.
#[derive(Debug, Clone, Copy, PartialEq, Eq, Structural)]
pub struct WifiStep {
    /// The state to show, if it differs from the one shown before
    pub update: Option<WifiStaState>,
    pub news: Option<WifiNews>,
    pub action: WifiAction,
}

/// Manages the station connection.
#[derive(Debug, Clone, Copy, PartialEq, Eq, Structural)]
pub struct WifiManager {
    /// The state shown last
    pub shown: WifiStaState,
    pub was_connected: bool,
    /// How many more times to look for an association that was started
    pub checks_left: u8,
}

/// The state to show, if it differs from the one shown before.
pub open spec fn changed_state(shown: WifiStaState, new: WifiStaState) -> Option<WifiStaState> {
    if new != shown {
        Some(new)
    } else {
        None
    }
}

/// A look at the connection while no association is under way.
pub open spec fn monitored(m: WifiManager, connection: StaConnectionState) -> (
    WifiManager,
    WifiStep,
) {
    let new = shown_state(connection);
    let update = changed_state(m.shown, new);
    match connection {
        StaConnectionState::Connected(_) => (
            WifiManager { shown: new, was_connected: true, checks_left: 0 },
            WifiStep {
                update,
                news: if m.was_connected {
                    None
                } else {
                    Some(WifiNews::Connected)
                },
                action: WifiAction::Sleep,
            },
        ),
        StaConnectionState::Connecting => (
            WifiManager { shown: new, was_connected: m.was_connected, checks_left: 0 },
            WifiStep { update, news: None, action: WifiAction::Sleep },
        ),
        StaConnectionState::Disconnected => (
            WifiManager { shown: new, was_connected: false, checks_left: ASSOCIATION_CHECKS },
            WifiStep {
                update,
                news: if m.was_connected {
                    Some(WifiNews::Lost)
                } else {
                    None
                },
                action: WifiAction::Connect,
            },
        ),
    }
}

/// A look at the connection while an association is under way: it ends with the
/// association, or after the last look.
pub open spec fn awaited(m: WifiManager, connection: StaConnectionState) -> (
    WifiManager,
    WifiStep,
) {
    if connection is Disconnected {
        let left = (m.checks_left - 1) as u8;
        (
            WifiManager { checks_left: left, ..m },
            WifiStep {
                update: None,
                news: None,
                action: if left == 0 {
                    WifiAction::Recheck
                } else {
                    WifiAction::Sleep
                },
            },
        )
    } else {
        (
            WifiManager { shown: shown_state(connection), checks_left: 0, ..m },
            WifiStep {
                update: changed_state(m.shown, shown_state(connection)),
                news: None,
                action: WifiAction::Recheck,
            },
        )
    }
}

impl WifiManager {
    /// A manager at the start of the device, and the state to show at once: with
    /// a network to join, the LED blinks right away.
    pub fn new(sta_ssid: &str) -> (r: (WifiManager, Option<WifiStaState>))
        ensures
            !r.0.was_connected,
            r.0.checks_left == 0,
            if sta_ssid@.len() == 0 {
                r.0.shown == WifiStaState::Disconnected && r.1 is None
            } else {
                r.0.shown == WifiStaState::Connecting && r.1 == Some(WifiStaState::Connecting)
            },
    {
        if sta_ssid.is_empty() {
            (
                WifiManager {
                    shown: WifiStaState::Disconnected,
                    was_connected: false,
                    checks_left: 0,
                },
                None,
            )
        } else {
            (
                WifiManager {
                    shown: WifiStaState::Connecting,
                    was_connected: false,
                    checks_left: 0,
                },
                Some(WifiStaState::Connecting),
            )
        }
    }

    /// Show a state; returns it if it differs from the one shown before.
    fn show(&mut self, new: WifiStaState) -> (r: Option<WifiStaState>)
        ensures
            r == changed_state(old(self).shown, new),
            *final(self) == (WifiManager { shown: new, ..*old(self) }),
    {
        if new != self.shown {
            self.shown = new;
            Some(new)
        } else {
            None
        }
    }

    /// Take in what was found about the connection.
    pub fn step(&mut self, connection: StaConnectionState) -> (r: WifiStep)
        ensures
            (*final(self), r) == if old(self).checks_left > 0 {
                awaited(*old(self), connection)
            } else {
                monitored(*old(self), connection)
            },
    {
        if self.checks_left > 0 {
            return match connection {
                StaConnectionState::Disconnected => {
                    self.checks_left = self.checks_left - 1;
                    let action = if self.checks_left == 0 {
                        WifiAction::Recheck
                    } else {
                        WifiAction::Sleep
                    };
                    WifiStep { update: None, news: None, action }
                },
                _ => {
                    self.checks_left = 0;
                    let update = self.show(connection.sta_state());
                    WifiStep { update, news: None, action: WifiAction::Recheck }
                },
            };
        }
        let update = self.show(connection.sta_state());
        match connection {
            StaConnectionState::Connected(_) => {
                let news = if self.was_connected {
                    None
                } else {
                    Some(WifiNews::Connected)
                };
                self.was_connected = true;
                WifiStep { update, news, action: WifiAction::Sleep }
            },
            StaConnectionState::Connecting => WifiStep {
                update,
                news: None,
                action: WifiAction::Sleep,
            },
            StaConnectionState::Disconnected => {
                let news = if self.was_connected {
                    Some(WifiNews::Lost)
                } else {
                    None
                };
                self.was_connected = false;
                self.checks_left = ASSOCIATION_CHECKS;
                WifiStep { update, news, action: WifiAction::Connect }
            },
        }
    }
}

/// A state is shown only once: a second look at the same connection shows
/// nothing new.
pub proof fn law_state_shown_once(m: WifiManager, connection: StaConnectionState)
    requires
        m.checks_left == 0,
    ensures
        monitored(monitored(m, connection).0, connection).1.update is None,
{
}

/// The manager after looks at a connection that stays away.
pub open spec fn after_looks(m: WifiManager, looks: nat) -> WifiManager
    decreases looks,
{
    if looks == 0 {
        m
    } else {
        awaited(after_looks(m, (looks - 1) as nat), StaConnectionState::Disconnected).0
    }
}

/// An association that never comes is given up after the last look, so that
/// another one is started.
pub proof fn law_association_is_given_up(m: WifiManager, looks: nat)
    requires
        looks <= m.checks_left,
    ensures
        after_looks(m, looks).checks_left == m.checks_left - looks,
    decreases looks,
{
    if looks > 0 {
        law_association_is_given_up(m, (looks - 1) as nat);
    }
}

/// A network is open without a password, and protected with one.
pub proof fn law_passwords_protect(password: Option<String>)
    ensures
        password is None ==> auth_for(password) == AuthMethod::Open,
        password matches Some(text) ==> (auth_for(password) == AuthMethod::Open <==> text@
            == Seq::<char>::empty()),
{
    if password is Some && password->0@.len() == 0 {
        assert(password->0@ =~= Seq::<char>::empty());
    }
}

/// The station is connected once it is associated and has an address other than zero;
/// associated without one, it is connecting. What the driver does not tell counts as
/// not being there.
pub proof fn law_connection_needs_an_address(associated: Option<bool>, ip: Option<[u8; 4]>)
    ensures
        associated != Some(true) <==> connection_found(associated, ip)
            == StaConnectionState::Disconnected,
        connection_found(associated, ip) matches StaConnectionState::Connected(address) ==> ip
            == Some(address) && (address[0] != 0 || address[1] != 0 || address[2] != 0
            || address[3] != 0),
        associated == Some(true) && ip is Some && (ip->0[0] != 0 || ip->0[1] != 0 || ip->0[2] != 0
            || ip->0[3] != 0) ==> connection_found(associated, ip) == StaConnectionState::Connected(
            ip->0,
        ),
        associated == Some(true) && ip is None ==> connection_found(associated, ip)
            == StaConnectionState::Connecting,
{
}

/// What is shown follows the connection, whether or not an association is under way: an
/// update is there exactly if it differs from what was shown, and is then what is shown.
pub proof fn law_shown_state_follows_the_connection(m: WifiManager, ip: [u8; 4])
    ensures
        ({
            let (after, step) = monitored(m, StaConnectionState::Connected(ip));
            &&& after.shown == WifiStaState::Connected
            &&& after.was_connected
            &&& after.checks_left == 0
            &&& step.update == if m.shown == WifiStaState::Connected {
                None
            } else {
                Some(WifiStaState::Connected)
            }
            &&& step.news is Some <==> !m.was_connected
            &&& step.news is Some ==> step.news == Some(WifiNews::Connected)
            &&& step.action == WifiAction::Sleep
        }),
        ({
            let (after, step) = monitored(m, StaConnectionState::Connecting);
            &&& after.shown == WifiStaState::Connecting
            &&& after.was_connected == m.was_connected
            &&& step.update is Some <==> m.shown != WifiStaState::Connecting
            &&& step.news is None
            &&& step.action == WifiAction::Sleep
        }),
{
}

/// A lost connection is told once, and each look without one starts another
/// association, for which fifteen looks follow.
pub proof fn law_lost_connection_is_sought_again(m: WifiManager)
    ensures
        ({
            let (after, step) = monitored(m, StaConnectionState::Disconnected);
            let again = monitored(after, StaConnectionState::Disconnected).1;
            &&& after.shown == WifiStaState::Disconnected
            &&& !after.was_connected
            &&& after.checks_left == 15
            &&& step.action == WifiAction::Connect
            &&& step.news == if m.was_connected {
                Some(WifiNews::Lost)
            } else {
                None
            }
            &&& step.update is Some <==> m.shown != WifiStaState::Disconnected
            &&& again.news is None
            &&& again.update is None
        }),
{
}

/// While an association is under way the loss of the old connection is not shown; the
/// wait ends at once with the association, or with the last look, and nothing of it is
/// news.
pub proof fn law_association_ends_the_wait(m: WifiManager, connection: StaConnectionState)
    requires
        m.checks_left > 0,
    ensures
        ({
            let (after, step) = awaited(m, connection);
            &&& step.news is None
            &&& after.was_connected == m.was_connected
            &&& connection is Disconnected ==> {
                &&& step.update is None
                &&& after.shown == m.shown
                &&& after.checks_left == m.checks_left - 1
                &&& step.action == if m.checks_left == 1 {
                    WifiAction::Recheck
                } else {
                    WifiAction::Sleep
                }
            }
            &&& !(connection is Disconnected) ==> {
                &&& step.action == WifiAction::Recheck
                &&& after.checks_left == 0
                &&& after.shown != WifiStaState::Disconnected
                &&& step.update is Some <==> after.shown != m.shown
                &&& step.update is Some ==> step.update == Some(after.shown)
                &&& connection is Connected <==> after.shown == WifiStaState::Connected
            }
        }),
{
}

} // verus!
