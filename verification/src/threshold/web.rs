//! The web interface of the simpler device, and the modes it runs in.

use crate::sse::{kept, rpm_event, rpm_event_text};
use crate::text::same_text;
use crate::threshold::config::Config;
use crate::web::{ip_text, ip_text_of, is_plain, mac_text, mac_text_of, ok, status_only, Method, Reply};
use vstd::prelude::*;

verus! {

// ---------------------------------------------------------------------------
// Modes
// ---------------------------------------------------------------------------

/// `WiFi` mode the device is running in
#[derive(Debug, Clone, Copy, PartialEq, Eq, Structural)]
pub enum WifiMode {
    /// Connected to a configured network as a client
    Client,
    /// Running as an access point for configuration
    AccessPoint,
    /// Mixed mode: AP running while attempting to connect to configured network
    Mixed,
}

impl WifiMode {
    /// The mode after the first attempt to join the configured network, if there is
    /// one: `joined` says whether it was joined, `has_ip` whether it gave an
    /// address.
    pub fn at_start(configured: bool, joined: bool, has_ip: bool) -> (r: WifiMode)
        ensures
            r == if !configured {
                WifiMode::AccessPoint
            } else if joined && has_ip {
                WifiMode::Client
            } else {
                WifiMode::Mixed
            },
    {
        if !configured {
            WifiMode::AccessPoint
        } else if joined && has_ip {
            WifiMode::Client
        } else {
            WifiMode::Mixed
        }
    }

    /// Whether the proxy runs: only with a network to the dongle.
    pub fn runs_proxy(self) -> (r: bool)
        ensures
            r == (self == WifiMode::Client),
    {
        self == WifiMode::Client
    }

    /// Whether the captive portal runs: wherever there is an access point.
    pub fn runs_captive_portal(self) -> (r: bool)
        ensures
            r == (self == WifiMode::AccessPoint || self == WifiMode::Mixed),
    {
        self == WifiMode::AccessPoint || self == WifiMode::Mixed
    }
}

/// The device serves either the proxy or the setup page, whatever its mode.
pub proof fn law_proxy_or_portal(mode: WifiMode)
    ensures
        (mode == WifiMode::Client) != (mode == WifiMode::AccessPoint || mode == WifiMode::Mixed),
{
}

// ---------------------------------------------------------------------------
// Routes
// ---------------------------------------------------------------------------

/// What is served.
#[derive(Debug, Clone, Copy, PartialEq, Eq, Structural)]
pub enum Route {
    Index,
    CaptivePortal,
    Mode,
    GetConfig,
    PostConfig,
    PostWifi,
    WifiScan,
    NetworkStatus,
    Rpm,
    RpmStream,
}

/// The paths by which phones and computers look for a captive portal.
pub open spec fn is_captive_check(path: Seq<char>) -> bool {
    ||| path == "/generate_204"@
    ||| path == "/gen_204"@
    ||| path == "/hotspot-detect.html"@
    ||| path == "/library/test/success.html"@
    ||| path == "/ncsi.txt"@
    ||| path == "/connecttest.txt"@
    ||| path == "/redirect"@
    ||| path == "/canonical.html"@
    ||| path == "/success.txt"@
}

/// The route of a request.
pub open spec fn route_of(method: Method, path: Seq<char>) -> Option<Route> {
    match method {
        Method::Get => if path == "/"@ {
            Some(Route::Index)
        } else if is_captive_check(path) {
            Some(Route::CaptivePortal)
        } else if path == "/api/mode"@ {
            Some(Route::Mode)
        } else if path == "/api/config"@ {
            Some(Route::GetConfig)
        } else if path == "/api/wifi/scan"@ {
            Some(Route::WifiScan)
        } else if path == "/api/network"@ {
            Some(Route::NetworkStatus)
        } else if path == "/api/rpm"@ {
            Some(Route::Rpm)
        } else if path == "/api/rpm/stream"@ {
            Some(Route::RpmStream)
        } else {
            None
        },
        Method::Post => if path == "/api/config"@ {
            Some(Route::PostConfig)
        } else if path == "/api/wifi"@ {
            Some(Route::PostWifi)
        } else {
            None
        },
    }
}

fn checks_captive(path: &str) -> (r: bool)
    ensures
        r == is_captive_check(path@),
{
    same_text(path, "/generate_204") || same_text(path, "/gen_204") || same_text(
        path,
        "/hotspot-detect.html",
    ) || same_text(path, "/library/test/success.html") || same_text(path, "/ncsi.txt")
        || same_text(path, "/connecttest.txt") || same_text(path, "/redirect") || same_text(
        path,
        "/canonical.html",
    ) || same_text(path, "/success.txt")
}

/// Find the route of a request.
pub fn route(method: Method, path: &str) -> (r: Option<Route>)
    ensures
        r == route_of(method, path@),
{
    match method {
        Method::Get => if same_text(path, "/") {
            Some(Route::Index)
        } else if checks_captive(path) {
            Some(Route::CaptivePortal)
        } else if same_text(path, "/api/mode") {
            Some(Route::Mode)
        } else if same_text(path, "/api/config") {
            Some(Route::GetConfig)
        } else if same_text(path, "/api/wifi/scan") {
            Some(Route::WifiScan)
        } else if same_text(path, "/api/network") {
            Some(Route::NetworkStatus)
        } else if same_text(path, "/api/rpm") {
            Some(Route::Rpm)
        } else if same_text(path, "/api/rpm/stream") {
            Some(Route::RpmStream)
        } else {
            None
        },
        Method::Post => if same_text(path, "/api/config") {
            Some(Route::PostConfig)
        } else if same_text(path, "/api/wifi") {
            Some(Route::PostWifi)
        } else {
            None
        },
    }
}

// ---------------------------------------------------------------------------
// Replies
// ---------------------------------------------------------------------------

/// The page that leads to the setup page.
pub open spec fn portal_page() -> Seq<char> {
    "\n<!DOCTYPE html>\n<html>\n<head>\n    <title>TachTalk Setup</title>\n    <meta http-equiv=\"refresh\" content=\"0;url=http://192.168.4.1/\">\n</head>\n<body>\n    <p>Redirecting to <a href=\"http://192.168.4.1/\">TachTalk Setup</a>...</p>\n</body>\n</html>\n"@
}

/// Lead a device that looks for a captive portal to the setup page.
pub fn captive_portal() -> (r: Reply)
    ensures
        r.status == 302,
        r.reason is Some && r.reason->0@ == "Found"@,
        r.headers@.len() == 2,
        r.headers@[0].0@ == "Location"@ && r.headers@[0].1@ == "http://192.168.4.1/"@,
        r.headers@[1].0@ == "Cache-Control"@ && r.headers@[1].1@ == "no-cache"@,
        r.body@ == portal_page(),
{
    let mut headers: Vec<(String, String)> = Vec::new();
    headers.push(("Location".to_owned(), "http://192.168.4.1/".to_owned()));
    headers.push(("Cache-Control".to_owned(), "no-cache".to_owned()));
    Reply {
        status: 302,
        reason: Some("Found".to_owned()),
        headers,
        body: "\n<!DOCTYPE html>\n<html>\n<head>\n    <title>TachTalk Setup</title>\n    <meta http-equiv=\"refresh\" content=\"0;url=http://192.168.4.1/\">\n</head>\n<body>\n    <p>Redirecting to <a href=\"http://192.168.4.1/\">TachTalk Setup</a>...</p>\n</body>\n</html>\n".to_owned(),
    }
}

/// The mode, as the setup page shows it: an access point, with or without a network
/// that it tries to join, or a client.
pub fn mode_reply(mode: WifiMode) -> (r: Reply)
    ensures
        is_plain(
            r,
            200,
            if mode == WifiMode::Client {
                "{\"mode\":\"client\"}"@
            } else {
                "{\"mode\":\"ap\"}"@
            },
        ),
{
    match mode {
        WifiMode::Client => ok("{\"mode\":\"client\"}".to_owned()),
        WifiMode::AccessPoint => ok("{\"mode\":\"ap\"}".to_owned()),
        WifiMode::Mixed => ok("{\"mode\":\"ap\"}".to_owned()),
    }
}

/// Take over a configuration, if one could be read. It is to be saved if the
/// answer says so.
pub fn update_config(current: &mut Config, new: Option<Config>) -> (r: Reply)
    ensures
        match new {
            Some(config) => *final(current) == config && is_plain(r, 200, ""@),
            None => *final(current) == *old(current) && is_plain(r, 400, ""@),
        },
{
    match new {
        Some(config) => {
            *current = config;
            ok("".to_owned())
        },
        None => status_only(400),
    }
}

/// A request for another address.
#[derive(Debug)]
pub struct IpConfigRequest {
    pub use_dhcp: bool,
    pub ip: Option<String>,
    pub gateway: Option<String>,
    pub subnet: Option<String>,
    pub dns: Option<String>,
}

/// A request to join another network.
#[derive(Debug)]
pub struct WifiRequest {
    pub ssid: String,
    pub password: Option<String>,
    pub ip_config: Option<IpConfigRequest>,
}

/// A text, unless it is empty.
pub open spec fn unless_empty(text: Option<String>) -> Option<String> {
    if text is Some && text->0@.len() > 0 {
        text
    } else {
        None
    }
}

fn drop_empty(text: Option<String>) -> (r: Option<String>)
    ensures
        r == unless_empty(text),
{
    match text {
        Some(value) => if value.as_str().is_empty() {
            None
        } else {
            Some(value)
        },
        None => None,
    }
}

/// Take over the network to join. An address is only changed if the request holds
/// one; what is empty counts as not given. Returns whether there was a request that
/// could be read.
pub fn update_wifi(current: &mut Config, request: Option<WifiRequest>) -> (r: bool)
    ensures
        r == request is Some,
        final(current).ap_password == old(current).ap_password,
        final(current).thresholds == old(current).thresholds,
        final(current).blink_rpm == old(current).blink_rpm,
        final(current).total_leds == old(current).total_leds,
        match request {
            None => *final(current) == *old(current),
            Some(wifi) => {
                &&& final(current).wifi.ssid == wifi.ssid
                &&& final(current).wifi.password == unless_empty(wifi.password)
                &&& match wifi.ip_config {
                    None => final(current).ip_config == old(current).ip_config,
                    Some(ip) => {
                        &&& final(current).ip_config.use_dhcp == ip.use_dhcp
                        &&& final(current).ip_config.ip == unless_empty(ip.ip)
                        &&& final(current).ip_config.gateway == unless_empty(ip.gateway)
                        &&& final(current).ip_config.subnet == unless_empty(ip.subnet)
                        &&& final(current).ip_config.dns == unless_empty(ip.dns)
                    },
                }
            },
        },
{
    match request {
        None => false,
        Some(wifi) => {
            current.wifi.ssid = wifi.ssid;
            current.wifi.password = drop_empty(wifi.password);
            if let Some(ip) = wifi.ip_config {
                current.ip_config.use_dhcp = ip.use_dhcp;
                current.ip_config.ip = drop_empty(ip.ip);
                current.ip_config.gateway = drop_empty(ip.gateway);
                current.ip_config.subnet = drop_empty(ip.subnet);
                current.ip_config.dns = drop_empty(ip.dns);
            }
            true
        },
    }
}

/// Answer a request to join another network: `understood` says whether it could be
/// read, `saved` whether the configuration could be saved. Returns the answer, and
/// whether the device restarts.
pub fn wifi_reply(understood: bool, saved: bool) -> (r: (Reply, bool))
    ensures
        if !understood {
            is_plain(r.0, 400, ""@) && !r.1
        } else if !saved {
            is_plain(r.0, 500, ""@) && !r.1
        } else {
            is_plain(r.0, 200, ""@) && r.1
        },
{
    if !understood {
        (status_only(400), false)
    } else if !saved {
        (status_only(500), false)
    } else {
        (ok("".to_owned()), true)
    }
}

/// The device's place in the network that it joined.
#[derive(Debug)]
pub struct NetworkStatus {
    pub ip: Option<String>,
    pub gateway: Option<String>,
    pub subnet: Option<String>,
    pub dns: Option<String>,
    pub mac: String,
    pub rssi: Option<i8>,
}

/// An address in a network: the device's own, the gateway, the mask as the driver
/// writes it, and the name server if there is one.
#[derive(Debug)]
pub struct IpInfo {
    pub ip: [u8; 4],
    pub gateway: [u8; 4],
    pub mask: String,
    pub dns: Option<[u8; 4]>,
}

/// The network status for what the driver says. It does not say how strong the
/// signal is.
pub fn network_status(info: Option<IpInfo>, mac: [u8; 6]) -> (r: NetworkStatus)
    ensures
        r.mac@ == mac_text_of(mac@),
        r.rssi is None,
        match info {
            None => r.ip is None && r.gateway is None && r.subnet is None && r.dns is None,
            Some(info) => {
                &&& r.ip is Some && r.ip->0@ == ip_text_of(info.ip@)
                &&& r.gateway is Some && r.gateway->0@ == ip_text_of(info.gateway@)
                &&& r.subnet == Some(info.mask)
                &&& match info.dns {
                    Some(dns) => r.dns is Some && r.dns->0@ == ip_text_of(dns@),
                    None => r.dns is None,
                }
            },
        },
{
    match info {
        None => NetworkStatus {
            ip: None,
            gateway: None,
            subnet: None,
            dns: None,
            mac: mac_text(mac),
            rssi: None,
        },
        Some(info) => NetworkStatus {
            ip: Some(ip_text(info.ip)),
            gateway: Some(ip_text(info.gateway)),
            subnet: Some(info.mask),
            dns: match info.dns {
                Some(dns) => Some(ip_text(dns)),
                None => None,
            },
            mac: mac_text(mac),
            rssi: None,
        },
    }
}

// ---------------------------------------------------------------------------
// Event stream
// ---------------------------------------------------------------------------

/// The answer that opens an event stream: its headers, and a first event without a
/// value.
pub fn stream_reply() -> (r: Reply)
    ensures
        r.status == 200,
        r.reason is Some && r.reason->0@ == "OK"@,
        r.headers@.len() == 4,
        r.headers@[0].0@ == "Content-Type"@ && r.headers@[0].1@ == "text/event-stream"@,
        r.headers@[1].0@ == "Cache-Control"@ && r.headers@[1].1@ == "no-cache"@,
        r.headers@[2].0@ == "Connection"@ && r.headers@[2].1@ == "keep-alive"@,
        r.headers@[3].0@ == "Access-Control-Allow-Origin"@ && r.headers@[3].1@ == "*"@,
        r.body@ == "data: {\"rpm\":null}\n\n"@,
{
    let mut headers: Vec<(String, String)> = Vec::new();
    headers.push(("Content-Type".to_owned(), "text/event-stream".to_owned()));
    headers.push(("Cache-Control".to_owned(), "no-cache".to_owned()));
    headers.push(("Connection".to_owned(), "keep-alive".to_owned()));
    headers.push(("Access-Control-Allow-Origin".to_owned(), "*".to_owned()));
    Reply {
        status: 200,
        reason: Some("OK".to_owned()),
        headers,
        body: "data: {\"rpm\":null}\n\n".to_owned(),
    }
}

/// The open event streams. The program around owns the sockets, and signals the
/// end of a stream to whoever serves it.
#[derive(Debug)]
pub struct SseManager {
    pub connections: Vec<u64>,
    pub current_rpm: Option<u32>,
}

/// Those of the connections that are gone.
pub open spec fn gone(connections: Seq<u64>, alive: Seq<bool>) -> Seq<u64>
    decreases connections.len(),
{
    if connections.len() == 0 {
        Seq::empty()
    } else {
        let before = gone(connections.drop_last(), alive);
        if alive[connections.len() - 1] {
            before
        } else {
            before.push(connections.last())
        }
    }
}

impl SseManager {
    /// No stream, and no RPM yet.
    pub fn new() -> (r: Self)
        ensures
            r.connections@.len() == 0,
            r.current_rpm is None,
    {
        SseManager { connections: Vec::new(), current_rpm: None }
    }

    /// What to send on a new stream: the current RPM, if any.
    pub fn first_event(&self) -> (r: Option<String>)
        ensures
            match self.current_rpm {
                Some(rpm) => r is Some && r->0@ == rpm_event_text(rpm),
                None => r is None,
            },
    {
        match self.current_rpm {
            Some(rpm) => Some(rpm_event(rpm)),
            None => None,
        }
    }

    /// Take in a new stream. `sent` says whether its first event could be sent; one
    /// to which it could not is at its end, and false is returned.
    pub fn connect(&mut self, connection: u64, sent: bool) -> (r: bool)
        ensures
            r == (old(self).current_rpm is None || sent),
            final(self).connections@ == if r {
                old(self).connections@.push(connection)
            } else {
                old(self).connections@
            },
            final(self).current_rpm == old(self).current_rpm,
    {
        if self.current_rpm.is_some() && !sent {
            false
        } else {
            self.connections.push(connection);
            true
        }
    }

    /// A new RPM: what to send on every stream.
    pub fn publish(&mut self, rpm: u32) -> (r: String)
        ensures
            r@ == rpm_event_text(rpm),
            final(self).current_rpm == Some(rpm),
            final(self).connections@ == old(self).connections@,
    {
        self.current_rpm = Some(rpm);
        rpm_event(rpm)
    }

    /// Drop the streams on which nothing could be sent; returns them, to signal
    /// their end.
    pub fn retain(&mut self, alive: &[bool]) -> (r: Vec<u64>)
        requires
            alive@.len() == old(self).connections@.len(),
        ensures
            final(self).connections@ == kept(old(self).connections@, alive@),
            r@ == gone(old(self).connections@, alive@),
            final(self).current_rpm == old(self).current_rpm,
    {
        let ghost all = self.connections@;
        let mut left: Vec<u64> = Vec::new();
        let mut ended: Vec<u64> = Vec::new();
        let mut i: usize = 0;
        assert(all.take(0) =~= Seq::empty());
        while i < self.connections.len()
            invariant
                i <= all.len(),
                all == self.connections@,
                alive@.len() == all.len(),
                left@ == kept(all.take(i as int), alive@),
                ended@ == gone(all.take(i as int), alive@),
            decreases all.len() - i,
        {
            assert(all.take(i + 1).drop_last() =~= all.take(i as int));
            if alive[i] {
                left.push(self.connections[i]);
            } else {
                ended.push(self.connections[i]);
            }
            i = i + 1;
        }
        assert(all.take(i as int) =~= all);
        self.connections = left;
        ended
    }
}

/// No stream is lost: each one either stays open or has its end signalled.
pub proof fn law_streams_stay_or_end(connections: Seq<u64>, alive: Seq<bool>)
    requires
        alive.len() == connections.len(),
    ensures
        kept(connections, alive).len() + gone(connections, alive).len() == connections.len(),
        kept(connections, alive).to_multiset().add(gone(connections, alive).to_multiset())
            == connections.to_multiset(),
{
    lemma_stay_or_end(connections, alive);
}

proof fn lemma_stay_or_end(connections: Seq<u64>, alive: Seq<bool>)
    requires
        alive.len() >= connections.len(),
    ensures
        kept(connections, alive).len() + gone(connections, alive).len() == connections.len(),
        kept(connections, alive).to_multiset().add(gone(connections, alive).to_multiset())
            == connections.to_multiset(),
    decreases connections.len(),
{
    broadcast use vstd::seq_lib::group_to_multiset_ensures;

    if connections.len() == 0 {
        assert(connections =~= Seq::empty());
        assert(kept(connections, alive).to_multiset().add(gone(connections, alive).to_multiset())
            =~= connections.to_multiset());
    } else {
        let front = connections.drop_last();
        lemma_stay_or_end(front, alive);
        assert(connections =~= front.push(connections.last()));
        assert(kept(connections, alive).to_multiset().add(gone(connections, alive).to_multiset())
            =~= connections.to_multiset());
    }
}

// ---------------------------------------------------------------------------
// Laws
// ---------------------------------------------------------------------------

/// Each page is served under its own path, the paths by which phones and computers look
/// for a captive portal lead to the setup page, and no other path is served.
pub proof fn law_setup_pages_are_found(path: Seq<char>)
    ensures
        route_of(Method::Get, "/"@) == Some(Route::Index),
        route_of(Method::Get, "/api/mode"@) == Some(Route::Mode),
        route_of(Method::Get, "/api/config"@) == Some(Route::GetConfig),
        route_of(Method::Get, "/api/wifi/scan"@) == Some(Route::WifiScan),
        route_of(Method::Get, "/api/network"@) == Some(Route::NetworkStatus),
        route_of(Method::Get, "/api/rpm"@) == Some(Route::Rpm),
        route_of(Method::Get, "/api/rpm/stream"@) == Some(Route::RpmStream),
        route_of(Method::Get, path) == Some(Route::CaptivePortal) <==> path == "/generate_204"@
            || path == "/gen_204"@
            || path == "/hotspot-detect.html"@
            || path == "/library/test/success.html"@
            || path == "/ncsi.txt"@
            || path == "/connecttest.txt"@
            || path == "/redirect"@
            || path == "/canonical.html"@
            || path == "/success.txt"@,
        route_of(Method::Get, path) is None <==> route_of(Method::Get, path) != Some(
            Route::CaptivePortal,
        ) && path != "/"@
            && path != "/api/mode"@
            && path != "/api/config"@
            && path != "/api/wifi/scan"@
            && path != "/api/network"@
            && path != "/api/rpm"@
            && path != "/api/rpm/stream"@,
{
    reveal_strlit("/");
    reveal_strlit("/api/mode");
    reveal_strlit("/api/config");
    reveal_strlit("/api/wifi/scan");
    reveal_strlit("/api/network");
    reveal_strlit("/api/rpm");
    reveal_strlit("/api/rpm/stream");
    reveal_strlit("/generate_204");
    reveal_strlit("/gen_204");
    reveal_strlit("/hotspot-detect.html");
    reveal_strlit("/library/test/success.html");
    reveal_strlit("/ncsi.txt");
    reveal_strlit("/connecttest.txt");
    reveal_strlit("/redirect");
    reveal_strlit("/canonical.html");
    reveal_strlit("/success.txt");
    assert("/"@.len() == 1);
    assert("/api/mode"@.len() == 9);
    assert("/api/config"@.len() == 11);
    assert("/api/wifi/scan"@.len() == 14);
    assert("/api/network"@.len() == 12);
    assert("/api/rpm"@.len() == 8);
    assert("/api/rpm/stream"@.len() == 15);
    assert("/generate_204"@.len() == 13);
    assert("/gen_204"@.len() == 8);
    assert("/hotspot-detect.html"@.len() == 20);
    assert("/library/test/success.html"@.len() == 26);
    assert("/ncsi.txt"@.len() == 9);
    assert("/connecttest.txt"@.len() == 16);
    assert("/redirect"@.len() == 9);
    assert("/canonical.html"@.len() == 15);
    assert("/success.txt"@.len() == 12);
    assert("/api/mode"@[1] == 'a' && "/ncsi.txt"@[1] == 'n');
    assert("/api/mode"@[1] == 'a' && "/redirect"@[1] == 'r');
    assert("/api/network"@[1] == 'a' && "/success.txt"@[1] == 's');
    assert("/api/rpm"@[1] == 'a' && "/gen_204"@[1] == 'g');
    assert("/api/rpm/stream"@[1] == 'a' && "/canonical.html"@[1] == 'c');
    assert("/ncsi.txt"@[1] == 'n' && "/redirect"@[1] == 'r');
}

/// A configuration and a network can be posted, each to its own path, and nothing else.
pub proof fn law_settings_can_be_posted(path: Seq<char>)
    ensures
        route_of(Method::Post, path) == Some(Route::PostConfig) <==> path == "/api/config"@,
        route_of(Method::Post, path) == Some(Route::PostWifi) <==> path == "/api/wifi"@,
        route_of(Method::Post, path) is Some ==> path == "/api/config"@ || path == "/api/wifi"@,
{
    reveal_strlit("/api/config");
    reveal_strlit("/api/wifi");
    assert("/api/config"@.len() == 11);
    assert("/api/wifi"@.len() == 9);
}

/// A text that is empty counts as not given, and any other is kept.
pub proof fn law_empty_texts_are_dropped(text: String)
    ensures
        unless_empty(None) is None,
        text@ == Seq::<char>::empty() ==> unless_empty(Some(text)) is None,
        text@ != Seq::<char>::empty() ==> unless_empty(Some(text)) == Some(text),
{
    if text@.len() == 0 {
        assert(text@ =~= Seq::<char>::empty());
    }
}

/// The streams whose end is signalled are those on which nothing could be sent, in their
/// order.
pub proof fn law_ended_streams_are_signalled(
    connections: Seq<u64>,
    alive: Seq<bool>,
    connection: u64,
    lives: bool,
)
    requires
        alive.len() == connections.len(),
    ensures
        gone(connections.push(connection), alive.push(lives)) =~= if lives {
            gone(connections, alive)
        } else {
            gone(connections, alive).push(connection)
        },
{
    assert(connections.push(connection).drop_last() =~= connections);
    lemma_gone_alike(connections, alive.push(lives), alive);
}

proof fn lemma_gone_alike(connections: Seq<u64>, a: Seq<bool>, b: Seq<bool>)
    requires
        forall|i: int| 0 <= i < connections.len() ==> a[i] == b[i],
    ensures
        gone(connections, a) == gone(connections, b),
    decreases connections.len(),
{
    if connections.len() > 0 {
        lemma_gone_alike(connections.drop_last(), a, b);
    }
}

} // verus!
