//! The web interface: which request gets which answer.
//!
//! The program around it runs the HTTP server and turns JSON into values and
//! back. What it serves, and what a request changes, is decided here.

use crate::capture_format::{header_bytes, CaptureBuffer, CaptureHeader};
use crate::config::{
    check_restart_needed, is_validated, pins_to_reset, same_network, same_pins, Config, GpioPins,
};
use crate::obd2::dongle::DongleTcpState;
use crate::ota::{OTA_STATUS_ERROR, OTA_STATUS_IDLE};
use crate::sse::SSE_PORT;
use crate::text::{
    chars_of, chars_of_bytes, decimal_text, find_char, find_from, from_utf8_lossy, hex_pair,
    lemma_find_char, lowercase, push_number, push_upper_hex, same_text, text_of, texts_of, to_lowercase,
    utf8_lossy,
};
use vstd::prelude::*;
use vstd::slice::slice_subrange;

verus! {

/// Maximum config request body size (16 KB).
pub const MAX_CONFIG_BODY_SIZE: u64 = 16384;

// ---------------------------------------------------------------------------
// Routes
// ---------------------------------------------------------------------------

/// HTTP methods in use.
#[derive(Debug, Clone, Copy, PartialEq, Eq, Structural)]
pub enum Method {
    Get,
    Post,
}

/// What is served.
#[derive(Debug, Clone, Copy, PartialEq, Eq, Structural)]
pub enum Route {
    Index,
    GetConfig,
    GetDefaultConfig,
    CheckConfig,
    PostConfig,
    PostBrightness,
    WifiScan,
    NetworkStatus,
    ConnectionStatus,
    TcpStatus,
    Rpm,
    Metrics,
    Sockets,
    DebugInfo,
    Reboot,
    CaptureDownload,
    CaptureClear,
    CaptureStatus,
    CaptureStart,
    CaptureStop,
    OtaInfo,
    OtaUpload,
    OtaDownload,
    OtaStatus,
    CaptivePortal,
}

/// The route of a GET request, without the captive portal.
pub open spec fn get_route(path: Seq<char>) -> Option<Route> {
    if path == "/"@ {
        Some(Route::Index)
    } else if path == "/api/config"@ {
        Some(Route::GetConfig)
    } else if path == "/api/config/default"@ {
        Some(Route::GetDefaultConfig)
    } else if path == "/api/wifi/scan"@ {
        Some(Route::WifiScan)
    } else if path == "/api/network"@ {
        Some(Route::NetworkStatus)
    } else if path == "/api/status"@ {
        Some(Route::ConnectionStatus)
    } else if path == "/api/tcp"@ {
        Some(Route::TcpStatus)
    } else if path == "/api/rpm"@ {
        Some(Route::Rpm)
    } else if path == "/api/metrics"@ {
        Some(Route::Metrics)
    } else if path == "/api/sockets"@ {
        Some(Route::Sockets)
    } else if path == "/api/debug_info"@ {
        Some(Route::DebugInfo)
    } else if path == "/api/capture"@ {
        Some(Route::CaptureDownload)
    } else if path == "/api/capture/status"@ {
        Some(Route::CaptureStatus)
    } else if path == "/api/ota/info"@ {
        Some(Route::OtaInfo)
    } else if path == "/api/ota/status"@ {
        Some(Route::OtaStatus)
    } else {
        None
    }
}

/// The route of a POST request.
pub open spec fn post_route(path: Seq<char>) -> Option<Route> {
    if path == "/api/config/check"@ {
        Some(Route::CheckConfig)
    } else if path == "/api/config"@ {
        Some(Route::PostConfig)
    } else if path == "/api/brightness"@ {
        Some(Route::PostBrightness)
    } else if path == "/api/reboot"@ {
        Some(Route::Reboot)
    } else if path == "/api/capture/clear"@ {
        Some(Route::CaptureClear)
    } else if path == "/api/capture/start"@ {
        Some(Route::CaptureStart)
    } else if path == "/api/capture/stop"@ {
        Some(Route::CaptureStop)
    } else if path == "/api/ota/upload"@ {
        Some(Route::OtaUpload)
    } else if path == "/api/ota/download"@ {
        Some(Route::OtaDownload)
    } else {
        None
    }
}

/// The route of a request. The captive portal, where there is one, answers every
/// other GET request.
pub open spec fn route_of(method: Method, path: Seq<char>, captive_portal: bool) -> Option<Route> {
    match method {
        Method::Get => match get_route(path) {
            Some(route) => Some(route),
            None => if captive_portal {
                Some(Route::CaptivePortal)
            } else {
                None
            },
        },
        Method::Post => post_route(path),
    }
}

fn find_get_route(path: &str) -> (r: Option<Route>)
    ensures
        r == get_route(path@),
{
    if same_text(path, "/") {
        Some(Route::Index)
    } else if same_text(path, "/api/config") {
        Some(Route::GetConfig)
    } else if same_text(path, "/api/config/default") {
        Some(Route::GetDefaultConfig)
    } else if same_text(path, "/api/wifi/scan") {
        Some(Route::WifiScan)
    } else if same_text(path, "/api/network") {
        Some(Route::NetworkStatus)
    } else if same_text(path, "/api/status") {
        Some(Route::ConnectionStatus)
    } else if same_text(path, "/api/tcp") {
        Some(Route::TcpStatus)
    } else if same_text(path, "/api/rpm") {
        Some(Route::Rpm)
    } else if same_text(path, "/api/metrics") {
        Some(Route::Metrics)
    } else if same_text(path, "/api/sockets") {
        Some(Route::Sockets)
    } else if same_text(path, "/api/debug_info") {
        Some(Route::DebugInfo)
    } else if same_text(path, "/api/capture") {
        Some(Route::CaptureDownload)
    } else if same_text(path, "/api/capture/status") {
        Some(Route::CaptureStatus)
    } else if same_text(path, "/api/ota/info") {
        Some(Route::OtaInfo)
    } else if same_text(path, "/api/ota/status") {
        Some(Route::OtaStatus)
    } else {
        None
    }
}

fn find_post_route(path: &str) -> (r: Option<Route>)
    ensures
        r == post_route(path@),
{
    if same_text(path, "/api/config/check") {
        Some(Route::CheckConfig)
    } else if same_text(path, "/api/config") {
        Some(Route::PostConfig)
    } else if same_text(path, "/api/brightness") {
        Some(Route::PostBrightness)
    } else if same_text(path, "/api/reboot") {
        Some(Route::Reboot)
    } else if same_text(path, "/api/capture/clear") {
        Some(Route::CaptureClear)
    } else if same_text(path, "/api/capture/start") {
        Some(Route::CaptureStart)
    } else if same_text(path, "/api/capture/stop") {
        Some(Route::CaptureStop)
    } else if same_text(path, "/api/ota/upload") {
        Some(Route::OtaUpload)
    } else if same_text(path, "/api/ota/download") {
        Some(Route::OtaDownload)
    } else {
        None
    }
}

/// Find the route of a request.
pub fn route(method: Method, path: &str, captive_portal: bool) -> (r: Option<Route>)
    ensures
        r == route_of(method, path@, captive_portal),
{
    match method {
        Method::Get => match find_get_route(path) {
            Some(found) => Some(found),
            None => if captive_portal {
                Some(Route::CaptivePortal)
            } else {
                None
            },
        },
        Method::Post => find_post_route(path),
    }
}

// ---------------------------------------------------------------------------
// Replies
// ---------------------------------------------------------------------------

/// An answer to a request.
#[derive(Debug)]
pub struct Reply {
    pub status: u16,
    pub reason: Option<String>,
    pub headers: Vec<(String, String)>,
    pub body: String,
}

/// An answer with a status, a body and no header.
pub open spec fn is_plain(r: Reply, status: u16, body: Seq<char>) -> bool {
    &&& r.status == status
    &&& r.headers@.len() == 0
    &&& r.body@ == body
    &&& match r.reason {
        Some(reason) => status == 200 && reason@ == "OK"@,
        None => status != 200,
    }
}

/// An answer with a reason and the content type of JSON.
pub open spec fn is_json(r: Reply, status: u16, reason: Seq<char>, body: Seq<char>) -> bool {
    &&& r.status == status
    &&& r.reason is Some && r.reason->0@ == reason
    &&& r.headers@.len() == 1
    &&& r.headers@[0].0@ == "Content-Type"@
    &&& r.headers@[0].1@ == "application/json"@
    &&& r.body@ == body
}

/// A successful answer.
pub(crate) fn ok(body: String) -> (r: Reply)
    ensures
        is_plain(r, 200, body@),
{
    Reply { status: 200, reason: Some("OK".to_owned()), headers: Vec::new(), body }
}

/// An answer that is only a status.
pub(crate) fn status_only(status: u16) -> (r: Reply)
    requires
        status != 200,
    ensures
        is_plain(r, status, ""@),
{
    Reply { status, reason: None, headers: Vec::new(), body: "".to_owned() }
}

fn json(status: u16, reason: &str, body: String) -> (r: Reply)
    ensures
        is_json(r, status, reason@, body@),
{
    let mut headers: Vec<(String, String)> = Vec::new();
    headers.push(("Content-Type".to_owned(), "application/json".to_owned()));
    Reply { status, reason: Some(reason.to_owned()), headers, body }
}

/// The index page: its two parts with the port of the event stream between them.
pub fn index_page(start: &str, end: &str) -> (r: Reply)
    ensures
        is_plain(r, 200, start@ + decimal_text(SSE_PORT as nat) + end@),
{
    let mut body: String = start.to_owned();
    push_number(&mut body, SSE_PORT as u64);
    body.push_str(end);
    ok(body)
}

// ---------------------------------------------------------------------------
// Configuration
// ---------------------------------------------------------------------------

/// A change of configuration takes a restart.
pub open spec fn takes_restart(current: Config, new: Config) -> bool {
    !(same_pins(current, new) && same_network(current, new))
}

/// Whether a configuration, once put in range, would take a restart. `new` is
/// the posted configuration, if it could be read.
pub fn check_config(current: &Config, new: Option<Config>, mac: [u8; 6]) -> (r: Reply)
    ensures
        match new {
            None => is_plain(r, 400, ""@),
            Some(config) => exists|checked: Config| #[trigger]
                is_validated(config, checked, mac@) && is_plain(
                    r,
                    200,
                    if takes_restart(*current, checked) {
                        "{\"restart\":true}"@
                    } else {
                        "{\"restart\":false}"@
                    },
                ),
        },
{
    match new {
        None => status_only(400),
        Some(config) => {
            let mut config = config;
            config.validate(mac);
            let (_, restart) = check_restart_needed(current, &config);
            assert(is_validated(new->0, config, mac@));
            if restart {
                ok("{\"restart\":true}".to_owned())
            } else {
                ok("{\"restart\":false}".to_owned())
            }
        },
    }
}

/// What a posted configuration leads to.
#[derive(Debug)]
pub struct ConfigUpdate {
    pub reply: Reply,
    /// The configuration was taken over: save it, and tell the LED task
    pub accepted: bool,
    /// Reset the pins and restart
    pub restart: bool,
    pub pins: Option<GpioPins>,
}

/// Take over a posted configuration, once put in range. `new` is the posted
/// configuration, if it could be read.
pub fn update_config(current: &mut Config, new: Option<Config>, mac: [u8; 6]) -> (r: ConfigUpdate)
    ensures
        match new {
            None => {
                &&& is_plain(r.reply, 400, ""@)
                &&& !r.accepted
                &&& !r.restart
                &&& r.pins is None
                &&& *final(current) == *old(current)
            },
            Some(config) => {
                &&& r.accepted
                &&& is_validated(config, *final(current), mac@)
                &&& r.restart == takes_restart(*old(current), *final(current))
                &&& r.pins is Some && r.pins->0@ == pins_to_reset(*old(current), *final(current))
                &&& is_plain(
                    r.reply,
                    200,
                    if r.restart {
                        "{\"restart\":true}"@
                    } else {
                        ""@
                    },
                )
            },
        },
{
    match new {
        None => ConfigUpdate {
            reply: status_only(400),
            accepted: false,
            restart: false,
            pins: None,
        },
        Some(config) => {
            let mut config = config;
            config.validate(mac);
            let (pins, restart) = check_restart_needed(current, &config);
            *current = config;
            let reply = if restart {
                ok("{\"restart\":true}".to_owned())
            } else {
                ok("".to_owned())
            };
            ConfigUpdate { reply, accepted: true, restart, pins: Some(pins) }
        },
    }
}

/// Brightness change request from web UI
#[derive(Debug, Clone, Copy, PartialEq, Eq, Structural)]
pub struct BrightnessRequest {
    pub brightness: u8,
    pub save: bool,
}

/// What a brightness request leads to.
#[derive(Debug)]
pub struct BrightnessUpdate {
    pub reply: Reply,
    /// The brightness to show at once
    pub show: Option<u8>,
    /// The configuration was changed: save it
    pub save: bool,
}

/// Show a brightness, and keep it if asked to. `request` is the posted request,
/// if it could be read.
pub fn update_brightness(current: &mut Config, request: Option<BrightnessRequest>) -> (r:
    BrightnessUpdate)
    ensures
        match request {
            None => {
                &&& is_plain(r.reply, 400, ""@)
                &&& r.show is None
                &&& !r.save
                &&& *final(current) == *old(current)
            },
            Some(req) => {
                &&& is_plain(r.reply, 200, ""@)
                &&& r.show == Some(req.brightness)
                &&& r.save == req.save
                &&& *final(current) == if req.save {
                    Config { brightness: req.brightness, ..*old(current) }
                } else {
                    *old(current)
                }
            },
        },
{
    match request {
        None => BrightnessUpdate { reply: status_only(400), show: None, save: false },
        Some(req) => {
            if req.save {
                current.brightness = req.brightness;
            }
            BrightnessUpdate {
                reply: ok("".to_owned()),
                show: Some(req.brightness),
                save: req.save,
            }
        },
    }
}

// ---------------------------------------------------------------------------
// Networks
// ---------------------------------------------------------------------------

/// WiFi network scan result
#[derive(Debug)]
pub struct Network {
    pub ssid: String,
    pub rssi: i8,
}

/// A network's name is in a list.
pub open spec fn lists(networks: Seq<Network>, ssid: Seq<char>) -> bool {
    exists|i: int| 0 <= i < networks.len() && (#[trigger] networks[i]).ssid@ == ssid
}

/// A network with the strongest signal among those of its name.
pub open spec fn is_strongest(found: Seq<Network>, network: Network) -> bool {
    &&& network.ssid@.len() > 0
    &&& exists|k: int|
        0 <= k < found.len() && (#[trigger] found[k]).ssid@ == network.ssid@ && found[k].rssi
            == network.rssi
    &&& forall|k: int|
        0 <= k < found.len() && (#[trigger] found[k]).ssid@ == network.ssid@ ==> found[k].rssi
            <= network.rssi
}

/// No name occurs twice.
pub open spec fn distinct_names(networks: Seq<Network>) -> bool {
    forall|i: int, j: int|
        0 <= i < j < networks.len() ==> (#[trigger] networks[i]).ssid@ != (
        #[trigger] networks[j]).ssid@
}

/// The networks of a scan, one of each name, with the strongest signal.
fn strongest_by_name(found: &[Network]) -> (r: Vec<Network>)
    ensures
        distinct_names(r@),
        forall|i: int| 0 <= i < r@.len() ==> is_strongest(found@, #[trigger] r@[i]),
        forall|k: int|
            0 <= k < found@.len() && (#[trigger] found@[k]).ssid@.len() > 0 ==> lists(
                r@,
                found@[k].ssid@,
            ),
{
    let mut best: Vec<Network> = Vec::new();
    let mut k: usize = 0;
    assert(found@.take(0) =~= Seq::empty());
    while k < found.len()
        invariant
            k <= found@.len(),
            distinct_names(best@),
            forall|i: int|
                0 <= i < best@.len() ==> is_strongest(found@.take(k as int), #[trigger] best@[i]),
            forall|j: int|
                0 <= j < k && (#[trigger] found@[j]).ssid@.len() > 0 ==> lists(
                    best@,
                    found@[j].ssid@,
                ),
        decreases found@.len() - k,
    {
        let network: &Network = &found[k];
        let ghost seen = found@.take(k as int);
        let ghost now = found@.take(k + 1);
        let ghost before = best@;
        assert(forall|j: int| 0 <= j < k ==> seen[j] == now[j]);
        assert(now[k as int] == *network);
        if !network.ssid.as_str().is_empty() {
            let at: Option<usize> = index_of(best.as_slice(), network.ssid.as_str());
            match at {
                Some(i) => {
                    let old: i8 = best[i].rssi;
                    if network.rssi > old {
                        let name: String = best[i].ssid.clone();
                        best.set(i, Network { ssid: name, rssi: network.rssi });
                    }
                    proof {
                        assert forall|m: int| 0 <= m < best@.len() implies is_strongest(
                            now,
                            #[trigger] best@[m],
                        ) by {
                            lemma_still_strongest(seen, now, before[m]);
                            if m != i {
                                assert(before[m].ssid@ != before[i as int].ssid@);
                            }
                        }
                        assert forall|j: int|
                            0 <= j < k + 1 && (#[trigger] found@[j]).ssid@.len() > 0 implies lists(
                            best@,
                            found@[j].ssid@,
                        ) by {
                            if j < k {
                                let m = choose|m: int|
                                    0 <= m < before.len() && (#[trigger] before[m]).ssid@
                                        == found@[j].ssid@;
                                assert(best@[m].ssid@ == found@[j].ssid@);
                            } else {
                                assert(best@[i as int].ssid@ == found@[j].ssid@);
                            }
                        }
                    }
                },
                None => {
                    best.push(Network { ssid: network.ssid.clone(), rssi: network.rssi });
                    proof {
                        let last = best@.len() - 1;
                        assert forall|m: int| 0 <= m < best@.len() implies is_strongest(
                            now,
                            #[trigger] best@[m],
                        ) by {
                            if m < last {
                                assert(best@[m] == before[m]);
                                lemma_still_strongest(seen, now, before[m]);
                            } else {
                                assert forall|j: int|
                                    0 <= j < now.len() && (#[trigger] now[j]).ssid@
                                        == network.ssid@ implies now[j].rssi <= network.rssi by {
                                    if j < k {
                                        assert(found@[j].ssid@ == network.ssid@);
                                        assert(lists(before, found@[j].ssid@));
                                    }
                                }
                            }
                        }
                        assert forall|j: int|
                            0 <= j < k + 1 && (#[trigger] found@[j]).ssid@.len() > 0 implies lists(
                            best@,
                            found@[j].ssid@,
                        ) by {
                            if j < k {
                                let m = choose|m: int|
                                    0 <= m < before.len() && (#[trigger] before[m]).ssid@
                                        == found@[j].ssid@;
                                assert(best@[m].ssid@ == found@[j].ssid@);
                            } else {
                                assert(best@[last].ssid@ == found@[j].ssid@);
                            }
                        }
                    }
                },
            }
        } else {
            proof {
                assert forall|m: int| 0 <= m < best@.len() implies is_strongest(
                    now,
                    #[trigger] best@[m],
                ) by {
                    lemma_still_strongest(seen, now, before[m]);
                }
            }
        }
        k = k + 1;
    }
    assert(found@.take(k as int) =~= found@);
    best
}

/// One more network of another name, or a weaker one, changes nothing.
proof fn lemma_still_strongest(seen: Seq<Network>, now: Seq<Network>, network: Network)
    requires
        is_strongest(seen, network),
        now.len() == seen.len() + 1,
        forall|j: int| 0 <= j < seen.len() ==> seen[j] == now[j],
    ensures
        now.last().ssid@ != network.ssid@ || now.last().rssi <= network.rssi ==> is_strongest(
            now,
            network,
        ),
        now.last().ssid@ == network.ssid@ && now.last().rssi > network.rssi ==> forall|k: int|
            0 <= k < now.len() && (#[trigger] now[k]).ssid@ == network.ssid@ ==> now[k].rssi
                <= now.last().rssi,
{
    let w = choose|k: int|
        0 <= k < seen.len() && (#[trigger] seen[k]).ssid@ == network.ssid@ && seen[k].rssi
            == network.rssi;
    assert(now[w] == seen[w]);
    assert forall|k: int| 0 <= k < seen.len() && (#[trigger] now[k]).ssid@ == network.ssid@ implies
        now[k].rssi <= network.rssi by {
        assert(seen[k] == now[k]);
    }
}

/// Where a network's name is in a list.
fn index_of(networks: &[Network], ssid: &str) -> (r: Option<usize>)
    ensures
        match r {
            Some(i) => i < networks@.len() && networks@[i as int].ssid@ == ssid@,
            None => !lists(networks@, ssid@),
        },
{
    let mut i: usize = 0;
    while i < networks.len()
        invariant
            i <= networks@.len(),
            forall|j: int| 0 <= j < i ==> (#[trigger] networks@[j]).ssid@ != ssid@,
        decreases networks@.len() - i,
    {
        if same_text(networks[i].ssid.as_str(), ssid) {
            return Some(i);
        }
        i = i + 1;
    }
    None
}

/// Where the strongest network of a list is.
fn strongest_of(networks: &[Network]) -> (r: usize)
    requires
        networks@.len() > 0,
    ensures
        r < networks@.len(),
        forall|j: int|
            0 <= j < networks@.len() ==> (#[trigger] networks@[j]).rssi <= networks@[r as int].rssi,
{
    let mut best: usize = 0;
    let mut i: usize = 1;
    while i < networks.len()
        invariant
            best < i <= networks@.len(),
            forall|j: int|
                0 <= j < i ==> (#[trigger] networks@[j]).rssi <= networks@[best as int].rssi,
        decreases networks@.len() - i,
    {
        if networks[i].rssi > networks[best].rssi {
            best = i;
        }
        i = i + 1;
    }
    best
}

/// The networks of a scan for the list in the web UI: one of each name, with its
/// strongest signal, strongest first. Hidden networks are left out.
pub fn networks_to_show(found: &[Network]) -> (r: Vec<Network>)
    ensures
        distinct_names(r@),
        forall|i: int| 0 <= i < r@.len() ==> is_strongest(found@, #[trigger] r@[i]),
        forall|k: int|
            0 <= k < found@.len() && (#[trigger] found@[k]).ssid@.len() > 0 ==> lists(
                r@,
                found@[k].ssid@,
            ),
        forall|i: int, j: int|
            0 <= i < j < r@.len() ==> (#[trigger] r@[i]).rssi >= (#[trigger] r@[j]).rssi,
{
    let mut rest: Vec<Network> = strongest_by_name(found);
    let mut shown: Vec<Network> = Vec::new();
    while rest.len() > 0
        invariant
            distinct_names(rest@),
            distinct_names(shown@),
            forall|i: int, j: int|
                0 <= i < shown@.len() && 0 <= j < rest@.len() ==> (#[trigger] shown@[i]).ssid@ != (
                #[trigger] rest@[j]).ssid@ && shown@[i].rssi >= rest@[j].rssi,
            forall|i: int| 0 <= i < shown@.len() ==> is_strongest(found@, #[trigger] shown@[i]),
            forall|i: int| 0 <= i < rest@.len() ==> is_strongest(found@, #[trigger] rest@[i]),
            forall|k: int|
                0 <= k < found@.len() && (#[trigger] found@[k]).ssid@.len() > 0 ==> lists(
                    shown@,
                    found@[k].ssid@,
                ) || lists(rest@, found@[k].ssid@),
            forall|i: int, j: int|
                0 <= i < j < shown@.len() ==> (#[trigger] shown@[i]).rssi >= (
                #[trigger] shown@[j]).rssi,
        decreases rest@.len(),
    {
        let at: usize = strongest_of(rest.as_slice());
        let ghost old_rest = rest@;
        let ghost old_shown = shown@;
        let network: Network = rest.remove(at);
        shown.push(network);
        proof {
            let last = old_shown.len() as int;
            assert(shown@[last] == old_rest[at as int]);
            assert forall|j: int| 0 <= j < rest@.len() implies #[trigger] rest@[j] == if j < at {
                old_rest[j]
            } else {
                old_rest[j + 1]
            } by {}
            assert forall|k: int|
                0 <= k < found@.len() && (#[trigger] found@[k]).ssid@.len() > 0 implies lists(
                shown@,
                found@[k].ssid@,
            ) || lists(rest@, found@[k].ssid@) by {
                let name = found@[k].ssid@;
                if lists(old_shown, name) {
                    let i = choose|i: int|
                        0 <= i < old_shown.len() && (#[trigger] old_shown[i]).ssid@ == name;
                    assert(shown@[i].ssid@ == name);
                } else {
                    let i = choose|i: int|
                        0 <= i < old_rest.len() && (#[trigger] old_rest[i]).ssid@ == name;
                    if i == at {
                        assert(shown@[last].ssid@ == name);
                    } else if i < at {
                        assert(rest@[i].ssid@ == name);
                    } else {
                        assert(rest@[i - 1].ssid@ == name);
                    }
                }
            }
            assert forall|i: int| 0 <= i < shown@.len() implies is_strongest(
                found@,
                #[trigger] shown@[i],
            ) by {
                if i < last {
                    assert(shown@[i] == old_shown[i]);
                }
            }
        }
    }
    shown
}

/// A MAC address as text.
pub open spec fn mac_text_of(mac: Seq<u8>) -> Seq<char> {
    chars_of_bytes(hex_pair(mac[0])) + seq![':'] + chars_of_bytes(hex_pair(mac[1])) + seq![':']
        + chars_of_bytes(hex_pair(mac[2])) + seq![':'] + chars_of_bytes(hex_pair(mac[3])) + seq![
        ':',
    ] + chars_of_bytes(hex_pair(mac[4])) + seq![':'] + chars_of_bytes(hex_pair(mac[5]))
}

/// A MAC address as text.
pub fn mac_text(mac: [u8; 6]) -> (r: String)
    ensures
        r@ == mac_text_of(mac@),
{
    let mut out: String = "".to_owned();
    proof {
        reveal_strlit("");
    }
    push_upper_hex(&mut out, mac[0]);
    out.push(':');
    push_upper_hex(&mut out, mac[1]);
    out.push(':');
    push_upper_hex(&mut out, mac[2]);
    out.push(':');
    push_upper_hex(&mut out, mac[3]);
    out.push(':');
    push_upper_hex(&mut out, mac[4]);
    out.push(':');
    push_upper_hex(&mut out, mac[5]);
    assert(out@ =~= mac_text_of(mac@));
    out
}

/// An IPv4 address as text.
pub open spec fn ip_text_of(ip: Seq<u8>) -> Seq<char> {
    decimal_text(ip[0] as nat) + seq!['.'] + decimal_text(ip[1] as nat) + seq!['.'] + decimal_text(
        ip[2] as nat,
    ) + seq!['.'] + decimal_text(ip[3] as nat)
}

/// An IPv4 address as text.
pub fn ip_text(ip: [u8; 4]) -> (r: String)
    ensures
        r@ == ip_text_of(ip@),
{
    let mut out: String = "".to_owned();
    proof {
        reveal_strlit("");
    }
    push_number(&mut out, ip[0] as u64);
    out.push('.');
    push_number(&mut out, ip[1] as u64);
    out.push('.');
    push_number(&mut out, ip[2] as u64);
    out.push('.');
    push_number(&mut out, ip[3] as u64);
    assert(out@ =~= ip_text_of(ip@));
    out
}

/// The bytes of a network's name as the driver gives it: up to the first zero.
pub open spec fn before_zero(bytes: Seq<u8>) -> Seq<u8>
    decreases bytes.len(),
{
    if bytes.len() == 0 || bytes[0] == 0 {
        Seq::empty()
    } else {
        seq![bytes[0]] + before_zero(bytes.drop_first())
    }
}

/// The name of a network as the driver gives it.
pub fn driver_ssid(bytes: &[u8]) -> (r: String)
    ensures
        r@ == utf8_lossy(before_zero(bytes@)),
{
    let total: usize = bytes.len();
    let mut end: usize = 0;
    assert(bytes@.skip(0) =~= bytes@);
    assert(bytes@.take(0) + before_zero(bytes@) =~= before_zero(bytes@));
    while end < total && bytes[end] != 0
        invariant
            end <= total,
            total == bytes@.len(),
            bytes@.take(end as int) + before_zero(bytes@.skip(end as int)) == before_zero(bytes@),
        decreases total - end,
    {
        let ghost rest = bytes@.skip(end as int);
        assert(rest.drop_first() =~= bytes@.skip(end + 1));
        assert(bytes@.take(end as int) + (seq![rest[0]] + before_zero(rest.drop_first()))
            =~= bytes@.take(end + 1) + before_zero(bytes@.skip(end + 1)));
        end = end + 1;
    }
    assert(before_zero(bytes@.skip(end as int)) =~= Seq::empty());
    assert(bytes@.take(end as int) =~= before_zero(bytes@));
    assert(bytes@.subrange(0, end as int) =~= bytes@.take(end as int));
    from_utf8_lossy(slice_subrange(bytes, 0, end))
}

/// Network status response
#[derive(Debug)]
pub struct NetworkStatus {
    pub ssid: Option<String>,
    pub ip: Option<String>,
    pub mac: String,
    pub rssi: Option<i8>,
}

/// The network status for what the driver says: the name and signal of the
/// network, the address and its prefix length, each if there is one.
pub fn network_status(
    access_point: Option<(&[u8], i8)>,
    address: Option<([u8; 4], u8)>,
    mac: [u8; 6],
) -> (r: NetworkStatus)
    ensures
        r.mac@ == mac_text_of(mac@),
        match access_point {
            Some((ssid, rssi)) => r.rssi == Some(rssi) && r.ssid is Some && r.ssid->0@
                == utf8_lossy(before_zero(ssid@)),
            None => r.rssi is None && r.ssid is None,
        },
        match address {
            Some((ip, prefix_len)) => r.ip is Some && r.ip->0@ == ip_text_of(ip@) + seq!['/']
                + decimal_text(prefix_len as nat),
            None => r.ip is None,
        },
{
    let ip: Option<String> = match address {
        Some((ip, prefix_len)) => {
            let mut text = ip_text(ip);
            text.push('/');
            push_number(&mut text, prefix_len as u64);
            assert(text@ =~= ip_text_of(ip@) + seq!['/'] + decimal_text(prefix_len as nat));
            Some(text)
        },
        None => None,
    };
    match access_point {
        Some((ssid, rssi)) => NetworkStatus {
            ssid: Some(driver_ssid(ssid)),
            ip,
            mac: mac_text(mac),
            rssi: Some(rssi),
        },
        None => NetworkStatus { ssid: None, ip, mac: mac_text(mac), rssi: None },
    }
}

/// Connection status for the diagram
#[derive(Debug, Clone, Copy, PartialEq, Eq, Structural)]
pub struct ConnectionStatus {
    /// WiFi connected to OBD2 dongle network
    pub wifi_connected: bool,
    /// TCP connection to OBD2 dongle established
    pub dongle_tcp_connected: bool,
    /// Number of downstream OBD2 clients connected
    pub obd2_client_count: u32,
}

/// The connection status. `wifi_connected` is what the driver says, if it could
/// be asked.
pub fn connection_status(
    wifi_connected: Option<bool>,
    dongle: DongleTcpState,
    obd2_client_count: u32,
) -> (r: ConnectionStatus)
    ensures
        r == (ConnectionStatus {
            wifi_connected: wifi_connected == Some(true),
            dongle_tcp_connected: dongle != DongleTcpState::Disconnected,
            obd2_client_count,
        }),
{
    ConnectionStatus {
        wifi_connected: match wifi_connected {
            Some(connected) => connected,
            None => false,
        },
        dongle_tcp_connected: dongle != DongleTcpState::Disconnected,
        obd2_client_count,
    }
}

/// The RPM as JSON.
pub open spec fn rpm_json(rpm: Option<u32>) -> Seq<char> {
    match rpm {
        Some(value) => "{\"rpm\":"@ + decimal_text(value as nat) + "}"@,
        None => "{\"rpm\":null}"@,
    }
}

/// The current RPM (fallback for clients without the event stream).
pub fn rpm_reply(rpm: Option<u32>) -> (r: Reply)
    ensures
        is_plain(r, 200, rpm_json(rpm)),
{
    match rpm {
        Some(value) => {
            let mut body: String = "{\"rpm\":".to_owned();
            push_number(&mut body, value as u64);
            body.push_str("}");
            ok(body)
        },
        None => ok("{\"rpm\":null}".to_owned()),
    }
}

// ---------------------------------------------------------------------------
// Captive portal
// ---------------------------------------------------------------------------

/// The host of a `Host` header: in lower case, and without a port.
pub open spec fn host_in(header: Seq<char>) -> Seq<char> {
    let lower = lowercase(header);
    lower.take(find_char(lower, ':'))
}

/// The host is one of the device's own names.
pub open spec fn is_own_host(header: Seq<char>, hostname: Seq<char>, ap_ip: Seq<u8>) -> bool {
    let host = host_in(header);
    host == hostname || host == hostname + ".local"@ || host == ip_text_of(ap_ip)
}

/// The URL of the captive portal.
pub open spec fn portal_url(ap_ip: Seq<u8>) -> Seq<char> {
    "http://"@ + ip_text_of(ap_ip) + "/"@
}

/// The page that leads to the captive portal.
pub open spec fn portal_page(url: Seq<char>) -> Seq<char> {
    "<!DOCTYPE html>\n<html>\n<head>\n    <meta charset=\"UTF-8\">\n    <title>TachTalk Setup</title>\n    <meta http-equiv=\"refresh\" content=\"0;url="@
        + url + "\">\n</head>\n<body>\n    <p>Redirecting to <a href=\""@ + url
        + "\">TachTalk Setup</a>...</p>\n</body>\n</html>\n"@
}

/// A redirection to the captive portal.
pub open spec fn is_portal_redirect(r: Reply, ap_ip: Seq<u8>) -> bool {
    &&& r.status == 302
    &&& r.reason is Some && r.reason->0@ == "Found"@
    &&& r.headers@.len() == 3
    &&& r.headers@[0].0@ == "Location"@ && r.headers@[0].1@ == portal_url(ap_ip)
    &&& r.headers@[1].0@ == "Cache-Control"@ && r.headers@[1].1@ == "no-cache"@
    &&& r.headers@[2].0@ == "Connection"@ && r.headers@[2].1@ == "close"@
    &&& r.body@ == portal_page(portal_url(ap_ip))
}

/// Answer a request for anything else: unknown pages of the device do not exist,
/// and every other host leads to the captive portal.
pub fn captive_portal(host_header: &str, hostname: &str, ap_ip: [u8; 4]) -> (r: Reply)
    ensures
        if is_own_host(host_header@, hostname@, ap_ip@) {
            is_plain(r, 404, ""@)
        } else {
            is_portal_redirect(r, ap_ip@)
        },
{
    let lower: String = to_lowercase(host_header);
    let chars: Vec<char> = chars_of(lower.as_str());
    let all: &[char] = chars.as_slice();
    let end: usize = find_from(all, 0, ':');
    assert(all@.skip(0) =~= all@);
    assert(all@.subrange(0, end as int) =~= all@.take(end as int));
    let host: String = text_of(slice_subrange(all, 0, end));
    let mut local: String = hostname.to_owned();
    local.push_str(".local");
    let own_ip: String = ip_text(ap_ip);
    if same_text(host.as_str(), hostname) || same_text(host.as_str(), local.as_str()) || same_text(
        host.as_str(),
        own_ip.as_str(),
    ) {
        return status_only(404);
    }
    let mut url: String = "http://".to_owned();
    url.push_str(own_ip.as_str());
    url.push_str("/");
    let mut page: String =
        "<!DOCTYPE html>\n<html>\n<head>\n    <meta charset=\"UTF-8\">\n    <title>TachTalk Setup</title>\n    <meta http-equiv=\"refresh\" content=\"0;url=".to_owned();
    page.push_str(url.as_str());
    page.push_str("\">\n</head>\n<body>\n    <p>Redirecting to <a href=\"");
    page.push_str(url.as_str());
    page.push_str("\">TachTalk Setup</a>...</p>\n</body>\n</html>\n");
    let mut headers: Vec<(String, String)> = Vec::new();
    headers.push(("Location".to_owned(), url));
    headers.push(("Cache-Control".to_owned(), "no-cache".to_owned()));
    headers.push(("Connection".to_owned(), "close".to_owned()));
    Reply { status: 302, reason: Some("Found".to_owned()), headers, body: page }
}

/// The name that the access point is known by on its own network.
pub fn ap_hostname(ap_ssid: &str) -> (r: String)
    ensures
        r@ == lowercase(ap_ssid@),
{
    to_lowercase(ap_ssid)
}

// ---------------------------------------------------------------------------
// Captured traffic
// ---------------------------------------------------------------------------

/// A download of captured traffic.
#[derive(Debug)]
pub struct CaptureDownload {
    pub headers: Vec<(String, String)>,
    /// The file header; the records follow it
    pub file_header: [u8; 64],
}

/// The length of a capture file with the given number of bytes of records.
pub open spec fn capture_file_length(records: nat) -> nat {
    records + 64
}

/// The download of captured traffic: a file header and then the records. None
/// (no content) if nothing was captured.
pub fn capture_download(
    buffer: &CaptureBuffer,
    dongle_ip: [u8; 4],
    dongle_port: u16,
    firmware_version: &str,
) -> (r: Option<CaptureDownload>)
    requires
        buffer.bytes@.len() + 64 <= u32::MAX,
    ensures
        match r {
            None => buffer.bytes@.len() == 0,
            Some(download) => {
                &&& buffer.bytes@.len() > 0
                &&& download.headers@.len() == 3
                &&& download.headers@[0].0@ == "Content-Type"@
                &&& download.headers@[0].1@ == "application/octet-stream"@
                &&& download.headers@[1].0@ == "Content-Disposition"@
                &&& download.headers@[1].1@ == "attachment; filename=\"capture.ttcap\""@
                &&& download.headers@[2].0@ == "Content-Length"@
                &&& download.headers@[2].1@ == decimal_text(
                    capture_file_length(buffer.bytes@.len()),
                )
                &&& exists|h: CaptureHeader| #[trigger]
                    header_bytes(h) == download.file_header@ && buffer.describes(
                        h,
                        buffer.bytes@.len() as u32,
                        dongle_ip@,
                        dongle_port,
                        firmware_version@,
                    )
            },
        },
{
    if buffer.bytes.len() == 0 {
        return None;
    }
    let length: u32 = buffer.bytes.len() as u32;
    let file_header: [u8; 64] = buffer.build_capture_header(
        length,
        dongle_ip,
        dongle_port,
        firmware_version,
    );
    let mut content_length: String = "".to_owned();
    proof {
        reveal_strlit("");
    }
    push_number(&mut content_length, length as u64 + 64);
    assert(content_length@ =~= decimal_text(capture_file_length(buffer.bytes@.len())));
    let mut headers: Vec<(String, String)> = Vec::new();
    headers.push(("Content-Type".to_owned(), "application/octet-stream".to_owned()));
    headers.push(
        ("Content-Disposition".to_owned(), "attachment; filename=\"capture.ttcap\"".to_owned()),
    );
    headers.push(("Content-Length".to_owned(), content_length));
    Some(CaptureDownload { headers, file_header })
}

/// Capture status response
#[derive(Debug, Clone, Copy, PartialEq, Eq, Structural)]
pub struct CaptureStatus {
    pub buffer_bytes: u32,
    pub buffer_capacity: u32,
    pub records: u32,
    pub overflow: bool,
    pub capture_active: bool,
}

/// The state of the capture.
pub fn capture_status(buffer: &CaptureBuffer, buffer_capacity: u32, capture_active: bool) -> (r:
    CaptureStatus)
    requires
        buffer.bytes@.len() <= u32::MAX,
    ensures
        r == (CaptureStatus {
            buffer_bytes: buffer.bytes@.len() as u32,
            buffer_capacity,
            records: buffer.record_count,
            overflow: buffer.overflow,
            capture_active,
        }),
{
    CaptureStatus {
        buffer_bytes: buffer.bytes.len() as u32,
        buffer_capacity,
        records: buffer.record_count,
        overflow: buffer.overflow,
        capture_active,
    }
}

// ---------------------------------------------------------------------------
// Firmware updates
// ---------------------------------------------------------------------------

/// An upload without a length is refused.
pub fn ota_upload_refused(content_length: usize) -> (r: Option<Reply>)
    ensures
        match r {
            Some(reply) => content_length == 0 && is_plain(reply, 400, ""@),
            None => content_length > 0,
        },
{
    if content_length == 0 {
        Some(status_only(400))
    } else {
        None
    }
}

/// The answer to an upload: success, or the message of the error.
pub fn ota_upload_reply(error: Option<&str>) -> (r: Reply)
    ensures
        match error {
            None => is_plain(r, 200, "{\"success\":true}"@),
            Some(message) => is_json(
                r,
                500,
                "OTA Failed"@,
                "{\"success\":false,\"error\":\""@ + message@ + "\"}"@,
            ),
        },
{
    match error {
        None => ok("{\"success\":true}".to_owned()),
        Some(message) => {
            let mut body: String = "{\"success\":false,\"error\":\"".to_owned();
            body.push_str(message);
            body.push_str("\"}");
            json(500, "OTA Failed", body)
        },
    }
}

/// The answer to a request to download firmware: only one update at a time. The
/// second part says whether to start.
pub fn ota_download_reply(status: u8) -> (r: (Reply, bool))
    ensures
        r.1 == (status == OTA_STATUS_IDLE || status == OTA_STATUS_ERROR),
        if r.1 {
            is_plain(r.0, 200, "{\"success\":true}"@)
        } else {
            is_json(
                r.0,
                409,
                "Conflict"@,
                "{\"success\":false,\"error\":\"OTA already in progress\"}"@,
            )
        },
{
    if status != OTA_STATUS_IDLE && status != OTA_STATUS_ERROR {
        (
            json(
                409,
                "Conflict",
                "{\"success\":false,\"error\":\"OTA already in progress\"}".to_owned(),
            ),
            false,
        )
    } else {
        (ok("{\"success\":true}".to_owned()), true)
    }
}

/// A text inside quotes: backslashes and quotes get a backslash in front.
pub open spec fn escaped(s: Seq<char>) -> Seq<char>
    decreases s.len(),
{
    if s.len() == 0 {
        Seq::empty()
    } else {
        let front = escaped(s.drop_last());
        if s.last() == '\\' || s.last() == '"' {
            front.push('\\').push(s.last())
        } else {
            front.push(s.last())
        }
    }
}

/// The status of an update as JSON; the error message is there after an error.
pub open spec fn ota_status_json(status: u8, progress: u8, error: Seq<char>) -> Seq<char> {
    let known = "{\"status\":"@ + decimal_text(status as nat) + ",\"progress\":"@ + decimal_text(
        progress as nat,
    );
    if status == OTA_STATUS_ERROR {
        known + ",\"error\":\""@ + escaped(error) + "\"}"@
    } else {
        known + "}"@
    }
}

fn push_escaped(out: &mut String, s: &str)
    ensures
        final(out)@ == old(out)@ + escaped(s@),
{
    let chars: Vec<char> = chars_of(s);
    let mut i: usize = 0;
    assert(chars@.take(0) =~= Seq::empty());
    assert(out@ =~= old(out)@ + escaped(chars@.take(0)));
    while i < chars.len()
        invariant
            i <= chars@.len(),
            out@ == old(out)@ + escaped(chars@.take(i as int)),
        decreases chars@.len() - i,
    {
        let c: char = chars[i];
        assert(chars@.take(i + 1).drop_last() =~= chars@.take(i as int));
        if c == '\\' || c == '"' {
            out.push('\\');
        }
        out.push(c);
        assert(out@ =~= old(out)@ + escaped(chars@.take(i + 1)));
        i = i + 1;
    }
    assert(chars@.take(i as int) =~= chars@);
}

/// The status of an update.
pub fn ota_status_reply(status: u8, progress: u8, error: &str) -> (r: Reply)
    ensures
        is_plain(r, 200, ota_status_json(status, progress, error@)),
{
    let mut body: String = "{\"status\":".to_owned();
    push_number(&mut body, status as u64);
    body.push_str(",\"progress\":");
    push_number(&mut body, progress as u64);
    if status == OTA_STATUS_ERROR {
        body.push_str(",\"error\":\"");
        push_escaped(&mut body, error);
        body.push_str("\"}");
    } else {
        body.push_str("}");
    }
    ok(body)
}

// ---------------------------------------------------------------------------
// Sockets
// ---------------------------------------------------------------------------

/// Socket type enumeration
#[derive(Debug, Clone, Copy, PartialEq, Eq, Structural)]
pub enum SocketType {
    Tcp,
    Udp,
    Unknown(i32),
}

/// The type of a socket, from the numbers that the network stack has for it.
pub fn socket_type(value: i32, stream: i32, datagram: i32) -> (r: SocketType)
    ensures
        r == if value == stream {
            SocketType::Tcp
        } else if value == datagram {
            SocketType::Udp
        } else {
            SocketType::Unknown(value)
        },
{
    if value == stream {
        SocketType::Tcp
    } else if value == datagram {
        SocketType::Udp
    } else {
        SocketType::Unknown(value)
    }
}

/// Information about a single socket
#[derive(Debug)]
pub struct SocketInfo {
    pub fd: i32,
    pub socket_type: SocketType,
    pub local: Option<String>,
    pub remote: Option<String>,
}

/// A number with its sign.
pub open spec fn signed_text(n: int) -> Seq<char> {
    if n < 0 {
        seq!['-'] + decimal_text((-n) as nat)
    } else {
        decimal_text(n as nat)
    }
}

fn push_signed(out: &mut String, n: i32)
    ensures
        final(out)@ == old(out)@ + signed_text(n as int),
{
    let wide: i64 = n as i64;
    if wide < 0 {
        out.push('-');
        push_number(out, (-wide) as u64);
    } else {
        push_number(out, wide as u64);
    }
    assert(out@ =~= old(out)@ + signed_text(n as int));
}

/// A socket in the list of open sockets.
pub open spec fn socket_text(s: SocketInfo) -> Seq<char> {
    let start = "  fd="@ + signed_text(s.fd as int) + ": "@;
    let local = match s.local {
        Some(address) => address@,
        None => "?"@,
    };
    let remote = match s.remote {
        Some(address) => address@,
        None => "-"@,
    };
    match s.socket_type {
        SocketType::Unknown(t) => start + "type="@ + signed_text(t as int) + " (unknown)"@,
        SocketType::Tcp => start + "TCP "@ + local + " -> "@ + remote,
        SocketType::Udp => start + "UDP "@ + local + " -> "@ + remote,
    }
}

/// A socket in the list of open sockets.
fn socket_line(s: &SocketInfo) -> (r: String)
    ensures
        r@ == socket_text(*s),
{
    let mut out: String = "  fd=".to_owned();
    push_signed(&mut out, s.fd);
    out.push_str(": ");
    match s.socket_type {
        SocketType::Unknown(t) => {
            out.push_str("type=");
            push_signed(&mut out, t);
            out.push_str(" (unknown)");
            return out;
        },
        SocketType::Tcp => {
            out.push_str("TCP ");
        },
        SocketType::Udp => {
            out.push_str("UDP ");
        },
    }
    match &s.local {
        Some(address) => {
            out.push_str(address.as_str());
        },
        None => {
            out.push_str("?");
        },
    }
    out.push_str(" -> ");
    match &s.remote {
        Some(address) => {
            out.push_str(address.as_str());
        },
        None => {
            out.push_str("-");
        },
    }
    out
}

/// The list of open sockets: how many of those there can be, and one line each.
pub fn log_sockets(sockets: &[SocketInfo], max_sockets: u32) -> (r: Vec<String>)
    ensures
        if sockets@.len() == 0 {
            r@.len() == 1 && r@[0]@ == "No open sockets found (unexpected)"@
        } else {
            &&& r@.len() == sockets@.len() + 1
            &&& r@[0]@ == "Open sockets ("@ + decimal_text(sockets@.len()) + "/"@ + decimal_text(
                max_sockets as nat,
            ) + "):"@
            &&& forall|i: int|
                0 <= i < sockets@.len() ==> #[trigger] r@[i + 1]@ == socket_text(sockets@[i])
        },
{
    let mut lines: Vec<String> = Vec::new();
    if sockets.len() == 0 {
        lines.push("No open sockets found (unexpected)".to_owned());
        return lines;
    }
    let mut head: String = "Open sockets (".to_owned();
    push_number(&mut head, sockets.len() as u64);
    head.push_str("/");
    push_number(&mut head, max_sockets as u64);
    head.push_str("):");
    lines.push(head);
    let ghost first = lines@[0]@;
    let mut i: usize = 0;
    while i < sockets.len()
        invariant
            i <= sockets@.len(),
            lines@.len() == i + 1,
            lines@[0]@ == first,
            forall|j: int| 0 <= j < i ==> #[trigger] lines@[j + 1]@ == socket_text(sockets@[j]),
        decreases sockets@.len() - i,
    {
        lines.push(socket_line(&sockets[i]));
        i = i + 1;
    }
    lines
}

// ---------------------------------------------------------------------------
// Debug information
// ---------------------------------------------------------------------------

/// One text comes before another, or is the same: by the first character in
/// which they differ.
pub open spec fn text_le(a: Seq<char>, b: Seq<char>) -> bool
    decreases a.len(),
{
    if a.len() == 0 {
        true
    } else if b.len() == 0 {
        false
    } else if a[0] != b[0] {
        a[0] < b[0]
    } else {
        text_le(a.drop_first(), b.drop_first())
    }
}

proof fn lemma_text_total(a: Seq<char>, b: Seq<char>)
    ensures
        text_le(a, b) || text_le(b, a),
    decreases a.len(),
{
    if a.len() > 0 && b.len() > 0 && a[0] == b[0] {
        lemma_text_total(a.drop_first(), b.drop_first());
    }
}

proof fn lemma_text_transitive(a: Seq<char>, b: Seq<char>, c: Seq<char>)
    requires
        text_le(a, b),
        text_le(b, c),
    ensures
        text_le(a, c),
    decreases a.len(),
{
    if a.len() > 0 && b.len() > 0 && c.len() > 0 && a[0] == b[0] && b[0] == c[0] {
        lemma_text_transitive(a.drop_first(), b.drop_first(), c.drop_first());
    }
}

/// Whether one text comes before another, or is the same.
fn text_not_after(a: &str, b: &str) -> (r: bool)
    ensures
        r == text_le(a@, b@),
{
    let x: Vec<char> = chars_of(a);
    let y: Vec<char> = chars_of(b);
    let mut i: usize = 0;
    assert(x@.skip(0) =~= x@);
    assert(y@.skip(0) =~= y@);
    while i < x.len() && i < y.len()
        invariant
            i <= x@.len(),
            i <= y@.len(),
            x@ == a@,
            y@ == b@,
            text_le(x@.skip(i as int), y@.skip(i as int)) == text_le(a@, b@),
        decreases x@.len() - i,
    {
        if x[i] != y[i] {
            return x[i] < y[i];
        }
        assert(x@.skip(i as int).drop_first() =~= x@.skip(i + 1));
        assert(y@.skip(i as int).drop_first() =~= y@.skip(i + 1));
        i = i + 1;
    }
    i == x.len()
}

/// The first text of a list.
fn first_of(texts: &[String]) -> (r: usize)
    requires
        texts@.len() > 0,
    ensures
        r < texts@.len(),
        forall|j: int| 0 <= j < texts@.len() ==> text_le(texts@[r as int]@, #[trigger] texts@[j]@),
{
    let mut best: usize = 0;
    let mut i: usize = 1;
    proof {
        lemma_text_total(texts@[0]@, texts@[0]@);
    }
    while i < texts.len()
        invariant
            best < i <= texts@.len(),
            forall|j: int| 0 <= j < i ==> text_le(texts@[best as int]@, #[trigger] texts@[j]@),
        decreases texts@.len() - i,
    {
        let ghost before = best;
        if text_not_after(texts[best].as_str(), texts[i].as_str()) {
        } else {
            best = i;
            proof {
                let new = texts@[i as int]@;
                let old = texts@[before as int]@;
                lemma_text_total(old, new);
                lemma_text_total(new, new);
                assert forall|j: int| 0 <= j < i implies text_le(new, #[trigger] texts@[j]@) by {
                    lemma_text_transitive(new, old, texts@[j]@);
                }
            }
        }
        i = i + 1;
    }
    best
}

/// The logged commands for the debug page: all of them, in order.
pub fn sorted_log(log: Vec<String>) -> (r: Vec<String>)
    ensures
        texts_of(r@).to_multiset() == texts_of(log@).to_multiset(),
        forall|i: int, j: int|
            0 <= i < j < r@.len() ==> text_le(#[trigger] r@[i]@, #[trigger] r@[j]@),
{
    let mut rest: Vec<String> = log;
    let mut sorted: Vec<String> = Vec::new();
    proof {
        broadcast use vstd::seq_lib::group_to_multiset_ensures;

        assert(texts_of(sorted@) =~= Seq::empty());
        assert(texts_of(sorted@).to_multiset().add(texts_of(rest@).to_multiset())
            =~= texts_of(log@).to_multiset());
    }
    while rest.len() > 0
        invariant
            texts_of(sorted@).to_multiset().add(texts_of(rest@).to_multiset()) == texts_of(
                log@,
            ).to_multiset(),
            forall|i: int, j: int|
                0 <= i < j < sorted@.len() ==> text_le(
                    #[trigger] sorted@[i]@,
                    #[trigger] sorted@[j]@,
                ),
            forall|i: int, j: int|
                0 <= i < sorted@.len() && 0 <= j < rest@.len() ==> text_le(
                    #[trigger] sorted@[i]@,
                    #[trigger] rest@[j]@,
                ),
        decreases rest@.len(),
    {
        let at: usize = first_of(rest.as_slice());
        let ghost old_rest = rest@;
        let ghost old_sorted = sorted@;
        let text: String = rest.remove(at);
        sorted.push(text);
        proof {
            broadcast use vstd::seq_lib::group_to_multiset_ensures;

            let first = old_rest[at as int]@;
            assert(texts_of(rest@) =~= texts_of(old_rest).remove(at as int));
            assert(texts_of(sorted@) =~= texts_of(old_sorted).push(first));
            assert(texts_of(old_rest)[at as int] == first);
            assert(texts_of(old_rest).contains(first));
            assert(texts_of(sorted@).to_multiset().add(texts_of(rest@).to_multiset())
                =~= texts_of(old_sorted).to_multiset().add(texts_of(old_rest).to_multiset()));
            assert forall|j: int| 0 <= j < rest@.len() implies #[trigger] rest@[j] == if j < at {
                old_rest[j]
            } else {
                old_rest[j + 1]
            } by {}
        }
    }
    proof {
        broadcast use vstd::seq_lib::group_to_multiset_ensures;

        assert(texts_of(rest@) =~= Seq::empty());
        assert(texts_of(sorted@).to_multiset() =~= texts_of(log@).to_multiset());
    }
    sorted
}

// ---------------------------------------------------------------------------
// Laws
// ---------------------------------------------------------------------------

/// With a captive portal every GET request is answered, and none of the device's
/// own pages leads away from it.
pub proof fn law_captive_portal_answers_the_rest(path: Seq<char>)
    ensures
        route_of(Method::Get, path, true) is Some,
        route_of(Method::Get, path, false) is Some ==> route_of(Method::Get, path, true)
            == route_of(Method::Get, path, false),
        route_of(Method::Post, path, true) == route_of(Method::Post, path, false),
{
}

/// Each page is served under its own path, and under no other one.
pub proof fn law_pages_are_found(path: Seq<char>, captive_portal: bool)
    ensures
        route_of(Method::Get, "/"@, captive_portal) == Some(Route::Index),
        route_of(Method::Get, "/api/config"@, captive_portal) == Some(Route::GetConfig),
        route_of(Method::Get, "/api/config/default"@, captive_portal) == Some(Route::GetDefaultConfig),
        route_of(Method::Get, "/api/wifi/scan"@, captive_portal) == Some(Route::WifiScan),
        route_of(Method::Get, "/api/network"@, captive_portal) == Some(Route::NetworkStatus),
        route_of(Method::Get, "/api/status"@, captive_portal) == Some(Route::ConnectionStatus),
        route_of(Method::Get, "/api/tcp"@, captive_portal) == Some(Route::TcpStatus),
        route_of(Method::Get, "/api/rpm"@, captive_portal) == Some(Route::Rpm),
        route_of(Method::Get, "/api/metrics"@, captive_portal) == Some(Route::Metrics),
        route_of(Method::Get, "/api/sockets"@, captive_portal) == Some(Route::Sockets),
        route_of(Method::Get, "/api/debug_info"@, captive_portal) == Some(Route::DebugInfo),
        route_of(Method::Get, "/api/capture"@, captive_portal) == Some(Route::CaptureDownload),
        route_of(Method::Get, "/api/capture/status"@, captive_portal) == Some(Route::CaptureStatus),
        route_of(Method::Get, "/api/ota/info"@, captive_portal) == Some(Route::OtaInfo),
        route_of(Method::Get, "/api/ota/status"@, captive_portal) == Some(Route::OtaStatus),
        path != "/"@
            && path != "/api/config"@
            && path != "/api/config/default"@
            && path != "/api/wifi/scan"@
            && path != "/api/network"@
            && path != "/api/status"@
            && path != "/api/tcp"@
            && path != "/api/rpm"@
            && path != "/api/metrics"@
            && path != "/api/sockets"@
            && path != "/api/debug_info"@
            && path != "/api/capture"@
            && path != "/api/capture/status"@
            && path != "/api/ota/info"@
            && path != "/api/ota/status"@
            ==> route_of(Method::Get, path, captive_portal) == if captive_portal {
            Some(Route::CaptivePortal)
        } else {
            None
        },
{
    reveal_strlit("/");
    reveal_strlit("/api/config");
    reveal_strlit("/api/config/default");
    reveal_strlit("/api/wifi/scan");
    reveal_strlit("/api/network");
    reveal_strlit("/api/status");
    reveal_strlit("/api/tcp");
    reveal_strlit("/api/rpm");
    reveal_strlit("/api/metrics");
    reveal_strlit("/api/sockets");
    reveal_strlit("/api/debug_info");
    reveal_strlit("/api/capture");
    reveal_strlit("/api/capture/status");
    reveal_strlit("/api/ota/info");
    reveal_strlit("/api/ota/status");
    assert("/"@.len() == 1);
    assert("/api/config"@.len() == 11);
    assert("/api/config/default"@.len() == 19);
    assert("/api/wifi/scan"@.len() == 14);
    assert("/api/network"@.len() == 12);
    assert("/api/status"@.len() == 11);
    assert("/api/tcp"@.len() == 8);
    assert("/api/rpm"@.len() == 8);
    assert("/api/metrics"@.len() == 12);
    assert("/api/sockets"@.len() == 12);
    assert("/api/debug_info"@.len() == 15);
    assert("/api/capture"@.len() == 12);
    assert("/api/capture/status"@.len() == 19);
    assert("/api/ota/info"@.len() == 13);
    assert("/api/ota/status"@.len() == 15);
    assert("/api/config"@[5] == 'c' && "/api/status"@[5] == 's');
    assert("/api/config/default"@[6] == 'o' && "/api/capture/status"@[6] == 'a');
    assert("/api/network"@[5] == 'n' && "/api/metrics"@[5] == 'm');
    assert("/api/network"@[5] == 'n' && "/api/sockets"@[5] == 's');
    assert("/api/network"@[5] == 'n' && "/api/capture"@[5] == 'c');
    assert("/api/tcp"@[5] == 't' && "/api/rpm"@[5] == 'r');
    assert("/api/metrics"@[5] == 'm' && "/api/sockets"@[5] == 's');
    assert("/api/metrics"@[5] == 'm' && "/api/capture"@[5] == 'c');
    assert("/api/sockets"@[5] == 's' && "/api/capture"@[5] == 'c');
    assert("/api/debug_info"@[5] == 'd' && "/api/ota/status"@[5] == 'o');
}

/// Each action is taken under its own path, and under no other one.
pub proof fn law_actions_are_found(path: Seq<char>, captive_portal: bool)
    ensures
        route_of(Method::Post, "/api/config/check"@, captive_portal) == Some(Route::CheckConfig),
        route_of(Method::Post, "/api/config"@, captive_portal) == Some(Route::PostConfig),
        route_of(Method::Post, "/api/brightness"@, captive_portal) == Some(Route::PostBrightness),
        route_of(Method::Post, "/api/reboot"@, captive_portal) == Some(Route::Reboot),
        route_of(Method::Post, "/api/capture/clear"@, captive_portal) == Some(Route::CaptureClear),
        route_of(Method::Post, "/api/capture/start"@, captive_portal) == Some(Route::CaptureStart),
        route_of(Method::Post, "/api/capture/stop"@, captive_portal) == Some(Route::CaptureStop),
        route_of(Method::Post, "/api/ota/upload"@, captive_portal) == Some(Route::OtaUpload),
        route_of(Method::Post, "/api/ota/download"@, captive_portal) == Some(Route::OtaDownload),
        path != "/api/config/check"@
            && path != "/api/config"@
            && path != "/api/brightness"@
            && path != "/api/reboot"@
            && path != "/api/capture/clear"@
            && path != "/api/capture/start"@
            && path != "/api/capture/stop"@
            && path != "/api/ota/upload"@
            && path != "/api/ota/download"@
            ==> route_of(Method::Post, path, captive_portal) == None::<Route>,
{
    reveal_strlit("/api/config/check");
    reveal_strlit("/api/config");
    reveal_strlit("/api/brightness");
    reveal_strlit("/api/reboot");
    reveal_strlit("/api/capture/clear");
    reveal_strlit("/api/capture/start");
    reveal_strlit("/api/capture/stop");
    reveal_strlit("/api/ota/upload");
    reveal_strlit("/api/ota/download");
    assert("/api/config/check"@.len() == 17);
    assert("/api/config"@.len() == 11);
    assert("/api/brightness"@.len() == 15);
    assert("/api/reboot"@.len() == 11);
    assert("/api/capture/clear"@.len() == 18);
    assert("/api/capture/start"@.len() == 18);
    assert("/api/capture/stop"@.len() == 17);
    assert("/api/ota/upload"@.len() == 15);
    assert("/api/ota/download"@.len() == 17);
    assert("/api/config/check"@[6] == 'o' && "/api/capture/stop"@[6] == 'a');
    assert("/api/config/check"@[5] == 'c' && "/api/ota/download"@[5] == 'o');
    assert("/api/config"@[5] == 'c' && "/api/reboot"@[5] == 'r');
    assert("/api/brightness"@[5] == 'b' && "/api/ota/upload"@[5] == 'o');
    assert("/api/capture/clear"@[13] == 'c' && "/api/capture/start"@[13] == 's');
    assert("/api/capture/stop"@[5] == 'c' && "/api/ota/download"@[5] == 'o');
}

/// A path leads to a page and back: no two paths share a route.
pub proof fn law_routes_are_apart(one: Seq<char>, other: Seq<char>, method: Method)
    requires
        route_of(method, one, false) is Some,
        route_of(method, one, false) == route_of(method, other, false),
    ensures
        one == other,
{
}

/// A restart is taken for what moves hardware or touches a network, and for nothing
/// else.
pub proof fn law_restart_is_for_pins_and_networks(current: Config, new: Config)
    ensures
        takes_restart(current, new) <==> !same_pins(current, new) || !same_network(current, new),
        !takes_restart(current, current),
{
}

/// A successful answer says so, and others give no reason; neither has a header.
pub proof fn law_plain_replies(r: Reply, status: u16, body: Seq<char>)
    requires
        is_plain(r, status, body),
    ensures
        r.status == status,
        r.body@ == body,
        r.headers@.len() == 0,
        r.reason is Some <==> status == 200,
        r.reason matches Some(reason) ==> reason@ =~= seq!['O', 'K'],
{
    reveal_strlit("OK");
}

/// A network is shown with a signal that was found for its name and that none of its
/// name exceeds; hidden networks are not shown.
pub proof fn law_strongest_signal_is_shown(found: Seq<Network>, network: Network, k: int)
    requires
        is_strongest(found, network),
        0 <= k < found.len(),
        found[k].ssid@ == network.ssid@,
    ensures
        network.ssid@ != Seq::<char>::empty(),
        found[k].rssi <= network.rssi,
        exists|j: int|
            0 <= j < found.len() && (#[trigger] found[j]).ssid@ == network.ssid@ && found[j].rssi
                == network.rssi,
{
}

/// Networks of different names are listed apart.
pub proof fn law_names_are_listed_once(networks: Seq<Network>, i: int, j: int)
    requires
        distinct_names(networks),
        0 <= i < networks.len(),
        0 <= j < networks.len(),
        networks[i].ssid@ == networks[j].ssid@,
    ensures
        i == j,
        lists(networks, networks[i].ssid@),
{
    if i < j {
        assert(networks[i].ssid@ != networks[j].ssid@);
    } else if j < i {
        assert(networks[j].ssid@ != networks[i].ssid@);
    }
}

/// A MAC address is six pairs of digits, in order, with colons between them.
pub proof fn law_mac_addresses(mac: Seq<u8>, i: int)
    requires
        mac.len() == 6,
        0 <= i < 6,
    ensures
        mac_text_of(mac).len() == 17,
        mac_text_of(mac).subrange(3 * i, 3 * i + 2) =~= chars_of_bytes(hex_pair(mac[i])),
        i < 5 ==> mac_text_of(mac)[3 * i + 2] == ':',
{
    assert(hex_pair(mac[0]).len() == 2);
    assert(hex_pair(mac[i]).len() == 2);
}

/// An address is its four numbers with dots between them.
pub proof fn law_addresses_have_four_numbers(ip: Seq<u8>)
    requires
        ip.len() == 4,
    ensures
        ({
            let first = decimal_text(ip[0] as nat) + seq!['.'] + decimal_text(ip[1] as nat);
            let second = decimal_text(ip[2] as nat) + seq!['.'] + decimal_text(ip[3] as nat);
            ip_text_of(ip) =~= first + seq!['.'] + second
        }),
{
}

/// A network's name is what stands before the first zero byte, or all of it.
pub proof fn law_names_end_at_zero(bytes: Seq<u8>)
    ensures
        before_zero(bytes).len() <= bytes.len(),
        before_zero(bytes) =~= bytes.take(before_zero(bytes).len() as int),
        !before_zero(bytes).contains(0),
        before_zero(bytes).len() < bytes.len() ==> bytes[before_zero(bytes).len() as int] == 0,
    decreases bytes.len(),
{
    if bytes.len() > 0 && bytes[0] != 0 {
        let rest = bytes.drop_first();
        law_names_end_at_zero(rest);
        let name = before_zero(bytes);
        let tail = before_zero(rest);
        assert(name =~= seq![bytes[0]] + tail);
        assert forall|i: int| 0 <= i < name.len() implies name[i] == bytes[i] && name[i] != 0 by {
            if i > 0 {
                assert(name[i] == tail[i - 1]);
                assert(tail[i - 1] == rest.take(tail.len() as int)[i - 1]);
                assert(tail.contains(tail[i - 1]));
            }
        }
        if tail.len() < rest.len() {
            assert(rest[tail.len() as int] == bytes[tail.len() as int + 1]);
        }
    }
}

/// The RPM is told as a number, and its absence as null.
pub proof fn law_rpm_is_told(rpm: u32)
    ensures
        rpm_json(Some(rpm)) =~= seq!['{', '"', 'r', 'p', 'm', '"', ':'] + decimal_text(rpm as nat)
            + seq!['}'],
        rpm_json(None) =~= seq!['{', '"', 'r', 'p', 'm', '"', ':', 'n', 'u', 'l', 'l', '}'],
{
    reveal_strlit("{\"rpm\":");
    reveal_strlit("{\"rpm\":null}");
    reveal_strlit("}");
}

/// The port has no part in a host, nor has case.
pub proof fn law_hosts_have_no_port(header: Seq<char>, host: Seq<char>, port: Seq<char>)
    requires
        !host.contains(':'),
    ensures
        lowercase(header) == host ==> host_in(header) =~= host,
        lowercase(header) == host + seq![':'] + port ==> host_in(header) =~= host,
{
    let lower = lowercase(header);
    lemma_find_char(lower, ':');
    let found = find_char(lower, ':');
    if lower == host {
        if found < lower.len() {
            assert(host[found] == ':');
        }
    }
    if lower == host + seq![':'] + port {
        assert(lower[host.len() as int] == ':');
        if found < host.len() {
            assert(host[found] == ':');
        }
    }
}

/// The device answers to its name, to that name in `.local`, and to its address; it
/// sends everyone else to its address.
pub proof fn law_own_hosts(header: Seq<char>, hostname: Seq<char>, ap_ip: Seq<u8>)
    ensures
        is_own_host(header, hostname, ap_ip) <==> {
            ||| host_in(header) == hostname
            ||| host_in(header) == hostname + seq!['.', 'l', 'o', 'c', 'a', 'l']
            ||| host_in(header) == ip_text_of(ap_ip)
        },
        portal_url(ap_ip) =~= seq!['h', 't', 't', 'p', ':', '/', '/'] + ip_text_of(ap_ip) + seq!['/'],
{
    reveal_strlit(".local");
    reveal_strlit("http://");
    reveal_strlit("/");
    assert(".local"@ =~= seq!['.', 'l', 'o', 'c', 'a', 'l']);
}

/// A redirection names the portal's address in its header and twice in its page.
pub proof fn law_redirects_lead_to_the_portal(r: Reply, ap_ip: Seq<u8>)
    requires
        is_portal_redirect(r, ap_ip),
    ensures
        r.status == 302,
        r.headers@[0].1@ == portal_url(ap_ip),
        exists|a: Seq<char>, b: Seq<char>, c: Seq<char>|
            r.body@ == #[trigger] (a + portal_url(ap_ip) + b + portal_url(ap_ip) + c),
{
}

/// A capture file is its records and 64 bytes in front of them.
pub proof fn law_capture_files_have_a_header(records: nat)
    ensures
        capture_file_length(records) == 64 + records,
{
}

/// Escaping goes character by character: a quote or a backslash gets a backslash in
/// front, and any other character stays.
pub proof fn law_escaping_goes_by_character(s: Seq<char>, c: char)
    ensures
        escaped(Seq::<char>::empty()) =~= Seq::<char>::empty(),
        c == '"' ==> escaped(s.push(c)) =~= escaped(s) + seq!['\\', '"'],
        c == '\\' ==> escaped(s.push(c)) =~= escaped(s) + seq!['\\', '\\'],
        c != '"' && c != '\\' ==> escaped(s.push(c)) =~= escaped(s) + seq![c],
{
    assert(s.push(c).drop_last() =~= s);
}

/// No quote is left bare: in an escaped text a backslash stands in front of each.
pub proof fn law_no_bare_quote(s: Seq<char>, i: int)
    requires
        0 <= i < escaped(s).len(),
        escaped(s)[i] == '"',
    ensures
        i > 0 && escaped(s)[i - 1] == '\\',
    decreases s.len(),
{
    if s.len() > 0 {
        let front = escaped(s.drop_last());
        if i < front.len() {
            assert(front[i] == '"');
            law_no_bare_quote(s.drop_last(), i);
            assert(escaped(s)[i - 1] == front[i - 1]);
        }
    }
}

/// The status of an update starts with its number; the message of an error is there
/// exactly if there was one.
pub proof fn law_update_status(status: u8, progress: u8, error: Seq<char>)
    ensures
        ({
            let known = seq!['{', '"', 's', 't', 'a', 't', 'u', 's', '"', ':'] + decimal_text(
                status as nat,
            ) + seq![',', '"', 'p', 'r', 'o', 'g', 'r', 'e', 's', 's', '"', ':'] + decimal_text(
                progress as nat,
            );
            &&& status == 255 ==> ota_status_json(status, progress, error) =~= known + seq![
                ',',
                '"',
                'e',
                'r',
                'r',
                'o',
                'r',
                '"',
                ':',
                '"',
            ] + escaped(error) + seq!['"', '}']
            &&& status != 255 ==> ota_status_json(status, progress, error) =~= known + seq!['}']
        }),
{
    reveal_strlit("{\"status\":");
    reveal_strlit(",\"progress\":");
    reveal_strlit(",\"error\":\"");
    reveal_strlit("\"}");
    reveal_strlit("}");
}

/// A number below zero is told as its size behind a minus sign.
pub proof fn law_signs_are_told(n: int)
    ensures
        n >= 0 ==> signed_text(n) == decimal_text(n as nat),
        n > 0 ==> signed_text(-n) =~= seq!['-'] + decimal_text(n as nat),
{
}

/// A socket is told with its number and its two ends; an end that is not known is told
/// as such.
pub proof fn law_sockets_are_told(s: SocketInfo)
    ensures
        (seq![' ', ' ', 'f', 'd', '='] + signed_text(s.fd as int) + seq![':', ' ']).is_prefix_of(
            socket_text(s),
        ),
        !(s.socket_type is Unknown) ==> {
            let tail = seq![' ', '-', '>', ' '] + match s.remote {
                Some(address) => address@,
                None => seq!['-'],
            };
            let middle = (if s.socket_type is Tcp {
                seq!['T', 'C', 'P', ' ']
            } else {
                seq!['U', 'D', 'P', ' ']
            }) + match s.local {
                Some(address) => address@,
                None => seq!['?'],
            };
            socket_text(s) =~= seq![' ', ' ', 'f', 'd', '='] + signed_text(s.fd as int) + seq![
                ':',
                ' ',
            ] + middle + tail
        },
{
    reveal_strlit("  fd=");
    reveal_strlit(": ");
    reveal_strlit("?");
    reveal_strlit("-");
    reveal_strlit("TCP ");
    reveal_strlit("UDP ");
    reveal_strlit(" -> ");
    let head = seq![' ', ' ', 'f', 'd', '='] + signed_text(s.fd as int) + seq![':', ' '];
    assert("  fd="@ + signed_text(s.fd as int) + ": "@ =~= head);
    assert(socket_text(s).subrange(0, head.len() as int) =~= head);
}

/// The logged commands are ordered as in a dictionary: of two texts that differ, the
/// first character in which they do decides, and a beginning comes before the whole.
pub proof fn law_texts_are_ordered(common: Seq<char>, x: Seq<char>, y: Seq<char>)
    ensures
        text_le(common, common + x),
        x.len() > 0 && y.len() > 0 && x[0] < y[0] ==> text_le(common + x, common + y) && !text_le(
            common + y,
            common + x,
        ),
        x.len() > 0 ==> !text_le(common + x, common),
    decreases common.len(),
{
    if common.len() > 0 {
        let rest = common.drop_first();
        law_texts_are_ordered(rest, x, y);
        assert((common + x).drop_first() =~= rest + x);
        assert((common + y).drop_first() =~= rest + y);
    } else {
        assert(common + x =~= x);
        assert(common + y =~= y);
    }
}

/// An answer in JSON says so in its one header.
pub proof fn law_json_replies(r: Reply, status: u16, reason: Seq<char>, body: Seq<char>)
    requires
        is_json(r, status, reason, body),
    ensures
        r.status == status,
        r.body@ == body,
        r.reason is Some && r.reason->0@ == reason,
        r.headers@.len() == 1,
        r.headers@[0].0@ =~= seq!['C', 'o', 'n', 't', 'e', 'n', 't', '-', 'T', 'y', 'p', 'e'],
        r.headers@[0].1@.skip(12) =~= seq!['j', 's', 'o', 'n'],
{
    reveal_strlit("Content-Type");
    reveal_strlit("application/json");
}

/// A redirection is not kept: it is for this request, and the connection ends with it.
pub proof fn law_redirects_are_not_kept(r: Reply, ap_ip: Seq<u8>)
    requires
        is_portal_redirect(r, ap_ip),
    ensures
        r.headers@.len() == 3,
        r.headers@[0].0@ =~= seq!['L', 'o', 'c', 'a', 't', 'i', 'o', 'n'],
        r.headers@[1].1@ =~= seq!['n', 'o', '-', 'c', 'a', 'c', 'h', 'e'],
        r.headers@[2].0@ =~= seq!['C', 'o', 'n', 'n', 'e', 'c', 't', 'i', 'o', 'n'],
        r.headers@[2].1@ =~= seq!['c', 'l', 'o', 's', 'e'],
{
    reveal_strlit("Location");
    reveal_strlit("no-cache");
    reveal_strlit("Connection");
    reveal_strlit("close");
}

} // verus!
