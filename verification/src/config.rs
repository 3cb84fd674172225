//! Device configuration: its defaults, its valid ranges, and what changing it
//! takes.

use crate::colors::{ColorStops, RGB8};
use crate::obd2::parse::PidDataLengths;
use crate::obd2::polling::SlowPollMode;
use crate::shift_lights::LedRule;
use crate::text::{chars_of_bytes, hex_pair, push_upper_hex, same_text};
use smallvec::SmallVec;
use vstd::prelude::*;

verus! {

/// Maximum OBD2 timeout to avoid triggering watchdog in dongle task
pub const MAX_OBD2_TIMEOUT_MS: u64 = 4500;

/// Smallest capture buffer: 16 KB.
pub const MIN_CAPTURE_BUFFER_SIZE: u32 = 16384;

/// Largest capture buffer: 6 MB. This preserves about 2 MB of the 8 MB PSRAM
/// for TLS, WiFi, and heap allocations.
pub const MAX_CAPTURE_BUFFER_SIZE: u32 = 6291456;

/// A named collection of LED rule configurations.
///
/// Profiles allow users to switch between different shift light setups
/// (e.g., "Street", "Track", "Economy") without reconfiguring each time.
#[derive(Debug, Clone)]
pub struct LedProfile {
    pub name: String,
    pub rules: Vec<LedRule>,
    /// RPM value to show when previewing this profile (e.g., when cycling profiles)
    pub preview_rpm: u32,
}

/// Configurable log level
#[derive(Debug, Clone, Copy, PartialEq, Eq, Structural)]
pub enum LogLevel {
    Off,
    Error,
    Warn,
    Info,
    Debug,
}

/// What a logger lets through.
#[derive(Debug, Clone, Copy, PartialEq, Eq, Structural)]
pub enum LevelFilter {
    Off,
    Error,
    Warn,
    Info,
    Debug,
    Trace,
}

impl Default for LogLevel {
    fn default() -> (r: Self)
        ensures
            r == LogLevel::Info,
    {
        LogLevel::Info
    }
}

impl LogLevel {
    /// The filter of this level.
    pub fn as_level_filter(self) -> (r: LevelFilter)
        ensures
            r == match self {
                LogLevel::Off => LevelFilter::Off,
                LogLevel::Error => LevelFilter::Error,
                LogLevel::Warn => LevelFilter::Warn,
                LogLevel::Info => LevelFilter::Info,
                LogLevel::Debug => LevelFilter::Debug,
            },
    {
        match self {
            LogLevel::Off => LevelFilter::Off,
            LogLevel::Error => LevelFilter::Error,
            LogLevel::Warn => LevelFilter::Warn,
            LogLevel::Info => LevelFilter::Info,
            LogLevel::Debug => LevelFilter::Debug,
        }
    }
}

/// The network to join.
#[derive(Debug, Clone)]
pub struct WifiConfig {
    pub ssid: String,
    pub password: Option<String>,
}

impl Default for WifiConfig {
    fn default() -> (r: Self)
        ensures
            r.ssid@ == "V-LINK"@,
            r.password is None,
    {
        WifiConfig { ssid: "V-LINK".to_owned(), password: None }
    }
}

/// How the device gets its address on that network.
#[derive(Debug, Clone)]
pub struct IpConfig {
    pub use_dhcp: bool,
    /// Static IP address (used when `use_dhcp` is false)
    pub ip: String,
    /// Subnet prefix length (e.g., 24 for /24). Defaults to 24.
    pub prefix_len: u8,
}

/// The static address to start from.
pub fn default_static_ip() -> (r: String)
    ensures
        r@ == "192.168.0.20"@,
{
    "192.168.0.20".to_owned()
}

impl Default for IpConfig {
    fn default() -> (r: Self)
        ensures
            r.use_dhcp,
            r.ip@ == "192.168.0.20"@,
            r.prefix_len == 24,
    {
        IpConfig { use_dhcp: true, ip: default_static_ip(), prefix_len: 24 }
    }
}

/// OBD2 network configuration
#[derive(Debug, Clone)]
pub struct Obd2Config {
    /// IP address of the OBD2 dongle
    pub dongle_ip: String,
    /// Port of the OBD2 dongle
    pub dongle_port: u16,
    /// Port to listen on for OBD2 clients
    pub listen_port: u16,
    /// Slow poll mode: interval or ratio
    pub slow_poll_mode: SlowPollMode,
    /// Interval between slow PID polls (ms) - used in interval mode
    pub slow_poll_interval_ms: u64,
    /// Ratio of fast requests per slow request - used in ratio mode
    pub slow_poll_ratio: u32,
    /// Wait time threshold (ms) for promoting slow PID to fast - used in ratio mode
    pub promotion_wait_threshold_ms: u64,
    /// Time without waiters before demoting fast PID to slow (ms)
    pub fast_demotion_ms: u64,
    /// Time without consumption before removing PID from polling (ms)
    pub pid_inactive_removal_ms: u64,
    /// Combine multiple PIDs into single commands (e.g., `010C0D0F`).
    /// Auto-detects ECU support on the first multi-PID attempt.
    pub use_multi_pid: bool,
    /// Maximum PIDs per multi-PID command (1-6, OBD2 limits it to 6)
    pub max_pids_per_query: u8,
    /// Use repeat command for identical consecutive queries
    pub use_repeat: bool,
    /// Repeat command string (empty = bare CR)
    pub repeat_string: String,
    /// Enable CAN framing (ATH1) for header parsing
    pub use_framing: bool,
    /// Enable pipelined queries (keep 1 request in-flight).
    pub use_pipelining: bool,
    /// Enable traffic capture to PSRAM buffer
    pub capture_enabled: bool,
    /// Capture buffer size in bytes (16KB - 6MB)
    pub capture_buffer_size: u32,
}

impl Default for Obd2Config {
    fn default() -> (r: Self)
        ensures
            r.dongle_ip@ == "192.168.0.10"@,
            r.dongle_port == 35000,
            r.listen_port == 35000,
            r.slow_poll_mode == SlowPollMode::Ratio,
            r.slow_poll_interval_ms == 450,
            r.slow_poll_ratio == 6,
            r.promotion_wait_threshold_ms == 40,
            r.fast_demotion_ms == 2000,
            r.pid_inactive_removal_ms == 4000,
            !r.use_multi_pid,
            r.max_pids_per_query == 6,
            !r.use_repeat,
            r.repeat_string@ == ""@,
            !r.use_framing,
            !r.use_pipelining,
            !r.capture_enabled,
            r.capture_buffer_size == 4 * 1024 * 1024,
    {
        Obd2Config {
            dongle_ip: "192.168.0.10".to_owned(),
            dongle_port: 35000,
            listen_port: 35000,
            slow_poll_mode: SlowPollMode::default(),
            slow_poll_interval_ms: 450,
            slow_poll_ratio: 6,
            promotion_wait_threshold_ms: 40,
            fast_demotion_ms: 2000,
            pid_inactive_removal_ms: 4000,
            use_multi_pid: false,
            max_pids_per_query: 6,
            use_repeat: false,
            repeat_string: "".to_owned(),
            use_framing: false,
            use_pipelining: false,
            capture_enabled: false,
            capture_buffer_size: 4194304,
        }
    }
}

/// Everything that can be configured.
#[derive(Debug, Clone)]
pub struct Config {
    pub wifi: WifiConfig,
    pub ip: IpConfig,
    pub obd2: Obd2Config,
    /// AP SSID (defaults to "TachTalk-XXXX" where XXXX is derived from MAC)
    pub ap_ssid: String,
    pub ap_password: Option<String>,
    /// AP IP address for the access point interface
    pub ap_ip: [u8; 4],
    /// AP subnet prefix length (e.g., 24 for /24)
    pub ap_prefix_len: u8,
    pub log_level: LogLevel,
    /// LED profiles (named collections of LED rules)
    pub profiles: Vec<LedProfile>,
    /// Index of the currently active profile
    pub active_profile: usize,
    pub total_leds: usize,
    pub led_gpio: u8,
    pub obd2_timeout_ms: u64,
    /// LED brightness (0-255)
    pub brightness: u8,
    /// Dump CPU metrics to serial console every 5 seconds
    pub dump_cpu_metrics: bool,
    /// Dump socket info to serial console every 5 seconds
    pub dump_socket_info: bool,
    /// Rotary encoder pin A (CLK) - set to 0 to disable encoder
    pub encoder_pin_a: u8,
    /// Rotary encoder pin B (DT) - set to 0 to disable encoder
    pub encoder_pin_b: u8,
    /// Profile switch button pin - set to 0 to disable button
    pub button_pin: u8,
    /// Status LED red (WiFi) GPIO pin - set to 0 to disable
    pub status_led_red_pin: u8,
    /// Status LED yellow (dongle) GPIO pin - set to 0 to disable
    pub status_led_yellow_pin: u8,
    /// Status LED green (clients) GPIO pin - set to 0 to disable
    pub status_led_green_pin: u8,
    /// Status LED activity timeout in ms (LED returns to solid-on after this long without activity)
    pub status_led_flicker_ms: u16,
    /// Turn off RGB LEDs after this many ms without an RPM update (0 = disabled)
    pub rpm_stale_timeout_ms: u16,
}

/// The access point name that goes with a station MAC address.
pub open spec fn ap_ssid_for(mac: Seq<u8>) -> Seq<char> {
    "TachTalk-"@ + chars_of_bytes(hex_pair(mac[4])) + chars_of_bytes(hex_pair(mac[5]))
}

/// Generate default AP SSID from WiFi MAC address
pub fn default_ap_ssid(mac: [u8; 6]) -> (r: String)
    ensures
        r@ == ap_ssid_for(mac@),
        r@.len() > 0,
{
    let mut ssid: String = "TachTalk-".to_owned();
    push_upper_hex(&mut ssid, mac[4]);
    push_upper_hex(&mut ssid, mac[5]);
    ssid
}

// ---------------------------------------------------------------------------
// Profiles
// ---------------------------------------------------------------------------

/// A rule with the given settings.
pub open spec fn is_rule(
    rule: LedRule,
    name: Seq<char>,
    rpm: (u32, Option<u32>),
    leds: (usize, usize),
    colors: Seq<RGB8>,
    blink: (bool, u32),
) -> bool {
    &&& rule.name@ == name
    &&& rule.rpm_lower == rpm.0
    &&& rule.rpm_upper == rpm.1
    &&& rule.start_led == leds.0
    &&& rule.end_led == leds.1
    &&& rule.colors@ == colors
    &&& rule.blink == blink.0
    &&& rule.blink_ms == blink.1
}

fn make_rule(
    name: &str,
    rpm: (u32, Option<u32>),
    leds: (usize, usize),
    colors: &[RGB8],
    blink: (bool, u32),
) -> (r: LedRule)
    ensures
        is_rule(r, name@, rpm, leds, colors@, blink),
{
    LedRule {
        name: name.to_owned(),
        rpm_lower: rpm.0,
        rpm_upper: rpm.1,
        start_led: leds.0,
        end_led: leds.1,
        colors: ColorStops::of(colors),
        blink: blink.0,
        blink_ms: blink.1,
    }
}

/// A rule of a single color.
fn make_solid_rule(
    name: &str,
    rpm_lower: u32,
    leds: (usize, usize),
    color: RGB8,
    blink: (bool, u32),
) -> (r: LedRule)
    ensures
        is_rule(r, name@, (rpm_lower, None), leds, seq![color], blink),
{
    let colors: [RGB8; 1] = [color];
    assert(colors@ =~= seq![color]);
    make_rule(name, (rpm_lower, None), leds, colors.as_slice(), blink)
}

/// Red, green and blue of a color as one value.
pub open spec fn rgb(r: u8, g: u8, b: u8) -> RGB8 {
    RGB8 { r, g, b }
}

/// The profile that lights one group of three LEDs after another.
pub open spec fn is_default_profile(p: LedProfile) -> bool {
    &&& p.name@ == "Default"@
    &&& p.preview_rpm == 2900
    &&& p.rules@.len() == 7
    &&& is_rule(p.rules@[0], "Off"@, (0, None), (0, 11), seq![rgb(0, 0, 0)], (false, 500))
    &&& is_rule(p.rules@[1], "Blue"@, (1000, None), (0, 2), seq![rgb(0, 0, 255)], (false, 500))
    &&& is_rule(p.rules@[2], "Green"@, (1500, None), (3, 5), seq![rgb(0, 255, 0)], (false, 500))
    &&& is_rule(p.rules@[3], "Yellow"@, (2000, None), (6, 8), seq![rgb(255, 255, 0)], (false, 500))
    &&& is_rule(p.rules@[4], "Red"@, (2500, None), (9, 11), seq![rgb(255, 0, 0)], (false, 500))
    &&& is_rule(p.rules@[5], "Off"@, (3000, None), (0, 11), seq![rgb(0, 0, 0)], (false, 500))
    &&& is_rule(p.rules@[6], "Shift"@, (3000, None), (0, 11), seq![rgb(0, 0, 255)], (true, 500))
}

/// The profile that lights one group of three LEDs after another.
pub fn default_profile() -> (r: LedProfile)
    ensures
        is_default_profile(r),
{
    let mut rules: Vec<LedRule> = Vec::new();
    rules.push(make_solid_rule("Off", 0, (0, 11), RGB8::new(0, 0, 0), (false, 500)));
    rules.push(make_solid_rule("Blue", 1000, (0, 2), RGB8::new(0, 0, 255), (false, 500)));
    rules.push(make_solid_rule("Green", 1500, (3, 5), RGB8::new(0, 255, 0), (false, 500)));
    rules.push(make_solid_rule("Yellow", 2000, (6, 8), RGB8::new(255, 255, 0), (false, 500)));
    rules.push(make_solid_rule("Red", 2500, (9, 11), RGB8::new(255, 0, 0), (false, 500)));
    rules.push(make_solid_rule("Off", 3000, (0, 11), RGB8::new(0, 0, 0), (false, 500)));
    rules.push(make_solid_rule("Shift", 3000, (0, 11), RGB8::new(0, 0, 255), (true, 500)));
    LedProfile { name: "Default".to_owned(), rules, preview_rpm: 2900 }
}

/// The profile that runs through the colors of the rainbow.
pub open spec fn is_rainbow_profile(p: LedProfile) -> bool {
    &&& p.name@ == "Rainbow"@
    &&& p.preview_rpm == 2900
    &&& p.rules@.len() == 2
    &&& is_rule(
        p.rules@[0],
        "Rainbow"@,
        (1000, Some(3000)),
        (0, 12),
        seq![
            rgb(0, 0, 255),
            rgb(0, 255, 255),
            rgb(0, 255, 0),
            rgb(255, 255, 0),
            rgb(255, 0, 0),
        ],
        (false, 500),
    )
    &&& is_rule(p.rules@[1], "Shift"@, (3000, None), (0, 12), seq![rgb(0, 0, 255)], (true, 100))
}

/// The profile that runs through the colors of the rainbow.
pub fn rainbow_profile() -> (r: LedProfile)
    ensures
        is_rainbow_profile(r),
{
    let colors: [RGB8; 5] = [
        RGB8::new(0, 0, 255),
        RGB8::new(0, 255, 255),
        RGB8::new(0, 255, 0),
        RGB8::new(255, 255, 0),
        RGB8::new(255, 0, 0),
    ];
    assert(colors@ =~= seq![
        rgb(0, 0, 255),
        rgb(0, 255, 255),
        rgb(0, 255, 0),
        rgb(255, 255, 0),
        rgb(255, 0, 0),
    ]);
    let mut rules: Vec<LedRule> = Vec::new();
    rules.push(
        make_rule("Rainbow", (1000, Some(3000)), (0, 12), colors.as_slice(), (false, 500)),
    );
    rules.push(make_solid_rule("Shift", 3000, (0, 12), RGB8::new(0, 0, 255), (true, 100)));
    LedProfile { name: "Rainbow".to_owned(), rules, preview_rpm: 2900 }
}

/// The profile that lights up from both ends toward the middle.
pub open spec fn is_martijn_profile(p: LedProfile) -> bool {
    let blue_to_red = seq![rgb(0, 0, 255), rgb(255, 0, 0)];
    &&& p.name@ == "Martijn"@
    &&& p.preview_rpm == 2900
    &&& p.rules@.len() == 3
    &&& is_rule(p.rules@[0], "Left"@, (1000, Some(3000)), (0, 5), blue_to_red, (false, 500))
    &&& is_rule(p.rules@[1], "Right"@, (1000, Some(3000)), (11, 6), blue_to_red, (false, 500))
    &&& is_rule(p.rules@[2], "Shift"@, (3000, None), (0, 11), seq![rgb(0, 0, 0)], (true, 100))
}

/// The profile that lights up from both ends toward the middle.
pub fn martijn_profile() -> (r: LedProfile)
    ensures
        is_martijn_profile(r),
{
    let colors: [RGB8; 2] = [RGB8::new(0, 0, 255), RGB8::new(255, 0, 0)];
    assert(colors@ =~= seq![rgb(0, 0, 255), rgb(255, 0, 0)]);
    let mut rules: Vec<LedRule> = Vec::new();
    rules.push(make_rule("Left", (1000, Some(3000)), (0, 5), colors.as_slice(), (false, 500)));
    rules.push(make_rule("Right", (1000, Some(3000)), (11, 6), colors.as_slice(), (false, 500)));
    rules.push(make_solid_rule("Shift", 3000, (0, 11), RGB8::new(0, 0, 0), (true, 100)));
    LedProfile { name: "Martijn".to_owned(), rules, preview_rpm: 2900 }
}

/// The profiles that a new device comes with.
pub open spec fn are_default_profiles(profiles: Seq<LedProfile>) -> bool {
    &&& profiles.len() == 3
    &&& is_default_profile(profiles[0])
    &&& is_rainbow_profile(profiles[1])
    &&& is_martijn_profile(profiles[2])
}

/// The profiles that a new device comes with.
pub fn default_profiles() -> (r: Vec<LedProfile>)
    ensures
        are_default_profiles(r@),
{
    let mut profiles: Vec<LedProfile> = Vec::new();
    profiles.push(default_profile());
    profiles.push(rainbow_profile());
    profiles.push(martijn_profile());
    profiles
}

// ---------------------------------------------------------------------------
// The whole configuration
// ---------------------------------------------------------------------------

/// Every value lies in its valid range, and no name or address is empty.
pub open spec fn is_valid(c: Config) -> bool {
    &&& c.obd2_timeout_ms <= MAX_OBD2_TIMEOUT_MS
    &&& c.wifi.ssid@.len() > 0
    &&& c.ap_ssid@.len() > 0
    &&& c.ip.ip@.len() > 0
    &&& MIN_CAPTURE_BUFFER_SIZE <= c.obd2.capture_buffer_size <= MAX_CAPTURE_BUFFER_SIZE
}

/// A capture buffer size in its valid range.
pub open spec fn valid_buffer_size(size: u32) -> u32 {
    if size < MIN_CAPTURE_BUFFER_SIZE {
        MIN_CAPTURE_BUFFER_SIZE
    } else if size > MAX_CAPTURE_BUFFER_SIZE {
        MAX_CAPTURE_BUFFER_SIZE
    } else {
        size
    }
}

/// The configuration of a new device with the given station MAC address.
pub open spec fn is_default_config(r: Config, mac: Seq<u8>) -> bool {
    &&& r.wifi.ssid@ == "V-LINK"@
    &&& r.wifi.password is None
    &&& r.ip.use_dhcp
    &&& r.ip.ip@ == "192.168.0.20"@
    &&& r.ip.prefix_len == 24
    &&& r.obd2.dongle_ip@ == "192.168.0.10"@
    &&& r.obd2.dongle_port == 35000
    &&& r.obd2.listen_port == 35000
    &&& r.obd2.slow_poll_mode == SlowPollMode::Ratio
    &&& r.obd2.slow_poll_interval_ms == 450
    &&& r.obd2.slow_poll_ratio == 6
    &&& r.obd2.promotion_wait_threshold_ms == 40
    &&& r.obd2.fast_demotion_ms == 2000
    &&& r.obd2.pid_inactive_removal_ms == 4000
    &&& !r.obd2.use_multi_pid
    &&& r.obd2.max_pids_per_query == 6
    &&& !r.obd2.use_repeat
    &&& r.obd2.repeat_string@ == ""@
    &&& !r.obd2.use_framing
    &&& !r.obd2.use_pipelining
    &&& !r.obd2.capture_enabled
    &&& r.obd2.capture_buffer_size == 4 * 1024 * 1024
    &&& r.ap_ssid@ == ap_ssid_for(mac)
    &&& r.ap_password is None
    &&& r.ap_ip@ == seq![10u8, 15, 25, 1]
    &&& r.ap_prefix_len == 24
    &&& r.log_level == LogLevel::Info
    &&& are_default_profiles(r.profiles@)
    &&& r.active_profile == 0
    &&& r.total_leds == 1
    &&& r.led_gpio == 48
    &&& r.obd2_timeout_ms == MAX_OBD2_TIMEOUT_MS
    &&& r.brightness == 255
    &&& !r.dump_cpu_metrics
    &&& !r.dump_socket_info
    &&& r.encoder_pin_a == 0
    &&& r.encoder_pin_b == 0
    &&& r.button_pin == 0
    &&& r.status_led_red_pin == 9
    &&& r.status_led_yellow_pin == 10
    &&& r.status_led_green_pin == 11
    &&& r.status_led_flicker_ms == 200
    &&& r.rpm_stale_timeout_ms == 1000
}

/// A configuration with its values clamped to their ranges, and with empty names
/// and addresses reset; everything else stays.
pub open spec fn is_validated(before: Config, after: Config, mac: Seq<u8>) -> bool {
    &&& if before.wifi.ssid@.len() == 0 {
        after.wifi.ssid@ == "V-LINK"@ && after.wifi.password is None
    } else {
        after.wifi == before.wifi
    }
    &&& if before.ap_ssid@.len() == 0 {
        after.ap_ssid@ == ap_ssid_for(mac)
    } else {
        after.ap_ssid == before.ap_ssid
    }
    &&& if before.ip.ip@.len() == 0 {
        after.ip.ip@ == "192.168.0.20"@
    } else {
        after.ip.ip == before.ip.ip
    }
    &&& after == Config {
        obd2_timeout_ms: if before.obd2_timeout_ms > MAX_OBD2_TIMEOUT_MS {
            MAX_OBD2_TIMEOUT_MS
        } else {
            before.obd2_timeout_ms
        },
        wifi: after.wifi,
        ap_ssid: after.ap_ssid,
        ip: IpConfig { ip: after.ip.ip, ..before.ip },
        obd2: Obd2Config {
            capture_buffer_size: valid_buffer_size(before.obd2.capture_buffer_size),
            ..before.obd2
        },
        ..before
    }
}

fn fix_timeout(timeout_ms: &mut u64)
    ensures
        *final(timeout_ms) == if *old(timeout_ms) > MAX_OBD2_TIMEOUT_MS {
            MAX_OBD2_TIMEOUT_MS
        } else {
            *old(timeout_ms)
        },
{
    if *timeout_ms > MAX_OBD2_TIMEOUT_MS {
        *timeout_ms = MAX_OBD2_TIMEOUT_MS;
    }
}

fn fix_wifi(wifi: &mut WifiConfig)
    ensures
        final(wifi).ssid@.len() > 0,
        if old(wifi).ssid@.len() == 0 {
            final(wifi).ssid@ == "V-LINK"@ && final(wifi).password is None
        } else {
            *final(wifi) == *old(wifi)
        },
{
    proof {
        reveal_strlit("V-LINK");
    }
    if wifi.ssid.as_str().is_empty() {
        *wifi = WifiConfig::default();
    }
}

fn fix_ap_ssid(ssid: &mut String, mac: [u8; 6])
    ensures
        final(ssid)@.len() > 0,
        if old(ssid)@.len() == 0 {
            final(ssid)@ == ap_ssid_for(mac@)
        } else {
            *final(ssid) == *old(ssid)
        },
{
    if ssid.as_str().is_empty() {
        *ssid = default_ap_ssid(mac);
    }
}

fn fix_static_ip(ip: &mut String)
    ensures
        final(ip)@.len() > 0,
        if old(ip)@.len() == 0 {
            final(ip)@ == "192.168.0.20"@
        } else {
            *final(ip) == *old(ip)
        },
{
    proof {
        reveal_strlit("192.168.0.20");
    }
    if ip.as_str().is_empty() {
        *ip = default_static_ip();
    }
}

fn fix_buffer_size(size: &mut u32)
    ensures
        *final(size) == valid_buffer_size(*old(size)),
{
    if *size < MIN_CAPTURE_BUFFER_SIZE {
        *size = MIN_CAPTURE_BUFFER_SIZE;
    } else if *size > MAX_CAPTURE_BUFFER_SIZE {
        *size = MAX_CAPTURE_BUFFER_SIZE;
    }
}

impl Config {
    /// The configuration of a new device with the given station MAC address.
    pub fn new_default(mac: [u8; 6]) -> (r: Config)
        ensures
            is_valid(r),
            is_default_config(r, mac@),
    {
        proof {
            reveal_strlit("V-LINK");
            reveal_strlit("192.168.0.20");
        }
        let ap_ip: [u8; 4] = [10, 15, 25, 1];
        assert(ap_ip@ =~= seq![10u8, 15, 25, 1]);
        Config {
            wifi: WifiConfig::default(),
            ip: IpConfig::default(),
            obd2: Obd2Config::default(),
            ap_ssid: default_ap_ssid(mac),
            ap_password: None,
            ap_ip,
            ap_prefix_len: 24,
            log_level: LogLevel::default(),
            profiles: default_profiles(),
            active_profile: 0,
            total_leds: 1,
            led_gpio: 48,
            obd2_timeout_ms: MAX_OBD2_TIMEOUT_MS,
            brightness: 255,
            dump_cpu_metrics: false,
            dump_socket_info: false,
            encoder_pin_a: 0,
            encoder_pin_b: 0,
            button_pin: 0,
            status_led_red_pin: 9,
            status_led_yellow_pin: 10,
            status_led_green_pin: 11,
            status_led_flicker_ms: 200,
            rpm_stale_timeout_ms: 1000,
        }
    }

    /// The rules of the active profile; none if there is no such profile.
    pub open spec fn rules_in_use(&self) -> Seq<LedRule> {
        if self.active_profile < self.profiles@.len() {
            self.profiles@[self.active_profile as int].rules@
        } else {
            Seq::empty()
        }
    }

    /// Get the LED rules from the active profile
    pub fn active_rules(&self) -> (r: &[LedRule])
        ensures
            r@ == self.rules_in_use(),
    {
        if self.active_profile < self.profiles.len() {
            self.profiles[self.active_profile].rules.as_slice()
        } else {
            let none: &[LedRule; 0] = &[];
            assert(none@ =~= Seq::empty());
            none.as_slice()
        }
    }

    /// Clamp values to valid ranges and fix invalid values
    pub fn validate(&mut self, mac: [u8; 6])
        ensures
            is_validated(*old(self), *final(self), mac@),
            is_valid(*final(self)),
            is_valid(*old(self)) ==> *final(self) == *old(self),
    {
        fix_timeout(&mut self.obd2_timeout_ms);
        fix_wifi(&mut self.wifi);
        fix_ap_ssid(&mut self.ap_ssid, mac);
        fix_static_ip(&mut self.ip.ip);
        fix_buffer_size(&mut self.obd2.capture_buffer_size);
    }

    /// The configuration to run with: the stored one with its values put in
    /// range, or that of a new device where none could be read.
    pub fn load_or_default(stored: Option<Config>, mac: [u8; 6]) -> (r: Config)
        ensures
            is_valid(r),
            match stored {
                Some(config) => is_validated(config, r, mac@),
                None => is_default_config(r, mac@),
            },
    {
        match stored {
            Some(config) => {
                let mut config = config;
                config.validate(mac);
                config
            },
            None => Config::new_default(mac),
        }
    }
}

/// Validating twice changes nothing more.
pub proof fn law_validating_is_final(before: Config, once: Config, twice: Config, mac: Seq<u8>)
    requires
        mac.len() == 6,
        is_validated(before, once, mac),
        is_validated(once, twice, mac),
    ensures
        is_valid(once),
        twice == once,
{
    reveal_strlit("V-LINK");
    reveal_strlit("192.168.0.20");
}

// ---------------------------------------------------------------------------
// Restarts
// ---------------------------------------------------------------------------

/// GPIO pins. Four of them are stored inline.
#[verifier::external_body]
#[derive(Debug)]
pub struct GpioPins {
    inner: SmallVec<[u8; 4]>,
}

/// The pins, in order.
pub uninterp spec fn pin_order(pins: GpioPins) -> Seq<u8>;

impl View for GpioPins {
    type V = Seq<u8>;

    open spec fn view(&self) -> Seq<u8> {
        pin_order(*self)
    }
}

impl GpioPins {
    /// `SmallVec::new`: no pin.
    #[verifier::external_body]
    fn new() -> (r: Self)
        ensures
            pin_order(r) == Seq::<u8>::empty(),
    {
        GpioPins { inner: SmallVec::new() }
    }

    /// `SmallVec::push` appends one pin.
    #[verifier::external_body]
    fn push(&mut self, pin: u8)
        ensures
            pin_order(*final(self)) == pin_order(*old(self)).push(pin),
    {
        self.inner.push(pin);
    }

    /// `SmallVec::as_slice`: the pins.
    #[verifier::external_body]
    fn as_slice(&self) -> (r: &[u8])
        ensures
            r@ == pin_order(*self),
    {
        self.inner.as_slice()
    }

    /// The pins, in order.
    pub fn pins(&self) -> (r: &[u8])
        ensures
            r@ == self@,
    {
        self.as_slice()
    }
}

/// The pin to reset when a pin's assignment changes. Pin 0 of anything but the
/// LED strip means that there is none.
pub open spec fn freed(current: u8, new: u8) -> Seq<u8> {
    if current != new && current != 0 {
        seq![current]
    } else {
        Seq::empty()
    }
}

/// The pins to reset before a restart with the new configuration.
pub open spec fn pins_to_reset(current: Config, new: Config) -> Seq<u8> {
    let strip = if current.led_gpio != new.led_gpio {
        seq![current.led_gpio]
    } else {
        Seq::empty()
    };
    strip + freed(current.encoder_pin_a, new.encoder_pin_a) + freed(
        current.encoder_pin_b,
        new.encoder_pin_b,
    ) + freed(current.button_pin, new.button_pin) + freed(
        current.status_led_red_pin,
        new.status_led_red_pin,
    ) + freed(current.status_led_yellow_pin, new.status_led_yellow_pin) + freed(
        current.status_led_green_pin,
        new.status_led_green_pin,
    )
}

/// Two optional texts are the same.
pub open spec fn same_optional(a: Option<String>, b: Option<String>) -> bool {
    match (a, b) {
        (Some(x), Some(y)) => x@ == y@,
        (None, None) => true,
        _ => false,
    }
}

/// Both configurations put the same hardware on the same pins.
pub open spec fn same_pins(a: Config, b: Config) -> bool {
    &&& a.led_gpio == b.led_gpio
    &&& a.encoder_pin_a == b.encoder_pin_a
    &&& a.encoder_pin_b == b.encoder_pin_b
    &&& a.button_pin == b.button_pin
    &&& a.status_led_red_pin == b.status_led_red_pin
    &&& a.status_led_yellow_pin == b.status_led_yellow_pin
    &&& a.status_led_green_pin == b.status_led_green_pin
}

/// Both configurations set up the same networks.
pub open spec fn same_network(a: Config, b: Config) -> bool {
    &&& a.wifi.ssid@ == b.wifi.ssid@
    &&& same_optional(a.wifi.password, b.wifi.password)
    &&& a.ip.use_dhcp == b.ip.use_dhcp
    &&& a.ip.ip@ == b.ip.ip@
    &&& a.ip.prefix_len == b.ip.prefix_len
    &&& a.ap_ssid@ == b.ap_ssid@
    &&& same_optional(a.ap_password, b.ap_password)
    &&& a.ap_ip@ == b.ap_ip@
    &&& a.ap_prefix_len == b.ap_prefix_len
}

fn same_optional_text(a: &Option<String>, b: &Option<String>) -> (r: bool)
    ensures
        r == same_optional(*a, *b),
{
    match (a, b) {
        (Some(x), Some(y)) => same_text(x.as_str(), y.as_str()),
        (None, None) => true,
        _ => false,
    }
}

fn push_freed(pins: &mut GpioPins, current: u8, new: u8)
    ensures
        final(pins)@ == old(pins)@ + freed(current, new),
{
    if current != new && current != 0 {
        pins.push(current);
        assert(pins@ =~= old(pins)@ + seq![current]);
    } else {
        assert(pins@ =~= old(pins)@ + Seq::<u8>::empty());
    }
}

/// Check if a config change would require a device restart
/// Returns (GPIOs to reset before restart, `needs_restart`)
pub fn check_restart_needed(current: &Config, new: &Config) -> (r: (GpioPins, bool))
    ensures
        r.0@ == pins_to_reset(*current, *new),
        r.1 == !(same_pins(*current, *new) && same_network(*current, *new)),
{
    let pins_kept = current.led_gpio == new.led_gpio && current.encoder_pin_a == new.encoder_pin_a
        && current.encoder_pin_b == new.encoder_pin_b && current.button_pin == new.button_pin
        && current.status_led_red_pin == new.status_led_red_pin && current.status_led_yellow_pin
        == new.status_led_yellow_pin && current.status_led_green_pin == new.status_led_green_pin;
    let wifi_kept = same_text(current.wifi.ssid.as_str(), new.wifi.ssid.as_str())
        && same_optional_text(&current.wifi.password, &new.wifi.password);
    let ip_kept = current.ip.use_dhcp == new.ip.use_dhcp && same_text(
        current.ip.ip.as_str(),
        new.ip.ip.as_str(),
    ) && current.ip.prefix_len == new.ip.prefix_len;
    let ap_ip_kept = current.ap_ip[0] == new.ap_ip[0] && current.ap_ip[1] == new.ap_ip[1]
        && current.ap_ip[2] == new.ap_ip[2] && current.ap_ip[3] == new.ap_ip[3];
    assert(ap_ip_kept == (current.ap_ip@ == new.ap_ip@)) by {
        if ap_ip_kept {
            assert(current.ap_ip@ =~= new.ap_ip@);
        }
    }
    let ap_kept = same_text(current.ap_ssid.as_str(), new.ap_ssid.as_str()) && same_optional_text(
        &current.ap_password,
        &new.ap_password,
    ) && ap_ip_kept && current.ap_prefix_len == new.ap_prefix_len;

    // Collect old GPIO pins that need reset (to disconnect from RMT/PCNT peripherals)
    let mut pins = GpioPins::new();
    if current.led_gpio != new.led_gpio {
        pins.push(current.led_gpio);
        assert(pins@ =~= seq![current.led_gpio]);
    }
    push_freed(&mut pins, current.encoder_pin_a, new.encoder_pin_a);
    push_freed(&mut pins, current.encoder_pin_b, new.encoder_pin_b);
    push_freed(&mut pins, current.button_pin, new.button_pin);
    push_freed(&mut pins, current.status_led_red_pin, new.status_led_red_pin);
    push_freed(&mut pins, current.status_led_yellow_pin, new.status_led_yellow_pin);
    push_freed(&mut pins, current.status_led_green_pin, new.status_led_green_pin);
    (pins, !(pins_kept && wifi_kept && ip_kept && ap_kept))
}

/// Saving a configuration that is already in use takes no restart and resets no
/// pin; one that keeps the pins resets none.
pub proof fn law_same_config_needs_no_restart(current: Config, new: Config)
    requires
        same_pins(current, new),
    ensures
        pins_to_reset(current, new) == Seq::<u8>::empty(),
        same_pins(current, current) && same_network(current, current),
{
    assert(pins_to_reset(current, new) =~= Seq::<u8>::empty());
}

// ---------------------------------------------------------------------------
// PID data lengths
// ---------------------------------------------------------------------------

/// Response data byte count for each Mode 01 PID (excludes the 0x41 service
/// byte and the PID byte). `None` = unknown/unsupported PID.
/// Source: SAE J1979 / ISO 15031-5.
pub open spec fn mode01_length(pid: int) -> Option<u8> {
    if pid == 0x00 || pid == 0x01 || pid == 0x20 || 0x24 <= pid <= 0x2B || 0x34 <= pid <= 0x3B
        || pid == 0x40 || pid == 0x41 || pid == 0x4F || pid == 0x50 || pid == 0x60 || pid == 0x80
        || pid == 0xA0 || pid == 0xC0 {
        Some(4)
    } else if pid == 0x64 {
        Some(5)
    } else if pid == 0x02 || pid == 0x03 || pid == 0x0C || pid == 0x10 || 0x14 <= pid <= 0x1B || pid
        == 0x1F || 0x21 <= pid <= 0x23 || pid == 0x31 || pid == 0x32 || 0x3C <= pid <= 0x3F || 0x42
        <= pid <= 0x44 || pid == 0x4D || pid == 0x4E || 0x53 <= pid <= 0x59 || pid == 0x5D || pid
        == 0x5E || pid == 0x63 || pid == 0x65 {
        Some(2)
    } else if 0x04 <= pid <= 0x0B || 0x0D <= pid <= 0x0F || 0x11 <= pid <= 0x13 || 0x1C <= pid
        <= 0x1E || 0x2C <= pid <= 0x30 || pid == 0x33 || 0x45 <= pid <= 0x4C || pid == 0x51 || pid
        == 0x52 || 0x5A <= pid <= 0x5C || pid == 0x5F || pid == 0x61 || pid == 0x62 {
        Some(1)
    } else {
        None
    }
}

/// The data byte count of one Mode 01 PID.
fn mode01_data_length(pid: usize) -> (r: Option<u8>)
    ensures
        r == mode01_length(pid as int),
{
    let four = pid == 0x00 || pid == 0x01 || pid == 0x20 || (0x24 <= pid && pid <= 0x2B) || (0x34
        <= pid && pid <= 0x3B) || pid == 0x40 || pid == 0x41 || pid == 0x4F || pid == 0x50 || pid
        == 0x60 || pid == 0x80 || pid == 0xA0 || pid == 0xC0;
    let two = pid == 0x02 || pid == 0x03 || pid == 0x0C || pid == 0x10 || (0x14 <= pid && pid
        <= 0x1B) || pid == 0x1F || (0x21 <= pid && pid <= 0x23) || pid == 0x31 || pid == 0x32 || (
    0x3C <= pid && pid <= 0x3F) || (0x42 <= pid && pid <= 0x44) || pid == 0x4D || pid == 0x4E || (
    0x53 <= pid && pid <= 0x59) || pid == 0x5D || pid == 0x5E || pid == 0x63 || pid == 0x65;
    let one = (0x04 <= pid && pid <= 0x0B) || (0x0D <= pid && pid <= 0x0F) || (0x11 <= pid && pid
        <= 0x13) || (0x1C <= pid && pid <= 0x1E) || (0x2C <= pid && pid <= 0x30) || pid == 0x33 || (
    0x45 <= pid && pid <= 0x4C) || pid == 0x51 || pid == 0x52 || (0x5A <= pid && pid <= 0x5C) || pid
        == 0x5F || pid == 0x61 || pid == 0x62;
    if four {
        Some(4)
    } else if pid == 0x64 {
        Some(5)
    } else if two {
        Some(2)
    } else if one {
        Some(1)
    } else {
        None
    }
}

/// The table of Mode 01 data lengths to start from; lengths of vendor-specific
/// PIDs are learned into a copy.
pub fn mode01_pid_data_lengths() -> (r: PidDataLengths)
    ensures
        forall|pid: int| 0 <= pid < 256 ==> #[trigger] r@[pid] == mode01_length(pid),
{
    let mut table: PidDataLengths = [None; 256];
    let mut pid: usize = 0;
    while pid < 256
        invariant
            pid <= 256,
            table@.len() == 256,
            forall|i: int| 0 <= i < pid ==> #[trigger] table@[i] == mode01_length(i),
        decreases 256 - pid,
    {
        table[pid] = mode01_data_length(pid);
        pid = pid + 1;
    }
    table
}

// ---------------------------------------------------------------------------
// Laws
// ---------------------------------------------------------------------------

/// The data lengths of the PIDs up to `65`, sixteen in a row; behind them only the
/// queries for supported PIDs have a known length, of four bytes.
pub proof fn law_data_lengths(pid: int)
    ensures
        0 <= pid < 0x66 ==> mode01_length(pid) == Some(
            seq![
                4u8, 4, 2, 2, 1, 1, 1, 1, 1, 1, 1, 1, 2, 1, 1, 1,
                2, 1, 1, 1, 2, 2, 2, 2, 2, 2, 2, 2, 1, 1, 1, 2,
                4, 2, 2, 2, 4, 4, 4, 4, 4, 4, 4, 4, 1, 1, 1, 1,
                1, 2, 2, 1, 4, 4, 4, 4, 4, 4, 4, 4, 2, 2, 2, 2,
                4, 4, 2, 2, 2, 1, 1, 1, 1, 1, 1, 1, 1, 2, 2, 4,
                4, 1, 1, 2, 2, 2, 2, 2, 2, 2, 1, 1, 1, 2, 2, 1,
                4, 1, 1, 2, 5, 2,
            ][pid],
        ),
        0x66 <= pid < 0x100 ==> mode01_length(pid) == if pid == 0x80 || pid == 0xA0 || pid == 0xC0 {
            Some(4u8)
        } else {
            None
        },
{
}

/// A configuration is valid with a timeout of at most 4.5 seconds, a capture buffer
/// of 16 KB to 6 MB, and without an empty name or address.
pub proof fn law_valid_ranges(c: Config)
    ensures
        is_valid(c) <==> {
            &&& c.obd2_timeout_ms <= 4500
            &&& 16 * 1024 <= c.obd2.capture_buffer_size <= 6 * 1024 * 1024
            &&& c.wifi.ssid@ != Seq::<char>::empty()
            &&& c.ap_ssid@ != Seq::<char>::empty()
            &&& c.ip.ip@ != Seq::<char>::empty()
        },
{
    if c.wifi.ssid@.len() == 0 {
        assert(c.wifi.ssid@ =~= Seq::<char>::empty());
    }
    if c.ap_ssid@.len() == 0 {
        assert(c.ap_ssid@ =~= Seq::<char>::empty());
    }
    if c.ip.ip@.len() == 0 {
        assert(c.ip.ip@ =~= Seq::<char>::empty());
    }
}

/// Validating moves a value that is out of range to the nearer end of its range, and
/// a value that is in range stays; nothing else changes.
pub proof fn law_values_are_clamped(before: Config, after: Config, mac: Seq<u8>)
    requires
        is_validated(before, after, mac),
    ensures
        before.obd2_timeout_ms <= 4500 ==> after.obd2_timeout_ms == before.obd2_timeout_ms,
        before.obd2_timeout_ms > 4500 ==> after.obd2_timeout_ms == 4500,
        ({
            let size = before.obd2.capture_buffer_size;
            let valid = after.obd2.capture_buffer_size;
            &&& size < 16384 ==> valid == 16384
            &&& 16384 <= size <= 6291456 ==> valid == size
            &&& size > 6291456 ==> valid == 6291456
        }),
        before.wifi.ssid@.len() > 0 ==> after.wifi == before.wifi,
        before.wifi.ssid@.len() == 0 ==> after.wifi.password is None && after.wifi.ssid@ == seq![
            'V',
            '-',
            'L',
            'I',
            'N',
            'K',
        ],
        before.ap_ssid@.len() > 0 ==> after.ap_ssid == before.ap_ssid,
        before.ip.ip@.len() > 0 ==> after.ip == before.ip,
        after.ip.use_dhcp == before.ip.use_dhcp && after.ip.prefix_len == before.ip.prefix_len,
        after.profiles == before.profiles && after.active_profile == before.active_profile,
        after.brightness == before.brightness && after.total_leds == before.total_leds,
        after.obd2.dongle_ip == before.obd2.dongle_ip,
        after.obd2.dongle_port == before.obd2.dongle_port,
        after.obd2.use_framing == before.obd2.use_framing,
        after.ap_password == before.ap_password && after.ap_ip == before.ap_ip,
        same_pins(before, after),
{
    reveal_strlit("V-LINK");
    assert("V-LINK"@ =~= seq!['V', '-', 'L', 'I', 'N', 'K']);
}

/// The access point's name ends in the last two bytes of the MAC address; the rest of
/// the address has no part in it.
pub proof fn law_access_point_is_named_after_the_mac(mac: Seq<u8>, other: Seq<u8>)
    requires
        mac.len() == 6,
        other.len() == 6,
        mac[4] == other[4],
        mac[5] == other[5],
    ensures
        ap_ssid_for(mac) == ap_ssid_for(other),
        ap_ssid_for(mac).len() == 13,
        ap_ssid_for(mac).take(9) =~= seq!['T', 'a', 'c', 'h', 'T', 'a', 'l', 'k', '-'],
        ap_ssid_for(mac).subrange(9, 11) =~= chars_of_bytes(hex_pair(mac[4])),
        ap_ssid_for(mac).subrange(11, 13) =~= chars_of_bytes(hex_pair(mac[5])),
{
    reveal_strlit("TachTalk-");
}

/// A new device starts from a valid configuration, which validating leaves as it is.
pub proof fn law_defaults_are_valid(c: Config, mac: Seq<u8>)
    requires
        is_default_config(c, mac),
    ensures
        is_valid(c),
        c.active_profile < c.profiles@.len(),
        c.obd2_timeout_ms == 4500,
        c.rpm_stale_timeout_ms == 1000,
        c.brightness == 255,
        1 <= c.obd2.max_pids_per_query <= 6,
        c.obd2.fast_demotion_ms < c.obd2.pid_inactive_removal_ms,
{
    reveal_strlit("V-LINK");
    reveal_strlit("192.168.0.20");
    reveal_strlit("TachTalk-");
    assert("V-LINK"@.len() == 6);
    assert("192.168.0.20"@.len() == 12);
    assert("TachTalk-"@.len() == 9);
}

/// The default profile lights three more LEDs for each 500 RPM from 1000 on, each group
/// next to the one before, until all of them blink at 3000.
pub proof fn law_default_profile_climbs(p: LedProfile, group: int)
    requires
        is_default_profile(p),
        1 <= group <= 4,
    ensures
        ({
            let rule = p.rules@[group];
            &&& rule.rpm_lower == 500 + 500 * group
            &&& rule.start_led == 3 * group - 3
            &&& rule.end_led == 3 * group - 1
            &&& !rule.blink
            &&& rule.colors@.len() == 1
        }),
        ({
            let shift = p.rules@.last();
            &&& shift.rpm_lower == 3000 && shift.blink && shift.blink_ms == 500
            &&& shift.start_led == 0 && shift.end_led == 11
        }),
        p.preview_rpm < 3000,
{
}

/// The other two profiles fill up between 1000 and 3000 RPM, one of them from both ends
/// at once, and blink from there on.
pub proof fn law_other_profiles_fill_up(rainbow: LedProfile, martijn: LedProfile)
    requires
        is_rainbow_profile(rainbow),
        is_martijn_profile(martijn),
    ensures
        rainbow.rules@[0].rpm_lower == 1000 && rainbow.rules@[0].rpm_upper == Some(3000u32),
        rainbow.rules@[0].colors@.len() == 5,
        martijn.rules@[0].rpm_lower == martijn.rules@[1].rpm_lower,
        martijn.rules@[0].rpm_upper == Some(3000u32) && martijn.rules@[1].rpm_upper == Some(3000u32),
        martijn.rules@[0].start_led == 0 && martijn.rules@[0].end_led + 1
            == martijn.rules@[1].end_led,
        martijn.rules@[1].start_led == 11,
        martijn.rules@[0].colors@ =~= martijn.rules@[1].colors@,
        rainbow.rules@.last().rpm_lower == 3000 && rainbow.rules@.last().blink,
        martijn.rules@.last().rpm_lower == 3000 && martijn.rules@.last().blink,
{
}

/// The rules in use are those of the active profile, and none without one.
pub proof fn law_active_profile_is_in_use(c: Config)
    ensures
        c.active_profile < c.profiles@.len() ==> c.rules_in_use()
            == c.profiles@[c.active_profile as int].rules@,
        c.active_profile >= c.profiles@.len() ==> c.rules_in_use().len() == 0,
{
}

/// A pin that is given up is reset before the restart: that of the LED strip always,
/// the others if they were in use. No other pin is reset.
pub proof fn law_given_up_pins_are_reset(current: Config, new: Config, pin: u8)
    ensures
        pins_to_reset(current, new).contains(pin) <==> {
            ||| current.led_gpio == pin && new.led_gpio != pin
            ||| pin != 0 && current.encoder_pin_a == pin && new.encoder_pin_a != pin
            ||| pin != 0 && current.encoder_pin_b == pin && new.encoder_pin_b != pin
            ||| pin != 0 && current.button_pin == pin && new.button_pin != pin
            ||| pin != 0 && current.status_led_red_pin == pin && new.status_led_red_pin != pin
            ||| pin != 0 && current.status_led_yellow_pin == pin && new.status_led_yellow_pin != pin
            ||| pin != 0 && current.status_led_green_pin == pin && new.status_led_green_pin != pin
        },
{
    let strip = if current.led_gpio != new.led_gpio {
        seq![current.led_gpio]
    } else {
        Seq::<u8>::empty()
    };
    let a = freed(current.encoder_pin_a, new.encoder_pin_a);
    let b = freed(current.encoder_pin_b, new.encoder_pin_b);
    let button = freed(current.button_pin, new.button_pin);
    let red = freed(current.status_led_red_pin, new.status_led_red_pin);
    let yellow = freed(current.status_led_yellow_pin, new.status_led_yellow_pin);
    let green = freed(current.status_led_green_pin, new.status_led_green_pin);
    lemma_freed(current.encoder_pin_a, new.encoder_pin_a, pin);
    lemma_freed(current.encoder_pin_b, new.encoder_pin_b, pin);
    lemma_freed(current.button_pin, new.button_pin, pin);
    lemma_freed(current.status_led_red_pin, new.status_led_red_pin, pin);
    lemma_freed(current.status_led_yellow_pin, new.status_led_yellow_pin, pin);
    lemma_freed(current.status_led_green_pin, new.status_led_green_pin, pin);
    if current.led_gpio != new.led_gpio {
        assert(seq![current.led_gpio][0] == current.led_gpio);
        assert(strip.contains(pin) <==> current.led_gpio == pin);
    }
    lemma_in_either(strip, a, pin);
    lemma_in_either(strip + a, b, pin);
    lemma_in_either(strip + a + b, button, pin);
    lemma_in_either(strip + a + b + button, red, pin);
    lemma_in_either(strip + a + b + button + red, yellow, pin);
    lemma_in_either(strip + a + b + button + red + yellow, green, pin);
}

proof fn lemma_freed(current: u8, new: u8, pin: u8)
    ensures
        freed(current, new).contains(pin) <==> pin != 0 && current == pin && new != pin,
{
    if current != new && current != 0 {
        assert(freed(current, new)[0] == current);
    }
}

proof fn lemma_in_either(a: Seq<u8>, b: Seq<u8>, pin: u8)
    ensures
        (a + b).contains(pin) <==> a.contains(pin) || b.contains(pin),
{
    if a.contains(pin) {
        let i = choose|i: int| 0 <= i < a.len() && a[i] == pin;
        assert((a + b)[i] == pin);
    }
    if b.contains(pin) {
        let i = choose|i: int| 0 <= i < b.len() && b[i] == pin;
        assert((a + b)[a.len() + i] == pin);
    }
    if (a + b).contains(pin) {
        let i = choose|i: int| 0 <= i < (a + b).len() && (a + b)[i] == pin;
        if i < a.len() {
            assert(a[i] == pin);
        } else {
            assert(b[i - a.len()] == pin);
        }
    }
}

/// What the device shows and how it polls can change without a restart; only a pin or
/// a network setting takes one.
pub proof fn law_other_settings_need_no_restart(current: Config, new: Config)
    requires
        new == (Config {
            obd2: new.obd2,
            log_level: new.log_level,
            profiles: new.profiles,
            active_profile: new.active_profile,
            total_leds: new.total_leds,
            obd2_timeout_ms: new.obd2_timeout_ms,
            brightness: new.brightness,
            dump_cpu_metrics: new.dump_cpu_metrics,
            dump_socket_info: new.dump_socket_info,
            status_led_flicker_ms: new.status_led_flicker_ms,
            rpm_stale_timeout_ms: new.rpm_stale_timeout_ms,
            ..current
        }),
    ensures
        same_pins(current, new),
        same_network(current, new),
{
}

/// A restart is needed if a name, a password, or an address of either network changes,
/// or how the device gets its address.
pub proof fn law_network_changes_need_a_restart(current: Config, new: Config)
    ensures
        current.wifi.ssid@ != new.wifi.ssid@ ==> !same_network(current, new),
        current.ap_ssid@ != new.ap_ssid@ ==> !same_network(current, new),
        current.ip.use_dhcp != new.ip.use_dhcp ==> !same_network(current, new),
        current.ip.ip@ != new.ip.ip@ ==> !same_network(current, new),
        current.ip.prefix_len != new.ip.prefix_len ==> !same_network(current, new),
        current.ap_ip@ != new.ap_ip@ ==> !same_network(current, new),
        current.ap_prefix_len != new.ap_prefix_len ==> !same_network(current, new),
        (current.wifi.password is None) != (new.wifi.password is None) ==> !same_network(
            current,
            new,
        ),
        (current.ap_password is None) != (new.ap_password is None) ==> !same_network(current, new),
        current.wifi.password matches Some(old_password) ==> (new.wifi.password matches Some(
            new_password,
        ) ==> old_password@ != new_password@ ==> !same_network(current, new)),
        current.ap_password matches Some(old_password) ==> (new.ap_password matches Some(
            new_password,
        ) ==> old_password@ != new_password@ ==> !same_network(current, new)),
{
}

/// A restart is needed if any hardware moves to another pin.
pub proof fn law_moved_hardware_needs_a_restart(current: Config, new: Config)
    ensures
        !same_pins(current, new) <==> {
            ||| current.led_gpio != new.led_gpio
            ||| current.encoder_pin_a != new.encoder_pin_a
            ||| current.encoder_pin_b != new.encoder_pin_b
            ||| current.button_pin != new.button_pin
            ||| current.status_led_red_pin != new.status_led_red_pin
            ||| current.status_led_yellow_pin != new.status_led_yellow_pin
            ||| current.status_led_green_pin != new.status_led_green_pin
        },
{
}

/// A new device comes with three profiles, each of which previews below its shift point;
/// it starts with one LED, and its status LEDs are on pins next to each other.
pub proof fn law_new_device(c: Config, mac: Seq<u8>, i: int)
    requires
        is_default_config(c, mac),
        0 <= i < c.profiles@.len(),
    ensures
        c.profiles@.len() == 3,
        c.profiles@[i].preview_rpm == 2900,
        c.profiles@[i].rules@.last().blink,
        c.profiles@[0].rules@.len() == 7,
        c.profiles@[1].rules@.len() == 2,
        c.profiles@[2].rules@.len() == 3,
        c.total_leds == 1,
        c.status_led_red_pin == 9,
        c.status_led_yellow_pin == c.status_led_red_pin + 1,
        c.status_led_green_pin == c.status_led_yellow_pin + 1,
        c.encoder_pin_a == 0 && c.encoder_pin_b == 0 && c.button_pin == 0,
        c.obd2.dongle_port == c.obd2.listen_port,
        c.ap_ip@ =~= seq![10u8, 15, 25, 1],
        c.ip.prefix_len == 24 && c.ap_prefix_len == 24,
        c.wifi.password is None && c.ap_password is None,
{
}

} // verus!
