//! The configuration of the simpler device.

use crate::colors::RGB8;
use vstd::prelude::*;

verus! {

/// RPM from which a number of LEDs light up in a color.
#[derive(Debug, Clone, Copy, PartialEq, Eq, Structural)]
pub struct ThresholdConfig {
    pub rpm: u32,
    pub color: RGB8Color,
    pub num_leds: usize,
}

/// A color as it is stored.
#[derive(Debug, Clone, Copy, PartialEq, Eq, Structural)]
pub struct RGB8Color {
    pub r: u8,
    pub g: u8,
    pub b: u8,
}

impl From<RGB8Color> for RGB8 {
    fn from(c: RGB8Color) -> (r: Self) {
        RGB8 { r: c.r, g: c.g, b: c.b }
    }
}

impl vstd::std_specs::convert::FromSpecImpl<RGB8Color> for RGB8 {
    open spec fn obeys_from_spec() -> bool {
        true
    }

    open spec fn from_spec(c: RGB8Color) -> Self {
        RGB8 { r: c.r, g: c.g, b: c.b }
    }
}

impl From<RGB8> for RGB8Color {
    fn from(c: RGB8) -> (r: Self) {
        RGB8Color { r: c.r, g: c.g, b: c.b }
    }
}

impl vstd::std_specs::convert::FromSpecImpl<RGB8> for RGB8Color {
    open spec fn obeys_from_spec() -> bool {
        true
    }

    open spec fn from_spec(c: RGB8) -> Self {
        RGB8Color { r: c.r, g: c.g, b: c.b }
    }
}

/// The network to join.
#[derive(Debug, Clone)]
pub struct WifiConfig {
    pub ssid: String,
    pub password: Option<String>,
}

impl Default for WifiConfig {
    fn default() -> (r: Self)
        ensures
            r.ssid@.len() == 0,
            r.password is None,
    {
        WifiConfig { ssid: String::new(), password: None }
    }
}

impl WifiConfig {
    /// Whether there is a network to join.
    pub fn is_configured(&self) -> (r: bool)
        ensures
            r == (self.ssid@.len() > 0),
    {
        !self.ssid.as_str().is_empty()
    }

    /// The network of a common dongle, without a password.
    pub fn new_default() -> (r: Self)
        ensures
            r.ssid@ == "V-LINK"@,
            r.password is None,
    {
        WifiConfig { ssid: "V-LINK".to_owned(), password: None }
    }
}

/// The device's address in the network that it joins.
#[derive(Debug, Clone)]
pub struct IpConfig {
    pub use_dhcp: bool,
    pub ip: Option<String>,
    pub gateway: Option<String>,
    pub subnet: Option<String>,
    pub dns: Option<String>,
}

impl Default for IpConfig {
    fn default() -> (r: Self)
        ensures
            r.is_dhcp(),
    {
        IpConfig { use_dhcp: true, ip: None, gateway: None, subnet: None, dns: None }
    }
}

impl IpConfig {
    /// The network gives the address, and nothing is set by hand.
    pub open spec fn is_dhcp(&self) -> bool {
        self.use_dhcp && self.ip is None && self.gateway is None && self.subnet is None
            && self.dns is None
    }
}

/// The configuration of the device.
#[derive(Debug, Clone)]
pub struct Config {
    pub wifi: WifiConfig,
    pub ip_config: IpConfig,
    pub ap_password: Option<String>,
    pub thresholds: Vec<ThresholdConfig>,
    pub blink_rpm: u32,
    pub total_leds: usize,
}

/// The thresholds of a fresh device: green, yellow, red.
pub open spec fn default_thresholds() -> Seq<ThresholdConfig> {
    seq![
        ThresholdConfig { rpm: 3000, color: RGB8Color { r: 0, g: 255, b: 0 }, num_leds: 2 },
        ThresholdConfig { rpm: 4000, color: RGB8Color { r: 255, g: 255, b: 0 }, num_leds: 4 },
        ThresholdConfig { rpm: 5000, color: RGB8Color { r: 255, g: 0, b: 0 }, num_leds: 6 },
    ]
}

impl Default for Config {
    fn default() -> (r: Self)
        ensures
            r.is_default(),
    {
        let mut thresholds: Vec<ThresholdConfig> = Vec::new();
        thresholds.push(
            ThresholdConfig { rpm: 3000, color: RGB8Color { r: 0, g: 255, b: 0 }, num_leds: 2 },
        );
        thresholds.push(
            ThresholdConfig { rpm: 4000, color: RGB8Color { r: 255, g: 255, b: 0 }, num_leds: 4 },
        );
        thresholds.push(
            ThresholdConfig { rpm: 5000, color: RGB8Color { r: 255, g: 0, b: 0 }, num_leds: 6 },
        );
        assert(thresholds@ =~= default_thresholds());
        Config {
            wifi: WifiConfig::new_default(),
            ip_config: IpConfig::default(),
            ap_password: None,
            thresholds,
            blink_rpm: 6000,
            total_leds: 8,
        }
    }
}

impl Config {
    /// The configuration of a fresh device.
    pub open spec fn is_default(&self) -> bool {
        &&& self.wifi.ssid@ == "V-LINK"@
        &&& self.wifi.password is None
        &&& self.ip_config.is_dhcp()
        &&& self.ap_password is None
        &&& self.thresholds@ == default_thresholds()
        &&& self.blink_rpm == 6000
        &&& self.total_leds == 8
    }

    /// The stored configuration, or that of a fresh device if none could be read.
    pub fn load_or_default(stored: Option<Config>) -> (r: Self)
        ensures
            match stored {
                Some(config) => r == config,
                None => r.is_default(),
            },
    {
        match stored {
            Some(config) => config,
            None => Config::default(),
        }
    }
}

// ---------------------------------------------------------------------------
// Laws
// ---------------------------------------------------------------------------

/// On a fresh device each threshold is 1000 RPM above the one before and lights two more
/// LEDs; the strip has room for all of them, and the blinking starts above them.
pub proof fn law_default_thresholds_rise(config: Config, i: int)
    requires
        config.is_default(),
        0 <= i < config.thresholds@.len(),
    ensures
        config.thresholds@.len() == 3,
        config.thresholds@[i].rpm == 3000 + 1000 * i,
        config.thresholds@[i].num_leds == 2 + 2 * i,
        config.thresholds@[i].num_leds <= config.total_leds,
        config.thresholds@[i].rpm < config.blink_rpm,
        config.thresholds@[i].color.b == 0,
        config.thresholds@[0].color.r == 0 && config.thresholds@[2].color.g == 0,
{
}

/// Without settings by hand the network gives the address.
pub proof fn law_dhcp_needs_no_settings(ip: IpConfig)
    requires
        ip.is_dhcp(),
    ensures
        ip.use_dhcp,
        ip.ip is None && ip.gateway is None && ip.subnet is None && ip.dns is None,
{
}

} // verus!
