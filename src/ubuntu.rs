//! The Debian/Ubuntu `interfaces` backend. Its file format is not read yet: every
//! operation reports that it is unsupported.
use vstd::prelude::*;
use ini::Ini;
use crate::address::{IPv4Network, Ipv4Address};
use crate::error::{ConfigError, StaticIPError};

verus! {

pub const UBUNTU_DEFAULT_PATH: &'static str = "/etc/network/interfaces";

/// The configuration of an interface in a Debian/Ubuntu `interfaces` file.
pub struct UbuntuUpstartNetworkConfig {
    pub path: String,
}

impl UbuntuUpstartNetworkConfig {
    /// The configuration kept at `path`, or at the default path where `path` is empty.
    pub fn new(path: &str) -> (r: UbuntuUpstartNetworkConfig)
        ensures
            r.path@ == (if path@.len() == 0 {
                UBUNTU_DEFAULT_PATH@
            } else {
                path@
            }),
    {
        if path.unicode_len() == 0 {
            UbuntuUpstartNetworkConfig { path: UBUNTU_DEFAULT_PATH.to_owned() }
        } else {
            UbuntuUpstartNetworkConfig { path: path.to_owned() }
        }
    }

    /// Where the configuration file is kept.
    pub fn path(&self) -> (r: &str)
        ensures
            r@ == self.path@,
    {
        self.path.as_str()
    }

    pub fn is_dhcp(&self, content: &str) -> (r: Result<bool, ConfigError>)
        ensures
            r == Err::<bool, ConfigError>(ConfigError::Unsupported),
    {
        Err(ConfigError::Unsupported)
    }

    pub fn get_settings_section(&self, content: &str) -> (r: Result<Option<String>, ConfigError>)
        ensures
            r matches Err(e) && e == ConfigError::Unsupported,
    {
        Err(ConfigError::Unsupported)
    }

    pub fn ip_address(&self, content: &str) -> (r: Result<Option<IPv4Network>, ConfigError>)
        ensures
            r == Err::<Option<IPv4Network>, ConfigError>(ConfigError::Unsupported),
    {
        Err(ConfigError::Unsupported)
    }

    pub fn gateway(&self, content: &str) -> (r: Result<Option<Ipv4Address>, ConfigError>)
        ensures
            r == Err::<Option<Ipv4Address>, ConfigError>(ConfigError::Unsupported),
    {
        Err(ConfigError::Unsupported)
    }

    pub fn dns(&self, content: &str) -> (r: Result<Option<Vec<Ipv4Address>>, ConfigError>)
        ensures
            r matches Err(e) && e == ConfigError::Unsupported,
    {
        Err(ConfigError::Unsupported)
    }

    pub fn enable_dhcp(&self, content: &str) -> (r: Result<Ini, ConfigError>)
        ensures
            r matches Err(e) && e == ConfigError::Unsupported,
    {
        Err(ConfigError::Unsupported)
    }

    pub fn static_ip(&self, content: &str, address: &str, gateway: &str) -> (r: Result<
        Ini,
        StaticIPError,
    >)
        ensures
            r matches Err(StaticIPError::Config(e)) && e == ConfigError::Unsupported,
    {
        Err(StaticIPError::Config(ConfigError::Unsupported))
    }
}

} // verus!
