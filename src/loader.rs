//! The operations that every backend offers, so that callers can hold any of them.
use vstd::prelude::*;
use ini::Ini;
use crate::address::{IPv4Network, Ipv4Address};
use crate::error::{ConfigError, StaticIPError};
use crate::systemd::SystemdNetworkConfig;
use crate::ubuntu::UbuntuUpstartNetworkConfig;

verus! {

/// A backend for one init system's network configuration file. Each method takes the
/// file's current contents; the two that change the file return the new document.
pub trait NetworkConfigLoader: Sized {
    fn new(path: &str) -> Self;

    fn config_path(&self) -> &str;

    fn is_dhcp(&self, content: &str) -> Result<bool, ConfigError>;

    fn ip_address(&self, content: &str) -> Result<Option<IPv4Network>, ConfigError>;

    fn gateway(&self, content: &str) -> Result<Option<Ipv4Address>, ConfigError>;

    fn get_settings_section(&self, content: &str) -> Result<Option<String>, ConfigError>;

    fn dns(&self, content: &str) -> Result<Option<Vec<Ipv4Address>>, ConfigError>;

    fn enable_dhcp(&self, content: &str) -> Result<Ini, ConfigError>;

    fn static_ip(&self, content: &str, address: &str, gateway: &str) -> Result<Ini, StaticIPError>;
}

impl NetworkConfigLoader for SystemdNetworkConfig {
    fn new(path: &str) -> Self {
        SystemdNetworkConfig::new(path)
    }

    fn config_path(&self) -> &str {
        self.path()
    }

    fn is_dhcp(&self, content: &str) -> Result<bool, ConfigError> {
        SystemdNetworkConfig::is_dhcp(self, content)
    }

    fn ip_address(&self, content: &str) -> Result<Option<IPv4Network>, ConfigError> {
        SystemdNetworkConfig::ip_address(self, content)
    }

    fn gateway(&self, content: &str) -> Result<Option<Ipv4Address>, ConfigError> {
        SystemdNetworkConfig::gateway(self, content)
    }

    fn get_settings_section(&self, content: &str) -> Result<Option<String>, ConfigError> {
        Ok(SystemdNetworkConfig::get_settings_section(self, content))
    }

    fn dns(&self, content: &str) -> Result<Option<Vec<Ipv4Address>>, ConfigError> {
        Ok(SystemdNetworkConfig::dns(self, content))
    }

    fn enable_dhcp(&self, content: &str) -> Result<Ini, ConfigError> {
        SystemdNetworkConfig::enable_dhcp(self, content)
    }

    fn static_ip(&self, content: &str, address: &str, gateway: &str) -> Result<Ini, StaticIPError> {
        SystemdNetworkConfig::static_ip(self, content, address, gateway)
    }
}

impl NetworkConfigLoader for UbuntuUpstartNetworkConfig {
    fn new(path: &str) -> Self {
        UbuntuUpstartNetworkConfig::new(path)
    }

    fn config_path(&self) -> &str {
        self.path()
    }

    fn is_dhcp(&self, content: &str) -> Result<bool, ConfigError> {
        UbuntuUpstartNetworkConfig::is_dhcp(self, content)
    }

    fn ip_address(&self, content: &str) -> Result<Option<IPv4Network>, ConfigError> {
        UbuntuUpstartNetworkConfig::ip_address(self, content)
    }

    fn gateway(&self, content: &str) -> Result<Option<Ipv4Address>, ConfigError> {
        UbuntuUpstartNetworkConfig::gateway(self, content)
    }

    fn get_settings_section(&self, content: &str) -> Result<Option<String>, ConfigError> {
        UbuntuUpstartNetworkConfig::get_settings_section(self, content)
    }

    fn dns(&self, content: &str) -> Result<Option<Vec<Ipv4Address>>, ConfigError> {
        UbuntuUpstartNetworkConfig::dns(self, content)
    }

    fn enable_dhcp(&self, content: &str) -> Result<Ini, ConfigError> {
        UbuntuUpstartNetworkConfig::enable_dhcp(self, content)
    }

    fn static_ip(&self, content: &str, address: &str, gateway: &str) -> Result<Ini, StaticIPError> {
        UbuntuUpstartNetworkConfig::static_ip(self, content, address, gateway)
    }
}

} // verus!
