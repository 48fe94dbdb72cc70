use ini::Ini;
use netconfig::address::{parse_cidr, parse_ipv4, IPv4Network, Ipv4Address};
use netconfig::systemd::{
    dhcp_enabled_in, is_dhcp_value, switch_to_dhcp, switch_to_static, valid_static_input,
    SystemdNetworkConfig,
};
use netconfig::ubuntu::UbuntuUpstartNetworkConfig;
use netconfig::error::{ConfigError, StaticIPError};

const DHCP_FILE: &str = "[Match]\nName=eth0\n\n[Network]\nDHCP=both\n";
const STATIC_FILE: &str =
    "[Match]\nName=eth0\n\n[Network]\nDHCP=no\nAddress=192.168.1.3/24\nGateway=192.168.1.1\n";
const STATIC_WITH_DNS_FILE: &str = "[Match]\nName=eth0\n\n[Network]\nDHCP=no\nAddress=192.168.1.3/24\nGateway=192.168.1.1\nDNS=8.8.8.8\nDNS=8.8.4.4\nDNS=1.1.1.1\nDNS=9.9.9.9\n";
const NO_NETWORK_FILE: &str = "[Match]\nName=eth0\n";

fn render(conf: &Ini) -> String {
    let mut buf: Vec<u8> = Vec::new();
    conf.write_to(&mut buf).unwrap();
    String::from_utf8(buf).unwrap()
}

#[test]
fn default_config_systemd() {
    let config = SystemdNetworkConfig::new("");
    assert!(config.path() == "/etc/systemd/network/eth0.network");
}

#[test]
fn default_config_ubuntu_upstart() {
    let config = UbuntuUpstartNetworkConfig::new("");
    assert!(config.path() == "/etc/network/interfaces");
}

#[test]
fn explicit_path_is_kept() {
    let config = SystemdNetworkConfig::new("./tests/eth0.network.dhcp");
    assert_eq!(config.path(), "./tests/eth0.network.dhcp");
    let config = UbuntuUpstartNetworkConfig::new("/tmp/interfaces");
    assert_eq!(config.path(), "/tmp/interfaces");
}

#[test]
fn config_section_systemd() {
    let config = SystemdNetworkConfig::new("./tests/eth0.network.dhcp");
    let content = config.get_settings_section(DHCP_FILE).unwrap_or(String::new());
    assert!(content.contains("[Network]"));
}

#[test]
fn no_config_section_systemd() {
    let config = SystemdNetworkConfig::new("./tests/eth0.network.nonetwork");
    let content = config.get_settings_section(NO_NETWORK_FILE).unwrap_or(String::new());
    assert!(!content.contains("[Network]"));
}

#[test]
fn settings_section_stops_at_next_header() {
    let config = SystemdNetworkConfig::new("");
    let text = "[Match]\nName=eth0\n[Network]\nDHCP=yes\n[Route]\nGateway=10.0.0.1\n";
    assert_eq!(
        config.get_settings_section(text),
        Some("[Network]\nDHCP=yes\n".to_string())
    );
    assert_eq!(config.get_settings_section(""), None);
    assert_eq!(
        config.get_settings_section("[Network]"),
        Some("[Network]".to_string())
    );
}

#[test]
fn read_dhcp_config_systemd() {
    let config = SystemdNetworkConfig::new("./tests/eth0.network.dhcp");
    assert!(config.is_dhcp(DHCP_FILE).unwrap() == true);
}

#[test]
fn read_non_dhcp_config_systemd() {
    let config = SystemdNetworkConfig::new("./tests/eth0.network.static");
    assert!(config.is_dhcp(STATIC_FILE).unwrap() == false);
}

#[test]
fn dhcp_values() {
    assert!(is_dhcp_value("both"));
    assert!(is_dhcp_value("yes"));
    assert!(is_dhcp_value("ipv4"));
    assert!(is_dhcp_value("ipv6"));
    assert!(!is_dhcp_value("no"));
    assert!(!is_dhcp_value(""));
    assert!(!is_dhcp_value("Yes"));
    assert!(!is_dhcp_value("bot"));
    let config = SystemdNetworkConfig::new("");
    assert_eq!(config.is_dhcp("[Network]\nDHCP=ipv6\n"), Ok(true));
    assert_eq!(config.is_dhcp("[Network]\nDHCP=no\n"), Ok(false));
    assert_eq!(config.is_dhcp("[Network]\nAddress=10.0.0.2/8\n"), Ok(false));
}

#[test]
fn is_dhcp_errors() {
    let config = SystemdNetworkConfig::new("");
    assert_eq!(config.is_dhcp(NO_NETWORK_FILE), Err(ConfigError::MissingSection));
    assert_eq!(config.is_dhcp("[Network\nDHCP=yes\n"), Err(ConfigError::Parse));
}

#[test]
fn read_static_config_systemd() {
    let config = SystemdNetworkConfig::new("./tests/eth0.network.static");
    let comparitor_ip = Ipv4Address::new(192, 168, 1, 3);
    let ip_address = config.ip_address(STATIC_FILE).unwrap().expect("No ip address found");
    assert!(ip_address.ip == comparitor_ip);
    assert!(ip_address.prefix == 24);

    let comparitor_gw = Ipv4Address::new(192, 168, 1, 1);
    assert!(config.gateway(STATIC_FILE).unwrap().expect("No gateway address found") == comparitor_gw);
}

#[test]
fn absent_and_malformed_fields() {
    let config = SystemdNetworkConfig::new("");
    assert_eq!(config.ip_address(DHCP_FILE), Ok(None));
    assert_eq!(config.gateway(DHCP_FILE), Ok(None));
    assert_eq!(config.ip_address(NO_NETWORK_FILE), Ok(None));
    let garbled = "[Network]\nAddress=192.168.1.300/24\nGateway=192.168.1\n";
    assert_eq!(config.ip_address(garbled), Err(ConfigError::Malformed));
    assert_eq!(config.gateway(garbled), Err(ConfigError::Malformed));
    let outside = "[Match]\nAddress=10.0.0.1/8\n[Network]\nDHCP=no\n";
    assert_eq!(config.ip_address(outside), Ok(None));
}

#[test]
fn first_address_wins() {
    let config = SystemdNetworkConfig::new("");
    let text = "[Network]\nAddress=10.1.2.3/16\nAddress=192.168.1.3/24\n";
    assert_eq!(
        config.ip_address(text),
        Ok(Some(IPv4Network { ip: Ipv4Address::new(10, 1, 2, 3), prefix: 16 }))
    );
}

#[test]
fn read_dns_config_systemd() {
    let config = SystemdNetworkConfig::new("./tests/eth0.network.static_with_dns");
    let dns_servers = config.dns(STATIC_WITH_DNS_FILE).unwrap_or(Vec::new());
    assert!(dns_servers.len() == 4);
}

#[test]
fn dns_in_file_order() {
    let config = SystemdNetworkConfig::new("");
    let servers = config.dns(STATIC_WITH_DNS_FILE).unwrap();
    assert_eq!(
        servers,
        vec![
            Ipv4Address::new(8, 8, 8, 8),
            Ipv4Address::new(8, 8, 4, 4),
            Ipv4Address::new(1, 1, 1, 1),
            Ipv4Address::new(9, 9, 9, 9),
        ]
    );
    let mixed = "[Network]\nDNS=8.8.8.8\nDNS=not.an.address\nDNS=1.0.0.1\n";
    assert_eq!(
        config.dns(mixed),
        Some(vec![Ipv4Address::new(8, 8, 8, 8), Ipv4Address::new(1, 0, 0, 1)])
    );
}

#[test]
fn read_no_dns_config_systemd() {
    let config = SystemdNetworkConfig::new("./tests/eth0.network.static");
    let dns_servers = config.dns(STATIC_FILE).unwrap_or(Vec::new());
    assert!(dns_servers.len() == 0);
    assert!(config.dns(STATIC_FILE).is_none());
}

#[test]
fn enable_dhcp_systemd() {
    let config = SystemdNetworkConfig::new("./tests/eth0.network.static.test");
    assert!(config.is_dhcp(STATIC_FILE).unwrap() == false);
    let written = render(&config.enable_dhcp(STATIC_FILE).unwrap());
    assert!(config.is_dhcp(&written).unwrap() == true);
}

#[test]
fn enable_dhcp_clears_static_settings() {
    let config = SystemdNetworkConfig::new("");
    let written = render(&config.enable_dhcp(STATIC_FILE).unwrap());
    assert_eq!(config.is_dhcp(&written), Ok(true));
    assert_eq!(config.ip_address(&written), Ok(None));
    assert_eq!(config.gateway(&written), Ok(None));
    let conf = Ini::load_from_str(&written).unwrap();
    assert_eq!(conf.get_from(Some("Network"), "DHCP"), Some("both"));
    assert_eq!(conf.get_from(Some("Match"), "Name"), Some("eth0"));
}

#[test]
fn enable_dhcp_twice_is_enable_dhcp_once() {
    let config = SystemdNetworkConfig::new("");
    let once = render(&config.enable_dhcp(STATIC_FILE).unwrap());
    let twice = render(&config.enable_dhcp(&once).unwrap());
    assert_eq!(once, twice);
    let from_dhcp = render(&config.enable_dhcp(DHCP_FILE).unwrap());
    assert_eq!(config.is_dhcp(&from_dhcp), Ok(true));
}

#[test]
fn enable_dhcp_errors() {
    let config = SystemdNetworkConfig::new("");
    assert!(matches!(config.enable_dhcp(NO_NETWORK_FILE), Err(ConfigError::MissingSection)));
    assert!(matches!(config.enable_dhcp("[Network\n"), Err(ConfigError::Parse)));
}

#[test]
fn static_ip_systemd() {
    let config = SystemdNetworkConfig::new("./tests/eth0.network.dhcp.test");
    assert!(config.is_dhcp(DHCP_FILE).unwrap() == true);
    let written = render(&config.static_ip(DHCP_FILE, "192.168.1.3/24", "192.168.1.1").unwrap());
    assert!(config.is_dhcp(&written).unwrap() == false);

    let comparitor_ip = Ipv4Address::new(192, 168, 1, 3);
    let ip_address = config.ip_address(&written).unwrap().expect("No ip address found");
    assert!(ip_address.ip == comparitor_ip);
    assert!(ip_address.prefix == 24);

    let comparitor_gw = Ipv4Address::new(192, 168, 1, 1);
    assert!(config.gateway(&written).unwrap().expect("No gateway address found") == comparitor_gw);
}

#[test]
fn static_ip_read_back() {
    let config = SystemdNetworkConfig::new("");
    for (address, ip, prefix) in [
        ("10.0.0.1/8", Ipv4Address::new(10, 0, 0, 1), 8u8),
        ("255.255.255.255/32", Ipv4Address::new(255, 255, 255, 255), 32u8),
        ("0.0.0.0/1", Ipv4Address::new(0, 0, 0, 0), 1u8),
    ] {
        let written = render(&config.static_ip(STATIC_FILE, address, "10.0.0.254").unwrap());
        assert_eq!(config.ip_address(&written), Ok(Some(IPv4Network { ip, prefix })));
        assert_eq!(config.gateway(&written), Ok(Some(Ipv4Address::new(10, 0, 0, 254))));
        assert_eq!(config.is_dhcp(&written), Ok(false));
    }
}

#[test]
fn static_ip_invalid_values_systemd() {
    let config = SystemdNetworkConfig::new("./tests/eth0.network.dhcp.validation");
    let file = DHCP_FILE;
    assert!(config.is_dhcp(file).unwrap() == true);
    assert!(config.static_ip(file, "192.broken.1.3/24", "192.168.1.1").is_err());
    assert!(config.static_ip(file, "192.300.1.3/24", "192.168.1.1").is_err());
    assert!(config.static_ip(file, "192.300.1.3/24", "192.168.1000.1").is_err());
    assert!(config.static_ip(file, "192.300.1.3/33", "192.168.1.1").is_err());
    assert!(config.static_ip(file, "192.168.1.3/33", "192.168.1.1").is_err());
    assert!(config.static_ip(file, "192.168.1.3", "192.168.1.1").is_err());
    assert!(config.static_ip(file, "192.168.1.3/31", "192.168.1.1").is_ok());
}

#[test]
fn static_ip_validation_error() {
    let config = SystemdNetworkConfig::new("");
    for (address, gateway) in [
        ("192.168.1.3/0", "192.168.1.1"),
        ("192.168.01.3/24", "192.168.1.1"),
        ("192.168.1.3/024", "192.168.1.1"),
        ("192.168.1.3/24", "192.168.1.1/24"),
        ("192.168.1.3/24 ", "192.168.1.1"),
        ("", ""),
    ] {
        assert!(matches!(
            config.static_ip(DHCP_FILE, address, gateway),
            Err(StaticIPError::Validation("Validation failed"))
        ));
    }
    assert!(matches!(
        config.static_ip(NO_NETWORK_FILE, "192.168.1.3/24", "192.168.1.1"),
        Err(StaticIPError::Config(ConfigError::MissingSection))
    ));
    assert!(matches!(
        config.static_ip("[Network\n", "192.168.1.3/24", "192.168.1.1"),
        Err(StaticIPError::Config(ConfigError::Parse))
    ));
}

#[test]
fn static_then_dhcp_end_to_end() {
    let config = SystemdNetworkConfig::new("");
    let static_text = render(&config.static_ip(DHCP_FILE, "192.168.1.3/24", "192.168.1.1").unwrap());
    let dhcp_text = render(&config.enable_dhcp(&static_text).unwrap());
    assert_eq!(config.is_dhcp(&dhcp_text), Ok(true));
    assert_eq!(config.ip_address(&dhcp_text), Ok(None));
    assert_eq!(config.gateway(&dhcp_text), Ok(None));
}

#[test]
fn address_parsers() {
    let s = "x192.168.1.3/24y";
    assert_eq!(parse_ipv4(s, 1, 12), Some(Ipv4Address::new(192, 168, 1, 3)));
    assert_eq!(
        parse_cidr(s, 1, 15),
        Some(IPv4Network { ip: Ipv4Address::new(192, 168, 1, 3), prefix: 24 })
    );
    assert_eq!(parse_ipv4("1.2.3", 0, 5), None);
    assert_eq!(parse_ipv4("1.2.3.4.5", 0, 9), None);
    assert_eq!(parse_ipv4("256.1.1.1", 0, 9), None);
    assert_eq!(parse_ipv4("00.1.1.1", 0, 8), None);
    assert_eq!(parse_cidr("1.2.3.4/", 0, 8), None);
    assert_eq!(parse_cidr("1.2.3.4/32", 0, 10).map(|n| n.prefix), Some(32));
}

#[test]
fn ubuntu_backend_is_unsupported() {
    let config = UbuntuUpstartNetworkConfig::new("");
    assert_eq!(config.is_dhcp(DHCP_FILE), Err(ConfigError::Unsupported));
    assert_eq!(config.ip_address(STATIC_FILE), Err(ConfigError::Unsupported));
    assert_eq!(config.gateway(STATIC_FILE), Err(ConfigError::Unsupported));
    assert!(matches!(config.dns(STATIC_FILE), Err(ConfigError::Unsupported)));
    assert!(matches!(config.get_settings_section(STATIC_FILE), Err(ConfigError::Unsupported)));
    assert!(matches!(config.enable_dhcp(STATIC_FILE), Err(ConfigError::Unsupported)));
    assert!(matches!(
        config.static_ip(STATIC_FILE, "192.168.1.3/24", "192.168.1.1"),
        Err(StaticIPError::Config(ConfigError::Unsupported))
    ));
}

#[test]
fn document_level_operations() {
    let conf = Ini::load_from_str(DHCP_FILE).unwrap();
    assert_eq!(dhcp_enabled_in(&conf), Ok(true));
    let conf = Ini::load_from_str(NO_NETWORK_FILE).unwrap();
    assert_eq!(dhcp_enabled_in(&conf), Err(ConfigError::MissingSection));

    let mut conf = Ini::load_from_str(STATIC_FILE).unwrap();
    assert_eq!(switch_to_dhcp(&mut conf), Ok(()));
    assert_eq!(conf.get_from(Some("Network"), "DHCP"), Some("both"));
    assert_eq!(conf.get_from(Some("Network"), "Address"), None);
    assert_eq!(conf.get_from(Some("Network"), "Gateway"), None);

    let mut conf = Ini::load_from_str(DHCP_FILE).unwrap();
    assert_eq!(switch_to_static(&mut conf, "10.0.0.2/8", "10.0.0.1"), Ok(()));
    assert_eq!(conf.get_from(Some("Network"), "DHCP"), Some("no"));
    assert_eq!(conf.get_from(Some("Network"), "Address"), Some("10.0.0.2/8"));
    assert_eq!(conf.get_from(Some("Network"), "Gateway"), Some("10.0.0.1"));
    assert_eq!(conf.get_from(Some("Match"), "Name"), Some("eth0"));

    let mut conf = Ini::load_from_str(NO_NETWORK_FILE).unwrap();
    assert_eq!(switch_to_dhcp(&mut conf), Err(ConfigError::MissingSection));
    assert_eq!(switch_to_static(&mut conf, "10.0.0.2/8", "10.0.0.1"), Err(ConfigError::MissingSection));
    assert_eq!(conf.section(Some("Network")).is_none(), true);
}

#[test]
fn static_input_validation() {
    assert!(valid_static_input("192.168.1.3/24", "192.168.1.1"));
    assert!(valid_static_input("0.0.0.0/32", "255.255.255.255"));
    assert!(!valid_static_input("192.168.1.3/0", "192.168.1.1"));
    assert!(!valid_static_input("192.168.1.3/24", "192.168.1.256"));
    assert!(!valid_static_input("192.168.1.3/24", "192.168.1.1/24"));
}

#[test]
fn section_runs_to_next_header_line() {
    let config = SystemdNetworkConfig::new("");
    assert_eq!(
        config.get_settings_section("[Network]\na[\n"),
        Some("[Network]\na[\n".to_string())
    );
    assert_eq!(
        config.get_settings_section("[Network]\nName=x[1]\n[Route]\nGateway=1.1.1.1\n"),
        Some("[Network]\nName=x[1]\n".to_string())
    );
}

#[test]
fn address_lines_without_a_prefix_are_absent() {
    let config = SystemdNetworkConfig::new("");
    assert_eq!(config.ip_address("[Network]\nAddress=10.0.0.1\n"), Ok(None));
    assert_eq!(config.ip_address("[Network]\nAddress=10.0.0.1/33\n"), Ok(None));
    assert_eq!(config.ip_address("[Network]\nAddress=10.0.0.1/0\n"), Ok(None));
    assert_eq!(
        config.ip_address("[Network]\nAddress=10.0.0.1/33\nAddress=10.0.0.2/30\n"),
        Ok(Some(IPv4Network { ip: Ipv4Address::new(10, 0, 0, 2), prefix: 30 }))
    );
}

#[test]
fn address_ends_at_the_prefix() {
    let config = SystemdNetworkConfig::new("");
    let expected = Ok(Some(IPv4Network { ip: Ipv4Address::new(192, 168, 1, 3), prefix: 24 }));
    assert_eq!(config.ip_address("[Network]\nAddress=192.168.1.3/24 \n"), expected);
    assert_eq!(config.ip_address("[Network]\r\nAddress=192.168.1.3/24\r\n"), expected);
    assert_eq!(config.ip_address("[Network]\nAddress=192.168.1.3/24 # office\n"), expected);
    assert_eq!(config.ip_address("[Network]\nAddress=192.168.1.3/245\n"), Ok(None));
    assert_eq!(
        config.ip_address("[Network]\nAddress=fe80:zz/64\nAddress=host/24\n"),
        Err(ConfigError::Malformed)
    );
}

#[test]
fn gateway_takes_the_address_run() {
    let config = SystemdNetworkConfig::new("");
    let expected = Ok(Some(Ipv4Address::new(192, 168, 1, 1)));
    assert_eq!(config.gateway("[Network]\nGateway=192.168.1.1 \n"), expected);
    assert_eq!(config.gateway("[Network]\r\nGateway=192.168.1.1\r\n"), expected);
    assert_eq!(config.gateway("[Network]\nGateway=192.168.1.1 # router\n"), expected);
    assert_eq!(config.gateway("[Network]\nGateway=_dhcp4\n"), Ok(None));
    assert_eq!(config.gateway("[Network]\nGateway=1.2.3.4.5\n"), Err(ConfigError::Malformed));
}

#[test]
fn dns_takes_the_address_run_of_each_line() {
    let config = SystemdNetworkConfig::new("");
    assert_eq!(
        config.dns("[Network]\nDNS=8.8.8.8 8.8.4.4\nDNS=1.1.1.1 \r\nDNS=9.9.9.9\r\n"),
        Some(vec![
            Ipv4Address::new(8, 8, 8, 8),
            Ipv4Address::new(1, 1, 1, 1),
            Ipv4Address::new(9, 9, 9, 9),
        ])
    );
    assert_eq!(config.dns("[Network]\nDNS=999.1.1.1\n"), None);
}

#[test]
fn keys_are_found_anywhere_in_the_section() {
    let config = SystemdNetworkConfig::new("");
    let text = "[Network]\n Address=1.1.1.1/8\n\tGateway=1.1.1.2\n  DNS=1.1.1.3\nDNS=1.1.1.4\n";
    assert_eq!(
        config.ip_address(text),
        Ok(Some(IPv4Network { ip: Ipv4Address::new(1, 1, 1, 1), prefix: 8 }))
    );
    assert_eq!(config.gateway(text), Ok(Some(Ipv4Address::new(1, 1, 1, 2))));
    assert_eq!(
        config.dns(text),
        Some(vec![Ipv4Address::new(1, 1, 1, 3), Ipv4Address::new(1, 1, 1, 4)])
    );
    assert_eq!(config.dns("[Network]\nDNS=8.8.8.8 DNS=8.8.4.4\n"), Some(vec![
        Ipv4Address::new(8, 8, 8, 8),
        Ipv4Address::new(8, 8, 4, 4),
    ]));
}

#[test]
fn indented_header_ends_the_section() {
    let config = SystemdNetworkConfig::new("");
    let text = "[Network]\nDHCP=no\n  [Route]\nGateway=10.0.0.1\n";
    assert_eq!(config.get_settings_section(text), Some("[Network]\nDHCP=no\n  ".to_string()));
    assert_eq!(config.gateway(text), Ok(None));
}

#[test]
fn name_servers_survive_rewrites() {
    let config = SystemdNetworkConfig::new("");
    let all = Some(vec![
        Ipv4Address::new(8, 8, 8, 8),
        Ipv4Address::new(8, 8, 4, 4),
        Ipv4Address::new(1, 1, 1, 1),
        Ipv4Address::new(9, 9, 9, 9),
    ]);
    let dhcp = render(&config.enable_dhcp(STATIC_WITH_DNS_FILE).unwrap());
    assert_eq!(config.dns(&dhcp), all);
    let stat = render(&config.static_ip(&dhcp, "10.0.0.2/8", "10.0.0.1").unwrap());
    assert_eq!(config.dns(&stat), all);
    assert_eq!(config.is_dhcp(&stat), Ok(false));
}
