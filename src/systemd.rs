//! The systemd backend: reads the mode, addresses and name servers of a `.network` file,
//! and computes the document that switches it to DHCP or to a static address.
use vstd::prelude::*;
use ini::Ini;
use crate::address::{
    IPv4Network, Ipv4Address, cidr_text, octet_text, ipv4_text, is_cidr_text, is_ipv4_text, parse_cidr,
    parse_ipv4,
};
use crate::section::{
    address_list, address_part, find_cidr_key, find_run_key, first_cidr_key, first_run_key,
    prefix_part, read_run, scan_to_slash, run_addresses, run_part, scan_to, section_or_empty,
    settings_section, settings_section_of, value_start,
};
use crate::error::{ConfigError, StaticIPError};
use crate::ini_store::{delete_value, get_value, has_section, ini_parsed, ini_values, load_ini, set_value};

verus! {

pub const VALIDATION_FAILED: &'static str = "Validation failed";

pub const SYSTEMD_DEFAULT_PATH: &'static str = "/etc/systemd/network/eth0.network";

pub open spec fn network_name() -> Seq<char> {
    seq!['N', 'e', 't', 'w', 'o', 'r', 'k']
}

pub open spec fn dhcp_name() -> Seq<char> {
    seq!['D', 'H', 'C', 'P']
}

pub open spec fn address_name() -> Seq<char> {
    seq!['A', 'd', 'd', 'r', 'e', 's', 's']
}

pub open spec fn gateway_name() -> Seq<char> {
    seq!['G', 'a', 't', 'e', 'w', 'a', 'y']
}

pub open spec fn dns_name() -> Seq<char> {
    seq!['D', 'N', 'S']
}

/// A key as it stands in the text: its name and `=`.
pub open spec fn key_of(name: Seq<char>) -> Seq<char> {
    name + seq!['=']
}

/// The values of the DHCP field that turn DHCP on.
pub open spec fn enables_dhcp(v: Seq<char>) -> bool {
    v == seq!['b', 'o', 't', 'h'] || v == seq!['y', 'e', 's'] || v == seq!['i', 'p', 'v', '4']
        || v == seq!['i', 'p', 'v', '6']
}

/// The named sections of a document: every value of each key, in order.
pub type Sections = Map<Seq<char>, Map<Seq<char>, Seq<Seq<char>>>>;

/// Whether the `[Network]` section of `m` has DHCP turned on.
pub open spec fn dhcp_on(m: Sections) -> bool {
    m[network_name()].contains_key(dhcp_name()) && m[network_name()][dhcp_name()].len() > 0
        && enables_dhcp(m[network_name()][dhcp_name()][0])
}

/// `m` switched to DHCP: DHCP set to the one value `both`, no Address and no Gateway,
/// every other key and section as it was.
pub open spec fn dhcp_sections(m: Sections) -> Sections {
    m.insert(
        network_name(),
        m[network_name()].insert(dhcp_name(), seq![seq!['b', 'o', 't', 'h']]).remove(
            address_name(),
        ).remove(gateway_name()),
    )
}

/// `m` switched to the static address `a` with gateway `g`, each the one value of its key,
/// and DHCP set to the one value `no`; every other key and section as it was.
pub open spec fn static_sections(m: Sections, a: Seq<char>, g: Seq<char>) -> Sections {
    m.insert(
        network_name(),
        m[network_name()].insert(dhcp_name(), seq![seq!['n', 'o']]).insert(
            address_name(),
            seq![a],
        ).insert(gateway_name(), seq![g]),
    )
}

/// `a` and `b` are the same text.
pub fn text_equals(a: &str, b: &str) -> (r: bool)
    ensures
        r == (a@ == b@),
{
    let n = a.unicode_len();
    if n != b.unicode_len() {
        return false;
    }
    let mut i: usize = 0;
    while i < n
        invariant
            i <= n == a@.len() == b@.len(),
            forall|k: int| 0 <= k < i ==> a@[k] == b@[k],
        decreases n - i,
    {
        if a.get_char(i) != b.get_char(i) {
            return false;
        }
        i = i + 1;
    }
    assert(a@ =~= b@);
    true
}

/// Whether a value of the DHCP field turns DHCP on: `both`, `yes`, `ipv4` or `ipv6`.
pub fn is_dhcp_value(v: &str) -> (r: bool)
    ensures
        r == enables_dhcp(v@),
{
    proof {
        reveal_strlit("both");
        reveal_strlit("yes");
        reveal_strlit("ipv4");
        reveal_strlit("ipv6");
        assert("both"@ =~= seq!['b', 'o', 't', 'h']);
        assert("yes"@ =~= seq!['y', 'e', 's']);
        assert("ipv4"@ =~= seq!['i', 'p', 'v', '4']);
        assert("ipv6"@ =~= seq!['i', 'p', 'v', '6']);
    }
    text_equals(v, "both") || text_equals(v, "yes") || text_equals(v, "ipv4") || text_equals(
        v,
        "ipv6",
    )
}

/// Whether `address` is CIDR text with a prefix length from 1 to 32 and `gateway` a
/// dotted-quad address, each octet from 0 to 255 without leading zeros.
pub fn valid_static_input(address: &str, gateway: &str) -> (r: bool)
    ensures
        r == (is_cidr_text(address@) && is_ipv4_text(gateway@)),
{
    let a_len = address.unicode_len();
    let g_len = gateway.unicode_len();
    proof {
        assert(address@.subrange(0, a_len as int) =~= address@);
        assert(gateway@.subrange(0, g_len as int) =~= gateway@);
    }
    parse_cidr(address, 0, a_len).is_some() && parse_ipv4(gateway, 0, g_len).is_some()
}

/// The DHCP mode of settings `m`: an error where they have no `[Network]` section.
pub open spec fn dhcp_state(m: Sections) -> Result<bool, ConfigError> {
    if m.contains_key(network_name()) {
        Ok(dhcp_on(m))
    } else {
        Err(ConfigError::MissingSection)
    }
}

/// Whether the `[Network]` section of `conf` has DHCP turned on.
pub fn dhcp_enabled_in(conf: &Ini) -> (r: Result<bool, ConfigError>)
    ensures
        r == dhcp_state(ini_values(*conf)),
{
    proof {
        reveal_strlit("Network");
        reveal_strlit("DHCP");
        assert("Network"@ =~= network_name());
        assert("DHCP"@ =~= dhcp_name());
    }
    if !has_section(conf, "Network") {
        return Err(ConfigError::MissingSection);
    }
    match get_value(conf, "Network", "DHCP") {
        Some(v) => Ok(is_dhcp_value(v.as_str())),
        None => Ok(false),
    }
}

/// Switches `conf` to DHCP: DHCP set to `both`, Address and Gateway removed from its
/// `[Network]` section. Where it has no such section it is left as it is.
pub fn switch_to_dhcp(conf: &mut Ini) -> (r: Result<(), ConfigError>)
    ensures
        if ini_values(*old(conf)).contains_key(network_name()) {
            r is Ok && ini_values(*final(conf)) == dhcp_sections(ini_values(*old(conf)))
        } else {
            r == Err::<(), ConfigError>(ConfigError::MissingSection) && *final(conf) == *old(conf)
        },
{
    proof {
        reveal_strlit("Network");
        reveal_strlit("DHCP");
        reveal_strlit("both");
        reveal_strlit("Address");
        reveal_strlit("Gateway");
        assert("Network"@ =~= network_name());
        assert("DHCP"@ =~= dhcp_name());
        assert("both"@ =~= seq!['b', 'o', 't', 'h']);
        assert("Address"@ =~= address_name());
        assert("Gateway"@ =~= gateway_name());
    }
    if !has_section(conf, "Network") {
        return Err(ConfigError::MissingSection);
    }
    let ghost m = ini_values(*conf);
    set_value(conf, "Network", "DHCP", "both");
    delete_value(conf, "Network", "Address");
    delete_value(conf, "Network", "Gateway");
    proof {
        assert(ini_values(*conf) =~= dhcp_sections(m));
    }
    Ok(())
}

/// Switches `conf` to the static `address` and `gateway`, with DHCP set to `no`. Where it
/// has no `[Network]` section it is left as it is.
pub fn switch_to_static(conf: &mut Ini, address: &str, gateway: &str) -> (r: Result<
    (),
    ConfigError,
>)
    ensures
        if ini_values(*old(conf)).contains_key(network_name()) {
            r is Ok && ini_values(*final(conf)) == static_sections(
                ini_values(*old(conf)),
                address@,
                gateway@,
            )
        } else {
            r == Err::<(), ConfigError>(ConfigError::MissingSection) && *final(conf) == *old(conf)
        },
{
    proof {
        reveal_strlit("Network");
        reveal_strlit("DHCP");
        reveal_strlit("no");
        reveal_strlit("Address");
        reveal_strlit("Gateway");
        assert("Network"@ =~= network_name());
        assert("DHCP"@ =~= dhcp_name());
        assert("no"@ =~= seq!['n', 'o']);
        assert("Address"@ =~= address_name());
        assert("Gateway"@ =~= gateway_name());
    }
    if !has_section(conf, "Network") {
        return Err(ConfigError::MissingSection);
    }
    let ghost m = ini_values(*conf);
    set_value(conf, "Network", "DHCP", "no");
    set_value(conf, "Network", "Address", address);
    set_value(conf, "Network", "Gateway", gateway);
    proof {
        assert(ini_values(*conf) =~= static_sections(m, address@, gateway@));
    }
    Ok(())
}

/// The configuration of an interface in a systemd `.network` file.
pub struct SystemdNetworkConfig {
    pub path: String,
}

impl SystemdNetworkConfig {
    /// The configuration kept at `path`, or at the default path where `path` is empty.
    pub fn new(path: &str) -> (r: SystemdNetworkConfig)
        ensures
            r.path@ == (if path@.len() == 0 {
                SYSTEMD_DEFAULT_PATH@
            } else {
                path@
            }),
    {
        if path.unicode_len() == 0 {
            SystemdNetworkConfig { path: SYSTEMD_DEFAULT_PATH.to_owned() }
        } else {
            SystemdNetworkConfig { path: path.to_owned() }
        }
    }

    /// Where the configuration file is kept.
    pub fn path(&self) -> (r: &str)
        ensures
            r@ == self.path@,
    {
        self.path.as_str()
    }

    /// Whether the file with contents `content` has DHCP turned on.
    pub fn is_dhcp(&self, content: &str) -> (r: Result<bool, ConfigError>)
        ensures
            match ini_parsed(content@) {
                None => r == Err::<bool, ConfigError>(ConfigError::Parse),
                Some(m) => r == dhcp_state(m),
            },
    {
        match load_ini(content) {
            Some(conf) => dhcp_enabled_in(&conf),
            None => Err(ConfigError::Parse),
        }
    }

    /// The text of the `[Network]` section of `content`, up to the next section.
    pub fn get_settings_section(&self, content: &str) -> (r: Option<String>)
        ensures
            match r {
                Some(t) => settings_section(content@) == Some(t@),
                None => settings_section(content@) is None,
            },
    {
        settings_section_of(content)
    }

    /// The address and prefix length that follow the first `Address=` of the `[Network]`
    /// section that reads `address/prefix` (the address part runs to the next slash, the
    /// prefix is 1 to 32 and ends at a word boundary); `None` where none does, `Malformed`
    /// where that address part is no dotted quad.
    pub fn ip_address(&self, content: &str) -> (r: Result<Option<IPv4Network>, ConfigError>)
        ensures
            ({
                let sec = section_or_empty(content@);
                match first_cidr_key(sec, key_of(address_name()), 0) {
                    None => r == Ok::<Option<IPv4Network>, ConfigError>(None),
                    Some(i) => {
                        let lo = value_start(i, key_of(address_name()));
                        let hi = sec.len() as int;
                        if is_ipv4_text(address_part(sec, lo, hi)) {
                            r matches Ok(Some(n)) && n.wf() && ipv4_text(n.ip) == address_part(
                                sec,
                                lo,
                                hi,
                            ) && octet_text(n.prefix as int) == prefix_part(sec, lo, hi)
                        } else {
                            r == Err::<Option<IPv4Network>, ConfigError>(ConfigError::Malformed)
                        }
                    },
                }
            }),
    {
        let section = match settings_section_of(content) {
            Some(t) => t,
            None => String::new(),
        };
        let sec = section.as_str();
        proof {
            reveal_strlit("Address=");
            assert("Address="@ =~= key_of(address_name()));
        }
        match find_cidr_key(sec, "Address=") {
            None => Ok(None),
            Some((lo, hi, p)) => {
                let k = scan_to_slash(sec, lo, hi);
                match parse_ipv4(sec, lo, k) {
                    Some(ip) => Ok(Some(IPv4Network { ip, prefix: p })),
                    None => Err(ConfigError::Malformed),
                }
            },
        }
    }

    /// The run of digits and dots after the first `Gateway=` of the `[Network]` section that
    /// is followed by one, read as an address; `None` where there is none, `Malformed` where
    /// that run is no dotted quad.
    pub fn gateway(&self, content: &str) -> (r: Result<Option<Ipv4Address>, ConfigError>)
        ensures
            ({
                let sec = section_or_empty(content@);
                match first_run_key(sec, key_of(gateway_name()), 0) {
                    None => r == Ok::<Option<Ipv4Address>, ConfigError>(None),
                    Some(i) => {
                        let lo = value_start(i, key_of(gateway_name()));
                        let g = run_part(sec, lo, sec.len() as int);
                        if is_ipv4_text(g) {
                            r matches Ok(Some(a)) && ipv4_text(a) == g
                        } else {
                            r == Err::<Option<Ipv4Address>, ConfigError>(ConfigError::Malformed)
                        }
                    },
                }
            }),
    {
        let section = match settings_section_of(content) {
            Some(t) => t,
            None => String::new(),
        };
        let sec = section.as_str();
        proof {
            reveal_strlit("Gateway=");
            assert("Gateway="@ =~= key_of(gateway_name()));
        }
        match find_run_key(sec, "Gateway=") {
            None => Ok(None),
            Some((lo, hi)) => match read_run(sec, lo, hi) {
                Some(a) => Ok(Some(a)),
                None => Err(ConfigError::Malformed),
            },
        }
    }

    /// The name servers of the `[Network]` section, in file order: the run of digits and dots
    /// after each `DNS=`; `None` where there is none. Runs that are no address are passed
    /// over.
    pub fn dns(&self, content: &str) -> (r: Option<Vec<Ipv4Address>>)
        ensures
            ({
                let vals = run_addresses(section_or_empty(content@), key_of(dns_name()), 0);
                match r {
                    None => vals.len() == 0,
                    Some(v) => v@.len() == vals.len() && vals.len() > 0 && forall|j: int|
                        0 <= j < v@.len() ==> ipv4_text(#[trigger] v@[j]) == vals[j],
                }
            }),
    {
        let section = match settings_section_of(content) {
            Some(t) => t,
            None => String::new(),
        };
        proof {
            reveal_strlit("DNS=");
            assert("DNS="@ =~= key_of(dns_name()));
        }
        let servers = address_list(section.as_str(), "DNS=");
        if servers.len() > 0 {
            Some(servers)
        } else {
            None
        }
    }

    /// The document of `content` switched to DHCP: DHCP set to `both`, Address and Gateway
    /// removed from the `[Network]` section, everything else kept.
    pub fn enable_dhcp(&self, content: &str) -> (r: Result<Ini, ConfigError>)
        ensures
            match ini_parsed(content@) {
                None => r matches Err(e) && e == ConfigError::Parse,
                Some(m) => if m.contains_key(network_name()) {
                    r matches Ok(c) && ini_values(c) == dhcp_sections(m)
                } else {
                    r matches Err(e) && e == ConfigError::MissingSection
                },
            },
    {
        let mut conf = match load_ini(content) {
            Some(c) => c,
            None => return Err(ConfigError::Parse),
        };
        match switch_to_dhcp(&mut conf) {
            Ok(()) => Ok(conf),
            Err(e) => Err(e),
        }
    }

    /// The document of `content` switched to the static `address` (CIDR text, prefix 1 to
    /// 32) and `gateway` (dotted quad), with DHCP set to `no`. Either text written
    /// otherwise is refused before anything else is done.
    pub fn static_ip(&self, content: &str, address: &str, gateway: &str) -> (r: Result<
        Ini,
        StaticIPError,
    >)
        ensures
            !(is_cidr_text(address@) && is_ipv4_text(gateway@)) ==> (r matches Err(
                StaticIPError::Validation(m),
            ) && m == VALIDATION_FAILED),
            is_cidr_text(address@) && is_ipv4_text(gateway@) ==> match ini_parsed(content@) {
                None => r matches Err(StaticIPError::Config(e)) && e == ConfigError::Parse,
                Some(m) => if m.contains_key(network_name()) {
                    r matches Ok(c) && ini_values(c) == static_sections(m, address@, gateway@)
                } else {
                    r matches Err(StaticIPError::Config(e)) && e == ConfigError::MissingSection
                },
            },
    {
        if !valid_static_input(address, gateway) {
            return Err(StaticIPError::Validation(VALIDATION_FAILED));
        }
        let mut conf = match load_ini(content) {
            Some(c) => c,
            None => return Err(StaticIPError::Config(ConfigError::Parse)),
        };
        match switch_to_static(&mut conf, address, gateway) {
            Ok(()) => Ok(conf),
            Err(e) => Err(StaticIPError::Config(e)),
        }
    }
}

/// Switching to DHCP twice leaves the same settings as switching once, and the settings
/// it leaves have DHCP on and neither an Address nor a Gateway.
pub proof fn lemma_enable_dhcp_idempotent(m: Sections)
    requires
        m.contains_key(network_name()),
    ensures
        dhcp_sections(dhcp_sections(m)) == dhcp_sections(m),
        dhcp_on(dhcp_sections(m)),
        !dhcp_sections(m)[network_name()].contains_key(address_name()),
        !dhcp_sections(m)[network_name()].contains_key(gateway_name()),
{
    let once = dhcp_sections(m);
    assert(network_name() != address_name() && network_name() != gateway_name());
    assert(dhcp_name() != address_name());
    assert(dhcp_name() != gateway_name());
    assert(once[network_name()].contains_key(dhcp_name()));
    assert(once[network_name()] =~= once[network_name()].insert(dhcp_name(), seq![seq!['b', 'o', 't', 'h']]).remove(address_name()).remove(gateway_name()));
    assert(dhcp_sections(once) =~= once);
}

/// After switching to a static network `n`, the settings have DHCP off and hold the text
/// of `n` as Address and `g` as Gateway; that text is the text of `n` alone, so reading
/// the Address back gives `n`.
pub proof fn lemma_static_ip_read_back(m: Sections, n: IPv4Network, g: Seq<char>)
    requires
        m.contains_key(network_name()),
        n.wf(),
    ensures
        !dhcp_on(static_sections(m, cidr_text(n), g)),
        static_sections(m, cidr_text(n), g)[network_name()][address_name()] == seq![cidr_text(n)],
        static_sections(m, cidr_text(n), g)[network_name()][gateway_name()] == seq![g],
        forall|k: IPv4Network| k.wf() && cidr_text(k) == cidr_text(n) ==> k == n,
{
    let sec = static_sections(m, cidr_text(n), g)[network_name()];
    assert(address_name() != gateway_name());
    assert(dhcp_name() != gateway_name());
    assert(dhcp_name() != address_name());
    assert(sec[dhcp_name()] == seq![seq!['n', 'o']]);
    assert(seq!['n', 'o'].len() == 2);
    assert(sec[dhcp_name()][0] == seq!['n', 'o']);
    assert forall|k: IPv4Network| k.wf() && cidr_text(k) == cidr_text(n) implies k == n by {
        crate::address::lemma_cidr_text_injective(k, n);
    }
}

} // verus!
