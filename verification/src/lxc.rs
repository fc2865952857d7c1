//! Decisions of the container property editors: address modes of network devices and the
//! texts of the CPU and DNS settings.
use vstd::prelude::*;
use crate::json::{jview, Json, JsonValue};
use crate::text::{chars_eq, push_decimal, str_chars, string_from_chars};
use crate::guest::{net_key_id, net_property_id};

verus! {

/// How an interface gets its address.
#[derive(Clone, Copy, PartialEq, Eq, Structural, Debug)]
pub enum AddressMode {
    /// A configured address.
    Static,
    /// DHCP.
    Dhcp,
    /// IPv6 stateless autoconfiguration.
    Auto,
}

/// The IPv4 mode of a loaded `ip` setting: `dhcp`, or a static address. For DHCP the
/// address field is cleared (`true`).
pub fn ipv4_mode(ip: Option<&str>) -> (r: (AddressMode, bool))
    ensures
        r == ipv4_mode_spec(
            match ip {
                Some(s) => Some(s@),
                None => None,
            },
        ),
        r == match ip {
            Some(s) => if s@ == "dhcp"@ {
                (AddressMode::Dhcp, true)
            } else {
                (AddressMode::Static, false)
            },
            None => (AddressMode::Static, false),
        },
{
    match ip {
        Some(s) => {
            let c = str_chars(s);
            let dhcp = str_chars("dhcp");
            if chars_eq(c.as_slice(), dhcp.as_slice()) {
                (AddressMode::Dhcp, true)
            } else {
                (AddressMode::Static, false)
            }
        },
        None => (AddressMode::Static, false),
    }
}

/// The IPv6 mode of a loaded `ip6` setting: `dhcp`, `auto`, or a static address. For the
/// first two the address field is cleared (`true`).
pub fn ipv6_mode(ip6: Option<&str>) -> (r: (AddressMode, bool))
    ensures
        r == ipv6_mode_spec(
            match ip6 {
                Some(s) => Some(s@),
                None => None,
            },
        ),
        r == match ip6 {
            Some(s) => if s@ == "dhcp"@ {
                (AddressMode::Dhcp, true)
            } else if s@ == "auto"@ {
                (AddressMode::Auto, true)
            } else {
                (AddressMode::Static, false)
            },
            None => (AddressMode::Static, false),
        },
{
    match ip6 {
        Some(s) => {
            let c = str_chars(s);
            let dhcp = str_chars("dhcp");
            let auto = str_chars("auto");
            if chars_eq(c.as_slice(), dhcp.as_slice()) {
                (AddressMode::Dhcp, true)
            } else if chars_eq(c.as_slice(), auto.as_slice()) {
                (AddressMode::Auto, true)
            } else {
                (AddressMode::Static, false)
            }
        },
        None => (AddressMode::Static, false),
    }
}

/// The name of an address mode as the API and the form use it.
pub fn address_mode_name(mode: AddressMode) -> (r: &'static str)
    ensures
        r@ == mode_name_spec(mode),
        r@ == match mode {
            AddressMode::Static => "static"@,
            AddressMode::Dhcp => "dhcp"@,
            AddressMode::Auto => "auto"@,
        },
{
    match mode {
        AddressMode::Static => "static",
        AddressMode::Dhcp => "dhcp",
        AddressMode::Auto => "auto",
    }
}

/// The address submitted for a mode: a non-static mode is written in place of the address;
/// `None` keeps the address field.
pub fn submitted_address(mode: &str) -> (r: Option<String>)
    ensures
        match r {
            Some(s) => submitted_address_spec(mode@) == Some(s@),
            None => submitted_address_spec(mode@) is None,
        },
        match r {
            Some(s) => mode@ != "static"@ && s@ == mode@,
            None => mode@ == "static"@,
        },
{
    let m = str_chars(mode);
    let st = str_chars("static");
    if chars_eq(m.as_slice(), st.as_slice()) {
        None
    } else {
        Some(string_from_chars(m.as_slice()))
    }
}

/// CPU shares of a container unless configured.
pub const CPU_UNITS_DEFAULT: u64 = 100;

/// The core count shown for a container: the number, or `None` for unlimited.
pub fn cores_text(cores: Option<u64>) -> (r: Option<String>)
    ensures
        match cores {
            Some(n) => r is Some && r->0@ == crate::text::decimal_spec(n as nat),
            None => r is None,
        },
{
    match cores {
        Some(n) => {
            let mut v: Vec<char> = Vec::new();
            push_decimal(&mut v, n);
            Some(string_from_chars(v.as_slice()))
        },
        None => None,
    }
}

/// How a DNS setting is shown.
pub enum DnsText {
    /// The container uses the host's settings.
    HostSettings,
    /// The configured text.
    Text(String),
    /// Another value, shown as JSON.
    Json,
}

/// The DNS setting shown: none means the host's settings, a string is shown as it is.
pub fn dns_setting_text(value: &JsonValue) -> (r: DnsText)
    ensures
        match jview(*value) {
            Json::Null => r is HostSettings,
            Json::Str(s) => r is Text && r->Text_0@ == s,
            _ => r is Json,
        },
{
    match value {
        JsonValue::Null => DnsText::HostSettings,
        JsonValue::Str(s) => DnsText::Text(s.clone()),
        _ => DnsText::Json,
    }
}

// ---------------------------------------------------------------------------
// Interface names
// ---------------------------------------------------------------------------

/// Why an interface name is refused.
#[derive(Clone, Copy, PartialEq, Eq, Structural, Debug)]
pub enum NetworkNameError {
    /// Another network device of the container already uses the name.
    InUse,
}

/// Whether another network device than `editing` already has the interface name `value`.
/// `interfaces` holds, for each entry of the configuration that reads as a network device,
/// its key and its interface name; entries whose key is no `netN` key do not count.
pub open spec fn interface_name_taken(
    value: Seq<char>,
    editing: Option<Seq<char>>,
    interfaces: Seq<(Seq<char>, Seq<char>)>,
) -> bool {
    exists|i: int|
        #![trigger interfaces[i]]
        0 <= i < interfaces.len() && net_key_id(interfaces[i].0) is Some && editing != Some(
            interfaces[i].0,
        ) && interfaces[i].1 == value
}

/// The views of a list of (key, interface name) pairs.
pub open spec fn pair_views(v: Seq<(String, String)>) -> Seq<(Seq<char>, Seq<char>)> {
    v.map_values(|p: (String, String)| (p.0@, p.1@))
}

/// Checks the interface name of the network device being edited (`editing`, none for a new
/// one) against the other network devices of the container.
pub fn validate_network_name(value: &str, editing: Option<&str>, interfaces: &[(String, String)]) -> (r:
    Result<(), NetworkNameError>)
    ensures
        r is Ok <==> !interface_name_taken(
            value@,
            match editing {
                Some(e) => Some(e@),
                None => None,
            },
            pair_views(interfaces@),
        ),
{
    let ghost ed: Option<Seq<char>> = match editing {
        Some(e) => Some(e@),
        None => None,
    };
    let ghost pv = pair_views(interfaces@);
    let want = str_chars(value);
    let mut i: usize = 0;
    while i < interfaces.len()
        invariant
            i <= interfaces.len(),
            want@ == value@,
            pv == pair_views(interfaces@),
            ed == match editing {
                Some(e) => Some(e@),
                None => None::<Seq<char>>,
            },
            forall|j: int|
                #![trigger pv[j]]
                0 <= j < i ==> !(net_key_id(pv[j].0) is Some && ed != Some(pv[j].0) && pv[j].1
                    == value@),
        decreases interfaces.len() - i,
    {
        let key = &interfaces[i].0;
        let name = &interfaces[i].1;
        assert(pv[i as int] == (key@, name@));
        let is_net = net_property_id(key.as_str()).is_some();
        let same = match editing {
            Some(e) => {
                let a = str_chars(e);
                let b = str_chars(key.as_str());
                chars_eq(a.as_slice(), b.as_slice())
            },
            None => false,
        };
        if is_net && !same {
            let n = str_chars(name.as_str());
            if chars_eq(n.as_slice(), want.as_slice()) {
                assert(interface_name_taken(value@, ed, pv));
                return Err(NetworkNameError::InUse);
            }
        }
        i = i + 1;
    }
    Ok(())
}

/// The IPv4 mode of a loaded `ip` setting, and whether the address field is cleared.
pub open spec fn ipv4_mode_spec(ip: Option<Seq<char>>) -> (AddressMode, bool) {
    match ip {
        Some(s) => if s == "dhcp"@ {
            (AddressMode::Dhcp, true)
        } else {
            (AddressMode::Static, false)
        },
        None => (AddressMode::Static, false),
    }
}

/// The IPv6 mode of a loaded `ip6` setting, and whether the address field is cleared.
pub open spec fn ipv6_mode_spec(ip6: Option<Seq<char>>) -> (AddressMode, bool) {
    match ip6 {
        Some(s) => if s == "dhcp"@ {
            (AddressMode::Dhcp, true)
        } else if s == "auto"@ {
            (AddressMode::Auto, true)
        } else {
            (AddressMode::Static, false)
        },
        None => (AddressMode::Static, false),
    }
}

/// The name of an address mode.
pub open spec fn mode_name_spec(mode: AddressMode) -> Seq<char> {
    match mode {
        AddressMode::Static => "static"@,
        AddressMode::Dhcp => "dhcp"@,
        AddressMode::Auto => "auto"@,
    }
}

/// The address submitted for a mode name: the name itself unless it is `static`.
pub open spec fn submitted_address_spec(mode: Seq<char>) -> Option<Seq<char>> {
    if mode == "static"@ {
        None
    } else {
        Some(mode)
    }
}

/// An address set by DHCP (or IPv6 autoconfiguration) survives loading and submitting: the
/// mode loaded from it, written back by its name, is submitted as the same setting.
pub proof fn lemma_address_mode_roundtrip(ip: Seq<char>, ip6: Seq<char>)
    ensures
        ip == "dhcp"@ ==> submitted_address_spec(mode_name_spec(ipv4_mode_spec(Some(ip)).0))
            == Some(ip),
        (ip6 == "dhcp"@ || ip6 == "auto"@) ==> submitted_address_spec(
            mode_name_spec(ipv6_mode_spec(Some(ip6)).0),
        ) == Some(ip6),
{
    reveal_strlit("dhcp");
    reveal_strlit("auto");
    reveal_strlit("static");
    assert("dhcp"@.len() != "static"@.len());
    assert("auto"@.len() != "static"@.len());
    assert("dhcp"@ != "auto"@) by {
        assert("dhcp"@[0] != "auto"@[0]);
    }
}

} // verus!
