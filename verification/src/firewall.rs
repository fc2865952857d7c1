//! Firewall configuration: API locations and titles per scope, the summary of a rule, rate
//! values (`number/unit`) and the log rate limit property string.
use vstd::prelude::*;
use crate::http::{percent_encode_component, percent_encoded_component};
use crate::text::{
    decimal_spec, parse_unsigned, parse_unsigned_spec, push_chars, push_decimal, push_str,
    split_once, split_once_spec, str_chars, string_from_chars, chars_eq, lemma_decimal_roundtrip,
    all_ascii_digits, digits_value,
};

verus! {

// ---------------------------------------------------------------------------
// Scopes
// ---------------------------------------------------------------------------

/// The scope of a firewall configuration.
pub enum FirewallContext {
    /// The cluster of a remote.
    Cluster { remote: String },
    /// A node of a remote.
    Node { remote: String, node: String },
    /// A guest; `node` may be empty.
    Guest { remote: String, node: String, vmid: u64, vmtype: String },
}

/// The API location of a scope's `rules` or `options`.
pub open spec fn firewall_url_spec(ctx: FirewallContext, what: Seq<char>) -> Seq<char> {
    match ctx {
        FirewallContext::Cluster { remote } => "/pve/remotes/"@ + percent_encoded_component(
            remote@,
        ) + "/firewall/"@ + what,
        FirewallContext::Node { remote, node } => "/pve/remotes/"@ + percent_encoded_component(
            remote@,
        ) + "/nodes/"@ + percent_encoded_component(node@) + "/firewall/"@ + what,
        FirewallContext::Guest { remote, node, vmid, vmtype } => {
            let base = "/pve/remotes/"@ + percent_encoded_component(remote@) + "/"@
                + percent_encoded_component(vmtype@) + "/"@ + decimal_spec(vmid as nat)
                + "/firewall/"@ + what;
            if node@.len() == 0 {
                base
            } else {
                base + "?node="@ + percent_encoded_component(node@)
            }
        },
    }
}

/// The part of a scope's API location before the `rules` or `options` segment (it ends in
/// `/firewall/`).
pub open spec fn firewall_url_prefix(ctx: FirewallContext) -> Seq<char> {
    match ctx {
        FirewallContext::Cluster { remote } => "/pve/remotes/"@ + percent_encoded_component(
            remote@,
        ) + "/firewall/"@,
        FirewallContext::Node { remote, node } => "/pve/remotes/"@ + percent_encoded_component(
            remote@,
        ) + "/nodes/"@ + percent_encoded_component(node@) + "/firewall/"@,
        FirewallContext::Guest { remote, node, vmid, vmtype } => "/pve/remotes/"@
            + percent_encoded_component(remote@) + "/"@ + percent_encoded_component(vmtype@)
            + "/"@ + decimal_spec(vmid as nat) + "/firewall/"@,
    }
}

/// The part of a scope's API location after the `rules` or `options` segment: the node
/// query of a guest with a node, else nothing.
pub open spec fn firewall_url_query(ctx: FirewallContext) -> Seq<char> {
    match ctx {
        FirewallContext::Guest { node, .. } => if node@.len() == 0 {
            Seq::empty()
        } else {
            "?node="@ + percent_encoded_component(node@)
        },
        _ => Seq::empty(),
    }
}

/// The options of a scope live where its rules do, with the `rules` segment replaced by
/// `options`: the same encoded remote, node, guest type and id, and the same node query.
pub proof fn lemma_options_url_replaces_rules(ctx: FirewallContext)
    ensures
        firewall_url_spec(ctx, "rules"@) == firewall_url_prefix(ctx) + "rules"@
            + firewall_url_query(ctx),
        firewall_url_spec(ctx, "options"@) == firewall_url_prefix(ctx) + "options"@
            + firewall_url_query(ctx),
{
    match ctx {
        FirewallContext::Guest { remote, node, vmid, vmtype } => {
            let p = firewall_url_prefix(ctx);
            assert(p + "rules"@ + Seq::<char>::empty() =~= p + "rules"@);
            assert(p + "options"@ + Seq::<char>::empty() =~= p + "options"@);
            let q = "?node="@ + percent_encoded_component(node@);
            assert(p + "rules"@ + q =~= firewall_url_spec(ctx, "rules"@) || node@.len() == 0);
            assert(p + "options"@ + q =~= firewall_url_spec(ctx, "options"@) || node@.len() == 0);
        },
        _ => {
            let p = firewall_url_prefix(ctx);
            assert(p + "rules"@ + Seq::<char>::empty() =~= p + "rules"@);
            assert(p + "options"@ + Seq::<char>::empty() =~= p + "options"@);
        },
    }
}

/// What `str::to_uppercase` makes of a string.
pub uninterp spec fn uppercase_of(s: Seq<char>) -> Seq<char>;

/// ASCII upper-casing of a single character.
pub open spec fn ascii_upper(c: char) -> char {
    if 'a' <= c && c <= 'z' {
        ((c as u32) - 32) as char
    } else {
        c
    }
}

/// `str::to_uppercase`: the Unicode upper-case mapping of the text. The mapping is named;
/// on ASCII text it upper-cases the letters and keeps everything else.
#[verifier::external_body]
fn to_uppercase(s: &str) -> (r: String)
    ensures
        r@ == uppercase_of(s@),
        (forall|i: int| 0 <= i < s@.len() ==> (#[trigger] s@[i] as u32) < 128) ==> r@ == s@.map_values(
            |c: char| ascii_upper(c),
        ),
{
    s.to_uppercase()
}

/// The string of a character list.
fn chars_string(v: &Vec<char>) -> (s: String)
    ensures
        s@ == v@,
{
    string_from_chars(v.as_slice())
}

impl FirewallContext {
    /// The cluster scope of a remote.
    pub fn cluster(remote: String) -> (c: Self)
        ensures
            c == (FirewallContext::Cluster { remote }),
    {
        FirewallContext::Cluster { remote }
    }

    /// The scope of a node.
    pub fn node(remote: String, node: String) -> (c: Self)
        ensures
            c == (FirewallContext::Node { remote, node }),
    {
        FirewallContext::Node { remote, node }
    }

    /// The scope of a guest.
    pub fn guest(remote: String, node: String, vmid: u64, vmtype: String) -> (c: Self)
        ensures
            c == (FirewallContext::Guest { remote, node, vmid, vmtype }),
    {
        FirewallContext::Guest { remote, node, vmid, vmtype }
    }

    fn url(&self, what: &str) -> (r: String)
        ensures
            r@ == firewall_url_spec(*self, what@),
    {
        let mut out: Vec<char> = Vec::new();
        push_str(&mut out, "/pve/remotes/");
        match self {
            FirewallContext::Cluster { remote } => {
                let r = percent_encode_component(remote.as_str());
                push_str(&mut out, r.as_str());
                push_str(&mut out, "/firewall/");
                push_str(&mut out, what);
            },
            FirewallContext::Node { remote, node } => {
                let r = percent_encode_component(remote.as_str());
                push_str(&mut out, r.as_str());
                push_str(&mut out, "/nodes/");
                let n = percent_encode_component(node.as_str());
                push_str(&mut out, n.as_str());
                push_str(&mut out, "/firewall/");
                push_str(&mut out, what);
            },
            FirewallContext::Guest { remote, node, vmid, vmtype } => {
                let r = percent_encode_component(remote.as_str());
                push_str(&mut out, r.as_str());
                push_str(&mut out, "/");
                let t = percent_encode_component(vmtype.as_str());
                push_str(&mut out, t.as_str());
                push_str(&mut out, "/");
                push_decimal(&mut out, *vmid);
                push_str(&mut out, "/firewall/");
                push_str(&mut out, what);
                let nc = str_chars(node.as_str());
                if nc.len() > 0 {
                    push_str(&mut out, "?node=");
                    let n = percent_encode_component(node.as_str());
                    push_str(&mut out, n.as_str());
                }
            },
        }
        chars_string(&out)
    }

    /// Where the rules of the scope are read and written.
    pub fn rules_url(&self) -> (r: String)
        ensures
            r@ == firewall_url_spec(*self, "rules"@),
    {
        self.url("rules")
    }

    /// Where the options of the scope are read and written.
    pub fn options_url(&self) -> (r: String)
        ensures
            r@ == firewall_url_spec(*self, "options"@),
    {
        self.url("options")
    }

    /// A title naming the scope: `prefix: remote` (just the prefix for a cluster without
    /// remote), `prefix: remote/node`, or `prefix: remote/VMTYPE vmid`.
    pub fn title(&self, prefix: &str) -> (r: String)
        ensures
            r@ == match *self {
                FirewallContext::Cluster { remote } => if remote@.len() == 0 {
                    prefix@
                } else {
                    prefix@ + ": "@ + remote@
                },
                FirewallContext::Node { remote, node } => prefix@ + ": "@ + remote@ + "/"@
                    + node@,
                FirewallContext::Guest { remote, vmtype, vmid, .. } => prefix@ + ": "@ + remote@
                    + "/"@ + uppercase_of(vmtype@) + " "@ + decimal_spec(vmid as nat),
            },
            match *self {
                FirewallContext::Guest { remote, vmtype, vmid, .. } => (forall|i: int|
                    0 <= i < vmtype@.len() ==> (#[trigger] vmtype@[i] as u32) < 128) ==> r@ == prefix@
                    + ": "@ + remote@ + "/"@ + vmtype@.map_values(|c: char| ascii_upper(c)) + " "@
                    + decimal_spec(vmid as nat),
                _ => true,
            },
    {
        let mut out: Vec<char> = Vec::new();
        push_str(&mut out, prefix);
        match self {
            FirewallContext::Cluster { remote } => {
                let rc = str_chars(remote.as_str());
                if rc.len() > 0 {
                    push_str(&mut out, ": ");
                    push_str(&mut out, remote.as_str());
                }
            },
            FirewallContext::Node { remote, node } => {
                push_str(&mut out, ": ");
                push_str(&mut out, remote.as_str());
                push_str(&mut out, "/");
                push_str(&mut out, node.as_str());
            },
            FirewallContext::Guest { remote, vmtype, vmid, .. } => {
                push_str(&mut out, ": ");
                push_str(&mut out, remote.as_str());
                push_str(&mut out, "/");
                let up = to_uppercase(vmtype.as_str());
                push_str(&mut out, up.as_str());
                push_str(&mut out, " ");
                push_decimal(&mut out, *vmid);
            },
        }
        chars_string(&out)
    }
}

// ---------------------------------------------------------------------------
// Rule summaries
// ---------------------------------------------------------------------------

/// The fields of a firewall rule that its summary shows.
pub struct FirewallRuleInfo {
    pub iface: Option<String>,
    pub macro_name: Option<String>,
    pub proto: Option<String>,
    pub icmp_type: Option<String>,
    pub source: Option<String>,
    pub sport: Option<String>,
    pub dest: Option<String>,
    pub dport: Option<String>,
}

/// Whether a protocol is one of the ICMP protocols.
pub open spec fn is_icmp(proto: Seq<char>) -> bool {
    proto == "icmp"@ || proto == "icmpv6"@ || proto == "ipv6-icmp"@
}

/// The summary part of a host and port pair, if there is one.
pub open spec fn host_port_part(label: Seq<char>, host: Option<String>, port: Option<String>) -> Option<
    Seq<char>,
> {
    match (host, port) {
        (Some(h), Some(p)) => Some(label + ": "@ + h@ + ", port: "@ + p@),
        (Some(h), None) => Some(label + ": "@ + h@),
        (None, Some(p)) => Some(label + ": any, port: "@ + p@),
        (None, None) => None,
    }
}

/// The parts of a rule's summary, in order.
pub open spec fn rule_parts_spec(rule: FirewallRuleInfo) -> Seq<Seq<char>> {
    let a = match rule.iface {
        Some(i) => seq!["iface: "@ + i@],
        None => Seq::empty(),
    };
    let b = match rule.macro_name {
        Some(m) => seq!["macro: "@ + m@],
        None => Seq::empty(),
    };
    let c = match rule.proto {
        Some(p) => {
            let up = uppercase_of(p@);
            let text = if is_icmp(p@) && rule.icmp_type is Some {
                up + ", "@ + rule.icmp_type->0@
            } else {
                up
            };
            seq!["proto: "@ + text]
        },
        None => Seq::empty(),
    };
    let d = match host_port_part("src"@, rule.source, rule.sport) {
        Some(x) => seq![x],
        None => Seq::empty(),
    };
    let e = match host_port_part("dest"@, rule.dest, rule.dport) {
        Some(x) => seq![x],
        None => Seq::empty(),
    };
    a + b + c + d + e
}

/// The summary of a rule for an ICMP protocol (`icmp`, `icmpv6` or `ipv6-icmp`) that names
/// an ICMP type shows that type after the upper-cased protocol: its protocol part, which
/// follows the interface and macro parts that are present, is `proto: PROTO, type`.
pub proof fn lemma_icmp_rule_names_its_type(rule: FirewallRuleInfo, p: String, t: String)
    requires
        rule.proto == Some(p),
        rule.icmp_type == Some(t),
        p@ == "icmp"@ || p@ == "icmpv6"@ || p@ == "ipv6-icmp"@,
    ensures
        ({
            let k = (if rule.iface is Some { 1int } else { 0int }) + (if rule.macro_name is Some {
                1int
            } else {
                0int
            });
            &&& k < rule_parts_spec(rule).len()
            &&& rule_parts_spec(rule)[k] == "proto: "@ + uppercase_of(p@) + ", "@ + t@
        }),
{
    let a = match rule.iface {
        Some(i) => seq!["iface: "@ + i@],
        None => Seq::<Seq<char>>::empty(),
    };
    let b = match rule.macro_name {
        Some(m) => seq!["macro: "@ + m@],
        None => Seq::<Seq<char>>::empty(),
    };
    let c = seq!["proto: "@ + (uppercase_of(p@) + ", "@ + t@)];
    let d = match host_port_part("src"@, rule.source, rule.sport) {
        Some(x) => seq![x],
        None => Seq::<Seq<char>>::empty(),
    };
    let e = match host_port_part("dest"@, rule.dest, rule.dport) {
        Some(x) => seq![x],
        None => Seq::<Seq<char>>::empty(),
    };
    assert(is_icmp(p@));
    assert(rule_parts_spec(rule) == a + b + c + d + e);
    let k = a.len() + b.len() + 0int;
    assert((a + b + c + d + e)[k] == c[0]);
    assert("proto: "@ + (uppercase_of(p@) + ", "@ + t@) =~= "proto: "@ + uppercase_of(p@) + ", "@ + t@);
}

/// The summary of a rule for any other protocol, or for an ICMP protocol without an ICMP
/// type, shows just the upper-cased protocol as its protocol part.
pub proof fn lemma_rule_protocol_part(rule: FirewallRuleInfo, p: String)
    requires
        rule.proto == Some(p),
        !(p@ == "icmp"@ || p@ == "icmpv6"@ || p@ == "ipv6-icmp"@) || rule.icmp_type is None,
    ensures
        ({
            let k = (if rule.iface is Some { 1int } else { 0int }) + (if rule.macro_name is Some {
                1int
            } else {
                0int
            });
            &&& k < rule_parts_spec(rule).len()
            &&& rule_parts_spec(rule)[k] == "proto: "@ + uppercase_of(p@)
        }),
{
    let a = match rule.iface {
        Some(i) => seq!["iface: "@ + i@],
        None => Seq::<Seq<char>>::empty(),
    };
    let b = match rule.macro_name {
        Some(m) => seq!["macro: "@ + m@],
        None => Seq::<Seq<char>>::empty(),
    };
    let c = seq!["proto: "@ + uppercase_of(p@)];
    let d = match host_port_part("src"@, rule.source, rule.sport) {
        Some(x) => seq![x],
        None => Seq::<Seq<char>>::empty(),
    };
    let e = match host_port_part("dest"@, rule.dest, rule.dport) {
        Some(x) => seq![x],
        None => Seq::<Seq<char>>::empty(),
    };
    assert(rule_parts_spec(rule) == a + b + c + d + e);
    let k = a.len() + b.len() + 0int;
    assert((a + b + c + d + e)[k] == c[0]);
}

/// The views of a list of strings.
pub open spec fn texts(v: Seq<String>) -> Seq<Seq<char>> {
    v.map_values(|s: String| s@)
}

/// Adds the summary part of a host and port pair.
fn push_host_port(out: &mut Vec<String>, label: &str, host: &Option<String>, port: &Option<String>)
    ensures
        texts(final(out)@) == texts(old(out)@) + match host_port_part(label@, *host, *port) {
            Some(x) => seq![x],
            None => Seq::<Seq<char>>::empty(),
        },
{
    let ghost before = out@;
    match (host, port) {
        (Some(h), Some(p)) => {
            let mut v: Vec<char> = Vec::new();
            push_str(&mut v, label);
            push_str(&mut v, ": ");
            push_str(&mut v, h.as_str());
            push_str(&mut v, ", port: ");
            push_str(&mut v, p.as_str());
            out.push(chars_string(&v));
        },
        (Some(h), None) => {
            let mut v: Vec<char> = Vec::new();
            push_str(&mut v, label);
            push_str(&mut v, ": ");
            push_str(&mut v, h.as_str());
            out.push(chars_string(&v));
        },
        (None, Some(p)) => {
            let mut v: Vec<char> = Vec::new();
            push_str(&mut v, label);
            push_str(&mut v, ": any, port: ");
            push_str(&mut v, p.as_str());
            out.push(chars_string(&v));
        },
        (None, None) => {},
    }
    assert(texts(out@) =~= texts(before) + match host_port_part(label@, *host, *port) {
        Some(x) => seq![x],
        None => Seq::<Seq<char>>::empty(),
    });
}

/// The summary of a rule: interface, macro, protocol (upper case, with the ICMP type for
/// ICMP protocols), source and destination; shown as `-` when it is empty.
pub fn format_firewall_rule(rule: &FirewallRuleInfo) -> (parts: Vec<String>)
    ensures
        texts(parts@) == rule_parts_spec(*rule),
{
    let mut out: Vec<String> = Vec::new();
    if let Some(iface) = &rule.iface {
        let mut v: Vec<char> = Vec::new();
        push_str(&mut v, "iface: ");
        push_str(&mut v, iface.as_str());
        out.push(chars_string(&v));
    }
    let ghost s1 = texts(out@);
    assert(s1 =~= match rule.iface {
        Some(i) => seq!["iface: "@ + i@],
        None => Seq::<Seq<char>>::empty(),
    });
    if let Some(m) = &rule.macro_name {
        let mut v: Vec<char> = Vec::new();
        push_str(&mut v, "macro: ");
        push_str(&mut v, m.as_str());
        out.push(chars_string(&v));
    }
    let ghost s2 = texts(out@);
    assert(s2 =~= s1 + match rule.macro_name {
        Some(m) => seq!["macro: "@ + m@],
        None => Seq::<Seq<char>>::empty(),
    });
    if let Some(proto) = &rule.proto {
        let up = to_uppercase(proto.as_str());
        let mut v: Vec<char> = Vec::new();
        push_str(&mut v, "proto: ");
        push_str(&mut v, up.as_str());
        let pc = str_chars(proto.as_str());
        let icmp = str_chars("icmp");
        let icmpv6 = str_chars("icmpv6");
        let ipv6_icmp = str_chars("ipv6-icmp");
        if chars_eq(pc.as_slice(), icmp.as_slice()) || chars_eq(pc.as_slice(), icmpv6.as_slice())
            || chars_eq(pc.as_slice(), ipv6_icmp.as_slice()) {
            if let Some(t) = &rule.icmp_type {
                push_str(&mut v, ", ");
                push_str(&mut v, t.as_str());
            }
        }
        proof {
            let text = if is_icmp(proto@) && rule.icmp_type is Some {
                uppercase_of(proto@) + ", "@ + rule.icmp_type->0@
            } else {
                uppercase_of(proto@)
            };
            assert(v@ =~= "proto: "@ + text);
        }
        let ghost before = out@;
        out.push(chars_string(&v));
        assert(texts(out@) =~= texts(before).push(v@));
    }
    let ghost s3 = texts(out@);
    assert(s3 =~= s2 + match rule.proto {
        Some(p) => {
            let up = uppercase_of(p@);
            let text = if is_icmp(p@) && rule.icmp_type is Some {
                up + ", "@ + rule.icmp_type->0@
            } else {
                up
            };
            seq!["proto: "@ + text]
        },
        None => Seq::<Seq<char>>::empty(),
    });
    push_host_port(&mut out, "src", &rule.source, &rule.sport);
    let ghost s4 = texts(out@);
    let ghost d = match host_port_part("src"@, rule.source, rule.sport) {
        Some(x) => seq![x],
        None => Seq::<Seq<char>>::empty(),
    };
    assert(s4 == s3 + d);
    push_host_port(&mut out, "dest", &rule.dest, &rule.dport);
    let ghost e = match host_port_part("dest"@, rule.dest, rule.dport) {
        Some(x) => seq![x],
        None => Seq::<Seq<char>>::empty(),
    };
    assert(texts(out@) == s4 + e);
    assert(texts(out@) =~= rule_parts_spec(*rule));
    out
}

// ---------------------------------------------------------------------------
// Rates
// ---------------------------------------------------------------------------

/// A rate value `number/unit` read back: the number (if it parses) and the unit; an empty
/// or malformed value reads as no number per `second`.
pub open spec fn parse_rate_spec(value: Seq<char>) -> (Option<int>, Seq<char>) {
    if value.len() == 0 {
        (None, "second"@)
    } else {
        match split_once_spec(value, '/') {
            Some((num, unit)) => (parse_unsigned_spec(num, u64::MAX as int), unit),
            None => (None, "second"@),
        }
    }
}

/// Reads a rate value (`5/minute`).
pub fn parse_rate(value: Option<&str>) -> (r: (Option<u64>, String))
    ensures
        ({
            let expected = match value {
                Some(v) => parse_rate_spec(v@),
                None => (None, "second"@),
            };
            &&& r.1@ == expected.1
            &&& match r.0 {
                Some(n) => expected.0 == Some(n as int),
                None => expected.0 is None,
            }
        }),
{
    match value {
        Some(v) => {
            let c = str_chars(v);
            if c.len() > 0 {
                match split_once(c.as_slice(), '/') {
                    Some((num, unit)) => {
                        let n = parse_unsigned(num.as_slice(), u64::MAX);
                        (n, string_from_chars(unit.as_slice()))
                    },
                    None => (None, "second".to_string()),
                }
            } else {
                (None, "second".to_string())
            }
        },
        None => (None, "second".to_string()),
    }
}

/// A rate value: `number/unit`, or empty without a number.
pub open spec fn format_rate_spec(number: Option<u64>, unit: Seq<char>) -> Seq<char> {
    match number {
        Some(n) => decimal_spec(n as nat) + "/"@ + unit,
        None => Seq::empty(),
    }
}

/// Writes a rate value.
pub fn format_rate(number: Option<u64>, unit: &str) -> (r: String)
    ensures
        r@ == format_rate_spec(number, unit@),
{
    match number {
        Some(n) => {
            let mut v: Vec<char> = Vec::new();
            push_decimal(&mut v, n);
            push_str(&mut v, "/");
            push_str(&mut v, unit);
            chars_string(&v)
        },
        None => String::new(),
    }
}

/// A written rate reads back as the same number and unit (`5/minute` gives 5 per
/// `minute`), and a value without `/` (the empty one among them) reads as no number per
/// `second`.
pub proof fn lemma_rate_roundtrip(n: u64, unit: Seq<char>, other: Seq<char>)
    ensures
        parse_rate_spec(format_rate_spec(Some(n), unit)) == (Some(n as int), unit),
        !other.contains('/') ==> parse_rate_spec(other) == (None::<int>, "second"@),
{
    if !other.contains('/') {
        assert(!(exists|i: int| 0 <= i < other.len() && other[i] == '/'));
        assert(split_once_spec(other, '/') is None);
    }
    reveal_strlit("/");
    let d = decimal_spec(n as nat);
    lemma_decimal_roundtrip(n as nat);
    let s = d + "/"@ + unit;
    assert(s[d.len() as int] == '/');
    assert forall|j: int| 0 <= j < d.len() implies s[j] != '/' by {
        assert(s[j] == d[j]);
    }
    let i = crate::text::first_index_of(s, '/');
    assert(i == Some(d.len() as int)) by {
        let k = choose|k: int|
            0 <= k < s.len() && s[k] == '/' && forall|j: int| 0 <= j < k ==> s[j] != '/';
        if k < d.len() {
            assert(s[k] == d[k]);
        }
        if k > d.len() {
            assert(s[d.len() as int] == '/');
        }
    }
    assert(s.take(d.len() as int) =~= d);
    assert(s.skip(d.len() as int + 1) =~= unit);
    assert(d[0] != '+') by {
        assert(all_ascii_digits(d));
    }
}

/// The log rate limit property string: `enable=0|1`, then `rate=...` when a rate is set and
/// `burst=...` when a burst is set, joined by commas.
pub open spec fn log_ratelimit_spec(enable: bool, rate: Seq<char>, burst: Option<u64>) -> Seq<
    char,
> {
    let e = "enable="@ + if enable {
        "1"@
    } else {
        "0"@
    };
    let r = if rate.len() > 0 {
        ",rate="@ + rate
    } else {
        Seq::empty()
    };
    let b = match burst {
        Some(n) => ",burst="@ + decimal_spec(n as nat),
        None => Seq::empty(),
    };
    e + r + b
}

/// Writes the log rate limit property string.
pub fn log_ratelimit_string(enable: bool, rate: &str, burst: Option<u64>) -> (r: String)
    ensures
        r@ == log_ratelimit_spec(enable, rate@, burst),
{
    let mut v: Vec<char> = Vec::new();
    push_str(&mut v, "enable=");
    if enable {
        push_str(&mut v, "1");
    } else {
        push_str(&mut v, "0");
    }
    let rc = str_chars(rate);
    if rc.len() > 0 {
        push_str(&mut v, ",rate=");
        push_str(&mut v, rate);
    }
    match burst {
        Some(n) => {
            push_str(&mut v, ",burst=");
            push_decimal(&mut v, n);
        },
        None => {},
    }
    chars_string(&v)
}

/// A log rate limit setting as the options editor reads it from a property string.
pub struct LogRatelimit {
    pub enable: bool,
    pub rate: Option<String>,
    pub burst: Option<u64>,
}

/// The normalized log rate limit property string: `enable=0|1`, then `rate=...` and
/// `burst=...` for the parts that are set; a setting that could not be read (missing, empty
/// or malformed) counts as the API default, enabled with neither rate nor burst.
pub open spec fn normalized_log_ratelimit_spec(parsed: Option<LogRatelimit>) -> Seq<char> {
    match parsed {
        Some(l) => {
            let e = "enable="@ + if l.enable {
                "1"@
            } else {
                "0"@
            };
            let r = match l.rate {
                Some(rate) => ",rate="@ + rate@,
                None => Seq::empty(),
            };
            let b = match l.burst {
                Some(n) => ",burst="@ + decimal_spec(n as nat),
                None => Seq::empty(),
            };
            e + r + b
        },
        None => "enable=1"@,
    }
}

/// Writes the log rate limit property string that the options editor submits, from the
/// setting read from the loaded one (`None` when it was missing, empty or malformed).
pub fn normalized_log_ratelimit(parsed: Option<LogRatelimit>) -> (r: String)
    ensures
        r@ == normalized_log_ratelimit_spec(parsed),
{
    match parsed {
        Some(l) => {
            let mut v: Vec<char> = Vec::new();
            push_str(&mut v, "enable=");
            if l.enable {
                push_str(&mut v, "1");
            } else {
                push_str(&mut v, "0");
            }
            match &l.rate {
                Some(rate) => {
                    push_str(&mut v, ",rate=");
                    push_str(&mut v, rate.as_str());
                },
                None => {},
            }
            match l.burst {
                Some(n) => {
                    push_str(&mut v, ",burst=");
                    push_decimal(&mut v, n);
                },
                None => {},
            }
            chars_string(&v)
        },
        None => "enable=1".to_string(),
    }
}

/// The number and unit fields of a rate read from a loaded record (`5/minute` gives `5` and
/// `minute`); `None` when the rate has no `/`.
pub fn split_rate_fields(rate: &str) -> (r: Option<(String, String)>)
    ensures
        match split_once_spec(rate@, '/') {
            Some((num, unit)) => r is Some && (r->0).0@ == num && (r->0).1@ == unit,
            None => r is None,
        },
{
    let c = str_chars(rate);
    match split_once(c.as_slice(), '/') {
        Some((num, unit)) => Some((chars_string(&num), chars_string(&unit))),
        None => None,
    }
}

/// The rate submitted from the number and unit fields: `number/unit`.
pub fn join_rate_fields(rate: &str, unit: &str) -> (r: String)
    ensures
        r@ == rate@ + "/"@ + unit@,
{
    let mut v: Vec<char> = Vec::new();
    push_str(&mut v, rate);
    push_str(&mut v, "/");
    push_str(&mut v, unit);
    chars_string(&v)
}

// ---------------------------------------------------------------------------
// Options
// ---------------------------------------------------------------------------

/// The cluster-wide enable flag as the API stores it (a number) read as a checkbox: any
/// number but 0 enables, a missing value does not.
pub fn cluster_enable_from_api(enable: Option<u64>) -> (r: bool)
    ensures
        r == match enable {
            Some(n) => n != 0,
            None => false,
        },
{
    match enable {
        Some(n) => n != 0,
        None => false,
    }
}

/// The cluster-wide enable flag submitted for a checkbox: 1 or 0.
pub fn cluster_enable_to_api(checked: bool) -> (r: u64)
    ensures
        r == if checked {
            1u64
        } else {
            0u64
        },
{
    if checked {
        1
    } else {
        0
    }
}

/// Reading back a submitted cluster enable flag gives the checkbox state.
pub proof fn lemma_cluster_enable_roundtrip(checked: bool)
    ensures
        (match Some(
            if checked {
                1u64
            } else {
                0u64
            },
        ) {
            Some(n) => n != 0,
            None => false,
        }) == checked,
{
}

/// The policies offered for a firewall direction: accept and drop, and reject where it is
/// allowed.
pub fn policy_choices(with_reject: bool) -> (r: Vec<&'static str>)
    ensures
        r@.map_values(|s: &str| s@) == if with_reject {
            seq!["ACCEPT"@, "DROP"@, "REJECT"@]
        } else {
            seq!["ACCEPT"@, "DROP"@]
        },
{
    let mut v: Vec<&'static str> = Vec::new();
    v.push("ACCEPT");
    v.push("DROP");
    if with_reject {
        v.push("REJECT");
    }
    assert(v@.map_values(|s: &str| s@) =~= if with_reject {
        seq!["ACCEPT"@, "DROP"@, "REJECT"@]
    } else {
        seq!["ACCEPT"@, "DROP"@]
    });
    v
}

/// A firewall direction with a policy setting.
#[derive(Clone, Copy, PartialEq, Eq, Structural, Debug)]
pub enum PolicyDirection {
    In,
    Out,
    Forward,
}

/// The policy a direction has when none is configured (shown as placeholder): incoming
/// traffic is dropped, outgoing and forwarded traffic accepted.
pub fn default_policy(direction: PolicyDirection) -> (r: &'static str)
    ensures
        r@ == match direction {
            PolicyDirection::In => "DROP"@,
            PolicyDirection::Out => "ACCEPT"@,
            PolicyDirection::Forward => "ACCEPT"@,
        },
{
    match direction {
        PolicyDirection::In => "DROP",
        PolicyDirection::Out => "ACCEPT",
        PolicyDirection::Forward => "ACCEPT",
    }
}

/// A number field without `/` and a unit, joined into a rate, split back into the same
/// fields.
pub proof fn lemma_rate_fields_join_split(num: Seq<char>, unit: Seq<char>)
    requires
        !num.contains('/'),
    ensures
        split_once_spec(num + "/"@ + unit, '/') == Some((num, unit)),
{
    reveal_strlit("/");
    assert("/"@ =~= seq!['/']);
    crate::text::lemma_split_once_join(num, unit, '/');
}

/// A rate split into its number and unit fields and joined again is the same rate.
pub proof fn lemma_rate_fields_roundtrip(rate: Seq<char>)
    ensures
        split_once_spec(rate, '/') matches Some((num, unit)) ==> num + "/"@ + unit == rate,
{
    reveal_strlit("/");
    crate::text::lemma_split_once_rejoin(rate, '/');
    assert("/"@ =~= seq!['/']);
}

/// The option fields that the options editor of a scope submits (the ones it may delete
/// when they are emptied).
pub open spec fn option_fields_spec(ctx: FirewallContext) -> Seq<Seq<char>> {
    match ctx {
        FirewallContext::Cluster { .. } => seq![
            "enable"@,
            "ebtables"@,
            "policy_in"@,
            "policy_out"@,
            "policy_forward"@,
            "log_ratelimit"@,
        ],
        FirewallContext::Node { .. } => seq![
            "enable"@,
            "nosmurfs"@,
            "tcpflags"@,
            "ndp"@,
            "nf_conntrack_max"@,
            "nf_conntrack_tcp_timeout_established"@,
            "log_level_in"@,
            "log_level_out"@,
            "log_level_forward"@,
            "tcp_flags_log_level"@,
            "smurf_log_level"@,
            "nftables"@,
        ],
        FirewallContext::Guest { .. } => seq![
            "enable"@,
            "dhcp"@,
            "ndp"@,
            "radv"@,
            "macfilter"@,
            "ipfilter"@,
            "log_level_in"@,
            "log_level_out"@,
            "policy_in"@,
            "policy_out"@,
        ],
    }
}

impl FirewallContext {
    /// The option fields that the options editor of this scope submits.
    pub fn option_fields(&self) -> (r: Vec<&'static str>)
        ensures
            r@.map_values(|s: &str| s@) == option_fields_spec(*self),
    {
        let r = match self {
            FirewallContext::Cluster { .. } => vec![
                "enable",
                "ebtables",
                "policy_in",
                "policy_out",
                "policy_forward",
                "log_ratelimit",
            ],
            FirewallContext::Node { .. } => vec![
                "enable",
                "nosmurfs",
                "tcpflags",
                "ndp",
                "nf_conntrack_max",
                "nf_conntrack_tcp_timeout_established",
                "log_level_in",
                "log_level_out",
                "log_level_forward",
                "tcp_flags_log_level",
                "smurf_log_level",
                "nftables",
            ],
            FirewallContext::Guest { .. } => vec![
                "enable",
                "dhcp",
                "ndp",
                "radv",
                "macfilter",
                "ipfilter",
                "log_level_in",
                "log_level_out",
                "policy_in",
                "policy_out",
            ],
        };
        assert(r@.map_values(|s: &str| s@) =~= option_fields_spec(*self));
        r
    }
}

} // verus!
