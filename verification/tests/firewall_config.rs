use proxmox_yew_comp::firewall::{
    cluster_enable_from_api, cluster_enable_to_api, default_policy, format_firewall_rule,
    format_rate, join_rate_fields, log_ratelimit_string, parse_rate, policy_choices,
    split_rate_fields, FirewallContext, FirewallRuleInfo, PolicyDirection,
};

#[test]
fn rules_and_options_urls() {
    let c = FirewallContext::cluster("my remote".to_string());
    assert_eq!(c.rules_url(), "/pve/remotes/my%20remote/firewall/rules");
    assert_eq!(c.options_url(), "/pve/remotes/my%20remote/firewall/options");
    let n = FirewallContext::node("r1".to_string(), "pve1".to_string());
    assert_eq!(n.rules_url(), "/pve/remotes/r1/nodes/pve1/firewall/rules");
    let g = FirewallContext::guest("r1".to_string(), "pve1".to_string(), 100, "qemu".to_string());
    assert_eq!(g.rules_url(), "/pve/remotes/r1/qemu/100/firewall/rules?node=pve1");
    let g = FirewallContext::guest("r1".to_string(), String::new(), 101, "lxc".to_string());
    assert_eq!(g.options_url(), "/pve/remotes/r1/lxc/101/firewall/options");
}

#[test]
fn titles() {
    assert_eq!(FirewallContext::cluster(String::new()).title("Firewall"), "Firewall");
    assert_eq!(FirewallContext::cluster("r1".to_string()).title("Firewall"), "Firewall: r1");
    assert_eq!(
        FirewallContext::node("r1".to_string(), "n1".to_string()).title("Options"),
        "Options: r1/n1"
    );
    assert_eq!(
        FirewallContext::guest("r1".to_string(), "n1".to_string(), 100, "qemu".to_string())
            .title("Firewall"),
        "Firewall: r1/QEMU 100"
    );
}

fn rule() -> FirewallRuleInfo {
    FirewallRuleInfo {
        iface: None,
        macro_name: None,
        proto: None,
        icmp_type: None,
        source: None,
        sport: None,
        dest: None,
        dport: None,
    }
}

#[test]
fn rule_summaries() {
    assert!(format_firewall_rule(&rule()).is_empty());
    let mut r = rule();
    r.iface = Some("net0".to_string());
    r.proto = Some("icmp".to_string());
    r.icmp_type = Some("echo-request".to_string());
    r.source = Some("10.0.0.0/8".to_string());
    r.dport = Some("22".to_string());
    assert_eq!(
        format_firewall_rule(&r),
        vec![
            "iface: net0",
            "proto: ICMP, echo-request",
            "src: 10.0.0.0/8",
            "dest: any, port: 22",
        ]
    );
    let mut r = rule();
    r.macro_name = Some("SSH".to_string());
    r.proto = Some("tcp".to_string());
    r.icmp_type = Some("ignored".to_string());
    r.dest = Some("host".to_string());
    r.dport = Some("80".to_string());
    assert_eq!(format_firewall_rule(&r), vec!["macro: SSH", "proto: TCP", "dest: host, port: 80"]);
}

#[test]
fn rates() {
    assert_eq!(parse_rate(Some("5/minute")), (Some(5), "minute".to_string()));
    assert_eq!(parse_rate(Some("")), (None, "second".to_string()));
    assert_eq!(parse_rate(None), (None, "second".to_string()));
    assert_eq!(parse_rate(Some("abc")), (None, "second".to_string()));
    assert_eq!(parse_rate(Some("x/hour")), (None, "hour".to_string()));
    assert_eq!(format_rate(Some(5), "minute"), "5/minute");
    assert_eq!(format_rate(None, "minute"), "");
}

#[test]
fn rate_roundtrip() {
    for (n, unit) in [(1u64, "second"), (99, "day"), (0, "hour"), (12, "a/b")] {
        let text = format_rate(Some(n), unit);
        assert_eq!(parse_rate(Some(&text)), (Some(n), unit.to_string()));
    }
}

#[test]
fn rate_fields() {
    assert_eq!(
        split_rate_fields("1/second"),
        Some(("1".to_string(), "second".to_string()))
    );
    assert_eq!(split_rate_fields("plain"), None);
    assert_eq!(join_rate_fields("3", "day"), "3/day");
}

#[test]
fn log_ratelimit_strings() {
    assert_eq!(log_ratelimit_string(true, "", None), "enable=1");
    assert_eq!(
        log_ratelimit_string(false, "1/second", Some(5)),
        "enable=0,rate=1/second,burst=5"
    );
    assert_eq!(log_ratelimit_string(true, "", Some(10)), "enable=1,burst=10");
}

#[test]
fn cluster_enable_flags() {
    assert!(cluster_enable_from_api(Some(1)));
    assert!(cluster_enable_from_api(Some(7)));
    assert!(!cluster_enable_from_api(Some(0)));
    assert!(!cluster_enable_from_api(None));
    for b in [true, false] {
        assert_eq!(cluster_enable_from_api(Some(cluster_enable_to_api(b))), b);
    }
}

#[test]
fn policies() {
    assert_eq!(policy_choices(true), vec!["ACCEPT", "DROP", "REJECT"]);
    assert_eq!(policy_choices(false), vec!["ACCEPT", "DROP"]);
    assert_eq!(default_policy(PolicyDirection::In), "DROP");
    assert_eq!(default_policy(PolicyDirection::Out), "ACCEPT");
    assert_eq!(default_policy(PolicyDirection::Forward), "ACCEPT");
}
