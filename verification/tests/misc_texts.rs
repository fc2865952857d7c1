use proxmox_yew_comp::display::{available_language_list, join_userid, kernel_build_date, split_userid};
use proxmox_yew_comp::json::JsonValue;
use proxmox_yew_comp::lxc::{
    address_mode_name, cores_text, dns_setting_text, ipv4_mode, ipv6_mode, submitted_address,
    AddressMode, DnsText,
};
use proxmox_yew_comp::markdown_editor::{
    initial_text, validate_markdown, value_to_text, MarkdownCheck, MarkdownViewMode, PreviewState,
};
use proxmox_yew_comp::text::{parse_unsigned, split, str_chars, trim};

#[test]
fn user_ids() {
    assert_eq!(split_userid("root@pam"), Some(("root".to_string(), "pam".to_string())));
    assert_eq!(split_userid("a@b@pve"), Some(("a@b".to_string(), "pve".to_string())));
    assert_eq!(split_userid("nobody"), None);
    assert_eq!(join_userid("root", "pam"), "root@pam");
}

#[test]
fn kernel_build_dates() {
    assert_eq!(
        kernel_build_date("#1 SMP PREEMPT_DYNAMIC PMX 6.8.12-4 (2024-11-06T15:04Z)"),
        "2024-11-06T15:04Z"
    );
    assert_eq!(kernel_build_date("no date"), "unknown");
    assert_eq!(kernel_build_date("x)y(z"), "y");
}

#[test]
fn languages() {
    let list = available_language_list();
    assert_eq!(list.len(), 29);
    assert_eq!(list[0].code, "ar");
    assert!(list[0].rtl);
    let rtl: Vec<&str> = list.iter().filter(|l| l.rtl).map(|l| l.code.as_str()).collect();
    assert_eq!(rtl, vec!["ar", "fa", "he"]);
    let de = list.iter().find(|l| l.code == "de").unwrap();
    assert_eq!(de.native_name, "Deutsch");
    assert_eq!(de.english_name, "German");
}

#[test]
fn container_address_modes() {
    assert_eq!(ipv4_mode(Some("dhcp")), (AddressMode::Dhcp, true));
    assert_eq!(ipv4_mode(Some("10.0.0.2/24")), (AddressMode::Static, false));
    assert_eq!(ipv4_mode(None), (AddressMode::Static, false));
    assert_eq!(ipv6_mode(Some("auto")), (AddressMode::Auto, true));
    assert_eq!(ipv6_mode(Some("dhcp")), (AddressMode::Dhcp, true));
    assert_eq!(ipv6_mode(Some("fd00::2/64")), (AddressMode::Static, false));
    assert_eq!(address_mode_name(AddressMode::Auto), "auto");
    assert_eq!(submitted_address("static"), None);
    assert_eq!(submitted_address("dhcp"), Some("dhcp".to_string()));
    assert_eq!(cores_text(Some(4)), Some("4".to_string()));
    assert_eq!(cores_text(None), None);
    assert!(matches!(dns_setting_text(&JsonValue::Null), DnsText::HostSettings));
    match dns_setting_text(&JsonValue::Str("example.com".into())) {
        DnsText::Text(t) => assert_eq!(t, "example.com"),
        _ => panic!("expected text"),
    }
    assert!(matches!(dns_setting_text(&JsonValue::Bool(true)), DnsText::Json));
}

#[test]
fn markdown_editor_values() {
    assert!(matches!(validate_markdown(true, &JsonValue::Null), MarkdownCheck::Empty));
    match validate_markdown(false, &JsonValue::Str(String::new())) {
        MarkdownCheck::Valid(t) => assert_eq!(t, ""),
        _ => panic!("expected a valid empty text"),
    }
    match validate_markdown(true, &JsonValue::Str("# Hi".into())) {
        MarkdownCheck::Check(t) => assert_eq!(t, "# Hi"),
        _ => panic!("expected a text to check"),
    }
    assert_eq!(value_to_text(&JsonValue::Bool(true)), "");
    assert_eq!(initial_text(Some("d"), Some("f")), "f");
    assert_eq!(initial_text(Some("d"), None), "d");
    assert_eq!(initial_text(None, None), "");
}

#[test]
fn markdown_preview_debounce() {
    let mut p = PreviewState::new(MarkdownViewMode::Write, "a");
    assert!(!p.value_changed());
    p.set_mode(MarkdownViewMode::Split, "ab");
    assert_eq!(p.preview_text, "ab");
    assert!(p.value_changed());
    assert!(p.timer_pending);
    assert!(p.sync_preview("abc"));
    assert!(!p.timer_pending);
    assert!(!p.sync_preview("abc"));
}

#[test]
fn text_helpers() {
    let pieces = split(&str_chars("a,,b"), ',');
    let strs: Vec<String> = pieces.iter().map(|p| p.iter().collect()).collect();
    assert_eq!(strs, vec!["a", "", "b"]);
    assert_eq!(split(&[], ',').len(), 1);
    assert_eq!(parse_unsigned(&str_chars("+42"), 100), Some(42));
    assert_eq!(parse_unsigned(&str_chars("101"), 100), None);
    assert_eq!(parse_unsigned(&str_chars(""), 100), None);
    assert_eq!(parse_unsigned(&str_chars("4a"), 100), None);
    let t: String = trim(&str_chars("  x y \n")).iter().collect();
    assert_eq!(t, "x y");
}
