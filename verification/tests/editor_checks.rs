use proxmox_yew_comp::qemu::memory_submit;
use proxmox_yew_comp::display::{boot_mode_label, BootMode};
use proxmox_yew_comp::stream::{record_error_text, ErrorText};
use proxmox_yew_comp::guest::{backup_enabled, mount_point_load};
use proxmox_yew_comp::qemu::{efidisk_layout, DiskFormat, StorageFormats};
use proxmox_yew_comp::display::login_defaults;
use proxmox_yew_comp::markdown_editor::{notes_params, notes_text};
use proxmox_yew_comp::property::{flatten_parts, take_property_parts};
use proxmox_yew_comp::kv::KeyValueListState;
use proxmox_yew_comp::stream::{RecordReader, RecordStep};
use proxmox_yew_comp::options::{mount_options_selection, mount_options_value};
use proxmox_yew_comp::display::{join_userid, split_userid};
use proxmox_yew_comp::firewall::{join_rate_fields, split_rate_fields, FirewallContext};
use proxmox_yew_comp::guest::{
    disk_defaults, load_noreplicate, mount_point_defaults, submit_replicate, submitted_volume,
    validate_mount_point_id, MountPointIdError, VolumeChoice, VolumeError,
};
use proxmox_yew_comp::journal::format_timestamp;
use proxmox_yew_comp::json::{delete_default_values, JsonValue};
use proxmox_yew_comp::log_view::syslog_api_time;
use proxmox_yew_comp::lxc::{validate_network_name, NetworkNameError};
use proxmox_yew_comp::markdown::{assign_heading_ids, HeadingEvent};
use proxmox_yew_comp::pattern::{
    is_smbios_uuid, validate_smbios_uuid, validate_startdate, STARTDATE_HINT, UUID_HINT,
};
use proxmox_yew_comp::qemu::{
    processor_summary, smbios_store_decoded, smbios_store_encoded, smbios_texts_to_decode,
    smbios_texts_to_encode, state_disk_volume, tdx_submit_removal, validate_mtu,
    ProcessorSettings, MTU_HINT,
};

fn s(x: &str) -> String {
    x.to_string()
}

fn obj(entries: Vec<(&str, JsonValue)>) -> JsonValue {
    JsonValue::Object(entries.into_iter().map(|(k, v)| (s(k), v)).collect())
}

fn text(x: &str) -> JsonValue {
    JsonValue::Str(s(x))
}

#[test]
fn startdate_values() {
    assert_eq!(validate_startdate("now"), Ok(()));
    assert_eq!(validate_startdate("2006-06-17"), Ok(()));
    assert_eq!(validate_startdate("2006-06-17T16:01:21"), Ok(()));
    assert_eq!(validate_startdate("2006-6-7T1:2:3"), Ok(()));
    assert_eq!(validate_startdate("yesterday"), Err(s(STARTDATE_HINT)));
    assert_eq!(validate_startdate("2006-06-17T16:01"), Err(s(STARTDATE_HINT)));
    assert_eq!(validate_startdate("now "), Err(s(STARTDATE_HINT)));
    assert_eq!(validate_startdate(""), Err(s(STARTDATE_HINT)));
}

#[test]
fn smbios_uuids() {
    assert!(is_smbios_uuid("0123abcd-4567-89ef-ABCD-0123456789ab"));
    assert!(!is_smbios_uuid("0123abcd-4567-89ef-ABCD-0123456789a"));
    assert!(!is_smbios_uuid("0123abcd_4567-89ef-ABCD-0123456789ab"));
    assert!(!is_smbios_uuid("0123abcg-4567-89ef-ABCD-0123456789ab"));
    assert!(!is_smbios_uuid(""));
    assert_eq!(validate_smbios_uuid("00000000-0000-0000-0000-000000000000"), Ok(()));
    assert_eq!(validate_smbios_uuid("x"), Err(s(UUID_HINT)));
}

#[test]
fn network_names() {
    let interfaces = vec![(s("net0"), s("eth0")), (s("net1"), s("eth1")), (s("other"), s("eth2"))];
    assert_eq!(validate_network_name("eth0", None, &interfaces), Err(NetworkNameError::InUse));
    assert_eq!(validate_network_name("eth0", Some("net0"), &interfaces), Ok(()));
    assert_eq!(validate_network_name("eth1", Some("net0"), &interfaces), Err(NetworkNameError::InUse));
    assert_eq!(validate_network_name("eth2", None, &interfaces), Ok(()));
    assert_eq!(validate_network_name("eth3", None, &interfaces), Ok(()));
}

#[test]
fn smbios_encoding_steps() {
    let form = obj(vec![
        ("_uuid", text("u")),
        ("_product", text("P")),
        ("_manufacturer", text("M")),
        ("_sku", JsonValue::Null),
    ]);
    let to_encode = smbios_texts_to_encode(&form);
    assert_eq!(to_encode, vec![(s("_manufacturer"), s("M")), (s("_product"), s("P"))]);

    let mut value = form;
    let encoded = vec![(s("_manufacturer"), s("TQ==")), (s("_product"), s("UA=="))];
    smbios_store_encoded(&mut value, &encoded);
    assert_eq!(
        value,
        obj(vec![
            ("_uuid", text("u")),
            ("_product", text("UA==")),
            ("_manufacturer", text("TQ==")),
            ("_sku", JsonValue::Null),
            ("_base64", JsonValue::Bool(true)),
        ])
    );

    let mut untouched = obj(vec![("_uuid", text("u"))]);
    smbios_store_encoded(&mut untouched, &Vec::new());
    assert_eq!(untouched, obj(vec![("_uuid", text("u"))]));
}

#[test]
fn smbios_decoding_steps() {
    let plain = obj(vec![("_family", text("F"))]);
    assert!(smbios_texts_to_decode(&plain).is_empty());

    let mut loaded = obj(vec![("_base64", JsonValue::Bool(true)), ("_family", text("Rg=="))]);
    let to_decode = smbios_texts_to_decode(&loaded);
    assert_eq!(to_decode, vec![(s("_family"), s("Rg=="))]);
    smbios_store_decoded(&mut loaded, &vec![(s("_family"), s("F"))]);
    assert_eq!(loaded, obj(vec![("_base64", JsonValue::Bool(true)), ("_family", text("F"))]));
}

#[test]
fn timestamps() {
    assert_eq!(format_timestamp(0, 5, 7, 3, 9), "Jan 05 07:03:09");
    assert_eq!(format_timestamp(11, 31, 23, 59, 59), "Dec 31 23:59:59");
    assert_eq!(format_timestamp(12, 1, 0, 0, 0), "??? 01 00:00:00");
    assert_eq!(syslog_api_time(2024, 0, 2, 3, 4, 5), "2024-01-02 03:04:05");
    assert_eq!(syslog_api_time(999, 11, 31, 12, 0, 0), "0999-12-31 12:00:00");
}

#[test]
fn processor_summaries() {
    let mut p = ProcessorSettings {
        cpu: None,
        sockets: None,
        cores: None,
        numa: false,
        vcpus: None,
        cpulimit: None,
        cpuunits: None,
        affinity: None,
    };
    assert_eq!(processor_summary(&p), "1 (1 Core, 1 Socket) [kvm64]");
    p.cpu = Some(s("host"));
    p.sockets = Some(2);
    p.cores = Some(4);
    p.numa = true;
    p.vcpus = Some(6);
    p.cpulimit = Some(s("1.5"));
    p.cpuunits = Some(200);
    p.affinity = Some(s("0-3"));
    assert_eq!(
        processor_summary(&p),
        "8 (4 Cores, 2 Sockets) [host] [numa] [vcpus=6] [cpulimit=1.5] [cpuunits=200] [affinity=0-3]"
    );
}

#[test]
fn mtu_values() {
    assert_eq!(validate_mtu(1), Ok(()));
    assert_eq!(validate_mtu(576), Ok(()));
    assert_eq!(validate_mtu(1500), Ok(()));
    assert_eq!(validate_mtu(575), Err(s(MTU_HINT)));
    assert_eq!(validate_mtu(0), Err(s(MTU_HINT)));
}

#[test]
fn mount_point_ids() {
    let used = vec![s("mp0"), s("mp2")];
    assert_eq!(validate_mount_point_id(&used, 0), Err(MountPointIdError::InUse));
    assert_eq!(validate_mount_point_id(&used, 1), Ok(()));
    assert_eq!(validate_mount_point_id(&used, 2), Err(MountPointIdError::InUse));
    assert_eq!(validate_mount_point_id(&[], 0), Ok(()));
}

#[test]
fn submitted_volumes() {
    let record = obj(vec![("unused0", text("local:vm-100-disk-1")), ("unused1", JsonValue::Bool(true))]);
    assert_eq!(
        submitted_volume(Some("unused0"), false, &record, &JsonValue::Null),
        Ok(VolumeChoice::Attach(s("local:vm-100-disk-1")))
    );
    assert_eq!(
        submitted_volume(Some("unused1"), false, &record, &JsonValue::Null),
        Err(VolumeError::InvalidUnusedVolume)
    );
    assert_eq!(
        submitted_volume(Some("unused2"), true, &record, &JsonValue::Null),
        Err(VolumeError::InvalidUnusedVolume)
    );
    assert_eq!(submitted_volume(None, true, &record, &JsonValue::Null), Ok(VolumeChoice::NewImage));
    assert_eq!(submitted_volume(None, true, &record, &text("local:1")), Ok(VolumeChoice::Keep));
    assert_eq!(submitted_volume(None, false, &record, &JsonValue::Null), Ok(VolumeChoice::Keep));
}

#[test]
fn replication_flags() {
    let mut loaded = obj(vec![("_replicate", JsonValue::Bool(false))]);
    load_noreplicate(&mut loaded);
    assert_eq!(
        loaded,
        obj(vec![("_replicate", JsonValue::Bool(false)), ("_noreplicate_", JsonValue::Bool(true))])
    );
    let mut none = obj(vec![("_replicate", text("yes"))]);
    load_noreplicate(&mut none);
    assert_eq!(none, obj(vec![("_replicate", text("yes"))]));

    let mut data = obj(vec![("_size", text("8G"))]);
    submit_replicate(&mut data, Some(true));
    assert_eq!(data, obj(vec![("_size", text("8G")), ("_replicate", JsonValue::Bool(false))]));
    submit_replicate(&mut data, None);
    assert_eq!(data, obj(vec![("_size", text("8G")), ("_replicate", JsonValue::Bool(false))]));
}

#[test]
fn editor_defaults_are_left_out() {
    let mut data = obj(vec![
        ("_backup", JsonValue::Bool(true)),
        ("_ro", JsonValue::Bool(false)),
        ("_discard", text("on")),
        ("_ssd", JsonValue::Bool(true)),
    ]);
    delete_default_values(&mut data, &disk_defaults());
    assert_eq!(data, obj(vec![("_discard", text("on")), ("_ssd", JsonValue::Bool(true))]));

    let mut mp = obj(vec![
        ("_backup", JsonValue::Bool(true)),
        ("_replicate", JsonValue::Bool(true)),
        ("_acl", JsonValue::Bool(false)),
    ]);
    delete_default_values(&mut mp, &mount_point_defaults());
    assert_eq!(mp, obj(vec![("_backup", JsonValue::Bool(true))]));
}

#[test]
fn firewall_option_fields() {
    let cluster = FirewallContext::cluster(s("r"));
    assert_eq!(
        cluster.option_fields(),
        vec!["enable", "ebtables", "policy_in", "policy_out", "policy_forward", "log_ratelimit"]
    );
    let node = FirewallContext::node(s("r"), s("n"));
    assert_eq!(node.option_fields().len(), 12);
    assert_eq!(node.option_fields()[5], "nf_conntrack_tcp_timeout_established");
    let guest = FirewallContext::guest(s("r"), s("n"), 100, s("qemu"));
    assert_eq!(guest.option_fields().len(), 10);
    assert_eq!(guest.option_fields()[9], "policy_out");
}

#[test]
fn state_disks_and_tdx() {
    assert_eq!(state_disk_volume(&JsonValue::Null, "local-lvm"), Some(s("local-lvm:1")));
    assert_eq!(state_disk_volume(&text("local-lvm:vm-1-disk-0"), "local-lvm"), None);

    let removal = obj(vec![("delete", JsonValue::Array(vec![text("intel-tdx")]))]);
    assert_eq!(tdx_submit_removal(None), Some(removal));
    assert_eq!(tdx_submit_removal(Some(&text(""))).is_some(), true);
    assert_eq!(tdx_submit_removal(Some(&text("tdx"))), None);
}

#[test]
fn user_id_roundtrip() {
    for (user, realm) in [("root", "pam"), ("a@b", "pve"), ("", "x"), ("svc", "")] {
        let joined = join_userid(user, realm);
        assert_eq!(split_userid(&joined), Some((s(user), s(realm))));
    }
}

#[test]
fn rate_fields_roundtrip() {
    for rate in ["5/minute", "1/second", "10/hour/x", "/"] {
        let (num, unit) = split_rate_fields(rate).unwrap();
        assert_eq!(join_rate_fields(&num, &unit), rate);
    }
    assert_eq!(split_rate_fields("5"), None);
}

#[test]
fn auto_ids_avoid_explicit_anchors() {
    let events = vec![
        HeadingEvent::Start { id: Some(s("setup")) },
        HeadingEvent::Text(s("Anything")),
        HeadingEvent::End,
        HeadingEvent::Start { id: None },
        HeadingEvent::Text(s("Setup")),
        HeadingEvent::End,
        HeadingEvent::Start { id: None },
        HeadingEvent::Text(s("Setup")),
        HeadingEvent::End,
    ];
    let ids = assign_heading_ids(&events);
    assert_eq!(ids[0], None);
    assert_eq!(ids[3].as_deref(), Some("setup-1"));
    assert_eq!(ids[6].as_deref(), Some("setup-2"));
}

#[test]
fn parts_shown_and_collected_again() {
    let base = obj(vec![("name", text("vm")), ("cpu", text("x86-64-v2"))]);
    let parts = obj(vec![("cputype", text("host")), ("flags", text("+aes")), ("hidden", JsonValue::Bool(false))]);
    let mut data = obj(vec![("name", text("vm")), ("cpu", text("x86-64-v2"))]);
    flatten_parts(&mut data, &parts).unwrap();
    let collected = take_property_parts(&mut data, "cpu", &["cputype", "flags", "hidden"], false).unwrap();
    assert_eq!(collected, Some(parts));
    assert_eq!(data, base);
}

#[test]
fn deleting_defaults_twice() {
    let defaults = disk_defaults();
    let mut once = obj(vec![("_ro", JsonValue::Bool(false)), ("_ssd", JsonValue::Bool(true))]);
    delete_default_values(&mut once, &defaults);
    let mut twice = obj(vec![("_ssd", JsonValue::Bool(true))]);
    assert_eq!(once, twice);
    delete_default_values(&mut twice, &defaults);
    assert_eq!(once, twice);
}

#[test]
fn added_pair_removed_again() {
    let mut state = KeyValueListState::new(&[(s("a"), text("1")), (s("b"), text("2"))]);
    let index = state.next_index();
    assert_eq!(index, 2);
    state.add_entry(index);
    assert_eq!(state.entries.len(), 3);
    state.remove_entry(index);
    assert_eq!(state.entries.len(), 2);
    assert_eq!(state.entries[0].key, "a");
    assert_eq!(state.entries[1].key, "b");
    assert_eq!(state.entries[1].index, 1);
}

#[test]
fn framed_records_come_back() {
    let mut reader = RecordReader::new();
    reader.push_chunk(b"{\"a\":1}\x1e{\"b\"");
    match reader.next_record() {
        RecordStep::Record(r) => assert_eq!(r, b"{\"a\":1}".to_vec()),
        _ => panic!("expected a record"),
    }
    assert!(matches!(reader.next_record(), RecordStep::NeedMore));
    reader.push_chunk(b":2}\x1e");
    match reader.next_record() {
        RecordStep::Record(r) => assert_eq!(r, b"{\"b\":2}".to_vec()),
        _ => panic!("expected a record"),
    }
}

#[test]
fn mount_options_joined_and_split() {
    let submitted = mount_options_value(&JsonValue::Array(vec![text("nosuid"), text(""), text("noatime")]));
    assert_eq!(submitted, text("noatime,nosuid"));
    let selection = mount_options_selection(&submitted).unwrap();
    assert_eq!(selection.to_vec(), vec![s("noatime"), s("nosuid")]);
}

#[test]
fn login_form_defaults() {
    assert_eq!(login_defaults(false, false, "alice@pve", Some("pam")), (s("root"), Some(s("pam"))));
    assert_eq!(login_defaults(true, false, "alice@pve", Some("pam")), (s("alice"), Some(s("pve"))));
    assert_eq!(login_defaults(false, true, "a@b@ldap", None), (s("a@b"), Some(s("ldap"))));
    assert_eq!(login_defaults(false, true, "", Some("pam")), (s("root"), Some(s("pam"))));
    assert_eq!(login_defaults(true, true, "nobody", None), (s("root"), None));
}

#[test]
fn notes_load_and_store() {
    let config = obj(vec![("description", text("# VM\nnotes")), ("digest", text("abc"))]);
    assert_eq!(notes_text(&config, "description"), "# VM\nnotes");
    assert_eq!(notes_text(&config, "comment"), "");
    assert_eq!(notes_text(&JsonValue::Null, "description"), "");
    assert_eq!(
        notes_params("description", s("hello"), Some(text("abc"))),
        obj(vec![("description", text("hello")), ("digest", text("abc"))])
    );
    assert_eq!(notes_params("description", s("hello"), None), obj(vec![("description", text("hello"))]));
}

#[test]
fn efidisk_panel_layouts() {
    let none = efidisk_layout(None, Some(true), true);
    assert_eq!(none.supported, vec![DiskFormat::Raw]);
    assert_eq!(none.default, DiskFormat::Raw);
    assert!(!none.select_existing);
    assert!(none.format_disabled);
    assert!(!none.bios_hint);

    let formats = StorageFormats { supported: vec![DiskFormat::Raw, DiskFormat::Qcow2], default: DiskFormat::Qcow2 };
    let some = efidisk_layout(Some(&formats), Some(true), false);
    assert_eq!(some.supported, vec![DiskFormat::Raw, DiskFormat::Qcow2]);
    assert_eq!(some.default, DiskFormat::Qcow2);
    assert!(some.select_existing);
    assert!(!some.format_disabled);
    assert!(some.bios_hint);
    assert!(!efidisk_layout(Some(&formats), None, true).select_existing);
}

#[test]
fn mount_point_backup_and_ids() {
    assert!(backup_enabled(false, false));
    assert!(!backup_enabled(true, false));
    assert!(!backup_enabled(false, true));
    assert_eq!(validate_mount_point_id(&[], 255), Ok(()));
    assert_eq!(validate_mount_point_id(&[], 256), Err(MountPointIdError::OutOfRange));
}

#[test]
fn mount_point_load_hook() {
    let mut record = obj(vec![("mp0", text("local:1")), ("mp1", text("local:2")), ("hostname", text("ct"))]);
    mount_point_load(&mut record, false, false);
    assert_eq!(
        record,
        obj(vec![
            ("mp0", text("local:1")),
            ("mp1", text("local:2")),
            ("hostname", text("ct")),
            ("_mount_point_id_", JsonValue::Number(s("2"))),
            ("_backup", JsonValue::Bool(true)),
        ])
    );
    let mut existing = obj(vec![("mp3", text("x"))]);
    mount_point_load(&mut existing, true, false);
    assert_eq!(existing, obj(vec![("mp3", text("x")), ("_mount_point_id_", JsonValue::Number(s("0")))]));
    let mut empty = JsonValue::Null;
    mount_point_load(&mut empty, false, true);
    assert_eq!(empty, obj(vec![("_mount_point_id_", JsonValue::Number(s("0")))]));
}

#[test]
fn memory_submit_without_ballooning() {
    let mut data = obj(vec![("_current", JsonValue::Number(s("2048"))), ("shares", JsonValue::Number(s("500")))]);
    memory_submit(&mut data, true);
    assert_eq!(data, obj(vec![("_current", JsonValue::Number(s("2048"))), ("shares", JsonValue::Number(s("500")))]));
    memory_submit(&mut data, false);
    assert_eq!(
        data,
        obj(vec![
            ("_current", JsonValue::Number(s("2048"))),
            ("shares", JsonValue::Null),
            ("balloon", JsonValue::Number(s("0"))),
        ])
    );
}

#[test]
fn boot_mode_labels() {
    assert_eq!(boot_mode_label(BootMode::Efi, false), "UEFI");
    assert_eq!(boot_mode_label(BootMode::Efi, true), "UEFI (Secure Boot Enabled)");
    assert_eq!(boot_mode_label(BootMode::LegacyBios, true), "Legacy BIOS");
}

#[test]
fn record_error_messages() {
    assert!(matches!(record_error_text(&text("boom")), ErrorText::Text(t) if t == "boom"));
    assert!(matches!(record_error_text(&JsonValue::Number(s("1"))), ErrorText::Json));
}

#[test]
fn guest_titles_upper_case_the_type() {
    assert_eq!(FirewallContext::guest(s("pve1"), s("n1"), 100, s("lxc")).title("Firewall"), "Firewall: pve1/LXC 100");
    assert_eq!(FirewallContext::node(s("pve1"), s("n1")).title("Firewall"), "Firewall: pve1/n1");
}

#[test]
fn dhcp_addresses_survive_load_and_submit() {
    use_modes();
}

fn use_modes() {
    let (mode, cleared) = proxmox_yew_comp::lxc::ipv6_mode(Some("auto"));
    assert!(cleared);
    let name = proxmox_yew_comp::lxc::address_mode_name(mode);
    assert_eq!(proxmox_yew_comp::lxc::submitted_address(name), Some(s("auto")));
    let (mode, _) = proxmox_yew_comp::lxc::ipv4_mode(Some("dhcp"));
    assert_eq!(proxmox_yew_comp::lxc::submitted_address(proxmox_yew_comp::lxc::address_mode_name(mode)), Some(s("dhcp")));
}
