use proxmox_yew_comp::guest::{
    disk_bus, discard_checkbox, discard_value, enable_quota, extract_unused_keys,
    extract_used_mount_points, find_free_network, first_unused_mount_point,
    first_unused_scsi_device, is_bind_mount, mount_point_prop_name, net_property_id,
    parse_unused_key, volume_storage, DiscardError, DiskBus, NetworkError, PveGuestType,
};
use proxmox_yew_comp::json::JsonValue;

fn obj(keys: &[&str]) -> JsonValue {
    JsonValue::Object(
        keys.iter()
            .map(|k| (k.to_string(), JsonValue::Str("x".to_string())))
            .collect(),
    )
}

#[test]
fn unused_keys() {
    assert_eq!(parse_unused_key("unused0"), Some(0));
    assert_eq!(parse_unused_key("unused12"), Some(12));
    assert_eq!(parse_unused_key("unused+3"), Some(3));
    assert_eq!(parse_unused_key("unused"), None);
    assert_eq!(parse_unused_key("unusedx"), None);
    assert_eq!(parse_unused_key("scsi0"), None);
    let record = obj(&["unused1", "scsi0", "unused0", "unusedfoo"]);
    assert_eq!(extract_unused_keys(&record), vec!["unused1", "unused0"]);
    assert!(extract_unused_keys(&JsonValue::Null).is_empty());
}

#[test]
fn network_ids() {
    assert_eq!(net_property_id("net0"), Some(0));
    assert_eq!(net_property_id("net31"), Some(31));
    assert_eq!(net_property_id("netx"), None);
    assert_eq!(net_property_id("ne"), None);
}

#[test]
fn mount_point_keys() {
    let record = obj(&["mp0", "mp10", "mpx", "rootfs", "mp70000"]);
    assert_eq!(extract_used_mount_points(&record), vec!["mp0", "mp10"]);
}

#[test]
fn first_free_mount_point() {
    let used: Vec<String> = vec!["mp0".into(), "mp1".into(), "mp3".into()];
    assert_eq!(first_unused_mount_point(&used), Some(2));
    assert_eq!(first_unused_mount_point(&[]), Some(0));
    let all: Vec<String> = (0..256).map(|n| format!("mp{n}")).collect();
    assert_eq!(first_unused_mount_point(&all), None);
}

#[test]
fn first_free_scsi_device() {
    let used: Vec<String> = vec!["scsi0".into(), "ide2".into()];
    assert_eq!(first_unused_scsi_device(&used), Some("scsi1".to_string()));
    let all: Vec<String> = (0..31).map(|n| format!("scsi{n}")).collect();
    assert_eq!(first_unused_scsi_device(&all), None);
}

#[test]
fn free_network_devices() {
    assert_eq!(
        find_free_network(&obj(&["net0", "net1"]), PveGuestType::Qemu),
        Ok("net2".to_string())
    );
    assert_eq!(find_free_network(&JsonValue::Null, PveGuestType::Lxc), Ok("net0".to_string()));
    let all: Vec<String> = (0..16).map(|n| format!("net{n}")).collect();
    let refs: Vec<&str> = all.iter().map(|s| s.as_str()).collect();
    assert_eq!(find_free_network(&obj(&refs), PveGuestType::Qemu), Err(NetworkError::AllInUse));
    assert_eq!(find_free_network(&obj(&refs), PveGuestType::Lxc), Ok("net16".to_string()));
}

#[test]
fn storage_of_volumes() {
    assert_eq!(volume_storage("local-lvm:vm-100-disk-0"), Some("local-lvm".to_string()));
    assert_eq!(volume_storage("a1:x"), Some("a1".to_string()));
    assert_eq!(volume_storage("a:x"), None);
    assert_eq!(volume_storage("1abc:x"), None);
    assert_eq!(volume_storage("abc-:x"), None);
    assert_eq!(volume_storage("/mnt/data"), None);
    assert_eq!(volume_storage("st.or_e-1:vol"), Some("st.or_e-1".to_string()));
}

#[test]
fn bind_mounts_and_quota() {
    assert!(is_bind_mount(false, Some("/mnt/data")));
    assert!(!is_bind_mount(false, Some("/dev/sdb")));
    assert!(!is_bind_mount(false, Some("local:subvol-100-disk-1")));
    assert!(!is_bind_mount(true, Some("/mnt/data")));
    assert!(!is_bind_mount(false, None));
    assert!(enable_quota("lvmthin", false, false));
    assert!(!enable_quota("zfspool", false, false));
    assert!(!enable_quota("zfs", false, false));
    assert!(!enable_quota("dir", true, false));
    assert!(!enable_quota("dir", false, true));
}

#[test]
fn mount_point_property_names() {
    assert_eq!(mount_point_prop_name(Some("mp3"), false, "5"), "mp3");
    assert_eq!(mount_point_prop_name(Some("unused0"), true, "5"), "mp5");
    assert_eq!(mount_point_prop_name(None, false, "0"), "mp0");
}

#[test]
fn disk_buses() {
    assert_eq!(disk_bus("scsi0"), Some(DiskBus::Scsi));
    assert_eq!(disk_bus("ide2"), Some(DiskBus::Ide));
    assert_eq!(disk_bus("sata1"), Some(DiskBus::Sata));
    assert_eq!(disk_bus("virtio3"), Some(DiskBus::Virtio));
    assert_eq!(disk_bus("efidisk0"), None);
}

#[test]
fn discard_settings() {
    let on = JsonValue::Str("on".to_string());
    let ignore = JsonValue::Str("ignore".to_string());
    let bad = JsonValue::Str("maybe".to_string());
    assert_eq!(discard_checkbox(Some(&on)), Ok(true));
    assert_eq!(discard_checkbox(Some(&ignore)), Ok(false));
    assert_eq!(discard_checkbox(Some(&bad)), Err(DiscardError::UnknownValue));
    assert_eq!(discard_checkbox(Some(&JsonValue::Bool(true))), Ok(false));
    assert_eq!(discard_checkbox(None), Ok(false));
    assert_eq!(discard_value(true), "on");
    assert_eq!(discard_value(false), "ignore");
}
