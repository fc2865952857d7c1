use proxmox_yew_comp::json::{json_eq, JsonValue};
use proxmox_yew_comp::options::{
    join_strings, mount_checkboxes, mount_feature_value, mount_options_selection,
    mount_options_value, mount_types, NameSet,
};

fn s(v: &str) -> JsonValue {
    JsonValue::Str(v.to_string())
}

#[test]
fn name_set_operations() {
    let mut set = NameSet::new();
    set.insert("a");
    set.insert("b");
    set.insert("a");
    assert_eq!(set.to_vec(), vec!["a", "b"]);
    assert!(set.contains("b"));
    set.remove("a");
    assert_eq!(set.to_vec(), vec!["b"]);
    assert!(!set.contains("a"));
}

#[test]
fn mount_option_selection_from_value() {
    let sel = mount_options_selection(&s("noatime,nodev,noatime")).unwrap();
    assert_eq!(sel.to_vec(), vec!["noatime", "nodev"]);
    assert!(mount_options_selection(&JsonValue::Array(vec![])).is_none());
    let sel = mount_options_selection(&JsonValue::Null).unwrap();
    assert_eq!(sel.to_vec(), vec![""]);
}

#[test]
fn mount_options_are_sorted_and_joined() {
    let v = JsonValue::Array(vec![s("nosuid"), s(""), s("discard"), JsonValue::Null, s("noatime")]);
    assert!(json_eq(&mount_options_value(&v), &s("discard,noatime,nosuid")));
    assert!(json_eq(&mount_options_value(&s("x,y")), &s("x,y")));
    assert!(json_eq(&mount_options_value(&JsonValue::Array(vec![])), &s("")));
}

#[test]
fn mount_feature_types() {
    let t = mount_types(Some("nfs;cifs ext4"));
    assert_eq!(t.to_vec(), vec!["nfs", "cifs", "ext4"]);
    assert_eq!(mount_checkboxes(Some("nfs")), (true, false));
    assert_eq!(mount_checkboxes(Some("cifs;nfs")), (true, true));
    assert_eq!(mount_checkboxes(None), (false, false));
}

#[test]
fn mount_feature_after_checkboxes() {
    assert_eq!(mount_feature_value(Some("nfs"), false, true), Some("cifs".to_string()));
    assert_eq!(mount_feature_value(None, true, true), Some("nfs;cifs".to_string()));
    assert_eq!(mount_feature_value(Some("ext4"), false, false), Some("ext4".to_string()));
    assert_eq!(mount_feature_value(Some("nfs;cifs"), false, false), None);
}

#[test]
fn joining() {
    assert_eq!(join_strings(&vec![], ","), "");
    assert_eq!(join_strings(&vec!["a".to_string()], ","), "a");
    assert_eq!(join_strings(&vec!["a".to_string(), "b".to_string()], ";"), "a;b");
}
