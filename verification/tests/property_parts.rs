use proxmox_yew_comp::json::{json_eq, JsonValue};
use proxmox_yew_comp::property::{
    flatten_parts, property_string_add_missing_data, set_property_string, take_property_parts,
    PropertyError,
};

fn s(v: &str) -> JsonValue {
    JsonValue::Str(v.to_string())
}

fn obj(pairs: Vec<(&str, JsonValue)>) -> JsonValue {
    JsonValue::Object(pairs.into_iter().map(|(k, v)| (k.to_string(), v)).collect())
}

#[test]
fn flatten_adds_part_fields() {
    let mut data = obj(vec![("mp0", s("local:8,mp=/data"))]);
    let parts = obj(vec![("volume", s("local:8")), ("mp", s("/data"))]);
    assert_eq!(flatten_parts(&mut data, &parts), Ok(()));
    assert!(json_eq(
        &data,
        &obj(vec![("mp0", s("local:8,mp=/data")), ("_volume", s("local:8")), ("_mp", s("/data"))])
    ));
    let mut data = JsonValue::Null;
    assert_eq!(flatten_parts(&mut data, &obj(vec![("a", s("1"))])), Ok(()));
    assert!(json_eq(&data, &obj(vec![("_a", s("1"))])));
    let mut data = obj(vec![]);
    assert_eq!(flatten_parts(&mut data, &s("x")), Err(PropertyError::NotAnObject));
}

#[test]
fn missing_part_fields_are_copied_back() {
    let mut submit = obj(vec![("_mp", s("/new"))]);
    let base = obj(vec![("_mp", s("/old")), ("_size", s("8G")), ("_acl", s("1"))]);
    property_string_add_missing_data(&mut submit, &base, &["mp", "size", "acl", "quota"], &["_acl"]);
    assert!(json_eq(&submit, &obj(vec![("_mp", s("/new")), ("_size", s("8G"))])));
}

#[test]
fn parts_are_collected_from_fields() {
    let mut data = obj(vec![
        ("_volume", s("local:8")),
        ("other", s("keep")),
        ("_mp", s("")),
        ("_backup", JsonValue::Bool(true)),
    ]);
    let r = take_property_parts(&mut data, "mp0", &["volume", "mp", "backup", "acl"], true);
    let value = r.unwrap().unwrap();
    assert!(json_eq(&value, &obj(vec![("volume", s("local:8")), ("backup", JsonValue::Bool(true))])));
    assert!(json_eq(&data, &obj(vec![("other", s("keep"))])));
    set_property_string(&mut data, "mp0", "local:8,backup=1".to_string());
    assert!(json_eq(&data, &obj(vec![("other", s("keep")), ("mp0", s("local:8,backup=1"))])));
}

#[test]
fn no_parts_clears_the_property() {
    let mut data = obj(vec![("x", s("1"))]);
    assert_eq!(take_property_parts(&mut data, "net0", &["name"], true).unwrap().is_none(), true);
    assert!(json_eq(&data, &obj(vec![("x", s("1")), ("net0", s(""))])));
    let mut data = s("x");
    assert!(matches!(
        take_property_parts(&mut data, "net0", &["name"], true),
        Err(PropertyError::DataNotAnObject)
    ));
}
