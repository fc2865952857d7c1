use proxmox_yew_comp::json::{delete_default_values, delete_empty_values, json_eq, JsonValue};

fn s(v: &str) -> JsonValue {
    JsonValue::Str(v.to_string())
}

fn num(v: &str) -> JsonValue {
    JsonValue::Number(v.to_string())
}

fn obj(pairs: Vec<(&str, JsonValue)>) -> JsonValue {
    JsonValue::Object(pairs.into_iter().map(|(k, v)| (k.to_string(), v)).collect())
}

fn keys(v: &JsonValue) -> Vec<String> {
    match v {
        JsonValue::Object(e) => e.iter().map(|(k, _)| k.clone()).collect(),
        _ => panic!("not an object"),
    }
}

fn get<'a>(v: &'a JsonValue, key: &str) -> Option<&'a JsonValue> {
    match v {
        JsonValue::Object(e) => e.iter().find(|(k, _)| k == key).map(|(_, v)| v),
        _ => None,
    }
}

#[test]
fn delete_empty_values_names_deleted_params() {
    let record = obj(vec![
        ("name", s("vm1")),
        ("description", s("")),
        ("tags", JsonValue::Null),
        ("memory", num("512")),
    ]);
    let r = delete_empty_values(&record, &["description", "tags", "memory"], false);
    assert_eq!(keys(&r), vec!["name", "memory", "delete"]);
    let delete = get(&r, "delete").unwrap();
    assert!(json_eq(delete, &JsonValue::Array(vec![s("description"), s("tags")])));
}

#[test]
fn delete_empty_values_keeps_unlisted_empty_values() {
    let record = obj(vec![("comment", s(""))]);
    let r = delete_empty_values(&record, &["other"], false);
    assert!(json_eq(&r, &obj(vec![("comment", s(""))])));
}

#[test]
fn delete_empty_values_with_undefined() {
    let record = obj(vec![("a", s("x"))]);
    let r = delete_empty_values(&record, &["a", "b", "c"], true);
    assert_eq!(keys(&r), vec!["a", "delete"]);
    assert!(json_eq(get(&r, "delete").unwrap(), &JsonValue::Array(vec![s("b"), s("c")])));
}

#[test]
fn delete_empty_values_without_deletions_has_no_delete_key() {
    let record = obj(vec![("a", s("x"))]);
    let r = delete_empty_values(&record, &["a"], false);
    assert!(json_eq(&r, &record));
}

#[test]
fn delete_default_values_drops_defaults() {
    let mut record = obj(vec![
        ("backup", JsonValue::Bool(true)),
        ("ro", JsonValue::Bool(false)),
        ("size", s("8G")),
    ]);
    let defaults = obj(vec![("backup", JsonValue::Bool(true)), ("ro", JsonValue::Bool(true))]);
    delete_default_values(&mut record, &defaults);
    assert!(json_eq(&record, &obj(vec![("ro", JsonValue::Bool(false)), ("size", s("8G"))])));
}

#[test]
fn delete_default_values_ignores_non_objects() {
    let mut record = s("text");
    delete_default_values(&mut record, &obj(vec![]));
    assert!(json_eq(&record, &s("text")));
    let mut record = obj(vec![("a", num("1"))]);
    delete_default_values(&mut record, &JsonValue::Null);
    assert!(json_eq(&record, &obj(vec![("a", num("1"))])));
}

#[test]
fn json_equality_is_deep() {
    let a = obj(vec![("x", JsonValue::Array(vec![num("1"), s("b")]))]);
    let b = obj(vec![("x", JsonValue::Array(vec![num("1"), s("b")]))]);
    let c = obj(vec![("x", JsonValue::Array(vec![num("1"), s("c")]))]);
    assert!(json_eq(&a, &b));
    assert!(!json_eq(&a, &c));
}
