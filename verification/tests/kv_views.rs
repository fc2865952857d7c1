use proxmox_yew_comp::kv::validate_key_value_value;
use proxmox_yew_comp::json::{json_eq, JsonValue};
use proxmox_yew_comp::kv::{
    convert_rows, validate_key, validate_key_value_list, visible_rows, KeyValueListState,
    KvGridRow, KvListError,
};

fn s(v: &str) -> JsonValue {
    JsonValue::Str(v.to_string())
}

fn row(name: &str, required: bool, placeholder: Option<&str>) -> KvGridRow {
    KvGridRow {
        name: name.to_string(),
        header: name.to_uppercase(),
        required,
        placeholder: placeholder.map(|p| p.to_string()),
    }
}

#[test]
fn grid_shows_present_required_and_placeholder_rows() {
    let rows = vec![
        row("name", false, None),
        row("memory", false, Some("512")),
        row("cores", true, None),
        row("hidden", false, None),
    ];
    let index = convert_rows(&rows);
    let data = JsonValue::Object(vec![("name".to_string(), s("vm1"))]);
    let shown = visible_rows(&index, &rows, &data);
    assert_eq!(shown.len(), 3);
    assert_eq!(shown[0].0, 0);
    assert!(json_eq(&shown[0].1, &s("vm1")));
    assert_eq!(shown[1].0, 1);
    assert!(json_eq(&shown[1].1, &s("512")));
    assert_eq!(shown[2].0, 2);
    assert!(json_eq(&shown[2].1, &JsonValue::Null));
}

#[test]
fn repeated_row_names_keep_first_place_last_row() {
    let rows = vec![row("a", true, None), row("b", true, None), row("a", false, Some("x"))];
    let index = convert_rows(&rows);
    let shown = visible_rows(&index, &rows, &JsonValue::Null);
    let positions: Vec<usize> = shown.iter().map(|(i, _)| *i).collect();
    assert_eq!(positions, vec![2, 1]);
}

#[test]
fn key_value_list_editing() {
    let initial = vec![("a".to_string(), s("1")), ("b".to_string(), s("2"))];
    let mut st = KeyValueListState::new(&initial);
    assert_eq!(st.index_counter, 2);
    let i = st.next_index();
    assert_eq!(i, 2);
    st.add_entry(i);
    st.update_key(2, "c".to_string());
    st.update_value(2, s("3"));
    st.remove_entry(0);
    let list = st.current_list();
    let keys: Vec<&str> = list.iter().map(|(k, _)| k.as_str()).collect();
    assert_eq!(keys, vec!["b", "c"]);
    assert!(json_eq(&list[1].1, &s("3")));
    st.update_key(42, "zzz".to_string());
    assert_eq!(st.current_list().len(), 2);
}

#[test]
fn key_value_list_validation() {
    assert_eq!(validate_key_value_list(true, &[]), Err(KvListError::Required));
    assert_eq!(validate_key_value_list(false, &[]), Ok(()));
    let bad = vec![("a".to_string(), s("1")), (String::new(), s("2"))];
    assert_eq!(validate_key_value_list(false, &bad), Err(KvListError::EmptyName));
    let good = vec![("a".to_string(), s("1"))];
    assert_eq!(validate_key_value_list(true, &good), Ok(()));
    assert!(validate_key("x"));
    assert!(!validate_key(""));
}

#[test]
fn grid_rows_index_and_show() {
    let rows = vec![row("a", true, None), row("b", false, Some("x")), row("a", false, None)];
    let data = JsonValue::Object(vec![("a".to_string(), s("1"))]);
    let shown = proxmox_yew_comp::kv::grid_rows(&rows, &data);
    assert_eq!(shown, vec![(2, s("1")), (1, s("x"))]);
}

#[test]
fn key_value_list_value_validation() {
    let pair = |k: &str, v: JsonValue| JsonValue::Array(vec![s(k), v]);
    let empty = JsonValue::Array(vec![]);
    assert_eq!(validate_key_value_value(true, &empty), Err(KvListError::Required));
    assert_eq!(validate_key_value_value(false, &empty), Ok(JsonValue::Array(vec![])));
    let unnamed = JsonValue::Array(vec![pair("", JsonValue::Number("1".into()))]);
    assert_eq!(validate_key_value_value(false, &unnamed), Err(KvListError::EmptyName));
    let good = JsonValue::Array(vec![pair("k", s("v"))]);
    assert_eq!(validate_key_value_value(false, &good), Ok(JsonValue::Array(vec![pair("k", s("v"))])));
    assert_eq!(validate_key_value_value(false, &s("x")), Err(KvListError::NotAList));
    let triple = JsonValue::Array(vec![JsonValue::Array(vec![s("k"), s("v"), s("w")])]);
    assert_eq!(validate_key_value_value(false, &triple), Err(KvListError::NotAList));
    let pairs = proxmox_yew_comp::kv::key_value_pairs(&good).unwrap();
    assert_eq!(pairs, vec![("k".to_string(), s("v"))]);
}

#[test]
fn json_equality_of_zero_and_key_order() {
    let num = |t: &str| JsonValue::Number(t.to_string());
    assert!(json_eq(&num("0.0"), &num("-0.0")));
    assert!(!json_eq(&num("0"), &num("0.0")));
    let a = JsonValue::Object(vec![("x".to_string(), num("1")), ("y".to_string(), s("2"))]);
    let b = JsonValue::Object(vec![("y".to_string(), s("2")), ("x".to_string(), num("1"))]);
    assert!(json_eq(&a, &b));
    let c = JsonValue::Object(vec![("y".to_string(), s("3")), ("x".to_string(), num("1"))]);
    assert!(!json_eq(&a, &c));
}
