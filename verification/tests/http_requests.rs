use proxmox_yew_comp::http::{
    is_json_content_type, is_success_status, json_object_to_query, normalize_content_type,
    path_and_param_to_api_url, request_body_kind, task_exit_result, task_poll_next_delay,
    task_status_path, task_still_running, task_upid, QueryError, RequestBody, TaskError,
    UploadStatus, upload_status, TASK_POLL_FIRST_DELAY_MS,
};
use proxmox_yew_comp::json::JsonValue;

fn s(v: &str) -> JsonValue {
    JsonValue::Str(v.to_string())
}

fn obj(pairs: Vec<(&str, JsonValue)>) -> JsonValue {
    JsonValue::Object(pairs.into_iter().map(|(k, v)| (k.to_string(), v)).collect())
}

#[test]
fn query_string_encodes_pairs() {
    let data = obj(vec![
        ("name", s("a b&c")),
        ("force", JsonValue::Bool(true)),
        ("limit", JsonValue::Number("10".to_string())),
        ("ids", JsonValue::Array(vec![s("1"), s("2")])),
    ]);
    assert_eq!(
        json_object_to_query(&data),
        Ok("name=a+b%26c&force=true&limit=10&ids=1&ids=2".to_string())
    );
}

#[test]
fn query_string_errors() {
    assert_eq!(json_object_to_query(&s("x")), Err(QueryError::NotObject));
    let nested = obj(vec![("a", s("1")), ("b", obj(vec![]))]);
    assert_eq!(json_object_to_query(&nested), Err(QueryError::Complex));
    let arr = obj(vec![("a", JsonValue::Array(vec![s("1"), JsonValue::Null]))]);
    assert_eq!(json_object_to_query(&arr), Err(QueryError::ComplexArray));
    let first = obj(vec![("a", JsonValue::Array(vec![JsonValue::Null])), ("b", JsonValue::Null)]);
    assert_eq!(json_object_to_query(&first), Err(QueryError::ComplexArray));
}

#[test]
fn empty_object_gives_empty_query() {
    assert_eq!(json_object_to_query(&obj(vec![])), Ok(String::new()));
}

#[test]
fn api_url_with_and_without_params() {
    assert_eq!(
        path_and_param_to_api_url("/nodes", None),
        Ok("/api2/extjs/nodes".to_string())
    );
    let p = obj(vec![("type", s("vm"))]);
    assert_eq!(
        path_and_param_to_api_url("/cluster/resources", Some(&p)),
        Ok("/api2/extjs/cluster/resources?type=vm".to_string())
    );
    assert_eq!(
        path_and_param_to_api_url("/x", Some(&JsonValue::Null)),
        Err(QueryError::NotObject)
    );
}

#[test]
fn request_body_by_method() {
    assert_eq!(request_body_kind("POST", true), RequestBody::Json);
    assert_eq!(request_body_kind("PUT", true), RequestBody::Json);
    assert_eq!(request_body_kind("GET", true), RequestBody::Query);
    assert_eq!(request_body_kind("DELETE", true), RequestBody::Query);
    assert_eq!(request_body_kind("POST", false), RequestBody::Nothing);
}

#[test]
fn content_types() {
    assert_eq!(
        normalize_content_type(Some("application/json;charset=UTF-8".to_string())),
        Some("application/json".to_string())
    );
    assert_eq!(
        normalize_content_type(Some("text/plain".to_string())),
        Some("text/plain".to_string())
    );
    assert_eq!(
        normalize_content_type(Some("application/json".to_string())),
        Some("application/json".to_string())
    );
    assert_eq!(normalize_content_type(None), None);
    assert!(is_json_content_type(Some("application/json; charset=UTF-8")));
    assert!(is_json_content_type(Some(" application/json ")));
    assert!(!is_json_content_type(Some("text/html")));
    assert!(!is_json_content_type(None));
}

#[test]
fn status_codes() {
    assert!(is_success_status(200));
    assert!(is_success_status(204));
    assert!(!is_success_status(300));
    assert!(!is_success_status(199));
    assert_eq!(upload_status(200), UploadStatus::Success);
    assert_eq!(upload_status(401), UploadStatus::Unauthorized);
    assert_eq!(upload_status(500), UploadStatus::Failed);
    assert_eq!(upload_status(201), UploadStatus::Failed);
}

#[test]
fn task_polling_delays_double_up_to_limit() {
    let mut d = TASK_POLL_FIRST_DELAY_MS;
    let mut seen = vec![d];
    for _ in 0..6 {
        d = task_poll_next_delay(d);
        seen.push(d);
    }
    assert_eq!(seen, vec![100, 200, 400, 800, 1600, 1600, 1600]);
}

#[test]
fn task_upid_and_status_path() {
    assert_eq!(task_upid(&s("UPID:node:1")), Ok("UPID:node:1".to_string()));
    assert_eq!(task_upid(&JsonValue::Null), Err(TaskError::MissingUpid));
    assert_eq!(
        task_status_path("UPID:node:1"),
        "/nodes/localhost/tasks/UPID%3Anode%3A1/status"
    );
}

#[test]
fn task_status_checks() {
    let running = obj(vec![("status", s("running"))]);
    let stopped = obj(vec![("status", s("stopped")), ("exitstatus", s("OK"))]);
    let failed = obj(vec![("status", s("stopped")), ("exitstatus", s("command failed"))]);
    let unknown = obj(vec![("status", s("stopped"))]);
    assert!(task_still_running(&running));
    assert!(!task_still_running(&stopped));
    assert!(!task_still_running(&JsonValue::Null));
    assert_eq!(task_exit_result(&stopped), Ok(()));
    assert_eq!(task_exit_result(&failed), Err("command failed".to_string()));
    assert_eq!(task_exit_result(&unknown), Err("unknown".to_string()));
}
