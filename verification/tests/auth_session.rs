use proxmox_yew_comp::auth::{http_clear_auth, http_get_auth, http_set_auth, response_status, Login};
use proxmox_yew_comp::auth::{
    extract_auth_from_cookie, http_setup, register_auth_observer, release_auth_observer,
    start_ticket_refresh_loop, stop_ticket_refresh_loop, ticket_refresh_action, AuthState,
    RefreshAction, TicketValidity,
};

const PREFIXES: &[&str] = &["PVE", "PMG"];

#[test]
fn cookie_ticket_is_found_and_decoded() {
    let cookie = "other=1; PVEAuthCookie=PVE%3Aroot%40pam%3A12345; theme=dark";
    let r = extract_auth_from_cookie(cookie, "PVEAuthCookie", PREFIXES, Some("csrf".to_string()));
    assert_eq!(r, Some(("PVE:root@pam:12345".to_string(), "csrf".to_string())));
}

#[test]
fn cookie_without_csrf_token_gives_empty_token() {
    let cookie = "PVEAuthCookie=PVE:root@pam:1";
    let r = extract_auth_from_cookie(cookie, "PVEAuthCookie", PREFIXES, None);
    assert_eq!(r, Some(("PVE:root@pam:1".to_string(), String::new())));
}

#[test]
fn cookie_with_foreign_prefix_or_name_is_ignored() {
    let cookie = "PVEAuthCookie=PBS:root@pam:1; Other=PVE:x";
    assert_eq!(extract_auth_from_cookie(cookie, "PVEAuthCookie", PREFIXES, None), None);
    assert_eq!(extract_auth_from_cookie("", "PVEAuthCookie", PREFIXES, None), None);
}

#[test]
fn cookie_with_bad_percent_encoding_is_skipped() {
    let cookie = "PVEAuthCookie=%FF; PVEAuthCookie=PMG:user:1";
    assert_eq!(
        extract_auth_from_cookie(cookie, "PVEAuthCookie", PREFIXES, None),
        Some(("PMG:user:1".to_string(), String::new()))
    );
}

#[test]
fn listeners_are_told_once_per_client() {
    let mut st = AuthState::new();
    let _a = register_auth_observer(&mut st, 7);
    let _b = register_auth_observer(&mut st, 9);
    // no client yet: both epochs are 0, nothing to announce
    assert!(st.notify_auth_listeners().is_empty());
    http_setup(&mut st, "pve".to_string());
    assert!(st.client_initialized);
    assert!(st.refresh_loop_running);
    assert_eq!(st.notify_auth_listeners(), vec![7, 9]);
    assert!(st.notify_auth_listeners().is_empty());
    http_setup(&mut st, "pve".to_string());
    assert_eq!(st.notify_auth_listeners(), vec![7, 9]);
}

#[test]
fn released_observer_is_not_told() {
    let mut st = AuthState::new();
    let a = register_auth_observer(&mut st, 1);
    let _b = register_auth_observer(&mut st, 2);
    assert_eq!(release_auth_observer(&mut st, a), 1);
    http_setup(&mut st, "pve".to_string());
    assert_eq!(st.notify_auth_listeners(), vec![2]);
}

#[test]
fn refresh_loop_start_stop() {
    let mut st = AuthState::new();
    start_ticket_refresh_loop(&mut st);
    assert!(st.refresh_loop_running);
    stop_ticket_refresh_loop(&mut st);
    assert!(!st.refresh_loop_running);
}

#[test]
fn refresh_decisions() {
    assert_eq!(ticket_refresh_action(None), RefreshAction::Nothing);
    assert_eq!(
        ticket_refresh_action(Some((TicketValidity::Expired, false))),
        RefreshAction::ClearAuth
    );
    assert_eq!(
        ticket_refresh_action(Some((TicketValidity::Valid, true))),
        RefreshAction::Nothing
    );
    assert_eq!(
        ticket_refresh_action(Some((TicketValidity::Refresh, true))),
        RefreshAction::RefreshCookie
    );
    assert_eq!(
        ticket_refresh_action(Some((TicketValidity::Refresh, false))),
        RefreshAction::Login
    );
}

#[test]
fn client_login_is_set_read_and_dropped() {
    let mut st = AuthState::new();
    http_setup(&mut st, "pve".to_string());
    assert_eq!(st.client_product, "pve");
    assert!(http_get_auth(&st).is_none());
    http_set_auth(&mut st, Login { userid: "root@pam".into(), ticket: "PVE:t".into(), csrf_token: "c".into() });
    let login = http_get_auth(&st).unwrap();
    assert_eq!(login.userid, "root@pam");
    assert!(!response_status(&mut st, 200));
    assert!(http_get_auth(&st).is_some());
    assert!(response_status(&mut st, 401));
    assert!(http_get_auth(&st).is_none());
    http_set_auth(&mut st, Login { userid: "a@pve".into(), ticket: "t".into(), csrf_token: "c".into() });
    http_clear_auth(&mut st);
    assert!(st.client_auth.is_none());
    http_set_auth(&mut st, Login { userid: "a@pve".into(), ticket: "t".into(), csrf_token: "c".into() });
    http_setup(&mut st, "pmg".to_string());
    assert!(st.client_auth.is_none());
    assert_eq!(st.client_product, "pmg");
}
