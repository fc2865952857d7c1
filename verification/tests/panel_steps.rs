use proxmox_yew_comp::auth::{http_set_auth, AuthState, Login};
use proxmox_yew_comp::display::{cpu_model_text, json_as_u64, pve_swap_usage};
use proxmox_yew_comp::firewall::{
    format_rate, normalized_log_ratelimit, parse_rate, FirewallContext, LogRatelimit,
};
use proxmox_yew_comp::http::{upload_request, upload_response, UploadOutcome};
use proxmox_yew_comp::json::JsonValue;
use proxmox_yew_comp::login::{
    login_panel_step, openid_realm_selected, validate_login_username, LoginAction, LoginEvent,
    LoginPanelState, TfaKind,
};
use proxmox_yew_comp::markdown::{assign_heading_ids, markdown_to_html, HeadingEvent};
use proxmox_yew_comp::qemu::{bios_is_ovmf, efi_disk_hint_shown};

fn s(v: &str) -> JsonValue {
    JsonValue::Str(v.to_string())
}

fn n(v: &str) -> JsonValue {
    JsonValue::Number(v.to_string())
}

fn obj(pairs: Vec<(&str, JsonValue)>) -> JsonValue {
    JsonValue::Object(pairs.into_iter().map(|(k, v)| (k.to_string(), v)).collect())
}

fn panel() -> LoginPanelState {
    LoginPanelState {
        loading: false,
        login_error: None,
        challenge: false,
        save_username: false,
        last_username: String::new(),
        selected_realm: None,
    }
}

fn login() -> Login {
    Login {
        userid: "root@pam".to_string(),
        ticket: "PVE:root@pam:1".to_string(),
        csrf_token: "token".to_string(),
    }
}

#[test]
fn submit_splits_the_user_name_without_realm_selector() {
    let mut st = panel();
    let act = login_panel_step(
        &mut st,
        false,
        false,
        LoginEvent::Submit {
            username: "admin@pve@ldap".to_string(),
            password: "secret".to_string(),
            realm: "ignored".to_string(),
            snackbar: false,
        },
    );
    assert!(st.loading);
    match act {
        LoginAction::SendLogin { username, password, realm, dismiss_snackbars } => {
            assert_eq!(username, "admin@pve");
            assert_eq!(password, "secret");
            assert_eq!(realm, "ldap");
            assert!(!dismiss_snackbars);
        }
        _ => panic!("expected a login request"),
    }

    let mut st = panel();
    let act = login_panel_step(
        &mut st,
        true,
        false,
        LoginEvent::Submit {
            username: "nobody".to_string(),
            password: "pw".to_string(),
            realm: "pam".to_string(),
            snackbar: true,
        },
    );
    match act {
        LoginAction::SendLogin { username, realm, dismiss_snackbars, .. } => {
            assert_eq!(username, "");
            assert_eq!(realm, "");
            assert!(dismiss_snackbars);
        }
        _ => panic!("expected a login request"),
    }
}

#[test]
fn submit_uses_the_fields_with_realm_selector() {
    let mut st = panel();
    let act = login_panel_step(
        &mut st,
        false,
        true,
        LoginEvent::Submit {
            username: "root".to_string(),
            password: "pw".to_string(),
            realm: "pam".to_string(),
            snackbar: true,
        },
    );
    match act {
        LoginAction::SendLogin { username, realm, dismiss_snackbars, .. } => {
            assert_eq!(username, "root");
            assert_eq!(realm, "pam");
            assert!(!dismiss_snackbars);
        }
        _ => panic!("expected a login request"),
    }
}

#[test]
fn login_result_and_errors_update_the_panel() {
    let mut st = panel();
    st.loading = true;
    let act = login_panel_step(&mut st, false, true, LoginEvent::Login("root@pam".to_string()));
    assert!(matches!(act, LoginAction::EmitLogin));
    assert!(!st.loading);
    assert_eq!(st.last_username, "");

    let mut st = panel();
    st.save_username = true;
    login_panel_step(&mut st, false, true, LoginEvent::Login("root@pam".to_string()));
    assert_eq!(st.last_username, "root@pam");

    let mut st = panel();
    login_panel_step(&mut st, true, true, LoginEvent::Login("me@pve".to_string()));
    assert_eq!(st.last_username, "me@pve");

    let mut st = panel();
    st.loading = true;
    st.challenge = true;
    let act = login_panel_step(
        &mut st,
        false,
        true,
        LoginEvent::LoginError { message: "bad".to_string(), snackbar: true },
    );
    assert!(matches!(act, LoginAction::Redraw));
    assert_eq!(st.login_error.as_deref(), Some("bad"));
    assert!(!st.loading && !st.challenge);

    let mut st = panel();
    let act = login_panel_step(
        &mut st,
        true,
        true,
        LoginEvent::LoginError { message: "bad".to_string(), snackbar: true },
    );
    match act {
        LoginAction::Snackbar(m) => assert_eq!(m, "bad"),
        _ => panic!("expected a snackbar"),
    }
    assert_eq!(st.login_error, None);

    let act = login_panel_step(&mut st, true, true, LoginEvent::FormDataChange);
    assert!(matches!(act, LoginAction::Redraw));
    st.login_error = Some("old".to_string());
    login_panel_step(&mut st, true, true, LoginEvent::FormDataChange);
    assert_eq!(st.login_error, None);
}

#[test]
fn second_factor_steps() {
    let mut st = panel();
    let act = login_panel_step(&mut st, false, true, LoginEvent::Tfa(TfaKind::Totp, "123456".to_string()));
    assert!(matches!(act, LoginAction::Redraw));

    login_panel_step(&mut st, false, true, LoginEvent::Challenge);
    assert!(st.challenge);
    let act = login_panel_step(&mut st, false, true, LoginEvent::Tfa(TfaKind::WebAuthn, "{}".to_string()));
    match act {
        LoginAction::RespondTfa(kind, text) => {
            assert_eq!(kind, TfaKind::WebAuthn);
            assert_eq!(text, "webauthn:{}");
        }
        _ => panic!("expected a response"),
    }
    assert!(!st.challenge);

    login_panel_step(&mut st, false, true, LoginEvent::Challenge);
    let act = login_panel_step(&mut st, false, true, LoginEvent::Tfa(TfaKind::Totp, "123456".to_string()));
    match act {
        LoginAction::RespondTfa(kind, text) => {
            assert_eq!(kind, TfaKind::Totp);
            assert_eq!(text, "123456");
        }
        _ => panic!("expected a response"),
    }

    st.loading = true;
    st.challenge = true;
    login_panel_step(&mut st, false, true, LoginEvent::AbortTfa);
    assert!(!st.loading && !st.challenge);
}

#[test]
fn openid_steps() {
    let mut st = panel();
    assert!(!openid_realm_selected(&st));
    let act = login_panel_step(&mut st, false, true, LoginEvent::OpenIdLogin);
    assert!(matches!(act, LoginAction::Idle));
    assert!(st.loading);

    login_panel_step(&mut st, false, true, LoginEvent::UpdateRealm("corp".to_string(), "openid".to_string()));
    assert!(openid_realm_selected(&st));
    match login_panel_step(&mut st, false, true, LoginEvent::OpenIdLogin) {
        LoginAction::OpenIdRedirect(r) => assert_eq!(r, "corp"),
        _ => panic!("expected a redirect"),
    }
    login_panel_step(&mut st, false, true, LoginEvent::UpdateRealm("pam".to_string(), "pam".to_string()));
    assert!(!openid_realm_selected(&st));

    let mut st = panel();
    match login_panel_step(&mut st, true, true, LoginEvent::OpenIdAuthorization) {
        LoginAction::OpenIdLogin { save_username } => assert!(save_username),
        _ => panic!("expected an OpenID login"),
    }
    match login_panel_step(&mut st, false, true, LoginEvent::OpenIdAuthorization) {
        LoginAction::OpenIdLogin { save_username } => assert!(!save_username),
        _ => panic!("expected an OpenID login"),
    }
    login_panel_step(&mut st, false, true, LoginEvent::SaveUsername(true));
    assert!(st.save_username);
}

#[test]
fn mobile_user_name_validation() {
    assert!(validate_login_username(true, "anything"));
    assert!(validate_login_username(false, "root@pam"));
    assert!(validate_login_username(false, "a@b@c"));
    assert!(!validate_login_username(false, "root"));
    assert!(!validate_login_username(false, "@pam"));
    assert!(!validate_login_username(false, "root@"));
}

#[test]
fn upload_request_and_response() {
    let mut st = AuthState::new();
    let r = upload_request(&st, "/nodes/n1/upload", None);
    assert_eq!(r.url, "/api2/json/nodes/n1/upload");
    assert_eq!(r.content_type, "application/octet-stream");
    assert_eq!(r.csrf_token, None);

    http_set_auth(&mut st, login());
    let r = upload_request(&st, "/x", Some("text/plain"));
    assert_eq!(r.content_type, "text/plain");
    assert_eq!(r.csrf_token.as_deref(), Some("token"));

    match upload_response(&mut st, "/api2/json/x", 500, "boom", None) {
        UploadOutcome::Failed(m) => assert_eq!(m, "could not post, 'boom', response status 500"),
        _ => panic!("expected a failure"),
    }
    assert!(st.client_auth.is_some());
    assert!(matches!(
        upload_response(&mut st, "/api2/json/x", 200, "{}", Some("application/json; charset=UTF-8")),
        UploadOutcome::Json
    ));
    assert!(matches!(upload_response(&mut st, "/api2/json/x", 200, "", Some("text/plain")), UploadOutcome::NoData));
    assert!(matches!(upload_response(&mut st, "/api2/json/x", 200, "", None), UploadOutcome::NoData));
    match upload_response(&mut st, "/api2/json/x", 401, "", None) {
        UploadOutcome::Unauthorized(m) => assert_eq!(m, "could not post to '/api2/json/x' - UNAUTHORIZED"),
        _ => panic!("expected unauthorized"),
    }
    assert!(st.client_auth.is_none());
}

#[test]
fn node_summary_texts() {
    assert_eq!(cpu_model_text(8, "AMD EPYC", 1), "8 x AMD EPYC (1 Socket)");
    assert_eq!(cpu_model_text(32, "Xeon", 2), "32 x Xeon (2 Sockets)");
    assert_eq!(cpu_model_text(0, "", 0), "0 x  (0 Sockets)");

    let status = obj(vec![("swap", obj(vec![("used", n("1024")), ("total", n("4096"))]))]);
    assert_eq!(pve_swap_usage(&status), (1024, 4096));
    let partial = obj(vec![("swap", obj(vec![("used", n("1.5")), ("total", n("-1"))]))]);
    assert_eq!(pve_swap_usage(&partial), (0, 0));
    assert_eq!(pve_swap_usage(&obj(vec![("swap", s("none"))])), (0, 0));
    assert_eq!(pve_swap_usage(&JsonValue::Null), (0, 0));

    assert_eq!(json_as_u64(&n("18446744073709551615")), Some(u64::MAX));
    assert_eq!(json_as_u64(&n("18446744073709551616")), None);
    assert_eq!(json_as_u64(&n("+5")), None);
    assert_eq!(json_as_u64(&s("5")), None);
}

#[test]
fn bios_and_efi_disk_hints() {
    assert!(bios_is_ovmf(&obj(vec![("bios", s("ovmf"))])));
    assert!(!bios_is_ovmf(&obj(vec![("bios", s("seabios"))])));
    assert!(!bios_is_ovmf(&obj(vec![])));
    assert!(!bios_is_ovmf(&JsonValue::Null));

    assert!(efi_disk_hint_shown("ovmf", &obj(vec![])));
    assert!(efi_disk_hint_shown("ovmf", &obj(vec![("efidisk0", JsonValue::Null)])));
    assert!(!efi_disk_hint_shown("ovmf", &obj(vec![("efidisk0", s("local:1"))])));
    assert!(!efi_disk_hint_shown("seabios", &obj(vec![])));
}

#[test]
fn log_ratelimit_is_normalized() {
    assert_eq!(normalized_log_ratelimit(None), "enable=1");
    let l = LogRatelimit { enable: false, rate: Some("5/minute".to_string()), burst: Some(10) };
    assert_eq!(normalized_log_ratelimit(Some(l)), "enable=0,rate=5/minute,burst=10");
    let l = LogRatelimit { enable: true, rate: None, burst: Some(3) };
    assert_eq!(normalized_log_ratelimit(Some(l)), "enable=1,burst=3");
}

#[test]
fn rates_read_back_and_default() {
    let written = format_rate(Some(5), "minute");
    assert_eq!(written, "5/minute");
    assert_eq!(parse_rate(Some(written.as_str())), (Some(5), "minute".to_string()));
    assert_eq!(parse_rate(None), (None, "second".to_string()));
    assert_eq!(parse_rate(Some("")), (None, "second".to_string()));
    assert_eq!(parse_rate(Some("10")), (None, "second".to_string()));
}

#[test]
fn options_url_is_rules_url_with_options_segment() {
    let g = FirewallContext::guest("r 1".to_string(), "pve1".to_string(), 100, "lxc".to_string());
    assert_eq!(g.rules_url(), "/pve/remotes/r%201/lxc/100/firewall/rules?node=pve1");
    assert_eq!(g.options_url(), "/pve/remotes/r%201/lxc/100/firewall/options?node=pve1");
    let n = FirewallContext::node("r1".to_string(), "nöde".to_string());
    assert_eq!(n.rules_url(), "/pve/remotes/r1/nodes/n%C3%B6de/firewall/rules");
    assert_eq!(n.options_url(), "/pve/remotes/r1/nodes/n%C3%B6de/firewall/options");
    let e = FirewallContext::node("€/x".to_string(), "a-b_c".to_string());
    assert_eq!(e.rules_url(), "/pve/remotes/%E2%82%AC%2Fx/nodes/a%2Db%5Fc/firewall/rules");
}

#[test]
fn heading_ids_come_from_code_and_text() {
    let events = vec![
        HeadingEvent::Start { id: None },
        HeadingEvent::Code("ls".to_string()),
        HeadingEvent::Text(" usage".to_string()),
        HeadingEvent::End,
        HeadingEvent::Start { id: None },
        HeadingEvent::InlineMath("x".to_string()),
        HeadingEvent::End,
        HeadingEvent::Code("outside".to_string()),
    ];
    let ids = assign_heading_ids(&events);
    assert_eq!(ids[0].as_deref(), Some("ls-usage"));
    assert_eq!(ids[4].as_deref(), Some("x"));
    assert_eq!(ids[7], None);

    let html = markdown_to_html("## `ls` usage\n");
    assert!(html.contains("<h2 id=\"ls-usage\"><code>ls</code> usage</h2>"));
}
