//! The decisions of the login panel: what each event (a form change, a submit, the answer of
//! the login call, a second-factor step, an OpenID step) does to the panel's state, and what
//! the panel has to do next. The panel itself performs the calls and hands back their
//! answers as events.
use vstd::prelude::*;
use crate::text::{chars_eq, push_str, rsplit_once, rsplit_once_spec, str_chars, string_from_chars};

verus! {

/// What the login panel keeps between events.
pub struct LoginPanelState {
    /// A login (or an OpenID step) is under way: the form is masked.
    pub loading: bool,
    /// The error of the last failed login, shown below the form.
    pub login_error: Option<String>,
    /// A second-factor challenge waits for an answer (the dialog is open).
    pub challenge: bool,
    /// Whether the user asked to remember the user name.
    pub save_username: bool,
    /// The remembered user id.
    pub last_username: String,
    /// The realm picked in the realm selector: its name and type.
    pub selected_realm: Option<(String, String)>,
}

/// The second factors the challenge dialog can answer with.
#[derive(Clone, Copy, PartialEq, Eq, Structural, Debug)]
pub enum TfaKind {
    Totp,
    Yubico,
    Recovery,
    WebAuthn,
}

/// What happens to the login panel.
pub enum LoginEvent {
    /// The form data changed.
    FormDataChange,
    /// The form was submitted, with the texts of its user name, password and realm fields;
    /// `snackbar` says whether a snackbar controller is at hand.
    Submit { username: String, password: String, realm: String, snackbar: bool },
    /// The "save user name" box was (un)checked.
    SaveUsername(bool),
    /// The login succeeded for this user id.
    Login(String),
    /// The login failed with this message; `snackbar` says whether a snackbar controller is
    /// at hand.
    LoginError { message: String, snackbar: bool },
    /// The server asks for a second factor.
    Challenge,
    /// The second-factor dialog was closed.
    AbortTfa,
    /// The second-factor dialog answered.
    Tfa(TfaKind, String),
    /// A realm (name and type) was picked.
    UpdateRealm(String, String),
    /// The OpenID login button was pressed.
    OpenIdLogin,
    /// The page was opened with an OpenID authorization.
    OpenIdAuthorization,
}

/// What the login panel has to do after an event.
pub enum LoginAction {
    /// Nothing but redraw.
    Redraw,
    /// Send the login request with user name, password and realm, then redraw;
    /// `dismiss_snackbars` asks to dismiss all snackbars first.
    SendLogin { username: String, password: String, realm: String, dismiss_snackbars: bool },
    /// Answer the pending challenge (taken from the dialog) with this kind of response and
    /// text, then redraw. A WebAuthn answer is sent as a raw response.
    RespondTfa(TfaKind, String),
    /// Report the login to the panel's owner, then redraw.
    EmitLogin,
    /// Show the message in a snackbar, then redraw.
    Snackbar(String),
    /// Ask for the OpenID authorization URL of the realm and go there; no redraw.
    OpenIdRedirect(String),
    /// Nothing to do and no redraw (an OpenID login without a realm picked).
    Idle,
    /// Complete the OpenID login; `save_username` says whether to remember the user id; no
    /// redraw.
    OpenIdLogin { save_username: bool },
}

/// The user name and realm sent for a submitted form: the fields as they are when the realm
/// is chosen in its own selector, else the user name split at its last `@` (two empty
/// texts when it has none).
pub open spec fn submitted_login(realm_selectable: bool, username: Seq<char>, realm: Seq<char>) -> (
    Seq<char>,
    Seq<char>,
) {
    if realm_selectable {
        (username, realm)
    } else {
        match rsplit_once_spec(username, '@') {
            Some((u, r)) => (u, r),
            None => (Seq::empty(), Seq::empty()),
        }
    }
}

/// The text sent for a second-factor answer: WebAuthn data goes out as `webauthn:` and the
/// data, the others as they are.
pub open spec fn tfa_response_text(kind: TfaKind, data: Seq<char>) -> Seq<char> {
    if kind == TfaKind::WebAuthn {
        "webauthn:"@ + data
    } else {
        data
    }
}

/// The plain form of an optional text.
pub open spec fn opt_view(s: Option<String>) -> Option<Seq<char>> {
    match s {
        Some(x) => Some(x@),
        None => None,
    }
}

/// The plain form of the panel state.
pub open spec fn login_state_view(s: LoginPanelState) -> (
    bool,
    Option<Seq<char>>,
    bool,
    bool,
    Seq<char>,
    Option<(Seq<char>, Seq<char>)>,
) {
    (
        s.loading,
        opt_view(s.login_error),
        s.challenge,
        s.save_username,
        s.last_username@,
        match s.selected_realm {
            Some((n, t)) => Some((n@, t@)),
            None => None,
        },
    )
}

/// Handles an event of the login panel (`mobile` for the mobile layout, `realm_selectable`
/// when the realm has its own selector): updates the state and says what to do next.
pub fn login_panel_step(
    state: &mut LoginPanelState,
    mobile: bool,
    realm_selectable: bool,
    ev: LoginEvent,
) -> (act: LoginAction)
    ensures
        ({
            let (loading, error, challenge, save, last, realm) = login_state_view(*old(state));
            let after = login_state_view(*final(state));
            match ev {
                LoginEvent::FormDataChange => {
                    &&& after == (loading, None::<Seq<char>>, challenge, save, last, realm)
                    &&& act is Redraw
                },
                LoginEvent::Submit { username, password, realm: field_realm, snackbar } => {
                    let (u, r) = submitted_login(realm_selectable, username@, field_realm@);
                    &&& after == (true, error, challenge, save, last, realm)
                    &&& act matches LoginAction::SendLogin {
                        username: su,
                        password: sp,
                        realm: sr,
                        dismiss_snackbars: d,
                    } && su@ == u && sp@ == password@ && sr@ == r && d == (mobile && snackbar)
                },
                LoginEvent::SaveUsername(b) => {
                    &&& after == (loading, error, challenge, b, last, realm)
                    &&& act is Redraw
                },
                LoginEvent::Login(id) => {
                    let remembered = if mobile || save {
                        id@
                    } else {
                        last
                    };
                    &&& after == (false, error, challenge, save, remembered, realm)
                    &&& act is EmitLogin
                },
                LoginEvent::LoginError { message, snackbar } => if mobile && snackbar {
                    &&& after == (false, error, false, save, last, realm)
                    &&& act matches LoginAction::Snackbar(m) && m@ == message@
                } else {
                    &&& after == (false, Some(message@), false, save, last, realm)
                    &&& act is Redraw
                },
                LoginEvent::Challenge => {
                    &&& after == (loading, error, true, save, last, realm)
                    &&& act is Redraw
                },
                LoginEvent::AbortTfa => {
                    &&& after == (false, error, false, save, last, realm)
                    &&& act is Redraw
                },
                LoginEvent::Tfa(kind, data) => if challenge {
                    &&& after == (loading, error, false, save, last, realm)
                    &&& act matches LoginAction::RespondTfa(k, t) && k == kind && t@
                        == tfa_response_text(kind, data@)
                } else {
                    &&& after == (loading, error, challenge, save, last, realm)
                    &&& act is Redraw
                },
                LoginEvent::UpdateRealm(name, ty) => {
                    &&& after == (loading, error, challenge, save, last, Some((name@, ty@)))
                    &&& act is Redraw
                },
                LoginEvent::OpenIdLogin => {
                    &&& after == (true, error, challenge, save, last, realm)
                    &&& match realm {
                        Some((n, _)) => act matches LoginAction::OpenIdRedirect(x) && x@ == n,
                        None => act is Idle,
                    }
                },
                LoginEvent::OpenIdAuthorization => {
                    &&& after == (true, error, challenge, save, last, realm)
                    &&& act matches LoginAction::OpenIdLogin { save_username: s } && s == (
                    mobile || save)
                },
            }
        }),
{
    match ev {
        LoginEvent::FormDataChange => {
            state.login_error = None;
            LoginAction::Redraw
        },
        LoginEvent::Submit { username, password, realm, snackbar } => {
            state.loading = true;
            let (u, r) = if realm_selectable {
                (username, realm)
            } else {
                let c = str_chars(username.as_str());
                match rsplit_once(c.as_slice(), '@') {
                    Some((a, b)) => (string_from_chars(a.as_slice()), string_from_chars(b.as_slice())),
                    None => (String::new(), String::new()),
                }
            };
            LoginAction::SendLogin {
                username: u,
                password,
                realm: r,
                dismiss_snackbars: mobile && snackbar,
            }
        },
        LoginEvent::SaveUsername(b) => {
            state.save_username = b;
            LoginAction::Redraw
        },
        LoginEvent::Login(id) => {
            state.loading = false;
            if mobile || state.save_username {
                state.last_username = id;
            }
            LoginAction::EmitLogin
        },
        LoginEvent::LoginError { message, snackbar } => {
            state.loading = false;
            state.challenge = false;
            if mobile && snackbar {
                LoginAction::Snackbar(message)
            } else {
                state.login_error = Some(message);
                LoginAction::Redraw
            }
        },
        LoginEvent::Challenge => {
            state.challenge = true;
            LoginAction::Redraw
        },
        LoginEvent::AbortTfa => {
            state.loading = false;
            state.challenge = false;
            LoginAction::Redraw
        },
        LoginEvent::Tfa(kind, data) => {
            if !state.challenge {
                return LoginAction::Redraw;
            }
            state.challenge = false;
            let text = match kind {
                TfaKind::WebAuthn => {
                    let mut v: Vec<char> = Vec::new();
                    push_str(&mut v, "webauthn:");
                    push_str(&mut v, data.as_str());
                    string_from_chars(v.as_slice())
                },
                _ => data,
            };
            LoginAction::RespondTfa(kind, text)
        },
        LoginEvent::UpdateRealm(name, ty) => {
            state.selected_realm = Some((name, ty));
            LoginAction::Redraw
        },
        LoginEvent::OpenIdLogin => {
            state.loading = true;
            match &state.selected_realm {
                Some((n, _)) => LoginAction::OpenIdRedirect(n.clone()),
                None => LoginAction::Idle,
            }
        },
        LoginEvent::OpenIdAuthorization => {
            state.loading = true;
            LoginAction::OpenIdLogin { save_username: mobile || state.save_username }
        },
    }
}

/// The user name field accepts a value: any value when the realm has its own selector,
/// else only `user@realm` with both parts non-empty (split at the last `@`).
pub open spec fn username_valid_spec(realm_selectable: bool, value: Seq<char>) -> bool {
    realm_selectable || match rsplit_once_spec(value, '@') {
        Some((user, realm)) => user.len() > 0 && realm.len() > 0,
        None => false,
    }
}

/// Checks the user name field of the mobile login form.
pub fn validate_login_username(realm_selectable: bool, value: &str) -> (r: bool)
    ensures
        r == username_valid_spec(realm_selectable, value@),
{
    if realm_selectable {
        return true;
    }
    let c = str_chars(value);
    match rsplit_once(c.as_slice(), '@') {
        Some((user, realm)) => user.len() > 0 && realm.len() > 0,
        None => false,
    }
}

/// Whether the picked realm logs in through OpenID (its type is `openid`): the form then
/// hides the user name and password and its button redirects.
pub fn openid_realm_selected(state: &LoginPanelState) -> (r: bool)
    ensures
        r == match state.selected_realm {
            Some((_, t)) => t@ == "openid"@,
            None => false,
        },
{
    match &state.selected_realm {
        Some((_, t)) => {
            let tc = str_chars(t.as_str());
            let o = str_chars("openid");
            chars_eq(tc.as_slice(), o.as_slice())
        },
        None => false,
    }
}

} // verus!
