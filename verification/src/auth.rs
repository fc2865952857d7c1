//! Authentication bookkeeping of the HTTP client: who is told about authentication changes
//! and when, the ticket refresh loop, and reading the ticket from the auth cookie.
use vstd::prelude::*;
use slab::Slab;
use crate::text::{
    chars_eq, split, split_once, split_once_spec, split_spec, str_chars, string_from_chars, trim,
    trim_spec, views, lemma_split_nonempty, utf8_bytes, utf8_decoded,
};

verus! {

// ---------------------------------------------------------------------------
// The observer registry (a `slab::Slab`)
// ---------------------------------------------------------------------------

#[verifier::external_type_specification]
#[verifier::external_body]
#[verifier::reject_recursive_types(T)]
pub struct ExSlab<T>(Slab<T>);

/// The values stored in a slab, by key.
pub uninterp spec fn slab_entries(s: Slab<u64>) -> Map<usize, u64>;

/// `Slab::new`: a slab that holds nothing.
#[verifier::external_body]
fn slab_new() -> (fresh: Slab<u64>)
    ensures
        slab_entries(fresh).is_empty(),
{
    Slab::new()
}

/// `Slab::insert`: stores `v` under a key that was vacant and returns that key. (Like
/// `Vec::push`, the call aborts when the slot vector cannot be allocated; that is not
/// stated here.)
#[verifier::external_body]
fn slab_insert(s: &mut Slab<u64>, v: u64) -> (key: usize)
    ensures
        !slab_entries(*old(s)).dom().contains(key),
        slab_entries(*final(s)) == slab_entries(*old(s)).insert(key, v),
{
    s.insert(v)
}

/// `Slab::remove`: takes out the value stored under `key`, which must be occupied.
#[verifier::external_body]
fn slab_remove(s: &mut Slab<u64>, key: usize) -> (v: u64)
    requires
        slab_entries(*old(s)).dom().contains(key),
    ensures
        v == slab_entries(*old(s))[key],
        slab_entries(*final(s)) == slab_entries(*old(s)).remove(key),
{
    s.remove(key)
}

/// `Slab::iter`: the stored entries, in increasing key order.
#[verifier::external_body]
fn slab_items(s: &Slab<u64>) -> (items: Vec<(usize, u64)>)
    ensures
        forall|i: int, j: int| 0 <= i < j < items@.len() ==> items@[i].0 < items@[j].0,
        forall|i: int|
            0 <= i < items@.len() ==> slab_entries(*s).dom().contains(#[trigger] items@[i].0)
                && slab_entries(*s)[items@[i].0] == items@[i].1,
        forall|k: usize|
            slab_entries(*s).dom().contains(k) ==> exists|i: int|
                0 <= i < items@.len() && #[trigger] items@[i].0 == k,
{
    s.iter().map(|(k, v)| (k, *v)).collect()
}

// ---------------------------------------------------------------------------
// Notification epochs and the refresh loop
// ---------------------------------------------------------------------------

/// The epoch after `e` (the counters wrap around).
pub open spec fn next_epoch(e: u32) -> u32 {
    if e == u32::MAX {
        0
    } else {
        (e + 1) as u32
    }
}

/// Listeners are told about an authentication change only once per client.
pub open spec fn notifies(last: u32, client: u32) -> bool {
    last != client
}

/// The authentication state shared by the HTTP helpers.
pub struct AuthState {
    /// The client epoch at the last notification.
    pub last_notify_epoch: u32,
    /// Counts client replacements.
    pub client_notify_epoch: u32,
    /// Whether the global client was created.
    pub client_initialized: bool,
    /// Whether the ticket refresh loop runs.
    pub refresh_loop_running: bool,
    /// The registered observers, each standing for a listener.
    pub observers: Slab<u64>,
    /// The product the global client talks to (its short name).
    pub client_product: String,
    /// The login the global client sends with its requests, if any.
    pub client_auth: Option<Login>,
}

/// A login: the user, the ticket and the CSRF prevention token sent with requests.
pub struct Login {
    pub userid: String,
    pub ticket: String,
    pub csrf_token: String,
}

/// The plain form of a login.
pub open spec fn login_view(l: Login) -> (Seq<char>, Seq<char>, Seq<char>) {
    (l.userid@, l.ticket@, l.csrf_token@)
}

/// The plain form of an optional login.
pub open spec fn auth_view(a: Option<Login>) -> Option<(Seq<char>, Seq<char>, Seq<char>)> {
    match a {
        Some(l) => Some(login_view(l)),
        None => None,
    }
}

/// The product of the client that is created on first use.
pub const DEFAULT_PRODUCT: &'static str = "pbs";

/// A registered authentication observer; release it to unregister.
pub struct AuthObserver {
    key: usize,
}

impl AuthObserver {
    /// The registry key of the observer.
    pub closed spec fn spec_key(&self) -> usize {
        self.key
    }

    /// The registry key of the observer.
    pub fn key(&self) -> (k: usize)
        ensures
            k == self.spec_key(),
    {
        self.key
    }
}

impl AuthState {
    /// The registered listeners, by observer key.
    pub open spec fn listeners(&self) -> Map<usize, u64> {
        slab_entries(self.observers)
    }

    /// The state before any client exists.
    pub fn new() -> (s: Self)
        ensures
            s.last_notify_epoch == 0,
            s.client_notify_epoch == 0,
            !s.client_initialized,
            !s.refresh_loop_running,
            s.listeners() == Map::<usize, u64>::empty(),
            s.client_auth is None,
    {
        AuthState {
            last_notify_epoch: 0,
            client_notify_epoch: 0,
            client_initialized: false,
            refresh_loop_running: false,
            observers: slab_new(),
            client_product: String::new(),
            client_auth: None,
        }
    }

    /// Creates the global client on first use (for the default product, without login):
    /// starts the refresh loop and counts a new client.
    pub fn ensure_client(&mut self)
        ensures
            final(self).client_initialized,
            old(self).client_initialized ==> *final(self) == *old(self),
            !old(self).client_initialized ==> {
                &&& final(self).client_product@ == DEFAULT_PRODUCT@
                &&& final(self).client_auth is None
                &&& final(self).refresh_loop_running
                &&& final(self).client_notify_epoch == next_epoch(old(self).client_notify_epoch)
                &&& final(self).last_notify_epoch == old(self).last_notify_epoch
                &&& final(self).listeners() == old(self).listeners()
            },
    {
        if !self.client_initialized {
            self.client_initialized = true;
            start_ticket_refresh_loop(self);
            self.client_product = DEFAULT_PRODUCT.to_string();
            self.client_auth = None;
            self.client_notify_epoch = bump(self.client_notify_epoch);
        }
    }

    /// Decides whether listeners are told about an authentication change, and returns the
    /// listeners to tell, in key order: all of them once per client, none after that.
    pub fn notify_auth_listeners(&mut self) -> (told: Vec<u64>)
        ensures
            final(self).last_notify_epoch == old(self).client_notify_epoch,
            final(self).client_notify_epoch == old(self).client_notify_epoch,
            final(self).client_initialized == old(self).client_initialized,
            final(self).refresh_loop_running == old(self).refresh_loop_running,
            final(self).listeners() == old(self).listeners(),
            !notifies(old(self).last_notify_epoch, old(self).client_notify_epoch) ==> told@.len()
                == 0,
            notifies(old(self).last_notify_epoch, old(self).client_notify_epoch) ==> {
                &&& told@.len() == old(self).listeners().dom().len()
                &&& exists|keys: Seq<usize>|
                    {
                        &&& keys.len() == told@.len()
                        &&& forall|i: int, j: int| 0 <= i < j < keys.len() ==> keys[i] < keys[j]
                        &&& keys.to_set() == old(self).listeners().dom()
                        &&& forall|i: int|
                            0 <= i < keys.len() ==> told@[i] == old(self).listeners()[keys[i]]
                    }
            },
    {
        if self.last_notify_epoch == self.client_notify_epoch {
            return Vec::new();
        }
        self.last_notify_epoch = self.client_notify_epoch;
        let items = slab_items(&self.observers);
        let mut told: Vec<u64> = Vec::new();
        let mut i: usize = 0;
        while i < items.len()
            invariant
                i <= items.len(),
                told@.len() == i,
                forall|k: int| 0 <= k < i ==> told@[k] == items@[k].1,
            decreases items.len() - i,
        {
            told.push(items[i].1);
            i = i + 1;
        }
        proof {
            let keys = items@.map_values(|e: (usize, u64)| e.0);
            let dom = self.listeners().dom();
            assert(keys.to_set() =~= dom) by {
                assert forall|k: usize| keys.to_set().contains(k) implies dom.contains(k) by {
                    let i = choose|i: int| 0 <= i < keys.len() && keys[i] == k;
                    assert(items@[i].0 == k);
                }
                assert forall|k: usize| dom.contains(k) implies keys.to_set().contains(k) by {
                    let i = choose|i: int| 0 <= i < items@.len() && #[trigger] items@[i].0 == k;
                    assert(keys[i] == k);
                }
            }
            assert(keys.no_duplicates()) by {
                assert forall|a: int, b: int|
                    0 <= a < keys.len() && 0 <= b < keys.len() && a != b implies keys[a]
                    != keys[b] by {
                    if a < b {
                        assert(items@[a].0 < items@[b].0);
                    } else {
                        assert(items@[b].0 < items@[a].0);
                    }
                }
            }
            keys.unique_seq_to_set();
            assert(forall|i: int| 0 <= i < keys.len() ==> told@[i] == self.listeners()[keys[i]]);
        }
        told
    }
}

/// Advances an epoch counter by one, wrapping around.
fn bump(e: u32) -> (r: u32)
    ensures
        r == next_epoch(e),
{
    if e == u32::MAX {
        0
    } else {
        e + 1
    }
}

/// Starts the ticket refresh loop (replacing a running one, so a single loop runs).
pub fn start_ticket_refresh_loop(state: &mut AuthState)
    ensures
        final(state).refresh_loop_running,
        *final(state) == (AuthState { refresh_loop_running: true, ..*old(state) }),
        final(state).listeners() == old(state).listeners(),
{
    state.refresh_loop_running = true;
}

/// Stops the ticket refresh loop.
pub fn stop_ticket_refresh_loop(state: &mut AuthState)
    ensures
        !final(state).refresh_loop_running,
        *final(state) == (AuthState { refresh_loop_running: false, ..*old(state) }),
        final(state).listeners() == old(state).listeners(),
{
    state.refresh_loop_running = false;
}

/// Replaces the global client by a new one for `product`, without login: counts a new
/// client, creating the global one first if it did not exist yet.
pub fn update_global_client(state: &mut AuthState, product: String)
    ensures
        final(state).client_initialized,
        final(state).client_product@ == product@,
        final(state).client_auth is None,
        final(state).last_notify_epoch == old(state).last_notify_epoch,
        final(state).listeners() == old(state).listeners(),
        old(state).client_initialized ==> {
            &&& final(state).client_notify_epoch == next_epoch(old(state).client_notify_epoch)
            &&& final(state).refresh_loop_running == old(state).refresh_loop_running
        },
        !old(state).client_initialized ==> {
            &&& final(state).client_notify_epoch == next_epoch(
                next_epoch(old(state).client_notify_epoch),
            )
            &&& final(state).refresh_loop_running
        },
{
    state.client_notify_epoch = bump(state.client_notify_epoch);
    state.ensure_client();
    state.client_product = product;
    state.client_auth = None;
}

/// Sets up the HTTP client for a product: a new global client, without login (an earlier
/// login is dropped).
pub fn http_setup(state: &mut AuthState, product: String)
    ensures
        final(state).client_initialized,
        final(state).client_product@ == product@,
        final(state).client_auth is None,
        final(state).last_notify_epoch == old(state).last_notify_epoch,
        final(state).listeners() == old(state).listeners(),
        old(state).client_initialized ==> {
            &&& final(state).client_notify_epoch == next_epoch(old(state).client_notify_epoch)
            &&& final(state).refresh_loop_running == old(state).refresh_loop_running
        },
        !old(state).client_initialized ==> {
            &&& final(state).client_notify_epoch == next_epoch(
                next_epoch(old(state).client_notify_epoch),
            )
            &&& final(state).refresh_loop_running
        },
{
    update_global_client(state, product);
}

fn clone_login(l: &Login) -> (r: Login)
    ensures
        login_view(r) == login_view(*l),
{
    Login { userid: l.userid.clone(), ticket: l.ticket.clone(), csrf_token: l.csrf_token.clone() }
}

/// Stores the login the client sends with its requests.
pub fn http_set_auth(state: &mut AuthState, login: Login)
    ensures
        auth_view(final(state).client_auth) == Some(login_view(login)),
        final(state).client_product == old(state).client_product,
        final(state).client_initialized == old(state).client_initialized,
        final(state).client_notify_epoch == old(state).client_notify_epoch,
        final(state).last_notify_epoch == old(state).last_notify_epoch,
        final(state).refresh_loop_running == old(state).refresh_loop_running,
        final(state).listeners() == old(state).listeners(),
{
    state.client_auth = Some(login);
}

/// The login the client sends with its requests.
pub fn http_get_auth(state: &AuthState) -> (r: Option<Login>)
    ensures
        auth_view(r) == auth_view(state.client_auth),
{
    match &state.client_auth {
        Some(l) => Some(clone_login(l)),
        None => None,
    }
}

/// Drops the login of the client.
pub fn http_clear_auth(state: &mut AuthState)
    ensures
        final(state).client_auth is None,
        final(state).client_product == old(state).client_product,
        final(state).client_initialized == old(state).client_initialized,
        final(state).client_notify_epoch == old(state).client_notify_epoch,
        final(state).last_notify_epoch == old(state).last_notify_epoch,
        final(state).refresh_loop_running == old(state).refresh_loop_running,
        final(state).listeners() == old(state).listeners(),
{
    state.client_auth = None;
}

/// The HTTP status of an unauthorized request.
pub const UNAUTHORIZED: u16 = 401;

/// Handles the status of a response: an unauthorized one drops the login, and the caller
/// then clears the auth cookie and reports the authentication failure (returns `true`);
/// any other status changes nothing.
pub fn response_status(state: &mut AuthState, status: u16) -> (unauthorized: bool)
    ensures
        unauthorized == (status == UNAUTHORIZED),
        unauthorized ==> final(state).client_auth is None,
        !unauthorized ==> auth_view(final(state).client_auth) == auth_view(old(state).client_auth),
        final(state).client_product == old(state).client_product,
        final(state).client_initialized == old(state).client_initialized,
        final(state).client_notify_epoch == old(state).client_notify_epoch,
        final(state).last_notify_epoch == old(state).last_notify_epoch,
        final(state).refresh_loop_running == old(state).refresh_loop_running,
        final(state).listeners() == old(state).listeners(),
{
    if status == UNAUTHORIZED {
        http_clear_auth(state);
        true
    } else {
        false
    }
}

/// Registers a listener; it stays registered until the returned observer is released.
pub fn register_auth_observer(state: &mut AuthState, listener: u64) -> (obs: AuthObserver)
    ensures
        !old(state).listeners().dom().contains(obs.spec_key()),
        final(state).listeners() == old(state).listeners().insert(obs.spec_key(), listener),
        final(state).last_notify_epoch == old(state).last_notify_epoch,
        final(state).client_notify_epoch == old(state).client_notify_epoch,
        final(state).client_initialized == old(state).client_initialized,
        final(state).refresh_loop_running == old(state).refresh_loop_running,
{
    let key = slab_insert(&mut state.observers, listener);
    AuthObserver { key }
}

/// Unregisters the listener of an observer (what dropping the observer does).
pub fn release_auth_observer(state: &mut AuthState, obs: AuthObserver) -> (listener: u64)
    requires
        old(state).listeners().dom().contains(obs.spec_key()),
    ensures
        listener == old(state).listeners()[obs.spec_key()],
        final(state).listeners() == old(state).listeners().remove(obs.spec_key()),
        final(state).last_notify_epoch == old(state).last_notify_epoch,
        final(state).client_notify_epoch == old(state).client_notify_epoch,
        final(state).client_initialized == old(state).client_initialized,
        final(state).refresh_loop_running == old(state).refresh_loop_running,
{
    slab_remove(&mut state.observers, obs.key)
}

/// Registering a listener and releasing its observer leaves the registry as it was.
pub proof fn lemma_register_release(listeners: Map<usize, u64>, key: usize, listener: u64)
    requires
        !listeners.dom().contains(key),
    ensures
        listeners.insert(key, listener).remove(key) == listeners,
{
    assert(listeners.insert(key, listener).remove(key) =~= listeners);
}

/// After a notification, further notifications are suppressed until the client changes;
/// a new client is always announced.
pub proof fn lemma_notify_once_per_client(client: u32)
    ensures
        !notifies(client, client),
        notifies(client, next_epoch(client)),
{
}

// ---------------------------------------------------------------------------
// The ticket refresh loop
// ---------------------------------------------------------------------------

/// Milliseconds between two checks of the ticket.
pub const TICKET_REFRESH_INTERVAL_MS: u32 = 5000;

/// How far the current ticket is from expiring.
#[derive(Clone, Copy, PartialEq, Eq, Structural, Debug)]
pub enum TicketValidity {
    /// The ticket expired.
    Expired,
    /// The ticket should be renewed.
    Refresh,
    /// The ticket is valid.
    Valid,
}

/// What the refresh loop does in one round.
#[derive(Clone, Copy, PartialEq, Eq, Structural, Debug)]
pub enum RefreshAction {
    /// Nothing.
    Nothing,
    /// Log out and forget the authentication.
    ClearAuth,
    /// Renew an HttpOnly cookie ticket (the ticket itself is not sent).
    RefreshCookie,
    /// Log in again with the current ticket.
    Login,
}

/// The refresh decision for the current authentication: `None` when not logged in,
/// otherwise the ticket's validity and whether it is an unsigned info-only ticket.
pub fn ticket_refresh_action(auth: Option<(TicketValidity, bool)>) -> (a: RefreshAction)
    ensures
        a == match auth {
            None => RefreshAction::Nothing,
            Some((TicketValidity::Expired, _)) => RefreshAction::ClearAuth,
            Some((TicketValidity::Valid, _)) => RefreshAction::Nothing,
            Some((TicketValidity::Refresh, info_only)) => if info_only {
                RefreshAction::RefreshCookie
            } else {
                RefreshAction::Login
            },
        },
{
    match auth {
        None => RefreshAction::Nothing,
        Some((validity, info_only)) => match validity {
            TicketValidity::Expired => RefreshAction::ClearAuth,
            TicketValidity::Valid => RefreshAction::Nothing,
            TicketValidity::Refresh => if info_only {
                RefreshAction::RefreshCookie
            } else {
                RefreshAction::Login
            },
        },
    }
}

// ---------------------------------------------------------------------------
// The auth cookie
// ---------------------------------------------------------------------------

/// The value of a hexadecimal digit byte, in either case.
pub open spec fn hex_value(b: u8) -> Option<int> {
    if 48 <= b && b <= 57 {
        Some(b - 48)
    } else if 65 <= b && b <= 70 {
        Some(b - 55)
    } else if 97 <= b && b <= 102 {
        Some(b - 87)
    } else {
        None
    }
}

/// Percent-decoding of a byte string: `%` and two hexadecimal digits become the byte they
/// write; every other byte, a `%` without two digits after it too, is kept.
pub open spec fn percent_decode_bytes(b: Seq<u8>) -> Seq<u8>
    decreases b.len(),
{
    if b.len() == 0 {
        Seq::empty()
    } else if b[0] == 37 && b.len() >= 3 && hex_value(b[1]) is Some && hex_value(b[2]) is Some {
        seq![(hex_value(b[1])->0 * 16 + hex_value(b[2])->0) as u8] + percent_decode_bytes(b.skip(3))
    } else {
        seq![b[0]] + percent_decode_bytes(b.skip(1))
    }
}

/// What `percent_decode_str(s).decode_utf8()` yields: the text whose UTF-8 encoding is the
/// percent-decoded bytes, or `None` when those bytes are not UTF-8.
pub open spec fn percent_decoded_utf8(s: Seq<char>) -> Option<Seq<char>> {
    utf8_decoded(percent_decode_bytes(utf8_bytes(s)))
}

/// `percent_encoding::percent_decode_str` followed by `decode_utf8`: decodes `%XX`
/// sequences of the UTF-8 bytes of `s` ([`percent_decode_bytes`]) and reads the result as
/// UTF-8. Text without `%` decodes to itself.
#[verifier::external_body]
fn percent_decode_utf8(s: &str) -> (r: Option<String>)
    ensures
        match r {
            Some(d) => percent_decoded_utf8(s@) == Some(d@),
            None => percent_decoded_utf8(s@) is None,
        },
        !s@.contains('%') ==> r is Some && r->0@ == s@,
{
    match percent_encoding::percent_decode_str(s).decode_utf8() {
        Ok(v) => Some(v.into_owned()),
        Err(_) => None,
    }
}

/// The part of a cookie value before the first `:` (the ticket's prefix).
pub open spec fn ticket_prefix(value: Seq<char>) -> Seq<char> {
    split_spec(value, ':')[0]
}

/// The ticket carried by one `key=value` part of the cookie header, if it is the auth
/// cookie and its ticket has one of the product's prefixes.
pub open spec fn cookie_part_ticket(part: Seq<char>, name: Seq<char>, prefixes: Seq<Seq<char>>) -> Option<
    Seq<char>,
> {
    match split_once_spec(trim_spec(part), '=') {
        Some((key, value)) => match percent_decoded_utf8(value) {
            Some(v) => if key == name && prefixes.contains(ticket_prefix(v)) {
                Some(v)
            } else {
                None
            },
            None => None,
        },
        None => None,
    }
}

/// The ticket of the first part of the cookie header that carries one.
pub open spec fn first_cookie_ticket(
    parts: Seq<Seq<char>>,
    name: Seq<char>,
    prefixes: Seq<Seq<char>>,
) -> Option<Seq<char>>
    decreases parts.len(),
{
    if parts.len() == 0 {
        None
    } else {
        match cookie_part_ticket(parts[0], name, prefixes) {
            Some(t) => Some(t),
            None => first_cookie_ticket(parts.drop_first(), name, prefixes),
        }
    }
}

proof fn lemma_first_cookie_ticket_skip(
    parts: Seq<Seq<char>>,
    name: Seq<char>,
    prefixes: Seq<Seq<char>>,
    i: int,
)
    requires
        0 <= i <= parts.len(),
        forall|j: int| 0 <= j < i ==> cookie_part_ticket(#[trigger] parts[j], name, prefixes) is None,
    ensures
        first_cookie_ticket(parts, name, prefixes) == first_cookie_ticket(parts.skip(i), name, prefixes),
    decreases i,
{
    if i > 0 {
        assert(cookie_part_ticket(parts[0], name, prefixes) is None);
        let rest = parts.drop_first();
        assert forall|j: int| 0 <= j < i - 1 implies cookie_part_ticket(#[trigger] rest[j], name, prefixes) is None by {
            assert(rest[j] == parts[j + 1]);
        }
        lemma_first_cookie_ticket_skip(rest, name, prefixes, i - 1);
        assert(rest.skip(i - 1) =~= parts.skip(i));
    } else {
        assert(parts.skip(0) =~= parts);
    }
}

/// The views of a list of string slices.
pub open spec fn str_views(v: Seq<&str>) -> Seq<Seq<char>> {
    v.map_values(|s: &str| s@)
}

/// Whether `p` is one of `prefixes`.
fn has_prefix(prefixes: &[&str], p: &[char]) -> (r: bool)
    ensures
        r == str_views(prefixes@).contains(p@),
{
    let mut i: usize = 0;
    while i < prefixes.len()
        invariant
            i <= prefixes.len(),
            forall|j: int| 0 <= j < i ==> prefixes@[j]@ != p@,
        decreases prefixes.len() - i,
    {
        let cand = str_chars(prefixes[i]);
        if chars_eq(cand.as_slice(), p) {
            assert(str_views(prefixes@)[i as int] == p@);
            return true;
        }
        i = i + 1;
    }
    proof {
        if str_views(prefixes@).contains(p@) {
            let j = choose|j: int| 0 <= j < str_views(prefixes@).len() && str_views(prefixes@)[j] == p@;
            assert(prefixes@[j]@ == p@);
        }
    }
    false
}

/// The ticket of one cookie part, if it carries one.
fn part_ticket(part: &[char], name: &[char], prefixes: &[&str]) -> (r: Option<String>)
    ensures
        match r {
            Some(t) => cookie_part_ticket(part@, name@, str_views(prefixes@)) == Some(t@),
            None => cookie_part_ticket(part@, name@, str_views(prefixes@)) is None,
        },
{
    let trimmed = trim(part);
    match split_once(trimmed.as_slice(), '=') {
        Some((key, value)) => {
            let value_str = string_from_chars(value.as_slice());
            match percent_decode_utf8(value_str.as_str()) {
                Some(decoded) => {
                    if !chars_eq(key.as_slice(), name) {
                        return None;
                    }
                    let dchars = str_chars(decoded.as_str());
                    let items = split(dchars.as_slice(), ':');
                    proof {
                        lemma_split_nonempty(dchars@, ':');
                    }
                    let first = &items[0];
                    assert(first@ == ticket_prefix(decoded@));
                    if has_prefix(prefixes, first.as_slice()) {
                        Some(decoded)
                    } else {
                        None
                    }
                },
                None => None,
            }
        },
        None => None,
    }
}

/// Reads the authentication ticket from the cookie header: the value of the first cookie
/// named `name` whose ticket starts with one of `prefixes` (before its first `:`),
/// percent-decoded, together with the stored CSRF prevention token (empty if none).
pub fn extract_auth_from_cookie(
    cookie: &str,
    name: &str,
    prefixes: &[&str],
    csrf_token: Option<String>,
) -> (r: Option<(String, String)>)
    ensures
        match r {
            Some((ticket, csrf)) => {
                &&& first_cookie_ticket(split_spec(cookie@, ';'), name@, str_views(prefixes@))
                    == Some(ticket@)
                &&& csrf@ == match csrf_token {
                    Some(t) => t@,
                    None => Seq::<char>::empty(),
                }
            },
            None => first_cookie_ticket(split_spec(cookie@, ';'), name@, str_views(prefixes@))
                is None,
        },
{
    let chars = str_chars(cookie);
    let name_chars = str_chars(name);
    let parts = split(chars.as_slice(), ';');
    let ghost pv = views(parts@);
    let ghost pf = str_views(prefixes@);
    let mut i: usize = 0;
    while i < parts.len()
        invariant
            i <= parts.len(),
            pv == views(parts@),
            pv == split_spec(cookie@, ';'),
            pf == str_views(prefixes@),
            name_chars@ == name@,
            forall|j: int| 0 <= j < i ==> cookie_part_ticket(#[trigger] pv[j], name@, pf) is None,
        decreases parts.len() - i,
    {
        assert(pv[i as int] == parts@[i as int]@);
        match part_ticket(parts[i].as_slice(), name_chars.as_slice(), prefixes) {
            Some(ticket) => {
                proof {
                    lemma_first_cookie_ticket_skip(pv, name@, pf, i as int);
                    assert(pv.skip(i as int)[0] == pv[i as int]);
                }
                let csrf = match csrf_token {
                    Some(t) => t,
                    None => String::new(),
                };
                return Some((ticket, csrf));
            },
            None => {},
        }
        i = i + 1;
    }
    proof {
        lemma_first_cookie_ticket_skip(pv, name@, pf, pv.len() as int);
    }
    None
}

} // verus!
