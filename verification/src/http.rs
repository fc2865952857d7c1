//! Request and response handling of the HTTP helpers: query strings, API URLs, content
//! types, status codes, and the polling of task results.
use vstd::prelude::*;
use crate::auth::AuthState;
use crate::json::{as_str, get_member, index_key, jentries, jview, jviews, lemma_jentries, lemma_jviews, Json, JsonValue};
use crate::text::{
    chars_eq, decimal_spec, push_chars, push_decimal, push_str, split, split_spec, starts_with, str_chars, string_from_chars,
    trim, trim_spec, lemma_split_nonempty, utf8_bytes, utf8_char,
};

verus! {

// ---------------------------------------------------------------------------
// Query strings
// ---------------------------------------------------------------------------

/// An upper-case hexadecimal digit.
pub open spec fn hex_digit_upper(n: int) -> char {
    if n < 10 {
        (n + 48) as char
    } else {
        (n + 55) as char
    }
}

/// `%XX`: a byte written as `%` and two upper-case hexadecimal digits.
pub open spec fn percent_byte(b: u8) -> Seq<char> {
    seq!['%', hex_digit_upper(b as int / 16), hex_digit_upper(b as int % 16)]
}

/// An ASCII letter or digit.
pub open spec fn is_alnum_byte(b: u8) -> bool {
    (48 <= b && b <= 57) || (65 <= b && b <= 90) || (97 <= b && b <= 122)
}

/// What `application/x-www-form-urlencoded` makes of one byte: ASCII letters, digits and
/// `*-._` stay, a space becomes `+`, every other byte becomes `%XX`.
pub open spec fn form_byte(b: u8) -> Seq<char> {
    if is_alnum_byte(b) || b == 42 || b == 45 || b == 46 || b == 95 {
        seq![b as char]
    } else if b == 32 {
        seq!['+']
    } else {
        percent_byte(b)
    }
}

/// The `application/x-www-form-urlencoded` encoding of a byte string.
pub open spec fn form_encode_bytes(b: Seq<u8>) -> Seq<char>
    decreases b.len(),
{
    if b.len() == 0 {
        Seq::empty()
    } else {
        form_encode_bytes(b.drop_last()) + form_byte(b.last())
    }
}

/// The `application/x-www-form-urlencoded` encoding of the UTF-8 bytes of a text.
pub open spec fn form_urlencoded(s: Seq<char>) -> Seq<char> {
    form_encode_bytes(utf8_bytes(s))
}

/// `url::form_urlencoded::byte_serialize` on the UTF-8 bytes of `s`: each byte encoded as
/// [`form_byte`] says.
#[verifier::external_body]
fn form_urlencode(s: &str) -> (encoded: String)
    ensures
        encoded@ == form_urlencoded(s@),
{
    url::form_urlencoded::byte_serialize(s.as_bytes()).collect()
}

/// Why a JSON value cannot become a query string.
#[derive(Clone, Copy, PartialEq, Eq, Structural, Debug)]
pub enum QueryError {
    /// The value is not an object.
    NotObject,
    /// An array holds something other than booleans, numbers and strings.
    ComplexArray,
    /// A value is `null`, an object, or otherwise not representable.
    Complex,
}

/// The text of a boolean, number or string.
pub open spec fn scalar_text(v: Json) -> Option<Seq<char>> {
    match v {
        Json::Bool(b) => Some(
            if b {
                "true"@
            } else {
                "false"@
            },
        ),
        Json::Number(n) => Some(n),
        Json::Str(s) => Some(s),
        _ => None,
    }
}

/// Scalars go into a query as their text: `true` and `false` for booleans (so the two stay
/// apart), the number's text, the string itself; an object of one scalar member `k` gives the
/// single pair `k` and that text.
pub proof fn lemma_query_scalar_texts(k: Seq<char>, b: bool, n: Seq<char>, t: Seq<char>)
    ensures
        scalar_text(Json::Bool(true)) == Some("true"@),
        scalar_text(Json::Bool(false)) == Some("false"@),
        scalar_text(Json::Bool(true)) != scalar_text(Json::Bool(false)),
        scalar_text(Json::Number(n)) == Some(n),
        scalar_text(Json::Str(t)) == Some(t),
        query_pairs(seq![(k, Json::Bool(b))]) == Ok::<Seq<(Seq<char>, Seq<char>)>, QueryError>(
            seq![(k, if b { "true"@ } else { "false"@ })],
        ),
        query_pairs(seq![(k, Json::Str(t))]) == Ok::<Seq<(Seq<char>, Seq<char>)>, QueryError>(
            seq![(k, t)],
        ),
        query_pairs(seq![(k, Json::Number(n))]) == Ok::<Seq<(Seq<char>, Seq<char>)>, QueryError>(
            seq![(k, n)],
        ),
{
    reveal_strlit("true");
    reveal_strlit("false");
    assert("true"@[0] != "false"@[0]);
    let none = Seq::<(Seq<char>, Json)>::empty();
    assert(query_pairs(none) == Ok::<Seq<(Seq<char>, Seq<char>)>, QueryError>(Seq::empty()));
    let e1 = seq![(k, Json::Bool(b))];
    assert(e1.drop_last() =~= none);
    assert(e1.last() == (k, Json::Bool(b)));
    assert(Seq::<(Seq<char>, Seq<char>)>::empty().push((k, if b { "true"@ } else { "false"@ }))
        =~= seq![(k, if b { "true"@ } else { "false"@ })]);
    let e2 = seq![(k, Json::Str(t))];
    assert(e2.drop_last() =~= none);
    assert(e2.last() == (k, Json::Str(t)));
    assert(Seq::<(Seq<char>, Seq<char>)>::empty().push((k, t)) =~= seq![(k, t)]);
    let e3 = seq![(k, Json::Number(n))];
    assert(e3.drop_last() =~= none);
    assert(e3.last() == (k, Json::Number(n)));
    assert(Seq::<(Seq<char>, Seq<char>)>::empty().push((k, n)) =~= seq![(k, n)]);
}

/// The pairs of an array value: one per element, all under `key`.
pub open spec fn array_pairs(key: Seq<char>, a: Seq<Json>) -> Option<Seq<(Seq<char>, Seq<char>)>>
    decreases a.len(),
{
    if a.len() == 0 {
        Some(Seq::empty())
    } else {
        match array_pairs(key, a.drop_last()) {
            Some(p) => match scalar_text(a.last()) {
                Some(t) => Some(p.push((key, t))),
                None => None,
            },
            None => None,
        }
    }
}

/// The name/value pairs of an object's entries, or the first reason they have none.
pub open spec fn query_pairs(e: Seq<(Seq<char>, Json)>) -> Result<
    Seq<(Seq<char>, Seq<char>)>,
    QueryError,
>
    decreases e.len(),
{
    if e.len() == 0 {
        Ok(Seq::empty())
    } else {
        match query_pairs(e.drop_last()) {
            Ok(p) => {
                let (k, v) = e.last();
                match scalar_text(v) {
                    Some(t) => Ok(p.push((k, t))),
                    None => match v {
                        Json::Array(a) => match array_pairs(k, a) {
                            Some(q) => Ok(p + q),
                            None => Err(QueryError::ComplexArray),
                        },
                        _ => Err(QueryError::Complex),
                    },
                }
            },
            Err(x) => Err(x),
        }
    }
}

/// The query string of a list of pairs: `name=value` parts, encoded and joined by `&`.
pub open spec fn encode_query(p: Seq<(Seq<char>, Seq<char>)>) -> Seq<char>
    decreases p.len(),
{
    if p.len() == 0 {
        Seq::empty()
    } else {
        let init = encode_query(p.drop_last());
        let sep = if p.len() > 1 {
            "&"@
        } else {
            Seq::<char>::empty()
        };
        init + sep + form_urlencoded(p.last().0) + "="@ + form_urlencoded(p.last().1)
    }
}

/// The query string of an object, or why there is none.
pub open spec fn query_spec(v: Json) -> Result<Seq<char>, QueryError> {
    match v {
        Json::Object(e) => match query_pairs(e) {
            Ok(p) => Ok(encode_query(p)),
            Err(x) => Err(x),
        },
        _ => Err(QueryError::NotObject),
    }
}

/// Appends one encoded `name=value` pair to a query string of `count` pairs.
fn append_pair(out: &mut Vec<char>, pairs: Ghost<Seq<(Seq<char>, Seq<char>)>>, name: &str, value: &str)
    requires
        old(out)@ == encode_query(pairs@),
    ensures
        final(out)@ == encode_query(pairs@.push((name@, value@))),
{
    let ghost p2 = pairs@.push((name@, value@));
    assert(p2.drop_last() =~= pairs@);
    let first = out.len() == 0;
    proof {
        lemma_encode_query_empty(pairs@);
    }
    if !first {
        out.push('&');
    }
    let n = form_urlencode(name);
    push_str(out, n.as_str());
    out.push('=');
    let v = form_urlencode(value);
    push_str(out, v.as_str());
    proof {
        let sep = if p2.len() > 1 {
            "&"@
        } else {
            Seq::<char>::empty()
        };
        reveal_strlit("&");
        reveal_strlit("=");
        assert(out@ =~= encode_query(pairs@) + sep + form_urlencoded(name@) + "="@
            + form_urlencoded(value@));
    }
}

/// A query string is empty exactly when it has no pairs.
proof fn lemma_encode_query_empty(p: Seq<(Seq<char>, Seq<char>)>)
    ensures
        (encode_query(p).len() == 0) <==> (p.len() == 0),
    decreases p.len(),
{
    if p.len() > 0 {
        reveal_strlit("=");
        lemma_encode_query_empty(p.drop_last());
    }
}

/// The text of a boolean, number or string value.
fn scalar_string(v: &JsonValue) -> (r: Option<String>)
    ensures
        match scalar_text(jview(*v)) {
            Some(t) => r is Some && r->0@ == t,
            None => r is None,
        },
{
    match v {
        JsonValue::Bool(b) => Some(
            if *b {
                "true".to_string()
            } else {
                "false".to_string()
            },
        ),
        JsonValue::Number(n) => Some(n.clone()),
        JsonValue::Str(s) => Some(s.clone()),
        _ => None,
    }
}

/// Encodes an object as a query string (`application/x-www-form-urlencoded`): booleans,
/// numbers and strings become one pair, arrays of them one pair per element.
pub fn json_object_to_query(data: &JsonValue) -> (r: Result<String, QueryError>)
    ensures
        match r {
            Ok(q) => query_spec(jview(*data)) == Ok::<Seq<char>, QueryError>(q@),
            Err(x) => query_spec(jview(*data)) == Err::<Seq<char>, QueryError>(x),
        },
{
    let entries = match data {
        JsonValue::Object(e) => e,
        _ => return Err(QueryError::NotObject),
    };
    proof {
        lemma_jentries(entries@);
    }
    let mut out: Vec<char> = Vec::new();
    let ghost mut pairs: Seq<(Seq<char>, Seq<char>)> = Seq::empty();
    let mut i: usize = 0;
    while i < entries.len()
        invariant
            i <= entries.len(),
            *data is Object,
            data->Object_0 == *entries,
            jentries(entries@).len() == entries.len(),
            forall|k: int|
                0 <= k < entries.len() ==> #[trigger] jentries(entries@)[k] == (
                    entries@[k].0@,
                    jview(entries@[k].1),
                ),
            query_pairs(jentries(entries@).take(i as int)) == Ok::<
                Seq<(Seq<char>, Seq<char>)>,
                QueryError,
            >(pairs),
            out@ == encode_query(pairs),
        decreases entries.len() - i,
    {
        let key = &entries[i].0;
        let value = &entries[i].1;
        let ghost je = jentries(entries@);
        proof {
            assert(je.take(i + 1).drop_last() == je.take(i as int));
            assert(je.take(i + 1).last() == (key@, jview(*value)));
        }
        match scalar_string(value) {
            Some(t) => {
                append_pair(&mut out, Ghost(pairs), key.as_str(), t.as_str());
                proof {
                    pairs = pairs.push((key@, t@));
                }
            },
            None => match value {
                JsonValue::Array(arr) => {
                    proof {
                        lemma_jviews(arr@);
                    }
                    let ghost start = pairs;
                    let mut j: usize = 0;
                    while j < arr.len()
                        invariant
                            j <= arr.len(),
                            i < entries.len(),
                            *data is Object,
                            data->Object_0 == *entries,
                            je == jentries(entries@),
                            je.len() == entries.len(),
                            query_pairs(je.take(i as int)) == Ok::<
                                Seq<(Seq<char>, Seq<char>)>,
                                QueryError,
                            >(start),
                            je.take(i + 1).drop_last() == je.take(i as int),
                            je.take(i + 1).last() == (key@, jview(*value)),
                            *value is Array,
                            value->Array_0 == *arr,
                            jviews(arr@).len() == arr.len(),
                            forall|k: int|
                                0 <= k < arr.len() ==> #[trigger] jviews(arr@)[k] == jview(
                                    arr@[k],
                                ),
                            array_pairs(key@, jviews(arr@).take(j as int)) == Some(
                                pairs.skip(start.len() as int),
                            ),
                            pairs.len() >= start.len(),
                            pairs.take(start.len() as int) == start,
                            out@ == encode_query(pairs),
                        decreases arr.len() - j,
                    {
                        let ghost ja = jviews(arr@);
                        proof {
                            assert(ja.take(j + 1).drop_last() == ja.take(j as int));
                            assert(ja.take(j + 1).last() == jview(arr@[j as int]));
                        }
                        match scalar_string(&arr[j]) {
                            Some(t) => {
                                append_pair(&mut out, Ghost(pairs), key.as_str(), t.as_str());
                                proof {
                                    let old_pairs = pairs;
                                    pairs = pairs.push((key@, t@));
                                    assert(pairs.skip(start.len() as int) =~= old_pairs.skip(
                                        start.len() as int,
                                    ).push((key@, t@)));
                                    assert(pairs.take(start.len() as int) =~= old_pairs.take(
                                        start.len() as int,
                                    ));
                                }
                            },
                            None => {
                                proof {
                                    lemma_array_pairs_stuck(key@, ja, j as int);
                                    assert(jview(*value) == Json::Array(ja));
                                    assert(query_pairs(je.take(i + 1)) == Err::<
                                        Seq<(Seq<char>, Seq<char>)>,
                                        QueryError,
                                    >(QueryError::ComplexArray));
                                    lemma_query_pairs_stuck(je, i as int, QueryError::ComplexArray);
                                }
                                return Err(QueryError::ComplexArray);
                            },
                        }
                        j = j + 1;
                    }
                    proof {
                        assert(jviews(arr@).take(arr.len() as int) == jviews(arr@));
                        assert(pairs =~= start + pairs.skip(start.len() as int));
                        assert(jview(*value) == Json::Array(jviews(arr@)));
                    }
                },
                _ => {
                    proof {
                        lemma_query_pairs_stuck(je, i as int, QueryError::Complex);
                    }
                    return Err(QueryError::Complex);
                },
            },
        }
        i = i + 1;
    }
    proof {
        assert(jentries(entries@).take(entries.len() as int) == jentries(entries@));
    }
    Ok(string_from_chars(out.as_slice()))
}

/// Once an array element has no text, the array has no pairs.
proof fn lemma_array_pairs_stuck(key: Seq<char>, a: Seq<Json>, j: int)
    requires
        0 <= j < a.len(),
        scalar_text(a[j]) is None,
    ensures
        array_pairs(key, a) is None,
    decreases a.len(),
{
    if j < a.len() - 1 {
        lemma_array_pairs_stuck(key, a.drop_last(), j);
    }
}

/// Once an entry has no pairs, the object's pairs fail with that entry's error.
proof fn lemma_query_pairs_stuck(e: Seq<(Seq<char>, Json)>, i: int, err: QueryError)
    requires
        0 <= i < e.len(),
        query_pairs(e.take(i + 1)) == Err::<Seq<(Seq<char>, Seq<char>)>, QueryError>(err),
    ensures
        query_pairs(e) == Err::<Seq<(Seq<char>, Seq<char>)>, QueryError>(err),
    decreases e.len(),
{
    if i + 1 < e.len() {
        assert(e.drop_last().take(i + 1) == e.take(i + 1));
        lemma_query_pairs_stuck(e.drop_last(), i, err);
    } else {
        assert(e.take(i + 1) == e);
    }
}

/// The API path of a request: `/api2/extjs` and the path, and the query string of the
/// parameters when there are any.
pub fn path_and_param_to_api_url(path: &str, data: Option<&JsonValue>) -> (r: Result<
    String,
    QueryError,
>)
    ensures
        match data {
            None => r is Ok && r->Ok_0@ == "/api2/extjs"@ + path@,
            Some(d) => match query_spec(jview(*d)) {
                Ok(q) => r is Ok && r->Ok_0@ == "/api2/extjs"@ + path@ + "?"@ + q,
                Err(x) => r == Err::<String, QueryError>(x),
            },
        },
{
    let mut out: Vec<char> = Vec::new();
    push_str(&mut out, "/api2/extjs");
    push_str(&mut out, path);
    match data {
        None => {
            assert(out@ =~= "/api2/extjs"@ + path@);
            Ok(string_from_chars(out.as_slice()))
        },
        Some(d) => {
            let query = json_object_to_query(d)?;
            push_str(&mut out, "?");
            push_str(&mut out, query.as_str());
            Ok(string_from_chars(out.as_slice()))
        },
    }
}

/// How the parameters of a request are sent.
#[derive(Clone, Copy, PartialEq, Eq, Structural, Debug)]
pub enum RequestBody {
    /// No parameters.
    Nothing,
    /// As a JSON body.
    Json,
    /// As a form-encoded query string in the URL.
    Query,
}

/// POST and PUT send their parameters as JSON; other methods put them into the URL.
pub fn request_body_kind(method: &str, has_data: bool) -> (r: RequestBody)
    ensures
        r == if !has_data {
            RequestBody::Nothing
        } else if method@ == "POST"@ || method@ == "PUT"@ {
            RequestBody::Json
        } else {
            RequestBody::Query
        },
{
    if !has_data {
        return RequestBody::Nothing;
    }
    let m = str_chars(method);
    let post = str_chars("POST");
    let put = str_chars("PUT");
    if chars_eq(m.as_slice(), post.as_slice()) || chars_eq(m.as_slice(), put.as_slice()) {
        RequestBody::Json
    } else {
        RequestBody::Query
    }
}

// ---------------------------------------------------------------------------
// Responses
// ---------------------------------------------------------------------------

/// A status in `200..300`.
pub fn is_success_status(status: u16) -> (r: bool)
    ensures
        r == (200 <= status < 300),
{
    status >= 200 && status < 300
}

/// The content type as the API client expects it: a JSON type with parameters
/// (`application/json;charset=UTF-8`) becomes plain `application/json`.
pub fn normalize_content_type(content_type: Option<String>) -> (r: Option<String>)
    ensures
        match content_type {
            Some(ct) => if ct@.len() >= "application/json;"@.len() && ct@.take(
                "application/json;"@.len() as int,
            ) == "application/json;"@ {
                r is Some && r->0@ == "application/json"@
            } else {
                r == content_type
            },
            None => r is None,
        },
{
    match content_type {
        Some(ct) => {
            let c = str_chars(ct.as_str());
            let prefix = str_chars("application/json;");
            if starts_with(c.as_slice(), prefix.as_slice()) {
                Some("application/json".to_string())
            } else {
                Some(ct)
            }
        },
        None => None,
    }
}

/// A response content type is JSON: its media type (before any `;`, trimmed) is
/// `application/json`.
pub open spec fn is_json_content_type_spec(content_type: Option<&str>) -> bool {
    match content_type {
        Some(ct) => trim_spec(split_spec(ct@, ';')[0]) == "application/json"@,
        None => false,
    }
}

/// Whether a response content type is JSON.
pub fn is_json_content_type(content_type: Option<&str>) -> (r: bool)
    ensures
        r == is_json_content_type_spec(content_type),
{
    match content_type {
        Some(ct) => {
            let c = str_chars(ct);
            let parts = split(c.as_slice(), ';');
            proof {
                lemma_split_nonempty(c@, ';');
            }
            let media = trim(parts[0].as_slice());
            let json = str_chars("application/json");
            chars_eq(media.as_slice(), json.as_slice())
        },
        None => false,
    }
}

/// The outcome of a raw upload by its status.
#[derive(Clone, Copy, PartialEq, Eq, Structural, Debug)]
pub enum UploadStatus {
    /// Accepted.
    Success,
    /// The session is no longer valid: clear the authentication.
    Unauthorized,
    /// Refused.
    Failed,
}

/// 401 means the authentication is gone; anything but 200 is a failure.
pub fn upload_status(status: u16) -> (r: UploadStatus)
    ensures
        r == if status == 401 {
            UploadStatus::Unauthorized
        } else if status != 200 {
            UploadStatus::Failed
        } else {
            UploadStatus::Success
        },
{
    if status == 401 {
        UploadStatus::Unauthorized
    } else if status != 200 {
        UploadStatus::Failed
    } else {
        UploadStatus::Success
    }
}

/// A raw upload as it is sent: a POST of the bytes to `url`, with their content type and,
/// when the client is logged in, the CSRF prevention token.
pub struct UploadRequest {
    pub url: String,
    pub content_type: String,
    pub csrf_token: Option<String>,
}

/// Builds a raw upload to an API path: it goes to the `/api2/json` endpoint (so that status
/// codes come back as they are), as `application/octet-stream` unless a content type is
/// given, with the token of the current login if there is one.
pub fn upload_request(state: &AuthState, url: &str, content_type: Option<&str>) -> (r: UploadRequest)
    ensures
        r.url@ == "/api2/json"@ + url@,
        r.content_type@ == match content_type {
            Some(c) => c@,
            None => "application/octet-stream"@,
        },
        match state.client_auth {
            Some(l) => r.csrf_token is Some && r.csrf_token->0@ == l.csrf_token@,
            None => r.csrf_token is None,
        },
{
    let mut u: Vec<char> = Vec::new();
    push_str(&mut u, "/api2/json");
    push_str(&mut u, url);
    let ct = match content_type {
        Some(c) => c.to_string(),
        None => "application/octet-stream".to_string(),
    };
    let token = match &state.client_auth {
        Some(l) => Some(l.csrf_token.clone()),
        None => None,
    };
    UploadRequest { url: string_from_chars(u.as_slice()), content_type: ct, csrf_token: token }
}

/// What a raw upload's response comes to.
pub enum UploadOutcome {
    /// The session is gone (the login was dropped); the error text.
    Unauthorized(String),
    /// The upload was refused; the error text, naming the response body and status.
    Failed(String),
    /// Accepted with a JSON reply, whose `data` is the result.
    Json,
    /// Accepted without a JSON reply: no result.
    NoData,
}

/// Handles the response to a raw upload sent to `request_url`: on 401 the login is dropped
/// and the upload fails as unauthorized; any other status but 200 fails with the body and the
/// status; a 200 reply carries a result when its content type is JSON.
pub fn upload_response(
    state: &mut AuthState,
    request_url: &str,
    status: u16,
    body: &str,
    content_type: Option<&str>,
) -> (r: UploadOutcome)
    ensures
        status == 401 ==> {
            &&& r matches UploadOutcome::Unauthorized(m) && m@ == "could not post to '"@
                + request_url@ + "' - UNAUTHORIZED"@
            &&& *final(state) == (AuthState { client_auth: None, ..*old(state) })
        },
        status != 401 ==> *final(state) == *old(state),
        status != 401 && status != 200 ==> (r matches UploadOutcome::Failed(m) && m@
            == "could not post, '"@ + body@ + "', response status "@ + decimal_spec(status as nat)),
        status == 200 ==> r == if is_json_content_type_spec(content_type) {
            UploadOutcome::Json
        } else {
            UploadOutcome::NoData
        },
{
    match upload_status(status) {
        UploadStatus::Unauthorized => {
            state.client_auth = None;
            let mut m: Vec<char> = Vec::new();
            push_str(&mut m, "could not post to '");
            push_str(&mut m, request_url);
            push_str(&mut m, "' - UNAUTHORIZED");
            UploadOutcome::Unauthorized(string_from_chars(m.as_slice()))
        },
        UploadStatus::Failed => {
            let mut m: Vec<char> = Vec::new();
            push_str(&mut m, "could not post, '");
            push_str(&mut m, body);
            push_str(&mut m, "', response status ");
            push_decimal(&mut m, status as u64);
            UploadOutcome::Failed(string_from_chars(m.as_slice()))
        },
        UploadStatus::Success => if is_json_content_type(content_type) {
            UploadOutcome::Json
        } else {
            UploadOutcome::NoData
        },
    }
}

// ---------------------------------------------------------------------------
// Task results
// ---------------------------------------------------------------------------

/// Milliseconds before the first poll of a task's status.
pub const TASK_POLL_FIRST_DELAY_MS: u32 = 100;

/// The delay between polls doubles up to 1.6 seconds.
pub fn task_poll_next_delay(delay_ms: u32) -> (r: u32)
    ensures
        r == if delay_ms < 1600 {
            delay_ms * 2
        } else {
            delay_ms as int
        },
{
    if delay_ms < 1600 {
        delay_ms * 2
    } else {
        delay_ms
    }
}

/// Why waiting for a task failed before it started.
#[derive(Clone, Copy, PartialEq, Eq, Structural, Debug)]
pub enum TaskError {
    /// The API call did not return a task id.
    MissingUpid,
}

/// The task id (UPID) an API call returned: it must be a string.
pub fn task_upid(task: &JsonValue) -> (r: Result<String, TaskError>)
    ensures
        match jview(*task) {
            Json::Str(s) => r is Ok && r->Ok_0@ == s,
            _ => r == Err::<String, TaskError>(TaskError::MissingUpid),
        },
{
    match as_str(task) {
        Some(s) => Ok(s),
        None => Err(TaskError::MissingUpid),
    }
}

/// What percent-encoding of everything but ASCII letters and digits makes of a byte string.
pub open spec fn percent_encode_bytes(b: Seq<u8>) -> Seq<char>
    decreases b.len(),
{
    if b.len() == 0 {
        Seq::empty()
    } else {
        percent_encode_bytes(b.drop_last()) + if is_alnum_byte(b.last()) {
            seq![b.last() as char]
        } else {
            percent_byte(b.last())
        }
    }
}

/// A path component with every byte of its UTF-8 text but ASCII letters and digits written
/// as `%XX`.
pub open spec fn percent_encoded_component(s: Seq<char>) -> Seq<char> {
    percent_encode_bytes(utf8_bytes(s))
}

/// The UTF-8 bytes of a character.
fn utf8_char_bytes(c: char) -> (r: Vec<u8>)
    ensures
        r@ == utf8_char(c),
{
    let n: u32 = c as u32;
    if n < 0x80 {
        vec![n as u8]
    } else if n < 0x800 {
        vec![(0xC0 + n / 64) as u8, (0x80 + n % 64) as u8]
    } else if n < 0x10000 {
        vec![(0xE0 + n / 4096) as u8, (0x80 + (n / 64) % 64) as u8, (0x80 + n % 64) as u8]
    } else {
        vec![
            (0xF0 + n / 262144) as u8,
            (0x80 + (n / 4096) % 64) as u8,
            (0x80 + (n / 64) % 64) as u8,
            (0x80 + n % 64) as u8,
        ]
    }
}

/// An upper-case hexadecimal digit.
fn hex_upper(n: u8) -> (c: char)
    requires
        n < 16,
    ensures
        c == hex_digit_upper(n as int),
{
    if n < 10 {
        ((n + 48) as u8) as char
    } else {
        ((n + 55) as u8) as char
    }
}

/// Appends a byte, percent-encoded unless it is an ASCII letter or digit.
fn push_percent_byte(out: &mut Vec<char>, b: u8)
    ensures
        final(out)@ == old(out)@ + if is_alnum_byte(b) {
            seq![b as char]
        } else {
            percent_byte(b)
        },
{
    if (48 <= b && b <= 57) || (65 <= b && b <= 90) || (97 <= b && b <= 122) {
        out.push(b as char);
    } else {
        out.push('%');
        out.push(hex_upper(b / 16));
        out.push(hex_upper(b % 16));
    }
}

/// Percent-encodes a path component: every byte of its UTF-8 text but ASCII letters and
/// digits becomes `%XX` (upper-case digits).
pub(crate) fn percent_encode_component(s: &str) -> (encoded: String)
    ensures
        encoded@ == percent_encoded_component(s@),
{
    let chars = str_chars(s);
    let mut out: Vec<char> = Vec::new();
    let mut i: usize = 0;
    while i < chars.len()
        invariant
            i <= chars.len(),
            out@ == percent_encode_bytes(utf8_bytes(chars@.take(i as int))),
        decreases chars.len() - i,
    {
        let bytes = utf8_char_bytes(chars[i]);
        let ghost prefix = utf8_bytes(chars@.take(i as int));
        let mut j: usize = 0;
        assert(prefix + bytes@.take(0) =~= prefix);
        while j < bytes.len()
            invariant
                j <= bytes.len(),
                out@ == percent_encode_bytes(prefix + bytes@.take(j as int)),
            decreases bytes.len() - j,
        {
            let b = bytes[j];
            push_percent_byte(&mut out, b);
            assert((prefix + bytes@.take(j + 1)).drop_last() =~= prefix + bytes@.take(j as int));
            j = j + 1;
        }
        assert(chars@.take(i + 1).drop_last() =~= chars@.take(i as int));
        assert(bytes@.take(bytes.len() as int) =~= bytes@);
        i = i + 1;
    }
    assert(chars@.take(chars.len() as int) =~= chars@);
    string_from_chars(out.as_slice())
}

/// The API path of a task's status.
pub fn task_status_path(upid: &str) -> (r: String)
    ensures
        r@ == "/nodes/localhost/tasks/"@ + percent_encoded_component(upid@) + "/status"@,
{
    let mut out: Vec<char> = Vec::new();
    push_str(&mut out, "/nodes/localhost/tasks/");
    let enc = percent_encode_component(upid);
    push_str(&mut out, enc.as_str());
    push_str(&mut out, "/status");
    string_from_chars(out.as_slice())
}

/// Whether a task status says the task still runs (`status` is `"running"`).
pub fn task_still_running(stat: &JsonValue) -> (r: bool)
    ensures
        r == (index_key(jview(*stat), "status"@) == Json::Str("running"@)),
{
    let key = str_chars("status");
    match get_member(stat, key.as_slice()) {
        Some(i) => {
            let entries = match stat {
                JsonValue::Object(e) => e,
                _ => {
                    proof {
                        assert(false);
                    }
                    return false;
                },
            };
            match &entries[i].1 {
                JsonValue::Str(s) => {
                    let c = str_chars(s.as_str());
                    let running = str_chars("running");
                    chars_eq(c.as_slice(), running.as_slice())
                },
                _ => false,
            }
        },
        None => false,
    }
}

/// The result of a finished task: `exitstatus` `"OK"` is success; anything else (or no
/// `exitstatus` string, reported as `"unknown"`) is the error message.
pub fn task_exit_result(stat: &JsonValue) -> (r: Result<(), String>)
    ensures
        ({
            let status = match index_key(jview(*stat), "exitstatus"@) {
                Json::Str(s) => s,
                _ => "unknown"@,
            };
            if status == "OK"@ {
                r is Ok
            } else {
                r is Err && r->Err_0@ == status
            }
        }),
{
    let key = str_chars("exitstatus");
    let status: String = match get_member(stat, key.as_slice()) {
        Some(i) => {
            let entries = match stat {
                JsonValue::Object(e) => e,
                _ => {
                    proof {
                        assert(false);
                    }
                    return Err("unknown".to_string());
                },
            };
            match as_str(&entries[i].1) {
                Some(s) => s,
                None => "unknown".to_string(),
            }
        },
        None => "unknown".to_string(),
    };
    let c = str_chars(status.as_str());
    let ok = str_chars("OK");
    if chars_eq(c.as_slice(), ok.as_slice()) {
        Ok(())
    } else {
        Err(status)
    }
}

} // verus!
