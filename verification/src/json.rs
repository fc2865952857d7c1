//! JSON values as the property editors and the HTTP helpers handle them.
//!
//! [`JsonValue`] holds a JSON document; an object keeps its entries in iteration order (a
//! document read from text has distinct keys; a lookup takes the first entry with a key).
//! [`jview`] gives its mathematical model, [`Json`], which the contracts speak of. Numbers
//! are kept as their text.
use vstd::prelude::*;
use crate::text::{chars_eq, str_chars, string_from_chars};

verus! {

/// A JSON value.
#[derive(Debug, PartialEq)]
pub enum JsonValue {
    /// `null`
    Null,
    /// `true` or `false`
    Bool(bool),
    /// A number, as its text.
    Number(String),
    /// A string.
    Str(String),
    /// An array.
    Array(Vec<JsonValue>),
    /// An object: its entries in iteration order.
    Object(Vec<(String, JsonValue)>),
}

/// The model of a JSON value.
pub enum Json {
    Null,
    Bool(bool),
    Number(Seq<char>),
    Str(Seq<char>),
    Array(Seq<Json>),
    Object(Seq<(Seq<char>, Json)>),
}

/// The model of a value.
pub open spec fn jview(v: JsonValue) -> Json
    decreases v, 0nat,
{
    match v {
        JsonValue::Null => Json::Null,
        JsonValue::Bool(b) => Json::Bool(b),
        JsonValue::Number(n) => Json::Number(n@),
        JsonValue::Str(s) => Json::Str(s@),
        JsonValue::Array(a) => Json::Array(jviews(a@)),
        JsonValue::Object(o) => Json::Object(jentries(o@)),
    }
}

/// The models of a list of values.
pub open spec fn jviews(s: Seq<JsonValue>) -> Seq<Json>
    decreases s, 1nat,
{
    if s.len() == 0 {
        Seq::empty()
    } else {
        jviews(s.drop_last()).push(jview(s.last()))
    }
}

/// The models of a list of object entries.
pub open spec fn jentries(s: Seq<(String, JsonValue)>) -> Seq<(Seq<char>, Json)>
    decreases s, 1nat,
{
    if s.len() == 0 {
        Seq::empty()
    } else {
        jentries(s.drop_last()).push((s.last().0@, jview(s.last().1)))
    }
}

pub proof fn lemma_jviews(s: Seq<JsonValue>)
    ensures
        jviews(s).len() == s.len(),
        forall|i: int| 0 <= i < s.len() ==> #[trigger] jviews(s)[i] == jview(s[i]),
    decreases s.len(),
{
    if s.len() > 0 {
        lemma_jviews(s.drop_last());
    }
}

pub proof fn lemma_jentries(s: Seq<(String, JsonValue)>)
    ensures
        jentries(s).len() == s.len(),
        forall|i: int|
            0 <= i < s.len() ==> #[trigger] jentries(s)[i] == (s[i].0@, jview(s[i].1)),
    decreases s.len(),
{
    if s.len() > 0 {
        lemma_jentries(s.drop_last());
    }
}

/// The value stored under `key` in a list of object entries (the first entry with that
/// key).
pub open spec fn obj_get(e: Seq<(Seq<char>, Json)>, key: Seq<char>) -> Option<Json>
    decreases e.len(),
{
    if e.len() == 0 {
        None
    } else if e[0].0 == key {
        Some(e[0].1)
    } else {
        obj_get(e.drop_first(), key)
    }
}

/// The keys of a list of object entries.
pub open spec fn keys_of(e: Seq<(Seq<char>, Json)>) -> Seq<Seq<char>> {
    e.map_values(|x: (Seq<char>, Json)| x.0)
}

/// An object's keys are distinct.
pub open spec fn distinct_keys(e: Seq<(Seq<char>, Json)>) -> bool {
    keys_of(e).no_duplicates()
}

/// The entries of an object (empty for other values).
pub open spec fn entries_of(v: Json) -> Seq<(Seq<char>, Json)> {
    match v {
        Json::Object(e) => e,
        _ => Seq::empty(),
    }
}

/// `Value::get` with a key: the value under `key` when `v` is an object.
pub open spec fn member(v: Json, key: Seq<char>) -> Option<Json> {
    match v {
        Json::Object(e) => obj_get(e, key),
        _ => None,
    }
}

/// `value[key]`: the value under `key`, `null` when there is none.
pub open spec fn index_key(v: Json, key: Seq<char>) -> Json {
    match member(v, key) {
        Some(x) => x,
        None => Json::Null,
    }
}

/// A key is found exactly when it is one of the keys.
pub proof fn lemma_obj_get_some(e: Seq<(Seq<char>, Json)>, key: Seq<char>)
    ensures
        obj_get(e, key) is Some <==> keys_of(e).contains(key),
        obj_get(e, key) is Some ==> exists|i: int|
            0 <= i < e.len() && e[i].0 == key && obj_get(e, key) == Some(e[i].1),
    decreases e.len(),
{
    if e.len() > 0 {
        lemma_obj_get_some(e.drop_first(), key);
        if e[0].0 != key {
            if keys_of(e).contains(key) {
                let i = choose|i: int| 0 <= i < keys_of(e).len() && keys_of(e)[i] == key;
                assert(keys_of(e.drop_first())[i - 1] == key);
            }
            if keys_of(e.drop_first()).contains(key) {
                let i = choose|i: int|
                    0 <= i < keys_of(e.drop_first()).len() && keys_of(e.drop_first())[i] == key;
                assert(keys_of(e)[i + 1] == key);
            }
            if obj_get(e, key) is Some {
                let i = choose|i: int|
                    0 <= i < e.drop_first().len() && e.drop_first()[i].0 == key && obj_get(
                        e.drop_first(),
                        key,
                    ) == Some(e.drop_first()[i].1);
                assert(e[i + 1] == e.drop_first()[i]);
            }
        } else {
            assert(keys_of(e)[0] == key);
        }
    }
}

/// A deep copy of a value.
pub fn clone_json(v: &JsonValue) -> (r: JsonValue)
    ensures
        jview(r) == jview(*v),
    decreases v,
{
    match v {
        JsonValue::Null => JsonValue::Null,
        JsonValue::Bool(b) => JsonValue::Bool(*b),
        JsonValue::Number(n) => JsonValue::Number(n.clone()),
        JsonValue::Str(s) => JsonValue::Str(s.clone()),
        JsonValue::Array(a) => {
            let mut out: Vec<JsonValue> = Vec::new();
            let mut i: usize = 0;
            while i < a.len()
                invariant
                    i <= a.len(),
                    *v is Array,
                    v->Array_0 == *a,
                    jviews(out@) == jviews(a@.take(i as int)),
                decreases a.len() - i,
            {
                proof {
                    vstd::std_specs::vec::axiom_vec_index_decreases(*a, i as int);
                }
                let c = clone_json(&a[i]);
                let ghost before = out@;
                out.push(c);
                proof {
                    assert(a@.take(i + 1).drop_last() == a@.take(i as int));
                    assert(out@.drop_last() == before);
                }
                i = i + 1;
            }
            assert(a@.take(a.len() as int) == a@);
            JsonValue::Array(out)
        },
        JsonValue::Object(o) => {
            let mut out: Vec<(String, JsonValue)> = Vec::new();
            let mut i: usize = 0;
            while i < o.len()
                invariant
                    i <= o.len(),
                    *v is Object,
                    v->Object_0 == *o,
                    jentries(out@) == jentries(o@.take(i as int)),
                decreases o.len() - i,
            {
                proof {
                    vstd::std_specs::vec::axiom_vec_index_decreases(*o, i as int);
                }
                let k = o[i].0.clone();
                let c = clone_json(&o[i].1);
                let ghost before = out@;
                out.push((k, c));
                proof {
                    assert(o@.take(i + 1).drop_last() == o@.take(i as int));
                    assert(out@.drop_last() == before);
                }
                i = i + 1;
            }
            assert(o@.take(o.len() as int) == o@);
            JsonValue::Object(out)
        },
    }
}

/// Equality of two numbers given as their text. The values hold numbers in the text
/// `serde_json` writes for them, where equal numbers have equal text but for the float
/// zero, written `0.0` and `-0.0`, which compare equal.
pub open spec fn number_eq(a: Seq<char>, b: Seq<char>) -> bool {
    a == b || (a == "0.0"@ && b == "-0.0"@) || (a == "-0.0"@ && b == "0.0"@)
}

/// Equality of JSON values (`PartialEq` of `serde_json::Value`): arrays item by item,
/// objects as maps (the same number of entries, and each key of one holding an equal value
/// in the other).
pub open spec fn json_equiv(a: Json, b: Json) -> bool
    decreases a, 0nat,
{
    match (a, b) {
        (Json::Null, Json::Null) => true,
        (Json::Bool(x), Json::Bool(y)) => x == y,
        (Json::Number(x), Json::Number(y)) => number_eq(x, y),
        (Json::Str(x), Json::Str(y)) => x == y,
        (Json::Array(x), Json::Array(y)) => equiv_items(x, y),
        (Json::Object(x), Json::Object(y)) => x.len() == y.len() && equiv_entries(x, y),
        _ => false,
    }
}

/// Two lists of values are equal item by item.
pub open spec fn equiv_items(x: Seq<Json>, y: Seq<Json>) -> bool
    decreases x, 1nat,
{
    if x.len() == 0 {
        y.len() == 0
    } else {
        y.len() > 0 && equiv_items(x.drop_last(), y.drop_last()) && json_equiv(x.last(), y.last())
    }
}

/// Each key of the entries `x` holds an equal value in the entries `ys`.
pub open spec fn equiv_entries(x: Seq<(Seq<char>, Json)>, ys: Seq<(Seq<char>, Json)>) -> bool
    decreases x, 1nat,
{
    if x.len() == 0 {
        true
    } else {
        equiv_entries(x.drop_last(), ys) && match obj_get(ys, x.last().0) {
            Some(v) => json_equiv(x.last().1, v),
            None => false,
        }
    }
}

fn number_text_eq(x: &String, y: &String) -> (r: bool)
    ensures
        r == number_eq(x@, y@),
{
    let a = str_chars(x.as_str());
    let b = str_chars(y.as_str());
    let zero = str_chars("0.0");
    let neg = str_chars("-0.0");
    chars_eq(a.as_slice(), b.as_slice()) || (chars_eq(a.as_slice(), zero.as_slice()) && chars_eq(
        b.as_slice(),
        neg.as_slice(),
    )) || (chars_eq(a.as_slice(), neg.as_slice()) && chars_eq(b.as_slice(), zero.as_slice()))
}

/// Equality of two values (`PartialEq` of JSON values).
pub fn json_eq(a: &JsonValue, b: &JsonValue) -> (r: bool)
    ensures
        r == json_equiv(jview(*a), jview(*b)),
    decreases a,
{
    match (a, b) {
        (JsonValue::Null, JsonValue::Null) => true,
        (JsonValue::Bool(x), JsonValue::Bool(y)) => *x == *y,
        (JsonValue::Number(x), JsonValue::Number(y)) => number_text_eq(x, y),
        (JsonValue::Str(x), JsonValue::Str(y)) => x.eq(y),
        (JsonValue::Array(x), JsonValue::Array(y)) => {
            proof {
                lemma_jviews(x@);
                lemma_jviews(y@);
            }
            if x.len() != y.len() {
                proof {
                    lemma_equiv_items_len(jviews(x@), jviews(y@));
                }
                return false;
            }
            let mut i: usize = 0;
            while i < x.len()
                invariant
                    i <= x.len() == y.len(),
                    *a is Array,
                    a->Array_0 == *x,
                    *b is Array,
                    b->Array_0 == *y,
                    jviews(x@).len() == x.len(),
                    jviews(y@).len() == y.len(),
                    forall|k: int| 0 <= k < x.len() ==> #[trigger] jviews(x@)[k] == jview(x@[k]),
                    forall|k: int| 0 <= k < y.len() ==> #[trigger] jviews(y@)[k] == jview(y@[k]),
                    equiv_items(jviews(x@).take(i as int), jviews(y@).take(i as int)),
                decreases x.len() - i,
            {
                proof {
                    vstd::std_specs::vec::axiom_vec_index_decreases(*x, i as int);
                    assert(jviews(x@).take(i + 1).drop_last() =~= jviews(x@).take(i as int));
                    assert(jviews(y@).take(i + 1).drop_last() =~= jviews(y@).take(i as int));
                }
                if !json_eq(&x[i], &y[i]) {
                    proof {
                        lemma_equiv_items_prefix(jviews(x@), jviews(y@), i + 1);
                    }
                    return false;
                }
                i = i + 1;
            }
            assert(jviews(x@).take(x.len() as int) =~= jviews(x@));
            assert(jviews(y@).take(y.len() as int) =~= jviews(y@));
            true
        },
        (JsonValue::Object(x), JsonValue::Object(y)) => {
            proof {
                lemma_jentries(x@);
                lemma_jentries(y@);
            }
            if x.len() != y.len() {
                return false;
            }
            let mut i: usize = 0;
            while i < x.len()
                invariant
                    i <= x.len() == y.len(),
                    *a is Object,
                    a->Object_0 == *x,
                    *b is Object,
                    b->Object_0 == *y,
                    jentries(x@).len() == x.len(),
                    jentries(y@).len() == y.len(),
                    forall|k: int|
                        0 <= k < x.len() ==> #[trigger] jentries(x@)[k] == (x@[k].0@, jview(x@[k].1)),
                    equiv_entries(jentries(x@).take(i as int), jentries(y@)),
                decreases x.len() - i,
            {
                proof {
                    vstd::std_specs::vec::axiom_vec_index_decreases(*x, i as int);
                    assert(jentries(x@).take(i + 1).drop_last() =~= jentries(x@).take(i as int));
                    assert(jentries(x@).take(i + 1).last() == jentries(x@)[i as int]);
                }
                let kc = str_chars(x[i].0.as_str());
                let same = match entries_get(y, kc.as_slice()) {
                    Some(j) => json_eq(&x[i].1, &y[j].1),
                    None => false,
                };
                if !same {
                    proof {
                        lemma_equiv_entries_prefix(jentries(x@), jentries(y@), i + 1);
                    }
                    return false;
                }
                i = i + 1;
            }
            assert(jentries(x@).take(x.len() as int) =~= jentries(x@));
            true
        },
        _ => false,
    }
}

proof fn lemma_equiv_items_len(x: Seq<Json>, y: Seq<Json>)
    ensures
        equiv_items(x, y) ==> x.len() == y.len(),
    decreases x.len(),
{
    if x.len() > 0 && y.len() > 0 {
        lemma_equiv_items_len(x.drop_last(), y.drop_last());
    }
}

proof fn lemma_equiv_items_prefix(x: Seq<Json>, y: Seq<Json>, k: int)
    requires
        0 <= k <= x.len(),
        x.len() == y.len(),
        !equiv_items(x.take(k), y.take(k)),
    ensures
        !equiv_items(x, y),
    decreases x.len(),
{
    if x.len() == k {
        assert(x.take(k) =~= x);
        assert(y.take(k) =~= y);
    } else {
        assert(x.drop_last().take(k) =~= x.take(k));
        assert(y.drop_last().take(k) =~= y.take(k));
        lemma_equiv_items_prefix(x.drop_last(), y.drop_last(), k);
    }
}

proof fn lemma_equiv_entries_prefix(x: Seq<(Seq<char>, Json)>, ys: Seq<(Seq<char>, Json)>, k: int)
    requires
        0 <= k <= x.len(),
        !equiv_entries(x.take(k), ys),
    ensures
        !equiv_entries(x, ys),
    decreases x.len(),
{
    if x.len() == k {
        assert(x.take(k) =~= x);
    } else {
        assert(x.drop_last().take(k) =~= x.take(k));
        lemma_equiv_entries_prefix(x.drop_last(), ys, k);
    }
}

/// A deep copy of a list of object entries.
pub fn clone_entries(d: &Vec<(String, JsonValue)>) -> (copy: Vec<(String, JsonValue)>)
    ensures
        jentries(copy@) == jentries(d@),
{
    let mut copy: Vec<(String, JsonValue)> = Vec::new();
    let mut i: usize = 0;
    while i < d.len()
        invariant
            i <= d.len(),
            jentries(copy@) == jentries(d@.take(i as int)),
        decreases d.len() - i,
    {
        let k = d[i].0.clone();
        let v = clone_json(&d[i].1);
        let ghost before = copy@;
        copy.push((k, v));
        proof {
            assert(copy@.drop_last() == before);
            assert(d@.take(i + 1).drop_last() == d@.take(i as int));
        }
        i = i + 1;
    }
    assert(d@.take(d.len() as int) == d@);
    copy
}

/// The string of a value, if it is a string (`Value::as_str`).
pub fn as_str(v: &JsonValue) -> (r: Option<String>)
    ensures
        match jview(*v) {
            Json::Str(s) => r is Some && r->0@ == s,
            _ => r is None,
        },
{
    match v {
        JsonValue::Str(s) => Some(s.clone()),
        _ => None,
    }
}

/// Looks `key` up in a list of entries.
pub fn entries_get(e: &Vec<(String, JsonValue)>, key: &[char]) -> (r: Option<usize>)
    ensures
        match r {
            Some(i) => {
                &&& i < e@.len()
                &&& e@[i as int].0@ == key@
                &&& obj_get(jentries(e@), key@) == Some(jview(e@[i as int].1))
            },
            None => obj_get(jentries(e@), key@) is None,
        },
{
    proof {
        lemma_jentries(e@);
        assert(jentries(e@).skip(0) =~= jentries(e@));
    }
    let mut i: usize = 0;
    while i < e.len()
        invariant
            i <= e.len(),
            jentries(e@).len() == e.len(),
            forall|k: int|
                0 <= k < e.len() ==> #[trigger] jentries(e@)[k] == (e@[k].0@, jview(e@[k].1)),
            obj_get(jentries(e@), key@) == obj_get(jentries(e@).skip(i as int), key@),
        decreases e.len() - i,
    {
        let kc = str_chars(e[i].0.as_str());
        let ghost rest = jentries(e@).skip(i as int);
        assert(rest[0] == jentries(e@)[i as int]);
        if chars_eq(kc.as_slice(), key) {
            return Some(i);
        }
        assert(rest.drop_first() =~= jentries(e@).skip(i + 1));
        i = i + 1;
    }
    None
}

/// Looks `key` up in a value (`Value::get`): the position of its entry when `v` is an
/// object that has it.
pub fn get_member(v: &JsonValue, key: &[char]) -> (r: Option<usize>)
    ensures
        match r {
            Some(i) => v is Object && i < v->Object_0@.len() && member(jview(*v), key@) == Some(
                jview(v->Object_0@[i as int].1),
            ),
            None => member(jview(*v), key@) is None,
        },
{
    match v {
        JsonValue::Object(e) => entries_get(e, key),
        _ => None,
    }
}

/// Whether `value[key]` is the string `expected`.
pub fn index_is_str(v: &JsonValue, key: &str, expected: &str) -> (r: bool)
    ensures
        r == (index_key(jview(*v), key@) == Json::Str(expected@)),
{
    let k = str_chars(key);
    match get_member(v, k.as_slice()) {
        Some(i) => match v {
            JsonValue::Object(e) => match &e[i].1 {
                JsonValue::Str(s) => {
                    let c = str_chars(s.as_str());
                    let x = str_chars(expected);
                    chars_eq(c.as_slice(), x.as_slice())
                },
                _ => false,
            },
            _ => false,
        },
        None => false,
    }
}

/// Whether `value[key]` is `null` (also when there is no such member).
pub fn index_is_null(v: &JsonValue, key: &str) -> (r: bool)
    ensures
        r == (index_key(jview(*v), key@) == Json::Null),
{
    let k = str_chars(key);
    match get_member(v, k.as_slice()) {
        Some(i) => match v {
            JsonValue::Object(e) => match &e[i].1 {
                JsonValue::Null => true,
                _ => false,
            },
            _ => false,
        },
        None => true,
    }
}

// ---------------------------------------------------------------------------
// Dropping default and empty values from submit data
// ---------------------------------------------------------------------------

/// An entry holds the default value for its key (equal as JSON values).
pub open spec fn is_default_entry(defaults: Seq<(Seq<char>, Json)>, e: (Seq<char>, Json)) -> bool {
    match obj_get(defaults, e.0) {
        Some(d) => json_equiv(d, e.1),
        None => false,
    }
}

/// The entries of `record` whose value differs from the default for their key.
pub open spec fn without_defaults(
    record: Seq<(Seq<char>, Json)>,
    defaults: Seq<(Seq<char>, Json)>,
) -> Seq<(Seq<char>, Json)>
    decreases record.len(),
{
    if record.len() == 0 {
        Seq::empty()
    } else {
        let init = without_defaults(record.drop_last(), defaults);
        let e = record.last();
        if is_default_entry(defaults, e) {
            init
        } else {
            init.push(e)
        }
    }
}

proof fn lemma_without_defaults_keeps(s: Seq<(Seq<char>, Json)>, defaults: Seq<(Seq<char>, Json)>)
    requires
        forall|i: int| 0 <= i < s.len() ==> !is_default_entry(defaults, s[i]),
    ensures
        without_defaults(s, defaults) == s,
    decreases s.len(),
{
    if s.len() > 0 {
        lemma_without_defaults_keeps(s.drop_last(), defaults);
        assert(s.drop_last().push(s.last()) =~= s);
    }
}

proof fn lemma_without_defaults_clean(s: Seq<(Seq<char>, Json)>, defaults: Seq<(Seq<char>, Json)>)
    ensures
        forall|i: int|
            0 <= i < without_defaults(s, defaults).len() ==> !is_default_entry(
                defaults,
                #[trigger] without_defaults(s, defaults)[i],
            ),
    decreases s.len(),
{
    if s.len() > 0 {
        lemma_without_defaults_clean(s.drop_last(), defaults);
        let init = without_defaults(s.drop_last(), defaults);
        let w = without_defaults(s, defaults);
        assert forall|i: int| 0 <= i < w.len() implies !is_default_entry(defaults, #[trigger] w[i]) by {
            if i < init.len() {
                assert(w[i] == init[i]);
            }
        }
    }
}

/// Deleting the default values is idempotent: a second pass over the result with the same
/// defaults deletes nothing more.
pub proof fn lemma_delete_defaults_idempotent(
    record: Seq<(Seq<char>, Json)>,
    defaults: Seq<(Seq<char>, Json)>,
)
    ensures
        without_defaults(without_defaults(record, defaults), defaults) == without_defaults(
            record,
            defaults,
        ),
{
    lemma_without_defaults_clean(record, defaults);
    lemma_without_defaults_keeps(without_defaults(record, defaults), defaults);
}

/// Deletes the entries of `record` that hold the default value for their key. Does nothing
/// unless both are objects.
pub fn delete_default_values(record: &mut JsonValue, defaults: &JsonValue)
    ensures
        jview(*final(record)) == match (jview(*old(record)), jview(*defaults)) {
            (Json::Object(r), Json::Object(d)) => Json::Object(without_defaults(r, d)),
            _ => jview(*old(record)),
        },
{
    let d = match defaults {
        JsonValue::Object(d) => d,
        _ => return,
    };
    let kept = match &*record {
        JsonValue::Object(entries) => {
            let mut kept: Vec<(String, JsonValue)> = Vec::new();
            let mut i: usize = 0;
            while i < entries.len()
                invariant
                    i <= entries.len(),
                    jentries(kept@) == without_defaults(
                        jentries(entries@.take(i as int)),
                        jentries(d@),
                    ),
                decreases entries.len() - i,
            {
                let kc = str_chars(entries[i].0.as_str());
                let is_default = match entries_get(d, kc.as_slice()) {
                    Some(j) => json_eq(&d[j].1, &entries[i].1),
                    None => false,
                };
                proof {
                    assert(entries@.take(i + 1).drop_last() == entries@.take(i as int));
                    assert(entries@.take(i + 1).last() == entries@[i as int]);
                    let jj = jentries(entries@.take(i + 1));
                    assert(jj.drop_last() == jentries(entries@.take(i as int)));
                    assert(jj.last() == (entries@[i as int].0@, jview(entries@[i as int].1)));
                    assert(is_default == is_default_entry(
                        jentries(d@),
                        (entries@[i as int].0@, jview(entries@[i as int].1)),
                    ));
                }
                let ghost before = kept@;
                if !is_default {
                    let k = entries[i].0.clone();
                    let v = clone_json(&entries[i].1);
                    kept.push((k, v));
                    assert(kept@.drop_last() == before);
                }
                i = i + 1;
            }
            assert(entries@.take(entries.len() as int) == entries@);
            kept
        },
        _ => return,
    };
    *record = JsonValue::Object(kept);
}

/// A value that counts as empty: `null` or the empty string.
pub open spec fn is_empty_json(v: Json) -> bool {
    match v {
        Json::Null => true,
        Json::Str(s) => s.len() == 0,
        _ => false,
    }
}

/// The entries kept by [`delete_empty_values`]: all but the empty values of the listed
/// parameters.
pub open spec fn kept_entries(e: Seq<(Seq<char>, Json)>, params: Seq<Seq<char>>) -> Seq<
    (Seq<char>, Json),
>
    decreases e.len(),
{
    if e.len() == 0 {
        Seq::empty()
    } else {
        let init = kept_entries(e.drop_last(), params);
        let x = e.last();
        if params.contains(x.0) && is_empty_json(x.1) {
            init
        } else {
            init.push(x)
        }
    }
}

/// The listed parameters that hold an empty value, in entry order.
pub open spec fn emptied_params(e: Seq<(Seq<char>, Json)>, params: Seq<Seq<char>>) -> Seq<
    Seq<char>,
>
    decreases e.len(),
{
    if e.len() == 0 {
        Seq::empty()
    } else {
        let init = emptied_params(e.drop_last(), params);
        let x = e.last();
        if params.contains(x.0) && is_empty_json(x.1) {
            init.push(x.0)
        } else {
            init
        }
    }
}

/// The listed parameters that the record does not have, in list order.
pub open spec fn undefined_params(e: Seq<(Seq<char>, Json)>, params: Seq<Seq<char>>) -> Seq<
    Seq<char>,
>
    decreases params.len(),
{
    if params.len() == 0 {
        Seq::empty()
    } else {
        let init = undefined_params(e, params.drop_last());
        if obj_get(e, params.last()) is None {
            init.push(params.last())
        } else {
            init
        }
    }
}

/// `object[key] = value`: replaces the first entry with that key, or appends one.
pub open spec fn set_key(e: Seq<(Seq<char>, Json)>, key: Seq<char>, value: Json) -> Seq<
    (Seq<char>, Json),
>
    decreases e.len(),
{
    if e.len() == 0 {
        seq![(key, value)]
    } else if e[0].0 == key {
        e.update(0, (key, value))
    } else {
        seq![e[0]] + set_key(e.drop_first(), key, value)
    }
}

/// A list of strings as a JSON array.
pub open spec fn string_array(s: Seq<Seq<char>>) -> Json {
    Json::Array(s.map_values(|x: Seq<char>| Json::Str(x)))
}

/// The result of [`delete_empty_values`].
pub open spec fn delete_empty_spec(
    e: Seq<(Seq<char>, Json)>,
    params: Seq<Seq<char>>,
    delete_undefined: bool,
) -> Json {
    let deleted = emptied_params(e, params) + if delete_undefined {
        undefined_params(e, params)
    } else {
        Seq::empty()
    };
    let kept = kept_entries(e, params);
    if deleted.len() == 0 {
        Json::Object(kept)
    } else {
        Json::Object(set_key(kept, "delete"@, string_array(deleted)))
    }
}

/// The views of a list of string slices.
pub open spec fn str_list(v: Seq<&str>) -> Seq<Seq<char>> {
    v.map_values(|s: &str| s@)
}

/// Whether `name` is one of `params`.
fn contains_param(params: &[&str], name: &[char]) -> (r: bool)
    ensures
        r == str_list(params@).contains(name@),
{
    let mut i: usize = 0;
    while i < params.len()
        invariant
            i <= params.len(),
            forall|j: int| 0 <= j < i ==> params@[j]@ != name@,
        decreases params.len() - i,
    {
        let p = str_chars(params[i]);
        if chars_eq(p.as_slice(), name) {
            assert(str_list(params@)[i as int] == name@);
            return true;
        }
        i = i + 1;
    }
    proof {
        if str_list(params@).contains(name@) {
            let j = choose|j: int|
                0 <= j < str_list(params@).len() && str_list(params@)[j] == name@;
            assert(params@[j]@ == name@);
        }
    }
    false
}

/// `object[key] = value` on a list of entries.
pub(crate) fn set_entry(e: &mut Vec<(String, JsonValue)>, key: String, value: JsonValue)
    ensures
        jentries(final(e)@) == set_key(jentries(old(e)@), key@, jview(value)),
{
    proof {
        lemma_jentries(e@);
    }
    let kc = str_chars(key.as_str());
    let mut i: usize = 0;
    while i < e.len()
        invariant
            i <= e.len(),
            *e == *old(e),
            jentries(e@).len() == e.len(),
            forall|k: int|
                0 <= k < e.len() ==> #[trigger] jentries(e@)[k] == (e@[k].0@, jview(e@[k].1)),
            kc@ == key@,
            forall|k: int| 0 <= k < i ==> e@[k].0@ != key@,
        decreases e.len() - i,
    {
        let c = str_chars(e[i].0.as_str());
        if chars_eq(c.as_slice(), kc.as_slice()) {
            let ghost before = jentries(e@);
            e.set(i, (key, value));
            proof {
                lemma_set_key_at(before, key@, jview(value), i as int);
                lemma_jentries(e@);
                assert(jentries(e@) =~= before.update(i as int, (key@, jview(value))));
            }
            return;
        }
        i = i + 1;
    }
    let ghost before = jentries(e@);
    let ghost before_vec = e@;
    e.push((key, value));
    proof {
        assert(e@.drop_last() == before_vec);
        assert forall|k: int| 0 <= k < before.len() implies before[k].0 != key@ by {
            assert(before[k] == (before_vec[k].0@, jview(before_vec[k].1)));
        }
        lemma_set_key_absent(before, key@, jview(value));
    }
}

proof fn lemma_set_key_at(e: Seq<(Seq<char>, Json)>, key: Seq<char>, value: Json, i: int)
    requires
        0 <= i < e.len(),
        e[i].0 == key,
        forall|k: int| 0 <= k < i ==> e[k].0 != key,
    ensures
        set_key(e, key, value) == e.update(i, (key, value)),
    decreases i,
{
    if i > 0 {
        lemma_set_key_at(e.drop_first(), key, value, i - 1);
        assert(seq![e[0]] + e.drop_first().update(i - 1, (key, value)) =~= e.update(
            i,
            (key, value),
        ));
    }
}

/// Setting a key that no entry has appends an entry.
pub proof fn lemma_set_key_absent(e: Seq<(Seq<char>, Json)>, key: Seq<char>, value: Json)
    requires
        forall|k: int| 0 <= k < e.len() ==> e[k].0 != key,
    ensures
        set_key(e, key, value) == e.push((key, value)),
    decreases e.len(),
{
    if e.len() > 0 {
        lemma_set_key_absent(e.drop_first(), key, value);
        assert(seq![e[0]] + e.drop_first().push((key, value)) =~= e.push((key, value)));
    }
}

/// Removes the empty values of the listed parameters from submit data and names them in a
/// `delete` array instead; with `delete_undefined`, listed parameters the record lacks are
/// named there too. Values of parameters that are not listed are kept as they are.
pub fn delete_empty_values(record: &JsonValue, param_list: &[&str], delete_undefined: bool) -> (r:
    JsonValue)
    requires
        jview(*record) is Object,
    ensures
        jview(r) == delete_empty_spec(
            entries_of(jview(*record)),
            str_list(param_list@),
            delete_undefined,
        ),
{
    let entries = match record {
        JsonValue::Object(e) => e,
        _ => {
            proof {
                assert(false);
            }
            return JsonValue::Null;
        },
    };
    let ghost params = str_list(param_list@);
    let ghost ev = jentries(entries@);
    let mut new: Vec<(String, JsonValue)> = Vec::new();
    let mut delete: Vec<String> = Vec::new();
    let mut i: usize = 0;
    while i < entries.len()
        invariant
            i <= entries.len(),
            params == str_list(param_list@),
            jentries(new@) == kept_entries(jentries(entries@.take(i as int)), params),
            delete@.map_values(|s: String| s@) == emptied_params(
                jentries(entries@.take(i as int)),
                params,
            ),
        decreases entries.len() - i,
    {
        let name = str_chars(entries[i].0.as_str());
        let listed = contains_param(param_list, name.as_slice());
        let empty = match &entries[i].1 {
            JsonValue::Null => true,
            JsonValue::Str(s) => str_chars(s.as_str()).len() == 0,
            _ => false,
        };
        proof {
            assert(entries@.take(i + 1).drop_last() == entries@.take(i as int));
            let jj = jentries(entries@.take(i + 1));
            assert(jj.drop_last() == jentries(entries@.take(i as int)));
            assert(jj.last() == (entries@[i as int].0@, jview(entries@[i as int].1)));
        }
        let ghost before_new = new@;
        if listed && empty {
            let ghost before = delete@;
            delete.push(entries[i].0.clone());
            assert(delete@.map_values(|s: String| s@) =~= before.map_values(|s: String| s@).push(
                entries@[i as int].0@,
            ));
        } else {
            let k = entries[i].0.clone();
            let v = clone_json(&entries[i].1);
            new.push((k, v));
            assert(new@.drop_last() == before_new);
        }
        i = i + 1;
    }
    assert(entries@.take(entries.len() as int) == entries@);
    let ghost emptied = delete@.map_values(|s: String| s@);
    if delete_undefined {
        let mut j: usize = 0;
        while j < param_list.len()
            invariant
                j <= param_list.len(),
                params == str_list(param_list@),
                ev == jentries(entries@),
                delete@.map_values(|s: String| s@) == emptied + undefined_params(
                    ev,
                    params.take(j as int),
                ),
            decreases param_list.len() - j,
        {
            let p = str_chars(param_list[j]);
            proof {
                assert(params.take(j + 1).drop_last() == params.take(j as int));
                assert(params.take(j + 1).last() == param_list@[j as int]@);
            }
            if entries_get(entries, p.as_slice()).is_none() {
                let ghost before = delete@;
                delete.push(param_list[j].to_string());
                assert(delete@.map_values(|s: String| s@) =~= before.map_values(|s: String| s@).push(
                    param_list@[j as int]@,
                ));
            }
            j = j + 1;
        }
        assert(params.take(param_list.len() as int) == params);
    } else {
        assert(emptied + Seq::<Seq<char>>::empty() =~= emptied);
    }
    if delete.len() > 0 {
        let mut arr: Vec<JsonValue> = Vec::new();
        let mut k: usize = 0;
        while k < delete.len()
            invariant
                k <= delete.len(),
                jviews(arr@) == delete@.take(k as int).map_values(|s: String| Json::Str(s@)),
            decreases delete.len() - k,
        {
            let ghost before_arr = arr@;
            let c = delete[k].clone();
            assert(c@ == delete@[k as int]@);
            arr.push(JsonValue::Str(c));
            proof {
                assert(arr@.drop_last() == before_arr);
                assert(jview(arr@.last()) == Json::Str(delete@[k as int]@));
                assert(delete@.take(k + 1).map_values(|s: String| Json::Str(s@)) =~= delete@.take(
                    k as int,
                ).map_values(|s: String| Json::Str(s@)).push(Json::Str(delete@[k as int]@)));
            }
            k = k + 1;
        }
        proof {
            assert(delete@.take(delete.len() as int) == delete@);
            assert(jviews(arr@) =~= delete@.map_values(|s: String| s@).map_values(
                |x: Seq<char>| Json::Str(x),
            ));
        }
        set_entry(&mut new, "delete".to_string(), JsonValue::Array(arr));
    }
    JsonValue::Object(new)
}

} // verus!
