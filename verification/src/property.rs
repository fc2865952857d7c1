//! Editing the parts of a property string as separate fields.
//!
//! A property string such as `size=32G,backup=1` is shown as one field per part; the field
//! of part `p` is named `_p`. The schema that knows the parts and reads and prints the
//! strings is outside this module: it hands in the list of part names and the parsed parts.
use vstd::prelude::*;
use crate::json::{
    clone_entries, clone_json, entries_get, is_empty_json, jentries, jview, keys_of, lemma_jentries,
    lemma_set_key_absent, obj_get, set_key, Json, JsonValue,
};
use crate::text::{push_str, str_chars, string_from_chars};

verus! {

/// The field name of part `p`: `_p`.
pub open spec fn part_field(p: Seq<char>) -> Seq<char> {
    "_"@ + p
}

fn part_field_name(p: &str) -> (r: String)
    ensures
        r@ == part_field(p@),
{
    let mut v: Vec<char> = Vec::new();
    push_str(&mut v, "_");
    push_str(&mut v, p);
    string_from_chars(v.as_slice())
}

/// `entries[key] = value` on an object's entries.
fn set_member(e: &mut Vec<(String, JsonValue)>, key: String, value: JsonValue)
    ensures
        jentries(final(e)@) == set_key(jentries(old(e)@), key@, jview(value)),
{
    crate::json::set_entry(e, key, value);
}

/// The fields of the parts of a property string: `_p` for each part `p`, set in order.
pub open spec fn flatten_spec(data: Seq<(Seq<char>, Json)>, parts: Seq<(Seq<char>, Json)>) -> Seq<
    (Seq<char>, Json),
>
    decreases parts.len(),
{
    if parts.len() == 0 {
        data
    } else {
        let init = flatten_spec(data, parts.drop_last());
        set_key(init, part_field(parts.last().0), parts.last().1)
    }
}

/// Why the parts of a property string cannot be shown.
#[derive(Clone, Copy, PartialEq, Eq, Structural, Debug)]
pub enum PropertyError {
    /// The parsed property string is not an object.
    NotAnObject,
    /// The data is not an object.
    DataNotAnObject,
}

/// Shows the parts of a parsed property string as fields: each part `p` is stored as `_p`.
/// The data must be an object (or `null`, which becomes one).
pub fn flatten_parts(data: &mut JsonValue, parts: &JsonValue) -> (r: Result<(), PropertyError>)
    requires
        jview(*old(data)) is Object || jview(*old(data)) is Null,
    ensures
        match jview(*parts) {
            Json::Object(p) => {
                &&& r is Ok
                &&& jview(*final(data)) == Json::Object(
                    flatten_spec(
                        match jview(*old(data)) {
                            Json::Object(d) => d,
                            _ => Seq::empty(),
                        },
                        p,
                    ),
                )
            },
            _ => r == Err::<(), PropertyError>(PropertyError::NotAnObject) && *final(data) == *old(
                data,
            ),
        },
{
    let p = match parts {
        JsonValue::Object(p) => p,
        _ => return Err(PropertyError::NotAnObject),
    };
    let mut entries: Vec<(String, JsonValue)> = match data {
        JsonValue::Object(d) => crate::json::clone_entries(d),
        _ => Vec::new(),
    };
    let ghost base = jentries(entries@);
    proof {
        lemma_jentries(p@);
    }
    let mut i: usize = 0;
    while i < p.len()
        invariant
            i <= p.len(),
            jentries(p@).len() == p.len(),
            forall|k: int| 0 <= k < p.len() ==> #[trigger] jentries(p@)[k] == (p@[k].0@, jview(p@[k].1)),
            jentries(entries@) == flatten_spec(base, jentries(p@).take(i as int)),
        decreases p.len() - i,
    {
        proof {
            assert(jentries(p@).take(i + 1).drop_last() == jentries(p@).take(i as int));
            assert(jentries(p@).take(i + 1).last() == jentries(p@)[i as int]);
        }
        let name = part_field_name(p[i].0.as_str());
        let v = clone_json(&p[i].1);
        set_member(&mut entries, name, v);
        i = i + 1;
    }
    assert(jentries(p@).take(p.len() as int) == jentries(p@));
    *data = JsonValue::Object(entries);
    Ok(())
}

/// The fields of the loaded data that the submit data lacks, added back: for each part
/// `p`, `_p` is copied when neither the submit data nor the form has it and the loaded
/// data has it.
pub open spec fn add_missing_spec(
    submit: Seq<(Seq<char>, Json)>,
    loaded: Seq<(Seq<char>, Json)>,
    parts: Seq<Seq<char>>,
    form_fields: Seq<Seq<char>>,
) -> Seq<(Seq<char>, Json)>
    decreases parts.len(),
{
    if parts.len() == 0 {
        submit
    } else {
        let init = add_missing_spec(submit, loaded, parts.drop_last(), form_fields);
        let f = part_field(parts.last());
        if obj_get(init, f) is None && !form_fields.contains(f) && obj_get(loaded, f) is Some {
            set_key(init, f, obj_get(loaded, f)->0)
        } else {
            init
        }
    }
}

/// The views of a list of string slices.
pub open spec fn str_list(v: Seq<&str>) -> Seq<Seq<char>> {
    v.map_values(|s: &str| s@)
}

fn str_list_contains(list: &[&str], name: &[char]) -> (r: bool)
    ensures
        r == str_list(list@).contains(name@),
{
    let mut i: usize = 0;
    while i < list.len()
        invariant
            i <= list.len(),
            forall|j: int| 0 <= j < i ==> list@[j]@ != name@,
        decreases list.len() - i,
    {
        let c = str_chars(list[i]);
        if crate::text::chars_eq(c.as_slice(), name) {
            assert(str_list(list@)[i as int] == name@);
            return true;
        }
        i = i + 1;
    }
    proof {
        if str_list(list@).contains(name@) {
            let j = choose|j: int| 0 <= j < str_list(list@).len() && str_list(list@)[j] == name@;
            assert(list@[j]@ == name@);
        }
    }
    false
}

/// Copies the part fields the submit data lacks from the loaded data (unless the form has
/// a field of that name). Does nothing unless both are objects.
pub fn property_string_add_missing_data(
    submit_data: &mut JsonValue,
    original_data: &JsonValue,
    parts: &[&str],
    form_fields: &[&str],
)
    ensures
        match (jview(*old(submit_data)), jview(*original_data)) {
            (Json::Object(s), Json::Object(o)) => jview(*final(submit_data)) == Json::Object(
                add_missing_spec(s, o, str_list(parts@), str_list(form_fields@)),
            ),
            _ => *final(submit_data) == *old(submit_data),
        },
{
    let o = match original_data {
        JsonValue::Object(o) => o,
        _ => return,
    };
    let mut entries: Vec<(String, JsonValue)> = match submit_data {
        JsonValue::Object(s) => crate::json::clone_entries(s),
        _ => return,
    };
    let ghost base = jentries(entries@);
    let mut i: usize = 0;
    while i < parts.len()
        invariant
            i <= parts.len(),
            jentries(entries@) == add_missing_spec(
                base,
                jentries(o@),
                str_list(parts@).take(i as int),
                str_list(form_fields@),
            ),
        decreases parts.len() - i,
    {
        proof {
            assert(str_list(parts@).take(i + 1).drop_last() == str_list(parts@).take(i as int));
            assert(str_list(parts@).take(i + 1).last() == parts@[i as int]@);
        }
        let name = part_field_name(parts[i]);
        let nc = str_chars(name.as_str());
        if entries_get(&entries, nc.as_slice()).is_none() && !str_list_contains(form_fields, nc.as_slice()) {
            match entries_get(o, nc.as_slice()) {
                Some(j) => {
                    let v = clone_json(&o[j].1);
                    set_member(&mut entries, name, v);
                },
                None => {},
            }
        }
        i = i + 1;
    }
    assert(str_list(parts@).take(parts.len() as int) == str_list(parts@));
    *submit_data = JsonValue::Object(entries);
}

/// The entries without the one stored under `key`.
pub open spec fn without_key(e: Seq<(Seq<char>, Json)>, key: Seq<char>) -> Seq<(Seq<char>, Json)> {
    e.filter(|x: (Seq<char>, Json)| x.0 != key)
}

/// Collecting the parts of a property string from their fields: the remaining data, the
/// collected parts, and whether any part field was present.
pub open spec fn take_parts_spec(
    data: Seq<(Seq<char>, Json)>,
    parts: Seq<Seq<char>>,
    skip_empty: bool,
) -> (Seq<(Seq<char>, Json)>, Seq<(Seq<char>, Json)>, bool)
    decreases parts.len(),
{
    if parts.len() == 0 {
        (data, Seq::empty(), false)
    } else {
        let (rest, value, found) = take_parts_spec(data, parts.drop_last(), skip_empty);
        let p = parts.last();
        match obj_get(rest, part_field(p)) {
            Some(v) => (
                without_key(rest, part_field(p)),
                if skip_empty && is_empty_json(v) {
                    value
                } else {
                    set_key(value, p, v)
                },
                true,
            ),
            None => (rest, value, found),
        }
    }
}

fn remove_member(e: &mut Vec<(String, JsonValue)>, key: &[char])
    ensures
        jentries(final(e)@) == without_key(jentries(old(e)@), key@),
{
    let mut kept: Vec<(String, JsonValue)> = Vec::new();
    let ghost all = jentries(e@);
    let mut i: usize = 0;
    proof {
        lemma_jentries(e@);
    }
    while i < e.len()
        invariant
            i <= e.len(),
            all == jentries(e@),
            all.len() == e.len(),
            forall|k: int| 0 <= k < e.len() ==> #[trigger] all[k] == (e@[k].0@, jview(e@[k].1)),
            jentries(kept@) == all.take(i as int).filter(|x: (Seq<char>, Json)| x.0 != key@),
        decreases e.len() - i,
    {
        proof {
            assert(all.take(i + 1) == all.take(i as int).push(all[i as int]));
            all.take(i as int).lemma_filter_push(all[i as int], |x: (Seq<char>, Json)| x.0 != key@);
        }
        let c = str_chars(e[i].0.as_str());
        if !crate::text::chars_eq(c.as_slice(), key) {
            let k = e[i].0.clone();
            let v = clone_json(&e[i].1);
            let ghost before = kept@;
            kept.push((k, v));
            assert(kept@.drop_last() == before);
        }
        i = i + 1;
    }
    assert(all.take(e.len() as int) == all);
    *e = kept;
}

/// Takes the part fields out of the data and collects the parts into an object (leaving
/// out empty values when asked to). When no part field was present the property is set to
/// the empty string and `None` is returned; otherwise the collected parts are returned for
/// the schema to print. The data must be an object.
pub fn take_property_parts(
    data: &mut JsonValue,
    name: &str,
    parts: &[&str],
    skip_empty_values: bool,
) -> (r: Result<Option<JsonValue>, PropertyError>)
    ensures
        match jview(*old(data)) {
            Json::Object(d) => {
                let (rest, value, found) = take_parts_spec(d, str_list(parts@), skip_empty_values);
                if found {
                    &&& r is Ok && r->Ok_0 is Some && jview(r->Ok_0->0) == Json::Object(value)
                    &&& jview(*final(data)) == Json::Object(rest)
                } else {
                    &&& r is Ok && r->Ok_0 is None
                    &&& jview(*final(data)) == Json::Object(
                        set_key(rest, name@, Json::Str(Seq::empty())),
                    )
                }
            },
            _ => r == Err::<Option<JsonValue>, PropertyError>(PropertyError::DataNotAnObject)
                && *final(data) == *old(data),
        },
{
    let mut entries: Vec<(String, JsonValue)> = match data {
        JsonValue::Object(d) => crate::json::clone_entries(d),
        _ => return Err(PropertyError::DataNotAnObject),
    };
    let ghost base = jentries(entries@);
    let mut value: Vec<(String, JsonValue)> = Vec::new();
    let mut found = false;
    let mut i: usize = 0;
    while i < parts.len()
        invariant
            i <= parts.len(),
            (jentries(entries@), jentries(value@), found) == take_parts_spec(
                base,
                str_list(parts@).take(i as int),
                skip_empty_values,
            ),
        decreases parts.len() - i,
    {
        proof {
            assert(str_list(parts@).take(i + 1).drop_last() == str_list(parts@).take(i as int));
            assert(str_list(parts@).take(i + 1).last() == parts@[i as int]@);
        }
        let field = part_field_name(parts[i]);
        let fc = str_chars(field.as_str());
        match entries_get(&entries, fc.as_slice()) {
            Some(j) => {
                let v = clone_json(&entries[j].1);
                remove_member(&mut entries, fc.as_slice());
                found = true;
                let empty = match &v {
                    JsonValue::Null => true,
                    JsonValue::Str(s) => str_chars(s.as_str()).len() == 0,
                    _ => false,
                };
                if !(skip_empty_values && empty) {
                    set_member(&mut value, parts[i].to_string(), v);
                }
            },
            None => {},
        }
        i = i + 1;
    }
    assert(str_list(parts@).take(parts.len() as int) == str_list(parts@));
    if !found {
        set_member(&mut entries, name.to_string(), JsonValue::Str(String::new()));
        *data = JsonValue::Object(entries);
        return Ok(None);
    }
    *data = JsonValue::Object(entries);
    Ok(Some(JsonValue::Object(value)))
}

/// Stores the printed property string under the property's name.
pub fn set_property_string(data: &mut JsonValue, name: &str, text: String)
    requires
        jview(*old(data)) is Object,
    ensures
        jview(*final(data)) == Json::Object(
            set_key(
                match jview(*old(data)) {
                    Json::Object(d) => d,
                    _ => Seq::empty(),
                },
                name@,
                Json::Str(text@),
            ),
        ),
{
    let mut entries: Vec<(String, JsonValue)> = match data {
        JsonValue::Object(d) => crate::json::clone_entries(d),
        _ => {
            proof {
                assert(false);
            }
            Vec::new()
        },
    };
    let t = text;
    set_member(&mut entries, name.to_string(), JsonValue::Str(t));
    *data = JsonValue::Object(entries);
}

// ---------------------------------------------------------------------------
// Showing parts as fields and collecting them again
// ---------------------------------------------------------------------------

/// The fields of a list of parts, in order: `_p` for each part `p`.
pub open spec fn part_fields(parts: Seq<(Seq<char>, Json)>) -> Seq<(Seq<char>, Json)> {
    parts.map_values(|x: (Seq<char>, Json)| (part_field(x.0), x.1))
}

proof fn lemma_part_field_injective(a: Seq<char>, b: Seq<char>)
    ensures
        part_field(a) == part_field(b) ==> a == b,
{
    reveal_strlit("_");
    if part_field(a) == part_field(b) {
        assert(part_field(a).skip(1) =~= a);
        assert(part_field(b).skip(1) =~= b);
    }
}

proof fn lemma_without_absent(s: Seq<(Seq<char>, Json)>, key: Seq<char>)
    requires
        forall|i: int| 0 <= i < s.len() ==> s[i].0 != key,
    ensures
        without_key(s, key) == s,
    decreases s.len(),
{
    reveal(Seq::filter);
    if s.len() > 0 {
        lemma_without_absent(s.drop_last(), key);
        assert(s.drop_last().push(s.last()) =~= s);
    }
}

proof fn lemma_without_concat(a: Seq<(Seq<char>, Json)>, b: Seq<(Seq<char>, Json)>, key: Seq<char>)
    ensures
        without_key(a + b, key) == without_key(a, key) + without_key(b, key),
{
    Seq::filter_distributes_over_add(a, b, |x: (Seq<char>, Json)| x.0 != key);
}

proof fn lemma_obj_get_after(a: Seq<(Seq<char>, Json)>, b: Seq<(Seq<char>, Json)>, key: Seq<char>)
    requires
        forall|i: int| 0 <= i < a.len() ==> a[i].0 != key,
    ensures
        obj_get(a + b, key) == obj_get(b, key),
    decreases a.len(),
{
    if a.len() > 0 {
        assert((a + b)[0] == a[0]);
        assert((a + b).drop_first() =~= a.drop_first() + b);
        lemma_obj_get_after(a.drop_first(), b, key);
    } else {
        assert(a + b =~= b);
    }
}

proof fn lemma_flatten_appends(data: Seq<(Seq<char>, Json)>, parts: Seq<(Seq<char>, Json)>)
    requires
        keys_of(parts).no_duplicates(),
        forall|i: int, j: int|
            0 <= i < data.len() && 0 <= j < parts.len() ==> data[i].0 != part_field(parts[j].0),
    ensures
        flatten_spec(data, parts) == data + part_fields(parts),
    decreases parts.len(),
{
    if parts.len() == 0 {
        assert(data + part_fields(parts) =~= data);
    } else {
        let init = parts.drop_last();
        assert forall|i: int, j: int| 0 <= i < init.len() && 0 <= j < init.len() && i != j implies
            keys_of(init)[i] != keys_of(init)[j] by {
            assert(keys_of(init)[i] == keys_of(parts)[i]);
            assert(keys_of(init)[j] == keys_of(parts)[j]);
        }
        lemma_flatten_appends(data, init);
        let n = parts.len() - 1;
        let last = parts[n];
        let before = data + part_fields(init);
        assert forall|k: int| 0 <= k < before.len() implies before[k].0 != part_field(last.0) by {
            if k < data.len() {
                assert(before[k] == data[k]);
            } else {
                let j = k - data.len();
                assert(before[k] == part_fields(init)[j]);
                assert(keys_of(parts)[j] != keys_of(parts)[n]);
                lemma_part_field_injective(parts[j].0, last.0);
            }
        }
        lemma_set_key_absent(before, part_field(last.0), last.1);
        assert(before.push((part_field(last.0), last.1)) =~= data + part_fields(parts));
    }
}

proof fn lemma_take_prefix(data: Seq<(Seq<char>, Json)>, parts: Seq<(Seq<char>, Json)>, k: int)
    requires
        0 <= k <= parts.len(),
        keys_of(parts).no_duplicates(),
        forall|i: int, j: int|
            0 <= i < data.len() && 0 <= j < parts.len() ==> data[i].0 != part_field(parts[j].0),
    ensures
        take_parts_spec(data + part_fields(parts), keys_of(parts).take(k), false) == (
            data + part_fields(parts).skip(k),
            parts.take(k),
            k > 0,
        ),
    decreases k,
{
    let all = data + part_fields(parts);
    let f = part_fields(parts);
    if k == 0 {
        assert(keys_of(parts).take(0) =~= Seq::<Seq<char>>::empty());
        assert(f.skip(0) =~= f);
        assert(parts.take(0) =~= Seq::<(Seq<char>, Json)>::empty());
    } else {
        let m = k - 1;
        lemma_take_prefix(data, parts, m);
        assert(keys_of(parts).take(k).drop_last() =~= keys_of(parts).take(m));
        assert(keys_of(parts).take(k).last() == parts[m].0);
        let key = part_field(parts[m].0);
        let rest = data + f.skip(m);
        // the field of part m comes first after the data
        assert(f.skip(m) =~= seq![f[m]] + f.skip(k));
        assert(f[m] == (key, parts[m].1));
        lemma_obj_get_after(data, f.skip(m), key);
        assert(obj_get(f.skip(m), key) == Some(parts[m].1));
        // taking it out leaves the data and the later fields
        assert forall|i: int| 0 <= i < f.skip(k).len() implies f.skip(k)[i].0 != key by {
            assert(f.skip(k)[i] == f[k + i]);
            assert(keys_of(parts)[k + i] != keys_of(parts)[m]);
            lemma_part_field_injective(parts[k + i].0, parts[m].0);
        }
        lemma_without_absent(data, key);
        lemma_without_absent(f.skip(k), key);
        lemma_without_concat(data, f.skip(m), key);
        lemma_without_concat(seq![f[m]], f.skip(k), key);
        assert(without_key(seq![f[m]], key) =~= Seq::empty()) by {
            reveal_with_fuel(Seq::filter, 2);
            assert(seq![f[m]].drop_last() =~= Seq::<(Seq<char>, Json)>::empty());
        }
        assert(without_key(rest, key) =~= data + f.skip(k));
        // the part is new among the parts collected so far
        assert forall|i: int| 0 <= i < parts.take(m).len() implies parts.take(m)[i].0 != parts[m].0 by {
            assert(keys_of(parts)[i] != keys_of(parts)[m]);
        }
        lemma_set_key_absent(parts.take(m), parts[m].0, parts[m].1);
        assert(parts.take(m).push((parts[m].0, parts[m].1)) =~= parts.take(k));
    }
}

/// Showing the parts of a property string as fields and collecting them again (keeping
/// empty values) gives back the same parts, in the same order, and the data as it was:
/// for parts with distinct names and data that holds none of their fields.
pub proof fn lemma_flatten_take_roundtrip(data: Seq<(Seq<char>, Json)>, parts: Seq<(Seq<char>, Json)>)
    requires
        keys_of(parts).no_duplicates(),
        forall|i: int, j: int|
            0 <= i < data.len() && 0 <= j < parts.len() ==> data[i].0 != part_field(parts[j].0),
    ensures
        take_parts_spec(flatten_spec(data, parts), keys_of(parts), false) == (
            data,
            parts,
            parts.len() > 0,
        ),
{
    lemma_flatten_appends(data, parts);
    lemma_take_prefix(data, parts, parts.len() as int);
    assert(keys_of(parts).take(parts.len() as int) =~= keys_of(parts));
    assert(part_fields(parts).skip(parts.len() as int) =~= Seq::<(Seq<char>, Json)>::empty());
    assert(data + Seq::<(Seq<char>, Json)>::empty() =~= data);
    assert(parts.take(parts.len() as int) =~= parts);
}

} // verus!
