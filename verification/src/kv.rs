//! Key/value views: the rows a key/value grid shows for a record, and the editable list of
//! key/value pairs.
use vstd::prelude::*;
use indexmap::IndexMap;
use crate::json::{clone_json, get_member, jview, jviews, lemma_jviews, member, Json, JsonValue};
use crate::text::{chars_eq, str_chars};

verus! {

// ---------------------------------------------------------------------------
// Grid rows, by name (an `indexmap::IndexMap`)
// ---------------------------------------------------------------------------

#[verifier::external_type_specification]
#[verifier::external_body]
#[verifier::reject_recursive_types(K)]
#[verifier::reject_recursive_types(V)]
#[verifier::reject_recursive_types(S)]
pub struct ExIndexMap<K, V, S>(IndexMap<K, V, S>);

/// The entries of a row index, in the map's order.
pub uninterp spec fn row_index_entries(m: IndexMap<String, usize>) -> Seq<(Seq<char>, usize)>;

/// `map.insert(key, value)`: a key already present keeps its place and gets the new value;
/// a new key goes last.
pub open spec fn insert_entry(e: Seq<(Seq<char>, usize)>, key: Seq<char>, value: usize) -> Seq<
    (Seq<char>, usize),
> {
    if exists|i: int| 0 <= i < e.len() && e[i].0 == key {
        let i = choose|i: int| 0 <= i < e.len() && e[i].0 == key;
        e.update(i, (key, value))
    } else {
        e.push((key, value))
    }
}

/// `IndexMap::new`: an empty map.
#[verifier::external_body]
fn index_map_new() -> (m: IndexMap<String, usize>)
    ensures
        row_index_entries(m).len() == 0,
{
    IndexMap::new()
}

/// `IndexMap::insert`: a key already present keeps its place and gets the new value; a new
/// key is appended. The map's keys stay distinct.
#[verifier::external_body]
fn index_map_insert(m: &mut IndexMap<String, usize>, key: String, value: usize)
    requires
        row_index_entries(*old(m)).map_values(|e: (Seq<char>, usize)| e.0).no_duplicates(),
    ensures
        row_index_entries(*final(m)) == insert_entry(row_index_entries(*old(m)), key@, value),
        row_index_entries(*final(m)).map_values(|e: (Seq<char>, usize)| e.0).no_duplicates(),
{
    m.insert(key, value);
}

/// `IndexMap::values`: the values, in the map's order.
#[verifier::external_body]
fn index_map_values(m: &IndexMap<String, usize>) -> (values: Vec<usize>)
    ensures
        values@ == row_index_entries(*m).map_values(|e: (Seq<char>, usize)| e.1),
{
    m.values().copied().collect()
}

/// A row a key/value grid can show.
pub struct KvGridRow {
    /// The record key of the row.
    pub name: String,
    /// The row's title.
    pub header: String,
    /// Whether the row shows even without a value.
    pub required: bool,
    /// Text shown when the record has no value.
    pub placeholder: Option<String>,
}

/// The row index of a list of rows: each name to the position of its row; a repeated name
/// keeps its first place and maps to its last row.
pub open spec fn row_index_spec(names: Seq<Seq<char>>) -> Seq<(Seq<char>, usize)>
    decreases names.len(),
{
    if names.len() == 0 {
        Seq::empty()
    } else {
        insert_entry(
            row_index_spec(names.drop_last()),
            names.last(),
            (names.len() - 1) as usize,
        )
    }
}

/// The names of a list of rows.
pub open spec fn row_names(rows: Seq<KvGridRow>) -> Seq<Seq<char>> {
    rows.map_values(|r: KvGridRow| r.name@)
}

/// Builds the row index of a list of rows.
pub fn convert_rows(rows: &[KvGridRow]) -> (m: IndexMap<String, usize>)
    ensures
        row_index_entries(m) == row_index_spec(row_names(rows@)),
        row_index_entries(m).map_values(|e: (Seq<char>, usize)| e.0).no_duplicates(),
{
    let mut m = index_map_new();
    let mut i: usize = 0;
    while i < rows.len()
        invariant
            i <= rows.len(),
            row_index_entries(m) == row_index_spec(row_names(rows@).take(i as int)),
            row_index_entries(m).map_values(|e: (Seq<char>, usize)| e.0).no_duplicates(),
        decreases rows.len() - i,
    {
        proof {
            assert(row_names(rows@).take(i + 1).drop_last() == row_names(rows@).take(i as int));
            assert(row_names(rows@).take(i + 1).last() == rows@[i as int].name@);
        }
        index_map_insert(&mut m, rows[i].name.clone(), i);
        i = i + 1;
    }
    assert(row_names(rows@).take(rows.len() as int) == row_names(rows@));
    m
}

/// The value a row shows: the record's value, else its placeholder text, else `null`;
/// `None` when the row is hidden (no value, no placeholder, not required).
pub open spec fn row_value(row: KvGridRow, data: Json) -> Option<Json> {
    match member(data, row.name@) {
        Some(v) => Some(v),
        None => match row.placeholder {
            Some(p) => Some(Json::Str(p@)),
            None => if row.required {
                Some(Json::Null)
            } else {
                None
            },
        },
    }
}

/// A row shows the record's own value whenever the record has a member of the row's name,
/// whatever its placeholder; only without that member does the placeholder (or, for a
/// required row, `null`) show, and a row with neither is hidden. Shown after the rows before
/// it, the row adds exactly its position and that value.
pub proof fn lemma_row_shows_record_value(order: Seq<usize>, rows: Seq<KvGridRow>, i: usize, data: Json)
    requires
        i < rows.len(),
    ensures
        member(data, rows[i as int].name@) matches Some(v) ==> {
            &&& row_value(rows[i as int], data) == Some(v)
            &&& visible_rows_spec(order.push(i), rows, data) == visible_rows_spec(order, rows, data).push((i, v))
        },
        (member(data, rows[i as int].name@) is None && rows[i as int].placeholder is Some)
            ==> row_value(rows[i as int], data) == Some(Json::Str(rows[i as int].placeholder->0@)),
        (member(data, rows[i as int].name@) is None && rows[i as int].placeholder is None)
            ==> row_value(rows[i as int], data) == if rows[i as int].required {
            Some(Json::Null)
        } else {
            None::<Json>
        },
{
    assert(order.push(i).drop_last() =~= order);
}

/// The rows shown for a record, in the index's order: each with the position of its row
/// and the value it shows.
pub open spec fn visible_rows_spec(order: Seq<usize>, rows: Seq<KvGridRow>, data: Json) -> Seq<
    (usize, Json),
>
    decreases order.len(),
{
    if order.len() == 0 {
        Seq::empty()
    } else {
        let init = visible_rows_spec(order.drop_last(), rows, data);
        let i = order.last();
        match row_value(rows[i as int], data) {
            Some(v) => init.push((i, v)),
            None => init,
        }
    }
}

/// Every position in the row index of a list of rows is the position of one of the rows.
pub proof fn lemma_row_index_positions(names: Seq<Seq<char>>)
    ensures
        forall|k: int|
            0 <= k < row_index_spec(names).len() ==> (#[trigger] row_index_spec(names)[k]).1
                < names.len(),
    decreases names.len(),
{
    if names.len() > 0 {
        lemma_row_index_positions(names.drop_last());
        let init = row_index_spec(names.drop_last());
        let key = names.last();
        let n = (names.len() - 1) as usize;
        assert(n < names.len());
        assert(row_index_spec(names) == insert_entry(init, key, n));
        assert forall|k: int| 0 <= k < row_index_spec(names).len() implies (
        #[trigger] row_index_spec(names)[k]).1 < names.len() by {
            if k < init.len() {
                assert(init[k].1 < names.drop_last().len());
            }
        }
    }
}

/// The models of shown rows.
pub open spec fn shown(v: Seq<(usize, JsonValue)>) -> Seq<(usize, Json)> {
    v.map_values(|x: (usize, JsonValue)| (x.0, jview(x.1)))
}

/// The rows a key/value grid shows for a record.
pub fn visible_rows(index: &IndexMap<String, usize>, rows: &[KvGridRow], data: &JsonValue) -> (r:
    Vec<(usize, JsonValue)>)
    requires
        forall|k: int|
            0 <= k < row_index_entries(*index).len() ==> (#[trigger] row_index_entries(
                *index,
            )[k]).1 < rows@.len(),
    ensures
        shown(r@) == visible_rows_spec(
            row_index_entries(*index).map_values(|e: (Seq<char>, usize)| e.1),
            rows@,
            jview(*data),
        ),
{
    let order = index_map_values(index);
    let mut out: Vec<(usize, JsonValue)> = Vec::new();
    let mut k: usize = 0;
    while k < order.len()
        invariant
            k <= order.len(),
            order@ == row_index_entries(*index).map_values(|e: (Seq<char>, usize)| e.1),
            forall|j: int| 0 <= j < order@.len() ==> #[trigger] order@[j] < rows@.len(),
            shown(out@) == visible_rows_spec(order@.take(k as int), rows@, jview(*data)),
        decreases order.len() - k,
    {
        proof {
            assert(row_index_entries(*index)[k as int].1 == order@[k as int]);
            assert(order@.take(k + 1).drop_last() == order@.take(k as int));
            assert(order@.take(k + 1).last() == order@[k as int]);
        }
        let i = order[k];
        let row = &rows[i];
        let name = str_chars(row.name.as_str());
        let ghost before = out@;
        match get_member(data, name.as_slice()) {
            Some(pos) => {
                let v = match data {
                    JsonValue::Object(e) => clone_json(&e[pos].1),
                    _ => {
                        proof {
                            assert(false);
                        }
                        JsonValue::Null
                    },
                };
                out.push((i, v));
            },
            None => match &row.placeholder {
                Some(p) => {
                    out.push((i, JsonValue::Str(p.clone())));
                },
                None => if row.required {
                    out.push((i, JsonValue::Null));
                },
            },
        }
        assert(shown(out@) =~= match row_value(rows@[i as int], jview(*data)) {
            Some(v) => shown(before).push((i, v)),
            None => shown(before),
        });
        k = k + 1;
    }
    assert(order@.take(order.len() as int) == order@);
    out
}

/// The rows a key/value grid shows for a record: the rows are indexed by name, and the
/// index's rows shown in its order.
pub fn grid_rows(rows: &[KvGridRow], data: &JsonValue) -> (r: Vec<(usize, JsonValue)>)
    ensures
        shown(r@) == visible_rows_spec(
            row_index_spec(row_names(rows@)).map_values(|e: (Seq<char>, usize)| e.1),
            rows@,
            jview(*data),
        ),
{
    let index = convert_rows(rows);
    proof {
        lemma_row_index_positions(row_names(rows@));
    }
    visible_rows(&index, rows, data)
}

// ---------------------------------------------------------------------------
// The editable list of key/value pairs
// ---------------------------------------------------------------------------

/// One pair of the list, with a number that identifies its row while it is edited.
pub struct KvEntry {
    pub index: u32,
    pub key: String,
    pub value: JsonValue,
}

/// The model of a pair: its row number, key and value.
pub open spec fn entry_model(e: KvEntry) -> (u32, Seq<char>, Json) {
    (e.index, e.key@, jview(e.value))
}

/// The models of a list of pairs.
pub open spec fn entry_models(v: Seq<KvEntry>) -> Seq<(u32, Seq<char>, Json)> {
    v.map_values(|e: KvEntry| entry_model(e))
}

/// The editing state of a key/value list.
pub struct KeyValueListState {
    /// The pairs, in display order.
    pub entries: Vec<KvEntry>,
    /// The row number the next added pair gets.
    pub index_counter: u32,
}

/// Why a key/value list is not valid.
#[derive(Clone, Copy, PartialEq, Eq, Structural, Debug)]
pub enum KvListError {
    /// The list is required and empty.
    Required,
    /// A pair has an empty name.
    EmptyName,
    /// The value is no list of `[name, value]` pairs.
    NotAList,
}

/// The pairs of a list, numbered from 0.
pub open spec fn numbered(data: Seq<(Seq<char>, Json)>) -> Seq<(u32, Seq<char>, Json)> {
    Seq::new(data.len(), |i: int| (i as u32, data[i].0, data[i].1))
}

/// The models of a list of pairs.
pub open spec fn pair_models(v: Seq<(String, JsonValue)>) -> Seq<(Seq<char>, Json)> {
    v.map_values(|p: (String, JsonValue)| (p.0@, jview(p.1)))
}

impl KeyValueListState {
    /// Replaces the pairs, numbering them from 0.
    pub fn set_data(&mut self, data: &[(String, JsonValue)])
        requires
            data@.len() <= u32::MAX,
        ensures
            entry_models(final(self).entries@) == numbered(pair_models(data@)),
            final(self).index_counter == old(self).index_counter,
    {
        let mut entries: Vec<KvEntry> = Vec::new();
        let mut i: usize = 0;
        while i < data.len()
            invariant
                i <= data.len() <= u32::MAX,
                entries@.len() == i,
                forall|k: int|
                    0 <= k < i ==> #[trigger] entry_model(entries@[k]) == (
                        k as u32,
                        data@[k].0@,
                        jview(data@[k].1),
                    ),
            decreases data.len() - i,
        {
            let key = data[i].0.clone();
            let value = clone_json(&data[i].1);
            entries.push(KvEntry { index: i as u32, key, value });
            i = i + 1;
        }
        self.entries = entries;
        assert(entry_models(self.entries@) =~= numbered(pair_models(data@)));
    }

    /// The state for an initial list: its pairs numbered from 0, and the counter after them.
    pub fn new(value: &[(String, JsonValue)]) -> (s: Self)
        requires
            value@.len() <= u32::MAX,
        ensures
            entry_models(s.entries@) == numbered(pair_models(value@)),
            s.index_counter == value@.len(),
    {
        let mut s = KeyValueListState { entries: Vec::new(), index_counter: value.len() as u32 };
        s.set_data(value);
        s
    }

    /// Takes a row number for the next added pair (the counter wraps around).
    pub fn next_index(&mut self) -> (index: u32)
        ensures
            index == old(self).index_counter,
            final(self).index_counter == if old(self).index_counter == u32::MAX {
                0
            } else {
                old(self).index_counter + 1
            },
            final(self).entries == old(self).entries,
    {
        let index = self.index_counter;
        self.index_counter = if index == u32::MAX {
            0
        } else {
            index + 1
        };
        index
    }

    /// Adds an empty pair with the given row number at the end.
    pub fn add_entry(&mut self, index: u32)
        ensures
            entry_models(final(self).entries@) == entry_models(old(self).entries@).push(
                (index, Seq::<char>::empty(), Json::Str(Seq::empty())),
            ),
            final(self).index_counter == old(self).index_counter,
    {
        let ghost before = self.entries@;
        self.entries.push(KvEntry { index, key: String::new(), value: JsonValue::Str(String::new()) });
        assert(entry_models(self.entries@) =~= entry_models(before).push(
            (index, Seq::<char>::empty(), Json::Str(Seq::empty())),
        ));
    }

    /// Removes the pairs with the given row number.
    pub fn remove_entry(&mut self, index: u32)
        ensures
            entry_models(final(self).entries@) == entry_models(old(self).entries@).filter(
                |e: (u32, Seq<char>, Json)| e.0 != index,
            ),
            final(self).index_counter == old(self).index_counter,
    {
        let mut kept: Vec<KvEntry> = Vec::new();
        let ghost all = entry_models(self.entries@);
        let mut i: usize = 0;
        while i < self.entries.len()
            invariant
                i <= self.entries.len(),
                all == entry_models(self.entries@),
                entry_models(kept@) == all.take(i as int).filter(
                    |e: (u32, Seq<char>, Json)| e.0 != index,
                ),
            decreases self.entries.len() - i,
        {
            proof {
                assert(all.take(i + 1) == all.take(i as int).push(all[i as int]));
                all.take(i as int).lemma_filter_push(all[i as int], |e: (u32, Seq<char>, Json)| e.0 != index);
            }
            if self.entries[i].index != index {
                let ghost before = kept@;
                let key = self.entries[i].key.clone();
                let value = clone_json(&self.entries[i].value);
                kept.push(KvEntry { index: self.entries[i].index, key, value });
                assert(entry_models(kept@) =~= entry_models(before).push(all[i as int]));
            }
            i = i + 1;
        }
        assert(all.take(self.entries.len() as int) == all);
        self.entries = kept;
    }

    /// Changes the name of the first pair with the given row number.
    pub fn update_key(&mut self, index: u32, key: String)
        ensures
            final(self).index_counter == old(self).index_counter,
            entry_models(final(self).entries@) == match first_with_index(entry_models(old(self).entries@), index) {
                Some(i) => entry_models(old(self).entries@).update(
                    i,
                    (index, key@, entry_models(old(self).entries@)[i].2),
                ),
                None => entry_models(old(self).entries@),
            },
    {
        match self.find(index) {
            Some(i) => {
                let ghost before = entry_models(self.entries@);
                let value = clone_json(&self.entries[i].value);
                self.entries.set(i, KvEntry { index, key, value });
                assert(entry_models(self.entries@) =~= before.update(
                    i as int,
                    (index, key@, before[i as int].2),
                ));
            },
            None => {},
        }
    }

    /// Changes the value of the first pair with the given row number.
    pub fn update_value(&mut self, index: u32, value: JsonValue)
        ensures
            final(self).index_counter == old(self).index_counter,
            entry_models(final(self).entries@) == match first_with_index(entry_models(old(self).entries@), index) {
                Some(i) => entry_models(old(self).entries@).update(
                    i,
                    (index, entry_models(old(self).entries@)[i].1, jview(value)),
                ),
                None => entry_models(old(self).entries@),
            },
    {
        match self.find(index) {
            Some(i) => {
                let ghost before = entry_models(self.entries@);
                let key = self.entries[i].key.clone();
                self.entries.set(i, KvEntry { index, key, value });
                assert(entry_models(self.entries@) =~= before.update(
                    i as int,
                    (index, before[i as int].1, jview(value)),
                ));
            },
            None => {},
        }
    }

    fn find(&self, index: u32) -> (r: Option<usize>)
        ensures
            match r {
                Some(i) => first_with_index(entry_models(self.entries@), index) == Some(i as int)
                    && i < self.entries@.len(),
                None => first_with_index(entry_models(self.entries@), index) is None,
            },
    {
        let mut i: usize = 0;
        while i < self.entries.len()
            invariant
                i <= self.entries.len(),
                forall|k: int| 0 <= k < i ==> self.entries@[k].index != index,
            decreases self.entries.len() - i,
        {
            if self.entries[i].index == index {
                proof {
                    let m = entry_models(self.entries@);
                    assert(m[i as int].0 == index);
                    assert forall|j: int| 0 <= j < i implies m[j].0 != index by {
                        assert(m[j].0 == self.entries@[j].index);
                    }
                    let k = choose|k: int|
                        0 <= k < m.len() && m[k].0 == index && forall|j: int|
                            0 <= j < k ==> m[j].0 != index;
                    assert(k == i as int) by {
                        if k < i {
                            assert(m[k].0 == self.entries@[k].index);
                        } else if k > i {
                            assert(m[i as int].0 == index);
                        }
                    }
                }
                return Some(i);
            }
            i = i + 1;
        }
        proof {
            let m = entry_models(self.entries@);
            if exists|k: int| 0 <= k < m.len() && m[k].0 == index {
                let k = choose|k: int| 0 <= k < m.len() && m[k].0 == index;
                assert(self.entries@[k].index == index);
            }
        }
        None
    }

    /// The pairs of the list, in order (what the field submits).
    pub fn current_list(&self) -> (r: Vec<(String, JsonValue)>)
        ensures
            pair_models(r@) == entry_models(self.entries@).map_values(
                |e: (u32, Seq<char>, Json)| (e.1, e.2),
            ),
    {
        let mut out: Vec<(String, JsonValue)> = Vec::new();
        let mut i: usize = 0;
        while i < self.entries.len()
            invariant
                i <= self.entries.len(),
                out@.len() == i,
                forall|k: int|
                    0 <= k < i ==> (#[trigger] out@[k]).0@ == self.entries@[k].key@ && jview(
                        out@[k].1,
                    ) == jview(self.entries@[k].value),
            decreases self.entries.len() - i,
        {
            let key = self.entries[i].key.clone();
            let value = clone_json(&self.entries[i].value);
            out.push((key, value));
            i = i + 1;
        }
        assert(pair_models(out@) =~= entry_models(self.entries@).map_values(
            |e: (u32, Seq<char>, Json)| (e.1, e.2),
        ));
        out
    }
}

/// The position of the first pair with row number `index`.
pub open spec fn first_with_index(m: Seq<(u32, Seq<char>, Json)>, index: u32) -> Option<int> {
    if exists|k: int| 0 <= k < m.len() && m[k].0 == index {
        Some(
            choose|k: int|
                0 <= k < m.len() && m[k].0 == index && forall|j: int| 0 <= j < k ==> m[j].0 != index,
        )
    } else {
        None
    }
}

/// Checks a submitted list: a required list must not be empty, and no name may be empty.
pub fn validate_key_value_list(required: bool, data: &[(String, JsonValue)]) -> (r: Result<
    (),
    KvListError,
>)
    ensures
        r == if data@.len() == 0 && required {
            Err(KvListError::Required)
        } else if exists|i: int| 0 <= i < data@.len() && data@[i].0@.len() == 0 {
            Err(KvListError::EmptyName)
        } else {
            Ok::<(), KvListError>(())
        },
{
    if data.len() == 0 && required {
        return Err(KvListError::Required);
    }
    let mut i: usize = 0;
    while i < data.len()
        invariant
            i <= data.len(),
            forall|k: int| 0 <= k < i ==> data@[k].0@.len() != 0,
        decreases data.len() - i,
    {
        let k = str_chars(data[i].0.as_str());
        if k.len() == 0 {
            return Err(KvListError::EmptyName);
        }
        i = i + 1;
    }
    Ok(())
}

/// A name entered for a pair must not be empty.
pub fn validate_key(key: &str) -> (r: bool)
    ensures
        r == (key@.len() > 0),
{
    str_chars(key).len() > 0
}

proof fn lemma_filter_keeps_rows(entries: Seq<(u32, Seq<char>, Json)>, index: u32)
    requires
        forall|i: int| 0 <= i < entries.len() ==> entries[i].0 != index,
    ensures
        entries.filter(|e: (u32, Seq<char>, Json)| e.0 != index) == entries,
    decreases entries.len(),
{
    reveal(Seq::filter);
    if entries.len() > 0 {
        lemma_filter_keeps_rows(entries.drop_last(), index);
        assert(entries.drop_last().push(entries.last()) =~= entries);
    }
}

/// Adding an empty pair under a row number that no pair has and removing the pairs with
/// that number gives back the list as it was.
pub proof fn lemma_add_then_remove(entries: Seq<(u32, Seq<char>, Json)>, index: u32)
    requires
        forall|i: int| 0 <= i < entries.len() ==> entries[i].0 != index,
    ensures
        entries.push((index, Seq::<char>::empty(), Json::Str(Seq::empty()))).filter(
            |e: (u32, Seq<char>, Json)| e.0 != index,
        ) == entries,
{
    let added = (index, Seq::<char>::empty(), Json::Str(Seq::empty()));
    entries.lemma_filter_push(added, |e: (u32, Seq<char>, Json)| e.0 != index);
    lemma_filter_keeps_rows(entries, index);
}

/// A `[name, value]` pair: an array of exactly a string and a value.
pub open spec fn pair_of(v: Json) -> Option<(Seq<char>, Json)> {
    match v {
        Json::Array(a) => if a.len() == 2 {
            match a[0] {
                Json::Str(k) => Some((k, a[1])),
                _ => None,
            }
        } else {
            None
        },
        _ => None,
    }
}

/// The pairs of a list of items, when every item is a `[name, value]` pair.
pub open spec fn pairs_of(items: Seq<Json>) -> Option<Seq<(Seq<char>, Json)>>
    decreases items.len(),
{
    if items.len() == 0 {
        Some(Seq::empty())
    } else {
        match (pairs_of(items.drop_last()), pair_of(items.last())) {
            (Some(p), Some(x)) => Some(p.push(x)),
            _ => None,
        }
    }
}

/// The pairs of a value that is a list of `[name, value]` pairs.
pub open spec fn list_pairs(v: Json) -> Option<Seq<(Seq<char>, Json)>> {
    match v {
        Json::Array(a) => pairs_of(a),
        _ => None,
    }
}

proof fn lemma_pairs_prefix(items: Seq<Json>, k: int)
    requires
        0 <= k <= items.len(),
        pairs_of(items.take(k)) is None,
    ensures
        pairs_of(items) is None,
    decreases items.len(),
{
    if items.len() == k {
        assert(items.take(k) =~= items);
    } else {
        assert(items.drop_last().take(k) =~= items.take(k));
        lemma_pairs_prefix(items.drop_last(), k);
    }
}

/// Reads a value as a list of `[name, value]` pairs.
pub fn key_value_pairs(value: &JsonValue) -> (r: Option<Vec<(String, JsonValue)>>)
    ensures
        match list_pairs(jview(*value)) {
            Some(p) => r matches Some(v) && pair_models(v@) == p,
            None => r is None,
        },
{
    let list = match value {
        JsonValue::Array(list) => list,
        _ => {
            return None;
        },
    };
    proof {
        lemma_jviews(list@);
    }
    let ghost items = jviews(list@);
    let mut out: Vec<(String, JsonValue)> = Vec::new();
    let mut i: usize = 0;
    while i < list.len()
        invariant
            i <= list.len(),
            items == jviews(list@),
            jview(*value) == Json::Array(items),
            items.len() == list.len(),
            forall|k: int| 0 <= k < list.len() ==> #[trigger] items[k] == jview(list@[k]),
            pairs_of(items.take(i as int)) == Some(pair_models(out@)),
        decreases list.len() - i,
    {
        assert(items.take(i + 1).drop_last() =~= items.take(i as int));
        assert(items.take(i + 1).last() == jview(list@[i as int]));
        let pair = match &list[i] {
            JsonValue::Array(inner) => {
                proof {
                    lemma_jviews(inner@);
                }
                if inner.len() == 2 {
                    match &inner[0] {
                        JsonValue::Str(k) => Some((k.clone(), clone_json(&inner[1]))),
                        _ => None,
                    }
                } else {
                    None
                }
            },
            _ => None,
        };
        match pair {
            Some(p) => {
                let ghost before = out@;
                out.push(p);
                assert(pair_models(out@) =~= pair_models(before).push((out@.last().0@, jview(out@.last().1))));
            },
            None => {
                assert(pair_of(jview(list@[i as int])) is None);
                proof {
                    assert(pairs_of(items.take(i + 1)) is None);
                    lemma_pairs_prefix(items, i + 1);
                    assert(list_pairs(jview(*value)) == pairs_of(items));
                }
                return None;
            },
        }
        i = i + 1;
    }
    assert(items.take(list.len() as int) =~= items);
    Some(out)
}

/// The verdict on a submitted key/value list, as a value: it must be a list of
/// `[name, value]` pairs, a required list must not be empty, and no name may be empty.
pub open spec fn key_value_verdict(required: bool, v: Json) -> Result<(), KvListError> {
    match list_pairs(v) {
        None => Err(KvListError::NotAList),
        Some(p) => if p.len() == 0 && required {
            Err(KvListError::Required)
        } else if exists|i: int| 0 <= i < p.len() && p[i].0.len() == 0 {
            Err(KvListError::EmptyName)
        } else {
            Ok(())
        },
    }
}

/// Validates the value of a key/value list field and hands it back when it is valid (the
/// field's own check, if it has one, is applied to the pairs by the caller).
pub fn validate_key_value_value(required: bool, value: &JsonValue) -> (r: Result<JsonValue, KvListError>)
    ensures
        match key_value_verdict(required, jview(*value)) {
            Ok(()) => r matches Ok(v) && jview(v) == jview(*value),
            Err(e) => r == Err::<JsonValue, KvListError>(e),
        },
{
    match key_value_pairs(value) {
        None => Err(KvListError::NotAList),
        Some(pairs) => {
            match validate_key_value_list(required, pairs.as_slice()) {
                Ok(()) => {
                    proof {
                        let p = pair_models(pairs@);
                        if exists|i: int| 0 <= i < p.len() && p[i].0.len() == 0 {
                            let i = choose|i: int| 0 <= i < p.len() && p[i].0.len() == 0;
                            assert(pairs@[i].0@.len() == 0);
                        }
                    }
                    Ok(clone_json(value))
                },
                Err(e) => {
                    proof {
                        let p = pair_models(pairs@);
                        if e == KvListError::EmptyName {
                            let i = choose|i: int| 0 <= i < pairs@.len() && pairs@[i].0@.len() == 0;
                            assert(p[i].0.len() == 0);
                        }
                    }
                    Err(e)
                },
            }
        },
    }
}

} // verus!
