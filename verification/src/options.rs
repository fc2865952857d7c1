//! Option lists of container settings: the mount options of a mount point and the file
//! system types a container may mount.
//!
//! Both are sets of names kept as lists without repetition, in the order the names were
//! first added.
use vstd::prelude::*;
use crate::text::{
    chars_eq, lemma_split_nonempty, push_chars, push_str, split, split_spec, str_chars, string_from_chars,
    views,
};
use crate::json::{jview, jviews, lemma_jviews, Json, JsonValue};

verus! {

/// The views of a list of strings.
pub open spec fn names(v: Seq<String>) -> Seq<Seq<char>> {
    v.map_values(|s: String| s@)
}

/// A set of names: a list without repetition.
pub struct NameSet {
    items: Vec<String>,
}

impl NameSet {
    /// The names, in the order they were first added.
    pub closed spec fn list(&self) -> Seq<Seq<char>> {
        names(self.items@)
    }

    /// The set of names.
    pub open spec fn set(&self) -> Set<Seq<char>> {
        self.list().to_set()
    }

    /// No name is in the list twice.
    pub closed spec fn wf(&self) -> bool {
        self.list().no_duplicates()
    }

    /// The empty set.
    pub fn new() -> (s: Self)
        ensures
            s.wf(),
            s.list() == Seq::<Seq<char>>::empty(),
    {
        NameSet { items: Vec::new() }
    }

    /// Whether `name` is in the set.
    pub fn contains(&self, name: &str) -> (r: bool)
        ensures
            r == self.list().contains(name@),
    {
        let n = str_chars(name);
        let mut i: usize = 0;
        while i < self.items.len()
            invariant
                i <= self.items.len(),
                n@ == name@,
                forall|k: int| 0 <= k < i ==> self.items@[k]@ != name@,
            decreases self.items.len() - i,
        {
            let c = str_chars(self.items[i].as_str());
            if chars_eq(c.as_slice(), n.as_slice()) {
                assert(self.list()[i as int] == name@);
                return true;
            }
            i = i + 1;
        }
        proof {
            if self.list().contains(name@) {
                let k = choose|k: int| 0 <= k < self.list().len() && self.list()[k] == name@;
                assert(self.items@[k]@ == name@);
            }
        }
        false
    }

    /// Adds `name` unless it is there already.
    pub fn insert(&mut self, name: &str)
        requires
            old(self).wf(),
        ensures
            final(self).wf(),
            final(self).list() == if old(self).list().contains(name@) {
                old(self).list()
            } else {
                old(self).list().push(name@)
            },
            final(self).set() == old(self).set().insert(name@),
    {
        proof {
            if old(self).list().contains(name@) {
                assert(old(self).set().insert(name@) =~= old(self).set());
            } else {
                old(self).list().lemma_push_to_set_commute(name@);
            }
        }
        if !self.contains(name) {
            let ghost before = self.list();
            self.items.push(name.to_string());
            proof {
                assert(self.list() =~= before.push(name@));
                assert forall|a: int, b: int|
                    0 <= a < self.list().len() && 0 <= b < self.list().len() && a != b implies self.list()[a]
                    != self.list()[b] by {
                    if a < before.len() && b < before.len() {
                    } else if a < before.len() {
                        assert(before.contains(before[a]));
                    } else {
                        assert(before.contains(before[b]));
                    }
                }
            }
        }
    }

    /// Removes `name` if it is there.
    pub fn remove(&mut self, name: &str)
        requires
            old(self).wf(),
        ensures
            final(self).wf(),
            final(self).list() == old(self).list().filter(|x: Seq<char>| x != name@),
            final(self).set() == old(self).set().remove(name@),
    {
        let mut kept: Vec<String> = Vec::new();
        let ghost all = self.list();
        let n = str_chars(name);
        let mut i: usize = 0;
        while i < self.items.len()
            invariant
                i <= self.items.len(),
                all == self.list(),
                all.no_duplicates(),
                n@ == name@,
                names(kept@) == all.take(i as int).filter(|x: Seq<char>| x != name@),
            decreases self.items.len() - i,
        {
            proof {
                assert(all.take(i + 1) == all.take(i as int).push(all[i as int]));
                all.take(i as int).lemma_filter_push(all[i as int], |x: Seq<char>| x != name@);
            }
            let c = str_chars(self.items[i].as_str());
            if !chars_eq(c.as_slice(), n.as_slice()) {
                let ghost before = kept@;
                kept.push(self.items[i].clone());
                assert(names(kept@) =~= names(before).push(all[i as int]));
            }
            i = i + 1;
        }
        assert(all.take(self.items.len() as int) == all);
        self.items = kept;
        proof {
            let p = |x: Seq<char>| x != name@;
            lemma_filter_no_duplicates(all, p);
            let f = all.filter(p);
            assert forall|x: Seq<char>| f.to_set().contains(x) <==> all.to_set().remove(name@).contains(x) by {
                if f.contains(x) {
                    all.lemma_filter_contains_rev(p, x);
                }
                if all.contains(x) && x != name@ {
                    let k = choose|k: int| 0 <= k < all.len() && all[k] == x;
                    all.lemma_filter_contains(p, k);
                }
            }
            assert(f.to_set() =~= all.to_set().remove(name@));
        }
    }

    /// The names, in order.
    pub fn to_vec(&self) -> (r: Vec<String>)
        ensures
            names(r@) == self.list(),
    {
        let mut out: Vec<String> = Vec::new();
        let mut i: usize = 0;
        while i < self.items.len()
            invariant
                i <= self.items.len(),
                names(out@) == names(self.items@.take(i as int)),
            decreases self.items.len() - i,
        {
            let ghost before = out@;
            let c = self.items[i].clone();
            out.push(c);
            assert(self.items@.take(i + 1) == self.items@.take(i as int).push(self.items@[i as int]));
            assert(names(out@) =~= names(before).push(c@));
            assert(names(out@) =~= names(self.items@.take(i + 1)));
            i = i + 1;
        }
        assert(self.items@.take(self.items.len() as int) == self.items@);
        out
    }
}

/// Filtering keeps a list free of repetition.
proof fn lemma_filter_no_duplicates(s: Seq<Seq<char>>, p: spec_fn(Seq<char>) -> bool)
    requires
        s.no_duplicates(),
    ensures
        s.filter(p).no_duplicates(),
    decreases s.len(),
{
    if s.len() > 0 {
        lemma_filter_no_duplicates(s.drop_last(), p);
        assert(s == s.drop_last().push(s.last()));
        s.drop_last().lemma_filter_push(s.last(), p);
        let f0 = s.drop_last().filter(p);
        if p(s.last()) {
            assert(!s.drop_last().contains(s.last())) by {
                if s.drop_last().contains(s.last()) {
                    let k = choose|k: int| 0 <= k < s.drop_last().len() && s.drop_last()[k] == s.last();
                    assert(s[k] == s[s.len() - 1]);
                }
            }
            assert(!f0.contains(s.last())) by {
                if f0.contains(s.last()) {
                    s.drop_last().lemma_filter_contains_rev(p, s.last());
                }
            }
            let f = f0.push(s.last());
            assert forall|a: int, b: int| 0 <= a < f.len() && 0 <= b < f.len() && a != b implies f[a] != f[b] by {
                if a < f0.len() && b < f0.len() {
                } else if a < f0.len() {
                    assert(f0.contains(f0[a]));
                } else {
                    assert(f0.contains(f0[b]));
                }
            }
        }
    }
}

/// Builds a set from a list of names (repeated names count once).
pub fn name_set_of(list: &Vec<Vec<char>>) -> (s: NameSet)
    ensures
        s.wf(),
        s.set() == views(list@).to_set(),
{
    let mut s = NameSet::new();
    let mut i: usize = 0;
    while i < list.len()
        invariant
            i <= list.len(),
            s.wf(),
            s.set() == views(list@).take(i as int).to_set(),
        decreases list.len() - i,
    {
        let name = string_from_chars(list[i].as_slice());
        s.insert(name.as_str());
        proof {
            assert(views(list@).take(i + 1) == views(list@).take(i as int).push(list@[i as int]@));
            views(list@).take(i as int).lemma_push_to_set_commute(list@[i as int]@);
        }
        i = i + 1;
    }
    assert(views(list@).take(list.len() as int) == views(list@));
    s
}

// ---------------------------------------------------------------------------
// Mount options
// ---------------------------------------------------------------------------

/// The selection of a mount options value: the names between its commas. An array value
/// keeps the current selection (`None`); any other value selects nothing but the empty name.
pub fn mount_options_selection(value: &JsonValue) -> (r: Option<NameSet>)
    ensures
        match jview(*value) {
            Json::Str(s) => r is Some && r->0.wf() && r->0.set() == split_spec(s, ',').to_set(),
            Json::Array(_) => r is None,
            _ => r is Some && r->0.wf() && r->0.set() == split_spec(Seq::empty(), ',').to_set(),
        },
{
    match value {
        JsonValue::Str(s) => {
            let c = str_chars(s.as_str());
            let parts = split(c.as_slice(), ',');
            Some(name_set_of(&parts))
        },
        JsonValue::Array(_) => None,
        _ => {
            let empty: Vec<char> = Vec::new();
            let parts = split(empty.as_slice(), ',');
            Some(name_set_of(&parts))
        },
    }
}

/// What `<String as Ord>` orders by: the characters, lexicographically.
pub open spec fn lex_le(a: Seq<char>, b: Seq<char>) -> bool
    decreases a.len(),
{
    if a.len() == 0 {
        true
    } else if b.len() == 0 {
        false
    } else if a[0] != b[0] {
        a[0] < b[0]
    } else {
        lex_le(a.drop_first(), b.drop_first())
    }
}

/// The lexicographic order is total.
pub proof fn lemma_lex_total(a: Seq<char>, b: Seq<char>)
    ensures
        lex_le(a, b) || lex_le(b, a),
    decreases a.len(),
{
    if a.len() > 0 && b.len() > 0 && a[0] == b[0] {
        lemma_lex_total(a.drop_first(), b.drop_first());
    }
}

/// The lexicographic order is transitive.
pub proof fn lemma_lex_trans(a: Seq<char>, b: Seq<char>, c: Seq<char>)
    requires
        lex_le(a, b),
        lex_le(b, c),
    ensures
        lex_le(a, c),
    decreases a.len(),
{
    if a.len() > 0 && b.len() > 0 && c.len() > 0 && a[0] == b[0] && b[0] == c[0] {
        lemma_lex_trans(a.drop_first(), b.drop_first(), c.drop_first());
    }
}

/// `slice::sort` on strings: the same strings, in lexicographic order (the byte order of
/// UTF-8, which is the order of the characters).
#[verifier::external_body]
fn sort_strings(v: &mut Vec<String>)
    ensures
        names(final(v)@).to_multiset() == names(old(v)@).to_multiset(),
        forall|i: int, j: int|
            0 <= i < j < final(v)@.len() ==> lex_le(#[trigger] final(v)@[i]@, #[trigger] final(v)@[j]@),
{
    v.sort();
}

/// The non-empty strings of an array, in order.
pub open spec fn nonempty_strings(a: Seq<Json>) -> Seq<Seq<char>>
    decreases a.len(),
{
    if a.len() == 0 {
        Seq::empty()
    } else {
        let init = nonempty_strings(a.drop_last());
        match a.last() {
            Json::Str(s) => if s.len() > 0 {
                init.push(s)
            } else {
                init
            },
            _ => init,
        }
    }
}

/// Names joined by a separator.
pub open spec fn join(parts: Seq<Seq<char>>, sep: Seq<char>) -> Seq<char>
    decreases parts.len(),
{
    if parts.len() == 0 {
        Seq::empty()
    } else if parts.len() == 1 {
        parts[0]
    } else {
        join(parts.drop_last(), sep) + sep + parts.last()
    }
}

/// Joins strings with a separator.
pub fn join_strings(parts: &Vec<String>, sep: &str) -> (r: String)
    ensures
        r@ == join(names(parts@), sep@),
{
    let mut out: Vec<char> = Vec::new();
    let mut i: usize = 0;
    while i < parts.len()
        invariant
            i <= parts.len(),
            out@ == join(names(parts@).take(i as int), sep@),
        decreases parts.len() - i,
    {
        proof {
            assert(names(parts@).take(i + 1).drop_last() == names(parts@).take(i as int));
            assert(names(parts@).take(i + 1).last() == parts@[i as int]@);
        }
        if i > 0 {
            push_str(&mut out, sep);
        } else {
            assert(names(parts@).take(1)[0] == parts@[0]@);
        }
        push_str(&mut out, parts[i].as_str());
        i = i + 1;
    }
    assert(names(parts@).take(parts.len() as int) == names(parts@));
    string_from_chars(out.as_slice())
}

/// The submitted mount options: an array of names becomes its non-empty strings, sorted and
/// joined by commas; other values stay as they are.
pub fn mount_options_value(value: &JsonValue) -> (r: JsonValue)
    ensures
        match jview(*value) {
            Json::Array(a) => exists|sorted: Seq<Seq<char>>|
                {
                    &&& sorted.to_multiset() == nonempty_strings(a).to_multiset()
                    &&& forall|i: int, j: int|
                        0 <= i < j < sorted.len() ==> lex_le(#[trigger] sorted[i], #[trigger] sorted[j])
                    &&& jview(r) == Json::Str(join(sorted, ","@))
                },
            _ => jview(r) == jview(*value),
        },
{
    match value {
        JsonValue::Array(list) => {
            proof {
                lemma_jviews(list@);
            }
            let mut strings: Vec<String> = Vec::new();
            let mut i: usize = 0;
            while i < list.len()
                invariant
                    i <= list.len(),
                    jviews(list@).len() == list.len(),
                    forall|k: int| 0 <= k < list.len() ==> #[trigger] jviews(list@)[k] == jview(list@[k]),
                    names(strings@) == nonempty_strings(jviews(list@).take(i as int)),
                decreases list.len() - i,
            {
                proof {
                    assert(jviews(list@).take(i + 1).drop_last() == jviews(list@).take(i as int));
                    assert(jviews(list@).take(i + 1).last() == jview(list@[i as int]));
                }
                match &list[i] {
                    JsonValue::Str(s) => {
                        if str_chars(s.as_str()).len() > 0 {
                            let ghost before = strings@;
                            strings.push(s.clone());
                            assert(names(strings@) =~= names(before).push(s@));
                        }
                    },
                    _ => {},
                }
                i = i + 1;
            }
            assert(jviews(list@).take(list.len() as int) == jviews(list@));
            sort_strings(&mut strings);
            let joined = join_strings(&strings, ",");
            JsonValue::Str(joined)
        },
        _ => crate::json::clone_json(value),
    }
}

// ---------------------------------------------------------------------------
// File systems a container may mount
// ---------------------------------------------------------------------------

/// The names in a `mount` feature value, separated by `;` or blanks.
pub open spec fn mount_types_spec(s: Seq<char>) -> Set<Seq<char>> {
    split_spec(s.map_values(|c: char| if c == ' ' { ';' } else { c }), ';').to_set()
}

/// Reads the file system types of a `mount` feature value.
pub fn mount_types(value: Option<&str>) -> (r: NameSet)
    ensures
        r.wf(),
        r.set() == match value {
            Some(v) => mount_types_spec(v@),
            None => Set::<Seq<char>>::empty(),
        },
{
    match value {
        Some(v) => {
            let c = str_chars(v);
            let mut d: Vec<char> = Vec::new();
            let mut i: usize = 0;
            while i < c.len()
                invariant
                    i <= c.len(),
                    d@ == c@.take(i as int).map_values(|x: char| if x == ' ' { ';' } else { x }),
                decreases c.len() - i,
            {
                let x = c[i];
                d.push(if x == ' ' { ';' } else { x });
                assert(c@.take(i + 1) == c@.take(i as int).push(x));
                assert(d@ =~= c@.take(i + 1).map_values(|x: char| if x == ' ' { ';' } else { x }));
                i = i + 1;
            }
            assert(c@.take(c.len() as int) == c@);
            let parts = split(d.as_slice(), ';');
            name_set_of(&parts)
        },
        None => {
            let s = NameSet::new();
            assert(s.set() =~= Set::<Seq<char>>::empty());
            s
        },
    }
}

/// The `mount` feature after the NFS and CIFS checkboxes: both names added or removed as
/// checked, the other names kept; `None` when no name is left (the value is then not
/// written).
pub fn mount_feature_value(current: Option<&str>, nfs: bool, cifs: bool) -> (r: Option<String>)
    ensures
        ({
            let base = match current {
                Some(v) => mount_types_spec(v@),
                None => Set::<Seq<char>>::empty(),
            };
            let with_nfs = if nfs {
                base.insert("nfs"@)
            } else {
                base.remove("nfs"@)
            };
            let result = if cifs {
                with_nfs.insert("cifs"@)
            } else {
                with_nfs.remove("cifs"@)
            };
            match r {
                Some(text) => result.len() > 0 && exists|parts: Seq<Seq<char>>|
                    {
                        &&& parts.no_duplicates()
                        &&& parts.to_set() == result
                        &&& text@ == join(parts, ";"@)
                    },
                None => result.len() == 0,
            }
        }),
{
    let mut set = mount_types(current);
    if nfs {
        set.insert("nfs");
    } else {
        set.remove("nfs");
    }
    let ghost s1 = set.list();
    if cifs {
        set.insert("cifs");
    } else {
        set.remove("cifs");
    }
    let list = set.to_vec();
    proof {
        let l = set.list();
        l.unique_seq_to_set();
        assert(l.to_set().len() == l.len());
    }
    if list.len() == 0 {
        proof {
            assert(set.list().len() == 0);
        }
        None
    } else {
        Some(join_strings(&list, ";"))
    }
}

/// The NFS and CIFS checkboxes of a loaded `mount` feature value.
pub fn mount_checkboxes(mount: Option<&str>) -> (r: (bool, bool))
    ensures
        ({
            let set = match mount {
                Some(v) => mount_types_spec(v@),
                None => Set::<Seq<char>>::empty(),
            };
            r == (set.contains("nfs"@), set.contains("cifs"@))
        }),
{
    let set = mount_types(mount);
    (set.contains("nfs"), set.contains("cifs"))
}

proof fn lemma_split_without_separator(s: Seq<char>, c: char)
    requires
        !s.contains(c),
    ensures
        split_spec(s, c) == seq![s],
    decreases s.len(),
{
    if s.len() > 0 {
        assert(!s.drop_last().contains(c)) by {
            if s.drop_last().contains(c) {
                let i = choose|i: int| 0 <= i < s.drop_last().len() && s.drop_last()[i] == c;
                assert(s[i] == c);
            }
        }
        lemma_split_without_separator(s.drop_last(), c);
        assert(s.last() != c) by {
            assert(s[s.len() - 1] == s.last());
        }
        assert(s.drop_last().push(s.last()) =~= s);
        assert(split_spec(s, c) =~= seq![s]);
    } else {
        assert(s =~= Seq::<char>::empty());
    }
}

proof fn lemma_split_concat(a: Seq<char>, b: Seq<char>, c: char)
    ensures
        split_spec(a + seq![c] + b, c) == split_spec(a, c) + split_spec(b, c),
    decreases b.len(),
{
    let s = a + seq![c] + b;
    if b.len() == 0 {
        assert(s.drop_last() =~= a);
        assert(s.last() == c);
    } else {
        assert(s.drop_last() =~= a + seq![c] + b.drop_last());
        assert(s.last() == b.last());
        lemma_split_concat(a, b.drop_last(), c);
        lemma_split_nonempty(b.drop_last(), c);
        let x = split_spec(a, c);
        let y = split_spec(b.drop_last(), c);
        if b.last() == c {
            assert((x + y).push(Seq::<char>::empty()) =~= x + y.push(Seq::<char>::empty()));
        } else {
            assert((x + y).update((x + y).len() - 1, (x + y).last().push(b.last())) =~= x + y.update(
                y.len() - 1,
                y.last().push(b.last()),
            ));
        }
    }
}

/// Joining names that hold no separator with the separator and splitting the text at it
/// gives back the names.
pub proof fn lemma_split_join(parts: Seq<Seq<char>>, c: char)
    requires
        parts.len() >= 1,
        forall|i: int| 0 <= i < parts.len() ==> !(#[trigger] parts[i]).contains(c),
    ensures
        split_spec(join(parts, seq![c]), c) == parts,
    decreases parts.len(),
{
    if parts.len() == 1 {
        lemma_split_without_separator(parts[0], c);
        assert(seq![parts[0]] =~= parts);
    } else {
        let init = parts.drop_last();
        assert forall|i: int| 0 <= i < init.len() implies !(#[trigger] init[i]).contains(c) by {
            assert(init[i] == parts[i]);
        }
        lemma_split_join(init, c);
        assert(!parts.last().contains(c)) by {
            assert(parts[parts.len() - 1] == parts.last());
        }
        lemma_split_concat(join(init, seq![c]), parts.last(), c);
        lemma_split_without_separator(parts.last(), c);
        assert(init + seq![parts.last()] =~= parts);
    }
}

} // verus!
