//! Heading anchors for rendered Markdown.
//!
//! A heading's text is turned into a slug the way the marked.js slugger does it:
//! trimmed, lower-cased, most punctuation dropped, every whitespace character turned
//! into `-`. Repeated slugs are made unique by appending `-1`, `-2`, ... while skipping
//! any candidate that was itself already handed out or reserved.
use vstd::prelude::*;
use vstd::relations::injective_on;
use vstd::set_lib::*;

use crate::text::{
    chars_eq, decimal_spec, is_unicode_whitespace, is_whitespace, lemma_decimal_injective,
    lemma_decimal_roundtrip, push_chars, push_decimal, str_chars, string_from_chars, trim_bounds,
    trim_spec,
};

verus! {

/// The Unicode lowercase mapping of a character (what `char::to_lowercase` yields).
pub uninterp spec fn lowercase_mapping(c: char) -> Seq<char>;

/// ASCII lower-casing of a single character.
pub open spec fn ascii_lower(c: char) -> char {
    if 'A' <= c && c <= 'Z' {
        ((c as u32) + 32) as char
    } else {
        c
    }
}

/// `char::to_lowercase`, collected.
///
/// The result is the Unicode lowercase mapping of `c`; for ASCII characters it is the single
/// character that ASCII lower-casing gives. Nothing more is stated for other characters.
#[verifier::external_body]
fn char_to_lowercase(c: char) -> (r: Vec<char>)
    ensures
        r@ == lowercase_mapping(c),
        (c as u32) < 128 ==> r@ == seq![ascii_lower(c)],
{
    c.to_lowercase().collect()
}

/// The characters the slugger drops: the general punctuation and supplemental punctuation
/// blocks and the listed ASCII punctuation (`-` and `_` are kept).
pub open spec fn is_slug_removed(c: char) -> bool {
    ||| ('\u{2000}' <= c && c <= '\u{206F}')
    ||| ('\u{2E00}' <= c && c <= '\u{2E7F}')
    ||| c == '\\' || c == '\'' || c == '!' || c == '"' || c == '#' || c == '$' || c == '%'
    ||| c == '&' || c == '(' || c == ')' || c == '*' || c == '+' || c == ',' || c == '.'
    ||| c == '/' || c == ':' || c == ';' || c == '<' || c == '=' || c == '>' || c == '?'
    ||| c == '@' || c == '[' || c == ']' || c == '^' || c == '`' || c == '{' || c == '|'
    ||| c == '}' || c == '~'
}

fn slug_removed(c: char) -> (r: bool)
    ensures
        r == is_slug_removed(c),
{
    ('\u{2000}' <= c && c <= '\u{206F}') || ('\u{2E00}' <= c && c <= '\u{2E7F}') || c == '\\' || c
        == '\'' || c == '!' || c == '"' || c == '#' || c == '$' || c == '%' || c == '&' || c == '('
        || c == ')' || c == '*' || c == '+' || c == ',' || c == '.' || c == '/' || c == ':' || c
        == ';' || c == '<' || c == '=' || c == '>' || c == '?' || c == '@' || c == '[' || c == ']'
        || c == '^' || c == '`' || c == '{' || c == '|' || c == '}' || c == '~'
}

/// What one character of the (trimmed) heading text contributes to the slug.
pub open spec fn slug_piece(c: char) -> Seq<char> {
    if is_slug_removed(c) {
        Seq::empty()
    } else if is_unicode_whitespace(c) {
        seq!['-']
    } else {
        lowercase_mapping(c)
    }
}

/// The ASCII punctuation that marked's slugger drops (`\\ ' ! " # $ % & ( ) * + , . / : ; < =
/// > ? @ [ ] ^ ` { | } ~`) adds nothing to a slug: such a character after any text leaves
/// the slug of that text as it is.
pub proof fn lemma_marked_punctuation_dropped(c: char, s: Seq<char>)
    requires
        c == '\\' || c == '\'' || c == '!' || c == '"' || c == '#' || c == '$' || c == '%' || c
            == '&' || c == '(' || c == ')' || c == '*' || c == '+' || c == ',' || c == '.' || c
            == '/' || c == ':' || c == ';' || c == '<' || c == '=' || c == '>' || c == '?' || c
            == '@' || c == '[' || c == ']' || c == '^' || c == '`' || c == '{' || c == '|' || c
            == '}' || c == '~',
    ensures
        slug_piece(c) == Seq::<char>::empty(),
        slug_pieces(s.push(c)) == slug_pieces(s),
{
    assert(s.push(c).drop_last() =~= s);
    assert(slug_pieces(s) + Seq::<char>::empty() =~= slug_pieces(s));
}

/// Characters of the general punctuation (U+2000 to U+206F) and supplemental punctuation
/// (U+2E00 to U+2E7F) blocks add nothing to a slug either.
pub proof fn lemma_punctuation_blocks_dropped(c: char, s: Seq<char>)
    requires
        ('\u{2000}' <= c && c <= '\u{206F}') || ('\u{2E00}' <= c && c <= '\u{2E7F}'),
    ensures
        slug_piece(c) == Seq::<char>::empty(),
        slug_pieces(s.push(c)) == slug_pieces(s),
{
    assert(s.push(c).drop_last() =~= s);
    assert(slug_pieces(s) + Seq::<char>::empty() =~= slug_pieces(s));
}

/// The slug pieces of all characters of `s`, concatenated.
pub open spec fn slug_pieces(s: Seq<char>) -> Seq<char>
    decreases s.len(),
{
    if s.len() == 0 {
        Seq::empty()
    } else {
        slug_pieces(s.drop_last()) + slug_piece(s.last())
    }
}

/// The slug of a heading text, before de-duplication.
pub open spec fn serialize_heading_spec(value: Seq<char>) -> Seq<char> {
    slug_pieces(trim_spec(value))
}

/// Turns heading text into its (not yet de-duplicated) slug.
pub fn serialize_heading(value: &str) -> (r: String)
    ensures
        r@ == serialize_heading_spec(value@),
{
    let chars = str_chars(value);
    let v = serialize_heading_chars(chars.as_slice());
    string_from_chars(v.as_slice())
}

fn serialize_heading_chars(value: &[char]) -> (r: Vec<char>)
    ensures
        r@ == serialize_heading_spec(value@),
{
    let (a, b) = trim_bounds(value);
    let ghost t = value@.subrange(a as int, b as int);
    let mut out: Vec<char> = Vec::new();
    let mut i: usize = a;
    while i < b
        invariant
            a <= i <= b <= value.len(),
            t == value@.subrange(a as int, b as int),
            out@ == slug_pieces(t.take(i - a)),
        decreases b - i,
    {
        let c = value[i];
        let ghost prev = t.take(i - a);
        assert(t.take(i - a + 1).drop_last() == prev);
        assert(t.take(i - a + 1).last() == c);
        if slug_removed(c) {
        } else if is_whitespace(c) {
            out.push('-');
        } else {
            let low = char_to_lowercase(c);
            push_chars(&mut out, low.as_slice());
        }
        i = i + 1;
    }
    assert(t.take(b - a) == t);
    out
}

// ---------------------------------------------------------------------------
// De-duplication
// ---------------------------------------------------------------------------

/// The candidate `{base}-{m}`.
pub open spec fn suffixed(base: Seq<char>, m: nat) -> Seq<char> {
    base + seq!['-'] + decimal_spec(m)
}

/// Every recorded counter `c` of a slug `k` stands for `k-1` .. `k-c` all being recorded.
pub open spec fn counters_covered(seen: Map<Seq<char>, u32>) -> bool {
    forall|k: Seq<char>, m: nat|
        #![trigger seen.contains_key(suffixed(k, m)), seen[k]]
        seen.contains_key(k) && 1 <= m <= seen[k] ==> seen.contains_key(suffixed(k, m))
}

/// The counter chosen for a repeated slug: the least `n` above the recorded counter whose
/// candidate `{base}-{n}` is not recorded yet.
pub open spec fn next_counter(seen: Map<Seq<char>, u32>, base: Seq<char>) -> nat {
    choose|n: nat|
        n > seen[base] && !seen.contains_key(suffixed(base, n)) && forall|m: nat|
            seen[base] < m < n ==> seen.contains_key(#[trigger] suffixed(base, m))
}

/// The slug handed out for `value` when the slugs in `seen` were already handed out, and the
/// record afterwards.
pub open spec fn slug_step(seen: Map<Seq<char>, u32>, value: Seq<char>) -> (
    Seq<char>,
    Map<Seq<char>, u32>,
) {
    let base = serialize_heading_spec(value);
    if base.len() == 0 {
        (base, seen)
    } else if !seen.contains_key(base) {
        (base, seen.insert(base, 0))
    } else {
        let n = next_counter(seen, base);
        let slug = suffixed(base, n);
        (slug, seen.insert(base, n as u32).insert(slug, 0))
    }
}

/// The record after reserving an explicit anchor.
pub open spec fn reserve_step(seen: Map<Seq<char>, u32>, slug: Seq<char>) -> Map<Seq<char>, u32> {
    if seen.contains_key(slug) {
        seen
    } else {
        seen.insert(slug, 0)
    }
}

/// The map recorded by a list of entries (later entries win).
pub open spec fn entries_map(s: Seq<(Seq<char>, u32)>) -> Map<Seq<char>, u32>
    decreases s.len(),
{
    if s.len() == 0 {
        Map::empty()
    } else {
        entries_map(s.drop_last()).insert(s.last().0, s.last().1)
    }
}

/// No key occurs twice in the entries.
pub open spec fn distinct_keys(s: Seq<(Seq<char>, u32)>) -> bool {
    forall|i: int, j: int| 0 <= i < s.len() && 0 <= j < s.len() && i != j ==> s[i].0 != s[j].0
}

proof fn lemma_entries_map(s: Seq<(Seq<char>, u32)>)
    requires
        distinct_keys(s),
    ensures
        forall|k: Seq<char>|
            #![trigger entries_map(s).contains_key(k)]
            entries_map(s).contains_key(k) <==> exists|i: int| 0 <= i < s.len() && s[i].0 == k,
        forall|i: int|
            #![trigger s[i]]
            0 <= i < s.len() ==> entries_map(s).contains_key(s[i].0) && entries_map(s)[s[i].0]
                == s[i].1,
        entries_map(s).dom().finite(),
        entries_map(s).dom().len() == s.len(),
    decreases s.len(),
{
    if s.len() > 0 {
        let t = s.drop_last();
        assert(distinct_keys(t)) by {
            assert forall|i: int, j: int|
                0 <= i < t.len() && 0 <= j < t.len() && i != j implies t[i].0 != t[j].0 by {
                assert(t[i] == s[i] && t[j] == s[j]);
            }
        }
        lemma_entries_map(t);
        let last = s.last();
        assert(!entries_map(t).contains_key(last.0)) by {
            if entries_map(t).contains_key(last.0) {
                let i = choose|i: int| 0 <= i < t.len() && t[i].0 == last.0;
                assert(s[i] == t[i]);
                assert(s[s.len() - 1] == last);
            }
        }
        assert forall|k: Seq<char>|
            #![trigger entries_map(s).contains_key(k)]
            entries_map(s).contains_key(k) <==> exists|i: int| 0 <= i < s.len() && s[i].0 == k by {
            if entries_map(s).contains_key(k) {
                if k == last.0 {
                    assert(s[s.len() - 1].0 == k);
                } else {
                    let i = choose|i: int| 0 <= i < t.len() && t[i].0 == k;
                    assert(s[i] == t[i]);
                }
            }
            if exists|i: int| 0 <= i < s.len() && s[i].0 == k {
                let i = choose|i: int| 0 <= i < s.len() && s[i].0 == k;
                if i < s.len() - 1 {
                    assert(t[i] == s[i]);
                }
            }
        }
        assert forall|i: int| #![trigger s[i]] 0 <= i < s.len() implies entries_map(s).contains_key(
            s[i].0,
        ) && entries_map(s)[s[i].0] == s[i].1 by {
            if i < s.len() - 1 {
                assert(t[i] == s[i]);
                assert(s[i].0 != s[s.len() - 1].0);
            }
        }
        assert(entries_map(s).dom() == entries_map(t).dom().insert(last.0));
    } else {
        assert(entries_map(s).dom() =~= Set::<Seq<char>>::empty());
    }
}

proof fn lemma_entries_update(s: Seq<(Seq<char>, u32)>, i: int, v: u32)
    requires
        distinct_keys(s),
        0 <= i < s.len(),
    ensures
        distinct_keys(s.update(i, (s[i].0, v))),
        entries_map(s.update(i, (s[i].0, v))) == entries_map(s).insert(s[i].0, v),
{
    let u = s.update(i, (s[i].0, v));
    assert(distinct_keys(u)) by {
        assert forall|a: int, b: int|
            0 <= a < u.len() && 0 <= b < u.len() && a != b implies u[a].0 != u[b].0 by {
            assert(u[a].0 == s[a].0 && u[b].0 == s[b].0);
        }
    }
    lemma_entries_map(s);
    lemma_entries_map(u);
    assert(entries_map(u) =~= entries_map(s).insert(s[i].0, v)) by {
        assert forall|k: Seq<char>| #[trigger]
            entries_map(u).contains_key(k) <==> entries_map(s).insert(s[i].0, v).contains_key(k) by {
            if entries_map(u).contains_key(k) {
                let j = choose|j: int| 0 <= j < u.len() && u[j].0 == k;
                assert(s[j].0 == k);
            }
            if entries_map(s).contains_key(k) {
                let j = choose|j: int| 0 <= j < s.len() && s[j].0 == k;
                assert(u[j].0 == k);
            }
            assert(u[i].0 == s[i].0);
        }
        assert forall|k: Seq<char>| #[trigger] entries_map(u).contains_key(k) implies entries_map(
            u,
        )[k] == entries_map(s).insert(s[i].0, v)[k] by {
            let j = choose|j: int| 0 <= j < u.len() && u[j].0 == k;
            assert(u[j] == u[j]);
            assert(s[j] == s[j]);
        }
    }
}

proof fn lemma_entries_push(s: Seq<(Seq<char>, u32)>, k: Seq<char>, v: u32)
    requires
        distinct_keys(s),
        !entries_map(s).contains_key(k),
    ensures
        distinct_keys(s.push((k, v))),
        entries_map(s.push((k, v))) == entries_map(s).insert(k, v),
{
    lemma_entries_map(s);
    let u = s.push((k, v));
    assert(u.drop_last() == s);
    assert(distinct_keys(u)) by {
        assert forall|a: int, b: int|
            0 <= a < u.len() && 0 <= b < u.len() && a != b implies u[a].0 != u[b].0 by {
            if a < s.len() && b < s.len() {
                assert(u[a] == s[a] && u[b] == s[b]);
            } else if a < s.len() {
                assert(u[a] == s[a]);
                assert(s[a] == s[a]);
            } else {
                assert(u[b] == s[b]);
                assert(s[b] == s[b]);
            }
        }
    }
}

/// Records the slugs already handed out, each with the last counter used for it.
pub struct Slugger {
    entries: Vec<(Vec<char>, u32)>,
}

impl Slugger {
    /// The entries as plain values.
    pub closed spec fn entry_views(&self) -> Seq<(Seq<char>, u32)> {
        self.entries@.map_values(|e: (Vec<char>, u32)| (e.0@, e.1))
    }

    /// The recorded slugs and their counters.
    pub closed spec fn view(&self) -> Map<Seq<char>, u32> {
        entries_map(self.entry_views())
    }

    /// The record is consistent: no slug twice, and every counter covered.
    pub closed spec fn wf(&self) -> bool {
        &&& distinct_keys(self.entry_views())
        &&& counters_covered(self@)
    }

    /// Only finitely many slugs are ever recorded.
    pub proof fn lemma_dom_finite(&self)
        requires
            self.wf(),
        ensures
            self@.dom().finite(),
    {
        lemma_entries_map(self.entry_views());
    }

    /// Creates an empty slugger.
    pub fn new() -> (s: Self)
        ensures
            s.wf(),
            s@ == Map::<Seq<char>, u32>::empty(),
    {
        let s = Slugger { entries: Vec::new() };
        assert(s.entry_views() =~= Seq::<(Seq<char>, u32)>::empty());
        s
    }

    /// The number of recorded slugs.
    pub fn len(&self) -> (n: usize)
        requires
            self.wf(),
        ensures
            n == self@.dom().len(),
    {
        proof {
            lemma_entries_map(self.entry_views());
        }
        self.entries.len()
    }

    fn find(&self, key: &[char]) -> (r: Option<usize>)
        requires
            self.wf(),
        ensures
            match r {
                Some(i) => i < self.entries.len() && self.entry_views()[i as int].0 == key@
                    && self@.contains_key(key@) && self@[key@] == self.entries@[i as int].1,
                None => !self@.contains_key(key@),
            },
    {
        proof {
            lemma_entries_map(self.entry_views());
        }
        let mut i: usize = 0;
        while i < self.entries.len()
            invariant
                i <= self.entries.len(),
                self.wf(),
                forall|j: int| 0 <= j < i ==> self.entry_views()[j].0 != key@,
            decreases self.entries.len() - i,
        {
            if chars_eq(self.entries[i].0.as_slice(), key) {
                let ghost ev = self.entry_views();
                proof {
                    lemma_entries_map(ev);
                }
                assert(ev[i as int] == (self.entries@[i as int].0@, self.entries@[i as int].1));
                assert(ev[i as int].0 == key@);
                assert(entries_map(ev).contains_key(ev[i as int].0));
                assert(entries_map(ev)[ev[i as int].0] == ev[i as int].1);
                return Some(i);
            }
            i = i + 1;
        }
        proof {
            if self@.contains_key(key@) {
                let j = choose|j: int|
                    0 <= j < self.entry_views().len() && self.entry_views()[j].0 == key@;
            }
        }
        None
    }

    /// Sets the counter of `key`, adding the key when it is not recorded yet.
    fn set(&mut self, key: Vec<char>, v: u32)
        requires
            distinct_keys(old(self).entry_views()),
        ensures
            distinct_keys(final(self).entry_views()),
            final(self)@ == old(self)@.insert(key@, v),
    {
        proof {
            lemma_entries_map(self.entry_views());
        }
        let mut i: usize = 0;
        while i < self.entries.len()
            invariant
                i <= self.entries.len(),
                self == old(self),
                distinct_keys(self.entry_views()),
                forall|j: int| 0 <= j < i ==> self.entry_views()[j].0 != key@,
            decreases self.entries.len() - i,
        {
            if chars_eq(self.entries[i].0.as_slice(), key.as_slice()) {
                let ghost before = self.entry_views();
                self.entries.set(i, (key, v));
                proof {
                    lemma_entries_update(before, i as int, v);
                    assert(self.entry_views() =~= before.update(i as int, (before[i as int].0, v)));
                }
                return;
            }
            i = i + 1;
        }
        let ghost before = self.entry_views();
        proof {
            if entries_map(before).contains_key(key@) {
                let j = choose|j: int| 0 <= j < before.len() && before[j].0 == key@;
            }
            lemma_entries_push(before, key@, v);
        }
        self.entries.push((key, v));
        assert(self.entry_views() =~= before.push((key@, v)));
    }

    /// Reserves an explicit anchor, so that a later heading slugifying to it is made unique.
    pub fn reserve(&mut self, slug: &str)
        requires
            old(self).wf(),
        ensures
            final(self).wf(),
            final(self)@ == reserve_step(old(self)@, slug@),
    {
        let key = str_chars(slug);
        if self.find(key.as_slice()).is_none() {
            self.set(key, 0);
            assert forall|k: Seq<char>, m: nat|
                #![trigger self@.contains_key(suffixed(k, m)), self@[k]]
                self@.contains_key(k) && 1 <= m <= self@[k] implies self@.contains_key(
                suffixed(k, m),
            ) by {
                assert(old(self)@.contains_key(k));
            }
        }
    }

    /// Hands out the slug for a heading text: its serialized form, or that form with the
    /// first free `-N` suffix when it was handed out or reserved before. An empty slug is
    /// returned as is and not recorded.
    pub fn slug(&mut self, value: &str) -> (r: String)
        requires
            old(self).wf(),
            old(self)@.dom().len() + 2 < u32::MAX,
        ensures
            final(self).wf(),
            (r@, final(self)@) == slug_step(old(self)@, value@),
    {
        let chars = str_chars(value);
        let base = serialize_heading_chars(chars.as_slice());
        let ghost seen = self@;
        if base.len() == 0 {
            return string_from_chars(base.as_slice());
        }
        match self.find(base.as_slice()) {
            None => {
                let r = string_from_chars(base.as_slice());
                self.set(base, 0);
                proof {
                    assert forall|k: Seq<char>, m: nat|
                        #![trigger self@.contains_key(suffixed(k, m)), self@[k]]
                        self@.contains_key(k) && 1 <= m <= self@[k] implies self@.contains_key(
                        suffixed(k, m),
                    ) by {
                        assert(seen.contains_key(k));
                    }
                }
                r
            },
            Some(idx) => {
                let c = self.entries[idx].1;
                proof {
                    lemma_entries_map(self.entry_views());
                }
                let mut counter: u32 = c;
                let mut candidate: Vec<char> = Vec::new();
                loop
                    invariant_except_break
                        forall|m: nat|
                            1 <= m <= counter ==> seen.contains_key(
                                #[trigger] suffixed(base@, m),
                            ),
                    invariant
                        self@ == seen,
                        self.wf(),
                        seen.contains_key(base@),
                        seen[base@] == c,
                        seen.dom().len() + 2 < u32::MAX,
                        c <= counter,
                    ensures
                        counter > c,
                        candidate@ == suffixed(base@, counter as nat),
                        !seen.contains_key(candidate@),
                        forall|m: nat|
                            1 <= m < counter ==> seen.contains_key(
                                #[trigger] suffixed(base@, m),
                            ),
                    decreases u32::MAX - counter,
                {
                    proof {
                        self.lemma_counter_bound(base@, counter as nat);
                    }
                    counter = counter + 1;
                    candidate = Vec::new();
                    push_chars(&mut candidate, base.as_slice());
                    candidate.push('-');
                    push_decimal(&mut candidate, counter as u64);
                    assert(candidate@ == suffixed(base@, counter as nat));
                    if self.find(candidate.as_slice()).is_none() {
                        break;
                    }
                }
                let r = string_from_chars(candidate.as_slice());
                proof {
                    assert(next_counter(seen, base@) == counter as nat) by {
                        let n = next_counter(seen, base@);
                        assert(counter as nat > seen[base@] && !seen.contains_key(
                            suffixed(base@, counter as nat),
                        ) && forall|m: nat|
                            seen[base@] < m < counter as nat ==> seen.contains_key(
                                #[trigger] suffixed(base@, m),
                            ));
                        if n < counter as nat {
                            assert(seen.contains_key(suffixed(base@, n)));
                        } else if n > counter as nat {
                            assert(seen.contains_key(suffixed(base@, counter as nat)));
                        }
                    }
                    lemma_suffixed_differs(base@, counter as nat);
                }
                self.set(base, counter);
                let ghost mid = self@;
                self.set(candidate, 0);
                proof {
                    let fin = self@;
                    assert forall|k: Seq<char>, m: nat|
                        #![trigger fin.contains_key(suffixed(k, m)), fin[k]]
                        fin.contains_key(k) && 1 <= m <= fin[k] implies fin.contains_key(
                            suffixed(k, m),
                        ) by {
                        if k == r@ {
                        } else if k == base@ {
                            if m < counter {
                                assert(seen.contains_key(suffixed(base@, m)));
                            }
                        } else {
                            assert(seen.contains_key(k));
                            assert(seen[k] == fin[k]);
                        }
                    }
                }
                r
            },
        }
    }

    /// While searching a free counter for `base`, all of `base-1` .. `base-(n-1)`
    /// are recorded, so `n` stays below the number of recorded slugs plus one.
    proof fn lemma_counter_bound(&self, base: Seq<char>, n: nat)
        requires
            self.wf(),
            forall|m: nat| 1 <= m <= n ==> self@.contains_key(#[trigger] suffixed(base, m)),
        ensures
            n <= self@.dom().len(),
    {
        lemma_entries_map(self.entry_views());
        let dom = self@.dom();
        let r = set_int_range(1, (n + 1) as int);
        lemma_int_range(1, (n + 1) as int);
        let f = |m: int| suffixed(base, m as nat);
        assert(injective_on(f, r)) by {
            assert forall|a: int, b: int|
                r.contains(a) && r.contains(b) && #[trigger] f(a) == #[trigger] f(b) implies a
                == b by {
                lemma_suffixed_injective(base, a as nat, b as nat);
            }
        }
        lemma_map_size(r, r.map(f), f);
        assert(r.map(f).subset_of(dom)) by {
            assert forall|k: Seq<char>| #[trigger] r.map(f).contains(k) implies dom.contains(k) by {
                let a = choose|a: int| r.contains(a) && f(a) == k;
                assert(self@.contains_key(suffixed(base, a as nat)));
            }
        }
        lemma_len_subset(r.map(f), dom);
    }
}

proof fn lemma_suffixed_injective(base: Seq<char>, a: nat, b: nat)
    ensures
        suffixed(base, a) == suffixed(base, b) ==> a == b,
{
    if suffixed(base, a) == suffixed(base, b) {
        let p = base + seq!['-'];
        assert(suffixed(base, a).skip(p.len() as int) == decimal_spec(a));
        assert(suffixed(base, b).skip(p.len() as int) == decimal_spec(b));
        lemma_decimal_injective(a, b);
    }
}

proof fn lemma_suffixed_differs(base: Seq<char>, n: nat)
    ensures
        suffixed(base, n) != base,
{
    lemma_decimal_roundtrip(n);
    assert(suffixed(base, n).len() > base.len());
}

/// Every slug handed out for a heading is new: it was neither handed out nor reserved before,
/// and it is recorded afterwards, so no two headings ever share an anchor.
pub proof fn lemma_slug_is_fresh(seen: Map<Seq<char>, u32>, value: Seq<char>)
    requires
        counters_covered(seen),
        seen.dom().finite(),
    ensures
        slug_step(seen, value).0.len() > 0 ==> !seen.contains_key(slug_step(seen, value).0)
            && slug_step(seen, value).1.contains_key(slug_step(seen, value).0),
        slug_step(seen, value).0.len() == 0 ==> slug_step(seen, value).1 == seen,
{
    let base = serialize_heading_spec(value);
    if base.len() > 0 && seen.contains_key(base) {
        let n = next_counter(seen, base);
        if !(n > seen[base] && !seen.contains_key(suffixed(base, n)) && forall|m: nat|
            seen[base] < m < n ==> seen.contains_key(#[trigger] suffixed(base, m))) {
            // a free counter exists, since only finitely many slugs are recorded
            lemma_free_counter_exists(seen, base);
        }
    }
}

proof fn lemma_free_counter_exists(seen: Map<Seq<char>, u32>, base: Seq<char>)
    requires
        seen.dom().finite(),
        seen.contains_key(base),
    ensures
        exists|n: nat|
            n > seen[base] && !seen.contains_key(suffixed(base, n)) && forall|m: nat|
                seen[base] < m < n ==> seen.contains_key(#[trigger] suffixed(base, m)),
{
    let c = seen[base] as nat;
    let bound = c + seen.dom().len() + 1;
    // find the least free counter above c, searching upwards
    lemma_search_free(seen, base, c, c + 1, bound);
}

proof fn lemma_search_free(
    seen: Map<Seq<char>, u32>,
    base: Seq<char>,
    c: nat,
    n: nat,
    bound: nat,
)
    requires
        seen.dom().finite(),
        c < n <= bound,
        bound == c + seen.dom().len() + 1,
        seen.contains_key(base),
        seen[base] == c,
        forall|m: nat| c < m < n ==> seen.contains_key(#[trigger] suffixed(base, m)),
    ensures
        exists|k: nat|
            k > seen[base] && !seen.contains_key(suffixed(base, k)) && forall|m: nat|
                seen[base] < m < k ==> seen.contains_key(#[trigger] suffixed(base, m)),
    decreases bound - n,
{
    if !seen.contains_key(suffixed(base, n)) {
        assert(n > seen[base]);
    } else if n == bound {
        // n - c distinct recorded candidates plus `base` itself exceed the record
        let r = set_int_range((c + 1) as int, (n + 1) as int);
        lemma_int_range((c + 1) as int, (n + 1) as int);
        let f = |m: int| suffixed(base, m as nat);
        assert(injective_on(f, r)) by {
            assert forall|a: int, b: int|
                r.contains(a) && r.contains(b) && #[trigger] f(a) == #[trigger] f(b) implies a
                == b by {
                lemma_suffixed_injective(base, a as nat, b as nat);
            }
        }
        lemma_map_size(r, r.map(f), f);
        assert(r.map(f).subset_of(seen.dom())) by {
            assert forall|k: Seq<char>| #[trigger] r.map(f).contains(k) implies seen.dom().contains(
                k,
            ) by {
                let a = choose|a: int| r.contains(a) && f(a) == k;
                if a < n {
                    assert(seen.contains_key(suffixed(base, a as nat)));
                }
            }
        }
        lemma_len_subset(r.map(f), seen.dom());
        assert(!r.map(f).contains(base)) by {
            if r.map(f).contains(base) {
                let a = choose|a: int| r.contains(a) && f(a) == base;
                lemma_suffixed_differs(base, a as nat);
            }
        }
        lemma_len_subset(r.map(f).insert(base), seen.dom());
    } else {
        lemma_search_free(seen, base, c, n + 1, bound);
    }
}

/// Reserving an anchor keeps the record consistent and finite, keeps everything recorded,
/// and records the anchor.
pub proof fn lemma_reserve_keeps(seen: Map<Seq<char>, u32>, slug: Seq<char>)
    requires
        counters_covered(seen),
        seen.dom().finite(),
    ensures
        counters_covered(reserve_step(seen, slug)),
        reserve_step(seen, slug).dom().finite(),
        seen.dom().subset_of(reserve_step(seen, slug).dom()),
        reserve_step(seen, slug).contains_key(slug),
{
    let r = reserve_step(seen, slug);
    if !seen.contains_key(slug) {
        assert forall|k: Seq<char>, m: nat|
            #![trigger r.contains_key(suffixed(k, m)), r[k]]
            r.contains_key(k) && 1 <= m <= r[k] implies r.contains_key(suffixed(k, m)) by {
            if k != slug {
                assert(seen.contains_key(k) && seen[k] == r[k]);
                assert(seen.contains_key(suffixed(k, m)));
            }
        }
    }
}

/// Handing out a slug keeps the record consistent and finite, and keeps everything recorded.
pub proof fn lemma_slug_step_keeps(seen: Map<Seq<char>, u32>, value: Seq<char>)
    requires
        counters_covered(seen),
        seen.dom().finite(),
    ensures
        counters_covered(slug_step(seen, value).1),
        slug_step(seen, value).1.dom().finite(),
        seen.dom().subset_of(slug_step(seen, value).1.dom()),
{
    let base = serialize_heading_spec(value);
    let (slug, r) = slug_step(seen, value);
    if base.len() == 0 {
    } else if !seen.contains_key(base) {
        assert forall|k: Seq<char>, m: nat|
            #![trigger r.contains_key(suffixed(k, m)), r[k]]
            r.contains_key(k) && 1 <= m <= r[k] implies r.contains_key(suffixed(k, m)) by {
            if k != base {
                assert(seen.contains_key(k) && seen[k] == r[k]);
                assert(seen.contains_key(suffixed(k, m)));
            }
        }
    } else {
        lemma_free_counter_exists(seen, base);
        let n = next_counter(seen, base);
        lemma_suffixed_differs(base, n);
        assert(slug == suffixed(base, n));
        assert(r[base] == n as u32);
        assert forall|k: Seq<char>, m: nat|
            #![trigger r.contains_key(suffixed(k, m)), r[k]]
            r.contains_key(k) && 1 <= m <= r[k] implies r.contains_key(suffixed(k, m)) by {
            if k == slug {
            } else if k == base {
                if m <= seen[base] {
                    assert(seen.contains_key(suffixed(base, m)));
                } else if m < n {
                    assert(seen.contains_key(suffixed(base, m)));
                } else {
                    assert(m == n);
                }
            } else {
                assert(seen.contains_key(k) && seen[k] == r[k]);
                assert(seen.contains_key(suffixed(k, m)));
            }
        }
    }
}

} // verus!
