//! Automatic heading ids for rendered Markdown.
//!
//! The Markdown parser produces a stream of events; headings without an explicit
//! `{#anchor}` get an id derived from their text, so that fragment links resolve to them.
use vstd::prelude::*;

use crate::slug::{
    counters_covered, lemma_reserve_keeps, lemma_slug_is_fresh, lemma_slug_step_keeps, reserve_step,
    slug_step, Slugger,
};
use crate::text::{push_str, str_chars, string_from_chars};
use pulldown_cmark::{CowStr, Event, Options, Parser, Tag, TagEnd};

verus! {

/// The parts of a Markdown event stream that heading ids depend on.
pub enum HeadingEvent {
    /// Start of a heading, with its explicit `{#anchor}` id if it has one.
    Start { id: Option<String> },
    /// End of a heading.
    End,
    /// Text.
    Text(String),
    /// Inline code.
    Code(String),
    /// Inline math.
    InlineMath(String),
    /// Display math.
    DisplayMath(String),
    /// Any other event.
    Other,
}

/// What heading ids depend on of an event, as plain values.
pub enum HeadingMark {
    /// Start of a heading, with its explicit anchor if it has one.
    Start(Option<Seq<char>>),
    /// End of a heading.
    End,
    /// Text.
    Text(Seq<char>),
    /// Inline code.
    Code(Seq<char>),
    /// Inline math.
    InlineMath(Seq<char>),
    /// Display math.
    DisplayMath(Seq<char>),
    /// Any other event.
    Other,
}

/// The content of an event that counts as heading text: text, inline code and math (so
/// that a heading like `## $a + b$` or `` ## `code` `` still yields a slug).
pub open spec fn heading_text_of(e: HeadingMark) -> Option<Seq<char>> {
    match e {
        HeadingMark::Text(t) => Some(t),
        HeadingMark::Code(t) => Some(t),
        HeadingMark::InlineMath(t) => Some(t),
        HeadingMark::DisplayMath(t) => Some(t),
        _ => None,
    }
}

/// The plain form of an event.
pub open spec fn heading_mark(e: HeadingEvent) -> HeadingMark {
    match e {
        HeadingEvent::Start { id: Some(a) } => HeadingMark::Start(Some(a@)),
        HeadingEvent::Start { id: None } => HeadingMark::Start(None),
        HeadingEvent::End => HeadingMark::End,
        HeadingEvent::Text(t) => HeadingMark::Text(t@),
        HeadingEvent::Code(t) => HeadingMark::Code(t@),
        HeadingEvent::InlineMath(t) => HeadingMark::InlineMath(t@),
        HeadingEvent::DisplayMath(t) => HeadingMark::DisplayMath(t@),
        HeadingEvent::Other => HeadingMark::Other,
    }
}

/// The plain forms of a list of events.
pub open spec fn heading_marks(events: Seq<HeadingEvent>) -> Seq<HeadingMark> {
    events.map_values(|e: HeadingEvent| heading_mark(e))
}

/// The scanning state: recorded slugs, the index of the open heading that needs an id,
/// the text collected for it, and the ids assigned so far (one entry per event).
pub type ScanState = (Map<Seq<char>, u32>, Option<int>, Seq<char>, Seq<Option<Seq<char>>>);

/// How one event at position `i` changes the scanning state.
pub open spec fn scan_step(st: ScanState, e: HeadingMark, i: int) -> ScanState {
    let (seen, open, text, ids) = st;
    match e {
        HeadingMark::Start(Some(explicit)) => (
            reserve_step(seen, explicit),
            open,
            text,
            ids.push(None),
        ),
        HeadingMark::Start(None) => (seen, Some(i), Seq::empty(), ids.push(None)),
        HeadingMark::End => match open {
            Some(j) => {
                let (slug, seen2) = slug_step(seen, text);
                let ids2 = if slug.len() > 0 {
                    ids.update(j, Some(slug))
                } else {
                    ids
                };
                (seen2, None, text, ids2.push(None))
            },
            None => (seen, open, text, ids.push(None)),
        },
        _ => match (heading_text_of(e), open) {
            (Some(t), Some(_)) => (seen, open, text + t, ids.push(None)),
            _ => (seen, open, text, ids.push(None)),
        },
    }
}

/// The scanning state after the first `n` events.
pub open spec fn scan(events: Seq<HeadingMark>, n: nat) -> ScanState
    decreases n,
{
    if n == 0 {
        (Map::empty(), None, Seq::empty(), Seq::empty())
    } else {
        scan_step(scan(events, (n - 1) as nat), events[n - 1], n - 1)
    }
}

/// The id assigned to each event: `Some(slug)` for a heading start that had no explicit id
/// and whose text gives a non-empty slug.
pub open spec fn heading_ids_spec(events: Seq<HeadingMark>) -> Seq<Option<Seq<char>>> {
    scan(events, events.len()).3
}

/// Assigns ids to the headings of an event stream that have none.
pub fn assign_heading_ids(events: &[HeadingEvent]) -> (ids: Vec<Option<String>>)
    requires
        events.len() < 0x8000_0000,
    ensures
        ids@.len() == events@.len(),
        forall|i: int|
            0 <= i < ids@.len() ==> match #[trigger] ids@[i] {
                Some(s) => heading_ids_spec(heading_marks(events@))[i] == Some(s@),
                None => heading_ids_spec(heading_marks(events@))[i] is None,
            },
{
    let mut slugger = Slugger::new();
    let mut ids: Vec<Option<String>> = Vec::new();
    let mut open: Option<usize> = None;
    let mut text: Vec<char> = Vec::new();
    let mut i: usize = 0;
    while i < events.len()
        invariant
            i <= events.len() < 0x8000_0000,
            slugger.wf(),
            slugger@.dom().len() <= 2 * i,
            ({
                let st = scan(heading_marks(events@), i as nat);
                &&& slugger@ == st.0
                &&& (match open {
                    Some(j) => st.1 == Some(j as int) && j < i,
                    None => st.1 is None,
                })
                &&& text@ == st.2
                &&& ids@.len() == i
                &&& st.3.len() == i
                &&& forall|k: int|
                    0 <= k < i ==> match #[trigger] ids@[k] {
                        Some(s) => st.3[k] == Some(s@),
                        None => st.3[k] is None,
                    }
            }),
        decreases events.len() - i,
    {
        let ghost st = scan(heading_marks(events@), i as nat);
        let ghost old_ids = ids@;
        let ghost old_len = slugger@.dom().len();
        proof {
            slugger.lemma_dom_finite();
        }
        assert(scan(heading_marks(events@), (i + 1) as nat) == scan_step(st, heading_marks(events@)[i as int], i as int));
        match &events[i] {
            HeadingEvent::Start { id: Some(explicit) } => {
                slugger.reserve(explicit.as_str());
                proof {
                    let d = st.0.dom();
                    vstd::set::axiom_set_insert_len(d, explicit@);
                    assert(reserve_step(st.0, explicit@).dom() == d || reserve_step(
                        st.0,
                        explicit@,
                    ).dom() == d.insert(explicit@));
                }
            },
            HeadingEvent::Start { id: None } => {
                open = Some(i);
                text = Vec::new();
            },
            HeadingEvent::End => {
                match open {
                    Some(j) => {
                        let t = string_from_chars(text.as_slice());
                        let slug = slugger.slug(t.as_str());
                        proof {
                            lemma_step_growth(st.0, text@);
                        }
                        let slug_chars = str_chars(slug.as_str());
                        if slug_chars.len() > 0 {
                            ids.set(j, Some(slug));
                        }
                        open = None;
                    },
                    None => {},
                }
            },
            HeadingEvent::Text(t) | HeadingEvent::Code(t) | HeadingEvent::InlineMath(t)
            | HeadingEvent::DisplayMath(t) => {
                if open.is_some() {
                    push_str(&mut text, t.as_str());
                }
            },
            HeadingEvent::Other => {},
        }
        ids.push(None);
        i = i + 1;
    }
    ids
}

proof fn lemma_step_growth(seen: Map<Seq<char>, u32>, value: Seq<char>)
    requires
        seen.dom().finite(),
    ensures
        slug_step(seen, value).1.dom().finite(),
        slug_step(seen, value).1.dom().len() <= seen.dom().len() + 2,
{
    let (sl, seen2) = slug_step(seen, value);
    let d = seen.dom();
    vstd::set::axiom_set_insert_finite(d, sl);
    vstd::set::axiom_set_insert_len(d, sl);
    let base = crate::slug::serialize_heading_spec(value);
    vstd::set::axiom_set_insert_finite(d, base);
    vstd::set::axiom_set_insert_len(d, base);
    vstd::set::axiom_set_insert_finite(d.insert(base), sl);
    vstd::set::axiom_set_insert_len(d.insert(base), sl);
    assert(seen.insert(base, 0).dom() == d.insert(base));
}

/// The explicit anchor of an event, if it is a heading start with one.
pub open spec fn explicit_anchor(e: HeadingMark) -> Option<Seq<char>> {
    match e {
        HeadingMark::Start(Some(a)) => Some(a),
        _ => None,
    }
}

/// What holds of the scanning state after `n` events.
spec fn scan_inv(events: Seq<HeadingMark>, n: nat) -> bool {
    let st = scan(events, n);
    &&& counters_covered(st.0)
    &&& st.0.dom().finite()
    &&& st.3.len() == n
    &&& forall|k: int| 0 <= k < n && (#[trigger] st.3[k]) is Some ==> st.0.contains_key(st.3[k]->0)
    &&& forall|a: int, b: int|
        0 <= a < n && 0 <= b < n && a != b && (#[trigger] st.3[a]) is Some
            && (#[trigger] st.3[b]) is Some ==> st.3[a] != st.3[b]
    &&& match st.1 {
        Some(j) => 0 <= j < n && st.3[j] is None && events[j] == HeadingMark::Start(None),
        None => true,
    }
    &&& forall|k: int|
        0 <= k < n && (#[trigger] st.3[k]) is Some ==> events[k] == HeadingMark::Start(None)
    &&& forall|k: int|
        0 <= k < n && (#[trigger] explicit_anchor(events[k])) is Some ==> st.0.contains_key(
            explicit_anchor(events[k])->0,
        )
    &&& forall|k: int, j: int|
        0 <= k < j < n && (#[trigger] st.3[j]) is Some && (#[trigger] explicit_anchor(events[k]))
            is Some ==> st.3[j]->0 != explicit_anchor(events[k])->0
}

proof fn lemma_scan_inv(events: Seq<HeadingMark>, n: nat)
    requires
        n <= events.len(),
    ensures
        scan_inv(events, n),
    decreases n,
{
    if n > 0 {
        let i = n - 1;
        lemma_scan_inv(events, i as nat);
        let st = scan(events, i as nat);
        let st2 = scan(events, n);
        let e = events[i];
        assert(st2 == scan_step(st, e, i));
        match e {
            HeadingMark::Start(Some(explicit)) => {
                lemma_reserve_keeps(st.0, explicit);
                assert(st2.3 == st.3.push(None));
                assert forall|k: int| 0 <= k < n && (#[trigger] st2.3[k]) is Some implies events[k]
                    == HeadingMark::Start(None) by {
                    assert(st2.3[k] == st.3[k]);
                }
                assert forall|k: int| 0 <= k < n && (#[trigger] st2.3[k]) is Some implies st2.0.contains_key(
                    st2.3[k]->0,
                ) by {
                    assert(st2.3[k] == st.3[k]);
                }
                assert forall|k: int|
                    0 <= k < n && (#[trigger] explicit_anchor(events[k])) is Some implies st2.0.contains_key(
                    explicit_anchor(events[k])->0,
                ) by {
                    if k < i {
                        assert(st.0.contains_key(explicit_anchor(events[k])->0));
                    }
                }
                assert forall|a: int, b: int|
                    0 <= a < n && 0 <= b < n && a != b && (#[trigger] st2.3[a]) is Some
                        && (#[trigger] st2.3[b]) is Some implies st2.3[a] != st2.3[b] by {
                    assert(st2.3[a] == st.3[a] && st2.3[b] == st.3[b]);
                }
                assert forall|k: int, j: int|
                    0 <= k < j < n && (#[trigger] st2.3[j]) is Some && (#[trigger] explicit_anchor(
                        events[k],
                    )) is Some implies st2.3[j]->0 != explicit_anchor(events[k])->0 by {
                    assert(st2.3[j] == st.3[j]);
                }
            },
            HeadingMark::Start(None) => {
                assert(st2.3 == st.3.push(None));
                assert forall|k: int| 0 <= k < n && (#[trigger] st2.3[k]) is Some implies events[k]
                    == HeadingMark::Start(None) by {
                    assert(st2.3[k] == st.3[k]);
                }
                assert forall|k: int| 0 <= k < n && (#[trigger] st2.3[k]) is Some implies st2.0.contains_key(
                    st2.3[k]->0,
                ) by {
                    assert(st2.3[k] == st.3[k]);
                }
                assert forall|a: int, b: int|
                    0 <= a < n && 0 <= b < n && a != b && (#[trigger] st2.3[a]) is Some
                        && (#[trigger] st2.3[b]) is Some implies st2.3[a] != st2.3[b] by {
                    assert(st2.3[a] == st.3[a] && st2.3[b] == st.3[b]);
                }
                assert forall|k: int, j: int|
                    0 <= k < j < n && (#[trigger] st2.3[j]) is Some && (#[trigger] explicit_anchor(
                        events[k],
                    )) is Some implies st2.3[j]->0 != explicit_anchor(events[k])->0 by {
                    assert(st2.3[j] == st.3[j]);
                }
            },
            HeadingMark::End => {
                match st.1 {
                    Some(j) => {
                        let (slug, seen2) = slug_step(st.0, st.2);
                        lemma_slug_step_keeps(st.0, st.2);
                        lemma_slug_is_fresh(st.0, st.2);
                        let ids2 = if slug.len() > 0 {
                            st.3.update(j, Some(slug))
                        } else {
                            st.3
                        };
                        assert(st2.3 == ids2.push(None));
                        assert(st2.0 == seen2);
                        assert forall|k: int| 0 <= k < n && (#[trigger] st2.3[k]) is Some implies events[k]
                            == HeadingMark::Start(None) by {
                            if k != j || slug.len() == 0 {
                                assert(st2.3[k] == st.3[k]);
                            }
                        }
                        assert forall|k: int| 0 <= k < n && (#[trigger] st2.3[k]) is Some implies st2.0.contains_key(
                            st2.3[k]->0,
                        ) by {
                            if k != j || slug.len() == 0 {
                                assert(st2.3[k] == st.3[k]);
                                assert(st.0.contains_key(st.3[k]->0));
                            }
                        }
                        assert forall|a: int, b: int|
                            0 <= a < n && 0 <= b < n && a != b && (#[trigger] st2.3[a]) is Some
                                && (#[trigger] st2.3[b]) is Some implies st2.3[a] != st2.3[b] by {
                            if slug.len() > 0 && a == j {
                                assert(st2.3[b] == st.3[b]);
                                assert(st.0.contains_key(st.3[b]->0));
                            } else if slug.len() > 0 && b == j {
                                assert(st2.3[a] == st.3[a]);
                                assert(st.0.contains_key(st.3[a]->0));
                            } else {
                                assert(st2.3[a] == st.3[a] && st2.3[b] == st.3[b]);
                            }
                        }
                        assert forall|k: int|
                            0 <= k < n && (#[trigger] explicit_anchor(events[k])) is Some implies st2.0.contains_key(
                            explicit_anchor(events[k])->0,
                        ) by {
                            assert(st.0.contains_key(explicit_anchor(events[k])->0));
                        }
                        assert forall|k: int, jj: int|
                            0 <= k < jj < n && (#[trigger] st2.3[jj]) is Some && (#[trigger] explicit_anchor(
                                events[k],
                            )) is Some implies st2.3[jj]->0 != explicit_anchor(events[k])->0 by {
                            if slug.len() > 0 && jj == j {
                                assert(st.0.contains_key(explicit_anchor(events[k])->0));
                            } else {
                                assert(st2.3[jj] == st.3[jj]);
                            }
                        }
                    },
                    None => {
                        assert(st2.3 == st.3.push(None));
                assert forall|k: int| 0 <= k < n && (#[trigger] st2.3[k]) is Some implies events[k]
                    == HeadingMark::Start(None) by {
                    assert(st2.3[k] == st.3[k]);
                }
                        assert forall|k: int| 0 <= k < n && (#[trigger] st2.3[k]) is Some implies st2.0.contains_key(
                            st2.3[k]->0,
                        ) by {
                            assert(st2.3[k] == st.3[k]);
                        }
                        assert forall|a: int, b: int|
                            0 <= a < n && 0 <= b < n && a != b && (#[trigger] st2.3[a]) is Some
                                && (#[trigger] st2.3[b]) is Some implies st2.3[a] != st2.3[b] by {
                            assert(st2.3[a] == st.3[a] && st2.3[b] == st.3[b]);
                        }
                        assert forall|k: int, j: int|
                            0 <= k < j < n && (#[trigger] st2.3[j]) is Some && (#[trigger] explicit_anchor(
                                events[k],
                            )) is Some implies st2.3[j]->0 != explicit_anchor(events[k])->0 by {
                            assert(st2.3[j] == st.3[j]);
                        }
                    },
                }
            },
            _ => {
                assert(st2.3 == st.3.push(None));
                assert forall|k: int| 0 <= k < n && (#[trigger] st2.3[k]) is Some implies events[k]
                    == HeadingMark::Start(None) by {
                    assert(st2.3[k] == st.3[k]);
                }
                assert forall|k: int| 0 <= k < n && (#[trigger] st2.3[k]) is Some implies st2.0.contains_key(
                    st2.3[k]->0,
                ) by {
                    assert(st2.3[k] == st.3[k]);
                }
                assert forall|a: int, b: int|
                    0 <= a < n && 0 <= b < n && a != b && (#[trigger] st2.3[a]) is Some
                        && (#[trigger] st2.3[b]) is Some implies st2.3[a] != st2.3[b] by {
                    assert(st2.3[a] == st.3[a] && st2.3[b] == st.3[b]);
                }
                assert forall|k: int, j: int|
                    0 <= k < j < n && (#[trigger] st2.3[j]) is Some && (#[trigger] explicit_anchor(
                        events[k],
                    )) is Some implies st2.3[j]->0 != explicit_anchor(events[k])->0 by {
                    assert(st2.3[j] == st.3[j]);
                }
            },
        }
    }
}

/// Headings get unique anchors: no two automatic heading ids of a document are equal, and
/// an automatic id never repeats an explicit `{#anchor}` that comes before its heading.
pub proof fn lemma_heading_ids_distinct(events: Seq<HeadingMark>)
    ensures
        forall|a: int, b: int|
            0 <= a < b < events.len() && (#[trigger] heading_ids_spec(events)[a]) is Some
                && (#[trigger] heading_ids_spec(events)[b]) is Some ==> heading_ids_spec(events)[a]
                != heading_ids_spec(events)[b],
        forall|k: int, j: int|
            0 <= k < j < events.len() && (#[trigger] heading_ids_spec(events)[j]) is Some && (
            #[trigger] explicit_anchor(events[k])) is Some ==> heading_ids_spec(events)[j]->0
                != explicit_anchor(events[k])->0,
{
    lemma_scan_inv(events, events.len());
}

/// Ids go to heading starts only: there is one entry per event, and an entry is set only
/// where the event is the start of a heading without an explicit `{#anchor}`.
pub proof fn lemma_heading_ids_at_starts(events: Seq<HeadingMark>)
    ensures
        heading_ids_spec(events).len() == events.len(),
        forall|k: int|
            0 <= k < events.len() && (#[trigger] heading_ids_spec(events)[k]) is Some
                ==> events[k] == HeadingMark::Start(None),
{
    lemma_scan_inv(events, events.len());
}

// ---------------------------------------------------------------------------
// Rendering
// ---------------------------------------------------------------------------

/// The heading-related events that `pulldown_cmark::Parser::new_ext` with all extensions
/// produces for a Markdown text, one per parser event.
pub uninterp spec fn markdown_heading_events(text: Seq<char>) -> Seq<HeadingMark>;

/// The HTML that `pulldown_cmark::html::push_html` writes for the events of a Markdown text
/// (all extensions on), where `ids` runs alongside the events by position and the `i`-th
/// event, a heading start whenever `ids[i]` is set, carries that id.
pub uninterp spec fn markdown_html(text: Seq<char>, ids: Seq<Option<Seq<char>>>) -> Seq<char>;

/// The plain forms of a list of optional ids.
pub open spec fn id_views(ids: Seq<Option<String>>) -> Seq<Option<Seq<char>>> {
    ids.map_values(|x: Option<String>| match x {
        Some(s) => Some(s@),
        None => None,
    })
}

/// Parses a Markdown text with `pulldown_cmark::Parser::new_ext` (all extensions) and
/// converts each event: heading starts with their explicit id, heading ends, text, inline
/// code, inline math and display math with their content, and every other event as
/// `Other`. The result is named.
#[verifier::external_body]
fn parse_heading_events(text: &str) -> (e: Vec<HeadingEvent>)
    ensures
        heading_marks(e@) == markdown_heading_events(text@),
{
    Parser::new_ext(text, Options::all()).map(|ev| match ev {
        Event::Start(Tag::Heading { id, .. }) => HeadingEvent::Start { id: id.map(|s| s.to_string()) },
        Event::End(TagEnd::Heading(_)) => HeadingEvent::End,
        Event::Text(t) => HeadingEvent::Text(t.to_string()),
        Event::Code(t) => HeadingEvent::Code(t.to_string()),
        Event::InlineMath(t) => HeadingEvent::InlineMath(t.to_string()),
        Event::DisplayMath(t) => HeadingEvent::DisplayMath(t.to_string()),
        _ => HeadingEvent::Other,
    }).collect()
}

/// Parses a Markdown text again, sets the id of each heading start whose entry of `ids` is
/// set, and writes the events as HTML with `pulldown_cmark::html::push_html`. The entries of
/// `ids` stand by position for the events that `parse_heading_events` reports for the same
/// text, and each set entry stands at a heading start. The result is named.
#[verifier::external_body]
fn render_markdown(text: &str, ids: &Vec<Option<String>>) -> (html: String)
    requires
        ids@.len() == markdown_heading_events(text@).len(),
        forall|i: int|
            0 <= i < ids@.len() && (#[trigger] ids@[i]) is Some ==> markdown_heading_events(
                text@,
            )[i] == HeadingMark::Start(None),
    ensures
        html@ == markdown_html(text@, id_views(ids@)),
{
    let mut events: Vec<Event> = Parser::new_ext(text, Options::all()).collect();
    for (event, id) in events.iter_mut().zip(ids.iter()) {
        if let (Event::Start(Tag::Heading { id: slot, .. }), Some(slug)) = (event, id) {
            *slot = Some(CowStr::from(slug.clone()));
        }
    }
    let mut html = String::new();
    pulldown_cmark::html::push_html(&mut html, events.into_iter());
    html
}

/// Converts Markdown to HTML, giving each heading without an explicit `{#anchor}` an id
/// derived from its text (unique within the document).
pub fn markdown_to_html(text: &str) -> (html: String)
    requires
        markdown_heading_events(text@).len() < 0x8000_0000,
    ensures
        html@ == markdown_html(text@, heading_ids_spec(markdown_heading_events(text@))),
{
    let events = parse_heading_events(text);
    let ids = assign_heading_ids(events.as_slice());
    proof {
        assert(heading_marks(events@).len() == events@.len());
        lemma_scan_inv(heading_marks(events@), events@.len());
        assert forall|i: int| 0 <= i < ids@.len() implies #[trigger] id_views(ids@)[i]
            == heading_ids_spec(heading_marks(events@))[i] by {
            match ids@[i] {
                Some(x) => {},
                None => {},
            }
        }
        assert(id_views(ids@) =~= heading_ids_spec(heading_marks(events@)));
        lemma_heading_ids_at_starts(heading_marks(events@));
        assert forall|i: int| 0 <= i < ids@.len() && (#[trigger] ids@[i]) is Some implies markdown_heading_events(
            text@,
        )[i] == HeadingMark::Start(None) by {
            assert(id_views(ids@)[i] is Some);
        }
    }
    render_markdown(text, &ids)
}

/// [`markdown_to_html`] for any text: `None` when the document has so many events that the
/// heading counters could run out (at least 2^31).
pub fn markdown_to_html_checked(text: &str) -> (html: Option<String>)
    ensures
        markdown_heading_events(text@).len() < 0x8000_0000 ==> (html matches Some(h) && h@
            == markdown_html(text@, heading_ids_spec(markdown_heading_events(text@)))),
        markdown_heading_events(text@).len() >= 0x8000_0000 ==> html is None,
{
    let events = parse_heading_events(text);
    if events.len() >= 0x8000_0000 {
        return None;
    }
    Some(markdown_to_html(text))
}

} // verus!
