//! The paging and tail-view logic of the system journal view.
//!
//! The journal is read in pages bounded by cursors. The view keeps the cursors of the
//! loaded range, decides which page to request next from where the user scrolled to,
//! and merges loaded pages into its buffer.
use vstd::prelude::*;

use crate::text::{
    padded_spec, push_chars, push_decimal, push_padded, push_str, str_chars, string_from_chars,
};

verus! {

/// Number of entries requested when loading the initial page or a page above.
pub const ENTRIES_LOAD_NUM: usize = 500;

/// Distance in pixels from the top or bottom edge that counts as being at that edge.
pub const LOAD_ZONE: i32 = 50;

/// A record of the structured reader output.
pub enum JournalRecord {
    /// A cursor bounding the page.
    Cursor(String),
    /// A boot boundary, with its realtime timestamp.
    Reboot(u64),
    /// The host name of the following lines.
    Host(String),
    /// Syslog identifiers seen in the range.
    Identifiers(Vec<String>),
    /// Units seen in the range.
    Units(Vec<String>),
    /// A log line.
    Line(LineRecord),
}

/// A log line of the structured reader output.
pub struct LineRecord {
    /// Realtime microseconds since the epoch.
    pub t: u64,
    /// Syslog identifier.
    pub id: String,
    /// Process id, if known.
    pub pid: Option<u64>,
    /// The message.
    pub msg: String,
    /// Syslog priority, 0 (emerg) .. 7 (debug).
    pub p: u8,
}

/// Buffered journal content, in the shape of the reader mode.
pub enum Content {
    /// Plain text lines.
    Legacy(Vec<String>),
    /// Structured records.
    Structured(Vec<JournalRecord>),
}

/// Where the view is scrolled to, or what kind of page a response is.
#[derive(Clone, Copy, PartialEq, Eq, Structural, Debug)]
pub enum Position {
    Initial,
    Bottom,
    Top,
    Middle,
}

/// The next request to send.
pub enum JournalRequest {
    /// The last `n` entries.
    Initial(usize),
    /// Everything after the given end cursor.
    Bottom(String),
    /// The `n` entries before the given start cursor.
    Top(usize, String),
}

/// Why a structured response could not be used.
#[derive(Clone, Copy, PartialEq, Eq, Structural, Debug)]
pub enum SplitError {
    /// The first record was not a cursor.
    MissingStartCursor,
    /// The last record was not a cursor.
    MissingEndCursor,
}

/// Strips the leading and trailing cursor lines from a plain response.
///
/// A response with at most two lines (empty, or the two cursors only) carries no page: it
/// gives no lines and no cursors.
pub fn split_legacy(lines: Vec<String>) -> (r: (Vec<String>, Option<(String, String)>))
    ensures
        lines@.len() <= 2 ==> r.0@ == Seq::<String>::empty() && r.1 is None,
        lines@.len() > 2 ==> r.0@ == lines@.subrange(1, lines@.len() - 1) && r.1 == Some(
            (lines@[0], lines@[lines@.len() - 1]),
        ),
{
    let mut lines = lines;
    if lines.len() <= 2 {
        return (Vec::new(), None);
    }
    let ghost orig = lines@;
    let start_cursor = lines.remove(0);
    let end_cursor = lines.pop().unwrap();
    assert(lines@ == orig.subrange(1, orig.len() - 1));
    (lines, Some((start_cursor, end_cursor)))
}

/// The cursor of a record, if it is a cursor record.
pub open spec fn cursor_of(r: JournalRecord) -> Option<String> {
    match r {
        JournalRecord::Cursor(c) => Some(c),
        _ => None,
    }
}

/// Strips the leading and trailing cursor records from a structured response.
///
/// Fewer than two records carry no page. Otherwise the first and the last record must be
/// cursors; the records between them are the page. A response of the two cursors only
/// carries no page either: it gives no records and no cursors.
pub fn split_structured(records: Vec<JournalRecord>) -> (r: Result<
    (Vec<JournalRecord>, Option<(String, String)>),
    SplitError,
>)
    ensures
        records@.len() < 2 ==> (r matches Ok((body, None)) && body@ == Seq::<
            JournalRecord,
        >::empty()),
        records@.len() >= 2 ==> match r {
            Ok((body, cursors)) => cursor_of(records@[0]) is Some && cursor_of(
                records@[records@.len() - 1],
            ) is Some && body@ == records@.subrange(1, records@.len() - 1) && cursors == if records@.len()
                == 2 {
                None
            } else {
                Some((cursor_of(records@[0])->0, cursor_of(records@[records@.len() - 1])->0))
            },
            Err(SplitError::MissingStartCursor) => cursor_of(records@[0]) is None,
            Err(SplitError::MissingEndCursor) => cursor_of(records@[0]) is Some && cursor_of(
                records@[records@.len() - 1],
            ) is None,
        },
{
    let mut records = records;
    if records.len() < 2 {
        return Ok((Vec::new(), None));
    }
    let ghost orig = records@;
    let last_index = records.len() - 1;
    let start_cursor = match &records[0] {
        JournalRecord::Cursor(c) => c.clone(),
        _ => {
            return Err(SplitError::MissingStartCursor);
        },
    };
    let end_cursor = match &records[last_index] {
        JournalRecord::Cursor(c) => c.clone(),
        _ => {
            return Err(SplitError::MissingEndCursor);
        },
    };
    records.pop();
    records.remove(0);
    assert(records@ == orig.subrange(1, orig.len() - 1));
    if last_index == 1 {
        return Ok((records, None));
    }
    Ok((records, Some((start_cursor, end_cursor))))
}

/// The position the view is at after a scroll event, from the scroll offset, the visible
/// height and the total height.
pub open spec fn scroll_position(scroll_top: int, height: int, scroll_height: int) -> Position {
    if scroll_height - (scroll_top + height) <= LOAD_ZONE {
        Position::Bottom
    } else if scroll_top < LOAD_ZONE {
        Position::Top
    } else {
        Position::Middle
    }
}

/// What the view does after a scroll event.
#[derive(Clone, Copy, PartialEq, Eq, Structural, Debug)]
pub enum ScrollAction {
    /// Try to load the next page.
    Load,
    /// Stop the pending tail-view poll.
    CancelPoll,
    /// Nothing.
    Nothing,
}

/// The paging state of a journal view.
pub struct JournalState {
    /// Start and end cursor of the loaded range.
    pub cursors: Option<(String, String)>,
    /// The loaded content.
    pub content: Content,
    /// Where the view is scrolled to.
    pub position: Position,
    /// Whether a load is scheduled or running.
    pub loading: bool,
    /// The total height at the last scroll event.
    pub old_scroll_height: i32,
    /// Whether the view is visible.
    pub visible: bool,
    /// The error of the last failed load, shown to the user.
    pub last_error: Option<String>,
}

/// What the view does after a loaded (or empty) page: whether it redraws, the loading
/// change it reports (`(loading, tail view)`), and whether it loads again.
pub struct PageStep {
    /// Whether the view redraws.
    pub redraw: bool,
    /// The loading change reported to the listener: loading stopped, and whether the view
    /// is in tail view.
    pub loading_change: (bool, bool),
    /// Whether the view loads again (it polls in tail view).
    pub load_again: bool,
}

/// What the view does after a scroll event: the action, and whether it redraws (it does
/// not).
pub struct ScrollStep {
    pub action: ScrollAction,
    pub redraw: bool,
}

/// The request and delay (in milliseconds) that `load` chooses, and the position it moves to.
pub open spec fn load_decision(
    position: Position,
    cursors: Option<(String, String)>,
) -> Option<(JournalRequest, u32, Position)> {
    match cursors {
        None => Some((JournalRequest::Initial(ENTRIES_LOAD_NUM), 0, Position::Bottom)),
        Some((start, end)) => match position {
            Position::Bottom => Some((JournalRequest::Bottom(end), 1000, position)),
            Position::Top => Some((JournalRequest::Top(ENTRIES_LOAD_NUM, start), 0, position)),
            _ => None,
        },
    }
}

/// The sequences of a content value: whether it is plain text, its lines, its records.
pub open spec fn content_lines(c: Content) -> (bool, Seq<String>, Seq<JournalRecord>) {
    match c {
        Content::Legacy(x) => (true, x@, Seq::empty()),
        Content::Structured(x) => (false, Seq::empty(), x@),
    }
}

/// `a` followed by `b`, when both have the same reader mode; otherwise `a`.
pub open spec fn content_after(a: Content, b: Content) -> (bool, Seq<String>, Seq<JournalRecord>) {
    match (a, b) {
        (Content::Legacy(x), Content::Legacy(y)) => (true, x@ + y@, Seq::empty()),
        (Content::Structured(x), Content::Structured(y)) => (false, Seq::empty(), x@ + y@),
        (a, _) => content_lines(a),
    }
}

/// `b` followed by `a`, when both have the same reader mode; otherwise `a`.
pub open spec fn content_before(a: Content, b: Content) -> (bool, Seq<String>, Seq<JournalRecord>) {
    match (a, b) {
        (Content::Legacy(x), Content::Legacy(y)) => (true, y@ + x@, Seq::empty()),
        (Content::Structured(x), Content::Structured(y)) => (false, Seq::empty(), y@ + x@),
        (a, _) => content_lines(a),
    }
}

/// A page loaded from the top goes in front of the buffer, one from the bottom after it, in
/// either reader mode: prepending the page `y` to the buffer `x` gives the page's records
/// (or lines) followed by the old ones, and appending gives the old ones followed by the page.
pub proof fn lemma_pages_merge_in_order(
    x: Vec<JournalRecord>,
    y: Vec<JournalRecord>,
    lx: Vec<String>,
    ly: Vec<String>,
)
    ensures
        ({
            let before = content_before(Content::Structured(x), Content::Structured(y));
            &&& before.2 == y@ + x@
            &&& before.2.take(y@.len() as int) == y@
            &&& before.2.skip(y@.len() as int) == x@
            &&& !before.0 && before.1.len() == 0
        }),
        content_after(Content::Structured(x), Content::Structured(y)).2 == x@ + y@,
        ({
            let before = content_before(Content::Legacy(lx), Content::Legacy(ly));
            &&& before.1 == ly@ + lx@
            &&& before.1.take(ly@.len() as int) == ly@
            &&& before.1.skip(ly@.len() as int) == lx@
            &&& before.0 && before.2.len() == 0
        }),
        content_after(Content::Legacy(lx), Content::Legacy(ly)).1 == lx@ + ly@,
{
    assert((y@ + x@).take(y@.len() as int) =~= y@);
    assert((y@ + x@).skip(y@.len() as int) =~= x@);
    assert((ly@ + lx@).take(ly@.len() as int) =~= ly@);
    assert((ly@ + lx@).skip(ly@.len() as int) =~= lx@);
}

impl JournalState {
    /// A fresh state, in structured or plain mode.
    pub fn new(structured: bool) -> (s: Self)
        ensures
            s.cursors is None,
            s.position == Position::Initial,
            !s.loading,
            s.old_scroll_height == 0,
            s.visible,
            s.last_error is None,
            content_lines(s.content) == (
                !structured,
                Seq::<String>::empty(),
                Seq::<JournalRecord>::empty(),
            ),
    {
        let content = if structured {
            Content::Structured(Vec::new())
        } else {
            Content::Legacy(Vec::new())
        };
        JournalState {
            cursors: None,
            content,
            position: Position::Initial,
            loading: false,
            old_scroll_height: 0,
            visible: true,
            last_error: None,
        }
    }

    /// Decides the next request. Nothing is requested while a load is pending, nor when the
    /// view is in the middle of the buffer; without cursors the view starts at the bottom.
    pub fn load(&mut self) -> (r: Option<(JournalRequest, u32)>)
        ensures
            old(self).loading ==> r is None && *final(self) == *old(self),
            !old(self).loading ==> match load_decision(old(self).position, old(self).cursors) {
                Some((req, delay, pos)) => r == Some((req, delay)) && final(self).loading
                    && final(self).position == pos && final(self).cursors == old(self).cursors
                    && final(self).content == old(self).content && final(self).old_scroll_height
                    == old(self).old_scroll_height && final(self).visible == old(self).visible
                    && final(self).last_error == old(self).last_error,
                None => r is None && *final(self) == *old(self),
            },
    {
        if self.loading {
            return None;
        }
        let (request, delay) = match (&self.position, &self.cursors) {
            (_, None) => {
                self.position = Position::Bottom;
                (JournalRequest::Initial(ENTRIES_LOAD_NUM), 0u32)
            },
            (Position::Bottom, Some((_, end))) => (JournalRequest::Bottom(end.clone()), 1000u32),
            (Position::Top, Some((start, _))) => (
                JournalRequest::Top(ENTRIES_LOAD_NUM, start.clone()),
                0u32,
            ),
            (Position::Initial, Some(_)) => {
                return None;
            },
            (Position::Middle, Some(_)) => {
                return None;
            },
        };
        self.loading = true;
        Some((request, delay))
    }

    /// A poll returned no usable entries. The cursors and content are kept; the view does not
    /// redraw, reports that loading stopped, and polls again in tail view.
    pub fn empty_loaded(&mut self) -> (step: PageStep)
        ensures
            !step.redraw,
            step.loading_change == (false, old(self).position == Position::Bottom),
            step.load_again == (old(self).position == Position::Bottom),
            !final(self).loading,
            final(self).cursors == old(self).cursors,
            final(self).content == old(self).content,
            final(self).position == old(self).position,
            final(self).old_scroll_height == old(self).old_scroll_height,
            final(self).visible == old(self).visible,
            final(self).last_error == old(self).last_error,
    {
        self.loading = false;
        let tail = self.position == Position::Bottom;
        PageStep { redraw: false, loading_change: (false, tail), load_again: tail }
    }

    /// Merges a loaded page. An initial page replaces the buffer, a page from the bottom is
    /// appended and keeps the old start cursor, a page from the top is prepended and keeps
    /// the old end cursor. The view redraws, reports that loading stopped, and polls again in
    /// tail view.
    pub fn page_loaded(
        &mut self,
        start_cursor: String,
        end_cursor: String,
        content: Content,
        response_type: Position,
    ) -> (step: PageStep)
        ensures
            step.redraw,
            step.loading_change == (false, old(self).position == Position::Bottom),
            step.load_again == (old(self).position == Position::Bottom),
            !final(self).loading,
            final(self).position == old(self).position,
            final(self).old_scroll_height == old(self).old_scroll_height,
            final(self).visible == old(self).visible,
            final(self).last_error == old(self).last_error,
            response_type == Position::Initial ==> final(self).cursors == Some(
                (start_cursor, end_cursor),
            ) && final(self).content == content,
            response_type == Position::Bottom ==> final(self).cursors == Some(
                (
                    match old(self).cursors {
                        Some((s, _)) => s,
                        None => start_cursor,
                    },
                    end_cursor,
                ),
            ) && content_lines(final(self).content) == content_after(
                old(self).content,
                content,
            ),
            response_type == Position::Top ==> final(self).cursors == Some(
                (
                    start_cursor,
                    match old(self).cursors {
                        Some((_, e)) => e,
                        None => end_cursor,
                    },
                ),
            ) && content_lines(final(self).content) == content_before(
                old(self).content,
                content,
            ),
            response_type == Position::Middle ==> final(self).cursors is None
                && final(self).content == old(self).content,
    {
        self.loading = false;
        let (old_start, old_end) = match self.cursors.take() {
            Some((start, end)) => (Some(start), Some(end)),
            None => (None, None),
        };
        match response_type {
            Position::Initial => {
                self.cursors = Some((start_cursor, end_cursor));
                self.content = content;
            },
            Position::Bottom => {
                let start = match old_start {
                    Some(s) => s,
                    None => start_cursor,
                };
                self.cursors = Some((start, end_cursor));
                self.append(content);
            },
            Position::Top => {
                let end = match old_end {
                    Some(e) => e,
                    None => end_cursor,
                };
                self.cursors = Some((start_cursor, end));
                self.prepend(content);
            },
            Position::Middle => {},
        }
        let tail = self.position == Position::Bottom;
        PageStep { redraw: true, loading_change: (false, tail), load_again: tail }
    }

    /// A load failed: the error is kept to be shown and the view redraws. The pending load
    /// stays marked, so no further load starts until it is cancelled.
    pub fn load_failed(&mut self, error: String) -> (redraw: bool)
        ensures
            redraw,
            final(self).last_error == Some(error),
            final(self).loading == old(self).loading,
            final(self).cursors == old(self).cursors,
            final(self).content == old(self).content,
            final(self).position == old(self).position,
            final(self).old_scroll_height == old(self).old_scroll_height,
            final(self).visible == old(self).visible,
    {
        self.last_error = Some(error);
        true
    }

    /// Appends a page to the buffer (the reader mode of a view never changes).
    pub fn append(&mut self, content: Content)
        ensures
            content_lines(final(self).content) == content_after(
                old(self).content,
                content,
            ),
            final(self).cursors == old(self).cursors,
            final(self).position == old(self).position,
            final(self).loading == old(self).loading,
            final(self).old_scroll_height == old(self).old_scroll_height,
            final(self).visible == old(self).visible,
            final(self).last_error == old(self).last_error,
    {
        match (&mut self.content, content) {
            (Content::Legacy(existing), Content::Legacy(mut new)) => existing.append(&mut new),
            (Content::Structured(existing), Content::Structured(mut new)) => existing.append(
                &mut new,
            ),
            _ => {},
        }
    }

    /// Prepends a page to the buffer.
    pub fn prepend(&mut self, content: Content)
        ensures
            content_lines(final(self).content) == content_before(
                old(self).content,
                content,
            ),
            final(self).cursors == old(self).cursors,
            final(self).position == old(self).position,
            final(self).loading == old(self).loading,
            final(self).old_scroll_height == old(self).old_scroll_height,
            final(self).visible == old(self).visible,
            final(self).last_error == old(self).last_error,
    {
        match (&mut self.content, content) {
            (Content::Legacy(existing), Content::Legacy(mut new)) => {
                new.append(existing);
                *existing = new;
            },
            (Content::Structured(existing), Content::Structured(mut new)) => {
                new.append(existing);
                *existing = new;
            },
            _ => {},
        }
    }

    /// Handles a scroll event: moves to the top, bottom or middle. Moving between the edges
    /// loads; leaving the bottom for the middle stops the tail-view poll. A scroll event
    /// needs no redraw.
    pub fn scrolled(&mut self, scroll_top: i32, height: i32, scroll_height: i32) -> (step:
        ScrollStep)
        requires
            i32::MIN <= scroll_top + height <= i32::MAX,
            i32::MIN <= scroll_height - (scroll_top + height) <= i32::MAX,
        ensures
            final(self).position == scroll_position(
                scroll_top as int,
                height as int,
                scroll_height as int,
            ),
            final(self).old_scroll_height == scroll_height,
            final(self).cursors == old(self).cursors,
            final(self).content == old(self).content,
            final(self).loading == old(self).loading,
            final(self).visible == old(self).visible,
            final(self).last_error == old(self).last_error,
            !step.redraw,
            step.action == (if final(self).position != Position::Middle && old(self).position
                != Position::Middle {
                ScrollAction::Load
            } else if final(self).position == Position::Middle && old(self).position
                == Position::Bottom {
                ScrollAction::CancelPoll
            } else {
                ScrollAction::Nothing
            }),
    {
        let old_position = self.position;
        self.position = if scroll_height - (scroll_top + height) <= LOAD_ZONE {
            Position::Bottom
        } else if scroll_top < LOAD_ZONE {
            Position::Top
        } else {
            Position::Middle
        };
        self.old_scroll_height = scroll_height;
        let action = if self.position != Position::Middle && old_position != Position::Middle {
            ScrollAction::Load
        } else if self.position == Position::Middle && old_position == Position::Bottom {
            ScrollAction::CancelPoll
        } else {
            ScrollAction::Nothing
        };
        ScrollStep { action, redraw: false }
    }

    /// A cancelled poll: the pending load is dropped.
    pub fn cancel_poll(&mut self)
        ensures
            !final(self).loading,
            final(self).cursors == old(self).cursors,
            final(self).content == old(self).content,
            final(self).position == old(self).position,
            final(self).old_scroll_height == old(self).old_scroll_height,
            final(self).visible == old(self).visible,
            final(self).last_error == old(self).last_error,
    {
        self.loading = false;
    }

    /// The view became visible or hidden. Returns whether this changed anything and, when it
    /// became visible, that it should load; hiding drops the pending load.
    pub fn visibility_changed(&mut self, visible: bool) -> (r: (bool, bool))
        ensures
            r.0 == (old(self).visible != visible),
            r.1 == (r.0 && visible),
            final(self).visible == visible,
            r.0 && !visible ==> !final(self).loading,
            !(r.0 && !visible) ==> final(self).loading == old(self).loading,
            final(self).cursors == old(self).cursors,
            final(self).content == old(self).content,
            final(self).position == old(self).position,
            final(self).old_scroll_height == old(self).old_scroll_height,
    {
        let changed = self.visible != visible;
        self.visible = visible;
        if changed && !visible {
            self.loading = false;
        }
        (changed, changed && visible)
    }

    /// The scroll offset to restore after rendering: the bottom in tail view, the old offset
    /// from the top after a page was prepended, nothing otherwise.
    pub fn scroll_after_render(&self, scroll_height: i32) -> (r: Option<i32>)
        requires
            i32::MIN <= scroll_height - self.old_scroll_height <= i32::MAX,
        ensures
            self.position == Position::Bottom ==> r == Some(scroll_height),
            self.position == Position::Top ==> r == Some(
                (scroll_height - self.old_scroll_height) as i32,
            ),
            self.position == Position::Initial || self.position == Position::Middle ==> r is None,
    {
        match self.position {
            Position::Bottom => Some(scroll_height),
            Position::Top => Some(scroll_height - self.old_scroll_height),
            _ => None,
        }
    }
}

// ---------------------------------------------------------------------------
// Rendering of structured records
// ---------------------------------------------------------------------------

/// `n` spaces.
pub open spec fn spaces(n: nat) -> Seq<char> {
    Seq::new(n, |i: int| ' ')
}

/// `msg` with every line break followed by `indent`.
pub open spec fn indent_lines(msg: Seq<char>, indent: Seq<char>) -> Seq<char>
    decreases msg.len(),
{
    if msg.len() == 0 {
        Seq::empty()
    } else {
        indent_lines(msg.drop_last(), indent) + if msg.last() == '\n' {
            seq!['\n'] + indent
        } else {
            seq![msg.last()]
        }
    }
}

/// The prefix of a log line: `"{timestamp} {host} {identifier}[{pid}]: "`, where the host
/// part and the pid part are left out when unknown.
pub open spec fn line_prefix(
    timestamp: Seq<char>,
    host: Option<Seq<char>>,
    id: Seq<char>,
    pid: Option<u64>,
) -> Seq<char> {
    timestamp + seq![' '] + match host {
        Some(h) => h + seq![' '],
        None => Seq::empty(),
    } + id + match pid {
        Some(p) => seq!['['] + crate::text::decimal_spec(p as nat) + seq![']'],
        None => Seq::empty(),
    } + seq![':', ' ']
}

/// The text of a log line: the prefix, the message with continuation lines aligned under
/// its start, and a line break.
pub open spec fn line_text_spec(
    timestamp: Seq<char>,
    host: Option<Seq<char>>,
    id: Seq<char>,
    pid: Option<u64>,
    msg: Seq<char>,
) -> Seq<char> {
    let prefix = line_prefix(timestamp, host, id, pid);
    prefix + indent_lines(msg, spaces(prefix.len())) + seq!['\n']
}

/// Renders the text of a log line; `timestamp` is the already formatted time of the line.
pub fn line_text(timestamp: &str, host: Option<&str>, line: &LineRecord) -> (r: String)
    ensures
        r@ == line_text_spec(
            timestamp@,
            match host {
                Some(h) => Some(h@),
                None => None,
            },
            line.id@,
            line.pid,
            line.msg@,
        ),
{
    let mut prefix: Vec<char> = Vec::new();
    push_str(&mut prefix, timestamp);
    prefix.push(' ');
    match host {
        Some(h) => {
            push_str(&mut prefix, h);
            prefix.push(' ');
        },
        None => {},
    }
    push_str(&mut prefix, line.id.as_str());
    match line.pid {
        Some(p) => {
            prefix.push('[');
            push_decimal(&mut prefix, p);
            prefix.push(']');
        },
        None => {},
    }
    prefix.push(':');
    prefix.push(' ');
    let ghost host_v = match host {
        Some(h) => Some(h@),
        None => None,
    };
    assert(prefix@ == line_prefix(timestamp@, host_v, line.id@, line.pid));
    let mut indent: Vec<char> = Vec::new();
    let mut k: usize = 0;
    while k < prefix.len()
        invariant
            k <= prefix.len(),
            indent@ == spaces(k as nat),
        decreases prefix.len() - k,
    {
        indent.push(' ');
        k = k + 1;
        assert(indent@ == spaces(k as nat));
    }
    let msg = str_chars(line.msg.as_str());
    let mut out: Vec<char> = Vec::new();
    push_chars(&mut out, prefix.as_slice());
    let mut i: usize = 0;
    while i < msg.len()
        invariant
            i <= msg.len(),
            msg@ == line.msg@,
            out@ == prefix@ + indent_lines(msg@.take(i as int), indent@),
        decreases msg.len() - i,
    {
        assert(msg@.take(i + 1).drop_last() == msg@.take(i as int));
        assert(msg@.take(i + 1).last() == msg@[i as int]);
        if msg[i] == '\n' {
            out.push('\n');
            push_chars(&mut out, indent.as_slice());
        } else {
            out.push(msg[i]);
        }
        i = i + 1;
    }
    assert(msg@.take(msg.len() as int) == msg@);
    out.push('\n');
    string_from_chars(out.as_slice())
}

/// How a structured record shows up in the view.
pub enum RecordDisplay {
    /// A log line: its text and its priority.
    Line(String, u8),
    /// A boot boundary separator.
    RebootSeparator,
}

/// Renders a structured record. Lines use the latest host record seen before them; host
/// records only update that host; cursors, identifiers and units show nothing.
/// `timestamp` is the formatted time of the record when it is a line.
pub fn display_record(record: &JournalRecord, host: &mut Option<String>, timestamp: &str) -> (r:
    Option<RecordDisplay>)
    ensures
        match *record {
            JournalRecord::Host(h) => *final(host) == Some(h) && r is None,
            JournalRecord::Line(l) => *final(host) == *old(host) && match r {
                Some(RecordDisplay::Line(text, p)) => p == l.p && text@ == line_text_spec(
                    timestamp@,
                    match *old(host) {
                        Some(h) => Some(h@),
                        None => None,
                    },
                    l.id@,
                    l.pid,
                    l.msg@,
                ),
                _ => false,
            },
            JournalRecord::Reboot(_) => *final(host) == *old(host) && (r matches Some(
                RecordDisplay::RebootSeparator,
            )),
            _ => *final(host) == *old(host) && r is None,
        },
{
    match record {
        JournalRecord::Line(line) => {
            let text = match host {
                Some(h) => line_text(timestamp, Some(h.as_str()), line),
                None => line_text(timestamp, None, line),
            };
            Some(RecordDisplay::Line(text, line.p))
        },
        JournalRecord::Reboot(_) => Some(RecordDisplay::RebootSeparator),
        JournalRecord::Host(h) => {
            *host = Some(h.clone());
            None
        },
        _ => None,
    }
}

// ---------------------------------------------------------------------------
// Timestamps
// ---------------------------------------------------------------------------

/// The abbreviated English name of a month counted from 0 (`Jan`), `???` out of range.
pub open spec fn month_abbrev(month: int) -> Seq<char> {
    if month == 0 {
        "Jan"@
    } else if month == 1 {
        "Feb"@
    } else if month == 2 {
        "Mar"@
    } else if month == 3 {
        "Apr"@
    } else if month == 4 {
        "May"@
    } else if month == 5 {
        "Jun"@
    } else if month == 6 {
        "Jul"@
    } else if month == 7 {
        "Aug"@
    } else if month == 8 {
        "Sep"@
    } else if month == 9 {
        "Oct"@
    } else if month == 10 {
        "Nov"@
    } else if month == 11 {
        "Dec"@
    } else {
        "???"@
    }
}

fn month_name(month: u32) -> (r: &'static str)
    ensures
        r@ == month_abbrev(month as int),
{
    if month == 0 {
        "Jan"
    } else if month == 1 {
        "Feb"
    } else if month == 2 {
        "Mar"
    } else if month == 3 {
        "Apr"
    } else if month == 4 {
        "May"
    } else if month == 5 {
        "Jun"
    } else if month == 6 {
        "Jul"
    } else if month == 7 {
        "Aug"
    } else if month == 8 {
        "Sep"
    } else if month == 9 {
        "Oct"
    } else if month == 10 {
        "Nov"
    } else if month == 11 {
        "Dec"
    } else {
        "???"
    }
}

/// `Mon DD HH:MM:SS`, the time shown in front of a journal line, from the local calendar
/// fields of its timestamp (month counted from 0).
pub open spec fn timestamp_text_spec(month: int, day: nat, hours: nat, minutes: nat, seconds: nat) -> Seq<
    char,
> {
    month_abbrev(month) + seq![' '] + padded_spec(day, 2) + seq![' '] + padded_spec(hours, 2)
        + seq![':'] + padded_spec(minutes, 2) + seq![':'] + padded_spec(seconds, 2)
}

/// Formats the time shown in front of a journal line from the local calendar fields of its
/// timestamp.
pub fn format_timestamp(month: u32, day: u32, hours: u32, minutes: u32, seconds: u32) -> (r: String)
    ensures
        r@ == timestamp_text_spec(
            month as int,
            day as nat,
            hours as nat,
            minutes as nat,
            seconds as nat,
        ),
{
    let mut out: Vec<char> = Vec::new();
    push_str(&mut out, month_name(month));
    out.push(' ');
    push_padded(&mut out, day as u64, 2);
    out.push(' ');
    push_padded(&mut out, hours as u64, 2);
    out.push(':');
    push_padded(&mut out, minutes as u64, 2);
    out.push(':');
    push_padded(&mut out, seconds as u64, 2);
    let r = string_from_chars(out.as_slice());
    assert(r@ =~= timestamp_text_spec(
        month as int,
        day as nat,
        hours as nat,
        minutes as nat,
        seconds as nat,
    ));
    r
}

} // verus!
