//! Record framing of streamed API responses.
//!
//! A streamed response is a sequence of records, each ended by the ASCII record separator
//! (`0x1E`). [`RecordReader`] collects the received bytes and hands out the records; empty
//! records are skipped. As with `read_until`, a last record without separator loses its
//! last byte (the one the separator would have been).
use vstd::prelude::*;
use crate::text::{str_chars, trim, trim_spec, utf8_decoded};
use crate::json::{jview, Json, JsonValue};

verus! {

/// The byte that ends a record.
pub const RECORD_SEPARATOR: u8 = 0x1e;

/// Position of the first separator.
pub open spec fn first_separator(s: Seq<u8>) -> Option<int> {
    if exists|i: int| 0 <= i < s.len() && s[i] == RECORD_SEPARATOR {
        Some(
            choose|i: int|
                0 <= i < s.len() && s[i] == RECORD_SEPARATOR && forall|j: int|
                    0 <= j < i ==> s[j] != RECORD_SEPARATOR,
        )
    } else {
        None
    }
}

/// What the reader does next.
pub enum Step {
    /// A record.
    Record(Seq<u8>),
    /// The record is not complete yet: more data is needed.
    NeedMore,
    /// No more records.
    End,
}

/// The next record of the buffered bytes and the bytes left after it.
pub open spec fn next_record_spec(p: Seq<u8>, eof: bool) -> (Step, Seq<u8>)
    decreases p.len(),
{
    match first_separator(p) {
        Some(i) => if i == 0 {
            next_record_spec(p.skip(1), eof)
        } else {
            (Step::Record(p.take(i)), p.skip(i + 1))
        },
        None => if !eof {
            (Step::NeedMore, p)
        } else if p.len() <= 1 {
            (Step::End, Seq::empty())
        } else {
            (Step::Record(p.drop_last()), Seq::empty())
        },
    }
}

/// What [`RecordReader::next_record`] hands out.
pub enum RecordStep {
    /// A record (without its separator).
    Record(Vec<u8>),
    /// More data is needed.
    NeedMore,
    /// The stream ended.
    End,
}

/// The received bytes not yet handed out, and whether the stream ended.
pub struct RecordReader {
    pending: Vec<u8>,
    eof: bool,
}

impl RecordReader {
    /// The bytes not yet handed out.
    pub closed spec fn pending(&self) -> Seq<u8> {
        self.pending@
    }

    /// Whether the stream ended.
    pub closed spec fn ended(&self) -> bool {
        self.eof
    }

    /// A reader that has received nothing.
    pub fn new() -> (r: Self)
        ensures
            r.pending() == Seq::<u8>::empty(),
            !r.ended(),
    {
        RecordReader { pending: Vec::new(), eof: false }
    }

    /// Adds received bytes.
    pub fn push_chunk(&mut self, chunk: &[u8])
        ensures
            final(self).pending() == old(self).pending() + chunk@,
            final(self).ended() == old(self).ended(),
    {
        let mut i: usize = 0;
        while i < chunk.len()
            invariant
                i <= chunk.len(),
                self.pending@ == old(self).pending@ + chunk@.take(i as int),
                self.eof == old(self).eof,
            decreases chunk.len() - i,
        {
            self.pending.push(chunk[i]);
            i = i + 1;
            assert(chunk@.take(i as int) == chunk@.take(i - 1).push(chunk@[i - 1]));
        }
        assert(chunk@.take(chunk.len() as int) == chunk@);
    }

    /// Marks the end of the stream.
    pub fn finish(&mut self)
        ensures
            final(self).pending() == old(self).pending(),
            final(self).ended(),
    {
        self.eof = true;
    }

    /// Hands out the next non-empty record.
    pub fn next_record(&mut self) -> (step: RecordStep)
        ensures
            ({
                let (expected, rest) = next_record_spec(old(self).pending(), old(self).ended());
                &&& final(self).pending() == rest
                &&& final(self).ended() == old(self).ended()
                &&& match step {
                    RecordStep::Record(r) => expected == Step::Record(r@),
                    RecordStep::NeedMore => expected == Step::NeedMore,
                    RecordStep::End => expected == Step::End,
                }
            }),
        decreases old(self).pending().len(),
    {
        let mut i: usize = 0;
        while i < self.pending.len()
            invariant
                i <= self.pending.len(),
                forall|j: int| 0 <= j < i ==> self.pending@[j] != RECORD_SEPARATOR,
            ensures
                i <= self.pending.len(),
                forall|j: int| 0 <= j < i ==> self.pending@[j] != RECORD_SEPARATOR,
                i < self.pending.len() ==> self.pending@[i as int] == RECORD_SEPARATOR,
            decreases self.pending.len() - i,
        {
            if self.pending[i] == RECORD_SEPARATOR {
                break;
            }
            i = i + 1;
        }
        let ghost p = self.pending@;
        if i < self.pending.len() {
            proof {
                let k = choose|k: int|
                    0 <= k < p.len() && p[k] == RECORD_SEPARATOR && forall|j: int|
                        0 <= j < k ==> p[j] != RECORD_SEPARATOR;
                assert(k == i as int) by {
                    if k < i {
                        assert(p[k] != RECORD_SEPARATOR);
                    } else if k > i {
                        assert(p[i as int] == RECORD_SEPARATOR);
                    }
                }
            }
            let mut record: Vec<u8> = Vec::new();
            let mut j: usize = 0;
            while j < i
                invariant
                    j <= i < self.pending.len(),
                    self.pending@ == p,
                    record@ == p.take(j as int),
                decreases i - j,
            {
                record.push(self.pending[j]);
                j = j + 1;
                assert(p.take(j as int) == p.take(j - 1).push(p[j - 1]));
            }
            let mut rest: Vec<u8> = Vec::new();
            let mut k: usize = i + 1;
            while k < self.pending.len()
                invariant
                    i + 1 <= k <= self.pending.len(),
                    self.pending@ == p,
                    rest@ == p.subrange(i + 1, k as int),
                decreases self.pending.len() - k,
            {
                rest.push(self.pending[k]);
                k = k + 1;
                assert(p.subrange(i + 1, k as int) == p.subrange(i + 1, k - 1).push(p[k - 1]));
            }
            assert(p.subrange(i + 1, p.len() as int) == p.skip(i + 1));
            self.pending = rest;
            if i == 0 {
                return self.next_record();
            }
            return RecordStep::Record(record);
        }
        proof {
            assert(first_separator(p) is None);
        }
        if !self.eof {
            return RecordStep::NeedMore;
        }
        let n = self.pending.len();
        if n <= 1 {
            self.pending = Vec::new();
            return RecordStep::End;
        }
        let mut record: Vec<u8> = Vec::new();
        let mut j: usize = 0;
        while j < n - 1
            invariant
                j <= n - 1,
                n == self.pending.len(),
                self.pending@ == p,
                record@ == p.take(j as int),
            decreases n - 1 - j,
        {
            record.push(self.pending[j]);
            j = j + 1;
            assert(p.take(j as int) == p.take(j - 1).push(p[j - 1]));
        }
        assert(p.take(n - 1) == p.drop_last());
        self.pending = Vec::new();
        RecordStep::Record(record)
    }
}

/// `std::str::from_utf8`: the bytes as text when they are valid UTF-8 (the text whose
/// UTF-8 encoding they are), `None` when they are not. Bytes below `0x80` decode to the
/// characters with those codes.
#[verifier::external_body]
fn utf8_text(bytes: &[u8]) -> (r: Option<String>)
    ensures
        match r {
            Some(s) => utf8_decoded(bytes@) == Some(s@),
            None => utf8_decoded(bytes@) is None,
        },
        (forall|i: int| 0 <= i < bytes@.len() ==> #[trigger] bytes@[i] < 128) ==> r is Some
            && r->0@ == bytes@.map_values(|b: u8| b as char),
{
    match std::str::from_utf8(bytes) {
        Ok(s) => Some(s.to_string()),
        Err(_) => None,
    }
}

/// Why a record cannot be read.
#[derive(Clone, Copy, PartialEq, Eq, Structural, Debug)]
pub enum RecordError {
    /// The record is not UTF-8.
    NotUtf8,
}

/// The JSON text of a record: its trimmed text, or `None` for a blank record (which the
/// readers skip).
pub fn record_text(record: &[u8]) -> (r: Result<Option<String>, RecordError>)
    ensures
        match utf8_decoded(record@) {
            None => r == Err::<Option<String>, RecordError>(RecordError::NotUtf8),
            Some(text) => if trim_spec(text).len() == 0 {
                r == Ok::<Option<String>, RecordError>(None)
            } else {
                r is Ok && r->Ok_0 is Some && r->Ok_0->0@ == trim_spec(text)
            },
        },
{
    match utf8_text(record) {
        None => Err(RecordError::NotUtf8),
        Some(s) => {
            let c = str_chars(s.as_str());
            let t = trim(c.as_slice());
            if t.len() == 0 {
                Ok(None)
            } else {
                Ok(Some(crate::text::string_from_chars(t.as_slice())))
            }
        },
    }
}

/// A non-empty record without separator bytes, sent with its separator, is handed out as it
/// was, and what follows it stays buffered.
pub proof fn lemma_framed_record(record: Seq<u8>, rest: Seq<u8>, eof: bool)
    requires
        record.len() > 0,
        forall|i: int| 0 <= i < record.len() ==> record[i] != RECORD_SEPARATOR,
    ensures
        next_record_spec(record + seq![RECORD_SEPARATOR] + rest, eof) == (Step::Record(record), rest),
{
    let p = record + seq![RECORD_SEPARATOR] + rest;
    let n = record.len() as int;
    assert(p[n] == RECORD_SEPARATOR);
    assert(forall|j: int| 0 <= j < n ==> p[j] == record[j]);
    let i = choose|i: int|
        0 <= i < p.len() && p[i] == RECORD_SEPARATOR && forall|j: int|
            0 <= j < i ==> p[j] != RECORD_SEPARATOR;
    assert(exists|i: int|
        0 <= i < p.len() && p[i] == RECORD_SEPARATOR && forall|j: int|
            0 <= j < i ==> p[j] != RECORD_SEPARATOR) by {
        assert(forall|j: int| 0 <= j < n ==> p[j] != RECORD_SEPARATOR);
    }
    assert(i == n) by {
        if i < n {
            assert(p[i] == record[i]);
        } else if i > n {
            assert(p[n] != RECORD_SEPARATOR);
        }
    }
    assert(first_separator(p) == Some(n));
    assert(p.take(n) =~= record);
    assert(p.skip(n + 1) =~= rest);
}

/// The message of an error entry of a record stream.
pub enum ErrorText {
    /// A string entry is the message as it is.
    Text(String),
    /// Any other entry is shown as its JSON text.
    Json,
}

/// The message of an error entry: a string as it is, anything else as JSON text.
pub fn record_error_text(entry: &JsonValue) -> (r: ErrorText)
    ensures
        match jview(*entry) {
            Json::Str(s) => r matches ErrorText::Text(t) && t@ == s,
            _ => r is Json,
        },
{
    match entry {
        JsonValue::Str(s) => ErrorText::Text(s.clone()),
        _ => ErrorText::Json,
    }
}

} // verus!
