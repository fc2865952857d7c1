//! The Markdown editor field: the text it holds, its validation, and the preview that
//! follows the text with a delay.
use vstd::prelude::*;
use crate::json::{get_member, jentries, jview, lemma_jentries, member, Json, JsonValue};
use crate::text::str_chars;

verus! {

/// Milliseconds the preview trails the typed text.
pub const PREVIEW_DEBOUNCE_MS: u32 = 300;

/// Which panes the editor shows.
#[derive(Clone, Copy, PartialEq, Eq, Structural, Debug)]
pub enum MarkdownViewMode {
    /// Only the text area.
    Write,
    /// Text area and preview side by side.
    Split,
    /// Only the preview.
    Preview,
}

/// The text of a field value: a string value, otherwise nothing.
pub open spec fn value_text(v: Json) -> Seq<char> {
    match v {
        Json::Str(s) => s,
        _ => Seq::empty(),
    }
}

/// The text of a field value.
pub fn value_to_text(value: &JsonValue) -> (r: String)
    ensures
        r@ == value_text(jview(*value)),
{
    match value {
        JsonValue::Str(s) => s.clone(),
        _ => String::new(),
    }
}

/// The outcome of validating the editor's value.
pub enum MarkdownCheck {
    /// The field is required and empty.
    Empty,
    /// Valid: the (empty) text.
    Valid(String),
    /// Non-empty text, to be checked by the field's own validation if it has one.
    Check(String),
}

/// Validates the editor's value: empty text is an error for a required field and valid
/// otherwise; non-empty text goes on to the field's own validation.
pub fn validate_markdown(required: bool, value: &JsonValue) -> (r: MarkdownCheck)
    ensures
        ({
            let text = value_text(jview(*value));
            if text.len() == 0 {
                if required {
                    r is Empty
                } else {
                    r is Valid && r->Valid_0@.len() == 0
                }
            } else {
                r is Check && r->Check_0@ == text
            }
        }),
{
    let text = value_to_text(value);
    if str_chars(text.as_str()).len() == 0 {
        if required {
            MarkdownCheck::Empty
        } else {
            MarkdownCheck::Valid(String::new())
        }
    } else {
        MarkdownCheck::Check(text)
    }
}

/// The preview state of the editor.
pub struct PreviewState {
    /// The panes shown.
    pub mode: MarkdownViewMode,
    /// The text the preview shows.
    pub preview_text: String,
    /// Whether a catch-up of the preview is pending.
    pub timer_pending: bool,
}

/// The editor's initial text: the forced value if there is one, else the default, else
/// nothing.
pub fn initial_text(default: Option<&str>, forced: Option<&str>) -> (r: String)
    ensures
        r@ == match forced {
            Some(f) => f@,
            None => match default {
                Some(d) => d@,
                None => Seq::<char>::empty(),
            },
        },
{
    match forced {
        Some(f) => f.to_string(),
        None => match default {
            Some(d) => d.to_string(),
            None => String::new(),
        },
    }
}

impl PreviewState {
    /// A new editor: the preview shows the initial text.
    pub fn new(mode: MarkdownViewMode, text: &str) -> (s: Self)
        ensures
            s.mode == mode,
            s.preview_text@ == text@,
            !s.timer_pending,
    {
        PreviewState { mode, preview_text: text.to_string(), timer_pending: false }
    }

    /// Switches the panes: the preview catches up with the text at once.
    pub fn set_mode(&mut self, mode: MarkdownViewMode, text: &str)
        ensures
            final(self).mode == mode,
            final(self).preview_text@ == text@,
            !final(self).timer_pending,
    {
        self.mode = mode;
        self.timer_pending = false;
        self.preview_text = text.to_string();
    }

    /// The text changed: unless only the text area is shown, (re)start the catch-up timer.
    /// Returns whether a timer is started.
    pub fn value_changed(&mut self) -> (start: bool)
        ensures
            start == (old(self).mode != MarkdownViewMode::Write),
            final(self).timer_pending == (old(self).timer_pending || start),
            final(self).mode == old(self).mode,
            final(self).preview_text == old(self).preview_text,
    {
        if self.mode != MarkdownViewMode::Write {
            self.timer_pending = true;
            true
        } else {
            false
        }
    }

    /// The timer fired: the preview catches up; returns whether it changed.
    pub fn sync_preview(&mut self, text: &str) -> (changed: bool)
        ensures
            !final(self).timer_pending,
            final(self).mode == old(self).mode,
            final(self).preview_text@ == text@,
            changed == (old(self).preview_text@ != text@),
    {
        self.timer_pending = false;
        let old_text = str_chars(self.preview_text.as_str());
        let new_text = str_chars(text);
        if crate::text::chars_eq(old_text.as_slice(), new_text.as_slice()) {
            return false;
        }
        self.preview_text = text.to_string();
        true
    }
}

// ---------------------------------------------------------------------------
// Notes
// ---------------------------------------------------------------------------

/// The notes text of a loaded configuration: the string under the notes property, empty
/// when there is none.
pub open spec fn notes_text_spec(config: Json, prop: Seq<char>) -> Seq<char> {
    match member(config, prop) {
        Some(Json::Str(s)) => s,
        _ => Seq::empty(),
    }
}

/// The notes text of a loaded configuration.
pub fn notes_text(config: &JsonValue, prop: &str) -> (r: String)
    ensures
        r@ == notes_text_spec(jview(*config), prop@),
{
    let key = str_chars(prop);
    match get_member(config, key.as_slice()) {
        Some(k) => match config {
            JsonValue::Object(e) => match &e[k].1 {
                JsonValue::Str(s) => s.clone(),
                _ => String::new(),
            },
            _ => String::new(),
        },
        None => String::new(),
    }
}

/// The parameters that store notes: the text under the notes property, and the digest of
/// the loaded configuration when there is one.
pub open spec fn notes_params_spec(prop: Seq<char>, notes: Seq<char>, digest: Option<Json>) -> Json {
    match digest {
        Some(d) => if prop == "digest"@ {
            Json::Object(seq![(prop, d)])
        } else {
            Json::Object(seq![(prop, Json::Str(notes)), ("digest"@, d)])
        },
        None => Json::Object(seq![(prop, Json::Str(notes))]),
    }
}

/// The parameters that store notes.
pub fn notes_params(prop: &str, notes: String, digest: Option<JsonValue>) -> (r: JsonValue)
    ensures
        jview(r) == notes_params_spec(
            prop@,
            notes@,
            match digest {
                Some(d) => Some(jview(d)),
                None => None,
            },
        ),
{
    let mut e: Vec<(String, JsonValue)> = Vec::new();
    e.push((prop.to_string(), JsonValue::Str(notes)));
    proof {
        lemma_jentries(e@);
        assert(jentries(e@) =~= seq![(prop@, Json::Str(notes@))]);
        reveal_strlit("digest");
    }
    let ghost first = jentries(e@);
    match digest {
        Some(d) => {
            let ghost dv = jview(d);
            crate::json::set_entry(&mut e, "digest".to_string(), d);
            proof {
                if prop@ == "digest"@ {
                    assert(jentries(e@) =~= seq![(prop@, dv)]);
                } else {
                    assert(first.drop_first() =~= Seq::<(Seq<char>, Json)>::empty());
                    assert(crate::json::set_key(first.drop_first(), "digest"@, dv) == seq![
                        ("digest"@, dv),
                    ]);
                    assert(jentries(e@) =~= seq![(prop@, Json::Str(notes@)), ("digest"@, dv)]);
                }
            }
        },
        None => {},
    }
    JsonValue::Object(e)
}

} // verus!
