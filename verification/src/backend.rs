//! One line of the backend's event stream, read once, and rendered where it
//! is needed: the gauge wants how far the run has got, and the log what the
//! line said.

use crate::json::{number, number_of, text, text_of, Json};
use crate::text::{cat, cat3, decimal, decimal_u64, owned, str_eq};
use vstd::prelude::*;

verus! {

/// Names the backend command.
pub const BACKEND: &'static str = "fisherman";

/// One line of the backend's event stream.
pub enum Event {
    /// The work finished before this step, the share this step adds, and
    /// what is happening.
    Step(u16, u16, String),
    /// A line under the step.
    Note(String),
    /// The run ended at the full bar.
    Done(String),
    /// The only copy of the recovery key there will ever be. It never
    /// reaches the log, because a key written to removable media makes the
    /// stick open the disk.
    Recovery(String),
    /// A line the backend's own tools wrote, kept as it came.
    Other(String),
}

pub open spec fn event_view(e: Event) -> (int, u16, u16, Seq<char>) {
    match e {
        Event::Step(a, b, t) => (0, a, b, t@),
        Event::Note(t) => (1, 0, 0, t@),
        Event::Done(t) => (2, 0, 0, t@),
        Event::Recovery(t) => (3, 0, 0, t@),
        Event::Other(t) => (4, 0, 0, t@),
    }
}

pub open spec fn text_or_empty(doc: Json, key: Seq<char>) -> Seq<char> {
    match text_of(doc, key) {
        Some(t) => t,
        None => Seq::empty(),
    }
}

pub open spec fn count_of(doc: Json, key: Seq<char>) -> u64 {
    match number_of(doc, key) {
        Some(n) => n,
        None => 0,
    }
}

/// The event a line is: `doc` is the line read as JSON, where it reads as
/// JSON. A step carries its percentages cut to 16 bits as the gauge holds
/// them, and says which step of how many it is.
pub open spec fn event_spec(line: Seq<char>, doc: Option<Json>) -> (int, u16, u16, Seq<char>) {
    match doc {
        None => (4, 0, 0, line),
        Some(d) => {
            let kind = text_of(d, "type"@);
            if kind == Some("step"@) {
                (
                    0,
                    (count_of(d, "cumulative_pct"@) % 65536) as u16,
                    (count_of(d, "weight_pct"@) % 65536) as u16,
                    decimal(count_of(d, "step"@) as nat) + "/"@ + decimal(count_of(d, "total_steps"@) as nat) + " "@
                        + text_or_empty(d, "step_name"@),
                )
            } else if kind == Some("info"@) || kind == Some("substep"@) {
                (1, 0, 0, text_or_empty(d, "message"@))
            } else if kind == Some("complete"@) {
                (2, 0, 0, text_or_empty(d, "message"@))
            } else if kind == Some("recovery_key"@) {
                (3, 0, 0, text_or_empty(d, "key"@))
            } else {
                (4, 0, 0, line)
            }
        },
    }
}

fn text_field(doc: &Json, key: &str) -> (s: String)
    ensures
        s@ == text_or_empty(*doc, key@),
{
    match text(doc, key) {
        Some(t) => owned(t),
        None => String::new(),
    }
}

fn count(doc: &Json, key: &str) -> (n: u64)
    ensures
        n == count_of(*doc, key@),
{
    match number(doc, key) {
        Some(n) => n,
        None => 0,
    }
}

fn short(n: u64) -> (s: u16)
    ensures
        s == (n % 65536) as u16,
{
    (n % 65536) as u16
}

impl Event {
    /// Reads one line of the stream. `doc` is the line read as JSON; a line
    /// that is not JSON, or names no event this reads, is kept as it came.
    pub fn of(line: &str, doc: Option<&Json>) -> (e: Event)
        ensures
            event_view(e) == event_spec(line@, match doc { Some(d) => Some(*d), None => None }),
    {
        let event = match doc {
            Some(d) => d,
            None => return Event::Other(owned(line)),
        };
        let kind = text(event, "type");
        let is = |k: &str| -> (r: bool)
            ensures
                r == (kind matches Some(t) && t@ == k@),
            {
                match kind {
                    Some(t) => str_eq(t, k),
                    None => false,
                }
            };
        if is("step") {
            let mut said = cat3(decimal_u64(count(event, "step")).as_str(), "/", decimal_u64(count(event, "total_steps")).as_str());
            said.append(" ");
            said.append(text_field(event, "step_name").as_str());
            Event::Step(short(count(event, "cumulative_pct")), short(count(event, "weight_pct")), said)
        } else if is("info") || is("substep") {
            Event::Note(text_field(event, "message"))
        } else if is("complete") {
            Event::Done(text_field(event, "message"))
        } else if is("recovery_key") {
            Event::Recovery(text_field(event, "key"))
        } else {
            Event::Other(owned(line))
        }
    }

    /// Renders the line a run with no screen prints: a step behind its
    /// percentage right-aligned in three columns, a note indented under it,
    /// the end at the full bar, and the recovery key with what to do with it.
    pub open spec fn said(self) -> Seq<char> {
        match self {
            Event::Step(pct, _, what) => "["@ + padded(decimal(pct as nat)) + "%] "@ + what@,
            Event::Note(message) => "       "@ + message@,
            Event::Done(message) => "[100%] "@ + message@,
            Event::Recovery(key) => "\n"@ + "Write it down; it is the only copy."@ + " "@ + key@ + "\n"@,
            Event::Other(line) => line@,
        }
    }

    pub fn say(&self) -> (s: String)
        ensures
            s@ == self.said(),
    {
        match self {
            Event::Step(pct, _, what) => {
                let mut s = cat("[", pad(decimal_u64(*pct as u64)).as_str());
                s.append("%] ");
                s.append(what.as_str());
                s
            },
            Event::Note(message) => cat("       ", message.as_str()),
            Event::Done(message) => cat("[100%] ", message.as_str()),
            Event::Recovery(key) => cat3("\n", crate::copy::recovery(key.as_str()).as_str(), "\n"),
            Event::Other(line) => line.clone(),
        }
    }

    /// Holds back the recovery key and returns every other line as said.
    pub fn logged(&self) -> (out: Option<String>)
        ensures
            match *self {
                Event::Recovery(_) => out is None,
                _ => out matches Some(s) && s@ == self.said(),
            },
    {
        match self {
            Event::Recovery(_) => None,
            _ => Some(self.say()),
        }
    }
}

/// A number right-aligned in three columns.
pub open spec fn padded(digits: Seq<char>) -> Seq<char> {
    if digits.len() >= 3 {
        digits
    } else if digits.len() == 2 {
        " "@ + digits
    } else if digits.len() == 1 {
        "  "@ + digits
    } else {
        "   "@
    }
}

fn pad(digits: String) -> (s: String)
    ensures
        s@ == padded(digits@),
{
    let n = crate::text::chars_of(digits.as_str()).len();
    if n >= 3 {
        digits
    } else if n == 2 {
        cat(" ", digits.as_str())
    } else if n == 1 {
        cat("  ", digits.as_str())
    } else {
        owned("   ")
    }
}

} // verus!
