//! One accepted log entry, and how a line of text becomes one.

use vstd::prelude::*;

verus! {

/// Severity of an event.
#[derive(Debug, Clone, Copy, PartialEq, Eq, Structural)]
pub enum Level {
    Info,
    Warn,
    Error,
}

/// The wire name of a level: `INFO`, `WARN` or `ERROR`, matched exactly.
pub open spec fn level_name(l: Level) -> Seq<char> {
    match l {
        Level::Info => seq!['I', 'N', 'F', 'O'],
        Level::Warn => seq!['W', 'A', 'R', 'N'],
        Level::Error => seq!['E', 'R', 'R', 'O', 'R'],
    }
}

/// The level whose wire name is `s`, if any.
pub open spec fn level_of(s: Seq<char>) -> Option<Level> {
    if s == level_name(Level::Info) {
        Some(Level::Info)
    } else if s == level_name(Level::Warn) {
        Some(Level::Warn)
    } else if s == level_name(Level::Error) {
        Some(Level::Error)
    } else {
        None
    }
}

fn chars_are(s: &str, expected: &[char]) -> (r: bool)
    ensures
        r == (s@ == expected@),
{
    let n = s.unicode_len();
    if n != expected.len() {
        return false;
    }
    let mut i: usize = 0;
    while i < n
        invariant
            n == s@.len(),
            n == expected@.len(),
            i <= n,
            forall|j: int| 0 <= j < i ==> s@[j] == expected@[j],
        decreases n - i,
    {
        if s.get_char(i) != expected[i] {
            return false;
        }
        i = i + 1;
    }
    assert(s@ =~= expected@);
    true
}

impl Level {
    /// Reads a level from its wire name; the match is case-sensitive.
    pub fn from_name(s: &str) -> (r: Option<Level>)
        ensures
            r == level_of(s@),
    {
        let info = ['I', 'N', 'F', 'O'];
        let warn = ['W', 'A', 'R', 'N'];
        let error = ['E', 'R', 'R', 'O', 'R'];
        assert(info@ =~= level_name(Level::Info));
        assert(warn@ =~= level_name(Level::Warn));
        assert(error@ =~= level_name(Level::Error));
        if chars_are(s, info.as_slice()) {
            Some(Level::Info)
        } else if chars_are(s, warn.as_slice()) {
            Some(Level::Warn)
        } else if chars_are(s, error.as_slice()) {
            Some(Level::Error)
        } else {
            None
        }
    }
}

/// One accepted log entry. Only `parse` and `from_fields` build one from
/// text, and they admit it only with non-empty `ts`, `user` and `action`.
#[derive(Debug, Clone)]
pub struct Event {
    /// Timestamp, kept as the text it was given in.
    pub ts: String,
    pub level: Level,
    pub user: String,
    pub action: String,
    /// Duration in milliseconds.
    pub duration_ms: u64,
}

/// The mathematical content of an [`Event`].
pub struct EventView {
    pub ts: Seq<char>,
    pub level: Level,
    pub user: Seq<char>,
    pub action: Seq<char>,
    pub duration_ms: u64,
}

impl View for Event {
    type V = EventView;

    open spec fn view(&self) -> EventView {
        EventView {
            ts: self.ts@,
            level: self.level,
            user: self.user@,
            action: self.action@,
            duration_ms: self.duration_ms,
        }
    }
}

pub open spec fn events_view(es: Seq<Event>) -> Seq<EventView> {
    es.map_values(|e: Event| e@)
}

/// The three text fields that must not be empty.
pub open spec fn fields_present(ts: Seq<char>, user: Seq<char>, action: Seq<char>) -> bool {
    ts.len() > 0 && user.len() > 0 && action.len() > 0
}

/// Why a line did not become an event.
#[derive(Debug, Clone, Copy, PartialEq, Eq, Structural)]
pub enum LineError {
    /// Not a JSON object with the five fields of the right types, or an unknown level.
    Parse,
    /// Well formed, but the fields marked `true` are empty.
    Invalid { ts: bool, user: bool, action: bool },
}

/// What the five decoded fields of a line amount to.
pub open spec fn decode_outcome(
    ts: Option<Seq<char>>,
    level: Option<Seq<char>>,
    user: Option<Seq<char>>,
    action: Option<Seq<char>>,
    duration_ms: Option<u64>,
) -> Result<EventView, LineError> {
    if ts.is_some() && level.is_some() && level_of(level.unwrap()).is_some() && user.is_some()
        && action.is_some() && duration_ms.is_some() {
        let (t, u, a) = (ts.unwrap(), user.unwrap(), action.unwrap());
        if fields_present(t, u, a) {
            Ok(
                EventView {
                    ts: t,
                    level: level_of(level.unwrap()).unwrap(),
                    user: u,
                    action: a,
                    duration_ms: duration_ms.unwrap(),
                },
            )
        } else {
            Err(LineError::Invalid { ts: t.len() == 0, user: u.len() == 0, action: a.len() == 0 })
        }
    } else {
        Err(LineError::Parse)
    }
}

/// The view of an outcome.
pub open spec fn outcome_view(r: Result<Event, LineError>) -> Result<EventView, LineError> {
    match r {
        Ok(e) => Ok(e@),
        Err(err) => Err(err),
    }
}

pub open spec fn opt_view(o: Option<String>) -> Option<Seq<char>> {
    match o {
        Some(s) => Some(s@),
        None => None,
    }
}

/// The string stored under `key` when `line` is decoded as a JSON value, if
/// the line is valid JSON, an object, holding that key with a string value.
/// When the object repeats a key, the last occurrence is the one stored.
pub uninterp spec fn json_str_field(line: Seq<char>, key: Seq<char>) -> Option<Seq<char>>;

/// The unsigned integer stored under `key` when `line` is decoded as a JSON
/// value, if the line is valid JSON, an object, holding that key with an
/// integer value in `0..=u64::MAX`.
pub uninterp spec fn json_u64_field(line: Seq<char>, key: Seq<char>) -> Option<u64>;

/// Relies on `serde_json::from_str::<Value>`, `Value::get` and
/// `Value::as_str`: decoding is a function of the text, `get` looks a key up
/// in an object, `as_str` yields the contents of a string value. Decoding
/// keeps the last value of a repeated key, so such a line is not rejected.
#[verifier::external_body]
fn str_field(line: &str, key: &str) -> (r: Option<String>)
    ensures
        opt_view(r) == json_str_field(line@, key@),
{
    let v: serde_json::Value = serde_json::from_str(line).ok()?;
    let s = v.get(key)?.as_str()?;
    Some(s.to_string())
}

/// Relies on `serde_json::from_str::<Value>`, `Value::get` and
/// `Value::as_u64`: decoding is a function of the text, `get` looks a key up
/// in an object, `as_u64` yields a non-negative integer that fits in `u64`.
#[verifier::external_body]
fn u64_field(line: &str, key: &str) -> (r: Option<u64>)
    ensures
        r == json_u64_field(line@, key@),
{
    let v: serde_json::Value = serde_json::from_str(line).ok()?;
    v.get(key)?.as_u64()
}

pub open spec fn key_ts() -> Seq<char> {
    seq!['t', 's']
}

pub open spec fn key_level() -> Seq<char> {
    seq!['l', 'e', 'v', 'e', 'l']
}

pub open spec fn key_user() -> Seq<char> {
    seq!['u', 's', 'e', 'r']
}

pub open spec fn key_action() -> Seq<char> {
    seq!['a', 'c', 't', 'i', 'o', 'n']
}

pub open spec fn key_duration() -> Seq<char> {
    seq!['d', 'u', 'r', 'a', 't', 'i', 'o', 'n', '_', 'm', 's']
}

/// What a line of text amounts to: an event, or the reason it is rejected.
pub open spec fn line_outcome(line: Seq<char>) -> Result<EventView, LineError> {
    decode_outcome(
        json_str_field(line, key_ts()),
        json_str_field(line, key_level()),
        json_str_field(line, key_user()),
        json_str_field(line, key_action()),
        json_u64_field(line, key_duration()),
    )
}

impl Event {
    /// Builds an event from its decoded fields; `None` stands for a field that
    /// is missing or of the wrong type.
    pub fn from_fields(
        ts: Option<String>,
        level: Option<String>,
        user: Option<String>,
        action: Option<String>,
        duration_ms: Option<u64>,
    ) -> (r: Result<Event, LineError>)
        ensures
            outcome_view(r) == decode_outcome(
                opt_view(ts),
                opt_view(level),
                opt_view(user),
                opt_view(action),
                duration_ms,
            ),
    {
        match (ts, level, user, action, duration_ms) {
            (Some(ts), Some(level), Some(user), Some(action), Some(duration_ms)) => {
                match Level::from_name(level.as_str()) {
                    Some(level) => {
                        let ts_empty = ts.unicode_len() == 0;
                        let user_empty = user.unicode_len() == 0;
                        let action_empty = action.unicode_len() == 0;
                        if ts_empty || user_empty || action_empty {
                            Err(LineError::Invalid { ts: ts_empty, user: user_empty, action: action_empty })
                        } else {
                            Ok(Event { ts, level, user, action, duration_ms })
                        }
                    },
                    None => Err(LineError::Parse),
                }
            },
            _ => Err(LineError::Parse),
        }
    }

    /// Decodes one line of text (a JSON object with `ts`, `level`, `user`,
    /// `action` and `duration_ms`) and validates it. Other keys are ignored;
    /// a repeated key counts with its last value.
    pub fn parse(line: &str) -> (r: Result<Event, LineError>)
        ensures
            outcome_view(r) == line_outcome(line@),
    {
        let k_ts = "ts";
        let k_level = "level";
        let k_user = "user";
        let k_action = "action";
        let k_duration = "duration_ms";
        proof {
            reveal_strlit("ts");
            reveal_strlit("level");
            reveal_strlit("user");
            reveal_strlit("action");
            reveal_strlit("duration_ms");
            assert(k_ts@ =~= key_ts());
            assert(k_level@ =~= key_level());
            assert(k_user@ =~= key_user());
            assert(k_action@ =~= key_action());
            assert(k_duration@ =~= key_duration());
        }
        Event::from_fields(
            str_field(line, k_ts),
            str_field(line, k_level),
            str_field(line, k_user),
            str_field(line, k_action),
            u64_field(line, k_duration),
        )
    }

    /// Decodes and validates one line; `None` when it is rejected for any reason.
    pub fn from_json_line(line: &str) -> (r: Option<Event>)
        ensures
            match line_outcome(line@) {
                Ok(e) => r.is_some() && r.unwrap()@ == e,
                Err(_) => r.is_none(),
            },
    {
        match Event::parse(line) {
            Ok(e) => Some(e),
            Err(_) => None,
        }
    }

    /// Whether `ts`, `user` and `action` are all non-empty (white space counts
    /// as content).
    pub fn is_valid(&self) -> (r: bool)
        ensures
            r == fields_present(self.ts@, self.user@, self.action@),
    {
        self.ts.unicode_len() > 0 && self.user.unicode_len() > 0 && self.action.unicode_len() > 0
    }

    /// A copy with the same content.
    pub fn duplicate(&self) -> (r: Event)
        ensures
            r@ == self@,
    {
        Event {
            ts: self.ts.clone(),
            level: self.level,
            user: self.user.clone(),
            action: self.action.clone(),
            duration_ms: self.duration_ms,
        }
    }
}

} // verus!
