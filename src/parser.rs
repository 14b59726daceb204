//! Turning one raw line into a classified `Log`.
//!
//! A line is laid out at fixed character positions: a bracketed timestamp in
//! characters 1..21, the category label from character 23 (five characters
//! for `ERROR` and `DEBUG`, four for `INFO`), a separator, then the message.
use vstd::prelude::*;
use vstd::string::*;

use crate::entry::{Log, LogView, Timestamp, TypeOfLog};

verus! {

/// Lines shorter than this many characters cannot hold the timestamp and
/// category fields.
pub const MIN_LINE_LEN: usize = 28;

/// Characters of the timestamp field.
pub const STAMP_START: usize = 1;
pub const STAMP_END: usize = 21;

/// First character of the category label.
pub const LABEL_START: usize = 23;

/// Where the message starts after an `INFO` label, and after an `ERROR` or
/// `DEBUG` label.
pub const INFO_BODY_START: usize = 30;
pub const WIDE_BODY_START: usize = 31;

/// Why a line was not turned into an entry.
#[derive(Clone, Copy, Debug, PartialEq, Eq, Structural)]
pub enum ParseError {
    /// The line is too short to hold the timestamp and category fields.
    MalformedLine,
}

/// `c` is the lower-case ASCII letter `lower` or its upper-case form.
pub open spec fn same_letter(c: char, lower: char) -> bool {
    c == lower || ('A' <= c <= 'Z' && c as u32 + 32 == lower as u32)
}

/// `token` spells the lower-case word `word`, ignoring ASCII case.
pub open spec fn spells(token: Seq<char>, word: Seq<char>) -> bool {
    token.len() == word.len() && forall|i: int|
        0 <= i < token.len() ==> #[trigger] same_letter(token[i], word[i])
}

pub open spec fn error_word() -> Seq<char> {
    seq!['e', 'r', 'r', 'o', 'r']
}

pub open spec fn debug_word() -> Seq<char> {
    seq!['d', 'e', 'b', 'u', 'g']
}

pub open spec fn info_word() -> Seq<char> {
    seq!['i', 'n', 'f', 'o']
}

/// The category that a label names, ignoring case.
pub open spec fn label_category(token: Seq<char>) -> TypeOfLog {
    if spells(token, error_word()) {
        TypeOfLog::Error
    } else if spells(token, debug_word()) {
        TypeOfLog::Debug
    } else if spells(token, info_word()) {
        TypeOfLog::Info
    } else {
        TypeOfLog::Uncategorized
    }
}

/// The category that a lower-case label names exactly; anything else is
/// `Uncategorized`.
pub open spec fn exact_category(token: Seq<char>) -> TypeOfLog {
    if token == error_word() {
        TypeOfLog::Error
    } else if token == debug_word() {
        TypeOfLog::Debug
    } else if token == info_word() {
        TypeOfLog::Info
    } else {
        TypeOfLog::Uncategorized
    }
}

/// The category of a line of at least `MIN_LINE_LEN` characters: the
/// five-character label first, then the four-character one.
pub open spec fn line_category(line: Seq<char>) -> TypeOfLog {
    let wide = label_category(line.subrange(LABEL_START as int, LABEL_START + 5));
    if wide != TypeOfLog::Uncategorized {
        wide
    } else {
        label_category(line.subrange(LABEL_START as int, LABEL_START + 4))
    }
}

/// Where the message of a line of the given category starts.
pub open spec fn body_start(category: TypeOfLog) -> int {
    match category {
        TypeOfLog::Info => INFO_BODY_START as int,
        TypeOfLog::Error | TypeOfLog::Debug => WIDE_BODY_START as int,
        TypeOfLog::Uncategorized => 0,
    }
}

/// The message: what follows the label and separator (nothing where the line
/// ends before), or the whole line when no label was recognised.
pub open spec fn line_message(line: Seq<char>) -> Seq<char> {
    let start = body_start(line_category(line));
    if start <= line.len() {
        line.subrange(start, line.len() as int)
    } else {
        Seq::empty()
    }
}

/// The timestamp field of a line.
pub open spec fn stamp_field(line: Seq<char>) -> Seq<char> {
    line.subrange(STAMP_START as int, STAMP_END as int)
}

/// The timestamp recorded for a parsed instant: the instant itself, or the
/// epoch when the field could not be read.
pub open spec fn stamp_or_epoch(instant: Option<(i64, u32)>) -> Timestamp {
    match instant {
        Some((secs, nanos)) => Timestamp { secs, nanos },
        None => Timestamp { secs: 0, nanos: 0 },
    }
}

/// The entry of a line of at least `MIN_LINE_LEN` characters whose timestamp
/// field read as `instant`.
pub open spec fn parsed_entry(line: Seq<char>, instant: Option<(i64, u32)>) -> LogView {
    LogView {
        message: line_message(line),
        log_type: line_category(line),
        timestamp: stamp_or_epoch(instant),
    }
}

/// What chrono reads from a timestamp text: seconds since the Unix epoch and
/// nanoseconds past that second, or `None` where the text is not a timestamp.
pub uninterp spec fn utc_instant_of(text: Seq<char>) -> Option<(i64, u32)>;

/// Relies on chrono's `FromStr for DateTime<Utc>` (relaxed RFC 3339), read
/// back through `DateTime::timestamp` and `DateTime::timestamp_subsec_nanos`.
#[verifier::external_body]
fn parse_utc_instant(text: &str) -> (r: Option<(i64, u32)>)
    ensures
        r == utc_instant_of(text@),
{
    match text.parse::<chrono::DateTime<chrono::Utc>>() {
        Ok(t) => Some((t.timestamp(), t.timestamp_subsec_nanos())),
        Err(_) => None,
    }
}

/// `c` equals the lower-case ASCII letter `lower`, ignoring case.
fn letter_matches(c: char, lower: char) -> (r: bool)
    requires
        'a' <= lower <= 'z',
    ensures
        r == same_letter(c, lower),
{
    c == lower || ('A' <= c && c <= 'Z' && (c as u32) + 32 == lower as u32)
}

/// `token` spells `word` (lower-case ASCII letters), ignoring case.
fn spells_word(token: &str, word: &str) -> (r: bool)
    requires
        forall|i: int| 0 <= i < word@.len() ==> 'a' <= #[trigger] word@[i] <= 'z',
    ensures
        r == spells(token@, word@),
{
    let n = token.unicode_len();
    if n != word.unicode_len() {
        return false;
    }
    let mut i: usize = 0;
    while i < n
        invariant
            n == token@.len() == word@.len(),
            i <= n,
            forall|j: int| 0 <= j < word@.len() ==> 'a' <= #[trigger] word@[j] <= 'z',
            forall|j: int| 0 <= j < i ==> #[trigger] same_letter(token@[j], word@[j]),
        decreases n - i,
    {
        if !letter_matches(token.get_char(i), word.get_char(i)) {
            return false;
        }
        i = i + 1;
    }
    true
}

/// `token` is exactly `word`.
fn is_word(token: &str, word: &str) -> (r: bool)
    ensures
        r == (token@ == word@),
{
    let n = token.unicode_len();
    if n != word.unicode_len() {
        return false;
    }
    let mut i: usize = 0;
    while i < n
        invariant
            n == token@.len() == word@.len(),
            i <= n,
            forall|j: int| 0 <= j < i ==> token@[j] == word@[j],
        decreases n - i,
    {
        if token.get_char(i) != word.get_char(i) {
            return false;
        }
        i = i + 1;
    }
    proof {
        assert(token@ =~= word@);
    }
    true
}

impl TypeOfLog {
    /// The category that `label` names: `error`, `debug` or `info` in any
    /// case; anything else is `Uncategorized`.
    pub fn from_label(label: &str) -> (r: TypeOfLog)
        ensures
            r == label_category(label@),
    {
        proof {
            reveal_strlit("error");
            reveal_strlit("debug");
            reveal_strlit("info");
            assert("error"@ =~= error_word());
            assert("debug"@ =~= debug_word());
            assert("info"@ =~= info_word());
        }
        if spells_word(label, "error") {
            TypeOfLog::Error
        } else if spells_word(label, "debug") {
            TypeOfLog::Debug
        } else if spells_word(label, "info") {
            TypeOfLog::Info
        } else {
            TypeOfLog::Uncategorized
        }
    }
}

impl std::str::FromStr for TypeOfLog {
    type Err = ();

    /// Reads a lower-case label exactly: `error`, `debug` or `info`; anything
    /// else is `Uncategorized`. It never fails.
    fn from_str(s: &str) -> (r: Result<TypeOfLog, ()>)
        ensures
            r == Ok::<TypeOfLog, ()>(exact_category(s@)),
    {
        proof {
            reveal_strlit("error");
            reveal_strlit("debug");
            reveal_strlit("info");
            assert("error"@ =~= error_word());
            assert("debug"@ =~= debug_word());
            assert("info"@ =~= info_word());
        }
        if is_word(s, "error") {
            Ok(TypeOfLog::Error)
        } else if is_word(s, "debug") {
            Ok(TypeOfLog::Debug)
        } else if is_word(s, "info") {
            Ok(TypeOfLog::Info)
        } else {
            Ok(TypeOfLog::Uncategorized)
        }
    }
}

/// Classifies `line` given what its timestamp field read as: `instant` is
/// `None` where the field is not a timestamp, and the epoch is used then.
pub fn parse_log_with_instant(line: &str, instant: Option<(i64, u32)>) -> (r: Result<
    Log,
    ParseError,
>)
    ensures
        line@.len() < MIN_LINE_LEN ==> r == Err::<Log, ParseError>(ParseError::MalformedLine),
        line@.len() >= MIN_LINE_LEN ==> r is Ok && r->Ok_0@ == parsed_entry(line@, instant),
{
    let n = line.unicode_len();
    if n < MIN_LINE_LEN {
        return Err(ParseError::MalformedLine);
    }
    let wide = TypeOfLog::from_label(line.substring_char(LABEL_START, LABEL_START + 5));
    let log_type = if wide != TypeOfLog::Uncategorized {
        wide
    } else {
        TypeOfLog::from_label(line.substring_char(LABEL_START, LABEL_START + 4))
    };
    let start: usize = match log_type {
        TypeOfLog::Info => INFO_BODY_START,
        TypeOfLog::Error | TypeOfLog::Debug => WIDE_BODY_START,
        TypeOfLog::Uncategorized => 0,
    };
    let message = if start <= n {
        line.substring_char(start, n).to_owned()
    } else {
        String::new()
    };
    let timestamp = match instant {
        Some((secs, nanos)) => Timestamp { secs, nanos },
        None => Timestamp::epoch(),
    };
    proof {
        assert(message@ =~= line_message(line@));
    }
    Ok(Log { message, log_type, timestamp })
}

/// Parses one raw line. Lines too short for the timestamp and category fields
/// are rejected with `MalformedLine`; an unreadable timestamp becomes the epoch.
pub fn parse_log(log: String) -> (r: Result<Log, ParseError>)
    ensures
        log@.len() < MIN_LINE_LEN ==> r == Err::<Log, ParseError>(ParseError::MalformedLine),
        log@.len() >= MIN_LINE_LEN ==> r is Ok && r->Ok_0@ == parsed_entry(
            log@,
            utc_instant_of(stamp_field(log@)),
        ),
{
    let line = log.as_str();
    if line.unicode_len() < MIN_LINE_LEN {
        return Err(ParseError::MalformedLine);
    }
    let instant = parse_utc_instant(line.substring_char(STAMP_START, STAMP_END));
    parse_log_with_instant(line, instant)
}

} // verus!
