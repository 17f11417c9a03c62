//! Log levels: parsing the configured threshold and deciding what is shown.
use vstd::prelude::*;
use crate::text::{chars_of, lower, lower_vec, parse_u8, parse_uint, trim, trim_vec, eq_str};

verus! {

/// Severity of a log line; a line is shown when its value is at most the
/// configured threshold.
#[derive(PartialEq, Eq, Structural, Clone, Copy, Debug)]
pub enum Level {
    Error,
    Warn,
    Notice,
    Info,
    Debug,
    Trace,
}

pub open spec fn level_value(l: Level) -> u8 {
    match l {
        Level::Error => 3,
        Level::Warn => 4,
        Level::Notice => 5,
        Level::Info => 6,
        Level::Debug => 7,
        Level::Trace => 8,
    }
}

impl Level {
    /// The numeric severity (3 for errors up to 8 for traces).
    pub fn value(self) -> (r: u8)
        ensures
            r == level_value(self),
    {
        match self {
            Level::Error => 3,
            Level::Warn => 4,
            Level::Notice => 5,
            Level::Info => 6,
            Level::Debug => 7,
            Level::Trace => 8,
        }
    }

    /// The one-letter tag printed in a log line.
    pub fn label(self) -> (r: &'static str)
        ensures
            r@ == match self {
                Level::Error => "E"@,
                Level::Warn => "W"@,
                Level::Notice => "N"@,
                Level::Info => "I"@,
                Level::Debug => "D"@,
                Level::Trace => "T"@,
            },
    {
        match self {
            Level::Error => "E",
            Level::Warn => "W",
            Level::Notice => "N",
            Level::Info => "I",
            Level::Debug => "D",
            Level::Trace => "T",
        }
    }
}

/// The threshold named by a `log_level` setting: a level word (case and
/// surrounding spaces ignored), else a number, else the debug level.
pub open spec fn spec_parse_level(level: Seq<char>) -> u8 {
    let v = lower(trim(level));
    if v == "error"@ || v == "err"@ {
        3
    } else if v == "warn"@ || v == "warning"@ {
        4
    } else if v == "notice"@ {
        5
    } else if v == "info"@ {
        6
    } else if v == "debug"@ {
        7
    } else if v == "trace"@ {
        8
    } else {
        match parse_uint(v, 0xff) {
            Some(n) => n as u8,
            None => 7,
        }
    }
}

/// Parses a `log_level` setting into a threshold.
pub fn parse_level(level: &str) -> (r: u8)
    ensures
        r == spec_parse_level(level@),
{
    let v = lower_vec(&trim_vec(&chars_of(level)));
    if eq_str(&v, "error") || eq_str(&v, "err") {
        3
    } else if eq_str(&v, "warn") || eq_str(&v, "warning") {
        4
    } else if eq_str(&v, "notice") {
        5
    } else if eq_str(&v, "info") {
        6
    } else if eq_str(&v, "debug") {
        7
    } else if eq_str(&v, "trace") {
        8
    } else {
        match parse_u8(&v) {
            Some(n) => n,
            None => 7,
        }
    }
}

/// The threshold that a `log_level` setting installs.
pub fn init_from_text(level: &str) -> (r: u8)
    ensures
        r == spec_parse_level(level@),
{
    parse_level(level)
}

/// A line of `level` is shown under `threshold`.
pub fn enabled(level: Level, threshold: u8) -> (r: bool)
    ensures
        r == (level_value(level) <= threshold),
{
    level.value() <= threshold
}

/// The word that names a level in a `log_level` setting.
pub open spec fn level_word(l: Level) -> Seq<char> {
    match l {
        Level::Error => "error"@,
        Level::Warn => "warn"@,
        Level::Notice => "notice"@,
        Level::Info => "info"@,
        Level::Debug => "debug"@,
        Level::Trace => "trace"@,
    }
}

proof fn lemma_plain_word(w: Seq<char>)
    requires
        w.len() > 0,
        forall|i: int| 0 <= i < w.len() ==> 97 <= (#[trigger] w[i]) as u32 <= 122,
    ensures
        lower(trim(w)) == w,
{
    crate::text::lemma_trim_fixed(w);
    assert(lower(w) =~= w);
}

/// Setting `log_level` to a level's word shows the lines of that level and
/// of every more severe one, and no others.
pub proof fn lemma_level_word_shows(line: Level, setting: Level)
    ensures
        (level_value(line) <= spec_parse_level(level_word(setting))) == (level_value(line) <= level_value(setting)),
{
    reveal_strlit("error");
    reveal_strlit("err");
    reveal_strlit("warn");
    reveal_strlit("warning");
    reveal_strlit("notice");
    reveal_strlit("info");
    reveal_strlit("debug");
    reveal_strlit("trace");
    let w = level_word(setting);
    assert(w.len() > 0);
    lemma_plain_word(w);
    assert(lower(trim(w)) == w);
}

} // verus!
