//! Severities of records and the ceilings that directives set on them.

use crate::text::range_equals;
use vstd::prelude::*;

verus! {

/// The severity of a log record. `Error` is the most severe and has the lowest rank.
#[derive(Clone, Copy, Debug, PartialEq, Eq, Structural)]
pub enum LogLevel {
    Error,
    Warn,
    Info,
    Debug,
    Trace,
}

/// The ceiling that a directive puts on the severities it lets through.
/// `Off` lies below every severity, so it lets nothing through.
#[derive(Clone, Copy, Debug, PartialEq, Eq, Structural)]
pub enum LogLevelFilter {
    Off,
    Error,
    Warn,
    Info,
    Debug,
    Trace,
}

impl LogLevel {
    /// The position of the level in `Error < Warn < Info < Debug < Trace`, counted from 1
    /// so that it lines up with the rank of the filter of the same name.
    pub open spec fn rank(self) -> nat {
        match self {
            LogLevel::Error => 1,
            LogLevel::Warn => 2,
            LogLevel::Info => 3,
            LogLevel::Debug => 4,
            LogLevel::Trace => 5,
        }
    }

    /// The rank as a machine integer.
    pub fn ordinal(self) -> (r: u8)
        ensures
            r == self.rank(),
    {
        match self {
            LogLevel::Error => 1,
            LogLevel::Warn => 2,
            LogLevel::Info => 3,
            LogLevel::Debug => 4,
            LogLevel::Trace => 5,
        }
    }

    /// The most verbose level.
    pub fn max() -> (r: LogLevel)
        ensures
            r == LogLevel::Trace,
    {
        LogLevel::Trace
    }

    /// The name under which the level is written in a log line.
    pub open spec fn spec_name(self) -> Seq<char> {
        match self {
            LogLevel::Error => "ERROR"@,
            LogLevel::Warn => "WARN"@,
            LogLevel::Info => "INFO"@,
            LogLevel::Debug => "DEBUG"@,
            LogLevel::Trace => "TRACE"@,
        }
    }

    /// The name under which the level is written in a log line.
    pub fn name(self) -> (r: &'static str)
        ensures
            r@ == self.spec_name(),
    {
        match self {
            LogLevel::Error => "ERROR",
            LogLevel::Warn => "WARN",
            LogLevel::Info => "INFO",
            LogLevel::Debug => "DEBUG",
            LogLevel::Trace => "TRACE",
        }
    }

    /// The filter that lets records through up to this level.
    pub fn to_log_level_filter(self) -> (r: LogLevelFilter)
        ensures
            r.rank() == self.rank(),
    {
        match self {
            LogLevel::Error => LogLevelFilter::Error,
            LogLevel::Warn => LogLevelFilter::Warn,
            LogLevel::Info => LogLevelFilter::Info,
            LogLevel::Debug => LogLevelFilter::Debug,
            LogLevel::Trace => LogLevelFilter::Trace,
        }
    }
}

impl LogLevelFilter {
    /// The position of the filter in `Off < Error < Warn < Info < Debug < Trace`,
    /// counted from 0.
    pub open spec fn rank(self) -> nat {
        match self {
            LogLevelFilter::Off => 0,
            LogLevelFilter::Error => 1,
            LogLevelFilter::Warn => 2,
            LogLevelFilter::Info => 3,
            LogLevelFilter::Debug => 4,
            LogLevelFilter::Trace => 5,
        }
    }

    /// The rank as a machine integer.
    pub fn ordinal(self) -> (r: u8)
        ensures
            r == self.rank(),
    {
        match self {
            LogLevelFilter::Off => 0,
            LogLevelFilter::Error => 1,
            LogLevelFilter::Warn => 2,
            LogLevelFilter::Info => 3,
            LogLevelFilter::Debug => 4,
            LogLevelFilter::Trace => 5,
        }
    }

    /// The filter that lets every level through.
    pub open spec fn spec_max() -> LogLevelFilter {
        LogLevelFilter::Trace
    }

    /// The filter that lets every level through.
    #[verifier::when_used_as_spec(spec_max)]
    pub fn max() -> (r: LogLevelFilter)
        ensures
            r == LogLevelFilter::Trace,
    {
        LogLevelFilter::Trace
    }

    /// Whether a record of severity `level` passes: its rank is no higher than the ceiling.
    pub open spec fn spec_allows(self, level: LogLevel) -> bool {
        level.rank() <= self.rank()
    }

    /// Whether a record of severity `level` passes: its rank is no higher than the ceiling.
    #[verifier::when_used_as_spec(spec_allows)]
    pub fn allows(self, level: LogLevel) -> (r: bool)
        ensures
            r == (level.rank() <= self.rank()),
    {
        level.ordinal() <= self.ordinal()
    }

    /// The level of the same rank; none for `Off`.
    pub fn to_log_level(self) -> (r: Option<LogLevel>)
        ensures
            self == LogLevelFilter::Off <==> r is None,
            r matches Some(level) ==> level.rank() == self.rank(),
    {
        match self {
            LogLevelFilter::Off => None,
            LogLevelFilter::Error => Some(LogLevel::Error),
            LogLevelFilter::Warn => Some(LogLevel::Warn),
            LogLevelFilter::Info => Some(LogLevel::Info),
            LogLevelFilter::Debug => Some(LogLevel::Debug),
            LogLevelFilter::Trace => Some(LogLevel::Trace),
        }
    }

    /// The filter that a level token stands for. A token is one of the keywords `off`,
    /// `error`, `warn`, `info`, `debug` and `trace`, written in lower case, or the decimal
    /// numeral of a rank, `0` for `off` up to `5` for `trace`. Any other text is no token.
    pub open spec fn from_token(token: Seq<char>) -> Option<LogLevelFilter> {
        if token == "off"@ || token == "0"@ {
            Some(LogLevelFilter::Off)
        } else if token == "error"@ || token == "1"@ {
            Some(LogLevelFilter::Error)
        } else if token == "warn"@ || token == "2"@ {
            Some(LogLevelFilter::Warn)
        } else if token == "info"@ || token == "3"@ {
            Some(LogLevelFilter::Info)
        } else if token == "debug"@ || token == "4"@ {
            Some(LogLevelFilter::Debug)
        } else if token == "trace"@ || token == "5"@ {
            Some(LogLevelFilter::Trace)
        } else {
            None
        }
    }

    /// Reads the level token that stands in `from..to` of `chars`.
    pub fn parse_range(chars: &[char], from: usize, to: usize) -> (r: Option<LogLevelFilter>)
        requires
            from <= to <= chars@.len(),
        ensures
            r == Self::from_token(chars@.subrange(from as int, to as int)),
    {
        if range_equals(chars, from, to, "off") || range_equals(chars, from, to, "0") {
            Some(LogLevelFilter::Off)
        } else if range_equals(chars, from, to, "error") || range_equals(chars, from, to, "1") {
            Some(LogLevelFilter::Error)
        } else if range_equals(chars, from, to, "warn") || range_equals(chars, from, to, "2") {
            Some(LogLevelFilter::Warn)
        } else if range_equals(chars, from, to, "info") || range_equals(chars, from, to, "3") {
            Some(LogLevelFilter::Info)
        } else if range_equals(chars, from, to, "debug") || range_equals(chars, from, to, "4") {
            Some(LogLevelFilter::Debug)
        } else if range_equals(chars, from, to, "trace") || range_equals(chars, from, to, "5") {
            Some(LogLevelFilter::Trace)
        } else {
            None
        }
    }

    /// Reads a level token.
    pub fn parse(token: &str) -> (r: Option<LogLevelFilter>)
        ensures
            r == Self::from_token(token@),
    {
        let chars = crate::text::chars_of(token);
        assert(chars@.subrange(0, chars@.len() as int) =~= token@);
        Self::parse_range(chars.as_slice(), 0, chars.len())
    }
}

/// The ranks of the levels and of the filters line up, and a filter lets a level through
/// exactly when the level's rank is no higher than its own: `Off` lets nothing through and
/// `Trace` everything.
pub proof fn lemma_filter_order(filter: LogLevelFilter, level: LogLevel)
    ensures
        1 <= level.rank() <= 5,
        filter.rank() <= 5,
        !LogLevelFilter::Off.allows(level),
        LogLevelFilter::max().allows(level),
        filter.allows(level) <==> level.rank() <= filter.rank(),
{
}

} // verus!
