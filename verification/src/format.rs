//! Line formats: how a record is rendered as one line of text.

use crate::record::LogRecord;
use vstd::prelude::*;
use vstd::string::StringExecFns;

verus! {

/// A format renders a record as a line of text. `renders` says which lines the format may
/// give for a record. Unless a format says more, every text may be its rendering; a format
/// that consults nothing but the record gives exactly one.
pub trait LogFormat {
    /// Whether `line` is a rendering of `record` by this format.
    open spec fn renders(&self, record: &LogRecord, line: Seq<char>) -> bool {
        true
    }

    /// Renders `record`.
    fn format(&self, record: &LogRecord) -> (line: String)
        ensures
            self.renders(record, line@),
    ;
}

/// The decimal digit of `d`, for `d` below ten.
pub open spec fn digit(d: nat) -> char {
    ((48 + d) as u8) as char
}

/// The decimal numeral of `n`, without leading zeros.
pub open spec fn decimal(n: nat) -> Seq<char>
    decreases n,
{
    if n < 10 {
        seq![digit(n)]
    } else {
        decimal(n / 10).push(digit(n % 10))
    }
}

/// The last `width` digits of the decimal numeral of `n`, with zeros in front where the
/// numeral is shorter.
pub open spec fn fixed_decimal(n: nat, width: nat) -> Seq<char>
    decreases width,
{
    if width == 0 {
        Seq::empty()
    } else {
        fixed_decimal(n / 10, (width - 1) as nat).push(digit(n % 10))
    }
}

/// The line of the default format: `INFO [my_prog::some_submodel] Task successfully read`.
pub open spec fn default_line(record: &LogRecord) -> Seq<char> {
    record.metadata.level.spec_name() + " ["@ + record.location.module@ + "] "@
        + record.args@
}

/// The microseconds within the second of a clock reading with `nanos` nanoseconds.
pub open spec fn micros(nanos: u32) -> nat {
    ((nanos / 1000) % 1_000_000) as nat
}

/// The line of the detailed format for a record that was written at `time`, a date and
/// time of day that ends in a colon, and `nanos` nanoseconds into that second:
/// `[2015-07-08 12:12:32:639785] INFO [my_prog::some_submodel] src/some_submodel.rs:26: Task
/// successfully read`.
pub open spec fn detailed_line(record: &LogRecord, time: Seq<char>, nanos: u32) -> Seq<char> {
    "["@ + time + fixed_decimal(micros(nanos), 6) + "] "@ + record.metadata.level.spec_name()
        + " ["@ + record.location.module@ + "] "@ + record.location.file@ + ":"@ + decimal(
        record.location.line as nat,
    ) + ": "@ + record.args@
}

/// The digit `d` as a text of one character.
fn digit_text(d: u32) -> (r: &'static str)
    requires
        d < 10,
    ensures
        r@ == seq![digit(d as nat)],
{
    proof {
        reveal_strlit("0");
        reveal_strlit("1");
        reveal_strlit("2");
        reveal_strlit("3");
        reveal_strlit("4");
        reveal_strlit("5");
        reveal_strlit("6");
        reveal_strlit("7");
        reveal_strlit("8");
        reveal_strlit("9");
    }
    let r = if d == 0 {
        "0"
    } else if d == 1 {
        "1"
    } else if d == 2 {
        "2"
    } else if d == 3 {
        "3"
    } else if d == 4 {
        "4"
    } else if d == 5 {
        "5"
    } else if d == 6 {
        "6"
    } else if d == 7 {
        "7"
    } else if d == 8 {
        "8"
    } else {
        "9"
    };
    assert(r@ =~= seq![digit(d as nat)]);
    r
}

/// Writes the decimal numeral of `n` at the end of `text`.
pub fn push_decimal(text: &mut String, n: u32)
    ensures
        final(text)@ == old(text)@ + decimal(n as nat),
    decreases n,
{
    if n >= 10 {
        push_decimal(text, n / 10);
    }
    let ghost before = text@;
    text.append(digit_text(n % 10));
    assert(text@ =~= old(text)@ + decimal(n as nat)) by {
        if n >= 10 {
            assert(before == old(text)@ + decimal((n / 10) as nat));
        }
    }
}

/// Writes the last `width` digits of `n` at the end of `text`, with zeros in front where
/// `n` has fewer.
pub fn push_fixed_decimal(text: &mut String, n: u32, width: u8)
    ensures
        final(text)@ == old(text)@ + fixed_decimal(n as nat, width as nat),
    decreases width,
{
    if width > 0 {
        push_fixed_decimal(text, n / 10, width - 1);
        text.append(digit_text(n % 10));
    }
    assert(text@ =~= old(text)@ + fixed_decimal(n as nat, width as nat));
}

/// A format that produces lines like
/// `INFO [my_prog::some_submodel] Task successfully read from conf.json`.
pub fn default_format(record: &LogRecord) -> (line: String)
    ensures
        line@ == default_line(record),
{
    let mut line = String::from_str(record.level().name());
    line.append(" [");
    line.append(record.location().module());
    line.append("] ");
    line.append(record.args());
    line
}

/// A format that produces lines like
/// `[2015-07-08 12:12:32:639785] INFO [my_prog::some_submodel] src/some_submodel.rs:26: Task
/// successfully read from conf.json`, for a record that was written at `time`, a date and
/// time of day that ends in a colon, and `nanos` nanoseconds into that second.
pub fn detailed_format(record: &LogRecord, time: &str, nanos: u32) -> (line: String)
    ensures
        line@ == detailed_line(record, time@, nanos),
{
    let mut line = String::from_str("[");
    line.append(time);
    push_fixed_decimal(&mut line, (nanos / 1000) % 1_000_000, 6);
    line.append("] ");
    line.append(record.level().name());
    line.append(" [");
    line.append(record.location().module());
    line.append("] ");
    line.append(record.location().file());
    line.append(":");
    push_decimal(&mut line, record.location().line());
    line.append(": ");
    line.append(record.args());
    line
}

/// The default format as a value.
#[derive(Clone, Copy, Debug)]
pub struct DefaultFormat;

impl LogFormat for DefaultFormat {
    open spec fn renders(&self, record: &LogRecord, line: Seq<char>) -> bool {
        line == default_line(record)
    }

    fn format(&self, record: &LogRecord) -> (line: String) {
        default_format(record)
    }
}

/// The detailed format for a given reading of the clock.
#[derive(Debug)]
pub struct DetailedFormat {
    /// The date and the time of day, ending in a colon.
    pub time: String,
    /// The nanoseconds into the second.
    pub nanos: u32,
}

impl LogFormat for DetailedFormat {
    open spec fn renders(&self, record: &LogRecord, line: Seq<char>) -> bool {
        line == detailed_line(record, self.time@, self.nanos)
    }

    fn format(&self, record: &LogRecord) -> (line: String) {
        detailed_format(record, self.time.as_str(), self.nanos)
    }
}

/// Formatting is repeatable: two renderings of one record by the default format are the
/// same text.
pub proof fn lemma_default_format_repeatable(record: &LogRecord, first: Seq<char>, second: Seq<char>)
    requires
        DefaultFormat.renders(record, first),
        DefaultFormat.renders(record, second),
    ensures
        first == second,
{
}

/// Two renderings of one record by the detailed format, for one reading of the clock, are
/// the same text.
pub proof fn lemma_detailed_format_repeatable(
    format: DetailedFormat,
    record: &LogRecord,
    first: Seq<char>,
    second: Seq<char>,
)
    requires
        format.renders(record, first),
        format.renders(record, second),
    ensures
        first == second,
{
}

} // verus!
