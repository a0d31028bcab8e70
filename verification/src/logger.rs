//! The router: for each record, whether it is emitted, as which line and to which sink.
//!
//! A record is discarded where the directive table disables it, and where it is enabled
//! but the exclusion filter matches its message. Any other record is rendered by the
//! configured format and ends in one line terminator. The line goes to the log file or, where
//! no file is configured, to the standard error stream. With a file, the raw message of an
//! error or of an info record is echoed to the standard output where the configuration
//! asks for it. The router writes nothing itself: it says what is to be written.

use crate::config::LogConfig;
use crate::directive::{enabled, sorted, Directive, DirectiveTable};
use crate::filter::ExclusionFilter;
use crate::format::LogFormat;
use crate::level::LogLevel;
use crate::record::{LogMetadata, LogRecord};
use vstd::prelude::*;
use vstd::string::StringExecFns;

verus! {

/// What is to be done with a record, as plain values.
pub enum Emission {
    /// Nothing is written.
    Discard,
    /// `line` is appended to the log file; `echo`, if there is one, is written to the
    /// standard output as a line of its own.
    File { line: Seq<char>, echo: Option<Seq<char>> },
    /// `line` is written to the standard error stream.
    Stderr { line: Seq<char> },
}

/// What is to be done with a record.
#[derive(Debug)]
pub enum Routing {
    /// Nothing is written.
    Discard,
    /// `line` is appended to the log file; `echo`, if there is one, is written to the
    /// standard output as a line of its own.
    File { line: String, echo: Option<String> },
    /// `line` is written to the standard error stream.
    Stderr { line: String },
}

impl View for Routing {
    type V = Emission;

    open spec fn view(&self) -> Emission {
        match self {
            Routing::Discard => Emission::Discard,
            Routing::File { line, echo } => Emission::File {
                line: line@,
                echo: match echo {
                    Some(text) => Some(text@),
                    None => None,
                },
            },
            Routing::Stderr { line } => Emission::Stderr { line: line@ },
        }
    }
}

/// Whether a record passes the table and the filter: it is enabled for its target and
/// severity, and no filter matches its message.
pub open spec fn accepted(
    table: Seq<Directive>,
    filter: Option<ExclusionFilter>,
    record: &LogRecord,
) -> bool {
    &&& enabled(table, record.metadata.level, record.metadata.target@)
    &&& match filter {
        Some(filter) => !filter.matches(record.args@),
        None => true,
    }
}

/// Whether the raw message of a record is echoed to the standard output beside the file.
pub open spec fn echoed(duplicate_error: bool, duplicate_info: bool, level: LogLevel) -> bool {
    duplicate_error && level == LogLevel::Error || duplicate_info && level == LogLevel::Info
}

/// Where an accepted record goes once it is rendered as `text`: the line is the text and
/// one line terminator.
pub open spec fn emission(
    log_to_file: bool,
    duplicate_error: bool,
    duplicate_info: bool,
    record: &LogRecord,
    text: Seq<char>,
) -> Emission {
    if log_to_file {
        Emission::File {
            line: text.push('\n'),
            echo: if echoed(duplicate_error, duplicate_info, record.metadata.level) {
                Some(record.args@)
            } else {
                None
            },
        }
    } else {
        Emission::Stderr { line: text.push('\n') }
    }
}

/// The logger: a directive table, an optional exclusion filter and a configuration, none
/// of which changes once the logger is built.
pub struct FlexiLogger<F: LogFormat> {
    directives: DirectiveTable,
    filter: Option<ExclusionFilter>,
    config: LogConfig<F>,
}

impl<F: LogFormat> FlexiLogger<F> {
    /// The directive table.
    pub closed spec fn table(&self) -> Seq<Directive> {
        self.directives@
    }

    /// The exclusion filter.
    pub closed spec fn filter(&self) -> Option<ExclusionFilter> {
        self.filter
    }

    /// The pattern of the exclusion filter.
    pub open spec fn pattern(&self) -> Option<Seq<char>> {
        match self.filter() {
            Some(filter) => Some(filter@),
            None => None,
        }
    }

    /// The configuration.
    pub closed spec fn settings(&self) -> LogConfig<F> {
        self.config
    }

    /// A logger of these parts.
    pub fn new(
        directives: DirectiveTable,
        filter: Option<ExclusionFilter>,
        config: LogConfig<F>,
    ) -> (logger: FlexiLogger<F>)
        ensures
            logger.table() == directives@,
            logger.filter() == filter,
            logger.settings() == config,
    {
        FlexiLogger { directives, filter, config }
    }

    /// The configuration.
    pub fn config(&self) -> (config: &LogConfig<F>)
        ensures
            *config == self.settings(),
    {
        &self.config
    }

    /// Whether a record of severity `level` for `target` is enabled: the directive with the
    /// longest name that `target` begins with decides, else the directive without a name,
    /// else the record is disabled.
    pub fn ml_enabled(&self, level: LogLevel, target: &str) -> (r: bool)
        ensures
            r == enabled(self.table(), level, target@),
            sorted(self.table()),
    {
        self.directives.enabled(level, target)
    }

    /// Whether a record with this metadata is enabled.
    pub fn enabled(&self, metadata: &LogMetadata) -> (r: bool)
        ensures
            r == enabled(self.table(), metadata.level, metadata.target@),
    {
        self.ml_enabled(metadata.level(), metadata.target())
    }

    /// Whether `record` passes the table and the filter.
    pub fn accepts(&self, record: &LogRecord) -> (r: bool)
        ensures
            r == accepted(self.table(), self.filter(), record),
    {
        if !self.enabled(record.metadata()) {
            return false;
        }
        match &self.filter {
            Some(filter) => !filter.excludes(record.args()),
            None => true,
        }
    }

    /// Where an accepted record goes once it is rendered as `text`.
    pub fn dispatch(&self, record: &LogRecord, text: String) -> (r: Routing)
        ensures
            r@ == emission(
                self.settings().log_to_file,
                self.settings().duplicate_error,
                self.settings().duplicate_info,
                record,
                text@,
            ),
    {
        let mut line = text;
        line.append("\n");
        proof {
            reveal_strlit("\n");
            assert(line@ =~= text@.push('\n'));
        }
        if self.config.log_to_file {
            let echo = if self.config.duplicate_error && record.level() == LogLevel::Error
                || self.config.duplicate_info && record.level() == LogLevel::Info {
                Some(String::from_str(record.args()))
            } else {
                None
            };
            Routing::File { line, echo }
        } else {
            Routing::Stderr { line }
        }
    }

    /// What is to be done with `record`. A record that is not accepted is discarded, and
    /// the format is not asked for it. An accepted record is rendered by the format of the
    /// configuration and dispatched.
    pub fn route(&self, record: &LogRecord) -> (r: Routing)
        ensures
            !accepted(self.table(), self.filter(), record) ==> r@ == Emission::Discard,
            accepted(self.table(), self.filter(), record) ==> exists|text: Seq<char>|
                #![auto]
                self.settings().format.renders(record, text) && r@ == emission(
                    self.settings().log_to_file,
                    self.settings().duplicate_error,
                    self.settings().duplicate_info,
                    record,
                    text,
                ),
    {
        if !self.accepts(record) {
            return Routing::Discard;
        }
        let text = self.config.format.format(record);
        let ghost rendered = text@;
        let r = self.dispatch(record, text);
        assert(self.settings().format.renders(record, rendered) && r@ == emission(
            self.settings().log_to_file,
            self.settings().duplicate_error,
            self.settings().duplicate_info,
            record,
            rendered,
        ));
        r
    }
}

/// A record whose message the exclusion pattern matches is discarded, whatever its
/// severity and its target.
pub proof fn lemma_excluded_is_not_accepted(
    table: Seq<Directive>,
    filter: ExclusionFilter,
    record: &LogRecord,
)
    requires
        filter.matches(record.args@),
    ensures
        !accepted(table, Some(filter), record),
{
}

/// A record that the table disables is discarded, with a filter or without.
pub proof fn lemma_disabled_is_not_accepted(
    table: Seq<Directive>,
    filter: Option<ExclusionFilter>,
    record: &LogRecord,
)
    requires
        !enabled(table, record.metadata.level, record.metadata.target@),
    ensures
        !accepted(table, filter, record),
{
}

/// Every line that is emitted ends in the line terminator and holds the rendered text
/// before it; the echo is the raw message, and there is one only beside the file.
pub proof fn lemma_emission_shape(
    log_to_file: bool,
    duplicate_error: bool,
    duplicate_info: bool,
    record: &LogRecord,
    text: Seq<char>,
)
    ensures
        match emission(log_to_file, duplicate_error, duplicate_info, record, text) {
            Emission::Discard => false,
            Emission::File { line, echo } => {
                &&& log_to_file
                &&& line.len() == text.len() + 1
                &&& line.last() == '\n'
                &&& line.drop_last() == text
                &&& echo is Some <==> echoed(duplicate_error, duplicate_info, record.metadata.level)
                &&& echo is Some ==> echo->0 == record.args@
            },
            Emission::Stderr { line } => {
                &&& !log_to_file
                &&& line.len() == text.len() + 1
                &&& line.last() == '\n'
                &&& line.drop_last() == text
            },
        },
{
    assert(text.push('\n').drop_last() =~= text);
}

} // verus!
