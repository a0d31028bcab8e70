//! What the installation of the logger decides: which specification counts, the highest
//! level that any directive lets through, and the name of the trace file.
//!
//! Reading the environment and the clock, creating the file and registering the logger
//! are for the caller; the values read are handed in and the values decided are handed
//! back.

use crate::config::{FlexiLoggerError, LogConfig};
use crate::directive::{max_level, Directive, DirectiveTable, LogDirective};
use crate::format::LogFormat;
use crate::level::LogLevelFilter;
use crate::logger::FlexiLogger;
use crate::parser::{parse_logging_spec, parse_of, LoggingSpec, SpecWarning};
use vstd::prelude::*;
use vstd::string::StringExecFns;

verus! {

/// The specification that counts: the one given to the program, else the one of the
/// environment, else none.
pub open spec fn chosen_spec(
    loglevelspec: Option<String>,
    environment: Option<String>,
) -> Option<Seq<char>> {
    match (loglevelspec, environment) {
        (Some(spec), _) => Some(spec@),
        (None, Some(spec)) => Some(spec@),
        (None, None) => None,
    }
}

/// The table that is used where there is no specification at all: errors of every module.
pub open spec fn fallback_table() -> Seq<Directive> {
    seq![Directive { name: None, level: LogLevelFilter::Error }]
}

/// The name of the trace file: the name of the program, the time stamp, and `.trc`.
pub open spec fn trace_file_name(program: Seq<char>, timestamp: Seq<char>) -> Seq<char> {
    program + timestamp + ".trc"@
}

/// The line that announces the trace file.
pub open spec fn announcement(file_name: Seq<char>) -> Seq<char> {
    "Trace is written to "@ + file_name
}

/// The message of the error of a refused installation.
pub open spec fn refusal() -> Seq<char> {
    "Logger initialization failed"@
}

/// Parses the specification that counts. Without any the result is the fallback table,
/// no filter and no warning.
pub fn configure(loglevelspec: Option<String>, environment: Option<String>) -> (parsed:
    LoggingSpec)
    ensures
        match chosen_spec(loglevelspec, environment) {
            Some(spec) => parsed.is_parse_of(spec),
            None => {
                &&& parsed.directives@ == fallback_table()
                &&& parsed.filter is None
                &&& parsed.warnings@.len() == 0
            },
        },
{
    match loglevelspec {
        Some(spec) => parse_logging_spec(spec.as_str()),
        None => match environment {
            Some(spec) => parse_logging_spec(spec.as_str()),
            None => {
                let mut directives = DirectiveTable::new();
                directives.insert(LogDirective::new(None, LogLevelFilter::Error));
                proof {
                    reveal_with_fuel(crate::directive::insertion_point, 2);
                    assert(directives@ =~= fallback_table());
                }
                LoggingSpec { directives, filter: None, warnings: Vec::new() }
            },
        },
    }
}

/// The name of the trace file for a program and a time stamp.
pub fn file_name(program: &str, timestamp: &str) -> (name: String)
    ensures
        name@ == trace_file_name(program@, timestamp@),
{
    let mut name = String::from_str(program);
    name.append(timestamp);
    name.append(".trc");
    name
}

/// Everything that an installation needs.
pub struct Installation<F: LogFormat> {
    /// The logger that is to be registered.
    pub logger: FlexiLogger<F>,
    /// The highest level that any directive lets through: the global ceiling.
    pub max_level: LogLevelFilter,
    /// The name of the trace file that is to be created.
    pub file_name: String,
    /// The line that announces the trace file, where the configuration asks for one.
    pub announcement: Option<String>,
    /// What the parser found wrong with the specification.
    pub warnings: Vec<SpecWarning>,
}

/// Decides an installation: the logger for the specification that counts, the global
/// ceiling, the name of the trace file and its announcement.
pub fn prepare<F: LogFormat>(
    config: LogConfig<F>,
    loglevelspec: Option<String>,
    environment: Option<String>,
    program: &str,
    timestamp: &str,
) -> (plan: Installation<F>)
    ensures
        plan.logger.settings() == config,
        plan.max_level == max_level(plan.logger.table()),
        plan.file_name@ == trace_file_name(program@, timestamp@),
        match plan.announcement {
            Some(line) => config.print_message && line@ == announcement(plan.file_name@),
            None => !config.print_message,
        },
        match chosen_spec(loglevelspec, environment) {
            Some(spec) => parse_of(
                plan.logger.table(),
                plan.logger.filter(),
                plan.warnings@.map_values(|w: SpecWarning| w@),
                spec,
            ),
            None => {
                &&& plan.logger.table() == fallback_table()
                &&& plan.logger.filter() is None
                &&& plan.warnings@.len() == 0
            },
        },
{
    let parsed = configure(loglevelspec, environment);
    let max_level = parsed.directives.max_level();
    let file_name = file_name(program, timestamp);
    let announcement = if config.print_message {
        let mut line = String::from_str("Trace is written to ");
        line.append(file_name.as_str());
        Some(line)
    } else {
        None
    };
    let LoggingSpec { directives, filter, warnings } = parsed;
    let logger = FlexiLogger::new(directives, filter, config);
    Installation { logger, max_level, file_name, announcement, warnings }
}

/// The result of an installation, given whether the logger was registered. A logger can
/// be registered once; every later attempt is refused and reported as an error.
pub fn init_outcome(registered: bool) -> (r: Result<(), FlexiLoggerError>)
    ensures
        registered <==> r is Ok,
        r matches Err(error) ==> error@ == refusal(),
{
    if registered {
        Ok(())
    } else {
        Err(FlexiLoggerError::new("Logger initialization failed"))
    }
}

} // verus!
