//! A log-record filtering and routing engine.
//!
//! A specification string such as `crate1::mod=debug,crate2=off/pattern` is parsed into a
//! table of directives and an optional exclusion pattern. For each record the table decides
//! whether the record is enabled for its target and severity, the pattern may suppress it,
//! and the router says to which sink the rendered line goes.

pub mod config;
pub mod directive;
pub mod filter;
pub mod format;
pub mod level;
pub mod logger;
pub mod parser;
pub mod record;
pub mod setup;
pub mod text;

pub use config::{FlexiLoggerError, LogConfig};
pub use directive::{DirectiveTable, LogDirective};
pub use filter::ExclusionFilter;
pub use format::{default_format, detailed_format, DefaultFormat, DetailedFormat, LogFormat};
pub use level::{LogLevel, LogLevelFilter};
pub use logger::{FlexiLogger, Routing};
pub use parser::{parse_logging_spec, LoggingSpec, SpecWarning};
pub use record::{LogLocation, LogMetadata, LogRecord};
