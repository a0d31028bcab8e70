//! The configuration of the logger and the error of its installation.

use crate::format::{DefaultFormat, LogFormat};
use vstd::prelude::*;

verus! {

/// Describes all kinds of errors in the initialization of the logger. Its view is the
/// message.
#[derive(Debug)]
pub struct FlexiLoggerError {
    message: &'static str,
}

impl View for FlexiLoggerError {
    type V = Seq<char>;

    closed spec fn view(&self) -> Seq<char> {
        self.message@
    }
}

impl FlexiLoggerError {
    /// An error with the message `s`.
    pub fn new(s: &'static str) -> (error: FlexiLoggerError)
        ensures
            error@ == s@,
    {
        FlexiLoggerError { message: s }
    }

    /// The message.
    pub fn message(&self) -> (s: &'static str)
        ensures
            s@ == self@,
    {
        self.message
    }
}

/// Allows influencing the behavior of the logger.
pub struct LogConfig<F: LogFormat> {
    /// If `true`, the log is written to a file. Default is `false`, the log is then
    /// written to stderr.
    pub log_to_file: bool,
    /// If `true` (which is default), the name of the tracefile is documented in a message
    /// to stdout.
    pub print_message: bool,
    /// If `true` (which is default), and if `log_to_file` is `true`, all error messages
    /// are written also to stdout.
    pub duplicate_error: bool,
    /// If `true`, and if `log_to_file` is `true`, also info messages are written also to
    /// stdout. Default is `false`.
    pub duplicate_info: bool,
    /// The line format; default is the default format.
    pub format: F,
}

impl LogConfig<DefaultFormat> {
    /// The default configuration: the log goes to stderr in the default format and the
    /// name of the tracefile is announced; were the log to go to a file, errors, but not
    /// infos, would be written to stdout too.
    pub fn new() -> (config: LogConfig<DefaultFormat>)
        ensures
            !config.log_to_file,
            config.print_message,
            config.duplicate_error,
            !config.duplicate_info,
    {
        LogConfig {
            log_to_file: false,
            print_message: true,
            duplicate_error: true,
            duplicate_info: false,
            format: DefaultFormat,
        }
    }
}

impl<F: LogFormat> LogConfig<F> {
    /// This configuration with another line format.
    pub fn with_format<G: LogFormat>(self, format: G) -> (config: LogConfig<G>)
        ensures
            config.log_to_file == self.log_to_file,
            config.print_message == self.print_message,
            config.duplicate_error == self.duplicate_error,
            config.duplicate_info == self.duplicate_info,
            config.format == format,
    {
        LogConfig {
            log_to_file: self.log_to_file,
            print_message: self.print_message,
            duplicate_error: self.duplicate_error,
            duplicate_info: self.duplicate_info,
            format,
        }
    }
}

} // verus!
