//! Log records as the router sees them: plain values.

use crate::level::LogLevel;
use vstd::prelude::*;

verus! {

/// The severity of a record and the target it is for.
#[derive(Debug)]
pub struct LogMetadata {
    pub level: LogLevel,
    pub target: String,
}

impl LogMetadata {
    /// The severity of the record.
    pub fn level(&self) -> (r: LogLevel)
        ensures
            r == self.level,
    {
        self.level
    }

    /// The target of the record, by default the path of the module that wrote it.
    pub fn target(&self) -> (r: &str)
        ensures
            r@ == self.target@,
    {
        self.target.as_str()
    }
}

/// The place in the source at which a record was written.
#[derive(Debug)]
pub struct LogLocation {
    pub module: String,
    pub file: String,
    pub line: u32,
}

impl LogLocation {
    /// The path of the module.
    pub fn module(&self) -> (r: &str)
        ensures
            r@ == self.module@,
    {
        self.module.as_str()
    }

    /// The source file.
    pub fn file(&self) -> (r: &str)
        ensures
            r@ == self.file@,
    {
        self.file.as_str()
    }

    /// The line in the source file.
    pub fn line(&self) -> (r: u32)
        ensures
            r == self.line,
    {
        self.line
    }
}

/// A log record: its metadata, its location and its rendered message.
#[derive(Debug)]
pub struct LogRecord {
    pub metadata: LogMetadata,
    pub location: LogLocation,
    pub args: String,
}

impl LogRecord {
    /// A record of severity `level` for `target`, written at `line` of `file` in the
    /// module `module`, with the message `args`.
    pub fn new(
        level: LogLevel,
        target: String,
        module: String,
        file: String,
        line: u32,
        args: String,
    ) -> (r: LogRecord)
        ensures
            r.metadata.level == level,
            r.metadata.target == target,
            r.location.module == module,
            r.location.file == file,
            r.location.line == line,
            r.args == args,
    {
        LogRecord {
            metadata: LogMetadata { level, target },
            location: LogLocation { module, file, line },
            args,
        }
    }

    /// The rendered message.
    pub fn args(&self) -> (r: &str)
        ensures
            r@ == self.args@,
    {
        self.args.as_str()
    }

    /// The severity and the target.
    pub fn metadata(&self) -> (r: &LogMetadata)
        ensures
            r == self.metadata,
    {
        &self.metadata
    }

    /// The place in the source.
    pub fn location(&self) -> (r: &LogLocation)
        ensures
            r == self.location,
    {
        &self.location
    }

    /// The severity of the record.
    pub fn level(&self) -> (r: LogLevel)
        ensures
            r == self.metadata.level,
    {
        self.metadata.level
    }

    /// The target of the record.
    pub fn target(&self) -> (r: &str)
        ensures
            r@ == self.metadata.target@,
    {
        self.metadata.target.as_str()
    }
}

} // verus!
