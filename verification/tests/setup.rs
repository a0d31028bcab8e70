use flexi_logger::setup::{configure, file_name, init_outcome, prepare};
use flexi_logger::{
    DirectiveTable, FlexiLoggerError, LogConfig, LogDirective, LogLevel, LogLevelFilter,
    LogRecord, Routing, SpecWarning,
};

fn names(table: &DirectiveTable) -> Vec<Option<String>> {
    (0..table.len()).map(|i| table.get(i).unwrap().name.clone()).collect()
}

fn levels(table: &DirectiveTable) -> Vec<LogLevelFilter> {
    (0..table.len()).map(|i| table.get(i).unwrap().level).collect()
}

fn record(level: LogLevel, target: &str, message: &str) -> LogRecord {
    LogRecord::new(
        level,
        target.to_string(),
        "m".to_string(),
        "f.rs".to_string(),
        1,
        message.to_string(),
    )
}

#[test]
fn given_spec_comes_before_the_environment() {
    let parsed = configure(Some("a=debug".to_string()), Some("b=warn".to_string()));
    assert_eq!(names(&parsed.directives), vec![Some("a".to_string())]);
    assert_eq!(levels(&parsed.directives), vec![LogLevelFilter::Debug]);
    let parsed = configure(Some("".to_string()), Some("b=warn".to_string()));
    assert_eq!(parsed.directives.len(), 0);
}

#[test]
fn environment_counts_without_a_given_spec() {
    let parsed = configure(None, Some("b=warn/x".to_string()));
    assert_eq!(names(&parsed.directives), vec![Some("b".to_string())]);
    assert_eq!(levels(&parsed.directives), vec![LogLevelFilter::Warn]);
    assert_eq!(parsed.filter.expect("the pattern is valid").pattern(), "x");
}

#[test]
fn errors_are_logged_without_any_spec() {
    let parsed = configure(None, None);
    assert_eq!(names(&parsed.directives), vec![None]);
    assert_eq!(levels(&parsed.directives), vec![LogLevelFilter::Error]);
    assert!(parsed.filter.is_none());
    assert!(parsed.warnings.is_empty());
    assert!(parsed.directives.enabled(LogLevel::Error, "anything"));
    assert!(!parsed.directives.enabled(LogLevel::Warn, "anything"));
}

#[test]
fn trace_file_is_named_after_program_and_time() {
    assert_eq!(file_name("myprog", "_2015-07-08_10-44-11"), "myprog_2015-07-08_10-44-11.trc");
    assert_eq!(file_name("", ""), ".trc");
}

#[test]
fn max_level_is_the_highest_ceiling() {
    let cases = [
        ("", LogLevelFilter::Off),
        ("off", LogLevelFilter::Off),
        ("a=off,b=off", LogLevelFilter::Off),
        ("error", LogLevelFilter::Error),
        ("a=warn,error", LogLevelFilter::Warn),
        ("a=warn,info,b=error", LogLevelFilter::Info),
        ("debug,a=off", LogLevelFilter::Debug),
        ("a", LogLevelFilter::Trace),
        ("a=info,b=trace,c=debug", LogLevelFilter::Trace),
        ("a/b/c", LogLevelFilter::Off),
    ];
    for (spec, expected) in cases {
        let parsed = configure(Some(spec.to_string()), None);
        assert_eq!(parsed.directives.max_level(), expected, "{}", spec);
    }
    let mut table = DirectiveTable::new();
    assert_eq!(table.max_level(), LogLevelFilter::Off);
    table.insert(LogDirective::new(None, LogLevelFilter::Warn));
    table.insert(LogDirective::new(Some("x".to_string()), LogLevelFilter::Error));
    assert_eq!(table.max_level(), LogLevelFilter::Warn);
}

#[test]
fn installation_is_prepared() {
    let mut config = LogConfig::new();
    config.log_to_file = true;
    let plan = prepare(
        config,
        Some("a=info,debug,b=x/secret".to_string()),
        Some("trace".to_string()),
        "myprog",
        "_2015-07-08_10-44-11",
    );
    assert_eq!(plan.max_level, LogLevelFilter::Debug);
    assert_eq!(plan.file_name, "myprog_2015-07-08_10-44-11.trc");
    assert_eq!(
        plan.announcement,
        Some("Trace is written to myprog_2015-07-08_10-44-11.trc".to_string())
    );
    assert!(matches!(&plan.warnings[..], [SpecWarning::InvalidLevel(text)] if text == "x"));
    assert!(plan.logger.config().log_to_file);
    assert!(plan.logger.ml_enabled(LogLevel::Debug, "z"));
    assert!(!plan.logger.ml_enabled(LogLevel::Debug, "a"));
    assert!(matches!(plan.logger.route(&record(LogLevel::Error, "a", "a secret")), Routing::Discard));
    assert!(matches!(
        plan.logger.route(&record(LogLevel::Error, "a", "public")),
        Routing::File { .. }
    ));
}

#[test]
fn announcement_can_be_switched_off() {
    let mut config = LogConfig::new();
    config.print_message = false;
    let plan = prepare(config, None, None, "p", "_t");
    assert_eq!(plan.announcement, None);
    assert_eq!(plan.file_name, "p_t.trc");
    assert_eq!(plan.max_level, LogLevelFilter::Error);
    assert!(plan.warnings.is_empty());
    assert!(plan.logger.ml_enabled(LogLevel::Error, "x"));
    assert!(!plan.logger.ml_enabled(LogLevel::Warn, "x"));
}

#[test]
fn second_installation_is_an_error() {
    assert!(init_outcome(true).is_ok());
    let error = init_outcome(false).unwrap_err();
    assert_eq!(error.message(), "Logger initialization failed");
}

#[test]
fn error_holds_its_message() {
    assert_eq!(FlexiLoggerError::new("Logger initialization failed").message(), "Logger initialization failed");
    assert_eq!(FlexiLoggerError::new("").message(), "");
}

#[test]
fn default_configuration() {
    let config = LogConfig::new();
    assert!(!config.log_to_file);
    assert!(config.print_message);
    assert!(config.duplicate_error);
    assert!(!config.duplicate_info);
}
