use flexi_logger::format::{push_decimal, push_fixed_decimal};
use flexi_logger::{
    default_format, detailed_format, DefaultFormat, DetailedFormat, LogFormat, LogLevel,
    LogRecord,
};

fn record(level: LogLevel, message: &str, line: u32) -> LogRecord {
    LogRecord::new(
        level,
        "my_prog::some_submodel".to_string(),
        "my_prog::some_submodel".to_string(),
        "src/some_submodel.rs".to_string(),
        line,
        message.to_string(),
    )
}

#[test]
fn default_format_writes_level_module_and_message() {
    let r = record(LogLevel::Info, "Task successfully read from conf.json", 26);
    assert_eq!(
        default_format(&r),
        "INFO [my_prog::some_submodel] Task successfully read from conf.json"
    );
    assert_eq!(default_format(&record(LogLevel::Error, "", 1)), "ERROR [my_prog::some_submodel] ");
    assert_eq!(default_format(&record(LogLevel::Warn, "w", 1)), "WARN [my_prog::some_submodel] w");
    assert_eq!(default_format(&record(LogLevel::Debug, "d", 1)), "DEBUG [my_prog::some_submodel] d");
    assert_eq!(default_format(&record(LogLevel::Trace, "t", 1)), "TRACE [my_prog::some_submodel] t");
}

#[test]
fn default_format_uses_the_module_and_not_the_target() {
    let r = LogRecord::new(
        LogLevel::Info,
        "the_target".to_string(),
        "the::module".to_string(),
        "f.rs".to_string(),
        1,
        "m".to_string(),
    );
    assert_eq!(default_format(&r), "INFO [the::module] m");
}

#[test]
fn formatting_twice_gives_the_same_text() {
    let r = record(LogLevel::Debug, "again and again", 7);
    assert_eq!(default_format(&r), default_format(&r));
    assert_eq!(DefaultFormat.format(&r), DefaultFormat.format(&r));
    assert_eq!(DefaultFormat.format(&r), default_format(&r));
    let stamp = DetailedFormat { time: "2015-07-08 12:12:32:".to_string(), nanos: 5 };
    assert_eq!(stamp.format(&r), stamp.format(&r));
    assert_eq!(stamp.format(&r), detailed_format(&r, "2015-07-08 12:12:32:", 5));
}

#[test]
fn detailed_format_writes_time_location_and_message() {
    let r = record(LogLevel::Info, "Task successfully read from conf.json", 26);
    assert_eq!(
        detailed_format(&r, "2015-07-08 12:12:32:", 639_785_000),
        "[2015-07-08 12:12:32:639785] INFO [my_prog::some_submodel] src/some_submodel.rs:26: Task successfully read from conf.json"
    );
}

#[test]
fn detailed_format_pads_the_microseconds() {
    let r = record(LogLevel::Warn, "m", 4_294_967_295);
    assert_eq!(
        detailed_format(&r, "T:", 0),
        "[T:000000] WARN [my_prog::some_submodel] src/some_submodel.rs:4294967295: m"
    );
    assert_eq!(
        detailed_format(&r, "T:", 999),
        "[T:000000] WARN [my_prog::some_submodel] src/some_submodel.rs:4294967295: m"
    );
    assert_eq!(
        detailed_format(&r, "T:", 1_000),
        "[T:000001] WARN [my_prog::some_submodel] src/some_submodel.rs:4294967295: m"
    );
    assert_eq!(
        detailed_format(&r, "T:", 12_345_678),
        "[T:012345] WARN [my_prog::some_submodel] src/some_submodel.rs:4294967295: m"
    );
    assert_eq!(
        detailed_format(&r, "T:", 999_999_999),
        "[T:999999] WARN [my_prog::some_submodel] src/some_submodel.rs:4294967295: m"
    );
    let r = record(LogLevel::Warn, "m", 0);
    assert_eq!(
        detailed_format(&r, "", 1_500_000),
        "[001500] WARN [my_prog::some_submodel] src/some_submodel.rs:0: m"
    );
}

#[test]
fn decimal_numerals_are_written() {
    for n in [0u32, 1, 9, 10, 11, 99, 100, 101, 12_345, 1_000_000, 4_294_967_295] {
        let mut text = "n=".to_string();
        push_decimal(&mut text, n);
        assert_eq!(text, format!("n={}", n));
    }
}

#[test]
fn fixed_decimal_numerals_are_padded_and_cut() {
    let cases = [
        (0u32, 0u8, ""),
        (7, 0, ""),
        (0, 1, "0"),
        (7, 1, "7"),
        (17, 1, "7"),
        (7, 3, "007"),
        (123, 3, "123"),
        (1234, 3, "234"),
        (639_785, 6, "639785"),
        (42, 6, "000042"),
        (4_294_967_295, 12, "004294967295"),
    ];
    for (n, width, expected) in cases {
        let mut text = String::new();
        push_fixed_decimal(&mut text, n, width);
        assert_eq!(text, expected);
    }
}

#[test]
fn level_names_are_upper_case() {
    assert_eq!(LogLevel::Error.name(), "ERROR");
    assert_eq!(LogLevel::Warn.name(), "WARN");
    assert_eq!(LogLevel::Info.name(), "INFO");
    assert_eq!(LogLevel::Debug.name(), "DEBUG");
    assert_eq!(LogLevel::Trace.name(), "TRACE");
}
