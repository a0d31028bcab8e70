use flexi_logger::{
    parse_logging_spec, DirectiveTable, LogLevel, LogLevelFilter, LoggingSpec, SpecWarning,
};

const LEVELS: [LogLevel; 5] =
    [LogLevel::Error, LogLevel::Warn, LogLevel::Info, LogLevel::Debug, LogLevel::Trace];

fn names(table: &DirectiveTable) -> Vec<Option<String>> {
    (0..table.len()).map(|i| table.get(i).unwrap().name.clone()).collect()
}

fn levels(table: &DirectiveTable) -> Vec<LogLevelFilter> {
    (0..table.len()).map(|i| table.get(i).unwrap().level).collect()
}

fn some(name: &str) -> Option<String> {
    Some(name.to_string())
}

fn parse(spec: &str) -> LoggingSpec {
    parse_logging_spec(spec)
}

#[test]
fn empty_spec_gives_empty_table_and_disables_everything() {
    let parsed = parse("");
    assert_eq!(parsed.directives.len(), 0);
    assert!(parsed.filter.is_none());
    assert!(parsed.warnings.is_empty());
    for level in LEVELS {
        assert!(!parsed.directives.enabled(level, "anything"));
        assert!(!parsed.directives.enabled(level, ""));
        assert!(!parsed.directives.enabled(level, "crate1::mod"));
    }
}

#[test]
fn bare_level_is_a_global_fallback() {
    let parsed = parse("info");
    assert_eq!(names(&parsed.directives), vec![None]);
    assert_eq!(levels(&parsed.directives), vec![LogLevelFilter::Info]);
    assert!(parsed.filter.is_none());
    assert!(parsed.directives.enabled(LogLevel::Info, "anything"));
    assert!(parsed.directives.enabled(LogLevel::Warn, "anything"));
    assert!(parsed.directives.enabled(LogLevel::Error, "anything"));
    assert!(!parsed.directives.enabled(LogLevel::Debug, "anything"));
    assert!(!parsed.directives.enabled(LogLevel::Trace, "anything"));
}

#[test]
fn longer_module_directive_decides() {
    let parsed = parse("crate1::mod=debug,crate2=off");
    assert_eq!(names(&parsed.directives), vec![some("crate2"), some("crate1::mod")]);
    assert_eq!(levels(&parsed.directives), vec![LogLevelFilter::Off, LogLevelFilter::Debug]);
    assert!(parsed.directives.enabled(LogLevel::Debug, "crate1::mod::sub"));
    assert!(!parsed.directives.enabled(LogLevel::Trace, "crate1::mod::sub"));
    for level in LEVELS {
        assert!(!parsed.directives.enabled(level, "crate2"));
        assert!(!parsed.directives.enabled(level, "crate2::inner"));
        assert!(!parsed.directives.enabled(level, "crate3"));
        assert!(!parsed.directives.enabled(level, "crate1"));
    }
}

#[test]
fn more_than_one_slash_voids_the_spec() {
    for spec in ["a/b/c", "info/foo/bar", "//", "crate1=debug,info/x/", "/a/b/c/d"] {
        let parsed = parse(spec);
        assert_eq!(parsed.directives.len(), 0, "{}", spec);
        assert!(parsed.filter.is_none(), "{}", spec);
        assert_eq!(parsed.warnings.len(), 1);
        assert!(matches!(&parsed.warnings[0], SpecWarning::TooManySlashes(text) if text == spec));
        for level in LEVELS {
            assert!(!parsed.directives.enabled(level, "a"));
        }
    }
}

#[test]
fn name_with_empty_level_enables_everything_for_the_module() {
    let parsed = parse("mod=");
    assert_eq!(names(&parsed.directives), vec![some("mod")]);
    assert_eq!(levels(&parsed.directives), vec![LogLevelFilter::Trace]);
    assert_eq!(LogLevelFilter::max(), LogLevelFilter::Trace);
    for level in LEVELS {
        assert!(parsed.directives.enabled(level, "mod::x"));
        assert!(parsed.directives.enabled(level, "mod"));
        assert!(!parsed.directives.enabled(level, "other"));
        assert!(!parsed.directives.enabled(level, "mo"));
    }
}

#[test]
fn bare_name_enables_everything_for_the_module() {
    let parsed = parse("crate1,crate2::mod3");
    assert_eq!(names(&parsed.directives), vec![some("crate1"), some("crate2::mod3")]);
    assert_eq!(levels(&parsed.directives), vec![LogLevelFilter::Trace, LogLevelFilter::Trace]);
    assert!(parsed.directives.enabled(LogLevel::Trace, "crate1::x"));
    assert!(!parsed.directives.enabled(LogLevel::Error, "crate2"));
}

#[test]
fn level_keywords_and_ranks_are_read() {
    let expected = [
        ("off", "0", LogLevelFilter::Off),
        ("error", "1", LogLevelFilter::Error),
        ("warn", "2", LogLevelFilter::Warn),
        ("info", "3", LogLevelFilter::Info),
        ("debug", "4", LogLevelFilter::Debug),
        ("trace", "5", LogLevelFilter::Trace),
    ];
    for (keyword, rank, level) in expected {
        assert_eq!(LogLevelFilter::parse(keyword), Some(level));
        assert_eq!(LogLevelFilter::parse(rank), Some(level));
        let bare = parse(keyword);
        assert_eq!(names(&bare.directives), vec![None]);
        assert_eq!(levels(&bare.directives), vec![level]);
        let named = parse(&format!("m={}", rank));
        assert_eq!(names(&named.directives), vec![some("m")]);
        assert_eq!(levels(&named.directives), vec![level]);
    }
}

#[test]
fn level_keywords_are_case_sensitive() {
    for token in ["INFO", "Info", "Off", "TRACE", "6", "05", "+3", "-1", "", " info", "infos", "inf"] {
        assert_eq!(LogLevelFilter::parse(token), None, "{:?}", token);
    }
    let parsed = parse("INFO");
    assert_eq!(names(&parsed.directives), vec![some("INFO")]);
    assert_eq!(levels(&parsed.directives), vec![LogLevelFilter::Trace]);
    let parsed = parse("m=INFO");
    assert_eq!(parsed.directives.len(), 0);
    assert!(matches!(&parsed.warnings[..], [SpecWarning::InvalidLevel(text)] if text == "INFO"));
}

#[test]
fn level_behind_the_equals_sign_is_trimmed() {
    let parsed = parse("a= debug ,b=\twarn,c=   ,d= \u{3000}");
    assert_eq!(names(&parsed.directives), vec![some("a"), some("b"), some("c"), some("d")]);
    assert_eq!(
        levels(&parsed.directives),
        vec![
            LogLevelFilter::Debug,
            LogLevelFilter::Warn,
            LogLevelFilter::Trace,
            LogLevelFilter::Trace
        ]
    );
    assert!(parsed.warnings.is_empty());
}

#[test]
fn name_is_not_trimmed() {
    let parsed = parse(" a=info, info");
    assert_eq!(names(&parsed.directives), vec![some(" a"), some(" info")]);
    assert_eq!(levels(&parsed.directives), vec![LogLevelFilter::Info, LogLevelFilter::Trace]);
    assert!(parsed.directives.enabled(LogLevel::Info, " a::b"));
    assert!(!parsed.directives.enabled(LogLevel::Info, "a::b"));
}

#[test]
fn invalid_level_drops_only_that_directive() {
    let parsed = parse("a=verbose,b=warn,info");
    assert_eq!(names(&parsed.directives), vec![None, some("b")]);
    assert_eq!(levels(&parsed.directives), vec![LogLevelFilter::Info, LogLevelFilter::Warn]);
    assert!(matches!(&parsed.warnings[..], [SpecWarning::InvalidLevel(text)] if text == "verbose"));
    assert!(parsed.directives.enabled(LogLevel::Info, "a"));
    assert!(!parsed.directives.enabled(LogLevel::Info, "b"));
}

#[test]
fn more_than_one_equals_sign_drops_the_directive() {
    let parsed = parse("a=b=c,d=error,x==");
    assert_eq!(names(&parsed.directives), vec![some("d")]);
    assert_eq!(levels(&parsed.directives), vec![LogLevelFilter::Error]);
    assert_eq!(parsed.warnings.len(), 2);
    assert!(matches!(&parsed.warnings[0], SpecWarning::InvalidDirective(text) if text == "a=b=c"));
    assert!(matches!(&parsed.warnings[1], SpecWarning::InvalidDirective(text) if text == "x=="));
}

#[test]
fn empty_segments_are_skipped_silently() {
    let parsed = parse(",,a=warn,,,b,");
    assert_eq!(names(&parsed.directives), vec![some("a"), some("b")]);
    assert_eq!(levels(&parsed.directives), vec![LogLevelFilter::Warn, LogLevelFilter::Trace]);
    assert!(parsed.warnings.is_empty());
    let parsed = parse(",");
    assert_eq!(parsed.directives.len(), 0);
    assert!(parsed.warnings.is_empty());
}

#[test]
fn directive_with_empty_name_applies_to_every_target() {
    let parsed = parse("=warn");
    assert_eq!(names(&parsed.directives), vec![some("")]);
    assert_eq!(levels(&parsed.directives), vec![LogLevelFilter::Warn]);
    assert!(parsed.directives.enabled(LogLevel::Warn, "anything"));
    assert!(!parsed.directives.enabled(LogLevel::Info, "anything"));
}

#[test]
fn directives_are_sorted_by_name_length_and_stable() {
    let parsed = parse("ccc=debug,bb=info,a=warn,info,xx=error,error,bb=trace");
    assert_eq!(
        names(&parsed.directives),
        vec![None, None, some("a"), some("bb"), some("xx"), some("bb"), some("ccc")]
    );
    assert_eq!(
        levels(&parsed.directives),
        vec![
            LogLevelFilter::Info,
            LogLevelFilter::Error,
            LogLevelFilter::Warn,
            LogLevelFilter::Info,
            LogLevelFilter::Error,
            LogLevelFilter::Trace,
            LogLevelFilter::Debug
        ]
    );
    // Of two directives without a name the one written last decides.
    assert!(parsed.directives.enabled(LogLevel::Error, "zzz"));
    assert!(!parsed.directives.enabled(LogLevel::Warn, "zzz"));
    // Of two directives for one name the one written last decides.
    assert!(parsed.directives.enabled(LogLevel::Trace, "bb::x"));
}

#[test]
fn name_length_counts_characters() {
    let parsed = parse("\u{e9}\u{e9}\u{e9}=info,abcd=warn");
    assert_eq!(names(&parsed.directives), vec![some("\u{e9}\u{e9}\u{e9}"), some("abcd")]);
}

#[test]
fn pattern_is_compiled_and_matches() {
    let parsed = parse("info/fo+bar");
    assert_eq!(names(&parsed.directives), vec![None]);
    let filter = parsed.filter.expect("the pattern is valid");
    assert_eq!(filter.pattern(), "fo+bar");
    assert!(filter.excludes("a foooobar b"));
    assert!(!filter.excludes("a fbar b"));
    assert!(!filter.excludes("fo+bar"));
    assert!(parsed.warnings.is_empty());
}

#[test]
fn pattern_may_hold_commas_and_equals_signs() {
    let parsed = parse("a=warn/x=1,y");
    assert_eq!(names(&parsed.directives), vec![some("a")]);
    let filter = parsed.filter.expect("the pattern is valid");
    assert_eq!(filter.pattern(), "x=1,y");
    assert!(filter.excludes("x=1,y"));
}

#[test]
fn empty_pattern_matches_every_message() {
    let parsed = parse("info/");
    let filter = parsed.filter.expect("the empty pattern is valid");
    assert_eq!(filter.pattern(), "");
    assert!(filter.excludes(""));
    assert!(filter.excludes("anything"));
}

#[test]
fn spec_may_hold_a_pattern_only() {
    let parsed = parse("/foo");
    assert_eq!(parsed.directives.len(), 0);
    assert_eq!(parsed.filter.expect("the pattern is valid").pattern(), "foo");
}

#[test]
fn invalid_pattern_drops_the_filter_and_keeps_the_directives() {
    let parsed = parse("crate1=debug,warn/fo(o");
    assert_eq!(names(&parsed.directives), vec![None, some("crate1")]);
    assert_eq!(levels(&parsed.directives), vec![LogLevelFilter::Warn, LogLevelFilter::Debug]);
    assert!(parsed.filter.is_none());
    assert_eq!(parsed.warnings.len(), 1);
    match &parsed.warnings[0] {
        SpecWarning::InvalidFilter { pattern, reason } => {
            assert_eq!(pattern, "fo(o");
            assert!(!reason.is_empty());
        }
        other => panic!("unexpected warning {:?}", other),
    }
}

#[test]
fn warnings_come_in_the_order_of_the_spec() {
    let parsed = parse("a=x,b=c=d,e= y /(");
    assert_eq!(parsed.directives.len(), 0);
    assert_eq!(parsed.warnings.len(), 4);
    assert!(matches!(&parsed.warnings[0], SpecWarning::InvalidLevel(text) if text == "x"));
    assert!(matches!(&parsed.warnings[1], SpecWarning::InvalidDirective(text) if text == "b=c=d"));
    assert!(matches!(&parsed.warnings[2], SpecWarning::InvalidLevel(text) if text == "y"));
    assert!(matches!(&parsed.warnings[3], SpecWarning::InvalidFilter { pattern, .. } if pattern == "("));
}

#[test]
fn warnings_are_written_as_lines() {
    assert_eq!(
        SpecWarning::TooManySlashes("a/b/c".to_string()).message(),
        "warning: invalid logging spec 'a/b/c', ignoring it (too many '/'s)"
    );
    assert_eq!(
        SpecWarning::InvalidLevel("verbose".to_string()).message(),
        "warning: invalid logging spec 'verbose', ignoring it"
    );
    assert_eq!(
        SpecWarning::InvalidDirective("a=b=c".to_string()).message(),
        "warning: invalid logging spec 'a=b=c', ignoring it"
    );
    assert_eq!(
        SpecWarning::InvalidFilter { pattern: "(".to_string(), reason: "unclosed group".to_string() }
            .message(),
        "warning: invalid regex filter - unclosed group"
    );
}
