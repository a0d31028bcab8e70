//! The parser of logging specifications.
//!
//! A specification is a list of directives, separated by commas, which a slash and an
//! exclusion pattern may follow:
//!
//! ```text
//! spec      := mods ('/' pattern)?
//! mods      := directive (',' directive)*
//! directive := level | name | name '=' | name '=' level
//! ```
//!
//! A level alone is the fallback for every module. A name alone, or with nothing behind the
//! `=`, lets every level through for that module. A directive whose level cannot be read, or
//! that holds more than one `=`, is left out, and the directives beside it still count. A
//! specification with more than one slash is void: it gives no directive and no pattern.

use crate::directive::{
    enabled, lemma_stable_sort, sorted, stable_sort, Directive, DirectiveTable, LogDirective,
};
use crate::filter::{pattern_accepted, ExclusionFilter, PatternError};
use crate::level::{LogLevel, LogLevelFilter};
use crate::text::{
    chars_of, count, find, lemma_count_zero, lemma_position_unique, lemma_split_concat,
    lemma_split_len, lemma_split_shape, split, trim, trim_range,
};
use vstd::prelude::*;
use vstd::string::{StrSliceExecFns, StringExecFns};

verus! {

/// What the parser found wrong with a specification.
pub enum Warning {
    /// The specification holds more than one slash and is void.
    TooManySlashes(Seq<char>),
    /// The text behind the `=` of a directive is no level; the directive is left out.
    InvalidLevel(Seq<char>),
    /// The directive holds more than one `=` and is left out.
    InvalidDirective(Seq<char>),
    /// The pattern behind the slash was refused; there is no exclusion filter.
    InvalidFilter(Seq<char>),
}

/// What the parser found wrong with a specification, with the text it speaks of.
#[derive(Debug)]
pub enum SpecWarning {
    /// The specification holds more than one slash and is void.
    TooManySlashes(String),
    /// The text behind the `=` of a directive is no level; the directive is left out.
    InvalidLevel(String),
    /// The directive holds more than one `=` and is left out.
    InvalidDirective(String),
    /// The pattern behind the slash was refused, for the reason given; there is no
    /// exclusion filter.
    InvalidFilter { pattern: String, reason: String },
}

impl View for SpecWarning {
    type V = Warning;

    open spec fn view(&self) -> Warning {
        match self {
            SpecWarning::TooManySlashes(spec) => Warning::TooManySlashes(spec@),
            SpecWarning::InvalidLevel(level) => Warning::InvalidLevel(level@),
            SpecWarning::InvalidDirective(segment) => Warning::InvalidDirective(segment@),
            SpecWarning::InvalidFilter { pattern, reason } => Warning::InvalidFilter(pattern@),
        }
    }
}

impl SpecWarning {
    /// The warning as a line of text.
    pub open spec fn text(&self) -> Seq<char> {
        match self {
            SpecWarning::TooManySlashes(spec) => "warning: invalid logging spec '"@ + spec@
                + "', ignoring it (too many '/'s)"@,
            SpecWarning::InvalidLevel(level) => "warning: invalid logging spec '"@ + level@
                + "', ignoring it"@,
            SpecWarning::InvalidDirective(segment) => "warning: invalid logging spec '"@
                + segment@ + "', ignoring it"@,
            SpecWarning::InvalidFilter { pattern, reason } => "warning: invalid regex filter - "@
                + reason@,
        }
    }

    /// The warning as a line of text.
    pub fn message(&self) -> (line: String)
        ensures
            line@ == self.text(),
    {
        match self {
            SpecWarning::TooManySlashes(spec) => {
                let mut line = String::from_str("warning: invalid logging spec '");
                line.append(spec.as_str());
                line.append("', ignoring it (too many '/'s)");
                line
            },
            SpecWarning::InvalidLevel(level) => {
                let mut line = String::from_str("warning: invalid logging spec '");
                line.append(level.as_str());
                line.append("', ignoring it");
                line
            },
            SpecWarning::InvalidDirective(segment) => {
                let mut line = String::from_str("warning: invalid logging spec '");
                line.append(segment.as_str());
                line.append("', ignoring it");
                line
            },
            SpecWarning::InvalidFilter { pattern, reason } => {
                let mut line = String::from_str("warning: invalid regex filter - ");
                line.append(reason.as_str());
                line
            },
        }
    }
}

/// The directive that one segment of the list stands for, if it stands for one.
pub open spec fn directive_of(segment: Seq<char>) -> Option<Directive> {
    let parts = split(segment, '=');
    if segment.len() == 0 {
        None
    } else if parts.len() == 1 {
        match LogLevelFilter::from_token(segment) {
            Some(level) => Some(Directive { name: None, level }),
            None => Some(Directive { name: Some(segment), level: LogLevelFilter::max() }),
        }
    } else if parts.len() == 2 {
        let level = trim(parts[1]);
        if level.len() == 0 {
            Some(Directive { name: Some(parts[0]), level: LogLevelFilter::max() })
        } else {
            match LogLevelFilter::from_token(level) {
                Some(level) => Some(Directive { name: Some(parts[0]), level }),
                None => None,
            }
        }
    } else {
        None
    }
}

/// The warning that one segment of the list gives rise to, if any. An empty segment is
/// passed over in silence.
pub open spec fn warning_of(segment: Seq<char>) -> Option<Warning> {
    let parts = split(segment, '=');
    if parts.len() == 2 {
        let level = trim(parts[1]);
        if level.len() > 0 && LogLevelFilter::from_token(level) is None {
            Some(Warning::InvalidLevel(level))
        } else {
            None
        }
    } else if parts.len() > 2 {
        Some(Warning::InvalidDirective(segment))
    } else {
        None
    }
}

/// The directives that the segments stand for, in the order of the segments.
pub open spec fn directives_of(segments: Seq<Seq<char>>) -> Seq<Directive>
    decreases segments.len(),
{
    if segments.len() == 0 {
        Seq::empty()
    } else {
        let before = directives_of(segments.drop_last());
        match directive_of(segments.last()) {
            Some(d) => before.push(d),
            None => before,
        }
    }
}

/// The warnings that the segments give rise to, in the order of the segments.
pub open spec fn warnings_of(segments: Seq<Seq<char>>) -> Seq<Warning>
    decreases segments.len(),
{
    if segments.len() == 0 {
        Seq::empty()
    } else {
        let before = warnings_of(segments.drop_last());
        match warning_of(segments.last()) {
            Some(w) => before.push(w),
            None => before,
        }
    }
}

/// The directives of a specification in the order in which they are written. A
/// specification with more than one slash has none.
pub open spec fn raw_directives(spec: Seq<char>) -> Seq<Directive> {
    let parts = split(spec, '/');
    if parts.len() > 2 {
        Seq::empty()
    } else {
        directives_of(split(parts[0], ','))
    }
}

/// The directive table of a specification: its directives in ascending order of the
/// length of their names, those of equal length in the order in which they are written.
pub open spec fn directives(spec: Seq<char>) -> Seq<Directive> {
    stable_sort(raw_directives(spec))
}

/// The text of the exclusion pattern: what stands behind the slash of a specification
/// that holds exactly one.
pub open spec fn pattern(spec: Seq<char>) -> Option<Seq<char>> {
    let parts = split(spec, '/');
    if parts.len() == 2 {
        Some(parts[1])
    } else {
        None
    }
}

/// The warnings on the syntax of a specification.
pub open spec fn syntax_warnings(spec: Seq<char>) -> Seq<Warning> {
    let parts = split(spec, '/');
    if parts.len() > 2 {
        seq![Warning::TooManySlashes(spec)]
    } else {
        warnings_of(split(parts[0], ','))
    }
}

/// The warning on a pattern that was refused: there is one where the specification has a
/// pattern and no filter came of it.
pub open spec fn filter_warning(spec: Seq<char>, filter: Option<Seq<char>>) -> Seq<Warning> {
    match (pattern(spec), filter) {
        (Some(text), None) => seq![Warning::InvalidFilter(text)],
        _ => Seq::empty(),
    }
}

/// The item of an option as a list of one, the empty list for none.
pub open spec fn listed<A>(item: Option<A>) -> Seq<A> {
    match item {
        Some(a) => seq![a],
        None => Seq::empty(),
    }
}

/// A segment without an equals sign is a level, which is then the fallback for every
/// module, or else the name of a module, for which every level is let through.
pub proof fn lemma_bare_segment(segment: Seq<char>)
    requires
        segment.len() > 0,
        count(segment, '=') == 0,
    ensures
        directive_of(segment) == Some(
            match LogLevelFilter::from_token(segment) {
                Some(level) => Directive { name: None, level },
                None => Directive { name: Some(segment), level: LogLevelFilter::max() },
            },
        ),
        warning_of(segment) is None,
{
    lemma_count_zero(segment, '=');
}

/// A segment with one equals sign is a name and, behind the sign, a level. White space
/// around the level does not count. Without a level every level is let through; a text
/// that is no level leaves the segment without a directive and gives a warning.
pub proof fn lemma_named_segment(name: Seq<char>, level: Seq<char>)
    requires
        count(name, '=') == 0,
        count(level, '=') == 0,
    ensures
        directive_of(name.push('=') + level) == if trim(level).len() == 0 {
            Some(Directive { name: Some(name), level: LogLevelFilter::max() })
        } else {
            match LogLevelFilter::from_token(trim(level)) {
                Some(ceiling) => Some(Directive { name: Some(name), level: ceiling }),
                None => None,
            }
        },
        warning_of(name.push('=') + level) == if trim(level).len() > 0
            && LogLevelFilter::from_token(trim(level)) is None {
            Some(Warning::InvalidLevel(trim(level)))
        } else {
            None
        },
{
    lemma_count_zero(name, '=');
    lemma_count_zero(level, '=');
    lemma_split_concat(name, level, '=');
    assert(seq![name] + seq![level] =~= seq![name, level]);
}

/// A segment with more than one equals sign gives no directive and a warning.
pub proof fn lemma_malformed_segment(segment: Seq<char>)
    requires
        count(segment, '=') > 1,
    ensures
        directive_of(segment) is None,
        warning_of(segment) == Some(Warning::InvalidDirective(segment)),
{
    lemma_split_len(segment, '=');
}

/// The directives and the warnings of two lists of segments, one after the other, are
/// those of the first and then those of the second.
pub proof fn lemma_segments_concat(first: Seq<Seq<char>>, second: Seq<Seq<char>>)
    ensures
        directives_of(first + second) == directives_of(first) + directives_of(second),
        warnings_of(first + second) == warnings_of(first) + warnings_of(second),
    decreases second.len(),
{
    if second.len() == 0 {
        assert(first + second =~= first);
        assert(directives_of(first) + directives_of(second) =~= directives_of(first));
        assert(warnings_of(first) + warnings_of(second) =~= warnings_of(first));
    } else {
        lemma_segments_concat(first, second.drop_last());
        assert((first + second).drop_last() =~= first + second.drop_last());
        assert((first + second).last() == second.last());
        assert(directives_of(first + second) =~= directives_of(first) + directives_of(second));
        assert(warnings_of(first + second) =~= warnings_of(first) + warnings_of(second));
    }
}

/// A list of directives is read segment by segment: what a further segment adds does not
/// depend on the segments before it, and it is added behind them.
pub proof fn lemma_further_segment(mods: Seq<char>, segment: Seq<char>)
    requires
        count(segment, ',') == 0,
    ensures
        directives_of(split(mods.push(',') + segment, ',')) == directives_of(split(mods, ','))
            + listed(directive_of(segment)),
        warnings_of(split(mods.push(',') + segment, ',')) == warnings_of(split(mods, ','))
            + listed(warning_of(segment)),
{
    lemma_split_concat(mods, segment, ',');
    lemma_count_zero(segment, ',');
    lemma_segments_concat(split(mods, ','), seq![segment]);
    reveal_with_fuel(directives_of, 2);
    reveal_with_fuel(warnings_of, 2);
    assert(seq![segment].drop_last() =~= Seq::<Seq<char>>::empty());
    assert(directives_of(seq![segment]) =~= listed(directive_of(segment)));
    assert(warnings_of(seq![segment]) =~= listed(warning_of(segment)));
}

/// The empty specification gives no directive, no pattern and no warning, so that every
/// record is disabled.
pub proof fn lemma_empty_spec(level: LogLevel, target: Seq<char>)
    ensures
        directives(Seq::empty()) == Seq::<Directive>::empty(),
        pattern(Seq::empty()) is None,
        syntax_warnings(Seq::empty()) == Seq::<Warning>::empty(),
        !enabled(directives(Seq::empty()), level, target),
{
    let spec = Seq::<char>::empty();
    lemma_split_shape(spec, '/');
    lemma_split_shape(spec, ',');
    lemma_split_shape(spec, '=');
    reveal_with_fuel(directives_of, 2);
    reveal_with_fuel(warnings_of, 2);
    assert(seq![spec].drop_last() =~= Seq::<Seq<char>>::empty());
    assert(directives_of(seq![spec]) =~= Seq::<Directive>::empty());
    assert(warnings_of(seq![spec]) =~= Seq::<Warning>::empty());
}

/// A specification with more than one slash is void, whatever stands between the
/// slashes: it gives no directive and no pattern, so that every record is disabled, and
/// the one warning says so.
pub proof fn lemma_more_than_one_slash_is_void(
    spec: Seq<char>,
    level: LogLevel,
    target: Seq<char>,
)
    requires
        count(spec, '/') > 1,
    ensures
        directives(spec) == Seq::<Directive>::empty(),
        pattern(spec) is None,
        syntax_warnings(spec) == seq![Warning::TooManySlashes(spec)],
        !enabled(directives(spec), level, target),
{
    lemma_split_len(spec, '/');
}

/// A specification without a slash has no pattern, and all of it is the list of
/// directives.
pub proof fn lemma_no_slash(spec: Seq<char>)
    requires
        count(spec, '/') == 0,
    ensures
        pattern(spec) is None,
        raw_directives(spec) == directives_of(split(spec, ',')),
        syntax_warnings(spec) == warnings_of(split(spec, ',')),
{
    lemma_split_len(spec, '/');
    lemma_split_shape(spec, '/');
}

/// In a specification with one slash the list of directives stands before the slash and
/// the pattern behind it. The pattern is taken as it stands: commas and equals signs in it
/// mean nothing to the parser.
pub proof fn lemma_one_slash(mods: Seq<char>, text: Seq<char>)
    requires
        count(mods, '/') == 0,
        count(text, '/') == 0,
    ensures
        pattern(mods.push('/') + text) == Some(text),
        raw_directives(mods.push('/') + text) == directives_of(split(mods, ',')),
        syntax_warnings(mods.push('/') + text) == warnings_of(split(mods, ',')),
{
    let spec = mods.push('/') + text;
    lemma_count_zero(mods, '/');
    lemma_count_zero(text, '/');
    lemma_position_unique(spec, '/', mods.len() as int);
    assert(spec.skip(mods.len() as int + 1) =~= text);
    assert(spec.take(mods.len() as int) =~= mods);
    lemma_position_unique(text, '/', text.len() as int);
    lemma_split_shape(spec, '/');
}

/// The table of every specification is sorted by the length of the names and holds
/// the directives of the specification, each as often as it is written.
pub proof fn lemma_table_of_spec(spec: Seq<char>)
    ensures
        sorted(directives(spec)),
        directives(spec).len() == raw_directives(spec).len(),
{
    lemma_stable_sort(raw_directives(spec));
}

/// What one segment was read as.
enum Segment {
    /// The segment is empty.
    Nothing,
    /// The segment is a directive.
    Rule(LogDirective),
    /// The segment is left out with a warning.
    Refused(SpecWarning),
}

impl Segment {
    spec fn rule(self) -> Option<Directive> {
        match self {
            Segment::Rule(d) => Some(d@),
            _ => None,
        }
    }

    spec fn warning(self) -> Option<Warning> {
        match self {
            Segment::Refused(w) => Some(w@),
            _ => None,
        }
    }
}

/// A parsed specification.
pub struct LoggingSpec {
    /// The directive table.
    pub directives: DirectiveTable,
    /// The exclusion filter, if the specification has a pattern and it was accepted.
    pub filter: Option<ExclusionFilter>,
    /// What the parser found wrong, in the order in which it found it.
    pub warnings: Vec<SpecWarning>,
}

impl LoggingSpec {
    /// The pattern text of the filter.
    pub open spec fn filter_view(self) -> Option<Seq<char>> {
        match self.filter {
            Some(filter) => Some(filter@),
            None => None,
        }
    }

    /// The warnings as plain values.
    pub open spec fn warnings_view(self) -> Seq<Warning> {
        self.warnings@.map_values(|w: SpecWarning| w@)
    }

    /// Whether this is what the specification `spec` parses to.
    pub open spec fn is_parse_of(self, spec: Seq<char>) -> bool {
        parse_of(self.directives@, self.filter, self.warnings_view(), spec)
    }
}

/// Whether a table, a filter and warnings are what the specification `spec` parses to.
/// The directives and the warnings on the syntax are those of the grammar. There is a
/// filter exactly where the specification has a pattern and the pattern compiler accepts
/// it; the filter holds that pattern and matches what the pattern as written matches.
/// Where the pattern is refused the last warning says so.
pub open spec fn parse_of(
    table: Seq<Directive>,
    filter: Option<ExclusionFilter>,
    warnings: Seq<Warning>,
    spec: Seq<char>,
) -> bool {
    &&& table == directives(spec)
    &&& filter is Some <==> (pattern(spec) matches Some(text) && pattern_accepted(text))
    &&& filter matches Some(compiled) ==> pattern(spec) == Some(compiled@)
        && compiled.matches_as_written()
    &&& warnings == syntax_warnings(spec) + filter_warning(
        spec,
        match filter {
            Some(compiled) => Some(compiled@),
            None => None,
        },
    )
}

/// The text in `from..to` of `spec` as a string of its own.
fn text_of(spec: &str, chars: &[char], from: usize, to: usize) -> (r: String)
    requires
        chars@ == spec@,
        from <= to <= chars@.len(),
    ensures
        r@ == chars@.subrange(from as int, to as int),
{
    String::from_str(spec.substring_char(from, to))
}

/// Reads the segment that stands in `from..to`.
fn parse_segment(spec: &str, chars: &[char], from: usize, to: usize) -> (r: Segment)
    requires
        chars@ == spec@,
        from <= to <= chars@.len(),
    ensures
        r.rule() == directive_of(chars@.subrange(from as int, to as int)),
        r.warning() == warning_of(chars@.subrange(from as int, to as int)),
{
    let ghost segment = chars@.subrange(from as int, to as int);
    proof {
        lemma_split_shape(segment, '=');
    }
    if from == to {
        return Segment::Nothing;
    }
    let eq = find(chars, from, to, '=');
    if eq == to {
        return match LogLevelFilter::parse_range(chars, from, to) {
            Some(level) => Segment::Rule(LogDirective::new(None, level)),
            None => Segment::Rule(
                LogDirective::new(Some(text_of(spec, chars, from, to)), LogLevelFilter::max()),
            ),
        };
    }
    let ghost rest = segment.skip(eq - from + 1);
    assert(rest =~= chars@.subrange(eq + 1, to as int));
    assert(segment.take(eq - from) =~= chars@.subrange(from as int, eq as int));
    let second = find(chars, eq + 1, to, '=');
    if second < to {
        return Segment::Refused(SpecWarning::InvalidDirective(text_of(spec, chars, from, to)));
    }
    let (a, b) = trim_range(chars, eq + 1, to);
    if a == b {
        return Segment::Rule(
            LogDirective::new(Some(text_of(spec, chars, from, eq)), LogLevelFilter::max()),
        );
    }
    match LogLevelFilter::parse_range(chars, a, b) {
        Some(level) => Segment::Rule(LogDirective::new(Some(text_of(spec, chars, from, eq)), level)),
        None => Segment::Refused(SpecWarning::InvalidLevel(text_of(spec, chars, a, b))),
    }
}

/// Reads the list of directives that stands in `from..to`, puts each directive at its
/// place in `table` and adds the warnings to `warnings`.
fn parse_mods(
    spec: &str,
    chars: &[char],
    from: usize,
    to: usize,
    warnings: &mut Vec<SpecWarning>,
) -> (table: DirectiveTable)
    requires
        chars@ == spec@,
        from <= to <= chars@.len(),
    ensures
        table@ == stable_sort(
            directives_of(split(chars@.subrange(from as int, to as int), ',')),
        ),
        final(warnings)@.map_values(|w: SpecWarning| w@) == old(warnings)@.map_values(
            |w: SpecWarning| w@,
        ) + warnings_of(split(chars@.subrange(from as int, to as int), ',')),
{
    let ghost mods = chars@.subrange(from as int, to as int);
    let ghost warned = warnings@.map_values(|w: SpecWarning| w@);
    let ghost mut done: Seq<Seq<char>> = Seq::empty();
    let mut table = DirectiveTable::new();
    let mut start = from;
    assert(mods.skip(0) =~= mods);
    assert(done + split(mods, ',') =~= split(mods, ','));
    loop
        invariant_except_break
            split(mods, ',') == done + split(mods.skip(start - from), ','),
            table@ == stable_sort(directives_of(done)),
            warnings@.map_values(|w: SpecWarning| w@) == warned + warnings_of(done),
        invariant
            chars@ == spec@,
            from <= start <= to <= chars@.len(),
            mods == chars@.subrange(from as int, to as int),
        ensures
            table@ == stable_sort(directives_of(split(mods, ','))),
            warnings@.map_values(|w: SpecWarning| w@) == warned + warnings_of(split(mods, ',')),
        decreases to - start,
    {
        let end = find(chars, start, to, ',');
        let ghost tail = mods.skip(start - from);
        let ghost piece = chars@.subrange(start as int, end as int);
        let ghost seen = warnings@;
        proof {
            assert(tail =~= chars@.subrange(start as int, to as int));
            lemma_split_shape(tail, ',');
            assert(tail.take(end - start) =~= piece);
            assert(done.push(piece).drop_last() =~= done);
        }
        match parse_segment(spec, chars, start, end) {
            Segment::Nothing => {},
            Segment::Rule(directive) => {
                assert(directives_of(done).push(directive@).drop_last() =~= directives_of(done));
                table.insert(directive);
            },
            Segment::Refused(warning) => {
                warnings.push(warning);
                assert(warnings@.map_values(|w: SpecWarning| w@) =~= seen.map_values(
                    |w: SpecWarning| w@,
                ).push(warning@));
            },
        }
        proof {
            assert(table@ == stable_sort(directives_of(done.push(piece))));
            assert(warnings@.map_values(|w: SpecWarning| w@) =~= warned + warnings_of(
                done.push(piece),
            ));
        }
        if end == to {
            proof {
                assert(split(tail, ',') == seq![tail]);
                assert(done + seq![tail] =~= done.push(piece));
            }
            break ;
        }
        proof {
            assert(tail.skip(end - start + 1) =~= mods.skip(end + 1 - from));
            assert(done + (seq![piece] + split(mods.skip(end + 1 - from), ',')) =~= done.push(
                piece,
            ) + split(mods.skip(end + 1 - from), ','));
            done = done.push(piece);
        }
        start = end + 1;
    }
    table
}

/// Parses a logging specification such as `crate1,crate2::mod3,crate3::x=error/foo`.
///
/// The directives and the warnings on the syntax are as the grammar says. The pattern,
/// if there is one, is handed to the pattern compiler as it stands; where the compiler
/// refuses it there is no filter and one more warning, and the directives are kept.
pub fn parse_logging_spec(spec: &str) -> (parsed: LoggingSpec)
    ensures
        parsed.is_parse_of(spec@),
{
    let owned = chars_of(spec);
    let chars = owned.as_slice();
    let n = chars.len();
    let mut warnings: Vec<SpecWarning> = Vec::new();
    let ghost whole = chars@.subrange(0, n as int);
    proof {
        assert(whole =~= spec@);
        lemma_split_shape(spec@, '/');
        assert(warnings@.map_values(|w: SpecWarning| w@) =~= Seq::<Warning>::empty());
    }
    let slash = find(chars, 0, n, '/');
    if slash == n {
        let directives = parse_mods(spec, chars, 0, n, &mut warnings);
        proof {
            assert(warnings@.map_values(|w: SpecWarning| w@) =~= syntax_warnings(spec@)
                + filter_warning(spec@, None));
        }
        return LoggingSpec { directives, filter: None, warnings };
    }
    let ghost rest = spec@.skip(slash + 1);
    assert(rest =~= chars@.subrange(slash + 1, n as int));
    assert(spec@.take(slash as int) =~= chars@.subrange(0, slash as int));
    let second = find(chars, slash + 1, n, '/');
    if second < n {
        warnings.push(SpecWarning::TooManySlashes(text_of(spec, chars, 0, n)));
        let directives = DirectiveTable::new();
        proof {
            assert(warnings@.map_values(|w: SpecWarning| w@) =~= seq![
                Warning::TooManySlashes(spec@),
            ]);
            assert(syntax_warnings(spec@) + filter_warning(spec@, None) =~= syntax_warnings(
                spec@,
            ));
        }
        return LoggingSpec { directives, filter: None, warnings };
    }
    let directives = parse_mods(spec, chars, 0, slash, &mut warnings);
    let text = spec.substring_char(slash + 1, n);
    let compiled = ExclusionFilter::compile(text);
    let ghost syntax = warnings@;
    let parsed = with_compiled(directives, warnings, text, compiled);
    proof {
        assert(syntax.map_values(|w: SpecWarning| w@) =~= syntax_warnings(spec@));
        if parsed.filter is None {
            assert(parsed.warnings@ =~= syntax.push(parsed.warnings@.last()));
            assert(parsed.warnings_view() =~= syntax_warnings(spec@) + seq![
                Warning::InvalidFilter(rest),
            ]);
        } else {
            assert(parsed.warnings_view() =~= syntax_warnings(spec@) + Seq::<Warning>::empty());
        }
    }
    parsed
}

/// Puts a parsed specification together from its directives, the warnings on its syntax
/// and what the pattern compiler made of its pattern `text`. An accepted pattern is the
/// filter. For a refused one there is no filter and a further warning, which names the
/// pattern and the reason; the directives are kept.
pub fn with_compiled(
    directives: DirectiveTable,
    warnings: Vec<SpecWarning>,
    text: &str,
    compiled: Result<ExclusionFilter, PatternError>,
) -> (parsed: LoggingSpec)
    ensures
        parsed.directives == directives,
        match compiled {
            Ok(filter) => parsed.filter == Some(filter) && parsed.warnings@ == warnings@,
            Err(error) => {
                &&& parsed.filter is None
                &&& parsed.warnings@.len() == warnings@.len() + 1
                &&& parsed.warnings@.drop_last() == warnings@
                &&& parsed.warnings@.last() matches SpecWarning::InvalidFilter { pattern, reason }
                &&& pattern@ == text@
                &&& reason == error.reason
            },
        },
{
    match compiled {
        Ok(filter) => LoggingSpec { directives, filter: Some(filter), warnings },
        Err(error) => {
            let mut warnings = warnings;
            let ghost before = warnings@;
            warnings.push(
                SpecWarning::InvalidFilter {
                    pattern: String::from_str(text),
                    reason: error.reason,
                },
            );
            assert(warnings@.drop_last() =~= before);
            LoggingSpec { directives, filter: None, warnings }
        },
    }
}

} // verus!
