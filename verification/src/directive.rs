//! Directives and the table that answers whether a record is enabled.
//!
//! A directive names a module prefix, or none, and a ceiling on the severity. The table keeps
//! its directives in ascending order of the length of their names, those of equal length in
//! the order in which they came. The last directive of the table that applies to a target
//! decides for it, so the longest matching name wins, and a directive without a name is the
//! fallback for every target.

use crate::level::{LogLevel, LogLevelFilter};
use crate::text::{begins_with, chars_of, starts_with};
use vstd::prelude::*;
use vstd::string::StrSliceExecFns;

verus! {

/// What a directive says: the module prefix it is for, or none for all modules, and the
/// ceiling it sets.
pub struct Directive {
    pub name: Option<Seq<char>>,
    pub level: LogLevelFilter,
}

impl Directive {
    /// The number of characters of the name, 0 for a directive without a name.
    pub open spec fn name_len(self) -> nat {
        match self.name {
            Some(name) => name.len(),
            None => 0,
        }
    }

    /// Whether the directive speaks of `target`: it has no name, or `target` begins with
    /// its name.
    pub open spec fn applies_to(self, target: Seq<char>) -> bool {
        match self.name {
            Some(name) => name.is_prefix_of(target),
            None => true,
        }
    }
}

/// A directive as the parser builds it.
#[derive(Debug)]
pub struct LogDirective {
    pub name: Option<String>,
    pub level: LogLevelFilter,
}

impl View for LogDirective {
    type V = Directive;

    open spec fn view(&self) -> Directive {
        Directive {
            name: match self.name {
                Some(name) => Some(name@),
                None => None,
            },
            level: self.level,
        }
    }
}

impl LogDirective {
    /// A directive for the modules whose path begins with `name`, or for all modules.
    pub fn new(name: Option<String>, level: LogLevelFilter) -> (d: LogDirective)
        ensures
            d.name == name,
            d.level == level,
    {
        LogDirective { name, level }
    }

    /// The number of characters of the name, 0 for a directive without a name.
    pub fn name_len(&self) -> (n: usize)
        ensures
            n == self@.name_len(),
    {
        match &self.name {
            Some(name) => name.as_str().unicode_len(),
            None => 0,
        }
    }

    /// Whether the directive speaks of `target`.
    pub fn applies_to(&self, target: &str) -> (r: bool)
        ensures
            r == self@.applies_to(target@),
    {
        match &self.name {
            Some(name) => starts_with(target, name.as_str()),
            None => true,
        }
    }

    /// Whether the directive speaks of the target with the characters `target`.
    pub fn applies_to_chars(&self, target: &[char]) -> (r: bool)
        ensures
            r == self@.applies_to(target@),
    {
        match &self.name {
            Some(name) => begins_with(target, name.as_str()),
            None => true,
        }
    }
}

/// The directives stand in ascending order of the length of their names.
pub open spec fn sorted(table: Seq<Directive>) -> bool {
    forall|i: int, j: int|
        0 <= i <= j < table.len() ==> table[i].name_len() <= table[j].name_len()
}

/// The directives of `table` whose names are `len` characters long, in their order.
pub open spec fn with_name_len(table: Seq<Directive>, len: nat) -> Seq<Directive> {
    table.filter(|d: Directive| d.name_len() == len)
}

/// The number of directives at the start of `table` whose names are at most `len`
/// characters long. In a sorted table this is the place behind all of them.
pub open spec fn insertion_point(table: Seq<Directive>, len: nat) -> nat
    decreases table.len(),
{
    if table.len() == 0 || table[0].name_len() > len {
        0
    } else {
        1 + insertion_point(table.drop_first(), len)
    }
}

/// `table` with `d` put behind the directives whose names are no longer than its own.
pub open spec fn sorted_insert(table: Seq<Directive>, d: Directive) -> Seq<Directive> {
    table.insert(insertion_point(table, d.name_len()) as int, d)
}

/// The directives of `raw` in ascending order of the length of their names, those of equal
/// length in the order they have in `raw`.
pub open spec fn stable_sort(raw: Seq<Directive>) -> Seq<Directive>
    decreases raw.len(),
{
    if raw.len() == 0 {
        Seq::empty()
    } else {
        sorted_insert(stable_sort(raw.drop_last()), raw.last())
    }
}

/// The index of the directive that decides for `target`: the last one that applies to it.
/// None where no directive applies.
pub open spec fn deciding(table: Seq<Directive>, target: Seq<char>) -> Option<int>
    decreases table.len(),
{
    if table.len() == 0 {
        None
    } else if table.last().applies_to(target) {
        Some(table.len() - 1)
    } else {
        deciding(table.drop_last(), target)
    }
}

/// Whether a record of severity `level` for `target` is enabled: the deciding directive
/// lets the level through. Where no directive applies the record is disabled.
pub open spec fn enabled(table: Seq<Directive>, level: LogLevel, target: Seq<char>) -> bool {
    match deciding(table, target) {
        Some(i) => table[i].level.allows(level),
        None => false,
    }
}

/// The highest ceiling of the table, `Off` for the empty table.
pub open spec fn max_level(table: Seq<Directive>) -> LogLevelFilter
    decreases table.len(),
{
    if table.len() == 0 {
        LogLevelFilter::Off
    } else {
        let rest = max_level(table.drop_last());
        if table.last().level.rank() > rest.rank() {
            table.last().level
        } else {
            rest
        }
    }
}

/// `insertion_point` lies behind directives with names of at most `len` characters and
/// before one with a longer name.
pub proof fn lemma_insertion_point(table: Seq<Directive>, len: nat)
    ensures
        insertion_point(table, len) <= table.len(),
        forall|j: int| 0 <= j < insertion_point(table, len) ==> table[j].name_len() <= len,
        insertion_point(table, len) < table.len() ==> table[insertion_point(
            table,
            len,
        ) as int].name_len() > len,
    decreases table.len(),
{
    if table.len() == 0 || table[0].name_len() > len {
    } else {
        let rest = table.drop_first();
        lemma_insertion_point(rest, len);
        assert forall|j: int| 0 <= j < insertion_point(table, len) implies table[j].name_len()
            <= len by {
            if j > 0 {
                assert(table[j] == rest[j - 1]);
            }
        }
        assert(insertion_point(table, len) < table.len() ==> table[insertion_point(
            table,
            len,
        ) as int] == rest[insertion_point(rest, len) as int]);
    }
}

/// A place behind directives with names of at most `len` characters, at which the table
/// ends or a longer name stands, is the `insertion_point`.
pub proof fn lemma_insertion_point_unique(table: Seq<Directive>, len: nat, p: int)
    requires
        0 <= p <= table.len(),
        forall|j: int| 0 <= j < p ==> table[j].name_len() <= len,
        p < table.len() ==> table[p].name_len() > len,
    ensures
        insertion_point(table, len) == p,
{
    lemma_insertion_point(table, len);
    let q = insertion_point(table, len) as int;
    if q < p {
        assert(table[q].name_len() <= len);
    } else if p < q {
        assert(table[p].name_len() <= len);
    }
}

/// Putting a directive into a sorted table leaves it sorted, keeps the directives of every
/// other name length as they were, and puts the new one behind those of its own.
pub proof fn lemma_sorted_insert(table: Seq<Directive>, d: Directive)
    requires
        sorted(table),
    ensures
        sorted(sorted_insert(table, d)),
        sorted_insert(table, d).len() == table.len() + 1,
        forall|len: nat|
            with_name_len(sorted_insert(table, d), len) == #[trigger] with_name_len(
                table.push(d),
                len,
            ),
{
    let p = insertion_point(table, d.name_len()) as int;
    lemma_insertion_point(table, d.name_len());
    let out = sorted_insert(table, d);
    let head = table.subrange(0, p);
    let tail = table.subrange(p, table.len() as int);
    assert(out == head.push(d) + tail);
    assert(table =~= head + tail);
    assert forall|i: int, j: int| 0 <= i <= j < out.len() implies out[i].name_len()
        <= out[j].name_len() by {
        if j < p {
        } else if j == p {
        } else {
            assert(out[j] == table[j - 1]);
            if i < p {
                assert(out[i] == table[i]);
            } else if i == p {
                assert(table[p].name_len() > d.name_len());
                assert(table[p].name_len() <= table[j - 1].name_len());
            } else {
                assert(out[i] == table[i - 1]);
            }
        }
    }
    assert forall|len: nat|
        with_name_len(out, len) == #[trigger] with_name_len(table.push(d), len) by {
        let pred = |e: Directive| e.name_len() == len;
        Seq::filter_distributes_over_add(head.push(d), tail, pred);
        Seq::filter_distributes_over_add(head, tail, pred);
        head.lemma_filter_push(d, pred);
        table.lemma_filter_push(d, pred);
        if len == d.name_len() {
            assert(tail.filter(pred).len() == 0) by {
                
                if tail.filter(pred).len() > 0 {
                    let e = tail.filter(pred)[0];
                    tail.lemma_filter_pred(pred, 0);
                    assert(pred(e));
                    lemma_filter_is_member(tail, pred, 0);
                    let k = choose|k: int| 0 <= k < tail.len() && tail[k] == e;
                    assert(tail[k] == table[p + k]);
                    assert(table[p].name_len() <= table[p + k].name_len());
                }
            }
            assert(tail.filter(pred) =~= Seq::<Directive>::empty());
            assert(head.filter(pred).push(d) + tail.filter(pred) =~= (head.filter(pred)
                + tail.filter(pred)).push(d));
        }
    }
}

/// Each element of a filtered sequence is an element of the sequence.
proof fn lemma_filter_is_member(s: Seq<Directive>, pred: spec_fn(Directive) -> bool, i: int)
    requires
        0 <= i < s.filter(pred).len(),
    ensures
        exists|k: int| 0 <= k < s.len() && s[k] == s.filter(pred)[i],
    decreases s.len(),
{
    reveal(Seq::filter);
    if s.len() > 0 {
        let sub = s.drop_last().filter(pred);
        if i < sub.len() {
            lemma_filter_is_member(s.drop_last(), pred, i);
            let k = choose|k: int| 0 <= k < s.drop_last().len() && s.drop_last()[k] == sub[i];
            assert(s[k] == s.filter(pred)[i]);
        } else {
            assert(s[s.len() - 1] == s.filter(pred)[i]);
        }
    }
}

/// The stable sort is sorted, holds as many directives as it was given, and keeps those of
/// each name length in the order in which they were given. Together the three say where
/// every directive stands.
pub proof fn lemma_stable_sort(raw: Seq<Directive>)
    ensures
        sorted(stable_sort(raw)),
        stable_sort(raw).len() == raw.len(),
        forall|len: nat|
            with_name_len(stable_sort(raw), len) == #[trigger] with_name_len(raw, len),
    decreases raw.len(),
{
    if raw.len() == 0 {
        assert(stable_sort(raw) =~= raw);
    } else {
        let init = raw.drop_last();
        let d = raw.last();
        lemma_stable_sort(init);
        lemma_sorted_insert(stable_sort(init), d);
        assert(raw =~= init.push(d));
        assert forall|len: nat|
            with_name_len(stable_sort(raw), len) == #[trigger] with_name_len(raw, len) by {
            let pred = |e: Directive| e.name_len() == len;
            assert(with_name_len(stable_sort(raw), len) == with_name_len(
                stable_sort(init).push(d),
                len,
            ));
            stable_sort(init).lemma_filter_push(d, pred);
            init.lemma_filter_push(d, pred);
            assert(with_name_len(stable_sort(init), len) == with_name_len(init, len));
        }
    }
}

/// A sorted table is known by its directives of each name length: two sorted tables that
/// hold the same directives of every length, in the same order, are one table.
pub proof fn lemma_sorted_tables_agree(a: Seq<Directive>, b: Seq<Directive>)
    requires
        sorted(a),
        sorted(b),
        forall|len: nat| with_name_len(a, len) == with_name_len(b, len),
    ensures
        a == b,
    decreases a.len() + b.len(),
{
    if a.len() == 0 && b.len() == 0 {
        assert(a =~= b);
    } else if a.len() == 0 || (b.len() > 0 && a.last().name_len() <= b.last().name_len()) {
        lemma_last_is_shared(b, a);
        lemma_sorted_tables_agree_step(a, b);
    } else {
        lemma_last_is_shared(a, b);
        lemma_sorted_tables_agree_step(a, b);
    }
}

/// Where `a` ends in a directive whose name is at least as long as any name in `b`, and
/// the two tables hold the same directives of every length, `b` ends in that directive.
proof fn lemma_last_is_shared(a: Seq<Directive>, b: Seq<Directive>)
    requires
        a.len() > 0,
        sorted(b),
        b.len() > 0 ==> b.last().name_len() <= a.last().name_len(),
        forall|len: nat| with_name_len(a, len) == with_name_len(b, len),
    ensures
        b.len() > 0,
        b.last() == a.last(),
{
    let len = a.last().name_len();
    let pred = |d: Directive| d.name_len() == len;
    assert(a =~= a.drop_last().push(a.last()));
    a.drop_last().lemma_filter_push(a.last(), pred);
    let shared = with_name_len(a, len);
    assert(shared.len() > 0 && shared.last() == a.last());
    assert(shared == with_name_len(b, len));
    b.lemma_filter_len(pred);
    assert(b =~= b.drop_last().push(b.last()));
    b.drop_last().lemma_filter_push(b.last(), pred);
    if b.last().name_len() != len {
        let i = shared.len() - 1;
        lemma_filter_is_member(b.drop_last(), pred, i);
        let k = choose|k: int| 0 <= k < b.drop_last().len() && b.drop_last()[k] == shared[i];
        assert(b[k] == a.last());
        assert(b[k].name_len() <= b.last().name_len());
    }
}

/// Two sorted tables that end in the same directive and hold the same directives of every
/// length are one table if the tables before that directive are.
proof fn lemma_sorted_tables_agree_step(a: Seq<Directive>, b: Seq<Directive>)
    requires
        a.len() > 0,
        b.len() > 0,
        a.last() == b.last(),
        sorted(a),
        sorted(b),
        forall|len: nat| with_name_len(a, len) == with_name_len(b, len),
    ensures
        a == b,
    decreases a.len() + b.len(), 0nat,
{
    let last = a.last();
    let a0 = a.drop_last();
    let b0 = b.drop_last();
    assert(a =~= a0.push(last));
    assert(b =~= b0.push(last));
    assert forall|len: nat| with_name_len(a0, len) == with_name_len(b0, len) by {
        let pred = |d: Directive| d.name_len() == len;
        a0.lemma_filter_push(last, pred);
        b0.lemma_filter_push(last, pred);
        assert(with_name_len(a, len) == with_name_len(b, len));
        if pred(last) {
            assert(a0.filter(pred).push(last).drop_last() =~= a0.filter(pred));
            assert(b0.filter(pred).push(last).drop_last() =~= b0.filter(pred));
        }
    }
    assert(sorted(a0)) by {
        assert forall|i: int, j: int| 0 <= i <= j < a0.len() implies a0[i].name_len()
            <= a0[j].name_len() by {
            assert(a0[i] == a[i] && a0[j] == a[j]);
        }
    }
    assert(sorted(b0)) by {
        assert forall|i: int, j: int| 0 <= i <= j < b0.len() implies b0[i].name_len()
            <= b0[j].name_len() by {
            assert(b0[i] == b[i] && b0[j] == b[j]);
        }
    }
    lemma_sorted_tables_agree(a0, b0);
}

/// The stable sort is the only table that is sorted and keeps the directives of each name
/// length in the order in which they were given.
pub proof fn lemma_stable_sort_unique(raw: Seq<Directive>, table: Seq<Directive>)
    requires
        sorted(table),
        forall|len: nat| with_name_len(table, len) == with_name_len(raw, len),
    ensures
        table == stable_sort(raw),
{
    lemma_stable_sort(raw);
    assert forall|len: nat| with_name_len(table, len) == with_name_len(stable_sort(raw), len) by {
        assert(with_name_len(stable_sort(raw), len) == with_name_len(raw, len));
    }
    lemma_sorted_tables_agree(table, stable_sort(raw));
}

/// The deciding directive is the last that applies; there is none exactly when no
/// directive applies.
pub proof fn lemma_deciding(table: Seq<Directive>, target: Seq<char>)
    ensures
        match deciding(table, target) {
            Some(i) => {
                &&& 0 <= i < table.len()
                &&& table[i].applies_to(target)
                &&& forall|j: int| i < j < table.len() ==> !table[j].applies_to(target)
            },
            None => forall|j: int| 0 <= j < table.len() ==> !table[j].applies_to(target),
        },
    decreases table.len(),
{
    if table.len() == 0 {
    } else if table.last().applies_to(target) {
    } else {
        let init = table.drop_last();
        lemma_deciding(init, target);
        match deciding(init, target) {
            Some(i) => {
                assert forall|j: int| i < j < table.len() implies !table[j].applies_to(
                    target,
                ) by {
                    if j < init.len() {
                        assert(table[j] == init[j]);
                    }
                }
            },
            None => {
                assert forall|j: int| 0 <= j < table.len() implies !table[j].applies_to(
                    target,
                ) by {
                    if j < init.len() {
                        assert(table[j] == init[j]);
                    }
                }
            },
        }
    }
}

/// In a sorted table the longest matching name wins: no directive that applies to the
/// target has a longer name than the one that decides. A directive without a name applies
/// to every target, so with one in the table some directive always decides. A directive
/// with the empty name applies to every target too and is as long as one without a name:
/// of the two the one given last decides.
pub proof fn lemma_longest_name_decides(table: Seq<Directive>, target: Seq<char>, j: int)
    requires
        sorted(table),
        0 <= j < table.len(),
        table[j].applies_to(target),
    ensures
        deciding(table, target) matches Some(i) && table[j].name_len() <= table[i].name_len(),
{
    lemma_deciding(table, target);
}

/// Two directives that apply to one target and have names of one length have the same
/// name, so the order among directives of equal length matters only between directives
/// for the same name, of which the one given last decides.
pub proof fn lemma_equal_length_same_name(a: Directive, b: Directive, target: Seq<char>)
    requires
        a.applies_to(target),
        b.applies_to(target),
        a.name is Some,
        b.name is Some,
        a.name_len() == b.name_len(),
    ensures
        a.name == b.name,
{
    assert(a.name->0 =~= b.name->0);
}

/// With no directive every record is disabled.
pub proof fn lemma_empty_table_disables(level: LogLevel, target: Seq<char>)
    ensures
        !enabled(Seq::<Directive>::empty(), level, target),
{
}

/// The highest ceiling is the ceiling of some directive and no directive has a higher
/// one; a record above it is enabled for no target.
pub proof fn lemma_max_level(table: Seq<Directive>)
    ensures
        forall|i: int| 0 <= i < table.len() ==> table[i].level.rank() <= max_level(table).rank(),
        table.len() > 0 ==> exists|i: int|
            0 <= i < table.len() && table[i].level == max_level(table),
        table.len() == 0 ==> max_level(table) == LogLevelFilter::Off,
    decreases table.len(),
{
    if table.len() > 0 {
        let init = table.drop_last();
        lemma_max_level(init);
        assert forall|i: int| 0 <= i < table.len() implies table[i].level.rank() <= max_level(
            table,
        ).rank() by {
            if i < init.len() {
                assert(table[i] == init[i]);
            }
        }
        if table.last().level.rank() > max_level(init).rank() || init.len() == 0 {
            assert(table[table.len() - 1].level == max_level(table));
        } else {
            let i = choose|i: int| 0 <= i < init.len() && init[i].level == max_level(init);
            assert(table[i].level == max_level(table));
        }
    }
}

/// No record more verbose than the highest ceiling is enabled.
pub proof fn lemma_above_max_level_disabled(
    table: Seq<Directive>,
    level: LogLevel,
    target: Seq<char>,
)
    requires
        level.rank() > max_level(table).rank(),
    ensures
        !enabled(table, level, target),
{
    lemma_max_level(table);
    lemma_deciding(table, target);
}

/// An ordered table of directives.
#[derive(Debug)]
pub struct DirectiveTable {
    directives: Vec<LogDirective>,
}

impl View for DirectiveTable {
    type V = Seq<Directive>;

    closed spec fn view(&self) -> Seq<Directive> {
        self.directives@.map_values(|d: LogDirective| d@)
    }
}

impl DirectiveTable {
    #[verifier::type_invariant]
    spec fn in_order(self) -> bool {
        sorted(self@)
    }

    /// The table without directives, for which every record is disabled.
    pub fn new() -> (table: DirectiveTable)
        ensures
            table@ == Seq::<Directive>::empty(),
    {
        let table = DirectiveTable { directives: Vec::new() };
        assert(table@ =~= Seq::<Directive>::empty());
        table
    }

    /// The number of directives. Every table is in order.
    pub fn len(&self) -> (n: usize)
        ensures
            n == self@.len(),
            sorted(self@),
    {
        proof {
            use_type_invariant(self);
        }
        self.directives.len()
    }

    /// The directive at place `i`.
    pub fn get(&self, i: usize) -> (d: Option<&LogDirective>)
        ensures
            i < self@.len() ==> (d matches Some(found) && found@ == self@[i as int]),
            i >= self@.len() ==> d is None,
    {
        if i < self.directives.len() {
            Some(&self.directives[i])
        } else {
            None
        }
    }

    /// Puts `directive` behind the directives whose names are no longer than its own.
    pub fn insert(&mut self, directive: LogDirective)
        ensures
            final(self)@ == sorted_insert(old(self)@, directive@),
            sorted(final(self)@),
    {
        proof {
            use_type_invariant(&*self);
        }
        let ghost before = self@;
        let len = directive.name_len();
        let mut p: usize = 0;
        while p < self.directives.len() && self.directives[p].name_len() <= len
            invariant
                p <= self.directives.len(),
                self@ == before,
                forall|j: int| 0 <= j < p ==> before[j].name_len() <= len,
            decreases self.directives.len() - p,
        {
            p += 1;
        }
        let mut taken = DirectiveTable { directives: Vec::new() };
        assert(taken@ =~= Seq::<Directive>::empty());
        core::mem::swap(self, &mut taken);
        let DirectiveTable { directives: mut directives } = taken;
        proof {
            lemma_insertion_point_unique(before, len as nat, p as int);
            lemma_sorted_insert(before, directive@);
            assert(directives@.insert(p as int, directive).map_values(|d: LogDirective| d@)
                =~= before.insert(p as int, directive@));
        }
        directives.insert(p, directive);
        *self = DirectiveTable { directives };
    }

    /// Whether a record of severity `level` for `target` is enabled. The directives are
    /// tried from the last to the first, and the first that applies decides.
    pub fn enabled(&self, level: LogLevel, target: &str) -> (r: bool)
        ensures
            r == enabled(self@, level, target@),
            sorted(self@),
    {
        proof {
            use_type_invariant(self);
        }
        let decoded = chars_of(target);
        let chars = decoded.as_slice();
        let mut i = self.directives.len();
        assert(self@.take(i as int) =~= self@);
        while i > 0
            invariant
                i <= self.directives.len(),
                chars@ == target@,
                sorted(self@),
                deciding(self@, target@) == deciding(self@.take(i as int), target@),
            decreases i,
        {
            let directive = &self.directives[i - 1];
            assert(self@.take(i as int).last() == directive@);
            if directive.applies_to_chars(chars) {
                assert(self@[i - 1] == directive@);
                return directive.level.allows(level);
            }
            assert(self@.take(i as int).drop_last() =~= self@.take(i - 1));
            i -= 1;
        }
        false
    }

    /// The highest ceiling of the table, `Off` for the empty table.
    pub fn max_level(&self) -> (r: LogLevelFilter)
        ensures
            r == max_level(self@),
    {
        let mut max = LogLevelFilter::Off;
        let mut i: usize = 0;
        while i < self.directives.len()
            invariant
                i <= self.directives.len(),
                max == max_level(self@.take(i as int)),
            decreases self.directives.len() - i,
        {
            assert(self@.take(i + 1).drop_last() =~= self@.take(i as int));
            assert(self@.take(i + 1).last() == self.directives[i as int]@);
            if self.directives[i].level.ordinal() > max.ordinal() {
                max = self.directives[i].level;
            }
            i += 1;
        }
        assert(self@.take(i as int) =~= self@);
        max
    }
}

} // verus!
