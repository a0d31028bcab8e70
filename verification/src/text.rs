//! Character sequences: splitting at a separator, trimming, comparing.
//!
//! The specification functions speak of `Seq<char>`, the view of `str` and `String`.
//! The executable functions work on a slice of characters and on ranges `from..to` of it,
//! so that a text is decoded once and its pieces are not copied.

use vstd::prelude::*;
use vstd::std_specs::iter::IteratorSpec;
use vstd::string::StrSliceExecFns;

verus! {

/// The number of characters of `s` that stand before the first `sep`;
/// the length of `s` where `sep` does not occur.
pub open spec fn position(s: Seq<char>, sep: char) -> nat
    decreases s.len(),
{
    if s.len() == 0 || s[0] == sep {
        0
    } else {
        1 + position(s.drop_first(), sep)
    }
}

/// The pieces of `s` between the occurrences of `sep`, in order. There is one piece more
/// than there are separators, so the empty text has one piece, which is empty.
pub open spec fn split(s: Seq<char>, sep: char) -> Seq<Seq<char>>
    decreases s.len(),
{
    let k = position(s, sep) as int;
    if k >= s.len() {
        seq![s]
    } else {
        seq![s.take(k)] + split(s.skip(k + 1), sep)
    }
}

/// The number of occurrences of `sep` in `s`.
pub open spec fn count(s: Seq<char>, sep: char) -> nat
    decreases s.len(),
{
    if s.len() == 0 {
        0
    } else {
        count(s.drop_last(), sep) + if s.last() == sep {
            1nat
        } else {
            0nat
        }
    }
}

/// The pieces of `parts` written one after the other with `sep` between them.
pub open spec fn join(parts: Seq<Seq<char>>, sep: char) -> Seq<char>
    decreases parts.len(),
{
    if parts.len() == 0 {
        Seq::empty()
    } else if parts.len() == 1 {
        parts[0]
    } else {
        parts[0].push(sep) + join(parts.drop_first(), sep)
    }
}

/// `position` is the first index at which `sep` stands.
pub proof fn lemma_position(s: Seq<char>, sep: char)
    ensures
        position(s, sep) <= s.len(),
        forall|j: int| 0 <= j < position(s, sep) ==> s[j] != sep,
        position(s, sep) < s.len() ==> s[position(s, sep) as int] == sep,
    decreases s.len(),
{
    if s.len() == 0 || s[0] == sep {
    } else {
        let t = s.drop_first();
        lemma_position(t, sep);
        assert forall|j: int| 0 <= j < position(s, sep) implies s[j] != sep by {
            if j > 0 {
                assert(s[j] == t[j - 1]);
            }
        }
        assert(position(s, sep) < s.len() ==> s[position(s, sep) as int] == t[position(t, sep) as int]);
    }
}

/// An index before which `sep` does not stand, and at which it stands or the text ends,
/// is the `position` of `sep`.
pub proof fn lemma_position_unique(s: Seq<char>, sep: char, k: int)
    requires
        0 <= k <= s.len(),
        forall|j: int| 0 <= j < k ==> s[j] != sep,
        k < s.len() ==> s[k] == sep,
    ensures
        position(s, sep) == k,
{
    lemma_position(s, sep);
    let p = position(s, sep) as int;
    if p < k {
        assert(s[p] == sep);
    } else if k < p {
        assert(s[k] == sep);
    }
}

/// The shape of a split, read off the first two separators: one piece where there is no
/// separator, two where there is one, more where there are more.
pub proof fn lemma_split_shape(s: Seq<char>, sep: char)
    ensures
        position(s, sep) >= s.len() ==> split(s, sep) == seq![s],
        position(s, sep) < s.len() ==> {
            let k = position(s, sep) as int;
            let rest = s.skip(k + 1);
            &&& split(s, sep) == seq![s.take(k)] + split(rest, sep)
            &&& split(s, sep)[0] == s.take(k)
            &&& position(rest, sep) >= rest.len() ==> split(s, sep) == seq![s.take(k), rest]
            &&& position(rest, sep) < rest.len() ==> split(s, sep).len() > 2
        },
{
    let k = position(s, sep) as int;
    lemma_position(s, sep);
    if k < s.len() {
        let rest = s.skip(k + 1);
        lemma_position(rest, sep);
        let j = position(rest, sep) as int;
        if j >= rest.len() {
            assert(split(rest, sep) == seq![rest]);
            assert(seq![s.take(k)] + seq![rest] =~= seq![s.take(k), rest]);
        } else {
            lemma_split_pieces(rest.skip(j + 1), sep);
            assert(split(rest, sep) == seq![rest.take(j)] + split(rest.skip(j + 1), sep));
        }
    }
}

/// Every piece of a split is free of the separator.
pub proof fn lemma_split_pieces(s: Seq<char>, sep: char)
    ensures
        split(s, sep).len() >= 1,
        forall|i: int, j: int|
            0 <= i < split(s, sep).len() && 0 <= j < split(s, sep)[i].len() ==> split(
                s,
                sep,
            )[i][j] != sep,
    decreases s.len(),
{
    lemma_position(s, sep);
    let k = position(s, sep) as int;
    if k >= s.len() {
    } else {
        let rest = s.skip(k + 1);
        lemma_split_pieces(rest, sep);
        let parts = split(s, sep);
        assert forall|i: int, j: int|
            0 <= i < parts.len() && 0 <= j < parts[i].len() implies parts[i][j] != sep by {
            if i == 0 {
                assert(parts[0] == s.take(k));
            } else {
                assert(parts[i] == split(rest, sep)[i - 1]);
            }
        }
    }
}

/// Joining the pieces of a split with the separator gives the text back.
pub proof fn lemma_join_split(s: Seq<char>, sep: char)
    ensures
        join(split(s, sep), sep) == s,
    decreases s.len(),
{
    lemma_position(s, sep);
    let k = position(s, sep) as int;
    if k >= s.len() {
    } else {
        let rest = s.skip(k + 1);
        lemma_join_split(rest, sep);
        lemma_split_pieces(rest, sep);
        let parts = split(s, sep);
        assert(parts.drop_first() =~= split(rest, sep));
        assert(parts[0] == s.take(k));
        assert(s.take(k).push(sep) + rest =~= s);
    }
}

/// A split has one piece more than the text has separators.
pub proof fn lemma_split_len(s: Seq<char>, sep: char)
    ensures
        split(s, sep).len() == count(s, sep) + 1,
    decreases s.len(),
{
    lemma_position(s, sep);
    let k = position(s, sep) as int;
    if k >= s.len() {
        lemma_count_none(s, sep);
    } else {
        let rest = s.skip(k + 1);
        lemma_split_len(rest, sep);
        lemma_count_concat(s.take(k + 1), rest, sep);
        assert(s.take(k + 1) + rest =~= s);
        assert(s.take(k + 1).drop_last() =~= s.take(k));
        lemma_count_none(s.take(k), sep);
    }
}

/// A text in which `sep` does not stand has no occurrence of it.
pub proof fn lemma_count_none(s: Seq<char>, sep: char)
    requires
        forall|j: int| 0 <= j < s.len() ==> s[j] != sep,
    ensures
        count(s, sep) == 0,
    decreases s.len(),
{
    if s.len() > 0 {
        lemma_count_none(s.drop_last(), sep);
    }
}

/// The occurrences in a concatenation are those of its two parts.
pub proof fn lemma_count_concat(a: Seq<char>, b: Seq<char>, sep: char)
    ensures
        count(a + b, sep) == count(a, sep) + count(b, sep),
    decreases b.len(),
{
    if b.len() == 0 {
        assert(a + b =~= a);
    } else {
        lemma_count_concat(a, b.drop_last(), sep);
        assert((a + b).drop_last() =~= a + b.drop_last());
    }
}

/// A separator that is not counted in a text does not stand in it.
pub proof fn lemma_count_zero(s: Seq<char>, sep: char)
    requires
        count(s, sep) == 0,
    ensures
        forall|j: int| 0 <= j < s.len() ==> s[j] != sep,
        position(s, sep) == s.len(),
        split(s, sep) == seq![s],
    decreases s.len(),
{
    if s.len() > 0 {
        lemma_count_zero(s.drop_last(), sep);
        assert forall|j: int| 0 <= j < s.len() implies s[j] != sep by {
            if j < s.len() - 1 {
                assert(s[j] == s.drop_last()[j]);
            }
        }
    }
    lemma_position_unique(s, sep, s.len() as int);
}

/// Splitting a text that was put together from two texts and a separator between them
/// gives the pieces of the first and then the pieces of the second.
pub proof fn lemma_split_concat(a: Seq<char>, b: Seq<char>, sep: char)
    ensures
        split(a.push(sep) + b, sep) == split(a, sep) + split(b, sep),
    decreases a.len(),
{
    let s = a.push(sep) + b;
    let k = position(a, sep) as int;
    lemma_position(a, sep);
    if k >= a.len() {
        lemma_position_unique(s, sep, a.len() as int);
        assert(s.take(a.len() as int) =~= a);
        assert(s.skip(a.len() as int + 1) =~= b);
    } else {
        lemma_position_unique(s, sep, k);
        assert(s.take(k) =~= a.take(k));
        assert(s.skip(k + 1) =~= a.skip(k + 1).push(sep) + b);
        lemma_split_concat(a.skip(k + 1), b, sep);
        assert(seq![a.take(k)] + (split(a.skip(k + 1), sep) + split(b, sep)) =~= (seq![a.take(k)]
            + split(a.skip(k + 1), sep)) + split(b, sep));
    }
}

/// The characters of `s`, decoded once.
pub fn chars_of(s: &str) -> (chars: Vec<char>)
    ensures
        chars@ == s@,
{
    let mut chars: Vec<char> = Vec::new();
    for c in it: s.chars()
        invariant
            chars@ == it.seq().take(it.index() as int),
    {
        chars.push(c);
    }
    chars
}

/// The first index in `from..to` at which `sep` stands, or `to` where it does not occur there.
pub fn find(chars: &[char], from: usize, to: usize, sep: char) -> (k: usize)
    requires
        from <= to <= chars@.len(),
    ensures
        from <= k <= to,
        k - from == position(chars@.subrange(from as int, to as int), sep),
        forall|j: int| from <= j < k ==> chars@[j] != sep,
        k < to ==> chars@[k as int] == sep,
{
    let mut k = from;
    while k < to && chars[k] != sep
        invariant
            from <= k <= to <= chars@.len(),
            forall|j: int| from <= j < k ==> chars@[j] != sep,
        decreases to - k,
    {
        k += 1;
    }
    proof {
        lemma_position_unique(chars@.subrange(from as int, to as int), sep, k - from);
    }
    k
}

/// Whether the characters in `from..to` are those of `word`.
pub fn range_equals(chars: &[char], from: usize, to: usize, word: &str) -> (r: bool)
    requires
        from <= to <= chars@.len(),
    ensures
        r == (chars@.subrange(from as int, to as int) == word@),
{
    let ghost range = chars@.subrange(from as int, to as int);
    let n = to - from;
    let mut i: usize = 0;
    for c in it: word.chars()
        invariant
            i == it.index(),
            it.seq() == word@,
            n == to - from,
            from <= to <= chars@.len(),
            range == chars@.subrange(from as int, to as int),
            i <= n,
            forall|j: int| 0 <= j < i ==> range[j] == word@[j],
    {
        if i >= n || chars[from + i] != c {
            assert(range != word@) by {
                if i < n {
                    assert(range[i as int] != word@[i as int]);
                }
            }
            return false;
        }
        i += 1;
    }
    if i == n {
        assert(range =~= word@);
        true
    } else {
        false
    }
}

/// The characters that Unicode lists as white space.
pub open spec fn is_whitespace(c: char) -> bool {
    let u = c as u32;
    ||| 0x09 <= u <= 0x0D
    ||| u == 0x20
    ||| u == 0x85
    ||| u == 0xA0
    ||| u == 0x1680
    ||| 0x2000 <= u <= 0x200A
    ||| u == 0x2028
    ||| u == 0x2029
    ||| u == 0x202F
    ||| u == 0x205F
    ||| u == 0x3000
}

#[verifier::when_used_as_spec(is_whitespace)]
pub fn char_is_whitespace(c: char) -> (r: bool)
    ensures
        r == is_whitespace(c),
{
    let u = c as u32;
    (0x09 <= u && u <= 0x0D) || u == 0x20 || u == 0x85 || u == 0xA0 || u == 0x1680 || (0x2000 <= u
        && u <= 0x200A) || u == 0x2028 || u == 0x2029 || u == 0x202F || u == 0x205F || u == 0x3000
}

/// `s` without the white space at its start.
pub open spec fn trim_start(s: Seq<char>) -> Seq<char>
    decreases s.len(),
{
    if s.len() > 0 && is_whitespace(s[0]) {
        trim_start(s.drop_first())
    } else {
        s
    }
}

/// `s` without the white space at its end.
pub open spec fn trim_end(s: Seq<char>) -> Seq<char>
    decreases s.len(),
{
    if s.len() > 0 && is_whitespace(s.last()) {
        trim_end(s.drop_last())
    } else {
        s
    }
}

/// `s` without the white space at its start and at its end.
pub open spec fn trim(s: Seq<char>) -> Seq<char> {
    trim_end(trim_start(s))
}

/// A trimmed text neither begins nor ends with white space, and trimming it again
/// changes nothing.
pub proof fn lemma_trim(s: Seq<char>)
    ensures
        trim(s).len() <= s.len(),
        trim(s).len() > 0 ==> !is_whitespace(trim(s)[0]) && !is_whitespace(trim(s).last()),
        trim(trim(s)) == trim(s),
{
    lemma_trim_start(s);
    lemma_trim_end(trim_start(s));
    let t = trim(s);
    if t.len() > 0 {
        lemma_trim_end_keeps_start(trim_start(s));
    }
}

/// What `trim_start` leaves does not begin with white space.
proof fn lemma_trim_start(s: Seq<char>)
    ensures
        trim_start(s).len() <= s.len(),
        trim_start(s).len() > 0 ==> !is_whitespace(trim_start(s)[0]),
        trim_start(trim_start(s)) == trim_start(s),
    decreases s.len(),
{
    if s.len() > 0 && is_whitespace(s[0]) {
        lemma_trim_start(s.drop_first());
    }
}

/// What `trim_end` leaves does not end with white space.
proof fn lemma_trim_end(s: Seq<char>)
    ensures
        trim_end(s).len() <= s.len(),
        trim_end(s).len() > 0 ==> !is_whitespace(trim_end(s).last()),
        trim_end(trim_end(s)) == trim_end(s),
    decreases s.len(),
{
    if s.len() > 0 && is_whitespace(s.last()) {
        lemma_trim_end(s.drop_last());
    }
}

/// `trim_end` takes characters off the end only.
proof fn lemma_trim_end_keeps_start(s: Seq<char>)
    ensures
        trim_end(s).len() > 0 ==> s.len() > 0 && trim_end(s)[0] == s[0],
    decreases s.len(),
{
    if s.len() > 0 && is_whitespace(s.last()) {
        lemma_trim_end_keeps_start(s.drop_last());
    }
}

/// The range within `from..to` that is left when the white space at both ends is taken off.
pub fn trim_range(chars: &[char], from: usize, to: usize) -> (r: (usize, usize))
    requires
        from <= to <= chars@.len(),
    ensures
        from <= r.0 <= r.1 <= to,
        chars@.subrange(r.0 as int, r.1 as int) == trim(chars@.subrange(from as int, to as int)),
{
    let mut a = from;
    while a < to && char_is_whitespace(chars[a])
        invariant
            from <= a <= to <= chars@.len(),
            trim_start(chars@.subrange(from as int, to as int)) == trim_start(
                chars@.subrange(a as int, to as int),
            ),
        decreases to - a,
    {
        assert(chars@.subrange(a as int, to as int).drop_first() =~= chars@.subrange(
            a + 1,
            to as int,
        ));
        a += 1;
    }
    let mut b = to;
    while a < b && char_is_whitespace(chars[b - 1])
        invariant
            a <= b <= to <= chars@.len(),
            trim_end(chars@.subrange(a as int, to as int)) == trim_end(
                chars@.subrange(a as int, b as int),
            ),
        decreases b - a,
    {
        assert(chars@.subrange(a as int, b as int).drop_last() =~= chars@.subrange(
            a as int,
            b - 1,
        ));
        b -= 1;
    }
    (a, b)
}

/// Whether `chars` begins with the characters of `prefix`.
pub fn begins_with(chars: &[char], prefix: &str) -> (r: bool)
    ensures
        r == prefix@.is_prefix_of(chars@),
{
    let n = prefix.unicode_len();
    if n > chars.len() {
        false
    } else {
        range_equals(chars, 0, n, prefix)
    }
}

/// Whether `text` begins with the characters of `prefix`.
pub fn starts_with(text: &str, prefix: &str) -> (r: bool)
    ensures
        r == prefix@.is_prefix_of(text@),
{
    let chars = chars_of(text);
    begins_with(chars.as_slice(), prefix)
}

} // verus!
