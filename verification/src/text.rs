//! Character-sequence primitives shared by the parsers and the serializer.
//!
//! Text is handled as a slice of `char`s whose view is a `Seq<char>`; every
//! executable function here is specified by a spec function on that view.

use vstd::prelude::*;
use vstd::slice::slice_subrange;
use vstd::std_specs::iter::IteratorSpec;

verus! {

/// Whether `c` is white space: one of the code points that carry the Unicode
/// property `White_Space`.
pub open spec fn is_whitespace(c: char) -> bool {
    let n = c as int;
    ||| 0x09 <= n <= 0x0D
    ||| n == 0x20
    ||| n == 0x85
    ||| n == 0xA0
    ||| n == 0x1680
    ||| 0x2000 <= n <= 0x200A
    ||| n == 0x2028
    ||| n == 0x2029
    ||| n == 0x202F
    ||| n == 0x205F
    ||| n == 0x3000
}

/// Tells whether `c` is white space.
pub fn is_space(c: char) -> (r: bool)
    ensures
        r == is_whitespace(c),
{
    let n: u32 = c as u32;
    (0x09 <= n && n <= 0x0D) || n == 0x20 || n == 0x85 || n == 0xA0 || n == 0x1680 || (0x2000 <= n
        && n <= 0x200A) || n == 0x2028 || n == 0x2029 || n == 0x202F || n == 0x205F || n == 0x3000
}

/// The lower-case form of a text.
pub uninterp spec fn lowercase(s: Seq<char>) -> Seq<char>;

/// `str::to_lowercase` returns the lower-case equivalent of the string slice
/// as a new `String`, lower case being that of Unicode. The result depends on
/// the characters of the slice alone, and [`lowercase`] is the name under
/// which contracts speak of it.
pub assume_specification[ str::to_lowercase ](s: &str) -> (r: String)
    ensures
        r@ == lowercase(s@),
;

/// `String::push` appends one character at the end of the string.
pub assume_specification[ String::push ](s: &mut String, ch: char)
    ensures
        final(s)@ == old(s)@.push(ch),
;

/// The characters of `s`, in order.
pub fn chars_of(s: &str) -> (out: Vec<char>)
    ensures
        out@ == s@,
{
    let mut out: Vec<char> = Vec::new();
    for c in it: s.chars()
        invariant
            out@ == it.seq().take(it.index()),
            it.seq() == s@,
    {
        out.push(c);
    }
    out
}

/// The string made of the characters of `v`, in order.
pub fn string_of(v: &[char]) -> (out: String)
    ensures
        out@ == v@,
{
    let mut out = String::new();
    let mut i: usize = 0;
    while i < v.len()
        invariant
            i <= v.len(),
            out@ == v@.take(i as int),
        decreases v.len() - i,
    {
        out.push(v[i]);
        i += 1;
    }
    out
}

/// Appends the characters of `tail` to `out`.
pub fn extend(out: &mut Vec<char>, tail: &[char])
    ensures
        final(out)@ == old(out)@ + tail@,
{
    let mut i: usize = 0;
    while i < tail.len()
        invariant
            i <= tail.len(),
            out@ == old(out)@ + tail@.take(i as int),
        decreases tail.len() - i,
    {
        out.push(tail[i]);
        i += 1;
    }
}

/// `pat` stands in `hay` at offset `i`.
pub open spec fn occurs_at(hay: Seq<char>, pat: Seq<char>, i: int) -> bool {
    &&& 0 <= i
    &&& i + pat.len() <= hay.len()
    &&& hay.subrange(i, i + pat.len()) == pat
}

/// The least offset at or after `from` at which `pat` stands in `hay`.
pub open spec fn first_from(hay: Seq<char>, pat: Seq<char>, from: int) -> Option<int>
    decreases hay.len() + 1 - from,
{
    if from < 0 || from + pat.len() > hay.len() {
        None
    } else if occurs_at(hay, pat, from) {
        Some(from)
    } else {
        first_from(hay, pat, from + 1)
    }
}

/// The offset of the first occurrence of `pat` in `hay`.
pub open spec fn first_occurrence(hay: Seq<char>, pat: Seq<char>) -> Option<int> {
    first_from(hay, pat, 0)
}

/// `first_from` returns an occurrence, and no occurrence lies between
/// `from` and it; it returns `None` only when there is none at all.
pub proof fn lemma_first_from(hay: Seq<char>, pat: Seq<char>, from: int)
    requires
        0 <= from,
    ensures
        match first_from(hay, pat, from) {
            Some(i) => from <= i && occurs_at(hay, pat, i) && forall|j: int|
                from <= j < i ==> !occurs_at(hay, pat, j),
            None => forall|j: int| from <= j ==> !occurs_at(hay, pat, j),
        },
    decreases hay.len() + 1 - from,
{
    if from + pat.len() <= hay.len() && !occurs_at(hay, pat, from) {
        lemma_first_from(hay, pat, from + 1);
    }
}

/// The first occurrence lies inside `hay`.
pub proof fn lemma_first_occurrence_bounds(hay: Seq<char>, pat: Seq<char>)
    ensures
        match first_occurrence(hay, pat) {
            Some(i) => 0 <= i && i + pat.len() <= hay.len(),
            None => true,
        },
{
    lemma_first_from(hay, pat, 0);
}

/// `s` begins with `prefix`.
pub open spec fn starts_with(s: Seq<char>, prefix: Seq<char>) -> bool {
    occurs_at(s, prefix, 0)
}

/// Tells whether `pat` stands in `hay` at offset `i`.
pub fn matches_at(hay: &[char], pat: &[char], i: usize) -> (r: bool)
    ensures
        r == occurs_at(hay@, pat@, i as int),
{
    if pat.len() > hay.len() || i > hay.len() - pat.len() {
        return false;
    }
    let mut k: usize = 0;
    while k < pat.len()
        invariant
            k <= pat.len(),
            i + pat.len() <= hay.len(),
            forall|j: int| 0 <= j < k ==> hay@[i + j] == pat@[j],
        decreases pat.len() - k,
    {
        if hay[i + k] != pat[k] {
            return false;
        }
        k += 1;
    }
    assert(hay@.subrange(i as int, i + pat.len()) =~= pat@);
    true
}

/// Tells whether `s` begins with `prefix`.
pub fn has_prefix(s: &[char], prefix: &[char]) -> (r: bool)
    ensures
        r == starts_with(s@, prefix@),
{
    matches_at(s, prefix, 0)
}

/// Tells whether the two texts hold the same characters.
pub fn same_text(a: &[char], b: &[char]) -> (r: bool)
    ensures
        r == (a@ == b@),
{
    if a.len() != b.len() {
        return false;
    }
    let r = matches_at(a, b, 0);
    assert(a@.subrange(0, a@.len() as int) =~= a@);
    r
}

/// Finds the first occurrence of `pat` in `hay`.
pub fn find(hay: &[char], pat: &[char]) -> (r: Option<usize>)
    ensures
        match r {
            Some(i) => first_occurrence(hay@, pat@) == Some(i as int) && i + pat@.len()
                <= hay@.len(),
            None => first_occurrence(hay@, pat@) is None,
        },
{
    if pat.len() > hay.len() {
        return None;
    }
    let last: usize = hay.len() - pat.len();
    let mut i: usize = 0;
    loop
        invariant
            i <= last,
            last == hay.len() - pat.len(),
            first_from(hay@, pat@, i as int) == first_occurrence(hay@, pat@),
        decreases last - i,
    {
        if matches_at(hay, pat, i) {
            return Some(i);
        }
        if i == last {
            assert(first_from(hay@, pat@, i + 1) is None);
            return None;
        }
        i += 1;
    }
}

/// `s` without its leading white space.
pub open spec fn trimmed_start(s: Seq<char>) -> Seq<char>
    decreases s.len(),
{
    if s.len() > 0 && is_whitespace(s[0]) {
        trimmed_start(s.skip(1))
    } else {
        s
    }
}

/// `s` without its trailing white space.
pub open spec fn trimmed_end(s: Seq<char>) -> Seq<char>
    decreases s.len(),
{
    if s.len() > 0 && is_whitespace(s.last()) {
        trimmed_end(s.drop_last())
    } else {
        s
    }
}

/// `s` without the white space at either end.
pub open spec fn trimmed(s: Seq<char>) -> Seq<char> {
    trimmed_end(trimmed_start(s))
}

/// Removes the white space at either end of `s`.
pub fn trim(s: &[char]) -> (r: &[char])
    ensures
        r@ == trimmed(s@),
{
    let mut a: usize = 0;
    assert(s@.skip(0) =~= s@);
    while a < s.len() && is_space(s[a])
        invariant
            a <= s.len(),
            trimmed_start(s@.skip(a as int)) == trimmed_start(s@),
        decreases s.len() - a,
    {
        assert(s@.skip(a as int).skip(1) =~= s@.skip(a + 1));
        a += 1;
    }
    let mut b: usize = s.len();
    while b > a && is_space(s[b - 1])
        invariant
            a <= b <= s.len(),
            trimmed_end(s@.subrange(a as int, b as int)) == trimmed(s@),
        decreases b - a,
    {
        assert(s@.subrange(a as int, b as int).drop_last() =~= s@.subrange(a as int, b - 1));
        b -= 1;
    }
    slice_subrange(s, a, b)
}

/// `s` from offset `i` on, with every occurrence of `from` replaced by `to`,
/// occurrences being taken from left to right and never overlapping. An empty
/// `from` occurs nowhere.
pub open spec fn replaced_from(s: Seq<char>, from: Seq<char>, to: Seq<char>, i: int) -> Seq<char>
    decreases s.len() - i,
{
    if i < 0 || i >= s.len() {
        Seq::empty()
    } else if from.len() > 0 && occurs_at(s, from, i) {
        to + replaced_from(s, from, to, i + from.len())
    } else {
        seq![s[i]] + replaced_from(s, from, to, i + 1)
    }
}

/// `s` with every occurrence of `from` replaced by `to`.
pub open spec fn replaced(s: Seq<char>, from: Seq<char>, to: Seq<char>) -> Seq<char> {
    replaced_from(s, from, to, 0)
}

/// Replaces every occurrence of `from` in `s` by `to`.
pub fn replace(s: &[char], from: &[char], to: &[char]) -> (out: Vec<char>)
    ensures
        out@ == replaced(s@, from@, to@),
{
    let mut out: Vec<char> = Vec::new();
    let mut i: usize = 0;
    while i < s.len()
        invariant
            i <= s.len(),
            out@ + replaced_from(s@, from@, to@, i as int) == replaced(s@, from@, to@),
        decreases s.len() - i,
    {
        if from.len() > 0 && matches_at(s, from, i) {
            extend(&mut out, to);
            i += from.len();
        } else {
            out.push(s[i]);
            i += 1;
        }
    }
    out
}

/// The number of characters of `s` before its first line feed.
pub open spec fn first_line_len(s: Seq<char>) -> nat
    decreases s.len(),
{
    if s.len() == 0 || s[0] == '\n' {
        0
    } else {
        1 + first_line_len(s.skip(1))
    }
}

/// `line` without one trailing carriage return.
pub open spec fn without_cr(line: Seq<char>) -> Seq<char> {
    if line.len() > 0 && line.last() == '\r' {
        line.drop_last()
    } else {
        line
    }
}

/// The lines of `s`. A line ends at a line feed, and a carriage return just
/// before that line feed belongs to the line ending. The last line needs no
/// line feed, and an empty text has no line.
pub open spec fn lines(s: Seq<char>) -> Seq<Seq<char>>
    decreases s.len(),
{
    if s.len() == 0 {
        Seq::empty()
    } else {
        let n = first_line_len(s) as int;
        if n < s.len() {
            seq![without_cr(s.take(n))] + lines(s.skip(n + 1))
        } else {
            seq![s]
        }
    }
}

/// The first line is no longer than the text, and it holds no line feed.
pub proof fn lemma_first_line_len(s: Seq<char>)
    ensures
        first_line_len(s) <= s.len(),
        first_line_len(s) < s.len() ==> s[first_line_len(s) as int] == '\n',
        forall|j: int| 0 <= j < first_line_len(s) ==> s[j] != '\n',
    decreases s.len(),
{
    if s.len() > 0 && s[0] != '\n' {
        lemma_first_line_len(s.skip(1));
        assert forall|j: int| 0 <= j < first_line_len(s) implies s[j] != '\n' by {
            if j > 0 {
                assert(s.skip(1)[j - 1] == s[j]);
            }
        }
    }
}

/// Splits a text into its first line and what follows that line. An empty
/// text has no line.
pub fn split_line<'a>(s: &'a [char]) -> (r: Option<(&'a [char], &'a [char])>)
    ensures
        match r {
            Some((line, rest)) => lines(s@) == seq![line@] + lines(rest@) && rest@.len()
                < s@.len(),
            None => s@.len() == 0,
        },
{
    if s.len() == 0 {
        return None;
    }
    let mut n: usize = 0;
    assert(s@.skip(0) =~= s@);
    while n < s.len() && s[n] != '\n'
        invariant
            n <= s.len(),
            first_line_len(s@) == n + first_line_len(s@.skip(n as int)),
        decreases s.len() - n,
    {
        assert(s@.skip(n as int).skip(1) =~= s@.skip(n + 1));
        n += 1;
    }
    if n < s.len() {
        let end: usize = if n > 0 && s[n - 1] == '\r' {
            n - 1
        } else {
            n
        };
        let line = slice_subrange(s, 0, end);
        let rest = slice_subrange(s, n + 1, s.len());
        assert(line@ =~= without_cr(s@.take(n as int)));
        Some((line, rest))
    } else {
        let rest = slice_subrange(s, n, n);
        Some((s, rest))
    }
}

} // verus!
