//! Character-level tools for file names, queries and extension lists.
//!
//! Strings are modelled by their view, a `Seq<char>`. Lowercasing is left to
//! the standard library and enters the contracts under a name.

use vstd::prelude::*;
use vstd::string::*;
use vstd::utf8::{decode_utf8, valid_utf8};

verus! {

/// The lowercase form of a string, as `str::to_lowercase` computes it.
pub uninterp spec fn lowercased(s: Seq<char>) -> Seq<char>;

/// Whether a character is white space: one of the characters that have
/// Unicode's `White_Space` property.
pub open spec fn is_white_space(c: char) -> bool {
    ||| '\u{9}' <= c <= '\u{d}'
    ||| c == ' '
    ||| c == '\u{85}'
    ||| c == '\u{a0}'
    ||| c == '\u{1680}'
    ||| '\u{2000}' <= c <= '\u{200a}'
    ||| c == '\u{2028}'
    ||| c == '\u{2029}'
    ||| c == '\u{202f}'
    ||| c == '\u{205f}'
    ||| c == '\u{3000}'
}

/// Trusted: calls `str::to_lowercase`. The result is a function of the string
/// alone (Unicode's lowercase mapping), and `lowercased` is its name.
#[verifier::external_body]
pub(crate) fn to_lowercase(s: &str) -> (r: String)
    ensures
        r@ == lowercased(s@),
{
    s.to_lowercase()
}

/// Trusted: calls `String::push`, which appends one character.
#[verifier::external_body]
pub(crate) fn push_char(s: &mut String, c: char)
    ensures
        final(s)@ == old(s)@.push(c),
{
    s.push(c)
}

/// Trusted: calls `String::from_utf8`, which accepts exactly the byte
/// sequences that are valid UTF-8 and then holds the characters they encode.
#[verifier::external_body]
pub(crate) fn string_from_utf8(bytes: Vec<u8>) -> (r: Option<String>)
    ensures
        r is Some <==> valid_utf8(bytes@),
        r matches Some(s) ==> s@ == decode_utf8(bytes@),
{
    match String::from_utf8(bytes) {
        Ok(s) => Some(s),
        Err(_) => None,
    }
}

/// `needle` stands in `hay` at offset `at`.
pub open spec fn occurs_at(needle: Seq<char>, hay: Seq<char>, at: int) -> bool {
    &&& 0 <= at
    &&& at + needle.len() <= hay.len()
    &&& hay.subrange(at, at + needle.len()) == needle
}

/// `needle` stands somewhere in `hay`.
pub open spec fn is_substring(needle: Seq<char>, hay: Seq<char>) -> bool {
    exists|at: int| occurs_at(needle, hay, at)
}

/// For each character of a string, whether it is white space.
pub open spec fn white_space_marks(s: Seq<char>) -> Seq<bool> {
    s.map_values(|c: char| is_white_space(c))
}

/// How many marks at the start are set.
pub open spec fn leading_marks(marks: Seq<bool>) -> nat
    decreases marks.len(),
{
    if marks.len() > 0 && marks.first() {
        1 + leading_marks(marks.drop_first())
    } else {
        0
    }
}

/// How many marks at the end are set.
pub open spec fn trailing_marks(marks: Seq<bool>) -> nat
    decreases marks.len(),
{
    if marks.len() > 0 && marks.last() {
        1 + trailing_marks(marks.drop_last())
    } else {
        0
    }
}

/// The bounds of what is left when the set marks at both ends are taken off;
/// where every mark is set, the empty stretch at the end.
pub open spec fn unmarked_bounds(marks: Seq<bool>) -> (int, int) {
    let lo = leading_marks(marks) as int;
    if lo == marks.len() {
        (lo, lo)
    } else {
        (lo, marks.len() - trailing_marks(marks))
    }
}

/// A string without its leading and trailing white space.
pub open spec fn trimmed(s: Seq<char>) -> Seq<char> {
    let bounds = unmarked_bounds(white_space_marks(s));
    s.subrange(bounds.0, bounds.1)
}

/// The pieces of `s` between occurrences of `sep`; always at least one piece,
/// and an empty piece wherever two separators touch or one ends the string.
pub open spec fn split_on(s: Seq<char>, sep: char) -> Seq<Seq<char>>
    decreases s.len(),
{
    if s.len() == 0 {
        seq![Seq::<char>::empty()]
    } else {
        let before = split_on(s.drop_last(), sep);
        if s.last() == sep {
            before.push(Seq::<char>::empty())
        } else {
            before.drop_last().push(before.last().push(s.last()))
        }
    }
}

/// The code of a character with the ASCII capitals moved onto their small
/// letters.
pub open spec fn ascii_fold(c: char) -> u32 {
    if 'A' <= c <= 'Z' {
        (c as u32 + 32) as u32
    } else {
        c as u32
    }
}

/// Equality of two strings up to the case of ASCII letters.
pub open spec fn eq_up_to_ascii_case(a: Seq<char>, b: Seq<char>) -> bool {
    &&& a.len() == b.len()
    &&& forall|i: int| 0 <= i < a.len() ==> ascii_fold(a[i]) == ascii_fold(b[i])
}

/// Whether a character is white space.
pub fn is_whitespace(c: char) -> (r: bool)
    ensures
        r == is_white_space(c),
{
    ('\u{9}' <= c && c <= '\u{d}') || c == ' ' || c == '\u{85}' || c == '\u{a0}' || c == '\u{1680}'
        || ('\u{2000}' <= c && c <= '\u{200a}') || c == '\u{2028}' || c == '\u{2029}' || c
        == '\u{202f}' || c == '\u{205f}' || c == '\u{3000}'
}

/// The characters of a string, in order.
pub fn chars_of(s: &str) -> (v: Vec<char>)
    ensures
        v@ == s@,
{
    let mut v: Vec<char> = Vec::new();
    for c in it: s.chars()
        invariant
            it.seq() == s@,
            v@ == s@.take(it.index()),
    {
        v.push(c);
    }
    v
}

/// The string made of `chars[from..to]`.
pub fn text_of(chars: &Vec<char>, from: usize, to: usize) -> (r: String)
    requires
        from <= to <= chars.len(),
    ensures
        r@ == chars@.subrange(from as int, to as int),
{
    let mut r = String::new();
    let mut i: usize = from;
    while i < to
        invariant
            from <= i <= to <= chars.len(),
            r@ == chars@.subrange(from as int, i as int),
        decreases to - i,
    {
        push_char(&mut r, chars[i]);
        i += 1;
        assert(r@ =~= chars@.subrange(from as int, i as int));
    }
    r
}

/// Whether two strings hold the same characters.
pub fn same_text(a: &str, b: &str) -> (r: bool)
    ensures
        r == (a@ == b@),
{
    let x = chars_of(a);
    let y = chars_of(b);
    if x.len() != y.len() {
        return false;
    }
    let mut i: usize = 0;
    while i < x.len()
        invariant
            x@ == a@,
            y@ == b@,
            x.len() == y.len(),
            i <= x.len(),
            forall|k: int| 0 <= k < i ==> x@[k] == y@[k],
        decreases x.len() - i,
    {
        if x[i] != y[i] {
            assert(a@[i as int] != b@[i as int]);
            return false;
        }
        i += 1;
    }
    assert(x@ =~= y@);
    true
}

/// Whether two strings are equal up to the case of ASCII letters.
pub fn eq_ignore_ascii_case(a: &str, b: &str) -> (r: bool)
    ensures
        r == eq_up_to_ascii_case(a@, b@),
{
    let x = chars_of(a);
    let y = chars_of(b);
    if x.len() != y.len() {
        return false;
    }
    let mut i: usize = 0;
    while i < x.len()
        invariant
            x@ == a@,
            y@ == b@,
            x.len() == y.len(),
            i <= x.len(),
            forall|k: int| 0 <= k < i ==> ascii_fold(x@[k]) == ascii_fold(y@[k]),
        decreases x.len() - i,
    {
        if fold_ascii(x[i]) != fold_ascii(y[i]) {
            assert(ascii_fold(a@[i as int]) != ascii_fold(b@[i as int]));
            return false;
        }
        i += 1;
    }
    true
}

/// The code of `c`, with an ASCII capital moved onto its small letter.
pub fn fold_ascii(c: char) -> (r: u32)
    ensures
        r == ascii_fold(c),
{
    let code: u32 = c as u32;
    if 'A' <= c && c <= 'Z' {
        code + 32
    } else {
        code
    }
}

/// Whether `needle` stands in `hay` at offset `at`.
fn matches_at(hay: &Vec<char>, needle: &Vec<char>, at: usize) -> (r: bool)
    requires
        at + needle.len() <= hay.len(),
    ensures
        r == occurs_at(needle@, hay@, at as int),
{
    let mut j: usize = 0;
    while j < needle.len()
        invariant
            j <= needle.len(),
            at + needle.len() <= hay.len(),
            forall|k: int| 0 <= k < j ==> hay@[at + k] == needle@[k],
        decreases needle.len() - j,
    {
        if hay[at + j] != needle[j] {
            assert(hay@.subrange(at as int, at + needle.len())[j as int] != needle@[j as int]);
            return false;
        }
        j += 1;
    }
    assert(hay@.subrange(at as int, at + needle.len()) =~= needle@);
    true
}

/// Whether `needle` occurs in `hay`. The empty string occurs in every string.
pub fn contains(hay: &str, needle: &str) -> (r: bool)
    ensures
        r == is_substring(needle@, hay@),
{
    let h = chars_of(hay);
    let n = chars_of(needle);
    if n.len() > h.len() {
        return false;
    }
    let last: usize = h.len() - n.len();
    let mut at: usize = 0;
    loop
        invariant
            last == h.len() - n.len(),
            n.len() <= h.len(),
            at <= last,
            h@ == hay@,
            n@ == needle@,
            forall|k: int| 0 <= k < at ==> !occurs_at(n@, h@, k),
        decreases last - at,
    {
        if matches_at(&h, &n, at) {
            assert(occurs_at(needle@, hay@, at as int));
            return true;
        }
        if at == last {
            return false;
        }
        at += 1;
    }
}

/// For each of the characters, whether it is white space.
fn marks_of(chars: &Vec<char>) -> (marks: Vec<bool>)
    ensures
        marks@ == white_space_marks(chars@),
{
    let mut marks: Vec<bool> = Vec::new();
    let mut i: usize = 0;
    while i < chars.len()
        invariant
            i <= chars.len(),
            marks@ == white_space_marks(chars@.take(i as int)),
        decreases chars.len() - i,
    {
        marks.push(is_whitespace(chars[i]));
        i += 1;
        assert(marks@ =~= white_space_marks(chars@.take(i as int)));
    }
    assert(chars@.take(chars.len() as int) =~= chars@);
    marks
}

/// The bounds of what is left when the set marks at both ends are taken off.
pub fn unmarked_stretch(marks: &Vec<bool>) -> (r: (usize, usize))
    ensures
        r.0 == unmarked_bounds(marks@).0,
        r.1 == unmarked_bounds(marks@).1,
        r.0 <= r.1 <= marks.len(),
{
    let mut lo: usize = 0;
    assert(marks@.skip(0) =~= marks@);
    while lo < marks.len() && marks[lo]
        invariant
            lo <= marks.len(),
            leading_marks(marks@) == lo + leading_marks(marks@.skip(lo as int)),
        decreases marks.len() - lo,
    {
        assert(marks@.skip(lo as int).drop_first() =~= marks@.skip(lo + 1));
        lo += 1;
    }
    let mut hi: usize = marks.len();
    assert(marks@.take(hi as int) =~= marks@);
    while hi > lo && marks[hi - 1]
        invariant
            lo <= hi <= marks.len(),
            lo < marks.len() ==> !marks@[lo as int] && lo < hi,
            trailing_marks(marks@) == marks.len() - hi + trailing_marks(marks@.take(hi as int)),
        decreases hi,
    {
        assert(marks@.take(hi as int).drop_last() =~= marks@.take(hi - 1));
        hi -= 1;
    }
    assert(lo < hi ==> marks@.take(hi as int).last() == marks@[hi - 1]);
    (lo, hi)
}

/// A string without its leading and trailing white space.
pub fn trim(s: &str) -> (r: String)
    ensures
        r@ == trimmed(s@),
{
    let chars = chars_of(s);
    let marks = marks_of(&chars);
    let (lo, hi) = unmarked_stretch(&marks);
    text_of(&chars, lo, hi)
}

/// The pieces of `s` between occurrences of `sep`.
pub fn split(s: &str, sep: char) -> (r: Vec<String>)
    ensures
        r.deep_view() == split_on(s@, sep),
{
    let c = chars_of(s);
    let mut done: Vec<String> = Vec::new();
    let mut start: usize = 0;
    let mut i: usize = 0;
    assert(c@.take(0).len() == 0);
    assert(c@.subrange(0, 0) =~= Seq::<char>::empty());
    assert(done.deep_view().push(c@.subrange(0, 0)) =~= seq![Seq::<char>::empty()]);
    while i < c.len()
        invariant
            start <= i <= c.len(),
            split_on(c@.take(i as int), sep) == done.deep_view().push(
                c@.subrange(start as int, i as int),
            ),
        decreases c.len() - i,
    {
        let ghost before = split_on(c@.take(i as int), sep);
        let ghost pieces = done.deep_view();
        assert(c@.take(i + 1).drop_last() =~= c@.take(i as int));
        assert(c@.take(i + 1).last() == c@[i as int]);
        if c[i] == sep {
            let piece = text_of(&c, start, i);
            done.push(piece);
            start = i + 1;
            assert(done.deep_view() =~= pieces.push(piece@));
            assert(c@.subrange(start as int, i + 1) =~= Seq::<char>::empty());
        } else {
            assert(before.drop_last() =~= pieces);
            assert(before.last().push(c@[i as int]) =~= c@.subrange(start as int, i + 1));
        }
        i += 1;
    }
    assert(c@.take(c.len() as int) =~= c@);
    let ghost pieces = done.deep_view();
    let piece = text_of(&c, start, i);
    done.push(piece);
    assert(done.deep_view() =~= pieces.push(piece@));
    done
}

} // verus!
