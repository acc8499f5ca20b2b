//! Excerpts of matched text.
//!
//! A match is given by byte offsets into a text. The excerpt is cut at
//! character boundaries around the match, put on one line, and bounded in
//! length. Offsets count bytes of the UTF-8 encoding; lengths of the result
//! count characters.

use crate::text::push_char;
use vstd::prelude::*;
use vstd::std_specs::iter::IteratorSpec;
use vstd::string::*;
use vstd::utf8::*;

verus! {

/// The largest character boundary of `bytes` that is at most `i`, with `i`
/// first brought down to the length of `bytes`.
pub open spec fn floor_char_boundary(bytes: Seq<u8>, i: int) -> int
    decreases i,
{
    if i <= 0 {
        0
    } else if i > bytes.len() {
        floor_char_boundary(bytes, bytes.len() as int)
    } else if is_char_boundary(bytes, i) {
        i
    } else {
        floor_char_boundary(bytes, i - 1)
    }
}

/// A text with every line feed turned into a space.
pub open spec fn flatten_newlines(s: Seq<char>) -> Seq<char> {
    s.map_values(|c: char| if c == '\n' { ' ' } else { c })
}

/// Where the excerpt around a match begins: `context` bytes before the
/// match, no further than the start of the text, then down to a character
/// boundary.
pub open spec fn window_start(bytes: Seq<u8>, m_start: int, context: int) -> int {
    floor_char_boundary(bytes, if m_start >= context { m_start - context } else { 0 })
}

/// Where the excerpt around a match ends: `context` bytes behind the match,
/// no further than the end of the text, then down to a character boundary.
pub open spec fn window_end(bytes: Seq<u8>, m_end: int, context: int) -> int {
    floor_char_boundary(
        bytes,
        if m_end + context <= bytes.len() { m_end + context } else { bytes.len() as int },
    )
}

/// The excerpt of `text` around the match from byte `m_start` to byte
/// `m_end`: the characters of the window, line feeds turned into spaces, and
/// of these no more than the first `max_chars`.
pub open spec fn snippet_of(
    text: Seq<char>,
    m_start: int,
    m_end: int,
    context: int,
    max_chars: int,
) -> Seq<char> {
    let bytes = encode_utf8(text);
    let window = decode_utf8(
        bytes.subrange(window_start(bytes, m_start, context), window_end(bytes, m_end, context)),
    );
    let flat = flatten_newlines(window);
    if flat.len() > max_chars {
        flat.take(max_chars)
    } else {
        flat
    }
}

/// `floor_char_boundary` is a character boundary, at most `i` and at most the
/// length, and no boundary lies between it and the smaller of these two.
pub proof fn lemma_floor_char_boundary(bytes: Seq<u8>, i: int)
    requires
        valid_utf8(bytes),
        0 <= i,
    ensures
        0 <= floor_char_boundary(bytes, i) <= i,
        floor_char_boundary(bytes, i) <= bytes.len(),
        is_char_boundary(bytes, floor_char_boundary(bytes, i)),
        forall|j: int|
            floor_char_boundary(bytes, i) < j <= i && j <= bytes.len() ==> !is_char_boundary(
                bytes,
                j,
            ),
    decreases i,
{
    if i <= 0 {
    } else if i > bytes.len() {
        lemma_floor_char_boundary(bytes, bytes.len() as int);
    } else if is_char_boundary(bytes, i) {
    } else {
        lemma_floor_char_boundary(bytes, i - 1);
    }
}

/// A character boundary of a text, seen from an earlier boundary, is a
/// boundary of what follows that earlier one.
pub proof fn lemma_boundary_of_suffix(bytes: Seq<u8>, lo: int, hi: int)
    requires
        valid_utf8(bytes),
        0 <= lo <= hi <= bytes.len(),
        is_char_boundary(bytes, lo),
        is_char_boundary(bytes, hi),
    ensures
        valid_utf8(bytes.subrange(lo, bytes.len() as int)),
        is_char_boundary(bytes.subrange(lo, bytes.len() as int), hi - lo),
{
    let suffix = bytes.subrange(lo, bytes.len() as int);
    valid_utf8_split(bytes, lo);
    if hi == lo {
    } else if hi == bytes.len() {
        is_char_boundary_start_end_of_seq(suffix);
    } else {
        is_char_boundary_iff_not_is_continuation_byte(bytes, hi);
        is_char_boundary_iff_not_is_continuation_byte(suffix, hi - lo);
    }
}

/// The characters between two character boundaries are a stretch of the
/// text's characters.
pub proof fn lemma_window_is_subrange(text: Seq<char>, lo: int, hi: int) -> (a: int)
    requires
        0 <= lo <= hi <= encode_utf8(text).len(),
        is_char_boundary(encode_utf8(text), lo),
        is_char_boundary(encode_utf8(text), hi),
    ensures
        0 <= a,
        a + decode_utf8(encode_utf8(text).subrange(lo, hi)).len() <= text.len(),
        decode_utf8(encode_utf8(text).subrange(lo, hi)) == text.subrange(
            a,
            a + decode_utf8(encode_utf8(text).subrange(lo, hi)).len(),
        ),
{
    let bytes = encode_utf8(text);
    let suffix = bytes.subrange(lo, bytes.len() as int);
    encode_utf8_valid_utf8(text);
    encode_utf8_decode_utf8(text);
    lemma_boundary_of_suffix(bytes, lo, hi);
    decode_utf8_split(bytes, lo);
    decode_utf8_split(suffix, hi - lo);
    let head = decode_utf8(bytes.subrange(0, lo));
    let window = decode_utf8(suffix.subrange(0, hi - lo));
    let rest = decode_utf8(suffix.subrange(hi - lo, suffix.len() as int));
    assert(suffix.subrange(0, hi - lo) =~= bytes.subrange(lo, hi));
    assert(decode_utf8(bytes) == text);
    assert(text =~= head + (window + rest));
    assert(window =~= text.subrange(head.len() as int, (head.len() + window.len()) as int));
    head.len() as int
}

/// An excerpt holds at most `max_chars` characters, and they are whole
/// characters of the text: a stretch of them, with line feeds turned into
/// spaces.
pub proof fn lemma_snippet_whole_and_bounded(
    text: Seq<char>,
    m_start: int,
    m_end: int,
    context: int,
    max_chars: int,
)
    requires
        0 <= m_start <= m_end,
        0 <= context,
        0 <= max_chars,
    ensures
        snippet_of(text, m_start, m_end, context, max_chars).len() <= max_chars,
        exists|a: int, b: int|
            0 <= a <= b <= text.len() && snippet_of(text, m_start, m_end, context, max_chars)
                == flatten_newlines(#[trigger] text.subrange(a, b)),
{
    let bytes = encode_utf8(text);
    let from = if m_start >= context {
        m_start - context
    } else {
        0
    };
    let to = if m_end + context <= bytes.len() {
        m_end + context
    } else {
        bytes.len() as int
    };
    let lo = window_start(bytes, m_start, context);
    let hi = window_end(bytes, m_end, context);
    encode_utf8_valid_utf8(text);
    lemma_floor_char_boundary(bytes, from);
    lemma_floor_char_boundary(bytes, to);
    assert(lo <= hi) by {
        if lo > hi {
            assert(lo <= to);
        }
    }
    let a = lemma_window_is_subrange(text, lo, hi);
    let window = decode_utf8(bytes.subrange(lo, hi));
    lemma_flat_prefix(text, a, window.len() as int, max_chars);
}

/// The first characters of a flattened stretch of a text are a flattened
/// stretch of the text.
proof fn lemma_flat_prefix(text: Seq<char>, a: int, n: int, max_chars: int)
    requires
        0 <= a,
        0 <= n,
        a + n <= text.len(),
        0 <= max_chars,
    ensures
        ({
            let flat = flatten_newlines(text.subrange(a, a + n));
            let cut = if flat.len() > max_chars {
                flat.take(max_chars)
            } else {
                flat
            };
            &&& cut.len() <= max_chars
            &&& exists|x: int, y: int|
                0 <= x <= y <= text.len() && cut == flatten_newlines(
                    #[trigger] text.subrange(x, y),
                )
        }),
{
    let flat = flatten_newlines(text.subrange(a, a + n));
    if flat.len() > max_chars {
        assert(flat.take(max_chars) =~= flatten_newlines(text.subrange(a, a + max_chars)));
    } else {
        assert(flat == flatten_newlines(text.subrange(a, a + n)));
    }
}

/// Brings a byte offset into `s` down to the nearest character boundary.
pub fn clamp_to_char_boundary(s: &str, i: usize) -> (r: usize)
    ensures
        r == floor_char_boundary(s.spec_bytes(), i as int),
        r <= i,
        r <= s.spec_bytes().len(),
        is_char_boundary(s.spec_bytes(), r as int),
        forall|j: int|
            r < j <= i && j <= s.spec_bytes().len() ==> !is_char_boundary(s.spec_bytes(), j),
{
    broadcast use vstd::utf8::group_utf8_lib;

    let len: usize = s.as_bytes().len();
    let mut k: usize = if i > len {
        len
    } else {
        i
    };
    while k > 0 && !s.is_char_boundary(k)
        invariant
            k <= i,
            k <= s.spec_bytes().len(),
            floor_char_boundary(s.spec_bytes(), k as int) == floor_char_boundary(
                s.spec_bytes(),
                i as int,
            ),
            forall|j: int|
                k < j <= i && j <= s.spec_bytes().len() ==> !is_char_boundary(s.spec_bytes(), j),
        decreases k,
    {
        k -= 1;
    }
    k
}

/// The excerpt of `s` around the match from byte `m_start` to byte `m_end`,
/// with `context` bytes on either side and at most `max_chars` characters.
pub fn snippet_around_match(
    s: &str,
    m_start: usize,
    m_end: usize,
    context: usize,
    max_chars: usize,
) -> (r: String)
    requires
        m_start <= m_end,
    ensures
        r@ == snippet_of(s@, m_start as int, m_end as int, context as int, max_chars as int),
        r@.len() <= max_chars,
{
    broadcast use vstd::utf8::group_utf8_lib;

    let len: usize = s.as_bytes().len();
    let from: usize = if m_start >= context {
        m_start - context
    } else {
        0
    };
    let to: usize = if m_end >= len || context >= len - m_end {
        len
    } else {
        m_end + context
    };
    let lo = clamp_to_char_boundary(s, from);
    let hi = clamp_to_char_boundary(s, to);
    let ghost bytes = s.spec_bytes();
    proof {
        assert(lo == window_start(bytes, m_start as int, context as int));
        assert(hi == window_end(bytes, m_end as int, context as int));
        if lo > hi {
            assert(lo <= to);
        }
        lemma_boundary_of_suffix(bytes, lo as int, hi as int);
    }
    let (_, tail) = s.split_at(lo);
    let (window, _) = tail.split_at(hi - lo);
    proof {
        assert(window.spec_bytes() =~= bytes.subrange(lo as int, hi as int));
        assert(window@ == decode_utf8(window.spec_bytes()));
    }
    let mut out = String::new();
    let mut it = window.chars();
    let mut count: usize = 0;
    assert(window@.take(0) =~= Seq::<char>::empty());
    assert(flatten_newlines(window@.take(0)) =~= Seq::<char>::empty());
    let mut exhausted: bool = false;
    while count < max_chars
        invariant
            count <= max_chars,
            count <= window@.len(),
            it.obeys_prophetic_iter_laws(),
            window@ == window@.take(count as int) + it.remaining(),
            exhausted ==> count == window@.len(),
            out@ == flatten_newlines(window@.take(count as int)),
        ensures
            exhausted || count == max_chars,
        decreases max_chars - count,
    {
        match it.next() {
            Some(c) => {
                let flat: char = if c == '\n' {
                    ' '
                } else {
                    c
                };
                push_char(&mut out, flat);
                proof {
                    assert(window@[count as int] == c);
                    assert(window@.take(count + 1) =~= window@.take(count as int).push(c));
                    assert(flatten_newlines(window@.take(count + 1)) =~= flatten_newlines(
                        window@.take(count as int),
                    ).push(flat));
                    assert(window@ =~= window@.take(count + 1) + it.remaining());
                }
                count += 1;
            },
            None => {
                proof {
                    assert(window@.take(count as int).len() == window@.len());
                }
                exhausted = true;
                break ;
            },
        }
    }
    proof {
        let flat = flatten_newlines(window@);
        if flat.len() > max_chars {
            assert(count == max_chars);
            assert(flat.take(max_chars as int) =~= flatten_newlines(window@.take(count as int)));
        } else {
            if !exhausted {
                assert(count == max_chars);
            }
            assert(window@.take(count as int) =~= window@);
        }
    }
    out
}

} // verus!
