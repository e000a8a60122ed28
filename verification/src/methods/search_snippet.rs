//! Search snippets (RFC 8621 §5): `SearchSnippet/get`, the search terms a
//! filter names, and snippets of a text around the first match of a term,
//! with each match marked.
//!
//! Positions and lengths are in bytes of the UTF-8 encoding, and terms are
//! found in the lower-cased text; a slice that would not fall on character
//! boundaries cannot be taken, and the functions that take one say so.
use vstd::prelude::*;
use vstd::utf8::{
    decode_utf8, encode_utf8, encode_utf8_decode_utf8, encode_utf8_valid_utf8, is_ascii_chars,
    is_ascii_chars_encode_utf8, is_char_boundary, is_char_boundary_iff_not_is_continuation_byte,
    is_char_boundary_start_end_of_seq, is_continuation_byte, valid_utf8, valid_utf8_concat, valid_utf8_split,
};

use crate::methods::identity::forbidden_text;
use crate::methods::{ensure_account_ownership, forbidden_message};
use crate::outside::{lowercase, to_lowercase, utf8_text};
use crate::text::{chars_of, is_white, is_white_exec, string_of, strings_view};
use crate::types::{EmailFilterCondition, Principal};

verus! {

// ── Bytes ───────────────────────────────────────────────────────────────────

/// The bytes of `...`.
pub open spec fn dots() -> Seq<u8> {
    seq![46u8, 46u8, 46u8]
}

/// The bytes of `<mark>`.
pub open spec fn open_mark() -> Seq<u8> {
    seq![60u8, 109u8, 97u8, 114u8, 107u8, 62u8]
}

/// The bytes of `</mark>`.
pub open spec fn close_mark() -> Seq<u8> {
    seq![60u8, 47u8, 109u8, 97u8, 114u8, 107u8, 62u8]
}

/// `a - b`, or 0 where that is negative.
pub open spec fn sat_sub(a: int, b: int) -> int {
    if a >= b {
        a - b
    } else {
        0
    }
}

/// The UTF-8 bytes of the lower-case form of a text.
pub open spec fn lower_bytes(s: Seq<char>) -> Seq<u8> {
    encode_utf8(lowercase(s))
}

/// An ASCII text's bytes are its characters, and are valid UTF-8.
proof fn lemma_ascii_bytes(chars: Seq<char>, bytes: Seq<u8>)
    requires
        is_ascii_chars(chars),
        chars.len() == bytes.len(),
        forall|i: int| 0 <= i < chars.len() ==> chars[i] as u8 == #[trigger] bytes[i],
    ensures
        encode_utf8(chars) == bytes,
        valid_utf8(bytes),
{
    is_ascii_chars_encode_utf8(chars);
    encode_utf8_valid_utf8(chars);
    assert(encode_utf8(chars) =~= bytes);
}

/// The marker byte strings are valid UTF-8.
proof fn lemma_literals_valid()
    ensures
        valid_utf8(dots()),
        valid_utf8(open_mark()),
        valid_utf8(close_mark()),
        valid_utf8(Seq::<u8>::empty()),
{
    lemma_ascii_bytes(seq!['.', '.', '.'], dots());
    lemma_ascii_bytes(seq!['<', 'm', 'a', 'r', 'k', '>'], open_mark());
    lemma_ascii_bytes(seq!['<', '/', 'm', 'a', 'r', 'k', '>'], close_mark());
    lemma_ascii_bytes(Seq::<char>::empty(), Seq::<u8>::empty());
}

/// A part of valid UTF-8 between two character boundaries is valid UTF-8.
proof fn lemma_valid_slice(b: Seq<u8>, from: int, to: int)
    requires
        valid_utf8(b),
        0 <= from <= to <= b.len(),
        is_char_boundary(b, from),
        is_char_boundary(b, to),
    ensures
        valid_utf8(b.subrange(from, to)),
{
    valid_utf8_split(b, from);
    let tail = b.subrange(from, b.len() as int);
    is_char_boundary_start_end_of_seq(tail);
    if to < b.len() {
        is_char_boundary_iff_not_is_continuation_byte(b, to);
        is_char_boundary_iff_not_is_continuation_byte(tail, to - from);
        assert(tail[to - from] == b[to]);
    } else {
        assert(tail.len() == to - from);
    }
    valid_utf8_split(tail, to - from);
    assert(tail.subrange(0, to - from) =~= b.subrange(from, to));
}

fn copy_bytes(b: &[u8], from: usize, to: usize, out: &mut Vec<u8>)
    requires
        from <= to <= b@.len(),
    ensures
        final(out)@ == old(out)@ + b@.subrange(from as int, to as int),
{
    let mut k = from;
    while k < to
        invariant
            from <= k <= to <= b@.len(),
            out@ == old(out)@ + b@.subrange(from as int, k as int),
        decreases to - k,
    {
        out.push(b[k]);
        assert(b@.subrange(from as int, k + 1) =~= b@.subrange(from as int, k as int).push(b@[k as int]));
        k = k + 1;
    }
}

fn push_dots(out: &mut Vec<u8>)
    ensures
        final(out)@ == old(out)@ + dots(),
{
    out.push(46);
    out.push(46);
    out.push(46);
    assert(out@ =~= old(out)@ + dots());
}

/// Whether a byte position of valid UTF-8 is a character boundary.
fn boundary(b: &[u8], i: usize) -> (r: bool)
    requires
        valid_utf8(b@),
    ensures
        r == is_char_boundary(b@, i as int),
{
    proof {
        is_char_boundary_start_end_of_seq(b@);
    }
    if i == 0 || i == b.len() {
        true
    } else if i > b.len() {
        false
    } else {
        proof {
            is_char_boundary_iff_not_is_continuation_byte(b@, i as int);
        }
        let x = b[i];
        !(0x80 <= x && x <= 0xbf)
    }
}

/// The text with the bytes, where they are valid UTF-8.
fn text_of_bytes(b: Vec<u8>) -> (r: String)
    requires
        valid_utf8(b@),
    ensures
        encode_utf8(r@) == b@,
{
    match utf8_text(b) {
        Some(s) => s,
        None => String::new(),
    }
}

// ── Finding a term ──────────────────────────────────────────────────────────

/// Whether `needle` occurs in `hay` at position `i`.
pub open spec fn occurs_at(hay: Seq<u8>, needle: Seq<u8>, i: int) -> bool {
    0 <= i && i + needle.len() <= hay.len() && hay.subrange(i, i + needle.len()) == needle
}

/// The first position from `i` on where `needle` occurs in `hay` (as
/// `str::find` on the part of `hay` from `i`, counted from the start).
pub open spec fn find_from(hay: Seq<u8>, needle: Seq<u8>, i: int) -> Option<int>
    decreases hay.len() + 1 - i,
{
    if i < 0 || i + needle.len() > hay.len() {
        None
    } else if occurs_at(hay, needle, i) {
        Some(i)
    } else {
        find_from(hay, needle, i + 1)
    }
}

/// What `find_from` finds lies at or after where it starts, and the needle
/// occurs there.
pub proof fn lemma_find_from(hay: Seq<u8>, needle: Seq<u8>, i: int)
    ensures
        match find_from(hay, needle, i) {
            Some(p) => i <= p && occurs_at(hay, needle, p),
            None => true,
        },
    decreases hay.len() + 1 - i,
{
    if i < 0 || i + needle.len() > hay.len() {
    } else if occurs_at(hay, needle, i) {
    } else {
        lemma_find_from(hay, needle, i + 1);
    }
}

fn occurs_at_exec(hay: &[u8], needle: &[u8], i: usize) -> (r: bool)
    requires
        i + needle@.len() <= hay@.len(),
    ensures
        r == occurs_at(hay@, needle@, i as int),
{
    let n: usize = hay.len();
    let mut k: usize = 0;
    while k < needle.len()
        invariant
            k <= needle@.len(),
            hay@.len() == n,
            i + needle@.len() <= hay@.len(),
            forall|j: int| 0 <= j < k ==> hay@[i + j] == needle@[j],
        decreases needle.len() - k,
    {
        if hay[i + k] != needle[k] {
            assert(hay@.subrange(i as int, i + needle@.len())[k as int] != needle@[k as int]);
            return false;
        }
        k = k + 1;
    }
    assert(hay@.subrange(i as int, i + needle@.len()) =~= needle@);
    true
}

/// The first position from `pos` on where `needle` occurs in `hay`.
pub fn find_bytes_from(hay: &[u8], needle: &[u8], pos: usize) -> (r: Option<usize>)
    ensures
        match r {
            Some(p) => find_from(hay@, needle@, pos as int) == Some(p as int),
            None => find_from(hay@, needle@, pos as int) is None,
        },
{
    if needle.len() > hay.len() || pos > hay.len() - needle.len() {
        return None;
    }
    let last = hay.len() - needle.len();
    let mut i = pos;
    while i <= last
        invariant
            pos <= i,
            last + needle@.len() == hay@.len(),
            find_from(hay@, needle@, pos as int) == find_from(hay@, needle@, i as int),
        decreases last + 1 - i,
    {
        if occurs_at_exec(hay, needle, i) {
            return Some(i);
        }
        if i == last {
            return None;
        }
        i = i + 1;
    }
    None
}

// ── Snippets ────────────────────────────────────────────────────────────────

/// Bytes cut down to a length: whole if they fit, else the first
/// `max - 3` bytes and `...`; `None` where the cut would split a
/// character.
pub open spec fn truncated(b: Seq<u8>, max: int) -> Option<Seq<u8>> {
    if b.len() <= max {
        Some(b)
    } else if is_char_boundary(b, sat_sub(max, 3)) {
        Some(b.take(sat_sub(max, 3)) + dots())
    } else {
        None
    }
}

/// The context window around a match at `pos`: from 50 bytes before it,
/// `max - 56` bytes more (at least 50), cut at the end of the text, with
/// `...` where text was left out; `None` where the window does not fall on
/// character boundaries of the text, or overflows.
pub open spec fn window(b: Seq<u8>, pos: int, max: int) -> Option<Seq<u8>> {
    let start = sat_sub(pos, 50);
    let after = sat_sub(sat_sub(max, 50), 6);
    if start + 50 + after > usize::MAX {
        None
    } else {
        let end = if start + 50 + after < b.len() {
            start + 50 + after
        } else {
            b.len() as int
        };
        if start > end || !is_char_boundary(b, start) || !is_char_boundary(b, end) {
            None
        } else {
            Some(
                (if start > 0 {
                    dots()
                } else {
                    seq![]
                }) + b.subrange(start, end) + (if end < b.len() {
                    dots()
                } else {
                    seq![]
                }),
            )
        }
    }
}

/// The first position in the lower-cased text where any term, lower-cased,
/// occurs.
pub open spec fn best_position(lower: Seq<u8>, terms: Seq<Seq<char>>) -> Option<int>
    decreases terms.len(),
{
    if terms.len() == 0 {
        None
    } else {
        let b = best_position(lower, terms.drop_last());
        match find_from(lower, lower_bytes(terms.last()), 0) {
            Some(p) => match b {
                Some(q) => if p < q {
                    Some(p)
                } else {
                    Some(q)
                },
                None => Some(p),
            },
            None => b,
        }
    }
}

/// The part of a text a snippet shows, without marks: with no terms, or
/// no term found, the text cut down to `max` bytes; otherwise the window
/// around the first match.
pub open spec fn snippet_window(text: Seq<char>, terms: Seq<Seq<char>>, max: int) -> Option<Seq<u8>> {
    let b = encode_utf8(text);
    if terms.len() == 0 {
        truncated(b, max)
    } else {
        match best_position(lower_bytes(text), terms) {
            Some(pos) => window(b, pos, max),
            None => truncated(b, max),
        }
    }
}

/// The texts of a list of strings.
pub open spec fn texts(s: Seq<String>) -> Seq<Seq<char>> {
    s.map_values(|t: String| t@)
}

fn truncated_exec(b: &[u8], max: usize) -> (r: Option<Vec<u8>>)
    requires
        valid_utf8(b@),
    ensures
        match r {
            Some(v) => truncated(b@, max as int) == Some(v@) && valid_utf8(v@),
            None => truncated(b@, max as int) is None,
        },
{
    let mut out: Vec<u8> = Vec::new();
    proof {
        lemma_literals_valid();
        is_char_boundary_start_end_of_seq(b@);
    }
    if b.len() <= max {
        copy_bytes(b, 0, b.len(), &mut out);
        assert(out@ =~= b@);
        return Some(out);
    }
    let k = max.saturating_sub(3);
    if !boundary(b, k) {
        return None;
    }
    copy_bytes(b, 0, k, &mut out);
    proof {
        lemma_valid_slice(b@, 0, k as int);
        assert(b@.subrange(0, k as int) =~= b@.take(k as int));
    }
    push_dots(&mut out);
    proof {
        valid_utf8_concat(b@.take(k as int), dots());
        assert(out@ =~= b@.take(k as int) + dots());
    }
    Some(out)
}

fn window_exec(b: &[u8], pos: usize, max: usize) -> (r: Option<Vec<u8>>)
    requires
        valid_utf8(b@),
    ensures
        match r {
            Some(v) => window(b@, pos as int, max as int) == Some(v@) && valid_utf8(v@),
            None => window(b@, pos as int, max as int) is None,
        },
{
    let start = pos.saturating_sub(50);
    let after = max.saturating_sub(50).saturating_sub(6);
    if after > usize::MAX - 50 || start > usize::MAX - 50 - after {
        return None;
    }
    let reach = start + 50 + after;
    let end = if reach < b.len() {
        reach
    } else {
        b.len()
    };
    if start > end || !boundary(b, start) || !boundary(b, end) {
        return None;
    }
    let mut out: Vec<u8> = Vec::new();
    proof {
        lemma_literals_valid();
    }
    if start > 0 {
        push_dots(&mut out);
    } else {
        assert(out@ =~= Seq::<u8>::empty());
    }
    let ghost head = out@;
    copy_bytes(b, start, end, &mut out);
    proof {
        lemma_valid_slice(b@, start as int, end as int);
        valid_utf8_concat(head, b@.subrange(start as int, end as int));
    }
    let ghost body = out@;
    if end < b.len() {
        push_dots(&mut out);
        proof {
            valid_utf8_concat(body, dots());
        }
    } else {
        assert(out@ =~= body + Seq::<u8>::empty());
    }
    Some(out)
}

fn best_position_exec(lower: &[u8], terms: &[String]) -> (r: Option<usize>)
    ensures
        match r {
            Some(p) => best_position(lower@, texts(terms@)) == Some(p as int),
            None => best_position(lower@, texts(terms@)) is None,
        },
{
    let mut best: Option<usize> = None;
    let mut i: usize = 0;
    assert(texts(terms@).take(0) =~= Seq::<Seq<char>>::empty());
    while i < terms.len()
        invariant
            i <= terms@.len(),
            match best {
                Some(p) => best_position(lower@, texts(terms@).take(i as int)) == Some(p as int),
                None => best_position(lower@, texts(terms@).take(i as int)) is None,
            },
        decreases terms.len() - i,
    {
        proof {
            assert(texts(terms@).take(i + 1).drop_last() =~= texts(terms@).take(i as int));
            assert(texts(terms@).take(i + 1).last() == terms@[i as int]@);
        }
        let tl = to_lowercase(terms[i].as_str());
        let found = find_bytes_from(lower, tl.as_str().as_bytes(), 0);
        match found {
            Some(p) => {
                match best {
                    Some(q) => {
                        if p < q {
                            best = Some(p);
                        }
                    },
                    None => {
                        best = Some(p);
                    },
                }
            },
            None => {},
        }
        i = i + 1;
    }
    assert(texts(terms@).take(terms@.len() as int) =~= texts(terms@));
    best
}

fn snippet_window_exec(text: &str, terms: &[String], max: usize) -> (r: Option<Vec<u8>>)
    ensures
        match r {
            Some(v) => snippet_window(text@, texts(terms@), max as int) == Some(v@) && valid_utf8(v@),
            None => snippet_window(text@, texts(terms@), max as int) is None,
        },
{
    let b = text.as_bytes();
    proof {
        encode_utf8_valid_utf8(text@);
    }
    if terms.len() == 0 {
        return truncated_exec(b, max);
    }
    let lower = to_lowercase(text);
    match best_position_exec(lower.as_str().as_bytes(), terms) {
        Some(pos) => window_exec(b, pos, max),
        None => truncated_exec(b, max),
    }
}

/// The part of a text that a snippet shows, without marks (see
/// `snippet_window`), or `None` where it cannot be cut on character
/// boundaries.
pub fn snippet_window_checked(text: &str, terms: &[String], max_length: usize) -> (r: Option<String>)
    ensures
        match r {
            Some(s) => snippet_window(text@, texts(terms@), max_length as int) == Some(encode_utf8(s@)),
            None => snippet_window(text@, texts(terms@), max_length as int) is None,
        },
{
    if snippet_window_exec(text, terms, max_length).is_some() {
        Some(snippet_window_text(text, terms, max_length))
    } else {
        None
    }
}

/// The part of a text that a snippet shows, without marks (see
/// `snippet_window`).
pub fn snippet_window_text(text: &str, terms: &[String], max_length: usize) -> (r: String)
    requires
        snippet_window(text@, texts(terms@), max_length as int) is Some,
    ensures
        snippet_window(text@, texts(terms@), max_length as int) == Some(encode_utf8(r@)),
{
    match snippet_window_exec(text, terms, max_length) {
        Some(v) => text_of_bytes(v),
        None => String::new(),
    }
}


// ── Marking matches ─────────────────────────────────────────────────────────

/// A match: where it starts and ends, in bytes.
pub type Span = (usize, usize);

/// Matches found before, followed by what a scan found, if it finished.
pub open spec fn prepend(a: Seq<Span>, o: Option<Seq<Span>>) -> Option<Seq<Span>> {
    match o {
        Some(r) => Some(a + r),
        None => None,
    }
}

/// A term's matches from `pos` on: each place where the lower-cased term
/// occurs in the lower-cased text, ending where the term's own length in
/// bytes takes it, the scan going on from there. `None` where the scan
/// never ends (an empty term), overflows, or would slice the lower-cased
/// text or the text off a character boundary.
pub open spec fn scan_term(text: Seq<u8>, lower: Seq<u8>, needle: Seq<u8>, len: int, pos: int) -> Option<Seq<Span>>
    decreases lower.len() - pos,
{
    if len <= 0 || pos < 0 || pos > lower.len() || !is_char_boundary(lower, pos) {
        None
    } else {
        match find_from(lower, needle, pos) {
            None => Some(seq![]),
            Some(f) => {
                let end = f + len;
                if end > usize::MAX || end > text.len() || end > lower.len() || !is_char_boundary(text, f)
                    || !is_char_boundary(text, end) {
                    None
                } else {
                    proof {
                        lemma_find_from(lower, needle, pos);
                    }
                    prepend(seq![(f as usize, end as usize)], scan_term(text, lower, needle, len, end))
                }
            },
        }
    }
}

/// The matches of every term, term by term, if every scan finishes.
pub open spec fn all_matches(text: Seq<char>, terms: Seq<Seq<char>>) -> Option<Seq<Span>>
    decreases terms.len(),
{
    if terms.len() == 0 {
        Some(seq![])
    } else {
        match all_matches(text, terms.drop_last()) {
            Some(a) => prepend(
                a,
                scan_term(
                    encode_utf8(text),
                    lower_bytes(text),
                    lower_bytes(terms.last()),
                    encode_utf8(terms.last()).len() as int,
                    0,
                ),
            ),
            None => None,
        }
    }
}

/// `m` put into a list ordered by falling start: after every match that
/// starts at or after it.
pub open spec fn insert_desc(s: Seq<Span>, m: Span) -> Seq<Span>
    decreases s.len(),
{
    if s.len() == 0 {
        seq![m]
    } else if s[0].0 >= m.0 {
        seq![s[0]] + insert_desc(s.drop_first(), m)
    } else {
        seq![m] + s
    }
}

/// The matches ordered by falling start, matches that start together
/// keeping their order (a stable sort).
pub open spec fn sort_desc(s: Seq<Span>) -> Seq<Span>
    decreases s.len(),
{
    if s.len() == 0 {
        s
    } else {
        insert_desc(sort_desc(s.drop_last()), s.last())
    }
}

/// Whether `m` and `e` share a byte: `m` starts inside `e`, ends inside
/// it, or encloses it.
pub open spec fn overlaps(m: Span, e: Span) -> bool {
    m.0 < e.1 && e.0 < m.1
}

/// Whether `m` overlaps a match kept before.
pub open spec fn overlaps_any(m: Span, kept: Seq<Span>) -> bool {
    exists|i: int| 0 <= i < kept.len() && overlaps(m, #[trigger] kept[i])
}

/// The matches in order, each kept unless it overlaps one kept before.
pub open spec fn keep_disjoint(s: Seq<Span>) -> Seq<Span>
    decreases s.len(),
{
    if s.len() == 0 {
        s
    } else {
        let k = keep_disjoint(s.drop_last());
        if overlaps_any(s.last(), k) {
            k
        } else {
            k.push(s.last())
        }
    }
}

/// Whether a match can replace its part of `r`: it lies in `r` and in the
/// text, on character boundaries of both.
pub open spec fn mark_ok(r: Seq<u8>, text: Seq<u8>, m: Span) -> bool {
    &&& m.0 <= m.1 <= r.len()
    &&& m.1 <= text.len()
    &&& is_char_boundary(r, m.0 as int)
    &&& is_char_boundary(r, m.1 as int)
    &&& is_char_boundary(text, m.0 as int)
    &&& is_char_boundary(text, m.1 as int)
}

/// `r` with the bytes of the match replaced by the matched part of the
/// text between `<mark>` and `</mark>`.
pub open spec fn mark(r: Seq<u8>, text: Seq<u8>, m: Span) -> Seq<u8> {
    r.take(m.0 as int) + open_mark() + text.subrange(m.0 as int, m.1 as int) + close_mark() + r.skip(m.1 as int)
}

/// The text with the matches marked one after another, each in the text
/// as the marks before it left it; `None` where a match cannot replace its
/// part.
pub open spec fn apply_marks(text: Seq<u8>, ms: Seq<Span>) -> Option<Seq<u8>>
    decreases ms.len(),
{
    if ms.len() == 0 {
        Some(text)
    } else {
        match apply_marks(text, ms.drop_last()) {
            Some(r) => if valid_utf8(r) && mark_ok(r, text, ms.last()) {
                Some(mark(r, text, ms.last()))
            } else {
                None
            },
            None => None,
        }
    }
}

/// A text with every match of the terms marked: matches are found term by
/// term, ordered by falling start, freed of overlaps, and marked in that
/// order. With no terms, the text unchanged.
pub open spec fn highlight_result(text: Seq<char>, terms: Seq<Seq<char>>) -> Option<Seq<u8>> {
    if terms.len() == 0 {
        Some(encode_utf8(text))
    } else {
        match all_matches(text, terms) {
            Some(ms) => apply_marks(encode_utf8(text), keep_disjoint(sort_desc(ms))),
            None => None,
        }
    }
}

/// A snippet of a text: the part that `snippet_window` shows, with the
/// matches marked where terms were found.
pub open spec fn snippet(text: Seq<char>, terms: Seq<Seq<char>>, max: int) -> Option<Seq<u8>> {
    let b = encode_utf8(text);
    if terms.len() == 0 {
        truncated(b, max)
    } else {
        match best_position(lower_bytes(text), terms) {
            Some(pos) => match window(b, pos, max) {
                Some(w) => highlight_result(decode_utf8(w), terms),
                None => None,
            },
            None => truncated(b, max),
        }
    }
}

/// Where the scans of some first terms do not finish, those of all do not.
proof fn lemma_all_matches_prefix(text: Seq<char>, terms: Seq<Seq<char>>, k: int)
    requires
        0 <= k <= terms.len(),
        all_matches(text, terms.take(k)) is None,
    ensures
        all_matches(text, terms) is None,
    decreases terms.len() - k,
{
    if k < terms.len() {
        assert(terms.take(k + 1).drop_last() =~= terms.take(k));
        lemma_all_matches_prefix(text, terms, k + 1);
    } else {
        assert(terms.take(k) =~= terms);
    }
}

/// Where some first marks cannot be made, the marking fails.
proof fn lemma_apply_marks_prefix(text: Seq<u8>, ms: Seq<Span>, k: int)
    requires
        0 <= k <= ms.len(),
        apply_marks(text, ms.take(k)) is None,
    ensures
        apply_marks(text, ms) is None,
    decreases ms.len() - k,
{
    if k < ms.len() {
        assert(ms.take(k + 1).drop_last() =~= ms.take(k));
        lemma_apply_marks_prefix(text, ms, k + 1);
    } else {
        assert(ms.take(k) =~= ms);
    }
}

fn scan_term_exec(text: &[u8], lower: &[u8], needle: &[u8], len: usize, out: &mut Vec<Span>) -> (ok: bool)
    requires
        valid_utf8(text@),
        valid_utf8(lower@),
    ensures
        final(out)@.len() >= old(out)@.len(),
        final(out)@.take(old(out)@.len() as int) == old(out)@,
        ok ==> scan_term(text@, lower@, needle@, len as int, 0) == Some(final(out)@.skip(old(out)@.len() as int)),
        !ok ==> scan_term(text@, lower@, needle@, len as int, 0) is None,
{
    let ghost t = text@;
    let ghost l = lower@;
    let ghost n = needle@;
    let ghost base = out@;
    if len == 0 {
        return false;
    }
    let mut pos: usize = 0;
    assert(out@.skip(base.len() as int) =~= Seq::<Span>::empty());
    assert(out@.take(base.len() as int) =~= base);
    while pos <= lower.len()
        invariant
            valid_utf8(l),
            valid_utf8(t),
            t == text@,
            l == lower@,
            n == needle@,
            len > 0,
            base == old(out)@,
            out@.take(base.len() as int) == base,
            out@.len() >= base.len(),
            scan_term(t, l, n, len as int, 0) == prepend(out@.skip(base.len() as int), scan_term(t, l, n, len as int, pos as int)),
        decreases lower.len() + 1 - pos,
    {
        if !boundary(lower, pos) {
            return false;
        }
        match find_bytes_from(lower, needle, pos) {
            None => {
                assert(scan_term(t, l, n, len as int, pos as int) == Some(Seq::<Span>::empty()));
                assert(out@.skip(base.len() as int) + Seq::<Span>::empty() =~= out@.skip(base.len() as int));
                return true;
            },
            Some(f) => {
                proof {
                    lemma_find_from(l, n, pos as int);
                }
                if f > usize::MAX - len {
                    return false;
                }
                let end = f + len;
                if end > text.len() || end > lower.len() || !boundary(text, f) || !boundary(text, end) {
                    return false;
                }
                let ghost before = out@;
                out.push((f, end));
                proof {
                    assert(out@.skip(base.len() as int) =~= before.skip(base.len() as int) + seq![(f, end)]);
                    assert(out@.take(base.len() as int) =~= before.take(base.len() as int));
                    assert(before.skip(base.len() as int) + (seq![(f, end)] + Seq::<Span>::empty())
                        =~= before.skip(base.len() as int) + seq![(f, end)] + Seq::<Span>::empty());
                    match scan_term(t, l, n, len as int, end as int) {
                        Some(rest) => {
                            assert(before.skip(base.len() as int) + (seq![(f, end)] + rest) =~= out@.skip(
                                base.len() as int,
                            ) + rest);
                        },
                        None => {},
                    }
                }
                pos = end;
            },
        }
    }
    false
}

fn all_matches_exec(text: &str, terms: &[String]) -> (r: Option<Vec<Span>>)
    ensures
        match r {
            Some(v) => all_matches(text@, texts(terms@)) == Some(v@),
            None => all_matches(text@, texts(terms@)) is None,
        },
{
    let b = text.as_bytes();
    let lower = to_lowercase(text);
    let lb = lower.as_str().as_bytes();
    proof {
        encode_utf8_valid_utf8(text@);
        encode_utf8_valid_utf8(lower@);
    }
    let mut out: Vec<Span> = Vec::new();
    let mut i: usize = 0;
    assert(texts(terms@).take(0) =~= Seq::<Seq<char>>::empty());
    while i < terms.len()
        invariant
            i <= terms@.len(),
            b@ == encode_utf8(text@),
            lb@ == lower_bytes(text@),
            valid_utf8(b@),
            valid_utf8(lb@),
            all_matches(text@, texts(terms@).take(i as int)) == Some(out@),
        decreases terms.len() - i,
    {
        proof {
            assert(texts(terms@).take(i + 1).drop_last() =~= texts(terms@).take(i as int));
            assert(texts(terms@).take(i + 1).last() == terms@[i as int]@);
        }
        let tl = to_lowercase(terms[i].as_str());
        let ghost before = out@;
        let ok = scan_term_exec(b, lb, tl.as_str().as_bytes(), terms[i].as_str().as_bytes().len(), &mut out);
        if !ok {
            proof {
                lemma_all_matches_prefix(text@, texts(terms@), i + 1);
            }
            return None;
        }
        proof {
            assert(out@ =~= before + out@.skip(before.len() as int));
        }
        i = i + 1;
    }
    assert(texts(terms@).take(terms@.len() as int) =~= texts(terms@));
    Some(out)
}

/// Where `m` goes in a list ordered by falling start.
proof fn lemma_insert_desc(s: Seq<Span>, m: Span, j: int)
    requires
        0 <= j <= s.len(),
        forall|k: int| 0 <= k < j ==> (#[trigger] s[k]).0 >= m.0,
        j < s.len() ==> s[j].0 < m.0,
    ensures
        insert_desc(s, m) == s.take(j).push(m) + s.skip(j),
    decreases j,
{
    if j == 0 {
        if s.len() == 0 {
            assert(s.take(0).push(m) + s.skip(0) =~= seq![m]);
        } else {
            assert(s.take(0).push(m) + s.skip(0) =~= seq![m] + s);
        }
    } else {
        let t = s.drop_first();
        assert forall|k: int| 0 <= k < j - 1 implies (#[trigger] t[k]).0 >= m.0 by {
            assert(t[k] == s[k + 1]);
        }
        lemma_insert_desc(t, m, j - 1);
        assert(seq![s[0]] + (t.take(j - 1).push(m) + t.skip(j - 1)) =~= s.take(j).push(m) + s.skip(j));
    }
}

fn sort_desc_exec(v: &Vec<Span>) -> (r: Vec<Span>)
    ensures
        r@ == sort_desc(v@),
{
    let mut out: Vec<Span> = Vec::new();
    let mut i: usize = 0;
    assert(v@.take(0) =~= Seq::<Span>::empty());
    while i < v.len()
        invariant
            i <= v@.len(),
            out@ == sort_desc(v@.take(i as int)),
            out@.len() == i,
        decreases v.len() - i,
    {
        proof {
            assert(v@.take(i + 1).drop_last() =~= v@.take(i as int));
            assert(v@.take(i + 1).last() == v@[i as int]);
        }
        let m = v[i];
        let mut j: usize = 0;
        while j < out.len() && out[j].0 >= m.0
            invariant
                j <= out@.len(),
                out@.len() == i,
                forall|k: int| 0 <= k < j ==> (#[trigger] out@[k]).0 >= m.0,
            decreases out.len() - j,
        {
            j = j + 1;
        }
        proof {
            lemma_insert_desc(out@, m, j as int);
        }
        let ghost before = out@;
        out.insert(j, m);
        assert(out@ =~= before.take(j as int).push(m) + before.skip(j as int));
        i = i + 1;
    }
    assert(v@.take(v@.len() as int) =~= v@);
    out
}

fn overlaps_any_exec(m: Span, kept: &Vec<Span>) -> (r: bool)
    ensures
        r == overlaps_any(m, kept@),
{
    let mut i: usize = 0;
    while i < kept.len()
        invariant
            i <= kept@.len(),
            forall|k: int| 0 <= k < i ==> !overlaps(m, #[trigger] kept@[k]),
        decreases kept.len() - i,
    {
        let e = kept[i];
        if m.0 < e.1 && e.0 < m.1 {
            assert(overlaps(m, kept@[i as int]));
            return true;
        }
        i = i + 1;
    }
    false
}

fn keep_disjoint_exec(v: &Vec<Span>) -> (r: Vec<Span>)
    ensures
        r@ == keep_disjoint(v@),
{
    let mut kept: Vec<Span> = Vec::new();
    let mut i: usize = 0;
    assert(v@.take(0) =~= Seq::<Span>::empty());
    while i < v.len()
        invariant
            i <= v@.len(),
            kept@ == keep_disjoint(v@.take(i as int)),
        decreases v.len() - i,
    {
        proof {
            assert(v@.take(i + 1).drop_last() =~= v@.take(i as int));
            assert(v@.take(i + 1).last() == v@[i as int]);
        }
        let m = v[i];
        if !overlaps_any_exec(m, &kept) {
            kept.push(m);
        }
        i = i + 1;
    }
    assert(v@.take(v@.len() as int) =~= v@);
    kept
}

fn apply_marks_exec(text: &[u8], ms: &Vec<Span>) -> (r: Option<Vec<u8>>)
    requires
        valid_utf8(text@),
    ensures
        match r {
            Some(v) => apply_marks(text@, ms@) == Some(v@) && valid_utf8(v@),
            None => apply_marks(text@, ms@) is None,
        },
{
    let mut cur: Vec<u8> = Vec::new();
    copy_bytes(text, 0, text.len(), &mut cur);
    assert(cur@ =~= text@);
    proof {
        lemma_literals_valid();
    }
    let mut i: usize = 0;
    assert(ms@.take(0) =~= Seq::<Span>::empty());
    while i < ms.len()
        invariant
            i <= ms@.len(),
            valid_utf8(text@),
            valid_utf8(cur@),
            valid_utf8(open_mark()),
            valid_utf8(close_mark()),
            apply_marks(text@, ms@.take(i as int)) == Some(cur@),
        decreases ms.len() - i,
    {
        proof {
            assert(ms@.take(i + 1).drop_last() =~= ms@.take(i as int));
            assert(ms@.take(i + 1).last() == ms@[i as int]);
        }
        let (s, e) = ms[i];
        if !(s <= e && e <= cur.len() && e <= text.len()) {
            proof {
                lemma_apply_marks_prefix(text@, ms@, i + 1);
            }
            return None;
        }
        if !(boundary(cur.as_slice(), s) && boundary(cur.as_slice(), e) && boundary(text, s) && boundary(text, e)) {
            proof {
                lemma_apply_marks_prefix(text@, ms@, i + 1);
            }
            return None;
        }
        let mut next: Vec<u8> = Vec::new();
        copy_bytes(cur.as_slice(), 0, s, &mut next);
        let ghost p0 = next@;
        next.push(60);
        next.push(109);
        next.push(97);
        next.push(114);
        next.push(107);
        next.push(62);
        let ghost p1 = next@;
        copy_bytes(text, s, e, &mut next);
        let ghost p2 = next@;
        next.push(60);
        next.push(47);
        next.push(109);
        next.push(97);
        next.push(114);
        next.push(107);
        next.push(62);
        let ghost p3 = next@;
        copy_bytes(cur.as_slice(), e, cur.len(), &mut next);
        proof {
            let r = cur@;
            assert(p0 =~= r.take(s as int));
            assert(p1 =~= r.take(s as int) + open_mark());
            assert(p2 =~= r.take(s as int) + open_mark() + text@.subrange(s as int, e as int));
            assert(p3 =~= r.take(s as int) + open_mark() + text@.subrange(s as int, e as int) + close_mark());
            assert(next@ =~= mark(r, text@, (s, e)));
            is_char_boundary_start_end_of_seq(r);
            lemma_valid_slice(r, 0, s as int);
            lemma_valid_slice(r, e as int, r.len() as int);
            lemma_valid_slice(text@, s as int, e as int);
            assert(r.subrange(0, s as int) =~= r.take(s as int));
            assert(r.subrange(e as int, r.len() as int) =~= r.skip(e as int));
            valid_utf8_concat(r.take(s as int), open_mark());
            valid_utf8_concat(r.take(s as int) + open_mark(), text@.subrange(s as int, e as int));
            valid_utf8_concat(r.take(s as int) + open_mark() + text@.subrange(s as int, e as int), close_mark());
            valid_utf8_concat(
                r.take(s as int) + open_mark() + text@.subrange(s as int, e as int) + close_mark(),
                r.skip(e as int),
            );
        }
        cur = next;
        i = i + 1;
    }
    assert(ms@.take(ms@.len() as int) =~= ms@);
    Some(cur)
}

fn highlight_exec(text: &str, terms: &[String]) -> (r: Option<Vec<u8>>)
    ensures
        match r {
            Some(v) => highlight_result(text@, texts(terms@)) == Some(v@) && valid_utf8(v@),
            None => highlight_result(text@, texts(terms@)) is None,
        },
{
    let b = text.as_bytes();
    proof {
        encode_utf8_valid_utf8(text@);
    }
    if terms.len() == 0 {
        let mut out: Vec<u8> = Vec::new();
        copy_bytes(b, 0, b.len(), &mut out);
        assert(out@ =~= b@);
        return Some(out);
    }
    match all_matches_exec(text, terms) {
        Some(ms) => {
            let sorted = sort_desc_exec(&ms);
            let kept = keep_disjoint_exec(&sorted);
            apply_marks_exec(b, &kept)
        },
        None => None,
    }
}

/// The text with every match of the terms marked (see
/// `highlight_result`), or `None` where a match found in the lower-cased
/// text falls outside the text or inside one of its characters.
pub fn highlight_snippet_checked(text: &str, search_terms: &[String]) -> (r: Option<String>)
    ensures
        match r {
            Some(s) => highlight_result(text@, texts(search_terms@)) == Some(encode_utf8(s@)),
            None => highlight_result(text@, texts(search_terms@)) is None,
        },
{
    if highlight_exec(text, search_terms).is_some() {
        Some(highlight_snippet(text, search_terms))
    } else {
        None
    }
}

/// The text with every match of the terms marked between `<mark>` and
/// `</mark>` (see `highlight_result`).
pub fn highlight_snippet(text: &str, search_terms: &[String]) -> (r: String)
    requires
        highlight_result(text@, texts(search_terms@)) is Some,
    ensures
        highlight_result(text@, texts(search_terms@)) == Some(encode_utf8(r@)),
{
    match highlight_exec(text, search_terms) {
        Some(v) => text_of_bytes(v),
        None => String::new(),
    }
}

fn snippet_exec(text: &str, terms: &[String], max: usize) -> (r: Option<Vec<u8>>)
    ensures
        match r {
            Some(v) => snippet(text@, texts(terms@), max as int) == Some(v@) && valid_utf8(v@),
            None => snippet(text@, texts(terms@), max as int) is None,
        },
{
    let b = text.as_bytes();
    proof {
        encode_utf8_valid_utf8(text@);
    }
    if terms.len() == 0 {
        return truncated_exec(b, max);
    }
    let lower = to_lowercase(text);
    match best_position_exec(lower.as_str().as_bytes(), terms) {
        Some(pos) => match window_exec(b, pos, max) {
            Some(w) => {
                let ghost wv = w@;
                let s = text_of_bytes(w);
                proof {
                    encode_utf8_decode_utf8(s@);
                }
                highlight_exec(s.as_str(), terms)
            },
            None => None,
        },
        None => truncated_exec(b, max),
    }
}

/// A snippet of the text (see `snippet`), or `None` where its window or a
/// match found in the lower-cased text falls inside a character or outside
/// the text.
pub fn generate_snippet_checked(text: &str, search_terms: &[String], max_length: usize) -> (r: Option<String>)
    ensures
        match r {
            Some(s) => snippet(text@, texts(search_terms@), max_length as int) == Some(encode_utf8(s@)),
            None => snippet(text@, texts(search_terms@), max_length as int) is None,
        },
{
    if snippet_exec(text, search_terms, max_length).is_some() {
        Some(generate_snippet(text, search_terms, max_length))
    } else {
        None
    }
}

/// A snippet of the text around the first match of a term, the matches
/// marked (see `snippet`).
pub fn generate_snippet(text: &str, search_terms: &[String], max_length: usize) -> (r: String)
    requires
        snippet(text@, texts(search_terms@), max_length as int) is Some,
    ensures
        snippet(text@, texts(search_terms@), max_length as int) == Some(encode_utf8(r@)),
{
    match snippet_exec(text, search_terms, max_length) {
        Some(v) => text_of_bytes(v),
        None => String::new(),
    }
}


// ── SearchSnippet/get ───────────────────────────────────────────────────────

/// The words of a text: its runs of non-white-space characters, in order
/// (as `str::split_whitespace`).
pub open spec fn words(s: Seq<char>) -> Seq<Seq<char>>
    decreases s.len(),
{
    if s.len() == 0 {
        seq![]
    } else {
        let w = words(s.drop_last());
        let c = s.last();
        if is_white(c) {
            w
        } else if s.len() >= 2 && !is_white(s[s.len() - 2]) {
            w.update(w.len() - 1, w.last().push(c))
        } else {
            w.push(seq![c])
        }
    }
}

/// A text that ends in a word has words.
proof fn lemma_words_nonempty(s: Seq<char>)
    requires
        s.len() > 0,
        !is_white(s.last()),
    ensures
        words(s).len() > 0,
    decreases s.len(),
{
    if s.len() >= 2 && !is_white(s[s.len() - 2]) {
        lemma_words_nonempty(s.drop_last());
    }
}

/// The words of a text.
pub fn split_words(text: &str, out: &mut Vec<String>)
    ensures
        strings_view(final(out)@) == strings_view(old(out)@) + words(text@),
{
    let v = chars_of(text);
    let ghost start = strings_view(out@);
    let mut cur: Vec<char> = Vec::new();
    let mut i: usize = 0;
    assert(v@.take(0) =~= Seq::<char>::empty());
    assert(start + words(v@.take(0)) =~= start);
    while i < v.len()
        invariant
            i <= v@.len(),
            v@ == text@,
            cur@.len() > 0 <==> (i > 0 && !is_white(v@[i - 1])),
            (if cur@.len() > 0 {
                strings_view(out@).push(cur@)
            } else {
                strings_view(out@)
            }) == start + words(v@.take(i as int)),
        decreases v.len() - i,
    {
        let c = v[i];
        proof {
            assert(v@.take(i + 1).drop_last() =~= v@.take(i as int));
            assert(v@.take(i + 1).last() == c);
            if i > 0 {
                assert(v@.take(i + 1)[i - 1] == v@[i - 1]);
            }
        }
        if is_white_exec(c) {
            if cur.len() > 0 {
                let ghost before = strings_view(out@);
                out.push(string_of(cur.as_slice()));
                assert(strings_view(out@) =~= before.push(cur@));
                cur = Vec::new();
            }
        } else {
            let ghost before = cur@;
            let ghost sv = strings_view(out@);
            let ghost w = words(v@.take(i as int));
            cur.push(c);
            proof {
                if before.len() > 0 {
                    lemma_words_nonempty(v@.take(i as int));
                    assert(v@.take(i as int).last() == v@[i - 1]);
                    assert(start + w == sv.push(before));
                    assert(start + w.update(w.len() - 1, w.last().push(c)) =~= (start + w).update(
                        start.len() + w.len() - 1,
                        w.last().push(c),
                    ));
                    assert((start + w).last() == before);
                    assert(sv.push(cur@) =~= sv.push(before).update(sv.len() as int, before.push(c)));
                } else {
                    assert(cur@ =~= seq![c]);
                    assert(start + w.push(seq![c]) =~= (start + w).push(seq![c]));
                }
            }
        }
        i = i + 1;
    }
    assert(v@.take(v@.len() as int) =~= v@);
    if cur.len() > 0 {
        let ghost before = strings_view(out@);
        out.push(string_of(cur.as_slice()));
        assert(strings_view(out@) =~= before.push(cur@));
    }
}

/// The optional text's words, or none.
pub open spec fn opt_words(o: Option<String>) -> Seq<Seq<char>> {
    match o {
        Some(t) => words(t@),
        None => seq![],
    }
}

/// The search terms a filter names: the words of its `text`, `subject`,
/// `body` and `from` conditions, in that order.
pub open spec fn search_terms_of(filter: Option<EmailFilterCondition>) -> Seq<Seq<char>> {
    match filter {
        Some(f) => opt_words(f.text) + opt_words(f.subject) + opt_words(f.body) + opt_words(f.from),
        None => seq![],
    }
}

fn add_words(o: &Option<String>, out: &mut Vec<String>)
    ensures
        strings_view(final(out)@) == strings_view(old(out)@) + opt_words(*o),
{
    match o {
        Some(t) => split_words(t.as_str(), out),
        None => {
            assert(strings_view(out@) + Seq::<Seq<char>>::empty() =~= strings_view(out@));
        },
    }
}

/// The search terms a filter names (see `search_terms_of`).
pub fn extract_search_terms(filter: &Option<EmailFilterCondition>) -> (r: Vec<String>)
    ensures
        strings_view(r@) == search_terms_of(*filter),
{
    let mut terms: Vec<String> = Vec::new();
    assert(strings_view(terms@) =~= Seq::<Seq<char>>::empty());
    if let Some(f) = filter {
        add_words(&f.text, &mut terms);
        add_words(&f.subject, &mut terms);
        add_words(&f.body, &mut terms);
        add_words(&f.from, &mut terms);
        assert(strings_view(terms@) =~= Seq::<Seq<char>>::empty() + opt_words(f.text) + opt_words(f.subject)
            + opt_words(f.body) + opt_words(f.from));
    }
    terms
}

/// A search snippet: an email with its marked subject and preview.
#[derive(Debug, Clone)]
pub struct SearchSnippet {
    pub email_id: String,
    pub subject: Option<String>,
    pub preview: Option<String>,
}

/// `SearchSnippet/get` arguments.
#[derive(Debug)]
pub struct SearchSnippetGetRequest {
    pub account_id: String,
    pub email_ids: Vec<String>,
    pub filter: Option<EmailFilterCondition>,
}

/// `SearchSnippet/get` response.
#[derive(Debug, Clone)]
pub struct SearchSnippetGetResponse {
    pub account_id: String,
    pub list: Vec<SearchSnippet>,
    pub not_found: Vec<String>,
}

/// `SearchSnippet/get`: for the principal's own account, each email gets a
/// bare snippet when the filter names no search terms; when it names some,
/// every email is reported not found, as no snippet text is produced.
pub fn search_snippet_get(request: SearchSnippetGetRequest, principal: &Principal) -> (r: Result<SearchSnippetGetResponse, String>)
    ensures
        principal.account_id@ != request.account_id@ ==> r is Err && r->Err_0@ == forbidden_text(
            request.account_id@,
            principal.account_id@,
        ),
        principal.account_id@ == request.account_id@ ==> r is Ok && ({
            let resp = r->Ok_0;
            let ids = strings_view(request.email_ids@);
            &&& resp.account_id@ == request.account_id@
            &&& if search_terms_of(request.filter).len() == 0 {
                &&& resp.list@.len() == ids.len()
                &&& forall|i: int| 0 <= i < ids.len() ==> (#[trigger] resp.list@[i]).email_id@ == ids[i]
                    && resp.list@[i].subject is None && resp.list@[i].preview is None
                &&& resp.not_found@.len() == 0
            } else {
                &&& resp.list@.len() == 0
                &&& strings_view(resp.not_found@) == ids
            }
        }),
{
    if let Err(e) = ensure_account_ownership(request.account_id.as_str(), principal) {
        return Err(forbidden_message(&e));
    }
    let terms = extract_search_terms(&request.filter);
    let mut list: Vec<SearchSnippet> = Vec::new();
    let mut not_found: Vec<String> = Vec::new();
    let n = request.email_ids.len();
    let mut i: usize = 0;
    while i < n
        invariant
            i <= n,
            n == request.email_ids@.len(),
            strings_view(terms@) == search_terms_of(request.filter),
            terms@.len() == 0 ==> list@.len() == i && not_found@.len() == 0 && forall|j: int|
                0 <= j < i ==> (#[trigger] list@[j]).email_id@ == request.email_ids@[j]@ && list@[j].subject is None
                    && list@[j].preview is None,
            terms@.len() > 0 ==> list@.len() == 0 && strings_view(not_found@) == strings_view(
                request.email_ids@,
            ).take(i as int),
        decreases n - i,
    {
        let id = request.email_ids[i].clone();
        if terms.len() == 0 {
            list.push(SearchSnippet { email_id: id, subject: None, preview: None });
        } else {
            let ghost before = not_found@;
            not_found.push(id);
            assert(strings_view(not_found@) =~= strings_view(request.email_ids@).take(i + 1));
        }
        i = i + 1;
    }
    assert(strings_view(request.email_ids@).take(n as int) =~= strings_view(request.email_ids@));
    Ok(SearchSnippetGetResponse { account_id: request.account_id, list, not_found })
}


// ── Laws ────────────────────────────────────────────────────────────────────

/// With no search terms, a text is marked as it is, and a snippet of a text
/// that fits is the whole text.
pub proof fn law_no_terms(text: Seq<char>, max: int)
    ensures
        highlight_result(text, seq![]) == Some(encode_utf8(text)),
        encode_utf8(text).len() <= max ==> snippet(text, seq![], max) == Some(encode_utf8(text)),
        encode_utf8(text).len() <= max ==> snippet_window(text, seq![], max) == Some(encode_utf8(text)),
{
}

/// A snippet never starts inside the text without saying so: when the
/// window around a match starts after the text's beginning, the snippet
/// begins with `...`.
pub proof fn law_window_marks_cut(b: Seq<u8>, pos: int, max: int)
    requires
        window(b, pos, max) is Some,
        sat_sub(pos, 50) > 0,
    ensures
        window(b, pos, max)->0.take(3) == dots(),
{
    let w = window(b, pos, max)->0;
    assert(w.take(3) =~= dots());
}

// ── The marks keep the text ─────────────────────────────────────────────────

/// No two spans share a byte.
pub open spec fn pairwise_disjoint(s: Seq<Span>) -> bool {
    forall|i: int, j: int| 0 <= i < j < s.len() ==> !overlaps(#[trigger] s[i], #[trigger] s[j])
}

/// The spans start at falling (or equal) positions.
pub open spec fn falling_starts(s: Seq<Span>) -> bool {
    forall|i: int, j: int| 0 <= i < j < s.len() ==> (#[trigger] s[j]).0 <= (#[trigger] s[i]).0
}

/// Every span covers at least one byte.
pub open spec fn nonempty_spans(s: Seq<Span>) -> bool {
    forall|i: int| 0 <= i < s.len() ==> (#[trigger] s[i]).0 < s[i].1
}

/// The spans in the opposite order.
pub open spec fn rev_spans(s: Seq<Span>) -> Seq<Span>
    decreases s.len(),
{
    if s.len() == 0 {
        s
    } else {
        seq![s.last()] + rev_spans(s.drop_last())
    }
}

/// The text from `from` on with `<mark>` put before and `</mark>` after
/// each span (given in rising order): every byte of the text is kept, in
/// its place.
pub open spec fn weave(text: Seq<u8>, spans: Seq<Span>, from: int) -> Seq<u8>
    decreases spans.len(),
{
    if spans.len() == 0 {
        text.subrange(from, text.len() as int)
    } else {
        text.subrange(from, spans[0].0 as int) + open_mark() + text.subrange(spans[0].0 as int, spans[0].1 as int)
            + close_mark() + weave(text, spans.drop_first(), spans[0].1 as int)
    }
}

/// What `weave` gives with its marks taken out: the pieces of the text
/// alone, in order.
pub open spec fn unmarked(text: Seq<u8>, spans: Seq<Span>, from: int) -> Seq<u8>
    decreases spans.len(),
{
    if spans.len() == 0 {
        text.subrange(from, text.len() as int)
    } else {
        text.subrange(from, spans[0].0 as int) + text.subrange(spans[0].0 as int, spans[0].1 as int) + unmarked(
            text,
            spans.drop_first(),
            spans[0].1 as int,
        )
    }
}

/// The spans lie, in rising order and apart, between `from` and the end of
/// a text of length `n`.
pub open spec fn rising_within(spans: Seq<Span>, from: int, n: int) -> bool
    decreases spans.len(),
{
    if spans.len() == 0 {
        from <= n
    } else {
        from <= spans[0].0 <= spans[0].1 && rising_within(spans.drop_first(), spans[0].1 as int, n)
    }
}

/// The kept matches: none overlaps another, each is one of the matches, and
/// they keep the order of the matches, falling starts and non-empty spans
/// included.
#[verifier::spinoff_prover]
proof fn lemma_keep_disjoint(s: Seq<Span>)
    ensures
        pairwise_disjoint(keep_disjoint(s)),
        forall|i: int| 0 <= i < keep_disjoint(s).len() ==> s.contains(#[trigger] keep_disjoint(s)[i]),
        falling_starts(s) ==> falling_starts(keep_disjoint(s)),
        nonempty_spans(s) ==> nonempty_spans(keep_disjoint(s)),
    decreases s.len(),
{
    if s.len() > 0 {
        let t = s.drop_last();
        let k = keep_disjoint(t);
        lemma_keep_disjoint(t);
        assert forall|i: int| 0 <= i < k.len() implies s.contains(#[trigger] k[i]) by {
            let j = choose|j: int| 0 <= j < t.len() && t[j] == k[i];
            assert(s[j] == t[j]);
        }
        if falling_starts(s) {
            assert forall|i: int, j: int| 0 <= i < j < t.len() implies (#[trigger] t[j]).0 <= (#[trigger] t[i]).0 by {
                assert(s[i] == t[i] && s[j] == t[j]);
            }
        }
        if nonempty_spans(s) {
            assert forall|i: int| 0 <= i < t.len() implies (#[trigger] t[i]).0 < t[i].1 by {
                assert(s[i] == t[i]);
            }
        }
        if !overlaps_any(s.last(), k) {
            let r = k.push(s.last());
            assert(r.last() == s[s.len() - 1]);
            assert forall|i: int, j: int| 0 <= i < j < r.len() implies !overlaps(#[trigger] r[i], #[trigger] r[j]) by {
                if j == r.len() - 1 {
                    assert(r[i] == k[i]);
                    if overlaps(r[i], r[j]) {
                        assert(overlaps(s.last(), k[i]));
                    }
                } else {
                    assert(r[i] == k[i] && r[j] == k[j]);
                }
            }
            assert forall|i: int| 0 <= i < r.len() implies s.contains(#[trigger] r[i]) by {
                if i == r.len() - 1 {
                    assert(s[s.len() - 1] == r[i]);
                } else {
                    assert(r[i] == k[i]);
                }
            }
            if falling_starts(s) {
                assert forall|i: int, j: int| 0 <= i < j < r.len() implies (#[trigger] r[j]).0 <= (#[trigger] r[i]).0 by {
                    if j == r.len() - 1 {
                        assert(r[i] == k[i]);
                        assert(t.contains(k[i]));
                        let x = choose|x: int| 0 <= x < t.len() && t[x] == k[i];
                        assert(s[x] == t[x]);
                    } else {
                        assert(r[i] == k[i] && r[j] == k[j]);
                    }
                }
            }
            if nonempty_spans(s) {
                assert forall|i: int| 0 <= i < r.len() implies (#[trigger] r[i]).0 < r[i].1 by {
                    if i < r.len() - 1 {
                        assert(r[i] == k[i]);
                    }
                }
            }
        }
    }
}

/// The matches that `highlight_result` marks share no byte: a match that
/// starts inside, ends inside or encloses one kept before is dropped.
pub proof fn law_kept_matches_disjoint(s: Seq<Span>)
    ensures
        pairwise_disjoint(keep_disjoint(s)),
        forall|i: int| 0 <= i < keep_disjoint(s).len() ==> s.contains(#[trigger] keep_disjoint(s)[i]),
{
    lemma_keep_disjoint(s);
}

/// Putting a match into a list ordered by falling start keeps it so
/// ordered, and adds only that match.
#[verifier::spinoff_prover]
proof fn lemma_insert_desc_sorted(s: Seq<Span>, m: Span)
    requires
        falling_starts(s),
    ensures
        falling_starts(insert_desc(s, m)),
        forall|i: int| 0 <= i < insert_desc(s, m).len() ==> (s.contains(#[trigger] insert_desc(s, m)[i]) || insert_desc(s, m)[i] == m),
        insert_desc(s, m).len() == s.len() + 1,
    decreases s.len(),
{
    if s.len() == 0 {
    } else if s[0].0 >= m.0 {
        let t = s.drop_first();
        assert forall|i: int, j: int| 0 <= i < j < t.len() implies (#[trigger] t[j]).0 <= (#[trigger] t[i]).0 by {
            assert(t[i] == s[i + 1] && t[j] == s[j + 1]);
        }
        lemma_insert_desc_sorted(t, m);
        let q = insert_desc(t, m);
        let r = seq![s[0]] + q;
        assert(insert_desc(s, m) == r);
        assert forall|i: int| 0 <= i < r.len() implies (s.contains(#[trigger] r[i]) || r[i] == m) by {
            if i == 0 {
                assert(s[0] == r[0]);
            } else {
                assert(r[i] == q[i - 1]);
                if t.contains(q[i - 1]) {
                    let x = choose|x: int| 0 <= x < t.len() && t[x] == q[i - 1];
                    assert(s[x + 1] == t[x]);
                }
            }
        }
        assert forall|i: int, j: int| 0 <= i < j < r.len() implies (#[trigger] r[j]).0 <= (#[trigger] r[i]).0 by {
            assert(r[j] == q[j - 1]);
            if i == 0 {
                assert(r[0] == s[0]);
                if q[j - 1] == m {
                } else {
                    let x = choose|x: int| 0 <= x < t.len() && t[x] == q[j - 1];
                    assert(s[x + 1] == t[x]);
                }
            } else {
                assert(r[i] == q[i - 1]);
            }
        }
    } else {
        let r = seq![m] + s;
        assert(insert_desc(s, m) == r);
        assert forall|i: int| 0 <= i < r.len() implies (s.contains(#[trigger] r[i]) || r[i] == m) by {
            if i > 0 {
                assert(r[i] == s[i - 1]);
            }
        }
        assert forall|i: int, j: int| 0 <= i < j < r.len() implies (#[trigger] r[j]).0 <= (#[trigger] r[i]).0 by {
            assert(r[j] == s[j - 1]);
            if i > 0 {
                assert(r[i] == s[i - 1]);
            } else {
                assert(s[j - 1].0 <= s[0].0);
            }
        }
    }
}

/// The matches ordered by `sort_desc` start at falling positions, and each
/// is one of the matches.
proof fn lemma_sort_desc_sorted(s: Seq<Span>)
    ensures
        falling_starts(sort_desc(s)),
        forall|i: int| 0 <= i < sort_desc(s).len() ==> s.contains(#[trigger] sort_desc(s)[i]),
    decreases s.len(),
{
    if s.len() > 0 {
        let t = s.drop_last();
        lemma_sort_desc_sorted(t);
        lemma_insert_desc_sorted(sort_desc(t), s.last());
        let r = sort_desc(s);
        assert forall|i: int| 0 <= i < r.len() implies s.contains(#[trigger] r[i]) by {
            if r[i] == s.last() {
                assert(s[s.len() - 1] == r[i]);
            } else {
                let y = choose|y: int| 0 <= y < sort_desc(t).len() && sort_desc(t)[y] == r[i];
                assert(t.contains(sort_desc(t)[y]));
                let x = choose|x: int| 0 <= x < t.len() && t[x] == sort_desc(t)[y];
                assert(s[x] == t[x]);
            }
        }
    }
}

/// A term's scan gives matches that cover at least one byte each.
proof fn lemma_scan_nonempty(text: Seq<u8>, lower: Seq<u8>, needle: Seq<u8>, len: int, pos: int)
    ensures
        scan_term(text, lower, needle, len, pos) matches Some(r) ==> nonempty_spans(r),
    decreases lower.len() - pos,
{
    if !(len <= 0 || pos < 0 || pos > lower.len() || !is_char_boundary(lower, pos)) {
        match find_from(lower, needle, pos) {
            None => {},
            Some(f) => {
                let end = f + len;
                if !(end > usize::MAX || end > text.len() || end > lower.len() || !is_char_boundary(text, f)
                    || !is_char_boundary(text, end)) {
                    lemma_find_from(lower, needle, pos);
                    lemma_scan_nonempty(text, lower, needle, len, end);
                    match scan_term(text, lower, needle, len, end) {
                        Some(rest) => {
                            let r = seq![(f as usize, end as usize)] + rest;
                            assert forall|i: int| 0 <= i < r.len() implies (#[trigger] r[i]).0 < r[i].1 by {
                                if i > 0 {
                                    assert(r[i] == rest[i - 1]);
                                }
                            }
                        },
                        None => {},
                    }
                }
            },
        }
    }
}

/// All the matches of the terms cover at least one byte each.
proof fn lemma_all_matches_nonempty(text: Seq<char>, terms: Seq<Seq<char>>)
    ensures
        all_matches(text, terms) matches Some(r) ==> nonempty_spans(r),
    decreases terms.len(),
{
    if terms.len() > 0 {
        lemma_all_matches_nonempty(text, terms.drop_last());
        let b = encode_utf8(text);
        let lo = lower_bytes(text);
        let nd = lower_bytes(terms.last());
        let len = encode_utf8(terms.last()).len() as int;
        lemma_scan_nonempty(b, lo, nd, len, 0);
        match all_matches(text, terms.drop_last()) {
            Some(a) => match scan_term(b, lo, nd, len, 0) {
                Some(x) => {
                    let r = a + x;
                    assert forall|i: int| 0 <= i < r.len() implies (#[trigger] r[i]).0 < r[i].1 by {
                        if i < a.len() {
                            assert(r[i] == a[i]);
                        } else {
                            assert(r[i] == x[i - a.len()]);
                        }
                    }
                },
                None => {},
            },
            None => {},
        }
    }
}

/// Spans that lie apart from `from` on end no later than the text.
proof fn lemma_rising_within_end(spans: Seq<Span>, from: int, n: int)
    requires
        rising_within(spans, from, n),
    ensures
        from <= n,
        spans.len() > 0 ==> spans[0].1 <= n,
    decreases spans.len(),
{
    if spans.len() > 0 {
        lemma_rising_within_end(spans.drop_first(), spans[0].1 as int, n);
    }
}

/// Weaving from an earlier place adds the text between the two places in
/// front.
#[verifier::spinoff_prover]
#[verifier::rlimit(40)]
proof fn lemma_weave_split(text: Seq<u8>, spans: Seq<Span>, f1: int, f2: int)
    requires
        0 <= f1 <= f2,
        rising_within(spans, f2, text.len() as int),
    ensures
        weave(text, spans, f1) == text.subrange(f1, f2) + weave(text, spans, f2),
{
    lemma_rising_within_end(spans, f2, text.len() as int);
    if spans.len() == 0 {
        assert(text.subrange(f1, text.len() as int) =~= text.subrange(f1, f2) + text.subrange(f2, text.len() as int));
    } else {
        let s0 = spans[0].0 as int;
        assert(text.subrange(f1, s0) =~= text.subrange(f1, f2) + text.subrange(f2, s0));
        let rest = open_mark() + text.subrange(s0, spans[0].1 as int) + close_mark() + weave(
            text,
            spans.drop_first(),
            spans[0].1 as int,
        );
        assert(weave(text, spans, f1) =~= text.subrange(f1, s0) + rest);
        assert(weave(text, spans, f2) =~= text.subrange(f2, s0) + rest);
    }
}

/// With the marks taken out, a weave is the text from `from` on.
proof fn lemma_unmarked(text: Seq<u8>, spans: Seq<Span>, from: int)
    requires
        0 <= from,
        rising_within(spans, from, text.len() as int),
    ensures
        unmarked(text, spans, from) == text.subrange(from, text.len() as int),
    decreases spans.len(),
{
    lemma_rising_within_end(spans, from, text.len() as int);
    if spans.len() > 0 {
        let s0 = spans[0].0 as int;
        let e0 = spans[0].1 as int;
        lemma_unmarked(text, spans.drop_first(), e0);
        lemma_rising_within_end(spans.drop_first(), e0, text.len() as int);
        assert(text.subrange(from, s0) + text.subrange(s0, e0) + text.subrange(e0, text.len() as int)
            =~= text.subrange(from, text.len() as int));
    }
}

/// Marks applied one match after another, the rightmost first, to matches
/// that start at falling places, share no byte and cover a byte each: what
/// comes out is the text with the marks woven in, the matches in rising
/// order.
#[verifier::spinoff_prover]
#[verifier::rlimit(40)]
proof fn lemma_apply_marks_weave(text: Seq<u8>, ms: Seq<Span>)
    requires
        falling_starts(ms),
        nonempty_spans(ms),
        pairwise_disjoint(ms),
        apply_marks(text, ms) is Some,
    ensures
        apply_marks(text, ms)->0 == weave(text, rev_spans(ms), 0),
        rising_within(rev_spans(ms), 0, text.len() as int),
    decreases ms.len(),
{
    if ms.len() == 0 {
        assert(text.subrange(0, text.len() as int) =~= text);
    } else {
        let m = ms.last();
        let t = ms.drop_last();
        assert forall|i: int, j: int| 0 <= i < j < t.len() implies (#[trigger] t[j]).0 <= (#[trigger] t[i]).0 by {
            assert(ms[i] == t[i] && ms[j] == t[j]);
        }
        assert forall|i: int| 0 <= i < t.len() implies (#[trigger] t[i]).0 < t[i].1 by {
            assert(ms[i] == t[i]);
        }
        assert forall|i: int, j: int| 0 <= i < j < t.len() implies !overlaps(#[trigger] t[i], #[trigger] t[j]) by {
            assert(ms[i] == t[i] && ms[j] == t[j]);
        }
        lemma_apply_marks_weave(text, t);
        let r0 = apply_marks(text, t)->0;
        let rt = rev_spans(t);
        let n = text.len() as int;
        assert(mark_ok(r0, text, m));
        // the last match ends before the match marked just before it starts
        if t.len() > 0 {
            let k = t.len() - 1;
            assert(ms[k] == t.last());
            assert(ms[ms.len() - 1] == m);
            assert(m.0 <= ms[k].0);
            assert(!overlaps(ms[k], ms[ms.len() - 1]));
            assert(ms[k].0 < ms[k].1);
            assert(m.1 <= t.last().0);
            assert(rt[0] == t.last());
        }
        assert(rising_within(rt, m.1 as int, n)) by {
            if rt.len() > 0 {
                assert(rt[0] == t.last());
            }
        }
        lemma_weave_split(text, rt, 0, m.1 as int);
        let a = text.subrange(0, m.1 as int);
        let b = weave(text, rt, m.1 as int);
        assert(r0 == a + b);
        assert(r0.take(m.0 as int) =~= text.subrange(0, m.0 as int));
        assert(r0.skip(m.1 as int) =~= b);
        let rv = rev_spans(ms);
        assert(rv == seq![m] + rt);
        assert(rv[0] == m);
        assert(rv.drop_first() =~= rt);
        assert(mark(r0, text, m) =~= weave(text, rv, 0));
    }
}

/// Highlighting keeps the text: the marked matches share no byte, and the
/// result is the text with `<mark>` and `</mark>` put around each of them
/// in rising order; with the marks taken out, the text as it was.
pub proof fn law_highlight_keeps_text(text: Seq<char>, terms: Seq<Seq<char>>)
    requires
        terms.len() > 0,
        highlight_result(text, terms) is Some,
    ensures
        ({
            let kept = keep_disjoint(sort_desc(all_matches(text, terms)->0));
            &&& pairwise_disjoint(kept)
            &&& rising_within(rev_spans(kept), 0, encode_utf8(text).len() as int)
            &&& highlight_result(text, terms)->0 == weave(encode_utf8(text), rev_spans(kept), 0)
            &&& unmarked(encode_utf8(text), rev_spans(kept), 0) == encode_utf8(text)
        }),
{
    let ms = all_matches(text, terms)->0;
    let sorted = sort_desc(ms);
    lemma_all_matches_nonempty(text, terms);
    lemma_sort_desc_sorted(ms);
    assert forall|i: int| 0 <= i < sorted.len() implies (#[trigger] sorted[i]).0 < sorted[i].1 by {
        assert(ms.contains(sorted[i]));
        let x = choose|x: int| 0 <= x < ms.len() && ms[x] == sorted[i];
        assert(ms[x].0 < ms[x].1);
    }
    lemma_keep_disjoint(sorted);
    let kept = keep_disjoint(sorted);
    let b = encode_utf8(text);
    lemma_apply_marks_weave(b, kept);
    lemma_unmarked(b, rev_spans(kept), 0);
    assert(b.subrange(0, b.len() as int) =~= b);
}

/// What `find_from` finds from `i` on is the first occurrence from there;
/// when it finds nothing, the needle occurs nowhere from `i` on.
proof fn lemma_find_from_first(hay: Seq<u8>, needle: Seq<u8>, i: int)
    requires
        0 <= i,
    ensures
        match find_from(hay, needle, i) {
            Some(p) => i <= p && occurs_at(hay, needle, p) && forall|q: int| i <= q < p ==> !#[trigger] occurs_at(hay, needle, q),
            None => forall|q: int| i <= q ==> !#[trigger] occurs_at(hay, needle, q),
        },
    decreases hay.len() + 1 - i,
{
    if i + needle.len() > hay.len() {
    } else if occurs_at(hay, needle, i) {
    } else {
        lemma_find_from_first(hay, needle, i + 1);
    }
}

/// A snippet is centred on the earliest match: the position chosen is one
/// where some lower-cased term occurs in the lower-cased text, and no term
/// occurs at any earlier position; no position is chosen only when no
/// term occurs anywhere.
pub proof fn law_best_position_is_earliest_match(lower: Seq<u8>, terms: Seq<Seq<char>>)
    ensures
        match best_position(lower, terms) {
            Some(p) => (exists|k: int| 0 <= k < terms.len() && #[trigger] occurs_at(lower, lower_bytes(terms[k]), p))
                && forall|k: int, q: int|
                0 <= k < terms.len() && 0 <= q < p ==> !#[trigger] occurs_at(lower, lower_bytes(terms[k]), q),
            None => forall|k: int, q: int|
                0 <= k < terms.len() && 0 <= q ==> !#[trigger] occurs_at(lower, lower_bytes(terms[k]), q),
        },
    decreases terms.len(),
{
    if terms.len() > 0 {
        let n = terms.len() - 1;
        let d = terms.drop_last();
        let t = terms[n];
        law_best_position_is_earliest_match(lower, d);
        lemma_find_from_first(lower, lower_bytes(t), 0);
        assert(terms.last() == t);
        assert forall|k: int| 0 <= k < d.len() implies terms[k] == #[trigger] d[k] by {}
        match best_position(lower, d) {
            Some(q0) => {
                let k0 = choose|k: int| 0 <= k < d.len() && #[trigger] occurs_at(lower, lower_bytes(d[k]), q0);
                assert(terms[k0] == d[k0]);
                assert(occurs_at(lower, lower_bytes(terms[k0]), q0));
            },
            None => {},
        }
        match find_from(lower, lower_bytes(t), 0) {
            Some(p0) => {
                assert(occurs_at(lower, lower_bytes(terms[n]), p0));
            },
            None => {},
        }
        match best_position(lower, terms) {
            Some(p) => {
                assert forall|k: int, q: int| 0 <= k < terms.len() && 0 <= q < p implies !#[trigger] occurs_at(
                    lower,
                    lower_bytes(terms[k]),
                    q,
                ) by {
                    if k < n {
                        assert(terms[k] == d[k]);
                    }
                }
            },
            None => {
                assert forall|k: int, q: int| 0 <= k < terms.len() && 0 <= q implies !#[trigger] occurs_at(
                    lower,
                    lower_bytes(terms[k]),
                    q,
                ) by {
                    if k < n {
                        assert(terms[k] == d[k]);
                    }
                }
            },
        }
    }
}

/// A text that fits is kept whole; a longer one is cut to exactly `max`
/// bytes (for `max` of at least 3): its first `max - 3` bytes and `...`.
pub proof fn law_truncated_fits(b: Seq<u8>, max: int)
    ensures
        b.len() <= max ==> truncated(b, max) == Some(b),
        b.len() > max && max >= 3 && truncated(b, max) is Some ==> ({
            let w = truncated(b, max)->0;
            w.len() == max && w.take(max - 3) == b.take(max - 3) && w.skip(max - 3) == dots()
        }),
{
    if b.len() > max && max >= 3 {
        if let Some(w) = truncated(b, max) {
            assert(w.take(max - 3) =~= b.take(max - 3));
            assert(w.skip(max - 3) =~= dots());
        }
    }
}

/// The context window shows the match it is cut around: a match of `len`
/// bytes at `pos` that fits in the space after it (`len <= max - 56`)
/// appears whole in the window.
pub proof fn law_window_shows_match(b: Seq<u8>, pos: int, max: int, len: int)
    requires
        0 <= pos,
        0 <= len,
        pos + len <= b.len(),
        len <= max - 56,
    ensures
        window(b, pos, max) matches Some(w) ==> exists|o: int|
            0 <= o && o + len <= w.len() && #[trigger] w.subrange(o, o + len) == b.subrange(pos, pos + len),
{
    if let Some(w) = window(b, pos, max) {
        let start = sat_sub(pos, 50);
        let after = sat_sub(sat_sub(max, 50), 6);
        let end = if start + 50 + after < b.len() { start + 50 + after } else { b.len() as int };
        let pre: Seq<u8> = if start > 0 { dots() } else { seq![] };
        let post: Seq<u8> = if end < b.len() { dots() } else { seq![] };
        assert(w == pre + b.subrange(start, end) + post);
        let o = pre.len() + pos - start;
        assert(start <= pos <= start + 50);
        assert(pos + len <= end);
        assert(w.subrange(o, o + len) =~= b.subrange(pos, pos + len)) by {
            assert forall|k: int| 0 <= k < len implies #[trigger] w.subrange(o, o + len)[k] == b.subrange(pos, pos + len)[k] by {
                assert(w[o + k] == b.subrange(start, end)[pos - start + k]);
            }
        }
    }
}

} // verus!
