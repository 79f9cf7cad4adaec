//! Defensive helpers for the render path: clamping, safe slicing and line
//! lookup that never index out of bounds.
use vstd::prelude::*;
use vstd::utf8::{is_char_boundary, valid_utf8};
use vstd::string::StringSliceAdditionalSpecFns;
use ropey::Rope;

verus! {

#[verifier::external_type_specification]
#[verifier::external_body]
pub struct ExRope(Rope);

/// The characters a rope holds, in order.
pub uninterp spec fn rope_chars(r: Rope) -> Seq<char>;

/// The characters ropey (with its default `unicode_lines` feature) takes
/// for a line break: LF, VT, FF, CR, NEL, LS and PS.
pub open spec fn is_line_break(c: char) -> bool {
    c == '\n' || c == '\u{0B}' || c == '\u{0C}' || c == '\r' || c == '\u{85}' || c == '\u{2028}'
        || c == '\u{2029}'
}

/// The line breaks in a text, a CR followed by an LF counting once.
pub open spec fn line_breaks(text: Seq<char>) -> nat
    decreases text.len(),
{
    if text.len() == 0 {
        0
    } else if text.len() > 1 && text[0] == '\r' && text[1] == '\n' {
        1 + line_breaks(text.skip(2))
    } else if is_line_break(text[0]) {
        1 + line_breaks(text.drop_first())
    } else {
        line_breaks(text.drop_first())
    }
}

/// The number of lines ropey counts in a text: its line breaks plus one.
pub open spec fn ropey_len_lines(text: Seq<char>) -> nat {
    line_breaks(text) + 1
}

/// Where the line that starts at `i` ends: just after its line break (a CR
/// followed by an LF taken together), or at the end of the text.
pub open spec fn line_end_from(text: Seq<char>, i: int) -> int
    decreases text.len() - i,
{
    if i < 0 || i >= text.len() {
        text.len() as int
    } else if text[i] == '\r' && i + 1 < text.len() && text[i + 1] == '\n' {
        i + 2
    } else if is_line_break(text[i]) {
        i + 1
    } else {
        line_end_from(text, i + 1)
    }
}

/// Where line `idx` starts: at the start of the text, or where the line
/// before it ends.
pub open spec fn line_start(text: Seq<char>, idx: nat) -> int
    decreases idx,
{
    if idx == 0 {
        0
    } else {
        line_end_from(text, line_start(text, (idx - 1) as nat))
    }
}

/// The text of line `idx` as ropey splits it: from the start of the line
/// through its line break, included.
pub open spec fn ropey_line(text: Seq<char>, idx: nat) -> Seq<char> {
    let a = line_start(text, idx);
    text.subrange(a, line_end_from(text, a))
}

/// `Rope::len_lines`: the line count of the rope's text, which ropey
/// documents as the number of line breaks plus one (the breaks its
/// `unicode_lines` feature recognizes, on by default), so never zero.
#[verifier::external_body]
fn rope_len_lines(r: &Rope) -> (n: usize)
    ensures
        n as nat == ropey_len_lines(rope_chars(*r)),
        n >= 1,
{
    r.len_lines()
}

/// `Rope::line(idx)` turned into a `String`: the text of that line as ropey
/// documents it, its line break included (ropey counts a line break as
/// part of the line it ends).  `Rope::line` panics for an index at or past `len_lines`, so
/// that is ruled out.
#[verifier::external_body]
fn rope_line_text(r: &Rope, idx: usize) -> (s: String)
    requires
        (idx as nat) < ropey_len_lines(rope_chars(*r)),
    ensures
        s@ == ropey_line(rope_chars(*r), idx as nat),
{
    r.line(idx).to_string()
}

/// The largest character boundary at or below `i`.
pub open spec fn floor_boundary(b: Seq<u8>, i: int) -> int
    decreases i,
{
    if i <= 0 {
        0
    } else if is_char_boundary(b, i) {
        i
    } else {
        floor_boundary(b, i - 1)
    }
}

/// The smallest character boundary at or above `i` (the end for `i` past it).
pub open spec fn ceil_boundary(b: Seq<u8>, i: int) -> int
    decreases b.len() - i,
{
    if i >= b.len() {
        b.len() as int
    } else if is_char_boundary(b, i) {
        i
    } else {
        ceil_boundary(b, i + 1)
    }
}

pub open spec fn min_int(a: int, b: int) -> int {
    if a < b { a } else { b }
}

pub open spec fn max_int(a: int, b: int) -> int {
    if a < b { b } else { a }
}

/// Defensive helpers used on the render path.
pub struct Guard;

impl Guard {
    /// The text of line `line_idx` of `buffer`, or the empty string when the
    /// buffer has no such line.
    pub fn get_line(buffer: &Rope, line_idx: usize) -> (r: String)
        ensures
            (line_idx as nat) < ropey_len_lines(rope_chars(*buffer)) ==> r@ == ropey_line(
                rope_chars(*buffer),
                line_idx as nat,
            ),
            (line_idx as nat) >= ropey_len_lines(rope_chars(*buffer)) ==> r@.len() == 0,
    {
        if line_idx < rope_len_lines(buffer) {
            rope_line_text(buffer, line_idx)
        } else {
            String::new()
        }
    }

    /// Clamps `value` into `[min, max]` the way `value.max(min).min(max)`
    /// does: the upper bound wins when `min > max`.
    pub fn clamp_usize(value: usize, min: usize, max: usize) -> (r: usize)
        ensures
            r == min_int(max_int(value as int, min as int), max as int),
    {
        let lo = if value < min { min } else { value };
        if lo > max { max } else { lo }
    }

    /// Clamps a cursor to a buffer of `total_lines` lines whose target line
    /// has `line_len` columns.
    pub fn clamp_cursor(line: usize, col: usize, total_lines: usize, line_len: usize) -> (r: (
        usize,
        usize,
    ))
        ensures
            r.0 == (if total_lines == 0 { 0 } else { min_int(line as int, total_lines - 1) }),
            r.1 == min_int(col as int, line_len as int),
    {
        let safe_line = if total_lines == 0 {
            0
        } else if line < total_lines - 1 {
            line
        } else {
            total_lines - 1
        };
        let safe_col = if col < line_len { col } else { line_len };
        (safe_line, safe_col)
    }

    /// At most about `max_len` bytes of `s` from byte `start`, widened to
    /// character boundaries: the start moves down and the end moves up to the
    /// nearest boundary.  Empty when `start` is at or past the end.
    pub fn safe_substr(s: &str, start: usize, max_len: usize) -> (r: &str)
        ensures
            start >= s.spec_bytes().len() ==> r@.len() == 0,
            start < s.spec_bytes().len() ==> r.spec_bytes() == s.spec_bytes().subrange(
                floor_boundary(s.spec_bytes(), start as int),
                ceil_boundary(
                    s.spec_bytes(),
                    min_int(start + max_len, s.spec_bytes().len() as int),
                ),
            ),
    {
        let n = s.as_bytes().len();
        if start >= n {
            proof {
                reveal_strlit("");
            }
            return "";
        }
        let ghost b = s.spec_bytes();
        proof {
            vstd::utf8::encode_utf8_valid_utf8(s@);
            vstd::utf8::is_char_boundary_start_end_of_seq(b);
        }
        let end = if max_len < n - start { start + max_len } else { n };
        let lo = Self::floor_char_boundary(s, start);
        let hi = Self::ceil_char_boundary(s, end);
        proof {
            lemma_floor_le_ceil(b, start as int, end as int);
        }
        let (head, _) = s.split_at(hi);
        proof {
            vstd::utf8::valid_utf8_split(b, hi as int);
            lemma_boundary_in_prefix(b, lo as int, hi as int);
        }
        let (_, mid) = head.split_at(lo);
        assert(mid.spec_bytes() =~= b.subrange(lo as int, hi as int));
        mid
    }

    /// `str::floor_char_boundary`: the largest boundary at or below `i`,
    /// for `i` within the string.
    pub(crate) fn floor_char_boundary(s: &str, i: usize) -> (r: usize)
        requires
            i <= s.spec_bytes().len(),
            valid_utf8(s.spec_bytes()),
        ensures
            r as int == floor_boundary(s.spec_bytes(), i as int),
            r <= i,
            is_char_boundary(s.spec_bytes(), r as int),
    {
        let mut k = i;
        while k > 0 && !s.is_char_boundary(k)
            invariant
                k <= i,
                valid_utf8(s.spec_bytes()),
                floor_boundary(s.spec_bytes(), k as int) == floor_boundary(s.spec_bytes(), i as int),
            decreases k,
        {
            k = k - 1;
        }
        proof {
            if k == 0 {
                vstd::utf8::is_char_boundary_start_end_of_seq(s.spec_bytes());
            }
        }
        k
    }

    /// `str::ceil_char_boundary`: the smallest boundary at or above `i`, for
    /// `i` within the string.
    pub(crate) fn ceil_char_boundary(s: &str, i: usize) -> (r: usize)
        requires
            i <= s.spec_bytes().len(),
            valid_utf8(s.spec_bytes()),
        ensures
            r as int == ceil_boundary(s.spec_bytes(), i as int),
            i <= r <= s.spec_bytes().len(),
            is_char_boundary(s.spec_bytes(), r as int),
    {
        let n = s.as_bytes().len();
        let mut k = i;
        while k < n && !s.is_char_boundary(k)
            invariant
                i <= k <= n,
                n == s.spec_bytes().len(),
                valid_utf8(s.spec_bytes()),
                ceil_boundary(s.spec_bytes(), k as int) == ceil_boundary(s.spec_bytes(), i as int),
            decreases n - k,
        {
            k = k + 1;
        }
        proof {
            if k == n {
                vstd::utf8::is_char_boundary_start_end_of_seq(s.spec_bytes());
            }
        }
        k
    }
}

/// The floor of `a` is at most the ceiling of any `c >= a`.
proof fn lemma_floor_le_ceil(b: Seq<u8>, a: int, c: int)
    requires
        0 <= a <= c <= b.len(),
    ensures
        floor_boundary(b, a) <= a <= c <= ceil_boundary(b, c),
{
    lemma_floor_le(b, a);
    lemma_ceil_ge(b, c);
}

proof fn lemma_floor_le(b: Seq<u8>, a: int)
    requires
        0 <= a,
    ensures
        0 <= floor_boundary(b, a) <= a,
    decreases a,
{
    if a > 0 && !is_char_boundary(b, a) {
        lemma_floor_le(b, a - 1);
    }
}

proof fn lemma_ceil_ge(b: Seq<u8>, c: int)
    requires
        c <= b.len(),
    ensures
        c <= ceil_boundary(b, c) <= b.len(),
    decreases b.len() - c,
{
    if c < b.len() && !is_char_boundary(b, c) {
        lemma_ceil_ge(b, c + 1);
    }
}

/// A boundary at or below another boundary `j` is still a boundary of the
/// text cut at `j`.
proof fn lemma_boundary_in_prefix(b: Seq<u8>, i: int, j: int)
    requires
        valid_utf8(b),
        0 <= i <= j <= b.len(),
        is_char_boundary(b, i),
        is_char_boundary(b, j),
    ensures
        is_char_boundary(b.subrange(0, j), i),
    decreases b.len(),
{
    vstd::utf8::valid_utf8_split(b, j);
    if i > 0 {
        let p = b.subrange(0, j);
        let l = vstd::utf8::length_of_first_scalar(b);
        let t = vstd::utf8::pop_first_scalar(b);
        assert(is_char_boundary(t, i - l));
        assert(is_char_boundary(t, j - l));
        assert(0 <= i - l);
        assert(t.len() == b.len() - l);
        assert(p[0] == b[0]);
        assert(vstd::utf8::length_of_first_scalar(p) == l);
        assert(vstd::utf8::pop_first_scalar(p) =~= t.subrange(0, j - l));
        lemma_boundary_in_prefix(t, i - l, j - l);
    }
}

} // verus!
