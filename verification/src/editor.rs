//! The editor's cursor and viewport arithmetic over the text of the buffer:
//! where the cursor lands when it moves by a character or to the end of a
//! line, how far the view scrolls to keep it in sight, and the window title.
//! Offsets are byte offsets into the UTF-8 text.
use vstd::prelude::*;
use vstd::string::StringExecFns;
use vstd::utf8::{is_char_boundary, valid_utf8};
use vstd::string::StringSliceAdditionalSpecFns;
use crate::guard::{Guard, floor_boundary, ceil_boundary};
use crate::debug_ui::{file_name_of, path_file_name};

verus! {

/// Where the cursor goes when it moves left from `offset`: the start of the
/// character before it, or nowhere at the start of the text.
pub open spec fn left_of(b: Seq<u8>, offset: int) -> int {
    if offset <= 0 {
        0
    } else {
        floor_boundary(b, offset - 1)
    }
}

/// Where the cursor goes when it moves right from `offset`: the end of the
/// character that starts there, or nowhere at the end of the text.
pub open spec fn right_of(b: Seq<u8>, offset: int) -> int {
    if offset >= b.len() {
        offset
    } else {
        ceil_boundary(b, offset + 1)
    }
}

/// The first line feed at or after `i`.
pub open spec fn newline_from(b: Seq<u8>, i: int) -> Option<int>
    decreases b.len() - i,
{
    if i < 0 || i >= b.len() {
        None
    } else if b[i] == 10 {
        Some(i)
    } else {
        newline_from(b, i + 1)
    }
}

/// The length in bytes of the line that starts at `start`, as `str::lines`
/// cuts it: up to the next line feed, without a carriage return right
/// before it; up to the end when no line feed follows.
pub open spec fn line_len_at(b: Seq<u8>, start: int) -> int {
    match newline_from(b, start) {
        Some(k) => if k > start && b[k - 1] == 13 {
            k - 1 - start
        } else {
            k - start
        },
        None => b.len() - start,
    }
}

/// The first visible line after scrolling just enough to show line
/// `cursor` in a view of `visible` lines whose first line is `top`.
pub open spec fn scroll_to_show(cursor: int, top: int, visible: int) -> int {
    let bottom = top + if visible > 0 {
        visible - 1
    } else {
        0
    };
    if cursor < top {
        cursor
    } else if cursor > bottom {
        cursor - visible + 1
    } else {
        top
    }
}

/// The title of the window for a file opened from `path`: its file name,
/// or the whole path when it has none.
pub open spec fn file_title(path: Seq<char>) -> Seq<char> {
    "Forge — "@ + match path_file_name(path) {
        Some(n) => n,
        None => path,
    }
}

/// The title shown: marked with a dot while there are unsaved changes.
pub open spec fn shown_title(title: Seq<char>, dirty: bool) -> Seq<char> {
    if dirty {
        "● "@ + title
    } else {
        title
    }
}

/// The cursor offset after moving one character left.
pub fn move_left_offset(text: &str, offset: usize) -> (r: usize)
    requires
        offset <= text.spec_bytes().len(),
    ensures
        r == left_of(text.spec_bytes(), offset as int),
        r <= offset,
        offset > 0 ==> r < offset,
        is_char_boundary(text.spec_bytes(), r as int),
{
    proof {
        vstd::utf8::encode_utf8_valid_utf8(text@);
        vstd::utf8::is_char_boundary_start_end_of_seq(text.spec_bytes());
    }
    if offset == 0 {
        return 0;
    }
    Guard::floor_char_boundary(text, offset - 1)
}

/// The cursor offset after moving one character right.
pub fn move_right_offset(text: &str, offset: usize) -> (r: usize)
    ensures
        r == right_of(text.spec_bytes(), offset as int),
        offset < text.spec_bytes().len() ==> offset < r <= text.spec_bytes().len() && is_char_boundary(
            text.spec_bytes(),
            r as int,
        ),
        offset >= text.spec_bytes().len() ==> r == offset,
{
    let n = text.as_bytes().len();
    if offset >= n {
        return offset;
    }
    proof {
        vstd::utf8::encode_utf8_valid_utf8(text@);
    }
    Guard::ceil_char_boundary(text, offset + 1)
}

/// The cursor offset after moving to the end of the line that starts at
/// `line_start`.
pub fn line_end_offset(text: &str, line_start: usize) -> (r: usize)
    requires
        line_start <= text.spec_bytes().len(),
    ensures
        r == line_start + line_len_at(text.spec_bytes(), line_start as int),
        line_start <= r <= text.spec_bytes().len(),
{
    let bytes = text.as_bytes();
    let ghost b = text.spec_bytes();
    let n = bytes.len();
    let mut k = line_start;
    while k < n && bytes[k] != 10
        invariant
            line_start <= k <= n,
            n == b.len(),
            bytes@ == b,
            newline_from(b, line_start as int) == newline_from(b, k as int),
        decreases n - k,
    {
        k = k + 1;
    }
    if k < n && k > line_start && bytes[k - 1] == 13 {
        k - 1
    } else {
        k
    }
}

/// The first visible line after scrolling just enough to show the cursor's
/// line.
pub fn ensure_cursor_visible(cursor_line: usize, scroll_top: usize, visible_lines: usize) -> (r: usize)
    requires
        scroll_top + visible_lines <= usize::MAX + 1,
        visible_lines > 0 || cursor_line < usize::MAX,
    ensures
        r == scroll_to_show(cursor_line as int, scroll_top as int, visible_lines as int),
{
    let bottom = scroll_top + if visible_lines > 0 { visible_lines - 1 } else { 0 };
    if cursor_line < scroll_top {
        cursor_line
    } else if cursor_line > bottom {
        if visible_lines > 0 {
            cursor_line - visible_lines + 1
        } else {
            cursor_line + 1
        }
    } else {
        scroll_top
    }
}

/// The title of an editor with nothing opened.
pub fn untitled_title() -> (r: String)
    ensures
        r@ == "Forge — [untitled]"@,
{
    String::from_str("Forge — [untitled]")
}

/// The title of the window for a file opened from `path`.
pub fn title_for_path(path: &str) -> (r: String)
    ensures
        r@ == file_title(path@),
{
    let mut t = String::from_str("Forge — ");
    match file_name_of(path) {
        Some(n) => t.append(n.as_str()),
        None => t.append(path),
    }
    t
}

/// The window title: `title`, marked while there are unsaved changes.
pub fn window_title(title: &str, dirty: bool) -> (r: String)
    ensures
        r@ == shown_title(title@, dirty),
{
    if dirty {
        let mut t = String::from_str("● ");
        t.append(title);
        t
    } else {
        String::from_str(title)
    }
}

/// Moving right and then left from a character boundary comes back to it.
pub proof fn law_right_then_left(b: Seq<u8>, offset: int)
    requires
        valid_utf8(b),
        0 <= offset < b.len(),
        is_char_boundary(b, offset),
    ensures
        left_of(b, right_of(b, offset)) == offset,
{
    lemma_ceil_props(b, offset + 1);
    let r = ceil_boundary(b, offset + 1);
    lemma_floor_back(b, r - 1, offset);
}

/// Moving left and then right from a character boundary after the start
/// comes back to it.
pub proof fn law_left_then_right(b: Seq<u8>, offset: int)
    requires
        valid_utf8(b),
        0 < offset <= b.len(),
        is_char_boundary(b, offset),
    ensures
        right_of(b, left_of(b, offset)) == offset,
{
    lemma_floor_props(b, offset - 1);
    let l = floor_boundary(b, offset - 1);
    lemma_ceil_forward(b, l + 1, offset);
}

proof fn lemma_ceil_props(b: Seq<u8>, i: int)
    requires
        valid_utf8(b),
        0 <= i <= b.len(),
    ensures
        i <= ceil_boundary(b, i) <= b.len(),
        is_char_boundary(b, ceil_boundary(b, i)),
        forall|j: int| i <= j < ceil_boundary(b, i) ==> !is_char_boundary(b, j),
    decreases b.len() - i,
{
    if i == b.len() {
        vstd::utf8::is_char_boundary_start_end_of_seq(b);
    } else if !is_char_boundary(b, i) {
        lemma_ceil_props(b, i + 1);
    }
}

proof fn lemma_floor_props(b: Seq<u8>, i: int)
    requires
        valid_utf8(b),
        0 <= i <= b.len(),
    ensures
        0 <= floor_boundary(b, i) <= i,
        is_char_boundary(b, floor_boundary(b, i)),
        forall|j: int| floor_boundary(b, i) < j <= i ==> !is_char_boundary(b, j),
    decreases i,
{
    if i == 0 {
        vstd::utf8::is_char_boundary_start_end_of_seq(b);
    } else if !is_char_boundary(b, i) {
        lemma_floor_props(b, i - 1);
    }
}

/// With no boundary strictly between `lo` and `i`, the floor of `i` is `lo`.
proof fn lemma_floor_back(b: Seq<u8>, i: int, lo: int)
    requires
        0 <= lo <= i,
        is_char_boundary(b, lo),
        forall|j: int| lo < j <= i ==> !is_char_boundary(b, j),
    ensures
        floor_boundary(b, i) == lo,
    decreases i - lo,
{
    if i > lo {
        lemma_floor_back(b, i - 1, lo);
    }
}

/// With no boundary from `i` up to before `hi`, the ceiling of `i` is `hi`.
proof fn lemma_ceil_forward(b: Seq<u8>, i: int, hi: int)
    requires
        i <= hi <= b.len(),
        is_char_boundary(b, hi),
        forall|j: int| i <= j < hi ==> !is_char_boundary(b, j),
    ensures
        ceil_boundary(b, i) == hi,
    decreases hi - i,
{
    if i < hi {
        lemma_ceil_forward(b, i + 1, hi);
    }
}

} // verus!
