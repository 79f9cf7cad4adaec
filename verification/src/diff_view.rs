//! A side-by-side diff of two texts, hunk by hunk, as libgit2 computes it.
use vstd::prelude::*;
use vstd::utf8::{decode_utf8, valid_utf8};
use vstd::string::StringSliceAdditionalSpecFns;
use git2::Patch;
use crate::text::{chars_of, string_of, subvec, trailing_ws_len, trim_end};

verus! {

#[verifier::external_type_specification]
#[verifier::external_body]
pub struct ExPatch<'a>(Patch<'a>);

#[verifier::external_type_specification]
#[verifier::external_body]
pub struct ExGitError(git2::Error);

#[derive(Debug, Clone, Copy, PartialEq, Eq, Structural)]
pub enum DiffLineKind {
    Context,
    Added,
    Removed,
}

#[derive(Debug, Clone)]
pub struct DiffLine {
    pub kind: DiffLineKind,
    pub text: String,
    pub old_lineno: Option<u32>,
    pub new_lineno: Option<u32>,
}

#[derive(Debug, Clone)]
pub struct DiffHunk {
    pub old_start: u32,
    pub old_lines: u32,
    pub new_start: u32,
    pub new_lines: u32,
    pub lines: Vec<DiffLine>,
}

pub struct DiffView {
    pub hunks: Vec<DiffHunk>,
}

/// Why a diff could not be computed.
#[derive(Debug, Clone, Copy, PartialEq, Eq, Structural)]
pub enum DiffError {
    /// libgit2 could not diff the two texts.
    ComputeFailed,
    /// libgit2 could not hand out a hunk or a line of its diff.
    Git,
}

/// One line of a hunk as libgit2 reports it: its origin character
/// (`'+'`, `'-'`, `' '`, ...), its bytes, and its line numbers in the old
/// and the new text.
pub type LineModel = (char, Seq<u8>, Option<u32>, Option<u32>);

/// One hunk: old start, old line count, new start, new line count, lines.
pub type HunkModel = (u32, u32, u32, u32, Seq<LineModel>);

/// The hunks a patch holds.
pub uninterp spec fn patch_hunks(p: Patch) -> Seq<HunkModel>;

/// The hunks libgit2 finds between two texts with the given number of
/// context lines, or `None` when it fails.
pub uninterp spec fn libgit2_diff(old: Seq<u8>, new: Seq<u8>, context_lines: u32) -> Option<Seq<HunkModel>>;

/// `Patch::from_buffers(old, None, new, None, opts)` with `opts` setting
/// `context_lines`.  The hunks of the patch, or the failure, are named
/// [`libgit2_diff`].
#[verifier::external_body]
fn patch_from_buffers<'a>(old: &'a [u8], new: &'a [u8], context_lines: u32) -> (r: Result<Patch<'a>, git2::Error>)
    ensures
        match r {
            Ok(p) => libgit2_diff(old@, new@, context_lines) == Some(patch_hunks(p)),
            Err(_) => libgit2_diff(old@, new@, context_lines) is None,
        },
{
    let mut opts = git2::DiffOptions::new();
    opts.context_lines(context_lines);
    Patch::from_buffers(old, None, new, None, Some(&mut opts))
}

/// A hunk's old start, old line count, new start, new line count, and its
/// number of lines.
pub type HunkHeader = (u32, u32, u32, u32, usize);

/// A line's origin, bytes, and old and new line numbers.
pub type RawLine = (char, Vec<u8>, Option<u32>, Option<u32>);

/// A hunk's header.
pub open spec fn header_of(h: HunkModel) -> (u32, u32, u32, u32) {
    (h.0, h.1, h.2, h.3)
}

pub open spec fn line_model_of(l: RawLine) -> LineModel {
    (l.0, l.1@, l.2, l.3)
}

/// `Patch::num_hunks`: how many hunks the patch holds.
#[verifier::external_body]
fn patch_num_hunks(p: &Patch) -> (r: usize)
    ensures
        r == patch_hunks(*p).len(),
{
    p.num_hunks()
}

/// `Patch::hunk(i)`: the header of hunk `i` and its number of lines.
/// libgit2 fails exactly for an index past the last hunk.
#[verifier::external_body]
fn patch_hunk(p: &Patch, i: usize) -> (r: Result<HunkHeader, git2::Error>)
    ensures
        match r {
            Ok(h) => i < patch_hunks(*p).len() && header_of(patch_hunks(*p)[i as int]) == (h.0, h.1, h.2, h.3)
                && h.4 == patch_hunks(*p)[i as int].4.len(),
            Err(_) => i >= patch_hunks(*p).len(),
        },
{
    p.hunk(i).map(|(h, n)| (h.old_start(), h.old_lines(), h.new_start(), h.new_lines(), n))
}

/// `Patch::line_in_hunk(i, j)`: origin, content and line numbers of line
/// `j` of hunk `i`.  libgit2 fails exactly for a position past the end.
#[verifier::external_body]
fn patch_line(p: &Patch, i: usize, j: usize) -> (r: Result<RawLine, git2::Error>)
    ensures
        match r {
            Ok(l) => i < patch_hunks(*p).len() && j < patch_hunks(*p)[i as int].4.len() && line_model_of(l)
                == patch_hunks(*p)[i as int].4[j as int],
            Err(_) => !(i < patch_hunks(*p).len() && j < patch_hunks(*p)[i as int].4.len()),
        },
{
    p.line_in_hunk(i, j).map(|l| (l.origin(), l.content().to_vec(), l.old_lineno(), l.new_lineno()))
}

/// `std::str::from_utf8`: the text the bytes encode, or `None` when they
/// are not valid UTF-8.
#[verifier::external_body]
fn utf8_text(bytes: &[u8]) -> (r: Option<&str>)
    ensures
        match r {
            Some(s) => valid_utf8(bytes@) && s.spec_bytes() == bytes@,
            None => !valid_utf8(bytes@),
        },
{
    std::str::from_utf8(bytes).ok()
}

pub open spec fn kind_of(origin: char) -> DiffLineKind {
    if origin == '+' {
        DiffLineKind::Added
    } else if origin == '-' {
        DiffLineKind::Removed
    } else {
        DiffLineKind::Context
    }
}

/// A line's text: its bytes decoded without trailing whitespace, or empty
/// when they are not UTF-8.
pub open spec fn line_text(content: Seq<u8>) -> Seq<char> {
    if valid_utf8(content) {
        trim_end(decode_utf8(content))
    } else {
        Seq::empty()
    }
}

pub type LineView = (DiffLineKind, Seq<char>, Option<u32>, Option<u32>);

pub type HunkView = (u32, u32, u32, u32, Seq<LineView>);

pub open spec fn model_line_view(l: LineModel) -> LineView {
    (kind_of(l.0), line_text(l.1), l.2, l.3)
}

pub open spec fn model_hunk_view(h: HunkModel) -> HunkView {
    (h.0, h.1, h.2, h.3, h.4.map_values(|l: LineModel| model_line_view(l)))
}

pub open spec fn model_view(hs: Seq<HunkModel>) -> Seq<HunkView> {
    hs.map_values(|h: HunkModel| model_hunk_view(h))
}

pub open spec fn line_view(l: DiffLine) -> LineView {
    (l.kind, l.text@, l.old_lineno, l.new_lineno)
}

pub open spec fn hunk_view(h: DiffHunk) -> HunkView {
    (h.old_start, h.old_lines, h.new_start, h.new_lines, h.lines@.map_values(|l: DiffLine| line_view(l)))
}

pub open spec fn hunks_view(hs: Seq<DiffHunk>) -> Seq<HunkView> {
    hs.map_values(|h: DiffHunk| hunk_view(h))
}

/// The text of a diff line's content.
fn content_text(content: &[u8]) -> (r: String)
    ensures
        r@ == line_text(content@),
{
    match utf8_text(content) {
        Some(s) => {
            proof {
                vstd::utf8::encode_utf8_decode_utf8(s@);
            }
            let v = chars_of(s);
            let n = trailing_ws_len(&v);
            string_of(&subvec(&v, 0, v.len() - n))
        },
        None => String::new(),
    }
}

impl DiffView {
    pub fn new() -> (r: Self)
        ensures
            r.hunks@.len() == 0,
    {
        DiffView { hunks: Vec::new() }
    }

    /// The hunks of `patch`, each line classed by its origin (`+` added,
    /// `-` removed, anything else context) and its text decoded and
    /// trimmed at the end.
    pub fn hunks_from_patch(patch: &Patch) -> (r: Result<Vec<DiffHunk>, DiffError>)
        ensures
            r matches Ok(hs) && hunks_view(hs@) == model_view(patch_hunks(*patch)),
    {
        let ghost m = patch_hunks(*patch);
        let count = patch_num_hunks(patch);
        let mut hunks: Vec<DiffHunk> = Vec::new();
        let mut i: usize = 0;
        while i < count
            invariant
                i <= count,
                count == m.len(),
                m == patch_hunks(*patch),
                hunks_view(hunks@) == model_view(m).take(i as int),
            decreases count - i,
        {
            let (old_start, old_lines, new_start, new_lines, n) = match patch_hunk(patch, i) {
                Ok(h) => h,
                Err(_) => {
                    return Err(DiffError::Git);
                },
            };
            let ghost lm = m[i as int].4;
            let mut lines: Vec<DiffLine> = Vec::new();
            let mut j: usize = 0;
            while j < n
                invariant
                    j <= n,
                    n == lm.len(),
                    i < m.len(),
                    m == patch_hunks(*patch),
                    lm == m[i as int].4,
                    lines@.map_values(|l: DiffLine| line_view(l)) == lm.map_values(
                        |l: LineModel| model_line_view(l),
                    ).take(j as int),
                decreases n - j,
            {
                let (origin, content, old_lineno, new_lineno) = match patch_line(patch, i, j) {
                    Ok(l) => l,
                    Err(_) => {
                        return Err(DiffError::Git);
                    },
                };
                let kind = if origin == '+' {
                    DiffLineKind::Added
                } else if origin == '-' {
                    DiffLineKind::Removed
                } else {
                    DiffLineKind::Context
                };
                let text = content_text(&content);
                let ghost before = lines@.map_values(|l: DiffLine| line_view(l));
                lines.push(DiffLine { kind, text, old_lineno, new_lineno });
                assert(lines@.map_values(|l: DiffLine| line_view(l)) =~= before.push(
                    model_line_view(lm[j as int]),
                ));
                assert(lm.map_values(|l: LineModel| model_line_view(l)).take(j + 1) =~= lm.map_values(
                    |l: LineModel| model_line_view(l),
                ).take(j as int).push(model_line_view(lm[j as int])));
                j = j + 1;
            }
            assert(lm.map_values(|l: LineModel| model_line_view(l)).take(n as int) =~= lm.map_values(
                |l: LineModel| model_line_view(l),
            ));
            let ghost before = hunks_view(hunks@);
            hunks.push(DiffHunk { old_start, old_lines, new_start, new_lines, lines });
            assert(hunks_view(hunks@) =~= before.push(model_hunk_view(m[i as int])));
            assert(model_view(m).take(i + 1) =~= model_view(m).take(i as int).push(
                model_hunk_view(m[i as int]),
            ));
            i = i + 1;
        }
        assert(model_view(m).take(count as int) =~= model_view(m));
        Ok(hunks)
    }

    /// The diff from `old` to `new` with three lines of context.
    pub fn compute_diff(old: &str, new: &str) -> (r: Result<Vec<DiffHunk>, DiffError>)
        ensures
            match libgit2_diff(old.spec_bytes(), new.spec_bytes(), 3) {
                Some(m) => r matches Ok(hs) && hunks_view(hs@) == model_view(m),
                None => r == Err::<Vec<DiffHunk>, _>(DiffError::ComputeFailed),
            },
    {
        match patch_from_buffers(old.as_bytes(), new.as_bytes(), 3) {
            Ok(patch) => Self::hunks_from_patch(&patch),
            Err(_) => Err(DiffError::ComputeFailed),
        }
    }
}

} // verus!
