//! Gutter marks for the lines a file's working copy adds or removes.
use vstd::prelude::*;

verus! {

#[derive(Debug, Clone, Copy, PartialEq, Eq, Structural)]
pub enum DiffKind {
    Added,
    Modified,
    Deleted,
}

#[derive(Debug, Clone, Copy, PartialEq, Eq, Structural)]
pub struct GutterMark {
    /// 1-based.
    pub line: usize,
    pub kind: DiffKind,
}

pub struct GutterDiff;

/// The mark for a diff line with origin `origin` and new-file line number
/// `new_lineno`: added (`+`) and removed (`-`) lines that have a line in
/// the new file get one; context lines and removed lines without one get
/// none.
pub open spec fn mark_of(origin: char, new_lineno: Option<u32>) -> Option<GutterMark> {
    let kind = if origin == '+' {
        Some(DiffKind::Added)
    } else if origin == '-' {
        Some(DiffKind::Deleted)
    } else {
        None
    };
    match (kind, new_lineno) {
        (Some(k), Some(ln)) => Some(GutterMark { line: ln as usize, kind: k }),
        _ => None,
    }
}

pub open spec fn marks_of(lines: Seq<(char, Option<u32>)>) -> Seq<GutterMark>
    decreases lines.len(),
{
    if lines.len() == 0 {
        Seq::empty()
    } else {
        let rest = marks_of(lines.drop_last());
        match mark_of(lines.last().0, lines.last().1) {
            Some(m) => rest.push(m),
            None => rest,
        }
    }
}

impl GutterDiff {
    /// The mark for one diff line, if it gets one.
    pub fn mark_for_line(origin: char, new_lineno: Option<u32>) -> (r: Option<GutterMark>)
        ensures
            r == mark_of(origin, new_lineno),
    {
        let kind = if origin == '+' {
            DiffKind::Added
        } else if origin == '-' {
            DiffKind::Deleted
        } else {
            return None;
        };
        match new_lineno {
            Some(ln) => Some(GutterMark { line: ln as usize, kind }),
            None => None,
        }
    }

    /// The marks for the lines of a diff, given by origin and new-file line
    /// number, in order.
    pub fn marks_from_lines(lines: &Vec<(char, Option<u32>)>) -> (r: Vec<GutterMark>)
        ensures
            r@ == marks_of(lines@),
    {
        let mut marks: Vec<GutterMark> = Vec::new();
        let mut i: usize = 0;
        while i < lines.len()
            invariant
                i <= lines@.len(),
                marks@ == marks_of(lines@.take(i as int)),
            decreases lines@.len() - i,
        {
            assert(lines@.take(i + 1).drop_last() == lines@.take(i as int));
            let (origin, ln) = lines[i];
            match Self::mark_for_line(origin, ln) {
                Some(m) => marks.push(m),
                None => {},
            }
            i = i + 1;
        }
        assert(lines@.take(lines@.len() as int) == lines@);
        marks
    }
}

} // verus!
