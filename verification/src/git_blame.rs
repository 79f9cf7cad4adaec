//! Blame annotations: for each line, the commit that last changed it.
use vstd::prelude::*;
use vstd::string::StringSliceAdditionalSpecFns;
use vstd::utf8::is_char_boundary;
use crate::text::{i64_text, signed_decimal};

verus! {

#[derive(Debug, Clone)]
pub struct BlameLine {
    pub commit_hash: String,
    pub author: String,
    pub date: String,
    pub line_number: usize,
}

pub struct BlameView {
    pub lines: Vec<BlameLine>,
    pub visible: bool,
}

pub type BlameLineView = (Seq<u8>, Seq<char>, Seq<char>, usize);

pub open spec fn blame_view(v: Seq<BlameLine>) -> Seq<BlameLineView> {
    v.map_values(|l: BlameLine| (vstd::utf8::encode_utf8(l.commit_hash@), l.author@, l.date@, l.line_number))
}

/// The lines of one blame hunk: the first seven bytes of the commit's hash,
/// the author (`"Unknown"` when unnamed), the commit time in seconds, and
/// each line number from `start` on.
pub open spec fn hunk_lines(hash: Seq<u8>, author: Seq<char>, seconds: i64, start: usize, n: nat) -> Seq<BlameLineView> {
    Seq::new(n, |i: int| (hash.subrange(0, 7), author, signed_decimal(seconds as int), (start + i) as usize))
}

impl BlameView {
    pub fn new() -> (r: Self)
        ensures
            r.lines@.len() == 0,
            !r.visible,
    {
        BlameView { lines: Vec::new(), visible: false }
    }

    /// Appends the lines of a blame hunk: `lines_in_hunk` lines from
    /// `start_line`, last changed by the commit `commit_hash` of `author`
    /// (if the commit names one) at `seconds`.
    pub fn add_hunk(
        &mut self,
        commit_hash: &str,
        author: Option<&str>,
        seconds: i64,
        start_line: usize,
        lines_in_hunk: usize,
    )
        requires
            commit_hash.spec_bytes().len() >= 7,
            is_char_boundary(commit_hash.spec_bytes(), 7),
            lines_in_hunk == 0 || start_line + (lines_in_hunk - 1) <= usize::MAX,
        ensures
            final(self).visible == old(self).visible,
            blame_view(final(self).lines@) == blame_view(old(self).lines@) + hunk_lines(
                commit_hash.spec_bytes(),
                match author {
                    Some(a) => a@,
                    None => "Unknown"@,
                },
                seconds,
                start_line,
                lines_in_hunk as nat,
            ),
    {
        let (short, _) = commit_hash.split_at(7);
        let name = match author {
            Some(a) => a.to_owned(),
            None => "Unknown".to_owned(),
        };
        let date = i64_text(seconds);
        let ghost a = match author {
            Some(a) => a@,
            None => "Unknown"@,
        };
        let ghost before = blame_view(self.lines@);
        let mut i: usize = 0;
        while i < lines_in_hunk
            invariant
                i <= lines_in_hunk,
                self.visible == old(self).visible,
                lines_in_hunk == 0 || start_line + (lines_in_hunk - 1) <= usize::MAX,
                short.spec_bytes() == commit_hash.spec_bytes().subrange(0, 7),
                name@ == a,
                date@ == signed_decimal(seconds as int),
                blame_view(self.lines@) == before + hunk_lines(commit_hash.spec_bytes(), a, seconds, start_line, i as nat),
            decreases lines_in_hunk - i,
        {
            let ghost prev = blame_view(self.lines@);
            self.lines.push(
                BlameLine {
                    commit_hash: short.to_owned(),
                    author: name.clone(),
                    date: date.clone(),
                    line_number: start_line + i,
                },
            );
            assert(blame_view(self.lines@) =~= prev.push(
                (commit_hash.spec_bytes().subrange(0, 7), a, signed_decimal(seconds as int), (start_line + i) as usize),
            ));
            assert(hunk_lines(commit_hash.spec_bytes(), a, seconds, start_line, (i + 1) as nat) =~= hunk_lines(
                commit_hash.spec_bytes(),
                a,
                seconds,
                start_line,
                i as nat,
            ).push((commit_hash.spec_bytes().subrange(0, 7), a, signed_decimal(seconds as int), (start_line + i) as usize)));
            i = i + 1;
        }
    }
}

impl Default for BlameView {
    fn default() -> (r: Self)
        ensures
            r.lines@.len() == 0,
            !r.visible,
    {
        BlameView::new()
    }
}

} // verus!
