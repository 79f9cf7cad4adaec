//! Indentation-based code folding.
use vstd::prelude::*;
use crate::text::{blank, lines, split_lines, views, is_blank};

verus! {

/// A foldable block: the header line `start_line` stays visible, the lines
/// `start_line + 1 ..= end_line` are hidden while `folded`.
#[derive(Debug, Clone, PartialEq, Eq, Structural)]
pub struct FoldRange {
    pub start_line: usize,
    pub end_line: usize,
    pub folded: bool,
}

pub struct FoldingManager {
    pub ranges: Vec<FoldRange>,
}

/// Width of the leading run of spaces (1 each) and tabs (4 each) of a line.
pub open spec fn indent_width(l: Seq<char>) -> nat
    decreases l.len(),
{
    if l.len() > 0 && l[0] == ' ' {
        1 + indent_width(l.drop_first())
    } else if l.len() > 0 && l[0] == '\t' {
        4 + indent_width(l.drop_first())
    } else {
        0
    }
}

/// Indentation used for folding: a blank line takes the indentation of the
/// next non-blank line, or 0 when none follows.
pub open spec fn eff_indent(ls: Seq<Seq<char>>, i: int) -> nat
    decreases ls.len() - i,
{
    if i < 0 || i >= ls.len() {
        0
    } else if !is_blank(ls[i]) {
        indent_width(ls[i])
    } else {
        eff_indent(ls, i + 1)
    }
}

/// Line `s` opens a block: the next line is indented deeper.
pub open spec fn opens_fold(ls: Seq<Seq<char>>, s: int) -> bool {
    0 <= s && s + 1 < ls.len() && eff_indent(ls, s + 1) > eff_indent(ls, s)
}

/// First line at or after `j` indented no deeper than line `s`, or the
/// number of lines when there is none.
pub open spec fn fold_close(ls: Seq<Seq<char>>, s: int, j: int) -> int
    decreases ls.len() - j,
{
    if j >= ls.len() {
        ls.len() as int
    } else if eff_indent(ls, j) <= eff_indent(ls, s) {
        j
    } else {
        fold_close(ls, s, j + 1)
    }
}

/// Last line of the block opened at line `s`.
pub open spec fn fold_end(ls: Seq<Seq<char>>, s: int) -> int {
    fold_close(ls, s, s + 1) - 1
}

/// The fold state that the first range of `old` spanning `[s, e]` had
/// (`false` when there is none).
pub open spec fn folded_in(old: Seq<FoldRange>, s: usize, e: usize) -> bool
    decreases old.len(),
{
    if old.len() == 0 {
        false
    } else if old[0].start_line == s && old[0].end_line == e {
        old[0].folded
    } else {
        folded_in(old.drop_first(), s, e)
    }
}

/// `r` lists, by increasing start line, one range for every block of
/// `text`, each keeping the fold state it had in `old`.
pub open spec fn folds_of(text: Seq<char>, old: Seq<FoldRange>, r: Seq<FoldRange>) -> bool {
    let ls = lines(text);
    &&& forall|k: int|
        0 <= k < r.len() ==> {
            &&& opens_fold(ls, #[trigger] r[k].start_line as int)
            &&& r[k].end_line == fold_end(ls, r[k].start_line as int)
            &&& r[k].folded == folded_in(old, r[k].start_line, r[k].end_line)
        }
    &&& forall|k1: int, k2: int|
        0 <= k1 < k2 < r.len() ==> r[k1].start_line < r[k2].start_line
    &&& forall|s: int| opens_fold(ls, s) ==> exists|k: int| 0 <= k < r.len() && #[trigger] r[k].start_line == s
}

/// Line `line` lies inside some folded range (below its header).
pub open spec fn hidden_by(ranges: Seq<FoldRange>, line: usize) -> bool {
    exists|k: int|
        0 <= k < ranges.len() && #[trigger] ranges[k].folded && ranges[k].start_line < line
            <= ranges[k].end_line
}

fn indent_of(l: &[char]) -> (w: u128)
    ensures
        w == indent_width(l@),
{
    let mut i: usize = 0;
    let mut w: u128 = 0;
    assert(l@.skip(0) == l@);
    while i < l.len() && (l[i] == ' ' || l[i] == '\t')
        invariant
            i <= l.len(),
            w <= 4 * i,
            indent_width(l@) == w + indent_width(l@.skip(i as int)),
        decreases l.len() - i,
    {
        assert(l@.skip(i as int).drop_first() == l@.skip(i + 1));
        if l[i] == ' ' {
            w = w + 1;
        } else {
            w = w + 4;
        }
        i = i + 1;
    }
    w
}

impl FoldingManager {
    pub fn new() -> (r: Self)
        ensures
            r.ranges@.len() == 0,
    {
        FoldingManager { ranges: Vec::new() }
    }

    /// Recomputes the blocks of `text`, keeps the fold state of the blocks
    /// that already existed, stores them and returns them.
    pub fn compute_ranges(&mut self, text: &str) -> (r: Vec<FoldRange>)
        ensures
            final(self).ranges@ == r@,
            folds_of(text@, old(self).ranges@, r@),
    {
        let chars = crate::text::chars_of(text);
        let ls = split_lines(&chars);
        let ghost lv = lines(text@);
        let n = ls.len();
        if n == 0 {
            self.ranges = Vec::new();
            return Vec::new();
        }
        // Effective indentation, filled from the last line upwards.
        let mut eff: Vec<u128> = Vec::new();
        let mut k: usize = 0;
        while k < n
            invariant
                k <= n,
                n == ls@.len(),
                eff@.len() == k,
            decreases n - k,
        {
            eff.push(0);
            k = k + 1;
        }
        let mut next_valid: u128 = 0;
        let mut i: usize = n;
        while i > 0
            invariant
                i <= n,
                n == ls@.len(),
                views(ls@) == lv,
                eff@.len() == n,
                next_valid == eff_indent(lv, i as int),
                forall|j: int| i <= j < n ==> eff@[j] == eff_indent(lv, j),
            decreases i,
        {
            i = i - 1;
            assert(views(ls@)[i as int] == ls@[i as int]@);
            if blank(&ls[i]) {
                eff.set(i, next_valid);
            } else {
                let w = indent_of(&ls[i]);
                eff.set(i, w);
                next_valid = w;
            }
        }
        let mut old_ranges: Vec<FoldRange> = Vec::new();
        std::mem::swap(&mut old_ranges, &mut self.ranges);
        let ghost old_v = old(self).ranges@;
        assert(old_ranges@ == old_v);
        let mut out: Vec<FoldRange> = Vec::new();
        let mut s: usize = 0;
        while s < n
            invariant
                s <= n,
                n == lv.len(),
                eff@.len() == n,
                forall|j: int| 0 <= j < n ==> eff@[j] == eff_indent(lv, j),
                old_ranges@ == old_v,
                forall|k: int|
                    0 <= k < out@.len() ==> {
                        &&& opens_fold(lv, #[trigger] out@[k].start_line as int)
                        &&& out@[k].end_line == fold_end(lv, out@[k].start_line as int)
                        &&& out@[k].folded == folded_in(old_v, out@[k].start_line, out@[k].end_line)
                        &&& out@[k].start_line < s
                    },
                forall|k1: int, k2: int|
                    0 <= k1 < k2 < out@.len() ==> out@[k1].start_line < out@[k2].start_line,
                forall|t: int|
                    0 <= t < s && opens_fold(lv, t) ==> exists|k: int|
                        0 <= k < out@.len() && #[trigger] out@[k].start_line == t,
            decreases n - s,
        {
            if s + 1 < n && eff[s + 1] > eff[s] {
                let base = eff[s];
                let mut j = s + 1;
                while j < n && eff[j] > base
                    invariant
                        s < j <= n,
                        n == lv.len(),
                        eff@.len() == n,
                        forall|q: int| 0 <= q < n ==> eff@[q] == eff_indent(lv, q),
                        base == eff_indent(lv, s as int),
                        fold_close(lv, s as int, s + 1) == fold_close(lv, s as int, j as int),
                    decreases n - j,
                {
                    j = j + 1;
                }
                let end = j - 1;
                let folded = Self::lookup_folded(&old_ranges, s, end);
                let ghost before = out@;
                out.push(FoldRange { start_line: s, end_line: end, folded });
                proof {
                    assert forall|t: int|
                        0 <= t < s + 1 && opens_fold(lv, t) implies exists|k: int|
                        0 <= k < out@.len() && #[trigger] out@[k].start_line == t by {
                        if t == s {
                            assert(out@[before.len() as int].start_line == t);
                        } else {
                            let k = choose|k: int| 0 <= k < before.len() && #[trigger] before[k].start_line == t;
                            assert(out@[k].start_line == t);
                        }
                    }
                }
            } else {
                assert(!opens_fold(lv, s as int));
            }
            s = s + 1;
        }
        self.ranges = copy_ranges(&out);
        out
    }

    /// Fold state of the first range of `old` spanning `[s, e]`.
    fn lookup_folded(old: &Vec<FoldRange>, s: usize, e: usize) -> (f: bool)
        ensures
            f == folded_in(old@, s, e),
    {
        let mut k: usize = 0;
        assert(old@.skip(0) == old@);
        while k < old.len()
            invariant
                k <= old@.len(),
                folded_in(old@, s, e) == folded_in(old@.skip(k as int), s, e),
            decreases old.len() - k,
        {
            assert(old@.skip(k as int).drop_first() == old@.skip(k + 1));
            assert(old@.skip(k as int)[0] == old@[k as int]);
            if old[k].start_line == s && old[k].end_line == e {
                return old[k].folded;
            }
            k = k + 1;
        }
        false
    }

    /// Flips the fold state of the first range that starts at `line`.
    pub fn toggle_fold(&mut self, line: usize)
        ensures
            final(self).ranges@ == toggled_ranges(old(self).ranges@, line),
    {
        let mut k: usize = 0;
        while k < self.ranges.len()
            invariant
                k <= self.ranges@.len(),
                self.ranges@ == old(self).ranges@,
                forall|j: int| 0 <= j < k ==> self.ranges@[j].start_line != line,
            decreases self.ranges@.len() - k,
        {
            if self.ranges[k].start_line == line {
                let r = FoldRange {
                    start_line: self.ranges[k].start_line,
                    end_line: self.ranges[k].end_line,
                    folded: !self.ranges[k].folded,
                };
                self.ranges.set(k, r);
                proof {
                    lemma_first_start(old(self).ranges@, line, k as int);
                }
                return;
            }
            k = k + 1;
        }
        proof {
            lemma_first_start_none(old(self).ranges@, line);
        }
    }

    /// Folds every range.
    pub fn fold_all(&mut self)
        ensures
            final(self).ranges@ == all_set(old(self).ranges@, true),
    {
        self.set_all(true);
        assert(self.ranges@ =~= all_set(old(self).ranges@, true));
    }

    /// Unfolds every range.
    pub fn unfold_all(&mut self)
        ensures
            final(self).ranges@ == all_set(old(self).ranges@, false),
    {
        self.set_all(false);
        assert(self.ranges@ =~= all_set(old(self).ranges@, false));
    }

    fn set_all(&mut self, folded: bool)
        ensures
            final(self).ranges@.len() == old(self).ranges@.len(),
            forall|k: int|
                0 <= k < final(self).ranges@.len() ==> #[trigger] final(self).ranges@[k] == (
                FoldRange { folded: folded, ..old(self).ranges@[k] }),
    {
        let mut k: usize = 0;
        while k < self.ranges.len()
            invariant
                k <= self.ranges@.len(),
                self.ranges@.len() == old(self).ranges@.len(),
                forall|j: int|
                    0 <= j < k ==> #[trigger] self.ranges@[j] == (FoldRange {
                        folded: folded,
                        ..old(self).ranges@[j]
                    }),
                forall|j: int| k <= j < self.ranges@.len() ==> #[trigger] self.ranges@[j] == old(
                    self,
                ).ranges@[j],
            decreases self.ranges@.len() - k,
        {
            let r = FoldRange {
                start_line: self.ranges[k].start_line,
                end_line: self.ranges[k].end_line,
                folded,
            };
            self.ranges.set(k, r);
            k = k + 1;
        }
    }

    /// A line is visible unless a folded range hides it.
    pub fn is_line_visible(&self, line: usize) -> (r: bool)
        ensures
            r == !hidden_by(self.ranges@, line),
    {
        let mut k: usize = 0;
        while k < self.ranges.len()
            invariant
                k <= self.ranges@.len(),
                forall|j: int|
                    0 <= j < k ==> !(#[trigger] self.ranges@[j].folded && self.ranges@[j].start_line
                        < line <= self.ranges@[j].end_line),
            decreases self.ranges@.len() - k,
        {
            if self.ranges[k].folded {
                if line > self.ranges[k].start_line && line <= self.ranges[k].end_line {
                    return false;
                }
            }
            k = k + 1;
        }
        true
    }
}

fn copy_ranges(v: &Vec<FoldRange>) -> (r: Vec<FoldRange>)
    ensures
        r@ == v@,
{
    let mut r: Vec<FoldRange> = Vec::new();
    let mut k: usize = 0;
    while k < v.len()
        invariant
            k <= v@.len(),
            r@ == v@.take(k as int),
        decreases v@.len() - k,
    {
        r.push(FoldRange { start_line: v[k].start_line, end_line: v[k].end_line, folded: v[k].folded });
        assert(v@.take(k + 1) == v@.take(k as int).push(v@[k as int]));
        k = k + 1;
    }
    assert(v@.take(v@.len() as int) == v@);
    r
}

/// Index of the first range of `r` that starts at `line`.
/// The ranges after flipping the fold state of the first one that starts
/// at `line` (unchanged when none does).
pub open spec fn toggled_ranges(r: Seq<FoldRange>, line: usize) -> Seq<FoldRange> {
    match first_start(r, line) {
        Some(k) => r.update(k, FoldRange { folded: !r[k].folded, ..r[k] }),
        None => r,
    }
}

/// The ranges with every fold state set to `folded`.
pub open spec fn all_set(r: Seq<FoldRange>, folded: bool) -> Seq<FoldRange> {
    Seq::new(r.len(), |k: int| FoldRange { folded, ..r[k] })
}

/// The first range at or after `i` that starts at `line`.
spec fn start_from(r: Seq<FoldRange>, line: usize, i: int) -> Option<int>
    decreases r.len() - i,
{
    if i < 0 || i >= r.len() {
        None
    } else if r[i].start_line == line {
        Some(i)
    } else {
        start_from(r, line, i + 1)
    }
}

proof fn lemma_start_from(r: Seq<FoldRange>, line: usize, i: int)
    requires
        0 <= i,
        forall|j: int| 0 <= j < i ==> r[j].start_line != line,
    ensures
        start_from(r, line, i) matches Some(k) ==> i <= k < r.len() && r[k].start_line == line
            && forall|j: int| 0 <= j < k ==> r[j].start_line != line,
        start_from(r, line, i) is None ==> forall|j: int| 0 <= j < r.len() ==> r[j].start_line != line,
    decreases r.len() - i,
{
    if i < r.len() && r[i].start_line != line {
        lemma_start_from(r, line, i + 1);
    }
}

/// What `first_start` finds: the first range starting at `line`.
proof fn lemma_first_start_props(r: Seq<FoldRange>, line: usize)
    ensures
        first_start(r, line) matches Some(k) ==> 0 <= k < r.len() && r[k].start_line == line
            && forall|j: int| 0 <= j < k ==> r[j].start_line != line,
{
    lemma_start_from(r, line, 0);
    if let Some(k) = start_from(r, line, 0) {
        lemma_first_start(r, line, k);
    }
}

/// Toggling the same line twice restores every range.
pub proof fn law_toggle_twice(r: Seq<FoldRange>, line: usize)
    ensures
        toggled_ranges(toggled_ranges(r, line), line) == r,
{
    match first_start(r, line) {
        Some(k) => {
            let t = toggled_ranges(r, line);
            lemma_first_start_props(r, line);
            lemma_first_start(t, line, k);
            assert(toggled_ranges(t, line) =~= r);
        },
        None => {},
    }
}

/// Unfolding everything keeps every range where it was, unfolded, and then
/// no line is hidden.
pub proof fn law_unfold_all_shows_everything(r: Seq<FoldRange>)
    ensures
        all_set(r, false).len() == r.len(),
        forall|k: int|
            0 <= k < r.len() ==> {
                &&& (#[trigger] all_set(r, false)[k]).start_line == r[k].start_line
                &&& all_set(r, false)[k].end_line == r[k].end_line
                &&& !all_set(r, false)[k].folded
            },
        forall|line: usize| !hidden_by(all_set(r, false), line),
{
}

/// After folding everything, exactly the lines below the header of some
/// range, up to its end, are hidden; headers of outermost ranges stay
/// visible.
pub proof fn law_fold_all_hides_bodies(r: Seq<FoldRange>, line: usize)
    ensures
        hidden_by(all_set(r, true), line) <==> exists|k: int|
            0 <= k < r.len() && r[k].start_line < line <= #[trigger] r[k].end_line,
{
    if exists|k: int| 0 <= k < r.len() && r[k].start_line < line <= #[trigger] r[k].end_line {
        let k = choose|k: int| 0 <= k < r.len() && r[k].start_line < line <= #[trigger] r[k].end_line;
        assert(all_set(r, true)[k].folded);
    }
}

/// Toggling the fold at `line` changes the visibility of no line outside
/// the toggled range's body; in particular a range's header line is never
/// hidden by folding that range.
pub proof fn law_toggle_is_local(r: Seq<FoldRange>, line: usize, other: usize)
    requires
        first_start(r, line) matches Some(k) && !(r[k].start_line < other <= r[k].end_line),
    ensures
        hidden_by(toggled_ranges(r, line), other) == hidden_by(r, other),
{
    let k = first_start(r, line).unwrap();
    let t = toggled_ranges(r, line);
    lemma_first_start_props(r, line);
    if hidden_by(r, other) {
        let j = choose|j: int|
            0 <= j < r.len() && #[trigger] r[j].folded && r[j].start_line < other <= r[j].end_line;
        assert(j != k);
        assert(t[j] == r[j]);
    }
    if hidden_by(t, other) {
        let j = choose|j: int|
            0 <= j < t.len() && #[trigger] t[j].folded && t[j].start_line < other <= t[j].end_line;
        assert(j != k);
        assert(t[j] == r[j]);
    }
}

pub open spec fn first_start(r: Seq<FoldRange>, line: usize) -> Option<int> {
    if exists|k: int| 0 <= k < r.len() && r[k].start_line == line {
        Some(
            choose|k: int|
                0 <= k < r.len() && r[k].start_line == line && forall|j: int|
                    0 <= j < k ==> r[j].start_line != line,
        )
    } else {
        None
    }
}

proof fn lemma_first_start(r: Seq<FoldRange>, line: usize, k: int)
    requires
        0 <= k < r.len(),
        r[k].start_line == line,
        forall|j: int| 0 <= j < k ==> r[j].start_line != line,
    ensures
        first_start(r, line) == Some(k),
{
    let w = choose|w: int|
        0 <= w < r.len() && r[w].start_line == line && forall|j: int|
            0 <= j < w ==> r[j].start_line != line;
    assert(0 <= w < r.len() && r[w].start_line == line && forall|j: int|
        0 <= j < w ==> r[j].start_line != line);
    if w < k {
    } else if w > k {
        assert(r[k].start_line != line);
    }
}

proof fn lemma_first_start_none(r: Seq<FoldRange>, line: usize)
    requires
        forall|j: int| 0 <= j < r.len() ==> r[j].start_line != line,
    ensures
        first_start(r, line) is None,
{
}

/// A blank line takes the indentation of the first non-blank line after
/// it.
proof fn lemma_eff_next(ls: Seq<Seq<char>>, j: int, m: int)
    requires
        0 <= j <= m < ls.len(),
        !is_blank(ls[m]),
        forall|q: int| j <= q < m ==> is_blank(#[trigger] ls[q]),
    ensures
        eff_indent(ls, j) == indent_width(ls[m]),
    decreases m - j,
{
    if j < m {
        assert(is_blank(ls[j]));
        lemma_eff_next(ls, j + 1, m);
    }
}

/// Where a block closes: every line before it is deeper than the header,
/// and the close itself is not.
proof fn lemma_fold_close(ls: Seq<Seq<char>>, s: int, j: int)
    requires
        0 <= j,
    ensures
        j <= fold_close(ls, s, j) <= ls.len() || j > ls.len(),
        forall|m: int| j <= m < fold_close(ls, s, j) ==> eff_indent(ls, m) > eff_indent(ls, s),
        fold_close(ls, s, j) < ls.len() ==> eff_indent(ls, fold_close(ls, s, j)) <= eff_indent(ls, s),
    decreases ls.len() - j,
{
    if j < ls.len() && eff_indent(ls, j) > eff_indent(ls, s) {
        lemma_fold_close(ls, s, j + 1);
    }
}

/// A fold starts at a non-blank line; every non-blank line it hides is
/// indented deeper than that line; and blank lines do not end it: the first
/// non-blank line after it is indented no deeper than its first line.
pub proof fn law_folds_span_blank_lines(text: Seq<char>, old: Seq<FoldRange>, r: Seq<FoldRange>)
    requires
        folds_of(text, old, r),
    ensures
        forall|k: int|
            0 <= k < r.len() ==> {
                let ls = lines(text);
                let s = (#[trigger] r[k]).start_line as int;
                let e = r[k].end_line as int;
                &&& s < e < ls.len()
                &&& !is_blank(ls[s])
                &&& forall|m: int|
                    s < m <= e && !is_blank(#[trigger] ls[m]) ==> indent_width(ls[m]) > indent_width(ls[s])
                &&& forall|m: int|
                    e < m < ls.len() && !is_blank(#[trigger] ls[m]) && (forall|q: int|
                        e < q < m ==> is_blank(#[trigger] ls[q])) ==> indent_width(ls[m]) <= indent_width(ls[s])
            },
{
    let ls = lines(text);
    assert forall|k: int| 0 <= k < r.len() implies {
        let s = (#[trigger] r[k]).start_line as int;
        let e = r[k].end_line as int;
        &&& s < e < ls.len()
        &&& !is_blank(ls[s])
        &&& forall|m: int|
            s < m <= e && !is_blank(#[trigger] ls[m]) ==> indent_width(ls[m]) > indent_width(ls[s])
        &&& forall|m: int|
            e < m < ls.len() && !is_blank(#[trigger] ls[m]) && (forall|q: int|
                e < q < m ==> is_blank(#[trigger] ls[q])) ==> indent_width(ls[m]) <= indent_width(ls[s])
    } by {
        let s = r[k].start_line as int;
        let e = r[k].end_line as int;
        assert(opens_fold(ls, s));
        assert(e == fold_close(ls, s, s + 1) - 1);
        lemma_fold_close(ls, s, s + 1);
        if is_blank(ls[s]) {
            assert(eff_indent(ls, s) == eff_indent(ls, s + 1));
        }
        assert(eff_indent(ls, s) == indent_width(ls[s]));
        assert(eff_indent(ls, s + 1) > eff_indent(ls, s));
        assert forall|m: int| s < m <= e && !is_blank(#[trigger] ls[m]) implies indent_width(ls[m])
            > indent_width(ls[s]) by {
            assert(eff_indent(ls, m) > eff_indent(ls, s));
        }
        assert forall|m: int|
            e < m < ls.len() && !is_blank(#[trigger] ls[m]) && (forall|q: int|
                e < q < m ==> is_blank(#[trigger] ls[q])) implies indent_width(ls[m]) <= indent_width(ls[s]) by {
            lemma_eff_next(ls, e + 1, m);
        }
    }
}

} // verus!
