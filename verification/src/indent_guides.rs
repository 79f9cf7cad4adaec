//! Vertical indentation guides.
use vstd::prelude::*;
use crate::text::{blank, chars_of, is_blank, lines, split_lines, views};

verus! {

/// A guide drawn at character column `col` over the lines
/// `start_line .. end_line` (end exclusive); `active` marks the innermost
/// guide around the cursor.
#[derive(Debug, Clone, PartialEq, Eq, Structural)]
pub struct GuideLine {
    pub col: usize,
    pub start_line: usize,
    pub end_line: usize,
    pub active: bool,
}

pub struct IndentGuides;

/// Width of the leading spaces (1 each) and tabs (`tab` each) of a line.
pub open spec fn indent_cols(l: Seq<char>, tab: nat) -> nat
    decreases l.len(),
{
    if l.len() > 0 && l[0] == ' ' {
        1 + indent_cols(l.drop_first(), tab)
    } else if l.len() > 0 && l[0] == '\t' {
        tab + indent_cols(l.drop_first(), tab)
    } else {
        0
    }
}

/// Indentation level of a line; `None` for a blank line.
pub open spec fn level_of(l: Seq<char>, tab: nat) -> Option<nat> {
    if is_blank(l) {
        None
    } else {
        Some(indent_cols(l, tab) / tab)
    }
}

pub open spec fn levels(ls: Seq<Seq<char>>, tab: nat) -> Seq<Option<nat>> {
    Seq::new(ls.len(), |i: int| level_of(ls[i], tab))
}

/// Largest level among the first `n` entries (0 when there is none).
pub open spec fn max_level(ind: Seq<Option<nat>>, n: int) -> nat
    decreases n,
{
    if n <= 0 || n > ind.len() {
        0
    } else {
        let m = max_level(ind, n - 1);
        match ind[n - 1] {
            Some(v) => if v > m { v } else { m },
            None => m,
        }
    }
}

/// A line continues the guide at `level`: it is indented at least that
/// deep, or it is blank while a guide is already open.
pub open spec fn covered(x: Option<nat>, level: nat, open: bool) -> bool {
    match x {
        Some(v) => v >= level,
        None => open,
    }
}

/// Maximal runs `(start, end)` of covered lines for one level, scanning
/// from line `i` with the run opened at `start`, if any.
pub open spec fn runs_from(ind: Seq<Option<nat>>, level: nat, i: int, start: Option<int>) -> Seq<
    (int, int),
>
    decreases ind.len() - i,
{
    if i >= ind.len() {
        match start {
            Some(s) => seq![(s, ind.len() as int)],
            None => Seq::empty(),
        }
    } else if covered(ind[i], level, start is Some) {
        runs_from(ind, level, i + 1, if start is Some { start } else { Some(i) })
    } else {
        match start {
            Some(s) => seq![(s, i)] + runs_from(ind, level, i + 1, None),
            None => runs_from(ind, level, i + 1, None),
        }
    }
}

/// Guides `(col, start, end)` of levels `level ..= top`, level by level.
pub open spec fn guides_from(ind: Seq<Option<nat>>, tab: nat, level: nat, top: nat) -> Seq<
    (int, int, int),
>
    decreases top + 1 - level,
{
    if level == 0 || level > top {
        Seq::empty()
    } else {
        runs_from(ind, level, 0, None).map_values(guide_of(level, tab)) + guides_from(
            ind,
            tab,
            level + 1,
            top,
        )
    }
}

/// The guide `(col, start, end)` of a run at `level`.
pub open spec fn guide_of(level: nat, tab: nat) -> spec_fn((int, int)) -> (int, int, int) {
    |r: (int, int)| (((level - 1) * tab) as int, r.0, r.1)
}

/// All guides of `text` before the active one is chosen.
pub open spec fn raw_guides(text: Seq<char>, tab: nat) -> Seq<(int, int, int)> {
    let ind = levels(lines(text), tab);
    guides_from(ind, tab, 1, max_level(ind, ind.len() as int))
}

/// The key a column is compared by when the active guide is chosen: the
/// column taken `as isize`, which wraps a column above `isize::MAX` around
/// to a negative number.
pub open spec fn col_key(c: int) -> int {
    if c <= isize::MAX {
        c
    } else {
        c - isize::MAX - 1 + isize::MIN
    }
}

/// Guide `k` is the active one: it contains `cursor`, its key is not
/// negative, no earlier guide containing `cursor` has a key as large, and
/// no later one a larger.
pub open spec fn is_active(g: Seq<(int, int, int)>, cursor: int, k: int) -> bool {
    &&& 0 <= k < g.len()
    &&& g[k].1 <= cursor < g[k].2
    &&& col_key(g[k].0) >= 0
    &&& forall|j: int| 0 <= j < k && g[j].1 <= cursor < g[j].2 ==> col_key(#[trigger] g[j].0) < col_key(g[k].0)
    &&& forall|j: int| k < j < g.len() && g[j].1 <= cursor < g[j].2 ==> col_key(#[trigger] g[j].0) <= col_key(g[k].0)
}

fn indent_cols_of(l: &[char], tab: usize) -> (w: usize)
    requires
        tab > 0,
        indent_cols(l@, tab as nat) <= usize::MAX,
    ensures
        w == indent_cols(l@, tab as nat),
{
    let mut i: usize = 0;
    let mut w: usize = 0;
    assert(l@.skip(0) == l@);
    while i < l.len() && (l[i] == ' ' || l[i] == '\t')
        invariant
            i <= l.len(),
            indent_cols(l@, tab as nat) <= usize::MAX,
            indent_cols(l@, tab as nat) == w + indent_cols(l@.skip(i as int), tab as nat),
        decreases l.len() - i,
    {
        assert(l@.skip(i as int).drop_first() == l@.skip(i + 1));
        assert(l@.skip(i as int)[0] == l[i as int]);
        if l[i] == ' ' {
            w = w + 1;
        } else {
            w = w + tab;
        }
        i = i + 1;
    }
    if i < l.len() {
        assert(l@.skip(i as int)[0] == l[i as int]);
    }
    w
}

impl IndentGuides {
    /// Guides for `text` with `tab_size` columns per level; the innermost
    /// guide around `cursor_line` is marked active.
    pub fn compute(text: &str, tab_size: u32, cursor_line: usize) -> (r: Vec<GuideLine>)
        requires
            tab_size > 0 || forall|q: int| 0 <= q < lines(text@).len() ==> is_blank(#[trigger] lines(text@)[q]),
            forall|q: int|
                0 <= q < lines(text@).len() && !is_blank(#[trigger] lines(text@)[q]) ==> indent_cols(
                    lines(text@)[q],
                    tab_size as nat,
                ) <= usize::MAX,
        ensures
            r@.len() == raw_guides(text@, tab_size as nat).len(),
            forall|k: int|
                0 <= k < r@.len() ==> {
                    &&& #[trigger] r@[k].col == raw_guides(text@, tab_size as nat)[k].0
                    &&& r@[k].start_line == raw_guides(text@, tab_size as nat)[k].1
                    &&& r@[k].end_line == raw_guides(text@, tab_size as nat)[k].2
                    &&& r@[k].active == is_active(
                        raw_guides(text@, tab_size as nat),
                        cursor_line as int,
                        k,
                    )
                },
    {
        let tab = tab_size as usize;
        let chars = chars_of(text);
        let ls = split_lines(&chars);
        let ghost lv = lines(text@);
        let n = ls.len();
        let mut ind: Vec<Option<usize>> = Vec::new();
        let mut max_indent: usize = 0;
        let mut i: usize = 0;
        while i < n
            invariant
                i <= n,
                n == lv.len(),
                views(ls@) == lv,
                tab == tab_size as usize,
                tab > 0 || forall|q: int| 0 <= q < lv.len() ==> is_blank(#[trigger] lv[q]),
                tab > 0 || max_indent == 0,
                forall|q: int|
                    0 <= q < lv.len() && !is_blank(#[trigger] lv[q]) ==> indent_cols(lv[q], tab as nat)
                        <= usize::MAX,
                ind@.len() == i,
                forall|q: int| 0 <= q < i ==> opt_nat(ind@[q]) == levels(lv, tab as nat)[q],
                max_indent == max_level(levels(lv, tab as nat), i as int),
                max_indent * tab <= usize::MAX,
            decreases n - i,
        {
            assert(views(ls@)[i as int] == ls@[i as int]@);
            if blank(&ls[i]) {
                ind.push(None);
            } else {
                assert(tab > 0);
                let w = indent_cols_of(&ls[i], tab);
                let level = w / tab;
                proof {
                    assert(level * tab <= w) by (nonlinear_arith) requires level == w / tab, tab > 0;
                }
                ind.push(Some(level));
                if level > max_indent {
                    max_indent = level;
                }
            }
            i = i + 1;
        }
        let ghost iv = levels(lv, tab as nat);
        let ghost top = max_level(iv, n as int);
        let mut guides: Vec<GuideLine> = Vec::new();
        let mut done: usize = 0;
        assert(guide_view(guides@) + guides_from(iv, tab as nat, 1, top) == guides_from(
            iv,
            tab as nat,
            1,
            top,
        ));
        while done < max_indent
            invariant
                done <= max_indent,
                max_indent == top,
                n == iv.len(),
                tab == tab_size as usize,
                tab > 0 || max_indent == 0,
                ind@.len() == n,
                forall|q: int| 0 <= q < n ==> opt_nat(ind@[q]) == iv[q],
                max_indent * tab <= usize::MAX,
                forall|q: int| 0 <= q < guides@.len() ==> !(#[trigger] guides@[q]).active,
                guide_view(guides@) + guides_from(iv, tab as nat, (done + 1) as nat, top) == guides_from(
                    iv,
                    tab as nat,
                    1,
                    top,
                ),
            decreases max_indent - done,
        {
            let level = done + 1;
            proof {
                assert((level - 1) * tab <= max_indent * tab) by (nonlinear_arith)
                    requires level - 1 <= max_indent;
            }
            let col = (level - 1) * tab;
            let ghost g0 = guide_view(guides@);
            let ghost fl = guide_of(level as nat, tab as nat);
            let mut start: Option<usize> = None;
            let mut i: usize = 0;
            proof {
                assert(col == (level - 1) * tab) by (nonlinear_arith)
                    requires col == (level - 1) * tab;
            }
            while i < n
                invariant
                    i <= n,
                    n == iv.len(),
                    ind@.len() == n,
                    forall|q: int| 0 <= q < n ==> opt_nat(ind@[q]) == iv[q],
                    col == (level - 1) * tab,
                    fl == guide_of(level as nat, tab as nat),
                    forall|q: int| 0 <= q < guides@.len() ==> !(#[trigger] guides@[q]).active,
                    start matches Some(s) ==> s < i,
                    guide_view(guides@) + runs_from(iv, level as nat, i as int, opt_int(start)).map_values(fl)
                        == g0 + runs_from(iv, level as nat, 0, None).map_values(fl),
                decreases n - i,
            {
                let has = match ind[i] {
                    Some(v) => v >= level,
                    None => start.is_some(),
                };
                proof {
                    assert(has == covered(iv[i as int], level as nat, opt_int(start) is Some));
                }
                if has {
                    if start.is_none() {
                        start = Some(i);
                    }
                } else {
                    if let Some(s) = start {
                        let ghost before = guides@;
                        guides.push(GuideLine { col, start_line: s, end_line: i, active: false });
                        proof {
                            let rest = runs_from(iv, level as nat, i + 1, None);
                            assert(runs_from(iv, level as nat, i as int, Some(s as int)) == seq![(s as int, i as int)] + rest);
                            assert((seq![(s as int, i as int)] + rest).map_values(fl) =~= seq![fl((s as int, i as int))] + rest.map_values(fl));
                            assert(fl((s as int, i as int)) == (col as int, s as int, i as int));
                            assert(guide_view(guides@).len() == guide_view(before).len() + 1);
                            assert forall|q: int| 0 <= q < guide_view(guides@).len() implies guide_view(guides@)[q] == guide_view(before).push(fl((s as int, i as int)))[q] by {
                                if q < before.len() {
                                    assert(guides@[q] == before[q]);
                                }
                            }
                            assert(guide_view(guides@) =~= guide_view(before).push(fl((s as int, i as int))));
                            assert(guide_view(guides@) + rest.map_values(fl) =~= guide_view(before) + (seq![fl((s as int, i as int))] + rest.map_values(fl)));
                        }
                        start = None;
                    }
                }
                i = i + 1;
            }
            if let Some(s) = start {
                let ghost before = guides@;
                guides.push(GuideLine { col, start_line: s, end_line: n, active: false });
                proof {
                    assert(runs_from(iv, level as nat, n as int, Some(s as int)) == seq![(s as int, n as int)]);
                    assert(seq![(s as int, n as int)].map_values(fl) =~= seq![fl((s as int, n as int))]);
                    assert(fl((s as int, n as int)) == (col as int, s as int, n as int));
                    assert forall|q: int| 0 <= q < guide_view(guides@).len() implies guide_view(guides@)[q] == guide_view(before).push(fl((s as int, n as int)))[q] by {
                        if q < before.len() {
                            assert(guides@[q] == before[q]);
                        }
                    }
                    assert(guide_view(guides@) =~= guide_view(before).push(fl((s as int, n as int))));
                    assert(guide_view(before).push(fl((s as int, n as int))) =~= guide_view(before) + seq![fl((s as int, n as int))]);
                    assert(guide_view(guides@) =~= g0 + runs_from(iv, level as nat, 0, None).map_values(fl));
                }
            } else {
                assert(runs_from(iv, level as nat, n as int, None).map_values(fl) =~= Seq::<(int, int, int)>::empty());
                assert(guide_view(guides@) + Seq::<(int, int, int)>::empty() =~= guide_view(guides@));
                assert(guide_view(guides@) =~= g0 + runs_from(iv, level as nat, 0, None).map_values(fl));
            }
            proof {
                let rr = runs_from(iv, level as nat, 0, None).map_values(fl);
                let nxt = guides_from(iv, tab as nat, (level + 1) as nat, top);
                assert(guides_from(iv, tab as nat, level as nat, top) == rr + nxt);
                assert((g0 + rr) + nxt =~= g0 + (rr + nxt));
            }
            done = done + 1;
        }
        Self::mark_active(&mut guides, cursor_line);
        guides
    }

    /// `c as isize`: columns above `isize::MAX` wrap around to negative
    /// numbers.
    fn col_as_isize(c: usize) -> (r: isize)
        ensures
            r == col_key(c as int),
    {
        if c <= isize::MAX as usize {
            c as isize
        } else {
            ((c - isize::MAX as usize - 1) as isize) + isize::MIN
        }
    }

    /// Marks as active the first guide around `cursor` with the largest
    /// column key.
    fn mark_active(guides: &mut Vec<GuideLine>, cursor: usize)
        requires
            forall|k: int| 0 <= k < old(guides)@.len() ==> !(#[trigger] old(guides)@[k]).active,
        ensures
            guide_view(final(guides)@) == guide_view(old(guides)@),
            forall|k: int| 0 <= k < final(guides)@.len() ==> #[trigger] final(guides)@[k].active == is_active(guide_view(old(guides)@), cursor as int, k),
    {
        let ghost g = guide_view(guides@);
        let mut best: Option<usize> = None;
        let mut max_col: isize = -1;
        let mut k: usize = 0;
        while k < guides.len()
            invariant
                k <= guides@.len(),
                guides@ == old(guides)@,
                g == guide_view(guides@),
                best is None ==> max_col == -1 && forall|j: int|
                    0 <= j < k && (#[trigger] g[j]).1 <= cursor < g[j].2 ==> col_key(g[j].0) < 0,
                best matches Some(b) ==> {
                    &&& b < k
                    &&& g[b as int].1 <= cursor < g[b as int].2
                    &&& max_col == col_key(g[b as int].0)
                    &&& max_col >= 0
                    &&& forall|j: int| 0 <= j < k && g[j].1 <= cursor < g[j].2 ==> col_key(#[trigger] g[j].0) <= col_key(g[b as int].0)
                    &&& forall|j: int| 0 <= j < b && g[j].1 <= cursor < g[j].2 ==> col_key(#[trigger] g[j].0) < col_key(g[b as int].0)
                },
            decreases guides@.len() - k,
        {
            let key = Self::col_as_isize(guides[k].col);
            if cursor >= guides[k].start_line && cursor < guides[k].end_line && key > max_col {
                max_col = key;
                best = Some(k);
            }
            k = k + 1;
        }
        if let Some(b) = best {
            let gl = GuideLine {
                col: guides[b].col,
                start_line: guides[b].start_line,
                end_line: guides[b].end_line,
                active: true,
            };
            guides.set(b, gl);
            assert(guide_view(guides@) =~= guide_view(old(guides)@));
            assert forall|q: int| 0 <= q < guides@.len() implies #[trigger] guides@[q].active == is_active(g, cursor as int, q) by {
                if q == b {
                } else if 0 <= q < b {
                    if is_active(g, cursor as int, q) {
                        assert(g[b as int].0 <= g[q].0);
                    }
                } else {
                    if is_active(g, cursor as int, q) {
                        assert(g[b as int].0 < g[q].0);
                    }
                }
            }
        }
    }
}

pub open spec fn opt_nat(o: Option<usize>) -> Option<nat> {
    match o {
        Some(v) => Some(v as nat),
        None => None,
    }
}

pub open spec fn opt_int(o: Option<usize>) -> Option<int> {
    match o {
        Some(v) => Some(v as int),
        None => None,
    }
}

pub open spec fn guide_view(g: Seq<GuideLine>) -> Seq<(int, int, int)> {
    g.map_values(|x: GuideLine| (x.col as int, x.start_line as int, x.end_line as int))
}

/// A guide at `level` may span lines `s .. e` of a text whose lines have
/// levels `ind` (`None` for a blank line): it starts at a line indented at
/// least `level`, every non-blank line in it is indented at least `level`,
/// and it stops at the end of the text or at a non-blank line indented
/// less, never at a blank line.
pub open spec fn guide_span_ok(ind: Seq<Option<nat>>, level: nat, s: int, e: int) -> bool {
    &&& 0 <= s < e <= ind.len()
    &&& ind[s] matches Some(v) && v >= level
    &&& forall|m: int| s <= m < e ==> (#[trigger] ind[m] matches Some(v) ==> v >= level)
    &&& e < ind.len() ==> (ind[e] matches Some(v) && v < level)
}

proof fn lemma_runs_ok(ind: Seq<Option<nat>>, level: nat, i: int, start: Option<int>)
    requires
        0 <= i <= ind.len(),
        start matches Some(s0) ==> {
            &&& 0 <= s0 < i
            &&& ind[s0] matches Some(v) && v >= level
            &&& forall|m: int| s0 <= m < i ==> (#[trigger] ind[m] matches Some(v) ==> v >= level)
        },
    ensures
        forall|k: int|
            0 <= k < runs_from(ind, level, i, start).len() ==> guide_span_ok(
                ind,
                level,
                (#[trigger] runs_from(ind, level, i, start)[k]).0,
                runs_from(ind, level, i, start)[k].1,
            ),
    decreases ind.len() - i,
{
    if i >= ind.len() {
        match start {
            Some(s0) => {
                let rr = runs_from(ind, level, i, start);
                assert(rr == seq![(s0, ind.len() as int)]);
                assert(guide_span_ok(ind, level, s0, ind.len() as int));
                assert forall|k: int| 0 <= k < rr.len() implies guide_span_ok(
                    ind,
                    level,
                    (#[trigger] rr[k]).0,
                    rr[k].1,
                ) by {
                    assert(rr[k] == (s0, ind.len() as int));
                }
            },
            None => {
                assert(runs_from(ind, level, i, start).len() == 0);
            },
        }
    } else if covered(ind[i], level, start is Some) {
        let ns = if start is Some { start } else { Some(i) };
        match start {
            Some(s0) => {
                assert forall|m: int| s0 <= m < i + 1 implies (#[trigger] ind[m] matches Some(v) ==> v
                    >= level) by {
                    if m == i {
                    }
                }
            },
            None => {
                assert(ind[i] matches Some(v) && v >= level);
                assert forall|m: int| i <= m < i + 1 implies (#[trigger] ind[m] matches Some(v) ==> v
                    >= level) by {
                    assert(m == i);
                }
            },
        }
        lemma_runs_ok(ind, level, i + 1, ns);
        assert(runs_from(ind, level, i, start) == runs_from(ind, level, i + 1, ns));
    } else {
        lemma_runs_ok(ind, level, i + 1, None);
        match start {
            Some(s0) => {
                let rest = runs_from(ind, level, i + 1, None);
                let rr = seq![(s0, i)] + rest;
                assert(!covered(ind[i], level, true));
                assert(ind[i] matches Some(v) && v < level);
                assert(runs_from(ind, level, i, start) == rr);
                assert(guide_span_ok(ind, level, s0, i));
                assert forall|k: int| 0 <= k < rr.len() implies guide_span_ok(
                    ind,
                    level,
                    (#[trigger] rr[k]).0,
                    rr[k].1,
                ) by {
                    if k > 0 {
                        assert(rr[k] == rest[k - 1]);
                    }
                }
            },
            None => {
                assert(runs_from(ind, level, i, start) == runs_from(ind, level, i + 1, None));
            },
        }
    }
}

/// Guide `g` (column, first line, end) is drawn at the column of some
/// level `l` (`l - 1` tab stops in) and spans lines `guide_span_ok` allows
/// for `l`.
pub open spec fn guide_ok(ind: Seq<Option<nat>>, tab: nat, g: (int, int, int)) -> bool {
    exists|l: nat| l >= 1 && g.0 == (l - 1) * tab && #[trigger] guide_span_ok(ind, l, g.1, g.2)
}

proof fn lemma_guides_ok(ind: Seq<Option<nat>>, tab: nat, level: nat, top: nat)
    ensures
        forall|k: int|
            0 <= k < guides_from(ind, tab, level, top).len() ==> guide_ok(
                ind,
                tab,
                #[trigger] guides_from(ind, tab, level, top)[k],
            ),
    decreases top + 1 - level,
{
    if level == 0 || level > top {
    } else {
        lemma_guides_ok(ind, tab, level + 1, top);
        lemma_runs_ok(ind, level, 0, None);
        let runs = runs_from(ind, level, 0, None);
        let mapped = runs.map_values(guide_of(level, tab));
        let rest = guides_from(ind, tab, level + 1, top);
        let g = guides_from(ind, tab, level, top);
        assert(g == mapped + rest);
        assert forall|k: int| 0 <= k < g.len() implies guide_ok(ind, tab, #[trigger] g[k]) by {
            if k < mapped.len() {
                assert(g[k] == mapped[k]);
                assert(mapped[k] == guide_of(level, tab)(runs[k]));
                assert(guide_span_ok(ind, level, runs[k].0, runs[k].1));
                assert(g[k].0 == (level - 1) * tab);
                assert(guide_span_ok(ind, level, g[k].1, g[k].2));
            } else {
                assert(g[k] == rest[k - mapped.len()]);
            }
        }
    }
}

/// Every guide is drawn at the column of some level and spans lines
/// `guide_span_ok` allows for that level: it starts and ends where the
/// indentation says, and a blank line inside a guide never ends it.
pub proof fn law_guides_span_blank_lines(text: Seq<char>, tab: nat)
    ensures
        forall|k: int|
            0 <= k < raw_guides(text, tab).len() ==> guide_ok(
                levels(lines(text), tab),
                tab,
                #[trigger] raw_guides(text, tab)[k],
            ),
{
    let ind = levels(lines(text), tab);
    lemma_guides_ok(ind, tab, 1, max_level(ind, ind.len() as int));
}

} // verus!
