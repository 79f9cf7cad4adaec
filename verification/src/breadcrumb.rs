//! The breadcrumb bar: the folders and file of the open path, then the
//! symbol under the cursor.
use vstd::prelude::*;

verus! {

/// A single breadcrumb segment.
#[derive(Clone, Debug)]
pub struct BreadcrumbSegment {
    pub text: String,
    pub kind: SegmentKind,
}

#[derive(Clone, Copy, Debug, PartialEq, Eq, Structural)]
pub enum SegmentKind {
    Folder,
    File,
    Symbol,
}

/// The breadcrumb bar's state.
pub struct BreadcrumbBar {
    pub segments: Vec<BreadcrumbSegment>,
}

pub open spec fn is_sep(c: char) -> bool {
    c == '/' || c == '\\'
}

/// `split(['/', '\\'])`: the pieces between separators, empty ones
/// included, so `n` separators give `n + 1` pieces.
pub open spec fn split_parts(s: Seq<char>) -> Seq<Seq<char>>
    decreases s.len(),
{
    if s.len() == 0 {
        seq![Seq::<char>::empty()]
    } else {
        let rest = split_parts(s.drop_last());
        if is_sep(s.last()) {
            rest.push(Seq::<char>::empty())
        } else {
            rest.update(rest.len() - 1, rest.last().push(s.last()))
        }
    }
}

/// Segments for the first `n` pieces: every non-empty piece, a `File` when
/// it is piece `last`, else a `Folder`.
pub open spec fn crumbs(parts: Seq<Seq<char>>, n: int, last: int) -> Seq<(Seq<char>, SegmentKind)>
    decreases n,
{
    if n <= 0 {
        Seq::empty()
    } else {
        let p = parts[n - 1];
        let rest = crumbs(parts, n - 1, last);
        if p.len() == 0 {
            rest
        } else {
            rest.push((p, if n - 1 == last { SegmentKind::File } else { SegmentKind::Folder }))
        }
    }
}

/// The segments a path gives.
pub open spec fn path_crumbs(path: Seq<char>) -> Seq<(Seq<char>, SegmentKind)> {
    let parts = split_parts(path);
    crumbs(parts, parts.len() as int, parts.len() - 1)
}

/// The segments that are not symbols, in order.
pub open spec fn without_symbols(s: Seq<(Seq<char>, SegmentKind)>) -> Seq<(Seq<char>, SegmentKind)>
    decreases s.len(),
{
    if s.len() == 0 {
        s
    } else {
        let rest = without_symbols(s.drop_last());
        if s.last().1 == SegmentKind::Symbol {
            rest
        } else {
            rest.push(s.last())
        }
    }
}

/// The symbol segment that `set_symbol` appends, if any.
pub open spec fn symbol_tail(symbol: Option<String>) -> Seq<(Seq<char>, SegmentKind)> {
    match symbol {
        Some(t) => seq![(t@, SegmentKind::Symbol)],
        None => Seq::empty(),
    }
}

pub open spec fn segment_view(s: BreadcrumbSegment) -> (Seq<char>, SegmentKind) {
    (s.text@, s.kind)
}

pub open spec fn segments_view(v: Seq<BreadcrumbSegment>) -> Seq<(Seq<char>, SegmentKind)> {
    v.map_values(|s: BreadcrumbSegment| segment_view(s))
}

proof fn lemma_split_parts_len(s: Seq<char>)
    ensures
        split_parts(s).len() >= 1,
    decreases s.len(),
{
    if s.len() > 0 {
        lemma_split_parts_len(s.drop_last());
    }
}

/// Pieces added after the first `n` do not change their segments.
proof fn lemma_crumbs_prefix(a: Seq<Seq<char>>, b: Seq<Seq<char>>, n: int, last: int)
    requires
        0 <= n <= a.len(),
        n <= b.len(),
        forall|i: int| 0 <= i < n ==> a[i] == b[i],
    ensures
        crumbs(a, n, last) == crumbs(b, n, last),
    decreases n,
{
    if n > 0 {
        lemma_crumbs_prefix(a, b, n - 1, last);
    }
}

impl BreadcrumbBar {
    pub open spec fn view(&self) -> Seq<(Seq<char>, SegmentKind)> {
        segments_view(self.segments@)
    }

    pub fn new() -> (r: Self)
        ensures
            r.view().len() == 0,
    {
        BreadcrumbBar { segments: Vec::new() }
    }

    /// Replaces the segments with those of `file_path`: each non-empty
    /// component between `/` or `\` separators, the last component a `File`
    /// and the others `Folder`s.
    pub fn update_from_path(&mut self, file_path: &str)
        ensures
            final(self).view() == path_crumbs(file_path@),
    {
        let s = crate::text::chars_of(file_path);
        let n = s.len();
        let mut total: usize = 0;
        let mut j: usize = 0;
        while j < n
            invariant
                j <= n,
                n == s@.len(),
                split_parts(s@.take(j as int)).len() == total + 1,
                total <= j,
            decreases n - j,
        {
            assert(s@.take(j + 1).drop_last() == s@.take(j as int));
            if s[j] == '/' || s[j] == '\\' {
                total = total + 1;
            } else {
                proof {
                    lemma_split_parts_len(s@.take(j as int));
                }
            }
            j = j + 1;
        }
        assert(s@.take(n as int) == s@);
        let ghost parts = split_parts(s@);
        let ghost last = parts.len() - 1;
        let mut segs: Vec<BreadcrumbSegment> = Vec::new();
        let mut current: Vec<char> = Vec::new();
        let mut index: usize = 0;
        let mut k: usize = 0;
        while k < n
            invariant
                k <= n,
                n == s@.len(),
                parts == split_parts(s@),
                last == parts.len() - 1,
                last == total,
                split_parts(s@.take(k as int)).len() == index + 1,
                index <= k,
                current@ == split_parts(s@.take(k as int)).last(),
                segments_view(segs@) == crumbs(split_parts(s@.take(k as int)), index as int, last),
            decreases n - k,
        {
            let ghost before = split_parts(s@.take(k as int));
            assert(s@.take(k + 1).drop_last() == s@.take(k as int));
            proof {
                lemma_split_parts_len(s@.take(k as int));
            }
            let c = s[k];
            if c == '/' || c == '\\' {
                let ghost after = split_parts(s@.take(k + 1));
                assert(after == before.push(Seq::<char>::empty()));
                proof {
                    lemma_crumbs_prefix(before, after, index as int, last);
                }
                if current.len() > 0 {
                    let kind = if index == total { SegmentKind::File } else { SegmentKind::Folder };
                    let text = crate::text::string_of(&current);
                    segs.push(BreadcrumbSegment { text, kind });
                }
                assert(segments_view(segs@) =~= crumbs(after, index + 1, last));
                current = Vec::new();
                index = index + 1;
            } else {
                let ghost after = split_parts(s@.take(k + 1));
                assert(after == before.update(before.len() - 1, before.last().push(c)));
                proof {
                    lemma_crumbs_prefix(before, after, index as int, last);
                }
                current.push(c);
            }
            k = k + 1;
        }
        assert(s@.take(n as int) == s@);
        if current.len() > 0 {
            let kind = if index == total { SegmentKind::File } else { SegmentKind::Folder };
            let text = crate::text::string_of(&current);
            segs.push(BreadcrumbSegment { text, kind });
        }
        assert(segments_view(segs@) =~= crumbs(parts, index + 1, last));
        self.segments = segs;
    }

    /// Replaces any symbol segments by `symbol`, appended at the end.
    pub fn set_symbol(&mut self, symbol: Option<String>)
        ensures
            final(self).view() == without_symbols(old(self).view()) + symbol_tail(symbol),
    {
        let mut kept: Vec<BreadcrumbSegment> = Vec::new();
        let mut i: usize = 0;
        while i < self.segments.len()
            invariant
                i <= self.segments@.len(),
                self.segments@ == old(self).segments@,
                segments_view(kept@) == without_symbols(segments_view(self.segments@).take(i as int)),
            decreases self.segments@.len() - i,
        {
            let ghost sv = segments_view(self.segments@);
            assert(sv.take(i + 1).drop_last() == sv.take(i as int));
            let seg = &self.segments[i];
            if seg.kind != SegmentKind::Symbol {
                let text = seg.text.clone();
                kept.push(BreadcrumbSegment { text, kind: seg.kind });
                assert(segments_view(kept@) =~= without_symbols(sv.take(i as int)).push(sv[i as int]));
            }
            i = i + 1;
        }
        assert(segments_view(self.segments@).take(self.segments@.len() as int) == segments_view(
            self.segments@,
        ));
        let ghost tail = symbol_tail(symbol);
        match symbol {
            Some(t) => {
                kept.push(BreadcrumbSegment { text: t, kind: SegmentKind::Symbol });
            },
            None => {},
        }
        proof {
            assert(segments_view(kept@) =~= without_symbols(segments_view(old(self).segments@))
                + tail);
        }
        self.segments = kept;
    }
}

/// Setting a symbol twice keeps only the second one: the bar after two
/// calls equals the bar after the last call alone.
pub proof fn law_set_symbol_replaces(segs: Seq<(Seq<char>, SegmentKind)>, first: Seq<char>, second: Seq<char>)
    ensures
        without_symbols(without_symbols(segs) + seq![(first, SegmentKind::Symbol)]) + seq![(
            second,
            SegmentKind::Symbol,
        )] == without_symbols(segs) + seq![(second, SegmentKind::Symbol)],
{
    let a = without_symbols(segs);
    let b = a + seq![(first, SegmentKind::Symbol)];
    assert(b.drop_last() =~= a);
    lemma_without_symbols_idempotent(segs);
}

/// Removing symbols twice removes nothing more.
proof fn lemma_without_symbols_idempotent(s: Seq<(Seq<char>, SegmentKind)>)
    ensures
        without_symbols(without_symbols(s)) == without_symbols(s),
    decreases s.len(),
{
    if s.len() > 0 {
        lemma_without_symbols_idempotent(s.drop_last());
        let r = without_symbols(s.drop_last());
        if s.last().1 != SegmentKind::Symbol {
            assert(r.push(s.last()).drop_last() =~= r);
        }
    }
}

/// A path's segments hold no symbol, and only the last one can be a file.
pub proof fn law_path_crumbs_kinds(path: Seq<char>)
    ensures
        forall|i: int|
            0 <= i < path_crumbs(path).len() ==> path_crumbs(path)[i].1 != SegmentKind::Symbol
                && path_crumbs(path)[i].0.len() > 0,
{
    let parts = split_parts(path);
    lemma_crumbs_kinds(parts, parts.len() as int, parts.len() - 1);
}

proof fn lemma_crumbs_kinds(parts: Seq<Seq<char>>, n: int, last: int)
    ensures
        forall|i: int|
            0 <= i < crumbs(parts, n, last).len() ==> crumbs(parts, n, last)[i].1
                != SegmentKind::Symbol && crumbs(parts, n, last)[i].0.len() > 0,
    decreases n,
{
    if n > 0 {
        lemma_crumbs_kinds(parts, n - 1, last);
    }
}

} // verus!
