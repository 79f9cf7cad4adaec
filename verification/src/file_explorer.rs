//! The file explorer's model: the rows shown and the path behind each.
use vstd::prelude::*;
use std::path::PathBuf;
use crate::file_tree_ui::DisplayNode;

verus! {

#[verifier::external_type_specification]
#[verifier::external_body]
pub struct ExPathBuf(PathBuf);

pub struct FileExplorer {
    pub root: Option<PathBuf>,
    pub nodes: Vec<DisplayNode>,
    pub paths: Vec<PathBuf>,
    pub selected: Option<usize>,
}

impl FileExplorer {
    pub fn new() -> (r: Self)
        ensures
            r.root is None,
            r.nodes@.len() == 0,
            r.paths@.len() == 0,
            r.selected is None,
    {
        FileExplorer { root: None, nodes: Vec::new(), paths: Vec::new(), selected: None }
    }

    /// The path of row `index`, if there is one.
    pub fn get_path(&self, index: usize) -> (r: Option<&PathBuf>)
        ensures
            index < self.paths@.len() ==> r == Some(&self.paths@[index as int]),
            index >= self.paths@.len() ==> r is None,
    {
        if index < self.paths.len() {
            Some(&self.paths[index])
        } else {
            None
        }
    }

    /// Opens or closes folder row `index`; files and missing rows are left
    /// alone.
    pub fn toggle_expand(&mut self, index: usize)
        ensures
            final(self).nodes@.len() == old(self).nodes@.len(),
            forall|i: int|
                0 <= i < old(self).nodes@.len() && i != index ==> final(self).nodes@[i]
                    == old(self).nodes@[i],
            index < old(self).nodes@.len() ==> {
                let o = old(self).nodes@[index as int];
                let n = final(self).nodes@[index as int];
                &&& n.label == o.label
                &&& n.depth == o.depth
                &&& n.is_dir == o.is_dir
                &&& n.expanded == (if o.is_dir { !o.expanded } else { o.expanded })
            },
            final(self).paths@ == old(self).paths@,
            final(self).root == old(self).root,
            final(self).selected == old(self).selected,
    {
        if index < self.nodes.len() {
            if self.nodes[index].is_dir {
                let e = self.nodes[index].expanded;
                self.nodes[index].expanded = !e;
            }
        }
    }
}

} // verus!

verus! {

/// Names the explorer never shows: hidden ones and build or dependency
/// folders.
pub open spec fn skipped_name(name: Seq<char>) -> bool {
    (name.len() > 0 && name[0] == '.') || name == "target"@ || name == "node_modules"@
}

/// `a` sorts strictly before `b`, character by character (for UTF-8 text
/// this is the byte order in which file names compare).
pub open spec fn lex_lt(a: Seq<char>, b: Seq<char>) -> bool
    decreases a.len(),
{
    if a.len() == 0 {
        b.len() > 0
    } else if b.len() == 0 {
        false
    } else if a[0] != b[0] {
        (a[0] as u32) < (b[0] as u32)
    } else {
        lex_lt(a.drop_first(), b.drop_first())
    }
}

/// Entry `a` is listed strictly before entry `b`: folders first, then by
/// name.
pub open spec fn entry_lt(a: (Seq<char>, bool), b: (Seq<char>, bool)) -> bool {
    (a.1 && !b.1) || (a.1 == b.1 && lex_lt(a.0, b.0))
}

pub open spec fn entries_view(v: Seq<(String, bool)>) -> Seq<(Seq<char>, bool)> {
    v.map_values(|e: (String, bool)| (e.0@, e.1))
}

proof fn lemma_lex_irreflexive(a: Seq<char>)
    ensures
        !lex_lt(a, a),
    decreases a.len(),
{
    if a.len() > 0 {
        lemma_lex_irreflexive(a.drop_first());
    }
}

proof fn lemma_lex_transitive(a: Seq<char>, b: Seq<char>, c: Seq<char>)
    requires
        lex_lt(a, b),
        lex_lt(b, c),
    ensures
        lex_lt(a, c),
    decreases a.len(),
{
    if a.len() > 0 && b.len() > 0 && c.len() > 0 && a[0] == b[0] && b[0] == c[0] {
        lemma_lex_transitive(a.drop_first(), b.drop_first(), c.drop_first());
    }
}

proof fn lemma_lex_total(a: Seq<char>, b: Seq<char>)
    ensures
        a == b || lex_lt(a, b) || lex_lt(b, a),
    decreases a.len(),
{
    if a.len() > 0 && b.len() > 0 && a[0] == b[0] {
        lemma_lex_total(a.drop_first(), b.drop_first());
        if a.drop_first() == b.drop_first() {
            assert(a =~= seq![a[0]] + a.drop_first());
            assert(b =~= seq![b[0]] + b.drop_first());
        }
    } else if a.len() == 0 && b.len() == 0 {
        assert(a =~= b);
    } else if a.len() > 0 && b.len() > 0 {
        if (a[0] as u32) == (b[0] as u32) {
            vstd::utf8::char_u32_cast(a[0], a[0] as u32);
            vstd::utf8::char_u32_cast(b[0], b[0] as u32);
        }
    }
}

proof fn lemma_entry_order(a: (Seq<char>, bool), b: (Seq<char>, bool), c: (Seq<char>, bool))
    ensures
        !entry_lt(a, a),
        entry_lt(a, b) && entry_lt(b, c) ==> entry_lt(a, c),
        a == b || entry_lt(a, b) || entry_lt(b, a),
        entry_lt(a, b) ==> !entry_lt(b, a),
{
    lemma_lex_irreflexive(a.0);
    lemma_lex_total(a.0, b.0);
    if lex_lt(a.0, b.0) && lex_lt(b.0, c.0) {
        lemma_lex_transitive(a.0, b.0, c.0);
    }
    if lex_lt(a.0, b.0) && lex_lt(b.0, a.0) {
        lemma_lex_transitive(a.0, b.0, a.0);
    }
}

/// Whether `a` sorts strictly before `b`.
fn lex_less(a: &Vec<char>, b: &Vec<char>) -> (r: bool)
    ensures
        r == lex_lt(a@, b@),
{
    let mut i: usize = 0;
    assert(a@.skip(0) =~= a@ && b@.skip(0) =~= b@);
    while i < a.len() && i < b.len() && a[i] == b[i]
        invariant
            i <= a@.len(),
            i <= b@.len(),
            lex_lt(a@, b@) == lex_lt(a@.skip(i as int), b@.skip(i as int)),
        decreases a@.len() - i,
    {
        assert(a@.skip(i as int).drop_first() =~= a@.skip(i + 1));
        assert(b@.skip(i as int).drop_first() =~= b@.skip(i + 1));
        i = i + 1;
    }
    if i == a.len() {
        i < b.len()
    } else if i == b.len() {
        false
    } else {
        (a[i] as u32) < (b[i] as u32)
    }
}

/// `order` lists distinct indices of `es`, sorted (folders first, then by
/// name, equal entries in their original order).
pub open spec fn ordered(order: Seq<usize>, es: Seq<(Seq<char>, bool)>) -> bool {
    &&& forall|i: int| 0 <= i < order.len() ==> (#[trigger] order[i] as int) < es.len()
    &&& forall|i: int, j: int| 0 <= i < j < order.len() ==> #[trigger] order[i] != #[trigger] order[j]
    &&& forall|i: int, j: int|
        0 <= i < j < order.len() ==> !entry_lt(es[#[trigger] order[j] as int], es[#[trigger] order[i] as int])
}

proof fn lemma_insert_ordered(order: Seq<usize>, es: Seq<(Seq<char>, bool)>, k: usize, p: int)
    requires
        ordered(order, es),
        (k as int) < es.len(),
        forall|i: int| 0 <= i < order.len() ==> order[i] != k,
        0 <= p <= order.len(),
        forall|q: int| 0 <= q < p ==> !entry_lt(es[k as int], es[#[trigger] order[q] as int]),
        p < order.len() ==> entry_lt(es[k as int], es[order[p] as int]),
    ensures
        ordered(order.insert(p, k), es),
{
    let no = order.insert(p, k);
    assert forall|i: int, j: int| 0 <= i < j < no.len() implies !entry_lt(es[#[trigger] no[j] as int], es[#[trigger] no[i] as int]) by {
        let a = es[no[i] as int];
        let b = es[no[j] as int];
        lemma_entry_order(a, b, a);
        if j == p {
            assert(no[i] == order[i]);
        } else if i == p {
            assert(no[j] == order[j - 1]);
            let e = es[k as int];
            let first = es[order[p] as int];
            lemma_entry_order(e, first, b);
            lemma_entry_order(b, e, first);
            lemma_entry_order(e, first, first);
            if j - 1 > p {
                assert(!entry_lt(b, first));
                lemma_entry_order(first, b, e);
            }
        } else {
            let ii = if i < p { i } else { i - 1 };
            let jj = if j < p { j } else { j - 1 };
            assert(no[i] == order[ii] && no[j] == order[jj]);
        }
    }
    assert forall|i: int, j: int| 0 <= i < j < no.len() implies #[trigger] no[i] != #[trigger] no[j] by {
        if i != p && j != p {
            let ii = if i < p { i } else { i - 1 };
            let jj = if j < p { j } else { j - 1 };
            assert(no[i] == order[ii] && no[j] == order[jj]);
        } else if i == p {
            assert(no[j] == order[j - 1]);
        } else {
            assert(no[i] == order[i]);
        }
    }
}

impl FileExplorer {
    /// The order in which the entries of a folder, given by name and
    /// whether each is a folder, are listed: the indices of those that are
    /// not skipped, folders first, then by name.
    pub fn display_order(entries: &Vec<(String, bool)>) -> (r: Vec<usize>)
        ensures
            ordered(r@, entries_view(entries@)),
            forall|i: int|
                0 <= i < r@.len() ==> !skipped_name(entries@[#[trigger] r@[i] as int].0@),
            forall|k: int|
                0 <= k < entries@.len() && !skipped_name(#[trigger] entries@[k].0@) ==> exists|i: int|
                    0 <= i < r@.len() && r@[i] == k,
    {
        let ghost es = entries_view(entries@);
        let mut names: Vec<Vec<char>> = Vec::new();
        let mut n: usize = 0;
        while n < entries.len()
            invariant
                n <= entries@.len(),
                names@.len() == n,
                forall|q: int| 0 <= q < n ==> #[trigger] names@[q]@ == entries@[q].0@,
            decreases entries@.len() - n,
        {
            names.push(crate::text::chars_of(entries[n].0.as_str()));
            n = n + 1;
        }
        let mut order: Vec<usize> = Vec::new();
        let mut k: usize = 0;
        proof {
            reveal_strlit("target");
            reveal_strlit("node_modules");
        }
        while k < entries.len()
            invariant
                k <= entries@.len(),
                names@.len() == entries@.len(),
                forall|q: int| 0 <= q < entries@.len() ==> #[trigger] names@[q]@ == entries@[q].0@,
                es == entries_view(entries@),
                ordered(order@, es),
                forall|i: int| 0 <= i < order@.len() ==> (#[trigger] order@[i] as int) < k,
                forall|i: int| 0 <= i < order@.len() ==> !skipped_name(entries@[#[trigger] order@[i] as int].0@),
                forall|q: int|
                    0 <= q < k && !skipped_name(#[trigger] entries@[q].0@) ==> exists|i: int|
                        0 <= i < order@.len() && order@[i] == q,
            decreases entries@.len() - k,
        {
            let name = entries[k].0.as_str();
            let skip = (names[k].len() > 0 && names[k][0] == '.') || crate::text::text_eq(name, "target")
                || crate::text::text_eq(name, "node_modules");
            if !skip {
                let mut p: usize = 0;
                while p < order.len() && !(
                    (entries[k].1 && !entries[order[p]].1) || (entries[k].1 == entries[order[p]].1
                        && lex_less(&names[k], &names[order[p]])))
                    invariant
                        p <= order@.len(),
                        k < entries@.len(),
                        names@.len() == entries@.len(),
                        forall|q: int| 0 <= q < entries@.len() ==> #[trigger] names@[q]@ == entries@[q].0@,
                        es == entries_view(entries@),
                        forall|i: int| 0 <= i < order@.len() ==> (#[trigger] order@[i] as int) < k,
                        forall|q: int| 0 <= q < p ==> !entry_lt(es[k as int], es[#[trigger] order@[q] as int]),
                    decreases order@.len() - p,
                {
                    p = p + 1;
                }
                let ghost before = order@;
                proof {
                    if p < order@.len() {
                        assert(entry_lt(es[k as int], es[order@[p as int] as int]));
                    }
                    assert forall|i: int| 0 <= i < before.len() implies before[i] != k by {
                        assert((before[i] as int) < k);
                    }
                    lemma_insert_ordered(before, es, k, p as int);
                }
                order.insert(p, k);
                proof {
                    assert(order@ =~= before.insert(p as int, k));
                    assert forall|q: int|
                        0 <= q < k + 1 && !skipped_name(#[trigger] entries@[q].0@) implies exists|i: int|
                            0 <= i < order@.len() && order@[i] == q by {
                        if q == k {
                            assert(order@[p as int] == k);
                        } else {
                            let i = choose|i: int| 0 <= i < before.len() && before[i] == q;
                            if i < p {
                                assert(order@[i] == q);
                            } else {
                                assert(order@[i + 1] == q);
                            }
                        }
                    }
                    assert forall|i: int| 0 <= i < order@.len() implies !skipped_name(entries@[#[trigger] order@[i] as int].0@) by {
                        if i < p {
                            assert(order@[i] == before[i]);
                        } else if i > p {
                            assert(order@[i] == before[i - 1]);
                        }
                    }
                }
            }
            k = k + 1;
        }
        order
    }

    /// Adds an entry found at `depth` (0 for the root folder's own
    /// entries): its row, shown expanded for a top-level folder, and its
    /// path.  Returns whether its own entries are listed too, which is the
    /// case for top-level folders.
    pub fn add_entry(&mut self, name: String, is_dir: bool, depth: usize, path: PathBuf) -> (r: bool)
        ensures
            r == (is_dir && depth == 0),
            final(self).nodes@.len() == old(self).nodes@.len() + 1,
            forall|i: int| 0 <= i < old(self).nodes@.len() ==> final(self).nodes@[i] == old(self).nodes@[i],
            final(self).nodes@.last().label@ == name@,
            final(self).nodes@.last().depth == depth,
            final(self).nodes@.last().is_dir == is_dir,
            final(self).nodes@.last().expanded == (depth == 0 && is_dir),
            final(self).paths@ == old(self).paths@.push(path),
            final(self).root == old(self).root,
            final(self).selected == old(self).selected,
    {
        self.nodes.push(DisplayNode { label: name, depth, is_dir, expanded: depth == 0 && is_dir });
        self.paths.push(path);
        is_dir && depth == 0
    }

    /// Entries below this depth are not listed.
    pub fn lists_depth(depth: usize) -> (r: bool)
        ensures
            r == (depth <= 3),
    {
        depth <= 3
    }
}

} // verus!
