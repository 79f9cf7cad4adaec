//! Ghost tabs: the files likely to be opened next, learned from the order
//! in which files were opened.
use vstd::prelude::*;
use crate::markov::{MarkovChain, NextView, count_in, next_view, next_wf, sum_counts};

verus! {

/// At most this many files are suggested.
pub const MAX_GHOST_TABS: usize = 3;

pub struct GhostTabsEngine {
    chain: MarkovChain,
    current_file: Option<String>,
}

/// A next file is suggested when more than 30% of the transitions out of
/// the current file went to it.
pub open spec fn likely(count: nat, total: nat) -> bool {
    10 * count > 3 * total
}

/// `after` is `before` once file `x` was opened: `x` is the current file;
/// the move from the previous file to `x` is counted when there was a
/// previous file other than `x`, and nothing else changes.
pub open spec fn opened(before: GhostTabsEngine, after: GhostTabsEngine, x: Seq<char>) -> bool {
    &&& after.current() == Some(x)
    &&& before.current() is None ==> after.chain() == before.chain()
    &&& before.current() matches Some(p) ==> {
        &&& p == x ==> after.chain().view() == before.chain().view()
        &&& p != x ==> forall|f: Seq<char>, t: Seq<char>|
            #[trigger] after.chain().count(f, t) == before.chain().count(f, t) + (if f == p && t == x {
                1int
            } else {
                0int
            })
        &&& p != x ==> forall|f: Seq<char>|
            #[trigger] after.chain().total(f) == before.chain().total(f) + (if f == p {
                1int
            } else {
                0int
            })
    }
}

/// Opening the same file twice in a row leaves the engine as opening it
/// once: the second opening counts nothing.
pub proof fn law_open_twice(e0: GhostTabsEngine, e1: GhostTabsEngine, e2: GhostTabsEngine, x: Seq<char>)
    requires
        opened(e0, e1, x),
        opened(e1, e2, x),
    ensures
        e2.current() == e1.current(),
        e2.chain().view() == e1.chain().view(),
        forall|f: Seq<char>, t: Seq<char>| #[trigger] e2.chain().count(f, t) == e1.chain().count(f, t),
        forall|f: Seq<char>| #[trigger] e2.chain().total(f) == e1.chain().total(f),
{
}

impl GhostTabsEngine {
    /// The transitions seen so far.
    pub closed spec fn chain(&self) -> MarkovChain {
        self.chain
    }

    /// The file opened last.
    pub closed spec fn current(&self) -> Option<Seq<char>> {
        match self.current_file {
            Some(f) => Some(f@),
            None => None,
        }
    }

    /// An engine that has seen nothing.
    pub fn new() -> (r: Self)
        ensures
            r.current() is None,
            r.chain().view().len() == 0,
    {
        GhostTabsEngine { chain: MarkovChain::new(), current_file: None }
    }

    /// An engine resumed from saved parts.
    pub fn from_parts(chain: MarkovChain, current_file: Option<String>) -> (r: Self)
        ensures
            r.chain() == chain,
            r.current() == (match current_file {
                Some(f) => Some(f@),
                None => None,
            }),
    {
        GhostTabsEngine { chain, current_file }
    }

    /// The transitions seen so far.
    pub fn transitions(&self) -> (r: &MarkovChain)
        ensures
            *r == self.chain(),
    {
        &self.chain
    }

    /// The file opened last.
    pub fn current_file(&self) -> (r: Option<&String>)
        ensures
            match r {
                Some(f) => self.current() == Some(f@),
                None => self.current() is None,
            },
    {
        match &self.current_file {
            Some(f) => Some(f),
            None => None,
        }
    }

    /// Records that `file_path` was opened: the move from the previous file
    /// (if any) to it is counted, and it becomes the current file.
    pub fn on_file_open(&mut self, file_path: &str)
        requires
            old(self).current() matches Some(p) ==> (p != file_path@ ==> old(self).chain().total(p)
                < u32::MAX),
        ensures
            opened(*old(self), *final(self), file_path@),
    {
        match &self.current_file {
            Some(prev) => {
                self.chain.record_transition(prev.as_str(), file_path);
            },
            None => {},
        }
        self.current_file = Some(file_path.to_owned());
    }

    /// The files likely to be opened after the current one: every next file
    /// that took more than 30% of the transitions out of it (at most three
    /// can), each once, the most frequent first.
    pub fn get_suggestions(&self) -> (r: Vec<String>)
        ensures
            self.current() is None ==> r@.len() == 0,
            self.current() matches Some(c) ==> {
                let total = self.chain().total(c);
                &&& forall|i: int|
                    0 <= i < r@.len() ==> likely(self.chain().count(c, #[trigger] r@[i]@), total)
                &&& forall|x: Seq<char>|
                    likely(#[trigger] self.chain().count(c, x), total) ==> exists|i: int|
                        0 <= i < r@.len() && r@[i]@ == x
                &&& forall|i: int, j: int| 0 <= i < j < r@.len() ==> r@[i]@ != r@[j]@
                &&& forall|i: int, j: int|
                    0 <= i < j < r@.len() ==> self.chain().count(c, r@[i]@) >= self.chain().count(
                        c,
                        r@[j]@,
                    )
                &&& r@.len() <= MAX_GHOST_TABS
            },
    {
        let current = match &self.current_file {
            Some(c) => c,
            None => {
                return Vec::new();
            },
        };
        let (total, succ) = self.chain.successors(current.as_str());
        let ghost n = next_view(succ@);
        let ghost t = total as nat;
        let picked = pick_likely(&succ, total);
        let mut out: Vec<String> = Vec::new();
        let mut i: usize = 0;
        while i < picked.len()
            invariant
                i <= picked@.len(),
                out@.len() == i,
                forall|q: int| 0 <= q < i ==> out@[q]@ == picked@[q].0@,
            decreases picked@.len() - i,
        {
            out.push(picked[i].0.clone());
            i = i + 1;
        }
        proof {
            let pv = next_view(picked@);
            let c = current@;
            let ch = self.chain();
            lemma_suggestions(n, t, pv);
            assert(t == ch.total(c));
            assert forall|q: int| 0 <= q < out@.len() implies out@[q]@ == pv[q].0 && ch.count(c, #[trigger] out@[q]@)
                == pv[q].1 by {
                assert(count_in(n, pv[q].0) == pv[q].1);
            }
            assert forall|i: int| 0 <= i < out@.len() implies likely(ch.count(c, #[trigger] out@[i]@), t) by {
                assert(out@[i]@ == pv[i].0 && ch.count(c, out@[i]@) == pv[i].1);
            }
            assert forall|x: Seq<char>| likely(#[trigger] ch.count(c, x), t) implies exists|q: int|
                0 <= q < out@.len() && out@[q]@ == x by {
                assert(count_in(n, x) == ch.count(c, x));
                let q = choose|q: int| 0 <= q < pv.len() && pv[q].0 == x;
                assert(out@[q]@ == x);
            }
            assert forall|i: int, j: int| 0 <= i < j < out@.len() implies out@[i]@ != out@[j]@ && ch.count(c, out@[i]@)
                >= ch.count(c, out@[j]@) by {
                assert(out@[i]@ == pv[i].0 && ch.count(c, out@[i]@) == pv[i].1);
                assert(out@[j]@ == pv[j].0 && ch.count(c, out@[j]@) == pv[j].1);
            }
        }
        out
    }
}

/// The likely entries of `succ`, most frequent first (ties in their order
/// in `succ`).
fn pick_likely(succ: &Vec<(String, u32)>, total: u32) -> (picked: Vec<(String, u32)>)
    requires
        next_wf(next_view(succ@)),
        total == sum_counts(next_view(succ@)),
    ensures
        picked_ok(next_view(picked@), next_view(succ@), total as nat, succ@.len() as int),
        picked@.len() <= 3,
{
    let ghost n = next_view(succ@);
    let ghost t = total as nat;
    let mut picked: Vec<(String, u32)> = Vec::new();
    let mut k: usize = 0;
    proof {
        reveal(drawn_from);
        reveal(covers);
    }
    while k < succ.len()
        invariant
            k <= succ@.len(),
            n == next_view(succ@),
            next_wf(n),
            t == total,
            t == sum_counts(n),
            picked_ok(next_view(picked@), n, t, k as int),
        decreases succ@.len() - k,
    {
        let cnt = succ[k].1;
        assert(n[k as int].1 == cnt as nat);
        if 10 * (cnt as u64) > 3 * (total as u64) {
            let mut p: usize = 0;
            while p < picked.len() && picked[p].1 >= cnt
                invariant
                    p <= picked@.len(),
                    forall|q: int| 0 <= q < p ==> picked@[q].1 >= cnt,
                decreases picked@.len() - p,
            {
                p = p + 1;
            }
            let ghost before = next_view(picked@);
            picked.insert(p, (succ[k].0.clone(), cnt));
            proof {
                assert(next_view(picked@) =~= before.insert(p as int, n[k as int]));
                lemma_insert_ok(before, n, t, k as int, p as int);
            }
        } else {
            proof {
                lemma_skip_ok(next_view(picked@), n, t, k as int);
            }
        }
        k = k + 1;
    }
    proof {
        lemma_likely_at_most_three(n, t, next_view(picked@));
    }
    picked
}

/// What the picked entries say about the counts of their names.
proof fn lemma_suggestions(n: NextView, t: nat, pv: NextView)
    requires
        next_wf(n),
        picked_ok(pv, n, t, n.len() as int),
    ensures
        forall|q: int| 0 <= q < pv.len() ==> count_in(n, #[trigger] pv[q].0) == pv[q].1,
        forall|x: Seq<char>|
            likely(#[trigger] count_in(n, x), t) ==> exists|q: int| 0 <= q < pv.len() && pv[q].0 == x,
{
    reveal(drawn_from);
    reveal(covers);
    assert forall|q: int| 0 <= q < pv.len() implies count_in(n, #[trigger] pv[q].0) == pv[q].1 by {
        let kk = choose|kk: int| 0 <= kk < n.len() && n[kk] == pv[q];
        crate::markov::lemma_count_at_pub(n, pv[q].0, kk);
    }
    assert forall|x: Seq<char>| likely(#[trigger] count_in(n, x), t) implies exists|q: int|
        0 <= q < pv.len() && pv[q].0 == x by {
        let kk = crate::markov::lemma_count_positive(n, x);
        assert(likely(n[kk].1, t));
        let q = choose|q: int| 0 <= q < pv.len() && pv[q] == n[kk];
        assert(pv[q].0 == x);
    }
}

pub open spec fn sorted_desc(picked: NextView) -> bool {
    forall|i: int, j: int| 0 <= i < j < picked.len() ==> picked[i].1 >= picked[j].1
}

pub open spec fn distinct_names(picked: NextView) -> bool {
    forall|i: int, j: int| 0 <= i < j < picked.len() ==> picked[i].0 != picked[j].0
}

pub open spec fn all_likely(picked: NextView, t: nat) -> bool {
    forall|i: int| 0 <= i < picked.len() ==> likely(#[trigger] picked[i].1, t)
}

#[verifier::opaque]
pub open spec fn drawn_from(picked: NextView, n: NextView, k: int) -> bool {
    forall|i: int| 0 <= i < picked.len() ==> exists|q: int| 0 <= q < k && n[q] == #[trigger] picked[i]
}

#[verifier::opaque]
pub open spec fn covers(picked: NextView, n: NextView, t: nat, k: int) -> bool {
    forall|q: int|
        0 <= q < k && likely(#[trigger] n[q].1, t) ==> exists|i: int| 0 <= i < picked.len() && picked[i] == n[q]
}

/// `picked` holds, most frequent first and each once, exactly the likely
/// entries among the first `k` of `n`.
pub open spec fn picked_ok(picked: NextView, n: NextView, t: nat, k: int) -> bool {
    &&& sorted_desc(picked)
    &&& distinct_names(picked)
    &&& all_likely(picked, t)
    &&& drawn_from(picked, n, k)
    &&& covers(picked, n, t, k)
}

proof fn lemma_skip_ok(picked: NextView, n: NextView, t: nat, k: int)
    requires
        0 <= k < n.len(),
        picked_ok(picked, n, t, k),
        !likely(n[k].1, t),
    ensures
        picked_ok(picked, n, t, k + 1),
{
    reveal(drawn_from);
    reveal(covers);
    assert forall|i: int| 0 <= i < picked.len() implies exists|q: int|
        0 <= q < k + 1 && n[q] == #[trigger] picked[i] by {
        let q = choose|q: int| 0 <= q < k && n[q] == picked[i];
    }
}

proof fn lemma_insert_sorted(picked: NextView, e: (Seq<char>, nat), p: int)
    requires
        forall|i: int, j: int| 0 <= i < j < picked.len() ==> picked[i].1 >= picked[j].1,
        0 <= p <= picked.len(),
        forall|q: int| 0 <= q < p ==> picked[q].1 >= e.1,
        p < picked.len() ==> picked[p].1 < e.1,
    ensures
        forall|i: int, j: int|
            0 <= i < j < picked.insert(p, e).len() ==> picked.insert(p, e)[i].1 >= picked.insert(p, e)[j].1,
{
    let np = picked.insert(p, e);
    assert forall|i: int, j: int| 0 <= i < j < np.len() implies np[i].1 >= np[j].1 by {
        if i == p && j > p {
            assert(np[j] == picked[j - 1]);
            if j - 1 > p {
                assert(picked[p].1 >= picked[j - 1].1);
            }
        } else if i < p && j > p {
            assert(np[j] == picked[j - 1]);
        } else if i > p {
            assert(np[i] == picked[i - 1] && np[j] == picked[j - 1]);
        }
    }
}

proof fn lemma_insert_distinct(picked: NextView, n: NextView, t: nat, k: int, p: int)
    requires
        0 <= k < n.len(),
        next_wf(n),
        picked_ok(picked, n, t, k),
        0 <= p <= picked.len(),
    ensures
        forall|i: int, j: int|
            0 <= i < j < picked.insert(p, n[k]).len() ==> picked.insert(p, n[k])[i].0 != picked.insert(
                p,
                n[k],
            )[j].0,
{
    reveal(drawn_from);
    let np = picked.insert(p, n[k]);
    assert forall|i: int, j: int| 0 <= i < j < np.len() implies np[i].0 != np[j].0 by {
        if i == p || j == p {
            let other = if i == p { j } else { i };
            let src = if other < p { other } else { other - 1 };
            assert(np[other] == picked[src]);
            let q = choose|q: int| 0 <= q < k && n[q] == #[trigger] picked[src];
            assert(n[q].0 != n[k].0);
        } else {
            let si = if i < p { i } else { i - 1 };
            let sj = if j < p { j } else { j - 1 };
            assert(np[i] == picked[si] && np[j] == picked[sj]);
        }
    }
}

proof fn lemma_insert_likely(picked: NextView, e: (Seq<char>, nat), t: nat, p: int)
    requires
        forall|i: int| 0 <= i < picked.len() ==> likely(#[trigger] picked[i].1, t),
        likely(e.1, t),
        0 <= p <= picked.len(),
    ensures
        forall|i: int| 0 <= i < picked.insert(p, e).len() ==> likely(#[trigger] picked.insert(p, e)[i].1, t),
{
    let np = picked.insert(p, e);
    assert forall|i: int| 0 <= i < np.len() implies likely(#[trigger] np[i].1, t) by {
        if i < p {
            assert(np[i] == picked[i]);
        } else if i > p {
            assert(np[i] == picked[i - 1]);
        }
    }
}

proof fn lemma_insert_origin(picked: NextView, n: NextView, k: int, p: int)
    requires
        0 <= k < n.len(),
        drawn_from(picked, n, k),
        0 <= p <= picked.len(),
    ensures
        drawn_from(picked.insert(p, n[k]), n, k + 1),
{
    reveal(drawn_from);
    let np = picked.insert(p, n[k]);
    assert forall|i: int| 0 <= i < np.len() implies exists|q: int|
        0 <= q < k + 1 && n[q] == #[trigger] np[i] by {
        if i == p {
            assert(n[k] == np[i]);
        } else if i < p {
            assert(np[i] == picked[i]);
            let q = choose|q: int| 0 <= q < k && n[q] == picked[i];
        } else {
            assert(np[i] == picked[i - 1]);
            let q = choose|q: int| 0 <= q < k && n[q] == picked[i - 1];
        }
    }
}

proof fn lemma_insert_cover(picked: NextView, n: NextView, t: nat, k: int, p: int)
    requires
        0 <= k < n.len(),
        covers(picked, n, t, k),
        0 <= p <= picked.len(),
    ensures
        covers(picked.insert(p, n[k]), n, t, k + 1),
{
    reveal(covers);
    let np = picked.insert(p, n[k]);
    assert forall|q: int| 0 <= q < k + 1 && likely(#[trigger] n[q].1, t) implies exists|i: int|
        0 <= i < np.len() && np[i] == n[q] by {
        if q == k {
            assert(np[p] == n[k]);
        } else {
            let i = choose|i: int| 0 <= i < picked.len() && picked[i] == n[q];
            if i < p {
                assert(np[i] == n[q]);
            } else {
                assert(np[i + 1] == n[q]);
            }
        }
    }
}

proof fn lemma_insert_ok(picked: NextView, n: NextView, t: nat, k: int, p: int)
    requires
        0 <= k < n.len(),
        next_wf(n),
        picked_ok(picked, n, t, k),
        likely(n[k].1, t),
        0 <= p <= picked.len(),
        forall|q: int| 0 <= q < p ==> picked[q].1 >= n[k].1,
        p < picked.len() ==> picked[p].1 < n[k].1,
    ensures
        picked_ok(picked.insert(p, n[k]), n, t, k + 1),
{
    lemma_insert_sorted(picked, n[k], p);
    lemma_insert_distinct(picked, n, t, k, p);
    lemma_insert_likely(picked, n[k], t, p);
    lemma_insert_origin(picked, n, k, p);
    lemma_insert_cover(picked, n, t, k, p);
}

/// More than three entries cannot each take more than 30% of the total.
proof fn lemma_likely_at_most_three(n: NextView, t: nat, picked: NextView)
    requires
        next_wf(n),
        t == sum_counts(n),
        picked_ok(picked, n, t, n.len() as int),
    ensures
        picked.len() <= 3,
{
    reveal(drawn_from);
    if picked.len() > 3 {
        let q0 = choose|q: int| 0 <= q < n.len() && n[q] == picked[0];
        let q1 = choose|q: int| 0 <= q < n.len() && n[q] == picked[1];
        let q2 = choose|q: int| 0 <= q < n.len() && n[q] == picked[2];
        let q3 = choose|q: int| 0 <= q < n.len() && n[q] == picked[3];
        assert(likely(picked[0].1, t) && likely(picked[1].1, t) && likely(picked[2].1, t) && likely(
            picked[3].1,
            t,
        ));
        assert(n[q0].0 != n[q1].0 && n[q0].0 != n[q2].0 && n[q0].0 != n[q3].0);
        assert(n[q1].0 != n[q2].0 && n[q1].0 != n[q3].0 && n[q2].0 != n[q3].0);
        crate::markov::lemma_four_le_sum(n, q0, q1, q2, q3);
    }
}

} // verus!
