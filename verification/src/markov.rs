//! A first-order Markov chain over opened files: how often each file was
//! followed by each other one.
use vstd::prelude::*;
use crate::text::text_eq;

verus! {

/// The transitions out of one file: how many there were in all, and how
/// many went to each next file.
#[derive(Debug, Clone)]
pub struct Row {
    pub from: String,
    pub total: u32,
    pub next: Vec<(String, u32)>,
}

/// Counts of file-to-file transitions.  Each file has at most one row, each
/// next file at most one entry in it; every count is positive and a row's
/// total is the sum of its counts.
pub struct MarkovChain {
    rows: Vec<Row>,
}

pub type NextView = Seq<(Seq<char>, nat)>;

pub type RowsView = Seq<(Seq<char>, nat, NextView)>;

pub open spec fn next_view(v: Seq<(String, u32)>) -> NextView {
    v.map_values(|e: (String, u32)| (e.0@, e.1 as nat))
}

pub open spec fn row_view(r: Row) -> (Seq<char>, nat, NextView) {
    (r.from@, r.total as nat, next_view(r.next@))
}

pub open spec fn rows_view(v: Seq<Row>) -> RowsView {
    v.map_values(|r: Row| row_view(r))
}

pub open spec fn sum_counts(n: NextView) -> nat
    decreases n.len(),
{
    if n.len() == 0 {
        0
    } else {
        sum_counts(n.drop_last()) + n.last().1
    }
}

/// The count recorded for `to` in a row's entries (0 when absent).
pub open spec fn count_in(n: NextView, to: Seq<char>) -> nat
    decreases n.len(),
{
    if n.len() == 0 {
        0
    } else if n.last().0 == to {
        n.last().1
    } else {
        count_in(n.drop_last(), to)
    }
}

/// The row of `from`, if it has one.
pub open spec fn row_index(rv: RowsView, from: Seq<char>) -> Option<int> {
    if exists|i: int| 0 <= i < rv.len() && rv[i].0 == from {
        Some(choose|i: int| 0 <= i < rv.len() && rv[i].0 == from)
    } else {
        None
    }
}

/// How many transitions from `from` to `to` were recorded.
pub open spec fn count_of(rv: RowsView, from: Seq<char>, to: Seq<char>) -> nat {
    match row_index(rv, from) {
        Some(i) => count_in(rv[i].2, to),
        None => 0,
    }
}

/// How many transitions from `from` were recorded.
pub open spec fn total_of(rv: RowsView, from: Seq<char>) -> nat {
    match row_index(rv, from) {
        Some(i) => rv[i].1,
        None => 0,
    }
}

/// The number of distinct (from, to) pairs recorded.
pub open spec fn pair_count(rv: RowsView) -> nat
    decreases rv.len(),
{
    if rv.len() == 0 {
        0
    } else {
        pair_count(rv.drop_last()) + rv.last().2.len()
    }
}

pub open spec fn next_wf(n: NextView) -> bool {
    &&& forall|i: int, j: int| 0 <= i < j < n.len() ==> n[i].0 != n[j].0
    &&& forall|i: int| 0 <= i < n.len() ==> #[trigger] n[i].1 > 0
}

pub open spec fn rows_wf(rv: RowsView) -> bool {
    &&& forall|i: int, j: int| 0 <= i < j < rv.len() ==> rv[i].0 != rv[j].0
    &&& forall|i: int| 0 <= i < rv.len() ==> next_wf(#[trigger] rv[i].2)
    &&& forall|i: int| 0 <= i < rv.len() ==> #[trigger] rv[i].1 == sum_counts(rv[i].2)
    &&& forall|i: int| 0 <= i < rv.len() ==> #[trigger] rv[i].2.len() > 0
}

proof fn lemma_row_index(rv: RowsView, from: Seq<char>, k: int)
    requires
        rows_wf(rv),
        0 <= k < rv.len(),
        rv[k].0 == from,
    ensures
        row_index(rv, from) == Some(k),
{
    let i = choose|i: int| 0 <= i < rv.len() && rv[i].0 == from;
    if i != k {
        if i < k {
            assert(rv[i].0 != rv[k].0);
        } else {
            assert(rv[k].0 != rv[i].0);
        }
    }
}

/// The count of an entry found at `k`.
proof fn lemma_count_at(n: NextView, to: Seq<char>, k: int)
    requires
        next_wf(n),
        0 <= k < n.len(),
        n[k].0 == to,
    ensures
        count_in(n, to) == n[k].1,
    decreases n.len(),
{
    if k < n.len() - 1 {
        assert(n.last().0 != to) by {
            assert(n[k].0 != n[n.len() - 1].0);
        }
        lemma_count_at(n.drop_last(), to, k);
    }
}

proof fn lemma_count_absent(n: NextView, to: Seq<char>)
    requires
        forall|i: int| 0 <= i < n.len() ==> n[i].0 != to,
    ensures
        count_in(n, to) == 0,
    decreases n.len(),
{
    if n.len() > 0 {
        lemma_count_absent(n.drop_last(), to);
    }
}

/// Adding one to entry `k` adds one to the sum and to that entry's count.
proof fn lemma_bump(n: NextView, k: int)
    requires
        next_wf(n),
        0 <= k < n.len(),
    ensures
        sum_counts(n.update(k, (n[k].0, n[k].1 + 1))) == sum_counts(n) + 1,
        next_wf(n.update(k, (n[k].0, n[k].1 + 1))),
        forall|t: Seq<char>|
            #[trigger] count_in(n.update(k, (n[k].0, n[k].1 + 1)), t) == count_in(n, t) + (if t
                == n[k].0 {
                1int
            } else {
                0int
            }),
    decreases n.len(),
{
    let m = n.update(k, (n[k].0, n[k].1 + 1));
    if k == n.len() - 1 {
        assert(m.drop_last() =~= n.drop_last());
    } else {
        assert(m.drop_last() =~= n.drop_last().update(k, (n[k].0, n[k].1 + 1)));
        lemma_bump(n.drop_last(), k);
        assert(m.last() == n.last());
        assert forall|t: Seq<char>|
            #[trigger] count_in(m, t) == count_in(n, t) + (if t == n[k].0 { 1int } else { 0int }) by {
            if t == n.last().0 {
                assert(n.last().0 != n[k].0) by {
                    assert(n[k].0 != n[n.len() - 1].0);
                }
            } else {
                assert(count_in(m, t) == count_in(m.drop_last(), t));
                assert(count_in(n, t) == count_in(n.drop_last(), t));
                assert(count_in(n.drop_last().update(k, (n[k].0, n[k].1 + 1)), t) == count_in(
                    n.drop_last(),
                    t,
                ) + (if t == n[k].0 { 1int } else { 0int }));
            }
        }
    }
}

proof fn lemma_count_le_sum(n: NextView, t: Seq<char>)
    ensures
        count_in(n, t) <= sum_counts(n),
    decreases n.len(),
{
    if n.len() > 0 {
        lemma_count_le_sum(n.drop_last(), t);
    }
}

/// Appending a new entry with count one.
proof fn lemma_append(n: NextView, to: Seq<char>)
    requires
        next_wf(n),
        forall|i: int| 0 <= i < n.len() ==> n[i].0 != to,
    ensures
        sum_counts(n.push((to, 1))) == sum_counts(n) + 1,
        next_wf(n.push((to, 1))),
        forall|t: Seq<char>|
            #[trigger] count_in(n.push((to, 1)), t) == count_in(n, t) + (if t == to { 1int } else { 0int }),
{
    let m = n.push((to, 1));
    assert(m.drop_last() =~= n);
    lemma_count_absent(n, to);
}

proof fn lemma_pair_count_update(rv: RowsView, k: int, row: (Seq<char>, nat, NextView))
    requires
        0 <= k < rv.len(),
    ensures
        pair_count(rv.update(k, row)) == pair_count(rv) - rv[k].2.len() + row.2.len(),
    decreases rv.len(),
{
    let u = rv.update(k, row);
    if k == rv.len() - 1 {
        assert(u.drop_last() =~= rv.drop_last());
    } else {
        assert(u.drop_last() =~= rv.drop_last().update(k, row));
        lemma_pair_count_update(rv.drop_last(), k, row);
    }
}

fn find_row(rows: &Vec<Row>, from: &str) -> (r: Option<usize>)
    ensures
        match r {
            Some(i) => i < rows@.len() && rows@[i as int].from@ == from@,
            None => forall|i: int| 0 <= i < rows@.len() ==> rows@[i].from@ != from@,
        },
{
    let mut i: usize = 0;
    while i < rows.len()
        invariant
            i <= rows@.len(),
            forall|q: int| 0 <= q < i ==> rows@[q].from@ != from@,
        decreases rows@.len() - i,
    {
        if text_eq(rows[i].from.as_str(), from) {
            return Some(i);
        }
        i = i + 1;
    }
    None
}

fn find_next(next: &Vec<(String, u32)>, to: &str) -> (r: Option<usize>)
    ensures
        match r {
            Some(i) => i < next@.len() && next@[i as int].0@ == to@,
            None => forall|i: int| 0 <= i < next@.len() ==> next@[i].0@ != to@,
        },
{
    let mut i: usize = 0;
    while i < next.len()
        invariant
            i <= next@.len(),
            forall|q: int| 0 <= q < i ==> next@[q].0@ != to@,
        decreases next@.len() - i,
    {
        if text_eq(next[i].0.as_str(), to) {
            return Some(i);
        }
        i = i + 1;
    }
    None
}

impl MarkovChain {
    #[verifier::type_invariant]
    spec fn chain_wf(self) -> bool {
        rows_wf(rows_view(self.rows@))
    }

    /// The rows, one per file that was ever left for another.
    pub closed spec fn view(&self) -> RowsView {
        rows_view(self.rows@)
    }

    /// How many transitions from `from` to `to` were recorded.
    pub open spec fn count(&self, from: Seq<char>, to: Seq<char>) -> nat {
        count_of(self.view(), from, to)
    }

    /// How many transitions from `from` were recorded.
    pub open spec fn total(&self, from: Seq<char>) -> nat {
        total_of(self.view(), from)
    }

    /// The files that followed `from`, with their counts, in the order they
    /// were first seen.
    pub open spec fn successor_list(&self, from: Seq<char>) -> NextView {
        match row_index(self.view(), from) {
            Some(i) => self.view()[i].2,
            None => Seq::empty(),
        }
    }

    /// The number of distinct transitions recorded.
    pub open spec fn pairs(&self) -> nat {
        pair_count(self.view())
    }

    /// A chain with nothing recorded.
    pub fn new() -> (r: Self)
        ensures
            r.view().len() == 0,
            forall|f: Seq<char>, t: Seq<char>| r.count(f, t) == 0,
            forall|f: Seq<char>| r.total(f) == 0,
    {
        let r = MarkovChain { rows: Vec::new() };
        assert(r.view() =~= Seq::empty());
        r
    }

    /// The rows, for saving the chain.
    pub fn rows(&self) -> (r: &Vec<Row>)
        ensures
            rows_view(r@) == self.view(),
    {
        &self.rows
    }

    /// Records one transition from `from` to `to`; moving to the same file
    /// records nothing.
    pub fn record_transition(&mut self, from: &str, to: &str)
        requires
            from@ != to@ ==> old(self).total(from@) < u32::MAX,
        ensures
            from@ == to@ ==> final(self).view() == old(self).view(),
            from@ != to@ ==> {
                &&& forall|f: Seq<char>, t: Seq<char>|
                    #[trigger] final(self).count(f, t) == old(self).count(f, t) + (if f == from@ && t
                        == to@ {
                        1int
                    } else {
                        0int
                    })
                &&& forall|f: Seq<char>|
                    #[trigger] final(self).total(f) == old(self).total(f) + (if f == from@ {
                        1int
                    } else {
                        0int
                    })
                &&& final(self).pairs() == old(self).pairs() + (if old(self).count(from@, to@) == 0 {
                    1int
                } else {
                    0int
                })
            },
    {
        proof {
            use_type_invariant(&*self);
        }
        if text_eq(from, to) {
            return;
        }
        let mut rows: Vec<Row> = Vec::new();
        std::mem::swap(&mut rows, &mut self.rows);
        let ghost rv = rows_view(rows@);
        assert(rv == old(self).view());
        match find_row(&rows, from) {
            Some(i) => {
                proof {
                    lemma_row_index(rv, from@, i as int);
                }
                let ghost nv = rv[i as int].2;
                let mut row = rows.remove(i);
                assert(next_view(row.next@) == nv);
                match find_next(&row.next, to) {
                    Some(k) => {
                        proof {
                            lemma_count_at(nv, to@, k as int);
                            lemma_bump(nv, k as int);
                            lemma_count_le_sum(nv, to@);
                        }
                        let (name, c) = row.next.remove(k);
                        row.next.insert(k, (name, c + 1));
                        assert(next_view(row.next@) =~= nv.update(k as int, (nv[k as int].0, nv[k as int].1 + 1)));
                        assert(count_in(nv, to@) > 0);
                    },
                    None => {
                        proof {
                            lemma_append(nv, to@);
                            lemma_count_absent(nv, to@);
                        }
                        row.next.push((to.to_owned(), 1));
                        assert(next_view(row.next@) =~= nv.push((to@, 1)));
                    },
                }
                assert(forall|t: Seq<char>|
                    #[trigger] count_in(next_view(row.next@), t) == count_in(nv, t) + (if t == to@ {
                        1int
                    } else {
                        0int
                    }));
                assert(next_view(row.next@).len() == nv.len() + (if count_in(nv, to@) == 0 {
                    1int
                } else {
                    0int
                }));
                assert(sum_counts(next_view(row.next@)) == sum_counts(nv) + 1);
                row.total = row.total + 1;
                rows.insert(i, row);
                let ghost nrv = rows_view(rows@);
                assert(nrv =~= rv.update(i as int, row_view(row)));
                proof {
                    lemma_pair_count_update(rv, i as int, row_view(row));
                    assert forall|a: int, b: int| 0 <= a < b < nrv.len() implies nrv[a].0 != nrv[b].0 by {
                        assert(nrv[a].0 == rv[a].0 && nrv[b].0 == rv[b].0);
                    }
                    assert forall|a: int| 0 <= a < nrv.len() implies next_wf(#[trigger] nrv[a].2)
                        && nrv[a].1 == sum_counts(nrv[a].2) && nrv[a].2.len() > 0 by {
                        if a != i {
                            assert(nrv[a] == rv[a]);
                        }
                    }
                    assert(rows_wf(nrv));
                    assert forall|f: Seq<char>| row_index(nrv, f) == row_index(rv, f) by {
                        if exists|q: int| 0 <= q < rv.len() && rv[q].0 == f {
                            let q = choose|q: int| 0 <= q < rv.len() && rv[q].0 == f;
                            lemma_row_index(rv, f, q);
                            assert(nrv[q].0 == f);
                            lemma_row_index(nrv, f, q);
                        } else {
                            assert forall|q: int| 0 <= q < nrv.len() implies nrv[q].0 != f by {
                                assert(nrv[q].0 == rv[q].0);
                            }
                        }
                    }
                    assert(row_index(rv, from@) == Some(i as int));
                    assert forall|f: Seq<char>, t: Seq<char>|
                        #[trigger] count_of(nrv, f, t) == count_of(rv, f, t) + (if f == from@ && t
                            == to@ {
                            1int
                        } else {
                            0int
                        }) by {
                        if f != from@ {
                            if let Some(j) = row_index(rv, f) {
                                assert(j != i);
                                assert(nrv[j] == rv[j]);
                            }
                        }
                    }
                    assert forall|f: Seq<char>|
                        #[trigger] total_of(nrv, f) == total_of(rv, f) + (if f == from@ {
                            1int
                        } else {
                            0int
                        }) by {
                        if f != from@ {
                            if let Some(j) = row_index(rv, f) {
                                assert(j != i);
                                assert(nrv[j] == rv[j]);
                            }
                        }
                    }
                }
            },
            None => {
                let mut next: Vec<(String, u32)> = Vec::new();
                next.push((to.to_owned(), 1));
                let row = Row { from: from.to_owned(), total: 1, next };
                rows.push(row);
                let ghost nrv = rows_view(rows@);
                assert(nrv =~= rv.push(row_view(row)));
                proof {
                    assert(row_view(row).2 =~= seq![(to@, 1nat)]);
                    assert(row_view(row).2.drop_last() =~= Seq::<(Seq<char>, nat)>::empty());
                    assert(nrv.drop_last() =~= rv);
                    assert forall|a: int, b: int| 0 <= a < b < nrv.len() implies nrv[a].0 != nrv[b].0 by {
                        assert(nrv[a].0 == rv[a].0);
                        if b < rv.len() {
                            assert(nrv[b].0 == rv[b].0);
                        } else {
                            assert(rows@[a].from@ != from@);
                        }
                    }
                    assert forall|a: int| 0 <= a < nrv.len() implies next_wf(#[trigger] nrv[a].2)
                        && nrv[a].1 == sum_counts(nrv[a].2) && nrv[a].2.len() > 0 by {
                        if a < rv.len() {
                            assert(nrv[a] == rv[a]);
                        } else {
                            assert(nrv[a] == row_view(row));
                            assert(sum_counts(Seq::<(Seq<char>, nat)>::empty()) == 0);
                            assert(row_view(row).2.last().1 == 1);
                            assert(sum_counts(row_view(row).2) == 1);
                        }
                    }
                    assert(rows_wf(nrv));
                    assert forall|f: Seq<char>|
                        f != from@ implies #[trigger] row_index(nrv, f) == row_index(rv, f) by {
                        if exists|q: int| 0 <= q < rv.len() && rv[q].0 == f {
                            let q = choose|q: int| 0 <= q < rv.len() && rv[q].0 == f;
                            lemma_row_index(rv, f, q);
                            assert(nrv[q].0 == f);
                            lemma_row_index(nrv, f, q);
                        } else {
                            assert forall|q: int| 0 <= q < nrv.len() implies nrv[q].0 != f by {
                                if q < rv.len() {
                                    assert(nrv[q].0 == rv[q].0);
                                }
                            }
                        }
                    }
                    lemma_row_index(nrv, from@, rv.len() as int);
                    assert(count_in(Seq::<(Seq<char>, nat)>::empty(), to@) == 0);
                    assert forall|f: Seq<char>, t: Seq<char>|
                        #[trigger] count_of(nrv, f, t) == count_of(rv, f, t) + (if f == from@ && t
                            == to@ {
                            1int
                        } else {
                            0int
                        }) by {
                        if f != from@ {
                            if let Some(j) = row_index(rv, f) {
                                assert(nrv[j] == rv[j]);
                            }
                        } else {
                            assert(nrv[rv.len() as int].2 == row_view(row).2);
                            assert(count_in(Seq::<(Seq<char>, nat)>::empty(), t) == 0);
                        }
                    }
                    assert forall|f: Seq<char>|
                        #[trigger] total_of(nrv, f) == total_of(rv, f) + (if f == from@ {
                            1int
                        } else {
                            0int
                        }) by {
                        if f != from@ {
                            if let Some(j) = row_index(rv, f) {
                                assert(nrv[j] == rv[j]);
                            }
                        }
                    }
                    assert(pair_count(nrv) == pair_count(rv) + 1);
                    assert(row_index(rv, from@) is None);
                }
            },
        }
        self.rows = rows;
    }

    /// The transitions out of `current`: their total, and each next file
    /// with its count, in the order they were first seen.  This is what
    /// next-file predictions are computed from.
    pub fn successors(&self, current: &str) -> (r: (u32, Vec<(String, u32)>))
        ensures
            r.0 == self.total(current@),
            r.0 == sum_counts(next_view(r.1@)),
            next_view(r.1@) == self.successor_list(current@),
            next_wf(next_view(r.1@)),
            forall|t: Seq<char>| #[trigger] count_in(next_view(r.1@), t) == self.count(current@, t),
    {
        proof {
            use_type_invariant(self);
        }
        let ghost rv = self.view();
        match find_row(&self.rows, current) {
            Some(i) => {
                proof {
                    lemma_row_index(rv, current@, i as int);
                }
                let row = &self.rows[i];
                let mut out: Vec<(String, u32)> = Vec::new();
                let mut k: usize = 0;
                while k < row.next.len()
                    invariant
                        k <= row.next@.len(),
                        next_view(out@) == next_view(row.next@).take(k as int),
                    decreases row.next@.len() - k,
                {
                    let e = &row.next[k];
                    out.push((e.0.clone(), e.1));
                    assert(next_view(row.next@).take(k + 1) =~= next_view(row.next@).take(k as int).push(
                        next_view(row.next@)[k as int],
                    ));
                    assert(next_view(out@) =~= next_view(row.next@).take(k + 1));
                    k = k + 1;
                }
                assert(next_view(row.next@).take(row.next@.len() as int) =~= next_view(row.next@));
                assert(rv[i as int] == row_view(self.rows@[i as int]));
                assert(next_view(out@) == rv[i as int].2);
                assert(rows_wf(rv));
                assert(next_wf(rv[i as int].2));
                assert(rv[i as int].1 == sum_counts(rv[i as int].2));
                (row.total, out)
            },
            None => {
                let out: Vec<(String, u32)> = Vec::new();
                assert(next_view(out@) =~= Seq::<(Seq<char>, nat)>::empty());
                proof {
                    if exists|q: int| 0 <= q < rv.len() && rv[q].0 == current@ {
                        let q = choose|q: int| 0 <= q < rv.len() && rv[q].0 == current@;
                        assert(self.rows@[q].from@ == rv[q].0);
                    }
                }
                (0, out)
            },
        }
    }

    /// The number of distinct transitions recorded.
    pub fn len(&self) -> (r: usize)
        requires
            self.pairs() <= usize::MAX,
        ensures
            r == self.pairs(),
    {
        let ghost rv = self.view();
        let mut n: usize = 0;
        let mut i: usize = 0;
        while i < self.rows.len()
            invariant
                i <= self.rows@.len(),
                rv == rows_view(self.rows@),
                n == pair_count(rv.take(i as int)),
                pair_count(rv) <= usize::MAX,
            decreases self.rows@.len() - i,
        {
            assert(rv.take(i + 1).drop_last() == rv.take(i as int));
            proof {
                lemma_pair_count_prefix(rv, i + 1);
            }
            n = n + self.rows[i].next.len();
            i = i + 1;
        }
        assert(rv.take(rv.len() as int) == rv);
        n
    }

    /// Whether nothing has been recorded.
    pub fn is_empty(&self) -> (r: bool)
        ensures
            r == (self.view().len() == 0),
            r == (forall|f: Seq<char>| self.total(f) == 0),
    {
        proof {
            use_type_invariant(self);
            let rv = self.view();
            if rv.len() > 0 {
                lemma_row_index(rv, rv[0].0, 0);
                lemma_sum_positive(rv[0].2);
                assert(self.total(rv[0].0) > 0);
            } else {
                assert forall|f: Seq<char>| self.total(f) == 0 by {}
            }
        }
        self.rows.len() == 0
    }
}

/// `idx` lists every entry of `n` once, by decreasing count, ties in the
/// order of `n`.
pub open spec fn rank_ok(n: NextView, idx: Seq<usize>) -> bool {
    &&& idx.len() == n.len()
    &&& forall|k: int| 0 <= k < idx.len() ==> #[trigger] idx[k] < n.len()
    &&& forall|j: int| 0 <= j < n.len() ==> #[trigger] listed(idx, j)
    &&& forall|k1: int, k2: int|
        0 <= k1 < k2 < idx.len() ==> n[#[trigger] idx[k1] as int].1 > n[#[trigger] idx[k2] as int].1
            || (n[idx[k1] as int].1 == n[idx[k2] as int].1 && idx[k1] < idx[k2])
}

/// Whether position `j` is among `idx`.
pub open spec fn listed(idx: Seq<usize>, j: int) -> bool {
    exists|k: int| 0 <= k < idx.len() && idx[k] == j
}

/// The first `m` entries of `n` in the order `idx` gives.
pub open spec fn ranked_prefix(n: NextView, idx: Seq<usize>, m: nat) -> NextView {
    Seq::new(m, |k: int| n[idx[k] as int])
}

/// The positions of the entries of `next`, by decreasing count, ties in
/// the order of `next`.
pub fn rank_by_count(next: &Vec<(String, u32)>) -> (idx: Vec<usize>)
    ensures
        rank_ok(next_view(next@), idx@),
{
    let ghost n = next_view(next@);
    let len = next.len();
    let mut idx: Vec<usize> = Vec::new();
    let mut i: usize = 0;
    while i < len
        invariant
            i <= len,
            len == next@.len(),
            n == next_view(next@),
            idx@.len() == i,
            forall|k: int| 0 <= k < idx@.len() ==> #[trigger] idx@[k] < i,
            forall|j: int| 0 <= j < i ==> #[trigger] listed(idx@, j),
            forall|k1: int, k2: int|
                0 <= k1 < k2 < idx@.len() ==> n[#[trigger] idx@[k1] as int].1 > n[#[trigger] idx@[k2] as int].1
                    || (n[idx@[k1] as int].1 == n[idx@[k2] as int].1 && idx@[k1] < idx@[k2]),
        decreases len - i,
    {
        let c = next[i].1;
        let mut p: usize = 0;
        while p < idx.len() && next[idx[p]].1 >= c
            invariant
                p <= idx@.len(),
                idx@.len() == i,
                i < len,
                len == next@.len(),
                n == next_view(next@),
                forall|k: int| 0 <= k < idx@.len() ==> #[trigger] idx@[k] < i,
                forall|k: int| 0 <= k < p ==> n[#[trigger] idx@[k] as int].1 >= c,
            decreases idx@.len() - p,
        {
            p = p + 1;
        }
        let ghost before = idx@;
        proof {
            assert forall|k: int| p <= k < before.len() implies n[#[trigger] before[k] as int].1 < c by {
                if k > p {
                    assert(n[before[p as int] as int].1 > n[before[k] as int].1 || n[before[p as int] as int].1
                        == n[before[k] as int].1);
                }
            }
        }
        idx.insert(p, i);
        proof {
            assert(n[i as int].1 == c);
            assert forall|j: int| 0 <= j < i + 1 implies #[trigger] listed(idx@, j) by {
                if j == i {
                    assert(idx@[p as int] == j);
                } else {
                    assert(listed(before, j));
                    let k = choose|k: int| 0 <= k < before.len() && before[k] == j;
                    if k < p {
                        assert(idx@[k] == j);
                    } else {
                        assert(idx@[k + 1] == j);
                    }
                }
            }
            assert forall|k1: int, k2: int|
                0 <= k1 < k2 < idx@.len() implies n[#[trigger] idx@[k1] as int].1 > n[#[trigger] idx@[k2] as int].1
                    || (n[idx@[k1] as int].1 == n[idx@[k2] as int].1 && idx@[k1] < idx@[k2]) by {
                if k1 < p && k2 < p {
                    assert(idx@[k1] == before[k1] && idx@[k2] == before[k2]);
                } else if k1 < p && k2 == p {
                    assert(idx@[k1] == before[k1]);
                } else if k1 < p {
                    assert(idx@[k1] == before[k1] && idx@[k2] == before[k2 - 1]);
                } else if k1 == p {
                    assert(idx@[k2] == before[k2 - 1]);
                } else {
                    assert(idx@[k1] == before[k1 - 1] && idx@[k2] == before[k2 - 1]);
                }
            }
        }
        i = i + 1;
    }
    idx
}

impl MarkovChain {
    /// The transitions out of `current`, for next-file predictions: their
    /// total, and the `top_n` most frequent next files with their counts,
    /// most frequent first, ties in the order they were first seen.
    pub fn ranked_successors(&self, current: &str, top_n: usize) -> (r: (u32, Vec<(String, u32)>))
        ensures
            r.0 == self.total(current@),
            exists|idx: Seq<usize>|
                rank_ok(self.successor_list(current@), idx) && next_view(r.1@) == ranked_prefix(
                    self.successor_list(current@),
                    idx,
                    if top_n < self.successor_list(current@).len() {
                        top_n as nat
                    } else {
                        self.successor_list(current@).len()
                    },
                ),
    {
        let (total, next) = self.successors(current);
        let ghost n = next_view(next@);
        let idx = rank_by_count(&next);
        let m: usize = if top_n < next.len() { top_n } else { next.len() };
        let mut out: Vec<(String, u32)> = Vec::new();
        let mut k: usize = 0;
        while k < m
            invariant
                k <= m,
                m <= next@.len(),
                n == next_view(next@),
                rank_ok(n, idx@),
                out@.len() == k,
                next_view(out@) == ranked_prefix(n, idx@, k as nat),
            decreases m - k,
        {
            let j = idx[k];
            let e = &next[j];
            let name = e.0.clone();
            let ghost before = out@;
            out.push((name, e.1));
            assert(out@ == before.push((name, e.1)));
            assert(next_view(out@) =~= ranked_prefix(n, idx@, (k + 1) as nat)) by {
                assert(next_view(before).len() == k);
                assert(next_view(out@)[k as int] == (name@, e.1 as nat));
                assert(n[j as int] == (name@, e.1 as nat));
                assert(ranked_prefix(n, idx@, (k + 1) as nat)[k as int] == n[j as int]);
                assert forall|i: int| 0 <= i < k implies next_view(out@)[i] == ranked_prefix(n, idx@, (k + 1) as nat)[i] by {
                    assert(out@[i] == before[i]);
                    assert(next_view(before)[i] == ranked_prefix(n, idx@, k as nat)[i]);
                }
            }
            k = k + 1;
        }
        (total, out)
    }
}

/// The saved count of `f` to `t` in `ts`: the sum of the counts of its
/// entries for that pair, none for a file followed by itself.
pub open spec fn saved_count(ts: Seq<(String, String, u32)>, f: Seq<char>, t: Seq<char>) -> nat
    decreases ts.len(),
{
    if ts.len() == 0 {
        0
    } else {
        saved_count(ts.drop_last(), f, t) + if ts.last().0@ == f && ts.last().1@ == t && f != t {
            ts.last().2 as nat
        } else {
            0
        }
    }
}

/// The saved transitions out of `f` in `ts`.
pub open spec fn saved_total(ts: Seq<(String, String, u32)>, f: Seq<char>) -> nat
    decreases ts.len(),
{
    if ts.len() == 0 {
        0
    } else {
        saved_total(ts.drop_last(), f) + if ts.last().0@ == f && ts.last().1@ != f {
            ts.last().2 as nat
        } else {
            0
        }
    }
}

proof fn lemma_saved_total_prefix(ts: Seq<(String, String, u32)>, i: int, f: Seq<char>)
    requires
        0 <= i <= ts.len(),
    ensures
        saved_total(ts.take(i), f) <= saved_total(ts, f),
    decreases ts.len() - i,
{
    if i < ts.len() {
        lemma_saved_total_prefix(ts, i + 1, f);
        assert(ts.take(i + 1).drop_last() == ts.take(i));
    } else {
        assert(ts.take(i) == ts);
    }
}

/// A recorded total fits the counter it is kept in.
pub proof fn lemma_total_fits(c: MarkovChain, f: Seq<char>)
    ensures
        c.total(f) <= u32::MAX,
{
    let rv = c.view();
    match row_index(rv, f) {
        Some(i) => {
            assert(rv[i] == row_view(c.rows@[i]));
        },
        None => {},
    }
}

impl MarkovChain {
    /// A chain holding the saved counts `ts` (from, to, count), or `None`
    /// when the transitions out of some file do not fit the counter.
    pub fn from_counts(ts: &Vec<(String, String, u32)>) -> (r: Option<MarkovChain>)
        ensures
            r is Some <==> forall|f: Seq<char>| #[trigger] saved_total(ts@, f) <= u32::MAX,
            r matches Some(c) ==> forall|f: Seq<char>, t: Seq<char>|
                #[trigger] c.count(f, t) == saved_count(ts@, f, t),
            r matches Some(c) ==> forall|f: Seq<char>| #[trigger] c.total(f) == saved_total(ts@, f),
    {
        let ghost s = ts@;
        let mut chain = MarkovChain::new();
        let mut i: usize = 0;
        while i < ts.len()
            invariant
                i <= s.len(),
                s == ts@,
                forall|f: Seq<char>, t: Seq<char>|
                    #[trigger] chain.count(f, t) == saved_count(s.take(i as int), f, t),
                forall|f: Seq<char>| #[trigger] chain.total(f) == saved_total(s.take(i as int), f),
            decreases s.len() - i,
        {
            let from = ts[i].0.as_str();
            let to = ts[i].1.as_str();
            let n = ts[i].2;
            assert(s.take(i + 1).drop_last() == s.take(i as int));
            assert(s.take(i + 1).last() == s[i as int]);
            if !text_eq(from, to) {
                let mut k: u32 = 0;
                while k < n
                    invariant
                        k <= n,
                        i < s.len(),
                        s == ts@,
                        from@ == s[i as int].0@,
                        to@ == s[i as int].1@,
                        n == s[i as int].2,
                        from@ != to@,
                        forall|f: Seq<char>, t: Seq<char>|
                            #[trigger] chain.count(f, t) == saved_count(s.take(i as int), f, t) + if f
                                == from@ && t == to@ {
                                k as nat
                            } else {
                                0
                            },
                        forall|f: Seq<char>| #[trigger] chain.total(f) == saved_total(
                            s.take(i as int),
                            f,
                        ) + if f == from@ {
                            k as nat
                        } else {
                            0
                        },
                    decreases n - k,
                {
                    let (total, _) = chain.successors(from);
                    if total == u32::MAX {
                        proof {
                            lemma_saved_total_prefix(s, i + 1, from@);
                            assert(s.take(i + 1).drop_last() == s.take(i as int));
                            assert(s.take(i + 1).last() == s[i as int]);
                            assert(saved_total(s.take(i + 1), from@) == saved_total(
                                s.take(i as int),
                                from@,
                            ) + n);
                            assert(saved_total(s, from@) > u32::MAX);
                        }
                        return None;
                    }
                    chain.record_transition(from, to);
                    k = k + 1;
                }
            }
            i = i + 1;
        }
        assert(s.take(s.len() as int) == s);
        proof {
            assert forall|f: Seq<char>| #[trigger] saved_total(ts@, f) <= u32::MAX by {
                lemma_total_fits(chain, f);
            }
        }
        Some(chain)
    }
}

proof fn lemma_sum_positive(n: NextView)
    requires
        next_wf(n),
        n.len() > 0,
    ensures
        sum_counts(n) > 0,
    decreases n.len(),
{
    if n.len() > 1 {
        lemma_sum_positive(n.drop_last());
    }
}

proof fn lemma_pair_count_prefix(rv: RowsView, k: int)
    requires
        0 <= k <= rv.len(),
    ensures
        pair_count(rv.take(k)) <= pair_count(rv),
    decreases rv.len() - k,
{
    if k < rv.len() {
        lemma_pair_count_prefix(rv, k + 1);
        assert(rv.take(k + 1).drop_last() == rv.take(k));
    } else {
        assert(rv.take(k) == rv);
    }
}


/// The count of an entry found at `k` (for callers outside this module).
pub proof fn lemma_count_at_pub(n: NextView, to: Seq<char>, k: int)
    requires
        next_wf(n),
        0 <= k < n.len(),
        n[k].0 == to,
    ensures
        count_in(n, to) == n[k].1,
{
    lemma_count_at(n, to, k);
}

/// A positive count comes from an entry, which is returned.
pub proof fn lemma_count_positive(n: NextView, to: Seq<char>) -> (k: int)
    requires
        next_wf(n),
        count_in(n, to) > 0,
    ensures
        0 <= k < n.len(),
        n[k].0 == to,
        n[k].1 == count_in(n, to),
    decreases n.len(),
{
    if n.last().0 == to {
        (n.len() - 1) as int
    } else {
        lemma_count_positive(n.drop_last(), to)
    }
}

/// The counts at some distinct positions.
pub open spec fn sum_at(n: NextView, ids: Seq<int>) -> nat
    decreases ids.len(),
{
    if ids.len() == 0 {
        0
    } else {
        sum_at(n, ids.drop_last()) + n[ids.last()].1
    }
}

proof fn lemma_sum_at_remove(n: NextView, ids: Seq<int>, m: int)
    requires
        0 <= m < ids.len(),
    ensures
        sum_at(n, ids) == sum_at(n, ids.remove(m)) + n[ids[m]].1,
    decreases ids.len(),
{
    if m < ids.len() - 1 {
        assert(ids.remove(m).drop_last() =~= ids.drop_last().remove(m));
        assert(ids.remove(m).last() == ids.last());
        lemma_sum_at_remove(n, ids.drop_last(), m);
    } else {
        assert(ids.remove(m) =~= ids.drop_last());
    }
}

proof fn lemma_sum_at_prefix(n: NextView, ids: Seq<int>)
    requires
        n.len() > 0,
        forall|j: int| 0 <= j < ids.len() ==> 0 <= #[trigger] ids[j] < n.len() - 1,
    ensures
        sum_at(n, ids) == sum_at(n.drop_last(), ids),
    decreases ids.len(),
{
    if ids.len() > 0 {
        lemma_sum_at_prefix(n, ids.drop_last());
    }
}

/// The counts at distinct positions add up to no more than the total.
pub proof fn lemma_sum_at_le(n: NextView, ids: Seq<int>)
    requires
        ids.no_duplicates(),
        forall|j: int| 0 <= j < ids.len() ==> 0 <= #[trigger] ids[j] < n.len(),
    ensures
        sum_at(n, ids) <= sum_counts(n),
    decreases n.len(),
{
    if n.len() == 0 {
        if ids.len() > 0 {
            assert(0 <= ids[0] < n.len());
        }
    } else {
        let last = n.len() - 1;
        if exists|m: int| 0 <= m < ids.len() && ids[m] == last {
            let m = choose|m: int| 0 <= m < ids.len() && ids[m] == last;
            let rest = ids.remove(m);
            lemma_sum_at_remove(n, ids, m);
            assert forall|j: int| 0 <= j < rest.len() implies 0 <= #[trigger] rest[j] < n.len() - 1 by {
                if j < m {
                    assert(rest[j] == ids[j]);
                    assert(ids[j] != ids[m]);
                } else {
                    assert(rest[j] == ids[j + 1]);
                    assert(ids[j + 1] != ids[m]);
                }
            }
            assert(rest.no_duplicates()) by {
                assert forall|a: int, b: int| 0 <= a < rest.len() && 0 <= b < rest.len() && a != b
                    implies rest[a] != rest[b] by {
                    let ia = if a < m { a } else { a + 1 };
                    let ib = if b < m { b } else { b + 1 };
                    assert(rest[a] == ids[ia] && rest[b] == ids[ib]);
                }
            }
            lemma_sum_at_prefix(n, rest);
            lemma_sum_at_le(n.drop_last(), rest);
        } else {
            assert forall|j: int| 0 <= j < ids.len() implies 0 <= #[trigger] ids[j] < n.len() - 1 by {
                assert(ids[j] != last);
            }
            lemma_sum_at_prefix(n, ids);
            lemma_sum_at_le(n.drop_last(), ids);
        }
    }
}

/// Four distinct entries take no more than the total between them.
pub proof fn lemma_four_le_sum(n: NextView, a: int, b: int, c: int, d: int)
    requires
        0 <= a < n.len(),
        0 <= b < n.len(),
        0 <= c < n.len(),
        0 <= d < n.len(),
        a != b && a != c && a != d && b != c && b != d && c != d,
    ensures
        n[a].1 + n[b].1 + n[c].1 + n[d].1 <= sum_counts(n),
{
    let ids = seq![a, b, c, d];
    assert(ids.no_duplicates());
    lemma_sum_at_le(n, ids);
    assert(seq![a].drop_last() =~= Seq::<int>::empty());
    assert(sum_at(n, Seq::<int>::empty()) == 0);
    assert(seq![a].last() == a);
    assert(sum_at(n, seq![a]) == n[a].1);
    assert(seq![a, b].drop_last() =~= seq![a]);
    assert(sum_at(n, seq![a, b]) == n[a].1 + n[b].1);
    assert(seq![a, b, c].drop_last() =~= seq![a, b]);
    assert(sum_at(n, seq![a, b, c]) == n[a].1 + n[b].1 + n[c].1);
    assert(ids.drop_last() =~= seq![a, b, c]);
}

} // verus!
