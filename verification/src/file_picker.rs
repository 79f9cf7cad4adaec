//! The quick-open file picker: files ranked by their fuzzy score against the
//! query.
use vstd::prelude::*;
use crate::command_palette::{fuzzy_match, fuzzy_score_spec};

verus! {

/// Score of file `i` for `query`.
pub open spec fn file_score(files: Seq<String>, query: Seq<char>, i: int) -> Option<int> {
    fuzzy_score_spec(query, files[i]@)
}

/// `f` is what the picker shows for `query`: every file with score 0 in
/// order for an empty query, otherwise every matching file once with its
/// score, by decreasing score, ties in file order.
pub open spec fn ranked_ok(files: Seq<String>, query: Seq<char>, f: Seq<(usize, i128)>) -> bool {
    if query.len() == 0 {
        f == Seq::new(files.len(), |i: int| (i as usize, 0i128))
    } else {
        &&& forall|k: int|
            0 <= k < f.len() ==> #[trigger] f[k].0 < files.len() && file_score(
                files,
                query,
                f[k].0 as int,
            ) == Some(f[k].1 as int)
        &&& forall|i: int|
            0 <= i < files.len() && (#[trigger] file_score(files, query, i)) is Some ==> exists|
                k: int,
            | 0 <= k < f.len() && #[trigger] f[k].0 == i
        &&& forall|k1: int, k2: int|
            0 <= k1 < k2 < f.len() ==> (#[trigger] f[k1]).1 > (#[trigger] f[k2]).1 || (f[k1].1
                == f[k2].1 && f[k1].0 < f[k2].0)
    }
}

#[derive(Debug, Clone, PartialEq)]
pub struct FilePicker {
    pub visible: bool,
    pub query: String,
    pub files: Vec<String>,
    /// File index and score of each file shown, best first.
    pub filtered: Vec<(usize, i128)>,
}

impl FilePicker {
    pub fn new() -> (r: Self)
        ensures
            !r.visible,
            r.query@.len() == 0,
            r.files@.len() == 0,
            r.filtered@.len() == 0,
    {
        FilePicker {
            visible: false,
            query: String::new(),
            files: Vec::new(),
            filtered: Vec::new(),
        }
    }

    /// Shows the picker with an empty query, listing every file.
    pub fn open(&mut self)
        ensures
            final(self).visible,
            final(self).query@.len() == 0,
            final(self).files@ == old(self).files@,
            ranked_ok(final(self).files@, final(self).query@, final(self).filtered@),
    {
        self.visible = true;
        self.query = String::new();
        proof {
            reveal_strlit("");
        }
        self.search("");
    }

    /// Hides the picker and forgets the query and the results.
    pub fn close(&mut self)
        ensures
            !final(self).visible,
            final(self).query@.len() == 0,
            final(self).filtered@.len() == 0,
            final(self).files@ == old(self).files@,
    {
        self.visible = false;
        self.query = String::new();
        self.filtered = Vec::new();
    }

    /// Ranks the files against `query`.
    pub fn search(&mut self, query: &str)
        ensures
            final(self).query@ == query@,
            final(self).visible == old(self).visible,
            final(self).files@ == old(self).files@,
            ranked_ok(final(self).files@, query@, final(self).filtered@),
    {
        self.query = query.to_owned();
        let n = self.files.len();
        if query.is_empty() {
            let mut all: Vec<(usize, i128)> = Vec::new();
            let mut i: usize = 0;
            while i < n
                invariant
                    i <= n,
                    all@ == Seq::new(i as nat, |k: int| (k as usize, 0i128)),
                decreases n - i,
            {
                all.push((i, 0));
                assert(all@ =~= Seq::new((i + 1) as nat, |k: int| (k as usize, 0i128)));
                i = i + 1;
            }
            self.filtered = all;
            return;
        }
        let ghost files = self.files@;
        let mut scored: Vec<(usize, i128)> = Vec::new();
        let mut i: usize = 0;
        while i < n
            invariant
                i <= n,
                n == files.len(),
                files == self.files@,
                forall|k: int|
                    0 <= k < scored@.len() ==> #[trigger] scored@[k].0 < i && file_score(
                        files,
                        query@,
                        scored@[k].0 as int,
                    ) == Some(scored@[k].1 as int),
                forall|j: int|
                    0 <= j < i && (#[trigger] file_score(files, query@, j)) is Some ==> exists|
                        k: int,
                    | 0 <= k < scored@.len() && #[trigger] scored@[k].0 == j,
                forall|k1: int, k2: int|
                    0 <= k1 < k2 < scored@.len() ==> (#[trigger] scored@[k1]).1 > (
                    #[trigger] scored@[k2]).1 || (scored@[k1].1 == scored@[k2].1 && scored@[k1].0
                        < scored@[k2].0),
            decreases n - i,
        {
            if let Some(score) = fuzzy_match(query, self.files[i].as_str()) {
                // after every file scored at least as high
                let mut p: usize = 0;
                while p < scored.len() && scored[p].1 >= score
                    invariant
                        p <= scored@.len(),
                        forall|k: int| 0 <= k < p ==> (#[trigger] scored@[k]).1 >= score,
                    decreases scored@.len() - p,
                {
                    p = p + 1;
                }
                let ghost before = scored@;
                proof {
                    assert forall|k: int| p <= k < before.len() implies (#[trigger] before[k]).1
                        < score by {
                        if k > p {
                            assert(before[p as int].1 > before[k].1 || before[p as int].1
                                == before[k].1);
                        }
                    }
                }
                scored.insert(p, (i, score));
                proof {
                    assert forall|j: int|
                        0 <= j < i + 1 && (#[trigger] file_score(
                            files,
                            query@,
                            j,
                        )) is Some implies exists|k: int|
                        0 <= k < scored@.len() && #[trigger] scored@[k].0 == j by {
                        if j == i {
                            assert(scored@[p as int].0 == j);
                        } else {
                            let k = choose|k: int| 0 <= k < before.len() && #[trigger] before[k].0 == j;
                            if k < p {
                                assert(scored@[k].0 == j);
                            } else {
                                assert(scored@[k + 1].0 == j);
                            }
                        }
                    }
                    assert forall|k1: int, k2: int|
                        0 <= k1 < k2 < scored@.len() implies (#[trigger] scored@[k1]).1 > (
                        #[trigger] scored@[k2]).1 || (scored@[k1].1 == scored@[k2].1
                            && scored@[k1].0 < scored@[k2].0) by {
                        if k1 < p && k2 < p {
                            assert(scored@[k1] == before[k1] && scored@[k2] == before[k2]);
                        } else if k1 < p && k2 == p {
                            assert(scored@[k1] == before[k1]);
                        } else if k1 < p {
                            assert(scored@[k1] == before[k1] && scored@[k2] == before[k2 - 1]);
                        } else if k1 == p {
                            assert(scored@[k2] == before[k2 - 1]);
                        } else {
                            assert(scored@[k1] == before[k1 - 1] && scored@[k2] == before[k2 - 1]);
                        }
                    }
                }
            } else {
                proof {
                    assert forall|j: int|
                        0 <= j < i + 1 && (#[trigger] file_score(
                            files,
                            query@,
                            j,
                        )) is Some implies exists|k: int|
                        0 <= k < scored@.len() && #[trigger] scored@[k].0 == j by {
                        if j < i {
                        }
                    }
                }
            }
            i = i + 1;
        }
        self.filtered = scored;
    }

    /// The path of the `idx`-th file shown.
    pub fn select(&self, idx: usize) -> (r: Option<&str>)
        ensures
            idx < self.filtered@.len() && self.filtered@[idx as int].0 < self.files@.len() ==> (r matches Some(s) && s@ == self.files@[self.filtered@[idx as int].0 as int]@),
            !(idx < self.filtered@.len() && self.filtered@[idx as int].0 < self.files@.len()) ==> r is None,
    {
        if idx < self.filtered.len() {
            let file_idx = self.filtered[idx].0;
            if file_idx < self.files.len() {
                return Some(self.files[file_idx].as_str());
            }
        }
        None
    }
}

/// The picker lists each file at most once.
pub proof fn law_ranked_no_repeats(files: Seq<String>, query: Seq<char>, f: Seq<(usize, i128)>)
    requires
        ranked_ok(files, query, f),
        files.len() <= usize::MAX,
    ensures
        forall|k1: int, k2: int| 0 <= k1 < k2 < f.len() ==> (#[trigger] f[k1]).0 != (#[trigger] f[k2]).0,
{
    assert forall|k1: int, k2: int| 0 <= k1 < k2 < f.len() implies (#[trigger] f[k1]).0 != (#[trigger] f[k2]).0 by {
        if query.len() == 0 {
            assert(f[k1].0 == k1 as usize && f[k2].0 == k2 as usize);
        }
    }
}

} // verus!
