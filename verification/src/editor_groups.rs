//! Editor groups: the panes the editor area is split into, which of them has
//! the focus, and how splitting and closing change that.
use vstd::prelude::*;

verus! {

#[derive(Clone, Copy, Debug, PartialEq, Eq, Structural)]
pub enum SplitDir {
    Horizontal,
    Vertical,
}

/// One editor pane, known by its id.
#[derive(Clone, Copy, Debug, PartialEq, Eq, Structural)]
pub struct EditorGroup {
    pub id: u32,
}

impl EditorGroup {
    pub fn new(id: u32) -> (r: Self)
        ensures
            r.id == id,
    {
        EditorGroup { id }
    }

    /// Focusing a group changes nothing in it.
    pub fn focus(&mut self)
        ensures
            *final(self) == *old(self),
    {
    }
}

pub open spec fn group_ids(groups: Seq<EditorGroup>) -> Seq<u32> {
    groups.map_values(|g: EditorGroup| g.id)
}

/// The first position of a group with id `id` at or after `from`.
pub open spec fn group_position(groups: Seq<EditorGroup>, id: u32, from: int) -> Option<int>
    decreases groups.len() - from,
{
    if from < 0 || from >= groups.len() {
        None
    } else if groups[from].id == id {
        Some(from)
    } else {
        group_position(groups, id, from + 1)
    }
}

pub struct EditorLayout {
    pub groups: Vec<EditorGroup>,
    pub active_group_id: u32,
    pub split_direction: SplitDir,
    /// The id the next new group gets.
    pub next_group_id: u32,
}

impl EditorLayout {
    /// There is always a group; ids are distinct and below the next one
    /// handed out, and the focused id is one of them.
    pub open spec fn wf(&self) -> bool {
        &&& self.groups@.len() > 0
        &&& forall|i: int, j: int|
            0 <= i < j < self.groups@.len() ==> (#[trigger] self.groups@[i]).id != (#[trigger] self.groups@[j]).id
        &&& forall|i: int| 0 <= i < self.groups@.len() ==> (#[trigger] self.groups@[i]).id < self.next_group_id
        &&& group_ids(self.groups@).contains(self.active_group_id)
    }

    /// One group, id 0, focused.
    pub fn new() -> (r: Self)
        ensures
            group_ids(r.groups@) == seq![0u32],
            r.active_group_id == 0,
            r.split_direction == SplitDir::Vertical,
            r.next_group_id == 1,
            r.wf(),
    {
        let mut groups: Vec<EditorGroup> = Vec::new();
        groups.push(EditorGroup::new(0));
        let r = EditorLayout {
            groups,
            active_group_id: 0,
            split_direction: SplitDir::Vertical,
            next_group_id: 1,
        };
        assert(group_ids(r.groups@) =~= seq![0u32]);
        assert(group_ids(r.groups@)[0] == 0);
        r
    }

    /// The position of the group with id `id`.
    pub fn position_of(&self, id: u32) -> (r: Option<usize>)
        ensures
            match r {
                Some(i) => group_position(self.groups@, id, 0) == Some(i as int),
                None => group_position(self.groups@, id, 0) is None,
            },
    {
        let mut i: usize = 0;
        while i < self.groups.len()
            invariant
                i <= self.groups@.len(),
                group_position(self.groups@, id, 0) == group_position(self.groups@, id, i as int),
            decreases self.groups@.len() - i,
        {
            if self.groups[i].id == id {
                return Some(i);
            }
            i = i + 1;
        }
        None
    }

    /// The focused group.
    pub fn active_group_ref(&self) -> (r: Option<&EditorGroup>)
        ensures
            match group_position(self.groups@, self.active_group_id, 0) {
                Some(i) => r == Some(&self.groups@[i]),
                None => r is None,
            },
    {
        match self.position_of(self.active_group_id) {
            Some(i) => {
                proof {
                    lemma_group_position(self.groups@, self.active_group_id, 0);
                }
                Some(&self.groups[i])
            },
            None => None,
        }
    }

    /// Splits the focused group in `direction`: a new group with a fresh id
    /// is added at the end and takes the focus.  Returns the position of the
    /// group that was split, whose area the new group shares; with no
    /// focused group nothing happens.
    pub fn split(&mut self, direction: SplitDir) -> (r: Option<usize>)
        requires
            old(self).next_group_id < u32::MAX,
        ensures
            match group_position(old(self).groups@, old(self).active_group_id, 0) {
                Some(i) => {
                    &&& r == Some(i as usize)
                    &&& final(self).groups@ == old(self).groups@.push(EditorGroup { id: old(self).next_group_id })
                    &&& final(self).active_group_id == old(self).next_group_id
                    &&& final(self).next_group_id == old(self).next_group_id + 1
                },
                None => {
                    &&& r is None
                    &&& final(self).groups@ == old(self).groups@
                    &&& final(self).active_group_id == old(self).active_group_id
                    &&& final(self).next_group_id == old(self).next_group_id
                },
            },
            final(self).split_direction == old(self).split_direction,
            old(self).wf() ==> final(self).wf(),
    {
        let found = self.position_of(self.active_group_id);
        match found {
            Some(i) => {
                let id = self.next_group_id;
                self.groups.push(EditorGroup::new(id));
                self.active_group_id = id;
                self.next_group_id = id + 1;
                proof {
                    let g = self.groups@;
                    assert(g[g.len() - 1].id == id);
                    assert(group_ids(g)[g.len() - 1] == id);
                    assert(old(self).wf() ==> forall|a: int, b: int|
                        0 <= a < b < g.len() ==> (#[trigger] g[a]).id != (#[trigger] g[b]).id) by {
                        if old(self).wf() {
                            assert forall|a: int, b: int| 0 <= a < b < g.len() implies (#[trigger] g[a]).id
                                != (#[trigger] g[b]).id by {
                                if b == g.len() - 1 {
                                    assert(g[a] == old(self).groups@[a]);
                                } else {
                                    assert(g[a] == old(self).groups@[a] && g[b] == old(self).groups@[b]);
                                }
                            }
                        }
                    }
                    assert(old(self).wf() ==> forall|a: int| 0 <= a < g.len() ==> (#[trigger] g[a]).id < id + 1) by {
                        if old(self).wf() {
                            assert forall|a: int| 0 <= a < g.len() implies (#[trigger] g[a]).id < id + 1 by {
                                if a < g.len() - 1 {
                                    assert(g[a] == old(self).groups@[a]);
                                }
                            }
                        }
                    }
                }
                Some(i)
            },
            None => None,
        }
    }

    /// Focuses the group with id `id`, if there is one.
    pub fn focus_group(&mut self, id: u32)
        ensures
            group_ids(old(self).groups@).contains(id) ==> final(self).active_group_id == id,
            !group_ids(old(self).groups@).contains(id) ==> final(self).active_group_id == old(self).active_group_id,
            final(self).groups@ == old(self).groups@,
            final(self).split_direction == old(self).split_direction,
            final(self).next_group_id == old(self).next_group_id,
            old(self).wf() ==> final(self).wf(),
    {
        let found = self.position_of(id);
        proof {
            lemma_group_position(self.groups@, id, 0);
        }
        match found {
            Some(i) => {
                assert(group_ids(self.groups@)[i as int] == id);
                self.active_group_id = id;
            },
            None => {
                assert(!group_ids(self.groups@).contains(id)) by {
                    if group_ids(self.groups@).contains(id) {
                        let k = choose|k: int| 0 <= k < group_ids(self.groups@).len() && group_ids(self.groups@)[k] == id;
                        assert(self.groups@[k].id == id);
                    }
                }
            },
        }
    }

    /// Closes the group with id `id`, unless it is the last one; when it had
    /// the focus, the first remaining group gets it.
    pub fn close_group(&mut self, id: u32)
        ensures
            old(self).groups@.len() <= 1 ==> *final(self) == *old(self),
            old(self).groups@.len() > 1 ==> match group_position(old(self).groups@, id, 0) {
                Some(i) => {
                    &&& final(self).groups@ == old(self).groups@.remove(i)
                    &&& final(self).active_group_id == if old(self).active_group_id == id {
                        final(self).groups@[0].id
                    } else {
                        old(self).active_group_id
                    }
                },
                None => *final(self) == *old(self),
            },
            final(self).split_direction == old(self).split_direction,
            final(self).next_group_id == old(self).next_group_id,
            old(self).wf() ==> final(self).wf(),
    {
        if self.groups.len() <= 1 {
            return;
        }
        let found = self.position_of(id);
        proof {
            lemma_group_position(self.groups@, id, 0);
        }
        match found {
            Some(i) => {
                let ghost before = self.groups@;
                self.groups.remove(i);
                if self.active_group_id == id {
                    self.active_group_id = self.groups[0].id;
                }
                proof {
                    let g = self.groups@;
                    assert(g[0] == g[0]);
                    assert(group_ids(g)[0] == g[0].id);
                    if old(self).wf() {
                        assert forall|a: int, b: int| 0 <= a < b < g.len() implies (#[trigger] g[a]).id
                            != (#[trigger] g[b]).id by {
                            if b < i {
                                assert(g[a] == before[a] && g[b] == before[b]);
                            } else if a < i {
                                assert(g[a] == before[a] && g[b] == before[b + 1]);
                            } else {
                                assert(g[a] == before[a + 1] && g[b] == before[b + 1]);
                            }
                        }
                        assert forall|a: int| 0 <= a < g.len() implies (#[trigger] g[a]).id < self.next_group_id by {
                            if a < i {
                                assert(g[a] == before[a]);
                            } else {
                                assert(g[a] == before[a + 1]);
                            }
                        }
                        if old(self).active_group_id != id {
                            let k = choose|k: int| 0 <= k < group_ids(before).len() && group_ids(before)[k] == old(self).active_group_id;
                            assert(before[k].id == old(self).active_group_id);
                            if k < i {
                                assert(g[k] == before[k]);
                                assert(group_ids(g)[k] == old(self).active_group_id);
                            } else {
                                assert(k != i);
                                assert(g[k - 1] == before[k]);
                                assert(group_ids(g)[k - 1] == old(self).active_group_id);
                            }
                        }
                    }
                }
            },
            None => {},
        }
    }
}

proof fn lemma_group_position(groups: Seq<EditorGroup>, id: u32, from: int)
    requires
        0 <= from,
    ensures
        group_position(groups, id, from) matches Some(k) ==> from <= k < groups.len() && groups[k].id == id,
        group_position(groups, id, from) is None ==> forall|j: int| from <= j < groups.len() ==> groups[j].id != id,
    decreases groups.len() - from,
{
    if from < groups.len() && groups[from].id != id {
        lemma_group_position(groups, id, from + 1);
    }
}

} // verus!
