//! The batch of rectangles drawn in one frame.  The batch does not look
//! into a rectangle, so it holds any kind of it.
use vstd::prelude::*;

verus! {

pub struct RenderBatch<R> {
    pub rects: Vec<R>,
}

impl<R: Copy> RenderBatch<R> {
    pub fn new() -> (r: Self)
        ensures
            r.rects@.len() == 0,
    {
        RenderBatch { rects: Vec::with_capacity(2048) }
    }

    pub fn clear(&mut self)
        ensures
            final(self).rects@.len() == 0,
    {
        self.rects.clear();
    }

    /// Adds `rect` after those already there.
    pub fn push(&mut self, rect: R)
        ensures
            final(self).rects@ == old(self).rects@.push(rect),
    {
        self.rects.push(rect);
    }

    /// Adds `rects`, in order, after those already there.
    pub fn extend(&mut self, rects: &[R])
        ensures
            final(self).rects@ == old(self).rects@ + rects@,
    {
        let mut i: usize = 0;
        while i < rects.len()
            invariant
                i <= rects@.len(),
                self.rects@ == old(self).rects@ + rects@.take(i as int),
            decreases rects@.len() - i,
        {
            self.rects.push(rects[i]);
            assert(rects@.take(i + 1) == rects@.take(i as int).push(rects@[i as int]));
            i = i + 1;
        }
        assert(rects@.take(rects@.len() as int) == rects@);
    }
}

} // verus!
