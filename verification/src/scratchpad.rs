//! The scratchpad: an arena of named value buffers shared by the operators
//! of one partition-query execution.

use vstd::prelude::*;

use crate::val::{RawVal, ValView};

verus! {

/// The views of a buffer's values.
pub open spec fn vals_view(v: Seq<RawVal>) -> Seq<ValView> {
    v.map_values(|x: RawVal| x@)
}

/// An arena of value buffers, addressed by buffer id.  A buffer may be
/// pinned so that its contents survive into the query's result after the
/// scratchpad is dropped.
#[derive(Debug)]
pub struct Scratchpad {
    pub buffers: Vec<Vec<RawVal>>,
    pub pinned: Vec<bool>,
}

/// The scratchpad's buffers and pin marks stay in step.
pub open spec fn scratchpad_wf(s: Scratchpad) -> bool {
    s.buffers@.len() == s.pinned@.len()
}

impl Scratchpad {
    /// A scratchpad with `n` empty, unpinned buffers.
    pub fn new(n: usize) -> (r: Scratchpad)
        ensures
            scratchpad_wf(r),
            r.buffers@.len() == n,
            forall|i: int| 0 <= i < n ==> vals_view((#[trigger] r.buffers@[i])@) == Seq::<
                ValView,
            >::empty(),
            forall|i: int| 0 <= i < n ==> !(#[trigger] r.pinned@[i]),
    {
        let mut buffers: Vec<Vec<RawVal>> = Vec::new();
        let mut pinned: Vec<bool> = Vec::new();
        let mut i: usize = 0;
        while i < n
            invariant
                buffers@.len() == i,
                pinned@.len() == i,
                0 <= i <= n,
                forall|k: int| 0 <= k < i ==> (#[trigger] buffers@[k])@.len() == 0,
                forall|k: int| 0 <= k < i ==> !(#[trigger] pinned@[k]),
            decreases n - i,
        {
            buffers.push(Vec::new());
            pinned.push(false);
            i += 1;
        }
        proof {
            assert forall|k: int| 0 <= k < n implies vals_view((#[trigger] buffers@[k])@) == Seq::<
                ValView,
            >::empty() by {
                assert(vals_view(buffers@[k]@) =~= Seq::<ValView>::empty());
            }
        }
        Scratchpad { buffers, pinned }
    }

    /// The number of buffers.
    pub fn len(&self) -> (r: usize)
        ensures
            r == self.buffers@.len(),
    {
        self.buffers.len()
    }

    /// Read access to buffer `i`.
    pub fn get(&self, i: usize) -> (r: &Vec<RawVal>)
        requires
            i < self.buffers@.len(),
        ensures
            r == self.buffers@[i as int],
    {
        &self.buffers[i]
    }

    /// Replaces the contents of buffer `i`.
    pub fn set(&mut self, i: usize, data: Vec<RawVal>)
        requires
            i < old(self).buffers@.len(),
        ensures
            scratchpad_wf(*old(self)) ==> scratchpad_wf(*final(self)),
            final(self).buffers@ == old(self).buffers@.update(i as int, data),
            final(self).pinned@ == old(self).pinned@,
    {
        self.buffers.set(i, data);
    }

    /// Pins buffer `i`: its contents will be carried into the result.
    pub fn pin(&mut self, i: usize)
        requires
            scratchpad_wf(*old(self)),
            i < old(self).buffers@.len(),
        ensures
            scratchpad_wf(*final(self)),
            final(self).buffers@ == old(self).buffers@,
            final(self).pinned@ == old(self).pinned@.update(i as int, true),
    {
        self.pinned.set(i, true);
    }
}

} // verus!
