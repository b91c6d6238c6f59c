//! Decoded frames waiting to be rendered: one first-in first-out queue per
//! substream of an audio element. A temporal unit is ready when every
//! substream has a frame; rendering takes the oldest frame of each.

use vstd::prelude::*;

use crate::element::FramePcm;
use std::collections::VecDeque;

verus! {

/// The frame queues of one audio element, one per substream.
pub struct FrameQueues<S> {
    queues: Vec<VecDeque<FramePcm<S>>>,
}

impl<S> FrameQueues<S> {
    /// The queued frames of each substream, oldest first.
    pub closed spec fn frames(&self) -> Seq<Seq<FramePcm<S>>> {
        Seq::new(self.queues@.len(), |i: int| self.queues@[i]@)
    }

    /// A temporal unit is complete: every substream has a frame.
    pub open spec fn spec_unit_ready(&self) -> bool {
        forall|i: int| 0 <= i < self.frames().len() ==> #[trigger] self.frames()[i].len() > 0
    }

    /// Empty queues for `substreams` substreams.
    pub fn new(substreams: usize) -> (q: Self)
        ensures
            q.frames() == Seq::new(substreams as nat, |i: int| Seq::<FramePcm<S>>::empty()),
    {
        let mut queues: Vec<VecDeque<FramePcm<S>>> = Vec::new();
        let mut i: usize = 0;
        while i < substreams
            invariant
                i <= substreams,
                queues@.len() == i,
                forall|k: int| 0 <= k < i ==> #[trigger] queues@[k]@ == Seq::<FramePcm<S>>::empty(),
            decreases substreams - i,
        {
            queues.push(VecDeque::new());
            i = i + 1;
        }
        let q = FrameQueues { queues };
        assert(q.frames() =~= Seq::new(substreams as nat, |i: int| Seq::<FramePcm<S>>::empty()));
        q
    }

    /// Number of substreams.
    pub fn substreams(&self) -> (n: usize)
        ensures
            n == self.frames().len(),
    {
        self.queues.len()
    }

    /// Queues a decoded frame of substream `index`.
    pub fn push(&mut self, index: usize, frame: FramePcm<S>)
        requires
            index < old(self).frames().len(),
        ensures
            final(self).frames() == old(self).frames().update(index as int, old(self).frames()[index as int].push(frame)),
    {
        let mut q = VecDeque::new();
        std::mem::swap(&mut q, &mut self.queues[index]);
        q.push_back(frame);
        std::mem::swap(&mut q, &mut self.queues[index]);
        assert(self.frames() =~= old(self).frames().update(index as int, old(self).frames()[index as int].push(frame)));
    }

    /// Queued frames per substream.
    pub fn depths(&self) -> (d: Vec<usize>)
        ensures
            d@.len() == self.frames().len(),
            forall|i: int| 0 <= i < d@.len() ==> #[trigger] d@[i] == self.frames()[i].len(),
    {
        let mut d: Vec<usize> = Vec::new();
        let mut i: usize = 0;
        while i < self.queues.len()
            invariant
                i <= self.queues@.len(),
                d@.len() == i,
                forall|k: int| 0 <= k < i ==> #[trigger] d@[k] == self.frames()[k].len(),
            decreases self.queues.len() - i,
        {
            d.push(self.queues[i].len());
            i = i + 1;
        }
        d
    }

    /// Whether a temporal unit is complete.
    pub fn unit_ready(&self) -> (b: bool)
        ensures
            b == self.spec_unit_ready(),
    {
        let mut i: usize = 0;
        while i < self.queues.len()
            invariant
                i <= self.queues@.len(),
                forall|k: int| 0 <= k < i ==> #[trigger] self.frames()[k].len() > 0,
            decreases self.queues.len() - i,
        {
            if self.queues[i].len() == 0 {
                assert(self.frames()[i as int].len() == 0);
                return false;
            }
            i = i + 1;
        }
        true
    }

    /// Takes the oldest frame of every substream (a complete temporal
    /// unit), in substream order.
    pub fn pop_unit(&mut self) -> (unit: Vec<FramePcm<S>>)
        requires
            old(self).spec_unit_ready(),
        ensures
            unit@.len() == old(self).frames().len(),
            forall|i: int| 0 <= i < unit@.len() ==> #[trigger] unit@[i] == old(self).frames()[i][0],
            final(self).frames().len() == old(self).frames().len(),
            forall|i: int|
                0 <= i < final(self).frames().len() ==> #[trigger] final(self).frames()[i] == old(self).frames()[i].subrange(
                    1,
                    old(self).frames()[i].len() as int,
                ),
    {
        let mut unit: Vec<FramePcm<S>> = Vec::new();
        let mut i: usize = 0;
        assert forall|k: int| 0 <= k < old(self).queues@.len() implies #[trigger] old(self).queues@[k]@.len() > 0 by {
            assert(old(self).frames()[k].len() > 0);
        }
        while i < self.queues.len()
            invariant
                i <= self.queues@.len(),
                self.queues@.len() == old(self).queues@.len(),
                unit@.len() == i,
                forall|k: int| 0 <= k < i ==> #[trigger] unit@[k] == old(self).queues@[k]@[0],
                forall|k: int|
                    0 <= k < i ==> #[trigger] self.queues@[k]@ == old(self).queues@[k]@.subrange(
                        1,
                        old(self).queues@[k]@.len() as int,
                    ),
                forall|k: int| i <= k < self.queues@.len() ==> #[trigger] self.queues@[k] == old(self).queues@[k],
                forall|k: int| 0 <= k < old(self).queues@.len() ==> #[trigger] old(self).queues@[k]@.len() > 0,
            decreases self.queues.len() - i,
        {
            let mut q = VecDeque::new();
            std::mem::swap(&mut q, &mut self.queues[i]);
            let frame = match q.pop_front() {
                Some(f) => f,
                None => {
                    assert(false);
                    return unit;
                },
            };
            std::mem::swap(&mut q, &mut self.queues[i]);
            unit.push(frame);
            i = i + 1;
        }
        assert(forall|k: int| 0 <= k < old(self).queues@.len() ==> #[trigger] old(self).frames()[k] == old(self).queues@[k]@);
        unit
    }

    /// Drops every queued frame.
    pub fn clear(&mut self)
        ensures
            final(self).frames().len() == old(self).frames().len(),
            forall|i: int| 0 <= i < final(self).frames().len() ==> #[trigger] final(self).frames()[i].len() == 0,
    {
        let mut i: usize = 0;
        while i < self.queues.len()
            invariant
                i <= self.queues@.len(),
                self.queues@.len() == old(self).queues@.len(),
                forall|k: int| 0 <= k < i ==> #[trigger] self.queues@[k]@.len() == 0,
            decreases self.queues.len() - i,
        {
            let mut q = VecDeque::new();
            std::mem::swap(&mut q, &mut self.queues[i]);
            q.clear();
            std::mem::swap(&mut q, &mut self.queues[i]);
            i = i + 1;
        }
    }
}

/// Whether a complete temporal unit is ready across a mix: there is at
/// least one element, and every element has a frame on every substream.
pub fn is_temporal_unit_available<S>(slots: &Vec<FrameQueues<S>>) -> (b: bool)
    ensures
        b == (slots@.len() > 0 && forall|i: int| 0 <= i < slots@.len() ==> #[trigger] slots@[i].spec_unit_ready()),
{
    if slots.len() == 0 {
        return false;
    }
    let mut i: usize = 0;
    while i < slots.len()
        invariant
            i <= slots@.len(),
            forall|k: int| 0 <= k < i ==> #[trigger] slots@[k].spec_unit_ready(),
        decreases slots.len() - i,
    {
        if !slots[i].unit_ready() {
            return false;
        }
        i = i + 1;
    }
    true
}

} // verus!
