//! What the buffer keeps count of: the length of the text and the raw
//! indices of its linebreaks, in rising order.

use vstd::prelude::*;
use crate::sorted::{insert_sorted, lemma_rank_splits, lower_bound, rank, rising};

verus! {

/// The length of the text and the index of its linebreaks.
pub struct Metrics {
    length: usize,
    new_lines_order: Vec<usize>,
}

impl View for Metrics {
    type V = Seq<usize>;

    /// The raw indices of the linebreaks, in the order they are kept in.
    closed spec fn view(&self) -> Seq<usize> {
        self.new_lines_order@
    }
}

impl Metrics {
    /// The index rises strictly.
    pub open spec fn wf(&self) -> bool {
        rising(self@)
    }

    /// The length of the text that is kept count of.
    pub closed spec fn length(&self) -> usize {
        self.length
    }

    /// Metrics of an empty text.
    pub fn new() -> (m: Self)
        ensures
            m.wf(),
            m@ == Seq::<usize>::empty(),
            m.length() == 0,
    {
        Metrics { length: 0, new_lines_order: Vec::new() }
    }

    /// The number of linebreaks below `gap_index`: the place where
    /// `gap_index` stands in the index, or would stand.
    pub fn position_of(&self, gap_index: usize) -> (p: usize)
        requires
            self.wf(),
        ensures
            p == rank(self@, gap_index),
            p <= self@.len(),
    {
        lower_bound(&self.new_lines_order, gap_index)
    }

    /// Register a linebreak at raw index `gap_index`. One that is there
    /// already is not registered twice.
    pub fn set_linebreak_raw(&mut self, gap_index: usize)
        requires
            old(self).wf(),
        ensures
            final(self).wf(),
            final(self).length() == old(self).length(),
            final(self)@ == if old(self)@.contains(gap_index) {
                old(self)@
            } else {
                old(self)@.insert(rank(old(self)@, gap_index), gap_index)
            },
    {
        insert_sorted(&mut self.new_lines_order, gap_index);
    }

    /// Take the linebreak at raw index `gap_index` from the index, if it is there.
    pub fn remove_linebreak_raw(&mut self, gap_index: usize)
        requires
            old(self).wf(),
        ensures
            final(self).wf(),
            final(self).length() == old(self).length(),
            final(self)@ == if old(self)@.contains(gap_index) {
                old(self)@.remove(rank(old(self)@, gap_index))
            } else {
                old(self)@
            },
    {
        let p = self.position_of(gap_index);
        proof {
            lemma_rank_splits(self@, gap_index);
        }
        if p < self.new_lines_order.len() && self.new_lines_order[p] == gap_index {
            assert(self@[p as int] == gap_index);
            self.remove_linebreak_order(p);
        } else {
            assert(!self@.contains(gap_index)) by {
                if self@.contains(gap_index) {
                    let w = choose|w: int| 0 <= w < self@.len() && self@[w] == gap_index;
                    if w > p {
                        assert(self@[p as int] < self@[w]);
                    }
                }
            }
        }
    }

    /// Take the linebreak that stands at place `order` from the index.
    pub fn remove_linebreak_order(&mut self, order: usize)
        requires
            old(self).wf(),
            order < old(self)@.len(),
        ensures
            final(self).wf(),
            final(self).length() == old(self).length(),
            final(self)@ == old(self)@.remove(order as int),
    {
        let ghost before = self@;
        self.new_lines_order.remove(order);
        assert(rising(self@)) by {
            assert forall|i: int, j: int| 0 <= i < j < self@.len() implies self@[i] < self@[j] by {
                let a = if i < order { i } else { i + 1 };
                let b = if j < order { j } else { j + 1 };
                assert(before[a] < before[b]);
            }
        }
    }

    /// Replace the linebreak that stands at place `order` by one at raw
    /// index `gap_index`, which must not carry it past its neighbours.
    pub fn move_linebreak(&mut self, order: usize, gap_index: usize)
        requires
            old(self).wf(),
            order < old(self)@.len(),
            order > 0 ==> old(self)@[order - 1] < gap_index,
            order + 1 < old(self)@.len() ==> gap_index < old(self)@[order + 1],
        ensures
            final(self).wf(),
            final(self).length() == old(self).length(),
            final(self)@ == old(self)@.update(order as int, gap_index),
    {
        let ghost before = self@;
        self.new_lines_order.set(order, gap_index);
        assert(rising(self@)) by {
            assert forall|i: int, j: int| 0 <= i < j < self@.len() implies self@[i] < self@[j] by {
                if i == order {
                    if j > order + 1 {
                        assert(before[order + 1] < before[j]);
                    }
                } else if j == order {
                    if i < order - 1 {
                        assert(before[i] < before[order - 1]);
                    }
                } else {
                    assert(before[i] < before[j]);
                }
            }
        }
    }

    /// Move every linebreak from place `order` on by `delta` cells.
    pub fn shift_from(&mut self, order: usize, delta: usize)
        requires
            old(self).wf(),
            order <= old(self)@.len(),
            forall|i: int| order <= i < old(self)@.len() ==> old(self)@[i] + delta <= usize::MAX,
        ensures
            final(self).wf(),
            final(self).length() == old(self).length(),
            final(self)@.len() == old(self)@.len(),
            forall|i: int| 0 <= i < order ==> final(self)@[i] == old(self)@[i],
            forall|i: int|
                order <= i < old(self)@.len() ==> final(self)@[i] == old(self)@[i] + delta,
    {
        let ghost before = self@;
        let mut i: usize = order;
        while i < self.new_lines_order.len()
            invariant
                order <= i <= before.len(),
                self@.len() == before.len(),
                self.length() == old(self).length(),
                rising(before),
                forall|k: int| order <= k < before.len() ==> before[k] + delta <= usize::MAX,
                forall|k: int| 0 <= k < order ==> self@[k] == before[k],
                forall|k: int| order <= k < i ==> self@[k] == before[k] + delta,
                forall|k: int| i <= k < before.len() ==> self@[k] == before[k],
            decreases before.len() - i,
        {
            assert(self@[i as int] == before[i as int]);
            let moved = self.new_lines_order[i] + delta;
            self.new_lines_order.set(i, moved);
            i += 1;
        }
        assert(rising(self@)) by {
            assert forall|a: int, b: int| 0 <= a < b < self@.len() implies self@[a] < self@[b] by {
                assert(before[a] < before[b]);
            }
        }
    }

    /// The length of the text.
    pub fn get_length(&self) -> (length: usize)
        ensures
            length == self.length(),
    {
        self.length
    }

    /// Keep `length` as the length of the text.
    pub fn set_length(&mut self, length: usize)
        ensures
            final(self).length() == length,
            final(self)@ == old(self)@,
    {
        self.length = length;
    }

    /// The raw indices of the linebreaks, in rising order.
    pub fn get_new_line_order(&self) -> (order: &Vec<usize>)
        ensures
            order@ == self@,
    {
        &self.new_lines_order
    }
}

} // verus!
