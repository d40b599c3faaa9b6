use vstd::prelude::*;
use std::ops::Range;

verus! {

/// An append-only sequence of non-decreasing 64-bit values, used as an
/// offset table.
pub struct MonotonicIndex {
    values: Vec<u64>,
}

/// Every value is at least as large as every value before it.
pub open spec fn non_decreasing(s: Seq<u64>) -> bool {
    forall|i: int, j: int| 0 <= i <= j < s.len() ==> s[i] <= s[j]
}

impl View for MonotonicIndex {
    type V = Seq<u64>;

    closed spec fn view(&self) -> Seq<u64> {
        self.values@
    }
}

impl MonotonicIndex {
    pub closed spec fn wf(&self) -> bool {
        non_decreasing(self.values@)
    }

    /// The largest value, or zero while the index is empty.
    pub open spec fn spec_last(&self) -> u64 {
        if self@.len() == 0 { 0 } else { self@.last() }
    }

    pub fn new() -> (r: MonotonicIndex)
        ensures
            r.wf(),
            r@ == Seq::<u64>::empty(),
    {
        MonotonicIndex { values: Vec::new() }
    }

    pub proof fn lemma_wf(&self)
        requires
            self.wf(),
        ensures
            non_decreasing(self@),
    {
    }

    pub fn push(&mut self, value: u64)
        requires
            old(self).wf(),
            old(self)@.len() == 0 || old(self)@.last() <= value,
        ensures
            final(self).wf(),
            final(self)@ == old(self)@.push(value),
    {
        self.values.push(value);
        assert(non_decreasing(self.values@)) by {
            assert forall|i: int, j: int| 0 <= i <= j < self.values@.len() implies
                self.values@[i] <= self.values@[j] by {
                if j < self.values@.len() - 1 {
                    assert(old(self).values@[i] <= old(self).values@[j]);
                } else if i < j {
                    assert(old(self).values@[i] <= old(self).values@.last());
                }
            }
        }
    }

    pub fn len(&self) -> (r: u64)
        ensures
            r == self@.len(),
    {
        self.values.len() as u64
    }

    pub fn get(&self, i: u64) -> (r: u64)
        requires
            i < self@.len(),
        ensures
            r == self@[i as int],
    {
        let n = self.values.len();
        assert(i < n);
        self.values[i as usize]
    }

    /// The values at positions `range.start..range.end`.
    pub fn get_range(&self, range: Range<u64>) -> (r: Vec<u64>)
        requires
            range.start <= range.end <= self@.len(),
        ensures
            r@ == self@.subrange(range.start as int, range.end as int),
    {
        let mut r: Vec<u64> = Vec::new();
        let mut i: u64 = range.start;
        let n = self.values.len();
        while i < range.end
            invariant
                range.start <= i <= range.end <= self@.len(),
                n == self.values@.len(),
                r@ == self@.subrange(range.start as int, i as int),
            decreases range.end - i,
        {
            r.push(self.values[i as usize]);
            assert(r@ =~= self@.subrange(range.start as int, i + 1));
            i = i + 1;
        }
        r
    }

    /// The number of stored entries; each value takes one.
    pub fn entry_count(&self) -> (r: u64)
        ensures
            r == self@.len(),
    {
        self.values.len() as u64
    }

    /// The bytes that the values take, eight for each, or `u64::MAX` where
    /// that does not fit.
    pub open spec fn spec_size(&self) -> u64 {
        if self@.len() * 8 <= u64::MAX { (self@.len() * 8) as u64 } else { u64::MAX }
    }

    pub fn size(&self) -> (r: u64)
        ensures
            r == self.spec_size(),
    {
        let n = self.values.len() as u64;
        if n > u64::MAX / 8 { u64::MAX } else { n * 8 }
    }
}

/// The bounds of entry `id` of an offset table: from its own value to the
/// next entry's, or to `length` for the last entry.
pub open spec fn index_range(index: Seq<u64>, length: u64, id: int) -> (u64, u64) {
    if id + 1 < index.len() {
        (index[id], index[id + 1])
    } else {
        (index[id], length)
    }
}

pub fn get_index_range(index: &MonotonicIndex, length: u64, id: u64) -> (r: Range<u64>)
    requires
        id < index@.len(),
    ensures
        (r.start, r.end) == index_range(index@, length, id as int),
{
    if id >= index.len() - 1 {
        let start = index.get(id);
        start..length
    } else {
        let start = index.get(id);
        let end = index.get(id + 1);
        start..end
    }
}

} // verus!
