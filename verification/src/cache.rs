use vstd::prelude::*;

use crate::entity::Index;

verus! {

/// A LIFO of free indices awaiting reuse.
///
/// The backing vector may be longer than the logical length: popping only
/// moves the length indicator down and leaves the slot in place. `maintain`
/// reconciles the vector with the indicator, and `extend` (called only with
/// exclusive access) maintains first, then appends.
///
/// The view of the cache is its logical content: the prefix of the backing
/// vector up to the length indicator.
pub struct EntityCache {
    cache: Vec<Index>,
    len: usize,
}

impl View for EntityCache {
    type V = Seq<Index>;

    closed spec fn view(&self) -> Seq<Index> {
        self.cache@.take(self.len as int)
    }
}

impl EntityCache {
    /// The length indicator never runs past the backing vector.
    pub closed spec fn wf(self) -> bool {
        self.len <= self.cache.len()
    }

    /// Creates an empty cache.
    pub fn new() -> (r: EntityCache)
        ensures
            r.wf(),
            r@ == Seq::<Index>::empty(),
    {
        EntityCache { cache: Vec::new(), len: 0 }
    }

    /// Pops the most recently freed index, if any. Only the length indicator
    /// moves; the backing vector keeps the slot until the next `maintain`.
    pub fn pop_atomic(&mut self) -> (r: Option<Index>)
        requires
            old(self).wf(),
        ensures
            final(self).wf(),
            old(self)@.len() == 0 ==> r is None && final(self)@ == old(self)@,
            old(self)@.len() > 0 ==> r == Some(old(self)@.last()) && final(self)@ == old(
                self,
            )@.drop_last(),
    {
        if self.len != 0 {
            self.len = self.len - 1;
            let r = self.cache[self.len];
            proof {
                assert(self@ =~= old(self)@.drop_last());
            }
            Some(r)
        } else {
            None
        }
    }

    /// The most recently freed index, if any, without removing it.
    pub fn last(&self) -> (r: Option<Index>)
        requires
            self.wf(),
        ensures
            self@.len() == 0 ==> r is None,
            self@.len() > 0 ==> r == Some(self@.last()),
    {
        if self.len != 0 {
            Some(self.cache[self.len - 1])
        } else {
            None
        }
    }

    /// Truncates the backing vector to the length indicator, reconciling
    /// speculative pops that left their slot in place.
    pub fn maintain(&mut self)
        requires
            old(self).wf(),
        ensures
            final(self).wf(),
            final(self)@ == old(self)@,
    {
        let len = self.len;
        self.cache.truncate(len);
        proof {
            assert(self@ =~= old(self)@);
        }
    }

    /// Appends the given freed indices and publishes the new length.
    pub fn extend(&mut self, items: &Vec<Index>)
        requires
            old(self).wf(),
        ensures
            final(self).wf(),
            final(self)@ == old(self)@ + items@,
    {
        let len = self.len;
        self.cache.truncate(len);
        let ghost base = self@;
        proof {
            assert(self.cache@ =~= base);
        }
        let mut k: usize = 0;
        while k < items.len()
            invariant
                k <= items@.len(),
                self.len <= self.cache@.len(),
                self.cache@ == base + items@.take(k as int),
                self@ == base,
                base.len() == self.len,
            decreases items@.len() - k,
        {
            self.cache.push(items[k]);
            k = k + 1;
            proof {
                assert(self.cache@ =~= base + items@.take(k as int));
                assert(self@ =~= base);
            }
        }
        self.len = self.cache.len();
        proof {
            assert(items@.take(items@.len() as int) =~= items@);
            assert(self@ =~= base + items@);
        }
    }
}

impl Default for EntityCache {
    /// An empty cache.
    fn default() -> (r: EntityCache)
        ensures
            r.wf(),
            r@ == Seq::<Index>::empty(),
    {
        EntityCache::new()
    }
}

} // verus!
