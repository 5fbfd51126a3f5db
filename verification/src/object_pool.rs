use vstd::prelude::*;

verus! {

/// Object pool for managing reusable vector objects.
///
/// The pool keeps a stack of previously released vectors so that callers can
/// reuse their allocations instead of allocating a fresh vector each cycle.
/// Every retained vector is cleared on release, so an acquired vector is
/// always empty. At most `capacity` vectors are retained; a release beyond
/// that bound silently drops the vector.
pub struct ObjectPool<T> {
    available: Vec<Vec<T>>,
    capacity: usize,
}

impl<T> ObjectPool<T> {
    /// The contents of the retained vectors, in stack order.
    pub closed spec fn stored(self) -> Seq<Seq<T>> {
        self.available@.map_values(|v: Vec<T>| v@)
    }

    /// The number of vectors currently retained.
    pub open spec fn count(self) -> nat {
        self.stored().len()
    }

    /// The configured maximum number of retained vectors.
    pub closed spec fn cap(self) -> usize {
        self.capacity
    }

    /// Well-formedness: every retained vector is empty, and the retained
    /// count never exceeds the configured capacity.
    pub open spec fn wf(self) -> bool {
        &&& self.count() <= self.cap()
        &&& forall|i: int|
            0 <= i < self.stored().len() ==> (#[trigger] self.stored()[i]).len() == 0
    }

    /// The retained count after a release: one more, unless already at
    /// capacity.
    pub open spec fn count_after_release(c: nat, cap: nat) -> nat {
        if c < cap {
            c + 1
        } else {
            c
        }
    }

    /// The retained count after an acquire: one fewer, unless none was
    /// retained.
    pub open spec fn count_after_acquire(c: nat) -> nat {
        if c > 0 {
            (c - 1) as nat
        } else {
            0
        }
    }

    /// Create a new object pool with the specified capacity.
    pub fn new(capacity: usize) -> (r: Self)
        ensures
            r.wf(),
            r.cap() == capacity,
            r.count() == 0,
    {
        Self { available: Vec::with_capacity(capacity), capacity }
    }

    /// Acquire a vector from the pool, or create a new one if none is
    /// available. The returned vector is always empty.
    pub fn acquire(&mut self) -> (r: Vec<T>)
        requires
            old(self).wf(),
        ensures
            final(self).wf(),
            final(self).cap() == old(self).cap(),
            r@.len() == 0,
            final(self).count() == Self::count_after_acquire(old(self).count()),
            old(self).count() > 0 ==> final(self).stored() == old(self).stored().drop_last(),
            old(self).count() == 0 ==> final(self).stored() == old(self).stored(),
    {
        match self.available.pop() {
            Some(v) => {
                proof {
                    assert(self.stored() =~= old(self).stored().drop_last());
                    assert(old(self).stored()[old(self).stored().len() - 1] == v@);
                }
                v
            },
            None => {
                proof {
                    assert(self.stored() =~= old(self).stored());
                }
                Vec::new()
            },
        }
    }

    /// Return a vector to the pool for reuse. The vector is cleared before
    /// being retained; if the pool is already at capacity it is dropped
    /// instead.
    pub fn release(&mut self, vec: Vec<T>)
        requires
            old(self).wf(),
        ensures
            final(self).wf(),
            final(self).cap() == old(self).cap(),
            final(self).count() == Self::count_after_release(
                old(self).count(),
                old(self).cap() as nat,
            ),
            old(self).count() < old(self).cap() ==> final(self).stored() == old(
                self,
            ).stored().push(Seq::<T>::empty()),
            old(self).count() >= old(self).cap() ==> final(self).stored() == old(self).stored(),
    {
        let mut vec = vec;
        if self.available.len() < self.capacity {
            vec.clear();
            self.available.push(vec);
            proof {
                assert(self.stored() =~= old(self).stored().push(Seq::<T>::empty()));
            }
        }
    }

    /// Get the number of vectors currently retained by the pool.
    pub fn available_count(&self) -> (r: usize)
        ensures
            r == self.count(),
    {
        self.available.len()
    }

    /// The retained count of a well-formed pool never exceeds the configured
    /// capacity, no matter how many releases were performed.
    pub proof fn lemma_count_bounded(self)
        requires
            self.wf(),
        ensures
            self.count() <= self.cap(),
    {
    }
}

} // verus!
