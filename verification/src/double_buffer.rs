use vstd::prelude::*;

use crate::object_pool::ObjectPool;

verus! {

/// Double buffer for sequential updates of object vectors.
///
/// One vector (the front) is available for reading while the other (the
/// back) is written to. `swap` publishes the back contents as the new front
/// in one step: whatever was appended to the back becomes exactly and
/// entirely the new front, in append order. Retired vectors return to an
/// internal [`ObjectPool`], so steady-state cycles reuse allocations instead
/// of reallocating.
pub struct DoubleBuffer<T> {
    front: Vec<T>,
    back: Vec<T>,
    pool: ObjectPool<T>,
}

impl<T: Clone> DoubleBuffer<T> {
    /// The published, readable contents.
    pub closed spec fn front_view(self) -> Seq<T> {
        self.front@
    }

    /// The in-progress, writable contents.
    pub closed spec fn back_view(self) -> Seq<T> {
        self.back@
    }

    /// The internal pool of retired vectors.
    pub closed spec fn pool_state(self) -> ObjectPool<T> {
        self.pool
    }

    /// Well-formedness: the internal pool is well-formed.
    pub open spec fn wf(self) -> bool {
        self.pool_state().wf()
    }

    /// Create a new double buffer whose internal pool retains at most
    /// `pool_capacity` vectors.
    pub fn new(pool_capacity: usize) -> (r: Self)
        ensures
            r.wf(),
            r.front_view().len() == 0,
            r.back_view().len() == 0,
            r.pool_state().count() == 0,
            r.pool_state().cap() == pool_capacity,
    {
        Self { front: Vec::new(), back: Vec::new(), pool: ObjectPool::new(pool_capacity) }
    }

    /// Get a read-only view of the front (published) buffer.
    pub fn front(&self) -> (r: &[T])
        ensures
            r@ == self.front_view(),
    {
        self.front.as_slice()
    }

    /// Get exclusive mutable access to the back (in-progress) buffer.
    pub fn back_mut(&mut self) -> (r: &mut Vec<T>)
        ensures
            r@ == old(self).back_view(),
            final(self).back_view() == final(r)@,
            final(self).front_view() == old(self).front_view(),
            final(self).pool_state() == old(self).pool_state(),
    {
        &mut self.back
    }

    /// Swap the front and back buffers.
    ///
    /// The former back contents become the new front, immediately visible to
    /// readers; the former front vector is cleared and returned to the pool,
    /// and a (possibly recycled) empty vector becomes the new back.
    pub fn swap(&mut self)
        requires
            old(self).wf(),
        ensures
            final(self).wf(),
            final(self).front_view() == old(self).back_view(),
            final(self).back_view().len() == 0,
            final(self).pool_state().cap() == old(self).pool_state().cap(),
            final(self).pool_state().count() == ObjectPool::<T>::count_after_acquire(
                ObjectPool::<T>::count_after_release(
                    old(self).pool_state().count(),
                    old(self).pool_state().cap() as nat,
                ),
            ),
    {
        core::mem::swap(&mut self.front, &mut self.back);
        // retire the former front (now sitting in `back`) and start a fresh back
        let mut retired: Vec<T> = Vec::new();
        core::mem::swap(&mut retired, &mut self.back);
        self.pool.release(retired);
        self.back = self.pool.acquire();
    }

    /// Clear both buffers: each returns to the pool (cleared), and two
    /// fresh (possibly recycled) empty vectors take their places. The front
    /// is observably empty as soon as the call returns.
    pub fn clear(&mut self)
        requires
            old(self).wf(),
        ensures
            final(self).wf(),
            final(self).front_view().len() == 0,
            final(self).back_view().len() == 0,
            final(self).pool_state().cap() == old(self).pool_state().cap(),
            final(self).pool_state().count() == ObjectPool::<T>::count_after_acquire(
                ObjectPool::<T>::count_after_acquire(
                    ObjectPool::<T>::count_after_release(
                        ObjectPool::<T>::count_after_release(
                            old(self).pool_state().count(),
                            old(self).pool_state().cap() as nat,
                        ),
                        old(self).pool_state().cap() as nat,
                    ),
                ),
            ),
    {
        let mut front: Vec<T> = Vec::new();
        core::mem::swap(&mut front, &mut self.front);
        let mut back: Vec<T> = Vec::new();
        core::mem::swap(&mut back, &mut self.back);
        self.pool.release(front);
        self.pool.release(back);
        self.front = self.pool.acquire();
        self.back = self.pool.acquire();
    }

    /// Get the number of vectors currently retained by the internal pool.
    pub fn pool_available(&self) -> (r: usize)
        ensures
            r == self.pool_state().count(),
    {
        self.pool.available_count()
    }
}

} // verus!
