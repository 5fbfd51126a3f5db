use vstd::prelude::*;

use crate::is_default_value;

verus! {

/// The number of slots covered by a half-open index range.
pub open spec fn range_len(r: (usize, usize)) -> int {
    r.1 - r.0
}

/// Two half-open index ranges share no slot. An empty range is disjoint from
/// every range, itself included.
pub open spec fn ranges_disjoint(a: (usize, usize), b: (usize, usize)) -> bool {
    a.1 <= b.0 || b.1 <= a.0 || a.0 >= a.1 || b.0 >= b.1
}

/// Range `i` of `free` is large enough to serve a request of `size` slots.
pub open spec fn fits(free: Seq<(usize, usize)>, size: int, i: int) -> bool {
    0 <= i < free.len() && range_len(free[i]) >= size
}

/// Range `i` of `free` is the first one large enough for `size` slots.
pub open spec fn is_first_fit(free: Seq<(usize, usize)>, size: int, i: int) -> bool {
    fits(free, size, i) && forall|j: int| 0 <= j < i ==> range_len(#[trigger] free[j]) < size
}

/// Flat object pool: a single contiguous buffer with first-fit reuse of
/// released `(begin, end)` ranges.
///
/// The pool hands out half-open index ranges into one growable backing
/// buffer. Released ranges are cleared to the element type's default value
/// and remembered in a bounded free list; an acquire scans that list in
/// insertion order and takes the first range that is large enough, splitting
/// off any leftover suffix. When nothing fits, the buffer grows by exactly
/// the requested amount.
pub struct FlatObjectPool<T> {
    buffer: Vec<T>,
    free_ranges: Vec<(usize, usize)>,
    capacity: usize,
}

impl<T> FlatObjectPool<T> {
    /// The contents of the backing buffer.
    pub closed spec fn buf(self) -> Seq<T> {
        self.buffer@
    }

    /// The free ranges currently available for reuse, in insertion order.
    pub closed spec fn free_list(self) -> Seq<(usize, usize)> {
        self.free_ranges@
    }

    /// The configured maximum number of retained free ranges.
    pub closed spec fn cap(self) -> usize {
        self.capacity
    }

    /// Well-formedness: every free range is non-empty and lies within the
    /// buffer, and the free list never exceeds the configured capacity.
    pub open spec fn wf(self) -> bool {
        &&& self.free_list().len() <= self.cap()
        &&& forall|i: int|
            0 <= i < self.free_list().len() ==> (#[trigger] self.free_list()[i]).0
                < self.free_list()[i].1 && self.free_list()[i].1 <= self.buf().len()
    }

    /// The free list of a well-formed pool never exceeds the configured
    /// capacity, no matter how many releases were performed.
    pub proof fn lemma_free_list_bounded(self)
        requires
            self.wf(),
        ensures
            self.free_list().len() <= self.cap(),
    {
    }
}

impl<T: Default + Clone> FlatObjectPool<T> {
    /// How `acquire(size)` with result `r` transforms the pool.
    ///
    /// If some free range fits the request, the first such range is removed;
    /// its prefix of length `size` is returned, and a non-empty leftover
    /// suffix is re-appended to the free list when the capacity allows it
    /// (otherwise the leftover is dropped). If nothing fits, the buffer grows
    /// by exactly `size` default-valued slots and the new suffix is returned.
    pub open spec fn acquire_spec(pre: Self, post: Self, size: usize, r: (usize, usize)) -> bool {
        &&& post.cap() == pre.cap()
        &&& (forall|i: int|
            is_first_fit(pre.free_list(), size as int, i) ==> {
                let b = (#[trigger] pre.free_list()[i]).0;
                let e = pre.free_list()[i].1;
                &&& r.0 == b
                &&& r.1 == b + size
                &&& post.buf() == pre.buf()
                &&& post.free_list() == (if e - b > size && pre.free_list().len() <= pre.cap() {
                    pre.free_list().remove(i).push((((b + size) as usize), e))
                } else {
                    pre.free_list().remove(i)
                })
            })
        &&& ((forall|i: int| !is_first_fit(pre.free_list(), size as int, i)) ==> {
            &&& r.0 == pre.buf().len()
            &&& r.1 == pre.buf().len() + size
            &&& post.free_list() == pre.free_list()
            &&& post.buf().len() == pre.buf().len() + size
            &&& (forall|j: int| 0 <= j < pre.buf().len() ==> post.buf()[j] == pre.buf()[j])
            &&& (forall|j: int|
                pre.buf().len() <= j < post.buf().len() ==> is_default_value(
                    #[trigger] post.buf()[j],
                ))
        })
    }

    /// How `release(begin, end)` transforms the pool.
    ///
    /// An invalid range is silently ignored. Otherwise every slot of the
    /// range is overwritten with the default value, and the range is
    /// appended to the free list when the capacity allows it.
    pub open spec fn release_spec(pre: Self, post: Self, begin: usize, end: usize) -> bool {
        &&& post.cap() == pre.cap()
        &&& if begin >= end || end > pre.buf().len() {
            &&& post.buf() == pre.buf()
            &&& post.free_list() == pre.free_list()
        } else {
            &&& post.buf().len() == pre.buf().len()
            &&& (forall|j: int| begin <= j < end ==> is_default_value(#[trigger] post.buf()[j]))
            &&& (forall|j: int|
                0 <= j < pre.buf().len() && !(begin <= j < end) ==> post.buf()[j] == pre.buf()[j])
            &&& post.free_list() == (if pre.free_list().len() < pre.cap() {
                pre.free_list().push((begin, end))
            } else {
                pre.free_list()
            })
        }
    }

    /// How `set(index, value)` transforms the pool: the buffer grows with
    /// default-valued slots when the index lies beyond it, and the slot at
    /// `index` is overwritten with `value`.
    pub open spec fn set_spec(pre: Self, post: Self, index: usize, value: T) -> bool {
        &&& post.cap() == pre.cap()
        &&& post.free_list() == pre.free_list()
        &&& post.buf().len() == (if index < pre.buf().len() {
            pre.buf().len() as int
        } else {
            index + 1
        })
        &&& post.buf()[index as int] == value
        &&& (forall|j: int|
            0 <= j < pre.buf().len() && j != index ==> post.buf()[j] == pre.buf()[j])
        &&& (forall|j: int|
            pre.buf().len() <= j < post.buf().len() && j != index ==> is_default_value(
                #[trigger] post.buf()[j],
            ))
    }

    /// Create a new flat object pool with the specified buffer size and
    /// free-list capacity. Every slot starts out holding the default value,
    /// and the free list starts out empty.
    pub fn new(buffer_size: usize, capacity: usize) -> (r: Self)
        ensures
            r.wf(),
            r.cap() == capacity,
            r.buf().len() == buffer_size,
            r.free_list().len() == 0,
            forall|j: int| 0 <= j < buffer_size ==> is_default_value(#[trigger] r.buf()[j]),
    {
        let mut buffer: Vec<T> = Vec::with_capacity(buffer_size);
        while buffer.len() < buffer_size
            invariant
                buffer@.len() <= buffer_size,
                forall|j: int| 0 <= j < buffer@.len() ==> is_default_value(#[trigger] buffer@[j]),
            decreases buffer_size - buffer@.len(),
        {
            buffer.push(T::default());
        }
        Self { buffer, free_ranges: Vec::with_capacity(capacity), capacity }
    }

    /// Acquire a range of `size` slots from the pool.
    ///
    /// Returns the `(begin, end)` indices of the acquired range: the prefix
    /// of the first free range that fits, or a fresh suffix of the grown
    /// buffer when none does.
    pub fn acquire(&mut self, size: usize) -> (r: (usize, usize))
        requires
            old(self).wf(),
            old(self).buf().len() + size <= usize::MAX,
        ensures
            final(self).wf(),
            Self::acquire_spec(*old(self), *final(self), size, r),
            r.0 <= r.1 <= final(self).buf().len(),
            r.1 - r.0 == size,
    {
        let ghost pre = *self;
        let n: usize = self.free_ranges.len();
        let mut i: usize = 0;
        while i < n
            invariant
                pre == *old(self),
                *self == pre,
                pre.wf(),
                n == pre.free_list().len(),
                i <= n,
                forall|j: int| 0 <= j < i ==> range_len(#[trigger] pre.free_list()[j]) < size,
            decreases n - i,
        {
            let (begin, end) = self.free_ranges[i];
            let range_size = end - begin;
            if range_size >= size {
                proof {
                    assert(is_first_fit(pre.free_list(), size as int, i as int));
                }
                self.free_ranges.remove(i);
                if range_size > size {
                    let new_begin = begin + size;
                    if self.free_ranges.len() < self.capacity {
                        self.free_ranges.push((new_begin, end));
                    }
                }
                proof {
                    let fi = i as int;
                    assert forall|k: int|
                        is_first_fit(pre.free_list(), size as int, k) implies k == fi by {
                        if k < fi {
                            assert(range_len(pre.free_list()[k]) < size);
                        } else if k > fi {
                            assert(range_len(pre.free_list()[fi]) < size);
                        }
                    }
                    pre.free_list().remove_ensures(fi);
                    assert forall|k: int|
                        0 <= k < self.free_list().len() implies (
                        #[trigger] self.free_list()[k]).0 < self.free_list()[k].1
                        && self.free_list()[k].1 <= self.buf().len() by {
                        if k < pre.free_list().remove(fi).len() {
                            assert(self.free_list()[k] == pre.free_list().remove(fi)[k]);
                        }
                    }
                    assert(Self::acquire_spec(pre, *self, size, (begin, (begin + size) as usize)));
                }
                return (begin, begin + size);
            }
            i += 1;
        }
        let begin = self.buffer.len();
        let end = begin + size;
        while self.buffer.len() < end
            invariant
                pre == *old(self),
                pre.wf(),
                self.free_list() == pre.free_list(),
                self.cap() == pre.cap(),
                pre.buf().len() <= self.buf().len() <= end,
                end == pre.buf().len() + size,
                forall|j: int| 0 <= j < pre.buf().len() ==> self.buf()[j] == pre.buf()[j],
                forall|j: int|
                    pre.buf().len() <= j < self.buf().len() ==> is_default_value(
                        #[trigger] self.buf()[j],
                    ),
            decreases end - self.buf().len(),
        {
            self.buffer.push(T::default());
        }
        (begin, end)
    }

    /// Release a range back to the pool for reuse.
    ///
    /// An invalid range (`begin >= end` or `end` beyond the buffer) is
    /// silently ignored. Otherwise the slots are cleared to the default
    /// value, and the range joins the free list if the capacity allows.
    pub fn release(&mut self, begin: usize, end: usize)
        requires
            old(self).wf(),
        ensures
            final(self).wf(),
            Self::release_spec(*old(self), *final(self), begin, end),
    {
        if begin >= end || end > self.buffer.len() {
            return;
        }
        let mut i = begin;
        while i < end
            invariant
                begin <= i <= end,
                end <= self.buf().len(),
                self.buf().len() == old(self).buf().len(),
                self.free_list() == old(self).free_list(),
                self.cap() == old(self).cap(),
                forall|j: int| begin <= j < i ==> is_default_value(#[trigger] self.buf()[j]),
                forall|j: int|
                    0 <= j < old(self).buf().len() && !(begin <= j < i) ==> self.buf()[j] == old(
                        self,
                    ).buf()[j],
            decreases end - i,
        {
            self.buffer[i] = T::default();
            i += 1;
        }
        if self.free_ranges.len() < self.capacity {
            self.free_ranges.push((begin, end));
        }
    }

    /// Get a reference to the element at `index`, or `None` when the index
    /// lies beyond the buffer.
    pub fn get(&self, index: usize) -> (r: Option<&T>)
        ensures
            index < self.buf().len() ==> r == Some(&self.buf()[index as int]),
            index >= self.buf().len() ==> r.is_none(),
    {
        if index < self.buffer.len() {
            Some(&self.buffer[index])
        } else {
            None
        }
    }

    /// Get a mutable reference to the element at `index`, or `None` when the
    /// index lies beyond the buffer.
    pub fn get_mut(&mut self, index: usize) -> (r: Option<&mut T>)
        ensures
            index < old(self).buf().len() ==> r.is_some() && *r.unwrap() == old(self).buf()[index as int]
                && final(self).buf() == old(self).buf().update(index as int, *final(r.unwrap()))
                && final(self).free_list() == old(self).free_list() && final(self).cap() == old(
                self,
            ).cap(),
            index >= old(self).buf().len() ==> r.is_none() && *final(self) == *old(self),
    {
        if index < self.buffer.len() {
            Some(&mut self.buffer[index])
        } else {
            None
        }
    }

    /// Set the value at `index`, growing the buffer with default-valued
    /// slots first when the index lies beyond it.
    pub fn set(&mut self, index: usize, value: T)
        requires
            old(self).wf(),
            index < usize::MAX,
        ensures
            final(self).wf(),
            Self::set_spec(*old(self), *final(self), index, value),
    {
        let ghost pre = *self;
        if index >= self.buffer.len() {
            while self.buffer.len() < index + 1
                invariant
                    index < usize::MAX,
                    pre.buf().len() <= self.buf().len() <= index + 1,
                    self.free_list() == pre.free_list(),
                    self.cap() == pre.cap(),
                    forall|j: int| 0 <= j < pre.buf().len() ==> self.buf()[j] == pre.buf()[j],
                    forall|j: int|
                        pre.buf().len() <= j < self.buf().len() ==> is_default_value(
                            #[trigger] self.buf()[j],
                        ),
                decreases index + 1 - self.buf().len(),
            {
                self.buffer.push(T::default());
            }
        }
        self.buffer[index] = value;
    }

    /// Get a read-only view of the buffer slots in `[begin, end)`.
    pub fn get_slice(&self, begin: usize, end: usize) -> (r: &[T])
        requires
            begin <= end <= self.buf().len(),
        ensures
            r@ == self.buf().subrange(begin as int, end as int),
    {
        vstd::slice::slice_subrange(self.buffer.as_slice(), begin, end)
    }

    /// Get a mutable view of the buffer slots in `[begin, end)`.
    pub fn get_slice_mut(&mut self, begin: usize, end: usize) -> (r: &mut [T])
        requires
            old(self).wf(),
            begin <= end <= old(self).buf().len(),
        ensures
            r@ == old(self).buf().subrange(begin as int, end as int),
            final(self).buf() == old(self).buf().subrange(0, begin as int) + final(r)@ + old(
                self,
            ).buf().subrange(end as int, old(self).buf().len() as int),
            final(self).free_list() == old(self).free_list(),
            final(self).cap() == old(self).cap(),
            final(r)@.len() == end - begin ==> final(self).buf().len() == old(self).buf().len()
                && final(self).wf(),
    {
        let s = self.buffer.as_mut_slice();
        let (left, _right) = s.split_at_mut(end);
        let (_pre, mid) = left.split_at_mut(begin);
        mid
    }

    /// Get the number of free ranges currently retained by the pool.
    pub fn available_count(&self) -> (r: usize)
        ensures
            r == self.free_list().len(),
    {
        self.free_ranges.len()
    }

    /// Get the total size of the backing buffer.
    pub fn buffer_size(&self) -> (r: usize)
        ensures
            r == self.buf().len(),
    {
        self.buffer.len()
    }
}

/// The ranges of `loans` are pairwise disjoint.
pub open spec fn loans_disjoint(loans: Set<(usize, usize)>) -> bool {
    forall|a: (usize, usize), b: (usize, usize)|
        loans.contains(a) && loans.contains(b) && a != b ==> ranges_disjoint(a, b)
}

/// The loan discipline of a flat object pool: every range on loan lies
/// within the buffer, the loaned ranges are pairwise disjoint, no loaned
/// range overlaps a free range, and the free ranges are pairwise disjoint.
///
/// This is the state that a well-behaved caller (one that releases only
/// ranges it acquired, and each at most once) maintains across every
/// `acquire` and `release`; the lemmas below show that those two operations
/// preserve it.
pub open spec fn loan_state_ok<T>(pool: FlatObjectPool<T>, loans: Set<(usize, usize)>) -> bool {
    &&& forall|l: (usize, usize)| #[trigger]
        loans.contains(l) ==> l.0 <= l.1 && l.1 <= pool.buf().len()
    &&& loans_disjoint(loans)
    &&& forall|l: (usize, usize), i: int|
        #[trigger] loans.contains(l) && 0 <= i < pool.free_list().len() ==> ranges_disjoint(
            l,
            #[trigger] pool.free_list()[i],
        )
    &&& forall|i: int, j: int|
        0 <= i < j < pool.free_list().len() ==> ranges_disjoint(
            #[trigger] pool.free_list()[i],
            #[trigger] pool.free_list()[j],
        )
}

/// A freshly created pool, with its empty free list, satisfies the loan
/// discipline with no range on loan.
pub proof fn lemma_new_loan_state<T>(pool: FlatObjectPool<T>)
    requires
        pool.free_list().len() == 0,
    ensures
        loan_state_ok(pool, Set::<(usize, usize)>::empty()),
{
}

/// Disjointness: an acquired range never overlaps any range still on loan,
/// and acquiring preserves the loan discipline. Together with
/// `lemma_release_disjoint` this shows that for any sequence of `acquire`
/// and `release` calls, no two ranges simultaneously on loan overlap.
pub proof fn lemma_acquire_disjoint<T: Default + Clone>(
    pre: FlatObjectPool<T>,
    post: FlatObjectPool<T>,
    size: usize,
    r: (usize, usize),
    loans: Set<(usize, usize)>,
)
    requires
        pre.wf(),
        loan_state_ok(pre, loans),
        FlatObjectPool::<T>::acquire_spec(pre, post, size, r),
        r.0 <= r.1 <= post.buf().len(),
    ensures
        forall|l: (usize, usize)| #[trigger] loans.contains(l) ==> ranges_disjoint(r, l),
        loan_state_ok(post, loans.insert(r)),
{
    if exists|i: int| is_first_fit(pre.free_list(), size as int, i) {
        let i = choose|i: int| is_first_fit(pre.free_list(), size as int, i);
        let b = pre.free_list()[i].0;
        let e = pre.free_list()[i].1;
        pre.free_list().remove_ensures(i);
        assert(post.buf().len() == pre.buf().len());
        assert forall|l: (usize, usize)| #[trigger] loans.contains(l) implies ranges_disjoint(
            r,
            l,
        ) by {
            assert(ranges_disjoint(l, pre.free_list()[i]));
        }
        assert forall|l: (usize, usize), k: int|
            #[trigger] loans.insert(r).contains(l) && 0 <= k < post.free_list().len()
                implies ranges_disjoint(l, #[trigger] post.free_list()[k]) by {
            let fr = post.free_list()[k];
            if k < pre.free_list().remove(i).len() {
                let orig: int = if k < i {
                    k
                } else {
                    k + 1
                };
                assert(fr == pre.free_list()[orig]);
                if l == r {
                    // the acquired prefix of range `i` is disjoint from every
                    // other free range because the whole of range `i` is
                    assert(ranges_disjoint(pre.free_list()[i], fr));
                } else {
                    assert(ranges_disjoint(l, fr));
                }
            } else {
                // `fr` is the re-appended leftover suffix of range `i`
                assert(fr == (((b + size) as usize), e));
                if l != r {
                    assert(ranges_disjoint(l, pre.free_list()[i]));
                }
            }
        }
        assert forall|k1: int, k2: int|
            0 <= k1 < k2 < post.free_list().len() implies ranges_disjoint(
            #[trigger] post.free_list()[k1],
            #[trigger] post.free_list()[k2],
        ) by {
            let f1 = post.free_list()[k1];
            let f2 = post.free_list()[k2];
            let o1: int = if k1 < i {
                k1
            } else {
                k1 + 1
            };
            assert(f1 == pre.free_list()[o1]);
            if k2 < pre.free_list().remove(i).len() {
                let o2: int = if k2 < i {
                    k2
                } else {
                    k2 + 1
                };
                assert(f2 == pre.free_list()[o2]);
                if o1 < o2 {
                    assert(ranges_disjoint(pre.free_list()[o1], pre.free_list()[o2]));
                } else {
                    assert(ranges_disjoint(pre.free_list()[o2], pre.free_list()[o1]));
                }
            } else {
                assert(f2 == (((b + size) as usize), e));
                if o1 < i {
                    assert(ranges_disjoint(pre.free_list()[o1], pre.free_list()[i]));
                } else {
                    assert(ranges_disjoint(pre.free_list()[i], pre.free_list()[o1]));
                }
            }
        }
    } else {
        assert(forall|i: int| !is_first_fit(pre.free_list(), size as int, i));
        assert(r.0 == pre.buf().len());
    }
}

/// Releasing a range that is on loan preserves the loan discipline: the
/// range leaves the loan set, and when it joins the free list it overlaps
/// neither the remaining loans nor the other free ranges.
pub proof fn lemma_release_disjoint<T: Default + Clone>(
    pre: FlatObjectPool<T>,
    post: FlatObjectPool<T>,
    begin: usize,
    end: usize,
    loans: Set<(usize, usize)>,
)
    requires
        pre.wf(),
        loan_state_ok(pre, loans),
        loans.contains((begin, end)),
        FlatObjectPool::<T>::release_spec(pre, post, begin, end),
    ensures
        loan_state_ok(post, loans.remove((begin, end))),
{
    if begin >= end || end > pre.buf().len() {
    } else {
        if pre.free_list().len() < pre.cap() {
            assert forall|l: (usize, usize), k: int|
                #[trigger] loans.remove((begin, end)).contains(l) && 0 <= k
                    < post.free_list().len() implies ranges_disjoint(
                l,
                #[trigger] post.free_list()[k],
            ) by {
                if k < pre.free_list().len() {
                    assert(ranges_disjoint(l, pre.free_list()[k]));
                } else {
                    assert(post.free_list()[k] == (begin, end));
                    assert(ranges_disjoint(l, (begin, end)));
                }
            }
            assert forall|k1: int, k2: int|
                0 <= k1 < k2 < post.free_list().len() implies ranges_disjoint(
                #[trigger] post.free_list()[k1],
                #[trigger] post.free_list()[k2],
            ) by {
                if k2 < pre.free_list().len() {
                    assert(ranges_disjoint(pre.free_list()[k1], pre.free_list()[k2]));
                } else {
                    assert(post.free_list()[k2] == (begin, end));
                    assert(ranges_disjoint((begin, end), pre.free_list()[k1]));
                }
            }
        }
    }
}

/// Reuse exactness: releasing a range and immediately acquiring exactly its
/// size returns that same range, and consumes it whole. This holds whenever
/// the release was retained (the free list was below capacity) and no
/// earlier free range is large enough to fit the request.
pub proof fn lemma_reuse_exact<T: Default + Clone>(
    p0: FlatObjectPool<T>,
    p1: FlatObjectPool<T>,
    p2: FlatObjectPool<T>,
    begin: usize,
    end: usize,
    size: usize,
    r: (usize, usize),
)
    requires
        p0.wf(),
        begin < end,
        end <= p0.buf().len(),
        p0.free_list().len() < p0.cap(),
        size == end - begin,
        forall|j: int|
            0 <= j < p0.free_list().len() ==> range_len(#[trigger] p0.free_list()[j]) < size,
        FlatObjectPool::<T>::release_spec(p0, p1, begin, end),
        FlatObjectPool::<T>::acquire_spec(p1, p2, size, r),
    ensures
        r == (begin, end),
        p2.free_list() == p0.free_list(),
{
    let i = p0.free_list().len() as int;
    assert(p1.free_list() == p0.free_list().push((begin, end)));
    assert(is_first_fit(p1.free_list(), size as int, i));
    p1.free_list().remove_ensures(i);
    assert(p2.free_list() =~= p0.free_list());
}

/// Split correctness: when the first fitting free range is strictly larger
/// than the request, the acquired range is its prefix, and the leftover
/// suffix stays at the end of the free list, available for later reuse.
pub proof fn lemma_split_leftover<T: Default + Clone>(
    pre: FlatObjectPool<T>,
    post: FlatObjectPool<T>,
    size: usize,
    r: (usize, usize),
    i: int,
)
    requires
        pre.wf(),
        is_first_fit(pre.free_list(), size as int, i),
        range_len(pre.free_list()[i]) > size,
        FlatObjectPool::<T>::acquire_spec(pre, post, size, r),
    ensures
        r.0 == pre.free_list()[i].0,
        r.1 == pre.free_list()[i].0 + size,
        post.free_list().last() == ((((pre.free_list()[i].0 + size) as usize)), pre.free_list()[i].1),
        post.free_list().contains(
            ((((pre.free_list()[i].0 + size) as usize)), pre.free_list()[i].1),
        ),
{
    let leftover = ((((pre.free_list()[i].0 + size) as usize)), pre.free_list()[i].1);
    assert(post.free_list() == pre.free_list().remove(i).push(leftover));
    assert(post.free_list().last() == leftover);
    assert(post.free_list().contains(leftover)) by {
        assert(post.free_list()[post.free_list().len() - 1] == leftover);
    }
}

} // verus!
