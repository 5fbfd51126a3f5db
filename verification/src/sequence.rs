use vstd::prelude::*;

use crate::data_point::DataPoint;
use crate::flat_pool::FlatObjectPool;
use crate::is_default_value;

verus! {

/// A sequence of [`DataPoint`] records that accumulates immutably over time.
///
/// The sequence is an append-only, staged-commit history built on a
/// [`FlatObjectPool`]: `add_point` writes past the committed boundary,
/// `update` publishes everything written since the previous update and
/// advances a monotonic step counter, and `current` exposes the whole
/// committed history. Records are never erased within a step; `clear`
/// resets the sequence to empty while retaining the buffer capacity.
pub struct DataPointSequence {
    pool: FlatObjectPool<DataPoint>,
    current_end: usize,
    next_end: usize,
    step: usize,
}

impl DataPointSequence {
    /// The underlying arena.
    pub closed spec fn arena(self) -> FlatObjectPool<DataPoint> {
        self.pool
    }

    /// The full contents of the backing buffer.
    pub open spec fn buf(self) -> Seq<DataPoint> {
        self.arena().buf()
    }

    /// Index marking the end of the committed, visible history.
    pub closed spec fn cur_end(self) -> int {
        self.current_end as int
    }

    /// Index marking the end of all data written so far.
    pub closed spec fn nxt_end(self) -> int {
        self.next_end as int
    }

    /// The number of updates performed since creation or the last clear.
    pub closed spec fn step_count(self) -> int {
        self.step as int
    }

    /// The committed, visible history.
    pub open spec fn committed(self) -> Seq<DataPoint> {
        self.buf().subrange(0, self.cur_end())
    }

    /// The records appended since the last update, not yet visible.
    pub open spec fn pending(self) -> Seq<DataPoint> {
        self.buf().subrange(self.cur_end(), self.nxt_end())
    }

    /// Well-formedness: the committed boundary never passes the staged
    /// boundary, both lie within the buffer, every slot beyond the staged
    /// boundary still holds the default value, and the arena itself is
    /// well-formed.
    pub open spec fn wf(self) -> bool {
        &&& self.arena().wf()
        &&& 0 <= self.cur_end() <= self.nxt_end() <= self.buf().len()
        &&& forall|j: int|
            self.nxt_end() <= j < self.buf().len() ==> is_default_value(#[trigger] self.buf()[j])
    }

    /// Create a new sequence with the specified initial buffer size and
    /// free-range capacity for the underlying arena.
    pub fn new(buffer_size: usize, pool_capacity: usize) -> (r: Self)
        ensures
            r.wf(),
            r.cur_end() == 0,
            r.nxt_end() == 0,
            r.step_count() == 0,
            r.buf().len() == buffer_size,
            r.arena().cap() == pool_capacity,
            r.arena().free_list().len() == 0,
            forall|j: int| 0 <= j < buffer_size ==> is_default_value(#[trigger] r.buf()[j]),
    {
        Self {
            pool: FlatObjectPool::new(buffer_size, pool_capacity),
            current_end: 0,
            next_end: 0,
            step: 0,
        }
    }

    /// Get the current step number: the number of updates performed.
    pub fn step(&self) -> (r: usize)
        ensures
            r == self.step_count(),
    {
        self.step
    }

    /// Add a data point to the next update. The point is staged past the
    /// committed boundary and becomes visible only after the next `update`.
    pub fn add_point(&mut self, point: DataPoint)
        requires
            old(self).wf(),
            old(self).nxt_end() < usize::MAX,
        ensures
            final(self).wf(),
            final(self).committed() == old(self).committed(),
            final(self).pending() == old(self).pending().push(point),
            final(self).cur_end() == old(self).cur_end(),
            final(self).nxt_end() == old(self).nxt_end() + 1,
            final(self).step_count() == old(self).step_count(),
            final(self).buf().len() == (if old(self).nxt_end() == old(self).buf().len() {
                old(self).buf().len() as int + 1
            } else {
                old(self).buf().len() as int
            }),
            final(self).arena().free_list() == old(self).arena().free_list(),
            final(self).arena().cap() == old(self).arena().cap(),
    {
        let ghost pre = *self;
        self.pool.set(self.next_end, point);
        self.next_end = self.next_end + 1;
        proof {
            assert(self.committed() =~= pre.committed());
            assert(self.pending() =~= pre.pending().push(point));
        }
    }

    /// Add multiple data points to the next update, in order.
    pub fn add_points(&mut self, points: Vec<DataPoint>)
        requires
            old(self).wf(),
            old(self).nxt_end() + points@.len() <= usize::MAX,
        ensures
            final(self).wf(),
            final(self).committed() == old(self).committed(),
            final(self).pending() == old(self).pending() + points@,
            final(self).cur_end() == old(self).cur_end(),
            final(self).nxt_end() == old(self).nxt_end() + points@.len(),
            final(self).step_count() == old(self).step_count(),
            final(self).buf().len() >= old(self).buf().len(),
            final(self).arena().free_list() == old(self).arena().free_list(),
            final(self).arena().cap() == old(self).arena().cap(),
    {
        let ghost all = points@;
        let mut rest = points;
        while rest.len() > 0
            invariant
                self.wf(),
                self.committed() == old(self).committed(),
                self.cur_end() == old(self).cur_end(),
                self.step_count() == old(self).step_count(),
                rest@.len() <= all.len(),
                self.nxt_end() == old(self).nxt_end() + all.len() - rest@.len(),
                old(self).nxt_end() + all.len() <= usize::MAX,
                self.pending() == old(self).pending() + all.take(all.len() - rest@.len()),
                rest@ == all.skip(all.len() - rest@.len()),
                self.buf().len() >= old(self).buf().len(),
                self.arena().free_list() == old(self).arena().free_list(),
                self.arena().cap() == old(self).arena().cap(),
            decreases rest@.len(),
        {
            let ghost done = all.len() - rest@.len();
            let p = rest.remove(0);
            self.add_point(p);
            proof {
                assert(all.take(done + 1) =~= all.take(done).push(p));
                assert(rest@ =~= all.skip(done + 1));
            }
        }
        proof {
            assert(all.take(all.len() as int) =~= all);
        }
    }

    /// Update the sequence: publish every point staged since the previous
    /// update and advance the step counter by exactly one, even when nothing
    /// was staged.
    pub fn update(&mut self)
        requires
            old(self).wf(),
            old(self).step_count() < usize::MAX,
        ensures
            final(self).wf(),
            final(self).committed() == old(self).committed() + old(self).pending(),
            final(self).pending().len() == 0,
            final(self).step_count() == old(self).step_count() + 1,
            final(self).cur_end() == old(self).nxt_end(),
            final(self).nxt_end() == old(self).nxt_end(),
            final(self).buf() == old(self).buf(),
            final(self).arena() == old(self).arena(),
    {
        let ghost pre = *self;
        self.current_end = self.next_end;
        self.step = self.step + 1;
        proof {
            assert(self.committed() =~= pre.committed() + pre.pending());
        }
    }

    /// Get the committed history: every data point published by any update
    /// since creation or the last clear, in append order.
    pub fn current(&self) -> (r: &[DataPoint])
        requires
            self.wf(),
        ensures
            r@ == self.committed(),
    {
        self.pool.get_slice(0, self.current_end)
    }

    /// Get the number of data points in the committed history.
    pub fn len(&self) -> (r: usize)
        requires
            self.wf(),
        ensures
            r == self.committed().len(),
    {
        self.current_end
    }

    /// Check whether the committed history is empty.
    pub fn is_empty(&self) -> (r: bool)
        requires
            self.wf(),
        ensures
            r <==> self.committed().len() == 0,
    {
        self.current_end == 0
    }

    /// Get the number of data points staged but not yet published.
    pub fn pending_count(&self) -> (r: usize)
        requires
            self.wf(),
        ensures
            r == self.pending().len(),
    {
        self.next_end - self.current_end
    }

    /// Get the total size of the backing buffer.
    pub fn buffer_size(&self) -> (r: usize)
        ensures
            r == self.buf().len(),
    {
        self.pool.buffer_size()
    }

    /// Reset the sequence to empty: both boundaries and the step counter
    /// return to zero and every written slot is cleared to the default
    /// value, but the backing buffer keeps its size.
    pub fn clear(&mut self)
        requires
            old(self).wf(),
        ensures
            final(self).wf(),
            final(self).cur_end() == 0,
            final(self).nxt_end() == 0,
            final(self).step_count() == 0,
            final(self).committed().len() == 0,
            final(self).pending().len() == 0,
            final(self).buf().len() == old(self).buf().len(),
            forall|j: int|
                0 <= j < final(self).buf().len() ==> is_default_value(#[trigger] final(self).buf()[j]),
            final(self).arena().free_list() == old(self).arena().free_list(),
            final(self).arena().cap() == old(self).arena().cap(),
    {
        let end = self.next_end;
        self.current_end = 0;
        self.next_end = 0;
        self.step = 0;
        let mut i: usize = 0;
        while i < end
            invariant
                i <= end,
                end <= self.buf().len(),
                self.arena().wf(),
                self.buf().len() == old(self).buf().len(),
                self.cur_end() == 0,
                self.nxt_end() == 0,
                self.step_count() == 0,
                forall|j: int| 0 <= j < i ==> is_default_value(#[trigger] self.buf()[j]),
                forall|j: int|
                    end <= j < self.buf().len() ==> is_default_value(#[trigger] self.buf()[j]),
                self.arena().free_list() == old(self).arena().free_list(),
                self.arena().cap() == old(self).arena().cap(),
            decreases end - i,
        {
            self.pool.set(i, DataPoint::default());
            i += 1;
        }
    }
}

/// Accumulation monotonicity: an update extends the visible history by
/// exactly the staged batch, and every previously visible element is
/// unchanged, both in position and in value.
pub proof fn lemma_accumulation_monotonic(pre: DataPointSequence, post: DataPointSequence)
    requires
        pre.wf(),
        post.committed() == pre.committed() + pre.pending(),
    ensures
        post.committed().len() == pre.committed().len() + pre.pending().len(),
        post.committed().subrange(0, pre.committed().len() as int) == pre.committed(),
        forall|j: int|
            0 <= j < pre.committed().len() ==> post.committed()[j] == pre.committed()[j],
{
    assert(post.committed().subrange(0, pre.committed().len() as int) =~= pre.committed());
}

/// One commit round: between two observations of the sequence, the visible
/// history grew by exactly `batch`. This is the net effect that `add_point`
/// or `add_points` followed by `update` establish when the round starts with
/// nothing staged: staging appends `batch` to the pending records, and the
/// update publishes them.
pub open spec fn commit_round(
    pre: DataPointSequence,
    batch: Seq<DataPoint>,
    post: DataPointSequence,
) -> bool {
    post.committed() == pre.committed() + batch
}

/// A round that starts with nothing staged — `add_points(batch)` followed by
/// `update()` — realizes `commit_round` with exactly that batch. The
/// `requires` clauses are what those two calls ensure.
pub proof fn lemma_round_from_calls(
    s0: DataPointSequence,
    s1: DataPointSequence,
    s2: DataPointSequence,
    batch: Seq<DataPoint>,
)
    requires
        s0.pending().len() == 0,
        s1.committed() == s0.committed(),
        s1.pending() == s0.pending() + batch,
        s2.committed() == s1.committed() + s1.pending(),
    ensures
        commit_round(s0, batch, s2),
{
    assert(s0.pending() + batch =~= batch);
}

/// A run of commit rounds: `states` holds the sequence as observed before
/// and after each of the `batches`.
pub open spec fn commit_run(states: Seq<DataPointSequence>, batches: Seq<Seq<DataPoint>>) -> bool {
    &&& states.len() == batches.len() + 1
    &&& forall|i: int|
        0 <= i < batches.len() ==> commit_round(states[i], #[trigger] batches[i], states[i + 1])
}

/// The total number of records over all batches.
pub open spec fn total_len(batches: Seq<Seq<DataPoint>>) -> int
    decreases batches.len(),
{
    if batches.len() == 0 {
        0
    } else {
        total_len(batches.drop_last()) + batches.last().len()
    }
}

/// Accumulation monotonicity over a whole run: starting from an empty
/// visible history, after `N` commit rounds with batches of sizes
/// `k_1 .. k_N` the visible history holds exactly `k_1 + .. + k_N` records,
/// and the history visible after any earlier round is a prefix of the final
/// one.
pub proof fn lemma_accumulation_over_run(
    states: Seq<DataPointSequence>,
    batches: Seq<Seq<DataPoint>>,
)
    requires
        commit_run(states, batches),
        states[0].committed().len() == 0,
    ensures
        states.last().committed().len() == total_len(batches),
        forall|i: int|
            0 <= i < states.len() ==> (#[trigger] states[i].committed()).len()
                <= states.last().committed().len(),
        forall|i: int|
            0 <= i < states.len() ==> states.last().committed().subrange(
                0,
                (#[trigger] states[i].committed()).len() as int,
            ) == states[i].committed(),
    decreases batches.len(),
{
    let n = batches.len() as int;
    if n == 0 {
        assert(states.last() == states[0]);
        assert(states.last().committed().subrange(0, 0) =~= states[0].committed());
    } else {
        let prefix_states = states.drop_last();
        let prefix_batches = batches.drop_last();
        assert(commit_run(prefix_states, prefix_batches)) by {
            assert forall|i: int|
                0 <= i < prefix_batches.len() implies commit_round(
                prefix_states[i],
                #[trigger] prefix_batches[i],
                prefix_states[i + 1],
            ) by {
                assert(commit_round(states[i], batches[i], states[i + 1]));
            }
        }
        lemma_accumulation_over_run(prefix_states, prefix_batches);
        let prev = states[n - 1];
        let last = states[n];
        assert(prefix_states.last() == prev);
        assert(commit_round(prev, batches[n - 1], last));
        assert(batches[n - 1] == batches.last());
        assert(last.committed().len() == prev.committed().len() + batches.last().len());
        assert forall|i: int|
            0 <= i < states.len() implies (#[trigger] states[i].committed()).len()
            <= last.committed().len() by {
            if i < n {
                assert(prefix_states[i] == states[i]);
                assert(states[i].committed().len() <= prev.committed().len());
            }
        }
        assert forall|i: int|
            0 <= i < states.len() implies last.committed().subrange(
            0,
            (#[trigger] states[i].committed()).len() as int,
        ) == states[i].committed() by {
            if i < n {
                assert(prefix_states[i] == states[i]);
                let k = states[i].committed().len() as int;
                assert(k <= prev.committed().len());
                assert(prev.committed().subrange(0, k) == states[i].committed());
                assert(last.committed().subrange(0, k) =~= prev.committed().subrange(0, k));
            } else {
                assert(last.committed().subrange(0, last.committed().len() as int) =~= last.committed());
            }
        }
    }
}

/// An update with nothing staged still advances the step counter by exactly
/// one and leaves the visible history unchanged.
pub proof fn lemma_empty_update(pre: DataPointSequence, post: DataPointSequence)
    requires
        pre.wf(),
        pre.pending().len() == 0,
        post.committed() == pre.committed() + pre.pending(),
        post.step_count() == pre.step_count() + 1,
    ensures
        post.committed() == pre.committed(),
        post.step_count() == pre.step_count() + 1,
{
    assert(pre.committed() + pre.pending() =~= pre.committed());
}

} // verus!
