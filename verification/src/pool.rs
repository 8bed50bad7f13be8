//! Bookkeeping of a fixed pool of workers.
//!
//! The pool knows, for each of its workers, whether it is handed out. A
//! caller that gets no worker has to wait until one is released; the
//! waiting itself is the caller's business.

use vstd::prelude::*;

verus! {

/// A pool of workers, each named by its index.
pub struct WorkerPool {
    busy: Vec<bool>,
}

/// Number of workers that are handed out.
pub open spec fn busy_count(busy: Seq<bool>) -> nat
    decreases busy.len(),
{
    if busy.len() == 0 {
        0
    } else {
        busy_count(busy.drop_last()) + if busy.last() {
            1nat
        } else {
            0nat
        }
    }
}

/// Whether `w` is the idle worker with the lowest index.
pub open spec fn is_first_idle(busy: Seq<bool>, w: int) -> bool {
    &&& 0 <= w < busy.len()
    &&& !busy[w]
    &&& forall|k: int| 0 <= k < w ==> busy[k]
}

/// Whether every worker is handed out.
pub open spec fn all_busy(busy: Seq<bool>) -> bool {
    forall|k: int| 0 <= k < busy.len() ==> busy[k]
}

/// The worker that an acquire hands out: the idle worker with the lowest
/// index, or none if every worker is handed out.
pub open spec fn next_worker(busy: Seq<bool>) -> Option<int> {
    if all_busy(busy) {
        None
    } else {
        Some(choose|w: int| is_first_idle(busy, w))
    }
}

/// The pool after an acquire.
pub open spec fn after_acquire(busy: Seq<bool>) -> Seq<bool> {
    match next_worker(busy) {
        Some(w) => busy.update(w, true),
        None => busy,
    }
}

/// The pool after `w` is released: `w` is idle if it was handed out by
/// this pool, and nothing changes otherwise.
pub open spec fn after_release(busy: Seq<bool>, w: int) -> Seq<bool> {
    if 0 <= w < busy.len() && busy[w] {
        busy.update(w, false)
    } else {
        busy
    }
}

/// The pool after `count` acquires in a row.
pub open spec fn after_acquires(busy: Seq<bool>, count: nat) -> Seq<bool>
    decreases count,
{
    if count == 0 {
        busy
    } else {
        after_acquire(after_acquires(busy, (count - 1) as nat))
    }
}

/// A pool of `size` workers, all idle.
pub open spec fn fresh(size: nat) -> Seq<bool> {
    Seq::new(size, |k: int| false)
}

/// A pool that is not all busy has exactly one first idle worker, and it
/// is the one that an acquire hands out.
pub proof fn lemma_next_worker(busy: Seq<bool>)
    ensures
        match next_worker(busy) {
            Some(w) => is_first_idle(busy, w),
            None => all_busy(busy),
        },
        forall|w: int| is_first_idle(busy, w) ==> next_worker(busy) == Some(w),
{
    if !all_busy(busy) {
        lemma_first_idle_exists(busy, busy.len() as int);
    }
}

/// If one of the first `n` workers is idle, there is a first idle worker.
proof fn lemma_first_idle_exists(busy: Seq<bool>, n: int)
    requires
        0 <= n <= busy.len(),
        exists|k: int| 0 <= k < n && !busy[k],
    ensures
        exists|w: int| is_first_idle(busy, w),
    decreases n,
{
    if exists|k: int| 0 <= k < n - 1 && !busy[k] {
        lemma_first_idle_exists(busy, n - 1);
    } else {
        assert(is_first_idle(busy, n - 1));
    }
}

/// The number of busy workers is at most the size of the pool, and equals
/// it exactly if every worker is busy.
pub proof fn lemma_busy_count_bounds(busy: Seq<bool>)
    ensures
        busy_count(busy) <= busy.len(),
        busy_count(busy) == busy.len() <==> all_busy(busy),
    decreases busy.len(),
{
    if busy.len() > 0 {
        let front = busy.drop_last();
        lemma_busy_count_bounds(front);
        if busy_count(busy) == busy.len() {
            assert forall|k: int| 0 <= k < busy.len() implies busy[k] by {
                if k < front.len() {
                    assert(front[k]);
                }
            }
        }
    }
}

/// Changing the state of one worker changes the number of busy workers by
/// one, or not at all if the worker was in that state.
pub proof fn lemma_busy_count_update(busy: Seq<bool>, w: int, state: bool)
    requires
        0 <= w < busy.len(),
    ensures
        busy_count(busy.update(w, state)) == busy_count(busy) + (if state {
            1int
        } else {
            0int
        }) - (if busy[w] {
            1int
        } else {
            0int
        }),
    decreases busy.len(),
{
    let front = busy.drop_last();
    if w == busy.len() - 1 {
        assert(busy.update(w, state).drop_last() =~= front);
    } else {
        lemma_busy_count_update(front, w, state);
        assert(busy.update(w, state).drop_last() =~= front.update(w, state));
    }
}

/// After `count` acquires on a fresh pool of `size` workers, with `count`
/// no larger than `size`, exactly the workers below `count` are handed out.
pub proof fn lemma_acquires_fill_in_order(size: nat, count: nat)
    requires
        count <= size,
    ensures
        after_acquires(fresh(size), count) == Seq::new(size, |k: int| k < count),
    decreases count,
{
    if count > 0 {
        lemma_acquires_fill_in_order(size, (count - 1) as nat);
        let before = Seq::new(size, |k: int| k < count - 1);
        assert(is_first_idle(before, count - 1));
        lemma_next_worker(before);
    }
}

/// With every worker of a pool handed out, one more acquire hands out
/// nothing and changes nothing: the caller has to wait. This is the state
/// of a fresh pool of `size` workers after `size` acquires.
pub proof fn lemma_exhausted_pool_gives_none(size: nat)
    ensures
        all_busy(after_acquires(fresh(size), size)),
        busy_count(after_acquires(fresh(size), size)) == size,
        next_worker(after_acquires(fresh(size), size)) is None,
        after_acquires(fresh(size), size + 1) == after_acquires(fresh(size), size),
{
    lemma_acquires_fill_in_order(size, size);
    let full = after_acquires(fresh(size), size);
    lemma_busy_count_bounds(full);
    lemma_next_worker(full);
}

/// Once a worker that was handed out is released, the next acquire hands
/// out a worker; if every worker was handed out, it is the released one.
pub proof fn lemma_release_makes_available(busy: Seq<bool>, w: int)
    requires
        0 <= w < busy.len(),
        busy[w],
    ensures
        next_worker(after_release(busy, w)) is Some,
        all_busy(busy) ==> next_worker(after_release(busy, w)) == Some(w),
        busy_count(after_release(busy, w)) == busy_count(busy) - 1,
{
    let after = after_release(busy, w);
    assert(!after[w]);
    lemma_next_worker(after);
    lemma_busy_count_update(busy, w, false);
}

impl View for WorkerPool {
    type V = Seq<bool>;

    /// For each worker, whether it is handed out.
    closed spec fn view(&self) -> Seq<bool> {
        self.busy@
    }
}

impl WorkerPool {
    /// A pool of `size` workers, all idle.
    pub fn new(size: usize) -> (pool: WorkerPool)
        ensures
            pool@ == fresh(size as nat),
    {
        let mut busy: Vec<bool> = Vec::new();
        while busy.len() < size
            invariant
                busy@.len() <= size,
                forall|k: int| 0 <= k < busy@.len() ==> !busy@[k],
            decreases size - busy@.len(),
        {
            busy.push(false);
        }
        WorkerPool { busy }
    }

    /// Number of workers in the pool.
    pub fn capacity(&self) -> (size: usize)
        ensures
            size == self@.len(),
    {
        self.busy.len()
    }

    /// Number of workers that are handed out.
    pub fn in_flight(&self) -> (count: usize)
        ensures
            count == busy_count(self@),
            count <= self@.len(),
    {
        let mut count: usize = 0;
        let mut k: usize = 0;
        while k < self.busy.len()
            invariant
                k <= self.busy@.len(),
                count == busy_count(self.busy@.take(k as int)),
                count <= k,
            decreases self.busy@.len() - k,
        {
            assert(self.busy@.take(k + 1).drop_last() =~= self.busy@.take(k as int));
            if self.busy[k] {
                count += 1;
            }
            k += 1;
        }
        assert(self.busy@.take(self.busy@.len() as int) =~= self.busy@);
        count
    }

    /// Whether worker `w` is handed out.
    pub fn is_busy(&self, w: usize) -> (yes: bool)
        ensures
            yes == (w < self@.len() && self@[w as int]),
    {
        w < self.busy.len() && self.busy[w]
    }

    /// Hands out the idle worker with the lowest index. Gives `None`, and
    /// changes nothing, exactly if every worker is handed out.
    pub fn acquire(&mut self) -> (worker: Option<usize>)
        ensures
            final(self)@ == after_acquire(old(self)@),
            match worker {
                Some(w) => next_worker(old(self)@) == Some(w as int),
                None => next_worker(old(self)@) is None,
            },
            worker is None <==> all_busy(old(self)@),
    {
        let mut w: usize = 0;
        while w < self.busy.len() && self.busy[w]
            invariant
                w <= self.busy@.len(),
                self.busy@ == old(self).busy@,
                forall|k: int| 0 <= k < w ==> self.busy@[k],
            decreases self.busy@.len() - w,
        {
            w += 1;
        }
        proof {
            lemma_next_worker(self.busy@);
        }
        if w < self.busy.len() {
            self.busy.set(w, true);
            Some(w)
        } else {
            None
        }
    }

    /// Takes worker `w` back, whatever became of its job. Gives `false`,
    /// and changes nothing, exactly if `w` is not a worker that this pool
    /// has handed out.
    pub fn release(&mut self, w: usize) -> (taken: bool)
        ensures
            final(self)@ == after_release(old(self)@, w as int),
            taken == (w < old(self)@.len() && old(self)@[w as int]),
    {
        if w < self.busy.len() && self.busy[w] {
            self.busy.set(w, false);
            true
        } else {
            false
        }
    }
}

} // verus!
