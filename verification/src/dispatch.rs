//! Handing chunks to the workers of a pool and collecting what comes back.
//!
//! The dispatcher decides; the caller acts. It says which chunk goes to
//! which worker next, or that the caller has to wait for a worker to come
//! back, or that all is done. The caller runs the chunk on the worker and
//! reports the outcome, whatever it is; with the report the worker goes
//! back to the pool.

use crate::aggregate::ChunkResult;
use crate::planner::Chunk;
use crate::pool::{all_busy, busy_count, fresh, lemma_next_worker, next_worker, WorkerPool};
use crate::segment::Segment;
use vstd::prelude::*;

verus! {

/// What the caller is to do next.
#[derive(Clone, Copy, Debug, PartialEq, Eq, Structural)]
pub enum Step {
    /// Run the chunk at `position` on `worker`, then report the outcome.
    Run { worker: usize, position: usize, chunk: Chunk },
    /// No chunk can be handed out before a worker is reported back.
    Wait,
    /// Every chunk has been run and reported.
    Finished,
}

/// The state of a job's dispatch as contracts speak of it.
pub ghost struct DispatchView {
    /// The chunks of the job, in the order in which they are handed out.
    pub chunks: Seq<Chunk>,
    /// For each worker, whether it is handed out.
    pub pool: Seq<bool>,
    /// Number of chunks handed out so far: those at the positions below it.
    pub handed_out: nat,
    /// For each worker, the position of the chunk that it runs.
    pub running: Seq<Option<usize>>,
    /// What has been reported, in the order of the reports.
    pub results: Seq<ChunkResult>,
    /// The positions of the chunks that have been reported, in that order.
    pub reported: Seq<int>,
}

/// Whether no worker is handed out.
pub open spec fn all_idle(busy: Seq<bool>) -> bool {
    forall|w: int| 0 <= w < busy.len() ==> !busy[w]
}

/// Whether a worker runs the chunk at position `c`.
pub open spec fn is_running(v: DispatchView, c: int) -> bool {
    exists|w: int| 0 <= w < v.running.len() && #[trigger] v.running[w] == Some(c as usize)
}

/// Whether the chunk at position `c` has been reported.
pub open spec fn is_reported(v: DispatchView, c: int) -> bool {
    v.reported.contains(c)
}

/// The state is sound: a worker is handed out exactly if it runs a chunk;
/// every chunk handed out is run by one worker or has been reported once,
/// never both; and each result is that of its chunk.
pub open spec fn sound(v: DispatchView) -> bool {
    &&& v.running.len() == v.pool.len()
    &&& v.handed_out <= v.chunks.len() <= usize::MAX
    &&& v.reported.len() == v.results.len()
    &&& v.reported.no_duplicates()
    &&& forall|w: int| 0 <= w < v.pool.len() ==> (v.pool[w] <==> (#[trigger] v.running[w]) is Some)
    &&& forall|w: int|
        0 <= w < v.running.len() && (#[trigger] v.running[w]) is Some ==> v.running[w]->0
            < v.handed_out
    &&& forall|u: int, w: int|
        0 <= u < w < v.running.len() && (#[trigger] v.running[u]) is Some && (
        #[trigger] v.running[w]) is Some ==> v.running[u] != v.running[w]
    &&& forall|i: int|
        0 <= i < v.reported.len() ==> 0 <= (#[trigger] v.reported[i]) < v.handed_out
            && v.results[i].chunk == v.chunks[v.reported[i]]
    &&& forall|i: int, w: int|
        0 <= i < v.reported.len() && 0 <= w < v.running.len() ==> (#[trigger] v.running[w])
            != Some((#[trigger] v.reported[i]) as usize)
    &&& forall|c: int| 0 <= c < v.handed_out ==> #[trigger] is_reported(v, c) || is_running(v, c)
}

/// Whether every chunk has been run and reported.
pub open spec fn is_finished(v: DispatchView) -> bool {
    v.handed_out == v.chunks.len() && all_idle(v.pool)
}

/// The dispatch of `chunks` over `workers` workers, before anything is
/// handed out.
pub open spec fn initial(chunks: Seq<Chunk>, workers: nat) -> DispatchView {
    DispatchView {
        chunks,
        pool: fresh(workers),
        handed_out: 0,
        running: Seq::new(workers, |w: int| None),
        results: Seq::empty(),
        reported: Seq::empty(),
    }
}

/// The state after the next chunk has gone to `worker`.
pub open spec fn after_run(v: DispatchView, worker: int) -> DispatchView {
    DispatchView {
        pool: v.pool.update(worker, true),
        running: v.running.update(worker, Some(v.handed_out as usize)),
        handed_out: v.handed_out + 1,
        ..v
    }
}

/// The state after `worker` has reported `outcome` for the chunk it ran.
pub open spec fn after_report(
    v: DispatchView,
    worker: int,
    outcome: Result<Vec<Segment>, String>,
) -> DispatchView {
    DispatchView {
        pool: v.pool.update(worker, false),
        running: v.running.update(worker, None),
        results: v.results.push(ChunkResult { chunk: v.chunks[v.running[worker]->0 as int], outcome }),
        reported: v.reported.push(v.running[worker]->0 as int),
        ..v
    }
}

/// No worker of a pool is handed out exactly if the number of workers
/// handed out is zero.
pub proof fn lemma_idle_pool_has_none_busy(busy: Seq<bool>)
    ensures
        all_idle(busy) <==> busy_count(busy) == 0,
    decreases busy.len(),
{
    if busy.len() > 0 {
        let front = busy.drop_last();
        lemma_idle_pool_has_none_busy(front);
        if busy_count(busy) == 0 {
            assert forall|w: int| 0 <= w < busy.len() implies !busy[w] by {
                if w < front.len() {
                    assert(!front[w]);
                }
            }
        }
    }
}

/// The dispatch is sound before anything is handed out.
pub proof fn lemma_initial_is_sound(chunks: Seq<Chunk>, workers: nat)
    requires
        chunks.len() <= usize::MAX,
    ensures
        sound(initial(chunks, workers)),
{
}

/// Handing the next chunk to an idle worker keeps the state sound.
pub proof fn lemma_run_keeps_sound(v: DispatchView, worker: int)
    requires
        sound(v),
        v.handed_out < v.chunks.len(),
        0 <= worker < v.pool.len(),
        !v.pool[worker],
    ensures
        sound(after_run(v, worker)),
{
    let after = after_run(v, worker);
    assert forall|c: int| 0 <= c < after.handed_out implies #[trigger] is_reported(after, c)
        || is_running(after, c) by {
        if c == v.handed_out {
            assert(after.running[worker] == Some(c as usize));
        } else {
            assert(is_reported(v, c) || is_running(v, c));
            if is_running(v, c) {
                let w = choose|w: int|
                    0 <= w < v.running.len() && #[trigger] v.running[w] == Some(c as usize);
                assert(after.running[w] == Some(c as usize));
            }
        }
    }
}

/// Taking the report of a worker that is out keeps the state sound.
pub proof fn lemma_report_keeps_sound(
    v: DispatchView,
    worker: int,
    outcome: Result<Vec<Segment>, String>,
)
    requires
        sound(v),
        0 <= worker < v.pool.len(),
        v.pool[worker],
    ensures
        v.running[worker] is Some,
        v.running[worker]->0 < v.chunks.len(),
        sound(after_report(v, worker, outcome)),
{
    let after = after_report(v, worker, outcome);
    let position = v.running[worker]->0 as int;
    assert forall|c: int| 0 <= c < after.handed_out implies #[trigger] is_reported(after, c)
        || is_running(after, c) by {
        if c == position {
            assert(after.reported[after.reported.len() - 1] == c);
        } else {
            assert(is_reported(v, c) || is_running(v, c));
            if is_running(v, c) {
                let w = choose|w: int|
                    0 <= w < v.running.len() && #[trigger] v.running[w] == Some(c as usize);
                assert(after.running[w] == Some(c as usize));
            } else {
                let i = choose|i: int| 0 <= i < v.reported.len() && v.reported[i] == c;
                assert(after.reported[i] == c);
            }
        }
    }
}

/// Once every chunk is handed out and every worker is back, each chunk has
/// been reported exactly once: there are as many results as chunks, the
/// positions of the reported chunks are all positions, each once, and each
/// result is that of the chunk at its position.
pub proof fn lemma_finished_reports_every_chunk(v: DispatchView)
    requires
        sound(v),
        is_finished(v),
    ensures
        v.results.len() == v.chunks.len(),
        v.reported.no_duplicates(),
        forall|c: int| 0 <= c < v.chunks.len() ==> v.reported.contains(c),
        forall|i: int|
            0 <= i < v.results.len() ==> 0 <= v.reported[i] < v.chunks.len() && (
            #[trigger] v.results[i]).chunk == v.chunks[v.reported[i]],
{
    let n = v.chunks.len() as int;
    assert forall|c: int| 0 <= c < n implies v.reported.contains(c) by {
        assert(is_reported(v, c) || is_running(v, c));
    }
    assert(v.reported.to_set() =~= vstd::set_lib::set_int_range(0, n));
    v.reported.unique_seq_to_set();
    vstd::set_lib::lemma_int_range(0, n);
}

/// What a dispatcher holds.
struct Desk {
    chunks: Vec<Chunk>,
    pool: WorkerPool,
    handed_out: usize,
    running: Vec<Option<usize>>,
    results: Vec<ChunkResult>,
    reported: Ghost<Seq<int>>,
}

impl View for Desk {
    type V = DispatchView;

    closed spec fn view(&self) -> DispatchView {
        DispatchView {
            chunks: self.chunks@,
            pool: self.pool@,
            handed_out: self.handed_out as nat,
            running: self.running@,
            results: self.results@,
            reported: self.reported@,
        }
    }
}

impl Desk {
    /// A desk with `chunks` to hand out to `workers` workers.
    fn new(chunks: Vec<Chunk>, workers: usize) -> (desk: Desk)
        ensures
            desk@ == initial(chunks@, workers as nat),
    {
        let pool = WorkerPool::new(workers);
        let mut running: Vec<Option<usize>> = Vec::new();
        while running.len() < workers
            invariant
                running@.len() <= workers,
                forall|w: int| 0 <= w < running@.len() ==> running@[w] is None,
            decreases workers - running@.len(),
        {
            running.push(None);
        }
        assert(running@ =~= Seq::new(workers as nat, |w: int| None::<usize>));
        Desk {
            chunks,
            pool,
            handed_out: 0,
            running,
            results: Vec::new(),
            reported: Ghost(Seq::empty()),
        }
    }

    fn next_step(&mut self) -> (step: Step)
        requires
            sound(old(self)@),
        ensures
            sound(final(self)@),
            match step {
                Step::Run { worker, position, chunk } => {
                    &&& position == old(self)@.handed_out
                    &&& position < old(self)@.chunks.len()
                    &&& chunk == old(self)@.chunks[position as int]
                    &&& next_worker(old(self)@.pool) == Some(worker as int)
                    &&& final(self)@ == after_run(old(self)@, worker as int)
                },
                Step::Wait => {
                    &&& final(self)@ == old(self)@
                    &&& if old(self)@.handed_out < old(self)@.chunks.len() {
                        all_busy(old(self)@.pool)
                    } else {
                        !all_idle(old(self)@.pool)
                    }
                },
                Step::Finished => final(self)@ == old(self)@ && is_finished(old(self)@),
            },
    {
        proof {
            lemma_idle_pool_has_none_busy(self.pool@);
            lemma_next_worker(self.pool@);
        }
        if self.handed_out < self.chunks.len() {
            match self.pool.acquire() {
                Some(worker) => {
                    let position: usize = self.handed_out;
                    proof {
                        lemma_run_keeps_sound(old(self)@, worker as int);
                    }
                    self.running.set(worker, Some(position));
                    self.handed_out = position + 1;
                    Step::Run { worker, position, chunk: self.chunks[position] }
                },
                None => Step::Wait,
            }
        } else if self.pool.in_flight() > 0 {
            Step::Wait
        } else {
            Step::Finished
        }
    }

    fn complete(&mut self, worker: usize, outcome: Result<Vec<Segment>, String>) -> (taken: bool)
        requires
            sound(old(self)@),
        ensures
            sound(final(self)@),
            taken == (worker < old(self)@.pool.len() && old(self)@.pool[worker as int]),
            final(self)@ == if taken {
                after_report(old(self)@, worker as int, outcome)
            } else {
                old(self)@
            },
    {
        if !self.pool.is_busy(worker) {
            return false;
        }
        proof {
            lemma_report_keeps_sound(self@, worker as int, outcome);
        }
        let position: usize = match self.running[worker] {
            Some(position) => position,
            None => {
                return false;
            },
        };
        self.pool.release(worker);
        self.running.set(worker, None);
        self.results.push(ChunkResult { chunk: self.chunks[position], outcome });
        proof {
            self.reported@ = self.reported@.push(position as int);
        }
        true
    }
}

/// The dispatch of a job.
pub struct Dispatcher {
    desk: Desk,
}

impl View for Dispatcher {
    type V = DispatchView;

    closed spec fn view(&self) -> DispatchView {
        self.desk@
    }
}

impl Dispatcher {
    #[verifier::type_invariant]
    spec fn is_sound(self) -> bool {
        sound(self.desk@)
    }

    /// The dispatch of `chunks` over `workers` workers, before anything is
    /// handed out.
    pub fn new(chunks: Vec<Chunk>, workers: usize) -> (dispatcher: Dispatcher)
        ensures
            dispatcher@ == initial(chunks@, workers as nat),
            sound(dispatcher@),
    {
        proof {
            assert(chunks@.len() == chunks.len());
            lemma_initial_is_sound(chunks@, workers as nat);
        }
        Dispatcher { desk: Desk::new(chunks, workers) }
    }

    /// Number of chunks that are being run. It never exceeds the number of
    /// workers.
    pub fn in_flight(&self) -> (count: usize)
        ensures
            count == busy_count(self@.pool),
            count <= self@.pool.len(),
    {
        self.desk.pool.in_flight()
    }

    /// Decides what the caller is to do next.
    ///
    /// While chunks are left, the next chunk goes to the idle worker with
    /// the lowest index; if every worker is handed out, the caller has to
    /// wait. Once all chunks are handed out, the caller waits for the
    /// workers that are still out, and then the dispatch is finished: each
    /// chunk has been reported exactly once.
    pub fn next_step(&mut self) -> (step: Step)
        ensures
            sound(old(self)@),
            sound(final(self)@),
            match step {
                Step::Run { worker, position, chunk } => {
                    &&& position == old(self)@.handed_out
                    &&& position < old(self)@.chunks.len()
                    &&& chunk == old(self)@.chunks[position as int]
                    &&& next_worker(old(self)@.pool) == Some(worker as int)
                    &&& final(self)@ == after_run(old(self)@, worker as int)
                },
                Step::Wait => {
                    &&& final(self)@ == old(self)@
                    &&& if old(self)@.handed_out < old(self)@.chunks.len() {
                        all_busy(old(self)@.pool)
                    } else {
                        !all_idle(old(self)@.pool)
                    }
                },
                Step::Finished => {
                    &&& final(self)@ == old(self)@
                    &&& is_finished(old(self)@)
                    &&& old(self)@.results.len() == old(self)@.chunks.len()
                },
            },
    {
        proof {
            use_type_invariant(&*self);
            lemma_initial_is_sound(Seq::empty(), 0);
            if is_finished(self@) {
                lemma_finished_reports_every_chunk(self@);
            }
        }
        let mut desk = Desk::new(Vec::new(), 0);
        core::mem::swap(&mut desk, &mut self.desk);
        let step = desk.next_step();
        self.desk = desk;
        step
    }

    /// Takes the report of `worker`: the outcome of the chunk that it ran
    /// is recorded, and the worker goes back to the pool, whatever the
    /// outcome is. Gives `false`, and changes nothing, exactly if `worker`
    /// is not out with a chunk.
    pub fn complete(&mut self, worker: usize, outcome: Result<Vec<Segment>, String>) -> (taken:
        bool)
        ensures
            sound(old(self)@),
            sound(final(self)@),
            taken == (worker < old(self)@.pool.len() && old(self)@.pool[worker as int]),
            final(self)@ == if taken {
                after_report(old(self)@, worker as int, outcome)
            } else {
                old(self)@
            },
    {
        proof {
            use_type_invariant(&*self);
            lemma_initial_is_sound(Seq::empty(), 0);
        }
        let mut desk = Desk::new(Vec::new(), 0);
        core::mem::swap(&mut desk, &mut self.desk);
        let taken = desk.complete(worker, outcome);
        self.desk = desk;
        taken
    }

    /// Whether every chunk has been run and reported. Then there is one
    /// result for each chunk.
    pub fn finished(&self) -> (yes: bool)
        ensures
            sound(self@),
            yes == is_finished(self@),
            yes ==> self@.results.len() == self@.chunks.len(),
    {
        proof {
            use_type_invariant(self);
            lemma_idle_pool_has_none_busy(self@.pool);
            if is_finished(self@) {
                lemma_finished_reports_every_chunk(self@);
            }
        }
        self.desk.handed_out == self.desk.chunks.len() && self.desk.pool.in_flight() == 0
    }

    /// What has been reported, in the order of the reports.
    pub fn into_results(self) -> (out: Vec<ChunkResult>)
        ensures
            out@ == self@.results,
    {
        self.desk.results
    }
}

} // verus!
