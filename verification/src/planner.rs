//! Chunk planning: cutting a recording of known length into windows.
//!
//! Every chunk owns a *core* window; the core windows lie back to back from
//! the start of the recording. What is handed to the engine is the
//! *physical* window: the core window widened by the overlap margin on both
//! sides and clamped to the recording.
//!
//! All quantities are in one unit of the caller's choice (milliseconds, or
//! samples), and so is the floor below which a trailing window is not worth
//! a chunk of its own.

use vstd::prelude::*;

verus! {

/// One unit of work: a window of the recording.
#[derive(Clone, Copy, Debug, PartialEq, Eq, Structural)]
pub struct Chunk {
    /// Position of the chunk in the plan, counted from zero.
    pub index: usize,
    /// Start of the window this chunk is responsible for (inclusive).
    pub core_start: u64,
    /// End of the window this chunk is responsible for (exclusive).
    pub core_end: u64,
    /// Start of the window handed to the engine.
    pub physical_start: u64,
    /// End of the window handed to the engine.
    pub physical_end: u64,
}

/// The smaller of two integers.
pub open spec fn lesser(a: int, b: int) -> int {
    if a <= b {
        a
    } else {
        b
    }
}

/// The larger of two integers.
pub open spec fn greater(a: int, b: int) -> int {
    if a >= b {
        a
    } else {
        b
    }
}

/// Number of back-to-back windows of `length` needed to cover `total`:
/// `total / length`, rounded up.
pub open spec fn window_count(total: int, length: int) -> int {
    (total + length - 1) / length
}

/// Length of the last of the back-to-back windows.
pub open spec fn tail_length(total: int, length: int) -> int {
    total - (window_count(total, length) - 1) * length
}

/// Whether the last window is left out of the plan: it is shorter than
/// `min_tail` and it is not the only window.
pub open spec fn drops_tail(total: int, length: int, min_tail: int) -> bool {
    window_count(total, length) > 1 && tail_length(total, length) < min_tail
}

/// Number of chunks in the plan.
pub open spec fn chunk_count(total: int, length: int, min_tail: int) -> int {
    if drops_tail(total, length, min_tail) {
        window_count(total, length) - 1
    } else {
        window_count(total, length)
    }
}

/// End of the stretch of the recording that the plan's core windows cover.
pub open spec fn covered_end(total: int, length: int, min_tail: int) -> int {
    if drops_tail(total, length, min_tail) {
        (window_count(total, length) - 1) * length
    } else {
        total
    }
}

/// `c` is the chunk at position `i` of a plan for a recording of `total`
/// units, with windows of `length` units and a margin of `overlap` units.
pub open spec fn is_planned_chunk(c: Chunk, i: int, total: int, length: int, overlap: int) -> bool {
    &&& c.index == i
    &&& c.core_start == i * length
    &&& c.core_end == lesser((i + 1) * length, total)
    &&& c.physical_start == greater(i * length - overlap, 0)
    &&& c.physical_end == lesser(lesser((i + 1) * length, total) + overlap, total)
}

/// `chunks` is the plan for the given recording and settings.
pub open spec fn is_plan(
    chunks: Seq<Chunk>,
    total: int,
    length: int,
    overlap: int,
    min_tail: int,
) -> bool {
    &&& chunks.len() == chunk_count(total, length, min_tail)
    &&& forall|i: int|
        0 <= i < chunks.len() ==> is_planned_chunk(#[trigger] chunks[i], i, total, length, overlap)
}

/// Whether the instant `t` lies in the core window of `c`.
pub open spec fn owns(c: Chunk, t: int) -> bool {
    c.core_start <= t < c.core_end
}

/// `window_count` is the one `k` with `(k - 1) * length < total <= k * length`.
pub proof fn lemma_window_count_bounds(total: int, length: int)
    requires
        total >= 0,
        length > 0,
    ensures
        window_count(total, length) >= 0,
        (window_count(total, length) - 1) * length < total,
        total <= window_count(total, length) * length,
        total > 0 ==> window_count(total, length) >= 1,
{
    let k = window_count(total, length);
    assert((k - 1) * length < total && total <= k * length && k >= 0) by (nonlinear_arith)
        requires
            total >= 0,
            length > 0,
            k == (total + length - 1) / length,
    ;
    if total > 0 && k < 1 {
        assert(k * length <= 0) by (nonlinear_arith)
            requires
                k <= 0,
                length > 0,
        ;
    }
}

/// Any `k` that brackets `total` as `window_count` does is `window_count`.
pub proof fn lemma_window_count_unique(total: int, length: int, k: int)
    requires
        total >= 0,
        length > 0,
        (k - 1) * length < total,
        total <= k * length,
    ensures
        k == window_count(total, length),
{
    let n = window_count(total, length);
    lemma_window_count_bounds(total, length);
    assert(k == n) by (nonlinear_arith)
        requires
            length > 0,
            (k - 1) * length < total,
            total <= k * length,
            (n - 1) * length < total,
            total <= n * length,
    ;
}

/// Where window `i` starts and where the next one would.
proof fn lemma_window_start(total: int, length: int, i: int)
    requires
        total >= 0,
        length > 0,
        0 <= i < window_count(total, length),
    ensures
        0 <= i * length < total,
        (i + 1) * length == i * length + length,
        i < window_count(total, length) - 1 ==> (i + 1) * length < total,
{
    lemma_window_count_bounds(total, length);
    let n = window_count(total, length);
    assert((i + 1) * length == i * length + length) by (nonlinear_arith);
    assert(0 <= i * length <= (n - 1) * length) by (nonlinear_arith)
        requires
            0 <= i <= n - 1,
            length > 0,
    ;
    if i < n - 1 {
        assert((i + 1) * length <= (n - 1) * length) by (nonlinear_arith)
            requires
                i + 1 <= n - 1,
                length > 0,
        ;
    }
}

/// The stretch that a plan covers ends with the recording unless the last
/// window was left out; what is left out is shorter than `min_tail`.
pub proof fn lemma_covered_end(total: int, length: int, min_tail: int)
    requires
        total >= 0,
        length > 0,
    ensures
        0 <= covered_end(total, length, min_tail) <= total,
        !drops_tail(total, length, min_tail) ==> covered_end(total, length, min_tail) == total,
        drops_tail(total, length, min_tail) ==> 0 < total - covered_end(total, length, min_tail)
            < min_tail,
        total > 0 ==> covered_end(total, length, min_tail) > 0,
{
    lemma_window_count_bounds(total, length);
    let n = window_count(total, length);
    if drops_tail(total, length, min_tail) {
        assert((n - 1) * length > 0) by (nonlinear_arith)
            requires
                n > 1,
                length > 0,
        ;
    }
}

/// The core windows of a plan lie back to back: the first starts at zero,
/// each next one starts where the one before it ends, none is empty, and
/// the last ends where the covered stretch ends. The number of chunks is
/// `total / length` rounded up, less one where the last window is left out.
pub proof fn lemma_cores_lie_back_to_back(
    chunks: Seq<Chunk>,
    total: int,
    length: int,
    overlap: int,
    min_tail: int,
)
    requires
        total > 0,
        length > 0,
        is_plan(chunks, total, length, overlap, min_tail),
    ensures
        chunks.len() >= 1,
        chunks.len() == window_count(total, length) - if drops_tail(total, length, min_tail) {
            1int
        } else {
            0int
        },
        chunks[0].core_start == 0,
        chunks.last().core_end == covered_end(total, length, min_tail),
        forall|i: int|
            0 <= i < chunks.len() - 1 ==> (#[trigger] chunks[i]).core_end == chunks[i
                + 1].core_start,
        forall|i: int|
            0 <= i < chunks.len() ==> (#[trigger] chunks[i]).core_start < chunks[i].core_end,
{
    lemma_window_count_bounds(total, length);
    let k = chunks.len() as int;
    assert forall|i: int| 0 <= i < k - 1 implies (#[trigger] chunks[i]).core_end == chunks[i
        + 1].core_start by {
        lemma_window_start(total, length, i);
    }
    assert forall|i: int| 0 <= i < k implies (#[trigger] chunks[i]).core_start
        < chunks[i].core_end by {
        lemma_window_start(total, length, i);
    }
}

/// Every instant of the covered stretch lies in the core window of exactly
/// one chunk of the plan, and no instant outside it lies in any.
pub proof fn lemma_one_owner(
    chunks: Seq<Chunk>,
    total: int,
    length: int,
    overlap: int,
    min_tail: int,
    t: int,
)
    requires
        total > 0,
        length > 0,
        is_plan(chunks, total, length, overlap, min_tail),
    ensures
        0 <= t < covered_end(total, length, min_tail) ==> 0 <= t / length < chunks.len() && owns(
            chunks[t / length],
            t,
        ),
        forall|i: int| 0 <= i < chunks.len() && owns(#[trigger] chunks[i], t) ==> i == t / length,
        forall|i: int|
            0 <= i < chunks.len() && owns(#[trigger] chunks[i], t) ==> 0 <= t < covered_end(
                total,
                length,
                min_tail,
            ),
{
    lemma_window_count_bounds(total, length);
    lemma_cores_lie_back_to_back(chunks, total, length, overlap, min_tail);
    let k = chunks.len() as int;
    let covered = covered_end(total, length, min_tail);
    if 0 <= t < covered {
        let q = t / length;
        assert(0 <= q && q * length <= t && t < (q + 1) * length && q < k) by (nonlinear_arith)
            requires
                0 <= t,
                t < k * length,
                length > 0,
                q == t / length,
        ;
    }
    assert forall|i: int| 0 <= i < k && owns(#[trigger] chunks[i], t) implies i == t / length && 0
        <= t < covered by {
        assert(i == t / length) by (nonlinear_arith)
            requires
                i * length <= t,
                t < (i + 1) * length,
                length > 0,
        ;
        assert((i + 1) * length <= k * length) by (nonlinear_arith)
            requires
                i + 1 <= k,
                length > 0,
        ;
    }
}

/// Whether the instant `t` lies in the core window of one of `chunks`.
pub open spec fn has_owner(chunks: Seq<Chunk>, t: int) -> bool {
    exists|i: int| 0 <= i < chunks.len() && #[trigger] owns(chunks[i], t)
}

/// Where no last window is left out, the core windows of a plan tile the
/// recording: there are `total / length`, rounded up, of them; the first
/// starts at zero, each next one starts where the one before it ends, and
/// the last ends with the recording; every instant of the recording lies
/// in the core window of exactly one chunk, and no other instant in any.
pub proof fn lemma_cores_tile_recording(
    chunks: Seq<Chunk>,
    total: int,
    length: int,
    overlap: int,
    min_tail: int,
)
    requires
        total > 0,
        length > 0,
        0 <= overlap < length,
        is_plan(chunks, total, length, overlap, min_tail),
        !drops_tail(total, length, min_tail),
    ensures
        chunks.len() == window_count(total, length),
        chunks[0].core_start == 0,
        chunks.last().core_end == total,
        forall|i: int|
            0 <= i < chunks.len() - 1 ==> (#[trigger] chunks[i]).core_end == chunks[i
                + 1].core_start,
        forall|t: int| 0 <= t < total <==> #[trigger] has_owner(chunks, t),
        forall|i: int, j: int, t: int|
            0 <= i < chunks.len() && 0 <= j < chunks.len() && #[trigger] owns(chunks[i], t)
                && #[trigger] owns(chunks[j], t) ==> i == j,
{
    lemma_cores_lie_back_to_back(chunks, total, length, overlap, min_tail);
    assert forall|t: int| 0 <= t < total <==> #[trigger] has_owner(chunks, t) by {
        lemma_one_owner(chunks, total, length, overlap, min_tail, t);
    }
    assert forall|i: int, j: int, t: int|
        0 <= i < chunks.len() && 0 <= j < chunks.len() && #[trigger] owns(chunks[i], t)
            && #[trigger] owns(chunks[j], t) implies i == j by {
        lemma_one_owner(chunks, total, length, overlap, min_tail, t);
    }
}

/// The physical window of a planned chunk contains its core window and
/// stays inside the recording.
pub proof fn lemma_physical_contains_core(
    chunks: Seq<Chunk>,
    total: int,
    length: int,
    overlap: int,
    min_tail: int,
    i: int,
)
    requires
        total > 0,
        length > 0,
        overlap >= 0,
        is_plan(chunks, total, length, overlap, min_tail),
        0 <= i < chunks.len(),
    ensures
        0 <= chunks[i].physical_start <= chunks[i].core_start,
        chunks[i].core_start < chunks[i].core_end,
        chunks[i].core_end <= chunks[i].physical_end <= total,
        chunks[i].physical_start == greater(chunks[i].core_start - overlap, 0),
        chunks[i].physical_end == lesser(chunks[i].core_end + overlap, total),
{
    lemma_cores_lie_back_to_back(chunks, total, length, overlap, min_tail);
}

/// Plans the chunks for a recording of `total` units.
///
/// Core windows of `length` units lie back to back from zero; the last one
/// ends with the recording. A last window shorter than `min_tail` is left
/// out unless it is the only one. Each physical window is the core window
/// widened by `overlap` on both sides, clamped to `[0, total]`.
pub fn plan_chunks(total: u64, length: u64, overlap: u64, min_tail: u64) -> (chunks: Vec<Chunk>)
    requires
        length > 0,
    ensures
        is_plan(chunks@, total as int, length as int, overlap as int, min_tail as int),
{
    let mut chunks: Vec<Chunk> = Vec::new();
    let mut start: u64 = 0;
    let mut open: bool = total > 0;
    proof {
        assert(chunks@.len() * length == 0) by (nonlinear_arith)
            requires
                chunks@.len() == 0,
        ;
        lemma_window_count_bounds(total as int, length as int);
        if total == 0 {
            assert(window_count(0, length as int) == 0) by (nonlinear_arith)
                requires
                    length > 0,
            ;
        }
    }
    while open
        invariant
            length > 0,
            open ==> start < total && start == chunks@.len() * length,
            open ==> chunks@.len() < window_count(total as int, length as int),
            !open ==> chunks@.len() == chunk_count(total as int, length as int, min_tail as int),
            forall|i: int|
                0 <= i < chunks@.len() ==> is_planned_chunk(
                    #[trigger] chunks@[i],
                    i,
                    total as int,
                    length as int,
                    overlap as int,
                ),
        decreases
                (if open { 1int } else { 0int }) + total - start,
    {
        let index: usize = chunks.len();
        let last: bool = total - start <= length;
        proof {
            let i = index as int;
            assert((i + 1) * length == i * length + length) by (nonlinear_arith);
            lemma_window_count_bounds(total as int, length as int);
            if last {
                lemma_window_count_unique(total as int, length as int, i + 1);
            } else {
                let n = window_count(total as int, length as int);
                assert(i + 1 < n) by (nonlinear_arith)
                    requires
                        (i + 1) * length < total,
                        total <= n * length,
                        length > 0,
                ;
            }
        }
        let core_end: u64 = if last {
            total
        } else {
            start + length
        };
        if last && index > 0 && core_end - start < min_tail {
            open = false;
        } else {
            let physical_start: u64 = if start >= overlap {
                start - overlap
            } else {
                0
            };
            let physical_end: u64 = if total - core_end <= overlap {
                total
            } else {
                core_end + overlap
            };
            chunks.push(Chunk { index, core_start: start, core_end, physical_start, physical_end });
            if last {
                open = false;
            } else {
                start = core_end;
            }
        }
    }
    chunks
}


/// The instant, in whole milliseconds, at which sample number `samples` of
/// a stream of `rate` samples per second begins.
pub open spec fn millis_at(samples: int, rate: int) -> int {
    samples * 1000 / rate
}

/// The number of the sample that is played at the instant `millis` of a
/// stream of `rate` samples per second.
pub open spec fn sample_at(millis: int, rate: int) -> int {
    millis * rate / 1000
}

/// The instant at which sample number `samples` begins. Gives `None` if
/// `rate` is zero or the instant does not fit in 64 bits.
pub fn millis_of_samples(samples: u64, rate: u32) -> (out: Option<u64>)
    ensures
        match out {
            Some(millis) => rate > 0 && millis == millis_at(samples as int, rate as int),
            None => rate == 0 || millis_at(samples as int, rate as int) > u64::MAX,
        },
{
    if rate == 0 {
        return None;
    }
    let millis: u128 = (samples as u128) * 1000 / (rate as u128);
    if millis > u64::MAX as u128 {
        None
    } else {
        Some(millis as u64)
    }
}

/// The number of the sample that is played at the instant `millis`. Gives
/// `None` if the number does not fit in 64 bits.
pub fn sample_of_millis(millis: u64, rate: u32) -> (out: Option<u64>)
    ensures
        match out {
            Some(sample) => sample == sample_at(millis as int, rate as int),
            None => sample_at(millis as int, rate as int) > u64::MAX,
        },
{
    assert(millis * rate <= 0xffff_ffff_ffff_ffff * 0xffff_ffff) by (nonlinear_arith)
        requires
            0 <= millis <= 0xffff_ffff_ffff_ffff,
            0 <= rate <= 0xffff_ffff,
    ;
    let sample: u128 = (millis as u128) * (rate as u128) / 1000;
    if sample > u64::MAX as u128 {
        None
    } else {
        Some(sample as u64)
    }
}

} // verus!
