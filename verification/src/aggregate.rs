//! Stitching of per-chunk results into one transcript.
//!
//! Every segment of a chunk that was transcribed is moved from the time of
//! the chunk's physical window to the time of the recording, kept or
//! dropped by the ownership rule, cleaned, dropped if no text is left, and
//! put in order. Chunks that failed give no segments and are listed.

use crate::ordering::{
    insert_ordered, lemma_ordered_is_ordered, ordered, place, placed_views, segments_of, Placed,
    PlacedView,
};
use crate::planner::{covered_end, is_plan, lemma_one_owner, owns, Chunk};
use crate::segment::{lemma_views_take_next, views, Segment, SegmentView};
use crate::subtitle::{blocks, has_text, srt_text, with_text};
use crate::text::{
    cleaned, cleanup_text, is_trimmed, lemma_cleaned_is_trimmed, lemma_trimming_keeps_trimmed,
    trimmed,
};
use vstd::prelude::*;

verus! {

/// How it is decided which of two overlapping chunks keeps a segment.
#[derive(Clone, Copy, Debug, PartialEq, Eq, Structural)]
pub enum OwnershipRule {
    /// A chunk keeps the segments whose midpoint, in recording time, lies
    /// in its core window.
    Midpoint,
    /// Every chunk but the first drops the segments that begin, in the
    /// time of its own window, before the given margin.
    AfterMargin(u64),
}

/// What came of one chunk: its segments, in the time of its physical
/// window, or the reason why it failed.
#[derive(Debug, PartialEq, Eq)]
pub struct ChunkResult {
    pub chunk: Chunk,
    pub outcome: Result<Vec<Segment>, String>,
}

/// A chunk that failed, and why.
#[derive(Clone, Debug, PartialEq, Eq)]
pub struct ChunkFailure {
    pub chunk_index: usize,
    pub reason: String,
}

/// A failed chunk as contracts speak of it.
pub ghost struct FailedChunkView {
    pub chunk_index: nat,
    pub reason: Seq<char>,
}

impl View for ChunkFailure {
    type V = FailedChunkView;

    open spec fn view(&self) -> FailedChunkView {
        FailedChunkView { chunk_index: self.chunk_index as nat, reason: self.reason@ }
    }
}

/// The views of a sequence of failures, in order.
pub open spec fn failure_views(failures: Seq<ChunkFailure>) -> Seq<FailedChunkView> {
    failures.map_values(|f: ChunkFailure| f@)
}

/// The outcome of a job: the transcript in recording time, the chunks that
/// failed, and the number of chunks that were transcribed.
#[derive(Clone, Debug, PartialEq, Eq)]
pub struct Report {
    pub segments: Vec<Segment>,
    pub failures: Vec<ChunkFailure>,
    pub completed: usize,
}

/// `local` moved later by `offset`.
pub open spec fn translated(local: SegmentView, offset: nat) -> SegmentView {
    SegmentView { start: local.start + offset, end: local.end + offset, text: local.text }
}

/// Whether the midpoint of `global` lies in the core window of `chunk`.
/// The midpoint is `(start + end) / 2`, taken exactly: both sides of each
/// comparison are doubled.
pub open spec fn midpoint_in_core(chunk: Chunk, global: SegmentView) -> bool {
    2 * chunk.core_start <= global.start + global.end < 2 * chunk.core_end
}

/// The midpoint of a segment, rounded down to a whole instant.
pub open spec fn midpoint(global: SegmentView) -> int {
    (global.start + global.end) as int / 2
}

/// Whether `chunk` keeps its segment `local` under `rule`.
pub open spec fn is_kept(rule: OwnershipRule, chunk: Chunk, local: SegmentView) -> bool {
    match rule {
        OwnershipRule::Midpoint => midpoint_in_core(
            chunk,
            translated(local, chunk.physical_start as nat),
        ),
        OwnershipRule::AfterMargin(margin) => chunk.index == 0 || local.start >= margin,
    }
}

/// What the segment `local` of `chunk` gives to the transcript: nothing if
/// the chunk does not keep it or no text is left once it is cleaned; else
/// the segment in recording time, with its cleaned text.
pub open spec fn contribution(rule: OwnershipRule, chunk: Chunk, local: SegmentView) -> Option<
    PlacedView,
> {
    if is_kept(rule, chunk, local) && cleaned(local.text).len() > 0 {
        Some(
            PlacedView {
                chunk_index: chunk.index as nat,
                segment: SegmentView {
                    text: cleaned(local.text),
                    ..translated(local, chunk.physical_start as nat)
                },
            },
        )
    } else {
        None
    }
}

/// What the segments `locals` of `chunk` give to the transcript, in order.
pub open spec fn contributions(rule: OwnershipRule, chunk: Chunk, locals: Seq<SegmentView>) -> Seq<
    PlacedView,
> {
    locals.filter_map(|local: SegmentView| contribution(rule, chunk, local))
}

/// What one result gives to the transcript: nothing if the chunk failed.
pub open spec fn result_contributions(rule: OwnershipRule, result: ChunkResult) -> Seq<PlacedView> {
    match result.outcome {
        Ok(locals) => contributions(rule, result.chunk, views(locals@)),
        Err(_) => Seq::empty(),
    }
}

/// What all results give to the transcript, result after result.
pub open spec fn gathered(rule: OwnershipRule, results: Seq<ChunkResult>) -> Seq<PlacedView>
    decreases results.len(),
{
    if results.len() == 0 {
        Seq::empty()
    } else {
        gathered(rule, results.drop_last()) + result_contributions(rule, results.last())
    }
}

/// The transcript of a job: what all results give, in order of start, then
/// of chunk index, then as the chunk had them.
pub open spec fn transcript(rule: OwnershipRule, results: Seq<ChunkResult>) -> Seq<SegmentView> {
    segments_of(ordered(gathered(rule, results)))
}

/// The failure that a result records, if it records one.
pub open spec fn failure_of(result: ChunkResult) -> Option<FailedChunkView> {
    match result.outcome {
        Ok(_) => None,
        Err(reason) => Some(
            FailedChunkView { chunk_index: result.chunk.index as nat, reason: reason@ },
        ),
    }
}

/// The chunks that failed, in the order of the results.
pub open spec fn failures_of(results: Seq<ChunkResult>) -> Seq<FailedChunkView> {
    results.filter_map(|r: ChunkResult| failure_of(r))
}

/// Number of results that did not fail.
pub open spec fn completed_of(results: Seq<ChunkResult>) -> nat {
    results.filter(|r: ChunkResult| r.outcome is Ok).len()
}

/// Whether `local`, moved to the time of the recording, still has bounds
/// that fit in 64 bits.
pub open spec fn fits(chunk: Chunk, local: SegmentView) -> bool {
    local.start + chunk.physical_start <= u64::MAX && local.end + chunk.physical_start <= u64::MAX
}

/// Whether every segment of `result` fits once moved.
pub open spec fn result_fits(result: ChunkResult) -> bool {
    match result.outcome {
        Ok(locals) => forall|j: int| 0 <= j < locals@.len() ==> fits(result.chunk, #[trigger] locals@[j]@),
        Err(_) => true,
    }
}

/// Whether every segment of every result fits once moved.
pub open spec fn all_fit(results: Seq<ChunkResult>) -> bool {
    forall|i: int| 0 <= i < results.len() ==> result_fits(#[trigger] results[i])
}

/// `base` with the entries of `more` put in, one after the other.
pub open spec fn insert_all(base: Seq<PlacedView>, more: Seq<PlacedView>) -> Seq<PlacedView>
    decreases more.len(),
{
    if more.len() == 0 {
        base
    } else {
        insert_ordered(insert_all(base, more.drop_last()), more.last())
    }
}

/// Ordering two sequences laid end to end is ordering the first and then
/// putting in the entries of the second.
pub proof fn lemma_ordered_concat(a: Seq<PlacedView>, b: Seq<PlacedView>)
    ensures
        ordered(a + b) == insert_all(ordered(a), b),
    decreases b.len(),
{
    if b.len() > 0 {
        lemma_ordered_concat(a, b.drop_last());
        assert((a + b).drop_last() =~= a + b.drop_last());
    }
}

/// How what the first `j + 1` segments of a chunk give comes from what the
/// first `j` give.
pub proof fn lemma_contributions_next(
    rule: OwnershipRule,
    chunk: Chunk,
    locals: Seq<Segment>,
    j: int,
)
    requires
        0 <= j < locals.len(),
    ensures
        contributions(rule, chunk, views(locals.take(j + 1))) == match contribution(
            rule,
            chunk,
            locals[j]@,
        ) {
            Some(p) => contributions(rule, chunk, views(locals.take(j))).push(p),
            None => contributions(rule, chunk, views(locals.take(j))),
        },
{
    lemma_views_take_next(locals, j);
    let all = views(locals.take(j + 1));
    let f = |local: SegmentView| contribution(rule, chunk, local);
    if let Some(p) = contribution(rule, chunk, locals[j]@) {
        assert(all.drop_last().filter_map(f) + seq![p] =~= all.drop_last().filter_map(f).push(p));
    }
}

/// The starts of a transcript never decrease, and the transcript holds as
/// many segments as the results give.
pub proof fn lemma_transcript_is_sorted(rule: OwnershipRule, results: Seq<ChunkResult>)
    ensures
        transcript(rule, results).len() == gathered(rule, results).len(),
        forall|i: int, j: int|
            0 <= i < j < transcript(rule, results).len() ==> transcript(rule, results)[i].start
                <= transcript(rule, results)[j].start,
{
    lemma_ordered_is_ordered(gathered(rule, results));
}

/// Under the midpoint rule a chunk keeps a segment exactly if the chunk
/// owns the instant `(start + end) / 2`, rounded down, of the segment in
/// recording time.
pub proof fn lemma_midpoint_is_owned_instant(chunk: Chunk, global: SegmentView)
    ensures
        midpoint_in_core(chunk, global) <==> owns(chunk, midpoint(global)),
{
}

/// Under the midpoint rule the chunks of a plan share out the segments:
/// a segment, in recording time, whose midpoint lies in the stretch that
/// the plan covers is kept by exactly one chunk, the one whose core window
/// holds the midpoint; any other segment is kept by none.
pub proof fn lemma_midpoint_rule_has_one_owner(
    chunks: Seq<Chunk>,
    total: int,
    length: int,
    overlap: int,
    min_tail: int,
    global: SegmentView,
)
    requires
        total > 0,
        length > 0,
        is_plan(chunks, total, length, overlap, min_tail),
    ensures
        midpoint(global) < covered_end(total, length, min_tail) ==> 0 <= midpoint(global) / length
            < chunks.len() && midpoint_in_core(chunks[midpoint(global) / length], global),
        forall|i: int|
            0 <= i < chunks.len() && midpoint_in_core(#[trigger] chunks[i], global) ==> i
                == midpoint(global) / length && midpoint(global) < covered_end(
                total,
                length,
                min_tail,
            ),
{
    let t = midpoint(global);
    lemma_one_owner(chunks, total, length, overlap, min_tail, t);
    assert forall|i: int| 0 <= i < chunks.len() implies (midpoint_in_core(
        #[trigger] chunks[i],
        global,
    ) <==> owns(chunks[i], t)) by {
        lemma_midpoint_is_owned_instant(chunks[i], global);
    }
}

/// Whether every entry carries a text that is not empty and has no white
/// space at either end.
pub open spec fn all_tidy(entries: Seq<PlacedView>) -> bool {
    forall|i: int|
        0 <= i < entries.len() ==> (#[trigger] entries[i]).segment.text.len() > 0 && is_trimmed(
            entries[i].segment.text,
        )
}

/// What the segments of a chunk give to the transcript carries text that
/// is not empty and has no white space at either end.
pub proof fn lemma_contributions_are_tidy(
    rule: OwnershipRule,
    chunk: Chunk,
    locals: Seq<SegmentView>,
)
    ensures
        all_tidy(contributions(rule, chunk, locals)),
    decreases locals.len(),
{
    if locals.len() > 0 {
        lemma_contributions_are_tidy(rule, chunk, locals.drop_last());
        lemma_cleaned_is_trimmed(locals.last().text);
    }
}

/// What all results give to the transcript carries text that is not empty
/// and has no white space at either end.
pub proof fn lemma_gathered_is_tidy(rule: OwnershipRule, results: Seq<ChunkResult>)
    ensures
        all_tidy(gathered(rule, results)),
    decreases results.len(),
{
    if results.len() > 0 {
        lemma_gathered_is_tidy(rule, results.drop_last());
        if let Ok(locals) = results.last().outcome {
            lemma_contributions_are_tidy(rule, results.last().chunk, views(locals@));
        }
    }
}

/// Rendering a transcript numbers each of its segments, and prints the
/// text of each as it stands: every segment of a transcript has text, and
/// trimming it changes nothing.
pub proof fn lemma_transcript_is_numbered_throughout(
    rule: OwnershipRule,
    results: Seq<ChunkResult>,
)
    ensures
        forall|i: int|
            0 <= i < transcript(rule, results).len() ==> {
                &&& (#[trigger] transcript(rule, results)[i]).text.len() > 0
                &&& trimmed(transcript(rule, results)[i].text) == transcript(rule, results)[i].text
            },
        with_text(transcript(rule, results)) == transcript(rule, results),
        srt_text(transcript(rule, results)) == blocks(transcript(rule, results)),
{
    broadcast use vstd::seq_lib::group_to_multiset_ensures;

    let given = gathered(rule, results);
    let all = transcript(rule, results);
    lemma_gathered_is_tidy(rule, results);
    lemma_ordered_is_ordered(given);
    assert forall|i: int| 0 <= i < all.len() implies (#[trigger] all[i]).text.len() > 0 && trimmed(
        all[i].text,
    ) == all[i].text by {
        let p = ordered(given)[i];
        assert(ordered(given).to_multiset().count(p) > 0);
        assert(given.contains(p));
        lemma_trimming_keeps_trimmed(p.segment.text);
    }
    lemma_all_with_text(all);
}

/// Where every segment has text, the segments with text are all segments.
pub proof fn lemma_all_with_text(segments: Seq<SegmentView>)
    requires
        forall|i: int| 0 <= i < segments.len() ==> has_text(#[trigger] segments[i]),
    ensures
        with_text(segments) == segments,
    decreases segments.len(),
{
    reveal(Seq::filter);
    if segments.len() > 0 {
        lemma_all_with_text(segments.drop_last());
        assert(segments.drop_last().push(segments.last()) =~= segments);
    }
}

/// Whether no segment of `segments` ends before it starts.
pub open spec fn ends_follow_starts(segments: Seq<SegmentView>) -> bool {
    forall|i: int| 0 <= i < segments.len() ==> (#[trigger] segments[i]).start <= segments[i].end
}

/// Whether no segment of any result ends before it starts.
pub open spec fn results_end_after_start(results: Seq<ChunkResult>) -> bool {
    forall|i: int|
        0 <= i < results.len() ==> match (#[trigger] results[i]).outcome {
            Ok(locals) => ends_follow_starts(views(locals@)),
            Err(_) => true,
        }
}

/// Whether no entry ends before it starts.
pub open spec fn entries_end_after_start(entries: Seq<PlacedView>) -> bool {
    forall|i: int|
        0 <= i < entries.len() ==> (#[trigger] entries[i]).segment.start <= entries[i].segment.end
}

/// What segments that do not end before they start give to the transcript
/// does not end before it starts.
pub proof fn lemma_contributions_end_after_start(
    rule: OwnershipRule,
    chunk: Chunk,
    locals: Seq<SegmentView>,
)
    requires
        ends_follow_starts(locals),
    ensures
        entries_end_after_start(contributions(rule, chunk, locals)),
    decreases locals.len(),
{
    if locals.len() > 0 {
        let front = locals.drop_last();
        assert forall|i: int| 0 <= i < front.len() implies (#[trigger] front[i]).start
            <= front[i].end by {
            assert(locals[i].start <= locals[i].end);
        }
        lemma_contributions_end_after_start(rule, chunk, front);
        assert(locals[locals.len() - 1].start <= locals[locals.len() - 1].end);
    }
}

/// Where no segment of any result ends before it starts, nothing that the
/// results give to the transcript does.
pub proof fn lemma_gathered_ends_after_start(rule: OwnershipRule, results: Seq<ChunkResult>)
    requires
        results_end_after_start(results),
    ensures
        entries_end_after_start(gathered(rule, results)),
    decreases results.len(),
{
    if results.len() > 0 {
        let front = results.drop_last();
        assert forall|i: int| 0 <= i < front.len() implies match (#[trigger] front[i]).outcome {
            Ok(locals) => ends_follow_starts(views(locals@)),
            Err(_) => true,
        } by {
            assert(results[i] == front[i]);
        }
        lemma_gathered_ends_after_start(rule, front);
        assert(results[results.len() - 1] == results.last());
        if let Ok(locals) = results.last().outcome {
            lemma_contributions_end_after_start(rule, results.last().chunk, views(locals@));
        }
    }
}

/// Where no segment of any result ends before it starts, none of the
/// transcript does.
pub proof fn lemma_transcript_ends_after_start(rule: OwnershipRule, results: Seq<ChunkResult>)
    requires
        results_end_after_start(results),
    ensures
        ends_follow_starts(transcript(rule, results)),
{
    broadcast use vstd::seq_lib::group_to_multiset_ensures;

    let given = gathered(rule, results);
    lemma_gathered_ends_after_start(rule, results);
    lemma_ordered_is_ordered(given);
    let all = transcript(rule, results);
    assert forall|i: int| 0 <= i < all.len() implies (#[trigger] all[i]).start <= all[i].end by {
        let p = ordered(given)[i];
        assert(ordered(given).to_multiset().count(p) > 0);
        assert(given.contains(p));
    }
}

/// `local` moved later by `offset`.
pub fn translate(local: &Segment, offset: u64) -> (out: Segment)
    requires
        local.start + offset <= u64::MAX,
        local.end + offset <= u64::MAX,
    ensures
        out@ == translated(local@, offset as nat),
{
    Segment { start: local.start + offset, end: local.end + offset, text: local.text.clone() }
}

/// Whether `chunk` keeps its segment `local` under `rule`.
pub fn keeps(rule: OwnershipRule, chunk: &Chunk, local: &Segment) -> (yes: bool)
    ensures
        yes == is_kept(rule, *chunk, local@),
{
    match rule {
        OwnershipRule::Midpoint => {
            let offset: u128 = chunk.physical_start as u128;
            let doubled: u128 = (local.start as u128 + offset) + (local.end as u128 + offset);
            2 * (chunk.core_start as u128) <= doubled && doubled < 2 * (chunk.core_end as u128)
        },
        OwnershipRule::AfterMargin(margin) => chunk.index == 0 || local.start >= margin,
    }
}

/// What the segment `local` of `chunk` gives to the transcript.
pub fn contribute(rule: OwnershipRule, chunk: &Chunk, local: &Segment) -> (out: Option<Placed>)
    requires
        fits(*chunk, local@),
    ensures
        match out {
            Some(p) => contribution(rule, *chunk, local@) == Some(p@),
            None => contribution(rule, *chunk, local@) is None,
        },
{
    if !keeps(rule, chunk, local) {
        return None;
    }
    let text: String = cleanup_text(local.text.as_str());
    if text.as_str().is_empty() {
        return None;
    }
    Some(
        Placed {
            chunk_index: chunk.index,
            segment: Segment {
                start: local.start + chunk.physical_start,
                end: local.end + chunk.physical_start,
                text,
            },
        },
    )
}

/// Puts what the segments `locals` of `chunk` give into `entries`.
pub fn gather_chunk(
    entries: &mut Vec<Placed>,
    rule: OwnershipRule,
    chunk: &Chunk,
    locals: &Vec<Segment>,
)
    requires
        forall|j: int| 0 <= j < locals@.len() ==> fits(*chunk, #[trigger] locals@[j]@),
    ensures
        placed_views(final(entries)@) == insert_all(
            placed_views(old(entries)@),
            contributions(rule, *chunk, views(locals@)),
        ),
{
    let mut j: usize = 0;
    while j < locals.len()
        invariant
            j <= locals@.len(),
            forall|k: int| 0 <= k < locals@.len() ==> fits(*chunk, #[trigger] locals@[k]@),
            placed_views(entries@) == insert_all(
                placed_views(old(entries)@),
                contributions(rule, *chunk, views(locals@.take(j as int))),
            ),
        decreases locals@.len() - j,
    {
        proof {
            lemma_contributions_next(rule, *chunk, locals@, j as int);
        }
        match contribute(rule, chunk, &locals[j]) {
            Some(entry) => {
                proof {
                    let sofar = contributions(rule, *chunk, views(locals@.take(j as int)));
                    assert(sofar.push(entry@).drop_last() =~= sofar);
                }
                place(entries, entry);
            },
            None => {},
        }
        j += 1;
    }
    assert(locals@.take(locals@.len() as int) =~= locals@);
}

/// Stitches the results of a job into its report.
///
/// The transcript holds, for every result that did not fail, the segments
/// that the chunk keeps under `rule` and that have text left once cleaned,
/// in recording time and with their cleaned text; it is ordered by start,
/// then by chunk index, then as the chunk had them. The failed chunks are
/// listed in the order of the results.
pub fn aggregate(results: &Vec<ChunkResult>, rule: OwnershipRule) -> (report: Report)
    requires
        all_fit(results@),
    ensures
        views(report.segments@) == transcript(rule, results@),
        failure_views(report.failures@) == failures_of(results@),
        report.completed == completed_of(results@),
        forall|i: int, j: int|
            0 <= i < j < report.segments@.len() ==> report.segments@[i].start
                <= report.segments@[j].start,
{
    let mut entries: Vec<Placed> = Vec::new();
    let mut failures: Vec<ChunkFailure> = Vec::new();
    let mut completed: usize = 0;
    let mut i: usize = 0;
    proof {
        reveal(Seq::filter);
    }
    while i < results.len()
        invariant
            i <= results@.len(),
            all_fit(results@),
            placed_views(entries@) == ordered(gathered(rule, results@.take(i as int))),
            failure_views(failures@) == failures_of(results@.take(i as int)),
            completed == completed_of(results@.take(i as int)),
            completed <= i,
        decreases results@.len() - i,
    {
        let result: &ChunkResult = &results[i];
        proof {
            let before = results@.take(i as int);
            let now = results@.take(i + 1);
            assert(now.drop_last() =~= before);
            lemma_ordered_concat(gathered(rule, before), result_contributions(rule, *result));
            reveal(Seq::filter);
        }
        match &result.outcome {
            Ok(locals) => {
                gather_chunk(&mut entries, rule, &result.chunk, locals);
                completed += 1;
            },
            Err(reason) => {
                failures.push(
                    ChunkFailure { chunk_index: result.chunk.index, reason: reason.clone() },
                );
            },
        }
        i += 1;
    }
    assert(results@.take(results@.len() as int) =~= results@);
    let segments: Vec<Segment> = strip(&entries);
    proof {
        lemma_transcript_is_sorted(rule, results@);
        assert forall|i: int, j: int| 0 <= i < j < segments@.len() implies segments@[i].start
            <= segments@[j].start by {
            assert(views(segments@)[i].start <= views(segments@)[j].start);
        }
    }
    Report { segments, failures, completed }
}

/// Whether every segment of `locals` fits once moved to the time of the
/// recording, as a segment of `chunk`.
pub fn check_chunk_fit(chunk: &Chunk, locals: &Vec<Segment>) -> (ok: bool)
    ensures
        ok == forall|j: int| 0 <= j < locals@.len() ==> fits(*chunk, #[trigger] locals@[j]@),
{
    let room: u64 = u64::MAX - chunk.physical_start;
    let mut j: usize = 0;
    while j < locals.len()
        invariant
            j <= locals@.len(),
            room == u64::MAX - chunk.physical_start,
            forall|k: int| 0 <= k < j ==> fits(*chunk, #[trigger] locals@[k]@),
        decreases locals@.len() - j,
    {
        if locals[j].start > room || locals[j].end > room {
            assert(!fits(*chunk, locals@[j as int]@));
            return false;
        }
        j += 1;
    }
    true
}

/// Whether every segment of every result fits once moved.
pub fn check_fit(results: &Vec<ChunkResult>) -> (ok: bool)
    ensures
        ok == all_fit(results@),
{
    let mut i: usize = 0;
    while i < results.len()
        invariant
            i <= results@.len(),
            forall|k: int| 0 <= k < i ==> result_fits(#[trigger] results@[k]),
        decreases results@.len() - i,
    {
        let fit: bool = match &results[i].outcome {
            Ok(locals) => check_chunk_fit(&results[i].chunk, locals),
            Err(_) => true,
        };
        if !fit {
            return false;
        }
        i += 1;
    }
    true
}

/// Stitches the results of a job into its report, as `aggregate` does, if
/// every segment fits once moved. Gives `None` exactly if one does not.
pub fn try_aggregate(results: &Vec<ChunkResult>, rule: OwnershipRule) -> (out: Option<Report>)
    ensures
        out is Some == all_fit(results@),
        match out {
            Some(report) => {
                &&& views(report.segments@) == transcript(rule, results@)
                &&& failure_views(report.failures@) == failures_of(results@)
                &&& report.completed == completed_of(results@)
                &&& forall|i: int, j: int|
                    0 <= i < j < report.segments@.len() ==> report.segments@[i].start
                        <= report.segments@[j].start
            },
            None => true,
        },
{
    if check_fit(results) {
        Some(aggregate(results, rule))
    } else {
        None
    }
}

/// The segments of `entries`, in order.
pub fn strip(entries: &Vec<Placed>) -> (out: Vec<Segment>)
    ensures
        views(out@) == segments_of(placed_views(entries@)),
{
    let mut out: Vec<Segment> = Vec::new();
    let mut i: usize = 0;
    while i < entries.len()
        invariant
            i <= entries@.len(),
            views(out@) =~= segments_of(placed_views(entries@.take(i as int))),
        decreases entries@.len() - i,
    {
        out.push(entries[i].segment.duplicate());
        proof {
            assert(segments_of(placed_views(entries@.take(i + 1))) =~= segments_of(
                placed_views(entries@.take(i as int)),
            ).push(entries@[i as int].segment@));
        }
        i += 1;
    }
    out
}

impl Report {
    /// Whether the job failed as a whole: chunks failed and none was
    /// transcribed.
    pub fn is_failure(&self) -> (yes: bool)
        ensures
            yes == (self.completed == 0 && self.failures@.len() > 0),
    {
        self.completed == 0 && self.failures.len() > 0
    }
}

} // verus!
