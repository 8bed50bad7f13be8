//! Ordering of translated segments: by start, then by the chunk they came
//! from, then by the order in which they were handed in.

use crate::segment::{Segment, SegmentView};
use vstd::prelude::*;

verus! {

/// A segment in recording time, with the index of the chunk it came from.
#[derive(Clone, Debug, PartialEq, Eq)]
pub struct Placed {
    pub chunk_index: usize,
    pub segment: Segment,
}

/// A placed segment as contracts speak of it.
pub ghost struct PlacedView {
    pub chunk_index: nat,
    pub segment: SegmentView,
}

impl View for Placed {
    type V = PlacedView;

    open spec fn view(&self) -> PlacedView {
        PlacedView { chunk_index: self.chunk_index as nat, segment: self.segment@ }
    }
}

/// The views of a sequence of placed segments, in order.
pub open spec fn placed_views(entries: Seq<Placed>) -> Seq<PlacedView> {
    entries.map_values(|p: Placed| p@)
}

/// The segments of a sequence of placed segments, in order.
pub open spec fn segments_of(entries: Seq<PlacedView>) -> Seq<SegmentView> {
    entries.map_values(|p: PlacedView| p.segment)
}

/// Whether `a` may stand before `b`: it starts earlier, or at the same
/// instant and comes from a chunk that is not a later one.
pub open spec fn may_precede(a: PlacedView, b: PlacedView) -> bool {
    a.segment.start < b.segment.start || (a.segment.start == b.segment.start && a.chunk_index
        <= b.chunk_index)
}

/// Whether each entry may stand before all that follow it.
pub open spec fn is_ordered(entries: Seq<PlacedView>) -> bool {
    forall|i: int, j: int| 0 <= i < j < entries.len() ==> may_precede(entries[i], entries[j])
}

/// `entries`, which are ordered, with `e` put behind the last entry that
/// may stand before it.
pub open spec fn insert_ordered(entries: Seq<PlacedView>, e: PlacedView) -> Seq<PlacedView>
    decreases entries.len(),
{
    if entries.len() == 0 {
        seq![e]
    } else if may_precede(entries.last(), e) {
        entries.push(e)
    } else {
        insert_ordered(entries.drop_last(), e).push(entries.last())
    }
}

/// `entries` in order: sorted by start, then by chunk index; entries that
/// agree in both keep the order they came in.
pub open spec fn ordered(entries: Seq<PlacedView>) -> Seq<PlacedView>
    decreases entries.len(),
{
    if entries.len() == 0 {
        Seq::empty()
    } else {
        insert_ordered(ordered(entries.drop_last()), entries.last())
    }
}

/// Putting `e` into `entries` puts it at position `at`, where every entry
/// from `at` on may not stand before `e` and the entry before `at`, if
/// there is one, may.
pub proof fn lemma_insert_position(entries: Seq<PlacedView>, e: PlacedView, at: int)
    requires
        0 <= at <= entries.len(),
        forall|j: int| at <= j < entries.len() ==> !may_precede(entries[j], e),
        at > 0 ==> may_precede(entries[at - 1], e),
    ensures
        insert_ordered(entries, e) == entries.insert(at, e),
    decreases entries.len(),
{
    if 0 <= at < entries.len() {
        lemma_insert_position(entries.drop_last(), e, at);
    }
}

/// What is left of an ordered sequence without its last entry is ordered.
proof fn lemma_front_is_ordered(entries: Seq<PlacedView>)
    requires
        is_ordered(entries),
        entries.len() > 0,
    ensures
        is_ordered(entries.drop_last()),
{
    let front = entries.drop_last();
    assert forall|i: int, j: int| 0 <= i < j < front.len() implies may_precede(
        front[i],
        front[j],
    ) by {
        assert(may_precede(entries[i], entries[j]));
    }
}

/// Putting an entry into an ordered sequence leaves it ordered, one longer
/// and with the same entries besides the new one.
pub proof fn lemma_insert_keeps_order(entries: Seq<PlacedView>, e: PlacedView)
    requires
        is_ordered(entries),
    ensures
        is_ordered(insert_ordered(entries, e)),
        insert_ordered(entries, e).len() == entries.len() + 1,
        insert_ordered(entries, e).to_multiset() == entries.to_multiset().insert(e),
    decreases entries.len(),
{
    broadcast use vstd::seq_lib::group_to_multiset_ensures;

    let out = insert_ordered(entries, e);
    if entries.len() > 0 && may_precede(entries.last(), e) {
        assert forall|i: int, j: int| 0 <= i < j < out.len() implies may_precede(out[i], out[j]) by {
            if j == entries.len() && i < entries.len() - 1 {
                assert(may_precede(entries[i], entries.last()));
            }
        }
    } else if entries.len() > 0 {
        let front = entries.drop_last();
        lemma_front_is_ordered(entries);
        lemma_insert_keeps_order(front, e);
        let inner = insert_ordered(front, e);
        assert forall|i: int, j: int| 0 <= i < j < out.len() implies may_precede(out[i], out[j]) by {
            if j == inner.len() {
                // `inner[i]` is the new entry or one of `front`.
                assert(inner.to_multiset().count(inner[i]) > 0);
            }
        }
        assert(entries =~= front.push(entries.last()));
    }
}

/// An ordered sequence is in order: each entry may stand before all that
/// follow, so the starts never decrease. It holds the same entries, each as
/// often as before.
pub proof fn lemma_ordered_is_ordered(entries: Seq<PlacedView>)
    ensures
        is_ordered(ordered(entries)),
        ordered(entries).len() == entries.len(),
        ordered(entries).to_multiset() == entries.to_multiset(),
        forall|i: int, j: int|
            0 <= i < j < ordered(entries).len() ==> ordered(entries)[i].segment.start <= ordered(
                entries,
            )[j].segment.start,
    decreases entries.len(),
{
    broadcast use vstd::seq_lib::group_to_multiset_ensures;

    if entries.len() > 0 {
        lemma_ordered_is_ordered(entries.drop_last());
        lemma_insert_keeps_order(ordered(entries.drop_last()), entries.last());
        assert(entries =~= entries.drop_last().push(entries.last()));
    }
    let out = ordered(entries);
    assert forall|i: int, j: int| 0 <= i < j < out.len() implies out[i].segment.start
        <= out[j].segment.start by {
        assert(may_precede(out[i], out[j]));
    }
}

/// Ordering a sequence that is in order changes nothing.
pub proof fn lemma_ordered_fixes_ordered(entries: Seq<PlacedView>)
    requires
        is_ordered(entries),
    ensures
        ordered(entries) == entries,
    decreases entries.len(),
{
    if entries.len() > 0 {
        lemma_front_is_ordered(entries);
        lemma_ordered_fixes_ordered(entries.drop_last());
    }
}

/// Ordering twice gives what ordering once gives.
pub proof fn lemma_ordered_twice(entries: Seq<PlacedView>)
    ensures
        ordered(ordered(entries)) == ordered(entries),
{
    lemma_ordered_is_ordered(entries);
    lemma_ordered_fixes_ordered(ordered(entries));
}

impl Placed {
    /// A placed segment equal to this one.
    pub fn duplicate(&self) -> (out: Placed)
        ensures
            out == *self,
    {
        Placed { chunk_index: self.chunk_index, segment: self.segment.duplicate() }
    }
}

/// Whether `a` may stand before `b`.
pub fn precedes(a: &Placed, b: &Placed) -> (yes: bool)
    ensures
        yes == may_precede(a@, b@),
{
    a.segment.start < b.segment.start || (a.segment.start == b.segment.start && a.chunk_index
        <= b.chunk_index)
}

/// Puts `entry` into `entries`, which are in order, behind the last entry
/// that may stand before it.
pub fn place(entries: &mut Vec<Placed>, entry: Placed)
    ensures
        placed_views(final(entries)@) == insert_ordered(placed_views(old(entries)@), entry@),
{
    let mut at: usize = entries.len();
    while at > 0 && !precedes(&entries[at - 1], &entry)
        invariant
            at <= entries@.len(),
            entries@ == old(entries)@,
            forall|j: int|
                at <= j < entries@.len() ==> !may_precede(
                    #[trigger] placed_views(entries@)[j],
                    entry@,
                ),
        decreases at,
    {
        at -= 1;
    }
    proof {
        let before = placed_views(entries@);
        lemma_insert_position(before, entry@, at as int);
        assert(placed_views(entries@.insert(at as int, entry)) =~= before.insert(
            at as int,
            entry@,
        ));
    }
    entries.insert(at, entry);
}

/// The entries in order: sorted by start, then by chunk index; entries that
/// agree in both keep the order they came in.
pub fn sort_placed(entries: &Vec<Placed>) -> (out: Vec<Placed>)
    ensures
        placed_views(out@) == ordered(placed_views(entries@)),
{
    let mut out: Vec<Placed> = Vec::new();
    let mut i: usize = 0;
    while i < entries.len()
        invariant
            i <= entries@.len(),
            placed_views(out@) == ordered(placed_views(entries@.take(i as int))),
        decreases entries@.len() - i,
    {
        assert(placed_views(entries@.take(i + 1)).drop_last() =~= placed_views(
            entries@.take(i as int),
        ));
        place(&mut out, entries[i].duplicate());
        i += 1;
    }
    assert(entries@.take(entries@.len() as int) =~= entries@);
    out
}

} // verus!
