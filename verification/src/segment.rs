//! The timed span of text that an engine hands back.

use vstd::prelude::*;

verus! {

/// A span of recognised text. `start` and `end` are in milliseconds: from
/// the start of the window that was transcribed, or, once translated, from
/// the start of the recording.
#[derive(Clone, Debug, PartialEq, Eq)]
pub struct Segment {
    pub start: u64,
    pub end: u64,
    pub text: String,
}

/// A segment as contracts speak of it.
pub ghost struct SegmentView {
    pub start: nat,
    pub end: nat,
    pub text: Seq<char>,
}

impl View for Segment {
    type V = SegmentView;

    open spec fn view(&self) -> SegmentView {
        SegmentView { start: self.start as nat, end: self.end as nat, text: self.text@ }
    }
}

/// The views of a sequence of segments, in order.
pub open spec fn views(segments: Seq<Segment>) -> Seq<SegmentView> {
    segments.map_values(|s: Segment| s@)
}

impl Segment {
    /// A segment with the given bounds and text.
    pub fn new(start: u64, end: u64, text: String) -> (out: Segment)
        ensures
            out@ == (SegmentView { start: start as nat, end: end as nat, text: text@ }),
    {
        Segment { start, end, text }
    }

    /// A segment equal to this one.
    pub fn duplicate(&self) -> (out: Segment)
        ensures
            out == *self,
    {
        Segment { start: self.start, end: self.end, text: self.text.clone() }
    }
}

/// The views of the first `i + 1` segments are those of the first `i`,
/// followed by the view of segment `i`.
pub proof fn lemma_views_take_next(segments: Seq<Segment>, i: int)
    requires
        0 <= i < segments.len(),
    ensures
        views(segments.take(i + 1)) == views(segments.take(i)).push(segments[i]@),
        views(segments.take(i + 1)).drop_last() == views(segments.take(i)),
{
}

/// The views of no segments are none; the views of all are all.
pub proof fn lemma_views_take_ends(segments: Seq<Segment>)
    ensures
        views(segments.take(0)) == Seq::<SegmentView>::empty(),
        views(segments.take(segments.len() as int)) == views(segments),
{
}

} // verus!
