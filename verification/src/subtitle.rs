//! Rendering of an ordered transcript: numbered subtitle blocks with
//! `HH:MM:SS,mmm` timestamps, and plain text.

use crate::segment::{lemma_views_take_ends, lemma_views_take_next, views, Segment, SegmentView};
use crate::text::{trim, trimmed};
use vstd::prelude::*;

verus! {

/// The character of the decimal digit `d`.
pub open spec fn digit(d: int) -> char {
    if d == 0 {
        '0'
    } else if d == 1 {
        '1'
    } else if d == 2 {
        '2'
    } else if d == 3 {
        '3'
    } else if d == 4 {
        '4'
    } else if d == 5 {
        '5'
    } else if d == 6 {
        '6'
    } else if d == 7 {
        '7'
    } else if d == 8 {
        '8'
    } else {
        '9'
    }
}

/// `n` in decimal, without leading zeros.
pub open spec fn decimal(n: nat) -> Seq<char>
    decreases n,
{
    if n < 10 {
        seq![digit(n as int)]
    } else {
        decimal(n / 10).push(digit((n % 10) as int))
    }
}

/// `count` zeros.
pub open spec fn zeros(count: nat) -> Seq<char> {
    Seq::new(count, |i: int| '0')
}

/// `n` in decimal, with zeros in front up to `width` characters.
pub open spec fn zero_padded(n: nat, width: nat) -> Seq<char> {
    if decimal(n).len() >= width {
        decimal(n)
    } else {
        zeros((width - decimal(n).len()) as nat) + decimal(n)
    }
}

/// Whole hours in `millis` milliseconds.
pub open spec fn hours_of(millis: nat) -> nat {
    millis / 3_600_000
}

/// Minutes past the hour in `millis` milliseconds.
pub open spec fn minutes_of(millis: nat) -> nat {
    (millis / 60_000) % 60
}

/// Seconds past the minute in `millis` milliseconds.
pub open spec fn seconds_of(millis: nat) -> nat {
    (millis / 1000) % 60
}

/// Milliseconds past the second in `millis` milliseconds.
pub open spec fn millis_of(millis: nat) -> nat {
    millis % 1000
}

/// The timestamp `HH:MM:SS,mmm` of an instant given in milliseconds.
pub open spec fn timestamp(millis: nat) -> Seq<char> {
    zero_padded(hours_of(millis), 2) + seq![':'] + zero_padded(minutes_of(millis), 2) + seq![':']
        + zero_padded(seconds_of(millis), 2) + seq![','] + zero_padded(millis_of(millis), 3)
}

/// Whether a segment has any text left once it is trimmed.
pub open spec fn has_text(s: SegmentView) -> bool {
    trimmed(s.text).len() > 0
}

/// The segments that have text left once trimmed, in order.
pub open spec fn with_text(segments: Seq<SegmentView>) -> Seq<SegmentView> {
    segments.filter(|s: SegmentView| has_text(s))
}

/// The subtitle block of one segment: its number, the line with its two
/// timestamps, its trimmed text and an empty line.
pub open spec fn block(number: nat, s: SegmentView) -> Seq<char> {
    block_of(number, s.start, s.end, trimmed(s.text))
}

/// A subtitle block: the number, the line `start --> end`, the text and an
/// empty line.
pub open spec fn block_of(number: nat, start: nat, end: nat, text: Seq<char>) -> Seq<char> {
    decimal(number) + seq!['\n'] + timestamp(start) + " --> "@ + timestamp(end) + seq!['\n'] + text
        + seq!['\n'] + seq!['\n']
}

/// The blocks of `kept`, numbered from one.
pub open spec fn blocks(kept: Seq<SegmentView>) -> Seq<char>
    decreases kept.len(),
{
    if kept.len() == 0 {
        Seq::empty()
    } else {
        blocks(kept.drop_last()) + block(kept.len(), kept.last())
    }
}

/// The subtitle text of a transcript: one block for each segment that has
/// text, numbered from one in their order.
pub open spec fn srt_text(segments: Seq<SegmentView>) -> Seq<char> {
    blocks(with_text(segments))
}

/// The trimmed texts of `kept`, with a line break between each two.
pub open spec fn lines(kept: Seq<SegmentView>) -> Seq<char>
    decreases kept.len(),
{
    if kept.len() == 0 {
        Seq::empty()
    } else if kept.len() == 1 {
        trimmed(kept.last().text)
    } else {
        lines(kept.drop_last()) + seq!['\n'] + trimmed(kept.last().text)
    }
}

/// The plain text of a transcript: the texts of the segments that have
/// text, one per line.
pub open spec fn plain_text(segments: Seq<SegmentView>) -> Seq<char> {
    lines(with_text(segments))
}

/// The character of the decimal digit `d`.
pub fn digit_char(d: u64) -> (c: char)
    requires
        d < 10,
    ensures
        c == digit(d as int),
{
    if d == 0 {
        '0'
    } else if d == 1 {
        '1'
    } else if d == 2 {
        '2'
    } else if d == 3 {
        '3'
    } else if d == 4 {
        '4'
    } else if d == 5 {
        '5'
    } else if d == 6 {
        '6'
    } else if d == 7 {
        '7'
    } else if d == 8 {
        '8'
    } else {
        '9'
    }
}

/// Number of digits of `n` in decimal.
pub fn decimal_len(n: u64) -> (len: usize)
    ensures
        len == decimal(n as nat).len(),
        1 <= len <= 20,
    decreases n,
{
    if n < 10 {
        1
    } else {
        let rest: usize = decimal_len(n / 10);
        proof {
            lemma_decimal_len_bound(n as nat);
        }
        rest + 1
    }
}

/// A number that fits in 64 bits has at most twenty digits.
proof fn lemma_decimal_len_bound(n: nat)
    requires
        n <= u64::MAX,
    ensures
        1 <= decimal(n).len() <= 20,
{
    reveal_with_fuel(decimal, 21);
}

/// Appends `n` in decimal to `out`.
pub fn push_decimal(out: &mut String, n: u64)
    ensures
        final(out)@ == old(out)@ + decimal(n as nat),
    decreases n,
{
    if n >= 10 {
        push_decimal(out, n / 10);
    }
    out.push(digit_char(n % 10));
}

/// Appends `n` in decimal to `out`, with zeros in front up to `width`
/// characters.
pub fn push_zero_padded(out: &mut String, n: u64, width: usize)
    ensures
        final(out)@ == old(out)@ + zero_padded(n as nat, width as nat),
{
    let len: usize = decimal_len(n);
    if len < width {
        let count: usize = width - len;
        let mut i: usize = 0;
        while i < count
            invariant
                i <= count,
                out@ == old(out)@ + zeros(i as nat),
            decreases count - i,
        {
            out.push('0');
            i += 1;
        }
        push_decimal(out, n);
    } else {
        push_decimal(out, n);
    }
}

/// Appends the timestamp of the instant `millis` to `out`.
pub fn push_timestamp(out: &mut String, millis: u64)
    ensures
        final(out)@ == old(out)@ + timestamp(millis as nat),
{
    push_zero_padded(out, millis / 3_600_000, 2);
    out.push(':');
    push_zero_padded(out, (millis / 60_000) % 60, 2);
    out.push(':');
    push_zero_padded(out, (millis / 1000) % 60, 2);
    out.push(',');
    push_zero_padded(out, millis % 1000, 3);
}

/// The timestamp `HH:MM:SS,mmm` of an instant given in milliseconds: hours,
/// minutes and seconds with at least two digits, milliseconds with three.
pub fn format_timestamp(millis: u64) -> (out: String)
    ensures
        out@ == timestamp(millis as nat),
{
    let mut out: String = String::new();
    push_timestamp(&mut out, millis);
    out
}

/// Appends one subtitle block to `out`.
pub fn push_block(out: &mut String, number: u64, start: u64, end: u64, text: &str)
    ensures
        final(out)@ == old(out)@ + block_of(number as nat, start as nat, end as nat, text@),
{
    push_decimal(out, number);
    out.push('\n');
    push_timestamp(out, start);
    out.append(" --> ");
    push_timestamp(out, end);
    out.push('\n');
    out.append(text);
    out.push('\n');
    out.push('\n');
}

/// Renders a transcript as subtitle blocks.
///
/// Every segment whose text is not empty once trimmed gives one block: its
/// number, counted from one over the segments that give a block; the line
/// `start --> end`; the trimmed text; an empty line.
pub fn generate_srt(segments: &[Segment]) -> (out: String)
    ensures
        out@ == srt_text(views(segments@)),
{
    let mut out: String = String::new();
    let mut count: usize = 0;
    let mut i: usize = 0;
    proof {
        lemma_with_text_take(segments@, 0);
    }
    while i < segments.len()
        invariant
            i <= segments@.len(),
            count == with_text(views(segments@.take(i as int))).len(),
            count <= i,
            out@ == blocks(with_text(views(segments@.take(i as int)))),
        decreases segments@.len() - i,
    {
        let text: String = trim(segments[i].text.as_str());
        proof {
            lemma_with_text_take(segments@, i as int);
        }
        if !text.as_str().is_empty() {
            count += 1;
            push_block(&mut out, count as u64, segments[i].start, segments[i].end, text.as_str());
            proof {
                let kept = with_text(views(segments@.take(i + 1)));
                assert(kept.drop_last() == with_text(views(segments@.take(i as int))));
            }
        }
        i += 1;
    }
    proof {
        lemma_views_take_ends(segments@);
    }
    out
}

/// Renders a transcript as plain text: the trimmed text of every segment
/// that has any, one per line, with no line break after the last.
pub fn generate_text(segments: &[Segment]) -> (out: String)
    ensures
        out@ == plain_text(views(segments@)),
{
    let mut out: String = String::new();
    let mut count: usize = 0;
    let mut i: usize = 0;
    proof {
        lemma_with_text_take(segments@, 0);
    }
    while i < segments.len()
        invariant
            i <= segments@.len(),
            count == with_text(views(segments@.take(i as int))).len(),
            count <= i,
            out@ == lines(with_text(views(segments@.take(i as int)))),
        decreases segments@.len() - i,
    {
        let text: String = trim(segments[i].text.as_str());
        proof {
            lemma_with_text_take(segments@, i as int);
        }
        if !text.as_str().is_empty() {
            if count > 0 {
                out.push('\n');
            }
            count += 1;
            out.append(text.as_str());
            proof {
                let kept = with_text(views(segments@.take(i + 1)));
                assert(kept.drop_last() == with_text(views(segments@.take(i as int))));
            }
        }
        i += 1;
    }
    proof {
        lemma_views_take_ends(segments@);
    }
    out
}

/// How the segments with text among the first `i + 1` come from those
/// among the first `i`.
proof fn lemma_with_text_take(segments: Seq<Segment>, i: int)
    requires
        0 <= i <= segments.len(),
    ensures
        with_text(views(segments.take(0))).len() == 0,
        i < segments.len() ==> with_text(views(segments.take(i + 1))) == if has_text(
            segments[i]@,
        ) {
            with_text(views(segments.take(i))).push(segments[i]@)
        } else {
            with_text(views(segments.take(i)))
        },
{
    reveal(Seq::filter);
    lemma_views_take_ends(segments);
    if i < segments.len() {
        lemma_views_take_next(segments, i);
        views(segments.take(i)).lemma_filter_push(segments[i]@, |s: SegmentView| has_text(s));
    }
}

} // verus!
