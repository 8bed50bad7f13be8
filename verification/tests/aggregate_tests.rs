use transcribe_chunks::aggregate::{
    aggregate, check_chunk_fit, check_fit, contribute, gather_chunk, keeps, strip, translate,
    try_aggregate, ChunkFailure, ChunkResult, OwnershipRule, Report,
};
use transcribe_chunks::ordering::{place, precedes, sort_placed, Placed};
use transcribe_chunks::planner::{plan_chunks, Chunk};
use transcribe_chunks::segment::Segment;
use transcribe_chunks::subtitle::generate_srt;

fn seg(start: u64, end: u64, text: &str) -> Segment {
    Segment::new(start, end, text.to_string())
}

fn placed(chunk_index: usize, start: u64, end: u64, text: &str) -> Placed {
    Placed { chunk_index, segment: seg(start, end, text) }
}

fn plan() -> Vec<Chunk> {
    plan_chunks(720_000, 300_000, 10_000, 1_000)
}

fn done(chunk: Chunk, segments: Vec<Segment>) -> ChunkResult {
    ChunkResult { chunk, outcome: Ok(segments) }
}

fn failed(chunk: Chunk, reason: &str) -> ChunkResult {
    ChunkResult { chunk, outcome: Err(reason.to_string()) }
}

#[test]
fn segment_near_a_boundary_is_kept_once() {
    let chunks = plan();
    assert_eq!(chunks[1].physical_start, 290_000);
    // The same words, heard by chunk 0 at 295 s and by chunk 1 five seconds into its window.
    let results = vec![
        done(chunks[0], vec![seg(295_000, 298_000, "near the boundary")]),
        done(chunks[1], vec![seg(5_000, 8_000, "near the boundary")]),
    ];
    let report = aggregate(&results, OwnershipRule::Midpoint);
    assert_eq!(report.segments, vec![seg(295_000, 298_000, "near the boundary")]);
    assert_eq!(report.completed, 2);
    assert!(report.failures.is_empty());
}

#[test]
fn midpoint_on_the_boundary_belongs_to_the_later_chunk() {
    let chunks = plan();
    // Midpoint exactly at 300 s: outside [0, 300), inside [300, 600).
    assert!(!keeps(OwnershipRule::Midpoint, &chunks[0], &seg(299_000, 301_000, "x")));
    assert!(keeps(OwnershipRule::Midpoint, &chunks[1], &seg(9_000, 11_000, "x")));
    // Midpoint half a millisecond before 300 s.
    assert!(keeps(OwnershipRule::Midpoint, &chunks[0], &seg(299_000, 300_999, "x")));
    assert!(!keeps(OwnershipRule::Midpoint, &chunks[1], &seg(9_000, 10_999, "x")));
}

#[test]
fn every_segment_has_one_owner_under_the_midpoint_rule() {
    let chunks = plan();
    let mut start: u64 = 0;
    while start + 1_500 < 720_000 {
        let end = start + 1_500;
        let owners = chunks
            .iter()
            .filter(|c| c.physical_start <= start && end <= c.physical_end)
            .filter(|c| {
                let local = seg(start - c.physical_start, end - c.physical_start, "x");
                keeps(OwnershipRule::Midpoint, c, &local)
            })
            .count();
        assert_eq!(owners, 1);
        start += 997;
    }
}

#[test]
fn margin_rule_spares_the_first_chunk_only() {
    let chunks = plan();
    let rule = OwnershipRule::AfterMargin(10_000);
    assert!(keeps(rule, &chunks[0], &seg(0, 1_000, "x")));
    assert!(keeps(rule, &chunks[0], &seg(9_999, 12_000, "x")));
    assert!(!keeps(rule, &chunks[1], &seg(9_999, 12_000, "x")));
    assert!(keeps(rule, &chunks[1], &seg(10_000, 12_000, "x")));
    assert!(!keeps(rule, &chunks[2], &seg(0, 20_000, "x")));
}

#[test]
fn translate_adds_the_offset_to_both_ends() {
    assert_eq!(translate(&seg(5_000, 8_000, "x"), 290_000), seg(295_000, 298_000, "x"));
    assert_eq!(translate(&seg(0, 0, ""), 0), seg(0, 0, ""));
    assert_eq!(translate(&seg(5, 1, "y"), u64::MAX - 5), seg(u64::MAX, u64::MAX - 4, "y"));
}

#[test]
fn contribution_is_translated_and_cleaned() {
    let chunks = plan();
    let given = contribute(OwnershipRule::Midpoint, &chunks[1], &seg(20_000, 21_000, " Subtitle by hi "));
    assert_eq!(given, Some(placed(1, 310_000, 311_000, "hi")));
    let none = contribute(OwnershipRule::Midpoint, &chunks[1], &seg(20_000, 21_000, " Unicorn "));
    assert_eq!(none, None);
    let not_owned = contribute(OwnershipRule::Midpoint, &chunks[1], &seg(0, 1_000, "hi"));
    assert_eq!(not_owned, None);
}

#[test]
fn hallucinated_segment_takes_no_number() {
    let chunks = plan();
    let results = vec![done(
        chunks[0],
        vec![seg(0, 1_000, "first"), seg(1_000, 2_000, "Unicorn"), seg(2_000, 3_000, "second")],
    )];
    let report = aggregate(&results, OwnershipRule::Midpoint);
    assert_eq!(report.segments, vec![seg(0, 1_000, "first"), seg(2_000, 3_000, "second")]);
    assert_eq!(
        generate_srt(&report.segments),
        "1\n00:00:00,000 --> 00:00:01,000\nfirst\n\n2\n00:00:02,000 --> 00:00:03,000\nsecond\n\n"
    );
}

#[test]
fn results_that_come_out_of_order_are_put_in_order() {
    let chunks = plan();
    let results = vec![
        done(chunks[2], vec![seg(20_000, 21_000, "c1"), seg(30_000, 31_000, "c2")]),
        done(chunks[0], vec![seg(100, 200, "a1"), seg(50, 60, "a0")]),
        done(chunks[1], vec![seg(15_000, 16_000, "b1")]),
    ];
    let report = aggregate(&results, OwnershipRule::Midpoint);
    assert_eq!(
        report.segments,
        vec![
            seg(50, 60, "a0"),
            seg(100, 200, "a1"),
            seg(305_000, 306_000, "b1"),
            seg(610_000, 611_000, "c1"),
            seg(620_000, 621_000, "c2"),
        ]
    );
    for pair in report.segments.windows(2) {
        assert!(pair[0].start <= pair[1].start);
    }
}

#[test]
fn failed_chunks_are_listed_and_do_not_stop_the_job() {
    let chunks = plan();
    let results = vec![
        failed(chunks[1], "Worker error: boom"),
        done(chunks[0], vec![seg(0, 1_000, "kept")]),
        failed(chunks[2], "FFmpeg extraction failed"),
    ];
    let report = aggregate(&results, OwnershipRule::Midpoint);
    assert_eq!(report.segments, vec![seg(0, 1_000, "kept")]);
    assert_eq!(
        report.failures,
        vec![
            ChunkFailure { chunk_index: 1, reason: "Worker error: boom".to_string() },
            ChunkFailure { chunk_index: 2, reason: "FFmpeg extraction failed".to_string() },
        ]
    );
    assert_eq!(report.completed, 1);
    assert!(!report.is_failure());
}

#[test]
fn job_fails_as_a_whole_when_every_chunk_fails() {
    let chunks = plan();
    let results: Vec<ChunkResult> = chunks.iter().map(|c| failed(*c, "no")).collect();
    let report = aggregate(&results, OwnershipRule::Midpoint);
    assert!(report.segments.is_empty());
    assert_eq!(report.failures.len(), 3);
    assert_eq!(report.completed, 0);
    assert!(report.is_failure());
}

#[test]
fn job_without_chunks_is_no_failure() {
    let report = aggregate(&Vec::new(), OwnershipRule::Midpoint);
    assert_eq!(report, Report { segments: vec![], failures: vec![], completed: 0 });
    assert!(!report.is_failure());
}

#[test]
fn equal_starts_go_by_chunk_index_then_by_arrival() {
    let entries = vec![
        placed(2, 500, 600, "late chunk"),
        placed(1, 500, 700, "first of chunk 1"),
        placed(1, 500, 650, "second of chunk 1"),
        placed(0, 900, 950, "later start"),
        placed(0, 500, 510, "early chunk"),
    ];
    let sorted = sort_placed(&entries);
    let texts: Vec<&str> = sorted.iter().map(|p| p.segment.text.as_str()).collect();
    assert_eq!(
        texts,
        vec!["early chunk", "first of chunk 1", "second of chunk 1", "late chunk", "later start"]
    );
}

#[test]
fn sorting_twice_changes_nothing() {
    let entries = vec![
        placed(1, 30, 40, "c"),
        placed(0, 10, 20, "a"),
        placed(2, 30, 35, "d"),
        placed(0, 30, 31, "b"),
        placed(0, 10, 11, "a2"),
    ];
    let once = sort_placed(&entries);
    let twice = sort_placed(&once);
    assert_eq!(once, twice);
    assert_ne!(once, entries);
    let mut by_std = entries.clone();
    by_std.sort_by_key(|p| (p.segment.start, p.chunk_index));
    assert_eq!(once, by_std);
}

#[test]
fn place_puts_an_entry_behind_its_equals() {
    let mut entries = vec![placed(0, 10, 20, "a"), placed(1, 10, 20, "b"), placed(1, 30, 40, "d")];
    place(&mut entries, placed(1, 10, 15, "c"));
    let texts: Vec<&str> = entries.iter().map(|p| p.segment.text.as_str()).collect();
    assert_eq!(texts, vec!["a", "b", "c", "d"]);
    place(&mut entries, placed(0, 0, 1, "first"));
    assert_eq!(entries[0].segment.text, "first");
    place(&mut entries, placed(0, 99, 100, "last"));
    assert_eq!(entries[5].segment.text, "last");
}

#[test]
fn precedes_compares_start_then_chunk() {
    assert!(precedes(&placed(5, 1, 2, ""), &placed(0, 2, 3, "")));
    assert!(!precedes(&placed(0, 2, 3, ""), &placed(5, 1, 2, "")));
    assert!(precedes(&placed(1, 2, 3, ""), &placed(1, 2, 9, "")));
    assert!(precedes(&placed(0, 2, 3, ""), &placed(1, 2, 3, "")));
    assert!(!precedes(&placed(1, 2, 3, ""), &placed(0, 2, 3, "")));
}

#[test]
fn gather_chunk_adds_to_what_is_there() {
    let chunks = plan();
    let mut entries = vec![placed(0, 1_000, 2_000, "zero")];
    let locals = vec![seg(20_000, 21_000, "one"), seg(0, 500, "not owned"), seg(15_000, 15_500, "early")];
    gather_chunk(&mut entries, OwnershipRule::Midpoint, &chunks[1], &locals);
    assert_eq!(
        strip(&entries),
        vec![seg(1_000, 2_000, "zero"), seg(305_000, 305_500, "early"), seg(310_000, 311_000, "one")]
    );
}

#[test]
fn margin_rule_pipeline_drops_the_overlap_of_later_chunks() {
    let chunks = plan();
    let results = vec![
        done(chunks[0], vec![seg(1_000, 2_000, "a"), seg(305_000, 306_000, "tail of a")]),
        done(chunks[1], vec![seg(5_000, 6_000, "dropped"), seg(10_000, 11_000, "b")]),
    ];
    let report = aggregate(&results, OwnershipRule::AfterMargin(10_000));
    assert_eq!(
        report.segments,
        vec![seg(1_000, 2_000, "a"), seg(300_000, 301_000, "b"), seg(305_000, 306_000, "tail of a")]
    );
}

#[test]
fn timestamps_beyond_the_range_are_found_before_stitching() {
    let far = Chunk {
        index: 0,
        core_start: u64::MAX - 100,
        core_end: u64::MAX,
        physical_start: u64::MAX - 110,
        physical_end: u64::MAX,
    };
    let inside = vec![seg(0, 110, "fits")];
    let outside = vec![seg(0, 110, "fits"), seg(100, 111, "does not")];
    assert!(check_chunk_fit(&far, &inside));
    assert!(!check_chunk_fit(&far, &outside));
    assert!(!check_chunk_fit(&far, &vec![seg(111, 0, "start does not")]));
    assert!(check_chunk_fit(&far, &vec![]));
    assert!(check_fit(&vec![done(far, inside.clone()), failed(far, "x")]));
    assert!(!check_fit(&vec![failed(far, "x"), done(far, outside.clone())]));
    assert_eq!(try_aggregate(&vec![done(far, outside)], OwnershipRule::Midpoint), None);
    let report = try_aggregate(&vec![done(far, inside)], OwnershipRule::Midpoint);
    assert_eq!(
        report,
        Some(Report {
            segments: vec![seg(u64::MAX - 110, u64::MAX, "fits")],
            failures: vec![],
            completed: 1,
        })
    );
}

#[test]
fn try_aggregate_gives_what_aggregate_gives() {
    let chunks = plan();
    let results = vec![
        done(chunks[1], vec![seg(15_000, 16_000, "b")]),
        failed(chunks[2], "gone"),
        done(chunks[0], vec![seg(100, 200, " a "), seg(300, 400, "Amara.org")]),
    ];
    let report = aggregate(&results, OwnershipRule::Midpoint);
    assert_eq!(report.segments, vec![seg(100, 200, "a"), seg(305_000, 306_000, "b")]);
    assert_eq!(try_aggregate(&results, OwnershipRule::Midpoint), Some(report));
}
