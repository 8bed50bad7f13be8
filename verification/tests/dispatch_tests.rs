use transcribe_chunks::aggregate::ChunkResult;
use transcribe_chunks::dispatch::{Dispatcher, Step};
use transcribe_chunks::planner::{plan_chunks, Chunk};
use transcribe_chunks::segment::Segment;

fn five_chunks() -> Vec<Chunk> {
    plan_chunks(5_000, 1_000, 100, 0)
}

fn words(text: &str) -> Result<Vec<Segment>, String> {
    Ok(vec![Segment::new(0, 1, text.to_string())])
}

#[test]
fn chunks_go_out_in_order_to_the_lowest_idle_worker() {
    let chunks = five_chunks();
    let mut d = Dispatcher::new(chunks.clone(), 2);
    assert_eq!(d.next_step(), Step::Run { worker: 0, position: 0, chunk: chunks[0] });
    assert_eq!(d.next_step(), Step::Run { worker: 1, position: 1, chunk: chunks[1] });
    assert_eq!(d.in_flight(), 2);
    assert_eq!(d.next_step(), Step::Wait);
    assert!(d.complete(1, words("b")));
    assert_eq!(d.in_flight(), 1);
    assert_eq!(d.next_step(), Step::Run { worker: 1, position: 2, chunk: chunks[2] });
    assert_eq!(d.next_step(), Step::Wait);
}

#[test]
fn no_more_chunks_are_in_flight_than_there_are_workers() {
    let mut d = Dispatcher::new(five_chunks(), 3);
    let mut out: Vec<usize> = Vec::new();
    let mut steps = 0;
    loop {
        steps += 1;
        assert!(steps < 100);
        match d.next_step() {
            Step::Run { worker, .. } => {
                assert!(!out.contains(&worker));
                out.push(worker);
                assert!(d.in_flight() <= 3);
                assert_eq!(d.in_flight(), out.len());
            }
            Step::Wait => {
                let worker = out.remove(0);
                assert!(d.complete(worker, words("x")));
            }
            Step::Finished => break,
        }
    }
    assert!(d.finished());
    assert_eq!(d.in_flight(), 0);
    assert_eq!(d.into_results().len(), 5);
}

#[test]
fn every_chunk_is_reported_once_with_its_own_outcome() {
    let chunks = five_chunks();
    let mut d = Dispatcher::new(chunks.clone(), 2);
    let mut running: Vec<(usize, usize)> = Vec::new();
    loop {
        match d.next_step() {
            Step::Run { worker, position, chunk } => {
                assert_eq!(chunk, chunks[position]);
                running.push((worker, position));
            }
            Step::Wait => {
                // The chunk handed out last comes back first.
                let (worker, position) = running.pop().unwrap();
                let outcome = if position == 3 {
                    Err("boom".to_string())
                } else {
                    words(&format!("chunk {}", position))
                };
                assert!(d.complete(worker, outcome));
            }
            Step::Finished => break,
        }
    }
    let results = d.into_results();
    let mut seen: Vec<usize> = results.iter().map(|r| r.chunk.index).collect();
    assert_eq!(seen, vec![1, 2, 3, 4, 0]);
    seen.sort();
    assert_eq!(seen, vec![0, 1, 2, 3, 4]);
    for r in &results {
        if r.chunk.index == 3 {
            assert_eq!(r.outcome, Err("boom".to_string()));
        } else {
            assert_eq!(r.outcome, words(&format!("chunk {}", r.chunk.index)));
        }
        assert_eq!(r.chunk, chunks[r.chunk.index]);
    }
}

#[test]
fn failed_chunk_gives_its_worker_back() {
    let chunks = five_chunks();
    let mut d = Dispatcher::new(chunks.clone(), 1);
    assert_eq!(d.next_step(), Step::Run { worker: 0, position: 0, chunk: chunks[0] });
    assert_eq!(d.next_step(), Step::Wait);
    assert!(d.complete(0, Err("engine error".to_string())));
    assert_eq!(d.in_flight(), 0);
    assert_eq!(d.next_step(), Step::Run { worker: 0, position: 1, chunk: chunks[1] });
    assert_eq!(
        d.into_results(),
        vec![ChunkResult { chunk: chunks[0], outcome: Err("engine error".to_string()) }]
    );
}

#[test]
fn report_of_an_idle_worker_is_refused() {
    let mut d = Dispatcher::new(five_chunks(), 2);
    assert!(!d.complete(0, words("x")));
    assert!(!d.complete(7, words("x")));
    d.next_step();
    assert!(d.complete(0, words("x")));
    assert!(!d.complete(0, words("again")));
    assert_eq!(d.into_results().len(), 1);
}

#[test]
fn job_without_chunks_is_finished_at_once() {
    let mut d = Dispatcher::new(Vec::new(), 4);
    assert!(d.finished());
    assert_eq!(d.next_step(), Step::Finished);
    assert_eq!(d.into_results(), vec![]);
}

#[test]
fn job_without_workers_waits_for_ever() {
    let mut d = Dispatcher::new(five_chunks(), 0);
    assert!(!d.finished());
    assert_eq!(d.next_step(), Step::Wait);
    assert_eq!(d.next_step(), Step::Wait);
}
