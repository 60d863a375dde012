use pow_search::chunk::{make_initial_work, Work};
use pow_search::engine::{run_search, worker_loop, ConfigError, SharedState};
use pow_search::queue::WorkQueue;
use pow_search::Solution;

#[test]
fn five_solutions_difficulty_zero() {
    // difficulty 0: every digest qualifies
    let report = run_search("test", 0, 5, 0, 100, 4, 10).unwrap();
    assert_eq!(report.solutions.len(), 5);
    for (i, s) in report.solutions.iter().enumerate() {
        assert!(s.nonce < 100);
        if i > 0 {
            assert!(report.solutions[i - 1].nonce < s.nonce);
        }
    }
    assert!(report.hashes >= 5);
    assert!(report.hashes <= 100);
    assert_eq!(report.shortfall, 0);
    // with every nonce qualifying, the k smallest are 0..5
    let nonces: Vec<u64> = report.solutions.iter().map(|s| s.nonce).collect();
    assert_eq!(nonces, vec![0, 1, 2, 3, 4]);
}

#[test]
fn shortfall_when_nothing_qualifies() {
    // difficulty 12 over a tiny range: no digest can qualify, the whole
    // range is exhausted and the shortfall is reported
    let report = run_search("test", 12, 3, 0, 50, 4, 7).unwrap();
    assert_eq!(report.solutions.len(), 0);
    assert_eq!(report.shortfall, 3);
    assert_eq!(report.hashes, 50);
}

#[test]
fn output_independent_of_chunking_and_workers() {
    // the first three nonces in [0, 200) whose digest for prefix "test"
    // starts with one zero are 10, 21 and 51
    let a = run_search("test", 1, 3, 0, 200, 1, 200).unwrap();
    let b = run_search("test", 1, 3, 0, 200, 4, 7).unwrap();
    let c = run_search("test", 1, 3, 0, 200, 8, 1).unwrap();
    let nonces: Vec<u64> = a.solutions.iter().map(|s| s.nonce).collect();
    assert_eq!(nonces, vec![10, 21, 51]);
    for (x, y) in a.solutions.iter().zip(b.solutions.iter()) {
        assert_eq!(x.nonce, y.nonce);
        assert_eq!(x.hash_hex, y.hash_hex);
    }
    for (x, y) in a.solutions.iter().zip(c.solutions.iter()) {
        assert_eq!(x.nonce, y.nonce);
        assert_eq!(x.hash_hex, y.hash_hex);
    }
}

#[test]
fn partial_shortfall_reports_what_was_found() {
    // in [0, 400) only nonces 90 and 339 give a "test:<n>" digest starting
    // with two zeros, so a target of 5 exhausts the range
    let report = run_search("test", 2, 5, 0, 400, 3, 32).unwrap();
    let nonces: Vec<u64> = report.solutions.iter().map(|s| s.nonce).collect();
    assert_eq!(nonces, vec![90, 339]);
    assert_eq!(
        report.solutions[0].hash_hex,
        "00450d49776c5bf3cccbfe7f67984f421a10aa1f1e8c026f86a82727b70cd59e"
    );
    assert_eq!(
        report.solutions[1].hash_hex,
        "00c975f83f4362f0967faeece9ad68d87f1bb922a6a98cfe9ebe59570f2e9ad0"
    );
    assert_eq!(report.shortfall, 3);
    assert_eq!(report.hashes, 400);
}

#[test]
fn empty_prefix_is_allowed() {
    // the candidate string is then ":<nonce>"
    let report = run_search("", 0, 1, 0, 10, 1, 10).unwrap();
    assert_eq!(report.solutions.len(), 1);
    assert_eq!(report.solutions[0].nonce, 0);
    assert_eq!(
        report.solutions[0].hash_hex,
        "19e89348f2a9d5f3d0c5fca8e2a7068d9c5d71687a355f759009a5ed2527eb2c"
    );
}

#[test]
fn config_errors_are_rejected_first() {
    assert_eq!(run_search("p", 1, 1, 0, 10, 0, 5).unwrap_err(), ConfigError::ZeroWorkers);
    assert_eq!(run_search("p", 1, 1, 0, 10, 2, 0).unwrap_err(), ConfigError::ZeroChunkSize);
    assert_eq!(run_search("p", 1, 1, 10, 10, 2, 5).unwrap_err(), ConfigError::EmptyRange);
    assert_eq!(run_search("p", 1, 1, 11, 10, 2, 5).unwrap_err(), ConfigError::EmptyRange);
}

#[test]
fn worker_stops_promptly_after_stop_is_set() {
    // difficulty 0 and k = 1: the very first nonce qualifies, the stop flag
    // is set, and the worker overruns by less than one check interval
    let mut queue = WorkQueue::new(0, 1000, 100);
    let mut shared = SharedState { stop: false, hashes: 0 };
    let mut collected: Vec<Solution> = Vec::new();
    worker_loop(0, "test", 0, 4, 1, &mut queue, &mut shared, &mut collected);
    assert!(shared.stop);
    assert!(collected.len() >= 1);
    assert_eq!(collected[0].nonce, 0);
    assert!(shared.hashes <= 4);
}

#[test]
fn worker_does_nothing_once_stopped() {
    let mut queue = WorkQueue::new(0, 1000, 100);
    let mut shared = SharedState { stop: true, hashes: 7 };
    let mut collected: Vec<Solution> = vec![
        Solution { nonce: 1, hash_hex: String::new() },
        Solution { nonce: 2, hash_hex: String::new() },
    ];
    worker_loop(0, "test", 0, 4, 2, &mut queue, &mut shared, &mut collected);
    assert!(shared.stop);
    assert_eq!(shared.hashes, 7);
    assert_eq!(collected.len(), 2);
    assert_eq!(queue.len(), 10);
}

#[test]
fn worker_exhausts_queue_when_target_unreachable() {
    // difficulty 12: nothing qualifies, so the worker drains the queue and
    // hashes every nonce exactly once
    let mut queue = WorkQueue::new(0, 60, 8);
    let mut shared = SharedState { stop: false, hashes: 0 };
    let mut collected: Vec<Solution> = Vec::new();
    worker_loop(0, "test", 12, 16, 1, &mut queue, &mut shared, &mut collected);
    assert!(!shared.stop);
    assert!(queue.is_empty());
    assert_eq!(shared.hashes, 60);
    assert_eq!(collected.len(), 0);
}

#[test]
fn queue_withdraws_in_ascending_order() {
    let mut q = WorkQueue::new(0, 25, 10);
    assert_eq!(q.len(), 3);
    let w0 = q.withdraw().unwrap();
    assert_eq!((w0.start, w0.len), (0, 10));
    let w1 = q.withdraw().unwrap();
    assert_eq!((w1.start, w1.len), (10, 10));
    let w2 = q.withdraw().unwrap();
    assert_eq!((w2.start, w2.len), (20, 5));
    assert!(q.withdraw().is_none());
    assert!(q.is_empty());
}

#[test]
fn partition_covers_range_exactly_once() {
    let chunks = make_initial_work(5, 42, 10);
    // consecutive, starting at 5, ending at 42, every chunk but the last of
    // exactly the requested size
    assert_eq!(chunks.len(), 4);
    assert_eq!(chunks[0].start, 5);
    let mut expected_start = 5u64;
    for (i, w) in chunks.iter().enumerate() {
        assert_eq!(w.start, expected_start);
        if i + 1 < chunks.len() {
            assert_eq!(w.len, 10);
        } else {
            assert_eq!(w.len, 7);
        }
        expected_start += w.len;
    }
    assert_eq!(expected_start, 42);
    // an empty range yields no chunks
    assert!(make_initial_work(9, 9, 3).is_empty());
    assert!(make_initial_work(10, 9, 3).is_empty());
}

#[test]
fn end_exclusive_saturates() {
    let w = Work { start: u64::MAX - 5, len: 10 };
    assert_eq!(w.end_exclusive(), u64::MAX);
    let v = Work { start: 3, len: 4 };
    assert_eq!(v.end_exclusive(), 7);
}
