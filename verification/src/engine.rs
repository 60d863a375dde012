//! The search engine: the worker protocol and the complete run.
//!
//! A worker repeatedly observes the stop flag, withdraws one chunk from the
//! work queue, and scans it nonce by nonce, re-checking the flag at a bounded
//! interval.  The collector's decision is folded in at the moment a solution
//! is accumulated: when the count reaches the target, the stop flag is set,
//! and every worker winds down after at most one more batch.  The running
//! program executes the same protocol on several threads, with the queue
//! behind a lock and the flag and counter in atomics; the verified engine
//! runs the workers in turn, which is one legal schedule of that protocol.

use vstd::prelude::*;

verus! {

use crate::chunk::{contiguous, lemma_contiguous_drop_first, lemma_partition_contiguous, span, Work};
use crate::digest::{
    lemma_qual_nonces_concat, lemma_qual_nonces_range, lemma_sols_match_concat, qual_nonces,
    sols_match, test_nonce,
};
use crate::queue::WorkQueue;
use crate::solution::{
    distinct_nonces, finalize_solutions, sorted_by_nonce, Solution,
};

/// How many nonces a worker hashes between looks at the stop flag.
pub const STOP_CHECK_INTERVAL: u64 = 256;

/// The coordination state every worker shares: the cooperative stop flag and
/// the hash counter.  The flag's only transition is `false` to `true`; the
/// counter grows by exactly one per nonce tested.
pub struct SharedState {
    pub stop: bool,
    pub hashes: u64,
}

/// Search one chunk: hash the nonces of `[w.start, w.start + w.len)` in
/// ascending order, appending a record for each one that qualifies, and
/// re-check the stop flag after every `interval` nonces.  The moment the
/// accumulated count reaches `k` the stop flag is set; the rest of the
/// current batch is still scanned (the bounded overrun), and the scan stops
/// at the next check.  Returns the exclusive end of the scanned region:
/// the hash counter grew by exactly `t - w.start`, and the appended records
/// are exactly the qualifying nonces of `[w.start, t)`, in ascending order.
pub fn scan_chunk(
    prefix: &str,
    difficulty: usize,
    w: Work,
    interval: u64,
    k: usize,
    shared: &mut SharedState,
    collected: &mut Vec<Solution>,
) -> (t: u64)
    requires
        w.end() <= u64::MAX,
        interval >= 1,
        k >= 1,
        !old(shared).stop,
        old(collected)@.len() < k,
        old(shared).hashes + w.len <= u64::MAX,
    ensures
        w.start <= t <= w.end(),
        final(shared).hashes == old(shared).hashes + (t - w.start),
        final(collected)@.len() >= old(collected)@.len(),
        final(collected)@.subrange(0, old(collected)@.len() as int) == old(collected)@,
        sols_match(
            final(collected)@.subrange(old(collected)@.len() as int, final(collected)@.len() as int),
            qual_nonces(prefix@, difficulty as int, w.start as int, t as int),
            prefix@,
        ),
        final(shared).stop <==> final(collected)@.len() >= k,
        !final(shared).stop ==> t == w.end(),
        final(shared).stop ==> t <= final(collected)@[k - 1].nonce + interval,
{
    let ghost base = old(collected)@.len() as int;
    let chunk_end = w.end_exclusive();
    let mut cur: u64 = w.start;
    while cur < chunk_end && !shared.stop
        invariant
            w.start <= cur <= chunk_end,
            chunk_end == w.end(),
            interval >= 1,
            k >= 1,
            base == old(collected)@.len(),
            old(shared).hashes + w.len <= u64::MAX,
            shared.hashes == old(shared).hashes + (cur - w.start),
            collected@.len() >= base,
            collected@.subrange(0, base) == old(collected)@,
            sols_match(
                collected@.subrange(base, collected@.len() as int),
                qual_nonces(prefix@, difficulty as int, w.start as int, cur as int),
                prefix@,
            ),
            shared.stop <==> collected@.len() >= k,
            shared.stop ==> cur <= collected@[k - 1].nonce + interval,
        decreases chunk_end - cur,
    {
        let batch_end = if chunk_end - cur < interval {
            chunk_end
        } else {
            cur + interval
        };
        while cur < batch_end
            invariant
                w.start <= cur <= batch_end <= chunk_end,
                chunk_end == w.end(),
                interval >= 1,
                k >= 1,
                base == old(collected)@.len(),
                old(shared).hashes + w.len <= u64::MAX,
                shared.hashes == old(shared).hashes + (cur - w.start),
                collected@.len() >= base,
                collected@.subrange(0, base) == old(collected)@,
                sols_match(
                    collected@.subrange(base, collected@.len() as int),
                    qual_nonces(prefix@, difficulty as int, w.start as int, cur as int),
                    prefix@,
                ),
                shared.stop <==> collected@.len() >= k,
                !shared.stop ==> batch_end <= cur + interval,
                shared.stop ==> batch_end <= collected@[k - 1].nonce + interval,
            decreases batch_end - cur,
        {
            let ghost pre = collected@;
            let r = test_nonce(prefix, difficulty, cur);
            shared.hashes = shared.hashes + 1;
            match r {
                Some(s) => {
                    collected.push(s);
                    if collected.len() >= k {
                        shared.stop = true;
                    }
                    proof {
                        assert(collected@.subrange(0, base) =~= pre.subrange(0, base));
                        assert(collected@.subrange(base, collected@.len() as int) =~= pre.subrange(
                            base,
                            pre.len() as int,
                        ).push(s));
                        assert(qual_nonces(
                            prefix@,
                            difficulty as int,
                            w.start as int,
                            cur + 1,
                        ) == qual_nonces(prefix@, difficulty as int, w.start as int, cur as int).push(
                            cur,
                        ));
                    }
                },
                None => {
                    proof {
                        assert(qual_nonces(
                            prefix@,
                            difficulty as int,
                            w.start as int,
                            cur + 1,
                        ) == qual_nonces(prefix@, difficulty as int, w.start as int, cur as int));
                    }
                },
            }
            cur = cur + 1;
        }
    }
    proof {
        assert(collected@.subrange(0, base) == old(collected)@);
    }
    cur
}

/// One worker, run to termination: observe the stop flag, withdraw one chunk,
/// scan it, and repeat until the flag is set or the queue is empty.  The
/// worker never blocks and never panics; its whole effect is the counted
/// hashes and the appended solutions.  If the flag was already set on entry,
/// or no work remains, nothing changes.  Otherwise the worker scans the
/// contiguous region `[lo, lo + d)`, where `lo` is the start of the chunk at
/// the front of the queue and `d` is exactly the growth of the hash counter;
/// the appended solutions are exactly the qualifying nonces of that region,
/// in ascending order.  On a run not cut short by the stop flag the whole
/// queue is consumed; when the flag does cut it short, the scan overran the
/// stop-triggering nonce by at most `interval` hashes.
#[verifier::rlimit(100)]
pub fn worker_loop(
    id: usize,
    prefix: &str,
    difficulty: usize,
    interval: u64,
    k: usize,
    queue: &mut WorkQueue,
    shared: &mut SharedState,
    collected: &mut Vec<Solution>,
)
    requires
        interval >= 1,
        k >= 1,
        contiguous(old(queue)@),
        old(shared).hashes + span(old(queue)@) <= u64::MAX,
        old(shared).stop <==> old(collected)@.len() >= k,
    ensures
        contiguous(final(queue)@),
        final(shared).stop <==> final(collected)@.len() >= k,
        final(shared).stop || final(queue)@.len() == 0,
        old(shared).stop ==> final(shared).stop,
        final(collected)@.len() >= old(collected)@.len(),
        final(collected)@.subrange(0, old(collected)@.len() as int) == old(collected)@,
        old(shared).hashes <= final(shared).hashes,
        final(shared).hashes - old(shared).hashes <= span(old(queue)@),
        final(shared).hashes + span(final(queue)@) <= old(shared).hashes + span(old(queue)@),
        (old(shared).stop || old(queue)@.len() == 0) ==> final(shared).hashes == old(
            shared,
        ).hashes && final(collected)@ == old(collected)@ && final(queue)@ == old(queue)@,
        (!old(shared).stop && old(queue)@.len() > 0) ==> (({
            let lo = old(queue)@[0].start as int;
            let t = lo + (final(shared).hashes - old(shared).hashes);
            &&& sols_match(
                final(collected)@.subrange(
                    old(collected)@.len() as int,
                    final(collected)@.len() as int,
                ),
                qual_nonces(prefix@, difficulty as int, lo, t),
                prefix@,
            )
            &&& (!final(shared).stop ==> t == lo + span(old(queue)@) && final(queue)@.len() == 0)
            &&& (final(shared).stop ==> t <= final(collected)@[k - 1].nonce + interval)
        })),
{
    let ghost lo: int = if old(queue)@.len() > 0 {
        old(queue)@[0].start as int
    } else {
        0
    };
    let ghost base = old(collected)@.len() as int;
    proof {
        if old(queue)@.len() > 0 {
            lemma_contiguous_drop_first(old(queue)@);
        }
    }
    loop
        invariant
            interval >= 1,
            k >= 1,
            base == old(collected)@.len(),
            lo == if old(queue)@.len() > 0 {
                old(queue)@[0].start as int
            } else {
                0
            },
            contiguous(old(queue)@),
            old(shared).stop <==> old(collected)@.len() >= k,
            contiguous(queue@),
            shared.stop <==> collected@.len() >= k,
            shared.hashes + span(queue@) <= u64::MAX,
            shared.hashes >= old(shared).hashes,
            shared.hashes - old(shared).hashes <= span(old(queue)@),
            shared.hashes + span(queue@) <= old(shared).hashes + span(old(queue)@),
            collected@.len() >= base,
            collected@.subrange(0, base) == old(collected)@,
            old(shared).stop ==> shared.stop && shared.hashes == old(shared).hashes
                && collected@ == old(collected)@ && queue@ == old(queue)@,
            old(queue)@.len() == 0 ==> shared.hashes == old(shared).hashes && collected@ == old(
                collected,
            )@ && queue@ == old(queue)@,
            (!old(shared).stop && old(queue)@.len() > 0) ==> (({
                let t = lo + (shared.hashes - old(shared).hashes);
                &&& sols_match(
                    collected@.subrange(base, collected@.len() as int),
                    qual_nonces(prefix@, difficulty as int, lo, t),
                    prefix@,
                )
                &&& (!shared.stop ==> ((queue@.len() > 0 ==> queue@[0].start == t && t + span(
                    queue@,
                ) == lo + span(old(queue)@)) && (queue@.len() == 0 ==> t == lo + span(
                    old(queue)@,
                ))))
                &&& (shared.stop ==> t <= collected@[k - 1].nonce + interval)
            })),
        ensures
            shared.hashes + span(queue@) <= old(shared).hashes + span(old(queue)@),
            contiguous(queue@),
            shared.stop <==> collected@.len() >= k,
            shared.stop || queue@.len() == 0,
            shared.hashes >= old(shared).hashes,
            shared.hashes - old(shared).hashes <= span(old(queue)@),
            collected@.len() >= base,
            collected@.subrange(0, base) == old(collected)@,
            old(shared).stop ==> shared.stop && shared.hashes == old(shared).hashes
                && collected@ == old(collected)@ && queue@ == old(queue)@,
            old(queue)@.len() == 0 ==> shared.hashes == old(shared).hashes && collected@ == old(
                collected,
            )@ && queue@ == old(queue)@,
            (!old(shared).stop && old(queue)@.len() > 0) ==> (({
                let t = lo + (shared.hashes - old(shared).hashes);
                &&& sols_match(
                    collected@.subrange(base, collected@.len() as int),
                    qual_nonces(prefix@, difficulty as int, lo, t),
                    prefix@,
                )
                &&& (!shared.stop ==> t == lo + span(old(queue)@) && queue@.len() == 0)
                &&& (shared.stop ==> t <= collected@[k - 1].nonce + interval)
            })),
        decreases queue@.len(),
    {
        if shared.stop {
            break;
        }
        let next = queue.withdraw();
        match next {
            None => {
                break;
            },
            Some(w) => {
                let ghost q_before = queue@.insert(0, w);
                let ghost c_mid = collected@;
                let ghost h_mid = shared.hashes;
                proof {
                    assert(q_before =~= seq![w] + queue@);
                    assert(q_before.drop_first() =~= queue@);
                    lemma_contiguous_drop_first(q_before);
                }
                let t2 = scan_chunk(prefix, difficulty, w, interval, k, shared, collected);
                proof {
                    let t1 = lo + (h_mid - old(shared).hashes);
                    assert(t1 == w.start);
                    let suffix_a = c_mid.subrange(base, c_mid.len() as int);
                    let suffix_b = collected@.subrange(c_mid.len() as int, collected@.len() as int);
                    assert(collected@.subrange(0, c_mid.len() as int) == c_mid);
                    assert(collected@.subrange(base, collected@.len() as int) =~= suffix_a
                        + suffix_b);
                    assert(collected@.subrange(0, base) =~= c_mid.subrange(0, base));
                    lemma_sols_match_concat(
                        suffix_a,
                        qual_nonces(prefix@, difficulty as int, lo, t1),
                        suffix_b,
                        qual_nonces(prefix@, difficulty as int, w.start as int, t2 as int),
                        prefix@,
                    );
                    lemma_qual_nonces_concat(
                        prefix@,
                        difficulty as int,
                        lo,
                        t1,
                        t2 as int,
                    );
                }
            },
        }
    }
}

/// Why a run's configuration was rejected before any search began.
#[derive(Clone, Copy, Debug, PartialEq, Eq)]
pub enum ConfigError {
    /// `worker_count` was zero.
    ZeroWorkers,
    /// `chunk_size` was zero.
    ZeroChunkSize,
    /// `search_start >= search_end`.
    EmptyRange,
}

/// The outcome of a run: the sorted, truncated solutions, the exact number
/// of nonces hashed, and the shortfall against the target when the range was
/// exhausted before `k` solutions were found.
#[derive(Debug)]
pub struct Report {
    pub solutions: Vec<Solution>,
    pub hashes: u64,
    pub shortfall: usize,
}

/// Run a complete search over `[search_start, search_end)`.
///
/// The configuration is validated first; then the range is partitioned into
/// chunks of `chunk_size`, and `worker_count` workers drain the queue in
/// turn, stopping early once `k` solutions are in hand.  The reported
/// solutions are the `k` smallest qualifying nonces of the range (all of
/// them, when fewer qualify before exhaustion), in ascending order, each
/// with its digest: the report does not depend on the chunking or on the
/// number of workers.  The hash counter is exact: when the report is short
/// of `k`, every nonce of the range was hashed exactly once.
pub fn run_search(
    prefix: &str,
    difficulty: usize,
    k: usize,
    search_start: u64,
    search_end: u64,
    worker_count: usize,
    chunk_size: u64,
) -> (r: Result<Report, ConfigError>)
    requires
        k >= 1,
    ensures
        (r matches Err(_)) <==> (worker_count == 0 || chunk_size == 0 || search_start
            >= search_end),
        (r matches Err(ConfigError::ZeroWorkers)) <==> worker_count == 0,
        (r matches Err(ConfigError::ZeroChunkSize)) <==> (worker_count != 0 && chunk_size == 0),
        (r matches Err(ConfigError::EmptyRange)) <==> (worker_count != 0 && chunk_size != 0
            && search_start >= search_end),
        match r {
            Result::Ok(rep) => ({
                let qall = qual_nonces(
                    prefix@,
                    difficulty as int,
                    search_start as int,
                    search_end as int,
                );
                let m = if k <= qall.len() {
                    k as int
                } else {
                    qall.len() as int
                };
                &&& rep.solutions@.len() == m
                &&& sols_match(rep.solutions@, qall.take(m), prefix@)
                &&& sorted_by_nonce(rep.solutions@)
                &&& distinct_nonces(rep.solutions@)
                &&& rep.hashes <= search_end - search_start
                &&& (rep.solutions@.len() < k ==> rep.hashes == search_end - search_start)
                &&& (rep.solutions@.len() >= k ==> search_start + rep.hashes > rep.solutions@[k
                    - 1].nonce)
                &&& rep.shortfall == if rep.solutions@.len() >= k {
                    0int
                } else {
                    k - rep.solutions@.len()
                }
            }),
            Result::Err(_) => true,
        },
{
    if worker_count == 0 {
        return Err(ConfigError::ZeroWorkers);
    }
    if chunk_size == 0 {
        return Err(ConfigError::ZeroChunkSize);
    }
    if search_start >= search_end {
        return Err(ConfigError::EmptyRange);
    }
    let mut queue = WorkQueue::new(search_start, search_end, chunk_size);
    proof {
        lemma_partition_contiguous(queue@, search_start, search_end);
    }
    let mut shared = SharedState { stop: false, hashes: 0 };
    let mut collected: Vec<Solution> = Vec::new();
    let ghost d = difficulty as int;
    let mut i: usize = 0;
    while i < worker_count
        invariant
            k >= 1,
            search_start < search_end,
            contiguous(queue@),
            shared.stop <==> collected@.len() >= k,
            shared.hashes + span(queue@) <= search_end - search_start,
            shared.hashes <= search_end - search_start,
            d == difficulty as int,
            sols_match(
                collected@,
                qual_nonces(prefix@, d, search_start as int, search_start + shared.hashes),
                prefix@,
            ),
            !shared.stop ==> ((queue@.len() > 0 ==> queue@[0].start == search_start
                + shared.hashes && search_start + shared.hashes + span(queue@) == search_end) && (
            queue@.len() == 0 ==> shared.hashes == search_end - search_start)),
            i >= 1 ==> (shared.stop || queue@.len() == 0),
        decreases worker_count - i,
    {
        let ghost c_mid = collected@;
        let ghost h_mid = shared.hashes;
        let ghost q_mid = queue@;
        worker_loop(
            i,
            prefix,
            difficulty,
            STOP_CHECK_INTERVAL,
            k,
            &mut queue,
            &mut shared,
            &mut collected,
        );
        proof {
            if queue@.len() > 0 {
                lemma_contiguous_drop_first(queue@);
            }
            if !(c_mid.len() >= k) && q_mid.len() > 0 {
                // the worker scanned [t1, t2): stitch the solution runs
                let t1 = search_start + h_mid;
                let t2 = search_start + shared.hashes;
                assert(q_mid[0].start == t1);
                let suffix = collected@.subrange(c_mid.len() as int, collected@.len() as int);
                assert(collected@.subrange(0, c_mid.len() as int) == c_mid);
                assert(collected@ =~= c_mid + suffix);
                lemma_sols_match_concat(
                    c_mid,
                    qual_nonces(prefix@, d, search_start as int, t1),
                    suffix,
                    qual_nonces(prefix@, d, t1, t2),
                    prefix@,
                );
                lemma_qual_nonces_concat(prefix@, d, search_start as int, t1, t2);
            }
        }
        i = i + 1;
    }
    // the accumulated solutions are exactly the qualifying nonces of the
    // scanned region [search_start, t), in ascending order
    let ghost t = search_start + shared.hashes;
    let ghost qt = qual_nonces(prefix@, d, search_start as int, t);
    let ghost c_full = collected@;
    proof {
        lemma_qual_nonces_range(prefix@, d, search_start as int, t);
        assert forall|a: int, b: int| 0 <= a < b < c_full.len() implies c_full[a].nonce
            < c_full[b].nonce by {
            assert(c_full[a].nonce == qt[a] && c_full[b].nonce == qt[b]);
        }
        assert(sorted_by_nonce(c_full));
        assert(distinct_nonces(c_full));
        lemma_qual_nonces_concat(prefix@, d, search_start as int, t, search_end as int);
    }
    let total = shared.hashes;
    finalize_solutions(&mut collected, k);
    proof {
        let qall = qual_nonces(prefix@, d, search_start as int, search_end as int);
        assert(qt =~= qall.take(qt.len() as int));
        let m = if k <= qall.len() {
            k as int
        } else {
            qall.len() as int
        };
        let j = if k <= c_full.len() {
            k as int
        } else {
            c_full.len() as int
        };
        assert(collected@ == c_full.take(j));
        if shared.stop {
            // early stop: at least k solutions were in hand, so the first k
            // qualifying nonces of the whole range were all found
            assert(c_full.len() >= k);
            assert(j == k && m == k);
            assert(qt.take(k as int) =~= qall.take(k as int));
            assert forall|a: int| 0 <= a < k implies (#[trigger] collected@[a]).nonce == qall.take(
                m,
            )[a] && collected@[a].hash_hex@ == crate::digest::digest_of(
                prefix@,
                qall.take(m)[a],
            ) by {
                assert(collected@[a] == c_full[a]);
                assert(qall.take(m)[a] == qt[a]);
            }
            assert(sols_match(collected@, qall.take(m), prefix@));
            // the k-th solution's nonce was scanned, so the counter reaches
            // past it
            assert(collected@[k - 1] == c_full[k - 1]);
            assert(c_full[k - 1].nonce == qt[k - 1]);
            assert(qt[k - 1] < t);
        } else {
            // natural completion: the whole range was scanned
            assert(t == search_end as int);
            assert(qt =~= qall);
            assert(c_full.len() < k);
            assert(j == c_full.len() && m == c_full.len());
            assert(collected@ =~= c_full);
            assert(qall.take(m) =~= qall);
            assert(sols_match(collected@, qall.take(m), prefix@));
        }
        assert(sorted_by_nonce(collected@)) by {
            assert(forall|a: int|
                0 <= a < collected@.len() ==> collected@[a] == c_full[a]);
        }
        assert(distinct_nonces(collected@)) by {
            assert(forall|a: int|
                0 <= a < collected@.len() ==> collected@[a] == c_full[a]);
        }
    }
    let shortfall = if collected.len() < k {
        k - collected.len()
    } else {
        0
    };
    Ok(Report { solutions: collected, hashes: total, shortfall })
}

} // verus!
