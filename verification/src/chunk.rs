//! Chunks of the search space and the initial partitioning.

use vstd::prelude::*;

verus! {

/// A work item: the half-open range of nonces `[start, start + len)`.
#[derive(Clone, Copy, Debug)]
pub struct Work {
    pub start: u64,
    pub len: u64,
}

impl Work {
    /// The mathematical end of the range, which may exceed `u64::MAX`.
    pub open spec fn end(self) -> int {
        self.start + self.len
    }

    /// Whether `n` lies inside this chunk.
    pub open spec fn contains(self, n: u64) -> bool {
        self.start <= n < self.end()
    }

    /// The exclusive end of the range, saturating at `u64::MAX`.
    pub fn end_exclusive(self) -> (r: u64)
        ensures
            r == if self.end() <= u64::MAX { self.end() } else { u64::MAX as int },
    {
        if self.len <= u64::MAX - self.start {
            self.start + self.len
        } else {
            u64::MAX
        }
    }
}

/// The chunks are non-empty, consecutive, and cover exactly `[start, end)`:
/// the first begins at `start`, each next one begins where the previous
/// ended, and the last ends at `end`.
pub open spec fn is_partition(chunks: Seq<Work>, start: u64, end: u64) -> bool {
    &&& forall|i: int| 0 <= i < chunks.len() ==> (#[trigger] chunks[i]).len >= 1
    &&& forall|i: int| 0 <= i < chunks.len() ==> (#[trigger] chunks[i]).end() <= end
    &&& forall|i: int| 0 < i < chunks.len() ==> (#[trigger] chunks[i]).start == chunks[i - 1].end()
    &&& if start >= end {
        chunks.len() == 0
    } else {
        &&& chunks.len() > 0
        &&& chunks[0].start == start
        &&& chunks[chunks.len() - 1].end() == end
    }
}

/// Chunks are non-empty, stay within `u64`, and each begins where the
/// previous one ended.  A partition is contiguous, and stays contiguous as
/// chunks are withdrawn from the front.
pub open spec fn contiguous(chunks: Seq<Work>) -> bool {
    &&& forall|i: int| 0 <= i < chunks.len() ==> (#[trigger] chunks[i]).len >= 1
    &&& forall|i: int| 0 <= i < chunks.len() ==> (#[trigger] chunks[i]).end() <= u64::MAX
    &&& forall|i: int| 0 < i < chunks.len() ==> (#[trigger] chunks[i]).start == chunks[i - 1].end()
}

/// The number of nonces a contiguous chunk sequence covers.
pub open spec fn span(chunks: Seq<Work>) -> int {
    if chunks.len() == 0 {
        0
    } else {
        chunks[chunks.len() - 1].end() - chunks[0].start
    }
}

/// Withdrawing the front chunk of a contiguous sequence leaves a contiguous
/// sequence covering exactly the remaining nonces.
pub proof fn lemma_contiguous_drop_first(chunks: Seq<Work>)
    requires
        contiguous(chunks),
        chunks.len() > 0,
    ensures
        contiguous(chunks.drop_first()),
        span(chunks) == chunks[0].len + span(chunks.drop_first()),
        span(chunks.drop_first()) >= 0,
        chunks.len() > 1 ==> chunks.drop_first()[0].start == chunks[0].end(),
    decreases chunks.len(),
{
    let rest = chunks.drop_first();
    assert(forall|i: int| 0 <= i < rest.len() ==> rest[i] == chunks[i + 1]);
    if chunks.len() > 1 {
        lemma_contiguous_drop_first(rest);
    }
}

/// A partition of `[start, end)` is contiguous, begins at `start`, and spans
/// the whole range.
pub proof fn lemma_partition_contiguous(chunks: Seq<Work>, start: u64, end: u64)
    requires
        is_partition(chunks, start, end),
    ensures
        contiguous(chunks),
        start < end ==> chunks.len() > 0 && chunks[0].start == start && span(chunks) == end
            - start,
        start >= end ==> chunks.len() == 0,
{
}

proof fn lemma_chunk_ends_before(chunks: Seq<Work>, i: int, j: int)
    requires
        contiguous(chunks),
        0 <= i < j < chunks.len(),
    ensures
        chunks[i].end() <= chunks[j].start,
    decreases j - i,
{
    if i + 1 < j {
        lemma_chunk_ends_before(chunks, i + 1, j);
    }
}

proof fn lemma_partition_chunk_of(chunks: Seq<Work>, start: u64, end: u64, n: u64) -> (i: int)
    requires
        is_partition(chunks, start, end),
        start <= n < end,
    ensures
        0 <= i < chunks.len() && chunks[i].contains(n),
    decreases chunks.len(),
{
    if n < chunks[0].end() {
        0
    } else {
        let start2 = chunks[0].end() as u64;
        let rest = chunks.drop_first();
        assert(is_partition(rest, start2, end)) by {
            assert(forall|t: int| 0 <= t < rest.len() ==> rest[t] == chunks[t + 1]);
        }
        let j = lemma_partition_chunk_of(rest, start2, end, n);
        assert(chunks[j + 1] == rest[j]);
        j + 1
    }
}

/// Partition correctness: every nonce of `[start, end)` lies in exactly one
/// chunk, and no chunk holds a nonce outside the range.
pub proof fn lemma_partition_covers(chunks: Seq<Work>, start: u64, end: u64, n: u64)
    requires
        is_partition(chunks, start, end),
    ensures
        start <= n < end ==> exists|i: int|
            0 <= i < chunks.len() && (#[trigger] chunks[i]).contains(n),
        forall|i: int, j: int|
            0 <= i < j < chunks.len() ==> !((#[trigger] chunks[i]).contains(n)
                && (#[trigger] chunks[j]).contains(n)),
        !(start <= n < end) ==> forall|i: int|
            0 <= i < chunks.len() ==> !(#[trigger] chunks[i]).contains(n),
{
    lemma_partition_contiguous(chunks, start, end);
    assert forall|i: int, j: int|
        0 <= i < j < chunks.len() implies !((#[trigger] chunks[i]).contains(n)
        && (#[trigger] chunks[j]).contains(n)) by {
        lemma_chunk_ends_before(chunks, i, j);
    }
    if start <= n < end {
        let i = lemma_partition_chunk_of(chunks, start, end, n);
    } else {
        assert forall|i: int| 0 <= i < chunks.len() implies !(#[trigger] chunks[i]).contains(n) by {
            if 0 < i {
                lemma_chunk_ends_before(chunks, 0, i);
            }
        }
    }
}

/// The partitioning is deterministic: the contract of `make_initial_work`
/// pins the chunk sequence, so any two sequences that split `[start, end)`
/// into chunks of `chunk_size` (all but the last exactly `chunk_size`, none
/// longer) are equal.
pub proof fn lemma_partition_unique(
    a: Seq<Work>,
    b: Seq<Work>,
    start: u64,
    end: u64,
    chunk_size: u64,
)
    requires
        chunk_size >= 1,
        is_partition(a, start, end),
        is_partition(b, start, end),
        forall|i: int| 0 <= i < a.len() ==> (#[trigger] a[i]).len <= chunk_size,
        forall|i: int| 0 <= i < b.len() ==> (#[trigger] b[i]).len <= chunk_size,
        forall|i: int| 0 <= i < a.len() - 1 ==> (#[trigger] a[i]).len == chunk_size,
        forall|i: int| 0 <= i < b.len() - 1 ==> (#[trigger] b[i]).len == chunk_size,
    ensures
        a == b,
    decreases a.len(),
{
    if start >= end {
        assert(a =~= b);
    } else if end - start <= chunk_size {
        // one chunk suffices, and a longer sequence would reach past `end`
        assert(a.len() == 1) by {
            if a.len() >= 2 {
                assert(a[0].len == chunk_size);
                assert(a[1].start == start + chunk_size && a[1].len >= 1);
            }
        }
        assert(b.len() == 1) by {
            if b.len() >= 2 {
                assert(b[0].len == chunk_size);
                assert(b[1].start == start + chunk_size && b[1].len >= 1);
            }
        }
        assert(a[0].len == end - start && b[0].len == end - start);
        assert(a =~= b);
    } else {
        // both sequences lead with a full chunk; peel it and recurse
        assert(a.len() >= 2) by {
            if a.len() == 1 {
                assert(a[0].len == end - start);
            }
        }
        assert(b.len() >= 2) by {
            if b.len() == 1 {
                assert(b[0].len == end - start);
            }
        }
        assert(a[0].len == chunk_size && b[0].len == chunk_size);
        let start2 = (start + chunk_size) as u64;
        let ra = a.drop_first();
        let rb = b.drop_first();
        assert(forall|t: int| 0 <= t < ra.len() ==> ra[t] == a[t + 1]);
        assert(forall|t: int| 0 <= t < rb.len() ==> rb[t] == b[t + 1]);
        assert(is_partition(ra, start2, end));
        assert(is_partition(rb, start2, end));
        lemma_partition_unique(ra, rb, start2, end, chunk_size);
        assert(a =~= seq![a[0]] + ra);
        assert(b =~= seq![b[0]] + rb);
    }
}

/// Split `[start, end)` into chunks of exactly `chunk_size` nonces each,
/// except that the last chunk may be shorter; the chunks are returned in
/// ascending order of `start`.
pub fn make_initial_work(start: u64, end: u64, chunk_size: u64) -> (chunks: Vec<Work>)
    requires
        chunk_size >= 1,
    ensures
        is_partition(chunks@, start, end),
        forall|i: int| 0 <= i < chunks@.len() ==> (#[trigger] chunks@[i]).len <= chunk_size,
        forall|i: int| 0 <= i < chunks@.len() - 1 ==> (#[trigger] chunks@[i]).len == chunk_size,
{
    let mut chunks: Vec<Work> = Vec::new();
    let mut cur: u64 = start;
    while cur < end
        invariant
            chunk_size >= 1,
            start <= cur <= end || (start > end && cur == start),
            cur <= end || chunks@.len() == 0,
            forall|i: int| 0 <= i < chunks@.len() ==> (#[trigger] chunks@[i]).len >= 1,
            forall|i: int| 0 <= i < chunks@.len() ==> (#[trigger] chunks@[i]).len <= chunk_size,
            forall|i: int|
                0 <= i < chunks@.len() - 1 ==> (#[trigger] chunks@[i]).len == chunk_size,
            chunks@.len() > 0 ==> (chunks@[chunks@.len() - 1].len == chunk_size || cur == end),
            forall|i: int| 0 <= i < chunks@.len() ==> (#[trigger] chunks@[i]).end() <= end,
            forall|i: int|
                0 < i < chunks@.len() ==> (#[trigger] chunks@[i]).start == chunks@[i - 1].end(),
            chunks@.len() == 0 ==> cur == start,
            chunks@.len() > 0 ==> chunks@[0].start == start,
            chunks@.len() > 0 ==> chunks@[chunks@.len() - 1].end() == cur,
        decreases end - cur,
    {
        let remaining = end - cur;
        let len = if remaining < chunk_size {
            remaining
        } else {
            chunk_size
        };
        chunks.push(Work { start: cur, len });
        cur = cur + len;
    }
    chunks
}

} // verus!
