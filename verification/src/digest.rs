//! The digest oracle and the difficulty predicate.
//!
//! A candidate string `prefix + ":" + decimal(nonce)` is hashed with SHA-256
//! and the digest is rendered as lowercase hex.  A nonce qualifies when that
//! hex form begins with `difficulty` `'0'` characters.  The digest itself is
//! an opaque, deterministic function of the prefix and the nonce; everything
//! the search concludes about it goes through the name `digest_of`.

use sha2::Digest;
use vstd::prelude::*;
use vstd::string::StrSliceExecFns;

use crate::solution::Solution;

verus! {

/// The 64-character lowercase-hex SHA-256 digest of
/// `prefix + ":" + decimal(nonce)`.
pub uninterp spec fn digest_of(prefix: Seq<char>, nonce: u64) -> Seq<char>;

/// A lowercase hexadecimal digit.
pub open spec fn is_hex_char(c: char) -> bool {
    ('0' <= c && c <= '9') || ('a' <= c && c <= 'f')
}

/// Relies on sha2's `Sha256` (through the `Digest` trait's `new`, `update`
/// and `finalize`): the SHA-256 digest of `prefix + ":" + decimal(nonce)`,
/// a deterministic function of `prefix` and `nonce` alone; and on
/// `hex::encode`: 32 digest bytes become 64 characters, each drawn from the
/// lowercase hex table `0123456789abcdef`.
#[verifier::external_body]
fn sha256_hex(prefix: &str, nonce: u64) -> (r: String)
    ensures
        r@ == digest_of(prefix@, nonce),
        r@.len() == 64,
        forall|i: int| 0 <= i < r@.len() ==> is_hex_char(#[trigger] r@[i]),
{
    let mut h = sha2::Sha256::new();
    h.update(prefix.as_bytes());
    h.update(b":");
    h.update(nonce.to_string().as_bytes());
    hex::encode(h.finalize())
}

/// The digest has at least `difficulty` characters and the first
/// `difficulty` of them are `'0'`.
pub open spec fn meets_spec(h: Seq<char>, difficulty: int) -> bool {
    &&& difficulty <= h.len()
    &&& forall|i: int| 0 <= i < difficulty ==> h[i] == '0'
}

/// Difficulty check: the hash's hex form begins with `difficulty` leading
/// `'0'` characters.  A string shorter than the difficulty cannot qualify.
pub fn meets_difficulty(hash_hex: &str, difficulty: usize) -> (r: bool)
    ensures
        r == meets_spec(hash_hex@, difficulty as int),
{
    let n = hash_hex.unicode_len();
    if difficulty > n {
        return false;
    }
    let mut i: usize = 0;
    while i < difficulty
        invariant
            i <= difficulty,
            difficulty <= n,
            n == hash_hex@.len(),
            forall|t: int| 0 <= t < i ==> hash_hex@[t] == '0',
        decreases difficulty - i,
    {
        if hash_hex.get_char(i) != '0' {
            return false;
        }
        i = i + 1;
    }
    true
}

/// Whether `nonce`'s digest clears the difficulty threshold.
pub open spec fn qualifies(prefix: Seq<char>, difficulty: int, nonce: u64) -> bool {
    meets_spec(digest_of(prefix, nonce), difficulty)
}

/// Hash one nonce; keep the record exactly when its digest qualifies.
pub fn test_nonce(prefix: &str, difficulty: usize, nonce: u64) -> (r: Option<Solution>)
    ensures
        match r {
            Some(s) => {
                &&& qualifies(prefix@, difficulty as int, nonce)
                &&& s.nonce == nonce
                &&& s.hash_hex@ == digest_of(prefix@, nonce)
                &&& s.hash_hex@.len() == 64
                &&& forall|i: int| 0 <= i < s.hash_hex@.len() ==> is_hex_char(
                    #[trigger] s.hash_hex@[i],
                )
            },
            None => !qualifies(prefix@, difficulty as int, nonce),
        },
{
    let hash_hex = sha256_hex(prefix, nonce);
    if meets_difficulty(hash_hex.as_str(), difficulty) {
        Some(Solution { nonce, hash_hex })
    } else {
        None
    }
}

/// Recompute the digest for `s.nonce` and audit the record: true exactly when
/// the stored hex digest is the oracle's digest for that nonce and it clears
/// the difficulty threshold.
pub fn check_solution(prefix: &str, difficulty: usize, s: &Solution) -> (r: bool)
    ensures
        r == (s.hash_hex@ == digest_of(prefix@, s.nonce) && qualifies(
            prefix@,
            difficulty as int,
            s.nonce,
        )),
        r ==> s.hash_hex@.len() == 64,
{
    let expect = sha256_hex(prefix, s.nonce);
    if s.hash_hex == expect {
        meets_difficulty(s.hash_hex.as_str(), difficulty)
    } else {
        false
    }
}

/// The qualifying nonces in `[lo, hi)`, in ascending order.
pub open spec fn qual_nonces(prefix: Seq<char>, difficulty: int, lo: int, hi: int) -> Seq<u64>
    decreases hi - lo,
{
    if lo >= hi {
        Seq::empty()
    } else if qualifies(prefix, difficulty, (hi - 1) as u64) {
        qual_nonces(prefix, difficulty, lo, hi - 1).push((hi - 1) as u64)
    } else {
        qual_nonces(prefix, difficulty, lo, hi - 1)
    }
}

/// Adjacent ranges of qualifying nonces concatenate.
pub proof fn lemma_qual_nonces_concat(prefix: Seq<char>, difficulty: int, lo: int, mid: int, hi: int)
    requires
        lo <= mid <= hi,
    ensures
        qual_nonces(prefix, difficulty, lo, hi) == qual_nonces(prefix, difficulty, lo, mid)
            + qual_nonces(prefix, difficulty, mid, hi),
    decreases hi - mid,
{
    if mid == hi {
        assert(qual_nonces(prefix, difficulty, mid, hi) =~= Seq::empty());
        assert(qual_nonces(prefix, difficulty, lo, hi) =~= qual_nonces(prefix, difficulty, lo, mid)
            + qual_nonces(prefix, difficulty, mid, hi));
    } else {
        lemma_qual_nonces_concat(prefix, difficulty, lo, mid, hi - 1);
        if qualifies(prefix, difficulty, (hi - 1) as u64) {
            assert(qual_nonces(prefix, difficulty, lo, hi) =~= qual_nonces(
                prefix,
                difficulty,
                lo,
                mid,
            ) + qual_nonces(prefix, difficulty, mid, hi));
        } else {
            assert(qual_nonces(prefix, difficulty, lo, hi) =~= qual_nonces(
                prefix,
                difficulty,
                lo,
                mid,
            ) + qual_nonces(prefix, difficulty, mid, hi));
        }
    }
}

/// The qualifying nonces of a range lie inside it, in strictly ascending
/// order, and are exactly those nonces of the range that qualify.
pub proof fn lemma_qual_nonces_range(prefix: Seq<char>, difficulty: int, lo: int, hi: int)
    requires
        0 <= lo,
        hi <= u64::MAX + 1,
    ensures
        forall|i: int|
            0 <= i < qual_nonces(prefix, difficulty, lo, hi).len() ==> lo <= #[trigger] qual_nonces(
                prefix,
                difficulty,
                lo,
                hi,
            )[i] < hi,
        forall|i: int, j: int|
            0 <= i < j < qual_nonces(prefix, difficulty, lo, hi).len() ==> qual_nonces(
                prefix,
                difficulty,
                lo,
                hi,
            )[i] < qual_nonces(prefix, difficulty, lo, hi)[j],
        forall|i: int|
            0 <= i < qual_nonces(prefix, difficulty, lo, hi).len() ==> qualifies(
                prefix,
                difficulty,
                #[trigger] qual_nonces(prefix, difficulty, lo, hi)[i],
            ),
    decreases hi - lo,
{
    if lo < hi {
        lemma_qual_nonces_range(prefix, difficulty, lo, hi - 1);
        let prev = qual_nonces(prefix, difficulty, lo, hi - 1);
        let cur = qual_nonces(prefix, difficulty, lo, hi);
        if qualifies(prefix, difficulty, (hi - 1) as u64) {
            assert(cur == prev.push((hi - 1) as u64));
            assert((hi - 1) as u64 == hi - 1);
            assert(forall|i: int| 0 <= i < prev.len() ==> cur[i] == prev[i]);
            assert(cur[cur.len() - 1] == (hi - 1) as u64);
        } else {
            assert(cur == prev);
        }
    }
}

/// Solutions `s` record exactly the nonces `ns`, each with the oracle's
/// digest for it.
pub open spec fn sols_match(s: Seq<Solution>, ns: Seq<u64>, prefix: Seq<char>) -> bool {
    &&& s.len() == ns.len()
    &&& forall|i: int|
        0 <= i < s.len() ==> (#[trigger] s[i]).nonce == ns[i] && s[i].hash_hex@ == digest_of(
            prefix,
            ns[i],
        )
}

/// Matching runs of solutions concatenate.
pub proof fn lemma_sols_match_concat(
    s1: Seq<Solution>,
    ns1: Seq<u64>,
    s2: Seq<Solution>,
    ns2: Seq<u64>,
    prefix: Seq<char>,
)
    requires
        sols_match(s1, ns1, prefix),
        sols_match(s2, ns2, prefix),
    ensures
        sols_match(s1 + s2, ns1 + ns2, prefix),
{
    assert forall|i: int| 0 <= i < (s1 + s2).len() implies ((s1 + s2)[i]).nonce == (ns1 + ns2)[i]
        && ((s1 + s2)[i]).hash_hex@ == digest_of(prefix, (ns1 + ns2)[i]) by {
        if i < s1.len() {
            assert((s1 + s2)[i] == s1[i] && (ns1 + ns2)[i] == ns1[i]);
        } else {
            assert((s1 + s2)[i] == s2[i - s1.len()] && (ns1 + ns2)[i] == ns2[i - s1.len()]);
        }
    }
}

} // verus!
