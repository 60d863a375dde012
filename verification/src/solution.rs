//! Solutions and the deterministic final ordering.
//!
//! Workers may report solutions in any order; the collector restores
//! determinism by sorting the accumulated solutions by nonce and truncating
//! to the target count.  Because a run tests each nonce at most once, the
//! accumulated nonces are distinct, and the sorted, truncated report is a
//! function of the accumulated multiset alone.

use vstd::multiset::Multiset;
use vstd::prelude::*;

verus! {

broadcast use vstd::seq_lib::group_to_multiset_ensures, vstd::multiset::group_multiset_axioms;

/// A nonce that passed the difficulty predicate, with its digest.
#[derive(Clone, Debug)]
pub struct Solution {
    pub nonce: u64,
    pub hash_hex: String,
}

/// Nonces appear in ascending order (duplicates allowed).
pub open spec fn sorted_by_nonce(s: Seq<Solution>) -> bool {
    forall|i: int, j: int| 0 <= i < j < s.len() ==> s[i].nonce <= s[j].nonce
}

/// No two entries share a nonce.
pub open spec fn distinct_nonces(s: Seq<Solution>) -> bool {
    forall|i: int, j: int| 0 <= i < j < s.len() ==> s[i].nonce != s[j].nonce
}

/// The ascending-by-nonce arrangement of a multiset of solutions.  When the
/// nonces in `m` are distinct this arrangement is unique
/// (`lemma_sorted_distinct_unique`), so any sorting procedure must produce it.
pub open spec fn sorted_form(m: Multiset<Solution>) -> Seq<Solution> {
    choose|t: Seq<Solution>| sorted_by_nonce(t) && t.to_multiset() == m
}

/// A sequence with the same multiset of elements as a distinct-nonce sequence
/// has distinct nonces itself.
pub proof fn lemma_distinct_nonces_multiset(a: Seq<Solution>, b: Seq<Solution>)
    requires
        distinct_nonces(a),
        b.to_multiset() == a.to_multiset(),
    ensures
        distinct_nonces(b),
{
    assert forall|i: int, j: int| 0 <= i < j < b.len() implies b[i].nonce != b[j].nonce by {
        if b[i].nonce == b[j].nonce {
            if b[i] == b[j] {
                // the same element would occur twice in `a`'s multiset
                assert(b.remove(i).to_multiset() == b.to_multiset().remove(b[i]));
                assert(b.remove(i)[j - 1] == b[j]);
                assert(b.remove(i).contains(b[j]));
                assert(b.to_multiset().remove(b[i]).count(b[j]) > 0);
                assert(a.to_multiset().count(b[i]) >= 2);
                let ai = choose|ai: int| 0 <= ai < a.len() && a[ai] == b[i];
                assert(a.contains(b[i]));
                assert(a.remove(ai).to_multiset() == a.to_multiset().remove(a[ai]));
                assert(a.remove(ai).to_multiset().count(b[i]) > 0);
                assert(a.remove(ai).contains(b[i]));
                let aj = choose|aj: int| 0 <= aj < a.remove(ai).len() && a.remove(ai)[aj] == b[i];
                if aj < ai {
                    assert(a[aj] == b[i] && a[ai] == b[i]);
                } else {
                    assert(a[aj + 1] == b[i] && a[ai] == b[i]);
                }
            } else {
                // two different elements with one nonce would both occur in `a`
                assert(b.contains(b[i]) && b.contains(b[j]));
                assert(a.to_multiset().count(b[i]) > 0 && a.to_multiset().count(b[j]) > 0);
                assert(a.contains(b[i]) && a.contains(b[j]));
                let ai = choose|ai: int| 0 <= ai < a.len() && a[ai] == b[i];
                let aj = choose|aj: int| 0 <= aj < a.len() && a[aj] == b[j];
            }
        }
    }
}

/// There is only one ascending arrangement of a given multiset of solutions
/// whose nonces are distinct.
pub proof fn lemma_sorted_distinct_unique(a: Seq<Solution>, b: Seq<Solution>)
    requires
        sorted_by_nonce(a),
        sorted_by_nonce(b),
        distinct_nonces(a),
        a.to_multiset() == b.to_multiset(),
    ensures
        a == b,
    decreases a.len(),
{
    assert(a.to_multiset().len() == a.len());
    assert(b.to_multiset().len() == b.len());
    assert(a.len() == b.len());
    if a.len() == 0 {
        assert(a =~= b);
    } else {
        // the head of each sequence is the unique minimum of the multiset
        assert(a.contains(a[0]));
        assert(b.to_multiset().count(a[0]) > 0);
        assert(b.contains(a[0]));
        let bi = choose|bi: int| 0 <= bi < b.len() && b[bi] == a[0];
        assert(b.contains(b[0]));
        assert(a.to_multiset().count(b[0]) > 0);
        assert(a.contains(b[0]));
        let ai = choose|ai: int| 0 <= ai < a.len() && a[ai] == b[0];
        assert(b[0].nonce <= b[bi].nonce && a[0].nonce <= a[ai].nonce);
        assert(a[0].nonce == b[0].nonce);
        lemma_distinct_nonces_multiset(a, b);
        assert(bi > 0 ==> b[0].nonce != b[bi].nonce);
        assert(b[0] == a[0]);
        assert(a.drop_first() =~= a.remove(0));
        assert(b.drop_first() =~= b.remove(0));
        assert(a.remove(0).to_multiset() == a.to_multiset().remove(a[0]));
        assert(b.remove(0).to_multiset() == b.to_multiset().remove(b[0]));
        assert(forall|i: int|
            0 <= i < a.drop_first().len() ==> a.drop_first()[i] == a[i + 1]);
        assert(forall|i: int|
            0 <= i < b.drop_first().len() ==> b.drop_first()[i] == b[i + 1]);
        lemma_sorted_distinct_unique(a.drop_first(), b.drop_first());
        assert(a =~= seq![a[0]] + a.drop_first());
        assert(b =~= seq![b[0]] + b.drop_first());
    }
}

/// The deterministic report built from accumulated solutions: their
/// ascending-by-nonce arrangement, truncated to the first `k`.
pub open spec fn report_spec(s: Seq<Solution>, k: int) -> Seq<Solution> {
    let m = if k <= s.len() {
        k
    } else {
        s.len() as int
    };
    sorted_form(s.to_multiset()).take(m)
}

/// Determinism of output: the sorted-and-truncated report is a function of
/// the accumulated solutions as a multiset alone, so two accumulations that
/// differ only in arrival order yield the same report.
pub proof fn lemma_report_order_independent(a: Seq<Solution>, b: Seq<Solution>, k: int)
    requires
        a.to_multiset() == b.to_multiset(),
    ensures
        report_spec(a, k) == report_spec(b, k),
{
    assert(a.to_multiset().len() == a.len());
    assert(b.to_multiset().len() == b.len());
}

/// Stable insertion sort by ascending nonce.  An input that is already in
/// ascending order comes back unchanged.
pub fn sort_solutions(v: &mut Vec<Solution>)
    ensures
        sorted_by_nonce(final(v)@),
        final(v)@.to_multiset() == old(v)@.to_multiset(),
        final(v)@.len() == old(v)@.len(),
        sorted_by_nonce(old(v)@) ==> final(v)@ == old(v)@,
{
    let ghost orig = v@;
    let mut i: usize = 1;
    while i < v.len()
        invariant
            i >= 1,
            v@.len() == orig.len(),
            v@.to_multiset() == orig.to_multiset(),
            forall|a: int, b: int| 0 <= a < b < i && b < v@.len() ==> v@[a].nonce <= v@[b].nonce,
            sorted_by_nonce(orig) ==> v@ == orig,
        decreases v@.len() - i,
    {
        let ghost before = v@;
        let s = v.remove(i);
        let mut j: usize = i;
        while j > 0 && v[j - 1].nonce > s.nonce
            invariant
                j <= i,
                i < before.len(),
                v@ == before.remove(i as int),
                s == before[i as int],
                forall|a: int| j <= a < i ==> v@[a].nonce > s.nonce,
            decreases j,
        {
            j = j - 1;
        }
        v.insert(j, s);
        proof {
            // the removed element went back in: the multiset is unchanged
            assert(before.remove(i as int).to_multiset() == before.to_multiset().remove(s));
            assert(v@.remove(j as int) =~= before.remove(i as int));
            assert(v@.remove(j as int).to_multiset() == v@.to_multiset().remove(s));
            assert(v@[j as int] == s);
            assert(v@.contains(s));
            assert(v@.to_multiset().count(s) > 0);
            assert(v@.to_multiset() =~= before.to_multiset());
            // the sorted prefix got one longer
            assert(forall|a: int| 0 <= a < j ==> v@[a] == before.remove(i as int)[a]);
            assert(forall|a: int| j < a <= i ==> v@[a] == before.remove(i as int)[a - 1]);
            assert(forall|a: int, b: int|
                0 <= a < b <= i && b < v@.len() ==> v@[a].nonce <= v@[b].nonce);
            if sorted_by_nonce(orig) {
                assert(before == orig);
                if j < i {
                    assert(before.remove(i as int)[i - 1] == before[i - 1]);
                    assert(before[i - 1].nonce <= before[i as int].nonce);
                    assert(false);
                }
                assert(j == i);
                assert(v@ =~= before);
            }
        }
        i = i + 1;
    }
    proof {
        if v@.len() == 0 {
            assert(sorted_by_nonce(v@));
            if sorted_by_nonce(orig) {
                assert(v@ =~= orig);
            }
        }
    }
}

/// Sort the accumulated solutions by ascending nonce and keep only the first
/// `k`: the deterministic final report.  With distinct nonces the result is
/// `sorted_form` of the accumulated multiset, so it does not depend on the
/// order in which the solutions arrived.
pub fn finalize_solutions(v: &mut Vec<Solution>, k: usize)
    ensures
        sorted_by_nonce(final(v)@),
        final(v)@.len() == if k <= old(v)@.len() { k as int } else { old(v)@.len() as int },
        sorted_by_nonce(old(v)@) ==> final(v)@ == old(v)@.take(final(v)@.len() as int),
        distinct_nonces(old(v)@) ==> final(v)@ == report_spec(old(v)@, k as int),
{
    let ghost orig = v@;
    sort_solutions(v);
    let ghost full = v@;
    proof {
        if distinct_nonces(orig) {
            lemma_distinct_nonces_multiset(orig, full);
            // `full` witnesses the choose in `sorted_form`
            assert(sorted_by_nonce(full) && full.to_multiset() == orig.to_multiset());
            lemma_sorted_distinct_unique(full, sorted_form(orig.to_multiset()));
        }
    }
    if v.len() > k {
        v.truncate(k);
        proof {
            assert(v@ =~= full.take(k as int));
        }
    } else {
        proof {
            assert(v@ =~= full.take(v@.len() as int));
        }
    }
    proof {
        assert(forall|a: int, b: int|
            0 <= a < b < v@.len() ==> v@[a].nonce <= v@[b].nonce);
    }
}

} // verus!
