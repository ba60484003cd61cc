//! Ranking symbols by how many edges of one relation they have: a stable
//! sort on the count, largest first, so that ties keep index order.

use vstd::prelude::*;
use crate::corpus::{Corpus, edges, first_n};

verus! {

broadcast use vstd::seq_lib::group_seq_properties;

/// The relation whose edge count ranks a symbol.
#[derive(PartialEq, Eq, Structural, Clone, Copy, Debug)]
pub enum Rank {
    /// Number of callers.
    Callers,
    /// Number of callees.
    Callees,
    /// Number of implementors.
    Implementors,
}

/// The number of edges of relation `r` that symbol `i` has.
pub open spec fn rank_count(c: Corpus, r: Rank, i: int) -> nat {
    match r {
        Rank::Callers => edges(c.incoming@, i).len(),
        Rank::Callees => edges(c.calls@, i).len(),
        Rank::Implementors => edges(c.implementors@, i).len(),
    }
}

/// Where a symbol with count `x` goes in `s`: after the leading run of
/// entries whose count is at least `x`.
pub open spec fn slot_for(c: Corpus, r: Rank, s: Seq<u32>, x: nat) -> nat
    decreases s.len(),
{
    if s.len() == 0 {
        0
    } else if rank_count(c, r, s[0] as int) >= x {
        1 + slot_for(c, r, s.drop_first(), x)
    } else {
        0
    }
}

/// The symbols below index `k` with more than `min` edges of relation `r`,
/// stably sorted by that count, largest first: each index in turn is placed
/// after every earlier one whose count is at least its own.
pub open spec fn ranked(c: Corpus, r: Rank, min: nat, k: nat) -> Seq<u32>
    decreases k,
{
    if k == 0 {
        Seq::empty()
    } else {
        let prev = ranked(c, r, min, (k - 1) as nat);
        let x = rank_count(c, r, k - 1);
        if x > min {
            prev.insert(slot_for(c, r, prev, x) as int, (k - 1) as u32)
        } else {
            prev
        }
    }
}

proof fn lemma_slot_for_bound(c: Corpus, r: Rank, s: Seq<u32>, x: nat)
    ensures
        slot_for(c, r, s, x) <= s.len(),
    decreases s.len(),
{
    if s.len() > 0 {
        lemma_slot_for_bound(c, r, s.drop_first(), x);
    }
}

/// On a prefix of `s`, the leading run is cut at the prefix's end.
proof fn lemma_slot_for_prefix(c: Corpus, r: Rank, s: Seq<u32>, x: nat, n: nat)
    ensures
        slot_for(c, r, first_n(s, n), x) == if slot_for(c, r, s, x) < n {
            slot_for(c, r, s, x)
        } else if n < s.len() {
            n
        } else {
            slot_for(c, r, s, x)
        },
    decreases s.len(),
{
    lemma_slot_for_bound(c, r, s, x);
    if n < s.len() {
        if n == 0 {
        } else {
            let t = s.take(n as int);
            assert(t.drop_first() =~= first_n(s.drop_first(), (n - 1) as nat));
            assert(t[0] == s[0]);
            lemma_slot_for_prefix(c, r, s.drop_first(), x, (n - 1) as nat);
        }
    }
}

/// Where the leading run of `s` ends, read off its members.
proof fn lemma_slot_for_at(c: Corpus, r: Rank, s: Seq<u32>, x: nat, p: int)
    requires
        0 <= p <= s.len(),
        forall|j: int| 0 <= j < p ==> rank_count(c, r, #[trigger] s[j] as int) >= x,
        p == s.len() || rank_count(c, r, s[p] as int) < x,
    ensures
        slot_for(c, r, s, x) == p,
    decreases p,
{
    if p > 0 {
        assert forall|j: int| 0 <= j < p - 1 implies rank_count(c, r, #[trigger] s.drop_first()[j] as int) >= x by {
            assert(s.drop_first()[j] == s[j + 1]);
        }
        if p < s.len() {
            assert(s.drop_first()[p - 1] == s[p]);
        }
        lemma_slot_for_at(c, r, s.drop_first(), x, p - 1);
    }
}

/// Keeping the first `n` entries commutes with placing one more symbol.
proof fn lemma_first_n_insert(s: Seq<u32>, p: int, q: int, i: u32, n: nat)
    requires
        0 <= p <= s.len(),
        q == if p < n { p } else if n < s.len() { n as int } else { p },
    ensures
        first_n(s.insert(p, i), n) == if q < n {
            first_n(first_n(s, n).insert(q, i), n)
        } else {
            first_n(s, n)
        },
{
    if q < n {
        assert(first_n(s.insert(p, i), n) =~= first_n(first_n(s, n).insert(q, i), n));
    } else {
        assert(first_n(s.insert(p, i), n) =~= first_n(s, n));
    }
}

/// Whether the counts of `s` never increase along it.
pub open spec fn counts_descend(c: Corpus, r: Rank, s: Seq<u32>) -> bool {
    forall|i: int, j: int| 0 <= i < j < s.len() ==> rank_count(c, r, #[trigger] s[i] as int) >= rank_count(c, r, #[trigger] s[j] as int)
}

proof fn lemma_slot_for_split(c: Corpus, r: Rank, s: Seq<u32>, x: nat)
    ensures
        forall|j: int| 0 <= j < slot_for(c, r, s, x) ==> rank_count(c, r, #[trigger] s[j] as int) >= x,
        slot_for(c, r, s, x) < s.len() ==> rank_count(c, r, s[slot_for(c, r, s, x) as int] as int) < x,
    decreases s.len(),
{
    lemma_slot_for_bound(c, r, s, x);
    if s.len() > 0 && rank_count(c, r, s[0] as int) >= x {
        lemma_slot_for_split(c, r, s.drop_first(), x);
        assert forall|j: int| 0 <= j < slot_for(c, r, s, x) implies rank_count(c, r, #[trigger] s[j] as int) >= x by {
            if j > 0 {
                assert(s[j] == s.drop_first()[j - 1]);
            }
        }
        if slot_for(c, r, s, x) < s.len() {
            assert(s[slot_for(c, r, s, x) as int] == s.drop_first()[slot_for(c, r, s.drop_first(), x) as int]);
        }
    }
}

/// The ranking lists symbols by count, largest first, and only symbols
/// with more than `min` edges.
pub proof fn law_ranked_by_count(c: Corpus, r: Rank, min: nat, k: nat)
    requires
        k <= u32::MAX,
    ensures
        counts_descend(c, r, ranked(c, r, min, k)),
        forall|i: int| 0 <= i < ranked(c, r, min, k).len() ==> rank_count(c, r, #[trigger] ranked(c, r, min, k)[i] as int) > min,
    decreases k,
{
    if k > 0 {
        law_ranked_by_count(c, r, min, (k - 1) as nat);
        let prev = ranked(c, r, min, (k - 1) as nat);
        let x = rank_count(c, r, k - 1);
        if x > min {
            let p = slot_for(c, r, prev, x) as int;
            lemma_slot_for_split(c, r, prev, x);
            lemma_slot_for_bound(c, r, prev, x);
            let t = prev.insert(p, (k - 1) as u32);
            assert(t[p] == (k - 1) as u32);
            assert(((k - 1) as u32) as int == k - 1);
            assert forall|i: int, j: int| 0 <= i < j < t.len() implies rank_count(c, r, #[trigger] t[i] as int) >= rank_count(c, r, #[trigger] t[j] as int) by {
                if j < p {
                    assert(t[i] == prev[i] && t[j] == prev[j]);
                } else if j == p {
                    assert(t[i] == prev[i]);
                } else if i == p {
                    assert(t[j] == prev[j - 1]);
                    assert(rank_count(c, r, prev[p] as int) < x);
                    if j - 1 > p {
                        assert(rank_count(c, r, prev[p] as int) >= rank_count(c, r, prev[j - 1] as int));
                    }
                } else if i < p {
                    assert(t[i] == prev[i] && t[j] == prev[j - 1]);
                } else {
                    assert(t[i] == prev[i - 1] && t[j] == prev[j - 1]);
                }
            }
            assert forall|i: int| 0 <= i < t.len() implies rank_count(c, r, #[trigger] t[i] as int) > min by {
                if i < p {
                    assert(t[i] == prev[i]);
                } else if i > p {
                    assert(t[i] == prev[i - 1]);
                }
            }
        }
    }
}

/// The number of edges of relation `r` that symbol `i` has.
fn count_at(c: &Corpus, r: Rank, i: u32) -> (k: usize)
    ensures
        k == rank_count(*c, r, i as int),
{
    let v = match r {
        Rank::Callers => &c.incoming,
        Rank::Callees => &c.calls,
        Rank::Implementors => &c.implementors,
    };
    if (i as usize) < v.len() {
        v[i as usize].len()
    } else {
        0
    }
}

/// The first `n` symbols of the ranking of relation `r` among those with
/// more than `min` edges.
pub fn top_ranked(c: &Corpus, r: Rank, min: usize, n: usize) -> (out: Vec<u32>)
    requires
        c.symbols@.len() <= u32::MAX,
    ensures
        out@ == first_n(ranked(*c, r, min as nat, c.symbols@.len()), n as nat),
{
    let len = c.symbols.len();
    let mut out: Vec<u32> = Vec::new();
    let mut i: usize = 0;
    while i < len
        invariant
            len == c.symbols@.len(),
            len <= u32::MAX,
            i <= len,
            out@ == first_n(ranked(*c, r, min as nat, i as nat), n as nat),
        decreases len - i,
    {
        let idx = i as u32;
        let x = count_at(c, r, idx);
        let ghost prev = ranked(*c, r, min as nat, i as nat);
        if x > min {
            let mut p: usize = 0;
            while p < out.len() && count_at(c, r, out[p]) >= x
                invariant
                    p <= out@.len(),
                    forall|j: int| 0 <= j < p ==> rank_count(*c, r, #[trigger] out@[j] as int) >= x,
                decreases out@.len() - p,
            {
                p = p + 1;
            }
            proof {
                lemma_slot_for_at(*c, r, out@, x as nat, p as int);
                lemma_slot_for_prefix(*c, r, prev, x as nat, n as nat);
                lemma_slot_for_bound(*c, r, prev, x as nat);
                lemma_first_n_insert(prev, slot_for(*c, r, prev, x as nat) as int, p as int, idx, n as nat);
                assert(ranked(*c, r, min as nat, (i + 1) as nat) == prev.insert(
                    slot_for(*c, r, prev, x as nat) as int,
                    idx,
                ));
            }
            if p < n {
                let ghost before = out@;
                out.insert(p, idx);
                if out.len() > n {
                    out.pop();
                }
                proof {
                    assert(out@ =~= first_n(before.insert(p as int, idx), n as nat));
                }
            }
        }
        i = i + 1;
    }
    out
}

} // verus!
