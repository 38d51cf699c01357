//! Ranking by score: the best entries first, earlier entries first among
//! equal scores (the order a stable sort by descending score gives), cut
//! to a number of entries.

use vstd::prelude::*;

verus! {

/// Entry `a` comes before entry `b`: a higher score, or the same score and
/// an earlier position.
pub open spec fn precedes(s: Seq<nat>, a: int, b: int) -> bool {
    s[a] > s[b] || (s[a] == s[b] && a < b)
}

/// `r` lists the best entries by score `s` among those scoring at least
/// `min`, at most `k` of them: in order, and none left out that would come
/// before one listed or that fits within `k`.
pub open spec fn is_ranking(s: Seq<nat>, min: nat, r: Seq<int>, k: nat) -> bool {
    &&& r.len() <= k
    &&& forall|j: int| 0 <= j < r.len() ==> 0 <= #[trigger] r[j] < s.len() && s[r[j]] >= min
    &&& forall|a: int, b: int| 0 <= a < b < r.len() ==> precedes(s, #[trigger] r[a], #[trigger] r[b])
    &&& forall|i: int|
        0 <= i < s.len() && s[i] >= min && !r.contains(i) ==> r.len() == k && forall|j: int|
            0 <= j < r.len() ==> precedes(s, #[trigger] r[j], i)
}

/// The scores as natural numbers.
pub open spec fn nat_scores(v: Seq<u64>) -> Seq<nat> {
    Seq::new(v.len(), |i: int| v[i] as nat)
}

/// The positions as integers.
pub open spec fn positions(v: Seq<usize>) -> Seq<int> {
    Seq::new(v.len(), |i: int| v[i] as int)
}

/// The positions of the best entries scoring at least `min`, at most `k`
/// of them (see `is_ranking`).
pub fn top_ranked(scores: &Vec<u64>, min: u64, k: usize) -> (r: Vec<usize>)
    ensures
        is_ranking(nat_scores(scores@), min as nat, positions(r@), k as nat),
{
    let ghost sc = nat_scores(scores@);
    let n = scores.len();
    let mut all: Vec<usize> = Vec::new();
    let mut i: usize = 0;
    while i < n
        invariant
            i <= n,
            n == scores@.len(),
            sc == nat_scores(scores@),
            forall|j: int| 0 <= j < all@.len() ==> 0 <= #[trigger] all@[j] < i && sc[all@[j] as int] >= min,
            forall|a: int, b: int|
                0 <= a < b < all@.len() ==> precedes(sc, #[trigger] all@[a] as int, #[trigger] all@[b] as int),
            forall|x: int| 0 <= x < i && sc[x] >= min ==> exists|j: int| 0 <= j < all@.len() && all@[j] == x,
        decreases n - i,
    {
        if scores[i] >= min {
            let si = scores[i];
            let mut p: usize = 0;
            while p < all.len() && scores[all[p]] >= si
                invariant
                    p <= all@.len(),
                    i < n,
                    n == scores@.len(),
                    forall|j: int| 0 <= j < all@.len() ==> 0 <= #[trigger] all@[j] < i,
                    forall|j: int| 0 <= j < p ==> scores@[#[trigger] all@[j] as int] >= si,
                decreases all.len() - p,
            {
                p += 1;
            }
            let ghost a0 = all@;
            proof {
                assert forall|j: int| p <= j < a0.len() implies sc[#[trigger] a0[j] as int] < sc[i as int] by {
                    if p < a0.len() {
                        assert(scores@[a0[p as int] as int] < si);
                        if j > p {
                            assert(precedes(sc, a0[p as int] as int, a0[j] as int));
                        }
                    }
                }
            }
            all.insert(p, i);
            proof {
                assert forall|a: int, b: int| 0 <= a < b < all@.len() implies precedes(
                    sc,
                    #[trigger] all@[a] as int,
                    #[trigger] all@[b] as int,
                ) by {
                    if b < p {
                        assert(all@[a] == a0[a] && all@[b] == a0[b]);
                    } else if b == p {
                        assert(all@[a] == a0[a]);
                        assert(scores@[a0[a] as int] >= si);
                    } else if a == p {
                        assert(all@[b] == a0[b - 1]);
                    } else if a < p {
                        assert(all@[a] == a0[a] && all@[b] == a0[b - 1]);
                    } else {
                        assert(all@[a] == a0[a - 1] && all@[b] == a0[b - 1]);
                    }
                }
                assert forall|x: int| 0 <= x < i + 1 && sc[x] >= min implies exists|j: int|
                    0 <= j < all@.len() && all@[j] == x by {
                    if x == i {
                        assert(all@[p as int] == x);
                    } else {
                        let j = choose|j: int| 0 <= j < a0.len() && a0[j] == x;
                        if j < p {
                            assert(all@[j] == x);
                        } else {
                            assert(all@[j + 1] == x);
                        }
                    }
                }
                assert forall|j: int| 0 <= j < all@.len() implies 0 <= #[trigger] all@[j] < i + 1
                    && sc[all@[j] as int] >= min by {
                    if j < p {
                        assert(all@[j] == a0[j]);
                    } else if j > p {
                        assert(all@[j] == a0[j - 1]);
                    }
                }
            }
        }
        i += 1;
    }
    let cut = if k < all.len() {
        k
    } else {
        all.len()
    };
    let mut out: Vec<usize> = Vec::new();
    let mut j: usize = 0;
    while j < cut
        invariant
            j <= cut <= all@.len(),
            out@.len() == j,
            forall|t: int| 0 <= t < j ==> out@[t] == all@[t],
        decreases cut - j,
    {
        out.push(all[j]);
        j += 1;
    }
    let ghost ix = positions(out@);
    proof {
        assert forall|x: int| 0 <= x < sc.len() && sc[x] >= min && !ix.contains(x) implies ix.len()
            == k && forall|t: int| 0 <= t < ix.len() ==> precedes(sc, #[trigger] ix[t], x) by {
            let jx = choose|jx: int| 0 <= jx < all@.len() && all@[jx] == x;
            if jx < cut {
                assert(ix[jx] == x);
            }
            assert forall|t: int| 0 <= t < ix.len() implies precedes(sc, #[trigger] ix[t], x) by {
                assert(ix[t] == all@[t] as int);
            }
        }
        assert forall|a: int, b: int| 0 <= a < b < ix.len() implies precedes(sc, #[trigger] ix[a], #[trigger] ix[b]) by {
            assert(ix[a] == all@[a] as int && ix[b] == all@[b] as int);
        }
        assert forall|t: int| 0 <= t < ix.len() implies 0 <= #[trigger] ix[t] < sc.len() && sc[ix[t]] >= min by {
            assert(ix[t] == all@[t] as int);
        }
    }
    out
}

} // verus!
