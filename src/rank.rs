//! Ranking of scored candidates: the best few in rank order, and the single best.
use vstd::prelude::*;

verus! {

/// Entry `i` ranks before entry `j`: a higher score first, and on equal scores
/// the earlier position first.
pub open spec fn ranks_before(s: Seq<u64>, i: int, j: int) -> bool {
    s[i] > s[j] || (s[i] == s[j] && i < j)
}

pub open spec fn min_nat(a: nat, b: nat) -> nat {
    if a <= b {
        a
    } else {
        b
    }
}

/// `r` holds the `k` best-ranked positions among the first `m` entries of `s`
/// (all of them when there are fewer), best first.
pub open spec fn top_among(s: Seq<u64>, m: int, r: Seq<usize>, k: nat) -> bool {
    &&& 0 <= m <= s.len()
    &&& r.len() == min_nat(k, m as nat)
    &&& forall|a: int| 0 <= a < r.len() ==> #[trigger] r[a] < m
    &&& forall|a: int, b: int|
        0 <= a < b < r.len() ==> ranks_before(s, #[trigger] r[a] as int, #[trigger] r[b] as int)
    &&& forall|x: int, a: int|
        0 <= x < m && !r.contains(x as usize) && 0 <= a < r.len() ==> #[trigger] ranks_before(
            s,
            r[a] as int,
            x,
        )
    &&& r.len() < k ==> forall|x: int| 0 <= x < m ==> #[trigger] r.contains(x as usize)
}

/// `r` holds the `k` best-ranked positions of `s`, best first: what a stable
/// sort by descending score followed by taking the first `k` gives.
pub open spec fn is_top(s: Seq<u64>, r: Seq<usize>, k: nat) -> bool {
    top_among(s, s.len() as int, r, k)
}

/// `b` is the position of the first maximal score of `s`.
pub open spec fn is_first_max(s: Seq<u64>, b: int) -> bool {
    &&& 0 <= b < s.len()
    &&& forall|j: int| 0 <= j < s.len() ==> #[trigger] s[j] <= s[b]
    &&& forall|j: int| 0 <= j < b ==> #[trigger] s[j] < s[b]
}

/// The positions of the `k` best-ranked scores, best first; ties keep their order.
pub fn top_ranked(scores: &Vec<u64>, k: usize) -> (r: Vec<usize>)
    ensures
        is_top(scores@, r@, k as nat),
{
    let n = scores.len();
    let mut top: Vec<usize> = Vec::new();
    let mut i: usize = 0;
    while i < n
        invariant
            n == scores@.len(),
            i <= n,
            top_among(scores@, i as int, top@, k as nat),
        decreases n - i,
    {
        let s = Ghost(scores@);
        let si = scores[i];
        let mut p: usize = 0;
        while p < top.len() && scores[top[p]] >= si
            invariant
                n == scores@.len(),
                i < n,
                top_among(scores@, i as int, top@, k as nat),
                p <= top.len(),
                s@ == scores@,
                si == s@[i as int],
                forall|a: int| 0 <= a < p ==> s@[#[trigger] top@[a] as int] >= si,
            decreases top.len() - p,
        {
            p = p + 1;
        }
        proof {
            assert forall|a: int| p <= a < top@.len() implies s@[#[trigger] top@[a] as int] < si by {
                if a > p {
                    assert(ranks_before(s@, top@[p as int] as int, top@[a] as int));
                }
            }
        }
        let ghost old_top = top@;
        if p < k {
            top.insert(p, i);
            if top.len() > k {
                top.pop();
            }
            proof {
                let t = top@;
                assert forall|a: int| 0 <= a < t.len() implies #[trigger] t[a] < i + 1 by {
                    if a < p {
                        assert(t[a] == old_top[a]);
                    } else if a > p {
                        assert(t[a] == old_top[a - 1]);
                    }
                }
                assert forall|a: int, b: int|
                    0 <= a < b < t.len() implies ranks_before(
                    s@,
                    #[trigger] t[a] as int,
                    #[trigger] t[b] as int,
                ) by {
                    if b < p {
                        assert(t[a] == old_top[a] && t[b] == old_top[b]);
                    } else if b == p {
                        assert(t[a] == old_top[a]);
                    } else if a < p {
                        assert(t[a] == old_top[a] && t[b] == old_top[b - 1]);
                    } else if a == p {
                        assert(t[b] == old_top[b - 1]);
                    } else {
                        assert(t[a] == old_top[a - 1] && t[b] == old_top[b - 1]);
                    }
                }
                assert forall|x: int, a: int|
                    0 <= x < i + 1 && !t.contains(x as usize) && 0 <= a < t.len() implies #[trigger] ranks_before(
                    s@,
                    t[a] as int,
                    x,
                ) by {
                    assert(x != i) by {
                        assert(t[p as int] == i);
                    }
                    if old_top.contains(x as usize) {
                        // x was the last entry and was dropped
                        let c = choose|c: int| 0 <= c < old_top.len() && old_top[c] == x as usize;
                        if c < p {
                            assert(t[c] == old_top[c]);
                        } else if c + 1 < t.len() {
                            assert(t[c + 1] == old_top[c]);
                        }
                        assert(c == old_top.len() - 1);
                        if a < p {
                            assert(t[a] == old_top[a]);
                        } else if a > p {
                            assert(t[a] == old_top[a - 1]);
                        }
                    } else {
                        assert(old_top.len() == k);
                        assert(ranks_before(s@, old_top[p as int] as int, x));
                        if a < p {
                            assert(t[a] == old_top[a]);
                        } else if a > p {
                            assert(t[a] == old_top[a - 1]);
                        }
                    }
                }
                assert(t.len() == min_nat(k as nat, (i + 1) as nat));
                if t.len() < k {
                    assert forall|x: int| 0 <= x < i + 1 implies #[trigger] t.contains(x as usize) by {
                        if x == i {
                            assert(t[p as int] == i);
                        } else {
                            assert(old_top.contains(x as usize));
                            let c = choose|c: int| 0 <= c < old_top.len() && old_top[c] == x as usize;
                            if c < p {
                                assert(t[c] == old_top[c]);
                            } else {
                                assert(t[c + 1] == old_top[c]);
                            }
                        }
                    }
                }
            }
        } else {
            proof {
                let t = top@;
                assert(t.len() == k);
                assert forall|x: int, a: int|
                    0 <= x < i + 1 && !t.contains(x as usize) && 0 <= a < t.len() implies #[trigger] ranks_before(
                    s@,
                    t[a] as int,
                    x,
                ) by {
                    if x == i {
                        assert(s@[t[a] as int] >= si);
                        assert(t[a] < i);
                    }
                }
            }
        }
        i = i + 1;
    }
    top
}

/// The position of the first maximal score, or `None` when there are no scores.
pub fn first_max(scores: &Vec<u64>) -> (r: Option<usize>)
    ensures
        r is None <==> scores@.len() == 0,
        r matches Some(b) ==> is_first_max(scores@, b as int),
{
    if scores.len() == 0 {
        return None;
    }
    let mut best: usize = 0;
    let mut i: usize = 1;
    while i < scores.len()
        invariant
            1 <= i <= scores@.len(),
            best < i,
            forall|j: int| 0 <= j < i ==> #[trigger] scores@[j] <= scores@[best as int],
            forall|j: int| 0 <= j < best ==> #[trigger] scores@[j] < scores@[best as int],
        decreases scores@.len() - i,
    {
        if scores[i] > scores[best] {
            best = i;
        }
        i = i + 1;
    }
    Some(best)
}

} // verus!
