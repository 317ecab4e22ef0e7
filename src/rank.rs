//! Stable top-k ranking of candidates by an integer key.
use vstd::prelude::*;

verus! {

/// Candidate `i` ranks before candidate `j`: a lower key, or an equal key
/// and an earlier position.
pub open spec fn ranks_before(keys: Seq<u128>, i: int, j: int) -> bool {
    keys[i] < keys[j] || (keys[i] == keys[j] && i < j)
}

/// The smaller of `a` and `b`.
pub open spec fn min_len(a: int, b: int) -> int {
    if a < b {
        a
    } else {
        b
    }
}

/// `order` lists the `limit` best of the candidates `0..keys.len()` (all of
/// them if there are fewer), best first, where lower keys are better and equal
/// keys keep their positions' order.
pub open spec fn is_ranking(keys: Seq<u128>, limit: int, order: Seq<usize>) -> bool {
    &&& order.len() == min_len(limit, keys.len() as int)
    &&& forall|a: int| 0 <= a < order.len() ==> (order[a] as int) < keys.len()
    &&& forall|a: int, b: int|
        0 <= a < b < order.len() ==> ranks_before(keys, order[a] as int, order[b] as int)
    &&& forall|m: int, a: int|
        0 <= m < keys.len() && !order.contains(m as usize) && 0 <= a < order.len()
            ==> ranks_before(keys, order[a] as int, m)
}

/// A ranking is unique: two rankings of the same keys to the same limit agree.
pub proof fn lemma_ranking_unique(keys: Seq<u128>, limit: int, o1: Seq<usize>, o2: Seq<usize>)
    requires
        is_ranking(keys, limit, o1),
        is_ranking(keys, limit, o2),
    ensures
        o1 == o2,
{
    lemma_agree_upto(keys, limit, o1, o2, o1.len() as int);
    assert(o1 =~= o2);
}

proof fn lemma_agree_upto(keys: Seq<u128>, limit: int, o1: Seq<usize>, o2: Seq<usize>, a: int)
    requires
        is_ranking(keys, limit, o1),
        is_ranking(keys, limit, o2),
        0 <= a <= o1.len(),
    ensures
        forall|b: int| 0 <= b < a ==> o1[b] == o2[b],
    decreases a,
{
    if a > 0 {
        lemma_agree_upto(keys, limit, o1, o2, a - 1);
        lemma_agree_at(keys, limit, o1, o2, a - 1);
        lemma_agree_at(keys, limit, o2, o1, a - 1);
    }
}

/// Where two rankings agree before position `a`, the one whose entry at `a`
/// ranks first cannot differ from the other there.
proof fn lemma_agree_at(keys: Seq<u128>, limit: int, o1: Seq<usize>, o2: Seq<usize>, a: int)
    requires
        is_ranking(keys, limit, o1),
        is_ranking(keys, limit, o2),
        0 <= a < o1.len(),
        forall|b: int| 0 <= b < a ==> o1[b] == o2[b],
    ensures
        ranks_before(keys, o1[a] as int, o2[a] as int) ==> o1[a] == o2[a],
{
    let x = o1[a];
    if ranks_before(keys, x as int, o2[a] as int) && o2.contains(x) {
        let b = choose|b: int| 0 <= b < o2.len() && o2[b] == x;
        if b < a {
            assert(o1[b] == x);
            assert(ranks_before(keys, o1[b] as int, o1[a] as int));
        } else if b > a {
            assert(ranks_before(keys, o2[a] as int, o2[b] as int));
        }
    } else if ranks_before(keys, x as int, o2[a] as int) {
        assert(ranks_before(keys, o2[a] as int, x as int));
    }
}

/// The rank invariant over the candidates `0..upto`.
spec fn ranks_prefix(keys: Seq<u128>, limit: int, upto: int, order: Seq<usize>) -> bool {
    &&& order.len() <= limit
    &&& order.len() == min_len(limit, upto)
    &&& forall|a: int| 0 <= a < order.len() ==> (order[a] as int) < upto
    &&& forall|a: int, b: int|
        0 <= a < b < order.len() ==> ranks_before(keys, order[a] as int, order[b] as int)
    &&& forall|m: int, a: int|
        0 <= m < upto && !order.contains(m as usize) && 0 <= a < order.len()
            ==> ranks_before(keys, order[a] as int, m)
    &&& order.len() < limit ==> forall|m: int| 0 <= m < upto ==> #[trigger] order.contains(m as usize)
}

/// Ranks the candidates by key, lowest first and stable among equal keys,
/// and keeps the first `limit`.
pub fn rank_by_key(keys: &Vec<u128>, limit: usize) -> (order: Vec<usize>)
    ensures
        is_ranking(keys@, limit as int, order@),
{
    let n = keys.len();
    let mut order: Vec<usize> = Vec::new();
    let mut i: usize = 0;
    while i < n
        invariant
            n == keys@.len(),
            i <= n,
            ranks_prefix(keys@, limit as int, i as int, order@),
        decreases n - i,
    {
        let len = order.len();
        if len == limit && (len == 0 || keys[order[len - 1]] <= keys[i]) {
            // `i` ranks after every kept candidate.
            proof {
                assert forall|m: int, a: int|
                    0 <= m < i + 1 && !order@.contains(m as usize) && 0 <= a < order@.len()
                        implies ranks_before(keys@, order@[a] as int, m) by {
                    if m == i {
                        assert(ranks_before(keys@, order@[a] as int, order@[len - 1] as int)
                            || a == len - 1);
                    }
                }
            }
        } else {
            let mut p: usize = 0;
            while p < len && keys[order[p]] <= keys[i]
                invariant
                    len == order@.len(),
                    p <= len,
                    n == keys@.len(),
                    i < n,
                    forall|a: int| 0 <= a < len ==> (order@[a] as int) < i,
                    forall|a: int| 0 <= a < p ==> keys@[order@[a] as int] <= keys@[i as int],
                decreases len - p,
            {
                p = p + 1;
            }
            let ghost old_order = order@;
            order.insert(p, i);
            proof {
                let o = order@;
                assert(o == old_order.insert(p as int, i));
                assert forall|a: int, b: int|
                    0 <= a < b < o.len() implies ranks_before(keys@, o[a] as int, o[b] as int) by {
                    if b < p {
                        assert(o[a] == old_order[a] && o[b] == old_order[b]);
                    } else if b == p {
                        assert(o[a] == old_order[a]);
                    } else if a < p {
                        assert(o[a] == old_order[a] && o[b] == old_order[b - 1]);
                        assert(ranks_before(keys@, old_order[a] as int, old_order[b - 1] as int));
                    } else if a == p {
                        assert(o[b] == old_order[b - 1]);
                        if b - 1 > p {
                            assert(ranks_before(keys@, old_order[p as int] as int, old_order[b - 1] as int));
                        }
                    } else {
                        assert(o[a] == old_order[a - 1] && o[b] == old_order[b - 1]);
                    }
                }
                assert forall|m: int, a: int|
                    0 <= m < i + 1 && !o.contains(m as usize) && 0 <= a < o.len()
                        implies ranks_before(keys@, o[a] as int, m) by {
                    assert(m != i) by {
                        assert(o[p as int] == i);
                    }
                    assert(!old_order.contains(m as usize)) by {
                        if old_order.contains(m as usize) {
                            let k = choose|k: int| 0 <= k < old_order.len() && old_order[k] == m as usize;
                            if k < p {
                                assert(o[k] == old_order[k]);
                            } else {
                                assert(o[k + 1] == old_order[k]);
                            }
                        }
                    }
                    // The order was full, so it had a last element that `i` ranks before.
                    assert(old_order.len() == limit);
                    assert(ranks_before(keys@, old_order[len - 1] as int, m));
                    if a < p {
                        assert(o[a] == old_order[a]);
                    } else if a == p {
                        assert(ranks_before(keys@, i as int, old_order[len - 1] as int)) by {
                            if p < len - 1 {
                                assert(ranks_before(keys@, old_order[p as int] as int, old_order[len - 1] as int));
                            }
                        }
                    } else {
                        assert(o[a] == old_order[a - 1]);
                        if a - 1 < len - 1 {
                            assert(ranks_before(keys@, old_order[a - 1] as int, old_order[len - 1] as int));
                        }
                    }
                }
                if old_order.len() < limit {
                    assert forall|m: int| 0 <= m < i + 1 implies #[trigger] o.contains(m as usize) by {
                        if m == i {
                            assert(o[p as int] == i);
                        } else {
                            assert(old_order.contains(m as usize));
                            let k = choose|k: int| 0 <= k < old_order.len() && old_order[k] == m as usize;
                            if k < p {
                                assert(o[k] == old_order[k]);
                            } else {
                                assert(o[k + 1] == old_order[k]);
                            }
                        }
                    }
                }
            }
            if order.len() > limit {
                let ghost full = order@;
                order.pop();
                proof {
                    let o = order@;
                    assert(o == full.drop_last());
                    assert forall|m: int, a: int|
                        0 <= m < i + 1 && !o.contains(m as usize) && 0 <= a < o.len()
                            implies ranks_before(keys@, o[a] as int, m) by {
                        assert(o[a] == full[a]);
                        if full.contains(m as usize) {
                            let k = choose|k: int| 0 <= k < full.len() && full[k] == m as usize;
                            if k < o.len() {
                                assert(o[k] == full[k]);
                            }
                            assert(k == full.len() - 1);
                        }
                    }
                }
            }
        }
        i = i + 1;
    }
    order
}

} // verus!
