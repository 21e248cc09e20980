//! The order in which scored items come out of a search.
//!
//! A score is handed in as a key, a whole number that is larger where the
//! score is larger and 0 where the item does not match. Items with equal
//! keys stay in the order of their positions.

use vstd::prelude::*;

verus! {

/// The item at `p` comes out before the item at `q`: its key is larger,
/// or the keys are equal and it stands earlier.
pub open spec fn outranks(keys: Seq<u64>, p: int, q: int) -> bool {
    keys[p] > keys[q] || (keys[p] == keys[q] && p < q)
}

/// How many of the keys are not 0.
pub open spec fn positives(keys: Seq<u64>) -> nat
    decreases keys.len(),
{
    if keys.len() == 0 {
        0
    } else {
        positives(keys.drop_last()) + if keys.last() > 0 {
            1nat
        } else {
            0nat
        }
    }
}

/// `r` ranks the first `n` items: it lists positions of matching items
/// among them, best first, as many as there are up to `limit`, and every
/// matching item that it leaves out comes after all that it lists.
pub open spec fn ranks_first(keys: Seq<u64>, n: int, limit: nat, r: Seq<usize>) -> bool {
    &&& forall|a: int| 0 <= a < r.len() ==> (#[trigger] r[a]) < n && keys[r[a] as int] > 0
    &&& forall|a: int, b: int|
        0 <= a < b < r.len() ==> outranks(keys, #[trigger] r[a] as int, #[trigger] r[b] as int)
    &&& r.len() == if positives(keys.take(n)) <= limit {
        positives(keys.take(n))
    } else {
        limit
    }
    &&& forall|p: int, a: int|
        0 <= p < n && keys[p] > 0 && !r.contains(p as usize) && 0 <= a < r.len()
            ==> #[trigger] outranks(keys, r[a] as int, p)
}

/// `r` is the ranking of all items, cut off after `limit`.
pub open spec fn is_ranking(keys: Seq<u64>, limit: nat, r: Seq<usize>) -> bool {
    ranks_first(keys, keys.len() as int, limit, r)
}

/// Ranks the items by their keys: the positions of the items whose key is
/// not 0, the largest key first, items with the same key in the order of
/// their positions, and no more than `limit` of them.
pub fn rank(keys: &Vec<u64>, limit: usize) -> (r: Vec<usize>)
    ensures
        is_ranking(keys@, limit as nat, r@),
{
    let mut r: Vec<usize> = Vec::new();
    let mut i: usize = 0;
    assert(keys@.take(0) =~= Seq::<u64>::empty());
    while i < keys.len()
        invariant
            i <= keys.len(),
            ranks_first(keys@, i as int, limit as nat, r@),
        decreases keys.len() - i,
    {
        let key = keys[i];
        let ghost before = r@;
        proof {
            assert(keys@.take(i + 1).drop_last() =~= keys@.take(i as int));
            assert(keys@.take(i + 1).last() == key);
        }
        if key > 0 {
            let mut at: usize = 0;
            while at < r.len() && keys[r[at]] >= key
                invariant
                    at <= r.len(),
                    r@ == before,
                    i < keys.len(),
                    key == keys@[i as int],
                    forall|a: int| 0 <= a < r.len() ==> (#[trigger] r@[a]) < i,
                    forall|a: int| 0 <= a < at ==> keys@[(#[trigger] r@[a]) as int] >= key,
                decreases r.len() - at,
            {
                at += 1;
            }
            assert(!before.contains(i)) by {
                if before.contains(i) {
                    let a = choose|a: int| 0 <= a < before.len() && before[a] == i;
                    assert(before[a] < i);
                }
            }
            if at < limit {
                r.insert(at, i);
                let ghost grown = r@;
                assert(forall|a: int| 0 <= a < at ==> grown[a] == before[a]);
                assert(grown[at as int] == i);
                assert(forall|a: int| at < a < grown.len() ==> grown[a] == before[a - 1]);
                assert forall|a: int, b: int| 0 <= a < b < grown.len() implies outranks(
                    keys@,
                    #[trigger] grown[a] as int,
                    #[trigger] grown[b] as int,
                ) by {
                    if b == at {
                        assert(grown[a] == before[a]);
                    } else if a == at {
                        assert(grown[b] == before[b - 1]);
                        if at < before.len() {
                            assert(keys@[before[at as int] as int] < key);
                            if b - 1 > at {
                                assert(outranks(
                                    keys@,
                                    before[at as int] as int,
                                    before[b - 1] as int,
                                ));
                            }
                        }
                    } else {
                        let a0 = if a < at {
                            a
                        } else {
                            a - 1
                        };
                        let b0 = if b < at {
                            b
                        } else {
                            b - 1
                        };
                        assert(outranks(keys@, before[a0] as int, before[b0] as int));
                    }
                }
                if r.len() > limit {
                    let _ = r.pop();
                    let ghost q = before[before.len() - 1];
                    assert(r@ =~= grown.drop_last());
                    assert(grown[grown.len() - 1] == q);
                    assert forall|p: int, a: int|
                        0 <= p < i + 1 && keys@[p] > 0 && !r@.contains(p as usize) && 0 <= a
                            < r@.len() implies #[trigger] outranks(keys@, r@[a] as int, p) by {
                        if p == q {
                            assert(outranks(keys@, grown[a] as int, grown[grown.len() - 1] as int));
                        } else {
                            assert(p != i) by {
                                assert(r@[at as int] == i);
                            }
                            assert(!before.contains(p as usize)) by {
                                if before.contains(p as usize) {
                                    let c = choose|c: int|
                                        0 <= c < before.len() && before[c] == p as usize;
                                    let c1 = if c < at {
                                        c
                                    } else {
                                        c + 1
                                    };
                                    assert(grown[c1] == p as usize);
                                    assert(c1 < grown.len() - 1);
                                    assert(r@[c1] == p as usize);
                                }
                            }
                            // `p` was left out before, so the old last item outranks it.
                            assert(outranks(keys@, before[before.len() - 1] as int, p));
                            assert(outranks(keys@, grown[a] as int, grown[grown.len() - 1] as int));
                        }
                    }
                } else {
                    assert forall|p: int, a: int|
                        0 <= p < i + 1 && keys@[p] > 0 && !r@.contains(p as usize) && 0 <= a
                            < r@.len() implies #[trigger] outranks(keys@, r@[a] as int, p) by {
                        assert(p != i) by {
                            assert(r@[at as int] == i);
                        }
                        assert(!before.contains(p as usize)) by {
                            if before.contains(p as usize) {
                                let c = choose|c: int|
                                    0 <= c < before.len() && before[c] == p as usize;
                                let c1 = if c < at {
                                    c
                                } else {
                                    c + 1
                                };
                                assert(grown[c1] == p as usize);
                            }
                        }
                        // Nothing was left out while the list was short of the limit.
                        assert(before.len() < limit);
                        lemma_short_list_is_complete(keys@, i as int, limit as nat, before, p);
                    }
                }
            } else {
                assert(at == before.len() && before.len() == limit);
                assert forall|p: int, a: int|
                    0 <= p < i + 1 && keys@[p] > 0 && !r@.contains(p as usize) && 0 <= a
                        < r@.len() implies #[trigger] outranks(keys@, r@[a] as int, p) by {
                    if p == i {
                        assert(keys@[r@[a] as int] >= key);
                        assert(r@[a] < i);
                    }
                }
            }
        }
        i += 1;
    }
    assert(keys@.take(i as int) =~= keys@);
    r
}

/// A list that is shorter than the limit leaves no matching item out.
pub proof fn lemma_short_list_is_complete(
    keys: Seq<u64>,
    n: int,
    limit: nat,
    r: Seq<usize>,
    p: int,
)
    requires
        0 <= n <= keys.len() <= usize::MAX,
        ranks_first(keys, n, limit, r),
        r.len() < limit,
        0 <= p < n,
        keys[p] > 0,
    ensures
        r.contains(p as usize),
{
    lemma_listed_count(keys, n, r);
    if !r.contains(p as usize) {
        lemma_missing_one(keys, n, r, p);
    }
}

/// The positions that `r` lists are different matching items among the
/// first `n`, so there are at most as many as those.
pub proof fn lemma_listed_count(keys: Seq<u64>, n: int, r: Seq<usize>)
    requires
        0 <= n <= keys.len() <= usize::MAX,
        forall|a: int| 0 <= a < r.len() ==> (#[trigger] r[a]) < n && keys[r[a] as int] > 0,
        forall|a: int, b: int| 0 <= a < b < r.len() ==> (#[trigger] r[a]) != (#[trigger] r[b]),
    ensures
        r.len() <= positives(keys.take(n)),
    decreases n,
{
    if n == 0 {
        if r.len() > 0 {
            assert(r[0] < 0);
        }
    } else {
        let last = (n - 1) as usize;
        assert(keys.take(n).drop_last() =~= keys.take(n - 1));
        assert(keys.take(n).last() == keys[n - 1]);
        if r.contains(last) {
            let c = choose|c: int| 0 <= c < r.len() && r[c] == last;
            let rest = r.remove(c);
            assert forall|a: int| 0 <= a < rest.len() implies (#[trigger] rest[a]) < n - 1
                && keys[rest[a] as int] > 0 by {
                let a1 = if a < c {
                    a
                } else {
                    a + 1
                };
                assert(rest[a] == r[a1]);
                if a1 < c {
                    assert(r[a1] != r[c]);
                } else {
                    assert(r[c] != r[a1]);
                }
            }
            assert forall|a: int, b: int| 0 <= a < b < rest.len() implies (#[trigger] rest[a])
                != (#[trigger] rest[b]) by {
                let a1 = if a < c {
                    a
                } else {
                    a + 1
                };
                let b1 = if b < c {
                    b
                } else {
                    b + 1
                };
                assert(rest[a] == r[a1] && rest[b] == r[b1]);
                assert(r[a1] != r[b1]);
            }
            lemma_listed_count(keys, n - 1, rest);
        } else {
            assert forall|a: int| 0 <= a < r.len() implies (#[trigger] r[a]) < n - 1 && keys[r[a] as int]
                > 0 by {
                assert(r[a] != last);
                assert(r[a] < n);
            }
            lemma_listed_count(keys, n - 1, r);
        }
    }
}

/// Where a matching item among the first `n` is not listed, the list is
/// shorter than the number of matching items.
pub proof fn lemma_missing_one(keys: Seq<u64>, n: int, r: Seq<usize>, p: int)
    requires
        0 <= n <= keys.len() <= usize::MAX,
        forall|a: int| 0 <= a < r.len() ==> (#[trigger] r[a]) < n && keys[r[a] as int] > 0,
        forall|a: int, b: int| 0 <= a < b < r.len() ==> (#[trigger] r[a]) != (#[trigger] r[b]),
        0 <= p < n,
        keys[p] > 0,
        !r.contains(p as usize),
    ensures
        r.len() < positives(keys.take(n)),
{
    let longer = r.push(p as usize);
    assert forall|a: int, b: int| 0 <= a < b < longer.len() implies (#[trigger] longer[a]) != (
    #[trigger] longer[b]) by {
        if b == r.len() {
            assert(longer[a] == r[a]);
            assert(r.contains(r[a]));
        } else {
            assert(r[a] != r[b]);
        }
    }
    assert forall|a: int| 0 <= a < longer.len() implies (#[trigger] longer[a]) < n
        && keys[longer[a] as int] > 0 by {
        if a < r.len() {
            assert(longer[a] == r[a]);
        }
    }
    lemma_listed_count(keys, n, longer);
}

/// Where two rankings agree before the place `a` and differ at it, the
/// item of the first does not outrank the item of the second there.
proof fn lemma_not_ahead(keys: Seq<u64>, limit: nat, r1: Seq<usize>, r2: Seq<usize>, a: int)
    requires
        keys.len() <= usize::MAX,
        is_ranking(keys, limit, r1),
        is_ranking(keys, limit, r2),
        0 <= a < r1.len(),
        r1.len() == r2.len(),
        forall|b: int| 0 <= b < a ==> r1[b] == r2[b],
        r1[a] != r2[a],
    ensures
        !outranks(keys, r1[a] as int, r2[a] as int),
{
    let x = r1[a];
    let y = r2[a];
    if outranks(keys, x as int, y as int) {
        if r2.contains(x) {
            let c = choose|c: int| 0 <= c < r2.len() && r2[c] == x;
            if c < a {
                assert(r1[c] == r2[c]);
                assert(outranks(keys, r1[c] as int, r1[a] as int));
            } else {
                assert(outranks(keys, r2[a] as int, r2[c] as int));
            }
        } else {
            assert(outranks(keys, r2[a] as int, x as int));
        }
    }
}

proof fn lemma_agree(keys: Seq<u64>, limit: nat, r1: Seq<usize>, r2: Seq<usize>, n: int)
    requires
        keys.len() <= usize::MAX,
        is_ranking(keys, limit, r1),
        is_ranking(keys, limit, r2),
        r1.len() == r2.len(),
        0 <= n <= r1.len(),
    ensures
        forall|a: int| 0 <= a < n ==> r1[a] == r2[a],
    decreases n,
{
    if n > 0 {
        lemma_agree(keys, limit, r1, r2, n - 1);
        if r1[n - 1] != r2[n - 1] {
            lemma_not_ahead(keys, limit, r1, r2, n - 1);
            lemma_not_ahead(keys, limit, r2, r1, n - 1);
        }
    }
}

/// There is one ranking only: two lists that rank the same keys with the
/// same limit are the same list.
pub proof fn lemma_ranking_is_unique(keys: Seq<u64>, limit: nat, r1: Seq<usize>, r2: Seq<usize>)
    requires
        keys.len() <= usize::MAX,
        is_ranking(keys, limit, r1),
        is_ranking(keys, limit, r2),
    ensures
        r1 == r2,
{
    lemma_agree(keys, limit, r1, r2, r1.len() as int);
    assert(r1 =~= r2);
}

} // verus!
