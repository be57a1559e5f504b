//! Putting things in order by a key, those with equal keys as they came.
use vstd::prelude::*;

verus! {

/// The place `a` comes before the place `b`: by its key, and by itself where the keys are equal.
pub open spec fn before(keys: Seq<i128>, a: usize, b: usize) -> bool {
    keys[a as int] < keys[b as int] || (keys[a as int] == keys[b as int] && a < b)
}

/// `order` lists every place of `keys` once, the lowest key first and equal keys as they stand.
pub open spec fn is_order(keys: Seq<i128>, order: Seq<usize>) -> bool {
    &&& order.len() == keys.len()
    &&& forall|i: int| 0 <= i < order.len() ==> (#[trigger] order[i]) < keys.len()
    &&& forall|v: usize| v < keys.len() ==> #[trigger] order.contains(v)
    &&& forall|i: int, j: int|
        0 <= i < j < order.len() ==> before(keys, #[trigger] order[i], #[trigger] order[j])
}

/// The places of `keys` in order.
pub open spec fn order_of(keys: Seq<i128>) -> Seq<usize> {
    choose|order: Seq<usize>| is_order(keys, order)
}

/// There is one order.
pub proof fn lemma_one_order(keys: Seq<i128>, a: Seq<usize>, b: Seq<usize>)
    requires
        is_order(keys, a),
        is_order(keys, b),
    ensures
        a == b,
{
    lemma_same_start(keys, a, b, keys.len() as int);
}

proof fn lemma_same_start(keys: Seq<i128>, a: Seq<usize>, b: Seq<usize>, n: int)
    requires
        is_order(keys, a),
        is_order(keys, b),
        0 <= n <= keys.len(),
    ensures
        forall|i: int| 0 <= i < n ==> a[i] == b[i],
    decreases n,
{
    if n > 0 {
        let k = n - 1;
        lemma_same_start(keys, a, b, k);
        assert(b.contains(a[k]));
        let p = choose|p: int| 0 <= p < b.len() && b[p] == a[k];
        assert(a.contains(b[k]));
        let q = choose|q: int| 0 <= q < a.len() && a[q] == b[k];
        if p < k {
            assert(a[p] == b[p]);
            assert(before(keys, a[p], a[k]));
        }
        if q < k {
            assert(a[q] == b[q]);
            assert(before(keys, b[q], b[k]));
        }
        if k < p {
            assert(before(keys, b[k], b[p]));
        }
        if k < q {
            assert(before(keys, a[k], a[q]));
        }
    }
}

/// There is an order.
pub proof fn lemma_an_order(keys: Seq<i128>) -> (order: Seq<usize>)
    requires
        keys.len() <= usize::MAX,
    ensures
        is_order(keys, order),
        order_of(keys) == order,
    decreases keys.len(),
{
    let order = if keys.len() == 0 {
        Seq::empty()
    } else {
        let n = (keys.len() - 1) as usize;
        let init = keys.drop_last();
        let was = lemma_an_order(init);
        let p = lemma_place(init, was, keys.last(), was.len() as int);
        let now = was.insert(p, n);
        assert forall|v: usize| v < keys.len() implies #[trigger] now.contains(v) by {
            if v == n {
                assert(now[p] == n);
            } else {
                assert(was.contains(v));
                let k = choose|k: int| 0 <= k < was.len() && was[k] == v;
                assert(now[if k < p {
                    k
                } else {
                    k + 1
                }] == v);
            }
        }
        assert forall|i: int| 0 <= i < now.len() implies (#[trigger] now[i]) < keys.len() by {
            assert(now[i] == if i < p {
                was[i]
            } else if i == p {
                n
            } else {
                was[i - 1]
            });
        }
        assert forall|i: int, j: int| 0 <= i < j < now.len() implies before(
            keys,
            #[trigger] now[i],
            #[trigger] now[j],
        ) by {
            let a = if i < p {
                i
            } else {
                i - 1
            };
            let b = if j < p {
                j
            } else {
                j - 1
            };
            if i != p {
                assert(now[i] == was[a]);
                assert(init[was[a] as int] == keys[was[a] as int]);
            }
            if j != p {
                assert(now[j] == was[b]);
                assert(init[was[b] as int] == keys[was[b] as int]);
            }
            if i != p && j != p {
                assert(before(init, was[a], was[b]));
            }
        }
        assert(is_order(keys, now));
        now
    };
    assert(is_order(keys, order));
    lemma_one_order(keys, order, order_of(keys));
    order
}

/// Where a new key goes: behind every place whose key is not above it.
proof fn lemma_place(keys: Seq<i128>, order: Seq<usize>, key: i128, n: int) -> (p: int)
    requires
        is_order(keys, order),
        0 <= n <= order.len(),
        forall|i: int| n <= i < order.len() ==> keys[#[trigger] order[i] as int] > key,
    ensures
        0 <= p <= n,
        forall|i: int| 0 <= i < p ==> keys[#[trigger] order[i] as int] <= key,
        forall|i: int| p <= i < order.len() ==> keys[#[trigger] order[i] as int] > key,
    decreases n,
{
    if n > 0 && keys[order[n - 1] as int] > key {
        lemma_place(keys, order, key, n - 1)
    } else {
        assert forall|i: int| 0 <= i < n implies keys[#[trigger] order[i] as int] <= key by {
            if i < n - 1 {
                assert(before(keys, order[i], order[n - 1]));
            }
        }
        n
    }
}

/// Sorted values ascend, and each is one of the values.
pub proof fn lemma_sorted(keys: Seq<i128>)
    requires
        keys.len() <= usize::MAX,
    ensures
        sorted_of(keys).len() == keys.len(),
        forall|i: int, j: int|
            0 <= i <= j < keys.len() ==> sorted_of(keys)[i] <= sorted_of(keys)[j],
        forall|i: int| 0 <= i < keys.len() ==> keys.contains(#[trigger] sorted_of(keys)[i]),
{
    let order = lemma_an_order(keys);
    assert forall|i: int, j: int| 0 <= i <= j < keys.len() implies sorted_of(keys)[i] <= sorted_of(
        keys,
    )[j] by {
        if i < j {
            assert(before(keys, order[i], order[j]));
        }
    }
    assert forall|i: int| 0 <= i < keys.len() implies keys.contains(
        #[trigger] sorted_of(keys)[i],
    ) by {
        assert(sorted_of(keys)[i] == keys[order[i] as int]);
    }
}

/// The places of `keys` in order, the lowest key first and equal keys as they stand.
pub fn sorted_order(keys: &Vec<i128>) -> (r: Vec<usize>)
    ensures
        is_order(keys@, r@),
        r@ == order_of(keys@),
{
    let mut out: Vec<usize> = Vec::new();
    let mut n: usize = 0;
    while n < keys.len()
        invariant
            n <= keys.len(),
            out@.len() == n,
            forall|i: int| 0 <= i < out@.len() ==> (#[trigger] out@[i]) < n,
            forall|v: usize| v < n ==> #[trigger] out@.contains(v),
            forall|i: int, j: int|
                0 <= i < j < out@.len() ==> before(keys@, #[trigger] out@[i], #[trigger] out@[j]),
        decreases keys.len() - n,
    {
        let mut p: usize = n;
        while p > 0 && keys[out[p - 1]] > keys[n]
            invariant
                p <= n < keys.len(),
                out@.len() == n,
                forall|i: int| 0 <= i < out@.len() ==> (#[trigger] out@[i]) < n,
                forall|i: int| p <= i < n ==> keys@[#[trigger] out@[i] as int] > keys@[n as int],
            decreases p,
        {
            p -= 1;
        }
        let ghost was = out@;
        assert forall|i: int| 0 <= i < p implies keys@[#[trigger] was[i] as int]
            <= keys@[n as int] by {
            if i < p - 1 {
                assert(before(keys@, was[i], was[p - 1]));
            }
        }
        out.insert(p, n);
        proof {
            let now = out@;
            assert(now == was.insert(p as int, n));
            assert forall|i: int| 0 <= i < now.len() implies (#[trigger] now[i]) < n + 1 by {
                if i < p {
                    assert(now[i] == was[i]);
                } else if i > p {
                    assert(now[i] == was[i - 1]);
                }
            }
            assert forall|v: usize| v < n + 1 implies #[trigger] now.contains(v) by {
                if v == n {
                    assert(now[p as int] == n);
                } else {
                    assert(was.contains(v));
                    let k = choose|k: int| 0 <= k < was.len() && was[k] == v;
                    if k < p {
                        assert(now[k] == v);
                    } else {
                        assert(now[k + 1] == v);
                    }
                }
            }
            assert forall|i: int, j: int| 0 <= i < j < now.len() implies before(
                keys@,
                #[trigger] now[i],
                #[trigger] now[j],
            ) by {
                let a = if i < p {
                    was[i]
                } else {
                    was[i - 1]
                };
                let b = if j < p {
                    was[j]
                } else {
                    was[j - 1]
                };
                if i == p {
                    assert(now[j] == b);
                    assert(b == was[j - 1]);
                } else if j == p {
                    assert(now[i] == a);
                } else {
                    assert(now[i] == a && now[j] == b);
                }
            }
        }
        n += 1;
    }
    proof {
        lemma_one_order(keys@, out@, order_of(keys@));
    }
    out
}

/// The values `keys`, the lowest first.
pub open spec fn sorted_of(keys: Seq<i128>) -> Seq<i128> {
    order_of(keys).map_values(|p: usize| keys[p as int])
}

/// The values `keys`, the lowest first.
pub fn sorted_values(keys: &Vec<i128>) -> (r: Vec<i128>)
    ensures
        r@ == sorted_of(keys@),
        r@.len() == keys@.len(),
        forall|i: int, j: int| 0 <= i < j < r@.len() ==> r@[i] <= r@[j],
        forall|i: int| 0 <= i < r@.len() ==> keys@.contains(#[trigger] r@[i]),
{
    let order = sorted_order(keys);
    let mut r: Vec<i128> = Vec::new();
    let mut i: usize = 0;
    while i < order.len()
        invariant
            i <= order.len(),
            is_order(keys@, order@),
            r@ == order@.take(i as int).map_values(|p: usize| keys@[p as int]),
        decreases order.len() - i,
    {
        r.push(keys[order[i]]);
        assert(order@.take(i + 1) == order@.take(i as int).push(order@[i as int]));
        assert(r@ == order@.take(i + 1).map_values(|p: usize| keys@[p as int]));
        i += 1;
    }
    assert(order@.take(i as int) == order@);
    proof {
        assert forall|a: int, b: int| 0 <= a < b < r@.len() implies r@[a] <= r@[b] by {
            assert(before(keys@, order@[a], order@[b]));
        }
    }
    r
}

} // verus!
