//! The stable order of things by a number.

use vstd::prelude::*;

verus! {

/// Where a thing of number `x` goes in the order `o`: behind the last one whose number is not larger.
pub open spec fn slot(o: Seq<int>, keys: Seq<int>, x: int) -> int
    decreases o.len(),
{
    if o.len() == 0 {
        0
    } else if keys[o.last()] <= x {
        o.len() as int
    } else {
        slot(o.drop_last(), keys, x)
    }
}

/// The indices of `keys`, ordered by what they hold; equal ones stay in the order they had.
pub open spec fn stable_order(keys: Seq<int>) -> Seq<int>
    decreases keys.len(),
{
    if keys.len() == 0 {
        Seq::empty()
    } else {
        let o = stable_order(keys.drop_last());
        o.insert(slot(o, keys, keys.last()), keys.len() - 1)
    }
}

pub proof fn lemma_slot(o: Seq<int>, keys: Seq<int>, x: int)
    ensures
        0 <= slot(o, keys, x) <= o.len(),
        slot(o, keys, x) > 0 ==> keys[o[slot(o, keys, x) - 1]] <= x,
        forall|i: int| slot(o, keys, x) <= i < o.len() ==> keys[#[trigger] o[i]] > x,
    decreases o.len(),
{
    if o.len() > 0 && keys[o.last()] > x {
        lemma_slot(o.drop_last(), keys, x);
        let p = o.drop_last();
        assert forall|i: int| slot(o, keys, x) <= i < o.len() implies keys[#[trigger] o[i]] > x by {
            if i < p.len() {
                assert(p[i] == o[i]);
            }
        }
    }
}

/// `o` lists each index of `keys` once, by growing number, equal ones by growing index.
pub open spec fn is_order(o: Seq<int>, keys: Seq<int>) -> bool {
    &&& o.len() == keys.len()
    &&& forall|i: int| 0 <= i < o.len() ==> 0 <= #[trigger] o[i] < keys.len()
    &&& forall|i: int, j: int|
        0 <= i < j < o.len() ==> {
            ||| keys[#[trigger] o[i]] < keys[#[trigger] o[j]]
            ||| keys[o[i]] == keys[o[j]] && o[i] < o[j]
        }
}

/// The stable order lists each index once, by growing number, and keeps equal ones in place.
pub proof fn law_stable_order(keys: Seq<int>)
    ensures
        is_order(stable_order(keys), keys),
    decreases keys.len(),
{
    if keys.len() > 0 {
        let prev = keys.drop_last();
        law_stable_order(prev);
        let o = stable_order(prev);
        let x = keys.last();
        let n = keys.len() - 1;
        let k = slot(o, keys, x);
        lemma_slot(o, keys, x);
        let r = stable_order(keys);
        assert(r =~= o.insert(k, n));
        assert forall|i: int| 0 <= i < o.len() implies keys[#[trigger] o[i]] == prev[o[i]] && 0
            <= o[i] < n by {}
        assert forall|i: int| 0 <= i < r.len() implies 0 <= #[trigger] r[i] < keys.len() by {
            if i < k {
                assert(r[i] == o[i]);
            } else if i > k {
                assert(r[i] == o[i - 1]);
            }
        }
        assert forall|i: int, j: int| 0 <= i < j < r.len() implies {
            ||| keys[#[trigger] r[i]] < keys[#[trigger] r[j]]
            ||| keys[r[i]] == keys[r[j]] && r[i] < r[j]
        } by {
            if j < k {
                assert(r[i] == o[i] && r[j] == o[j]);
            } else if j == k {
                assert(r[i] == o[i]);
                if i < k - 1 {
                    assert(keys[o[i]] <= keys[o[k - 1]]);
                }
            } else if i < k {
                assert(r[i] == o[i] && r[j] == o[j - 1]);
            } else if i == k {
                assert(r[j] == o[j - 1]);
            } else {
                assert(r[i] == o[i - 1] && r[j] == o[j - 1]);
            }
        }
    }
}

/// Every index is in the stable order.
pub proof fn law_order_covers(keys: Seq<int>)
    ensures
        forall|x: int| 0 <= x < keys.len() ==> #[trigger] stable_order(keys).contains(x),
{
    law_stable_order(keys);
    lemma_order_covers(stable_order(keys), keys);
}

/// Only one list is such an order.
pub proof fn law_order_is_unique(a: Seq<int>, b: Seq<int>, keys: Seq<int>)
    requires
        is_order(a, keys),
        is_order(b, keys),
    ensures
        a == b,
{
    lemma_order_covers(a, keys);
    lemma_order_covers(b, keys);
    lemma_orders_agree(a, b, keys, a.len() as int);
    assert(a.take(a.len() as int) =~= a);
    assert(b.take(a.len() as int) =~= b);
}

proof fn lemma_order_covers(o: Seq<int>, keys: Seq<int>)
    requires
        is_order(o, keys),
    ensures
        forall|x: int| 0 <= x < keys.len() ==> #[trigger] o.contains(x),
{
    let all = Set::new(|x: int| 0 <= x < keys.len());
    let used = o.to_set();
    vstd::set_lib::lemma_int_range(0, keys.len() as int);
    assert(all =~= vstd::set_lib::set_int_range(0, keys.len() as int));
    assert(o.no_duplicates()) by {
        assert forall|i: int, j: int| 0 <= i < o.len() && 0 <= j < o.len() && i != j implies o[i]
            != o[j] by {
            if i < j {
                assert(keys[o[i]] < keys[o[j]] || o[i] < o[j]);
            } else {
                assert(keys[o[j]] < keys[o[i]] || o[j] < o[i]);
            }
        }
    }
    o.unique_seq_to_set();
    assert(used.subset_of(all)) by {
        assert forall|x: int| used.contains(x) implies all.contains(x) by {
            let i = choose|i: int| 0 <= i < o.len() && o[i] == x;
            assert(0 <= o[i] < keys.len());
        }
    }
    vstd::set_lib::lemma_subset_equality(used, all);
    assert forall|x: int| 0 <= x < keys.len() implies #[trigger] o.contains(x) by {
        assert(all.contains(x));
        assert(used.contains(x));
    }
}

proof fn lemma_orders_agree(a: Seq<int>, b: Seq<int>, keys: Seq<int>, n: int)
    requires
        is_order(a, keys),
        is_order(b, keys),
        forall|x: int| 0 <= x < keys.len() ==> #[trigger] a.contains(x),
        forall|x: int| 0 <= x < keys.len() ==> #[trigger] b.contains(x),
        0 <= n <= a.len(),
    ensures
        a.take(n) == b.take(n),
    decreases n,
{
    if n > 0 {
        lemma_orders_agree(a, b, keys, n - 1);
        let x = a[n - 1];
        let y = b[n - 1];
        if x != y {
            assert(b.contains(x) && a.contains(y));
            let i = choose|i: int| 0 <= i < b.len() && b[i] == x;
            let j = choose|j: int| 0 <= j < a.len() && a[j] == y;
            if i < n - 1 {
                assert(a.take(n - 1)[i] == b.take(n - 1)[i]);
                assert(a[i] == x);
                assert(keys[a[i]] < keys[a[n - 1]] || a[i] < a[n - 1]);
            }
            if j < n - 1 {
                assert(a.take(n - 1)[j] == b.take(n - 1)[j]);
                assert(b[j] == y);
                assert(keys[b[j]] < keys[b[n - 1]] || b[j] < b[n - 1]);
            }
            assert(n - 1 < i && n - 1 < j);
            assert(keys[b[n - 1]] < keys[b[i]] || (keys[b[n - 1]] == keys[b[i]] && b[n - 1] < b[i]));
            assert(keys[a[n - 1]] < keys[a[j]] || (keys[a[n - 1]] == keys[a[j]] && a[n - 1] < a[j]));
        }
        assert(a.take(n) =~= a.take(n - 1).push(x));
        assert(b.take(n) =~= b.take(n - 1).push(y));
    } else {
        assert(a.take(0) =~= b.take(0));
    }
}

pub open spec fn ints(keys: Seq<i128>) -> Seq<int> {
    keys.map_values(|k: i128| k as int)
}

pub open spec fn indices(o: Seq<usize>) -> Seq<int> {
    o.map_values(|i: usize| i as int)
}

/// The indices of `keys`, ordered by what they hold; equal ones stay in the order they had.
pub fn stable_sort(keys: &Vec<i128>) -> (r: Vec<usize>)
    ensures
        indices(r@) == stable_order(ints(keys@)),
        is_order(indices(r@), ints(keys@)),
        r@.len() == keys@.len(),
{
    let ghost kk = ints(keys@);
    let mut out: Vec<usize> = Vec::new();
    assert(kk.take(0) =~= Seq::empty());
    assert(indices(out@) =~= Seq::empty());
    for n in 0..keys.len()
        invariant
            kk == ints(keys@),
            out@.len() == n,
            indices(out@) == stable_order(kk.take(n as int)),
            forall|i: int| 0 <= i < n ==> (#[trigger] out@[i]) < n,
    {
        let x: i128 = keys[n];
        let ghost o = indices(out@);
        let ghost kn = kk.take(n + 1);
        proof {
            assert(kn.drop_last() =~= kk.take(n as int));
            assert(kn.last() == x);
            assert(o.take(n as int) =~= o);
        }
        let mut k: usize = n;
        while k > 0 && keys[out[k - 1]] > x
            invariant
                k <= n,
                n < keys@.len(),
                out@.len() == n,
                o == indices(out@),
                kk == ints(keys@),
                kn == kk.take(n + 1),
                forall|i: int| 0 <= i < n ==> (#[trigger] out@[i]) < n,
                slot(o, kn, x as int) == slot(o.take(k as int), kn, x as int),
            decreases k,
        {
            proof {
                let t = o.take(k as int);
                assert(t.last() == out@[k - 1]);
                assert(kn[t.last()] == keys@[out@[k - 1] as int]);
                assert(t.drop_last() =~= o.take(k - 1));
            }
            k -= 1;
        }
        proof {
            let t = o.take(k as int);
            if k > 0 {
                assert(t.last() == out@[k - 1]);
                assert(kn[t.last()] == keys@[out@[k - 1] as int]);
            }
            assert(slot(t, kn, x as int) == k);
        }
        out.insert(k, n);
        assert(indices(out@) =~= o.insert(k as int, n as int));
    }
    proof {
        assert(kk.take(kk.len() as int) =~= kk);
        law_stable_order(kk);
    }
    out
}

} // verus!
