//! The places of a list at which something holds.

use vstd::prelude::*;

verus! {

/// The places below `n` at which `f` holds, in order.
pub open spec fn picked(n: nat, f: spec_fn(int) -> bool) -> Seq<int>
    decreases n,
{
    if n == 0 {
        Seq::empty()
    } else if f(n - 1) {
        picked((n - 1) as nat, f).push(n - 1)
    } else {
        picked((n - 1) as nat, f)
    }
}

/// The picked places are those at which `f` holds, each once and in order.
pub proof fn law_picked(n: nat, f: spec_fn(int) -> bool)
    ensures
        picked(n, f).len() <= n,
        forall|k: int|
            0 <= k < picked(n, f).len() ==> 0 <= #[trigger] picked(n, f)[k] < n && f(picked(n, f)[k]),
        forall|j: int, k: int|
            0 <= j < k < picked(n, f).len() ==> #[trigger] picked(n, f)[j] < #[trigger] picked(n, f)[k],
        forall|i: int| 0 <= i < n && f(i) ==> #[trigger] picked(n, f).contains(i),
    decreases n,
{
    if n > 0 {
        let m = (n - 1) as nat;
        law_picked(m, f);
        let was = picked(m, f);
        let now = picked(n, f);
        assert forall|k: int| 0 <= k < now.len() implies 0 <= #[trigger] now[k] < n && f(now[k]) by {
            if k < was.len() {
                assert(now[k] == was[k]);
            }
        }
        assert forall|j: int, k: int| 0 <= j < k < now.len() implies #[trigger] now[j]
            < #[trigger] now[k] by {
            assert(now[j] == was[j]);
            if k < was.len() {
                assert(now[k] == was[k]);
            }
        }
        assert forall|i: int| 0 <= i < n && f(i) implies #[trigger] now.contains(i) by {
            if i < m {
                assert(was.contains(i));
                let k = choose|k: int| 0 <= k < was.len() && was[k] == i;
                assert(now[k] == i);
            } else {
                assert(now[now.len() - 1] == i);
            }
        }
    }
}

/// `at` lists the places before `n` at which `f` holds: each of them once, in order, and no others.
pub open spec fn lists(at: Seq<int>, n: int, f: spec_fn(int) -> bool) -> bool {
    &&& forall|k: int| 0 <= k < at.len() ==> 0 <= #[trigger] at[k] < n && f(at[k])
    &&& forall|j: int, k: int| 0 <= j < k < at.len() ==> #[trigger] at[j] < #[trigger] at[k]
    &&& forall|i: int| 0 <= i < n && #[trigger] f(i) ==> at.contains(i)
}

/// What is picked by a rule lists the places at which any rule of the same meaning holds.
pub proof fn law_picked_lists(n: nat, f: spec_fn(int) -> bool, g: spec_fn(int) -> bool)
    requires
        forall|i: int| 0 <= i < n ==> f(i) == #[trigger] g(i),
    ensures
        lists(picked(n, f), n as int, g),
{
    law_picked(n, f);
    let at = picked(n, f);
    assert forall|k: int| 0 <= k < at.len() implies 0 <= #[trigger] at[k] < n && g(at[k]) by {
        assert(f(at[k]) == g(at[k]));
    }
}

} // verus!
