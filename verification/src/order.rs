//! The dictionary order of texts, and lists without repetition in that order.

use crate::text;
use vstd::prelude::*;

verus! {

/// Whether `a` comes before `b`: at the first place where they differ it has the smaller character,
/// or it ends there.
pub open spec fn before(a: Seq<char>, b: Seq<char>) -> bool
    decreases a.len(),
{
    if b.len() == 0 {
        false
    } else if a.len() == 0 {
        true
    } else if a[0] != b[0] {
        a[0] < b[0]
    } else {
        before(a.drop_first(), b.drop_first())
    }
}

pub proof fn lemma_before_irreflexive(a: Seq<char>)
    ensures
        !before(a, a),
    decreases a.len(),
{
    if a.len() > 0 {
        lemma_before_irreflexive(a.drop_first());
    }
}

pub proof fn lemma_before_total(a: Seq<char>, b: Seq<char>)
    requires
        a != b,
    ensures
        before(a, b) || before(b, a),
    decreases a.len(),
{
    if a.len() == 0 {
        assert(b.len() > 0) by {
            if b.len() == 0 {
                assert(a =~= b);
            }
        }
    } else if b.len() > 0 && a[0] == b[0] {
        if a.drop_first() == b.drop_first() {
            assert(a =~= seq![a[0]] + a.drop_first());
            assert(b =~= seq![b[0]] + b.drop_first());
        }
        lemma_before_total(a.drop_first(), b.drop_first());
    }
}

pub proof fn lemma_before_transitive(a: Seq<char>, b: Seq<char>, c: Seq<char>)
    requires
        before(a, b),
        before(b, c),
    ensures
        before(a, c),
    decreases a.len(),
{
    if a.len() > 0 && a[0] == b[0] && b[0] == c[0] {
        lemma_before_transitive(a.drop_first(), b.drop_first(), c.drop_first());
    }
}

pub proof fn lemma_before_asymmetric(a: Seq<char>, b: Seq<char>)
    requires
        before(a, b),
    ensures
        !before(b, a),
        a != b,
{
    if before(b, a) {
        lemma_before_transitive(a, b, a);
    }
    lemma_before_irreflexive(a);
}

/// Whether `a` comes before `b`.
pub fn comes_before(a: &str, b: &str) -> (r: bool)
    ensures
        r == before(a@, b@),
{
    let x = text::chars_of(a);
    let y = text::chars_of(b);
    let mut i: usize = 0;
    assert(x@.skip(0) =~= x@);
    assert(y@.skip(0) =~= y@);
    loop
        invariant
            x@ == a@,
            y@ == b@,
            i <= x@.len(),
            i <= y@.len(),
            before(a@, b@) == before(x@.skip(i as int), y@.skip(i as int)),
        decreases x@.len() - i,
    {
        if i == y.len() {
            return false;
        }
        if i == x.len() {
            return true;
        }
        if x[i] != y[i] {
            return x[i] < y[i];
        }
        assert(x@.skip(i as int).drop_first() =~= x@.skip(i + 1));
        assert(y@.skip(i as int).drop_first() =~= y@.skip(i + 1));
        i += 1;
    }
}

/// Strictly in dictionary order.
pub open spec fn ascending(s: Seq<Seq<char>>) -> bool {
    forall|i: int, j: int| 0 <= i < j < s.len() ==> before(#[trigger] s[i], #[trigger] s[j])
}

/// `r` holds what `s` holds, each once and in dictionary order.
pub open spec fn sorted_set_of(r: Seq<Seq<char>>, s: Seq<Seq<char>>) -> bool {
    ascending(r) && forall|x: Seq<char>| r.contains(x) == s.contains(x)
}

/// Only one list is the sorted set of a list.
pub proof fn law_sorted_set_is_unique(a: Seq<Seq<char>>, b: Seq<Seq<char>>, s: Seq<Seq<char>>)
    requires
        sorted_set_of(a, s),
        sorted_set_of(b, s),
    ensures
        a == b,
    decreases a.len(),
{
    if a.len() == 0 {
        if b.len() > 0 {
            assert(b.contains(b[0]));
            assert(a.contains(b[0]));
        }
        assert(a =~= b);
    } else {
        assert(a.contains(a.last()));
        assert(s.contains(a.last()));
        assert(b.contains(a.last()));
        assert(b.contains(b.last()));
        assert(s.contains(b.last()));
        assert(a.contains(b.last()));
        let x = a.last();
        let y = b.last();
        if x != y {
            let i = choose|i: int| 0 <= i < b.len() && b[i] == x;
            let j = choose|j: int| 0 <= j < a.len() && a[j] == y;
            assert(before(b[i], b[b.len() - 1]));
            assert(before(a[j], a[a.len() - 1]));
            lemma_before_asymmetric(x, y);
        }
        let a2 = a.drop_last();
        let b2 = b.drop_last();
        let rest = a2;
        assert forall|z: Seq<char>| b2.contains(z) == rest.contains(z) by {
            if b2.contains(z) {
                let i = choose|i: int| 0 <= i < b2.len() && b2[i] == z;
                assert(b[i] == z);
                assert(b.contains(z));
                assert(s.contains(z));
                assert(a.contains(z));
                let j = choose|j: int| 0 <= j < a.len() && a[j] == z;
                assert(before(b[i], b[b.len() - 1]));
                lemma_before_irreflexive(z);
                assert(j != a.len() - 1);
                assert(a2[j] == z);
            }
            if rest.contains(z) {
                let i = choose|i: int| 0 <= i < a2.len() && a2[i] == z;
                assert(a[i] == z);
                assert(a.contains(z));
                assert(s.contains(z));
                assert(b.contains(z));
                let j = choose|j: int| 0 <= j < b.len() && b[j] == z;
                assert(before(a[i], a[a.len() - 1]));
                lemma_before_irreflexive(z);
                assert(j != b.len() - 1);
                assert(b2[j] == z);
            }
        }
        assert(ascending(a2)) by {
            assert forall|i: int, j: int| 0 <= i < j < a2.len() implies before(
                #[trigger] a2[i],
                #[trigger] a2[j],
            ) by {
                assert(before(a[i], a[j]));
            }
        }
        assert(ascending(b2)) by {
            assert forall|i: int, j: int| 0 <= i < j < b2.len() implies before(
                #[trigger] b2[i],
                #[trigger] b2[j],
            ) by {
                assert(before(b[i], b[j]));
            }
        }
        law_sorted_set_is_unique(a2, b2, rest);
        assert(a =~= a2.push(x));
        assert(b =~= b2.push(y));
    }
}

/// Puts `x` into the ascending list `v`, unless it is there.
fn insert_sorted(v: &mut Vec<String>, x: String)
    requires
        ascending(text::views(old(v)@)),
    ensures
        ascending(text::views(final(v)@)),
        forall|z: Seq<char>|
            text::views(final(v)@).contains(z) == (text::views(old(v)@).contains(z) || z == x@),
{
    let ghost before0 = text::views(v@);
    let mut i: usize = 0;
    while i < v.len() && comes_before(v[i].as_str(), x.as_str())
        invariant
            i <= v@.len(),
            before0 == text::views(v@),
            forall|j: int| 0 <= j < i ==> before(#[trigger] before0[j], x@),
        decreases v@.len() - i,
    {
        assert(before0[i as int] == v@[i as int]@);
        i += 1;
    }
    if i < v.len() && text::same(v[i].as_str(), x.as_str()) {
        assert(before0[i as int] == x@);
        assert(before0.contains(x@));
        return ;
    }
    let ghost xs = x@;
    v.insert(i, x);
    proof {
        let now = text::views(v@);
        assert(now =~= before0.insert(i as int, xs));
        if i < before0.len() {
            assert(before0[i as int] == old(v)@[i as int]@);
            lemma_before_total(before0[i as int], xs);
        }
        assert forall|a: int, b: int| 0 <= a < b < now.len() implies before(
            #[trigger] now[a],
            #[trigger] now[b],
        ) by {
            if b < i {
                assert(now[a] == before0[a] && now[b] == before0[b]);
            } else if b == i {
                assert(now[a] == before0[a]);
            } else if a < i {
                assert(now[a] == before0[a] && now[b] == before0[b - 1]);
            } else if a == i {
                assert(now[b] == before0[b - 1]);
                if b - 1 > i {
                    lemma_before_transitive(xs, before0[i as int], before0[b - 1]);
                }
            } else {
                assert(now[a] == before0[a - 1] && now[b] == before0[b - 1]);
            }
        }
        assert forall|z: Seq<char>| now.contains(z) == (before0.contains(z) || z == xs) by {
            if before0.contains(z) {
                let k = choose|k: int| 0 <= k < before0.len() && before0[k] == z;
                if k < i {
                    assert(now[k] == z);
                } else {
                    assert(now[k + 1] == z);
                }
            }
            if z == xs {
                assert(now[i as int] == z);
            }
            if now.contains(z) {
                let k = choose|k: int| 0 <= k < now.len() && now[k] == z;
                if k < i {
                    assert(before0[k] == z);
                } else if k > i {
                    assert(before0[k - 1] == z);
                }
            }
        }
    }
}

/// What `items` holds, each once and in dictionary order.
pub fn sorted_set(items: Vec<String>) -> (r: Vec<String>)
    ensures
        sorted_set_of(text::views(r@), text::views(items@)),
{
    let ghost all = text::views(items@);
    let mut out: Vec<String> = Vec::new();
    for x in it: items
        invariant
            text::views(it.seq()) == all,
            ascending(text::views(out@)),
            forall|z: Seq<char>|
                text::views(out@).contains(z) == all.take(it.index()).contains(z),
    {
        let ghost i = it.index();
        proof {
            assert(text::views(it.seq())[i] == x@);
            let t = all.take(i);
            let u = all.take(i + 1);
            assert(u =~= t.push(x@));
            assert forall|z: Seq<char>| u.contains(z) == (t.contains(z) || z == x@) by {
                if t.contains(z) {
                    let k = choose|k: int| 0 <= k < t.len() && t[k] == z;
                    assert(u[k] == z);
                }
                if z == x@ {
                    assert(u[i] == z);
                }
                if u.contains(z) {
                    let k = choose|k: int| 0 <= k < u.len() && u[k] == z;
                    if k < i {
                        assert(t[k] == z);
                    }
                }
            }
        }
        insert_sorted(&mut out, x);
    }
    assert(all.take(all.len() as int) =~= all);
    out
}

} // verus!
