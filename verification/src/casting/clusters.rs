//! Grouping voices: the two nearest groups become one until no two are near enough.
//!
//! How near two groups are is measured outside; here it is a whole number that orders the measures.

use vstd::prelude::*;

verus! {

/// The groups of the points `0..n`. A group that was taken into another is empty.
#[derive(Debug)]
pub struct Clusters {
    groups: Vec<Vec<usize>>,
}

pub open spec fn ints(v: Seq<usize>) -> Seq<int> {
    v.map_values(|i: usize| i as int)
}

impl View for Clusters {
    type V = Seq<Seq<int>>;

    closed spec fn view(&self) -> Seq<Seq<int>> {
        self.groups@.map_values(|g: Vec<usize>| ints(g@))
    }
}

pub open spec fn valid(g: Seq<Seq<int>>, i: int, a: int) -> bool {
    0 <= i < g.len() && 0 <= a < g[i].len()
}

/// The point is in some group.
pub open spec fn held(g: Seq<Seq<int>>, p: int) -> bool {
    exists|i: int, a: int| #[trigger] valid(g, i, a) && g[i][a] == p
}

/// Every point is in one place of one group.
pub open spec fn partition(g: Seq<Seq<int>>) -> bool {
    &&& forall|i: int, a: int| #[trigger] valid(g, i, a) ==> 0 <= g[i][a] < g.len()
    &&& forall|i: int, a: int, j: int, b: int| #[trigger]
        valid(g, i, a) && #[trigger] valid(g, j, b) && g[i][a] == g[j][b] ==> i == j && a == b
    &&& forall|p: int| 0 <= p < g.len() ==> #[trigger] held(g, p)
}

/// A group is named after the first of its points, which heads it.
pub open spec fn headed(g: Seq<Seq<int>>) -> bool {
    forall|i: int, a: int| #[trigger] valid(g, i, a) ==> i <= g[i][a] && g[i][0] == i
}

/// Each point in a group of its own.
pub open spec fn singletons(n: nat) -> Seq<Seq<int>> {
    Seq::new(n, |i: int| seq![i])
}

/// The group `j` taken into the group `i`.
pub open spec fn merged(g: Seq<Seq<int>>, i: int, j: int) -> Seq<Seq<int>> {
    g.update(i, g[i] + g[j]).update(j, Seq::empty())
}

/// The groups that are not empty, in order.
pub open spec fn alive(g: Seq<Seq<int>>) -> Seq<int>
    decreases g.len(),
{
    if g.len() == 0 {
        Seq::empty()
    } else if g.last().len() > 0 {
        alive(g.drop_last()).push(g.len() - 1)
    } else {
        alive(g.drop_last())
    }
}

/// The pairs of `x` with each of `rest`.
pub open spec fn row(x: int, rest: Seq<int>) -> Seq<(int, int)> {
    rest.map_values(|y: int| (x, y))
}

/// The pairs of a list, each with those behind it.
pub open spec fn pairs_of(s: Seq<int>) -> Seq<(int, int)>
    decreases s.len(),
{
    if s.len() == 0 {
        Seq::empty()
    } else {
        row(s[0], s.drop_first()) + pairs_of(s.drop_first())
    }
}

/// The first of the largest measures; what could not be measured does not count.
pub open spec fn nearest(keys: Seq<Option<i64>>) -> Option<int>
    decreases keys.len(),
{
    if keys.len() == 0 {
        None
    } else {
        let before = nearest(keys.drop_last());
        match (keys.last(), before) {
            (Some(k), Some(b)) => if keys[b] matches Some(m) && k > m {
                Some(keys.len() - 1)
            } else {
                before
            },
            (Some(_), None) => Some(keys.len() - 1),
            (None, _) => before,
        }
    }
}

/// The two groups that become one, if any two are near enough.
pub open spec fn next_pair(g: Seq<Seq<int>>, keys: Seq<Option<i64>>, limit: i64) -> Option<
    (int, int),
> {
    match nearest(keys) {
        Some(k) if keys[k] matches Some(m) && m >= limit => Some(pairs_of(alive(g))[k]),
        _ => None,
    }
}

proof fn lemma_alive(g: Seq<Seq<int>>)
    ensures
        alive(g).len() <= g.len(),
        forall|k: int|
            0 <= k < alive(g).len() ==> 0 <= #[trigger] alive(g)[k] < g.len()
                && g[alive(g)[k]].len() > 0,
        forall|k: int, m: int|
            0 <= k < m < alive(g).len() ==> #[trigger] alive(g)[k] < #[trigger] alive(g)[m],
        forall|i: int| 0 <= i < g.len() && (#[trigger] g[i]).len() > 0 ==> alive(g).contains(i),
    decreases g.len(),
{
    if g.len() > 0 {
        let t = g.drop_last();
        lemma_alive(t);
        let now = alive(g);
        let was = alive(t);
        assert forall|k: int| 0 <= k < now.len() implies 0 <= #[trigger] now[k] < g.len()
            && g[now[k]].len() > 0 by {
            if k < was.len() {
                assert(now[k] == was[k]);
                assert(t[was[k]] == g[was[k]]);
            }
        }
        assert forall|k: int, m: int| 0 <= k < m < now.len() implies #[trigger] now[k]
            < #[trigger] now[m] by {
            assert(now[k] == was[k]);
            if m < was.len() {
                assert(now[m] == was[m]);
            }
        }
        assert forall|i: int| 0 <= i < g.len() && (#[trigger] g[i]).len() > 0 implies now.contains(
            i,
        ) by {
            if i < t.len() {
                assert(t[i] == g[i]);
                let k = choose|k: int| 0 <= k < was.len() && was[k] == i;
                assert(now[k] == i);
            } else {
                assert(now[now.len() - 1] == i);
            }
        }
    }
}

proof fn lemma_pairs(s: Seq<int>, k: int)
    requires
        0 <= k < pairs_of(s).len(),
    ensures
        exists|a: int, b: int|
            0 <= a < b < s.len() && pairs_of(s)[k] == (#[trigger] s[a], #[trigger] s[b]),
    decreases s.len(),
{
    let rest = s.drop_first();
    if k < rest.len() {
        assert(pairs_of(s)[k] == (s[0], rest[k]));
        assert(rest[k] == s[k + 1]);
    } else {
        lemma_pairs(rest, k - rest.len());
        let (a, b) = choose|a: int, b: int|
            0 <= a < b < rest.len() && pairs_of(rest)[k - rest.len()] == (
                #[trigger] rest[a],
                #[trigger] rest[b],
            );
        assert(rest[a] == s[a + 1] && rest[b] == s[b + 1]);
    }
}

proof fn lemma_nearest(keys: Seq<Option<i64>>)
    ensures
        nearest(keys) matches Some(k) ==> 0 <= k < keys.len() && keys[k] is Some && (forall|j: int|
            0 <= j < keys.len() && (#[trigger] keys[j]) is Some ==> keys[j]->0 <= keys[k]->0) && (
        forall|j: int| 0 <= j < k && (#[trigger] keys[j]) is Some ==> keys[j]->0 < keys[k]->0),
        nearest(keys) is None ==> forall|j: int| 0 <= j < keys.len() ==> (#[trigger] keys[j]) is None,
    decreases keys.len(),
{
    if keys.len() > 0 {
        let t = keys.drop_last();
        lemma_nearest(t);
        assert(forall|j: int| 0 <= j < t.len() ==> #[trigger] keys[j] == t[j]);
    }
}

/// The pair that is merged are two groups with points, the earlier one first.
proof fn lemma_next_pair(g: Seq<Seq<int>>, keys: Seq<Option<i64>>, limit: i64)
    requires
        keys.len() == pairs_of(alive(g)).len(),
    ensures
        next_pair(g, keys, limit) matches Some(p) ==> 0 <= p.0 < p.1 < g.len() && g[p.0].len() > 0
            && g[p.1].len() > 0,
{
    lemma_nearest(keys);
    lemma_alive(g);
    if let Some(p) = next_pair(g, keys, limit) {
        let k = nearest(keys)->0;
        lemma_pairs(alive(g), k);
        let s = alive(g);
        let (a, b) = choose|a: int, b: int|
            0 <= a < b < s.len() && pairs_of(s)[k] == (#[trigger] s[a], #[trigger] s[b]);
        assert(s[a] < s[b]);
    }
}

proof fn lemma_merged(g: Seq<Seq<int>>, i: int, j: int)
    requires
        partition(g),
        headed(g),
        0 <= i < j < g.len(),
        g[i].len() > 0,
    ensures
        partition(merged(g, i, j)),
        headed(merged(g, i, j)),
{
    let m = merged(g, i, j);
    let n = g[i].len() as int;
    assert forall|x: int, a: int| #[trigger] valid(m, x, a) implies (if x == i && a >= n {
        valid(g, j, a - n) && m[x][a] == g[j][a - n]
    } else {
        x != j && valid(g, x, a) && m[x][a] == g[x][a]
    }) by {
        if x == i && a >= n {
            assert(valid(g, j, a - n));
        } else if x != j {
            assert(valid(g, x, a));
        }
    }
    assert forall|x: int, a: int| #[trigger] valid(m, x, a) implies 0 <= m[x][a] < m.len() by {
        if x == i && a >= n {
            assert(valid(g, j, a - n));
        } else {
            assert(valid(g, x, a));
        }
    }
    assert forall|x: int, a: int| #[trigger] valid(m, x, a) implies x <= m[x][a] && m[x][0] == x by {
        if x == i && a >= n {
            assert(valid(g, j, a - n));
            assert(valid(g, i, 0));
        } else {
            assert(valid(g, x, a));
        }
    }
    assert forall|x: int, a: int, y: int, b: int| #[trigger]
        valid(m, x, a) && #[trigger] valid(m, y, b) && m[x][a] == m[y][b] implies x == y && a == b by {
        let (x0, a0) = if x == i && a >= n {
            (j, a - n)
        } else {
            (x, a)
        };
        let (y0, b0) = if y == i && b >= n {
            (j, b - n)
        } else {
            (y, b)
        };
        assert(valid(g, x0, a0));
        assert(valid(g, y0, b0));
    }
    assert forall|p: int| 0 <= p < m.len() implies #[trigger] held(m, p) by {
        assert(held(g, p));
        let (x, a) = choose|x: int, a: int| #[trigger] valid(g, x, a) && g[x][a] == p;
        if x == j {
            assert(valid(m, i, n + a) && m[i][n + a] == p);
        } else {
            assert(valid(m, x, a) && m[x][a] == p);
        }
    }
}

/// No earlier point has the number of the point `p`.
pub open spec fn is_new(labels: Seq<usize>, p: int) -> bool {
    forall|x: int| 0 <= x < p ==> #[trigger] labels[x] != labels[p]
}

/// The numbers go up in the order in which they first appear.
pub open spec fn by_first_appearance(labels: Seq<usize>) -> bool {
    forall|q: int, p: int|
        0 <= q < p < labels.len() && #[trigger] is_new(labels, p) ==> #[trigger] labels[q]
            < labels[p]
}

/// How many groups before the group `i` have points.
pub open spec fn rank_of(g: Seq<Seq<int>>, i: int) -> nat {
    alive(g.take(i)).len()
}

impl Clusters {
    /// The groups hold every point once, each group headed by its first point.
    pub open spec fn wf(&self) -> bool {
        partition(self@) && headed(self@)
    }

    /// Each of the `n` points in a group of its own.
    pub fn start(n: usize) -> (r: Self)
        ensures
            r.wf(),
            r@ == singletons(n as nat),
    {
        let mut groups: Vec<Vec<usize>> = Vec::new();
        for i in 0..n
            invariant
                groups@.len() == i,
                forall|k: int| 0 <= k < i ==> ints((#[trigger] groups@[k])@) == seq![k],
        {
            let g: Vec<usize> = vec![i];
            assert(ints(g@) =~= seq![i as int]);
            groups.push(g);
        }
        let r = Clusters { groups };
        proof {
            let s = singletons(n as nat);
            assert(r@ =~= s);
            assert forall|p: int| 0 <= p < s.len() implies #[trigger] held(s, p) by {
                assert(valid(s, p, 0) && s[p][0] == p);
            }
        }
        r
    }

    /// The groups with points.
    pub fn active(&self) -> (r: Vec<usize>)
        ensures
            ints(r@) == alive(self@),
            forall|k: int| 0 <= k < r@.len() ==> #[trigger] r@[k] < self@.len(),
    {
        let ghost g = self@;
        let mut out: Vec<usize> = Vec::new();
        assert(g.take(0) =~= Seq::empty());
        assert(ints(out@) =~= Seq::empty());
        for i in 0..self.groups.len()
            invariant
                g == self@,
                ints(out@) == alive(g.take(i as int)),
                forall|k: int| 0 <= k < out@.len() ==> #[trigger] out@[k] < g.len(),
        {
            assert(g.take(i + 1).drop_last() =~= g.take(i as int));
            assert(g[i as int] == ints(self.groups@[i as int]@));
            if self.groups[i].len() > 0 {
                let ghost was = ints(out@);
                out.push(i);
                assert(ints(out@) =~= was.push(i as int));
            }
        }
        assert(g.take(g.len() as int) =~= g);
        out
    }

    /// How many groups have points.
    pub fn count(&self) -> (r: usize)
        ensures
            r == alive(self@).len(),
    {
        let a = self.active();
        assert(ints(a@).len() == a@.len());
        a.len()
    }

    /// The pairs of groups that are to be measured, in order.
    pub fn pairs(&self) -> (r: Vec<(usize, usize)>)
        ensures
            pair_ints(r@) == pairs_of(alive(self@)),
    {
        let act = self.active();
        let ghost s = ints(act@);
        let mut out: Vec<(usize, usize)> = Vec::new();
        assert(s.skip(0) =~= s);
        assert(pair_ints(out@) + pairs_of(s.skip(0)) =~= pairs_of(s));
        for a in 0..act.len()
            invariant
                s == ints(act@),
                pair_ints(out@) + pairs_of(s.skip(a as int)) == pairs_of(s),
        {
            let ghost head = pair_ints(out@);
            let ghost rest = s.skip(a + 1);
            assert(s.skip(a as int).drop_first() =~= rest);
            assert(rest.take(0) =~= Seq::empty());
            assert(head + row(s[a as int], rest.take(0)) =~= head);
            for b in a + 1..act.len()
                invariant
                    a < act@.len(),
                    s == ints(act@),
                    rest == s.skip(a + 1),
                    pair_ints(out@) == head + row(s[a as int], rest.take(b - a - 1)),
            {
                let ghost was = pair_ints(out@);
                out.push((act[a], act[b]));
                assert(rest.take(b - a) =~= rest.take(b - a - 1).push(s[b as int]));
                assert(pair_ints(out@) =~= was.push((s[a as int], s[b as int])));
                assert(row(s[a as int], rest.take(b - a)) =~= row(
                    s[a as int],
                    rest.take(b - a - 1),
                ).push((s[a as int], s[b as int])));
                assert(pair_ints(out@) =~= head + row(s[a as int], rest.take(b - a)));
            }
            assert(rest.take(act@.len() - a - 1) =~= rest);
            assert(head + pairs_of(s.skip(a as int)) =~= pair_ints(out@) + pairs_of(rest));
        }
        assert(s.skip(s.len() as int).len() == 0);
        assert(pair_ints(out@) =~= pairs_of(s));
        out
    }

    /// The two nearest groups become one, if they are near enough. `keys` measures the pairs in the
    /// order of `pairs`. Gives the group that grew.
    pub fn step(&mut self, keys: &Vec<Option<i64>>, limit: i64) -> (r: Option<usize>)
        requires
            old(self).wf(),
            keys@.len() == pairs_of(alive(old(self)@)).len(),
        ensures
            final(self).wf(),
            match next_pair(old(self)@, keys@, limit) {
                Some(p) => r == Some(p.0 as usize) && 0 <= p.0 < old(self)@.len() && final(self)@
                    == merged(old(self)@, p.0, p.1),
                None => r is None && final(self)@ == old(self)@,
            },
    {
        let ghost g = self@;
        proof {
            lemma_next_pair(g, keys@, limit);
            lemma_nearest(keys@);
        }
        let mut best: Option<(usize, i64)> = None;
        assert(keys@.take(0) =~= Seq::empty());
        for k in 0..keys.len()
            invariant
                match best {
                    Some(b) => nearest(keys@.take(k as int)) == Some(b.0 as int) && b.0 < k
                        && keys@[b.0 as int] == Some(b.1),
                    None => nearest(keys@.take(k as int)) is None,
                },
        {
            assert(keys@.take(k + 1).drop_last() =~= keys@.take(k as int));
            if let Some(m) = keys[k] {
                let wins = match best {
                    Some(b) => m > b.1,
                    None => true,
                };
                if wins {
                    best = Some((k, m));
                }
            }
        }
        assert(keys@.take(keys@.len() as int) =~= keys@);
        match best {
            Some(b) => if b.1 >= limit {
                let ps = self.pairs();
                assert(pair_ints(ps@)[b.0 as int] == pairs_of(alive(g))[b.0 as int]);
                let (i, j): (usize, usize) = ps[b.0];
                assert(pairs_of(alive(g))[b.0 as int] == (i as int, j as int));
                let mut taken: Vec<usize> = Vec::new();
                let ghost before = self.groups@;
                assert(g[j as int] == ints(before[j as int]@));
                assert(g[i as int] == ints(before[i as int]@));
                std::mem::swap(&mut self.groups[j], &mut taken);
                self.groups[i].append(&mut taken);
                proof {
                    assert(self@ =~= merged(g, i as int, j as int)) by {
                        assert(ints(self.groups@[i as int]@) =~= g[i as int] + g[j as int]);
                        assert(ints(self.groups@[j as int]@) =~= Seq::<int>::empty());
                    }
                    lemma_merged(g, i as int, j as int);
                }
                Some(i)
            } else {
                None
            },
            None => None,
        }
    }

    /// The points of a group, in the order in which they came to it.
    pub fn members(&self, i: usize) -> (r: &Vec<usize>)
        requires
            i < self@.len(),
        ensures
            ints(r@) == self@[i as int],
    {
        &self.groups[i]
    }

    /// The number of each point's group, among the groups with points: from nought without gaps, in the
    /// order in which the groups first appear among the points.
    pub fn labels(&self) -> (r: Vec<usize>)
        requires
            self.wf(),
        ensures
            r@.len() == self@.len(),
            forall|i: int, a: int| #[trigger]
                valid(self@, i, a) ==> r@[self@[i][a]] == rank_of(self@, i),
            forall|p: int| 0 <= p < r@.len() ==> #[trigger] r@[p] < alive(self@).len(),
            forall|k: int| 0 <= k < alive(self@).len() ==> r@[#[trigger] alive(self@)[k]] == k,
            by_first_appearance(r@),
    {
        let ghost g = self@;
        let n: usize = self.groups.len();
        let mut out: Vec<usize> = Vec::new();
        for i in 0..n
            invariant
                out@.len() == i,
        {
            out.push(0);
        }
        let mut next: usize = 0;
        assert(g.take(0) =~= Seq::empty());
        for i in 0..n
            invariant
                n == g.len(),
                n == self.groups@.len(),
                g == self@,
                partition(g),
                out@.len() == n,
                next <= i,
                next == alive(g.take(i as int)).len(),
                forall|x: int, a: int| #[trigger]
                    valid(g, x, a) && x < i ==> out@[g[x][a]] == rank_of(g, x),
        {
            assert(g.take(i + 1).drop_last() =~= g.take(i as int));
            let grp = &self.groups[i];
            assert(g[i as int] == ints(grp@));
            for k in 0..grp.len()
                invariant
                    i < n,
                    n == g.len(),
                    g[i as int] == ints(grp@),
                    partition(g),
                    out@.len() == n,
                    next == rank_of(g, i as int),
                    forall|x: int, a: int| #[trigger]
                        valid(g, x, a) && (x < i || (x == i && a < k)) ==> out@[g[x][a]] == rank_of(
                            g,
                            x,
                        ),
            {
                assert(valid(g, i as int, k as int));
                let p: usize = grp[k];
                assert(g[i as int][k as int] == p);
                let ghost before = out@;
                out[p] = next;
                assert forall|x: int, a: int| #[trigger]
                    valid(g, x, a) && (x < i || (x == i && a < k + 1)) implies out@[g[x][a]]
                    == rank_of(g, x) by {
                    if !(x == i && a == k) {
                        assert(g[x][a] != p);
                    }
                }
            }
            if grp.len() > 0 {
                next += 1;
            }
        }
        assert(g.take(n as int) =~= g);
        proof {
            assert forall|p: int| 0 <= p < out@.len() implies #[trigger] out@[p] < alive(g).len() by {
                assert(held(g, p));
                let (i, a) = choose|i: int, a: int| #[trigger] valid(g, i, a) && g[i][a] == p;
                lemma_rank(g, i);
            }
            lemma_alive(g);
            assert forall|k: int| 0 <= k < alive(g).len() implies out@[#[trigger] alive(g)[k]] == k by {
                lemma_rank_at(g, k);
                assert(valid(g, alive(g)[k], 0));
            }
            assert forall|q: int, p: int|
                0 <= q < p < out@.len() && #[trigger] is_new(out@, p) implies #[trigger] out@[q]
                < out@[p] by {
                assert(held(g, p) && held(g, q));
                let (i, a) = choose|i: int, a: int| #[trigger] valid(g, i, a) && g[i][a] == p;
                let (j, b) = choose|j: int, b: int| #[trigger] valid(g, j, b) && g[j][b] == q;
                assert(valid(g, i, 0));
                assert(out@[i] == out@[p]);
                lemma_rank_grows(g, j, i);
            }
        }
        out
    }
}

pub open spec fn pair_ints(v: Seq<(usize, usize)>) -> Seq<(int, int)> {
    v.map_values(|p: (usize, usize)| (p.0 as int, p.1 as int))
}

proof fn lemma_rank(g: Seq<Seq<int>>, i: int)
    requires
        0 <= i < g.len(),
        g[i].len() > 0,
    ensures
        rank_of(g, i) < alive(g).len(),
    decreases g.len(),
{
    let t = g.drop_last();
    if i < t.len() {
        assert(t[i] == g[i]);
        assert(t.take(i) =~= g.take(i));
        lemma_rank(t, i);
    } else {
        assert(g.take(i) =~= t);
    }
}

proof fn lemma_rank_at(g: Seq<Seq<int>>, k: int)
    requires
        0 <= k < alive(g).len(),
    ensures
        rank_of(g, alive(g)[k]) == k,
    decreases g.len(),
{
    let t = g.drop_last();
    lemma_alive(t);
    if k < alive(t).len() {
        lemma_rank_at(t, k);
        assert(t.take(alive(t)[k]) =~= g.take(alive(t)[k]));
    } else {
        assert(g.take(g.len() - 1) =~= t);
    }
}

proof fn lemma_rank_grows(g: Seq<Seq<int>>, i: int, j: int)
    requires
        0 <= i < j < g.len(),
        g[i].len() > 0,
    ensures
        rank_of(g, i) < rank_of(g, j),
{
    let t = g.take(j);
    assert(t[i] == g[i]);
    lemma_rank(t, i);
    assert(t.take(i) =~= g.take(i));
}

/// Two points have the same number exactly where they are in the same group.
pub proof fn law_labels_tell_groups_apart(
    g: Seq<Seq<int>>,
    i: int,
    a: int,
    j: int,
    b: int,
)
    requires
        valid(g, i, a),
        valid(g, j, b),
    ensures
        (rank_of(g, i) == rank_of(g, j)) == (i == j),
{
    if i < j {
        lemma_rank_grows(g, i, j);
    } else if j < i {
        lemma_rank_grows(g, j, i);
    }
}

/// A step makes one group fewer, so the grouping ends.
pub proof fn law_step_makes_one_fewer(g: Seq<Seq<int>>, i: int, j: int)
    requires
        0 <= i < j < g.len(),
        g[i].len() > 0,
        g[j].len() > 0,
    ensures
        alive(merged(g, i, j)).len() + 1 == alive(g).len(),
    decreases g.len(),
{
    let t = g.drop_last();
    let m = merged(g, i, j);
    if j < t.len() {
        assert(m.drop_last() =~= merged(t, i, j));
        law_step_makes_one_fewer(t, i, j);
    } else {
        assert(m.drop_last() =~= t.update(i, g[i] + g[j]));
        lemma_alive_same(t, t.update(i, g[i] + g[j]));
    }
}

proof fn lemma_alive_same(a: Seq<Seq<int>>, b: Seq<Seq<int>>)
    requires
        a.len() == b.len(),
        forall|i: int| 0 <= i < a.len() ==> ((#[trigger] a[i]).len() > 0) == (b[i].len() > 0),
    ensures
        alive(a) == alive(b),
    decreases a.len(),
{
    if a.len() > 0 {
        assert forall|i: int| 0 <= i < a.drop_last().len() implies ((#[trigger] a.drop_last()[i]).len()
            > 0) == (b.drop_last()[i].len() > 0) by {
            assert(a.drop_last()[i] == a[i] && b.drop_last()[i] == b[i]);
        }
        lemma_alive_same(a.drop_last(), b.drop_last());
        assert((a[a.len() - 1].len() > 0) == (b[b.len() - 1].len() > 0));
    }
}

/// The two that are most alike are found: nothing that was measured is more alike, and of equal ones it is the
/// first. Only where nothing was measured there is none.
pub proof fn law_most_alike_are_found(keys: Seq<Option<i64>>)
    ensures
        match nearest(keys) {
            Some(k) => {
                &&& 0 <= k < keys.len() && keys[k] is Some
                &&& forall|j: int|
                    0 <= j < keys.len() && (#[trigger] keys[j]) is Some ==> keys[j]->0 <= keys[k]->0 && (j < k
                        ==> keys[j]->0 < keys[k]->0)
            },
            None => forall|j: int| 0 <= j < keys.len() ==> (#[trigger] keys[j]) is None,
        },
    decreases keys.len(),
{
    if keys.len() > 0 {
        let p = keys.drop_last();
        law_most_alike_are_found(p);
        assert(forall|j: int| 0 <= j < p.len() ==> p[j] == #[trigger] keys[j]);
        assert(keys[keys.len() - 1] == keys.last());
        if let Some(b) = nearest(p) {
            assert(p[b] == keys[b]);
        }
    }
}

/// The groups that are compared are those that hold a point, in order.
pub proof fn law_groups_with_points_are_compared(g: Seq<Seq<int>>)
    ensures
        forall|k: int| 0 <= k < alive(g).len() ==> 0 <= #[trigger] alive(g)[k] < g.len() && g[alive(g)[k]].len() > 0,
        forall|j: int, k: int| 0 <= j < k < alive(g).len() ==> #[trigger] alive(g)[j] < #[trigger] alive(g)[k],
        forall|i: int| 0 <= i < g.len() && (#[trigger] g[i]).len() > 0 ==> alive(g).contains(i),
    decreases g.len(),
{
    if g.len() > 0 {
        let p = g.drop_last();
        law_groups_with_points_are_compared(p);
        assert(forall|j: int| 0 <= j < p.len() ==> p[j] == #[trigger] g[j]);
        let (was, now) = (alive(p), alive(g));
        assert(forall|k: int| 0 <= k < was.len() ==> #[trigger] now[k] == was[k]);
        assert forall|i: int| 0 <= i < g.len() && (#[trigger] g[i]).len() > 0 implies now.contains(i) by {
            if i < p.len() {
                assert(p[i] == g[i]);
                let k = choose|k: int| 0 <= k < was.len() && was[k] == i;
                assert(now[k] == i);
            } else {
                assert(now[now.len() - 1] == i);
            }
        }
    }
}

proof fn lemma_pairs_are(s: Seq<int>, a: int, b: int) -> (k: int)
    requires
        0 <= a < b < s.len(),
    ensures
        0 <= k < pairs_of(s).len(),
        pairs_of(s)[k] == (s[a], s[b]),
    decreases s.len(),
{
    let rest = s.drop_first();
    let r = row(s[0], rest);
    if a == 0 {
        assert(r[b - 1] == (s[0], rest[b - 1]));
        b - 1
    } else {
        let k = lemma_pairs_are(rest, a - 1, b - 1);
        assert(pairs_of(s)[r.len() + k] == pairs_of(rest)[k]);
        r.len() + k
    }
}

proof fn lemma_pairs_are_of(s: Seq<int>, k: int) -> (p: (int, int))
    requires
        0 <= k < pairs_of(s).len(),
    ensures
        0 <= p.0 < p.1 < s.len(),
        pairs_of(s)[k] == (s[p.0], s[p.1]),
    decreases s.len(),
{
    let rest = s.drop_first();
    let r = row(s[0], rest);
    if k < r.len() {
        assert(rest[k] == s[k + 1]);
        (0, k + 1)
    } else {
        let p = lemma_pairs_are_of(rest, k - r.len());
        assert(rest[p.0] == s[p.0 + 1] && rest[p.1] == s[p.1 + 1]);
        (p.0 + 1, p.1 + 1)
    }
}

/// Every two groups that hold a point are compared.
pub proof fn law_every_two_groups_are_compared(g: Seq<Seq<int>>, i: int, j: int) -> (k: int)
    requires
        0 <= i < j < g.len(),
        g[i].len() > 0,
        g[j].len() > 0,
    ensures
        0 <= k < pairs_of(alive(g)).len(),
        pairs_of(alive(g))[k] == (i, j),
{
    law_groups_with_points_are_compared(g);
    let s = alive(g);
    assert(s.contains(i) && s.contains(j));
    let a = choose|a: int| 0 <= a < s.len() && s[a] == i;
    let b = choose|b: int| 0 <= b < s.len() && s[b] == j;
    if a >= b {
        assert(s[b] <= s[a]);
    }
    lemma_pairs_are(s, a, b)
}

/// The two groups that become one hold a point each, are the most alike of all, and are alike enough. Two
/// become one wherever any two are alike enough.
pub proof fn law_only_the_most_alike_become_one(g: Seq<Seq<int>>, keys: Seq<Option<i64>>, limit: i64)
    requires
        keys.len() == pairs_of(alive(g)).len(),
    ensures
        match next_pair(g, keys, limit) {
            Some((i, j)) => {
                &&& 0 <= i < j < g.len() && g[i].len() > 0 && g[j].len() > 0
                &&& exists|k: int|
                    0 <= k < keys.len() && pairs_of(alive(g))[k] == (i, j) && (#[trigger] keys[k]) is Some && keys[k]->0
                        >= limit && forall|m: int|
                        0 <= m < keys.len() && (#[trigger] keys[m]) is Some ==> keys[m]->0 <= keys[k]->0
            },
            None => forall|k: int| 0 <= k < keys.len() && (#[trigger] keys[k]) is Some ==> keys[k]->0 < limit,
        },
{
    law_most_alike_are_found(keys);
    law_groups_with_points_are_compared(g);
    if let Some(k) = nearest(keys) {
        let p = lemma_pairs_are_of(alive(g), k);
        let s = alive(g);
        assert(s[p.0] < s[p.1]);
        if keys[k]->0 >= limit {
            assert(next_pair(g, keys, limit) == Some(pairs_of(alive(g))[k]));
        }
    }
}

/// Two groups become one that holds the points of both, the first's first; no other group changes.
pub proof fn law_no_point_is_lost(g: Seq<Seq<int>>, i: int, j: int)
    requires
        0 <= i < j < g.len(),
    ensures
        merged(g, i, j).len() == g.len(),
        merged(g, i, j)[i] == g[i] + g[j],
        merged(g, i, j)[j].len() == 0,
        forall|k: int| 0 <= k < g.len() && k != i && k != j ==> #[trigger] merged(g, i, j)[k] == g[k],
        forall|k: int| 0 <= k < g.len() ==> #[trigger] singletons(g.len())[k] == seq![k],
{
}

} // verus!
