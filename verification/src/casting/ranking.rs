//! The speakers by how long they talk, the main characters first.

use crate::dub::voices;
use crate::order;
use crate::project;
use crate::project::Segment;
use crate::rank;
use crate::text;
use vstd::prelude::*;

verus! {

/// How long a line lasts.
pub open spec fn length(s: Segment) -> int {
    if s.end > s.start {
        s.end - s.start
    } else {
        0
    }
}

/// How long someone talks.
pub open spec fn talk(segs: Seq<Segment>, who: Seq<char>) -> int
    decreases segs.len(),
{
    if segs.len() == 0 {
        0
    } else {
        talk(segs.drop_last(), who) + if segs.last().who() == who {
            length(segs.last())
        } else {
            0
        }
    }
}

/// How many lines someone has.
pub open spec fn lines(segs: Seq<Segment>, who: Seq<char>) -> nat
    decreases segs.len(),
{
    if segs.len() == 0 {
        0
    } else {
        lines(segs.drop_last(), who) + if segs.last().who() == who {
            1nat
        } else {
            0nat
        }
    }
}

/// A speaker with how long they talk and how many lines they have.
#[derive(Clone, Debug)]
pub struct Talker {
    pub speaker: String,
    /// In microseconds.
    pub talk: i128,
    pub lines: usize,
}

/// A speaker with how long they talk and how many lines they have, as a value.
pub struct TalkerModel {
    pub speaker: Seq<char>,
    pub talk: int,
    pub lines: nat,
}

impl View for Talker {
    type V = TalkerModel;

    open spec fn view(&self) -> TalkerModel {
        TalkerModel { speaker: self.speaker@, talk: self.talk as int, lines: self.lines as nat }
    }
}

pub open spec fn talker_views(v: Seq<Talker>) -> Seq<TalkerModel> {
    v.map_values(|t: Talker| t@)
}

/// The keys that put the longest talker first.
pub open spec fn keys_of(segs: Seq<Segment>, spks: Seq<Seq<char>>) -> Seq<int> {
    spks.map_values(|s: Seq<char>| -talk(segs, s))
}

/// The speakers by how long they talk; those who talk equally long in the order of `spks`.
pub open spec fn ranking(segs: Seq<Segment>, spks: Seq<Seq<char>>) -> Seq<TalkerModel> {
    let o = rank::stable_order(keys_of(segs, spks));
    Seq::new(
        o.len(),
        |i: int|
            TalkerModel {
                speaker: spks[o[i]],
                talk: talk(segs, spks[o[i]]),
                lines: lines(segs, spks[o[i]]),
            },
    )
}

fn measure(segs: &Vec<Segment>, who: &str) -> (r: (i128, usize))
    requires
        project::all_timed(segs@),
    ensures
        r.0 == talk(segs@, who@),
        r.1 == lines(segs@, who@),
        0 <= r.0 <= segs@.len() * (2 * project::TIME_LIMIT),
{
    let mut t: i128 = 0;
    let mut n: usize = 0;
    assert(segs@.take(0) =~= Seq::empty());
    for i in 0..segs.len()
        invariant
            project::all_timed(segs@),
            t == talk(segs@.take(i as int), who@),
            n == lines(segs@.take(i as int), who@),
            n <= i,
            0 <= t <= i * (2 * project::TIME_LIMIT),
    {
        assert(segs@.take(i + 1).drop_last() =~= segs@.take(i as int));
        assert(segs@[i as int].timed());
        let s = &segs[i];
        assert((i + 1) * (2 * project::TIME_LIMIT) == i * (2 * project::TIME_LIMIT) + 2
            * project::TIME_LIMIT) by (nonlinear_arith);
        assert(i * (2 * project::TIME_LIMIT) <= 0xffff_ffff_ffff_ffff * 200_000_000_000_000)
            by (nonlinear_arith)
            requires
                i <= 0xffff_ffff_ffff_ffff,
                2 * project::TIME_LIMIT == 200_000_000_000_000,
        ;
        if text::same(s.speaker_key().as_str(), who) {
            if s.end > s.start {
                t += (s.end - s.start) as i128;
            }
            n += 1;
        }
    }
    assert(segs@.take(segs@.len() as int) =~= segs@);
    (t, n)
}

/// The speakers by how long they talk, the longest first; those who talk equally long by their names.
pub fn speakers_by_talktime(segs: &Vec<Segment>) -> (r: Vec<Talker>)
    requires
        project::all_timed(segs@),
    ensures
        exists|spks: Seq<Seq<char>>| #[trigger]
            order::sorted_set_of(spks, voices::speaker_list(segs@)) && talker_views(r@) == ranking(
                segs@,
                spks,
            ),
{
    let spks = voices::speakers_of(segs);
    let ghost sv = text::views(spks@);
    let mut found: Vec<(i128, usize)> = Vec::new();
    let mut keys: Vec<i128> = Vec::new();
    for i in 0..spks.len()
        invariant
            project::all_timed(segs@),
            sv == text::views(spks@),
            found@.len() == i,
            keys@.len() == i,
            forall|j: int|
                0 <= j < i ==> (#[trigger] found@[j]).0 == talk(segs@, sv[j]) && found@[j].1
                    == lines(segs@, sv[j]),
            forall|j: int| 0 <= j < i ==> #[trigger] keys@[j] == -talk(segs@, sv[j]),
    {
        let m = measure(segs, spks[i].as_str());
        keys.push(-m.0);
        found.push(m);
    }
    assert(rank::ints(keys@) =~= keys_of(segs@, sv));
    let order = rank::stable_sort(&keys);
    let ghost o = rank::indices(order@);
    let mut out: Vec<Talker> = Vec::new();
    for i in 0..order.len()
        invariant
            sv == text::views(spks@),
            o == rank::indices(order@),
            rank::is_order(o, keys_of(segs@, sv)),
            found@.len() == spks@.len(),
            keys_of(segs@, sv).len() == spks@.len(),
            order@.len() == spks@.len(),
            forall|j: int|
                0 <= j < found@.len() ==> (#[trigger] found@[j]).0 == talk(segs@, sv[j]) && found@[j].1
                    == lines(segs@, sv[j]),
            out@.len() == i,
            forall|j: int|
                0 <= j < i ==> (#[trigger] out@[j])@ == (TalkerModel {
                    speaker: sv[o[j]],
                    talk: talk(segs@, sv[o[j]]),
                    lines: lines(segs@, sv[o[j]]),
                }),
    {
        let k: usize = order[i];
        assert(o[i as int] == k);
        assert(k < spks@.len());
        assert(sv[k as int] == spks@[k as int]@);
        out.push(Talker { speaker: spks[k].clone(), talk: found[k].0, lines: found[k].1 });
    }
    assert(talker_views(out@) =~= ranking(segs@, sv));
    out
}

/// Who talks longer comes first, and of two who talk equally long the one whose name comes first.
pub proof fn law_longest_talker_first(segs: Seq<Segment>, spks: Seq<Seq<char>>, i: int, j: int)
    requires
        order::ascending(spks),
        0 <= i < j < ranking(segs, spks).len(),
    ensures
        ranking(segs, spks)[i].talk > ranking(segs, spks)[j].talk || (ranking(segs, spks)[i].talk
            == ranking(segs, spks)[j].talk && order::before(
            ranking(segs, spks)[i].speaker,
            ranking(segs, spks)[j].speaker,
        )),
{
    let keys = keys_of(segs, spks);
    rank::law_stable_order(keys);
    let o = rank::stable_order(keys);
    assert(keys[o[i]] == -talk(segs, spks[o[i]]));
    assert(keys[o[j]] == -talk(segs, spks[o[j]]));
}

/// Every speaker is ranked once.
pub proof fn law_everyone_is_ranked(segs: Seq<Segment>, spks: Seq<Seq<char>>, k: int)
    requires
        0 <= k < spks.len(),
    ensures
        ranking(segs, spks).len() == spks.len(),
        exists|i: int|
            0 <= i < spks.len() && (#[trigger] ranking(segs, spks)[i]).speaker == spks[k],
{
    let keys = keys_of(segs, spks);
    rank::law_stable_order(keys);
    rank::law_order_covers(keys);
    let o = rank::stable_order(keys);
    assert(o.contains(k));
    let i = choose|i: int| 0 <= i < o.len() && o[i] == k;
    assert(ranking(segs, spks)[i].speaker == spks[k]);
}

/// How long somebody talks, and how many lines they have, is counted over their own lines alone.
pub proof fn law_talk_is_counted_line_by_line(segs: Seq<Segment>, s: Segment, who: Seq<char>)
    ensures
        talk(Seq::empty(), who) == 0,
        lines(Seq::empty(), who) == 0,
        s.who() != who ==> talk(segs.push(s), who) == talk(segs, who) && lines(segs.push(s), who) == lines(
            segs,
            who,
        ),
        s.who() == who ==> lines(segs.push(s), who) == lines(segs, who) + 1,
        s.who() == who && s.start <= s.end ==> talk(segs.push(s), who) == talk(segs, who) + (s.end - s.start),
        s.who() == who && s.end <= s.start ==> talk(segs.push(s), who) == talk(segs, who),
{
    assert(segs.push(s).drop_last() =~= segs);
}

/// Each one in the ranking is told with how long they talk and how many lines they have.
pub proof fn law_ranking_tells_the_talk(segs: Seq<Segment>, spks: Seq<Seq<char>>, i: int)
    requires
        0 <= i < ranking(segs, spks).len(),
    ensures
        ({
            let t = ranking(segs, spks)[i];
            spks.contains(t.speaker) && t.talk == talk(segs, t.speaker) && t.lines == lines(segs, t.speaker)
        }),
{
    let keys = keys_of(segs, spks);
    rank::law_stable_order(keys);
    let o = rank::stable_order(keys);
    assert(0 <= o[i] < spks.len());
    assert(ranking(segs, spks)[i].speaker == spks[o[i]]);
}

} // verus!
