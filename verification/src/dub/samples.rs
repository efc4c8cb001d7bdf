//! The samples that a voice is modelled on: which lines of a speaker they are cut from, which of them
//! is used, and what is said in it. Times are whole microseconds.

use super::similarity;
use crate::project::all_timed;
use crate::project::time_ok;
use crate::project::Segment;
use crate::project::TIME_LIMIT;
use crate::rank;
use crate::text;
use crate::words;
use vstd::prelude::*;

verus! {

/// The length from which and up to which a sample is best.
pub const REF_IDEAL_LO: i64 = 7_000_000;

pub const REF_IDEAL_HI: i64 = 12_000_000;

/// What is cut off a sample at each end.
pub const REF_EDGE_TRIM: i64 = 1_000_000;

/// What must be left of a sample.
pub const REF_MIN_AFTER_TRIM: i64 = 2_500_000;

/// A speaker with more lines than this is not sampled at the first of them.
pub const REF_DROP_FIRST_ABOVE: usize = 4;

/// Indices into the transcript.
pub open spec fn indices_ok(ix: Seq<usize>, segs: Seq<Segment>) -> bool {
    forall|i: int| 0 <= i < ix.len() ==> (#[trigger] ix[i]) < segs.len()
}

/// No other speaker is heard during the line number `k`, among the lines `ix`.
pub open spec fn clean(segs: Seq<Segment>, ix: Seq<usize>, k: int) -> bool {
    forall|i: int|
        0 <= i < ix.len() ==> {
            let o = segs[#[trigger] ix[i] as int];
            o.who() == segs[k].who() || o.start >= segs[k].end || o.end <= segs[k].start
        }
}

/// Whether no other speaker is heard during the line.
pub fn seg_is_clean(segs: &Vec<Segment>, ix: &Vec<usize>, k: usize) -> (r: bool)
    requires
        indices_ok(ix@, segs@),
        k < segs@.len(),
    ensures
        r == clean(segs@, ix@, k as int),
{
    let key = segs[k].speaker_key();
    let (start, end): (i64, i64) = (segs[k].start, segs[k].end);
    for i in 0..ix.len()
        invariant
            indices_ok(ix@, segs@),
            k < segs@.len(),
            key@ == segs@[k as int].who(),
            start == segs@[k as int].start,
            end == segs@[k as int].end,
            forall|j: int|
                0 <= j < i ==> {
                    let o = segs@[#[trigger] ix@[j] as int];
                    o.who() == segs@[k as int].who() || o.start >= end || o.end <= start
                },
    {
        let o = &segs[ix[i]];
        let theirs = o.speaker_key();
        if !text::same(theirs.as_str(), key.as_str()) && o.start < end && o.end > start {
            assert(!({
                let o = segs@[ix@[i as int] as int];
                o.who() == segs@[k as int].who() || o.start >= end || o.end <= start
            }));
            return false;
        }
    }
    true
}

/// Of the first `n` of the lines `ix`, those of the speaker `who`.
pub open spec fn lines_of(segs: Seq<Segment>, ix: Seq<usize>, who: Seq<char>, n: int) -> Seq<usize>
    decreases n,
{
    if n <= 0 {
        Seq::empty()
    } else if segs[ix[n - 1] as int].who() == who {
        lines_of(segs, ix, who, n - 1).push(ix[n - 1])
    } else {
        lines_of(segs, ix, who, n - 1)
    }
}

fn speaker_lines(segs: &Vec<Segment>, ix: &Vec<usize>, who: &str) -> (r: Vec<usize>)
    requires
        indices_ok(ix@, segs@),
    ensures
        r@ == lines_of(segs@, ix@, who@, ix@.len() as int),
        indices_ok(r@, segs@),
{
    let mut out: Vec<usize> = Vec::new();
    for n in 0..ix.len()
        invariant
            indices_ok(ix@, segs@),
            indices_ok(out@, segs@),
            out@ == lines_of(segs@, ix@, who@, n as int),
    {
        let k: usize = ix[n];
        if text::same(segs[k].speaker_key().as_str(), who) {
            out.push(k);
        }
    }
    out
}

pub open spec fn length(s: Segment) -> int {
    s.end - s.start
}

fn length_of(s: &Segment) -> (r: i64)
    requires
        s.timed(),
    ensures
        r == length(*s),
        -2 * TIME_LIMIT <= r <= 2 * TIME_LIMIT,
{
    s.end - s.start
}

// ── One steady window ───────────────────────────────────────────────────────

/// How good a line is as a sample: a clean one before any other, then one of the best length, then the
/// longer one.
pub open spec fn window_worth(segs: Seq<Segment>, ix: Seq<usize>, k: int) -> int {
    let d = if length(segs[k]) < 0 {
        0
    } else {
        length(segs[k])
    };
    let in_band = REF_IDEAL_LO <= d <= REF_IDEAL_HI;
    (if clean(segs, ix, k) {
        2_000_000_000_000_000int
    } else {
        0
    }) + (if in_band {
        1_000_000_000_000_000 + d - REF_IDEAL_HI
    } else {
        d
    })
}

/// The last of the first `n` of `pool` that none of them surpasses.
pub open spec fn best_of(worth: spec_fn(int) -> int, pool: Seq<usize>, n: int) -> int
    decreases n,
{
    if n <= 1 {
        pool[0] as int
    } else {
        let b = best_of(worth, pool, n - 1);
        if worth(pool[n - 1] as int) >= worth(b) {
            pool[n - 1] as int
        } else {
            b
        }
    }
}

/// The lines among which a speaker's sample is sought.
pub open spec fn pool_of(mine: Seq<usize>) -> Seq<usize> {
    if mine.len() > REF_DROP_FIRST_ABOVE {
        mine.skip(1)
    } else {
        mine
    }
}

/// A stretch of a line to sample.
#[derive(Clone, Copy, Debug, PartialEq, Eq, Structural)]
pub struct RefWindow {
    pub start: i64,
    pub end: i64,
    /// The line it is cut from.
    pub line: usize,
    /// It is the whole line.
    pub exact_cover: bool,
}

pub open spec fn sample_cap(ref_len: int) -> int {
    let a = if ref_len < REF_IDEAL_HI {
        ref_len
    } else {
        REF_IDEAL_HI as int
    };
    if a > REF_MIN_AFTER_TRIM {
        a
    } else {
        REF_MIN_AFTER_TRIM as int
    }
}

fn cap_for(ref_len: i64) -> (r: i64)
    ensures
        r == sample_cap(ref_len as int),
        REF_MIN_AFTER_TRIM <= r <= REF_IDEAL_HI,
{
    let a: i64 = if ref_len < REF_IDEAL_HI {
        ref_len
    } else {
        REF_IDEAL_HI
    };
    if a > REF_MIN_AFTER_TRIM {
        a
    } else {
        REF_MIN_AFTER_TRIM
    }
}

/// The stretch of the line `s` that is sampled: without its edges where enough is left, and no longer
/// than wanted.
pub open spec fn window_of(s: Segment, ref_len: int) -> (int, int, bool) {
    let d = if length(s) < 0 {
        0
    } else {
        length(s)
    };
    let trims = d - 2 * REF_EDGE_TRIM >= REF_MIN_AFTER_TRIM;
    let a = if trims {
        s.start + REF_EDGE_TRIM
    } else {
        s.start as int
    };
    let b = if trims {
        s.end - REF_EDGE_TRIM
    } else {
        s.end as int
    };
    let caps = b - a > sample_cap(ref_len);
    (
        a,
        if caps {
            a + sample_cap(ref_len)
        } else {
            b
        },
        !trims && !caps,
    )
}

fn worth_of(segs: &Vec<Segment>, ix: &Vec<usize>, k: usize) -> (r: i64)
    requires
        indices_ok(ix@, segs@),
        all_timed(segs@),
        k < segs@.len(),
    ensures
        r == window_worth(segs@, ix@, k as int),
{
    assert(segs@[k as int].timed());
    let l: i64 = length_of(&segs[k]);
    let d: i64 = if l < 0 {
        0
    } else {
        l
    };
    let c: i64 = if seg_is_clean(segs, ix, k) {
        2_000_000_000_000_000
    } else {
        0
    };
    let b: i64 = if REF_IDEAL_LO <= d && d <= REF_IDEAL_HI {
        1_000_000_000_000_000 + d - REF_IDEAL_HI
    } else {
        d
    };
    c + b
}

/// The stretch that is sampled for the speaker `who`, from the lines `ix`; nothing for one who has no
/// lines.
pub fn pick_ref_window(segs: &Vec<Segment>, ix: &Vec<usize>, who: &str, ref_len: i64) -> (r: Option<
    RefWindow,
>)
    requires
        indices_ok(ix@, segs@),
        all_timed(segs@),
    ensures
        ({
            let mine = lines_of(segs@, ix@, who@, ix@.len() as int);
            match r {
                None => mine.len() == 0,
                Some(w) => {
                    let pool = pool_of(mine);
                    let k = best_of(
                        |k: int| window_worth(segs@, ix@, k),
                        pool,
                        pool.len() as int,
                    );
                    &&& mine.len() > 0
                    &&& w.line == k
                    &&& (w.start as int, w.end as int, w.exact_cover) == window_of(
                        segs@[k],
                        ref_len as int,
                    )
                },
            }
        }),
{
    let mine = speaker_lines(segs, ix, who);
    if mine.len() == 0 {
        return None;
    }
    let from: usize = if mine.len() > REF_DROP_FIRST_ABOVE {
        1
    } else {
        0
    };
    let ghost pool = pool_of(mine@);
    let ghost worth = |k: int| window_worth(segs@, ix@, k);
    assert(pool =~= mine@.skip(from as int));
    let mut best: usize = mine[from];
    let mut top: i64 = worth_of(segs, ix, best);
    let n: usize = mine.len();
    assert(pool[0] == mine@[from as int]);
    for i in from + 1..n
        invariant
            from < n == mine@.len(),
            indices_ok(ix@, segs@),
            indices_ok(mine@, segs@),
            all_timed(segs@),
            pool == mine@.skip(from as int),
            worth == (|k: int| window_worth(segs@, ix@, k)),
            best < segs@.len(),
            best == best_of(worth, pool, i - from),
            top == window_worth(segs@, ix@, best as int),
    {
        let k: usize = mine[i];
        assert(pool[i - from] == k);
        let w: i64 = worth_of(segs, ix, k);
        assert(worth(k as int) == w);
        assert(worth(best as int) == top);
        if w >= top {
            best = k;
            top = w;
        }
    }
    let s = &segs[best];
    assert(segs@[best as int].timed());
    let cap: i64 = cap_for(ref_len);
    let l: i64 = length_of(s);
    let d: i64 = if l < 0 {
        0
    } else {
        l
    };
    let trims = d - 2 * REF_EDGE_TRIM >= REF_MIN_AFTER_TRIM;
    let a: i64 = if trims {
        s.start + REF_EDGE_TRIM
    } else {
        s.start
    };
    let b: i64 = if trims {
        s.end - REF_EDGE_TRIM
    } else {
        s.end
    };
    let caps = b - a > cap;
    Some(
        RefWindow {
            start: a,
            end: if caps {
                a + cap
            } else {
                b
            },
            line: best,
            exact_cover: !trims && !caps,
        },
    )
}

// ── A sample of the line itself ─────────────────────────────────────────────

/// Whether a line is its own sample: where that is wanted and no voice was chosen, and the line is
/// long enough and clean.
pub open spec fn own_sample(
    segs: Seq<Segment>,
    ix: Seq<usize>,
    k: int,
    wanted: bool,
    use_pack: bool,
) -> bool {
    wanted && !use_pack && length(segs[k]) >= REF_MIN_AFTER_TRIM && clean(segs, ix, k)
}

/// The stretch of a line that is its own sample, and what is said in it where that is known.
#[derive(Clone, Debug)]
pub struct OwnSample {
    pub start: i64,
    pub end: i64,
    pub text: Option<String>,
}

/// What is said in the line's own sample: the line, where it is sampled whole.
pub open spec fn own_text(s: Segment, ref_len: int) -> Option<Seq<char>> {
    let t = text::trimmed(s.src_text@);
    if length(s) > sample_cap(ref_len) + 50_000 || t.len() == 0 {
        None
    } else {
        Some(t)
    }
}

/// Where the line's own sample ends.
pub open spec fn own_end(s: Segment, ref_len: int) -> int {
    if s.end < s.start + sample_cap(ref_len) {
        s.end as int
    } else {
        s.start + sample_cap(ref_len)
    }
}

/// The line's own sample, where it is one.
pub fn own_sample_of(
    segs: &Vec<Segment>,
    ix: &Vec<usize>,
    k: usize,
    wanted: bool,
    use_pack: bool,
    ref_len: i64,
) -> (r: Option<OwnSample>)
    requires
        indices_ok(ix@, segs@),
        all_timed(segs@),
        k < segs@.len(),
    ensures
        (r is Some) == own_sample(segs@, ix@, k as int, wanted, use_pack),
        r matches Some(o) ==> {
            &&& o.start == segs@[k as int].start
            &&& o.end == own_end(segs@[k as int], ref_len as int)
            &&& (match o.text {
                Some(t) => Some(t@),
                None => None,
            }) == own_text(segs@[k as int], ref_len as int)
        },
{
    if !wanted || use_pack {
        return None;
    }
    let s = &segs[k];
    assert(segs@[k as int].timed());
    let d: i64 = length_of(s);
    if d < REF_MIN_AFTER_TRIM || !seg_is_clean(segs, ix, k) {
        return None;
    }
    let cap: i64 = cap_for(ref_len);
    let t = text::trim(s.src_text.as_str());
    let end: i64 = if s.end < s.start + cap {
        s.end
    } else {
        s.start + cap
    };
    let said = if d > cap + 50_000 || t.as_str().is_empty() {
        None
    } else {
        Some(t)
    };
    Some(OwnSample { start: s.start, end, text: said })
}

// ── Candidates ──────────────────────────────────────────────────────────────

pub open spec fn at_least(x: int, lo: int) -> int {
    if x < lo {
        lo
    } else {
        x
    }
}

/// How many characters a line has.
pub open spec fn char_count(s: Segment) -> int {
    text::trimmed(s.src_text@).len() as int
}

/// A line that can be sampled: long enough, not longer than wanted, and with at least six characters a
/// second.
pub open spec fn usable(s: Segment, ref_len: int) -> bool {
    fits(s, ref_len) && char_count(s) * 1_000_000 >= 6 * at_least(length(s), 100_000)
}

/// A line whose length suits.
pub open spec fn fits(s: Segment, ref_len: int) -> bool {
    REF_MIN_AFTER_TRIM <= length(s) <= ref_len + 50_000
}

/// How close the speech of a line is to fourteen characters a second, from nothing to fourteen times
/// its length.
pub open spec fn closeness(chars: int, d: int) -> int {
    let off = chars * 1_000_000 - 14 * d;
    let away = if off < 0 {
        -off
    } else {
        off
    };
    if away > 14 * d {
        0
    } else {
        14 * d - away
    }
}

/// How good the length of a line is, of thirty million: best from five to nine seconds.
pub open spec fn length_worth(len: int) -> int {
    let w = if 5_000_000 <= len <= 9_000_000 {
        30_000_000
    } else if len < 5_000_000 {
        6 * len
    } else {
        5 * (15_000_000 - len)
    };
    if w < 9_000_000 {
        9_000_000
    } else if w > 30_000_000 {
        30_000_000
    } else {
        w
    }
}

/// How good a line is as a sample, of a thousand million: the density of its speech times its length.
pub open spec fn score(s: Segment) -> int {
    let d = at_least(length(s), 100_000);
    closeness(char_count(s), d) * length_worth(length(s)) * 50 / (21 * d)
}

fn count_chars(s: &Segment) -> (r: usize)
    ensures
        r == char_count(*s),
{
    text::chars_of(text::trim(s.src_text.as_str()).as_str()).len()
}

fn is_usable(s: &Segment, ref_len: i64) -> (r: bool)
    requires
        s.timed(),
        time_ok(ref_len),
    ensures
        r == usable(*s, ref_len as int),
{
    let l: i64 = length_of(s);
    if l < REF_MIN_AFTER_TRIM || l > ref_len + 50_000 {
        return false;
    }
    let d: i64 = if l < 100_000 {
        100_000
    } else {
        l
    };
    count_chars(s) as i128 * 1_000_000 >= 6 * (d as i128)
}

fn score_of(s: &Segment) -> (r: i64)
    requires
        s.timed(),
    ensures
        r == score(*s),
        0 <= r <= 1_000_000_000,
{
    let l: i128 = length_of(s) as i128;
    let d: i128 = if l < 100_000 {
        100_000
    } else {
        l
    };
    let off: i128 = count_chars(s) as i128 * 1_000_000 - 14 * d;
    let away: i128 = if off < 0 {
        -off
    } else {
        off
    };
    let near: i128 = if away > 14 * d {
        0
    } else {
        14 * d - away
    };
    let w: i128 = if 5_000_000 <= l && l <= 9_000_000 {
        30_000_000
    } else if l < 5_000_000 {
        6 * l
    } else {
        5 * (15_000_000 - l)
    };
    let w: i128 = if w < 9_000_000 {
        9_000_000
    } else if w > 30_000_000 {
        30_000_000
    } else {
        w
    };
    assert(0 <= near * w <= (14 * d) * 30_000_000) by (nonlinear_arith)
        requires
            0 <= near <= 14 * d,
            0 <= w <= 30_000_000,
    ;
    let top: i128 = near * w * 50;
    let q: i128 = top / (21 * d);
    assert(0 <= q <= 1_000_000_000) by (nonlinear_arith)
        requires
            q == (top as int) / (21 * d),
            0 <= top <= 1_000_000_000 * (21 * d),
            d >= 100_000,
    ;
    q as i64
}

/// Of the first `n` of `mine`, the lines that can be sampled.
pub open spec fn usable_of(segs: Seq<Segment>, mine: Seq<usize>, ref_len: int, n: int) -> Seq<usize>
    decreases n,
{
    if n <= 0 {
        Seq::empty()
    } else if usable(segs[mine[n - 1] as int], ref_len) {
        usable_of(segs, mine, ref_len, n - 1).push(mine[n - 1])
    } else {
        usable_of(segs, mine, ref_len, n - 1)
    }
}

/// Of the first `n` of `mine`, the lines whose length suits.
pub open spec fn fitting_of(segs: Seq<Segment>, mine: Seq<usize>, ref_len: int, n: int) -> Seq<
    usize,
>
    decreases n,
{
    if n <= 0 {
        Seq::empty()
    } else if fits(segs[mine[n - 1] as int], ref_len) {
        fitting_of(segs, mine, ref_len, n - 1).push(mine[n - 1])
    } else {
        fitting_of(segs, mine, ref_len, n - 1)
    }
}

pub open spec fn shortfalls(segs: Seq<Segment>, ix: Seq<usize>) -> Seq<int> {
    ix.map_values(|k: usize| -score(segs[k as int]))
}

/// The lines from which a speaker's sample is chosen: the three best that can be sampled; failing that,
/// the longest whose length suits; failing that, the longest.
pub open spec fn candidates_of(segs: Seq<Segment>, mine: Seq<usize>, ref_len: int) -> Seq<usize> {
    let good = usable_of(segs, mine, ref_len, mine.len() as int);
    if good.len() > 0 {
        let ranked = rank::stable_order(shortfalls(segs, good)).map_values(|i: int| good[i]);
        if ranked.len() > 3 {
            ranked.take(3)
        } else {
            ranked
        }
    } else {
        let fitting = fitting_of(segs, mine, ref_len, mine.len() as int);
        if fitting.len() > 0 {
            seq![
                best_of(|k: int| length(segs[k]), fitting, fitting.len() as int) as usize,
            ]
        } else if mine.len() > 0 {
            seq![best_of(|k: int| length(segs[k]), mine, mine.len() as int) as usize]
        } else {
            Seq::empty()
        }
    }
}

fn longest(segs: &Vec<Segment>, pool: &Vec<usize>) -> (r: usize)
    requires
        pool@.len() > 0,
        indices_ok(pool@, segs@),
        all_timed(segs@),
    ensures
        r == best_of(|k: int| length(segs@[k]), pool@, pool@.len() as int),
        r < segs@.len(),
{
    let ghost worth = |k: int| length(segs@[k]);
    let mut best: usize = pool[0];
    assert(segs@[best as int].timed());
    let mut top: i64 = length_of(&segs[best]);
    let n: usize = pool.len();
    for i in 1..n
        invariant
            n == pool@.len(),
            indices_ok(pool@, segs@),
            all_timed(segs@),
            worth == (|k: int| length(segs@[k])),
            best < segs@.len(),
            best == best_of(worth, pool@, i as int),
            top == length(segs@[best as int]),
    {
        let k: usize = pool[i];
        assert(segs@[k as int].timed());
        let l: i64 = length_of(&segs[k]);
        assert(worth(k as int) == l && worth(best as int) == top);
        if l >= top {
            best = k;
            top = l;
        }
    }
    best
}

/// The lines from which the sample of the speaker `who` is chosen, the best first.
pub fn candidates(segs: &Vec<Segment>, ix: &Vec<usize>, who: &str, ref_len: i64) -> (r: Vec<usize>)
    requires
        indices_ok(ix@, segs@),
        all_timed(segs@),
        time_ok(ref_len),
    ensures
        r@ == candidates_of(
            segs@,
            lines_of(segs@, ix@, who@, ix@.len() as int),
            ref_len as int,
        ),
        indices_ok(r@, segs@),
        r@.len() <= 3,
{
    let mine = speaker_lines(segs, ix, who);
    let mut good: Vec<usize> = Vec::new();
    let mut fitting: Vec<usize> = Vec::new();
    let mut keys: Vec<i128> = Vec::new();
    for n in 0..mine.len()
        invariant
            indices_ok(mine@, segs@),
            indices_ok(good@, segs@),
            indices_ok(fitting@, segs@),
            all_timed(segs@),
            time_ok(ref_len),
            good@ == usable_of(segs@, mine@, ref_len as int, n as int),
            fitting@ == fitting_of(segs@, mine@, ref_len as int, n as int),
            keys@.len() == good@.len(),
            forall|j: int|
                0 <= j < keys@.len() ==> (#[trigger] keys@[j]) == -score(segs@[good@[j] as int]),
    {
        let k: usize = mine[n];
        let s = &segs[k];
        assert(segs@[k as int].timed());
        let l: i64 = length_of(s);
        if REF_MIN_AFTER_TRIM <= l && l <= ref_len + 50_000 {
            fitting.push(k);
        }
        if is_usable(s, ref_len) {
            keys.push(-(score_of(s) as i128));
            good.push(k);
        }
    }
    let mut out: Vec<usize> = Vec::new();
    if good.len() > 0 {
        let ghost ranked = rank::stable_order(shortfalls(segs@, good@)).map_values(
            |i: int| good@[i],
        );
        assert(rank::ints(keys@) =~= shortfalls(segs@, good@));
        let order = rank::stable_sort(&keys);
        let m: usize = if order.len() < 3 {
            order.len()
        } else {
            3
        };
        for i in 0..m
            invariant
                m <= order@.len(),
                m <= 3,
                indices_ok(good@, segs@),
                indices_ok(out@, segs@),
                order@.len() == good@.len(),
                rank::indices(order@) == rank::stable_order(shortfalls(segs@, good@)),
                rank::is_order(rank::indices(order@), shortfalls(segs@, good@)),
                ranked == rank::stable_order(shortfalls(segs@, good@)).map_values(
                    |i: int| good@[i],
                ),
                out@ == ranked.take(i as int),
        {
            assert(rank::indices(order@)[i as int] == order@[i as int]);
            out.push(good[order[i]]);
            assert(ranked.take(i + 1) =~= ranked.take(i as int).push(ranked[i as int]));
        }
        assert(ranked.take(ranked.len() as int) =~= ranked);
    } else if fitting.len() > 0 {
        out.push(longest(segs, &fitting));
    } else if mine.len() > 0 {
        out.push(longest(segs, &mine));
    }
    assert(out@ =~= candidates_of(segs@, mine@, ref_len as int));
    out
}

// ── Choosing among the candidates ───────────────────────────────────────────

/// Whether a candidate says what its line says. One that could not be transcribed is trusted.
pub open spec fn says_its_line(line: Seq<char>, heard: Option<Seq<char>>) -> bool {
    match heard {
        Some(h) => {
            let s = similarity::similarity(line, h);
            2 * s.0 >= s.1
        },
        None => true,
    }
}

/// The index of the first candidate, at or after `from`, that is not `skip` and says its line.
pub open spec fn first_good(good: Seq<bool>, skip: int, from: int) -> Option<int>
    decreases good.len() - from,
{
    if from < 0 || from >= good.len() {
        None
    } else if from != skip && good[from] {
        Some(from)
    } else {
        first_good(good, skip, from + 1)
    }
}

/// Which candidate becomes the sample: the first that says its line, else the first.
pub open spec fn main_of(good: Seq<bool>) -> int {
    match first_good(good, -1, 0) {
        Some(i) => i,
        None => 0,
    }
}

/// Which candidate becomes the other sample: the next that says its line, else the next.
pub open spec fn other_of(good: Seq<bool>) -> Option<int> {
    let main = main_of(good);
    match first_good(good, main, 0) {
        Some(i) => Some(i),
        None => if main != 0 {
            Some(0int)
        } else if good.len() > 1 {
            Some(1int)
        } else {
            None
        },
    }
}

/// What is said in a sample: what was heard, else what its line says.
pub open spec fn said_in(line: Seq<char>, heard: Option<Seq<char>>) -> Option<Seq<char>> {
    match heard {
        Some(h) if text::trimmed(h).len() > 0 => Some(h),
        _ => if text::trimmed(line).len() > 0 {
            Some(text::trimmed(line))
        } else {
            None
        },
    }
}

/// The samples of a speaker.
#[derive(Clone, Debug)]
pub struct SampleChoice {
    pub main: usize,
    pub main_text: Option<String>,
    pub other: Option<usize>,
    pub other_text: Option<String>,
    /// Some candidate says its line.
    pub verified: bool,
}

pub open spec fn opt(s: Option<String>) -> Option<Seq<char>> {
    match s {
        Some(t) => Some(t@),
        None => None,
    }
}

pub open spec fn opts(s: Seq<Option<String>>) -> Seq<Option<Seq<char>>> {
    s.map_values(|x: Option<String>| opt(x))
}

pub open spec fn matches_of(lines: Seq<Seq<char>>, heard: Seq<Option<Seq<char>>>) -> Seq<bool> {
    Seq::new(lines.len(), |i: int| says_its_line(lines[i], heard[i]))
}

fn find_good(good: &Vec<bool>, skip: Option<usize>) -> (r: Option<usize>)
    ensures
        match r {
            Some(i) => i < good@.len() && first_good(
                good@,
                match skip {
                    Some(k) => k as int,
                    None => -1,
                },
                0,
            ) == Some(i as int),
            None => first_good(
                good@,
                match skip {
                    Some(k) => k as int,
                    None => -1,
                },
                0,
            ) is None,
        },
{
    let ghost sk = match skip {
        Some(k) => k as int,
        None => -1,
    };
    for i in 0..good.len()
        invariant
            sk == (match skip {
                Some(k) => k as int,
                None => -1,
            }),
            first_good(good@, sk, 0) == first_good(good@, sk, i as int),
    {
        let skipped = match skip {
            Some(k) => k == i,
            None => false,
        };
        if !skipped && good[i] {
            return Some(i);
        }
    }
    None
}

fn said(line: &str, heard: &Option<String>) -> (r: Option<String>)
    ensures
        opt(r) == said_in(line@, opt(*heard)),
{
    match heard {
        Some(h) => {
            if !text::blank(h.as_str()) {
                return Some(h.clone());
            }
        },
        None => {},
    }
    let t = text::trim(line);
    if t.as_str().is_empty() {
        None
    } else {
        Some(t)
    }
}

/// The samples of a speaker, given what their candidates' lines say and what was heard in them.
pub fn choose_samples(lines: &Vec<String>, heard: &Vec<Option<String>>) -> (r: SampleChoice)
    requires
        lines@.len() > 0,
        lines@.len() == heard@.len(),
    ensures
        ({
            let good = matches_of(text::views(lines@), opts(heard@));
            &&& r.main == main_of(good)
            &&& r.main < lines@.len()
            &&& opt(r.main_text) == said_in(lines@[r.main as int]@, opt(heard@[r.main as int]))
            &&& (match r.other {
                Some(i) => Some(i as int),
                None => None,
            }) == other_of(good)
            &&& match r.other {
                Some(i) => i < lines@.len() && i != r.main && opt(r.other_text) == said_in(
                    lines@[i as int]@,
                    opt(heard@[i as int]),
                ),
                None => r.other_text is None,
            }
            &&& r.verified == (first_good(good, -1, 0) is Some)
        }),
{
    let mut good: Vec<bool> = Vec::new();
    let ghost target = matches_of(text::views(lines@), opts(heard@));
    for i in 0..lines.len()
        invariant
            lines@.len() == heard@.len(),
            target == matches_of(text::views(lines@), opts(heard@)),
            good@.len() == i,
            forall|j: int| 0 <= j < i ==> good@[j] == target[j],
    {
        assert(text::views(lines@)[i as int] == lines@[i as int]@);
        assert(opts(heard@)[i as int] == opt(heard@[i as int]));
        let ok = match &heard[i] {
            Some(h) => similarity::is_good(
                similarity::qc_similarity(lines[i].as_str(), h.as_str()),
            ),
            None => true,
        };
        good.push(ok);
    }
    assert(good@ =~= target);
    let first = find_good(&good, None);
    let (main, verified): (usize, bool) = match first {
        Some(i) => (i, true),
        None => (0, false),
    };
    let other: Option<usize> = match find_good(&good, Some(main)) {
        Some(i) => Some(i),
        None => if main != 0 {
            Some(0)
        } else if lines.len() > 1 {
            Some(1)
        } else {
            None
        },
    };
    proof {
        lemma_first_good(good@, main as int, 0);
    }
    let main_text = said(lines[main].as_str(), &heard[main]);
    let other_text = match other {
        Some(i) => said(lines[i].as_str(), &heard[i]),
        None => None,
    };
    SampleChoice { main, main_text, other, other_text, verified }
}

proof fn lemma_first_good(good: Seq<bool>, skip: int, from: int)
    requires
        from >= 0,
    ensures
        first_good(good, skip, from) matches Some(i) ==> from <= i < good.len() && i != skip
            && good[i],
    decreases good.len() - from,
{
    if from < good.len() && !(from != skip && good[from]) {
        lemma_first_good(good, skip, from + 1);
    }
}

/// What a transcript says: the texts of its parts, as far as they say anything, with a space between.
pub open spec fn said_parts(parts: Seq<Seq<char>>) -> Seq<Seq<char>>
    decreases parts.len(),
{
    if parts.len() == 0 {
        parts
    } else if text::trimmed(parts.last()).len() == 0 {
        said_parts(parts.drop_last())
    } else {
        said_parts(parts.drop_last()).push(text::trimmed(parts.last()))
    }
}

/// What a transcript says; nothing if it says nothing.
pub fn transcript_text(parts: &Vec<String>) -> (r: Option<String>)
    ensures
        ({
            let t = words::joined(said_parts(text::views(parts@)), " "@);
            opt(r) == if t.len() == 0 {
                None
            } else {
                Some(t)
            }
        }),
{
    let ghost pv = text::views(parts@);
    let mut kept: Vec<String> = Vec::new();
    assert(pv.take(0) =~= Seq::empty());
    assert(text::views(kept@) =~= Seq::empty());
    for i in 0..parts.len()
        invariant
            pv == text::views(parts@),
            text::views(kept@) == said_parts(pv.take(i as int)),
    {
        assert(pv.take(i + 1).drop_last() =~= pv.take(i as int));
        assert(pv.take(i + 1).last() == parts@[i as int]@);
        let t = text::trim(parts[i].as_str());
        if !t.as_str().is_empty() {
            let ghost before = text::views(kept@);
            let ghost tv = t@;
            kept.push(t);
            assert(text::views(kept@) =~= before.push(tv));
        }
    }
    assert(pv.take(parts@.len() as int) =~= pv);
    let t = words::join(&kept, " ");
    if t.as_str().is_empty() {
        None
    } else {
        Some(t)
    }
}

// ── Laws ────────────────────────────────────────────────────────────────────

proof fn lemma_best(worth: spec_fn(int) -> int, pool: Seq<usize>, n: int)
    requires
        1 <= n <= pool.len(),
    ensures
        exists|i: int| 0 <= i < n && #[trigger] pool[i] == best_of(worth, pool, n),
        forall|i: int| 0 <= i < n ==> worth(#[trigger] pool[i] as int) <= worth(best_of(worth, pool, n)),
    decreases n,
{
    if n > 1 {
        lemma_best(worth, pool, n - 1);
        let b = best_of(worth, pool, n - 1);
        if worth(pool[n - 1] as int) >= worth(b) {
            assert(pool[n - 1] == best_of(worth, pool, n));
        } else {
            let i = choose|i: int| 0 <= i < n - 1 && #[trigger] pool[i] == b;
            assert(pool[i] == best_of(worth, pool, n));
        }
    } else {
        assert(pool[0] == best_of(worth, pool, n));
    }
}

/// A line in which another speaker is heard is never sampled where the speaker has one, among those
/// considered, in which none is.
pub proof fn law_window_is_clean_if_any_is(segs: Seq<Segment>, ix: Seq<usize>, pool: Seq<usize>, j: int)
    requires
        all_timed(segs),
        indices_ok(pool, segs),
        0 <= j < pool.len(),
        clean(segs, ix, pool[j] as int),
    ensures
        clean(
            segs,
            ix,
            best_of(|k: int| window_worth(segs, ix, k), pool, pool.len() as int),
        ),
{
    let worth = |k: int| window_worth(segs, ix, k);
    lemma_best(worth, pool, pool.len() as int);
    let b = best_of(worth, pool, pool.len() as int);
    let i = choose|i: int| 0 <= i < pool.len() && #[trigger] pool[i] == b;
    assert(segs[pool[i] as int].timed());
    assert(segs[pool[j] as int].timed());
    assert(worth(pool[j] as int) <= worth(b));
}

/// A sample whose words were not recognised is used only where no candidate says its line.
pub proof fn law_main_sample_says_its_line(good: Seq<bool>, i: int)
    requires
        0 <= i < good.len(),
        good[i],
    ensures
        good[main_of(good)],
{
    lemma_finds_good(good, 0, i);
    lemma_first_good(good, -1, 0);
}

proof fn lemma_finds_good(good: Seq<bool>, from: int, i: int)
    requires
        0 <= from <= i < good.len(),
        good[i],
    ensures
        first_good(good, -1, from) is Some,
    decreases good.len() - from,
{
    if !good[from] {
        lemma_finds_good(good, from + 1, i);
    }
}

/// How good a line is as a sample: one in which nobody else is heard before any other; of two such, one of
/// seven to twelve seconds before any other; and of two such, the longer one.
pub proof fn law_better_sample(segs: Seq<Segment>, ix: Seq<usize>, j: int, k: int)
    requires
        all_timed(segs),
        0 <= j < segs.len(),
        0 <= k < segs.len(),
    ensures
        ({
            let (a, b) = (segs[j].end - segs[j].start, segs[k].end - segs[k].start);
            let (good_a, good_b) = (7_000_000 <= a <= 12_000_000, 7_000_000 <= b <= 12_000_000);
            let better = window_worth(segs, ix, j) > window_worth(segs, ix, k);
            &&& clean(segs, ix, j) && !clean(segs, ix, k) ==> better
            &&& clean(segs, ix, j) == clean(segs, ix, k) && good_a && !good_b ==> better
            &&& clean(segs, ix, j) == clean(segs, ix, k) && good_a == good_b && a > b && a > 0 ==> better
        }),
{
    assert(segs[j].timed() && segs[k].timed());
}

/// Nobody else is heard during a line if every line of another speaker ends before it or starts behind it.
pub proof fn law_clean_line(segs: Seq<Segment>, ix: Seq<usize>, k: int)
    ensures
        clean(segs, ix, k) <==> forall|i: int|
            0 <= i < ix.len() && segs[(#[trigger] ix[i]) as int].who() != segs[k].who() ==> segs[ix[i] as int].end
                <= segs[k].start || segs[k].end <= segs[ix[i] as int].start,
{
}

/// The line that is chosen is one of those that were offered, and none of them is better.
pub proof fn law_best_line_is_chosen(worth: spec_fn(int) -> int, pool: Seq<usize>, n: int)
    requires
        0 < n <= pool.len(),
    ensures
        exists|i: int| 0 <= i < n && best_of(worth, pool, n) == (#[trigger] pool[i]),
        forall|i: int| 0 <= i < n ==> worth(#[trigger] pool[i] as int) <= worth(best_of(worth, pool, n)),
    decreases n,
{
    if n > 1 {
        law_best_line_is_chosen(worth, pool, n - 1);
        let b = best_of(worth, pool, n - 1);
        let k = choose|k: int| 0 <= k < n - 1 && b == (#[trigger] pool[k]);
        let w = if worth(pool[n - 1] as int) >= worth(b) {
            n - 1
        } else {
            k
        };
        assert(0 <= w < n && best_of(worth, pool, n) == pool[w]);
    } else {
        let w = 0int;
        assert(best_of(worth, pool, n) == pool[w]);
    }
}

/// Of more than four lines the first is left out, and else all are considered.
pub proof fn law_lines_that_are_considered(mine: Seq<usize>)
    ensures
        mine.len() <= 4 ==> pool_of(mine) == mine,
        mine.len() > 4 ==> pool_of(mine) == mine.subrange(1, mine.len() as int),
{
    if mine.len() > 4 {
        assert(mine.skip(1) =~= mine.subrange(1, mine.len() as int));
    }
}

/// A sample lies within its line, and is never longer than wanted, nor than twelve seconds, where two and a
/// half seconds are always granted. A second is left out at each end of the line where at least two and a half
/// are left; a line is sampled whole only where neither was done.
pub proof fn law_sample_lies_in_its_line(s: Segment, ref_len: int)
    requires
        s.start <= s.end,
    ensures
        ({
            let w = window_of(s, ref_len);
            let cap = if ref_len <= 2_500_000 {
                2_500_000
            } else if ref_len >= 12_000_000 {
                12_000_000
            } else {
                ref_len
            };
            let trims = s.end - s.start >= 4_500_000;
            &&& s.start <= w.0 <= w.1 <= s.end
            &&& w.1 - w.0 <= cap
            &&& w.0 == (if trims {
                s.start + 1_000_000
            } else {
                s.start as int
            })
            &&& trims ==> w.1 == s.end - 1_000_000 || w.1 - w.0 == cap
            &&& !trims ==> w.1 == s.end || w.1 - w.0 == cap
            &&& w.2 <==> w.0 == s.start && w.1 == s.end
        }),
{
}

/// A line is its own sample where that is wanted and no voice was chosen, it lasts two and a half seconds and
/// nobody else is heard in it. Its words go with it where it is sampled whole, or but for a moment.
pub proof fn law_line_is_its_own_sample(
    segs: Seq<Segment>,
    ix: Seq<usize>,
    k: int,
    wanted: bool,
    pack: bool,
    ref_len: int,
)
    ensures
        own_sample(segs, ix, k, wanted, pack) <==> wanted && !pack && segs[k].end - segs[k].start >= 2_500_000
            && clean(segs, ix, k),
        own_text(segs[k], ref_len) matches Some(t) ==> t == text::trimmed(segs[k].src_text@) && t.len() > 0
            && segs[k].end - segs[k].start <= sample_cap(ref_len) + 50_000,
        text::trimmed(segs[k].src_text@).len() > 0 && segs[k].end - segs[k].start <= sample_cap(ref_len)
            + 50_000 ==> own_text(segs[k], ref_len) is Some,
        own_end(segs[k], ref_len) <= segs[k].end && own_end(segs[k], ref_len) - segs[k].start <= sample_cap(
            ref_len,
        ),
        own_end(segs[k], ref_len) == segs[k].end || own_end(segs[k], ref_len) - segs[k].start == sample_cap(
            ref_len,
        ),
{
}

/// A line can be sampled if it lasts two and a half seconds at least, is at most a moment longer than wanted,
/// and has six characters for each second.
pub proof fn law_which_lines_can_be_sampled(s: Segment, ref_len: int)
    ensures
        usable(s, ref_len) <==> {
            let d = s.end - s.start;
            &&& 2_500_000 <= d <= ref_len + 50_000
            &&& text::trimmed(s.src_text@).len() * 1_000_000 >= 6 * d
        },
{
}

proof fn lemma_usable_are_filtered(segs: Seq<Segment>, mine: Seq<usize>, ref_len: int, n: int)
    requires
        0 <= n <= mine.len(),
    ensures
        usable_of(segs, mine, ref_len, n) == mine.take(n).filter(|k: usize| usable(segs[k as int], ref_len)),
        fitting_of(segs, mine, ref_len, n) == mine.take(n).filter(|k: usize| fits(segs[k as int], ref_len)),
    decreases n,
{
    reveal(Seq::filter);
    if n > 0 {
        lemma_usable_are_filtered(segs, mine, ref_len, n - 1);
        assert(mine.take(n).drop_last() =~= mine.take(n - 1));
    }
}

/// The lines from which a sample is chosen. Where some can be sampled, they are the three best of those, or
/// all if there are fewer, the best first and of equal ones the earlier; `o` is the order of them all. Else it
/// is one alone: the longest of suitable length, or of all where there is none.
pub proof fn law_best_three_are_candidates(segs: Seq<Segment>, mine: Seq<usize>, ref_len: int) -> (o: Seq<int>)
    ensures
        ({
            let good = mine.filter(|k: usize| usable(segs[k as int], ref_len));
            let suited = mine.filter(|k: usize| fits(segs[k as int], ref_len));
            let r = candidates_of(segs, mine, ref_len);
            &&& good.len() > 0 ==> {
                &&& rank::is_order(o, good.map_values(|k: usize| -score(segs[k as int])))
                &&& r.len() == (if good.len() < 3 {
                    good.len()
                } else {
                    3
                })
                &&& forall|i: int| 0 <= i < r.len() ==> #[trigger] r[i] == good[o[i]]
            }
            &&& good.len() == 0 && mine.len() > 0 ==> {
                let from = if suited.len() > 0 {
                    suited
                } else {
                    mine
                };
                &&& r.len() == 1
                &&& from.contains(r[0])
                &&& forall|i: int|
                    0 <= i < from.len() ==> segs[(#[trigger] from[i]) as int].end - segs[from[i] as int].start
                        <= segs[r[0] as int].end - segs[r[0] as int].start
            }
            &&& mine.len() == 0 ==> r.len() == 0
        }),
{
    let n = mine.len() as int;
    lemma_usable_are_filtered(segs, mine, ref_len, n);
    assert(mine.take(n) =~= mine);
    let good = mine.filter(|k: usize| usable(segs[k as int], ref_len));
    let suited = mine.filter(|k: usize| fits(segs[k as int], ref_len));
    let worth = |k: int| length(segs[k]);
    if mine.len() > 0 {
        law_best_line_is_chosen(worth, mine, n);
    }
    if suited.len() > 0 {
        law_best_line_is_chosen(worth, suited, suited.len() as int);
    }
    let keys = shortfalls(segs, good);
    assert(keys =~= good.map_values(|k: usize| -score(segs[k as int])));
    rank::law_stable_order(keys);
    if good.len() == 0 && mine.len() > 0 {
        let from = if suited.len() > 0 {
            suited
        } else {
            mine
        };
        let b = best_of(worth, from, from.len() as int);
        let i = choose|i: int| 0 <= i < from.len() && b == (#[trigger] from[i]);
        let r = candidates_of(segs, mine, ref_len);
        assert(r[0] == from[i]);
        assert forall|i: int| 0 <= i < from.len() implies segs[(#[trigger] from[i]) as int].end
            - segs[from[i] as int].start <= segs[r[0] as int].end - segs[r[0] as int].start by {
            assert(worth(from[i] as int) <= worth(b));
        }
    }
    if mine.len() == 0 {
        assert(mine =~= Seq::<usize>::empty());
        reveal(Seq::filter);
    }
    rank::stable_order(keys)
}

/// A line scores the more, the closer its speech is to fourteen characters a second: at fourteen the density
/// counts in full, at none and at 28 not at all. Lines of five to nine seconds score best for their length.
pub proof fn law_dense_speech_scores(chars: int, d: int, len: int)
    requires
        chars >= 0,
        d > 0,
    ensures
        chars * 1_000_000 == 14 * d ==> closeness(chars, d) == 14 * d,
        chars == 0 || chars * 1_000_000 >= 28 * d ==> closeness(chars, d) == 0,
        chars * 1_000_000 <= 14 * d ==> closeness(chars, d) == chars * 1_000_000,
        14 * d <= chars * 1_000_000 <= 28 * d ==> closeness(chars, d) == 28 * d - chars * 1_000_000,
        5_000_000 <= len <= 9_000_000 ==> length_worth(len) == 30_000_000,
        1_500_000 <= len < 5_000_000 ==> length_worth(len) == 6 * len,
        9_000_000 < len <= 13_200_000 ==> length_worth(len) == 75_000_000 - 5 * len,
        len < 1_500_000 || len > 13_200_000 ==> length_worth(len) == 9_000_000,
{
}

/// A candidate says its line if at least half of the words were heard; one that nobody could transcribe is
/// trusted.
pub proof fn law_when_a_candidate_says_its_line(line: Seq<char>, heard: Option<Seq<char>>)
    ensures
        heard is None ==> says_its_line(line, heard),
        heard matches Some(h) ==> (says_its_line(line, heard) <==> similarity::similarity(line, h).1
            <= 2 * similarity::similarity(line, h).0),
{
}

proof fn lemma_first_that_is_good(good: Seq<bool>, skip: int, from: int)
    requires
        0 <= from,
    ensures
        match first_good(good, skip, from) {
            Some(i) => {
                &&& from <= i < good.len() && i != skip && good[i]
                &&& forall|j: int| from <= j < i ==> j == skip || !#[trigger] good[j]
            },
            None => forall|j: int| from <= j < good.len() ==> j == skip || !#[trigger] good[j],
        },
    decreases good.len() - from,
{
    if from < good.len() && !(from != skip && good[from]) {
        lemma_first_that_is_good(good, skip, from + 1);
    }
}

/// The sample is the first candidate that says its line, or the first of all where none does; the other
/// sample is the next one that says its line, or else the first that is left.
pub proof fn law_first_good_candidate_is_the_sample(good: Seq<bool>)
    requires
        good.len() > 0,
    ensures
        ({
            let m = main_of(good);
            &&& 0 <= m < good.len()
            &&& good[m] ==> forall|j: int| 0 <= j < m ==> !#[trigger] good[j]
            &&& !good[m] ==> m == 0 && forall|j: int| 0 <= j < good.len() ==> !#[trigger] good[j]
            &&& other_of(good) is None <==> good.len() == 1
            &&& other_of(good) matches Some(x) ==> {
                &&& 0 <= x < good.len() && x != m
                &&& good[x] ==> forall|j: int| 0 <= j < x ==> j == m || !#[trigger] good[j]
                &&& !good[x] ==> (x == 0 || (m == 0 && x == 1)) && forall|j: int|
                    0 <= j < good.len() ==> j == m || !#[trigger] good[j]
            }
        }),
{
    lemma_first_that_is_good(good, -1, 0);
    lemma_first_that_is_good(good, main_of(good), 0);
    let m = main_of(good);
    if good.len() == 1 {
        assert(m == 0);
    }
}

/// What is said in a sample is what was heard in it, where anything was, and what its line says else.
pub proof fn law_what_is_said_in_a_sample(line: Seq<char>, heard: Option<Seq<char>>)
    ensures
        heard matches Some(h) && text::trimmed(h).len() > 0 ==> said_in(line, heard) == heard,
        (heard matches Some(h) ==> text::trimmed(h).len() == 0) && text::trimmed(line).len() > 0 ==> said_in(
            line,
            heard,
        ) == Some(text::trimmed(line)),
        (heard matches Some(h) ==> text::trimmed(h).len() == 0) && text::trimmed(line).len() == 0 ==> said_in(
            line,
            heard,
        ) is None,
{
}

} // verus!
