//! Where spoken lines go, how much they are stretched, and when speech is heard. Times are whole
//! microseconds, factors are in millionths.

use crate::project::Segment;
use crate::rank;
use vstd::prelude::*;

verus! {

pub open spec fn max(a: int, b: int) -> int {
    if a > b {
        a
    } else {
        b
    }
}

pub open spec fn min(a: int, b: int) -> int {
    if a < b {
        a
    } else {
        b
    }
}

/// The shortest slot.
pub const MIN_SLOT: i64 = 300_000;

/// A line's place on the timeline.
#[derive(Clone, Copy, Debug, PartialEq, Eq, Structural)]
pub struct Slot {
    /// Where it begins: at its start, or where the line before ends.
    pub at: i64,
    /// How long it may take.
    pub target: i64,
    /// How far behind its start it begins.
    pub drift: i64,
}

/// When the line behind the line number `i` starts, or the film ends.
pub open spec fn next_start(segs: Seq<Segment>, i: int, total: int) -> int {
    if i + 1 < segs.len() {
        segs[i + 1].start as int
    } else {
        total
    }
}

/// The slot of the line number `i` when the lines before it end at `cursor`: up to the start of the
/// next line, or exactly as long as the line itself where the pace adapts.
pub open spec fn slot_of(
    segs: Seq<Segment>,
    i: int,
    total: int,
    cursor: int,
    adapt: bool,
) -> (int, int, int) {
    let s = segs[i];
    let at = max(s.start as int, cursor);
    let target = if adapt {
        max(s.end - s.start, MIN_SLOT as int)
    } else {
        max(next_start(segs, i, total) - at, MIN_SLOT as int)
    };
    (at, target, max(cursor - s.start, 0))
}

/// The slot of the line number `i`.
pub fn slot_for(segs: &Vec<Segment>, i: usize, total: i64, cursor: i64, adapt: bool) -> (r: Slot)
    requires
        i < segs@.len(),
        crate::project::all_timed(segs@),
        crate::project::time_ok(total),
        crate::project::time_ok(cursor),
    ensures
        (r.at as int, r.target as int, r.drift as int) == slot_of(
            segs@,
            i as int,
            total as int,
            cursor as int,
            adapt,
        ),
{
    let s = &segs[i];
    assert(segs@[i as int].timed());
    let at: i64 = if s.start > cursor {
        s.start
    } else {
        cursor
    };
    let next: i64 = if i < segs.len() - 1 {
        assert(segs@[i + 1].timed());
        segs[i + 1].start
    } else {
        total
    };
    let free: i64 = if adapt {
        s.end - s.start
    } else {
        next - at
    };
    let target: i64 = if free > MIN_SLOT {
        free
    } else {
        MIN_SLOT
    };
    let drift: i64 = if cursor > s.start {
        cursor - s.start
    } else {
        0
    };
    Slot { at, target, drift }
}

/// The factor that brings `raw` down to `target`.
pub open spec fn needed_factor(raw: int, target: int) -> int {
    raw * 1_000_000 / target
}

/// How much a line may be sped up before anything else is considered: freely where durations are not
/// watched, a little more in a short slot.
pub open spec fn base_cap(watch: bool, target: int, stretch: int) -> int {
    if !watch {
        10_000_000
    } else if target < 1_500_000 {
        max(stretch, 1_300_000)
    } else {
        stretch
    }
}

/// How much a line may be sped up: where the pace adapts as much as it needs up to four times, where the
/// dub lags behind up to twice.
pub open spec fn cap_of(base: int, needed: int, adapt: bool, drift: int) -> int {
    if adapt {
        min(max(base, needed), 4_000_000)
    } else if drift > 600_000 {
        min(max(base, needed), 2_000_000)
    } else {
        base
    }
}

/// How a line is fitted.
#[derive(Clone, Copy, Debug, PartialEq, Eq, Structural)]
pub struct Fit {
    pub needed: i64,
    pub cap: i64,
    /// The cap was raised to catch up.
    pub escalated: bool,
    /// The line does not fit even so.
    pub over: bool,
}

/// How a line of `raw` microseconds is fitted into its slot.
pub fn fit(slot: &Slot, raw: i64, watch: bool, adapt: bool, stretch: i64) -> (r: Fit)
    requires
        slot.target >= MIN_SLOT,
        0 <= raw <= crate::project::TIME_LIMIT,
        0 <= stretch <= 1_000_000_000,
    ensures
        r.needed == needed_factor(raw as int, slot.target as int),
        r.cap == cap_of(
            base_cap(watch, slot.target as int, stretch as int),
            r.needed as int,
            adapt,
            slot.drift as int,
        ),
        r.escalated == (slot.drift > 600_000 && r.cap > base_cap(
            watch,
            slot.target as int,
            stretch as int,
        )),
        r.over == (raw > 0 && r.needed > r.cap),
{
    let big: i128 = raw as i128 * 1_000_000;
    let q: i128 = big / (slot.target as i128);
    assert(0 <= q <= big) by (nonlinear_arith)
        requires
            q == big / (slot.target as i128),
            big >= 0,
            slot.target >= 1,
    ;
    assert(q * 300_000 <= big) by (nonlinear_arith)
        requires
            q == big / (slot.target as i128),
            big >= 0,
            slot.target >= 300_000,
            q >= 0,
    ;
    let needed: i64 = q as i64;
    let base: i64 = if !watch {
        10_000_000
    } else if slot.target < 1_500_000 {
        if stretch > 1_300_000 {
            stretch
        } else {
            1_300_000
        }
    } else {
        stretch
    };
    let wanted: i64 = if base > needed {
        base
    } else {
        needed
    };
    let cap: i64 = if adapt {
        if wanted < 4_000_000 {
            wanted
        } else {
            4_000_000
        }
    } else if slot.drift > 600_000 {
        if wanted < 2_000_000 {
            wanted
        } else {
            2_000_000
        }
    } else {
        base
    };
    Fit {
        needed,
        cap,
        escalated: slot.drift > 600_000 && cap > base,
        over: raw > 0 && needed > cap,
    }
}

/// The factor by which a take of `actual` is stretched to `target`: between 85 hundredths and the cap;
/// none where either is next to nothing or the change would not be heard.
pub open spec fn stretch_of(actual: int, target: int, cap: int) -> Option<int> {
    if target <= 50_000 || actual <= 50_000 {
        None
    } else {
        let f = max(min(needed_factor(actual, target), cap), 850_000);
        if 980_000 <= f <= 1_020_000 {
            None
        } else {
            Some(f)
        }
    }
}

/// The factor by which a take of `actual` is stretched to `target`.
pub fn stretch_factor(actual: i64, target: i64, cap: i64) -> (r: Option<i64>)
    requires
        actual <= crate::project::TIME_LIMIT,
    ensures
        match r {
            Some(f) => stretch_of(actual as int, target as int, cap as int) == Some(f as int),
            None => stretch_of(actual as int, target as int, cap as int) is None,
        },
{
    if target <= 50_000 || actual <= 50_000 {
        return None;
    }
    let big: i128 = actual as i128 * 1_000_000;
    let q: i128 = big / (target as i128);
    assert(0 <= q && q * 50_000 <= big) by (nonlinear_arith)
        requires
            q == big / (target as i128),
            big >= 0,
            target >= 50_000,
    ;
    let needed: i64 = q as i64;
    let low: i64 = if needed < cap {
        needed
    } else {
        cap
    };
    let f: i64 = if low > 850_000 {
        low
    } else {
        850_000
    };
    if 980_000 <= f && f <= 1_020_000 {
        None
    } else {
        Some(f)
    }
}

// ── When speech is heard ────────────────────────────────────────────────────

/// A stretch of time.
#[derive(Clone, Copy, Debug, PartialEq, Eq, Structural)]
pub struct Span {
    pub start: i64,
    pub end: i64,
}

/// A pause shorter than this does not part two blocks of speech.
pub const DUCK_BLOCK_GAP: i64 = 1_600_000;

/// The blocks of speech with one more stretch, which starts no earlier than those before.
pub open spec fn merged(blocks: Seq<Span>, s: Span) -> Seq<Span> {
    if blocks.len() > 0 && s.start - blocks.last().end < DUCK_BLOCK_GAP {
        blocks.drop_last().push(
            Span {
                start: blocks.last().start,
                end: max(blocks.last().end as int, s.end as int) as i64,
            },
        )
    } else {
        blocks.push(s)
    }
}

/// The blocks that the stretches `spans`, ordered by their starts, make.
pub open spec fn blocks_of(spans: Seq<Span>) -> Seq<Span>
    decreases spans.len(),
{
    if spans.len() == 0 {
        Seq::empty()
    } else {
        merged(blocks_of(spans.drop_last()), spans.last())
    }
}

pub open spec fn starts_of(spans: Seq<Span>) -> Seq<int> {
    spans.map_values(|s: Span| s.start as int)
}

/// The stretches by their starts; those that start together stay in the order they had.
pub open spec fn by_start(spans: Seq<Span>) -> Seq<Span> {
    rank::stable_order(starts_of(spans)).map_values(|i: int| spans[i])
}

/// The blocks of speech that the stretches make, in order.
pub fn build_speech_blocks(spans: &Vec<Span>) -> (r: Vec<Span>)
    ensures
        r@ == blocks_of(by_start(spans@)),
{
    let mut keys: Vec<i128> = Vec::new();
    for i in 0..spans.len()
        invariant
            keys@.len() == i,
            forall|j: int| 0 <= j < i ==> (#[trigger] keys@[j]) == spans@[j].start,
    {
        keys.push(spans[i].start as i128);
    }
    assert(rank::ints(keys@) =~= starts_of(spans@));
    let order = rank::stable_sort(&keys);
    let ghost sorted = by_start(spans@);
    let mut out: Vec<Span> = Vec::new();
    assert(sorted.take(0) =~= Seq::empty());
    for i in 0..order.len()
        invariant
            sorted == by_start(spans@),
            rank::indices(order@) == rank::stable_order(starts_of(spans@)),
            rank::is_order(rank::indices(order@), starts_of(spans@)),
            order@.len() == spans@.len(),
            out@ == blocks_of(sorted.take(i as int)),
    {
        assert(rank::indices(order@)[i as int] == order@[i as int]);
        let s = spans[order[i]];
        proof {
            assert(sorted[i as int] == s);
            assert(sorted.take(i + 1).drop_last() =~= sorted.take(i as int));
            assert(sorted.take(i + 1).last() == s);
        }
        let n: usize = out.len();
        if n > 0 && (s.start as i128) - (out[n - 1].end as i128) < DUCK_BLOCK_GAP as i128 {
            let last = out[n - 1];
            let end: i64 = if last.end > s.end {
                last.end
            } else {
                s.end
            };
            out.set(n - 1, Span { start: last.start, end });
            assert(out@ =~= blocks_of(sorted.take(i + 1)));
        } else {
            out.push(s);
        }
    }
    assert(sorted.take(order@.len() as int) =~= sorted);
    out
}

/// The stretch on a track of `from` microseconds once the track is brought to `to`.
pub open spec fn scaled(s: Span, from: int, to: int) -> (int, int) {
    (s.start * to / from, s.end * to / from)
}

fn scale(t: i64, from: i64, to: i64) -> (r: i64)
    requires
        0 <= t <= crate::project::TIME_LIMIT,
        0 < from,
        0 <= to <= from,
    ensures
        r == t * to / (from as int),
{
    assert(0 <= t * to <= t * from) by (nonlinear_arith)
        requires
            0 <= t,
            0 <= to <= from,
    ;
    assert(t * from <= crate::project::TIME_LIMIT * from) by (nonlinear_arith)
        requires
            0 <= t <= crate::project::TIME_LIMIT,
            0 < from,
    ;
    assert(0 <= t * to / (from as int) <= t) by (nonlinear_arith)
        requires
            0 <= t * to <= t * from,
            0 < from,
    ;
    ((t as i128 * to as i128) / (from as i128)) as i64
}

/// The blocks on a track of `from` microseconds once the track is brought to `to`.
pub fn scale_blocks(blocks: &Vec<Span>, from: i64, to: i64) -> (r: Vec<Span>)
    requires
        0 <= to <= from,
        0 < from,
        forall|i: int|
            0 <= i < blocks@.len() ==> 0 <= (#[trigger] blocks@[i]).start
                <= crate::project::TIME_LIMIT && 0 <= blocks@[i].end <= crate::project::TIME_LIMIT,
    ensures
        r@.len() == blocks@.len(),
        forall|i: int|
            0 <= i < r@.len() ==> ((#[trigger] r@[i]).start as int, r@[i].end as int) == scaled(
                blocks@[i],
                from as int,
                to as int,
            ),
{
    let mut out: Vec<Span> = Vec::new();
    for i in 0..blocks.len()
        invariant
            0 <= to <= from,
            0 < from,
            forall|i: int|
                0 <= i < blocks@.len() ==> 0 <= (#[trigger] blocks@[i]).start
                    <= crate::project::TIME_LIMIT && 0 <= blocks@[i].end
                    <= crate::project::TIME_LIMIT,
            out@.len() == i,
            forall|j: int|
                0 <= j < i ==> ((#[trigger] out@[j]).start as int, out@[j].end as int) == scaled(
                    blocks@[j],
                    from as int,
                    to as int,
                ),
    {
        let b = blocks[i];
        assert(blocks@[i as int] == b);
        out.push(Span { start: scale(b.start, from, to), end: scale(b.end, from, to) });
    }
    out
}

/// Whether the track is too long for the film and has to be brought to its length.
pub fn overruns(track: i64, total: i64) -> (r: bool)
    ensures
        r == (track > total + 150_000),
{
    (track as i128) > total as i128 + 150_000
}

/// The factor, in millionths, that brings a track that is too long to the length of the film; rounded up,
/// so that it is not longer than the film.
pub open spec fn whole_factor(track: int, total: int) -> Option<int> {
    if track > total + 150_000 {
        Some((track * 1_000_000 + total - 1) / total)
    } else {
        None
    }
}

/// The factor by which the whole track is made faster, where it is too long for the film.
pub fn track_factor(track: i64, total: i64) -> (r: Option<u128>)
    requires
        total > 0,
    ensures
        match r {
            Some(f) => whole_factor(track as int, total as int) == Some(f as int) && f > 1_000_000,
            None => whole_factor(track as int, total as int) is None,
        },
{
    if !overruns(track, total) {
        return None;
    }
    let big: u128 = track as u128 * 1_000_000 + (total as u128 - 1);
    let f: u128 = big / (total as u128);
    assert(f > 1_000_000) by (nonlinear_arith)
        requires
            f == big / (total as u128),
            big == track * 1_000_000 + (total - 1),
            track > total + 150_000,
            total > 0,
    ;
    Some(f)
}

// ── Laws ────────────────────────────────────────────────────────────────────

/// The dub is at most a moment longer than the film, and no longer at all once it was made faster.
pub proof fn law_dub_is_no_longer_than_the_film(track: int, total: int)
    requires
        total > 0,
    ensures
        match whole_factor(track, total) {
            Some(f) => f > 1_000_000 && track * 1_000_000 <= total * f,
            None => track <= total + 150_000,
        },
{
    if let Some(f) = whole_factor(track, total) {
        assert(f > 1_000_000 && track * 1_000_000 <= total * f) by (nonlinear_arith)
            requires
                f == (track * 1_000_000 + total - 1) / total,
                track > total + 150_000,
                total > 0,
        ;
    }
}

proof fn lemma_blocks(spans: Seq<Span>)
    requires
        forall|i: int, j: int|
            0 <= i < j < spans.len() ==> (#[trigger] spans[i]).start <= (#[trigger] spans[j]).start,
    ensures
        spans.len() > 0 ==> blocks_of(spans).len() > 0,
        blocks_of(spans).len() > 0 ==> blocks_of(spans).last().start <= spans.last().start,
        forall|i: int|
            0 <= i < blocks_of(spans).len() - 1 ==> (#[trigger] blocks_of(spans)[i + 1]).start
                - blocks_of(spans)[i].end >= DUCK_BLOCK_GAP,
        forall|k: int|
            0 <= k < spans.len() ==> exists|i: int|
                0 <= i < blocks_of(spans).len() && (#[trigger] blocks_of(spans)[i]).start
                    <= (#[trigger] spans[k]).start && spans[k].end <= blocks_of(spans)[i].end,
    decreases spans.len(),
{
    if spans.len() > 0 {
        let prev = spans.drop_last();
        assert forall|i: int, j: int| 0 <= i < j < prev.len() implies (#[trigger] prev[i]).start
            <= (#[trigger] prev[j]).start by {
            assert(spans[i].start <= spans[j].start);
        }
        lemma_blocks(prev);
        let b = blocks_of(prev);
        let s = spans.last();
        let now = blocks_of(spans);
        if prev.len() > 0 {
            assert(prev.last() == spans[spans.len() - 2]);
            assert(spans[spans.len() - 2].start <= spans[spans.len() - 1].start);
        }
        let joins = b.len() > 0 && s.start - b.last().end < DUCK_BLOCK_GAP;
        assert forall|i: int| 0 <= i < now.len() - 1 implies (#[trigger] now[i + 1]).start
            - now[i].end >= DUCK_BLOCK_GAP by {
            if i + 1 < b.len() {
                assert(b[i + 1].start - b[i].end >= DUCK_BLOCK_GAP);
            }
        }
        assert forall|k: int| 0 <= k < spans.len() implies exists|i: int|
            0 <= i < now.len() && (#[trigger] now[i]).start <= (#[trigger] spans[k]).start
                && spans[k].end <= now[i].end by {
            if k < prev.len() {
                assert(prev[k] == spans[k]);
                let i = choose|i: int|
                    0 <= i < b.len() && (#[trigger] b[i]).start <= (#[trigger] prev[k]).start
                        && prev[k].end <= b[i].end;
                assert(now[i].start <= spans[k].start && spans[k].end <= now[i].end);
            } else {
                let i = now.len() - 1;
                assert(now[i].start <= spans[k].start && spans[k].end <= now[i].end);
            }
        }
    }
}

/// The blocks of speech stand apart by at least the shortest pause that parts them, and every stretch
/// lies within one of them.
pub proof fn law_blocks_cover_and_part(spans: Seq<Span>)
    ensures
        forall|i: int|
            0 <= i < blocks_of(by_start(spans)).len() - 1 ==> (#[trigger] blocks_of(
                by_start(spans),
            )[i + 1]).start - blocks_of(by_start(spans))[i].end >= DUCK_BLOCK_GAP,
        forall|k: int|
            0 <= k < spans.len() ==> exists|i: int|
                0 <= i < blocks_of(by_start(spans)).len() && (#[trigger] blocks_of(
                    by_start(spans),
                )[i]).start <= (#[trigger] spans[k]).start && spans[k].end <= blocks_of(
                    by_start(spans),
                )[i].end,
{
    let keys = starts_of(spans);
    let o = rank::stable_order(keys);
    let sorted = by_start(spans);
    rank::law_stable_order(keys);
    rank::law_order_covers(keys);
    assert forall|i: int, j: int| 0 <= i < j < sorted.len() implies (#[trigger] sorted[i]).start
        <= (#[trigger] sorted[j]).start by {
        assert(keys[o[i]] <= keys[o[j]]);
    }
    lemma_blocks(sorted);
    let b = blocks_of(sorted);
    assert forall|k: int| 0 <= k < spans.len() implies exists|i: int|
        0 <= i < b.len() && (#[trigger] b[i]).start <= (#[trigger] spans[k]).start && spans[k].end
            <= b[i].end by {
        assert(o.contains(k));
        let m = choose|m: int| 0 <= m < o.len() && o[m] == k;
        assert(sorted[m] == spans[k]);
        let i = choose|i: int|
            0 <= i < b.len() && (#[trigger] b[i]).start <= (#[trigger] sorted[m]).start
                && sorted[m].end <= b[i].end;
        assert(b[i].start <= spans[k].start && spans[k].end <= b[i].end);
    }
}

/// A stretch that does not end before it starts.
pub open spec fn forward(s: Span) -> bool {
    s.start <= s.end
}

/// Whether `s` lies within `b`.
pub open spec fn inside(s: Span, b: Span) -> bool {
    b.start <= s.start && s.end <= b.end
}

/// Whether one of the stretches starts at `t`.
pub open spec fn one_starts(spans: Seq<Span>, t: int) -> bool {
    exists|k: int| 0 <= k < spans.len() && (#[trigger] spans[k]).start == t
}

/// Whether one of the stretches ends at `t`.
pub open spec fn one_ends(spans: Seq<Span>, t: int) -> bool {
    exists|k: int| 0 <= k < spans.len() && (#[trigger] spans[k]).end == t
}

/// Whether both lie within the same one of `blocks`.
pub open spec fn together(blocks: Seq<Span>, s: Span, t: Span) -> bool {
    exists|i: int| 0 <= i < blocks.len() && inside(s, #[trigger] blocks[i]) && inside(t, blocks[i])
}

/// Whether `s` lies within one of `blocks`.
pub open spec fn held(blocks: Seq<Span>, s: Span) -> bool {
    exists|i: int| 0 <= i < blocks.len() && inside(s, #[trigger] blocks[i])
}

pub open spec fn all_forward(spans: Seq<Span>) -> bool {
    forall|i: int| 0 <= i < spans.len() ==> forward(#[trigger] spans[i])
}

/// Whether each block begins at least the shortest parting pause behind the end of those before.
pub open spec fn apart(blocks: Seq<Span>) -> bool {
    forall|i: int, j: int|
        0 <= i < j < blocks.len() ==> (#[trigger] blocks[j]).start - (#[trigger] blocks[i]).end
            >= DUCK_BLOCK_GAP
}

/// Whether each block begins where a stretch starts and is over where one ends.
pub open spec fn made_of(blocks: Seq<Span>, spans: Seq<Span>) -> bool {
    forall|i: int|
        0 <= i < blocks.len() ==> one_starts(spans, (#[trigger] blocks[i]).start as int) && one_ends(
            spans,
            blocks[i].end as int,
        )
}

/// Whether the stretches grow by their starts.
pub open spec fn growing(spans: Seq<Span>) -> bool {
    forall|i: int, j: int|
        0 <= i < j < spans.len() ==> (#[trigger] spans[i]).start <= (#[trigger] spans[j]).start
}

/// What one more stretch makes of the blocks.
proof fn lemma_merged(b: Seq<Span>, s: Span)
    requires
        all_forward(b),
        apart(b),
        forward(s),
        b.len() > 0 ==> b.last().start <= s.start,
    ensures
        all_forward(merged(b, s)),
        apart(merged(b, s)),
        b.len() <= merged(b, s).len(),
        merged(b, s).len() > 0,
        inside(s, merged(b, s).last()),
        merged(b, s).last().start <= s.start,
        forall|i: int| 0 <= i < b.len() ==> inside(b[i], #[trigger] merged(b, s)[i]),
{
    let now = merged(b, s);
    let n = b.len() - 1;
    if b.len() > 0 {
        assert(forward(b[n]));
    }
    assert forall|i: int| 0 <= i < now.len() implies forward(#[trigger] now[i]) by {
        if i < b.len() {
            assert(forward(b[i]));
        }
    }
    assert forall|i: int, j: int| 0 <= i < j < now.len() implies (#[trigger] now[j]).start - (
    #[trigger] now[i]).end >= DUCK_BLOCK_GAP by {
        if j < b.len() {
            assert(b[j].start - b[i].end >= DUCK_BLOCK_GAP);
        } else if i < n {
            assert(b[n].start - b[i].end >= DUCK_BLOCK_GAP);
        }
    }
}

/// A stretch that follows another too closely comes into its block.
proof fn lemma_merged_joins(b: Seq<Span>, s: Span, t: Span)
    requires
        all_forward(b),
        apart(b),
        forward(s),
        b.len() > 0 ==> b.last().start <= s.start,
        held(b, t),
        s.start - t.end < DUCK_BLOCK_GAP,
    ensures
        together(merged(b, s), t, s),
{
    lemma_merged(b, s);
    let n = b.len() - 1;
    let i = choose|i: int| 0 <= i < b.len() && inside(t, #[trigger] b[i]);
    if i < n {
        assert(b[n].start - b[i].end >= DUCK_BLOCK_GAP);
    }
    let now = merged(b, s);
    assert(i == n);
    assert(now.len() == b.len());
    assert(inside(b[n], now[n]));
    assert(inside(t, now[n]) && inside(s, now[n]));
}

proof fn lemma_forward_blocks(spans: Seq<Span>)
    requires
        growing(spans),
        all_forward(spans),
    ensures
        all_forward(blocks_of(spans)),
        apart(blocks_of(spans)),
        spans.len() > 0 ==> blocks_of(spans).len() > 0 && blocks_of(spans).last().start
            <= spans.last().start,
        spans.len() == 0 ==> blocks_of(spans).len() == 0,
        forall|k: int| 0 <= k < spans.len() ==> held(blocks_of(spans), #[trigger] spans[k]),
    decreases spans.len(),
{
    if spans.len() > 0 {
        let prev = spans.drop_last();
        let n = spans.len() - 1;
        assert forall|i: int, j: int| 0 <= i < j < prev.len() implies (#[trigger] prev[i]).start <= (
        #[trigger] prev[j]).start by {
            assert(spans[i].start <= spans[j].start);
        }
        assert forall|i: int| 0 <= i < prev.len() implies forward(#[trigger] prev[i]) by {
            assert(forward(spans[i]));
        }
        lemma_forward_blocks(prev);
        assert(forward(spans[n]));
        if n > 0 {
            assert(spans[n - 1].start <= spans[n].start);
        }
        let b = blocks_of(prev);
        let now = blocks_of(spans);
        lemma_merged(b, spans[n]);
        assert forall|k: int| 0 <= k < spans.len() implies held(now, #[trigger] spans[k]) by {
            if k < n {
                assert(held(b, prev[k]));
                let i = choose|i: int| 0 <= i < b.len() && inside(prev[k], #[trigger] b[i]);
                assert(inside(b[i], now[i]));
                assert(inside(spans[k], now[i]));
            } else {
                assert(inside(spans[k], now[now.len() - 1]));
            }
        }
    }
}

proof fn lemma_blocks_made_of(spans: Seq<Span>)
    ensures
        made_of(blocks_of(spans), spans),
    decreases spans.len(),
{
    if spans.len() > 0 {
        let prev = spans.drop_last();
        let n = spans.len() - 1;
        let b = blocks_of(prev);
        let now = blocks_of(spans);
        lemma_blocks_made_of(prev);
        assert forall|i: int| 0 <= i < now.len() implies one_starts(
            spans,
            (#[trigger] now[i]).start as int,
        ) && one_ends(spans, now[i].end as int) by {
            if i < b.len() {
                assert(one_starts(prev, b[i].start as int) && one_ends(prev, b[i].end as int));
                let k = choose|k: int| 0 <= k < prev.len() && (#[trigger] prev[k]).start == b[i].start;
                assert(spans[k].start == now[i].start);
                let e = choose|e: int| 0 <= e < prev.len() && (#[trigger] prev[e]).end == b[i].end;
                assert(spans[e].end == b[i].end);
                assert(now[i].end == b[i].end || now[i].end == spans[n].end);
            } else {
                assert(spans[n].start == now[i].start && spans[n].end == now[i].end);
            }
        }
    }
}

/// Two stretches, the later of them the last, that follow each other too closely to be parted.
proof fn lemma_blocks_join(spans: Seq<Span>, j: int, k: int)
    requires
        growing(spans),
        all_forward(spans),
        0 <= j < k < spans.len(),
        spans[k].start - spans[j].end < DUCK_BLOCK_GAP,
    ensures
        together(blocks_of(spans), spans[j], spans[k]),
    decreases spans.len(),
{
    let prev = spans.drop_last();
    let n = spans.len() - 1;
    assert forall|i: int, l: int| 0 <= i < l < prev.len() implies (#[trigger] prev[i]).start <= (
    #[trigger] prev[l]).start by {
        assert(spans[i].start <= spans[l].start);
    }
    assert forall|i: int| 0 <= i < prev.len() implies forward(#[trigger] prev[i]) by {
        assert(forward(spans[i]));
    }
    lemma_forward_blocks(prev);
    assert(forward(spans[n]));
    assert(spans[n - 1].start <= spans[n].start);
    let b = blocks_of(prev);
    let now = blocks_of(spans);
    assert(prev[j] == spans[j]);
    if k == n {
        assert(held(b, prev[j]));
        lemma_merged_joins(b, spans[n], spans[j]);
    } else {
        lemma_blocks_join(prev, j, k);
        lemma_merged(b, spans[n]);
        let i = choose|i: int|
            0 <= i < b.len() && inside(prev[j], #[trigger] b[i]) && inside(prev[k], b[i]);
        assert(inside(b[i], now[i]));
        assert(inside(spans[j], now[i]) && inside(spans[k], now[i]));
    }
}

/// The stretches by their starts grow, and run forward if the stretches do.
proof fn lemma_by_start(spans: Seq<Span>)
    ensures
        by_start(spans).len() == spans.len(),
        growing(by_start(spans)),
        all_forward(spans) ==> all_forward(by_start(spans)),
{
    let keys = starts_of(spans);
    let o = rank::stable_order(keys);
    let sorted = by_start(spans);
    rank::law_stable_order(keys);
    assert forall|i: int, j: int| 0 <= i < j < spans.len() implies (#[trigger] sorted[i]).start <= (
    #[trigger] sorted[j]).start by {
        assert(keys[o[i]] <= keys[o[j]]);
    }
    if all_forward(spans) {
        assert forall|i: int| 0 <= i < sorted.len() implies forward(#[trigger] sorted[i]) by {
            assert(0 <= o[i] < keys.len());
            assert(forward(spans[o[i]]));
        }
    }
}

/// Where the stretch `k` stands among the stretches by their starts.
proof fn lemma_place(spans: Seq<Span>, k: int) -> (m: int)
    requires
        0 <= k < spans.len(),
    ensures
        0 <= m < by_start(spans).len(),
        by_start(spans)[m] == spans[k],
{
    let keys = starts_of(spans);
    let o = rank::stable_order(keys);
    rank::law_stable_order(keys);
    rank::law_order_covers(keys);
    assert(o.contains(k));
    choose|m: int| 0 <= m < o.len() && o[m] == k
}

/// Which stretch stands at `m` among the stretches by their starts.
proof fn lemma_source(spans: Seq<Span>, m: int) -> (k: int)
    requires
        0 <= m < by_start(spans).len(),
    ensures
        0 <= k < spans.len(),
        by_start(spans)[m] == spans[k],
{
    let keys = starts_of(spans);
    let o = rank::stable_order(keys);
    rank::law_stable_order(keys);
    assert(0 <= o[m] < keys.len());
    o[m]
}

/// The blocks follow one another, each begins where a stretch starts and is over where one ends, and
/// each stretch lies within one block alone.
pub proof fn law_blocks_are_made_of_stretches(spans: Seq<Span>)
    requires
        all_forward(spans),
    ensures
        ({
            let blocks = blocks_of(by_start(spans));
            &&& all_forward(blocks)
            &&& apart(blocks)
            &&& made_of(blocks, spans)
            &&& forall|k: int| 0 <= k < spans.len() ==> held(blocks, #[trigger] spans[k])
            &&& forall|k: int, i: int, j: int|
                0 <= k < spans.len() && 0 <= i < blocks.len() && 0 <= j < blocks.len()
                    && #[trigger] inside(spans[k], blocks[i]) && #[trigger] inside(spans[k], blocks[j])
                    ==> i == j
        }),
{
    let sorted = by_start(spans);
    let blocks = blocks_of(sorted);
    lemma_by_start(spans);
    lemma_forward_blocks(sorted);
    lemma_blocks_made_of(sorted);
    assert forall|k: int| 0 <= k < spans.len() implies held(blocks, #[trigger] spans[k]) by {
        let m = lemma_place(spans, k);
        assert(held(blocks, sorted[m]));
    }
    assert forall|i: int| 0 <= i < blocks.len() implies one_starts(
        spans,
        (#[trigger] blocks[i]).start as int,
    ) && one_ends(spans, blocks[i].end as int) by {
        assert(one_starts(sorted, blocks[i].start as int) && one_ends(sorted, blocks[i].end as int));
        let a = choose|a: int| 0 <= a < sorted.len() && (#[trigger] sorted[a]).start == blocks[i].start;
        let k = lemma_source(spans, a);
        assert(spans[k].start == blocks[i].start);
        let e = choose|e: int| 0 <= e < sorted.len() && (#[trigger] sorted[e]).end == blocks[i].end;
        let l = lemma_source(spans, e);
        assert(spans[l].end == blocks[i].end);
    }
    assert forall|k: int, i: int, j: int|
        0 <= k < spans.len() && 0 <= i < blocks.len() && 0 <= j < blocks.len() && #[trigger] inside(
            spans[k],
            blocks[i],
        ) && #[trigger] inside(spans[k], blocks[j]) implies i == j by {
        assert(forward(spans[k]));
        if i < j {
            assert(blocks[j].start - blocks[i].end >= DUCK_BLOCK_GAP);
        } else if j < i {
            assert(blocks[i].start - blocks[j].end >= DUCK_BLOCK_GAP);
        }
    }
}

/// Two stretches with a pause between them that is too short to part blocks lie within the same block.
pub proof fn law_short_pause_joins(spans: Seq<Span>, k: int, l: int)
    requires
        all_forward(spans),
        0 <= k < spans.len(),
        0 <= l < spans.len(),
        spans[k].start <= spans[l].start,
        spans[l].start - spans[k].end < DUCK_BLOCK_GAP,
    ensures
        together(blocks_of(by_start(spans)), spans[k], spans[l]),
{
    let sorted = by_start(spans);
    let blocks = blocks_of(sorted);
    lemma_by_start(spans);
    assert(forward(spans[k]) && forward(spans[l]));
    let a = lemma_place(spans, k);
    let b = lemma_place(spans, l);
    if a < b {
        lemma_blocks_join(sorted, a, b);
    } else if b < a {
        assert(sorted[b].start <= sorted[a].start);
        lemma_blocks_join(sorted, b, a);
        let i = choose|i: int|
            0 <= i < blocks.len() && inside(sorted[b], #[trigger] blocks[i]) && inside(
                sorted[a],
                blocks[i],
            );
        assert(inside(spans[k], blocks[i]) && inside(spans[l], blocks[i]));
    } else {
        lemma_forward_blocks(sorted);
        assert(held(blocks, sorted[a]));
        let i = choose|i: int| 0 <= i < blocks.len() && inside(sorted[a], #[trigger] blocks[i]);
        assert(inside(spans[k], blocks[i]) && inside(spans[l], blocks[i]));
    }
}

/// Two stretches that start together may come in either order.
proof fn lemma_merged_either_way(blocks: Seq<Span>, a: Span, b: Span)
    requires
        a.start == b.start,
        forward(a),
        forward(b),
    ensures
        merged(merged(blocks, a), b) == merged(merged(blocks, b), a),
{
    if blocks.len() > 0 && a.start - blocks.last().end < DUCK_BLOCK_GAP {
        assert(merged(blocks, a).drop_last() =~= blocks.drop_last());
        assert(merged(blocks, b).drop_last() =~= blocks.drop_last());
    } else {
        assert(merged(blocks, a).drop_last() =~= blocks);
        assert(merged(blocks, b).drop_last() =~= blocks);
    }
}

/// A stretch may move behind those that start with it.
proof fn lemma_moves_back(front: Seq<Span>, a: Span, tail: Seq<Span>)
    requires
        forward(a),
        forall|i: int| 0 <= i < tail.len() ==> forward(#[trigger] tail[i]) && tail[i].start == a.start,
    ensures
        blocks_of(front.push(a) + tail) == blocks_of((front + tail).push(a)),
    decreases tail.len(),
{
    if tail.len() == 0 {
        assert(front.push(a) + tail =~= (front + tail).push(a));
    } else {
        let rest = tail.drop_last();
        let t = tail.last();
        assert(forward(tail[tail.len() - 1]));
        assert forall|i: int| 0 <= i < rest.len() implies forward(#[trigger] rest[i]) && rest[i].start
            == a.start by {
            assert(forward(tail[i]));
        }
        lemma_moves_back(front, a, rest);
        assert(t == tail[tail.len() - 1]);
        let x = front.push(a) + tail;
        assert(x.drop_last() =~= front.push(a) + rest);
        let y = (front + rest).push(a);
        assert(y.drop_last() =~= front + rest);
        let z = (front + tail).push(a);
        assert(z.drop_last() =~= front + tail);
        assert((front + tail).drop_last() =~= front + rest);
        let c = blocks_of(front + rest);
        lemma_merged_either_way(c, a, t);
        assert(blocks_of(y) == merged(c, a));
        assert(blocks_of(x) == merged(blocks_of(y), t));
        assert(blocks_of(front + tail) == merged(c, t));
        assert(blocks_of(z) == merged(blocks_of(front + tail), a));
    }
}

proof fn lemma_same_blocks(x: Seq<Span>, y: Seq<Span>)
    requires
        x.to_multiset() == y.to_multiset(),
        all_forward(x),
        growing(x),
        growing(y),
    ensures
        blocks_of(x) == blocks_of(y),
    decreases y.len(),
{
    broadcast use vstd::multiset::group_multiset_axioms;

    x.to_multiset_ensures();
    y.to_multiset_ensures();
    if y.len() > 0 {
        let n = y.len() - 1;
        let m = y[n];
        assert(y.contains(m));
        assert(y.to_multiset().count(m) > 0);
        assert(x.contains(m));
        let k = choose|k: int| 0 <= k < x.len() && x[k] == m;
        let front = x.take(k);
        let tail = x.skip(k + 1);
        assert forall|i: int| 0 <= i < tail.len() implies forward(#[trigger] tail[i]) && tail[i].start
            == m.start by {
            let c = x[k + 1 + i];
            assert(forward(c));
            assert(x[k].start <= c.start);
            assert(x.contains(c));
            assert(x.to_multiset().count(c) > 0);
            assert(y.contains(c));
            let l = choose|l: int| 0 <= l < y.len() && y[l] == c;
            if l < n {
                assert(y[l].start <= y[n].start);
            }
        }
        assert(forward(x[k]));
        lemma_moves_back(front, m, tail);
        assert(front.push(m) + tail =~= x);
        let less = x.remove(k);
        assert(front + tail =~= less);
        assert(less.push(m).drop_last() =~= less);
        assert(y.drop_last() =~= y.remove(n));
        assert forall|i: int| 0 <= i < less.len() implies forward(#[trigger] less[i]) by {
            assert(less[i] == x[if i < k {
                i
            } else {
                i + 1
            }]);
        }
        assert forall|i: int, j: int| 0 <= i < j < less.len() implies (#[trigger] less[i]).start <= (
        #[trigger] less[j]).start by {
            let a = if i < k {
                i
            } else {
                i + 1
            };
            let b = if j < k {
                j
            } else {
                j + 1
            };
            assert(x[a].start <= x[b].start);
        }
        lemma_same_blocks(less, y.drop_last());
    }
}

/// Ordering the stretches keeps each as often as it was there.
proof fn lemma_by_start_keeps(spans: Seq<Span>)
    ensures
        by_start(spans).to_multiset() == spans.to_multiset(),
    decreases spans.len(),
{
    if spans.len() == 0 {
        assert(by_start(spans) =~= spans);
    } else {
        let prev = spans.drop_last();
        let keys = starts_of(spans);
        let before = starts_of(prev);
        assert(keys.drop_last() =~= before);
        let o = rank::stable_order(before);
        rank::law_stable_order(before);
        rank::law_stable_order(keys);
        let at = rank::slot(o, keys, keys.last());
        rank::lemma_slot(o, keys, keys.last());
        lemma_by_start_keeps(prev);
        let sorted = by_start(prev);
        assert(by_start(spans) =~= sorted.insert(at, spans.last())) by {
            assert forall|i: int| 0 <= i < o.len() implies spans[#[trigger] o[i]] == prev[o[i]] by {
                assert(0 <= o[i] < before.len());
            }
        }
        vstd::seq_lib::to_multiset_insert(sorted, at, spans.last());
        vstd::seq_lib::to_multiset_build(prev, spans.last());
        assert(spans =~= prev.push(spans.last()));
    }
}

/// In which order the stretches are told does not matter.
pub proof fn law_blocks_ignore_order(spans: Seq<Span>, others: Seq<Span>)
    requires
        spans.to_multiset() == others.to_multiset(),
        all_forward(spans),
    ensures
        blocks_of(by_start(others)) == blocks_of(by_start(spans)),
{
    lemma_by_start(spans);
    lemma_by_start(others);
    lemma_by_start_keeps(spans);
    lemma_by_start_keeps(others);
    let sorted = by_start(spans);
    lemma_same_blocks(sorted, by_start(others));
}

/// A line never begins before its start, nor before the line in front of it ends, and its slot is
/// never shorter than the shortest.
pub proof fn law_slot(segs: Seq<Segment>, i: int, total: int, cursor: int, adapt: bool)
    requires
        0 <= i < segs.len(),
    ensures
        slot_of(segs, i, total, cursor, adapt).0 >= segs[i].start,
        slot_of(segs, i, total, cursor, adapt).0 >= cursor,
        slot_of(segs, i, total, cursor, adapt).1 >= MIN_SLOT,
{
}

/// A take is never sped up beyond its cap, nor slowed down below 85 hundredths, where the cap is not
/// below that itself.
pub proof fn law_stretch_is_bounded(actual: int, target: int, cap: int)
    requires
        cap >= 850_000,
    ensures
        stretch_of(actual, target, cap) matches Some(f) ==> 850_000 <= f <= cap,
{
}

/// Where a line goes: at its start, or where the lines before it end if that is later, and it lags behind by
/// the difference. It has until the next line starts, or the film ends; where the pace adapts, as long as it
/// is itself; and three tenths of a second at least.
pub proof fn law_where_a_line_goes(segs: Seq<Segment>, i: int, total: int, cursor: int)
    requires
        0 <= i < segs.len(),
    ensures
        ({
            let free = slot_of(segs, i, total, cursor, false);
            let own = slot_of(segs, i, total, cursor, true);
            let until = if i + 1 < segs.len() {
                segs[i + 1].start as int
            } else {
                total
            };
            &&& cursor <= segs[i].start ==> free.0 == segs[i].start && free.2 == 0
            &&& cursor > segs[i].start ==> free.0 == cursor && segs[i].start + free.2 == cursor
            &&& own.0 == free.0 && own.2 == free.2
            &&& until - free.0 >= 300_000 ==> free.0 + free.1 == until
            &&& until - free.0 < 300_000 ==> free.1 == 300_000
            &&& segs[i].end - segs[i].start >= 300_000 ==> own.1 == segs[i].end - segs[i].start
            &&& segs[i].end - segs[i].start < 300_000 ==> own.1 == 300_000
        }),
{
}

/// How much a take may be sped up. Where durations are not watched, ten times; else as far as is set, and in a
/// slot of less than a second and a half three tenths at least. Beyond that it is sped up only as much as it
/// needs: up to four times where the pace adapts, up to twice where the dub lags by more than six tenths of a
/// second.
pub proof fn law_how_much_a_take_may_be_sped_up(target: int, stretch: int, base: int, needed: int, drift: int)
    ensures
        base_cap(false, target, stretch) == 10_000_000,
        target >= 1_500_000 ==> base_cap(true, target, stretch) == stretch,
        target < 1_500_000 ==> base_cap(true, target, stretch) >= stretch && base_cap(true, target, stretch)
            >= 1_300_000 && (base_cap(true, target, stretch) == stretch || base_cap(true, target, stretch)
            == 1_300_000),
        drift <= 600_000 ==> cap_of(base, needed, false, drift) == base,
        drift > 600_000 && base <= 2_000_000 && needed <= base ==> cap_of(base, needed, false, drift) == base,
        drift > 600_000 && base < needed <= 2_000_000 ==> cap_of(base, needed, false, drift) == needed,
        drift > 600_000 && needed > 2_000_000 ==> cap_of(base, needed, false, drift) == 2_000_000,
        drift > 600_000 && base > 2_000_000 ==> cap_of(base, needed, false, drift) == 2_000_000,
        base <= 4_000_000 && needed <= base ==> cap_of(base, needed, true, drift) == base,
        base < needed <= 4_000_000 ==> cap_of(base, needed, true, drift) == needed,
        needed > 4_000_000 || base > 4_000_000 ==> cap_of(base, needed, true, drift) == 4_000_000,
{
}

/// A take that is stretched comes to the wanted length: the factor is what the two lengths make, to the
/// millionth below, unless that is beyond the cap or below 85 hundredths, which are used then. Nothing is
/// stretched by less than two hundredths, nor where there is next to nothing.
pub proof fn law_take_comes_to_its_length(actual: int, target: int, cap: int)
    requires
        actual > 50_000,
        target > 50_000,
        cap >= 850_000,
    ensures
        ({
            let f = match stretch_of(actual, target, cap) {
                Some(f) => f,
                None => 1_000_000,
            };
            &&& stretch_of(actual, target, cap) matches Some(x) ==> x < 980_000 || x > 1_020_000
            &&& f * target <= actual * 1_000_000 < (f + 1) * target || f == cap || f == 850_000 || (
            980_000 <= f <= 1_020_000)
            &&& 100 * actual > 103 * target && cap > 1_020_000 ==> f > 1_020_000
            &&& 100 * actual < 98 * target ==> f < 980_000
            &&& cap * target < actual * 1_000_000 && (cap < 980_000 || cap > 1_020_000) ==> f == cap
            &&& 100 * actual < 85 * target ==> f == 850_000
        }),
        stretch_of(50_000, target, cap) is None && stretch_of(actual, 50_000, cap) is None,
{
    let n = needed_factor(actual, target);
    let a = actual * 1_000_000;
    assert(n * target <= a < (n + 1) * target) by (nonlinear_arith)
        requires
            n == a / target,
            target > 0,
    ;
    if 100 * actual < 98 * target {
        assert(n < 980_000) by (nonlinear_arith)
            requires
                n * target <= actual * 1_000_000,
                100 * actual < 98 * target,
                target > 0,
        ;
    }
    if 100 * actual < 85 * target {
        assert(n < 850_000) by (nonlinear_arith)
            requires
                n * target <= actual * 1_000_000,
                100 * actual < 85 * target,
                target > 0,
        ;
    }
    if cap * target < a {
        assert(n >= cap) by (nonlinear_arith)
            requires
                cap * target < a,
                a < (n + 1) * target,
                target > 0,
        ;
    }
    if 100 * actual > 103 * target {
        assert(n >= 1_029_000) by (nonlinear_arith)
            requires
                actual * 1_000_000 < (n + 1) * target,
                100 * actual > 103 * target,
                target > 0,
        ;
    }
}

/// Pauses of less than 1.6 seconds do not part blocks of speech, and longer ones do: between two blocks there
/// are at least so many, and two stretches with less between them lie in one block.
pub proof fn law_blocks_are_parted_by_long_pauses(spans: Seq<Span>, k: int, l: int)
    requires
        all_forward(spans),
        0 <= k < spans.len(),
        0 <= l < spans.len(),
        spans[k].start <= spans[l].start,
    ensures
        spans[l].start - spans[k].end < 1_600_000 ==> together(
            blocks_of(by_start(spans)),
            spans[k],
            spans[l],
        ),
        forall|i: int, j: int|
            0 <= i < j < blocks_of(by_start(spans)).len() ==> (#[trigger] blocks_of(by_start(spans))[j]).start
                - (#[trigger] blocks_of(by_start(spans))[i]).end >= 1_600_000,
{
    law_blocks_are_made_of_stretches(spans);
    if spans[l].start - spans[k].end < 1_600_000 {
        law_short_pause_joins(spans, k, l);
    }
}

/// A stretch keeps its place on a track whose length changes: its times change as the length does, to the
/// microsecond below.
pub proof fn law_blocks_move_with_the_track(s: Span, from: int, to: int)
    requires
        from > 0,
    ensures
        scaled(s, from, to).0 * from <= s.start * to < (scaled(s, from, to).0 + 1) * from,
        scaled(s, from, to).1 * from <= s.end * to < (scaled(s, from, to).1 + 1) * from,
{
    let (a, b) = (s.start * to, s.end * to);
    let (x, y) = (a / from, b / from);
    assert(x * from <= a < (x + 1) * from) by (nonlinear_arith)
        requires
            x == a / from,
            from > 0,
    ;
    assert(y * from <= b < (y + 1) * from) by (nonlinear_arith)
        requires
            y == b / from,
            from > 0,
    ;
}

/// A track is made faster only if it is more than 150 milliseconds longer than the film, and then just so much
/// that it is no longer: a millionth less would not do.
pub proof fn law_track_is_made_just_fast_enough(track: int, total: int)
    requires
        total > 0,
    ensures
        whole_factor(track, total) is Some <==> track - total > 150_000,
        whole_factor(track, total) matches Some(f) ==> total * (f - 1) < track * 1_000_000 <= total * f,
{
    if track - total > 150_000 {
        let a = track * 1_000_000 + total - 1;
        let f = a / total;
        assert(f * total <= a < (f + 1) * total) by (nonlinear_arith)
            requires
                f == a / total,
                total > 0,
        ;
        assert(total * (f - 1) == f * total - total && total * f == f * total && (f + 1) * total == f * total
            + total) by (nonlinear_arith);
    }
}

} // verus!
