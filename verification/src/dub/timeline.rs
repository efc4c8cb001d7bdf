//! Laying the spoken lines on one track, sample by sample: none overlaps another and none is cut.
//!
//! Moments on the track are whole millionths of a sample: a moment in microseconds times the rate.

use crate::project;
use crate::rank;
use vstd::prelude::*;

verus! {

/// The highest rate of samples.
pub const RATE_LIMIT: u64 = 1_000_000;

/// The longest sound of a line, in samples.
pub const SAMPLE_LIMIT: u64 = 1_000_000_000_000;

/// A line that is laid on the track.
#[derive(Clone, Copy, Debug, PartialEq, Eq, Structural)]
pub struct Piece {
    /// When it is to be heard, in microseconds.
    pub start: i64,
    /// How long its sound is, in samples.
    pub samples: u64,
}

pub open spec fn pieces_ok(ps: Seq<Piece>) -> bool {
    forall|i: int|
        0 <= i < ps.len() ==> project::time_ok((#[trigger] ps[i]).start) && ps[i].samples
            <= SAMPLE_LIMIT
}

pub open spec fn starts_of(ps: Seq<Piece>) -> Seq<int> {
    ps.map_values(|p: Piece| p.start as int)
}

/// The lines in the order of their times.
pub open spec fn by_time(ps: Seq<Piece>) -> Seq<Piece> {
    let o = rank::stable_order(starts_of(ps));
    Seq::new(o.len(), |i: int| ps[o[i]])
}

/// From where to where a line is heard.
#[derive(Clone, Copy, Debug, PartialEq, Eq, Structural)]
pub struct Extent {
    pub at: i128,
    pub end: i128,
}

/// Where the lines before the line `i` end.
pub open spec fn cursor_at(es: Seq<Extent>, i: int) -> int {
    if i == 0 {
        0
    } else {
        es[i - 1].end as int
    }
}

/// Where a line is heard: at its time, or where the line before ends.
pub open spec fn extent_of(p: Piece, cursor: int, rate: int) -> (int, int) {
    let at = if p.start * rate > cursor {
        p.start * rate
    } else {
        cursor
    };
    (at, at + p.samples * 1_000_000)
}

/// The line `i` is where it is to be heard.
pub open spec fn is_laid(es: Seq<Extent>, ps: Seq<Piece>, rate: int, i: int) -> bool {
    (es[i].at as int, es[i].end as int) == extent_of(ps[i], cursor_at(es, i), rate)
}

/// The lines of a list of lines in order, each where it is heard.
pub open spec fn is_layout(es: Seq<Extent>, ps: Seq<Piece>, rate: int) -> bool {
    es.len() == ps.len() && forall|i: int|
        0 <= i < es.len() ==> #[trigger] is_laid(es, ps, rate, i)
}

/// A breath before a line.
#[derive(Clone, Copy, Debug, PartialEq, Eq, Structural)]
pub struct Breath {
    /// Which breath it is.
    pub seed: usize,
    pub at: i128,
    /// In samples.
    pub samples: u64,
}

/// How long a breath is, in samples.
pub open spec fn breath_length(seed: int, rate: int) -> int {
    (18 + 2 * (seed % 5)) * rate / 100
}

/// There is a breath before the line `i`: the pause before it is neither too short nor too long.
pub open spec fn breathes(es: Seq<Extent>, i: int, rate: int) -> bool {
    i > 0 && 400_000 * rate <= es[i].at - es[i - 1].end <= 1_800_000 * rate
}

/// When the breath before the line `i` is heard: shortly before the line, not in the line before.
pub open spec fn breath_at(es: Seq<Extent>, i: int, rate: int) -> int {
    let wanted = es[i].at - breath_length(i, rate) * 1_000_000 - 40_000 * rate;
    let first = es[i - 1].end + 40_000 * rate;
    if wanted > first {
        wanted
    } else {
        first
    }
}

/// The breaths before the first `n` lines.
pub open spec fn breaths_of(es: Seq<Extent>, rate: int, n: nat) -> Seq<(int, int, int)>
    decreases n,
{
    if n == 0 {
        Seq::empty()
    } else {
        let before = breaths_of(es, rate, (n - 1) as nat);
        let i = n - 1;
        if breathes(es, i, rate) {
            before.push((i, breath_at(es, i, rate), breath_length(i, rate)))
        } else {
            before
        }
    }
}

pub open spec fn breath_views(v: Seq<Breath>) -> Seq<(int, int, int)> {
    v.map_values(|b: Breath| (b.seed as int, b.at as int, b.samples as int))
}

/// The track.
#[derive(Clone, Debug)]
pub struct Timeline {
    /// The lines in the order of their times: the places that they had.
    pub order: Vec<usize>,
    /// Where they are heard.
    pub extents: Vec<Extent>,
    pub breaths: Vec<Breath>,
    /// How long the track is, in samples.
    pub length: u128,
}

/// The rate of a track without lines.
pub const SILENT_RATE: u64 = 24_000;

/// How long the track is, in samples: half a second longer than the film or the lines; as long as the film where
/// there are no lines.
pub open spec fn length_of(es: Seq<Extent>, total: int, rate: int) -> int {
    let film = total * rate;
    if es.len() == 0 {
        film / 1_000_000
    } else {
        let all = if film > cursor_at(es, es.len() as int) {
            film
        } else {
            cursor_at(es, es.len() as int)
        };
        (all + 500_000 * rate) / 1_000_000
    }
}

/// The sample at which a sound that is heard at the moment `at` begins.
pub open spec fn first_sample(at: int) -> int {
    at / 1_000_000
}

/// The sample at which a sound begins.
pub fn begins_at(at: i128) -> (r: u128)
    requires
        at >= 0,
    ensures
        r == first_sample(at as int),
{
    (at / 1_000_000) as u128
}

/// Lays the lines on a track of the given rate. `total` is how long the film is; where `breath` is set, a
/// breath goes before a line that follows a pause.
pub fn timeline(ps: &Vec<Piece>, total: i64, rate: u64, breath: bool) -> (r: Timeline)
    requires
        pieces_ok(ps@),
        ps@.len() <= 1_000_000_000,
        0 <= total <= project::TIME_LIMIT,
        0 < rate <= RATE_LIMIT,
    ensures
        rank::indices(r.order@) == rank::stable_order(starts_of(ps@)),
        is_layout(r.extents@, by_time(ps@), rate as int),
        breath_views(r.breaths@) == if breath {
            breaths_of(r.extents@, rate as int, ps@.len())
        } else {
            Seq::empty()
        },
        r.length == length_of(r.extents@, total as int, rate as int),
{
    let n: usize = ps.len();
    let ghost rt = rate as int;
    let mut keys: Vec<i128> = Vec::new();
    for i in 0..n
        invariant
            n == ps@.len(),
            keys@.len() == i,
            forall|j: int| 0 <= j < i ==> #[trigger] keys@[j] == ps@[j].start,
    {
        keys.push(ps[i].start as i128);
    }
    assert(rank::ints(keys@) =~= starts_of(ps@));
    let order = rank::stable_sort(&keys);
    let ghost o = rank::indices(order@);
    let ghost down = by_time(ps@);
    let mut es: Vec<Extent> = Vec::new();
    let mut cursor: i128 = 0;
    for i in 0..n
        invariant
            n == ps@.len(),
            n <= 1_000_000_000,
            pieces_ok(ps@),
            0 < rate <= RATE_LIMIT,
            rt == rate,
            order@.len() == n,
            o == rank::indices(order@),
            starts_of(ps@).len() == n,
            rank::is_order(o, starts_of(ps@)),
            o == rank::stable_order(starts_of(ps@)),
            down == by_time(ps@),
            es@.len() == i,
            cursor == cursor_at(es@, es@.len() as int),
            0 <= cursor <= 100_000_000_000_000_000_000 + i * 1_000_000_000_000_000_000,
            forall|j: int| 0 <= j < i ==> #[trigger] is_laid(es@, down, rt, j),
            forall|j: int|
                0 <= j < i ==> 0 <= (#[trigger] es@[j]).at <= es@[j].end
                    <= 100_000_000_000_000_000_000 + n * 1_000_000_000_000_000_000,
    {
        let x: usize = order[i];
        assert(o[i as int] == x);
        assert(down[i as int] == ps@[x as int]);
        assert(project::time_ok(ps@[x as int].start));
        let p = ps[x];
        assert(-100_000_000_000_000_000_000 <= p.start * rate <= 100_000_000_000_000_000_000)
            by (nonlinear_arith)
            requires
                -100_000_000_000_000 <= p.start <= 100_000_000_000_000,
                0 < rate <= 1_000_000,
        ;
        let wanted: i128 = p.start as i128 * rate as i128;
        let at: i128 = if wanted > cursor {
            wanted
        } else {
            cursor
        };
        let end: i128 = at + p.samples as i128 * 1_000_000;
        let ghost was = es@;
        es.push(Extent { at, end });
        proof {
            assert forall|j: int| 0 <= j < i + 1 implies #[trigger] is_laid(es@, down, rt, j) by {
                if j < i {
                    assert(is_laid(was, down, rt, j));
                    assert(es@[j] == was[j]);
                    if j > 0 {
                        assert(es@[j - 1] == was[j - 1]);
                    }
                }
            }
        }
        cursor = end;
    }
    let mut bs: Vec<Breath> = Vec::new();
    assert(breath_views(bs@) =~= Seq::empty());
    if breath {
        for i in 0..n
            invariant
                n == es@.len(),
                n <= 1_000_000_000,
                0 < rate <= RATE_LIMIT,
                rt == rate,
                forall|j: int|
                    0 <= j < n ==> 0 <= (#[trigger] es@[j]).at <= es@[j].end
                        <= 100_000_000_000_000_000_000 + n * 1_000_000_000_000_000_000,
                breath_views(bs@) == breaths_of(es@, rt, i as nat),
        {
            if i > 0 {
                let prev: i128 = es[i - 1].end;
                let at: i128 = es[i].at;
                let r128: i128 = rate as i128;
                if 400_000 * r128 <= at - prev && at - prev <= 1_800_000 * r128 {
                    assert(0 <= (18 + 2 * (i as int % 5)) * rt <= 26 * 1_000_000) by (nonlinear_arith)
                        requires
                            0 < rt <= 1_000_000,
                    ;
                    let samples: u64 = (18 + 2 * (i as u64 % 5)) * rate / 100;
                    let wanted: i128 = at - samples as i128 * 1_000_000 - 40_000 * r128;
                    let first: i128 = prev + 40_000 * r128;
                    let b = Breath {
                        seed: i,
                        at: if wanted > first {
                            wanted
                        } else {
                            first
                        },
                        samples,
                    };
                    let ghost was = breath_views(bs@);
                    bs.push(b);
                    assert(breath_views(bs@) =~= was.push(
                        (i as int, breath_at(es@, i as int, rt), breath_length(i as int, rt)),
                    ));
                }
            }
        }
    }
    assert(0 <= total * rate <= 100_000_000_000_000_000_000) by (nonlinear_arith)
        requires
            0 <= total <= 100_000_000_000_000,
            0 < rate <= 1_000_000,
    ;
    let film: i128 = total as i128 * rate as i128;
    let all: i128 = if film > cursor {
        film
    } else {
        cursor
    };
    let length: u128 = if n == 0 {
        (film / 1_000_000) as u128
    } else {
        ((all + 500_000 * rate as i128) / 1_000_000) as u128
    };
    assert(cursor == cursor_at(es@, es@.len() as int));
    Timeline { order, extents: es, breaths: bs, length }
}

/// When a moment on the track is, in microseconds.
pub fn to_micros(at: i128, rate: u64) -> (r: i128)
    requires
        at >= 0,
        rate > 0,
    ensures
        r == at as int / rate as int,
{
    at / rate as i128
}

// ── Defects of a take ───────────────────────────────────────────────────────

/// What is wrong with a take.
#[derive(Clone, Copy, Debug, PartialEq, Eq, Structural)]
pub enum Defect {
    Runaway,
    Cutoff,
    Silence,
    Hum,
}

/// What the length of a take says: far too long for so many characters, or far too short. Nothing is said of
/// an empty one.
pub open spec fn length_defect_of(samples: int, rate: int, chars: int) -> Option<Defect> {
    let most = if 4 * chars > 60 {
        4 * chars
    } else {
        60
    };
    if samples == 0 || rate == 0 {
        None
    } else if chars >= 1 && 10 * samples > most * rate {
        Some(Defect::Runaway)
    } else if chars >= 4 && 1000 * samples < 45 * chars * rate {
        Some(Defect::Cutoff)
    } else {
        None
    }
}

/// What the length of a take says.
pub fn length_defect(samples: u64, rate: u32, chars: u32) -> (r: Option<Defect>)
    ensures
        r == length_defect_of(samples as int, rate as int, chars as int),
{
    let most: u128 = if 4 * chars as u128 > 60 {
        4 * chars as u128
    } else {
        60
    };
    proof {
        assert(0 <= most * rate <= 0x4_0000_0000 * 0x1_0000_0000) by (nonlinear_arith)
            requires
                0 <= most <= 0x4_0000_0000,
                0 <= rate <= 0xffff_ffff,
        ;
        assert(0 <= 45 * chars * rate <= 45 * 0x1_0000_0000 * 0x1_0000_0000) by (nonlinear_arith)
            requires
                0 <= chars <= 0xffff_ffff,
                0 <= rate <= 0xffff_ffff,
        ;
    }
    if samples == 0 || rate == 0 {
        None
    } else if chars >= 1 && 10 * samples as u128 > most * rate as u128 {
        Some(Defect::Runaway)
    } else if chars >= 4 && 1000 * (samples as u128) < 45 * chars as u128 * rate as u128 {
        Some(Defect::Cutoff)
    } else {
        None
    }
}

/// The windows in which the loudness of a take is measured: a fortieth of a second each; nothing where the
/// take has fewer than four.
pub fn loudness_windows(samples: usize, rate: u32) -> (r: Option<(usize, usize)>)
    ensures
        r == ({
            let w = rate / 40;
            if w == 0 || samples < w * 4 {
                None
            } else {
                Some((w as usize, (samples / w as usize)))
            }
        }),
{
    let w: u32 = rate / 40;
    if w == 0 || (samples as u64) < w as u64 * 4 {
        None
    } else {
        Some((w as usize, samples / w as usize))
    }
}

/// What is wrong with a take: its length, else its loudness. `quiet`: it is nowhere loud enough; `flat`: the
/// loudness hardly changes; `unbroken`: there are hardly any pauses.
pub fn defect(by_length: Option<Defect>, measured: bool, quiet: bool, flat: bool, unbroken: bool) -> (r:
    Option<Defect>)
    ensures
        r == if by_length is Some {
            by_length
        } else if !measured {
            None
        } else if quiet {
            Some(Defect::Silence)
        } else if flat && unbroken {
            Some(Defect::Hum)
        } else {
            None
        },
{
    if by_length.is_some() {
        by_length
    } else if !measured {
        None
    } else if quiet {
        Some(Defect::Silence)
    } else if flat && unbroken {
        Some(Defect::Hum)
    } else {
        None
    }
}

// ── Laws ────────────────────────────────────────────────────────────────────

/// No line overlaps another: each begins where those before it have ended, and not before its time.
pub proof fn law_lines_do_not_overlap(es: Seq<Extent>, ps: Seq<Piece>, rate: int, i: int, j: int)
    requires
        is_layout(es, ps, rate),
        0 <= i < j < es.len(),
    ensures
        es[i].end <= es[j].at,
        es[j].at >= ps[j].start * rate,
    decreases j - i,
{
    assert(is_laid(es, ps, rate, j));
    if i < j - 1 {
        law_lines_do_not_overlap(es, ps, rate, i, j - 1);
        assert(is_laid(es, ps, rate, j - 1));
    }
}

/// No line is cut: the track reaches beyond the last sample of each.
pub proof fn law_no_line_is_cut(es: Seq<Extent>, ps: Seq<Piece>, total: int, rate: int, i: int)
    requires
        is_layout(es, ps, rate),
        0 <= i < es.len(),
        rate > 0,
    ensures
        first_sample(es[i].at as int) + ps[i].samples <= length_of(es, total, rate),
{
    let n = es.len() as int;
    if i < n - 1 {
        law_lines_do_not_overlap(es, ps, rate, i, n - 1);
        assert(is_laid(es, ps, rate, n - 1));
    }
    assert(is_laid(es, ps, rate, i));
    assert(es[i].end <= cursor_at(es, es.len() as int));
    let at = es[i].at as int;
    let k = ps[i].samples as int;
    assert((at + k * 1_000_000) / 1_000_000 == at / 1_000_000 + k);
}

proof fn lemma_breaths(es: Seq<Extent>, rate: int, n: nat, k: int)
    requires
        0 <= k < breaths_of(es, rate, n).len(),
    ensures
        ({
            let b = breaths_of(es, rate, n)[k];
            0 < b.0 < n && breathes(es, b.0, rate) && b.1 == breath_at(es, b.0, rate)
        }),
    decreases n,
{
    if n > 0 {
        let t = breaths_of(es, rate, (n - 1) as nat);
        if k < t.len() {
            lemma_breaths(es, rate, (n - 1) as nat, k);
        }
    }
}

/// A breath is only heard in the pause between two lines: not before the line before it has ended.
pub proof fn law_breath_is_in_a_pause(es: Seq<Extent>, rate: int, n: nat, k: int)
    requires
        0 <= k < breaths_of(es, rate, n).len(),
        rate > 0,
    ensures
        ({
            let b = breaths_of(es, rate, n)[k];
            0 < b.0 < n && es[b.0 - 1].end < b.1
        }),
{
    lemma_breaths(es, rate, n, k);
}

/// The lines are laid in the order of their times, each once.
pub proof fn law_lines_are_laid_in_time(ps: Seq<Piece>) -> (o: Seq<int>)
    ensures
        rank::is_order(o, ps.map_values(|p: Piece| p.start as int)),
        by_time(ps) == o.map_values(|i: int| ps[i]),
{
    rank::law_stable_order(starts_of(ps));
    assert(starts_of(ps) =~= ps.map_values(|p: Piece| p.start as int));
    let o = rank::stable_order(starts_of(ps));
    assert(by_time(ps) =~= o.map_values(|i: int| ps[i]));
    o
}

/// Each line is heard at its own time unless the line before is still heard then, and at once behind that
/// one else; and it is heard whole: for as many samples as it has.
pub proof fn law_line_is_heard_at_its_time(es: Seq<Extent>, ps: Seq<Piece>, rate: int, i: int)
    requires
        is_layout(es, ps, rate),
        0 <= i < es.len(),
    ensures
        es[i].end - es[i].at == 1_000_000 * ps[i].samples,
        i == 0 && ps[i].start >= 0 && rate >= 0 ==> es[i].at == ps[i].start * rate,
        i > 0 && es[i - 1].end <= ps[i].start * rate ==> es[i].at == ps[i].start * rate,
        i > 0 && es[i - 1].end > ps[i].start * rate ==> es[i].at == es[i - 1].end,
{
    assert(is_laid(es, ps, rate, i));
    if i == 0 && ps[i].start >= 0 && rate >= 0 {
        assert(ps[i].start * rate >= 0) by (nonlinear_arith)
            requires
                ps[i].start >= 0,
                rate >= 0,
        ;
    }
}

/// There is a breath in every pause between two lines that is between four tenths of a second and 1.8 seconds
/// long, and in no other. It is 18 to 26 hundredths of a second long and heard 40 milliseconds before the line,
/// but not less than 40 milliseconds behind the one before.
pub proof fn law_there_is_a_breath_in_every_pause(es: Seq<Extent>, rate: int, n: nat, i: int)
    requires
        0 <= i < n,
        rate > 0,
    ensures
        ({
            let pause = es[i].at - es[i - 1].end;
            let breath = exists|k: int|
                0 <= k < breaths_of(es, rate, n).len() && (#[trigger] breaths_of(es, rate, n)[k]).0 == i;
            breath <==> i > 0 && 4 * rate * 100_000 <= pause && pause <= 18 * rate * 100_000
        }),
        forall|k: int|
            0 <= k < breaths_of(es, rate, n).len() ==> {
                let b = #[trigger] breaths_of(es, rate, n)[k];
                &&& 0 < b.0 < n
                &&& 18 * rate <= 100 * b.2 + 99 && 100 * b.2 <= 26 * rate
                &&& b.1 + 1_000_000 * b.2 + 40_000 * rate == es[b.0].at || b.1 == es[b.0 - 1].end + 40_000
                    * rate
                &&& b.1 + 1_000_000 * b.2 + 40_000 * rate >= es[b.0].at
                &&& b.1 >= es[b.0 - 1].end + 40_000 * rate
            },
    decreases n,
{
    let m = (n - 1) as nat;
    let was = breaths_of(es, rate, m);
    let now = breaths_of(es, rate, n);
    let z = n - 1;
    if n > 1 {
        law_there_is_a_breath_in_every_pause(es, rate, m, if i < m {
            i
        } else {
            0
        });
    }
    assert(breathes(es, z, rate) <==> z > 0 && 4 * rate * 100_000 <= es[z].at - es[z - 1].end && es[z].at - es[z
        - 1].end <= 18 * rate * 100_000);
    let len = breath_length(z, rate);
    let q = 18 + 2 * (z as int % 5);
    assert(18 * rate <= q * rate <= 26 * rate) by (nonlinear_arith)
        requires
            18 <= q <= 26,
            rate > 0,
    ;
    assert(len == q * rate / 100);
    assert forall|k: int| 0 <= k < now.len() implies {
        let b = #[trigger] now[k];
        &&& 0 < b.0 < n
        &&& 18 * rate <= 100 * b.2 + 99 && 100 * b.2 <= 26 * rate
        &&& b.1 + 1_000_000 * b.2 + 40_000 * rate == es[b.0].at || b.1 == es[b.0 - 1].end + 40_000 * rate
        &&& b.1 + 1_000_000 * b.2 + 40_000 * rate >= es[b.0].at
        &&& b.1 >= es[b.0 - 1].end + 40_000 * rate
    } by {
        if k < was.len() {
            assert(now[k] == was[k]);
        } else {
            assert(now[k] == (z, breath_at(es, z, rate), len));
        }
    }
    let before = exists|k: int| 0 <= k < was.len() && (#[trigger] was[k]).0 == i;
    let after = exists|k: int| 0 <= k < now.len() && (#[trigger] now[k]).0 == i;
    if before {
        let k = choose|k: int| 0 <= k < was.len() && (#[trigger] was[k]).0 == i;
        assert(now[k].0 == i);
    }
    if after && !before {
        let k = choose|k: int| 0 <= k < now.len() && (#[trigger] now[k]).0 == i;
        if k < was.len() {
            assert(was[k].0 == i);
        }
        assert(now[k].0 == z);
    }
    if i == z && now.len() > was.len() {
        assert(now[was.len() as int].0 == z);
    }
    if i == z && before {
        let k = choose|k: int| 0 <= k < was.len() && (#[trigger] was[k]).0 == i;
        assert(was[k].0 < m);
    }
}

/// The track is half a second longer than the film and than the lines; without lines it is as long as the film.
pub proof fn law_track_outlasts_film_and_lines(es: Seq<Extent>, total: int, rate: int)
    requires
        rate > 0,
    ensures
        es.len() == 0 ==> 1_000_000 * length_of(es, total, rate) <= total * rate < 1_000_000 * (length_of(
            es,
            total,
            rate,
        ) + 1),
        es.len() > 0 ==> ({
            let n = length_of(es, total, rate);
            let more = 500_000 * rate;
            &&& 1_000_000 * (n + 1) > total * rate + more
            &&& 1_000_000 * (n + 1) > es.last().end + more
            &&& 1_000_000 * n <= total * rate + more || 1_000_000 * n <= es.last().end + more
        }),
{
}

/// A take is a runaway if it lasts longer than four tenths of a second for each character, and than six
/// seconds; it is cut off if it has four characters and more and lasts less than 45 milliseconds for each.
pub proof fn law_length_tells_a_bad_take(samples: int, rate: int, chars: int)
    requires
        samples > 0,
        rate > 0,
        chars >= 0,
    ensures
        length_defect_of(samples, rate, chars) == Some(Defect::Runaway) <==> chars > 0 && samples > 6 * rate
            && 10 * samples > 4 * chars * rate,
        length_defect_of(samples, rate, chars) == Some(Defect::Cutoff) <==> chars >= 4 && 1000 * samples < 45
            * chars * rate && !(samples > 6 * rate && 10 * samples > 4 * chars * rate),
        length_defect_of(samples, rate, chars) matches Some(d) ==> d is Runaway || d is Cutoff,
{
    if 4 * chars > 60 {
        assert(4 * chars * rate > 60 * rate) by (nonlinear_arith)
            requires
                4 * chars > 60,
                rate > 0,
        ;
    } else {
        assert(4 * chars * rate <= 60 * rate) by (nonlinear_arith)
            requires
                4 * chars <= 60,
                rate > 0,
        ;
    }
}

} // verus!
