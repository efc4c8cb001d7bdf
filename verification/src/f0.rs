//! The pitch of a voice: which pieces of the sound are looked at, which period wins, whose voice it is.
//!
//! Pitches are whole millionths of a hertz; the correlation itself is measured outside and comes as whole
//! numbers that order its measures.

use crate::rank;
use vstd::prelude::*;

verus! {

/// Whose voice it sounds like.
#[derive(Clone, Copy, Debug, PartialEq, Eq, Structural)]
pub enum Gender {
    Male,
    Female,
}

/// Below this pitch a voice is a man's.
pub const MALE_PITCH: i64 = 155_000_000;

/// Above this pitch a voice is a woman's.
pub const FEMALE_PITCH: i64 = 165_000_000;

/// Whose voice it sounds like: between the two limits the nearer one decides.
pub open spec fn gender_at(pitch: int) -> Gender {
    if pitch < MALE_PITCH {
        Gender::Male
    } else if pitch > FEMALE_PITCH {
        Gender::Female
    } else if pitch - MALE_PITCH <= FEMALE_PITCH - pitch {
        Gender::Male
    } else {
        Gender::Female
    }
}

/// Whose voice it sounds like.
pub fn gender_of(pitch: i64) -> (r: Gender)
    ensures
        r == gender_at(pitch as int),
{
    if pitch < MALE_PITCH {
        Gender::Male
    } else if pitch > FEMALE_PITCH {
        Gender::Female
    } else if pitch - MALE_PITCH <= FEMALE_PITCH - pitch {
        Gender::Male
    } else {
        Gender::Female
    }
}

/// How a sound is cut into pieces, and which periods are tried in each.
#[derive(Clone, Copy, Debug, PartialEq, Eq, Structural)]
pub struct Grid {
    /// The length of a piece, in samples.
    pub frame: usize,
    /// From one piece to the next, in samples.
    pub hop: usize,
    pub min_lag: usize,
    pub max_lag: usize,
}

/// Forty milliseconds each, every twenty; periods from 400 down to 60 hertz.
pub open spec fn grid_for(rate: int) -> Grid {
    Grid {
        frame: ((rate * 4 + 50) / 100) as usize,
        hop: ((rate * 2 + 50) / 100) as usize,
        min_lag: (rate / 400) as usize,
        max_lag: ((rate + 59) / 60) as usize,
    }
}

/// A piece is long enough for the periods that are tried, and the sound holds at least one piece.
pub open spec fn usable(g: Grid, samples: int) -> bool {
    g.frame >= 4 && g.min_lag >= 1 && g.max_lag < g.frame && samples >= g.frame
}

/// How a sound of so many samples is cut; nothing where no pitch can be found in it.
pub fn grid(samples: usize, rate: u32) -> (r: Option<Grid>)
    ensures
        r == if rate > 0 && usable(grid_for(rate as int), samples as int) {
            Some(grid_for(rate as int))
        } else {
            None
        },
        r matches Some(g) ==> g.hop >= 1 && g.min_lag <= g.max_lag,
{
    if rate == 0 {
        return None;
    }
    let wide: u64 = rate as u64;
    let g = Grid {
        frame: ((wide * 4 + 50) / 100) as usize,
        hop: ((wide * 2 + 50) / 100) as usize,
        min_lag: (wide / 400) as usize,
        max_lag: ((wide + 59) / 60) as usize,
    };
    if g.frame >= 4 && g.min_lag >= 1 && g.max_lag < g.frame && samples >= g.frame {
        Some(g)
    } else {
        None
    }
}

/// Where the pieces begin.
pub open spec fn starts(g: Grid, samples: int) -> Seq<int> {
    if g.frame > samples || g.hop == 0 {
        Seq::empty()
    } else {
        Seq::new(((samples - g.frame) / g.hop as int + 1) as nat, |i: int| i * g.hop)
    }
}

/// Where the pieces begin.
pub fn frame_starts(g: &Grid, samples: usize) -> (r: Vec<usize>)
    requires
        g.hop >= 1,
    ensures
        rank::indices(r@) == starts(*g, samples as int),
{
    let mut out: Vec<usize> = Vec::new();
    if g.frame > samples {
        assert(rank::indices(out@) =~= starts(*g, samples as int));
        return out;
    }
    let room: usize = samples - g.frame;
    let mut at: usize = 0;
    let mut n: usize = 0;
    let count: usize = room / g.hop;
    proof {
        assert(count * g.hop <= room) by (nonlinear_arith)
            requires
                g.hop >= 1,
                count == room / g.hop,
        ;
    }
    loop
        invariant_except_break
            n <= count,
            at == n * g.hop,
            n == out@.len(),
        invariant
            g.hop >= 1,
            count == room / g.hop,
            count * g.hop <= room,
            forall|i: int| 0 <= i < out@.len() ==> #[trigger] out@[i] == i * g.hop,
        ensures
            out@.len() == count + 1,
        decreases count - n,
    {
        out.push(at);
        if n == count {
            break;
        }
        proof {
            assert((n + 1) * g.hop <= count * g.hop) by (nonlinear_arith)
                requires
                    n + 1 <= count,
                    g.hop >= 1,
            ;
            assert((n + 1) * g.hop == n * g.hop + g.hop) by (nonlinear_arith);
        }
        at += g.hop;
        n += 1;
    }
    assert(rank::indices(out@) =~= starts(*g, samples as int));
    out
}

/// The first measure that reaches the limit.
pub open spec fn first_reaching(keys: Seq<i64>, limit: i64) -> Option<int>
    decreases keys.len(),
{
    if keys.len() == 0 {
        None
    } else {
        match first_reaching(keys.drop_last(), limit) {
            Some(i) => Some(i),
            None => if keys.last() >= limit {
                Some(keys.len() - 1)
            } else {
                None
            },
        }
    }
}

/// `k` is the top of the first run of measures that reach the limit: the first of its largest ones.
pub open spec fn first_peak(keys: Seq<i64>, limit: i64, k: int) -> bool {
    exists|a: int, b: int|
        {
            &&& 0 <= a <= k < b <= keys.len()
            &&& #[trigger] run(keys, limit, a, b)
            &&& forall|j: int| a <= j < b ==> #[trigger] keys[j] <= keys[k]
            &&& forall|j: int| a <= j < k ==> #[trigger] keys[j] < keys[k]
        }
}

/// From `a` up to `b` is the first run of measures that reach the limit.
pub open spec fn run(keys: Seq<i64>, limit: i64, a: int, b: int) -> bool {
    &&& forall|j: int| 0 <= j < a ==> #[trigger] keys[j] < limit
    &&& forall|j: int| a <= j < b ==> #[trigger] keys[j] >= limit
    &&& b < keys.len() ==> keys[b] < limit
}

/// The top of the first run of measures that reach the limit; nothing where none does. The first run
/// and not the highest top: the double of a period scores as well as the period.
pub fn lobe_peak(keys: &Vec<i64>, limit: i64) -> (r: Option<usize>)
    ensures
        match r {
            Some(k) => first_peak(keys@, limit, k as int),
            None => forall|j: int| 0 <= j < keys@.len() ==> #[trigger] keys@[j] < limit,
        },
{
    let n: usize = keys.len();
    let mut a: usize = 0;
    while a < n && keys[a] < limit
        invariant
            n == keys@.len(),
            a <= n,
            forall|j: int| 0 <= j < a ==> #[trigger] keys@[j] < limit,
        decreases n - a,
    {
        a += 1;
    }
    if a == n {
        return None;
    }
    let mut best: usize = a;
    let mut i: usize = a;
    while i < n && keys[i] >= limit
        invariant
            n == keys@.len(),
            a <= i <= n,
            a < n,
            keys@[a as int] >= limit,
            a <= best < n,
            best < i || (i == a && best == a),
            forall|j: int| a <= j < i ==> #[trigger] keys@[j] >= limit,
            forall|j: int| a <= j < i ==> #[trigger] keys@[j] <= keys@[best as int],
            forall|j: int| a <= j < best ==> #[trigger] keys@[j] < keys@[best as int],
        decreases n - i,
    {
        if keys[i] > keys[best] {
            best = i;
        }
        i += 1;
    }
    assert(run(keys@, limit, a as int, i as int));
    Some(best)
}

/// The periods from the longest down.
pub open spec fn falling(lags: Seq<int>) -> Seq<int> {
    rank::stable_order(lags.map_values(|l: int| -l))
}

/// The two periods in the middle; of an odd number of them the middle one twice.
pub open spec fn middle(lags: Seq<int>) -> (int, int) {
    let o = falling(lags);
    let n = lags.len() as int;
    if n % 2 == 1 {
        (lags[o[n / 2]], lags[o[n / 2]])
    } else {
        (lags[o[n / 2 - 1]], lags[o[n / 2]])
    }
}

/// The two periods between whose pitches the median lies: of an odd number of them the middle one twice.
pub fn middle_lags(lags: &Vec<usize>) -> (r: Option<(usize, usize)>)
    ensures
        match r {
            Some((a, b)) => lags@.len() > 0 && (a as int, b as int) == middle(rank::indices(lags@)),
            None => lags@.len() == 0,
        },
{
    let n: usize = lags.len();
    if n == 0 {
        return None;
    }
    let mut keys: Vec<i128> = Vec::new();
    for i in 0..n
        invariant
            n == lags@.len(),
            keys@.len() == i,
            forall|j: int| 0 <= j < i ==> #[trigger] keys@[j] == -(lags@[j] as int),
    {
        keys.push(-(lags[i] as i128));
    }
    let ghost ls = rank::indices(lags@);
    assert(rank::ints(keys@) =~= ls.map_values(|l: int| -l));
    let order = rank::stable_sort(&keys);
    assert(forall|i: int| 0 <= i < n ==> rank::indices(order@)[i] == #[trigger] order@[i]);
    assert(rank::ints(keys@).len() == n);
    let hi: usize = order[n / 2];
    assert(rank::indices(order@)[n as int / 2] == hi);
    if n % 2 == 1 {
        assert(ls[hi as int] == lags@[hi as int]);
        Some((lags[hi], lags[hi]))
    } else {
        let lo: usize = order[n / 2 - 1];
        assert(rank::indices(order@)[n as int / 2 - 1] == lo);
        Some((lags[lo], lags[hi]))
    }
}

/// A higher pitch is never heard as a man's where a lower one is heard as a woman's.
pub proof fn law_gender_follows_pitch(low: int, high: int)
    requires
        low <= high,
        gender_at(low) == Gender::Female,
    ensures
        gender_at(high) == Gender::Female,
{
}

/// A pitch is heard as a man's up to 160 hertz, and as a woman's above.
pub proof fn law_whose_voice_a_pitch_is(pitch: int)
    ensures
        gender_at(pitch) == Gender::Male <==> pitch <= 160_000_000,
        gender_at(pitch) == Gender::Female <==> gender_at(pitch) != Gender::Male,
{
}

/// The sound is cut into pieces of forty milliseconds, one every twenty, as long as they fit; and periods of 400 down to
/// 60 hertz are tried.
pub proof fn law_sound_is_cut_into_pieces(rate: int, samples: int, i: int)
    requires
        1_000 <= rate <= 1_000_000,
        0 <= samples,
        0 <= i < starts(grid_for(rate), samples).len(),
    ensures
        ({
            let g = grid_for(rate);
            let s = starts(g, samples);
            &&& -50 <= 4 * rate - 100 * g.frame <= 50
            &&& -50 <= 2 * rate - 100 * g.hop <= 50
            &&& 400 * g.min_lag <= rate < 400 * g.min_lag + 400
            &&& rate <= 60 * g.max_lag < rate + 60
            &&& s[i] == i * g.hop
            &&& s[i] + g.frame <= samples
            &&& s.last() + g.hop + g.frame > samples
        }),
{
    let g = grid_for(rate);
    let n = (samples - g.frame) / g.hop as int;
    assert(g.hop > 0);
    assert(n * g.hop <= samples - g.frame < (n + 1) * g.hop) by (nonlinear_arith)
        requires
            n == (samples - g.frame) / g.hop as int,
            g.hop > 0,
    ;
    assert(i * g.hop <= n * g.hop) by (nonlinear_arith)
        requires
            i <= n,
            g.hop > 0,
    ;
    assert((n + 1) * g.hop == n * g.hop + g.hop) by (nonlinear_arith);
}

/// The middle one of the periods by size, or the two of them where their number is even: as many are longer as shorter.
pub proof fn law_middle_period(lags: Seq<int>) -> (o: Seq<int>)
    requires
        lags.len() > 0,
    ensures
        rank::is_order(o, lags.map_values(|l: int| -l)),
        ({
            let n = lags.len() as int;
            middle(lags) == (lags[o[(n - 1) / 2]], lags[o[n / 2]])
        }),
{
    rank::law_stable_order(lags.map_values(|l: int| -l));
    falling(lags)
}

} // verus!
