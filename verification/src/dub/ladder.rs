//! Speaking one line: up to five attempts, each with other settings, and what is kept in the end.

use crate::text;
use vstd::prelude::*;

verus! {

/// How often a line is tried.
pub const MAX_TTS_ATTEMPTS: usize = 5;

/// How many troubled lines in a row are borne.
pub const CONSECUTIVE_ABORT: usize = 8;

/// The shortest time that is reckoned for a line, in microseconds.
pub const MIN_LINE: i64 = 600_000;

pub open spec fn line_time(start: i64, end: i64) -> int {
    if end - start < MIN_LINE {
        MIN_LINE as int
    } else {
        end - start
    }
}

/// `a` divided by `b`, rounded up.
pub open spec fn ceil_div(a: int, b: int) -> int {
    (a + b - 1) / b
}

pub open spec fn clamped(x: int, lo: int, hi: int) -> int {
    if x < lo {
        lo
    } else if x > hi {
        hi
    } else {
        x
    }
}

/// How many tokens the engine may make for a line: half as many again as its time takes at 75 a second,
/// and 32, within bounds.
pub open spec fn token_limit(start: i64, end: i64) -> int {
    clamped(ceil_div(line_time(start, end) * 225, 2_000_000) + 32, 64, 2048)
}

fn line_micros(start: i64, end: i64) -> (r: i128)
    ensures
        r == line_time(start, end),
{
    let d: i128 = end as i128 - start as i128;
    if d < MIN_LINE as i128 {
        MIN_LINE as i128
    } else {
        d
    }
}

/// How many tokens the engine may make for a line.
pub fn token_cap(start: i64, end: i64) -> (r: u32)
    ensures
        r == token_limit(start, end),
        64 <= r <= 2048,
{
    let n: i128 = (line_micros(start, end) * 225 + 1_999_999) / 2_000_000 + 32;
    if n < 64 {
        64
    } else if n > 2048 {
        2048
    } else {
        n as u32
    }
}

/// How long an attempt may take, in seconds: eight times the line, at least 45.
pub open spec fn patience(start: i64, end: i64) -> int {
    let n = ceil_div((end - start) * 8, 1_000_000);
    if n < 45 {
        45
    } else {
        n
    }
}

/// How long an attempt may take, in seconds.
pub fn attempt_timeout(start: i64, end: i64) -> (r: u64)
    ensures
        r == patience(start, end),
{
    let d: i128 = end as i128 - start as i128;
    if d <= 0 {
        assert((end - start) * 8 + 999_999 < 1_000_000);
        return 45;
    }
    let n: i128 = (d * 8 + 999_999) / 1_000_000;
    if n < 45 {
        45
    } else {
        n as u64
    }
}

/// How fast a line has to be spoken.
#[derive(Clone, Copy, Debug, PartialEq, Eq, Structural)]
pub enum Pace {
    /// There is much text for the time.
    Dense,
    /// There is little text for the time.
    Sparse,
    Normal,
}

/// The pace of a line of `chars` letters and digits: against fourteen a second it is dense from 12
/// hundredths over, sparse from 12 hundredths under.
pub open spec fn pace_of(adapt: bool, chars: int, start: i64, end: i64) -> Pace {
    if !adapt || chars <= 0 {
        Pace::Normal
    } else if chars * 100_000_000 > 1568 * line_time(start, end) {
        Pace::Dense
    } else if chars * 100_000_000 < 1232 * line_time(start, end) {
        Pace::Sparse
    } else {
        Pace::Normal
    }
}

/// The pace of a line of `chars` letters and digits.
pub fn pace(adapt: bool, chars: u64, start: i64, end: i64) -> (r: Pace)
    ensures
        r == pace_of(adapt, chars as int, start, end),
{
    if !adapt || chars == 0 {
        return Pace::Normal;
    }
    let t: i128 = line_micros(start, end);
    let c: i128 = chars as i128 * 100_000_000;
    if c > 1568 * t {
        Pace::Dense
    } else if c < 1232 * t {
        Pace::Sparse
    } else {
        Pace::Normal
    }
}

pub open spec fn temperature(p: Pace) -> Seq<char> {
    match p {
        Pace::Dense => "0.18"@,
        Pace::Sparse => "0.32"@,
        Pace::Normal => "0.30"@,
    }
}

pub open spec fn repeat_guard(p: Pace) -> Seq<char> {
    if p == Pace::Dense {
        ",\"ras_win_max_num_repeat\":1"@
    } else {
        ""@
    }
}

/// The settings of the attempt number `attempt` (from 0): the first and the fourth at the line's own
/// temperature, the others cooler and from a seed of their own.
pub open spec fn options_of(attempt: int, index: int, p: Pace, cap: int) -> Seq<char> {
    let tokens = text::decimal(cap as nat);
    let seed = text::decimal((index * 1000 + attempt) as nat);
    if attempt == 0 || attempt == 3 {
        "{\"temperature\":"@ + temperature(p)
            + ",\"top_p\":0.95,\"top_k\":50,\"max_new_tokens\":"@ + tokens + ",\"ras_win_len\":7"@
            + repeat_guard(p) + ",\"return_audio_in_tokens\":true}"@
    } else if attempt == 1 {
        "{\"temperature\":0.20,\"top_p\":0.95,\"top_k\":50,\"max_new_tokens\":"@ + tokens
            + ",\"ras_win_len\":7,\"ras_win_max_num_repeat\":1,\"return_audio_in_tokens\":true,\"seed\":"@
            + seed + "}"@
    } else if attempt == 2 {
        "{\"temperature\":0.10,\"top_p\":0.90,\"top_k\":50,\"max_new_tokens\":"@ + tokens
            + ",\"ras_win_len\":7,\"return_audio_in_tokens\":true,\"seed\":"@ + seed + "}"@
    } else {
        "{\"temperature\":0.15,\"top_p\":0.90,\"top_k\":50,\"max_new_tokens\":"@ + tokens
            + ",\"ras_win_len\":7,\"ras_win_max_num_repeat\":1,\"return_audio_in_tokens\":true,\"seed\":"@
            + seed + "}"@
    }
}

/// The settings of an attempt at the line number `index`.
pub fn options(attempt: usize, index: u32, p: Pace, cap: u32) -> (r: String)
    requires
        attempt < MAX_TTS_ATTEMPTS,
    ensures
        r@ == options_of(attempt as int, index as int, p, cap as int),
{
    let tokens = text::to_decimal(cap as u64);
    let seed = text::to_decimal(index as u64 * 1000 + attempt as u64);
    let mut m: String;
    if attempt == 0 || attempt == 3 {
        m = "{\"temperature\":".to_owned();
        m.append(
            match p {
                Pace::Dense => "0.18",
                Pace::Sparse => "0.32",
                Pace::Normal => "0.30",
            },
        );
        m.append(",\"top_p\":0.95,\"top_k\":50,\"max_new_tokens\":");
        m.append(tokens.as_str());
        m.append(",\"ras_win_len\":7");
        m.append(if p == Pace::Dense { ",\"ras_win_max_num_repeat\":1" } else { "" });
        m.append(",\"return_audio_in_tokens\":true}");
    } else if attempt == 1 {
        m = "{\"temperature\":0.20,\"top_p\":0.95,\"top_k\":50,\"max_new_tokens\":".to_owned();
        m.append(tokens.as_str());
        m.append(
            ",\"ras_win_len\":7,\"ras_win_max_num_repeat\":1,\"return_audio_in_tokens\":true,\"seed\":",
        );
        m.append(seed.as_str());
        m.append("}");
    } else if attempt == 2 {
        m = "{\"temperature\":0.10,\"top_p\":0.90,\"top_k\":50,\"max_new_tokens\":".to_owned();
        m.append(tokens.as_str());
        m.append(",\"ras_win_len\":7,\"return_audio_in_tokens\":true,\"seed\":");
        m.append(seed.as_str());
        m.append("}");
    } else {
        m = "{\"temperature\":0.15,\"top_p\":0.90,\"top_k\":50,\"max_new_tokens\":".to_owned();
        m.append(tokens.as_str());
        m.append(
            ",\"ras_win_len\":7,\"ras_win_max_num_repeat\":1,\"return_audio_in_tokens\":true,\"seed\":",
        );
        m.append(seed.as_str());
        m.append("}");
    }
    m
}

// ── The attempts ────────────────────────────────────────────────────────────

/// How an attempt ended.
#[derive(Clone, Copy, Debug, PartialEq, Eq, Structural)]
pub enum Take {
    /// With a take in which no fault was found.
    Clean,
    /// With a faulty take; the larger `score`, the better it is.
    Faulty { score: i64 },
    /// Without a take.
    Failed,
    /// With an engine that can no longer be used.
    Stuck,
}

/// What is done after an attempt.
#[derive(Clone, Copy, Debug, PartialEq, Eq, Structural)]
pub enum Step {
    /// The take is used.
    Accept,
    /// Another attempt is made.
    Again,
    /// The best of the faulty takes is used: that of the attempt `attempt`.
    UseBest { attempt: usize },
    /// The original line is used.
    KeepOriginal,
    /// Speaking is given up altogether.
    Abort,
}

/// The attempts at one line so far.
#[derive(Clone, Copy, Debug)]
pub struct Ladder {
    /// How many there were.
    pub attempts: usize,
    /// The best faulty take: its attempt and its score.
    pub best: Option<(usize, i64)>,
    /// How many of them count as repetitions.
    pub retries: usize,
}

impl Ladder {
    pub open spec fn well_formed(self) -> bool {
        &&& self.attempts < MAX_TTS_ATTEMPTS
        &&& self.retries == self.attempts
        &&& (self.best matches Some(b) ==> b.0 < self.attempts)
    }

    /// Before the first attempt.
    pub fn new() -> (r: Ladder)
        ensures
            r.well_formed(),
            r.attempts == 0,
            r.best is None,
    {
        Ladder { attempts: 0, best: None, retries: 0 }
    }

    /// Whether the next attempt follows the other sample of the speaker, if there is one.
    pub fn uses_alternative(&self, has_alternative: bool) -> (r: bool)
        ensures
            r == (self.attempts >= 3 && has_alternative),
    {
        self.attempts >= 3 && has_alternative
    }

    /// The best faulty take once `take` is in: a later one only if it is better.
    pub open spec fn best_after(self, take: Take) -> Option<(usize, i64)> {
        match take {
            Take::Faulty { score } => match self.best {
                Some(b) if score <= b.1 => Some(b),
                _ => Some((self.attempts, score)),
            },
            _ => self.best,
        }
    }

    /// What follows the next attempt.
    pub open spec fn step_of(self, take: Take) -> Step {
        match take {
            Take::Clean => Step::Accept,
            Take::Stuck => Step::Abort,
            _ => if self.attempts + 1 < MAX_TTS_ATTEMPTS {
                Step::Again
            } else {
                match self.best_after(take) {
                    Some(b) => Step::UseBest { attempt: b.0 },
                    None => Step::KeepOriginal,
                }
            },
        }
    }

    /// How many repetitions the attempts came to once `take` is in. A faulty last take is none: nothing is
    /// tried after it.
    pub open spec fn retries_after(self, take: Take) -> int {
        match take {
            Take::Clean => self.retries as int,
            Take::Stuck => self.retries as int,
            Take::Failed => self.retries + 1,
            Take::Faulty { .. } => if self.attempts + 1 < MAX_TTS_ATTEMPTS {
                self.retries + 1
            } else {
                self.retries as int
            },
        }
    }

    /// Takes in how the next attempt ended and says what follows.
    pub fn advance(&mut self, take: Take) -> (r: Step)
        requires
            old(self).well_formed(),
        ensures
            r == old(self).step_of(take),
            final(self).attempts == old(self).attempts + 1,
            final(self).best == old(self).best_after(take),
            final(self).retries == old(self).retries_after(take),
            r is Again ==> final(self).well_formed(),
    {
        let number: usize = self.attempts;
        self.attempts = number + 1;
        match take {
            Take::Clean => Step::Accept,
            Take::Stuck => Step::Abort,
            Take::Failed => {
                self.retries = self.retries + 1;
                if self.attempts < MAX_TTS_ATTEMPTS {
                    Step::Again
                } else {
                    match self.best {
                        Some(b) => Step::UseBest { attempt: b.0 },
                        None => Step::KeepOriginal,
                    }
                }
            },
            Take::Faulty { score } => {
                let better = match self.best {
                    Some(b) => score > b.1,
                    None => true,
                };
                if better {
                    self.best = Some((number, score));
                }
                if self.attempts < MAX_TTS_ATTEMPTS {
                    self.retries = self.retries + 1;
                    Step::Again
                } else {
                    match self.best {
                        Some(b) => Step::UseBest { attempt: b.0 },
                        None => Step::KeepOriginal,
                    }
                }
            },
        }
    }
}

// ── The whole film ──────────────────────────────────────────────────────────

/// How many repetitions a film of `total` microseconds may take: one for each ten seconds, at least
/// twenty.
pub open spec fn budget_of(total: i64) -> int {
    let n = if total <= 0 {
        0
    } else {
        ceil_div(total as int, 10_000_000)
    };
    if n < 20 {
        20
    } else {
        n
    }
}

/// How many repetitions a film may take.
pub fn retry_budget(total: i64) -> (r: u64)
    ensures
        r == budget_of(total),
{
    if total <= 0 {
        return 20;
    }
    let n: u64 = ((total as i128 + 9_999_999) / 10_000_000) as u64;
    if n < 20 {
        20
    } else {
        n
    }
}

/// The trouble that the lines of a film have made so far.
#[derive(Clone, Copy, Debug, PartialEq, Eq, Structural)]
pub struct Trouble {
    /// Troubled lines in a row.
    pub in_a_row: u64,
    /// Repetitions altogether.
    pub retries: u64,
}

/// The trouble once a line that took `retries` repetitions is done.
pub open spec fn trouble_after(t: Trouble, retries: int) -> (int, int) {
    (
        if retries > 0 {
            t.in_a_row + 1
        } else {
            0
        },
        t.retries + retries,
    )
}

/// Whether speaking stops: a troubled line makes the row too long or exceeds the budget.
pub open spec fn too_much(t: Trouble, retries: int, budget: int) -> bool {
    retries > 0 && (t.in_a_row + 1 > CONSECUTIVE_ABORT || t.retries + retries > budget)
}

/// Counts a line that took `retries` repetitions; whether speaking goes on.
pub fn count_line(t: &mut Trouble, retries: usize, budget: u64) -> (r: bool)
    requires
        retries <= MAX_TTS_ATTEMPTS,
        old(t).in_a_row < u64::MAX,
        old(t).retries <= u64::MAX - MAX_TTS_ATTEMPTS,
    ensures
        (final(t).in_a_row as int, final(t).retries as int) == trouble_after(
            *old(t),
            retries as int,
        ),
        r == !too_much(*old(t), retries as int, budget as int),
{
    t.retries = t.retries + retries as u64;
    if retries > 0 {
        t.in_a_row = t.in_a_row + 1;
        !(t.in_a_row > CONSECUTIVE_ABORT as u64 || t.retries > budget)
    } else {
        t.in_a_row = 0;
        true
    }
}

// ── Laws ────────────────────────────────────────────────────────────────────

/// The state after the takes `ts`, none of which ended the attempts.
pub open spec fn after_takes(ts: Seq<Take>) -> Ladder
    decreases ts.len(),
{
    if ts.len() == 0 {
        Ladder { attempts: 0, best: None, retries: 0 }
    } else {
        let l = after_takes(ts.drop_last());
        Ladder {
            attempts: (l.attempts + 1) as usize,
            best: l.best_after(ts.last()),
            retries: l.retries_after(ts.last()) as usize,
        }
    }
}

/// A line is tried at most five times: whatever comes of them, the fifth attempt ends it.
pub proof fn law_fifth_attempt_ends(ts: Seq<Take>, last: Take)
    requires
        ts.len() == 4,
    ensures
        !(after_takes(ts).step_of(last) is Again),
{
    lemma_attempts(ts);
}

proof fn lemma_attempts(ts: Seq<Take>)
    requires
        ts.len() <= 5,
    ensures
        after_takes(ts).attempts == ts.len(),
    decreases ts.len(),
{
    if ts.len() > 0 {
        lemma_attempts(ts.drop_last());
    }
}

/// A faulty take is never thrown away for the original line: when all attempts fail, the best faulty
/// take is used if there is one, and it is one that no other take beats.
pub proof fn law_best_take_is_kept(ts: Seq<Take>)
    requires
        ts.len() <= 5,
    ensures
        after_takes(ts).best is None ==> forall|i: int|
            0 <= i < ts.len() ==> !((#[trigger] ts[i]) is Faulty),
        after_takes(ts).best matches Some(b) ==> {
            &&& b.0 < ts.len()
            &&& ts[b.0 as int] == (Take::Faulty { score: b.1 })
            &&& forall|i: int|
                0 <= i < ts.len() ==> ((#[trigger] ts[i]) matches Take::Faulty { score } ==> score
                    <= b.1)
        },
    decreases ts.len(),
{
    if ts.len() > 0 {
        let prev = ts.drop_last();
        law_best_take_is_kept(prev);
        lemma_attempts(prev);
        let p = after_takes(prev).best;
        let n = after_takes(ts).best;
        assert forall|i: int| 0 <= i < prev.len() implies prev[i] == #[trigger] ts[i] by {}
        assert(ts[ts.len() - 1] == ts.last());
    }
}

/// A take without a fault is used whenever it comes: it ends the attempts and adds no repetition. It is also
/// the only take that is used at once, and only an engine that is stuck ends speaking altogether.
pub proof fn law_clean_take_is_used(l: Ladder, take: Take)
    ensures
        l.step_of(take) is Accept <==> take is Clean,
        l.step_of(take) is Abort <==> take is Stuck,
        take is Clean ==> l.retries_after(take) == l.retries && l.best_after(take) == l.best,
        take is Stuck ==> l.retries_after(take) == l.retries && l.best_after(take) == l.best,
{
}

/// Another attempt follows a faulty or a failed take, as long as there were fewer than five, and nothing
/// else. Each such take is a repetition.
pub proof fn law_only_a_bad_take_is_repeated(l: Ladder, take: Take)
    requires
        l.well_formed(),
    ensures
        l.step_of(take) is Again <==> (take is Faulty || take is Failed) && l.attempts < 4,
        l.step_of(take) is Again ==> l.retries_after(take) == l.retries + 1,
        l.step_of(take) is UseBest || l.step_of(take) is KeepOriginal ==> l.attempts == 4,
{
}

/// Whether none of the takes ended the attempts: each was faulty or failed.
pub open spec fn all_bad(ts: Seq<Take>) -> bool {
    forall|i: int| 0 <= i < ts.len() ==> (#[trigger] ts[i]) is Faulty || ts[i] is Failed
}

proof fn lemma_retries(ts: Seq<Take>)
    requires
        ts.len() < 5,
        all_bad(ts),
    ensures
        after_takes(ts).well_formed(),
        after_takes(ts).attempts == ts.len(),
        after_takes(ts).retries == ts.len(),
    decreases ts.len(),
{
    if ts.len() > 0 {
        let prev = ts.drop_last();
        assert forall|i: int| 0 <= i < prev.len() implies (#[trigger] prev[i]) is Faulty
            || prev[i] is Failed by {
            assert(prev[i] == ts[i]);
        }
        lemma_retries(prev);
        assert(ts[ts.len() - 1] is Faulty || ts[ts.len() - 1] is Failed);
    }
}

proof fn lemma_first_of_the_best(ts: Seq<Take>)
    requires
        ts.len() <= 5,
    ensures
        after_takes(ts).best matches Some(b) ==> forall|i: int|
            0 <= i < b.0 ==> ((#[trigger] ts[i]) matches Take::Faulty { score } ==> score < b.1),
    decreases ts.len(),
{
    if ts.len() > 0 {
        let prev = ts.drop_last();
        lemma_first_of_the_best(prev);
        law_best_take_is_kept(prev);
        lemma_attempts(prev);
        assert forall|i: int| 0 <= i < prev.len() implies prev[i] == #[trigger] ts[i] by {}
    }
}

/// How speaking a line ends, whatever comes of the attempts. After takes that were all faulty or failed, a
/// clean one is used; as long as there were not five, a bad one is followed by another attempt; after the
/// fifth the best of the faulty ones is used, of equal ones the first, and the original line only where no
/// attempt gave a take at all. As many repetitions are counted as attempts came before the last.
pub proof fn law_line_is_spoken(ts: Seq<Take>, last: Take)
    requires
        ts.len() < 5,
        all_bad(ts),
    ensures
        ({
            let all = ts.push(last);
            let l = after_takes(ts);
            let step = l.step_of(last);
            &&& l.attempts == ts.len() && l.retries == ts.len()
            &&& last is Clean ==> step is Accept && l.retries_after(last) == ts.len()
            &&& last is Stuck ==> step is Abort
            &&& all_bad(all) && all.len() < 5 ==> step is Again && l.retries_after(last) == all.len()
            &&& all_bad(all) && all.len() == 5 ==> {
                &&& step is KeepOriginal <==> forall|i: int| 0 <= i < 5 ==> (#[trigger] all[i]) is Failed
                &&& step is KeepOriginal || step is UseBest
                &&& step matches Step::UseBest { attempt } ==> {
                    &&& attempt < 5
                    &&& all[attempt as int] is Faulty
                    &&& forall|i: int|
                        0 <= i < 5 && (#[trigger] all[i]) is Faulty ==> all[i]->score
                            <= all[attempt as int]->score && (i < attempt ==> all[i]->score
                            < all[attempt as int]->score)
                }
                &&& last is Faulty ==> l.retries_after(last) == 4
            }
        }),
{
    let all = ts.push(last);
    lemma_retries(ts);
    assert(all.drop_last() =~= ts);
    law_best_take_is_kept(all);
    lemma_first_of_the_best(all);
    if all_bad(all) && all.len() == 5 {
        let l = after_takes(ts);
        assert(after_takes(all).best == l.best_after(last));
        assert(all[4] == last);
        if l.step_of(last) is KeepOriginal {
            assert forall|i: int| 0 <= i < 5 implies (#[trigger] all[i]) is Failed by {
                assert(!(all[i] is Faulty));
            }
        } else {
            let b = after_takes(all).best->0;
            assert(all[b.0 as int] is Faulty);
        }
    }
}

/// A line may take between 45 seconds and eight times its length, whichever is more, to the next whole
/// second.
pub proof fn law_attempt_may_take_eight_times_the_line(start: i64, end: i64)
    ensures
        patience(start, end) >= 45,
        patience(start, end) * 1_000_000 >= (end - start) * 8,
        patience(start, end) > 45 ==> (patience(start, end) - 1) * 1_000_000 < (end - start) * 8,
{
}

/// A line is dense from 15.68 letters a second on, and sparse below 12.32, where its pace is minded at all;
/// a line shorter than six tenths of a second counts as so long.
pub proof fn law_pace_is_by_letters_a_second(chars: int, start: i64, end: i64)
    requires
        chars > 0,
    ensures
        ({
            let t = if end - start < 600_000 {
                600_000int
            } else {
                end - start
            };
            &&& pace_of(true, chars, start, end) is Dense <==> chars * 100 * 1_000_000 > 1568 * t
            &&& pace_of(true, chars, start, end) is Sparse <==> chars * 100 * 1_000_000 < 1232 * t
            &&& pace_of(false, chars, start, end) is Normal
        }),
{
}

/// Speaking a film goes on after a line without repetitions, and after a troubled one as long as at most
/// eight of them came in a row and the budget is kept.
pub proof fn law_trouble_is_borne(t: Trouble, retries: int, budget: int)
    requires
        retries >= 0,
    ensures
        retries == 0 ==> !too_much(t, retries, budget) && trouble_after(t, retries) == (
            0int,
            t.retries as int,
        ),
        retries > 0 ==> trouble_after(t, retries) == (t.in_a_row + 1, t.retries + retries),
        too_much(t, retries, budget) <==> retries > 0 && (t.in_a_row >= 8 || t.retries + retries > budget),
{
}

/// A film may take twenty repetitions, and one for each ten seconds that it has begun if those are more.
pub proof fn law_budget_grows_with_the_film(total: i64)
    ensures
        budget_of(total) >= 20,
        10_000_000 * budget_of(total) >= total,
        budget_of(total) > 20 ==> 10_000_000 * (budget_of(total) - 1) < total,
{
}

/// A longer line may take as many tokens or more, and the bounds hold for every line.
pub proof fn law_token_limit_grows(start: i64, end: i64, longer: i64)
    requires
        end <= longer,
    ensures
        token_limit(start, end) <= token_limit(start, longer),
        64 <= token_limit(start, end) <= 2048,
{
    let a = line_time(start, end) * 225;
    let b = line_time(start, longer) * 225;
    assert(a <= b);
    assert((a + 1_999_999) / 2_000_000 <= (b + 1_999_999) / 2_000_000);
}

} // verus!
