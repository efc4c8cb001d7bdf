//! Several takes of a line: which one is used, and which lines are spoken again because the words that were
//! heard in them are not theirs.

use crate::dub::similarity;
use crate::pick;
use crate::project;
use crate::rank;
use crate::text;
use vstd::prelude::*;

verus! {

// ── More takes ──────────────────────────────────────────────────────────────

/// How many further takes of a line there are.
pub const MORE_TAKES: u32 = 2;

/// Further takes are made of a line that was just spoken by the engine of this machine.
pub fn wants_more_takes(wanted: bool, spoken: bool, kept_original: bool, cloud: bool) -> (r: bool)
    ensures
        r == (wanted && spoken && !kept_original && !cloud),
{
    wanted && spoken && !kept_original && !cloud
}

/// The settings of the further take number `take` (from 1) of the line number `index`.
pub open spec fn take_options_of(take: int, index: int, cap: int) -> Seq<char> {
    "{\"temperature\":"@ + (if take == 1 {
        "0.25"@
    } else {
        "0.35"@
    }) + ",\"top_p\":0.95,\"top_k\":50,\"max_new_tokens\":"@ + text::decimal(cap as nat)
        + ",\"ras_win_len\":7,\"return_audio_in_tokens\":true,\"seed\":"@ + text::decimal(
        (index * 10000 + take * 100 + 77) as nat,
    ) + "}"@
}

/// The settings of a further take.
pub fn take_options(take: u32, index: u32, cap: u32) -> (r: String)
    requires
        1 <= take <= MORE_TAKES,
    ensures
        r@ == take_options_of(take as int, index as int, cap as int),
{
    let mut m = "{\"temperature\":".to_owned();
    m.append(if take == 1 { "0.25" } else { "0.35" });
    m.append(",\"top_p\":0.95,\"top_k\":50,\"max_new_tokens\":");
    m.append(text::to_decimal(cap as u64).as_str());
    m.append(",\"ras_win_len\":7,\"return_audio_in_tokens\":true,\"seed\":");
    m.append(text::to_decimal(index as u64 * 10000 + take as u64 * 100 + 77).as_str());
    m.append("}");
    m
}

/// How far a length is from the wanted one.
pub open spec fn off(length: int, target: int) -> int {
    if length > target {
        length - target
    } else {
        target - length
    }
}

/// How far the best of the first take and the further takes `ts` is from the wanted length. A further take
/// that failed is not there.
pub open spec fn best_off(first: int, ts: Seq<Option<i64>>, target: int) -> int
    decreases ts.len(),
{
    if ts.len() == 0 {
        off(first, target)
    } else {
        let b = best_off(first, ts.drop_last(), target);
        match ts.last() {
            Some(t) => if off(t as int, target) < b {
                off(t as int, target)
            } else {
                b
            },
            None => b,
        }
    }
}

/// The take that is used: a further one only where it is nearer to the wanted length than all before it.
pub open spec fn best_take(first: int, ts: Seq<Option<i64>>, target: int) -> Option<int>
    decreases ts.len(),
{
    if ts.len() == 0 {
        None
    } else {
        match ts.last() {
            Some(t) => if off(t as int, target) < best_off(first, ts.drop_last(), target) {
                Some(ts.len() - 1)
            } else {
                best_take(first, ts.drop_last(), target)
            },
            None => best_take(first, ts.drop_last(), target),
        }
    }
}

pub open spec fn lengths_ok(ts: Seq<Option<i64>>) -> bool {
    forall|i: int| 0 <= i < ts.len() ==> ((#[trigger] ts[i]) matches Some(t) ==> project::time_ok(t))
}

/// Which of the further takes is used, and how far the take that is used is from the wanted length.
pub fn closest_take(first: i64, ts: &Vec<Option<i64>>, target: i64) -> (r: (Option<usize>, i64))
    requires
        project::time_ok(first),
        project::time_ok(target),
        lengths_ok(ts@),
    ensures
        (match r.0 {
            Some(i) => Some(i as int),
            None => None,
        }) == best_take(first as int, ts@, target as int),
        r.1 == best_off(first as int, ts@, target as int),
{
    let mut best: Option<usize> = None;
    let mut at: i64 = if first > target {
        first - target
    } else {
        target - first
    };
    assert(ts@.take(0) =~= Seq::empty());
    for i in 0..ts.len()
        invariant
            project::time_ok(target),
            lengths_ok(ts@),
            (match best {
                Some(i) => Some(i as int),
                None => None,
            }) == best_take(first as int, ts@.take(i as int), target as int),
            at == best_off(first as int, ts@.take(i as int), target as int),
    {
        let ghost now = ts@.take(i + 1);
        assert(now.drop_last() =~= ts@.take(i as int));
        assert(now.last() == ts@[i as int]);
        if let Some(t) = ts[i] {
            let d: i64 = if t > target {
                t - target
            } else {
                target - t
            };
            if d < at {
                at = d;
                best = Some(i);
            }
        }
    }
    assert(ts@.take(ts@.len() as int) =~= ts@);
    (best, at)
}

// ── Lines that are spoken again ─────────────────────────────────────────────

/// A line's words are compared with what is heard in its take where the engine of this machine just spoke it.
pub fn is_compared(cloud: bool, spoken: bool, kept_original: bool, words: &str) -> (r: bool)
    ensures
        r == (!cloud && spoken && !kept_original && text::trimmed(words@).len() > 0),
{
    !cloud && spoken && !kept_original && !text::blank(words)
}

/// What was heard in the take number `i`: nothing where there is no such report.
pub open spec fn heard_at(heard: Seq<Option<String>>, i: int) -> Seq<char> {
    if i < heard.len() {
        match heard[i] {
            Some(h) => h@,
            None => ""@,
        }
    } else {
        ""@
    }
}

/// The words heard in a take are not those of its line.
pub open spec fn misheard(line: Seq<char>, heard: Seq<char>) -> bool {
    let s = similarity::similarity(line, heard);
    20 * s.0 < 7 * s.1
}

/// The lines in whose takes other words are heard.
pub fn misheard_lines(lines: &Vec<String>, heard: &Vec<Option<String>>) -> (r: Vec<usize>)
    ensures
        rank::indices(r@) == pick::picked(
            lines@.len(),
            |i: int| misheard(lines@[i]@, heard_at(heard@, i)),
        ),
{
    let ghost f = |i: int| misheard(lines@[i]@, heard_at(heard@, i));
    let mut out: Vec<usize> = Vec::new();
    assert(rank::indices(out@) =~= Seq::empty());
    for i in 0..lines.len()
        invariant
            f == (|i: int| misheard(lines@[i]@, heard_at(heard@, i))),
            rank::indices(out@) == pick::picked(i as nat, f),
    {
        let h: &str = if i < heard.len() {
            match &heard[i] {
                Some(h) => h.as_str(),
                None => "",
            }
        } else {
            ""
        };
        assert(h@ == heard_at(heard@, i as int));
        let bad = similarity::is_bad(similarity::qc_similarity(lines[i].as_str(), h));
        assert(bad == f(i as int));
        if bad {
            let ghost was = rank::indices(out@);
            out.push(i);
            assert(rank::indices(out@) =~= was.push(i as int));
        }
    }
    out
}

/// An attempt at speaking a line again.
#[derive(Clone, Debug)]
pub struct Again {
    /// It follows the other sample of the speaker.
    pub alternative: bool,
    pub options: String,
}

/// What all attempts have in common.
pub open spec fn again_base(cap: int) -> Seq<char> {
    "\"top_k\":50,\"max_new_tokens\":"@ + text::decimal(cap as nat)
        + ",\"ras_win_len\":7,\"return_audio_in_tokens\":true"@
}

/// The attempts at speaking the line number `index` again: two after the other sample of the speaker, where
/// there is one, then one after the main sample.
pub open spec fn again_of(index: int, cap: int, has_alternative: bool) -> Seq<(bool, Seq<char>)> {
    let main = seq![
        (
            false,
            "{\"temperature\":0.10,\"top_p\":0.90,"@ + again_base(cap) + ",\"seed\":"@
                + text::decimal((index * 1000 + 88) as nat) + "}"@,
        ),
    ];
    if has_alternative {
        seq![
            (true, "{\"temperature\":0.30,\"top_p\":0.95,"@ + again_base(cap) + "}"@),
            (
                true,
                "{\"temperature\":0.15,\"top_p\":0.90,\"ras_win_max_num_repeat\":1,"@ + again_base(cap)
                    + ",\"seed\":"@ + text::decimal((index * 1000 + 77) as nat) + "}"@,
            ),
        ] + main
    } else {
        main
    }
}

pub open spec fn again_views(v: Seq<Again>) -> Seq<(bool, Seq<char>)> {
    v.map_values(|a: Again| (a.alternative, a.options@))
}

/// The attempts at speaking a line again.
pub fn again_plan(index: u32, cap: u32, has_alternative: bool) -> (r: Vec<Again>)
    ensures
        again_views(r@) == again_of(index as int, cap as int, has_alternative),
{
    let mut base = "\"top_k\":50,\"max_new_tokens\":".to_owned();
    base.append(text::to_decimal(cap as u64).as_str());
    base.append(",\"ras_win_len\":7,\"return_audio_in_tokens\":true");
    let mut out: Vec<Again> = Vec::new();
    if has_alternative {
        let mut m = "{\"temperature\":0.30,\"top_p\":0.95,".to_owned();
        m.append(base.as_str());
        m.append("}");
        out.push(Again { alternative: true, options: m });
        let mut m = "{\"temperature\":0.15,\"top_p\":0.90,\"ras_win_max_num_repeat\":1,".to_owned();
        m.append(base.as_str());
        m.append(",\"seed\":");
        m.append(text::to_decimal(index as u64 * 1000 + 77).as_str());
        m.append("}");
        out.push(Again { alternative: true, options: m });
    }
    let mut m = "{\"temperature\":0.10,\"top_p\":0.90,".to_owned();
    m.append(base.as_str());
    m.append(",\"seed\":");
    m.append(text::to_decimal(index as u64 * 1000 + 88).as_str());
    m.append("}");
    out.push(Again { alternative: false, options: m });
    assert(again_views(out@) =~= again_of(index as int, cap as int, has_alternative));
    out
}

/// How much a line that is spoken again may be sped up, in millionths.
pub const AGAIN_CAP: i64 = 2_000_000;

/// What is reported once the lines were spoken again: `flagged` of them, and `still` of these are not right
/// even so.
pub fn again_report(flagged: usize, still: usize) -> (r: String)
    requires
        still <= flagged,
    ensures
        r@ == "QC summary: fixed "@ + text::decimal((flagged - still) as nat) + "/"@ + text::decimal(
            flagged as nat,
        ) + ", still flagged "@ + text::decimal(still as nat),
{
    let mut m = "QC summary: fixed ".to_owned();
    m.append(text::to_decimal((flagged - still) as u64).as_str());
    m.append("/");
    m.append(text::to_decimal(flagged as u64).as_str());
    m.append(", still flagged ");
    m.append(text::to_decimal(still as u64).as_str());
    m
}

// ── Speaking ahead ──────────────────────────────────────────────────────────

/// The lines are spoken side by side before they are laid out: where there are several, and as many may be
/// asked for at once.
pub fn speaks_ahead(lines: usize, at_once: usize) -> (r: bool)
    ensures
        r == (lines > 1 && at_once > 1),
{
    lines > 1 && at_once > 1
}

// ── Laws ────────────────────────────────────────────────────────────────────

/// The take that is used is never further from the wanted length than the first take or any other.
pub proof fn law_no_take_is_closer(first: int, ts: Seq<Option<i64>>, target: int)
    ensures
        best_off(first, ts, target) <= off(first, target),
        forall|i: int|
            0 <= i < ts.len() ==> ((#[trigger] ts[i]) matches Some(t) ==> best_off(first, ts, target)
                <= off(t as int, target)),
        match best_take(first, ts, target) {
            Some(k) => 0 <= k < ts.len() && (ts[k] matches Some(t) && off(t as int, target)
                == best_off(first, ts, target)),
            None => best_off(first, ts, target) == off(first, target),
        },
    decreases ts.len(),
{
    if ts.len() > 0 {
        let t = ts.drop_last();
        law_no_take_is_closer(first, t, target);
        assert forall|i: int| 0 <= i < ts.len() implies ((#[trigger] ts[i]) matches Some(x)
            ==> best_off(first, ts, target) <= off(x as int, target)) by {
            if i < t.len() {
                assert(t[i] == ts[i]);
            }
        }
    }
}

/// A line in whose take exactly its words are heard is not spoken again.
pub proof fn law_right_words_stay(line: Seq<char>)
    ensures
        !misheard(line, line),
{
    let w = similarity::heard_words(line);
    similarity::law_same_words_match(w);
}

/// The take that is used is as near to the wanted length as any: none of the others, nor the first take, is
/// nearer; a further one is used only where it is nearer than the first and than all before it.
pub proof fn law_nearest_take_is_used(first: int, ts: Seq<Option<i64>>, target: int)
    ensures
        ({
            let d = |x: int| if x >= target { x - target } else { target - x };
            match best_take(first, ts, target) {
                Some(k) => {
                    &&& 0 <= k < ts.len()
                    &&& ts[k] is Some
                    &&& d(ts[k]->0 as int) < d(first)
                    &&& forall|i: int|
                        0 <= i < ts.len() && (#[trigger] ts[i]) is Some ==> d(ts[k]->0 as int)
                            <= d(ts[i]->0 as int) && (i < k ==> d(ts[k]->0 as int) < d(ts[i]->0 as int))
                },
                None => forall|i: int|
                    0 <= i < ts.len() && (#[trigger] ts[i]) is Some ==> d(first) <= d(ts[i]->0 as int),
            }
        }),
    decreases ts.len(),
{
    law_no_take_is_closer(first, ts, target);
    if ts.len() > 0 {
        let prev = ts.drop_last();
        law_nearest_take_is_used(first, prev, target);
        law_no_take_is_closer(first, prev, target);
        assert(forall|i: int| 0 <= i < prev.len() ==> prev[i] == #[trigger] ts[i]);
        assert(ts[ts.len() - 1] == ts.last());
    }
}

/// A line is spoken again where less than 35 in a hundred of its words were heard.
pub proof fn law_when_a_line_is_misheard(line: Seq<char>, heard: Seq<char>)
    ensures
        misheard(line, heard) <==> 100 * similarity::similarity(line, heard).0 < 35 * similarity::similarity(
            line,
            heard,
        ).1,
{
}

/// A line is spoken again three times where the speaker has another sample, twice after that one, and once
/// where they have none; the last time is after the main sample in any case.
pub proof fn law_line_is_spoken_again(index: int, cap: int)
    ensures
        again_of(index, cap, true).len() == 3,
        again_of(index, cap, true)[0].0 && again_of(index, cap, true)[1].0 && !again_of(index, cap, true)[2].0,
        again_of(index, cap, false).len() == 1,
        again_of(index, cap, false)[0] == again_of(index, cap, true)[2],
        !again_of(index, cap, false)[0].0,
{
}

} // verus!
