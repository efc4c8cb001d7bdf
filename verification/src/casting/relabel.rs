//! Renaming the speakers of the lines by their voices.

use crate::json::Doc;
use crate::json::Json;
use crate::media;
use crate::order;
use crate::project;
use crate::project::Segment;
use crate::text;
use vstd::prelude::*;

verus! {

/// A shorter line is not measured: its voice would be noise.
pub const LEAST_LENGTH: i64 = 600_000;

/// What of a line is measured.
pub const MEASURED_LENGTH: i64 = 6_000_000;

/// The least that is cut out.
pub const LEAST_CUT: i64 = 50_000;

/// Where a cut of at most `most` ends.
pub open spec fn cut_end(start: int, end: int, most: int) -> int {
    let capped = if end < start + most {
        end
    } else {
        start + most
    };
    if capped > start + LEAST_CUT {
        capped
    } else {
        start + LEAST_CUT
    }
}

/// Where a cut of at most `most` microseconds ends.
pub fn end_of_cut(start: i64, end: i64, most: i64) -> (r: i64)
    requires
        project::time_ok(start),
        project::time_ok(end),
        project::time_ok(most),
    ensures
        r == cut_end(start as int, end as int, most as int),
{
    let capped: i64 = if end < start + most {
        end
    } else {
        start + most
    };
    if capped > start + LEAST_CUT {
        capped
    } else {
        start + LEAST_CUT
    }
}

/// What of a line's sound is measured; nothing of a line that is too short.
pub fn measured_part(s: &Segment) -> (r: Option<(i64, i64)>)
    requires
        s.timed(),
    ensures
        r == if s.end - s.start < LEAST_LENGTH {
            None
        } else {
            Some((s.start, cut_end(s.start as int, s.end as int, MEASURED_LENGTH as int) as i64))
        },
{
    if s.end - s.start < LEAST_LENGTH {
        None
    } else {
        Some((s.start, end_of_cut(s.start, s.end, MEASURED_LENGTH)))
    }
}

// ── The fingerprint of the lines ────────────────────────────────────────────

/// Whole milliseconds, rounded; a half goes away from zero.
pub open spec fn millis(us: int) -> int {
    if us >= 0 {
        (us + 500) / 1000
    } else {
        -((-us + 500) / 1000)
    }
}

fn to_millis(us: i64) -> (r: i64)
    requires
        project::time_ok(us),
    ensures
        r == millis(us as int),
{
    if us >= 0 {
        (us + 500) / 1000
    } else {
        -((-us + 500) / 1000)
    }
}

/// The number in 64 bits, a negative one as its complement.
pub open spec fn bits(n: int) -> u64 {
    if n >= 0 {
        n as u64
    } else {
        (n + 0x1_0000_0000_0000_0000) as u64
    }
}

fn to_bits(n: i64) -> (r: u64)
    ensures
        r == bits(n as int),
{
    if n >= 0 {
        n as u64
    } else {
        (n as i128 + 0x1_0000_0000_0000_0000) as u64
    }
}

/// One step of the FNV-1a hash, over 64 bits at a time.
pub open spec fn mix(h: u64, x: u64) -> u64 {
    (((h ^ x) * 0x100_0000_01b3) % 0x1_0000_0000_0000_0000) as u64
}

fn mixed(h: u64, x: u64) -> (r: u64)
    ensures
        r == mix(h, x),
{
    (h ^ x).wrapping_mul(0x100_0000_01b3)
}

/// The FNV-1a hash of the lines' times in milliseconds.
pub open spec fn fingerprint(segs: Seq<Segment>) -> u64
    decreases segs.len(),
{
    if segs.len() == 0 {
        0xcbf2_9ce4_8422_2325
    } else {
        let s = segs.last();
        mix(
            mix(fingerprint(segs.drop_last()), bits(millis(s.start as int))),
            bits(millis(s.end as int)),
        )
    }
}

/// The FNV-1a hash of the lines' times in milliseconds: measures that were kept hold for the same lines
/// alone.
pub fn segments_fingerprint(segs: &Vec<Segment>) -> (r: u64)
    requires
        project::all_timed(segs@),
    ensures
        r == fingerprint(segs@),
{
    let mut h: u64 = 0xcbf2_9ce4_8422_2325;
    assert(segs@.take(0) =~= Seq::empty());
    for i in 0..segs.len()
        invariant
            project::all_timed(segs@),
            h == fingerprint(segs@.take(i as int)),
    {
        assert(segs@.take(i + 1).drop_last() =~= segs@.take(i as int));
        assert(segs@[i as int].timed());
        h = mixed(h, to_bits(to_millis(segs[i].start)));
        h = mixed(h, to_bits(to_millis(segs[i].end)));
    }
    assert(segs@.take(segs@.len() as int) =~= segs@);
    h
}

/// The member named `k` writes the whole number `n`.
pub open spec fn writes(d: Doc, k: Seq<char>, n: nat) -> bool {
    d.get(k) matches Some(Doc::Number { whole, written }) && written == text::decimal(n)
}

fn does_write(j: &Json, k: &str, n: u64) -> (r: bool)
    ensures
        r == writes(j@, k@, n as nat),
{
    match j.get(k) {
        Some(Json::Number(x)) => text::same(x.written.as_str(), text::to_decimal(n).as_str()),
        _ => false,
    }
}

/// Whether measures that were kept are of these lines.
pub fn cache_holds(kept: &Json, count: u64, print: u64) -> (r: bool)
    ensures
        r == (writes(kept@, "seg_count"@, count as nat) && writes(kept@, "fp"@, print as nat)),
{
    does_write(kept, "seg_count", count) && does_write(kept, "fp", print)
}

// ── How many characters ─────────────────────────────────────────────────────

/// The most characters, as the environment says, else eight.
pub open spec fn most_characters(setting: Option<Seq<char>>) -> u64 {
    match setting {
        Some(s) => match text::unsigned(text::trimmed(s)) {
            Some(n) if n >= 2 => n,
            _ => 8,
        },
        None => 8,
    }
}

/// The most characters, as the environment says, else eight.
pub fn max_characters(setting: Option<&str>) -> (r: u64)
    ensures
        r == most_characters(
            match setting {
                Some(s) => Some(s@),
                None => None,
            },
        ),
{
    match setting {
        Some(s) => match text::parse_unsigned(text::trim(s).as_str()) {
            Some(n) => if n >= 2 {
                n
            } else {
                8
            },
            None => 8,
        },
        None => 8,
    }
}

/// How alike two groups have to be to become one, in millionths, where nothing else is set.
pub const LIKENESS: i64 = 300_000;

/// At this likeness or less it is not lowered any more.
pub const LEAST_LIKENESS: i64 = 180_000;

/// By so much it is lowered at a time.
pub const LIKENESS_STEP: i64 = 20_000;

/// How alike two groups have to be, as the environment says, in millionths; nothing where it says none,
/// and the lines are then not grouped.
pub open spec fn likeness_of(setting: Option<Seq<char>>) -> Option<int> {
    match setting {
        Some(s) => match media::moment(text::trimmed(s)) {
            Some(n) => if n == 0 {
                None
            } else {
                Some(n)
            },
            None => Some(LIKENESS as int),
        },
        None => Some(LIKENESS as int),
    }
}

/// How alike two groups have to be to become one, as the environment says.
pub fn first_likeness(setting: Option<&str>) -> (r: Option<i64>)
    ensures
        (match r {
            Some(n) => Some(n as int),
            None => None,
        }) == likeness_of(
            match setting {
                Some(s) => Some(s@),
                None => None,
            },
        ),
{
    match setting {
        Some(s) => match media::read_moment(text::trim(s).as_str()) {
            Some(n) => if n == 0 {
                None
            } else {
                Some(n)
            },
            None => Some(LIKENESS),
        },
        None => Some(LIKENESS),
    }
}

/// The likeness with which the lines are grouped again: there are too many groups, and it is not at its
/// lowest yet.
pub open spec fn lowered(groups: int, most: int, likeness: int) -> Option<int> {
    if groups > most && likeness > LEAST_LIKENESS {
        Some(likeness - LIKENESS_STEP)
    } else {
        None
    }
}

/// The likeness with which the lines are grouped again, if they are.
pub fn lower(groups: u64, most: u64, likeness: i64) -> (r: Option<i64>)
    ensures
        match r {
            Some(l) => lowered(groups as int, most as int, likeness as int) == Some(l as int),
            None => lowered(groups as int, most as int, likeness as int) is None,
        },
{
    if groups > most && likeness > LEAST_LIKENESS {
        Some(likeness - LIKENESS_STEP)
    } else {
        None
    }
}

/// Whether the voices are to be told apart at all: it is not switched off, and there are lines to compare.
pub fn regroups(setting: Option<&str>, lines: usize) -> (r: bool)
    ensures
        r == (lines >= 2 && !(setting matches Some(s) && s@ == "0"@)),
{
    let off = match setting {
        Some(s) => text::same(s, "0"),
        None => false,
    };
    lines >= 2 && !off
}

/// The sound in which the voices are measured: the cleaned one where it is there, else the raw one.
pub fn measured_sound(clean: bool, raw: bool) -> (r: Option<&'static str>)
    ensures
        match r {
            Some(s) => (clean && s@ == "vocals16_clean.wav"@) || (!clean && raw && s@
                == "vocals16.wav"@),
            None => !clean && !raw,
        },
{
    if clean {
        Some("vocals16_clean.wav")
    } else if raw {
        Some("vocals16.wav")
    } else {
        None
    }
}

/// The names that the lines' speakers have.
pub open spec fn named(segs: Seq<Segment>) -> Seq<Seq<char>>
    decreases segs.len(),
{
    if segs.len() == 0 {
        Seq::empty()
    } else {
        match segs.last().speaker {
            Some(s) => named(segs.drop_last()).push(s@),
            None => named(segs.drop_last()),
        }
    }
}

/// How many different speakers the lines name.
pub fn count_speakers(segs: &Vec<Segment>) -> (r: usize)
    ensures
        exists|names: Seq<Seq<char>>| #[trigger]
            order::sorted_set_of(names, named(segs@)) && r == names.len(),
{
    let mut all: Vec<String> = Vec::new();
    assert(segs@.take(0) =~= Seq::empty());
    assert(text::views(all@) =~= Seq::empty());
    for i in 0..segs.len()
        invariant
            text::views(all@) == named(segs@.take(i as int)),
    {
        assert(segs@.take(i + 1).drop_last() =~= segs@.take(i as int));
        if let Some(s) = &segs[i].speaker {
            let ghost was = text::views(all@);
            all.push(s.clone());
            assert(text::views(all@) =~= was.push(s@));
        }
    }
    assert(segs@.take(segs@.len() as int) =~= segs@);
    let set = order::sorted_set(all);
    assert(text::views(set@).len() == set@.len());
    set.len()
}

/// Whether the grouping is taken over: it tells more voices apart than the lines had speakers.
pub fn worth_it(groups: usize, speakers: usize) -> (r: bool)
    ensures
        r == (groups > 1 && groups > speakers),
{
    groups > 1 && groups > speakers
}

// ── The new names ───────────────────────────────────────────────────────────

/// Twice the middle of a line.
pub open spec fn middle(s: Segment) -> int {
    s.start + s.end
}

pub open spec fn gap(a: Segment, b: Segment) -> int {
    let d = middle(a) - middle(b);
    if d >= 0 {
        d
    } else {
        -d
    }
}

pub open spec fn indices(v: Seq<usize>) -> Seq<int> {
    v.map_values(|i: usize| i as int)
}

/// The last place of `x` in the list.
pub open spec fn last_place(list: Seq<int>, x: int) -> Option<int>
    decreases list.len(),
{
    if list.len() == 0 {
        None
    } else if list.last() == x {
        Some(list.len() - 1)
    } else {
        last_place(list.drop_last(), x)
    }
}

/// The first of the measured lines that are nearest to the line `i`.
pub open spec fn nearest(segs: Seq<Segment>, measured: Seq<int>, i: int) -> Option<int>
    decreases measured.len(),
{
    if measured.len() == 0 {
        None
    } else {
        let before = nearest(segs, measured.drop_last(), i);
        match before {
            Some(k) => if gap(segs[measured.last()], segs[i]) < gap(segs[measured[k]], segs[i]) {
                Some(measured.len() - 1)
            } else {
                before
            },
            None => Some(measured.len() - 1),
        }
    }
}

/// The voice of the line `i`: its own where it was measured, else that of the nearest measured line.
pub open spec fn voice_of(segs: Seq<Segment>, measured: Seq<int>, labels: Seq<int>, i: int) -> Option<
    int,
> {
    match last_place(measured, i) {
        Some(k) => Some(labels[k]),
        None => match nearest(segs, measured, i) {
            Some(k) => match last_place(measured, measured[k]) {
                Some(m) => Some(labels[m]),
                None => None,
            },
            None => None,
        },
    }
}

/// The name of a voice.
pub open spec fn voice_name(label: int) -> Seq<char> {
    "v"@ + text::decimal(label as nat)
}

/// The lines with their speakers renamed by their voices; nothing else changes.
pub open spec fn renamed(
    now: Seq<Segment>,
    was: Seq<Segment>,
    measured: Seq<int>,
    labels: Seq<int>,
) -> bool {
    now.len() == was.len() && forall|i: int|
        0 <= i < now.len() ==> {
            let v = voice_of(was, measured, labels, i);
            &&& #[trigger] now[i] == (Segment { speaker: now[i].speaker, ..was[i] })
            &&& v matches Some(l) ==> now[i].speaker matches Some(s) && s@ == voice_name(l)
            &&& v is None ==> now[i].speaker == was[i].speaker
        }
}

fn find_last(list: &Vec<usize>, x: usize) -> (r: Option<usize>)
    ensures
        match r {
            Some(k) => k < list@.len() && last_place(indices(list@), x as int) == Some(k as int),
            None => last_place(indices(list@), x as int) is None,
        },
{
    let ghost iv = indices(list@);
    let mut n: usize = list.len();
    assert(iv.take(n as int) =~= iv);
    while n > 0
        invariant
            n <= list@.len(),
            iv == indices(list@),
            last_place(iv, x as int) == last_place(iv.take(n as int), x as int),
        decreases n,
    {
        assert(iv.take(n as int).last() == list@[n - 1]);
        if list[n - 1] == x {
            return Some(n - 1);
        }
        assert(iv.take(n as int).drop_last() =~= iv.take(n - 1));
        n -= 1;
    }
    None
}

fn gap_between(a: &Segment, b: &Segment) -> (r: i128)
    ensures
        r == gap(*a, *b),
{
    let d: i128 = (a.start as i128 + a.end as i128) - (b.start as i128 + b.end as i128);
    if d >= 0 {
        d
    } else {
        -d
    }
}

fn find_nearest(segs: &Vec<Segment>, measured: &Vec<usize>, i: usize) -> (r: Option<usize>)
    requires
        i < segs@.len(),
        forall|k: int| 0 <= k < measured@.len() ==> #[trigger] measured@[k] < segs@.len(),
    ensures
        match r {
            Some(k) => k < measured@.len() && nearest(segs@, indices(measured@), i as int) == Some(
                k as int,
            ),
            None => nearest(segs@, indices(measured@), i as int) is None,
        },
{
    let ghost iv = indices(measured@);
    let mut best: Option<usize> = None;
    assert(iv.take(0) =~= Seq::empty());
    for n in 0..measured.len()
        invariant
            i < segs@.len(),
            forall|k: int| 0 <= k < measured@.len() ==> #[trigger] measured@[k] < segs@.len(),
            iv == indices(measured@),
            match best {
                Some(k) => k < n && nearest(segs@, iv.take(n as int), i as int) == Some(k as int),
                None => nearest(segs@, iv.take(n as int), i as int) is None,
            },
    {
        assert(iv.take(n + 1).drop_last() =~= iv.take(n as int));
        assert(iv.take(n + 1).last() == measured@[n as int]);
        match best {
            Some(k) => {
                assert(iv.take(n as int)[k as int] == measured@[k as int]);
                if gap_between(&segs[measured[n]], &segs[i]) < gap_between(
                    &segs[measured[k]],
                    &segs[i],
                ) {
                    best = Some(n);
                }
            },
            None => {
                best = Some(n);
            },
        }
    }
    assert(iv.take(measured@.len() as int) =~= iv);
    best
}

fn find_voice(segs: &Vec<Segment>, measured: &Vec<usize>, labels: &Vec<usize>, i: usize) -> (r: Option<
    usize,
>)
    requires
        i < segs@.len(),
        measured@.len() == labels@.len(),
        forall|k: int| 0 <= k < measured@.len() ==> #[trigger] measured@[k] < segs@.len(),
    ensures
        (match r {
            Some(l) => Some(l as int),
            None => None,
        }) == voice_of(segs@, indices(measured@), indices(labels@), i as int),
{
    match find_last(measured, i) {
        Some(k) => Some(labels[k]),
        None => match find_nearest(segs, measured, i) {
            Some(k) => match find_last(measured, measured[k]) {
                Some(m) => Some(labels[m]),
                None => None,
            },
            None => None,
        },
    }
}

/// Renames the speakers of the lines: `measured` are the lines whose voices were told apart, `labels`
/// the numbers of their voices.
pub fn rename_speakers(segs: &mut Vec<Segment>, measured: &Vec<usize>, labels: &Vec<usize>)
    requires
        measured@.len() == labels@.len(),
        forall|k: int| 0 <= k < measured@.len() ==> #[trigger] measured@[k] < old(segs)@.len(),
    ensures
        renamed(final(segs)@, old(segs)@, indices(measured@), indices(labels@)),
{
    let ghost was = segs@;
    let n: usize = segs.len();
    let mut names: Vec<Option<usize>> = Vec::new();
    for i in 0..n
        invariant
            n == was.len(),
            segs@ == was,
            measured@.len() == labels@.len(),
            forall|k: int| 0 <= k < measured@.len() ==> #[trigger] measured@[k] < segs@.len(),
            names@.len() == i,
            forall|j: int|
                0 <= j < i ==> (match #[trigger] names@[j] {
                    Some(l) => Some(l as int),
                    None => None,
                }) == voice_of(was, indices(measured@), indices(labels@), j),
    {
        names.push(find_voice(segs, measured, labels, i));
    }
    for i in 0..n
        invariant
            n == was.len(),
            segs@.len() == n,
            names@.len() == n,
            forall|j: int|
                0 <= j < n ==> (match #[trigger] names@[j] {
                    Some(l) => Some(l as int),
                    None => None,
                }) == voice_of(was, indices(measured@), indices(labels@), j),
            forall|j: int| i <= j < n ==> #[trigger] segs@[j] == was[j],
            forall|j: int|
                0 <= j < i ==> {
                    let v = voice_of(was, indices(measured@), indices(labels@), j);
                    &&& #[trigger] segs@[j] == (Segment { speaker: segs@[j].speaker, ..was[j] })
                    &&& v matches Some(l) ==> segs@[j].speaker matches Some(s) && s@ == voice_name(
                        l,
                    )
                    &&& v is None ==> segs@[j].speaker == was[j].speaker
                },
    {
        assert(names@[i as int] == names[i as int]);
        if let Some(l) = names[i] {
            let mut name = "v".to_owned();
            name.append(text::to_decimal(l as u64).as_str());
            segs[i].speaker = Some(name);
        }
    }
}

// ── Laws ────────────────────────────────────────────────────────────────────

proof fn lemma_last_place(list: Seq<int>, x: int)
    ensures
        last_place(list, x) matches Some(k) ==> 0 <= k < list.len() && list[k] == x,
        last_place(list, x) is None ==> !list.contains(x),
    decreases list.len(),
{
    if list.len() > 0 && list.last() != x {
        lemma_last_place(list.drop_last(), x);
        if list.contains(x) {
            let k = choose|k: int| 0 <= k < list.len() && list[k] == x;
            assert(list.drop_last()[k] == x);
        }
    }
}

proof fn lemma_nearest(segs: Seq<Segment>, measured: Seq<int>, i: int)
    ensures
        measured.len() > 0 ==> nearest(segs, measured, i) is Some,
        nearest(segs, measured, i) matches Some(k) ==> 0 <= k < measured.len() && forall|j: int|
            0 <= j < measured.len() ==> gap(segs[measured[k]], segs[i]) <= gap(
                segs[#[trigger] measured[j]],
                segs[i],
            ),
    decreases measured.len(),
{
    if measured.len() > 0 {
        let t = measured.drop_last();
        lemma_nearest(segs, t, i);
        assert forall|j: int| 0 <= j < t.len() implies t[j] == #[trigger] measured[j] by {}
        if let Some(k) = nearest(segs, t, i) {
            assert forall|j: int| 0 <= j < t.len() implies gap(segs[t[k]], segs[i]) <= gap(
                segs[#[trigger] measured[j]],
                segs[i],
            ) by {
                assert(t[j] == measured[j]);
            }
        }
    }
}

/// Grouping again comes to an end: the likeness goes down each time, and not below its lowest by a step
/// or more. Lines in few enough groups stay as they are.
pub proof fn law_lowering_ends(groups: int, most: int, likeness: int)
    ensures
        lowered(groups, most, likeness) matches Some(l) ==> LEAST_LIKENESS - LIKENESS_STEP < l
            < likeness,
        lowered(groups, most, likeness) is None ==> groups <= most || likeness <= LEAST_LIKENESS,
{
}

/// Once a voice was measured every line gets one: a line that was not measured takes that of the nearest
/// line that was.
pub proof fn law_every_line_gets_a_voice(
    segs: Seq<Segment>,
    measured: Seq<int>,
    labels: Seq<int>,
    i: int,
)
    requires
        measured.len() > 0,
    ensures
        voice_of(segs, measured, labels, i) is Some,
        !measured.contains(i) ==> exists|k: int|
            0 <= k < measured.len() && voice_of(segs, measured, labels, i) == Some(labels[k])
                && forall|j: int|
                0 <= j < measured.len() ==> gap(segs[#[trigger] measured[k]], segs[i]) <= gap(
                    segs[#[trigger] measured[j]],
                    segs[i],
                ),
{
    lemma_last_place(measured, i);
    lemma_nearest(segs, measured, i);
    let k = nearest(segs, measured, i)->0;
    lemma_last_place(measured, measured[k]);
    assert(measured.contains(measured[k]));
    let m = last_place(measured, measured[k])->0;
    if !measured.contains(i) {
        if last_place(measured, i) is Some {
            assert(measured[last_place(measured, i)->0] == i);
        }
        assert(measured[m] == measured[k]);
        assert(voice_of(segs, measured, labels, i) == Some(labels[m]));
    }
}

/// A cut begins where it should and ends with the line, but after `most` at the latest and not before a
/// twentieth of a second.
pub proof fn law_cut_ends_with_the_line(start: int, end: int, most: int)
    ensures
        end - start > 50_000 && end - start <= most ==> cut_end(start, end, most) == end,
        end - start > most > 50_000 ==> cut_end(start, end, most) == start + most,
        end - start <= 50_000 || most <= 50_000 ==> cut_end(start, end, most) == start + 50_000,
{
}

/// The most characters are eight, unless two or more are asked for.
pub proof fn law_most_characters(setting: Option<Seq<char>>, n: u64)
    ensures
        setting is None ==> most_characters(setting) == 8,
        setting matches Some(s) && text::unsigned(text::trimmed(s)) == Some(n) ==> most_characters(setting)
            == (if n < 2 {
            8
        } else {
            n
        }),
        setting matches Some(s) && text::unsigned(text::trimmed(s)) is None ==> most_characters(setting) == 8,
{
}

/// The lines are grouped again only while there are too many groups and the likeness is above 0.18, with a
/// likeness that is 0.02 lower; it is 0.3 at first where nothing else is asked for.
pub proof fn law_likeness_is_lowered_by_steps(groups: int, most: int, likeness: int)
    ensures
        lowered(groups, most, likeness) == (if groups > most && likeness > 180_000 {
            Some(likeness - 20_000)
        } else {
            None
        }),
        likeness_of(None) == Some(300_000int),
{
}

proof fn lemma_last_of_places(list: Seq<int>, x: int)
    ensures
        match last_place(list, x) {
            Some(k) => 0 <= k < list.len() && list[k] == x && forall|j: int|
                k < j < list.len() ==> #[trigger] list[j] != x,
            None => !list.contains(x),
        },
    decreases list.len(),
{
    if list.len() > 0 {
        let prev = list.drop_last();
        lemma_last_of_places(prev, x);
        assert(forall|j: int| 0 <= j < prev.len() ==> prev[j] == #[trigger] list[j]);
        if list.last() != x && last_place(prev, x) is None {
            if list.contains(x) {
                let j = choose|j: int| 0 <= j < list.len() && list[j] == x;
                assert(prev[j] == x);
                assert(prev.contains(x));
            }
        }
    }
}

proof fn lemma_first_nearest(segs: Seq<Segment>, measured: Seq<int>, i: int)
    requires
        measured.len() > 0,
    ensures
        nearest(segs, measured, i) matches Some(k) && 0 <= k < measured.len() && forall|j: int|
            0 <= j < measured.len() ==> gap(segs[measured[k]], segs[i]) <= gap(
                segs[#[trigger] measured[j]],
                segs[i],
            ) && (j < k ==> gap(segs[measured[k]], segs[i]) < gap(segs[measured[j]], segs[i])),
    decreases measured.len(),
{
    let prev = measured.drop_last();
    assert(forall|j: int| 0 <= j < prev.len() ==> prev[j] == #[trigger] measured[j]);
    assert(measured[measured.len() - 1] == measured.last());
    if prev.len() > 0 {
        lemma_first_nearest(segs, prev, i);
    } else {
        assert(nearest(segs, prev, i) is None);
    }
}

/// A line that was measured has the voice that was heard in it. Any other has that of the measured line whose
/// middle is nearest to its own, of equally near ones the first, and no voice only where none was measured.
pub proof fn law_line_has_the_nearest_voice(
    segs: Seq<Segment>,
    measured: Seq<int>,
    labels: Seq<int>,
    i: int,
    k: int,
)
    requires
        forall|a: int, b: int|
            0 <= a < b < measured.len() ==> #[trigger] measured[a] != #[trigger] measured[b],
        0 <= k < measured.len(),
    ensures
        measured[k] == i ==> voice_of(segs, measured, labels, i) == Some(labels[k]),
        !measured.contains(i) && (forall|j: int|
            0 <= j < measured.len() && j != k ==> ({
                let d = |x: int| {
                    let m = (segs[x].start + segs[x].end) - (segs[i].start + segs[i].end);
                    if m < 0 {
                        -m
                    } else {
                        m
                    }
                };
                d(measured[k]) < d(#[trigger] measured[j]) || (d(measured[k]) == d(measured[j]) && k < j)
            })) ==> voice_of(segs, measured, labels, i) == Some(labels[k]),
        voice_of(segs, Seq::empty(), labels, i) is None,
{
    lemma_last_of_places(measured, i);
    lemma_last_of_places(measured, measured[k]);
    lemma_first_nearest(segs, measured, i);
    let n = nearest(segs, measured, i)->0;
    lemma_last_of_places(measured, measured[n]);
    if measured[k] == i {
        let m = last_place(measured, i);
        assert(measured.contains(i));
    }
    let m = last_place(measured, measured[n]);
    assert(measured.contains(measured[n]));
    assert(measured[m->0] == measured[n]);
    assert(m->0 == n);
    if n != k {
        let (a, b) = (measured[n], measured[k]);
        assert(gap(segs[a], segs[i]) <= gap(segs[b], segs[i]));
    }
}

/// Voices that differ have names that differ.
pub proof fn law_voices_have_names_of_their_own(a: nat, b: nat)
    ensures
        voice_name(a as int) == voice_name(b as int) ==> a == b,
        text::starts(voice_name(a as int), "v"@),
{
    reveal_strlit("v");
    text::lemma_decimal_reads_back(a);
    text::lemma_decimal_reads_back(b);
    let (x, y) = (voice_name(a as int), voice_name(b as int));
    assert(x.skip(1) =~= text::decimal(a));
    assert(y.skip(1) =~= text::decimal(b));
    assert(x.take(1) =~= "v"@);
}

} // verus!
