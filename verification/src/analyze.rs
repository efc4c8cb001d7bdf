//! From what was heard to a project: the lines, and whether the film is dubbed at all.

use crate::order;
use crate::project;
use crate::project::Project;
use crate::project::Segment;
use crate::rank;
use crate::text;
use vstd::prelude::*;

verus! {

/// What is asked for.
#[derive(Clone, Debug)]
pub struct AnalyzeArgs {
    pub tgt_lang: String,
    /// auto, dub, voiceover, nodub or transcribe.
    pub mode: String,
    pub src_lang: String,
    /// auto, none, translate or transcribe.
    pub subs: String,
    pub rewrite: String,
    /// Draw the subtitles and titles on the picture.
    pub burn: bool,
}

/// Where the film and the models lie.
#[derive(Clone, Debug)]
pub struct AnalyzePaths {
    pub input: String,
    pub work_dir: String,
    pub tdt_dir: String,
    pub sortformer_onnx: String,
    pub llama_bin: String,
    pub mt_model: String,
    pub mmproj: String,
    pub models_root: String,
    /// How many pictures of a second are looked at for captions.
    pub caption_fps: i32,
}

// ── Words ───────────────────────────────────────────────────────────────────

/// The runs of letters that end in the text, in small letters.
pub open spec fn ended_runs(s: Seq<char>) -> Seq<Seq<char>>
    decreases s.len(),
{
    if s.len() == 0 {
        Seq::empty()
    } else if text::alphabetic(s.last()) {
        ended_runs(s.drop_last())
    } else {
        kept(ended_runs(s.drop_last()), open_run(s.drop_last()))
    }
}

/// The run of letters at the end of the text.
pub open spec fn open_run(s: Seq<char>) -> Seq<char>
    decreases s.len(),
{
    if s.len() == 0 || !text::alphabetic(s.last()) {
        Seq::empty()
    } else {
        open_run(s.drop_last()).push(s.last())
    }
}

/// The list with the word, if that is not empty.
pub open spec fn kept(list: Seq<Seq<char>>, word: Seq<char>) -> Seq<Seq<char>> {
    if word.len() > 0 {
        list.push(text::lowercase(word))
    } else {
        list
    }
}

/// The runs of letters of a text, in small letters.
pub open spec fn runs(s: Seq<char>) -> Seq<Seq<char>> {
    kept(ended_runs(s), open_run(s))
}

/// The words of all lines.
pub open spec fn all_words(segs: Seq<Segment>) -> Seq<Seq<char>>
    decreases segs.len(),
{
    if segs.len() == 0 {
        Seq::empty()
    } else {
        all_words(segs.drop_last()) + runs(segs.last().src_text@)
    }
}

fn keep(list: &mut Vec<String>, word: &Vec<char>)
    ensures
        text::views(final(list)@) == kept(text::views(old(list)@), word@),
{
    if word.len() > 0 {
        let ghost was = text::views(list@);
        let w = text::to_lower(text::text_of(word).as_str());
        list.push(w);
        assert(text::views(list@) =~= was.push(text::lowercase(word@)));
    }
}

/// The runs of letters of a text, in small letters.
pub fn letter_runs(s: &str) -> (r: Vec<String>)
    ensures
        text::views(r@) == runs(s@),
{
    let v = text::chars_of(s);
    let mut out: Vec<String> = Vec::new();
    let mut word: Vec<char> = Vec::new();
    assert(v@.take(0) =~= Seq::empty());
    assert(text::views(out@) =~= Seq::empty());
    for i in 0..v.len()
        invariant
            text::views(out@) == ended_runs(v@.take(i as int)),
            word@ == open_run(v@.take(i as int)),
    {
        assert(v@.take(i + 1).drop_last() =~= v@.take(i as int));
        if text::is_alphabetic(v[i]) {
            word.push(v[i]);
        } else {
            keep(&mut out, &word);
            word = Vec::new();
        }
    }
    assert(v@.take(v@.len() as int) =~= v@);
    keep(&mut out, &word);
    out
}

/// The words of all lines.
pub fn spoken_words(segs: &Vec<Segment>) -> (r: Vec<String>)
    ensures
        text::views(r@) == all_words(segs@),
{
    let mut out: Vec<String> = Vec::new();
    assert(segs@.take(0) =~= Seq::empty());
    assert(text::views(out@) =~= Seq::empty());
    for i in 0..segs.len()
        invariant
            text::views(out@) == all_words(segs@.take(i as int)),
    {
        assert(segs@.take(i + 1).drop_last() =~= segs@.take(i as int));
        let mut more = letter_runs(segs[i].src_text.as_str());
        let ghost was = text::views(out@);
        let ghost new = text::views(more@);
        out.append(&mut more);
        assert(text::views(out@) =~= was + new);
    }
    assert(segs@.take(segs@.len() as int) =~= segs@);
    out
}

// ── Whether there is speech ─────────────────────────────────────────────────

/// How long is spoken.
pub open spec fn spoken_time(segs: Seq<Segment>) -> int
    decreases segs.len(),
{
    if segs.len() == 0 {
        0
    } else {
        let s = segs.last();
        spoken_time(segs.drop_last()) + if s.end > s.start {
            s.end - s.start
        } else {
            0
        }
    }
}

/// Speech that is worth a dub: at least four words, over a tenth of the film, and at least 35 hundredths of
/// the words are different. `distinct` is how many words are different.
pub open spec fn speech(segs: Seq<Segment>, distinct: int, total: int) -> bool {
    let n = all_words(segs).len();
    let length = if total > 100_000 {
        total
    } else {
        100_000
    };
    n >= 4 && 10 * spoken_time(segs) >= length && 20 * distinct >= 7 * n
}

/// Whether there is speech that is worth a dub: music is heard as a few words over and over.
pub fn has_speech(segs: &Vec<Segment>, total: i64) -> (r: bool)
    requires
        project::all_timed(segs@),
    ensures
        exists|set: Seq<Seq<char>>| #[trigger]
            order::sorted_set_of(set, all_words(segs@)) && r == speech(
                segs@,
                set.len() as int,
                total as int,
            ),
{
    let words = spoken_words(segs);
    let n: usize = words.len();
    assert(text::views(words@).len() == n);
    let set = order::sorted_set(words);
    let ghost sv = text::views(set@);
    assert(sv.len() == set@.len());
    let mut time: i128 = 0;
    assert(segs@.take(0) =~= Seq::empty());
    for i in 0..segs.len()
        invariant
            project::all_timed(segs@),
            time == spoken_time(segs@.take(i as int)),
            0 <= time <= i * (2 * project::TIME_LIMIT),
    {
        assert(segs@.take(i + 1).drop_last() =~= segs@.take(i as int));
        assert(segs@[i as int].timed());
        let s = &segs[i];
        assert((i + 1) * (2 * project::TIME_LIMIT) == i * (2 * project::TIME_LIMIT) + 2
            * project::TIME_LIMIT) by (nonlinear_arith);
        assert(i * (2 * project::TIME_LIMIT) <= 0xffff_ffff_ffff_ffff * 200_000_000_000_000)
            by (nonlinear_arith)
            requires
                i <= 0xffff_ffff_ffff_ffff,
                2 * project::TIME_LIMIT == 200_000_000_000_000,
        ;
        if s.end > s.start {
            time += (s.end - s.start) as i128;
        }
    }
    assert(segs@.take(segs@.len() as int) =~= segs@);
    let length: i64 = if total > 100_000 {
        total
    } else {
        100_000
    };
    proof {
        let k = segs@.len();
        assert(k * (2 * project::TIME_LIMIT) <= 0xffff_ffff_ffff_ffff * 200_000_000_000_000)
            by (nonlinear_arith)
            requires
                k <= 0xffff_ffff_ffff_ffff,
                2 * project::TIME_LIMIT == 200_000_000_000_000,
        ;
    }
    n >= 4 && 10 * time >= length as i128 && 20 * set.len() as u128 >= 7 * n as u128
}

// ── What is made of the film ────────────────────────────────────────────────

/// How the film is dubbed.
pub open spec fn mode_of(mode: Seq<char>) -> Seq<char> {
    if mode == "nodub"@ || mode == "transcribe"@ || mode == "voiceover"@ {
        mode
    } else {
        "dub"@
    }
}

/// What the subtitles say.
pub open spec fn subs_of(subs: Seq<char>, mode: Seq<char>) -> Seq<char> {
    if subs == "none"@ {
        "none"@
    } else if subs == "transcribe"@ || mode == "transcribe"@ {
        "transcribe"@
    } else {
        "translate"@
    }
}

/// How the film is dubbed, and what the subtitles say.
pub fn resolve_modes(args: &AnalyzeArgs) -> (r: (String, String))
    ensures
        r.0@ == mode_of(args.mode@),
        r.1@ == subs_of(args.subs@, mode_of(args.mode@)),
{
    let m = args.mode.as_str();
    let mode = if text::same(m, "nodub") || text::same(m, "transcribe") || text::same(m, "voiceover") {
        args.mode.clone()
    } else {
        "dub".to_owned()
    };
    let s = args.subs.as_str();
    let subs = if text::same(s, "none") {
        "none".to_owned()
    } else if text::same(s, "transcribe") || text::same(mode.as_str(), "transcribe") {
        "transcribe".to_owned()
    } else {
        "translate".to_owned()
    };
    (mode, subs)
}

/// Whether the speakers are told apart: not where the film is not dubbed.
pub fn wants_speakers(args: &AnalyzeArgs) -> (r: bool)
    ensures
        r == (args.mode@ != "nodub"@),
{
    !text::same(args.mode.as_str(), "nodub")
}

/// Whether the lines are heard turn by turn: more than one speaker was told apart.
pub fn by_turns(speakers: usize, turns: usize) -> (r: bool)
    ensures
        r == (speakers > 1 && turns > 0),
{
    speakers > 1 && turns > 0
}

/// A line that was heard.
#[derive(Clone, Debug)]
pub struct HeardLine {
    pub start: i64,
    pub end: i64,
    /// The speaker's number, nothing where the speakers were not told apart.
    pub speaker: Option<u64>,
    pub text: String,
}

/// The speaker of a line that was heard.
pub open spec fn speaker_of(h: HeardLine) -> Seq<char> {
    match h.speaker {
        Some(n) => text::decimal(n as nat),
        None => "0"@,
    }
}

pub open spec fn starts(hs: Seq<HeardLine>) -> Seq<int> {
    hs.map_values(|h: HeardLine| h.start as int)
}

/// The order of the lines: by time where they were heard turn by turn, else as they came.
pub open spec fn order_of(hs: Seq<HeardLine>, turns: bool) -> Seq<int> {
    if turns {
        rank::stable_order(starts(hs))
    } else {
        Seq::new(hs.len(), |i: int| i)
    }
}

/// The line in the place `i`.
pub open spec fn is_line(s: Segment, h: HeardLine, i: int) -> bool {
    &&& s.id@ == "s"@ + text::decimal(i as nat)
    &&& s.start == h.start
    &&& s.end == h.end
    &&& s.speaker is Some
    &&& s.speaker->0@ == speaker_of(h)
    &&& s.src_text@ == h.text@
    &&& s.tgt_text@.len() == 0
    &&& s.voice is None
    &&& !s.dirty
    &&& !s.hidden
    &&& !s.keep_original
}

/// The lines of the project from what was heard; those that were heard turn by turn are put in the order
/// of their times.
pub fn make_segments(hs: &Vec<HeardLine>, turns: bool) -> (r: Vec<Segment>)
    ensures
        r@.len() == hs@.len(),
        order_of(hs@, turns).len() == hs@.len(),
        forall|i: int|
            0 <= i < r@.len() ==> is_line(#[trigger] r@[i], hs@[order_of(hs@, turns)[i]], i),
{
    let n: usize = hs.len();
    let mut order: Vec<usize> = Vec::new();
    if turns {
        let mut keys: Vec<i128> = Vec::new();
        for i in 0..n
            invariant
                n == hs@.len(),
                keys@.len() == i,
                forall|j: int| 0 <= j < i ==> #[trigger] keys@[j] == hs@[j].start,
        {
            keys.push(hs[i].start as i128);
        }
        assert(rank::ints(keys@) =~= starts(hs@));
        order = rank::stable_sort(&keys);
    } else {
        for i in 0..n
            invariant
                order@.len() == i,
                forall|j: int| 0 <= j < i ==> #[trigger] order@[j] == j,
        {
            order.push(i);
        }
        assert(rank::indices(order@) =~= order_of(hs@, turns));
    }
    let ghost o = order_of(hs@, turns);
    assert(rank::indices(order@) == o);
    assert(starts(hs@).len() == n);
    let mut out: Vec<Segment> = Vec::new();
    for i in 0..n
        invariant
            n == hs@.len(),
            order@.len() == n,
            o == rank::indices(order@),
            forall|j: int| 0 <= j < n ==> 0 <= #[trigger] o[j] < n,
            out@.len() == i,
            forall|j: int| 0 <= j < i ==> is_line(#[trigger] out@[j], hs@[o[j]], j),
    {
        let x: usize = order[i];
        assert(o[i as int] == x);
        let h = &hs[x];
        let mut id = "s".to_owned();
        id.append(text::to_decimal(i as u64).as_str());
        let speaker = match h.speaker {
            Some(k) => text::to_decimal(k),
            None => "0".to_owned(),
        };
        out.push(
            Segment {
                id,
                start: h.start,
                end: h.end,
                speaker: Some(speaker),
                src_text: h.text.clone(),
                tgt_text: String::new(),
                voice: None,
                dirty: false,
                hidden: false,
                keep_original: false,
            },
        );
    }
    out
}

/// What became of a film whose mode was left open.
#[derive(Clone, Copy, Debug, PartialEq, Eq, Structural)]
pub enum Fate {
    /// It is dubbed as asked.
    Open,
    /// Nothing was heard: it is not dubbed.
    Silent,
    /// No speech that is worth a dub was heard: it is not dubbed.
    NoSpeech,
}

/// What becomes of the film; `worthy` says whether the speech is worth a dub.
pub open spec fn fate_of(mode: Seq<char>, lines: nat, worthy: bool) -> Fate {
    if mode != "auto"@ {
        Fate::Open
    } else if lines == 0 {
        Fate::Silent
    } else if !worthy {
        Fate::NoSpeech
    } else {
        Fate::Open
    }
}

/// What becomes of the film.
pub fn fate(args: &AnalyzeArgs, lines: usize, worthy: bool) -> (r: Fate)
    ensures
        r == fate_of(args.mode@, lines as nat, worthy),
{
    if !text::same(args.mode.as_str(), "auto") {
        Fate::Open
    } else if lines == 0 {
        Fate::Silent
    } else if !worthy {
        Fate::NoSpeech
    } else {
        Fate::Open
    }
}

/// What is reported of a film; nothing where it is dubbed as asked.
pub fn fate_report(g: Fate) -> (r: Option<&'static str>)
    ensures
        match g {
            Fate::Open => r is None,
            Fate::Silent => r is Some && r->0@
                == "нет речевых сегментов; оставляю оригинальную дорожку (nodub)"@,
            Fate::NoSpeech => r is Some && r->0@
                == "auto: нет дубляж-годной речи -> NODUB (оригинал + локализация экранного текста)"@,
        },
{
    match g {
        Fate::Open => None,
        Fate::Silent => Some("нет речевых сегментов; оставляю оригинальную дорожку (nodub)"),
        Fate::NoSpeech => Some(
            "auto: нет дубляж-годной речи -> NODUB (оригинал + локализация экранного текста)",
        ),
    }
}

/// The project of a film: what was asked for, what was heard, and what becomes of it.
pub fn assemble(args: &AnalyzeArgs, segments: Vec<Segment>, g: Fate) -> (r: Project)
    ensures
        r.mode@ == if g == Fate::Open {
            mode_of(args.mode@)
        } else {
            "nodub"@
        },
        r.tgt_lang@ == args.tgt_lang@,
        r.subs.mode@ == subs_of(args.subs@, mode_of(args.mode@)),
        r.subs.burn == args.burn,
        r.segments == segments,
        args.rewrite@.len() == 0 ==> r.audio.rewrite is None,
        args.rewrite@.len() > 0 ==> r.audio.rewrite is Some && r.audio.rewrite->0@ == args.rewrite@,
        r.captions.blur_boxes@.len() == 0,
        r.captions.sub_y is None,
{
    let (mode, subs) = resolve_modes(args);
    let mut p = Project::default();
    p.mode = if matches!(g, Fate::Open) {
        mode
    } else {
        "nodub".to_owned()
    };
    p.tgt_lang = args.tgt_lang.clone();
    p.subs.mode = subs;
    p.subs.burn = args.burn;
    p.segments = segments;
    if !args.rewrite.as_str().is_empty() {
        p.audio.rewrite = Some(args.rewrite.clone());
    }
    p
}

// ── Laws ────────────────────────────────────────────────────────────────────

/// Only a film whose mode was left open is kept from the dub that was asked for.
pub proof fn law_explicit_mode_is_kept(mode: Seq<char>, lines: nat, worthy: bool)
    requires
        mode != "auto"@,
    ensures
        fate_of(mode, lines, worthy) == Fate::Open,
{
}

/// A film without words is never worth a dub.
pub proof fn law_no_words_no_speech(segs: Seq<Segment>, distinct: int, total: int)
    requires
        all_words(segs).len() < 4,
    ensures
        !speech(segs, distinct, total),
{
}

/// Lines that were heard turn by turn stand in the order of their times.
pub proof fn law_turns_are_in_time(hs: Seq<HeardLine>, i: int, j: int)
    requires
        0 <= i < j < hs.len(),
    ensures
        hs[order_of(hs, true)[i]].start <= hs[order_of(hs, true)[j]].start,
{
    rank::law_stable_order(starts(hs));
    let o = rank::stable_order(starts(hs));
    assert(starts(hs)[o[i]] == hs[o[i]].start && starts(hs)[o[j]] == hs[o[j]].start);
}

/// Words are runs of letters: what is no letter parts them, and letters alone are one word, in small letters.
pub proof fn law_words_are_runs_of_letters(a: Seq<char>, c: char, b: Seq<char>, w: Seq<char>)
    requires
        !text::alphabetic(c),
        w.len() > 0,
        forall|i: int| 0 <= i < w.len() ==> text::alphabetic(#[trigger] w[i]),
    ensures
        runs(a + seq![c] + b) == runs(a) + runs(b),
        runs(w) == seq![text::lowercase(w)],
        runs(Seq::empty()) == Seq::<Seq<char>>::empty(),
{
    lemma_runs_of_two(a, c, b);
    lemma_run_of_letters(w);
}

proof fn lemma_run_of_letters(w: Seq<char>)
    requires
        forall|i: int| 0 <= i < w.len() ==> text::alphabetic(#[trigger] w[i]),
    ensures
        ended_runs(w) == Seq::<Seq<char>>::empty(),
        open_run(w) == w,
        w.len() > 0 ==> runs(w) == seq![text::lowercase(w)],
    decreases w.len(),
{
    if w.len() > 0 {
        let v = w.drop_last();
        assert forall|i: int| 0 <= i < v.len() implies text::alphabetic(#[trigger] v[i]) by {
            assert(v[i] == w[i]);
        }
        lemma_run_of_letters(v);
        assert(text::alphabetic(w[w.len() - 1]));
        assert(v.push(w.last()) =~= w);
        assert(runs(w) =~= seq![text::lowercase(w)]);
    }
}

proof fn lemma_runs_of_two(a: Seq<char>, c: char, b: Seq<char>)
    requires
        !text::alphabetic(c),
    ensures
        open_run(a + seq![c] + b) == open_run(b),
        ended_runs(a + seq![c] + b) == runs(a) + ended_runs(b),
        runs(a + seq![c] + b) == runs(a) + runs(b),
    decreases b.len(),
{
    let s = a + seq![c] + b;
    if b.len() == 0 {
        assert(s =~= a.push(c));
        assert(s.drop_last() =~= a);
        assert(runs(a) + ended_runs(b) =~= runs(a));
    } else {
        lemma_runs_of_two(a, c, b.drop_last());
        assert(s.drop_last() =~= a + seq![c] + b.drop_last());
        assert(s.last() == b.last());
        assert(ended_runs(s) =~= runs(a) + ended_runs(b));
    }
    assert(runs(s) =~= runs(a) + runs(b));
}

/// The words of a film are those of its lines, and it is spoken for as long as its lines are long together; a
/// line that ends before it starts counts for nothing.
pub proof fn law_lines_add_up(a: Seq<Segment>, b: Seq<Segment>, s: Segment)
    ensures
        all_words(a + b) == all_words(a) + all_words(b),
        spoken_time(a + b) == spoken_time(a) + spoken_time(b),
        all_words(seq![s]) == runs(s.src_text@),
        s.start <= s.end ==> spoken_time(seq![s]) == s.end - s.start,
        s.end <= s.start ==> spoken_time(seq![s]) == 0,
    decreases b.len(),
{
    assert(seq![s].drop_last() =~= Seq::<Segment>::empty());
    reveal_with_fuel(all_words, 2);
    reveal_with_fuel(spoken_time, 2);
    assert(all_words(seq![s]) =~= runs(s.src_text@));
    if b.len() == 0 {
        assert(a + b =~= a);
        assert(all_words(a) + all_words(b) =~= all_words(a));
    } else {
        law_lines_add_up(a, b.drop_last(), s);
        assert((a + b).drop_last() =~= a + b.drop_last());
        assert((a + b).last() == b.last());
        assert(all_words(a + b) =~= all_words(a) + all_words(b));
    }
}

/// When speech is worth a dub: four words at least, spoken for a tenth of the film at least (one shorter than
/// a tenth of a second counts as so long), and at least 35 in a hundred of the words differ.
pub proof fn law_when_speech_is_worth_a_dub(segs: Seq<Segment>, distinct: int, total: int)
    ensures
        speech(segs, distinct, total) <==> {
            &&& all_words(segs).len() >= 4
            &&& 10 * spoken_time(segs) >= total && 10 * spoken_time(segs) >= 100_000
            &&& 100 * distinct >= 35 * all_words(segs).len()
        },
{
}

/// A film whose mode was left open is dubbed if it has lines and they are worth it; a film without lines is
/// silent, and the mode that somebody chose is never changed.
pub proof fn law_what_becomes_of_a_film(mode: Seq<char>, lines: nat, worthy: bool)
    ensures
        fate_of(mode, lines, worthy) is Silent <==> mode == "auto"@ && lines == 0,
        fate_of(mode, lines, worthy) is NoSpeech <==> mode == "auto"@ && lines > 0 && !worthy,
        fate_of(mode, lines, worthy) is Open <==> mode != "auto"@ || (lines > 0 && worthy),
{
}

/// The modes that are known are kept, and anything else means a dub. Subtitles that were switched off stay
/// off; they show the transcript where that is asked for or nothing is translated, and the translation else.
pub proof fn law_modes_are_kept(mode: Seq<char>, subs: Seq<char>)
    ensures
        mode == "nodub"@ || mode == "transcribe"@ || mode == "voiceover"@ || mode == "dub"@ ==> mode_of(mode)
            == mode,
        mode_of(mode) == mode || mode_of(mode) == "dub"@,
        subs_of(subs, mode) == "none"@ || subs_of(subs, mode) == "transcribe"@ || subs_of(subs, mode)
            == "translate"@,
        subs_of("none"@, mode) == "none"@,
        subs != "none"@ && mode == "transcribe"@ ==> subs_of(subs, mode) == "transcribe"@,
        subs == "transcribe"@ ==> subs_of(subs, mode) == "transcribe"@,
        subs != "none"@ && subs != "transcribe"@ && mode != "transcribe"@ ==> subs_of(subs, mode)
            == "translate"@,
{
    reveal_strlit("none");
    reveal_strlit("transcribe");
    assert("none"@.len() != "transcribe"@.len());
}

/// The lines become those of the project in the order of their times where they were heard turn by turn, and
/// in the order in which they came else. Each keeps its times, its words and its speaker; one without a
/// speaker belongs to "0".
pub proof fn law_lines_are_taken_over(hs: Seq<HeardLine>, h: HeardLine, n: u64)
    ensures
        rank::is_order(order_of(hs, true), hs.map_values(|x: HeardLine| x.start as int)),
        order_of(hs, false).len() == hs.len(),
        forall|i: int| 0 <= i < hs.len() ==> #[trigger] order_of(hs, false)[i] == i,
        h.speaker is None ==> speaker_of(h) == "0"@,
        h.speaker == Some(n) ==> speaker_of(h) == text::decimal(n as nat),
{
    rank::law_stable_order(starts(hs));
    assert(starts(hs) =~= hs.map_values(|x: HeardLine| x.start as int));
}

} // verus!
