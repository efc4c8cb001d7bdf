//! The stage that translates: whether it runs, and which lines it has left untranslated.

use crate::json::Doc;
use crate::json::Json;
use crate::media;
use crate::project::Project;
use crate::project::Segment;
use crate::text;
use vstd::prelude::*;

verus! {

// ── Whether to translate ────────────────────────────────────────────────────

/// The project needs a translation: it is dubbed or spoken over, or its subtitles are translated.
pub open spec fn needs_translation(p: Project) -> bool {
    p.mode@ == "dub"@ || p.mode@ == "voiceover"@ || p.subs.mode@ == "translate"@
}

/// Whether the project needs a translation.
pub fn wants_translate(p: &Project) -> (r: bool)
    ensures
        r == needs_translation(*p),
{
    text::same(p.mode.as_str(), "dub") || text::same(p.mode.as_str(), "voiceover") || text::same(
        p.subs.mode.as_str(),
        "translate",
    )
}

/// The language of the film is known and is the one of the dub.
pub open spec fn same_language(src: Seq<char>, tgt: Seq<char>) -> bool {
    src.len() > 0 && text::lowercase(src) != "auto"@ && text::lowercase(src) == text::lowercase(tgt)
}

fn is_same_language(src: &str, tgt: &str) -> (r: bool)
    ensures
        r == same_language(src@, tgt@),
{
    if src.is_empty() {
        return false;
    }
    let low = text::to_lower(src);
    let tgt_low = text::to_lower(tgt);
    !text::same(low.as_str(), "auto") && text::same(low.as_str(), tgt_low.as_str())
}

/// What the stage does.
#[derive(Clone, Copy, Debug, PartialEq, Eq, Structural)]
pub enum Step {
    /// There is nothing to translate.
    Nothing,
    /// The subtitles came translated.
    Imported,
    /// The lines stay as they were heard: no translation is wanted.
    Transcribe,
    /// The lines stay as they were heard: the languages are the same.
    SameLanguage,
    /// The program that runs the translator is missing.
    NoServer,
    /// The translator is missing.
    NoModel,
    /// The lines are translated.
    Translate,
}

/// What is asked of the stage beside the project.
pub struct Request<'a> {
    /// The subtitles came translated.
    pub import_translated: bool,
    /// How the lines are to be rewritten, empty for not at all.
    pub rewrite: &'a str,
    pub src_lang: &'a str,
    pub server_there: bool,
    pub model_there: bool,
}

/// What the stage does with a project.
pub open spec fn step_for(p: Project, q: Request) -> Step {
    if p.segments@.len() == 0 {
        Step::Nothing
    } else if q.import_translated {
        Step::Imported
    } else if !needs_translation(p) && q.rewrite@.len() == 0 {
        Step::Transcribe
    } else if same_language(q.src_lang@, p.tgt_lang@) && q.rewrite@.len() == 0 {
        Step::SameLanguage
    } else if !q.server_there {
        Step::NoServer
    } else if !q.model_there {
        Step::NoModel
    } else {
        Step::Translate
    }
}

/// What the stage does with a project.
pub fn plan(p: &Project, q: &Request) -> (r: Step)
    ensures
        r == step_for(*p, *q),
{
    if p.segments.len() == 0 {
        return Step::Nothing;
    }
    if q.import_translated {
        return Step::Imported;
    }
    let rewrite = !q.rewrite.is_empty();
    if !wants_translate(p) && !rewrite {
        return Step::Transcribe;
    }
    if is_same_language(q.src_lang, p.tgt_lang.as_str()) && !rewrite {
        return Step::SameLanguage;
    }
    if !q.server_there {
        Step::NoServer
    } else if !q.model_there {
        Step::NoModel
    } else {
        Step::Translate
    }
}

/// What is reported of the step; nothing is said where there is nothing to translate, or where the
/// translation only begins.
pub open spec fn report_of(s: Step, server: Seq<char>, model: Seq<char>) -> Option<Seq<char>> {
    match s {
        Step::Nothing => None,
        Step::Imported => Some("субтитры уже на языке перевода -> без MT (только озвучка)"@),
        Step::Transcribe => Some("transcribe: tgt=исходный текст, без перевода"@),
        Step::SameLanguage => Some("same-lang -> без MT (tgt=исходник)"@),
        Step::NoServer => Some("перевод пропущен: llama-server не найден ("@ + server + ")"@),
        Step::NoModel => Some("перевод пропущен: GGUF Gemma не найден ("@ + model + ")"@),
        Step::Translate => None,
    }
}

/// What is reported of the step.
pub fn report(s: Step, server: &str, model: &str) -> (r: Option<String>)
    ensures
        (match r {
            Some(t) => Some(t@),
            None => None,
        }) == report_of(s, server@, model@),
{
    match s {
        Step::Nothing | Step::Translate => None,
        Step::Imported => Some("субтитры уже на языке перевода -> без MT (только озвучка)".to_owned()),
        Step::Transcribe => Some("transcribe: tgt=исходный текст, без перевода".to_owned()),
        Step::SameLanguage => Some("same-lang -> без MT (tgt=исходник)".to_owned()),
        Step::NoServer => {
            let mut m = "перевод пропущен: llama-server не найден (".to_owned();
            m.append(server);
            m.append(")");
            Some(m)
        },
        Step::NoModel => {
            let mut m = "перевод пропущен: GGUF Gemma не найден (".to_owned();
            m.append(model);
            m.append(")");
            Some(m)
        },
    }
}

/// Every line's translation is the line itself; nothing else changes.
pub open spec fn copied(now: Seq<Segment>, was: Seq<Segment>) -> bool {
    now.len() == was.len() && forall|i: int|
        0 <= i < now.len() ==> #[trigger] now[i] == (Segment {
            tgt_text: now[i].tgt_text,
            ..was[i]
        }) && now[i].tgt_text@ == was[i].src_text@
}

/// Every line's translation becomes the line itself.
pub fn copy_src_to_tgt(segments: &mut Vec<Segment>)
    ensures
        copied(final(segments)@, old(segments)@),
{
    let ghost was = segments@;
    let n: usize = segments.len();
    for i in 0..n
        invariant
            n == was.len(),
            segments@.len() == n,
            copied(segments@.take(i as int), was.take(i as int)),
            forall|j: int| i <= j < n ==> #[trigger] segments@[j] == was[j],
    {
        let ghost before = segments@;
        let t = segments[i].src_text.clone();
        segments[i].tgt_text = t;
        assert(forall|j: int| 0 <= j < i ==> segments@[j] == before[j] && before.take(i as int)[j] == before[j]);
        assert(segments@.take(i + 1) =~= before.take(i as int).push(segments@[i as int]));
        assert(was.take(i + 1) =~= was.take(i as int).push(was[i as int]));
    }
    assert(segments@.take(n as int) =~= segments@);
    assert(was.take(n as int) =~= was);
}

/// Whether the kind of the film is to be found out from its pictures: that was left open, the casting
/// needs it and the part that sees is there.
pub fn classify_wanted(casting: bool, content_type: &str, eyes_there: bool) -> (r: bool)
    ensures
        r == (casting && content_type@ == "auto"@ && eyes_there),
{
    casting && text::same(content_type, "auto") && eyes_there
}

/// Whether the layout of the film's own captions is wanted: only where subtitles are drawn.
pub fn layout_wanted(p: &Project) -> (r: bool)
    ensures
        r == (p.subs.burn && p.subs.mode@ != "none"@),
{
    p.subs.burn && !text::same(p.subs.mode.as_str(), "none")
}

// ── Untranslated lines ──────────────────────────────────────────────────────

/// The place of the first hyphen or low line, or the length where there is none.
pub open spec fn tag_end(s: Seq<char>) -> int
    decreases s.len(),
{
    if s.len() == 0 || s[0] == '-' || s[0] == '_' {
        0
    } else {
        1 + tag_end(s.drop_first())
    }
}

proof fn lemma_tag_end(s: Seq<char>)
    ensures
        0 <= tag_end(s) <= s.len(),
    decreases s.len(),
{
    if s.len() > 0 && s[0] != '-' && s[0] != '_' {
        lemma_tag_end(s.drop_first());
    }
}

/// The language of a tag such as `pt-BR`, in small letters.
pub open spec fn base_language(lang: Seq<char>) -> Seq<char> {
    text::ascii_lower(lang.take(tag_end(lang)))
}

/// The languages that are not written in Latin letters.
pub open spec fn other_script(l: Seq<char>) -> bool {
    ||| l == "ru"@
    ||| l == "uk"@
    ||| l == "be"@
    ||| l == "bg"@
    ||| l == "sr"@
    ||| l == "mk"@
    ||| l == "kk"@
    ||| l == "ky"@
    ||| l == "tg"@
    ||| l == "mn"@
    ||| l == "ab"@
    ||| l == "os"@
    ||| l == "zh"@
    ||| l == "ja"@
    ||| l == "ko"@
    ||| l == "ar"@
    ||| l == "fa"@
    ||| l == "ur"@
    ||| l == "he"@
    ||| l == "ps"@
    ||| l == "sd"@
    ||| l == "el"@
    ||| l == "hy"@
    ||| l == "ka"@
    ||| l == "hi"@
    ||| l == "bn"@
    ||| l == "pa"@
    ||| l == "gu"@
    ||| l == "ta"@
    ||| l == "te"@
    ||| l == "kn"@
    ||| l == "ml"@
    ||| l == "th"@
    ||| l == "lo"@
    ||| l == "km"@
    ||| l == "my"@
    ||| l == "si"@
    ||| l == "am"@
}

/// The language of the dub is not written in Latin letters.
pub open spec fn expects_non_latin(lang: Seq<char>) -> bool {
    other_script(base_language(lang))
}

/// Whether the language of the dub is not written in Latin letters.
pub fn tgt_expects_non_latin(lang: &str) -> (r: bool)
    ensures
        r == expects_non_latin(lang@),
{
    let v = text::chars_of(lang);
    let mut n: usize = 0;
    assert(lang@.skip(0) =~= lang@);
    proof {
        lemma_tag_end(lang@);
    }
    while n < v.len() && v[n] != '-' && v[n] != '_'
        invariant
            v@ == lang@,
            n <= v@.len(),
            tag_end(lang@) == n + tag_end(lang@.skip(n as int)),
        decreases v@.len() - n,
    {
        assert(lang@.skip(n as int).drop_first() =~= lang@.skip(n + 1));
        n += 1;
    }
    let base = text::slice_text(&v, 0, n);
    assert(base@ =~= lang@.take(tag_end(lang@)));
    let low = text::lower_ascii(base.as_str());
    let l = low.as_str();
    text::same(l, "ru") ||
        text::same(l, "uk") ||
        text::same(l, "be") ||
        text::same(l, "bg") ||
        text::same(l, "sr") ||
        text::same(l, "mk") ||
        text::same(l, "kk") ||
        text::same(l, "ky") ||
        text::same(l, "tg") ||
        text::same(l, "mn") ||
        text::same(l, "ab") ||
        text::same(l, "os") ||
        text::same(l, "zh") ||
        text::same(l, "ja") ||
        text::same(l, "ko") ||
        text::same(l, "ar") ||
        text::same(l, "fa") ||
        text::same(l, "ur") ||
        text::same(l, "he") ||
        text::same(l, "ps") ||
        text::same(l, "sd") ||
        text::same(l, "el") ||
        text::same(l, "hy") ||
        text::same(l, "ka") ||
        text::same(l, "hi") ||
        text::same(l, "bn") ||
        text::same(l, "pa") ||
        text::same(l, "gu") ||
        text::same(l, "ta") ||
        text::same(l, "te") ||
        text::same(l, "kn") ||
        text::same(l, "ml") ||
        text::same(l, "th") ||
        text::same(l, "lo") ||
        text::same(l, "km") ||
        text::same(l, "my") ||
        text::same(l, "si") ||
        text::same(l, "am")
}

pub open spec fn letters(s: Seq<char>) -> nat
    decreases s.len(),
{
    if s.len() == 0 {
        0
    } else {
        letters(s.drop_last()) + if text::alphabetic(s.last()) {
            1nat
        } else {
            0nat
        }
    }
}

pub open spec fn latin_letters(s: Seq<char>) -> nat
    decreases s.len(),
{
    if s.len() == 0 {
        0
    } else {
        latin_letters(s.drop_last()) + if text::is_ascii_letter(s.last()) {
            1nat
        } else {
            0nat
        }
    }
}

/// The line looks as if it was not translated: it is empty, or the same as the line that was heard, or
/// mostly in Latin letters where the language has others.
pub open spec fn untranslated(src: Seq<char>, tgt: Seq<char>, tgt_lang: Seq<char>) -> bool {
    let t = text::trimmed(tgt);
    ||| t.len() == 0
    ||| text::ascii_lower(t) == text::ascii_lower(text::trimmed(src))
    ||| expects_non_latin(tgt_lang) && letters(t) > 0 && 2 * latin_letters(t) > letters(t)
}

/// Whether the line looks as if it was not translated.
pub fn looks_untranslated(src: &str, tgt: &str, tgt_lang: &str) -> (r: bool)
    ensures
        r == untranslated(src@, tgt@, tgt_lang@),
{
    let t = text::trim(tgt);
    if t.as_str().is_empty() {
        return true;
    }
    let s = text::trim(src);
    if text::same(
        text::lower_ascii(t.as_str()).as_str(),
        text::lower_ascii(s.as_str()).as_str(),
    ) {
        return true;
    }
    if !tgt_expects_non_latin(tgt_lang) {
        return false;
    }
    let v = text::chars_of(t.as_str());
    let mut all: usize = 0;
    let mut latin: usize = 0;
    assert(v@.take(0) =~= Seq::empty());
    for i in 0..v.len()
        invariant
            all == letters(v@.take(i as int)),
            latin == latin_letters(v@.take(i as int)),
            all <= i,
            latin <= i,
    {
        assert(v@.take(i + 1).drop_last() =~= v@.take(i as int));
        let c = v[i];
        if text::is_alphabetic(c) {
            all += 1;
        }
        if ('a' <= c && c <= 'z') || ('A' <= c && c <= 'Z') {
            latin += 1;
        }
    }
    assert(v@.take(v@.len() as int) =~= v@);
    all > 0 && latin as u128 * 2 > all as u128
}

/// A line and its translation.
#[derive(Clone, Debug)]
pub struct Line {
    pub text: String,
    pub tgt: String,
}

/// A line and its translation, as a value.
pub struct LineModel {
    pub text: Seq<char>,
    pub tgt: Seq<char>,
}

impl View for Line {
    type V = LineModel;

    open spec fn view(&self) -> LineModel {
        LineModel { text: self.text@, tgt: self.tgt@ }
    }
}

pub open spec fn line_views(v: Seq<Line>) -> Seq<LineModel> {
    v.map_values(|l: Line| l@)
}

/// A line with words that looks untranslated.
pub open spec fn bad(l: LineModel, tgt_lang: Seq<char>) -> bool {
    text::trimmed(l.text).len() > 0 && untranslated(l.text, l.tgt, tgt_lang)
}

/// The places of the lines that look untranslated.
pub open spec fn bad_places(lines: Seq<LineModel>, tgt_lang: Seq<char>) -> Seq<int>
    decreases lines.len(),
{
    if lines.len() == 0 {
        Seq::empty()
    } else if bad(lines.last(), tgt_lang) {
        bad_places(lines.drop_last(), tgt_lang).push(lines.len() - 1)
    } else {
        bad_places(lines.drop_last(), tgt_lang)
    }
}

pub open spec fn places(v: Seq<usize>) -> Seq<int> {
    v.map_values(|i: usize| i as int)
}

/// The places of the lines that look untranslated.
pub fn find_untranslated(lines: &Vec<Line>, tgt_lang: &str) -> (r: Vec<usize>)
    ensures
        places(r@) == bad_places(line_views(lines@), tgt_lang@),
        forall|k: int| 0 <= k < r@.len() ==> #[trigger] r@[k] < lines@.len(),
{
    let ghost all = line_views(lines@);
    let mut out: Vec<usize> = Vec::new();
    assert(all.take(0) =~= Seq::empty());
    assert(places(out@) =~= Seq::empty());
    for i in 0..lines.len()
        invariant
            all == line_views(lines@),
            places(out@) == bad_places(all.take(i as int), tgt_lang@),
            forall|k: int| 0 <= k < out@.len() ==> #[trigger] out@[k] < lines@.len(),
    {
        assert(all.take(i + 1).drop_last() =~= all.take(i as int));
        assert(all.take(i + 1).last() == lines@[i as int]@);
        let l = &lines[i];
        if !text::blank(l.text.as_str()) && looks_untranslated(
            l.text.as_str(),
            l.tgt.as_str(),
            tgt_lang,
        ) {
            let ghost was = places(out@);
            out.push(i);
            assert(places(out@) =~= was.push(i as int));
        }
    }
    assert(all.take(lines@.len() as int) =~= all);
    out
}

/// The line after a second try: the try where it is translated and the line was not, else as it was.
pub open spec fn bettered(l: LineModel, attempt: Seq<char>, tgt_lang: Seq<char>) -> LineModel {
    if untranslated(l.text, l.tgt, tgt_lang) && !untranslated(l.text, attempt, tgt_lang) {
        LineModel { tgt: attempt, ..l }
    } else {
        l
    }
}

/// The lines after a second try at those in the given places.
pub open spec fn after_pass(
    lines: Seq<LineModel>,
    at: Seq<int>,
    attempts: Seq<Seq<char>>,
    tgt_lang: Seq<char>,
) -> Seq<LineModel>
    decreases at.len(),
{
    if at.len() == 0 {
        lines
    } else {
        let before = after_pass(lines, at.drop_last(), attempts, tgt_lang);
        let i = at.last();
        before.update(i, bettered(before[i], attempts[at.len() - 1], tgt_lang))
    }
}

/// How many of the lines in the given places still look untranslated.
pub open spec fn left(lines: Seq<LineModel>, at: Seq<int>, tgt_lang: Seq<char>) -> nat
    decreases at.len(),
{
    if at.len() == 0 {
        0
    } else {
        let l = lines[at.last()];
        left(lines, at.drop_last(), tgt_lang) + if untranslated(l.text, l.tgt, tgt_lang) {
            1nat
        } else {
            0nat
        }
    }
}

proof fn lemma_pass_len(
    lines: Seq<LineModel>,
    at: Seq<int>,
    attempts: Seq<Seq<char>>,
    tgt_lang: Seq<char>,
)
    requires
        forall|k: int| 0 <= k < at.len() ==> 0 <= #[trigger] at[k] < lines.len(),
    ensures
        after_pass(lines, at, attempts, tgt_lang).len() == lines.len(),
        forall|i: int|
            0 <= i < lines.len() ==> (#[trigger] after_pass(lines, at, attempts, tgt_lang)[i]).text
                == lines[i].text,
    decreases at.len(),
{
    if at.len() > 0 {
        let t = at.drop_last();
        assert forall|k: int| 0 <= k < t.len() implies 0 <= #[trigger] t[k] < lines.len() by {
            assert(t[k] == at[k]);
        }
        lemma_pass_len(lines, t, attempts, tgt_lang);
        assert(0 <= at[at.len() - 1] < lines.len());
    }
}

/// Takes over what a second try has bettered. Says how many of those lines still look untranslated.
pub fn take_attempts(lines: &mut Vec<Line>, at: &Vec<usize>, attempts: &Vec<String>, tgt_lang: &str) -> (r:
    usize)
    requires
        at@.len() == attempts@.len(),
        forall|k: int| 0 <= k < at@.len() ==> #[trigger] at@[k] < old(lines)@.len(),
    ensures
        line_views(final(lines)@) == after_pass(
            line_views(old(lines)@),
            places(at@),
            text::views(attempts@),
            tgt_lang@,
        ),
        r == left(line_views(final(lines)@), places(at@), tgt_lang@),
{
    let ghost was = line_views(lines@);
    let ghost pl = places(at@);
    let ghost tries = text::views(attempts@);
    assert(pl.take(0) =~= Seq::empty());
    for k in 0..at.len()
        invariant
            pl == places(at@),
            tries == text::views(attempts@),
            at@.len() == attempts@.len(),
            lines@.len() == was.len(),
            forall|k: int| 0 <= k < at@.len() ==> #[trigger] at@[k] < lines@.len(),
            line_views(lines@) == after_pass(was, pl.take(k as int), tries, tgt_lang@),
    {
        assert(pl.take(k + 1).drop_last() =~= pl.take(k as int));
        let i: usize = at[k];
        assert(pl.take(k + 1).last() == i as int);
        let ghost now = line_views(lines@);
        assert(now[i as int] == lines@[i as int]@);
        if looks_untranslated(lines[i].text.as_str(), lines[i].tgt.as_str(), tgt_lang)
            && !looks_untranslated(lines[i].text.as_str(), attempts[k].as_str(), tgt_lang) {
            lines[i].tgt = attempts[k].clone();
        }
        assert(line_views(lines@) =~= now.update(
            i as int,
            bettered(now[i as int], tries[k as int], tgt_lang@),
        ));
    }
    assert(pl.take(pl.len() as int) =~= pl);
    let ghost done = line_views(lines@);
    let mut count: usize = 0;
    for k in 0..at.len()
        invariant
            pl == places(at@),
            done == line_views(lines@),
            forall|k: int| 0 <= k < at@.len() ==> #[trigger] at@[k] < lines@.len(),
            count <= k,
            count == left(done, pl.take(k as int), tgt_lang@),
    {
        assert(pl.take(k + 1).drop_last() =~= pl.take(k as int));
        let i: usize = at[k];
        assert(pl.take(k + 1).last() == i as int);
        assert(done[i as int] == lines@[i as int]@);
        if looks_untranslated(lines[i].text.as_str(), lines[i].tgt.as_str(), tgt_lang) {
            count += 1;
        }
    }
    count
}

/// How often the lines that look untranslated are tried again.
pub const PASSES: u32 = 2;

/// Whether to try again after `done` tries that left so many lines untranslated, the last of which
/// worked or failed.
pub fn try_again(done: u32, worked: bool, left: usize) -> (r: bool)
    ensures
        r == (worked && left > 0 && done < PASSES),
{
    worked && left > 0 && done < PASSES
}

/// The translations go to the project's lines, as far as both reach.
pub open spec fn carried(now: Seq<Segment>, was: Seq<Segment>, tgts: Seq<Seq<char>>) -> bool {
    now.len() == was.len() && forall|i: int|
        0 <= i < now.len() ==> #[trigger] now[i] == (Segment {
            tgt_text: now[i].tgt_text,
            ..was[i]
        }) && now[i].tgt_text@ == if i < tgts.len() {
            tgts[i]
        } else {
            was[i].tgt_text@
        }
}

/// The translations go to the project's lines. Says how many lines have one then.
pub fn carry_over(segments: &mut Vec<Segment>, lines: &Vec<Line>) -> (r: usize)
    ensures
        carried(
            final(segments)@,
            old(segments)@,
            lines@.map_values(|l: Line| l.tgt@),
        ),
        r == filled(final(segments)@),
{
    let ghost was = segments@;
    let ghost tgts = lines@.map_values(|l: Line| l.tgt@);
    let n: usize = segments.len();
    let mut count: usize = 0;
    assert(segments@.take(0) =~= Seq::empty());
    for i in 0..n
        invariant
            n == was.len(),
            segments@.len() == n,
            tgts == lines@.map_values(|l: Line| l.tgt@),
            count <= i,
            count == filled(segments@.take(i as int)),
            forall|j: int|
                0 <= j < i ==> #[trigger] segments@[j] == (Segment {
                    tgt_text: segments@[j].tgt_text,
                    ..was[j]
                }) && segments@[j].tgt_text@ == if j < tgts.len() {
                    tgts[j]
                } else {
                    was[j].tgt_text@
                },
            forall|j: int| i <= j < n ==> #[trigger] segments@[j] == was[j],
    {
        let ghost before = segments@;
        if i < lines.len() {
            segments[i].tgt_text = lines[i].tgt.clone();
        }
        assert(segments@.take(i + 1).drop_last() =~= before.take(i as int));
        if !segments[i].tgt_text.as_str().is_empty() {
            count += 1;
        }
    }
    assert(segments@.take(n as int) =~= segments@);
    count
}

/// How many lines have a translation.
pub open spec fn filled(segments: Seq<Segment>) -> nat
    decreases segments.len(),
{
    if segments.len() == 0 {
        0
    } else {
        filled(segments.drop_last()) + if segments.last().tgt_text@.len() > 0 {
            1nat
        } else {
            0nat
        }
    }
}

// ── What the pass says beside the lines ─────────────────────────────────────

/// What the pass found on the screen.
#[derive(Clone, Debug)]
pub struct Extra {
    /// The style of the subtitles can be read.
    pub has_style: bool,
    pub sub_y: Option<i64>,
    /// The places of the brands that can be read; nothing where none are listed.
    pub brands: Option<Vec<usize>>,
}

pub open spec fn object_at(d: Doc, k: Seq<char>) -> bool {
    d.get(k) matches Some(Doc::Object(_))
}

/// The places of the objects in a list.
pub open spec fn object_places(items: Seq<Doc>) -> Seq<int>
    decreases items.len(),
{
    if items.len() == 0 {
        Seq::empty()
    } else if items.last() is Object {
        object_places(items.drop_last()).push(items.len() - 1)
    } else {
        object_places(items.drop_last())
    }
}

/// What the pass found on the screen.
pub fn read_extra(extra: &Json) -> (r: Extra)
    ensures
        r.has_style == object_at(extra@, "sub_style"@),
        r.sub_y == extra@.whole_at("sub_y"@),
        (match r.brands {
            Some(v) => Some(places(v@)),
            None => None,
        }) == match media::list_at(extra@, "brands"@) {
            Some(items) => Some(object_places(items)),
            None => None,
        },
{
    let has_style = match extra.get("sub_style") {
        Some(Json::Object(_)) => true,
        _ => false,
    };
    let brands = match extra.get("brands") {
        Some(Json::List(items)) => {
            let ghost ds = media::docs(items@);
            assert(media::list_at(extra@, "brands"@)->0 =~= ds);
            let mut out: Vec<usize> = Vec::new();
            assert(ds.take(0) =~= Seq::empty());
            assert(places(out@) =~= Seq::empty());
            for i in 0..items.len()
                invariant
                    ds == media::docs(items@),
                    places(out@) == object_places(ds.take(i as int)),
            {
                assert(ds.take(i + 1).drop_last() =~= ds.take(i as int));
                assert(ds.take(i + 1).last() == items@[i as int]@);
                if let Json::Object(_) = &items[i] {
                    let ghost was = places(out@);
                    out.push(i);
                    assert(places(out@) =~= was.push(i as int));
                }
            }
            assert(ds.take(items@.len() as int) =~= ds);
            Some(out)
        },
        _ => None,
    };
    Extra { has_style, sub_y: extra.whole_at("sub_y"), brands }
}

// ── Laws ────────────────────────────────────────────────────────────────────

/// A second try never makes a line worse: a line that was translated is left as it is, and what takes
/// the place of one that was not is translated. The lines that were heard never change.
pub proof fn law_pass_only_betters(
    lines: Seq<LineModel>,
    at: Seq<int>,
    attempts: Seq<Seq<char>>,
    tgt_lang: Seq<char>,
    i: int,
)
    requires
        0 <= i < lines.len(),
        forall|k: int| 0 <= k < at.len() ==> 0 <= #[trigger] at[k] < lines.len(),
    ensures
        after_pass(lines, at, attempts, tgt_lang).len() == lines.len(),
        after_pass(lines, at, attempts, tgt_lang)[i].text == lines[i].text,
        after_pass(lines, at, attempts, tgt_lang)[i] == lines[i] || !untranslated(
            lines[i].text,
            after_pass(lines, at, attempts, tgt_lang)[i].tgt,
            tgt_lang,
        ),
        !untranslated(lines[i].text, lines[i].tgt, tgt_lang) ==> after_pass(
            lines,
            at,
            attempts,
            tgt_lang,
        )[i] == lines[i],
        !at.contains(i) ==> after_pass(lines, at, attempts, tgt_lang)[i] == lines[i],
    decreases at.len(),
{
    lemma_pass_len(lines, at, attempts, tgt_lang);
    if at.len() > 0 {
        let t = at.drop_last();
        assert forall|k: int| 0 <= k < t.len() implies 0 <= #[trigger] t[k] < lines.len() by {
            assert(t[k] == at[k]);
        }
        lemma_pass_len(lines, t, attempts, tgt_lang);
        law_pass_only_betters(lines, t, attempts, tgt_lang, i);
        assert(0 <= at[at.len() - 1] < lines.len());
        assert(at[at.len() - 1] == at.last());
        if t.contains(i) {
            let k = choose|k: int| 0 <= k < t.len() && t[k] == i;
            assert(at[k] == i);
        }
        if at.last() == i {
            assert(at.contains(i));
        }
    }
}

/// A line that stays as it was heard looks untranslated: the check is only for lines that were to be
/// translated.
pub proof fn law_copied_line_looks_untranslated(line: Seq<char>, tgt_lang: Seq<char>)
    ensures
        untranslated(line, line, tgt_lang),
{
}

/// When a project is translated. A project without lines is left alone, and lines that came translated stay.
/// Where nothing asks for another style, the lines are taken over as they were heard if nothing is dubbed,
/// spoken over or shown in translation, or if the film is known to be in the language of the dub. In every
/// other case they are translated if both the program and its model are there.
pub proof fn law_when_a_project_is_translated(p: Project, q: Request)
    ensures
        ({
            let step = step_for(p, q);
            let lines = p.segments@.len() > 0;
            let wanted = p.mode@ == "dub"@ || p.mode@ == "voiceover"@ || p.subs.mode@ == "translate"@;
            let src = text::lowercase(q.src_lang@);
            let same = q.src_lang@.len() > 0 && src != "auto"@ && src == text::lowercase(p.tgt_lang@);
            let styled = q.rewrite@.len() > 0;
            let due = lines && !q.import_translated && (styled || (wanted && !same));
            &&& step is Nothing <==> !lines
            &&& step is Imported <==> lines && q.import_translated
            &&& step is Transcribe <==> lines && !q.import_translated && !styled && !wanted
            &&& step is SameLanguage <==> lines && !q.import_translated && !styled && wanted && same
            &&& step is Translate <==> due && q.server_there && q.model_there
            &&& step is NoServer <==> due && !q.server_there
            &&& step is NoModel <==> due && q.server_there && !q.model_there
        }),
{
}

proof fn lemma_letters(s: Seq<char>, f: spec_fn(char) -> bool, g: spec_fn(char) -> bool)
    requires
        forall|c: char| #[trigger] f(c) <==> text::alphabetic(c),
        forall|c: char| #[trigger] g(c) <==> text::is_ascii_letter(c),
    ensures
        letters(s) == s.filter(f).len(),
        latin_letters(s) == s.filter(g).len(),
    decreases s.len(),
{
    reveal(Seq::filter);
    if s.len() > 0 {
        lemma_letters(s.drop_last(), f, g);
        assert(f(s.last()) <==> text::alphabetic(s.last()));
        assert(g(s.last()) <==> text::is_ascii_letter(s.last()));
    }
}

/// When a line looks untranslated: it says nothing, it says what was heard but for the case of its letters,
/// or more than half of its letters are Latin where the language of the dub has others.
pub proof fn law_when_a_line_looks_untranslated(src: Seq<char>, tgt: Seq<char>, lang: Seq<char>)
    ensures
        ({
            let t = text::trimmed(tgt);
            let all = t.filter(|c: char| text::alphabetic(c)).len();
            let latin = t.filter(
                |c: char| ('a' <= c && c <= 'z') || ('A' <= c && c <= 'Z'),
            ).len();
            untranslated(src, tgt, lang) <==> {
                ||| t.len() == 0
                ||| text::ascii_lower(t) == text::ascii_lower(text::trimmed(src))
                ||| expects_non_latin(lang) && all > 0 && latin + latin > all
            }
        }),
{
    lemma_letters(
        text::trimmed(tgt),
        |c: char| text::alphabetic(c),
        |c: char| ('a' <= c && c <= 'z') || ('A' <= c && c <= 'Z'),
    );
}

proof fn lemma_tag_ends_at(l: Seq<char>, rest: Seq<char>)
    requires
        forall|i: int| 0 <= i < l.len() ==> #[trigger] l[i] != '-' && l[i] != '_',
        rest.len() > 0 ==> rest[0] == '-' || rest[0] == '_',
    ensures
        tag_end(l + rest) == l.len(),
    decreases l.len(),
{
    let s = l + rest;
    if l.len() == 0 {
        assert(s =~= rest);
    } else {
        let r = l.drop_first();
        assert forall|i: int| 0 <= i < r.len() implies #[trigger] r[i] != '-' && r[i] != '_' by {
            assert(r[i] == l[i + 1]);
        }
        lemma_tag_ends_at(r, rest);
        assert(s[0] == l[0]);
        assert(s.drop_first() =~= r + rest);
    }
}

/// The script is that of the language: what a tag says behind a hyphen or a low line, and the case of its
/// letters, do not matter.
pub proof fn law_script_is_by_language(l: Seq<char>, rest: Seq<char>, other: Seq<char>)
    requires
        forall|i: int| 0 <= i < l.len() ==> #[trigger] l[i] != '-' && l[i] != '_',
        rest.len() > 0 ==> rest[0] == '-' || rest[0] == '_',
        text::ascii_lower(other) == text::ascii_lower(l),
    ensures
        expects_non_latin(l + rest) == expects_non_latin(l),
        expects_non_latin(other) == expects_non_latin(l),
{
    lemma_tag_ends_at(l, rest);
    lemma_tag_ends_at(l, Seq::empty());
    assert(l + Seq::<char>::empty() =~= l);
    assert((l + rest).take(l.len() as int) =~= l);
    assert(l.take(l.len() as int) =~= l);
    let a = text::ascii_lower(other);
    let b = text::ascii_lower(l);
    assert(other.len() == a.len() && l.len() == b.len());
    assert forall|i: int| 0 <= i < other.len() implies #[trigger] other[i] != '-' && other[i] != '_' by {
        assert(a[i] == text::ascii_lower_char(other[i]));
        assert(b[i] == text::ascii_lower_char(l[i]));
    }
    lemma_tag_ends_at(other, Seq::empty());
    assert(other + Seq::<char>::empty() =~= other);
    assert(other.take(other.len() as int) =~= other);
}

/// Exactly the lines that say something and look untranslated are tried again, in their order.
pub proof fn law_bad_lines_are_found(lines: Seq<LineModel>, lang: Seq<char>)
    ensures
        forall|k: int|
            0 <= k < bad_places(lines, lang).len() ==> 0 <= #[trigger] bad_places(lines, lang)[k]
                < lines.len(),
        forall|j: int, k: int|
            0 <= j < k < bad_places(lines, lang).len() ==> #[trigger] bad_places(lines, lang)[j]
                < #[trigger] bad_places(lines, lang)[k],
        forall|i: int|
            0 <= i < lines.len() ==> (#[trigger] bad_places(lines, lang).contains(i) <==> text::trimmed(
                lines[i].text,
            ).len() > 0 && untranslated(lines[i].text, lines[i].tgt, lang)),
    decreases lines.len(),
{
    if lines.len() > 0 {
        let prev = lines.drop_last();
        let n = prev.len() as int;
        law_bad_lines_are_found(prev, lang);
        let was = bad_places(prev, lang);
        let now = bad_places(lines, lang);
        assert(lines[n] == lines.last());
        assert forall|i: int| 0 <= i < lines.len() implies (#[trigger] now.contains(i) <==> text::trimmed(
            lines[i].text,
        ).len() > 0 && untranslated(lines[i].text, lines[i].tgt, lang)) by {
            if was.contains(i) {
                let k = choose|k: int| 0 <= k < was.len() && was[k] == i;
                assert(now[k] == i);
            }
            if now.contains(i) {
                let k = choose|k: int| 0 <= k < now.len() && now[k] == i;
                if k < was.len() {
                    assert(was[k] == i);
                    assert(was.contains(i));
                }
            }
            if i == n {
                if now.len() > was.len() {
                    assert(now[was.len() as int] == i);
                }
            } else {
                assert(prev[i] == lines[i]);
            }
        }
    }
}

/// A try that is translated takes the place of a line that was not: none is thrown away.
pub proof fn law_good_try_is_taken(
    lines: Seq<LineModel>,
    at: Seq<int>,
    attempts: Seq<Seq<char>>,
    lang: Seq<char>,
    k: int,
)
    requires
        0 <= k < at.len(),
        forall|j: int| 0 <= j < at.len() ==> 0 <= #[trigger] at[j] < lines.len(),
        forall|i: int, j: int| 0 <= i < j < at.len() ==> #[trigger] at[i] != #[trigger] at[j],
        untranslated(lines[at[k]].text, lines[at[k]].tgt, lang),
        !untranslated(lines[at[k]].text, attempts[k], lang),
    ensures
        after_pass(lines, at, attempts, lang)[at[k]].tgt == attempts[k],
    decreases at.len(),
{
    let t = at.drop_last();
    assert forall|j: int| 0 <= j < t.len() implies 0 <= #[trigger] t[j] < lines.len() by {
        assert(t[j] == at[j]);
    }
    assert forall|i: int, j: int| 0 <= i < j < t.len() implies #[trigger] t[i] != #[trigger] t[j] by {
        assert(t[i] == at[i] && t[j] == at[j]);
    }
    lemma_pass_len(lines, t, attempts, lang);
    if k < t.len() {
        law_good_try_is_taken(lines, t, attempts, lang, k);
        assert(t[k] == at[k]);
        assert(at[k] != at[at.len() - 1]);
    } else {
        if t.contains(at[k]) {
            let j = choose|j: int| 0 <= j < t.len() && t[j] == at[k];
            assert(at[j] != at[k]);
        }
        law_pass_only_betters(lines, t, attempts, lang, at[k]);
    }
}

/// How many lines are left is how many of those that were tried still look untranslated.
pub proof fn law_left_is_counted(lines: Seq<LineModel>, at: Seq<int>, lang: Seq<char>)
    ensures
        left(lines, at, lang) == at.filter(
            |i: int| untranslated(lines[i].text, lines[i].tgt, lang),
        ).len(),
    decreases at.len(),
{
    reveal(Seq::filter);
    if at.len() > 0 {
        law_left_is_counted(lines, at.drop_last(), lang);
    }
}

/// How many lines have a translation is counted line by line.
pub proof fn law_translated_lines_are_counted(segments: Seq<Segment>)
    ensures
        filled(segments) == segments.filter(|s: Segment| s.tgt_text@.len() > 0).len(),
    decreases segments.len(),
{
    reveal(Seq::filter);
    if segments.len() > 0 {
        law_translated_lines_are_counted(segments.drop_last());
    }
}

} // verus!
