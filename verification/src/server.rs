//! What the server does with a request: which names it takes, which files it answers with, which lines are
//! up to date.

use crate::analyze::AnalyzeArgs;
use crate::casting::avatar;
use crate::jobs;
use crate::order;
use crate::project;
use crate::project::Segment;
use crate::text;
use vstd::prelude::*;

verus! {

// ── Names ───────────────────────────────────────────────────────────────────

/// A name of a project: ASCII letters and digits.
pub open spec fn good_id(pid: Seq<char>) -> bool {
    pid.len() > 0 && forall|i: int|
        0 <= i < pid.len() ==> text::is_ascii_letter(#[trigger] pid[i]) || text::is_digit(pid[i])
}

/// Whether it can be the name of a project.
pub fn is_project_id(pid: &str) -> (r: bool)
    ensures
        r == good_id(pid@),
{
    let v = text::chars_of(pid);
    if v.len() == 0 {
        return false;
    }
    for i in 0..v.len()
        invariant
            v@ == pid@,
            forall|j: int|
                0 <= j < i ==> text::is_ascii_letter(#[trigger] v@[j]) || text::is_digit(v@[j]),
    {
        let c = v[i];
        if !(('a' <= c && c <= 'z') || ('A' <= c && c <= 'Z') || text::digit(c)) {
            assert(!(text::is_ascii_letter(pid@[i as int]) || text::is_digit(pid@[i as int])));
            return false;
        }
    }
    true
}

/// A new name of a project: random hexadecimal digits.
pub fn new_project_id() -> (r: String)
    ensures
        r@.len() == jobs::ID_LENGTH,
        jobs::all_hex(r@),
        good_id(r@),
{
    let r = jobs::new_job_id();
    assert forall|i: int| 0 <= i < r@.len() implies text::is_ascii_letter(#[trigger] r@[i])
        || text::is_digit(r@[i]) by {
        assert(jobs::is_hex(r@[i]));
    }
    r
}

pub open spec fn voice_char(c: char) -> bool {
    text::alphanumeric(c) || c == ' ' || c == '-' || c == '_'
}

pub open spec fn file_char(c: char) -> bool {
    text::alphanumeric(c) || c == '.' || c == '_' || c == '-'
}

/// The characters of a name of a voice.
pub open spec fn voice_chars(s: Seq<char>) -> Seq<char>
    decreases s.len(),
{
    if s.len() == 0 {
        Seq::empty()
    } else if voice_char(s.last()) {
        voice_chars(s.drop_last()).push(s.last())
    } else {
        voice_chars(s.drop_last())
    }
}

/// The characters of a name of a file.
pub open spec fn file_chars(s: Seq<char>) -> Seq<char>
    decreases s.len(),
{
    if s.len() == 0 {
        Seq::empty()
    } else if file_char(s.last()) {
        file_chars(s.drop_last()).push(s.last())
    } else {
        file_chars(s.drop_last())
    }
}

/// The longest name of a voice.
pub const VOICE_NAME_LENGTH: usize = 48;

/// The name of a voice: its letters, digits, spaces, hyphens and low lines, not too many of them.
pub open spec fn voice_name(s: Seq<char>) -> Seq<char> {
    let n = text::trimmed(text::head(voice_chars(s), VOICE_NAME_LENGTH as nat));
    if n.len() == 0 {
        "Мой голос"@
    } else {
        n
    }
}

/// The name of a voice: its letters, digits, spaces, hyphens and low lines, not too many of them.
pub fn sanitize_voice_name(s: &str) -> (r: String)
    ensures
        r@ == voice_name(s@),
{
    let v = text::chars_of(s);
    let mut out: Vec<char> = Vec::new();
    assert(v@.take(0) =~= Seq::empty());
    for i in 0..v.len()
        invariant
            out@ == voice_chars(v@.take(i as int)),
    {
        assert(v@.take(i + 1).drop_last() =~= v@.take(i as int));
        let c = v[i];
        if text::is_alphanumeric(c) || c == ' ' || c == '-' || c == '_' {
            out.push(c);
        }
    }
    assert(v@.take(v@.len() as int) =~= v@);
    let all = text::text_of(&out);
    let n = text::trim(text::first_chars(all.as_str(), VOICE_NAME_LENGTH).as_str());
    if n.as_str().is_empty() {
        "Мой голос".to_owned()
    } else {
        n
    }
}

/// The name of a file: its letters, digits, points, low lines and hyphens; `otherwise` where none is left.
pub fn safe_file_name(s: &str, otherwise: &str) -> (r: String)
    ensures
        r@ == if file_chars(s@).len() == 0 {
            otherwise@
        } else {
            file_chars(s@)
        },
{
    let v = text::chars_of(s);
    let mut out: Vec<char> = Vec::new();
    assert(v@.take(0) =~= Seq::empty());
    for i in 0..v.len()
        invariant
            out@ == file_chars(v@.take(i as int)),
    {
        assert(v@.take(i + 1).drop_last() =~= v@.take(i as int));
        let c = v[i];
        if text::is_alphanumeric(c) || c == '.' || c == '_' || c == '-' {
            out.push(c);
        }
    }
    assert(v@.take(v@.len() as int) =~= v@);
    if out.len() == 0 {
        otherwise.to_owned()
    } else {
        text::text_of(&out)
    }
}

/// The place of the last point of a name that has something before it.
pub open spec fn last_point(s: Seq<char>) -> Option<int>
    decreases s.len(),
{
    if s.len() <= 1 {
        None
    } else if s.last() == '.' {
        Some(s.len() - 1)
    } else {
        last_point(s.drop_last())
    }
}

/// A name of a file without its ending, and the ending.
pub open spec fn stem_and_ending(s: Seq<char>) -> (Seq<char>, Option<Seq<char>>) {
    match last_point(s) {
        Some(k) => (s.take(k), Some(s.skip(k + 1))),
        None => (s, None),
    }
}

/// A name of a file without its ending, and the ending.
pub fn split_name(s: &str) -> (r: (String, Option<String>))
    ensures
        (r.0@, match r.1 {
            Some(e) => Some(e@),
            None => None,
        }) == stem_and_ending(s@),
{
    let v = text::chars_of(s);
    let mut n: usize = v.len();
    assert(v@.take(n as int) =~= v@);
    while n > 1
        invariant
            v@ == s@,
            n <= v@.len(),
            last_point(s@) == last_point(v@.take(n as int)),
        decreases n,
    {
        assert(v@.take(n as int).last() == v@[n - 1]);
        if v[n - 1] == '.' {
            let stem = text::slice_text(&v, 0, n - 1);
            let ending = text::slice_text(&v, n, v.len());
            assert(stem@ =~= s@.take(n - 1));
            assert(ending@ =~= s@.skip(n as int));
            return (stem, Some(ending));
        }
        assert(v@.take(n as int).drop_last() =~= v@.take(n - 1));
        n -= 1;
    }
    (s.to_owned(), None)
}

/// The file is a voice.
pub open spec fn is_voice_file(name: Seq<char>) -> bool {
    match stem_and_ending(name).1 {
        Some(e) => text::lowercase(e) == "wav"@ || text::lowercase(e) == "mp3"@,
        None => false,
    }
}

/// The names of the voices among the files.
pub open spec fn voice_stems(names: Seq<Seq<char>>) -> Seq<Seq<char>>
    decreases names.len(),
{
    if names.len() == 0 {
        Seq::empty()
    } else if is_voice_file(names.last()) {
        voice_stems(names.drop_last()).push(stem_and_ending(names.last()).0)
    } else {
        voice_stems(names.drop_last())
    }
}

/// The names of the voices among the files, each once, in dictionary order.
pub fn list_voice_names(names: &Vec<String>) -> (r: Vec<String>)
    ensures
        order::sorted_set_of(text::views(r@), voice_stems(text::views(names@))),
{
    let ghost nv = text::views(names@);
    let mut out: Vec<String> = Vec::new();
    assert(nv.take(0) =~= Seq::empty());
    assert(text::views(out@) =~= Seq::empty());
    for i in 0..names.len()
        invariant
            nv == text::views(names@),
            text::views(out@) == voice_stems(nv.take(i as int)),
    {
        assert(nv.take(i + 1).drop_last() =~= nv.take(i as int));
        assert(nv.take(i + 1).last() == names@[i as int]@);
        let (stem, ending) = split_name(names[i].as_str());
        if let Some(e) = ending {
            let low = text::to_lower(e.as_str());
            if text::same(low.as_str(), "wav") || text::same(low.as_str(), "mp3") {
                let ghost was = text::views(out@);
                out.push(stem);
                assert(text::views(out@) =~= was.push(stem@));
            }
        }
    }
    assert(nv.take(nv.len() as int) =~= nv);
    order::sorted_set(out)
}

/// Under which name an uploaded film is kept.
pub fn source_name(uploaded: Option<&str>) -> (r: String)
    ensures
        r@ == "source."@ + match uploaded {
            Some(n) => match stem_and_ending(n@).1 {
                Some(e) => e,
                None => "mp4"@,
            },
            None => "mp4"@,
        },
{
    let ending = match uploaded {
        Some(n) => match split_name(n).1 {
            Some(e) => e,
            None => "mp4".to_owned(),
        },
        None => "mp4".to_owned(),
    };
    let mut r = "source.".to_owned();
    r.append(ending.as_str());
    r
}

/// The path of a request without the separators at its beginning.
pub open spec fn relative(p: Seq<char>) -> Seq<char>
    decreases p.len(),
{
    if p.len() > 0 && p[0] == '/' {
        relative(p.drop_first())
    } else {
        p
    }
}

/// The path of a request without the separators at its beginning.
pub fn relative_path(p: &str) -> (r: String)
    ensures
        r@ == relative(p@),
{
    let v = text::chars_of(p);
    let mut n: usize = 0;
    assert(v@.skip(0) =~= v@);
    while n < v.len() && v[n] == '/'
        invariant
            v@ == p@,
            n <= v@.len(),
            relative(p@) == relative(v@.skip(n as int)),
        decreases v@.len() - n,
    {
        assert(v@.skip(n as int).drop_first() =~= v@.skip(n + 1));
        n += 1;
    }
    let r = text::slice_text(&v, n, v.len());
    assert(r@ =~= v@.skip(n as int));
    r
}

// ── Places ──────────────────────────────────────────────────────────────────

/// What the environment says, else the place below the base.
pub fn setting_or(setting: Option<&str>, base: &str, below: &str) -> (r: String)
    ensures
        r@ == match setting {
            Some(s) => s@,
            None => base@ + "/"@ + below@,
        },
{
    match setting {
        Some(s) => s.to_owned(),
        None => {
            let mut p = base.to_owned();
            p.append("/");
            p.append(below);
            p
        },
    }
}

/// The directory is already searched.
pub open spec fn searched(path: Seq<char>, sep: char, dir: Seq<char>) -> bool {
    text::pieces(path, sep).contains(dir)
}

fn is_searched(path: &str, sep: char, dir: &str) -> (r: bool)
    ensures
        r == searched(path@, sep, dir@),
{
    let parts = text::split_at_each(path, sep);
    let ghost pv = text::pieces(path@, sep);
    for i in 0..parts.len()
        invariant
            text::views(parts@) == pv,
            pv == text::pieces(path@, sep),
            forall|j: int| 0 <= j < i ==> #[trigger] pv[j] != dir@,
    {
        assert(pv[i as int] == parts@[i as int]@);
        if text::same(parts[i].as_str(), dir) {
            assert(pv.contains(dir@));
            return true;
        }
    }
    false
}

/// What is searched first after the directories were added: each of them that is not searched yet.
pub open spec fn added(path: Seq<char>, sep: char, dirs: Seq<Seq<char>>) -> Seq<char>
    decreases dirs.len(),
{
    if dirs.len() == 0 {
        Seq::empty()
    } else {
        let before = added(path, sep, dirs.drop_last());
        let d = dirs.last();
        if d.len() == 0 || searched(path, sep, d) || searched(before, sep, d) {
            before
        } else if before.len() == 0 {
            d
        } else {
            before.push(sep) + d
        }
    }
}

/// The directories that programs are searched in, with the given ones in front; nothing where all of them
/// are there already.
pub fn augment_path(path: &str, sep: char, dirs: &Vec<String>) -> (r: Option<String>)
    ensures
        (match r {
            Some(p) => Some(p@),
            None => None,
        }) == ({
            let first = added(path@, sep, text::views(dirs@));
            if first.len() == 0 {
                None
            } else {
                Some(first.push(sep) + path@)
            }
        }),
{
    let ghost dv = text::views(dirs@);
    let mut first = String::new();
    assert(dv.take(0) =~= Seq::empty());
    for i in 0..dirs.len()
        invariant
            dv == text::views(dirs@),
            first@ == added(path@, sep, dv.take(i as int)),
    {
        assert(dv.take(i + 1).drop_last() =~= dv.take(i as int));
        assert(dv.take(i + 1).last() == dirs@[i as int]@);
        let d = dirs[i].as_str();
        if !(d.is_empty() || is_searched(path, sep, d) || is_searched(first.as_str(), sep, d)) {
            if first.as_str().is_empty() {
                first = d.to_owned();
            } else {
                first.push(sep);
                first.append(d);
            }
        }
    }
    assert(dv.take(dv.len() as int) =~= dv);
    if first.as_str().is_empty() {
        None
    } else {
        first.push(sep);
        first.append(path);
        Some(first)
    }
}

// ── Requests ────────────────────────────────────────────────────────────────

/// The value that a request gives for a name: the last one counts.
pub open spec fn given(q: Seq<(Seq<char>, Seq<char>)>, k: Seq<char>) -> Option<Seq<char>>
    decreases q.len(),
{
    if q.len() == 0 {
        None
    } else if q.last().0 == k {
        Some(q.last().1)
    } else {
        given(q.drop_last(), k)
    }
}

pub open spec fn pair_views(v: Seq<(String, String)>) -> Seq<(Seq<char>, Seq<char>)> {
    v.map_values(|p: (String, String)| (p.0@, p.1@))
}

pub open spec fn given_or(q: Seq<(Seq<char>, Seq<char>)>, k: Seq<char>, d: Seq<char>) -> Seq<char> {
    match given(q, k) {
        Some(v) => v,
        None => d,
    }
}

fn value_or(q: &Vec<(String, String)>, k: &str, d: &str) -> (r: String)
    ensures
        r@ == given_or(pair_views(q@), k@, d@),
{
    let ghost qv = pair_views(q@);
    let mut n: usize = q.len();
    assert(qv.take(n as int) =~= qv);
    while n > 0
        invariant
            n <= q@.len(),
            qv == pair_views(q@),
            given(qv, k@) == given(qv.take(n as int), k@),
        decreases n,
    {
        assert(qv.take(n as int).last() == (q@[n - 1].0@, q@[n - 1].1@));
        if text::same(q[n - 1].0.as_str(), k) {
            return q[n - 1].1.clone();
        }
        assert(qv.take(n as int).drop_last() =~= qv.take(n - 1));
        n -= 1;
    }
    d.to_owned()
}

/// What a request to analyze a film asks for; what it leaves open takes the usual value.
pub fn analyze_args(q: &Vec<(String, String)>) -> (r: AnalyzeArgs)
    ensures
        ({
            let g = pair_views(q@);
            &&& r.tgt_lang@ == given_or(g, "tgt_lang"@, "en"@)
            &&& r.mode@ == given_or(g, "mode"@, "auto"@)
            &&& r.src_lang@ == given_or(g, "src_lang"@, "auto"@)
            &&& r.subs@ == given_or(g, "subs"@, "auto"@)
            &&& r.rewrite@ == given_or(g, "rewrite"@, ""@)
            &&& r.burn == (given_or(g, "burn"@, "1"@) != "0"@)
        }),
{
    AnalyzeArgs {
        tgt_lang: value_or(q, "tgt_lang", "en"),
        mode: value_or(q, "mode", "auto"),
        src_lang: value_or(q, "src_lang", "auto"),
        subs: value_or(q, "subs", "auto"),
        rewrite: value_or(q, "rewrite", ""),
        burn: !text::same(value_or(q, "burn", "1").as_str(), "0"),
    }
}

/// What is played for a project.
#[derive(Clone, Copy, Debug, PartialEq, Eq, Structural)]
pub enum Play {
    /// The finished film.
    Output,
    /// The dub alone.
    DubAudio,
    /// The film as it was analyzed.
    Analyzed,
    /// The film that the project names as its source.
    NamedSource,
    /// The film that was uploaded.
    UploadedSource,
}

/// What there is of a project.
#[derive(Clone, Copy, Debug)]
pub struct Files {
    pub output: bool,
    pub dub_audio: bool,
    pub analyzed: bool,
    pub named_source: bool,
    pub uploaded_source: bool,
}

/// What is played for a project: the first of what there is.
pub open spec fn play_of(f: Files) -> Option<Play> {
    if f.output {
        Some(Play::Output)
    } else if f.dub_audio {
        Some(Play::DubAudio)
    } else if f.analyzed {
        Some(Play::Analyzed)
    } else if f.named_source {
        Some(Play::NamedSource)
    } else if f.uploaded_source {
        Some(Play::UploadedSource)
    } else {
        None
    }
}

/// What is played for a project; nothing where there is nothing.
pub fn playback(f: &Files) -> (r: Option<Play>)
    ensures
        r == play_of(*f),
{
    if f.output {
        Some(Play::Output)
    } else if f.dub_audio {
        Some(Play::DubAudio)
    } else if f.analyzed {
        Some(Play::Analyzed)
    } else if f.named_source {
        Some(Play::NamedSource)
    } else if f.uploaded_source {
        Some(Play::UploadedSource)
    } else {
        None
    }
}

/// The event is the last that a follower hears.
pub fn ends_stream(kind: Option<&str>) -> (r: bool)
    ensures
        r == (kind matches Some(k) && (k@ == "done"@ || k@ == "error"@)),
{
    match kind {
        Some(k) => text::same(k, "done") || text::same(k, "error"),
        None => false,
    }
}

// ── Lines ───────────────────────────────────────────────────────────────────

/// Whether the dub is to be spoken again: a line has changed since.
pub fn needs_regen(segs: &Vec<Segment>) -> (r: bool)
    ensures
        r == exists|i: int| 0 <= i < segs@.len() && (#[trigger] segs@[i]).dirty,
{
    for i in 0..segs.len()
        invariant
            forall|j: int| 0 <= j < i ==> !(#[trigger] segs@[j]).dirty,
    {
        if segs[i].dirty {
            return true;
        }
    }
    false
}

/// The text that a line was spoken with: that of the last line of the name.
pub open spec fn baked_text(baked: Seq<Segment>, id: Seq<char>) -> Option<Seq<char>>
    decreases baked.len(),
{
    if baked.len() == 0 {
        None
    } else if baked.last().id@ == id {
        Some(baked.last().tgt_text@)
    } else {
        baked_text(baked.drop_last(), id)
    }
}

/// The lines after those that were spoken as they stand are up to date; nothing else changes.
pub open spec fn cleared(now: Seq<Segment>, was: Seq<Segment>, baked: Seq<Segment>) -> bool {
    now.len() == was.len() && forall|i: int|
        0 <= i < now.len() ==> #[trigger] now[i] == (Segment {
            dirty: was[i].dirty && baked_text(baked, was[i].id@) != Some(was[i].tgt_text@),
            ..was[i]
        })
}

fn was_baked(baked: &Vec<Segment>, s: &Segment) -> (r: bool)
    ensures
        r == (baked_text(baked@, s.id@) == Some(s.tgt_text@)),
{
    let mut n: usize = baked.len();
    assert(baked@.take(n as int) =~= baked@);
    while n > 0
        invariant
            n <= baked@.len(),
            baked_text(baked@, s.id@) == baked_text(baked@.take(n as int), s.id@),
        decreases n,
    {
        assert(baked@.take(n as int).last() == baked@[n - 1]);
        if text::same(baked[n - 1].id.as_str(), s.id.as_str()) {
            return text::same(baked[n - 1].tgt_text.as_str(), s.tgt_text.as_str());
        }
        assert(baked@.take(n as int).drop_last() =~= baked@.take(n - 1));
        n -= 1;
    }
    false
}

/// Lines that were spoken as they stand are up to date; a line that was edited while the film was made is
/// not.
pub fn clear_baked(cur: &mut Vec<Segment>, baked: &Vec<Segment>)
    ensures
        cleared(final(cur)@, old(cur)@, baked@),
{
    let ghost was = cur@;
    let n: usize = cur.len();
    for i in 0..n
        invariant
            n == was.len(),
            cur@.len() == n,
            forall|j: int| i <= j < n ==> #[trigger] cur@[j] == was[j],
            forall|j: int|
                0 <= j < i ==> #[trigger] cur@[j] == (Segment {
                    dirty: was[j].dirty && baked_text(baked@, was[j].id@) != Some(was[j].tgt_text@),
                    ..was[j]
                }),
    {
        assert(cur@[i as int] == was[i as int]);
        if was_baked(baked, &cur[i]) {
            cur[i].dirty = false;
        }
    }
}

/// The longest sample that is cut from a speaker.
pub const VOICE_CUT: i64 = 12_000_000;

/// What is cut out to make a voice of a speaker.
#[derive(Clone, Debug)]
pub struct VoiceCut {
    pub start: i64,
    pub end: i64,
    /// What is said in it.
    pub text: String,
}

/// What is cut out to make a voice of a speaker: the beginning of the longest of their lines; nothing where
/// they have none.
pub fn voice_cut(segs: &Vec<Segment>, who: &str) -> (r: Option<VoiceCut>)
    requires
        project::all_timed(segs@),
    ensures
        match avatar::longest(segs@, who@) {
            None => r is None,
            Some(k) => {
                let s = segs@[k];
                &&& r is Some
                &&& r->0.start == s.start
                &&& r->0.end == if s.end < s.start + VOICE_CUT {
                    s.end as int
                } else {
                    s.start + VOICE_CUT
                }
                &&& r->0.text@ == text::trimmed(s.src_text@)
            },
        },
{
    match avatar::longest_line(segs, who) {
        None => None,
        Some(k) => {
            let s = &segs[k];
            assert(segs@[k as int].timed());
            let end: i64 = if s.end < s.start + VOICE_CUT {
                s.end
            } else {
                s.start + VOICE_CUT
            };
            Some(VoiceCut { start: s.start, end, text: text::trim(s.src_text.as_str()) })
        },
    }
}

// ── Laws ────────────────────────────────────────────────────────────────────

/// A name of a project leads nowhere else: it holds neither a separator nor a point.
pub proof fn law_project_id_stays(pid: Seq<char>)
    requires
        good_id(pid),
    ensures
        !pid.contains('/'),
        !pid.contains('\\'),
        !pid.contains('.'),
{
    assert forall|c: char| pid.contains(c) implies text::is_ascii_letter(c) || text::is_digit(c) by {
        let i = choose|i: int| 0 <= i < pid.len() && pid[i] == c;
        assert(text::is_ascii_letter(pid[i]) || text::is_digit(pid[i]));
    }
}

/// An edit is never lost: a line whose text is not the one that was spoken stays marked as changed.
pub proof fn law_edits_stay_marked(now: Seq<Segment>, was: Seq<Segment>, baked: Seq<Segment>, i: int)
    requires
        cleared(now, was, baked),
        0 <= i < was.len(),
        was[i].dirty,
        baked_text(baked, was[i].id@) != Some(was[i].tgt_text@),
    ensures
        now[i].dirty,
        now[i] == was[i],
{
    assert(now[i].dirty);
}

proof fn lemma_chars_are_filtered(s: Seq<char>)
    ensures
        voice_chars(s) == s.filter(|c: char| text::alphanumeric(c) || c == ' ' || c == '-' || c == '_'),
        file_chars(s) == s.filter(|c: char| text::alphanumeric(c) || c == '.' || c == '_' || c == '-'),
    decreases s.len(),
{
    reveal(Seq::filter);
    if s.len() > 0 {
        lemma_chars_are_filtered(s.drop_last());
    }
}

/// A voice is named by its letters, digits, spaces, hyphens and low lines, the first 48 of them, without spaces
/// around; and a file by its letters, digits, points, low lines and hyphens.
pub proof fn law_names_are_cleaned(s: Seq<char>)
    ensures
        file_chars(s) == s.filter(|c: char| text::alphanumeric(c) || c == '.' || c == '_' || c == '-'),
        ({
            let all = s.filter(|c: char| text::alphanumeric(c) || c == ' ' || c == '-' || c == '_');
            let n = text::trimmed(if all.len() <= 48 {
                all
            } else {
                all.take(48)
            });
            n.len() > 0 ==> voice_name(s) == n
        }),
        voice_name(s).len() > 0,
{
    lemma_chars_are_filtered(s);
    reveal_strlit("Мой голос");
}

/// A project is named by ASCII letters and digits, one at least.
pub proof fn law_which_names_are_projects(pid: Seq<char>)
    ensures
        good_id(pid) <==> pid.len() > 0 && forall|i: int|
            0 <= i < pid.len() ==> {
                let c = #[trigger] pid[i];
                ('a' <= c && c <= 'z') || ('A' <= c && c <= 'Z') || ('0' <= c && c <= '9')
            },
{
}

proof fn lemma_last_point_is(s: Seq<char>)
    ensures
        match last_point(s) {
            Some(k) => 0 < k < s.len() && s[k] == '.' && forall|j: int| k < j < s.len() ==> #[trigger] s[j] != '.',
            None => forall|j: int| 0 < j < s.len() ==> #[trigger] s[j] != '.',
        },
    decreases s.len(),
{
    if s.len() > 1 {
        lemma_last_point_is(s.drop_last());
        assert(forall|j: int| 0 <= j < s.len() - 1 ==> #[trigger] s.drop_last()[j] == s[j]);
        assert(forall|j: int| 0 <= j < s.len() - 1 ==> s.drop_last()[j] == #[trigger] s[j]);
    }
}

/// The ending of a file stands behind the last point of its name, if that is not the first character; a name without
/// one has no ending.
pub proof fn law_ending_stands_behind_the_last_point(stem: Seq<char>, ending: Seq<char>)
    requires
        stem.len() > 0,
        !ending.contains('.'),
    ensures
        stem_and_ending(stem + seq!['.'] + ending) == (stem, Some(ending)),
        stem_and_ending(ending) == (ending, None::<Seq<char>>),
        stem_and_ending(seq!['.'] + ending) == (seq!['.'] + ending, None::<Seq<char>>),
{
    let s = stem + seq!['.'] + ending;
    let k = stem.len() as int;
    lemma_last_point_is(s);
    assert(s[k] == '.');
    assert forall|j: int| k < j < s.len() implies #[trigger] s[j] != '.' by {
        assert(ending.contains(ending[j - k - 1]));
    }
    assert(s.take(k) =~= stem);
    assert(s.skip(k + 1) =~= ending);
    lemma_last_point_is(ending);
    if let Some(i) = last_point(ending) {
        assert(ending.contains(ending[i]));
    }
    let d = seq!['.'] + ending;
    lemma_last_point_is(d);
    if let Some(i) = last_point(d) {
        assert(d[i] == ending[i - 1]);
        assert(ending.contains(ending[i - 1]));
    }
}

/// The voices among the files are those that end in wav or mp3, in any case of letters, named without the ending and
/// in the files' order.
pub proof fn law_voices_are_found_among_files(names: Seq<Seq<char>>, n: Seq<char>)
    ensures
        voice_stems(Seq::empty()).len() == 0,
        ({
            let e = stem_and_ending(n).1;
            let voice = e is Some && (text::lowercase(e->0) == "wav"@ || text::lowercase(e->0) == "mp3"@);
            voice_stems(names.push(n)) == (if voice {
                voice_stems(names).push(stem_and_ending(n).0)
            } else {
                voice_stems(names)
            })
        }),
{
    assert(names.push(n).drop_last() =~= names);
}

/// Separators at the beginning of a request's path are passed over, and nothing else of it changes.
pub proof fn law_path_is_made_relative(p: Seq<char>)
    ensures
        relative(seq!['/'] + p) == relative(p),
        p.len() == 0 || p[0] != '/' ==> relative(p) == p,
{
    assert((seq!['/'] + p).drop_first() =~= p);
}

/// A directory is put behind those that were added before it, with the separator between them, unless it is empty or
/// searched already.
pub proof fn law_directories_are_added_once(path: Seq<char>, sep: char, dirs: Seq<Seq<char>>, d: Seq<char>)
    ensures
        added(path, sep, Seq::empty()).len() == 0,
        ({
            let before = added(path, sep, dirs);
            let now = added(path, sep, dirs.push(d));
            let there = text::pieces(path, sep).contains(d) || text::pieces(before, sep).contains(d);
            &&& d.len() == 0 || there ==> now == before
            &&& d.len() > 0 && !there && before.len() == 0 ==> now == d
            &&& d.len() > 0 && !there && before.len() > 0 ==> now == before + seq![sep] + d
        }),
{
    assert(dirs.push(d).drop_last() =~= dirs);
    let before = added(path, sep, dirs);
    assert(before.push(sep) + d =~= before + seq![sep] + d);
}

/// Of the values that a request gives for a name the last counts; another stands in only where there is none.
pub proof fn law_last_value_counts(
    q: Seq<(Seq<char>, Seq<char>)>,
    e: (Seq<char>, Seq<char>),
    k: Seq<char>,
    d: Seq<char>,
)
    ensures
        given_or(Seq::empty(), k, d) == d,
        e.0 == k ==> given_or(q.push(e), k, d) == e.1,
        e.0 != k ==> given_or(q.push(e), k, d) == given_or(q, k, d),
{
    assert(q.push(e).drop_last() =~= q);
}

/// What is played: the finished film before the sound of the dub, that before what was analyzed, that before the
/// source by its name, that before the one that was uploaded; and nothing only where there is none of them.
pub proof fn law_what_is_played(f: Files)
    ensures
        play_of(f) == Some(Play::Output) <==> f.output,
        play_of(f) == Some(Play::DubAudio) <==> f.dub_audio && !f.output,
        play_of(f) == Some(Play::Analyzed) <==> f.analyzed && !f.output && !f.dub_audio,
        play_of(f) == Some(Play::NamedSource) <==> f.named_source && !f.output && !f.dub_audio && !f.analyzed,
        play_of(f) == Some(Play::UploadedSource) <==> f.uploaded_source && !f.output && !f.dub_audio && !f.analyzed
            && !f.named_source,
        play_of(f) is None <==> !f.output && !f.dub_audio && !f.analyzed && !f.named_source && !f.uploaded_source,
{
}

/// A line is up to date once it was spoken as it stands, and a line that was changed since is not; of lines of one
/// name that were spoken the last counts. Nothing else of any line changes.
pub proof fn law_spoken_lines_are_up_to_date(
    now: Seq<Segment>,
    was: Seq<Segment>,
    baked: Seq<Segment>,
    i: int,
    k: int,
)
    requires
        cleared(now, was, baked),
        0 <= i < was.len(),
        0 <= k < baked.len(),
        baked[k].id@ == was[i].id@,
        forall|j: int| k < j < baked.len() ==> (#[trigger] baked[j]).id@ != was[i].id@,
    ensures
        now.len() == was.len(),
        now[i] == (Segment { dirty: now[i].dirty, ..was[i] }),
        baked[k].tgt_text@ == was[i].tgt_text@ ==> !now[i].dirty,
        baked[k].tgt_text@ != was[i].tgt_text@ ==> now[i].dirty == was[i].dirty,
{
    lemma_baked_text_is(baked, was[i].id@, k);
    assert(now[i] == now[i]);
}

proof fn lemma_baked_text_is(baked: Seq<Segment>, id: Seq<char>, k: int)
    requires
        0 <= k < baked.len(),
        baked[k].id@ == id,
        forall|j: int| k < j < baked.len() ==> (#[trigger] baked[j]).id@ != id,
    ensures
        baked_text(baked, id) == Some(baked[k].tgt_text@),
    decreases baked.len(),
{
    if k < baked.len() - 1 {
        assert(baked[baked.len() - 1] == baked.last());
        lemma_baked_text_is(baked.drop_last(), id, k);
    }
}

/// A line that was never spoken stays as it is.
pub proof fn law_unspoken_line_stays(now: Seq<Segment>, was: Seq<Segment>, baked: Seq<Segment>, i: int)
    requires
        cleared(now, was, baked),
        0 <= i < was.len(),
        forall|j: int| 0 <= j < baked.len() ==> (#[trigger] baked[j]).id@ != was[i].id@,
    ensures
        now[i] == was[i],
{
    lemma_no_baked_text(baked, was[i].id@);
    assert(now[i] == now[i]);
}

proof fn lemma_no_baked_text(baked: Seq<Segment>, id: Seq<char>)
    requires
        forall|j: int| 0 <= j < baked.len() ==> (#[trigger] baked[j]).id@ != id,
    ensures
        baked_text(baked, id) is None,
    decreases baked.len(),
{
    if baked.len() > 0 {
        assert(baked[baked.len() - 1] == baked.last());
        assert(forall|j: int| 0 <= j < baked.len() - 1 ==> #[trigger] baked.drop_last()[j] == baked[j]);
        lemma_no_baked_text(baked.drop_last(), id);
    }
}

} // verus!
