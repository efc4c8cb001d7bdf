//! Edits of a project that need no engine.

use crate::json::Doc;
use crate::json::Json;
use crate::project::Project;
use crate::project::Segment;
use crate::text;
use vstd::prelude::*;

verus! {

/// How Rust's `Debug` writes a text: in quotes, with escapes.
pub uninterp spec fn quoted(s: Seq<char>) -> Seq<char>;

/// The `Debug` format of `str`. What it writes depends on the text alone; which characters it escapes
/// is only named here.
#[verifier::external_body]
fn quote(s: &str) -> (r: String)
    ensures
        r@ == quoted(s@),
{
    format!("{:?}", s)
}

/// What came of an edit: nothing to say, or a status and a message.
pub type PatchResult = Result<(), (u16, String)>;

/// The status and the message with which an edit is refused.
pub open spec fn refusal(r: PatchResult) -> Option<(u16, Seq<char>)> {
    match r {
        Ok(_) => None,
        Err(e) => Some((e.0, e.1@)),
    }
}

/// The index of the first line with the identifier `id`.
pub open spec fn line_index(segs: Seq<Segment>, id: Seq<char>) -> Option<int>
    decreases segs.len(),
{
    if segs.len() == 0 {
        None
    } else if segs[0].id@ == id {
        Some(0int)
    } else {
        match line_index(segs.drop_first(), id) {
            Some(i) => Some(i + 1),
            None => None,
        }
    }
}

proof fn lemma_line_index(segs: Seq<Segment>, id: Seq<char>)
    ensures
        match line_index(segs, id) {
            Some(i) => 0 <= i < segs.len() && segs[i].id@ == id && forall|j: int|
                0 <= j < i ==> (#[trigger] segs[j]).id@ != id,
            None => forall|j: int| 0 <= j < segs.len() ==> (#[trigger] segs[j]).id@ != id,
        },
    decreases segs.len(),
{
    if segs.len() > 0 && segs[0].id@ != id {
        lemma_line_index(segs.drop_first(), id);
        let rest = segs.drop_first();
        assert forall|j: int| 0 < j < segs.len() implies (#[trigger] segs[j]) == rest[j - 1] by {}
    }
}

fn find_line(segs: &Vec<Segment>, id: &str) -> (r: Option<usize>)
    ensures
        match r {
            Some(i) => i < segs@.len() && line_index(segs@, id@) == Some(i as int),
            None => line_index(segs@, id@) is None,
        },
{
    for i in 0..segs.len()
        invariant
            forall|j: int| 0 <= j < i ==> (#[trigger] segs@[j]).id@ != id@,
    {
        if text::same(segs[i].id.as_str(), id) {
            proof {
                lemma_line_index(segs@, id@);
            }
            return Some(i);
        }
    }
    proof {
        lemma_line_index(segs@, id@);
    }
    None
}

/// The text that stands after an edit which may set it.
pub open spec fn set_text(edit: Option<Seq<char>>, was: Seq<char>) -> Seq<char> {
    match edit {
        Some(t) => t,
        None => was,
    }
}

pub open spec fn set_bool(edit: Option<bool>, was: bool) -> bool {
    match edit {
        Some(b) => b,
        None => was,
    }
}

/// What an edit makes of a line: it takes over what the edit holds, keeps the rest, and has to be
/// spoken anew.
pub open spec fn line_edited(now: Segment, was: Segment, edit: Doc) -> bool {
    &&& now.id == was.id
    &&& now.start == was.start
    &&& now.end == was.end
    &&& now.speaker == was.speaker
    &&& now.tgt_text@ == set_text(edit.text_at("tgt_text"@), was.tgt_text@)
    &&& now.src_text@ == set_text(edit.text_at("src_text"@), was.src_text@)
    &&& match edit.text_at("voice"@) {
        Some(v) => now.voice is Some && now.voice->0@ == v,
        None => now.voice == was.voice,
    }
    &&& now.hidden == set_bool(edit.bool_at("hidden"@), was.hidden)
    &&& now.keep_original == set_bool(edit.bool_at("keep_original"@), was.keep_original)
    &&& now.dirty
}

/// Everything of a project but its lines.
pub open spec fn same_but_lines(a: Project, b: Project) -> bool {
    a.mode == b.mode && a.tgt_lang == b.tgt_lang && a.subs == b.subs && a.audio == b.audio
        && a.captions == b.captions
}

/// Why an edit of a line is refused, if it is.
pub open spec fn line_refusal(p: Project, edit: Doc) -> Option<(u16, Seq<char>)> {
    match edit.text_at("id"@) {
        None => Some((400u16, "missing segment id"@)),
        Some(id) => match line_index(p.segments@, id) {
            None => Some((404u16, "segment "@ + quoted(id) + " not found"@)),
            Some(_) => None,
        },
    }
}

/// The project after an edit of a line.
pub open spec fn line_patched(now: Project, was: Project, edit: Doc) -> bool {
    let i = line_index(was.segments@, edit.text_at("id"@)->0)->0;
    &&& same_but_lines(now, was)
    &&& now.segments@.len() == was.segments@.len()
    &&& forall|j: int|
        0 <= j < was.segments@.len() && j != i ==> #[trigger] now.segments@[j] == was.segments@[j]
    &&& line_edited(now.segments@[i], was.segments@[i], edit)
}

fn op_segment(p: &mut Project, edit: &Json) -> (r: PatchResult)
    ensures
        refusal(r) == line_refusal(*old(p), edit@),
        r is Err ==> *final(p) == *old(p),
        r is Ok ==> line_patched(*final(p), *old(p), edit@),
{
    let id: String = match edit.text_at("id") {
        Some(s) => s.clone(),
        None => {
            return Err((400, "missing segment id".to_owned()));
        },
    };
    let i: usize = match find_line(&p.segments, id.as_str()) {
        Some(i) => i,
        None => {
            let mut m = "segment ".to_owned();
            m.append(quote(id.as_str()).as_str());
            m.append(" not found");
            return Err((404, m));
        },
    };
    let mut seg = p.segments.remove(i);
    if let Some(t) = edit.text_at("tgt_text") {
        seg.tgt_text = t.clone();
    }
    if let Some(t) = edit.text_at("src_text") {
        seg.src_text = t.clone();
    }
    if let Some(v) = edit.text_at("voice") {
        seg.voice = Some(v.clone());
    }
    if let Some(h) = edit.bool_at("hidden") {
        seg.hidden = h;
    }
    if let Some(k) = edit.bool_at("keep_original") {
        seg.keep_original = k;
    }
    seg.dirty = true;
    p.segments.insert(i, seg);
    Ok(())
}

/// Why moving the subtitles is refused, if it is.
pub open spec fn place_refusal(edit: Doc) -> Option<(u16, Seq<char>)> {
    match edit.whole_at("sub_y"@) {
        None => Some((400u16, "bad subpos sub_y"@)),
        Some(_) => None,
    }
}

/// The project after the subtitles are moved.
pub open spec fn place_patched(now: Project, was: Project, edit: Doc) -> bool {
    &&& now.captions.sub_y == edit.whole_at("sub_y"@)
    &&& now.captions.sub_y_locked
    &&& now.captions.blur_boxes == was.captions.blur_boxes
    &&& now.captions.overrides == was.captions.overrides
    &&& now.mode == was.mode
    &&& now.tgt_lang == was.tgt_lang
    &&& now.segments == was.segments
    &&& now.subs == was.subs
    &&& now.audio == was.audio
}

fn op_subpos(p: &mut Project, edit: &Json) -> (r: PatchResult)
    ensures
        refusal(r) == place_refusal(edit@),
        r is Err ==> *final(p) == *old(p),
        r is Ok ==> place_patched(*final(p), *old(p), edit@),
{
    match edit.whole_at("sub_y") {
        Some(y) => {
            p.captions.sub_y = Some(y);
            p.captions.sub_y_locked = true;
            Ok(())
        },
        None => Err((400, "bad subpos sub_y".to_owned())),
    }
}

/// The text in a member, or nothing.
pub open spec fn text_or_empty(d: Option<Seq<char>>) -> Seq<char> {
    match d {
        Some(t) => t,
        None => Seq::empty(),
    }
}

pub open spec fn known_mode(value: Seq<char>) -> bool {
    value == "subtitles"@ || value == "dub"@ || value == "funny"@
}

/// Why a mode is refused, if it is.
pub open spec fn mode_refusal(edit: Doc) -> Option<(u16, Seq<char>)> {
    let value = text_or_empty(edit.text_at("value"@));
    if known_mode(value) {
        None
    } else {
        Some((400u16, "unknown mode "@ + quoted(value)))
    }
}

/// The request to rewrite that a mode leaves.
pub open spec fn rewrite_after(value: Seq<char>, was: Option<String>) -> Option<Seq<char>> {
    if value == "funny"@ {
        match was {
            Some(s) => Some(s@),
            None => Some("make it a funny, playful dub"@),
        }
    } else {
        None
    }
}

/// The line is as it was, but has to be spoken anew.
pub open spec fn line_dirtied(now: Segment, was: Segment) -> bool {
    now == (Segment { dirty: true, ..was })
}

/// The project after its mode is set.
pub open spec fn mode_patched(now: Project, was: Project, edit: Doc) -> bool {
    let value = text_or_empty(edit.text_at("value"@));
    &&& now.mode@ == (if value == "subtitles"@ {
        "nodub"@
    } else {
        "dub"@
    })
    &&& now.subs.mode@ == "translate"@
    &&& now.subs.burn == was.subs.burn
    &&& (match now.audio.rewrite {
        Some(s) => Some(s@),
        None => None,
    }) == rewrite_after(value, was.audio.rewrite)
    &&& now.audio.voice == was.audio.voice
    &&& now.audio.keep_music == was.audio.keep_music
    &&& now.audio.keep_original_track == was.audio.keep_original_track
    &&& now.audio.container == was.audio.container
    &&& now.audio.content_type == was.audio.content_type
    &&& now.tgt_lang == was.tgt_lang
    &&& now.captions == was.captions
    &&& now.segments@.len() == was.segments@.len()
    &&& forall|i: int|
        0 <= i < was.segments@.len() ==> line_dirtied(
            #[trigger] now.segments@[i],
            was.segments@[i],
        )
}

fn mark_all_dirty(segs: &mut Vec<Segment>)
    ensures
        final(segs)@.len() == old(segs)@.len(),
        forall|i: int|
            0 <= i < old(segs)@.len() ==> line_dirtied(#[trigger] final(segs)@[i], old(segs)@[i]),
{
    let n: usize = segs.len();
    for i in 0..n
        invariant
            n == old(segs)@.len(),
            segs@.len() == n,
            forall|j: int| 0 <= j < i ==> line_dirtied(#[trigger] segs@[j], old(segs)@[j]),
            forall|j: int| i <= j < n ==> #[trigger] segs@[j] == old(segs)@[j],
    {
        let mut s = segs.remove(i);
        s.dirty = true;
        segs.insert(i, s);
    }
}

fn op_mode(p: &mut Project, edit: &Json) -> (r: PatchResult)
    ensures
        refusal(r) == mode_refusal(edit@),
        r is Err ==> *final(p) == *old(p),
        r is Ok ==> mode_patched(*final(p), *old(p), edit@),
{
    let value: String = match edit.text_at("value") {
        Some(s) => s.clone(),
        None => String::new(),
    };
    proof {
        reveal_strlit("subtitles");
        reveal_strlit("dub");
        reveal_strlit("funny");
        assert("subtitles"@.len() == 9 && "dub"@.len() == 3 && "funny"@.len() == 5);
    }
    if text::same(value.as_str(), "subtitles") {
        p.mode = "nodub".to_owned();
        p.audio.rewrite = None;
    } else if text::same(value.as_str(), "dub") {
        p.mode = "dub".to_owned();
        p.audio.rewrite = None;
    } else if text::same(value.as_str(), "funny") {
        p.mode = "dub".to_owned();
        if p.audio.rewrite.is_none() {
            p.audio.rewrite = Some("make it a funny, playful dub".to_owned());
        }
    } else {
        let mut m = "unknown mode ".to_owned();
        m.append(quote(value.as_str()).as_str());
        return Err((400, m));
    }
    p.subs.mode = "translate".to_owned();
    mark_all_dirty(&mut p.segments);
    Ok(())
}

/// Why an edit is refused, if it is.
pub open spec fn patch_refusal(p: Project, edit: Doc) -> Option<(u16, Seq<char>)> {
    let op = text_or_empty(edit.text_at("op"@));
    if op == "segment"@ {
        line_refusal(p, edit)
    } else if op == "subpos"@ {
        place_refusal(edit)
    } else if op == "mode"@ {
        mode_refusal(edit)
    } else {
        Some((400u16, "unknown op "@ + quoted(op)))
    }
}

/// The project after an edit that is not refused.
pub open spec fn patched(now: Project, was: Project, edit: Doc) -> bool {
    let op = text_or_empty(edit.text_at("op"@));
    if op == "segment"@ {
        line_patched(now, was, edit)
    } else if op == "subpos"@ {
        place_patched(now, was, edit)
    } else {
        mode_patched(now, was, edit)
    }
}

/// Applies the edit that the member "op" names. A refused edit leaves the project as it was.
pub fn apply(p: &mut Project, edit: &Json) -> (r: PatchResult)
    ensures
        refusal(r) == patch_refusal(*old(p), edit@),
        r is Err ==> *final(p) == *old(p),
        r is Ok ==> patched(*final(p), *old(p), edit@),
{
    let op: String = match edit.text_at("op") {
        Some(s) => s.clone(),
        None => String::new(),
    };
    if text::same(op.as_str(), "segment") {
        op_segment(p, edit)
    } else if text::same(op.as_str(), "subpos") {
        op_subpos(p, edit)
    } else if text::same(op.as_str(), "mode") {
        op_mode(p, edit)
    } else {
        let mut m = "unknown op ".to_owned();
        m.append(quote(op.as_str()).as_str());
        Err((400, m))
    }
}

proof fn lemma_line_index_is(segs: Seq<Segment>, id: Seq<char>)
    ensures
        match line_index(segs, id) {
            Some(i) => 0 <= i < segs.len() && segs[i].id@ == id && forall|j: int|
                0 <= j < i ==> (#[trigger] segs[j]).id@ != id,
            None => forall|j: int| 0 <= j < segs.len() ==> (#[trigger] segs[j]).id@ != id,
        },
    decreases segs.len(),
{
    if segs.len() > 0 {
        let p = segs.drop_first();
        lemma_line_index_is(p, id);
        assert(forall|j: int| 0 <= j < p.len() ==> #[trigger] p[j] == segs[j + 1]);
        assert(forall|j: int| 0 < j < segs.len() ==> #[trigger] segs[j] == p[j - 1]);
    }
}

/// An edit of a line changes the first line of the name that it gives, and nothing else of the project: the texts,
/// the voice and the marks that the edit holds are taken over, its place in the film and its speaker stay, and it
/// is to be spoken anew.
pub proof fn law_edit_changes_its_line(now: Project, was: Project, edit: Doc, id: Seq<char>, k: int)
    requires
        edit.text_at("op"@) == Some("segment"@),
        edit.text_at("id"@) == Some(id),
        0 <= k < was.segments@.len(),
        was.segments@[k].id@ == id,
        forall|j: int| 0 <= j < k ==> (#[trigger] was.segments@[j]).id@ != id,
    ensures
        patch_refusal(was, edit) is None,
        patched(now, was, edit) ==> {
            let (a, b) = (was.segments@[k], now.segments@[k]);
            &&& now.segments@.len() == was.segments@.len()
            &&& forall|j: int|
                0 <= j < was.segments@.len() && j != k ==> #[trigger] now.segments@[j] == was.segments@[j]
            &&& b.tgt_text@ == edit.text_at("tgt_text"@).unwrap_or(a.tgt_text@)
            &&& b.src_text@ == edit.text_at("src_text"@).unwrap_or(a.src_text@)
            &&& b.hidden == edit.bool_at("hidden"@).unwrap_or(a.hidden)
            &&& b.keep_original == edit.bool_at("keep_original"@).unwrap_or(a.keep_original)
            &&& edit.text_at("voice"@) matches Some(v) ==> b.voice is Some && b.voice->0@ == v
            &&& edit.text_at("voice"@) is None ==> b.voice == a.voice
            &&& b.id == a.id && b.start == a.start && b.end == a.end && b.speaker == a.speaker
            &&& b.dirty
            &&& now.mode == was.mode && now.tgt_lang == was.tgt_lang && now.subs == was.subs && now.audio == was.audio
                && now.captions == was.captions
        },
{
    lemma_line_index_is(was.segments@, id);
    let i = line_index(was.segments@, id)->0;
    if i < k {
        assert(was.segments@[i].id@ != id);
    } else if i > k {
        assert(was.segments@[k].id@ != id);
    }
}

/// Moving the subtitles puts them where the edit says, for good, and changes nothing else.
pub proof fn law_subtitles_are_moved(now: Project, was: Project, edit: Doc, y: i64)
    requires
        edit.text_at("op"@) == Some("subpos"@),
        edit.whole_at("sub_y"@) == Some(y),
    ensures
        patch_refusal(was, edit) is None,
        patched(now, was, edit) ==> {
            &&& now.captions.sub_y == Some(y) && now.captions.sub_y_locked
            &&& now.captions.blur_boxes == was.captions.blur_boxes && now.captions.overrides == was.captions.overrides
            &&& now.segments == was.segments && now.mode == was.mode && now.tgt_lang == was.tgt_lang && now.subs
                == was.subs && now.audio == was.audio
        },
{
    reveal_strlit("segment");
    reveal_strlit("subpos");
    assert("segment"@.len() != "subpos"@.len());
}

/// Setting the mode: subtitles alone, a dub, or a funny one. The subtitles are translated in each, every line is to
/// be spoken anew, and only the funny one keeps, or gets, a request to rewrite.
pub proof fn law_mode_is_set(now: Project, was: Project, edit: Doc, value: Seq<char>)
    requires
        edit.text_at("op"@) == Some("mode"@),
        edit.text_at("value"@) == Some(value),
    ensures
        patch_refusal(was, edit) is None <==> value == "subtitles"@ || value == "dub"@ || value == "funny"@,
        patched(now, was, edit) ==> {
            &&& now.mode@ == (if value == "subtitles"@ {
                "nodub"@
            } else {
                "dub"@
            })
            &&& now.subs.mode@ == "translate"@ && now.subs.burn == was.subs.burn
            &&& value != "funny"@ ==> now.audio.rewrite is None
            &&& value == "funny"@ ==> now.audio.rewrite is Some && now.audio.rewrite->0@ == (match was.audio.rewrite {
                Some(s) => s@,
                None => "make it a funny, playful dub"@,
            })
            &&& now.segments@.len() == was.segments@.len()
            &&& forall|i: int|
                0 <= i < was.segments@.len() ==> #[trigger] now.segments@[i] == (Segment {
                    dirty: true,
                    ..was.segments@[i]
                })
            &&& now.captions == was.captions && now.tgt_lang == was.tgt_lang
            &&& now.audio.voice == was.audio.voice && now.audio.keep_music == was.audio.keep_music
            &&& now.audio.keep_original_track == was.audio.keep_original_track && now.audio.container
                == was.audio.container && now.audio.content_type == was.audio.content_type
        },
{
    reveal_strlit("segment");
    reveal_strlit("subpos");
    reveal_strlit("mode");
    assert("segment"@.len() != "mode"@.len() && "subpos"@.len() != "mode"@.len());
}

/// What is refused: an edit of a line without a name or with one that no line has, a move of the subtitles without a
/// whole number, a mode that is not known, and what is none of these edits.
pub proof fn law_what_is_refused(p: Project, edit: Doc)
    ensures
        ({
            let op = edit.text_at("op"@);
            let r = patch_refusal(p, edit);
            let line = op == Some("segment"@);
            let named = edit.text_at("id"@) matches Some(id) && exists|j: int|
                0 <= j < p.segments@.len() && (#[trigger] p.segments@[j]).id@ == id;
            &&& line && edit.text_at("id"@) is None ==> r == Some((400u16, "missing segment id"@))
            &&& line && edit.text_at("id"@) is Some ==> (r is None <==> named)
            &&& line && edit.text_at("id"@) is Some && !named ==> r is Some && (r->0).0 == 404
            &&& op == Some("subpos"@) && edit.whole_at("sub_y"@) is None ==> r == Some(
                (400u16, "bad subpos sub_y"@),
            )
            &&& !line && op != Some("subpos"@) && op != Some("mode"@) ==> r is Some && (r->0).0 == 400
        }),
{
    reveal_strlit("segment");
    reveal_strlit("subpos");
    reveal_strlit("mode");
    assert("segment"@.len() != "mode"@.len() && "subpos"@.len() != "mode"@.len() && "segment"@.len()
        != "subpos"@.len());
    if let Some(id) = edit.text_at("id"@) {
        lemma_line_index_is(p.segments@, id);
    }
    assert("segment"@.len() > 0 && "subpos"@.len() > 0 && "mode"@.len() > 0);
}

} // verus!
