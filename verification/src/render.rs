//! From a translated project to a file: what is made of sound and picture, and under which name it is
//! kept.

use crate::captions;
use crate::media;
use crate::project::Project;
use crate::text;
use vstd::prelude::*;

verus! {

/// What `str::to_uppercase` makes of a text.
pub uninterp spec fn uppercase(s: Seq<char>) -> Seq<char>;

/// `str::to_uppercase`. Its result depends on the text alone; a text of ASCII characters is mapped
/// character by character, the rest is Unicode's table and only named here.
#[verifier::external_body]
fn to_upper(s: &str) -> (r: String)
    ensures
        r@ == uppercase(s@),
        text::all_ascii(s@) ==> r@ == ascii_upper(s@),
{
    s.to_uppercase()
}

pub open spec fn ascii_upper(s: Seq<char>) -> Seq<char> {
    s.map_values(
        |c: char|
            if 'a' <= c && c <= 'z' {
                (c as u32 - 32) as char
            } else {
                c
            },
    )
}

/// A finished rendering.
#[derive(Clone, Debug)]
pub struct RenderResult {
    pub output: String,
}

/// Where the project says something, that; else what the file says.
pub fn known(project: i64, file: i64) -> (r: i64)
    ensures
        r == (if project > 0 {
            project
        } else {
            file
        }),
{
    if project > 0 {
        project
    } else {
        file
    }
}

/// What is made of the sound.
#[derive(Clone, Copy, Debug, PartialEq, Eq, Structural)]
pub enum SoundPlan {
    /// The translation is spoken in place of the original.
    Dub,
    /// The translation is spoken over the original.
    Voiceover,
    /// The original stays.
    Original,
}

pub open spec fn sound_of(mode: Seq<char>) -> SoundPlan {
    if mode == "voiceover"@ {
        SoundPlan::Voiceover
    } else if mode == "dub"@ {
        SoundPlan::Dub
    } else {
        SoundPlan::Original
    }
}

/// What is made of the sound in the mode.
pub fn sound_plan(mode: &str) -> (r: SoundPlan)
    ensures
        r == sound_of(mode@),
{
    if text::same(mode, "voiceover") {
        SoundPlan::Voiceover
    } else if text::same(mode, "dub") {
        SoundPlan::Dub
    } else {
        SoundPlan::Original
    }
}

/// The kind of file that is made.
#[derive(Clone, Copy, Debug, PartialEq, Eq, Structural)]
pub enum Container {
    Wav,
    Mp4,
    Mkv,
}

/// What a rendering does.
#[derive(Clone, Copy, Debug, PartialEq, Eq, Structural)]
pub struct RenderPlan {
    pub sound: SoundPlan,
    /// There is no picture: only the sound is written.
    pub sound_only: bool,
    /// Something is drawn over the picture.
    pub draws: bool,
    /// The original sound is kept as a second track.
    pub two_tracks: bool,
    /// The kind of file that two tracks go to.
    pub container: Container,
}

pub open spec fn draws_over(p: Project, titles: int) -> bool {
    p.subs.burn && (p.subs.mode@ != "none"@ || titles > 0 || captions::blurred_of(
        p.captions.blur_boxes@,
        p.subs.mode@ == "none"@,
        p.captions.blur_boxes@.len() as int,
    ).len() > 0)
}

/// What a rendering of the project does, for a frame of `vw` by `vh`.
pub open spec fn plan_of(p: Project, vw: i64, vh: i64, titles: int, has_audio: bool) -> RenderPlan {
    let sound = sound_of(p.mode@);
    let sound_only = vw <= 0 || vh <= 0;
    let two = !sound_only && sound != SoundPlan::Original && p.audio.keep_original_track
        && has_audio;
    RenderPlan {
        sound,
        sound_only,
        draws: !sound_only && draws_over(p, titles),
        two_tracks: two,
        container: if sound_only {
            Container::Wav
        } else if two && p.audio.container@ == "mkv"@ {
            Container::Mkv
        } else {
            Container::Mp4
        },
    }
}

/// What a rendering of the project does, for a frame of `vw` by `vh`, with `titles` titles and a
/// source that has sound or has none.
pub fn render_plan(p: &Project, vw: i64, vh: i64, titles: usize, has_audio: bool) -> (r: RenderPlan)
    ensures
        r == plan_of(*p, vw, vh, titles as int, has_audio),
{
    let sound = sound_plan(p.mode.as_str());
    let sound_only = vw <= 0 || vh <= 0;
    let two = !sound_only && sound != SoundPlan::Original && p.audio.keep_original_track
        && has_audio;
    let container = if sound_only {
        Container::Wav
    } else if two && text::same(p.audio.container.as_str(), "mkv") {
        Container::Mkv
    } else {
        Container::Mp4
    };
    RenderPlan {
        sound,
        sound_only,
        draws: !sound_only && captions::draws(p, titles),
        two_tracks: two,
        container,
    }
}

/// How picture and sound come together in one track.
#[derive(Clone, Copy, Debug, PartialEq, Eq, Structural)]
pub enum SingleTrack {
    /// The new sound replaces the old one.
    Replace,
    /// The old sound is copied as it is.
    Copy,
}

/// What is left to do once two tracks were tried, if they were.
#[derive(Clone, Copy, Debug, PartialEq, Eq, Structural)]
pub struct Finish {
    /// One track is written now.
    pub single: Option<SingleTrack>,
    /// The kind of the file that is the result.
    pub result: Container,
    /// A file that plays everywhere is made beside it; where that fails, an old one is removed.
    pub companion: bool,
    /// An old file of the other kind is removed.
    pub drop_mkv: bool,
    pub drop_mp4: bool,
}

/// What is left to do: two tracks that failed, or were not wanted, leave one to be written.
pub open spec fn finish_of(plan: RenderPlan, two_done: bool) -> Finish {
    if plan.sound_only {
        Finish {
            single: None,
            result: Container::Wav,
            companion: false,
            drop_mkv: true,
            drop_mp4: true,
        }
    } else {
        let done = plan.two_tracks && two_done;
        let mkv = done && plan.container == Container::Mkv;
        Finish {
            single: if done {
                None
            } else if plan.sound == SoundPlan::Original {
                Some(SingleTrack::Copy)
            } else {
                Some(SingleTrack::Replace)
            },
            result: if mkv {
                Container::Mkv
            } else {
                Container::Mp4
            },
            companion: mkv,
            drop_mkv: !mkv,
            drop_mp4: false,
        }
    }
}

/// What is left to do once two tracks were tried (`two_done` if they were written).
pub fn finish(plan: &RenderPlan, two_done: bool) -> (r: Finish)
    ensures
        r == finish_of(*plan, two_done),
{
    if plan.sound_only {
        return Finish {
            single: None,
            result: Container::Wav,
            companion: false,
            drop_mkv: true,
            drop_mp4: true,
        };
    }
    let done = plan.two_tracks && two_done;
    let mkv = done && plan.container == Container::Mkv;
    let single = if done {
        None
    } else if plan.sound == SoundPlan::Original {
        Some(SingleTrack::Copy)
    } else {
        Some(SingleTrack::Replace)
    };
    Finish {
        single,
        result: if mkv {
            Container::Mkv
        } else {
            Container::Mp4
        },
        companion: mkv,
        drop_mkv: !mkv,
        drop_mp4: false,
    }
}

/// The name that `table` gives to the language `lc`.
pub open spec fn language_named(table: Seq<(Seq<char>, Seq<char>)>, lc: Seq<char>) -> Option<
    Seq<char>,
> {
    crate::dub::voices::assigned(table, lc)
}

/// The name by which a track of the language `code` is shown: that of the table, the code in capitals
/// where the table does not have it, and that of the original where there is no code.
pub open spec fn display_of(table: Seq<(Seq<char>, Seq<char>)>, code: Seq<char>) -> Seq<char> {
    let lc = text::lowercase(text::trimmed(code));
    match language_named(table, lc) {
        Some(n) => n,
        None => if lc.len() == 0 {
            "Original"@
        } else {
            uppercase(code)
        },
    }
}

/// The name by which a track of the language `code` is shown. `table` names the languages that are
/// known.
pub fn lang_display(table: &Vec<(String, String)>, code: &str) -> (r: String)
    ensures
        r@ == display_of(crate::dub::voices::pair_views(table@), code@),
{
    let lc = text::to_lower(text::trim(code).as_str());
    match crate::dub::voices::find_assigned(table, lc.as_str()) {
        Some(n) => n,
        None => {
            if lc.as_str().is_empty() {
                "Original".to_owned()
            } else {
                to_upper(code)
            }
        },
    }
}

/// What the two tracks of a file are called.
#[derive(Clone, Debug)]
pub struct TrackNames {
    pub dub_lang: &'static str,
    pub original_lang: &'static str,
    pub dub_title: String,
    pub original_title: String,
}

/// What the two tracks of a file are called.
pub fn track_names(table: &Vec<(String, String)>, tgt_lang: &str, src_lang: &str) -> (r: TrackNames)
    ensures
        r.dub_lang@ == media::code_of(text::lowercase(text::trimmed(tgt_lang@))),
        r.original_lang@ == media::code_of(text::lowercase(text::trimmed(src_lang@))),
        r.dub_title@ == display_of(crate::dub::voices::pair_views(table@), tgt_lang@) + " (dub)"@,
        r.original_title@ == display_of(crate::dub::voices::pair_views(table@), src_lang@)
            + " (original)"@,
{
    let mut dub_title = lang_display(table, tgt_lang);
    dub_title.append(" (dub)");
    let mut original_title = lang_display(table, src_lang);
    original_title.append(" (original)");
    TrackNames {
        dub_lang: media::iso639_1_to_2(tgt_lang),
        original_lang: media::iso639_1_to_2(src_lang),
        dub_title,
        original_title,
    }
}

// ── Laws ────────────────────────────────────────────────────────────────────

/// Two tracks that could not be written never leave the film without sound: one track is written in
/// their place, and the result is the kind of file that it goes to.
pub proof fn law_failed_tracks_fall_back(p: Project, vw: i64, vh: i64, titles: int, has_audio: bool)
    requires
        vw > 0,
        vh > 0,
    ensures
        finish_of(plan_of(p, vw, vh, titles, has_audio), false).single is Some,
        finish_of(plan_of(p, vw, vh, titles, has_audio), false).result == Container::Mp4,
{
}

/// Where the sound is not touched, it is copied as it is.
pub proof fn law_untouched_sound_is_copied(
    p: Project,
    vw: i64,
    vh: i64,
    titles: int,
    has_audio: bool,
    two_done: bool,
)
    requires
        vw > 0,
        vh > 0,
        p.mode@ != "dub"@,
        p.mode@ != "voiceover"@,
    ensures
        finish_of(plan_of(p, vw, vh, titles, has_audio), two_done).single == Some(
            SingleTrack::Copy,
        ),
{
}

/// A file that plays everywhere is there in any case: the result is one, or one is made beside it.
pub proof fn law_a_playable_file_is_made(plan: RenderPlan, two_done: bool)
    requires
        !plan.sound_only,
    ensures
        finish_of(plan, two_done).result == Container::Mp4 || finish_of(plan, two_done).companion,
{
}

/// What a rendering makes of a project. A film without a picture gives a file of sound. The dub replaces the
/// sound, a voice over is laid on it, and any other mode keeps it. Something is drawn only where that is wanted
/// and there are subtitles, titles or blurred areas. Both tracks are written only where the sound changes, the
/// original is to be kept and the film has any; they go to the file that was asked for, and all else to one that
/// plays everywhere.
pub proof fn law_what_is_rendered(p: Project, vw: i64, vh: i64, titles: int, has_audio: bool)
    ensures
        ({
            let plan = plan_of(p, vw, vh, titles, has_audio);
            let seen = vw > 0 && vh > 0;
            let changed = p.mode@ == "dub"@ || p.mode@ == "voiceover"@;
            &&& plan.sound_only == !seen
            &&& p.mode@ == "dub"@ ==> plan.sound == SoundPlan::Dub
            &&& p.mode@ == "voiceover"@ ==> plan.sound == SoundPlan::Voiceover
            &&& !changed ==> plan.sound == SoundPlan::Original
            &&& plan.two_tracks == (seen && changed && p.audio.keep_original_track && has_audio)
            &&& plan.draws ==> seen && p.subs.burn
            &&& seen && p.subs.burn && p.subs.mode@ != "none"@ ==> plan.draws
            &&& seen && p.subs.burn && titles > 0 ==> plan.draws
            &&& !seen ==> plan.container == Container::Wav
            &&& seen ==> plan.container == (if plan.two_tracks && p.audio.container@ == "mkv"@ {
                Container::Mkv
            } else {
                Container::Mp4
            })
        }),
{
    reveal_strlit("dub");
    reveal_strlit("voiceover");
    assert("dub"@.len() != "voiceover"@.len());
}

/// What is left to do once two tracks were written or not. Where they were, nothing more is; a file that not
/// every player opens gets one beside it that does, and no other file of an earlier rendering stays.
pub proof fn law_how_a_rendering_ends(plan: RenderPlan, two_done: bool)
    requires
        plan.two_tracks ==> !plan.sound_only,
    ensures
        ({
            let f = finish_of(plan, two_done);
            let both = plan.two_tracks && two_done;
            &&& f.single is None <==> plan.sound_only || both
            &&& f.single == Some(SingleTrack::Copy) <==> !plan.sound_only && !both && plan.sound
                == SoundPlan::Original
            &&& plan.sound_only ==> f.result == Container::Wav && f.drop_mkv && f.drop_mp4 && !f.companion
            &&& !plan.sound_only && both && plan.container == Container::Mkv ==> f.result == Container::Mkv
                && f.companion && !f.drop_mkv && !f.drop_mp4
            &&& !plan.sound_only && !(both && plan.container == Container::Mkv) ==> f.result == Container::Mp4
                && !f.companion && f.drop_mkv && !f.drop_mp4
        }),
{
}

/// A track is shown by the name that the table gives to its language, in small letters and without white space
/// around it; the first entry counts. Where there is none it is shown by its code in capitals, and without a
/// code as the original.
pub proof fn law_tracks_are_named(table: Seq<(Seq<char>, Seq<char>)>, i: int, code: Seq<char>)
    requires
        0 <= i < table.len(),
    ensures
        ({
            let lc = text::lowercase(text::trimmed(code));
            &&& table[i].0 == lc && (forall|j: int| 0 <= j < i ==> (#[trigger] table[j]).0 != lc) ==> display_of(
                table,
                code,
            ) == table[i].1
            &&& (forall|j: int| 0 <= j < table.len() ==> (#[trigger] table[j]).0 != lc) ==> display_of(table, code)
                == (if lc.len() == 0 {
                "Original"@
            } else {
                uppercase(code)
            })
        }),
{
    let lc = text::lowercase(text::trimmed(code));
    lemma_first_named(table, lc);
}

proof fn lemma_first_named(table: Seq<(Seq<char>, Seq<char>)>, lc: Seq<char>)
    ensures
        match language_named(table, lc) {
            Some(n) => exists|i: int|
                0 <= i < table.len() && (#[trigger] table[i]).0 == lc && table[i].1 == n && forall|j: int|
                    0 <= j < i ==> (#[trigger] table[j]).0 != lc,
            None => forall|j: int| 0 <= j < table.len() ==> (#[trigger] table[j]).0 != lc,
        },
    decreases table.len(),
{
    if table.len() > 0 {
        let p = table.drop_first();
        lemma_first_named(p, lc);
        assert(forall|j: int| 0 <= j < p.len() ==> #[trigger] p[j] == table[j + 1]);
        assert(forall|j: int| 0 < j < table.len() ==> #[trigger] table[j] == p[j - 1]);
        if table[0].0 != lc {
            if let Some(n) = language_named(p, lc) {
                let i = choose|i: int|
                    0 <= i < p.len() && (#[trigger] p[i]).0 == lc && p[i].1 == n && forall|j: int|
                        0 <= j < i ==> (#[trigger] p[j]).0 != lc;
                assert(table[i + 1] == p[i]);
            }
        } else {
            assert(table[0].0 == lc);
        }
    }
}

} // verus!
