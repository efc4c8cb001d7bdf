//! A dubbing project: its lines and the settings that the stages read. Times are whole microseconds.

use vstd::prelude::*;

verus! {

/// One line of the transcript.
#[derive(Clone, Debug)]
pub struct Segment {
    pub id: String,
    pub start: i64,
    pub end: i64,
    pub speaker: Option<String>,
    pub src_text: String,
    pub tgt_text: String,
    pub voice: Option<String>,
    /// The line has changed since it was last spoken.
    pub dirty: bool,
    /// The line is neither spoken nor shown.
    pub hidden: bool,
    /// The original is heard in place of a spoken translation.
    pub keep_original: bool,
}

/// An area of the picture that is blurred or filled for a while.
#[derive(Clone, Debug)]
pub struct BlurBox {
    pub x: i64,
    pub y: i64,
    pub w: i64,
    pub h: i64,
    pub t0: i64,
    pub t1: i64,
    pub hidden: bool,
    /// The colour it is filled with, if it is not blurred.
    pub fill: Option<String>,
    /// It covers a line of the original subtitles.
    pub band: bool,
}

/// A text that the editor gave in place of a line's translation.
#[derive(Clone, Debug)]
pub struct CaptionOverride {
    pub seg_id: String,
    pub text: Option<String>,
}

/// What is drawn over the picture.
#[derive(Clone, Debug)]
pub struct Captions {
    pub sub_y: Option<i64>,
    /// The editor has put the subtitles at `sub_y`.
    pub sub_y_locked: bool,
    pub blur_boxes: Vec<BlurBox>,
    pub overrides: Vec<CaptionOverride>,
}

/// The subtitles.
#[derive(Clone, Debug)]
pub struct Subs {
    pub mode: String,
    pub burn: bool,
}

/// Who speaks.
#[derive(Clone, Debug)]
pub struct Voice {
    pub mode: String,
    /// One name for each speaker, separated by commas.
    pub name: Option<String>,
}

/// The sound.
#[derive(Clone, Debug)]
pub struct Audio {
    pub voice: Voice,
    pub rewrite: Option<String>,
    pub keep_music: bool,
    pub keep_original_track: bool,
    pub container: String,
    pub content_type: String,
}

/// A project.
#[derive(Clone, Debug)]
pub struct Project {
    pub mode: String,
    pub tgt_lang: String,
    pub segments: Vec<Segment>,
    pub subs: Subs,
    pub audio: Audio,
    pub captions: Captions,
}

impl Default for Segment {
    fn default() -> (r: Segment)
        ensures
            r.id@.len() == 0,
            r.start == 0,
            r.end == 0,
            r.speaker is None,
            r.src_text@.len() == 0,
            r.tgt_text@.len() == 0,
            r.voice is None,
            !r.dirty,
            !r.hidden,
            !r.keep_original,
    {
        Segment {
            id: String::new(),
            start: 0,
            end: 0,
            speaker: None,
            src_text: String::new(),
            tgt_text: String::new(),
            voice: None,
            dirty: false,
            hidden: false,
            keep_original: false,
        }
    }
}

impl Default for Project {
    fn default() -> (r: Project)
        ensures
            r.mode@.len() == 0,
            r.tgt_lang@.len() == 0,
            r.segments@.len() == 0,
            r.subs.mode@.len() == 0,
            !r.subs.burn,
            r.audio.voice.mode@.len() == 0,
            r.audio.voice.name is None,
            r.audio.rewrite is None,
            !r.audio.keep_music,
            !r.audio.keep_original_track,
            r.audio.container@.len() == 0,
            r.audio.content_type@.len() == 0,
            r.captions.sub_y is None,
            !r.captions.sub_y_locked,
            r.captions.blur_boxes@.len() == 0,
            r.captions.overrides@.len() == 0,
    {
        Project {
            mode: String::new(),
            tgt_lang: String::new(),
            segments: Vec::new(),
            subs: Subs { mode: String::new(), burn: false },
            audio: Audio {
                voice: Voice { mode: String::new(), name: None },
                rewrite: None,
                keep_music: false,
                keep_original_track: false,
                container: String::new(),
                content_type: String::new(),
            },
            captions: Captions {
                sub_y: None,
                sub_y_locked: false,
                blur_boxes: Vec::new(),
                overrides: Vec::new(),
            },
        }
    }
}

/// The longest time that occurs, either way: some three years.
pub const TIME_LIMIT: i64 = 100_000_000_000_000;

pub open spec fn time_ok(t: i64) -> bool {
    -TIME_LIMIT <= t <= TIME_LIMIT
}

impl Segment {
    /// Its times are within the limit.
    pub open spec fn timed(self) -> bool {
        time_ok(self.start) && time_ok(self.end)
    }

    /// Who speaks it; a line without a speaker belongs to "0".
    pub open spec fn who(self) -> Seq<char> {
        match self.speaker {
            Some(s) => s@,
            None => "0"@,
        }
    }

    /// Who speaks it.
    pub fn speaker_key(&self) -> (r: String)
        ensures
            r@ == self.who(),
    {
        match &self.speaker {
            Some(s) => s.clone(),
            None => "0".to_owned(),
        }
    }
}

pub open spec fn all_timed(segs: Seq<Segment>) -> bool {
    forall|i: int| 0 <= i < segs.len() ==> (#[trigger] segs[i]).timed()
}

/// Whether all times of the lines are within the limit.
pub fn times_fit(segs: &Vec<Segment>) -> (r: bool)
    ensures
        r == all_timed(segs@),
{
    for i in 0..segs.len()
        invariant
            forall|j: int| 0 <= j < i ==> (#[trigger] segs@[j]).timed(),
    {
        let s = &segs[i];
        if !(-TIME_LIMIT <= s.start && s.start <= TIME_LIMIT && -TIME_LIMIT <= s.end && s.end
            <= TIME_LIMIT) {
            return false;
        }
    }
    true
}

} // verus!
