//! Speaking through the cloud: which model and voice, and which replies are sound.

use crate::text;
use vstd::prelude::*;

verus! {

/// What is asked of the cloud.
#[derive(Clone, Debug)]
pub struct SpeechRequest {
    pub key: String,
    pub model: String,
    pub voice: String,
}

/// Why nothing can be asked.
#[derive(Clone, Copy, Debug, PartialEq, Eq, Structural)]
pub enum SpeechFault {
    NoKey,
    NoModel,
    NoVoice,
}

/// The voice: the given one, else that of the settings.
pub open spec fn voice_of(given: Seq<char>, setting: Seq<char>) -> Seq<char> {
    let v = text::trimmed(given);
    if v.len() == 0 {
        setting
    } else {
        v
    }
}

/// What is asked of the cloud for a line.
pub fn request(key: Option<&str>, model: &str, voice: &str, default_voice: &str) -> (r: Result<
    SpeechRequest,
    SpeechFault,
>)
    ensures
        match r {
            Ok(q) => key is Some && q.key@ == key->0@ && model@.len() > 0 && q.model@ == model@
                && q.voice@ == voice_of(voice@, default_voice@) && q.voice@.len() > 0,
            Err(SpeechFault::NoKey) => key is None,
            Err(SpeechFault::NoModel) => key is Some && model@.len() == 0,
            Err(SpeechFault::NoVoice) => key is Some && model@.len() > 0 && voice_of(
                voice@,
                default_voice@,
            ).len() == 0,
        },
{
    let key = match key {
        Some(k) => k,
        None => {
            return Err(SpeechFault::NoKey);
        },
    };
    if model.is_empty() {
        return Err(SpeechFault::NoModel);
    }
    let given = text::trim(voice);
    let v = if given.as_str().is_empty() {
        default_voice.to_owned()
    } else {
        given
    };
    if v.as_str().is_empty() {
        return Err(SpeechFault::NoVoice);
    }
    Ok(SpeechRequest { key: key.to_owned(), model: model.to_owned(), voice: v })
}

/// What is reported where nothing can be asked.
pub fn fault_text(f: SpeechFault) -> (r: &'static str)
    ensures
        r@ == match f {
            SpeechFault::NoKey => "cloud TTS is enabled but no OpenRouter key is set"@,
            SpeechFault::NoModel => "no TTS model selected in settings (Cloud models · OpenRouter)"@,
            SpeechFault::NoVoice => "no TTS voice set in settings (each model has its own voices)"@,
        },
{
    match f {
        SpeechFault::NoKey => "cloud TTS is enabled but no OpenRouter key is set",
        SpeechFault::NoModel => "no TTS model selected in settings (Cloud models · OpenRouter)",
        SpeechFault::NoVoice => "no TTS voice set in settings (each model has its own voices)",
    }
}

/// A shorter file holds no sound.
pub const LEAST_BYTES: u64 = 200;

/// What is wrong with a file of so many bytes, if anything.
pub fn check_sound(bytes: u64) -> (r: Option<String>)
    ensures
        (match r {
            Some(m) => Some(m@),
            None => None,
        }) == if bytes < LEAST_BYTES {
            Some("cloud TTS: audio too short ("@ + text::decimal(bytes as nat) + " bytes)"@)
        } else {
            None
        },
{
    if bytes < LEAST_BYTES {
        let mut m = "cloud TTS: audio too short (".to_owned();
        m.append(text::to_decimal(bytes).as_str());
        m.append(" bytes)");
        Some(m)
    } else {
        None
    }
}

/// How many lines are spoken at a time: as many as are allowed, at least one, no more than there are.
pub fn workers(jobs: usize, allowed: usize) -> (r: usize)
    ensures
        r == if jobs == 0 {
            0
        } else if allowed == 0 {
            1
        } else if allowed > jobs {
            jobs
        } else {
            allowed
        },
        r <= jobs,
        jobs > 0 ==> r >= 1,
{
    if jobs == 0 {
        0
    } else if allowed == 0 {
        1
    } else if allowed > jobs {
        jobs
    } else {
        allowed
    }
}

/// The voice that is given speaks, without white space around it; that of the settings only where none is.
pub proof fn law_given_voice_speaks(given: Seq<char>, setting: Seq<char>)
    ensures
        text::trimmed(given).len() > 0 ==> voice_of(given, setting) == text::trimmed(given),
        text::trimmed(given).len() == 0 ==> voice_of(given, setting) == setting,
{
}

} // verus!
