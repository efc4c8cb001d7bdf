//! The words of the command lines with which films and sounds are worked on. Times are whole microseconds.

use crate::dub::slots::Span;
use crate::media;
use crate::project;
use crate::text;
use vstd::prelude::*;

verus! {

/// Both sounds as they are, one over the other.
pub const MIX_FILTER: &'static str =
    "[0:a]aformat=channel_layouts=stereo[v];[1:a]aformat=channel_layouts=stereo[m];[v][m]amix=inputs=2:duration=longest:dropout_transition=0:normalize=0[a]";

/// The second sound goes down where the first is loud.
pub const DUCK_FILTER: &'static str =
    "[0:a]aformat=channel_layouts=stereo,asplit=2[v][vkey];[1:a]aformat=channel_layouts=stereo[m];[m][vkey]sidechaincompress=threshold=0.02:ratio=8:attack=150:release=600:makeup=1[bg];[v][bg]amix=inputs=2:duration=longest:dropout_transition=0:normalize=0[a]";

/// A moment in seconds, with three digits behind the point.
pub open spec fn moment_text(us: int) -> Seq<char> {
    if us < 0 {
        "-"@ + media::milli_text(-us)
    } else {
        media::milli_text(us)
    }
}

/// A moment in seconds.
fn say_moment(us: i64) -> (r: String)
    requires
        project::time_ok(us),
    ensures
        r@ == moment_text(us as int),
{
    if us < 0 {
        let mut m = "-".to_owned();
        m.append(media::say_millis(-us).as_str());
        m
    } else {
        media::say_millis(us)
    }
}

/// What is behind the point of so many thousandths, without zeros at the end.
pub open spec fn fraction_text(rest: nat) -> Seq<char> {
    if rest == 0 {
        ""@
    } else if rest % 100 == 0 {
        "."@ + media::fixed_digits(rest / 100, 1)
    } else if rest % 10 == 0 {
        "."@ + media::fixed_digits(rest / 10, 2)
    } else {
        "."@ + media::fixed_digits(rest, 3)
    }
}

/// A number of thousandths in decimal digits.
pub open spec fn thousandths_text(m: int) -> Seq<char> {
    let a = if m < 0 {
        -m
    } else {
        m
    };
    (if m < 0 {
        "-"@
    } else {
        ""@
    }) + text::decimal((a / 1000) as nat) + fraction_text((a % 1000) as nat)
}

/// A number of thousandths in decimal digits.
pub fn say_thousandths(m: i32) -> (r: String)
    ensures
        r@ == thousandths_text(m as int),
{
    let a: u64 = if m < 0 {
        (-(m as i64)) as u64
    } else {
        m as u64
    };
    let mut s = (if m < 0 { "-" } else { "" }).to_owned();
    s.append(text::to_decimal(a / 1000).as_str());
    let rest: u64 = a % 1000;
    let mut f = "".to_owned();
    if rest > 0 {
        f.append(".");
        assert(""@ + "."@ =~= "."@) by {
            reveal_strlit("");
        }
        if rest % 100 == 0 {
            media::push_fixed(&mut f, rest / 100, 1);
        } else if rest % 10 == 0 {
            media::push_fixed(&mut f, rest / 10, 2);
        } else {
            media::push_fixed(&mut f, rest, 3);
        }
    }
    s.append(f.as_str());
    s
}

fn word(a: &mut Vec<String>, w: &str)
    ensures
        text::views(final(a)@) == text::views(old(a)@).push(w@),
{
    a.push(w.to_owned());
    assert(text::views(a@) =~= text::views(old(a)@).push(w@));
}

/// Takes the sound out of a film.
pub fn extract_audio(video: &str, out: &str, rate: u32, channels: u32) -> (r: Vec<String>)
    ensures
        text::views(r@) == seq![
            "-y"@,
            "-i"@,
            video@,
            "-vn"@,
            "-ac"@,
            text::decimal(channels as nat),
            "-ar"@,
            text::decimal(rate as nat),
            out@,
        ],
{
    let mut a: Vec<String> = Vec::new();
    word(&mut a, "-y");
    word(&mut a, "-i");
    word(&mut a, video);
    word(&mut a, "-vn");
    word(&mut a, "-ac");
    word(&mut a, text::to_decimal(channels as u64).as_str());
    word(&mut a, "-ar");
    word(&mut a, text::to_decimal(rate as u64).as_str());
    word(&mut a, out);
    a
}

/// Takes the sound out of a film for the speech engine: one channel, 16000 samples a second.
pub fn extract_wav_16k_mono(input: &str, out: &str) -> (r: Vec<String>)
    ensures
        text::views(r@) == seq![
            "-y"@,
            "-i"@,
            input@,
            "-vn"@,
            "-ac"@,
            "1"@,
            "-ar"@,
            "16000"@,
            "-c:a"@,
            "pcm_s16le"@,
            "-f"@,
            "wav"@,
            out@,
        ],
{
    let mut a: Vec<String> = Vec::new();
    word(&mut a, "-y");
    word(&mut a, "-i");
    word(&mut a, input);
    word(&mut a, "-vn");
    word(&mut a, "-ac");
    word(&mut a, "1");
    word(&mut a, "-ar");
    word(&mut a, "16000");
    word(&mut a, "-c:a");
    word(&mut a, "pcm_s16le");
    word(&mut a, "-f");
    word(&mut a, "wav");
    word(&mut a, out);
    a
}

/// Makes a sound one of one channel and 16000 samples a second.
pub fn to_16k_mono(src: &str, dst: &str) -> (r: Vec<String>)
    ensures
        text::views(r@) == seq![
            "-y"@,
            "-i"@,
            src@,
            "-vn"@,
            "-ac"@,
            "1"@,
            "-ar"@,
            "16000"@,
            dst@,
        ],
{
    let mut a: Vec<String> = Vec::new();
    word(&mut a, "-y");
    word(&mut a, "-i");
    word(&mut a, src);
    word(&mut a, "-vn");
    word(&mut a, "-ac");
    word(&mut a, "1");
    word(&mut a, "-ar");
    word(&mut a, "16000");
    word(&mut a, dst);
    a
}

/// Asks how long a file is.
pub fn duration(path: &str) -> (r: Vec<String>)
    ensures
        text::views(r@) == seq![
            "-v"@,
            "error"@,
            "-show_entries"@,
            "format=duration"@,
            "-of"@,
            "default=nw=1:nk=1"@,
            path@,
        ],
{
    let mut a: Vec<String> = Vec::new();
    word(&mut a, "-v");
    word(&mut a, "error");
    word(&mut a, "-show_entries");
    word(&mut a, "format=duration");
    word(&mut a, "-of");
    word(&mut a, "default=nw=1:nk=1");
    word(&mut a, path);
    a
}

/// Asks which sounds a file has.
pub fn has_audio(input: &str) -> (r: Vec<String>)
    ensures
        text::views(r@) == seq![
            "-v"@,
            "error"@,
            "-select_streams"@,
            "a"@,
            "-show_entries"@,
            "stream=index"@,
            "-of"@,
            "csv=p=0"@,
            input@,
        ],
{
    let mut a: Vec<String> = Vec::new();
    word(&mut a, "-v");
    word(&mut a, "error");
    word(&mut a, "-select_streams");
    word(&mut a, "a");
    word(&mut a, "-show_entries");
    word(&mut a, "stream=index");
    word(&mut a, "-of");
    word(&mut a, "csv=p=0");
    word(&mut a, input);
    a
}

/// Makes a sound faster by `factor` millionths, or slower.
pub fn time_stretch(src: &str, dst: &str, factor: u128) -> (r: Vec<String>)
    requires
        factor > 0,
    ensures
        text::views(r@) == seq![
            "-y"@,
            "-i"@,
            src@,
            "-filter:a"@,
            media::tempo_chain(factor as int),
            dst@,
        ],
{
    let mut a: Vec<String> = Vec::new();
    word(&mut a, "-y");
    word(&mut a, "-i");
    word(&mut a, src);
    word(&mut a, "-filter:a");
    word(&mut a, media::atempo_chain(factor).as_str());
    word(&mut a, dst);
    a
}

/// Mixes a voice and music, both as they are.
pub fn mix(voice: &str, music: &str, out: &str) -> (r: Vec<String>)
    ensures
        text::views(r@) == seq![
            "-y"@,
            "-i"@,
            voice@,
            "-i"@,
            music@,
            "-filter_complex"@,
            MIX_FILTER@,
            "-map"@,
            "[a]"@,
            "-c:a"@,
            "aac"@,
            "-b:a"@,
            "192k"@,
            out@,
        ],
{
    let mut a: Vec<String> = Vec::new();
    word(&mut a, "-y");
    word(&mut a, "-i");
    word(&mut a, voice);
    word(&mut a, "-i");
    word(&mut a, music);
    word(&mut a, "-filter_complex");
    word(&mut a, MIX_FILTER);
    word(&mut a, "-map");
    word(&mut a, "[a]");
    word(&mut a, "-c:a");
    word(&mut a, "aac");
    word(&mut a, "-b:a");
    word(&mut a, "192k");
    word(&mut a, out);
    a
}

/// Mixes a voice and music that goes down where the voice is loud.
pub fn mix_ducked(voice: &str, music: &str, out: &str) -> (r: Vec<String>)
    ensures
        text::views(r@) == seq![
            "-y"@,
            "-i"@,
            voice@,
            "-i"@,
            music@,
            "-filter_complex"@,
            DUCK_FILTER@,
            "-map"@,
            "[a]"@,
            "-c:a"@,
            "aac"@,
            "-b:a"@,
            "192k"@,
            out@,
        ],
{
    let mut a: Vec<String> = Vec::new();
    word(&mut a, "-y");
    word(&mut a, "-i");
    word(&mut a, voice);
    word(&mut a, "-i");
    word(&mut a, music);
    word(&mut a, "-filter_complex");
    word(&mut a, DUCK_FILTER);
    word(&mut a, "-map");
    word(&mut a, "[a]");
    word(&mut a, "-c:a");
    word(&mut a, "aac");
    word(&mut a, "-b:a");
    word(&mut a, "192k");
    word(&mut a, out);
    a
}

/// Mixes a voice and music by the filters in the file `script`.
pub fn mix_env(voice: &str, music: &str, script: &str, out: &str) -> (r: Vec<String>)
    ensures
        text::views(r@) == seq![
            "-y"@,
            "-i"@,
            voice@,
            "-i"@,
            music@,
            "-filter_complex_script"@,
            script@,
            "-map"@,
            "[a]"@,
            "-c:a"@,
            "aac"@,
            "-b:a"@,
            "192k"@,
            out@,
        ],
{
    let mut a: Vec<String> = Vec::new();
    word(&mut a, "-y");
    word(&mut a, "-i");
    word(&mut a, voice);
    word(&mut a, "-i");
    word(&mut a, music);
    word(&mut a, "-filter_complex_script");
    word(&mut a, script);
    word(&mut a, "-map");
    word(&mut a, "[a]");
    word(&mut a, "-c:a");
    word(&mut a, "aac");
    word(&mut a, "-b:a");
    word(&mut a, "192k");
    word(&mut a, out);
    a
}

/// Brings a sound to a loudness of `i`, peaks of `tp` and a range of `lra`, all in thousandths.
pub fn loudnorm(src: &str, dst: &str, i: i32, tp: i32, lra: i32) -> (r: Vec<String>)
    ensures
        text::views(r@) == seq![
            "-y"@,
            "-i"@,
            src@,
            "-af"@,
            "loudnorm=I="@ + thousandths_text(i as int) + ":TP="@ + thousandths_text(tp as int) + ":LRA="@ + thousandths_text(lra as int),
            "-c:a"@,
            "aac"@,
            "-b:a"@,
            "192k"@,
            dst@,
        ],
{
    let mut af = "loudnorm=I=".to_owned();
    af.append(say_thousandths(i).as_str());
    af.append(":TP=");
    af.append(say_thousandths(tp).as_str());
    af.append(":LRA=");
    af.append(say_thousandths(lra).as_str());
    let mut a: Vec<String> = Vec::new();
    word(&mut a, "-y");
    word(&mut a, "-i");
    word(&mut a, src);
    word(&mut a, "-af");
    word(&mut a, af.as_str());
    word(&mut a, "-c:a");
    word(&mut a, "aac");
    word(&mut a, "-b:a");
    word(&mut a, "192k");
    word(&mut a, dst);
    a
}

/// Makes a sound louder by so many thousandths of a decibel.
pub fn gain(src: &str, dst: &str, amount: i32) -> (r: Vec<String>)
    ensures
        text::views(r@) == seq![
            "-y"@,
            "-i"@,
            src@,
            "-af"@,
            "volume="@ + thousandths_text(amount as int) + "dB"@,
            "-c:a"@,
            "aac"@,
            "-b:a"@,
            "192k"@,
            dst@,
        ],
{
    let mut af = "volume=".to_owned();
    af.append(say_thousandths(amount).as_str());
    af.append("dB");
    let mut a: Vec<String> = Vec::new();
    word(&mut a, "-y");
    word(&mut a, "-i");
    word(&mut a, src);
    word(&mut a, "-af");
    word(&mut a, af.as_str());
    word(&mut a, "-c:a");
    word(&mut a, "aac");
    word(&mut a, "-b:a");
    word(&mut a, "192k");
    word(&mut a, dst);
    a
}

/// Puts a film and its new sound together.
pub fn mux(video: &str, audio: &str, out: &str) -> (r: Vec<String>)
    ensures
        text::views(r@) == seq![
            "-y"@,
            "-i"@,
            video@,
            "-i"@,
            audio@,
            "-map"@,
            "0:v:0"@,
            "-map"@,
            "1:a:0?"@,
            "-af"@,
            "aformat=channel_layouts=stereo"@,
            "-c:v"@,
            "copy"@,
            "-c:a"@,
            "aac"@,
            "-b:a"@,
            "256k"@,
            "-movflags"@,
            "+faststart"@,
            out@,
        ],
{
    let mut a: Vec<String> = Vec::new();
    word(&mut a, "-y");
    word(&mut a, "-i");
    word(&mut a, video);
    word(&mut a, "-i");
    word(&mut a, audio);
    word(&mut a, "-map");
    word(&mut a, "0:v:0");
    word(&mut a, "-map");
    word(&mut a, "1:a:0?");
    word(&mut a, "-af");
    word(&mut a, "aformat=channel_layouts=stereo");
    word(&mut a, "-c:v");
    word(&mut a, "copy");
    word(&mut a, "-c:a");
    word(&mut a, "aac");
    word(&mut a, "-b:a");
    word(&mut a, "256k");
    word(&mut a, "-movflags");
    word(&mut a, "+faststart");
    word(&mut a, out);
    a
}

/// Puts a film and the sound of another file together, the sound as it is.
pub fn mux_keep_audio(video: &str, sound: &str, out: &str) -> (r: Vec<String>)
    ensures
        text::views(r@) == seq![
            "-y"@,
            "-i"@,
            video@,
            "-i"@,
            sound@,
            "-map"@,
            "0:v:0"@,
            "-map"@,
            "1:a:0?"@,
            "-c:v"@,
            "copy"@,
            "-c:a"@,
            "copy"@,
            "-movflags"@,
            "+faststart"@,
            out@,
        ],
{
    let mut a: Vec<String> = Vec::new();
    word(&mut a, "-y");
    word(&mut a, "-i");
    word(&mut a, video);
    word(&mut a, "-i");
    word(&mut a, sound);
    word(&mut a, "-map");
    word(&mut a, "0:v:0");
    word(&mut a, "-map");
    word(&mut a, "1:a:0?");
    word(&mut a, "-c:v");
    word(&mut a, "copy");
    word(&mut a, "-c:a");
    word(&mut a, "copy");
    word(&mut a, "-movflags");
    word(&mut a, "+faststart");
    word(&mut a, out);
    a
}

/// Puts the first sound of a film with several into a file that can be played.
pub fn remux_playable_mp4(film: &str, out: &str) -> (r: Vec<String>)
    ensures
        text::views(r@) == seq![
            "-y"@,
            "-i"@,
            film@,
            "-map"@,
            "0:v:0"@,
            "-map"@,
            "0:a:0"@,
            "-c"@,
            "copy"@,
            "-movflags"@,
            "+faststart"@,
            out@,
        ],
{
    let mut a: Vec<String> = Vec::new();
    word(&mut a, "-y");
    word(&mut a, "-i");
    word(&mut a, film);
    word(&mut a, "-map");
    word(&mut a, "0:v:0");
    word(&mut a, "-map");
    word(&mut a, "0:a:0");
    word(&mut a, "-c");
    word(&mut a, "copy");
    word(&mut a, "-movflags");
    word(&mut a, "+faststart");
    word(&mut a, out);
    a
}

/// Makes a sound a plain one of two channels.
pub fn to_wav(src: &str, dst: &str) -> (r: Vec<String>)
    ensures
        text::views(r@) == seq![
            "-y"@,
            "-i"@,
            src@,
            "-af"@,
            "aformat=channel_layouts=stereo"@,
            "-c:a"@,
            "pcm_s16le"@,
            dst@,
        ],
{
    let mut a: Vec<String> = Vec::new();
    word(&mut a, "-y");
    word(&mut a, "-i");
    word(&mut a, src);
    word(&mut a, "-af");
    word(&mut a, "aformat=channel_layouts=stereo");
    word(&mut a, "-c:a");
    word(&mut a, "pcm_s16le");
    word(&mut a, dst);
    a
}

/// Cuts a part out of a sound, as one channel.
pub fn trim(src: &str, dst: &str, start: i64, end: i64, rate: u32) -> (r: Vec<String>)
    requires
        project::time_ok(start),
        project::time_ok(end),
    ensures
        text::views(r@) == seq![
            "-y"@,
            "-ss"@,
            moment_text(start as int),
            "-to"@,
            moment_text(end as int),
            "-i"@,
            src@,
            "-ac"@,
            "1"@,
            "-ar"@,
            text::decimal(rate as nat),
            dst@,
        ],
{
    let mut a: Vec<String> = Vec::new();
    word(&mut a, "-y");
    word(&mut a, "-ss");
    word(&mut a, say_moment(start).as_str());
    word(&mut a, "-to");
    word(&mut a, say_moment(end).as_str());
    word(&mut a, "-i");
    word(&mut a, src);
    word(&mut a, "-ac");
    word(&mut a, "1");
    word(&mut a, "-ar");
    word(&mut a, text::to_decimal(rate as u64).as_str());
    word(&mut a, dst);
    a
}

/// Cuts a part out of a long sound, to the sample.
pub fn slice_window(src: &str, dst: &str, start: i64, end: i64, rate: u32) -> (r: Vec<String>)
    requires
        project::time_ok(start),
        project::time_ok(end),
    ensures
        text::views(r@) == seq![
            "-y"@,
            "-fflags"@,
            "+discardcorrupt"@,
            "-i"@,
            src@,
            "-ss"@,
            moment_text(start as int),
            "-to"@,
            moment_text(end as int),
            "-ac"@,
            "1"@,
            "-ar"@,
            text::decimal(rate as nat),
            "-avoid_negative_ts"@,
            "make_zero"@,
            "-c:a"@,
            "pcm_s16le"@,
            dst@,
        ],
{
    let mut a: Vec<String> = Vec::new();
    word(&mut a, "-y");
    word(&mut a, "-fflags");
    word(&mut a, "+discardcorrupt");
    word(&mut a, "-i");
    word(&mut a, src);
    word(&mut a, "-ss");
    word(&mut a, say_moment(start).as_str());
    word(&mut a, "-to");
    word(&mut a, say_moment(end).as_str());
    word(&mut a, "-ac");
    word(&mut a, "1");
    word(&mut a, "-ar");
    word(&mut a, text::to_decimal(rate as u64).as_str());
    word(&mut a, "-avoid_negative_ts");
    word(&mut a, "make_zero");
    word(&mut a, "-c:a");
    word(&mut a, "pcm_s16le");
    word(&mut a, dst);
    a
}

/// Cuts a sound into parts of the same length, a tenth of a second at least. `out` is the pattern of their names.
pub fn segment_wav(src: &str, out: &str, length: i64, rate: u32) -> (r: Vec<String>)
    requires
        project::time_ok(length),
    ensures
        text::views(r@) == seq![
            "-y"@,
            "-fflags"@,
            "+discardcorrupt"@,
            "-i"@,
            src@,
            "-ac"@,
            "1"@,
            "-ar"@,
            text::decimal(rate as nat),
            "-c:a"@,
            "pcm_s16le"@,
            "-f"@,
            "segment"@,
            "-segment_time"@,
            moment_text(if length > 100_000 { length as int } else { 100_000 }),
            "-reset_timestamps"@,
            "1"@,
            "-max_muxing_queue_size"@,
            "2048"@,
            out@,
        ],
{
    let mut a: Vec<String> = Vec::new();
    word(&mut a, "-y");
    word(&mut a, "-fflags");
    word(&mut a, "+discardcorrupt");
    word(&mut a, "-i");
    word(&mut a, src);
    word(&mut a, "-ac");
    word(&mut a, "1");
    word(&mut a, "-ar");
    word(&mut a, text::to_decimal(rate as u64).as_str());
    word(&mut a, "-c:a");
    word(&mut a, "pcm_s16le");
    word(&mut a, "-f");
    word(&mut a, "segment");
    word(&mut a, "-segment_time");
    word(&mut a, say_moment(if length > 100_000 { length } else { 100_000 }).as_str());
    word(&mut a, "-reset_timestamps");
    word(&mut a, "1");
    word(&mut a, "-max_muxing_queue_size");
    word(&mut a, "2048");
    word(&mut a, out);
    a
}

/// Whether a film begins to play before all of it is there: one whose name ends in `mp4`, or has no ending.
pub fn plays_at_once(ending: Option<&str>) -> (r: bool)
    ensures
        r == match ending {
            Some(e) => text::ascii_lower(e@) == "mp4"@,
            None => true,
        },
{
    match ending {
        Some(e) => text::same(text::lower_ascii(e).as_str(), "mp4"),
        None => true,
    }
}

/// The names and languages of the two sounds of a film.
pub struct Tracks<'a> {
    pub dub_lang: &'a str,
    pub orig_lang: &'a str,
    pub dub_title: &'a str,
    pub orig_title: &'a str,
}

/// Puts a film, its dub and its own sound together: the dub is heard first, the own sound stays as it is.
pub fn mux_multitrack(
    video: &str,
    dub: &str,
    orig: &str,
    out: &str,
    names: &Tracks,
    ending: Option<&str>,
) -> (r: Vec<String>)
    ensures
        text::views(r@) == seq![
            "-y"@,
            "-i"@,
            video@,
            "-i"@,
            dub@,
            "-i"@,
            orig@,
            "-map"@,
            "0:v:0"@,
            "-map"@,
            "1:a:0"@,
            "-map"@,
            "2:a:0"@,
            "-c:v"@,
            "copy"@,
            "-c:a:0"@,
            "aac"@,
            "-b:a:0"@,
            "256k"@,
            "-metadata:s:a:0"@,
            "language="@ + names.dub_lang@,
            "-metadata:s:a:0"@,
            "title="@ + names.dub_title@,
            "-c:a:1"@,
            "copy"@,
            "-metadata:s:a:1"@,
            "language="@ + names.orig_lang@,
            "-metadata:s:a:1"@,
            "title="@ + names.orig_title@,
            "-disposition:a:0"@,
            "default"@,
            "-disposition:a:1"@,
            "0"@,
        ] + (if (match ending {
            Some(e) => text::ascii_lower(e@) == "mp4"@,
            None => true,
        }) {
            seq!["-movflags"@, "+faststart"@]
        } else {
            Seq::empty()
        }) + seq![out@],
{
    let mut a: Vec<String> = Vec::new();
    word(&mut a, "-y");
    word(&mut a, "-i");
    word(&mut a, video);
    word(&mut a, "-i");
    word(&mut a, dub);
    word(&mut a, "-i");
    word(&mut a, orig);
    word(&mut a, "-map");
    word(&mut a, "0:v:0");
    word(&mut a, "-map");
    word(&mut a, "1:a:0");
    word(&mut a, "-map");
    word(&mut a, "2:a:0");
    word(&mut a, "-c:v");
    word(&mut a, "copy");
    word(&mut a, "-c:a:0");
    word(&mut a, "aac");
    word(&mut a, "-b:a:0");
    word(&mut a, "256k");
    word(&mut a, "-metadata:s:a:0");
    word(&mut a, named("language=", names.dub_lang).as_str());
    word(&mut a, "-metadata:s:a:0");
    word(&mut a, named("title=", names.dub_title).as_str());
    word(&mut a, "-c:a:1");
    word(&mut a, "copy");
    word(&mut a, "-metadata:s:a:1");
    word(&mut a, named("language=", names.orig_lang).as_str());
    word(&mut a, "-metadata:s:a:1");
    word(&mut a, named("title=", names.orig_title).as_str());
    word(&mut a, "-disposition:a:0");
    word(&mut a, "default");
    word(&mut a, "-disposition:a:1");
    word(&mut a, "0");
    let ghost first = text::views(a@);
    if plays_at_once(ending) {
        word(&mut a, "-movflags");
        word(&mut a, "+faststart");
        assert(text::views(a@) =~= first + seq!["-movflags"@, "+faststart"@]);
    } else {
        assert(first =~= first + Seq::empty());
    }
    let ghost second = text::views(a@);
    word(&mut a, out);
    assert(text::views(a@) =~= second + seq![out@]);
    a
}

fn named(what: &str, value: &str) -> (r: String)
    ensures
        r@ == what@ + value@,
{
    let mut m = what.to_owned();
    m.append(value);
    m
}

/// The filters that mix a voice with music that goes down where a line is heard, to `depth` ten thousandths
/// under its own volume.
pub fn env_filter(blocks: &Vec<Span>, depth: u32) -> (r: String)
    requires
        media::blocks_ok(blocks@),
    ensures
        r@
            == "[0:a]aformat=channel_layouts=stereo[v];[1:a]aformat=channel_layouts=stereo,volume='"@
            + media::volume_text(blocks@, depth as int)
            + "':eval=frame[bg];[v][bg]amix=inputs=2:duration=longest:dropout_transition=0:normalize=0[a]"@,
{
    let mut m =
        "[0:a]aformat=channel_layouts=stereo[v];[1:a]aformat=channel_layouts=stereo,volume='".to_owned();
    m.append(media::duck_volume_expr(blocks, depth).as_str());
    m.append(
        "':eval=frame[bg];[v][bg]amix=inputs=2:duration=longest:dropout_transition=0:normalize=0[a]",
    );
    m
}

/// How many seconds mixing may take: twice as long as the music, ten minutes at least.
pub fn mix_patience(music: i64) -> (r: u64)
    requires
        0 <= music <= project::TIME_LIMIT,
    ensures
        r == if 2 * music > 600_000_000 {
            2 * music / 1_000_000
        } else {
            600
        },
{
    if 2 * music > 600_000_000 {
        (2 * music / 1_000_000) as u64
    } else {
        600
    }
}

/// As much of a failed program's report is passed on.
pub const REPORT_LENGTH: usize = 1500;

/// The end of a failed program's report.
pub fn report_tail(report: &str) -> (r: String)
    ensures
        r@ == text::tail(report@, REPORT_LENGTH as nat),
{
    text::last_chars(report, REPORT_LENGTH)
}

/// A number of thousandths is written with as many digits behind the point as it needs: none for a whole number, and no
/// zero at the end.
pub proof fn law_thousandths_are_written(m: int)
    ensures
        ({
            let a = if m < 0 {
                -m
            } else {
                m
            };
            let sign = if m < 0 {
                "-"@
            } else {
                ""@
            };
            let whole = sign + text::decimal((a / 1000) as nat);
            let rest = (a % 1000) as nat;
            &&& rest == 0 ==> thousandths_text(m) == whole
            &&& rest != 0 && rest % 100 == 0 ==> thousandths_text(m) == whole + "."@ + media::fixed_digits(rest / 100, 1)
            &&& rest % 100 != 0 && rest % 10 == 0 ==> thousandths_text(m) == whole + "."@ + media::fixed_digits(
                rest / 10,
                2,
            )
            &&& rest % 10 != 0 ==> thousandths_text(m) == whole + "."@ + media::fixed_digits(rest, 3)
        }),
        m >= 0 ==> moment_text(m) == media::milli_text(m),
        m < 0 ==> moment_text(m) == "-"@ + media::milli_text(-m),
{
    let a = if m < 0 {
        -m
    } else {
        m
    };
    let sign = if m < 0 {
        "-"@
    } else {
        ""@
    };
    let whole = sign + text::decimal((a / 1000) as nat);
    let rest = (a % 1000) as nat;
    reveal_strlit("");
    assert(whole + ""@ =~= whole);
    assert(whole + ("."@ + media::fixed_digits(rest / 100, 1)) =~= whole + "."@ + media::fixed_digits(rest / 100, 1));
    assert(whole + ("."@ + media::fixed_digits(rest / 10, 2)) =~= whole + "."@ + media::fixed_digits(rest / 10, 2));
    assert(whole + ("."@ + media::fixed_digits(rest, 3)) =~= whole + "."@ + media::fixed_digits(rest, 3));
}

} // verus!
