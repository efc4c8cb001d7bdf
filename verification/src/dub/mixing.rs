//! How the dub and the sound of the film become one track. Gains are thousandths of a decibel.

use crate::media;
use crate::text;
use vstd::prelude::*;

verus! {

/// Where the voices and the music of the film come from.
#[derive(Clone, Copy, Debug, PartialEq, Eq, Structural)]
pub enum Stems {
    /// They were parted before.
    Cached,
    /// They are parted now.
    Part,
    /// They cannot be parted: the sound as it is stands for the voices, and there is no music.
    Missing,
    /// They need not be parted: likewise.
    Whole,
}

/// Where the voices and the music come from. A voice-over keeps the whole sound of the film.
pub fn stems(keep_music: bool, voiceover: bool, parted: bool, engine: bool) -> (r: Stems)
    ensures
        r == if !keep_music || voiceover {
            Stems::Whole
        } else if parted {
            Stems::Cached
        } else if engine {
            Stems::Part
        } else {
            Stems::Missing
        },
{
    if !keep_music || voiceover {
        Stems::Whole
    } else if parted {
        Stems::Cached
    } else if engine {
        Stems::Part
    } else {
        Stems::Missing
    }
}

/// There is music to mix the dub with.
pub fn has_music(s: Stems) -> (r: bool)
    ensures
        r == (s == Stems::Cached || s == Stems::Part),
{
    s == Stems::Cached || s == Stems::Part
}

/// The deepest that the original goes under a voice-over.
pub const VOICEOVER_DUCK_MIN: i64 = -40_000;

/// How far the original goes under a voice-over.
pub fn voiceover_duck(wanted: i64) -> (r: i64)
    ensures
        r == if wanted < VOICEOVER_DUCK_MIN {
            VOICEOVER_DUCK_MIN
        } else if wanted > 0 {
            0
        } else {
            wanted
        },
{
    if wanted < VOICEOVER_DUCK_MIN {
        VOICEOVER_DUCK_MIN
    } else if wanted > 0 {
        0
    } else {
        wanted
    }
}

/// What the background lacks of its full volume under the dub, in ten thousandths, where nothing else is
/// set: three decibels.
pub const DUCK_DEPTH: u32 = 2_920;

/// How far the environment asks the background to go under the dub, in millionths of a decibel.
pub open spec fn duck_of(setting: Option<Seq<char>>) -> Option<int> {
    match setting {
        Some(s) => media::moment(text::trimmed(s)),
        None => None,
    }
}

/// How far the environment asks the background to go under the dub; nothing where it says nothing that
/// can be read.
pub fn duck_setting(setting: Option<&str>) -> (r: Option<i64>)
    ensures
        (match r {
            Some(n) => Some(n as int),
            None => None,
        }) == duck_of(
            match setting {
                Some(s) => Some(s@),
                None => None,
            },
        ),
{
    match setting {
        Some(s) => media::read_moment(text::trim(s).as_str()),
        None => None,
    }
}

/// A gain that cannot be heard.
pub const NO_GAIN: i64 = 50;

/// What a voice-over is mixed with where the original cannot follow the lines.
pub fn flattens(duck: i64) -> (r: bool)
    ensures
        r == (duck <= -NO_GAIN || duck >= NO_GAIN),
{
    duck <= -NO_GAIN || duck >= NO_GAIN
}

/// Whether the whole track gets a gain.
pub fn wants_gain(gain: i64) -> (r: bool)
    ensures
        r == (gain < -NO_GAIN || gain > NO_GAIN),
{
    gain < -NO_GAIN || gain > NO_GAIN
}

/// A way to mix.
#[derive(Clone, Copy, Debug, PartialEq, Eq, Structural)]
pub enum Mix {
    /// What lies under the dub goes down where a line is heard.
    Envelope,
    /// It goes down where the dub is loud.
    Sidechain,
    /// It is lower throughout.
    Flat,
    /// It stays as it is.
    Direct,
    /// There is nothing under the dub.
    Alone,
}

/// The way that is tried first.
pub open spec fn first_of(voiceover: bool, music: bool, duck: bool) -> Mix {
    if voiceover {
        Mix::Envelope
    } else if !music {
        Mix::Alone
    } else if duck {
        Mix::Envelope
    } else {
        Mix::Direct
    }
}

/// The way that is tried where the way `m` did not work.
pub open spec fn next_of(m: Mix, voiceover: bool) -> Option<Mix> {
    match m {
        Mix::Envelope => if voiceover {
            Some(Mix::Flat)
        } else {
            Some(Mix::Sidechain)
        },
        Mix::Sidechain => Some(Mix::Direct),
        Mix::Flat | Mix::Direct | Mix::Alone => None,
    }
}

/// The way that is tried first.
pub fn first_mix(voiceover: bool, music: bool, duck: bool) -> (r: Mix)
    ensures
        r == first_of(voiceover, music, duck),
{
    if voiceover {
        Mix::Envelope
    } else if !music {
        Mix::Alone
    } else if duck {
        Mix::Envelope
    } else {
        Mix::Direct
    }
}

/// The way that is tried where the way `m` did not work; none where mixing is given up.
pub fn next_mix(m: Mix, voiceover: bool) -> (r: Option<Mix>)
    ensures
        r == next_of(m, voiceover),
{
    match m {
        Mix::Envelope => if voiceover {
            Some(Mix::Flat)
        } else {
            Some(Mix::Sidechain)
        },
        Mix::Sidechain => Some(Mix::Direct),
        Mix::Flat | Mix::Direct | Mix::Alone => None,
    }
}

/// What is left of the sound once it was worked on.
#[derive(Clone, Copy, Debug, PartialEq, Eq, Structural)]
pub enum Sound {
    Mixed,
    Normalized,
    Gained,
}

/// Which sound goes into the film: each step that failed leaves the sound as it was before.
pub fn final_sound(normalized: bool, gain: i64, gained: bool) -> (r: Sound)
    ensures
        r == if (gain < -NO_GAIN || gain > NO_GAIN) && gained {
            Sound::Gained
        } else if normalized {
            Sound::Normalized
        } else {
            Sound::Mixed
        },
{
    if wants_gain(gain) && gained {
        Sound::Gained
    } else if normalized {
        Sound::Normalized
    } else {
        Sound::Mixed
    }
}

/// The ways that are tried, one after the other, until none is left.
pub open spec fn ways(m: Mix, voiceover: bool, n: nat) -> Seq<Mix>
    decreases n,
{
    if n == 0 {
        Seq::empty()
    } else {
        seq![m] + match next_of(m, voiceover) {
            Some(x) => ways(x, voiceover, (n - 1) as nat),
            None => Seq::empty(),
        }
    }
}

/// Mixing is given up after three ways at most, and a dub with music under it is at last mixed as it is.
pub proof fn law_mixing_ends(duck: bool, n: nat)
    requires
        n >= 3,
    ensures
        ways(first_of(true, true, duck), true, n) == seq![Mix::Envelope, Mix::Flat],
        ways(first_of(false, true, duck), false, n) == if duck {
            seq![Mix::Envelope, Mix::Sidechain, Mix::Direct]
        } else {
            seq![Mix::Direct]
        },
        ways(first_of(false, false, duck), false, n) == seq![Mix::Alone],
{
    reveal_with_fuel(ways, 4);
}

/// Under a voice over the sound is lowered; a dub without music stands alone; with music it is lowered where that is asked
/// for, and else mixed as it is.
pub proof fn law_what_is_tried_first(voiceover: bool, music: bool, duck: bool)
    ensures
        first_of(voiceover, music, duck) == Mix::Envelope <==> voiceover || (music && duck),
        first_of(voiceover, music, duck) == Mix::Alone <==> !voiceover && !music,
        first_of(voiceover, music, duck) == Mix::Direct <==> !voiceover && music && !duck,
        next_of(Mix::Alone, voiceover) is None && next_of(Mix::Direct, voiceover) is None && next_of(Mix::Flat, voiceover)
            is None,
        next_of(Mix::Sidechain, voiceover) == Some(Mix::Direct),
        next_of(Mix::Envelope, true) == Some(Mix::Flat) && next_of(Mix::Envelope, false) == Some(Mix::Sidechain),
{
}

} // verus!
