//! What a casting says of its characters: how they speak, with whose voice, and how they are written down.

use crate::casting::ranking::Talker;
use crate::casting_library;
use crate::dub::voices;
use crate::text;
use crate::words;
use vstd::prelude::*;

verus! {

/// A character of the film.
#[derive(Clone, Debug)]
pub struct Character {
    pub id: String,
    pub name: String,
    pub gender: String,
    /// How the character speaks, for the translation.
    pub speech_note: String,
    /// The voice of the dub: empty or `clone` for the character's own.
    pub dub_voice: String,
    pub speaker_ids: Vec<String>,
    /// The picture of the character, empty where there is none.
    pub sample_frame: String,
}

/// The characters of a film.
#[derive(Clone, Debug)]
pub struct Casting {
    pub content_type: String,
    pub characters: Vec<Character>,
}

impl Default for Character {
    fn default() -> (r: Character)
        ensures
            r.id@.len() == 0,
            r.name@.len() == 0,
            r.gender@.len() == 0,
            r.speech_note@.len() == 0,
            r.dub_voice@.len() == 0,
            r.speaker_ids@.len() == 0,
            r.sample_frame@.len() == 0,
    {
        Character {
            id: String::new(),
            name: String::new(),
            gender: String::new(),
            speech_note: String::new(),
            dub_voice: String::new(),
            speaker_ids: Vec::new(),
            sample_frame: String::new(),
        }
    }
}

impl Default for Casting {
    fn default() -> (r: Casting)
        ensures
            r.content_type@.len() == 0,
            r.characters@.len() == 0,
    {
        Casting { content_type: String::new(), characters: Vec::new() }
    }
}

// ── How they speak ──────────────────────────────────────────────────────────

/// Whom a note is of: the character's name, else the speakers.
pub open spec fn note_of_whom(c: Character) -> Seq<char> {
    let name = text::trimmed(c.name@);
    if name.len() == 0 {
        words::joined(text::views(c.speaker_ids@), ","@)
    } else {
        name
    }
}

/// A character's note as it stands in the style.
pub open spec fn note_line(c: Character) -> Seq<char> {
    let note = text::trimmed(c.speech_note@);
    let who = note_of_whom(c);
    if who.len() == 0 {
        note
    } else {
        who + ": "@ + note
    }
}

/// The notes of the characters that have one.
pub open spec fn note_lines(cs: Seq<Character>) -> Seq<Seq<char>>
    decreases cs.len(),
{
    if cs.len() == 0 {
        Seq::empty()
    } else if text::trimmed(cs.last().speech_note@).len() == 0 {
        note_lines(cs.drop_last())
    } else {
        note_lines(cs.drop_last()).push(note_line(cs.last()))
    }
}

/// The characters' notes as one line for the style of the translation, empty where there are none.
pub fn speech_notes_to_style(casting: &Casting) -> (r: String)
    ensures
        r@ == words::joined(note_lines(casting.characters@), "; "@),
{
    let cs = &casting.characters;
    let mut parts: Vec<String> = Vec::new();
    assert(cs@.take(0) =~= Seq::empty());
    assert(text::views(parts@) =~= Seq::empty());
    for i in 0..cs.len()
        invariant
            text::views(parts@) == note_lines(cs@.take(i as int)),
    {
        assert(cs@.take(i + 1).drop_last() =~= cs@.take(i as int));
        let c = &cs[i];
        let note = text::trim(c.speech_note.as_str());
        if !note.as_str().is_empty() {
            let name = text::trim(c.name.as_str());
            let who = if name.as_str().is_empty() {
                words::join(&c.speaker_ids, ",")
            } else {
                name
            };
            let line = if who.as_str().is_empty() {
                note
            } else {
                let mut l = who;
                l.append(": ");
                l.append(note.as_str());
                l
            };
            let ghost was = text::views(parts@);
            parts.push(line);
            assert(text::views(parts@) =~= was.push(note_line(*c)));
        }
    }
    assert(cs@.take(cs@.len() as int) =~= cs@);
    words::join(&parts, "; ")
}

// ── With whose voice ────────────────────────────────────────────────────────

pub open spec fn opt(s: Option<String>) -> Option<Seq<char>> {
    match s {
        Some(t) => Some(t@),
        None => None,
    }
}

/// The voice of a character's dub; nothing where it is the character's own.
pub open spec fn voice_of(c: Character) -> Option<Seq<char>> {
    let v = text::trimmed(c.dub_voice@);
    if v.len() == 0 || text::ascii_lower(v) == "clone"@ {
        None
    } else {
        Some(v)
    }
}

/// Each speaker of a character with the voice.
pub open spec fn speakers_with(spks: Seq<Seq<char>>, voice: Option<Seq<char>>) -> Seq<
    (Seq<char>, Option<Seq<char>>),
> {
    spks.map_values(|s: Seq<char>| (s, voice))
}

/// The speakers of the characters with their voices.
pub open spec fn voice_pairs(cs: Seq<Character>) -> Seq<(Seq<char>, Option<Seq<char>>)>
    decreases cs.len(),
{
    if cs.len() == 0 {
        Seq::empty()
    } else {
        voice_pairs(cs.drop_last()) + speakers_with(
            text::views(cs.last().speaker_ids@),
            voice_of(cs.last()),
        )
    }
}

pub open spec fn map_views(v: Seq<(String, Option<String>)>) -> Seq<(Seq<char>, Option<Seq<char>>)> {
    v.map_values(|p: (String, Option<String>)| (p.0@, opt(p.1)))
}

/// What the casting says of a speaker's voice: the last entry counts; nothing where there is none.
pub open spec fn mapped(list: Seq<(Seq<char>, Option<Seq<char>>)>, who: Seq<char>) -> Option<
    Option<Seq<char>>,
>
    decreases list.len(),
{
    if list.len() == 0 {
        None
    } else if list.last().0 == who {
        Some(list.last().1)
    } else {
        mapped(list.drop_last(), who)
    }
}

fn find_voice(c: &Character) -> (r: Option<String>)
    ensures
        opt(r) == voice_of(*c),
{
    let v = text::trim(c.dub_voice.as_str());
    if v.as_str().is_empty() || text::same(text::lower_ascii(v.as_str()).as_str(), "clone") {
        None
    } else {
        Some(v)
    }
}

fn copy_voice(v: &Option<String>) -> (r: Option<String>)
    ensures
        opt(r) == opt(*v),
{
    match v {
        Some(s) => Some(s.clone()),
        None => None,
    }
}

/// The speakers of the characters with the voices of the dub; of a speaker that occurs twice the later
/// entry counts.
pub fn casting_voice_map(casting: &Casting) -> (r: Vec<(String, Option<String>)>)
    ensures
        map_views(r@) == voice_pairs(casting.characters@),
{
    let cs = &casting.characters;
    let mut out: Vec<(String, Option<String>)> = Vec::new();
    assert(cs@.take(0) =~= Seq::empty());
    assert(map_views(out@) =~= Seq::empty());
    for i in 0..cs.len()
        invariant
            map_views(out@) == voice_pairs(cs@.take(i as int)),
    {
        assert(cs@.take(i + 1).drop_last() =~= cs@.take(i as int));
        let c = &cs[i];
        let voice = find_voice(c);
        let ghost head = map_views(out@);
        let ghost spks = text::views(c.speaker_ids@);
        assert(head + speakers_with(spks.take(0), opt(voice)) =~= head);
        for k in 0..c.speaker_ids.len()
            invariant
                spks == text::views(c.speaker_ids@),
                map_views(out@) == head + speakers_with(spks.take(k as int), opt(voice)),
        {
            let ghost was = map_views(out@);
            out.push((c.speaker_ids[k].clone(), copy_voice(&voice)));
            assert(map_views(out@) =~= was.push((spks[k as int], opt(voice))));
            assert(map_views(out@) =~= head + speakers_with(spks.take(k + 1), opt(voice)));
        }
        assert(spks.take(spks.len() as int) =~= spks);
    }
    assert(cs@.take(cs@.len() as int) =~= cs@);
    out
}

/// What the casting says of a speaker's voice.
pub fn voice_in(map: &Vec<(String, Option<String>)>, who: &str) -> (r: Option<Option<String>>)
    ensures
        (match r {
            Some(v) => Some(opt(v)),
            None => None,
        }) == mapped(map_views(map@), who@),
{
    let ghost mv = map_views(map@);
    let mut n: usize = map.len();
    assert(mv.take(n as int) =~= mv);
    while n > 0
        invariant
            n <= map@.len(),
            mv == map_views(map@),
            mapped(mv, who@) == mapped(mv.take(n as int), who@),
        decreases n,
    {
        assert(mv.take(n as int).last() == (map@[n - 1].0@, opt(map@[n - 1].1)));
        if text::same(map[n - 1].0.as_str(), who) {
            return Some(copy_voice(&map[n - 1].1));
        }
        assert(mv.take(n as int).drop_last() =~= mv.take(n - 1));
        n -= 1;
    }
    None
}

/// The voice of the speaker in the place `i`: what the casting says, else what was there, else their own.
pub open spec fn slot_of(
    who: Seq<char>,
    map: Seq<(Seq<char>, Option<Seq<char>>)>,
    earlier: Seq<Seq<char>>,
    i: int,
) -> Seq<char> {
    match mapped(map, who) {
        Some(Some(v)) => v,
        Some(None) => voices::CLONE_SLOT@,
        None => if i < earlier.len() && earlier[i].len() > 0 {
            earlier[i]
        } else {
            voices::CLONE_SLOT@
        },
    }
}

/// The voices of the speakers.
pub open spec fn slots(
    spks: Seq<Seq<char>>,
    map: Seq<(Seq<char>, Option<Seq<char>>)>,
    earlier: Seq<Seq<char>>,
) -> Seq<Seq<char>> {
    Seq::new(spks.len(), |i: int| slot_of(spks[i], map, earlier, i))
}

/// The names that were chosen before: only where names were in use.
pub open spec fn earlier_names(old: Option<Seq<char>>, in_use: bool) -> Seq<Seq<char>> {
    if in_use {
        voices::names_in(
            match old {
                Some(s) => s,
                None => ""@,
            },
        )
    } else {
        Seq::empty()
    }
}

/// The list of the speakers' voices, separated by commas: what the casting says of a speaker comes in the
/// place of what was there, the others keep theirs.
pub fn merge_voice_csv(
    sorted_speakers: &Vec<String>,
    vmap: &Vec<(String, Option<String>)>,
    old_name: Option<&str>,
    old_csv_is_voice: bool,
) -> (r: String)
    ensures
        r@ == words::joined(
            slots(
                text::views(sorted_speakers@),
                map_views(vmap@),
                earlier_names(
                    match old_name {
                        Some(s) => Some(s@),
                        None => None,
                    },
                    old_csv_is_voice,
                ),
            ),
            ","@,
        ),
{
    let earlier: Vec<String> = if old_csv_is_voice {
        voices::read_names(
            match old_name {
                Some(s) => s,
                None => "",
            },
        )
    } else {
        Vec::new()
    };
    let ghost ev = text::views(earlier@);
    assert(!old_csv_is_voice ==> ev =~= Seq::<Seq<char>>::empty());
    let ghost sv = text::views(sorted_speakers@);
    let mut parts: Vec<String> = Vec::new();
    for i in 0..sorted_speakers.len()
        invariant
            sv == text::views(sorted_speakers@),
            ev == text::views(earlier@),
            parts@.len() == i,
            forall|j: int|
                0 <= j < i ==> (#[trigger] parts@[j])@ == slot_of(sv[j], map_views(vmap@), ev, j),
    {
        let slot = match voice_in(vmap, sorted_speakers[i].as_str()) {
            Some(Some(v)) => v,
            Some(None) => voices::CLONE_SLOT.to_owned(),
            None => if i < earlier.len() && !earlier[i].as_str().is_empty() {
                earlier[i].clone()
            } else {
                voices::CLONE_SLOT.to_owned()
            },
        };
        parts.push(slot);
    }
    assert(text::views(parts@) =~= slots(sv, map_views(vmap@), ev));
    words::join(&parts, ",")
}

// ── Building and comparing ──────────────────────────────────────────────────

/// The film is drawn.
pub open spec fn drawn(content_type: Seq<char>) -> bool {
    text::ascii_lower(content_type) == "anime"@
}

pub open spec fn kind_name(anime: bool) -> Seq<char> {
    if anime {
        "anime"@
    } else {
        "real"@
    }
}

/// Whether the film is drawn.
pub fn is_anime(content_type: &str) -> (r: bool)
    ensures
        r == drawn(content_type@),
{
    text::same(text::lower_ascii(content_type).as_str(), "anime")
}

/// The kind of film that a casting is written down with.
pub fn kind(anime: bool) -> (r: &'static str)
    ensures
        r@ == kind_name(anime),
{
    if anime {
        "anime"
    } else {
        "real"
    }
}

/// Whether the characters of an earlier casting can be found again: the films are of one kind. A casting
/// without a kind is of a real film.
pub fn comparable(earlier_type: &str, anime: bool) -> (r: bool)
    ensures
        r == ((if earlier_type@.len() == 0 {
            "real"@
        } else {
            earlier_type@
        }) == kind_name(anime)),
{
    let t = if earlier_type.is_empty() {
        "real"
    } else {
        earlier_type
    };
    text::same(t, kind(anime))
}

/// What is known of a speaker beside the lines.
#[derive(Clone, Debug)]
pub struct Known {
    /// Empty where it is not certain.
    pub gender: String,
    /// The picture, empty where there is none.
    pub sample_frame: String,
}

/// The name of the character in the place `i`.
pub open spec fn char_id(i: int) -> Seq<char> {
    "char_"@ + text::decimal(i as nat)
}

/// The character of a speaker.
pub open spec fn is_character(c: Character, i: int, spk: Seq<char>, k: Known) -> bool {
    &&& c.id@ == char_id(i)
    &&& c.name@.len() == 0
    &&& c.gender@ == k.gender@
    &&& c.speech_note@.len() == 0
    &&& c.dub_voice@.len() == 0
    &&& text::views(c.speaker_ids@) == seq![spk]
    &&& c.sample_frame@ == k.sample_frame@
}

/// A character for each speaker, in the order of the speakers.
pub fn build_characters(ranked: &Vec<Talker>, known: &Vec<Known>) -> (r: Vec<Character>)
    requires
        ranked@.len() == known@.len(),
    ensures
        r@.len() == ranked@.len(),
        forall|i: int|
            0 <= i < r@.len() ==> is_character(
                #[trigger] r@[i],
                i,
                ranked@[i].speaker@,
                known@[i],
            ),
{
    let mut out: Vec<Character> = Vec::new();
    for i in 0..ranked.len()
        invariant
            ranked@.len() == known@.len(),
            out@.len() == i,
            forall|j: int|
                0 <= j < i ==> is_character(
                    #[trigger] out@[j],
                    j,
                    ranked@[j].speaker@,
                    known@[j],
                ),
    {
        let mut id = "char_".to_owned();
        id.append(text::to_decimal(i as u64).as_str());
        let spks: Vec<String> = vec![ranked[i].speaker.clone()];
        assert(text::views(spks@) =~= seq![ranked@[i as int].speaker@]);
        out.push(
            Character {
                id,
                name: String::new(),
                gender: known[i].gender.clone(),
                speech_note: String::new(),
                dub_voice: String::new(),
                speaker_ids: spks,
                sample_frame: known[i].sample_frame.clone(),
            },
        );
    }
    out
}

/// How many characters carry a name.
pub open spec fn named(cs: Seq<Character>) -> nat
    decreases cs.len(),
{
    if cs.len() == 0 {
        0
    } else {
        named(cs.drop_last()) + if cs.last().name@.len() > 0 {
            1nat
        } else {
            0nat
        }
    }
}

/// How many characters carry a name.
pub fn count_named(cs: &Vec<Character>) -> (r: usize)
    ensures
        r == named(cs@),
{
    let mut n: usize = 0;
    assert(cs@.take(0) =~= Seq::empty());
    for i in 0..cs.len()
        invariant
            n <= i,
            n == named(cs@.take(i as int)),
    {
        assert(cs@.take(i + 1).drop_last() =~= cs@.take(i as int));
        if !cs[i].name.as_str().is_empty() {
            n += 1;
        }
    }
    assert(cs@.take(cs@.len() as int) =~= cs@);
    n
}

/// Whether the casting runs.
#[derive(Clone, Copy, Debug, PartialEq, Eq, Structural)]
pub enum Stage {
    /// It was not asked for.
    Off,
    /// Nobody speaks.
    NoLines,
    Run,
}

/// Whether the casting runs.
pub fn stage(enabled: bool, lines: usize) -> (r: Stage)
    ensures
        r == if !enabled {
            Stage::Off
        } else if lines == 0 {
            Stage::NoLines
        } else {
            Stage::Run
        },
{
    if !enabled {
        Stage::Off
    } else if lines == 0 {
        Stage::NoLines
    } else {
        Stage::Run
    }
}

/// Which profile of the library is asked for.
#[derive(Clone, Debug)]
pub enum Profile {
    /// None.
    Nothing,
    /// One whose name leads out of the library.
    Refused(String),
    Named(String),
}

/// Which profile of the library is asked for.
pub fn profile(casting_ref: &str) -> (r: Profile)
    ensures
        ({
            let slug = text::trimmed(casting_ref@);
            match r {
                Profile::Nothing => slug.len() == 0,
                Profile::Refused(s) => s@ == slug && slug.len() > 0 && !casting_library::safe(slug),
                Profile::Named(s) => s@ == slug && casting_library::safe(slug),
            }
        }),
{
    let slug = text::trim(casting_ref);
    if slug.as_str().is_empty() {
        Profile::Nothing
    } else if casting_library::is_safe_slug(slug.as_str()) {
        Profile::Named(slug)
    } else {
        Profile::Refused(slug)
    }
}

/// The ASCII letters, digits and low lines of a text.
pub open spec fn plain(s: Seq<char>) -> Seq<char>
    decreases s.len(),
{
    if s.len() == 0 {
        Seq::empty()
    } else {
        let c = s.last();
        if text::is_ascii_letter(c) || text::is_digit(c) || c == '_' {
            plain(s.drop_last()).push(c)
        } else {
            plain(s.drop_last())
        }
    }
}

/// The text as a part of a file's name: its ASCII letters, digits and low lines.
pub fn sanitize(s: &str) -> (r: String)
    ensures
        r@ == plain(s@),
{
    let v = text::chars_of(s);
    let mut out: Vec<char> = Vec::new();
    assert(v@.take(0) =~= Seq::empty());
    for i in 0..v.len()
        invariant
            out@ == plain(v@.take(i as int)),
    {
        assert(v@.take(i + 1).drop_last() =~= v@.take(i as int));
        let c = v[i];
        if ('a' <= c && c <= 'z') || ('A' <= c && c <= 'Z') || text::digit(c) || c == '_' {
            out.push(c);
        }
    }
    assert(v@.take(v@.len() as int) =~= v@);
    text::text_of(&out)
}

// ── Laws ────────────────────────────────────────────────────────────────────

/// Merging keeps the place of every speaker that the casting does not speak of.
pub proof fn law_other_speakers_keep_their_voice(
    spks: Seq<Seq<char>>,
    map: Seq<(Seq<char>, Option<Seq<char>>)>,
    earlier: Seq<Seq<char>>,
    i: int,
)
    requires
        0 <= i < spks.len(),
        mapped(map, spks[i]) is None,
    ensures
        i < earlier.len() && earlier[i].len() > 0 ==> slots(spks, map, earlier)[i] == earlier[i],
        !(i < earlier.len() && earlier[i].len() > 0) ==> slots(spks, map, earlier)[i]
            == voices::CLONE_SLOT@,
{
}

/// Merging gives a speaker of the casting the voice of the casting.
pub proof fn law_casting_wins(
    spks: Seq<Seq<char>>,
    map: Seq<(Seq<char>, Option<Seq<char>>)>,
    earlier: Seq<Seq<char>>,
    i: int,
)
    requires
        0 <= i < spks.len(),
        mapped(map, spks[i]) is Some,
    ensures
        slots(spks, map, earlier)[i] == match mapped(map, spks[i])->0 {
            Some(v) => v,
            None => voices::CLONE_SLOT@,
        },
{
}

/// A note is told with the character's name, or with their speakers where they have none; a character without a
/// note is passed over, and the notes stand in the order of the characters.
pub proof fn law_notes_are_told(cs: Seq<Character>, c: Character)
    ensures
        note_lines(Seq::empty()) == Seq::<Seq<char>>::empty(),
        text::trimmed(c.speech_note@).len() == 0 ==> note_lines(cs.push(c)) == note_lines(cs),
        text::trimmed(c.speech_note@).len() > 0 ==> note_lines(cs.push(c)) == note_lines(cs).push(note_line(c)),
        text::trimmed(c.name@).len() > 0 ==> note_line(c) == text::trimmed(c.name@) + ": "@ + text::trimmed(
            c.speech_note@,
        ),
        text::trimmed(c.name@).len() == 0 && words::joined(text::views(c.speaker_ids@), ","@).len() > 0
            ==> note_line(c) == words::joined(text::views(c.speaker_ids@), ","@) + ": "@ + text::trimmed(
            c.speech_note@,
        ),
{
    assert(cs.push(c).drop_last() =~= cs);
}

/// Each speaker of a character is spoken by the character's voice; one that is left open, or called a clone in
/// any case of letters, is the speaker's own.
pub proof fn law_characters_give_voices(cs: Seq<Character>, c: Character, k: int)
    ensures
        voice_pairs(Seq::empty()).len() == 0,
        voice_pairs(cs.push(c)).len() == voice_pairs(cs).len() + c.speaker_ids@.len(),
        0 <= k < voice_pairs(cs).len() ==> voice_pairs(cs.push(c))[k] == voice_pairs(cs)[k],
        0 <= k < c.speaker_ids@.len() ==> voice_pairs(cs.push(c))[voice_pairs(cs).len() + k] == (
            c.speaker_ids@[k]@,
            if text::trimmed(c.dub_voice@).len() == 0 || text::ascii_lower(text::trimmed(c.dub_voice@))
                == "clone"@ {
                None
            } else {
                Some(text::trimmed(c.dub_voice@))
            },
        ),
{
    assert(cs.push(c).drop_last() =~= cs);
    assert(text::views(c.speaker_ids@).len() == c.speaker_ids@.len());
}

/// Of what the casting says of a speaker the last counts.
pub proof fn law_last_word_counts(
    list: Seq<(Seq<char>, Option<Seq<char>>)>,
    e: (Seq<char>, Option<Seq<char>>),
    who: Seq<char>,
)
    ensures
        mapped(Seq::empty(), who) is None,
        e.0 == who ==> mapped(list.push(e), who) == Some(e.1),
        e.0 != who ==> mapped(list.push(e), who) == mapped(list, who),
{
    assert(list.push(e).drop_last() =~= list);
}

/// The names that were chosen before count only where names were in use.
pub proof fn law_earlier_names_count_if_in_use(old: Seq<char>)
    ensures
        earlier_names(Some(old), true) == voices::names_in(old),
        earlier_names(Some(old), false).len() == 0 && earlier_names(None, false).len() == 0,
{
}

/// The characters that carry a name are counted one by one.
pub proof fn law_named_characters_are_counted(cs: Seq<Character>, c: Character)
    ensures
        named(Seq::empty()) == 0,
        named(cs.push(c)) == named(cs) + (if c.name@.len() > 0 {
            1nat
        } else {
            0nat
        }),
{
    assert(cs.push(c).drop_last() =~= cs);
}

/// A name keeps its ASCII letters, digits and low lines, in their order, and nothing else.
pub proof fn law_plain_names(s: Seq<char>)
    ensures
        plain(s) == s.filter(
            |c: char|
                ('a' <= c && c <= 'z') || ('A' <= c && c <= 'Z') || ('0' <= c && c <= '9') || c == '_',
        ),
    decreases s.len(),
{
    reveal(Seq::filter);
    if s.len() > 0 {
        law_plain_names(s.drop_last());
    }
}

} // verus!
