//! Who speaks a line: a voice that was chosen for a speaker, or the speaker's own.

use crate::order;
use crate::project::Segment;
use crate::text;
use crate::words;
use vstd::prelude::*;

verus! {

/// In a list of voices, the place of a speaker who keeps their own voice.
pub const CLONE_SLOT: &'static str = "-";

pub open spec fn speaker_list(segs: Seq<Segment>) -> Seq<Seq<char>> {
    segs.map_values(|s: Segment| s.who())
}

/// The speakers, each once, in dictionary order.
pub fn speakers_of(segs: &Vec<Segment>) -> (r: Vec<String>)
    ensures
        order::sorted_set_of(text::views(r@), speaker_list(segs@)),
{
    let mut all: Vec<String> = Vec::new();
    for i in 0..segs.len()
        invariant
            all@.len() == i,
            forall|j: int| 0 <= j < i ==> (#[trigger] all@[j])@ == segs@[j].who(),
    {
        all.push(segs[i].speaker_key());
    }
    assert(text::views(all@) =~= speaker_list(segs@));
    order::sorted_set(all)
}

/// The names in a list that is separated by commas.
pub open spec fn names_in(csv: Seq<char>) -> Seq<Seq<char>> {
    text::pieces(csv, ',').map_values(|n: Seq<char>| text::trimmed(n))
}

/// The names in a list that is separated by commas.
pub fn read_names(csv: &str) -> (r: Vec<String>)
    ensures
        text::views(r@) == names_in(csv@),
{
    let parts = text::split_at_each(csv, ',');
    let ghost pv = text::pieces(csv@, ',');
    let mut out: Vec<String> = Vec::new();
    for i in 0..parts.len()
        invariant
            text::views(parts@) == pv,
            pv == text::pieces(csv@, ','),
            out@.len() == i,
            forall|j: int| 0 <= j < i ==> (#[trigger] out@[j])@ == names_in(csv@)[j],
    {
        assert(text::views(parts@)[i as int] == parts@[i as int]@);
        out.push(text::trim(parts[i].as_str()));
    }
    assert(text::views(out@) =~= names_in(csv@));
    out
}

/// A name that stands for a voice.
pub open spec fn is_voice(n: Seq<char>) -> bool {
    n.len() > 0 && n != CLONE_SLOT@
}

fn names_voice(n: &str) -> (r: bool)
    ensures
        r == is_voice(n@),
{
    !n.is_empty() && !text::same(n, CLONE_SLOT)
}

/// The first name that stands for a voice.
pub open spec fn first_voice(names: Seq<Seq<char>>) -> Option<Seq<char>>
    decreases names.len(),
{
    if names.len() == 0 {
        None
    } else if is_voice(names[0]) {
        Some(names[0])
    } else {
        first_voice(names.drop_first())
    }
}

fn find_voice(names: &Vec<String>) -> (r: Option<String>)
    ensures
        (match r {
            Some(s) => Some(s@),
            None => None,
        }) == first_voice(text::views(names@)),
{
    let ghost nv = text::views(names@);
    assert(nv.skip(0) =~= nv);
    for i in 0..names.len()
        invariant
            nv == text::views(names@),
            first_voice(nv) == first_voice(nv.skip(i as int)),
    {
        assert(nv.skip(i as int)[0] == names@[i as int]@);
        assert(nv.skip(i as int).drop_first() =~= nv.skip(i + 1));
        if names_voice(names[i].as_str()) {
            return Some(names[i].clone());
        }
    }
    assert(nv.skip(names@.len() as int).len() == 0);
    None
}

/// The voice of a speaker.
#[derive(Clone, Debug)]
pub enum VoiceChoice {
    /// Their own.
    Clone,
    /// The voice of that name.
    Named(String),
}

/// The voice of a speaker, as a value: nothing for their own.
pub open spec fn choice_view(c: VoiceChoice) -> Option<Seq<char>> {
    match c {
        VoiceChoice::Clone => None,
        VoiceChoice::Named(n) => Some(n@),
    }
}

/// The voice of the speaker number `i`: the name in that place, in an empty place the first voice.
pub open spec fn pack_choice(names: Seq<Seq<char>>, first: Seq<char>, i: int) -> Option<Seq<char>> {
    let n = if 0 <= i < names.len() && names[i].len() > 0 {
        names[i]
    } else {
        first
    };
    if n == CLONE_SLOT@ {
        None
    } else {
        Some(n)
    }
}

/// The voices of `count` speakers by a list of names; none if the list names no voice.
pub open spec fn pack_choices(csv: Seq<char>, count: nat) -> Seq<Option<Seq<char>>> {
    match first_voice(names_in(csv)) {
        Some(first) => Seq::new(count, |i: int| pack_choice(names_in(csv), first, i)),
        None => Seq::empty(),
    }
}

pub open spec fn choice_views(cs: Seq<VoiceChoice>) -> Seq<Option<Seq<char>>> {
    cs.map_values(|c: VoiceChoice| choice_view(c))
}

/// The voices of `count` speakers by a list of names.
pub fn pack_plan(csv: &str, count: usize) -> (r: Vec<VoiceChoice>)
    ensures
        choice_views(r@) == pack_choices(csv@, count as nat),
{
    let names = read_names(csv);
    let ghost nv = names_in(csv@);
    let mut out: Vec<VoiceChoice> = Vec::new();
    assert(nv.len() == names@.len());
    assert(choice_views(out@) =~= Seq::empty());
    if let Some(first) = find_voice(&names) {
        for i in 0..count
            invariant
                nv == text::views(names@),
                nv.len() == names@.len(),
                out@.len() == i,
                forall|j: int|
                    0 <= j < i ==> choice_view(#[trigger] out@[j]) == pack_choice(nv, first@, j),
        {
            let n = if i < names.len() && !names[i].as_str().is_empty() {
                assert(nv[i as int] == names@[i as int]@);
                names[i].clone()
            } else {
                assert(i < nv.len() ==> nv[i as int] == names@[i as int]@);
                first.clone()
            };
            if text::same(n.as_str(), CLONE_SLOT) {
                out.push(VoiceChoice::Clone);
            } else {
                out.push(VoiceChoice::Named(n));
            }
        }
        assert(choice_views(out@) =~= pack_choices(csv@, count as nat));
    }
    out
}

/// The names that a speaker is given by hand for the cloud: the one in their place, if it stands for a
/// voice.
pub open spec fn by_hand(names: Seq<Seq<char>>, i: int) -> Option<Seq<char>> {
    if 0 <= i < names.len() && is_voice(names[i]) {
        Some(names[i])
    } else {
        None
    }
}

/// The voice that `list` gives to `who`: that of the first pair for them.
pub open spec fn assigned(list: Seq<(Seq<char>, Seq<char>)>, who: Seq<char>) -> Option<Seq<char>>
    decreases list.len(),
{
    if list.len() == 0 {
        None
    } else if list[0].0 == who {
        Some(list[0].1)
    } else {
        assigned(list.drop_first(), who)
    }
}

pub open spec fn pair_views(list: Seq<(String, String)>) -> Seq<(Seq<char>, Seq<char>)> {
    list.map_values(|p: (String, String)| (p.0@, p.1@))
}

/// The voice that `list` gives to `who`.
pub fn find_assigned(list: &Vec<(String, String)>, who: &str) -> (r: Option<String>)
    ensures
        (match r {
            Some(s) => Some(s@),
            None => None,
        }) == assigned(pair_views(list@), who@),
{
    let ghost lv = pair_views(list@);
    assert(lv.skip(0) =~= lv);
    for i in 0..list.len()
        invariant
            lv == pair_views(list@),
            assigned(lv, who@) == assigned(lv.skip(i as int), who@),
    {
        assert(lv.skip(i as int)[0] == (list@[i as int].0@, list@[i as int].1@));
        assert(lv.skip(i as int).drop_first() =~= lv.skip(i + 1));
        if text::same(list[i].0.as_str(), who) {
            return Some(list[i].1.clone());
        }
    }
    assert(lv.skip(list@.len() as int).len() == 0);
    None
}

/// The voice of the speaker number `i` in the cloud: the one chosen by hand, else the one that was
/// cast.
pub open spec fn cloud_choice(
    by_name: bool,
    names: Seq<Seq<char>>,
    cast: Seq<(Seq<char>, Seq<char>)>,
    speakers: Seq<Seq<char>>,
    i: int,
) -> Option<Seq<char>> {
    if by_name && by_hand(names, i) is Some {
        by_hand(names, i)
    } else {
        assigned(cast, speakers[i])
    }
}

/// The voices in the cloud of the `speakers`: by hand where the voice mode is "voice" and the list has
/// a voice in their place, else as cast. A speaker with neither has the default voice.
pub fn cloud_voices(
    voice_mode: &str,
    csv: &str,
    speakers: &Vec<String>,
    cast: &Vec<(String, String)>,
) -> (r: Vec<Option<String>>)
    ensures
        r@.len() == speakers@.len(),
        forall|i: int|
            0 <= i < r@.len() ==> (match #[trigger] r@[i] {
                Some(s) => Some(s@),
                None => None,
            }) == cloud_choice(
                voice_mode@ == "voice"@,
                names_in(csv@),
                pair_views(cast@),
                text::views(speakers@),
                i,
            ),
{
    let by_name = text::same(voice_mode, "voice");
    let names = read_names(csv);
    let ghost nv = names_in(csv@);
    let mut out: Vec<Option<String>> = Vec::new();
    for i in 0..speakers.len()
        invariant
            nv == text::views(names@),
            out@.len() == i,
            forall|j: int|
                0 <= j < i ==> (match #[trigger] out@[j] {
                    Some(s) => Some(s@),
                    None => None,
                }) == cloud_choice(by_name, nv, pair_views(cast@), text::views(speakers@), j),
    {
        assert(nv.len() == names@.len());
        assert(text::views(speakers@)[i as int] == speakers@[i as int]@);
        let mut chosen: Option<String> = None;
        if by_name && i < names.len() {
            assert(nv[i as int] == names@[i as int]@);
            if names_voice(names[i].as_str()) {
                chosen = Some(names[i].clone());
            }
        }
        if chosen.is_none() {
            chosen = find_assigned(cast, speakers[i].as_str());
        }
        out.push(chosen);
    }
    out
}

// ── References ──────────────────────────────────────────────────────────────

/// Where the sample comes from that a line is spoken after.
#[derive(Clone, Copy, Debug, PartialEq, Eq, Structural)]
pub enum Reference {
    /// The chosen voice of its speaker.
    Pack,
    /// A sample of its speaker.
    Own,
    /// The first sample there is.
    First,
}

pub open spec fn among(list: Seq<Seq<char>>, x: Seq<char>) -> bool {
    exists|i: int| 0 <= i < list.len() && #[trigger] list[i] == x
}

fn is_among(list: &Vec<String>, x: &str) -> (r: bool)
    ensures
        r == among(text::views(list@), x@),
{
    let ghost v = text::views(list@);
    for i in 0..list.len()
        invariant
            v == text::views(list@),
            forall|j: int| 0 <= j < i ==> #[trigger] v[j] != x@,
    {
        assert(v[i as int] == list@[i as int]@);
        if text::same(list[i].as_str(), x) {
            return true;
        }
    }
    false
}

/// The sample for a line of the speaker `speaker`: with chosen voices (`packs` names the speakers who
/// have one) that voice, else a sample of their own (`owns` names the speakers who have one); without
/// chosen voices a sample of their own if the line has a speaker.
pub open spec fn reference_of(
    packs: Seq<Seq<char>>,
    owns: Seq<Seq<char>>,
    speaker: Option<Seq<char>>,
) -> Reference {
    let key = match speaker {
        Some(s) => s,
        None => "0"@,
    };
    if packs.len() > 0 {
        if among(packs, key) {
            Reference::Pack
        } else if among(owns, key) {
            Reference::Own
        } else {
            Reference::First
        }
    } else if speaker is Some && among(owns, key) {
        Reference::Own
    } else {
        Reference::First
    }
}

/// The sample for a line.
pub fn reference_for(packs: &Vec<String>, owns: &Vec<String>, s: &Segment) -> (r: Reference)
    ensures
        r == reference_of(
            text::views(packs@),
            text::views(owns@),
            match s.speaker {
                Some(x) => Some(x@),
                None => None,
            },
        ),
{
    let key = s.speaker_key();
    let has_speaker = s.speaker.is_some();
    assert(text::views(packs@).len() == packs@.len());
    if packs.len() > 0 {
        if is_among(packs, key.as_str()) {
            Reference::Pack
        } else if is_among(owns, key.as_str()) {
            Reference::Own
        } else {
            Reference::First
        }
    } else if has_speaker && is_among(owns, key.as_str()) {
        Reference::Own
    } else {
        Reference::First
    }
}

/// What is said in the sample for a line of the speaker `key`: what is known of their own sample; for a
/// speaker without one, whose lines follow the first sample, what is said in that.
pub open spec fn reference_text(
    packs: Seq<Seq<char>>,
    owns: Seq<Seq<char>>,
    texts: Seq<(Seq<char>, Seq<char>)>,
    key: Seq<char>,
) -> Option<Seq<char>> {
    match assigned(texts, key) {
        Some(t) => Some(t),
        None => if among(owns, key) || among(packs, key) {
            None
        } else if texts.len() > 0 {
            Some(texts[0].1)
        } else {
            None
        },
    }
}

/// What is said in the sample for a line. `texts` is what is said in the samples, by speaker in
/// dictionary order.
pub fn reference_text_for(
    packs: &Vec<String>,
    owns: &Vec<String>,
    texts: &Vec<(String, String)>,
    s: &Segment,
) -> (r: Option<String>)
    ensures
        (match r {
            Some(t) => Some(t@),
            None => None,
        }) == reference_text(
            text::views(packs@),
            text::views(owns@),
            pair_views(texts@),
            s.who(),
        ),
{
    let key = s.speaker_key();
    let known = find_assigned(texts, key.as_str());
    if known.is_some() {
        return known;
    }
    if is_among(owns, key.as_str()) || is_among(packs, key.as_str()) {
        return None;
    }
    assert(pair_views(texts@).len() == texts@.len());
    if texts.len() > 0 {
        assert(pair_views(texts@)[0] == (texts@[0].0@, texts@[0].1@));
        Some(texts[0].1.clone())
    } else {
        None
    }
}

// ── Laws ────────────────────────────────────────────────────────────────────

/// Every speaker has a place in the plan as soon as one voice is named, and a plan without a named
/// voice is empty.
pub proof fn law_pack_plan_is_all_or_nothing(csv: Seq<char>, count: nat)
    ensures
        pack_choices(csv, count).len() == (if first_voice(names_in(csv)) is Some {
            count
        } else {
            0
        }),
        forall|i: int|
            0 <= i < pack_choices(csv, count).len() ==> (#[trigger] pack_choices(csv, count)[i]
                matches Some(n) ==> is_voice(n)),
{
    lemma_first_voice(names_in(csv));
}

proof fn lemma_first_voice(names: Seq<Seq<char>>)
    ensures
        first_voice(names) matches Some(n) ==> is_voice(n),
    decreases names.len(),
{
    if names.len() > 0 {
        lemma_first_voice(names.drop_first());
    }
}

/// A voice chosen by hand is never replaced by one that was cast.
pub proof fn law_hand_goes_before_cast(
    names: Seq<Seq<char>>,
    cast: Seq<(Seq<char>, Seq<char>)>,
    speakers: Seq<Seq<char>>,
    i: int,
)
    requires
        by_hand(names, i) is Some,
    ensures
        cloud_choice(true, names, cast, speakers, i) == by_hand(names, i),
{
}

/// The names in a list are what stands between its commas, without the white space around it. Every list is
/// made of such parts.
pub proof fn law_names_stand_between_commas(parts: Seq<Seq<char>>)
    requires
        parts.len() > 0,
        forall|k: int| 0 <= k < parts.len() ==> !(#[trigger] parts[k]).contains(','),
    ensures
        names_in(words::joined(parts, seq![','])).len() == parts.len(),
        forall|k: int|
            0 <= k < parts.len() ==> #[trigger] names_in(words::joined(parts, seq![',']))[k]
                == text::trimmed(parts[k]),
{
    words::law_joined_texts_are_the_pieces(parts, ',');
}

/// The place of the first name that is neither empty nor the sign for a speaker's own voice.
proof fn lemma_first_voice_is(names: Seq<Seq<char>>, k: int)
    requires
        0 <= k < names.len(),
        names[k].len() > 0 && names[k] != "-"@,
        forall|j: int| 0 <= j < k ==> (#[trigger] names[j]).len() == 0 || names[j] == "-"@,
    ensures
        first_voice(names) == Some(names[k]),
    decreases k,
{
    if k > 0 {
        let rest = names.drop_first();
        assert(names[0].len() == 0 || names[0] == "-"@);
        assert forall|j: int| 0 <= j < k - 1 implies (#[trigger] rest[j]).len() == 0 || rest[j] == "-"@ by {
            assert(rest[j] == names[j + 1]);
        }
        lemma_first_voice_is(rest, k - 1);
    }
}

proof fn lemma_no_first_voice(names: Seq<Seq<char>>)
    requires
        forall|j: int| 0 <= j < names.len() ==> (#[trigger] names[j]).len() == 0 || names[j] == "-"@,
    ensures
        first_voice(names) is None,
    decreases names.len(),
{
    if names.len() > 0 {
        let rest = names.drop_first();
        assert(names[0].len() == 0 || names[0] == "-"@);
        assert forall|j: int| 0 <= j < rest.len() implies (#[trigger] rest[j]).len() == 0 || rest[j]
            == "-"@ by {
            assert(rest[j] == names[j + 1]);
        }
        lemma_no_first_voice(rest);
    }
}

/// A speaker whose place in the list names a voice gets that voice, one whose place holds a dash keeps their
/// own, and only one with an empty place, or with none, gets the first voice that is named. `k` is the place
/// of that one.
pub proof fn law_everyone_gets_the_voice_in_their_place(csv: Seq<char>, count: nat, k: int)
    requires
        0 <= k < names_in(csv).len(),
        names_in(csv)[k].len() > 0 && names_in(csv)[k] != "-"@,
        forall|j: int|
            0 <= j < k ==> (#[trigger] names_in(csv)[j]).len() == 0 || names_in(csv)[j] == "-"@,
    ensures
        pack_choices(csv, count).len() == count,
        forall|i: int|
            0 <= i < count ==> #[trigger] pack_choices(csv, count)[i] == (if i >= names_in(csv).len()
                || names_in(csv)[i].len() == 0 {
                Some(names_in(csv)[k])
            } else if names_in(csv)[i] == "-"@ {
                None
            } else {
                Some(names_in(csv)[i])
            }),
{
    reveal_strlit("-");
    lemma_first_voice_is(names_in(csv), k);
}

/// A list without a voice in it chooses none: everybody keeps their own.
pub proof fn law_no_voice_no_plan(csv: Seq<char>, count: nat)
    requires
        forall|j: int|
            0 <= j < names_in(csv).len() ==> (#[trigger] names_in(csv)[j]).len() == 0 || names_in(csv)[j]
                == "-"@,
    ensures
        pack_choices(csv, count).len() == 0,
{
    lemma_no_first_voice(names_in(csv));
}

/// In the cloud a speaker whose place in the list names a voice gets that voice where voices are chosen by
/// name; any other gets the voice that was cast for them first, or none where none was.
pub proof fn law_cloud_voice_is_chosen_or_cast(
    by_name: bool,
    names: Seq<Seq<char>>,
    cast: Seq<(Seq<char>, Seq<char>)>,
    speakers: Seq<Seq<char>>,
    i: int,
)
    requires
        0 <= i < speakers.len(),
    ensures
        ({
            let r = cloud_choice(by_name, names, cast, speakers, i);
            if by_name && i < names.len() && names[i].len() > 0 && names[i] != "-"@ {
                r == Some(names[i])
            } else {
                &&& r is None <==> forall|k: int|
                    0 <= k < cast.len() ==> (#[trigger] cast[k]).0 != speakers[i]
                &&& forall|k: int| #[trigger] first_for(cast, speakers[i], k) ==> r == Some(cast[k].1)
            }
        }),
{
    law_first_pair_counts(cast, speakers[i]);
}

/// Whether the pair at `k` is the first one for `who`.
pub open spec fn first_for(list: Seq<(Seq<char>, Seq<char>)>, who: Seq<char>, k: int) -> bool {
    0 <= k < list.len() && list[k].0 == who && forall|j: int| 0 <= j < k ==> (#[trigger] list[j]).0 != who
}

proof fn lemma_first_pair(list: Seq<(Seq<char>, Seq<char>)>, who: Seq<char>, k: int)
    requires
        first_for(list, who, k),
    ensures
        assigned(list, who) == Some(list[k].1),
    decreases k,
{
    if k > 0 {
        let rest = list.drop_first();
        assert(list[0].0 != who);
        assert forall|j: int| 0 <= j < k - 1 implies (#[trigger] rest[j]).0 != who by {
            assert(rest[j] == list[j + 1]);
        }
        lemma_first_pair(rest, who, k - 1);
    }
}

proof fn lemma_some_pair(list: Seq<(Seq<char>, Seq<char>)>, who: Seq<char>) -> (k: int)
    ensures
        assigned(list, who) is Some ==> 0 <= k < list.len() && list[k].0 == who,
        assigned(list, who) is None ==> forall|j: int|
            0 <= j < list.len() ==> (#[trigger] list[j]).0 != who,
    decreases list.len(),
{
    if list.len() == 0 || list[0].0 == who {
        0
    } else {
        let rest = list.drop_first();
        let k = lemma_some_pair(rest, who);
        if assigned(rest, who) is None {
            assert forall|j: int| 0 <= j < list.len() implies (#[trigger] list[j]).0 != who by {
                if j > 0 {
                    assert(list[j] == rest[j - 1]);
                }
            }
        }
        k + 1
    }
}

/// Of the pairs of a list the first one for somebody counts, and somebody without a pair has nothing.
pub proof fn law_first_pair_counts(list: Seq<(Seq<char>, Seq<char>)>, who: Seq<char>)
    ensures
        assigned(list, who) is None <==> forall|k: int|
            0 <= k < list.len() ==> (#[trigger] list[k]).0 != who,
        forall|k: int| #[trigger] first_for(list, who, k) ==> assigned(list, who) == Some(list[k].1),
{
    let w = lemma_some_pair(list, who);
    assert forall|k: int| #[trigger] first_for(list, who, k) implies assigned(list, who) == Some(
        list[k].1,
    ) by {
        lemma_first_pair(list, who, k);
    }
}

/// A line follows the voice chosen for its speaker wherever there is one; else a sample of the speaker; the
/// first sample only for a speaker who has neither, or, where no voices are chosen at all, for a line
/// without a speaker.
pub proof fn law_line_follows_its_speaker(
    packs: Seq<Seq<char>>,
    owns: Seq<Seq<char>>,
    speaker: Option<Seq<char>>,
    key: Seq<char>,
)
    requires
        key == (if speaker is Some {
            speaker->0
        } else {
            "0"@
        }),
    ensures
        packs.contains(key) <==> reference_of(packs, owns, speaker) is Pack,
        reference_of(packs, owns, speaker) is Own <==> !packs.contains(key) && owns.contains(key) && (
        speaker is Some || packs.len() > 0),
{
    assert(packs.contains(key) == among(packs, key));
    assert(owns.contains(key) == among(owns, key));
}

/// What is said in the sample of a line is what is known to be said in its speaker's own sample. Of a
/// speaker with a sample of which it is not known nothing is said; a speaker without any sample follows the
/// first one, and so what is said in that.
pub proof fn law_sample_text_goes_with_the_sample(
    packs: Seq<Seq<char>>,
    owns: Seq<Seq<char>>,
    texts: Seq<(Seq<char>, Seq<char>)>,
    key: Seq<char>,
)
    ensures
        ({
            let r = reference_text(packs, owns, texts, key);
            let known = exists|k: int| 0 <= k < texts.len() && (#[trigger] texts[k]).0 == key;
            &&& known ==> r == assigned(texts, key) && r is Some
            &&& !known && (owns.contains(key) || packs.contains(key) || texts.len() == 0) ==> r is None
            &&& !known && !owns.contains(key) && !packs.contains(key) && texts.len() > 0 ==> r == Some(
                texts[0].1,
            )
        }),
{
    law_first_pair_counts(texts, key);
    assert(packs.contains(key) == among(packs, key));
    assert(owns.contains(key) == among(owns, key));
}

} // verus!
