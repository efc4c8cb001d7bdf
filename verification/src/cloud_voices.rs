//! Choosing voices of a cloud model for the speakers by gender and by the language of the dub.

use crate::json;
use crate::json::Doc;
use crate::json::Json;
use crate::media;
use crate::order;
use crate::text;
use vstd::prelude::*;

verus! {

/// A voice of a model.
#[derive(Clone, Debug)]
pub struct VoiceMeta {
    pub name: String,
    /// male, female, neutral or unknown.
    pub gender: String,
    /// child, teen, adult, elderly or unknown.
    pub age: String,
    /// It speaks Russian well enough.
    pub ru: bool,
}

/// The voices of a model.
#[derive(Clone, Debug)]
pub struct ModelVoices {
    pub supports_russian: bool,
    pub voices: Vec<VoiceMeta>,
}

/// A voice of a model, as a value.
pub struct VoiceModel {
    pub name: Seq<char>,
    pub gender: Seq<char>,
    pub age: Seq<char>,
    pub ru: bool,
}

impl View for VoiceMeta {
    type V = VoiceModel;

    open spec fn view(&self) -> VoiceModel {
        VoiceModel { name: self.name@, gender: self.gender@, age: self.age@, ru: self.ru }
    }
}

pub open spec fn voices_of(v: Seq<VoiceMeta>) -> Seq<VoiceModel> {
    v.map_values(|x: VoiceMeta| x@)
}

/// The place of the model in the directory of voices.
pub open spec fn place(db: Seq<(String, ModelVoices)>, model: Seq<char>) -> Option<int>
    decreases db.len(),
{
    if db.len() == 0 {
        None
    } else {
        match place(db.drop_last(), model) {
            Some(i) => Some(i),
            None => if db.last().0@ == model {
                Some(db.len() - 1)
            } else {
                None
            },
        }
    }
}

fn find(db: &Vec<(String, ModelVoices)>, model: &str) -> (r: Option<usize>)
    ensures
        (match r {
            Some(i) => Some(i as int),
            None => None,
        }) == place(db@, model@),
        r matches Some(i) ==> i < db@.len(),
{
    let mut found: Option<usize> = None;
    assert(db@.take(0) =~= Seq::empty());
    for k in 0..db.len()
        invariant
            (match found {
                Some(i) => Some(i as int),
                None => None,
            }) == place(db@.take(k as int), model@),
            found matches Some(i) ==> i < db@.len(),
    {
        assert(db@.take(k + 1).drop_last() =~= db@.take(k as int));
        if found.is_none() && text::same(db[k].0.as_str(), model) {
            found = Some(k);
        }
    }
    assert(db@.take(db@.len() as int) =~= db@);
    found
}

/// The place of the voice among the model's voices, the case of ASCII letters set aside.
pub open spec fn voice_place(vs: Seq<VoiceModel>, voice: Seq<char>) -> Option<int>
    decreases vs.len(),
{
    if vs.len() == 0 {
        None
    } else {
        match voice_place(vs.drop_last(), voice) {
            Some(i) => Some(i),
            None => if text::ascii_lower(vs.last().name) == text::ascii_lower(voice) {
                Some(vs.len() - 1)
            } else {
                None
            },
        }
    }
}

/// What the directory says of a voice of the model.
pub fn voice_meta<'a>(db: &'a Vec<(String, ModelVoices)>, model: &str, voice: &str) -> (r: Option<
    &'a VoiceMeta,
>)
    ensures
        match place(db@, model@) {
            None => r is None,
            Some(i) => match voice_place(voices_of(db@[i].1.voices@), voice@) {
                None => r is None,
                Some(k) => r is Some && *r->0 == db@[i].1.voices@[k],
            },
        },
{
    let i: usize = match find(db, model) {
        Some(i) => i,
        None => {
            return None;
        },
    };
    let vs = &db[i].1.voices;
    let want = text::lower_ascii(voice);
    let ghost all = voices_of(vs@);
    let mut found: Option<usize> = None;
    assert(all.take(0) =~= Seq::empty());
    for k in 0..vs.len()
        invariant
            all == voices_of(vs@),
            want@ == text::ascii_lower(voice@),
            (match found {
                Some(i) => Some(i as int),
                None => None,
            }) == voice_place(all.take(k as int), voice@),
            found matches Some(i) ==> i < vs@.len(),
    {
        assert(all.take(k + 1).drop_last() =~= all.take(k as int));
        assert(all.take(k + 1).last() == vs@[k as int]@);
        if found.is_none() && text::same(
            text::lower_ascii(vs[k].name.as_str()).as_str(),
            want.as_str(),
        ) {
            found = Some(k);
        }
    }
    assert(all.take(vs@.len() as int) =~= all);
    match found {
        Some(k) => Some(&vs[k]),
        None => None,
    }
}

/// Whether the model speaks Russian; nothing where the directory does not know it.
pub fn model_supports_russian(db: &Vec<(String, ModelVoices)>, model: &str) -> (r: Option<bool>)
    ensures
        r == match place(db@, model@) {
            Some(i) => Some(db@[i].1.supports_russian),
            None => None,
        },
{
    match find(db, model) {
        Some(i) => Some(db[i].1.supports_russian),
        None => None,
    }
}

/// The voices of the model; nothing where the directory does not know it.
pub fn list<'a>(db: &'a Vec<(String, ModelVoices)>, model: &str) -> (r: Option<&'a Vec<VoiceMeta>>)
    ensures
        match place(db@, model@) {
            Some(i) => r is Some && *r->0 == db@[i].1.voices,
            None => r is None,
        },
{
    match find(db, model) {
        Some(i) => Some(&db[i].1.voices),
        None => None,
    }
}

// ── Reading the directory ───────────────────────────────────────────────────

/// The voices of a model, as a value.
pub struct ModelModel {
    pub supports_russian: bool,
    pub voices: Seq<VoiceModel>,
}

impl View for ModelVoices {
    type V = ModelModel;

    open spec fn view(&self) -> ModelModel {
        ModelModel { supports_russian: self.supports_russian, voices: voices_of(self.voices@) }
    }
}

pub open spec fn entries(db: Seq<(String, ModelVoices)>) -> Seq<(Seq<char>, ModelModel)> {
    db.map_values(|e: (String, ModelVoices)| (e.0@, e.1@))
}

/// The truth value in the member named `k`, which may be left out for "no"; nothing where it is something
/// else.
pub open spec fn switch(d: Doc, k: Seq<char>) -> Option<bool> {
    match d.get(k) {
        None => Some(false),
        Some(Doc::Bool(b)) => Some(b),
        Some(_) => None,
    }
}

fn read_switch(j: &Json, k: &str) -> (r: Option<bool>)
    ensures
        r == switch(j@, k@),
{
    match j.get(k) {
        None => Some(false),
        Some(Json::Bool(b)) => Some(*b),
        Some(_) => None,
    }
}

/// The voice that a document describes: its name, its gender and its age have to be there.
pub open spec fn voice_in(d: Doc) -> Option<VoiceModel> {
    match (d.text_at("name"@), d.text_at("gender"@), d.text_at("age"@), switch(d, "ru"@)) {
        (Some(name), Some(gender), Some(age), Some(ru)) => Some(VoiceModel { name, gender, age, ru }),
        _ => None,
    }
}

fn read_voice(j: &Json) -> (r: Option<VoiceMeta>)
    ensures
        (match r {
            Some(v) => Some(v@),
            None => None,
        }) == voice_in(j@),
{
    match (j.text_at("name"), j.text_at("gender"), j.text_at("age"), read_switch(j, "ru")) {
        (Some(name), Some(gender), Some(age), Some(ru)) => Some(
            VoiceMeta { name: name.clone(), gender: gender.clone(), age: age.clone(), ru },
        ),
        _ => None,
    }
}

/// The voices that the documents describe, if each of them describes one.
pub open spec fn voices_in(items: Seq<Doc>) -> Option<Seq<VoiceModel>>
    decreases items.len(),
{
    if items.len() == 0 {
        Some(Seq::empty())
    } else {
        match (voices_in(items.drop_last()), voice_in(items.last())) {
            (Some(before), Some(v)) => Some(before.push(v)),
            _ => None,
        }
    }
}

proof fn lemma_no_voices(items: Seq<Doc>, n: int)
    requires
        0 <= n <= items.len(),
        voices_in(items.take(n)) is None,
    ensures
        voices_in(items) is None,
    decreases items.len() - n,
{
    if n < items.len() {
        assert(items.take(n + 1).drop_last() =~= items.take(n));
        lemma_no_voices(items, n + 1);
    } else {
        assert(items.take(n) =~= items);
    }
}

/// What a document says of a model: its voices have to be there.
pub open spec fn model_in(d: Doc) -> Option<ModelModel> {
    match (switch(d, "supports_russian"@), media::list_at(d, "voices"@)) {
        (Some(supports_russian), Some(items)) => match voices_in(items) {
            Some(voices) => Some(ModelModel { supports_russian, voices }),
            None => None,
        },
        _ => None,
    }
}

fn read_model(j: &Json) -> (r: Option<ModelVoices>)
    ensures
        (match r {
            Some(m) => Some(m@),
            None => None,
        }) == model_in(j@),
{
    let supports_russian: bool = match read_switch(j, "supports_russian") {
        Some(b) => b,
        None => {
            return None;
        },
    };
    let items = match j.get("voices") {
        Some(Json::List(items)) => items,
        _ => {
            return None;
        },
    };
    let ghost ds = media::docs(items@);
    assert(media::list_at(j@, "voices"@)->0 =~= ds);
    let mut voices: Vec<VoiceMeta> = Vec::new();
    assert(voices_of(voices@) =~= Seq::empty());
    assert(ds.take(0) =~= Seq::empty());
    for i in 0..items.len()
        invariant
            ds == media::docs(items@),
            media::list_at(j@, "voices"@) == Some(ds),
            voices_in(ds.take(i as int)) == Some(voices_of(voices@)),
    {
        assert(ds.take(i + 1).drop_last() =~= ds.take(i as int));
        assert(ds.take(i + 1).last() == items@[i as int]@);
        match read_voice(&items[i]) {
            Some(v) => {
                let ghost was = voices_of(voices@);
                voices.push(v);
                assert(voices_of(voices@) =~= was.push(v@));
            },
            None => {
                proof {
                    lemma_no_voices(ds, i + 1);
                }
                return None;
            },
        }
    }
    assert(ds.take(items@.len() as int) =~= ds);
    Some(ModelVoices { supports_russian, voices })
}

/// The models that the members of a document describe, if each of them describes one.
pub open spec fn models_in(ms: Seq<(Seq<char>, Doc)>) -> Option<Seq<(Seq<char>, ModelModel)>>
    decreases ms.len(),
{
    if ms.len() == 0 {
        Some(Seq::empty())
    } else {
        match (models_in(ms.drop_last()), model_in(ms.last().1)) {
            (Some(before), Some(m)) => Some(before.push((ms.last().0, m))),
            _ => None,
        }
    }
}

proof fn lemma_no_models(ms: Seq<(Seq<char>, Doc)>, n: int)
    requires
        0 <= n <= ms.len(),
        models_in(ms.take(n)) is None,
    ensures
        models_in(ms) is None,
    decreases ms.len() - n,
{
    if n < ms.len() {
        assert(ms.take(n + 1).drop_last() =~= ms.take(n));
        lemma_no_models(ms, n + 1);
    } else {
        assert(ms.take(n) =~= ms);
    }
}

/// The directory that a document describes; an empty one where any part of it is not as it has to be.
pub open spec fn directory(d: Doc) -> Seq<(Seq<char>, ModelModel)> {
    match d {
        Doc::Object(ms) => match models_in(ms) {
            Some(v) => v,
            None => Seq::empty(),
        },
        _ => Seq::empty(),
    }
}

/// The directory that a document describes.
pub fn read_directory(j: &Json) -> (r: Vec<(String, ModelVoices)>)
    ensures
        entries(r@) == directory(j@),
{
    let mut out: Vec<(String, ModelVoices)> = Vec::new();
    assert(entries(out@) =~= Seq::empty());
    if let Json::Object(v) = j {
        let ghost ms = j@->Object_0;
        assert(ms.take(0) =~= Seq::empty());
        for i in 0..v.len()
            invariant
                j@ == Doc::Object(ms),
                ms.len() == v@.len(),
                forall|k: int| 0 <= k < v@.len() ==> #[trigger] ms[k] == (v@[k].0@, v@[k].1@),
                models_in(ms.take(i as int)) == Some(entries(out@)),
        {
            assert(ms.take(i + 1).drop_last() =~= ms.take(i as int));
            assert(ms.take(i + 1).last() == ms[i as int]);
            match read_model(&v[i].1) {
                Some(m) => {
                    let ghost was = entries(out@);
                    let name = v[i].0.clone();
                    out.push((name, m));
                    assert(entries(out@) =~= was.push((name@, m@)));
                },
                None => {
                    proof {
                        lemma_no_models(ms, i + 1);
                    }
                    let none: Vec<(String, ModelVoices)> = Vec::new();
                    assert(entries(none@) =~= Seq::empty());
                    return none;
                },
            }
        }
        assert(ms.take(v@.len() as int) =~= ms);
    }
    out
}

/// The directory that a text describes; an empty one where the text is no document.
pub fn load(text: &str) -> (r: Vec<(String, ModelVoices)>)
    ensures
        entries(r@) == match json::parsed(text@) {
            Some(d) => directory(d),
            None => Seq::empty(),
        },
{
    match json::read(text) {
        Some(j) => read_directory(&j),
        None => {
            let none: Vec<(String, ModelVoices)> = Vec::new();
            assert(entries(none@) =~= Seq::empty());
            none
        },
    }
}

// ── Casting ─────────────────────────────────────────────────────────────────

/// A voice that does not sound like a child or a teenager.
pub open spec fn adultish(v: VoiceModel) -> bool {
    v.age == "adult"@ || v.age == "unknown"@ || v.age == "elderly"@
}

fn is_adultish(v: &VoiceMeta) -> (r: bool)
    ensures
        r == adultish(v@),
{
    text::same(v.age.as_str(), "adult") || text::same(v.age.as_str(), "unknown") || text::same(
        v.age.as_str(),
        "elderly",
    )
}

/// Which of the voices are taken: those that speak Russian, those of a gender, those of adults.
pub struct Wanted {
    pub ru: bool,
    pub gender: Option<Seq<char>>,
    pub adult: bool,
}

pub open spec fn fits(v: VoiceModel, w: Wanted) -> bool {
    (!w.ru || v.ru) && (w.gender matches Some(g) ==> v.gender == g) && (!w.adult || adultish(v))
}

/// The names of the voices that are wanted, in order.
pub open spec fn names(vs: Seq<VoiceModel>, w: Wanted) -> Seq<Seq<char>>
    decreases vs.len(),
{
    if vs.len() == 0 {
        Seq::empty()
    } else if fits(vs.last(), w) {
        names(vs.drop_last(), w).push(vs.last().name)
    } else {
        names(vs.drop_last(), w)
    }
}

fn pick_names(vs: &Vec<VoiceMeta>, ru: bool, gender: Option<&str>, adult: bool) -> (r: Vec<String>)
    ensures
        text::views(r@) == names(
            voices_of(vs@),
            (Wanted {
                ru,
                gender: match gender {
                    Some(g) => Some(g@),
                    None => None,
                },
                adult,
            }),
        ),
{
    let ghost w = Wanted {
        ru,
        gender: match gender {
            Some(g) => Some(g@),
            None => None,
        },
        adult,
    };
    let ghost all = voices_of(vs@);
    let mut out: Vec<String> = Vec::new();
    assert(all.take(0) =~= Seq::empty());
    assert(text::views(out@) =~= Seq::empty());
    for k in 0..vs.len()
        invariant
            all == voices_of(vs@),
            w == (Wanted {
                ru,
                gender: match gender {
                    Some(g) => Some(g@),
                    None => None,
                },
                adult,
            }),
            text::views(out@) == names(all.take(k as int), w),
    {
        let v = &vs[k];
        assert(all.take(k + 1).drop_last() =~= all.take(k as int));
        assert(all.take(k + 1).last() == v@);
        let same_gender = match gender {
            Some(g) => text::same(v.gender.as_str(), g),
            None => true,
        };
        if (!ru || v.ru) && same_gender && (!adult || is_adultish(v)) {
            let ghost was = text::views(out@);
            out.push(v.name.clone());
            assert(text::views(out@) =~= was.push(v.name@));
        }
    }
    assert(all.take(vs@.len() as int) =~= all);
    out
}

/// Only the voices that speak Russian are in question: the dub is in Russian and there is one.
pub open spec fn russian_only(vs: Seq<VoiceModel>, tgt_lang: Seq<char>) -> bool {
    text::ascii_lower(tgt_lang) == "ru"@ && names(
        vs,
        (Wanted { ru: true, gender: None, adult: false }),
    ).len() > 0
}

/// The voices for a gender: of adults, where there are such, else all of that gender.
pub open spec fn pool(vs: Seq<VoiceModel>, ru: bool, gender: Seq<char>) -> Seq<Seq<char>> {
    let adults = names(vs, Wanted { ru, gender: Some(gender), adult: true });
    if adults.len() > 0 {
        adults
    } else {
        names(vs, Wanted { ru, gender: Some(gender), adult: false })
    }
}

fn pool_of(vs: &Vec<VoiceMeta>, ru: bool, gender: &str) -> (r: Vec<String>)
    ensures
        text::views(r@) == pool(voices_of(vs@), ru, gender@),
{
    let adults = pick_names(vs, ru, Some(gender), true);
    if adults.len() > 0 {
        adults
    } else {
        pick_names(vs, ru, Some(gender), false)
    }
}

/// The pools that voices are dealt from.
pub struct Pools {
    pub male: Seq<Seq<char>>,
    pub female: Seq<Seq<char>>,
    pub all: Seq<Seq<char>>,
}

pub open spec fn pools_of(vs: Seq<VoiceModel>, tgt_lang: Seq<char>) -> Pools {
    let ru = russian_only(vs, tgt_lang);
    Pools {
        male: pool(vs, ru, "male"@),
        female: pool(vs, ru, "female"@),
        all: names(vs, Wanted { ru, gender: None, adult: false }),
    }
}

/// The pool for a speaker of the given gender: 1 the voices of men, 2 of women, 0 any.
pub open spec fn kind(p: Pools, gender: Seq<char>) -> int {
    if gender == "male"@ && p.male.len() > 0 {
        1
    } else if gender == "female"@ && p.female.len() > 0 {
        2
    } else {
        0
    }
}

pub open spec fn pool_at(p: Pools, kind: int) -> Seq<Seq<char>> {
    if kind == 1 {
        p.male
    } else if kind == 2 {
        p.female
    } else {
        p.all
    }
}

/// What is known of the speaker's gender: the first entry counts.
pub open spec fn gender_of(genders: Seq<(Seq<char>, Seq<char>)>, spk: Seq<char>) -> Seq<char>
    decreases genders.len(),
{
    if genders.len() == 0 {
        Seq::empty()
    } else if genders[0].0 == spk {
        genders[0].1
    } else {
        gender_of(genders.drop_first(), spk)
    }
}

pub open spec fn pair_views(v: Seq<(String, String)>) -> Seq<(Seq<char>, Seq<char>)> {
    v.map_values(|p: (String, String)| (p.0@, p.1@))
}

fn find_gender<'a>(genders: &'a Vec<(String, String)>, spk: &str) -> (r: Option<&'a String>)
    ensures
        (match r {
            Some(s) => s@,
            None => Seq::empty(),
        }) == gender_of(pair_views(genders@), spk@),
{
    let ghost all = pair_views(genders@);
    assert(all.skip(0) =~= all);
    for i in 0..genders.len()
        invariant
            all == pair_views(genders@),
            gender_of(all, spk@) == gender_of(all.skip(i as int), spk@),
    {
        assert(all.skip(i as int)[0] == (genders@[i as int].0@, genders@[i as int].1@));
        assert(all.skip(i as int).drop_first() =~= all.skip(i + 1));
        if text::same(genders[i].0.as_str(), spk) {
            return Some(&genders[i].1);
        }
    }
    None
}

/// How many of the speakers take their voice from the pool.
pub open spec fn dealt(
    p: Pools,
    genders: Seq<(Seq<char>, Seq<char>)>,
    spks: Seq<Seq<char>>,
    k: int,
) -> nat
    decreases spks.len(),
{
    if spks.len() == 0 {
        0
    } else {
        dealt(p, genders, spks.drop_last(), k) + if kind(p, gender_of(genders, spks.last())) == k {
            1nat
        } else {
            0nat
        }
    }
}

/// Each speaker in turn takes the next voice of their pool, round and round.
pub open spec fn dealing(
    p: Pools,
    genders: Seq<(Seq<char>, Seq<char>)>,
    spks: Seq<Seq<char>>,
) -> Seq<(Seq<char>, Seq<char>)>
    decreases spks.len(),
{
    if spks.len() == 0 {
        Seq::empty()
    } else {
        let k = kind(p, gender_of(genders, spks.last()));
        let from = pool_at(p, k);
        dealing(p, genders, spks.drop_last()).push(
            (
                spks.last(),
                from[(dealt(p, genders, spks.drop_last(), k) % from.len()) as int],
            ),
        )
    }
}

pub open spec fn speakers(genders: Seq<(Seq<char>, Seq<char>)>) -> Seq<Seq<char>> {
    genders.map_values(|p: (Seq<char>, Seq<char>)| p.0)
}

/// The voices for the speakers, dealt in the order of the speakers' names; none where the directory
/// does not know the model, or the model has no voice.
pub fn assign(
    db: &Vec<(String, ModelVoices)>,
    model: &str,
    genders: &Vec<(String, String)>,
    tgt_lang: &str,
) -> (r: Vec<(String, String)>)
    ensures
        match place(db@, model@) {
            None => r@.len() == 0,
            Some(i) => {
                let vs = voices_of(db@[i].1.voices@);
                let p = pools_of(vs, tgt_lang@);
                if vs.len() == 0 {
                    r@.len() == 0
                } else {
                    exists|spks: Seq<Seq<char>>| #[trigger]
                        order::sorted_set_of(spks, speakers(pair_views(genders@))) && pair_views(r@)
                            == dealing(p, pair_views(genders@), spks)
                }
            },
        },
{
    let i: usize = match find(db, model) {
        Some(i) => i,
        None => {
            return Vec::new();
        },
    };
    let vs = &db[i].1.voices;
    let ghost model_vs = voices_of(vs@);
    if vs.len() == 0 {
        return Vec::new();
    }
    let ru = text::same(text::lower_ascii(tgt_lang).as_str(), "ru") && pick_names(
        vs,
        true,
        None,
        false,
    ).len() > 0;
    let male = pool_of(vs, ru, "male");
    let female = pool_of(vs, ru, "female");
    let all = pick_names(vs, ru, None, false);
    let ghost p = pools_of(model_vs, tgt_lang@);
    proof {
        if !ru {
            lemma_all_named(model_vs);
        }
    }
    let ghost gv = pair_views(genders@);
    let mut keys: Vec<String> = Vec::new();
    assert(text::views(keys@) =~= speakers(gv.take(0)));
    for k in 0..genders.len()
        invariant
            gv == pair_views(genders@),
            text::views(keys@) == speakers(gv.take(k as int)),
    {
        let ghost was = text::views(keys@);
        keys.push(genders[k].0.clone());
        assert(text::views(keys@) =~= was.push(genders@[k as int].0@));
        assert(speakers(gv.take(k + 1)) =~= was.push(genders@[k as int].0@));
    }
    assert(gv.take(gv.len() as int) =~= gv);
    let spks = order::sorted_set(keys);
    let ghost sv = text::views(spks@);
    let mut m: usize = 0;
    let mut f: usize = 0;
    let mut a: usize = 0;
    let mut out: Vec<(String, String)> = Vec::new();
    assert(sv.take(0) =~= Seq::empty());
    assert(pair_views(out@) =~= Seq::empty());
    for k in 0..spks.len()
        invariant
            gv == pair_views(genders@),
            sv == text::views(spks@),
            p.male == text::views(male@),
            p.female == text::views(female@),
            p.all == text::views(all@),
            all@.len() > 0,
            m <= k,
            f <= k,
            a <= k,
            m == dealt(p, gv, sv.take(k as int), 1),
            f == dealt(p, gv, sv.take(k as int), 2),
            a == dealt(p, gv, sv.take(k as int), 0),
            pair_views(out@) == dealing(p, gv, sv.take(k as int)),
    {
        assert(sv.take(k + 1).drop_last() =~= sv.take(k as int));
        assert(sv.take(k + 1).last() == spks@[k as int]@);
        let known = find_gender(genders, spks[k].as_str());
        let g: &str = match known {
            Some(s) => s.as_str(),
            None => "",
        };
        proof {
            reveal_strlit("");
            assert(""@ =~= Seq::empty());
        }
        let ghost was = pair_views(out@);
        let voice = if text::same(g, "male") && male.len() > 0 {
            let v = male[m % male.len()].clone();
            m += 1;
            v
        } else if text::same(g, "female") && female.len() > 0 {
            let v = female[f % female.len()].clone();
            f += 1;
            v
        } else {
            let v = all[a % all.len()].clone();
            a += 1;
            v
        };
        out.push((spks[k].clone(), voice));
        assert(pair_views(out@) =~= was.push((spks@[k as int]@, voice@)));
    }
    assert(sv.take(sv.len() as int) =~= sv);
    out
}

proof fn lemma_all_named(vs: Seq<VoiceModel>)
    ensures
        names(vs, (Wanted { ru: false, gender: None, adult: false })).len() == vs.len(),
    decreases vs.len(),
{
    if vs.len() > 0 {
        lemma_all_named(vs.drop_last());
    }
}

// ── Laws ────────────────────────────────────────────────────────────────────

/// Every speaker gets a voice, in the order of the speakers.
pub proof fn law_every_speaker_is_dealt(
    p: Pools,
    genders: Seq<(Seq<char>, Seq<char>)>,
    spks: Seq<Seq<char>>,
)
    ensures
        dealing(p, genders, spks).len() == spks.len(),
        forall|i: int|
            0 <= i < spks.len() ==> (#[trigger] dealing(p, genders, spks)[i]).0 == spks[i],
    decreases spks.len(),
{
    if spks.len() > 0 {
        let t = spks.drop_last();
        law_every_speaker_is_dealt(p, genders, t);
        let now = dealing(p, genders, spks);
        assert forall|i: int| 0 <= i < spks.len() implies (#[trigger] now[i]).0 == spks[i] by {
            if i < t.len() {
                assert(now[i] == dealing(p, genders, t)[i]);
                assert(t[i] == spks[i]);
            }
        }
    }
}

proof fn lemma_deal(
    p: Pools,
    genders: Seq<(Seq<char>, Seq<char>)>,
    spks: Seq<Seq<char>>,
    i: int,
)
    requires
        0 <= i < spks.len(),
    ensures
        dealing(p, genders, spks).len() == spks.len(),
        ({
            let k = kind(p, gender_of(genders, spks[i]));
            let from = pool_at(p, k);
            dealing(p, genders, spks)[i].1 == from[(dealt(p, genders, spks.take(i), k)
                % from.len()) as int]
        }),
    decreases spks.len(),
{
    let t = spks.drop_last();
    law_every_speaker_is_dealt(p, genders, spks);
    law_every_speaker_is_dealt(p, genders, t);
    if i < t.len() {
        lemma_deal(p, genders, t, i);
        assert(t.take(i) =~= spks.take(i));
        assert(t[i] == spks[i]);
        assert(dealing(p, genders, spks)[i] == dealing(p, genders, t)[i]);
    } else {
        assert(spks.take(i) =~= t);
    }
}

proof fn lemma_dealt_grows(
    p: Pools,
    genders: Seq<(Seq<char>, Seq<char>)>,
    spks: Seq<Seq<char>>,
    i: int,
    j: int,
    k: int,
)
    requires
        0 <= i < j <= spks.len(),
        kind(p, gender_of(genders, spks[i])) == k,
    ensures
        dealt(p, genders, spks.take(i), k) < dealt(p, genders, spks.take(j), k),
    decreases j,
{
    assert(spks.take(j).drop_last() =~= spks.take(j - 1));
    if i < j - 1 {
        lemma_dealt_grows(p, genders, spks, i, j - 1, k);
    }
}

/// A man gets a voice of the men's pool wherever it holds one, a woman one of the women's.
pub proof fn law_gender_is_kept(
    p: Pools,
    genders: Seq<(Seq<char>, Seq<char>)>,
    spks: Seq<Seq<char>>,
    i: int,
)
    requires
        0 <= i < spks.len(),
    ensures
        gender_of(genders, spks[i]) == "male"@ && p.male.len() > 0 ==> p.male.contains(
            dealing(p, genders, spks)[i].1,
        ),
        gender_of(genders, spks[i]) == "female"@ && p.female.len() > 0 ==> p.female.contains(
            dealing(p, genders, spks)[i].1,
        ),
{
    lemma_deal(p, genders, spks, i);
    reveal_strlit("male");
    reveal_strlit("female");
    assert("male"@.len() != "female"@.len());
    let k = kind(p, gender_of(genders, spks[i]));
    let from = pool_at(p, k);
    let d = dealt(p, genders, spks.take(i), k);
    if from.len() > 0 {
        assert(0 <= d % from.len() < from.len()) by (nonlinear_arith)
            requires
                from.len() > 0,
        ;
        assert(from.contains(from[(d % from.len()) as int]));
    }
}

/// Two speakers who share a pool get different voices as long as the pool has enough of them.
pub proof fn law_different_speakers_differ(
    p: Pools,
    genders: Seq<(Seq<char>, Seq<char>)>,
    spks: Seq<Seq<char>>,
    i: int,
    j: int,
)
    requires
        0 <= i < j < spks.len(),
        kind(p, gender_of(genders, spks[i])) == kind(p, gender_of(genders, spks[j])),
        ({
            let k = kind(p, gender_of(genders, spks[i]));
            &&& pool_at(p, k).no_duplicates()
            &&& dealt(p, genders, spks, k) <= pool_at(p, k).len()
        }),
    ensures
        dealing(p, genders, spks)[i].1 != dealing(p, genders, spks)[j].1,
{
    let k = kind(p, gender_of(genders, spks[i]));
    let from = pool_at(p, k);
    lemma_deal(p, genders, spks, i);
    lemma_deal(p, genders, spks, j);
    lemma_dealt_grows(p, genders, spks, i, j, k);
    lemma_dealt_grows(p, genders, spks, j, spks.len() as int, k);
    assert(spks.take(spks.len() as int) =~= spks);
    let a = dealt(p, genders, spks.take(i), k);
    let b = dealt(p, genders, spks.take(j), k);
    vstd::arithmetic::div_mod::lemma_small_mod(a, from.len());
    vstd::arithmetic::div_mod::lemma_small_mod(b, from.len());
}

/// A dub in Russian takes only voices that speak it, where the model has one.
pub proof fn law_russian_dub(vs: Seq<VoiceModel>, w: Wanted, name: Seq<char>)
    requires
        w.ru,
        names(vs, w).contains(name),
    ensures
        exists|i: int| 0 <= i < vs.len() && (#[trigger] vs[i]).ru && vs[i].name == name,
    decreases vs.len(),
{
    let t = vs.drop_last();
    let j = choose|j: int| 0 <= j < names(vs, w).len() && names(vs, w)[j] == name;
    if fits(vs.last(), w) && j == names(vs, w).len() - 1 {
        assert(vs[vs.len() - 1].ru);
    } else {
        assert(names(t, w)[j] == name);
        law_russian_dub(t, w, name);
        let i = choose|i: int| 0 <= i < t.len() && (#[trigger] t[i]).ru && t[i].name == name;
        assert(vs[i] == t[i]);
    }
}

/// A model is looked up by its name; the first of that name counts.
pub proof fn law_model_is_found_by_name(db: Seq<(String, ModelVoices)>, model: Seq<char>)
    ensures
        match place(db, model) {
            Some(i) => 0 <= i < db.len() && db[i].0@ == model && forall|j: int|
                0 <= j < i ==> (#[trigger] db[j]).0@ != model,
            None => forall|j: int| 0 <= j < db.len() ==> (#[trigger] db[j]).0@ != model,
        },
    decreases db.len(),
{
    if db.len() > 0 {
        let p = db.drop_last();
        law_model_is_found_by_name(p, model);
        assert(forall|j: int| 0 <= j < p.len() ==> p[j] == #[trigger] db[j]);
        assert(db[db.len() - 1] == db.last());
        if let Some(i) = place(p, model) {
            assert(p[i] == db[i]);
        }
    }
}

/// A voice is looked up by its name, the case of ASCII letters set aside; the first of that name counts.
pub proof fn law_voice_is_found_by_name(vs: Seq<VoiceModel>, voice: Seq<char>)
    ensures
        match voice_place(vs, voice) {
            Some(i) => 0 <= i < vs.len() && text::ascii_lower(vs[i].name) == text::ascii_lower(voice) && forall|
                j: int,
            |
                0 <= j < i ==> text::ascii_lower((#[trigger] vs[j]).name) != text::ascii_lower(voice),
            None => forall|j: int|
                0 <= j < vs.len() ==> text::ascii_lower((#[trigger] vs[j]).name) != text::ascii_lower(voice),
        },
    decreases vs.len(),
{
    if vs.len() > 0 {
        let p = vs.drop_last();
        law_voice_is_found_by_name(p, voice);
        assert(forall|j: int| 0 <= j < p.len() ==> p[j] == #[trigger] vs[j]);
        assert(vs[vs.len() - 1] == vs.last());
        if let Some(i) = voice_place(p, voice) {
            assert(p[i] == vs[i]);
        }
    }
}

proof fn lemma_names_are(vs: Seq<VoiceModel>, w: Wanted, f: spec_fn(VoiceModel) -> bool)
    requires
        forall|v: VoiceModel| #[trigger] f(v) == fits(v, w),
    ensures
        names(vs, w) == vs.filter(f).map_values(|v: VoiceModel| v.name),
    decreases vs.len(),
{
    reveal(Seq::filter);
    if vs.len() > 0 {
        lemma_names_are(vs.drop_last(), w, f);
        let before = vs.drop_last().filter(f);
        assert(before.push(vs.last()).map_values(|v: VoiceModel| v.name) =~= before.map_values(
            |v: VoiceModel| v.name,
        ).push(vs.last().name));
        assert(f(vs.last()) == fits(vs.last(), w));
    } else {
        assert(vs.filter(f).map_values(|v: VoiceModel| v.name) =~= Seq::empty());
    }
}

proof fn lemma_filter_finds(vs: Seq<VoiceModel>, f: spec_fn(VoiceModel) -> bool)
    ensures
        vs.filter(f).len() > 0 <==> exists|i: int| 0 <= i < vs.len() && f(#[trigger] vs[i]),
    decreases vs.len(),
{
    reveal(Seq::filter);
    if vs.len() > 0 {
        let p = vs.drop_last();
        lemma_filter_finds(p, f);
        assert(forall|j: int| 0 <= j < p.len() ==> #[trigger] p[j] == vs[j]);
        assert(forall|j: int| 0 <= j < p.len() ==> p[j] == #[trigger] vs[j]);
        assert(vs[vs.len() - 1] == vs.last());
        if p.filter(f).len() > 0 {
            let i = choose|i: int| 0 <= i < p.len() && f(#[trigger] p[i]);
            assert(f(vs[i]));
        }
    }
}

/// The voices that are cast. Only those that speak Russian are in question for a dub in Russian, if there is
/// one such voice. The men are voiced by men, the women by women, each by grown ones where there are such; and
/// nobody of a gender that has no voice, or is not known, is left without: all the voices are for them.
pub proof fn law_which_voices_are_cast(vs: Seq<VoiceModel>, tgt_lang: Seq<char>)
    ensures
        ({
            let grown = |v: VoiceModel| v.age == "adult"@ || v.age == "unknown"@ || v.age == "elderly"@;
            let ru = text::ascii_lower(tgt_lang) == "ru"@ && exists|i: int|
                0 <= i < vs.len() && (#[trigger] vs[i]).ru;
            let said = |v: VoiceModel| !ru || v.ru;
            let men = vs.filter(|v: VoiceModel| said(v) && v.gender == "male"@);
            let women = vs.filter(|v: VoiceModel| said(v) && v.gender == "female"@);
            let grown_men = vs.filter(|v: VoiceModel| said(v) && v.gender == "male"@ && grown(v));
            let grown_women = vs.filter(|v: VoiceModel| said(v) && v.gender == "female"@ && grown(v));
            let name = |v: VoiceModel| v.name;
            let p = pools_of(vs, tgt_lang);
            &&& p.all == vs.filter(said).map_values(name)
            &&& p.male == (if grown_men.len() > 0 {
                grown_men
            } else {
                men
            }).map_values(name)
            &&& p.female == (if grown_women.len() > 0 {
                grown_women
            } else {
                women
            }).map_values(name)
        }),
{
    let grown = |v: VoiceModel| v.age == "adult"@ || v.age == "unknown"@ || v.age == "elderly"@;
    let one = exists|i: int| 0 <= i < vs.len() && (#[trigger] vs[i]).ru;
    let ru = text::ascii_lower(tgt_lang) == "ru"@ && one;
    let said = |v: VoiceModel| !ru || v.ru;
    let name = |v: VoiceModel| v.name;
    let russian = |v: VoiceModel| v.ru;
    lemma_names_are(vs, Wanted { ru: true, gender: None, adult: false }, russian);
    lemma_filter_finds(vs, russian);
    assert(one == exists|i: int| 0 <= i < vs.len() && russian(#[trigger] vs[i]));
    assert(russian_only(vs, tgt_lang) == ru);
    lemma_names_are(vs, Wanted { ru, gender: None, adult: false }, said);
    lemma_names_are(
        vs,
        Wanted { ru, gender: Some("male"@), adult: false },
        |v: VoiceModel| said(v) && v.gender == "male"@,
    );
    lemma_names_are(
        vs,
        Wanted { ru, gender: Some("female"@), adult: false },
        |v: VoiceModel| said(v) && v.gender == "female"@,
    );
    lemma_names_are(
        vs,
        Wanted { ru, gender: Some("male"@), adult: true },
        |v: VoiceModel| said(v) && v.gender == "male"@ && grown(v),
    );
    lemma_names_are(
        vs,
        Wanted { ru, gender: Some("female"@), adult: true },
        |v: VoiceModel| said(v) && v.gender == "female"@ && grown(v),
    );
}

/// The first thing that is known of a speaker's gender counts.
pub proof fn law_first_gender_counts(
    genders: Seq<(Seq<char>, Seq<char>)>,
    e: (Seq<char>, Seq<char>),
    spk: Seq<char>,
)
    ensures
        gender_of(Seq::empty(), spk).len() == 0,
        gender_of(seq![e] + genders, spk) == (if e.0 == spk {
            e.1
        } else {
            gender_of(genders, spk)
        }),
{
    assert((seq![e] + genders).drop_first() =~= genders);
}

/// How one more speaker is cast: from the voices of their gender where there are such, and else from all; as
/// many places on in the list as speakers before them were cast from it, and from its beginning again behind
/// its end. Nobody before them is cast anew.
pub proof fn law_voices_go_round(
    p: Pools,
    genders: Seq<(Seq<char>, Seq<char>)>,
    spks: Seq<Seq<char>>,
    x: Seq<char>,
)
    ensures
        ({
            let men = |s: Seq<char>| gender_of(genders, s) == "male"@ && p.male.len() > 0;
            let women = |s: Seq<char>| gender_of(genders, s) == "female"@ && p.female.len() > 0;
            let any = |s: Seq<char>| !men(s) && !women(s);
            let before = dealing(p, genders, spks);
            let next = dealing(p, genders, spks.push(x));
            &&& men(x) ==> next == before.push((x, p.male[(spks.filter(men).len() % p.male.len()) as int]))
            &&& women(x) ==> next == before.push(
                (x, p.female[(spks.filter(women).len() % p.female.len()) as int]),
            )
            &&& any(x) ==> next == before.push((x, p.all[(spks.filter(any).len() % p.all.len()) as int]))
        }),
{
    reveal_strlit("male");
    reveal_strlit("female");
    assert("male"@.len() != "female"@.len());
    let men = |s: Seq<char>| gender_of(genders, s) == "male"@ && p.male.len() > 0;
    let women = |s: Seq<char>| gender_of(genders, s) == "female"@ && p.female.len() > 0;
    let any = |s: Seq<char>| !men(s) && !women(s);
    assert(spks.push(x).drop_last() =~= spks);
    lemma_dealt_counts(p, genders, spks, 1, men);
    lemma_dealt_counts(p, genders, spks, 2, women);
    lemma_dealt_counts(p, genders, spks, 0, any);
}

proof fn lemma_dealt_counts(
    p: Pools,
    genders: Seq<(Seq<char>, Seq<char>)>,
    spks: Seq<Seq<char>>,
    k: int,
    f: spec_fn(Seq<char>) -> bool,
)
    requires
        forall|s: Seq<char>| #[trigger] f(s) == (kind(p, gender_of(genders, s)) == k),
    ensures
        dealt(p, genders, spks, k) == spks.filter(f).len(),
    decreases spks.len(),
{
    reveal(Seq::filter);
    if spks.len() > 0 {
        lemma_dealt_counts(p, genders, spks.drop_last(), k, f);
        assert(f(spks.last()) == (kind(p, gender_of(genders, spks.last())) == k));
    }
}

/// What the directory of voices says is read as it is written: each member names a model, and tells its voices
/// with name, gender and age, and whether they speak Russian.
pub proof fn law_directory_is_read(ms: Seq<(Seq<char>, Doc)>, i: int)
    requires
        0 <= i < directory(Doc::Object(ms)).len(),
    ensures
        directory(Doc::Object(ms)).len() == ms.len(),
        ({
            let e = directory(Doc::Object(ms))[i];
            &&& e.0 == ms[i].0
            &&& ms[i].1.get("voices"@) matches Some(Doc::List(items)) && items.len() == e.1.voices.len() && forall|
                k: int,
            |
                0 <= k < items.len() ==> {
                    let v = #[trigger] e.1.voices[k];
                    &&& items[k].text_at("name"@) == Some(v.name)
                    &&& items[k].text_at("gender"@) == Some(v.gender)
                    &&& items[k].text_at("age"@) == Some(v.age)
                    &&& v.ru == (items[k].get("ru"@) == Some(Doc::Bool(true)))
                }
            &&& e.1.supports_russian == (ms[i].1.get("supports_russian"@) == Some(Doc::Bool(true)))
        }),
{
    if ms.len() > 0 {
        lemma_models_in(ms, 0);
    }
    lemma_models_in(ms, i);
    let m = ms[i].1;
    lemma_voices_in(media::list_at(m, "voices"@)->0);
}

proof fn lemma_models_in(ms: Seq<(Seq<char>, Doc)>, i: int)
    requires
        models_in(ms) is Some,
        0 <= i < ms.len(),
    ensures
        models_in(ms)->0.len() == ms.len(),
        model_in(ms[i].1) is Some,
        models_in(ms)->0[i].0 == ms[i].0,
        models_in(ms)->0[i].1 == model_in(ms[i].1)->0,
    decreases ms.len(),
{
    let p = ms.drop_last();
    let v = models_in(ms)->0;
    let before = models_in(p)->0;
    assert(v == before.push((ms.last().0, model_in(ms.last().1)->0)));
    if ms.len() > 1 {
        lemma_models_in(p, 0);
        if i < p.len() {
            lemma_models_in(p, i);
            assert(before[i] == v[i]);
            assert(p[i] == ms[i]);
        }
    }
}

proof fn lemma_voices_in(items: Seq<Doc>)
    ensures
        voices_in(items) matches Some(v) ==> v.len() == items.len() && forall|i: int|
            0 <= i < items.len() ==> voice_in(items[i]) == Some(#[trigger] v[i]),
    decreases items.len(),
{
    if items.len() > 0 {
        let p = items.drop_last();
        lemma_voices_in(p);
        assert(forall|j: int| 0 <= j < p.len() ==> p[j] == #[trigger] items[j]);
    }
}

} // verus!
