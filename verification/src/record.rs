//! Voices: those of the microphone, and those that can be fetched.

use crate::casting_library;
use crate::json::Doc;
use crate::json::Json;
use crate::media;
use crate::text;
use crate::words;
use vstd::prelude::*;

verus! {

/// Where the additional voices lie.
pub const VOICES_DATASET: &'static str = "Slait/russia_voices";

/// The microphones, the usual one first.
pub open spec fn listed_first(usual: Option<Seq<char>>, others: Seq<Seq<char>>) -> Seq<Seq<char>>
    decreases others.len(),
{
    if others.len() == 0 {
        match usual {
            Some(n) => seq![n],
            None => Seq::empty(),
        }
    } else {
        let before = listed_first(usual, others.drop_last());
        if usual == Some(others.last()) {
            before
        } else {
            before.push(others.last())
        }
    }
}

/// The microphones, the usual one first.
pub fn input_devices(usual: Option<&String>, others: &Vec<String>) -> (r: Vec<String>)
    ensures
        text::views(r@) == listed_first(
            match usual {
                Some(n) => Some(n@),
                None => None,
            },
            text::views(others@),
        ),
{
    let ghost ov = text::views(others@);
    let ghost u = match usual {
        Some(n) => Some(n@),
        None => None,
    };
    let mut out: Vec<String> = Vec::new();
    if let Some(n) = usual {
        out.push(n.clone());
        assert(text::views(out@) =~= seq![n@]);
    } else {
        assert(text::views(out@) =~= Seq::empty());
    }
    assert(ov.take(0) =~= Seq::empty());
    for i in 0..others.len()
        invariant
            ov == text::views(others@),
            u == (match usual {
                Some(n) => Some(n@),
                None => None,
            }),
            text::views(out@) == listed_first(u, ov.take(i as int)),
    {
        assert(ov.take(i + 1).drop_last() =~= ov.take(i as int));
        assert(ov.take(i + 1).last() == others@[i as int]@);
        let again = match usual {
            Some(n) => text::same(n.as_str(), others[i].as_str()),
            None => false,
        };
        if !again {
            let ghost was = text::views(out@);
            out.push(others[i].clone());
            assert(text::views(out@) =~= was.push(others@[i as int]@));
        }
    }
    assert(ov.take(ov.len() as int) =~= ov);
    out
}

/// Which device a recording is made with.
#[derive(Clone, Copy, Debug, PartialEq, Eq, Structural)]
pub enum Device {
    /// The one at this place of the list.
    Listed(usize),
    /// The usual one.
    Usual,
}

/// The place of the first device of that name.
pub open spec fn place_of(names: Seq<Seq<char>>, name: Seq<char>) -> Option<int>
    decreases names.len(),
{
    if names.len() == 0 {
        None
    } else {
        match place_of(names.drop_last(), name) {
            Some(i) => Some(i),
            None => if names.last() == name {
                Some(names.len() - 1)
            } else {
                None
            },
        }
    }
}

/// Which device a recording is made with: the first of the wanted name, else the usual one, if there is one.
pub open spec fn device_of(wanted: Option<Seq<char>>, names: Seq<Seq<char>>, usual: bool) -> Option<
    Device,
> {
    let otherwise = if usual {
        Some(Device::Usual)
    } else {
        None
    };
    match wanted {
        Some(w) => match place_of(names, w) {
            Some(i) => Some(Device::Listed(i as usize)),
            None => otherwise,
        },
        None => otherwise,
    }
}

/// Which device a recording is made with; none where there is none to make it with.
pub fn pick_device(wanted: Option<&str>, names: &Vec<String>, usual: bool) -> (r: Option<Device>)
    ensures
        r == device_of(
            match wanted {
                Some(w) => Some(w@),
                None => None,
            },
            text::views(names@),
            usual,
        ),
{
    let ghost nv = text::views(names@);
    if let Some(w) = wanted {
        assert(nv.take(0) =~= Seq::empty());
        for i in 0..names.len()
            invariant
                nv == text::views(names@),
                wanted == Some(w),
                place_of(nv.take(i as int), w@) is None,
        {
            assert(nv.take(i + 1).drop_last() =~= nv.take(i as int));
            assert(nv.take(i + 1).last() == names@[i as int]@);
            if text::same(names[i].as_str(), w) {
                proof {
                    assert(place_of(nv.take(i + 1), w@) == Some(i as int));
                    lemma_place_stays(nv, i + 1, w@);
                    assert(place_of(nv, w@) == Some(i as int));
                }
                return Some(Device::Listed(i));
            }
        }
        assert(nv.take(nv.len() as int) =~= nv);
    }
    if usual {
        Some(Device::Usual)
    } else {
        None
    }
}

proof fn lemma_place_stays(names: Seq<Seq<char>>, n: int, name: Seq<char>)
    requires
        0 <= n <= names.len(),
        place_of(names.take(n), name) is Some,
    ensures
        place_of(names, name) == place_of(names.take(n), name),
    decreases names.len() - n,
{
    if n < names.len() {
        assert(names.take(n + 1).drop_last() =~= names.take(n));
        lemma_place_stays(names, n + 1, name);
    } else {
        assert(names.take(n) =~= names);
    }
}

/// How loud a recording is: the loudest sample since it was last shown.
#[derive(Clone, Copy, Debug)]
pub struct Meter {
    /// It is shown after so many frames.
    pub every: usize,
    pub frames: usize,
    pub peak: u32,
}

impl Meter {
    pub open spec fn wf(self) -> bool {
        1 <= self.every && self.frames < self.every
    }

    /// A meter that is shown twenty times a second.
    pub fn new(rate: u32) -> (r: Meter)
        ensures
            r.wf(),
            r.every == if rate >= 20 {
                rate / 20
            } else {
                1
            },
            r.frames == 0,
            r.peak == 0,
    {
        Meter {
            every: if rate >= 20 {
                (rate / 20) as usize
            } else {
                1
            },
            frames: 0,
            peak: 0,
        }
    }

    /// Hears `frames` more frames, the loudest of which is `loudest`. Says what is shown once enough were
    /// heard, and begins anew.
    pub fn hear(&mut self, frames: usize, loudest: u32) -> (r: Option<u32>)
        requires
            old(self).wf(),
        ensures
            final(self).wf(),
            final(self).every == old(self).every,
            ({
                let peak = if loudest > old(self).peak {
                    loudest
                } else {
                    old(self).peak
                };
                if old(self).frames + frames >= old(self).every {
                    r == Some(peak) && final(self).frames == 0 && final(self).peak == 0
                } else {
                    r is None && final(self).frames == old(self).frames + frames && final(self).peak
                        == peak
                }
            }),
    {
        let peak: u32 = if loudest > self.peak {
            loudest
        } else {
            self.peak
        };
        if frames >= self.every - self.frames {
            self.frames = 0;
            self.peak = 0;
            Some(peak)
        } else {
            self.frames = self.frames + frames;
            self.peak = peak;
            None
        }
    }
}

/// Whether a recording can begin, or why not.
pub fn may_start(recording: bool) -> (r: Result<(), &'static str>)
    ensures
        r is Ok == !recording,
        r matches Err(m) ==> m@ == "Уже идёт запись"@,
{
    if recording {
        Err("Уже идёт запись")
    } else {
        Ok(())
    }
}

/// Whether a recording can end, or why not.
pub fn may_stop(recording: bool) -> (r: Result<(), &'static str>)
    ensures
        r is Ok == recording,
        r matches Err(m) ==> m@ == "Запись не идёт"@,
{
    if recording {
        Ok(())
    } else {
        Err("Запись не идёт")
    }
}

// ── The additional voices ───────────────────────────────────────────────────

/// A voice that can be fetched.
#[derive(Clone, Debug)]
pub struct VoiceItem {
    pub name: String,
    /// female, male or a question mark.
    pub gender: &'static str,
    pub url: String,
}

/// A voice that can be fetched, as a value.
pub struct VoiceModel {
    pub name: Seq<char>,
    pub gender: Seq<char>,
    pub url: Seq<char>,
}

impl View for VoiceItem {
    type V = VoiceModel;

    open spec fn view(&self) -> VoiceModel {
        VoiceModel { name: self.name@, gender: self.gender@, url: self.url@ }
    }
}

pub open spec fn voice_views(v: Seq<VoiceItem>) -> Seq<VoiceModel> {
    v.map_values(|x: VoiceItem| x@)
}

/// The path ends in `.mp3`.
pub open spec fn is_mp3(p: Seq<char>) -> bool {
    let n = p.len() as int;
    n >= 4 && p[n - 4] == '.' && p[n - 3] == 'm' && p[n - 2] == 'p' && p[n - 1] == '3'
}

/// The path without the endings `.mp3`, however many.
pub open spec fn bare_name(p: Seq<char>) -> Seq<char>
    decreases p.len(),
{
    if is_mp3(p) {
        bare_name(p.take(p.len() - 4))
    } else {
        p
    }
}

/// Whose voice it is, by its name.
pub open spec fn gender_in(name: Seq<char>) -> Seq<char> {
    if words::occurs(name, "Female"@) {
        "female"@
    } else if words::occurs(name, "Male"@) {
        "male"@
    } else {
        "?"@
    }
}

/// Where a file of the voices lies.
pub open spec fn file_url(path: Seq<char>) -> Seq<char> {
    "https://huggingface.co/datasets/"@ + VOICES_DATASET@ + "/resolve/main/"@ + path
}

/// The voice that a file is.
pub open spec fn voice_at(path: Seq<char>) -> VoiceModel {
    VoiceModel { name: bare_name(path), gender: gender_in(bare_name(path)), url: file_url(path) }
}

/// The voices among the files.
pub open spec fn voices_in(items: Seq<Doc>) -> Seq<VoiceModel>
    decreases items.len(),
{
    if items.len() == 0 {
        Seq::empty()
    } else {
        let before = voices_in(items.drop_last());
        match items.last().text_at("path"@) {
            Some(p) => if text::ends(p, ".mp3"@) {
                before.push(voice_at(p))
            } else {
                before
            },
            None => before,
        }
    }
}

fn strip_ending(p: &str) -> (r: String)
    ensures
        r@ == bare_name(p@),
{
    let v = text::chars_of(p);
    let mut n: usize = v.len();
    assert(v@.take(n as int) =~= v@);
    while n >= 4 && v[n - 4] == '.' && v[n - 3] == 'm' && v[n - 2] == 'p' && v[n - 1] == '3'
        invariant
            n <= v@.len(),
            bare_name(p@) == bare_name(v@.take(n as int)),
        decreases n,
    {
        let ghost t = v@.take(n as int);
        assert(is_mp3(t));
        assert(t.take(t.len() - 4) =~= v@.take(n - 4));
        n -= 4;
    }
    assert(!is_mp3(v@.take(n as int)));
    let r = text::slice_text(&v, 0, n);
    assert(r@ =~= v@.take(n as int));
    r
}

fn make_url(path: &str) -> (r: String)
    ensures
        r@ == file_url(path@),
{
    let mut u = "https://huggingface.co/datasets/".to_owned();
    u.append(VOICES_DATASET);
    u.append("/resolve/main/");
    u.append(path);
    u
}

/// The voices among the files that the reply lists; nothing where it is no list.
pub fn catalog(reply: &Json) -> (r: Vec<VoiceItem>)
    ensures
        voice_views(r@) == match reply@ {
            Doc::List(items) => voices_in(items),
            _ => Seq::empty(),
        },
{
    let mut out: Vec<VoiceItem> = Vec::new();
    assert(voice_views(out@) =~= Seq::empty());
    if let Json::List(items) = reply {
        let ghost ds = media::docs(items@);
        assert(reply@->List_0 =~= ds);
        assert(ds.take(0) =~= Seq::empty());
        for i in 0..items.len()
            invariant
                ds == media::docs(items@),
                voice_views(out@) == voices_in(ds.take(i as int)),
        {
            assert(ds.take(i + 1).drop_last() =~= ds.take(i as int));
            assert(ds.take(i + 1).last() == items@[i as int]@);
            if let Some(p) = items[i].text_at("path") {
                if text::ends_with(p.as_str(), ".mp3") {
                    let name = strip_ending(p.as_str());
                    let gender = if words::contains(name.as_str(), "Female") {
                        "female"
                    } else if words::contains(name.as_str(), "Male") {
                        "male"
                    } else {
                        "?"
                    };
                    let ghost was = voice_views(out@);
                    out.push(VoiceItem { name, gender, url: make_url(p.as_str()) });
                    assert(voice_views(out@) =~= was.push(voice_at(p@)));
                }
            }
        }
        assert(ds.take(items@.len() as int) =~= ds);
    }
    out
}

fn has(s: &str, c: char) -> (r: bool)
    ensures
        r == s@.contains(c),
{
    let v = text::chars_of(s);
    for i in 0..v.len()
        invariant
            v@ == s@,
            forall|j: int| 0 <= j < i ==> v@[j] != c,
    {
        if v[i] == c {
            assert(s@[i as int] == c);
            return true;
        }
    }
    false
}

/// What is fetched for a voice: its sound, then its words; nothing where the name leads elsewhere.
pub fn fetch_plan(name: &str) -> (r: Option<(String, String)>)
    ensures
        match r {
            Some((sound, words)) => casting_library::stays(name@) && sound@ == file_url(
                name@ + ".mp3"@,
            ) && words@ == file_url(name@ + ".txt"@),
            None => !casting_library::stays(name@),
        },
{
    if name.is_empty() || words::contains(name, "..") || has(name, '/') || has(name, '\\') {
        return None;
    }
    let mut a = name.to_owned();
    a.append(".mp3");
    let mut b = name.to_owned();
    b.append(".txt");
    Some((make_url(a.as_str()), make_url(b.as_str())))
}

/// The file is that of the voice.
pub open spec fn is_file_of(d: Doc, v: VoiceModel) -> bool {
    match d.text_at("path"@) {
        Some(p) => text::ends(p, ".mp3"@) && v == voice_at(p),
        None => false,
    }
}

/// Every voice in the catalogue is one of the files of sound that are listed.
pub proof fn law_catalogue_names_files(items: Seq<Doc>, i: int)
    requires
        0 <= i < voices_in(items).len(),
    ensures
        exists|k: int|
            0 <= k < items.len() && is_file_of(#[trigger] items[k], voices_in(items)[i]),
    decreases items.len(),
{
    let t = items.drop_last();
    if i < voices_in(t).len() {
        law_catalogue_names_files(t, i);
        let k = choose|k: int|
            0 <= k < t.len() && is_file_of(#[trigger] t[k], voices_in(t)[i]);
        assert(items[k] == t[k]);
    } else {
        assert(is_file_of(items[items.len() - 1], voices_in(items)[i]));
    }
}

/// The usual microphone is listed first, then all others in their order, and it is not listed twice.
pub proof fn law_usual_microphone_is_first(usual: Seq<char>, others: Seq<Seq<char>>)
    ensures
        listed_first(Some(usual), others) == seq![usual] + others.filter(|n: Seq<char>| n != usual),
        listed_first(None, others) == others,
    decreases others.len(),
{
    reveal(Seq::filter);
    let f = |n: Seq<char>| n != usual;
    if others.len() > 0 {
        let p = others.drop_last();
        law_usual_microphone_is_first(usual, p);
        assert(p.push(others.last()) =~= others);
        assert((seq![usual] + p.filter(f)).push(others.last()) =~= seq![usual] + p.filter(f).push(others.last()));
    } else {
        assert(listed_first(Some(usual), others) =~= seq![usual] + others.filter(f));
        assert(listed_first(None, others) =~= others);
    }
}

proof fn lemma_place_of_is(names: Seq<Seq<char>>, name: Seq<char>)
    ensures
        match place_of(names, name) {
            Some(i) => 0 <= i < names.len() && names[i] == name && forall|j: int|
                0 <= j < i ==> #[trigger] names[j] != name,
            None => !names.contains(name),
        },
    decreases names.len(),
{
    if names.len() > 0 {
        let p = names.drop_last();
        lemma_place_of_is(p, name);
        assert(forall|j: int| 0 <= j < p.len() ==> p[j] == #[trigger] names[j]);
        if names.contains(name) && place_of(p, name) is None {
            let j = choose|j: int| 0 <= j < names.len() && names[j] == name;
            if j < p.len() {
                assert(p[j] == name);
                assert(p.contains(name));
            }
        }
    }
}

/// A recording is made with the first device of the wanted name, and with the usual one where there is none.
pub proof fn law_wanted_device_is_used(wanted: Seq<char>, names: Seq<Seq<char>>, i: int, usual: bool)
    requires
        names.len() <= usize::MAX,
    ensures
        0 <= i < names.len() && names[i] == wanted && (forall|j: int| 0 <= j < i ==> #[trigger] names[j] != wanted)
            ==> device_of(Some(wanted), names, usual) == Some(Device::Listed(i as usize)),
        !names.contains(wanted) ==> device_of(Some(wanted), names, true) == Some(Device::Usual) && device_of(
            Some(wanted),
            names,
            false,
        ) is None,
        device_of(None, names, true) == Some(Device::Usual) && device_of(None, names, false) is None,
{
    lemma_place_of_is(names, wanted);
    if 0 <= i < names.len() && names[i] == wanted && (forall|j: int| 0 <= j < i ==> #[trigger] names[j] != wanted) {
        assert(names.contains(wanted));
        let k = place_of(names, wanted)->0;
        assert(names[k] == wanted && names[i] == wanted);
    }
}

/// Every file that ends in ".mp3" is a voice, named by its path without that ending, however often it stands there,
/// and fetched from its path; nothing else is one.
pub proof fn law_catalogue_holds_every_voice(items: Seq<Doc>, d: Doc, p: Seq<char>)
    ensures
        voices_in(Seq::empty()).len() == 0,
        d.text_at("path"@) is None || !text::ends(d.text_at("path"@)->0, ".mp3"@) ==> voices_in(items.push(d))
            == voices_in(items),
        d.text_at("path"@) is Some && text::ends(d.text_at("path"@)->0, ".mp3"@) ==> {
            let q = d.text_at("path"@)->0;
            let now = voices_in(items.push(d));
            let v = now.last();
            &&& now == voices_in(items).push(v)
            &&& v.name == bare_name(q)
            &&& v.url == "https://huggingface.co/datasets/"@ + "Slait/russia_voices"@ + "/resolve/main/"@ + q
            &&& words::occurs(v.name, "Female"@) ==> v.gender == "female"@
            &&& !words::occurs(v.name, "Female"@) && words::occurs(v.name, "Male"@) ==> v.gender == "male"@
            &&& !words::occurs(v.name, "Female"@) && !words::occurs(v.name, "Male"@) ==> v.gender == "?"@
        },
        bare_name(p + seq!['.', 'm', 'p', '3']) == bare_name(p),
        !text::ends(p, seq!['.', 'm', 'p', '3']) ==> bare_name(p) == p,
{
    assert(items.push(d).drop_last() =~= items);
    let e = seq!['.', 'm', 'p', '3'];
    let s = p + e;
    let n = p.len() as int;
    assert(s[n] == '.' && s[n + 1] == 'm' && s[n + 2] == 'p' && s[n + 3] == '3');
    assert(s.take(n) =~= p);
    if is_mp3(p) {
        assert(p.skip(p.len() - 4) =~= e);
    }
}

} // verus!
