//! Which variant of each engine's model is used: the one selected if it is installed, else the best
//! installed one, else the default.

use crate::json;
use crate::json::Doc;
use crate::json::Json;
use crate::media;
use crate::order;
use crate::setup::download;
use crate::text;
use crate::words;
use vstd::prelude::*;

verus! {

// ── The selection ───────────────────────────────────────────────────────────

/// The selection that a file holds: an object, or none where the file is missing or holds no object.
pub open spec fn selection_in(file: Option<Seq<char>>) -> Doc {
    match file {
        Some(t) => match json::parsed(t) {
            Some(Doc::Object(ms)) => Doc::Object(ms),
            _ => Doc::Object(Seq::empty()),
        },
        None => Doc::Object(Seq::empty()),
    }
}

fn no_selection() -> (r: Json)
    ensures
        r@ == Doc::Object(Seq::empty()),
{
    let r = Json::Object(Vec::new());
    assert(r@->Object_0 =~= Seq::empty());
    r
}

/// The selection that a file with the content `file` holds.
pub fn load_selection(file: Option<&str>) -> (r: Json)
    ensures
        r@ == selection_in(download::opt_str_view(file)),
{
    match file {
        Some(t) => match json::read(t) {
            Some(j) => object_or_none(j),
            None => no_selection(),
        },
        None => no_selection(),
    }
}

/// The document if it is an object, else an empty one.
pub fn object_or_none(j: Json) -> (r: Json)
    ensures
        r@ == (match j@ {
            Doc::Object(ms) => Doc::Object(ms),
            _ => Doc::Object(Seq::empty()),
        }),
{
    match j {
        Json::Object(v) => Json::Object(v),
        _ => no_selection(),
    }
}

/// The members with the text `value` in the slot `key`: in the place of the one that was there, else
/// behind the others.
pub open spec fn put(ms: Seq<(Seq<char>, Doc)>, key: Seq<char>, value: Seq<char>) -> Seq<
    (Seq<char>, Doc),
>
    decreases ms.len(),
{
    if ms.len() == 0 {
        seq![(key, Doc::Text(value))]
    } else if ms[0].0 == key {
        seq![(key, Doc::Text(value))] + ms.drop_first()
    } else {
        seq![ms[0]] + put(ms.drop_first(), key, value)
    }
}

/// The selection with the variant `value` in the slot `key`.
pub fn set_selection(sel: Json, key: &str, value: &str) -> (r: Json)
    ensures
        r@ == Doc::Object(
            put(
                match sel@ {
                    Doc::Object(ms) => ms,
                    _ => Seq::empty(),
                },
                key@,
                value@,
            ),
        ),
{
    let ghost was = match sel@ {
        Doc::Object(ms) => ms,
        _ => Seq::empty(),
    };
    let mut v: Vec<(String, Json)> = match sel {
        Json::Object(v) => v,
        _ => Vec::new(),
    };
    let ghost ms = members(v@);
    assert(ms =~= was);
    let n: usize = v.len();
    let mut i: usize = 0;
    assert(ms.take(0) =~= Seq::empty());
    assert(ms.skip(0) =~= ms);
    assert(Seq::<(Seq<char>, Doc)>::empty() + put(ms, key@, value@) =~= put(ms, key@, value@));
    while i < n && !text::same(v[i].0.as_str(), key)
        invariant
            i <= n == v@.len(),
            ms == members(v@),
            ms.take(i as int) + put(ms.skip(i as int), key@, value@) == put(ms, key@, value@),
        decreases n - i,
    {
        proof {
            let rest = ms.skip(i as int);
            assert(rest[0] == ms[i as int]);
            assert(rest.drop_first() =~= ms.skip(i + 1));
            assert(ms.take(i as int) + put(rest, key@, value@) =~= ms.take(i + 1) + put(
                ms.skip(i + 1),
                key@,
                value@,
            ));
        }
        i += 1;
    }
    let entry = (key.to_owned(), Json::Text(value.to_owned()));
    let ghost ev = (key@, Doc::Text(value@));
    if i < n {
        let ghost rest = ms.skip(i as int);
        assert(rest[0] == ms[i as int]);
        let old = v.remove(i);
        v.insert(i, entry);
        proof {
            assert(rest.drop_first() =~= ms.skip(i + 1));
            assert(members(v@) =~= ms.take(i as int) + (seq![ev] + ms.skip(i + 1)));
        }
    } else {
        assert(ms.skip(n as int).len() == 0);
        v.push(entry);
        assert(members(v@) =~= ms.take(n as int) + seq![ev]);
    }
    let r = Json::Object(v);
    assert(r@->Object_0 =~= members(v@));
    r
}

pub open spec fn members(v: Seq<(String, Json)>) -> Seq<(Seq<char>, Doc)> {
    v.map_values(|p: (String, Json)| (p.0@, p.1@))
}

/// The variant selected in the slot `key`: its text without white space around it, if there is any.
pub open spec fn picked(sel: Doc, key: Seq<char>) -> Option<Seq<char>> {
    match sel.text_at(key) {
        Some(t) if text::trimmed(t).len() > 0 => Some(text::trimmed(t)),
        _ => None,
    }
}

pub open spec fn opt(s: Option<String>) -> Option<Seq<char>> {
    match s {
        Some(t) => Some(t@),
        None => None,
    }
}

/// The variant selected in the slot `key`.
pub fn pick(sel: &Json, key: &str) -> (r: Option<String>)
    ensures
        opt(r) == picked(sel@, key@),
{
    match sel.text_at(key) {
        Some(t) => {
            let s = text::trim(t.as_str());
            if s.as_str().is_empty() {
                None
            } else {
                Some(s)
            }
        },
        None => None,
    }
}

/// Whether the slot `key` holds `value`.
pub fn picks(sel: &Json, key: &str, value: &str) -> (r: bool)
    ensures
        r == (picked(sel@, key@) == Some(value@)),
{
    match pick(sel, key) {
        Some(s) => text::same(s.as_str(), value),
        None => false,
    }
}

/// Whether a switch that is on unless it is set to "0" is on.
pub fn on_unless_zero(sel: &Json, key: &str) -> (r: bool)
    ensures
        r == (sel@.text_at(key@) != Some("0"@)),
{
    match sel.text_at(key) {
        Some(t) => !text::same(t.as_str(), "0"),
        None => true,
    }
}

/// Whether a switch that is off unless it is set to "1" is on.
pub fn off_unless_one(sel: &Json, key: &str) -> (r: bool)
    ensures
        r == (sel@.text_at(key@) == Some("1"@)),
{
    match sel.text_at(key) {
        Some(t) => text::same(t.as_str(), "1"),
        None => false,
    }
}

/// Whether the stages are timed.
pub open spec fn benched(sel: Doc) -> bool {
    picked(sel, "bench"@) == Some("1"@)
}

/// Whether the stages are timed, by the file in which the selection is kept.
pub fn bench_enabled(file: Option<&str>) -> (r: bool)
    ensures
        r == benched(selection_in(download::opt_str_view(file))),
{
    bench_selected(&load_selection(file))
}

/// Whether the stages are timed.
pub fn bench_selected(sel: &Json) -> (r: bool)
    ensures
        r == benched(sel@),
{
    picks(sel, "bench", "1")
}

/// The number in the slot `key`, in millionths: written as a number or as a text.
pub open spec fn number_in(sel: Doc, key: Seq<char>) -> Option<int> {
    match sel.get(key) {
        Some(Doc::Number { written, .. }) => media::moment(written),
        Some(Doc::Text(t)) => media::moment(text::trimmed(t)),
        _ => None,
    }
}

/// The number in the slot `key`, in millionths.
pub fn sel_num(sel: &Json, key: &str) -> (r: Option<i64>)
    ensures
        match r {
            Some(n) => number_in(sel@, key@) == Some(n as int),
            None => number_in(sel@, key@) is None,
        },
{
    match sel.get(key) {
        Some(Json::Number(n)) => media::read_moment(n.written.as_str()),
        Some(Json::Text(t)) => media::read_moment(text::trim(t.as_str()).as_str()),
        _ => None,
    }
}

/// How long a voice sample is, in microseconds: as set, up to a minute, else twelve seconds.
pub open spec fn sample_length(sel: Doc) -> int {
    match number_in(sel, "higgs_ref_secs"@) {
        Some(n) if 0 < n <= 60_000_000 => n,
        _ => 12_000_000,
    }
}

/// How long a voice sample is, in microseconds.
pub fn higgs_ref_secs(sel: &Json) -> (r: i64)
    ensures
        r == sample_length(sel@),
{
    match sel_num(sel, "higgs_ref_secs") {
        Some(n) => if 0 < n && n <= 60_000_000 {
            n
        } else {
            12_000_000
        },
        None => 12_000_000,
    }
}

/// What choosing the component `id` selects: for each slot the variant.
pub open spec fn selects(id: Seq<char>) -> Seq<(Seq<char>, Seq<char>)> {
    if id == "higgs"@ {
        seq![("tts"@, "q8_0"@)]
    } else if id == "higgs-q6_k"@ {
        seq![("tts"@, "q6_k"@)]
    } else if id == "higgs-q4_k_m"@ {
        seq![("tts"@, "q4_k_m"@)]
    } else if id == "parakeet"@ {
        seq![("asr_engine"@, "parakeet"@), ("asr"@, "int8"@)]
    } else if id == "parakeet-fp32"@ {
        seq![("asr_engine"@, "parakeet"@), ("asr"@, "fp32"@)]
    } else if id == "whisper-tiny"@ {
        seq![("asr_engine"@, "whisper"@), ("whisper_model"@, "tiny"@)]
    } else if id == "whisper-base"@ {
        seq![("asr_engine"@, "whisper"@), ("whisper_model"@, "base"@)]
    } else if id == "whisper-small"@ {
        seq![("asr_engine"@, "whisper"@), ("whisper_model"@, "small"@)]
    } else if id == "whisper-medium"@ {
        seq![("asr_engine"@, "whisper"@), ("whisper_model"@, "medium"@)]
    } else if id == "whisper-large-v3"@ {
        seq![("asr_engine"@, "whisper"@), ("whisper_model"@, "large-v3"@)]
    } else if id == "whisper-large-v3-turbo"@ {
        seq![("asr_engine"@, "whisper"@), ("whisper_model"@, "large-v3-turbo"@)]
    } else if id == "gemma"@ {
        seq![("mt"@, "q4_0"@)]
    } else if id == "gemma-q5_0"@ {
        seq![("mt"@, "q5_0"@)]
    } else if id == "gemma-q6_k"@ {
        seq![("mt"@, "q6_k"@)]
    } else if id == "gemma-q8_0"@ {
        seq![("mt"@, "q8_0"@)]
    } else if id == "roformer"@ {
        seq![("sep"@, "Q8_0"@)]
    } else if id == "roformer-q5"@ {
        seq![("sep"@, "Q5_0"@)]
    } else if id == "roformer-q4"@ {
        seq![("sep"@, "Q4_0"@)]
    } else {
        Seq::empty()
    }
}

pub open spec fn slot_views(v: Seq<(&'static str, String)>) -> Seq<(Seq<char>, Seq<char>)> {
    v.map_values(|p: (&'static str, String)| (p.0@, p.1@))
}

fn slot(a: &'static str, x: &str) -> (r: Vec<(&'static str, String)>)
    ensures
        slot_views(r@) == seq![(a@, x@)],
{
    let r = vec![(a, x.to_owned())];
    assert(slot_views(r@) =~= seq![(a@, x@)]);
    r
}

fn two_slots(a: &'static str, x: &str, b: &'static str, y: &str) -> (r: Vec<(&'static str, String)>)
    ensures
        slot_views(r@) == seq![(a@, x@), (b@, y@)],
{
    let r = vec![(a, x.to_owned()), (b, y.to_owned())];
    assert(slot_views(r@) =~= seq![(a@, x@), (b@, y@)]);
    r
}

/// What choosing the component `id` selects. A speech recognition model selects its engine too.
pub fn component_selection(id: &str) -> (r: Vec<(&'static str, String)>)
    ensures
        slot_views(r@) == selects(id@),
{
    if text::same(id, "higgs") {
        slot("tts", "q8_0")
    } else if text::same(id, "higgs-q6_k") {
        slot("tts", "q6_k")
    } else if text::same(id, "higgs-q4_k_m") {
        slot("tts", "q4_k_m")
    } else if text::same(id, "parakeet") {
        two_slots("asr_engine", "parakeet", "asr", "int8")
    } else if text::same(id, "parakeet-fp32") {
        two_slots("asr_engine", "parakeet", "asr", "fp32")
    } else if text::same(id, "whisper-tiny") {
        two_slots("asr_engine", "whisper", "whisper_model", "tiny")
    } else if text::same(id, "whisper-base") {
        two_slots("asr_engine", "whisper", "whisper_model", "base")
    } else if text::same(id, "whisper-small") {
        two_slots("asr_engine", "whisper", "whisper_model", "small")
    } else if text::same(id, "whisper-medium") {
        two_slots("asr_engine", "whisper", "whisper_model", "medium")
    } else if text::same(id, "whisper-large-v3") {
        two_slots("asr_engine", "whisper", "whisper_model", "large-v3")
    } else if text::same(id, "whisper-large-v3-turbo") {
        two_slots("asr_engine", "whisper", "whisper_model", "large-v3-turbo")
    } else if text::same(id, "gemma") {
        slot("mt", "q4_0")
    } else if text::same(id, "gemma-q5_0") {
        slot("mt", "q5_0")
    } else if text::same(id, "gemma-q6_k") {
        slot("mt", "q6_k")
    } else if text::same(id, "gemma-q8_0") {
        slot("mt", "q8_0")
    } else if text::same(id, "roformer") {
        slot("sep", "Q8_0")
    } else if text::same(id, "roformer-q5") {
        slot("sep", "Q5_0")
    } else if text::same(id, "roformer-q4") {
        slot("sep", "Q4_0")
    } else {
        let none: Vec<(&'static str, String)> = Vec::new();
        assert(slot_views(none@) =~= Seq::empty());
        none
    }
}

/// Whether the slot can be set directly.
pub open spec fn settable(key: Seq<char>) -> bool {
    ||| key == "tts"@
    ||| key == "asr"@
    ||| key == "mt"@
    ||| key == "sep"@
    ||| key == "asr_engine"@
    ||| key == "whisper_model"@
    ||| key == "whisper_compute"@
    ||| key == "whisper_device"@
    ||| key == "llama_ubatch"@
    ||| key == "higgs_ref_secs"@
    ||| key == "bench"@
}

/// Whether the slot can be set directly.
pub fn is_selection_key(key: &str) -> (r: bool)
    ensures
        r == settable(key@),
{
    text::same(key, "tts") || text::same(key, "asr") || text::same(key, "mt") || text::same(key, "sep") || text::same(key, "asr_engine") || text::same(key, "whisper_model") || text::same(key, "whisper_compute") || text::same(key, "whisper_device") || text::same(key, "llama_ubatch") || text::same(key, "higgs_ref_secs") || text::same(key, "bench")
}
// ── What is installed ───────────────────────────────────────────────────────

/// Whether the file is among those under the models' directory.
pub open spec fn there(files: Seq<Seq<char>>, rel: Seq<char>) -> bool {
    crate::setup::status::listed(files, rel)
}

fn is_there(files: &Vec<String>, rel: &str) -> (r: bool)
    ensures
        r == there(text::views(files@), rel@),
{
    let ghost fv = text::views(files@);
    for i in 0..files.len()
        invariant
            fv == text::views(files@),
            forall|j: int| 0 <= j < i ==> #[trigger] fv[j] != rel@,
    {
        assert(fv[i as int] == files@[i as int]@);
        if text::same(files[i].as_str(), rel) {
            return true;
        }
    }
    false
}

/// The file that shows that the variant `q` of the voice is installed.
pub open spec fn tts_file(q: Seq<char>) -> Seq<char> {
    "higgs-"@ + q + "/"@ + q + ".gguf"@
}

fn has_tts(files: &Vec<String>, q: &str) -> (r: bool)
    ensures
        r == there(text::views(files@), tts_file(q@)),
{
    let mut p = "higgs-".to_owned();
    p.append(q);
    p.append("/");
    p.append(q);
    p.append(".gguf");
    is_there(files, p.as_str())
}

/// The variant of the voice.
pub open spec fn tts_of(sel: Doc, files: Seq<Seq<char>>) -> Seq<char> {
    match picked(sel, "tts"@) {
        Some(q) if there(files, tts_file(q)) => q,
        _ => if there(files, tts_file("q8_0"@)) {
            "q8_0"@
        } else if there(files, tts_file("q6_k"@)) {
            "q6_k"@
        } else if there(files, tts_file("q4_k_m"@)) {
            "q4_k_m"@
        } else {
            "q8_0"@
        },
    }
}

/// The variant that the directory `dir` of a voice is named after.
pub open spec fn variant_in(dir: Seq<char>) -> Seq<char> {
    match file_name(dir) {
        Some(n) if text::starts(n, "higgs-"@) => n.skip("higgs-"@.len() as int),
        _ => "q8_0"@,
    }
}

fn read_variant(dir: &str) -> (r: String)
    ensures
        r@ == variant_in(dir@),
{
    if let Some(n) = file_name_of(dir) {
        if text::starts_with(n.as_str(), "higgs-") {
            let v = text::chars_of(n.as_str());
            let k: usize = text::chars_of("higgs-").len();
            let q = text::slice_text(&v, k, v.len());
            assert(q@ =~= n@.skip(k as int));
            return q;
        }
    }
    "q8_0".to_owned()
}

/// A path in the models' directory.
pub open spec fn in_models(mroot: Seq<char>, rel: Seq<char>) -> Seq<char> {
    mroot + "/"@ + rel
}

fn join_models(mroot: &str, rel: &str) -> (r: String)
    ensures
        r@ == in_models(mroot@, rel@),
{
    let mut p = mroot.to_owned();
    p.append("/");
    p.append(rel);
    p
}

/// The variant of the voice: its directory and its name. What the environment says goes first. `files`
/// are the files under the models' directory `mroot`, by their paths in it.
pub fn resolve_tts(setting: Option<&str>, mroot: &str, sel: &Json, files: &Vec<String>) -> (r: (
    String,
    String,
))
    ensures
        match setting {
            Some(d) => r.0@ == d@ && r.1@ == variant_in(d@),
            None => r.1@ == tts_of(sel@, text::views(files@)) && r.0@ == in_models(
                mroot@,
                "higgs-"@ + r.1@,
            ),
        },
{
    if let Some(d) = setting {
        return (d.to_owned(), read_variant(d));
    }
    let mut q: Option<String> = None;
    if let Some(p) = pick(sel, "tts") {
        if has_tts(files, p.as_str()) {
            q = Some(p);
        }
    }
    let q: String = match q {
        Some(p) => p,
        None => if has_tts(files, "q8_0") {
            "q8_0".to_owned()
        } else if has_tts(files, "q6_k") {
            "q6_k".to_owned()
        } else if has_tts(files, "q4_k_m") {
            "q4_k_m".to_owned()
        } else {
            "q8_0".to_owned()
        },
    };
    let mut dir = "higgs-".to_owned();
    dir.append(q.as_str());
    (join_models(mroot, dir.as_str()), q)
}

/// The file of the variant `q` of the separation.
pub open spec fn sep_file(q: Seq<char>) -> Seq<char> {
    "bsroformer/voc_fv6-"@ + q + ".gguf"@
}

fn sep_path(q: &str) -> (r: String)
    ensures
        r@ == sep_file(q@),
{
    let mut p = "bsroformer/voc_fv6-".to_owned();
    p.append(q);
    p.append(".gguf");
    p
}

/// The file of the separation's model.
pub open spec fn sep_of(sel: Doc, files: Seq<Seq<char>>) -> Seq<char> {
    match picked(sel, "sep"@) {
        Some(q) if there(files, sep_file(q)) => sep_file(q),
        _ => if there(files, sep_file("Q8_0"@)) {
            sep_file("Q8_0"@)
        } else if there(files, sep_file("Q5_0"@)) {
            sep_file("Q5_0"@)
        } else if there(files, sep_file("Q4_0"@)) {
            sep_file("Q4_0"@)
        } else {
            sep_file("Q8_0"@)
        },
    }
}

fn find_sep(sel: &Json, files: &Vec<String>) -> (r: String)
    ensures
        r@ == sep_of(sel@, text::views(files@)),
{
    if let Some(q) = pick(sel, "sep") {
        let p = sep_path(q.as_str());
        if is_there(files, p.as_str()) {
            return p;
        }
    }
    if is_there(files, sep_path("Q8_0").as_str()) {
        sep_path("Q8_0")
    } else if is_there(files, sep_path("Q5_0").as_str()) {
        sep_path("Q5_0")
    } else if is_there(files, sep_path("Q4_0").as_str()) {
        sep_path("Q4_0")
    } else {
        sep_path("Q8_0")
    }
}

/// The file of the separation's model. What the environment says goes first.
pub fn resolve_sep(setting: Option<&str>, mroot: &str, sel: &Json, files: &Vec<String>) -> (r: String)
    ensures
        r@ == match setting {
            Some(p) => p@,
            None => in_models(mroot@, sep_of(sel@, text::views(files@))),
        },
{
    match setting {
        Some(p) => p.to_owned(),
        None => join_models(mroot, find_sep(sel, files).as_str()),
    }
}

/// The directory of the speech recognition model.
pub open spec fn asr_of(sel: Doc, files: Seq<Seq<char>>) -> Seq<char> {
    let full = there(files, "tdt-fp32/encoder-model.onnx"@);
    let small = there(files, "tdt/encoder-model.int8.onnx"@);
    if full && (picked(sel, "asr"@) == Some("fp32"@) || !small) {
        "tdt-fp32"@
    } else {
        "tdt"@
    }
}

/// The directory of the speech recognition model. What the environment says goes first.
pub fn resolve_asr(setting: Option<&str>, mroot: &str, sel: &Json, files: &Vec<String>) -> (r: String)
    ensures
        r@ == asr_place(setting_view(setting), mroot@, sel@, text::views(files@)),
{
    if let Some(d) = setting {
        return d.to_owned();
    }
    let full = is_there(files, "tdt-fp32/encoder-model.onnx");
    let small = is_there(files, "tdt/encoder-model.int8.onnx");
    if full && (picks(sel, "asr", "fp32") || !small) {
        join_models(mroot, "tdt-fp32")
    } else {
        join_models(mroot, "tdt")
    }
}

pub open spec fn setting_view(setting: Option<&str>) -> Option<Seq<char>> {
    match setting {
        Some(s) => Some(s@),
        None => None,
    }
}

/// Where the speech recognition model lies: where the environment says, else in the models' directory.
pub open spec fn asr_place(
    setting: Option<Seq<char>>,
    mroot: Seq<char>,
    sel: Doc,
    files: Seq<Seq<char>>,
) -> Seq<char> {
    match setting {
        Some(d) => d,
        None => in_models(mroot, asr_of(sel, files)),
    }
}

// ── Speech recognition ──────────────────────────────────────────────────────

/// The engine that recognises speech.
#[derive(Clone, Debug)]
pub enum AsrChoice {
    /// With the model in that directory.
    Parakeet(String),
    Whisper { bin: String, model_dir: String, model: String, compute: String, device: String },
}

/// The parts of a path that lead somewhere.
pub open spec fn path_parts(parts: Seq<Seq<char>>) -> Seq<Seq<char>>
    decreases parts.len(),
{
    if parts.len() == 0 {
        parts
    } else if parts.last().len() == 0 || parts.last() == "."@ {
        path_parts(parts.drop_last())
    } else {
        path_parts(parts.drop_last()).push(parts.last())
    }
}

/// The last part of a path, if that is a name.
pub open spec fn file_name(path: Seq<char>) -> Option<Seq<char>> {
    let parts = path_parts(text::pieces(path, '/'));
    if parts.len() == 0 || parts.last() == ".."@ {
        None
    } else {
        Some(parts.last())
    }
}

/// The last part of a path, if that is a name.
pub fn file_name_of(path: &str) -> (r: Option<String>)
    ensures
        opt(r) == file_name(path@),
{
    let parts = text::split_at_each(path, '/');
    let ghost pv = text::pieces(path@, '/');
    let mut last: Option<String> = None;
    assert(pv.take(0) =~= Seq::empty());
    for i in 0..parts.len()
        invariant
            text::views(parts@) == pv,
            ({
                let kept = path_parts(pv.take(i as int));
                opt(last) == if kept.len() == 0 {
                    None
                } else {
                    Some(kept.last())
                }
            }),
    {
        assert(pv.take(i + 1).drop_last() =~= pv.take(i as int));
        assert(pv.take(i + 1).last() == parts@[i as int]@);
        if !(parts[i].as_str().is_empty() || text::same(parts[i].as_str(), ".")) {
            last = Some(parts[i].clone());
        }
    }
    assert(pv.take(parts@.len() as int) =~= pv);
    match last {
        Some(s) => if text::same(s.as_str(), "..") {
            None
        } else {
            Some(s)
        },
        None => None,
    }
}

impl AsrChoice {
    /// What is written of the choice: names that stay the same wherever the models lie.
    pub open spec fn described(self) -> Seq<char> {
        match self {
            AsrChoice::Parakeet(d) => "Parakeet ("@ + (match file_name(d@) {
                Some(n) => n,
                None => "tdt"@,
            }) + ")"@,
            AsrChoice::Whisper { model, compute, device, .. } => "Whisper "@ + model@
                + " (compute="@ + compute@ + ", device="@ + device@ + ")"@,
        }
    }

    /// What is written of the choice.
    pub fn describe(&self) -> (r: String)
        ensures
            r@ == self.described(),
    {
        match self {
            AsrChoice::Parakeet(d) => {
                let mut m = "Parakeet (".to_owned();
                match file_name_of(d.as_str()) {
                    Some(n) => m.append(n.as_str()),
                    None => m.append("tdt"),
                }
                m.append(")");
                m
            },
            AsrChoice::Whisper { model, compute, device, .. } => {
                let mut m = "Whisper ".to_owned();
                m.append(model.as_str());
                m.append(" (compute=");
                m.append(compute.as_str());
                m.append(", device=");
                m.append(device.as_str());
                m.append(")");
                m
            },
        }
    }
}

/// Where the Whisper program lies: where the environment says, else below the root, on Windows the newer
/// program where it is there.
pub open spec fn whisper_program(
    setting: Option<Seq<char>>,
    repo: Seq<char>,
    windows: bool,
    newer_there: bool,
) -> Seq<char> {
    match setting {
        Some(p) => p,
        None => repo + "/tools/whisper/"@ + if !windows {
            "whisper-faster"@
        } else if newer_there {
            "Faster-Whisper-XXL/faster-whisper-xxl.exe"@
        } else {
            "whisper-faster.exe"@
        },
    }
}

/// Where the Whisper program lies.
pub fn whisper_bin(setting: Option<&str>, repo_root: &str, windows: bool, newer_there: bool) -> (r:
    String)
    ensures
        r@ == whisper_program(
            match setting {
                Some(s) => Some(s@),
                None => None,
            },
            repo_root@,
            windows,
            newer_there,
        ),
{
    match setting {
        Some(p) => p.to_owned(),
        None => {
            let mut p = repo_root.to_owned();
            p.append("/tools/whisper/");
            p.append(
                if !windows {
                    "whisper-faster"
                } else if newer_there {
                    "Faster-Whisper-XXL/faster-whisper-xxl.exe"
                } else {
                    "whisper-faster.exe"
                },
            );
            p
        },
    }
}

/// The file that shows that a model of that size is installed.
pub open spec fn whisper_file(size: Seq<char>) -> Seq<char> {
    "whisper/faster-whisper-"@ + size + "/model.bin"@
}

/// Whether a model of that size is installed.
pub fn whisper_model_installed(files: &Vec<String>, size: &str) -> (r: bool)
    ensures
        r == there(text::views(files@), whisper_file(size@)),
{
    let mut p = "whisper/faster-whisper-".to_owned();
    p.append(size);
    p.append("/model.bin");
    is_there(files, p.as_str())
}

/// The model that Whisper uses: the one selected if it is installed, else the best installed.
pub open spec fn whisper_model_of(sel: Doc, files: Seq<Seq<char>>) -> Option<Seq<char>> {
    match picked(sel, "whisper_model"@) {
        Some(m) if there(files, whisper_file(m)) => Some(m),
        _ => if there(files, whisper_file("large-v3-turbo"@)) {
            Some("large-v3-turbo"@)
        } else if there(files, whisper_file("large-v3"@)) {
            Some("large-v3"@)
        } else if there(files, whisper_file("medium"@)) {
            Some("medium"@)
        } else if there(files, whisper_file("small"@)) {
            Some("small"@)
        } else if there(files, whisper_file("base"@)) {
            Some("base"@)
        } else if there(files, whisper_file("tiny"@)) {
            Some("tiny"@)
        } else {
            None
        },
    }
}

fn whisper_model(sel: &Json, files: &Vec<String>) -> (r: Option<String>)
    ensures
        opt(r) == whisper_model_of(sel@, text::views(files@)),
{
    if let Some(m) = pick(sel, "whisper_model") {
        if whisper_model_installed(files, m.as_str()) {
            return Some(m);
        }
    }
    if whisper_model_installed(files, "large-v3-turbo") {
        Some("large-v3-turbo".to_owned())
    } else if whisper_model_installed(files, "large-v3") {
        Some("large-v3".to_owned())
    } else if whisper_model_installed(files, "medium") {
        Some("medium".to_owned())
    } else if whisper_model_installed(files, "small") {
        Some("small".to_owned())
    } else if whisper_model_installed(files, "base") {
        Some("base".to_owned())
    } else if whisper_model_installed(files, "tiny") {
        Some("tiny".to_owned())
    } else {
        None
    }
}

pub open spec fn device_of(sel: Doc, cuda: bool) -> Seq<char> {
    match picked(sel, "whisper_device"@) {
        Some(d) => d,
        None => if cuda {
            "cuda"@
        } else {
            "cpu"@
        },
    }
}

/// A number format that the processor cannot compute in.
pub open spec fn gpu_only(compute: Seq<char>) -> bool {
    compute == "float16"@ || compute == "bfloat16"@ || compute == "int8_float16"@ || compute
        == "int8_bfloat16"@
}

/// The number format: as selected, else the one that suits the device; on the processor never one that
/// it cannot compute in.
pub open spec fn compute_of(sel: Doc, device: Seq<char>) -> Seq<char> {
    let wanted = match picked(sel, "whisper_compute"@) {
        Some(c) => c,
        None => if device == "cuda"@ {
            "float16"@
        } else {
            "int8"@
        },
    };
    if device == "cpu"@ && gpu_only(wanted) {
        "int8"@
    } else {
        wanted
    }
}

/// Whether Whisper is used: it is selected, its program is there, and a model is installed.
pub open spec fn uses_whisper(sel: Doc, files: Seq<Seq<char>>, bin_there: bool) -> bool {
    picked(sel, "asr_engine"@) == Some("whisper"@) && bin_there && whisper_model_of(sel, files)
        is Some
}

/// The engine that recognises speech. `mroot` is the models' directory, `files` the files in it, `bin`
/// the program of Whisper, which is there or is not, with or without the libraries for CUDA beside it;
/// `setting` is what the environment says of the other engine's model.
pub fn resolve_asr_choice(
    sel: &Json,
    files: &Vec<String>,
    mroot: &str,
    bin: &str,
    bin_there: bool,
    cuda_libs: bool,
    setting: Option<&str>,
) -> (r: AsrChoice)
    ensures
        match r {
            AsrChoice::Parakeet(d) => {
                &&& !uses_whisper(sel@, text::views(files@), bin_there)
                &&& d@ == asr_place(setting_view(setting), mroot@, sel@, text::views(files@))
            },
            AsrChoice::Whisper { bin: b, model_dir, model, compute, device } => {
                &&& uses_whisper(sel@, text::views(files@), bin_there)
                &&& b@ == bin@
                &&& model_dir@ == mroot@ + "/whisper"@
                &&& Some(model@) == whisper_model_of(sel@, text::views(files@))
                &&& device@ == device_of(sel@, cuda_libs)
                &&& compute@ == compute_of(sel@, device@)
            },
        },
{
    if picks(sel, "asr_engine", "whisper") && bin_there {
        if let Some(model) = whisper_model(sel, files) {
            let device: String = match pick(sel, "whisper_device") {
                Some(d) => d,
                None => if cuda_libs {
                    "cuda".to_owned()
                } else {
                    "cpu".to_owned()
                },
            };
            let wanted: String = match pick(sel, "whisper_compute") {
                Some(c) => c,
                None => if text::same(device.as_str(), "cuda") {
                    "float16".to_owned()
                } else {
                    "int8".to_owned()
                },
            };
            let w = wanted.as_str();
            let narrow = text::same(device.as_str(), "cpu") && (text::same(w, "float16")
                || text::same(w, "bfloat16") || text::same(w, "int8_float16") || text::same(
                w,
                "int8_bfloat16",
            ));
            let compute: String = if narrow {
                "int8".to_owned()
            } else {
                wanted.clone()
            };
            let mut model_dir = mroot.to_owned();
            model_dir.append("/whisper");
            return AsrChoice::Whisper { bin: bin.to_owned(), model_dir, model, compute, device };
        }
    }
    AsrChoice::Parakeet(resolve_asr(setting, mroot, sel, files))
}

/// Whether the libraries for CUDA lie beside the program of Whisper: the self-contained build brings
/// them, any other needs both of two kinds. `names` are the files beside it.
pub open spec fn cuda_libs_in(bin_name: Seq<char>, names: Seq<Seq<char>>) -> bool {
    ||| text::ascii_lower(bin_name) == "faster-whisper-xxl.exe"@
    ||| (there(names, "cublas64_11.dll"@) || there(names, "cublas64_12.dll"@)) && exists|i: int|
        0 <= i < names.len() && is_cudnn(#[trigger] names[i])
}

pub open spec fn is_cudnn(name: Seq<char>) -> bool {
    text::starts(text::lowercase(name), "cudnn"@) && text::ends(text::lowercase(name), ".dll"@)
}

/// Whether the libraries for CUDA lie beside the program of Whisper.
pub fn whisper_cuda_libs_present(bin_name: &str, names: &Vec<String>) -> (r: bool)
    ensures
        r == cuda_libs_in(bin_name@, text::views(names@)),
{
    if text::same(text::lower_ascii(bin_name).as_str(), "faster-whisper-xxl.exe") {
        return true;
    }
    let cublas = is_there(names, "cublas64_11.dll") || is_there(names, "cublas64_12.dll");
    let ghost nv = text::views(names@);
    let mut cudnn = false;
    for i in 0..names.len()
        invariant
            nv == text::views(names@),
            cudnn == exists|j: int| 0 <= j < i && is_cudnn(#[trigger] nv[j]),
    {
        assert(nv[i as int] == names@[i as int]@);
        let low = text::to_lower(names[i].as_str());
        if text::starts_with(low.as_str(), "cudnn") && text::ends_with(low.as_str(), ".dll") {
            cudnn = true;
        }
    }
    cublas && cudnn
}

// ── Translation ─────────────────────────────────────────────────────────────

/// The directory of the variant `q` of the translation model.
pub open spec fn mt_dir(q: Seq<char>) -> Seq<char> {
    if q == "q4_0"@ {
        "mt"@
    } else {
        "mt-"@ + q
    }
}

fn mt_directory(q: &str) -> (r: String)
    ensures
        r@ == mt_dir(q@),
{
    if text::same(q, "q4_0") {
        "mt".to_owned()
    } else {
        let mut d = "mt-".to_owned();
        d.append(q);
        d
    }
}

/// The name of the file `rel` if it lies in the directory `dir` itself.
pub open spec fn name_in(rel: Seq<char>, dir: Seq<char>) -> Option<Seq<char>> {
    let head = dir + "/"@;
    if text::starts(rel, head) && text::first_index(rel.skip(head.len() as int), '/')
        == rel.len() - head.len() {
        Some(rel.skip(head.len() as int))
    } else {
        None
    }
}

fn read_name_in(rel: &str, dir: &str) -> (r: Option<String>)
    ensures
        opt(r) == name_in(rel@, dir@),
{
    let mut head = dir.to_owned();
    head.append("/");
    if !text::starts_with(rel, head.as_str()) {
        return None;
    }
    let v = text::chars_of(rel);
    let n: usize = text::chars_of(head.as_str()).len();
    if text::find_from(&v, n, '/') < v.len() {
        return None;
    }
    let r = text::slice_text(&v, n, v.len());
    assert(r@ =~= rel@.skip(n as int));
    Some(r)
}

/// Whether the file of that name is the model, or its projector.
pub open spec fn mt_part(name: Seq<char>, projector: bool) -> bool {
    download::is_gguf(name) && words::occurs(text::lowercase(name), "mmproj"@) == projector
}

/// The first in dictionary order of the names of the parts, among the first `n` files.
pub open spec fn mt_find(files: Seq<Seq<char>>, dir: Seq<char>, projector: bool, n: int) -> Option<
    Seq<char>,
>
    decreases n,
{
    if n <= 0 {
        None
    } else {
        let before = mt_find(files, dir, projector, n - 1);
        match name_in(files[n - 1], dir) {
            Some(name) if mt_part(name, projector) => match before {
                Some(b) if !order::before(name, b) => Some(b),
                _ => Some(name),
            },
            _ => before,
        }
    }
}

fn find_mt(files: &Vec<String>, dir: &str, projector: bool) -> (r: Option<String>)
    ensures
        opt(r) == mt_find(text::views(files@), dir@, projector, files@.len() as int),
{
    let ghost fv = text::views(files@);
    let mut hit: Option<String> = None;
    for n in 0..files.len()
        invariant
            fv == text::views(files@),
            opt(hit) == mt_find(fv, dir@, projector, n as int),
    {
        assert(fv[n as int] == files@[n as int]@);
        if let Some(name) = read_name_in(files[n].as_str(), dir) {
            let gguf = download::names_gguf(name.as_str());
            let proj = words::contains(text::to_lower(name.as_str()).as_str(), "mmproj");
            if gguf && proj == projector {
                let better = match &hit {
                    Some(h) => order::comes_before(name.as_str(), h.as_str()),
                    None => true,
                };
                if better {
                    hit = Some(name);
                }
            }
        }
    }
    hit
}

/// The model and the projector of the variant `q`, where both are there.
pub open spec fn mt_pair(files: Seq<Seq<char>>, q: Seq<char>) -> Option<(Seq<char>, Seq<char>)> {
    let d = mt_dir(q);
    match (
        mt_find(files, d, false, files.len() as int),
        mt_find(files, d, true, files.len() as int),
    ) {
        (Some(m), Some(p)) => Some((d + "/"@ + m, d + "/"@ + p)),
        _ => None,
    }
}

fn mt_files(files: &Vec<String>, q: &str) -> (r: Option<(String, String)>)
    ensures
        (match r {
            Some(p) => Some((p.0@, p.1@)),
            None => None,
        }) == mt_pair(text::views(files@), q@),
{
    let d = mt_directory(q);
    assert(text::views(files@).len() == files@.len());
    match (find_mt(files, d.as_str(), false), find_mt(files, d.as_str(), true)) {
        (Some(m), Some(p)) => {
            let mut a = d.clone();
            a.append("/");
            a.append(m.as_str());
            let mut b = d;
            b.append("/");
            b.append(p.as_str());
            Some((a, b))
        },
        _ => None,
    }
}

/// The files of the translation model and of its projector.
pub open spec fn mt_of(sel: Doc, files: Seq<Seq<char>>) -> (Seq<char>, Seq<char>) {
    let chosen = match picked(sel, "mt"@) {
        Some(q) => mt_pair(files, q),
        None => None,
    };
    match chosen {
        Some(p) => p,
        None => match mt_pair(files, "q8_0"@) {
            Some(p) => p,
            None => match mt_pair(files, "q6_k"@) {
                Some(p) => p,
                None => match mt_pair(files, "q5_0"@) {
                    Some(p) => p,
                    None => match mt_pair(files, "q4_0"@) {
                        Some(p) => p,
                        None => (
                            "mt/gemma-4-12b-it-qat-q4_0.gguf"@,
                            "mt/mmproj-gemma-4-12b-it-qat-q4_0.gguf"@,
                        ),
                    },
                },
            },
        },
    }
}

fn find_mt_pair(sel: &Json, files: &Vec<String>) -> (r: (String, String))
    ensures
        (r.0@, r.1@) == mt_of(sel@, text::views(files@)),
{
    if let Some(q) = pick(sel, "mt") {
        if let Some(p) = mt_files(files, q.as_str()) {
            return p;
        }
    }
    if let Some(p) = mt_files(files, "q8_0") {
        return p;
    }
    if let Some(p) = mt_files(files, "q6_k") {
        return p;
    }
    if let Some(p) = mt_files(files, "q5_0") {
        return p;
    }
    if let Some(p) = mt_files(files, "q4_0") {
        return p;
    }
    (
        "mt/gemma-4-12b-it-qat-q4_0.gguf".to_owned(),
        "mt/mmproj-gemma-4-12b-it-qat-q4_0.gguf".to_owned(),
    )
}

/// The files of the translation model and of its projector. A variant counts only where both are there.
pub fn resolve_mt(mroot: &str, sel: &Json, files: &Vec<String>) -> (r: (String, String))
    ensures
        ({
            let p = mt_of(sel@, text::views(files@));
            r.0@ == in_models(mroot@, p.0) && r.1@ == in_models(mroot@, p.1)
        }),
{
    let (m, p) = find_mt_pair(sel, files);
    (join_models(mroot, m.as_str()), join_models(mroot, p.as_str()))
}

// ── Laws ────────────────────────────────────────────────────────────────────

/// What is put into a slot is read back from it, and no other slot changes.
pub proof fn law_set_then_get(
    ms: Seq<(Seq<char>, Doc)>,
    key: Seq<char>,
    value: Seq<char>,
    other: Seq<char>,
)
    ensures
        json::member(put(ms, key, value), key) == Some(Doc::Text(value)),
        other != key ==> json::member(put(ms, key, value), other) == json::member(ms, other),
    decreases ms.len(),
{
    let now = put(ms, key, value);
    let rest = now.drop_first();
    if ms.len() == 0 {
        assert(rest =~= Seq::empty());
        assert(json::member(rest, other) is None);
        assert(now[0].0 == key);
    } else if ms[0].0 == key {
        assert(rest =~= ms.drop_first());
        assert(now[0].0 == key);
    } else {
        law_set_then_get(ms.drop_first(), key, value, other);
        assert(rest =~= put(ms.drop_first(), key, value));
        assert(now[0] == ms[0]);
        assert(json::member(now, other) == if now[0].0 == other {
            Some(now[0].1)
        } else {
            json::member(rest, other)
        });
    }
}

/// A variant that is selected and installed is the one used, whichever others are installed: of the
/// voice, the separation, the recognition and the translation.
pub proof fn law_selected_variant_is_used(sel: Doc, files: Seq<Seq<char>>, q: Seq<char>)
    ensures
        picked(sel, "tts"@) == Some(q) && there(files, tts_file(q)) ==> tts_of(sel, files) == q,
        picked(sel, "sep"@) == Some(q) && there(files, sep_file(q)) ==> sep_of(sel, files)
            == sep_file(q),
        picked(sel, "asr"@) == Some("fp32"@) && there(files, "tdt-fp32/encoder-model.onnx"@)
            ==> asr_of(sel, files) == "tdt-fp32"@,
        picked(sel, "asr"@) == Some("int8"@) && there(files, "tdt/encoder-model.int8.onnx"@)
            ==> asr_of(sel, files) == "tdt"@,
        picked(sel, "mt"@) == Some(q) && mt_pair(files, q) is Some ==> Some(mt_of(sel, files))
            == mt_pair(files, q),
{
    reveal_strlit("fp32");
    reveal_strlit("int8");
    assert("fp32"@[0] != "int8"@[0]);
}

/// On the processor Whisper never computes in a format that only a graphics card has, whatever is
/// selected.
pub proof fn law_processor_format(sel: Doc)
    ensures
        !gpu_only(compute_of(sel, "cpu"@)),
{
    reveal_strlit("int8");
    reveal_strlit("float16");
    reveal_strlit("bfloat16");
    reveal_strlit("int8_float16");
    reveal_strlit("int8_bfloat16");
    reveal_strlit("cpu");
    reveal_strlit("cuda");
    assert("int8"@.len() == 4);
    assert("float16"@.len() == 7 && "bfloat16"@.len() == 8);
    assert("int8_float16"@.len() == 12 && "int8_bfloat16"@.len() == 13);
}

/// The slots that a component selects are different ones, and each can be set directly.
pub proof fn law_selected_slots_are_settable(id: Seq<char>)
    ensures
        forall|i: int| 0 <= i < selects(id).len() ==> settable((#[trigger] selects(id)[i]).0),
        forall|i: int, j: int|
            0 <= i < j < selects(id).len() ==> (#[trigger] selects(id)[i]).0 != (
            #[trigger] selects(id)[j]).0,
{
    reveal_strlit("asr_engine");
    reveal_strlit("asr");
    reveal_strlit("whisper_model");
    assert("asr_engine"@.len() == 10 && "asr"@.len() == 3 && "whisper_model"@.len() == 13);
}

/// The place in the list of components of the one that selects something.
spec fn place_of_selecting(id: Seq<char>) -> int {
    if id == "higgs"@ {
        0
    } else if id == "gemma"@ {
        2
    } else if id == "gemma-q5_0"@ {
        3
    } else if id == "gemma-q6_k"@ {
        4
    } else if id == "gemma-q8_0"@ {
        5
    } else if id == "parakeet"@ {
        6
    } else if id == "higgs-q6_k"@ {
        7
    } else if id == "higgs-q4_k_m"@ {
        8
    } else if id == "parakeet-fp32"@ {
        9
    } else if id == "whisper-tiny"@ {
        11
    } else if id == "whisper-base"@ {
        12
    } else if id == "whisper-small"@ {
        13
    } else if id == "whisper-medium"@ {
        14
    } else if id == "whisper-large-v3"@ {
        15
    } else if id == "whisper-large-v3-turbo"@ {
        16
    } else if id == "roformer"@ {
        18
    } else if id == "roformer-q5"@ {
        19
    } else if id == "roformer-q4"@ {
        20
    } else {
        0
    }
}

/// What selects something is a component that is downloaded.
pub proof fn law_selecting_component_is_downloaded(id: Seq<char>)
    requires
        selects(id).len() > 0,
    ensures
        exists|i: int|
            0 <= i < crate::setup::catalog::manifest_model().len() && (#[trigger] crate::setup::catalog::manifest_model()[i]).id
                == id && crate::setup::catalog::manifest_model()[i].delivery == crate::setup::Delivery::Download,
{
    let c = crate::setup::catalog::manifest_model()[place_of_selecting(id)];
    assert(c.id == id);
}

/// A model of Whisper selects the engine and itself, by the name that stands behind the engine's.
pub proof fn law_whisper_selects_engine_and_model(name: Seq<char>)
    requires
        selects("whisper-"@ + name).len() > 0,
    ensures
        selects("whisper-"@ + name) == seq![
            ("asr_engine"@, "whisper"@),
            ("whisper_model"@, name),
        ],
{
    reveal_strlit("whisper-");
    reveal_strlit("higgs");
    reveal_strlit("gemma");
    reveal_strlit("gemma-q5_0");
    reveal_strlit("gemma-q6_k");
    reveal_strlit("gemma-q8_0");
    reveal_strlit("parakeet");
    reveal_strlit("higgs-q6_k");
    reveal_strlit("higgs-q4_k_m");
    reveal_strlit("parakeet-fp32");
    reveal_strlit("whisper-tiny");
    reveal_strlit("whisper-base");
    reveal_strlit("whisper-small");
    reveal_strlit("whisper-medium");
    reveal_strlit("whisper-large-v3");
    reveal_strlit("whisper-large-v3-turbo");
    reveal_strlit("roformer");
    reveal_strlit("roformer-q5");
    reveal_strlit("roformer-q4");
    reveal_strlit("tiny");
    reveal_strlit("base");
    reveal_strlit("small");
    reveal_strlit("medium");
    reveal_strlit("large-v3");
    reveal_strlit("large-v3-turbo");
    let id = "whisper-"@ + name;
    assert(id[0] == 'w');
    assert(id.skip(8) =~= name);
    if id == "whisper-tiny"@ {
        assert("whisper-tiny"@.skip(8) =~= "tiny"@);
    }
    if id == "whisper-base"@ {
        assert("whisper-base"@.skip(8) =~= "base"@);
    }
    if id == "whisper-small"@ {
        assert("whisper-small"@.skip(8) =~= "small"@);
    }
    if id == "whisper-medium"@ {
        assert("whisper-medium"@.skip(8) =~= "medium"@);
    }
    if id == "whisper-large-v3"@ {
        assert("whisper-large-v3"@.skip(8) =~= "large-v3"@);
    }
    if id == "whisper-large-v3-turbo"@ {
        assert("whisper-large-v3-turbo"@.skip(8) =~= "large-v3-turbo"@);
    }
}

/// A model of Parakeet selects the engine and the variant.
pub proof fn law_parakeet_selects_engine_and_variant(id: Seq<char>, i: int)
    requires
        0 <= i < selects(id).len(),
        selects(id)[i].0 == "asr"@,
    ensures
        selects(id).len() == 2,
        selects(id)[0] == ("asr_engine"@, "parakeet"@),
{
    reveal_strlit("asr");
    reveal_strlit("asr_engine");
    reveal_strlit("whisper_model");
    reveal_strlit("tts");
    reveal_strlit("mt");
    reveal_strlit("sep");
    assert("asr_engine"@.len() == 10 && "asr"@.len() == 3 && "whisper_model"@.len() == 13);
    assert("mt"@.len() == 2 && "tts"@[0] == 't' && "sep"@[0] == 's' && "asr"@[0] == 'a');
}

/// A slot that is set keeps its place among the others, and a new one stands behind them; no other slot is moved.
pub proof fn law_slots_keep_their_places(ms: Seq<(Seq<char>, Doc)>, key: Seq<char>, value: Seq<char>)
    ensures
        ({
            let now = put(ms, key, value);
            &&& (forall|i: int| 0 <= i < ms.len() ==> (#[trigger] ms[i]).0 != key) ==> now == ms.push(
                (key, Doc::Text(value)),
            )
            &&& forall|i: int|
                0 <= i < ms.len() && (#[trigger] ms[i]).0 == key && (forall|j: int|
                    0 <= j < i ==> (#[trigger] ms[j]).0 != key) ==> now == ms.update(i, (key, Doc::Text(value)))
        }),
    decreases ms.len(),
{
    if ms.len() > 0 {
        let rest = ms.drop_first();
        law_slots_keep_their_places(rest, key, value);
        assert(forall|j: int| 0 <= j < rest.len() ==> #[trigger] rest[j] == ms[j + 1]);
        assert(forall|j: int| 0 < j < ms.len() ==> #[trigger] ms[j] == rest[j - 1]);
        let now = put(ms, key, value);
        let e = (key, Doc::Text(value));
        if forall|i: int| 0 <= i < ms.len() ==> (#[trigger] ms[i]).0 != key {
            assert(ms[0].0 != key);
            assert(now =~= ms.push(e));
        }
        assert forall|i: int|
            0 <= i < ms.len() && (#[trigger] ms[i]).0 == key && (forall|j: int|
                0 <= j < i ==> (#[trigger] ms[j]).0 != key) implies now == ms.update(i, e) by {
            if i == 0 {
                assert(now =~= ms.update(0, e));
            } else {
                assert(ms[0].0 != key);
                assert(rest[i - 1].0 == key);
                assert(put(rest, key, value) == rest.update(i - 1, e));
                assert(now =~= ms.update(i, e));
            }
        }
    }
}

/// A variant is selected by a text in its slot, without the white space around it; an empty one selects nothing.
pub proof fn law_selection_is_read(sel: Doc, key: Seq<char>, t: Seq<char>)
    ensures
        sel.get(key) == Some(Doc::Text(t)) && text::trimmed(t).len() > 0 ==> picked(sel, key) == Some(text::trimmed(t)),
        sel.get(key) == Some(Doc::Text(t)) && text::trimmed(t).len() == 0 ==> picked(sel, key) is None,
        !(sel.get(key) matches Some(Doc::Text(_))) ==> picked(sel, key) is None,
        benched(sel) <==> picked(sel, "bench"@) == Some("1"@),
{
}

/// A sample of a voice is as long as set, a number or a text that is one, if that is more than nothing and at most a
/// minute; and else twelve seconds.
pub proof fn law_how_long_a_sample_is(sel: Doc, n: int)
    ensures
        ({
            let set = match sel.get("higgs_ref_secs"@) {
                Some(Doc::Number { written, .. }) => media::moment(written),
                Some(Doc::Text(t)) => media::moment(text::trimmed(t)),
                _ => None,
            };
            &&& set == Some(n) && 0 < n <= 60_000_000 ==> sample_length(sel) == n
            &&& set == Some(n) && !(0 < n <= 60_000_000) ==> sample_length(sel) == 12_000_000
            &&& set is None ==> sample_length(sel) == 12_000_000
        }),
{
}

/// Where the selected variant of the voice or of the separation is not installed, the best that is takes its place: the
/// variants count from the largest down.
pub proof fn law_best_installed_variant_is_used(sel: Doc, files: Seq<Seq<char>>)
    ensures
        ({
            let lies = |q: Seq<char>| files.contains("higgs-"@ + q + "/"@ + q + ".gguf"@);
            let (v, w) = (tts_of(sel, files), picked(sel, "tts"@));
            let free = w is None || !lies(w->0);
            &&& !free ==> v == w->0
            &&& free && lies("q8_0"@) ==> v == "q8_0"@
            &&& free && !lies("q8_0"@) && lies("q6_k"@) ==> v == "q6_k"@
            &&& free && !lies("q8_0"@) && !lies("q6_k"@) && lies("q4_k_m"@) ==> v == "q4_k_m"@
            &&& free && !lies("q8_0"@) && !lies("q6_k"@) && !lies("q4_k_m"@) ==> v == "q8_0"@
        }),
        ({
            let file = |q: Seq<char>| "bsroformer/voc_fv6-"@ + q + ".gguf"@;
            let lies = |q: Seq<char>| files.contains(file(q));
            let (v, w) = (sep_of(sel, files), picked(sel, "sep"@));
            let free = w is None || !lies(w->0);
            &&& !free ==> v == file(w->0)
            &&& free && lies("Q8_0"@) ==> v == file("Q8_0"@)
            &&& free && !lies("Q8_0"@) && lies("Q5_0"@) ==> v == file("Q5_0"@)
            &&& free && !lies("Q8_0"@) && !lies("Q5_0"@) && lies("Q4_0"@) ==> v == file("Q4_0"@)
            &&& free && !lies("Q8_0"@) && !lies("Q5_0"@) && !lies("Q4_0"@) ==> v == file("Q8_0"@)
        }),
{
    assert forall|p: Seq<char>| #[trigger] there(files, p) == files.contains(p) by {}
    let q = picked(sel, "tts"@)->0;
    let w = picked(sel, "sep"@)->0;
    assert(there(files, tts_file(q)) == files.contains(tts_file(q)));
    assert(there(files, tts_file("q8_0"@)) == files.contains(tts_file("q8_0"@)));
    assert(there(files, tts_file("q6_k"@)) == files.contains(tts_file("q6_k"@)));
    assert(there(files, tts_file("q4_k_m"@)) == files.contains(tts_file("q4_k_m"@)));
    assert(there(files, sep_file(w)) == files.contains(sep_file(w)));
    assert(there(files, sep_file("Q8_0"@)) == files.contains(sep_file("Q8_0"@)));
    assert(there(files, sep_file("Q5_0"@)) == files.contains(sep_file("Q5_0"@)));
    assert(there(files, sep_file("Q4_0"@)) == files.contains(sep_file("Q4_0"@)));
}

/// The small model of the recognition is used unless the full one is installed, and is selected or stands alone.
pub proof fn law_which_recognition_is_used(sel: Doc, files: Seq<Seq<char>>)
    ensures
        ({
            let full = files.contains("tdt-fp32/encoder-model.onnx"@);
            let small = files.contains("tdt/encoder-model.int8.onnx"@);
            asr_of(sel, files) == (if full && (picked(sel, "asr"@) == Some("fp32"@) || !small) {
                "tdt-fp32"@
            } else {
                "tdt"@
            })
        }),
        ({
            let lies = |m: Seq<char>| files.contains("whisper/faster-whisper-"@ + m + "/model.bin"@);
            let (v, w) = (whisper_model_of(sel, files), picked(sel, "whisper_model"@));
            let free = w is None || !lies(w->0);
            &&& !free ==> v == w
            &&& free && lies("large-v3-turbo"@) ==> v == Some("large-v3-turbo"@)
            &&& v is None ==> free && !lies("large-v3-turbo"@) && !lies("large-v3"@) && !lies("medium"@) && !lies("small"@)
                && !lies("base"@) && !lies("tiny"@)
            &&& v is Some ==> lies(v->0)
            &&& v == Some("tiny"@) && free ==> !lies("base"@) && !lies("small"@) && !lies("medium"@) && !lies("large-v3"@)
            &&& v == Some("base"@) && free ==> !lies("small"@) && !lies("medium"@) && !lies("large-v3"@)
            &&& v == Some("small"@) && free ==> !lies("medium"@) && !lies("large-v3"@)
            &&& v == Some("medium"@) && free ==> !lies("large-v3"@)
        }),
{
    reveal_strlit("large-v3-turbo");
    reveal_strlit("large-v3");
    reveal_strlit("medium");
    reveal_strlit("small");
    reveal_strlit("base");
    reveal_strlit("tiny");
    assert("tiny"@[0] != "base"@[0]);
    assert("small"@.len() == 5 && "medium"@.len() == 6 && "large-v3"@.len() == 8 && "large-v3-turbo"@.len() == 14
        && "base"@.len() == 4 && "tiny"@.len() == 4);
    let w = picked(sel, "whisper_model"@)->0;
    assert(there(files, "tdt-fp32/encoder-model.onnx"@) == files.contains("tdt-fp32/encoder-model.onnx"@));
    assert(there(files, "tdt/encoder-model.int8.onnx"@) == files.contains("tdt/encoder-model.int8.onnx"@));
    assert(there(files, whisper_file(w)) == files.contains(whisper_file(w)));
    assert(there(files, whisper_file("large-v3-turbo"@)) == files.contains(whisper_file("large-v3-turbo"@)));
    assert(there(files, whisper_file("large-v3"@)) == files.contains(whisper_file("large-v3"@)));
    assert(there(files, whisper_file("medium"@)) == files.contains(whisper_file("medium"@)));
    assert(there(files, whisper_file("small"@)) == files.contains(whisper_file("small"@)));
    assert(there(files, whisper_file("base"@)) == files.contains(whisper_file("base"@)));
    assert(there(files, whisper_file("tiny"@)) == files.contains(whisper_file("tiny"@)));
}

/// Where and in which format Whisper computes: as selected, else on the graphics card where there is one, and there in
/// half precision, on the processor in eight bits.
pub proof fn law_how_whisper_computes(sel: Doc, cuda: bool, d: Seq<char>)
    ensures
        picked(sel, "whisper_device"@) == Some(d) ==> device_of(sel, cuda) == d,
        picked(sel, "whisper_device"@) is None ==> device_of(sel, true) == "cuda"@ && device_of(sel, false) == "cpu"@,
        picked(sel, "whisper_compute"@) is None && d == "cuda"@ ==> compute_of(sel, d) == "float16"@,
        picked(sel, "whisper_compute"@) is None && d != "cuda"@ ==> compute_of(sel, d) == "int8"@,
        picked(sel, "whisper_compute"@) is Some && d != "cpu"@ ==> Some(compute_of(sel, d)) == picked(
            sel,
            "whisper_compute"@,
        ),
        ({
            let c = picked(sel, "whisper_compute"@)->0;
            let half = c == "float16"@ || c == "bfloat16"@ || c == "int8_float16"@ || c == "int8_bfloat16"@;
            picked(sel, "whisper_compute"@) is Some && d == "cpu"@ ==> compute_of(sel, d) == (if half {
                "int8"@
            } else {
                c
            })
        }),
{
    reveal_strlit("cuda");
    reveal_strlit("cpu");
    assert("cuda"@.len() != "cpu"@.len());
}

proof fn lemma_mt_find_is(files: Seq<Seq<char>>, dir: Seq<char>, projector: bool, n: int)
    requires
        0 <= n <= files.len(),
    ensures
        match mt_find(files, dir, projector, n) {
            Some(m) => {
                &&& exists|i: int| 0 <= i < n && name_in(#[trigger] files[i], dir) == Some(m)
                &&& mt_part(m, projector)
                &&& forall|i: int|
                    0 <= i < n && name_in(#[trigger] files[i], dir) is Some && mt_part(
                        name_in(files[i], dir)->0,
                        projector,
                    ) ==> !order::before(name_in(files[i], dir)->0, m)
            },
            None => forall|i: int|
                0 <= i < n && name_in(#[trigger] files[i], dir) is Some ==> !mt_part(
                    name_in(files[i], dir)->0,
                    projector,
                ),
        },
    decreases n,
{
    if n > 0 {
        lemma_mt_find_is(files, dir, projector, n - 1);
        let was = mt_find(files, dir, projector, n - 1);
        let now = mt_find(files, dir, projector, n);
        assert(files[n - 1] == files[n - 1]);
        if name_in(files[n - 1], dir) is Some && mt_part(name_in(files[n - 1], dir)->0, projector) {
            let name = name_in(files[n - 1], dir)->0;
            order::lemma_before_irreflexive(name);
            if was is Some && order::before(name, was->0) {
                assert forall|i: int|
                    0 <= i < n && name_in(#[trigger] files[i], dir) is Some && mt_part(
                        name_in(files[i], dir)->0,
                        projector,
                    ) implies !order::before(name_in(files[i], dir)->0, name) by {
                    let x = name_in(files[i], dir)->0;
                    if i < n - 1 && order::before(x, name) {
                        order::lemma_before_transitive(x, name, was->0);
                    }
                }
            }
        }
    }
}

/// The translation's model and its projector are the first in dictionary order of the files of their kind that lie in
/// the variant's directory itself; the variant counts only where both are there.
pub proof fn law_model_and_projector(files: Seq<Seq<char>>, q: Seq<char>, i: int, j: int)
    requires
        0 <= i < files.len(),
        0 <= j < files.len(),
    ensures
        ({
            let d = mt_dir(q);
            let model = |x: Seq<char>| download::is_gguf(x) && !words::occurs(text::lowercase(x), "mmproj"@);
            let projector = |x: Seq<char>| download::is_gguf(x) && words::occurs(text::lowercase(x), "mmproj"@);
            let lone = |m: Seq<char>, f: spec_fn(Seq<char>) -> bool|
                f(m) && forall|k: int|
                    0 <= k < files.len() && name_in(#[trigger] files[k], d) is Some && f(name_in(files[k], d)->0)
                        ==> !order::before(name_in(files[k], d)->0, m);
            let m = name_in(files[i], d);
            let p = name_in(files[j], d);
            m is Some && p is Some && lone(m->0, model) && lone(p->0, projector) ==> mt_pair(files, q) == Some(
                (d + "/"@ + m->0, d + "/"@ + p->0),
            )
        }),
        mt_pair(files, q) is Some ==> {
            let d = mt_dir(q);
            &&& exists|k: int|
                0 <= k < files.len() && name_in(#[trigger] files[k], d) is Some && (mt_pair(files, q)->0).0 == d + "/"@
                    + name_in(files[k], d)->0
            &&& exists|k: int|
                0 <= k < files.len() && name_in(#[trigger] files[k], d) is Some && (mt_pair(files, q)->0).1 == d + "/"@
                    + name_in(files[k], d)->0
        },
{
    let d = mt_dir(q);
    let n = files.len() as int;
    lemma_mt_find_is(files, d, false, n);
    lemma_mt_find_is(files, d, true, n);
    let m = name_in(files[i], d);
    let p = name_in(files[j], d);
    let a = mt_find(files, d, false, n);
    let b = mt_find(files, d, true, n);
    if m is Some && mt_part(m->0, false) && a is Some && a->0 != m->0 {
        order::lemma_before_total(a->0, m->0);
    }
    if p is Some && mt_part(p->0, true) && b is Some && b->0 != p->0 {
        order::lemma_before_total(b->0, p->0);
    }
}

} // verus!
