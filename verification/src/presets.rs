//! Bundles of settings for a machine, and which of them to recommend.

use crate::json::Doc;
use crate::json::Json;
use crate::models;
use crate::text;
use crate::words;
use vstd::prelude::*;

verus! {

/// A bundle of settings.
pub struct Preset {
    pub id: &'static str,
    pub title: &'static str,
    pub subtitle: &'static str,
    /// The graphics memory from which it is recommended, in gigabytes; negative: never.
    pub min_vram_gb: i64,
    /// The slots of the selection that it sets.
    pub keys: Vec<(&'static str, &'static str)>,
}

/// A bundle of settings, as a value.
pub struct PresetModel {
    pub id: Seq<char>,
    pub title: Seq<char>,
    pub subtitle: Seq<char>,
    pub min_vram_gb: int,
    pub keys: Seq<(Seq<char>, Seq<char>)>,
}

pub open spec fn key_views(v: Seq<(&'static str, &'static str)>) -> Seq<(Seq<char>, Seq<char>)> {
    v.map_values(|p: (&'static str, &'static str)| (p.0@, p.1@))
}

impl View for Preset {
    type V = PresetModel;

    open spec fn view(&self) -> PresetModel {
        PresetModel {
            id: self.id@,
            title: self.title@,
            subtitle: self.subtitle@,
            min_vram_gb: self.min_vram_gb as int,
            keys: key_views(self.keys@),
        }
    }
}

pub open spec fn preset_views(v: Seq<Preset>) -> Seq<PresetModel> {
    v.map_values(|p: Preset| p@)
}

/// Everything on the machine itself, with the given variants of the voice and of the translator.
pub open spec fn local_keys(tts: Seq<char>, mt: Seq<char>) -> Seq<(Seq<char>, Seq<char>)> {
    seq![
        ("tts"@, tts),
        ("mt"@, mt),
        ("asr_engine"@, "parakeet"@),
        ("local_backend"@, "gpu"@),
        ("or_llm_on"@, "0"@),
        ("or_vision_on"@, "0"@),
        ("or_tts_on"@, "0"@),
    ]
}

fn make_local_keys(tts: &'static str, mt: &'static str) -> (r: Vec<(&'static str, &'static str)>)
    ensures
        key_views(r@) == local_keys(tts@, mt@),
{
    let r: Vec<(&'static str, &'static str)> = vec![
        ("tts", tts),
        ("mt", mt),
        ("asr_engine", "parakeet"),
        ("local_backend", "gpu"),
        ("or_llm_on", "0"),
        ("or_vision_on", "0"),
        ("or_tts_on", "0"),
    ];
    assert(key_views(r@) =~= local_keys(tts@, mt@));
    r
}

/// The heavy stages in the cloud, the others on the given processor.
pub open spec fn cloud_keys(backend: Seq<char>) -> Seq<(Seq<char>, Seq<char>)> {
    seq![
        ("local_backend"@, backend),
        ("or_llm_on"@, "1"@),
        ("or_vision_on"@, "1"@),
        ("or_tts_on"@, "1"@),
    ]
}

fn make_cloud_keys(backend: &'static str) -> (r: Vec<(&'static str, &'static str)>)
    ensures
        key_views(r@) == cloud_keys(backend@),
{
    let r: Vec<(&'static str, &'static str)> = vec![
        ("local_backend", backend),
        ("or_llm_on", "1"),
        ("or_vision_on", "1"),
        ("or_tts_on", "1"),
    ];
    assert(key_views(r@) =~= cloud_keys(backend@));
    r
}

/// The bundles, from the one that asks for the most memory down.
pub open spec fn all_presets() -> Seq<PresetModel> {
    seq![
        PresetModel {
            id: "rtx5090"@,
            title: "RTX 5090 (32 GB)"@,
            subtitle: "Maximum quality — top quants, locally"@,
            min_vram_gb: 30,
            keys: local_keys("q8_0"@, "q8_0"@),
        },
        PresetModel {
            id: "rtx4090"@,
            title: "RTX 4090 (24 GB)"@,
            subtitle: "Maximum quality — top quants, locally"@,
            min_vram_gb: 22,
            keys: local_keys("q8_0"@, "q8_0"@),
        },
        PresetModel {
            id: "gpu16"@,
            title: "GPU 16 GB"@,
            subtitle: "High quality (4080/4070 Ti and similar)"@,
            min_vram_gb: 15,
            keys: local_keys("q8_0"@, "q6_k"@),
        },
        PresetModel {
            id: "gpu12"@,
            title: "GPU 12 GB"@,
            subtitle: "Balanced (3060/4070 and similar)"@,
            min_vram_gb: 11,
            keys: local_keys("q6_k"@, "q5_0"@),
        },
        PresetModel {
            id: "gpu8"@,
            title: "GPU 8 GB"@,
            subtitle: "Economical — light quants (3060 Ti/4060)"@,
            min_vram_gb: 7,
            keys: local_keys("q4_k_m"@, "q4_0"@),
        },
        PresetModel {
            id: "weak-nvidia-cloud"@,
            title: "Weak NVIDIA + cloud"@,
            subtitle: "Heavy stages (translation/vision/voicing) on OpenRouter, separation and ASR on your GPU"@,
            min_vram_gb: 0,
            keys: cloud_keys("gpu"@),
        },
        PresetModel {
            id: "cloud"@,
            title: "CPU + cloud (no NVIDIA)"@,
            subtitle: "Heavy stages on OpenRouter, local on CPU — runs without a GPU (needs a key)"@,
            min_vram_gb: 0,
            keys: cloud_keys("cpu"@),
        },
        PresetModel {
            id: "custom"@,
            title: "Custom"@,
            subtitle: "Configure every setting by hand"@,
            min_vram_gb: -1,
            keys: Seq::empty(),
        },
    ]
}

/// The bundles, from the one that asks for the most memory down.
pub fn presets() -> (r: Vec<Preset>)
    ensures
        preset_views(r@) == all_presets(),
{
    let custom: Vec<(&'static str, &'static str)> = Vec::new();
    assert(key_views(custom@) =~= Seq::empty());
    let r = vec![
        Preset {
            id: "rtx5090",
            title: "RTX 5090 (32 GB)",
            subtitle: "Maximum quality — top quants, locally",
            min_vram_gb: 30,
            keys: make_local_keys("q8_0", "q8_0"),
        },
        Preset {
            id: "rtx4090",
            title: "RTX 4090 (24 GB)",
            subtitle: "Maximum quality — top quants, locally",
            min_vram_gb: 22,
            keys: make_local_keys("q8_0", "q8_0"),
        },
        Preset {
            id: "gpu16",
            title: "GPU 16 GB",
            subtitle: "High quality (4080/4070 Ti and similar)",
            min_vram_gb: 15,
            keys: make_local_keys("q8_0", "q6_k"),
        },
        Preset {
            id: "gpu12",
            title: "GPU 12 GB",
            subtitle: "Balanced (3060/4070 and similar)",
            min_vram_gb: 11,
            keys: make_local_keys("q6_k", "q5_0"),
        },
        Preset {
            id: "gpu8",
            title: "GPU 8 GB",
            subtitle: "Economical — light quants (3060 Ti/4060)",
            min_vram_gb: 7,
            keys: make_local_keys("q4_k_m", "q4_0"),
        },
        Preset {
            id: "weak-nvidia-cloud",
            title: "Weak NVIDIA + cloud",
            subtitle: "Heavy stages (translation/vision/voicing) on OpenRouter, separation and ASR on your GPU",
            min_vram_gb: 0,
            keys: make_cloud_keys("gpu"),
        },
        Preset {
            id: "cloud",
            title: "CPU + cloud (no NVIDIA)",
            subtitle: "Heavy stages on OpenRouter, local on CPU — runs without a GPU (needs a key)",
            min_vram_gb: 0,
            keys: make_cloud_keys("cpu"),
        },
        Preset {
            id: "custom",
            title: "Custom",
            subtitle: "Configure every setting by hand",
            min_vram_gb: -1,
            keys: custom,
        },
    ];
    assert(preset_views(r@) =~= all_presets());
    r
}

/// The place of the bundle named `id`.
pub open spec fn place(ps: Seq<PresetModel>, id: Seq<char>) -> Option<int>
    decreases ps.len(),
{
    if ps.len() == 0 {
        None
    } else {
        match place(ps.drop_last(), id) {
            Some(i) => Some(i),
            None => if ps.last().id == id {
                Some(ps.len() - 1)
            } else {
                None
            },
        }
    }
}

/// The bundle named `id`.
pub fn by_id(id: &str) -> (r: Option<Preset>)
    ensures
        (match r {
            Some(p) => Some(p@),
            None => None,
        }) == match place(all_presets(), id@) {
            Some(i) => Some(all_presets()[i]),
            None => None,
        },
{
    let ps = presets();
    let ghost all = all_presets();
    let mut found: Option<Preset> = None;
    assert(all.take(0) =~= Seq::empty());
    for p in it: ps
        invariant
            all == preset_views(ps@),
            it.seq() == ps@,
            (match found {
                Some(p) => Some(p@),
                None => None,
            }) == match place(all.take(it.index()), id@) {
                Some(i) => Some(all[i]),
                None => None,
            },
            place(all.take(it.index()), id@) matches Some(i) ==> 0 <= i < it.index(),
    {
        assert(all.take(it.index() + 1).drop_last() =~= all.take(it.index()));
        assert(all.take(it.index() + 1).last() == p@);
        if found.is_none() && text::same(p.id, id) {
            found = Some(p);
        }
    }
    assert(all.take(all.len() as int) =~= all);
    found
}

// ── Recommendation ──────────────────────────────────────────────────────────

/// The machine and the bundle that is recommended for it.
#[derive(Clone, Debug)]
pub struct HardwareRecommendation {
    pub gpu_name: String,
    /// In bytes.
    pub total_vram: u64,
    /// In bytes.
    pub total_ram: u64,
    pub has_gpu: bool,
    pub recommended: &'static str,
    pub reason: String,
}

/// Whole gigabytes, rounded; a half goes to the even one.
pub open spec fn gigabytes(bytes: int) -> int {
    let whole = bytes / 1_000_000_000;
    let rest = bytes % 1_000_000_000;
    if rest > 500_000_000 || (rest == 500_000_000 && whole % 2 == 1) {
        whole + 1
    } else {
        whole
    }
}

fn round_gigabytes(bytes: u64) -> (r: u64)
    ensures
        r == gigabytes(bytes as int),
{
    let whole: u64 = bytes / 1_000_000_000;
    let rest: u64 = bytes % 1_000_000_000;
    if rest > 500_000_000 || (rest == 500_000_000 && whole % 2 == 1) {
        whole + 1
    } else {
        whole
    }
}

/// The bundle is in question for a machine with that much graphics memory.
pub open spec fn suits(p: PresetModel, vram: int) -> bool {
    p.min_vram_gb >= 0 && p.id != "cloud"@ && vram >= p.min_vram_gb * 1_000_000_000
}

/// The first bundle that suits.
pub open spec fn first_fit(ps: Seq<PresetModel>, vram: int) -> Option<int>
    decreases ps.len(),
{
    if ps.len() == 0 {
        None
    } else {
        match first_fit(ps.drop_last(), vram) {
            Some(i) => Some(i),
            None => if suits(ps.last(), vram) {
                Some(ps.len() - 1)
            } else {
                None
            },
        }
    }
}

/// The bundle for a machine and why.
pub open spec fn advice(gpu_name: Seq<char>, vram: int) -> (Seq<char>, Seq<char>) {
    let low = text::lowercase(gpu_name);
    if vram == 0 {
        (
            "cloud"@,
            "No NVIDIA GPU found — \"CPU + cloud\" mode: heavy stages on OpenRouter, local on CPU (slower, but works)"@,
        )
    } else if words::occurs(low, "5090"@) {
        ("rtx5090"@, "Detected "@ + gpu_name + " — top quants"@)
    } else if words::occurs(low, "4090"@) {
        ("rtx4090"@, "Detected "@ + gpu_name + " — top quants"@)
    } else {
        match first_fit(all_presets(), vram) {
            Some(i) => (
                all_presets()[i].id,
                gpu_name + " · "@ + text::decimal(gigabytes(vram) as nat) + " GB VRAM — "@
                    + all_presets()[i].title,
            ),
            None => (
                "cloud"@,
                gpu_name + " · "@ + text::decimal(gigabytes(vram) as nat)
                    + " GB VRAM is too little for local — cloud is more reliable"@,
            ),
        }
    }
}

fn find_fit(ps: &Vec<Preset>, vram: u64) -> (r: Option<usize>)
    ensures
        match r {
            Some(i) => i < ps@.len() && first_fit(preset_views(ps@), vram as int) == Some(i as int),
            None => first_fit(preset_views(ps@), vram as int) is None,
        },
{
    let ghost all = preset_views(ps@);
    let mut found: Option<usize> = None;
    assert(all.take(0) =~= Seq::empty());
    for k in 0..ps.len()
        invariant
            all == preset_views(ps@),
            match found {
                Some(i) => i < ps@.len() && first_fit(all.take(k as int), vram as int) == Some(
                    i as int,
                ),
                None => first_fit(all.take(k as int), vram as int) is None,
            },
    {
        let p = &ps[k];
        assert(all.take(k + 1).drop_last() =~= all.take(k as int));
        assert(all.take(k + 1).last() == p@);
        if found.is_none() && p.min_vram_gb >= 0 && !text::same(p.id, "cloud") && vram as i128
            >= p.min_vram_gb as i128 * 1_000_000_000 {
            found = Some(k);
        }
    }
    assert(all.take(all.len() as int) =~= all);
    found
}

fn sized(gpu_name: &str, vram: u64) -> (r: String)
    ensures
        r@ == gpu_name@ + " · "@ + text::decimal(gigabytes(vram as int) as nat),
{
    let mut s = gpu_name.to_owned();
    s.append(" · ");
    s.append(text::to_decimal(round_gigabytes(vram)).as_str());
    s
}

/// The bundle for a machine with the given graphics card and memory: by the card's name for two of
/// them, else by its memory, else the cloud.
pub fn recommend(gpu_name: &str, total_vram: u64, total_ram: u64) -> (r: HardwareRecommendation)
    ensures
        r.gpu_name@ == gpu_name@,
        r.total_vram == total_vram,
        r.total_ram == total_ram,
        r.has_gpu == (total_vram > 0),
        (r.recommended@, r.reason@) == advice(gpu_name@, total_vram as int),
{
    let low = text::to_lower(gpu_name);
    let ps = presets();
    let (recommended, reason): (&'static str, String) = if total_vram == 0 {
        (
            "cloud",
            "No NVIDIA GPU found — \"CPU + cloud\" mode: heavy stages on OpenRouter, local on CPU (slower, but works)".to_owned(),
        )
    } else if words::contains(low.as_str(), "5090") {
        let mut s = "Detected ".to_owned();
        s.append(gpu_name);
        s.append(" — top quants");
        ("rtx5090", s)
    } else if words::contains(low.as_str(), "4090") {
        let mut s = "Detected ".to_owned();
        s.append(gpu_name);
        s.append(" — top quants");
        ("rtx4090", s)
    } else {
        match find_fit(&ps, total_vram) {
            Some(i) => {
                assert(all_presets()[i as int] == ps@[i as int]@);
                let mut s = sized(gpu_name, total_vram);
                s.append(" GB VRAM — ");
                s.append(ps[i].title);
                (ps[i].id, s)
            },
            None => {
                let mut s = sized(gpu_name, total_vram);
                s.append(" GB VRAM is too little for local — cloud is more reliable");
                ("cloud", s)
            },
        }
    };
    HardwareRecommendation {
        gpu_name: gpu_name.to_owned(),
        total_vram,
        total_ram,
        has_gpu: total_vram > 0,
        recommended,
        reason,
    }
}

// ── Applying ────────────────────────────────────────────────────────────────

/// The selection with every pair in its slot.
pub open spec fn put_all(ms: Seq<(Seq<char>, Doc)>, pairs: Seq<(Seq<char>, Seq<char>)>) -> Seq<
    (Seq<char>, Doc),
>
    decreases pairs.len(),
{
    if pairs.len() == 0 {
        ms
    } else {
        models::put(put_all(ms, pairs.drop_last()), pairs.last().0, pairs.last().1)
    }
}

pub open spec fn members_of(d: Doc) -> Seq<(Seq<char>, Doc)> {
    match d {
        Doc::Object(ms) => ms,
        _ => Seq::empty(),
    }
}

pub open spec fn pair_views(v: Seq<(String, String)>) -> Seq<(Seq<char>, Seq<char>)> {
    v.map_values(|p: (String, String)| (p.0@, p.1@))
}

/// The selection after the bundle named `id`, and the pairs that it set; an error where there is no such
/// bundle.
pub fn apply(sel: Json, id: &str) -> (r: Result<(Json, Vec<(String, String)>), String>)
    ensures
        match place(all_presets(), id@) {
            None => r is Err && r->Err_0@ == "unknown preset: "@ + id@,
            Some(i) => {
                let keys = all_presets()[i].keys;
                &&& r is Ok
                &&& pair_views((r->Ok_0).1@) == keys
                &&& members_of((r->Ok_0).0@) == put_all(members_of(sel@), keys)
                &&& keys.len() == 0 ==> (r->Ok_0).0@ == sel@
            },
        },
{
    let p = match by_id(id) {
        Some(p) => p,
        None => {
            let mut m = "unknown preset: ".to_owned();
            m.append(id);
            return Err(m);
        },
    };
    let ghost ms = members_of(sel@);
    let ghost keys = p@.keys;
    let mut now = sel;
    let mut applied: Vec<(String, String)> = Vec::new();
    assert(keys.take(0) =~= Seq::empty());
    assert(pair_views(applied@) =~= Seq::empty());
    for k in 0..p.keys.len()
        invariant
            keys == key_views(p.keys@),
            k == 0 ==> now@ == sel@,
            members_of(now@) == put_all(ms, keys.take(k as int)),
            pair_views(applied@) == keys.take(k as int),
    {
        assert(keys.take(k + 1).drop_last() =~= keys.take(k as int));
        assert(keys.take(k + 1).last() == (p.keys@[k as int].0@, p.keys@[k as int].1@));
        now = models::set_selection(now, p.keys[k].0, p.keys[k].1);
        let ghost was = pair_views(applied@);
        applied.push((p.keys[k].0.to_owned(), p.keys[k].1.to_owned()));
        assert(pair_views(applied@) =~= keys.take(k + 1));
    }
    assert(keys.take(keys.len() as int) =~= keys);
    Ok((now, applied))
}

// ── Laws ────────────────────────────────────────────────────────────────────

proof fn lemma_place(ps: Seq<PresetModel>, i: int)
    requires
        0 <= i < ps.len(),
    ensures
        place(ps, ps[i].id) matches Some(k) && 0 <= k <= i && ps[k].id == ps[i].id,
    decreases ps.len(),
{
    let t = ps.drop_last();
    if i < t.len() {
        lemma_place(t, i);
        assert(t[i] == ps[i]);
    } else if place(t, ps[i].id) is Some {
        lemma_place_inside(t, ps[i].id);
    }
}

proof fn lemma_place_inside(ps: Seq<PresetModel>, id: Seq<char>)
    ensures
        place(ps, id) matches Some(k) ==> 0 <= k < ps.len() && ps[k].id == id,
    decreases ps.len(),
{
    if ps.len() > 0 {
        lemma_place_inside(ps.drop_last(), id);
    }
}

proof fn lemma_fit_inside(ps: Seq<PresetModel>, vram: int)
    ensures
        first_fit(ps, vram) matches Some(k) ==> 0 <= k < ps.len() && suits(ps[k], vram)
            && forall|j: int| 0 <= j < k ==> !suits(#[trigger] ps[j], vram),
        first_fit(ps, vram) is None ==> forall|j: int|
            0 <= j < ps.len() ==> !suits(#[trigger] ps[j], vram),
    decreases ps.len(),
{
    if ps.len() > 0 {
        let t = ps.drop_last();
        lemma_fit_inside(t, vram);
        assert forall|j: int| 0 <= j < t.len() implies t[j] == #[trigger] ps[j] by {}
    }
}

/// What is recommended is always a bundle that can be applied.
pub proof fn law_recommended_is_a_preset(gpu_name: Seq<char>, vram: int)
    requires
        vram >= 0,
    ensures
        place(all_presets(), advice(gpu_name, vram).0) is Some,
{
    let ps = all_presets();
    lemma_place(ps, 0);
    lemma_place(ps, 1);
    lemma_place(ps, 6);
    lemma_fit_inside(ps, vram);
    if let Some(k) = first_fit(ps, vram) {
        lemma_place(ps, k);
    }
}

/// A machine with a graphics card that has no bundle of its own gets one whose memory it has.
pub proof fn law_recommended_fits(gpu_name: Seq<char>, vram: int)
    requires
        vram > 0,
    ensures
        !words::occurs(text::lowercase(gpu_name), "5090"@) && !words::occurs(
            text::lowercase(gpu_name),
            "4090"@,
        ) ==> exists|i: int|
            0 <= i < all_presets().len() && #[trigger] all_presets()[i].id == advice(
                gpu_name,
                vram,
            ).0 && all_presets()[i].min_vram_gb * 1_000_000_000 <= vram,
{
    let ps = all_presets();
    lemma_fit_inside(ps, vram);
    reveal_strlit("weak-nvidia-cloud");
    reveal_strlit("cloud");
    assert("weak-nvidia-cloud"@.len() != "cloud"@.len());
    assert(suits(ps[5], vram));
    let k = first_fit(ps, vram)->0;
    assert(0 <= k < ps.len() && ps[k].min_vram_gb * 1_000_000_000 <= vram);
}

/// More memory never gets a bundle that asks for less.
pub proof fn law_more_memory_asks_for_more(less: int, more: int)
    requires
        0 < less <= more,
    ensures
        first_fit(all_presets(), more) matches Some(i) && first_fit(all_presets(), less) matches Some(
            j,
        ) && i <= j,
{
    let ps = all_presets();
    lemma_fit_inside(ps, less);
    lemma_fit_inside(ps, more);
    reveal_strlit("weak-nvidia-cloud");
    reveal_strlit("cloud");
    assert("weak-nvidia-cloud"@.len() != "cloud"@.len());
    assert(suits(ps[5], less));
    assert(suits(ps[5], more));
    let j = first_fit(ps, less)->0;
    assert(suits(ps[j], more));
}

/// The bundle that is advised. Without a graphics card it is the one in the cloud; the two cards that have bundles
/// of their own get these; and any other the first in the list that can be advised and whose memory it has.
pub proof fn law_what_is_advised(gpu_name: Seq<char>, vram: int, i: int)
    requires
        vram >= 0,
        0 <= i < all_presets().len(),
    ensures
        ({
            let low = text::lowercase(gpu_name);
            let own = words::occurs(low, "5090"@) || words::occurs(low, "4090"@);
            let suited = |k: int|
                all_presets()[k].min_vram_gb >= 0 && all_presets()[k].id != "cloud"@ && vram
                    >= all_presets()[k].min_vram_gb * 1_000_000_000;
            &&& vram == 0 ==> advice(gpu_name, vram).0 == "cloud"@
            &&& vram > 0 && words::occurs(low, "5090"@) ==> advice(gpu_name, vram).0 == "rtx5090"@
            &&& vram > 0 && !words::occurs(low, "5090"@) && words::occurs(low, "4090"@) ==> advice(gpu_name, vram).0
                == "rtx4090"@
            &&& vram > 0 && !own && suited(i) && (forall|k: int| 0 <= k < i ==> !#[trigger] suited(k)) ==> advice(
                gpu_name,
                vram,
            ).0 == all_presets()[i].id
        }),
{
    let suited = |k: int|
        all_presets()[k].min_vram_gb >= 0 && all_presets()[k].id != "cloud"@ && vram >= all_presets()[k].min_vram_gb
            * 1_000_000_000;
    lemma_first_fit_of(all_presets(), vram);
    if suited(i) && (forall|k: int| 0 <= k < i ==> !#[trigger] suited(k)) {
        assert(suits(all_presets()[i], vram));
        let k = first_fit(all_presets(), vram)->0;
        if k < i {
            assert(!suited(k));
        }
    }
}

proof fn lemma_first_fit_of(ps: Seq<PresetModel>, vram: int)
    ensures
        match first_fit(ps, vram) {
            Some(i) => 0 <= i < ps.len() && suits(ps[i], vram) && forall|j: int|
                0 <= j < i ==> !suits(#[trigger] ps[j], vram),
            None => forall|j: int| 0 <= j < ps.len() ==> !suits(#[trigger] ps[j], vram),
        },
    decreases ps.len(),
{
    if ps.len() > 0 {
        let p = ps.drop_last();
        lemma_first_fit_of(p, vram);
        assert(forall|j: int| 0 <= j < p.len() ==> p[j] == #[trigger] ps[j]);
        assert(ps[ps.len() - 1] == ps.last());
        if let Some(i) = first_fit(p, vram) {
            assert(p[i] == ps[i]);
        }
    }
}

/// A bundle is looked up by its name.
pub proof fn law_bundle_is_found_by_name(ps: Seq<PresetModel>, id: Seq<char>)
    ensures
        match place(ps, id) {
            Some(i) => 0 <= i < ps.len() && ps[i].id == id && forall|j: int|
                0 <= j < i ==> (#[trigger] ps[j]).id != id,
            None => forall|j: int| 0 <= j < ps.len() ==> (#[trigger] ps[j]).id != id,
        },
    decreases ps.len(),
{
    if ps.len() > 0 {
        let p = ps.drop_last();
        law_bundle_is_found_by_name(p, id);
        assert(forall|j: int| 0 <= j < p.len() ==> p[j] == #[trigger] ps[j]);
        assert(ps[ps.len() - 1] == ps.last());
        if let Some(i) = place(p, id) {
            assert(p[i] == ps[i]);
        }
    }
}

/// Memory is told in whole gigabytes: the nearest, and of two equally near the even one.
pub proof fn law_gigabytes_are_rounded(bytes: int)
    requires
        bytes >= 0,
    ensures
        -500_000_000 <= gigabytes(bytes) * 1_000_000_000 - bytes <= 500_000_000,
        bytes % 1_000_000_000 == 500_000_000 ==> gigabytes(bytes) % 2 == 0,
{
}

/// Applying a bundle puts each of its pairs in its slot, one after the other, so the last for a slot counts; no other
/// slot changes.
pub proof fn law_bundle_is_applied(
    ms: Seq<(Seq<char>, Doc)>,
    pairs: Seq<(Seq<char>, Seq<char>)>,
    e: (Seq<char>, Seq<char>),
    k: Seq<char>,
)
    ensures
        put_all(ms, Seq::empty()) == ms,
        crate::json::member(put_all(ms, pairs.push(e)), e.0) == Some(Doc::Text(e.1)),
        k != e.0 ==> crate::json::member(put_all(ms, pairs.push(e)), k) == crate::json::member(put_all(ms, pairs), k),
{
    assert(pairs.push(e).drop_last() =~= pairs);
    models::law_set_then_get(put_all(ms, pairs), e.0, e.1, k);
}

} // verus!
