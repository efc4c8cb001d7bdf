//! Which components are installed, and whether the pipeline can run.

use super::catalog::manifest;
use super::catalog;
use super::Component;
use super::ComponentModel;
use super::Delivery;
use super::Marker;
use super::MarkerModel;
use super::Requirement;
use crate::text;
use vstd::prelude::*;

verus! {

/// What stands at a path.
#[derive(Clone, Copy, Debug)]
pub struct DiskEntry {
    pub is_file: bool,
    pub len: u64,
}

/// What was found on disk, by path relative to the root. A path that is not listed holds nothing.
#[derive(Clone, Debug)]
pub struct Disk {
    pub entries: Vec<(String, DiskEntry)>,
}

impl View for Disk {
    type V = Seq<(Seq<char>, DiskEntry)>;

    open spec fn view(&self) -> Seq<(Seq<char>, DiskEntry)> {
        self.entries@.map_values(|e: (String, DiskEntry)| (e.0@, e.1))
    }
}

/// What stands at `rel`: the first entry listed for it.
pub open spec fn entry_at(disk: Seq<(Seq<char>, DiskEntry)>, rel: Seq<char>) -> Option<DiskEntry>
    decreases disk.len(),
{
    if disk.len() == 0 {
        None
    } else if disk[0].0 == rel {
        Some(disk[0].1)
    } else {
        entry_at(disk.drop_first(), rel)
    }
}

impl Disk {
    /// What stands at `rel`.
    pub fn entry(&self, rel: &str) -> (r: Option<DiskEntry>)
        ensures
            r == entry_at(self@, rel@),
    {
        assert(self@.skip(0) =~= self@);
        for i in 0..self.entries.len()
            invariant
                entry_at(self@, rel@) == entry_at(self@.skip(i as int), rel@),
                self@.len() == self.entries@.len(),
        {
            let (name, found) = &self.entries[i];
            assert(self@[i as int] == (name@, *found));
            assert(self@.skip(i as int)[0] == self@[i as int]);
            if text::same(name.as_str(), rel) {
                return Some(*found);
            }
            assert(self@.skip(i as int).drop_first() =~= self@.skip(i + 1));
        }
        assert(self@.skip(self@.len() as int).len() == 0);
        None
    }
}

/// Facts about the machine that no file under the root shows.
#[derive(Clone, Copy, Debug)]
pub struct Machine {
    /// The display driver is there.
    pub driver: bool,
    /// `ffmpeg` is found on the search path.
    pub ffmpeg_on_path: bool,
}

/// The libraries by which the display driver is recognised on Linux.
pub const DRIVER_LIB_MULTIARCH: &'static str = "/usr/lib/x86_64-linux-gnu/libcuda.so.1";

pub const DRIVER_LIB: &'static str = "/usr/lib/libcuda.so.1";

pub open spec fn listed(paths: Seq<Seq<char>>, p: Seq<char>) -> bool {
    exists|i: int| 0 <= i < paths.len() && #[trigger] paths[i] == p
}

/// Whether the display driver is there, given the paths that exist.
pub fn detect_driver(existing: &Vec<String>) -> (r: bool)
    ensures
        r == (listed(text::views(existing@), DRIVER_LIB_MULTIARCH@) || listed(
            text::views(existing@),
            DRIVER_LIB@,
        )),
{
    let a = text::one_of(DRIVER_LIB_MULTIARCH, existing);
    let b = text::one_of(DRIVER_LIB, existing);
    proof {
        let v = text::views(existing@);
        assert forall|i: int| 0 <= i < v.len() implies #[trigger] v[i] == existing@[i]@ by {}
        if a {
            let i = choose|i: int|
                0 <= i < existing@.len() && (#[trigger] existing@[i])@ == DRIVER_LIB_MULTIARCH@;
            assert(v[i] == DRIVER_LIB_MULTIARCH@);
        }
        if b {
            let i = choose|i: int|
                0 <= i < existing@.len() && (#[trigger] existing@[i])@ == DRIVER_LIB@;
            assert(v[i] == DRIVER_LIB@);
        }
    }
    a || b
}

pub open spec fn saturating_product(a: u64, b: int) -> int {
    if a * b > u64::MAX {
        u64::MAX as int
    } else {
        a * b
    }
}

/// A marker is good when its file is there with at least 97 hundredths of the expected size.
pub open spec fn marker_good(disk: Seq<(Seq<char>, DiskEntry)>, m: MarkerModel) -> bool {
    match entry_at(disk, m.rel) {
        Some(e) => e.is_file && (m.expect == 0 || saturating_product(e.len, 100)
            >= saturating_product(m.expect, 97)),
        None => false,
    }
}

fn times(a: u64, b: u64) -> (r: u64)
    requires
        b <= 100,
    ensures
        r == saturating_product(a, b as int),
{
    assert(a * b <= u64::MAX * 100) by (nonlinear_arith)
        requires
            b <= 100,
            a <= u64::MAX,
    ;
    assert(0 <= a * b) by (nonlinear_arith);
    let p: u128 = a as u128 * b as u128;
    if p > u64::MAX as u128 {
        u64::MAX
    } else {
        p as u64
    }
}

/// Whether the marker's file is there and whole.
pub fn marker_ok(disk: &Disk, m: &Marker) -> (r: bool)
    ensures
        r == marker_good(disk@, m@),
{
    match disk.entry(m.rel) {
        Some(e) => e.is_file && (m.expect == 0 || times(e.len, 100) >= times(m.expect, 97)),
        None => false,
    }
}

pub open spec fn len_at(disk: Seq<(Seq<char>, DiskEntry)>, rel: Seq<char>) -> u64 {
    match entry_at(disk, rel) {
        Some(e) => e.len,
        None => 0,
    }
}

/// The bytes that the markers' paths hold together.
pub open spec fn bytes_held(disk: Seq<(Seq<char>, DiskEntry)>, ms: Seq<MarkerModel>) -> int
    decreases ms.len(),
{
    if ms.len() == 0 {
        0
    } else {
        bytes_held(disk, ms.drop_last()) + len_at(disk, ms.last().rel)
    }
}

pub open spec fn all_good(disk: Seq<(Seq<char>, DiskEntry)>, ms: Seq<MarkerModel>) -> bool {
    forall|i: int| 0 <= i < ms.len() ==> marker_good(disk, #[trigger] ms[i])
}

/// The paths of the markers that are not good, in order.
pub open spec fn missing_of(disk: Seq<(Seq<char>, DiskEntry)>, ms: Seq<MarkerModel>) -> Seq<
    Seq<char>,
>
    decreases ms.len(),
{
    if ms.len() == 0 {
        Seq::empty()
    } else if marker_good(disk, ms.last()) {
        missing_of(disk, ms.drop_last())
    } else {
        missing_of(disk, ms.drop_last()).push(ms.last().rel)
    }
}

/// The memory of the graphics card that a loaded model takes, roughly, in bytes.
pub open spec fn vram_of(id: Seq<char>) -> u64 {
    if id == "higgs"@ {
        6_012_954_214
    } else if id == "higgs-q6_k"@ {
        5_476_083_302
    } else if id == "higgs-q4_k_m"@ {
        4_509_715_660
    } else if id == "gemma"@ {
        9_126_805_504
    } else if id == "gemma-q5_0"@ {
        10_630_044_057
    } else if id == "gemma-q6_k"@ {
        12_025_908_428
    } else if id == "gemma-q8_0"@ {
        15_032_385_536
    } else if id == "parakeet"@ {
        1_181_116_006
    } else if id == "parakeet-fp32"@ {
        2_899_102_924
    } else if id == "sortformer"@ {
        644_245_094
    } else if id == "roformer"@ {
        536_870_912
    } else if id == "roformer-q5"@ {
        483_183_820
    } else if id == "roformer-q4"@ {
        429_496_729
    } else {
        0
    }
}

/// The memory of the graphics card that a loaded model takes, roughly, in bytes.
pub fn vram_estimate(id: &str) -> (r: u64)
    ensures
        r == vram_of(id@),
{
    if text::same(id, "higgs") {
        6_012_954_214
    } else if text::same(id, "higgs-q6_k") {
        5_476_083_302
    } else if text::same(id, "higgs-q4_k_m") {
        4_509_715_660
    } else if text::same(id, "gemma") {
        9_126_805_504
    } else if text::same(id, "gemma-q5_0") {
        10_630_044_057
    } else if text::same(id, "gemma-q6_k") {
        12_025_908_428
    } else if text::same(id, "gemma-q8_0") {
        15_032_385_536
    } else if text::same(id, "parakeet") {
        1_181_116_006
    } else if text::same(id, "parakeet-fp32") {
        2_899_102_924
    } else if text::same(id, "sortformer") {
        644_245_094
    } else if text::same(id, "roformer") {
        536_870_912
    } else if text::same(id, "roformer-q5") {
        483_183_820
    } else if text::same(id, "roformer-q4") {
        429_496_729
    } else {
        0
    }
}

/// The state of one component.
#[derive(Clone, Debug)]
pub struct ComponentStatus {
    pub id: String,
    pub name: String,
    pub purpose: String,
    pub requirement: Requirement,
    pub delivery: Delivery,
    pub size: u64,
    pub installed: bool,
    /// How much of it is on disk already.
    pub bytes_on_disk: u64,
    /// The markers that are absent or cut short.
    pub missing: Vec<String>,
    /// Where an installed component was found, if that is worth saying.
    pub detail: Option<String>,
    pub external_url: Option<String>,
    /// Memory of the graphics card, in bytes; 0 for what holds no weights.
    pub vram: u64,
}

/// The state of one component, as a value.
pub struct StatusModel {
    pub id: Seq<char>,
    pub name: Seq<char>,
    pub purpose: Seq<char>,
    pub requirement: Requirement,
    pub delivery: Delivery,
    pub size: u64,
    pub installed: bool,
    pub bytes_on_disk: int,
    pub missing: Seq<Seq<char>>,
    pub detail: Option<Seq<char>>,
    pub external_url: Option<Seq<char>>,
    pub vram: u64,
}

pub open spec fn opt_view(s: Option<String>) -> Option<Seq<char>> {
    match s {
        Some(t) => Some(t@),
        None => None,
    }
}

impl View for ComponentStatus {
    type V = StatusModel;

    open spec fn view(&self) -> StatusModel {
        StatusModel {
            id: self.id@,
            name: self.name@,
            purpose: self.purpose@,
            requirement: self.requirement,
            delivery: self.delivery,
            size: self.size,
            installed: self.installed,
            bytes_on_disk: self.bytes_on_disk as int,
            missing: text::views(self.missing@),
            detail: opt_view(self.detail),
            external_url: opt_view(self.external_url),
            vram: self.vram,
        }
    }
}

/// A component outside the application is there when the driver is; `ffmpeg` also when the search
/// path has it; every other one when all its markers are good.
pub open spec fn installed_of(
    disk: Seq<(Seq<char>, DiskEntry)>,
    machine: Machine,
    c: ComponentModel,
) -> bool {
    if c.delivery == Delivery::External {
        machine.driver
    } else if c.id == "ffmpeg"@ {
        all_good(disk, c.markers) || machine.ffmpeg_on_path
    } else {
        all_good(disk, c.markers)
    }
}

pub open spec fn detail_of(
    disk: Seq<(Seq<char>, DiskEntry)>,
    machine: Machine,
    c: ComponentModel,
) -> Option<Seq<char>> {
    if c.delivery == Delivery::External || c.id != "ffmpeg"@ {
        None
    } else if all_good(disk, c.markers) {
        Some("tools/ffmpeg"@)
    } else if machine.ffmpeg_on_path {
        Some("PATH"@)
    } else {
        None
    }
}

/// The state of the component `c`.
pub open spec fn status_of(
    disk: Seq<(Seq<char>, DiskEntry)>,
    machine: Machine,
    c: ComponentModel,
) -> StatusModel {
    StatusModel {
        id: c.id,
        name: c.name,
        purpose: c.purpose,
        requirement: c.requirement,
        delivery: c.delivery,
        size: c.size,
        installed: installed_of(disk, machine, c),
        bytes_on_disk: bytes_held(disk, c.markers),
        missing: missing_of(disk, c.markers),
        detail: detail_of(disk, machine, c),
        external_url: c.external_url,
        vram: vram_of(c.id),
    }
}

pub proof fn lemma_bytes_nonneg(disk: Seq<(Seq<char>, DiskEntry)>, ms: Seq<MarkerModel>, k: int)
    requires
        0 <= k <= ms.len(),
    ensures
        0 <= bytes_held(disk, ms.take(k)) <= bytes_held(disk, ms),
    decreases ms.len(),
{
    if ms.len() == 0 {
        assert(ms.take(k) =~= ms);
    } else if k == ms.len() {
        assert(ms.take(k) =~= ms);
        lemma_bytes_nonneg(disk, ms.drop_last(), k - 1);
    } else {
        lemma_bytes_nonneg(disk, ms.drop_last(), k);
        assert(ms.drop_last().take(k) =~= ms.take(k));
    }
}

/// The state of the component `c`.
pub fn component_status(disk: &Disk, machine: &Machine, c: &Component) -> (r: ComponentStatus)
    requires
        bytes_held(disk@, c@.markers) <= u64::MAX,
    ensures
        r@ == status_of(disk@, *machine, c@),
{
    let mut missing: Vec<String> = Vec::new();
    let mut bytes: u64 = 0;
    let mut whole = true;
    let ghost ms = c@.markers;
    assert(ms.take(0) =~= Seq::empty());
    for i in 0..c.markers.len()
        invariant
            ms == c@.markers,
            ms.len() == c.markers@.len(),
            bytes_held(disk@, ms) <= u64::MAX,
            bytes == bytes_held(disk@, ms.take(i as int)),
            text::views(missing@) == missing_of(disk@, ms.take(i as int)),
            whole == all_good(disk@, ms.take(i as int)),
    {
        let m = &c.markers[i];
        proof {
            assert(ms[i as int] == m@);
            assert(ms.take(i + 1).drop_last() =~= ms.take(i as int));
            assert(ms.take(i + 1).last() == m@);
            lemma_bytes_nonneg(disk@, ms, i + 1);
        }
        let ok = marker_ok(disk, m);
        if !ok {
            let ghost before = text::views(missing@);
            missing.push(m.rel.to_owned());
            assert(text::views(missing@) =~= before.push(m@.rel));
            whole = false;
        }
        let held: u64 = match disk.entry(m.rel) {
            Some(e) => e.len,
            None => 0,
        };
        bytes = bytes + held;
        proof {
            let t = ms.take(i + 1);
            if whole {
                assert forall|j: int| 0 <= j < t.len() implies marker_good(disk@, #[trigger] t[j]) by {
                    if j < i {
                        assert(t[j] == ms.take(i as int)[j]);
                    }
                }
            } else if all_good(disk@, t) {
                assert forall|j: int| 0 <= j < i implies marker_good(disk@, #[trigger] ms.take(i as int)[j]) by {
                    assert(t[j] == ms.take(i as int)[j]);
                }
                assert(marker_good(disk@, t[i as int]));
            }
        }
    }
    assert(ms.take(c.markers@.len() as int) =~= ms);
    let mut installed = whole;
    let mut detail: Option<String> = None;
    if c.delivery == Delivery::External {
        installed = machine.driver;
    } else if text::same(c.id, "ffmpeg") {
        if whole {
            detail = Some("tools/ffmpeg".to_owned());
        } else if machine.ffmpeg_on_path {
            installed = true;
            detail = Some("PATH".to_owned());
        }
    }
    let external_url = match c.external_url {
        Some(u) => Some(u.to_owned()),
        None => None,
    };
    ComponentStatus {
        id: c.id.to_owned(),
        name: c.name.to_owned(),
        purpose: c.purpose.to_owned(),
        requirement: c.requirement,
        delivery: c.delivery,
        size: c.size,
        installed,
        bytes_on_disk: bytes,
        missing,
        detail,
        external_url,
        vram: vram_estimate(c.id),
    }
}

/// The stages that run in the cloud.
#[derive(Clone, Copy, Debug)]
pub struct CloudStages {
    pub llm: bool,
    pub tts: bool,
    pub asr: bool,
}

/// Whether the cloud does what the component `id` is for.
pub open spec fn done_in_cloud(cloud: CloudStages, id: Seq<char>) -> bool {
    ||| cloud.llm && (text::starts(id, "gemma"@) || id == "llama"@)
    ||| cloud.tts && text::starts(id, "higgs"@)
    ||| cloud.asr && (text::starts(id, "parakeet"@) || text::starts(id, "whisper"@))
}

/// How much a component is needed: what the cloud does is not required here, and of the two
/// separation engines the one for the chosen backend counts.
pub open spec fn needed(
    id: Seq<char>,
    requirement: Requirement,
    cloud: CloudStages,
    on_cpu: bool,
) -> Requirement {
    if on_cpu && id == "bsroformer-engine-cpu"@ {
        Requirement::Recommended
    } else if on_cpu && (id == "bsroformer-engine"@ || id == "cuda-runtime"@) {
        Requirement::Optional
    } else if !on_cpu && id == "bsroformer-engine-cpu"@ {
        Requirement::Optional
    } else if requirement == Requirement::Required && done_in_cloud(cloud, id) {
        Requirement::Optional
    } else {
        requirement
    }
}

fn effective_requirement(
    id: &str,
    requirement: Requirement,
    cloud: &CloudStages,
    on_cpu: bool,
) -> (r: Requirement)
    ensures
        r == needed(id@, requirement, *cloud, on_cpu),
{
    let mut out = requirement;
    if requirement == Requirement::Required {
        let is_gemma = text::starts_with(id, "gemma") || text::same(id, "llama");
        let is_higgs = text::starts_with(id, "higgs");
        let is_asr = text::starts_with(id, "parakeet") || text::starts_with(id, "whisper");
        if (cloud.llm && is_gemma) || (cloud.tts && is_higgs) || (cloud.asr && is_asr) {
            out = Requirement::Optional;
        }
    }
    if on_cpu {
        if text::same(id, "bsroformer-engine-cpu") {
            out = Requirement::Recommended;
        } else if text::same(id, "bsroformer-engine") || text::same(id, "cuda-runtime") {
            out = Requirement::Optional;
        }
    } else if text::same(id, "bsroformer-engine-cpu") {
        out = Requirement::Optional;
    }
    out
}

/// The state of the whole installation.
#[derive(Clone, Debug)]
pub struct SetupStatus {
    pub components: Vec<ComponentStatus>,
    /// Everything that is required and can be delivered is there.
    pub ready: bool,
    /// How many bytes are still to be downloaded.
    pub download_pending: u64,
    pub driver_ok: bool,
    pub llama_build: String,
}

/// The state of the whole installation, as a value.
pub struct SetupModel {
    pub components: Seq<StatusModel>,
    pub ready: bool,
    pub download_pending: int,
    pub driver_ok: bool,
    pub llama_build: Seq<char>,
}

impl View for SetupStatus {
    type V = SetupModel;

    open spec fn view(&self) -> SetupModel {
        SetupModel {
            components: self.components@.map_values(|c: ComponentStatus| c@),
            ready: self.ready,
            download_pending: self.download_pending as int,
            driver_ok: self.driver_ok,
            llama_build: self.llama_build@,
        }
    }
}

/// The state of the component `c` in an installation.
pub open spec fn status_in(
    disk: Seq<(Seq<char>, DiskEntry)>,
    machine: Machine,
    cloud: CloudStages,
    on_cpu: bool,
    c: ComponentModel,
) -> StatusModel {
    StatusModel {
        requirement: needed(c.id, c.requirement, cloud, on_cpu),
        ..status_of(disk, machine, c)
    }
}

/// Whether the component blocks the pipeline.
pub open spec fn blocks(c: StatusModel) -> bool {
    c.requirement == Requirement::Required && c.delivery != Delivery::External && !c.installed
}

/// What of the component is still to be downloaded; one that is optional need not be.
pub open spec fn still_to_fetch(c: StatusModel) -> int {
    if c.delivery == Delivery::Download && !c.installed && c.requirement != Requirement::Optional
        && c.size > c.bytes_on_disk {
        c.size - c.bytes_on_disk
    } else {
        0
    }
}

pub open spec fn pending_of(cs: Seq<StatusModel>) -> int
    decreases cs.len(),
{
    if cs.len() == 0 {
        0
    } else {
        pending_of(cs.drop_last()) + still_to_fetch(cs.last())
    }
}

/// The state of the whole installation.
pub open spec fn setup_of(
    disk: Seq<(Seq<char>, DiskEntry)>,
    machine: Machine,
    cloud: CloudStages,
    on_cpu: bool,
) -> SetupModel {
    let components = catalog::manifest_model().map_values(
        |c: ComponentModel| status_in(disk, machine, cloud, on_cpu, c),
    );
    SetupModel {
        components,
        ready: forall|i: int| 0 <= i < components.len() ==> !blocks(#[trigger] components[i]),
        download_pending: pending_of(components),
        driver_ok: machine.driver,
        llama_build: catalog::GH_LLAMA_BUILD@,
    }
}

/// Whether the sizes on disk can be summed in 64 bits, for every component.
pub open spec fn sizes_fit_model(disk: Seq<(Seq<char>, DiskEntry)>) -> bool {
    forall|i: int|
        0 <= i < catalog::manifest_model().len() ==> bytes_held(
            disk,
            (#[trigger] catalog::manifest_model()[i]).markers,
        ) <= u64::MAX
}

/// Whether the sizes on disk can be summed in 64 bits, for every component.
pub fn sizes_fit(disk: &Disk) -> (r: bool)
    ensures
        r == sizes_fit_model(disk@),
{
    let all = manifest();
    for i in 0..all.len()
        invariant
            all@.map_values(|c: Component| c@) == catalog::manifest_model(),
            forall|j: int|
                0 <= j < i ==> bytes_held(
                    disk@,
                    (#[trigger] catalog::manifest_model()[j]).markers,
                ) <= u64::MAX,
    {
        let c = &all[i];
        let ghost ms = c@.markers;
        assert(catalog::manifest_model()[i as int] == all@.map_values(|c: Component| c@)[i as int]);
        let mut sum: u64 = 0;
        assert(ms.take(0) =~= Seq::empty());
        for k in 0..c.markers.len()
            invariant
                ms == c@.markers,
                ms.len() == c.markers@.len(),
                0 <= i < catalog::manifest_model().len(),
                catalog::manifest_model()[i as int].markers == ms,
                sum == bytes_held(disk@, ms.take(k as int)),
        {
            let m = &c.markers[k];
            proof {
                assert(ms[k as int] == m@);
                assert(ms.take(k + 1).drop_last() =~= ms.take(k as int));
                assert(ms.take(k + 1).last() == m@);
                lemma_bytes_nonneg(disk@, ms, k + 1);
            }
            let held: u64 = match disk.entry(m.rel) {
                Some(e) => e.len,
                None => 0,
            };
            if sum > u64::MAX - held {
                return false;
            }
            sum = sum + held;
        }
        assert(ms.take(c.markers@.len() as int) =~= ms);
    }
    true
}

/// The state of the whole installation: what is on `disk`, what runs in the cloud, and whether the
/// local stages run on the processor alone (`backend` is "cpu").
pub fn setup_status(disk: &Disk, machine: &Machine, cloud: &CloudStages, backend: &str) -> (r:
    SetupStatus)
    requires
        sizes_fit_model(disk@),
    ensures
        r@ == setup_of(disk@, *machine, *cloud, backend@ == "cpu"@),
{
    let on_cpu = text::same(backend, "cpu");
    let all = manifest();
    let mut components: Vec<ComponentStatus> = Vec::new();
    let mut ready = true;
    let mut pending: u64 = 0;
    let ghost target = setup_of(disk@, *machine, *cloud, on_cpu);
    let ghost mm = catalog::manifest_model();
    assert(target.components.take(0) =~= Seq::empty());
    for i in 0..all.len()
        invariant
            mm == catalog::manifest_model(),
            all@.map_values(|c: Component| c@) == mm,
            all@.len() == 33,
            sizes_fit_model(disk@),
            target == setup_of(disk@, *machine, *cloud, on_cpu),
            components@.len() == i,
            forall|j: int| 0 <= j < i ==> (#[trigger] components@[j])@ == target.components[j],
            ready == (forall|j: int| 0 <= j < i ==> !blocks(#[trigger] target.components[j])),
            pending == pending_of(target.components.take(i as int)),
            pending <= i * catalog::SIZE_LIMIT,
    {
        let c = &all[i];
        proof {
            assert(mm[i as int] == all@.map_values(|c: Component| c@)[i as int]);
            assert(bytes_held(disk@, mm[i as int].markers) <= u64::MAX);
            catalog::lemma_sizes(i as int);
            lemma_bytes_nonneg(disk@, mm[i as int].markers, 0);
        }
        let mut s = component_status(disk, machine, c);
        s.requirement = effective_requirement(c.id, c.requirement, cloud, on_cpu);
        assert(s@ == target.components[i as int]);
        if s.requirement == Requirement::Required && s.delivery != Delivery::External
            && !s.installed {
            ready = false;
        }
        proof {
            let t = target.components.take(i + 1);
            assert(t.drop_last() =~= target.components.take(i as int));
            assert(t.last() == s@);
        }
        if s.delivery == Delivery::Download && !s.installed && s.requirement
            != Requirement::Optional {
            pending = pending + s.size.saturating_sub(s.bytes_on_disk);
        }
        components.push(s);
    }
    assert(target.components.take(33) =~= target.components);
    let out = SetupStatus {
        components,
        ready,
        download_pending: pending,
        driver_ok: machine.driver,
        llama_build: catalog::GH_LLAMA_BUILD.to_owned(),
    };
    assert(out@.components =~= target.components);
    out
}

// ── Laws ────────────────────────────────────────────────────────────────────

/// The display driver never keeps the pipeline from being ready, nor does it let it be ready: the
/// answer is the same with and without it.
pub proof fn law_driver_is_not_required(
    disk: Seq<(Seq<char>, DiskEntry)>,
    ffmpeg_on_path: bool,
    cloud: CloudStages,
    on_cpu: bool,
)
    ensures
        setup_of(disk, Machine { driver: true, ffmpeg_on_path }, cloud, on_cpu).ready == setup_of(
            disk,
            Machine { driver: false, ffmpeg_on_path },
            cloud,
            on_cpu,
        ).ready,
{
    let with = Machine { driver: true, ffmpeg_on_path };
    let without = Machine { driver: false, ffmpeg_on_path };
    let a = setup_of(disk, with, cloud, on_cpu);
    let b = setup_of(disk, without, cloud, on_cpu);
    law_when_the_installation_is_ready(disk, with, cloud, on_cpu);
    law_when_the_installation_is_ready(disk, without, cloud, on_cpu);
    assert forall|i: int| 0 <= i < a.components.len() implies blocks(#[trigger] a.components[i])
        == blocks(b.components[i]) by {}
    if a.ready {
        assert forall|i: int| 0 <= i < b.components.len() implies !blocks(
            #[trigger] b.components[i],
        ) by {
            assert(!blocks(a.components[i]));
        }
        assert(b.ready);
    }
    if b.ready {
        assert forall|i: int| 0 <= i < a.components.len() implies !blocks(
            #[trigger] a.components[i],
        ) by {
            assert(!blocks(b.components[i]));
        }
        assert(a.ready);
    }
}

/// A component of the cloud's work is never required: what the cloud does need not be downloaded.
pub proof fn law_cloud_work_is_not_required(
    id: Seq<char>,
    requirement: Requirement,
    cloud: CloudStages,
    on_cpu: bool,
)
    requires
        done_in_cloud(cloud, id),
    ensures
        needed(id, requirement, cloud, on_cpu) != Requirement::Required,
{
}

/// Moving a stage into the cloud never makes an installation that was ready unready.
pub proof fn law_cloud_keeps_ready(
    disk: Seq<(Seq<char>, DiskEntry)>,
    machine: Machine,
    less: CloudStages,
    more: CloudStages,
    on_cpu: bool,
)
    requires
        less.llm ==> more.llm,
        less.tts ==> more.tts,
        less.asr ==> more.asr,
        setup_of(disk, machine, less, on_cpu).ready,
    ensures
        setup_of(disk, machine, more, on_cpu).ready,
{
    let a = setup_of(disk, machine, less, on_cpu);
    let b = setup_of(disk, machine, more, on_cpu);
    law_when_the_installation_is_ready(disk, machine, less, on_cpu);
    law_when_the_installation_is_ready(disk, machine, more, on_cpu);
    assert forall|i: int| 0 <= i < b.components.len() implies !blocks(
        #[trigger] b.components[i],
    ) by {
        assert(!blocks(a.components[i]));
    }
}

/// Nothing is missing exactly when all the markers are good.
pub proof fn law_missing_is_empty_iff_good(
    disk: Seq<(Seq<char>, DiskEntry)>,
    ms: Seq<MarkerModel>,
)
    ensures
        (missing_of(disk, ms).len() == 0) == all_good(disk, ms),
    decreases ms.len(),
{
    if ms.len() > 0 {
        law_missing_is_empty_iff_good(disk, ms.drop_last());
        if all_good(disk, ms.drop_last()) && marker_good(disk, ms.last()) {
            assert forall|i: int| 0 <= i < ms.len() implies marker_good(disk, #[trigger] ms[i]) by {
                if i < ms.len() - 1 {
                    assert(ms[i] == ms.drop_last()[i]);
                }
            }
        }
        if all_good(disk, ms) {
            assert forall|i: int| 0 <= i < ms.drop_last().len() implies marker_good(
                disk,
                #[trigger] ms.drop_last()[i],
            ) by {
                assert(ms[i] == ms.drop_last()[i]);
            }
            assert(marker_good(disk, ms[ms.len() - 1]));
        }
    }
}

/// What stands at a path is what the first entry for it says.
pub proof fn law_first_entry_counts(
    disk: Seq<(Seq<char>, DiskEntry)>,
    e: (Seq<char>, DiskEntry),
    rel: Seq<char>,
)
    ensures
        entry_at(Seq::empty(), rel) is None,
        entry_at(seq![e] + disk, rel) == (if e.0 == rel {
            Some(e.1)
        } else {
            entry_at(disk, rel)
        }),
{
    assert((seq![e] + disk).drop_first() =~= disk);
}

/// A marker is good if its path is a file and holds 97 hundredths of what is expected, where anything is.
pub proof fn law_when_a_marker_is_good(disk: Seq<(Seq<char>, DiskEntry)>, m: MarkerModel)
    requires
        m.expect <= 1_000_000_000_000_000,
    ensures
        marker_good(disk, m) <==> {
            &&& entry_at(disk, m.rel) is Some && entry_at(disk, m.rel)->0.is_file
            &&& m.expect > 0 ==> entry_at(disk, m.rel)->0.len * 100 >= m.expect * 97
        },
{
}

/// A component is there if all of its markers are good. What lies outside of the application is there if the
/// driver is, and ffmpeg is also found on the search path.
pub proof fn law_when_a_component_is_there(
    disk: Seq<(Seq<char>, DiskEntry)>,
    machine: Machine,
    c: ComponentModel,
)
    ensures
        ({
            let s = status_of(disk, machine, c);
            let good = forall|i: int| 0 <= i < c.markers.len() ==> marker_good(disk, #[trigger] c.markers[i]);
            &&& c.delivery == Delivery::External ==> s.installed == machine.driver
            &&& c.delivery != Delivery::External && good ==> s.installed
            &&& c.delivery != Delivery::External && !good ==> (s.installed <==> c.id == "ffmpeg"@
                && machine.ffmpeg_on_path)
            &&& s.id == c.id && s.name == c.name && s.purpose == c.purpose && s.size == c.size
            &&& s.delivery == c.delivery && s.external_url == c.external_url
            &&& s.missing == c.markers.filter(|m: MarkerModel| !marker_good(disk, m)).map_values(
                |m: MarkerModel| m.rel,
            )
        }),
{
    lemma_missing_is_filtered(disk, c.markers);
}

proof fn lemma_missing_is_filtered(disk: Seq<(Seq<char>, DiskEntry)>, ms: Seq<MarkerModel>)
    ensures
        missing_of(disk, ms) == ms.filter(|m: MarkerModel| !marker_good(disk, m)).map_values(
            |m: MarkerModel| m.rel,
        ),
    decreases ms.len(),
{
    reveal(Seq::filter);
    let bad = |m: MarkerModel| !marker_good(disk, m);
    let rel = |m: MarkerModel| m.rel;
    if ms.len() > 0 {
        lemma_missing_is_filtered(disk, ms.drop_last());
        let before = ms.drop_last().filter(bad);
        assert(before.push(ms.last()).map_values(rel) =~= before.map_values(rel).push(ms.last().rel));
    } else {
        assert(ms.filter(bad).map_values(rel) =~= Seq::empty());
    }
}

/// What a component holds is the sum over its markers.
pub proof fn law_bytes_add_up(disk: Seq<(Seq<char>, DiskEntry)>, ms: Seq<MarkerModel>, m: MarkerModel)
    ensures
        bytes_held(disk, Seq::empty()) == 0,
        bytes_held(disk, ms.push(m)) == bytes_held(disk, ms) + (match entry_at(disk, m.rel) {
            Some(e) => e.len as int,
            None => 0,
        }),
{
    assert(ms.push(m).drop_last() =~= ms);
}

/// What is still to be downloaded: of each component that is downloaded, is not there and is not optional, as much
/// as its size is more than what it holds.
pub proof fn law_pending_adds_up(cs: Seq<StatusModel>, c: StatusModel)
    ensures
        pending_of(Seq::empty()) == 0,
        ({
            let owed = c.delivery == Delivery::Download && !c.installed && c.requirement != Requirement::Optional;
            &&& owed && c.size >= c.bytes_on_disk ==> pending_of(cs.push(c)) == pending_of(cs) + (c.size
                - c.bytes_on_disk)
            &&& !owed || c.size <= c.bytes_on_disk ==> pending_of(cs.push(c)) == pending_of(cs)
        }),
{
    assert(cs.push(c).drop_last() =~= cs);
}

/// The installation is ready unless something required that is not outside of the application is missing, and
/// tells the state of every component of the catalogue.
pub proof fn law_when_the_installation_is_ready(
    disk: Seq<(Seq<char>, DiskEntry)>,
    machine: Machine,
    cloud: CloudStages,
    on_cpu: bool,
)
    ensures
        ({
            let s = setup_of(disk, machine, cloud, on_cpu);
            let all = catalog::manifest_model();
            &&& s.components.len() == all.len()
            &&& forall|i: int|
                0 <= i < all.len() ==> (#[trigger] s.components[i]).id == all[i].id && s.components[i].installed
                    == status_of(disk, machine, all[i]).installed && s.components[i].requirement == needed(
                    all[i].id,
                    all[i].requirement,
                    cloud,
                    on_cpu,
                )
            &&& s.ready <==> forall|i: int|
                0 <= i < s.components.len() ==> (#[trigger] s.components[i]).requirement != Requirement::Required
                    || s.components[i].delivery == Delivery::External || s.components[i].installed
            &&& s.driver_ok == machine.driver
            &&& s.download_pending == pending_of(s.components)
        }),
{
}

/// How much a component is needed. The separation on the processor is recommended there and else optional; the one
/// on the graphics card and its libraries are optional on the processor. What the cloud does is not required, and
/// all else is needed as it is.
pub proof fn law_what_is_needed(id: Seq<char>, requirement: Requirement, cloud: CloudStages, on_cpu: bool)
    ensures
        ({
            let n = needed(id, requirement, cloud, on_cpu);
            let cpu = id == "bsroformer-engine-cpu"@;
            let gpu = id == "bsroformer-engine"@ || id == "cuda-runtime"@;
            let cloudy = (cloud.llm && (text::starts(id, "gemma"@) || id == "llama"@)) || (cloud.tts && text::starts(
                id,
                "higgs"@,
            )) || (cloud.asr && (text::starts(id, "parakeet"@) || text::starts(id, "whisper"@)));
            &&& cpu ==> n == (if on_cpu {
                Requirement::Recommended
            } else {
                Requirement::Optional
            })
            &&& !cpu && gpu && on_cpu ==> n == Requirement::Optional
            &&& !cpu && !(gpu && on_cpu) && requirement == Requirement::Required && cloudy ==> n
                == Requirement::Optional
            &&& !cpu && !(gpu && on_cpu) && !(requirement == Requirement::Required && cloudy) ==> n == requirement
        }),
{
}

} // verus!
