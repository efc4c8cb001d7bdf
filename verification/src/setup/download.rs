//! Fetching what is missing: which files, in which ranges, what a resumed download skips, and when
//! a fetched file is accepted.

use super::archive;
use super::catalog;
use super::catalog::manifest;
use super::status;
use super::status::Disk;
use super::status::DiskEntry;
use super::Component;
use super::ComponentModel;
use super::Delivery;
use super::Extract;
use super::FileModel;
use super::FileSpec;
use crate::text;
use vstd::prelude::*;

verus! {

/// How many connections fetch at once.
pub const POOL_SLOTS: usize = 4;

/// The length of a range that is fetched at once.
pub const CHUNK: u64 = 16_777_216;

/// How often a range is tried.
pub const RANGE_RETRIES: u32 = 8;

// ── Choosing components and files ───────────────────────────────────────────

/// The components of `ms` that can be downloaded and are among `ids`.
pub open spec fn selected_of(ms: Seq<ComponentModel>, ids: Seq<Seq<char>>) -> Seq<ComponentModel>
    decreases ms.len(),
{
    if ms.len() == 0 {
        Seq::empty()
    } else if ms.last().delivery == Delivery::Download && status::listed(ids, ms.last().id) {
        selected_of(ms.drop_last(), ids).push(ms.last())
    } else {
        selected_of(ms.drop_last(), ids)
    }
}

pub open spec fn component_views(cs: Seq<Component>) -> Seq<ComponentModel> {
    cs.map_values(|c: Component| c@)
}

proof fn lemma_listed(ids: Seq<String>, id: Seq<char>)
    ensures
        status::listed(text::views(ids), id) == exists|i: int|
            0 <= i < ids.len() && (#[trigger] ids[i])@ == id,
{
    let v = text::views(ids);
    assert forall|i: int| 0 <= i < v.len() implies #[trigger] v[i] == ids[i]@ by {}
    if exists|i: int| 0 <= i < ids.len() && (#[trigger] ids[i])@ == id {
        let i = choose|i: int| 0 <= i < ids.len() && (#[trigger] ids[i])@ == id;
        assert(v[i] == id);
    }
}

/// The components to download among `ids`, in the order of the list; nothing if there is none.
pub fn select_components(ids: &Vec<String>) -> (r: Option<Vec<Component>>)
    ensures
        match r {
            Some(cs) => {
                &&& component_views(cs@) == selected_of(
                    catalog::manifest_model(),
                    text::views(ids@),
                )
                &&& cs@.len() > 0
            },
            None => selected_of(catalog::manifest_model(), text::views(ids@)).len() == 0,
        },
{
    let all = manifest();
    let ghost mm = catalog::manifest_model();
    let ghost idv = text::views(ids@);
    let mut out: Vec<Component> = Vec::new();
    assert(mm.take(0) =~= Seq::empty());
    assert(component_views(out@) =~= Seq::empty());
    for c in it: all
        invariant
            component_views(it.seq()) == mm,
            idv == text::views(ids@),
            component_views(out@) == selected_of(mm.take(it.index()), idv),
    {
        proof {
            let i = it.index();
            assert(component_views(it.seq())[i] == it.seq()[i]@);
            assert(mm[i] == c@);
            assert(mm.take(i + 1).drop_last() =~= mm.take(i));
            assert(mm.take(i + 1).last() == c@);
            lemma_listed(ids@, c@.id);
        }
        if c.delivery == Delivery::Download && text::one_of(c.id, ids) {
            let ghost before = component_views(out@);
            out.push(c);
            assert(component_views(out@) =~= before.push(c@));
        }
    }
    assert(mm.take(mm.len() as int) =~= mm);
    assert(component_views(out@).len() == out@.len());
    if out.len() == 0 {
        None
    } else {
        Some(out)
    }
}

/// A file to fetch.
#[derive(Clone, Debug)]
pub struct Planned {
    /// Which of the chosen components it belongs to.
    pub component: usize,
    pub url: &'static str,
    pub dest_rel: &'static str,
    pub extract: Extract,
    /// The name of an archive in the temporary directory; nothing for a file that is fetched to
    /// its place.
    pub temp_name: Option<String>,
}

/// A file to fetch, as a value.
pub struct PlannedModel {
    pub component: int,
    pub url: Seq<char>,
    pub dest_rel: Seq<char>,
    pub extract: Extract,
    pub temp_name: Option<Seq<char>>,
}

impl View for Planned {
    type V = PlannedModel;

    open spec fn view(&self) -> PlannedModel {
        PlannedModel {
            component: self.component as int,
            url: self.url@,
            dest_rel: self.dest_rel@,
            extract: self.extract,
            temp_name: status::opt_view(self.temp_name),
        }
    }
}

/// A file that is kept as it is and has its whole known size need not be fetched again.
pub open spec fn in_place(disk: Seq<(Seq<char>, DiskEntry)>, f: FileModel) -> bool {
    f.extract == Extract::Keep && f.size != 0 && match status::entry_at(disk, f.dest_rel) {
        Some(e) => e.len == f.size,
        None => false,
    }
}

/// The name of an archive in the temporary directory.
pub open spec fn temp_of(f: FileModel) -> Option<Seq<char>> {
    if f.extract == Extract::Keep {
        None
    } else {
        let l = archive::leaf(f.dest_rel);
        Some(
            if l.len() == 0 || l == ".."@ {
                "archive.tmp"@
            } else {
                l
            },
        )
    }
}

pub open spec fn planned_one(ci: int, f: FileModel) -> PlannedModel {
    PlannedModel {
        component: ci,
        url: f.url,
        dest_rel: f.dest_rel,
        extract: f.extract,
        temp_name: temp_of(f),
    }
}

/// What is fetched of the files `fs` of the component number `ci`.
pub open spec fn planned_files(
    disk: Seq<(Seq<char>, DiskEntry)>,
    ci: int,
    fs: Seq<FileModel>,
) -> Seq<PlannedModel>
    decreases fs.len(),
{
    if fs.len() == 0 {
        Seq::empty()
    } else if in_place(disk, fs.last()) {
        planned_files(disk, ci, fs.drop_last())
    } else {
        planned_files(disk, ci, fs.drop_last()).push(planned_one(ci, fs.last()))
    }
}

/// What is fetched of the components `cs`, in order.
pub open spec fn planned_of(disk: Seq<(Seq<char>, DiskEntry)>, cs: Seq<ComponentModel>) -> Seq<
    PlannedModel,
>
    decreases cs.len(),
{
    if cs.len() == 0 {
        Seq::empty()
    } else {
        planned_of(disk, cs.drop_last()) + planned_files(disk, cs.len() - 1, cs.last().files)
    }
}

pub open spec fn planned_views(ps: Seq<Planned>) -> Seq<PlannedModel> {
    ps.map_values(|p: Planned| p@)
}

fn plan_one(ci: usize, f: &FileSpec) -> (r: Planned)
    ensures
        r@ == planned_one(ci as int, f@),
{
    let temp_name = if f.extract == Extract::Keep {
        None
    } else {
        let l = archive::leaf_of(f.dest_rel);
        if l.as_str().is_empty() || text::same(l.as_str(), "..") {
            Some("archive.tmp".to_owned())
        } else {
            Some(l)
        }
    };
    Planned { component: ci, url: f.url, dest_rel: f.dest_rel, extract: f.extract, temp_name }
}

/// The files to fetch for the components `cs`: all but those that are already whole.
pub fn plan_files(disk: &Disk, cs: &Vec<Component>) -> (r: Vec<Planned>)
    ensures
        planned_views(r@) == planned_of(disk@, component_views(cs@)),
        forall|i: int| 0 <= i < r@.len() ==> (#[trigger] r@[i]).component < cs@.len(),
{
    let mut out: Vec<Planned> = Vec::new();
    let ghost cm = component_views(cs@);
    assert(cm.take(0) =~= Seq::empty());
    assert(planned_views(out@) =~= Seq::empty());
    for ci in 0..cs.len()
        invariant
            cm == component_views(cs@),
            planned_views(out@) == planned_of(disk@, cm.take(ci as int)),
            forall|i: int| 0 <= i < out@.len() ==> (#[trigger] out@[i]).component < cs@.len(),
    {
        let c = &cs[ci];
        let ghost done = planned_views(out@);
        let ghost fm = c@.files;
        proof {
            assert(cm[ci as int] == c@);
            assert(cm.take(ci + 1).drop_last() =~= cm.take(ci as int));
            assert(cm.take(ci + 1).last() == c@);
            assert(fm.take(0) =~= Seq::empty());
            assert(done + planned_files(disk@, ci as int, fm.take(0)) =~= done);
        }
        for k in 0..c.files.len()
            invariant
                fm == c@.files,
                fm.len() == c.files@.len(),
                ci < cs@.len(),
                planned_views(out@) == done + planned_files(disk@, ci as int, fm.take(k as int)),
                forall|i: int| 0 <= i < out@.len() ==> (#[trigger] out@[i]).component < cs@.len(),
        {
            let f = &c.files[k];
            proof {
                assert(fm[k as int] == f@);
                assert(fm.take(k + 1).drop_last() =~= fm.take(k as int));
                assert(fm.take(k + 1).last() == f@);
            }
            let mut whole = false;
            if f.extract == Extract::Keep && f.size != 0 {
                if let Some(e) = disk.entry(f.dest_rel) {
                    whole = e.len == f.size;
                }
            }
            if !whole {
                let ghost before = planned_views(out@);
                let p = plan_one(ci, f);
                out.push(p);
                assert(planned_views(out@) =~= before.push(p@));
                assert(before.push(p@) =~= done + planned_files(
                    disk@,
                    ci as int,
                    fm.take(k as int),
                ).push(p@));
            }
        }
        assert(fm.take(c.files@.len() as int) =~= fm);
    }
    assert(cm.take(cs@.len() as int) =~= cm);
    out
}

// ── What a server says of a file ────────────────────────────────────────────

pub open spec fn opt_str_view(s: Option<&str>) -> Option<Seq<char>> {
    match s {
        Some(t) => Some(t@),
        None => None,
    }
}

pub open spec fn number_or_zero(s: Option<Seq<char>>) -> u64 {
    match s {
        Some(t) => match text::unsigned(t) {
            Some(n) => n,
            None => 0,
        },
        None => 0,
    }
}

/// The size of a file and whether it can be had in ranges, from the reply to a request for its first
/// byte: a partial reply names the size behind the slash of its range, any other by its length.
pub open spec fn size_told(
    status: u16,
    content_range: Option<Seq<char>>,
    content_length: Option<Seq<char>>,
) -> (u64, bool) {
    if status == 206 {
        let total = number_or_zero(
            match content_range {
                Some(s) => Some(text::trimmed(archive::leaf(s))),
                None => None,
            },
        );
        (total, total > 0)
    } else {
        (number_or_zero(content_length), false)
    }
}

/// The size of a file and whether it can be had in ranges, from the reply to a request for its first
/// byte.
pub fn size_from_reply(
    status: u16,
    content_range: Option<&str>,
    content_length: Option<&str>,
) -> (r: (u64, bool))
    ensures
        r == size_told(status, opt_str_view(content_range), opt_str_view(content_length)),
{
    if status == 206 {
        let total: u64 = match content_range {
            Some(s) => {
                let tail = text::trim(archive::leaf_of(s).as_str());
                match text::parse_unsigned(tail.as_str()) {
                    Some(n) => n,
                    None => 0,
                }
            },
            None => 0,
        };
        (total, total > 0)
    } else {
        let total: u64 = match content_length {
            Some(s) => match text::parse_unsigned(s) {
                Some(n) => n,
                None => 0,
            },
            None => 0,
        };
        (total, false)
    }
}

// ── Ranges and resuming ─────────────────────────────────────────────────────

/// The number that eight bytes write, the lowest first.
pub open spec fn little_endian(b: Seq<u8>, at: int) -> int {
    b[at] + 0x100 * b[at + 1] + 0x1_0000 * b[at + 2] + 0x100_0000 * b[at + 3] + 0x1_0000_0000 * b[at
        + 4] + 0x100_0000_0000 * b[at + 5] + 0x1_0000_0000_0000 * b[at + 6] + 0x100_0000_0000_0000
        * b[at + 7]
}

/// Whether the record `b` of finished ranges holds the offset `start`. A torn tail of fewer than
/// eight bytes says nothing.
pub open spec fn recorded(b: Seq<u8>, start: int) -> bool {
    exists|k: int| 0 <= k && 8 * k + 8 <= b.len() && #[trigger] little_endian(b, 8 * k) == start
}

fn offset_at(b: &Vec<u8>, at: usize) -> (r: u64)
    requires
        at + 8 <= b.len(),
    ensures
        r == little_endian(b@, at as int),
{
    b[at] as u64 + 0x100 * (b[at + 1] as u64) + 0x1_0000 * (b[at + 2] as u64) + 0x100_0000 * (b[at
        + 3] as u64) + 0x1_0000_0000 * (b[at + 4] as u64) + 0x100_0000_0000 * (b[at + 5] as u64)
        + 0x1_0000_0000_0000 * (b[at + 6] as u64) + 0x100_0000_0000_0000 * (b[at + 7] as u64)
}

/// Whether `off` can be the start of a range of a file of `total` bytes.
pub open spec fn is_boundary(off: int, total: int) -> bool {
    0 <= off < total && off % (CHUNK as int) == 0
}

/// The offsets that the record holds, as far as they start a range of a file of `total` bytes.
pub fn completed_offsets(b: &Vec<u8>, total: u64) -> (r: Vec<u64>)
    ensures
        forall|off: u64|
            r@.contains(off) == (is_boundary(off as int, total as int) && recorded(b@, off as int)),
{
    let mut out: Vec<u64> = Vec::new();
    let mut at: usize = 0;
    let ghost mut k: int = 0;
    while b.len() - at >= 8
        invariant
            at <= b@.len(),
            at == 8 * k,
            0 <= k,
            forall|i: int| 0 <= i < out@.len() ==> is_boundary(#[trigger] out@[i] as int, total as int)
                && recorded(b@, out@[i] as int),
            forall|j: int|
                0 <= j < k && is_boundary(#[trigger] little_endian(b@, 8 * j), total as int)
                    ==> out@.contains(little_endian(b@, 8 * j) as u64),
        decreases b@.len() - at,
    {
        let off: u64 = offset_at(b, at);
        let ghost before = out@;
        assert(recorded(b@, off as int)) by {
            assert(little_endian(b@, 8 * k) == off);
        }
        if off < total && off % CHUNK == 0 {
            out.push(off);
            assert(out@[before.len() as int] == off);
        }
        proof {
            assert forall|j: int|
                0 <= j < k + 1 && is_boundary(
                    #[trigger] little_endian(b@, 8 * j),
                    total as int,
                ) implies out@.contains(little_endian(b@, 8 * j) as u64) by {
                let v = little_endian(b@, 8 * j) as u64;
                if j < k {
                    assert(before.contains(v));
                    let i = choose|i: int| 0 <= i < before.len() && before[i] == v;
                    assert(out@[i] == v);
                } else {
                    assert(out@[out@.len() - 1] == off);
                }
            }
            k = k + 1;
        }
        at += 8;
    }
    proof {
        assert forall|off: u64|
            out@.contains(off) == (is_boundary(off as int, total as int) && recorded(
                b@,
                off as int,
            )) by {
            if is_boundary(off as int, total as int) && recorded(b@, off as int) {
                let j = choose|j: int|
                    0 <= j && 8 * j + 8 <= b@.len() && #[trigger] little_endian(b@, 8 * j) == off;
                assert(j < k);
                assert(out@.contains(little_endian(b@, 8 * j) as u64));
            }
        }
    }
    out
}

/// How many ranges a file of `total` bytes has.
pub open spec fn range_count(total: int) -> int {
    if total <= 0 {
        0
    } else {
        (total - 1) / (CHUNK as int) + 1
    }
}

/// The last byte of the range that starts at `start`.
pub open spec fn range_end(total: int, start: int) -> int {
    if start + CHUNK <= total {
        start + CHUNK - 1
    } else {
        total - 1
    }
}

/// Of the first `n` ranges, those whose start is not in `done`.
pub open spec fn unfetched_of(total: int, done: Set<int>, n: int) -> Seq<(u64, u64)>
    decreases n,
{
    if n <= 0 {
        Seq::empty()
    } else {
        let start = (n - 1) * CHUNK;
        let before = unfetched_of(total, done, n - 1);
        if done.contains(start) {
            before
        } else {
            before.push((start as u64, range_end(total, start) as u64))
        }
    }
}

/// The bytes of the first `n` ranges whose start is in `done`.
pub open spec fn already_of(total: int, done: Set<int>, n: int) -> int
    decreases n,
{
    if n <= 0 {
        0
    } else {
        let start = (n - 1) * CHUNK;
        let before = already_of(total, done, n - 1);
        if done.contains(start) {
            before + (range_end(total, start) - start + 1)
        } else {
            before
        }
    }
}

proof fn lemma_range_count(total: int, start: int, n: int)
    requires
        n >= 0,
        start == n * CHUNK,
        total > 0,
    ensures
        (start < total) == (n < range_count(total)),
        start < total && total - start <= CHUNK ==> range_count(total) == n + 1,
{
    let q = (total - 1) / (CHUNK as int);
    let r = (total - 1) % (CHUNK as int);
    assert(total - 1 == CHUNK * q + r && 0 <= r < CHUNK);
    if n <= q {
        assert(n * CHUNK <= q * CHUNK) by (nonlinear_arith)
            requires
                n <= q,
        ;
    } else {
        assert(n * CHUNK >= (q + 1) * CHUNK) by (nonlinear_arith)
            requires
                n >= q + 1,
        ;
    }
    if n < q {
        assert(q * CHUNK >= (n + 1) * CHUNK) by (nonlinear_arith)
            requires
                q >= n + 1,
        ;
    }
}

fn has(done: &Vec<u64>, x: u64) -> (r: bool)
    ensures
        r == done@.contains(x),
{
    for i in 0..done.len()
        invariant
            forall|j: int| 0 <= j < i ==> done@[j] != x,
    {
        if done[i] == x {
            return true;
        }
    }
    false
}

/// The numbers in `done`.
pub open spec fn offsets(done: Seq<u64>) -> Set<int> {
    Set::new(|x: int| 0 <= x <= u64::MAX && done.contains(x as u64))
}

/// The ranges still to fetch of a file of `total` bytes, and the bytes that need not be: those of the
/// ranges that start at an offset in `done`.
pub fn plan_ranges(total: u64, done: &Vec<u64>) -> (r: (Vec<(u64, u64)>, u64))
    ensures
        r.0@ == unfetched_of(total as int, offsets(done@), range_count(total as int)),
        r.1 == already_of(total as int, offsets(done@), range_count(total as int)),
        r.1 <= total,
{
    let mut unfetched: Vec<(u64, u64)> = Vec::new();
    let mut already: u64 = 0;
    if total == 0 {
        return (unfetched, already);
    }
    let mut start: u64 = 0;
    let ghost mut n: int = 0;
    loop
        invariant_except_break
            0 <= n < range_count(total as int),
            start == n * CHUNK,
            start < total,
            unfetched@ == unfetched_of(total as int, offsets(done@), n),
            already == already_of(total as int, offsets(done@), n),
            already <= start,
        invariant
            total > 0,
        ensures
            unfetched@ == unfetched_of(total as int, offsets(done@), range_count(total as int)),
            already == already_of(total as int, offsets(done@), range_count(total as int)),
            already <= total,
        decreases range_count(total as int) - n,
    {
        let last = total - start <= CHUNK;
        let end: u64 = if last {
            total - 1
        } else {
            start + (CHUNK - 1)
        };
        assert(end == range_end(total as int, start as int));
        assert((n + 1 - 1) * CHUNK == start);
        if has(done, start) {
            already = already + (end - start + 1);
        } else {
            unfetched.push((start, end));
        }
        proof {
            lemma_range_count(total as int, start as int, n);
            assert(unfetched@ =~= unfetched_of(total as int, offsets(done@), n + 1));
        }
        if last {
            break ;
        }
        start = start + CHUNK;
        proof {
            n = n + 1;
            assert(n * CHUNK == (n - 1) * CHUNK + CHUNK) by (nonlinear_arith);
            lemma_range_count(total as int, start as int, n);
        }
    }
    (unfetched, already)
}

/// What is known of a file before it is fetched.
#[derive(Clone, Debug)]
pub struct FileState {
    /// The size that the server tells, 0 if it tells none.
    pub total: u64,
    pub ranges_ok: bool,
    /// The length of the part that an earlier attempt left behind.
    pub part_len: Option<u64>,
    /// The record of finished ranges that an earlier attempt left behind.
    pub record: Option<Vec<u8>>,
}

/// What is known of a file before it is fetched, as a value.
pub struct FileStateModel {
    pub total: int,
    pub ranges_ok: bool,
    pub part_len: Option<u64>,
    pub record: Option<Seq<u8>>,
}

impl View for FileState {
    type V = FileStateModel;

    open spec fn view(&self) -> FileStateModel {
        FileStateModel {
            total: self.total as int,
            ranges_ok: self.ranges_ok,
            part_len: self.part_len,
            record: match self.record {
                Some(b) => Some(b@),
                None => None,
            },
        }
    }
}

pub open spec fn in_ranges(s: FileStateModel) -> bool {
    s.ranges_ok && s.total > 0
}

/// An earlier attempt is continued when its part has the full length and its record is there.
pub open spec fn resumes(s: FileStateModel) -> bool {
    in_ranges(s) && s.record is Some && match s.part_len {
        Some(n) => n == s.total,
        None => false,
    }
}

/// Whether an earlier attempt at the file is continued.
pub fn resuming(s: &FileState) -> (r: bool)
    ensures
        r == resumes(s@),
{
    s.ranges_ok && s.total > 0 && s.record.is_some() && match s.part_len {
        Some(n) => n == s.total,
        None => false,
    }
}

/// The starts of the ranges that need not be fetched again.
pub open spec fn finished(s: FileStateModel) -> Set<int> {
    Set::new(|x: int| resumes(s) && is_boundary(x, s.total) && recorded(s.record->0, x))
}

/// One piece of work for the pool.
#[derive(Clone, Copy, Debug, PartialEq, Eq, Structural)]
pub enum Task {
    /// The bytes from `start` to `end` of the file.
    Range { file: usize, start: u64, end: u64 },
    /// The whole of a file that cannot be had in ranges.
    Whole { file: usize },
}

pub open spec fn file_tasks(file: int, s: FileStateModel) -> Seq<Task> {
    if in_ranges(s) {
        unfetched_of(s.total, finished(s), range_count(s.total)).map_values(
            |r: (u64, u64)| Task::Range { file: file as usize, start: r.0, end: r.1 },
        )
    } else {
        seq![Task::Whole { file: file as usize }]
    }
}

/// The work for all files, in order.
pub open spec fn tasks_of(states: Seq<FileStateModel>) -> Seq<Task>
    decreases states.len(),
{
    if states.len() == 0 {
        Seq::empty()
    } else {
        tasks_of(states.drop_last()) + file_tasks(states.len() - 1, states.last())
    }
}

pub open spec fn state_views(states: Seq<FileState>) -> Seq<FileStateModel> {
    states.map_values(|s: FileState| s@)
}

pub open spec fn already_for(s: FileStateModel) -> int {
    if in_ranges(s) {
        already_of(s.total, finished(s), range_count(s.total))
    } else {
        0
    }
}

/// The bytes of the files of the component `ci`.
pub open spec fn total_for(ps: Seq<PlannedModel>, states: Seq<FileStateModel>, ci: int) -> int
    decreases states.len(),
{
    if states.len() == 0 {
        0
    } else {
        total_for(ps, states.drop_last(), ci) + if ps[states.len() - 1].component == ci {
            states.last().total
        } else {
            0
        }
    }
}

/// The bytes of the files of the component `ci` that are there from an earlier attempt.
pub open spec fn done_for(ps: Seq<PlannedModel>, states: Seq<FileStateModel>, ci: int) -> int
    decreases states.len(),
{
    if states.len() == 0 {
        0
    } else {
        done_for(ps, states.drop_last(), ci) + if ps[states.len() - 1].component == ci {
            already_for(states.last())
        } else {
            0
        }
    }
}

/// The bytes of all files.
pub open spec fn grand_total(states: Seq<FileStateModel>) -> int
    decreases states.len(),
{
    if states.len() == 0 {
        0
    } else {
        grand_total(states.drop_last()) + states.last().total
    }
}

proof fn lemma_grand_grows(states: Seq<FileState>, k: int)
    requires
        0 <= k <= states.len(),
    ensures
        0 <= grand_total(state_views(states).take(k)) <= grand_total(state_views(states)),
    decreases states.len(),
{
    let v = state_views(states);
    if states.len() == 0 {
        assert(v.take(k) =~= v);
    } else {
        let w = state_views(states.drop_last());
        assert(v.drop_last() =~= w);
        assert(v.last() == states.last()@);
        if k == states.len() {
            assert(v.take(k) =~= v);
            lemma_grand_grows(states.drop_last(), k - 1);
        } else {
            lemma_grand_grows(states.drop_last(), k);
            assert(v.drop_last().take(k) =~= v.take(k));
        }
    }
}

/// The work of a download.
#[derive(Clone, Debug)]
pub struct TaskPlan {
    pub tasks: Vec<Task>,
    /// By component: the bytes of its files.
    pub totals: Vec<u64>,
    /// By component: the bytes that are there already.
    pub done: Vec<u64>,
}

/// The work of fetching the files `ps` of `ncomp` components, given what is known of each.
pub fn plan_tasks(ps: &Vec<Planned>, states: &Vec<FileState>, ncomp: usize) -> (r: TaskPlan)
    requires
        ps@.len() == states@.len(),
        forall|i: int| 0 <= i < ps@.len() ==> (#[trigger] ps@[i]).component < ncomp,
        grand_total(state_views(states@)) <= u64::MAX,
    ensures
        r.tasks@ == tasks_of(state_views(states@)),
        r.totals@.len() == ncomp,
        r.done@.len() == ncomp,
        forall|ci: int|
            0 <= ci < ncomp ==> (#[trigger] r.totals@[ci]) == total_for(
                planned_views(ps@),
                state_views(states@),
                ci,
            ),
        forall|ci: int|
            0 <= ci < ncomp ==> (#[trigger] r.done@[ci]) == done_for(
                planned_views(ps@),
                state_views(states@),
                ci,
            ),
{
    let mut tasks: Vec<Task> = Vec::new();
    let mut totals: Vec<u64> = Vec::new();
    let mut done: Vec<u64> = Vec::new();
    for i in 0..ncomp
        invariant
            totals@.len() == i,
            done@.len() == i,
            forall|ci: int| 0 <= ci < i ==> totals@[ci] == 0,
            forall|ci: int| 0 <= ci < i ==> done@[ci] == 0,
    {
        totals.push(0);
        done.push(0);
    }
    let ghost sv = state_views(states@);
    let ghost pv = planned_views(ps@);
    assert(sv.take(0) =~= Seq::empty());
    for i in 0..states.len()
        invariant
            sv == state_views(states@),
            pv == planned_views(ps@),
            ps@.len() == states@.len(),
            forall|i: int| 0 <= i < ps@.len() ==> (#[trigger] ps@[i]).component < ncomp,
            grand_total(sv) <= u64::MAX,
            totals@.len() == ncomp,
            done@.len() == ncomp,
            tasks@ == tasks_of(sv.take(i as int)),
            forall|ci: int|
                0 <= ci < ncomp ==> (#[trigger] totals@[ci]) == total_for(
                    pv,
                    sv.take(i as int),
                    ci,
                ) && totals@[ci] <= grand_total(sv.take(i as int)),
            forall|ci: int|
                0 <= ci < ncomp ==> (#[trigger] done@[ci]) == done_for(pv, sv.take(i as int), ci)
                    && done@[ci] <= grand_total(sv.take(i as int)),
    {
        let s = &states[i];
        let ci: usize = ps[i].component;
        let ghost totals0 = totals@;
        let ghost done0 = done@;
        let ghost tasks0 = tasks@;
        proof {
            assert(sv[i as int] == s@);
            assert(sv.take(i + 1).drop_last() =~= sv.take(i as int));
            assert(sv.take(i + 1).last() == s@);
            lemma_grand_grows(states@, i + 1);
            assert(pv[i as int] == ps@[i as int]@);
            assert(pv[i as int].component == ci);
        }
        totals.set(ci, totals[ci] + s.total);
        if s.ranges_ok && s.total > 0 {
            let finished_starts: Vec<u64> = if resuming(s) {
                match &s.record {
                    Some(b) => completed_offsets(b, s.total),
                    None => Vec::new(),
                }
            } else {
                Vec::new()
            };
            proof {
                assert forall|x: int| offsets(finished_starts@).contains(x) == finished(
                    s@,
                ).contains(x) by {
                    if 0 <= x <= u64::MAX {
                        assert(finished_starts@.contains(x as u64) == finished(s@).contains(x));
                    }
                }
                assert(offsets(finished_starts@) =~= finished(s@));
            }
            let (unfetched, already) = plan_ranges(s.total, &finished_starts);
            for k in 0..unfetched.len()
                invariant
                    unfetched@ == unfetched_of(s@.total, finished(s@), range_count(s@.total)),
                    in_ranges(s@),
                    tasks@ == tasks0 + file_tasks(i as int, s@).take(k as int),
            {
                let (start, end) = unfetched[k];
                tasks.push(Task::Range { file: i, start, end });
                assert(tasks@ =~= tasks0 + file_tasks(i as int, s@).take(k + 1));
            }
            assert(file_tasks(i as int, s@).take(unfetched@.len() as int) =~= file_tasks(i as int, s@));
            done.set(ci, done[ci] + already);
        } else {
            tasks.push(Task::Whole { file: i });
            assert(tasks@ =~= tasks0 + file_tasks(i as int, s@));
        }
        proof {
            let t = sv.take(i + 1);
            assert forall|c: int| 0 <= c < ncomp implies (#[trigger] totals@[c]) == total_for(
                pv,
                t,
                c,
            ) && totals@[c] <= grand_total(t) by {
                assert(totals0[c] == total_for(pv, sv.take(i as int), c));
            }
            assert forall|c: int| 0 <= c < ncomp implies (#[trigger] done@[c]) == done_for(pv, t, c)
                && done@[c] <= grand_total(t) by {
                assert(done0[c] == done_for(pv, sv.take(i as int), c));
            }
        }
    }
    assert(sv.take(states@.len() as int) =~= sv);
    TaskPlan { tasks, totals, done }
}

/// How many workers take tasks: no more than there are slots or tasks, and at least one.
pub fn pool_size(tasks: usize) -> (r: usize)
    ensures
        r == (if tasks == 0 {
            1
        } else if tasks < POOL_SLOTS {
            tasks
        } else {
            POOL_SLOTS
        }),
{
    if tasks == 0 {
        1
    } else if tasks < POOL_SLOTS {
        tasks
    } else {
        POOL_SLOTS
    }
}

// ── Trying a range again ────────────────────────────────────────────────────

/// How one attempt at a range ended.
#[derive(Clone, Debug)]
pub enum Attempt {
    /// The connection closed in order after `got` bytes.
    Closed { got: u64 },
    /// The download was cancelled.
    Cancelled,
    /// It failed after `got` bytes, for the reason given.
    Failed { got: u64, reason: String },
}

/// What follows an attempt.
#[derive(Clone, Debug)]
pub enum RangeStep {
    /// The range is complete.
    Done,
    Cancelled,
    /// Take `got` bytes off the progress, wait, and try again.
    Retry { got: u64, wait_ms: u64 },
    /// Take `got` bytes off the progress and give up.
    GiveUp { got: u64, reason: String },
}

/// Why an attempt that closed early is tried again.
pub open spec fn short_reason(got: u64, want: u64) -> Seq<char> {
    "неполный range: "@ + text::decimal(got as nat) + "/"@ + text::decimal(want as nat) + " байт"@
}

/// The reason with which a range is given up.
pub open spec fn final_reason(start: u64, end: u64, last: Seq<char>) -> Seq<char> {
    "range "@ + text::decimal(start as nat) + "-"@ + text::decimal(end as nat) + " после "@
        + text::decimal(RANGE_RETRIES as nat) + " попыток: "@ + last
}

fn say_short(got: u64, want: u64) -> (r: String)
    ensures
        r@ == short_reason(got, want),
{
    let mut m = "неполный range: ".to_owned();
    m.append(text::to_decimal(got).as_str());
    m.append("/");
    m.append(text::to_decimal(want).as_str());
    m.append(" байт");
    m
}

fn say_final(start: u64, end: u64, last: &str) -> (r: String)
    ensures
        r@ == final_reason(start, end, last@),
{
    let mut m = "range ".to_owned();
    m.append(text::to_decimal(start).as_str());
    m.append("-");
    m.append(text::to_decimal(end).as_str());
    m.append(" после ");
    m.append(text::to_decimal(RANGE_RETRIES as u64).as_str());
    m.append(" попыток: ");
    m.append(last);
    m
}

/// Whether the attempt brought the range whole.
pub open spec fn complete(start: u64, end: u64, outcome: Attempt) -> bool {
    match outcome {
        Attempt::Closed { got } => got == end - start + 1,
        _ => false,
    }
}

/// The bytes an attempt brought and why it does not count.
pub open spec fn failure(start: u64, end: u64, outcome: Attempt) -> (u64, Seq<char>) {
    match outcome {
        Attempt::Closed { got } => (got, short_reason(got, (end - start + 1) as u64)),
        Attempt::Cancelled => (0, Seq::empty()),
        Attempt::Failed { got, reason } => (got, reason@),
    }
}

/// What follows the attempt number `attempt` (from 0) at the bytes from `start` to `end`: a range
/// is done when all of it came, is not tried again once cancelled, and is tried
/// [`RANGE_RETRIES`] times in all, with a pause that grows by 400 milliseconds.
pub fn after_attempt(start: u64, end: u64, attempt: u32, outcome: Attempt) -> (r: RangeStep)
    requires
        start <= end,
        end - start < u64::MAX,
        attempt < RANGE_RETRIES,
    ensures
        (r is Done) == complete(start, end, outcome),
        (r is Cancelled) == (outcome is Cancelled),
        match r {
            RangeStep::Retry { got, wait_ms } => {
                &&& attempt + 1 < RANGE_RETRIES
                &&& got == failure(start, end, outcome).0
                &&& wait_ms == 400 * (attempt + 1)
            },
            RangeStep::GiveUp { got, reason } => {
                &&& attempt + 1 == RANGE_RETRIES
                &&& got == failure(start, end, outcome).0
                &&& reason@ == final_reason(start, end, failure(start, end, outcome).1)
            },
            _ => true,
        },
{
    let want: u64 = end - start + 1;
    let (got, last): (u64, String) = match outcome {
        Attempt::Cancelled => {
            return RangeStep::Cancelled;
        },
        Attempt::Closed { got } => {
            if got == want {
                return RangeStep::Done;
            }
            (got, say_short(got, want))
        },
        Attempt::Failed { got, reason } => (got, reason),
    };
    if attempt + 1 < RANGE_RETRIES {
        RangeStep::Retry { got, wait_ms: 400 * (attempt as u64 + 1) }
    } else {
        RangeStep::GiveUp { got, reason: say_final(start, end, last.as_str()) }
    }
}

/// The progress after `got` bytes of a failed attempt are taken off again.
pub fn rolled_back(downloaded: u64, got: u64) -> (r: u64)
    ensures
        r == (if downloaded > got {
            downloaded - got
        } else {
            0
        }),
{
    downloaded.saturating_sub(got)
}

// ── The end of a download ───────────────────────────────────────────────────

/// How a download goes on when its workers have stopped.
#[derive(Clone, Debug)]
pub enum Ending {
    /// It failed; what has been fetched is kept for the next attempt.
    Failed(String),
    /// It was cancelled; what has been fetched is removed.
    Cancelled,
    /// The fetched files are checked and put in place.
    Finish,
}

/// How a download goes on when its workers have stopped. A failure counts before a cancellation.
pub fn ending(error: Option<String>, cancelled: bool) -> (r: Ending)
    ensures
        match error {
            Some(e) => r == Ending::Failed(e),
            None => if cancelled {
                r is Cancelled
            } else {
                r is Finish
            },
        },
{
    match error {
        Some(e) => Ending::Failed(e),
        None => if cancelled {
            Ending::Cancelled
        } else {
            Ending::Finish
        },
    }
}

/// Whether the file at `rel` is a model in the GGUF format, by its extension.
pub open spec fn is_gguf(rel: Seq<char>) -> bool {
    let l = archive::leaf(rel);
    text::ends(l, ".gguf"@) && l.len() > 5
}

/// Whether the file at `rel` is a model in the GGUF format.
pub fn names_gguf(rel: &str) -> (r: bool)
    ensures
        r == is_gguf(rel@),
{
    let l = archive::leaf_of(rel);
    let chars = text::chars_of(l.as_str());
    text::ends_with(l.as_str(), ".gguf") && chars.len() > 5
}

/// Why a fetched part is not accepted.
#[derive(Clone, Copy, Debug, PartialEq, Eq, Structural)]
pub enum PartFault {
    /// It is not as long as the server told.
    Size,
    /// It does not begin as a model of its format does.
    Magic,
}

/// The first bytes of a model in the GGUF format.
pub open spec fn gguf_magic() -> Seq<u8> {
    seq![0x47u8, 0x47u8, 0x55u8, 0x46u8]
}

/// What is wrong with a part of `len` bytes that begins with `head` and goes to `rel`, if anything.
pub open spec fn part_fault(rel: Seq<char>, len: u64, total: u64, head: Seq<u8>) -> Option<
    PartFault,
> {
    if total > 0 && len != total {
        Some(PartFault::Size)
    } else if is_gguf(rel) && head != gguf_magic() {
        Some(PartFault::Magic)
    } else {
        None
    }
}

/// What is wrong with a part of `len` bytes that goes to `rel`, if anything. `head` holds its
/// first four bytes, or fewer if it has fewer.
pub fn check_part(rel: &str, len: u64, total: u64, head: &Vec<u8>) -> (r: Option<PartFault>)
    ensures
        r == part_fault(rel@, len, total, head@),
{
    if total > 0 && len != total {
        return Some(PartFault::Size);
    }
    if names_gguf(rel) {
        let ok = head.len() == 4 && head[0] == 0x47 && head[1] == 0x47 && head[2] == 0x55 && head[3]
            == 0x46;
        assert(ok == (head@ =~= gguf_magic()));
        if !ok {
            return Some(PartFault::Magic);
        }
    }
    None
}

pub open spec fn hex_digit(n: int) -> char {
    if n < 10 {
        (48 + n) as char
    } else {
        (87 + n) as char
    }
}

pub open spec fn hex_byte(b: u8) -> Seq<char> {
    seq![hex_digit(b as int / 16), hex_digit(b as int % 16)]
}

/// The bytes in hexadecimal, as a list.
pub open spec fn hex_list(b: Seq<u8>) -> Seq<char>
    decreases b.len(),
{
    if b.len() == 0 {
        "["@
    } else if b.len() == 1 {
        hex_list(b.drop_last()) + hex_byte(b.last())
    } else {
        hex_list(b.drop_last()) + ", "@ + hex_byte(b.last())
    }
}

fn push_hex(s: &mut String, n: u8)
    requires
        n < 16,
    ensures
        final(s)@ == old(s)@.push(hex_digit(n as int)),
{
    if n < 10 {
        s.push((48 + n) as char);
    } else {
        s.push((87 + n) as char);
    }
}

fn say_hex(b: &Vec<u8>) -> (r: String)
    ensures
        r@ == hex_list(b@) + "]"@,
{
    let mut out = "[".to_owned();
    assert(b@.take(0) =~= Seq::empty());
    for i in 0..b.len()
        invariant
            out@ == hex_list(b@.take(i as int)),
    {
        assert(b@.take(i + 1).drop_last() =~= b@.take(i as int));
        if i > 0 {
            out.append(", ");
        }
        let ghost before = out@;
        push_hex(&mut out, b[i] / 16);
        push_hex(&mut out, b[i] % 16);
        assert(out@ =~= before + hex_byte(b@[i as int]));
    }
    assert(b@.take(b@.len() as int) =~= b@);
    out.append("]");
    out
}

/// The message for a part that is not accepted.
pub open spec fn fault_message(
    fault: PartFault,
    target: Seq<char>,
    len: u64,
    total: u64,
    head: Seq<u8>,
) -> Seq<char> {
    match fault {
        PartFault::Size => "докачка "@ + target + ": неполный размер "@ + text::decimal(
            len as nat,
        ) + "/"@ + text::decimal(total as nat),
        PartFault::Magic => "докачка "@ + target + ": не GGUF (magic="@ + (hex_list(head) + "]"@)
            + ") — файл битый"@,
    }
}

/// The message for a part that is not accepted.
pub fn say_fault(fault: PartFault, target: &str, len: u64, total: u64, head: &Vec<u8>) -> (r: String)
    ensures
        r@ == fault_message(fault, target@, len, total, head@),
{
    let mut m = "докачка ".to_owned();
    m.append(target);
    match fault {
        PartFault::Size => {
            m.append(": неполный размер ");
            m.append(text::to_decimal(len).as_str());
            m.append("/");
            m.append(text::to_decimal(total).as_str());
        },
        PartFault::Magic => {
            m.append(": не GGUF (magic=");
            m.append(say_hex(head).as_str());
            m.append(") — файл битый");
        },
    }
    m
}

/// The name of the record of finished ranges beside the file `target`.
pub fn done_manifest_path(target: &str) -> (r: String)
    ensures
        r@ == target@ + ".done"@,
{
    let mut s = target.to_owned();
    s.append(".done");
    s
}

/// The name under which the file `target` is fetched.
pub fn part_path(target: &str) -> (r: String)
    ensures
        r@ == target@ + ".part"@,
{
    let mut s = target.to_owned();
    s.append(".part");
    s
}

// ── Laws ────────────────────────────────────────────────────────────────────

/// The lengths of the ranges, summed.
pub open spec fn lengths(rs: Seq<(u64, u64)>) -> int
    decreases rs.len(),
{
    if rs.len() == 0 {
        0
    } else {
        lengths(rs.drop_last()) + (rs.last().1 - rs.last().0 + 1)
    }
}

proof fn lemma_accounts(total: int, done: Set<int>, n: int)
    requires
        0 < total <= u64::MAX,
        0 <= n <= range_count(total),
    ensures
        lengths(unfetched_of(total, done, n)) + already_of(total, done, n) == if n * CHUNK <= total {
            n * CHUNK
        } else {
            total
        },
    decreases n,
{
    if n > 0 {
        lemma_accounts(total, done, n - 1);
        let start = (n - 1) * CHUNK;
        lemma_range_count(total, start, n - 1);
        assert(n * CHUNK == (n - 1) * CHUNK + CHUNK) by (nonlinear_arith);
        assert(start >= 0) by (nonlinear_arith)
            requires
                n >= 1,
                start == (n - 1) * CHUNK,
        ;
        if !done.contains(start) {
            let before = unfetched_of(total, done, n - 1);
            let now = unfetched_of(total, done, n);
            assert(now.drop_last() =~= before);
        }
    } else {
        assert(0 * CHUNK == 0);
    }
}

/// Nothing is lost and nothing is fetched twice: the ranges to fetch and the bytes that are there
/// make up the file.
pub proof fn law_ranges_make_up_the_file(total: int, done: Set<int>)
    requires
        0 <= total <= u64::MAX,
    ensures
        lengths(unfetched_of(total, done, range_count(total))) + already_of(
            total,
            done,
            range_count(total),
        ) == total,
{
    if total > 0 {
        let n = range_count(total);
        lemma_range_count(total, n * CHUNK, n);
        lemma_accounts(total, done, n);
    }
}

proof fn lemma_unfetched(total: int, done: Set<int>, n: int)
    requires
        0 < total <= u64::MAX,
        0 <= n <= range_count(total),
    ensures
        forall|i: int|
            0 <= i < unfetched_of(total, done, n).len() ==> {
                let r = #[trigger] unfetched_of(total, done, n)[i];
                &&& r.0 % CHUNK == 0
                &&& r.0 < n * CHUNK
                &&& r.0 < total
                &&& r.1 == range_end(total, r.0 as int)
                &&& !done.contains(r.0 as int)
            },
        forall|i: int, j: int|
            0 <= i < j < unfetched_of(total, done, n).len() ==> (#[trigger] unfetched_of(
                total,
                done,
                n,
            )[i]).0 < (#[trigger] unfetched_of(total, done, n)[j]).0,
        forall|k: int|
            0 <= k < n && !done.contains(k * CHUNK) ==> exists|i: int|
                0 <= i < unfetched_of(total, done, n).len() && (#[trigger] unfetched_of(total, done, n)[i]).0
                    == #[trigger] (k * CHUNK),
    decreases n,
{
    if n > 0 {
        lemma_unfetched(total, done, n - 1);
        let start = (n - 1) * CHUNK;
        let before = unfetched_of(total, done, n - 1);
        let now = unfetched_of(total, done, n);
        lemma_range_count(total, start, n - 1);
        assert(n * CHUNK == start + CHUNK) by (nonlinear_arith)
            requires
                start == (n - 1) * CHUNK,
        ;
        assert(start >= 0 && start % (CHUNK as int) == 0) by (nonlinear_arith)
            requires
                n >= 1,
                start == (n - 1) * CHUNK,
                CHUNK > 0,
        ;
        assert forall|k: int| 0 <= k < n && !done.contains(k * CHUNK) implies exists|i: int|
            0 <= i < now.len() && (#[trigger] now[i]).0 == #[trigger] (k * CHUNK) by {
            if k < n - 1 {
                let i = choose|i: int|
                    0 <= i < before.len() && (#[trigger] before[i]).0 == #[trigger] (k * CHUNK);
                assert(now[i] == before[i]);
            } else {
                assert(now[now.len() - 1].0 == k * CHUNK);
            }
        }
        assert forall|i: int| 0 <= i < now.len() implies {
            let r = #[trigger] now[i];
            &&& r.0 % CHUNK == 0
            &&& r.0 < n * CHUNK
            &&& r.0 < total
            &&& r.1 == range_end(total, r.0 as int)
            &&& !done.contains(r.0 as int)
        } by {
            if i < before.len() {
                assert(now[i] == before[i]);
            }
        }
        assert forall|i: int, j: int| 0 <= i < j < now.len() implies (#[trigger] now[i]).0
            < (#[trigger] now[j]).0 by {
            assert(now[i] == before[i]);
            if j < before.len() {
                assert(now[j] == before[j]);
            }
        }
    }
}

/// A byte of the file is fetched exactly when the range it lies in is not done, and then in that one
/// range alone.
pub proof fn law_byte_is_fetched_once(total: int, done: Set<int>, p: int)
    requires
        0 <= p < total <= u64::MAX,
    ensures
        ({
            let rs = unfetched_of(total, done, range_count(total));
            &&& done.contains((p / (CHUNK as int)) * CHUNK) ==> forall|i: int|
                0 <= i < rs.len() ==> !((#[trigger] rs[i]).0 <= p <= rs[i].1)
            &&& !done.contains((p / (CHUNK as int)) * CHUNK) ==> exists|i: int|
                0 <= i < rs.len() && (#[trigger] rs[i]).0 <= p <= rs[i].1
            &&& forall|i: int, j: int|
                0 <= i < rs.len() && 0 <= j < rs.len() && (#[trigger] rs[i]).0 <= p <= rs[i].1 && (
                #[trigger] rs[j]).0 <= p <= rs[j].1 ==> i == j
        }),
{
    let n = range_count(total);
    let rs = unfetched_of(total, done, n);
    let q = p / (CHUNK as int);
    let start = q * CHUNK;
    lemma_unfetched(total, done, n);
    assert(p == CHUNK * q + p % (CHUNK as int));
    lemma_range_count(total, start, q);
    assert forall|i: int| 0 <= i < rs.len() && (#[trigger] rs[i]).0 <= p <= rs[i].1 implies rs[i].0
        == start by {
        let r = rs[i];
        let a = r.0 as int / (CHUNK as int);
        assert(r.0 == CHUNK * a);
        assert(p < r.0 + CHUNK);
        assert(a == q) by (nonlinear_arith)
            requires
                CHUNK * a <= p < CHUNK * a + CHUNK,
                CHUNK * q <= p < CHUNK * q + CHUNK,
                CHUNK > 0,
        ;
    }
    if !done.contains(start) {
        let i = choose|i: int| 0 <= i < rs.len() && (#[trigger] rs[i]).0 == #[trigger] (q * CHUNK);
        assert(rs[i].0 <= p <= rs[i].1);
    }
    assert forall|i: int, j: int|
        0 <= i < rs.len() && 0 <= j < rs.len() && (#[trigger] rs[i]).0 <= p <= rs[i].1 && (
        #[trigger] rs[j]).0 <= p <= rs[j].1 implies i == j by {
        if i < j {
            assert(rs[i].0 < rs[j].0);
        } else if j < i {
            assert(rs[j].0 < rs[i].0);
        }
    }
}

/// A file whose parts were left behind by an earlier attempt is continued: the ranges that the record
/// names are not fetched again, and the others are.
pub proof fn law_resuming_skips_what_is_recorded(s: FileStateModel, start: int)
    requires
        resumes(s),
        s.total <= u64::MAX,
        is_boundary(start, s.total),
    ensures
        recorded(s.record->0, start) == !(exists|i: int|
            0 <= i < unfetched_of(s.total, finished(s), range_count(s.total)).len() && (
            #[trigger] unfetched_of(s.total, finished(s), range_count(s.total))[i]).0 == start),
{
    let n = range_count(s.total);
    lemma_unfetched(s.total, finished(s), n);
    let k = start / (CHUNK as int);
    assert(start == k * CHUNK);
    lemma_range_count(s.total, start, k);
    assert(finished(s).contains(start) == recorded(s.record->0, start));
}

/// The components that are fetched are those that were asked for and can be downloaded, in the catalogue's
/// order.
pub proof fn law_what_is_fetched(ms: Seq<ComponentModel>, ids: Seq<Seq<char>>)
    ensures
        selected_of(ms, ids) == ms.filter(
            |c: ComponentModel| c.delivery == Delivery::Download && ids.contains(c.id),
        ),
    decreases ms.len(),
{
    reveal(Seq::filter);
    if ms.len() > 0 {
        law_what_is_fetched(ms.drop_last(), ids);
        assert(status::listed(ids, ms.last().id) == ids.contains(ms.last().id));
    }
}

/// A file is fetched unless it is kept as it is, its size is known, and just as much is there already; each as it
/// is described, an archive under a name of its own.
pub proof fn law_file_is_fetched_unless_it_is_there(
    disk: Seq<(Seq<char>, DiskEntry)>,
    ci: int,
    fs: Seq<FileModel>,
    f: FileModel,
)
    ensures
        planned_files(disk, ci, Seq::empty()).len() == 0,
        ({
            let before = planned_files(disk, ci, fs);
            let now = planned_files(disk, ci, fs.push(f));
            let there = f.extract == Extract::Keep && f.size != 0 && status::entry_at(disk, f.dest_rel) is Some
                && status::entry_at(disk, f.dest_rel)->0.len == f.size;
            &&& there ==> now == before
            &&& !there ==> now == before.push(now.last()) && {
                let p = now.last();
                &&& p.component == ci && p.url == f.url && p.dest_rel == f.dest_rel && p.extract == f.extract
                &&& p.temp_name is None <==> f.extract == Extract::Keep
            }
        }),
{
    assert(fs.push(f).drop_last() =~= fs);
}

/// The files of all components are fetched, those of one behind those of the one before it, each told with the
/// number of its component.
pub proof fn law_all_components_are_fetched(
    disk: Seq<(Seq<char>, DiskEntry)>,
    cs: Seq<ComponentModel>,
    c: ComponentModel,
)
    ensures
        planned_of(disk, Seq::empty()).len() == 0,
        planned_of(disk, cs.push(c)) == planned_of(disk, cs) + planned_files(disk, cs.len() as int, c.files),
{
    assert(cs.push(c).drop_last() =~= cs);
}

/// How large a file is told to be. A reply with a part of it tells it behind the slash of its range, and only
/// such a reply shows that the file can be had in parts; any other tells it by its length. What is no number
/// tells nothing.
pub proof fn law_size_is_told(status: u16, range: Seq<char>, length: Seq<char>)
    ensures
        ({
            let total = match text::unsigned(text::trimmed(text::pieces(range, '/').last())) {
                Some(n) => n,
                None => 0,
            };
            &&& size_told(206, Some(range), Some(length)) == (total, total > 0)
            &&& size_told(206, Some(range), None) == (total, total > 0)
            &&& size_told(206, None, Some(length)) == (0u64, false)
        }),
        status != 206 ==> size_told(status, Some(range), Some(length)) == (
            match text::unsigned(length) {
                Some(n) => n,
                None => 0,
            },
            false,
        ),
        status != 206 ==> size_told(status, Some(range), None) == (0u64, false),
{
}

/// The ranges of a file are of 16 MiB each, from its beginning on, but for the last, which ends with the file.
pub proof fn law_ranges_are_even(total: int, done: Set<int>, i: int)
    requires
        0 < total <= u64::MAX,
        0 <= i < unfetched_of(total, done, range_count(total)).len(),
    ensures
        ({
            let r = unfetched_of(total, done, range_count(total))[i];
            &&& r.0 % 16_777_216 == 0
            &&& r.0 <= r.1 < total
            &&& r.1 == r.0 + 16_777_215 || r.1 == total - 1
            &&& r.1 <= r.0 + 16_777_215
            &&& !done.contains(r.0 as int)
        }),
{
    lemma_range_is_even(total, done, range_count(total), i);
}

proof fn lemma_range_is_even(total: int, done: Set<int>, n: int, i: int)
    requires
        0 < total <= u64::MAX,
        0 <= n <= range_count(total),
        0 <= i < unfetched_of(total, done, n).len(),
    ensures
        ({
            let r = unfetched_of(total, done, n)[i];
            &&& r.0 % 16_777_216 == 0
            &&& r.0 <= r.1 < total
            &&& r.1 == r.0 + 16_777_215 || r.1 == total - 1
            &&& r.1 <= r.0 + 16_777_215
            &&& !done.contains(r.0 as int)
        }),
    decreases n,
{
    let before = unfetched_of(total, done, n - 1);
    if i < before.len() {
        lemma_range_is_even(total, done, n - 1, i);
    } else {
        let start = (n - 1) * CHUNK;
        assert(start % 16_777_216 == 0);
        assert(start < total);
    }
}

/// A file is fetched in ranges where the server can and its size is known, and else whole. An earlier attempt is
/// continued only where its part has the full length and its record is there.
pub proof fn law_how_a_file_is_fetched(file: int, s: FileStateModel)
    requires
        0 <= file <= usize::MAX,
    ensures
        !(s.ranges_ok && s.total > 0) ==> file_tasks(file, s) == seq![Task::Whole { file: file as usize }],
        s.ranges_ok && s.total > 0 ==> {
            let rs = unfetched_of(s.total, finished(s), range_count(s.total));
            &&& file_tasks(file, s).len() == rs.len()
            &&& forall|i: int|
                0 <= i < rs.len() ==> #[trigger] file_tasks(file, s)[i] == (Task::Range {
                    file: file as usize,
                    start: rs[i].0,
                    end: rs[i].1,
                })
        },
        !(s.ranges_ok && s.total > 0 && s.record is Some && s.part_len is Some && s.part_len->0 == s.total)
            ==> finished(s) =~= Set::empty(),
{
}

/// The work for the files is that for each, in their order; and the sizes, and what is there of them, add up.
pub proof fn law_work_adds_up(
    ps: Seq<PlannedModel>,
    states: Seq<FileStateModel>,
    s: FileStateModel,
    ci: int,
)
    ensures
        tasks_of(Seq::empty()).len() == 0,
        tasks_of(states.push(s)) == tasks_of(states) + file_tasks(states.len() as int, s),
        grand_total(Seq::empty()) == 0,
        grand_total(states.push(s)) == grand_total(states) + s.total,
        total_for(ps, Seq::empty(), ci) == 0,
        done_for(ps, Seq::empty(), ci) == 0,
        ps[states.len() as int].component == ci ==> total_for(ps, states.push(s), ci) == total_for(ps, states, ci)
            + s.total && done_for(ps, states.push(s), ci) == done_for(ps, states, ci) + already_for(s),
        ps[states.len() as int].component != ci ==> total_for(ps, states.push(s), ci) == total_for(ps, states, ci)
            && done_for(ps, states.push(s), ci) == done_for(ps, states, ci),
{
    assert(states.push(s).drop_last() =~= states);
}

/// A part is accepted only with its full length where that is known, and a model only if it begins as one does.
pub proof fn law_when_a_part_is_accepted(rel: Seq<char>, len: u64, total: u64, head: Seq<u8>)
    ensures
        ({
            let l = text::pieces(rel, '/').last();
            let model = l.len() > 5 && text::ends(l, ".gguf"@);
            let begins = head.len() == 4 && head[0] == 'G' as u8 && head[1] == 'G' as u8 && head[2] == 'U' as u8
                && head[3] == 'F' as u8;
            &&& part_fault(rel, len, total, head) == Some(PartFault::Size) <==> total > 0 && len != total
            &&& part_fault(rel, len, total, head) == Some(PartFault::Magic) <==> (total == 0 || len == total)
                && model && !begins
            &&& part_fault(rel, len, total, head) is None <==> (total == 0 || len == total) && (model ==> begins)
        }),
{
    if head.len() == 4 && head[0] == 'G' as u8 && head[1] == 'G' as u8 && head[2] == 'U' as u8 && head[3]
        == 'F' as u8 {
        assert(head =~= gguf_magic());
    }
}

/// An attempt brought the range whole only if it closed with just as many bytes as the range has.
pub proof fn law_when_a_range_is_whole(start: u64, end: u64, got: u64, why: String)
    ensures
        complete(start, end, Attempt::Closed { got }) <==> start + got == end + 1,
        !complete(start, end, Attempt::Cancelled),
        !complete(start, end, Attempt::Failed { got, reason: why }),
{
}

} // verus!
