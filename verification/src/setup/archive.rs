//! Where the entries of a fetched archive go.

use super::Extract;
use crate::text;
use vstd::prelude::*;

verus! {

/// A backslash separates directories too.
pub open spec fn slashes(name: Seq<char>) -> Seq<char> {
    name.map_values(|c: char| if c == '\\' { '/' } else { c })
}

fn with_slashes(name: &str) -> (r: String)
    ensures
        r@ == slashes(name@),
{
    let v = text::chars_of(name);
    let mut out = String::new();
    for i in 0..v.len()
        invariant
            v@ == name@,
            out@ == slashes(name@).take(i as int),
    {
        let c = v[i];
        out.push(if c == '\\' { '/' } else { c });
        assert(slashes(name@).take(i + 1) =~= slashes(name@).take(i as int).push(
            slashes(name@)[i as int],
        ));
    }
    assert(slashes(name@).take(v@.len() as int) =~= slashes(name@));
    out
}

/// The last part of the path `s`.
pub open spec fn leaf(s: Seq<char>) -> Seq<char> {
    text::pieces(s, '/').last()
}

/// The last part of the path `s`.
pub fn leaf_of(s: &str) -> (r: String)
    ensures
        r@ == leaf(s@),
{
    let parts = text::split_at_each(s, '/');
    proof {
        text::lemma_pieces(s@, '/');
        assert(text::views(parts@).len() == parts@.len());
    }
    let n: usize = parts.len();
    let r = parts[n - 1].clone();
    assert(text::views(parts@)[n - 1] == r@);
    r
}

/// Where a flat archive puts the file `name`: under its last part, if that is not empty.
pub open spec fn flat_place(name: Seq<char>) -> Option<Seq<char>> {
    let l = leaf(slashes(name));
    if l.len() == 0 {
        None
    } else {
        Some(l)
    }
}

/// Where a flat archive puts the file `name`.
pub fn flat_leaf(name: &str) -> (r: Option<String>)
    ensures
        super::status::opt_view(r) == flat_place(name@),
{
    let l = leaf_of(with_slashes(name).as_str());
    if l.as_str().is_empty() {
        None
    } else {
        Some(l)
    }
}

/// The files that are picked from an archive, by their lower-case names.
pub open spec fn wanted(l: Seq<char>) -> bool {
    l == "onnxruntime.dll"@ || l == "ffmpeg.exe"@ || l == "ffprobe.exe"@
}

pub open spec fn picked_place(name: Seq<char>) -> Option<Seq<char>> {
    let l = leaf(slashes(name));
    if wanted(text::ascii_lower(l)) {
        Some(l)
    } else {
        None
    }
}

/// Where the file `name` of an archive goes of which only certain files are taken: under its last
/// part as it is written, if that is one of them in whatever case.
pub fn pick_leaf(name: &str) -> (r: Option<String>)
    ensures
        super::status::opt_view(r) == picked_place(name@),
{
    let l = leaf_of(with_slashes(name).as_str());
    let low = text::lower_ascii(l.as_str());
    if text::same(low.as_str(), "onnxruntime.dll") || text::same(low.as_str(), "ffmpeg.exe")
        || text::same(low.as_str(), "ffprobe.exe") {
        Some(l)
    } else {
        None
    }
}

pub open spec fn library_place(name: Seq<char>) -> Option<Seq<char>> {
    let l = leaf(slashes(name));
    if text::ends(text::ascii_lower(l), ".dll"@) {
        Some(l)
    } else {
        None
    }
}

/// Where the file `name` of a wheel goes: under its last part, if it is a library.
pub fn wheel_leaf(name: &str) -> (r: Option<String>)
    ensures
        super::status::opt_view(r) == library_place(name@),
{
    let l = leaf_of(with_slashes(name).as_str());
    let low = text::lower_ascii(l.as_str());
    if text::ends_with(low.as_str(), ".dll") {
        Some(l)
    } else {
        None
    }
}

/// A part of a path that leads nowhere, stays or goes up.
pub open spec fn idle(part: Seq<char>) -> bool {
    part.len() == 0 || part == "."@ || part == ".."@
}

pub open spec fn kept(parts: Seq<Seq<char>>) -> Seq<Seq<char>>
    decreases parts.len(),
{
    if parts.len() == 0 {
        Seq::empty()
    } else if idle(parts.last()) {
        kept(parts.drop_last())
    } else {
        kept(parts.drop_last()).push(parts.last())
    }
}

/// The directories and the name under which the file `name` of a tree is written. None of them
/// goes up; an empty list means that the entry is passed over.
pub open spec fn tree_place(name: Seq<char>) -> Seq<Seq<char>> {
    kept(text::pieces(slashes(name), '/'))
}

/// The directories and the name under which the file `name` of a tree is written.
pub fn tree_parts(name: &str) -> (r: Vec<String>)
    ensures
        text::views(r@) == tree_place(name@),
{
    let parts = text::split_at_each(with_slashes(name).as_str(), '/');
    let ghost ps = text::pieces(slashes(name@), '/');
    let mut out: Vec<String> = Vec::new();
    assert(ps.take(0) =~= Seq::empty());
    assert(text::views(out@) =~= Seq::empty());
    for i in 0..parts.len()
        invariant
            text::views(parts@) == ps,
            text::views(out@) == kept(ps.take(i as int)),
    {
        let p = &parts[i];
        proof {
            assert(text::views(parts@)[i as int] == p@);
            assert(ps.take(i + 1).drop_last() =~= ps.take(i as int));
            assert(ps.take(i + 1).last() == p@);
        }
        if !(p.as_str().is_empty() || text::same(p.as_str(), ".") || text::same(p.as_str(), "..")) {
            let ghost before = text::views(out@);
            out.push(p.clone());
            assert(text::views(out@) =~= before.push(p@));
        }
    }
    assert(ps.take(parts@.len() as int) =~= ps);
    out
}

/// One entry of an archive.
#[derive(Clone, Debug)]
pub struct Entry {
    pub name: String,
    pub is_dir: bool,
}

/// A file to write: which entry of the archive it is, and the parts of the path below the
/// destination.
#[derive(Clone, Debug)]
pub struct Placed {
    pub index: usize,
    pub parts: Vec<String>,
}

/// The path below the destination of the file `name`, by the way the archive is unpacked. An empty
/// path means that the entry is passed over.
pub open spec fn place_of(extract: Extract, name: Seq<char>) -> Seq<Seq<char>> {
    let single = |p: Option<Seq<char>>| match p {
        Some(l) => seq![l],
        None => Seq::empty(),
    };
    match extract {
        Extract::Keep => Seq::empty(),
        Extract::ZipFlat => single(flat_place(name)),
        Extract::ZipPick => single(picked_place(name)),
        Extract::ZipTree => tree_place(name),
        Extract::WheelDlls => single(library_place(name)),
    }
}

fn one_part(p: Option<String>) -> (r: Vec<String>)
    ensures
        text::views(r@) == (match p {
            Some(l) => seq![l@],
            None => Seq::empty(),
        }),
{
    let mut out: Vec<String> = Vec::new();
    match p {
        Some(l) => {
            out.push(l);
            assert(text::views(out@) =~= seq![l@]);
        },
        None => {
            assert(text::views(out@) =~= Seq::empty());
        },
    }
    out
}

/// The path below the destination of the file `name`.
pub fn place(extract: Extract, name: &str) -> (r: Vec<String>)
    ensures
        text::views(r@) == place_of(extract, name@),
{
    match extract {
        Extract::Keep => one_part(None),
        Extract::ZipFlat => one_part(flat_leaf(name)),
        Extract::ZipPick => one_part(pick_leaf(name)),
        Extract::ZipTree => tree_parts(name),
        Extract::WheelDlls => one_part(wheel_leaf(name)),
    }
}

pub open spec fn placed_of(extract: Extract, entries: Seq<(Seq<char>, bool)>) -> Seq<
    (int, Seq<Seq<char>>),
>
    decreases entries.len(),
{
    if entries.len() == 0 {
        Seq::empty()
    } else {
        let before = placed_of(extract, entries.drop_last());
        let place = place_of(extract, entries.last().0);
        if entries.last().1 || place.len() == 0 {
            before
        } else {
            before.push((entries.len() - 1, place))
        }
    }
}

pub open spec fn entry_views(entries: Seq<Entry>) -> Seq<(Seq<char>, bool)> {
    entries.map_values(|e: Entry| (e.name@, e.is_dir))
}

pub open spec fn placed_views(placed: Seq<Placed>) -> Seq<(int, Seq<Seq<char>>)> {
    placed.map_values(|p: Placed| (p.index as int, text::views(p.parts@)))
}

/// Whether an archive unpacked this way must hold something that is taken.
pub open spec fn must_yield(extract: Extract) -> bool {
    extract == Extract::ZipPick || extract == Extract::WheelDlls
}

/// The files to write of an archive, in its order; nothing where files are picked and none of them
/// is there.
pub fn unpack_plan(extract: Extract, entries: &Vec<Entry>) -> (r: Option<Vec<Placed>>)
    ensures
        match r {
            Some(placed) => {
                &&& placed_views(placed@) == placed_of(extract, entry_views(entries@))
                &&& must_yield(extract) ==> placed@.len() > 0
            },
            None => must_yield(extract) && placed_of(extract, entry_views(entries@)).len() == 0,
        },
{
    let ghost es = entry_views(entries@);
    let mut out: Vec<Placed> = Vec::new();
    assert(es.take(0) =~= Seq::empty());
    assert(placed_views(out@) =~= Seq::empty());
    for i in 0..entries.len()
        invariant
            es == entry_views(entries@),
            placed_views(out@) == placed_of(extract, es.take(i as int)),
    {
        let e = &entries[i];
        proof {
            assert(es[i as int] == (e.name@, e.is_dir));
            assert(es.take(i + 1).drop_last() =~= es.take(i as int));
            assert(es.take(i + 1).last() == es[i as int]);
        }
        if !e.is_dir {
            let parts = place(extract, e.name.as_str());
            assert(text::views(parts@).len() == parts@.len());
            if parts.len() > 0 {
                let ghost before = placed_views(out@);
                let ghost pv = text::views(parts@);
                out.push(Placed { index: i, parts });
                assert(placed_views(out@) =~= before.push((i as int, pv)));
            }
        }
    }
    assert(es.take(entries@.len() as int) =~= es);
    assert(placed_views(out@).len() == out@.len());
    if (extract == Extract::ZipPick || extract == Extract::WheelDlls) && out.len() == 0 {
        None
    } else {
        Some(out)
    }
}

// ── Laws ────────────────────────────────────────────────────────────────────

/// A file that is unpacked without its directories stays in the directory it is unpacked to: its
/// name holds no separator of either kind.
pub proof fn law_leaf_has_no_separator(name: Seq<char>, i: int)
    requires
        0 <= i < leaf(slashes(name)).len(),
    ensures
        leaf(slashes(name))[i] != '/',
        leaf(slashes(name))[i] != '\\',
{
    let s = slashes(name);
    text::lemma_pieces(s, '/');
    let p = text::pieces(s, '/');
    let k = p.len() - 1;
    assert(p[k][i] != '/');
    assert(s.contains(p[k][i]));
}

proof fn lemma_kept(parts: Seq<Seq<char>>, k: int)
    requires
        0 <= k < kept(parts).len(),
    ensures
        !idle(kept(parts)[k]),
        exists|j: int| 0 <= j < parts.len() && #[trigger] parts[j] == kept(parts)[k],
    decreases parts.len(),
{
    if parts.len() > 0 {
        let prev = kept(parts.drop_last());
        if k < prev.len() {
            lemma_kept(parts.drop_last(), k);
            assert(kept(parts)[k] == prev[k]);
            let j = choose|j: int|
                0 <= j < parts.drop_last().len() && #[trigger] parts.drop_last()[j] == prev[k];
            assert(parts[j] == kept(parts)[k]);
        } else {
            assert(parts[parts.len() - 1] == kept(parts)[k]);
        }
    }
}

/// A tree is unpacked under the directory it is unpacked to: no part of a written path is empty,
/// stays or goes up, and none holds a separator.
pub proof fn law_tree_stays_inside(name: Seq<char>, k: int)
    requires
        0 <= k < tree_place(name).len(),
    ensures
        tree_place(name)[k].len() > 0,
        tree_place(name)[k] != "."@,
        tree_place(name)[k] != ".."@,
        forall|i: int|
            0 <= i < tree_place(name)[k].len() ==> tree_place(name)[k][i] != '/'
                && tree_place(name)[k][i] != '\\',
{
    let s = slashes(name);
    let p = text::pieces(s, '/');
    lemma_kept(p, k);
    text::lemma_pieces(s, '/');
    let j = choose|j: int| 0 <= j < p.len() && #[trigger] p[j] == tree_place(name)[k];
    assert forall|i: int| 0 <= i < tree_place(name)[k].len() implies tree_place(name)[k][i] != '/'
        && tree_place(name)[k][i] != '\\' by {
        assert(p[j][i] != '/');
        assert(s.contains(p[j][i]));
    }
}

/// Where the files of an archive go. A flat one puts each under the last part of its name, a choosing one only the
/// programs and the library that it is opened for, one of libraries only those, and a tree keeps the directories but
/// for parts that lead nowhere or up. Either slash parts a name.
pub proof fn law_where_an_entry_goes(name: Seq<char>)
    ensures
        ({
            let parts = text::pieces(name.map_values(|c: char| if c == '\\' { '/' } else { c }), '/');
            let l = parts.last();
            let low = text::ascii_lower(l);
            let chosen = low == "onnxruntime.dll"@ || low == "ffmpeg.exe"@ || low == "ffprobe.exe"@;
            &&& place_of(Extract::Keep, name).len() == 0
            &&& place_of(Extract::ZipFlat, name) == (if l.len() > 0 {
                seq![l]
            } else {
                Seq::empty()
            })
            &&& place_of(Extract::ZipPick, name) == (if chosen {
                seq![l]
            } else {
                Seq::empty()
            })
            &&& place_of(Extract::WheelDlls, name) == (if text::ends(low, ".dll"@) {
                seq![l]
            } else {
                Seq::empty()
            })
            &&& place_of(Extract::ZipTree, name) == parts.filter(
                |p: Seq<char>| p.len() > 0 && p != "."@ && p != ".."@,
            )
        }),
{
    let f = |c: char| if c == '\\' { '/' } else { c };
    assert(slashes(name) =~= name.map_values(f));
    lemma_kept_is_filtered(text::pieces(slashes(name), '/'));
}

proof fn lemma_kept_is_filtered(parts: Seq<Seq<char>>)
    ensures
        kept(parts) == parts.filter(|p: Seq<char>| p.len() > 0 && p != "."@ && p != ".."@),
    decreases parts.len(),
{
    reveal(Seq::filter);
    if parts.len() > 0 {
        lemma_kept_is_filtered(parts.drop_last());
    }
}

/// Every file of the archive that has a place is written to it, and no directory is.
pub proof fn law_files_are_placed(extract: Extract, entries: Seq<(Seq<char>, bool)>, e: (Seq<char>, bool))
    ensures
        placed_of(extract, Seq::empty()).len() == 0,
        e.1 || place_of(extract, e.0).len() == 0 ==> placed_of(extract, entries.push(e)) == placed_of(
            extract,
            entries,
        ),
        !e.1 && place_of(extract, e.0).len() > 0 ==> placed_of(extract, entries.push(e)) == placed_of(
            extract,
            entries,
        ).push((entries.len() as int, place_of(extract, e.0))),
{
    assert(entries.push(e).drop_last() =~= entries);
}

} // verus!
