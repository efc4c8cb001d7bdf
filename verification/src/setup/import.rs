//! Taking component files over from a directory where they already lie.

use super::archive;
use super::catalog;
use super::catalog::manifest;
use super::status;
use super::status::Disk;
use super::status::DiskEntry;
use super::status::Machine;
use super::Component;
use super::ComponentModel;
use super::Delivery;
use super::MarkerModel;
use crate::text;
use vstd::prelude::*;

verus! {

/// A file that was found.
#[derive(Clone, Debug)]
pub struct Found {
    pub name: String,
    pub size: u64,
}

pub open spec fn found_views(found: Seq<Found>) -> Seq<(Seq<char>, u64)> {
    found.map_values(|f: Found| (f.name@, f.size))
}

/// Whether the file has the name looked for, in whatever case, and the size if one is asked.
pub open spec fn fits(f: (Seq<char>, u64), name: Seq<char>, size: Option<u64>) -> bool {
    text::lowercase(f.0) == text::lowercase(name) && (size matches Some(n) ==> f.1 == n)
}

/// The index of the first file that fits, at or after `from`.
pub open spec fn first_fit(
    found: Seq<(Seq<char>, u64)>,
    name: Seq<char>,
    size: Option<u64>,
    from: int,
) -> Option<int>
    decreases found.len() - from,
{
    if from < 0 || from >= found.len() {
        None
    } else if fits(found[from], name, size) {
        Some(from)
    } else {
        first_fit(found, name, size, from + 1)
    }
}

/// Which file stands in for the marker: the first of its name, and of its size where that is known.
pub open spec fn choice(found: Seq<(Seq<char>, u64)>, m: MarkerModel) -> Option<int> {
    let name = archive::leaf(m.rel);
    if m.expect != 0 {
        first_fit(found, name, Some(m.expect), 0)
    } else {
        first_fit(found, name, None, 0)
    }
}

fn find_fit(found: &Vec<Found>, name: &str, size: Option<u64>) -> (r: Option<usize>)
    ensures
        match r {
            Some(i) => first_fit(found_views(found@), name@, size, 0) == Some(i as int) && i
                < found@.len(),
            None => first_fit(found_views(found@), name@, size, 0) is None,
        },
{
    let low = text::to_lower(name);
    let ghost fv = found_views(found@);
    for i in 0..found.len()
        invariant
            fv == found_views(found@),
            low@ == text::lowercase(name@),
            first_fit(fv, name@, size, 0) == first_fit(fv, name@, size, i as int),
    {
        let f = &found[i];
        assert(fv[i as int] == (f.name@, f.size));
        let size_fits = match size {
            Some(n) => f.size == n,
            None => true,
        };
        if size_fits && text::same(text::to_lower(f.name.as_str()).as_str(), low.as_str()) {
            return Some(i);
        }
    }
    None
}

fn choose_file(found: &Vec<Found>, rel: &str, expect: u64) -> (r: Option<usize>)
    ensures
        match r {
            Some(i) => choice(found_views(found@), MarkerModel { rel: rel@, expect }) == Some(
                i as int,
            ) && i < found@.len(),
            None => choice(found_views(found@), MarkerModel { rel: rel@, expect }) is None,
        },
{
    let name = archive::leaf_of(rel);
    if expect != 0 {
        find_fit(found, name.as_str(), Some(expect))
    } else {
        find_fit(found, name.as_str(), None)
    }
}

/// A file to copy into its place.
#[derive(Clone, Copy, Debug)]
pub struct CopyOver {
    /// The component's index in the list.
    pub component: usize,
    /// Where the file goes.
    pub rel: &'static str,
    /// Which of the found files it is.
    pub source: usize,
}

/// A file to copy into its place, as a value.
pub struct CopyModel {
    pub component: int,
    pub rel: Seq<char>,
    pub source: int,
}

impl View for CopyOver {
    type V = CopyModel;

    open spec fn view(&self) -> CopyModel {
        CopyModel {
            component: self.component as int,
            rel: self.rel@,
            source: self.source as int,
        }
    }
}

/// What is copied for the markers `ms` of the component number `ci`.
pub open spec fn copies_for(
    disk: Seq<(Seq<char>, DiskEntry)>,
    found: Seq<(Seq<char>, u64)>,
    ci: int,
    ms: Seq<MarkerModel>,
) -> Seq<CopyModel>
    decreases ms.len(),
{
    if ms.len() == 0 {
        Seq::empty()
    } else {
        let before = copies_for(disk, found, ci, ms.drop_last());
        if status::marker_good(disk, ms.last()) {
            before
        } else {
            match choice(found, ms.last()) {
                Some(i) => before.push(
                    CopyModel { component: ci, rel: ms.last().rel, source: i },
                ),
                None => before,
            }
        }
    }
}

/// What is copied for the components `cs`: for each that is downloaded (or the one asked for), the
/// files of the markers that are not good, as far as they were found.
pub open spec fn copies_of(
    disk: Seq<(Seq<char>, DiskEntry)>,
    found: Seq<(Seq<char>, u64)>,
    only: Option<Seq<char>>,
    cs: Seq<ComponentModel>,
) -> Seq<CopyModel>
    decreases cs.len(),
{
    if cs.len() == 0 {
        Seq::empty()
    } else {
        let before = copies_of(disk, found, only, cs.drop_last());
        let c = cs.last();
        if c.delivery == Delivery::Download && (only matches Some(id) ==> c.id == id) {
            before + copies_for(disk, found, cs.len() - 1, c.markers)
        } else {
            before
        }
    }
}

pub open spec fn copy_views(cs: Seq<CopyOver>) -> Seq<CopyModel> {
    cs.map_values(|c: CopyOver| c@)
}

/// What is to be copied of the files `found`.
pub fn import_plan(disk: &Disk, found: &Vec<Found>, only: Option<&str>) -> (r: Vec<CopyOver>)
    ensures
        copy_views(r@) == copies_of(
            disk@,
            found_views(found@),
            super::download::opt_str_view(only),
            catalog::manifest_model(),
        ),
{
    let all = manifest();
    let ghost mm = catalog::manifest_model();
    let ghost fv = found_views(found@);
    let ghost on = super::download::opt_str_view(only);
    let mut out: Vec<CopyOver> = Vec::new();
    assert(mm.take(0) =~= Seq::empty());
    assert(copy_views(out@) =~= Seq::empty());
    for i in 0..all.len()
        invariant
            all@.map_values(|c: Component| c@) == mm,
            fv == found_views(found@),
            on == super::download::opt_str_view(only),
            copy_views(out@) == copies_of(disk@, fv, on, mm.take(i as int)),
    {
        let c = &all[i];
        proof {
            assert(all@.map_values(|c: Component| c@)[i as int] == c@);
            assert(mm.take(i + 1).drop_last() =~= mm.take(i as int));
            assert(mm.take(i + 1).last() == c@);
        }
        let asked = match only {
            Some(id) => text::same(c.id, id),
            None => true,
        };
        if c.delivery == Delivery::Download && asked {
            let ghost done = copy_views(out@);
            let ghost ms = c@.markers;
            assert(ms.take(0) =~= Seq::empty());
            assert(done + copies_for(disk@, fv, i as int, ms.take(0)) =~= done);
            for k in 0..c.markers.len()
                invariant
                    ms == c@.markers,
                    ms.len() == c.markers@.len(),
                    fv == found_views(found@),
                    copy_views(out@) == done + copies_for(disk@, fv, i as int, ms.take(k as int)),
            {
                let m = &c.markers[k];
                proof {
                    assert(ms[k as int] == m@);
                    assert(ms.take(k + 1).drop_last() =~= ms.take(k as int));
                    assert(ms.take(k + 1).last() == m@);
                }
                if !status::marker_ok(disk, m) {
                    if let Some(source) = choose_file(found, m.rel, m.expect) {
                        let ghost before = copy_views(out@);
                        let copy = CopyOver { component: i, rel: m.rel, source };
                        out.push(copy);
                        assert(copy_views(out@) =~= before.push(copy@));
                        assert(before.push(copy@) =~= done + copies_for(
                            disk@,
                            fv,
                            i as int,
                            ms.take(k as int),
                        ).push(copy@));
                    }
                }
            }
            assert(ms.take(c.markers@.len() as int) =~= ms);
        }
    }
    assert(mm.take(mm.len() as int) =~= mm);
    out
}

/// A directory is searched no deeper than this.
pub const MAX_DEPTH: usize = 8;

/// So many files are looked at.
pub const MAX_FILES: usize = 200_000;

/// A file of the component number `ci` was copied.
pub open spec fn some_copied(plan: Seq<CopyModel>, copied: Seq<bool>, ci: int) -> bool {
    exists|k: int| 0 <= k < plan.len() && (#[trigger] plan[k]).component == ci && copied[k]
}

/// The components that were taken over: a file of theirs was copied, and they are whole now.
pub open spec fn imported_of(
    plan: Seq<CopyModel>,
    copied: Seq<bool>,
    disk: Seq<(Seq<char>, DiskEntry)>,
    machine: Machine,
    cs: Seq<ComponentModel>,
) -> Seq<Seq<char>>
    decreases cs.len(),
{
    if cs.len() == 0 {
        Seq::empty()
    } else {
        let before = imported_of(plan, copied, disk, machine, cs.drop_last());
        let c = cs.last();
        if some_copied(plan, copied, cs.len() - 1) && status::status_of(disk, machine, c).installed {
            before.push(c.id)
        } else {
            before
        }
    }
}

fn was_copied(plan: &Vec<CopyOver>, copied: &Vec<bool>, ci: usize) -> (r: bool)
    requires
        plan@.len() == copied@.len(),
    ensures
        r == some_copied(copy_views(plan@), copied@, ci as int),
{
    let ghost pv = copy_views(plan@);
    for k in 0..plan.len()
        invariant
            plan@.len() == copied@.len(),
            pv == copy_views(plan@),
            forall|j: int| 0 <= j < k && (#[trigger] pv[j]).component == ci ==> !copied@[j],
    {
        assert(pv[k as int] == plan@[k as int]@);
        if plan[k].component == ci && copied[k] {
            return true;
        }
    }
    false
}

/// The components that were taken over. `copied` says which files of the plan were copied, `disk` what is
/// there now.
pub fn imported_ids(plan: &Vec<CopyOver>, copied: &Vec<bool>, disk: &Disk, machine: &Machine) -> (r:
    Vec<String>)
    requires
        plan@.len() == copied@.len(),
        status::sizes_fit_model(disk@),
    ensures
        text::views(r@) == imported_of(
            copy_views(plan@),
            copied@,
            disk@,
            *machine,
            catalog::manifest_model(),
        ),
{
    let all = manifest();
    let ghost mm = catalog::manifest_model();
    let ghost pv = copy_views(plan@);
    let mut out: Vec<String> = Vec::new();
    assert(mm.take(0) =~= Seq::empty());
    assert(text::views(out@) =~= Seq::empty());
    for i in 0..all.len()
        invariant
            all@.map_values(|c: Component| c@) == mm,
            mm == catalog::manifest_model(),
            pv == copy_views(plan@),
            plan@.len() == copied@.len(),
            status::sizes_fit_model(disk@),
            text::views(out@) == imported_of(pv, copied@, disk@, *machine, mm.take(i as int)),
    {
        let c = &all[i];
        proof {
            assert(all@.map_values(|c: Component| c@)[i as int] == c@);
            assert(mm[i as int] == c@);
            assert(mm.take(i + 1).drop_last() =~= mm.take(i as int));
            assert(mm.take(i + 1).last() == c@);
        }
        if was_copied(plan, copied, i) {
            let s = status::component_status(disk, machine, c);
            assert(s@.installed == s.installed);
            if s.installed {
                let ghost was = text::views(out@);
                out.push(c.id.to_owned());
                assert(text::views(out@) =~= was.push(c@.id));
            }
        }
    }
    assert(mm.take(all@.len() as int) =~= mm);
    out
}

/// The file that stands in for a marker: it has the last part of the marker's path for a name, the case of letters
/// set aside, and the expected size where one is; and none before it has.
pub proof fn law_first_fitting_file_is_taken(found: Seq<(Seq<char>, u64)>, m: MarkerModel)
    ensures
        ({
            let name = text::lowercase(text::pieces(m.rel, '/').last());
            let right = |f: (Seq<char>, u64)| text::lowercase(f.0) == name && (m.expect == 0 || f.1 == m.expect);
            match choice(found, m) {
                Some(i) => 0 <= i < found.len() && right(found[i]) && forall|j: int|
                    0 <= j < i ==> !right(#[trigger] found[j]),
                None => forall|j: int| 0 <= j < found.len() ==> !right(#[trigger] found[j]),
            }
        }),
{
    let size = if m.expect != 0 {
        Some(m.expect)
    } else {
        None
    };
    lemma_first_fit_is(found, archive::leaf(m.rel), size, 0);
}

proof fn lemma_first_fit_is(found: Seq<(Seq<char>, u64)>, name: Seq<char>, size: Option<u64>, from: int)
    requires
        0 <= from,
    ensures
        match first_fit(found, name, size, from) {
            Some(i) => from <= i < found.len() && fits(found[i], name, size) && forall|j: int|
                from <= j < i ==> !fits(#[trigger] found[j], name, size),
            None => forall|j: int| from <= j < found.len() ==> !fits(#[trigger] found[j], name, size),
        },
    decreases found.len() - from,
{
    if from < found.len() && !fits(found[from], name, size) {
        lemma_first_fit_is(found, name, size, from + 1);
    }
}

/// What is copied for a component: for each marker that is not good the file that stands in for it, to the marker's
/// path, if there is one.
pub proof fn law_bad_markers_are_copied(
    disk: Seq<(Seq<char>, DiskEntry)>,
    found: Seq<(Seq<char>, u64)>,
    ci: int,
    ms: Seq<MarkerModel>,
    m: MarkerModel,
)
    ensures
        copies_for(disk, found, ci, Seq::empty()).len() == 0,
        status::marker_good(disk, m) || choice(found, m) is None ==> copies_for(disk, found, ci, ms.push(m))
            == copies_for(disk, found, ci, ms),
        !status::marker_good(disk, m) && choice(found, m) is Some ==> copies_for(disk, found, ci, ms.push(m))
            == copies_for(disk, found, ci, ms).push(
            CopyModel { component: ci, rel: m.rel, source: choice(found, m)->0 },
        ),
{
    assert(ms.push(m).drop_last() =~= ms);
}

/// What is copied for the components: what is for each one that is downloaded and asked for, all of them where none
/// is named.
pub proof fn law_which_components_are_copied(
    disk: Seq<(Seq<char>, DiskEntry)>,
    found: Seq<(Seq<char>, u64)>,
    id: Seq<char>,
    cs: Seq<ComponentModel>,
    c: ComponentModel,
)
    ensures
        copies_of(disk, found, None, Seq::empty()).len() == 0 && copies_of(disk, found, Some(id), Seq::empty()).len()
            == 0,
        ({
            let more = copies_for(disk, found, cs.len() as int, c.markers);
            let down = c.delivery == Delivery::Download;
            &&& down ==> copies_of(disk, found, None, cs.push(c)) == copies_of(disk, found, None, cs) + more
            &&& down && c.id == id ==> copies_of(disk, found, Some(id), cs.push(c)) == copies_of(
                disk,
                found,
                Some(id),
                cs,
            ) + more
            &&& !down ==> copies_of(disk, found, None, cs.push(c)) == copies_of(disk, found, None, cs)
            &&& !(down && c.id == id) ==> copies_of(disk, found, Some(id), cs.push(c)) == copies_of(
                disk,
                found,
                Some(id),
                cs,
            )
        }),
{
    assert(cs.push(c).drop_last() =~= cs);
}

/// A component was taken over if a file of it was copied and it is whole now.
pub proof fn law_what_was_taken_over(
    plan: Seq<CopyModel>,
    copied: Seq<bool>,
    disk: Seq<(Seq<char>, DiskEntry)>,
    machine: Machine,
    cs: Seq<ComponentModel>,
    c: ComponentModel,
)
    ensures
        imported_of(plan, copied, disk, machine, Seq::empty()).len() == 0,
        ({
            let before = imported_of(plan, copied, disk, machine, cs);
            let over = status::status_of(disk, machine, c).installed && exists|k: int|
                0 <= k < plan.len() && (#[trigger] plan[k]).component == cs.len() && copied[k];
            imported_of(plan, copied, disk, machine, cs.push(c)) == (if over {
                before.push(c.id)
            } else {
                before
            })
        }),
{
    assert(cs.push(c).drop_last() =~= cs);
}

} // verus!
