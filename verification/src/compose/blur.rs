//! Which areas of the picture are blurred, and the whole of what is drawn.

use crate::captions;
use crate::compose::blocks;
use crate::compose::blocks::Block;
use crate::compose::blocks::BlockModel;
use crate::compose::blocks::Spot;
use crate::compose::reading;
use crate::compose::reading::ComposeCtx;
use crate::compose::reading::Described;
use crate::compose::reading::DescribedModel;
use crate::compose::reading::Region;
use crate::compose::style;
use crate::compose::style::StyleModel;
use crate::compose::style::SubStyle;
use crate::json::Json;
use crate::pick;
use crate::project;
use crate::project::BlurBox;
use crate::rank;
use crate::text;
use crate::translate;
use vstd::prelude::*;

verus! {

// ── Areas ───────────────────────────────────────────────────────────────────

/// An area that is blurred, as a value.
pub struct BoxModel {
    pub x: int,
    pub y: int,
    pub w: int,
    pub h: int,
    pub t0: int,
    pub t1: int,
    pub hidden: bool,
    pub fill: Option<Seq<char>>,
    pub band: bool,
}

pub open spec fn model(b: BlurBox) -> BoxModel {
    BoxModel {
        x: b.x as int,
        y: b.y as int,
        w: b.w as int,
        h: b.h as int,
        t0: b.t0 as int,
        t1: b.t1 as int,
        hidden: b.hidden,
        fill: reading::opt(b.fill),
        band: b.band,
    }
}

pub open spec fn models(v: Seq<BlurBox>) -> Seq<BoxModel> {
    v.map_values(|b: BlurBox| model(b))
}

fn copy_box(b: &BlurBox) -> (r: BlurBox)
    ensures
        model(r) == model(*b),
{
    BlurBox {
        x: b.x,
        y: b.y,
        w: b.w,
        h: b.h,
        t0: b.t0,
        t1: b.t1,
        hidden: b.hidden,
        fill: match &b.fill {
            Some(s) => Some(s.clone()),
            None => None,
        },
        band: b.band,
    }
}

/// The time in whole hundredths of a second, rounded; a half goes away from zero.
pub open spec fn hundredths(t: int) -> int {
    if t >= 0 {
        (t + 5_000) / 10_000 * 10_000
    } else {
        -((-t + 5_000) / 10_000 * 10_000)
    }
}

fn to_hundredths(t: i64) -> (r: i64)
    requires
        project::time_ok(t),
    ensures
        r == hundredths(t as int),
{
    if t >= 0 {
        (t + 5_000) / 10_000 * 10_000
    } else {
        -((-t + 5_000) / 10_000 * 10_000)
    }
}

/// The area that is blurred under something drawn.
pub open spec fn box_at(x: int, y: int, w: int, h: int, start: int, end: int) -> BoxModel {
    BoxModel {
        x,
        y,
        w,
        h,
        t0: hundredths(start),
        t1: hundredths(end),
        hidden: false,
        fill: None,
        band: false,
    }
}

fn make_box(x: i64, y: i64, w: i64, h: i64, start: i64, end: i64) -> (r: BlurBox)
    requires
        project::time_ok(start),
        project::time_ok(end),
    ensures
        model(r) == box_at(x as int, y as int, w as int, h as int, start as int, end as int),
{
    BlurBox {
        x,
        y,
        w,
        h,
        t0: to_hundredths(start),
        t1: to_hundredths(end),
        hidden: false,
        fill: None,
        band: false,
    }
}

// ── Titles that the film draws itself ───────────────────────────────────────

/// Captions that belong together.
#[derive(Clone, Debug)]
pub struct Group {
    pub text: String,
    pub x: i64,
    pub y: i64,
    pub w: i64,
    pub h: i64,
    pub start: i64,
    pub end: i64,
}

impl Group {
    pub open spec fn placed(self) -> bool {
        captions::pixel_ok(self.x) && captions::pixel_ok(self.y) && captions::pixel_ok(self.w)
            && captions::pixel_ok(self.h) && project::time_ok(self.start) && project::time_ok(
            self.end,
        )
    }
}

pub open spec fn groups_placed(gs: Seq<Group>) -> bool {
    forall|i: int| 0 <= i < gs.len() ==> (#[trigger] gs[i]).placed()
}

/// The caption may be part of a title: at the beginning or the end of the film, large, in the middle.
pub open spec fn title_like(q: Region, c: ComposeCtx) -> bool {
    (q.t0 <= 1_500_000 || q.t1 >= c.total - 6_000_000) && 25 * q.h >= c.vh && reading::centered(
        q.x as int,
        q.w as int,
        c.vw as int,
    )
}

/// The captions that may be part of a title.
pub open spec fn title_like_places(rs: Seq<Region>, c: ComposeCtx) -> Seq<int> {
    pick::picked(rs.len(), |i: int| title_like(rs[i], c))
}

/// The captions that may be part of a title.
pub fn title_source(rs: &Vec<Region>, c: &ComposeCtx) -> (r: Vec<usize>)
    requires
        reading::all_placed(rs@),
        c.valid(),
    ensures
        rank::indices(r@) == title_like_places(rs@, *c),
        forall|k: int| 0 <= k < r@.len() ==> #[trigger] r@[k] < rs@.len(),
{
    let ghost f = |i: int| title_like(rs@[i], *c);
    let mut out: Vec<usize> = Vec::new();
    assert(rank::indices(out@) =~= Seq::empty());
    for i in 0..rs.len()
        invariant
            reading::all_placed(rs@),
            c.valid(),
            f == (|i: int| title_like(rs@[i], *c)),
            rank::indices(out@) == pick::picked(i as nat, f),
            forall|k: int| 0 <= k < out@.len() ==> #[trigger] out@[k] < rs@.len(),
    {
        let q = &rs[i];
        assert(rs@[i as int].placed());
        if (q.t0 <= 1_500_000 || q.t1 >= c.total - 6_000_000) && 25 * q.h >= c.vh
            && reading::is_centered(q, c.vw) {
            assert(f(i as int));
            let ghost was = rank::indices(out@);
            out.push(i);
            assert(rank::indices(out@) =~= was.push(i as int));
        }
    }
    out
}

/// The times at which lines of the original subtitles are seen within the group.
pub open spec fn times_inside(ts: Seq<int>, start: int, end: int) -> Seq<int>
    decreases ts.len(),
{
    if ts.len() == 0 {
        Seq::empty()
    } else if start <= ts.last() <= end {
        times_inside(ts.drop_last(), start, end).push(ts.last())
    } else {
        times_inside(ts.drop_last(), start, end)
    }
}

pub open spec fn first_of(ts: Seq<int>) -> int
    decreases ts.len(),
{
    if ts.len() <= 1 {
        ts[0]
    } else {
        blocks::least(first_of(ts.drop_last()), ts.last())
    }
}

pub open spec fn last_of(ts: Seq<int>) -> int
    decreases ts.len(),
{
    if ts.len() <= 1 {
        ts[0]
    } else {
        blocks::most(last_of(ts.drop_last()), ts.last())
    }
}

/// The group runs along with the original subtitles: at least three of their lines are seen within it, over
/// four tenths of its time.
pub open spec fn runs_along(ts: Seq<int>, start: int, end: int) -> bool {
    let inside = times_inside(ts, start, end);
    let span = if end - start > 100_000 {
        end - start
    } else {
        100_000
    };
    inside.len() >= 3 && 10 * (last_of(inside) - first_of(inside)) >= 4 * span
}

pub open spec fn times(v: Seq<i64>) -> Seq<int> {
    v.map_values(|t: i64| t as int)
}

fn runs_with_subs(ts: &Vec<i64>, start: i64, end: i64) -> (r: bool)
    ensures
        r == runs_along(times(ts@), start as int, end as int),
{
    let ghost tv = times(ts@);
    let mut n: usize = 0;
    let mut first: i64 = 0;
    let mut last: i64 = 0;
    assert(tv.take(0) =~= Seq::empty());
    for i in 0..ts.len()
        invariant
            tv == times(ts@),
            n <= i,
            n == times_inside(tv.take(i as int), start as int, end as int).len(),
            n > 0 ==> first == first_of(times_inside(tv.take(i as int), start as int, end as int))
                && last == last_of(times_inside(tv.take(i as int), start as int, end as int)),
    {
        assert(tv.take(i + 1).drop_last() =~= tv.take(i as int));
        let t: i64 = ts[i];
        assert(tv.take(i + 1).last() == t);
        let ghost was = times_inside(tv.take(i as int), start as int, end as int);
        if start <= t && t <= end {
            assert(was.push(t as int).drop_last() =~= was);
            if n == 0 || t < first {
                first = t;
            }
            if n == 0 || t > last {
                last = t;
            }
            n += 1;
        }
    }
    assert(tv.take(tv.len() as int) =~= tv);
    let d: i128 = end as i128 - start as i128;
    let span: i128 = if d > 100_000 {
        d
    } else {
        100_000
    };
    n >= 3 && 10 * (last as i128 - first as i128) >= 4 * span
}

/// The group is a title of the film: it has at least four letters and does not run along with the subtitles.
pub open spec fn is_title(g: Group, ts: Seq<int>) -> bool {
    translate::letters(g.text@) >= 4 && !runs_along(ts, g.start as int, g.end as int)
}

/// The groups that are titles of the film.
pub open spec fn title_groups(gs: Seq<Group>, ts: Seq<int>) -> Seq<int> {
    pick::picked(gs.len(), |i: int| is_title(gs[i], ts))
}

fn find_title_groups(gs: &Vec<Group>, ts: &Vec<i64>) -> (r: Vec<usize>)
    ensures
        rank::indices(r@) == title_groups(gs@, times(ts@)),
        forall|k: int| 0 <= k < r@.len() ==> #[trigger] r@[k] < gs@.len(),
{
    let ghost f = |i: int| is_title(gs@[i], times(ts@));
    let mut out: Vec<usize> = Vec::new();
    assert(rank::indices(out@) =~= Seq::empty());
    for i in 0..gs.len()
        invariant
            f == (|i: int| is_title(gs@[i], times(ts@))),
            rank::indices(out@) == pick::picked(i as nat, f),
            forall|k: int| 0 <= k < out@.len() ==> #[trigger] out@[k] < gs@.len(),
    {
        let g = &gs[i];
        if reading::alpha_count(g.text.as_str()) >= 4 && !runs_with_subs(ts, g.start, g.end) {
            assert(f(i as int));
            let ghost was = rank::indices(out@);
            out.push(i);
            assert(rank::indices(out@) =~= was.push(i as int));
        }
    }
    out
}

/// The areas of the groups at the given places.
pub open spec fn group_boxes(gs: Seq<Group>, at: Seq<int>) -> Seq<BoxModel> {
    at.map_values(
        |i: int|
            box_at(
                gs[i].x as int,
                gs[i].y as int,
                gs[i].w as int,
                gs[i].h as int,
                gs[i].start as int,
                gs[i].end as int,
            ),
    )
}

// ── Secondary captions ──────────────────────────────────────────────────────

/// The captions at the height of a described one: within six hundredths of the picture.
pub open spec fn hits(rs: Seq<Region>, y: int, vh: int) -> Seq<int> {
    pick::picked(rs.len(), |i: int| reading::away(rs[i].mid(), y, vh) <= vh * 60_000)
}

/// The captions at the heights of the described ones.
pub open spec fn all_hits(rs: Seq<Region>, cs: Seq<DescribedModel>, vh: int) -> Seq<int>
    decreases cs.len(),
{
    if cs.len() == 0 {
        Seq::empty()
    } else {
        all_hits(rs, cs.drop_last(), vh) + hits(rs, cs.last().y, vh)
    }
}

fn find_hits(rs: &Vec<Region>, cs: &Vec<Described>, vh: i64) -> (r: Vec<usize>)
    requires
        reading::all_placed(rs@),
        0 <= vh <= captions::PIXEL_LIMIT,
    ensures
        rank::indices(r@) == all_hits(rs@, reading::described_views(cs@), vh as int),
        forall|k: int| 0 <= k < r@.len() ==> #[trigger] r@[k] < rs@.len(),
{
    let ghost cv = reading::described_views(cs@);
    let mut out: Vec<usize> = Vec::new();
    assert(cv.take(0) =~= Seq::empty());
    assert(rank::indices(out@) =~= Seq::empty());
    for n in 0..cs.len()
        invariant
            reading::all_placed(rs@),
            0 <= vh <= captions::PIXEL_LIMIT,
            cv == reading::described_views(cs@),
            rank::indices(out@) == all_hits(rs@, cv.take(n as int), vh as int),
            forall|k: int| 0 <= k < out@.len() ==> #[trigger] out@[k] < rs@.len(),
    {
        assert(cv.take(n + 1).drop_last() =~= cv.take(n as int));
        let y: i64 = cs[n].y;
        assert(cv.take(n + 1).last().y == y);
        let ghost head = rank::indices(out@);
        let ghost f = |i: int| reading::away(rs@[i].mid(), y as int, vh as int) <= vh * 60_000;
        assert(head + pick::picked(0, f) =~= head);
        for i in 0..rs.len()
            invariant
                reading::all_placed(rs@),
                0 <= vh <= captions::PIXEL_LIMIT,
                f == (|i: int| reading::away(rs@[i].mid(), y as int, vh as int) <= vh * 60_000),
                rank::indices(out@) == head + pick::picked(i as nat, f),
                forall|k: int| 0 <= k < out@.len() ==> #[trigger] out@[k] < rs@.len(),
        {
            let q = &rs[i];
            assert(rs@[i as int].placed());
            let mid: i128 = 2 * q.y as i128 + q.h as i128;
            if reading::apart(mid, y, vh) <= vh as i128 * 60_000 {
                assert(f(i as int));
                let ghost was = rank::indices(out@);
                out.push(i);
                assert(rank::indices(out@) =~= was.push(i as int));
                assert(head + pick::picked((i + 1) as nat, f) =~= was.push(i as int));
            }
        }
    }
    assert(cv.take(cv.len() as int) =~= cv);
    out
}

/// The areas at the given places.
pub open spec fn boxes_at(boxes: Seq<BoxModel>, at: Seq<int>) -> Seq<BoxModel> {
    at.map_values(|i: int| boxes[i])
}

fn push_boxes(out: &mut Vec<BlurBox>, boxes: &Vec<BlurBox>, at: &Vec<usize>)
    requires
        forall|k: int| 0 <= k < at@.len() ==> #[trigger] at@[k] < boxes@.len(),
    ensures
        models(final(out)@) == models(old(out)@) + boxes_at(models(boxes@), rank::indices(at@)),
{
    let ghost head = models(out@);
    let ghost ai = rank::indices(at@);
    assert(head + boxes_at(models(boxes@), ai.take(0)) =~= head);
    for k in 0..at.len()
        invariant
            ai == rank::indices(at@),
            forall|k: int| 0 <= k < at@.len() ==> #[trigger] at@[k] < boxes@.len(),
            models(out@) == head + boxes_at(models(boxes@), ai.take(k as int)),
    {
        let ghost was = models(out@);
        let b = copy_box(&boxes[at[k]]);
        out.push(b);
        assert(models(out@) =~= was.push(model(b)));
        assert(ai.take(k + 1) =~= ai.take(k as int).push(at@[k as int] as int));
        assert(models(out@) =~= head + boxes_at(models(boxes@), ai.take(k + 1)));
    }
    assert(ai.take(ai.len() as int) =~= ai);
}

/// The area, marked as one of the original subtitles.
pub open spec fn marked(b: BoxModel) -> BoxModel {
    BoxModel { band: true, ..b }
}

pub open spec fn all_marked(bs: Seq<BoxModel>) -> Seq<BoxModel> {
    bs.map_values(|b: BoxModel| marked(b))
}

fn push_marked(out: &mut Vec<BlurBox>, boxes: &Vec<BlurBox>)
    ensures
        models(final(out)@) == models(old(out)@) + all_marked(models(boxes@)),
{
    let ghost head = models(out@);
    let ghost bv = all_marked(models(boxes@));
    assert(head + bv.take(0) =~= head);
    for k in 0..boxes.len()
        invariant
            bv == all_marked(models(boxes@)),
            models(out@) == head + bv.take(k as int),
    {
        let ghost was = models(out@);
        let mut b = copy_box(&boxes[k]);
        b.band = true;
        out.push(b);
        assert(models(out@) =~= was.push(model(b)));
        assert(models(out@) =~= head + bv.take(k + 1));
    }
    assert(bv.take(bv.len() as int) =~= bv);
}

// ── Lines of a title card ───────────────────────────────────────────────────

/// The caption is at a described height: within five hundredths of the picture.
pub open spec fn at_brand(q: Region, bs: Seq<DescribedModel>, vh: int) -> bool {
    exists|k: int|
        0 <= k < bs.len() && reading::away(q.mid(), (#[trigger] bs[k]).y, vh) <= vh * 50_000
}

/// Twice how far apart two heights are, each given twice.
pub open spec fn gap(a: int, b: int) -> int {
    if a >= b {
        a - b
    } else {
        b - a
    }
}

/// The caption is at the height of a drawn title: within six hundredths of the picture.
pub open spec fn at_block(q: Region, bs: Seq<BlockModel>, vh: int) -> bool {
    exists|k: int|
        0 <= k < bs.len() && 50 * gap(
            q.mid(),
            2 * (#[trigger] bs[k]).spot.y + bs[k].spot.h,
        ) <= 6 * vh
}

/// The caption is at the height of one of the given captions: within six hundredths of the picture.
pub open spec fn at_caption(q: Region, rs: Seq<Region>, at: Seq<int>, vh: int) -> bool {
    exists|k: int| 0 <= k < at.len() && 50 * gap(q.mid(), rs[#[trigger] at[k]].mid()) <= 6 * vh
}

/// The caption is a line of the title card that no title stands for yet.
pub open spec fn card_line(
    rs: Seq<Region>,
    i: int,
    bs: Seq<BlockModel>,
    brands: Seq<DescribedModel>,
    seen: Seq<int>,
    c: ComposeCtx,
) -> bool {
    let q = rs[i];
    &&& q.t0 <= 3_500_000
    &&& translate::letters(q.text@) >= 3
    &&& reading::centered(q.x as int, q.w as int, c.vw as int)
    &&& !at_brand(q, brands, c.vh as int)
    &&& !at_block(q, bs, c.vh as int)
    &&& !at_caption(q, rs, seen, c.vh as int)
}

/// The lines of the title card that no title stands for yet.
pub open spec fn card_lines(
    rs: Seq<Region>,
    bs: Seq<BlockModel>,
    brands: Seq<DescribedModel>,
    seen: Seq<int>,
    c: ComposeCtx,
) -> Seq<int> {
    pick::picked(rs.len(), |i: int| card_line(rs, i, bs, brands, seen, c))
}

fn is_at_brand(q: &Region, bs: &Vec<Described>, vh: i64) -> (r: bool)
    requires
        q.placed(),
        0 <= vh <= captions::PIXEL_LIMIT,
    ensures
        r == at_brand(*q, reading::described_views(bs@), vh as int),
{
    let ghost bv = reading::described_views(bs@);
    let mid: i128 = 2 * q.y as i128 + q.h as i128;
    for k in 0..bs.len()
        invariant
            bv == reading::described_views(bs@),
            q.placed(),
            mid == q.mid(),
            0 <= vh <= captions::PIXEL_LIMIT,
            forall|j: int|
                0 <= j < k ==> !(reading::away(q.mid(), (#[trigger] bv[j]).y, vh as int) <= vh
                    * 50_000),
    {
        assert(bv[k as int].y == bs@[k as int].y);
        if reading::apart(mid, bs[k].y, vh) <= vh as i128 * 50_000 {
            return true;
        }
    }
    false
}

fn distance(a: i128, b: i128) -> (r: i128)
    requires
        -0x1_0000_0000_0000_0000_0000 <= a <= 0x1_0000_0000_0000_0000_0000,
        -0x1_0000_0000_0000_0000_0000 <= b <= 0x1_0000_0000_0000_0000_0000,
    ensures
        r == gap(a as int, b as int),
{
    if a >= b {
        a - b
    } else {
        b - a
    }
}

fn is_at_block(q: &Region, bs: &Vec<Block>, vh: i64) -> (r: bool)
    requires
        q.placed(),
        0 <= vh <= captions::PIXEL_LIMIT,
    ensures
        r == at_block(*q, blocks::block_views(bs@), vh as int),
{
    let ghost bv = blocks::block_views(bs@);
    let mid: i128 = 2 * q.y as i128 + q.h as i128;
    for k in 0..bs.len()
        invariant
            bv == blocks::block_views(bs@),
            q.placed(),
            mid == q.mid(),
            0 <= vh <= captions::PIXEL_LIMIT,
            forall|j: int|
                0 <= j < k ==> !(50 * gap(
                    q.mid(),
                    2 * (#[trigger] bv[j]).spot.y + bv[j].spot.h,
                ) <= 6 * vh),
    {
        assert(bv[k as int] == bs@[k as int]@);
        let other: i128 = 2 * bs[k].y as i128 + bs[k].h as i128;
        if 50 * distance(mid, other) <= 6 * vh as i128 {
            return true;
        }
    }
    false
}

fn is_at_caption(q: &Region, rs: &Vec<Region>, at: &Vec<usize>, vh: i64) -> (r: bool)
    requires
        q.placed(),
        reading::all_placed(rs@),
        0 <= vh <= captions::PIXEL_LIMIT,
        forall|k: int| 0 <= k < at@.len() ==> #[trigger] at@[k] < rs@.len(),
    ensures
        r == at_caption(*q, rs@, rank::indices(at@), vh as int),
{
    let ghost ai = rank::indices(at@);
    let mid: i128 = 2 * q.y as i128 + q.h as i128;
    for k in 0..at.len()
        invariant
            ai == rank::indices(at@),
            q.placed(),
            mid == q.mid(),
            reading::all_placed(rs@),
            0 <= vh <= captions::PIXEL_LIMIT,
            forall|k: int| 0 <= k < at@.len() ==> #[trigger] at@[k] < rs@.len(),
            forall|j: int|
                0 <= j < k ==> !(50 * gap(q.mid(), rs@[#[trigger] ai[j]].mid()) <= 6 * vh),
    {
        assert(ai[k as int] == at@[k as int]);
        let o = &rs[at[k]];
        let other: i128 = 2 * o.y as i128 + o.h as i128;
        if 50 * distance(mid, other) <= 6 * vh as i128 {
            return true;
        }
    }
    false
}

fn find_card_lines(
    rs: &Vec<Region>,
    bs: &Vec<Block>,
    brands: &Vec<Described>,
    seen: &Vec<usize>,
    c: &ComposeCtx,
) -> (r: Vec<usize>)
    requires
        reading::all_placed(rs@),
        c.valid(),
        forall|k: int| 0 <= k < seen@.len() ==> #[trigger] seen@[k] < rs@.len(),
    ensures
        rank::indices(r@) == card_lines(
            rs@,
            blocks::block_views(bs@),
            reading::described_views(brands@),
            rank::indices(seen@),
            *c,
        ),
        forall|k: int| 0 <= k < r@.len() ==> #[trigger] r@[k] < rs@.len(),
{
    let ghost bv = blocks::block_views(bs@);
    let ghost dv = reading::described_views(brands@);
    let ghost si = rank::indices(seen@);
    let ghost f = |i: int| card_line(rs@, i, bv, dv, si, *c);
    let mut out: Vec<usize> = Vec::new();
    assert(rank::indices(out@) =~= Seq::empty());
    for i in 0..rs.len()
        invariant
            reading::all_placed(rs@),
            c.valid(),
            forall|k: int| 0 <= k < seen@.len() ==> #[trigger] seen@[k] < rs@.len(),
            bv == blocks::block_views(bs@),
            dv == reading::described_views(brands@),
            si == rank::indices(seen@),
            f == (|i: int| card_line(rs@, i, bv, dv, si, *c)),
            rank::indices(out@) == pick::picked(i as nat, f),
            forall|k: int| 0 <= k < out@.len() ==> #[trigger] out@[k] < rs@.len(),
    {
        let q = &rs[i];
        assert(rs@[i as int].placed());
        if q.t0 <= 3_500_000 && reading::alpha_count(q.text.as_str()) >= 3 && reading::is_centered(
            q,
            c.vw,
        ) && !is_at_brand(q, brands, c.vh) && !is_at_block(q, bs, c.vh) && !is_at_caption(
            q,
            rs,
            seen,
            c.vh,
        ) {
            assert(f(i as int));
            let ghost was = rank::indices(out@);
            out.push(i);
            assert(rank::indices(out@) =~= was.push(i as int));
        }
    }
    out
}

/// The ground of the subtitles, where it is solid.
pub open spec fn ground(s: StyleModel) -> Option<Seq<char>> {
    match s.background {
        Some(b) => if s.solid == Some(true) && b != "none"@ {
            Some(b)
        } else {
            None
        },
        None => None,
    }
}

/// A line of the title card in the look of the subtitles.
pub open spec fn card_block(q: Region, t: Seq<char>, s: StyleModel) -> BlockModel {
    BlockModel {
        spot: Spot {
            x: q.x as int,
            y: q.y as int,
            w: q.w as int,
            h: q.h as int,
            start: q.t0 as int,
            end: q.t1 as int,
            lh: blocks::toward_zero(q.h * 8, 10),
        },
        text: text::trimmed(t),
        color: Some(s.color),
        bg: ground(s),
        solid: s.solid == Some(true),
        align: s.align,
        bold: s.bold,
        italic: s.italic,
        font: s.font,
    }
}

/// The lines of the title card that were translated, as they are drawn.
pub open spec fn card_blocks(
    rs: Seq<Region>,
    at: Seq<int>,
    tgts: Seq<Seq<char>>,
    s: StyleModel,
) -> Seq<BlockModel>
    decreases at.len(),
{
    if at.len() == 0 {
        Seq::empty()
    } else {
        let before = card_blocks(rs, at.drop_last(), tgts, s);
        let k = at.len() - 1;
        if k < tgts.len() && text::trimmed(tgts[k]).len() > 0 {
            before.push(card_block(rs[at[k]], tgts[k], s))
        } else {
            before
        }
    }
}

fn copy_opt(s: &Option<String>) -> (r: Option<String>)
    ensures
        reading::opt(r) == reading::opt(*s),
{
    match s {
        Some(t) => Some(t.clone()),
        None => None,
    }
}

fn push_card_blocks(
    out: &mut Vec<Block>,
    rs: &Vec<Region>,
    at: &Vec<usize>,
    tgts: &Vec<String>,
    s: &SubStyle,
)
    requires
        reading::all_placed(rs@),
        forall|k: int| 0 <= k < at@.len() ==> #[trigger] at@[k] < rs@.len(),
    ensures
        blocks::block_views(final(out)@) == blocks::block_views(old(out)@) + card_blocks(
            rs@,
            rank::indices(at@),
            text::views(tgts@),
            s@,
        ),
        old(out)@.len() <= final(out)@.len(),
        forall|i: int| 0 <= i < old(out)@.len() ==> #[trigger] final(out)@[i] == old(out)@[i],
        forall|i: int|
            old(out)@.len() <= i < final(out)@.len() ==> project::time_ok(
                (#[trigger] final(out)@[i]).start,
            ) && project::time_ok(final(out)@[i].end),
{
    let ghost was0 = out@;
    let ghost head = blocks::block_views(out@);
    let ghost ai = rank::indices(at@);
    let ghost tv = text::views(tgts@);
    let solid = match s.solid {
        Some(b) => b,
        None => false,
    };
    assert(ai.take(0) =~= Seq::empty());
    assert(head + card_blocks(rs@, ai.take(0), tv, s@) =~= head);
    for k in 0..at.len()
        invariant
            reading::all_placed(rs@),
            forall|k: int| 0 <= k < at@.len() ==> #[trigger] at@[k] < rs@.len(),
            ai == rank::indices(at@),
            tv == text::views(tgts@),
            solid == (s.solid == Some(true)),
            was0.len() <= out@.len(),
            forall|i: int| 0 <= i < was0.len() ==> #[trigger] out@[i] == was0[i],
            forall|i: int|
                was0.len() <= i < out@.len() ==> project::time_ok((#[trigger] out@[i]).start)
                    && project::time_ok(out@[i].end),
            blocks::block_views(out@) == head + card_blocks(rs@, ai.take(k as int), tv, s@),
    {
        assert(ai.take(k + 1).drop_last() =~= ai.take(k as int));
        let ghost was = blocks::block_views(out@);
        if k < tgts.len() && !text::blank(tgts[k].as_str()) {
            let q = &rs[at[k]];
            assert(rs@[at@[k as int] as int].placed());
            let bg = match &s.background {
                Some(b) => if solid && !text::same(b.as_str(), "none") {
                    Some(b.clone())
                } else {
                    None
                },
                None => None,
            };
            let lh: i64 = if q.h >= 0 {
                q.h * 8 / 10
            } else {
                -(-q.h * 8 / 10)
            };
            let b = Block {
                x: q.x,
                y: q.y,
                w: q.w,
                h: q.h,
                text: text::trim(tgts[k].as_str()),
                start: q.t0,
                end: q.t1,
                lh,
                color: Some(s.color.clone()),
                bg,
                solid,
                align: s.align.clone(),
                bold: s.bold,
                italic: s.italic,
                font: copy_opt(&s.font),
            };
            assert(b@ == card_block(*q, tv[k as int], s@));
            out.push(b);
            assert(blocks::block_views(out@) =~= was.push(b@));
            assert(blocks::block_views(out@) =~= head + card_blocks(rs@, ai.take(k + 1), tv, s@));
        }
    }
    assert(ai.take(ai.len() as int) =~= ai);
}

// ── The areas ───────────────────────────────────────────────────────────────

/// The areas of the titles that are drawn.
pub open spec fn block_boxes(bs: Seq<BlockModel>) -> Seq<BoxModel> {
    bs.map_values(
        |b: BlockModel|
            box_at(b.spot.x, b.spot.y, b.spot.w, b.spot.h, b.spot.start, b.spot.end),
    )
}

/// The caption lies under a drawn title while that is seen.
pub open spec fn under(q: Region, bs: Seq<BlockModel>) -> bool {
    exists|k: int|
        0 <= k < bs.len() && ({
            let s = (#[trigger] bs[k]).spot;
            2 * s.y <= q.mid() <= 2 * (s.y + s.h) && q.t0 < s.end + 300_000 && q.t1 > s.start
                - 300_000
        })
}

/// The caption would show from under a drawn title.
pub open spec fn left_over(q: Region, bs: Seq<BlockModel>, vw: int) -> bool {
    reading::centered(q.x as int, q.w as int, vw) && translate::letters(q.text@) >= 3 && under(q, bs)
}

pub open spec fn left_overs(rs: Seq<Region>, bs: Seq<BlockModel>, vw: int) -> Seq<int> {
    pick::picked(rs.len(), |i: int| left_over(rs[i], bs, vw))
}

/// The caption lies in a title of the film.
pub open spec fn in_title(q: Region, gs: Seq<Group>, at: Seq<int>) -> bool {
    exists|k: int|
        0 <= k < at.len() && 2 * gs[#[trigger] at[k]].y <= q.mid() <= 2 * (gs[at[k]].y + gs[at[k]].h)
}

/// The caption is a line at the beginning that belongs to no title of the film.
pub open spec fn tagline(q: Region, gs: Seq<Group>, at: Seq<int>, vw: int) -> bool {
    q.t0 <= 3_000_000 && translate::letters(q.text@) >= 4 && reading::centered(
        q.x as int,
        q.w as int,
        vw,
    ) && !in_title(q, gs, at)
}

pub open spec fn taglines(rs: Seq<Region>, gs: Seq<Group>, at: Seq<int>, c: ComposeCtx) -> Seq<int> {
    if c.do_translate && !c.fresh_subs {
        pick::picked(rs.len(), |i: int| tagline(rs[i], gs, at, c.vw as int))
    } else {
        Seq::empty()
    }
}

/// Everything that the areas are made of.
pub struct Sources {
    pub regions: Seq<Region>,
    /// For each caption the area that is blurred for it.
    pub boxes: Seq<BoxModel>,
    pub groups: Seq<Group>,
    /// The times at which lines of the original subtitles are seen.
    pub band_times: Seq<int>,
    /// The areas of the original subtitles.
    pub band: Seq<BoxModel>,
    pub captions: Seq<DescribedModel>,
    pub ctx: ComposeCtx,
}

/// The areas that are blurred.
pub open spec fn areas(s: Sources, bs: Seq<BlockModel>, has_titles: bool) -> Seq<BoxModel> {
    let at = title_groups(s.groups, s.band_times);
    if has_titles {
        block_boxes(bs) + all_marked(s.band) + boxes_at(
            s.boxes,
            left_overs(s.regions, bs, s.ctx.vw as int),
        ) + boxes_at(s.boxes, all_hits(s.regions, s.captions, s.ctx.vh as int)) + group_boxes(
            s.groups,
            at,
        )
    } else {
        block_boxes(bs) + boxes_at(s.boxes, taglines(s.regions, s.groups, at, s.ctx)) + group_boxes(
            s.groups,
            at,
        ) + all_marked(s.band)
    }
}

fn is_under(q: &Region, bs: &Vec<Block>) -> (r: bool)
    requires
        q.placed(),
    ensures
        r == under(*q, blocks::block_views(bs@)),
{
    let ghost bv = blocks::block_views(bs@);
    let mid: i128 = 2 * q.y as i128 + q.h as i128;
    for k in 0..bs.len()
        invariant
            bv == blocks::block_views(bs@),
            q.placed(),
            mid == q.mid(),
            forall|j: int|
                0 <= j < k ==> ({
                    let s = (#[trigger] bv[j]).spot;
                    !(2 * s.y <= q.mid() <= 2 * (s.y + s.h) && q.t0 < s.end + 300_000 && q.t1
                        > s.start - 300_000)
                }),
    {
        let b = &bs[k];
        assert(bv[k as int] == b@);
        if 2 * b.y as i128 <= mid && mid <= 2 * (b.y as i128 + b.h as i128) && (q.t0 as i128) < b.end
            as i128 + 300_000 && q.t1 as i128 > b.start as i128 - 300_000 {
            return true;
        }
    }
    false
}

fn find_left_overs(rs: &Vec<Region>, bs: &Vec<Block>, vw: i64) -> (r: Vec<usize>)
    requires
        reading::all_placed(rs@),
        0 <= vw <= captions::PIXEL_LIMIT,
    ensures
        rank::indices(r@) == left_overs(rs@, blocks::block_views(bs@), vw as int),
        forall|k: int| 0 <= k < r@.len() ==> #[trigger] r@[k] < rs@.len(),
{
    let ghost bv = blocks::block_views(bs@);
    let ghost f = |i: int| left_over(rs@[i], bv, vw as int);
    let mut out: Vec<usize> = Vec::new();
    assert(rank::indices(out@) =~= Seq::empty());
    for i in 0..rs.len()
        invariant
            reading::all_placed(rs@),
            0 <= vw <= captions::PIXEL_LIMIT,
            bv == blocks::block_views(bs@),
            f == (|i: int| left_over(rs@[i], bv, vw as int)),
            rank::indices(out@) == pick::picked(i as nat, f),
            forall|k: int| 0 <= k < out@.len() ==> #[trigger] out@[k] < rs@.len(),
    {
        let q = &rs[i];
        assert(rs@[i as int].placed());
        if reading::is_centered(q, vw) && reading::alpha_count(q.text.as_str()) >= 3 && is_under(
            q,
            bs,
        ) {
            assert(f(i as int));
            let ghost was = rank::indices(out@);
            out.push(i);
            assert(rank::indices(out@) =~= was.push(i as int));
        }
    }
    out
}

fn is_in_title(q: &Region, gs: &Vec<Group>, at: &Vec<usize>) -> (r: bool)
    requires
        q.placed(),
        groups_placed(gs@),
        forall|k: int| 0 <= k < at@.len() ==> #[trigger] at@[k] < gs@.len(),
    ensures
        r == in_title(*q, gs@, rank::indices(at@)),
{
    let ghost ai = rank::indices(at@);
    let mid: i128 = 2 * q.y as i128 + q.h as i128;
    for k in 0..at.len()
        invariant
            ai == rank::indices(at@),
            q.placed(),
            mid == q.mid(),
            forall|k: int| 0 <= k < at@.len() ==> #[trigger] at@[k] < gs@.len(),
            forall|j: int|
                0 <= j < k ==> !(2 * gs@[#[trigger] ai[j]].y <= q.mid() <= 2 * (gs@[ai[j]].y
                    + gs@[ai[j]].h)),
    {
        assert(ai[k as int] == at@[k as int]);
        let g = &gs[at[k]];
        if 2 * g.y as i128 <= mid && mid <= 2 * (g.y as i128 + g.h as i128) {
            return true;
        }
    }
    false
}

fn find_taglines(rs: &Vec<Region>, gs: &Vec<Group>, at: &Vec<usize>, c: &ComposeCtx) -> (r: Vec<usize>)
    requires
        reading::all_placed(rs@),
        groups_placed(gs@),
        c.valid(),
        forall|k: int| 0 <= k < at@.len() ==> #[trigger] at@[k] < gs@.len(),
    ensures
        rank::indices(r@) == taglines(rs@, gs@, rank::indices(at@), *c),
        forall|k: int| 0 <= k < r@.len() ==> #[trigger] r@[k] < rs@.len(),
{
    let ghost ai = rank::indices(at@);
    let ghost f = |i: int| tagline(rs@[i], gs@, ai, c.vw as int);
    let mut out: Vec<usize> = Vec::new();
    assert(rank::indices(out@) =~= Seq::empty());
    if !c.do_translate || c.fresh_subs {
        return out;
    }
    for i in 0..rs.len()
        invariant
            reading::all_placed(rs@),
            groups_placed(gs@),
            c.valid(),
            forall|k: int| 0 <= k < at@.len() ==> #[trigger] at@[k] < gs@.len(),
            ai == rank::indices(at@),
            f == (|i: int| tagline(rs@[i], gs@, ai, c.vw as int)),
            rank::indices(out@) == pick::picked(i as nat, f),
            forall|k: int| 0 <= k < out@.len() ==> #[trigger] out@[k] < rs@.len(),
    {
        let q = &rs[i];
        assert(rs@[i as int].placed());
        if q.t0 <= 3_000_000 && reading::alpha_count(q.text.as_str()) >= 4 && reading::is_centered(
            q,
            c.vw,
        ) && !is_in_title(q, gs, at) {
            assert(f(i as int));
            let ghost was = rank::indices(out@);
            out.push(i);
            assert(rank::indices(out@) =~= was.push(i as int));
        }
    }
    out
}

pub open spec fn blocks_timed(bs: Seq<Block>) -> bool {
    forall|i: int|
        0 <= i < bs.len() ==> project::time_ok((#[trigger] bs[i]).start) && project::time_ok(
            bs[i].end,
        )
}

fn push_block_boxes(out: &mut Vec<BlurBox>, bs: &Vec<Block>)
    requires
        blocks_timed(bs@),
    ensures
        models(final(out)@) == models(old(out)@) + block_boxes(blocks::block_views(bs@)),
{
    let ghost head = models(out@);
    let ghost bv = blocks::block_views(bs@);
    assert(head + block_boxes(bv.take(0)) =~= head);
    for k in 0..bs.len()
        invariant
            blocks_timed(bs@),
            bv == blocks::block_views(bs@),
            models(out@) == head + block_boxes(bv.take(k as int)),
    {
        let ghost was = models(out@);
        let b = &bs[k];
        assert(project::time_ok(bs@[k as int].start));
        let x = make_box(b.x, b.y, b.w, b.h, b.start, b.end);
        out.push(x);
        assert(models(out@) =~= was.push(model(x)));
        assert(bv.take(k + 1) =~= bv.take(k as int).push(b@));
        assert(models(out@) =~= head + block_boxes(bv.take(k + 1)));
    }
    assert(bv.take(bv.len() as int) =~= bv);
}

fn push_group_boxes(out: &mut Vec<BlurBox>, gs: &Vec<Group>, at: &Vec<usize>)
    requires
        groups_placed(gs@),
        forall|k: int| 0 <= k < at@.len() ==> #[trigger] at@[k] < gs@.len(),
    ensures
        models(final(out)@) == models(old(out)@) + group_boxes(gs@, rank::indices(at@)),
{
    let ghost head = models(out@);
    let ghost ai = rank::indices(at@);
    assert(head + group_boxes(gs@, ai.take(0)) =~= head);
    for k in 0..at.len()
        invariant
            groups_placed(gs@),
            forall|k: int| 0 <= k < at@.len() ==> #[trigger] at@[k] < gs@.len(),
            ai == rank::indices(at@),
            models(out@) == head + group_boxes(gs@, ai.take(k as int)),
    {
        let ghost was = models(out@);
        let g = &gs[at[k]];
        assert(gs@[at@[k as int] as int].placed());
        let x = make_box(g.x, g.y, g.w, g.h, g.start, g.end);
        out.push(x);
        assert(models(out@) =~= was.push(model(x)));
        assert(ai.take(k + 1) =~= ai.take(k as int).push(at@[k as int] as int));
        assert(models(out@) =~= head + group_boxes(gs@, ai.take(k + 1)));
    }
    assert(ai.take(ai.len() as int) =~= ai);
}

// ── All of it ───────────────────────────────────────────────────────────────

/// What was read on the screen.
#[derive(Clone, Debug)]
pub struct Seen {
    pub regions: Vec<Region>,
    /// For each caption the area that is blurred for it.
    pub boxes: Vec<BlurBox>,
    pub groups: Vec<Group>,
    /// The times at which lines of the original subtitles are seen, in microseconds.
    pub band_times: Vec<i64>,
    /// Their heights.
    pub band_heights: Vec<i64>,
    /// The areas of the original subtitles.
    pub band: Vec<BlurBox>,
}

impl Seen {
    pub open spec fn valid(self) -> bool {
        reading::all_placed(self.regions@) && groups_placed(self.groups@) && self.boxes@.len()
            == self.regions@.len()
    }

    pub open spec fn sources(self, captions: Seq<DescribedModel>, ctx: ComposeCtx) -> Sources {
        Sources {
            regions: self.regions@,
            boxes: models(self.boxes@),
            groups: self.groups@,
            band_times: times(self.band_times@),
            band: models(self.band@),
            captions,
            ctx,
        }
    }
}

/// What is drawn over the picture.
#[derive(Clone, Debug)]
pub struct Composed {
    pub titles: Vec<Block>,
    pub blur_boxes: Vec<BlurBox>,
    pub sub_style: Option<SubStyle>,
    pub sub_px: Option<i64>,
}

/// The titles as they stand before the lines of the title card come to them.
#[derive(Clone, Debug)]
pub struct Draft {
    pub titles: Vec<Block>,
    /// There are titles to draw.
    pub has_titles: bool,
    /// The captions at the heights of the described ones.
    pub hits: Vec<usize>,
    /// The lines of the title card that are to be translated.
    pub card: Vec<usize>,
    pub sub_style: Option<SubStyle>,
    /// The look was taken over from the captions.
    pub mirrors: bool,
    pub captions: Vec<Described>,
}

/// The lines of the title card that are to be translated.
pub open spec fn card_of(
    s: Sources,
    bs: Seq<BlockModel>,
    brands: Seq<DescribedModel>,
    has_titles: bool,
) -> Seq<int> {
    if has_titles && s.ctx.do_translate {
        card_lines(
            s.regions,
            bs,
            brands,
            all_hits(s.regions, s.captions, s.ctx.vh as int),
            s.ctx,
        )
    } else {
        Seq::empty()
    }
}

/// The titles, the lines of the title card that are to be translated and the look of the subtitles, from
/// what was seen and what was described; `light` says of each described title whether its ground is light.
pub fn draft(
    doc: &Json,
    seen: &Seen,
    known: Option<SubStyle>,
    light: &Vec<bool>,
    c: &ComposeCtx,
) -> (r: Draft)
    requires
        seen.valid(),
        c.valid(),
        light@.len() == reading::listed(doc@, "titles"@).len(),
    ensures
        ({
            let titles = reading::listed(doc@, "titles"@);
            let captions = reading::listed(doc@, "captions"@);
            let drawn = blocks::drawn_titles(titles);
            let s = seen.sources(captions, *c);
            &&& blocks::block_views(r.titles@) == blocks::blocks_of(seen.regions@, drawn, *c)
            &&& r.has_titles == (drawn.len() > 0)
            &&& rank::indices(r.hits@) == all_hits(seen.regions@, captions, c.vh as int)
            &&& rank::indices(r.card@) == card_of(
                s,
                blocks::blocks_of(seen.regions@, drawn, *c),
                reading::listed(doc@, "brands"@),
                drawn.len() > 0,
            )
            &&& style::opt_style(r.sub_style) == style::look(
                style::opt_style(known),
                captions,
                titles,
                light@,
            )
            &&& r.mirrors == (known is None && captions.len() > 0)
            &&& reading::described_views(r.captions@) == captions
        }),
        forall|k: int| 0 <= k < r.hits@.len() ==> #[trigger] r.hits@[k] < seen.regions@.len(),
        forall|k: int| 0 <= k < r.card@.len() ==> #[trigger] r.card@[k] < seen.regions@.len(),
        blocks_timed(r.titles@),
{
    let titles = reading::read_list(doc, "titles");
    let caps = reading::read_list(doc, "captions");
    let brands = reading::read_list(doc, "brands");
    let ghost tv = reading::described_views(titles@);
    assert(tv.len() == titles@.len());
    let mirrors = known.is_none() && caps.len() > 0;
    assert(reading::described_views(caps@).len() == caps@.len());
    let sub_style = style::sub_look(known, &caps, &titles, light);
    let drawn = blocks::merge_titles_by_y(&titles);
    let ghost dv = reading::described_views(drawn@);
    assert(dv.len() == drawn@.len());
    let has_titles = drawn.len() > 0;
    let placed = blocks::place_titles(&seen.regions, &drawn, c);
    let hits = find_hits(&seen.regions, &caps, c.vh);
    let card: Vec<usize> = if has_titles && c.do_translate {
        find_card_lines(&seen.regions, &placed, &brands, &hits, c)
    } else {
        Vec::new()
    };
    proof {
        if !(has_titles && c.do_translate) {
            assert(rank::indices(card@) =~= Seq::empty());
        }
        assert forall|i: int| 0 <= i < placed@.len() implies project::time_ok(
            (#[trigger] placed@[i]).start,
        ) && project::time_ok(placed@[i].end) by {
            assert(blocks::block_views(placed@)[i] == placed@[i]@);
            let all = blocks::blocks_of(seen.regions@, dv, *c);
            assert(blocks::block_views(placed@) == all);
            assert(blocks::block_views(placed@).len() == placed@.len());
            assert(all[i] == blocks::block_of(seen.regions@, dv, i, *c));
            assert(placed@[i]@.spot == blocks::spot_of(seen.regions@, dv, i, *c));
            lemma_spot_times(seen.regions@, dv, i, *c);
        }
    }
    Draft { titles: placed, has_titles, hits, card, sub_style, mirrors, captions: caps }
}

proof fn lemma_around_times(rs: Seq<Region>, at: Seq<int>)
    requires
        reading::all_placed(rs),
        at.len() > 0,
        forall|k: int| 0 <= k < at.len() ==> 0 <= #[trigger] at[k] < rs.len(),
    ensures
        -project::TIME_LIMIT <= blocks::around(rs, at).start <= project::TIME_LIMIT,
        -project::TIME_LIMIT <= blocks::around(rs, at).end <= project::TIME_LIMIT,
    decreases at.len(),
{
    assert(rs[at[at.len() - 1]].placed());
    if at.len() > 1 {
        let t = at.drop_last();
        assert forall|k: int| 0 <= k < t.len() implies 0 <= #[trigger] t[k] < rs.len() by {
            assert(t[k] == at[k]);
        }
        lemma_around_times(rs, t);
    }
}

proof fn lemma_spot_times(rs: Seq<Region>, ts: Seq<DescribedModel>, ti: int, c: ComposeCtx)
    requires
        reading::all_placed(rs),
        c.valid(),
    ensures
        -project::TIME_LIMIT <= blocks::spot_of(rs, ts, ti, c).start <= project::TIME_LIMIT,
        -project::TIME_LIMIT <= blocks::spot_of(rs, ts, ti, c).end <= project::TIME_LIMIT,
{
    let ys = blocks::heights(ts);
    let vh = c.vh as int;
    let at = blocks::parts(rs, ys, ti, vh, ts[ti].text);
    if at.len() > 0 {
        pick::law_picked(rs.len(), |i: int| blocks::near(rs, ys, ti, vh, i));
        pick::law_picked(
            rs.len(),
            |i: int|
                blocks::near(rs, ys, ti, vh, i) && blocks::share_a_word(
                    blocks::long_words(ts[ti].text),
                    blocks::long_words(rs[i].text@),
                ),
        );
        lemma_around_times(rs, at);
    }
}

/// The titles with the lines of the title card, as far as those were translated.
pub open spec fn with_card(
    bs: Seq<BlockModel>,
    rs: Seq<Region>,
    card: Seq<int>,
    tgts: Option<Seq<Seq<char>>>,
    look: StyleModel,
) -> Seq<BlockModel> {
    match tgts {
        Some(ts) => bs + card_blocks(rs, card, ts, look),
        None => bs,
    }
}

/// What is drawn over the picture. `tgts` are the translations of the lines of the title card, nothing where
/// they could not be had; `fallback` is the look of such a line where none is known for the subtitles.
pub fn finish(
    d: Draft,
    seen: &Seen,
    sub_y: Option<i64>,
    tgts: Option<&Vec<String>>,
    fallback: &SubStyle,
    c: &ComposeCtx,
) -> (r: Composed)
    requires
        seen.valid(),
        c.valid(),
        blocks_timed(d.titles@),
        rank::indices(d.hits@) == all_hits(
            seen.regions@,
            reading::described_views(d.captions@),
            c.vh as int,
        ),
        forall|k: int| 0 <= k < d.hits@.len() ==> #[trigger] d.hits@[k] < seen.regions@.len(),
        forall|k: int| 0 <= k < d.card@.len() ==> #[trigger] d.card@[k] < seen.regions@.len(),
    ensures
        ({
            let bs = with_card(
                blocks::block_views(d.titles@),
                seen.regions@,
                rank::indices(d.card@),
                match tgts {
                    Some(v) => Some(text::views(v@)),
                    None => None,
                },
                match d.sub_style {
                    Some(s) => s@,
                    None => fallback@,
                },
            );
            &&& blocks::block_views(r.titles@) == bs
            &&& models(r.blur_boxes@) == areas(
                seen.sources(reading::described_views(d.captions@), *c),
                bs,
                d.has_titles,
            )
            &&& style::opt_style(r.sub_style) == style::opt_style(d.sub_style)
            &&& (match r.sub_px {
                Some(p) => Some(p as int),
                None => None,
            }) == style::size_of(
                seen.regions@,
                sub_y,
                d.mirrors,
                style::sizes(seen.band_heights@),
                c.vw as int,
                c.vh as int,
            )
        }),
{
    let mut titles = d.titles;
    if let Some(v) = tgts {
        match &d.sub_style {
            Some(s) => push_card_blocks(&mut titles, &seen.regions, &d.card, v, s),
            None => push_card_blocks(&mut titles, &seen.regions, &d.card, v, fallback),
        }
    }
    let ghost bs = blocks::block_views(titles@);
    let at = find_title_groups(&seen.groups, &seen.band_times);
    let mut out: Vec<BlurBox> = Vec::new();
    assert(models(out@) =~= Seq::empty());
    push_block_boxes(&mut out, &titles);
    assert(models(out@) =~= block_boxes(bs));
    if d.has_titles {
        let left = find_left_overs(&seen.regions, &titles, c.vw);
        push_marked(&mut out, &seen.band);
        push_boxes(&mut out, &seen.boxes, &left);
        push_boxes(&mut out, &seen.boxes, &d.hits);
        push_group_boxes(&mut out, &seen.groups, &at);
    } else {
        let tags = find_taglines(&seen.regions, &seen.groups, &at, c);
        push_boxes(&mut out, &seen.boxes, &tags);
        push_group_boxes(&mut out, &seen.groups, &at);
        push_marked(&mut out, &seen.band);
    }
    let px = style::sub_px(&seen.regions, sub_y, d.mirrors, &seen.band_heights, c.vw, c.vh);
    Composed { titles, blur_boxes: out, sub_style: d.sub_style, sub_px: px }
}

// ── Laws ────────────────────────────────────────────────────────────────────

/// Every title that is drawn is blurred under, in its place and for its time to the hundredth of a second.
pub proof fn law_drawn_titles_are_covered(s: Sources, bs: Seq<BlockModel>, has_titles: bool, i: int)
    requires
        0 <= i < bs.len(),
    ensures
        i < areas(s, bs, has_titles).len(),
        areas(s, bs, has_titles)[i] == box_at(
            bs[i].spot.x,
            bs[i].spot.y,
            bs[i].spot.w,
            bs[i].spot.h,
            bs[i].spot.start,
            bs[i].spot.end,
        ),
{
    assert(block_boxes(bs)[i] == areas(s, bs, has_titles)[i]);
}

/// The areas of the original subtitles are always among those that are blurred, marked as such.
pub proof fn law_subtitles_are_covered(s: Sources, bs: Seq<BlockModel>, has_titles: bool, i: int)
    requires
        0 <= i < s.band.len(),
    ensures
        areas(s, bs, has_titles).contains(marked(s.band[i])),
{
    let all = areas(s, bs, has_titles);
    let at = title_groups(s.groups, s.band_times);
    if has_titles {
        let k = block_boxes(bs).len() as int + i;
        assert(all[k] == marked(s.band[i]));
    } else {
        let k = all.len() - s.band.len() + i;
        assert(all[k] == marked(s.band[i]));
    }
}

/// A time is blurred to the hundredth of a second: the nearest one, and of two equally near the later one, or
/// before the beginning the earlier one.
pub proof fn law_times_are_rounded(t: int)
    ensures
        hundredths(t) % 10_000 == 0,
        t >= 0 ==> t - 5_000 < hundredths(t) <= t + 5_000,
        hundredths(-t) == -hundredths(t),
{
}

proof fn lemma_times_inside(ts: Seq<int>, start: int, end: int)
    ensures
        times_inside(ts, start, end) == ts.filter(|t: int| start <= t <= end),
    decreases ts.len(),
{
    reveal(Seq::filter);
    if ts.len() > 0 {
        lemma_times_inside(ts.drop_last(), start, end);
    }
}

proof fn lemma_first_and_last(ts: Seq<int>)
    requires
        ts.len() > 0,
    ensures
        forall|i: int| 0 <= i < ts.len() ==> first_of(ts) <= #[trigger] ts[i] <= last_of(ts),
        exists|i: int| 0 <= i < ts.len() && first_of(ts) == #[trigger] ts[i],
        exists|i: int| 0 <= i < ts.len() && last_of(ts) == #[trigger] ts[i],
    decreases ts.len(),
{
    assert(ts[ts.len() - 1] == ts.last());
    if ts.len() > 1 {
        let p = ts.drop_last();
        lemma_first_and_last(p);
        assert(forall|i: int| 0 <= i < p.len() ==> p[i] == #[trigger] ts[i]);
        let a = choose|i: int| 0 <= i < p.len() && first_of(p) == #[trigger] p[i];
        let b = choose|i: int| 0 <= i < p.len() && last_of(p) == #[trigger] p[i];
        assert(ts[a] == p[a] && ts[b] == p[b]);
    }
}

/// A group of captions is a title of the film if it has four letters, and the lines of the original subtitles
/// that are seen within its time are fewer than three, or no two of them are four tenths of its time apart.
pub proof fn law_which_groups_are_titles(g: Group, ts: Seq<int>)
    ensures
        is_title(g, ts) <==> {
            let inside = ts.filter(|t: int| g.start <= t <= g.end);
            let far = |i: int, j: int|
                10 * (inside[j] - inside[i]) >= 4 * (g.end - g.start) && 10 * (inside[j] - inside[i]) >= 400_000;
            &&& translate::letters(g.text@) >= 4
            &&& inside.len() < 3 || forall|i: int, j: int|
                0 <= i < inside.len() && 0 <= j < inside.len() ==> !#[trigger] far(i, j)
        },
{
    let inside = ts.filter(|t: int| g.start <= t <= g.end);
    let far = |i: int, j: int|
        10 * (inside[j] - inside[i]) >= 4 * (g.end - g.start) && 10 * (inside[j] - inside[i]) >= 400_000;
    lemma_times_inside(ts, g.start as int, g.end as int);
    if inside.len() >= 3 {
        lemma_first_and_last(inside);
        let a = choose|i: int| 0 <= i < inside.len() && first_of(inside) == #[trigger] inside[i];
        let b = choose|i: int| 0 <= i < inside.len() && last_of(inside) == #[trigger] inside[i];
        if runs_along(ts, g.start as int, g.end as int) {
            assert(far(a, b));
        }
        assert forall|i: int, j: int| 0 <= i < inside.len() && 0 <= j < inside.len() && #[trigger] far(i, j) implies runs_along(
            ts,
            g.start as int,
            g.end as int,
        ) by {
            assert(first_of(inside) <= inside[i]);
            assert(inside[j] <= last_of(inside));
        }
    }
}

/// The places of the areas that are blurred: `under` those of captions under drawn titles, `hit` those of
/// captions at described heights, one list for each of these, `first` those of lines at the beginning, and
/// `titles` those of the groups that are titles of the film.
pub struct Covered {
    pub under: Seq<int>,
    pub hit: Seq<Seq<int>>,
    pub first: Seq<int>,
    pub titles: Seq<int>,
}

/// An area as large as given, for the given time to the hundredth of a second, neither hidden nor marked nor
/// filled.
pub open spec fn plain_area(x: int, y: int, w: int, h: int, start: int, end: int) -> BoxModel {
    BoxModel { x, y, w, h, t0: hundredths(start), t1: hundredths(end), hidden: false, fill: None, band: false }
}

proof fn lemma_all_hits(rs: Seq<Region>, cs: Seq<DescribedModel>, vh: int) -> (hit: Seq<Seq<int>>)
    ensures
        hit.len() == cs.len(),
        forall|k: int| 0 <= k < cs.len() ==> #[trigger] hit[k] == hits(rs, cs[k].y, vh),
        all_hits(rs, cs, vh) == hit.flatten(),
    decreases cs.len(),
{
    if cs.len() == 0 {
        assert(Seq::<Seq<int>>::empty().flatten() =~= Seq::<int>::empty());
        Seq::empty()
    } else {
        let p = lemma_all_hits(rs, cs.drop_last(), vh);
        let last = hits(rs, cs.last().y, vh);
        p.lemma_flatten_push(last);
        p.push(last)
    }
}

/// What is blurred. Where titles are drawn: under each of them; the lines of the original subtitles, marked as
/// such; each caption in the middle of the picture, of three letters or more, whose middle lies in a drawn
/// title within three tenths of a second of its time; each caption whose middle is within six hundredths of
/// the picture of a described height; and each title of the film. Where none is drawn: what was drawn; each
/// caption in the middle, of four letters or more, that is seen in the first three seconds and lies in no title
/// of the film, if it is to be translated and not by new subtitles; each title of the film; and the lines of
/// the subtitles. Nothing else is.
pub proof fn law_what_is_blurred(s: Sources, bs: Seq<BlockModel>) -> (c: Covered)
    ensures
        ({
            let n = s.regions.len() as int;
            let middle = |q: Region| 5 * q.x < 3 * s.ctx.vw && 5 * (q.x + q.w) > 2 * s.ctx.vw;
            let drawn = bs.map_values(
                |b: BlockModel|
                    plain_area(b.spot.x, b.spot.y, b.spot.w, b.spot.h, b.spot.start, b.spot.end),
            );
            let band = s.band.map_values(|b: BoxModel| BoxModel { band: true, ..b });
            let titles = c.titles.map_values(
                |i: int|
                    plain_area(
                        s.groups[i].x as int,
                        s.groups[i].y as int,
                        s.groups[i].w as int,
                        s.groups[i].h as int,
                        s.groups[i].start as int,
                        s.groups[i].end as int,
                    ),
            );
            let at = |i: int| s.boxes[i];
            &&& pick::lists(c.titles, s.groups.len() as int, |i: int| is_title(s.groups[i], s.band_times))
            &&& pick::lists(
                c.under,
                n,
                |i: int|
                    {
                        let q = s.regions[i];
                        &&& middle(q)
                        &&& translate::letters(q.text@) >= 3
                        &&& exists|k: int|
                            0 <= k < bs.len() && 2 * (#[trigger] bs[k]).spot.y <= 2 * q.y + q.h && 2 * q.y + q.h <= 2
                                * bs[k].spot.y + 2 * bs[k].spot.h && q.t0 < bs[k].spot.end + 300_000 && q.t1
                                > bs[k].spot.start - 300_000
                    },
            )
            &&& c.hit.len() == s.captions.len()
            &&& forall|k: int|
                0 <= k < c.hit.len() ==> pick::lists(
                    #[trigger] c.hit[k],
                    n,
                    |i: int|
                        {
                            let d = (2 * s.regions[i].y + s.regions[i].h) * 500_000 - s.captions[k].y * s.ctx.vh;
                            -60_000 * s.ctx.vh <= d <= 60_000 * s.ctx.vh
                        },
                )
            &&& pick::lists(
                c.first,
                n,
                |i: int|
                    {
                        let q = s.regions[i];
                        &&& s.ctx.do_translate && !s.ctx.fresh_subs
                        &&& q.t0 <= 3_000_000 && middle(q) && translate::letters(q.text@) >= 4
                        &&& forall|k: int|
                            0 <= k < c.titles.len() ==> 2 * q.y + q.h < 2 * s.groups[#[trigger] c.titles[k]].y || 2
                                * q.y + q.h > 2 * s.groups[c.titles[k]].y + 2 * s.groups[c.titles[k]].h
                    },
            )
            &&& areas(s, bs, true) == drawn + band + c.under.map_values(at) + c.hit.flatten().map_values(at)
                + titles
            &&& areas(s, bs, false) == drawn + c.first.map_values(at) + titles + band
        }),
{
    let n = s.regions.len();
    let vw = s.ctx.vw as int;
    let vh = s.ctx.vh as int;
    let middle = |q: Region| 5 * q.x < 3 * s.ctx.vw && 5 * (q.x + q.w) > 2 * s.ctx.vw;
    let titles = title_groups(s.groups, s.band_times);
    pick::law_picked_lists(
        s.groups.len(),
        |i: int| is_title(s.groups[i], s.band_times),
        |i: int| is_title(s.groups[i], s.band_times),
    );
    pick::law_picked_lists(
        n,
        |i: int| left_over(s.regions[i], bs, vw),
        |i: int|
            {
                let q = s.regions[i];
                &&& middle(q)
                &&& translate::letters(q.text@) >= 3
                &&& exists|k: int|
                    0 <= k < bs.len() && 2 * (#[trigger] bs[k]).spot.y <= 2 * q.y + q.h && 2 * q.y + q.h <= 2
                        * bs[k].spot.y + 2 * bs[k].spot.h && q.t0 < bs[k].spot.end + 300_000 && q.t1
                        > bs[k].spot.start - 300_000
            },
    );
    let hit = lemma_all_hits(s.regions, s.captions, vh);
    assert forall|k: int| 0 <= k < hit.len() implies pick::lists(
        #[trigger] hit[k],
        n as int,
        |i: int|
            {
                let d = (2 * s.regions[i].y + s.regions[i].h) * 500_000 - s.captions[k].y * s.ctx.vh;
                -60_000 * s.ctx.vh <= d <= 60_000 * s.ctx.vh
            },
    ) by {
        pick::law_picked_lists(
            n,
            |i: int| reading::away(s.regions[i].mid(), s.captions[k].y, vh) <= vh * 60_000,
            |i: int|
                {
                    let d = (2 * s.regions[i].y + s.regions[i].h) * 500_000 - s.captions[k].y * s.ctx.vh;
                    -60_000 * s.ctx.vh <= d <= 60_000 * s.ctx.vh
                },
        );
    }
    let first = taglines(s.regions, s.groups, titles, s.ctx);
    let early = |i: int|
        {
            let q = s.regions[i];
            &&& s.ctx.do_translate && !s.ctx.fresh_subs
            &&& q.t0 <= 3_000_000 && middle(q) && translate::letters(q.text@) >= 4
            &&& forall|k: int|
                0 <= k < titles.len() ==> 2 * q.y + q.h < 2 * s.groups[#[trigger] titles[k]].y || 2 * q.y + q.h > 2
                    * s.groups[titles[k]].y + 2 * s.groups[titles[k]].h
        };
    if s.ctx.do_translate && !s.ctx.fresh_subs {
        pick::law_picked_lists(n, |i: int| tagline(s.regions[i], s.groups, titles, vw), early);
    }
    assert(pick::lists(first, n as int, early));
    let c = Covered { under: left_overs(s.regions, bs, vw), hit, first, titles };
    let at = |i: int| s.boxes[i];
    assert(block_boxes(bs) =~= bs.map_values(
        |b: BlockModel| plain_area(b.spot.x, b.spot.y, b.spot.w, b.spot.h, b.spot.start, b.spot.end),
    ));
    assert(all_marked(s.band) =~= s.band.map_values(|b: BoxModel| BoxModel { band: true, ..b }));
    assert(group_boxes(s.groups, titles) =~= titles.map_values(
        |i: int|
            plain_area(
                s.groups[i].x as int,
                s.groups[i].y as int,
                s.groups[i].w as int,
                s.groups[i].h as int,
                s.groups[i].start as int,
                s.groups[i].end as int,
            ),
    ));
    assert(boxes_at(s.boxes, c.under) =~= c.under.map_values(at));
    assert(boxes_at(s.boxes, first) =~= first.map_values(at));
    assert(boxes_at(s.boxes, hit.flatten()) =~= hit.flatten().map_values(at));
    c
}

/// The lines of the title card that are translated: where titles are drawn and it is to be translated, each
/// caption of three letters or more in the middle of the picture that is seen within the first three and a half
/// seconds, unless its middle is within five hundredths of the picture of a name, or six hundredths of a drawn
/// title or of a caption at a described height.
pub proof fn law_lines_of_the_title_card(
    s: Sources,
    bs: Seq<BlockModel>,
    brands: Seq<DescribedModel>,
    has_titles: bool,
)
    ensures
        ({
            let vh = s.ctx.vh as int;
            let seen = all_hits(s.regions, s.captions, vh);
            pick::lists(
                card_of(s, bs, brands, has_titles),
                s.regions.len() as int,
                |i: int|
                    {
                        let q = s.regions[i];
                        let mid = 2 * q.y + q.h;
                        &&& has_titles && s.ctx.do_translate
                        &&& q.t0 <= 3_500_000
                        &&& translate::letters(q.text@) >= 3
                        &&& 5 * q.x < 3 * s.ctx.vw && 5 * (q.x + q.w) > 2 * s.ctx.vw
                        &&& forall|k: int|
                            0 <= k < brands.len() ==> !(-50_000 * vh <= mid * 500_000 - (#[trigger] brands[k]).y * vh
                                <= 50_000 * vh)
                        &&& forall|k: int|
                            0 <= k < bs.len() ==> !(-6 * vh <= 50 * (mid - (2 * (#[trigger] bs[k]).spot.y
                                + bs[k].spot.h)) <= 6 * vh)
                        &&& forall|k: int|
                            0 <= k < seen.len() ==> !(-6 * vh <= 50 * (mid - (2 * s.regions[#[trigger] seen[k]].y
                                + s.regions[seen[k]].h)) <= 6 * vh)
                    },
            )
        }),
{
    let vh = s.ctx.vh as int;
    let seen = all_hits(s.regions, s.captions, vh);
    let g = |i: int|
        {
            let q = s.regions[i];
            let mid = 2 * q.y + q.h;
            &&& has_titles && s.ctx.do_translate
            &&& q.t0 <= 3_500_000
            &&& translate::letters(q.text@) >= 3
            &&& 5 * q.x < 3 * s.ctx.vw && 5 * (q.x + q.w) > 2 * s.ctx.vw
            &&& forall|k: int|
                0 <= k < brands.len() ==> !(-50_000 * vh <= mid * 500_000 - (#[trigger] brands[k]).y * vh <= 50_000
                    * vh)
            &&& forall|k: int|
                0 <= k < bs.len() ==> !(-6 * vh <= 50 * (mid - (2 * (#[trigger] bs[k]).spot.y + bs[k].spot.h)) <= 6
                    * vh)
            &&& forall|k: int|
                0 <= k < seen.len() ==> !(-6 * vh <= 50 * (mid - (2 * s.regions[#[trigger] seen[k]].y
                    + s.regions[seen[k]].h)) <= 6 * vh)
        };
    if has_titles && s.ctx.do_translate {
        let f = |i: int| card_line(s.regions, i, bs, brands, seen, s.ctx);
        assert forall|i: int| 0 <= i < s.regions.len() implies f(i) == #[trigger] g(i) by {
            let q = s.regions[i];
            let mid = q.mid();
            assert forall|k: int| 0 <= k < brands.len() implies (reading::away(mid, (#[trigger] brands[k]).y, vh) <= vh
                * 50_000) == (-50_000 * vh <= mid * 500_000 - brands[k].y * vh <= 50_000 * vh) by {}
        }
        pick::law_picked_lists(s.regions.len(), f, g);
    }
}

/// The lines of the title card that were translated are drawn behind the titles, in their places, for their
/// times and in the look of the subtitles; one without a translation is not.
pub proof fn law_title_card_is_drawn(
    bs: Seq<BlockModel>,
    rs: Seq<Region>,
    card: Seq<int>,
    i: int,
    ts: Seq<Seq<char>>,
    look: StyleModel,
)
    ensures
        with_card(bs, rs, card, None, look) == bs,
        with_card(bs, rs, Seq::empty(), Some(ts), look) == bs,
        ({
            let k = card.len() as int;
            let before = with_card(bs, rs, card, Some(ts), look);
            let behind = with_card(bs, rs, card.push(i), Some(ts), look);
            let says = k < ts.len() && text::trimmed(ts[k]).len() > 0;
            &&& !says ==> behind == before
            &&& says ==> behind == before.push(behind.last()) && {
                let b = behind.last();
                let q = rs[i];
                &&& b.text == text::trimmed(ts[k])
                &&& b.spot.x == q.x && b.spot.y == q.y && b.spot.w == q.w && b.spot.h == q.h
                &&& b.spot.start == q.t0 && b.spot.end == q.t1
                &&& q.h >= 0 ==> 10 * b.spot.lh <= 8 * q.h < 10 * (b.spot.lh + 1)
                &&& b.color == Some(look.color) && b.align == look.align && b.font == look.font
                &&& b.bold == look.bold && b.italic == look.italic
                &&& b.solid == (look.solid == Some(true))
                &&& b.bg == (if look.solid == Some(true) && look.background != Some("none"@) {
                    look.background
                } else {
                    None
                })
            }
        }),
{
    assert(card.push(i).drop_last() =~= card);
    assert(bs + Seq::<BlockModel>::empty() =~= bs);
    let before = card_blocks(rs, card, ts, look);
    let behind = card_blocks(rs, card.push(i), ts, look);
    let k = card.len() as int;
    assert(card.push(i)[k] == i);
    if k < ts.len() && text::trimmed(ts[k]).len() > 0 {
        let b = card_block(rs[i], ts[k], look);
        assert(behind == before.push(b));
        assert(bs + behind =~= (bs + before).push(b));
    }
    assert forall|j: int| 0 <= j < card.len() implies card.push(i)[j] == card[j] by {}
}

} // verus!
