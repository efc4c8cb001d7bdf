//! The look of the subtitles: taken over from the captions of the film where nothing else is known.

use crate::captions;
use crate::compose::reading;
use crate::compose::reading::Described;
use crate::compose::reading::DescribedModel;
use crate::compose::reading::Region;
use crate::pick;
use crate::rank;
use crate::text;
use vstd::prelude::*;

verus! {

/// The look of the subtitles.
#[derive(Clone, Debug)]
pub struct SubStyle {
    pub color: String,
    pub outline: String,
    pub bold: bool,
    pub italic: bool,
    pub align: String,
    pub font: Option<String>,
    /// The colour behind the subtitles, where it is known.
    pub scene_color: Option<String>,
    pub scene_flat: bool,
    pub background: Option<String>,
    pub solid: Option<bool>,
}

/// The look of the subtitles, as a value.
pub struct StyleModel {
    pub color: Seq<char>,
    pub outline: Seq<char>,
    pub bold: bool,
    pub italic: bool,
    pub align: Seq<char>,
    pub font: Option<Seq<char>>,
    pub scene_color: Option<Seq<char>>,
    pub scene_flat: bool,
    pub background: Option<Seq<char>>,
    pub solid: Option<bool>,
}

impl View for SubStyle {
    type V = StyleModel;

    open spec fn view(&self) -> StyleModel {
        StyleModel {
            color: self.color@,
            outline: self.outline@,
            bold: self.bold,
            italic: self.italic,
            align: self.align@,
            font: reading::opt(self.font),
            scene_color: reading::opt(self.scene_color),
            scene_flat: self.scene_flat,
            background: reading::opt(self.background),
            solid: self.solid,
        }
    }
}

pub open spec fn opt_style(s: Option<SubStyle>) -> Option<StyleModel> {
    match s {
        Some(x) => Some(x@),
        None => None,
    }
}

// ── The usual value ─────────────────────────────────────────────────────────

/// How often `x` occurs.
pub open spec fn frequency(list: Seq<Seq<char>>, x: Seq<char>) -> nat
    decreases list.len(),
{
    if list.len() == 0 {
        0
    } else {
        frequency(list.drop_last(), x) + if list.last() == x {
            1nat
        } else {
            0nat
        }
    }
}

/// The first of the first `n` values that occurs most often.
pub open spec fn most_frequent(list: Seq<Seq<char>>, n: nat) -> Option<int>
    decreases n,
{
    if n == 0 {
        None
    } else {
        match most_frequent(list, (n - 1) as nat) {
            Some(k) => if frequency(list, list[n - 1]) > frequency(list, list[k]) {
                Some(n - 1)
            } else {
                Some(k)
            },
            None => Some(n - 1),
        }
    }
}

/// The values that are not empty.
pub open spec fn filled(list: Seq<Seq<char>>) -> Seq<Seq<char>>
    decreases list.len(),
{
    if list.len() == 0 {
        Seq::empty()
    } else if list.last().len() > 0 {
        filled(list.drop_last()).push(list.last())
    } else {
        filled(list.drop_last())
    }
}

/// The usual value: the first that occurs most often, `d` where there is none.
pub open spec fn usual(list: Seq<Seq<char>>, d: Seq<char>) -> Seq<char> {
    let vals = filled(list);
    match most_frequent(vals, vals.len()) {
        Some(k) => vals[k],
        None => d,
    }
}

fn count(list: &Vec<String>, x: &str) -> (r: usize)
    ensures
        r == frequency(text::views(list@), x@),
{
    let ghost lv = text::views(list@);
    let mut n: usize = 0;
    assert(lv.take(0) =~= Seq::empty());
    for i in 0..list.len()
        invariant
            lv == text::views(list@),
            n <= i,
            n == frequency(lv.take(i as int), x@),
    {
        assert(lv.take(i + 1).drop_last() =~= lv.take(i as int));
        assert(lv.take(i + 1).last() == list@[i as int]@);
        if text::same(list[i].as_str(), x) {
            n += 1;
        }
    }
    assert(lv.take(lv.len() as int) =~= lv);
    n
}

/// The usual value: the first that occurs most often, `d` where there is none.
pub fn usual_value(list: &Vec<String>, d: &str) -> (r: String)
    ensures
        r@ == usual(text::views(list@), d@),
{
    let ghost lv = text::views(list@);
    let mut vals: Vec<String> = Vec::new();
    assert(lv.take(0) =~= Seq::empty());
    assert(text::views(vals@) =~= Seq::empty());
    for i in 0..list.len()
        invariant
            lv == text::views(list@),
            text::views(vals@) == filled(lv.take(i as int)),
    {
        assert(lv.take(i + 1).drop_last() =~= lv.take(i as int));
        assert(lv.take(i + 1).last() == list@[i as int]@);
        if !list[i].as_str().is_empty() {
            let ghost was = text::views(vals@);
            vals.push(list[i].clone());
            assert(text::views(vals@) =~= was.push(list@[i as int]@));
        }
    }
    assert(lv.take(lv.len() as int) =~= lv);
    let ghost vv = text::views(vals@);
    assert(vv.len() == vals@.len());
    let mut best: Option<usize> = None;
    for i in 0..vals.len()
        invariant
            vv == text::views(vals@),
            match best {
                Some(k) => k < i && most_frequent(vv, i as nat) == Some(k as int),
                None => most_frequent(vv, i as nat) is None,
            },
    {
        assert(vv[i as int] == vals@[i as int]@);
        match best {
            Some(k) => {
                assert(vv[k as int] == vals@[k as int]@);
                if count(&vals, vals[i].as_str()) > count(&vals, vals[k].as_str()) {
                    best = Some(i);
                }
            },
            None => {
                best = Some(i);
            },
        }
    }
    match best {
        Some(k) => {
            assert(vv[k as int] == vals@[k as int]@);
            vals[k].clone()
        },
        None => d.to_owned(),
    }
}

// ── Taking the captions' look over ──────────────────────────────────────────

/// The colours that are given.
pub open spec fn colors(cs: Seq<DescribedModel>) -> Seq<Seq<char>>
    decreases cs.len(),
{
    if cs.len() == 0 {
        Seq::empty()
    } else {
        match cs.last().color {
            Some(v) => colors(cs.drop_last()).push(v),
            None => colors(cs.drop_last()),
        }
    }
}

/// The outlines that are given, without those that say there is none.
pub open spec fn outlines(cs: Seq<DescribedModel>) -> Seq<Seq<char>>
    decreases cs.len(),
{
    if cs.len() == 0 {
        Seq::empty()
    } else {
        match cs.last().outline {
            Some(v) => if v != "none"@ {
                outlines(cs.drop_last()).push(v)
            } else {
                outlines(cs.drop_last())
            },
            None => outlines(cs.drop_last()),
        }
    }
}

/// The typefaces that are given.
pub open spec fn fonts(cs: Seq<DescribedModel>) -> Seq<Seq<char>>
    decreases cs.len(),
{
    if cs.len() == 0 {
        Seq::empty()
    } else {
        match cs.last().font {
            Some(v) => fonts(cs.drop_last()).push(v),
            None => fonts(cs.drop_last()),
        }
    }
}

/// How many captions are bold.
pub open spec fn bolds(cs: Seq<DescribedModel>) -> nat
    decreases cs.len(),
{
    if cs.len() == 0 {
        0
    } else {
        bolds(cs.drop_last()) + if cs.last().bold == Some(true) {
            1nat
        } else {
            0nat
        }
    }
}

/// How many captions are slanted.
pub open spec fn italics(cs: Seq<DescribedModel>) -> nat
    decreases cs.len(),
{
    if cs.len() == 0 {
        0
    } else {
        italics(cs.drop_last()) + if cs.last().italic == Some(true) {
            1nat
        } else {
            0nat
        }
    }
}

/// The look of the captions.
pub open spec fn mirrored(cs: Seq<DescribedModel>) -> StyleModel {
    StyleModel {
        color: usual(colors(cs), "#FFFFFF"@),
        outline: usual(outlines(cs), "#000000"@),
        bold: 2 * bolds(cs) >= cs.len(),
        italic: 2 * italics(cs) > cs.len(),
        align: "center"@,
        font: if fonts(cs).len() == 0 {
            None
        } else {
            Some(usual(fonts(cs), ""@))
        },
        scene_color: None,
        scene_flat: false,
        background: Some("none"@),
        solid: Some(false),
    }
}

fn mirror(cs: &Vec<Described>) -> (r: SubStyle)
    ensures
        r@ == mirrored(reading::described_views(cs@)),
{
    let ghost cv = reading::described_views(cs@);
    let mut cols: Vec<String> = Vec::new();
    let mut outs: Vec<String> = Vec::new();
    let mut fnts: Vec<String> = Vec::new();
    let mut bold: usize = 0;
    let mut italic: usize = 0;
    assert(cv.take(0) =~= Seq::empty());
    assert(text::views(cols@) =~= Seq::empty());
    for i in 0..cs.len()
        invariant
            cv == reading::described_views(cs@),
            text::views(cols@) == colors(cv.take(i as int)),
            text::views(outs@) == outlines(cv.take(i as int)),
            text::views(fnts@) == fonts(cv.take(i as int)),
            bold <= i,
            italic <= i,
            bold == bolds(cv.take(i as int)),
            italic == italics(cv.take(i as int)),
    {
        let c = &cs[i];
        assert(cv.take(i + 1).drop_last() =~= cv.take(i as int));
        assert(cv.take(i + 1).last() == c@);
        if let Some(v) = &c.color {
            let ghost was = text::views(cols@);
            cols.push(v.clone());
            assert(text::views(cols@) =~= was.push(v@));
        }
        if let Some(v) = &c.outline {
            if !text::same(v.as_str(), "none") {
                let ghost was = text::views(outs@);
                outs.push(v.clone());
                assert(text::views(outs@) =~= was.push(v@));
            }
        }
        if let Some(v) = &c.font {
            let ghost was = text::views(fnts@);
            fnts.push(v.clone());
            assert(text::views(fnts@) =~= was.push(v@));
        }
        if let Some(b) = c.bold {
            if b {
                bold += 1;
            }
        }
        if let Some(b) = c.italic {
            if b {
                italic += 1;
            }
        }
    }
    assert(cv.take(cv.len() as int) =~= cv);
    let n: usize = cs.len();
    assert(text::views(fnts@).len() == fnts@.len());
    SubStyle {
        color: usual_value(&cols, "#FFFFFF"),
        outline: usual_value(&outs, "#000000"),
        bold: bold >= n - bold,
        italic: italic > n - italic,
        align: "center".to_owned(),
        font: if fnts.len() == 0 {
            None
        } else {
            Some(usual_value(&fnts, ""))
        },
        scene_color: None,
        scene_flat: false,
        background: Some("none".to_owned()),
        solid: Some(false),
    }
}

/// A title on a light card: solid, on a light ground.
pub open spec fn light_card(ts: Seq<DescribedModel>, light: Seq<bool>) -> bool {
    exists|i: int|
        0 <= i < ts.len() && (#[trigger] ts[i]).solid == Some(true) && ts[i].bg is Some && light[i]
}

/// Behind the subtitles it is white.
pub open spec fn on_white(s: StyleModel) -> StyleModel {
    StyleModel { scene_color: Some("#FFFFFF"@), scene_flat: true, ..s }
}

/// The look of the subtitles: what is known, else that of the captions; on white where the colour behind is
/// not known and a title stands on a light card.
pub open spec fn look(
    known: Option<StyleModel>,
    cs: Seq<DescribedModel>,
    ts: Seq<DescribedModel>,
    light: Seq<bool>,
) -> Option<StyleModel> {
    let first = match known {
        Some(s) => Some(s),
        None => if cs.len() > 0 {
            Some(mirrored(cs))
        } else {
            None
        },
    };
    match first {
        Some(s) => if s.scene_color is None && light_card(ts, light) {
            Some(on_white(s))
        } else {
            Some(s)
        },
        None => None,
    }
}

fn has_light_card(ts: &Vec<Described>, light: &Vec<bool>) -> (r: bool)
    requires
        ts@.len() == light@.len(),
    ensures
        r == light_card(reading::described_views(ts@), light@),
{
    let ghost tv = reading::described_views(ts@);
    for i in 0..ts.len()
        invariant
            ts@.len() == light@.len(),
            tv == reading::described_views(ts@),
            forall|j: int|
                0 <= j < i ==> !((#[trigger] tv[j]).solid == Some(true) && tv[j].bg is Some
                    && light@[j]),
    {
        let t = &ts[i];
        assert(tv[i as int] == t@);
        let solid = match t.solid {
            Some(b) => b,
            None => false,
        };
        if solid && t.bg.is_some() && light[i] {
            return true;
        }
    }
    false
}

/// The look of the subtitles; `light` says of each title whether its ground is light.
pub fn sub_look(
    known: Option<SubStyle>,
    cs: &Vec<Described>,
    ts: &Vec<Described>,
    light: &Vec<bool>,
) -> (r: Option<SubStyle>)
    requires
        ts@.len() == light@.len(),
    ensures
        opt_style(r) == look(
            opt_style(known),
            reading::described_views(cs@),
            reading::described_views(ts@),
            light@,
        ),
{
    let first = match known {
        Some(s) => Some(s),
        None => if cs.len() > 0 {
            Some(mirror(cs))
        } else {
            None
        },
    };
    match first {
        Some(s) => {
            let mut s = s;
            if s.scene_color.is_none() && has_light_card(ts, light) {
                s.scene_color = Some("#FFFFFF".to_owned());
                s.scene_flat = true;
            }
            Some(s)
        },
        None => None,
    }
}

// ── The size ────────────────────────────────────────────────────────────────

/// The one in the middle by size, of two the larger.
pub open spec fn median(hs: Seq<int>) -> int {
    hs[rank::stable_order(hs)[hs.len() as int / 2]]
}

fn median_of(hs: &Vec<i64>) -> (r: i64)
    requires
        hs@.len() > 0,
    ensures
        r == median(sizes(hs@)),
{
    let mut keys: Vec<i128> = Vec::new();
    for i in 0..hs.len()
        invariant
            keys@.len() == i,
            forall|j: int| 0 <= j < i ==> #[trigger] keys@[j] == hs@[j],
    {
        keys.push(hs[i] as i128);
    }
    assert(rank::ints(keys@) =~= sizes(hs@));
    let order = rank::stable_sort(&keys);
    assert(sizes(hs@).len() == hs@.len());
    let m: usize = order[hs.len() / 2];
    assert(rank::indices(order@)[hs@.len() as int / 2] == m);
    assert(sizes(hs@)[m as int] == hs@[m as int]);
    hs[m]
}

pub open spec fn sizes(v: Seq<i64>) -> Seq<int> {
    v.map_values(|x: i64| x as int)
}

/// The heights of the captions at the given places.
pub open spec fn heights_at(rs: Seq<Region>, at: Seq<int>) -> Seq<int> {
    at.map_values(|i: int| rs[i].h as int)
}

/// The caption stands in the middle of the lower part of the picture.
pub open spec fn low(rs: Seq<Region>, vw: int, vh: int, i: int) -> bool {
    reading::centered(rs[i].x as int, rs[i].w as int, vw) && 5 * rs[i].mid() > 4 * vh
}

/// The captions in the middle of the lower part of the picture.
pub open spec fn low_captions(rs: Seq<Region>, vw: int, vh: int) -> Seq<int> {
    pick::picked(rs.len(), |i: int| low(rs, vw, vh, i))
}

/// The caption stands at the height of the subtitles: within seven hundredths of the picture.
pub open spec fn at_height(rs: Seq<Region>, y: int, vh: int, i: int) -> bool {
    -7 * vh <= 50 * (rs[i].mid() - 2 * y) <= 7 * vh
}

/// The captions at the height of the subtitles.
pub open spec fn captions_at(rs: Seq<Region>, y: int, vh: int) -> Seq<int> {
    pick::picked(rs.len(), |i: int| at_height(rs, y, vh, i))
}

/// The size of the subtitles: that of the captions at their height, else of those in the lower part where
/// the look was taken over from the captions, else of the lines of the original subtitles.
pub open spec fn size_of(
    rs: Seq<Region>,
    sub_y: Option<i64>,
    mirrors: bool,
    lines: Seq<int>,
    vw: int,
    vh: int,
) -> Option<int> {
    let here = match sub_y {
        Some(y) => captions_at(rs, y as int, vh),
        None => Seq::empty(),
    };
    let low = low_captions(rs, vw, vh);
    if here.len() > 0 {
        Some(median(heights_at(rs, here)))
    } else if mirrors && low.len() > 0 {
        Some(median(heights_at(rs, low)))
    } else if lines.len() > 0 {
        Some(median(lines))
    } else {
        None
    }
}

fn low_heights(rs: &Vec<Region>, vw: i64, vh: i64) -> (r: Vec<i64>)
    requires
        reading::all_placed(rs@),
        0 <= vw <= captions::PIXEL_LIMIT,
        0 <= vh <= captions::PIXEL_LIMIT,
    ensures
        sizes(r@) == heights_at(rs@, low_captions(rs@, vw as int, vh as int)),
{
    let ghost f = |i: int| low(rs@, vw as int, vh as int, i);
    let mut out: Vec<i64> = Vec::new();
    assert(sizes(out@) =~= heights_at(rs@, pick::picked(0, f)));
    for i in 0..rs.len()
        invariant
            reading::all_placed(rs@),
            0 <= vw <= captions::PIXEL_LIMIT,
            0 <= vh <= captions::PIXEL_LIMIT,
            f == (|i: int| low(rs@, vw as int, vh as int, i)),
            sizes(out@) == heights_at(rs@, pick::picked(i as nat, f)),
    {
        let q = &rs[i];
        assert(rs@[i as int].placed());
        if reading::is_centered(q, vw) && 5 * (2 * q.y + q.h) > 4 * vh {
            assert(f(i as int));
            let ghost was = sizes(out@);
            out.push(q.h);
            assert(sizes(out@) =~= was.push(q.h as int));
            assert(heights_at(rs@, pick::picked((i + 1) as nat, f)) =~= was.push(q.h as int));
        }
    }
    out
}

fn heights_near(rs: &Vec<Region>, y: i64, vh: i64) -> (r: Vec<i64>)
    requires
        reading::all_placed(rs@),
        0 <= vh <= captions::PIXEL_LIMIT,
    ensures
        sizes(r@) == heights_at(rs@, captions_at(rs@, y as int, vh as int)),
{
    let ghost f = |i: int| at_height(rs@, y as int, vh as int, i);
    let mut out: Vec<i64> = Vec::new();
    assert(sizes(out@) =~= heights_at(rs@, pick::picked(0, f)));
    for i in 0..rs.len()
        invariant
            reading::all_placed(rs@),
            0 <= vh <= captions::PIXEL_LIMIT,
            f == (|i: int| at_height(rs@, y as int, vh as int, i)),
            sizes(out@) == heights_at(rs@, pick::picked(i as nat, f)),
    {
        let q = &rs[i];
        assert(rs@[i as int].placed());
        let d: i128 = 50 * ((2 * q.y + q.h) as i128 - 2 * y as i128);
        let limit: i128 = 7 * vh as i128;
        if -limit <= d && d <= limit {
            assert(f(i as int));
            let ghost was = sizes(out@);
            out.push(q.h);
            assert(sizes(out@) =~= was.push(q.h as int));
            assert(heights_at(rs@, pick::picked((i + 1) as nat, f)) =~= was.push(q.h as int));
        }
    }
    out
}

/// The size of the subtitles; `lines` are the heights of the lines of the original subtitles.
pub fn sub_px(
    rs: &Vec<Region>,
    sub_y: Option<i64>,
    mirrors: bool,
    lines: &Vec<i64>,
    vw: i64,
    vh: i64,
) -> (r: Option<i64>)
    requires
        reading::all_placed(rs@),
        0 <= vw <= captions::PIXEL_LIMIT,
        0 <= vh <= captions::PIXEL_LIMIT,
    ensures
        (match r {
            Some(p) => Some(p as int),
            None => None,
        }) == size_of(rs@, sub_y, mirrors, sizes(lines@), vw as int, vh as int),
{
    let here: Vec<i64> = match sub_y {
        Some(y) => heights_near(rs, y, vh),
        None => Vec::new(),
    };
    proof {
        assert(sizes(here@).len() == here@.len());
        if sub_y is None {
            assert(sizes(here@) =~= Seq::empty());
        } else {
            let at = captions_at(rs@, sub_y->0 as int, vh as int);
            assert(heights_at(rs@, at).len() == at.len());
        }
    }
    if here.len() > 0 {
        return Some(median_of(&here));
    }
    if mirrors {
        let low = low_heights(rs, vw, vh);
        proof {
            let at = low_captions(rs@, vw as int, vh as int);
            assert(heights_at(rs@, at).len() == at.len());
            assert(sizes(low@).len() == low@.len());
        }
        if low.len() > 0 {
            return Some(median_of(&low));
        }
    }
    assert(sizes(lines@).len() == lines@.len());
    if lines.len() > 0 {
        Some(median_of(lines))
    } else {
        None
    }
}

// ── Laws ────────────────────────────────────────────────────────────────────

proof fn lemma_most_frequent(list: Seq<Seq<char>>, n: nat)
    requires
        n <= list.len(),
    ensures
        n > 0 ==> most_frequent(list, n) is Some,
        most_frequent(list, n) matches Some(k) ==> 0 <= k < n && forall|j: int|
            0 <= j < n ==> frequency(list, #[trigger] list[j]) <= frequency(list, list[k]),
    decreases n,
{
    if n > 0 {
        lemma_most_frequent(list, (n - 1) as nat);
    }
}

/// The usual value is one of the values, and none occurs more often.
pub proof fn law_usual_value_occurs_most(list: Seq<Seq<char>>, d: Seq<char>)
    ensures
        filled(list).len() == 0 ==> usual(list, d) == d,
        filled(list).len() > 0 ==> filled(list).contains(usual(list, d)) && forall|j: int|
            0 <= j < filled(list).len() ==> frequency(filled(list), #[trigger] filled(list)[j])
                <= frequency(filled(list), usual(list, d)),
{
    let vals = filled(list);
    lemma_most_frequent(vals, vals.len());
    if vals.len() > 0 {
        let k = most_frequent(vals, vals.len())->0;
        assert(vals[k] == usual(list, d));
    }
}

/// A look that is known keeps its colours, whatever the captions look like.
pub proof fn law_known_look_is_kept(
    s: StyleModel,
    cs: Seq<DescribedModel>,
    ts: Seq<DescribedModel>,
    light: Seq<bool>,
)
    ensures
        look(Some(s), cs, ts, light) matches Some(r) && r.color == s.color && r.outline == s.outline
            && r.bold == s.bold && r.italic == s.italic && r.font == s.font,
        s.scene_color is Some ==> look(Some(s), cs, ts, light) == Some(s),
{
}

/// How many of the values are `x`.
pub open spec fn times_given(list: Seq<Seq<char>>, x: Seq<char>) -> nat {
    list.filter(|y: Seq<char>| y == x).len()
}

proof fn lemma_frequency_counts(list: Seq<Seq<char>>, x: Seq<char>)
    ensures
        frequency(list, x) == times_given(list, x),
    decreases list.len(),
{
    reveal(Seq::filter);
    if list.len() > 0 {
        lemma_frequency_counts(list.drop_last(), x);
    }
}

proof fn lemma_filled_is(list: Seq<Seq<char>>)
    ensures
        filled(list) == list.filter(|y: Seq<char>| y.len() > 0),
    decreases list.len(),
{
    reveal(Seq::filter);
    if list.len() > 0 {
        lemma_filled_is(list.drop_last());
    }
}

proof fn lemma_most_frequent_is(list: Seq<Seq<char>>, n: nat)
    requires
        n <= list.len(),
    ensures
        n == 0 <==> most_frequent(list, n) is None,
        most_frequent(list, n) matches Some(k) ==> 0 <= k < n && forall|j: int|
            0 <= j < n ==> frequency(list, #[trigger] list[j]) <= frequency(list, list[k]) && (j < k ==> frequency(
                list,
                list[j],
            ) < frequency(list, list[k])),
    decreases n,
{
    if n > 0 {
        lemma_most_frequent_is(list, (n - 1) as nat);
    }
}

/// The usual value is the one that is given most often, and of equally frequent ones the first; empty ones do not count.
pub proof fn law_usual_value_is_the_most_frequent(list: Seq<Seq<char>>, d: Seq<char>, k: int)
    ensures
        ({
            let vals = list.filter(|y: Seq<char>| y.len() > 0);
            &&& vals.len() == 0 ==> usual(list, d) == d
            &&& 0 <= k < vals.len() && (forall|j: int|
                0 <= j < vals.len() ==> times_given(vals, #[trigger] vals[j]) <= times_given(vals, vals[k]) && (j < k ==> times_given(vals, vals[j]) < times_given(
                    vals,
                    vals[k],
                ))) ==> usual(list, d) == vals[k]
        }),
{
    lemma_filled_is(list);
    let vals = filled(list);
    lemma_most_frequent_is(vals, vals.len());
    assert forall|x: Seq<char>| times_given(vals, x) == #[trigger] frequency(vals, x) by {
        lemma_frequency_counts(vals, x);
    }
    if 0 <= k < vals.len() && (forall|j: int|
        0 <= j < vals.len() ==> times_given(vals, #[trigger] vals[j]) <= times_given(vals, vals[k]) && (j < k ==> times_given(vals, vals[j]) < times_given(vals, vals[k]))) {
        let m = most_frequent(vals, vals.len())->0;
        assert(times_given(vals, vals[m]) == frequency(vals, vals[m]));
        assert(times_given(vals, vals[k]) == frequency(vals, vals[k]));
        assert(frequency(vals, vals[k]) <= frequency(vals, vals[m]));
    }
}

/// What is told of the captions is gathered caption by caption: colours, outlines but "none", typefaces, and how many are
/// bold and slanted.
pub proof fn law_look_is_gathered(cs: Seq<DescribedModel>, c: DescribedModel)
    ensures
        colors(cs.push(c)) == (match c.color {
            Some(v) => colors(cs).push(v),
            None => colors(cs),
        }),
        outlines(cs.push(c)) == (match c.outline {
            Some(v) => if v == "none"@ {
                outlines(cs)
            } else {
                outlines(cs).push(v)
            },
            None => outlines(cs),
        }),
        fonts(cs.push(c)) == (match c.font {
            Some(v) => fonts(cs).push(v),
            None => fonts(cs),
        }),
        bolds(cs.push(c)) == (if c.bold == Some(true) {
            bolds(cs) + 1
        } else {
            bolds(cs)
        }),
        italics(cs.push(c)) == (if c.italic == Some(true) {
            italics(cs) + 1
        } else {
            italics(cs)
        }),
        colors(Seq::empty()).len() == 0 && outlines(Seq::empty()).len() == 0 && fonts(Seq::empty()).len() == 0 && bolds(
            Seq::empty(),
        ) == 0 && italics(Seq::empty()) == 0,
{
    assert(cs.push(c).drop_last() =~= cs);
}

/// The look that is taken over from the captions: the usual colour, outline and typeface, white and black where none is
/// given; bold if at least half of them are, slanted if more than half are; in the middle and without a ground.
pub proof fn law_look_of_the_captions(cs: Seq<DescribedModel>, ts: Seq<DescribedModel>, light: Seq<bool>)
    requires
        cs.len() > 0,
    ensures
        look(None, cs, ts, light) is Some,
        look(None, Seq::empty(), ts, light) is None,
        ({
            let s = look(None, cs, ts, light)->0;
            let bright = exists|i: int|
                0 <= i < ts.len() && (#[trigger] ts[i]).solid == Some(true) && ts[i].bg is Some && light[i];
            &&& s.color == usual(colors(cs), "#FFFFFF"@)
            &&& s.outline == usual(outlines(cs), "#000000"@)
            &&& s.bold <==> 2 * bolds(cs) >= cs.len()
            &&& s.italic <==> 2 * italics(cs) > cs.len()
            &&& s.font is None <==> fonts(cs).len() == 0
            &&& fonts(cs).len() > 0 ==> s.font == Some(usual(fonts(cs), ""@))
            &&& s.align == "center"@ && s.background == Some("none"@) && s.solid == Some(false)
            &&& bright ==> s.scene_color == Some("#FFFFFF"@) && s.scene_flat
            &&& !bright ==> s.scene_color is None && !s.scene_flat
        }),
{
}

/// The size of the subtitles: the middle one, of an even number the larger of the two, of the heights of the captions whose
/// middle is within seven hundredths of the picture of the subtitles; else, where the look was taken over, of those in the
/// middle of the picture's lowest fifth; else of the lines of the original subtitles.
pub proof fn law_size_of_the_subtitles(
    rs: Seq<Region>,
    sub_y: Option<i64>,
    mirrors: bool,
    lines: Seq<int>,
    vw: int,
    vh: int,
) -> (at: (Seq<int>, Seq<int>))
    ensures
        pick::lists(
            at.0,
            rs.len() as int,
            |i: int| sub_y matches Some(y) && -7 * vh <= 50 * (2 * rs[i].y + rs[i].h - 2 * y) <= 7 * vh,
        ),
        pick::lists(
            at.1,
            rs.len() as int,
            |i: int|
                5 * rs[i].x < 3 * vw && 5 * (rs[i].x + rs[i].w) > 2 * vw && 5 * (2 * rs[i].y + rs[i].h) > 4 * vh,
        ),
        ({
            let high = |i: int| rs[i].h as int;
            size_of(rs, sub_y, mirrors, lines, vw, vh) == (if at.0.len() > 0 {
                Some(median(at.0.map_values(high)))
            } else if mirrors && at.1.len() > 0 {
                Some(median(at.1.map_values(high)))
            } else if lines.len() > 0 {
                Some(median(lines))
            } else {
                None
            })
        }),
{
    let here = match sub_y {
        Some(y) => captions_at(rs, y as int, vh),
        None => Seq::empty(),
    };
    let f = |i: int| sub_y matches Some(y) && -7 * vh <= 50 * (2 * rs[i].y + rs[i].h - 2 * y) <= 7 * vh;
    if let Some(y) = sub_y {
        pick::law_picked_lists(rs.len(), |i: int| at_height(rs, y as int, vh, i), f);
    }
    assert(pick::lists(here, rs.len() as int, f));
    let below = low_captions(rs, vw, vh);
    pick::law_picked_lists(
        rs.len(),
        |i: int| low(rs, vw, vh, i),
        |i: int|
            5 * rs[i].x < 3 * vw && 5 * (rs[i].x + rs[i].w) > 2 * vw && 5 * (2 * rs[i].y + rs[i].h) > 4 * vh,
    );
    let high = |i: int| rs[i].h as int;
    assert(heights_at(rs, here) =~= here.map_values(high));
    assert(heights_at(rs, below) =~= below.map_values(high));
    (here, below)
}

/// The one in the middle: it stands halfway in the order by size.
pub proof fn law_median_is_in_the_middle(hs: Seq<int>) -> (o: Seq<int>)
    requires
        hs.len() > 0,
    ensures
        rank::is_order(o, hs),
        median(hs) == hs[o[hs.len() as int / 2]],
{
    rank::law_stable_order(hs);
    rank::stable_order(hs)
}

} // verus!
