//! What is drawn over the picture: the subtitle lines and where they stand, and the blurred areas.
//! Times are whole microseconds.

use crate::project::time_ok;
use crate::project::BlurBox;
use crate::project::CaptionOverride;
use crate::project::Project;
use crate::project::Segment;
use crate::rank;
use crate::text;
use vstd::prelude::*;

verus! {

/// The largest coordinate that occurs, either way.
pub const PIXEL_LIMIT: i64 = 1_000_000_000;

pub open spec fn pixel_ok(x: i64) -> bool {
    -PIXEL_LIMIT <= x <= PIXEL_LIMIT
}

impl BlurBox {
    /// Its place and its times are within the limits.
    pub open spec fn placed(self) -> bool {
        pixel_ok(self.x) && pixel_ok(self.y) && pixel_ok(self.w) && pixel_ok(self.h) && time_ok(
            self.t0,
        ) && time_ok(self.t1)
    }
}

pub open spec fn all_placed(boxes: Seq<BlurBox>) -> bool {
    forall|i: int| 0 <= i < boxes.len() ==> (#[trigger] boxes[i]).placed()
}

fn px(x: i64) -> (r: bool)
    ensures
        r == pixel_ok(x),
{
    -PIXEL_LIMIT <= x && x <= PIXEL_LIMIT
}

fn tm(t: i64) -> (r: bool)
    ensures
        r == time_ok(t),
{
    -crate::project::TIME_LIMIT <= t && t <= crate::project::TIME_LIMIT
}

/// Whether all areas are within the limits.
pub fn boxes_fit(boxes: &Vec<BlurBox>) -> (r: bool)
    ensures
        r == all_placed(boxes@),
{
    for i in 0..boxes.len()
        invariant
            forall|j: int| 0 <= j < i ==> (#[trigger] boxes@[j]).placed(),
    {
        let b = &boxes[i];
        if !(px(b.x) && px(b.y) && px(b.w) && px(b.h) && tm(b.t0) && tm(b.t1)) {
            return false;
        }
    }
    true
}

// ── The band of the original subtitles ──────────────────────────────────────

/// Of the first `n` areas, those that are not hidden, and only those of the band where `tagged`.
pub open spec fn visible_of(boxes: Seq<BlurBox>, tagged: bool, n: int) -> Seq<int>
    decreases n,
{
    if n <= 0 {
        Seq::empty()
    } else if !boxes[n - 1].hidden && (!tagged || boxes[n - 1].band) {
        visible_of(boxes, tagged, n - 1).push(n - 1)
    } else {
        visible_of(boxes, tagged, n - 1)
    }
}

/// The areas that cover the original subtitles: those marked so, or all where none is.
pub open spec fn band_of(boxes: Seq<BlurBox>) -> Seq<int> {
    let marked = visible_of(boxes, true, boxes.len() as int);
    if marked.len() == 0 {
        visible_of(boxes, false, boxes.len() as int)
    } else {
        marked
    }
}

fn visible(boxes: &Vec<BlurBox>, tagged: bool) -> (r: Vec<usize>)
    ensures
        rank::indices(r@) == visible_of(boxes@, tagged, boxes@.len() as int),
        forall|i: int| 0 <= i < r@.len() ==> (#[trigger] r@[i]) < boxes@.len(),
{
    let mut out: Vec<usize> = Vec::new();
    assert(rank::indices(out@) =~= Seq::empty());
    for n in 0..boxes.len()
        invariant
            rank::indices(out@) == visible_of(boxes@, tagged, n as int),
            forall|i: int| 0 <= i < out@.len() ==> (#[trigger] out@[i]) < boxes@.len(),
    {
        if !boxes[n].hidden && (!tagged || boxes[n].band) {
            let ghost before = rank::indices(out@);
            out.push(n);
            assert(rank::indices(out@) =~= before.push(n as int));
        }
    }
    out
}

fn band(boxes: &Vec<BlurBox>) -> (r: Vec<usize>)
    ensures
        rank::indices(r@) == band_of(boxes@),
        forall|i: int| 0 <= i < r@.len() ==> (#[trigger] r@[i]) < boxes@.len(),
{
    let marked = visible(boxes, true);
    assert(rank::indices(marked@).len() == marked@.len());
    if marked.len() == 0 {
        visible(boxes, false)
    } else {
        marked
    }
}

/// Twice the height at which an area is centred.
pub open spec fn double_centre(b: BlurBox) -> int {
    2 * b.y + b.h
}

/// Whether an area covers the original subtitle of a line shown from `st` to `en`: at about the same
/// time, about the middle of the frame, in its lower part.
pub open spec fn under_line(b: BlurBox, st: int, en: int, vw: int, vh: int) -> bool {
    &&& b.t0 < en + 300_000
    &&& b.t1 > st - 300_000
    &&& 5 * b.x < 3 * vw
    &&& 5 * (b.x + b.w) > 2 * vw
    &&& 10 * double_centre(b) >= 9 * vh
}

/// Of the first `n` areas `ix`, twice the heights of those under the line.
pub open spec fn heights(
    boxes: Seq<BlurBox>,
    ix: Seq<int>,
    st: int,
    en: int,
    vw: int,
    vh: int,
    n: int,
) -> Seq<int>
    decreases n,
{
    if n <= 0 {
        Seq::empty()
    } else {
        let before = heights(boxes, ix, st, en, vw, vh, n - 1);
        let b = boxes[ix[n - 1]];
        if under_line(b, st, en, vw, vh) {
            before.push(double_centre(b))
        } else {
            before
        }
    }
}

/// `n` halved, towards nothing.
pub open spec fn halved(n: int) -> int {
    if n >= 0 {
        n / 2
    } else {
        -((-n) / 2)
    }
}

/// The usual height of the subtitles: at 82 hundredths of the frame.
pub open spec fn usual_y(vh: int) -> int {
    vh * 82 / 100
}

/// The middle of the numbers, once they are ordered.
pub open spec fn middle(keys: Seq<int>) -> int {
    keys[rank::stable_order(keys)[keys.len() as int / 2]]
}

/// Where a line stands: where the editor put the subtitles, or where there is no band to follow, at
/// the chosen height; else at the middle height of the areas under it.
pub open spec fn line_y(
    boxes: Seq<BlurBox>,
    locked: bool,
    sub_y: int,
    st: int,
    en: int,
    vw: int,
    vh: int,
) -> int {
    let ix = band_of(boxes);
    if locked || ix.len() < 3 {
        sub_y
    } else {
        let ys = heights(boxes, ix, st, en, vw, vh, ix.len() as int);
        if ys.len() == 0 {
            usual_y(vh)
        } else {
            halved(middle(ys))
        }
    }
}

fn half(n: i64) -> (r: i64)
    requires
        n > i64::MIN,
    ensures
        r == halved(n as int),
{
    if n >= 0 {
        n / 2
    } else {
        -((-n) / 2)
    }
}

fn y_of_line(
    boxes: &Vec<BlurBox>,
    ix: &Vec<usize>,
    locked: bool,
    sub_y: i64,
    st: i64,
    en: i64,
    vw: i64,
    vh: i64,
) -> (r: i64)
    requires
        all_placed(boxes@),
        rank::indices(ix@) == band_of(boxes@),
        forall|i: int| 0 <= i < ix@.len() ==> (#[trigger] ix@[i]) < boxes@.len(),
        time_ok(st),
        time_ok(en),
        0 <= vw <= PIXEL_LIMIT,
        0 <= vh <= PIXEL_LIMIT,
    ensures
        r == line_y(
            boxes@,
            locked,
            sub_y as int,
            st as int,
            en as int,
            vw as int,
            vh as int,
        ),
{
    assert(rank::indices(ix@).len() == ix@.len());
    if locked || ix.len() < 3 {
        return sub_y;
    }
    let ghost ixs = rank::indices(ix@);
    let mut ys: Vec<i128> = Vec::new();
    assert(rank::ints(ys@) =~= Seq::empty());
    for n in 0..ix.len()
        invariant
            all_placed(boxes@),
            ixs == rank::indices(ix@),
            forall|i: int| 0 <= i < ix@.len() ==> (#[trigger] ix@[i]) < boxes@.len(),
            time_ok(st),
            time_ok(en),
            0 <= vw <= PIXEL_LIMIT,
            0 <= vh <= PIXEL_LIMIT,
            rank::ints(ys@) == heights(
                boxes@,
                ixs,
                st as int,
                en as int,
                vw as int,
                vh as int,
                n as int,
            ),
            forall|i: int| 0 <= i < ys@.len() ==> i64::MIN < (#[trigger] ys@[i]) <= i64::MAX,
    {
        assert(ixs[n as int] == ix@[n as int]);
        let b = &boxes[ix[n]];
        assert(boxes@[ix@[n as int] as int].placed());
        let c: i64 = 2 * b.y + b.h;
        if b.t0 < en + 300_000 && b.t1 > st - 300_000 && 5 * b.x < 3 * vw && 5 * (b.x + b.w) > 2
            * vw && 10 * c >= 9 * vh {
            let ghost before = rank::ints(ys@);
            ys.push(c as i128);
            assert(rank::ints(ys@) =~= before.push(c as int));
        }
    }
    assert(rank::ints(ys@).len() == ys@.len());
    if ys.len() == 0 {
        return vh * 82 / 100;
    }
    let order = rank::stable_sort(&ys);
    let m: usize = order[ys.len() / 2];
    assert(rank::indices(order@)[ys@.len() as int / 2] == m);
    assert(rank::ints(ys@)[m as int] == ys@[m as int]);
    half(ys[m] as i64)
}

// ── The lines ───────────────────────────────────────────────────────────────

/// A line of the subtitles.
#[derive(Clone, Debug)]
pub struct SubLine {
    pub start: i64,
    pub end: i64,
    pub text: String,
    pub y: i64,
}

/// A line of the subtitles, as a value.
pub struct SubLineModel {
    pub start: int,
    pub end: int,
    pub text: Seq<char>,
    pub y: int,
}

impl View for SubLine {
    type V = SubLineModel;

    open spec fn view(&self) -> SubLineModel {
        SubLineModel {
            start: self.start as int,
            end: self.end as int,
            text: self.text@,
            y: self.y as int,
        }
    }
}

/// The text that the editor gave for the line `id`: the last one given.
pub open spec fn given_text(os: Seq<CaptionOverride>, id: Seq<char>) -> Option<Seq<char>>
    decreases os.len(),
{
    if os.len() == 0 {
        None
    } else if os.last().seg_id@ == id && os.last().text is Some {
        Some(os.last().text->0@)
    } else {
        given_text(os.drop_last(), id)
    }
}

/// What a line shows.
pub open spec fn shown_text(os: Seq<CaptionOverride>, s: Segment) -> Seq<char> {
    match given_text(os, s.id@) {
        Some(t) => t,
        None => s.tgt_text@,
    }
}

/// Whether a line is shown: not where it is hidden or the original is heard, nor without a text.
pub open spec fn is_shown(os: Seq<CaptionOverride>, s: Segment) -> bool {
    !s.hidden && !s.keep_original && text::trimmed(shown_text(os, s)).len() > 0
}

pub open spec fn end_of(s: Segment, total: int) -> int {
    if s.end > 0 {
        s.end as int
    } else {
        total
    }
}

/// The height of the subtitles where nothing else decides.
pub open spec fn sub_y_of(p: Project, vh: int) -> int {
    match p.captions.sub_y {
        Some(y) => y as int,
        None => usual_y(vh),
    }
}

pub open spec fn line_of(p: Project, s: Segment, vw: int, vh: int, total: int) -> SubLineModel {
    SubLineModel {
        start: s.start as int,
        end: end_of(s, total),
        text: shown_text(p.captions.overrides@, s),
        y: line_y(
            p.captions.blur_boxes@,
            p.captions.sub_y_locked,
            sub_y_of(p, vh),
            s.start as int,
            end_of(s, total),
            vw,
            vh,
        ),
    }
}

/// The lines shown of the first `n` of the transcript.
pub open spec fn lines_of(p: Project, vw: int, vh: int, total: int, n: int) -> Seq<SubLineModel>
    decreases n,
{
    if n <= 0 {
        Seq::empty()
    } else {
        let before = lines_of(p, vw, vh, total, n - 1);
        let s = p.segments@[n - 1];
        if is_shown(p.captions.overrides@, s) {
            before.push(line_of(p, s, vw, vh, total))
        } else {
            before
        }
    }
}

/// The lines of the subtitles, in the order of the transcript; none where the mode is "none".
pub open spec fn subtitles_of(p: Project, vw: int, vh: int, total: int) -> Seq<SubLineModel> {
    if p.subs.mode@ == "none"@ {
        Seq::empty()
    } else {
        lines_of(p, vw, vh, total, p.segments@.len() as int)
    }
}

pub open spec fn line_views(ls: Seq<SubLine>) -> Seq<SubLineModel> {
    ls.map_values(|l: SubLine| l@)
}

fn text_of_line(os: &Vec<CaptionOverride>, s: &Segment) -> (r: String)
    ensures
        r@ == shown_text(os@, *s),
{
    let mut n: usize = os.len();
    assert(os@.take(n as int) =~= os@);
    while n > 0
        invariant
            n <= os@.len(),
            given_text(os@, s.id@) == given_text(os@.take(n as int), s.id@),
        decreases n,
    {
        let o = &os[n - 1];
        assert(os@.take(n as int).last() == *o);
        assert(os@.take(n as int).drop_last() =~= os@.take(n - 1));
        if text::same(o.seg_id.as_str(), s.id.as_str()) {
            if let Some(t) = &o.text {
                return t.clone();
            }
        }
        n -= 1;
    }
    s.tgt_text.clone()
}

/// The lines of the subtitles in a frame of `vw` by `vh`, of a film of `total` microseconds.
pub fn subtitles(p: &Project, vw: i64, vh: i64, total: i64) -> (r: Vec<SubLine>)
    requires
        all_placed(p.captions.blur_boxes@),
        crate::project::all_timed(p.segments@),
        time_ok(total),
        0 <= vw <= PIXEL_LIMIT,
        0 <= vh <= PIXEL_LIMIT,
    ensures
        line_views(r@) == subtitles_of(*p, vw as int, vh as int, total as int),
{
    let mut out: Vec<SubLine> = Vec::new();
    assert(line_views(out@) =~= Seq::empty());
    if text::same(p.subs.mode.as_str(), "none") {
        return out;
    }
    let ix = band(&p.captions.blur_boxes);
    let sub_y: i64 = match p.captions.sub_y {
        Some(y) => y,
        None => vh * 82 / 100,
    };
    for n in 0..p.segments.len()
        invariant
            all_placed(p.captions.blur_boxes@),
            crate::project::all_timed(p.segments@),
            time_ok(total),
            0 <= vw <= PIXEL_LIMIT,
            0 <= vh <= PIXEL_LIMIT,
            rank::indices(ix@) == band_of(p.captions.blur_boxes@),
            forall|i: int|
                0 <= i < ix@.len() ==> (#[trigger] ix@[i]) < p.captions.blur_boxes@.len(),
            sub_y == sub_y_of(*p, vh as int),
            line_views(out@) == lines_of(*p, vw as int, vh as int, total as int, n as int),
    {
        let s = &p.segments[n];
        assert(p.segments@[n as int].timed());
        if !s.hidden && !s.keep_original {
            let shown = text_of_line(&p.captions.overrides, s);
            if !text::blank(shown.as_str()) {
                let end: i64 = if s.end > 0 {
                    s.end
                } else {
                    total
                };
                let y: i64 = y_of_line(
                    &p.captions.blur_boxes,
                    &ix,
                    p.captions.sub_y_locked,
                    sub_y,
                    s.start,
                    end,
                    vw,
                    vh,
                );
                let ghost before = line_views(out@);
                let line = SubLine { start: s.start, end, text: shown, y };
                let ghost lv = line@;
                out.push(line);
                assert(line_views(out@) =~= before.push(lv));
            }
        }
    }
    out
}

// ── Blurred areas ───────────────────────────────────────────────────────────

/// Of the first `n` areas, those that are blurred: not the hidden ones, and not the band where no
/// subtitles are drawn.
pub open spec fn blurred_of(boxes: Seq<BlurBox>, no_subs: bool, n: int) -> Seq<int>
    decreases n,
{
    if n <= 0 {
        Seq::empty()
    } else if !boxes[n - 1].hidden && !(no_subs && boxes[n - 1].band) {
        blurred_of(boxes, no_subs, n - 1).push(n - 1)
    } else {
        blurred_of(boxes, no_subs, n - 1)
    }
}

/// The indices of the areas that are blurred.
pub fn collect_blur_boxes(p: &Project) -> (r: Vec<usize>)
    ensures
        rank::indices(r@) == blurred_of(
            p.captions.blur_boxes@,
            p.subs.mode@ == "none"@,
            p.captions.blur_boxes@.len() as int,
        ),
        forall|i: int| 0 <= i < r@.len() ==> (#[trigger] r@[i]) < p.captions.blur_boxes@.len(),
{
    let no_subs = text::same(p.subs.mode.as_str(), "none");
    let boxes = &p.captions.blur_boxes;
    let mut out: Vec<usize> = Vec::new();
    assert(rank::indices(out@) =~= Seq::empty());
    for n in 0..boxes.len()
        invariant
            rank::indices(out@) == blurred_of(boxes@, no_subs, n as int),
            forall|i: int| 0 <= i < out@.len() ==> (#[trigger] out@[i]) < boxes@.len(),
    {
        if !boxes[n].hidden && !(no_subs && boxes[n].band) {
            let ghost before = rank::indices(out@);
            out.push(n);
            assert(rank::indices(out@) =~= before.push(n as int));
        }
    }
    out
}

/// Whether anything is drawn over the picture at all: subtitles, titles or blurred areas, where
/// drawing is wanted.
pub fn draws(p: &Project, titles: usize) -> (r: bool)
    ensures
        r == (p.subs.burn && (p.subs.mode@ != "none"@ || titles > 0 || blurred_of(
            p.captions.blur_boxes@,
            p.subs.mode@ == "none"@,
            p.captions.blur_boxes@.len() as int,
        ).len() > 0)),
{
    let boxes = collect_blur_boxes(p);
    assert(rank::indices(boxes@).len() == boxes@.len());
    p.subs.burn && (!text::same(p.subs.mode.as_str(), "none") || titles > 0 || boxes.len() > 0)
}

// ── Laws ────────────────────────────────────────────────────────────────────

/// Where the editor put the subtitles, every line stands there.
pub proof fn law_locked_height_holds(p: Project, s: Segment, y: i64, vw: int, vh: int, total: int)
    requires
        p.captions.sub_y_locked,
        p.captions.sub_y == Some(y),
    ensures
        line_of(p, s, vw, vh, total).y == y,
{
}

proof fn lemma_visible(boxes: Seq<BlurBox>, n: int)
    requires
        0 <= n <= boxes.len(),
    ensures
        forall|i: int|
            0 <= i < visible_of(boxes, true, n).len() ==> 0 <= #[trigger] visible_of(
                boxes,
                true,
                n,
            )[i] < n && boxes[visible_of(boxes, true, n)[i]].band && !boxes[visible_of(
                boxes,
                true,
                n,
            )[i]].hidden,
    decreases n,
{
    if n > 0 {
        lemma_visible(boxes, n - 1);
        let prev = visible_of(boxes, true, n - 1);
        let now = visible_of(boxes, true, n);
        assert forall|i: int| 0 <= i < now.len() implies 0 <= #[trigger] now[i] < n
            && boxes[now[i]].band && !boxes[now[i]].hidden by {
            if i < prev.len() {
                assert(now[i] == prev[i]);
            }
        }
    }
}

/// Where areas are marked as the band of the original subtitles, no other area draws a line to its
/// height.
pub proof fn law_lines_follow_the_band(boxes: Seq<BlurBox>, i: int)
    requires
        visible_of(boxes, true, boxes.len() as int).len() > 0,
        0 <= i < band_of(boxes).len(),
    ensures
        boxes[band_of(boxes)[i]].band,
        !boxes[band_of(boxes)[i]].hidden,
{
    lemma_visible(boxes, boxes.len() as int);
    assert(band_of(boxes) == visible_of(boxes, true, boxes.len() as int));
    assert(0 <= visible_of(boxes, true, boxes.len() as int)[i]);
}

/// The areas marked as the band of the original subtitles that are not hidden.
pub open spec fn marked_areas(boxes: Seq<BlurBox>) -> Seq<BlurBox> {
    visible_of(boxes, true, boxes.len() as int).map_values(|i: int| boxes[i])
}

proof fn lemma_heights_of_the_same(
    a: Seq<BlurBox>,
    at: Seq<int>,
    b: Seq<BlurBox>,
    bt: Seq<int>,
    st: int,
    en: int,
    vw: int,
    vh: int,
    n: int,
)
    requires
        forall|k: int| 0 <= k < n ==> a[#[trigger] at[k]] == b[bt[k]],
    ensures
        heights(a, at, st, en, vw, vh, n) == heights(b, bt, st, en, vw, vh, n),
    decreases n,
{
    if n > 0 {
        lemma_heights_of_the_same(a, at, b, bt, st, en, vw, vh, n - 1);
        assert(a[at[n - 1]] == b[bt[n - 1]]);
    }
}

proof fn lemma_height_by_the_band(
    a: Seq<BlurBox>,
    b: Seq<BlurBox>,
    locked: bool,
    sub_y: int,
    st: int,
    en: int,
    vw: int,
    vh: int,
)
    requires
        marked_areas(a).len() > 0,
        marked_areas(a) == marked_areas(b),
    ensures
        line_y(a, locked, sub_y, st, en, vw, vh) == line_y(b, locked, sub_y, st, en, vw, vh),
{
    let at = band_of(a);
    let bt = band_of(b);
    assert(marked_areas(a).len() == visible_of(a, true, a.len() as int).len());
    assert(marked_areas(b).len() == visible_of(b, true, b.len() as int).len());
    assert(at == visible_of(a, true, a.len() as int) && bt == visible_of(b, true, b.len() as int));
    assert forall|k: int| 0 <= k < at.len() implies a[#[trigger] at[k]] == b[bt[k]] by {
        assert(marked_areas(a)[k] == a[at[k]]);
        assert(marked_areas(b)[k] == b[bt[k]]);
    }
    lemma_heights_of_the_same(a, at, b, bt, st, en, vw, vh, at.len() as int);
}

proof fn lemma_lines_by_the_band(p: Project, q: Project, vw: int, vh: int, total: int, n: int)
    requires
        0 <= n <= p.segments@.len(),
        p.segments@ == q.segments@,
        p.captions.overrides@ == q.captions.overrides@,
        p.captions.sub_y == q.captions.sub_y,
        p.captions.sub_y_locked == q.captions.sub_y_locked,
        marked_areas(p.captions.blur_boxes@).len() > 0,
        marked_areas(p.captions.blur_boxes@) == marked_areas(q.captions.blur_boxes@),
    ensures
        lines_of(p, vw, vh, total, n) == lines_of(q, vw, vh, total, n),
    decreases n,
{
    if n > 0 {
        lemma_lines_by_the_band(p, q, vw, vh, total, n - 1);
        let s = p.segments@[n - 1];
        lemma_height_by_the_band(
            p.captions.blur_boxes@,
            q.captions.blur_boxes@,
            p.captions.sub_y_locked,
            sub_y_of(p, vh),
            s.start as int,
            end_of(s, total),
            vw,
            vh,
        );
    }
}

/// Where a marked area is visible, hidden areas and areas without the mark change no line: two projects
/// that differ in nothing else show the same.
pub proof fn law_other_areas_change_no_line(p: Project, q: Project, vw: int, vh: int, total: int)
    requires
        p.subs.mode@ == q.subs.mode@,
        p.segments@ == q.segments@,
        p.captions.overrides@ == q.captions.overrides@,
        p.captions.sub_y == q.captions.sub_y,
        p.captions.sub_y_locked == q.captions.sub_y_locked,
        marked_areas(p.captions.blur_boxes@).len() > 0,
        marked_areas(p.captions.blur_boxes@) == marked_areas(q.captions.blur_boxes@),
    ensures
        subtitles_of(p, vw, vh, total) == subtitles_of(q, vw, vh, total),
{
    lemma_lines_by_the_band(p, q, vw, vh, total, p.segments@.len() as int);
}

/// A hidden area is never blurred, and without subtitles the band is not either.
pub proof fn law_blurred(boxes: Seq<BlurBox>, no_subs: bool, n: int)
    requires
        0 <= n <= boxes.len(),
    ensures
        forall|i: int|
            0 <= i < blurred_of(boxes, no_subs, n).len() ==> 0 <= #[trigger] blurred_of(
                boxes,
                no_subs,
                n,
            )[i] < n && !boxes[blurred_of(boxes, no_subs, n)[i]].hidden && !(no_subs
                && boxes[blurred_of(boxes, no_subs, n)[i]].band),
    decreases n,
{
    if n > 0 {
        law_blurred(boxes, no_subs, n - 1);
        let prev = blurred_of(boxes, no_subs, n - 1);
        let now = blurred_of(boxes, no_subs, n);
        assert forall|i: int| 0 <= i < now.len() implies 0 <= #[trigger] now[i] < n
            && !boxes[now[i]].hidden && !(no_subs && boxes[now[i]].band) by {
            if i < prev.len() {
                assert(now[i] == prev[i]);
            }
        }
    }
}

/// Whether `t` is the text of the line `s`: the last one that the editor gave for the line's id, or the
/// line's translation where none was given.
pub open spec fn says(os: Seq<CaptionOverride>, s: Segment, t: Seq<char>) -> bool {
    ||| t == s.tgt_text@ && forall|k: int|
        0 <= k < os.len() ==> (#[trigger] os[k]).seg_id@ != s.id@ || os[k].text is None
    ||| exists|k: int|
        {
            &&& 0 <= k < os.len()
            &&& (#[trigger] os[k]).seg_id@ == s.id@
            &&& os[k].text is Some
            &&& t == os[k].text->0@
            &&& forall|j: int|
                k < j < os.len() ==> (#[trigger] os[j]).seg_id@ != s.id@ || os[j].text is None
        }
}

proof fn lemma_given_text(os: Seq<CaptionOverride>, s: Segment)
    ensures
        given_text(os, s.id@) is None ==> forall|k: int|
            0 <= k < os.len() ==> (#[trigger] os[k]).seg_id@ != s.id@ || os[k].text is None,
        given_text(os, s.id@) matches Some(t) ==> exists|k: int|
            {
                &&& 0 <= k < os.len()
                &&& (#[trigger] os[k]).seg_id@ == s.id@
                &&& os[k].text is Some
                &&& t == os[k].text->0@
                &&& forall|j: int|
                    k < j < os.len() ==> (#[trigger] os[j]).seg_id@ != s.id@ || os[j].text is None
            },
    decreases os.len(),
{
    if os.len() > 0 {
        let n = os.len() - 1;
        if os.last().seg_id@ == s.id@ && os.last().text is Some {
            assert(os[n].text is Some);
        } else {
            let prev = os.drop_last();
            lemma_given_text(prev, s);
            assert(forall|k: int| 0 <= k < n ==> prev[k] == #[trigger] os[k]);
            if given_text(os, s.id@) is Some {
                let t = given_text(os, s.id@)->0;
                let k = choose|k: int|
                    {
                        &&& 0 <= k < prev.len()
                        &&& (#[trigger] prev[k]).seg_id@ == s.id@
                        &&& prev[k].text is Some
                        &&& t == prev[k].text->0@
                        &&& forall|j: int|
                            k < j < prev.len() ==> (#[trigger] prev[j]).seg_id@ != s.id@
                                || prev[j].text is None
                    };
                assert(os[k].text is Some);
                assert forall|j: int| k < j < os.len() implies (#[trigger] os[j]).seg_id@ != s.id@
                    || os[j].text is None by {
                    if j < n {
                        assert(prev[j] == os[j]);
                    }
                }
            }
        }
    }
}

/// Every line has one text.
proof fn lemma_says_one_thing(os: Seq<CaptionOverride>, s: Segment, t: Seq<char>)
    ensures
        says(os, s, t) <==> t == shown_text(os, s),
{
    lemma_given_text(os, s);
    if says(os, s, t) && t != shown_text(os, s) {
        if given_text(os, s.id@) is Some {
            let g = given_text(os, s.id@)->0;
            let a = choose|k: int|
                {
                    &&& 0 <= k < os.len()
                    &&& (#[trigger] os[k]).seg_id@ == s.id@
                    &&& os[k].text is Some
                    &&& g == os[k].text->0@
                    &&& forall|j: int|
                        k < j < os.len() ==> (#[trigger] os[j]).seg_id@ != s.id@ || os[j].text is None
                };
            assert(os[a].text is Some);
            let b = choose|k: int|
                {
                    &&& 0 <= k < os.len()
                    &&& (#[trigger] os[k]).seg_id@ == s.id@
                    &&& os[k].text is Some
                    &&& t == os[k].text->0@
                    &&& forall|j: int|
                        k < j < os.len() ==> (#[trigger] os[j]).seg_id@ != s.id@ || os[j].text is None
                };
            assert(os[b].text is Some);
            assert(a == b);
        }
    }
}

proof fn lemma_lines(p: Project, vw: int, vh: int, total: int, n: int) -> (ix: Seq<int>)
    requires
        0 <= n <= p.segments@.len(),
    ensures
        ix.len() == lines_of(p, vw, vh, total, n).len(),
        forall|k: int| 0 <= k < ix.len() ==> 0 <= #[trigger] ix[k] < n,
        forall|j: int, k: int| 0 <= j < k < ix.len() ==> #[trigger] ix[j] < #[trigger] ix[k],
        forall|k: int|
            0 <= k < ix.len() ==> #[trigger] lines_of(p, vw, vh, total, n)[k] == line_of(
                p,
                p.segments@[ix[k]],
                vw,
                vh,
                total,
            ),
        forall|i: int|
            0 <= i < n ==> (#[trigger] ix.contains(i) <==> is_shown(
                p.captions.overrides@,
                p.segments@[i],
            )),
    decreases n,
{
    if n <= 0 {
        Seq::empty()
    } else {
        let was = lemma_lines(p, vw, vh, total, n - 1);
        if is_shown(p.captions.overrides@, p.segments@[n - 1]) {
            let ix = was.push(n - 1);
            assert forall|i: int| 0 <= i < n implies (#[trigger] ix.contains(i) <==> is_shown(
                p.captions.overrides@,
                p.segments@[i],
            )) by {
                if i == n - 1 {
                    assert(ix[was.len() as int] == i);
                } else {
                    if was.contains(i) {
                        let k = choose|k: int| 0 <= k < was.len() && was[k] == i;
                        assert(ix[k] == i);
                    }
                    if ix.contains(i) {
                        let k = choose|k: int| 0 <= k < ix.len() && ix[k] == i;
                        assert(was[k] == i);
                    }
                }
            }
            assert forall|k: int| 0 <= k < ix.len() implies #[trigger] lines_of(p, vw, vh, total, n)[k]
                == line_of(p, p.segments@[ix[k]], vw, vh, total) by {
                if k < was.len() {
                    assert(lines_of(p, vw, vh, total, n)[k] == lines_of(p, vw, vh, total, n - 1)[k]);
                }
            }
            ix
        } else {
            assert forall|i: int| 0 <= i < n implies (#[trigger] was.contains(i) <==> is_shown(
                p.captions.overrides@,
                p.segments@[i],
            )) by {
                if i == n - 1 && was.contains(i) {
                    let k = choose|k: int| 0 <= k < was.len() && was[k] == i;
                    assert(was[k] < n - 1);
                }
            }
            was
        }
    }
}

/// What the subtitles show. In the order of the transcript there is a line for each one that is neither
/// hidden nor heard in the original and has a text: the one that the editor gave last for it, or its
/// translation. It begins with the line and ends with it, or with the film where the line has no end. The
/// result tells of which lines of the transcript they are.
pub proof fn law_subtitles_show_the_translation(p: Project, vw: int, vh: int, total: int) -> (ix: Seq<
    int,
>)
    requires
        p.subs.mode@ != "none"@,
    ensures
        ({
            let r = subtitles_of(p, vw, vh, total);
            let os = p.captions.overrides@;
            let segs = p.segments@;
            &&& ix.len() == r.len()
            &&& forall|j: int, k: int| 0 <= j < k < ix.len() ==> #[trigger] ix[j] < #[trigger] ix[k]
            &&& forall|k: int|
                0 <= k < ix.len() ==> {
                    &&& 0 <= #[trigger] ix[k] < segs.len()
                    &&& says(os, segs[ix[k]], r[k].text)
                    &&& r[k].start == segs[ix[k]].start
                    &&& r[k].end == (if segs[ix[k]].end > 0 {
                        segs[ix[k]].end as int
                    } else {
                        total
                    })
                }
            &&& forall|i: int, t: Seq<char>|
                0 <= i < segs.len() && #[trigger] says(os, segs[i], t) ==> (ix.contains(i)
                    <==> !segs[i].hidden && !segs[i].keep_original && text::trimmed(t).len() > 0)
        }),
{
    let r = subtitles_of(p, vw, vh, total);
    let os = p.captions.overrides@;
    let segs = p.segments@;
    let ix = lemma_lines(p, vw, vh, total, segs.len() as int);
    assert forall|k: int| 0 <= k < ix.len() implies {
        &&& 0 <= #[trigger] ix[k] < segs.len()
        &&& says(os, segs[ix[k]], r[k].text)
        &&& r[k].start == segs[ix[k]].start
        &&& r[k].end == (if segs[ix[k]].end > 0 {
            segs[ix[k]].end as int
        } else {
            total
        })
    } by {
        assert(r[k] == line_of(p, segs[ix[k]], vw, vh, total));
        lemma_says_one_thing(os, segs[ix[k]], r[k].text);
    }
    assert forall|i: int, t: Seq<char>|
        0 <= i < segs.len() && #[trigger] says(os, segs[i], t) implies (ix.contains(i)
        <==> !segs[i].hidden && !segs[i].keep_original && text::trimmed(t).len() > 0) by {
        lemma_says_one_thing(os, segs[i], t);
    }
    ix
}

/// Where the mode is "none" nothing is shown.
pub proof fn law_no_subtitles(p: Project, vw: int, vh: int, total: int)
    requires
        p.subs.mode@ == "none"@,
    ensures
        subtitles_of(p, vw, vh, total).len() == 0,
{
}

/// Two lines of the transcript that differ in nothing but their source texts, their speakers and voices.
pub open spec fn same_but_for_the_source(a: Segment, b: Segment) -> bool {
    &&& a.id@ == b.id@
    &&& a.start == b.start
    &&& a.end == b.end
    &&& a.tgt_text@ == b.tgt_text@
    &&& a.hidden == b.hidden
    &&& a.keep_original == b.keep_original
}

proof fn lemma_source_is_not_shown(p: Project, q: Project, vw: int, vh: int, total: int, n: int)
    requires
        0 <= n <= p.segments@.len(),
        p.segments@.len() == q.segments@.len(),
        p.captions == q.captions,
        forall|i: int|
            0 <= i < p.segments@.len() ==> same_but_for_the_source(
                #[trigger] p.segments@[i],
                q.segments@[i],
            ),
    ensures
        lines_of(p, vw, vh, total, n) == lines_of(q, vw, vh, total, n),
    decreases n,
{
    if n > 0 {
        lemma_source_is_not_shown(p, q, vw, vh, total, n - 1);
        assert(same_but_for_the_source(p.segments@[n - 1], q.segments@[n - 1]));
    }
}

/// What is shown does not depend on the source texts: two projects whose lines differ in them alone show the
/// same.
pub proof fn law_source_is_not_shown(p: Project, q: Project, vw: int, vh: int, total: int)
    requires
        p.subs.mode@ == q.subs.mode@,
        p.captions == q.captions,
        p.segments@.len() == q.segments@.len(),
        forall|i: int|
            0 <= i < p.segments@.len() ==> same_but_for_the_source(
                #[trigger] p.segments@[i],
                q.segments@[i],
            ),
    ensures
        subtitles_of(p, vw, vh, total) == subtitles_of(q, vw, vh, total),
{
    lemma_source_is_not_shown(p, q, vw, vh, total, p.segments@.len() as int);
}

proof fn lemma_visible_all(boxes: Seq<BlurBox>, tagged: bool, n: int)
    requires
        0 <= n <= boxes.len(),
    ensures
        forall|k: int|
            0 <= k < visible_of(boxes, tagged, n).len() ==> 0 <= #[trigger] visible_of(boxes, tagged, n)[k]
                < n,
        forall|j: int, k: int|
            0 <= j < k < visible_of(boxes, tagged, n).len() ==> #[trigger] visible_of(boxes, tagged, n)[j]
                < #[trigger] visible_of(boxes, tagged, n)[k],
        forall|i: int|
            0 <= i < n ==> (#[trigger] visible_of(boxes, tagged, n).contains(i) <==> !boxes[i].hidden && (
            tagged ==> boxes[i].band)),
    decreases n,
{
    if n > 0 {
        lemma_visible_all(boxes, tagged, n - 1);
        let was = visible_of(boxes, tagged, n - 1);
        let now = visible_of(boxes, tagged, n);
        assert forall|i: int| 0 <= i < n implies (#[trigger] now.contains(i) <==> !boxes[i].hidden && (
        tagged ==> boxes[i].band)) by {
            if was.contains(i) {
                let k = choose|k: int| 0 <= k < was.len() && was[k] == i;
                assert(now[k] == i);
            }
            if now.contains(i) {
                let k = choose|k: int| 0 <= k < now.len() && now[k] == i;
                if k < was.len() {
                    assert(was[k] == i);
                    assert(was.contains(i));
                }
            }
            if i == n - 1 && now.len() > was.len() {
                assert(now[was.len() as int] == i);
            }
        }
    }
}

/// The lines follow exactly the areas that are marked as the band of the original subtitles and not hidden;
/// where there is none of them, all that are not hidden. They are looked at in their order.
pub proof fn law_band_is_what_is_marked(boxes: Seq<BlurBox>)
    ensures
        forall|j: int, k: int|
            0 <= j < k < band_of(boxes).len() ==> #[trigger] band_of(boxes)[j]
                < #[trigger] band_of(boxes)[k],
        forall|k: int| 0 <= k < band_of(boxes).len() ==> 0 <= #[trigger] band_of(boxes)[k] < boxes.len(),
        forall|i: int|
            0 <= i < boxes.len() ==> (#[trigger] band_of(boxes).contains(i) <==> !boxes[i].hidden && (
            boxes[i].band || forall|m: int|
                0 <= m < boxes.len() ==> (#[trigger] boxes[m]).hidden || !boxes[m].band)),
{
    let n = boxes.len() as int;
    lemma_visible_all(boxes, true, n);
    lemma_visible_all(boxes, false, n);
    let marked = visible_of(boxes, true, n);
    if marked.len() == 0 {
        assert forall|m: int| 0 <= m < n implies (#[trigger] boxes[m]).hidden || !boxes[m].band by {
            assert(!marked.contains(m));
        }
    } else {
        let m = marked[0];
        assert(marked.contains(m));
        assert(!(boxes[m].hidden || !boxes[m].band));
    }
}

proof fn lemma_heights_are_picked(
    boxes: Seq<BlurBox>,
    ix: Seq<int>,
    st: int,
    en: int,
    vw: int,
    vh: int,
    n: int,
    f: spec_fn(int) -> bool,
)
    requires
        0 <= n <= ix.len(),
        forall|i: int| #[trigger] f(i) <==> under_line(boxes[i], st, en, vw, vh),
    ensures
        heights(boxes, ix, st, en, vw, vh, n) == ix.take(n).filter(f).map_values(
            |i: int| 2 * boxes[i].y + boxes[i].h,
        ),
    decreases n,
{
    let g = |i: int| 2 * boxes[i].y + boxes[i].h;
    reveal(Seq::filter);
    if n > 0 {
        lemma_heights_are_picked(boxes, ix, st, en, vw, vh, n - 1, f);
        let t = ix.take(n);
        assert(t.drop_last() =~= ix.take(n - 1));
        assert(t.last() == ix[n - 1]);
        let was = ix.take(n - 1).filter(f);
        if f(ix[n - 1]) {
            assert(t.filter(f) == was.push(ix[n - 1]));
            assert(t.filter(f).map_values(g) =~= was.map_values(g).push(g(ix[n - 1])));
        }
    } else {
        assert(ix.take(0).filter(f).map_values(g) =~= Seq::<int>::empty());
    }
}

/// Where a line stands that the editor has not put anywhere: with fewer than three areas to follow at the
/// chosen height, and where none of them is seen at the time of the line, in the middle and in the lower 55
/// hundredths of the picture, at 82 hundredths. Else at the middle one of the heights at which those areas
/// are centred.
pub proof fn law_line_stands_at_the_middle_of_the_band(
    boxes: Seq<BlurBox>,
    sub_y: int,
    st: int,
    en: int,
    vw: int,
    vh: int,
) -> (o: Seq<int>)
    ensures
        ({
            let y = line_y(boxes, false, sub_y, st, en, vw, vh);
            let seen = band_of(boxes).filter(
                |i: int|
                    {
                        &&& boxes[i].t0 < en + 300_000 && st - 300_000 < boxes[i].t1
                        &&& 100 * boxes[i].x < 60 * vw && 40 * vw < 100 * (boxes[i].x + boxes[i].w)
                        &&& 100 * (2 * boxes[i].y + boxes[i].h) >= 90 * vh
                    },
            );
            let centres = seen.map_values(|i: int| 2 * boxes[i].y + boxes[i].h);
            let mid = centres[o[centres.len() as int / 2]];
            &&& band_of(boxes).len() < 3 ==> y == sub_y
            &&& band_of(boxes).len() >= 3 && seen.len() == 0 ==> y == 82 * vh / 100
            &&& band_of(boxes).len() >= 3 && seen.len() > 0 ==> {
                &&& rank::is_order(o, centres)
                &&& y == (if mid >= 0 {
                    mid / 2
                } else {
                    -(-mid / 2)
                })
            }
        }),
{
    let ix = band_of(boxes);
    let f = |i: int|
        {
            &&& boxes[i].t0 < en + 300_000 && st - 300_000 < boxes[i].t1
            &&& 100 * boxes[i].x < 60 * vw && 40 * vw < 100 * (boxes[i].x + boxes[i].w)
            &&& 100 * (2 * boxes[i].y + boxes[i].h) >= 90 * vh
        };
    assert forall|i: int| #[trigger] f(i) <==> under_line(boxes[i], st, en, vw, vh) by {}
    lemma_heights_are_picked(boxes, ix, st, en, vw, vh, ix.len() as int, f);
    assert(ix.take(ix.len() as int) =~= ix);
    let keys = ix.filter(f).map_values(|i: int| 2 * boxes[i].y + boxes[i].h);
    rank::law_stable_order(keys);
    rank::stable_order(keys)
}

/// Every area that is not hidden is blurred, but the band where there are no subtitles, and no other, in
/// their order.
pub proof fn law_blurred_is_what_is_not_hidden(boxes: Seq<BlurBox>, no_subs: bool, n: int)
    requires
        0 <= n <= boxes.len(),
    ensures
        forall|j: int, k: int|
            0 <= j < k < blurred_of(boxes, no_subs, n).len() ==> #[trigger] blurred_of(boxes, no_subs, n)[j]
                < #[trigger] blurred_of(boxes, no_subs, n)[k],
        forall|i: int|
            0 <= i < n ==> (#[trigger] blurred_of(boxes, no_subs, n).contains(i) <==> !boxes[i].hidden && !(
            no_subs && boxes[i].band)),
    decreases n,
{
    if n > 0 {
        law_blurred_is_what_is_not_hidden(boxes, no_subs, n - 1);
        law_blurred(boxes, no_subs, n);
        law_blurred(boxes, no_subs, n - 1);
        let was = blurred_of(boxes, no_subs, n - 1);
        let now = blurred_of(boxes, no_subs, n);
        assert forall|i: int| 0 <= i < n implies (#[trigger] now.contains(i) <==> !boxes[i].hidden && !(
        no_subs && boxes[i].band)) by {
            if was.contains(i) {
                let k = choose|k: int| 0 <= k < was.len() && was[k] == i;
                assert(now[k] == i);
            }
            if now.contains(i) {
                let k = choose|k: int| 0 <= k < now.len() && now[k] == i;
                if k < was.len() {
                    assert(was[k] == i);
                    assert(was.contains(i));
                }
            }
            if i == n - 1 && now.len() > was.len() {
                assert(now[was.len() as int] == i);
            }
        }
        assert forall|j: int, k: int| 0 <= j < k < now.len() implies #[trigger] now[j]
            < #[trigger] now[k] by {
            assert(now[j] == was[j]);
            if k < was.len() {
                assert(now[k] == was[k]);
            }
        }
    }
}

} // verus!
