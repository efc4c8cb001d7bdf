//! The titles that are drawn: which captions on the screen belong to a described title, and so where and
//! when it stands.

use crate::captions;
use crate::compose::reading;
use crate::compose::reading::ComposeCtx;
use crate::compose::reading::Described;
use crate::compose::reading::DescribedModel;
use crate::compose::reading::Region;
use crate::pick;
use crate::project;
use crate::rank;
use crate::text;
use crate::words;
use vstd::prelude::*;

verus! {

// ── Words ───────────────────────────────────────────────────────────────────

pub open spec fn word_char(c: char) -> bool {
    text::alphanumeric(c) || c == '_'
}

/// The words of three characters and more that end in the text, in small letters.
pub open spec fn ended_words(s: Seq<char>) -> Seq<Seq<char>>
    decreases s.len(),
{
    if s.len() == 0 {
        Seq::empty()
    } else if word_char(s.last()) {
        ended_words(s.drop_last())
    } else {
        kept(ended_words(s.drop_last()), open_word(s.drop_last()))
    }
}

/// The word at the end of the text.
pub open spec fn open_word(s: Seq<char>) -> Seq<char>
    decreases s.len(),
{
    if s.len() == 0 || !word_char(s.last()) {
        Seq::empty()
    } else {
        open_word(s.drop_last()).push(s.last())
    }
}

/// The list with the word, if that is long enough.
pub open spec fn kept(list: Seq<Seq<char>>, word: Seq<char>) -> Seq<Seq<char>> {
    if word.len() >= 3 {
        list.push(text::lowercase(word))
    } else {
        list
    }
}

/// The words of three characters and more, in small letters.
pub open spec fn long_words(s: Seq<char>) -> Seq<Seq<char>> {
    kept(ended_words(s), open_word(s))
}

fn keep(list: &mut Vec<String>, word: &Vec<char>)
    ensures
        text::views(final(list)@) == kept(text::views(old(list)@), word@),
{
    if word.len() >= 3 {
        let ghost was = text::views(list@);
        let w = text::to_lower(text::text_of(word).as_str());
        list.push(w);
        assert(text::views(list@) =~= was.push(text::lowercase(word@)));
    }
}

/// The words of three characters and more, in small letters.
pub fn words3(s: &str) -> (r: Vec<String>)
    ensures
        text::views(r@) == long_words(s@),
{
    let v = text::chars_of(s);
    let mut out: Vec<String> = Vec::new();
    let mut word: Vec<char> = Vec::new();
    assert(v@.take(0) =~= Seq::empty());
    assert(text::views(out@) =~= Seq::empty());
    for i in 0..v.len()
        invariant
            text::views(out@) == ended_words(v@.take(i as int)),
            word@ == open_word(v@.take(i as int)),
    {
        assert(v@.take(i + 1).drop_last() =~= v@.take(i as int));
        let c = v[i];
        if text::is_alphanumeric(c) || c == '_' {
            word.push(c);
        } else {
            keep(&mut out, &word);
            word = Vec::new();
        }
    }
    assert(v@.take(v@.len() as int) =~= v@);
    keep(&mut out, &word);
    out
}

/// The lists have a word in common.
pub open spec fn share_a_word(a: Seq<Seq<char>>, b: Seq<Seq<char>>) -> bool {
    exists|i: int, j: int| 0 <= i < a.len() && 0 <= j < b.len() && #[trigger] a[i] == #[trigger] b[j]
}

fn have_common(a: &Vec<String>, b: &Vec<String>) -> (r: bool)
    ensures
        r == share_a_word(text::views(a@), text::views(b@)),
{
    let ghost av = text::views(a@);
    let ghost bv = text::views(b@);
    for i in 0..a.len()
        invariant
            av == text::views(a@),
            bv == text::views(b@),
            forall|x: int, y: int|
                0 <= x < i && 0 <= y < bv.len() ==> #[trigger] av[x] != #[trigger] bv[y],
    {
        for j in 0..b.len()
            invariant
                av == text::views(a@),
                bv == text::views(b@),
                i < a@.len(),
                forall|y: int| 0 <= y < j ==> av[i as int] != #[trigger] bv[y],
        {
            if text::same(a[i].as_str(), b[j].as_str()) {
                assert(av[i as int] == bv[j as int]);
                return true;
            }
        }
    }
    false
}

// ── Titles ──────────────────────────────────────────────────────────────────

/// A title that is drawn.
#[derive(Clone, Debug)]
pub struct Block {
    pub x: i64,
    pub y: i64,
    pub w: i64,
    pub h: i64,
    pub text: String,
    pub start: i64,
    pub end: i64,
    /// The height of a line.
    pub lh: i64,
    pub color: Option<String>,
    pub bg: Option<String>,
    pub solid: bool,
    pub align: String,
    pub bold: bool,
    pub italic: bool,
    pub font: Option<String>,
}

/// A title that is drawn, as a value.
pub struct BlockModel {
    pub spot: Spot,
    pub text: Seq<char>,
    pub color: Option<Seq<char>>,
    pub bg: Option<Seq<char>>,
    pub solid: bool,
    pub align: Seq<char>,
    pub bold: bool,
    pub italic: bool,
    pub font: Option<Seq<char>>,
}

/// Where and when a title stands.
pub struct Spot {
    pub x: int,
    pub y: int,
    pub w: int,
    pub h: int,
    pub start: int,
    pub end: int,
    pub lh: int,
}

impl View for Block {
    type V = BlockModel;

    open spec fn view(&self) -> BlockModel {
        BlockModel {
            spot: Spot {
                x: self.x as int,
                y: self.y as int,
                w: self.w as int,
                h: self.h as int,
                start: self.start as int,
                end: self.end as int,
                lh: self.lh as int,
            },
            text: self.text@,
            color: reading::opt(self.color),
            bg: reading::opt(self.bg),
            solid: self.solid,
            align: self.align@,
            bold: self.bold,
            italic: self.italic,
            font: reading::opt(self.font),
        }
    }
}

pub open spec fn block_views(v: Seq<Block>) -> Seq<BlockModel> {
    v.map_values(|b: Block| b@)
}

/// The titles that have a translation.
pub open spec fn translated(ts: Seq<DescribedModel>) -> Seq<DescribedModel>
    decreases ts.len(),
{
    if ts.len() == 0 {
        Seq::empty()
    } else if text::trimmed(ts.last().tgt).len() > 0 {
        translated(ts.drop_last()).push(ts.last())
    } else {
        translated(ts.drop_last())
    }
}

pub open spec fn heights(ts: Seq<DescribedModel>) -> Seq<int> {
    ts.map_values(|t: DescribedModel| t.y)
}

/// The titles from the top of the picture down.
pub open spec fn from_the_top(ts: Seq<DescribedModel>) -> Seq<DescribedModel> {
    let o = rank::stable_order(heights(ts));
    Seq::new(o.len(), |i: int| ts[o[i]])
}

/// Titles that stand this close, in millionths of the picture, are one.
pub const SAME_LINE: i64 = 60_000;

pub open spec fn same_line(a: int, b: int) -> bool {
    -SAME_LINE <= a - b <= SAME_LINE
}

/// Two titles of one line: the first with both translations.
pub open spec fn with_line(a: DescribedModel, b: DescribedModel) -> DescribedModel {
    DescribedModel { tgt: text::trimmed(a.tgt + "\n"@ + b.tgt), ..a }
}

/// The titles with those of one line made one.
pub open spec fn merged(ts: Seq<DescribedModel>) -> Seq<DescribedModel>
    decreases ts.len(),
{
    if ts.len() == 0 {
        Seq::empty()
    } else {
        let before = merged(ts.drop_last());
        let t = ts.last();
        if before.len() > 0 && same_line(t.y, before.last().y) {
            before.update(before.len() - 1, with_line(before.last(), t))
        } else {
            before.push(t)
        }
    }
}

/// The titles that are drawn: those with a translation, from the top down, those of one line made one.
pub open spec fn drawn_titles(ts: Seq<DescribedModel>) -> Seq<DescribedModel> {
    merged(from_the_top(translated(ts)))
}

fn copy_opt(s: &Option<String>) -> (r: Option<String>)
    ensures
        reading::opt(r) == reading::opt(*s),
{
    match s {
        Some(t) => Some(t.clone()),
        None => None,
    }
}

fn copy_described(d: &Described) -> (r: Described)
    ensures
        r@ == d@,
        r.y == d.y,
{
    Described {
        text: d.text.clone(),
        tgt: d.tgt.clone(),
        y: d.y,
        color: copy_opt(&d.color),
        outline: copy_opt(&d.outline),
        bg: copy_opt(&d.bg),
        font: copy_opt(&d.font),
        align: copy_opt(&d.align),
        solid: d.solid,
        bold: d.bold,
        italic: d.italic,
    }
}

fn only_translated(ts: &Vec<Described>) -> (r: Vec<Described>)
    requires
        reading::all_shares_ok(ts@),
    ensures
        reading::described_views(r@) == translated(reading::described_views(ts@)),
        reading::all_shares_ok(r@),
{
    let ghost tv = reading::described_views(ts@);
    let mut out: Vec<Described> = Vec::new();
    assert(tv.take(0) =~= Seq::empty());
    assert(reading::described_views(out@) =~= Seq::empty());
    for i in 0..ts.len()
        invariant
            tv == reading::described_views(ts@),
            reading::all_shares_ok(ts@),
            reading::all_shares_ok(out@),
            reading::described_views(out@) == translated(tv.take(i as int)),
    {
        assert(tv.take(i + 1).drop_last() =~= tv.take(i as int));
        assert(tv.take(i + 1).last() == ts@[i as int]@);
        assert(project::time_ok(ts@[i as int].y));
        if !text::blank(ts[i].tgt.as_str()) {
            let ghost was = reading::described_views(out@);
            out.push(copy_described(&ts[i]));
            assert(reading::described_views(out@) =~= was.push(ts@[i as int]@));
        }
    }
    assert(tv.take(tv.len() as int) =~= tv);
    out
}

/// The titles that are drawn: those with a translation, from the top down, those of one line made one.
pub fn merge_titles_by_y(ts: &Vec<Described>) -> (r: Vec<Described>)
    requires
        reading::all_shares_ok(ts@),
    ensures
        reading::described_views(r@) == drawn_titles(reading::described_views(ts@)),
        reading::all_shares_ok(r@),
{
    let good = only_translated(ts);
    let ghost gv = reading::described_views(good@);
    let mut keys: Vec<i128> = Vec::new();
    for i in 0..good.len()
        invariant
            keys@.len() == i,
            forall|j: int| 0 <= j < i ==> #[trigger] keys@[j] == good@[j].y,
    {
        keys.push(good[i].y as i128);
    }
    assert(rank::ints(keys@) =~= heights(gv));
    let order = rank::stable_sort(&keys);
    let ghost o = rank::indices(order@);
    let ghost down = from_the_top(gv);
    let mut out: Vec<Described> = Vec::new();
    assert(down.take(0) =~= Seq::empty());
    assert(reading::described_views(out@) =~= Seq::empty());
    for i in 0..order.len()
        invariant
            gv == reading::described_views(good@),
            o == rank::indices(order@),
            o == rank::stable_order(heights(gv)),
            down == from_the_top(gv),
            heights(gv).len() == good@.len(),
            rank::is_order(o, heights(gv)),
            reading::all_shares_ok(good@),
            reading::all_shares_ok(out@),
            reading::described_views(out@) == merged(down.take(i as int)),
    {
        assert(down.take(i + 1).drop_last() =~= down.take(i as int));
        let x: usize = order[i];
        assert(o[i as int] == x);
        assert(down.take(i + 1).last() == good@[x as int]@);
        assert(project::time_ok(good@[x as int].y));
        let t = copy_described(&good[x]);
        let ghost was = reading::described_views(out@);
        let n: usize = out.len();
        if n > 0 {
            assert(was.last() == out@[n - 1]@);
            assert(project::time_ok(out@[n - 1].y));
        }
        if n > 0 && -SAME_LINE <= t.y - out[n - 1].y && t.y - out[n - 1].y <= SAME_LINE {
            let mut both = out[n - 1].tgt.clone();
            both.append("\n");
            both.append(t.tgt.as_str());
            out[n - 1].tgt = text::trim(both.as_str());
            assert(reading::described_views(out@) =~= was.update(n - 1, with_line(was.last(), t@)));
        } else {
            out.push(t);
            assert(reading::described_views(out@) =~= was.push(t@));
        }
    }
    assert(down.take(down.len() as int) =~= down);
    out
}

// ── Where a title stands ────────────────────────────────────────────────────

/// The first of the titles whose heights are nearest to that of a caption.
pub open spec fn nearest(ys: Seq<int>, mid: int, vh: int) -> int
    decreases ys.len(),
{
    if ys.len() <= 1 {
        0
    } else {
        let k = nearest(ys.drop_last(), mid, vh);
        if reading::away(mid, ys.last(), vh) < reading::away(mid, ys[k], vh) {
            ys.len() - 1
        } else {
            k
        }
    }
}

pub open spec fn shares(ts: Seq<Described>) -> Seq<int> {
    ts.map_values(|t: Described| t.y as int)
}

/// The first of the titles whose heights are nearest to that of a caption; `mid` is twice its height.
pub fn nearest_title(ts: &Vec<Described>, mid: i128, vh: i64) -> (r: usize)
    requires
        -4_000_000_000 <= mid <= 4_000_000_000,
    ensures
        r == nearest(shares(ts@), mid as int, vh as int),
        ts@.len() > 0 ==> r < ts@.len(),
{
    let ghost ys = shares(ts@);
    let mut best: usize = 0;
    if ts.len() == 0 {
        return 0;
    }
    for n in 1..ts.len()
        invariant
            ts@.len() > 0,
            ys == shares(ts@),
            -4_000_000_000 <= mid <= 4_000_000_000,
            best < n,
            best == nearest(ys.take(n as int), mid as int, vh as int),
    {
        assert(ys.take(n + 1).drop_last() =~= ys.take(n as int));
        if reading::apart(mid, ts[n].y, vh) < reading::apart(mid, ts[best].y, vh) {
            best = n;
        }
    }
    assert(ys.take(ys.len() as int) =~= ys);
    best
}

/// The caption is near the title `ti`, and near no other title as much: within 13 hundredths of the
/// picture.
pub open spec fn near(rs: Seq<Region>, ys: Seq<int>, ti: int, vh: int, i: int) -> bool {
    reading::away(rs[i].mid(), ys[ti], vh) <= vh * 130_000 && nearest(ys, rs[i].mid(), vh) == ti
}

/// The captions near the title.
pub open spec fn candidates(rs: Seq<Region>, ys: Seq<int>, ti: int, vh: int) -> Seq<int> {
    pick::picked(rs.len(), |i: int| near(rs, ys, ti, vh, i))
}

/// The captions near the title that have a word in common with it.
pub open spec fn matching(rs: Seq<Region>, ys: Seq<int>, ti: int, vh: int, title: Seq<char>) -> Seq<
    int,
> {
    pick::picked(
        rs.len(),
        |i: int|
            near(rs, ys, ti, vh, i) && share_a_word(long_words(title), long_words(rs[i].text@)),
    )
}

/// The captions that make up the title.
pub open spec fn parts(rs: Seq<Region>, ys: Seq<int>, ti: int, vh: int, title: Seq<char>) -> Seq<int> {
    let m = matching(rs, ys, ti, vh, title);
    if m.len() > 0 {
        m
    } else {
        candidates(rs, ys, ti, vh)
    }
}

pub open spec fn least(a: int, b: int) -> int {
    if b < a {
        b
    } else {
        a
    }
}

pub open spec fn most(a: int, b: int) -> int {
    if b > a {
        b
    } else {
        a
    }
}

/// The edges of what holds the captions.
pub struct Edges {
    pub x0: int,
    pub y0: int,
    pub x1: int,
    pub y1: int,
    pub start: int,
    pub end: int,
    pub lh: int,
}

pub open spec fn edges_of(q: Region) -> Edges {
    Edges {
        x0: q.x as int,
        y0: q.y as int,
        x1: q.x + q.w,
        y1: q.y + q.h,
        start: q.t0 as int,
        end: q.t1 as int,
        lh: q.h as int,
    }
}

/// What holds the captions at the given places: all of their area, all of their time, the height of the
/// lowest.
pub open spec fn around(rs: Seq<Region>, at: Seq<int>) -> Edges
    decreases at.len(),
{
    if at.len() == 0 {
        edges_of(rs[0])
    } else if at.len() == 1 {
        edges_of(rs[at[0]])
    } else {
        let e = around(rs, at.drop_last());
        let q = edges_of(rs[at.last()]);
        Edges {
            x0: least(e.x0, q.x0),
            y0: least(e.y0, q.y0),
            x1: most(e.x1, q.x1),
            y1: most(e.y1, q.y1),
            start: least(e.start, q.start),
            end: most(e.end, q.end),
            lh: least(e.lh, q.lh),
        }
    }
}

/// Toward zero.
pub open spec fn toward_zero(a: int, d: int) -> int {
    if a >= 0 {
        a / d
    } else {
        -((-a) / d)
    }
}

fn divide(a: i128, d: i128) -> (r: i128)
    requires
        d > 0,
        a > i128::MIN,
    ensures
        r == toward_zero(a as int, d as int),
{
    if a >= 0 {
        a / d
    } else {
        -((-a) / d)
    }
}

/// Where a title stands that no caption was found for: a band across the picture at its height.
pub open spec fn band(y: int, c: ComposeCtx) -> Spot {
    let x0 = c.vw * 8 / 100;
    let x1 = c.vw * 92 / 100;
    let y0 = toward_zero(y * c.vh - c.vh * 45_000, 1_000_000);
    let y1 = toward_zero(y * c.vh + c.vh * 45_000, 1_000_000);
    Spot {
        x: x0,
        y: y0,
        w: x1 - x0,
        h: y1 - y0,
        start: 0,
        end: least(c.total as int, 4_000_000),
        lh: c.vh * 5 / 100,
    }
}

/// Where and when the title `ti` stands.
pub open spec fn spot_of(rs: Seq<Region>, ts: Seq<DescribedModel>, ti: int, c: ComposeCtx) -> Spot {
    let at = parts(rs, heights(ts), ti, c.vh as int, ts[ti].text);
    if at.len() > 0 {
        let e = around(rs, at);
        Spot {
            x: e.x0,
            y: e.y0,
            w: e.x1 - e.x0,
            h: e.y1 - e.y0,
            start: e.start,
            end: e.end,
            lh: e.lh,
        }
    } else {
        band(ts[ti].y, c)
    }
}

pub open spec fn or(b: Option<bool>, d: bool) -> bool {
    match b {
        Some(x) => x,
        None => d,
    }
}

/// The title `ti` as it is drawn.
pub open spec fn block_of(rs: Seq<Region>, ts: Seq<DescribedModel>, ti: int, c: ComposeCtx) -> BlockModel {
    let t = ts[ti];
    BlockModel {
        spot: spot_of(rs, ts, ti, c),
        text: t.tgt,
        color: t.color,
        bg: t.bg,
        solid: or(t.solid, false),
        align: match t.align {
            Some(a) => a,
            None => "center"@,
        },
        bold: or(t.bold, true),
        italic: or(t.italic, false),
        font: t.font,
    }
}

/// The titles as they are drawn.
pub open spec fn blocks_of(rs: Seq<Region>, ts: Seq<DescribedModel>, c: ComposeCtx) -> Seq<BlockModel> {
    Seq::new(ts.len(), |i: int| block_of(rs, ts, i, c))
}

fn find_parts(rs: &Vec<Region>, ts: &Vec<Described>, ti: usize, vh: i64) -> (r: Vec<usize>)
    requires
        reading::all_placed(rs@),
        ti < ts@.len(),
        0 <= vh <= captions::PIXEL_LIMIT,
    ensures
        rank::indices(r@) == parts(rs@, shares(ts@), ti as int, vh as int, ts@[ti as int].text@),
        forall|k: int| 0 <= k < r@.len() ==> #[trigger] r@[k] < rs@.len(),
{
    let ghost ys = shares(ts@);
    let ghost title = ts@[ti as int].text@;
    let ghost f = |i: int| near(rs@, ys, ti as int, vh as int, i);
    let ghost g = |i: int|
        near(rs@, ys, ti as int, vh as int, i) && share_a_word(
            long_words(title),
            long_words(rs@[i].text@),
        );
    let tw = words3(ts[ti].text.as_str());
    let mut cand: Vec<usize> = Vec::new();
    let mut shared: Vec<usize> = Vec::new();
    assert(rank::indices(cand@) =~= Seq::empty());
    for i in 0..rs.len()
        invariant
            reading::all_placed(rs@),
            ti < ts@.len(),
            0 <= vh <= captions::PIXEL_LIMIT,
            ys == shares(ts@),
            title == ts@[ti as int].text@,
            f == (|i: int| near(rs@, ys, ti as int, vh as int, i)),
            g == (|i: int|
                near(rs@, ys, ti as int, vh as int, i) && share_a_word(
                    long_words(title),
                    long_words(rs@[i].text@),
                )),
            text::views(tw@) == long_words(title),
            rank::indices(cand@) == pick::picked(i as nat, f),
            rank::indices(shared@) == pick::picked(i as nat, g),
            forall|k: int| 0 <= k < cand@.len() ==> #[trigger] cand@[k] < rs@.len(),
            forall|k: int| 0 <= k < shared@.len() ==> #[trigger] shared@[k] < rs@.len(),
    {
        let q = &rs[i];
        assert(rs@[i as int].placed());
        let mid: i128 = 2 * q.y as i128 + q.h as i128;
        assert(ys[ti as int] == ts@[ti as int].y);
        if reading::apart(mid, ts[ti].y, vh) <= vh as i128 * 130_000 && nearest_title(ts, mid, vh)
            == ti {
            assert(f(i as int));
            let ghost was = rank::indices(cand@);
            cand.push(i);
            assert(rank::indices(cand@) =~= was.push(i as int));
            if have_common(&tw, &words3(q.text.as_str())) {
                assert(g(i as int));
                let ghost had = rank::indices(shared@);
                shared.push(i);
                assert(rank::indices(shared@) =~= had.push(i as int));
            }
        }
    }
    assert(rank::indices(shared@).len() == shared@.len());
    if shared.len() > 0 {
        shared
    } else {
        cand
    }
}

fn lower(a: i64, b: i64) -> (r: i64)
    ensures
        r == least(a as int, b as int),
{
    if b < a {
        b
    } else {
        a
    }
}

fn higher(a: i64, b: i64) -> (r: i64)
    ensures
        r == most(a as int, b as int),
{
    if b > a {
        b
    } else {
        a
    }
}

/// Where and when the title `ti` stands.
fn find_spot(rs: &Vec<Region>, ts: &Vec<Described>, ti: usize, c: &ComposeCtx) -> (r: (
    i64,
    i64,
    i64,
    i64,
    i64,
    i64,
    i64,
))
    requires
        reading::all_placed(rs@),
        reading::all_shares_ok(ts@),
        ti < ts@.len(),
        c.valid(),
    ensures
        spot_of(rs@, reading::described_views(ts@), ti as int, *c) == (Spot {
            x: r.0 as int,
            y: r.1 as int,
            w: r.2 as int,
            h: r.3 as int,
            start: r.4 as int,
            end: r.5 as int,
            lh: r.6 as int,
        }),
{
    let ghost tv = reading::described_views(ts@);
    assert(heights(tv) =~= shares(ts@));
    assert(tv[ti as int] == ts@[ti as int]@);
    let at = find_parts(rs, ts, ti, c.vh);
    let ghost ai = rank::indices(at@);
    assert(ai.len() == at@.len());
    if at.len() > 0 {
        let first = &rs[at[0]];
        assert(rs@[at@[0] as int].placed());
        let mut x0: i64 = first.x;
        let mut y0: i64 = first.y;
        let mut x1: i64 = first.x + first.w;
        let mut y1: i64 = first.y + first.h;
        let mut start: i64 = first.t0;
        let mut end: i64 = first.t1;
        let mut lh: i64 = first.h;
        assert(ai.take(1)[0] == at@[0]);
        for n in 1..at.len()
            invariant
                reading::all_placed(rs@),
                at@.len() > 0,
                ai == rank::indices(at@),
                forall|k: int| 0 <= k < at@.len() ==> #[trigger] at@[k] < rs@.len(),
                around(rs@, ai.take(n as int)) == (Edges {
                    x0: x0 as int,
                    y0: y0 as int,
                    x1: x1 as int,
                    y1: y1 as int,
                    start: start as int,
                    end: end as int,
                    lh: lh as int,
                }),
                captions::pixel_ok(x0),
                captions::pixel_ok(y0),
                -2 * captions::PIXEL_LIMIT <= x1 <= 2 * captions::PIXEL_LIMIT,
                -2 * captions::PIXEL_LIMIT <= y1 <= 2 * captions::PIXEL_LIMIT,
        {
            assert(ai.take(n + 1).drop_last() =~= ai.take(n as int));
            assert(ai.take(n + 1).last() == at@[n as int]);
            let q = &rs[at[n]];
            assert(rs@[at@[n as int] as int].placed());
            x0 = lower(x0, q.x);
            y0 = lower(y0, q.y);
            x1 = higher(x1, q.x + q.w);
            y1 = higher(y1, q.y + q.h);
            start = lower(start, q.t0);
            end = higher(end, q.t1);
            lh = lower(lh, q.h);
        }
        assert(ai.take(ai.len() as int) =~= ai);
        (x0, y0, x1 - x0, y1 - y0, start, end, lh)
    } else {
        let y: i128 = ts[ti].y as i128;
        let vh: i128 = c.vh as i128;
        assert(project::time_ok(ts@[ti as int].y));
        proof {
            assert(-100_000_000_000_000_000_000_000 <= y * vh <= 100_000_000_000_000_000_000_000)
                by (nonlinear_arith)
                requires
                    -100_000_000_000_000 <= y <= 100_000_000_000_000,
                    0 <= vh <= 1_000_000_000,
            ;
        }
        let x0: i64 = c.vw * 8 / 100;
        let x1: i64 = c.vw * 92 / 100;
        let y0: i64 = divide(y * vh - vh * 45_000, 1_000_000) as i64;
        let y1: i64 = divide(y * vh + vh * 45_000, 1_000_000) as i64;
        (x0, y0, x1 - x0, y1 - y0, 0, lower(c.total, 4_000_000), c.vh * 5 / 100)
    }
}

fn flag(b: Option<bool>, d: bool) -> (r: bool)
    ensures
        r == or(b, d),
{
    match b {
        Some(x) => x,
        None => d,
    }
}

/// The titles as they are drawn: each where the captions near it stand, or across the picture at its
/// height.
pub fn place_titles(rs: &Vec<Region>, ts: &Vec<Described>, c: &ComposeCtx) -> (r: Vec<Block>)
    requires
        reading::all_placed(rs@),
        reading::all_shares_ok(ts@),
        c.valid(),
    ensures
        block_views(r@) == blocks_of(rs@, reading::described_views(ts@), *c),
{
    let ghost tv = reading::described_views(ts@);
    let mut out: Vec<Block> = Vec::new();
    for i in 0..ts.len()
        invariant
            reading::all_placed(rs@),
            reading::all_shares_ok(ts@),
            c.valid(),
            tv == reading::described_views(ts@),
            out@.len() == i,
            forall|j: int| 0 <= j < i ==> (#[trigger] out@[j])@ == block_of(rs@, tv, j, *c),
    {
        let t = &ts[i];
        assert(tv[i as int] == t@);
        let s = find_spot(rs, ts, i, c);
        out.push(
            Block {
                x: s.0,
                y: s.1,
                w: s.2,
                h: s.3,
                text: t.tgt.clone(),
                start: s.4,
                end: s.5,
                lh: s.6,
                color: copy_opt(&t.color),
                bg: copy_opt(&t.bg),
                solid: flag(t.solid, false),
                align: match &t.align {
                    Some(a) => a.clone(),
                    None => "center".to_owned(),
                },
                bold: flag(t.bold, true),
                italic: flag(t.italic, false),
                font: copy_opt(&t.font),
            },
        );
    }
    assert(block_views(out@) =~= blocks_of(rs@, tv, *c));
    out
}

// ── Laws ────────────────────────────────────────────────────────────────────

/// Every title that is drawn has a translation.
pub proof fn law_drawn_titles_are_translated(ts: Seq<DescribedModel>, i: int)
    requires
        0 <= i < translated(ts).len(),
    ensures
        text::trimmed(translated(ts)[i].tgt).len() > 0,
    decreases ts.len(),
{
    if ts.len() > 0 {
        let t = ts.drop_last();
        if i < translated(t).len() {
            law_drawn_titles_are_translated(t, i);
        }
    }
}

/// No two drawn titles next to each other stand on one line, and none is above one before it.
pub proof fn law_merged_titles_are_apart(ts: Seq<DescribedModel>)
    requires
        forall|i: int, j: int| 0 <= i < j < ts.len() ==> (#[trigger] ts[i]).y <= (#[trigger] ts[j]).y,
    ensures
        forall|i: int|
            0 <= i < merged(ts).len() - 1 ==> (#[trigger] merged(ts)[i]).y + SAME_LINE < merged(ts)[i
                + 1].y,
        ts.len() > 0 ==> merged(ts).len() > 0 && merged(ts).last().y <= ts.last().y,
    decreases ts.len(),
{
    if ts.len() > 0 {
        let t = ts.drop_last();
        assert forall|i: int, j: int| 0 <= i < j < t.len() implies (#[trigger] t[i]).y <= (
        #[trigger] t[j]).y by {
            assert(t[i] == ts[i] && t[j] == ts[j]);
        }
        law_merged_titles_are_apart(t);
        let before = merged(t);
        let now = merged(ts);
        if t.len() > 0 {
            assert(t.last() == ts[ts.len() - 2]);
            assert(t.last().y <= ts.last().y);
        }
        assert forall|i: int| 0 <= i < now.len() - 1 implies (#[trigger] now[i]).y + SAME_LINE < now[i
            + 1].y by {
            assert(now[i].y == before[i].y);
            if i + 1 < before.len() {
                assert(now[i + 1].y == before[i + 1].y);
            }
        }
    }
}

/// A title with captions near it stands where they do: it holds each of them.
pub proof fn law_title_holds_its_captions(rs: Seq<Region>, at: Seq<int>, k: int)
    requires
        0 <= k < at.len(),
    ensures
        ({
            let e = around(rs, at);
            let q = edges_of(rs[at[k]]);
            &&& e.x0 <= q.x0 && e.y0 <= q.y0 && q.x1 <= e.x1 && q.y1 <= e.y1
            &&& e.start <= q.start && q.end <= e.end && e.lh <= q.lh
        }),
    decreases at.len(),
{
    if at.len() > 1 && k < at.len() - 1 {
        law_title_holds_its_captions(rs, at.drop_last(), k);
        assert(at.drop_last()[k] == at[k]);
    }
}

/// How described titles become drawn ones.
pub struct Grouping {
    /// The titles that have a translation, from the top down.
    pub order: Seq<int>,
    /// Where in that order each drawn title begins.
    pub starts: Seq<int>,
    /// The lines of the drawn titles: the translations in that order.
    pub lines: Seq<Seq<char>>,
}

/// Where the group number `k` ends, of groups that begin at `starts` in a list of `n`.
pub open spec fn group_end(starts: Seq<int>, n: int, k: int) -> int {
    if k + 1 < starts.len() {
        starts[k + 1]
    } else {
        n
    }
}

/// The group number `k` lies in a list of `n` and has something in it.
pub open spec fn group_at(starts: Seq<int>, n: int, k: int) -> bool {
    0 <= starts[k] < group_end(starts, n, k) <= n
}

/// `starts` parts a list of `n` into groups with something in each.
pub open spec fn parts_into_groups(starts: Seq<int>, n: int) -> bool {
    &&& starts.len() > 0 <==> n > 0
    &&& n > 0 ==> starts[0] == 0
    &&& forall|k: int| 0 <= k < starts.len() ==> #[trigger] group_at(starts, n, k)
}

/// `line` is the text `t`, but for white space at its ends.
pub open spec fn is_line(line: Seq<char>, t: Seq<char>) -> bool {
    text::trimmed(line) == text::trimmed(t) && (text::tidy(t) ==> line == t)
}

/// The title `m` is what the titles `ts` from `a` on and before `b` make: it looks as the first of them does,
/// and its text is that of them all, one below the other. They stand within six hundredths of the picture of
/// the first, and the one behind them does not.
pub open spec fn group_made(
    m: DescribedModel,
    ts: Seq<DescribedModel>,
    lines: Seq<Seq<char>>,
    a: int,
    b: int,
) -> bool {
    &&& m.tgt == words::joined(lines.subrange(a, b), "\n"@)
    &&& m == (DescribedModel { tgt: m.tgt, ..ts[a] })
    &&& b == a + 1 ==> m.tgt == ts[a].tgt
    &&& forall|j: int| a <= j < b ==> -60_000 <= (#[trigger] ts[j]).y - ts[a].y <= 60_000
    &&& b < ts.len() ==> !(-60_000 <= ts[b].y - ts[a].y <= 60_000)
}

/// The titles `ms` are what the groups of the titles `ts` make, in their order.
pub open spec fn made_of(
    ms: Seq<DescribedModel>,
    ts: Seq<DescribedModel>,
    starts: Seq<int>,
    lines: Seq<Seq<char>>,
) -> bool {
    let n = ts.len() as int;
    &&& parts_into_groups(starts, n)
    &&& starts.len() == ms.len()
    &&& lines.len() == n
    &&& forall|j: int| 0 <= j < n ==> is_line(#[trigger] lines[j], ts[j].tgt)
    &&& forall|k: int|
        0 <= k < starts.len() ==> group_made(
            #[trigger] ms[k],
            ts,
            lines,
            starts[k],
            group_end(starts, n, k),
        )
}

proof fn lemma_line_pasted(q: Seq<Seq<char>>, t: Seq<char>)
    requires
        q.len() > 0,
        text::trimmed(q[0]).len() > 0,
        text::trimmed(t).len() > 0,
    ensures
        text::trimmed(words::joined(q, "\n"@) + "\n"@ + t) == words::joined(
            q.update(0, text::trim_start(q[0])).push(text::trim_end(t)),
            "\n"@,
        ),
{
    let nl = "\n"@;
    let g = words::joined(q, nl);
    let r = q.update(0, text::trim_start(q[0]));
    let rest = if q.len() == 1 {
        Seq::empty()
    } else {
        nl + words::joined(q.drop_first(), nl)
    };
    if q.len() > 1 {
        words::lemma_joined_front(q, nl);
        words::lemma_joined_front(r, nl);
        assert(r.drop_first() =~= q.drop_first());
    }
    assert(g =~= q[0] + rest);
    assert(words::joined(r, nl) =~= text::trim_start(q[0]) + rest);
    let tail = rest + nl + t;
    assert(g + nl + t =~= q[0] + tail);
    text::lemma_trim_start_of_two(q[0], tail);
    text::lemma_trim_end_first(t);
    let front = words::joined(r, nl) + nl;
    assert(text::trim_start(q[0]) + tail =~= front + t);
    text::lemma_trim_end_of_two(front, t);
    let all = r.push(text::trim_end(t));
    assert(all.drop_last() =~= r);
}

/// A title that stands close to the group before it joins it.
proof fn lemma_title_joins(
    before: Seq<DescribedModel>,
    ts: Seq<DescribedModel>,
    c: Seq<int>,
    ls: Seq<Seq<char>>,
) -> (lines: Seq<Seq<char>>)
    requires
        ts.len() > 0,
        forall|j: int| 0 <= j < ts.len() ==> text::trimmed((#[trigger] ts[j]).tgt).len() > 0,
        made_of(before, ts.drop_last(), c, ls),
        before.len() > 0,
        same_line(ts.last().y, before.last().y),
    ensures
        made_of(
            before.update(before.len() - 1, with_line(before.last(), ts.last())),
            ts,
            c,
            lines,
        ),
{
    let n = ts.len() as int;
    let m = n - 1;
    let prev = ts.drop_last();
    let t = ts.last();
    let z = c.len() - 1;
    let a = c[z];
    let now = before.update(z, with_line(before.last(), t));
    assert(group_at(c, m, z));
    assert(before[z] == before.last());
    assert(group_made(before[z], prev, ls, a, m));
    let q = ls.subrange(a, m);
    assert(q[0] == ls[a]);
    assert(is_line(ls[a], prev[a].tgt));
    assert(text::trimmed(ts[a].tgt).len() > 0 && text::trimmed(ts[m].tgt).len() > 0);
    lemma_line_pasted(q, t.tgt);
    let lines = ls.update(a, text::trim_start(ls[a])).push(text::trim_end(t.tgt));
    assert(lines.subrange(a, n) =~= q.update(0, text::trim_start(q[0])).push(text::trim_end(t.tgt)));
    assert forall|j: int| 0 <= j < n implies is_line(#[trigger] lines[j], ts[j].tgt) by {
        if j == m {
            text::lemma_trim_end_first(t.tgt);
        } else {
            assert(is_line(ls[j], prev[j].tgt));
            if j == a {
                text::lemma_trim_start_of_two(ls[a], Seq::empty());
            }
        }
    }
    assert forall|k: int| 0 <= k < c.len() implies #[trigger] group_at(c, n, k) by {
        assert(group_at(c, m, k));
    }
    assert forall|k: int| 0 <= k < c.len() implies group_made(
        #[trigger] now[k],
        ts,
        lines,
        c[k],
        group_end(c, n, k),
    ) by {
        let x = c[k];
        let y = group_end(c, n, k);
        assert(group_at(c, m, k));
        assert(group_made(before[k], prev, ls, x, group_end(c, m, k)));
        if k < z {
            assert(y == group_end(c, m, k));
            lemma_starts_grow(c, m, k + 1, z);
            assert(lines.subrange(x, y) =~= ls.subrange(x, y));
            assert forall|j: int| x <= j < y implies -60_000 <= (#[trigger] ts[j]).y - ts[x].y
                <= 60_000 by {
                assert(prev[j] == ts[j]);
            }
            assert(prev[y] == ts[y]);
        } else {
            assert forall|j: int| x <= j < y implies -60_000 <= (#[trigger] ts[j]).y - ts[x].y
                <= 60_000 by {
                if j < m {
                    assert(prev[j] == ts[j]);
                }
            }
        }
    }
    lines
}

/// A title that stands further from the group before it begins one.
proof fn lemma_title_begins(
    before: Seq<DescribedModel>,
    ts: Seq<DescribedModel>,
    c: Seq<int>,
    ls: Seq<Seq<char>>,
)
    requires
        ts.len() > 0,
        made_of(before, ts.drop_last(), c, ls),
        before.len() > 0 ==> !same_line(ts.last().y, before.last().y),
    ensures
        made_of(before.push(ts.last()), ts, c.push(ts.len() - 1), ls.push(ts.last().tgt)),
{
    let n = ts.len() as int;
    let m = n - 1;
    let prev = ts.drop_last();
    let t = ts.last();
    let starts = c.push(m);
    let lines = ls.push(t.tgt);
    let now = before.push(t);
    assert forall|j: int| 0 <= j < n implies is_line(#[trigger] lines[j], ts[j].tgt) by {
        if j < m {
            assert(is_line(ls[j], prev[j].tgt));
        }
    }
    assert forall|k: int| 0 <= k < starts.len() implies #[trigger] group_at(starts, n, k) by {
        if k < c.len() {
            assert(group_at(c, m, k));
        }
    }
    if c.len() > 0 {
        assert(starts[0] == c[0]);
    }
    assert forall|k: int| 0 <= k < starts.len() implies group_made(
        #[trigger] now[k],
        ts,
        lines,
        starts[k],
        group_end(starts, n, k),
    ) by {
        let x = starts[k];
        let y = group_end(starts, n, k);
        if k < c.len() {
            assert(group_at(c, m, k));
            assert(y == group_end(c, m, k));
            assert(group_made(before[k], prev, ls, x, y));
            assert(lines.subrange(x, y) =~= ls.subrange(x, y));
            assert forall|j: int| x <= j < y implies -60_000 <= (#[trigger] ts[j]).y - ts[x].y
                <= 60_000 by {
                assert(prev[j] == ts[j]);
            }
            if y == m {
                if k + 1 < c.len() {
                    assert(group_at(c, m, k + 1));
                }
                assert(before.last() == before[k]);
            } else {
                assert(prev[y] == ts[y]);
            }
        } else {
            assert(lines.subrange(m, n) =~= seq![t.tgt]);
        }
    }
}

proof fn lemma_merged(ts: Seq<DescribedModel>) -> (r: (Seq<int>, Seq<Seq<char>>))
    requires
        forall|j: int| 0 <= j < ts.len() ==> text::trimmed((#[trigger] ts[j]).tgt).len() > 0,
    ensures
        made_of(merged(ts), ts, r.0, r.1),
    decreases ts.len(),
{
    if ts.len() == 0 {
        (Seq::empty(), Seq::empty())
    } else {
        let prev = ts.drop_last();
        assert forall|j: int| 0 <= j < prev.len() implies text::trimmed((#[trigger] prev[j]).tgt).len()
            > 0 by {
            assert(prev[j] == ts[j]);
        }
        let (c, ls) = lemma_merged(prev);
        let before = merged(prev);
        if before.len() > 0 && same_line(ts.last().y, before.last().y) {
            let lines = lemma_title_joins(before, ts, c, ls);
            (c, lines)
        } else {
            lemma_title_begins(before, ts, c, ls);
            (c.push(ts.len() - 1), ls.push(ts.last().tgt))
        }
    }
}

proof fn lemma_starts_grow(c: Seq<int>, n: int, j: int, k: int)
    requires
        parts_into_groups(c, n),
        0 <= j <= k < c.len(),
    ensures
        c[j] <= c[k],
    decreases k - j,
{
    if j < k {
        lemma_starts_grow(c, n, j, k - 1);
        assert(group_at(c, n, k - 1));
    }
}

proof fn lemma_translated(ts: Seq<DescribedModel>) -> (ix: Seq<int>)
    ensures
        ix.len() == translated(ts).len(),
        forall|k: int| 0 <= k < ix.len() ==> 0 <= #[trigger] ix[k] < ts.len(),
        forall|k: int| 0 <= k < ix.len() ==> #[trigger] translated(ts)[k] == ts[ix[k]],
        forall|j: int, k: int| 0 <= j < k < ix.len() ==> #[trigger] ix[j] < #[trigger] ix[k],
        forall|i: int|
            0 <= i < ts.len() ==> (#[trigger] ix.contains(i) <==> text::trimmed(ts[i].tgt).len() > 0),
    decreases ts.len(),
{
    if ts.len() == 0 {
        Seq::empty()
    } else {
        let prev = ts.drop_last();
        let n = prev.len() as int;
        let was = lemma_translated(prev);
        assert(ts.last() == ts[n]);
        let ix = if text::trimmed(ts.last().tgt).len() > 0 {
            was.push(n)
        } else {
            was
        };
        assert forall|i: int| 0 <= i < ts.len() implies (#[trigger] ix.contains(i) <==> text::trimmed(
            ts[i].tgt,
        ).len() > 0) by {
            if was.contains(i) {
                let k = choose|k: int| 0 <= k < was.len() && was[k] == i;
                assert(ix[k] == i);
            }
            if ix.contains(i) {
                let k = choose|k: int| 0 <= k < ix.len() && ix[k] == i;
                if k < was.len() {
                    assert(was[k] == i);
                    assert(was.contains(i));
                }
            }
            if i == n {
                if ix.len() > was.len() {
                    assert(ix[was.len() as int] == n);
                }
            } else {
                assert(prev[i] == ts[i]);
                assert(was.contains(i) <==> text::trimmed(prev[i].tgt).len() > 0);
            }
        }
        assert forall|k: int| 0 <= k < ix.len() implies #[trigger] translated(ts)[k] == ts[ix[k]] by {
            if k < was.len() {
                assert(translated(ts)[k] == translated(prev)[k]);
            }
        }
        ix
    }
}

/// What is drawn of the titles that were described. All that have a translation are, and no others, from the
/// top of the picture down and, at one height, in the order they had. Each drawn title begins with one of
/// them and takes in those that follow within six hundredths of the picture of it: it looks as the first
/// does, and its text is made of the translations of all of them, one below the other, each whole but for
/// white space at its ends. No translation is lost, and none is drawn twice.
pub proof fn law_no_translation_is_lost(ts: Seq<DescribedModel>) -> (g: Grouping)
    ensures
        forall|i: int| 0 <= i < g.order.len() ==> 0 <= #[trigger] g.order[i] < ts.len(),
        forall|i: int|
            0 <= i < ts.len() ==> (#[trigger] g.order.contains(i) <==> text::trimmed(ts[i].tgt).len() > 0),
        forall|i: int, j: int|
            0 <= i < j < g.order.len() ==> ts[#[trigger] g.order[i]].y < ts[#[trigger] g.order[j]].y || (
            ts[g.order[i]].y == ts[g.order[j]].y && g.order[i] < g.order[j]),
        made_of(drawn_titles(ts), g.order.map_values(|i: int| ts[i]), g.starts, g.lines),
{
    let good = translated(ts);
    let ix = lemma_translated(ts);
    let keys = heights(good);
    let o = rank::stable_order(keys);
    rank::law_stable_order(keys);
    rank::law_order_covers(keys);
    let order = o.map_values(|i: int| ix[i]);
    let down = from_the_top(good);
    assert forall|i: int| 0 <= i < order.len() implies 0 <= #[trigger] order[i] < ts.len() && down[i]
        == ts[order[i]] && text::trimmed(down[i].tgt).len() > 0 by {
        assert(0 <= o[i] < keys.len());
        assert(good[o[i]] == ts[ix[o[i]]]);
        assert(ix.contains(ix[o[i]]));
    }
    assert(down =~= order.map_values(|i: int| ts[i]));
    assert forall|i: int| 0 <= i < ts.len() implies (#[trigger] order.contains(i) <==> text::trimmed(
        ts[i].tgt,
    ).len() > 0) by {
        if text::trimmed(ts[i].tgt).len() > 0 {
            assert(ix.contains(i));
            let k = choose|k: int| 0 <= k < ix.len() && ix[k] == i;
            assert(o.contains(k));
            let j = choose|j: int| 0 <= j < o.len() && o[j] == k;
            assert(order[j] == i);
        }
        if order.contains(i) {
            let j = choose|j: int| 0 <= j < order.len() && order[j] == i;
            assert(0 <= o[j] < keys.len());
            assert(ix.contains(ix[o[j]]));
        }
    }
    assert forall|i: int, j: int| 0 <= i < j < order.len() implies ts[#[trigger] order[i]].y
        < ts[#[trigger] order[j]].y || (ts[order[i]].y == ts[order[j]].y && order[i] < order[j]) by {
        assert(keys[o[i]] == good[o[i]].y && keys[o[j]] == good[o[j]].y);
        assert(good[o[i]] == ts[ix[o[i]]] && good[o[j]] == ts[ix[o[j]]]);
        assert(keys[o[i]] < keys[o[j]] || (keys[o[i]] == keys[o[j]] && o[i] < o[j]));
    }
    let (starts, lines) = lemma_merged(down);
    Grouping { order, starts, lines }
}

proof fn lemma_groups_join(ms: Seq<DescribedModel>, starts: Seq<int>, lines: Seq<Seq<char>>, k: int)
    requires
        parts_into_groups(starts, lines.len() as int),
        starts.len() == ms.len(),
        forall|j: int|
            0 <= j < starts.len() ==> (#[trigger] ms[j]).tgt == words::joined(
                lines.subrange(starts[j], group_end(starts, lines.len() as int, j)),
                "\n"@,
            ),
        0 <= k < starts.len(),
    ensures
        words::joined(ms.take(k + 1).map_values(|t: DescribedModel| t.tgt), "\n"@) == words::joined(
            lines.take(group_end(starts, lines.len() as int, k)),
            "\n"@,
        ),
    decreases k,
{
    let n = lines.len() as int;
    let f = |t: DescribedModel| t.tgt;
    let a = starts[k];
    let b = group_end(starts, n, k);
    assert(group_at(starts, n, k));
    let part = lines.subrange(a, b);
    assert(ms.take(k + 1).map_values(f) =~= ms.take(k).map_values(f).push(ms[k].tgt));
    if k == 0 {
        assert(ms.take(1).map_values(f) =~= seq![ms[0].tgt]);
        assert(lines.take(b) =~= part);
    } else {
        lemma_groups_join(ms, starts, lines, k - 1);
        assert(group_end(starts, n, k - 1) == a);
        assert(group_at(starts, n, k - 1));
        words::lemma_joined_of_two(lines.take(a), part, "\n"@);
        assert(lines.take(b) =~= lines.take(a) + part);
        let all = ms.take(k + 1).map_values(f);
        assert(all.drop_last() =~= ms.take(k).map_values(f));
    }
}

/// The drawn texts, read from the top down, are the translations from the top down, joined by line breaks.
/// Where no translation has white space at its ends, they are so to the letter.
pub proof fn law_drawn_texts_read_as_the_translations(ts: Seq<DescribedModel>) -> (g: Grouping)
    ensures
        forall|i: int, j: int|
            0 <= i < j < g.order.len() ==> ts[#[trigger] g.order[i]].y < ts[#[trigger] g.order[j]].y || (
            ts[g.order[i]].y == ts[g.order[j]].y && g.order[i] < g.order[j]),
        forall|i: int| 0 <= i < g.order.len() ==> 0 <= #[trigger] g.order[i] < ts.len(),
        forall|i: int|
            0 <= i < ts.len() ==> (#[trigger] g.order.contains(i) <==> text::trimmed(ts[i].tgt).len() > 0),
        g.lines.len() == g.order.len(),
        forall|i: int| 0 <= i < g.lines.len() ==> is_line(#[trigger] g.lines[i], ts[g.order[i]].tgt),
        words::joined(drawn_titles(ts).map_values(|t: DescribedModel| t.tgt), "\n"@) == words::joined(
            g.lines,
            "\n"@,
        ),
{
    let g = law_no_translation_is_lost(ts);
    let ms = drawn_titles(ts);
    let n = g.lines.len() as int;
    let down = g.order.map_values(|i: int| ts[i]);
    assert forall|i: int| 0 <= i < n implies is_line(#[trigger] g.lines[i], ts[g.order[i]].tgt) by {
        assert(down[i] == ts[g.order[i]]);
    }
    if ms.len() > 0 {
        let z = ms.len() - 1;
        lemma_groups_join(ms, g.starts, g.lines, z);
        assert(ms.take(z + 1) =~= ms);
        assert(group_end(g.starts, n, z) == n);
        assert(g.lines.take(n) =~= g.lines);
    } else {
        assert(ms.map_values(|t: DescribedModel| t.tgt) =~= Seq::<Seq<char>>::empty());
        assert(g.lines =~= Seq::<Seq<char>>::empty());
    }
    g
}

/// Each drawn title says what it was given and looks as described: its text to the letter, in the middle,
/// bold, upright and without a ground of its own where nothing else is said.
pub proof fn law_titles_look_as_described(rs: Seq<Region>, ts: Seq<DescribedModel>, c: ComposeCtx, i: int)
    requires
        0 <= i < ts.len(),
    ensures
        blocks_of(rs, ts, c).len() == ts.len(),
        ({
            let b = blocks_of(rs, ts, c)[i];
            &&& b.text == ts[i].tgt
            &&& b.color == ts[i].color && b.bg == ts[i].bg && b.font == ts[i].font
            &&& b.align == ts[i].align.unwrap_or("center"@)
            &&& b.bold == ts[i].bold.unwrap_or(true)
            &&& b.italic == ts[i].italic.unwrap_or(false)
            &&& b.solid == ts[i].solid.unwrap_or(false)
        }),
{
}

/// The title stands exactly around its captions: no edge of it is further out than one of theirs, it is seen
/// from the first of their times to the last, and its line is as high as their lowest.
pub proof fn law_title_is_no_larger_than_its_captions(rs: Seq<Region>, at: Seq<int>)
    requires
        at.len() > 0,
    ensures
        ({
            let e = around(rs, at);
            let holds = |q: Region|
                e.x0 <= q.x && e.y0 <= q.y && q.x + q.w <= e.x1 && q.y + q.h <= e.y1 && e.start <= q.t0 && q.t1
                    <= e.end && e.lh <= q.h;
            &&& forall|k: int| 0 <= k < at.len() ==> holds(rs[#[trigger] at[k]])
            &&& exists|k: int| 0 <= k < at.len() && e.x0 == rs[#[trigger] at[k]].x
            &&& exists|k: int| 0 <= k < at.len() && e.y0 == rs[#[trigger] at[k]].y
            &&& exists|k: int| 0 <= k < at.len() && e.x1 == rs[#[trigger] at[k]].x + rs[at[k]].w
            &&& exists|k: int| 0 <= k < at.len() && e.y1 == rs[#[trigger] at[k]].y + rs[at[k]].h
            &&& exists|k: int| 0 <= k < at.len() && e.start == rs[#[trigger] at[k]].t0
            &&& exists|k: int| 0 <= k < at.len() && e.end == rs[#[trigger] at[k]].t1
            &&& exists|k: int| 0 <= k < at.len() && e.lh == rs[#[trigger] at[k]].h
        }),
    decreases at.len(),
{
    let last = at.len() - 1;
    assert(at[last] == at.last());
    if at.len() > 1 {
        let p = at.drop_last();
        law_title_is_no_larger_than_its_captions(rs, p);
        assert(forall|k: int| 0 <= k < p.len() ==> #[trigger] p[k] == at[k]);
        let d = around(rs, p);
        let e = around(rs, at);
        let x0 = choose|k: int| 0 <= k < p.len() && d.x0 == rs[#[trigger] p[k]].x;
        let y0 = choose|k: int| 0 <= k < p.len() && d.y0 == rs[#[trigger] p[k]].y;
        let x1 = choose|k: int| 0 <= k < p.len() && d.x1 == rs[#[trigger] p[k]].x + rs[p[k]].w;
        let y1 = choose|k: int| 0 <= k < p.len() && d.y1 == rs[#[trigger] p[k]].y + rs[p[k]].h;
        let t0 = choose|k: int| 0 <= k < p.len() && d.start == rs[#[trigger] p[k]].t0;
        let t1 = choose|k: int| 0 <= k < p.len() && d.end == rs[#[trigger] p[k]].t1;
        let lh = choose|k: int| 0 <= k < p.len() && d.lh == rs[#[trigger] p[k]].h;
        assert(at[x0] == p[x0] && at[y0] == p[y0] && at[x1] == p[x1] && at[y1] == p[y1]);
        assert(at[t0] == p[t0] && at[t1] == p[t1] && at[lh] == p[lh]);
        assert forall|k: int| 0 <= k < at.len() implies {
            let q = rs[#[trigger] at[k]];
            e.x0 <= q.x && e.y0 <= q.y && q.x + q.w <= e.x1 && q.y + q.h <= e.y1 && e.start <= q.t0 && q.t1 <= e.end
                && e.lh <= q.h
        } by {
            if k < p.len() {
                assert(p[k] == at[k]);
            }
        }
    }
}

proof fn lemma_nearest_height(ys: Seq<int>, mid: int, vh: int)
    requires
        ys.len() > 0,
    ensures
        0 <= nearest(ys, mid, vh) < ys.len(),
        forall|j: int|
            0 <= j < ys.len() ==> reading::away(mid, ys[nearest(ys, mid, vh)], vh) <= reading::away(
                mid,
                #[trigger] ys[j],
                vh,
            ),
        forall|j: int|
            0 <= j < nearest(ys, mid, vh) ==> reading::away(mid, ys[nearest(ys, mid, vh)], vh) < reading::away(
                mid,
                #[trigger] ys[j],
                vh,
            ),
    decreases ys.len(),
{
    if ys.len() > 1 {
        let p = ys.drop_last();
        lemma_nearest_height(p, mid, vh);
        assert(forall|k: int| 0 <= k < p.len() ==> p[k] == #[trigger] ys[k]);
        assert(ys[ys.len() - 1] == ys.last());
    }
}

/// A caption belongs to a title whose height, a share of the picture in millionths, is within 13 hundredths of
/// the picture of the caption's middle, if no title is nearer and none before it as near.
pub proof fn law_caption_belongs_to_the_nearest_title(rs: Seq<Region>, ys: Seq<int>, ti: int, vh: int, i: int)
    requires
        0 <= ti < ys.len(),
        0 <= i < rs.len(),
    ensures
        near(rs, ys, ti, vh, i) <==> {
            let far = |y: int| {
                let d = (2 * rs[i].y + rs[i].h) * 500_000 - y * vh;
                if d < 0 {
                    -d
                } else {
                    d
                }
            };
            &&& far(ys[ti]) <= vh * 130_000
            &&& forall|j: int| 0 <= j < ys.len() ==> far(ys[ti]) <= far(#[trigger] ys[j])
            &&& forall|j: int| 0 <= j < ti ==> far(ys[ti]) < far(#[trigger] ys[j])
        },
{
    let mid = rs[i].mid();
    let n = nearest(ys, mid, vh);
    lemma_nearest_height(ys, mid, vh);
    assert(reading::away(mid, ys[n], vh) <= reading::away(mid, ys[ti], vh));
}

/// The captions of a title are those near it that have a word in common with it, or all that are near it where
/// none has.
pub proof fn law_captions_of_a_title(rs: Seq<Region>, ys: Seq<int>, ti: int, vh: int, title: Seq<char>)
    ensures
        ({
            let one = |i: int|
                near(rs, ys, ti, vh, i) && exists|a: int, b: int|
                    0 <= a < long_words(title).len() && 0 <= b < long_words(rs[i].text@).len()
                        && #[trigger] long_words(title)[a] == #[trigger] long_words(rs[i].text@)[b];
            let any = exists|i: int| 0 <= i < rs.len() && #[trigger] one(i);
            &&& any ==> pick::lists(parts(rs, ys, ti, vh, title), rs.len() as int, one)
            &&& !any ==> pick::lists(
                parts(rs, ys, ti, vh, title),
                rs.len() as int,
                |i: int| near(rs, ys, ti, vh, i),
            )
        }),
{
    let one = |i: int|
        near(rs, ys, ti, vh, i) && exists|a: int, b: int|
            0 <= a < long_words(title).len() && 0 <= b < long_words(rs[i].text@).len() && #[trigger] long_words(
                title,
            )[a] == #[trigger] long_words(rs[i].text@)[b];
    let f = |i: int| near(rs, ys, ti, vh, i) && share_a_word(long_words(title), long_words(rs[i].text@));
    let g = |i: int| near(rs, ys, ti, vh, i);
    pick::law_picked_lists(rs.len(), f, one);
    pick::law_picked_lists(rs.len(), g, g);
    let m = matching(rs, ys, ti, vh, title);
    if m.len() > 0 {
        assert(one(m[0]));
    } else {
        assert forall|i: int| 0 <= i < rs.len() implies !#[trigger] one(i) by {
            if one(i) {
                assert(m.contains(i));
            }
        }
    }
}

/// Where a title stands: around its captions, or, where it has none, in a band at its height, nine hundredths
/// of the picture high and from 8 to 92 hundredths of its width, for the first four seconds at most.
pub proof fn law_where_a_title_stands(rs: Seq<Region>, ts: Seq<DescribedModel>, ti: int, c: ComposeCtx)
    requires
        c.valid(),
    ensures
        ({
            let at = parts(rs, ts.map_values(|t: DescribedModel| t.y), ti, c.vh as int, ts[ti].text);
            let s = blocks_of(rs, ts, c)[ti].spot;
            let e = around(rs, at);
            &&& 0 <= ti < ts.len() && at.len() > 0 ==> s.x == e.x0 && s.y == e.y0 && s.x + s.w == e.x1 && s.y
                + s.h == e.y1 && s.start == e.start && s.end == e.end && s.lh == e.lh
            &&& 0 <= ti < ts.len() && at.len() == 0 ==> {
                let y = ts[ti].y * c.vh;
                &&& 100 * s.x <= 8 * c.vw < 100 * (s.x + 1)
                &&& 100 * (s.x + s.w) <= 92 * c.vw < 100 * (s.x + s.w + 1)
                &&& -1_000_000 < 1_000_000 * s.y - (y - 45_000 * c.vh) < 1_000_000
                &&& -1_000_000 < 1_000_000 * (s.y + s.h) - (y + 45_000 * c.vh) < 1_000_000
                &&& s.start == 0
                &&& s.end <= 4_000_000 && s.end <= c.total && (s.end == 4_000_000 || s.end == c.total)
                &&& 100 * s.lh <= 5 * c.vh < 100 * (s.lh + 1)
            }
        }),
{
    assert(heights(ts) =~= ts.map_values(|t: DescribedModel| t.y));
}

proof fn lemma_words_behind(a: Seq<char>, sep: char, b: Seq<char>)
    requires
        !word_char(sep),
    ensures
        ended_words(a + seq![sep] + b) == long_words(a) + ended_words(b),
        open_word(a + seq![sep] + b) == open_word(b),
    decreases b.len(),
{
    let s = a + seq![sep] + b;
    if b.len() == 0 {
        assert(s.drop_last() =~= a);
        assert(s.last() == sep);
        assert(ended_words(b) =~= Seq::empty());
        assert(long_words(a) + ended_words(b) =~= long_words(a));
    } else {
        lemma_words_behind(a, sep, b.drop_last());
        assert(s.drop_last() =~= a + seq![sep] + b.drop_last());
        assert(s.last() == b.last());
        assert(ended_words(s) =~= long_words(a) + ended_words(b));
    }
}

proof fn lemma_one_word(s: Seq<char>)
    requires
        forall|i: int| 0 <= i < s.len() ==> word_char(#[trigger] s[i]),
    ensures
        ended_words(s) == Seq::<Seq<char>>::empty(),
        open_word(s) == s,
    decreases s.len(),
{
    if s.len() > 0 {
        lemma_one_word(s.drop_last());
        assert(s.last() == s[s.len() - 1]);
        assert(s.drop_last().push(s.last()) =~= s);
    } else {
        assert(s =~= Seq::empty());
    }
}

/// The words of a text that are compared: any character but a letter, a digit and a low line parts two words,
/// and a word counts if it has three characters, in small letters.
pub proof fn law_words_are_compared(a: Seq<char>, sep: char, b: Seq<char>)
    requires
        !text::alphanumeric(sep),
        sep != '_',
    ensures
        long_words(a + seq![sep] + b) == long_words(a) + long_words(b),
        (forall|i: int| 0 <= i < a.len() ==> text::alphanumeric(#[trigger] a[i]) || a[i] == '_') ==> long_words(a)
            == (if a.len() >= 3 {
            seq![text::lowercase(a)]
        } else {
            Seq::empty()
        }),
{
    lemma_words_behind(a, sep, b);
    assert(long_words(a + seq![sep] + b) =~= long_words(a) + long_words(b));
    if forall|i: int| 0 <= i < a.len() ==> text::alphanumeric(#[trigger] a[i]) || a[i] == '_' {
        lemma_one_word(a);
        assert(Seq::<Seq<char>>::empty().push(text::lowercase(a)) =~= seq![text::lowercase(a)]);
    }
}

} // verus!
