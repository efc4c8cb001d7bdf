//! What was seen on the screen: captions that were read with their places, titles that were described.
//!
//! Places on the screen are whole pixels; the height of a described title is a share of the picture in
//! millionths.

use crate::captions;
use crate::decimal;
use crate::json::Doc;
use crate::json::Json;
use crate::media;
use crate::project;
use crate::text;
use vstd::prelude::*;

verus! {

/// A text that was read on the screen.
#[derive(Clone, Debug)]
pub struct Region {
    pub text: String,
    pub x: i64,
    pub y: i64,
    pub w: i64,
    pub h: i64,
    /// In microseconds.
    pub t0: i64,
    /// In microseconds.
    pub t1: i64,
}

impl Region {
    /// Its coordinates and times are within the limits.
    pub open spec fn placed(self) -> bool {
        captions::pixel_ok(self.x) && captions::pixel_ok(self.y) && captions::pixel_ok(self.w)
            && captions::pixel_ok(self.h) && project::time_ok(self.t0) && project::time_ok(self.t1)
    }

    /// Twice the height of its middle.
    pub open spec fn mid(self) -> int {
        2 * self.y + self.h
    }
}

pub open spec fn all_placed(rs: Seq<Region>) -> bool {
    forall|i: int| 0 <= i < rs.len() ==> (#[trigger] rs[i]).placed()
}

/// Whether the coordinates and times of all are within the limits.
pub fn regions_fit(rs: &Vec<Region>) -> (r: bool)
    ensures
        r == all_placed(rs@),
{
    for i in 0..rs.len()
        invariant
            forall|j: int| 0 <= j < i ==> (#[trigger] rs@[j]).placed(),
    {
        let q = &rs[i];
        if !(fits(q.x, captions::PIXEL_LIMIT) && fits(q.y, captions::PIXEL_LIMIT) && fits(
            q.w,
            captions::PIXEL_LIMIT,
        ) && fits(q.h, captions::PIXEL_LIMIT) && fits(q.t0, project::TIME_LIMIT) && fits(
            q.t1,
            project::TIME_LIMIT,
        )) {
            assert(!rs@[i as int].placed());
            return false;
        }
    }
    true
}

fn fits(x: i64, limit: i64) -> (r: bool)
    requires
        limit >= 0,
    ensures
        r == (-limit <= x <= limit),
{
    -limit <= x && x <= limit
}

/// The picture, and what is to be done with its titles.
#[derive(Clone, Copy, Debug)]
pub struct ComposeCtx {
    pub vw: i64,
    pub vh: i64,
    /// How long the film is, in microseconds.
    pub total: i64,
    pub do_translate: bool,
    /// The film has no subtitles of its own.
    pub fresh_subs: bool,
}

impl ComposeCtx {
    pub open spec fn valid(self) -> bool {
        0 <= self.vw <= captions::PIXEL_LIMIT && 0 <= self.vh <= captions::PIXEL_LIMIT
            && project::time_ok(self.total)
    }
}

/// Around the middle of the picture's width.
pub open spec fn centered(x: int, w: int, vw: int) -> bool {
    5 * x < 3 * vw && 5 * (x + w) > 2 * vw
}

/// Whether it stands around the middle of the picture's width.
pub fn is_centered(q: &Region, vw: i64) -> (r: bool)
    requires
        q.placed(),
        0 <= vw <= captions::PIXEL_LIMIT,
    ensures
        r == centered(q.x as int, q.w as int, vw as int),
{
    5 * q.x < 3 * vw && 5 * (q.x + q.w) > 2 * vw
}

/// How far apart two heights are, in millionths of a pixel; the first is twice a height in pixels, the
/// second a share of the picture.
pub open spec fn away(mid: int, share: int, vh: int) -> int {
    let d = mid * 500_000 - share * vh;
    if d >= 0 {
        d
    } else {
        -d
    }
}

/// How far apart two heights are.
pub fn apart(mid: i128, share: i64, vh: i64) -> (r: i128)
    requires
        -4_000_000_000 <= mid <= 4_000_000_000,
    ensures
        r == away(mid as int, share as int, vh as int),
{
    proof {
        assert(-0x4000_0000_0000_0000_0000_0000_0000_0000 <= share * vh
            <= 0x4000_0000_0000_0000_0000_0000_0000_0000) by (nonlinear_arith)
            requires
                -0x8000_0000_0000_0000 <= share <= 0x7fff_ffff_ffff_ffff,
                -0x8000_0000_0000_0000 <= vh <= 0x7fff_ffff_ffff_ffff,
        ;
    }
    let d: i128 = mid * 500_000 - share as i128 * vh as i128;
    if d >= 0 {
        d
    } else {
        -d
    }
}

// ── What was described ──────────────────────────────────────────────────────

/// A title, a caption or a brand as it was described.
#[derive(Clone, Debug)]
pub struct Described {
    pub text: String,
    pub tgt: String,
    /// The share of the picture above its middle, in millionths.
    pub y: i64,
    pub color: Option<String>,
    pub outline: Option<String>,
    pub bg: Option<String>,
    pub font: Option<String>,
    pub align: Option<String>,
    pub solid: Option<bool>,
    pub bold: Option<bool>,
    pub italic: Option<bool>,
}

/// A title, a caption or a brand as it was described, as a value.
pub struct DescribedModel {
    pub text: Seq<char>,
    pub tgt: Seq<char>,
    pub y: int,
    pub color: Option<Seq<char>>,
    pub outline: Option<Seq<char>>,
    pub bg: Option<Seq<char>>,
    pub font: Option<Seq<char>>,
    pub align: Option<Seq<char>>,
    pub solid: Option<bool>,
    pub bold: Option<bool>,
    pub italic: Option<bool>,
}

pub open spec fn opt(s: Option<String>) -> Option<Seq<char>> {
    match s {
        Some(t) => Some(t@),
        None => None,
    }
}

impl View for Described {
    type V = DescribedModel;

    open spec fn view(&self) -> DescribedModel {
        DescribedModel {
            text: self.text@,
            tgt: self.tgt@,
            y: self.y as int,
            color: opt(self.color),
            outline: opt(self.outline),
            bg: opt(self.bg),
            font: opt(self.font),
            align: opt(self.align),
            solid: self.solid,
            bold: self.bold,
            italic: self.italic,
        }
    }
}

pub open spec fn described_views(v: Seq<Described>) -> Seq<DescribedModel> {
    v.map_values(|d: Described| d@)
}

pub open spec fn text_or_none(d: Doc, k: Seq<char>) -> Seq<char> {
    match d.text_at(k) {
        Some(s) => s,
        None => Seq::empty(),
    }
}

/// The height that a description gives, none being the top; one far outside of every picture is held as
/// the furthest.
pub open spec fn share_of(d: Doc) -> int {
    match media::moment_at(d, "y_frac"@) {
        Some(t) => decimal::nearest(t, project::TIME_LIMIT as int),
        None => 0,
    }
}

/// What a document describes.
pub open spec fn described(d: Doc) -> DescribedModel {
    DescribedModel {
        text: text_or_none(d, "text"@),
        tgt: text_or_none(d, "tgt"@),
        y: share_of(d),
        color: d.text_at("color"@),
        outline: d.text_at("outline"@),
        bg: d.text_at("bg"@),
        font: d.text_at("font"@),
        align: d.text_at("align"@),
        solid: d.bool_at("solid"@),
        bold: d.bool_at("bold"@),
        italic: d.bool_at("italic"@),
    }
}

fn copy_text(j: &Json, k: &str) -> (r: Option<String>)
    ensures
        opt(r) == j@.text_at(k@),
{
    match j.text_at(k) {
        Some(s) => Some(s.clone()),
        None => None,
    }
}

/// What a document describes.
pub fn read_described(j: &Json) -> (r: Described)
    ensures
        r@ == described(j@),
        project::time_ok(r.y),
{
    let text = match copy_text(j, "text") {
        Some(s) => s,
        None => String::new(),
    };
    let tgt = match copy_text(j, "tgt") {
        Some(s) => s,
        None => String::new(),
    };
    let y: i64 = match media::read_moment_at(j, "y_frac") {
        Some(t) => if t > project::TIME_LIMIT {
            project::TIME_LIMIT
        } else if t < -project::TIME_LIMIT {
            -project::TIME_LIMIT
        } else {
            t
        },
        None => 0,
    };
    Described {
        text,
        tgt,
        y,
        color: copy_text(j, "color"),
        outline: copy_text(j, "outline"),
        bg: copy_text(j, "bg"),
        font: copy_text(j, "font"),
        align: copy_text(j, "align"),
        solid: j.bool_at("solid"),
        bold: j.bool_at("bold"),
        italic: j.bool_at("italic"),
    }
}

pub open spec fn all_shares_ok(v: Seq<Described>) -> bool {
    forall|i: int| 0 <= i < v.len() ==> project::time_ok((#[trigger] v[i]).y)
}

/// What the list in the member named `k` describes; nothing where there is no list.
pub open spec fn listed(d: Doc, k: Seq<char>) -> Seq<DescribedModel> {
    match media::list_at(d, k) {
        Some(items) => items.map_values(|x: Doc| described(x)),
        None => Seq::empty(),
    }
}

/// What the list in the member named `k` describes.
pub fn read_list(j: &Json, k: &str) -> (r: Vec<Described>)
    ensures
        described_views(r@) == listed(j@, k@),
        all_shares_ok(r@),
{
    let mut out: Vec<Described> = Vec::new();
    if let Some(Json::List(items)) = j.get(k) {
        let ghost ds = media::docs(items@);
        assert(media::list_at(j@, k@)->0 =~= ds);
        for i in 0..items.len()
            invariant
                out@.len() == i,
                all_shares_ok(out@),
                forall|x: int| 0 <= x < i ==> (#[trigger] out@[x])@ == described(items@[x]@),
        {
            out.push(read_described(&items[i]));
        }
        assert(described_views(out@) =~= ds.map_values(|x: Doc| described(x)));
    } else {
        assert(described_views(out@) =~= Seq::empty());
    }
    out
}

/// How many letters a text has.
pub fn alpha_count(s: &str) -> (r: usize)
    ensures
        r == crate::translate::letters(s@),
{
    let v = text::chars_of(s);
    let mut n: usize = 0;
    assert(v@.take(0) =~= Seq::empty());
    for i in 0..v.len()
        invariant
            n <= i,
            n == crate::translate::letters(v@.take(i as int)),
    {
        assert(v@.take(i + 1).drop_last() =~= v@.take(i as int));
        if text::is_alphabetic(v[i]) {
            n += 1;
        }
    }
    assert(v@.take(v@.len() as int) =~= v@);
    n
}

} // verus!
