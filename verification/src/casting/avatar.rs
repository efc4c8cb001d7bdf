//! Where to look for a character's face and voice.

use crate::casting::relabel;
use crate::f0;
use crate::f0::Gender;
use crate::media;
use crate::project;
use crate::project::Segment;
use crate::rank;
use crate::text;
use vstd::prelude::*;

verus! {

/// So many pictures are looked at for a character.
pub const MAX_PICTURES: usize = 24;

/// A picture every so many microseconds of a line.
pub const PICTURE_STEP: i64 = 600_000;

/// The lines of a speaker.
pub open spec fn lines_of(segs: Seq<Segment>, who: Seq<char>) -> Seq<Segment>
    decreases segs.len(),
{
    if segs.len() == 0 {
        Seq::empty()
    } else if segs.last().who() == who {
        lines_of(segs.drop_last(), who).push(segs.last())
    } else {
        lines_of(segs.drop_last(), who)
    }
}

/// The keys that put the longest line first.
pub open spec fn keys_of(lines: Seq<Segment>) -> Seq<int> {
    lines.map_values(|s: Segment| s.start - s.end)
}

/// How many pictures a line gives.
pub open spec fn pictures(length: int) -> int {
    let n = length / PICTURE_STEP as int;
    if n < 1 {
        1
    } else if n > 6 {
        6
    } else {
        n
    }
}

pub open spec fn length(s: Segment) -> int {
    if s.end > s.start {
        s.end - s.start
    } else {
        0
    }
}

/// The moments of a line: the middles of equal parts.
pub open spec fn moments(s: Segment) -> Seq<int> {
    let n = pictures(length(s));
    Seq::new(n as nat, |j: int| s.start + length(s) * (2 * j + 1) / (2 * n))
}

/// The moments of the lines, in the given order.
pub open spec fn all_moments(lines: Seq<Segment>, o: Seq<int>) -> Seq<int>
    decreases o.len(),
{
    if o.len() == 0 {
        Seq::empty()
    } else {
        all_moments(lines, o.drop_last()) + moments(lines[o.last()])
    }
}

/// No more than are looked at.
pub open spec fn capped(s: Seq<int>) -> Seq<int> {
    if s.len() <= MAX_PICTURES {
        s
    } else {
        s.take(MAX_PICTURES as int)
    }
}

/// When to look for a speaker's face: within their lines, the longest first.
pub open spec fn picture_times(segs: Seq<Segment>, who: Seq<char>) -> Seq<int> {
    let lines = lines_of(segs, who);
    capped(all_moments(lines, rank::stable_order(keys_of(lines))))
}

pub open spec fn times(v: Seq<i64>) -> Seq<int> {
    v.map_values(|t: i64| t as int)
}

fn moment(start: i64, len: i64, j: i64, n: i64) -> (r: i64)
    requires
        project::time_ok(start),
        0 <= len <= 2 * project::TIME_LIMIT,
        0 <= j < n <= 6,
    ensures
        r == start + len * (2 * j + 1) / (2 * n),
{
    proof {
        assert(0 <= len * (2 * j + 1) <= 200_000_000_000_000 * 11) by (nonlinear_arith)
            requires
                0 <= len <= 200_000_000_000_000,
                0 <= j <= 5,
        ;
        let p = len * (2 * j + 1);
        let d = 2 * n;
        assert(0 <= p / d <= p) by (nonlinear_arith)
            requires
                p >= 0,
                d >= 1,
        ;
    }
    start + len * (2 * j + 1) / (2 * n)
}

/// When to look for a speaker's face.
pub fn avatar_times(segs: &Vec<Segment>, who: &str) -> (r: Vec<i64>)
    requires
        project::all_timed(segs@),
    ensures
        times(r@) == picture_times(segs@, who@),
{
    let mut spans: Vec<(i64, i64)> = Vec::new();
    let mut keys: Vec<i128> = Vec::new();
    assert(segs@.take(0) =~= Seq::empty());
    for i in 0..segs.len()
        invariant
            project::all_timed(segs@),
            spans@.len() == keys@.len(),
            lines_of(segs@.take(i as int), who@).len() == spans@.len(),
            forall|k: int|
                0 <= k < spans@.len() ==> {
                    let s = lines_of(segs@.take(i as int), who@)[k];
                    &&& #[trigger] spans@[k] == (s.start, s.end)
                    &&& s.timed()
                },
            forall|k: int|
                0 <= k < keys@.len() ==> {
                    let s = lines_of(segs@.take(i as int), who@)[k];
                    #[trigger] keys@[k] == s.start - s.end
                },
    {
        assert(segs@.take(i + 1).drop_last() =~= segs@.take(i as int));
        assert(segs@[i as int].timed());
        let s = &segs[i];
        if text::same(s.speaker_key().as_str(), who) {
            spans.push((s.start, s.end));
            keys.push(s.start as i128 - s.end as i128);
        }
    }
    assert(segs@.take(segs@.len() as int) =~= segs@);
    let ghost lines = lines_of(segs@, who@);
    assert forall|m: int| 0 <= m < lines.len() implies (#[trigger] lines[m]).timed() by {
        assert(spans@[m] == (lines[m].start, lines[m].end));
    }
    assert(rank::ints(keys@) =~= keys_of(lines));
    let order = rank::stable_sort(&keys);
    let ghost o = rank::indices(order@);
    let mut out: Vec<i64> = Vec::new();
    assert(o.take(0) =~= Seq::empty());
    assert(times(out@) =~= capped(all_moments(lines, o.take(0))));
    for k in 0..order.len()
        invariant
            o == rank::indices(order@),
            rank::is_order(o, keys_of(lines)),
            lines.len() == spans@.len(),
            keys_of(lines).len() == lines.len(),
            forall|m: int|
                0 <= m < spans@.len() ==> (#[trigger] spans@[m]).0 == lines[m].start && spans@[m].1
                    == lines[m].end,
            project::all_timed(lines),
            times(out@) == capped(all_moments(lines, o.take(k as int))),
    {
        assert(o.take(k + 1).drop_last() =~= o.take(k as int));
        let x: usize = order[k];
        assert(o[k as int] == x);
        assert(o.take(k + 1).last() == x);
        let (start, end): (i64, i64) = spans[x];
        let ghost line = lines[x as int];
        assert(line.timed());
        let len: i64 = if end > start {
            end - start
        } else {
            0
        };
        let parts: i64 = len / PICTURE_STEP;
        let n: i64 = if parts < 1 {
            1
        } else if parts > 6 {
            6
        } else {
            parts
        };
        let ghost head = all_moments(lines, o.take(k as int));
        let ghost ms = moments(line);
        assert(ms.len() == n);
        assert(head + ms.take(0) =~= head);
        let mut j: i64 = 0;
        while j < n
            invariant
                0 <= j <= n,
                1 <= n <= 6,
                n == pictures(length(line)),
                len == length(line),
                start == line.start,
                project::time_ok(start),
                0 <= len <= 2 * project::TIME_LIMIT,
                ms == moments(line),
                ms.len() == n,
                times(out@) == capped(head + ms.take(j as int)),
            decreases n - j,
        {
            let ghost was = head + ms.take(j as int);
            assert(head + ms.take(j + 1) =~= was.push(ms[j as int]));
            assert(times(out@).len() == out@.len());
            if out.len() < MAX_PICTURES {
                assert(times(out@) =~= was);
                let m: i64 = moment(start, len, j, n);
                let ghost before = times(out@);
                out.push(m);
                assert(times(out@) =~= before.push(m as int));
                assert(times(out@) =~= capped(head + ms.take(j + 1)));
            } else {
                assert(times(out@) =~= capped(was.push(ms[j as int])));
            }
            j += 1;
        }
        assert(ms.take(n as int) =~= ms);
    }
    assert(o.take(o.len() as int) =~= o);
    out
}

/// How good the best picture so far is: its quality, and whether the face is large enough. The quality
/// orders the measures; nothing where it could not be measured.
#[derive(Clone, Copy, Debug)]
pub struct Rating {
    pub quality: Option<i64>,
    pub large: bool,
}

pub open spec fn beats(q: Option<i64>, than: Option<i64>) -> bool {
    q matches Some(a) && than matches Some(b) && a > b
}

/// Whether a picture is better: any large face beats any small one, else the quality decides.
pub fn is_better(best: Option<Rating>, face: Rating) -> (r: bool)
    ensures
        r == match best {
            None => true,
            Some(b) => (face.large && !b.large) || (face.large == b.large && beats(
                face.quality,
                b.quality,
            )),
        },
{
    match best {
        None => true,
        Some(b) => {
            let higher = match (face.quality, b.quality) {
                (Some(x), Some(y)) => x > y,
                _ => false,
            };
            (face.large && !b.large) || (face.large == b.large && higher)
        },
    }
}

/// The last of the speaker's longest lines.
pub open spec fn longest(segs: Seq<Segment>, who: Seq<char>) -> Option<int>
    decreases segs.len(),
{
    if segs.len() == 0 {
        None
    } else {
        let before = longest(segs.drop_last(), who);
        let s = segs.last();
        if s.who() != who {
            before
        } else {
            match before {
                Some(k) => if s.end - s.start >= segs[k].end - segs[k].start {
                    Some(segs.len() - 1)
                } else {
                    before
                },
                None => Some(segs.len() - 1),
            }
        }
    }
}

/// The last of the speaker's longest lines.
pub fn longest_line(segs: &Vec<Segment>, who: &str) -> (r: Option<usize>)
    ensures
        match r {
            Some(k) => k < segs@.len() && longest(segs@, who@) == Some(k as int),
            None => longest(segs@, who@) is None,
        },
{
    let mut best: Option<usize> = None;
    assert(segs@.take(0) =~= Seq::empty());
    for i in 0..segs.len()
        invariant
            match best {
                Some(k) => k < i && longest(segs@.take(i as int), who@) == Some(k as int),
                None => longest(segs@.take(i as int), who@) is None,
            },
    {
        assert(segs@.take(i + 1).drop_last() =~= segs@.take(i as int));
        let s = &segs[i];
        if text::same(s.speaker_key().as_str(), who) {
            match best {
                Some(k) => {
                    let b = &segs[k];
                    if s.end as i128 - s.start as i128 >= b.end as i128 - b.start as i128 {
                        best = Some(i);
                    }
                },
                None => {
                    best = Some(i);
                },
            }
        }
    }
    assert(segs@.take(segs@.len() as int) =~= segs@);
    best
}

/// A shorter line is no sample of a voice.
pub const LEAST_SAMPLE: i64 = 1_000_000;

/// The longest sample of a voice.
pub const LONGEST_SAMPLE: i64 = 6_000_000;

/// As much of a line is looked at for its pitch.
pub const LONGEST_PITCH: i64 = 30_000_000;

/// What of a line is the sample of a voice; nothing where the line is too short.
pub fn voice_sample(s: &Segment) -> (r: Option<(i64, i64)>)
    requires
        s.timed(),
    ensures
        r == if s.end - s.start < LEAST_SAMPLE {
            None
        } else {
            Some(
                (
                    s.start,
                    relabel::cut_end(s.start as int, s.end as int, LONGEST_SAMPLE as int) as i64,
                ),
            )
        },
{
    if s.end - s.start < LEAST_SAMPLE {
        None
    } else {
        Some((s.start, relabel::end_of_cut(s.start, s.end, LONGEST_SAMPLE)))
    }
}

/// What of a line is looked at for its pitch.
pub fn pitch_sample(s: &Segment) -> (r: (i64, i64))
    requires
        s.timed(),
    ensures
        r.0 == s.start,
        r.1 == relabel::cut_end(s.start as int, s.end as int, LONGEST_PITCH as int),
{
    (s.start, relabel::end_of_cut(s.start, s.end, LONGEST_PITCH))
}

/// The gender that is shown for a pitch, in millionths of a hertz: only where it is certain. Between 150
/// and 170 hertz, and outside 60 to 400, it is not.
pub open spec fn shown_gender(pitch: int) -> Option<Gender> {
    if pitch < 60_000_000 || pitch > 400_000_000 || (150_000_000 <= pitch <= 170_000_000) {
        None
    } else {
        Some(f0::gender_at(pitch))
    }
}

/// The gender that is shown for a pitch.
pub fn gender_label(pitch: i64) -> (r: Option<&'static str>)
    ensures
        match shown_gender(pitch as int) {
            None => r is None,
            Some(Gender::Male) => r is Some && r->0@ == "male"@,
            Some(Gender::Female) => r is Some && r->0@ == "female"@,
        },
{
    if pitch < 60_000_000 || pitch > 400_000_000 || (150_000_000 <= pitch && pitch <= 170_000_000) {
        return None;
    }
    match f0::gender_of(pitch) {
        Gender::Male => Some("male"),
        Gender::Female => Some("female"),
    }
}

// ── The part of a picture with the face ─────────────────────────────────────

/// As many units are in a pixel when the part of a picture is worked out.
pub const PIXEL: i64 = 2_000_000;

pub open spec fn within(x: int, lo: int, hi: int) -> int {
    if x < lo {
        lo
    } else if x > hi {
        hi
    } else {
        x
    }
}

/// Where a part begins and how long it is, in pixels: `half` on both sides of `mid`, within a picture of
/// `size` pixels, one pixel at least.
pub open spec fn stretch(mid: int, half: int, size: int) -> (int, int) {
    let from = within(mid - half, 0, (size - 1) * PIXEL) / PIXEL as int;
    let to = within(mid + half, 0, size * PIXEL) / PIXEL as int;
    (from, if to - from < 1 {
        1
    } else {
        to - from
    })
}

/// Half of the longer side of the face and what is around it, in units.
pub open spec fn half_side(x1: int, y1: int, x2: int, y2: int, pad: int) -> int {
    let side = if x2 - x1 > y2 - y1 {
        x2 - x1
    } else {
        y2 - y1
    };
    if side * (1000 + pad) < PIXEL {
        PIXEL as int
    } else {
        side * (1000 + pad)
    }
}

/// Where a face is, in thousandths of a pixel.
#[derive(Clone, Copy, Debug, PartialEq, Eq, Structural)]
pub struct FaceBox {
    pub x1: i32,
    pub y1: i32,
    pub x2: i32,
    pub y2: i32,
}

/// The smaller side of a face, in thousandths of a pixel.
pub open spec fn side_of(face: FaceBox) -> int {
    let w = face.x2 - face.x1;
    let h = face.y2 - face.y1;
    let side = if w < h {
        w
    } else {
        h
    };
    if side < 0 {
        0
    } else {
        side
    }
}

/// The smaller side of a face, in thousandths of a pixel.
pub fn face_side(face: &FaceBox) -> (r: i64)
    ensures
        r == side_of(*face),
{
    let w: i64 = face.x2 as i64 - face.x1 as i64;
    let h: i64 = face.y2 as i64 - face.y1 as i64;
    let side: i64 = if w < h {
        w
    } else {
        h
    };
    if side < 0 {
        0
    } else {
        side
    }
}

/// The least side of a clear face in millionths of a pixel, where nothing else is set.
pub const LEAST_FACE: i64 = 96_000_000;

/// The least side of a clear face, as the environment says, in millionths of a pixel.
pub open spec fn least_face_of(setting: Option<Seq<char>>) -> int {
    match setting {
        Some(s) => match media::moment(text::trimmed(s)) {
            Some(n) => n,
            None => LEAST_FACE as int,
        },
        None => LEAST_FACE as int,
    }
}

/// The least side of a clear face, as the environment says.
pub fn least_face(setting: Option<&str>) -> (r: i64)
    ensures
        r == least_face_of(
            match setting {
                Some(s) => Some(s@),
                None => None,
            },
        ),
{
    match setting {
        Some(s) => match media::read_moment(text::trim(s).as_str()) {
            Some(n) => n,
            None => LEAST_FACE,
        },
        None => LEAST_FACE,
    }
}

/// Whether a face is large enough to be clear when it is shown.
pub fn is_large(face: &FaceBox, least: i64) -> (r: bool)
    ensures
        r == (side_of(*face) * 1000 >= least),
{
    face_side(face) * 1000 >= least
}

/// A part of a picture, in pixels.
#[derive(Clone, Copy, Debug, PartialEq, Eq, Structural)]
pub struct Part {
    pub x: u32,
    pub y: u32,
    pub w: u32,
    pub h: u32,
}

fn clamp_to(x: i64, lo: i64, hi: i64) -> (r: i64)
    requires
        lo <= hi,
    ensures
        r == within(x as int, lo as int, hi as int),
{
    if x < lo {
        lo
    } else if x > hi {
        hi
    } else {
        x
    }
}

fn stretch_of(mid: i64, half: i64, size: u32) -> (r: (u32, u32))
    requires
        1 <= size <= 1_000_000,
        -10_000_000_000_000 <= mid <= 10_000_000_000_000,
        0 <= half <= 1_000_000_000_000_000,
    ensures
        (r.0 as int, r.1 as int) == stretch(mid as int, half as int, size as int),
        r.0 < size,
{
    let n: i64 = size as i64;
    let from: i64 = clamp_to(mid - half, 0, (n - 1) * PIXEL) / PIXEL;
    let to: i64 = clamp_to(mid + half, 0, n * PIXEL) / PIXEL;
    let len: i64 = if to - from < 1 {
        1
    } else {
        to - from
    };
    (from as u32, len as u32)
}

/// The square part of a picture around a face, with `pad` thousandths of its side around it, cut where the
/// picture ends.
pub fn square_face_crop(face: &FaceBox, pad: u32, width: u32, height: u32) -> (r: Part)
    requires
        1 <= width <= 1_000_000,
        1 <= height <= 1_000_000,
        pad <= 100_000,
    ensures
        ({
            let half = half_side(
                face.x1 as int,
                face.y1 as int,
                face.x2 as int,
                face.y2 as int,
                pad as int,
            );
            &&& (r.x as int, r.w as int) == stretch((face.x1 + face.x2) * 1000, half, width as int)
            &&& (r.y as int, r.h as int) == stretch((face.y1 + face.y2) * 1000, half, height as int)
        }),
{
    let w: i64 = face.x2 as i64 - face.x1 as i64;
    let h: i64 = face.y2 as i64 - face.y1 as i64;
    let side: i64 = if w > h {
        w
    } else {
        h
    };
    let k: i64 = 1000 + pad as i64;
    assert(-500_000_000_000_000 <= side * k <= 500_000_000_000_000) by (nonlinear_arith)
        requires
            -4_294_967_296 <= side <= 4_294_967_296,
            1000 <= k <= 101_000,
    ;
    let half: i64 = if side * k < PIXEL {
        PIXEL
    } else {
        side * k
    };
    let (x, w) = stretch_of((face.x1 as i64 + face.x2 as i64) * 1000, half, width);
    let (y, h) = stretch_of((face.y1 as i64 + face.y2 as i64) * 1000, half, height);
    Part { x, y, w, h }
}

/// The part around a face lies within the picture and is not empty.
pub proof fn law_part_is_inside(mid: int, half: int, size: int)
    requires
        size >= 1,
        half >= 0,
    ensures
        0 <= stretch(mid, half, size).0 < size,
        stretch(mid, half, size).1 >= 1,
        stretch(mid, half, size).0 + stretch(mid, half, size).1 <= size,
{
}

// ── Laws ────────────────────────────────────────────────────────────────────

/// Every moment at which a line is looked at lies within it.
pub proof fn law_moments_lie_in_the_line(s: Segment, j: int)
    requires
        0 <= j < moments(s).len(),
    ensures
        s.start <= moments(s)[j] <= s.start + length(s),
{
    let n = pictures(length(s));
    let len = length(s);
    assert(0 <= len * (2 * j + 1) / (2 * n) <= len) by (nonlinear_arith)
        requires
            0 <= j < n,
            len >= 0,
    ;
}

/// A gender that is shown is the one that the pitch is heard as, away from the limit between the two.
pub proof fn law_shown_gender_is_certain(pitch: int)
    ensures
        shown_gender(pitch) matches Some(g) ==> (g == Gender::Male) == (pitch < 150_000_000),
{
}

/// The longest line is one of the speaker's, and none of theirs is longer.
pub proof fn law_longest_line(segs: Seq<Segment>, who: Seq<char>)
    ensures
        longest(segs, who) matches Some(k) ==> 0 <= k < segs.len() && segs[k].who() == who
            && forall|j: int|
            0 <= j < segs.len() && (#[trigger] segs[j]).who() == who ==> segs[j].end - segs[j].start
                <= segs[k].end - segs[k].start,
        longest(segs, who) is None ==> forall|j: int|
            0 <= j < segs.len() ==> (#[trigger] segs[j]).who() != who,
    decreases segs.len(),
{
    if segs.len() > 0 {
        let t = segs.drop_last();
        law_longest_line(t, who);
        assert forall|j: int| 0 <= j < t.len() implies t[j] == #[trigger] segs[j] by {}
    }
}

proof fn lemma_lines_are_filtered(segs: Seq<Segment>, who: Seq<char>)
    ensures
        lines_of(segs, who) == segs.filter(|s: Segment| s.who() == who),
    decreases segs.len(),
{
    reveal(Seq::filter);
    if segs.len() > 0 {
        lemma_lines_are_filtered(segs.drop_last(), who);
    }
}

/// A line is looked at once for each six tenths of a second, once at least and six times at most, in the middle
/// of each of so many equal parts.
pub proof fn law_line_is_looked_at_in_equal_parts(s: Segment, j: int)
    requires
        s.start <= s.end,
        0 <= j < moments(s).len(),
    ensures
        ({
            let d = s.end - s.start;
            let n = moments(s).len() as int;
            &&& 1 <= n <= 6
            &&& d >= 3_600_000 ==> n == 6
            &&& 600_000 <= d < 3_600_000 ==> n * 600_000 <= d < (n + 1) * 600_000
            &&& d < 600_000 ==> n == 1
            &&& 2 * n * (moments(s)[j] - s.start) <= d * (2 * j + 1) < 2 * n * (moments(s)[j] - s.start + 1)
        }),
{
    let d = length(s);
    let n = pictures(d);
    let a = d * (2 * j + 1);
    let q = a / (2 * n);
    assert(2 * n * q <= a < 2 * n * (q + 1)) by (nonlinear_arith)
        requires
            q == a / (2 * n),
            n > 0,
    ;
}

/// A speaker's face is looked for in their own lines alone, the longest first and of equal ones the earlier, at
/// 24 moments at most. `o` is the order of the lines.
pub proof fn law_face_is_looked_for_in_the_longest_lines(segs: Seq<Segment>, who: Seq<char>) -> (o: Seq<int>)
    ensures
        ({
            let lines = segs.filter(|s: Segment| s.who() == who);
            let all = o.map_values(|i: int| moments(lines[i])).flatten();
            &&& rank::is_order(o, lines.map_values(|s: Segment| s.start - s.end))
            &&& picture_times(segs, who) == (if all.len() <= 24 {
                all
            } else {
                all.take(24)
            })
        }),
{
    lemma_lines_are_filtered(segs, who);
    let lines = lines_of(segs, who);
    let keys = keys_of(lines);
    assert(keys =~= lines.map_values(|s: Segment| s.start - s.end));
    rank::law_stable_order(keys);
    let o = rank::stable_order(keys);
    lemma_all_moments(lines, o);
    o
}

proof fn lemma_all_moments(lines: Seq<Segment>, o: Seq<int>)
    ensures
        all_moments(lines, o) == o.map_values(|i: int| moments(lines[i])).flatten(),
    decreases o.len(),
{
    let f = |i: int| moments(lines[i]);
    if o.len() > 0 {
        let p = o.drop_last();
        lemma_all_moments(lines, p);
        assert(o.map_values(f) =~= p.map_values(f).push(moments(lines[o.last()])));
        p.map_values(f).lemma_flatten_push(moments(lines[o.last()]));
    } else {
        assert(o.map_values(f) =~= Seq::<Seq<int>>::empty());
        assert(Seq::<Seq<int>>::empty().flatten() =~= Seq::<int>::empty());
    }
}

/// A gender is shown from 60 to 150 hertz as male and from 170 to 400 as female, and nowhere else.
pub proof fn law_gender_is_shown_where_it_is_certain(pitch: int)
    ensures
        shown_gender(pitch) == Some(Gender::Male) <==> 60_000_000 <= pitch < 150_000_000,
        shown_gender(pitch) == Some(Gender::Female) <==> 170_000_000 < pitch <= 400_000_000,
{
}

/// The last of somebody's longest lines is the longest.
pub proof fn law_last_of_the_longest(segs: Seq<Segment>, who: Seq<char>)
    ensures
        longest(segs, who) matches Some(k) ==> forall|j: int|
            k < j < segs.len() && (#[trigger] segs[j]).who() == who ==> segs[j].end - segs[j].start < segs[k].end
                - segs[k].start,
    decreases segs.len(),
{
    if segs.len() > 0 {
        let prev = segs.drop_last();
        law_last_of_the_longest(prev, who);
        law_longest_line(prev, who);
        assert(forall|j: int| 0 <= j < prev.len() ==> prev[j] == #[trigger] segs[j]);
        assert(segs[segs.len() - 1] == segs.last());
    }
}

/// The side of a face is the smaller of its two, and nothing where it has none.
pub proof fn law_side_of_a_face(f: FaceBox)
    ensures
        f.x1 <= f.x2 && f.y1 <= f.y2 ==> side_of(f) <= f.x2 - f.x1 && side_of(f) <= f.y2 - f.y1 && (side_of(f)
            == f.x2 - f.x1 || side_of(f) == f.y2 - f.y1),
        f.x2 <= f.x1 || f.y2 <= f.y1 ==> side_of(f) == 0,
{
}

/// The part around a face is centred on it: as far as the picture reaches it goes from `half` before the middle
/// to `half` behind it.
pub proof fn law_part_is_around_the_middle(mid: int, half: int, size: int)
    requires
        size >= 1,
        half >= 2_000_000,
        0 <= mid - half,
        mid + half <= size * 2_000_000,
    ensures
        ({
            let r = stretch(mid, half, size);
            &&& 2_000_000 * r.0 <= mid - half < 2_000_000 * (r.0 + 1)
            &&& 2_000_000 * (r.0 + r.1) <= mid + half < 2_000_000 * (r.0 + r.1 + 1)
        }),
{
}

} // verus!
