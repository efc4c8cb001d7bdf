//! What is read from and told to the media tools. Times are whole microseconds, factors and rates are
//! in millionths.

use crate::decimal;
use crate::dub::slots::Span;
use crate::json::Doc;
use crate::json::Json;
use crate::project::TIME_LIMIT;
use crate::text;
use crate::words;
use vstd::prelude::*;

verus! {

// ── Reading what a file holds ───────────────────────────────────────────────

/// The most microseconds that are held, either way.
pub const FURTHEST: i64 = 9_223_372_036_854_775_807;

/// The microseconds that a decimal number of seconds writes, as far as they can be held; nothing where it
/// writes none.
pub open spec fn moment(s: Seq<char>) -> Option<int> {
    decimal::held(s, 6, FURTHEST as int)
}

/// The microseconds that a decimal number of seconds writes.
pub fn read_moment(s: &str) -> (r: Option<i64>)
    ensures
        match r {
            Some(t) => moment(s@) == Some(t as int),
            None => moment(s@) is None,
        },
{
    match decimal::read_held(s, 6, FURTHEST as i128) {
        Some(t) => Some(t as i64),
        None => None,
    }
}

/// The moment in the member named `k`.
pub open spec fn moment_at(d: Doc, k: Seq<char>) -> Option<int> {
    match d.get(k) {
        Some(Doc::Number { whole, written }) => moment(written),
        _ => None,
    }
}

/// The moment in the member named `k`.
pub fn read_moment_at(j: &Json, k: &str) -> (r: Option<i64>)
    ensures
        match r {
            Some(t) => moment_at(j@, k@) == Some(t as int),
            None => moment_at(j@, k@) is None,
        },
{
    match j.get(k) {
        Some(Json::Number(n)) => read_moment(n.written.as_str()),
        _ => None,
    }
}

/// The furthest from zero that the number on either side of a fraction is held, in millionths of a
/// millionth.
pub const SIDE_LIMIT: i128 = 1_000_000_000_000_000_000_000_000_000_000;

/// The number on one side of a fraction, in millionths of a millionth; zero where there is none.
pub open spec fn side(s: Seq<char>) -> int {
    match decimal::held(s, 12, SIDE_LIMIT as int) {
        Some(n) => n,
        None => 0,
    }
}

fn read_side(s: &str) -> (r: i128)
    ensures
        r == side(s@),
        -SIDE_LIMIT <= r <= SIDE_LIMIT,
{
    match decimal::read_held(s, 12, SIDE_LIMIT) {
        Some(n) => n,
        None => 0,
    }
}

/// `n` in parts of `d`, cut towards zero.
pub open spec fn ratio(n: int, d: int) -> int {
    let size = (if n < 0 {
        -n
    } else {
        n
    }) / (if d < 0 {
        -d
    } else {
        d
    });
    if (n < 0) == (d < 0) {
        size
    } else {
        -size
    }
}

/// A rate written as a fraction, in millionths; zero where it is none.
pub open spec fn rate_of(s: Seq<char>) -> int {
    let parts = text::pieces(s, '/');
    if parts.len() < 2 || side(parts[1]) == 0 {
        0
    } else {
        ratio(side(parts[0]) * 1_000_000, side(parts[1]))
    }
}

fn read_ratio(n: i128, d: i128) -> (r: i128)
    requires
        -1_000_000 * SIDE_LIMIT <= n <= 1_000_000 * SIDE_LIMIT,
        -SIDE_LIMIT <= d <= SIDE_LIMIT,
        d != 0,
    ensures
        r == ratio(n as int, d as int),
{
    let a: i128 = if n < 0 {
        -n
    } else {
        n
    };
    let b: i128 = if d < 0 {
        -d
    } else {
        d
    };
    let size: i128 = a / b;
    proof {
        assert(0 <= size <= a) by (nonlinear_arith)
            requires
                a >= 0,
                b >= 1,
                size == a / b,
        ;
    }
    if (n < 0) == (d < 0) {
        size
    } else {
        -size
    }
}

/// A rate written as a fraction, in millionths.
pub fn parse_fps(s: &str) -> (r: i128)
    ensures
        r == rate_of(s@),
{
    let parts = text::split_at_each(s, '/');
    let ghost ps = text::pieces(s@, '/');
    assert(ps.len() == parts@.len());
    if parts.len() < 2 {
        return 0;
    }
    assert(text::views(parts@)[0] == parts@[0]@ && text::views(parts@)[1] == parts@[1]@);
    let n = read_side(parts[0].as_str());
    let d = read_side(parts[1].as_str());
    if d == 0 {
        0
    } else {
        read_ratio(n * 1_000_000, d)
    }
}

/// What a file holds.
#[derive(Clone, Debug)]
pub struct MediaMeta {
    pub duration: i64,
    pub width: i64,
    pub height: i64,
    pub fps: i128,
    pub src_codec: String,
}

/// Why nothing can be said of a file.
#[derive(Clone, Copy, Debug, PartialEq, Eq, Structural)]
pub enum ProbeError {
    /// The report lists no streams.
    NoStreams,
    /// There is neither picture nor sound.
    NoMedia,
    /// Its duration is not known.
    NoDuration,
}

/// The index of the first stream of the kind.
pub open spec fn stream_of(streams: Seq<Doc>, kind: Seq<char>) -> Option<int>
    decreases streams.len(),
{
    if streams.len() == 0 {
        None
    } else if streams[0].text_at("codec_type"@) == Some(kind) {
        Some(0int)
    } else {
        match stream_of(streams.drop_first(), kind) {
            Some(i) => Some(i + 1),
            None => None,
        }
    }
}

pub open spec fn list_at(d: Doc, k: Seq<char>) -> Option<Seq<Doc>> {
    match d.get(k) {
        Some(Doc::List(v)) => Some(v),
        _ => None,
    }
}

pub open spec fn duration_at(d: Doc) -> Option<int> {
    match d.text_at("duration"@) {
        Some(s) => moment(s),
        None => None,
    }
}

/// The duration of a file: that of the whole, else that of its sound.
pub open spec fn duration_in(d: Doc, sound: Option<Doc>) -> Option<int> {
    let whole = match d.get("format"@) {
        Some(f) => duration_at(f),
        None => None,
    };
    match whole {
        Some(t) => Some(t),
        None => match sound {
            Some(s) => duration_at(s),
            None => None,
        },
    }
}

pub open spec fn number_at(d: Option<Doc>, k: Seq<char>) -> int {
    match d {
        Some(s) => match s.whole_at(k) {
            Some(n) => n as int,
            None => 0,
        },
        None => 0,
    }
}

pub open spec fn pick(streams: Seq<Doc>, kind: Seq<char>) -> Option<Doc> {
    match stream_of(streams, kind) {
        Some(i) => Some(streams[i]),
        None => None,
    }
}

/// What a file holds, as a value.
pub struct MetaModel {
    pub duration: int,
    pub width: int,
    pub height: int,
    pub fps: int,
    pub src_codec: Seq<char>,
}

impl View for MediaMeta {
    type V = MetaModel;

    open spec fn view(&self) -> MetaModel {
        MetaModel {
            duration: self.duration as int,
            width: self.width as int,
            height: self.height as int,
            fps: self.fps as int,
            src_codec: self.src_codec@,
        }
    }
}

/// What the report `d` of the probing tool says of a file. A file without a picture has no size and no
/// rate, and the codec of its sound.
pub open spec fn meta_of(d: Doc) -> Result<MetaModel, ProbeError> {
    match list_at(d, "streams"@) {
        None => Err(ProbeError::NoStreams),
        Some(streams) => {
            let picture = pick(streams, "video"@);
            let sound = pick(streams, "audio"@);
            if picture is None && sound is None {
                Err(ProbeError::NoMedia)
            } else {
                match duration_in(d, sound) {
                    None => Err(ProbeError::NoDuration),
                    Some(duration) => Ok(
                        MetaModel {
                            duration,
                            width: number_at(picture, "width"@),
                            height: number_at(picture, "height"@),
                            fps: match picture {
                                Some(p) => match p.text_at("r_frame_rate"@) {
                                    Some(r) => rate_of(r),
                                    None => 0,
                                },
                                None => 0,
                            },
                            src_codec: {
                                let s = match picture {
                                    Some(p) => p,
                                    None => sound->0,
                                };
                                match s.text_at("codec_name"@) {
                                    Some(c) => c,
                                    None => Seq::empty(),
                                }
                            },
                        },
                    ),
                }
            }
        },
    }
}

pub open spec fn docs(v: Seq<Json>) -> Seq<Doc> {
    v.map_values(|j: Json| j@)
}

fn find_stream(streams: &Vec<Json>, kind: &str) -> (r: Option<usize>)
    ensures
        match r {
            Some(i) => i < streams@.len() && stream_of(docs(streams@), kind@) == Some(i as int),
            None => stream_of(docs(streams@), kind@) is None,
        },
{
    let ghost sv = docs(streams@);
    assert(sv.skip(0) =~= sv);
    for i in 0..streams.len()
        invariant
            sv == docs(streams@),
            match stream_of(sv, kind@) {
                Some(k) => stream_of(sv.skip(i as int), kind@) == Some(k - i),
                None => stream_of(sv.skip(i as int), kind@) is None,
            },
    {
        assert(sv.skip(i as int)[0] == streams@[i as int]@);
        assert(sv.skip(i as int).drop_first() =~= sv.skip(i + 1));
        if let Some(t) = streams[i].text_at("codec_type") {
            if text::same(t.as_str(), kind) {
                return Some(i);
            }
        }
    }
    assert(sv.skip(streams@.len() as int).len() == 0);
    None
}

fn read_duration(j: &Json) -> (r: Option<i64>)
    ensures
        match r {
            Some(t) => duration_at(j@) == Some(t as int),
            None => duration_at(j@) is None,
        },
{
    match j.text_at("duration") {
        Some(s) => read_moment(s.as_str()),
        None => None,
    }
}

/// What the report of the probing tool says of a file.
pub fn probe_report(report: &Json) -> (r: Result<MediaMeta, ProbeError>)
    ensures
        match r {
            Ok(m) => meta_of(report@) == Ok::<MetaModel, ProbeError>(m@),
            Err(e) => meta_of(report@) == Err::<MetaModel, ProbeError>(e),
        },
{
    let streams: &Vec<Json> = match report.get("streams") {
        Some(Json::List(v)) => v,
        _ => {
            return Err(ProbeError::NoStreams);
        },
    };
    let ghost sv = docs(streams@);
    assert(list_at(report@, "streams"@)->0 =~= sv);
    let vi = find_stream(streams, "video");
    let ai = find_stream(streams, "audio");
    if vi.is_none() && ai.is_none() {
        return Err(ProbeError::NoMedia);
    }
    let whole: Option<i64> = match report.get("format") {
        Some(f) => read_duration(f),
        None => None,
    };
    let duration: i64 = match whole {
        Some(t) => t,
        None => {
            let sound: Option<i64> = match ai {
                Some(i) => read_duration(&streams[i]),
                None => None,
            };
            match sound {
                Some(t) => t,
                None => {
                    return Err(ProbeError::NoDuration);
                },
            }
        },
    };
    let mut width: i64 = 0;
    let mut height: i64 = 0;
    let mut fps: i128 = 0;
    if let Some(i) = vi {
        let p = &streams[i];
        if let Some(w) = p.whole_at("width") {
            width = w;
        }
        if let Some(h) = p.whole_at("height") {
            height = h;
        }
        if let Some(r) = p.text_at("r_frame_rate") {
            fps = parse_fps(r.as_str());
        }
    }
    let at: usize = match vi {
        Some(i) => i,
        None => match ai {
            Some(i) => i,
            None => 0,
        },
    };
    let src_codec: String = match streams[at].text_at("codec_name") {
        Some(c) => c.clone(),
        None => String::new(),
    };
    Ok(MediaMeta { duration, width, height, fps, src_codec })
}

// ── Speeding up and ducking ─────────────────────────────────────────────────

/// A number of seconds with three digits behind the point.
pub open spec fn milli_text(us: int) -> Seq<char> {
    let ms = (us + 500) / 1000;
    text::decimal((ms / 1000) as nat) + "."@ + fixed_digits((ms % 1000) as nat, 3)
}

/// The last `n` decimal digits of `x`, with zeros in front.
pub open spec fn fixed_digits(x: nat, n: nat) -> Seq<char>
    decreases n,
{
    if n == 0 {
        Seq::empty()
    } else {
        fixed_digits(x / 10, (n - 1) as nat).push((48 + x % 10) as char)
    }
}

/// Appends the last `n` decimal digits of `x`.
pub fn push_fixed(out: &mut String, x: u64, n: u32)
    ensures
        final(out)@ == old(out)@ + fixed_digits(x as nat, n as nat),
    decreases n,
{
    if n == 0 {
        assert(old(out)@ + fixed_digits(x as nat, 0) =~= old(out)@);
        return ;
    }
    push_fixed(out, x / 10, n - 1);
    let ghost before = out@;
    out.push((48u8 + (x % 10) as u8) as char);
    assert(out@ =~= old(out)@ + fixed_digits(x as nat, n as nat));
}

/// A number of seconds with three digits behind the point.
pub fn say_millis(us: i64) -> (r: String)
    requires
        0 <= us <= 2 * TIME_LIMIT,
    ensures
        r@ == milli_text(us as int),
{
    let ms: u64 = ((us + 500) / 1000) as u64;
    let mut out = text::to_decimal(ms / 1000);
    out.append(".");
    push_fixed(&mut out, ms % 1000, 3);
    out
}

/// How long before a block the background starts to fall, how long it stays down behind it, and how
/// long it takes to rise.
pub const DUCK_PREROLL: i64 = 80_000;

pub const DUCK_HOLD: i64 = 300_000;

pub const DUCK_FADE_UP: i64 = 400_000;

/// The fall and the rise around one block of speech, as an expression of the time `t`.
pub open spec fn trap_text(b: Span) -> Seq<char> {
    let ds = if b.start < DUCK_PREROLL {
        0
    } else {
        b.start - DUCK_PREROLL
    };
    let ue = b.end + DUCK_HOLD + DUCK_FADE_UP;
    "clip(min((t-"@ + milli_text(ds) + ")/0.100,("@ + milli_text(ue) + "-t)/0.400),0,1)"@
}

pub open spec fn sum_text(blocks: Seq<Span>) -> Seq<char>
    decreases blocks.len(),
{
    if blocks.len() == 0 {
        Seq::empty()
    } else if blocks.len() == 1 {
        trap_text(blocks[0])
    } else {
        sum_text(blocks.drop_last()) + "+"@ + trap_text(blocks.last())
    }
}

/// The volume of the background under the blocks of speech, as an expression of the time: full without
/// blocks, else less by `depth` ten-thousandths where speech is heard.
pub open spec fn volume_text(blocks: Seq<Span>, depth: int) -> Seq<char> {
    if blocks.len() == 0 {
        "1"@
    } else {
        "1-"@ + text::decimal((depth / 10_000) as nat) + "."@ + fixed_digits(
            (depth % 10_000) as nat,
            4,
        ) + "*clip("@ + sum_text(blocks) + ",0,1)"@
    }
}

/// Blocks whose times can be written.
pub open spec fn blocks_ok(blocks: Seq<Span>) -> bool {
    forall|i: int|
        0 <= i < blocks.len() ==> -TIME_LIMIT <= (#[trigger] blocks[i]).start <= TIME_LIMIT && 0
            <= blocks[i].end <= TIME_LIMIT
}

/// The volume of the background under the blocks of speech, as an expression of the time.
pub fn duck_volume_expr(blocks: &Vec<Span>, depth: u32) -> (r: String)
    requires
        blocks_ok(blocks@),
    ensures
        r@ == volume_text(blocks@, depth as int),
{
    if blocks.len() == 0 {
        return "1".to_owned();
    }
    let mut sum = String::new();
    assert(blocks@.take(0) =~= Seq::empty());
    for i in 0..blocks.len()
        invariant
            blocks_ok(blocks@),
            sum@ == sum_text(blocks@.take(i as int)),
    {
        let b = blocks[i];
        assert(blocks@[i as int] == b);
        assert(blocks@.take(i + 1).drop_last() =~= blocks@.take(i as int));
        assert(blocks@.take(i + 1).last() == b);
        let ds: i64 = if b.start < DUCK_PREROLL {
            0
        } else {
            b.start - DUCK_PREROLL
        };
        let ue: i64 = b.end + DUCK_HOLD + DUCK_FADE_UP;
        let mut trap = "clip(min((t-".to_owned();
        trap.append(say_millis(ds).as_str());
        trap.append(")/0.100,(");
        trap.append(say_millis(ue).as_str());
        trap.append("-t)/0.400),0,1)");
        if i > 0 {
            sum.append("+");
        }
        sum.append(trap.as_str());
        if i == 0 {
            assert(sum@ =~= trap_text(b));
        }
    }
    assert(blocks@.take(blocks@.len() as int) =~= blocks@);
    let mut out = "1-".to_owned();
    out.append(text::to_decimal((depth / 10_000) as u64).as_str());
    out.append(".");
    push_fixed(&mut out, (depth % 10_000) as u64, 4);
    out.append("*clip(");
    out.append(sum.as_str());
    out.append(",0,1)");
    out
}

/// The tempos, in millionths, that together change the tempo by `num / den` millionths: doublings or
/// halvings as long as what is left is more than one filter can do, then what is left, rounded.
pub open spec fn tempos(num: int, den: int) -> Seq<int>
    decreases
        (if num > 2_000_000 * den {
            num - 2_000_000 * den
        } else if 2 * num < 1_000_000 * den {
            1_000_000 * den - 2 * num
        } else {
            0
        }),
{
    if den > 0 && num > 2_000_000 * den {
        seq![2_000_000int] + tempos(num, 2 * den)
    } else if num > 0 && 2 * num < 1_000_000 * den {
        seq![500_000int] + tempos(2 * num, den)
    } else {
        seq![(2 * num + den) / (2 * den)]
    }
}

/// The filters for the tempos: all but the last are doublings or halvings.
pub open spec fn tempo_filters(parts: Seq<int>) -> Seq<char>
    decreases parts.len(),
{
    if parts.len() == 0 {
        Seq::empty()
    } else if parts.len() == 1 {
        "atempo="@ + text::decimal((parts[0] / 1_000_000) as nat) + "."@ + fixed_digits(
            (parts[0] % 1_000_000) as nat,
            6,
        )
    } else if parts[0] == 2_000_000 {
        "atempo=2.0,"@ + tempo_filters(parts.drop_first())
    } else {
        "atempo=0.5,"@ + tempo_filters(parts.drop_first())
    }
}

/// The filters that change the tempo by `factor` millionths.
pub open spec fn tempo_chain(factor: int) -> Seq<char> {
    tempo_filters(tempos(factor, 1))
}

proof fn lemma_tempos(num: int, den: int)
    requires
        num > 0,
        den > 0,
    ensures
        tempos(num, den).len() > 0,
        num > 2_000_000 * den ==> tempo_filters(tempos(num, den)) == "atempo=2.0,"@ + tempo_filters(
            tempos(num, 2 * den),
        ),
        2 * num < 1_000_000 * den ==> tempo_filters(tempos(num, den)) == "atempo=0.5,"@
            + tempo_filters(tempos(2 * num, den)),
        forall|i: int|
            0 <= i < tempos(num, den).len() ==> 500_000 <= #[trigger] tempos(num, den)[i] <= 2_000_000,
    decreases
        (if num > 2_000_000 * den {
            num - 2_000_000 * den
        } else if 2 * num < 1_000_000 * den {
            1_000_000 * den - 2 * num
        } else {
            0
        }),
{
    if num > 2_000_000 * den {
        lemma_tempos(num, 2 * den);
        assert(tempos(num, den).drop_first() =~= tempos(num, 2 * den));
    } else if 2 * num < 1_000_000 * den {
        lemma_tempos(2 * num, den);
        assert(tempos(num, den).drop_first() =~= tempos(2 * num, den));
    } else {
        let f = (2 * num + den) / (2 * den);
        assert(500_000 <= f <= 2_000_000) by (nonlinear_arith)
            requires
                den > 0,
                1_000_000 * den <= 2 * num,
                num <= 2_000_000 * den,
                f == (2 * num + den) / (2 * den),
        ;
    }
}

/// What is left of a number of tempos, rounded.
fn rounded(num: u128, den: u128) -> (r: u128)
    requires
        0 < den,
        num <= 2_000_000 * den,
    ensures
        r == (2 * num + den) / (2 * den as int),
{
    let q: u128 = num / den;
    let rest: u128 = num % den;
    assert(q <= 2_000_000 && num == q * den + rest && rest < den) by (nonlinear_arith)
        requires
            0 < den,
            num <= 2_000_000 * den,
            q == num / den,
            rest == num % den,
    ;
    let up: u128 = if rest >= den - rest {
        1
    } else {
        0
    };
    assert(q + up == (2 * num + den) / (2 * den as int)) by (nonlinear_arith)
        requires
            0 < den,
            num == q * den + rest,
            rest < den,
            up == (if rest >= den - rest {
                1int
            } else {
                0int
            }),
    ;
    q + up
}

/// The filters that change the tempo by `factor` millionths.
pub fn atempo_chain(factor: u128) -> (r: String)
    requires
        factor > 0,
    ensures
        r@ == tempo_chain(factor as int),
{
    let mut out = String::new();
    let mut num: u128 = factor;
    let mut den: u128 = 1;
    assert(out@ + tempo_chain(factor as int) =~= tempo_chain(factor as int));
    while num / den > 2_000_000 || (num / den == 2_000_000 && num % den > 0)
        invariant
            0 < num,
            0 < den,
            den <= num || den == 1,
            2 * num >= 1_000_000 * den || den == 1,
            out@ + tempo_filters(tempos(num as int, den as int)) == tempo_chain(factor as int),
        decreases num - den,
    {
        let ghost before = out@;
        proof {
            lemma_above(num as int, den as int);
            lemma_tempos(num as int, den as int);
        }
        out.append("atempo=2.0,");
        assert(before + tempo_filters(tempos(num as int, den as int)) =~= out@ + tempo_filters(
            tempos(num as int, 2 * den as int),
        ));
        den = den * 2;
    }
    proof {
        lemma_above(num as int, den as int);
    }
    while den == 1 && num < 500_000
        invariant
            0 < num <= 2_000_000 * den,
            0 < den,
            2 * num >= 1_000_000 * den || den == 1,
            out@ + tempo_filters(tempos(num as int, den as int)) == tempo_chain(factor as int),
        decreases 1_000_000 - num,
    {
        let ghost before = out@;
        proof {
            lemma_tempos(num as int, den as int);
        }
        out.append("atempo=0.5,");
        assert(before + tempo_filters(tempos(num as int, den as int)) =~= out@ + tempo_filters(
            tempos(2 * num as int, den as int),
        ));
        num = num * 2;
    }
    let left: u128 = rounded(num, den);
    let ghost before = out@;
    let ghost parts = tempos(num as int, den as int);
    assert(parts =~= seq![left as int]);
    proof {
        lemma_tempos(num as int, den as int);
        assert(500_000 <= parts[0] <= 2_000_000);
    }
    out.append("atempo=");
    out.append(text::to_decimal((left / 1_000_000) as u64).as_str());
    out.append(".");
    push_fixed(&mut out, (left % 1_000_000) as u64, 6);
    assert(out@ =~= before + tempo_filters(parts));
    out
}

proof fn lemma_above(num: int, den: int)
    requires
        0 < num,
        0 < den,
    ensures
        (num / den > 2_000_000 || (num / den == 2_000_000 && num % den > 0)) == (num > 2_000_000
            * den),
{
    let q = num / den;
    let r = num % den;
    assert(num == q * den + r && 0 <= r < den) by (nonlinear_arith)
        requires
            0 < den,
            q == num / den,
            r == num % den,
    ;
    if q > 2_000_000 {
        assert(q * den >= 2_000_001 * den) by (nonlinear_arith)
            requires
                q > 2_000_000,
                0 < den,
        ;
    } else if q < 2_000_000 {
        assert(q * den <= 1_999_999 * den) by (nonlinear_arith)
            requires
                q < 2_000_000,
                0 < den,
        ;
    }
}

// ── Languages ───────────────────────────────────────────────────────────────

/// The three-letter code of ISO 639-2 for a two-letter code of ISO 639-1, or "und".
pub open spec fn code_of(lc: Seq<char>) -> Seq<char> {
    if lc == "en"@ {
        "eng"@
    } else if lc == "zh"@ {
        "zho"@
    } else if lc == "de"@ {
        "deu"@
    } else if lc == "es"@ {
        "spa"@
    } else if lc == "ru"@ {
        "rus"@
    } else if lc == "ko"@ {
        "kor"@
    } else if lc == "fr"@ {
        "fra"@
    } else if lc == "ja"@ {
        "jpn"@
    } else if lc == "pt"@ {
        "por"@
    } else if lc == "tr"@ {
        "tur"@
    } else if lc == "pl"@ {
        "pol"@
    } else if lc == "ca"@ {
        "cat"@
    } else if lc == "nl"@ {
        "nld"@
    } else if lc == "ar"@ {
        "ara"@
    } else if lc == "sv"@ {
        "swe"@
    } else if lc == "it"@ {
        "ita"@
    } else if lc == "id"@ {
        "ind"@
    } else if lc == "hi"@ {
        "hin"@
    } else if lc == "fi"@ {
        "fin"@
    } else if lc == "vi"@ {
        "vie"@
    } else if lc == "he"@ {
        "heb"@
    } else if lc == "uk"@ {
        "ukr"@
    } else if lc == "el"@ {
        "ell"@
    } else if lc == "ms"@ {
        "msa"@
    } else if lc == "cs"@ {
        "ces"@
    } else if lc == "ro"@ {
        "ron"@
    } else if lc == "da"@ {
        "dan"@
    } else if lc == "hu"@ {
        "hun"@
    } else if lc == "ta"@ {
        "tam"@
    } else if lc == "no"@ {
        "nor"@
    } else if lc == "th"@ {
        "tha"@
    } else if lc == "ur"@ {
        "urd"@
    } else if lc == "hr"@ {
        "hrv"@
    } else if lc == "bg"@ {
        "bul"@
    } else if lc == "lt"@ {
        "lit"@
    } else if lc == "la"@ {
        "lat"@
    } else if lc == "mi"@ {
        "mri"@
    } else if lc == "ml"@ {
        "mal"@
    } else if lc == "cy"@ {
        "cym"@
    } else if lc == "sk"@ {
        "slk"@
    } else if lc == "te"@ {
        "tel"@
    } else if lc == "fa"@ {
        "fas"@
    } else if lc == "lv"@ {
        "lav"@
    } else if lc == "bn"@ {
        "ben"@
    } else if lc == "sr"@ {
        "srp"@
    } else if lc == "az"@ {
        "aze"@
    } else if lc == "sl"@ {
        "slv"@
    } else if lc == "kn"@ {
        "kan"@
    } else if lc == "et"@ {
        "est"@
    } else if lc == "mk"@ {
        "mkd"@
    } else if lc == "br"@ {
        "bre"@
    } else if lc == "eu"@ {
        "eus"@
    } else if lc == "is"@ {
        "isl"@
    } else if lc == "hy"@ {
        "hye"@
    } else if lc == "ne"@ {
        "nep"@
    } else if lc == "mn"@ {
        "mon"@
    } else if lc == "bs"@ {
        "bos"@
    } else if lc == "kk"@ {
        "kaz"@
    } else if lc == "sq"@ {
        "sqi"@
    } else if lc == "sw"@ {
        "swa"@
    } else if lc == "gl"@ {
        "glg"@
    } else if lc == "mr"@ {
        "mar"@
    } else if lc == "pa"@ {
        "pan"@
    } else if lc == "si"@ {
        "sin"@
    } else if lc == "km"@ {
        "khm"@
    } else if lc == "sn"@ {
        "sna"@
    } else if lc == "yo"@ {
        "yor"@
    } else if lc == "so"@ {
        "som"@
    } else if lc == "af"@ {
        "afr"@
    } else if lc == "oc"@ {
        "oci"@
    } else if lc == "ka"@ {
        "kat"@
    } else if lc == "be"@ {
        "bel"@
    } else if lc == "tg"@ {
        "tgk"@
    } else if lc == "sd"@ {
        "snd"@
    } else if lc == "gu"@ {
        "guj"@
    } else if lc == "am"@ {
        "amh"@
    } else if lc == "yi"@ {
        "yid"@
    } else if lc == "lo"@ {
        "lao"@
    } else if lc == "uz"@ {
        "uzb"@
    } else if lc == "fo"@ {
        "fao"@
    } else if lc == "ht"@ {
        "hat"@
    } else if lc == "ps"@ {
        "pus"@
    } else if lc == "tk"@ {
        "tuk"@
    } else if lc == "nn"@ {
        "nno"@
    } else if lc == "mt"@ {
        "mlt"@
    } else if lc == "sa"@ {
        "san"@
    } else if lc == "lb"@ {
        "ltz"@
    } else if lc == "my"@ {
        "mya"@
    } else if lc == "bo"@ {
        "bod"@
    } else if lc == "tl"@ {
        "tgl"@
    } else if lc == "mg"@ {
        "mlg"@
    } else if lc == "as"@ {
        "asm"@
    } else if lc == "tt"@ {
        "tat"@
    } else if lc == "haw"@ {
        "haw"@
    } else if lc == "ln"@ {
        "lin"@
    } else if lc == "ha"@ {
        "hau"@
    } else if lc == "ba"@ {
        "bak"@
    } else if lc == "jw"@ {
        "jav"@
    } else if lc == "su"@ {
        "sun"@
    } else if lc == "yue"@ {
        "yue"@
    } else {
        "und"@
    }
}

/// The code that names the language `code` in a container: spaces around it and its case do not
/// matter.
pub fn iso639_1_to_2(code: &str) -> (r: &'static str)
    ensures
        r@ == code_of(text::lowercase(text::trimmed(code@))),
{
    let lower = text::to_lower(text::trim(code).as_str());
    let lc = lower.as_str();
    if text::same(lc, "en") {
        "eng"
    } else if text::same(lc, "zh") {
        "zho"
    } else if text::same(lc, "de") {
        "deu"
    } else if text::same(lc, "es") {
        "spa"
    } else if text::same(lc, "ru") {
        "rus"
    } else if text::same(lc, "ko") {
        "kor"
    } else if text::same(lc, "fr") {
        "fra"
    } else if text::same(lc, "ja") {
        "jpn"
    } else if text::same(lc, "pt") {
        "por"
    } else if text::same(lc, "tr") {
        "tur"
    } else if text::same(lc, "pl") {
        "pol"
    } else if text::same(lc, "ca") {
        "cat"
    } else if text::same(lc, "nl") {
        "nld"
    } else if text::same(lc, "ar") {
        "ara"
    } else if text::same(lc, "sv") {
        "swe"
    } else if text::same(lc, "it") {
        "ita"
    } else if text::same(lc, "id") {
        "ind"
    } else if text::same(lc, "hi") {
        "hin"
    } else if text::same(lc, "fi") {
        "fin"
    } else if text::same(lc, "vi") {
        "vie"
    } else if text::same(lc, "he") {
        "heb"
    } else if text::same(lc, "uk") {
        "ukr"
    } else if text::same(lc, "el") {
        "ell"
    } else if text::same(lc, "ms") {
        "msa"
    } else if text::same(lc, "cs") {
        "ces"
    } else if text::same(lc, "ro") {
        "ron"
    } else if text::same(lc, "da") {
        "dan"
    } else if text::same(lc, "hu") {
        "hun"
    } else if text::same(lc, "ta") {
        "tam"
    } else if text::same(lc, "no") {
        "nor"
    } else if text::same(lc, "th") {
        "tha"
    } else if text::same(lc, "ur") {
        "urd"
    } else if text::same(lc, "hr") {
        "hrv"
    } else if text::same(lc, "bg") {
        "bul"
    } else if text::same(lc, "lt") {
        "lit"
    } else if text::same(lc, "la") {
        "lat"
    } else if text::same(lc, "mi") {
        "mri"
    } else if text::same(lc, "ml") {
        "mal"
    } else if text::same(lc, "cy") {
        "cym"
    } else if text::same(lc, "sk") {
        "slk"
    } else if text::same(lc, "te") {
        "tel"
    } else if text::same(lc, "fa") {
        "fas"
    } else if text::same(lc, "lv") {
        "lav"
    } else if text::same(lc, "bn") {
        "ben"
    } else if text::same(lc, "sr") {
        "srp"
    } else if text::same(lc, "az") {
        "aze"
    } else if text::same(lc, "sl") {
        "slv"
    } else if text::same(lc, "kn") {
        "kan"
    } else if text::same(lc, "et") {
        "est"
    } else if text::same(lc, "mk") {
        "mkd"
    } else if text::same(lc, "br") {
        "bre"
    } else if text::same(lc, "eu") {
        "eus"
    } else if text::same(lc, "is") {
        "isl"
    } else if text::same(lc, "hy") {
        "hye"
    } else if text::same(lc, "ne") {
        "nep"
    } else if text::same(lc, "mn") {
        "mon"
    } else if text::same(lc, "bs") {
        "bos"
    } else if text::same(lc, "kk") {
        "kaz"
    } else if text::same(lc, "sq") {
        "sqi"
    } else if text::same(lc, "sw") {
        "swa"
    } else if text::same(lc, "gl") {
        "glg"
    } else if text::same(lc, "mr") {
        "mar"
    } else if text::same(lc, "pa") {
        "pan"
    } else if text::same(lc, "si") {
        "sin"
    } else if text::same(lc, "km") {
        "khm"
    } else if text::same(lc, "sn") {
        "sna"
    } else if text::same(lc, "yo") {
        "yor"
    } else if text::same(lc, "so") {
        "som"
    } else if text::same(lc, "af") {
        "afr"
    } else if text::same(lc, "oc") {
        "oci"
    } else if text::same(lc, "ka") {
        "kat"
    } else if text::same(lc, "be") {
        "bel"
    } else if text::same(lc, "tg") {
        "tgk"
    } else if text::same(lc, "sd") {
        "snd"
    } else if text::same(lc, "gu") {
        "guj"
    } else if text::same(lc, "am") {
        "amh"
    } else if text::same(lc, "yi") {
        "yid"
    } else if text::same(lc, "lo") {
        "lao"
    } else if text::same(lc, "uz") {
        "uzb"
    } else if text::same(lc, "fo") {
        "fao"
    } else if text::same(lc, "ht") {
        "hat"
    } else if text::same(lc, "ps") {
        "pus"
    } else if text::same(lc, "tk") {
        "tuk"
    } else if text::same(lc, "nn") {
        "nno"
    } else if text::same(lc, "mt") {
        "mlt"
    } else if text::same(lc, "sa") {
        "san"
    } else if text::same(lc, "lb") {
        "ltz"
    } else if text::same(lc, "my") {
        "mya"
    } else if text::same(lc, "bo") {
        "bod"
    } else if text::same(lc, "tl") {
        "tgl"
    } else if text::same(lc, "mg") {
        "mlg"
    } else if text::same(lc, "as") {
        "asm"
    } else if text::same(lc, "tt") {
        "tat"
    } else if text::same(lc, "haw") {
        "haw"
    } else if text::same(lc, "ln") {
        "lin"
    } else if text::same(lc, "ha") {
        "hau"
    } else if text::same(lc, "ba") {
        "bak"
    } else if text::same(lc, "jw") {
        "jav"
    } else if text::same(lc, "su") {
        "sun"
    } else if text::same(lc, "yue") {
        "yue"
    } else {
        "und"
    }
}

// ── What the expression of the volume means ─────────────────────────────────

/// A moment as it is written with three digits behind the point, in microseconds.
pub open spec fn to_millis(us: int) -> int {
    (us + 500) / 1000 * 1000
}

/// From where to where one block of speech changes the volume.
pub open spec fn reach(b: Span) -> (int, int) {
    let ds = if b.start < DUCK_PREROLL {
        0
    } else {
        b.start - DUCK_PREROLL
    };
    (to_millis(ds), to_millis(b.end + DUCK_HOLD + DUCK_FADE_UP))
}

pub open spec fn clip(x: int, hi: int) -> int {
    if x < 0 {
        0
    } else if x > hi {
        hi
    } else {
        x
    }
}

/// The fall and the rise around one block at the moment `t`, in 400000ths: it falls in a tenth of a second
/// and rises in four tenths.
pub open spec fn trap_at(b: Span, t: int) -> int {
    let down = 4 * (t - reach(b).0);
    let up = reach(b).1 - t;
    clip(if down < up {
        down
    } else {
        up
    }, 400_000)
}

pub open spec fn sum_at(blocks: Seq<Span>, t: int) -> int
    decreases blocks.len(),
{
    if blocks.len() == 0 {
        0
    } else {
        sum_at(blocks.drop_last(), t) + trap_at(blocks.last(), t)
    }
}

/// The volume that [`volume_text`] stands for at the moment `t`, in 4000000000ths.
pub open spec fn volume_at(blocks: Seq<Span>, depth: int, t: int) -> int {
    4_000_000_000 - depth * clip(sum_at(blocks, t), 400_000)
}

proof fn lemma_sum_holds(blocks: Seq<Span>, t: int, i: int)
    requires
        0 <= i < blocks.len(),
    ensures
        0 <= trap_at(blocks[i], t) <= sum_at(blocks, t),
    decreases blocks.len(),
{
    lemma_sum_nonneg(blocks.drop_last(), t);
    if i < blocks.len() - 1 {
        lemma_sum_holds(blocks.drop_last(), t, i);
        assert(blocks.drop_last()[i] == blocks[i]);
    }
}

proof fn lemma_sum_nonneg(blocks: Seq<Span>, t: int)
    ensures
        sum_at(blocks, t) >= 0,
    decreases blocks.len(),
{
    if blocks.len() > 0 {
        lemma_sum_nonneg(blocks.drop_last(), t);
    }
}

proof fn lemma_sum_zero(blocks: Seq<Span>, t: int)
    requires
        forall|i: int|
            0 <= i < blocks.len() ==> t <= reach(#[trigger] blocks[i]).0 || t >= reach(blocks[i]).1,
    ensures
        sum_at(blocks, t) == 0,
    decreases blocks.len(),
{
    if blocks.len() > 0 {
        let b = blocks[blocks.len() - 1];
        assert(t <= reach(b).0 || t >= reach(b).1);
        assert(trap_at(blocks.last(), t) == 0);
        assert forall|i: int| 0 <= i < blocks.drop_last().len() implies t <= reach(
            #[trigger] blocks.drop_last()[i],
        ).0 || t >= reach(blocks.drop_last()[i]).1 by {
            assert(blocks.drop_last()[i] == blocks[i]);
        }
        lemma_sum_zero(blocks.drop_last(), t);
    }
}

// ── Laws ────────────────────────────────────────────────────────────────────

/// Whether `t` could name a language in a container: three small letters.
pub open spec fn is_tag(t: Seq<char>) -> bool {
    t.len() == 3 && forall|i: int| 0 <= i < 3 ==> 'a' <= #[trigger] t[i] && t[i] <= 'z'
}

/// The code of the language that `t` names in a container.
spec fn code_from(t: Seq<char>) -> Seq<char> {
    if t[0] == 'e' && t[1] == 'n' && t[2] == 'g' {
        "en"@
    } else if t[0] == 'z' && t[1] == 'h' && t[2] == 'o' {
        "zh"@
    } else if t[0] == 'd' && t[1] == 'e' && t[2] == 'u' {
        "de"@
    } else if t[0] == 's' && t[1] == 'p' && t[2] == 'a' {
        "es"@
    } else if t[0] == 'r' && t[1] == 'u' && t[2] == 's' {
        "ru"@
    } else if t[0] == 'k' && t[1] == 'o' && t[2] == 'r' {
        "ko"@
    } else if t[0] == 'f' && t[1] == 'r' && t[2] == 'a' {
        "fr"@
    } else if t[0] == 'j' && t[1] == 'p' && t[2] == 'n' {
        "ja"@
    } else if t[0] == 'p' && t[1] == 'o' && t[2] == 'r' {
        "pt"@
    } else if t[0] == 't' && t[1] == 'u' && t[2] == 'r' {
        "tr"@
    } else if t[0] == 'p' && t[1] == 'o' && t[2] == 'l' {
        "pl"@
    } else if t[0] == 'c' && t[1] == 'a' && t[2] == 't' {
        "ca"@
    } else if t[0] == 'n' && t[1] == 'l' && t[2] == 'd' {
        "nl"@
    } else if t[0] == 'a' && t[1] == 'r' && t[2] == 'a' {
        "ar"@
    } else if t[0] == 's' && t[1] == 'w' && t[2] == 'e' {
        "sv"@
    } else if t[0] == 'i' && t[1] == 't' && t[2] == 'a' {
        "it"@
    } else if t[0] == 'i' && t[1] == 'n' && t[2] == 'd' {
        "id"@
    } else if t[0] == 'h' && t[1] == 'i' && t[2] == 'n' {
        "hi"@
    } else if t[0] == 'f' && t[1] == 'i' && t[2] == 'n' {
        "fi"@
    } else if t[0] == 'v' && t[1] == 'i' && t[2] == 'e' {
        "vi"@
    } else if t[0] == 'h' && t[1] == 'e' && t[2] == 'b' {
        "he"@
    } else if t[0] == 'u' && t[1] == 'k' && t[2] == 'r' {
        "uk"@
    } else if t[0] == 'e' && t[1] == 'l' && t[2] == 'l' {
        "el"@
    } else if t[0] == 'm' && t[1] == 's' && t[2] == 'a' {
        "ms"@
    } else if t[0] == 'c' && t[1] == 'e' && t[2] == 's' {
        "cs"@
    } else if t[0] == 'r' && t[1] == 'o' && t[2] == 'n' {
        "ro"@
    } else if t[0] == 'd' && t[1] == 'a' && t[2] == 'n' {
        "da"@
    } else if t[0] == 'h' && t[1] == 'u' && t[2] == 'n' {
        "hu"@
    } else if t[0] == 't' && t[1] == 'a' && t[2] == 'm' {
        "ta"@
    } else if t[0] == 'n' && t[1] == 'o' && t[2] == 'r' {
        "no"@
    } else if t[0] == 't' && t[1] == 'h' && t[2] == 'a' {
        "th"@
    } else if t[0] == 'u' && t[1] == 'r' && t[2] == 'd' {
        "ur"@
    } else if t[0] == 'h' && t[1] == 'r' && t[2] == 'v' {
        "hr"@
    } else if t[0] == 'b' && t[1] == 'u' && t[2] == 'l' {
        "bg"@
    } else if t[0] == 'l' && t[1] == 'i' && t[2] == 't' {
        "lt"@
    } else if t[0] == 'l' && t[1] == 'a' && t[2] == 't' {
        "la"@
    } else if t[0] == 'm' && t[1] == 'r' && t[2] == 'i' {
        "mi"@
    } else if t[0] == 'm' && t[1] == 'a' && t[2] == 'l' {
        "ml"@
    } else if t[0] == 'c' && t[1] == 'y' && t[2] == 'm' {
        "cy"@
    } else if t[0] == 's' && t[1] == 'l' && t[2] == 'k' {
        "sk"@
    } else if t[0] == 't' && t[1] == 'e' && t[2] == 'l' {
        "te"@
    } else if t[0] == 'f' && t[1] == 'a' && t[2] == 's' {
        "fa"@
    } else if t[0] == 'l' && t[1] == 'a' && t[2] == 'v' {
        "lv"@
    } else if t[0] == 'b' && t[1] == 'e' && t[2] == 'n' {
        "bn"@
    } else if t[0] == 's' && t[1] == 'r' && t[2] == 'p' {
        "sr"@
    } else if t[0] == 'a' && t[1] == 'z' && t[2] == 'e' {
        "az"@
    } else if t[0] == 's' && t[1] == 'l' && t[2] == 'v' {
        "sl"@
    } else if t[0] == 'k' && t[1] == 'a' && t[2] == 'n' {
        "kn"@
    } else if t[0] == 'e' && t[1] == 's' && t[2] == 't' {
        "et"@
    } else if t[0] == 'm' && t[1] == 'k' && t[2] == 'd' {
        "mk"@
    } else if t[0] == 'b' && t[1] == 'r' && t[2] == 'e' {
        "br"@
    } else if t[0] == 'e' && t[1] == 'u' && t[2] == 's' {
        "eu"@
    } else if t[0] == 'i' && t[1] == 's' && t[2] == 'l' {
        "is"@
    } else if t[0] == 'h' && t[1] == 'y' && t[2] == 'e' {
        "hy"@
    } else if t[0] == 'n' && t[1] == 'e' && t[2] == 'p' {
        "ne"@
    } else if t[0] == 'm' && t[1] == 'o' && t[2] == 'n' {
        "mn"@
    } else if t[0] == 'b' && t[1] == 'o' && t[2] == 's' {
        "bs"@
    } else if t[0] == 'k' && t[1] == 'a' && t[2] == 'z' {
        "kk"@
    } else if t[0] == 's' && t[1] == 'q' && t[2] == 'i' {
        "sq"@
    } else if t[0] == 's' && t[1] == 'w' && t[2] == 'a' {
        "sw"@
    } else if t[0] == 'g' && t[1] == 'l' && t[2] == 'g' {
        "gl"@
    } else if t[0] == 'm' && t[1] == 'a' && t[2] == 'r' {
        "mr"@
    } else if t[0] == 'p' && t[1] == 'a' && t[2] == 'n' {
        "pa"@
    } else if t[0] == 's' && t[1] == 'i' && t[2] == 'n' {
        "si"@
    } else if t[0] == 'k' && t[1] == 'h' && t[2] == 'm' {
        "km"@
    } else if t[0] == 's' && t[1] == 'n' && t[2] == 'a' {
        "sn"@
    } else if t[0] == 'y' && t[1] == 'o' && t[2] == 'r' {
        "yo"@
    } else if t[0] == 's' && t[1] == 'o' && t[2] == 'm' {
        "so"@
    } else if t[0] == 'a' && t[1] == 'f' && t[2] == 'r' {
        "af"@
    } else if t[0] == 'o' && t[1] == 'c' && t[2] == 'i' {
        "oc"@
    } else if t[0] == 'k' && t[1] == 'a' && t[2] == 't' {
        "ka"@
    } else if t[0] == 'b' && t[1] == 'e' && t[2] == 'l' {
        "be"@
    } else if t[0] == 't' && t[1] == 'g' && t[2] == 'k' {
        "tg"@
    } else if t[0] == 's' && t[1] == 'n' && t[2] == 'd' {
        "sd"@
    } else if t[0] == 'g' && t[1] == 'u' && t[2] == 'j' {
        "gu"@
    } else if t[0] == 'a' && t[1] == 'm' && t[2] == 'h' {
        "am"@
    } else if t[0] == 'y' && t[1] == 'i' && t[2] == 'd' {
        "yi"@
    } else if t[0] == 'l' && t[1] == 'a' && t[2] == 'o' {
        "lo"@
    } else if t[0] == 'u' && t[1] == 'z' && t[2] == 'b' {
        "uz"@
    } else if t[0] == 'f' && t[1] == 'a' && t[2] == 'o' {
        "fo"@
    } else if t[0] == 'h' && t[1] == 'a' && t[2] == 't' {
        "ht"@
    } else if t[0] == 'p' && t[1] == 'u' && t[2] == 's' {
        "ps"@
    } else if t[0] == 't' && t[1] == 'u' && t[2] == 'k' {
        "tk"@
    } else if t[0] == 'n' && t[1] == 'n' && t[2] == 'o' {
        "nn"@
    } else if t[0] == 'm' && t[1] == 'l' && t[2] == 't' {
        "mt"@
    } else if t[0] == 's' && t[1] == 'a' && t[2] == 'n' {
        "sa"@
    } else if t[0] == 'l' && t[1] == 't' && t[2] == 'z' {
        "lb"@
    } else if t[0] == 'm' && t[1] == 'y' && t[2] == 'a' {
        "my"@
    } else if t[0] == 'b' && t[1] == 'o' && t[2] == 'd' {
        "bo"@
    } else if t[0] == 't' && t[1] == 'g' && t[2] == 'l' {
        "tl"@
    } else if t[0] == 'm' && t[1] == 'l' && t[2] == 'g' {
        "mg"@
    } else if t[0] == 'a' && t[1] == 's' && t[2] == 'm' {
        "as"@
    } else if t[0] == 't' && t[1] == 'a' && t[2] == 't' {
        "tt"@
    } else if t[0] == 'h' && t[1] == 'a' && t[2] == 'w' {
        "haw"@
    } else if t[0] == 'l' && t[1] == 'i' && t[2] == 'n' {
        "ln"@
    } else if t[0] == 'h' && t[1] == 'a' && t[2] == 'u' {
        "ha"@
    } else if t[0] == 'b' && t[1] == 'a' && t[2] == 'k' {
        "ba"@
    } else if t[0] == 'j' && t[1] == 'a' && t[2] == 'v' {
        "jw"@
    } else if t[0] == 's' && t[1] == 'u' && t[2] == 'n' {
        "su"@
    } else if t[0] == 'y' && t[1] == 'u' && t[2] == 'e' {
        "yue"@
    } else {
        Seq::empty()
    }
}

#[verifier::rlimit(40)]
proof fn lemma_code_of(lc: Seq<char>)
    ensures
        is_tag(code_of(lc)),
        code_of(lc) == "und"@ || code_from(code_of(lc)) == lc,
{
    reveal_strlit("afr");
    reveal_strlit("amh");
    reveal_strlit("ara");
    reveal_strlit("asm");
    reveal_strlit("aze");
    reveal_strlit("bak");
    reveal_strlit("bel");
    reveal_strlit("ben");
    reveal_strlit("bod");
    reveal_strlit("bos");
    reveal_strlit("bre");
    reveal_strlit("bul");
    reveal_strlit("cat");
    reveal_strlit("ces");
    reveal_strlit("cym");
    reveal_strlit("dan");
    reveal_strlit("deu");
    reveal_strlit("ell");
    reveal_strlit("eng");
    reveal_strlit("est");
    reveal_strlit("eus");
    reveal_strlit("fao");
    reveal_strlit("fas");
    reveal_strlit("fin");
    reveal_strlit("fra");
    reveal_strlit("glg");
    reveal_strlit("guj");
    reveal_strlit("hat");
    reveal_strlit("hau");
    reveal_strlit("haw");
    reveal_strlit("heb");
    reveal_strlit("hin");
    reveal_strlit("hrv");
    reveal_strlit("hun");
    reveal_strlit("hye");
    reveal_strlit("ind");
    reveal_strlit("isl");
    reveal_strlit("ita");
    reveal_strlit("jav");
    reveal_strlit("jpn");
    reveal_strlit("kan");
    reveal_strlit("kat");
    reveal_strlit("kaz");
    reveal_strlit("khm");
    reveal_strlit("kor");
    reveal_strlit("lao");
    reveal_strlit("lat");
    reveal_strlit("lav");
    reveal_strlit("lin");
    reveal_strlit("lit");
    reveal_strlit("ltz");
    reveal_strlit("mal");
    reveal_strlit("mar");
    reveal_strlit("mkd");
    reveal_strlit("mlg");
    reveal_strlit("mlt");
    reveal_strlit("mon");
    reveal_strlit("mri");
    reveal_strlit("msa");
    reveal_strlit("mya");
    reveal_strlit("nep");
    reveal_strlit("nld");
    reveal_strlit("nno");
    reveal_strlit("nor");
    reveal_strlit("oci");
    reveal_strlit("pan");
    reveal_strlit("pol");
    reveal_strlit("por");
    reveal_strlit("pus");
    reveal_strlit("ron");
    reveal_strlit("rus");
    reveal_strlit("san");
    reveal_strlit("sin");
    reveal_strlit("slk");
    reveal_strlit("slv");
    reveal_strlit("sna");
    reveal_strlit("snd");
    reveal_strlit("som");
    reveal_strlit("spa");
    reveal_strlit("sqi");
    reveal_strlit("srp");
    reveal_strlit("sun");
    reveal_strlit("swa");
    reveal_strlit("swe");
    reveal_strlit("tam");
    reveal_strlit("tat");
    reveal_strlit("tel");
    reveal_strlit("tgk");
    reveal_strlit("tgl");
    reveal_strlit("tha");
    reveal_strlit("tuk");
    reveal_strlit("tur");
    reveal_strlit("ukr");
    reveal_strlit("und");
    reveal_strlit("urd");
    reveal_strlit("uzb");
    reveal_strlit("vie");
    reveal_strlit("yid");
    reveal_strlit("yor");
    reveal_strlit("yue");
    reveal_strlit("zho");
}

/// A code that stands for a tag is made of small letters.
#[verifier::rlimit(40)]
proof fn lemma_code_from(t: Seq<char>)
    ensures
        forall|i: int| 0 <= i < code_from(t).len() ==> 'a' <= #[trigger] code_from(t)[i] <= 'z',
{
    reveal_strlit("af");
    reveal_strlit("am");
    reveal_strlit("ar");
    reveal_strlit("as");
    reveal_strlit("az");
    reveal_strlit("ba");
    reveal_strlit("be");
    reveal_strlit("bg");
    reveal_strlit("bn");
    reveal_strlit("bo");
    reveal_strlit("br");
    reveal_strlit("bs");
    reveal_strlit("ca");
    reveal_strlit("cs");
    reveal_strlit("cy");
    reveal_strlit("da");
    reveal_strlit("de");
    reveal_strlit("el");
    reveal_strlit("en");
    reveal_strlit("es");
    reveal_strlit("et");
    reveal_strlit("eu");
    reveal_strlit("fa");
    reveal_strlit("fi");
    reveal_strlit("fo");
    reveal_strlit("fr");
    reveal_strlit("gl");
    reveal_strlit("gu");
    reveal_strlit("ha");
    reveal_strlit("haw");
    reveal_strlit("he");
    reveal_strlit("hi");
    reveal_strlit("hr");
    reveal_strlit("ht");
    reveal_strlit("hu");
    reveal_strlit("hy");
    reveal_strlit("id");
    reveal_strlit("is");
    reveal_strlit("it");
    reveal_strlit("ja");
    reveal_strlit("jw");
    reveal_strlit("ka");
    reveal_strlit("kk");
    reveal_strlit("km");
    reveal_strlit("kn");
    reveal_strlit("ko");
    reveal_strlit("la");
    reveal_strlit("lb");
    reveal_strlit("ln");
    reveal_strlit("lo");
    reveal_strlit("lt");
    reveal_strlit("lv");
    reveal_strlit("mg");
    reveal_strlit("mi");
    reveal_strlit("mk");
    reveal_strlit("ml");
    reveal_strlit("mn");
    reveal_strlit("mr");
    reveal_strlit("ms");
    reveal_strlit("mt");
    reveal_strlit("my");
    reveal_strlit("ne");
    reveal_strlit("nl");
    reveal_strlit("nn");
    reveal_strlit("no");
    reveal_strlit("oc");
    reveal_strlit("pa");
    reveal_strlit("pl");
    reveal_strlit("ps");
    reveal_strlit("pt");
    reveal_strlit("ro");
    reveal_strlit("ru");
    reveal_strlit("sa");
    reveal_strlit("sd");
    reveal_strlit("si");
    reveal_strlit("sk");
    reveal_strlit("sl");
    reveal_strlit("sn");
    reveal_strlit("so");
    reveal_strlit("sq");
    reveal_strlit("sr");
    reveal_strlit("su");
    reveal_strlit("sv");
    reveal_strlit("sw");
    reveal_strlit("ta");
    reveal_strlit("te");
    reveal_strlit("tg");
    reveal_strlit("th");
    reveal_strlit("tk");
    reveal_strlit("tl");
    reveal_strlit("tr");
    reveal_strlit("tt");
    reveal_strlit("uk");
    reveal_strlit("ur");
    reveal_strlit("uz");
    reveal_strlit("vi");
    reveal_strlit("yi");
    reveal_strlit("yo");
    reveal_strlit("yue");
    reveal_strlit("zh");
}

/// Every code is answered by a tag of three small letters.
pub proof fn law_code_is_a_tag(lc: Seq<char>)
    ensures
        is_tag(code_of(lc)),
{
    lemma_code_of(lc);
}

/// Two languages that are known never share a tag.
pub proof fn law_tags_are_distinct(a: Seq<char>, b: Seq<char>)
    requires
        code_of(a) != "und"@,
        code_of(a) == code_of(b),
    ensures
        a == b,
{
    lemma_code_of(a);
    lemma_code_of(b);
}

/// White space around a code does not matter.
pub proof fn law_code_ignores_space(code: Seq<char>)
    ensures
        code_of(text::lowercase(text::trimmed(text::trimmed(code)))) == code_of(
            text::lowercase(text::trimmed(code)),
        ),
{
    text::lemma_trim_twice(code);
}

/// A text of small letters of ASCII stays as it is without white space around it and in small letters.
proof fn lemma_small_letters_stay(l: Seq<char>)
    requires
        forall|i: int|
            0 <= i < l.len() ==> text::is_ascii_char(#[trigger] l[i]) && !('A' <= l[i] <= 'Z'),
        l.len() > 0 ==> !text::is_space(l[0]) && !text::is_space(l.last()),
    ensures
        text::lowercase(text::trimmed(l)) == l,
{
    assert(text::trimmed(l) == l);
    assert(text::ascii_lower(l) =~= l);
}

/// The case of a code does not matter: in small letters and without white space around it, it has the
/// same tag. This holds of every code of ASCII characters, and of every code of a language that is known.
pub proof fn law_code_ignores_case(code: Seq<char>)
    ensures
        ({
            let l = text::lowercase(text::trimmed(code));
            text::all_ascii(text::trimmed(code)) || code_of(l) != "und"@ ==> code_of(
                text::lowercase(text::trimmed(l)),
            ) == code_of(l)
        }),
{
    let t = text::trimmed(code);
    let l = text::lowercase(t);
    if text::all_ascii(t) {
        text::lemma_trimmed_ends(code);
        assert forall|i: int| 0 <= i < l.len() implies text::is_ascii_char(#[trigger] l[i]) && !(
        'A' <= l[i] <= 'Z') by {
            assert(text::is_ascii_char(t[i]));
        }
        if l.len() > 0 {
            assert(l[0] == text::ascii_lower_char(t[0]));
            assert(l.last() == text::ascii_lower_char(t.last()));
        }
        lemma_small_letters_stay(l);
    } else if code_of(l) != "und"@ {
        lemma_code_of(l);
        lemma_code_from(code_of(l));
        assert forall|i: int| 0 <= i < l.len() implies text::is_ascii_char(#[trigger] l[i]) && !(
        'A' <= l[i] <= 'Z') by {
            assert('a' <= code_from(code_of(l))[i] <= 'z');
        }
        if l.len() > 0 {
            assert('a' <= l[0] <= 'z' && 'a' <= l.last() <= 'z');
        }
        lemma_small_letters_stay(l);
    }
}

#[verifier::spinoff_prover]
proof fn lemma_faster(num: int, den: int)
    requires
        den > 0,
        2 * num >= 1_000_000 * den,
    ensures
        ({
            let parts = tempos(num, den);
            let n = parts.len() - 1;
            &&& parts.len() > 0
            &&& forall|i: int| 0 <= i < n ==> #[trigger] parts[i] == 2_000_000
            &&& parts[n] == (2 * num + den * vstd::arithmetic::power2::pow2(n as nat)) / (2 * (den * vstd::arithmetic::power2::pow2(n as nat)))
        }),
    decreases
        (if num > 2_000_000 * den {
            num - 2_000_000 * den
        } else {
            0
        }),
{
    let parts = tempos(num, den);
    let n = parts.len() - 1;
    if num > 2_000_000 * den {
        lemma_faster(num, 2 * den);
        vstd::arithmetic::power2::lemma_pow2_unfold(n as nat);
        let p = vstd::arithmetic::power2::pow2((n - 1) as nat) as int;
        let rest = tempos(num, 2 * den);
        assert(parts =~= seq![2_000_000int] + rest);
        assert(parts[n] == rest[n - 1]);
        assert(den * (2 * p) == (2 * den) * p) by (nonlinear_arith);
        assert(den * vstd::arithmetic::power2::pow2(n as nat) == (2 * den) * p);
        assert forall|i: int| 0 <= i < n implies #[trigger] parts[i] == 2_000_000 by {
            if i > 0 {
                assert(parts[i] == rest[i - 1]);
            }
        }
    } else {
        vstd::arithmetic::power2::lemma2_to64();
        assert(den * vstd::arithmetic::power2::pow2(0) == den);
    }
}

proof fn lemma_slower(num: int)
    requires
        0 < num <= 2_000_000,
    ensures
        ({
            let parts = tempos(num, 1);
            let n = parts.len() - 1;
            &&& parts.len() > 0
            &&& forall|i: int| 0 <= i < n ==> #[trigger] parts[i] == 500_000
            &&& parts[n] == num * vstd::arithmetic::power2::pow2(n as nat)
        }),
    decreases 2_000_000 - num,
{
    let parts = tempos(num, 1);
    let n = parts.len() - 1;
    if 2 * num < 1_000_000 {
        lemma_slower(2 * num);
        vstd::arithmetic::power2::lemma_pow2_unfold(n as nat);
        let p = vstd::arithmetic::power2::pow2((n - 1) as nat) as int;
        assert(num * (2 * p) == 2 * num * p) by (nonlinear_arith);
        assert(parts[n] == tempos(2 * num, 1)[n - 1]);
    } else {
        assert(parts[0] == (2 * num + 1) / 2 == num);
        assert(num * 1 == num);
        vstd::arithmetic::power2::lemma2_to64();
    }
}

/// A tempo of any size is made of tempos that one filter can do: as many doublings or halvings as are
/// needed, and what is then left of it, rounded to millionths.
pub proof fn law_tempo_is_made_of_what_can_be_done(factor: int)
    requires
        factor > 0,
    ensures
        ({
            let parts = tempos(factor, 1);
            let n = parts.len() - 1;
            let d = vstd::arithmetic::power2::pow2(n as nat);
            &&& parts.len() > 0
            &&& forall|i: int| 0 <= i < parts.len() ==> 500_000 <= #[trigger] parts[i] <= 2_000_000
            &&& factor >= 500_000 ==> (forall|i: int| 0 <= i < n ==> #[trigger] parts[i] == 2_000_000)
                && parts[n] == (2 * factor + d) / (2 * d as int)
            &&& factor < 500_000 ==> (forall|i: int| 0 <= i < n ==> #[trigger] parts[i] == 500_000)
                && parts[n] == factor * d
        }),
{
    lemma_tempos(factor, 1);
    if factor >= 500_000 {
        lemma_faster(factor, 1);
    } else {
        lemma_slower(factor);
    }
}

/// The background is never louder than it is, and never lower than asked for, however close together the
/// blocks of speech are.
pub proof fn law_volume_is_bounded(blocks: Seq<Span>, depth: int, t: int)
    requires
        0 <= depth <= 10_000,
    ensures
        (10_000 - depth) * 400_000 <= volume_at(blocks, depth, t) <= 4_000_000_000,
{
    let c = clip(sum_at(blocks, t), 400_000);
    assert(0 <= depth * c <= depth * 400_000) by (nonlinear_arith)
        requires
            0 <= depth,
            0 <= c <= 400_000,
    ;
}

/// From shortly after a block of speech begins until three tenths of a second behind it the background is down
/// all the way; at the very start of the film it first has to fall.
pub proof fn law_speech_is_ducked(blocks: Seq<Span>, depth: int, t: int, i: int)
    requires
        0 <= i < blocks.len(),
        blocks[i].start + 21_000 <= t <= blocks[i].end + DUCK_HOLD - 1_000,
        t >= 100_500,
    ensures
        volume_at(blocks, depth, t) == (10_000 - depth) * 400_000,
{
    let b = blocks[i];
    assert(trap_at(b, t) == 400_000);
    lemma_sum_holds(blocks, t, i);
    assert(depth * 400_000 == 400_000 * depth) by (nonlinear_arith);
}

/// Away from all lines the background is as loud as it is.
pub proof fn law_pauses_are_full(blocks: Seq<Span>, depth: int, t: int)
    requires
        forall|i: int|
            0 <= i < blocks.len() ==> t <= reach(#[trigger] blocks[i]).0 || t >= reach(blocks[i]).1,
    ensures
        volume_at(blocks, depth, t) == 4_000_000_000,
{
    lemma_sum_zero(blocks, t);
    assert(depth * 0 == 0) by (nonlinear_arith);
}

proof fn lemma_stream_of(streams: Seq<Doc>, kind: Seq<char>)
    ensures
        match stream_of(streams, kind) {
            Some(i) => 0 <= i < streams.len() && streams[i].text_at("codec_type"@) == Some(kind) && forall|j: int|
                0 <= j < i ==> (#[trigger] streams[j]).text_at("codec_type"@) != Some(kind),
            None => forall|j: int|
                0 <= j < streams.len() ==> (#[trigger] streams[j]).text_at("codec_type"@) != Some(kind),
        },
    decreases streams.len(),
{
    if streams.len() > 0 {
        let p = streams.drop_first();
        lemma_stream_of(p, kind);
        assert(forall|j: int| 0 <= j < p.len() ==> #[trigger] p[j] == streams[j + 1]);
        assert(forall|j: int| 0 < j < streams.len() ==> #[trigger] streams[j] == p[j - 1]);
    }
}

/// `v` is the first stream of the kind, and there is none where it is -1.
pub open spec fn first_stream(streams: Seq<Doc>, kind: Seq<char>, v: int) -> bool {
    &&& -1 <= v < streams.len()
    &&& v >= 0 ==> streams[v].text_at("codec_type"@) == Some(kind)
    &&& forall|j: int|
        0 <= j < streams.len() && (v < 0 || j < v) ==> (#[trigger] streams[j]).text_at("codec_type"@) != Some(kind)
}

/// What is known of a film from the report of the probing tool, whose first stream of pictures is number `v` and
/// whose first of sound number `a`. The duration is that of the whole, else that of the sound; the size, the rate
/// and the codec are those of the picture, and without one there is no size and no rate, and the codec is that of
/// the sound. It is refused only without a list of streams, without a picture and sound, and without a duration.
pub proof fn law_report_is_read(d: Doc, streams: Seq<Doc>, v: int, a: int)
    requires
        d.get("streams"@) == Some(Doc::List(streams)),
        first_stream(streams, "video"@, v),
        first_stream(streams, "audio"@, a),
    ensures
        ({
            let said = |x: Doc| match x.text_at("duration"@) {
                Some(t) => moment(t),
                None => None,
            };
            let whole = match d.get("format"@) {
                Some(f) => said(f),
                None => None,
            };
            let duration = if whole is Some {
                whole
            } else if a >= 0 {
                said(streams[a])
            } else {
                None
            };
            &&& v < 0 && a < 0 ==> meta_of(d) == Err::<MetaModel, ProbeError>(ProbeError::NoMedia)
            &&& (v >= 0 || a >= 0) && duration is None ==> meta_of(d) == Err::<MetaModel, ProbeError>(
                ProbeError::NoDuration,
            )
            &&& (v >= 0 || a >= 0) && duration is Some ==> meta_of(d) is Ok && {
                let m = meta_of(d)->Ok_0;
                &&& m.duration == duration->0
                &&& v < 0 ==> m.width == 0 && m.height == 0 && m.fps == 0
                &&& v >= 0 ==> {
                    &&& m.width == streams[v].whole_at("width"@).unwrap_or(0)
                    &&& m.height == streams[v].whole_at("height"@).unwrap_or(0)
                    &&& m.fps == (match streams[v].text_at("r_frame_rate"@) {
                        Some(r) => rate_of(r),
                        None => 0,
                    })
                }
                &&& m.src_codec == (streams[if v >= 0 {
                    v
                } else {
                    a
                }].text_at("codec_name"@).unwrap_or(Seq::empty()))
            }
        }),
{
    lemma_stream_of(streams, "video"@);
    lemma_stream_of(streams, "audio"@);
}

/// Without a list of streams a report is refused as such.
pub proof fn law_report_has_streams(d: Doc)
    requires
        !(d.get("streams"@) matches Some(Doc::List(_))),
    ensures
        meta_of(d) == Err::<MetaModel, ProbeError>(ProbeError::NoStreams),
{
}

/// A rate written with a slash is the one number in parts of the other, in millionths; and none where the other
/// is zero or missing.
pub proof fn law_rate_is_a_fraction(s: Seq<char>)
    ensures
        ({
            let parts = text::pieces(s, '/');
            &&& parts.len() < 2 ==> rate_of(s) == 0
            &&& parts.len() >= 2 && side(parts[1]) == 0 ==> rate_of(s) == 0
            &&& parts.len() >= 2 && side(parts[1]) > 0 && side(parts[0]) >= 0 ==> {
                let (n, d) = (side(parts[0]), side(parts[1]));
                rate_of(s) * d <= n * 1_000_000 < (rate_of(s) + 1) * d
            }
        }),
{
    let parts = text::pieces(s, '/');
    if parts.len() >= 2 && side(parts[1]) > 0 && side(parts[0]) >= 0 {
        let n = side(parts[0]) * 1_000_000;
        let d = side(parts[1]);
        let q = n / d;
        assert(q * d <= n < (q + 1) * d) by (nonlinear_arith)
            requires
                q == n / d,
                d > 0,
        ;
    }
}

/// The last digits of a number: as many as asked for, and each ten times the one behind it.
pub proof fn law_last_digits(x: nat, n: nat)
    ensures
        fixed_digits(x, n).len() == n,
        text::all_digits(fixed_digits(x, n)),
        text::number(fixed_digits(x, n)) == x % vstd::arithmetic::power::pow(10, n) as nat,
    decreases n,
{
    if n == 0 {
        vstd::arithmetic::power::lemma_pow0(10);
    } else {
        let m = (n - 1) as nat;
        law_last_digits(x / 10, m);
        let s = fixed_digits(x, n);
        assert(s.drop_last() =~= fixed_digits(x / 10, m));
        assert(s.last() == (48 + x % 10) as char);
        assert forall|i: int| 0 <= i < s.len() implies text::is_digit(#[trigger] s[i]) by {
            if i < m {
                assert(s[i] == s.drop_last()[i]);
            }
        }
        let p = vstd::arithmetic::power::pow(10, m);
        vstd::arithmetic::power::lemma_pow_positive(10, m);
        assert(vstd::arithmetic::power::pow(10, n) == 10 * p) by {
            reveal(vstd::arithmetic::power::pow);
        }
        assert(x % (10 * p) as nat == (x / 10) % (p as nat) * 10 + x % 10) by {
            vstd::arithmetic::div_mod::lemma_mod_breakdown(x as int, 10, p);
        }
    }
}

/// A moment is written in seconds with three digits behind the point, rounded to the thousandth.
pub proof fn law_moment_is_written(us: int)
    requires
        us >= 0,
    ensures
        ({
            let s = milli_text(us);
            let n = s.len() - 4;
            &&& n >= 1 && s[n] == '.'
            &&& text::all_digits(s.take(n)) && text::all_digits(s.skip(n + 1))
            &&& us - 500 < 1_000_000 * text::number(s.take(n)) + 1000 * text::number(s.skip(n + 1)) <= us + 500
        }),
{
    let ms = (us + 500) / 1000;
    let (w, f) = ((ms / 1000) as nat, (ms % 1000) as nat);
    reveal_strlit(".");
    text::lemma_decimal_reads_back(w);
    law_last_digits(f, 3);
    assert(vstd::arithmetic::power::pow(10, 3) == 1000) by {
        reveal(vstd::arithmetic::power::pow);
        assert(vstd::arithmetic::power::pow(10, 0) == 1);
        assert(vstd::arithmetic::power::pow(10, 1) == 10);
        assert(vstd::arithmetic::power::pow(10, 2) == 100);
    }
    let s = milli_text(us);
    let n = s.len() - 4;
    assert(s.take(n) =~= text::decimal(w));
    assert(s.skip(n + 1) =~= fixed_digits(f, 3));
    assert(f % 1000 == f);
    assert(ms == 1000 * w + f);
    assert(text::number(s.take(n)) == w);
    assert(text::number(s.skip(n + 1)) == f);
    assert(us - 500 < 1000 * ms <= us + 500);
    assert(s[n] == '.');
}

proof fn lemma_sum_is_joined(blocks: Seq<Span>)
    ensures
        sum_text(blocks) == words::joined(blocks.map_values(|b: Span| trap_text(b)), "+"@),
    decreases blocks.len(),
{
    let ts = blocks.map_values(|b: Span| trap_text(b));
    if blocks.len() > 1 {
        lemma_sum_is_joined(blocks.drop_last());
        assert(ts.drop_last() =~= blocks.drop_last().map_values(|b: Span| trap_text(b)));
    }
}

/// The volume is told as an expression of the time: full without speech, and else less by the depth where the
/// sum over all blocks of speech is one. Each of them begins eighty thousandths of a second before the speech,
/// or with the film, falling within a tenth; and ends seven tenths behind it, rising over four tenths.
pub proof fn law_volume_is_told(blocks: Seq<Span>, depth: int)
    requires
        0 <= depth,
    ensures
        blocks.len() == 0 ==> volume_text(blocks, depth) == "1"@,
        blocks.len() > 0 ==> volume_text(blocks, depth) == "1-"@ + text::decimal((depth / 10_000) as nat) + "."@
            + fixed_digits((depth % 10_000) as nat, 4) + "*clip("@ + words::joined(
            blocks.map_values(
                |b: Span|
                    "clip(min((t-"@ + milli_text(
                        if b.start < 80_000 {
                            0
                        } else {
                            b.start - 80_000
                        },
                    ) + ")/0.100,("@ + milli_text(b.end + 700_000) + "-t)/0.400),0,1)"@,
            ),
            "+"@,
        ) + ",0,1)"@,
{
    lemma_sum_is_joined(blocks);
    assert(blocks.map_values(|b: Span| trap_text(b)) =~= blocks.map_values(
        |b: Span|
            "clip(min((t-"@ + milli_text(
                if b.start < 80_000 {
                    0
                } else {
                    b.start - 80_000
                },
            ) + ")/0.100,("@ + milli_text(b.end + 700_000) + "-t)/0.400),0,1)"@,
    ));
}

/// The filters of a chain of tempos are told one behind the other, with commas between them: a doubling as 2.0,
/// any other but the last as 0.5, and the last with six digits behind the point.
pub proof fn law_tempos_are_told(parts: Seq<int>)
    requires
        parts.len() > 0,
    ensures
        tempo_filters(parts) == words::joined(
            Seq::new(
                parts.len(),
                |i: int|
                    if i == parts.len() - 1 {
                        "atempo="@ + text::decimal((parts[i] / 1_000_000) as nat) + "."@ + fixed_digits(
                            (parts[i] % 1_000_000) as nat,
                            6,
                        )
                    } else if parts[i] == 2_000_000 {
                        "atempo=2.0"@
                    } else {
                        "atempo=0.5"@
                    },
            ),
            ","@,
        ),
    decreases parts.len(),
{
    let f = |p: Seq<int>, i: int|
        if i == p.len() - 1 {
            "atempo="@ + text::decimal((p[i] / 1_000_000) as nat) + "."@ + fixed_digits(
                (p[i] % 1_000_000) as nat,
                6,
            )
        } else if p[i] == 2_000_000 {
            "atempo=2.0"@
        } else {
            "atempo=0.5"@
        };
    let all = Seq::new(parts.len(), |i: int| f(parts, i));
    assert(all =~= Seq::new(
        parts.len(),
        |i: int|
            if i == parts.len() - 1 {
                "atempo="@ + text::decimal((parts[i] / 1_000_000) as nat) + "."@ + fixed_digits(
                    (parts[i] % 1_000_000) as nat,
                    6,
                )
            } else if parts[i] == 2_000_000 {
                "atempo=2.0"@
            } else {
                "atempo=0.5"@
            },
    ));
    if parts.len() == 1 {
        assert(words::joined(all, ","@) == all[0]);
    } else {
        let rest = parts.drop_first();
        law_tempos_are_told(rest);
        let behind = Seq::new(rest.len(), |i: int| f(rest, i));
        assert(behind =~= Seq::new(
            rest.len(),
            |i: int|
                if i == rest.len() - 1 {
                    "atempo="@ + text::decimal((rest[i] / 1_000_000) as nat) + "."@ + fixed_digits(
                        (rest[i] % 1_000_000) as nat,
                        6,
                    )
                } else if rest[i] == 2_000_000 {
                    "atempo=2.0"@
                } else {
                    "atempo=0.5"@
                },
        ));
        assert(all =~= seq![all[0]] + behind);
        words::lemma_joined_of_two(seq![all[0]], behind, ","@);
        assert(words::joined(seq![all[0]], ","@) == all[0]);
        reveal_strlit("atempo=2.0,");
        reveal_strlit("atempo=2.0");
        reveal_strlit("atempo=0.5,");
        reveal_strlit("atempo=0.5");
        reveal_strlit(",");
        assert("atempo=2.0,"@ =~= "atempo=2.0"@ + ","@);
        assert("atempo=0.5,"@ =~= "atempo=0.5"@ + ","@);
    }
}

/// From where to where a block of speech changes the volume: from eighty thousandths of a second before it, or
/// from the start of the film, to seven tenths behind it, each to the thousandth.
pub proof fn law_where_speech_is_felt(b: Span)
    requires
        0 <= b.end,
    ensures
        b.start < 80_000 ==> reach(b).0 == 0,
        b.start >= 80_000 ==> b.start - 80_500 < reach(b).0 <= b.start - 79_500,
        b.end + 699_500 < reach(b).1 <= b.end + 700_500,
        reach(b).0 % 1000 == 0 && reach(b).1 % 1000 == 0,
{
}

} // verus!
