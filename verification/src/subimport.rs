//! Reading ready subtitles (SubRip and SubStation Alpha) in place of recognised speech. Times are
//! whole microseconds.

use crate::decimal;
use crate::rank;
use crate::text;
use crate::words;
use vstd::prelude::*;

verus! {

/// One subtitle: when it is shown, and its text without markup.
#[derive(Clone, Debug)]
pub struct Cue {
    pub start: i128,
    pub end: i128,
    pub text: String,
}

/// One subtitle, as a value.
pub struct CueModel {
    pub start: int,
    pub end: int,
    pub text: Seq<char>,
}

impl View for Cue {
    type V = CueModel;

    open spec fn view(&self) -> CueModel {
        CueModel { start: self.start as int, end: self.end as int, text: self.text@ }
    }
}

pub open spec fn cue_views(cues: Seq<Cue>) -> Seq<CueModel> {
    cues.map_values(|c: Cue| c@)
}

// ── Points in time ──────────────────────────────────────────────────────────

/// A comma for a point.
pub open spec fn points(s: Seq<char>) -> Seq<char> {
    s.map_values(|c: char| if c == ',' { '.' } else { c })
}

fn with_points(s: &str) -> (r: String)
    ensures
        r@ == points(s@),
{
    let v = text::chars_of(s);
    let mut out = String::new();
    for i in 0..v.len()
        invariant
            v@ == s@,
            out@ == points(s@).take(i as int),
    {
        let c = v[i];
        out.push(if c == ',' { '.' } else { c });
        assert(points(s@).take(i + 1) =~= points(s@).take(i as int).push(points(s@)[i as int]));
    }
    assert(points(s@).take(v@.len() as int) =~= points(s@));
    out
}

/// The number in one place of a time, in millionths of a millionth, as far as it can be held.
pub open spec fn place(s: Seq<char>) -> Option<int> {
    decimal::held(s, 12, decimal::WIDEST as int)
}

fn read_place(s: &str) -> (r: Option<i128>)
    ensures
        match r {
            Some(x) => place(s@) == Some(x as int) && -decimal::WIDEST <= x <= decimal::WIDEST,
            None => place(s@) is None,
        },
{
    decimal::read_held(s, 12, decimal::WIDEST)
}

/// What hours, minutes and seconds, or minutes and seconds, make, in millionths of a microsecond.
pub open spec fn seconds(parts: Seq<Seq<char>>) -> Option<int> {
    if parts.len() == 3 {
        match (place(parts[0]), place(parts[1]), place(parts[2])) {
            (Some(h), Some(m), Some(s)) => Some(h * 3600 + m * 60 + s),
            _ => None,
        }
    } else if parts.len() == 2 {
        match (place(parts[0]), place(parts[1])) {
            (Some(m), Some(s)) => Some(m * 60 + s),
            _ => None,
        }
    } else {
        None
    }
}

/// What stands behind the point of the seconds, in millionths of a microsecond; nothing where it is no
/// fraction.
pub open spec fn fraction(s: Seq<char>) -> int {
    match place("0."@ + s) {
        Some(x) => x,
        None => 0,
    }
}

fn read_fraction(s: &str) -> (r: i128)
    ensures
        r == fraction(s@),
        -decimal::WIDEST <= r <= decimal::WIDEST,
{
    let mut t = "0.".to_owned();
    t.append(s);
    match read_place(t.as_str()) {
        Some(x) => x,
        None => 0,
    }
}

/// The time that `s` writes as "hours:minutes:seconds" or "minutes:seconds", with a fraction behind a
/// comma or a point; nothing where it writes none.
pub open spec fn clock(s: Seq<char>) -> Option<int> {
    let t = points(text::trimmed(s));
    let (hms, frac) = match words::cut(t, "."@) {
        Some(ab) => ab,
        None => (t, "0"@),
    };
    match seconds(text::pieces(hms, ':')) {
        Some(sec) => Some((sec + fraction(frac)) / 1_000_000),
        None => None,
    }
}

/// The time that `s` writes.
pub fn read_clock(s: &str) -> (r: Option<i128>)
    ensures
        match r {
            Some(t) => clock(s@) == Some(t as int),
            None => clock(s@) is None,
        },
{
    let t = with_points(text::trim(s).as_str());
    let (hms, frac) = match words::split_once(t.as_str(), ".") {
        Some(ab) => ab,
        None => (t, "0".to_owned()),
    };
    let parts = text::split_at_each(hms.as_str(), ':');
    let ghost ps = text::pieces(hms@, ':');
    assert(ps.len() == parts@.len());
    assert forall|i: int| 0 <= i < ps.len() implies #[trigger] ps[i] == parts@[i]@ by {
        assert(text::views(parts@)[i] == parts@[i]@);
    }
    let n: usize = parts.len();
    let (h, m, sec): (Option<i128>, Option<i128>, Option<i128>) = if n == 3 {
        (
            read_place(parts[0].as_str()),
            read_place(parts[1].as_str()),
            read_place(parts[2].as_str()),
        )
    } else if n == 2 {
        (Some(0), read_place(parts[0].as_str()), read_place(parts[1].as_str()))
    } else {
        (None, None, None)
    };
    let f = read_fraction(frac.as_str());
    match (h, m, sec) {
        (Some(a), Some(b), Some(c)) => {
            let total: i128 = a * 3600 + b * 60 + c + f;
            let us: i128 = if total >= 0 {
                total / 1_000_000
            } else {
                -((999_999 - total) / 1_000_000)
            };
            Some(us)
        },
        _ => None,
    }
}

/// The two times of a line "start --> end"; what follows the end is passed over.
pub open spec fn time_range(line: Seq<char>) -> Option<(int, int)> {
    match words::cut(line, "-->"@) {
        Some(ab) => {
            let ws = words::words(ab.1);
            let b = if ws.len() > 0 {
                ws[0]
            } else {
                text::trimmed(ab.1)
            };
            match (clock(ab.0), clock(b)) {
                (Some(s), Some(e)) => Some((s, e)),
                _ => None,
            }
        },
        None => None,
    }
}

fn read_range(line: &str) -> (r: Option<(i128, i128)>)
    ensures
        match r {
            Some(se) => time_range(line@) == Some((se.0 as int, se.1 as int)),
            None => time_range(line@) is None,
        },
{
    match words::split_once(line, "-->") {
        Some((a, b)) => {
            let ws = words::split_words(b.as_str());
            assert(text::views(ws@).len() == ws@.len());
            let tail = if ws.len() > 0 {
                assert(text::views(ws@)[0] == ws@[0]@);
                ws[0].clone()
            } else {
                text::trim(b.as_str())
            };
            match (read_clock(a.as_str()), read_clock(tail.as_str())) {
                (Some(s), Some(e)) => Some((s, e)),
                _ => None,
            }
        },
        None => None,
    }
}

// ── Markup ──────────────────────────────────────────────────────────────────

/// `s` without overrides in braces and without tags; a break or a hard space becomes a space, any
/// other backslash goes. A tag that is never closed leaves its bracket and takes the rest with it.
pub open spec fn unmarked(s: Seq<char>) -> Seq<char>
    decreases s.len(),
    via unmarked_decreases
{
    if s.len() == 0 {
        Seq::empty()
    } else {
        let rest = s.drop_first();
        if s[0] == '{' {
            let k = text::first_index(rest, '}');
            if k < rest.len() {
                unmarked(rest.skip(k + 1))
            } else {
                Seq::empty()
            }
        } else if s[0] == '\\' {
            if rest.len() > 0 && (rest[0] == 'N' || rest[0] == 'n' || rest[0] == 'h') {
                seq![' '] + unmarked(rest.drop_first())
            } else {
                unmarked(rest)
            }
        } else if s[0] == '<' {
            let k = text::first_index(rest, '>');
            if k < rest.len() {
                unmarked(rest.skip(k + 1))
            } else {
                seq!['<']
            }
        } else {
            seq![s[0]] + unmarked(rest)
        }
    }
}

#[via_fn]
proof fn unmarked_decreases(s: Seq<char>) {
    if s.len() > 0 {
        text::lemma_first_index(s.drop_first(), '}');
        text::lemma_first_index(s.drop_first(), '>');
    }
}

/// `s` without markup, its words one space apart.
pub open spec fn plain(s: Seq<char>) -> Seq<char> {
    words::joined(words::words(unmarked(s)), " "@)
}

/// `s` without markup, its words one space apart.
pub fn strip_markup(s: &str) -> (r: String)
    ensures
        r@ == plain(s@),
{
    let v = text::chars_of(s);
    let mut out = String::new();
    let mut i: usize = 0;
    assert(v@.skip(0) =~= v@);
    assert(out@ + unmarked(v@) =~= unmarked(v@));
    while i < v.len()
        invariant
            i <= v@.len(),
            v@ == s@,
            out@ + unmarked(v@.skip(i as int)) == unmarked(s@),
        decreases v@.len() - i,
    {
        let ghost rest = v@.skip(i as int);
        let ghost tail = v@.skip(i + 1);
        let ghost before = out@;
        let c = v[i];
        assert(rest[0] == c);
        assert(rest.drop_first() =~= tail);
        if c == '{' {
            let k: usize = text::find_from(&v, i + 1, '}');
            if k < v.len() {
                assert(tail.skip(k - i) =~= v@.skip(k + 1));
                i = k + 1;
            } else {
                i = v.len();
                assert(v@.skip(i as int) =~= Seq::<char>::empty());
            }
        } else if c == '\\' {
            if i + 1 < v.len() && (v[i + 1] == 'N' || v[i + 1] == 'n' || v[i + 1] == 'h') {
                out.push(' ');
                assert(tail[0] == v@[i + 1]);
                assert(tail.drop_first() =~= v@.skip(i + 2));
                assert(before + unmarked(rest) =~= out@ + unmarked(v@.skip(i + 2)));
                i = i + 2;
            } else {
                assert(tail.len() > 0 ==> tail[0] == v@[i + 1]);
                i = i + 1;
            }
        } else if c == '<' {
            let k: usize = text::find_from(&v, i + 1, '>');
            if k < v.len() {
                assert(tail.skip(k - i) =~= v@.skip(k + 1));
                i = k + 1;
            } else {
                out.push('<');
                i = v.len();
                assert(v@.skip(i as int) =~= Seq::<char>::empty());
                assert(before + unmarked(rest) =~= out@ + unmarked(v@.skip(i as int)));
            }
        } else {
            out.push(c);
            assert(before + unmarked(rest) =~= out@ + unmarked(v@.skip(i + 1)));
            i = i + 1;
        }
    }
    assert(v@.skip(i as int) =~= Seq::<char>::empty());
    assert(out@ =~= unmarked(s@));
    words::join(&words::split_words(out.as_str()), " ")
}

// ── SubRip ──────────────────────────────────────────────────────────────────

/// `s` without the byte order marks at its start.
pub open spec fn unmarked_start(s: Seq<char>) -> Seq<char>
    decreases s.len(),
{
    if s.len() > 0 && s[0] == '\u{feff}' {
        unmarked_start(s.drop_first())
    } else {
        s
    }
}

/// `s` without carriage returns.
pub open spec fn without_returns(s: Seq<char>) -> Seq<char>
    decreases s.len(),
{
    if s.len() == 0 {
        s
    } else if s.last() == '\r' {
        without_returns(s.drop_last())
    } else {
        without_returns(s.drop_last()).push(s.last())
    }
}

/// The content without byte order marks at its start and without carriage returns.
pub open spec fn cleaned(s: Seq<char>) -> Seq<char> {
    without_returns(unmarked_start(s))
}

fn clean(s: &str) -> (r: String)
    ensures
        r@ == cleaned(s@),
{
    let v = text::chars_of(s);
    let mut a: usize = 0;
    assert(v@.skip(0) =~= v@);
    while a < v.len() && v[a] == '\u{feff}'
        invariant
            a <= v@.len(),
            v@ == s@,
            unmarked_start(s@) == unmarked_start(v@.skip(a as int)),
        decreases v@.len() - a,
    {
        assert(v@.skip(a as int).drop_first() =~= v@.skip(a + 1));
        a += 1;
    }
    let ghost t = v@.skip(a as int);
    let mut out = String::new();
    let n: usize = v.len();
    assert(t.take(0) =~= Seq::empty());
    for i in a..n
        invariant
            a <= n == v@.len(),
            t == v@.skip(a as int),
            out@ == without_returns(t.take(i - a)),
    {
        assert(t.take(i + 1 - a).drop_last() =~= t.take(i - a));
        assert(t.take(i + 1 - a).last() == v@[i as int]);
        if v[i] != '\r' {
            out.push(v[i]);
        }
    }
    assert(t.take(n - a) =~= t);
    out
}

/// The lines that hold more than white space.
pub open spec fn filled(lines: Seq<Seq<char>>) -> Seq<Seq<char>>
    decreases lines.len(),
{
    if lines.len() == 0 {
        lines
    } else if text::trimmed(lines.last()).len() == 0 {
        filled(lines.drop_last())
    } else {
        filled(lines.drop_last()).push(lines.last())
    }
}

fn filled_lines(block: &str) -> (r: Vec<String>)
    ensures
        text::views(r@) == filled(text::pieces(block@, '\n')),
{
    let all = text::split_at_each(block, '\n');
    let ghost av = text::views(all@);
    let mut out: Vec<String> = Vec::new();
    assert(av.take(0) =~= Seq::empty());
    assert(text::views(out@) =~= Seq::empty());
    for i in 0..all.len()
        invariant
            av == text::views(all@),
            text::views(out@) == filled(av.take(i as int)),
    {
        assert(av.take(i + 1).drop_last() =~= av.take(i as int));
        assert(av.take(i + 1).last() == all@[i as int]@);
        if !text::blank(all[i].as_str()) {
            let ghost before = text::views(out@);
            out.push(all[i].clone());
            assert(text::views(out@) =~= before.push(all@[i as int]@));
        }
    }
    assert(av.take(all@.len() as int) =~= av);
    out
}

/// The index of the first line that holds `p`.
pub open spec fn first_with(lines: Seq<Seq<char>>, p: Seq<char>) -> Option<int>
    decreases lines.len(),
{
    if lines.len() == 0 {
        None
    } else if words::occurs(lines[0], p) {
        Some(0int)
    } else {
        match first_with(lines.drop_first(), p) {
            Some(i) => Some(i + 1),
            None => None,
        }
    }
}

fn find_with(lines: &Vec<String>, p: &str) -> (r: Option<usize>)
    ensures
        match r {
            Some(i) => i < lines@.len() && first_with(text::views(lines@), p@) == Some(i as int),
            None => first_with(text::views(lines@), p@) is None,
        },
{
    let ghost lv = text::views(lines@);
    assert(lv.skip(0) =~= lv);
    for i in 0..lines.len()
        invariant
            lv == text::views(lines@),
            match first_with(lv, p@) {
                Some(k) => first_with(lv.skip(i as int), p@) == Some(k - i),
                None => first_with(lv.skip(i as int), p@) is None,
            },
    {
        assert(lv.skip(i as int)[0] == lines@[i as int]@);
        assert(lv.skip(i as int).drop_first() =~= lv.skip(i + 1));
        if words::contains(lines[i].as_str(), p) {
            return Some(i);
        }
    }
    assert(lv.skip(lines@.len() as int).len() == 0);
    None
}

/// The subtitle in a block of SubRip: the times on the first line with an arrow, the text on the
/// lines behind it.
pub open spec fn srt_cue(block: Seq<char>) -> Option<CueModel> {
    let lines = filled(text::pieces(block, '\n'));
    match first_with(lines, "-->"@) {
        None => None,
        Some(ti) => match time_range(lines[ti]) {
            None => None,
            Some(se) => {
                let body = text::trimmed(words::joined(lines.skip(ti + 1), " "@));
                if body.len() == 0 {
                    None
                } else {
                    Some(CueModel { start: se.0, end: se.1, text: plain(body) })
                }
            },
        },
    }
}

fn read_srt_block(block: &str) -> (r: Option<Cue>)
    ensures
        match r {
            Some(c) => srt_cue(block@) == Some(c@),
            None => srt_cue(block@) is None,
        },
{
    let lines = filled_lines(block);
    let ghost lv = text::views(lines@);
    let ti: usize = match find_with(&lines, "-->") {
        Some(i) => i,
        None => {
            return None;
        },
    };
    assert(lv[ti as int] == lines@[ti as int]@);
    let (start, end) = match read_range(lines[ti].as_str()) {
        Some(v) => v,
        None => {
            return None;
        },
    };
    let mut rest: Vec<String> = Vec::new();
    let n: usize = lines.len();
    for i in ti + 1..n
        invariant
            ti < n == lines@.len(),
            lv == text::views(lines@),
            text::views(rest@) == lv.skip(ti + 1).take(i - ti - 1),
    {
        let ghost before = text::views(rest@);
        rest.push(lines[i].clone());
        assert(text::views(rest@) =~= before.push(lines@[i as int]@));
        assert(lv.skip(ti + 1).take(i - ti) =~= before.push(lines@[i as int]@));
    }
    assert(text::views(rest@) =~= lv.skip(ti + 1));
    let body = text::trim(words::join(&rest, " ").as_str());
    if body.as_str().is_empty() {
        return None;
    }
    Some(Cue { start, end, text: strip_markup(body.as_str()) })
}

/// The subtitles in blocks of SubRip, in order; blocks without one are passed over.
pub open spec fn srt_cues(blocks: Seq<Seq<char>>) -> Seq<CueModel>
    decreases blocks.len(),
{
    if blocks.len() == 0 {
        Seq::empty()
    } else {
        match srt_cue(blocks.last()) {
            Some(c) => srt_cues(blocks.drop_last()).push(c),
            None => srt_cues(blocks.drop_last()),
        }
    }
}

/// The subtitles of a SubRip file, as they stand in it.
pub open spec fn srt_of(content: Seq<char>) -> Seq<CueModel> {
    srt_cues(words::sections(cleaned(content), "\n\n"@))
}

fn parse_srt(content: &str) -> (r: Vec<Cue>)
    ensures
        cue_views(r@) == srt_of(content@),
{
    proof {
        reveal_strlit("\n\n");
        assert("\n\n"@.len() == 2);
    }
    let blocks = words::split_by(clean(content).as_str(), "\n\n");
    let ghost bv = text::views(blocks@);
    let mut out: Vec<Cue> = Vec::new();
    assert(bv.take(0) =~= Seq::empty());
    assert(cue_views(out@) =~= Seq::empty());
    for i in 0..blocks.len()
        invariant
            bv == text::views(blocks@),
            cue_views(out@) == srt_cues(bv.take(i as int)),
    {
        assert(bv.take(i + 1).drop_last() =~= bv.take(i as int));
        assert(bv.take(i + 1).last() == blocks@[i as int]@);
        if let Some(c) = read_srt_block(blocks[i].as_str()) {
            let ghost before = cue_views(out@);
            let ghost cv = c@;
            out.push(c);
            assert(cue_views(out@) =~= before.push(cv));
        }
    }
    assert(bv.take(blocks@.len() as int) =~= bv);
    out
}

// ── SubStation Alpha ────────────────────────────────────────────────────────

/// What is known while the lines of a SubStation Alpha file are read.
pub struct AssState {
    pub in_events: bool,
    /// The names of the fields of a dialogue line; none before they are known.
    pub fields: Seq<Seq<char>>,
    pub cues: Seq<CueModel>,
}

pub open spec fn field_names(s: Seq<char>) -> Seq<Seq<char>> {
    text::pieces(s, ',').map_values(|f: Seq<char>| text::ascii_lower(text::trimmed(f)))
}

/// The fields of a dialogue line where the file does not name them.
pub open spec fn usual_fields() -> Seq<Seq<char>> {
    seq![
        "layer"@,
        "start"@,
        "end"@,
        "style"@,
        "name"@,
        "marginl"@,
        "marginr"@,
        "marginv"@,
        "effect"@,
        "text"@,
    ]
}

/// The index of the first of `list` that is `x`.
pub open spec fn place_of(list: Seq<Seq<char>>, x: Seq<char>) -> Option<int>
    decreases list.len(),
{
    if list.len() == 0 {
        None
    } else if list[0] == x {
        Some(0int)
    } else {
        match place_of(list.drop_first(), x) {
            Some(i) => Some(i + 1),
            None => None,
        }
    }
}

fn find_place(list: &Vec<String>, x: &str) -> (r: Option<usize>)
    ensures
        match r {
            Some(i) => i < list@.len() && place_of(text::views(list@), x@) == Some(i as int),
            None => place_of(text::views(list@), x@) is None,
        },
{
    let ghost lv = text::views(list@);
    assert(lv.skip(0) =~= lv);
    for i in 0..list.len()
        invariant
            lv == text::views(list@),
            match place_of(lv, x@) {
                Some(k) => place_of(lv.skip(i as int), x@) == Some(k - i),
                None => place_of(lv.skip(i as int), x@) is None,
            },
    {
        assert(lv.skip(i as int)[0] == list@[i as int]@);
        assert(lv.skip(i as int).drop_first() =~= lv.skip(i + 1));
        if text::same(list[i].as_str(), x) {
            return Some(i);
        }
    }
    assert(lv.skip(list@.len() as int).len() == 0);
    None
}

/// The column of the field `name`.
pub open spec fn column(fields: Seq<Seq<char>>, cols: Seq<Seq<char>>, name: Seq<char>) -> Option<
    Seq<char>,
> {
    match place_of(fields, name) {
        Some(i) if 0 <= i < cols.len() => Some(cols[i]),
        _ => None,
    }
}

/// The subtitle of a dialogue line with the given fields. The last field takes the commas that are left.
pub open spec fn ass_cue(fields: Seq<Seq<char>>, rest: Seq<char>) -> Option<CueModel> {
    let cols = words::pieces_up_to(rest, ',', fields.len());
    match (column(fields, cols, "start"@), column(fields, cols, "end"@)) {
        (Some(a), Some(b)) => match (clock(text::trimmed(a)), clock(text::trimmed(b))) {
            (Some(s), Some(e)) => {
                let i_text = match place_of(fields, "text"@) {
                    Some(i) => i,
                    None => fields.len() - 1,
                };
                let body = if 0 <= i_text < cols.len() {
                    cols[i_text]
                } else {
                    Seq::empty()
                };
                Some(CueModel { start: s, end: e, text: plain(body) })
            },
            _ => None,
        },
        _ => None,
    }
}

fn read_column(fields: &Vec<String>, cols: &Vec<String>, name: &str) -> (r: Option<String>)
    ensures
        (match r {
            Some(s) => Some(s@),
            None => None,
        }) == column(text::views(fields@), text::views(cols@), name@),
{
    match find_place(fields, name) {
        Some(i) => {
            if i < cols.len() {
                assert(text::views(cols@)[i as int] == cols@[i as int]@);
                Some(cols[i].clone())
            } else {
                None
            }
        },
        None => None,
    }
}

fn read_dialogue(fields: &Vec<String>, rest: &str) -> (r: Option<Cue>)
    requires
        fields@.len() > 0,
    ensures
        match r {
            Some(c) => ass_cue(text::views(fields@), rest@) == Some(c@),
            None => ass_cue(text::views(fields@), rest@) is None,
        },
{
    let cols = words::split_up_to(rest, ',', fields.len());
    assert(text::views(fields@).len() == fields@.len());
    assert(text::views(cols@).len() == cols@.len());
    let (a, b) = match (read_column(fields, &cols, "start"), read_column(fields, &cols, "end")) {
        (Some(a), Some(b)) => (a, b),
        _ => {
            return None;
        },
    };
    let (start, end) = match (
        read_clock(text::trim(a.as_str()).as_str()),
        read_clock(text::trim(b.as_str()).as_str()),
    ) {
        (Some(s), Some(e)) => (s, e),
        _ => {
            return None;
        },
    };
    let i_text: usize = match find_place(fields, "text") {
        Some(i) => i,
        None => fields.len() - 1,
    };
    let body: String = if i_text < cols.len() {
        assert(text::views(cols@)[i_text as int] == cols@[i_text as int]@);
        cols[i_text].clone()
    } else {
        String::new()
    };
    Some(Cue { start, end, text: strip_markup(body.as_str()) })
}

/// Whether the line is a heading in brackets.
pub open spec fn is_heading(lt: Seq<char>) -> bool {
    lt.len() > 0 && lt[0] == '[' && lt.last() == ']'
}

/// What reading one more line makes of the state.
pub open spec fn ass_step(st: AssState, line: Seq<char>) -> AssState {
    let lt = text::trimmed(line);
    if is_heading(lt) {
        AssState { in_events: text::ascii_lower(lt) == text::ascii_lower("[Events]"@), ..st }
    } else if !st.in_events {
        st
    } else if text::starts(lt, "Format:"@) {
        AssState { fields: field_names(lt.skip("Format:"@.len() as int)), ..st }
    } else if text::starts(lt, "Dialogue:"@) {
        let fields = if st.fields.len() == 0 {
            usual_fields()
        } else {
            st.fields
        };
        AssState {
            fields,
            cues: match ass_cue(fields, lt.skip("Dialogue:"@.len() as int)) {
                Some(c) => st.cues.push(c),
                None => st.cues,
            },
            ..st
        }
    } else {
        st
    }
}

/// The state after the lines.
pub open spec fn ass_state(lines: Seq<Seq<char>>) -> AssState
    decreases lines.len(),
{
    if lines.len() == 0 {
        AssState { in_events: false, fields: Seq::empty(), cues: Seq::empty() }
    } else {
        ass_step(ass_state(lines.drop_last()), lines.last())
    }
}

/// The subtitles of a SubStation Alpha file, as they stand in it.
pub open spec fn ass_of(content: Seq<char>) -> Seq<CueModel> {
    ass_state(text::pieces(cleaned(content), '\n')).cues
}

fn read_fields(s: &str) -> (r: Vec<String>)
    ensures
        text::views(r@) == field_names(s@),
        r@.len() > 0,
{
    let parts = text::split_at_each(s, ',');
    let ghost pv = text::pieces(s@, ',');
    let mut out: Vec<String> = Vec::new();
    for i in 0..parts.len()
        invariant
            text::views(parts@) == pv,
            out@.len() == i,
            forall|j: int| 0 <= j < i ==> (#[trigger] out@[j])@ == field_names(s@)[j],
            pv == text::pieces(s@, ','),
    {
        assert(text::views(parts@)[i as int] == parts@[i as int]@);
        out.push(text::lower_ascii(text::trim(parts[i].as_str()).as_str()));
    }
    assert(text::views(out@) =~= field_names(s@));
    proof {
        text::lemma_pieces(s@, ',');
    }
    out
}

fn read_usual_fields() -> (r: Vec<String>)
    ensures
        text::views(r@) == usual_fields(),
{
    let r = vec![
        "layer".to_owned(),
        "start".to_owned(),
        "end".to_owned(),
        "style".to_owned(),
        "name".to_owned(),
        "marginl".to_owned(),
        "marginr".to_owned(),
        "marginv".to_owned(),
        "effect".to_owned(),
        "text".to_owned(),
    ];
    assert(text::views(r@) =~= usual_fields());
    r
}

/// What follows the prefix of length `n`.
fn behind(s: &str, n: usize) -> (r: String)
    requires
        n <= s@.len(),
    ensures
        r@ == s@.skip(n as int),
{
    let v = text::chars_of(s);
    let r = text::slice_text(&v, n, v.len());
    assert(r@ =~= s@.skip(n as int));
    r
}

fn parse_ass(content: &str) -> (r: Vec<Cue>)
    ensures
        cue_views(r@) == ass_of(content@),
{
    proof {
        reveal_strlit("Format:");
        reveal_strlit("Dialogue:");
        assert("Format:"@.len() == 7);
        assert("Dialogue:"@.len() == 9);
    }
    let lines = text::split_at_each(clean(content).as_str(), '\n');
    let ghost lv = text::views(lines@);
    let mut in_events = false;
    let mut fields: Vec<String> = Vec::new();
    let mut out: Vec<Cue> = Vec::new();
    let events = text::lower_ascii("[Events]");
    assert(lv.take(0) =~= Seq::empty());
    assert(cue_views(out@) =~= Seq::empty());
    assert(text::views(fields@) =~= Seq::empty());
    for i in 0..lines.len()
        invariant
            lv == text::views(lines@),
            events@ == text::ascii_lower("[Events]"@),
            "Format:"@.len() == 7,
            "Dialogue:"@.len() == 9,
            ass_state(lv.take(i as int)) == (AssState {
                in_events,
                fields: text::views(fields@),
                cues: cue_views(out@),
            }),
    {
        assert(lv.take(i + 1).drop_last() =~= lv.take(i as int));
        assert(lv.take(i + 1).last() == lines@[i as int]@);
        assert(text::views(fields@).len() == fields@.len());
        let lt = text::trim(lines[i].as_str());
        let chars = text::chars_of(lt.as_str());
        let n: usize = chars.len();
        if n > 0 && chars[0] == '[' && chars[n - 1] == ']' {
            in_events = text::same(text::lower_ascii(lt.as_str()).as_str(), events.as_str());
        } else if in_events {
            if text::starts_with(lt.as_str(), "Format:") {
                fields = read_fields(behind(lt.as_str(), 7).as_str());
            } else if text::starts_with(lt.as_str(), "Dialogue:") {
                if fields.len() == 0 {
                    fields = read_usual_fields();
                    assert(text::views(fields@).len() == fields@.len());
                }
                let ghost before = cue_views(out@);
                if let Some(c) = read_dialogue(&fields, behind(lt.as_str(), 9).as_str()) {
                    let ghost cv = c@;
                    out.push(c);
                    assert(cue_views(out@) =~= before.push(cv));
                }
            }
        }
    }
    assert(lv.take(lines@.len() as int) =~= lv);
    out
}

// ── Both ────────────────────────────────────────────────────────────────────

/// A subtitle that is shown for a time and says something.
pub open spec fn shown(c: CueModel) -> bool {
    c.end > c.start && text::trimmed(c.text).len() > 0
}

pub open spec fn shown_only(cues: Seq<CueModel>) -> Seq<CueModel>
    decreases cues.len(),
{
    if cues.len() == 0 {
        cues
    } else if shown(cues.last()) {
        shown_only(cues.drop_last()).push(cues.last())
    } else {
        shown_only(cues.drop_last())
    }
}

pub open spec fn starts_of(cues: Seq<CueModel>) -> Seq<int> {
    cues.map_values(|c: CueModel| c.start)
}

/// The subtitles that are shown, by the time at which they start; those that start together stay in
/// the order they had.
pub open spec fn ordered(cues: Seq<CueModel>) -> Seq<CueModel> {
    let kept = shown_only(cues);
    rank::stable_order(starts_of(kept)).map_values(|i: int| kept[i])
}

fn finalize(cues: Vec<Cue>) -> (r: Vec<Cue>)
    ensures
        cue_views(r@) == ordered(cue_views(cues@)),
{
    let ghost all = cue_views(cues@);
    let mut kept: Vec<Cue> = Vec::new();
    let mut keys: Vec<i128> = Vec::new();
    assert(all.take(0) =~= Seq::empty());
    assert(cue_views(kept@) =~= Seq::empty());
    for c in it: cues
        invariant
            cue_views(it.seq()) == all,
            cue_views(kept@) == shown_only(all.take(it.index())),
            keys@.len() == kept@.len(),
            forall|j: int| 0 <= j < keys@.len() ==> (#[trigger] keys@[j]) == kept@[j].start,
    {
        proof {
            let i = it.index();
            assert(cue_views(it.seq())[i] == c@);
            assert(all.take(i + 1).drop_last() =~= all.take(i));
            assert(all.take(i + 1).last() == c@);
        }
        if c.end > c.start && !text::blank(c.text.as_str()) {
            let ghost before = cue_views(kept@);
            keys.push(c.start);
            kept.push(c);
            assert(cue_views(kept@) =~= before.push(c@));
        }
    }
    assert(all.take(all.len() as int) =~= all);
    let ghost kv = cue_views(kept@);
    assert(rank::ints(keys@) =~= starts_of(kv));
    let order = rank::stable_sort(&keys);
    let mut out: Vec<Cue> = Vec::new();
    for i in 0..order.len()
        invariant
            kv == cue_views(kept@),
            order@.len() == kept@.len(),
            rank::is_order(rank::indices(order@), starts_of(kv)),
            out@.len() == i,
            forall|j: int| 0 <= j < i ==> (#[trigger] out@[j])@ == kv[order@[j] as int],
    {
        assert(rank::indices(order@)[i as int] == order@[i as int]);
        let k: usize = order[i];
        let c = &kept[k];
        let copy = Cue { start: c.start, end: c.end, text: c.text.clone() };
        assert(copy@ == kv[k as int]);
        out.push(copy);
    }
    assert(cue_views(out@) =~= ordered(all));
    out
}

/// Whether the extension means SubStation Alpha.
pub open spec fn is_ass(ext: Seq<char>) -> bool {
    text::ascii_lower(ext) == "ass"@ || text::ascii_lower(ext) == "ssa"@
}

/// Whether the extension means SubRip.
pub open spec fn is_srt(ext: Seq<char>) -> bool {
    text::ascii_lower(ext) == "srt"@
}

/// Whether a file in which nothing is found as SubRip is read as SubStation Alpha: its extension means
/// neither, or the heading of that format stands in it.
pub open spec fn may_be_ass(content: Seq<char>, ext: Seq<char>) -> bool {
    !is_srt(ext) || words::occurs(content, "[Events]"@)
}

/// The subtitles that stand in a file: by its extension, and a file of another kind as SubStation Alpha
/// too if nothing was found in it as SubRip.
pub open spec fn found(content: Seq<char>, ext: Seq<char>) -> Seq<CueModel> {
    if is_ass(ext) || (srt_of(content).len() == 0 && may_be_ass(content, ext)) {
        ass_of(content)
    } else {
        srt_of(content)
    }
}

/// The subtitles of a file, as they are shown.
pub open spec fn cues_of(content: Seq<char>, ext: Seq<char>) -> Seq<CueModel> {
    ordered(found(content, ext))
}

/// The subtitles of a file, in the order in which they are shown.
pub fn parse(content: &str, ext: &str) -> (r: Vec<Cue>)
    ensures
        cue_views(r@) == cues_of(content@, ext@),
{
    let e = text::lower_ascii(ext);
    if text::same(e.as_str(), "ass") || text::same(e.as_str(), "ssa") {
        return finalize(parse_ass(content));
    }
    let cues = parse_srt(content);
    assert(cue_views(cues@).len() == cues@.len());
    if cues.len() == 0 && (!text::same(e.as_str(), "srt") || words::contains(content, "[Events]")) {
        return finalize(parse_ass(content));
    }
    finalize(cues)
}

// ── Laws ────────────────────────────────────────────────────────────────────

proof fn lemma_shown_only(cues: Seq<CueModel>)
    ensures
        forall|i: int| 0 <= i < shown_only(cues).len() ==> shown(#[trigger] shown_only(cues)[i]),
    decreases cues.len(),
{
    if cues.len() > 0 {
        lemma_shown_only(cues.drop_last());
        let prev = shown_only(cues.drop_last());
        assert forall|i: int| 0 <= i < shown_only(cues).len() implies shown(
            #[trigger] shown_only(cues)[i],
        ) by {
            if i < prev.len() {
                assert(shown_only(cues)[i] == prev[i]);
            }
        }
    }
}

/// Whatever the file holds, the subtitles come out by the time at which they start, each with an end
/// behind its start and with a text.
pub proof fn law_cues_are_ordered_and_shown(content: Seq<char>, ext: Seq<char>)
    ensures
        forall|i: int|
            0 <= i < cues_of(content, ext).len() ==> shown(#[trigger] cues_of(content, ext)[i]),
        forall|i: int, j: int|
            0 <= i < j < cues_of(content, ext).len() ==> (#[trigger] cues_of(content, ext)[i]).start
                <= (#[trigger] cues_of(content, ext)[j]).start,
{
    let raw = found(content, ext);
    let kept = shown_only(raw);
    let keys = starts_of(kept);
    lemma_shown_only(raw);
    rank::law_stable_order(keys);
    let o = rank::stable_order(keys);
    assert(cues_of(content, ext) == o.map_values(|i: int| kept[i]));
    assert forall|i: int| 0 <= i < o.len() implies shown(#[trigger] cues_of(content, ext)[i]) by {
        assert(0 <= o[i] < keys.len());
        assert(shown(kept[o[i]]));
    }
    assert forall|i: int, j: int| 0 <= i < j < o.len() implies (#[trigger] cues_of(
        content,
        ext,
    )[i]).start <= (#[trigger] cues_of(content, ext)[j]).start by {
        assert(keys[o[i]] <= keys[o[j]]);
        assert(keys[o[i]] == kept[o[i]].start && keys[o[j]] == kept[o[j]].start);
    }
}

/// `s` with a carriage return before each end of a line.
pub open spec fn with_returns(s: Seq<char>) -> Seq<char>
    decreases s.len(),
{
    if s.len() == 0 {
        s
    } else if s[0] == '\n' {
        seq!['\r', '\n'] + with_returns(s.drop_first())
    } else {
        seq![s[0]] + with_returns(s.drop_first())
    }
}

proof fn lemma_without_returns_of_two(a: Seq<char>, b: Seq<char>)
    ensures
        without_returns(a + b) == without_returns(a) + without_returns(b),
    decreases b.len(),
{
    if b.len() == 0 {
        assert(a + b =~= a);
        assert(without_returns(a) + without_returns(b) =~= without_returns(a));
    } else {
        lemma_without_returns_of_two(a, b.drop_last());
        assert((a + b).drop_last() =~= a + b.drop_last());
        assert((a + b).last() == b.last());
        assert(without_returns(a + b) =~= without_returns(a) + without_returns(b));
    }
}

proof fn lemma_returns_go(s: Seq<char>)
    ensures
        without_returns(with_returns(s)) == without_returns(s),
    decreases s.len(),
{
    if s.len() > 0 {
        let c = seq![s[0]];
        let rest = s.drop_first();
        lemma_returns_go(rest);
        assert(s =~= c + rest);
        lemma_without_returns_of_two(c, rest);
        if s[0] == '\n' {
            let two = seq!['\r', '\n'];
            lemma_without_returns_of_two(two, with_returns(rest));
            assert(two.drop_last() =~= seq!['\r']);
            assert(seq!['\r'].drop_last() =~= Seq::<char>::empty());
            assert(c.drop_last() =~= Seq::<char>::empty());
            reveal_with_fuel(without_returns, 3);
            assert(without_returns(two) =~= without_returns(c));
        } else {
            lemma_without_returns_of_two(c, with_returns(rest));
        }
    }
}

proof fn lemma_marks_before_returns(s: Seq<char>)
    ensures
        unmarked_start(with_returns(s)) == with_returns(unmarked_start(s)),
    decreases s.len(),
{
    if s.len() > 0 {
        let w = with_returns(s);
        if s[0] == '\u{feff}' {
            lemma_marks_before_returns(s.drop_first());
            assert(w[0] == s[0]);
            assert(w.drop_first() =~= with_returns(s.drop_first()));
        } else if s[0] == '\n' {
            assert(w[0] == '\r');
        } else {
            assert(w[0] == s[0]);
        }
    }
}

/// `p` at the start of a text is told by its first character and the rest.
proof fn lemma_starts_by_one(s: Seq<char>, p: Seq<char>)
    requires
        s.len() > 0,
        p.len() > 0,
    ensures
        text::starts(s, p) == (s[0] == p[0] && text::starts(s.drop_first(), p.drop_first())),
{
    words::lemma_starts_by_one(s, p);
}

proof fn lemma_starts_with_returns(s: Seq<char>, p: Seq<char>)
    requires
        !p.contains('\n'),
        !p.contains('\r'),
    ensures
        text::starts(with_returns(s), p) == text::starts(s, p),
    decreases s.len(),
{
    let w = with_returns(s);
    if p.len() == 0 {
        assert(w.take(0) =~= p && s.take(0) =~= p);
    } else if s.len() > 0 {
        assert(p.contains(p[0]));
        lemma_starts_by_one(s, p);
        lemma_starts_by_one(w, p);
        if s[0] != '\n' {
            let rest = p.drop_first();
            assert(w.drop_first() =~= with_returns(s.drop_first()));
            assert forall|c: char| rest.contains(c) implies p.contains(c) by {
                let i = choose|i: int| 0 <= i < rest.len() && rest[i] == c;
                assert(p[i + 1] == c);
            }
            lemma_starts_with_returns(s.drop_first(), rest);
        }
    }
}

/// Carriage returns at the ends of the lines hide no text within a line and make none.
proof fn lemma_occurs_with_returns(s: Seq<char>, p: Seq<char>)
    requires
        p.len() > 0,
        !p.contains('\n'),
        !p.contains('\r'),
    ensures
        words::occurs(with_returns(s), p) == words::occurs(s, p),
    decreases s.len(),
{
    if s.len() > 0 {
        let w = with_returns(s);
        let rest = with_returns(s.drop_first());
        lemma_starts_with_returns(s, p);
        lemma_occurs_with_returns(s.drop_first(), p);
        if s[0] == '\n' {
            let behind = w.drop_first();
            assert(p.contains(p[0]));
            lemma_starts_by_one(behind, p);
            assert(behind.drop_first() =~= rest);
            reveal_with_fuel(words::text_index, 3);
            assert(words::text_index(behind, p) is Some == words::text_index(rest, p) is Some);
        } else {
            assert(w.drop_first() =~= rest);
        }
    }
}

/// A byte order mark in front, carriage returns at the ends of the lines and capitals in the extension
/// change nothing.
pub proof fn law_marks_returns_and_capitals_change_nothing(
    content: Seq<char>,
    ext: Seq<char>,
    other: Seq<char>,
)
    requires
        text::ascii_lower(other) == text::ascii_lower(ext),
    ensures
        cues_of(seq!['\u{feff}'] + content, ext) == cues_of(content, ext),
        cues_of(with_returns(content), ext) == cues_of(content, ext),
        cues_of(content, other) == cues_of(content, ext),
{
    let marked = seq!['\u{feff}'] + content;
    assert(marked.drop_first() =~= content);
    assert(cleaned(marked) == cleaned(content));
    lemma_marks_before_returns(content);
    lemma_returns_go(unmarked_start(content));
    assert(cleaned(with_returns(content)) == cleaned(content));
    reveal_strlit("[Events]");
    lemma_starts_by_one(marked, "[Events]"@);
    lemma_occurs_with_returns(content, "[Events]"@);
}

/// Whether no markup begins in `s`: neither a brace nor a backslash stands in it, and a bracket only
/// as its last character.
pub open spec fn free_of_markup(s: Seq<char>) -> bool {
    forall|i: int|
        0 <= i < s.len() ==> s[i] != '{' && s[i] != '\\' && (#[trigger] s[i] == '<' ==> i == s.len()
            - 1)
}

proof fn lemma_unmarked_is_free(s: Seq<char>)
    ensures
        free_of_markup(unmarked(s)),
    decreases s.len(),
{
    if s.len() > 0 {
        let rest = s.drop_first();
        text::lemma_first_index(rest, '}');
        text::lemma_first_index(rest, '>');
        if s[0] == '{' {
            let k = text::first_index(rest, '}');
            if k < rest.len() {
                lemma_unmarked_is_free(rest.skip(k + 1));
            }
        } else if s[0] == '\\' {
            if rest.len() > 0 && (rest[0] == 'N' || rest[0] == 'n' || rest[0] == 'h') {
                lemma_unmarked_is_free(rest.drop_first());
                lemma_free_behind(' ', unmarked(rest.drop_first()));
            } else {
                lemma_unmarked_is_free(rest);
            }
        } else if s[0] == '<' {
            let k = text::first_index(rest, '>');
            if k < rest.len() {
                lemma_unmarked_is_free(rest.skip(k + 1));
            }
        } else {
            lemma_unmarked_is_free(rest);
            lemma_free_behind(s[0], unmarked(rest));
        }
    }
}

proof fn lemma_free_behind(c: char, u: Seq<char>)
    requires
        free_of_markup(u),
        c != '{' && c != '\\' && c != '<',
    ensures
        free_of_markup(seq![c] + u),
{
    let t = seq![c] + u;
    assert forall|i: int| 0 <= i < t.len() implies t[i] != '{' && t[i] != '\\' && (#[trigger] t[i]
        == '<' ==> i == t.len() - 1) by {
        if i > 0 {
            assert(t[i] == u[i - 1]);
        }
    }
}

proof fn lemma_free_stays(u: Seq<char>)
    requires
        free_of_markup(u),
    ensures
        unmarked(u) == u,
    decreases u.len(),
{
    if u.len() > 0 {
        let rest = u.drop_first();
        assert forall|i: int| 0 <= i < rest.len() implies rest[i] != '{' && rest[i] != '\\' && (
        #[trigger] rest[i] == '<' ==> i == rest.len() - 1) by {
            assert(rest[i] == u[i + 1]);
        }
        lemma_free_stays(rest);
        assert(u[0] != '{' && u[0] != '\\');
        if u[0] == '<' {
            assert(u.len() == 1);
            assert(u =~= seq!['<']);
        } else {
            assert(u =~= seq![u[0]] + rest);
        }
    }
}

/// Where a bracket stands only at the end of a text, it stands only at the end of its last word.
proof fn lemma_bracket_ends_the_words(u: Seq<char>)
    requires
        free_of_markup(u),
    ensures
        forall|k: int, i: int|
            0 <= k < words::words(u).len() && 0 <= i < words::words(u)[k].len()
                && #[trigger] words::words(u)[k][i] == '<' ==> k == words::words(u).len() - 1 && i
                == words::words(u)[k].len() - 1,
    decreases u.len(),
{
    let t = text::trim_start(u);
    words::lemma_trim_start(u);
    words::lemma_trim_start_is_tail(u);
    if t.len() > 0 {
        let n = words::word_len(t);
        words::lemma_word_len(t);
        let rest = t.skip(n);
        let off = u.len() - t.len();
        assert forall|i: int| 0 <= i < rest.len() implies rest[i] != '{' && rest[i] != '\\' && (
        #[trigger] rest[i] == '<' ==> i == rest.len() - 1) by {
            assert(rest[i] == u[off + n + i]);
        }
        lemma_bracket_ends_the_words(rest);
        let ws = words::words(u);
        assert forall|k: int, i: int|
            0 <= k < ws.len() && 0 <= i < ws[k].len() && #[trigger] ws[k][i] == '<' implies k
            == ws.len() - 1 && i == ws[k].len() - 1 by {
            if k == 0 {
                assert(ws[0] == t.take(n));
                assert(ws[0][i] == u[off + i]);
                assert(rest.len() == 0);
                assert(words::words(rest).len() == 0);
            } else {
                assert(ws[k] == words::words(rest)[k - 1]);
                assert(words::words(rest)[k - 1][i] == '<');
            }
        }
    }
}

/// No markup is left behind: neither a brace nor a backslash, and a bracket only as the last
/// character. The words stand one space apart, and stripping what was stripped changes nothing.
pub proof fn law_plain_text_has_no_markup(s: Seq<char>)
    ensures
        free_of_markup(plain(s)),
        words::joined(words::words(plain(s)), " "@) == plain(s),
        plain(plain(s)) == plain(s),
{
    let u = unmarked(s);
    let ws = words::words(u);
    let r = plain(s);
    reveal_strlit(" ");
    lemma_unmarked_is_free(s);
    lemma_bracket_ends_the_words(u);
    words::lemma_words(u);
    words::lemma_joined_words(ws);
    assert forall|k: int, c: char|
        0 <= k < ws.len() && (c == '{' || c == '\\') implies !(#[trigger] ws[k].contains(c)) by {
        if ws[k].contains(c) {
            let i = choose|i: int| 0 <= i < ws[k].len() && ws[k][i] == c;
            assert(u.contains(ws[k][i]));
            let j = choose|j: int| 0 <= j < u.len() && u[j] == c;
            assert(u[j] != c);
        }
    }
    words::lemma_joined_lacks(ws, " "@, '{');
    words::lemma_joined_lacks(ws, " "@, '\\');
    if ws.len() > 0 {
        let front = ws.drop_last();
        assert forall|k: int| 0 <= k < front.len() implies !(#[trigger] front[k]).contains('<') by {
            if front[k].contains('<') {
                let i = choose|i: int| 0 <= i < front[k].len() && front[k][i] == '<';
                assert(ws[k][i] == '<');
            }
        }
        words::lemma_joined_lacks(front, " "@, '<');
    }
    assert forall|i: int| 0 <= i < r.len() implies r[i] != '{' && r[i] != '\\' && (#[trigger] r[i]
        == '<' ==> i == r.len() - 1) by {
        assert(r.contains(r[i]));
        if r[i] == '<' {
            let last = ws[ws.len() - 1];
            if ws.len() == 1 {
                assert(last[i] == '<');
            } else {
                let a = words::joined(ws.drop_last(), " "@);
                assert(r == a + " "@ + last);
                if i < a.len() {
                    assert(a.contains(a[i]));
                } else {
                    assert(i > a.len());
                    assert(last[i - a.len() - 1] == '<');
                }
            }
        }
    }
    lemma_free_stays(r);
}

// ── What a SubRip file holds ────────────────────────────────────────────────

proof fn lemma_filled_of_two(a: Seq<Seq<char>>, b: Seq<Seq<char>>)
    ensures
        filled(a + b) == filled(a) + filled(b),
    decreases b.len(),
{
    if b.len() == 0 {
        assert(a + b =~= a);
        assert(filled(a) + filled(b) =~= filled(a));
    } else {
        lemma_filled_of_two(a, b.drop_last());
        assert((a + b).drop_last() =~= a + b.drop_last());
        assert((a + b).last() == b.last());
        assert(filled(a + b) =~= filled(a) + filled(b));
    }
}

proof fn lemma_no_line()
    ensures
        filled(seq![Seq::<char>::empty()]) == Seq::<Seq<char>>::empty(),
{
    let e = seq![Seq::<char>::empty()];
    assert(e.drop_last() =~= Seq::<Seq<char>>::empty());
    reveal_with_fuel(filled, 2);
}

/// An end of a line before a block or behind it changes nothing.
proof fn lemma_block_edges(s: Seq<char>)
    ensures
        of_block(seq!['\n'] + s) == of_block(s),
        of_block(s + seq!['\n']) == of_block(s),
{
    reveal(of_block);
    let e = Seq::<char>::empty();
    let ps = text::pieces(s, '\n');
    lemma_no_line();
    let front = seq!['\n'] + s;
    text::lemma_first_index_is(front, '\n', 0);
    assert(front.take(0) =~= e);
    assert(front.skip(1) =~= s);
    assert(text::pieces(front, '\n') =~= seq![e] + ps);
    lemma_filled_of_two(seq![e], ps);
    assert(filled(text::pieces(front, '\n')) =~= filled(ps));
    words::law_pieces_join_to_the_text(s, '\n');
    text::lemma_pieces(s, '\n');
    let more = ps.push(e);
    assert forall|k: int| 0 <= k < more.len() implies !(#[trigger] more[k]).contains('\n') by {
        if k < ps.len() && more[k].contains('\n') {
            let i = choose|i: int| 0 <= i < ps[k].len() && ps[k][i] == '\n';
            assert(ps[k][i] != '\n');
        }
    }
    words::law_joined_texts_are_the_pieces(more, '\n');
    assert(more.drop_last() =~= ps);
    assert(words::joined(more, seq!['\n']) =~= s + seq!['\n']);
    lemma_filled_of_two(ps, seq![e]);
    assert(more =~= ps + seq![e]);
    assert(filled(more) =~= filled(ps));
}

proof fn lemma_srt_cues_of_two(a: Seq<Seq<char>>, b: Seq<Seq<char>>)
    ensures
        srt_cues(a + b) == srt_cues(a) + srt_cues(b),
    decreases b.len(),
{
    if b.len() == 0 {
        assert(a + b =~= a);
        assert(srt_cues(a) + srt_cues(b) =~= srt_cues(a));
    } else {
        lemma_srt_cues_of_two(a, b.drop_last());
        assert((a + b).drop_last() =~= a + b.drop_last());
        assert((a + b).last() == b.last());
        assert(srt_cues(a + b) =~= srt_cues(a) + srt_cues(b));
    }
}

/// The subtitles of one block: none or one.
#[verifier::opaque]
pub open spec fn of_block(block: Seq<char>) -> Seq<CueModel> {
    match srt_cue(block) {
        Some(c) => seq![c],
        None => Seq::empty(),
    }
}

proof fn lemma_one_block(b: Seq<char>)
    ensures
        srt_cues(seq![b]) == of_block(b),
{
    reveal(of_block);
    assert(seq![b].drop_last() =~= Seq::<Seq<char>>::empty());
    reveal_with_fuel(srt_cues, 2);
    assert(srt_cues(seq![b]) =~= of_block(b));
}

#[verifier::opaque]
spec fn cues_in(s: Seq<char>) -> Seq<CueModel> {
    srt_cues(words::sections(s, "\n\n"@))
}

proof fn lemma_section_first(s: Seq<char>, k: int)
    requires
        words::text_index(s, "\n\n"@) == Some(k),
    ensures
        0 <= k && k + 2 <= s.len(),
        cues_in(s) == of_block(s.take(k)) + cues_in(s.skip(k + 2)),
{
    reveal(cues_in);
    reveal_strlit("\n\n");
    words::lemma_text_index(s, "\n\n"@);
    lemma_one_block(s.take(k));
    lemma_srt_cues_of_two(seq![s.take(k)], words::sections(s.skip(k + 2), "\n\n"@));
}

proof fn lemma_section_only(s: Seq<char>)
    requires
        words::text_index(s, "\n\n"@) is None,
    ensures
        cues_in(s) == of_block(s),
{
    reveal(cues_in);
    lemma_one_block(s);
}

/// Two ends of lines stand at the start of a text.
proof fn lemma_two_ends(s: Seq<char>)
    ensures
        text::starts(s, "\n\n"@) <==> s.len() >= 2 && s[0] == '\n' && s[1] == '\n',
{
    reveal_strlit("\n\n");
    if s.len() >= 2 && s[0] == '\n' && s[1] == '\n' {
        assert(s.take(2) =~= "\n\n"@);
    }
    if text::starts(s, "\n\n"@) {
        assert(s.take(2)[0] == '\n' && s.take(2)[1] == '\n');
    }
}

proof fn lemma_end_in_front(s: Seq<char>)
    ensures
        cues_in(seq!['\n'] + s) == cues_in(s),
    decreases s.len(),
{
    let two = "\n\n"@;
    let t = seq!['\n'] + s;
    assert(t.drop_first() =~= s);
    lemma_two_ends(t);
    if s.len() > 0 && s[0] == '\n' {
        let r = s.drop_first();
        assert(s =~= seq!['\n'] + r);
        lemma_end_in_front(r);
        assert(words::text_index(t, two) == Some(0int));
        lemma_section_first(t, 0);
        assert(t.skip(2) =~= r);
        let e = t.take(0);
        assert(e =~= Seq::<char>::empty());
        lemma_empty_block();
        assert(of_block(e) + cues_in(r) =~= cues_in(r));
    } else {
        match words::text_index(s, two) {
            Some(k) => {
                assert(words::text_index(t, two) == Some(k + 1));
                lemma_section_first(s, k);
                lemma_section_first(t, k + 1);
                assert(t.take(k + 1) =~= seq!['\n'] + s.take(k));
                assert(t.skip(k + 3) =~= s.skip(k + 2));
                lemma_block_edges(s.take(k));
            },
            None => {
                assert(words::text_index(t, two) is None);
                lemma_section_only(s);
                lemma_section_only(t);
                lemma_block_edges(s);
            },
        }
    }
}

proof fn lemma_empty_block()
    ensures
        of_block(Seq::<char>::empty()) == Seq::<CueModel>::empty(),
{
    reveal(of_block);
    let e = Seq::<char>::empty();
    lemma_no_line();
    text::lemma_first_index_is(e, '\n', 0);
    assert(text::pieces(e, '\n') =~= seq![e]);
}

proof fn lemma_first_gap(a: Seq<char>, b: Seq<char>, k: int)
    requires
        words::text_index(a, "\n\n"@) == Some(k),
    ensures
        words::text_index(a + "\n\n"@ + b, "\n\n"@) == Some(k),
{
    reveal_strlit("\n\n");
    let two = "\n\n"@;
    let all = a + two + b;
    words::lemma_text_index_first(a, two);
    words::lemma_text_index(a, two);
    lemma_two_ends(a.skip(k));
    lemma_two_ends(all.skip(k));
    assert(all[k] == a[k] && all[k + 1] == a[k + 1]);
    assert forall|i: int| 0 <= i < k implies !text::starts(#[trigger] all.skip(i), two) by {
        lemma_two_ends(all.skip(i));
        lemma_two_ends(a.skip(i));
        assert(all[i] == a[i] && all[i + 1] == a[i + 1]);
        assert(!text::starts(a.skip(i), two));
    }
    words::lemma_text_index_is(all, two, k);
}

proof fn lemma_gap_at_the_seam(a: Seq<char>, b: Seq<char>)
    requires
        words::text_index(a, "\n\n"@) is None,
    ensures
        words::text_index(a + "\n\n"@ + b, "\n\n"@) == Some(
            if a.len() > 0 && a.last() == '\n' {
                a.len() - 1
            } else {
                a.len() as int
            },
        ),
{
    reveal_strlit("\n\n");
    let two = "\n\n"@;
    let all = a + two + b;
    let n = a.len() as int;
    let k = if n > 0 && a.last() == '\n' {
        n - 1
    } else {
        n
    };
    words::lemma_text_index_first(a, two);
    lemma_two_ends(all.skip(k));
    assert(all[n] == '\n' && all[n + 1] == '\n');
    assert forall|i: int| 0 <= i < k implies !text::starts(#[trigger] all.skip(i), two) by {
        lemma_two_ends(all.skip(i));
        lemma_two_ends(a.skip(i));
        assert(!text::starts(a.skip(i), two));
        assert(all[i] == a[i]);
        if i + 1 < n {
            assert(all[i + 1] == a[i + 1]);
        }
    }
    words::lemma_text_index_is(all, two, k);
}

proof fn lemma_cues_of_two(a: Seq<char>, b: Seq<char>)
    ensures
        cues_in(a + "\n\n"@ + b) == cues_in(a) + cues_in(b),
    decreases a.len(),
{
    reveal_strlit("\n\n");
    let two = "\n\n"@;
    let all = a + two + b;
    match words::text_index(a, two) {
        Some(k) => {
            lemma_first_gap(a, b, k);
            lemma_section_first(a, k);
            lemma_section_first(all, k);
            let rest = a.skip(k + 2);
            assert(all.take(k) =~= a.take(k));
            assert(all.skip(k + 2) =~= rest + two + b);
            lemma_cues_of_two(rest, b);
            assert(of_block(a.take(k)) + (cues_in(rest) + cues_in(b)) =~= (of_block(a.take(k))
                + cues_in(rest)) + cues_in(b));
        },
        None => {
            lemma_gap_at_the_seam(a, b);
            lemma_section_only(a);
            let n = a.len() as int;
            if n > 0 && a.last() == '\n' {
                let cut = a.take(n - 1);
                lemma_section_first(all, n - 1);
                assert(all.take(n - 1) =~= cut);
                assert(a =~= cut + seq!['\n']);
                lemma_block_edges(cut);
                assert(all.skip(n + 1) =~= seq!['\n'] + b);
                lemma_end_in_front(b);
            } else {
                lemma_section_first(all, n);
                assert(all.take(n) =~= a);
                assert(all.skip(n + 2) =~= b);
            }
        },
    }
}

proof fn lemma_unmarked_start_of_two(a: Seq<char>, b: Seq<char>)
    requires
        b.len() > 0,
        b[0] != '\u{feff}',
    ensures
        unmarked_start(a + b) == unmarked_start(a) + b,
    decreases a.len(),
{
    if a.len() > 0 && a[0] == '\u{feff}' {
        lemma_unmarked_start_of_two(a.drop_first(), b);
        assert((a + b).drop_first() =~= a.drop_first() + b);
    } else {
        assert(unmarked_start(a + b) =~= a + b);
    }
}

/// Two SubRip files, one behind the other with an empty line between them, hold the subtitles of both, in
/// that order: none is lost and none is made up. The second file has no byte order mark, which would then
/// stand in the middle.
pub proof fn law_joined_files_hold_the_subtitles_of_both(a: Seq<char>, b: Seq<char>)
    requires
        b.len() > 0 ==> b[0] != '\u{feff}',
    ensures
        srt_of(a + "\n\n"@ + b) == srt_of(a) + srt_of(b),
{
    reveal_strlit("\n\n");
    let two = "\n\n"@;
    let rest = two + b;
    assert(a + two + b =~= a + rest);
    lemma_unmarked_start_of_two(a, rest);
    let ua = unmarked_start(a);
    lemma_without_returns_of_two(ua, rest);
    lemma_without_returns_of_two(two, b);
    assert(two.drop_last() =~= seq!['\n']);
    assert(seq!['\n'].drop_last() =~= Seq::<char>::empty());
    reveal_with_fuel(without_returns, 3);
    assert(without_returns(two) =~= two);
    assert(cleaned(a + two + b) =~= cleaned(a) + two + cleaned(b));
    lemma_cues_of_two(cleaned(a), cleaned(b));
    reveal(cues_in);
}

proof fn lemma_char_index(s: Seq<char>, c: char, k: int)
    requires
        0 <= k < s.len(),
        s[k] == c,
        forall|i: int| 0 <= i < k ==> s[i] != c,
    ensures
        words::cut(s, seq![c]) == Some((s.take(k), s.skip(k + 1))),
{
    let p = seq![c];
    assert(s.skip(k).take(1) =~= p);
    assert forall|i: int| 0 <= i < k implies !text::starts(#[trigger] s.skip(i), p) by {
        assert(s.skip(i).take(1)[0] == s[i]);
    }
    words::lemma_text_index_is(s, p, k);
}

proof fn lemma_digits_have_no(d: Seq<char>, c: char)
    requires
        text::all_digits(d),
        !text::is_digit(c),
    ensures
        !d.contains(c),
{
    if d.contains(c) {
        let i = choose|i: int| 0 <= i < d.len() && d[i] == c;
        assert(text::is_digit(d[i]));
    }
}

proof fn lemma_place(d: Seq<char>)
    requires
        0 < d.len() <= 9,
        text::all_digits(d),
    ensures
        place(d) == Some(text::number(d) * 1_000_000_000_000),
{
    decimal::lemma_number_is_small(d);
    reveal_with_fuel(decimal::ten_to, 14);
    decimal::law_digits_write_their_number(d, 12, decimal::WIDEST as int);
}

proof fn lemma_fraction(f: Seq<char>)
    requires
        0 < f.len() <= 6,
        text::all_digits(f),
    ensures
        fraction(f) == text::number(f) * decimal::ten_to((6 - f.len()) as nat) * 1_000_000,
{
    reveal_strlit("0.");
    let w = seq!['0'];
    assert("0."@ + f =~= w + seq!['.'] + f);
    assert(text::number(w) == 0) by {
        assert(w.drop_last() =~= Seq::<char>::empty());
        reveal_with_fuel(text::number, 2);
    }
    decimal::lemma_number_is_small(f);
    decimal::lemma_ten_to_of_two((6 - f.len()) as nat, 6);
    decimal::lemma_ten_to_of_two(f.len(), (12 - f.len()) as nat);
    let (x, t, u) = (text::number(f), decimal::ten_to(f.len()), decimal::ten_to((12 - f.len()) as nat));
    reveal_with_fuel(decimal::ten_to, 14);
    assert(u > 0);
    assert(x * u <= t * u) by (nonlinear_arith)
        requires
            x <= t,
            u > 0,
    ;
    decimal::law_point_parts_whole_and_fraction(w, f, 12, decimal::WIDEST as int);
    let v = decimal::ten_to((6 - f.len()) as nat);
    assert(x * (v * 1_000_000) == x * v * 1_000_000) by (nonlinear_arith);
}

/// A time is read as it is written: hours, minutes and seconds with colons between them, and a fraction
/// behind a comma or a point. An hour is 3600 seconds, a minute is 60. Without hours the first number are
/// minutes.
pub proof fn law_clock_is_read_as_written(
    h: Seq<char>,
    m: Seq<char>,
    s: Seq<char>,
    mark: char,
    f: Seq<char>,
)
    requires
        0 < h.len() <= 9 && text::all_digits(h),
        0 < m.len() <= 9 && text::all_digits(m),
        0 < s.len() <= 9 && text::all_digits(s),
        0 < f.len() <= 6 && text::all_digits(f),
        mark == ',' || mark == '.',
    ensures
        clock(words::joined(seq![h, m, s], seq![':']) + seq![mark] + f) == Some(
            (text::number(h) * 3600 + text::number(m) * 60 + text::number(s)) * 1_000_000
                + text::number(f) * decimal::ten_to((6 - f.len()) as nat),
        ),
        clock(words::joined(seq![m, s], seq![':']) + seq![mark] + f) == Some(
            (text::number(m) * 60 + text::number(s)) * 1_000_000 + text::number(f) * decimal::ten_to(
                (6 - f.len()) as nat,
            ),
        ),
{
    lemma_clock(seq![h, m, s], mark, f);
    lemma_clock(seq![m, s], mark, f);
    lemma_seconds(h, m, s, f);
}

proof fn lemma_seconds(h: Seq<char>, m: Seq<char>, s: Seq<char>, f: Seq<char>)
    requires
        0 < h.len() <= 9 && text::all_digits(h),
        0 < m.len() <= 9 && text::all_digits(m),
        0 < s.len() <= 9 && text::all_digits(s),
        0 < f.len() <= 6 && text::all_digits(f),
    ensures
        written_time(seq![h, m, s], f) == Some(
            (text::number(h) * 3600 + text::number(m) * 60 + text::number(s)) * 1_000_000
                + text::number(f) * decimal::ten_to((6 - f.len()) as nat),
        ),
        written_time(seq![m, s], f) == Some(
            (text::number(m) * 60 + text::number(s)) * 1_000_000 + text::number(f) * decimal::ten_to(
                (6 - f.len()) as nat,
            ),
        ),
{
    reveal(written_time);
    lemma_place(h);
    lemma_place(m);
    lemma_place(s);
    lemma_fraction(f);
    let x = text::number(f) * decimal::ten_to((6 - f.len()) as nat);
    assert(fraction(f) == x * 1_000_000);
}

/// What the parts of a time and its fraction make.
#[verifier::opaque]
spec fn written_time(parts: Seq<Seq<char>>, f: Seq<char>) -> Option<int> {
    match seconds(parts) {
        Some(sec) => Some((sec + fraction(f)) / 1_000_000),
        None => None,
    }
}

proof fn lemma_clock(parts: Seq<Seq<char>>, mark: char, f: Seq<char>)
    requires
        parts.len() > 0,
        forall|k: int| 0 <= k < parts.len() ==> (#[trigger] parts[k]).len() > 0 && text::all_digits(parts[k]),
        f.len() > 0 && text::all_digits(f),
        mark == ',' || mark == '.',
    ensures
        clock(words::joined(parts, seq![':']) + seq![mark] + f) == written_time(parts, f),
{
    reveal(written_time);
    let hms = words::joined(parts, seq![':']);
    let t = hms + seq![mark] + f;
    assert forall|k: int| 0 <= k < parts.len() implies !(#[trigger] parts[k]).contains(':')
        && !parts[k].contains(',') && !parts[k].contains('.') by {
        lemma_digits_have_no(parts[k], ':');
        lemma_digits_have_no(parts[k], ',');
        lemma_digits_have_no(parts[k], '.');
    }
    words::law_joined_texts_are_the_pieces(parts, ':');
    assert(!seq![':'].contains(','));
    assert(!seq![':'].contains('.'));
    words::lemma_joined_lacks(parts, seq![':'], ',');
    words::lemma_joined_lacks(parts, seq![':'], '.');
    let first = parts[0];
    assert(text::is_digit(first[0]));
    assert(hms.len() > 0 && hms[0] == first[0]) by {
        if parts.len() > 1 {
            words::lemma_joined_front(parts, seq![':']);
        }
    }
    assert(text::is_digit(f[f.len() - 1]));
    assert(t.last() == f.last());
    assert(text::trimmed(t) =~= t);
    let p = points(t);
    assert(p =~= hms + seq!['.'] + f) by {
        assert forall|i: int| 0 <= i < p.len() implies #[trigger] p[i] == (hms + seq!['.'] + f)[i] by {
            if i < hms.len() {
                assert(hms.contains(hms[i]));
            } else if i > hms.len() {
                assert(text::is_digit(f[i - hms.len() - 1]));
            }
        }
    }
    let n = hms.len() as int;
    assert forall|i: int| 0 <= i < n implies p[i] != '.' by {
        assert(hms.contains(hms[i]));
    }
    lemma_char_index(p, '.', n);
    reveal_strlit(".");
    assert("."@ =~= seq!['.']);
    assert(p.take(n) =~= hms);
    assert(p.skip(n + 1) =~= f);
}

// ── What a block holds ──────────────────────────────────────────────────────

proof fn lemma_filled_all(ls: Seq<Seq<char>>)
    requires
        forall|k: int| 0 <= k < ls.len() ==> text::trimmed(#[trigger] ls[k]).len() > 0,
    ensures
        filled(ls) == ls,
    decreases ls.len(),
{
    if ls.len() > 0 {
        let prev = ls.drop_last();
        assert forall|k: int| 0 <= k < prev.len() implies text::trimmed(#[trigger] prev[k]).len() > 0 by {
            assert(prev[k] == ls[k]);
        }
        lemma_filled_all(prev);
        assert(text::trimmed(ls[ls.len() - 1]).len() > 0);
        assert(prev.push(ls.last()) =~= ls);
    }
}

proof fn lemma_filled_lacks(ls: Seq<Seq<char>>, p: Seq<char>)
    requires
        forall|k: int| 0 <= k < ls.len() ==> !words::occurs(#[trigger] ls[k], p),
    ensures
        forall|k: int| 0 <= k < filled(ls).len() ==> !words::occurs(#[trigger] filled(ls)[k], p),
    decreases ls.len(),
{
    if ls.len() > 0 {
        let prev = ls.drop_last();
        assert forall|k: int| 0 <= k < prev.len() implies !words::occurs(#[trigger] prev[k], p) by {
            assert(prev[k] == ls[k]);
        }
        lemma_filled_lacks(prev, p);
        assert(!words::occurs(ls[ls.len() - 1], p));
        assert forall|k: int| 0 <= k < filled(ls).len() implies !words::occurs(
            #[trigger] filled(ls)[k],
            p,
        ) by {
            if k < filled(prev).len() {
                assert(filled(ls)[k] == filled(prev)[k]);
            }
        }
    }
}

proof fn lemma_first_with(ls: Seq<Seq<char>>, p: Seq<char>, k: int)
    requires
        0 <= k < ls.len(),
        words::occurs(ls[k], p),
        forall|j: int| 0 <= j < k ==> !words::occurs(#[trigger] ls[j], p),
    ensures
        first_with(ls, p) == Some(k),
    decreases k,
{
    if k > 0 {
        let rest = ls.drop_first();
        assert(!words::occurs(ls[0], p));
        assert forall|j: int| 0 <= j < k - 1 implies !words::occurs(#[trigger] rest[j], p) by {
            assert(rest[j] == ls[j + 1]);
        }
        lemma_first_with(rest, p, k - 1);
    }
}

proof fn lemma_spaces_around_a_clock(a: Seq<char>)
    ensures
        clock(a + seq![' ']) == clock(a),
{
    let (x, y) = text::law_trimming_takes_white_space(a);
    let t = a + seq![' '];
    if x < y {
        assert(t =~= a.take(x) + a.subrange(x, y) + (a.skip(y) + seq![' ']));
        text::lemma_trimmed_is(a.take(x), a.subrange(x, y), a.skip(y) + seq![' ']);
    } else {
        assert(a.subrange(x, y) =~= Seq::<char>::empty());
        assert(t =~= t + Seq::<char>::empty() + Seq::<char>::empty());
        text::lemma_trimmed_is(t, Seq::empty(), Seq::empty());
    }
}

proof fn lemma_arrow(a: Seq<char>, rest: Seq<char>)
    requires
        !a.contains('-'),
    ensures
        words::cut(a + " -->"@ + rest, "-->"@) == Some((a + seq![' '], rest)),
        words::occurs(a + " -->"@ + rest, "-->"@),
        text::trimmed(a + " -->"@ + rest).len() > 0,
{
    reveal_strlit(" -->");
    reveal_strlit("-->");
    let arrow = "-->"@;
    let line = a + " -->"@ + rest;
    let n = a.len() as int;
    assert(line.skip(n + 1).take(3) =~= arrow);
    assert forall|i: int| 0 <= i < n + 1 implies !text::starts(#[trigger] line.skip(i), arrow) by {
        if text::starts(line.skip(i), arrow) {
            assert(line.skip(i).take(3)[0] == '-');
            assert(line[i] == '-');
            if i < n {
                assert(a.contains(a[i]));
            }
        }
    }
    words::lemma_text_index_is(line, arrow, n + 1);
    assert(line.take(n + 1) =~= a + seq![' ']);
    assert(line.skip(n + 4) =~= rest);
    let (x, y) = text::law_trimming_takes_white_space(line);
    assert(line[n + 1] == '-');
}

proof fn lemma_word_behind_a_space(b: Seq<char>, tail: Seq<char>)
    requires
        words::is_word(b),
        tail.len() > 0 ==> tail[0] == ' ',
    ensures
        words::words(seq![' '] + b + tail).len() > 0,
        words::words(seq![' '] + b + tail)[0] == b,
{
    let rest = seq![' '] + b + tail;
    let t = b + tail;
    assert(rest.drop_first() =~= t);
    assert(t[0] == b[0]);
    assert(text::trim_start(t) == t);
    assert(text::trim_start(rest) == t);
    words::lemma_word_len_of(b, tail);
    assert(t.take(b.len() as int) =~= b);
}

proof fn lemma_range(a: Seq<char>, b: Seq<char>, tail: Seq<char>)
    requires
        !a.contains('-'),
        words::is_word(b),
        tail.len() > 0 ==> tail[0] == ' ',
    ensures
        words::occurs(a + " --> "@ + b + tail, "-->"@),
        time_range(a + " --> "@ + b + tail) == both_clocks(a, b),
        text::trimmed(a + " --> "@ + b + tail).len() > 0,
{
    reveal(both_clocks);
    reveal_strlit(" -->");
    reveal_strlit(" --> ");
    let rest = seq![' '] + b + tail;
    assert(a + " --> "@ + b + tail =~= a + " -->"@ + rest);
    lemma_arrow(a, rest);
    lemma_word_behind_a_space(b, tail);
    lemma_spaces_around_a_clock(a);
}

/// The two times, if both can be read.
#[verifier::opaque]
spec fn both_clocks(a: Seq<char>, b: Seq<char>) -> Option<(int, int)> {
    match (clock(a), clock(b)) {
        (Some(s), Some(e)) => Some((s, e)),
        _ => None,
    }
}

/// A block holds one subtitle: on its first line with an arrow the time at which it begins and the one at
/// which it ends, and on the lines behind that what it says. What stands before that line, such as a number,
/// and behind the time at its end does not matter.
pub proof fn law_block_is_read_as_written(
    pre: Seq<Seq<char>>,
    a: Seq<char>,
    b: Seq<char>,
    tail: Seq<char>,
    body: Seq<Seq<char>>,
)
    requires
        forall|k: int|
            0 <= k < pre.len() ==> !(#[trigger] pre[k]).contains('\n') && !words::occurs(pre[k], "-->"@),
        !a.contains('-') && !a.contains('\n') && clock(a) is Some,
        words::is_word(b) && clock(b) is Some,
        tail.len() > 0 ==> tail[0] == ' ',
        !tail.contains('\n'),
        body.len() > 0,
        forall|k: int|
            0 <= k < body.len() ==> !(#[trigger] body[k]).contains('\n') && body[k].len() > 0 && text::tidy(
                body[k],
            ),
    ensures
        srt_cue(words::joined(pre + seq![a + " --> "@ + b + tail] + body, seq!['\n'])) == Some(
            CueModel {
                start: clock(a)->0,
                end: clock(b)->0,
                text: plain(words::joined(body, " "@)),
            },
        ),
{
    reveal(both_clocks);
    reveal_strlit(" --> ");
    reveal_strlit(" ");
    let line = a + " --> "@ + b + tail;
    let all = pre + seq![line] + body;
    assert(!line.contains('\n')) by {
        if line.contains('\n') {
            let i = choose|i: int| 0 <= i < line.len() && line[i] == '\n';
            if i < a.len() {
                assert(a.contains(a[i]));
            } else if i >= a.len() + 5 {
                let j = i - a.len() - 5;
                if j < b.len() {
                    assert(!text::is_space(b[j]));
                } else {
                    assert(tail.contains(tail[j - b.len()]));
                }
            }
        }
    }
    assert forall|k: int| 0 <= k < all.len() implies !(#[trigger] all[k]).contains('\n') by {
        if k < pre.len() {
            assert(all[k] == pre[k]);
        } else if k > pre.len() {
            assert(all[k] == body[k - pre.len() - 1]);
        }
    }
    words::law_joined_texts_are_the_pieces(all, '\n');
    lemma_range(a, b, tail);
    let behind = seq![line] + body;
    assert forall|k: int| 0 <= k < behind.len() implies text::trimmed(#[trigger] behind[k]).len() > 0 by {
        if k > 0 {
            assert(behind[k] == body[k - 1]);
            assert(text::tidy(body[k - 1]));
        }
    }
    lemma_filled_all(behind);
    assert(all =~= pre + behind);
    lemma_filled_of_two(pre, behind);
    lemma_filled_lacks(pre, "-->"@);
    let lines = filled(all);
    let ti = filled(pre).len() as int;
    assert(lines[ti] == line);
    assert forall|j: int| 0 <= j < ti implies !words::occurs(#[trigger] lines[j], "-->"@) by {
        assert(lines[j] == filled(pre)[j]);
    }
    lemma_first_with(lines, "-->"@, ti);
    assert(lines.skip(ti + 1) =~= body);
    let said = words::joined(body, " "@);
    assert(text::tidy(body[0]) && text::tidy(body[body.len() - 1]));
    assert(said.len() > 0 && said[0] == body[0][0] && said.last() == body.last().last()) by {
        if body.len() > 1 {
            words::lemma_joined_front(body, " "@);
        }
    }
    assert(text::trimmed(said) == said);
}

/// A file of blocks with empty lines between them holds what each of its blocks holds, in their order.
pub proof fn law_file_is_read_block_by_block(blocks: Seq<Seq<char>>)
    requires
        blocks.len() > 0,
        forall|k: int|
            0 <= k < blocks.len() && (#[trigger] blocks[k]).len() > 0 ==> blocks[k][0] != '\u{feff}',
    ensures
        srt_of(words::joined(blocks, "\n\n"@)) == blocks.map_values(|b: Seq<char>| srt_of(b)).flatten(),
    decreases blocks.len(),
{
    let f = |b: Seq<char>| srt_of(b);
    let last = blocks.last();
    let prev = blocks.drop_last();
    let all = blocks.map_values(f);
    assert(all =~= prev.map_values(f).push(srt_of(last)));
    prev.map_values(f).lemma_flatten_push(srt_of(last));
    if blocks.len() == 1 {
        assert(prev.map_values(f) =~= Seq::<Seq<CueModel>>::empty());
        assert(Seq::<Seq<CueModel>>::empty().flatten() =~= Seq::<CueModel>::empty());
        assert(Seq::<CueModel>::empty() + srt_of(last) =~= srt_of(last));
    } else {
        assert forall|k: int| 0 <= k < prev.len() && (#[trigger] prev[k]).len() > 0 implies prev[k][0]
            != '\u{feff}' by {
            assert(prev[k] == blocks[k]);
        }
        law_file_is_read_block_by_block(prev);
        assert(blocks[blocks.len() - 1] == last);
        law_joined_files_hold_the_subtitles_of_both(words::joined(prev, "\n\n"@), last);
    }
}

/// A file that is one block, without byte order marks and carriage returns, holds what the block holds.
pub proof fn law_one_block_is_a_file(block: Seq<char>)
    requires
        !words::occurs(block, "\n\n"@),
        !block.contains('\r'),
        block.len() > 0 ==> block[0] != '\u{feff}',
    ensures
        srt_of(block) == (match srt_cue(block) {
            Some(c) => seq![c],
            None => Seq::empty(),
        }),
{
    lemma_no_returns(block);
    lemma_section_only(block);
    reveal(cues_in);
    reveal(of_block);
}

proof fn lemma_no_returns(s: Seq<char>)
    requires
        !s.contains('\r'),
    ensures
        without_returns(s) == s,
    decreases s.len(),
{
    if s.len() > 0 {
        let prev = s.drop_last();
        if prev.contains('\r') {
            let i = choose|i: int| 0 <= i < prev.len() && prev[i] == '\r';
            assert(s[i] == '\r');
        }
        assert(s[s.len() - 1] != '\r');
        lemma_no_returns(prev);
        assert(prev.push(s.last()) =~= s);
    }
}

// ── What is shown ───────────────────────────────────────────────────────────

proof fn lemma_shown_is_filtered(cues: Seq<CueModel>, f: spec_fn(CueModel) -> bool)
    requires
        forall|c: CueModel| #[trigger] f(c) <==> shown(c),
    ensures
        shown_only(cues) == cues.filter(f),
    decreases cues.len(),
{
    reveal(Seq::filter);
    if cues.len() > 0 {
        lemma_shown_is_filtered(cues.drop_last(), f);
        assert(f(cues.last()) <==> shown(cues.last()));
    }
}

/// Of what stands in a file, exactly the subtitles come out that end behind their start and say something,
/// each as often as it stands there, by the time at which they start; those that start together in the
/// order they had. A file for SubStation Alpha is read as such; any other as SubRip if anything is found in
/// it so, and else as the other format where it may be that. `o` is the order in which they come out.
pub proof fn law_no_subtitle_is_lost(content: Seq<char>, ext: Seq<char>) -> (o: Seq<int>)
    ensures
        ({
            let low = text::ascii_lower(ext);
            let stands = if low == "ass"@ || low == "ssa"@ {
                ass_of(content)
            } else if srt_of(content).len() > 0 {
                srt_of(content)
            } else if low != "srt"@ || words::occurs(content, "[Events]"@) {
                ass_of(content)
            } else {
                Seq::empty()
            };
            let kept = stands.filter(
                |c: CueModel| c.start < c.end && text::trimmed(c.text).len() > 0,
            );
            &&& rank::is_order(o, kept.map_values(|c: CueModel| c.start))
            &&& cues_of(content, ext) == o.map_values(|i: int| kept[i])
        }),
{
    let f = |c: CueModel| c.start < c.end && text::trimmed(c.text).len() > 0;
    let stands = found(content, ext);
    lemma_shown_is_filtered(stands, f);
    let kept = stands.filter(f);
    assert(srt_of(content).len() == 0 ==> srt_of(content) =~= Seq::<CueModel>::empty());
    let keys = starts_of(kept);
    assert(keys =~= kept.map_values(|c: CueModel| c.start));
    rank::law_stable_order(keys);
    rank::stable_order(keys)
}

// ── Markup ──────────────────────────────────────────────────────────────────

proof fn lemma_unmarked_front(a: Seq<char>, b: Seq<char>)
    requires
        forall|i: int| 0 <= i < a.len() ==> #[trigger] a[i] != '{' && a[i] != '\\' && a[i] != '<',
    ensures
        unmarked(a + b) == a + unmarked(b),
    decreases a.len(),
{
    if a.len() == 0 {
        assert(a + b =~= b);
        assert(a + unmarked(b) =~= unmarked(b));
    } else {
        let r = a.drop_first();
        assert forall|i: int| 0 <= i < r.len() implies #[trigger] r[i] != '{' && r[i] != '\\' && r[i]
            != '<' by {
            assert(r[i] == a[i + 1]);
        }
        lemma_unmarked_front(r, b);
        let s = a + b;
        assert(s[0] == a[0]);
        assert(s.drop_first() =~= r + b);
        assert(unmarked(s) == seq![s[0]] + unmarked(r + b));
        assert(seq![a[0]] + (r + unmarked(b)) =~= a + unmarked(b));
    }
}

/// Only markup goes. Characters that begin none stay; a tag goes with its brackets, an override with its
/// braces; a break or a hard space becomes a space; a backslash before anything else goes alone.
pub proof fn law_only_markup_goes(a: Seq<char>, tag: Seq<char>, b: Seq<char>)
    requires
        forall|i: int| 0 <= i < a.len() ==> #[trigger] a[i] != '{' && a[i] != '\\' && a[i] != '<',
    ensures
        unmarked(a) == a,
        !tag.contains('>') ==> unmarked(a + (seq!['<'] + tag + seq!['>'] + b)) == a + unmarked(b),
        !tag.contains('}') ==> unmarked(a + (seq!['{'] + tag + seq!['}'] + b)) == a + unmarked(b),
        unmarked(a + (seq!['\\', 'N'] + b)) == a + (seq![' '] + unmarked(b)),
        unmarked(a + (seq!['\\', 'n'] + b)) == a + (seq![' '] + unmarked(b)),
        unmarked(a + (seq!['\\', 'h'] + b)) == a + (seq![' '] + unmarked(b)),
        b.len() > 0 && b[0] != 'N' && b[0] != 'n' && b[0] != 'h' ==> unmarked(a + (seq!['\\'] + b)) == a
            + unmarked(b),
{
    lemma_unmarked_front(a, Seq::empty());
    assert(a + Seq::<char>::empty() =~= a);
    assert(unmarked(Seq::<char>::empty()) =~= Seq::<char>::empty());
    let t = seq!['<'] + tag + seq!['>'] + b;
    lemma_unmarked_front(a, t);
    if !tag.contains('>') {
        lemma_bracketed(tag, '>', b);
        assert(t.drop_first() =~= tag + seq!['>'] + b);
    }
    let o = seq!['{'] + tag + seq!['}'] + b;
    lemma_unmarked_front(a, o);
    if !tag.contains('}') {
        lemma_bracketed(tag, '}', b);
        assert(o.drop_first() =~= tag + seq!['}'] + b);
    }
    lemma_break('N', b);
    lemma_break('n', b);
    lemma_break('h', b);
    lemma_unmarked_front(a, seq!['\\', 'N'] + b);
    lemma_unmarked_front(a, seq!['\\', 'n'] + b);
    lemma_unmarked_front(a, seq!['\\', 'h'] + b);
    let s = seq!['\\'] + b;
    lemma_unmarked_front(a, s);
    assert(s.drop_first() =~= b);
}

proof fn lemma_break(c: char, b: Seq<char>)
    requires
        c == 'N' || c == 'n' || c == 'h',
    ensures
        unmarked(seq!['\\', c] + b) == seq![' '] + unmarked(b),
{
    let s = seq!['\\', c] + b;
    assert(s[0] == '\\');
    assert(s.drop_first() =~= seq![c] + b);
    assert(s.drop_first()[0] == c);
    assert(s.drop_first().drop_first() =~= b);
}

proof fn lemma_bracketed(tag: Seq<char>, close: char, b: Seq<char>)
    requires
        !tag.contains(close),
    ensures
        ({
            let rest = tag + seq![close] + b;
            &&& text::first_index(rest, close) == tag.len()
            &&& rest.skip(tag.len() as int + 1) == b
            &&& tag.len() < rest.len()
        }),
{
    let rest = tag + seq![close] + b;
    assert forall|i: int| 0 <= i < tag.len() implies rest[i] != close by {
        assert(tag.contains(tag[i]));
    }
    text::lemma_first_index_is(rest, close, tag.len() as int);
    assert(rest.skip(tag.len() as int + 1) =~= b);
}

// ── What a SubStation Alpha file holds ──────────────────────────────────────

proof fn lemma_place_of(list: Seq<Seq<char>>, x: Seq<char>, k: int)
    requires
        0 <= k < list.len(),
        list[k] == x,
        forall|j: int| 0 <= j < k ==> #[trigger] list[j] != x,
    ensures
        place_of(list, x) == Some(k),
    decreases k,
{
    if k > 0 {
        let rest = list.drop_first();
        assert(list[0] != x);
        assert forall|j: int| 0 <= j < k - 1 implies #[trigger] rest[j] != x by {
            assert(rest[j] == list[j + 1]);
        }
        lemma_place_of(rest, x, k - 1);
    }
}

proof fn lemma_columns(cols: Seq<Seq<char>>)
    requires
        cols.len() > 0,
        forall|k: int| 0 <= k < cols.len() - 1 ==> !(#[trigger] cols[k]).contains(','),
    ensures
        words::pieces_up_to(words::joined(cols, seq![',']), ',', cols.len()) == cols,
    decreases cols.len(),
{
    let s = words::joined(cols, seq![',']);
    if cols.len() == 1 {
        text::lemma_first_index(s, ',');
        assert(seq![s] =~= cols);
    } else {
        let tail = cols.drop_first();
        assert forall|k: int| 0 <= k < tail.len() - 1 implies !(#[trigger] tail[k]).contains(',') by {
            assert(tail[k] == cols[k + 1]);
        }
        lemma_columns(tail);
        words::lemma_joined_front(cols, seq![',']);
        let c = cols[0];
        let n = c.len() as int;
        assert(!cols[0].contains(','));
        assert forall|i: int| 0 <= i < n implies s[i] != ',' by {
            assert(c.contains(c[i]));
        }
        text::lemma_first_index_is(s, ',', n);
        assert(s.take(n) =~= c);
        assert(s.skip(n + 1) =~= words::joined(tail, seq![',']));
        assert(words::pieces_up_to(s, ',', cols.len()) =~= cols);
    }
}

/// A dialogue line is read by the fields that were named: the column of "start" is the time at which the
/// subtitle begins, that of "end" the one at which it ends, and the last column, with all its commas, is what
/// it says. Of a field that is named twice the first one counts.
pub proof fn law_dialogue_is_read_by_its_fields(
    fields: Seq<Seq<char>>,
    cols: Seq<Seq<char>>,
    s: int,
    e: int,
)
    requires
        fields.len() == cols.len(),
        forall|k: int| 0 <= k < cols.len() - 1 ==> !(#[trigger] cols[k]).contains(','),
        0 <= s < fields.len() && fields[s] == "start"@,
        forall|j: int| 0 <= j < s ==> #[trigger] fields[j] != "start"@,
        0 <= e < fields.len() && fields[e] == "end"@,
        forall|j: int| 0 <= j < e ==> #[trigger] fields[j] != "end"@,
        fields.last() == "text"@,
        forall|j: int| 0 <= j < fields.len() - 1 ==> #[trigger] fields[j] != "text"@,
    ensures
        ass_cue(fields, words::joined(cols, seq![','])) == (match (
            clock(text::trimmed(cols[s])),
            clock(text::trimmed(cols[e])),
        ) {
            (Some(a), Some(b)) => Some(CueModel { start: a, end: b, text: plain(cols.last()) }),
            _ => None,
        }),
{
    lemma_columns(cols);
    lemma_place_of(fields, "start"@, s);
    lemma_place_of(fields, "end"@, e);
    lemma_place_of(fields, "text"@, fields.len() - 1);
}

proof fn lemma_state_of_two(a: Seq<Seq<char>>, line: Seq<char>)
    ensures
        ass_state(a.push(line)) == ass_step(ass_state(a), line),
{
    assert(a.push(line).drop_last() =~= a);
}

/// Reading goes line by line, and no line takes a subtitle away. Below the heading of the events a dialogue
/// line adds the subtitle that it holds, a line that names the fields counts for those below it, and any
/// other line changes nothing; elsewhere only headings count. Before the fields are named they are the usual
/// ten.
pub proof fn law_dialogue_lines_add_up(lines: Seq<Seq<char>>, line: Seq<char>)
    ensures
        ({
            let st = ass_state(lines);
            let now = ass_state(lines.push(line));
            let lt = text::trimmed(line);
            let heading = lt.len() > 0 && lt[0] == '[' && lt.last() == ']';
            let says = st.in_events && !heading && text::starts(lt, "Dialogue:"@);
            let names = st.in_events && !heading && text::starts(lt, "Format:"@);
            let known = if st.fields.len() == 0 {
                usual_fields()
            } else {
                st.fields
            };
            &&& heading ==> (now.in_events <==> text::ascii_lower(lt) == text::ascii_lower("[Events]"@))
            &&& !heading ==> now.in_events == st.in_events
            &&& says && !names ==> now.cues == st.cues + (match ass_cue(
                known,
                lt.skip("Dialogue:"@.len() as int),
            ) {
                Some(c) => seq![c],
                None => Seq::empty(),
            }) && now.fields == known
            &&& names ==> now.fields == field_names(lt.skip("Format:"@.len() as int)) && now.cues == st.cues
            &&& !says && !names ==> now.cues == st.cues && now.fields == st.fields
        }),
{
    lemma_state_of_two(lines, line);
    let st = ass_state(lines);
    let now = ass_state(lines.push(line));
    assert(st.cues + Seq::<CueModel>::empty() =~= st.cues);
    let lt = text::trimmed(line);
    let known = if st.fields.len() == 0 {
        usual_fields()
    } else {
        st.fields
    };
    if let Some(c) = ass_cue(known, lt.skip("Dialogue:"@.len() as int)) {
        assert(st.cues.push(c) =~= st.cues + seq![c]);
    }
}

/// The fields are told by their names between commas, in any case and with any white space around them.
pub proof fn law_fields_are_named(parts: Seq<Seq<char>>)
    requires
        parts.len() > 0,
        forall|k: int| 0 <= k < parts.len() ==> !(#[trigger] parts[k]).contains(','),
    ensures
        field_names(words::joined(parts, seq![','])).len() == parts.len(),
        forall|k: int|
            0 <= k < parts.len() ==> #[trigger] field_names(words::joined(parts, seq![',']))[k]
                == text::ascii_lower(text::trimmed(parts[k])),
{
    words::law_joined_texts_are_the_pieces(parts, ',');
}

} // verus!
