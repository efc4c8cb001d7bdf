//! Decimal numbers as they are written: a sign, digits with or without a point, and an exponent; or a word
//! for what is beyond every number.

use crate::text;
use vstd::prelude::*;

verus! {

/// Ten to the power `n`.
pub open spec fn ten_to(n: nat) -> int
    decreases n,
{
    if n == 0 {
        1
    } else {
        10 * ten_to((n - 1) as nat)
    }
}

/// A number that is written: what its digits write, with the minus in front, times ten to the power.
pub struct Written {
    pub minus: bool,
    pub digits: Seq<char>,
    pub power: int,
}

/// The exponent that `s` writes: digits, with or without a sign.
pub open spec fn exponent(s: Seq<char>) -> Option<int> {
    let signed = s.len() > 0 && (s[0] == '+' || s[0] == '-');
    let d = if signed {
        s.drop_first()
    } else {
        s
    };
    if d.len() > 0 && text::all_digits(d) {
        Some(
            if signed && s[0] == '-' {
                -text::number(d)
            } else {
                text::number(d)
            },
        )
    } else {
        None
    }
}

/// The number that `s` writes without a sign: digits with at most one point among them, and an
/// exponent behind an "e".
pub open spec fn unsigned(s: Seq<char>) -> Option<Written> {
    let k = text::first_index(text::ascii_lower(s), 'e');
    let m = s.take(k);
    let p = text::first_index(m, '.');
    let behind = if p < m.len() {
        m.skip(p + 1)
    } else {
        Seq::empty()
    };
    let digits = m.take(p) + behind;
    let e = if k < s.len() {
        exponent(s.skip(k + 1))
    } else {
        Some(0int)
    };
    match e {
        Some(x) if digits.len() > 0 && text::all_digits(digits) => Some(
            Written { minus: false, digits, power: x - behind.len() },
        ),
        _ => None,
    }
}

/// The number that `s` writes.
pub open spec fn written(s: Seq<char>) -> Option<Written> {
    if s.len() > 0 && (s[0] == '+' || s[0] == '-') {
        match unsigned(s.drop_first()) {
            Some(w) => Some(Written { minus: s[0] == '-', ..w }),
            None => None,
        }
    } else {
        unsigned(s)
    }
}

/// What the digits write, times ten to the power `j`, without what is left behind the point.
pub open spec fn magnitude(digits: Seq<char>, j: int) -> int {
    if j >= 0 {
        text::number(digits) * ten_to(j as nat)
    } else if digits.len() + j > 0 {
        text::number(digits.take(digits.len() + j))
    } else {
        0
    }
}

/// The number that `s` writes, times ten to the power `n`, cut towards zero.
pub open spec fn scaled(s: Seq<char>, n: int) -> Option<int> {
    match written(s) {
        Some(w) => {
            let v = magnitude(w.digits, w.power + n);
            Some(
                if w.minus {
                    -v
                } else {
                    v
                },
            )
        },
        None => None,
    }
}

/// Whether `s` writes, behind its sign, what is beyond every number.
pub open spec fn infinite(s: Seq<char>) -> bool {
    let t = text::ascii_lower(
        if s.len() > 0 && (s[0] == '+' || s[0] == '-') {
            s.drop_first()
        } else {
            s
        },
    );
    t == "inf"@ || t == "infinity"@
}

/// `x`, or the end of the range from `-limit` to `limit` on its side.
pub open spec fn nearest(x: int, limit: int) -> int {
    if x > limit {
        limit
    } else if x < -limit {
        -limit
    } else {
        x
    }
}

/// The number that `s` writes, times ten to the power `n`; what is further from zero than `limit` is held
/// as `limit` on its side. Nothing where `s` writes no number.
pub open spec fn held(s: Seq<char>, n: int, limit: int) -> Option<int> {
    match scaled(s, n) {
        Some(v) => Some(nearest(v, limit)),
        None => if infinite(s) {
            Some(
                if s[0] == '-' {
                    -limit
                } else {
                    limit
                },
            )
        } else {
            None
        },
    }
}

// ── Reading ─────────────────────────────────────────────────────────────────

/// A bound that no length reaches.
const FAR: i128 = 1_000_000_000_000_000_000_000_000_000_000_000_000;

/// A number without a sign, as it was read; a power beyond `FAR` is cut to it.
struct Parts {
    digits: Vec<char>,
    power: i128,
}

proof fn lemma_ten_to(n: nat)
    ensures
        ten_to(n) > n,
    decreases n,
{
    if n > 0 {
        lemma_ten_to((n - 1) as nat);
    }
}

/// The number that the digits write, if it is no larger than `limit`.
fn read_digits(v: &Vec<char>, n: usize, limit: i128) -> (r: Option<i128>)
    requires
        n <= v@.len(),
        text::all_digits(v@.take(n as int)),
        0 <= limit <= FAR,
    ensures
        match r {
            Some(x) => x == text::number(v@.take(n as int)) && 0 <= x <= limit,
            None => text::number(v@.take(n as int)) > limit,
        },
{
    let ghost d = v@.take(n as int);
    let mut acc: i128 = 0;
    assert(d.take(0) =~= Seq::empty());
    for i in 0..n
        invariant
            n <= v@.len(),
            d == v@.take(n as int),
            text::all_digits(d),
            acc == text::number(d.take(i as int)),
            0 <= acc <= limit <= FAR,
    {
        assert(d.take(i + 1).drop_last() =~= d.take(i as int));
        assert(text::is_digit(d[i as int]));
        assert(d[i as int] == v@[i as int]);
        let x: i128 = (v[i] as u32 - '0' as u32) as i128;
        acc = acc * 10 + x;
        if acc > limit {
            proof {
                text::lemma_number_grows(d, i + 1);
            }
            return None;
        }
    }
    assert(d.take(n as int) =~= d);
    Some(acc)
}

fn only_digits(v: &Vec<char>) -> (r: bool)
    ensures
        r == text::all_digits(v@),
{
    for i in 0..v.len()
        invariant
            forall|j: int| 0 <= j < i ==> text::is_digit(#[trigger] v@[j]),
    {
        if !text::digit(v[i]) {
            return false;
        }
    }
    true
}

/// What stands in `v` from `a` on and before `b`.
fn part(v: &Vec<char>, a: usize, b: usize) -> (r: Vec<char>)
    requires
        a <= b <= v@.len(),
    ensures
        r@ == v@.subrange(a as int, b as int),
{
    let mut out: Vec<char> = Vec::new();
    for i in a..b
        invariant
            a <= b <= v@.len(),
            out@ == v@.subrange(a as int, i as int),
    {
        out.push(v[i]);
        assert(v@.subrange(a as int, i + 1) =~= v@.subrange(a as int, i as int).push(v@[i as int]));
    }
    out
}

/// The power that stands for `x`: `x` itself, or `FAR` on its side of zero.
spec fn bounded(x: int) -> int {
    if x > FAR {
        FAR as int
    } else if x < -FAR {
        -FAR as int
    } else {
        x
    }
}

fn read_exponent(v: &Vec<char>) -> (r: Option<i128>)
    ensures
        match r {
            Some(x) => exponent(v@) is Some && x == bounded(exponent(v@)->0),
            None => exponent(v@) is None,
        },
{
    let n: usize = v.len();
    let signed = n > 0 && (v[0] == '+' || v[0] == '-');
    let d = part(
        v,
        if signed {
            1
        } else {
            0
        },
        n,
    );
    assert(d@ =~= if signed {
        v@.drop_first()
    } else {
        v@
    });
    if d.len() == 0 || !only_digits(&d) {
        return None;
    }
    assert(d@.take(d@.len() as int) =~= d@);
    let x: i128 = match read_digits(&d, d.len(), FAR) {
        Some(x) => x,
        None => FAR,
    };
    if signed && v[0] == '-' {
        Some(-x)
    } else {
        Some(x)
    }
}

/// Whether the power `a`, which may have been cut, does the work of `b`.
spec fn stands_for(a: int, b: int) -> bool {
    ||| a == b
    ||| a >= FAR - usize::MAX && b >= FAR - usize::MAX
    ||| a <= -FAR && b <= -FAR
}

/// The index of the first "e", small or capital, or the length.
fn find_e(v: &Vec<char>) -> (r: usize)
    ensures
        r == text::first_index(text::ascii_lower(v@), 'e'),
        r <= v@.len(),
{
    let ghost low = text::ascii_lower(v@);
    for i in 0..v.len()
        invariant
            low == text::ascii_lower(v@),
            forall|j: int| 0 <= j < i ==> low[j] != 'e',
    {
        if text::lower_ascii_char(v[i]) == 'e' {
            proof {
                text::lemma_first_index_is(low, 'e', i as int);
            }
            return i;
        }
    }
    proof {
        text::lemma_first_index_is(low, 'e', v@.len() as int);
    }
    v.len()
}

fn read_unsigned(v: &Vec<char>) -> (r: Option<Parts>)
    ensures
        match r {
            Some(p) => {
                &&& unsigned(v@) matches Some(w)
                &&& p.digits@ == w.digits
                &&& text::all_digits(w.digits)
                &&& -FAR - usize::MAX <= p.power <= FAR
                &&& stands_for(p.power as int, w.power)
            },
            None => unsigned(v@) is None,
        },
{
    let n: usize = v.len();
    let k = find_e(v);
    let m = part(v, 0, k);
    assert(m@ =~= v@.take(k as int));
    let p = text::find_from(&m, 0, '.');
    assert(m@.skip(0) =~= m@);
    let front = part(&m, 0, p);
    assert(front@ =~= m@.take(p as int));
    let behind = if p < m.len() {
        part(&m, p + 1, m.len())
    } else {
        Vec::new()
    };
    assert(behind@ =~= if p < m@.len() {
        m@.skip(p + 1)
    } else {
        Seq::empty()
    });
    let mut digits: Vec<char> = Vec::new();
    for i in 0..front.len()
        invariant
            digits@ == front@.take(i as int),
    {
        digits.push(front[i]);
        assert(front@.take(i + 1) =~= front@.take(i as int).push(front@[i as int]));
    }
    for i in 0..behind.len()
        invariant
            digits@ == front@ + behind@.take(i as int),
    {
        digits.push(behind[i]);
        assert(behind@.take(i + 1) =~= behind@.take(i as int).push(behind@[i as int]));
    }
    assert(digits@ =~= front@ + behind@);
    let e: i128 = if k < n {
        let rest = part(v, k + 1, n);
        assert(rest@ =~= v@.skip(k + 1));
        match read_exponent(&rest) {
            Some(x) => x,
            None => {
                return None;
            },
        }
    } else {
        0
    };
    if digits.len() == 0 || !only_digits(&digits) {
        return None;
    }
    Some(Parts { digits, power: e - behind.len() as i128 })
}

/// The digits times ten to the power `j`, if that is no larger than `limit`.
fn read_magnitude(digits: &Vec<char>, j: i128, limit: i128) -> (r: Option<i128>)
    requires
        text::all_digits(digits@),
        -2 * FAR <= j <= 2 * FAR,
        0 <= limit <= FAR,
    ensures
        match r {
            Some(x) => x == magnitude(digits@, j as int) && 0 <= x <= limit,
            None => magnitude(digits@, j as int) > limit,
        },
{
    let n: usize = digits.len();
    if j < 0 {
        let k: i128 = n as i128 + j;
        if k <= 0 {
            return Some(0);
        }
        return read_digits(digits, k as usize, limit);
    }
    assert(digits@.take(n as int) =~= digits@);
    let ghost all = text::number(digits@);
    let mut x: i128 = match read_digits(digits, n, limit) {
        Some(x) => x,
        None => {
            proof {
                lemma_ten_to(j as nat);
                assert(all * ten_to(j as nat) >= all) by (nonlinear_arith)
                    requires
                        all >= 0,
                        ten_to(j as nat) >= 1,
                ;
            }
            return None;
        },
    };
    if x == 0 {
        assert(all * ten_to(j as nat) == 0) by (nonlinear_arith)
            requires
                all == 0,
        ;
        return Some(0);
    }
    assert(all * ten_to(0) == all);
    let mut i: i128 = 0;
    while i < j
        invariant
            0 <= i <= j,
            all == text::number(digits@),
            x == all * ten_to(i as nat),
            all > 0,
            0 < x <= limit <= FAR,
        decreases j - i,
    {
        proof {
            let t = ten_to(i as nat);
            assert(ten_to((i + 1) as nat) == 10 * t);
            assert(all * (10 * t) == 10 * (all * t)) by (nonlinear_arith);
        }
        if 10 * x > limit {
            proof {
                lemma_grows((i + 1) as nat, j as nat);
                assert(all * ten_to(j as nat) >= all * ten_to((i + 1) as nat)) by (nonlinear_arith)
                    requires
                        all > 0,
                        ten_to(j as nat) >= ten_to((i + 1) as nat),
                ;
            }
            return None;
        }
        x = 10 * x;
        i = i + 1;
    }
    Some(x)
}

proof fn lemma_grows(a: nat, b: nat)
    requires
        a <= b,
    ensures
        ten_to(a) <= ten_to(b),
    decreases b,
{
    if a < b {
        lemma_grows(a, (b - 1) as nat);
        lemma_ten_to((b - 1) as nat);
    }
}

/// The largest number that is read.
pub const WIDEST: i128 = 10_000_000_000_000_000_000_000_000_000_000_000;

/// A power that was cut gives the same answer as the one that is written.
proof fn lemma_stands(digits: Seq<char>, a: int, b: int, n: int, limit: int)
    requires
        text::all_digits(digits),
        digits.len() <= usize::MAX,
        stands_for(a, b),
        0 <= n <= 100,
        0 <= limit <= WIDEST,
    ensures
        ({
            let x = magnitude(digits, a + n);
            let y = magnitude(digits, b + n);
            x == y || (x > limit && y > limit)
        }),
{
    let all = text::number(digits);
    text::lemma_number_nonneg(digits);
    if a != b && a > 0 {
        let s = ten_to((a + n) as nat);
        let t = ten_to((b + n) as nat);
        lemma_ten_to((a + n) as nat);
        lemma_ten_to((b + n) as nat);
        if all > 0 {
            assert(all * s >= s && all * t >= t) by (nonlinear_arith)
                requires
                    all >= 1,
                    s >= 0,
                    t >= 0,
            ;
        } else {
            assert(0 * s == 0 && 0 * t == 0);
        }
    }
}

fn is_infinite(v: &Vec<char>) -> (r: bool)
    ensures
        r == (text::ascii_lower(v@) == "inf"@ || text::ascii_lower(v@) == "infinity"@),
{
    let mut t = String::new();
    for i in 0..v.len()
        invariant
            t@ == text::ascii_lower(v@).take(i as int),
    {
        t.push(text::lower_ascii_char(v[i]));
        assert(text::ascii_lower(v@).take(i + 1) =~= text::ascii_lower(v@).take(i as int).push(
            text::ascii_lower(v@)[i as int],
        ));
    }
    assert(t@ =~= text::ascii_lower(v@));
    text::same(t.as_str(), "inf") || text::same(t.as_str(), "infinity")
}

/// The number that `s` writes, times ten to the power `n`, cut towards zero, no further from zero than
/// `limit`.
pub fn read_held(s: &str, n: u8, limit: i128) -> (r: Option<i128>)
    requires
        n <= 100,
        0 <= limit <= WIDEST,
    ensures
        match r {
            Some(x) => held(s@, n as int, limit as int) == Some(x as int) && -limit <= x <= limit,
            None => held(s@, n as int, limit as int) is None,
        },
{
    let v = text::chars_of(s);
    let signed = v.len() > 0 && (v[0] == '+' || v[0] == '-');
    let minus = signed && v[0] == '-';
    let d = part(
        &v,
        if signed {
            1
        } else {
            0
        },
        v.len(),
    );
    assert(d@ =~= if signed {
        s@.drop_first()
    } else {
        s@
    });
    let size: i128 = match read_unsigned(&d) {
        Some(p) => {
            proof {
                let w = unsigned(d@)->0;
                assert(p.digits@.len() == p.digits.len());
                lemma_stands(w.digits, p.power as int, w.power, n as int, limit as int);
            }
            match read_magnitude(&p.digits, p.power + n as i128, limit) {
                Some(x) => x,
                None => limit,
            }
        },
        None => {
            if !is_infinite(&d) {
                return None;
            }
            proof {
                reveal_strlit("inf");
                reveal_strlit("infinity");
                assert(s@.len() > 0);
            }
            limit
        },
    };
    if minus {
        Some(-size)
    } else {
        Some(size)
    }
}

// ── Laws ────────────────────────────────────────────────────────────────────

/// Digits behind digits: the first ones count ten times as much for each of the others.
pub proof fn law_digits_behind_digits(a: Seq<char>, b: Seq<char>)
    ensures
        text::number(a + b) == text::number(a) * ten_to(b.len()) + text::number(b),
    decreases b.len(),
{
    if b.len() == 0 {
        assert(a + b =~= a);
    } else {
        law_digits_behind_digits(a, b.drop_last());
        assert((a + b).drop_last() =~= a + b.drop_last());
        let x = text::number(a);
        let t = ten_to((b.len() - 1) as nat);
        assert(x * (10 * t) == 10 * (x * t)) by (nonlinear_arith);
    }
}

proof fn lemma_no_mark(d: Seq<char>)
    requires
        text::all_digits(d),
    ensures
        text::first_index(text::ascii_lower(d), 'e') == d.len(),
        text::first_index(d, '.') == d.len(),
        d.len() > 0 ==> d[0] != '+' && d[0] != '-',
{
    let l = text::ascii_lower(d);
    assert forall|i: int| 0 <= i < l.len() implies l[i] != 'e' by {
        assert(text::is_digit(d[i]));
    }
    text::lemma_first_index_is(l, 'e', d.len() as int);
    assert forall|i: int| 0 <= i < d.len() implies d[i] != '.' by {
        assert(text::is_digit(d[i]));
    }
    text::lemma_first_index_is(d, '.', d.len() as int);
    if d.len() > 0 {
        assert(text::is_digit(d[0]));
    }
}

/// Digits write the number that they are read as, a hundred times that in hundredths, and so on.
pub proof fn law_digits_write_their_number(d: Seq<char>, n: nat, limit: int)
    requires
        d.len() > 0,
        text::all_digits(d),
        text::number(d) * ten_to(n) <= limit,
    ensures
        held(d, n as int, limit) == Some(text::number(d) * ten_to(n)),
{
    lemma_no_mark(d);
    assert(d.take(d.len() as int) =~= d);
    assert(d + Seq::<char>::empty() =~= d);
    text::lemma_number_nonneg(d);
    lemma_ten_to(n);
    assert(text::number(d) * ten_to(n) >= 0) by (nonlinear_arith)
        requires
            text::number(d) >= 0,
            ten_to(n) >= 0,
    ;
}

/// Digits with a point among them write the whole part and the fraction: as many digits as stand behind the
/// point, so many powers of ten less they count.
pub proof fn law_point_parts_whole_and_fraction(w: Seq<char>, f: Seq<char>, n: nat, limit: int)
    requires
        w.len() > 0,
        text::all_digits(w),
        text::all_digits(f),
        f.len() <= n,
        text::number(w) * ten_to(n) + text::number(f) * ten_to((n - f.len()) as nat) <= limit,
    ensures
        held(w + seq!['.'] + f, n as int, limit) == Some(
            text::number(w) * ten_to(n) + text::number(f) * ten_to((n - f.len()) as nat),
        ),
{
    let s = w + seq!['.'] + f;
    let k = w.len() as int;
    let l = text::ascii_lower(s);
    assert forall|i: int| 0 <= i < l.len() implies l[i] != 'e' by {
        if i < k {
            assert(text::is_digit(w[i]));
        } else if i > k {
            assert(text::is_digit(f[i - k - 1]));
        }
    }
    text::lemma_first_index_is(l, 'e', s.len() as int);
    assert(s.take(s.len() as int) =~= s);
    assert forall|i: int| 0 <= i < k implies s[i] != '.' by {
        assert(text::is_digit(w[i]));
    }
    text::lemma_first_index_is(s, '.', k);
    assert(s.take(k) =~= w);
    assert(s.skip(k + 1) =~= f);
    let d = w + f;
    assert forall|i: int| 0 <= i < d.len() implies text::is_digit(#[trigger] d[i]) by {
        if i < k {
            assert(text::is_digit(w[i]));
        } else {
            assert(text::is_digit(f[i - k]));
        }
    }
    assert(s[0] == w[0] && text::is_digit(w[0]));
    law_digits_behind_digits(w, f);
    lemma_ten_to_of_two(f.len(), (n - f.len()) as nat);
    let (x, y) = (text::number(w), text::number(f));
    let (t, u) = (ten_to(f.len()), ten_to((n - f.len()) as nat));
    assert((x * t + y) * u == x * (t * u) + y * u) by (nonlinear_arith);
    text::lemma_number_nonneg(d);
    lemma_ten_to((n - f.len()) as nat);
    assert(text::number(d) * u >= 0) by (nonlinear_arith)
        requires
            text::number(d) >= 0,
            u >= 0,
    ;
}

/// Powers of ten multiply by adding what they are raised to.
pub proof fn lemma_ten_to_of_two(a: nat, b: nat)
    ensures
        ten_to(a + b) == ten_to(a) * ten_to(b),
    decreases a,
{
    if a > 0 {
        lemma_ten_to_of_two((a - 1) as nat, b);
        let (x, y) = (ten_to((a - 1) as nat), ten_to(b));
        assert((10 * x) * y == 10 * (x * y)) by (nonlinear_arith);
        assert((a + b - 1) as nat == (a - 1) as nat + b);
    }
}

/// A minus turns the number round, and a plus changes nothing.
pub proof fn law_sign_turns_the_number(s: Seq<char>, n: int, limit: int)
    requires
        limit >= 0,
        s.len() > 0 ==> s[0] != '+' && s[0] != '-',
    ensures
        held(seq!['+'] + s, n, limit) == held(s, n, limit),
        held(seq!['-'] + s, n, limit) == (match held(s, n, limit) {
            Some(x) => Some(-x),
            None => None,
        }),
{
    let p = seq!['+'] + s;
    let m = seq!['-'] + s;
    assert(p.drop_first() =~= s);
    assert(m.drop_first() =~= s);
    reveal_strlit("inf");
    reveal_strlit("infinity");
}

/// An exponent moves the point: digits behind an "e" make the number before it as much larger.
pub proof fn law_exponent_moves_the_point(d: Seq<char>, x: Seq<char>, n: nat, limit: int)
    requires
        d.len() > 0,
        x.len() > 0,
        text::all_digits(d),
        text::all_digits(x),
        text::number(d) * ten_to((n + text::number(x)) as nat) <= limit,
    ensures
        held(d + seq!['e'] + x, n as int, limit) == Some(
            text::number(d) * ten_to((n + text::number(x)) as nat),
        ),
        held(d + seq!['E'] + x, n as int, limit) == Some(
            text::number(d) * ten_to((n + text::number(x)) as nat),
        ),
{
    lemma_exponent(d, 'e', x, n, limit);
    lemma_exponent(d, 'E', x, n, limit);
}

proof fn lemma_exponent(d: Seq<char>, e: char, x: Seq<char>, n: nat, limit: int)
    requires
        e == 'e' || e == 'E',
        d.len() > 0,
        x.len() > 0,
        text::all_digits(d),
        text::all_digits(x),
        text::number(d) * ten_to((n + text::number(x)) as nat) <= limit,
    ensures
        held(d + seq![e] + x, n as int, limit) == Some(
            text::number(d) * ten_to((n + text::number(x)) as nat),
        ),
{
    let s = d + seq![e] + x;
    let k = d.len() as int;
    let l = text::ascii_lower(s);
    assert forall|i: int| 0 <= i < k implies l[i] != 'e' by {
        assert(text::is_digit(d[i]));
    }
    assert(s[k] == e);
    assert(l[k] == 'e');
    text::lemma_first_index_is(l, 'e', k);
    assert(s.take(k) =~= d);
    assert(s.skip(k + 1) =~= x);
    lemma_no_mark(d);
    lemma_no_mark(x);
    assert(d.take(k) =~= d);
    assert(d + Seq::<char>::empty() =~= d);
    assert(s[0] == d[0]);
    text::lemma_number_nonneg(d);
    text::lemma_number_nonneg(x);
    let t = ten_to((n + text::number(x)) as nat);
    lemma_ten_to((n + text::number(x)) as nat);
    assert(text::number(d) * t >= 0) by (nonlinear_arith)
        requires
            text::number(d) >= 0,
            t >= 0,
    ;
}

/// So many digits write less than ten to the power of their number.
pub proof fn lemma_number_is_small(d: Seq<char>)
    requires
        text::all_digits(d),
    ensures
        0 <= text::number(d) < ten_to(d.len()),
    decreases d.len(),
{
    text::lemma_number_nonneg(d);
    if d.len() > 0 {
        assert(text::is_digit(d[d.len() - 1]));
        lemma_number_is_small(d.drop_last());
    }
}

} // verus!
