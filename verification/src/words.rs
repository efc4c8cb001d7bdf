//! Finding and splitting at texts, words, and joining.

use crate::text;
use vstd::prelude::*;

verus! {

// ── Finding a text in a text ────────────────────────────────────────────────

/// The index at which `p` first occurs in `s`.
pub open spec fn text_index(s: Seq<char>, p: Seq<char>) -> Option<int>
    decreases s.len(),
{
    if text::starts(s, p) {
        Some(0int)
    } else if s.len() == 0 {
        None
    } else {
        match text_index(s.drop_first(), p) {
            Some(i) => Some(i + 1),
            None => None,
        }
    }
}

pub proof fn lemma_text_index(s: Seq<char>, p: Seq<char>)
    ensures
        match text_index(s, p) {
            Some(i) => {
                &&& 0 <= i
                &&& i + p.len() <= s.len()
                &&& s.subrange(i, i + p.len()) == p
            },
            None => true,
        },
    decreases s.len(),
{
    if text::starts(s, p) {
        assert(s.subrange(0, p.len() as int) =~= s.take(p.len() as int));
    } else if s.len() > 0 {
        lemma_text_index(s.drop_first(), p);
        if let Some(i) = text_index(s.drop_first(), p) {
            assert(s.subrange(i + 1, i + 1 + p.len()) =~= s.drop_first().subrange(i, i + p.len()));
        }
    }
}

/// Whether `p` occurs in `s`.
pub open spec fn occurs(s: Seq<char>, p: Seq<char>) -> bool {
    text_index(s, p) is Some
}

fn starts_at(v: &Vec<char>, at: usize, p: &Vec<char>) -> (r: bool)
    requires
        at <= v@.len(),
    ensures
        r == text::starts(v@.skip(at as int), p@),
{
    if p.len() > v.len() - at {
        return false;
    }
    let n: usize = p.len();
    let ghost rest = v@.skip(at as int);
    for i in 0..n
        invariant
            n == p@.len(),
            at + n <= v.len(),
            rest == v@.skip(at as int),
            forall|j: int| 0 <= j < i ==> v@[at + j] == p@[j],
    {
        if v[at + i] != p[i] {
            assert(rest.take(n as int)[i as int] != p@[i as int]);
            return false;
        }
    }
    assert(rest.take(n as int) =~= p@);
    true
}

/// The index at which `p` first occurs in `v` at or after `from`.
pub fn find_text(v: &Vec<char>, from: usize, p: &Vec<char>) -> (r: Option<usize>)
    requires
        from <= v@.len(),
    ensures
        match r {
            Some(i) => from <= i && i + p@.len() <= v.len() && text_index(
                v@.skip(from as int),
                p@,
            ) == Some(i - from),
            None => text_index(v@.skip(from as int), p@) is None,
        },
{
    let mut i: usize = from;
    let ghost whole = v@.skip(from as int);
    loop
        invariant
            from <= i <= v@.len(),
            whole == v@.skip(from as int),
            match text_index(whole, p@) {
                Some(k) => text_index(v@.skip(i as int), p@) == Some(k - (i - from)),
                None => text_index(v@.skip(i as int), p@) is None,
            },
        decreases v@.len() - i,
    {
        if starts_at(v, i, p) {
            return Some(i);
        }
        if i == v.len() {
            return None;
        }
        assert(v@.skip(i as int).drop_first() =~= v@.skip(i + 1));
        i += 1;
    }
}

/// Whether `p` occurs in `s`.
pub fn contains(s: &str, p: &str) -> (r: bool)
    ensures
        r == occurs(s@, p@),
{
    let v = text::chars_of(s);
    assert(v@.skip(0) =~= v@);
    find_text(&v, 0, &text::chars_of(p)).is_some()
}

/// What stands before and after the first `p` in `s`.
pub open spec fn cut(s: Seq<char>, p: Seq<char>) -> Option<(Seq<char>, Seq<char>)> {
    match text_index(s, p) {
        Some(i) => Some((s.take(i), s.skip(i + p.len()))),
        None => None,
    }
}

/// What stands before and after the first `p` in `s`.
pub fn split_once(s: &str, p: &str) -> (r: Option<(String, String)>)
    ensures
        match r {
            Some(ab) => cut(s@, p@) == Some((ab.0@, ab.1@)),
            None => cut(s@, p@) is None,
        },
{
    let v = text::chars_of(s);
    let q = text::chars_of(p);
    assert(v@.skip(0) =~= v@);
    match find_text(&v, 0, &q) {
        Some(i) => {
            let a = text::slice_text(&v, 0, i);
            let b = text::slice_text(&v, i + q.len(), v.len());
            assert(a@ =~= s@.take(i as int));
            assert(b@ =~= s@.skip(i + q@.len()));
            Some((a, b))
        },
        None => None,
    }
}

/// The pieces of `s` between the texts `p`, which is not empty.
pub open spec fn sections(s: Seq<char>, p: Seq<char>) -> Seq<Seq<char>>
    decreases s.len(),
{
    match text_index(s, p) {
        Some(i) if p.len() > 0 && 0 <= i && i + p.len() <= s.len() => seq![s.take(i)] + sections(
            s.skip(i + p.len()),
            p,
        ),
        _ => seq![s],
    }
}

/// The pieces of `s` between the texts `p`.
pub fn split_by(s: &str, p: &str) -> (r: Vec<String>)
    requires
        p@.len() > 0,
    ensures
        text::views(r@) == sections(s@, p@),
{
    let v = text::chars_of(s);
    let q = text::chars_of(p);
    let mut out: Vec<String> = Vec::new();
    let mut from: usize = 0;
    assert(v@.skip(0) =~= v@);
    assert(text::views(out@) + sections(v@, p@) =~= sections(v@, p@));
    loop
        invariant_except_break
            text::views(out@) + sections(v@.skip(from as int), p@) == sections(s@, p@),
        invariant
            from <= v@.len(),
            v@ == s@,
            q@ == p@,
            p@.len() > 0,
        ensures
            text::views(out@) == sections(s@, p@),
        decreases v@.len() - from,
    {
        let ghost rest = v@.skip(from as int);
        let ghost before = text::views(out@);
        match find_text(&v, from, &q) {
            Some(k) => {
                let piece = text::slice_text(&v, from, k);
                assert(rest.take(k - from) =~= piece@);
                out.push(piece);
                assert(text::views(out@) =~= before.push(piece@));
                proof {
                    assert(rest.skip(k - from + q@.len()) =~= v@.skip(k + q@.len()));
                    assert(before + sections(rest, p@) =~= text::views(out@) + sections(
                        v@.skip(k + q@.len()),
                        p@,
                    ));
                }
                from = k + q.len();
            },
            None => {
                let piece = text::slice_text(&v, from, v.len());
                assert(rest =~= piece@);
                out.push(piece);
                assert(text::views(out@) =~= before.push(piece@));
                assert(before + sections(rest, p@) =~= text::views(out@));
                break ;
            },
        }
    }
    out
}

/// The first `n - 1` pieces of `s` between the characters `c`, and the rest as the last.
pub open spec fn pieces_up_to(s: Seq<char>, c: char, n: nat) -> Seq<Seq<char>>
    decreases n,
{
    let k = text::first_index(s, c);
    if n == 0 {
        Seq::empty()
    } else if n == 1 || k < 0 || k >= s.len() {
        seq![s]
    } else {
        seq![s.take(k)] + pieces_up_to(s.skip(k + 1), c, (n - 1) as nat)
    }
}

/// The first `n - 1` pieces of `s` between the characters `c`, and the rest as the last.
pub fn split_up_to(s: &str, c: char, n: usize) -> (r: Vec<String>)
    ensures
        text::views(r@) == pieces_up_to(s@, c, n as nat),
{
    let v = text::chars_of(s);
    let mut out: Vec<String> = Vec::new();
    let mut from: usize = 0;
    let mut left: usize = n;
    assert(v@.skip(0) =~= v@);
    assert(text::views(out@) + pieces_up_to(v@, c, n as nat) =~= pieces_up_to(v@, c, n as nat));
    while left > 0
        invariant
            from <= v@.len(),
            v@ == s@,
            text::views(out@) + pieces_up_to(v@.skip(from as int), c, left as nat) == pieces_up_to(
                s@,
                c,
                n as nat,
            ),
        decreases left,
    {
        let k: usize = text::find_from(&v, from, c);
        let ghost rest = v@.skip(from as int);
        let ghost before = text::views(out@);
        if left == 1 || k == v.len() {
            let piece = text::slice_text(&v, from, v.len());
            assert(rest =~= piece@);
            out.push(piece);
            assert(text::views(out@) =~= before.push(piece@));
            assert(before + pieces_up_to(rest, c, left as nat) =~= text::views(out@));
            return out;
        }
        let piece = text::slice_text(&v, from, k);
        assert(rest.take(k - from) =~= piece@);
        out.push(piece);
        assert(text::views(out@) =~= before.push(piece@));
        proof {
            assert(rest.skip(k - from + 1) =~= v@.skip(k + 1));
            assert(before + pieces_up_to(rest, c, left as nat) =~= text::views(out@)
                + pieces_up_to(v@.skip(k + 1), c, (left - 1) as nat));
        }
        from = k + 1;
        left = left - 1;
    }
    assert(text::views(out@) + Seq::<Seq<char>>::empty() =~= text::views(out@));
    out
}

// ── Words ───────────────────────────────────────────────────────────────────

/// The number of characters at the start of `s` that are not white space.
pub open spec fn word_len(s: Seq<char>) -> int
    decreases s.len(),
{
    if s.len() == 0 || text::is_space(s[0]) {
        0
    } else {
        1 + word_len(s.drop_first())
    }
}

pub proof fn lemma_word_len(s: Seq<char>)
    ensures
        0 <= word_len(s) <= s.len(),
        forall|i: int| 0 <= i < word_len(s) ==> !text::is_space(s[i]),
        word_len(s) < s.len() ==> text::is_space(s[word_len(s)]),
    decreases s.len(),
{
    if s.len() > 0 && !text::is_space(s[0]) {
        lemma_word_len(s.drop_first());
        let t = s.drop_first();
        assert forall|i: int| 0 <= i < word_len(s) implies !text::is_space(s[i]) by {
            if i > 0 {
                assert(s[i] == t[i - 1]);
            }
        }
    }
}

pub proof fn lemma_trim_start(s: Seq<char>)
    ensures
        text::trim_start(s).len() <= s.len(),
        text::trim_start(s).len() > 0 ==> !text::is_space(text::trim_start(s)[0]),
    decreases s.len(),
{
    if s.len() > 0 && text::is_space(s[0]) {
        lemma_trim_start(s.drop_first());
    }
}

/// The words of `s`: its longest stretches without white space.
pub open spec fn words(s: Seq<char>) -> Seq<Seq<char>>
    decreases s.len(),
    via words_decreases
{
    let t = text::trim_start(s);
    if t.len() == 0 {
        Seq::empty()
    } else {
        seq![t.take(word_len(t))] + words(t.skip(word_len(t)))
    }
}

#[via_fn]
proof fn words_decreases(s: Seq<char>) {
    lemma_trim_start(s);
    lemma_word_len(text::trim_start(s));
}

/// The words of `s`.
pub fn split_words(s: &str) -> (r: Vec<String>)
    ensures
        text::views(r@) == words(s@),
{
    let v = text::chars_of(s);
    let mut out: Vec<String> = Vec::new();
    let mut at: usize = 0;
    assert(v@.skip(0) =~= v@);
    assert(text::views(out@) + words(v@) =~= words(v@));
    loop
        invariant_except_break
            text::views(out@) + words(v@.skip(at as int)) == words(s@),
        invariant
            at <= v@.len(),
            v@ == s@,
        ensures
            text::views(out@) == words(s@),
        decreases v@.len() - at,
    {
        let ghost rest = v@.skip(at as int);
        let ghost before = text::views(out@);
        let mut a: usize = at;
        assert(v@.skip(a as int) =~= rest);
        while a < v.len() && text::space(v[a])
            invariant
                at <= a <= v@.len(),
                rest == v@.skip(at as int),
                text::trim_start(rest) == text::trim_start(v@.skip(a as int)),
            decreases v@.len() - a,
        {
            assert(v@.skip(a as int).drop_first() =~= v@.skip(a + 1));
            a += 1;
        }
        let ghost t = v@.skip(a as int);
        assert(text::trim_start(rest) == t);
        if a == v.len() {
            assert(words(rest) =~= Seq::<Seq<char>>::empty());
            assert(before + words(rest) =~= before);
            break ;
        }
        let mut b: usize = a;
        while b < v.len() && !text::space(v[b])
            invariant
                a <= b <= v@.len(),
                t == v@.skip(a as int),
                word_len(t) == (b - a) + word_len(v@.skip(b as int)),
            decreases v@.len() - b,
        {
            assert(v@.skip(b as int).drop_first() =~= v@.skip(b + 1));
            b += 1;
        }
        assert(word_len(t) == b - a);
        assert(b > a) by {
            lemma_trim_start(rest);
            lemma_word_len(t);
        }
        let w = text::slice_text(&v, a, b);
        assert(t.take(b - a) =~= w@);
        out.push(w);
        assert(text::views(out@) =~= before.push(w@));
        proof {
            assert(t.skip(b - a) =~= v@.skip(b as int));
            assert(before + words(rest) =~= text::views(out@) + words(v@.skip(b as int)));
        }
        at = b;
    }
    out
}

/// The texts with `sep` between them.
pub open spec fn joined(parts: Seq<Seq<char>>, sep: Seq<char>) -> Seq<char>
    decreases parts.len(),
{
    if parts.len() == 0 {
        Seq::empty()
    } else if parts.len() == 1 {
        parts[0]
    } else {
        joined(parts.drop_last(), sep) + sep + parts.last()
    }
}

/// The texts with `sep` between them.
pub fn join(parts: &Vec<String>, sep: &str) -> (r: String)
    ensures
        r@ == joined(text::views(parts@), sep@),
{
    let mut out = String::new();
    let ghost pv = text::views(parts@);
    assert(pv.take(0) =~= Seq::empty());
    for i in 0..parts.len()
        invariant
            pv == text::views(parts@),
            out@ == joined(pv.take(i as int), sep@),
    {
        assert(pv.take(i + 1).drop_last() =~= pv.take(i as int));
        assert(pv.take(i + 1).last() == parts@[i as int]@);
        if i > 0 {
            out.append(sep);
        }
        out.append(parts[i].as_str());
        if i == 0 {
            assert(out@ =~= parts@[0]@);
        }
    }
    assert(pv.take(parts@.len() as int) =~= pv);
    out
}

// ── Words and joining ───────────────────────────────────────────────────────

/// What is left of `s` behind the white space at its start is the end of `s`.
pub proof fn lemma_trim_start_is_tail(s: Seq<char>)
    ensures
        text::trim_start(s).len() <= s.len(),
        text::trim_start(s) == s.skip(s.len() - text::trim_start(s).len()),
    decreases s.len(),
{
    if s.len() > 0 && text::is_space(s[0]) {
        lemma_trim_start_is_tail(s.drop_first());
        let t = text::trim_start(s);
        assert(s.drop_first().skip(s.len() - 1 - t.len()) =~= s.skip(s.len() - t.len()));
    } else {
        assert(s.skip(0) =~= s);
    }
}

/// Whether `w` could be a word.
pub open spec fn is_word(w: Seq<char>) -> bool {
    w.len() > 0 && forall|i: int| 0 <= i < w.len() ==> !text::is_space(#[trigger] w[i])
}

/// The words of a text are words, and made of its characters.
pub proof fn lemma_words(s: Seq<char>)
    ensures
        forall|k: int| 0 <= k < words(s).len() ==> is_word(#[trigger] words(s)[k]),
        forall|k: int, i: int|
            0 <= k < words(s).len() && 0 <= i < words(s)[k].len() ==> s.contains(
                #[trigger] words(s)[k][i],
            ),
    decreases s.len(),
{
    let t = text::trim_start(s);
    lemma_trim_start(s);
    lemma_trim_start_is_tail(s);
    if t.len() > 0 {
        let n = word_len(t);
        lemma_word_len(t);
        let rest = t.skip(n);
        lemma_words(rest);
        let ws = words(s);
        assert forall|k: int| 0 <= k < ws.len() implies is_word(#[trigger] ws[k]) by {
            if k == 0 {
                assert(ws[0] == t.take(n));
            } else {
                assert(ws[k] == words(rest)[k - 1]);
            }
        }
        assert forall|k: int, i: int| 0 <= k < ws.len() && 0 <= i < ws[k].len() implies s.contains(
            #[trigger] ws[k][i],
        ) by {
            let c = ws[k][i];
            if k == 0 {
                assert(c == t[i]);
                assert(c == s[s.len() - t.len() + i]);
            } else {
                assert(ws[k] == words(rest)[k - 1]);
                assert(rest.contains(words(rest)[k - 1][i]));
                let j = choose|j: int| 0 <= j < rest.len() && rest[j] == c;
                assert(c == s[s.len() - t.len() + n + j]);
            }
        }
    }
}

/// Joining from the front is joining from the back.
pub proof fn lemma_joined_front(parts: Seq<Seq<char>>, sep: Seq<char>)
    requires
        parts.len() >= 2,
    ensures
        joined(parts, sep) == parts[0] + sep + joined(parts.drop_first(), sep),
    decreases parts.len(),
{
    if parts.len() == 2 {
        reveal_with_fuel(joined, 2);
        assert(parts.drop_last() =~= seq![parts[0]]);
        assert(parts.drop_first() =~= seq![parts[1]]);
    } else {
        let front = parts.drop_last();
        lemma_joined_front(front, sep);
        assert(front.drop_first() =~= parts.drop_first().drop_last());
        let tail = parts.drop_first();
        assert(joined(tail, sep) == joined(tail.drop_last(), sep) + sep + tail.last());
        assert(joined(parts, sep) =~= parts[0] + sep + joined(tail, sep));
    }
}

/// A character that stands neither in the texts nor between them does not stand in what they make.
pub proof fn lemma_joined_lacks(parts: Seq<Seq<char>>, sep: Seq<char>, c: char)
    requires
        !sep.contains(c),
        forall|k: int| 0 <= k < parts.len() ==> !(#[trigger] parts[k]).contains(c),
    ensures
        !joined(parts, sep).contains(c),
    decreases parts.len(),
{
    if parts.len() > 0 {
        let front = parts.drop_last();
        assert forall|k: int| 0 <= k < front.len() implies !(#[trigger] front[k]).contains(c) by {
            assert(front[k] == parts[k]);
        }
        lemma_joined_lacks(front, sep, c);
        assert(!parts[parts.len() - 1].contains(c));
        let r = joined(parts, sep);
        if r.contains(c) {
            let i = choose|i: int| 0 <= i < r.len() && r[i] == c;
            if parts.len() == 1 {
                assert(parts[0].contains(c));
            } else {
                let a = joined(front, sep);
                if i < a.len() {
                    assert(a[i] == c);
                    assert(a.contains(c));
                } else if i < a.len() + sep.len() {
                    assert(sep[i - a.len()] == c);
                    assert(sep.contains(c));
                } else {
                    assert(parts.last()[i - a.len() - sep.len()] == c);
                    assert(parts.last().contains(c));
                }
            }
        }
    }
}

pub proof fn lemma_word_len_of(w: Seq<char>, rest: Seq<char>)
    requires
        forall|i: int| 0 <= i < w.len() ==> !text::is_space(#[trigger] w[i]),
        rest.len() > 0 ==> text::is_space(rest[0]),
    ensures
        word_len(w + rest) == w.len(),
    decreases w.len(),
{
    let s = w + rest;
    if w.len() == 0 {
        assert(s =~= rest);
    } else {
        assert(s[0] == w[0]);
        assert(s.drop_first() =~= w.drop_first() + rest);
        assert forall|i: int| 0 <= i < w.drop_first().len() implies !text::is_space(
            #[trigger] w.drop_first()[i],
        ) by {
            assert(w.drop_first()[i] == w[i + 1]);
        }
        lemma_word_len_of(w.drop_first(), rest);
    }
}

/// Words that were joined by spaces are found again.
pub proof fn lemma_joined_words(ws: Seq<Seq<char>>)
    requires
        forall|k: int| 0 <= k < ws.len() ==> is_word(#[trigger] ws[k]),
    ensures
        words(joined(ws, " "@)) == ws,
    decreases ws.len(),
{
    reveal_strlit(" ");
    let s = joined(ws, " "@);
    if ws.len() == 0 {
        assert(words(s) =~= ws);
    } else {
        let w = ws[0];
        assert(is_word(w));
        let rest = if ws.len() == 1 {
            Seq::empty()
        } else {
            " "@ + joined(ws.drop_first(), " "@)
        };
        if ws.len() > 1 {
            lemma_joined_front(ws, " "@);
        }
        assert(s =~= w + rest);
        assert(s[0] == w[0]);
        assert(text::trim_start(s) == s);
        lemma_word_len_of(w, rest);
        assert(s.take(w.len() as int) =~= w);
        assert(s.skip(w.len() as int) =~= rest);
        if ws.len() == 1 {
            assert(words(rest) =~= Seq::<Seq<char>>::empty());
        } else {
            let tail = ws.drop_first();
            assert forall|k: int| 0 <= k < tail.len() implies is_word(#[trigger] tail[k]) by {
                assert(tail[k] == ws[k + 1]);
            }
            lemma_joined_words(tail);
            assert(rest.drop_first() =~= joined(tail, " "@));
            assert(rest[0] == ' ');
            assert(text::trim_start(rest) == text::trim_start(joined(tail, " "@)));
            assert(words(rest) == words(joined(tail, " "@)));
        }
        assert(words(s) =~= ws);
    }
}

// ── Splitting and joining ───────────────────────────────────────────────────

/// The pieces of a text between the characters `c`, joined by `c`, are the text.
pub proof fn law_pieces_join_to_the_text(s: Seq<char>, c: char)
    ensures
        joined(text::pieces(s, c), seq![c]) == s,
    decreases s.len(),
{
    text::lemma_first_index(s, c);
    let k = text::first_index(s, c);
    let ps = text::pieces(s, c);
    if k < s.len() {
        let rest = s.skip(k + 1);
        law_pieces_join_to_the_text(rest, c);
        text::lemma_pieces(rest, c);
        lemma_joined_front(ps, seq![c]);
        assert(ps.drop_first() =~= text::pieces(rest, c));
        assert(s =~= s.take(k) + seq![c] + rest);
    }
}

/// Texts that `c` does not stand in, joined by `c`, are the pieces of what they make.
pub proof fn law_joined_texts_are_the_pieces(parts: Seq<Seq<char>>, c: char)
    requires
        parts.len() > 0,
        forall|k: int| 0 <= k < parts.len() ==> !(#[trigger] parts[k]).contains(c),
    ensures
        text::pieces(joined(parts, seq![c]), c) == parts,
    decreases parts.len(),
{
    let s = joined(parts, seq![c]);
    let p = parts[0];
    assert(!parts[0].contains(c));
    assert forall|i: int| 0 <= i < p.len() implies p[i] != c by {
        assert(p.contains(p[i]));
    }
    if parts.len() == 1 {
        assert forall|i: int| 0 <= i < s.len() implies s[i] != c by {
            assert(s[i] == p[i]);
        }
        text::lemma_first_index_is(s, c, s.len() as int);
        assert(parts =~= seq![s]);
    } else {
        let tail = parts.drop_first();
        assert forall|k: int| 0 <= k < tail.len() implies !(#[trigger] tail[k]).contains(c) by {
            assert(tail[k] == parts[k + 1]);
        }
        law_joined_texts_are_the_pieces(tail, c);
        lemma_joined_front(parts, seq![c]);
        let n = p.len() as int;
        assert forall|i: int| 0 <= i < n implies s[i] != c by {
            assert(s[i] == p[i]);
        }
        assert(s[n] == c);
        text::lemma_first_index_is(s, c, n);
        assert(s.take(n) =~= p);
        assert(s.skip(n + 1) =~= joined(tail, seq![c]));
        assert(text::pieces(s, c) =~= parts);
    }
}

/// Joining two lists of texts, each with something in it, is joining what each of them makes.
pub proof fn lemma_joined_of_two(a: Seq<Seq<char>>, b: Seq<Seq<char>>, sep: Seq<char>)
    requires
        a.len() > 0,
        b.len() > 0,
    ensures
        joined(a + b, sep) == joined(a, sep) + sep + joined(b, sep),
    decreases b.len(),
{
    let all = a + b;
    assert(all.last() == b.last());
    if b.len() == 1 {
        assert(all.drop_last() =~= a);
        assert(joined(b, sep) == b[0]);
    } else {
        lemma_joined_of_two(a, b.drop_last(), sep);
        assert(all.drop_last() =~= a + b.drop_last());
        assert(joined(all, sep) =~= joined(a, sep) + sep + joined(b, sep));
    }
}

/// `p` at the start of a text is told by its first character and the rest.
pub proof fn lemma_starts_by_one(s: Seq<char>, p: Seq<char>)
    requires
        s.len() > 0,
        p.len() > 0,
    ensures
        text::starts(s, p) == (s[0] == p[0] && text::starts(s.drop_first(), p.drop_first())),
{
    let n = p.len() as int;
    if text::starts(s, p) {
        assert(s.take(n)[0] == p[0]);
        assert(s.drop_first().take(n - 1) =~= s.take(n).drop_first());
    } else if s[0] == p[0] && text::starts(s.drop_first(), p.drop_first()) {
        assert(s.take(n) =~= seq![s[0]] + s.drop_first().take(n - 1));
        assert(p =~= seq![p[0]] + p.drop_first());
    }
}

/// Where `p` first occurs: at `k`, and nowhere before.
pub proof fn lemma_text_index_is(s: Seq<char>, p: Seq<char>, k: int)
    requires
        0 <= k <= s.len(),
        text::starts(s.skip(k), p),
        forall|i: int| 0 <= i < k ==> !text::starts(#[trigger] s.skip(i), p),
    ensures
        text_index(s, p) == Some(k),
    decreases k,
{
    assert(s.skip(0) =~= s);
    if k > 0 {
        let r = s.drop_first();
        assert(!text::starts(s.skip(0), p));
        assert(r.skip(k - 1) =~= s.skip(k));
        assert forall|i: int| 0 <= i < k - 1 implies !text::starts(#[trigger] r.skip(i), p) by {
            assert(r.skip(i) =~= s.skip(i + 1));
        }
        lemma_text_index_is(r, p, k - 1);
    }
}

/// `p` starts nowhere before the place at which it is first found, and nowhere at all if it is not found.
pub proof fn lemma_text_index_first(s: Seq<char>, p: Seq<char>)
    ensures
        text_index(s, p) matches Some(k) ==> 0 <= k <= s.len() && text::starts(s.skip(k), p)
            && forall|i: int| 0 <= i < k ==> !text::starts(#[trigger] s.skip(i), p),
        text_index(s, p) is None ==> forall|i: int|
            0 <= i <= s.len() ==> !text::starts(#[trigger] s.skip(i), p),
    decreases s.len(),
{
    assert(s.skip(0) =~= s);
    if !text::starts(s, p) && s.len() > 0 {
        let r = s.drop_first();
        lemma_text_index_first(r, p);
        match text_index(r, p) {
            Some(k) => {
                assert(r.skip(k) =~= s.skip(k + 1));
                assert forall|i: int| 0 <= i < k + 1 implies !text::starts(#[trigger] s.skip(i), p) by {
                    if i > 0 {
                        assert(r.skip(i - 1) =~= s.skip(i));
                    }
                }
            },
            None => {
                assert forall|i: int| 0 <= i <= s.len() implies !text::starts(
                    #[trigger] s.skip(i),
                    p,
                ) by {
                    if i > 0 {
                        assert(r.skip(i - 1) =~= s.skip(i));
                    }
                }
            },
        }
    }
}

/// `p` is found at the first place at which it stands, and only if it stands somewhere.
pub proof fn law_text_is_found_where_it_stands(s: Seq<char>, p: Seq<char>)
    ensures
        text_index(s, p) matches Some(k) ==> 0 <= k && k + p.len() <= s.len() && s.subrange(
            k,
            k + p.len(),
        ) == p,
        forall|i: int|
            0 <= i && i + p.len() <= s.len() && #[trigger] s.subrange(i, i + p.len()) == p
                ==> text_index(s, p) is Some && text_index(s, p)->0 <= i,
{
    lemma_text_index(s, p);
    lemma_text_index_first(s, p);
    assert forall|i: int|
        0 <= i && i + p.len() <= s.len() && #[trigger] s.subrange(i, i + p.len()) == p implies text_index(
        s,
        p,
    ) is Some && text_index(s, p)->0 <= i by {
        assert(s.skip(i).take(p.len() as int) =~= s.subrange(i, i + p.len()));
        assert(text::starts(s.skip(i), p));
    }
}

/// The texts between the occurrences of `p`, joined by `p`, are the text.
pub proof fn law_sections_join_to_the_text(s: Seq<char>, p: Seq<char>)
    requires
        p.len() > 0,
    ensures
        sections(s, p).len() > 0,
        joined(sections(s, p), p) == s,
    decreases s.len(),
{
    lemma_text_index(s, p);
    if let Some(k) = text_index(s, p) {
        let rest = s.skip(k + p.len());
        law_sections_join_to_the_text(rest, p);
        lemma_joined_front(sections(s, p), p);
        assert(sections(s, p).drop_first() =~= sections(rest, p));
        assert(s =~= s.take(k) + p + rest);
    }
}

} // verus!
