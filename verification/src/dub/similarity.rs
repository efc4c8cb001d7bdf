//! How much of what should be said was heard.

use crate::text;
use crate::words;
use vstd::prelude::*;

verus! {

/// A share: `hit` of `of`.
#[derive(Clone, Copy, Debug, PartialEq, Eq, Structural)]
pub struct Share {
    pub hit: usize,
    pub of: usize,
}

/// The character by which `c` is compared: one letter for its dotted form, a space for what is
/// neither a letter nor a digit.
pub open spec fn folded(c: char) -> char {
    let d = if c == 'ё' {
        'е'
    } else {
        c
    };
    if text::alphanumeric(d) {
        d
    } else {
        ' '
    }
}

/// The words by which a text is compared.
pub open spec fn heard_words(s: Seq<char>) -> Seq<Seq<char>> {
    words::words(text::lowercase(s).map_values(|c: char| folded(c)))
}

fn split_heard(s: &str) -> (r: Vec<String>)
    ensures
        text::views(r@) == heard_words(s@),
{
    let v = text::chars_of(text::to_lower(s).as_str());
    let ghost target = text::lowercase(s@).map_values(|c: char| folded(c));
    let mut out = String::new();
    for i in 0..v.len()
        invariant
            v@ == text::lowercase(s@),
            target == text::lowercase(s@).map_values(|c: char| folded(c)),
            out@ == target.take(i as int),
    {
        let d = if v[i] == 'ё' {
            'е'
        } else {
            v[i]
        };
        out.push(if text::is_alphanumeric(d) { d } else { ' ' });
        assert(target.take(i + 1) =~= target.take(i as int).push(target[i as int]));
    }
    assert(target.take(v@.len() as int) =~= target);
    words::split_words(out.as_str())
}

pub open spec fn total_len(ws: Seq<Seq<char>>) -> int
    decreases ws.len(),
{
    if ws.len() == 0 {
        0
    } else {
        total_len(ws.drop_last()) + ws.last().len()
    }
}

/// How many of the words `a` are among `b`.
pub open spec fn hits(a: Seq<Seq<char>>, b: Seq<Seq<char>>) -> int
    decreases a.len(),
{
    if a.len() == 0 {
        0
    } else {
        hits(a.drop_last(), b) + if b.contains(a.last()) {
            1int
        } else {
            0
        }
    }
}

pub open spec fn first_three(w: Seq<char>) -> Seq<char> {
    if w.len() < 3 {
        w
    } else {
        w.take(3)
    }
}

/// The share of the expected words `a` that is in the heard words `b`, of the longer of the two. A
/// single short word counts as heard when a heard word begins as it does, unless much more was
/// heard; when nothing was heard, one of two letters is in doubt.
pub open spec fn share_of(a: Seq<Seq<char>>, b: Seq<Seq<char>>) -> (int, int) {
    if a.len() == 0 && b.len() == 0 {
        (1, 1)
    } else if a.len() == 1 && a[0].len() <= 6 {
        if b.len() == 0 {
            if a[0].len() <= 2 {
                (1, 2)
            } else {
                (0, 1)
            }
        } else if total_len(b) > a[0].len() * 3 + 4 {
            (0, 1)
        } else if exists|i: int|
            0 <= i < b.len() && text::starts(#[trigger] b[i], first_three(a[0])) {
            (1, 1)
        } else {
            (0, 1)
        }
    } else if a.len() == 0 || b.len() == 0 {
        (0, 1)
    } else {
        (
            hits(a, b),
            if a.len() > b.len() {
                a.len() as int
            } else {
                b.len() as int
            },
        )
    }
}

fn has_word(b: &Vec<String>, w: &str) -> (r: bool)
    ensures
        r == text::views(b@).contains(w@),
{
    let ghost bv = text::views(b@);
    for i in 0..b.len()
        invariant
            bv == text::views(b@),
            forall|j: int| 0 <= j < i ==> bv[j] != w@,
    {
        assert(bv[i as int] == b@[i as int]@);
        if text::same(b[i].as_str(), w) {
            return true;
        }
    }
    false
}

proof fn lemma_total_grows(ws: Seq<Seq<char>>, k: int)
    requires
        0 <= k <= ws.len(),
    ensures
        0 <= total_len(ws.take(k)) <= total_len(ws),
    decreases ws.len(),
{
    if ws.len() == 0 {
        assert(ws.take(k) =~= ws);
    } else if k == ws.len() {
        assert(ws.take(k) =~= ws);
        lemma_total_grows(ws.drop_last(), k - 1);
    } else {
        lemma_total_grows(ws.drop_last(), k);
        assert(ws.drop_last().take(k) =~= ws.take(k));
    }
}

fn longer_than(ws: &Vec<String>, limit: usize) -> (r: bool)
    ensures
        r == (total_len(text::views(ws@)) > limit),
{
    let ghost wv = text::views(ws@);
    let mut sum: usize = 0;
    assert(wv.take(0) =~= Seq::empty());
    for i in 0..ws.len()
        invariant
            wv == text::views(ws@),
            sum == total_len(wv.take(i as int)),
            sum <= limit,
    {
        let n: usize = text::chars_of(ws[i].as_str()).len();
        proof {
            assert(wv.take(i + 1).drop_last() =~= wv.take(i as int));
            assert(wv.take(i + 1).last() == ws@[i as int]@);
            lemma_total_grows(wv, i + 1);
        }
        if n > limit - sum {
            return true;
        }
        sum = sum + n;
    }
    assert(wv.take(ws@.len() as int) =~= wv);
    false
}

fn some_starts(b: &Vec<String>, head: &str) -> (r: bool)
    ensures
        r == exists|i: int|
            0 <= i < text::views(b@).len() && text::starts(#[trigger] text::views(b@)[i], head@),
{
    let ghost bv = text::views(b@);
    for i in 0..b.len()
        invariant
            bv == text::views(b@),
            forall|j: int| 0 <= j < i ==> !text::starts(#[trigger] bv[j], head@),
    {
        assert(bv[i as int] == b@[i as int]@);
        if text::starts_with(b[i].as_str(), head) {
            return true;
        }
    }
    false
}

/// How much of the expected words was heard.
pub fn compare(a: &Vec<String>, b: &Vec<String>) -> (r: Share)
    ensures
        (r.hit as int, r.of as int) == share_of(text::views(a@), text::views(b@)),
        r.hit <= r.of,
        r.of > 0,
{
    let ghost av = text::views(a@);
    let ghost bv = text::views(b@);
    assert(av.len() == a@.len() && bv.len() == b@.len());
    if a.len() == 0 && b.len() == 0 {
        return Share { hit: 1, of: 1 };
    }
    if a.len() == 1 {
        assert(av[0] == a@[0]@);
        let first = text::chars_of(a[0].as_str());
        let n: usize = first.len();
        if n <= 6 {
            if b.len() == 0 {
                return if n <= 2 {
                    Share { hit: 1, of: 2 }
                } else {
                    Share { hit: 0, of: 1 }
                };
            }
            if longer_than(b, n * 3 + 4) {
                return Share { hit: 0, of: 1 };
            }
            let head = text::slice_text(&first, 0, if n < 3 { n } else { 3 });
            assert(head@ =~= first_three(av[0]));
            return if some_starts(b, head.as_str()) {
                Share { hit: 1, of: 1 }
            } else {
                Share { hit: 0, of: 1 }
            };
        }
    }
    if a.len() == 0 || b.len() == 0 {
        return Share { hit: 0, of: 1 };
    }
    let mut hit: usize = 0;
    assert(av.take(0) =~= Seq::empty());
    for i in 0..a.len()
        invariant
            av == text::views(a@),
            bv == text::views(b@),
            hit == hits(av.take(i as int), bv),
            hit <= i,
    {
        assert(av.take(i + 1).drop_last() =~= av.take(i as int));
        assert(av.take(i + 1).last() == a@[i as int]@);
        if has_word(b, a[i].as_str()) {
            hit = hit + 1;
        }
    }
    assert(av.take(a@.len() as int) =~= av);
    let of: usize = if a.len() > b.len() {
        a.len()
    } else {
        b.len()
    };
    Share { hit, of }
}

/// How much of `expected` is in `heard`.
pub open spec fn similarity(expected: Seq<char>, heard: Seq<char>) -> (int, int) {
    share_of(heard_words(expected), heard_words(heard))
}

/// How much of `expected` is in `heard`.
pub fn qc_similarity(expected: &str, heard: &str) -> (r: Share)
    ensures
        (r.hit as int, r.of as int) == similarity(expected@, heard@),
        r.hit <= r.of,
        r.of > 0,
{
    compare(&split_heard(expected), &split_heard(heard))
}

/// Whether the share is under 35 of a hundred: then a line has to be spoken again.
pub fn is_bad(s: Share) -> (r: bool)
    ensures
        r == (20 * s.hit < 7 * s.of),
{
    20 * (s.hit as u128) < 7 * (s.of as u128)
}

/// Whether the share is at least a half: then a sample says what it should.
pub fn is_good(s: Share) -> (r: bool)
    ensures
        r == (2 * s.hit >= s.of),
{
    2 * (s.hit as u128) >= s.of as u128
}

// ── Laws ────────────────────────────────────────────────────────────────────

proof fn lemma_hits_self(a: Seq<Seq<char>>, b: Seq<Seq<char>>)
    requires
        forall|i: int| 0 <= i < a.len() ==> b.contains(#[trigger] a[i]),
    ensures
        hits(a, b) == a.len(),
    decreases a.len(),
{
    if a.len() > 0 {
        assert(b.contains(a[a.len() - 1]));
        assert forall|i: int| 0 <= i < a.drop_last().len() implies b.contains(
            #[trigger] a.drop_last()[i],
        ) by {
            assert(a.drop_last()[i] == a[i]);
        }
        lemma_hits_self(a.drop_last(), b);
    }
}

/// What was heard as it should be counts in full, whatever it is.
pub proof fn law_same_words_match(a: Seq<Seq<char>>)
    ensures
        share_of(a, a).0 == share_of(a, a).1,
{
    if a.len() == 1 && a[0].len() <= 6 {
        assert(a.drop_last() =~= Seq::empty());
        assert(total_len(a.drop_last()) == 0);
        assert(total_len(a) == a[0].len());
        assert(text::starts(a[0], first_three(a[0]))) by {
            assert(a[0].take(first_three(a[0]).len() as int) =~= first_three(a[0]));
        }
    } else if a.len() > 0 {
        assert forall|i: int| 0 <= i < a.len() implies a.contains(#[trigger] a[i]) by {}
        lemma_hits_self(a, a);
    }
}

/// Nothing heard where more than two letters should be is a miss.
pub proof fn law_silence_is_a_miss(a: Seq<Seq<char>>)
    requires
        a.len() > 0,
        a.len() > 1 || a[0].len() > 2,
    ensures
        share_of(a, Seq::empty()).0 == 0,
{
}

/// What counts as the same: a dotted letter and its plain form, and all that is neither a letter nor a digit
/// parts words.
pub proof fn law_what_is_compared(c: char)
    requires
        text::alphanumeric('е'),
    ensures
        folded('ё') == folded('е'),
        c != 'ё' && text::alphanumeric(c) ==> folded(c) == c,
        c != 'ё' && !text::alphanumeric(c) ==> folded(c) == ' ',
{
}

proof fn lemma_hits_are_counted(a: Seq<Seq<char>>, b: Seq<Seq<char>>)
    ensures
        hits(a, b) == a.filter(|w: Seq<char>| b.contains(w)).len(),
    decreases a.len(),
{
    reveal(Seq::filter);
    if a.len() > 0 {
        lemma_hits_are_counted(a.drop_last(), b);
    }
}

/// How much of a line was heard: of two words and more, or a long one, how many of the words that should be
/// heard are among those that were, of as many as there are in the longer of the two.
pub proof fn law_share_is_of_the_words_found(a: Seq<Seq<char>>, b: Seq<Seq<char>>)
    requires
        a.len() > 1 || (a.len() == 1 && a[0].len() > 6),
        b.len() > 0,
    ensures
        share_of(a, b).0 == a.filter(|w: Seq<char>| b.contains(w)).len(),
        share_of(a, b).1 >= a.len() && share_of(a, b).1 >= b.len(),
        share_of(a, b).1 == a.len() || share_of(a, b).1 == b.len(),
{
    lemma_hits_are_counted(a, b);
}

/// A single word of up to six letters is heard in full or not at all: in full if one of the words that were
/// heard begins with its first three letters and those are not much longer together; one of one or two letters
/// counts half where nothing was heard.
pub proof fn law_short_word_is_heard_or_not(w: Seq<char>, b: Seq<Seq<char>>, i: int)
    requires
        0 < w.len() <= 6,
    ensures
        ({
            let r = share_of(seq![w], b);
            &&& b.len() == 0 ==> r == (if w.len() <= 2 {
                (1int, 2int)
            } else {
                (0int, 1int)
            })
            &&& b.len() > 0 && total_len(b) > 3 * w.len() + 4 ==> r.0 == 0
            &&& 0 <= i < b.len() && total_len(b) <= 3 * w.len() + 4 && text::starts(
                b[i],
                w.take(if w.len() < 3 {
                    w.len() as int
                } else {
                    3
                }),
            ) ==> r == (1int, 1int)
            &&& b.len() > 0 && (forall|k: int|
                0 <= k < b.len() ==> !text::starts(
                    #[trigger] b[k],
                    w.take(if w.len() < 3 {
                        w.len() as int
                    } else {
                        3
                    }),
                )) ==> r.0 == 0
        }),
{
    let a = seq![w];
    assert(a[0] == w);
    assert(w.take(w.len() as int) =~= w);
    assert(first_three(w) == w.take(if w.len() < 3 {
        w.len() as int
    } else {
        3
    }));
    if 0 <= i < b.len() {
        assert(b[i] == b[i]);
    }
}

/// The length of words together is that of each of them.
pub proof fn law_lengths_add_up(ws: Seq<Seq<char>>, w: Seq<char>)
    ensures
        total_len(ws.push(w)) == total_len(ws) + w.len(),
        total_len(Seq::empty()) == 0,
{
    assert(ws.push(w).drop_last() =~= ws);
}

} // verus!
