//! Which lines are spoken.

use crate::project::Segment;
use crate::text;
use vstd::prelude::*;

verus! {

/// A line is heard when it is not hidden and keeps the original or has a translation.
pub open spec fn heard(s: Segment) -> bool {
    !s.hidden && (s.keep_original || text::trimmed(s.tgt_text@).len() > 0)
}

/// The indices of the lines that are heard, of the first `n`.
pub open spec fn heard_of(segs: Seq<Segment>, n: int) -> Seq<int>
    decreases n,
{
    if n <= 0 {
        Seq::empty()
    } else if heard(segs[n - 1]) {
        heard_of(segs, n - 1).push(n - 1)
    } else {
        heard_of(segs, n - 1)
    }
}

/// Whether the line is heard.
pub fn is_heard(s: &Segment) -> (r: bool)
    ensures
        r == heard(*s),
{
    !s.hidden && (s.keep_original || !text::blank(s.tgt_text.as_str()))
}

/// The indices of the lines that are heard.
pub fn heard_lines(segs: &Vec<Segment>) -> (r: Vec<usize>)
    ensures
        crate::rank::indices(r@) == heard_of(segs@, segs@.len() as int),
        forall|i: int| 0 <= i < r@.len() ==> (#[trigger] r@[i]) < segs@.len(),
{
    let mut out: Vec<usize> = Vec::new();
    assert(crate::rank::indices(out@) =~= Seq::empty());
    for n in 0..segs.len()
        invariant
            crate::rank::indices(out@) == heard_of(segs@, n as int),
            forall|i: int| 0 <= i < out@.len() ==> (#[trigger] out@[i]) < segs@.len(),
    {
        if is_heard(&segs[n]) {
            let ghost before = crate::rank::indices(out@);
            out.push(n);
            assert(crate::rank::indices(out@) =~= before.push(n as int));
        }
    }
    out
}

/// A line is spoken by the engine when it is heard and does not keep the original.
pub open spec fn voiced(s: Segment) -> bool {
    heard(s) && !s.keep_original
}

/// Whether a line is synthesised: when it changed and a new take is wanted, or when there is no take.
pub fn needs_synthesis(regenerate: bool, dirty: bool, cached: bool) -> (r: bool)
    ensures
        r == ((regenerate && dirty) || !cached),
{
    (regenerate && dirty) || !cached
}

/// How many of the first `n` lines are synthesised; `cached` tells for each whether it has a take.
pub open spec fn synthesis_count(
    segs: Seq<Segment>,
    cached: Seq<bool>,
    regenerate: bool,
    n: int,
) -> int
    decreases n,
{
    if n <= 0 {
        0
    } else {
        synthesis_count(segs, cached, regenerate, n - 1) + if voiced(segs[n - 1]) && ((regenerate
            && segs[n - 1].dirty) || !cached[n - 1]) {
            1int
        } else {
            0
        }
    }
}

/// How many lines are synthesised.
pub fn count_synthesis(segs: &Vec<Segment>, cached: &Vec<bool>, regenerate: bool) -> (r: usize)
    requires
        cached@.len() == segs@.len(),
    ensures
        r == synthesis_count(segs@, cached@, regenerate, segs@.len() as int),
        r <= segs@.len(),
{
    let mut count: usize = 0;
    for n in 0..segs.len()
        invariant
            cached@.len() == segs@.len(),
            count == synthesis_count(segs@, cached@, regenerate, n as int),
            count <= n,
    {
        let s = &segs[n];
        if is_heard(s) && !s.keep_original && needs_synthesis(regenerate, s.dirty, cached[n]) {
            count = count + 1;
        }
    }
    count
}

/// The characters that may stand in a file name.
pub open spec fn file_char(c: char) -> bool {
    text::is_digit(c) || text::is_ascii_letter(c) || c == '_'
}

pub open spec fn file_chars(s: Seq<char>) -> Seq<char>
    decreases s.len(),
{
    if s.len() == 0 {
        s
    } else if file_char(s.last()) {
        file_chars(s.drop_last()).push(s.last())
    } else {
        file_chars(s.drop_last())
    }
}

/// The name under which the take of a line is kept: its identifier as far as it can stand in a file
/// name, else its index.
pub open spec fn take_name(id: Seq<char>, index: nat) -> Seq<char> {
    let kept = file_chars(id);
    if kept.len() == 0 {
        "i"@ + text::decimal(index)
    } else {
        kept
    }
}

/// The name under which the take of a line is kept.
pub fn take_id(id: &str, index: u64) -> (r: String)
    ensures
        r@ == take_name(id@, index as nat),
{
    let v = text::chars_of(id);
    let mut out = String::new();
    assert(v@.take(0) =~= Seq::empty());
    for i in 0..v.len()
        invariant
            v@ == id@,
            out@ == file_chars(v@.take(i as int)),
    {
        assert(v@.take(i + 1).drop_last() =~= v@.take(i as int));
        let c = v[i];
        if text::digit(c) || ('a' <= c && c <= 'z') || ('A' <= c && c <= 'Z') || c == '_' {
            out.push(c);
        }
    }
    assert(v@.take(v@.len() as int) =~= v@);
    if out.as_str().is_empty() {
        let mut named = "i".to_owned();
        named.append(text::to_decimal(index).as_str());
        named
    } else {
        out
    }
}

// ── Laws ────────────────────────────────────────────────────────────────────

proof fn lemma_file_chars(s: Seq<char>)
    ensures
        forall|i: int| 0 <= i < file_chars(s).len() ==> file_char(#[trigger] file_chars(s)[i]),
    decreases s.len(),
{
    if s.len() > 0 {
        lemma_file_chars(s.drop_last());
        let prev = file_chars(s.drop_last());
        assert forall|i: int| 0 <= i < file_chars(s).len() implies file_char(
            #[trigger] file_chars(s)[i],
        ) by {
            if i < prev.len() {
                assert(file_chars(s)[i] == prev[i]);
            }
        }
    }
}

/// The name of a take is never empty and holds nothing but letters, digits and underscores.
pub proof fn law_take_name_is_a_file_name(id: Seq<char>, index: nat)
    ensures
        take_name(id, index).len() > 0,
        forall|i: int|
            0 <= i < take_name(id, index).len() ==> file_char(#[trigger] take_name(id, index)[i]),
{
    lemma_file_chars(id);
    text::lemma_decimal_reads_back(index);
    reveal_strlit("i");
    let d = text::decimal(index);
    assert forall|i: int| 0 <= i < take_name(id, index).len() implies file_char(
        #[trigger] take_name(id, index)[i],
    ) by {
        if file_chars(id).len() == 0 && i > 0 {
            assert(text::is_digit(d[i - 1]));
        }
    }
}

/// The lines that are heard come in the order of the transcript, each once, and they are those and
/// no others.
pub proof fn law_heard_lines(segs: Seq<Segment>, n: int)
    requires
        0 <= n <= segs.len(),
    ensures
        forall|i: int|
            0 <= i < heard_of(segs, n).len() ==> 0 <= #[trigger] heard_of(segs, n)[i] < n && heard(
                segs[heard_of(segs, n)[i]],
            ),
        forall|i: int, j: int|
            0 <= i < j < heard_of(segs, n).len() ==> #[trigger] heard_of(segs, n)[i]
                < #[trigger] heard_of(segs, n)[j],
        forall|k: int| 0 <= k < n && heard(#[trigger] segs[k]) ==> heard_of(segs, n).contains(k),
    decreases n,
{
    if n > 0 {
        law_heard_lines(segs, n - 1);
        let prev = heard_of(segs, n - 1);
        let now = heard_of(segs, n);
        assert forall|i: int| 0 <= i < now.len() implies 0 <= #[trigger] now[i] < n && heard(
            segs[now[i]],
        ) by {
            if i < prev.len() {
                assert(now[i] == prev[i]);
            }
        }
        assert forall|i: int, j: int| 0 <= i < j < now.len() implies #[trigger] now[i]
            < #[trigger] now[j] by {
            assert(now[i] == prev[i]);
            if j < prev.len() {
                assert(now[j] == prev[j]);
            }
        }
        assert forall|k: int| 0 <= k < n && heard(#[trigger] segs[k]) implies now.contains(k) by {
            if k < n - 1 {
                assert(prev.contains(k));
                let i = choose|i: int| 0 <= i < prev.len() && prev[i] == k;
                assert(now[i] == k);
            } else {
                assert(now[now.len() - 1] == k);
            }
        }
    }
}

/// A line is heard if it is not hidden and either keeps the original or says something in translation, and
/// spoken if it is heard and does not keep the original.
pub proof fn law_what_is_heard_and_spoken(s: Segment)
    ensures
        s.hidden ==> !heard(s) && !voiced(s),
        !s.hidden && s.keep_original ==> heard(s) && !voiced(s),
        !s.hidden && !s.keep_original ==> (heard(s) <==> text::trimmed(s.tgt_text@).len() > 0) && (voiced(s)
            <==> heard(s)),
{
}

/// The lines that are synthesised are the spoken ones that have no take yet, and where lines are spoken anew
/// those that have changed.
pub proof fn law_synthesis_is_counted(segs: Seq<Segment>, cached: Seq<bool>, regenerate: bool, n: int)
    requires
        0 <= n <= segs.len(),
    ensures
        synthesis_count(segs, cached, regenerate, n) == Seq::new(n as nat, |i: int| i).filter(
            |i: int|
                voiced(segs[i]) && (!cached[i] || (regenerate && segs[i].dirty)),
        ).len(),
    decreases n,
{
    reveal(Seq::filter);
    let f = |i: int| voiced(segs[i]) && (!cached[i] || (regenerate && segs[i].dirty));
    let all = Seq::new(n as nat, |i: int| i);
    if n > 0 {
        law_synthesis_is_counted(segs, cached, regenerate, n - 1);
        assert(all.drop_last() =~= Seq::new((n - 1) as nat, |i: int| i));
        assert(all.last() == n - 1);
        assert(f(n - 1) <==> voiced(segs[n - 1]) && ((regenerate && segs[n - 1].dirty) || !cached[n - 1]));
    }
}

/// The take of a line is kept under the line's identifier, as far as that can stand in a file name: what can
/// stays, in its order, and what cannot goes. Only a line of which nothing stays goes by its number.
pub proof fn law_take_goes_by_the_identifier(id: Seq<char>, index: nat)
    ensures
        ({
            let kept = id.filter(
                |c: char|
                    ('0' <= c && c <= '9') || ('a' <= c && c <= 'z') || ('A' <= c && c <= 'Z') || c == '_',
            );
            &&& kept.len() > 0 ==> take_name(id, index) == kept
            &&& kept.len() == 0 ==> take_name(id, index) == "i"@ + text::decimal(index)
        }),
{
    lemma_file_chars_stay(
        id,
        |c: char|
            ('0' <= c && c <= '9') || ('a' <= c && c <= 'z') || ('A' <= c && c <= 'Z') || c == '_',
    );
}

proof fn lemma_file_chars_stay(s: Seq<char>, f: spec_fn(char) -> bool)
    requires
        forall|c: char| #[trigger] f(c) <==> file_char(c),
    ensures
        file_chars(s) == s.filter(f),
    decreases s.len(),
{
    reveal(Seq::filter);
    if s.len() > 0 {
        lemma_file_chars_stay(s.drop_last(), f);
        assert(f(s.last()) <==> file_char(s.last()));
    }
}

} // verus!
