//! What a cloud model heard: the request's language and the lines in its reply.

use crate::json::Doc;
use crate::json::Json;
use crate::media;
use crate::text;
use vstd::prelude::*;

verus! {

/// The language to ask for; nothing where the model is to find it out.
pub open spec fn language_of(src_lang: Seq<char>) -> Option<Seq<char>> {
    let lang = text::trimmed(src_lang);
    if lang.len() == 0 || text::ascii_lower(lang) == "auto"@ {
        None
    } else {
        Some(lang)
    }
}

/// The language to ask for; nothing where the model is to find it out.
pub fn request_language(src_lang: &str) -> (r: Option<String>)
    ensures
        (match r {
            Some(s) => Some(s@),
            None => None,
        }) == language_of(src_lang@),
{
    let lang = text::trim(src_lang);
    if lang.as_str().is_empty() || text::same(text::lower_ascii(lang.as_str()).as_str(), "auto") {
        None
    } else {
        Some(lang)
    }
}

/// The trimmed text in the member named `k`.
pub open spec fn words_at(d: Doc, k: Seq<char>) -> Seq<char> {
    match d.text_at(k) {
        Some(t) => text::trimmed(t),
        None => Seq::empty(),
    }
}

fn read_words_at(j: &Json, k: &str) -> (r: String)
    ensures
        r@ == words_at(j@, k@),
{
    match j.text_at(k) {
        Some(t) => text::trim(t.as_str()),
        None => String::new(),
    }
}

/// A line that was heard.
#[derive(Clone, Debug)]
pub struct Heard {
    pub start: i64,
    pub end: i64,
    pub text: String,
}

/// A line that was heard, as a value.
pub struct HeardModel {
    pub start: int,
    pub end: int,
    pub text: Seq<char>,
}

impl View for Heard {
    type V = HeardModel;

    open spec fn view(&self) -> HeardModel {
        HeardModel { start: self.start as int, end: self.end as int, text: self.text@ }
    }
}

pub open spec fn heard_views(v: Seq<Heard>) -> Seq<HeardModel> {
    v.map_values(|h: Heard| h@)
}

/// The lines with both times and words.
pub open spec fn timed_lines(items: Seq<Doc>) -> Seq<HeardModel>
    decreases items.len(),
{
    if items.len() == 0 {
        Seq::empty()
    } else {
        let before = timed_lines(items.drop_last());
        let d = items.last();
        match (media::moment_at(d, "start"@), media::moment_at(d, "end"@)) {
            (Some(start), Some(end)) if words_at(d, "text"@).len() > 0 => before.push(
                HeardModel { start, end, text: words_at(d, "text"@) },
            ),
            _ => before,
        }
    }
}

/// The lines in the reply's list of them.
pub open spec fn listed(reply: Doc) -> Seq<HeardModel> {
    match media::list_at(reply, "segments"@) {
        Some(items) => timed_lines(items),
        None => Seq::empty(),
    }
}

/// The least length of the one line of a reply without a list: a tenth of a second.
pub const LEAST_LENGTH: i64 = 100_000;

/// What was heard: the lines of the list, else the reply's whole text as one line; nothing where both
/// are missing.
pub open spec fn heard(reply: Doc) -> Option<Seq<HeardModel>> {
    let lines = listed(reply);
    if lines.len() > 0 {
        Some(lines)
    } else {
        let all = words_at(reply, "text"@);
        if all.len() == 0 {
            None
        } else {
            let length = match media::moment_at(reply, "duration"@) {
                Some(t) if t > LEAST_LENGTH => t,
                _ => LEAST_LENGTH as int,
            };
            Some(seq![HeardModel { start: 0, end: length, text: all }])
        }
    }
}

/// What was heard, by the reply of the model; nothing where it heard nothing.
pub fn read_reply(reply: &Json) -> (r: Option<Vec<Heard>>)
    ensures
        (match r {
            Some(v) => Some(heard_views(v@)),
            None => None,
        }) == heard(reply@),
{
    let mut out: Vec<Heard> = Vec::new();
    assert(heard_views(out@) =~= Seq::empty());
    if let Some(Json::List(items)) = reply.get("segments") {
        let ghost ds = media::docs(items@);
        assert(media::list_at(reply@, "segments"@)->0 =~= ds);
        assert(ds.take(0) =~= Seq::empty());
        for i in 0..items.len()
            invariant
                ds == media::docs(items@),
                heard_views(out@) == timed_lines(ds.take(i as int)),
        {
            assert(ds.take(i + 1).drop_last() =~= ds.take(i as int));
            assert(ds.take(i + 1).last() == items@[i as int]@);
            let d = &items[i];
            let words = read_words_at(d, "text");
            if let (Some(start), Some(end)) = (media::read_moment_at(d, "start"), media::read_moment_at(d, "end")) {
                if !words.as_str().is_empty() {
                    let ghost was = heard_views(out@);
                    out.push(Heard { start, end, text: words });
                    assert(heard_views(out@) =~= was.push(
                        HeardModel { start: start as int, end: end as int, text: words@ },
                    ));
                }
            }
        }
        assert(ds.take(items@.len() as int) =~= ds);
    }
    assert(heard_views(out@) == listed(reply@));
    if out.len() > 0 {
        return Some(out);
    }
    let all = read_words_at(reply, "text");
    if all.as_str().is_empty() {
        return None;
    }
    let length: i64 = match media::read_moment_at(reply, "duration") {
        Some(t) => if t > LEAST_LENGTH {
            t
        } else {
            LEAST_LENGTH
        },
        None => LEAST_LENGTH,
    };
    out.push(Heard { start: 0, end: length, text: all });
    assert(heard_views(out@) =~= seq![HeardModel { start: 0, end: length as int, text: all@ }]);
    Some(out)
}

proof fn lemma_lines_have_words(items: Seq<Doc>)
    ensures
        forall|i: int|
            0 <= i < timed_lines(items).len() ==> (#[trigger] timed_lines(items)[i]).text.len() > 0,
    decreases items.len(),
{
    if items.len() > 0 {
        lemma_lines_have_words(items.drop_last());
        let prev = timed_lines(items.drop_last());
        let now = timed_lines(items);
        assert forall|i: int| 0 <= i < now.len() implies (#[trigger] now[i]).text.len() > 0 by {
            if i < prev.len() {
                assert(now[i] == prev[i]);
            }
        }
    }
}

/// Whatever was heard has at least one line, and every line has words.
pub proof fn law_heard_lines_have_words(reply: Doc)
    ensures
        heard(reply) matches Some(lines) ==> lines.len() > 0 && forall|i: int|
            0 <= i < lines.len() ==> (#[trigger] lines[i]).text.len() > 0,
{
    if let Some(items) = media::list_at(reply, "segments"@) {
        lemma_lines_have_words(items);
    }
}

/// The language is asked for as it is set, without white space around it, unless it is to be found out.
pub proof fn law_language_is_asked_for(src_lang: Seq<char>)
    ensures
        ({
            let lang = text::trimmed(src_lang);
            language_of(src_lang) == (if lang.len() > 0 && text::ascii_lower(lang) != "auto"@ {
                Some(lang)
            } else {
                None
            })
        }),
{
}

/// Every line of the reply that has both times and words is heard, with these, in the reply's order; no other is.
pub proof fn law_heard_lines_are_those_of_the_reply(items: Seq<Doc>, d: Doc)
    ensures
        timed_lines(Seq::empty()).len() == 0,
        ({
            let start = media::moment_at(d, "start"@);
            let end = media::moment_at(d, "end"@);
            let said = match d.text_at("text"@) {
                Some(t) => text::trimmed(t),
                None => Seq::empty(),
            };
            let heard = start is Some && end is Some && said.len() > 0;
            &&& heard ==> timed_lines(items.push(d)) == timed_lines(items).push(
                HeardModel { start: start->0, end: end->0, text: said },
            )
            &&& !heard ==> timed_lines(items.push(d)) == timed_lines(items)
        }),
{
    assert(items.push(d).drop_last() =~= items);
}

/// The lines of the reply are what was heard; without any, its whole text is, from the beginning for as long as the
/// reply says, a tenth of a second at least.
pub proof fn law_what_was_heard(reply: Doc)
    ensures
        ({
            let lines = match reply.get("segments"@) {
                Some(Doc::List(items)) => timed_lines(items),
                _ => Seq::empty(),
            };
            let all = match reply.text_at("text"@) {
                Some(t) => text::trimmed(t),
                None => Seq::empty(),
            };
            &&& lines.len() > 0 ==> heard(reply) == Some(lines)
            &&& lines.len() == 0 && all.len() == 0 ==> heard(reply) is None
            &&& lines.len() == 0 && all.len() > 0 ==> heard(reply) is Some && heard(reply)->0.len() == 1 && {
                let h = heard(reply)->0[0];
                &&& h.start == 0 && h.text == all
                &&& media::moment_at(reply, "duration"@) matches Some(t) ==> (t > 100_000 ==> h.end == t)
                &&& (media::moment_at(reply, "duration"@) matches Some(t) ==> t <= 100_000) ==> h.end == 100_000
            }
        }),
{
}

} // verus!
