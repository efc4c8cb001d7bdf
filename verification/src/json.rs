//! JSON documents.

use crate::text;
use vstd::prelude::*;

verus! {

/// A JSON document.
#[derive(Debug)]
pub enum Json {
    Null,
    Bool(bool),
    Number(Number),
    Text(String),
    List(Vec<Json>),
    /// The members in order; of a name that occurs twice the first counts.
    Object(Vec<(String, Json)>),
}

/// A number of a document: its value if it is a whole number of 64 bits with a sign, and the way it
/// is written.
#[derive(Clone, Debug)]
pub struct Number {
    pub whole: Option<i64>,
    pub written: String,
}

/// `serde_json::Value`, the document that serde_json reads.
#[verifier::external_type_specification]
#[verifier::external_body]
pub struct ExValue(serde_json::Value);

/// What a `serde_json::Value` holds, variant by variant: a number by `as_i64` and `to_string`, the members of
/// an object in the order in which serde_json gives them out.
pub uninterp spec fn held(v: serde_json::Value) -> Doc;

/// The document that `serde_json::from_str` reads from a text, if the text is one.
pub uninterp spec fn parsed(text: Seq<char>) -> Option<Doc>;

/// Takes a `serde_json::Value` apart, with `as_i64` and `to_string` of `serde_json::Number`: what comes out is
/// what the value holds.
#[verifier::external_body]
fn from_value(v: serde_json::Value) -> (r: Json)
    ensures
        r@ == held(v),
{
    match v {
        serde_json::Value::Null => Json::Null,
        serde_json::Value::Bool(b) => Json::Bool(b),
        serde_json::Value::Number(n) => Json::Number(
            Number { whole: n.as_i64(), written: n.to_string() },
        ),
        serde_json::Value::String(s) => Json::Text(s),
        serde_json::Value::Array(a) => Json::List(a.into_iter().map(from_value).collect()),
        serde_json::Value::Object(m) => Json::Object(
            m.into_iter().map(|(k, x)| (k, from_value(x))).collect(),
        ),
    }
}

/// `serde_json::from_str` for a `serde_json::Value`. Whether the text is a document, and which, depends
/// on the text alone; the grammar is serde_json's and is only named here.
#[verifier::external_body]
fn parse(text: &str) -> (r: Option<serde_json::Value>)
    ensures
        (match r {
            Some(v) => Some(held(v)),
            None => None,
        }) == parsed(text@),
{
    serde_json::from_str::<serde_json::Value>(text).ok()
}

/// Reads a document.
pub fn read(text: &str) -> (r: Option<Json>)
    ensures
        (match r {
            Some(j) => Some(j@),
            None => None,
        }) == parsed(text@),
{
    match parse(text) {
        Some(v) => Some(from_value(v)),
        None => None,
    }
}

/// A JSON document, as a value.
pub enum Doc {
    Null,
    Bool(bool),
    Number { whole: Option<i64>, written: Seq<char> },
    Text(Seq<char>),
    List(Seq<Doc>),
    Object(Seq<(Seq<char>, Doc)>),
}

/// The document as a value.
pub open spec fn doc_of(j: Json) -> Doc
    decreases j,
{
    match j {
        Json::Null => Doc::Null,
        Json::Bool(b) => Doc::Bool(b),
        Json::Number(n) => Doc::Number { whole: n.whole, written: n.written@ },
        Json::Text(s) => Doc::Text(s@),
        Json::List(v) => Doc::List(
            Seq::new(
                v@.len(),
                |i: int|
                    if 0 <= i < v@.len() {
                        doc_of(v@[i])
                    } else {
                        Doc::Null
                    },
            ),
        ),
        Json::Object(v) => Doc::Object(
            Seq::new(
                v@.len(),
                |i: int|
                    if 0 <= i < v@.len() {
                        (v@[i].0@, doc_of(v@[i].1))
                    } else {
                        (Seq::empty(), Doc::Null)
                    },
            ),
        ),
    }
}

impl View for Json {
    type V = Doc;

    open spec fn view(&self) -> Doc {
        doc_of(*self)
    }
}

/// The value of the first member named `k`.
pub open spec fn member(ms: Seq<(Seq<char>, Doc)>, k: Seq<char>) -> Option<Doc>
    decreases ms.len(),
{
    if ms.len() == 0 {
        None
    } else if ms[0].0 == k {
        Some(ms[0].1)
    } else {
        member(ms.drop_first(), k)
    }
}

impl Doc {
    /// The member named `k`, of an object that has one.
    pub open spec fn get(self, k: Seq<char>) -> Option<Doc> {
        match self {
            Doc::Object(ms) => member(ms, k),
            _ => None,
        }
    }

    pub open spec fn text(self) -> Option<Seq<char>> {
        match self {
            Doc::Text(s) => Some(s),
            _ => None,
        }
    }

    /// The text in the member named `k`.
    pub open spec fn text_at(self, k: Seq<char>) -> Option<Seq<char>> {
        match self.get(k) {
            Some(d) => d.text(),
            None => None,
        }
    }

    /// The truth value in the member named `k`.
    pub open spec fn bool_at(self, k: Seq<char>) -> Option<bool> {
        match self.get(k) {
            Some(Doc::Bool(b)) => Some(b),
            _ => None,
        }
    }

    /// The whole number in the member named `k`.
    pub open spec fn whole_at(self, k: Seq<char>) -> Option<i64> {
        match self.get(k) {
            Some(Doc::Number { whole, .. }) => whole,
            _ => None,
        }
    }
}

pub open spec fn opt_doc(j: Option<&Json>) -> Option<Doc> {
    match j {
        Some(x) => Some(x@),
        None => None,
    }
}

pub open spec fn opt_text(s: Option<&String>) -> Option<Seq<char>> {
    match s {
        Some(x) => Some(x@),
        None => None,
    }
}

impl Json {
    /// The member named `k`.
    pub fn get(&self, k: &str) -> (r: Option<&Json>)
        ensures
            opt_doc(r) == self@.get(k@),
    {
        match self {
            Json::Object(v) => {
                let ghost ms = self@->Object_0;
                assert(ms.skip(0) =~= ms);
                for i in 0..v.len()
                    invariant
                        self@ == Doc::Object(ms),
                        ms.len() == v@.len(),
                        forall|j: int| 0 <= j < v@.len() ==> #[trigger] ms[j] == (v@[j].0@, v@[j].1@),
                        member(ms, k@) == member(ms.skip(i as int), k@),
                {
                    assert(ms.skip(i as int)[0] == ms[i as int]);
                    if text::same(v[i].0.as_str(), k) {
                        return Some(&v[i].1);
                    }
                    assert(ms.skip(i as int).drop_first() =~= ms.skip(i + 1));
                }
                assert(ms.skip(v@.len() as int).len() == 0);
                None
            },
            _ => None,
        }
    }

    /// The text in the member named `k`.
    pub fn text_at(&self, k: &str) -> (r: Option<&String>)
        ensures
            opt_text(r) == self@.text_at(k@),
    {
        match self.get(k) {
            Some(Json::Text(s)) => Some(s),
            _ => None,
        }
    }

    /// The truth value in the member named `k`.
    pub fn bool_at(&self, k: &str) -> (r: Option<bool>)
        ensures
            r == self@.bool_at(k@),
    {
        match self.get(k) {
            Some(Json::Bool(b)) => Some(*b),
            _ => None,
        }
    }

    /// The whole number in the member named `k`.
    pub fn whole_at(&self, k: &str) -> (r: Option<i64>)
        ensures
            r == self@.whole_at(k@),
    {
        match self.get(k) {
            Some(Json::Number(n)) => n.whole,
            _ => None,
        }
    }
}

} // verus!
