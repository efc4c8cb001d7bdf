//! The helper program for cloud models: where it lies, and what is read from its replies.

use crate::json::Doc;
use crate::json::Json;
use crate::media;
use crate::text;
use vstd::prelude::*;

verus! {

/// Where the helper program lies: where the environment says, else in its place below the root.
pub open spec fn helper_of(setting: Option<Seq<char>>, repo: Seq<char>, windows: bool) -> Seq<char> {
    match setting {
        Some(p) => p,
        None => repo + "/tools/openrouter-helper/"@ + if windows {
            "openrouter-helper.exe"@
        } else {
            "openrouter-helper"@
        },
    }
}

/// Where the helper program lies.
pub fn helper_bin(setting: Option<&str>, repo_root: &str, windows: bool) -> (r: String)
    ensures
        r@ == helper_of(
            match setting {
                Some(s) => Some(s@),
                None => None,
            },
            repo_root@,
            windows,
        ),
{
    match setting {
        Some(p) => p.to_owned(),
        None => {
            let mut p = repo_root.to_owned();
            p.append("/tools/openrouter-helper/");
            p.append(
                if windows {
                    "openrouter-helper.exe"
                } else {
                    "openrouter-helper"
                },
            );
            p
        },
    }
}

/// The path without the separators at its end.
pub open spec fn bare(p: Seq<char>) -> Seq<char>
    decreases p.len(),
{
    if p.len() > 0 && p.last() == '/' {
        bare(p.drop_last())
    } else {
        p
    }
}

/// The path up to its last separator.
pub open spec fn up_to_last(p: Seq<char>) -> Seq<char>
    decreases p.len(),
{
    if p.len() == 0 || p.last() == '/' {
        p
    } else {
        up_to_last(p.drop_last())
    }
}

/// The directory that holds the path: the path itself where there is none above it.
pub open spec fn parent_of(p: Seq<char>) -> Seq<char> {
    let b = bare(p);
    if b.len() == 0 {
        p
    } else {
        let above = up_to_last(b);
        if above.len() > 0 && bare(above).len() == 0 {
            "/"@
        } else {
            bare(above)
        }
    }
}

fn strip(v: &Vec<char>, n: usize) -> (r: usize)
    requires
        n <= v@.len(),
    ensures
        r <= n,
        v@.take(r as int) == bare(v@.take(n as int)),
{
    let mut k: usize = n;
    while k > 0 && v[k - 1] == '/'
        invariant
            k <= n <= v@.len(),
            bare(v@.take(n as int)) == bare(v@.take(k as int)),
        decreases k,
    {
        assert(v@.take(k as int).drop_last() =~= v@.take(k - 1));
        k -= 1;
    }
    k
}

/// The root of the project: the directory above that of the models.
pub fn repo_from_models(models_root: &str) -> (r: String)
    ensures
        r@ == parent_of(models_root@),
{
    let v = text::chars_of(models_root);
    assert(v@.take(v@.len() as int) =~= v@);
    let n: usize = strip(&v, v.len());
    if n == 0 {
        return models_root.to_owned();
    }
    let mut k: usize = n;
    while k > 0 && v[k - 1] != '/'
        invariant
            k <= n <= v@.len(),
            up_to_last(v@.take(n as int)) == up_to_last(v@.take(k as int)),
        decreases k,
    {
        assert(v@.take(k as int).drop_last() =~= v@.take(k - 1));
        k -= 1;
    }
    let m: usize = strip(&v, k);
    if k > 0 && m == 0 {
        return "/".to_owned();
    }
    let r = text::slice_text(&v, 0, m);
    assert(r@ =~= v@.take(m as int));
    r
}

/// As much of the helper's error is passed on.
pub const ERROR_LENGTH: usize = 400;

/// What is reported of a failed operation.
pub fn failure(op: &str, report: &str) -> (r: String)
    ensures
        r@ == "openrouter-helper "@ + op@ + ": "@ + text::head(
            text::trimmed(report@),
            ERROR_LENGTH as nat,
        ),
{
    let mut m = "openrouter-helper ".to_owned();
    m.append(op);
    m.append(": ");
    m.append(text::first_chars(text::trim(report).as_str(), ERROR_LENGTH).as_str());
    m
}

/// What was spent in all, in millionths of a dollar.
pub open spec fn usage_of(reply: Doc) -> Option<int> {
    match reply.get("credits"@) {
        Some(c) => match c.get("data"@) {
            Some(d) => media::moment_at(d, "total_usage"@),
            None => None,
        },
        None => None,
    }
}

/// What was spent in all, by the reply to the check of the key, in millionths of a dollar.
pub fn total_usage(reply: &Json) -> (r: Option<i64>)
    ensures
        match r {
            Some(n) => usage_of(reply@) == Some(n as int),
            None => usage_of(reply@) is None,
        },
{
    match reply.get("credits") {
        Some(c) => match c.get("data") {
            Some(d) => media::read_moment_at(d, "total_usage"),
            None => None,
        },
        None => None,
    }
}

/// Separators at the end of a path do not count, and what is above it is what stands before its last separator.
pub proof fn law_directory_above(dir: Seq<char>, name: Seq<char>)
    requires
        name.len() > 0,
        !name.contains('/'),
        dir.len() > 0,
        dir.last() != '/',
    ensures
        parent_of(dir + seq!['/'] + name) == dir,
        parent_of(dir + seq!['/'] + name + seq!['/']) == dir,
        parent_of(name) == Seq::<char>::empty(),
        parent_of(seq!['/'] + name) == "/"@,
{
    reveal_strlit("/");
    let p = dir + seq!['/'] + name;
    assert(p.last() == name.last());
    assert(name.contains(name.last()));
    assert((p + seq!['/']).drop_last() =~= p);
    assert(bare(p) == p);
    assert(bare(p + seq!['/']) == bare(p)) by {
        assert((p + seq!['/']).last() == '/');
    }
    lemma_up_to_last(dir + seq!['/'], name);
    assert(dir + seq!['/'] + name =~= (dir + seq!['/']) + name);
    assert((dir + seq!['/']).drop_last() =~= dir);
    assert((dir + seq!['/']).last() == '/');
    assert(bare(dir + seq!['/']) == bare(dir));
    assert(bare(dir) == dir);
    lemma_up_to_last(Seq::empty(), name);
    assert(Seq::<char>::empty() + name =~= name);
    assert(bare(name) == name);
    lemma_up_to_last(seq!['/'], name);
    assert((seq!['/'] + name).last() == name.last());
    assert(seq!['/'].drop_last() =~= Seq::<char>::empty());
    assert(bare(seq!['/']) == bare(Seq::<char>::empty()));
}

proof fn lemma_up_to_last(head: Seq<char>, name: Seq<char>)
    requires
        !name.contains('/'),
        head.len() == 0 || head.last() == '/',
    ensures
        up_to_last(head + name) == head,
    decreases name.len(),
{
    let p = head + name;
    if name.len() > 0 {
        assert(name.contains(name.last()));
        assert(p.last() == name.last());
        assert(p.drop_last() =~= head + name.drop_last());
        assert forall|c: char| name.drop_last().contains(c) implies name.contains(c) by {
            let i = choose|i: int| 0 <= i < name.drop_last().len() && name.drop_last()[i] == c;
            assert(name[i] == c);
        }
        lemma_up_to_last(head, name.drop_last());
    } else {
        assert(p =~= head);
    }
}

/// The helper program lies where the environment says, and else in its place below the root, under the name that it has
/// on the system.
pub proof fn law_where_the_helper_lies(p: Seq<char>, repo: Seq<char>, windows: bool)
    ensures
        helper_of(Some(p), repo, windows) == p,
        helper_of(None, repo, true) == repo + "/tools/openrouter-helper/"@ + "openrouter-helper.exe"@,
        helper_of(None, repo, false) == repo + "/tools/openrouter-helper/"@ + "openrouter-helper"@,
{
}

} // verus!
