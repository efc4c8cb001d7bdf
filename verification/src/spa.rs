//! Which file of the built web pages answers a request.

use crate::text;
use vstd::prelude::*;

verus! {

/// The media type that mime_guess gives the path of a file.
pub uninterp spec fn media_type(path: Seq<char>) -> Seq<char>;

/// `mime_guess::from_path` with `MimeGuess::first_or_octet_stream`: the first media type that its table
/// has for the path's extension, else `application/octet-stream`. The table is only named here; a path
/// without a point has no extension.
#[verifier::external_body]
fn guess(path: &str) -> (r: String)
    ensures
        r@ == media_type(path@),
        !path@.contains('.') ==> r@ == "application/octet-stream"@,
{
    mime_guess::from_path(path).first_or_octet_stream().as_ref().to_owned()
}

/// The media type that a file is sent with.
pub fn content_type(path: &str) -> (r: String)
    ensures
        r@ == media_type(path@),
        !path@.contains('.') ==> r@ == "application/octet-stream"@,
{
    guess(path)
}

/// Where the built pages lie; nothing where they are not built.
pub fn find_web_root(repo_root: &str, index_there: bool) -> (r: Option<String>)
    ensures
        (match r {
            Some(p) => Some(p@),
            None => None,
        }) == if index_there {
            Some(repo_root@ + "/frontend/dist"@)
        } else {
            None
        },
{
    if index_there {
        let mut p = repo_root.to_owned();
        p.append("/frontend/dist");
        Some(p)
    } else {
        None
    }
}

/// The page whose being there shows that the pages are built.
pub fn index_page(repo_root: &str) -> (r: String)
    ensures
        r@ == repo_root@ + "/frontend/dist/index.html"@,
{
    let mut p = repo_root.to_owned();
    p.append("/frontend/dist/index.html");
    p
}

/// A path with its links and its steps up resolved, by its parts.
#[derive(Clone, Debug)]
pub struct Found {
    pub parts: Vec<String>,
    pub is_file: bool,
}

/// What answers a request.
#[derive(Clone, Copy, Debug, PartialEq, Eq, Structural)]
pub enum Answer {
    /// The pages are not built.
    NotBuilt,
    /// The file that the request names.
    File,
    /// The page that starts the application.
    Index,
}

/// The path is the directory or lies in it.
pub open spec fn inside(root: Seq<Seq<char>>, path: Seq<Seq<char>>) -> bool {
    root.len() <= path.len() && path.take(root.len() as int) == root
}

/// What answers a request: a file that exists inside the directory of the pages, else the start page.
pub open spec fn answer_of(
    root: Option<Seq<Seq<char>>>,
    path: Seq<char>,
    found: Option<(Seq<Seq<char>>, bool)>,
) -> Answer {
    match root {
        None => Answer::NotBuilt,
        Some(dir) => match found {
            Some((parts, is_file)) if path.len() > 0 && inside(dir, parts) && is_file => Answer::File,
            _ => Answer::Index,
        },
    }
}

fn contained(root: &Vec<String>, path: &Vec<String>) -> (r: bool)
    ensures
        r == inside(text::views(root@), text::views(path@)),
{
    let ghost rv = text::views(root@);
    let ghost pv = text::views(path@);
    if root.len() > path.len() {
        return false;
    }
    for i in 0..root.len()
        invariant
            rv == text::views(root@),
            pv == text::views(path@),
            root@.len() <= path@.len(),
            forall|j: int| 0 <= j < i ==> rv[j] == pv[j],
    {
        if !text::same(root[i].as_str(), path[i].as_str()) {
            assert(pv.take(rv.len() as int)[i as int] != rv[i as int]);
            return false;
        }
    }
    assert(pv.take(rv.len() as int) =~= rv);
    true
}

/// What answers a request for `path`: `root` is the resolved directory of the pages, `found` what the
/// path leads to there.
pub fn serve_spa(root: Option<&Vec<String>>, path: &str, found: Option<&Found>) -> (r: Answer)
    ensures
        r == answer_of(
            match root {
                Some(v) => Some(text::views(v@)),
                None => None,
            },
            path@,
            match found {
                Some(f) => Some((text::views(f.parts@), f.is_file)),
                None => None,
            },
        ),
{
    match root {
        None => Answer::NotBuilt,
        Some(dir) => match found {
            Some(f) => if !path.is_empty() && f.is_file && contained(dir, &f.parts) {
                Answer::File
            } else {
                Answer::Index
            },
            None => Answer::Index,
        },
    }
}

/// No request reads a file outside the directory of the pages.
pub proof fn law_served_file_is_inside(
    root: Option<Seq<Seq<char>>>,
    path: Seq<char>,
    found: Option<(Seq<Seq<char>>, bool)>,
)
    ensures
        answer_of(root, path, found) == Answer::File ==> root is Some && found is Some && inside(
            root->0,
            (found->0).0,
        ),
{
}

/// Once the pages are built every request has an answer.
pub proof fn law_built_pages_answer(
    root: Seq<Seq<char>>,
    path: Seq<char>,
    found: Option<(Seq<Seq<char>>, bool)>,
)
    ensures
        answer_of(Some(root), path, found) != Answer::NotBuilt,
{
}

/// A file is sent if one was found at a path that is not empty, below the directory of the pages or at it; and the
/// start page for any other request.
pub proof fn law_what_is_served(dir: Seq<Seq<char>>, path: Seq<char>, parts: Seq<Seq<char>>, is_file: bool)
    ensures
        answer_of(Some(dir), path, Some((parts, is_file))) == Answer::File <==> path.len() > 0 && is_file && exists|
            rest: Seq<Seq<char>>,
        | #[trigger] (dir + rest) == parts,
        answer_of(Some(dir), path, Some((parts, is_file))) != Answer::File ==> answer_of(
            Some(dir),
            path,
            Some((parts, is_file)),
        ) == Answer::Index,
        answer_of(Some(dir), path, None) == Answer::Index,
        answer_of(None, path, Some((parts, is_file))) == Answer::NotBuilt,
        answer_of(None, path, None) == Answer::NotBuilt,
{
    if inside(dir, parts) {
        let rest = parts.skip(dir.len() as int);
        assert(dir + rest =~= parts);
    }
    if exists|rest: Seq<Seq<char>>| #[trigger] (dir + rest) == parts {
        let rest = choose|rest: Seq<Seq<char>>| #[trigger] (dir + rest) == parts;
        assert(parts.take(dir.len() as int) =~= dir);
    }
}

} // verus!
