//! The library of castings that are carried from one film to the next: names of profiles, and which
//! files belong to one.

use crate::order;
use crate::text;
use crate::words;
use vstd::prelude::*;

verus! {

/// The directory of the library.
pub fn library_root(repo_root: &str) -> (r: String)
    ensures
        r@ == repo_root@ + "/casting_library"@,
{
    let mut p = repo_root.to_owned();
    p.append("/casting_library");
    p
}

/// The directory of a profile.
pub fn profile_dir(repo_root: &str, slug: &str) -> (r: String)
    ensures
        r@ == repo_root@ + "/casting_library"@ + "/"@ + slug@,
{
    let mut p = library_root(repo_root);
    p.append("/");
    p.append(slug);
    p
}

/// What is kept of a profile beside the casting.
#[derive(Clone, Debug)]
pub struct ProfileMeta {
    pub name: String,
    /// When it was made, as the request says; empty where it does not.
    pub created: String,
    pub char_count: usize,
}

/// What is kept of a profile, as a value.
pub struct MetaModel {
    pub name: Seq<char>,
    pub created: Seq<char>,
    pub char_count: int,
}

impl View for ProfileMeta {
    type V = MetaModel;

    open spec fn view(&self) -> MetaModel {
        MetaModel {
            name: self.name@,
            created: self.created@,
            char_count: self.char_count as int,
        }
    }
}

// ── Names ───────────────────────────────────────────────────────────────────

/// A Cyrillic letter in Latin letters.
pub open spec fn translit(c: char) -> Option<Seq<char>> {
    if c == 'а' {
        Some("a"@)
    } else if c == 'б' {
        Some("b"@)
    } else if c == 'в' {
        Some("v"@)
    } else if c == 'г' {
        Some("g"@)
    } else if c == 'д' {
        Some("d"@)
    } else if c == 'е' {
        Some("e"@)
    } else if c == 'ё' {
        Some("e"@)
    } else if c == 'ж' {
        Some("zh"@)
    } else if c == 'з' {
        Some("z"@)
    } else if c == 'и' {
        Some("i"@)
    } else if c == 'й' {
        Some("y"@)
    } else if c == 'к' {
        Some("k"@)
    } else if c == 'л' {
        Some("l"@)
    } else if c == 'м' {
        Some("m"@)
    } else if c == 'н' {
        Some("n"@)
    } else if c == 'о' {
        Some("o"@)
    } else if c == 'п' {
        Some("p"@)
    } else if c == 'р' {
        Some("r"@)
    } else if c == 'с' {
        Some("s"@)
    } else if c == 'т' {
        Some("t"@)
    } else if c == 'у' {
        Some("u"@)
    } else if c == 'ф' {
        Some("f"@)
    } else if c == 'х' {
        Some("h"@)
    } else if c == 'ц' {
        Some("ts"@)
    } else if c == 'ч' {
        Some("ch"@)
    } else if c == 'ш' {
        Some("sh"@)
    } else if c == 'щ' {
        Some("sch"@)
    } else if c == 'ъ' {
        Some(""@)
    } else if c == 'ы' {
        Some("y"@)
    } else if c == 'ь' {
        Some(""@)
    } else if c == 'э' {
        Some("e"@)
    } else if c == 'ю' {
        Some("yu"@)
    } else if c == 'я' {
        Some("ya"@)
    } else {
        None
    }
}

/// A Cyrillic letter in Latin letters.
pub fn translit_char(c: char) -> (r: Option<&'static str>)
    ensures
        (match r {
            Some(s) => Some(s@),
            None => None,
        }) == translit(c),
{
    if c == 'а' {
        Some("a")
    } else if c == 'б' {
        Some("b")
    } else if c == 'в' {
        Some("v")
    } else if c == 'г' {
        Some("g")
    } else if c == 'д' {
        Some("d")
    } else if c == 'е' {
        Some("e")
    } else if c == 'ё' {
        Some("e")
    } else if c == 'ж' {
        Some("zh")
    } else if c == 'з' {
        Some("z")
    } else if c == 'и' {
        Some("i")
    } else if c == 'й' {
        Some("y")
    } else if c == 'к' {
        Some("k")
    } else if c == 'л' {
        Some("l")
    } else if c == 'м' {
        Some("m")
    } else if c == 'н' {
        Some("n")
    } else if c == 'о' {
        Some("o")
    } else if c == 'п' {
        Some("p")
    } else if c == 'р' {
        Some("r")
    } else if c == 'с' {
        Some("s")
    } else if c == 'т' {
        Some("t")
    } else if c == 'у' {
        Some("u")
    } else if c == 'ф' {
        Some("f")
    } else if c == 'х' {
        Some("h")
    } else if c == 'ц' {
        Some("ts")
    } else if c == 'ч' {
        Some("ch")
    } else if c == 'ш' {
        Some("sh")
    } else if c == 'щ' {
        Some("sch")
    } else if c == 'ъ' {
        Some("")
    } else if c == 'ы' {
        Some("y")
    } else if c == 'ь' {
        Some("")
    } else if c == 'э' {
        Some("e")
    } else if c == 'ю' {
        Some("yu")
    } else if c == 'я' {
        Some("ya")
    } else {
        None
    }
}

/// The characters of `s` in Latin letters; a run of others becomes one hyphen.
pub open spec fn latin(s: Seq<char>) -> Seq<char>
    decreases s.len(),
{
    if s.len() == 0 {
        Seq::empty()
    } else {
        let before = latin(s.drop_last());
        let c = s.last();
        match translit(c) {
            Some(t) => before + t,
            None => if text::is_digit(c) || text::is_ascii_letter(c) {
                before.push(c)
            } else if before.len() > 0 && before.last() == '-' {
                before
            } else {
                before.push('-')
            },
        }
    }
}

pub open spec fn drop_front(s: Seq<char>) -> Seq<char>
    decreases s.len(),
{
    if s.len() > 0 && s[0] == '-' {
        drop_front(s.drop_first())
    } else {
        s
    }
}

pub open spec fn drop_back(s: Seq<char>) -> Seq<char>
    decreases s.len(),
{
    if s.len() > 0 && s.last() == '-' {
        drop_back(s.drop_last())
    } else {
        s
    }
}

/// A name of small letters, digits and single hyphens, none of them at either end.
pub open spec fn tidy(s: Seq<char>) -> bool {
    &&& s.len() > 0
    &&& forall|i: int| 0 <= i < s.len() ==> slug_char(#[trigger] s[i])
    &&& s[0] != '-'
    &&& s.last() != '-'
    &&& forall|i: int| 0 <= i < s.len() - 1 ==> !(#[trigger] s[i] == '-' && s[i + 1] == '-')
}

/// The name of the directory for a profile that is shown as `name`.
pub open spec fn slug_of(name: Seq<char>) -> Seq<char> {
    let s = drop_back(drop_front(latin(text::lowercase(text::trimmed(name)))));
    if s.len() == 0 {
        "casting"@
    } else {
        s
    }
}

/// The name of the directory for a profile that is shown as `name`.
///
/// Up to 128 characters it can be used as it is.
pub fn slugify(name: &str) -> (r: String)
    ensures
        r@ == slug_of(name@),
        tidy(r@),
        slug_of(r@) == r@,
        r@.len() <= 128 ==> safe(r@),
{
    let low = text::to_lower(text::trim(name).as_str());
    proof {
        lemma_slug(name@);
        law_tidy_slug_stays(slug_of(name@));
    }
    let v = text::chars_of(low.as_str());
    let mut out: Vec<char> = Vec::new();
    assert(v@.take(0) =~= Seq::empty());
    for i in 0..v.len()
        invariant
            out@ == latin(v@.take(i as int)),
    {
        assert(v@.take(i + 1).drop_last() =~= v@.take(i as int));
        let c = v[i];
        match translit_char(c) {
            Some(t) => {
                let tc = text::chars_of(t);
                let ghost before = out@;
                for k in 0..tc.len()
                    invariant
                        out@ == before + tc@.take(k as int),
                {
                    out.push(tc[k]);
                    assert(tc@.take(k + 1) =~= tc@.take(k as int).push(tc@[k as int]));
                }
                assert(tc@.take(tc@.len() as int) =~= tc@);
            },
            None => {
                if text::digit(c) || ('a' <= c && c <= 'z') || ('A' <= c && c <= 'Z') {
                    out.push(c);
                } else {
                    let n: usize = out.len();
                    if !(n > 0 && out[n - 1] == '-') {
                        out.push('-');
                    }
                }
            },
        }
    }
    assert(v@.take(v@.len() as int) =~= v@);
    let mut a: usize = 0;
    assert(out@.skip(0) =~= out@);
    while a < out.len() && out[a] == '-'
        invariant
            a <= out@.len(),
            drop_front(out@) == drop_front(out@.skip(a as int)),
        decreases out@.len() - a,
    {
        assert(out@.skip(a as int).drop_first() =~= out@.skip(a + 1));
        a += 1;
    }
    let mut b: usize = out.len();
    assert(out@.subrange(a as int, b as int) =~= out@.skip(a as int));
    while b > a && out[b - 1] == '-'
        invariant
            a <= b <= out@.len(),
            drop_back(drop_front(out@)) == drop_back(out@.subrange(a as int, b as int)),
        decreases b,
    {
        assert(out@.subrange(a as int, b as int).drop_last() =~= out@.subrange(a as int, b - 1));
        b -= 1;
    }
    if a == b {
        "casting".to_owned()
    } else {
        text::slice_text(&out, a, b)
    }
}

pub open spec fn taken(existing: Seq<Seq<char>>, slug: Seq<char>) -> bool {
    crate::setup::status::listed(existing, slug)
}

fn is_taken(existing: &Vec<String>, slug: &str) -> (r: bool)
    ensures
        r == taken(text::views(existing@), slug@),
{
    let ghost ev = text::views(existing@);
    for i in 0..existing.len()
        invariant
            ev == text::views(existing@),
            forall|j: int| 0 <= j < i ==> #[trigger] ev[j] != slug@,
    {
        assert(ev[i as int] == existing@[i as int]@);
        if text::same(existing[i].as_str(), slug) {
            return true;
        }
    }
    false
}

/// The name with the number `n` behind it.
pub open spec fn numbered(base: Seq<char>, n: nat) -> Seq<char> {
    base + "-"@ + text::decimal(n)
}

/// The first name from the number `n` on that is free; none up to 9999 leaves the name with an x.
pub open spec fn free_from(existing: Seq<Seq<char>>, base: Seq<char>, n: nat) -> Seq<char>
    decreases 10_000 - n,
{
    if n >= 10_000 {
        base + "-x"@
    } else if !taken(existing, numbered(base, n)) {
        numbered(base, n)
    } else {
        free_from(existing, base, n + 1)
    }
}

/// The name for a new profile: `base`, or with the first number from 2 on that makes it free.
pub open spec fn unique_of(existing: Seq<Seq<char>>, base: Seq<char>) -> Seq<char> {
    if !taken(existing, base) {
        base
    } else {
        free_from(existing, base, 2)
    }
}

/// The name for a new profile beside the `existing` ones.
pub fn unique_slug(existing: &Vec<String>, base: &str) -> (r: String)
    ensures
        r@ == unique_of(text::views(existing@), base@),
{
    if !is_taken(existing, base) {
        return base.to_owned();
    }
    let mut n: u64 = 2;
    while n < 10_000
        invariant
            2 <= n <= 10_000,
            unique_of(text::views(existing@), base@) == free_from(
                text::views(existing@),
                base@,
                n as nat,
            ),
        decreases 10_000 - n,
    {
        let mut cand = base.to_owned();
        cand.append("-");
        cand.append(text::to_decimal(n).as_str());
        if !is_taken(existing, cand.as_str()) {
            return cand;
        }
        n += 1;
    }
    let mut last = base.to_owned();
    last.append("-x");
    last
}

pub open spec fn slug_char(c: char) -> bool {
    ('a' <= c && c <= 'z') || text::is_digit(c) || c == '-'
}

/// A name that can be used as a directory as it comes: up to 128 small letters, digits and hyphens.
pub open spec fn safe(slug: Seq<char>) -> bool {
    0 < slug.len() <= 128 && forall|i: int| 0 <= i < slug.len() ==> slug_char(#[trigger] slug[i])
}

/// Whether the name can be used as a directory as it comes.
pub fn is_safe_slug(slug: &str) -> (r: bool)
    ensures
        r == safe(slug@),
{
    let v = text::chars_of(slug);
    if v.len() == 0 || v.len() > 128 {
        return false;
    }
    for i in 0..v.len()
        invariant
            v@ == slug@,
            forall|j: int| 0 <= j < i ==> slug_char(#[trigger] v@[j]),
    {
        let c = v[i];
        if !(('a' <= c && c <= 'z') || text::digit(c) || c == '-') {
            assert(!slug_char(slug@[i as int]));
            return false;
        }
    }
    true
}

// ── Profiles ────────────────────────────────────────────────────────────────

/// What is found in the library's directory under one name.
#[derive(Clone, Debug)]
pub struct ProfileEntry {
    pub slug: String,
    pub is_dir: bool,
    /// It holds a casting that can be read.
    pub has_casting: bool,
    /// What is kept beside the casting, where that can be read.
    pub meta: Option<ProfileMeta>,
    /// How many characters the casting has, nothing where it cannot be read.
    pub characters: usize,
}

/// What is told of a profile: what is kept of it, else its name and its characters.
pub open spec fn meta_of(e: ProfileEntry) -> MetaModel {
    match e.meta {
        Some(m) => m@,
        None => MetaModel {
            name: e.slug@,
            created: Seq::empty(),
            char_count: e.characters as int,
        },
    }
}

/// What is told of a profile.
pub fn read_meta(e: &ProfileEntry) -> (r: ProfileMeta)
    ensures
        r@ == meta_of(*e),
{
    match &e.meta {
        Some(m) => ProfileMeta {
            name: m.name.clone(),
            created: m.created.clone(),
            char_count: m.char_count,
        },
        None => ProfileMeta {
            name: e.slug.clone(),
            created: String::new(),
            char_count: e.characters,
        },
    }
}

/// Where a profile named `slug` goes in the list: behind the last that it does not come before.
pub open spec fn place_in(list: Seq<(Seq<char>, MetaModel)>, slug: Seq<char>) -> int
    decreases list.len(),
{
    if list.len() == 0 {
        0
    } else if !order::before(slug, list.last().0) {
        list.len() as int
    } else {
        place_in(list.drop_last(), slug)
    }
}

/// The names that are taken: those of the directories.
pub open spec fn directories_of(es: Seq<ProfileEntry>) -> Seq<Seq<char>>
    decreases es.len(),
{
    if es.len() == 0 {
        Seq::empty()
    } else if es.last().is_dir {
        directories_of(es.drop_last()).push(es.last().slug@)
    } else {
        directories_of(es.drop_last())
    }
}

/// The name of the directory for a new profile that is shown as `name`, beside what is in the library.
pub fn new_slug(es: &Vec<ProfileEntry>, name: &str) -> (r: String)
    ensures
        r@ == unique_of(directories_of(es@), slug_of(name@)),
{
    let mut taken: Vec<String> = Vec::new();
    assert(es@.take(0) =~= Seq::empty());
    assert(text::views(taken@) =~= Seq::empty());
    for i in 0..es.len()
        invariant
            text::views(taken@) == directories_of(es@.take(i as int)),
    {
        assert(es@.take(i + 1).drop_last() =~= es@.take(i as int));
        if es[i].is_dir {
            let ghost before = text::views(taken@);
            taken.push(es[i].slug.clone());
            assert(text::views(taken@) =~= before.push(es@[i as int].slug@));
        }
    }
    assert(es@.take(es@.len() as int) =~= es@);
    unique_slug(&taken, slugify(name).as_str())
}

/// The profiles among the entries, by their names.
pub open spec fn profiles_of(es: Seq<ProfileEntry>) -> Seq<(Seq<char>, MetaModel)>
    decreases es.len(),
{
    if es.len() == 0 {
        Seq::empty()
    } else {
        let before = profiles_of(es.drop_last());
        let e = es.last();
        if e.is_dir && e.has_casting {
            before.insert(place_in(before, e.slug@), (e.slug@, meta_of(e)))
        } else {
            before
        }
    }
}

pub open spec fn profile_views(v: Seq<(String, ProfileMeta)>) -> Seq<(Seq<char>, MetaModel)> {
    v.map_values(|p: (String, ProfileMeta)| (p.0@, p.1@))
}

/// The profiles among the entries, by their names.
pub fn list_profiles(es: &Vec<ProfileEntry>) -> (r: Vec<(String, ProfileMeta)>)
    ensures
        profile_views(r@) == profiles_of(es@),
{
    let mut out: Vec<(String, ProfileMeta)> = Vec::new();
    assert(es@.take(0) =~= Seq::empty());
    assert(profile_views(out@) =~= Seq::empty());
    for i in 0..es.len()
        invariant
            profile_views(out@) == profiles_of(es@.take(i as int)),
    {
        let e = &es[i];
        assert(es@.take(i + 1).drop_last() =~= es@.take(i as int));
        if e.is_dir && e.has_casting {
            let ghost list = profile_views(out@);
            let mut k: usize = out.len();
            assert(list.take(k as int) =~= list);
            while k > 0 && order::comes_before(e.slug.as_str(), out[k - 1].0.as_str())
                invariant
                    k <= out@.len(),
                    list == profile_views(out@),
                    place_in(list, e.slug@) == place_in(list.take(k as int), e.slug@),
                decreases k,
            {
                assert(list.take(k as int).last() == (out@[k - 1].0@, out@[k - 1].1@));
                assert(list.take(k as int).drop_last() =~= list.take(k - 1));
                k -= 1;
            }
            proof {
                if k > 0 {
                    assert(list.take(k as int).last() == (out@[k - 1].0@, out@[k - 1].1@));
                }
                assert(place_in(list, e.slug@) == k);
            }
            out.insert(k, (e.slug.clone(), read_meta(e)));
            assert(profile_views(out@) =~= list.insert(k as int, (e.slug@, meta_of(*e))));
        }
    }
    assert(es@.take(es@.len() as int) =~= es@);
    out
}

/// A name that stays in the directory it is used in.
pub open spec fn stays(id: Seq<char>) -> bool {
    id.len() > 0 && !words::occurs(id, ".."@) && !id.contains('/') && !id.contains('\\')
}

/// A path that does not go up.
pub open spec fn goes_down(path: Seq<char>) -> bool {
    path.len() > 0 && !words::occurs(path, ".."@)
}

fn holds(s: &str, c: char) -> (r: bool)
    ensures
        r == s@.contains(c),
{
    let v = text::chars_of(s);
    for i in 0..v.len()
        invariant
            v@ == s@,
            forall|j: int| 0 <= j < i ==> v@[j] != c,
    {
        if v[i] == c {
            assert(s@[i as int] == c);
            return true;
        }
    }
    false
}

/// The names under which a character's picture and voice are kept in a profile, where they are.
#[derive(Clone, Debug)]
pub struct CharacterFiles {
    pub avatar: Option<String>,
    pub voice: Option<String>,
}

pub open spec fn avatar_of(id: Seq<char>, frame: Seq<char>) -> Option<Seq<char>> {
    if stays(id) && goes_down(frame) {
        Some(id + ".jpg"@)
    } else {
        None
    }
}

pub open spec fn voice_of(id: Seq<char>, sample: Seq<char>) -> Option<Seq<char>> {
    if stays(id) && goes_down(sample) {
        Some(id + "_voice.wav"@)
    } else {
        None
    }
}

pub open spec fn opt(s: Option<String>) -> Option<Seq<char>> {
    match s {
        Some(t) => Some(t@),
        None => None,
    }
}

/// The names under which the picture and the voice of the character `id` are kept in a profile, given
/// where they lie in the project.
pub fn character_files(id: &str, frame: &str, sample: &str) -> (r: CharacterFiles)
    ensures
        opt(r.avatar) == avatar_of(id@, frame@),
        opt(r.voice) == voice_of(id@, sample@),
{
    if id.is_empty() || words::contains(id, "..") || holds(id, '/') || holds(id, '\\') {
        return CharacterFiles { avatar: None, voice: None };
    }
    let avatar = if !frame.is_empty() && !words::contains(frame, "..") {
        let mut n = id.to_owned();
        n.append(".jpg");
        Some(n)
    } else {
        None
    };
    let voice = if !sample.is_empty() && !words::contains(sample, "..") {
        let mut n = id.to_owned();
        n.append("_voice.wav");
        Some(n)
    } else {
        None
    };
    CharacterFiles { avatar, voice }
}

// ── Laws ────────────────────────────────────────────────────────────────────

/// The Latin letters that stand for a Cyrillic one are small letters.
proof fn lemma_translit(c: char)
    ensures
        translit(c) matches Some(s) ==> forall|i: int| 0 <= i < s.len() ==> 'a' <= #[trigger] s[i] && s[i] <= 'z',
{
    reveal_strlit("");
    reveal_strlit("a");
    reveal_strlit("b");
    reveal_strlit("ch");
    reveal_strlit("d");
    reveal_strlit("e");
    reveal_strlit("f");
    reveal_strlit("g");
    reveal_strlit("h");
    reveal_strlit("i");
    reveal_strlit("k");
    reveal_strlit("l");
    reveal_strlit("m");
    reveal_strlit("n");
    reveal_strlit("o");
    reveal_strlit("p");
    reveal_strlit("r");
    reveal_strlit("s");
    reveal_strlit("sch");
    reveal_strlit("sh");
    reveal_strlit("t");
    reveal_strlit("ts");
    reveal_strlit("u");
    reveal_strlit("v");
    reveal_strlit("y");
    reveal_strlit("ya");
    reveal_strlit("yu");
    reveal_strlit("z");
    reveal_strlit("zh");
}

proof fn lemma_latin(s: Seq<char>)
    requires
        text::no_capitals(s),
    ensures
        forall|i: int| 0 <= i < latin(s).len() ==> slug_char(#[trigger] latin(s)[i]),
        forall|i: int|
            0 <= i < latin(s).len() - 1 ==> !(#[trigger] latin(s)[i] == '-' && latin(s)[i + 1]
                == '-'),
    decreases s.len(),
{
    if s.len() > 0 {
        let prev = latin(s.drop_last());
        let now = latin(s);
        let c = s.last();
        assert(text::no_capitals(s.drop_last())) by {
            assert forall|i: int| 0 <= i < s.drop_last().len() implies !('A'
                <= #[trigger] s.drop_last()[i] && s.drop_last()[i] <= 'Z') by {
                assert(s.drop_last()[i] == s[i]);
            }
        }
        lemma_latin(s.drop_last());
        lemma_translit(c);
        assert(!('A' <= s[s.len() - 1] && s[s.len() - 1] <= 'Z'));
        assert forall|i: int| 0 <= i < now.len() implies slug_char(#[trigger] now[i]) by {
            if i < prev.len() {
                assert(now[i] == prev[i]);
            }
        }
        assert forall|i: int| 0 <= i < now.len() - 1 implies !(#[trigger] now[i] == '-' && now[i + 1]
            == '-') by {
            if i + 1 < prev.len() {
                assert(now[i] == prev[i] && now[i + 1] == prev[i + 1]);
            }
        }
    }
}

proof fn lemma_dropped(s: Seq<char>)
    ensures
        exists|a: int, b: int|
            0 <= a <= b <= s.len() && drop_back(drop_front(s)) == #[trigger] s.subrange(a, b),
        drop_back(drop_front(s)).len() > 0 ==> drop_back(drop_front(s))[0] != '-' && drop_back(
            drop_front(s),
        ).last() != '-',
{
    lemma_front(s);
    let f = drop_front(s);
    lemma_back(f);
    let a = choose|a: int| 0 <= a <= s.len() && f == #[trigger] s.skip(a);
    let b = choose|b: int| 0 <= b <= f.len() && drop_back(f) == #[trigger] f.take(b);
    assert(f.take(b) =~= s.subrange(a, a + b));
}

proof fn lemma_front(s: Seq<char>)
    ensures
        exists|a: int| 0 <= a <= s.len() && drop_front(s) == #[trigger] s.skip(a),
        drop_front(s).len() > 0 ==> drop_front(s)[0] != '-',
    decreases s.len(),
{
    if s.len() > 0 && s[0] == '-' {
        let t = s.drop_first();
        lemma_front(t);
        let a = choose|a: int| 0 <= a <= t.len() && drop_front(t) == #[trigger] t.skip(a);
        assert(t.skip(a) =~= s.skip(a + 1));
    } else {
        assert(s.skip(0) =~= s);
    }
}

proof fn lemma_back(s: Seq<char>)
    ensures
        exists|b: int| 0 <= b <= s.len() && drop_back(s) == #[trigger] s.take(b),
        drop_back(s).len() > 0 ==> drop_back(s).last() != '-' && drop_back(s)[0] == s[0],
    decreases s.len(),
{
    if s.len() > 0 && s.last() == '-' {
        let t = s.drop_last();
        lemma_back(t);
        let b = choose|b: int| 0 <= b <= t.len() && drop_back(t) == #[trigger] t.take(b);
        assert(t.take(b) =~= s.take(b));
    } else {
        assert(s.take(s.len() as int) =~= s);
    }
}

proof fn lemma_slug(name: Seq<char>)
    requires
        text::no_capitals(text::lowercase(text::trimmed(name))),
    ensures
        tidy(slug_of(name)),
{
    let l = latin(text::lowercase(text::trimmed(name)));
    lemma_latin(text::lowercase(text::trimmed(name)));
    lemma_dropped(l);
    let s = drop_back(drop_front(l));
    let (a, b) = choose|a: int, b: int|
        0 <= a <= b <= l.len() && s == #[trigger] l.subrange(a, b);
    reveal_strlit("casting");
    assert("casting"@.len() == 7);
    let r = slug_of(name);
    assert forall|i: int| 0 <= i < r.len() implies slug_char(#[trigger] r[i]) by {
        if s.len() > 0 {
            assert(r[i] == l[a + i]);
        }
    }
    assert forall|i: int| 0 <= i < r.len() - 1 implies !(#[trigger] r[i] == '-' && r[i + 1]
        == '-') by {
        if s.len() > 0 {
            assert(r[i] == l[a + i] && r[i + 1] == l[a + i + 1]);
        }
    }
}

proof fn lemma_latin_of_tidy(s: Seq<char>, n: int)
    requires
        tidy(s),
        0 <= n <= s.len(),
    ensures
        latin(s.take(n)) == s.take(n),
    decreases n,
{
    if n > 0 {
        let t = s.take(n);
        lemma_latin_of_tidy(s, n - 1);
        assert(t.drop_last() =~= s.take(n - 1));
        assert(t.last() == s[n - 1]);
        assert(slug_char(s[n - 1]));
        assert(translit(s[n - 1]) is None);
        if s[n - 1] == '-' {
            assert(n > 1);
            assert(!(s[n - 2] == '-' && s[n - 2 + 1] == '-'));
            assert(s.take(n - 1).last() == s[n - 2]);
        }
        assert(t =~= s.take(n - 1).push(s[n - 1]));
    } else {
        assert(s.take(0) =~= Seq::empty());
    }
}

/// A tidy name is its own directory's name: making a name of one that was made changes nothing.
pub proof fn law_tidy_slug_stays(s: Seq<char>)
    requires
        tidy(s),
    ensures
        slug_of(s) == s,
{
    assert forall|i: int| 0 <= i < s.len() implies text::is_ascii_char(#[trigger] s[i]) by {
        assert(slug_char(s[i]));
    }
    assert(slug_char(s[0]) && slug_char(s[s.len() - 1]));
    assert(text::trimmed(s) == s);
    let low = text::ascii_lower(s);
    assert forall|i: int| 0 <= i < s.len() implies #[trigger] low[i] == s[i] by {
        assert(slug_char(s[i]));
    }
    assert(low =~= s);
    lemma_latin_of_tidy(s, s.len() as int);
    assert(s.take(s.len() as int) =~= s);
}

/// A safe name leads nowhere else: it holds neither a separator nor a point.
pub proof fn law_safe_slug_stays(slug: Seq<char>)
    requires
        safe(slug),
    ensures
        !slug.contains('/'),
        !slug.contains('\\'),
        !slug.contains('.'),
{
    assert forall|c: char| slug.contains(c) implies slug_char(c) by {
        let i = choose|i: int| 0 <= i < slug.len() && slug[i] == c;
        assert(slug_char(slug[i]));
    }
}

proof fn lemma_free(existing: Seq<Seq<char>>, base: Seq<char>, n: nat)
    ensures
        !taken(existing, free_from(existing, base, n)) || forall|k: nat|
            n <= k < 10_000 ==> taken(existing, #[trigger] numbered(base, k)),
    decreases 10_000 - n,
{
    if n < 10_000 && taken(existing, numbered(base, n)) {
        lemma_free(existing, base, n + 1);
    }
}

/// A new profile never takes the name of an existing one, unless ten thousand names in a row are taken.
pub proof fn law_unique_slug_is_free(existing: Seq<Seq<char>>, base: Seq<char>)
    ensures
        !taken(existing, unique_of(existing, base)) || (taken(existing, base) && forall|k: nat|
            2 <= k < 10_000 ==> taken(existing, #[trigger] numbered(base, k))),
{
    lemma_free(existing, base, 2);
}

proof fn lemma_place(list: Seq<(Seq<char>, MetaModel)>, slug: Seq<char>)
    ensures
        0 <= place_in(list, slug) <= list.len(),
        forall|i: int| place_in(list, slug) <= i < list.len() ==> order::before(
            slug,
            (#[trigger] list[i]).0,
        ),
        place_in(list, slug) > 0 ==> !order::before(slug, list[place_in(list, slug) - 1].0),
    decreases list.len(),
{
    if list.len() > 0 && order::before(slug, list.last().0) {
        lemma_place(list.drop_last(), slug);
        let t = list.drop_last();
        assert forall|i: int| place_in(list, slug) <= i < list.len() implies order::before(
            slug,
            (#[trigger] list[i]).0,
        ) by {
            if i < t.len() {
                assert(t[i] == list[i]);
            }
        }
    }
}

/// The profiles are listed by their names.
pub proof fn law_profiles_are_sorted(es: Seq<ProfileEntry>)
    ensures
        forall|i: int, j: int|
            0 <= i < j < profiles_of(es).len() ==> !order::before(
                (#[trigger] profiles_of(es)[j]).0,
                (#[trigger] profiles_of(es)[i]).0,
            ),
    decreases es.len(),
{
    if es.len() > 0 {
        law_profiles_are_sorted(es.drop_last());
        let prev = profiles_of(es.drop_last());
        let now = profiles_of(es);
        let e = es.last();
        if e.is_dir && e.has_casting {
            let x = e.slug@;
            let k = place_in(prev, x);
            lemma_place(prev, x);
            assert forall|i: int, j: int| 0 <= i < j < now.len() implies !order::before(
                (#[trigger] now[j]).0,
                (#[trigger] now[i]).0,
            ) by {
                if j < k {
                    assert(now[i] == prev[i] && now[j] == prev[j]);
                } else if j == k {
                    assert(now[i] == prev[i]);
                    if order::before(x, prev[i].0) && i < k - 1 {
                        let last = prev[k - 1].0;
                        if last != prev[i].0 {
                            order::lemma_before_total(prev[i].0, last);
                            order::lemma_before_transitive(x, prev[i].0, last);
                        }
                    }
                } else if i < k {
                    assert(now[i] == prev[i] && now[j] == prev[j - 1]);
                } else if i == k {
                    assert(now[j] == prev[j - 1]);
                    order::lemma_before_asymmetric(x, prev[j - 1].0);
                } else {
                    assert(now[i] == prev[i - 1] && now[j] == prev[j - 1]);
                }
            }
        }
    }
}

/// A new profile has its own name where that is free, and else the first number from 2 on that makes it free.
pub proof fn law_first_free_number_is_taken(existing: Seq<Seq<char>>, base: Seq<char>, n: nat)
    ensures
        !existing.contains(base) ==> unique_of(existing, base) == base,
        existing.contains(base) && 2 <= n < 10_000 && !existing.contains(base + "-"@ + text::decimal(n)) && (forall|
            k: nat,
        |
            2 <= k < n ==> existing.contains(base + "-"@ + #[trigger] text::decimal(k))) ==> unique_of(existing, base)
            == base + "-"@ + text::decimal(n),
{
    if existing.contains(base) && 2 <= n < 10_000 && !existing.contains(base + "-"@ + text::decimal(n)) && (forall|
        k: nat,
    |
        2 <= k < n ==> existing.contains(base + "-"@ + #[trigger] text::decimal(k))) {
        lemma_free_from_is(existing, base, 2, n);
    }
    assert(taken(existing, base) == existing.contains(base));
}

proof fn lemma_free_from_is(existing: Seq<Seq<char>>, base: Seq<char>, from: nat, n: nat)
    requires
        from <= n < 10_000,
        !existing.contains(base + "-"@ + text::decimal(n)),
        forall|k: nat| from <= k < n ==> existing.contains(base + "-"@ + #[trigger] text::decimal(k)),
    ensures
        free_from(existing, base, from) == base + "-"@ + text::decimal(n),
    decreases n - from,
{
    assert(taken(existing, numbered(base, from)) == existing.contains(numbered(base, from)));
    if from < n {
        assert(existing.contains(base + "-"@ + text::decimal(from)));
        lemma_free_from_is(existing, base, from + 1, n);
    }
}

/// How one more character of a name is written: a Cyrillic letter in Latin ones, a small letter or a digit as it is, and
/// anything else as a hyphen, but never as a second one in a row.
pub proof fn law_name_is_written_letter_by_letter(s: Seq<char>, c: char)
    ensures
        latin(Seq::empty()).len() == 0,
        translit(c) is Some ==> latin(s.push(c)) == latin(s) + translit(c)->0,
        translit(c) is None && (('a' <= c && c <= 'z') || ('0' <= c && c <= '9')) ==> latin(s.push(c)) == latin(s).push(c),
        translit(c) is None && !text::is_digit(c) && !text::is_ascii_letter(c) ==> latin(s.push(c)) == (
        if latin(s).len() > 0 && latin(s).last() == '-' {
            latin(s)
        } else {
            latin(s).push('-')
        }),
{
    assert(s.push(c).drop_last() =~= s);
}

/// A name that can be a directory's has 1 to 128 characters, each a small letter, a digit or a hyphen.
pub proof fn law_which_names_are_safe(slug: Seq<char>)
    ensures
        safe(slug) <==> 1 <= slug.len() <= 128 && forall|i: int|
            0 <= i < slug.len() ==> {
                let c = #[trigger] slug[i];
                ('a' <= c && c <= 'z') || ('0' <= c && c <= '9') || c == '-'
            },
{
}

/// The profiles are the directories with a casting, each with what is kept of it, else with its name and how many
/// characters it has.
pub proof fn law_every_profile_is_listed(es: Seq<ProfileEntry>, e: ProfileEntry) -> (k: int)
    ensures
        profiles_of(Seq::empty()).len() == 0,
        !(e.is_dir && e.has_casting) ==> profiles_of(es.push(e)) == profiles_of(es),
        e.is_dir && e.has_casting ==> 0 <= k <= profiles_of(es).len() && profiles_of(es.push(e)) == profiles_of(es).insert(
            k,
            (e.slug@, match e.meta {
                Some(m) => m@,
                None => MetaModel { name: e.slug@, created: Seq::empty(), char_count: e.characters as int },
            }),
        ),
        directories_of(Seq::empty()).len() == 0,
        directories_of(es.push(e)) == (if e.is_dir {
            directories_of(es).push(e.slug@)
        } else {
            directories_of(es)
        }),
{
    assert(es.push(e).drop_last() =~= es);
    lemma_place_is_within(profiles_of(es), e.slug@);
    place_in(profiles_of(es), e.slug@)
}

proof fn lemma_place_is_within(list: Seq<(Seq<char>, MetaModel)>, slug: Seq<char>)
    ensures
        0 <= place_in(list, slug) <= list.len(),
    decreases list.len(),
{
    if list.len() > 0 {
        lemma_place_is_within(list.drop_last(), slug);
    }
}

/// A face and a voice are kept under the character's name, if that stays in its directory and what they are made of does
/// not go up.
pub proof fn law_where_face_and_voice_are_kept(id: Seq<char>, from: Seq<char>)
    ensures
        ({
            let fine = id.len() > 0 && !words::occurs(id, ".."@) && !id.contains('/') && !id.contains('\\')
                && from.len() > 0 && !words::occurs(from, ".."@);
            &&& fine ==> avatar_of(id, from) == Some(id + ".jpg"@) && voice_of(id, from) == Some(id + "_voice.wav"@)
            &&& !fine ==> avatar_of(id, from) is None && voice_of(id, from) is None
        }),
{
}

} // verus!
