//! Slash-separated relative paths, joined and compared the way
//! `std::path::PathBuf` joins and compares them on Unix.

use vstd::prelude::*;
use crate::text;
use crate::text::{chars_of, string_from_chars, subrange_of};

verus! {

/// `base.join(name)`: an absolute `name` replaces `base`; otherwise a `/`
/// separates the two unless `base` is empty or already ends with one.
pub open spec fn path_join(base: Seq<char>, name: Seq<char>) -> Seq<char> {
    if name.len() > 0 && name[0] == '/' {
        name
    } else if base.len() == 0 {
        name
    } else if base.last() == '/' {
        base + name
    } else {
        base + seq!['/'] + name
    }
}

/// Joins two paths as `Path::join` does.
pub fn join_path(base: &str, name: &str) -> (r: String)
    ensures
        r@ == path_join(base@, name@),
{
    let b = chars_of(base);
    let n = chars_of(name);
    let mut r: Vec<char>;
    if n.len() > 0 && n[0] == '/' {
        r = n;
    } else if b.len() == 0 {
        r = n;
    } else if b[b.len() - 1] == '/' {
        r = text::concat_chars(&b, &n);
    } else {
        r = b;
        r.push('/');
        text::append_chars(&mut r, &n);
    }
    string_from_chars(&r)
}

/// The index of the first `/` at or after `i`, or `s.len()`.
pub open spec fn next_slash(s: Seq<char>, i: int) -> int
    decreases s.len() - i,
{
    if 0 <= i < s.len() && s[i] != '/' {
        next_slash(s, i + 1)
    } else {
        i
    }
}

pub proof fn lemma_next_slash(s: Seq<char>, i: int)
    requires
        0 <= i <= s.len(),
    ensures
        i <= next_slash(s, i) <= s.len(),
        next_slash(s, i) < s.len() ==> s[next_slash(s, i)] == '/',
    decreases s.len() - i,
{
    if i < s.len() && s[i] != '/' {
        lemma_next_slash(s, i + 1);
    }
}

/// The pieces of `s[i..]` between slashes, empty ones included
/// (`str::split('/')`).
pub open spec fn pieces_from(s: Seq<char>, i: int) -> Seq<Seq<char>>
    decreases s.len() - i,
{
    if 0 <= i <= s.len() {
        let k = next_slash(s, i);
        proof {
            lemma_next_slash(s, i);
        }
        if k < s.len() {
            seq![s.subrange(i, k)] + pieces_from(s, k + 1)
        } else {
            seq![s.subrange(i, s.len() as int)]
        }
    } else {
        seq![]
    }
}

/// The named components of the pieces `p`, from index `i`: empty pieces
/// and `.` pieces are dropped, except a `.` that starts a relative path.
pub open spec fn keep_components(p: Seq<Seq<char>>, i: int, relative: bool) -> Seq<Seq<char>>
    decreases p.len() - i,
{
    if 0 <= i < p.len() {
        let piece = p[i];
        let keep = piece.len() > 0 && (piece != seq!['.'] || (i == 0 && relative));
        let rest = keep_components(p, i + 1, relative);
        if keep {
            seq![piece] + rest
        } else {
            rest
        }
    } else {
        seq![]
    }
}

/// The components of a path (`Path::components` on Unix): a root `/` when
/// the path starts with one, then its names; repeated and trailing slashes
/// and `.` names inside the path are left out.
pub open spec fn components(s: Seq<char>) -> Seq<Seq<char>> {
    let relative = !(s.len() > 0 && s[0] == '/');
    let names = keep_components(pieces_from(s, 0), 0, relative);
    if relative {
        names
    } else {
        seq![seq!['/']] + names
    }
}

/// Two paths are equal as `PathBuf`s: they have the same components.
pub open spec fn same_path(a: Seq<char>, b: Seq<char>) -> bool {
    components(a) == components(b)
}

/// Splits `v` at every `/`, empty pieces included.
pub fn split_slashes(v: &Vec<char>) -> (r: Vec<Vec<char>>)
    ensures
        text::views(r@) == pieces_from(v@, 0),
{
    let n = v.len();
    let mut out: Vec<Vec<char>> = Vec::new();
    let mut i: usize = 0;
    loop
        invariant
            i <= n == v.len(),
            text::views(out@) + pieces_from(v@, i as int) == pieces_from(v@, 0),
        decreases n - i,
    {
        let mut k = i;
        while k < n && v[k] != '/'
            invariant
                i <= k <= n == v.len(),
                next_slash(v@, k as int) == next_slash(v@, i as int),
            decreases n - k,
        {
            k += 1;
        }
        proof {
            lemma_next_slash(v@, i as int);
        }
        let piece = subrange_of(v, i, k);
        let ghost before = text::views(out@);
        out.push(piece);
        assert(text::views(out@) =~= before.push(piece@));
        if k >= n {
            assert(pieces_from(v@, i as int) =~= seq![piece@]);
            assert(before + pieces_from(v@, i as int) =~= text::views(out@));
            return out;
        }
        assert(before + pieces_from(v@, i as int) =~= text::views(out@) + pieces_from(
            v@,
            k + 1,
        ));
        i = k + 1;
    }
}

/// The components of `path` (`Path::components` on Unix).
pub fn path_components(path: &str) -> (r: Vec<Vec<char>>)
    ensures
        text::views(r@) == components(path@),
{
    let v = chars_of(path);
    let relative = !(v.len() > 0 && v[0] == '/');
    let p = split_slashes(&v);
    let ghost pv = text::views(p@);
    let mut names: Vec<Vec<char>> = Vec::new();
    let mut i: usize = p.len();
    while i > 0
        invariant
            i <= p.len(),
            pv == text::views(p@),
            text::views(names@) == keep_components(pv, i as int, relative),
        decreases i,
    {
        i -= 1;
        let piece = &p[i];
        let keep = piece.len() > 0 && (!(piece.len() == 1 && piece[0] == '.') || (i == 0
            && relative));
        assert(piece@ == pv[i as int]);
        assert((piece@ != seq!['.']) == !(piece@.len() == 1 && piece@[0] == '.')) by {
            if piece@.len() == 1 && piece@[0] == '.' {
                assert(piece@ =~= seq!['.']);
            }
        }
        if keep {
            let ghost rest = text::views(names@);
            names.insert(0, text::copy_chars(piece));
            assert(text::views(names@) =~= seq![piece@] + rest);
        }
    }
    if relative {
        names
    } else {
        let mut r: Vec<Vec<char>> = Vec::new();
        let mut root: Vec<char> = Vec::new();
        root.push('/');
        r.push(root);
        let mut j: usize = 0;
        while j < names.len()
            invariant
                j <= names.len(),
                text::views(r@) =~= seq![seq!['/']] + text::views(names@).take(j as int),
            decreases names.len() - j,
        {
            let ghost before = text::views(r@);
            r.push(text::copy_chars(&names[j]));
            assert(text::views(r@) =~= before.push(names@[j as int]@));
            assert(text::views(names@).take(j + 1) =~= text::views(names@).take(j as int).push(
                names@[j as int]@,
            ));
            j += 1;
        }
        assert(text::views(names@).take(names.len() as int) =~= text::views(names@));
        r
    }
}

/// Whether `a` and `b` name the same path (`PathBuf` equality).
pub fn paths_equal(a: &str, b: &str) -> (r: bool)
    ensures
        r == same_path(a@, b@),
{
    let ca = path_components(a);
    let cb = path_components(b);
    if ca.len() != cb.len() {
        assert(text::views(ca@).len() != text::views(cb@).len());
        return false;
    }
    let mut i: usize = 0;
    while i < ca.len()
        invariant
            i <= ca.len() == cb.len(),
            text::views(ca@) == components(a@),
            text::views(cb@) == components(b@),
            forall|k: int| 0 <= k < i ==> ca@[k]@ == cb@[k]@,
        decreases ca.len() - i,
    {
        if !text::chars_eq(&ca[i], &cb[i]) {
            assert(text::views(ca@)[i as int] == ca@[i as int]@);
            assert(text::views(cb@)[i as int] == cb@[i as int]@);
            assert(text::views(ca@) != text::views(cb@));
            return false;
        }
        i += 1;
    }
    assert(text::views(ca@) =~= text::views(cb@));
    true
}

/// The path made by pushing `components` one after the other onto an empty
/// path.
pub open spec fn joined_components(components: Seq<Seq<char>>) -> Seq<char>
    decreases components.len(),
{
    if components.len() == 0 {
        seq![]
    } else {
        path_join(joined_components(components.drop_last()), components.last())
    }
}

/// The path made of the components `start..end` of `cs`.
pub fn join_components(cs: &Vec<Vec<char>>, start: usize, end: usize) -> (r: String)
    requires
        start <= end <= cs@.len(),
    ensures
        r@ == joined_components(text::views(cs@).subrange(start as int, end as int)),
{
    let ghost c = text::views(cs@);
    let mut current = String::new();
    let mut i: usize = start;
    assert(c.subrange(start as int, start as int) =~= Seq::<Seq<char>>::empty());
    while i < end
        invariant
            start <= i <= end <= cs@.len(),
            c == text::views(cs@),
            current@ == joined_components(c.subrange(start as int, i as int)),
        decreases end - i,
    {
        assert(c.subrange(start as int, i + 1).drop_last() =~= c.subrange(start as int, i as int));
        assert(c.subrange(start as int, i + 1).last() == cs@[i as int]@);
        current = join_path(current.as_str(), string_from_chars(&cs[i]).as_str());
        i += 1;
    }
    current
}

/// `path` relative to `prefix` (`Path::strip_prefix`): the components of
/// `path` after those of `prefix`, when `prefix`'s components start it.
pub open spec fn strip_prefix_of(path: Seq<char>, prefix: Seq<char>) -> Option<Seq<char>> {
    let c = components(path);
    let p = components(prefix);
    if p.len() <= c.len() && c.take(p.len() as int) == p {
        Some(joined_components(c.skip(p.len() as int)))
    } else {
        None
    }
}

/// `path` relative to `prefix`, when `prefix` starts it.
pub fn strip_path_prefix(path: &str, prefix: &str) -> (r: Option<String>)
    ensures
        match r {
            Some(s) => strip_prefix_of(path@, prefix@) == Some(s@),
            None => strip_prefix_of(path@, prefix@) is None,
        },
{
    let c = path_components(path);
    let p = path_components(prefix);
    let ghost cv = text::views(c@);
    let ghost pv = text::views(p@);
    if p.len() > c.len() {
        return None;
    }
    let mut i: usize = 0;
    while i < p.len()
        invariant
            i <= p.len() <= c.len(),
            cv == text::views(c@),
            pv == text::views(p@),
            cv == components(path@),
            pv == components(prefix@),
            forall|k: int| 0 <= k < i ==> cv[k] == pv[k],
        decreases p.len() - i,
    {
        if !text::chars_eq(&c[i], &p[i]) {
            assert(cv[i as int] == c@[i as int]@);
            assert(pv[i as int] == p@[i as int]@);
            assert(cv.take(pv.len() as int)[i as int] != pv[i as int]);
            assert(cv.take(pv.len() as int) != pv);
            return None;
        }
        i += 1;
    }
    assert(cv.take(pv.len() as int) =~= pv);
    let r = join_components(&c, p.len(), c.len());
    assert(cv.subrange(pv.len() as int, cv.len() as int) =~= cv.skip(pv.len() as int));
    Some(r)
}

} // verus!
