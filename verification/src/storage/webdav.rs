//! A library on a WebDAV server: request paths, which failures are retried,
//! and reading directory listings.

use vstd::prelude::*;
use crate::text;
use crate::paths;
use crate::thirdparty;

verus! {

/// `s` without its leading `/` characters (`trim_start_matches('/')`).
pub open spec fn strip_leading_slashes(s: Seq<char>) -> Seq<char>
    decreases s.len(),
{
    if s.len() > 0 && s[0] == '/' {
        strip_leading_slashes(s.drop_first())
    } else {
        s
    }
}

/// `s` without its trailing `/` characters (`trim_end_matches('/')`).
pub open spec fn strip_trailing_slashes(s: Seq<char>) -> Seq<char>
    decreases s.len(),
{
    if s.len() > 0 && s.last() == '/' {
        strip_trailing_slashes(s.drop_last())
    } else {
        s
    }
}

fn strip_leading(v: &Vec<char>) -> (r: Vec<char>)
    ensures
        r@ == strip_leading_slashes(v@),
{
    let mut i: usize = 0;
    assert(v@.skip(0) =~= v@);
    while i < v.len() && v[i] == '/'
        invariant
            i <= v@.len(),
            strip_leading_slashes(v@.skip(i as int)) == strip_leading_slashes(v@),
        decreases v@.len() - i,
    {
        assert(v@.skip(i as int).drop_first() =~= v@.skip(i + 1));
        i += 1;
    }
    let r = text::subrange_of(v, i, v.len());
    assert(r@ =~= v@.skip(i as int));
    r
}

fn strip_trailing(v: &Vec<char>) -> (r: Vec<char>)
    ensures
        r@ == strip_trailing_slashes(v@),
{
    let mut j: usize = v.len();
    assert(v@.take(j as int) =~= v@);
    while j > 0 && v[j - 1] == '/'
        invariant
            j <= v@.len(),
            strip_trailing_slashes(v@.take(j as int)) == strip_trailing_slashes(v@),
        decreases j,
    {
        assert(v@.take(j as int).drop_last() =~= v@.take(j - 1));
        j -= 1;
    }
    let r = text::subrange_of(v, 0, j);
    assert(r@ =~= v@.take(j as int));
    r
}

/// The request path of a library path: `/` for the root, else the path
/// with its leading slashes replaced by a single one.
pub open spec fn request_path(path: Seq<char>) -> Seq<char> {
    if path.len() == 0 {
        seq!['/']
    } else {
        seq!['/'] + strip_leading_slashes(path)
    }
}

/// The request path of a library path.
pub fn make_path(path: &str) -> (r: String)
    ensures
        r@ == request_path(path@),
{
    let v = text::chars_of(path);
    let mut out: Vec<char> = Vec::new();
    out.push('/');
    if v.len() > 0 {
        text::append_chars(&mut out, &strip_leading(&v));
    }
    assert(out@ =~= request_path(path@));
    text::string_from_chars(&out)
}

/// A request path starts with exactly one `/`, and making a request path of
/// a request path changes nothing.
pub proof fn lemma_request_path_canonical(path: Seq<char>)
    ensures
        request_path(path).len() > 0 && request_path(path)[0] == '/',
        request_path(path).len() > 1 ==> request_path(path)[1] != '/',
        request_path(request_path(path)) == request_path(path),
{
    lemma_strip_leading(path);
    let r = request_path(path);
    if path.len() == 0 {
        assert(r.drop_first() =~= Seq::<char>::empty());
        assert(strip_leading_slashes(r) =~= Seq::<char>::empty()) by {
            assert(strip_leading_slashes(r) == strip_leading_slashes(r.drop_first()));
        }
    } else {
        let s = strip_leading_slashes(path);
        assert(r.drop_first() =~= s);
        assert(strip_leading_slashes(r) == strip_leading_slashes(s));
        lemma_strip_leading(s);
    }
}

proof fn lemma_strip_leading(s: Seq<char>)
    ensures
        strip_leading_slashes(s).len() > 0 ==> strip_leading_slashes(s)[0] != '/',
        strip_leading_slashes(strip_leading_slashes(s)) == strip_leading_slashes(s),
    decreases s.len(),
{
    if s.len() > 0 && s[0] == '/' {
        lemma_strip_leading(s.drop_first());
    }
}

/// A failure that is not worth retrying: the error names status 401, 403 or
/// 404, or says `Unauthorized` or `Forbidden`.
pub open spec fn permanent_failure(error: Seq<char>) -> bool {
    text::has_infix(error, "status: 401"@) || text::has_infix(error, "status: 403"@)
        || text::has_infix(error, "status: 404"@) || text::has_infix(error, "Unauthorized"@)
        || text::has_infix(error, "Forbidden"@)
}

/// Whether a failure, given by the debug text of its error, may pass when
/// retried: every failure but clear client errors.
pub fn is_transient_error(error: &str) -> (r: bool)
    ensures
        r == !permanent_failure(error@),
{
    let v = text::chars_of(error);
    !(text::contains(&v, &text::chars_of("status: 401")) || text::contains(
        &v,
        &text::chars_of("status: 403"),
    ) || text::contains(&v, &text::chars_of("status: 404")) || text::contains(
        &v,
        &text::chars_of("Unauthorized"),
    ) || text::contains(&v, &text::chars_of("Forbidden")))
}

/// Whether a failed attempt (counted from 1) is retried: when attempts are
/// left and the failure is transient.
pub fn should_retry(attempt: u32, max_attempts: u32, transient: bool) -> (r: bool)
    ensures
        r == (attempt < max_attempts && transient),
{
    attempt < max_attempts && transient
}

/// The href in the debug text of a listing entry: what follows `href: "`
/// up to the next `"` (nothing when there is none).
pub open spec fn href_of(debug: Seq<char>) -> Option<Seq<char>> {
    let tag = "href: \""@;
    if exists|i: int| text::occurs_at(debug, tag, i) {
        let i = choose|i: int| text::occurs_at(debug, tag, i) && forall|k: int| 0 <= k < i ==> !text::occurs_at(debug, tag, k);
        let start = i + tag.len();
        let rest = debug.skip(start);
        match text::first_index_of(rest, '"') {
            Some(e) => Some(rest.take(e)),
            None => Some(seq![]),
        }
    } else {
        None
    }
}

/// The last `/`-separated piece of `s`.
pub open spec fn last_piece(s: Seq<char>) -> Seq<char> {
    let p = paths::pieces_from(s, 0);
    p.last()
}

/// The name of an entry from its href: the last piece of the href with its
/// trailing slashes removed (and its leading ones too when it is not a
/// full URL), percent-decoded when that gives valid text.
pub open spec fn entry_name_of(href: Seq<char>) -> Seq<char> {
    let trimmed = if text::has_prefix(href, "http"@) {
        strip_trailing_slashes(href)
    } else {
        strip_leading_slashes(strip_trailing_slashes(href))
    };
    let name = last_piece(trimmed);
    match thirdparty::url_decoded(name) {
        Some(d) => d,
        None => name,
    }
}

/// The entry at position `index` of a listing of `parent`: its path and
/// whether it is a folder. Listing a folder other than the root puts the
/// folder itself first, which is left out; an entry without href is too.
pub open spec fn listing_entry_of(debug: Seq<char>, parent: Seq<char>, index: int) -> Option<
    (Seq<char>, bool),
> {
    if parent.len() != 0 && index == 0 {
        None
    } else {
        match href_of(debug) {
            None => None,
            Some(href) => {
                let name = entry_name_of(href);
                let path = if parent.len() == 0 { name } else { paths::path_join(parent, name) };
                Some((path, text::has_infix(debug, "Folder"@)))
            },
        }
    }
}

fn find_sub(s: &Vec<char>, p: &Vec<char>) -> (r: Option<usize>)
    requires
        p@.len() > 0,
    ensures
        match r {
            Some(i) => text::occurs_at(s@, p@, i as int) && forall|k: int| 0 <= k < i ==> !text::occurs_at(s@, p@, k),
            None => forall|k: int| !text::occurs_at(s@, p@, k),
        },
{
    if p.len() > s.len() {
        return None;
    }
    let mut i: usize = 0;
    while i <= s.len() - p.len()
        invariant
            1 <= p@.len() <= s@.len(),
            forall|k: int| 0 <= k < i ==> !text::occurs_at(s@, p@, k),
        decreases s@.len() - i,
    {
        let mut k: usize = 0;
        let mut ok = true;
        assert(i + p@.len() <= s@.len());
        while k < p.len()
            invariant
                k <= p@.len(),
                i + p@.len() <= s@.len(),
                s@.len() == s.len(),
                ok == forall|m: int| 0 <= m < k ==> s@[i + m] == p@[m],
            decreases p@.len() - k,
        {
            if s[i + k] != p[k] {
                ok = false;
            }
            k += 1;
        }
        if ok {
            assert(s@.subrange(i as int, i + p@.len()) =~= p@);
            return Some(i);
        } else {
            assert(!text::occurs_at(s@, p@, i as int)) by {
                let m = choose|m: int| 0 <= m < p@.len() && s@[i + m] != p@[m];
                assert(s@.subrange(i as int, i + p@.len())[m] == s@[i + m]);
            }
        }
        i += 1;
    }
    None
}

fn href_text(dv: &Vec<char>) -> (r: Option<Vec<char>>)
    ensures
        match r {
            Some(h) => href_of(dv@) == Some(h@),
            None => href_of(dv@) is None,
        },
{
    let tag = text::chars_of("href: \"");
    proof {
        reveal_strlit("href: \"");
    }
    let i = match find_sub(dv, &tag) {
        Some(i) => i,
        None => {
            return None;
        },
    };
    proof {
        let w = choose|j: int| text::occurs_at(dv@, tag@, j) && forall|k: int| 0 <= k < j ==> !text::occurs_at(dv@, tag@, k);
        if w < i {
        } else if w > i {
        }
        assert(w == i);
    }
    assert(dv@.len() == dv.len());
    assert(i + tag@.len() <= dv@.len());
    let start = i + tag.len();
    let rest = text::subrange_of(dv, start, dv.len());
    assert(rest@ =~= dv@.skip(start as int));
    match text::find_char(&rest, '"') {
        Some(e) => {
            let h = text::subrange_of(&rest, 0, e);
            assert(h@ =~= rest@.take(e as int));
            Some(h)
        },
        None => Some(Vec::new()),
    }
}

/// Reads the entry at position `index` of a listing of `parent` from the
/// debug text of the listing entry.
pub fn listing_entry(debug: &str, parent: &str, index: usize) -> (r: Option<(String, bool)>)
    ensures
        match r {
            Some((p, d)) => listing_entry_of(debug@, parent@, index as int) == Some((p@, d)),
            None => listing_entry_of(debug@, parent@, index as int) is None,
        },
{
    let pv = text::chars_of(parent);
    if pv.len() != 0 && index == 0 {
        return None;
    }
    let dv = text::chars_of(debug);
    let is_dir = text::contains(&dv, &text::chars_of("Folder"));
    let href = match href_text(&dv) {
        Some(h) => h,
        None => {
            return None;
        },
    };
    let trimmed = if text::starts_with(&href, &text::chars_of("http")) {
        strip_trailing(&href)
    } else {
        strip_leading(&strip_trailing(&href))
    };
    let pieces = paths::split_slashes(&trimmed);
    proof {
        lemma_pieces_nonempty(trimmed@);
    }
    let name = text::copy_chars(&pieces[pieces.len() - 1]);
    assert(name@ == last_piece(trimmed@));
    let name_s = text::string_from_chars(&name);
    let decoded = match thirdparty::url_decode(name_s.as_str()) {
        Some(d) => d,
        None => name_s,
    };
    let path = if pv.len() == 0 {
        decoded
    } else {
        paths::join_path(parent, decoded.as_str())
    };
    Some((path, is_dir))
}

proof fn lemma_pieces_nonempty(s: Seq<char>)
    ensures
        paths::pieces_from(s, 0).len() > 0,
{
    paths::lemma_next_slash(s, 0);
}

/// The folders that creating `path` creates one after the other: each
/// prefix of its components, as a request path.
pub open spec fn prefix_paths(components: Seq<Seq<char>>) -> Seq<Seq<char>>
    decreases components.len(),
{
    if components.len() == 0 {
        seq![]
    } else {
        prefix_paths(components.drop_last()).push(request_path(paths::joined_components(components)))
    }
}

/// The folders that creating the folder `path` makes sure of, in order.
pub fn directory_prefixes(path: &str) -> (r: Vec<String>)
    ensures
        text::str_views(r@) == prefix_paths(paths::components(path@)),
{
    let comps = paths::path_components(path);
    let ghost c = text::views(comps@);
    let mut current = String::new();
    let mut out: Vec<String> = Vec::new();
    let mut i: usize = 0;
    while i < comps.len()
        invariant
            i <= comps@.len(),
            c == text::views(comps@),
            current@ == paths::joined_components(c.take(i as int)),
            text::str_views(out@) == prefix_paths(c.take(i as int)),
        decreases comps@.len() - i,
    {
        assert(c.take(i + 1).drop_last() =~= c.take(i as int));
        assert(c.take(i + 1).last() == comps@[i as int]@);
        current = paths::join_path(current.as_str(), text::string_from_chars(&comps[i]).as_str());
        let ghost before = text::str_views(out@);
        out.push(make_path(current.as_str()));
        assert(text::str_views(out@) =~= before.push(request_path(current@)));
        i += 1;
    }
    assert(c.take(comps@.len() as int) =~= c);
    out
}

/// The folder that writing a file at `path` first creates: the path
/// without its last component, when that leaves something.
pub open spec fn parent_folder_of(path: Seq<char>) -> Option<Seq<char>> {
    let c = paths::components(path);
    if c.len() <= 1 {
        None
    } else {
        Some(paths::joined_components(c.drop_last()))
    }
}

/// The folder to create before a file is written at `path`
/// (`Path::parent`, when it is not empty).
pub fn parent_folder(path: &str) -> (r: Option<String>)
    ensures
        match r {
            Some(p) => parent_folder_of(path@) == Some(p@),
            None => parent_folder_of(path@) is None,
        },
{
    let comps = paths::path_components(path);
    if comps.len() <= 1 {
        return None;
    }
    let n = comps.len() - 1;
    let r = paths::join_components(&comps, 0, n);
    assert(text::views(comps@).subrange(0, n as int) =~= text::views(comps@).drop_last());
    Some(r)
}

/// The name of this kind of storage, for display.
pub fn storage_type() -> (r: &'static str)
    ensures
        r@ == "WebDAV"@,
{
    "WebDAV"
}

/// Whether `url` is accepted as the address of a WebDAV server: it parses
/// as an absolute URL.
pub fn webdav_url_valid(url: &str) -> (r: bool)
    ensures
        r == (thirdparty::url_host(url@) is Some),
{
    match thirdparty::parse_url_host(url) {
        Ok(_) => true,
        Err(_) => false,
    }
}

} // verus!
