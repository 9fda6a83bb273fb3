//! What the commands decide: which collection items a filter keeps and in
//! which order they are listed, how rows are printed, how many download
//! workers run, which storage is used, and how a multi-disc CD import
//! proceeds.

use vstd::prelude::*;
use crate::text;
use crate::bandcamp::models::CollectionItem;
use crate::paths;
use crate::cd::models::{CDAlbum, CDToc, CDTrack, copy_tracks, same_album};
use crate::cd::reader::CDTextInfo;
use crate::thirdparty;

verus! {

/// Filters of `list`, `diff` and `sync`.
pub struct FilterOptions {
    /// Keep only artists whose name holds this text (any case).
    pub artist_filter: Option<String>,
    /// Drop artists whose name holds this text (any case); ignored when
    /// `artist_filter` is given.
    pub exclude_artist: Option<String>,
    /// Keep only items whose title or album title holds this text (any case).
    pub album_filter: Option<String>,
}

/// `needle`, lowercased, occurs in `hay`, lowercased.
pub open spec fn holds_ci(hay: Seq<char>, needle: Seq<char>) -> bool {
    text::has_infix(text::lowercase(hay), text::lowercase(needle))
}

/// The item passes the artist filters.
pub open spec fn artist_passes(item: CollectionItem, f: FilterOptions) -> bool {
    match f.artist_filter {
        Some(a) => holds_ci(item.band_name@, a@),
        None => match f.exclude_artist {
            Some(e) => !holds_ci(item.band_name@, e@),
            None => true,
        },
    }
}

/// The item passes the album filter.
pub open spec fn album_passes(item: CollectionItem, f: FilterOptions) -> bool {
    match f.album_filter {
        Some(al) => holds_ci(item.item_title@, al@) || match item.album_title {
            Some(t) => holds_ci(t@, al@),
            None => false,
        },
        None => true,
    }
}

/// The item passes all filters.
pub open spec fn passes(item: CollectionItem, f: FilterOptions) -> bool {
    artist_passes(item, f) && album_passes(item, f)
}

/// The positions of the items of `items` that pass `f`, in order.
pub open spec fn selected(items: Seq<CollectionItem>, f: FilterOptions) -> Seq<usize>
    decreases items.len(),
{
    if items.len() == 0 {
        seq![]
    } else {
        let before = selected(items.drop_last(), f);
        if passes(items.last(), f) {
            before.push((items.len() - 1) as usize)
        } else {
            before
        }
    }
}

fn contains_ci(hay: &str, needle_lower: &Vec<char>) -> (r: bool)
    ensures
        r == text::has_infix(text::lowercase(hay@), needle_lower@),
{
    let h = text::chars_of(text::to_lowercase(hay).as_str());
    text::contains(&h, needle_lower)
}

fn lower_chars(s: &Option<String>) -> (r: Option<Vec<char>>)
    ensures
        match *s {
            Some(x) => r matches Some(v) && v@ == text::lowercase(x@),
            None => r is None,
        },
{
    match s {
        Some(x) => Some(text::chars_of(text::to_lowercase(x.as_str()).as_str())),
        None => None,
    }
}

/// Whether an item passes the filters.
pub fn item_passes(item: &CollectionItem, f: &FilterOptions) -> (r: bool)
    ensures
        r == passes(*item, *f),
{
    let artist = lower_chars(&f.artist_filter);
    let exclude = lower_chars(&f.exclude_artist);
    let album = lower_chars(&f.album_filter);
    let artist_ok = match &artist {
        Some(a) => contains_ci(item.band_name.as_str(), a),
        None => match &exclude {
            Some(e) => !contains_ci(item.band_name.as_str(), e),
            None => true,
        },
    };
    let album_ok = match &album {
        Some(al) => contains_ci(item.item_title.as_str(), al) || match &item.album_title {
            Some(t) => contains_ci(t.as_str(), al),
            None => false,
        },
        None => true,
    };
    artist_ok && album_ok
}

/// The positions of the items that pass the filters, in collection order.
pub fn filter_collection(items: &Vec<CollectionItem>, f: &FilterOptions) -> (r: Vec<usize>)
    ensures
        r@ == selected(items@, *f),
{
    let mut out: Vec<usize> = Vec::new();
    let mut i: usize = 0;
    while i < items.len()
        invariant
            i <= items@.len(),
            out@ == selected(items@.take(i as int), *f),
        decreases items@.len() - i,
    {
        assert(items@.take(i + 1).drop_last() =~= items@.take(i as int));
        assert(items@.take(i + 1).last() == items@[i as int]);
        if item_passes(&items[i], f) {
            out.push(i);
        }
        i += 1;
    }
    assert(items@.take(items@.len() as int) =~= items@);
    out
}

/// Two optional texts that are both absent, or both present and equal
/// once lowercased.
pub open spec fn same_lowercase(a: Option<String>, b: Option<String>) -> bool {
    match (a, b) {
        (Some(x), Some(y)) => text::lowercase(x@) == text::lowercase(y@),
        (None, None) => true,
        _ => false,
    }
}

/// Filtering ignores case: filters whose texts are equal once lowercased,
/// applied to items whose artist, title and album title are equal once
/// lowercased, keep or drop them alike (`--album Computer` and
/// `--album computer` select the same items).
pub proof fn lemma_filters_ignore_case(
    item: CollectionItem,
    other: CollectionItem,
    f: FilterOptions,
    g: FilterOptions,
)
    requires
        same_lowercase(f.artist_filter, g.artist_filter),
        same_lowercase(f.exclude_artist, g.exclude_artist),
        same_lowercase(f.album_filter, g.album_filter),
        text::lowercase(item.band_name@) == text::lowercase(other.band_name@),
        text::lowercase(item.item_title@) == text::lowercase(other.item_title@),
        same_lowercase(item.album_title, other.album_title),
    ensures
        passes(item, f) == passes(other, g),
{
}

/// What the filters keep, in terms of lowercased text: an item is kept when
/// its artist holds the artist filter (or, with no artist filter, does not
/// hold the excluded text), and its title or album title holds the album
/// filter; an absent filter keeps everything.
pub proof fn lemma_filter_meaning(item: CollectionItem, f: FilterOptions)
    ensures
        passes(item, f) == ((if f.artist_filter is Some {
            text::has_infix(text::lowercase(item.band_name@), text::lowercase(f.artist_filter->0@))
        } else if f.exclude_artist is Some {
            !text::has_infix(text::lowercase(item.band_name@), text::lowercase(f.exclude_artist->0@))
        } else {
            true
        }) && (if f.album_filter is Some {
            text::has_infix(text::lowercase(item.item_title@), text::lowercase(f.album_filter->0@)) || (
            item.album_title is Some && text::has_infix(
                text::lowercase(item.album_title->0@),
                text::lowercase(f.album_filter->0@),
            ))
        } else {
            true
        })),
{
}

/// With only an album filter, an item is kept exactly when the filter text
/// occurs in its title or its album title, both sides lowercased.
pub proof fn lemma_album_filter_substring(item: CollectionItem, f: FilterOptions)
    requires
        f.artist_filter is None,
        f.exclude_artist is None,
        f.album_filter is Some,
    ensures
        passes(item, f) == (text::has_infix(
            text::lowercase(item.item_title@),
            text::lowercase(f.album_filter->0@),
        ) || (item.album_title is Some && text::has_infix(
            text::lowercase(item.album_title->0@),
            text::lowercase(f.album_filter->0@),
        ))),
{
}

/// With the same text given once to include and once to exclude artists,
/// every item is kept by exactly one of the two filters.
pub proof fn lemma_include_exclude_partition(item: CollectionItem, pattern: String)
    ensures
        artist_passes(
            item,
            FilterOptions { artist_filter: Some(pattern), exclude_artist: None, album_filter: None },
        ) != artist_passes(
            item,
            FilterOptions { artist_filter: None, exclude_artist: Some(pattern), album_filter: None },
        ),
{
}

/// The positions that `selected` gives are increasing and lie within the
/// collection, and exactly the items that pass appear.
pub proof fn lemma_selected(items: Seq<CollectionItem>, f: FilterOptions)
    requires
        items.len() <= usize::MAX,
    ensures
        forall|a: int, b: int|
            0 <= a < b < selected(items, f).len() ==> selected(items, f)[a] < selected(items, f)[b],
        forall|a: int| 0 <= a < selected(items, f).len() ==> selected(items, f)[a] < items.len()
            && passes(items[selected(items, f)[a] as int], f),
        forall|i: int| 0 <= i < items.len() && passes(items[i], f) ==> selected(items, f).contains(i as usize),
    decreases items.len(),
{
    if items.len() > 0 {
        let d = items.drop_last();
        lemma_selected(d, f);
        let before = selected(d, f);
        let s = selected(items, f);
        assert forall|a: int, b: int| 0 <= a < b < s.len() implies s[a] < s[b] by {
            if b < before.len() {
            } else {
                assert(s[b] == (items.len() - 1) as usize);
                assert(s[a] == before[a]);
            }
        }
        assert forall|a: int| 0 <= a < selected(items, f).len() implies selected(items, f)[a] < items.len()
            && passes(items[selected(items, f)[a] as int], f) by {
            if a < before.len() {
                assert(s[a] == before[a]);
                assert(items[before[a] as int] == d[before[a] as int]);
            } else {
                assert(s[a] == (items.len() - 1) as usize);
                assert(items[items.len() - 1] == items.last());
            }
        }
        assert forall|i: int| 0 <= i < items.len() && passes(items[i], f) implies selected(items, f).contains(i as usize) by {
            if i < d.len() {
                assert(d[i] == items[i]);
                let w = choose|w: int| 0 <= w < before.len() && before[w] == i as usize;
                assert(selected(items, f)[w] == i as usize);
            } else {
                let s = selected(items, f);
                assert(s[s.len() - 1] == i as usize);
            }
        }
    }
}

/// `a` comes before `b` in the order of `String`'s `cmp`: character by
/// character, a proper prefix first.
pub open spec fn seq_lt(a: Seq<char>, b: Seq<char>) -> bool
    decreases a.len(),
{
    if b.len() == 0 {
        false
    } else if a.len() == 0 {
        true
    } else if a[0] < b[0] {
        true
    } else if a[0] == b[0] {
        seq_lt(a.drop_first(), b.drop_first())
    } else {
        false
    }
}

pub proof fn lemma_seq_lt_order(a: Seq<char>, b: Seq<char>, c: Seq<char>)
    ensures
        !seq_lt(a, a),
        !(seq_lt(a, b) && seq_lt(b, a)),
        a != b ==> seq_lt(a, b) || seq_lt(b, a),
        seq_lt(a, b) && seq_lt(b, c) ==> seq_lt(a, c),
    decreases a.len(),
{
    if a.len() > 0 {
        lemma_seq_lt_order(a.drop_first(), a.drop_first(), a.drop_first());
        if b.len() > 0 {
            lemma_seq_lt_order(a.drop_first(), b.drop_first(), c.drop_first());
            if a != b && a[0] == b[0] {
                assert(a.drop_first() != b.drop_first()) by {
                    if a.drop_first() == b.drop_first() {
                        assert(a =~= seq![a[0]] + a.drop_first());
                        assert(b =~= seq![b[0]] + b.drop_first());
                    }
                }
            }
            if c.len() > 0 && a[0] == b[0] && b[0] == c[0] {
            }
        }
    } else if b.len() > 0 {
    } else {
        assert(a =~= b);
    }
}

/// `x` sorts before `y` by artist, then title.
pub open spec fn key_lt(x: CollectionItem, y: CollectionItem) -> bool {
    seq_lt(x.band_name@, y.band_name@) || (x.band_name@ == y.band_name@ && seq_lt(
        x.item_title@,
        y.item_title@,
    ))
}

/// Position `i` is listed before position `j`: by artist, then title, and
/// items with the same artist and title in collection order (a stable sort).
pub open spec fn listed_before(items: Seq<CollectionItem>, i: usize, j: usize) -> bool {
    key_lt(items[i as int], items[j as int]) || (!key_lt(items[j as int], items[i as int]) && i < j)
}

pub proof fn lemma_listed_before_order(items: Seq<CollectionItem>, i: usize, j: usize, k: usize)
    ensures
        !listed_before(items, i, i),
        !(listed_before(items, i, j) && listed_before(items, j, i)),
        i != j ==> listed_before(items, i, j) || listed_before(items, j, i),
        listed_before(items, i, j) && listed_before(items, j, k) ==> listed_before(items, i, k),
{
    let x = items[i as int];
    let y = items[j as int];
    let z = items[k as int];
    lemma_seq_lt_order(x.band_name@, y.band_name@, z.band_name@);
    lemma_seq_lt_order(y.band_name@, z.band_name@, x.band_name@);
    lemma_seq_lt_order(z.band_name@, x.band_name@, y.band_name@);
    lemma_seq_lt_order(x.band_name@, z.band_name@, y.band_name@);
    lemma_seq_lt_order(y.band_name@, x.band_name@, z.band_name@);
    lemma_seq_lt_order(z.band_name@, y.band_name@, x.band_name@);
    lemma_seq_lt_order(x.item_title@, y.item_title@, z.item_title@);
    lemma_seq_lt_order(y.item_title@, z.item_title@, x.item_title@);
    lemma_seq_lt_order(z.item_title@, x.item_title@, y.item_title@);
    lemma_seq_lt_order(x.item_title@, z.item_title@, y.item_title@);
    lemma_seq_lt_order(y.item_title@, x.item_title@, z.item_title@);
    lemma_seq_lt_order(z.item_title@, y.item_title@, x.item_title@);
}

fn chars_lt(a: &Vec<char>, b: &Vec<char>) -> (r: bool)
    ensures
        r == seq_lt(a@, b@),
{
    let mut k: usize = 0;
    assert(a@.skip(0) =~= a@);
    assert(b@.skip(0) =~= b@);
    loop
        invariant
            k <= a@.len(),
            k <= b@.len(),
            seq_lt(a@, b@) == seq_lt(a@.skip(k as int), b@.skip(k as int)),
        decreases a@.len() - k,
    {
        if k == b.len() {
            return false;
        }
        if k == a.len() {
            return true;
        }
        assert(a@.skip(k as int)[0] == a@[k as int]);
        assert(b@.skip(k as int)[0] == b@[k as int]);
        if a[k] < b[k] {
            return true;
        }
        if a[k] != b[k] {
            return false;
        }
        assert(a@.skip(k as int).drop_first() =~= a@.skip(k + 1));
        assert(b@.skip(k as int).drop_first() =~= b@.skip(k + 1));
        k += 1;
    }
}

fn insertion_point(
    items: &Vec<CollectionItem>,
    bands: &Vec<Vec<char>>,
    titles: &Vec<Vec<char>>,
    r: &Vec<usize>,
    x: usize,
) -> (p: usize)
    requires
        bands@.len() == items@.len(),
        titles@.len() == items@.len(),
        forall|k: int| 0 <= k < items@.len() ==> (#[trigger] bands@[k])@ == items@[k].band_name@,
        forall|k: int| 0 <= k < items@.len() ==> (#[trigger] titles@[k])@ == items@[k].item_title@,
        x < items@.len(),
        forall|a: int| 0 <= a < r@.len() ==> r@[a] < items@.len(),
    ensures
        p <= r@.len(),
        forall|q: int| 0 <= q < p ==> !listed_before(items@, x, #[trigger] r@[q]),
        p < r@.len() ==> listed_before(items@, x, r@[p as int]),
{
    let mut p: usize = 0;
    while p < r.len()
        invariant
            p <= r@.len(),
            bands@.len() == items@.len(),
            titles@.len() == items@.len(),
            forall|k: int| 0 <= k < items@.len() ==> (#[trigger] bands@[k])@ == items@[k].band_name@,
            forall|k: int| 0 <= k < items@.len() ==> (#[trigger] titles@[k])@ == items@[k].item_title@,
            x < items@.len(),
            forall|a: int| 0 <= a < r@.len() ==> r@[a] < items@.len(),
            forall|q: int| 0 <= q < p ==> !listed_before(items@, x, #[trigger] r@[q]),
        decreases r@.len() - p,
    {
        let y = r[p];
        let kx_lt_ky = chars_lt(&bands[x], &bands[y]) || (text::chars_eq(&bands[x], &bands[y])
            && chars_lt(&titles[x], &titles[y]));
        let ky_lt_kx = chars_lt(&bands[y], &bands[x]) || (text::chars_eq(&bands[y], &bands[x])
            && chars_lt(&titles[y], &titles[x]));
        let before = kx_lt_ky || (!ky_lt_kx && x < y);
        assert(before == listed_before(items@, x, y));
        if before {
            return p;
        }
        p += 1;
    }
    p
}

/// The positions `selection` of `items` in listing order: by artist, then
/// title, equal ones in collection order.
pub fn sort_collection(items: &Vec<CollectionItem>, selection: &Vec<usize>) -> (r: Vec<usize>)
    requires
        forall|a: int| 0 <= a < selection@.len() ==> selection@[a] < items@.len(),
        forall|a: int, b: int| 0 <= a < b < selection@.len() ==> selection@[a] != selection@[b],
    ensures
        r@.len() == selection@.len(),
        forall|a: int| 0 <= a < r@.len() ==> selection@.contains(#[trigger] r@[a]),
        forall|a: int| 0 <= a < selection@.len() ==> r@.contains(#[trigger] selection@[a]),
        forall|a: int, b: int| 0 <= a < b < r@.len() ==> listed_before(items@, r@[a], r@[b]),
{
    let mut bands: Vec<Vec<char>> = Vec::new();
    let mut titles: Vec<Vec<char>> = Vec::new();
    let mut j: usize = 0;
    while j < items.len()
        invariant
            j <= items@.len(),
            bands@.len() == j,
            titles@.len() == j,
            forall|k: int| 0 <= k < j ==> (#[trigger] bands@[k])@ == items@[k].band_name@,
            forall|k: int| 0 <= k < j ==> (#[trigger] titles@[k])@ == items@[k].item_title@,
        decreases items@.len() - j,
    {
        bands.push(text::chars_of(items[j].band_name.as_str()));
        titles.push(text::chars_of(items[j].item_title.as_str()));
        j += 1;
    }
    let mut r: Vec<usize> = Vec::new();
    let mut i: usize = 0;
    while i < selection.len()
        invariant
            i <= selection@.len(),
            bands@.len() == items@.len(),
            titles@.len() == items@.len(),
            forall|k: int| 0 <= k < items@.len() ==> (#[trigger] bands@[k])@ == items@[k].band_name@,
            forall|k: int| 0 <= k < items@.len() ==> (#[trigger] titles@[k])@ == items@[k].item_title@,
            forall|a: int| 0 <= a < selection@.len() ==> selection@[a] < items@.len(),
            forall|a: int, b: int| 0 <= a < b < selection@.len() ==> selection@[a] != selection@[b],
            r@.len() == i,
            forall|a: int| 0 <= a < r@.len() ==> r@[a] < items@.len(),
            forall|a: int| 0 <= a < r@.len() ==> exists|m: int| 0 <= m < i && selection@[m] == #[trigger] r@[a],
            forall|m: int| 0 <= m < i ==> r@.contains(#[trigger] selection@[m]),
            forall|a: int, b: int| 0 <= a < b < r@.len() ==> listed_before(items@, r@[a], r@[b]),
        decreases selection@.len() - i,
    {
        let x = selection[i];
        let p = insertion_point(items, &bands, &titles, &r, x);
        proof {
            assert forall|a: int| 0 <= a < r@.len() implies r@[a] != x by {
                let m = choose|m: int| 0 <= m < i && selection@[m] == r@[a];
                assert(selection@[m] != selection@[i as int]);
            }
        }
        let ghost old_r = r@;
        r.insert(p, x);
        proof {
            assert(r@ =~= old_r.take(p as int).push(x) + old_r.skip(p as int));
            assert forall|a: int, b: int| 0 <= a < b < r@.len() implies listed_before(items@, r@[a], r@[b]) by {
                if b == p {
                    assert(r@[a] == old_r[a]);
                    assert(r@[b] == x);
                    assert(!listed_before(items@, x, old_r[a]));
                    lemma_listed_before_order(items@, old_r[a], x, x);
                } else if a == p {
                    let y = old_r[b - 1];
                    assert(r@[a] == x);
                    assert(r@[b] == y);
                    assert(listed_before(items@, x, old_r[p as int]));
                    lemma_listed_before_order(items@, x, old_r[p as int], y);
                    if b - 1 > p {
                        assert(listed_before(items@, old_r[p as int], y));
                    }
                } else if a < p && b > p {
                    assert(r@[a] == old_r[a]);
                    assert(r@[b] == old_r[b - 1]);
                } else if a > p {
                    assert(r@[a] == old_r[a - 1]);
                    assert(r@[b] == old_r[b - 1]);
                } else {
                    assert(r@[a] == old_r[a]);
                    assert(r@[b] == old_r[b]);
                }
            }
            assert forall|a: int| 0 <= a < r@.len() implies exists|m: int| 0 <= m < i + 1 && selection@[m] == #[trigger] r@[a] by {
                if a < p {
                    assert(r@[a] == old_r[a]);
                } else if a == p {
                    assert(selection@[i as int] == r@[a]);
                } else {
                    assert(r@[a] == old_r[a - 1]);
                }
            }
            assert forall|m: int| 0 <= m < i + 1 implies r@.contains(#[trigger] selection@[m]) by {
                if m < i {
                    let w = choose|w: int| 0 <= w < old_r.len() && old_r[w] == selection@[m];
                    if w < p {
                        assert(r@[w] == old_r[w]);
                    } else {
                        assert(r@[w + 1] == old_r[w]);
                    }
                } else {
                    assert(r@[p as int] == x);
                }
            }
        }
        i += 1;
    }
    proof {
        assert forall|a: int| 0 <= a < r@.len() implies selection@.contains(#[trigger] r@[a]) by {
            let m = choose|m: int| 0 <= m < i && selection@[m] == r@[a];
        }
    }
    r
}

/// `s` as a table cell of at most `max` characters: when longer, its first
/// `keep` characters and `...`.
pub open spec fn cell_text(s: Seq<char>, max: nat, keep: nat) -> Seq<char> {
    if s.len() > max {
        s.take(keep as int) + "..."@
    } else {
        s
    }
}

/// Cuts `s` for a table cell.
pub fn table_cell(s: &str, max: usize, keep: usize) -> (r: String)
    requires
        keep <= max,
    ensures
        r@ == cell_text(s@, max as nat, keep as nat),
{
    let v = text::chars_of(s);
    if v.len() > max {
        let mut t = text::subrange_of(&v, 0, keep);
        assert(t@ =~= v@.take(keep as int));
        text::append_str(&mut t, "...");
        text::string_from_chars(&t)
    } else {
        s.to_string()
    }
}

/// The artist and album cells of an item in the `list` table: artists
/// longer than 38 characters cut to 35, titles longer than 33 cut to 30.
pub fn table_row(item: &CollectionItem) -> (r: (String, String))
    ensures
        r.0@ == cell_text(item.band_name@, 38, 35),
        r.1@ == cell_text(item.item_title@, 33, 30),
{
    (table_cell(item.band_name.as_str(), 38, 35), table_cell(item.item_title.as_str(), 33, 30))
}

/// A CSV row of `list`: artist, album, type and URL, with the commas of the
/// artist and album written as `;`.
pub open spec fn csv_row_of(item: CollectionItem) -> Seq<char> {
    text::replace_char_spec(item.band_name@, ',', ';') + seq![','] + text::replace_char_spec(
        item.item_title@,
        ',',
        ';',
    ) + seq![','] + item.item_type@ + seq![','] + item.item_url@
}

/// The CSV row of an item.
pub fn csv_row(item: &CollectionItem) -> (r: String)
    ensures
        r@ == csv_row_of(*item),
{
    let mut v = text::replace_char(&text::chars_of(item.band_name.as_str()), ',', ';');
    v.push(',');
    text::append_chars(&mut v, &text::replace_char(&text::chars_of(item.item_title.as_str()), ',', ';'));
    v.push(',');
    text::append_str(&mut v, item.item_type.as_str());
    v.push(',');
    text::append_str(&mut v, item.item_url.as_str());
    text::string_from_chars(&v)
}

/// How many download workers `sync` runs: none with `--no-parallel`, the
/// number asked for up to 6, else the CPU count between 1 and 6.
pub open spec fn workers_of(no_parallel: bool, parallel: usize, cpus: usize) -> usize {
    if no_parallel {
        0
    } else if parallel > 0 {
        if parallel < 6 { parallel } else { 6 }
    } else if cpus < 1 {
        1
    } else if cpus > 6 {
        6
    } else {
        cpus
    }
}

/// How many download workers run, given the CPU count.
pub fn parallel_workers(no_parallel: bool, parallel: usize, cpus: usize) -> (r: usize)
    ensures
        r == workers_of(no_parallel, parallel, cpus),
        r <= 6,
{
    if no_parallel {
        0
    } else if parallel > 0 {
        if parallel < 6 { parallel } else { 6 }
    } else if cpus < 1 {
        1
    } else if cpus > 6 {
        6
    } else {
        cpus
    }
}

/// How many download workers run: the CPU count is read only when neither
/// option decides. Without `--no-parallel` at least one worker runs.
pub fn download_workers(no_parallel: bool, parallel: usize) -> (r: usize)
    ensures
        r <= 6,
        no_parallel ==> r == 0,
        !no_parallel && parallel > 0 ==> r == workers_of(no_parallel, parallel, 0),
        !no_parallel ==> r >= 1,
{
    if no_parallel || parallel > 0 {
        parallel_workers(no_parallel, parallel, 0)
    } else {
        parallel_workers(no_parallel, parallel, thirdparty::cpu_count())
    }
}

/// The storage that a command writes to.
#[derive(Debug, PartialEq, Eq)]
pub enum StorageTarget {
    Webdav(String),
    Local(String),
}

/// Why no storage could be chosen.
#[derive(Debug, PartialEq, Eq, Structural)]
pub enum StorageChoiceError {
    /// Neither `--webdav-url` nor `--local-path` was given.
    Missing,
    /// Both were given.
    Both,
}

/// Which storage `--webdav-url` and `--local-path` select: exactly one of
/// them must be given.
pub fn choose_storage(webdav_url: Option<String>, local_path: Option<String>) -> (r: Result<
    StorageTarget,
    StorageChoiceError,
>)
    ensures
        match (webdav_url, local_path) {
            (Some(u), None) => r == Ok::<StorageTarget, StorageChoiceError>(StorageTarget::Webdav(u)),
            (None, Some(p)) => r == Ok::<StorageTarget, StorageChoiceError>(StorageTarget::Local(p)),
            (None, None) => r == Err::<StorageTarget, StorageChoiceError>(StorageChoiceError::Missing),
            (Some(_), Some(_)) => r == Err::<StorageTarget, StorageChoiceError>(StorageChoiceError::Both),
        },
{
    match (webdav_url, local_path) {
        (Some(u), None) => Ok(StorageTarget::Webdav(u)),
        (None, Some(p)) => Ok(StorageTarget::Local(p)),
        (None, None) => Err(StorageChoiceError::Missing),
        (Some(_), Some(_)) => Err(StorageChoiceError::Both),
    }
}

/// Why an album number typed by the user is refused.
#[derive(Debug, PartialEq, Eq, Structural)]
pub enum SelectionError {
    /// Not a number.
    NotANumber,
    /// 0, or more than there are items.
    OutOfRange,
}

/// The item that a number typed by the user picks (counted from 1), among
/// `count` items; surrounding whitespace is ignored.
pub fn parse_selection(input: &str, count: usize) -> (r: Result<usize, SelectionError>)
    ensures
        match text::parse_int(text::trim(input@), false, 0, usize::MAX as int) {
            None => r == Err::<usize, SelectionError>(SelectionError::NotANumber),
            Some(n) => if n == 0 || n > count {
                r == Err::<usize, SelectionError>(SelectionError::OutOfRange)
            } else {
                r == Ok::<usize, SelectionError>((n - 1) as usize)
            },
        },
{
    let t = text::trim_chars(&text::chars_of(input));
    match text::parse_usize(&t) {
        None => Err(SelectionError::NotANumber),
        Some(n) => {
            if n == 0 || n > count {
                Err(SelectionError::OutOfRange)
            } else {
                Ok(n - 1)
            }
        },
    }
}

/// The positions of the albums of a collection (items of type `album`),
/// which `import-zip` offers.
pub fn album_positions(items: &Vec<CollectionItem>) -> (r: Vec<usize>)
    ensures
        forall|a: int| 0 <= a < r@.len() ==> r@[a] < items@.len() && items@[r@[a] as int].item_type@ == "album"@,
        forall|i: int| 0 <= i < items@.len() && items@[i].item_type@ == "album"@ ==> r@.contains(i as usize),
        forall|a: int, b: int| 0 <= a < b < r@.len() ==> r@[a] < r@[b],
{
    let mut out: Vec<usize> = Vec::new();
    let mut i: usize = 0;
    while i < items.len()
        invariant
            i <= items@.len(),
            forall|a: int| 0 <= a < out@.len() ==> out@[a] < i && items@[out@[a] as int].item_type@ == "album"@,
            forall|k: int| 0 <= k < i && items@[k].item_type@ == "album"@ ==> out@.contains(k as usize),
            forall|a: int, b: int| 0 <= a < b < out@.len() ==> out@[a] < out@[b],
        decreases items@.len() - i,
    {
        if text::str_eq(items[i].item_type.as_str(), "album") {
            let ghost before = out@;
            out.push(i);
            assert forall|k: int| 0 <= k < i + 1 && items@[k].item_type@ == "album"@ implies out@.contains(k as usize) by {
                if k < i {
                    let w = choose|w: int| 0 <= w < before.len() && before[w] == k as usize;
                    assert(out@[w] == k as usize);
                } else {
                    assert(out@[before.len() as int] == i);
                }
            }
        }
        i += 1;
    }
    out
}

/// The last component of a path when it is a name (`Path::file_name`).
pub open spec fn file_name_of(path: Seq<char>) -> Option<Seq<char>> {
    let c = paths::components(path);
    if c.len() > 0 && c.last() != seq!['/'] && c.last() != seq!['.'] && c.last() != seq!['.', '.'] {
        Some(c.last())
    } else {
        None
    }
}

/// The file name a zip entry is imported as: the last component of its
/// path, or the whole path when that is not a name. Folders, `__MACOSX`
/// entries and entries starting with `.` are skipped.
pub open spec fn zip_entry_name_of(name: Seq<char>, is_dir: bool) -> Option<Seq<char>> {
    if is_dir || text::has_prefix(name, "__MACOSX"@) || text::has_prefix(name, "."@) {
        None
    } else {
        match file_name_of(name) {
            Some(n) => Some(n),
            None => Some(name),
        }
    }
}

/// The file name a zip entry is imported as, or nothing when it is skipped.
pub fn zip_entry_name(name: &str, is_dir: bool) -> (r: Option<String>)
    ensures
        text::opt_str(r) == zip_entry_name_of(name@, is_dir),
{
    let v = text::chars_of(name);
    if is_dir || text::starts_with(&v, &text::chars_of("__MACOSX")) || text::starts_with(
        &v,
        &text::chars_of("."),
    ) {
        return None;
    }
    let c = paths::path_components(name);
    if c.len() > 0 {
        let last = &c[c.len() - 1];
        assert(text::views(c@).last() == last@);
        let is_root = last.len() == 1 && last[0] == '/';
        let is_cur = last.len() == 1 && last[0] == '.';
        let is_parent = last.len() == 2 && last[0] == '.' && last[1] == '.';
        assert(is_root == (last@ == seq!['/'])) by {
            if last@.len() == 1 && last@[0] == '/' {
                assert(last@ =~= seq!['/']);
            }
        }
        assert(is_cur == (last@ == seq!['.'])) by {
            if last@.len() == 1 && last@[0] == '.' {
                assert(last@ =~= seq!['.']);
            }
        }
        assert(is_parent == (last@ == seq!['.', '.'])) by {
            if last@.len() == 2 && last@[0] == '.' && last@[1] == '.' {
                assert(last@ =~= seq!['.', '.']);
            }
        }
        if !is_root && !is_cur && !is_parent {
            return Some(text::string_from_chars(last));
        }
    }
    Some(name.to_string())
}

/// An entry of a zip archive: its name, when the archive gives a readable
/// one, whether it is a folder, and its bytes.
pub struct ZipEntry {
    pub name: Option<String>,
    pub is_dir: bool,
    pub contents: Vec<u8>,
}

/// The view of a zip entry.
pub open spec fn zip_entry_view(e: ZipEntry) -> (Option<Seq<char>>, bool, Seq<u8>) {
    (text::opt_str(e.name), e.is_dir, e.contents@)
}

/// The files a zip import writes, in archive order: for each entry `k` that
/// is imported as `n` (see `zip_entry_name_of`), the path `n` under
/// `album_path` and `k`. Entries with no readable name are skipped.
pub open spec fn zip_uploads_of(album_path: Seq<char>, entries: Seq<ZipEntry>) -> Seq<(Seq<char>, int)>
    decreases entries.len(),
{
    if entries.len() == 0 {
        seq![]
    } else {
        let before = zip_uploads_of(album_path, entries.drop_last());
        let e = entries.last();
        match e.name {
            Some(n) => match zip_entry_name_of(n@, e.is_dir) {
                Some(m) => before.push((paths::path_join(album_path, m), entries.len() - 1)),
                None => before,
            },
            None => before,
        }
    }
}

/// The view of a planned upload.
pub open spec fn upload_view(u: (String, usize)) -> (Seq<char>, int) {
    (u.0@, u.1 as int)
}

/// The files a zip import writes under `album_path`: the path of each and
/// the position of its entry.
pub fn zip_uploads(album_path: &str, entries: &Vec<ZipEntry>) -> (r: Vec<(String, usize)>)
    ensures
        r@.map_values(|u: (String, usize)| upload_view(u)) == zip_uploads_of(album_path@, entries@),
{
    let mut out: Vec<(String, usize)> = Vec::new();
    let mut i: usize = 0;
    while i < entries.len()
        invariant
            i <= entries@.len(),
            out@.map_values(|u: (String, usize)| upload_view(u)) == zip_uploads_of(
                album_path@,
                entries@.take(i as int),
            ),
        decreases entries@.len() - i,
    {
        let e = &entries[i];
        assert(entries@.take(i + 1).drop_last() =~= entries@.take(i as int));
        assert(entries@.take(i + 1).last() == *e);
        match &e.name {
            Some(n) => match zip_entry_name(n.as_str(), e.is_dir) {
                Some(m) => {
                    let path = paths::join_path(album_path, m.as_str());
                    let ghost before = out@.map_values(|u: (String, usize)| upload_view(u));
                    out.push((path, i));
                    assert(out@.map_values(|u: (String, usize)| upload_view(u)) =~= before.push(
                        (path@, i as int),
                    ));
                },
                None => {},
            },
            None => {},
        }
        i += 1;
    }
    assert(entries@.take(entries@.len() as int) =~= entries@);
    out
}

/// A zip archive read for import under `album_path`: its entries and the
/// files to write (see `zip_uploads`); `None` when `data` is not an archive
/// that unpacks.
pub fn zip_import_plan(album_path: &str, data: &Vec<u8>) -> (r: Option<(Vec<ZipEntry>, Vec<(String, usize)>)>)
    ensures
        match r {
            Some((es, ups)) => {
                &&& thirdparty::zip_entries_of(data@) == Some(es@.map_values(|e: ZipEntry| zip_entry_view(e)))
                &&& ups@.map_values(|u: (String, usize)| upload_view(u)) == zip_uploads_of(album_path@, es@)
            },
            None => thirdparty::zip_entries_of(data@) is None,
        },
{
    match thirdparty::zip_entries(data) {
        Some(es) => {
            let ups = zip_uploads(album_path, &es);
            Some((es, ups))
        },
        None => None,
    }
}

/// The disc number an album gets when the user sets it by hand: that
/// number, and when the album claimed to be a single disc, at least two
/// discs in all.
pub fn apply_disc_override(album: &mut CDAlbum, disc: i32)
    ensures
        final(album).disc_number == Some(disc),
        final(album).total_discs == if old(album).total_discs == Some(1i32) {
            Some(if disc > 2 { disc } else { 2i32 })
        } else {
            old(album).total_discs
        },
        same_album(
            *final(album),
            (CDAlbum { disc_number: final(album).disc_number, total_discs: final(album).total_discs, ..*old(album) }),
        ),
{
    album.disc_number = Some(disc);
    if album.total_discs == Some(1i32) {
        album.total_discs = Some(if disc > 2 { disc } else { 2 });
    }
}

/// The label of a disc of a set: ` [Disc d/t]` when the set has more than
/// one disc, else nothing.
pub open spec fn disc_label_of(disc: Option<i32>, total: Option<i32>) -> Seq<char> {
    match (disc, total) {
        (Some(d), Some(t)) => if t > 1 {
            " [Disc "@ + text::int_decimal(d as int) + "/"@ + text::int_decimal(t as int) + "]"@
        } else {
            seq![]
        },
        _ => seq![],
    }
}

/// The label of a disc of a set.
pub fn disc_label(disc: Option<i32>, total: Option<i32>) -> (r: String)
    ensures
        r@ == disc_label_of(disc, total),
{
    match (disc, total) {
        (Some(d), Some(t)) => {
            if t > 1 {
                let mut v = text::chars_of(" [Disc ");
                text::append_chars(&mut v, &text::i64_decimal(d as i64));
                text::append_str(&mut v, "/");
                text::append_chars(&mut v, &text::i64_decimal(t as i64));
                text::append_str(&mut v, "]");
                return text::string_from_chars(&v);
            }
            String::new()
        },
        _ => String::new(),
    }
}

/// The line that offers release `index` (from 0) for selection:
/// `n. artist - title[ disc] (date, label)`.
pub open spec fn release_line_of(index: int, r: CDAlbum) -> Seq<char> {
    text::int_decimal(index + 1) + ". "@ + r.artist@ + " - "@ + r.album_title@ + disc_label_of(
        r.disc_number,
        r.total_discs,
    ) + " ("@ + match r.release_date {
        Some(d) => d@,
        None => "unknown year"@,
    } + ", "@ + match r.label {
        Some(l) => l@,
        None => "unknown label"@,
    } + ")"@
}

/// The line that offers a release for selection.
pub fn release_line(index: usize, r: &CDAlbum) -> (line: String)
    requires
        index < usize::MAX,
    ensures
        line@ == release_line_of(index as int, *r),
{
    let mut v = text::u64_digits((index + 1) as u64);
    proof {
        assert(text::int_decimal(index + 1) == text::nat_digits((index + 1) as nat));
    }
    text::append_str(&mut v, ". ");
    text::append_str(&mut v, r.artist.as_str());
    text::append_str(&mut v, " - ");
    text::append_str(&mut v, r.album_title.as_str());
    text::append_str(&mut v, disc_label(r.disc_number, r.total_discs).as_str());
    text::append_str(&mut v, " (");
    match &r.release_date {
        Some(d) => text::append_str(&mut v, d.as_str()),
        None => text::append_str(&mut v, "unknown year"),
    }
    text::append_str(&mut v, ", ");
    match &r.label {
        Some(l) => text::append_str(&mut v, l.as_str()),
        None => text::append_str(&mut v, "unknown label"),
    }
    text::append_str(&mut v, ")");
    text::string_from_chars(&v)
}

/// A track named only by its number: `Track n`.
pub open spec fn generic_track(t: CDTrack, n: int) -> bool {
    &&& t.track_num == n
    &&& t.title@ == "Track "@ + text::int_decimal(n)
    &&& t.artist is None
    &&& t.duration_ms == 0
    &&& t.isrc is None
    &&& t.mb_recording_id is None
    &&& t.start_offset == 0
    &&& t.end_offset == 0
    &&& t.pregap_ms is None
}

/// Tracks `Track 1` to `Track n` for a disc MusicBrainz does not know.
pub fn generic_tracks(last_track: u8) -> (r: Vec<CDTrack>)
    ensures
        r@.len() == last_track,
        forall|k: int| 0 <= k < r@.len() ==> generic_track(#[trigger] r@[k], k + 1),
{
    let mut out: Vec<CDTrack> = Vec::new();
    let n = last_track as usize;
    let mut i: usize = 1;
    while i <= n
        invariant
            1 <= i <= n + 1,
            n == last_track,
            out@.len() == i - 1,
            forall|k: int| 0 <= k < out@.len() ==> generic_track(#[trigger] out@[k], k + 1),
        decreases n + 1 - i,
    {
        let mut title = text::chars_of("Track ");
        text::append_chars(&mut title, &text::i64_decimal(i as i64));
        out.push(
            CDTrack {
                track_num: i as i32,
                title: text::string_from_chars(&title),
                artist: None,
                duration_ms: 0,
                isrc: None,
                mb_recording_id: None,
                start_offset: 0,
                end_offset: 0,
                pregap_ms: None,
            },
        );
        i += 1;
    }
    out
}

/// Release `r` is disc `disc` of the album `base`: same artist and title.
pub open spec fn is_disc_of(r: CDAlbum, base: CDAlbum, disc: i32) -> bool {
    r.artist@ == base.artist@ && r.album_title@ == base.album_title@ && r.disc_number == Some(disc)
}

/// The first of `releases` that is disc `disc` of `base`.
pub fn find_disc(releases: &Vec<CDAlbum>, base: &CDAlbum, disc: i32) -> (r: Option<usize>)
    ensures
        match r {
            Some(i) => i < releases@.len() && is_disc_of(releases@[i as int], *base, disc) && forall|k: int|
                0 <= k < i ==> !is_disc_of(releases@[k], *base, disc),
            None => forall|k: int| 0 <= k < releases@.len() ==> !is_disc_of(releases@[k], *base, disc),
        },
{
    let mut i: usize = 0;
    while i < releases.len()
        invariant
            i <= releases@.len(),
            forall|k: int| 0 <= k < i ==> !is_disc_of(releases@[k], *base, disc),
        decreases releases@.len() - i,
    {
        let r = &releases[i];
        if text::str_eq(r.artist.as_str(), base.artist.as_str()) && text::str_eq(
            r.album_title.as_str(),
            base.album_title.as_str(),
        ) && r.disc_number == Some(disc) {
            return Some(i);
        }
        i += 1;
    }
    None
}

/// Position `i` holds the first of `releases` that is disc `disc` of `base`.
pub open spec fn is_first_disc(releases: Seq<CDAlbum>, base: CDAlbum, disc: i32, i: int) -> bool {
    &&& 0 <= i < releases.len()
    &&& is_disc_of(releases[i], base, disc)
    &&& forall|k: int| 0 <= k < i ==> !is_disc_of(releases[k], base, disc)
}

/// Where the tracks of a later disc of a set come from: the disc of the
/// chosen release when MusicBrainz gave it (`from_release`); else the first
/// release found for the disc that is this disc of the album; else generic
/// tracks `Track 1` to `Track n` for the `last_track` tracks of the disc.
/// The flag tells whether MusicBrainz knew the disc.
pub fn later_disc_tracks(
    from_release: &Option<CDAlbum>,
    releases: &Vec<CDAlbum>,
    base: &CDAlbum,
    disc: i32,
    last_track: u8,
) -> (r: (Vec<CDTrack>, bool))
    ensures
        match *from_release {
            Some(a) => r.0@ == a.tracks@ && r.1,
            None => if exists|i: int| is_first_disc(releases@, *base, disc, i) {
                r.1 && exists|i: int|
                    is_first_disc(releases@, *base, disc, i) && r.0@ == releases@[i].tracks@
            } else {
                !r.1 && r.0@.len() == last_track && forall|k: int|
                    0 <= k < r.0@.len() ==> generic_track(#[trigger] r.0@[k], k + 1)
            },
        },
{
    match from_release {
        Some(a) => (copy_tracks(&a.tracks), true),
        None => match find_disc(releases, base, disc) {
            Some(i) => {
                assert(is_first_disc(releases@, *base, disc, i as int));
                (copy_tracks(&releases[i].tracks), true)
            },
            None => {
                assert(!exists|i: int| is_first_disc(releases@, *base, disc, i));
                (generic_tracks(last_track), false)
            },
        },
    }
}

/// The artist and title to search MusicBrainz by when the disc itself is
/// not found: those of the CD-TEXT, when it gives both.
pub fn cd_text_search(info: &Option<CDTextInfo>) -> (r: Option<(String, String)>)
    ensures
        r == match *info {
            Some(t) => match (t.artist, t.album_title) {
                (Some(a), Some(b)) => Some((a, b)),
                _ => None::<(String, String)>,
            },
            None => None::<(String, String)>,
        },
{
    match info {
        Some(t) => match (&t.artist, &t.album_title) {
            (Some(a), Some(b)) => Some((a.clone(), b.clone())),
            _ => None,
        },
        None => None,
    }
}

/// What to do with the releases found for a disc.
#[derive(Debug, Clone, Copy, PartialEq, Eq, Structural)]
pub enum ReleaseChoice {
    /// None was found: the import fails.
    NotFound,
    /// Exactly one: it is taken.
    Single,
    /// Several: the user picks one.
    Ask,
}

/// What to do with `count` releases found for a disc.
pub fn release_choice(count: usize) -> (r: ReleaseChoice)
    ensures
        r == (if count == 0 {
            ReleaseChoice::NotFound
        } else if count == 1 {
            ReleaseChoice::Single
        } else {
            ReleaseChoice::Ask
        }),
{
    if count == 0 {
        ReleaseChoice::NotFound
    } else if count == 1 {
        ReleaseChoice::Single
    } else {
        ReleaseChoice::Ask
    }
}

/// The tracks of a disc as a rip numbers them: each keeps its number on its
/// own disc in `start_offset`; on a later disc of a set, numbers continue
/// after the `offset` tracks of the discs before.
pub open spec fn numbered_track(t: CDTrack, orig: CDTrack, offset: int) -> bool {
    &&& t.track_num == orig.track_num + offset
    &&& t.start_offset == orig.track_num
    &&& t.title == orig.title
    &&& t.artist == orig.artist
    &&& t.duration_ms == orig.duration_ms
    &&& t.isrc == orig.isrc
    &&& t.mb_recording_id == orig.mb_recording_id
    &&& t.end_offset == orig.end_offset
    &&& t.pregap_ms == orig.pregap_ms
}

/// Progress of a CD import over the discs of a set.
pub struct CdImport {
    pub starting_disc: i32,
    pub total_discs: i32,
    pub current_disc: i32,
    /// Tracks ripped from the discs done so far.
    pub tracks_so_far: i32,
    pub skip_remaining: bool,
}

impl CdImport {
    /// An import that starts at the album's disc (1 when unknown) and runs
    /// to its last (1 disc when unknown).
    pub fn new(base: &CDAlbum) -> (r: Self)
        ensures
            r.starting_disc == match base.disc_number {
                Some(d) => d,
                None => 1i32,
            },
            r.total_discs == match base.total_discs {
                Some(t) => t,
                None => 1i32,
            },
            r.current_disc == r.starting_disc,
            r.tracks_so_far == 0,
            !r.skip_remaining,
    {
        let starting = match base.disc_number {
            Some(d) => d,
            None => 1,
        };
        let total = match base.total_discs {
            Some(t) => t,
            None => 1,
        };
        CdImport {
            starting_disc: starting,
            total_discs: total,
            current_disc: starting,
            tracks_so_far: 0,
            skip_remaining: false,
        }
    }

    /// Another disc is to be imported.
    pub fn in_progress(&self) -> (r: bool)
        ensures
            r == (self.current_disc <= self.total_discs && !self.skip_remaining),
    {
        self.current_disc <= self.total_discs && !self.skip_remaining
    }

    /// The current disc comes after the first: the previous one is ejected
    /// and the user asked for the next.
    pub fn is_later_disc(&self) -> (r: bool)
        ensures
            r == (self.current_disc > self.starting_disc),
    {
        self.current_disc > self.starting_disc
    }

    /// The user chose to skip the remaining discs.
    pub fn skip_rest(&mut self)
        ensures
            final(self).skip_remaining,
            final(self).current_disc == old(self).current_disc,
            final(self).starting_disc == old(self).starting_disc,
            final(self).total_discs == old(self).total_discs,
            final(self).tracks_so_far == old(self).tracks_so_far,
    {
        self.skip_remaining = true;
    }

    /// The album of the current disc: the base album with the current disc
    /// number, its tracks numbered as `numbered_track` says (shifted only on
    /// a later disc that has tracks).
    pub fn disc_album(&self, base: &CDAlbum) -> (r: CDAlbum)
        requires
            forall|k: int| 0 <= k < base.tracks@.len() ==> i32::MIN <= #[trigger] base.tracks@[k].track_num
                + self.tracks_so_far <= i32::MAX,
        ensures
            r.disc_number == Some(self.current_disc),
            r.tracks@.len() == base.tracks@.len(),
            forall|k: int| 0 <= k < r.tracks@.len() ==> numbered_track(
                #[trigger] r.tracks@[k],
                base.tracks@[k],
                if self.current_disc > self.starting_disc { self.tracks_so_far as int } else { 0 },
            ),
            same_album(r, (CDAlbum { disc_number: r.disc_number, tracks: r.tracks, ..*base })),
    {
        let mut album = base.duplicate();
        album.disc_number = Some(self.current_disc);
        let shift = self.current_disc > self.starting_disc && album.tracks.len() > 0;
        let offset: i32 = if shift { self.tracks_so_far } else { 0 };
        let ghost orig = album.tracks@;
        let mut tracks: Vec<CDTrack> = Vec::new();
        let mut i: usize = 0;
        while i < album.tracks.len()
            invariant
                i <= album.tracks@.len(),
                orig == album.tracks@,
                orig == base.tracks@,
                offset == (if self.current_disc > self.starting_disc { self.tracks_so_far } else { 0 }) || orig.len() == 0,
                forall|k: int| 0 <= k < orig.len() ==> i32::MIN <= #[trigger] orig[k].track_num + offset <= i32::MAX,
                tracks@.len() == i,
                forall|k: int| 0 <= k < i ==> numbered_track(#[trigger] tracks@[k], orig[k], offset as int),
            decreases album.tracks@.len() - i,
        {
            let mut t = album.tracks[i].duplicate();
            t.start_offset = t.track_num;
            t.track_num = t.track_num + offset;
            tracks.push(t);
            i += 1;
        }
        album.tracks = tracks;
        album
    }

    /// The current disc is done with `track_count` tracks (none are counted
    /// when only the cover was fetched); on to the next disc.
    pub fn finish_disc(&mut self, track_count: usize, just_cover: bool)
        requires
            old(self).current_disc < i32::MAX,
            just_cover || i32::MIN <= old(self).tracks_so_far + (track_count as i32) <= i32::MAX,
        ensures
            final(self).current_disc == old(self).current_disc + 1,
            final(self).tracks_so_far == if just_cover {
                old(self).tracks_so_far as int
            } else {
                old(self).tracks_so_far + (track_count as i32)
            },
            final(self).starting_disc == old(self).starting_disc,
            final(self).total_discs == old(self).total_discs,
            final(self).skip_remaining == old(self).skip_remaining,
    {
        if !just_cover {
            self.tracks_so_far = self.tracks_so_far + #[verifier::truncate] (track_count as i32);
        }
        self.current_disc = self.current_disc + 1;
    }

    /// The cover is fetched only with the first disc.
    pub fn wants_cover(&self, just_cover: bool, has_cover_url: bool) -> (r: bool)
        ensures
            r == (just_cover && self.current_disc == self.starting_disc && has_cover_url),
    {
        just_cover && self.current_disc == self.starting_disc && has_cover_url
    }

    /// Whether a ripped file is uploaded: the cover (`folder.jpg`) only with
    /// the first disc.
    pub fn uploads(&self, file_name: &str) -> (r: bool)
        ensures
            r == !(file_name@ == "folder.jpg"@ && self.current_disc > self.starting_disc),
    {
        !(text::str_eq(file_name, "folder.jpg") && self.current_disc > self.starting_disc)
    }

    /// How many discs were imported, counted when the import ends.
    pub fn discs_done(&self) -> (r: i32)
        requires
            i32::MIN <= self.current_disc - self.starting_disc <= i32::MAX,
        ensures
            r == self.current_disc - self.starting_disc,
    {
        self.current_disc - self.starting_disc
    }
}

/// The tracks of a disc numbered from 1 (`track_num == k + 1`).
pub open spec fn numbered_from_one(tracks: Seq<CDTrack>) -> bool {
    forall|k: int| 0 <= k < tracks.len() ==> #[trigger] tracks[k].track_num == k + 1
}

/// `numbered` are the tracks `orig` numbered on from `offset`.
pub open spec fn renumbered(numbered: Seq<CDTrack>, orig: Seq<CDTrack>, offset: int) -> bool {
    numbered.len() == orig.len() && forall|k: int|
        0 <= k < numbered.len() ==> numbered_track(#[trigger] numbered[k], orig[k], offset)
}

/// Over two discs of a set whose tracks are numbered from 1, the first
/// renumbered from `offset` and the second from `offset` plus the first
/// disc's track count (as `finish_disc` leaves it), the track numbers run
/// on without gap or repeat: the `k`-th track of both is number
/// `offset + k + 1`, and each track keeps its number on its own disc.
pub proof fn lemma_numbering_continues(
    first: Seq<CDTrack>,
    first_numbered: Seq<CDTrack>,
    second: Seq<CDTrack>,
    second_numbered: Seq<CDTrack>,
    offset: int,
)
    requires
        numbered_from_one(first),
        numbered_from_one(second),
        renumbered(first_numbered, first, offset),
        renumbered(second_numbered, second, offset + first.len()),
    ensures
        forall|k: int|
            0 <= k < first_numbered.len() + second_numbered.len() ==> (#[trigger] (first_numbered
                + second_numbered)[k]).track_num == offset + k + 1,
        forall|k: int|
            0 <= k < first_numbered.len() ==> (#[trigger] first_numbered[k]).start_offset == k + 1,
        forall|k: int|
            0 <= k < second_numbered.len() ==> (#[trigger] second_numbered[k]).start_offset == k + 1,
{
    let all = first_numbered + second_numbered;
    assert forall|k: int| 0 <= k < all.len() implies (#[trigger] all[k]).track_num == offset + k + 1 by {
        if k < first_numbered.len() {
            assert(numbered_track(first_numbered[k], first[k], offset));
            assert(first[k].track_num == k + 1);
        } else {
            let j = k - first_numbered.len();
            assert(all[k] == second_numbered[j]);
            assert(numbered_track(second_numbered[j], second[j], offset + first.len()));
            assert(second[j].track_num == j + 1);
        }
    }
    assert forall|k: int| 0 <= k < first_numbered.len() implies (#[trigger] first_numbered[k]).start_offset == k + 1 by {
        assert(numbered_track(first_numbered[k], first[k], offset));
        assert(first[k].track_num == k + 1);
    }
    assert forall|k: int| 0 <= k < second_numbered.len() implies (#[trigger] second_numbered[k]).start_offset == k + 1 by {
        assert(numbered_track(second_numbered[k], second[k], offset + first.len()));
        assert(second[k].track_num == k + 1);
    }
}

/// Whether the answer to the next-disc prompt asks to skip the remaining
/// discs: `s`, in any case, with surrounding whitespace.
pub fn is_skip_answer(input: &str) -> (r: bool)
    ensures
        r == (text::lowercase(text::trim(input@)) == "s"@),
{
    let t = text::string_from_chars(&text::trim_chars(&text::chars_of(input)));
    let l = text::to_lowercase(t.as_str());
    text::str_eq(l.as_str(), "s")
}

/// The question asked before an import starts.
pub fn import_prompt(just_cover: bool, total_discs: i32) -> (r: String)
    ensures
        r@ == if just_cover {
            "Download and upload cover art for all discs?"@
        } else if total_discs > 1 {
            "Proceed with ripping "@ + text::int_decimal(total_discs as int) + " disc(s)?"@
        } else {
            "Proceed with ripping?"@
        },
{
    if just_cover {
        "Download and upload cover art for all discs?".to_string()
    } else if total_discs > 1 {
        let mut v = text::chars_of("Proceed with ripping ");
        text::append_chars(&mut v, &text::i64_decimal(total_discs as i64));
        text::append_str(&mut v, " disc(s)?");
        text::string_from_chars(&v)
    } else {
        "Proceed with ripping?".to_string()
    }
}

/// The album `import-cd --no-lookup` builds from CD-TEXT: the disc's id, its
/// artist and title, and nothing else yet; one disc of one.
pub fn album_from_cd_text(disc_id: &str, artist: String, title: String) -> (r: CDAlbum)
    ensures
        r.disc_id@ == disc_id@,
        r.artist@ == artist@,
        r.album_title@ == title@,
        r.tracks@.len() == 0,
        r.genres@.len() == 0,
        r.release_date is None && r.label is None && r.catalog_number is None && r.barcode is None,
        r.mb_release_id is None && r.mb_release_group_id is None && r.mb_artist_id is None,
        r.cover_art_url is None && !r.cover_art_available,
        r.total_duration_ms == 0,
        r.disc_number == Some(1i32) && r.total_discs == Some(1i32),
        r.media_format@ == "CD"@,
{
    CDAlbum {
        disc_id: disc_id.to_string(),
        artist,
        album_title: title,
        release_date: None,
        label: None,
        catalog_number: None,
        barcode: None,
        tracks: Vec::new(),
        genres: Vec::new(),
        total_duration_ms: 0,
        mb_release_id: None,
        mb_release_group_id: None,
        mb_artist_id: None,
        cover_art_url: None,
        cover_art_available: false,
        disc_number: Some(1),
        total_discs: Some(1),
        media_format: "CD".to_string(),
    }
}

/// Minutes, seconds and frames (75 per second) of a disc offset, as
/// `query-cd --show-toc` prints them; Rust's integer division, which rounds
/// toward zero.
pub open spec fn offset_time(offset: i32) -> (int, int, int) {
    let o = offset as int;
    let m = if o < 0 { -o } else { o };
    let seconds = m / 75;
    if o < 0 {
        (-(seconds / 60), -(seconds % 60), -(m % 75))
    } else {
        (seconds / 60, seconds % 60, m % 75)
    }
}

/// The minutes, seconds and frames of an offset (75 frames a second) add
/// back up to it: seconds below 60, frames below 75, all of the offset's
/// sign.
pub proof fn lemma_offset_time_recomposes(offset: i32)
    ensures
        ({
            let (m, s, f) = offset_time(offset);
            &&& offset >= 0 ==> 0 <= m && 0 <= s < 60 && 0 <= f < 75
            &&& offset < 0 ==> m <= 0 && -60 < s <= 0 && -75 < f <= 0
            &&& 4500 * m + 75 * s + f == offset as int
        }),
{
    let o = offset as int;
    let a = if o < 0 { -o } else { o };
    let sec = a / 75;
    assert(a == 75 * sec + a % 75);
    assert(sec == 60 * (sec / 60) + sec % 60);
    assert(4500 * (sec / 60) + 75 * (sec % 60) + a % 75 == a);
}

/// Minutes, seconds and frames of a disc offset.
pub fn offset_timestamp(offset: i32) -> (r: (i32, i32, i32))
    ensures
        (r.0 as int, r.1 as int, r.2 as int) == offset_time(offset),
{
    let m: i64 = if offset < 0 { -(offset as i64) } else { offset as i64 };
    let seconds = m / 75;
    let minutes = seconds / 60;
    let secs = seconds % 60;
    let frames = m % 75;
    assert(0 <= m <= 2147483648);
    assert(0 <= seconds <= m);
    assert(0 <= minutes <= seconds);
    assert(0 <= secs < 60);
    assert(0 <= frames < 75);
    if offset < 0 {
        ((-minutes) as i32, (-secs) as i32, (-frames) as i32)
    } else {
        (minutes as i32, secs as i32, frames as i32)
    }
}

/// The length of a track as a listing shows it: ` (m:ss)`, nothing when it
/// is not known (0).
pub open spec fn duration_text_of(ms: u32) -> Seq<char> {
    if ms == 0 {
        seq![]
    } else {
        " ("@ + text::nat_digits((ms / 60000) as nat) + seq![':'] + text::zero_padded(
            ((ms / 1000) % 60) as int,
            2,
        ) + ")"@
    }
}

/// The length of a track as a listing shows it.
pub fn duration_text(ms: u32) -> (r: String)
    ensures
        r@ == duration_text_of(ms),
{
    if ms == 0 {
        let e = String::new();
        assert(e@ =~= duration_text_of(ms));
        return e;
    }
    let mut v = text::chars_of(" (");
    text::append_chars(&mut v, &text::u64_digits((ms / 60000) as u64));
    v.push(':');
    text::append_chars(&mut v, &text::u64_zero_padded(((ms / 1000) % 60) as u64, 2));
    text::append_str(&mut v, ")");
    assert(v@ =~= duration_text_of(ms));
    text::string_from_chars(&v)
}

} // verus!
