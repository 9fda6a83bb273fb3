//! Deciding what a sync does: file names, which albums are missing, and the
//! plan of a dry run.

use vstd::prelude::*;
use crate::text;
use crate::paths;
use crate::bandcamp::models::CollectionItem;
use crate::storage::{
    AlbumToDownload, AudioFormat, ConflictInfo, DryRunResult, MusicLibraryItem, SyncOptions,
};

verus! {

/// Characters that a file name may not hold; each becomes `_`.
pub open spec fn forbidden_in_name(c: char) -> bool {
    c == '/' || c == '\\' || c == ':' || c == '*' || c == '?' || c == '"' || c == '<' || c == '>'
        || c == '|' || c == '\0'
}

/// `name` with every forbidden character replaced by `_`.
pub open spec fn replace_forbidden(name: Seq<char>) -> Seq<char> {
    name.map_values(|c: char| if forbidden_in_name(c) { '_' } else { c })
}

/// A name made safe for a file system: forbidden characters become `_`,
/// then surrounding whitespace is trimmed.
pub open spec fn sanitized(name: Seq<char>) -> Seq<char> {
    text::trim(replace_forbidden(name))
}

/// Makes `name` safe as a file or directory name.
pub fn sanitize_filename(name: &str) -> (r: String)
    ensures
        r@ == sanitized(name@),
{
    let v = text::chars_of(name);
    let mut m: Vec<char> = Vec::new();
    let mut i: usize = 0;
    while i < v.len()
        invariant
            i <= v.len(),
            m@ =~= replace_forbidden(v@.take(i as int)),
        decreases v.len() - i,
    {
        let c = v[i];
        let bad = c == '/' || c == '\\' || c == ':' || c == '*' || c == '?' || c == '"' || c == '<'
            || c == '>' || c == '|' || c == '\0';
        m.push(if bad { '_' } else { c });
        assert(v@.take(i + 1) =~= v@.take(i as int).push(c));
        i += 1;
    }
    assert(v@.take(v.len() as int) =~= v@);
    text::string_from_chars(&text::trim_chars(&m))
}

/// A sanitized name holds no forbidden character and no whitespace at
/// either end.
pub proof fn lemma_sanitized_clean(name: Seq<char>)
    ensures
        forall|i: int| 0 <= i < sanitized(name).len() ==> !forbidden_in_name(#[trigger] sanitized(name)[i]),
        text::trimmed(sanitized(name)),
{
    let m = replace_forbidden(name);
    text::lemma_trim_trimmed(m);
    let (a, b) = choose|a: int, b: int| 0 <= a <= b <= m.len() && text::trim(m) == m.subrange(a, b);
    assert forall|i: int| 0 <= i < sanitized(name).len() implies !forbidden_in_name(#[trigger] sanitized(name)[i]) by {
        assert(sanitized(name)[i] == m[a + i]);
    }
}

/// Sanitizing a sanitized name changes nothing.
pub proof fn lemma_sanitize_idempotent(name: Seq<char>)
    ensures
        sanitized(sanitized(name)) == sanitized(name),
{
    let s = sanitized(name);
    lemma_sanitized_clean(name);
    assert(replace_forbidden(s) =~= s) by {
        assert forall|i: int| 0 <= i < s.len() implies replace_forbidden(s)[i] == s[i] by {
            assert(!forbidden_in_name(s[i]));
        }
    }
    text::lemma_trim_fixed(s);
}

/// A name with no forbidden character and no whitespace at either end is
/// kept as it is.
pub proof fn lemma_clean_name_kept(name: Seq<char>)
    requires
        forall|i: int| 0 <= i < name.len() ==> !forbidden_in_name(#[trigger] name[i]),
        text::trimmed(name),
    ensures
        sanitized(name) == name,
{
    assert(replace_forbidden(name) =~= name);
    text::lemma_trim_fixed(name);
}

/// A forbidden character between two clean parts of a name becomes `_`
/// and the rest is kept: `AC/DC` is stored as `AC_DC`.
pub proof fn lemma_forbidden_becomes_underscore(a: Seq<char>, c: char, b: Seq<char>)
    requires
        forbidden_in_name(c),
        forall|i: int| 0 <= i < a.len() ==> !forbidden_in_name(#[trigger] a[i]),
        forall|i: int| 0 <= i < b.len() ==> !forbidden_in_name(#[trigger] b[i]),
        a.len() > 0 && !text::is_ws(a[0]),
        b.len() > 0 && !text::is_ws(b.last()),
    ensures
        sanitized(a + seq![c] + b) == a + seq!['_'] + b,
{
    let s = a + seq!['_'] + b;
    assert(replace_forbidden(a + seq![c] + b) =~= s);
    assert(s[0] == a[0]);
    assert(s.last() == b.last());
    text::lemma_trim_fixed(s);
}

/// The library folder of an album: `artist/album`, both names sanitized.
pub open spec fn album_dir_of(artist: Seq<char>, album: Seq<char>) -> Seq<char> {
    paths::path_join(sanitized(artist), sanitized(album))
}

/// The library folder of an album by `artist` titled `album`.
pub fn album_dir(artist: &str, album: &str) -> (r: String)
    ensures
        r@ == album_dir_of(artist@, album@),
{
    let a = sanitize_filename(artist);
    let b = sanitize_filename(album);
    paths::join_path(&a, &b)
}

/// How a collection item is matched against the library: artist and title,
/// lowercased.
pub open spec fn item_key(item: CollectionItem) -> (Seq<char>, Seq<char>) {
    (text::lowercase(item.band_name@), text::lowercase(item.item_title@))
}

/// How a library album is matched: artist and album folder names, lowercased.
pub open spec fn library_key(album: MusicLibraryItem) -> (Seq<char>, Seq<char>) {
    (text::lowercase(album.artist@), text::lowercase(album.album@))
}

/// Some album of `library` matches `item`.
pub open spec fn in_library(library: Seq<MusicLibraryItem>, item: CollectionItem) -> bool {
    exists|j: int| 0 <= j < library.len() && #[trigger] library_key(library[j]) == item_key(item)
}

/// The items of `items` that no album of `library` matches, in order.
pub open spec fn missing_from(items: Seq<CollectionItem>, library: Seq<MusicLibraryItem>) -> Seq<
    CollectionItem,
>
    decreases items.len(),
{
    if items.len() == 0 {
        seq![]
    } else {
        let rest = missing_from(items.drop_last(), library);
        if in_library(library, items.last()) {
            rest
        } else {
            rest.push(items.last())
        }
    }
}

/// The items of a Bandcamp collection that the library lacks: those whose
/// artist and title, lowercased, match no artist and album of the library.
pub fn compare_collections(bandcamp: &Vec<CollectionItem>, library: &Vec<MusicLibraryItem>) -> (r:
    Vec<CollectionItem>)
    ensures
        r@ == missing_from(bandcamp@, library@),
{
    let mut artists: Vec<Vec<char>> = Vec::new();
    let mut albums: Vec<Vec<char>> = Vec::new();
    let mut j: usize = 0;
    while j < library.len()
        invariant
            j <= library.len(),
            artists@.len() == j,
            albums@.len() == j,
            forall|k: int| 0 <= k < j ==> (#[trigger] artists@[k])@ == text::lowercase(library@[k].artist@),
            forall|k: int| 0 <= k < j ==> (#[trigger] albums@[k])@ == text::lowercase(library@[k].album@),
        decreases library.len() - j,
    {
        artists.push(text::chars_of(&text::to_lowercase(library[j].artist.as_str())));
        albums.push(text::chars_of(&text::to_lowercase(library[j].album.as_str())));
        j += 1;
    }
    let mut out: Vec<CollectionItem> = Vec::new();
    let mut i: usize = 0;
    while i < bandcamp.len()
        invariant
            i <= bandcamp.len(),
            artists@.len() == library@.len(),
            albums@.len() == library@.len(),
            forall|k: int| 0 <= k < library@.len() ==> (#[trigger] artists@[k])@ == text::lowercase(library@[k].artist@),
            forall|k: int| 0 <= k < library@.len() ==> (#[trigger] albums@[k])@ == text::lowercase(library@[k].album@),
            out@ == missing_from(bandcamp@.take(i as int), library@),
        decreases bandcamp.len() - i,
    {
        let item = &bandcamp[i];
        let artist = text::chars_of(&text::to_lowercase(item.band_name.as_str()));
        let title = text::chars_of(&text::to_lowercase(item.item_title.as_str()));
        let mut found = false;
        let mut k: usize = 0;
        while k < artists.len()
            invariant
                k <= artists@.len() == albums@.len() == library@.len(),
                forall|m: int| 0 <= m < library@.len() ==> (#[trigger] artists@[m])@ == text::lowercase(library@[m].artist@),
                forall|m: int| 0 <= m < library@.len() ==> (#[trigger] albums@[m])@ == text::lowercase(library@[m].album@),
                artist@ == item_key(*item).0,
                title@ == item_key(*item).1,
                found == exists|m: int| 0 <= m < k && #[trigger] library_key(library@[m]) == item_key(*item),
            decreases artists.len() - k,
        {
            if text::chars_eq(&artists[k], &artist) && text::chars_eq(&albums[k], &title) {
                found = true;
            }
            proof {
                let key = library_key(library@[k as int]);
                if found {
                    if key == item_key(*item) {
                    }
                } else {
                    assert(key != item_key(*item));
                }
            }
            k += 1;
        }
        assert(bandcamp@.take(i + 1).drop_last() =~= bandcamp@.take(i as int));
        assert(bandcamp@.take(i + 1).last() == *item);
        if !found {
            out.push(item.duplicate());
        }
        i += 1;
    }
    assert(bandcamp@.take(bandcamp.len() as int) =~= bandcamp@);
    out
}

/// Every item that the comparison returns is one that no library album
/// matches, and it comes from the collection.
pub proof fn lemma_missing_not_in_library(items: Seq<CollectionItem>, library: Seq<MusicLibraryItem>)
    ensures
        forall|i: int| 0 <= i < missing_from(items, library).len() ==>
            !in_library(library, #[trigger] missing_from(items, library)[i])
            && items.contains(missing_from(items, library)[i]),
        missing_from(items, library).len() <= items.len(),
    decreases items.len(),
{
    if items.len() > 0 {
        lemma_missing_not_in_library(items.drop_last(), library);
        let rest = missing_from(items.drop_last(), library);
        assert forall|i: int| 0 <= i < missing_from(items, library).len() implies
            !in_library(library, #[trigger] missing_from(items, library)[i])
            && items.contains(missing_from(items, library)[i]) by {
            if i < rest.len() {
                assert(missing_from(items, library)[i] == rest[i]);
                let x = rest[i];
                assert(items.drop_last().contains(x));
                let w = choose|w: int| 0 <= w < items.drop_last().len() && items.drop_last()[w] == x;
                assert(items[w] == x);
            } else {
                assert(items[items.len() - 1] == items.last());
            }
        }
    }
}

/// Every item of the collection that no library album matches is returned:
/// nothing the library lacks is left out.
pub proof fn lemma_missing_complete(items: Seq<CollectionItem>, library: Seq<MusicLibraryItem>, i: int)
    requires
        0 <= i < items.len(),
        !in_library(library, items[i]),
    ensures
        missing_from(items, library).contains(items[i]),
    decreases items.len(),
{
    if i == items.len() - 1 {
        let r = missing_from(items, library);
        assert(r[r.len() - 1] == items[i]);
    } else {
        lemma_missing_complete(items.drop_last(), library, i);
        let rest = missing_from(items.drop_last(), library);
        let w = choose|w: int| 0 <= w < rest.len() && rest[w] == items.drop_last()[i];
        assert(missing_from(items, library)[w] == rest[w]);
    }
}

/// An item of the collection is reported missing exactly when no album of
/// the library has both its artist and its title, compared lowercased:
/// an album of the same artist with another title does not count.
pub proof fn lemma_missing_iff_no_artist_and_title(
    items: Seq<CollectionItem>,
    library: Seq<MusicLibraryItem>,
    i: int,
)
    requires
        0 <= i < items.len(),
    ensures
        missing_from(items, library).contains(items[i]) <==> !exists|j: int|
            0 <= j < library.len() && text::lowercase(#[trigger] library[j].artist@) == text::lowercase(
                items[i].band_name@,
            ) && text::lowercase(library[j].album@) == text::lowercase(items[i].item_title@),
{
    let hit = exists|j: int|
        0 <= j < library.len() && text::lowercase(#[trigger] library[j].artist@) == text::lowercase(
            items[i].band_name@,
        ) && text::lowercase(library[j].album@) == text::lowercase(items[i].item_title@);
    if hit {
        let j = choose|j: int|
            0 <= j < library.len() && text::lowercase(#[trigger] library[j].artist@) == text::lowercase(
                items[i].band_name@,
            ) && text::lowercase(library[j].album@) == text::lowercase(items[i].item_title@);
        assert(library_key(library[j]) == item_key(items[i]));
        assert(in_library(library, items[i]));
        lemma_missing_not_in_library(items, library);
        if missing_from(items, library).contains(items[i]) {
            let w = choose|w: int|
                0 <= w < missing_from(items, library).len() && missing_from(items, library)[w] == items[i];
            assert(!in_library(library, missing_from(items, library)[w]));
        }
    } else {
        assert(!in_library(library, items[i])) by {
            if in_library(library, items[i]) {
                let j = choose|j: int|
                    0 <= j < library.len() && #[trigger] library_key(library[j]) == item_key(items[i]);
                assert(text::lowercase(library[j].artist@) == text::lowercase(items[i].band_name@));
            }
        }
        lemma_missing_complete(items, library, i);
    }
}

/// A library that holds every album of the collection leaves nothing to sync.
pub proof fn lemma_full_library_nothing_missing(items: Seq<CollectionItem>, library: Seq<MusicLibraryItem>)
    requires
        forall|i: int| 0 <= i < items.len() ==> in_library(library, #[trigger] items[i]),
    ensures
        missing_from(items, library).len() == 0,
    decreases items.len(),
{
    if items.len() > 0 {
        assert(in_library(library, items[items.len() - 1]));
        assert forall|i: int| 0 <= i < items.drop_last().len() implies in_library(library, #[trigger] items.drop_last()[i]) by {
            assert(items.drop_last()[i] == items[i]);
        }
        lemma_full_library_nothing_missing(items.drop_last(), library);
    }
}

/// Against an empty library, the whole collection is missing.
pub proof fn lemma_empty_library_all_missing(items: Seq<CollectionItem>)
    ensures
        missing_from(items, Seq::<MusicLibraryItem>::empty()) == items,
    decreases items.len(),
{
    if items.len() > 0 {
        lemma_empty_library_all_missing(items.drop_last());
        assert(items.drop_last().push(items.last()) =~= items);
    }
}

/// `idx` picks the elements of `a` out of `b` in order: `a[i] == b[idx[i]]`
/// with increasing positions.
pub open spec fn picks(a: Seq<CollectionItem>, b: Seq<CollectionItem>, idx: Seq<int>) -> bool {
    &&& idx.len() == a.len()
    &&& forall|i: int| 0 <= i < idx.len() ==> 0 <= #[trigger] idx[i] < b.len() && a[i] == b[idx[i]]
    &&& forall|i: int, j: int| 0 <= i < j < idx.len() ==> #[trigger] idx[i] < #[trigger] idx[j]
}

/// `a` is a subsequence of `b`.
pub open spec fn is_subsequence(a: Seq<CollectionItem>, b: Seq<CollectionItem>) -> bool {
    exists|idx: Seq<int>| picks(a, b, idx)
}

/// With a larger library, fewer items are missing: when every album of
/// `smaller` is also in `larger`, the items missing from `larger` are a
/// subsequence of those missing from `smaller`.
pub proof fn lemma_larger_library_misses_less(
    items: Seq<CollectionItem>,
    smaller: Seq<MusicLibraryItem>,
    larger: Seq<MusicLibraryItem>,
)
    requires
        forall|j: int| 0 <= j < smaller.len() ==> larger.contains(#[trigger] smaller[j]),
    ensures
        is_subsequence(missing_from(items, larger), missing_from(items, smaller)),
{
    let idx = subsequence_witness(items, smaller, larger);
}

proof fn subsequence_witness(
    items: Seq<CollectionItem>,
    smaller: Seq<MusicLibraryItem>,
    larger: Seq<MusicLibraryItem>,
) -> (idx: Seq<int>)
    requires
        forall|j: int| 0 <= j < smaller.len() ==> larger.contains(#[trigger] smaller[j]),
    ensures
        picks(missing_from(items, larger), missing_from(items, smaller), idx),
    decreases items.len(),
{
    if items.len() == 0 {
        seq![]
    } else {
        let d = items.drop_last();
        let x = items.last();
        let before = subsequence_witness(d, smaller, larger);
        let m1 = missing_from(d, smaller);
        let m2 = missing_from(d, larger);
        if in_library(smaller, x) {
            let j = choose|j: int| 0 <= j < smaller.len() && #[trigger] library_key(smaller[j]) == item_key(x);
            assert(larger.contains(smaller[j]));
            let k = choose|k: int| 0 <= k < larger.len() && larger[k] == smaller[j];
            assert(library_key(larger[k]) == item_key(x));
            assert(in_library(larger, x));
            before
        } else if in_library(larger, x) {
            let idx = before;
            assert(picks(m2, m1.push(x), idx)) by {
                assert forall|i: int| 0 <= i < idx.len() implies 0 <= #[trigger] idx[i] < m1.push(x).len()
                    && m2[i] == m1.push(x)[idx[i]] by {
                    assert(m1.push(x)[idx[i]] == m1[idx[i]]);
                }
            }
            idx
        } else {
            let idx = before.push(m1.len() as int);
            assert(picks(m2.push(x), m1.push(x), idx)) by {
                assert forall|i: int| 0 <= i < idx.len() implies 0 <= #[trigger] idx[i] < m1.push(x).len()
                    && m2.push(x)[i] == m1.push(x)[idx[i]] by {
                    if i < before.len() {
                        assert(idx[i] == before[i]);
                        assert(m1.push(x)[before[i]] == m1[before[i]]);
                    }
                }
                assert forall|i: int, j: int| 0 <= i < j < idx.len() implies #[trigger] idx[i] < #[trigger] idx[j] by {
                    if j < before.len() {
                        assert(idx[i] == before[i] && idx[j] == before[j]);
                    } else {
                        assert(idx[i] == before[i]);
                    }
                }
            }
            idx
        }
    }
}

/// What the storage holds at an album's folder, as probed before planning.
#[derive(Debug, Clone, Copy)]
pub struct AlbumProbe {
    /// The folder exists.
    pub exists: bool,
    /// How many entries the folder lists (read only when it exists).
    pub existing_files: usize,
}

/// The track count a collection item announces.
pub open spec fn announced_tracks(item: CollectionItem) -> Option<usize> {
    match item.num_streamable_tracks {
        Some(n) => Some(n as usize),
        None => None,
    }
}

/// Cover art will be fetched: it is wanted and the item has art.
pub open spec fn wants_cover(item: CollectionItem, skip_cover_art: bool) -> bool {
    !skip_cover_art && (item.item_art_id is Some || item.item_art_url is Some)
}

/// The folder of a collection item in the library.
pub open spec fn item_dir(item: CollectionItem) -> Seq<char> {
    album_dir_of(item.band_name@, item.item_title@)
}

/// The name of the `k`-th planned track file (from 1): `track_NN.ext`.
pub open spec fn track_file_name(k: int, ext: Seq<char>) -> Seq<char> {
    "track_"@ + text::zero_padded(k, 2) + "."@ + ext
}

/// The files a dry run lists for one item: its announced tracks, then the
/// cover when one will be fetched.
pub open spec fn item_files(item: CollectionItem, options: SyncOptions) -> Seq<Seq<char>> {
    let dir = item_dir(item);
    let tracks: Seq<Seq<char>> = match announced_tracks(item) {
        Some(n) => Seq::new(
            n as nat,
            |k: int| paths::path_join(dir, track_file_name(k + 1, options.audio_format.spec_extension())),
        ),
        None => seq![],
    };
    let cover: Seq<Seq<char>> = if wants_cover(item, options.skip_cover_art) {
        seq![paths::path_join(dir, "cover.jpg"@)]
    } else {
        seq![]
    };
    tracks + cover
}

/// The files a dry run lists for `items`, in order.
pub open spec fn planned_files(items: Seq<CollectionItem>, options: SyncOptions) -> Seq<Seq<char>>
    decreases items.len(),
{
    if items.len() == 0 {
        seq![]
    } else {
        planned_files(items.drop_last(), options) + item_files(items.last(), options)
    }
}

/// The sum of the announced track counts of `items`.
pub open spec fn planned_tracks(items: Seq<CollectionItem>) -> int
    decreases items.len(),
{
    if items.len() == 0 {
        0
    } else {
        planned_tracks(items.drop_last()) + match announced_tracks(items.last()) {
            Some(n) => n as int,
            None => 0,
        }
    }
}

/// Some path of `dirs` is the same path as `p`.
pub open spec fn holds_path(dirs: Seq<Seq<char>>, p: Seq<char>) -> bool {
    exists|k: int| 0 <= k < dirs.len() && paths::same_path(#[trigger] dirs[k], p)
}

/// The folders a dry run would create: those of the items whose folder does
/// not exist, each path once.
pub open spec fn planned_dirs(items: Seq<CollectionItem>, probes: Seq<AlbumProbe>) -> Seq<Seq<char>>
    decreases items.len(),
{
    if items.len() == 0 || probes.len() < items.len() {
        seq![]
    } else {
        let before = planned_dirs(items.drop_last(), probes);
        let i = items.len() - 1;
        let dir = item_dir(items[i]);
        if !probes[i].exists && !holds_path(before, dir) {
            before.push(dir)
        } else {
            before
        }
    }
}

/// The message of a conflict at a folder that lists `n` entries.
pub open spec fn conflict_reason(n: int) -> Seq<char> {
    "Album directory already exists with "@ + text::int_decimal(n) + " files"@
}

/// The conflicts a dry run reports: items whose folder exists and lists
/// entries.
pub open spec fn planned_conflicts(items: Seq<CollectionItem>, probes: Seq<AlbumProbe>) -> Seq<
    (Seq<char>, Seq<char>),
>
    decreases items.len(),
{
    if items.len() == 0 || probes.len() < items.len() {
        seq![]
    } else {
        let before = planned_conflicts(items.drop_last(), probes);
        let i = items.len() - 1;
        if probes[i].exists && probes[i].existing_files > 0 {
            before.push((item_dir(items[i]), conflict_reason(probes[i].existing_files as int)))
        } else {
            before
        }
    }
}

/// The album a dry run lists for `item`.
pub open spec fn planned_album(a: AlbumToDownload, item: CollectionItem, options: SyncOptions) -> bool {
    &&& a.artist@ == item.band_name@
    &&& a.album@ == item.item_title@
    &&& a.track_count == announced_tracks(item)
    &&& a.has_cover_art == wants_cover(item, options.skip_cover_art)
    &&& a.destination_path@ == item_dir(item)
}

/// The plan of a dry run over the missing `items`, given what the storage
/// holds at each item's folder (`probes[i]` for `items[i]`): every item is
/// listed; folders that do not exist are to be created, each once; folders
/// that exist and list entries are conflicts; every announced track and
/// every cover to fetch is a file to write; the size is reckoned per track.
pub fn plan_sync(items: &Vec<CollectionItem>, probes: &Vec<AlbumProbe>, options: &SyncOptions) -> (r:
    DryRunResult)
    requires
        probes@.len() == items@.len(),
        planned_tracks(items@) <= usize::MAX,
    ensures
        r.albums_to_download@.len() == items@.len(),
        forall|k: int| 0 <= k < items@.len() ==> planned_album(
            #[trigger] r.albums_to_download@[k],
            items@[k],
            *options,
        ),
        r.total_albums == items@.len(),
        r.total_tracks == planned_tracks(items@),
        r.estimated_size_mb == planned_tracks(items@) * options.audio_format.spec_mb_per_track(),
        text::str_views(r.directories_to_create@) == planned_dirs(items@, probes@),
        text::str_views(r.files_to_write@) == planned_files(items@, *options),
        r.conflicts@.len() == planned_conflicts(items@, probes@).len(),
        forall|k: int| 0 <= k < r.conflicts@.len() ==> (#[trigger] r.conflicts@[k]).path@
            == planned_conflicts(items@, probes@)[k].0 && r.conflicts@[k].reason@
            == planned_conflicts(items@, probes@)[k].1,
{
    let mut albums: Vec<AlbumToDownload> = Vec::new();
    let mut total_tracks: usize = 0;
    let mut dirs: Vec<String> = Vec::new();
    let mut files: Vec<String> = Vec::new();
    let mut conflicts: Vec<ConflictInfo> = Vec::new();
    let ext = options.audio_format.extension();
    let ext_chars = text::chars_of(ext);
    let mut i: usize = 0;
    while i < items.len()
        invariant
            i <= items@.len() == probes@.len(),
            planned_tracks(items@) <= usize::MAX,
            ext_chars@ == options.audio_format.spec_extension(),
            albums@.len() == i,
            forall|k: int| 0 <= k < i ==> planned_album(
                #[trigger] albums@[k],
                items@[k],
                *options,
            ),
            total_tracks == planned_tracks(items@.take(i as int)),
            text::str_views(dirs@) == planned_dirs(items@.take(i as int), probes@),
            text::str_views(files@) == planned_files(items@.take(i as int), *options),
            conflicts@.len() == planned_conflicts(items@.take(i as int), probes@).len(),
            forall|k: int| 0 <= k < conflicts@.len() ==> (#[trigger] conflicts@[k]).path@
                == planned_conflicts(items@.take(i as int), probes@)[k].0
                && conflicts@[k].reason@ == planned_conflicts(items@.take(i as int), probes@)[k].1,
        decreases items@.len() - i,
    {
        let item = &items[i];
        let ghost pre = items@.take(i as int);
        let ghost cur = items@.take(i + 1);
        assert(cur.drop_last() =~= pre);
        assert(cur.last() == *item);
        assert(cur[i as int] == *item);
        proof {
            lemma_planned_tracks_prefix(items@, i + 1);
        }
        let dir = album_dir(item.band_name.as_str(), item.item_title.as_str());
        let probe = &probes[i];
        // folders to create
        if !probe.exists {
            let mut seen = false;
            let mut k: usize = 0;
            while k < dirs.len()
                invariant
                    k <= dirs@.len(),
                    seen == exists|m: int| 0 <= m < k && paths::same_path(
                        #[trigger] text::str_views(dirs@)[m],
                        dir@,
                    ),
                decreases dirs@.len() - k,
            {
                let same = paths::paths_equal(dirs[k].as_str(), dir.as_str());
                assert(text::str_views(dirs@)[k as int] == dirs@[k as int]@);
                if same {
                    seen = true;
                }
                k += 1;
            }
            if !seen {
                let ghost before = text::str_views(dirs@);
                dirs.push(dir.clone());
                assert(text::str_views(dirs@) =~= before.push(dir@));
            }
        } else if probe.existing_files > 0 {
            let mut reason = text::chars_of("Album directory already exists with ");
            let count = text::u64_digits(probe.existing_files as u64);
            text::append_chars(&mut reason, &count);
            text::append_str(&mut reason, " files");
            proof {
                assert(text::int_decimal(probe.existing_files as int) == text::nat_digits(probe.existing_files as nat));
            }
            conflicts.push(ConflictInfo { path: dir.clone(), reason: text::string_from_chars(&reason) });
        }
        // the album itself
        let track_count: Option<usize> = match item.num_streamable_tracks {
            Some(n) => Some(n as usize),
            None => None,
        };
        let has_cover = !options.skip_cover_art && (item.item_art_id.is_some()
            || item.item_art_url.is_some());
        albums.push(
            AlbumToDownload {
                artist: item.band_name.clone(),
                album: item.item_title.clone(),
                track_count,
                has_cover_art: has_cover,
                destination_path: dir.clone(),
            },
        );
        // files to write
        let ghost files_before = text::str_views(files@);
        match track_count {
            Some(t) => {
                total_tracks = total_tracks + t;
                let mut k: usize = 0;
                while k < t
                    invariant
                        k <= t,
                        ext_chars@ == options.audio_format.spec_extension(),
                        text::str_views(files@) =~= files_before + Seq::new(
                            k as nat,
                            |m: int| paths::path_join(dir@, track_file_name(m + 1, ext_chars@)),
                        ),
                    decreases t - k,
                {
                    let mut name = text::chars_of("track_");
                    let num = text::u64_zero_padded((k + 1) as u64, 2);
                    text::append_chars(&mut name, &num);
                    name.push('.');
                    text::append_chars(&mut name, &ext_chars);
                    assert(name@ =~= track_file_name(k + 1, ext_chars@)) by {
                        assert(seq!['.'] =~= "."@) by {
                            text::lemma_dot_literal();
                        }
                    }
                    let path = paths::join_path(dir.as_str(), text::string_from_chars(&name).as_str());
                    let ghost before = text::str_views(files@);
                    files.push(path);
                    assert(text::str_views(files@) =~= before.push(path@));
                    k += 1;
                }
            },
            None => {},
        }
        if has_cover {
            let path = paths::join_path(dir.as_str(), "cover.jpg");
            let ghost before = text::str_views(files@);
            files.push(path);
            assert(text::str_views(files@) =~= before.push(path@));
        }
        assert(text::str_views(files@) =~= files_before + item_files(*item, *options));
        assert(albums@[i as int].artist@ == item.band_name@);
        assert(albums@[i as int].track_count == announced_tracks(*item));
        assert(albums@[i as int].has_cover_art == wants_cover(*item, options.skip_cover_art));
        assert(albums@[i as int].destination_path@ == item_dir(*item));
        assert(planned_album(albums@[i as int], items@[i as int], *options));
        i += 1;
    }
    assert(items@.take(items@.len() as int) =~= items@);
    let mb = options.audio_format.mb_per_track();
    let total = total_tracks as u128;
    assert(total * (mb as u128) <= 0xffff_ffff_ffff_ffff_ffff_ffff_ffff_ffff) by (nonlinear_arith)
        requires
            total <= 0xffff_ffff_ffff_ffff,
            mb <= 50,
    ;
    DryRunResult {
        albums_to_download: albums,
        total_albums: items.len(),
        total_tracks,
        estimated_size_mb: total * mb as u128,
        directories_to_create: dirs,
        files_to_write: files,
        conflicts,
    }
}

pub proof fn lemma_planned_tracks_prefix(items: Seq<CollectionItem>, i: int)
    requires
        0 <= i <= items.len(),
    ensures
        planned_tracks(items.take(i)) <= planned_tracks(items),
        planned_tracks(items.take(i)) >= 0,
    decreases items.len() - i,
{
    if i < items.len() {
        lemma_planned_tracks_prefix(items, i + 1);
        assert(items.take(i + 1).drop_last() =~= items.take(i));
        lemma_planned_tracks_nonneg(items.take(i));
    } else {
        assert(items.take(i) =~= items);
        lemma_planned_tracks_nonneg(items);
    }
}

pub proof fn lemma_planned_tracks_nonneg(items: Seq<CollectionItem>)
    ensures
        planned_tracks(items) >= 0,
    decreases items.len(),
{
    if items.len() > 0 {
        lemma_planned_tracks_nonneg(items.drop_last());
    }
}

/// A dry run lists each folder to create once: no two of its folders are
/// the same path, and each is the folder of an item whose folder does not
/// exist.
pub proof fn lemma_planned_dirs_distinct(items: Seq<CollectionItem>, probes: Seq<AlbumProbe>)
    ensures
        forall|a: int, b: int|
            0 <= a < b < planned_dirs(items, probes).len() ==> !paths::same_path(
                #[trigger] planned_dirs(items, probes)[a],
                #[trigger] planned_dirs(items, probes)[b],
            ),
        forall|a: int|
            0 <= a < planned_dirs(items, probes).len() ==> exists|i: int|
                0 <= i < items.len() && !probes[i].exists && #[trigger] planned_dirs(items, probes)[a]
                    == item_dir(items[i]),
    decreases items.len(),
{
    if items.len() == 0 || probes.len() < items.len() {
    } else {
        let d = items.drop_last();
        lemma_planned_dirs_distinct(d, probes);
        let before = planned_dirs(d, probes);
        let all = planned_dirs(items, probes);
        let i = items.len() - 1;
        assert forall|a: int, b: int| 0 <= a < b < all.len() implies !paths::same_path(
            #[trigger] all[a],
            #[trigger] all[b],
        ) by {
            if b < before.len() {
                assert(all[a] == before[a]);
                assert(all[b] == before[b]);
            } else {
                assert(!holds_path(before, item_dir(items[i])));
                assert(all[b] == item_dir(items[i]));
                assert(all[a] == before[a]);
                if paths::same_path(before[a], item_dir(items[i])) {
                    assert(holds_path(before, item_dir(items[i])));
                }
            }
        }
        assert forall|a: int| 0 <= a < all.len() implies exists|j: int|
            0 <= j < items.len() && !probes[j].exists && #[trigger] all[a] == item_dir(items[j]) by {
            if a < before.len() {
                let j = choose|j: int| 0 <= j < d.len() && !probes[j].exists && before[a] == item_dir(d[j]);
                assert(items[j] == d[j]);
                assert(all[a] == before[a]);
            } else {
                assert(all[a] == item_dir(items[i]));
            }
        }
    }
}

/// An entry of a folder listing: its name, when it has one that is valid
/// Unicode, and whether it is a folder.
pub struct ListedEntry {
    pub name: Option<String>,
    pub is_directory: bool,
}

/// `name` is an audio file: it ends with `.mp3`, `.m4a`, `.flac` or `.wav`.
pub open spec fn is_audio_name(name: Seq<char>) -> bool {
    text::has_suffix(name, ".mp3"@) || text::has_suffix(name, ".m4a"@) || text::has_suffix(
        name,
        ".flac"@,
    ) || text::has_suffix(name, ".wav"@)
}

/// `name` is a cover image: `cover.jpg` or `cover.png`.
pub open spec fn is_cover_name(name: Seq<char>) -> bool {
    name == "cover.jpg"@ || name == "cover.png"@
}

/// The names of the audio files among `entries`, in order.
pub open spec fn audio_tracks(entries: Seq<ListedEntry>) -> Seq<Seq<char>>
    decreases entries.len(),
{
    if entries.len() == 0 {
        seq![]
    } else {
        let before = audio_tracks(entries.drop_last());
        let e = entries.last();
        match e.name {
            Some(n) => if !e.is_directory && is_audio_name(n@) {
                before.push(n@)
            } else {
                before
            },
            None => before,
        }
    }
}

/// The entry is named as a cover image.
pub open spec fn entry_is_cover(e: ListedEntry) -> bool {
    match e.name {
        Some(n) => is_cover_name(n@),
        None => false,
    }
}

/// Some entry is named as a cover image.
pub open spec fn lists_cover(entries: Seq<ListedEntry>) -> bool {
    exists|k: int| 0 <= k < entries.len() && entry_is_cover(#[trigger] entries[k])
}

/// Whether `name` ends in one of the audio extensions.
pub fn is_audio_file_name(name: &str) -> (b: bool)
    ensures
        b == is_audio_name(name@),
{
    let v = text::chars_of(name);
    text::ends_with(&v, &text::chars_of(".mp3")) || text::ends_with(&v, &text::chars_of(".m4a"))
        || text::ends_with(&v, &text::chars_of(".flac")) || text::ends_with(
        &v,
        &text::chars_of(".wav"),
    )
}

/// Whether `name` is that of a cover image.
pub fn is_cover_file_name(name: &str) -> (b: bool)
    ensures
        b == is_cover_name(name@),
{
    text::str_eq(name, "cover.jpg") || text::str_eq(name, "cover.png")
}

/// The library album that the folder `artist/album` holds, given the
/// folder's listing: its audio files and whether it has a cover; nothing
/// when it holds no audio file.
pub fn library_album(artist: String, album: String, entries: &Vec<ListedEntry>) -> (r: Option<
    MusicLibraryItem,
>)
    ensures
        match r {
            Some(a) => a.artist@ == artist@ && a.album@ == album@ && text::str_views(a.tracks@)
                == audio_tracks(entries@) && audio_tracks(entries@).len() > 0 && a.has_cover
                == lists_cover(entries@),
            None => audio_tracks(entries@).len() == 0,
        },
{
    let mut tracks: Vec<String> = Vec::new();
    let mut has_cover = false;
    let mut i: usize = 0;
    while i < entries.len()
        invariant
            i <= entries@.len(),
            text::str_views(tracks@) == audio_tracks(entries@.take(i as int)),
            has_cover == exists|k: int| 0 <= k < i && entry_is_cover(#[trigger] entries@[k]),
        decreases entries@.len() - i,
    {
        let e = &entries[i];
        assert(entries@.take(i + 1).drop_last() =~= entries@.take(i as int));
        assert(entries@.take(i + 1).last() == *e);
        match &e.name {
            Some(n) => {
                if !e.is_directory && is_audio_file_name(n.as_str()) {
                    let ghost before = text::str_views(tracks@);
                    tracks.push(n.clone());
                    assert(text::str_views(tracks@) =~= before.push(n@));
                }
                if is_cover_file_name(n.as_str()) {
                    has_cover = true;
                }
            },
            None => {},
        }
        i += 1;
    }
    assert(entries@.take(entries@.len() as int) =~= entries@);
    if tracks.len() > 0 {
        Some(MusicLibraryItem { artist, album, tracks, has_cover })
    } else {
        None
    }
}

/// The first line of a dry run's summary.
#[derive(Debug, PartialEq, Eq)]
pub enum PlanSummary {
    /// Every album announces its track count.
    AllKnown { tracks: usize, size_mb: u128 },
    /// Some albums announce a track count and some do not.
    Partial { known_tracks: usize, unknown_albums: usize, size_mb: u128 },
    /// No album announces a track count.
    AllUnknown,
}

/// The number of albums of `albums` that announce no track count.
pub open spec fn unknown_count(albums: Seq<AlbumToDownload>) -> int
    decreases albums.len(),
{
    if albums.len() == 0 {
        0
    } else {
        unknown_count(albums.drop_last()) + if albums.last().track_count is None { 1int } else { 0 }
    }
}

/// How a dry run's summary reads: whether track counts and size are
/// known, partly known, or unknown.
pub fn plan_summary(result: &DryRunResult) -> (r: PlanSummary)
    ensures
        r == (if unknown_count(result.albums_to_download@) > 0 {
            if result.total_tracks > 0 {
                PlanSummary::Partial {
                    known_tracks: result.total_tracks,
                    unknown_albums: unknown_count(result.albums_to_download@) as usize,
                    size_mb: result.estimated_size_mb,
                }
            } else {
                PlanSummary::AllUnknown
            }
        } else {
            PlanSummary::AllKnown { tracks: result.total_tracks, size_mb: result.estimated_size_mb }
        }),
{
    let albums = &result.albums_to_download;
    let mut unknown: usize = 0;
    let mut i: usize = 0;
    while i < albums.len()
        invariant
            i <= albums@.len(),
            unknown == unknown_count(albums@.take(i as int)),
            unknown <= i,
        decreases albums@.len() - i,
    {
        assert(albums@.take(i + 1).drop_last() =~= albums@.take(i as int));
        if albums[i].track_count.is_none() {
            unknown = unknown + 1;
        }
        i += 1;
    }
    assert(albums@.take(albums@.len() as int) =~= albums@);
    if unknown > 0 {
        if result.total_tracks > 0 {
            PlanSummary::Partial {
                known_tracks: result.total_tracks,
                unknown_albums: unknown,
                size_mb: result.estimated_size_mb,
            }
        } else {
            PlanSummary::AllUnknown
        }
    } else {
        PlanSummary::AllKnown { tracks: result.total_tracks, size_mb: result.estimated_size_mb }
    }
}

/// What a sync run does with the missing albums.
#[derive(Debug, PartialEq, Eq)]
pub enum SyncMode {
    /// Show the plan of a dry run.
    DryRun,
    /// Nothing is missing.
    UpToDate,
    /// Download one album after the other.
    Sequential,
    /// Download with this many workers.
    Parallel(usize),
}

/// How a sync proceeds: a dry run only plans; with nothing missing there is
/// nothing to do; otherwise albums are downloaded one at a time or by
/// parallel workers.
pub fn sync_mode(options: &SyncOptions, missing: usize) -> (r: SyncMode)
    ensures
        r == (if options.dry_run {
            SyncMode::DryRun
        } else if missing == 0 {
            SyncMode::UpToDate
        } else if options.parallel_downloads == 0 {
            SyncMode::Sequential
        } else {
            SyncMode::Parallel(options.parallel_downloads)
        }),
{
    if options.dry_run {
        SyncMode::DryRun
    } else if missing == 0 {
        SyncMode::UpToDate
    } else if options.parallel_downloads == 0 {
        SyncMode::Sequential
    } else {
        SyncMode::Parallel(options.parallel_downloads)
    }
}

/// The name of the scratch folder an album is downloaded into before upload:
/// `artist-album`, both sanitized.
pub fn download_folder_name(artist: &str, album: &str) -> (r: String)
    ensures
        r@ == sanitized(artist@) + "-"@ + sanitized(album@),
{
    let mut v = text::chars_of(&sanitize_filename(artist));
    text::append_str(&mut v, "-");
    text::append_str(&mut v, &sanitize_filename(album));
    text::string_from_chars(&v)
}

} // verus!
