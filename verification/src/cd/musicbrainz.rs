//! Turning MusicBrainz releases into CD albums: picking the medium that
//! matches the disc, its tracks, the cover image and the queries to send.

use vstd::prelude::*;
use crate::text;
use crate::thirdparty;
use crate::cd::models::{CDAlbum, CDToc, CDTrack};

verus! {

/// The recording of a MusicBrainz track: its id, the name of its first
/// credited artist and its first ISRC.
pub struct MbRecording {
    pub id: String,
    pub artist: Option<String>,
    pub isrc: Option<String>,
}

/// A track of a medium; `length` is in milliseconds.
pub struct MbTrack {
    pub position: u32,
    pub title: String,
    pub length: Option<u32>,
    pub recording: Option<MbRecording>,
}

/// A medium (disc) of a release.
pub struct MbMedium {
    pub track_count: u32,
    pub tracks: Option<Vec<MbTrack>>,
}

/// The first label entry of a release.
pub struct MbLabelInfo {
    pub label_name: Option<String>,
    pub catalog_number: Option<String>,
}

/// What the library reads of a MusicBrainz release: the name of its first
/// credited artist and the id of its last, its first label entry, its media,
/// release group, tag names, date and barcode.
pub struct MbRelease {
    pub id: String,
    pub title: String,
    pub first_artist: Option<String>,
    pub last_artist_id: Option<String>,
    pub label_info: Option<MbLabelInfo>,
    pub media: Option<Vec<MbMedium>>,
    pub release_group_id: Option<String>,
    pub tags: Vec<String>,
    pub date: Option<String>,
    pub barcode: Option<String>,
}

/// The CD track for a MusicBrainz track.
pub open spec fn cd_track_of(t: MbTrack, c: CDTrack) -> bool {
    &&& c.track_num == t.position as i32
    &&& c.title@ == t.title@
    &&& c.artist == match t.recording {
        Some(r) => r.artist,
        None => None,
    }
    &&& c.duration_ms == match t.length {
        Some(ms) => ms,
        None => 0,
    }
    &&& c.isrc == match t.recording {
        Some(r) => r.isrc,
        None => None,
    }
    &&& c.mb_recording_id == match t.recording {
        Some(r) => Some(r.id),
        None => None,
    }
    &&& c.start_offset == 0
    &&& c.end_offset == 0
    &&& c.pregap_ms is None
}

/// The tracks of a medium, in order, and their total length.
pub open spec fn medium_tracks(m: MbMedium, tracks: Seq<CDTrack>) -> bool {
    match m.tracks {
        Some(ts) => tracks.len() == ts@.len() && forall|k: int|
            0 <= k < ts@.len() ==> cd_track_of(ts@[k], #[trigger] tracks[k]),
        None => tracks.len() == 0,
    }
}

/// The sum of the lengths of `tracks`, in milliseconds.
pub open spec fn total_ms(tracks: Seq<CDTrack>) -> int
    decreases tracks.len(),
{
    if tracks.len() == 0 {
        0
    } else {
        total_ms(tracks.drop_last()) + tracks.last().duration_ms
    }
}

fn convert_track(t: &MbTrack) -> (c: CDTrack)
    ensures
        cd_track_of(*t, c),
{
    let (artist, isrc, rec_id) = match &t.recording {
        Some(r) => (text::copy_opt_string(&r.artist), text::copy_opt_string(&r.isrc), Some(r.id.clone())),
        None => (None, None, None),
    };
    CDTrack {
        track_num: #[verifier::truncate] (t.position as i32),
        title: t.title.clone(),
        artist,
        duration_ms: match t.length {
            Some(ms) => ms,
            None => 0,
        },
        isrc,
        mb_recording_id: rec_id,
        start_offset: 0,
        end_offset: 0,
        pregap_ms: None,
    }
}

/// The CD tracks of a medium, and their total length in milliseconds.
pub fn medium_cd_tracks(m: &MbMedium) -> (r: (Vec<CDTrack>, u128))
    ensures
        medium_tracks(*m, r.0@),
        r.1 == total_ms(r.0@),
{
    let mut out: Vec<CDTrack> = Vec::new();
    let mut total: u128 = 0;
    match &m.tracks {
        None => {},
        Some(ts) => {
            let mut i: usize = 0;
            while i < ts.len()
                invariant
                    i <= ts@.len(),
                    out@.len() == i,
                    forall|k: int| 0 <= k < i ==> cd_track_of(ts@[k], #[trigger] out@[k]),
                    total == total_ms(out@),
                    total <= i * 0x1_0000_0000,
                decreases ts@.len() - i,
            {
                let c = convert_track(&ts[i]);
                let d = c.duration_ms;
                let ghost before = out@;
                out.push(c);
                assert(out@.drop_last() =~= before);
                total = total + d as u128;
                i += 1;
            }
        },
    }
    (out, total)
}

/// Which medium of `media` a disc with table of contents `toc` is, counted
/// from 0: with several media and a table of contents, the first whose
/// track count is the disc's, else the first; otherwise the first.
pub open spec fn matched_medium(media: Seq<MbMedium>, toc: Option<CDToc>) -> int {
    match toc {
        Some(t) => if (media.len() as i32) > 1 {
            match first_with_count(media, t.track_offsets@.len() as u32, 0) {
                Some(i) => i,
                None => 0,
            }
        } else {
            0
        },
        None => 0,
    }
}

/// The first medium at or after `i` with `count` tracks.
pub open spec fn first_with_count(media: Seq<MbMedium>, count: u32, i: int) -> Option<int>
    decreases media.len() - i,
{
    if i < 0 || i >= media.len() {
        None
    } else if media[i].track_count == count {
        Some(i)
    } else {
        first_with_count(media, count, i + 1)
    }
}

pub proof fn lemma_first_with_count(media: Seq<MbMedium>, count: u32, i: int)
    requires
        0 <= i,
    ensures
        first_with_count(media, count, i) matches Some(j) ==> i <= j < media.len(),
    decreases media.len() - i,
{
    if i < media.len() && media[i].track_count != count {
        lemma_first_with_count(media, count, i + 1);
    }
}

fn find_medium(media: &Vec<MbMedium>, count: u32) -> (r: Option<usize>)
    ensures
        match r {
            Some(k) => first_with_count(media@, count, 0) == Some(k as int),
            None => first_with_count(media@, count, 0) is None,
        },
{
    let mut k: usize = 0;
    while k < media.len()
        invariant
            k <= media@.len(),
            first_with_count(media@, count, 0) == first_with_count(media@, count, k as int),
        decreases media@.len() - k,
    {
        if media[k].track_count == count {
            return Some(k);
        }
        k += 1;
    }
    None
}

/// What an album takes from its release regardless of the disc: the
/// release's artist, title, label, tags and identifiers, and the cover
/// found for it.
pub open spec fn album_header(
    a: CDAlbum,
    release: MbRelease,
    cover_url: Option<String>,
    cover_available: bool,
) -> bool {
    &&& a.artist@ == match release.first_artist {
        Some(n) => n@,
        None => "Unknown Artist"@,
    }
    &&& a.album_title@ == release.title@
    &&& a.release_date == release.date
    &&& a.label == match release.label_info {
        Some(l) => l.label_name,
        None => None,
    }
    &&& a.catalog_number == match release.label_info {
        Some(l) => l.catalog_number,
        None => None,
    }
    &&& a.barcode == release.barcode
    &&& a.genres@ == release.tags@
    &&& a.mb_release_id == Some(release.id)
    &&& a.mb_release_group_id == release.release_group_id
    &&& a.mb_artist_id == release.last_artist_id
    &&& a.cover_art_url == cover_url
    &&& a.cover_art_available == cover_available
    &&& a.media_format@ == "CD"@
}

/// The album that a release describes for the disc `disc_id`: the header
/// of the release, the tracks of the medium that matches the disc (see
/// `matched_medium`) and their total length, which disc that is and how
/// many the release has.
pub open spec fn album_of_release(
    a: CDAlbum,
    disc_id: Seq<char>,
    release: MbRelease,
    toc: Option<CDToc>,
    cover_url: Option<String>,
    cover_available: bool,
) -> bool {
    &&& a.disc_id@ == disc_id
    &&& album_header(a, release, cover_url, cover_available)
    &&& a.total_duration_ms == total_ms(a.tracks@)
    &&& match release.media {
        Some(ms) => {
            let i = matched_medium(ms@, toc);
            &&& a.total_discs == Some(ms@.len() as i32)
            &&& a.disc_number == Some((i + 1) as i32)
            &&& if ms@.len() > 0 {
                medium_tracks(ms@[i], a.tracks@)
            } else {
                a.tracks@.len() == 0
            }
        },
        None => a.total_discs == Some(1i32) && a.disc_number == Some(1i32) && a.tracks@.len() == 0,
    }
}

/// The album a release describes for the disc `disc_id`, given the cover
/// that was found for it.
pub fn album_from_release(
    disc_id: &str,
    release: &MbRelease,
    toc: Option<&CDToc>,
    cover_url: Option<String>,
    cover_available: bool,
) -> (a: CDAlbum)
    ensures
        album_of_release(
            a,
            disc_id@,
            *release,
            match toc {
                Some(t) => Some(*t),
                None => None,
            },
            cover_url,
            cover_available,
        ),
{
    let ghost gtoc = match toc {
        Some(t) => Some(*t),
        None => None::<CDToc>,
    };
    let artist = match &release.first_artist {
        Some(n) => n.clone(),
        None => "Unknown Artist".to_string(),
    };
    let (label, catalog_number) = match &release.label_info {
        Some(l) => (text::copy_opt_string(&l.label_name), text::copy_opt_string(&l.catalog_number)),
        None => (None, None),
    };
    let mut tracks: Vec<CDTrack> = Vec::new();
    let mut total: u128 = 0;
    let mut disc_number: i32 = 1;
    let mut total_discs: i32 = 1;
    match &release.media {
        None => {},
        Some(media) => {
            total_discs = #[verifier::truncate] (media.len() as i32);
            let mut index: usize = 0;
            match toc {
                Some(t) => {
                    if total_discs > 1 {
                        let count = #[verifier::truncate] (t.track_offsets.len() as u32);
                        let found = find_medium(media, count);
                        proof {
                            lemma_first_with_count(media@, count, 0);
                        }
                        match found {
                            Some(k) => {
                                index = k;
                                disc_number = #[verifier::truncate] ((k + 1) as i32);
                            },
                            None => {},
                        }
                    }
                },
                None => {},
            }
            assert(index as int == matched_medium(media@, gtoc));
            if media.len() > 0 {
                let (ts, t) = medium_cd_tracks(&media[index]);
                tracks = ts;
                total = t;
            }
        },
    }
    CDAlbum {
        disc_id: disc_id.to_string(),
        artist,
        album_title: release.title.clone(),
        release_date: text::copy_opt_string(&release.date),
        label,
        catalog_number,
        barcode: text::copy_opt_string(&release.barcode),
        tracks,
        genres: text::copy_strings(&release.tags),
        total_duration_ms: total,
        mb_release_id: Some(release.id.clone()),
        mb_release_group_id: text::copy_opt_string(&release.release_group_id),
        mb_artist_id: text::copy_opt_string(&release.last_artist_id),
        cover_art_url: cover_url,
        cover_art_available: cover_available,
        disc_number: Some(disc_number),
        total_discs: Some(total_discs),
        media_format: "CD".to_string(),
    }
}

proof fn lemma_first_with_count_first(media: Seq<MbMedium>, count: u32, i: int)
    requires
        0 <= i,
    ensures
        match first_with_count(media, count, i) {
            Some(j) => i <= j < media.len() && media[j].track_count == count && forall|k: int|
                i <= k < j ==> media[k].track_count != count,
            None => forall|k: int| i <= k < media.len() ==> media[k].track_count != count,
        },
    decreases media.len() - i,
{
    if i < media.len() && media[i].track_count != count {
        lemma_first_with_count_first(media, count, i + 1);
    }
}

/// The album a release gives for the disc in the drive is the medium that
/// matches the disc: with a table of contents and several media (no more
/// than an `i32` counts), the album is disc `i + 1` and has the tracks of
/// medium `i`, where medium `i` is the first with as many tracks as the
/// table has offsets, or the first medium when none has that many.
pub proof fn lemma_album_medium_matches_toc(
    a: CDAlbum,
    disc_id: Seq<char>,
    release: MbRelease,
    t: CDToc,
    cover_url: Option<String>,
    cover_available: bool,
)
    requires
        album_of_release(a, disc_id, release, Some(t), cover_url, cover_available),
        release.media matches Some(ms) && 1 < ms@.len() <= i32::MAX,
    ensures
        match release.media {
            Some(ms) => {
                let count = t.track_offsets@.len() as u32;
                exists|i: int|
                    0 <= i < ms@.len() && a.disc_number == Some((i + 1) as i32) && medium_tracks(
                        #[trigger] ms@[i],
                        a.tracks@,
                    ) && ((ms@[i].track_count == count && forall|k: int|
                        0 <= k < i ==> ms@[k].track_count != count) || (i == 0 && forall|k: int|
                        0 <= k < ms@.len() ==> ms@[k].track_count != count))
            },
            None => true,
        },
{
    match release.media {
        Some(ms) => {
            let count = t.track_offsets@.len() as u32;
            assert((ms@.len() as i32) > 1);
            lemma_first_with_count_first(ms@, count, 0);
            let i = matched_medium(ms@, Some(t));
            assert(0 <= i < ms@.len() && medium_tracks(ms@[i], a.tracks@));
        },
        None => {},
    }
}

/// The index of disc `disc_number` (from 1) among `count` media, if there is
/// such a disc; the number minus one is read as an index.
pub open spec fn disc_index(disc_number: i32, count: int) -> Option<int> {
    let i = ((disc_number - 1) as i32) as usize;
    if (i as int) < count { Some(i as int) } else { None }
}

/// Disc `disc_number` of a release (used for the later discs of a set):
/// the album `album_from_release` gives without a table of contents, with
/// the tracks of that disc, its number and the id `disc_id`; nothing when
/// the release has no such disc.
pub fn release_disc(
    release: &MbRelease,
    disc_id: &str,
    disc_number: i32,
    cover_url: Option<String>,
    cover_available: bool,
) -> (r: Option<CDAlbum>)
    requires
        disc_number > i32::MIN,
    ensures
        match release.media {
            None => r is None,
            Some(ms) => match disc_index(disc_number, ms@.len() as int) {
                None => r is None,
                Some(i) => r matches Some(a) && {
                    &&& a.disc_id@ == disc_id@
                    &&& album_header(a, *release, cover_url, cover_available)
                    &&& a.disc_number == Some(disc_number)
                    &&& a.total_discs == Some(ms@.len() as i32)
                    &&& medium_tracks(ms@[i], a.tracks@)
                    &&& forall|t: Seq<CDTrack>| medium_tracks(ms@[0], t) ==> a.total_duration_ms == total_ms(t)
                },
            },
        },
{
    let media = match &release.media {
        Some(m) => m,
        None => {
            return None;
        },
    };
    let index = #[verifier::truncate] ((disc_number - 1) as usize);
    assert(index as int == ((((disc_number - 1) as i32) as usize)) as int);
    if index >= media.len() {
        return None;
    }
    let (tracks, _) = medium_cd_tracks(&media[index]);
    let mut album = album_from_release(disc_id, release, None, cover_url, cover_available);
    proof {
        lemma_medium_tracks_total(media@[0], album.tracks@);
    }
    album.tracks = tracks;
    album.disc_number = Some(disc_number);
    album.disc_id = disc_id.to_string();
    Some(album)
}

/// All track lists of a medium have the same total length.
pub proof fn lemma_medium_tracks_total(m: MbMedium, t1: Seq<CDTrack>)
    requires
        medium_tracks(m, t1),
    ensures
        forall|t2: Seq<CDTrack>| medium_tracks(m, t2) ==> total_ms(t2) == total_ms(t1),
{
    assert forall|t2: Seq<CDTrack>| medium_tracks(m, t2) implies total_ms(t2) == total_ms(t1) by {
        lemma_same_lengths(m, t1, t2, t1.len() as int);
        assert(t1.take(t1.len() as int) =~= t1);
        assert(t2.take(t2.len() as int) =~= t2);
    }
}

proof fn lemma_same_lengths(m: MbMedium, t1: Seq<CDTrack>, t2: Seq<CDTrack>, n: int)
    requires
        medium_tracks(m, t1),
        medium_tracks(m, t2),
        0 <= n <= t1.len(),
    ensures
        total_ms(t1.take(n)) == total_ms(t2.take(n)),
    decreases n,
{
    if n > 0 {
        lemma_same_lengths(m, t1, t2, n - 1);
        assert(t1.take(n).drop_last() =~= t1.take(n - 1));
        assert(t2.take(n).drop_last() =~= t2.take(n - 1));
        let ts = m.tracks->0@;
        assert(cd_track_of(ts[n - 1], t1[n - 1]));
        assert(cd_track_of(ts[n - 1], t2[n - 1]));
    }
}

/// An image the Cover Art Archive lists for a release.
pub struct CoverImage {
    pub front: bool,
    pub image: String,
}

/// The index of the first front image at or after `i`.
pub open spec fn first_front(images: Seq<CoverImage>, i: int) -> Option<int>
    decreases images.len() - i,
{
    if i < 0 || i >= images.len() {
        None
    } else if images[i].front {
        Some(i)
    } else {
        first_front(images, i + 1)
    }
}

/// The cover of a release among its images: the first front image, else the
/// first image.
pub open spec fn chosen_cover(images: Seq<CoverImage>) -> Option<Seq<char>> {
    match first_front(images, 0) {
        Some(i) => Some(images[i].image@),
        None => if images.len() > 0 { Some(images[0].image@) } else { None },
    }
}

proof fn lemma_first_front_first(images: Seq<CoverImage>, i: int)
    requires
        0 <= i,
    ensures
        match first_front(images, i) {
            Some(j) => i <= j < images.len() && images[j].front && forall|k: int|
                i <= k < j ==> !images[k].front,
            None => forall|k: int| i <= k < images.len() ==> !images[k].front,
        },
    decreases images.len() - i,
{
    if i < images.len() && !images[i].front {
        lemma_first_front_first(images, i + 1);
    }
}

/// The cover chosen among a release's images is the image of the first
/// front image, or of the first image when none is a front; with no image
/// there is no cover.
pub proof fn lemma_chosen_cover_first_front(images: Seq<CoverImage>)
    ensures
        images.len() == 0 ==> chosen_cover(images) is None,
        images.len() > 0 ==> exists|i: int|
            0 <= i < images.len() && chosen_cover(images) == Some(#[trigger] images[i].image@) && ((
            images[i].front && forall|k: int| 0 <= k < i ==> !images[k].front) || (i == 0 && forall|
            k: int,
        |
            0 <= k < images.len() ==> !images[k].front)),
{
    lemma_first_front_first(images, 0);
    if images.len() > 0 {
        match first_front(images, 0) {
            Some(j) => {
                assert(chosen_cover(images) == Some(images[j].image@));
            },
            None => {
                assert(chosen_cover(images) == Some(images[0].image@));
            },
        }
    }
}

pub proof fn lemma_first_front(images: Seq<CoverImage>, i: int)
    requires
        0 <= i,
    ensures
        first_front(images, i) matches Some(j) ==> i <= j < images.len(),
    decreases images.len() - i,
{
    if i < images.len() && !images[i].front {
        lemma_first_front(images, i + 1);
    }
}

/// Picks the cover image of a release.
pub fn choose_cover(images: &Vec<CoverImage>) -> (r: Option<String>)
    ensures
        text::opt_str(r) == chosen_cover(images@),
{
    proof {
        lemma_first_front(images@, 0);
    }
    let mut i: usize = 0;
    while i < images.len()
        invariant
            i <= images@.len(),
            first_front(images@, 0) == first_front(images@, i as int),
        decreases images@.len() - i,
    {
        if images[i].front {
            return Some(images[i].image.clone());
        }
        i += 1;
    }
    if images.len() > 0 {
        Some(images[0].image.clone())
    } else {
        None
    }
}

/// The query that searches releases by artist and title:
/// `artist:"<artist>" AND release:"<title>"`.
pub open spec fn release_query_of(artist: Seq<char>, title: Seq<char>) -> Seq<char> {
    "artist:\""@ + artist + "\" AND release:\""@ + title + "\""@
}

/// The query that searches releases by artist and title.
pub fn release_query(artist: &str, title: &str) -> (r: String)
    ensures
        r@ == release_query_of(artist@, title@),
{
    let mut v = text::chars_of("artist:\"");
    text::append_str(&mut v, artist);
    text::append_str(&mut v, "\" AND release:\"");
    text::append_str(&mut v, title);
    text::append_str(&mut v, "\"");
    text::string_from_chars(&v)
}

/// The ids of `ids`, in order, but `current`.
pub open spec fn other_ids(ids: Seq<Seq<char>>, current: Seq<char>) -> Seq<Seq<char>>
    decreases ids.len(),
{
    if ids.len() == 0 {
        seq![]
    } else {
        let before = other_ids(ids.drop_last(), current);
        if ids.last() == current { before } else { before.push(ids.last()) }
    }
}

/// The releases searched for another cover: those of the release group but
/// the release itself, in order.
pub fn other_releases(ids: &Vec<String>, current: &str) -> (r: Vec<String>)
    ensures
        text::str_views(r@) == other_ids(text::str_views(ids@), current@),
{
    let mut out: Vec<String> = Vec::new();
    let mut i: usize = 0;
    while i < ids.len()
        invariant
            i <= ids@.len(),
            text::str_views(out@) == other_ids(text::str_views(ids@).take(i as int), current@),
        decreases ids@.len() - i,
    {
        assert(text::str_views(ids@).take(i + 1).drop_last() =~= text::str_views(ids@).take(i as int));
        assert(text::str_views(ids@).take(i + 1).last() == ids@[i as int]@);
        if !text::str_eq(ids[i].as_str(), current) {
            let ghost before = text::str_views(out@);
            out.push(ids[i].clone());
            assert(text::str_views(out@) =~= before.push(ids@[i as int]@));
        }
        i += 1;
    }
    assert(text::str_views(ids@).take(ids@.len() as int) =~= text::str_views(ids@));
    out
}

/// The search results checked for another cover: the first 20, but the
/// release itself.
pub fn search_candidates(ids: &Vec<String>, current: &str) -> (r: Vec<String>)
    ensures
        text::str_views(r@) == other_ids(
            text::str_views(ids@).take(if ids@.len() < 20 { ids@.len() as int } else { 20 }),
            current@,
        ),
{
    let n: usize = if ids.len() < 20 { ids.len() } else { 20 };
    let mut first: Vec<String> = Vec::new();
    let mut i: usize = 0;
    while i < n
        invariant
            i <= n <= ids@.len(),
            first@ =~= ids@.take(i as int),
        decreases n - i,
    {
        first.push(ids[i].clone());
        assert(ids@.take(i + 1) =~= ids@.take(i as int).push(ids@[i as int]));
        i += 1;
    }
    assert(text::str_views(first@) =~= text::str_views(ids@).take(n as int));
    other_releases(&first, current)
}

/// Whether a release's first medium has about as many tracks as the disc:
/// the two counts, read as 32-bit integers, differ by at most 2.
pub open spec fn track_count_close_spec(release_tracks: usize, disc_tracks: usize) -> bool {
    let d = (release_tracks as i32) - (disc_tracks as i32);
    -2 <= d <= 2
}

/// Two track counts (each as an `i32` holds it) are close when they differ
/// by at most two.
pub proof fn lemma_track_count_close_within_two(release_tracks: usize, disc_tracks: usize)
    requires
        release_tracks <= i32::MAX,
        disc_tracks <= i32::MAX,
    ensures
        track_count_close_spec(release_tracks, disc_tracks) == (release_tracks <= disc_tracks + 2
            && disc_tracks <= release_tracks + 2),
{
}

/// Whether a release found by name has about as many tracks as the disc.
pub fn track_count_close(release_tracks: usize, disc_tracks: usize) -> (r: bool)
    requires
        i32::MIN < (release_tracks as i32) - (disc_tracks as i32) <= i32::MAX,
    ensures
        r == track_count_close_spec(release_tracks, disc_tracks),
{
    let a = #[verifier::truncate] (release_tracks as i32);
    let b = #[verifier::truncate] (disc_tracks as i32);
    let d = a - b;
    let m = if d < 0 { -d } else { d };
    m <= 2
}

/// The text of a table of contents: first track, last track, lead-out and
/// the track offsets, separated by `sep`.
pub open spec fn toc_text(toc: CDToc, sep: Seq<char>) -> Seq<char> {
    text::joined(
        seq![
            text::int_decimal(toc.first_track as int),
            text::int_decimal(toc.last_track as int),
            text::int_decimal(toc.leadout_offset as int),
        ] + toc.track_offsets@.map_values(|o: i32| text::int_decimal(o as int)),
        sep,
    )
}

/// The text of a table of contents, its numbers separated by `sep`.
pub fn toc_string(toc: &CDToc, sep: &str) -> (r: String)
    ensures
        r@ == toc_text(*toc, sep@),
{
    let mut parts: Vec<String> = Vec::new();
    parts.push(text::string_from_chars(&text::i64_decimal(toc.first_track as i64)));
    parts.push(text::string_from_chars(&text::i64_decimal(toc.last_track as i64)));
    parts.push(text::string_from_chars(&text::i64_decimal(toc.leadout_offset as i64)));
    let ghost head = text::str_views(parts@);
    assert(head =~= seq![
        text::int_decimal(toc.first_track as int),
        text::int_decimal(toc.last_track as int),
        text::int_decimal(toc.leadout_offset as int),
    ]);
    let mut i: usize = 0;
    while i < toc.track_offsets.len()
        invariant
            i <= toc.track_offsets@.len(),
            text::str_views(parts@) =~= head + toc.track_offsets@.take(i as int).map_values(
                |o: i32| text::int_decimal(o as int),
            ),
        decreases toc.track_offsets@.len() - i,
    {
        let ghost before = text::str_views(parts@);
        parts.push(text::string_from_chars(&text::i64_decimal(toc.track_offsets[i] as i64)));
        assert(text::str_views(parts@) =~= before.push(text::int_decimal(toc.track_offsets@[i as int] as int)));
        assert(toc.track_offsets@.take(i + 1) =~= toc.track_offsets@.take(i as int).push(toc.track_offsets@[i as int]));
        i += 1;
    }
    assert(toc.track_offsets@.take(toc.track_offsets@.len() as int) =~= toc.track_offsets@);
    assert(text::str_views(parts@) =~= seq![
        text::int_decimal(toc.first_track as int),
        text::int_decimal(toc.last_track as int),
        text::int_decimal(toc.leadout_offset as int),
    ] + toc.track_offsets@.map_values(|o: i32| text::int_decimal(o as int)));
    text::join_strings(&parts, sep)
}

/// The MusicBrainz lookup of releases by table of contents.
pub open spec fn toc_lookup_url_of(toc: CDToc) -> Seq<char> {
    "https://musicbrainz.org/ws/2/discid/-?toc="@ + thirdparty::url_encoded(toc_text(toc, " "@))
        + "&fmt=json"@
}

/// The MusicBrainz lookup of releases by table of contents.
pub fn toc_lookup_url(toc: &CDToc) -> (r: String)
    ensures
        r@ == toc_lookup_url_of(*toc),
{
    let t = toc_string(toc, " ");
    let mut v = text::chars_of("https://musicbrainz.org/ws/2/discid/-?toc=");
    text::append_str(&mut v, thirdparty::url_encode(t.as_str()).as_str());
    text::append_str(&mut v, "&fmt=json");
    text::string_from_chars(&v)
}


/// `prefix`, then `value` percent-encoded, then `suffix`.
fn encoded_between(prefix: &str, value: &str, suffix: &str) -> (r: String)
    ensures
        r@ == prefix@ + thirdparty::url_encoded(value@) + suffix@,
{
    let mut v = text::chars_of(prefix);
    text::append_str(&mut v, thirdparty::url_encode(value).as_str());
    text::append_str(&mut v, suffix);
    text::string_from_chars(&v)
}

/// The lookup of a release with its recordings, artist credits, labels,
/// release group and tags.
pub open spec fn release_url_of(id: Seq<char>) -> Seq<char> {
    "https://musicbrainz.org/ws/2/release/"@ + thirdparty::url_encoded(id)
        + "?inc=recordings+artist-credits+labels+release-groups+tags&fmt=json"@
}

/// The URL that fetches the release `id`.
pub fn release_url(id: &str) -> (r: String)
    ensures
        r@ == release_url_of(id@),
{
    encoded_between(
        "https://musicbrainz.org/ws/2/release/",
        id,
        "?inc=recordings+artist-credits+labels+release-groups+tags&fmt=json",
    )
}

/// The browse of the releases of release group `group`.
pub open spec fn release_group_url_of(group: Seq<char>) -> Seq<char> {
    "https://musicbrainz.org/ws/2/release?release-group="@ + thirdparty::url_encoded(group)
        + "&fmt=json"@
}

/// The URL that lists the releases of release group `group`.
pub fn release_group_url(group: &str) -> (r: String)
    ensures
        r@ == release_group_url_of(group@),
{
    encoded_between("https://musicbrainz.org/ws/2/release?release-group=", group, "&fmt=json")
}

/// The search for releases titled `title` by `artist`.
pub open spec fn release_search_url_of(artist: Seq<char>, title: Seq<char>) -> Seq<char> {
    "https://musicbrainz.org/ws/2/release?query="@ + thirdparty::url_encoded(
        release_query_of(artist, title),
    ) + "&fmt=json"@
}

/// The URL that searches releases by artist and title.
pub fn release_search_url(artist: &str, title: &str) -> (r: String)
    ensures
        r@ == release_search_url_of(artist@, title@),
{
    let q = release_query(artist, title);
    encoded_between("https://musicbrainz.org/ws/2/release?query=", q.as_str(), "&fmt=json")
}

/// The lookup of the releases with the disc `disc_id`.
pub open spec fn disc_id_url_of(disc_id: Seq<char>) -> Seq<char> {
    "https://musicbrainz.org/ws/2/discid/"@ + thirdparty::url_encoded(disc_id) + "?fmt=json"@
}

/// The URL that looks up a disc id.
pub fn disc_id_url(disc_id: &str) -> (r: String)
    ensures
        r@ == disc_id_url_of(disc_id@),
{
    encoded_between("https://musicbrainz.org/ws/2/discid/", disc_id, "?fmt=json")
}

/// The Cover Art Archive entry of a release; the id goes in as it is.
pub fn cover_art_url(release_id: &str) -> (r: String)
    ensures
        r@ == "https://coverartarchive.org/release/"@ + release_id@,
{
    let mut v = text::chars_of("https://coverartarchive.org/release/");
    text::append_str(&mut v, release_id);
    text::string_from_chars(&v)
}

} // verus!
