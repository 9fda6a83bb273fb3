//! Reading an album page: the album data it embeds, the cover image, the
//! tracks to download and the tags to give them.

use vstd::prelude::*;
use crate::text;
use crate::thirdparty;
use crate::storage::sync::{sanitize_filename, sanitized};
use crate::storage::AudioFormat;

verus! {

/// A track of an album page.
pub struct TrackInfo {
    pub title: Option<String>,
    /// The `mp3-128` stream of the track's `file`.
    pub mp3_128: Option<String>,
}

/// What the album data of a page (its `data-tralbum` JSON) holds that a
/// download reads; `current_*` fields are those of its `current` object.
/// A tag is its text, or the `name` of a tag object, or `None`.
pub struct AlbumPage {
    pub art_id: Option<i64>,
    pub current_art_id: Option<i64>,
    pub art_url: Option<String>,
    pub artist: Option<String>,
    pub album_artist: Option<String>,
    pub current_title: Option<String>,
    pub album_title: Option<String>,
    pub current_album_title: Option<String>,
    pub album_release_date: Option<String>,
    pub current_release_date: Option<i64>,
    pub tags: Option<Vec<Option<String>>>,
    pub genre: Option<String>,
    pub url: Option<String>,
    pub current_url: Option<String>,
    pub trackinfo: Option<Vec<TrackInfo>>,
}

/// The album data of an album page: the value of its first non-empty
/// `data-tralbum` attribute, HTML decoded.
pub open spec fn tralbum_json_of(html: Seq<char>) -> Option<Seq<char>> {
    match thirdparty::quoted_capture(html, "data-tralbum=\""@, 0) {
        None => None,
        Some(raw) => Some(thirdparty::html_decoded(raw)),
    }
}

/// Finds the album data (JSON) of an album page. The error (a pattern that
/// does not compile) does not occur.
pub fn tralbum_json(html: &str) -> (r: Result<Option<String>, ()>)
    ensures
        match r {
            Ok(j) => text::opt_str(j) == tralbum_json_of(html@),
            Err(_) => false,
        },
{
    let pattern = "data-tralbum=\"([^\"]+)\"";
    match thirdparty::first_capture(pattern, html) {
        Err(_) => Err(()),
        Ok(None) => Ok(None),
        Ok(Some(raw)) => Ok(Some(thirdparty::decode_html_entities(raw.as_str()))),
    }
}

/// A link made absolute: one not starting with `http` gets `https:` in front.
pub open spec fn absolute_url(u: Seq<char>) -> Seq<char> {
    if text::has_prefix(u, "http"@) {
        u
    } else {
        "https:"@ + u
    }
}

/// Makes a link absolute.
pub fn complete_url(u: &str) -> (r: String)
    ensures
        r@ == absolute_url(u@),
{
    let v = text::chars_of(u);
    if text::starts_with(&v, &text::chars_of("http")) {
        u.to_string()
    } else {
        let mut w = text::chars_of("https:");
        text::append_chars(&mut w, &v);
        text::string_from_chars(&w)
    }
}

/// The image of art `id` at size 10: `.../img/a<id, 10 digits>_10.jpg`.
pub open spec fn art_image_url_of(id: int) -> Seq<char> {
    "https://f4.bcbits.com/img/a"@ + text::zero_padded(id, 10) + "_10.jpg"@
}

/// The image of art `id` at size 10.
pub fn art_image_url(id: i64) -> (r: String)
    ensures
        r@ == art_image_url_of(id as int),
{
    let mut v = text::chars_of("https://f4.bcbits.com/img/a");
    text::append_chars(&mut v, &text::i64_zero_padded(id, 10));
    text::append_str(&mut v, "_10.jpg");
    text::string_from_chars(&v)
}

/// The cover of an album page: from its art id, else from the art id of its
/// current release, else its art link made absolute.
pub open spec fn album_art_url_of(page: AlbumPage) -> Option<Seq<char>> {
    match page.art_id {
        Some(id) => Some(art_image_url_of(id as int)),
        None => match page.current_art_id {
            Some(id) => Some(art_image_url_of(id as int)),
            None => match page.art_url {
                Some(u) => Some(absolute_url(u@)),
                None => None,
            },
        },
    }
}

/// Where the cover of an album page is.
pub fn album_art_url(page: &AlbumPage) -> (r: Option<String>)
    ensures
        text::opt_str(r) == album_art_url_of(*page),
{
    match page.art_id {
        Some(id) => Some(art_image_url(id)),
        None => match page.current_art_id {
            Some(id) => Some(art_image_url(id)),
            None => match &page.art_url {
                Some(u) => Some(complete_url(u.as_str())),
                None => None,
            },
        },
    }
}

/// A tag of an album page as its JSON gives it: a string, an object with
/// (or without) a string `name`, or something else.
pub enum JsonTag {
    Text(String),
    Object(Option<String>),
    Other,
}

/// The name of a tag: the string itself, or the `name` of a tag object.
pub fn tag_name(t: &JsonTag) -> (r: Option<String>)
    ensures
        r == match *t {
            JsonTag::Text(s) => Some(s),
            JsonTag::Object(n) => n,
            JsonTag::Other => None::<String>,
        },
{
    match t {
        JsonTag::Text(s) => Some(s.clone()),
        JsonTag::Object(n) => text::copy_opt_string(n),
        JsonTag::Other => None,
    }
}

/// The name the cover of an album is stored under in the library.
pub fn cover_file_name() -> (r: &'static str)
    ensures
        r@ == "cover.jpg"@,
{
    "cover.jpg"
}

/// The cover to fetch for an album page: none when cover art is skipped,
/// else the page's cover (see `album_art_url`).
pub fn cover_download(page: &AlbumPage, skip_cover_art: bool) -> (r: Option<String>)
    ensures
        text::opt_str(r) == if skip_cover_art { None } else { album_art_url_of(*page) },
{
    if skip_cover_art {
        None
    } else {
        album_art_url(page)
    }
}

/// The bytes a fetched cover is saved with, and whether they were written
/// as JPEG: the image re-encoded as JPEG; the bytes as fetched when they are
/// not an image that decodes; `None` when the decoded image cannot be
/// written as JPEG (the album's download then fails).
pub fn cover_bytes(raw: &Vec<u8>) -> (r: Option<(Vec<u8>, bool)>)
    ensures
        match thirdparty::jpeg_of(raw@) {
            Some(Some(j)) => r matches Some((v, true)) && v@ == j,
            Some(None) => r matches Some((v, false)) && v@ == raw@,
            None => r is None,
        },
{
    match thirdparty::to_jpeg(raw) {
        Ok(Some(j)) => Some((j, true)),
        Ok(None) => Some((raw.clone(), false)),
        Err(_) => None,
    }
}

/// Whether a downloaded `mp3-128` stream is converted before it goes to a
/// library in `format`: for every format but MP3.
pub fn needs_transcode(format: AudioFormat) -> (r: bool)
    ensures
        r == (format != AudioFormat::Mp3),
{
    match format {
        AudioFormat::Mp3 => false,
        _ => true,
    }
}

/// A track file to download: its `mp3-128` stream is saved as
/// `stream_file_name`, and the library receives it as `file_name`, in the
/// chosen format.
pub struct TrackDownload {
    /// Its position on the album, from 1.
    pub number: usize,
    pub title: String,
    pub stream_file_name: String,
    pub file_name: String,
    pub url: String,
}

/// The title of a track, `Unknown` when it has none.
pub open spec fn track_title_of(t: TrackInfo) -> Seq<char> {
    match t.title {
        Some(s) => s@,
        None => "Unknown"@,
    }
}

/// The file a track is saved as: `NN - title.ext`.
pub open spec fn track_file_of(number: int, title: Seq<char>, ext: Seq<char>) -> Seq<char> {
    text::zero_padded(number, 2) + " - "@ + sanitized(title) + seq!['.'] + ext
}

/// The downloads of tracks `tracks` for the library format `format`: one
/// for each track with an `mp3-128` stream, numbered by its position.
pub open spec fn downloads_of(tracks: Seq<TrackInfo>, format: AudioFormat) -> Seq<
    (int, Seq<char>, Seq<char>, Seq<char>, Seq<char>),
>
    decreases tracks.len(),
{
    if tracks.len() == 0 {
        seq![]
    } else {
        let before = downloads_of(tracks.drop_last(), format);
        let t = tracks.last();
        let n = tracks.len() as int;
        match t.mp3_128 {
            Some(u) => before.push(
                (
                    n,
                    track_title_of(t),
                    track_file_of(n, track_title_of(t), "mp3"@),
                    track_file_of(n, track_title_of(t), format.spec_extension()),
                    absolute_url(u@),
                ),
            ),
            None => before,
        }
    }
}

/// A track file is named `NN - ...` and ends in `.` and its extension.
pub proof fn lemma_track_file_shape(number: int, title: Seq<char>, ext: Seq<char>)
    ensures
        text::has_prefix(track_file_of(number, title, ext), text::zero_padded(number, 2) + " - "@),
        text::has_suffix(track_file_of(number, title, ext), seq!['.'] + ext),
{
    let head = text::zero_padded(number, 2) + " - "@;
    let f = track_file_of(number, title, ext);
    assert(f.take(head.len() as int) =~= head);
    assert(f.skip(f.len() - (ext.len() + 1)) =~= seq!['.'] + ext);
}

/// The downloads planned from a page's tracks: each is a track with an
/// `mp3-128` stream, numbered by its position from 1, titled as the track
/// (`Unknown` without a title), fetched from that stream made absolute,
/// saved as `NN - ....mp3` and delivered as `NN - ...` with the extension
/// of `format`; numbers increase, and every track with a stream is planned.
pub proof fn lemma_downloads_are_streamed_tracks(tracks: Seq<TrackInfo>, format: AudioFormat)
    ensures
        ({
            let ds = downloads_of(tracks, format);
            &&& forall|k: int|
                0 <= k < ds.len() ==> {
                    let d = #[trigger] ds[k];
                    let t = tracks[d.0 - 1];
                    &&& 1 <= d.0 <= tracks.len()
                    &&& t.mp3_128 is Some
                    &&& d.4 == absolute_url(t.mp3_128->0@)
                    &&& d.1 == (match t.title {
                        Some(x) => x@,
                        None => "Unknown"@,
                    })
                    &&& text::has_prefix(d.2, text::zero_padded(d.0, 2) + " - "@)
                    &&& text::has_suffix(d.2, seq!['.'] + "mp3"@)
                    &&& text::has_prefix(d.3, text::zero_padded(d.0, 2) + " - "@)
                    &&& text::has_suffix(d.3, seq!['.'] + format.spec_extension())
                }
            &&& forall|k: int, l: int| 0 <= k < l < ds.len() ==> (#[trigger] ds[k]).0 < (#[trigger] ds[l]).0
            &&& forall|i: int|
                0 <= i < tracks.len() && (#[trigger] tracks[i]).mp3_128 is Some ==> exists|k: int|
                    0 <= k < ds.len() && (#[trigger] ds[k]).0 == i + 1
        }),
    decreases tracks.len(),
{
    if tracks.len() > 0 {
        let before = tracks.drop_last();
        lemma_downloads_are_streamed_tracks(before, format);
        let dsb = downloads_of(before, format);
        let ds = downloads_of(tracks, format);
        let n = tracks.len() as int;
        let t = tracks.last();
        assert forall|k: int| 0 <= k < dsb.len() implies #[trigger] dsb[k].0 < n by {
            assert(1 <= dsb[k].0 <= before.len());
        }
        assert forall|k: int| 0 <= k < dsb.len() implies tracks[(#[trigger] dsb[k]).0 - 1] == before[dsb[k].0 - 1] by {
        }
        if t.mp3_128 is Some {
            lemma_track_file_shape(n, track_title_of(t), "mp3"@);
            lemma_track_file_shape(n, track_title_of(t), format.spec_extension());
            assert(ds == dsb.push(ds[ds.len() - 1]));
            assert forall|i: int|
                0 <= i < tracks.len() && (#[trigger] tracks[i]).mp3_128 is Some implies exists|k: int|
                    0 <= k < ds.len() && (#[trigger] ds[k]).0 == i + 1 by {
                if i < n - 1 {
                    assert(before[i] == tracks[i]);
                    let k = choose|k: int| 0 <= k < dsb.len() && (#[trigger] dsb[k]).0 == i + 1;
                    assert(ds[k] == dsb[k]);
                } else {
                    assert(ds[ds.len() - 1].0 == i + 1);
                }
            }
            assert forall|k: int| 0 <= k < ds.len() implies tracks[(#[trigger] ds[k]).0 - 1].mp3_128 is Some by {
                if k < dsb.len() {
                    assert(ds[k] == dsb[k]);
                }
            }
        } else {
            assert forall|i: int|
                0 <= i < tracks.len() && (#[trigger] tracks[i]).mp3_128 is Some implies exists|k: int|
                    0 <= k < ds.len() && (#[trigger] ds[k]).0 == i + 1 by {
                assert(before[i] == tracks[i]);
            }
        }
    }
}

/// The view of a planned download.
pub open spec fn download_view(d: TrackDownload) -> (int, Seq<char>, Seq<char>, Seq<char>, Seq<char>) {
    (d.number as int, d.title@, d.stream_file_name@, d.file_name@, d.url@)
}

/// The track files to download from an album page for the library format
/// `format`: every track with an `mp3-128` stream, in order, named by its
/// position and title, saved as MP3 and delivered with `format`'s extension.
pub fn track_downloads(page: &AlbumPage, format: AudioFormat) -> (r: Vec<TrackDownload>)
    ensures
        r@.map_values(|d: TrackDownload| download_view(d)) == match page.trackinfo {
            Some(ts) => downloads_of(ts@, format),
            None => seq![],
        },
{
    let mut out: Vec<TrackDownload> = Vec::new();
    match &page.trackinfo {
        None => {
            assert(out@.map_values(|d: TrackDownload| download_view(d)) =~= seq![]);
        },
        Some(tracks) => {
            let mut i: usize = 0;
            while i < tracks.len()
                invariant
                    i <= tracks@.len(),
                    out@.map_values(|d: TrackDownload| download_view(d)) == downloads_of(
                        tracks@.take(i as int),
                        format,
                    ),
                decreases tracks@.len() - i,
            {
                let t = &tracks[i];
                assert(tracks@.take(i + 1).drop_last() =~= tracks@.take(i as int));
                assert(tracks@.take(i + 1).last() == *t);
                let number = i + 1;
                match &t.mp3_128 {
                    Some(u) => {
                        let title = match &t.title {
                            Some(s) => s.clone(),
                            None => "Unknown".to_string(),
                        };
                        let mut name = text::u64_zero_padded(number as u64, 2);
                        text::append_str(&mut name, " - ");
                        text::append_str(&mut name, sanitize_filename(title.as_str()).as_str());
                        name.push('.');
                        let mut stream = text::copy_chars(&name);
                        text::append_str(&mut stream, "mp3");
                        text::append_str(&mut name, format.extension());
                        assert(stream@ =~= track_file_of(number as int, title@, "mp3"@));
                        assert(name@ =~= track_file_of(number as int, title@, format.spec_extension()));
                        let d = TrackDownload {
                            number,
                            title,
                            stream_file_name: text::string_from_chars(&stream),
                            file_name: text::string_from_chars(&name),
                            url: complete_url(u.as_str()),
                        };
                        let ghost before = out@.map_values(|d: TrackDownload| download_view(d));
                        out.push(d);
                        assert(out@.map_values(|d: TrackDownload| download_view(d)) =~= before.push(
                            download_view(d),
                        ));
                    },
                    None => {},
                }
                i += 1;
            }
            assert(tracks@.take(tracks@.len() as int) =~= tracks@);
        },
    }
    out
}

/// The tags a downloaded track is given.
pub struct TrackTags {
    pub artist: String,
    pub album: String,
    pub title: String,
    pub track: u32,
    pub track_total: String,
    pub album_artist: String,
    pub year: Option<u32>,
    pub genre: Option<String>,
    pub comment: Option<String>,
}

/// The first of two optional strings that is there, else `fallback`.
pub open spec fn first_of(a: Option<String>, b: Option<String>, fallback: Seq<char>) -> Seq<char> {
    match a {
        Some(s) => s@,
        None => match b {
            Some(s) => s@,
            None => fallback,
        },
    }
}

/// The artist of an album page: `artist`, else `albumArtist`.
pub open spec fn page_artist(page: AlbumPage) -> Seq<char> {
    first_of(page.artist, page.album_artist, "Unknown Artist"@)
}

/// The album title of a page: `current.title`, else `album_title`, else
/// `current.album_title`.
pub open spec fn page_album(page: AlbumPage) -> Seq<char> {
    match page.current_title {
        Some(s) => s@,
        None => first_of(page.album_title, page.current_album_title, "Unknown Album"@),
    }
}

/// The year part of a release date: what comes before its first `-`.
pub open spec fn year_part(date: Seq<char>) -> Seq<char> {
    match text::first_index_of(date, '-') {
        Some(i) => date.take(i),
        None => date,
    }
}

/// The year of an album page: from `album_release_date` when there is one
/// (nothing when its year part is not a number), else `current.release_date`
/// cut to 32 bits.
pub open spec fn page_year(page: AlbumPage) -> Option<u32> {
    match page.album_release_date {
        Some(d) => match text::parse_int(year_part(d@), false, 0, u32::MAX as int) {
            Some(y) => Some(y as u32),
            None => None,
        },
        None => match page.current_release_date {
            Some(y) => Some(y as u32),
            None => None,
        },
    }
}

/// The names among `tags`, in order.
pub open spec fn tag_names(tags: Seq<Option<String>>) -> Seq<Seq<char>>
    decreases tags.len(),
{
    if tags.len() == 0 {
        seq![]
    } else {
        let before = tag_names(tags.drop_last());
        match tags.last() {
            Some(n) => before.push(n@),
            None => before,
        }
    }
}

/// The genre of an album page: its tag names joined with `;` when it has
/// tags (nothing when none has a name), else its `genre`.
pub open spec fn page_genre(page: AlbumPage) -> Option<Seq<char>> {
    match page.tags {
        Some(tags) => if tag_names(tags@).len() > 0 {
            Some(text::joined(tag_names(tags@), ";"@))
        } else {
            None
        },
        None => text::opt_str(page.genre),
    }
}

/// The comment of a track: `Bandcamp: ` and the page's link.
pub open spec fn page_comment(page: AlbumPage) -> Option<Seq<char>> {
    match page.url {
        Some(u) => Some("Bandcamp: "@ + u@),
        None => match page.current_url {
            Some(u) => Some("Bandcamp: "@ + u@),
            None => None,
        },
    }
}

fn year_of(page: &AlbumPage) -> (r: Option<u32>)
    ensures
        r == page_year(*page),
{
    match &page.album_release_date {
        Some(d) => {
            let v = text::chars_of(d.as_str());
            let part = match text::find_char(&v, '-') {
                Some(i) => text::subrange_of(&v, 0, i),
                None => v,
            };
            assert(part@ =~= year_part(d@));
            text::parse_u32(&part)
        },
        None => match page.current_release_date {
            Some(y) => Some(y as u32),
            None => None,
        },
    }
}

fn genre_of(page: &AlbumPage) -> (r: Option<String>)
    ensures
        text::opt_str(r) == page_genre(*page),
{
    match &page.tags {
        Some(tags) => {
            let mut names: Vec<String> = Vec::new();
            let mut i: usize = 0;
            while i < tags.len()
                invariant
                    i <= tags@.len(),
                    text::str_views(names@) == tag_names(tags@.take(i as int)),
                decreases tags@.len() - i,
            {
                assert(tags@.take(i + 1).drop_last() =~= tags@.take(i as int));
                match &tags[i] {
                    Some(n) => {
                        let ghost before = text::str_views(names@);
                        names.push(n.clone());
                        assert(text::str_views(names@) =~= before.push(n@));
                    },
                    None => {},
                }
                i += 1;
            }
            assert(tags@.take(tags@.len() as int) =~= tags@);
            if names.len() > 0 {
                Some(text::join_strings(&names, ";"))
            } else {
                None
            }
        },
        None => text::copy_opt_string(&page.genre),
    }
}

fn comment_of(page: &AlbumPage) -> (r: Option<String>)
    ensures
        text::opt_str(r) == page_comment(*page),
{
    let u = match &page.url {
        Some(u) => u,
        None => match &page.current_url {
            Some(u) => u,
            None => {
                return None;
            },
        },
    };
    let mut v = text::chars_of("Bandcamp: ");
    text::append_str(&mut v, u.as_str());
    Some(text::string_from_chars(&v))
}

fn pick(a: &Option<String>, b: &Option<String>, fallback: &str) -> (r: String)
    ensures
        r@ == first_of(*a, *b, fallback@),
{
    match a {
        Some(s) => s.clone(),
        None => match b {
            Some(s) => s.clone(),
            None => fallback.to_string(),
        },
    }
}

/// The tags of track `track` of `total` on an album page, titled `title`.
pub fn track_tags(page: &AlbumPage, title: &Option<String>, track: u32, total: u32) -> (r: TrackTags)
    ensures
        r.artist@ == page_artist(*page),
        r.album@ == page_album(*page),
        r.title@ == first_of(*title, None, "Unknown Track"@),
        r.track == track,
        r.track_total@ == text::int_decimal(total as int),
        r.album_artist@ == page_artist(*page),
        r.year == page_year(*page),
        text::opt_str(r.genre) == page_genre(*page),
        text::opt_str(r.comment) == page_comment(*page),
{
    let artist = pick(&page.artist, &page.album_artist, "Unknown Artist");
    let album = match &page.current_title {
        Some(s) => s.clone(),
        None => pick(&page.album_title, &page.current_album_title, "Unknown Album"),
    };
    let track_title = pick(title, &None, "Unknown Track");
    let total_text = text::string_from_chars(&text::u64_digits(total as u64));
    TrackTags {
        artist: artist.clone(),
        album,
        title: track_title,
        track,
        track_total: total_text,
        album_artist: artist,
        year: year_of(page),
        genre: genre_of(page),
        comment: comment_of(page),
    }
}

} // verus!
