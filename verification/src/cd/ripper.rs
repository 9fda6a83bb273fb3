//! What ripping a CD produces: folders, file names, tool arguments and the
//! tags of the ripped tracks.

use vstd::prelude::*;
use crate::text;
use crate::storage::AudioFormat;
use crate::storage::sync::{sanitize_filename, sanitized};
use crate::cd::models::{CDAlbum, CDTrack};

verus! {

/// Rips CDs with `cdparanoia` and transcodes with `ffmpeg`.
pub struct CDRipper {
    pub device_path: String,
    pub output_format: AudioFormat,
}

impl CDRipper {
    /// A ripper for the drive at `device_path`, writing `output_format`.
    pub fn new(device_path: String, output_format: AudioFormat) -> (r: Self)
        ensures
            r.device_path@ == device_path@,
            r.output_format == output_format,
    {
        CDRipper { device_path, output_format }
    }

    /// The file a ripped track is written to: `NN - title.ext`, the number
    /// zero-padded to two digits and the title sanitized.
    pub fn track_file_name(&self, track: &CDTrack) -> (r: String)
        ensures
            r@ == rip_file_name(track.track_num as int, track.title@, self.output_format.spec_extension()),
    {
        let mut v = text::i64_zero_padded(track.track_num as i64, 2);
        text::append_str(&mut v, " - ");
        text::append_str(&mut v, sanitize_filename(track.title.as_str()).as_str());
        v.push('.');
        text::append_str(&mut v, self.output_format.extension());
        proof {
            text::lemma_dot_literal();
        }
        text::string_from_chars(&v)
    }

    /// The arguments of `cdparanoia` that rip track `track` of the disc to
    /// `wav_path`: the track's number on its own disc.
    pub fn cdparanoia_args(&self, track: &CDTrack, wav_path: &str) -> (r: Vec<String>)
        ensures
            text::str_views(r@) == seq![
                "-d"@,
                self.device_path@,
                text::int_decimal(physical_track(*track) as int),
                wav_path@,
            ],
    {
        let mut args: Vec<String> = Vec::new();
        args.push("-d".to_string());
        args.push(self.device_path.clone());
        args.push(text::string_from_chars(&text::i64_decimal(physical_track_number(track) as i64)));
        args.push(wav_path.to_string());
        assert(text::str_views(args@) =~= seq![
            "-d"@,
            self.device_path@,
            text::int_decimal(physical_track(*track) as int),
            wav_path@,
        ]);
        args
    }

    /// The codec arguments of `ffmpeg` for the output format.
    pub fn codec_args(&self) -> (r: Vec<&'static str>)
        ensures
            r@.map_values(|a: &'static str| a@) == codec_args_of(self.output_format),
    {
        format_codec_args(self.output_format)
    }

    /// The arguments of `ffmpeg` that transcode `input` to `output`.
    pub fn ffmpeg_args(&self, input: &str, output: &str) -> (r: Vec<String>)
        ensures
            text::str_views(r@) == seq!["-i"@, input@, "-y"@] + codec_args_of(self.output_format)
                + seq![output@],
    {
        transcode_args(self.output_format, input, output)
    }
}

/// The codec arguments of `ffmpeg` for `format`.
pub fn format_codec_args(format: AudioFormat) -> (r: Vec<&'static str>)
    ensures
        r@.map_values(|a: &'static str| a@) == codec_args_of(format),
{
    let mut v: Vec<&'static str> = Vec::new();
    v.push("-acodec");
    match format {
        AudioFormat::Flac => {
            v.push("flac");
            v.push("-compression_level");
            v.push("12");
        },
        AudioFormat::Mp3 => {
            v.push("libmp3lame");
            v.push("-ab");
            v.push("320k");
        },
        AudioFormat::Aac => {
            v.push("aac");
            v.push("-ab");
            v.push("256k");
        },
        AudioFormat::Wav => {
            v.push("pcm_s16le");
        },
    }
    assert(v@.map_values(|a: &'static str| a@) =~= codec_args_of(format));
    v
}

/// The arguments of `ffmpeg` that transcode `input` to `output` in `format`.
pub fn transcode_args(format: AudioFormat, input: &str, output: &str) -> (r: Vec<String>)
    ensures
        text::str_views(r@) == seq!["-i"@, input@, "-y"@] + codec_args_of(format) + seq![output@],
{
    let codec = format_codec_args(format);
    let mut args: Vec<String> = Vec::new();
    args.push("-i".to_string());
    args.push(input.to_string());
    args.push("-y".to_string());
    let ghost head = text::str_views(args@);
    assert(head =~= seq!["-i"@, input@, "-y"@]);
    let mut i: usize = 0;
    while i < codec.len()
        invariant
            i <= codec@.len(),
            text::str_views(args@) =~= head + codec@.take(i as int).map_values(|a: &'static str| a@),
        decreases codec@.len() - i,
    {
        let ghost before = text::str_views(args@);
        args.push(codec[i].to_string());
        assert(text::str_views(args@) =~= before.push(codec@[i as int]@));
        assert(codec@.take(i + 1) =~= codec@.take(i as int).push(codec@[i as int]));
        i += 1;
    }
    assert(codec@.take(codec@.len() as int) =~= codec@);
    let ghost before = text::str_views(args@);
    args.push(output.to_string());
    assert(text::str_views(args@) =~= before.push(output@));
    args
}

/// The file a ripped track is written to.
pub open spec fn rip_file_name(number: int, title: Seq<char>, ext: Seq<char>) -> Seq<char> {
    text::zero_padded(number, 2) + " - "@ + sanitized(title) + "."@ + ext
}

/// The number `cdparanoia` rips a track by: its number on its own disc,
/// kept in `start_offset` when positive, else its track number.
pub open spec fn physical_track(track: CDTrack) -> i32 {
    if track.start_offset > 0 { track.start_offset } else { track.track_num }
}

/// The number `cdparanoia` rips a track by.
pub fn physical_track_number(track: &CDTrack) -> (r: i32)
    ensures
        r == physical_track(*track),
{
    if track.start_offset > 0 { track.start_offset } else { track.track_num }
}

/// The scratch WAV file of a track: `.temp_track_N.wav`.
pub fn temp_wav_name(track: &CDTrack) -> (r: String)
    ensures
        r@ == ".temp_track_"@ + text::int_decimal(track.track_num as int) + ".wav"@,
{
    let mut v = text::chars_of(".temp_track_");
    text::append_chars(&mut v, &text::i64_decimal(track.track_num as i64));
    text::append_str(&mut v, ".wav");
    text::string_from_chars(&v)
}

/// The codec arguments of `ffmpeg` for `format`.
pub open spec fn codec_args_of(format: AudioFormat) -> Seq<Seq<char>> {
    match format {
        AudioFormat::Flac => seq!["-acodec"@, "flac"@, "-compression_level"@, "12"@],
        AudioFormat::Mp3 => seq!["-acodec"@, "libmp3lame"@, "-ab"@, "320k"@],
        AudioFormat::Aac => seq!["-acodec"@, "aac"@, "-ab"@, "256k"@],
        AudioFormat::Wav => seq!["-acodec"@, "pcm_s16le"@],
    }
}

/// The tags a ripped track is given.
pub struct CdTrackTags {
    pub artist: String,
    pub album: String,
    pub title: String,
    pub track: u32,
    pub album_artist: Option<String>,
    pub year: Option<u32>,
    pub genre: Option<String>,
    pub publisher: Option<String>,
    pub musicbrainz_release_id: Option<String>,
    pub musicbrainz_recording_id: Option<String>,
}

/// The year of a release date: its part before the first `-` read as a
/// number, 0 when it is not one.
pub open spec fn release_year(date: Seq<char>) -> u32 {
    let part = match text::first_index_of(date, '-') {
        Some(i) => date.take(i),
        None => date,
    };
    match text::parse_int(part, false, 0, u32::MAX as int) {
        Some(y) => y as u32,
        None => 0,
    }
}

/// The tags of `track` of `album`: a track artist (of a compilation) takes
/// the artist tag and makes the album's artist the album artist; the year
/// comes from the release date; genres are joined with `, `.
pub fn cd_track_tags(track: &CDTrack, album: &CDAlbum) -> (r: CdTrackTags)
    ensures
        r.artist@ == match track.artist {
            Some(a) => a@,
            None => album.artist@,
        },
        r.album@ == album.album_title@,
        r.title@ == track.title@,
        r.track == track.track_num as u32,
        text::opt_str(r.album_artist) == match track.artist {
            Some(_) => Some(album.artist@),
            None => None,
        },
        r.year == match album.release_date {
            Some(d) => Some(release_year(d@)),
            None => None,
        },
        text::opt_str(r.genre) == if album.genres@.len() > 0 {
            Some(text::joined(text::str_views(album.genres@), ", "@))
        } else {
            None
        },
        r.publisher == album.label,
        r.musicbrainz_release_id == album.mb_release_id,
        r.musicbrainz_recording_id == track.mb_recording_id,
{
    let (artist, album_artist) = match &track.artist {
        Some(a) => (a.clone(), Some(album.artist.clone())),
        None => (album.artist.clone(), None),
    };
    let year = match &album.release_date {
        Some(d) => {
            let v = text::chars_of(d.as_str());
            let part = match text::find_char(&v, '-') {
                Some(i) => text::subrange_of(&v, 0, i),
                None => v,
            };
            Some(
                match text::parse_u32(&part) {
                    Some(y) => y,
                    None => 0,
                },
            )
        },
        None => None,
    };
    let genre = if album.genres.len() > 0 {
        Some(text::join_strings(&album.genres, ", "))
    } else {
        None
    };
    CdTrackTags {
        artist,
        album: album.album_title.clone(),
        title: track.title.clone(),
        track: #[verifier::truncate] (track.track_num as u32),
        album_artist,
        year,
        genre,
        publisher: text::copy_opt_string(&album.label),
        musicbrainz_release_id: text::copy_opt_string(&album.mb_release_id),
        musicbrainz_recording_id: text::copy_opt_string(&track.mb_recording_id),
    }
}

/// What `check_dependencies` reports when tools are missing.
pub fn missing_tools_message(missing: &Vec<String>) -> (r: String)
    ensures
        r@ == "Missing required tools: "@ + text::joined(text::str_views(missing@), ", "@)
            + ". Please install them first.\nInstall with: sudo apt install "@ + text::joined(
            text::str_views(missing@),
            " "@,
        ) + " (Debian/Ubuntu) or brew install "@ + text::joined(text::str_views(missing@), " "@)
            + " (macOS)"@,
{
    let commas = text::join_strings(missing, ", ");
    let spaces = text::join_strings(missing, " ");
    let mut v = text::chars_of("Missing required tools: ");
    text::append_str(&mut v, commas.as_str());
    text::append_str(&mut v, ". Please install them first.\nInstall with: sudo apt install ");
    text::append_str(&mut v, spaces.as_str());
    text::append_str(&mut v, " (Debian/Ubuntu) or brew install ");
    text::append_str(&mut v, spaces.as_str());
    text::append_str(&mut v, " (macOS)");
    text::string_from_chars(&v)
}

/// The error of a failed `cdparanoia` run, from its messages.
pub open spec fn rip_failure_of(stderr: Seq<char>) -> Seq<char> {
    if text::has_infix(stderr, "Unable to open"@) {
        "CD drive not accessible or no disc present"@
    } else {
        "cdparanoia failed: "@ + stderr
    }
}

/// The error of a failed `cdparanoia` run.
pub fn rip_failure(stderr: &str) -> (r: String)
    ensures
        r@ == rip_failure_of(stderr@),
{
    if text::contains(&text::chars_of(stderr), &text::chars_of("Unable to open")) {
        "CD drive not accessible or no disc present".to_string()
    } else {
        let mut v = text::chars_of("cdparanoia failed: ");
        text::append_str(&mut v, stderr);
        text::string_from_chars(&v)
    }
}

} // verus!
