//! What the storage side knows: audio formats, albums found in a library,
//! sync options and the plan of a dry run.

use vstd::prelude::*;

pub mod local;
pub mod sync;
pub mod webdav;

verus! {

/// Audio formats that tracks can be stored in.
#[derive(Debug, Clone, Copy, PartialEq, Eq, Structural)]
pub enum AudioFormat {
    Aac,
    Mp3,
    Flac,
    Wav,
}

impl AudioFormat {
    /// The file extension of the format.
    pub open spec fn spec_extension(self) -> Seq<char> {
        match self {
            AudioFormat::Aac => "m4a"@,
            AudioFormat::Mp3 => "mp3"@,
            AudioFormat::Flac => "flac"@,
            AudioFormat::Wav => "wav"@,
        }
    }

    /// The file extension of the format.
    pub fn extension(&self) -> (ext: &'static str)
        ensures
            ext@ == self.spec_extension(),
    {
        match self {
            AudioFormat::Aac => "m4a",
            AudioFormat::Mp3 => "mp3",
            AudioFormat::Flac => "flac",
            AudioFormat::Wav => "wav",
        }
    }

    /// The size that a dry run reckons per track, in MB.
    pub open spec fn spec_mb_per_track(self) -> nat {
        match self {
            AudioFormat::Aac => 5,
            AudioFormat::Mp3 => 8,
            AudioFormat::Flac => 30,
            AudioFormat::Wav => 50,
        }
    }

    /// The size that a dry run reckons per track, in MB.
    pub fn mb_per_track(&self) -> (mb: u64)
        ensures
            mb == self.spec_mb_per_track(),
    {
        match self {
            AudioFormat::Aac => 5,
            AudioFormat::Mp3 => 8,
            AudioFormat::Flac => 30,
            AudioFormat::Wav => 50,
        }
    }
}

/// An album found in the library: `artist/album` holding audio files.
pub struct MusicLibraryItem {
    pub artist: String,
    pub album: String,
    pub tracks: Vec<String>,
    pub has_cover: bool,
}

/// Options for sync operations.
pub struct SyncOptions {
    pub dry_run: bool,
    /// 0 = sequential, otherwise the number of download workers.
    pub parallel_downloads: usize,
    pub skip_cover_art: bool,
    pub audio_format: AudioFormat,
}

/// An album that a sync would download.
pub struct AlbumToDownload {
    pub artist: String,
    pub album: String,
    pub track_count: Option<usize>,
    pub has_cover_art: bool,
    pub destination_path: String,
}

/// A path that a sync would write into although it already holds files.
pub struct ConflictInfo {
    pub path: String,
    pub reason: String,
}

/// What a dry run reports. The size estimate is a whole number of MB.
pub struct DryRunResult {
    pub albums_to_download: Vec<AlbumToDownload>,
    pub total_albums: usize,
    pub total_tracks: usize,
    pub estimated_size_mb: u128,
    pub directories_to_create: Vec<String>,
    pub files_to_write: Vec<String>,
    pub conflicts: Vec<ConflictInfo>,
}

impl DryRunResult {
    /// An empty plan.
    pub fn new() -> (r: Self)
        ensures
            r.albums_to_download@.len() == 0,
            r.total_albums == 0,
            r.total_tracks == 0,
            r.estimated_size_mb == 0,
            r.directories_to_create@.len() == 0,
            r.files_to_write@.len() == 0,
            r.conflicts@.len() == 0,
    {
        DryRunResult {
            albums_to_download: Vec::new(),
            total_albums: 0,
            total_tracks: 0,
            estimated_size_mb: 0,
            directories_to_create: Vec::new(),
            files_to_write: Vec::new(),
            conflicts: Vec::new(),
        }
    }
}

} // verus!
