use bandcamp_sync::cd::models::{CDAlbum, CDToc, CDTrack};
use bandcamp_sync::cd::musicbrainz::{
    album_from_release, choose_cover, cover_art_url, disc_id_url, release_group_url,
    release_search_url, release_url, medium_cd_tracks, other_releases, release_disc, release_query,
    search_candidates, toc_lookup_url, toc_string, track_count_close, CoverImage, MbLabelInfo,
    MbMedium, MbRecording, MbRelease, MbTrack,
};
use bandcamp_sync::cd::reader::{disc_presence, CDReader, TocError};
use bandcamp_sync::cd::ripper::{
    cd_track_tags, format_codec_args, missing_tools_message, physical_track_number, rip_failure,
    temp_wav_name, transcode_args, CDRipper,
};
use bandcamp_sync::storage::AudioFormat;

fn toc(first: u8, last: u8, leadout: i32, offsets: Vec<i32>) -> CDToc {
    CDToc { first_track: first, last_track: last, leadout_offset: leadout, track_offsets: offsets }
}

fn track(num: i32, title: &str) -> CDTrack {
    CDTrack {
        track_num: num,
        title: title.to_string(),
        artist: None,
        duration_ms: 0,
        isrc: None,
        mb_recording_id: None,
        start_offset: 0,
        end_offset: 0,
        pregap_ms: None,
    }
}

fn album(artist: &str, title: &str) -> CDAlbum {
    CDAlbum {
        disc_id: "disc".to_string(),
        artist: artist.to_string(),
        album_title: title.to_string(),
        release_date: None,
        label: None,
        catalog_number: None,
        barcode: None,
        tracks: Vec::new(),
        genres: Vec::new(),
        total_duration_ms: 0,
        mb_release_id: None,
        mb_release_group_id: None,
        mb_artist_id: None,
        cover_art_url: None,
        cover_art_available: false,
        disc_number: None,
        total_discs: None,
        media_format: "CD".to_string(),
    }
}

fn reader() -> CDReader {
    CDReader::new("/dev/sr0".to_string())
}

#[test]
fn disc_id_of_the_musicbrainz_example() {
    let t = toc(1, 6, 95462, vec![150, 15363, 32314, 46592, 63414, 80489]);
    assert_eq!(t.calculate_disc_id(), "49HHV7Eb8UKF3aQiNmu1GR8vKTY-");
}

#[test]
fn disc_id_of_a_three_track_disc() {
    let t = toc(1, 3, 100000, vec![150, 20000, 50000]);
    assert_eq!(t.calculate_disc_id(), "Cd3d3nC1u19zbRwzhhafjaOP4ws-");
}

#[test]
fn disc_id_reads_negative_offsets_as_unsigned() {
    let t = toc(1, 1, -1, vec![-5]);
    let id = t.calculate_disc_id();
    assert_eq!(id, "_t_ZDxdBD1MwllY.3_lQ7cF.Qfk-");
    assert_eq!(id.len(), 28);
}

#[test]
fn disc_id_text_layout() {
    let t = toc(1, 2, 0x01020304, vec![150, 0x7fffffff]);
    let b = t.disc_id_bytes();
    assert_eq!(b.len(), 804);
    assert_eq!(&b[0..12], b"010201020304");
    assert_eq!(&b[12..20], b"00000096");
    assert_eq!(&b[20..28], b"7FFFFFFF");
    assert!(b[28..].iter().all(|x| *x == b'0'));
}

#[test]
fn discid_output_is_parsed() {
    let r = reader().parse_discid_output("a50b8c0c 3 150 20000 50000 2000\n");
    match r {
        Ok(t) => {
            assert_eq!(t.first_track, 1);
            assert_eq!(t.last_track, 3);
            assert_eq!(t.track_offsets, vec![150, 20000, 50000]);
            assert_eq!(t.leadout_offset, 2000);
        }
        Err(e) => panic!("unexpected error {:?}", e),
    }
}

#[test]
fn discid_output_errors() {
    let r = reader();
    assert!(matches!(r.parse_discid_output("abc 1"), Err(TocError::InvalidFormat)));
    assert!(matches!(r.parse_discid_output("abc x 150 200"), Err(TocError::BadTrackCount)));
    assert!(matches!(r.parse_discid_output("abc 300 150 200"), Err(TocError::BadTrackCount)));
    assert!(matches!(r.parse_discid_output("abc 4 150 200"), Err(TocError::MissingTrackOffset)));
    assert!(matches!(r.parse_discid_output("abc 2 150 zz 900"), Err(TocError::BadTrackOffset)));
    assert!(matches!(r.parse_discid_output("abc 1 150 9999999999"), Err(TocError::BadLeadout)));
}

#[test]
fn cdparanoia_output_is_parsed() {
    let out = "cdparanoia III release 10.2\n\nTable of contents (audio tracks only):\n\
track        length               begin        copy pre ch\n\
===========================================================\n\
  1.    18295 [04:03.70]        0 [00:00.00]    no   no  2\n\
  2.    16965 [03:46.15]    18295 [04:03.70]    no   no  2\n\
TOTAL   35260 [07:50.10]    (audio only)\n";
    match reader().parse_cdparanoia_output(out) {
        Ok(t) => {
            assert_eq!(t.first_track, 1);
            assert_eq!(t.last_track, 2);
            assert_eq!(t.track_offsets, vec![0, 18295]);
            assert_eq!(t.leadout_offset, 35260);
        }
        Err(e) => panic!("unexpected error {:?}", e),
    }
}

#[test]
fn cdparanoia_output_without_tracks() {
    let r = reader().parse_cdparanoia_output("cdparanoia: Unable to open disc.\n");
    assert!(matches!(r, Err(TocError::NoTracks)));
}

#[test]
fn cdtext_takes_the_last_title_and_performer() {
    let r = reader();
    let info = r.parse_cdtext("Title: First\nPerformer:  Some Band \nTitle:  Second Album\n");
    match info {
        Some(i) => {
            assert_eq!(i.album_title, Some("Second Album".to_string()));
            assert_eq!(i.artist, Some("Some Band".to_string()));
        }
        None => panic!("expected CD-TEXT"),
    }
    assert!(r.parse_cdtext("nothing here\n").is_none());
}

#[test]
fn disc_presence_from_messages() {
    assert_eq!(disc_presence("Table of contents (audio tracks only):"), Some(true));
    assert_eq!(disc_presence("1 track found"), Some(true));
    assert_eq!(disc_presence("Unable to open disc"), Some(false));
    assert_eq!(disc_presence("No such file or directory"), Some(false));
    assert_eq!(disc_presence("something else"), None);
}

#[test]
fn probes_pick_the_first_existing_device() {
    match CDReader::from_probes(&vec![false, false, true, true]) {
        Ok(r) => assert_eq!(r.device_path, "/dev/sr1"),
        Err(e) => panic!("unexpected {:?}", e),
    }
    assert!(matches!(CDReader::from_probes(&vec![false; 6]), Err(TocError::NoDevice)));
}

#[test]
fn toc_text_and_lookup_url() {
    let t = toc(1, 3, 100000, vec![150, 20000, 50000]);
    assert_eq!(toc_string(&t, "+"), "1+3+100000+150+20000+50000");
    assert_eq!(
        toc_lookup_url(&t),
        "https://musicbrainz.org/ws/2/discid/-?toc=1%203%20100000%20150%2020000%2050000&fmt=json"
    );
}

#[test]
fn release_queries_and_candidates() {
    assert_eq!(release_query("Air", "Moon Safari"), "artist:\"Air\" AND release:\"Moon Safari\"");
    let ids: Vec<String> = vec!["a".into(), "b".into(), "a".into(), "c".into()];
    assert_eq!(other_releases(&ids, "a"), vec!["b".to_string(), "c".to_string()]);
    let many: Vec<String> = (0..25).map(|i| format!("id{}", i)).collect();
    let c = search_candidates(&many, "id3");
    assert_eq!(c.len(), 19);
    assert_eq!(c[0], "id0");
    assert_eq!(c[18], "id19");
}

#[test]
fn track_counts_within_two_are_close() {
    assert!(track_count_close(12, 10));
    assert!(track_count_close(8, 10));
    assert!(!track_count_close(13, 10));
    assert!(!track_count_close(7, 10));
}

#[test]
fn cover_prefers_the_front_image() {
    let imgs = vec![
        CoverImage { front: false, image: "back.jpg".into() },
        CoverImage { front: true, image: "front.jpg".into() },
    ];
    assert_eq!(choose_cover(&imgs), Some("front.jpg".to_string()));
    let no_front = vec![CoverImage { front: false, image: "x.jpg".into() }];
    assert_eq!(choose_cover(&no_front), Some("x.jpg".to_string()));
    assert_eq!(choose_cover(&Vec::new()), None);
}

fn mb_track(pos: u32, title: &str, len: Option<u32>) -> MbTrack {
    MbTrack {
        position: pos,
        title: title.to_string(),
        length: len,
        recording: Some(MbRecording { id: format!("rec{}", pos), artist: None, isrc: None }),
    }
}

fn medium(tracks: Vec<MbTrack>) -> MbMedium {
    MbMedium { track_count: tracks.len() as u32, tracks: Some(tracks) }
}

fn release(media: Option<Vec<MbMedium>>) -> MbRelease {
    MbRelease {
        id: "rel-1".to_string(),
        title: "Album".to_string(),
        first_artist: Some("Band".to_string()),
        last_artist_id: Some("artist-1".to_string()),
        label_info: Some(MbLabelInfo {
            label_name: Some("Label".to_string()),
            catalog_number: Some("CAT1".to_string()),
        }),
        media,
        release_group_id: Some("group-1".to_string()),
        tags: vec!["rock".to_string()],
        date: Some("1998-01-16".to_string()),
        barcode: None,
    }
}

#[test]
fn medium_tracks_and_length() {
    let m = medium(vec![mb_track(1, "One", Some(1000)), mb_track(2, "Two", None)]);
    let (tracks, total) = medium_cd_tracks(&m);
    assert_eq!(tracks.len(), 2);
    assert_eq!(tracks[0].title, "One");
    assert_eq!(tracks[1].duration_ms, 0);
    assert_eq!(tracks[1].mb_recording_id, Some("rec2".to_string()));
    assert_eq!(total, 1000);
}

#[test]
fn album_from_release_matches_the_disc_by_track_count() {
    let rel = release(Some(vec![
        medium(vec![mb_track(1, "A1", Some(10))]),
        medium(vec![mb_track(1, "B1", Some(20)), mb_track(2, "B2", Some(30))]),
    ]));
    let t = toc(1, 2, 1000, vec![150, 500]);
    let a = album_from_release("disc-x", &rel, Some(&t), Some("cover".into()), true);
    assert_eq!(a.disc_id, "disc-x");
    assert_eq!(a.artist, "Band");
    assert_eq!(a.disc_number, Some(2));
    assert_eq!(a.total_discs, Some(2));
    assert_eq!(a.tracks.len(), 2);
    assert_eq!(a.tracks[1].title, "B2");
    assert_eq!(a.total_duration_ms, 50);
    assert_eq!(a.label, Some("Label".to_string()));
    assert_eq!(a.catalog_number, Some("CAT1".to_string()));
    assert_eq!(a.mb_release_id, Some("rel-1".to_string()));
    assert_eq!(a.mb_artist_id, Some("artist-1".to_string()));
    assert_eq!(a.cover_art_url, Some("cover".to_string()));
    let without = album_from_release("d", &release(None), None, None, false);
    assert_eq!(without.disc_number, Some(1));
    assert_eq!(without.total_discs, Some(1));
    assert_eq!(without.tracks.len(), 0);
}

#[test]
fn release_disc_picks_the_numbered_medium() {
    let rel = release(Some(vec![
        medium(vec![mb_track(1, "A1", Some(10))]),
        medium(vec![mb_track(1, "B1", Some(20))]),
    ]));
    match release_disc(&rel, "d2", 2, None, false) {
        Some(a) => {
            assert_eq!(a.disc_number, Some(2));
            assert_eq!(a.tracks[0].title, "B1");
            assert_eq!(a.disc_id, "d2");
        }
        None => panic!("disc 2 exists"),
    }
    assert!(release_disc(&rel, "d3", 3, None, false).is_none());
    assert!(release_disc(&release(None), "d", 1, None, false).is_none());
}

#[test]
fn ripper_names_and_arguments() {
    let r = CDRipper::new("/dev/sr0".to_string(), AudioFormat::Flac);
    let t = track(3, "A/B: C ");
    assert_eq!(r.track_file_name(&t), "03 - A_B_ C.flac");
    assert_eq!(
        r.cdparanoia_args(&t, "/tmp/t.wav"),
        vec!["-d".to_string(), "/dev/sr0".into(), "3".into(), "/tmp/t.wav".into()]
    );
    assert_eq!(r.codec_args(), vec!["-acodec", "flac", "-compression_level", "12"]);
    let mp3 = CDRipper::new("/dev/sr0".to_string(), AudioFormat::Mp3);
    assert_eq!(
        mp3.ffmpeg_args("in.wav", "out.mp3"),
        vec!["-i", "in.wav", "-y", "-acodec", "libmp3lame", "-ab", "320k", "out.mp3"]
    );
    assert_eq!(format_codec_args(AudioFormat::Aac), vec!["-acodec", "aac", "-ab", "256k"]);
    assert_eq!(
        transcode_args(AudioFormat::Flac, "a.mp3", "a.flac"),
        vec!["-i", "a.mp3", "-y", "-acodec", "flac", "-compression_level", "12", "a.flac"]
    );
    assert_eq!(temp_wav_name(&t), ".temp_track_3.wav");
    let mut later = track(13, "x");
    later.start_offset = 2;
    assert_eq!(physical_track_number(&later), 2);
    assert_eq!(physical_track_number(&t), 3);
}

#[test]
fn ripped_track_tags() {
    let mut a = album("Various", "Mix");
    a.release_date = Some("2001-05-02".to_string());
    a.genres = vec!["rock".to_string(), "pop".to_string()];
    a.label = Some("Lbl".to_string());
    let mut t = track(4, "Song");
    t.artist = Some("Guest".to_string());
    let tags = cd_track_tags(&t, &a);
    assert_eq!(tags.artist, "Guest");
    assert_eq!(tags.album_artist, Some("Various".to_string()));
    assert_eq!(tags.year, Some(2001));
    assert_eq!(tags.genre, Some("rock, pop".to_string()));
    assert_eq!(tags.track, 4);
    assert_eq!(tags.publisher, Some("Lbl".to_string()));
    let plain = cd_track_tags(&track(1, "S"), &album("Band", "LP"));
    assert_eq!(plain.artist, "Band");
    assert_eq!(plain.album_artist, None);
    assert_eq!(plain.year, None);
    assert_eq!(plain.genre, None);
}

#[test]
fn missing_tools_are_named() {
    let m = missing_tools_message(&vec!["cdparanoia".to_string(), "ffmpeg".to_string()]);
    assert_eq!(
        m,
        "Missing required tools: cdparanoia, ffmpeg. Please install them first.\n\
Install with: sudo apt install cdparanoia ffmpeg (Debian/Ubuntu) or brew install cdparanoia ffmpeg (macOS)"
    );
}

#[test]
fn rip_failures() {
    assert_eq!(rip_failure("cdparanoia: Unable to open disc"), "CD drive not accessible or no disc present");
    assert_eq!(rip_failure("bad read"), "cdparanoia failed: bad read");
}

#[test]
fn auto_detect_uses_a_usual_device_path() {
    let usual = ["/dev/cdrom", "/dev/sr0", "/dev/sr1", "/dev/dvd", "/dev/cd0", "/dev/disk1"];
    match CDReader::auto_detect() {
        Ok(r) => assert!(usual.contains(&r.device_path.as_str())),
        Err(e) => assert_eq!(e, TocError::NoDevice),
    }
}

#[test]
fn musicbrainz_urls_are_percent_encoded() {
    assert_eq!(
        release_url("a b"),
        "https://musicbrainz.org/ws/2/release/a%20b?inc=recordings+artist-credits+labels+release-groups+tags&fmt=json"
    );
    assert_eq!(
        release_group_url("g/1"),
        "https://musicbrainz.org/ws/2/release?release-group=g%2F1&fmt=json"
    );
    assert_eq!(
        release_search_url("AC/DC", "Back"),
        "https://musicbrainz.org/ws/2/release?query=artist%3A%22AC%2FDC%22%20AND%20release%3A%22Back%22&fmt=json"
    );
    assert_eq!(
        disc_id_url("49HHV7Eb8UKF3aQiNmu1GR8vKTY-"),
        "https://musicbrainz.org/ws/2/discid/49HHV7Eb8UKF3aQiNmu1GR8vKTY-?fmt=json"
    );
    assert_eq!(cover_art_url("abc-1"), "https://coverartarchive.org/release/abc-1");
}
