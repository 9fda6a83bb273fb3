use bandcamp_sync::storage::webdav::webdav_url_valid;
use bandcamp_sync::bandcamp::models::CollectionItem;
use bandcamp_sync::storage::local::LocalStorage;
use bandcamp_sync::storage::sync::{
    album_dir, compare_collections, download_folder_name, is_audio_file_name, is_cover_file_name,
    library_album, plan_summary, plan_sync, sanitize_filename, sync_mode, AlbumProbe, ListedEntry,
    PlanSummary, SyncMode,
};
use bandcamp_sync::storage::webdav::{
    directory_prefixes, is_transient_error, listing_entry, make_path, parent_folder, should_retry,
    storage_type,
};
use bandcamp_sync::storage::{AudioFormat, DryRunResult, MusicLibraryItem, SyncOptions};

fn item(band: &str, title: &str, tracks: Option<i32>, art: Option<i64>) -> CollectionItem {
    CollectionItem {
        fan_id: 1,
        item_id: 2,
        item_type: "album".to_string(),
        item_title: title.to_string(),
        item_url: format!("https://x.bandcamp.com/album/{}", title),
        band_id: 3,
        band_name: band.to_string(),
        band_url: "https://x.bandcamp.com".to_string(),
        album_id: None,
        album_title: None,
        tralbum_id: 4,
        tralbum_type: "a".to_string(),
        item_art_id: art,
        item_art_url: None,
        num_streamable_tracks: tracks,
    }
}

fn lib(artist: &str, album: &str) -> MusicLibraryItem {
    MusicLibraryItem {
        artist: artist.to_string(),
        album: album.to_string(),
        tracks: vec!["01.mp3".to_string()],
        has_cover: false,
    }
}

fn options(skip_cover: bool) -> SyncOptions {
    SyncOptions {
        dry_run: true,
        parallel_downloads: 0,
        skip_cover_art: skip_cover,
        audio_format: AudioFormat::Mp3,
    }
}

#[test]
fn sanitize_replaces_forbidden_characters_and_trims() {
    assert_eq!(sanitize_filename(" AC/DC: Live? "), "AC_DC_ Live_");
    assert_eq!(sanitize_filename("a\\b*c\"d<e>f|g"), "a_b_c_d_e_f_g");
    assert_eq!(sanitize_filename("plain"), "plain");
}

#[test]
fn sanitize_is_idempotent_on_examples() {
    for s in [" AC/DC: Live? ", "  ", "a|b", "x\ty "] {
        let once = sanitize_filename(s);
        assert_eq!(sanitize_filename(&once), once);
    }
}

#[test]
fn album_folders() {
    assert_eq!(album_dir("Sigur Rós", "( )"), "Sigur Rós/( )");
    assert_eq!(album_dir("A/B", "C:D"), "A_B/C_D");
    assert_eq!(download_folder_name("A/B", " C "), "A_B-C");
}

#[test]
fn compare_keeps_only_missing_items_in_order() {
    let items = vec![
        item("Band", "First", None, None),
        item("Other", "Second", None, None),
        item("BAND", "third", None, None),
    ];
    let library = vec![lib("band", "FIRST"), lib("Band", "Third")];
    let missing = compare_collections(&items, &library);
    assert_eq!(missing.len(), 1);
    assert_eq!(missing[0].item_title, "Second");
}

#[test]
fn empty_library_misses_everything() {
    let items = vec![item("A", "1", None, None), item("B", "2", None, None)];
    let missing = compare_collections(&items, &Vec::new());
    assert_eq!(missing.len(), 2);
    assert_eq!(missing[1].band_name, "B");
}

#[test]
fn full_library_misses_nothing() {
    let items = vec![item("A", "1", None, None)];
    assert_eq!(compare_collections(&items, &vec![lib("a", "1")]).len(), 0);
}

#[test]
fn dry_run_plan() {
    let items = vec![
        item("Band", "One", Some(2), Some(5)),
        item("Band", "Two", None, None),
        item("Band", "One", Some(1), None),
    ];
    let probes = vec![
        AlbumProbe { exists: false, existing_files: 0 },
        AlbumProbe { exists: true, existing_files: 3 },
        AlbumProbe { exists: false, existing_files: 0 },
    ];
    let r = plan_sync(&items, &probes, &options(false));
    assert_eq!(r.total_albums, 3);
    assert_eq!(r.total_tracks, 3);
    assert_eq!(r.estimated_size_mb, 24);
    assert_eq!(r.directories_to_create, vec!["Band/One".to_string()]);
    assert_eq!(
        r.files_to_write,
        vec![
            "Band/One/track_01.mp3".to_string(),
            "Band/One/track_02.mp3".to_string(),
            "Band/One/cover.jpg".to_string(),
            "Band/One/track_01.mp3".to_string(),
        ]
    );
    assert_eq!(r.conflicts.len(), 1);
    assert_eq!(r.conflicts[0].path, "Band/Two");
    assert_eq!(r.conflicts[0].reason, "Album directory already exists with 3 files");
    assert_eq!(r.albums_to_download[1].track_count, None);
    assert!(r.albums_to_download[0].has_cover_art);
    assert_eq!(r.albums_to_download[0].destination_path, "Band/One");
    let no_cover = plan_sync(&items, &probes, &options(true));
    assert_eq!(no_cover.files_to_write.len(), 3);
}

#[test]
fn plan_summaries() {
    let probes = vec![AlbumProbe { exists: false, existing_files: 0 }];
    let known = plan_sync(&vec![item("A", "B", Some(4), None)], &probes, &options(true));
    assert_eq!(plan_summary(&known), PlanSummary::AllKnown { tracks: 4, size_mb: 32 });
    let unknown = plan_sync(&vec![item("A", "B", None, None)], &probes, &options(true));
    assert_eq!(plan_summary(&unknown), PlanSummary::AllUnknown);
    let two = vec![AlbumProbe { exists: false, existing_files: 0 }; 2];
    let partial =
        plan_sync(&vec![item("A", "B", Some(2), None), item("A", "C", None, None)], &two, &options(true));
    assert_eq!(
        plan_summary(&partial),
        PlanSummary::Partial { known_tracks: 2, unknown_albums: 1, size_mb: 16 }
    );
    let empty = DryRunResult::new();
    assert_eq!(plan_summary(&empty), PlanSummary::AllKnown { tracks: 0, size_mb: 0 });
}

#[test]
fn size_per_track_by_format() {
    assert_eq!(AudioFormat::Mp3.mb_per_track(), 8);
    assert_eq!(AudioFormat::Flac.mb_per_track(), 30);
    assert_eq!(AudioFormat::Flac.extension(), "flac");
    assert_eq!(AudioFormat::Aac.extension(), "m4a");
    assert_eq!(AudioFormat::Wav.extension(), "wav");
}

#[test]
fn sync_modes() {
    let mut o = options(false);
    assert_eq!(sync_mode(&o, 3), SyncMode::DryRun);
    o.dry_run = false;
    assert_eq!(sync_mode(&o, 0), SyncMode::UpToDate);
    assert_eq!(sync_mode(&o, 2), SyncMode::Sequential);
    o.parallel_downloads = 4;
    assert_eq!(sync_mode(&o, 2), SyncMode::Parallel(4));
}

#[test]
fn library_albums_from_listings() {
    let entries = vec![
        ListedEntry { name: Some("01 - a.mp3".to_string()), is_directory: false },
        ListedEntry { name: Some("cover.jpg".to_string()), is_directory: false },
        ListedEntry { name: Some("notes.txt".to_string()), is_directory: false },
        ListedEntry { name: Some("02 - b.flac".to_string()), is_directory: false },
    ];
    match library_album("A".to_string(), "B".to_string(), &entries) {
        Some(a) => {
            assert_eq!(a.tracks, vec!["01 - a.mp3".to_string(), "02 - b.flac".to_string()]);
            assert!(a.has_cover);
        }
        None => panic!("album has tracks"),
    }
    let no_audio = vec![ListedEntry { name: Some("cover.png".to_string()), is_directory: false }];
    assert!(library_album("A".to_string(), "B".to_string(), &no_audio).is_none());
    assert!(is_audio_file_name("x.m4a"));
    assert!(!is_audio_file_name("x.ogg"));
    assert!(is_cover_file_name("cover.png"));
    assert!(!is_cover_file_name("Cover.jpg"));
}

#[test]
fn local_paths() {
    let s = LocalStorage::new("music", "/home/me");
    assert_eq!(s.root_path, "/home/me/music");
    assert_eq!(LocalStorage::new("/srv/music", "/home/me").root_path, "/srv/music");
    assert_eq!(s.full_path("A/B/01.mp3"), "/home/me/music/A/B/01.mp3");
    assert_eq!(s.full_path("/abs/x"), "/abs/x");
    assert_eq!(s.storage_type(), "Local Filesystem");
}

#[test]
fn webdav_request_paths() {
    assert_eq!(make_path(""), "/");
    assert_eq!(make_path("Artist/Album"), "/Artist/Album");
    assert_eq!(make_path("///Artist"), "/Artist");
    let once = make_path("//a/b");
    assert_eq!(make_path(&once), once);
    assert_eq!(storage_type(), "WebDAV");
}

#[test]
fn webdav_retries() {
    assert!(!is_transient_error("Decode { status: 404, message: \"\" }"));
    assert!(!is_transient_error("Unauthorized"));
    assert!(is_transient_error("Reqwest(connection reset)"));
    assert!(should_retry(1, 3, true));
    assert!(!should_retry(3, 3, true));
    assert!(!should_retry(1, 3, false));
}

#[test]
fn webdav_listing_entries() {
    let folder = r#"Folder(ListFolder { href: "/dav/Artist/Album%20One/", last_modified: 0 })"#;
    let file = r#"File(ListFile { href: "/dav/Artist/Album%20One/01.mp3", size: 3 })"#;
    assert_eq!(listing_entry(folder, "Artist", 0), None);
    assert_eq!(listing_entry(folder, "Artist", 1), Some(("Artist/Album One".to_string(), true)));
    assert_eq!(listing_entry(file, "", 0), Some(("01.mp3".to_string(), false)));
    let full = r#"File(ListFile { href: "https://host/dav/x%2", size: 3 })"#;
    assert_eq!(listing_entry(full, "", 2), Some(("x%2".to_string(), false)));
    assert_eq!(listing_entry("Folder(no link)", "", 0), None);
}

#[test]
fn webdav_folders_to_create() {
    assert_eq!(
        directory_prefixes("Artist/Album/"),
        vec!["/Artist".to_string(), "/Artist/Album".to_string()]
    );
    assert_eq!(parent_folder("Artist/Album/01.mp3"), Some("Artist/Album".to_string()));
    assert_eq!(parent_folder("cover.jpg"), None);
}

#[test]
fn webdav_names_are_percent_decoded() {
    let utf8 = r#"File(ListFile { href: "/dav/Caf%C3%A9%2fx", size: 1 })"#;
    assert_eq!(listing_entry(utf8, "", 0), Some(("Café/x".to_string(), false)));
    let invalid = r#"File(ListFile { href: "/dav/bad%FFname", size: 1 })"#;
    assert_eq!(listing_entry(invalid, "", 0), Some(("bad%FFname".to_string(), false)));
    let odd = r#"File(ListFile { href: "/dav/100%zz%4", size: 1 })"#;
    assert_eq!(listing_entry(odd, "", 0), Some(("100%zz%4".to_string(), false)));
}

#[test]
fn local_listing_paths_are_relative_to_the_root() {
    let s = LocalStorage::new("/srv/music", "/");
    assert_eq!(s.relative_path("/srv/music/Artist/Album"), "Artist/Album");
    assert_eq!(s.relative_path("/srv/music//Artist/"), "Artist");
    assert_eq!(s.relative_path("/srv/other/x"), "/srv/other/x");
    assert_eq!(s.relative_path("/srv/music"), "");
}

#[test]
fn larger_library_misses_a_subsequence() {
    let items = vec![
        item("A", "1", None, None),
        item("B", "2", None, None),
        item("C", "3", None, None),
    ];
    let smaller = vec![lib("a", "1")];
    let larger = vec![lib("a", "1"), lib("c", "3")];
    let from_smaller = compare_collections(&items, &smaller);
    let from_larger = compare_collections(&items, &larger);
    assert_eq!(from_smaller.len(), 2);
    assert_eq!(from_larger.len(), 1);
    assert_eq!(from_larger[0].item_title, "2");
    assert!(from_smaller.iter().any(|m| m.item_title == from_larger[0].item_title));
}

#[test]
fn webdav_urls_must_parse() {
    assert!(webdav_url_valid("https://dav.example.com/remote.php/webdav"));
    assert!(webdav_url_valid("http://localhost:8080"));
    assert!(!webdav_url_valid("not a url"));
    assert!(!webdav_url_valid("/just/a/path"));
}
