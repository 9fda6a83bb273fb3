use std::io::Write;
use bandcamp_sync::bandcamp::models::CollectionItem;
use bandcamp_sync::cd::models::{CDAlbum, CDTrack};
use bandcamp_sync::cli::auth::{
    login_step, on_discover_page, LoginStep,
    choose_bandcamp_cookie, cookie_status, login_credentials, login_fan_id, read_stored_cookie,
    split_cookie_data, stored_cookie_timestamp, stored_cookie_value, webdav_check, webdav_host,
    webdav_password_key, webdav_username_key, CookieChoice, CookieStatus, StoredCookie, WebdavCheck,
    WebdavUrlError,
};
use bandcamp_sync::cli::commands::{
    album_from_cd_text, album_positions, apply_disc_override, choose_storage, csv_row,
    disc_label, download_workers, duration_text, filter_collection, find_disc, generic_tracks, import_prompt,
    cd_text_search, is_skip_answer, item_passes, later_disc_tracks, offset_timestamp,
    parallel_workers, parse_selection, release_choice, release_line, sort_collection, table_cell,
    table_row, zip_entry_name, zip_import_plan, zip_uploads, CdImport, FilterOptions, ReleaseChoice, SelectionError,
    StorageChoiceError, StorageTarget, ZipEntry,
};
use bandcamp_sync::cd::reader::CDTextInfo;
use bandcamp_sync::cli::driver::{ready_step, DriverManager, ReadyStep};
use bandcamp_sync::cli::{AudioFormat, BrowserDriver};
use bandcamp_sync::storage::AudioFormat as StorageFormat;

fn item(band: &str, title: &str, kind: &str) -> CollectionItem {
    CollectionItem {
        fan_id: 1,
        item_id: 2,
        item_type: kind.to_string(),
        item_title: title.to_string(),
        item_url: "https://b.bandcamp.com/album/t".to_string(),
        band_id: 3,
        band_name: band.to_string(),
        band_url: "https://b.bandcamp.com".to_string(),
        album_id: None,
        album_title: None,
        tralbum_id: 4,
        tralbum_type: "a".to_string(),
        item_art_id: None,
        item_art_url: None,
        num_streamable_tracks: None,
    }
}

fn filters(a: Option<&str>, e: Option<&str>, al: Option<&str>) -> FilterOptions {
    FilterOptions {
        artist_filter: a.map(|s| s.to_string()),
        exclude_artist: e.map(|s| s.to_string()),
        album_filter: al.map(|s| s.to_string()),
    }
}

fn cd_track(num: i32, title: &str) -> CDTrack {
    CDTrack {
        track_num: num,
        title: title.to_string(),
        artist: None,
        duration_ms: 1000,
        isrc: None,
        mb_recording_id: None,
        start_offset: 0,
        end_offset: 0,
        pregap_ms: None,
    }
}

fn cd_album(artist: &str, title: &str, disc: Option<i32>, total: Option<i32>) -> CDAlbum {
    let mut a = album_from_cd_text("disc", artist.to_string(), title.to_string());
    a.disc_number = disc;
    a.total_discs = total;
    a
}

#[test]
fn cookie_roundtrip_through_the_keyring_value() {
    let stored = stored_cookie_value(1700000000, "abc:12345");
    assert_eq!(stored, "1700000000:abc:12345");
    assert_eq!(stored_cookie_timestamp(&stored), Some(1700000000));
    assert_eq!(read_stored_cookie(&stored, 1700000100), StoredCookie::Valid("abc:12345".to_string()));
    let negative = stored_cookie_value(-5, "c");
    assert_eq!(read_stored_cookie(&negative, 0), StoredCookie::Valid("c".to_string()));
}

#[test]
fn stored_cookie_expires_after_ten_minutes() {
    assert_eq!(read_stored_cookie("1000:abc", 1600), StoredCookie::Valid("abc".to_string()));
    assert_eq!(read_stored_cookie("1000:abc", 1601), StoredCookie::Expired);
    assert_eq!(read_stored_cookie("nonsense", 5), StoredCookie::Invalid);
    assert_eq!(read_stored_cookie("x:abc", 5), StoredCookie::Invalid);
}

#[test]
fn cookie_status_reports() {
    assert_eq!(
        cookie_status("1000:abc:42", 1100),
        CookieStatus::Fresh { expires_in: 500, fan_id: Some("42".to_string()) }
    );
    assert_eq!(cookie_status("1000:abc", 1700), CookieStatus::Expired { ago: 100, fan_id: None });
    assert_eq!(cookie_status("abc:def", 0), CookieStatus::InvalidTimestamp);
    assert_eq!(cookie_status("plaincookie", 0), CookieStatus::OldFormat);
}

#[test]
fn login_data_splits_back() {
    let data = login_credentials("cookie", "777");
    assert_eq!(data, "cookie:777");
    assert_eq!(split_cookie_data(&data), ("cookie".to_string(), Some(777)));
    assert_eq!(split_cookie_data("onlycookie"), ("onlycookie".to_string(), None));
    assert_eq!(split_cookie_data("c:notanumber"), ("c".to_string(), None));
}

#[test]
fn cookie_choice() {
    assert_eq!(
        choose_bandcamp_cookie(Some("given".into()), true, Some("stored".into())),
        CookieChoice::Provided("given".to_string())
    );
    assert_eq!(
        choose_bandcamp_cookie(None, false, Some("stored".into())),
        CookieChoice::Stored("stored".to_string())
    );
    assert_eq!(choose_bandcamp_cookie(None, true, Some("stored".into())), CookieChoice::BrowserLogin);
    assert_eq!(choose_bandcamp_cookie(None, false, None), CookieChoice::BrowserLogin);
}

#[test]
fn fan_id_after_login() {
    assert_eq!(login_fan_id(r#"x {"fanId":4321} y"#), Ok(Some("4321".to_string())));
    let blob = r#"<div class="a" id="DiscoverApp" data-blob="{&quot;fanId&quot;:55}"></div>"#;
    assert_eq!(login_fan_id(blob), Ok(Some("55".to_string())));
    assert_eq!(login_fan_id("<html></html>"), Ok(None));
}

#[test]
fn webdav_credentials() {
    assert_eq!(webdav_host("https://cloud.example.com/dav"), Ok("cloud.example.com".to_string()));
    assert_eq!(webdav_host("not a url"), Err(WebdavUrlError::InvalidUrl));
    assert_eq!(webdav_host("unix:/run/socket"), Err(WebdavUrlError::NoHost));
    assert_eq!(webdav_username_key("h"), "webdav:h:username");
    assert_eq!(webdav_password_key("h"), "webdav:h:password");
    assert_eq!(webdav_check(207), WebdavCheck::Accepted);
    assert_eq!(webdav_check(200), WebdavCheck::Accepted);
    assert_eq!(webdav_check(401), WebdavCheck::InvalidCredentials);
    assert_eq!(webdav_check(500), WebdavCheck::Refused(500));
}

#[test]
fn filters_by_artist_and_album() {
    let items = vec![
        item("Radiohead", "OK Computer", "album"),
        item("Various Artists", "Mix", "album"),
        item("Portishead", "Dummy", "track"),
    ];
    assert_eq!(filter_collection(&items, &filters(Some("HEAD"), None, None)), vec![0, 2]);
    assert_eq!(filter_collection(&items, &filters(None, Some("various"), None)), vec![0, 2]);
    assert_eq!(filter_collection(&items, &filters(Some("radio"), Some("radio"), None)), vec![0]);
    assert_eq!(filter_collection(&items, &filters(None, None, Some("dum"))), vec![2]);
    assert!(item_passes(&items[1], &filters(None, None, None)));
}

#[test]
fn include_and_exclude_split_the_collection() {
    let items = vec![item("Abc", "1", "album"), item("Xyz", "2", "album"), item("aBC", "3", "album")];
    let inc = filter_collection(&items, &filters(Some("abc"), None, None));
    let exc = filter_collection(&items, &filters(None, Some("abc"), None));
    assert_eq!(inc.len() + exc.len(), items.len());
    assert!(inc.iter().all(|i| !exc.contains(i)));
}

#[test]
fn sort_by_artist_then_title_stably() {
    let items = vec![
        item("B", "y", "album"),
        item("A", "z", "album"),
        item("B", "x", "album"),
        item("A", "z", "track"),
    ];
    assert_eq!(sort_collection(&items, &vec![0, 1, 2, 3]), vec![1, 3, 2, 0]);
    assert_eq!(sort_collection(&items, &vec![2, 0]), vec![2, 0]);
}

#[test]
fn table_and_csv_rows() {
    assert_eq!(table_cell("short", 10, 7), "short");
    assert_eq!(table_cell("a very long name", 10, 7), "a very ...");
    let long = item(&"n".repeat(40), "t", "album");
    let (a, t) = table_row(&long);
    assert_eq!(a, format!("{}...", "n".repeat(35)));
    assert_eq!(t, "t");
    let c = item("A, B", "C,D", "album");
    assert_eq!(csv_row(&c), "A; B,C;D,album,https://b.bandcamp.com/album/t");
}

#[test]
fn worker_counts() {
    assert_eq!(parallel_workers(true, 4, 8), 0);
    assert_eq!(parallel_workers(false, 1337, 8), 6);
    assert_eq!(parallel_workers(false, 2, 8), 2);
    assert_eq!(parallel_workers(false, 0, 8), 6);
    assert_eq!(parallel_workers(false, 0, 3), 3);
    assert_eq!(parallel_workers(false, 0, 0), 1);
    assert_eq!(download_workers(true, 0), 0);
    assert_eq!(download_workers(false, 3), 3);
    let auto = download_workers(false, 0);
    assert!(auto >= 1 && auto <= 6);
}

#[test]
fn storage_choice() {
    assert_eq!(choose_storage(Some("u".into()), None), Ok(StorageTarget::Webdav("u".to_string())));
    assert_eq!(choose_storage(None, Some("p".into())), Ok(StorageTarget::Local("p".to_string())));
    assert_eq!(choose_storage(None, None), Err(StorageChoiceError::Missing));
    assert_eq!(choose_storage(Some("u".into()), Some("p".into())), Err(StorageChoiceError::Both));
}

#[test]
fn selections() {
    assert_eq!(parse_selection(" 2 \n", 3), Ok(1));
    assert_eq!(parse_selection("0", 3), Err(SelectionError::OutOfRange));
    assert_eq!(parse_selection("4", 3), Err(SelectionError::OutOfRange));
    assert_eq!(parse_selection("two", 3), Err(SelectionError::NotANumber));
}

#[test]
fn album_items_only() {
    let items = vec![item("A", "1", "track"), item("A", "2", "album"), item("B", "3", "album")];
    assert_eq!(album_positions(&items), vec![1, 2]);
}

#[test]
fn zip_entries() {
    assert_eq!(zip_entry_name("Artist - Album/01 Song.flac", false), Some("01 Song.flac".to_string()));
    assert_eq!(zip_entry_name("cover.jpg", false), Some("cover.jpg".to_string()));
    assert_eq!(zip_entry_name("__MACOSX/._x", false), None);
    assert_eq!(zip_entry_name(".DS_Store", false), None);
    assert_eq!(zip_entry_name("dir/", true), None);
}

#[test]
fn disc_labels_and_release_lines() {
    assert_eq!(disc_label(Some(2), Some(3)), " [Disc 2/3]");
    assert_eq!(disc_label(Some(1), Some(1)), "");
    assert_eq!(disc_label(None, Some(2)), "");
    let mut a = cd_album("Band", "LP", Some(1), Some(2));
    a.release_date = Some("1999".to_string());
    assert_eq!(release_line(0, &a), "1. Band - LP [Disc 1/2] (1999, unknown label)");
}

#[test]
fn disc_override() {
    let mut a = cd_album("Band", "LP", Some(1), Some(1));
    apply_disc_override(&mut a, 3);
    assert_eq!(a.disc_number, Some(3));
    assert_eq!(a.total_discs, Some(3));
    let mut b = cd_album("Band", "LP", Some(1), Some(1));
    apply_disc_override(&mut b, 1);
    assert_eq!(b.total_discs, Some(2));
    let mut c = cd_album("Band", "LP", None, Some(4));
    apply_disc_override(&mut c, 2);
    assert_eq!(c.total_discs, Some(4));
}

#[test]
fn unknown_discs_get_generic_tracks() {
    let t = generic_tracks(3);
    assert_eq!(t.len(), 3);
    assert_eq!(t[0].title, "Track 1");
    assert_eq!(t[2].track_num, 3);
    assert_eq!(generic_tracks(0).len(), 0);
}

#[test]
fn later_discs_are_found() {
    let base = cd_album("Band", "LP", Some(1), Some(2));
    let releases = vec![cd_album("Band", "LP", Some(1), Some(2)), cd_album("Band", "LP", Some(2), Some(2))];
    assert_eq!(find_disc(&releases, &base, 2), Some(1));
    assert_eq!(find_disc(&releases, &base, 3), None);
}

#[test]
fn later_disc_tracks_come_from_release_then_search_then_generic() {
    let base = cd_album("Band", "LP", Some(1), Some(2));
    let mut chosen = cd_album("Band", "LP", Some(2), Some(2));
    chosen.tracks = vec![cd_track(1, "from release")];
    let mut found = cd_album("Band", "LP", Some(2), Some(2));
    found.tracks = vec![cd_track(1, "found"), cd_track(2, "found too")];
    let releases = vec![cd_album("Band", "LP", Some(1), Some(2)), found];

    let (t, known) = later_disc_tracks(&Some(chosen), &releases, &base, 2, 5);
    assert!(known);
    assert_eq!(t.len(), 1);
    assert_eq!(t[0].title, "from release");

    let (t, known) = later_disc_tracks(&None, &releases, &base, 2, 5);
    assert!(known);
    assert_eq!(t.len(), 2);
    assert_eq!(t[1].title, "found too");

    let (t, known) = later_disc_tracks(&None, &releases, &base, 3, 4);
    assert!(!known);
    assert_eq!(t.len(), 4);
    assert_eq!(t[3].title, "Track 4");
}

#[test]
fn cd_text_search_needs_artist_and_title() {
    let both = Some(CDTextInfo { album_title: Some("LP".to_string()), artist: Some("Band".to_string()) });
    assert_eq!(cd_text_search(&both), Some(("Band".to_string(), "LP".to_string())));
    let no_title = Some(CDTextInfo { album_title: None, artist: Some("Band".to_string()) });
    assert_eq!(cd_text_search(&no_title), None);
    let no_artist = Some(CDTextInfo { album_title: Some("LP".to_string()), artist: None });
    assert_eq!(cd_text_search(&no_artist), None);
    assert_eq!(cd_text_search(&None), None);
}

#[test]
fn release_choice_by_count() {
    assert_eq!(release_choice(0), ReleaseChoice::NotFound);
    assert_eq!(release_choice(1), ReleaseChoice::Single);
    assert_eq!(release_choice(2), ReleaseChoice::Ask);
    assert_eq!(release_choice(7), ReleaseChoice::Ask);
}

#[test]
fn multi_disc_import_numbers_tracks_on() {
    let mut base = cd_album("Band", "LP", Some(1), Some(2));
    base.tracks = vec![cd_track(1, "a"), cd_track(2, "b")];
    let mut imp = CdImport::new(&base);
    assert!(imp.in_progress());
    assert!(!imp.is_later_disc());
    let first = imp.disc_album(&base);
    assert_eq!(first.tracks[1].track_num, 2);
    assert!(imp.wants_cover(true, true));
    imp.finish_disc(2, false);
    assert!(imp.is_later_disc());
    assert!(!imp.uploads("folder.jpg"));
    assert!(imp.uploads("03 - c.flac"));
    assert!(!imp.wants_cover(true, true));
    let second = imp.disc_album(&base);
    assert_eq!(second.disc_number, Some(2));
    assert_eq!(second.tracks[0].track_num, 3);
    assert_eq!(second.tracks[0].start_offset, 1);
    assert_eq!(second.tracks[1].track_num, 4);
    imp.finish_disc(2, false);
    assert!(!imp.in_progress());
    assert_eq!(imp.discs_done(), 2);
}

#[test]
fn skipping_the_remaining_discs() {
    let base = cd_album("Band", "LP", Some(1), Some(3));
    let mut imp = CdImport::new(&base);
    assert!(is_skip_answer("  S \n"));
    assert!(!is_skip_answer("skip"));
    imp.skip_rest();
    assert!(!imp.in_progress());
}

#[test]
fn prompts_and_timestamps() {
    assert_eq!(import_prompt(true, 2), "Download and upload cover art for all discs?");
    assert_eq!(import_prompt(false, 2), "Proceed with ripping 2 disc(s)?");
    assert_eq!(import_prompt(false, 1), "Proceed with ripping?");
    assert_eq!(offset_timestamp(18295), (4, 3, 70));
    assert_eq!(offset_timestamp(0), (0, 0, 0));
    assert_eq!(offset_timestamp(-150), (0, -2, 0));
}

#[test]
fn cd_text_album() {
    let a = album_from_cd_text("id", "Artist".to_string(), "Title".to_string());
    assert_eq!(a.disc_number, Some(1));
    assert_eq!(a.total_discs, Some(1));
    assert_eq!(a.media_format, "CD");
    assert_eq!(a.tracks.len(), 0);
}

#[test]
fn browser_drivers() {
    assert_eq!(BrowserDriver::Firefox.default_port(), 4444);
    assert_eq!(BrowserDriver::Chrome.default_port(), 9515);
    assert_eq!(BrowserDriver::Safari.default_port(), 4444);
    assert_eq!(BrowserDriver::Chrome.driver_name(), "chromedriver");
    let m = DriverManager::new(BrowserDriver::Chrome, None);
    assert_eq!(m.port, 9515);
    assert_eq!(m.url(), "http://localhost:9515");
    assert_eq!(m.status_url(), "http://localhost:9515/status");
    assert_eq!(m.launch_args(), vec!["--port=9515".to_string()]);
    let f = DriverManager::new(BrowserDriver::Firefox, Some(5000));
    assert_eq!(f.launch_args(), vec!["--port".to_string(), "5000".to_string()]);
    let s = DriverManager::new(BrowserDriver::Safari, None);
    assert_eq!(s.launch_args(), vec!["--port".to_string(), "4444".to_string(), "--enable".to_string()]);
    assert_eq!(ready_step(1, true), ReadyStep::Ready);
    assert_eq!(ready_step(29, false), ReadyStep::WaitAndRetry);
    assert_eq!(ready_step(30, false), ReadyStep::GiveUp);
}

#[test]
fn audio_formats_map_to_storage() {
    assert_eq!(AudioFormat::Flac.to_storage(), StorageFormat::Flac);
    assert_eq!(AudioFormat::Aac.to_storage(), StorageFormat::Aac);
}

#[test]
fn login_polling() {
    assert_eq!(login_step(5, true), LoginStep::ReadFanId);
    assert_eq!(login_step(0, false), LoginStep::KeepWaiting);
    assert_eq!(login_step(118, false), LoginStep::KeepWaiting);
    assert_eq!(login_step(119, false), LoginStep::TimedOut);
    assert!(on_discover_page("https://bandcamp.com/discover?x=1"));
    assert!(!on_discover_page("https://bandcamp.com/login"));
}

#[test]
fn track_lengths() {
    assert_eq!(duration_text(0), "");
    assert_eq!(duration_text(243700), " (4:03)");
    assert_eq!(duration_text(59999), " (0:59)");
}

#[test]
fn missing_driver_message() {
    let m = DriverManager::new(BrowserDriver::Firefox, None);
    assert_eq!(
        m.missing_message(),
        "geckodriver not found. Please install it:\n  - Firefox: brew install geckodriver\n  - Chrome: brew install chromedriver\n  - Safari: safaridriver --enable"
    );
}

fn entry(name: Option<&str>, is_dir: bool) -> ZipEntry {
    ZipEntry { name: name.map(|n| n.to_string()), is_dir, contents: vec![1, 2] }
}

#[test]
fn zip_uploads_name_the_imported_files() {
    let entries = vec![
        entry(Some("Album/"), true),
        entry(Some("Album/01 - a.flac"), false),
        entry(Some("__MACOSX/._x"), false),
        entry(None, false),
        entry(Some(".DS_Store"), false),
        entry(Some("cover.jpg"), false),
    ];
    let ups = zip_uploads("Band/LP", &entries);
    assert_eq!(
        ups,
        vec![("Band/LP/01 - a.flac".to_string(), 1), ("Band/LP/cover.jpg".to_string(), 5)]
    );
    assert_eq!(zip_uploads("Band/LP", &Vec::new()).len(), 0);
}

#[test]
fn zip_archive_is_unpacked_for_import() {
    let mut w = zip::ZipWriter::new(std::io::Cursor::new(Vec::new()));
    let opts = zip::write::SimpleFileOptions::default()
        .compression_method(zip::CompressionMethod::Stored);
    w.add_directory("Album/", opts).unwrap();
    w.start_file("Album/02 - b.mp3", opts).unwrap();
    w.write_all(b"sound").unwrap();
    let data = w.finish().unwrap().into_inner();
    let (entries, ups) = zip_import_plan("A/B", &data).unwrap();
    assert_eq!(entries.len(), 2);
    assert!(entries[0].is_dir);
    assert_eq!(entries[1].name, Some("Album/02 - b.mp3".to_string()));
    assert_eq!(entries[1].contents, b"sound".to_vec());
    assert_eq!(ups, vec![("A/B/02 - b.mp3".to_string(), 1)]);
    assert!(zip_import_plan("A/B", &b"not a zip".to_vec()).is_none());
}
