use bandcamp_sync::bandcamp::client::{
    fan_id_pages, homepage_username, page_fan_id, scan_fan_id, CollectionPager, FanIdScan,
    PageFanId,
};
use bandcamp_sync::bandcamp::download::{
    album_art_url, art_image_url, complete_url, cover_bytes, cover_download, cover_file_name, needs_transcode,
    tag_name, track_downloads, track_tags, tralbum_json, AlbumPage, JsonTag, TrackInfo,
};
use bandcamp_sync::storage::AudioFormat;
use bandcamp_sync::bandcamp::models::{flag_from_json, JsonFlag};

fn page() -> AlbumPage {
    AlbumPage {
        art_id: None,
        current_art_id: None,
        art_url: None,
        artist: None,
        album_artist: None,
        current_title: None,
        album_title: None,
        current_album_title: None,
        album_release_date: None,
        current_release_date: None,
        tags: None,
        genre: None,
        url: None,
        current_url: None,
        trackinfo: None,
    }
}

#[test]
fn username_from_home_page() {
    let html = r#"<a href="/someuser/collection">collection</a>"#;
    assert_eq!(homepage_username(html), Ok(Some("someuser".to_string())));
    assert_eq!(homepage_username("<p>nothing</p>"), Ok(None));
}

#[test]
fn pages_searched_for_the_fan_id() {
    assert_eq!(fan_id_pages(&None), vec!["https://bandcamp.com/".to_string()]);
    assert_eq!(
        fan_id_pages(&Some("me".to_string())),
        vec![
            "https://bandcamp.com/".to_string(),
            "https://bandcamp.com/me".to_string(),
            "https://bandcamp.com/me/collection".to_string()
        ]
    );
}

#[test]
fn fan_id_from_page_json() {
    assert_eq!(scan_fan_id(r#"{"fan_id" : 12345, "x": 1}"#), FanIdScan::Found(12345));
    assert_eq!(scan_fan_id("no id here"), FanIdScan::NotFound);
    assert_eq!(scan_fan_id(r#""fan_id": 99999999999999999999999"#), FanIdScan::BadNumber);
}

#[test]
fn pager_walks_tokens() {
    let mut p = CollectionPager::new();
    assert_eq!(p.request_token(1700000000), "1700000000::a::");
    assert!(p.on_page(20, true, Some("tok2".to_string())));
    assert_eq!(p.request_token(1700000001), "tok2");
    assert_eq!(p.pages, 2);
    assert!(!p.on_page(0, true, Some("tok3".to_string())));
    assert_eq!(p.older_than_token, Some("tok2".to_string()));
    assert!(!p.on_page(5, false, None));
}

#[test]
fn tralbum_data_is_html_decoded() {
    let html = r#"<script data-tralbum="{&quot;artist&quot;:&quot;A&amp;B&quot;}"></script>"#;
    assert_eq!(tralbum_json(html), Ok(Some(r#"{"artist":"A&B"}"#.to_string())));
    assert_eq!(tralbum_json("<html></html>"), Ok(None));
}

#[test]
fn links_and_art() {
    assert_eq!(complete_url("//f4.bcbits.com/x.mp3"), "https://f4.bcbits.com/x.mp3");
    assert_eq!(complete_url("http://a/b"), "http://a/b");
    assert_eq!(art_image_url(1234), "https://f4.bcbits.com/img/a0000001234_10.jpg");
    let mut p = page();
    assert_eq!(album_art_url(&p), None);
    p.art_url = Some("//img/x.jpg".to_string());
    assert_eq!(album_art_url(&p), Some("https://img/x.jpg".to_string()));
    p.current_art_id = Some(7);
    assert_eq!(album_art_url(&p), Some("https://f4.bcbits.com/img/a0000000007_10.jpg".to_string()));
    p.art_id = Some(8);
    assert_eq!(album_art_url(&p), Some("https://f4.bcbits.com/img/a0000000008_10.jpg".to_string()));
}

#[test]
fn downloads_skip_tracks_without_stream() {
    let mut p = page();
    p.trackinfo = Some(vec![
        TrackInfo { title: Some("Intro: Part 1".to_string()), mp3_128: Some("//t/1".to_string()) },
        TrackInfo { title: Some("Hidden".to_string()), mp3_128: None },
        TrackInfo { title: None, mp3_128: Some("https://t/3".to_string()) },
    ]);
    let d = track_downloads(&p, AudioFormat::Mp3);
    assert_eq!(d.len(), 2);
    assert_eq!(d[0].number, 1);
    assert_eq!(d[0].file_name, "01 - Intro_ Part 1.mp3");
    assert_eq!(d[0].stream_file_name, "01 - Intro_ Part 1.mp3");
    assert_eq!(d[0].url, "https://t/1");
    assert_eq!(d[1].number, 3);
    assert_eq!(d[1].title, "Unknown");
    assert_eq!(d[1].file_name, "03 - Unknown.mp3");
    assert_eq!(d[1].url, "https://t/3");
    assert_eq!(track_downloads(&page(), AudioFormat::Aac).len(), 0);
}

#[test]
fn download_names_follow_the_library_format() {
    let mut p = page();
    p.trackinfo = Some(vec![
        TrackInfo { title: Some("Track Name".to_string()), mp3_128: Some("//t/1".to_string()) },
    ]);
    let aac = track_downloads(&p, AudioFormat::Aac);
    assert_eq!(aac.len(), 1);
    assert_eq!(aac[0].file_name, "01 - Track Name.m4a");
    assert_eq!(aac[0].stream_file_name, "01 - Track Name.mp3");
    let flac = track_downloads(&p, AudioFormat::Flac);
    assert_eq!(flac[0].file_name, "01 - Track Name.flac");
    let wav = track_downloads(&p, AudioFormat::Wav);
    assert_eq!(wav[0].file_name, "01 - Track Name.wav");
    assert!(needs_transcode(AudioFormat::Aac));
    assert!(needs_transcode(AudioFormat::Flac));
    assert!(needs_transcode(AudioFormat::Wav));
    assert!(!needs_transcode(AudioFormat::Mp3));
}

#[test]
fn cover_is_skipped_on_request_and_saved_as_cover_jpg() {
    let mut p = page();
    p.art_id = Some(8);
    assert_eq!(cover_download(&p, true), None);
    assert_eq!(
        cover_download(&p, false),
        Some("https://f4.bcbits.com/img/a0000000008_10.jpg".to_string())
    );
    assert_eq!(cover_download(&page(), false), None);
    assert_eq!(cover_file_name(), "cover.jpg");
}

#[test]
fn tag_names_from_strings_and_objects() {
    assert_eq!(tag_name(&JsonTag::Text("rock".to_string())), Some("rock".to_string()));
    assert_eq!(tag_name(&JsonTag::Object(Some("jazz".to_string()))), Some("jazz".to_string()));
    assert_eq!(tag_name(&JsonTag::Object(None)), None);
    assert_eq!(tag_name(&JsonTag::Other), None);
}

#[test]
fn tags_of_a_downloaded_track() {
    let mut p = page();
    p.album_artist = Some("Band".to_string());
    p.album_title = Some("Record".to_string());
    p.album_release_date = Some("2019-03-01".to_string());
    p.tags = Some(vec![Some("ambient".to_string()), None, Some("drone".to_string())]);
    p.current_url = Some("https://band.bandcamp.com/album/record".to_string());
    let t = track_tags(&p, &Some("Song".to_string()), 2, 9);
    assert_eq!(t.artist, "Band");
    assert_eq!(t.album_artist, "Band");
    assert_eq!(t.album, "Record");
    assert_eq!(t.title, "Song");
    assert_eq!(t.track, 2);
    assert_eq!(t.track_total, "9");
    assert_eq!(t.year, Some(2019));
    assert_eq!(t.genre, Some("ambient;drone".to_string()));
    assert_eq!(t.comment, Some("Bandcamp: https://band.bandcamp.com/album/record".to_string()));
    let bare = track_tags(&page(), &None, 1, 1);
    assert_eq!(bare.artist, "Unknown Artist");
    assert_eq!(bare.album, "Unknown Album");
    assert_eq!(bare.title, "Unknown Track");
    assert_eq!(bare.year, None);
    assert_eq!(bare.genre, None);
    assert_eq!(bare.comment, None);
}

#[test]
fn release_year_falls_back_to_current_date() {
    let mut p = page();
    p.current_release_date = Some(2005);
    assert_eq!(track_tags(&p, &None, 1, 1).year, Some(2005));
    p.album_release_date = Some("soon".to_string());
    assert_eq!(track_tags(&p, &None, 1, 1).year, None);
}

#[test]
fn api_flags_from_booleans_and_integers() {
    assert_eq!(flag_from_json(JsonFlag::Bool(true)), Some(true));
    assert_eq!(flag_from_json(JsonFlag::Integer(0)), Some(false));
    assert_eq!(flag_from_json(JsonFlag::Integer(3)), Some(true));
    assert_eq!(flag_from_json(JsonFlag::OtherNumber), None);
    assert_eq!(flag_from_json(JsonFlag::Other), None);
}

#[test]
fn fan_id_from_page_data_blob() {
    assert_eq!(page_fan_id(r#"{"fan_id":42}"#), PageFanId::Found(42));
    let html = r#"<html><body><div id="pagedata" data-blob="{&quot;fan_data&quot;:{&quot;fan_id&quot;:5}}"></div></body></html>"#;
    assert_eq!(page_fan_id(html), PageFanId::PageData(r#"{"fan_data":{"fan_id":5}}"#.to_string()));
    assert_eq!(page_fan_id("<html><body>nothing</body></html>"), PageFanId::NotFound);
}

#[test]
fn username_link_forms() {
    assert_eq!(homepage_username(r#"<a href="/fan">x</a>"#), Ok(Some("fan".to_string())));
    assert_eq!(homepage_username(r#"<a href="/fan/wishlist">w</a>"#), Ok(Some("fan".to_string())));
    let skipped = r#"<a href="/about/team">t</a><a href="/fan/collection">c</a>"#;
    assert_eq!(homepage_username(skipped), Ok(Some("fan".to_string())));
    assert_eq!(homepage_username(r#"<a href="/">home</a>"#), Ok(None));
}

#[test]
fn tralbum_data_skips_empty_attributes() {
    let html = r#"<div data-tralbum=""></div><div data-tralbum="{}"></div>"#;
    assert_eq!(tralbum_json(html), Ok(Some("{}".to_string())));
    assert_eq!(tralbum_json(r#"<div data-tralbum="{"#), Ok(None));
}

#[test]
fn covers_are_written_as_jpeg() {
    let img = image::RgbImage::from_pixel(2, 2, image::Rgb([200, 10, 10]));
    let mut png: Vec<u8> = Vec::new();
    image::DynamicImage::ImageRgb8(img)
        .write_to(std::io::Cursor::new(&mut png), image::ImageFormat::Png)
        .unwrap();
    let (jpeg, as_jpeg) = cover_bytes(&png).unwrap();
    assert!(as_jpeg);
    assert_ne!(jpeg, png);
    assert_eq!(&jpeg[..2], &[0xFF, 0xD8]);
    let raw = b"not an image".to_vec();
    assert_eq!(cover_bytes(&raw), Some((raw.clone(), false)));
}
