use base64::Engine;
use bava::now_playing::{
    art_source, art_url_for, decode_art_bytes, decode_artwork, non_empty, pushed_art, youtube_thumbnail, ArtRefresh,
    ArtSource, ArtUrlWatch, TrackKey,
};

#[test]
fn youtube_watch_and_short_urls_give_thumbnails() {
    assert_eq!(
        youtube_thumbnail("https://www.youtube.com/watch?v=dQw4w9WgXcQ&t=42").as_deref(),
        Some("https://i.ytimg.com/vi/dQw4w9WgXcQ/hqdefault.jpg")
    );
    assert_eq!(
        youtube_thumbnail("https://youtu.be/abc123?si=x").as_deref(),
        Some("https://i.ytimg.com/vi/abc123/hqdefault.jpg")
    );
    assert_eq!(youtube_thumbnail("https://vimeo.com/123"), None);
    assert_eq!(youtube_thumbnail("https://www.youtube.com/watch?v="), None);
    assert_eq!(youtube_thumbnail("youtube.com"), None);
}

#[test]
fn player_art_wins_over_a_derived_thumbnail() {
    assert_eq!(art_url_for(Some("file:///a.png".into()), Some("https://youtu.be/x".into())).as_deref(), Some("file:///a.png"));
    assert_eq!(
        art_url_for(None, Some("https://youtu.be/x".into())).as_deref(),
        Some("https://i.ytimg.com/vi/x/hqdefault.jpg")
    );
    assert_eq!(art_url_for(None, None), None);
}

#[test]
fn art_urls_are_classified_by_scheme() {
    assert_eq!(art_source("file:///tmp/cover.jpg"), ArtSource::File("/tmp/cover.jpg".into()));
    assert_eq!(art_source("https://x/y.png"), ArtSource::Http);
    assert_eq!(art_source("http://x/y.png"), ArtSource::Http);
    assert_eq!(art_source("data:image/png;base64,AAAA"), ArtSource::Unsupported);
}

#[test]
fn empty_metadata_counts_as_absent() {
    assert_eq!(non_empty(Some(String::new())), None);
    assert_eq!(non_empty(Some("t".into())).as_deref(), Some("t"));
    assert_eq!(non_empty(None), None);
    assert_eq!(pushed_art(&[]), None);
    assert_eq!(pushed_art(&[1, 2]), Some(vec![1, 2]));
}

fn key(title: &str, has_art: bool) -> TrackKey {
    TrackKey { title: Some(title.into()), artist: None, album: None, has_art }
}

#[test]
fn art_is_read_once_per_track_and_again_when_it_arrives() {
    let mut r = ArtRefresh::new();
    assert!(r.track_changed(key("a", false)));
    assert!(!r.track_changed(key("a", false)));
    assert!(r.track_changed(key("a", true)));
    assert!(!r.track_changed(key("a", true)));
    assert!(r.session_lost());
    assert!(!r.session_lost());
    assert!(r.track_changed(key("a", true)));
}

#[test]
fn art_urls_are_fetched_only_when_they_change() {
    let mut w = ArtUrlWatch::new();
    assert!(!w.url_changed(&None));
    assert!(w.url_changed(&Some("u1".into())));
    assert!(!w.url_changed(&Some("u1".into())));
    assert!(w.url_changed(&None));
    assert!(!w.player_gone());
    w.url_changed(&Some("u2".into()));
    assert!(w.player_gone());
}

/// A 1×1 opaque red PNG, base64-encoded.
fn red_pixel_png_base64() -> String {
    let img = image::RgbaImage::from_pixel(1, 1, image::Rgba([255, 0, 0, 255]));
    let mut buf = std::io::Cursor::new(Vec::new());
    img.write_to(&mut buf, image::ImageFormat::Png).unwrap();
    base64::engine::general_purpose::STANDARD.encode(buf.into_inner())
}

#[test]
fn base64_artwork_decodes_to_rgba() {
    let art = decode_artwork(&red_pixel_png_base64()).expect("a valid PNG decodes");
    assert_eq!((art.width, art.height), (1, 1));
    assert_eq!(art.rgba, vec![255, 0, 0, 255]);
    assert!(decode_artwork("not base64 !").is_none());
    assert!(decode_artwork("aGVsbG8=").is_none());
    assert!(decode_art_bytes(&[]).is_none());
}
