use downloader_core::json::{JsonNumber, JsonValue};
use downloader_core::metadata::{
    media_metadata_from_json, metadata_json_candidate, metadata_json_fallback,
    metadata_parse_error, sort_and_prioritize_subtitles,
};
use downloader_core::models::MediaMetadata;

fn to_json(v: &serde_json::Value) -> JsonValue {
    match v {
        serde_json::Value::Null => JsonValue::Null,
        serde_json::Value::Bool(b) => JsonValue::Bool(*b),
        serde_json::Value::Number(n) => JsonValue::Number(JsonNumber {
            as_u64: n.as_u64(),
            rounded: n.as_f64().map(|d| d.round() as u64),
        }),
        serde_json::Value::String(s) => JsonValue::Str(s.clone()),
        serde_json::Value::Array(a) => JsonValue::Array(a.iter().map(to_json).collect()),
        serde_json::Value::Object(o) => {
            JsonValue::Object(o.iter().map(|(k, x)| (k.clone(), to_json(x))).collect())
        }
    }
}

fn parse_media_metadata_json(raw_json: &str, fallback_url: &str) -> Result<MediaMetadata, String> {
    let text = metadata_json_candidate(raw_json)?;
    let value = match serde_json::from_str::<serde_json::Value>(&text) {
        Ok(v) => v,
        Err(_) => {
            let retry = metadata_json_fallback(raw_json)?;
            serde_json::from_str::<serde_json::Value>(&retry)
                .map_err(|e| metadata_parse_error(&e.to_string()))?
        }
    };
    Ok(media_metadata_from_json(&to_json(&value), fallback_url))
}

#[test]
fn metadata_test_parse_media_metadata_json() {
    let sample_json = r#"{
        "title": "Amazing Rust & Tauri Tutorial",
        "thumbnail": "https://i.ytimg.com/vi/12345/hqdefault.jpg",
        "duration": 734.8,
        "uploader": "Tech Channel",
        "webpage_url": "https://www.youtube.com/watch?v=12345"
    }"#;

    let meta = parse_media_metadata_json(sample_json, "https://default.url").unwrap();
    assert_eq!(meta.title, "Amazing Rust & Tauri Tutorial");
    assert_eq!(meta.thumbnail.as_deref(), Some("https://i.ytimg.com/vi/12345/hqdefault.jpg"));
    assert_eq!(meta.duration, Some(735));
    assert_eq!(meta.uploader.as_deref(), Some("Tech Channel"));
    assert_eq!(meta.webpage_url, "https://www.youtube.com/watch?v=12345");
}

#[test]
fn metadata_test_parse_media_metadata_json_fallbacks() {
    let sample_json = r#"{
        "thumbnails": [{"url": "https://thumb1.jpg"}, {"url": "https://thumb2.jpg"}],
        "channel": "Fallback Channel"
    }"#;

    let meta = parse_media_metadata_json(sample_json, "https://fallback.url").unwrap();
    assert_eq!(meta.title, "Unknown Title");
    assert_eq!(meta.thumbnail.as_deref(), Some("https://thumb2.jpg"));
    assert_eq!(meta.duration, None);
    assert_eq!(meta.uploader.as_deref(), Some("Fallback Channel"));
    assert_eq!(meta.webpage_url, "https://fallback.url");
}

#[test]
fn test_parse_media_metadata_json_playlist() {
    let sample_playlist_json = r#"{
        "_type": "playlist",
        "title": "Best Coding Music 2026",
        "uploader": "Lofi Beats",
        "webpage_url": "https://www.youtube.com/playlist?list=PL12345",
        "entries": [
            {
                "title": "Track 1 - Ambient Flow",
                "thumbnail": "https://i.ytimg.com/vi/track1/hqdefault.jpg",
                "duration": 180,
                "uploader": "Lofi Producer",
                "webpage_url": "https://www.youtube.com/watch?v=track1"
            }
        ]
    }"#;

    let meta = parse_media_metadata_json(sample_playlist_json, "https://fallback.url").unwrap();
    assert_eq!(meta.title, "Best Coding Music 2026");
    assert_eq!(meta.thumbnail.as_deref(), Some("https://i.ytimg.com/vi/track1/hqdefault.jpg"));
    assert_eq!(meta.duration, Some(180));
    assert_eq!(meta.uploader.as_deref(), Some("Lofi Beats"));
    assert_eq!(meta.webpage_url, "https://www.youtube.com/playlist?list=PL12345");
}

#[test]
fn test_parse_media_metadata_json_playlist_entry_fallback() {
    let sample_playlist_json = r#"{
        "_type": "playlist",
        "entries": [
            {
                "title": "First Video In Anonymous Playlist",
                "thumbnail": "https://i.ytimg.com/vi/first/hqdefault.jpg",
                "duration": 240,
                "channel": "Awesome Creator"
            }
        ]
    }"#;

    let meta = parse_media_metadata_json(sample_playlist_json, "https://fallback.url").unwrap();
    assert_eq!(meta.title, "First Video In Anonymous Playlist");
    assert_eq!(meta.thumbnail.as_deref(), Some("https://i.ytimg.com/vi/first/hqdefault.jpg"));
    assert_eq!(meta.duration, Some(240));
    assert_eq!(meta.uploader.as_deref(), Some("Awesome Creator"));
    assert_eq!(meta.webpage_url, "https://fallback.url");
}

#[test]
fn test_sort_and_prioritize_subtitles() {
    let langs = vec![
        "es".to_string(),
        "en".to_string(),
        "km".to_string(),
        "de".to_string(),
        "km-orig".to_string(),
        "en-US".to_string(),
        "fr".to_string(),
        "km".to_string(), // duplicate
    ];

    let prioritized = sort_and_prioritize_subtitles(langs);
    assert_eq!(
        prioritized,
        vec!["km", "km-orig", "en", "en-US", "de", "es", "fr"]
    );
}

#[test]
fn test_parse_media_metadata_json_with_subtitles() {
    let sample_json = r#"{
        "title": "Khmer Voice Dubbing Tutorial",
        "duration": 600,
        "webpage_url": "https://www.youtube.com/watch?v=sample",
        "subtitles": {
            "en": [{"ext": "vtt"}],
            "km": [{"ext": "vtt"}]
        },
        "automatic_captions": {
            "km-orig": [{"ext": "srv3"}],
            "en": [{"ext": "srv3"}],
            "zh": [{"ext": "srv3"}]
        }
    }"#;

    let meta = parse_media_metadata_json(sample_json, "https://sample.url").unwrap();
    assert_eq!(meta.title, "Khmer Voice Dubbing Tutorial");
    assert_eq!(meta.available_subtitles, vec!["km", "km-orig", "en", "zh"]);
}

#[test]
fn engine_test_parse_media_metadata_json() {
    let sample_json = r#"{
        "title": "Amazing Rust & Tauri Tutorial",
        "thumbnail": "https://i.ytimg.com/vi/12345/hqdefault.jpg",
        "duration": 734.8,
        "uploader": "Tech Channel",
        "webpage_url": "https://www.youtube.com/watch?v=12345"
    }"#;

    let meta = parse_media_metadata_json(sample_json, "https://default.url").unwrap();
    assert_eq!(meta.title, "Amazing Rust & Tauri Tutorial");
    assert_eq!(meta.thumbnail.as_deref(), Some("https://i.ytimg.com/vi/12345/hqdefault.jpg"));
    assert_eq!(meta.duration, Some(735));
    assert_eq!(meta.uploader.as_deref(), Some("Tech Channel"));
    assert_eq!(meta.webpage_url, "https://www.youtube.com/watch?v=12345");
}

#[test]
fn engine_test_parse_media_metadata_json_fallbacks() {
    let sample_json = r#"{
        "thumbnails": [{"url": "https://thumb1.jpg"}, {"url": "https://thumb2.jpg"}],
        "channel": "Fallback Channel"
    }"#;

    let meta = parse_media_metadata_json(sample_json, "https://fallback.url").unwrap();
    assert_eq!(meta.title, "Unknown Title");
    assert_eq!(meta.thumbnail.as_deref(), Some("https://thumb2.jpg"));
    assert_eq!(meta.duration, None);
    assert_eq!(meta.uploader.as_deref(), Some("Fallback Channel"));
    assert_eq!(meta.webpage_url, "https://fallback.url");
}

