use downloader_core::args::{
    build_arguments_internal, build_output_template, clean_filename, clean_filepath,
    extract_destination_filepath,
};
use downloader_core::models::DownloadPayload;

#[test]
fn args_test_build_output_template_playlist() {
    let template = build_output_template("C:/Downloads", true);
    assert_eq!(
        template,
        "C:/Downloads/%(playlist_title)s/%(playlist_index)02d - %(title)s.%(ext)s"
    );
}

#[test]
fn args_test_build_output_template_single_video() {
    let template = build_output_template("C:/Downloads", false);
    assert_eq!(template, "C:/Downloads/%(title)s.%(ext)s");
}

#[test]
fn args_test_build_output_template_empty_or_relative() {
    assert_eq!(
        build_output_template(".", true),
        "%(playlist_title)s/%(playlist_index)02d - %(title)s.%(ext)s"
    );
    assert_eq!(
        build_output_template("", true),
        "%(playlist_title)s/%(playlist_index)02d - %(title)s.%(ext)s"
    );
    assert_eq!(
        build_output_template(".", false),
        "%(title)s.%(ext)s"
    );
    assert_eq!(
        build_output_template("", false),
        "%(title)s.%(ext)s"
    );
}

#[test]
fn args_test_clean_filename_handling() {
    assert_eq!(
        clean_filename(r"C:\Downloads\My Playlist\01 - Track Title.mp4"),
        "01 - Track Title.mp4"
    );
    assert_eq!(
        clean_filename("C:/Downloads/My Playlist/02 - Track Title.f140.m4a"),
        "02 - Track Title.m4a"
    );
    assert_eq!(
        clean_filename("03 - Track Title.temp.mp4"),
        "03 - Track Title.mp4"
    );
    assert_eq!(
        clean_filename(r"C:\Downloads\04 - Track Title.mp4.part"),
        "04 - Track Title.mp4"
    );
}

#[test]
fn args_test_clean_filepath_handling() {
    let cleaned = clean_filepath(r"C:\Downloads\My Playlist\01 - Track.temp.mp4");
    assert_eq!(
        cleaned.replace('/', "\\"),
        r"C:\Downloads\My Playlist\01 - Track.mp4"
    );
    let cleaned2 = clean_filepath(r"C:\Downloads\02 - Track.f298.mp4");
    assert_eq!(
        cleaned2.replace('/', "\\"),
        r"C:\Downloads\02 - Track.mp4"
    );
}

#[test]
fn args_test_extract_destination_filepath() {
    assert_eq!(
        extract_destination_filepath(r#"[Merger] Merging formats into "C:\Downloads\Video.mp4""#),
        Some(r"C:\Downloads\Video.mp4".to_string())
    );
    assert_eq!(
        extract_destination_filepath(r#"Destination: C:\Downloads\Audio.mp3"#),
        Some(r"C:\Downloads\Audio.mp3".to_string())
    );
}

#[test]
fn test_build_arguments_with_subtitles_and_thumbnail() {
    let payload = DownloadPayload {
        task_id: Some("test_task".into()),
        url: "https://www.youtube.com/watch?v=subtest".into(),
        format_type: "video".into(),
        quality: "1080p".into(),
        is_playlist: false,
        use_gpu: false,
        save_path: Some("C:/Downloads".into()),
        download_subtitle: true,
        subtitle_lang: Some("orig".into()),
        download_thumbnail: true,
        download_metadata: false,
        browser_cookies: None,
    };

    let args = build_arguments_internal(Some("C:/ffmpeg/bin/ffmpeg.exe".into()), &payload, false);

    assert!(args.contains(&"--write-subs".to_string()));
    assert!(args.contains(&"--write-auto-subs".to_string()));
    assert!(args.contains(&"--sub-langs".to_string()));

    let sub_langs_pos = args.iter().position(|a| a == "--sub-langs").unwrap();
    assert_eq!(args[sub_langs_pos + 1], "orig,.*-orig,default,km.*,en.*");

    let convert_subs_pos = args.iter().position(|a| a == "--convert-subs").unwrap();
    assert_eq!(args[convert_subs_pos + 1], "srt");

    assert!(args.contains(&"--compat-options".to_string()));
    let compat_pos = args.iter().position(|a| a == "--compat-options").unwrap();
    assert_eq!(args[compat_pos + 1], "no-keep-subs");

    assert!(args.contains(&"--write-thumbnail".to_string()));
    let convert_thumb_pos = args.iter().position(|a| a == "--convert-thumbnails").unwrap();
    assert_eq!(args[convert_thumb_pos + 1], "jpg");

    assert!(args.contains(&"--sleep-subtitles".to_string()));
    let sleep_pos = args.iter().position(|a| a == "--sleep-subtitles").unwrap();
    assert_eq!(args[sleep_pos + 1], "2");

    assert!(args.contains(&"--no-abort-on-error".to_string()));
    assert!(args.contains(&"--ignore-no-formats-error".to_string()));

    assert!(args.contains(&"--extractor-retries".to_string()));
    let retries_pos = args.iter().position(|a| a == "--extractor-retries").unwrap();
    assert_eq!(args[retries_pos + 1], "3");

    assert!(args.contains(&"--retry-sleep".to_string()));
    let retry_sleep_pos = args.iter().position(|a| a == "--retry-sleep").unwrap();
    assert_eq!(args[retry_sleep_pos + 1], "extractor:3");
}

#[test]
fn test_build_arguments_default_subtitle_lang() {
    let payload = DownloadPayload {
        task_id: None,
        url: "https://www.youtube.com/watch?v=subtest2".into(),
        format_type: "audio".into(),
        quality: "best".into(),
        is_playlist: false,
        use_gpu: false,
        save_path: None,
        download_subtitle: true,
        subtitle_lang: None,
        download_thumbnail: false,
        download_metadata: false,
        browser_cookies: None,
    };

    let args = build_arguments_internal(None, &payload, false);

    assert!(args.contains(&"--write-subs".to_string()));
    assert!(args.contains(&"--write-auto-subs".to_string()));
    let sub_langs_pos = args.iter().position(|a| a == "--sub-langs").unwrap();
    assert_eq!(args[sub_langs_pos + 1], "orig,.*-orig,default,km.*,en.*");
    let convert_subs_pos = args.iter().position(|a| a == "--convert-subs").unwrap();
    assert_eq!(args[convert_subs_pos + 1], "srt");
    assert!(args.contains(&"--compat-options".to_string()));
    assert!(!args.contains(&"--write-thumbnail".to_string()));
}

#[test]
fn test_build_arguments_expanded_video_formats() {
    for ext in &["mp4", "mkv", "webm", "mov", "avi"] {
        let payload = DownloadPayload {
            task_id: None,
            url: "https://www.youtube.com/watch?v=vidtest".into(),
            format_type: ext.to_string(),
            quality: "best".into(),
            is_playlist: false,
            use_gpu: false,
            save_path: None,
            download_subtitle: false,
            subtitle_lang: None,
            download_thumbnail: false,
            download_metadata: false,
            browser_cookies: None,
        };

        let args = build_arguments_internal(None, &payload, false);

        let f_pos = args.iter().position(|a| a == "-f").unwrap();
        assert_eq!(args[f_pos + 1], "bestvideo+bestaudio/best");

        match *ext {
            "mkv" => {
                assert!(args.contains(&"--merge-output-format".to_string()));
                let merge_pos = args.iter().position(|a| a == "--merge-output-format").unwrap();
                assert_eq!(args[merge_pos + 1], "mkv");
            }
            "webm" => {
                assert!(args.contains(&"--merge-output-format".to_string()));
                let merge_pos = args.iter().position(|a| a == "--merge-output-format").unwrap();
                assert_eq!(args[merge_pos + 1], "webm");
            }
            "mp4" => {
                assert!(args.contains(&"--merge-output-format".to_string()));
                let merge_pos = args.iter().position(|a| a == "--merge-output-format").unwrap();
                assert_eq!(args[merge_pos + 1], "mp4");
                assert!(args.contains(&"Merger:-c:a aac -b:a 192k".to_string()));
            }
            "mov" | "avi" => {
                assert!(args.contains(&"--recode-video".to_string()));
                let recode_pos = args.iter().position(|a| a == "--recode-video").unwrap();
                assert_eq!(args[recode_pos + 1], *ext);
            }
            _ => {}
        }
    }
}

#[test]
fn test_build_arguments_expanded_audio_formats() {
    for ext in &["mp3", "m4a", "wav", "flac", "aac", "opus"] {
        let payload = DownloadPayload {
            task_id: None,
            url: "https://www.youtube.com/watch?v=audiotest".into(),
            format_type: ext.to_string(),
            quality: "best".into(),
            is_playlist: false,
            use_gpu: false,
            save_path: None,
            download_subtitle: false,
            subtitle_lang: None,
            download_thumbnail: false,
            download_metadata: false,
            browser_cookies: None,
        };

        let args = build_arguments_internal(None, &payload, false);
        assert!(args.contains(&"-x".to_string()));
        assert!(args.contains(&"--audio-format".to_string()));
        let format_pos = args.iter().position(|a| a == "--audio-format").unwrap();
        assert_eq!(args[format_pos + 1], *ext);

        assert!(args.contains(&"--audio-quality".to_string()));
        let qual_pos = args.iter().position(|a| a == "--audio-quality").unwrap();
        assert_eq!(args[qual_pos + 1], "0");

        // Clean AAC: Ensure non-existent postprocessor ExtractAudio flag is NOT injected
        assert!(!args.contains(&"ExtractAudio:-c:a aac".to_string()));
    }
}

#[test]
fn test_dynamic_quality_format_selector() {
    let test_cases = [
        ("4k", "bestvideo[height<=2160]+bestaudio/best[height<=2160]/best"),
        ("2160p", "bestvideo[height<=2160]+bestaudio/best[height<=2160]/best"),
        ("2160", "bestvideo[height<=2160]+bestaudio/best[height<=2160]/best"),
        ("1080p", "bestvideo[height<=1080]+bestaudio/best[height<=1080]/best"),
        ("1080", "bestvideo[height<=1080]+bestaudio/best[height<=1080]/best"),
        ("720p", "bestvideo[height<=720]+bestaudio/best[height<=720]/best"),
        ("720", "bestvideo[height<=720]+bestaudio/best[height<=720]/best"),
        ("best", "bestvideo+bestaudio/best"),
        ("unknown", "bestvideo+bestaudio/best"),
    ];

    for (q, expected_format) in test_cases {
        let payload = DownloadPayload {
            task_id: None,
            url: "https://www.youtube.com/watch?v=qualtest".into(),
            format_type: "mp4".into(),
            quality: q.into(),
            is_playlist: false,
            use_gpu: false,
            save_path: None,
            download_subtitle: false,
            subtitle_lang: None,
            download_thumbnail: false,
            download_metadata: false,
            browser_cookies: None,
        };

        let args = build_arguments_internal(None, &payload, false);
        let f_pos = args.iter().position(|a| a == "-f").unwrap();
        assert_eq!(args[f_pos + 1], expected_format, "Failed for quality: {}", q);
    }
}

#[test]
fn test_build_arguments_with_metadata_export() {
    let payload = DownloadPayload {
        task_id: None,
        url: "https://www.youtube.com/watch?v=metatest".into(),
        format_type: "mp4".into(),
        quality: "1080p".into(),
        is_playlist: false,
        use_gpu: false,
        save_path: None,
        download_subtitle: false,
        subtitle_lang: None,
        download_thumbnail: false,
        download_metadata: true,
        browser_cookies: None,
    };

    let args = build_arguments_internal(None, &payload, false);
    assert!(args.contains(&"--write-info-json".to_string()));

    let mut payload_no_meta = payload.clone();
    payload_no_meta.download_metadata = false;
    let args2 = build_arguments_internal(None, &payload_no_meta, false);
    assert!(!args2.contains(&"--write-info-json".to_string()));
}

#[test]
fn test_build_arguments_with_browser_cookies() {
    let mut payload = DownloadPayload {
        task_id: None,
        url: "https://www.youtube.com/watch?v=cookietest".into(),
        format_type: "mp4".into(),
        quality: "1080p".into(),
        is_playlist: false,
        use_gpu: false,
        save_path: None,
        download_subtitle: false,
        subtitle_lang: None,
        download_thumbnail: false,
        download_metadata: false,
        browser_cookies: Some("brave".into()),
    };

    // Test Brave cookies
    let args_brave = build_arguments_internal(None, &payload, false);
    assert!(args_brave.contains(&"--cookies-from-browser".to_string()));
    let cookie_pos = args_brave.iter().position(|a| a == "--cookies-from-browser").unwrap();
    assert_eq!(args_brave[cookie_pos + 1], "brave");
    assert!(args_brave.contains(&"--compat-options".to_string()));
    let compat_pos = args_brave.iter().position(|a| a == "--compat-options").unwrap();
    assert_eq!(args_brave[compat_pos + 1], "no-keep-subs");

    // Test Firefox cookies
    payload.browser_cookies = Some("firefox".into());
    let args_firefox = build_arguments_internal(None, &payload, false);
    assert!(args_firefox.contains(&"--cookies-from-browser".to_string()));
    let cookie_pos_ff = args_firefox.iter().position(|a| a == "--cookies-from-browser").unwrap();
    assert_eq!(args_firefox[cookie_pos_ff + 1], "firefox");

    // When empty or whitespace, cookie flags should NOT be added
    payload.browser_cookies = Some("   ".into());
    let args_empty = build_arguments_internal(None, &payload, false);
    assert!(!args_empty.contains(&"--cookies-from-browser".to_string()));

    payload.browser_cookies = None;
    let args_none = build_arguments_internal(None, &payload, false);
    assert!(!args_none.contains(&"--cookies-from-browser".to_string()));
}
