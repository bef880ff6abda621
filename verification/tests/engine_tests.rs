use downloader_core::args::{
    build_output_template, clean_filename, clean_filepath, extract_destination_filepath,
};
use downloader_core::paths::normalize_dir;
use downloader_core::playlist::{natural_sort_key, parse_playlist_progress};

#[test]
fn engine_test_build_output_template_playlist() {
    let template = build_output_template("C:/Downloads", true);
    assert_eq!(
        template,
        "C:/Downloads/%(playlist_title)s/%(playlist_index)02d - %(title)s.%(ext)s"
    );
}

#[test]
fn engine_test_build_output_template_single_video() {
    let template = build_output_template("C:/Downloads", false);
    assert_eq!(template, "C:/Downloads/%(title)s.%(ext)s");
}

#[test]
fn engine_test_build_output_template_empty_or_relative() {
    assert_eq!(
        build_output_template(".", true),
        "%(playlist_title)s/%(playlist_index)02d - %(title)s.%(ext)s"
    );
    assert_eq!(
        build_output_template("", true),
        "%(playlist_title)s/%(playlist_index)02d - %(title)s.%(ext)s"
    );
    assert_eq!(build_output_template(".", false), "%(title)s.%(ext)s");
    assert_eq!(build_output_template("", false), "%(title)s.%(ext)s");
}

#[test]
fn engine_test_path_normalization_slashes() {
    let test_cases = vec![
        (r"C:\Users\User\Downloads", "C:/Users/User/Downloads"),
        (r"C:\Users\User\Downloads\", "C:/Users/User/Downloads"),
        ("C:/Users/User/Downloads/", "C:/Users/User/Downloads"),
        (r"D:\Downloads///", "D:/Downloads"),
    ];

    for (input, expected) in test_cases {
        let clean = normalize_dir(input);
        assert_eq!(clean, expected);
    }
}

#[test]
fn engine_test_clean_filename_handling() {
    assert_eq!(
        clean_filename(r"C:\Downloads\My Playlist\01 - Track Title.mp4"),
        "01 - Track Title.mp4"
    );
    assert_eq!(
        clean_filename("C:/Downloads/My Playlist/02 - Track Title.f140.m4a"),
        "02 - Track Title.m4a"
    );
    assert_eq!(clean_filename("03 - Track Title.temp.mp4"), "03 - Track Title.mp4");
    assert_eq!(
        clean_filename(r"C:\Downloads\04 - Track Title.mp4.part"),
        "04 - Track Title.mp4"
    );
}

#[test]
fn engine_test_parse_playlist_progress() {
    assert_eq!(
        parse_playlist_progress("[download] Downloading video 1 of 15"),
        Some((1, 15))
    );
    assert_eq!(
        parse_playlist_progress("[download] Downloading item 3 of 20"),
        Some((3, 20))
    );
    assert_eq!(
        parse_playlist_progress("Downloading video 12 of 100"),
        Some((12, 100))
    );
    assert_eq!(parse_playlist_progress("[download] Destination: video.mp4"), None);
    assert_eq!(
        parse_playlist_progress("download-progress:45.2%|1.2MiB/s|00:15|video.mp4"),
        None
    );
}

#[test]
fn engine_test_clean_filepath_handling() {
    let cleaned = clean_filepath(r"C:\Downloads\My Playlist\01 - Track.temp.mp4");
    assert_eq!(
        cleaned.replace('/', "\\"),
        r"C:\Downloads\My Playlist\01 - Track.mp4"
    );
    let cleaned2 = clean_filepath(r"C:\Downloads\02 - Track.f298.mp4");
    assert_eq!(cleaned2.replace('/', "\\"), r"C:\Downloads\02 - Track.mp4");
}

#[test]
fn engine_test_extract_destination_filepath() {
    assert_eq!(
        extract_destination_filepath(r#"[Merger] Merging formats into "C:\Downloads\Video.mp4""#),
        Some(r"C:\Downloads\Video.mp4".to_string())
    );
    assert_eq!(
        extract_destination_filepath(r#"Destination: C:\Downloads\Audio.mp3"#),
        Some(r"C:\Downloads\Audio.mp3".to_string())
    );
}

#[test]
fn engine_test_natural_sort_key_ordering() {
    let mut titles = vec![
        "10 - Final Track",
        "01 - Intro",
        "2 - Second Track",
        "09 - Ninth Track",
        "02 - Bonus Track",
    ];

    titles.sort_by(|a, b| natural_sort_key(a).cmp(&natural_sort_key(b)));

    assert_eq!(
        titles,
        vec![
            "01 - Intro",
            "02 - Bonus Track",
            "2 - Second Track",
            "09 - Ninth Track",
            "10 - Final Track",
        ]
    );
}
