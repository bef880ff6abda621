use downloader_core::playlist::{natural_sort_key, parse_playlist_progress};

#[test]
fn playlist_test_parse_playlist_progress() {
    assert_eq!(
        parse_playlist_progress("[download] Downloading video 1 of 15"),
        Some((1, 15))
    );
    assert_eq!(
        parse_playlist_progress("[download] Downloading item 3 of 20"),
        Some((3, 20))
    );
    assert_eq!(
        parse_playlist_progress("Downloading video 12 of 100"),
        Some((12, 100))
    );
    assert_eq!(parse_playlist_progress("[download] Destination: video.mp4"), None);
    assert_eq!(
        parse_playlist_progress("download-progress:45.2%|1.2MiB/s|00:15|video.mp4"),
        None
    );
}

#[test]
fn playlist_test_natural_sort_key_ordering() {
    let mut titles = vec![
        "10 - Final Track",
        "01 - Intro",
        "2 - Second Track",
        "09 - Ninth Track",
        "02 - Bonus Track",
    ];

    titles.sort_by(|a, b| natural_sort_key(a).cmp(&natural_sort_key(b)));

    assert_eq!(
        titles,
        vec![
            "01 - Intro",
            "02 - Bonus Track",
            "2 - Second Track",
            "09 - Ninth Track",
            "10 - Final Track",
        ]
    );
}
