use downloader_core::playlist::{scan_listing, FolderEntry};
use downloader_core::monitor::{watch_download, MonitorEvent};
use downloader_core::metadata::{metadata_fetch_outcome, FetchOutcome};
use downloader_core::args::{build_arguments_internal, clean_filename, clean_filepath};
use downloader_core::binaries::{
    binary_search_dirs, ffmpeg_candidates, located_path, nvenc_probe_args, spawn_failure_message,
    spawn_plan, taskkill_args, ytdlp_candidates, SpawnAttempt,
};
use downloader_core::json::{JsonNumber, JsonValue};
use downloader_core::metadata::{
    extract_available_subtitles, info_json_txt_name, metadata_fetch_arguments,
    metadata_fetch_failure, metadata_json_candidate, metadata_json_fallback, metadata_txt_content,
    sort_and_prioritize_subtitles,
};
use downloader_core::models::{DownloadPayload, PlaylistItem};
use downloader_core::monitor::{cancelled_update, default_task_id, DownloadMonitor};
use downloader_core::outcome::{
    completed_file_path, completed_playlist_folder, explorer_args, folder_to_open, newest_index,
    windows_path, FileChecks,
};
use downloader_core::paths::{normalize_dir, resolve_safe_save_path};
use downloader_core::playlist::{
    has_media_extension, natural_key_compare, natural_sort_key, playlist_item_from_entry,
    scan_dir_error, scan_input_path, scan_target, sort_playlist_items, KeyOrdering, NaturalKeyPart,
    ScanTarget,
};
use downloader_core::state::DownloadManager;

fn s(x: &str) -> String {
    x.to_string()
}

fn obj(fields: Vec<(&str, JsonValue)>) -> JsonValue {
    JsonValue::Object(fields.into_iter().map(|(k, v)| (s(k), v)).collect())
}

fn text(x: &str) -> JsonValue {
    JsonValue::Str(s(x))
}

fn payload(format_type: &str, quality: &str) -> DownloadPayload {
    DownloadPayload {
        task_id: None,
        url: s("https://example.com/watch?v=1"),
        format_type: s(format_type),
        quality: s(quality),
        is_playlist: false,
        use_gpu: false,
        save_path: None,
        download_subtitle: false,
        subtitle_lang: None,
        download_thumbnail: false,
        download_metadata: false,
        browser_cookies: None,
    }
}

// --- models ---------------------------------------------------------------

#[test]
fn format_names_are_normalized() {
    let p = payload("  .MP3 ", "best");
    assert_eq!(p.clean_format(), "mp3");
    assert!(p.is_audio());
    assert_eq!(p.resolved_audio_ext(), "mp3");
    assert_eq!(payload("FLAC", "best").resolved_audio_ext(), "flac");
    assert_eq!(payload("audio", "best").resolved_audio_ext(), "mp3");
    assert!(!payload("mkv", "best").is_audio());
    assert_eq!(payload("mkv", "best").resolved_video_ext(), "mkv");
    assert_eq!(payload("video", "best").resolved_video_ext(), "mp4");
}

#[test]
fn resolved_extensions_are_fixed_points() {
    for f in ["mp3", "m4a", "wav", "flac", "aac", "opus", "audio", "weird"] {
        let ext = payload(f, "best").resolved_audio_ext().to_string();
        assert_eq!(payload(&ext, "best").resolved_audio_ext(), ext);
        assert!(payload(&ext, "best").is_audio());
    }
    for f in ["mp4", "mkv", "webm", "mov", "avi", "video"] {
        let ext = payload(f, "best").resolved_video_ext().to_string();
        assert_eq!(payload(&ext, "best").resolved_video_ext(), ext);
    }
}

// --- paths ------------------------------------------------------------------

#[test]
fn save_path_choice() {
    let (t, c) = resolve_safe_save_path(Some("  C:\\Videos\\  "), Some(s("D:/dl")));
    assert_eq!(t, "C:\\Videos\\");
    assert_eq!(c, "C:/Videos");
    let (t, c) = resolve_safe_save_path(Some("   "), Some(s("D:\\dl\\")));
    assert_eq!(t, "D:\\dl\\");
    assert_eq!(c, "D:/dl");
    let (t, c) = resolve_safe_save_path(None, None);
    assert_eq!(t, ".");
    assert_eq!(c, ".");
}

#[test]
fn extended_prefixes_are_stripped() {
    assert_eq!(normalize_dir("\\\\?\\C:\\Users\\me\\"), "C:/Users/me");
    assert_eq!(normalize_dir("\\\\?\\UNC\\server\\share"), "//server/share");
}

#[test]
fn normalizing_twice_changes_nothing() {
    for p in ["C:\\a\\b\\\\", "\\\\?\\D:\\x/", "plain", "///", ""] {
        let once = normalize_dir(p);
        assert!(!once.contains('\\'));
        assert!(!once.ends_with('/'));
        assert_eq!(normalize_dir(&once), once);
    }
}

// --- binaries ---------------------------------------------------------------

#[test]
fn candidate_names_in_order() {
    let f = ffmpeg_candidates();
    assert_eq!(f.len(), 6);
    assert_eq!(f[0], "ffmpeg.exe");
    assert_eq!(f[5], "src-tauri/binaries/ffmpeg-x86_64-pc-windows-msvc.exe");
    let y = ytdlp_candidates();
    assert_eq!(y[0], "yt-dlp.exe");
    assert_eq!(y[2], "binaries/yt-dlp.exe");
}

#[test]
fn search_dirs_keep_five_ancestors() {
    let anc: Vec<String> = (1..=7).map(|i| format!("a{i}")).collect();
    let d = binary_search_dirs(Some(s("exe")), anc.clone(), Some(s("res")), Some(s("cwd")));
    assert_eq!(d, vec!["exe", "a1", "a2", "a3", "a4", "a5", "res", "cwd"]);
    let d = binary_search_dirs(None, anc, None, Some(s("cwd")));
    assert_eq!(d, vec!["cwd"]);
}

#[test]
fn located_path_reads_first_line() {
    assert_eq!(located_path("/usr/bin/ffmpeg\n/opt/ffmpeg\n"), Some(s("/usr/bin/ffmpeg")));
    assert_eq!(located_path("  C:\\ff\\ffmpeg.exe\r\n"), Some(s("C:\\ff\\ffmpeg.exe")));
    assert_eq!(located_path("\n/usr/bin/ffmpeg"), None);
    assert_eq!(located_path(""), None);
}

#[test]
fn probe_and_kill_arguments() {
    assert_eq!(
        nvenc_probe_args(),
        vec!["-f", "lavfi", "-i", "color=s=64x64:d=0.1", "-c:v", "h264_nvenc", "-f", "null", "-"]
    );
    assert_eq!(taskkill_args(4242), vec!["/F", "/T", "/PID", "4242"]);
    assert_eq!(taskkill_args(0), vec!["/F", "/T", "/PID", "0"]);
}

#[test]
fn spawn_attempts_in_order() {
    let plan = spawn_plan();
    assert_eq!(plan.len(), 4);
    assert!(matches!(&plan[0], SpawnAttempt::Sidecar(x) if x == "yt-dlp"));
    assert!(matches!(&plan[1], SpawnAttempt::Sidecar(x) if x == "binaries/yt-dlp"));
    assert!(matches!(&plan[2], SpawnAttempt::Bundled));
    assert!(matches!(&plan[3], SpawnAttempt::Program(x) if x == "yt-dlp"));
    assert!(spawn_failure_message().starts_with("Failed to spawn yt-dlp"));
}

// --- outcome ----------------------------------------------------------------

fn checks(a: bool, b: bool, c: bool, d: bool) -> FileChecks {
    FileChecks {
        detected_absolute: a,
        detected_exists: b,
        joined_detected_exists: c,
        joined_name_exists: d,
    }
}

#[test]
fn single_file_path_priority() {
    let det = "C:/dl/Video.mp4";
    let jd = "D:/save/C:/dl/Video.mp4";
    let jn = "D:/save/Video.mp4";
    assert_eq!(
        completed_file_path(det, jd, jn, checks(true, true, true, true)),
        Some(s("C:\\dl\\Video.mp4"))
    );
    assert_eq!(
        completed_file_path(det, jd, jn, checks(true, false, true, true)),
        Some(s("D:\\save\\C:\\dl\\Video.mp4"))
    );
    assert_eq!(
        completed_file_path(det, jd, jn, checks(true, false, false, true)),
        Some(s("D:\\save\\Video.mp4"))
    );
    assert_eq!(
        completed_file_path(det, jd, jn, checks(true, false, false, false)),
        Some(s("C:\\dl\\Video.mp4"))
    );
    assert_eq!(
        completed_file_path("Video.mp4", "D:/save/Video.mp4", jn, checks(false, false, false, false)),
        Some(s("D:\\save\\Video.mp4"))
    );
    assert_eq!(completed_file_path("", "D:/save", jn, checks(false, false, false, true)), Some(s("D:\\save\\Video.mp4")));
    assert_eq!(completed_file_path("", "D:/save", jn, checks(false, false, false, false)), None);
}

#[test]
fn newest_entry_is_last_of_equals() {
    assert_eq!(newest_index(&[]), None);
    assert_eq!(newest_index(&[5]), Some(0));
    assert_eq!(newest_index(&[3, 9, 2, 9, 1]), Some(3));
    assert_eq!(newest_index(&[-4, -2, -3]), Some(1));
}

#[test]
fn playlist_folder_choice() {
    let subdirs = vec![s("D:/save/Old"), s("D:/save/New")];
    let times = [10, 20];
    assert_eq!(
        completed_playlist_folder(Some(s("D:/save/List")), true, false, &subdirs, &times, "D:/save"),
        "D:\\save\\List"
    );
    assert_eq!(
        completed_playlist_folder(Some(s("D:/save")), true, true, &subdirs, &times, "D:/save"),
        "D:\\save\\New"
    );
    assert_eq!(
        completed_playlist_folder(None, false, false, &vec![], &[], "D:/save"),
        "D:\\save"
    );
}

#[test]
fn folder_display_choices() {
    assert_eq!(windows_path("C:/a/b.mp4"), "C:\\a\\b.mp4");
    assert_eq!(explorer_args("C:\\a\\b.mp4", true, false, None, false), vec!["/select,", "C:\\a\\b.mp4"]);
    assert_eq!(explorer_args("C:\\a", false, true, None, false), vec!["C:\\a"]);
    assert_eq!(explorer_args("C:\\a\\gone.mp4", false, false, Some(s("C:\\a")), true), vec!["C:\\a"]);
    assert_eq!(
        explorer_args("C:\\x\\gone.mp4", false, false, Some(s("C:\\x")), false),
        vec!["/select,", "C:\\x\\gone.mp4"]
    );
    assert_eq!(folder_to_open("/home/me/v.mp4", false, Some(s("/home/me"))), "/home/me");
    assert_eq!(folder_to_open("/home/me", true, Some(s("/home"))), "/home/me");
    assert_eq!(folder_to_open("v.mp4", false, None), "v.mp4");
}

// --- playlist scanning --------------------------------------------------------

#[test]
fn scan_entries_like_a_playlist_folder() {
    let entries = [
        ("02 - Song B.mp3", "C:/tmp/p/02 - Song B.mp3", 11u64),
        ("01 - Song A.mp4", "C:/tmp/p/01 - Song A.mp4", 11u64),
        ("03 - Song C.part", "C:/tmp/p/03 - Song C.part", 4u64),
        ("notes.txt", "C:/tmp/p/notes.txt", 4u64),
    ];
    let items: Vec<PlaylistItem> = entries
        .iter()
        .filter_map(|(n, p, z)| playlist_item_from_entry(n, p, *z))
        .collect();
    let items = sort_playlist_items(items);
    assert_eq!(items.len(), 2);
    assert_eq!(items[0].name, "01 - Song A");
    assert_eq!(items[0].extension, "mp4");
    assert_eq!(items[0].file_path, "C:\\tmp\\p\\01 - Song A.mp4");
    assert_eq!(items[1].name, "02 - Song B");
    assert_eq!(items[1].extension, "mp3");
}

#[test]
fn scan_entry_filters() {
    assert!(playlist_item_from_entry("a.MKV", "a.MKV", 1).is_some());
    assert_eq!(playlist_item_from_entry("a.MKV", "a.MKV", 1).unwrap().extension, "mkv");
    assert!(playlist_item_from_entry("a.temp.mp4", "a.temp.mp4", 1).is_none());
    assert!(playlist_item_from_entry("a.mp4.ytdl", "x", 1).is_none());
    assert!(playlist_item_from_entry("README", "x", 1).is_none());
    let it = playlist_item_from_entry("Song.f140.m4a", "d/Song.f140.m4a", 7).unwrap();
    assert_eq!(it.name, "Song");
    assert_eq!(it.file_size, 7);
}

#[test]
fn natural_order_of_track_names() {
    let names = ["10 - c", "2 - b", "1 - a", "track 10", "track 9", "Track 1"];
    let items: Vec<PlaylistItem> = names
        .iter()
        .map(|n| PlaylistItem { name: s(n), file_path: s(n), file_size: 0, extension: s("mp3") })
        .collect();
    let sorted: Vec<String> = sort_playlist_items(items).into_iter().map(|i| i.name).collect();
    assert_eq!(sorted, vec!["1 - a", "2 - b", "10 - c", "Track 1", "track 9", "track 10"]);
}

#[test]
fn natural_key_comparison_is_antisymmetric() {
    let pairs = [("a2", "a10"), ("x", "x"), ("9", "a"), ("File 01", "file 1")];
    for (a, b) in pairs {
        let ka = natural_sort_key(a);
        let kb = natural_sort_key(b);
        let ab = natural_key_compare(&ka, &kb);
        let ba = natural_key_compare(&kb, &ka);
        let flipped = match ab {
            KeyOrdering::Less => KeyOrdering::Greater,
            KeyOrdering::Equal => KeyOrdering::Equal,
            KeyOrdering::Greater => KeyOrdering::Less,
        };
        assert!(matches!(
            (ba, flipped),
            (KeyOrdering::Less, KeyOrdering::Less)
                | (KeyOrdering::Equal, KeyOrdering::Equal)
                | (KeyOrdering::Greater, KeyOrdering::Greater)
        ));
    }
    assert!(matches!(
        natural_key_compare(&natural_sort_key("a 2"), &natural_sort_key("a 10")),
        KeyOrdering::Less
    ));
    assert!(matches!(
        natural_key_compare(&natural_sort_key("Track2"), &natural_sort_key("Track10")),
        KeyOrdering::Less
    ));
}

#[test]
fn scan_directory_decisions() {
    assert_eq!(scan_input_path("  C:/Music/List//  "), "C:\\Music\\List");
    assert!(has_media_extension("C:\\x\\song.OPUS"));
    assert!(!has_media_extension("C:\\x\\notes.txt"));
    assert_eq!(scan_target(true, false, false, true, true, true), ScanTarget::Path);
    assert_eq!(scan_target(false, true, true, true, true, true), ScanTarget::Parent);
    assert_eq!(scan_target(false, false, true, false, false, false), ScanTarget::Path);
    assert_eq!(scan_target(false, false, false, false, true, true), ScanTarget::Parent);
    assert_eq!(scan_target(false, false, false, false, true, false), ScanTarget::Path);
    assert_eq!(scan_dir_error("X", false, false), Some(s("Directory path does not exist: X")));
    assert_eq!(scan_dir_error("X", true, false), Some(s("Not a directory: X")));
    assert_eq!(scan_dir_error("X", true, true), None);
}

// --- metadata -------------------------------------------------------------------

#[test]
fn subtitle_priority_is_idempotent_and_order_free() {
    let a = vec![s("fr"), s("en-US"), s("km"), s("en"), s("de"), s("km-orig"), s("en")];
    let mut b = a.clone();
    b.reverse();
    let sa = sort_and_prioritize_subtitles(a);
    let sb = sort_and_prioritize_subtitles(b);
    assert_eq!(sa, vec!["km", "km-orig", "en", "en-US", "de", "fr"]);
    assert_eq!(sa, sb);
    assert_eq!(sort_and_prioritize_subtitles(sa.clone()), sa);
}

#[test]
fn subtitles_from_captions_and_entries() {
    let val = obj(vec![
        ("subtitles", obj(vec![(" fr ", JsonValue::Null), ("", JsonValue::Null)])),
        ("automatic_captions", obj(vec![("en", JsonValue::Null)])),
        (
            "entries",
            JsonValue::Array(vec![
                obj(vec![("subtitles", obj(vec![("km", JsonValue::Null)]))]),
                JsonValue::Null,
            ]),
        ),
    ]);
    assert_eq!(extract_available_subtitles(&val), vec!["km", "en", "fr"]);
}

#[test]
fn metadata_text_layout() {
    let val = obj(vec![
        ("title", text("Awesome Tauri v2 Tutorial")),
        (
            "description",
            text("Learn Rust and React for desktop development.\nSecond line of description."),
        ),
        ("tags", JsonValue::Array(vec![text("tauri"), text("rust"), text("react"), text("desktop")])),
    ]);
    let t = metadata_txt_content(&val);
    assert!(t.contains("TITLE\n==================================================\nAwesome Tauri v2 Tutorial"));
    assert!(t.contains("KEYWORDS / TAGS\n==================================================\ntauri, rust, react, desktop"));
    assert!(t.contains("DESCRIPTION\n==================================================\nLearn Rust and React"));
    let empty = metadata_txt_content(&obj(vec![("tags", JsonValue::Array(vec![]))]));
    assert!(empty.contains("TITLE\n==================================================\nN/A\n"));
    assert!(empty.contains("KEYWORDS / TAGS\n==================================================\nNone\n"));
    let no_tags = metadata_txt_content(&obj(vec![(
        "tags",
        JsonValue::Number(JsonNumber { as_u64: Some(1), rounded: Some(1) }),
    )]));
    assert!(no_tags.contains("KEYWORDS / TAGS\n==================================================\nNone\n"));
}

#[test]
fn info_json_names() {
    assert_eq!(info_json_txt_name("clip.info.json"), Some(s("clip.txt")));
    assert_eq!(info_json_txt_name("clip.json"), None);
}

#[test]
fn metadata_fetch_command_line() {
    assert_eq!(metadata_fetch_arguments("   ", None), Err(s("Please provide a valid media URL")));
    let a = metadata_fetch_arguments(" https://x.y/z ", Some(" firefox ")).unwrap();
    assert_eq!(a.len(), 15);
    assert_eq!(a[0], "--dump-single-json");
    assert_eq!(a[10], "--cookies-from-browser");
    assert_eq!(a[11], "firefox");
    assert_eq!(a[12], "--compat-options");
    assert_eq!(a[14], "https://x.y/z");
    let b = metadata_fetch_arguments("u", Some("  ")).unwrap();
    assert_eq!(b.len(), 11);
    assert_eq!(b[10], "u");
}

#[test]
fn metadata_fetch_failures() {
    assert_eq!(metadata_fetch_failure("", "ERROR: a\nwarn\n ERROR: b \n", Some(1)), Some(s("ERROR: a ERROR: b")));
    assert_eq!(metadata_fetch_failure(" ", "first\n\nsecond", Some(2)), Some(s("first second")));
    assert_eq!(metadata_fetch_failure("", "", Some(3)), Some(s("yt-dlp process exited with status Some(3)")));
    assert_eq!(metadata_fetch_failure("", "", None), Some(s("yt-dlp process exited with status None")));
    assert_eq!(metadata_fetch_failure("", "ERROR: x", Some(0)), None);
    assert_eq!(metadata_fetch_failure("{}", "ERROR: x", Some(1)), None);
}

#[test]
fn metadata_json_extraction_errors() {
    assert_eq!(metadata_json_candidate("  \n "), Err(s("yt-dlp returned empty metadata output")));
    assert_eq!(metadata_json_candidate(" {} "), Ok(s("{}")));
    assert_eq!(metadata_json_fallback("noise {\"a\":1} tail"), Ok(s("{\"a\":1}")));
    assert_eq!(
        metadata_json_fallback("} backwards {"),
        Err(s("Failed to extract valid JSON from metadata response"))
    );
    assert_eq!(
        metadata_json_fallback("no json here"),
        Err(s("Failed to parse metadata: response did not contain JSON"))
    );
}

// --- state ---------------------------------------------------------------------

#[test]
fn task_round_trip() {
    let mut dm: DownloadManager<u32> = DownloadManager::new();
    assert!(dm.insert_task(s("t1"), 7).is_ok());
    assert!(dm.insert_task(s("t2"), 8).is_ok());
    assert!(dm.insert_task(s("t1"), 9).is_ok());
    assert_eq!(dm.remove_task("t1"), Ok(Some(9)));
    assert_eq!(dm.remove_task("t1"), Ok(None));
    assert_eq!(dm.remove_task("t2"), Ok(Some(8)));
    assert!(!dm.clear_cancelled("t1"));
    assert!(dm.mark_cancelled("t1").is_ok());
    assert!(dm.mark_cancelled("t1").is_ok());
    assert!(dm.clear_cancelled("t1"));
    assert!(!dm.is_cancelled("t1"));
}

// --- monitor -------------------------------------------------------------------

#[test]
fn monitor_reports_progress() {
    let mut m = DownloadMonitor::new(s("task_1"), false);
    let ups = m.on_stdout(
        "[download] Destination: C:\\dl\\Video.f137.mp4\r\n\n  download-progress: 45.2%|1.2MiB/s|00:10|C:\\dl\\Video.f137.mp4  \n",
    );
    assert_eq!(ups.len(), 1);
    let u = &ups[0];
    assert_eq!(u.task_id, "task_1");
    assert_eq!(u.status, "Downloading");
    assert_eq!(u.percent, "45.2");
    assert_eq!(u.speed, "1.2MiB/s");
    assert_eq!(u.eta, "00:10");
    assert_eq!(u.filename, "Video.mp4");
    assert_eq!(m.detected_filepath, "C:\\dl\\Video.mp4");
    let ups = m.on_stdout("[Merger] Merging formats into \"C:\\dl\\Final.mkv\"\n");
    assert_eq!(ups.len(), 1);
    assert_eq!(ups[0].status, "Processing/GPU");
    assert_eq!(ups[0].percent, "100");
    assert_eq!(ups[0].filename, "Final.mkv");
    assert_eq!(m.detected_filepath, "C:\\dl\\Final.mkv");
    m.on_terminated(Some(0));
    assert!(m.is_success());
    let done = m.completed_update(Some(s("C:\\dl\\Final.mkv")));
    assert_eq!(done.status, "Completed");
    assert_eq!(done.filename, "Final.mkv");
    assert_eq!(done.error_log, None);
    assert_eq!(done.file_path, Some(s("C:\\dl\\Final.mkv")));
}

#[test]
fn monitor_tracks_playlist_position() {
    let mut m = DownloadMonitor::new(s("p"), true);
    let ups = m.on_stdout("[download] Downloading item 3 of 12\n");
    assert!(ups.is_empty());
    assert_eq!(m.playlist_index, Some(3));
    assert_eq!(m.playlist_total, Some(12));
    let ups = m.on_stdout("download-progress:5%|1KiB/s|01:00|\n");
    assert_eq!(ups[0].playlist_index, Some(3));
    assert_eq!(ups[0].playlist_total, Some(12));
    assert_eq!(ups[0].filename, "");
    let ups = m.on_stdout("download-progress:broken\n");
    assert!(ups.is_empty());
}

#[test]
fn monitor_reports_failure() {
    let mut m = DownloadMonitor::new(s("t"), false);
    m.on_stderr("WARNING: slow\n");
    m.on_stderr("ERROR: [youtube] abc: Video unavailable\n");
    assert_eq!(m.error_log, "WARNING: slow\nERROR: [youtube] abc: Video unavailable\n");
    assert_eq!(m.last_error, "ERROR: [youtube] abc: Video unavailable");
    m.on_terminated(Some(1));
    assert!(!m.is_success());
    let f = m.failed_update();
    assert_eq!(f.status, "Error");
    assert_eq!(f.filename, "ERROR: [youtube] abc: Video unavailable");
    assert_eq!(f.error_log, Some(s("WARNING: slow\nERROR: [youtube] abc: Video unavailable")));

    let mut m = DownloadMonitor::new(s("t"), false);
    m.on_terminated(None);
    let f = m.failed_update();
    assert_eq!(f.filename, "Process exited with code -1");
    assert_eq!(f.error_log, Some(s("Process exited with code -1")));

    let mut m = DownloadMonitor::new(s("t"), false);
    m.on_process_error("spawn failed");
    m.on_terminated(Some(2));
    let f = m.failed_update();
    assert_eq!(f.filename, "spawn failed");
    assert_eq!(f.error_log, Some(s("Process error: spawn failed")));
}

#[test]
fn monitor_final_names() {
    let m = DownloadMonitor::new(s("t"), false);
    assert_eq!(m.final_display_name(), "Download completed");
    let mut m = DownloadMonitor::new(s("t"), false);
    m.on_stdout("[download] Destination: C:\\dl\\Clip.fhd.webm\n");
    assert_eq!(m.final_filename, "");
    m.on_stdout("[download] Destination: C:\\dl\\Clip.webm\n");
    assert_eq!(m.final_filename, "Clip.webm");
    assert_eq!(m.final_display_name(), "Clip.webm");
}

#[test]
fn fixed_reports() {
    let c = cancelled_update("x");
    assert_eq!(c.status, "Cancelled");
    assert_eq!(c.percent, "0");
    assert_eq!(c.filename, "Download cancelled by user");
    assert_eq!(default_task_id(1700000000123), "task_1700000000123");
    assert_eq!(default_task_id(0), "task_0");
}

#[test]
fn natural_key_of_track_name() {
    assert_eq!(
        natural_sort_key("01 - Track.mp4"),
        vec![NaturalKeyPart::Num(1), NaturalKeyPart::Str(s(" - track.mp4"))]
    );
    assert_eq!(
        natural_sort_key("A99999999999999999999b"),
        vec![
            NaturalKeyPart::Str(s("a")),
            NaturalKeyPart::Str(s("99999999999999999999")),
            NaturalKeyPart::Str(s("b"))
        ]
    );
    assert_eq!(
        natural_sort_key("Track2"),
        vec![NaturalKeyPart::Str(s("track")), NaturalKeyPart::Num(2)]
    );
    assert_eq!(
        natural_sort_key("Track2.m4a"),
        vec![NaturalKeyPart::Str(s("track")), NaturalKeyPart::Num(2), NaturalKeyPart::Str(s(".m4a"))]
    );
    assert_eq!(
        natural_sort_key("Vol. 2"),
        vec![NaturalKeyPart::Str(s("vol. ")), NaturalKeyPart::Num(2)]
    );
    assert_eq!(
        natural_sort_key("clip.3gp"),
        vec![NaturalKeyPart::Str(s("clip.")), NaturalKeyPart::Num(3), NaturalKeyPart::Str(s("gp"))]
    );
    assert_eq!(natural_sort_key("Ep 2 - H264.MKV"), natural_sort_key("ep 2 - h264.mkv"));
    assert_eq!(natural_sort_key("02 - x"), natural_sort_key("2 - x"));
    assert_eq!(natural_sort_key("007 Song.mp4"), natural_sort_key("7 song.mp4"));
}

#[test]
fn equal_names_keep_their_order() {
    let names = ["Song 1", "song 01", "SONG 001"];
    let items: Vec<PlaylistItem> = names
        .iter()
        .map(|n| PlaylistItem { name: s(n), file_path: s(n), file_size: 0, extension: s("mp3") })
        .collect();
    let sorted: Vec<String> = sort_playlist_items(items).into_iter().map(|i| i.name).collect();
    assert_eq!(sorted, vec!["Song 1", "song 01", "SONG 001"]);
}

fn arg_after(args: &[String], flag: &str) -> String {
    let pos = args.iter().position(|a| a == flag).unwrap();
    args[pos + 1].clone()
}

#[test]
fn upper_case_quality_and_format_are_lowered() {
    let a = build_arguments_internal(None, &payload("mkv", " 1080P "), false);
    assert_eq!(arg_after(&a, "-f"), "bestvideo[height<=1080]+bestaudio/best[height<=1080]/best");
    let a = build_arguments_internal(None, &payload("FLAC", "best"), false);
    assert_eq!(arg_after(&a, "--audio-format"), "flac");
    let a = build_arguments_internal(None, &payload("AUDIO", "best"), false);
    assert_eq!(arg_after(&a, "--audio-format"), "mp3");
}

#[test]
fn command_line_ends_with_output_and_url() {
    let mut p = payload("mp4", "720p");
    p.save_path = Some(s(" C:\\Users\\me\\Videos\\ "));
    p.is_playlist = true;
    let a = build_arguments_internal(Some(s("C:/ff/ffmpeg.exe")), &p, false);
    let n = a.len();
    assert_eq!(a[n - 3], "-o");
    assert_eq!(
        a[n - 2],
        "C:/Users/me/Videos/%(playlist_title)s/%(playlist_index)02d - %(title)s.%(ext)s"
    );
    assert_eq!(a[n - 1], "https://example.com/watch?v=1");
    assert_eq!(a[0], "--newline");
    assert_eq!(arg_after(&a, "--ffmpeg-location"), "C:/ff/ffmpeg.exe");
    assert!(a.contains(&s("--yes-playlist")));
}

#[test]
fn nvenc_only_for_mov_with_gpu() {
    let mut p = payload("mov", "best");
    p.use_gpu = true;
    let with = build_arguments_internal(Some(s("ff")), &p, true);
    assert!(with.iter().any(|a| a.contains("h264_nvenc")));
    let without = build_arguments_internal(Some(s("ff")), &p, false);
    assert!(!without.iter().any(|a| a.contains("h264_nvenc")));
    let no_ffmpeg = build_arguments_internal(None, &p, true);
    assert!(!no_ffmpeg.iter().any(|a| a.contains("h264_nvenc")));
    assert_eq!(arg_after(&with, "--recode-video"), "mov");
}

#[test]
fn format_tags_are_dropped_before_any_extension() {
    assert_eq!(clean_filename("Clip.f5.flv"), "Clip.flv");
    assert_eq!(clean_filename("Song.f140.m4a"), "Song.m4a");
    assert_eq!(clean_filename("a.f1.f"), "a.f");
    assert_eq!(clean_filename("Movie.fhd.mp4"), "Movie.fhd.mp4");
    assert_eq!(clean_filename("Movie.f.mp4"), "Movie.mp4");
    assert_eq!(clean_filename("x.f.mp4"), "x.mp4");
    assert_eq!(clean_filename("a.f1.f2.mp4"), "a.f1.mp4");
    assert_eq!(clean_filename("Clip.f137.flac.part"), "Clip.flac");
}

#[test]
fn listing_falls_back_to_first_subfolder_with_media() {
    let entry = |n: &str, f: bool| FolderEntry {
        file_name: s(n),
        file_path: format!("D:/p/{n}"),
        file_size: 3,
        is_file: f,
    };
    let direct = vec![entry("notes.txt", true), entry("List", false)];
    let subs = vec![
        vec![entry("a.part", true)],
        vec![entry("10 - b.mp3", true), entry("2 - a.MP4", true), entry("x.webm", false)],
        vec![entry("1 - z.mp3", true)],
    ];
    let items = scan_listing(&direct, &subs);
    let names: Vec<String> = items.iter().map(|i| i.name.clone()).collect();
    assert_eq!(names, vec!["2 - a", "10 - b"]);
    assert_eq!(items[0].extension, "mp4");
    assert_eq!(items[0].file_path, "D:\\p\\2 - a.MP4");
    let own = scan_listing(&vec![entry("3 - c.opus", true)], &subs);
    assert_eq!(own.len(), 1);
    assert_eq!(own[0].name, "3 - c");
    assert!(scan_listing(&vec![], &vec![]).is_empty());
}

#[test]
fn watched_download_reports() {
    let events = vec![
        MonitorEvent::Stdout(s("download-progress:50%|1KiB/s|00:01|C:\\d\\A.mp4\n")),
        MonitorEvent::Stderr(s("ERROR: boom\n")),
        MonitorEvent::Terminated(Some(1)),
        MonitorEvent::Stdout(s("download-progress:99%|1KiB/s|00:01|C:\\d\\A.mp4\n")),
    ];
    let r = watch_download(s("t"), false, &events, None, false, None);
    assert_eq!(r.len(), 2);
    assert_eq!(r[0].status, "Downloading");
    assert_eq!(r[1].status, "Error");
    assert_eq!(r[1].filename, "ERROR: boom");
    let r = watch_download(s("t"), false, &events, Some(1), false, None);
    assert_eq!(r.len(), 1);
    assert_eq!(r[0].status, "Downloading");
    let r = watch_download(s("t"), false, &events, None, true, None);
    assert_eq!(r.len(), 1);
    let ok = vec![MonitorEvent::Terminated(Some(0))];
    let r = watch_download(s("t"), false, &ok, Some(5), false, Some(s("C:\\d\\A.mp4")));
    assert_eq!(r.len(), 1);
    assert_eq!(r[0].status, "Completed");
    assert_eq!(r[0].percent, "100");
    assert_eq!(r[0].filename, "Download completed");
    assert_eq!(r[0].file_path, Some(s("C:\\d\\A.mp4")));
    let r = watch_download(s("t"), false, &vec![], None, false, None);
    assert_eq!(r[0].filename, "Process exited with code -1");
}

#[test]
fn metadata_request_outcomes() {
    assert!(matches!(
        metadata_fetch_outcome(true, None, "{}", "", Some(0)),
        FetchOutcome::Failed(m) if m.starts_with("Metadata request timed out")
    ));
    assert!(matches!(
        metadata_fetch_outcome(false, Some("gone"), "{}", "", Some(0)),
        FetchOutcome::Failed(m) if m == "yt-dlp execution error: gone"
    ));
    assert!(matches!(
        metadata_fetch_outcome(false, None, " ", "ERROR: no\n", Some(1)),
        FetchOutcome::Failed(m) if m == "ERROR: no"
    ));
    assert!(matches!(
        metadata_fetch_outcome(false, None, "{\"a\":1}", "ERROR: no\n", Some(1)),
        FetchOutcome::Parse(t) if t == "{\"a\":1}"
    ));
}

#[test]
fn windows_path_rules_for_cleaning() {
    assert_eq!(clean_filename("a/."), "a");
    assert_eq!(clean_filename("dir/Clip.f5.flv/./"), "Clip.flv");
    assert_eq!(clean_filename("\\\\server\\share"), "\\\\server\\share");
    assert_eq!(clean_filename("\\\\server\\share\\Song.f1.mp3"), "Song.mp3");
    assert_eq!(clean_filepath("C:/a/b.f12.mp4"), "C:/a\\b.mp4");
    assert_eq!(clean_filepath("C:/b.temp.mp4"), "C:/b.mp4");
    assert_eq!(clean_filepath("C:b.mp4.part"), "C:b.mp4");
    assert_eq!(clean_filepath("b.f22.mp4"), "b.mp4");
    assert_eq!(clean_filepath("/b.mp4"), "/b.mp4");
    assert_eq!(clean_filepath("a//./b.mp4"), "a\\b.mp4");
    assert_eq!(clean_filepath("\\\\s\\x\\f.f1.mp4"), "\\\\s\\x\\f.mp4");
    assert_eq!(clean_filepath("\\\\s\\x"), "\\\\s\\x");
}

#[test]
fn cleaning_keeps_the_written_directory() {
    assert_eq!(
        clean_filepath("D:/dl/My List/01.f137.mp4").replace('\\', "/"),
        "D:/dl/My List/01.mp4"
    );
    assert_eq!(clean_filepath("./a.temp.mp4").replace('\\', "/"), "./a.mp4");
    assert_eq!(clean_filepath("x/../b.mp4.part").replace('\\', "/"), "x/../b.mp4");
    assert_eq!(clean_filepath("C:/c.f1.webm"), "C:/c.webm");
    assert_eq!(clean_filepath("Song.mp3.part"), "Song.mp3");
    assert_eq!(clean_filepath("Song.mp3.part"), clean_filename("Song.mp3.part"));
}
