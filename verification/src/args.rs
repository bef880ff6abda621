//! File-name cleaning, yt-dlp log-line parsing and yt-dlp argument
//! construction.
use vstd::prelude::*;
use crate::models::{audio_ext_for, is_audio_format, video_ext_for, DownloadPayload};
use crate::paths::{
    file_name, file_name_of, has_drive, is_sep, join_path, join_path_of, parent_of, parent_text,
    prefix_len, trimmed_path,
};
use crate::text::{
    all_ascii, all_ascii_digits, ascii_digit, chars_of, concat, contains, contains_seq, ends_with, find, find_seq,
    has_suffix, is_ascii_digit, lemma_find_from_spec, lemma_rfind_upto_spec, lemma_trim_ascii,
    lower_seq, push_all, replace_all, replace_ch, replace_char, replace_seq, rfind, rfind_seq,
    slice_range, starts_with, str_eq, string_of, to_lowercase, trim, trim_ch, trim_char,
    trim_end_ch, trim_end_char, trim_ws, unicode_lowercase,
};

verus! {

// ---------------------------------------------------------------------------
// File names
// ---------------------------------------------------------------------------

/// `s` without the suffix `suf`, if it ends with it.
pub open spec fn strip_suffix_if(s: Seq<char>, suf: Seq<char>) -> Seq<char> {
    if ends_with(s, suf) {
        s.take(s.len() - suf.len())
    } else {
        s
    }
}

/// Number of consecutive ASCII digits in `s` from position `j` on.
pub open spec fn digit_run(s: Seq<char>, j: int) -> int
    decreases s.len() - j,
{
    if 0 <= j < s.len() && is_ascii_digit(s[j]) {
        1 + digit_run(s, j + 1)
    } else {
        0
    }
}

/// A format tag starts at `i`: `.f`, ASCII digits (possibly none), and then
/// a dot (as in `Title.f140.m4a`).
pub open spec fn tag_at(s: Seq<char>, i: int) -> bool {
    &&& 0 <= i
    &&& i + 2 <= s.len()
    &&& s[i] == '.'
    &&& s[i + 1] == 'f'
    &&& i + 2 + digit_run(s, i + 2) < s.len()
    &&& s[i + 2 + digit_run(s, i + 2)] == '.'
}

/// The last position at or before `i` where a format tag starts.
pub open spec fn last_tag(s: Seq<char>, i: int) -> Option<int>
    decreases i + 1,
{
    if i < 0 {
        None
    } else if tag_at(s, i) {
        Some(i)
    } else {
        last_tag(s, i - 1)
    }
}

/// Removes the last YouTube format tag `.f<digits>` that stands before a
/// dot: `Title.f140.m4a` becomes `Title.m4a`, `Clip.f5.flv` becomes
/// `Clip.flv`, and `.f` alone counts too (`x.f.mp4` becomes `x.mp4`).
pub open spec fn drop_format_tag(s: Seq<char>) -> Seq<char> {
    match last_tag(s, s.len() - 1) {
        Some(i) => s.take(i) + s.skip(i + 2 + digit_run(s, i + 2)),
        None => s,
    }
}

/// The cleaning steps applied to a file name: `.part` suffix removed,
/// `.temp.` turned into `.`, `.temp` suffix removed, format tag dropped.
pub open spec fn clean_name(f: Seq<char>) -> Seq<char> {
    drop_format_tag(
        strip_suffix_if(replace_all(strip_suffix_if(f, ".part"@), ".temp."@, "."@), ".temp"@),
    )
}

/// The file name of `raw` (or `raw` itself when it has none), cleaned.
pub open spec fn clean_filename_spec(raw: Seq<char>) -> Seq<char> {
    match file_name(raw) {
        Some(f) => clean_name(f),
        None => clean_name(raw),
    }
}

/// `raw` with its file name cleaned, joined to its parent directory when
/// it has a non-empty one.
pub open spec fn clean_filepath_spec(raw: Seq<char>) -> Seq<char> {
    match parent_text(raw) {
        Some(p) => if p.len() > 0 {
            join_path(p, clean_filename_spec(raw))
        } else {
            clean_filename_spec(raw)
        },
        None => clean_filename_spec(raw),
    }
}

fn strip_suffix(s: &[char], suf: &[char]) -> (r: Vec<char>)
    ensures
        r@ == strip_suffix_if(s@, suf@),
{
    if has_suffix(s, suf) {
        slice_range(s, 0, s.len() - suf.len())
    } else {
        let mut r: Vec<char> = Vec::new();
        push_all(&mut r, s);
        assert(r@ =~= s@);
        r
    }
}

fn digit_run_from(s: &[char], j: usize) -> (r: usize)
    requires
        j <= s.len(),
    ensures
        r as int == digit_run(s@, j as int),
        j + r <= s.len(),
{
    let mut k: usize = j;
    while k < s.len() && ascii_digit(s[k])
        invariant
            j <= k <= s.len(),
            (k - j) + digit_run(s@, k as int) == digit_run(s@, j as int),
        decreases s.len() - k,
    {
        k += 1;
    }
    k - j
}

fn is_tag_at(s: &[char], i: usize) -> (r: bool)
    ensures
        r == tag_at(s@, i as int),
{
    let n = s.len();
    if i >= n || n - i < 2 {
        return false;
    }
    if s[i] != '.' || s[i + 1] != 'f' {
        return false;
    }
    let d = digit_run_from(s, i + 2);
    i + 2 + d < n && s[i + 2 + d] == '.'
}

fn drop_format_tag_of(s: &[char]) -> (r: Vec<char>)
    ensures
        r@ == drop_format_tag(s@),
{
    let n = s.len();
    let mut k: usize = n;
    while k > 0
        invariant
            k <= n == s.len(),
            last_tag(s@, n - 1) == last_tag(s@, k - 1),
        decreases k,
    {
        let i = k - 1;
        if is_tag_at(s, i) {
            let d = digit_run_from(s, i + 2);
            let head = slice_range(s, 0, i);
            let tail = slice_range(s, i + 2 + d, n);
            assert(head@ =~= s@.take(i as int));
            assert(tail@ =~= s@.skip(i + 2 + d));
            return concat(&head, &tail);
        }
        k -= 1;
    }
    let mut same: Vec<char> = Vec::new();
    push_all(&mut same, s);
    assert(same@ =~= s@);
    same
}

fn clean_name_of(f: &[char]) -> (r: Vec<char>)
    ensures
        r@ == clean_name(f@),
{
    let part = chars_of(".part");
    let temp_dot = chars_of(".temp.");
    let dot = chars_of(".");
    let temp = chars_of(".temp");
    proof {
        reveal_strlit(".temp.");
    }
    let s1 = strip_suffix(f, &part);
    let s2 = replace_seq(&s1, &temp_dot, &dot);
    let s3 = strip_suffix(&s2, &temp);
    drop_format_tag_of(&s3)
}

/// Strips intermediate stream identifiers and temporary extensions from the
/// file name of a path, e.g. `C:\Downloads\Video Title.f298.mp4` becomes
/// `Video Title.mp4` and `Video Title.mp4.part` becomes `Video Title.mp4`.
pub fn clean_filename(raw: &str) -> (r: String)
    ensures
        r@ == clean_filename_spec(raw@),
{
    let v = chars_of(raw);
    let c = match file_name_of(&v) {
        Some(f) => clean_name_of(&f),
        None => clean_name_of(&v),
    };
    string_of(&c)
}

/// Cleans the file name of a path while keeping its directory part.
pub fn clean_filepath(raw: &str) -> (r: String)
    ensures
        r@ == clean_filepath_spec(raw@),
{
    let v = chars_of(raw);
    let cleaned = clean_filename(raw);
    match parent_of(&v) {
        Some(p) => {
            if p.len() > 0 {
                let cv = chars_of(cleaned.as_str());
                let joined = join_path_of(&p, &cv);
                string_of(&joined)
            } else {
                cleaned
            }
        },
        None => cleaned,
    }
}

// ---------------------------------------------------------------------------
// yt-dlp log lines
// ---------------------------------------------------------------------------

pub open spec fn merger_marker() -> Seq<char> {
    "[Merger] Merging formats into \""@
}

pub open spec fn destination_marker() -> Seq<char> {
    "Destination: "@
}

/// The destination path that a yt-dlp log line announces: the quoted path
/// of a `[Merger]` line, or the text after `Destination: `.
pub open spec fn destination_filepath_spec(line: Seq<char>) -> Option<Seq<char>> {
    if contains(line, merger_marker()) {
        let start = find(line, merger_marker())->0;
        let rest = line.skip(start + merger_marker().len());
        match rfind(rest, "\""@) {
            Some(end) => Some(trim(rest.take(end))),
            None => None,
        }
    } else if contains(line, destination_marker()) {
        let start = find(line, destination_marker())->0;
        let rest = trim_char(trim(line.skip(start + destination_marker().len())), '"');
        if rest.len() > 0 {
            Some(rest)
        } else {
            None
        }
    } else {
        None
    }
}

/// The cleaned file name of the destination that a log line announces.
pub open spec fn destination_filename_spec(line: Seq<char>) -> Option<Seq<char>> {
    match destination_filepath_spec(line) {
        Some(p) => match file_name(p) {
            Some(f) => if clean_filename_spec(f).len() > 0 {
                Some(clean_filename_spec(f))
            } else {
                None
            },
            None => None,
        },
        None => None,
    }
}

/// Extracts the raw destination path from yt-dlp log lines
/// (`[Merger] Merging formats into "..."`, `Destination: ...`).
pub fn extract_destination_filepath(line: &str) -> (r: Option<String>)
    ensures
        r matches Some(s) ==> destination_filepath_spec(line@) == Some(s@),
        r is None ==> destination_filepath_spec(line@) is None,
{
    let v = chars_of(line);
    let merger = chars_of("[Merger] Merging formats into \"");
    let dest = chars_of("Destination: ");
    let quote = chars_of("\"");
    if contains_seq(&v, &merger) {
        let start = find_seq(&v, &merger).unwrap();
        proof {
            lemma_find_from_spec(v@, merger@, 0);
        }
        let n = v.len();
        let ml = merger.len();
        assert(start + ml <= n);
        let rest = slice_range(&v, start + ml, n);
        assert(rest@ =~= v@.skip(start + merger@.len()));
        match rfind_seq(&rest, &quote) {
            Some(end) => {
                proof {
                    lemma_rfind_upto_spec(rest@, quote@, rest@.len() - quote@.len());
                }
                let inner = slice_range(&rest, 0, end);
                assert(inner@ =~= rest@.take(end as int));
                let t = trim_ws(&inner);
                Some(string_of(&t))
            },
            None => None,
        }
    } else if contains_seq(&v, &dest) {
        let start = find_seq(&v, &dest).unwrap();
        proof {
            lemma_find_from_spec(v@, dest@, 0);
        }
        let n = v.len();
        let dl = dest.len();
        assert(start + dl <= n);
        let rest = slice_range(&v, start + dl, n);
        assert(rest@ =~= v@.skip(start + dest@.len()));
        let t = trim_ws(&rest);
        let u = trim_ch(&t, '"');
        if u.len() > 0 {
            Some(string_of(&u))
        } else {
            None
        }
    } else {
        None
    }
}

/// Extracts the cleaned target file name from yt-dlp log lines.
pub fn extract_destination_filename(line: &str) -> (r: Option<String>)
    ensures
        r matches Some(s) ==> destination_filename_spec(line@) == Some(s@),
        r is None ==> destination_filename_spec(line@) is None,
{
    match extract_destination_filepath(line) {
        Some(p) => {
            let pv = chars_of(p.as_str());
            match file_name_of(&pv) {
                Some(f) => {
                    let fs = string_of(&f);
                    let cleaned = clean_filename(fs.as_str());
                    if cleaned.as_str().unicode_len() > 0 {
                        Some(cleaned)
                    } else {
                        None
                    }
                },
                None => None,
            }
        },
        None => None,
    }
}

// ---------------------------------------------------------------------------
// Output template
// ---------------------------------------------------------------------------

pub open spec fn playlist_template() -> Seq<char> {
    "%(playlist_title)s/%(playlist_index)02d - %(title)s.%(ext)s"@
}

pub open spec fn single_template() -> Seq<char> {
    "%(title)s.%(ext)s"@
}

/// The yt-dlp output template: the file pattern (with a playlist folder
/// for playlists) under the save directory, or bare when the directory is
/// empty or `.`.
pub open spec fn output_template_spec(dir: Seq<char>, is_playlist: bool) -> Seq<char> {
    let pattern = if is_playlist {
        playlist_template()
    } else {
        single_template()
    };
    if dir.len() == 0 || dir == "."@ {
        pattern
    } else {
        dir + "/"@ + pattern
    }
}

/// Builds the yt-dlp output template for a save directory.
pub fn build_output_template(clean_save_path: &str, is_playlist: bool) -> (r: String)
    ensures
        r@ == output_template_spec(clean_save_path@, is_playlist),
{
    let pattern = if is_playlist {
        "%(playlist_title)s/%(playlist_index)02d - %(title)s.%(ext)s"
    } else {
        "%(title)s.%(ext)s"
    };
    if clean_save_path.unicode_len() == 0 || str_eq(clean_save_path, ".") {
        String::from_str(pattern)
    } else {
        let mut r = String::from_str(clean_save_path);
        r.append("/");
        r.append(pattern);
        r
    }
}

// ---------------------------------------------------------------------------
// yt-dlp arguments
// ---------------------------------------------------------------------------

pub open spec fn arg_views(v: Seq<String>) -> Seq<Seq<char>> {
    v.map_values(|s: String| s@)
}

pub open spec fn opt_view(o: Option<String>) -> Option<Seq<char>> {
    match o {
        Some(s) => Some(s@),
        None => None,
    }
}

pub open spec fn progress_template() -> Seq<char> {
    "download-progress:%(progress._percent_str)s|%(progress._speed_str)s|%(progress._eta_str)s|%(progress.filename)s"@
}

pub open spec fn nvenc_postprocessor() -> Seq<char> {
    "VideoConvertor:-nostdin -y -c:v h264_nvenc -preset p4 -cq 23 -c:a aac -b:a 192k"@
}

pub open spec fn sub_langs() -> Seq<char> {
    "orig,.*-orig,default,km.*,en.*"@
}

pub open spec fn base_args() -> Seq<Seq<char>> {
    seq![
        "--newline"@,
        "--no-colors"@,
        "--progress"@,
        "--progress-template"@,
        progress_template(),
        "--no-keep-video"@,
        "--no-warnings"@,
        "--js-runtimes"@,
        "node"@,
    ]
}

pub open spec fn playlist_args(is_playlist: bool) -> Seq<Seq<char>> {
    if is_playlist {
        seq!["--yes-playlist"@, "--ignore-errors"@, "--no-abort-on-error"@]
    } else {
        seq!["--no-playlist"@]
    }
}

pub open spec fn ffmpeg_args(ffmpeg: Option<Seq<char>>) -> Seq<Seq<char>> {
    match ffmpeg {
        Some(p) => seq!["--ffmpeg-location"@, p],
        None => Seq::empty(),
    }
}

/// `a` followed by `--compat-options no-keep-subs`, unless `a` already
/// holds `--compat-options`.
pub open spec fn with_compat(a: Seq<Seq<char>>) -> Seq<Seq<char>> {
    if a.contains("--compat-options"@) {
        a
    } else {
        a + seq!["--compat-options"@, "no-keep-subs"@]
    }
}

/// The browser whose cookies are used: the trimmed setting, if not blank.
pub open spec fn cookie_browser(cookies: Option<Seq<char>>) -> Option<Seq<char>> {
    match cookies {
        Some(b) => if trim(b).len() > 0 {
            Some(trim(b))
        } else {
            None
        },
        None => None,
    }
}

pub open spec fn cookie_args(a: Seq<Seq<char>>, cookies: Option<Seq<char>>) -> Seq<Seq<char>> {
    match cookie_browser(cookies) {
        Some(b) => with_compat(a + seq!["--cookies-from-browser"@, b]),
        None => a,
    }
}

pub open spec fn subtitle_head() -> Seq<Seq<char>> {
    seq![
        "--write-subs"@,
        "--write-auto-subs"@,
        "--sub-langs"@,
        sub_langs(),
        "--convert-subs"@,
        "srt"@,
    ]
}

pub open spec fn subtitle_tail() -> Seq<Seq<char>> {
    seq![
        "--sleep-subtitles"@,
        "2"@,
        "--no-abort-on-error"@,
        "--ignore-no-formats-error"@,
        "--extractor-retries"@,
        "3"@,
        "--retry-sleep"@,
        "extractor:3"@,
    ]
}

pub open spec fn subtitle_args(a: Seq<Seq<char>>, on: bool) -> Seq<Seq<char>> {
    if on {
        with_compat(a + subtitle_head()) + subtitle_tail()
    } else {
        a
    }
}

pub open spec fn thumbnail_args(on: bool) -> Seq<Seq<char>> {
    if on {
        seq!["--write-thumbnail"@, "--convert-thumbnails"@, "jpg"@]
    } else {
        Seq::empty()
    }
}

pub open spec fn metadata_args(on: bool) -> Seq<Seq<char>> {
    if on {
        seq!["--write-info-json"@]
    } else {
        Seq::empty()
    }
}

/// The `--audio-format` value: the lower-cased format name, or the resolved
/// audio container when the name is "audio" or blank.
pub open spec fn audio_format_arg(p: DownloadPayload) -> Seq<char> {
    let raw = unicode_lowercase(p.format_type@);
    if raw == "audio"@ || trim(raw).len() == 0 {
        audio_ext_for(p.clean_format_spec())
    } else {
        raw
    }
}

/// `audio_format_arg` for ASCII format names, where Unicode lower-casing
/// is ASCII lower-casing.
pub open spec fn ascii_audio_format_arg(p: DownloadPayload) -> Seq<char> {
    let raw = lower_seq(p.format_type@);
    if raw == "audio"@ || trim(raw).len() == 0 {
        audio_ext_for(p.clean_format_spec())
    } else {
        raw
    }
}

pub open spec fn audio_args(p: DownloadPayload) -> Seq<Seq<char>> {
    seq![
        "-x"@,
        "--audio-format"@,
        audio_format_arg(p),
        "--audio-quality"@,
        "0"@,
        "--postprocessor-args"@,
        "ffmpeg:-nostdin -y"@,
    ]
}

/// The height limit that a quality name asks for, or "best".
pub open spec fn max_height(q: Seq<char>) -> Seq<char> {
    if q == "4k"@ || q == "2160p"@ || q == "2160"@ {
        "2160"@
    } else if q == "1080p"@ || q == "1080"@ {
        "1080"@
    } else if q == "720p"@ || q == "720"@ {
        "720"@
    } else {
        "best"@
    }
}

pub open spec fn format_selector(h: Seq<char>) -> Seq<char> {
    if h != "best"@ {
        "bestvideo[height<="@ + h + "]+bestaudio/best[height<="@ + h + "]/best"@
    } else {
        "bestvideo+bestaudio/best"@
    }
}

pub open spec fn quality_selector(p: DownloadPayload) -> Seq<char> {
    format_selector(max_height(unicode_lowercase(trim(p.quality@))))
}

/// `quality_selector` for ASCII quality names.
pub open spec fn ascii_quality_selector(p: DownloadPayload) -> Seq<char> {
    format_selector(max_height(lower_seq(trim(p.quality@))))
}

/// Container handling: remux for mkv, webm and mp4 (with AAC audio for
/// mp4), re-encode for mov and avi.
pub open spec fn container_args(ext: Seq<char>) -> Seq<Seq<char>> {
    if ext == "mkv"@ {
        seq!["--merge-output-format"@, "mkv"@]
    } else if ext == "webm"@ {
        seq!["--merge-output-format"@, "webm"@]
    } else if ext == "mp4"@ {
        seq![
            "--merge-output-format"@,
            "mp4"@,
            "--postprocessor-args"@,
            "Merger:-c:a aac -b:a 192k"@,
        ]
    } else if ext == "mov"@ || ext == "avi"@ {
        seq!["--recode-video"@, ext]
    } else {
        seq!["--merge-output-format"@, "mp4"@]
    }
}

/// Whether NVENC encoding is requested and possible: GPU use asked for, a
/// mov container, an FFmpeg path known and its NVENC probe successful.
pub open spec fn nvenc_used(p: DownloadPayload, ffmpeg_known: bool, nvenc_functional: bool) -> bool {
    p.use_gpu && video_ext_for(p.clean_format_spec()) == "mov"@ && ffmpeg_known
        && nvenc_functional
}

pub open spec fn video_args(p: DownloadPayload, ffmpeg_known: bool, nvenc_functional: bool) -> Seq<
    Seq<char>,
> {
    seq!["-f"@, quality_selector(p)] + container_args(video_ext_for(p.clean_format_spec()))
        + seq!["--postprocessor-args"@, "ffmpeg:-nostdin -y"@] + if nvenc_used(
        p,
        ffmpeg_known,
        nvenc_functional,
    ) {
        seq!["--postprocessor-args"@, nvenc_postprocessor()]
    } else {
        Seq::empty()
    }
}

/// The save directory written into the output template: the trimmed path
/// with `/` separators and no trailing `/`, or `.` when none is given.
pub open spec fn save_dir_spec(save_path: Option<Seq<char>>) -> Seq<char> {
    match save_path {
        Some(s) => if trim(s).len() > 0 {
            trim_end_char(replace_char(trim(s), '\\', '/'), '/')
        } else {
            "."@
        },
        None => "."@,
    }
}

/// The complete yt-dlp command line for a download request.
pub open spec fn download_args_spec(
    ffmpeg: Option<Seq<char>>,
    p: DownloadPayload,
    nvenc_functional: bool,
) -> Seq<Seq<char>> {
    let a0 = base_args() + playlist_args(p.is_playlist) + ffmpeg_args(ffmpeg);
    let a1 = cookie_args(a0, opt_view(p.browser_cookies));
    let a2 = subtitle_args(a1, p.download_subtitle);
    let a3 = a2 + thumbnail_args(p.download_thumbnail) + metadata_args(p.download_metadata);
    let a4 = a3 + if is_audio_format(p.clean_format_spec()) {
        audio_args(p)
    } else {
        video_args(p, ffmpeg is Some, nvenc_functional)
    };
    a4 + seq![
        "-o"@,
        output_template_spec(save_dir_spec(opt_view(p.save_path)), p.is_playlist),
        p.url@,
    ]
}

fn push_arg(args: &mut Vec<String>, a: &str)
    ensures
        arg_views(final(args)@) == arg_views(old(args)@).push(a@),
{
    args.push(String::from_str(a));
    assert(arg_views(args@) =~= arg_views(old(args)@).push(a@));
}

fn push_string(args: &mut Vec<String>, a: String)
    ensures
        arg_views(final(args)@) == arg_views(old(args)@).push(a@),
{
    let ghost av = a@;
    args.push(a);
    assert(arg_views(args@) =~= arg_views(old(args)@).push(av));
}

fn args_contain(args: &Vec<String>, a: &str) -> (r: bool)
    ensures
        r == arg_views(args@).contains(a@),
{
    let mut k: usize = 0;
    while k < args.len()
        invariant
            k <= args.len(),
            forall|m: int| 0 <= m < k ==> args@[m]@ != a@,
        decreases args.len() - k,
    {
        if str_eq(args[k].as_str(), a) {
            assert(arg_views(args@)[k as int] == a@);
            return true;
        }
        k += 1;
    }
    proof {
        if arg_views(args@).contains(a@) {
            let m = choose|m: int| 0 <= m < arg_views(args@).len() && arg_views(args@)[m] == a@;
            assert(args@[m]@ == a@);
        }
    }
    false
}

fn add_compat(args: &mut Vec<String>)
    ensures
        arg_views(final(args)@) == with_compat(arg_views(old(args)@)),
{
    if !args_contain(args, "--compat-options") {
        push_arg(args, "--compat-options");
        push_arg(args, "no-keep-subs");
        assert(arg_views(args@) =~= arg_views(old(args)@) + seq![
            "--compat-options"@,
            "no-keep-subs"@,
        ]);
    }
}

fn trimmed(s: &str) -> (r: String)
    ensures
        r@ == trim(s@),
{
    let v = chars_of(s);
    let t = trim_ws(&v);
    string_of(&t)
}

fn quality_selector_of(p: &DownloadPayload) -> (r: String)
    ensures
        r@ == quality_selector(*p),
        all_ascii(p.quality@) ==> quality_selector(*p) == ascii_quality_selector(*p),
{
    let t = trimmed(p.quality.as_str());
    let q = to_lowercase(t.as_str());
    proof {
        if all_ascii(p.quality@) {
            lemma_trim_ascii(p.quality@);
        }
    }
    let qs = q.as_str();
    let h = if str_eq(qs, "4k") || str_eq(qs, "2160p") || str_eq(qs, "2160") {
        "2160"
    } else if str_eq(qs, "1080p") || str_eq(qs, "1080") {
        "1080"
    } else if str_eq(qs, "720p") || str_eq(qs, "720") {
        "720"
    } else {
        "best"
    };
    if !str_eq(h, "best") {
        let mut r = String::from_str("bestvideo[height<=");
        r.append(h);
        r.append("]+bestaudio/best[height<=");
        r.append(h);
        r.append("]/best");
        r
    } else {
        String::from_str("bestvideo+bestaudio/best")
    }
}

fn push_container_args(args: &mut Vec<String>, ext: &str)
    ensures
        arg_views(final(args)@) == arg_views(old(args)@) + container_args(ext@),
{
    let ghost a = arg_views(args@);
    if str_eq(ext, "mkv") {
        push_arg(args, "--merge-output-format");
        push_arg(args, "mkv");
    } else if str_eq(ext, "webm") {
        push_arg(args, "--merge-output-format");
        push_arg(args, "webm");
    } else if str_eq(ext, "mp4") {
        push_arg(args, "--merge-output-format");
        push_arg(args, "mp4");
        push_arg(args, "--postprocessor-args");
        push_arg(args, "Merger:-c:a aac -b:a 192k");
    } else if str_eq(ext, "mov") || str_eq(ext, "avi") {
        push_arg(args, "--recode-video");
        push_arg(args, ext);
    } else {
        push_arg(args, "--merge-output-format");
        push_arg(args, "mp4");
    }
    assert(arg_views(args@) =~= a + container_args(ext@));
}

fn push_cookie_args(args: &mut Vec<String>, cookies: &Option<String>)
    ensures
        arg_views(final(args)@) == cookie_args(arg_views(old(args)@), opt_view(*cookies)),
{
    match cookies {
        Some(browser) => {
            let b = trimmed(browser.as_str());
            if b.as_str().unicode_len() > 0 {
                let ghost a = arg_views(args@);
                push_arg(args, "--cookies-from-browser");
                push_string(args, b);
                assert(arg_views(args@) =~= a + seq!["--cookies-from-browser"@, trim(browser@)]);
                add_compat(args);
            }
        },
        None => {},
    }
}

fn push_subtitle_args(args: &mut Vec<String>, on: bool)
    ensures
        arg_views(final(args)@) == subtitle_args(arg_views(old(args)@), on),
{
    if on {
        let ghost a = arg_views(args@);
        push_arg(args, "--write-subs");
        push_arg(args, "--write-auto-subs");
        push_arg(args, "--sub-langs");
        push_arg(args, "orig,.*-orig,default,km.*,en.*");
        push_arg(args, "--convert-subs");
        push_arg(args, "srt");
        assert(arg_views(args@) =~= a + subtitle_head());
        add_compat(args);
        let ghost b = arg_views(args@);
        push_arg(args, "--sleep-subtitles");
        push_arg(args, "2");
        push_arg(args, "--no-abort-on-error");
        push_arg(args, "--ignore-no-formats-error");
        push_arg(args, "--extractor-retries");
        push_arg(args, "3");
        push_arg(args, "--retry-sleep");
        push_arg(args, "extractor:3");
        assert(arg_views(args@) =~= b + subtitle_tail());
    }
}

fn push_audio_args(args: &mut Vec<String>, payload: &DownloadPayload)
    ensures
        arg_views(final(args)@) == arg_views(old(args)@) + audio_args(*payload),
        all_ascii(payload.format_type@) ==> audio_format_arg(*payload) == ascii_audio_format_arg(
            *payload,
        ),
{
    let ghost a = arg_views(args@);
    let raw = to_lowercase(payload.format_type.as_str());
    let audio_fmt = if str_eq(raw.as_str(), "audio") || trimmed(raw.as_str()).as_str().unicode_len()
        == 0 {
        String::from_str(payload.resolved_audio_ext())
    } else {
        raw
    };
    push_arg(args, "-x");
    push_arg(args, "--audio-format");
    push_string(args, audio_fmt);
    push_arg(args, "--audio-quality");
    push_arg(args, "0");
    push_arg(args, "--postprocessor-args");
    push_arg(args, "ffmpeg:-nostdin -y");
    assert(arg_views(args@) =~= a + audio_args(*payload));
}

fn push_video_args(
    args: &mut Vec<String>,
    payload: &DownloadPayload,
    ffmpeg_known: bool,
    nvenc_functional: bool,
)
    ensures
        arg_views(final(args)@) == arg_views(old(args)@) + video_args(
            *payload,
            ffmpeg_known,
            nvenc_functional,
        ),
        all_ascii(payload.quality@) ==> quality_selector(*payload) == ascii_quality_selector(
            *payload,
        ),
{
    let ghost a = arg_views(args@);
    let video_ext = payload.resolved_video_ext();
    let selector = quality_selector_of(payload);
    push_arg(args, "-f");
    push_string(args, selector);
    push_container_args(args, video_ext);
    push_arg(args, "--postprocessor-args");
    push_arg(args, "ffmpeg:-nostdin -y");
    let ghost b = arg_views(args@);
    if payload.use_gpu && str_eq(video_ext, "mov") && ffmpeg_known && nvenc_functional {
        push_arg(args, "--postprocessor-args");
        push_arg(
            args,
            "VideoConvertor:-nostdin -y -c:v h264_nvenc -preset p4 -cq 23 -c:a aac -b:a 192k",
        );
    }
    assert(arg_views(args@) =~= a + video_args(*payload, ffmpeg_known, nvenc_functional));
}

fn push_format_args(
    args: &mut Vec<String>,
    payload: &DownloadPayload,
    ffmpeg_known: bool,
    nvenc_functional: bool,
)
    ensures
        arg_views(final(args)@) == arg_views(old(args)@) + if is_audio_format(
            payload.clean_format_spec(),
        ) {
            audio_args(*payload)
        } else {
            video_args(*payload, ffmpeg_known, nvenc_functional)
        },
        is_audio_format(payload.clean_format_spec()) && all_ascii(payload.format_type@)
            ==> audio_format_arg(*payload) == ascii_audio_format_arg(*payload),
        !is_audio_format(payload.clean_format_spec()) && all_ascii(payload.quality@)
            ==> quality_selector(*payload) == ascii_quality_selector(*payload),
{
    if payload.is_audio() {
        push_audio_args(args, payload);
    } else {
        push_video_args(args, payload, ffmpeg_known, nvenc_functional);
    }
}

fn save_dir_of(save_path: &Option<String>) -> (r: String)
    ensures
        r@ == save_dir_spec(opt_view(*save_path)),
{
    match save_path {
        Some(p) => {
            let v = chars_of(p.as_str());
            let t = trim_ws(&v);
            if t.len() > 0 {
                let b = replace_ch(&t, '\\', '/');
                let c = trim_end_ch(&b, '/');
                string_of(&c)
            } else {
                String::from_str(".")
            }
        },
        None => String::from_str("."),
    }
}

/// Whether building the arguments for `payload` depends on an NVENC
/// probe of the FFmpeg binary (GPU use asked for a mov video and an FFmpeg
/// path is known).
pub fn needs_nvenc_probe(ffmpeg_path_opt: &Option<String>, payload: &DownloadPayload) -> (r: bool)
    ensures
        r == (!is_audio_format(payload.clean_format_spec()) && payload.use_gpu && video_ext_for(
            payload.clean_format_spec(),
        ) == "mov"@ && ffmpeg_path_opt is Some),
{
    !payload.is_audio() && payload.use_gpu && str_eq(payload.resolved_video_ext(), "mov")
        && ffmpeg_path_opt.is_some()
}

fn push_base_args(args: &mut Vec<String>, is_playlist: bool)
    requires
        old(args)@.len() == 0,
    ensures
        arg_views(final(args)@) == base_args() + playlist_args(is_playlist),
{
    push_arg(args, "--newline");
    push_arg(args, "--no-colors");
    push_arg(args, "--progress");
    push_arg(args, "--progress-template");
    push_arg(
        args,
        "download-progress:%(progress._percent_str)s|%(progress._speed_str)s|%(progress._eta_str)s|%(progress.filename)s",
    );
    push_arg(args, "--no-keep-video");
    push_arg(args, "--no-warnings");
    push_arg(args, "--js-runtimes");
    push_arg(args, "node");
    assert(arg_views(args@) =~= base_args());
    // Playlist handling and resilience against unavailable items
    if is_playlist {
        push_arg(args, "--yes-playlist");
        push_arg(args, "--ignore-errors");
        push_arg(args, "--no-abort-on-error");
    } else {
        push_arg(args, "--no-playlist");
    }
    assert(arg_views(args@) =~= base_args() + playlist_args(is_playlist));
}

fn push_ffmpeg_args(args: &mut Vec<String>, ffmpeg_path_opt: Option<String>)
    ensures
        arg_views(final(args)@) == arg_views(old(args)@) + ffmpeg_args(opt_view(ffmpeg_path_opt)),
{
    let ghost a = arg_views(args@);
    match ffmpeg_path_opt {
        Some(ffmpeg_path) => {
            push_arg(args, "--ffmpeg-location");
            push_string(args, ffmpeg_path);
        },
        None => {},
    }
    assert(arg_views(args@) =~= a + ffmpeg_args(opt_view(ffmpeg_path_opt)));
}

fn push_file_args(args: &mut Vec<String>, thumbnail: bool, metadata: bool)
    ensures
        arg_views(final(args)@) == arg_views(old(args)@) + thumbnail_args(thumbnail)
            + metadata_args(metadata),
{
    let ghost a = arg_views(args@);
    if thumbnail {
        push_arg(args, "--write-thumbnail");
        push_arg(args, "--convert-thumbnails");
        push_arg(args, "jpg");
    }
    assert(arg_views(args@) =~= a + thumbnail_args(thumbnail));
    if metadata {
        push_arg(args, "--write-info-json");
    }
    assert(arg_views(args@) =~= a + thumbnail_args(thumbnail) + metadata_args(metadata));
}

fn push_output_args(args: &mut Vec<String>, payload: &DownloadPayload)
    ensures
        arg_views(final(args)@) == arg_views(old(args)@) + seq![
            "-o"@,
            output_template_spec(save_dir_spec(opt_view(payload.save_path)), payload.is_playlist),
            payload.url@,
        ],
{
    let ghost a = arg_views(args@);
    let dir = save_dir_of(&payload.save_path);
    let template = build_output_template(dir.as_str(), payload.is_playlist);
    push_arg(args, "-o");
    push_string(args, template);
    push_string(args, payload.url.clone());
    assert(arg_views(args@) =~= a + seq![
        "-o"@,
        output_template_spec(save_dir_spec(opt_view(payload.save_path)), payload.is_playlist),
        payload.url@,
    ]);
}

/// Builds the yt-dlp command line for a download request. `ffmpeg_path_opt`
/// is the FFmpeg binary to use, if one was found, and `nvenc_functional`
/// the outcome of the NVENC probe of that binary, which matters only when
/// [`needs_nvenc_probe`] holds.
pub fn build_arguments_internal(
    ffmpeg_path_opt: Option<String>,
    payload: &DownloadPayload,
    nvenc_functional: bool,
) -> (args: Vec<String>)
    ensures
        arg_views(args@) == download_args_spec(
            opt_view(ffmpeg_path_opt),
            *payload,
            nvenc_functional,
        ),
        is_audio_format(payload.clean_format_spec()) && all_ascii(payload.format_type@)
            ==> audio_format_arg(*payload) == ascii_audio_format_arg(*payload),
        !is_audio_format(payload.clean_format_spec()) && all_ascii(payload.quality@)
            ==> quality_selector(*payload) == ascii_quality_selector(*payload),
{
    let ghost ffv = opt_view(ffmpeg_path_opt);
    let ffmpeg_known = ffmpeg_path_opt.is_some();
    let mut args: Vec<String> = Vec::new();
    push_base_args(&mut args, payload.is_playlist);
    push_ffmpeg_args(&mut args, ffmpeg_path_opt);
    // Browser cookies for age-restricted or login-gated videos
    push_cookie_args(&mut args, &payload.browser_cookies);
    // Subtitles in the original spoken language
    push_subtitle_args(&mut args, payload.download_subtitle);
    // Thumbnail and metadata files
    push_file_args(&mut args, payload.download_thumbnail, payload.download_metadata);
    // Format and transcoding
    push_format_args(&mut args, payload, ffmpeg_known, nvenc_functional);
    // Output template and target URL
    push_output_args(&mut args, payload);
    args
}

// ---------------------------------------------------------------------------
// Laws of the command line
// ---------------------------------------------------------------------------

/// The command line ends with `-o`, the output template and the URL.
pub proof fn law_arguments_end_with_output_and_url(
    ffmpeg: Option<Seq<char>>,
    p: DownloadPayload,
    nvenc_functional: bool,
)
    ensures
        ({
            let a = download_args_spec(ffmpeg, p, nvenc_functional);
            &&& a.len() >= 3
            &&& a[a.len() - 1] == p.url@
            &&& a[a.len() - 2] == output_template_spec(
                save_dir_spec(opt_view(p.save_path)),
                p.is_playlist,
            )
            &&& a[a.len() - 3] == "-o"@
        }),
{
}

/// The command line starts with the fixed progress and cleanup options,
/// followed by the playlist mode (`--yes-playlist --ignore-errors
/// --no-abort-on-error` for playlists, so that one unavailable item does
/// not stop the rest; `--no-playlist` otherwise) and then the FFmpeg
/// location when one is known.
pub proof fn law_arguments_start_with_base_and_playlist_mode(
    ffmpeg: Option<Seq<char>>,
    p: DownloadPayload,
    nvenc_functional: bool,
)
    ensures
        ({
            let a = download_args_spec(ffmpeg, p, nvenc_functional);
            let k: int = if p.is_playlist { 12 } else { 10 };
            &&& a.len() >= k
            &&& a[0] == "--newline"@
            &&& a[1] == "--no-colors"@
            &&& a[2] == "--progress"@
            &&& a[3] == "--progress-template"@
            &&& a[4]
                == "download-progress:%(progress._percent_str)s|%(progress._speed_str)s|%(progress._eta_str)s|%(progress.filename)s"@
            &&& a[5] == "--no-keep-video"@
            &&& a[6] == "--no-warnings"@
            &&& a[7] == "--js-runtimes"@
            &&& a[8] == "node"@
            &&& p.is_playlist ==> a[9] == "--yes-playlist"@ && a[10] == "--ignore-errors"@ && a[11]
                == "--no-abort-on-error"@
            &&& !p.is_playlist ==> a[9] == "--no-playlist"@
            &&& ffmpeg matches Some(f) ==> a.len() >= k + 2 && a[k] == "--ffmpeg-location"@ && a[k
                + 1] == f
        }),
{
    let a = download_args_spec(ffmpeg, p, nvenc_functional);
    let a0 = base_args() + playlist_args(p.is_playlist) + ffmpeg_args(ffmpeg);
    let a1 = cookie_args(a0, opt_view(p.browser_cookies));
    let a2 = subtitle_args(a1, p.download_subtitle);
    assert(a0.len() >= 10);
    assert(a1.take(a0.len() as int) == a0) by {
        lemma_with_compat_extends(a0 + seq!["--cookies-from-browser"@, trim(opt_view(p.browser_cookies)->0)]);
        if cookie_browser(opt_view(p.browser_cookies)) is Some {
            let c = a0 + seq!["--cookies-from-browser"@, trim(opt_view(p.browser_cookies)->0)];
            assert(with_compat(c).take(c.len() as int) == c);
            assert(with_compat(c).take(a0.len() as int) =~= c.take(a0.len() as int));
            assert(c.take(a0.len() as int) =~= a0);
        } else {
            assert(a1.take(a0.len() as int) =~= a0);
        }
    }
    assert(a1.len() >= a0.len());
    lemma_subtitle_args_extends(a1, p.download_subtitle);
    assert forall|i: int| 0 <= i < a0.len() implies a[i] == a0[i] by {
        assert(a1[i] == a1.take(a0.len() as int)[i]);
        assert(a2[i] == a2.take(a1.len() as int)[i]);
    }
}

proof fn lemma_with_compat_extends(a: Seq<Seq<char>>)
    ensures
        with_compat(a).len() >= a.len(),
        with_compat(a).take(a.len() as int) == a,
        with_compat(a).contains("--compat-options"@),
{
    if !a.contains("--compat-options"@) {
        assert((a + seq!["--compat-options"@, "no-keep-subs"@]).take(a.len() as int) =~= a);
        assert(with_compat(a)[a.len() as int] == "--compat-options"@);
    } else {
        assert(a.take(a.len() as int) =~= a);
    }
}

proof fn lemma_subtitle_args_extends(a: Seq<Seq<char>>, on: bool)
    ensures
        subtitle_args(a, on).len() >= a.len(),
        subtitle_args(a, on).take(a.len() as int) == a,
{
    if on {
        lemma_with_compat_extends(a + subtitle_head());
        let w = with_compat(a + subtitle_head());
        assert((a + subtitle_head()).take(a.len() as int) =~= a);
        assert((w + subtitle_tail()).take(a.len() as int) =~= w.take(a.len() as int));
        assert(w.take(a.len() as int) =~= w.take((a + subtitle_head()).len() as int).take(
            a.len() as int,
        ));
    } else {
        assert(a.take(a.len() as int) =~= a);
    }
}

proof fn lemma_contains_concat(a: Seq<Seq<char>>, b: Seq<Seq<char>>, x: Seq<char>)
    ensures
        a.contains(x) ==> (a + b).contains(x),
        b.contains(x) ==> (a + b).contains(x),
{
    if a.contains(x) {
        let i = choose|i: int| 0 <= i < a.len() && a[i] == x;
        assert((a + b)[i] == x);
    }
    if b.contains(x) {
        let i = choose|i: int| 0 <= i < b.len() && b[i] == x;
        assert((a + b)[a.len() + i] == x);
    }
}

proof fn lemma_prefix_contains(a: Seq<Seq<char>>, b: Seq<Seq<char>>, x: Seq<char>)
    requires
        b.len() >= a.len(),
        b.take(a.len() as int) == a,
        a.contains(x),
    ensures
        b.contains(x),
{
    let i = choose|i: int| 0 <= i < a.len() && a[i] == x;
    assert(b.take(a.len() as int)[i] == x);
}

/// The options requested in a download request appear on its command
/// line: `--write-info-json` for metadata, `--write-thumbnail` for
/// thumbnails, `--write-subs` with `--compat-options` for subtitles, and
/// `--cookies-from-browser` with the browser name (and `--compat-options`)
/// when a browser is given.
pub proof fn law_requested_options_present(
    ffmpeg: Option<Seq<char>>,
    p: DownloadPayload,
    nvenc_functional: bool,
)
    ensures
        ({
            let a = download_args_spec(ffmpeg, p, nvenc_functional);
            &&& p.download_metadata ==> a.contains("--write-info-json"@)
            &&& p.download_thumbnail ==> a.contains("--write-thumbnail"@)
            &&& p.download_subtitle ==> a.contains("--write-subs"@) && a.contains(
                "--compat-options"@,
            )
            &&& cookie_browser(opt_view(p.browser_cookies)) matches Some(b) ==> a.contains(
                "--cookies-from-browser"@,
            ) && a.contains(b) && a.contains("--compat-options"@)
        }),
{
    let a = download_args_spec(ffmpeg, p, nvenc_functional);
    let a0 = base_args() + playlist_args(p.is_playlist) + ffmpeg_args(ffmpeg);
    let a1 = cookie_args(a0, opt_view(p.browser_cookies));
    let a2 = subtitle_args(a1, p.download_subtitle);
    let t = thumbnail_args(p.download_thumbnail);
    let m = metadata_args(p.download_metadata);
    let a3 = a2 + t + m;
    let f = if crate::models::is_audio_format(p.clean_format_spec()) {
        audio_args(p)
    } else {
        video_args(p, ffmpeg is Some, nvenc_functional)
    };
    let a4 = a3 + f;
    let o = seq![
        "-o"@,
        output_template_spec(save_dir_spec(opt_view(p.save_path)), p.is_playlist),
        p.url@,
    ];
    assert(a == a4 + o);
    if p.download_metadata {
        assert(m[0] == "--write-info-json"@);
        lemma_contains_concat(a2 + t, m, "--write-info-json"@);
        lemma_contains_concat(a3, f, "--write-info-json"@);
        lemma_contains_concat(a4, o, "--write-info-json"@);
    }
    if p.download_thumbnail {
        assert(t[0] == "--write-thumbnail"@);
        lemma_contains_concat(a2, t, "--write-thumbnail"@);
        lemma_contains_concat(a2 + t, m, "--write-thumbnail"@);
        lemma_contains_concat(a3, f, "--write-thumbnail"@);
        lemma_contains_concat(a4, o, "--write-thumbnail"@);
    }
    lemma_subtitle_args_extends(a1, p.download_subtitle);
    assert(a.take(a2.len() as int) =~= a2);
    if p.download_subtitle {
        let h = a1 + subtitle_head();
        lemma_with_compat_extends(h);
        assert(h[a1.len() as int] == "--write-subs"@);
        lemma_prefix_contains(h, with_compat(h), "--write-subs"@);
        lemma_contains_concat(with_compat(h), subtitle_tail(), "--write-subs"@);
        lemma_contains_concat(with_compat(h), subtitle_tail(), "--compat-options"@);
        lemma_prefix_contains(a2, a, "--write-subs"@);
        lemma_prefix_contains(a2, a, "--compat-options"@);
    }
    if let Some(b) = cookie_browser(opt_view(p.browser_cookies)) {
        let c = a0 + seq!["--cookies-from-browser"@, b];
        lemma_with_compat_extends(c);
        assert(c[a0.len() as int] == "--cookies-from-browser"@);
        assert(c[a0.len() as int + 1] == b);
        lemma_prefix_contains(c, a1, "--cookies-from-browser"@);
        lemma_prefix_contains(c, a1, b);
        lemma_prefix_contains(a1, a2, "--cookies-from-browser"@);
        lemma_prefix_contains(a1, a2, b);
        lemma_prefix_contains(a1, a2, "--compat-options"@);
        lemma_prefix_contains(a2, a, "--cookies-from-browser"@);
        lemma_prefix_contains(a2, a, b);
        lemma_prefix_contains(a2, a, "--compat-options"@);
    }
}

/// The cleaned path keeps the directory: it starts with the parent of the
/// path and ends with the cleaned file name, for cleaned names that carry
/// no prefix or root of their own (such a name replaces the directory, as
/// `PathBuf::join` does).
pub proof fn law_clean_filepath_keeps_directory(raw: Seq<char>)
    requires
        parent_text(raw) matches Some(p) && p.len() > 0,
        !has_drive(clean_filename_spec(raw)),
        clean_filename_spec(raw).len() > 0 ==> !is_sep(clean_filename_spec(raw)[0]),
    ensures
        starts_with(clean_filepath_spec(raw), parent_text(raw)->0),
        ends_with(clean_filepath_spec(raw), clean_filename_spec(raw)),
{
    let p = parent_text(raw)->0;
    let n = clean_filename_spec(raw);
    let r = clean_filepath_spec(raw);
    if p.len() == 0 || is_sep(p.last()) || (p.len() == 2 && has_drive(p)) {
        assert(r == p + n);
        assert(r.take(p.len() as int) =~= p);
        assert(r.skip(r.len() - n.len()) =~= n);
    } else {
        assert(r == p + seq!['\\'] + n);
        assert(r.take(p.len() as int) =~= p);
        assert(r.skip(r.len() - n.len()) =~= n);
    }
}

/// No separator and no `:` in `x`.
pub open spec fn plain_text(x: Seq<char>) -> bool {
    forall|i: int| 0 <= i < x.len() ==> #[trigger] x[i] != '/' && x[i] != '\\' && x[i] != ':'
}

proof fn lemma_take_plain(x: Seq<char>, n: int)
    requires
        plain_text(x),
        0 <= n <= x.len(),
    ensures
        plain_text(x.take(n)),
        plain_text(x.skip(n)),
{
    assert forall|i: int| 0 <= i < x.take(n).len() implies #[trigger] x.take(n)[i] != '/' && x.take(
        n,
    )[i] != '\\' && x.take(n)[i] != ':' by {
        assert(x.take(n)[i] == x[i]);
    }
    assert forall|i: int| 0 <= i < x.skip(n).len() implies #[trigger] x.skip(n)[i] != '/' && x.skip(
        n,
    )[i] != '\\' && x.skip(n)[i] != ':' by {
        assert(x.skip(n)[i] == x[i + n]);
    }
}

proof fn lemma_concat_plain(a: Seq<char>, b: Seq<char>)
    requires
        plain_text(a),
        plain_text(b),
    ensures
        plain_text(a + b),
{
    assert forall|i: int| 0 <= i < (a + b).len() implies #[trigger] (a + b)[i] != '/' && (a + b)[i]
        != '\\' && (a + b)[i] != ':' by {
        if i < a.len() {
            assert((a + b)[i] == a[i]);
        } else {
            assert((a + b)[i] == b[i - a.len()]);
        }
    }
}

proof fn lemma_replace_all_plain(x: Seq<char>, p: Seq<char>, r: Seq<char>)
    requires
        plain_text(x),
        plain_text(r),
    ensures
        plain_text(replace_all(x, p, r)),
    decreases x.len(),
{
    if x.len() > 0 && p.len() > 0 {
        if starts_with(x, p) {
            lemma_take_plain(x, p.len() as int);
            lemma_replace_all_plain(x.skip(p.len() as int), p, r);
            lemma_concat_plain(r, replace_all(x.skip(p.len() as int), p, r));
        } else {
            lemma_take_plain(x, 1);
            lemma_replace_all_plain(x.skip(1), p, r);
            assert(seq![x[0]] =~= x.take(1));
            lemma_concat_plain(seq![x[0]], replace_all(x.skip(1), p, r));
        }
    }
}

proof fn lemma_strip_suffix_plain(x: Seq<char>, suf: Seq<char>)
    requires
        plain_text(x),
    ensures
        plain_text(strip_suffix_if(x, suf)),
{
    if ends_with(x, suf) {
        lemma_take_plain(x, x.len() - suf.len());
    }
}

/// Cleaning a name without separators or `:` gives such a name.
proof fn lemma_clean_name_plain(f: Seq<char>)
    requires
        plain_text(f),
    ensures
        plain_text(clean_name(f)),
{
    reveal_strlit(".");
    let a = strip_suffix_if(f, ".part"@);
    lemma_strip_suffix_plain(f, ".part"@);
    assert(plain_text("."@));
    lemma_replace_all_plain(a, ".temp."@, "."@);
    let b = replace_all(a, ".temp."@, "."@);
    lemma_strip_suffix_plain(b, ".temp"@);
    let c = strip_suffix_if(b, ".temp"@);
    if let Some(i) = last_tag(c, c.len() - 1) {
        lemma_last_tag(c, c.len() - 1);
        lemma_take_plain(c, i);
        lemma_digit_run(c, i + 2);
        lemma_take_plain(c, i + 2 + digit_run(c, i + 2));
        lemma_concat_plain(c.take(i), c.skip(i + 2 + digit_run(c, i + 2)));
    }
}

proof fn lemma_digit_run(s: Seq<char>, j: int)
    requires
        0 <= j <= s.len(),
    ensures
        0 <= digit_run(s, j) <= s.len() - j,
    decreases s.len() - j,
{
    if j < s.len() && is_ascii_digit(s[j]) {
        lemma_digit_run(s, j + 1);
    }
}

proof fn lemma_last_tag(s: Seq<char>, i: int)
    ensures
        last_tag(s, i) matches Some(k) ==> tag_at(s, k),
    decreases i + 1,
{
    if i >= 0 && !tag_at(s, i) {
        lemma_last_tag(s, i - 1);
    }
}

/// A non-empty name without separators or `:` (and not `.` or `..`) is its
/// own file name.
proof fn lemma_plain_file_name(f: Seq<char>)
    requires
        f.len() > 0,
        f != seq!['.'],
        f != seq!['.', '.'],
        plain_text(f),
    ensures
        file_name(f) == Some(f),
{
    if f.len() >= 2 {
        assert(f[f.len() - 2] != '/' && f[f.len() - 2] != '\\');
    } else if f.last() == '.' {
        assert(f =~= seq!['.']);
    }
    assert(f.last() != '/' && f.last() != '\\');
    assert(trimmed_path(f) == f);
    if f.len() >= 2 {
        assert(f[1] != ':');
        assert(!(is_sep(f[0]) && is_sep(f[1])));
    }
    assert(prefix_len(f) == 0);
    crate::paths::lemma_last_sep(f);
    if let Some(i) = crate::paths::last_sep(f) {
        assert(is_sep(f[i]));
    }
    assert(f.skip(0) =~= f);
}

/// The directory of a path is kept as written: for a directory `d` (not
/// ending in a separator or a `.` component, and not starting like a UNC
/// prefix) and a plain file name `f`, cleaning `d/f` gives `d`, a
/// separator and the cleaned `f`, up to the kind of separator.
pub proof fn law_clean_filepath_keeps_written_directory(d: Seq<char>, f: Seq<char>)
    requires
        d.len() > 0,
        !is_sep(d.last()),
        !(d.len() >= 2 && d.last() == '.' && is_sep(d[d.len() - 2])),
        !(d.len() >= 2 && is_sep(d[0]) && is_sep(d[1])),
        f.len() > 0,
        f != seq!['.'],
        f != seq!['.', '.'],
        plain_text(f),
    ensures
        clean_filename_spec(f) == clean_name(f),
        replace_char(clean_filepath_spec(d + seq!['/'] + f), '\\', '/') == replace_char(
            d + seq!['/'] + clean_filename_spec(f),
            '\\',
            '/',
        ),
{
    let raw = d + seq!['/'] + f;
    let n = clean_name(f);
    lemma_plain_file_name(f);
    lemma_clean_name_plain(f);
    // the path needs no trimming
    if f.len() >= 2 {
        assert(raw[raw.len() - 2] == f[f.len() - 2]);
        assert(f[f.len() - 2] != '/' && f[f.len() - 2] != '\\');
    } else if f[0] == '.' {
        assert(f =~= seq!['.']);
    }
    assert(raw.last() == f.last());
    assert(f.last() != '/' && f.last() != '\\');
    assert(trimmed_path(raw) == raw);
    // its prefix is that of the directory
    assert(raw[0] == d[0]);
    if d.len() >= 2 {
        assert(raw[1] == d[1]);
    } else {
        assert(raw[1] == '/');
    }
    let p = prefix_len(raw);
    assert(p == if d.len() >= 2 && has_drive(d) { 2int } else { 0int });
    // the last separator is the one after the directory
    crate::paths::lemma_last_sep(raw);
    assert(raw[d.len() as int] == '/');
    assert forall|j: int| d.len() < j < raw.len() implies !is_sep(#[trigger] raw[j]) by {
        assert(raw[j] == f[j - d.len() - 1]);
    }
    match crate::paths::last_sep(raw) {
        Some(i) => {
            if i > d.len() {
                assert(!is_sep(raw[i]));
            }
            assert(i == d.len());
        },
        None => {
            assert(!is_sep(raw[d.len() as int]));
        },
    }
    assert(crate::paths::final_segment(raw) =~= f);
    assert(file_name(raw) == Some(f));
    assert(clean_filename_spec(raw) == n);
    let dp = crate::paths::dir_part(raw);
    assert(dp =~= d + seq!['/']);
    assert(dp.drop_last() =~= d);
    assert(trimmed_path(dp) == trimmed_path(d));
    assert(trimmed_path(d) == d);
    if n.len() >= 2 {
        assert(n[1] != ':');
    }
    if n.len() > 0 {
        assert(n[0] != '/' && n[0] != '\\');
    }
    let par = parent_text(raw)->0;
    if d.len() > p {
        assert(par == d);
        assert(join_path(par, n) == d + seq!['\\'] + n);
        assert(replace_char(d + seq!['\\'] + n, '\\', '/') =~= replace_char(
            d + seq!['/'] + n,
            '\\',
            '/',
        ));
    } else {
        assert(par == dp);
        assert(is_sep(par.last()));
        assert(join_path(par, n) == dp + n);
        assert(dp + n =~= d + seq!['/'] + n);
    }
}

/// A bare name, without separators or `:`, is cleaned as a file name.
pub proof fn law_clean_filepath_of_bare_name(raw: Seq<char>)
    requires
        plain_text(raw),
    ensures
        clean_filepath_spec(raw) == clean_filename_spec(raw),
{
    if raw.len() > 0 {
        if raw.len() >= 2 {
            assert(raw[raw.len() - 2] != '/' && raw[raw.len() - 2] != '\\');
            assert(raw[1] != ':');
        }
        assert(raw.last() != '/' && raw.last() != '\\');
        assert(trimmed_path(raw) == raw);
        assert(prefix_len(raw) == 0);
        crate::paths::lemma_last_sep(raw);
        if let Some(i) = crate::paths::last_sep(raw) {
            assert(is_sep(raw[i]));
        }
        assert(crate::paths::dir_part(raw) =~= Seq::<char>::empty());
        assert(trimmed_path(Seq::<char>::empty()) == Seq::<char>::empty());
    } else {
        assert(trimmed_path(raw) == raw);
        assert(crate::paths::final_segment(raw) =~= Seq::<char>::empty());
    }
}

/// `x` is immediately followed by `y` somewhere in `a`.
pub open spec fn follows(a: Seq<Seq<char>>, x: Seq<char>, y: Seq<char>) -> bool {
    exists|i: int| 0 <= i && i + 1 < a.len() && #[trigger] a[i] == x && a[i + 1] == y
}

proof fn lemma_arg_parts(ffmpeg: Option<Seq<char>>, p: DownloadPayload, nvenc_functional: bool)
    ensures
        ({
            let a = download_args_spec(ffmpeg, p, nvenc_functional);
            let a0 = base_args() + playlist_args(p.is_playlist) + ffmpeg_args(ffmpeg);
            let a1 = cookie_args(a0, opt_view(p.browser_cookies));
            let a2 = subtitle_args(a1, p.download_subtitle);
            let a3 = a2 + thumbnail_args(p.download_thumbnail) + metadata_args(p.download_metadata);
            let f = if is_audio_format(p.clean_format_spec()) {
                audio_args(p)
            } else {
                video_args(p, ffmpeg is Some, nvenc_functional)
            };
            &&& a.len() == a3.len() + f.len() + 3
            &&& forall|i: int| 0 <= i < a2.len() ==> #[trigger] a[i] == a2[i]
            &&& forall|i: int| 0 <= i < a1.len() ==> #[trigger] a2[i] == a1[i]
            &&& forall|i: int| 0 <= i < a3.len() ==> #[trigger] a[i] == a3[i]
            &&& forall|j: int| 0 <= j < f.len() ==> #[trigger] a[a3.len() + j] == f[j]
        }),
{
    let a0 = base_args() + playlist_args(p.is_playlist) + ffmpeg_args(ffmpeg);
    let a1 = cookie_args(a0, opt_view(p.browser_cookies));
    let a2 = subtitle_args(a1, p.download_subtitle);
    let a3 = a2 + thumbnail_args(p.download_thumbnail) + metadata_args(p.download_metadata);
    lemma_subtitle_args_extends(a1, p.download_subtitle);
    assert forall|i: int| 0 <= i < a1.len() implies #[trigger] a2[i] == a1[i] by {
        assert(a2.take(a1.len() as int)[i] == a2[i]);
    }
}

/// The format options of an audio request are the last before `-o`:
/// `-x --audio-format <format> --audio-quality 0 --postprocessor-args
/// "ffmpeg:-nostdin -y"`, the format being the lower-cased requested name,
/// or the resolved audio container for "audio" or a blank name.
pub proof fn law_audio_arguments(ffmpeg: Option<Seq<char>>, p: DownloadPayload, nvenc_functional: bool)
    requires
        is_audio_format(p.clean_format_spec()),
    ensures
        ({
            let a = download_args_spec(ffmpeg, p, nvenc_functional);
            let n = a.len() as int;
            &&& n >= 10
            &&& a[n - 10] == "-x"@
            &&& a[n - 9] == "--audio-format"@
            &&& a[n - 8] == audio_format_arg(p)
            &&& a[n - 7] == "--audio-quality"@
            &&& a[n - 6] == "0"@
            &&& a[n - 5] == "--postprocessor-args"@
            &&& a[n - 4] == "ffmpeg:-nostdin -y"@
        }),
        unicode_lowercase(p.format_type@) == "audio"@ ==> audio_format_arg(p) == audio_ext_for(
            p.clean_format_spec(),
        ),
        unicode_lowercase(p.format_type@) != "audio"@ && trim(unicode_lowercase(p.format_type@)).len()
            > 0 ==> audio_format_arg(p) == unicode_lowercase(p.format_type@),
{
    lemma_arg_parts(ffmpeg, p, nvenc_functional);
    let a0 = base_args() + playlist_args(p.is_playlist) + ffmpeg_args(ffmpeg);
    let a1 = cookie_args(a0, opt_view(p.browser_cookies));
    let a2 = subtitle_args(a1, p.download_subtitle);
    let a3 = a2 + thumbnail_args(p.download_thumbnail) + metadata_args(p.download_metadata);
    let a = download_args_spec(ffmpeg, p, nvenc_functional);
    let f = audio_args(p);
    assert(a[a3.len() as int + 0] == f[0]);
    assert(a[a3.len() as int + 1] == f[1]);
    assert(a[a3.len() as int + 2] == f[2]);
    assert(a[a3.len() as int + 3] == f[3]);
    assert(a[a3.len() as int + 4] == f[4]);
    assert(a[a3.len() as int + 5] == f[5]);
    assert(a[a3.len() as int + 6] == f[6]);
}

/// The format options of a video request: `-f` with the format selector
/// for the requested height (2160 for "4k", "2160p" or "2160"; 1080 for
/// "1080p" or "1080"; 720 for "720p" or "720", after trimming and
/// lower-casing; the best stream otherwise), the container handling of the
/// resolved container, the non-interactive FFmpeg options, and the NVENC
/// encoder for GPU-accelerated `mov` when FFmpeg is known and NVENC works.
pub proof fn law_video_arguments(ffmpeg: Option<Seq<char>>, p: DownloadPayload, nvenc_functional: bool)
    requires
        !is_audio_format(p.clean_format_spec()),
    ensures
        ({
            let a = download_args_spec(ffmpeg, p, nvenc_functional);
            let q = unicode_lowercase(trim(p.quality@));
            let ext = video_ext_for(p.clean_format_spec());
            &&& follows(a, "-f"@, quality_selector(p))
            &&& (q == "4k"@ || q == "2160p"@ || q == "2160"@) ==> quality_selector(p)
                == "bestvideo[height<="@ + "2160"@ + "]+bestaudio/best[height<="@ + "2160"@ + "]/best"@
            &&& (q == "1080p"@ || q == "1080"@) ==> quality_selector(p)
                == "bestvideo[height<="@ + "1080"@ + "]+bestaudio/best[height<="@ + "1080"@ + "]/best"@
            &&& (q == "720p"@ || q == "720"@) ==> quality_selector(p)
                == "bestvideo[height<="@ + "720"@ + "]+bestaudio/best[height<="@ + "720"@ + "]/best"@
            &&& !(q == "4k"@ || q == "2160p"@ || q == "2160"@ || q == "1080p"@ || q == "1080"@ || q
                == "720p"@ || q == "720"@) ==> quality_selector(p) == "bestvideo+bestaudio/best"@
            &&& ext == "mkv"@ ==> follows(a, "--merge-output-format"@, "mkv"@)
            &&& ext == "webm"@ ==> follows(a, "--merge-output-format"@, "webm"@)
            &&& ext == "mp4"@ ==> follows(a, "--merge-output-format"@, "mp4"@) && follows(
                a,
                "--postprocessor-args"@,
                "Merger:-c:a aac -b:a 192k"@,
            )
            &&& (ext == "mov"@ || ext == "avi"@) ==> follows(a, "--recode-video"@, ext)
            &&& follows(a, "--postprocessor-args"@, "ffmpeg:-nostdin -y"@)
            &&& (p.use_gpu && ext == "mov"@ && ffmpeg is Some && nvenc_functional) ==> follows(
                a,
                "--postprocessor-args"@,
                "VideoConvertor:-nostdin -y -c:v h264_nvenc -preset p4 -cq 23 -c:a aac -b:a 192k"@,
            )
        }),
{
    reveal_strlit("4k");
    reveal_strlit("2160p");
    reveal_strlit("2160");
    reveal_strlit("1080p");
    reveal_strlit("1080");
    reveal_strlit("720p");
    reveal_strlit("720");
    reveal_strlit("best");
    reveal_strlit("mkv");
    reveal_strlit("webm");
    reveal_strlit("mp4");
    reveal_strlit("mov");
    reveal_strlit("avi");
    lemma_arg_parts(ffmpeg, p, nvenc_functional);
    let a0 = base_args() + playlist_args(p.is_playlist) + ffmpeg_args(ffmpeg);
    let a1 = cookie_args(a0, opt_view(p.browser_cookies));
    let a2 = subtitle_args(a1, p.download_subtitle);
    let a3 = a2 + thumbnail_args(p.download_thumbnail) + metadata_args(p.download_metadata);
    let a = download_args_spec(ffmpeg, p, nvenc_functional);
    let f = video_args(p, ffmpeg is Some, nvenc_functional);
    let ext = video_ext_for(p.clean_format_spec());
    let c = container_args(ext);
    let b = a3.len() as int;
    assert(f[0] == "-f"@ && f[1] == quality_selector(p));
    assert(a[b + 0] == f[0] && a[b + 1] == f[1]);
    assert(follows(a, "-f"@, quality_selector(p)));
    assert(f[2] == c[0] && f[3] == c[1]);
    assert(a[b + 2] == f[2] && a[b + 3] == f[3]);
    assert("2160"@[0] == '2' && "best"@[0] == 'b' && "1080"@[0] == '1' && "720"@.len() == 3);
    assert("2160"@ != "best"@ && "1080"@ != "best"@ && "720"@ != "best"@);
    assert("2160p"@[0] == '2' && "1080p"@[0] == '1' && "2160"@.len() == 4 && "1080"@.len() == 4);
    assert("1080p"@ != "2160p"@ && "1080"@ != "2160"@ && "4k"@.len() == 2);
    assert("720p"@.len() == 4 && "720p"@[0] == '7' && "720"@[0] == '7');
    assert("720p"@ != "2160"@ && "720p"@ != "1080"@ && "720"@ != "4k"@);
    assert("mkv"@[1] == 'k' && "mp4"@[1] == 'p' && "mov"@[1] == 'o' && "avi"@[1] == 'v');
    assert("mkv"@ != "mp4"@ && "mkv"@ != "mov"@ && "mkv"@ != "avi"@);
    assert("mp4"@ != "mov"@ && "mp4"@ != "avi"@ && "mov"@ != "avi"@);
    assert("webm"@.len() == 4 && "mkv"@.len() == 3);
    if ext == "mkv"@ {
        assert(c == seq!["--merge-output-format"@, "mkv"@]);
    } else if ext == "webm"@ {
        assert(c == seq!["--merge-output-format"@, "webm"@]);
    } else if ext == "mov"@ || ext == "avi"@ {
        assert(c == seq!["--recode-video"@, ext]);
    }
    if ext == "mp4"@ {
        assert(c.len() == 4);
        assert(f[4] == c[2] && f[5] == c[3]);
        assert(a[b + 4] == f[4] && a[b + 5] == f[5]);
        assert(follows(a, "--merge-output-format"@, "mp4"@));
    }
    let k = 2 + c.len() as int;
    assert(f[k] == "--postprocessor-args"@ && f[k + 1] == "ffmpeg:-nostdin -y"@);
    assert(a[b + k] == f[k] && a[b + k + 1] == f[k + 1]);
    if nvenc_used(p, ffmpeg is Some, nvenc_functional) {
        assert(f[k + 2] == "--postprocessor-args"@ && f[k + 3] == nvenc_postprocessor());
        assert(a[b + k + 2] == f[k + 2] && a[b + k + 3] == f[k + 3]);
    }
}

/// The values of the requested options: subtitles in the original spoken
/// language (`--sub-langs orig,.*-orig,default,km.*,en.*`), converted to
/// `srt`, with a 2-second pause between subtitle requests, three extractor
/// retries three seconds apart and `--ignore-no-formats-error`; thumbnails
/// converted to `jpg`; and the trimmed browser name after
/// `--cookies-from-browser`.
pub proof fn law_option_values(ffmpeg: Option<Seq<char>>, p: DownloadPayload, nvenc_functional: bool)
    ensures
        ({
            let a = download_args_spec(ffmpeg, p, nvenc_functional);
            &&& p.download_subtitle ==> {
                &&& follows(a, "--sub-langs"@, "orig,.*-orig,default,km.*,en.*"@)
                &&& follows(a, "--write-subs"@, "--write-auto-subs"@)
                &&& follows(a, "--convert-subs"@, "srt"@)
                &&& follows(a, "--sleep-subtitles"@, "2"@)
                &&& follows(a, "--no-abort-on-error"@, "--ignore-no-formats-error"@)
                &&& follows(a, "--extractor-retries"@, "3"@)
                &&& follows(a, "--retry-sleep"@, "extractor:3"@)
            }
            &&& p.download_thumbnail ==> follows(a, "--write-thumbnail"@, "--convert-thumbnails"@)
                && follows(a, "--convert-thumbnails"@, "jpg"@)
            &&& forall|b: Seq<char>|
                opt_view(p.browser_cookies) == Some(b) && trim(b).len() > 0 ==> follows(
                    a,
                    "--cookies-from-browser"@,
                    trim(b),
                )
        }),
{
    lemma_arg_parts(ffmpeg, p, nvenc_functional);
    let a0 = base_args() + playlist_args(p.is_playlist) + ffmpeg_args(ffmpeg);
    let a1 = cookie_args(a0, opt_view(p.browser_cookies));
    let a2 = subtitle_args(a1, p.download_subtitle);
    let t = thumbnail_args(p.download_thumbnail);
    let a3 = a2 + t + metadata_args(p.download_metadata);
    let a = download_args_spec(ffmpeg, p, nvenc_functional);
    if p.download_subtitle {
        let h = a1 + subtitle_head();
        let w = with_compat(h);
        lemma_with_compat_extends(h);
        assert forall|i: int| 0 <= i < h.len() implies #[trigger] a[i] == h[i] by {
            assert(w.take(h.len() as int)[i] == w[i]);
            assert(a2[i] == w[i]);
        }
        let m = a1.len() as int;
        assert(a[m] == "--write-subs"@ && a[m + 1] == "--write-auto-subs"@);
        assert(a[m + 2] == "--sub-langs"@ && a[m + 3] == sub_langs());
        assert(a[m + 4] == "--convert-subs"@ && a[m + 5] == "srt"@);
        let r = w.len() as int;
        assert(a2 == w + subtitle_tail());
        assert forall|j: int| 0 <= j < 8 implies #[trigger] a[r + j] == subtitle_tail()[j] by {
            assert(a2[r + j] == subtitle_tail()[j]);
        }
        assert(a[r] == "--sleep-subtitles"@ && a[r + 1] == "2"@);
        assert(a[r + 2] == "--no-abort-on-error"@ && a[r + 3] == "--ignore-no-formats-error"@);
        assert(a[r + 4] == "--extractor-retries"@ && a[r + 5] == "3"@);
        assert(a[r + 6] == "--retry-sleep"@ && a[r + 7] == "extractor:3"@);
    }
    if p.download_thumbnail {
        let m = a2.len() as int;
        assert(a3[m] == t[0] && a3[m + 1] == t[1] && a3[m + 2] == t[2]);
        assert(a[m] == "--write-thumbnail"@ && a[m + 1] == "--convert-thumbnails"@ && a[m + 2]
            == "jpg"@);
    }
    assert forall|b: Seq<char>|
        opt_view(p.browser_cookies) == Some(b) && trim(b).len() > 0 implies follows(
        a,
        "--cookies-from-browser"@,
        trim(b),
    ) by {
        let c = a0 + seq!["--cookies-from-browser"@, trim(b)];
        lemma_with_compat_extends(c);
        let m = a0.len() as int;
        assert(a1 == with_compat(c));
        assert(a1.take(c.len() as int)[m] == c[m]);
        assert(a1.take(c.len() as int)[m + 1] == c[m + 1]);
        assert(a[m] == a1[m] && a[m + 1] == a1[m + 1]);
    }
}

/// The output template: the file pattern `%(title)s.%(ext)s`, inside a
/// `%(playlist_title)s` folder with a two-digit index for playlists,
/// placed under the save directory unless that is empty or `.`.
pub proof fn law_output_template(dir: Seq<char>, is_playlist: bool)
    ensures
        ({
            let pattern = if is_playlist {
                "%(playlist_title)s/%(playlist_index)02d - %(title)s.%(ext)s"@
            } else {
                "%(title)s.%(ext)s"@
            };
            &&& (dir.len() == 0 || dir == "."@) ==> output_template_spec(dir, is_playlist) == pattern
            &&& !(dir.len() == 0 || dir == "."@) ==> output_template_spec(dir, is_playlist) == dir
                + "/"@ + pattern
        }),
{
}

/// The save directory written into the template: `.` when no non-blank
/// path is given; otherwise the trimmed path with every backslash turned
/// into `/` and its trailing `/` removed, so it holds no backslash and does
/// not end with `/`.
pub proof fn law_save_dir(save_path: Option<Seq<char>>)
    ensures
        (save_path is None || trim(save_path->0).len() == 0) ==> save_dir_spec(save_path) == "."@,
        forall|s: Seq<char>|
            save_path == Some(s) && trim(s).len() > 0 ==> {
                let d = save_dir_spec(save_path);
                let w = replace_char(trim(s), '\\', '/');
                &&& starts_with(w, d)
                &&& forall|k: int| d.len() <= k < w.len() ==> #[trigger] w[k] == '/'
                &&& forall|i: int| 0 <= i < d.len() ==> #[trigger] d[i] != '\\'
                &&& d.len() > 0 ==> d.last() != '/'
            },
{
    assert forall|s: Seq<char>| save_path == Some(s) && trim(s).len() > 0 implies {
        let d = save_dir_spec(save_path);
        let w = replace_char(trim(s), '\\', '/');
        &&& starts_with(w, d)
        &&& forall|k: int| d.len() <= k < w.len() ==> #[trigger] w[k] == '/'
        &&& forall|i: int| 0 <= i < d.len() ==> #[trigger] d[i] != '\\'
        &&& d.len() > 0 ==> d.last() != '/'
    } by {
        let w = replace_char(trim(s), '\\', '/');
        let d = save_dir_spec(save_path);
        crate::text::lemma_strip_end_prefix(w, crate::text::char_pred('/'));
        crate::text::lemma_strip_end_all(w, crate::text::char_pred('/'));
        assert forall|i: int| 0 <= i < d.len() implies #[trigger] d[i] != '\\' by {
            assert(d[i] == w[i]);
        }
    }
}

proof fn lemma_digit_run_block(s: Seq<char>, j: int, d: int)
    requires
        0 <= j,
        0 <= d,
        j + d < s.len(),
        forall|k: int| j <= k < j + d ==> is_ascii_digit(#[trigger] s[k]),
        !is_ascii_digit(s[j + d]),
    ensures
        digit_run(s, j) == d,
    decreases d,
{
    if d > 0 {
        lemma_digit_run_block(s, j + 1, d - 1);
    }
}

proof fn lemma_last_tag_skip(s: Seq<char>, i: int, lo: int)
    requires
        lo <= i,
        forall|j: int| lo < j <= i ==> !tag_at(s, j),
    ensures
        last_tag(s, i) == last_tag(s, lo),
    decreases i - lo,
{
    if i > lo {
        lemma_last_tag_skip(s, i - 1, lo);
    }
}

/// A format tag before the extension is dropped: for a name `x`, digits
/// `d` (possibly none) and an extension `e` without a dot, the name
/// `x.f<d>.e` becomes `x.e`.
pub proof fn law_format_tag_dropped(x: Seq<char>, d: Seq<char>, e: Seq<char>)
    requires
        all_ascii_digits(d),
        forall|k: int| 0 <= k < e.len() ==> #[trigger] e[k] != '.',
    ensures
        drop_format_tag(x + ".f"@ + d + "."@ + e) == x + "."@ + e,
{
    reveal_strlit(".f");
    reveal_strlit(".");
    let s = x + ".f"@ + d + "."@ + e;
    let i0 = x.len() as int;
    let dot = i0 + 2 + d.len();
    assert(s[i0] == '.' && s[i0 + 1] == 'f');
    assert(s[dot] == '.');
    assert forall|k: int| i0 + 2 <= k < dot implies is_ascii_digit(#[trigger] s[k]) by {
        assert(s[k] == d[k - i0 - 2]);
    }
    lemma_digit_run_block(s, i0 + 2, d.len() as int);
    assert(tag_at(s, i0));
    assert forall|j: int| i0 < j <= s.len() - 1 implies !tag_at(s, j) by {
        if tag_at(s, j) {
            if j < dot {
                if j == i0 + 1 {
                    assert(s[j] == 'f');
                } else {
                    assert(is_ascii_digit(s[j]));
                }
            } else if j == dot {
                let r = digit_run(s, j + 2);
                lemma_digit_run(s, j + 2);
                assert(s[j + 1] == e[0]);
                assert(s[j + 2 + r] == e[j + 2 + r - dot - 1]);
            } else {
                assert(s[j] == e[j - dot - 1]);
            }
        }
    }
    lemma_last_tag_skip(s, s.len() - 1, i0);
    assert(last_tag(s, s.len() - 1) == Some(i0));
    assert(s.take(i0) =~= x);
    assert(s.skip(dot) =~= "."@ + e);
    assert(x + "."@ + e =~= s.take(i0) + s.skip(dot));
}

/// A partial download's `.part` suffix is ignored: a name and the same
/// name with `.part` appended clean alike (for names that do not already
/// end in `.part`).
pub proof fn law_part_suffix_ignored(f: Seq<char>)
    requires
        !ends_with(f, ".part"@),
    ensures
        clean_name(f + ".part"@) == clean_name(f),
{
    let g = f + ".part"@;
    assert(g.skip(g.len() - ".part"@.len()) =~= ".part"@);
    assert(g.take(g.len() - ".part"@.len()) =~= f);
    assert(strip_suffix_if(g, ".part"@) == f);
}

/// The destination announced by a log line: the quoted path of a
/// `[Merger] Merging formats into "..."` line, trimmed (up to the last
/// quote); and for a line without such a marker, the text after its first
/// `Destination: `, trimmed and stripped of quotes, when that is not empty.
pub proof fn law_destination_paths(pre: Seq<char>, p: Seq<char>)
    ensures
        destination_filepath_spec("[Merger] Merging formats into \""@ + p + "\""@) == Some(
            trim(p),
        ),
        ({
            let line = pre + "Destination: "@ + p;
            let rest = trim_char(trim(p), '"');
            !contains(line, "[Merger] Merging formats into \""@) && find(line, "Destination: "@)
                == Some(pre.len() as int) ==> destination_filepath_spec(line) == if rest.len() > 0 {
                Some(rest)
            } else {
                None
            }
        }),
{
    reveal_strlit("\"");
    let m = "[Merger] Merging formats into \""@;
    let q = "\""@;
    let line = m + p + q;
    assert(line.subrange(0, m.len() as int) =~= m);
    assert(crate::text::match_at(line, m, 0));
    assert(find(line, m) == Some(0int));
    let rest = line.skip(m.len() as int);
    assert(rest =~= p + q);
    assert(rest.subrange(rest.len() - 1, rest.len() as int) =~= q);
    assert(crate::text::match_at(rest, q, rest.len() - 1));
    assert(rfind(rest, q) == Some(rest.len() - 1));
    assert(rest.take(rest.len() - 1) =~= p);
    let line2 = pre + "Destination: "@ + p;
    assert(line2.skip(pre.len() + "Destination: "@.len() as int) =~= p);
}

} // verus!
