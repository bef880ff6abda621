//! Data exchanged with the front end: download requests, playlist items,
//! media metadata and tool versions.
use vstd::prelude::*;
use crate::text::{
    ascii_lower, char_pred, is_ascii_upper, lemma_strip_start_suffix, chars_of, eq_str, lower_seq, lowercase, string_of, trim, trim_start_ch, trim_start_char,
    trim_ws,
};

verus! {

/// An individual track or media item found within a playlist directory.
#[derive(Debug, Clone)]
pub struct PlaylistItem {
    pub name: String,
    pub file_path: String,
    pub file_size: u64,
    pub extension: String,
}

/// A download request sent by the front end.
#[derive(Debug, Clone)]
pub struct DownloadPayload {
    pub task_id: Option<String>,
    pub url: String,
    /// "video", "audio" or a container such as "mp4" or "mp3".
    pub format_type: String,
    /// "best", "4k", "1080p", "720p", ...
    pub quality: String,
    pub is_playlist: bool,
    pub use_gpu: bool,
    pub save_path: Option<String>,
    pub download_subtitle: bool,
    pub subtitle_lang: Option<String>,
    pub download_thumbnail: bool,
    pub download_metadata: bool,
    pub browser_cookies: Option<String>,
}

/// Former name of [`DownloadPayload`].
pub type DownloadRequest = DownloadPayload;

/// Metadata of a video or playlist, shown as a preview.
#[derive(Debug, Clone)]
pub struct MediaMetadata {
    pub title: String,
    pub thumbnail: Option<String>,
    pub duration: Option<u64>,
    pub uploader: Option<String>,
    pub webpage_url: String,
    pub available_subtitles: Vec<String>,
    pub description: Option<String>,
    pub tags: Option<Vec<String>>,
}

/// Versions of the bundled yt-dlp and FFmpeg binaries.
#[derive(Debug, Clone)]
pub struct CoreVersions {
    pub ytdlp_version: String,
    pub ffmpeg_version: String,
}

/// The audio containers (and the generic "audio") that select audio extraction.
pub open spec fn is_audio_format(f: Seq<char>) -> bool {
    ||| f == "mp3"@
    ||| f == "m4a"@
    ||| f == "wav"@
    ||| f == "flac"@
    ||| f == "aac"@
    ||| f == "opus"@
    ||| f == "audio"@
}

/// Canonical audio container for a cleaned format name.
pub open spec fn audio_ext_for(f: Seq<char>) -> Seq<char> {
    if f == "m4a"@ {
        "m4a"@
    } else if f == "wav"@ {
        "wav"@
    } else if f == "flac"@ {
        "flac"@
    } else if f == "aac"@ {
        "aac"@
    } else if f == "opus"@ {
        "opus"@
    } else {
        "mp3"@
    }
}

/// Canonical video container for a cleaned format name.
pub open spec fn video_ext_for(f: Seq<char>) -> Seq<char> {
    if f == "mkv"@ {
        "mkv"@
    } else if f == "webm"@ {
        "webm"@
    } else if f == "mov"@ {
        "mov"@
    } else if f == "avi"@ {
        "avi"@
    } else {
        "mp4"@
    }
}

impl DownloadPayload {
    /// The format name trimmed of white space, stripped of leading dots and
    /// lower-cased (ASCII).
    pub open spec fn clean_format_spec(&self) -> Seq<char> {
        lower_seq(trim_start_char(trim(self.format_type@), '.'))
    }

    /// Normalizes the format name: white space trimmed, leading dots
    /// removed, ASCII letters lower-cased.
    pub fn clean_format(&self) -> (r: String)
        ensures
            r@ == self.clean_format_spec(),
    {
        let v = chars_of(self.format_type.as_str());
        let t = trim_ws(&v);
        let d = trim_start_ch(&t, '.');
        let l = lowercase(&d);
        string_of(&l)
    }

    /// Whether the requested format is an audio container or audio extraction.
    pub fn is_audio(&self) -> (r: bool)
        ensures
            r == is_audio_format(self.clean_format_spec()),
    {
        let f = self.clean_format();
        let v = chars_of(f.as_str());
        eq_str(&v, "mp3") || eq_str(&v, "m4a") || eq_str(&v, "wav") || eq_str(&v, "flac")
            || eq_str(&v, "aac") || eq_str(&v, "opus") || eq_str(&v, "audio")
    }

    /// The canonical audio container; "mp3" for anything unknown.
    pub fn resolved_audio_ext(&self) -> (r: &str)
        ensures
            r@ == audio_ext_for(self.clean_format_spec()),
    {
        let f = self.clean_format();
        let v = chars_of(f.as_str());
        if eq_str(&v, "m4a") {
            "m4a"
        } else if eq_str(&v, "wav") {
            "wav"
        } else if eq_str(&v, "flac") {
            "flac"
        } else if eq_str(&v, "aac") {
            "aac"
        } else if eq_str(&v, "opus") {
            "opus"
        } else {
            "mp3"
        }
    }

    /// The canonical video container; "mp4" for anything unknown.
    pub fn resolved_video_ext(&self) -> (r: &str)
        ensures
            r@ == video_ext_for(self.clean_format_spec()),
    {
        let f = self.clean_format();
        let v = chars_of(f.as_str());
        if eq_str(&v, "mkv") {
            "mkv"
        } else if eq_str(&v, "webm") {
            "webm"
        } else if eq_str(&v, "mov") {
            "mov"
        } else if eq_str(&v, "avi") {
            "avi"
        } else {
            "mp4"
        }
    }
}

/// The audio container chosen is always one of the six supported ones.
pub proof fn law_audio_ext_supported(f: Seq<char>)
    ensures
        is_audio_format(audio_ext_for(f)),
        audio_ext_for(f) != "audio"@,
{
    reveal_strlit("audio");
    reveal_strlit("mp3");
    reveal_strlit("opus");
    reveal_strlit("aac");
    reveal_strlit("flac");
    reveal_strlit("wav");
    reveal_strlit("m4a");
    assert("audio"@.len() == 5);
    assert("mp3"@.len() == 3 && "m4a"@.len() == 3 && "wav"@.len() == 3 && "aac"@.len() == 3);
    assert("opus"@.len() == 4 && "flac"@.len() == 4);
}

/// A supported audio container resolves to itself.
pub proof fn law_audio_ext_fixed_point(f: Seq<char>)
    requires
        is_audio_format(f),
        f != "audio"@,
    ensures
        audio_ext_for(f) == f,
{
}

/// A supported video container resolves to itself, and anything else to mp4.
pub proof fn law_video_ext_fixed_point(f: Seq<char>)
    ensures
        (f == "mkv"@ || f == "webm"@ || f == "mov"@ || f == "avi"@ || f == "mp4"@)
            ==> video_ext_for(f) == f,
        !(f == "mkv"@ || f == "webm"@ || f == "mov"@ || f == "avi"@) ==> video_ext_for(f)
            == "mp4"@,
{
}

/// Which formats select audio extraction, and the container each resolves
/// to: mp3, m4a, wav, flac, aac and opus keep their own container and the
/// generic "audio" means mp3; mkv, webm, mov and avi keep their own video
/// container and everything else is mp4.
pub proof fn law_format_tables(f: Seq<char>)
    ensures
        is_audio_format(f) <==> (f == "mp3"@ || f == "m4a"@ || f == "wav"@ || f == "flac"@ || f
            == "aac"@ || f == "opus"@ || f == "audio"@),
        (f == "m4a"@ || f == "wav"@ || f == "flac"@ || f == "aac"@ || f == "opus"@ || f == "mp3"@)
            ==> audio_ext_for(f) == f,
        !(f == "m4a"@ || f == "wav"@ || f == "flac"@ || f == "aac"@ || f == "opus"@) ==> audio_ext_for(
            f,
        ) == "mp3"@,
        (f == "mkv"@ || f == "webm"@ || f == "mov"@ || f == "avi"@) ==> video_ext_for(f) == f,
        !(f == "mkv"@ || f == "webm"@ || f == "mov"@ || f == "avi"@) ==> video_ext_for(f) == "mp4"@,
{
}

/// A cleaned format name holds no ASCII upper-case letter and does not
/// start with a dot.
pub proof fn law_clean_format(p: DownloadPayload)
    ensures
        forall|i: int|
            0 <= i < p.clean_format_spec().len() ==> !is_ascii_upper(#[trigger] p.clean_format_spec()[i]),
        p.clean_format_spec().len() > 0 ==> p.clean_format_spec()[0] != '.',
{
    let t = trim_start_char(trim(p.format_type@), '.');
    let c = p.clean_format_spec();
    assert forall|i: int| 0 <= i < c.len() implies !is_ascii_upper(#[trigger] c[i]) by {
        assert(c[i] == ascii_lower(t[i]));
        if is_ascii_upper(t[i]) {
            let l = ((t[i] as u32) + 32) as char;
            assert(('a' as u32) <= (l as u32) && (l as u32) <= ('z' as u32));
        }
    }
    if c.len() > 0 {
        let w = trim(p.format_type@);
        lemma_strip_start_suffix(w, char_pred('.'));
        assert(t[0] != '.');
        assert(c[0] == ascii_lower(t[0]));
        if is_ascii_upper(t[0]) {
            let l = ((t[0] as u32) + 32) as char;
            assert(('a' as u32) <= (l as u32) && (l as u32) <= ('z' as u32));
        }
    }
}

} // verus!
