//! Where a finished download is reported to be: the file (or, for a
//! playlist, the folder) that "Open file" and "Show in folder" act on.
use vstd::prelude::*;
use crate::args::opt_view;
use crate::metadata::push_str;
use crate::text::{chars_of, replace_ch, replace_char, string_of};

verus! {

/// A path written with Windows separators: every `/` becomes `\`.
pub open spec fn windows_path_spec(s: Seq<char>) -> Seq<char> {
    replace_char(s, '/', '\\')
}

/// Writes a path with Windows separators.
pub fn windows_path(s: &str) -> (r: String)
    ensures
        r@ == windows_path_spec(s@),
{
    let v = chars_of(s);
    let w = replace_ch(&v, '/', '\\');
    string_of(&w)
}

/// What is known on disk about the places where a single downloaded file
/// may be: the path detected in yt-dlp's output, that path under the save
/// directory, and the displayed file name under the save directory.
#[derive(Clone, Copy)]
pub struct FileChecks {
    /// The detected path is absolute.
    pub detected_absolute: bool,
    /// Something exists at the detected path.
    pub detected_exists: bool,
    /// Something exists at the detected path joined to the save directory.
    pub joined_detected_exists: bool,
    /// Something exists at the displayed name joined to the save directory.
    pub joined_name_exists: bool,
}

/// The path reported for a finished single download. An existing absolute
/// detected path comes first, then the detected path under the save
/// directory, then the displayed name under it; when none exists, the
/// detected path is reported as it would be (absolute, or under the save
/// directory). Without a detected path only an existing file under the
/// displayed name is reported.
pub open spec fn completed_file_spec(
    detected: Seq<char>,
    joined_detected: Seq<char>,
    joined_name: Seq<char>,
    c: FileChecks,
) -> Option<Seq<char>> {
    if detected.len() > 0 {
        if c.detected_absolute && c.detected_exists {
            Some(windows_path_spec(detected))
        } else if c.joined_detected_exists {
            Some(windows_path_spec(joined_detected))
        } else if c.joined_name_exists {
            Some(windows_path_spec(joined_name))
        } else if c.detected_absolute {
            Some(windows_path_spec(detected))
        } else {
            Some(windows_path_spec(joined_detected))
        }
    } else if c.joined_name_exists {
        Some(windows_path_spec(joined_name))
    } else {
        None
    }
}

/// The path to report for a finished single download.
pub fn completed_file_path(
    detected: &str,
    joined_detected: &str,
    joined_name: &str,
    checks: FileChecks,
) -> (r: Option<String>)
    ensures
        opt_view(r) == completed_file_spec(detected@, joined_detected@, joined_name@, checks),
{
    if detected.unicode_len() > 0 {
        if checks.detected_absolute && checks.detected_exists {
            Some(windows_path(detected))
        } else if checks.joined_detected_exists {
            Some(windows_path(joined_detected))
        } else if checks.joined_name_exists {
            Some(windows_path(joined_name))
        } else if checks.detected_absolute {
            Some(windows_path(detected))
        } else {
            Some(windows_path(joined_detected))
        }
    } else if checks.joined_name_exists {
        Some(windows_path(joined_name))
    } else {
        None
    }
}

/// Index `i` holds the newest time, and no later index holds one as new:
/// the entry that a stable sort by time puts last.
pub open spec fn is_newest(times: Seq<i128>, i: int) -> bool {
    &&& 0 <= i < times.len()
    &&& forall|j: int| 0 <= j < times.len() ==> #[trigger] times[j] <= times[i]
    &&& forall|j: int| i < j < times.len() ==> #[trigger] times[j] < times[i]
}

/// The newest of a list of modification times (the last of the newest
/// when several are equal), or `None` for an empty list.
pub fn newest_index(times: &[i128]) -> (r: Option<usize>)
    ensures
        match r {
            Some(i) => is_newest(times@, i as int),
            None => times@.len() == 0,
        },
{
    if times.len() == 0 {
        return None;
    }
    let mut best: usize = 0;
    let mut k: usize = 1;
    while k < times.len()
        invariant
            1 <= k <= times@.len(),
            best < k,
            forall|j: int| 0 <= j < k ==> #[trigger] times@[j] <= times@[best as int],
            forall|j: int| best < j < k ==> #[trigger] times@[j] < times@[best as int],
        decreases times.len() - k,
    {
        if times[k] >= times[best] {
            best = k;
        }
        k += 1;
    }
    Some(best)
}

/// There is only one newest entry.
pub proof fn law_newest_unique(times: Seq<i128>, i: int, j: int)
    requires
        is_newest(times, i),
        is_newest(times, j),
    ensures
        i == j,
{
    if i < j {
        assert(times[j] < times[i]);
        assert(times[i] <= times[j]);
    } else if j < i {
        assert(times[i] < times[j]);
        assert(times[j] <= times[i]);
    }
}

/// The folder reported for a finished playlist: the folder of the detected
/// file when it is a directory other than the save directory; else the
/// newest sub-folder of the save directory; else the save directory.
pub open spec fn playlist_folder_ok(
    parent: Option<Seq<char>>,
    parent_is_dir: bool,
    parent_is_target: bool,
    subdirs: Seq<Seq<char>>,
    times: Seq<i128>,
    target: Seq<char>,
    r: Seq<char>,
) -> bool {
    match parent {
        Some(p) if parent_is_dir && !parent_is_target => r == windows_path_spec(p),
        _ => if subdirs.len() == 0 {
            r == windows_path_spec(target)
        } else {
            exists|i: int| is_newest(times, i) && r == windows_path_spec(subdirs[i])
        },
    }
}

/// The folder to report for a finished playlist. `parent` is the folder of
/// the detected file (absent when no file was detected), `subdirs` the
/// sub-folders of the save directory `target`, with their modification
/// times in `times`.
pub fn completed_playlist_folder(
    parent: Option<String>,
    parent_is_dir: bool,
    parent_is_target: bool,
    subdirs: &Vec<String>,
    times: &[i128],
    target: &str,
) -> (r: String)
    requires
        subdirs.len() == times.len(),
    ensures
        playlist_folder_ok(
            opt_view(parent),
            parent_is_dir,
            parent_is_target,
            crate::args::arg_views(subdirs@),
            times@,
            target@,
            r@,
        ),
{
    match parent {
        Some(p) => {
            if parent_is_dir && !parent_is_target {
                return windows_path(p.as_str());
            }
        },
        None => {},
    }
    match newest_index(times) {
        Some(i) => {
            let r = windows_path(subdirs[i].as_str());
            assert(crate::args::arg_views(subdirs@)[i as int] == subdirs@[i as int]@);
            r
        },
        None => windows_path(target),
    }
}

/// What Windows Explorer is asked to show for a path: the file selected
/// when it is a file, the folder itself when it is a folder, else its
/// parent folder when that exists, else the path selected.
pub open spec fn explorer_args_spec(
    path: Seq<char>,
    is_file: bool,
    is_dir: bool,
    parent: Option<Seq<char>>,
    parent_exists: bool,
) -> Seq<Seq<char>> {
    if is_file {
        seq!["/select,"@, path]
    } else if is_dir {
        seq![path]
    } else {
        match parent {
            Some(p) if parent_exists => seq![p],
            _ => seq!["/select,"@, path],
        }
    }
}

/// The Explorer arguments that show `path` (written with `\`).
pub fn explorer_args(
    path: &str,
    is_file: bool,
    is_dir: bool,
    parent: Option<String>,
    parent_exists: bool,
) -> (r: Vec<String>)
    ensures
        crate::args::arg_views(r@) == explorer_args_spec(
            path@,
            is_file,
            is_dir,
            opt_view(parent),
            parent_exists,
        ),
{
    let mut r: Vec<String> = Vec::new();
    if is_file {
        push_str(&mut r, "/select,");
        push_str(&mut r, path);
    } else if is_dir {
        push_str(&mut r, path);
    } else {
        match parent {
            Some(p) => {
                if parent_exists {
                    let ghost pv = p@;
                    r.push(p);
                    assert(crate::args::arg_views(r@) =~= seq![pv]);
                    return r;
                }
            },
            None => {},
        }
        push_str(&mut r, "/select,");
        push_str(&mut r, path);
    }
    assert(crate::args::arg_views(r@) =~= explorer_args_spec(
        path@,
        is_file,
        is_dir,
        opt_view(parent),
        parent_exists,
    ));
    r
}

/// The folder a file manager opens for a path: the path itself when it is
/// a folder, else its parent (or the path, when it has none).
pub open spec fn folder_to_open_spec(path: Seq<char>, is_dir: bool, parent: Option<Seq<char>>) -> Seq<
    char,
> {
    if is_dir {
        path
    } else {
        match parent {
            Some(p) => p,
            None => path,
        }
    }
}

pub fn folder_to_open(path: &str, is_dir: bool, parent: Option<String>) -> (r: String)
    ensures
        r@ == folder_to_open_spec(path@, is_dir, opt_view(parent)),
{
    if is_dir {
        String::from_str(path)
    } else {
        match parent {
            Some(p) => p,
            None => String::from_str(path),
        }
    }
}

/// A path written with Windows separators has the same length, no `/`,
/// and every other character in place.
pub proof fn law_windows_path(s: Seq<char>)
    ensures
        windows_path_spec(s).len() == s.len(),
        forall|i: int| 0 <= i < s.len() ==> #[trigger] windows_path_spec(s)[i] != '/',
        forall|i: int| 0 <= i < s.len() && s[i] != '/' ==> #[trigger] windows_path_spec(s)[i] == s[i],
        forall|i: int| 0 <= i < s.len() && s[i] == '/' ==> #[trigger] windows_path_spec(s)[i] == '\\',
{
}

/// The reported file of a single download: an existing absolute detected
/// path wins; without a detected path only an existing file under the
/// displayed name is reported; with one, something is always reported.
pub proof fn law_completed_file(d: Seq<char>, jd: Seq<char>, jn: Seq<char>, c: FileChecks)
    ensures
        d.len() > 0 && c.detected_absolute && c.detected_exists ==> completed_file_spec(d, jd, jn, c)
            == Some(windows_path_spec(d)),
        d.len() > 0 ==> completed_file_spec(d, jd, jn, c) is Some,
        d.len() == 0 && !c.joined_name_exists ==> completed_file_spec(d, jd, jn, c) is None,
        d.len() == 0 && c.joined_name_exists ==> completed_file_spec(d, jd, jn, c) == Some(
            windows_path_spec(jn),
        ),
        d.len() > 0 && !(c.detected_absolute && c.detected_exists) && c.joined_detected_exists
            ==> completed_file_spec(d, jd, jn, c) == Some(windows_path_spec(jd)),
{
}

} // verus!
