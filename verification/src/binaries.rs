//! Where the helper programs (yt-dlp, FFmpeg) are looked for, how yt-dlp
//! is started, and the command lines that probe or stop them.
use vstd::prelude::*;
use crate::args::{arg_views, opt_view};
use crate::metadata::push_str;
use crate::numbers::{decimal_digits, decimal_spec};
use crate::text::{chars_of, find, find_seq, slice_range, string_of, trim, trim_ws};

verus! {

/// File names under which a bundled FFmpeg is looked for, in order.
pub open spec fn ffmpeg_candidates_spec() -> Seq<Seq<char>> {
    seq![
        "ffmpeg.exe"@,
        "ffmpeg-x86_64-pc-windows-msvc.exe"@,
        "binaries/ffmpeg.exe"@,
        "binaries/ffmpeg-x86_64-pc-windows-msvc.exe"@,
        "src-tauri/binaries/ffmpeg.exe"@,
        "src-tauri/binaries/ffmpeg-x86_64-pc-windows-msvc.exe"@,
    ]
}

/// File names under which a bundled yt-dlp is looked for, in order.
pub open spec fn ytdlp_candidates_spec() -> Seq<Seq<char>> {
    seq![
        "yt-dlp.exe"@,
        "yt-dlp-x86_64-pc-windows-msvc.exe"@,
        "binaries/yt-dlp.exe"@,
        "binaries/yt-dlp-x86_64-pc-windows-msvc.exe"@,
        "src-tauri/binaries/yt-dlp.exe"@,
        "src-tauri/binaries/yt-dlp-x86_64-pc-windows-msvc.exe"@,
    ]
}

/// The FFmpeg file names, in the order they are tried in each directory.
pub fn ffmpeg_candidates() -> (r: Vec<String>)
    ensures
        arg_views(r@) == ffmpeg_candidates_spec(),
{
    let mut r: Vec<String> = Vec::new();
    push_str(&mut r, "ffmpeg.exe");
    push_str(&mut r, "ffmpeg-x86_64-pc-windows-msvc.exe");
    push_str(&mut r, "binaries/ffmpeg.exe");
    push_str(&mut r, "binaries/ffmpeg-x86_64-pc-windows-msvc.exe");
    push_str(&mut r, "src-tauri/binaries/ffmpeg.exe");
    push_str(&mut r, "src-tauri/binaries/ffmpeg-x86_64-pc-windows-msvc.exe");
    assert(arg_views(r@) =~= ffmpeg_candidates_spec());
    r
}

/// The yt-dlp file names, in the order they are tried in each directory.
pub fn ytdlp_candidates() -> (r: Vec<String>)
    ensures
        arg_views(r@) == ytdlp_candidates_spec(),
{
    let mut r: Vec<String> = Vec::new();
    push_str(&mut r, "yt-dlp.exe");
    push_str(&mut r, "yt-dlp-x86_64-pc-windows-msvc.exe");
    push_str(&mut r, "binaries/yt-dlp.exe");
    push_str(&mut r, "binaries/yt-dlp-x86_64-pc-windows-msvc.exe");
    push_str(&mut r, "src-tauri/binaries/yt-dlp.exe");
    push_str(&mut r, "src-tauri/binaries/yt-dlp-x86_64-pc-windows-msvc.exe");
    assert(arg_views(r@) =~= ytdlp_candidates_spec());
    r
}

pub open spec fn opt_dir(d: Option<Seq<char>>) -> Seq<Seq<char>> {
    match d {
        Some(x) => seq![x],
        None => Seq::empty(),
    }
}

/// At most the first five of the ancestors.
pub open spec fn nearest_ancestors(ancestors: Seq<Seq<char>>) -> Seq<Seq<char>> {
    if ancestors.len() <= 5 {
        ancestors
    } else {
        ancestors.take(5)
    }
}

/// The directories searched for a bundled program, in order: the
/// executable's directory and its five nearest ancestors (only when the
/// executable's directory is known), the resource directory, and the
/// working directory.
pub open spec fn search_dirs_spec(
    exe_dir: Option<Seq<char>>,
    ancestors: Seq<Seq<char>>,
    resource_dir: Option<Seq<char>>,
    cwd: Option<Seq<char>>,
) -> Seq<Seq<char>> {
    let own = match exe_dir {
        Some(d) => seq![d] + nearest_ancestors(ancestors),
        None => Seq::empty(),
    };
    own + opt_dir(resource_dir) + opt_dir(cwd)
}

fn push_opt(v: &mut Vec<String>, d: Option<String>)
    ensures
        arg_views(final(v)@) == arg_views(old(v)@) + opt_dir(opt_view(d)),
{
    match d {
        Some(x) => {
            let ghost xv = x@;
            v.push(x);
            assert(arg_views(v@) =~= arg_views(old(v)@) + opt_dir(Some(xv)));
        },
        None => {
            assert(arg_views(v@) =~= arg_views(old(v)@) + opt_dir(None));
        },
    }
}

/// The directories to search, in order; `ancestors` are the parents of
/// the executable's directory, nearest first.
pub fn binary_search_dirs(
    exe_dir: Option<String>,
    ancestors: Vec<String>,
    resource_dir: Option<String>,
    cwd: Option<String>,
) -> (r: Vec<String>)
    ensures
        arg_views(r@) == search_dirs_spec(
            opt_view(exe_dir),
            arg_views(ancestors@),
            opt_view(resource_dir),
            opt_view(cwd),
        ),
{
    let mut r: Vec<String> = Vec::new();
    let ghost av = arg_views(ancestors@);
    match exe_dir {
        Some(d) => {
            let ghost dv = d@;
            r.push(d);
            assert(arg_views(r@) =~= seq![dv] + av.take(0));
            let n: usize = if ancestors.len() <= 5 {
                ancestors.len()
            } else {
                5
            };
            assert(nearest_ancestors(av) =~= av.take(n as int));
            let mut i: usize = 0;
            while i < n
                invariant
                    i <= n <= ancestors@.len(),
                    av == arg_views(ancestors@),
                    arg_views(r@) == seq![dv] + av.take(i as int),
                decreases n - i,
            {
                let a = ancestors[i].clone();
                assert(a@ == av[i as int]);
                let ghost before = arg_views(r@);
                r.push(a);
                assert(arg_views(r@) =~= before.push(av[i as int]));
                assert(av.take(i + 1) =~= av.take(i as int).push(av[i as int]));
                i += 1;
            }
        },
        None => {
            assert(arg_views(r@) =~= Seq::<Seq<char>>::empty());
        },
    }
    push_opt(&mut r, resource_dir);
    push_opt(&mut r, cwd);
    r
}

/// The first line of a text (all of it when it has no line break).
pub open spec fn first_line(s: Seq<char>) -> Seq<char> {
    match find(s, seq!['\n']) {
        Some(i) => s.take(i),
        None => s,
    }
}

/// The program path that `which` / `where.exe` printed: its first line,
/// trimmed, unless that is blank.
pub open spec fn located_path_spec(out: Seq<char>) -> Option<Seq<char>> {
    if trim(first_line(out)).len() > 0 {
        Some(trim(first_line(out)))
    } else {
        None
    }
}

/// Reads the path of a program from the output of `which` / `where.exe`.
pub fn located_path(out: &str) -> (r: Option<String>)
    ensures
        opt_view(r) == located_path_spec(out@),
{
    let v = chars_of(out);
    let nl = vec!['\n'];
    assert(nl@ =~= seq!['\n']);
    let line = match find_seq(&v, &nl) {
        Some(i) => {
            proof {
                crate::text::lemma_find_from_spec(v@, nl@, 0);
            }
            slice_range(&v, 0, i)
        },
        None => slice_range(&v, 0, v.len()),
    };
    assert(v@.subrange(0, v@.len() as int) =~= v@);
    let t = trim_ws(&line);
    if t.len() > 0 {
        Some(string_of(&t))
    } else {
        None
    }
}

/// The FFmpeg arguments of the hardware-encoder probe: encode a tenth of a
/// second of a generated 64x64 picture with `h264_nvenc` and discard it.
pub open spec fn nvenc_probe_args_spec() -> Seq<Seq<char>> {
    seq![
        "-f"@,
        "lavfi"@,
        "-i"@,
        "color=s=64x64:d=0.1"@,
        "-c:v"@,
        "h264_nvenc"@,
        "-f"@,
        "null"@,
        "-"@,
    ]
}

pub fn nvenc_probe_args() -> (r: Vec<String>)
    ensures
        arg_views(r@) == nvenc_probe_args_spec(),
{
    let mut r: Vec<String> = Vec::new();
    push_str(&mut r, "-f");
    push_str(&mut r, "lavfi");
    push_str(&mut r, "-i");
    push_str(&mut r, "color=s=64x64:d=0.1");
    push_str(&mut r, "-c:v");
    push_str(&mut r, "h264_nvenc");
    push_str(&mut r, "-f");
    push_str(&mut r, "null");
    push_str(&mut r, "-");
    assert(arg_views(r@) =~= nvenc_probe_args_spec());
    r
}

/// `taskkill` arguments that end a process and all its children.
pub open spec fn taskkill_args_spec(pid: u32) -> Seq<Seq<char>> {
    seq!["/F"@, "/T"@, "/PID"@, decimal_spec(pid as nat)]
}

pub fn taskkill_args(pid: u32) -> (r: Vec<String>)
    ensures
        arg_views(r@) == taskkill_args_spec(pid),
{
    let mut r: Vec<String> = Vec::new();
    push_str(&mut r, "/F");
    push_str(&mut r, "/T");
    push_str(&mut r, "/PID");
    let d = decimal_digits(pid as u64);
    let ds = string_of(&d);
    let ghost before = arg_views(r@);
    r.push(ds);
    assert(ds@ == decimal_spec(pid as nat));
    assert(arg_views(r@) =~= before.push(decimal_spec(pid as nat)));
    assert(arg_views(r@) =~= taskkill_args_spec(pid));
    r
}

/// One way of starting yt-dlp: a sidecar bundled with the application, the
/// bundled executable that the directory search finds (skipped when it
/// finds none), or a program by name.
pub enum SpawnAttempt {
    Sidecar(String),
    Bundled,
    Program(String),
}

pub enum AttemptView {
    Sidecar(Seq<char>),
    Bundled,
    Program(Seq<char>),
}

impl View for SpawnAttempt {
    type V = AttemptView;

    open spec fn view(&self) -> AttemptView {
        match self {
            SpawnAttempt::Sidecar(s) => AttemptView::Sidecar(s@),
            SpawnAttempt::Bundled => AttemptView::Bundled,
            SpawnAttempt::Program(s) => AttemptView::Program(s@),
        }
    }
}

pub open spec fn attempt_views(v: Seq<SpawnAttempt>) -> Seq<AttemptView> {
    v.map_values(|a: SpawnAttempt| a@)
}

/// The ways of starting yt-dlp, in the order they are tried: the sidecar
/// `yt-dlp`, the sidecar `binaries/yt-dlp`, the bundled executable, and
/// `yt-dlp` from the system path.
pub open spec fn spawn_plan_spec() -> Seq<AttemptView> {
    seq![
        AttemptView::Sidecar("yt-dlp"@),
        AttemptView::Sidecar("binaries/yt-dlp"@),
        AttemptView::Bundled,
        AttemptView::Program("yt-dlp"@),
    ]
}

pub fn spawn_plan() -> (r: Vec<SpawnAttempt>)
    ensures
        attempt_views(r@) == spawn_plan_spec(),
{
    let mut r: Vec<SpawnAttempt> = Vec::new();
    r.push(SpawnAttempt::Sidecar(String::from_str("yt-dlp")));
    r.push(SpawnAttempt::Sidecar(String::from_str("binaries/yt-dlp")));
    r.push(SpawnAttempt::Bundled);
    r.push(SpawnAttempt::Program(String::from_str("yt-dlp")));
    assert(attempt_views(r@) =~= spawn_plan_spec());
    r
}

/// The error reported when no way of starting yt-dlp worked.
pub fn spawn_failure_message() -> (r: String)
    ensures
        r@ == "Failed to spawn yt-dlp: sidecar, fallback executables, and system PATH all failed. Please check that yt-dlp is installed."@,
{
    String::from_str(
        "Failed to spawn yt-dlp: sidecar, fallback executables, and system PATH all failed. Please check that yt-dlp is installed.",
    )
}

/// The directories are searched in this order: the executable's directory,
/// then its parents nearest first (at most five), then the resource
/// directory, then the working directory; without a known executable
/// directory neither it nor its parents are searched.
pub proof fn law_search_order(
    exe: Option<Seq<char>>,
    anc: Seq<Seq<char>>,
    res: Option<Seq<char>>,
    cwd: Option<Seq<char>>,
)
    ensures
        ({
            let r = search_dirs_spec(exe, anc, res, cwd);
            let n: int = if anc.len() < 5 { anc.len() as int } else { 5 };
            let own: int = if exe is Some { 1 + n } else { 0 };
            &&& r.len() == own + (if res is Some { 1int } else { 0 }) + (if cwd is Some { 1int } else { 0 })
            &&& exe matches Some(d) ==> r[0] == d && forall|k: int| 0 <= k < n ==> #[trigger] r[k + 1] == anc[k]
            &&& res matches Some(x) ==> r[own] == x
            &&& cwd matches Some(c) ==> r[r.len() - 1] == c
        }),
{
    if let Some(d) = exe {
        let n: int = if anc.len() < 5 { anc.len() as int } else { 5 };
        assert(nearest_ancestors(anc).len() == n);
        assert forall|k: int| 0 <= k < n implies nearest_ancestors(anc)[k] == anc[k] by {}
    }
}

/// The program path read from `which` / `where.exe` output is the first
/// line, trimmed, when that is not blank; later lines are ignored.
pub proof fn law_located_path_first_line(line: Seq<char>, rest: Seq<char>)
    requires
        forall|i: int| 0 <= i < line.len() ==> line[i] != '\n',
    ensures
        located_path_spec(line + seq!['\n'] + rest) == if trim(line).len() > 0 {
            Some(trim(line))
        } else {
            None
        },
        located_path_spec(line) == if trim(line).len() > 0 {
            Some(trim(line))
        } else {
            None
        },
{
    let s = line + seq!['\n'] + rest;
    crate::monitor::lemma_find_char(s, '\n');
    crate::monitor::lemma_find_char(line, '\n');
    assert(s[line.len() as int] == '\n');
    match find(s, seq!['\n']) {
        Some(k) => {
            if k < line.len() {
                assert(s[k] == line[k]);
            }
            if k > line.len() {
                assert(s[line.len() as int] != '\n');
            }
            assert(s.take(k) =~= line);
        },
        None => {
            assert(s[line.len() as int] != '\n');
        },
    }
}

} // verus!
