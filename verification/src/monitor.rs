//! The progress monitor of a running download: it reads yt-dlp's output
//! line by line, tracks file names, playlist position and errors, and says
//! which progress reports to send to the front end.
use vstd::prelude::*;
use crate::args::{
    arg_views, clean_filename, clean_filename_spec, clean_filepath, clean_filepath_spec,
    destination_filename_spec, destination_filepath_spec, extract_destination_filename,
    extract_destination_filepath, opt_view,
};
use crate::metadata::{join_strings, join_with, split_on, split_on_char};
use crate::numbers::{decimal_digits, decimal_spec};
use crate::playlist::{parse_playlist_progress, playlist_pattern, progress_from_groups, regex_captures_of};
use crate::text::{
    chars_of, contains, contains_seq, ends_with, has_prefix, has_suffix, slice_range, starts_with,
    string_of, trim, trim_end_ch, trim_end_char, trim_ws,
};

verus! {

/// A progress report for the front end. `percent` is the percentage as
/// text ("100", "0", or what yt-dlp printed).
#[derive(Debug, Clone)]
pub struct ProgressUpdate {
    pub task_id: String,
    pub status: String,
    pub percent: String,
    pub speed: String,
    pub eta: String,
    pub filename: String,
    pub playlist_index: Option<u32>,
    pub playlist_total: Option<u32>,
    pub error_log: Option<String>,
    pub file_path: Option<String>,
}

pub struct UpdateView {
    pub task_id: Seq<char>,
    pub status: Seq<char>,
    pub percent: Seq<char>,
    pub speed: Seq<char>,
    pub eta: Seq<char>,
    pub filename: Seq<char>,
    pub playlist_index: Option<u32>,
    pub playlist_total: Option<u32>,
    pub error_log: Option<Seq<char>>,
    pub file_path: Option<Seq<char>>,
}

impl View for ProgressUpdate {
    type V = UpdateView;

    open spec fn view(&self) -> UpdateView {
        UpdateView {
            task_id: self.task_id@,
            status: self.status@,
            percent: self.percent@,
            speed: self.speed@,
            eta: self.eta@,
            filename: self.filename@,
            playlist_index: self.playlist_index,
            playlist_total: self.playlist_total,
            error_log: opt_view(self.error_log),
            file_path: opt_view(self.file_path),
        }
    }
}

pub open spec fn update_views(v: Seq<ProgressUpdate>) -> Seq<UpdateView> {
    v.map_values(|u: ProgressUpdate| u@)
}

/// What the monitor knows about a running download.
pub struct DownloadMonitor {
    pub task_id: String,
    pub is_playlist: bool,
    /// The file name from the latest progress line.
    pub current_filename: String,
    /// The cleaned name of the final file, once known.
    pub final_filename: String,
    /// The (cleaned) path of the file being written.
    pub detected_filepath: String,
    /// The latest `ERROR:` line or process error.
    pub last_error: String,
    /// Everything the process wrote to standard error.
    pub error_log: String,
    pub exit_code: Option<i32>,
    pub playlist_index: Option<u32>,
    pub playlist_total: Option<u32>,
}

pub struct MonitorView {
    pub task_id: Seq<char>,
    pub is_playlist: bool,
    pub current_filename: Seq<char>,
    pub final_filename: Seq<char>,
    pub detected_filepath: Seq<char>,
    pub last_error: Seq<char>,
    pub error_log: Seq<char>,
    pub exit_code: Option<i32>,
    pub playlist_index: Option<u32>,
    pub playlist_total: Option<u32>,
}

impl View for DownloadMonitor {
    type V = MonitorView;

    open spec fn view(&self) -> MonitorView {
        MonitorView {
            task_id: self.task_id@,
            is_playlist: self.is_playlist,
            current_filename: self.current_filename@,
            final_filename: self.final_filename@,
            detected_filepath: self.detected_filepath@,
            last_error: self.last_error@,
            error_log: self.error_log@,
            exit_code: self.exit_code,
            playlist_index: self.playlist_index,
            playlist_total: self.playlist_total,
        }
    }
}

// ---------------------------------------------------------------------------
// The model
// ---------------------------------------------------------------------------

/// Playlist position taken from a progress line.
pub open spec fn after_progress_line(st: MonitorView, line: Seq<char>) -> MonitorView {
    match progress_from_groups(regex_captures_of(playlist_pattern(), line)) {
        Some((i, t)) => MonitorView { playlist_index: Some(i), playlist_total: Some(t), ..st },
        None => st,
    }
}

/// A path that is not a partial or temporary download.
pub open spec fn usable_path(p: Seq<char>) -> bool {
    !ends_with(p, ".part"@) && !ends_with(p, ".temp"@)
}

/// The destination path that a line announces, cleaned, when usable.
pub open spec fn after_destination_line(st: MonitorView, line: Seq<char>) -> MonitorView {
    match destination_filepath_spec(line) {
        Some(raw) => if usable_path(clean_filepath_spec(raw)) {
            MonitorView { detected_filepath: clean_filepath_spec(raw), ..st }
        } else {
            st
        },
        None => st,
    }
}

/// The file name shown to the user.
pub open spec fn display_name(st: MonitorView) -> Seq<char> {
    if st.final_filename.len() > 0 {
        st.final_filename
    } else {
        clean_filename_spec(st.current_filename)
    }
}

pub open spec fn is_processing_line(line: Seq<char>) -> bool {
    ||| contains(line, "[Merger]"@)
    ||| contains(line, "[ExtractAudio]"@)
    ||| contains(line, "[VideoConvertor]"@)
    ||| contains(line, "[Fixup"@)
}

pub open spec fn report(
    st: MonitorView,
    status: Seq<char>,
    percent: Seq<char>,
    speed: Seq<char>,
    eta: Seq<char>,
) -> UpdateView {
    UpdateView {
        task_id: st.task_id,
        status,
        percent,
        speed,
        eta,
        filename: display_name(st),
        playlist_index: st.playlist_index,
        playlist_total: st.playlist_total,
        error_log: None,
        file_path: None,
    }
}

/// The fields of a structured progress line
/// (`download-progress:percent|speed|eta|filename`), when it has them.
pub open spec fn progress_fields(line: Seq<char>) -> Option<
    (Seq<char>, Seq<char>, Seq<char>, Seq<char>),
> {
    let parts = split_on(line.skip("download-progress:"@.len() as int), '|');
    if parts.len() >= 4 {
        Some(
            (
                trim_end_char(trim(parts[0]), '%'),
                trim(parts[1]),
                trim(parts[2]),
                trim(join_with(parts.skip(3), "|"@)),
            ),
        )
    } else {
        None
    }
}

/// One trimmed, non-empty line of standard output: the new state and the
/// report to send, if any.
pub open spec fn stdout_line_spec(st0: MonitorView, line: Seq<char>) -> (MonitorView, Option<
    UpdateView,
>) {
    let st = after_destination_line(after_progress_line(st0, line), line);
    if starts_with(line, "download-progress:"@) {
        match progress_fields(line) {
            Some((percent, speed, eta, filename)) => {
                let st2 = if filename.len() > 0 {
                    let cp = clean_filepath_spec(filename);
                    MonitorView {
                        current_filename: filename,
                        final_filename: clean_filename_spec(filename),
                        detected_filepath: if usable_path(cp) && st.detected_filepath.len() == 0 {
                            cp
                        } else {
                            st.detected_filepath
                        },
                        ..st
                    }
                } else {
                    st
                };
                (st2, Some(report(st2, "Downloading"@, percent, speed, eta)))
            },
            None => (st, None),
        }
    } else if is_processing_line(line) {
        let st2 = match destination_filename_spec(line) {
            Some(c) => MonitorView { final_filename: c, ..st },
            None => st,
        };
        (st2, Some(report(st2, "Processing/GPU"@, "100"@, "N/A"@, "N/A"@)))
    } else if starts_with(line, "[download] Destination:"@) {
        match destination_filename_spec(line) {
            Some(c) => if !contains(c, ".f"@) && !ends_with(c, ".temp"@) && !ends_with(c, ".part"@) {
                (MonitorView { final_filename: c, ..st }, None)
            } else {
                (st, None)
            },
            None => (st, None),
        }
    } else {
        (st, None)
    }
}

/// Standard-output lines in order; blank lines are skipped.
pub open spec fn stdout_lines_spec(st: MonitorView, lines: Seq<Seq<char>>) -> (MonitorView, Seq<
    UpdateView,
>)
    decreases lines.len(),
{
    if lines.len() == 0 {
        (st, Seq::empty())
    } else {
        let (s1, u1) = stdout_lines_spec(st, lines.drop_last());
        let l = trim(lines.last());
        if l.len() == 0 {
            (s1, u1)
        } else {
            let (s2, o) = stdout_line_spec(s1, l);
            (
                s2,
                match o {
                    Some(u) => u1.push(u),
                    None => u1,
                },
            )
        }
    }
}

/// A chunk of standard output.
pub open spec fn stdout_chunk_spec(st: MonitorView, text: Seq<char>) -> (MonitorView, Seq<
    UpdateView,
>) {
    stdout_lines_spec(st, split_on(text, '\n'))
}

/// One trimmed, non-empty line of standard error.
pub open spec fn stderr_line_spec(st0: MonitorView, line: Seq<char>) -> MonitorView {
    let st = after_destination_line(after_progress_line(st0, line), line);
    if starts_with(line, "ERROR:"@) {
        MonitorView { last_error: line, ..st }
    } else if contains(line, "[Merger]"@) || contains(line, "[ExtractAudio]"@) {
        match destination_filename_spec(line) {
            Some(c) => MonitorView { final_filename: c, ..st },
            None => st,
        }
    } else {
        st
    }
}

pub open spec fn stderr_lines_spec(st: MonitorView, lines: Seq<Seq<char>>) -> MonitorView
    decreases lines.len(),
{
    if lines.len() == 0 {
        st
    } else {
        let s1 = stderr_lines_spec(st, lines.drop_last());
        let l = trim(lines.last());
        if l.len() == 0 {
            s1
        } else {
            stderr_line_spec(s1, l)
        }
    }
}

/// A chunk of standard error: logged whole, then read line by line.
pub open spec fn stderr_chunk_spec(st: MonitorView, text: Seq<char>) -> MonitorView {
    stderr_lines_spec(MonitorView { error_log: st.error_log + text, ..st }, split_on(text, '\n'))
}

/// The name reported when the download ends.
pub open spec fn final_display_spec(st: MonitorView) -> Seq<char> {
    if st.final_filename.len() > 0 {
        st.final_filename
    } else if st.current_filename.len() > 0 {
        clean_filename_spec(st.current_filename)
    } else {
        "Download completed"@
    }
}

/// `{:?}` of an `i32`.
pub open spec fn i32_text(c: i32) -> Seq<char> {
    if c < 0 {
        "-"@ + decimal_spec((-c) as nat)
    } else {
        decimal_spec(c as nat)
    }
}

/// The error described when the download fails.
pub open spec fn error_description(st: MonitorView) -> Seq<char> {
    if st.last_error.len() > 0 {
        st.last_error
    } else {
        "Process exited with code "@ + i32_text(
            match st.exit_code {
                Some(c) => c,
                None => -1i32,
            },
        )
    }
}

pub open spec fn trimmed_log(st: MonitorView) -> Option<Seq<char>> {
    if trim(st.error_log).len() > 0 {
        Some(trim(st.error_log))
    } else {
        None
    }
}

// ---------------------------------------------------------------------------
// The executable monitor
// ---------------------------------------------------------------------------

fn new_string(s: &str) -> (r: String)
    ensures
        r@ == s@,
{
    String::from_str(s)
}

fn owned_clone(s: &String) -> (r: String)
    ensures
        r@ == s@,
{
    s.clone()
}

fn i32_string(c: i32) -> (r: String)
    ensures
        r@ == i32_text(c),
{
    let mag: u64 = if c < 0 {
        (-(c as i64)) as u64
    } else {
        c as u64
    };
    let d = decimal_digits(mag);
    if c < 0 {
        let mut r = String::from_str("-");
        let ds = string_of(&d);
        r.append(ds.as_str());
        r
    } else {
        string_of(&d)
    }
}

/// The report sent when the user cancels a download.
pub fn cancelled_update(task_id: &str) -> (u: ProgressUpdate)
    ensures
        u@ == (UpdateView {
            task_id: task_id@,
            status: "Cancelled"@,
            percent: "0"@,
            speed: "0 KiB/s"@,
            eta: "00:00"@,
            filename: "Download cancelled by user"@,
            playlist_index: None,
            playlist_total: None,
            error_log: None,
            file_path: None,
        }),
{
    ProgressUpdate {
        task_id: new_string(task_id),
        status: new_string("Cancelled"),
        percent: new_string("0"),
        speed: new_string("0 KiB/s"),
        eta: new_string("00:00"),
        filename: new_string("Download cancelled by user"),
        playlist_index: None,
        playlist_total: None,
        error_log: None,
        file_path: None,
    }
}

/// The id given to a download request that has none: `task_<millis>`.
pub fn default_task_id(millis: u64) -> (r: String)
    ensures
        r@ == "task_"@ + decimal_spec(millis as nat),
{
    let mut r = String::from_str("task_");
    let d = decimal_digits(millis);
    let ds = string_of(&d);
    r.append(ds.as_str());
    r
}

impl DownloadMonitor {
    /// The state of a monitor that has just started.
    pub open spec fn new_view(task_id: Seq<char>, is_playlist: bool) -> MonitorView {
        MonitorView {
            task_id,
            is_playlist,
            current_filename: Seq::empty(),
            final_filename: Seq::empty(),
            detected_filepath: Seq::empty(),
            last_error: Seq::empty(),
            error_log: Seq::empty(),
            exit_code: None,
            playlist_index: None,
            playlist_total: None,
        }
    }

    /// A monitor for a download that has just started.
    pub fn new(task_id: String, is_playlist: bool) -> (m: Self)
        ensures
            m@ == (MonitorView {
                task_id: task_id@,
                is_playlist,
                current_filename: Seq::empty(),
                final_filename: Seq::empty(),
                detected_filepath: Seq::empty(),
                last_error: Seq::empty(),
                error_log: Seq::empty(),
                exit_code: None,
                playlist_index: None,
                playlist_total: None,
            }),
    {
        DownloadMonitor {
            task_id,
            is_playlist,
            current_filename: String::new(),
            final_filename: String::new(),
            detected_filepath: String::new(),
            last_error: String::new(),
            error_log: String::new(),
            exit_code: None,
            playlist_index: None,
            playlist_total: None,
        }
    }

    fn take_progress_and_destination(&mut self, line: &str)
        ensures
            final(self)@ == after_destination_line(after_progress_line(old(self)@, line@), line@),
    {
        match parse_playlist_progress(line) {
            Some((i, t)) => {
                self.playlist_index = Some(i);
                self.playlist_total = Some(t);
            },
            None => {},
        }
        match extract_destination_filepath(line) {
            Some(raw) => {
                let cp = clean_filepath(raw.as_str());
                if usable(cp.as_str()) {
                    self.detected_filepath = cp;
                }
            },
            None => {},
        }
    }

    fn report(&self, status: &str, percent: String, speed: String, eta: String) -> (u: ProgressUpdate)
        ensures
            u@ == report(self@, status@, percent@, speed@, eta@),
    {
        ProgressUpdate {
            task_id: owned_clone(&self.task_id),
            status: new_string(status),
            percent,
            speed,
            eta,
            filename: self.display_name(),
            playlist_index: self.playlist_index,
            playlist_total: self.playlist_total,
            error_log: None,
            file_path: None,
        }
    }

    /// The file name shown while downloading.
    pub fn display_name(&self) -> (r: String)
        ensures
            r@ == display_name(self@),
    {
        if self.final_filename.as_str().unicode_len() > 0 {
            owned_clone(&self.final_filename)
        } else {
            clean_filename(self.current_filename.as_str())
        }
    }

    /// Handles one trimmed, non-empty line of standard output.
    pub fn on_stdout_line(&mut self, line: &str) -> (r: Option<ProgressUpdate>)
        ensures
            (final(self)@, match r {
                Some(u) => Some(u@),
                None => None::<UpdateView>,
            }) == stdout_line_spec(old(self)@, line@),
    {
        self.take_progress_and_destination(line);
        let v = chars_of(line);
        let marker = chars_of("download-progress:");
        if has_prefix(&v, &marker) {
            let rest = slice_range(&v, marker.len(), v.len());
            assert(rest@ =~= line@.skip("download-progress:"@.len() as int));
            let parts = split_on_char(&rest, '|');
            if parts.len() >= 4 {
                let percent = {
                    let p0 = chars_of(parts[0].as_str());
                    let t = trim_ws(&p0);
                    let u = trim_end_ch(&t, '%');
                    string_of(&u)
                };
                let speed = trimmed(parts[1].as_str());
                let eta = trimmed(parts[2].as_str());
                let mut tail: Vec<String> = Vec::new();
                let mut k: usize = 3;
                while k < parts.len()
                    invariant
                        3 <= k <= parts@.len(),
                        arg_views(tail@) == arg_views(parts@).subrange(3, k as int),
                    decreases parts.len() - k,
                {
                    let x = owned_clone(&parts[k]);
                    let ghost old_tail = tail@;
                    tail.push(x);
                    assert(arg_views(tail@) =~= arg_views(old_tail).push(parts@[k as int]@));
                    assert(arg_views(tail@) =~= arg_views(parts@).subrange(3, k + 1));
                    k += 1;
                }
                assert(arg_views(parts@).subrange(3, parts@.len() as int) =~= arg_views(
                    parts@,
                ).skip(3));
                let joined = join_strings(&tail, "|");
                let filename = trimmed(joined.as_str());
                if filename.as_str().unicode_len() > 0 {
                    let cp = clean_filepath(filename.as_str());
                    self.final_filename = clean_filename(filename.as_str());
                    if usable(cp.as_str()) && self.detected_filepath.as_str().unicode_len() == 0 {
                        self.detected_filepath = cp;
                    }
                    self.current_filename = filename;
                }
                Some(self.report("Downloading", percent, speed, eta))
            } else {
                None
            }
        } else if processing_line(&v) {
            match extract_destination_filename(line) {
                Some(c) => {
                    self.final_filename = c;
                },
                None => {},
            }
            Some(
                self.report("Processing/GPU", new_string("100"), new_string("N/A"), new_string("N/A")),
            )
        } else if has_prefix(&v, &chars_of("[download] Destination:")) {
            match extract_destination_filename(line) {
                Some(c) => {
                    let cv = chars_of(c.as_str());
                    if !contains_seq(&cv, &chars_of(".f")) && !has_suffix(&cv, &chars_of(".temp"))
                        && !has_suffix(&cv, &chars_of(".part")) {
                        self.final_filename = c;
                    }
                },
                None => {},
            }
            None
        } else {
            None
        }
    }

    /// Handles a chunk of standard output; returns the reports to send.
    pub fn on_stdout(&mut self, text: &str) -> (r: Vec<ProgressUpdate>)
        ensures
            (final(self)@, update_views(r@)) == stdout_chunk_spec(old(self)@, text@),
    {
        let tv = chars_of(text);
        let lines = split_on_char(&tv, '\n');
        let ghost ls = arg_views(lines@);
        let ghost st0 = self@;
        let mut out: Vec<ProgressUpdate> = Vec::new();
        let mut k: usize = 0;
        assert(ls.take(0) =~= Seq::<Seq<char>>::empty());
        assert(update_views(out@) =~= Seq::<UpdateView>::empty());
        while k < lines.len()
            invariant
                k <= lines@.len(),
                ls == arg_views(lines@),
                (self@, update_views(out@)) == stdout_lines_spec(st0, ls.take(k as int)),
            decreases lines.len() - k,
        {
            assert(ls.take(k + 1).drop_last() =~= ls.take(k as int));
            assert(ls.take(k + 1).last() == lines@[k as int]@);
            let l = trimmed(lines[k].as_str());
            if l.as_str().unicode_len() > 0 {
                let ghost before = update_views(out@);
                match self.on_stdout_line(l.as_str()) {
                    Some(u) => {
                        out.push(u);
                        assert(update_views(out@) =~= before.push(u@));
                    },
                    None => {},
                }
            }
            k += 1;
        }
        assert(ls.take(lines@.len() as int) =~= ls);
        out
    }

    /// Handles one trimmed, non-empty line of standard error.
    pub fn on_stderr_line(&mut self, line: &str)
        ensures
            final(self)@ == stderr_line_spec(old(self)@, line@),
    {
        self.take_progress_and_destination(line);
        let v = chars_of(line);
        if has_prefix(&v, &chars_of("ERROR:")) {
            self.last_error = new_string(line);
        } else if contains_seq(&v, &chars_of("[Merger]")) || contains_seq(
            &v,
            &chars_of("[ExtractAudio]"),
        ) {
            match extract_destination_filename(line) {
                Some(c) => {
                    self.final_filename = c;
                },
                None => {},
            }
        }
    }

    /// Handles a chunk of standard error.
    pub fn on_stderr(&mut self, text: &str)
        ensures
            final(self)@ == stderr_chunk_spec(old(self)@, text@),
    {
        self.error_log.append(text);
        let tv = chars_of(text);
        let lines = split_on_char(&tv, '\n');
        let ghost ls = arg_views(lines@);
        let ghost st0 = self@;
        let mut k: usize = 0;
        assert(ls.take(0) =~= Seq::<Seq<char>>::empty());
        while k < lines.len()
            invariant
                k <= lines@.len(),
                ls == arg_views(lines@),
                self@ == stderr_lines_spec(st0, ls.take(k as int)),
            decreases lines.len() - k,
        {
            assert(ls.take(k + 1).drop_last() =~= ls.take(k as int));
            assert(ls.take(k + 1).last() == lines@[k as int]@);
            let l = trimmed(lines[k].as_str());
            if l.as_str().unicode_len() > 0 {
                self.on_stderr_line(l.as_str());
            }
            k += 1;
        }
        assert(ls.take(lines@.len() as int) =~= ls);
    }

    /// Records an error reported for the process itself.
    pub fn on_process_error(&mut self, err: &str)
        ensures
            final(self)@ == (MonitorView {
                error_log: old(self)@.error_log + "Process error: "@ + err@ + "\n"@,
                last_error: err@,
                ..old(self)@
            }),
    {
        self.error_log.append("Process error: ");
        self.error_log.append(err);
        self.error_log.append("\n");
        self.last_error = new_string(err);
    }

    /// Records the exit code of the terminated process.
    pub fn on_terminated(&mut self, code: Option<i32>)
        ensures
            final(self)@ == (MonitorView { exit_code: code, ..old(self)@ }),
    {
        self.exit_code = code;
    }

    /// Whether the process exited with code 0.
    pub fn is_success(&self) -> (r: bool)
        ensures
            r == (self.exit_code == Some(0i32)),
    {
        match self.exit_code {
            Some(c) => c == 0,
            None => false,
        }
    }

    /// The file name reported when the download ends.
    pub fn final_display_name(&self) -> (r: String)
        ensures
            r@ == final_display_spec(self@),
    {
        if self.final_filename.as_str().unicode_len() > 0 {
            owned_clone(&self.final_filename)
        } else if self.current_filename.as_str().unicode_len() > 0 {
            clean_filename(self.current_filename.as_str())
        } else {
            new_string("Download completed")
        }
    }

    fn log_option(&self) -> (r: Option<String>)
        ensures
            opt_view(r) == trimmed_log(self@),
    {
        let t = trimmed(self.error_log.as_str());
        if t.as_str().unicode_len() > 0 {
            Some(t)
        } else {
            None
        }
    }

    /// The report of a successful download, with the path to open.
    pub fn completed_update(&self, file_path: Option<String>) -> (u: ProgressUpdate)
        ensures
            u@ == (UpdateView {
                task_id: self@.task_id,
                status: "Completed"@,
                percent: "100"@,
                speed: "0 KiB/s"@,
                eta: "00:00"@,
                filename: final_display_spec(self@),
                playlist_index: self@.playlist_index,
                playlist_total: self@.playlist_total,
                error_log: trimmed_log(self@),
                file_path: opt_view(file_path),
            }),
    {
        ProgressUpdate {
            task_id: owned_clone(&self.task_id),
            status: new_string("Completed"),
            percent: new_string("100"),
            speed: new_string("0 KiB/s"),
            eta: new_string("00:00"),
            filename: self.final_display_name(),
            playlist_index: self.playlist_index,
            playlist_total: self.playlist_total,
            error_log: self.log_option(),
            file_path,
        }
    }

    /// The report of a failed download.
    pub fn failed_update(&self) -> (u: ProgressUpdate)
        ensures
            u@ == (UpdateView {
                task_id: self@.task_id,
                status: "Error"@,
                percent: "0"@,
                speed: "0 KiB/s"@,
                eta: "00:00"@,
                filename: error_description(self@),
                playlist_index: self@.playlist_index,
                playlist_total: self@.playlist_total,
                error_log: Some(
                    match trimmed_log(self@) {
                        Some(l) => l,
                        None => error_description(self@),
                    },
                ),
                file_path: None,
            }),
    {
        let desc = if self.last_error.as_str().unicode_len() > 0 {
            owned_clone(&self.last_error)
        } else {
            let code = match self.exit_code {
                Some(c) => c,
                None => -1i32,
            };
            let mut d = new_string("Process exited with code ");
            let cs = i32_string(code);
            d.append(cs.as_str());
            d
        };
        let full_log = match self.log_option() {
            Some(l) => l,
            None => owned_clone(&desc),
        };
        ProgressUpdate {
            task_id: owned_clone(&self.task_id),
            status: new_string("Error"),
            percent: new_string("0"),
            speed: new_string("0 KiB/s"),
            eta: new_string("00:00"),
            filename: desc,
            playlist_index: self.playlist_index,
            playlist_total: self.playlist_total,
            error_log: Some(full_log),
            file_path: None,
        }
    }
}

fn trimmed(s: &str) -> (r: String)
    ensures
        r@ == trim(s@),
{
    let v = chars_of(s);
    let t = trim_ws(&v);
    string_of(&t)
}

fn usable(p: &str) -> (r: bool)
    ensures
        r == usable_path(p@),
{
    let v = chars_of(p);
    !has_suffix(&v, &chars_of(".part")) && !has_suffix(&v, &chars_of(".temp"))
}

fn processing_line(v: &[char]) -> (r: bool)
    ensures
        r == is_processing_line(v@),
{
    contains_seq(v, &chars_of("[Merger]")) || contains_seq(v, &chars_of("[ExtractAudio]"))
        || contains_seq(v, &chars_of("[VideoConvertor]")) || contains_seq(v, &chars_of("[Fixup"))
}

// ---------------------------------------------------------------------------
// The event stream of a download
// ---------------------------------------------------------------------------

/// What the yt-dlp process reports: a chunk of standard output or standard
/// error, an error of the process itself, or its end with an exit code.
pub enum MonitorEvent {
    Stdout(String),
    Stderr(String),
    Error(String),
    Terminated(Option<i32>),
}

pub enum EventView {
    Stdout(Seq<char>),
    Stderr(Seq<char>),
    Error(Seq<char>),
    Terminated(Option<i32>),
}

impl View for MonitorEvent {
    type V = EventView;

    open spec fn view(&self) -> EventView {
        match self {
            MonitorEvent::Stdout(t) => EventView::Stdout(t@),
            MonitorEvent::Stderr(t) => EventView::Stderr(t@),
            MonitorEvent::Error(t) => EventView::Error(t@),
            MonitorEvent::Terminated(c) => EventView::Terminated(*c),
        }
    }
}

/// One event: the new state, the reports to send, and whether the stream
/// has ended.
pub open spec fn event_step(st: MonitorView, e: EventView) -> (MonitorView, Seq<UpdateView>, bool) {
    match e {
        EventView::Stdout(t) => (stdout_chunk_spec(st, t).0, stdout_chunk_spec(st, t).1, false),
        EventView::Stderr(t) => (stderr_chunk_spec(st, t), Seq::empty(), false),
        EventView::Error(t) => (
            MonitorView {
                error_log: st.error_log + "Process error: "@ + t + "\n"@,
                last_error: t,
                ..st
            },
            Seq::empty(),
            false,
        ),
        EventView::Terminated(c) => (MonitorView { exit_code: c, ..st }, Seq::empty(), true),
    }
}

/// The report that closes a download: none after a cancellation; else
/// "Completed" when the process exited with 0, and "Error" otherwise.
pub open spec fn final_report(st: MonitorView, cancelled: bool, file_path: Option<Seq<char>>) -> Option<
    UpdateView,
> {
    if cancelled {
        None
    } else if st.exit_code == Some(0i32) {
        Some(
            UpdateView {
                task_id: st.task_id,
                status: "Completed"@,
                percent: "100"@,
                speed: "0 KiB/s"@,
                eta: "00:00"@,
                filename: final_display_spec(st),
                playlist_index: st.playlist_index,
                playlist_total: st.playlist_total,
                error_log: trimmed_log(st),
                file_path,
            },
        )
    } else {
        Some(
            UpdateView {
                task_id: st.task_id,
                status: "Error"@,
                percent: "0"@,
                speed: "0 KiB/s"@,
                eta: "00:00"@,
                filename: error_description(st),
                playlist_index: st.playlist_index,
                playlist_total: st.playlist_total,
                error_log: Some(
                    match trimmed_log(st) {
                        Some(l) => l,
                        None => error_description(st),
                    },
                ),
                file_path: None,
            },
        )
    }
}

/// The events read before the watch stops: all of them up to the first
/// `Terminated` (included), and none from `cancel_at` on, the position at
/// which the cancellation was seen.
pub open spec fn events_read(events: Seq<EventView>, cancel_at: Option<int>) -> Seq<EventView>
    decreases events.len(),
{
    if events.len() == 0 || cancel_at == Some(0int) {
        Seq::empty()
    } else {
        seq![events[0]] + if events[0] is Terminated {
            Seq::empty()
        } else {
            events_read(events.drop_first(), shift_pos(cancel_at, 1))
        }
    }
}

pub open spec fn shift_pos(ca: Option<int>, i: int) -> Option<int> {
    match ca {
        Some(k) => Some(k - i),
        None => None,
    }
}

/// The cancellation is seen: it comes at an event that is read, before the
/// process ended.
pub open spec fn cancel_seen(events: Seq<EventView>, cancel_at: Option<int>) -> bool
    decreases events.len(),
{
    if events.len() == 0 {
        false
    } else if cancel_at == Some(0int) {
        true
    } else if events[0] is Terminated {
        false
    } else {
        cancel_seen(events.drop_first(), shift_pos(cancel_at, 1))
    }
}

/// Runs a sequence of events from a state: the final state and the
/// reports sent on the way.
pub open spec fn run_events(st: MonitorView, events: Seq<EventView>) -> (MonitorView, Seq<UpdateView>)
    decreases events.len(),
{
    if events.len() == 0 {
        (st, Seq::empty())
    } else {
        let (s1, u1) = run_events(st, events.drop_last());
        let (s2, u2, _) = event_step(s1, events.last());
        (s2, u1 + u2)
    }
}

pub open spec fn event_views(v: Seq<MonitorEvent>) -> Seq<EventView> {
    v.map_values(|e: MonitorEvent| e@)
}

impl DownloadMonitor {
    /// Handles one event of the process; returns the reports to send and
    /// whether the stream has ended.
    pub fn on_event(&mut self, event: &MonitorEvent) -> (r: (Vec<ProgressUpdate>, bool))
        ensures
            (final(self)@, update_views(r.0@), r.1) == event_step(old(self)@, event@),
    {
        match event {
            MonitorEvent::Stdout(t) => (self.on_stdout(t.as_str()), false),
            MonitorEvent::Stderr(t) => {
                self.on_stderr(t.as_str());
                let v: Vec<ProgressUpdate> = Vec::new();
                assert(update_views(v@) =~= Seq::<UpdateView>::empty());
                (v, false)
            },
            MonitorEvent::Error(t) => {
                self.on_process_error(t.as_str());
                let v: Vec<ProgressUpdate> = Vec::new();
                assert(update_views(v@) =~= Seq::<UpdateView>::empty());
                (v, false)
            },
            MonitorEvent::Terminated(c) => {
                self.on_terminated(*c);
                let v: Vec<ProgressUpdate> = Vec::new();
                assert(update_views(v@) =~= Seq::<UpdateView>::empty());
                (v, true)
            },
        }
    }

    /// The report that closes the download, given whether it was cancelled
    /// and the file (or folder) to report on success.
    pub fn finish(&self, cancelled: bool, file_path: Option<String>) -> (r: Option<ProgressUpdate>)
        ensures
            match r {
                Some(u) => final_report(self@, cancelled, opt_view(file_path)) == Some(u@),
                None => final_report(self@, cancelled, opt_view(file_path)) is None,
            },
    {
        if cancelled {
            None
        } else if self.is_success() {
            Some(self.completed_update(file_path))
        } else {
            Some(self.failed_update())
        }
    }
}

/// The whole watch of a download as a function of what happened: the
/// events the process sent, the position at which a cancellation was seen
/// (if one was), whether the task was found cancelled at the end, and the
/// file to report on success. Returns every report, in order.
pub fn watch_download(
    task_id: String,
    is_playlist: bool,
    events: &Vec<MonitorEvent>,
    cancel_at: Option<usize>,
    cancelled_at_end: bool,
    file_path: Option<String>,
) -> (r: Vec<ProgressUpdate>)
    ensures
        ({
            let st0 = DownloadMonitor::new_view(task_id@, is_playlist);
            let read = events_read(
                event_views(events@),
                match cancel_at {
                    Some(k) => Some(k as int),
                    None => None,
                },
            );
            let (st, ups) = run_events(st0, read);
            update_views(r@) == match final_report(
                st,
                cancel_seen(
                    event_views(events@),
                    match cancel_at {
                        Some(k) => Some(k as int),
                        None => None,
                    },
                ) || cancelled_at_end,
                opt_view(file_path),
            ) {
                Some(u) => ups.push(u),
                None => ups,
            }
        }),
{
    let ghost evs = event_views(events@);
    let ghost ca: Option<int> = match cancel_at {
        Some(k) => Some(k as int),
        None => None,
    };
    let mut m = DownloadMonitor::new(task_id, is_playlist);
    let ghost st0 = m@;
    let mut out: Vec<ProgressUpdate> = Vec::new();
    let mut i: usize = 0;
    let mut stopped = false;
    let mut cancelled = false;
    proof {
        assert(update_views(out@) =~= Seq::<UpdateView>::empty());
        assert(evs.take(0) =~= Seq::<EventView>::empty());
        assert(evs.skip(0) =~= evs);
        assert(shift_pos(ca, 0) == ca);
        assert(evs.take(0) + events_read(evs, ca) =~= events_read(evs, ca));
    }
    while i < events.len() && !stopped
        invariant
            i <= events@.len(),
            evs == event_views(events@),
            ca == match cancel_at {
                Some(k) => Some(k as int),
                None => None::<int>,
            },
            stopped ==> events_read(evs, ca) == evs.take(i as int),
            stopped ==> cancelled == cancel_seen(evs, ca),
            !stopped ==> !cancelled,
            !stopped ==> events_read(evs, ca) == evs.take(i as int) + events_read(
                evs.skip(i as int),
                shift_pos(ca, i as int),
            ),
            !stopped ==> cancel_seen(evs, ca) == cancel_seen(evs.skip(i as int), shift_pos(ca, i as int)),
            (m@, update_views(out@)) == run_events(st0, evs.take(i as int)),
        decreases events.len() - i + if stopped { 0int } else { 1int },
    {
        let ghost rest = evs.skip(i as int);
        let ghost cr = shift_pos(ca, i as int);
        let ghost cr1 = shift_pos(ca, i + 1);
        assert(shift_pos(cr, 1) == cr1);
        let at_cancel = match cancel_at {
            Some(k) => k == i,
            None => false,
        };
        if at_cancel {
            stopped = true;
            cancelled = true;
            proof {
                assert(cr == Some(0int));
                assert(events_read(rest, cr) =~= Seq::<EventView>::empty());
                assert(evs.take(i as int) + Seq::<EventView>::empty() =~= evs.take(i as int));
            }
        } else {
            let ghost before = update_views(out@);
            let (ups, end) = m.on_event(&events[i]);
            proof {
                assert(rest[0] == evs[i as int]);
                assert(evs[i as int] == events@[i as int]@);
                assert(evs.take(i + 1).drop_last() =~= evs.take(i as int));
                assert(evs.take(i + 1).last() == evs[i as int]);
                assert(rest.drop_first() =~= evs.skip(i + 1));
                assert(cr != Some(0int));
                if end {
                    assert(evs.take(i as int) + seq![evs[i as int]] =~= evs.take(i + 1));
                    assert(events_read(rest, cr) == seq![rest[0]] + Seq::<EventView>::empty());
                    assert(seq![rest[0]] + Seq::<EventView>::empty() =~= seq![rest[0]]);
                    assert(!cancel_seen(rest, cr));
                } else {
                    assert(events_read(rest, cr) == seq![rest[0]] + events_read(
                        evs.skip(i + 1),
                        cr1,
                    ));
                    assert(evs.take(i as int) + (seq![evs[i as int]] + events_read(
                        evs.skip(i + 1),
                        cr1,
                    )) =~= evs.take(i + 1) + events_read(evs.skip(i + 1), cr1));
                    assert(cancel_seen(rest, cr) == cancel_seen(evs.skip(i + 1), cr1));
                }
            }
            let ghost mid = update_views(out@);
            let mut ups = ups;
            let ghost uv = update_views(ups@);
            out.append(&mut ups);
            proof {
                assert(update_views(out@) =~= mid + uv);
            }
            stopped = end;
            i += 1;
        }
    }
    proof {
        if !stopped {
            assert(i == events@.len());
            assert(evs.skip(i as int) =~= Seq::<EventView>::empty());
            assert(evs.take(i as int) + Seq::<EventView>::empty() =~= evs.take(i as int));
            assert(evs.take(i as int) =~= evs);
        }
    }
    let ghost ups_v = update_views(out@);
    assert(m@ == run_events(st0, events_read(evs, ca)).0);
    match m.finish(cancelled || cancelled_at_end, file_path) {
        Some(u) => {
            out.push(u);
            assert(update_views(out@) =~= ups_v.push(u@));
        },
        None => {},
    }
    out
}

// ---------------------------------------------------------------------------
// Laws
// ---------------------------------------------------------------------------

/// The fields that reading a line of output never changes.
pub open spec fn same_identity(a: MonitorView, b: MonitorView) -> bool {
    a.task_id == b.task_id && a.is_playlist == b.is_playlist && a.exit_code == b.exit_code
}

/// A report sent while the download runs: it names the monitor's task and
/// says either "Downloading" or "Processing/GPU", with no error log and no
/// file path.
pub open spec fn running_report(st: MonitorView, u: UpdateView) -> bool {
    &&& u.task_id == st.task_id
    &&& u.status == "Downloading"@ || u.status == "Processing/GPU"@
    &&& u.error_log is None
    &&& u.file_path is None
}

proof fn lemma_stdout_lines(st: MonitorView, lines: Seq<Seq<char>>)
    ensures
        same_identity(stdout_lines_spec(st, lines).0, st),
        stdout_lines_spec(st, lines).0.error_log == st.error_log,
        stdout_lines_spec(st, lines).0.last_error == st.last_error,
        forall|i: int|
            0 <= i < stdout_lines_spec(st, lines).1.len() ==> running_report(
                st,
                #[trigger] stdout_lines_spec(st, lines).1[i],
            ),
    decreases lines.len(),
{
    if lines.len() > 0 {
        lemma_stdout_lines(st, lines.drop_last());
    }
}

/// Reading standard output keeps the task id, the playlist flag, the exit
/// code and the error records as they were, and every report it produces
/// is a running report for that task.
pub proof fn law_stdout_keeps_task(st: MonitorView, text: Seq<char>)
    ensures
        same_identity(stdout_chunk_spec(st, text).0, st),
        stdout_chunk_spec(st, text).0.error_log == st.error_log,
        stdout_chunk_spec(st, text).0.last_error == st.last_error,
        forall|i: int|
            0 <= i < stdout_chunk_spec(st, text).1.len() ==> running_report(
                st,
                #[trigger] stdout_chunk_spec(st, text).1[i],
            ),
{
    lemma_stdout_lines(st, split_on(text, '\n'));
}

proof fn lemma_stderr_lines(st: MonitorView, lines: Seq<Seq<char>>)
    ensures
        same_identity(stderr_lines_spec(st, lines), st),
        stderr_lines_spec(st, lines).error_log == st.error_log,
        stderr_lines_spec(st, lines).current_filename == st.current_filename,
    decreases lines.len(),
{
    if lines.len() > 0 {
        lemma_stderr_lines(st, lines.drop_last());
    }
}

/// Standard error is logged whole: after a chunk the log is the old log
/// followed by the chunk, and the task id, playlist flag and exit code are
/// unchanged.
pub proof fn law_stderr_appends_to_log(st: MonitorView, text: Seq<char>)
    ensures
        stderr_chunk_spec(st, text).error_log == st.error_log + text,
        same_identity(stderr_chunk_spec(st, text), st),
{
    lemma_stderr_lines(
        MonitorView { error_log: st.error_log + text, ..st },
        split_on(text, '\n'),
    );
}

/// A failed download is always described by a non-empty text, and its
/// error log is never empty.
pub proof fn law_failure_is_described(st: MonitorView)
    ensures
        error_description(st).len() > 0,
        match trimmed_log(st) {
            Some(l) => l.len() > 0,
            None => error_description(st).len() > 0,
        },
{
    if st.last_error.len() == 0 {
        let t = "Process exited with code "@;
        reveal_strlit("Process exited with code ");
        assert(t.len() > 0);
        assert((t + i32_text(
            match st.exit_code {
                Some(c) => c,
                None => -1i32,
            },
        )).len() >= t.len());
    }
}

/// The exit code of the last `Terminated` event of a sequence, or `init`.
pub open spec fn last_exit(events: Seq<EventView>, init: Option<i32>) -> Option<i32>
    decreases events.len(),
{
    if events.len() == 0 {
        init
    } else {
        match events.last() {
            EventView::Terminated(c) => c,
            _ => last_exit(events.drop_last(), init),
        }
    }
}

proof fn lemma_run_events(st: MonitorView, events: Seq<EventView>)
    ensures
        run_events(st, events).0.task_id == st.task_id,
        run_events(st, events).0.is_playlist == st.is_playlist,
        run_events(st, events).0.exit_code == last_exit(events, st.exit_code),
        forall|i: int|
            0 <= i < run_events(st, events).1.len() ==> running_report(
                st,
                #[trigger] run_events(st, events).1[i],
            ),
    decreases events.len(),
{
    if events.len() > 0 {
        let p = events.drop_last();
        lemma_run_events(st, p);
        let (s1, u1) = run_events(st, p);
        let (s2, u2, _) = event_step(s1, events.last());
        match events.last() {
            EventView::Stdout(t) => {
                law_stdout_keeps_task(s1, t);
            },
            EventView::Stderr(t) => {
                law_stderr_appends_to_log(s1, t);
            },
            _ => {},
        }
        assert forall|i: int| 0 <= i < (u1 + u2).len() implies running_report(
            st,
            #[trigger] (u1 + u2)[i],
        ) by {
            if i < u1.len() {
                assert((u1 + u2)[i] == u1[i]);
            } else {
                assert((u1 + u2)[i] == u2[i - u1.len()]);
            }
        }
    }
}

/// How a watched download ends. Every report sent while it runs is a
/// running report of its task. The exit code is that of the `Terminated`
/// event read, if any. After a cancellation (seen at an event, or found at
/// the end) no closing report follows; otherwise exactly one does:
/// "Completed" with 100 percent when the exit code is 0, and otherwise
/// "Error" with 0 percent, named by the last `ERROR:` line or process
/// error, or else by the exit code.
pub proof fn law_download_ends_once(
    task_id: Seq<char>,
    is_playlist: bool,
    events: Seq<EventView>,
    cancel_at: Option<int>,
    cancelled_at_end: bool,
    file_path: Option<Seq<char>>,
)
    ensures
        ({
            let st0 = DownloadMonitor::new_view(task_id, is_playlist);
            let read = events_read(events, cancel_at);
            let st = run_events(st0, read).0;
            let ups = run_events(st0, read).1;
            let cancelled = cancel_seen(events, cancel_at) || cancelled_at_end;
            &&& forall|i: int| 0 <= i < ups.len() ==> running_report(st0, #[trigger] ups[i])
            &&& st.exit_code == last_exit(read, None)
            &&& cancelled ==> final_report(st, cancelled, file_path) is None
            &&& !cancelled ==> (final_report(st, cancelled, file_path) matches Some(u) && u.task_id
                == task_id && if st.exit_code == Some(0i32) {
                u.status == "Completed"@ && u.percent == "100"@ && u.file_path == file_path
            } else {
                &&& u.status == "Error"@
                &&& u.percent == "0"@
                &&& u.filename == (if st.last_error.len() > 0 {
                    st.last_error
                } else {
                    "Process exited with code "@ + i32_text(
                        match st.exit_code {
                            Some(c) => c,
                            None => -1i32,
                        },
                    )
                })
                &&& u.filename.len() > 0
            })
        }),
{
    let st0 = DownloadMonitor::new_view(task_id, is_playlist);
    let read = events_read(events, cancel_at);
    lemma_run_events(st0, read);
    law_failure_is_described(run_events(st0, read).0);
}

/// A post-processing line of standard output (one that mentions
/// `[Merger]`, `[ExtractAudio]`, `[VideoConvertor]` or `[Fixup` and is not a
/// progress line) yields one report for the task, "Processing/GPU" at 100
/// percent; when it names a destination file, that file's cleaned name
/// becomes the final file name and the name reported.
pub proof fn law_postprocessing_line_reports(st: MonitorView, line: Seq<char>)
    requires
        !starts_with(line, "download-progress:"@),
        contains(line, "[Merger]"@) || contains(line, "[ExtractAudio]"@) || contains(
            line,
            "[VideoConvertor]"@,
        ) || contains(line, "[Fixup"@),
    ensures
        stdout_line_spec(st, line).1 matches Some(u) && u.status == "Processing/GPU"@ && u.percent
            == "100"@ && u.task_id == st.task_id && u.speed == "N/A"@ && u.eta == "N/A"@,
        destination_filename_spec(line) matches Some(c) ==> stdout_line_spec(st, line).0.final_filename
            == c && stdout_line_spec(st, line).1->0.filename == c,
{
}

/// On standard error, a `[Merger]` or `[ExtractAudio]` line (that is not an
/// `ERROR:` line) that names a destination file makes that file's cleaned
/// name the final file name; an `ERROR:` line becomes the last error.
pub proof fn law_stderr_line_effects(st: MonitorView, line: Seq<char>)
    ensures
        starts_with(line, "ERROR:"@) ==> stderr_line_spec(st, line).last_error == line,
        forall|c: Seq<char>|
            !starts_with(line, "ERROR:"@) && (contains(line, "[Merger]"@) || contains(
                line,
                "[ExtractAudio]"@,
            )) && destination_filename_spec(line) == Some(c) ==> stderr_line_spec(
                st,
                line,
            ).final_filename == c,
        !starts_with(line, "ERROR:"@) ==> stderr_line_spec(st, line).last_error == st.last_error,
{
}

pub(crate) proof fn lemma_find_char(s: Seq<char>, c: char)
    ensures
        crate::text::find(s, seq![c]) matches Some(k) ==> 0 <= k < s.len() && s[k] == c && forall|
            j: int,
        | 0 <= j < k ==> s[j] != c,
        crate::text::find(s, seq![c]) is None ==> forall|j: int| 0 <= j < s.len() ==> s[j] != c,
{
    crate::text::lemma_find_from_spec(s, seq![c], 0);
    assert forall|j: int| 0 <= j < s.len() implies (s[j] == c <==> crate::text::match_at(
        s,
        seq![c],
        j,
    )) by {
        if s[j] == c {
            assert(s.subrange(j, j + 1) =~= seq![c]);
        }
        if crate::text::match_at(s, seq![c], j) {
            assert(s.subrange(j, j + 1)[0] == s[j]);
        }
    }
    if let Some(k) = crate::text::find(s, seq![c]) {
        assert(s.subrange(k, k + 1)[0] == s[k]);
    }
}

proof fn lemma_split_prefix(x: Seq<char>, r: Seq<char>, c: char)
    requires
        forall|i: int| 0 <= i < x.len() ==> x[i] != c,
    ensures
        split_on(x + seq![c] + r, c) == seq![x] + split_on(r, c),
{
    let s = x + seq![c] + r;
    lemma_find_char(s, c);
    assert(s[x.len() as int] == c);
    match crate::text::find(s, seq![c]) {
        Some(k) => {
            if k < x.len() {
                assert(s[k] == x[k]);
            }
            if k > x.len() {
                assert(s[x.len() as int] != c);
            }
            assert(k == x.len());
            assert(s.take(k) =~= x);
            assert(s.skip(k + 1) =~= r);
        },
        None => {
            assert(s[x.len() as int] != c);
        },
    }
}

proof fn lemma_split_nonempty(s: Seq<char>, c: char)
    ensures
        split_on(s, c).len() >= 1,
{
}

proof fn lemma_join_cons(a: Seq<char>, rest: Seq<Seq<char>>, sep: Seq<char>)
    requires
        rest.len() >= 1,
    ensures
        join_with(seq![a] + rest, sep) == a + sep + join_with(rest, sep),
    decreases rest.len(),
{
    let l = seq![a] + rest;
    if rest.len() == 1 {
        assert(l.drop_last() =~= seq![a]);
        assert(l.last() == rest[0]);
        assert(join_with(seq![a], sep) == a);
        assert(join_with(rest, sep) == rest[0]);
        assert(join_with(l, sep) == join_with(l.drop_last(), sep) + sep + l.last());
    } else {
        assert(join_with(rest, sep) == join_with(rest.drop_last(), sep) + sep + rest.last());
        assert(join_with(l, sep) == join_with(l.drop_last(), sep) + sep + l.last());
        assert(l.drop_last() =~= seq![a] + rest.drop_last());
        lemma_join_cons(a, rest.drop_last(), sep);
        assert(l.last() == rest.last());
        assert(a + sep + join_with(rest.drop_last(), sep) + sep + rest.last() =~= a + sep + (
        join_with(rest.drop_last(), sep) + sep + rest.last()));
    }
}

proof fn lemma_join_split(f: Seq<char>, c: char)
    ensures
        join_with(split_on(f, c), seq![c]) == f,
    decreases f.len(),
{
    lemma_find_char(f, c);
    match crate::text::find(f, seq![c]) {
        Some(i) => {
            let rest = split_on(f.skip(i + 1), c);
            lemma_split_nonempty(f.skip(i + 1), c);
            lemma_join_split(f.skip(i + 1), c);
            lemma_join_cons(f.take(i), rest, seq![c]);
            assert(f.take(i) + seq![c] + f.skip(i + 1) =~= f);
        },
        None => {
            assert(seq![f].len() == 1);
        },
    }
}

/// A structured progress line `download-progress:<percent>|<speed>|<eta>|<file>`
/// (the first three fields without `|`) yields a "Downloading" report for
/// the task with the trimmed percentage (its `%` removed), speed and time
/// left; when the file field is not blank, it becomes the current file and
/// its cleaned name the final name and the name reported.
pub proof fn law_progress_line_reports(
    st: MonitorView,
    pct: Seq<char>,
    speed: Seq<char>,
    eta: Seq<char>,
    file: Seq<char>,
)
    requires
        forall|i: int| 0 <= i < pct.len() ==> pct[i] != '|',
        forall|i: int| 0 <= i < speed.len() ==> speed[i] != '|',
        forall|i: int| 0 <= i < eta.len() ==> eta[i] != '|',
    ensures
        ({
            let line = "download-progress:"@ + pct + seq!['|'] + speed + seq!['|'] + eta + seq!['|']
                + file;
            let (st2, r) = stdout_line_spec(st, line);
            &&& r matches Some(u) && u.status == "Downloading"@ && u.task_id == st.task_id
                && u.percent == trim_end_char(trim(pct), '%') && u.speed == trim(speed) && u.eta
                == trim(eta) && u.error_log is None && u.file_path is None
            &&& trim(file).len() > 0 ==> st2.current_filename == trim(file) && st2.final_filename
                == clean_filename_spec(trim(file)) && r->0.filename == clean_filename_spec(trim(file))
        }),
{
    reveal_strlit("|");
    let m = "download-progress:"@;
    let line = m + pct + seq!['|'] + speed + seq!['|'] + eta + seq!['|'] + file;
    let body = pct + seq!['|'] + speed + seq!['|'] + eta + seq!['|'] + file;
    assert(line =~= m + body);
    assert(line.take(m.len() as int) =~= m);
    assert(line.skip(m.len() as int) =~= body);
    let r2 = speed + seq!['|'] + eta + seq!['|'] + file;
    let r3 = eta + seq!['|'] + file;
    assert(body =~= pct + seq!['|'] + r2);
    assert(r2 =~= speed + seq!['|'] + r3);
    assert(r3 =~= eta + seq!['|'] + file);
    lemma_split_prefix(pct, r2, '|');
    lemma_split_prefix(speed, r3, '|');
    lemma_split_prefix(eta, file, '|');
    lemma_split_nonempty(file, '|');
    let parts = split_on(body, '|');
    assert(parts =~= seq![pct, speed, eta] + split_on(file, '|'));
    assert(parts.skip(3) =~= split_on(file, '|'));
    lemma_join_split(file, '|');
    assert("|"@ =~= seq!['|']);
}

/// Every line of output updates what the monitor knows the same way: a
/// playlist position that the line announces becomes the current one, and
/// a destination path that it announces becomes the detected file, once
/// cleaned, unless it is a partial (`.part`) or temporary (`.temp`) file.
pub proof fn law_line_updates_position_and_path(st: MonitorView, line: Seq<char>)
    ensures
        forall|i: u32, t: u32|
            progress_from_groups(regex_captures_of(playlist_pattern(), line)) == Some((i, t)) ==> {
                &&& stdout_line_spec(st, line).0.playlist_index == Some(i)
                &&& stdout_line_spec(st, line).0.playlist_total == Some(t)
                &&& stderr_line_spec(st, line).playlist_index == Some(i)
                &&& stderr_line_spec(st, line).playlist_total == Some(t)
            },
        progress_from_groups(regex_captures_of(playlist_pattern(), line)) is None ==> {
            &&& stdout_line_spec(st, line).0.playlist_index == st.playlist_index
            &&& stderr_line_spec(st, line).playlist_index == st.playlist_index
        },
        forall|raw: Seq<char>|
            destination_filepath_spec(line) == Some(raw) && clean_filepath_spec(raw).len() > 0
                && !ends_with(clean_filepath_spec(raw), ".part"@) && !ends_with(
                clean_filepath_spec(raw),
                ".temp"@,
            ) ==> stdout_line_spec(st, line).0.detected_filepath == clean_filepath_spec(raw)
                && stderr_line_spec(st, line).detected_filepath == clean_filepath_spec(raw),
{
}

/// A `[download] Destination:` line of standard output (not a progress or
/// post-processing line) sends no report; it makes the cleaned destination
/// name the final name unless that name still looks intermediate
/// (holding `.f`, or ending in `.temp` or `.part`).
pub proof fn law_destination_line(st: MonitorView, line: Seq<char>)
    requires
        starts_with(line, "[download] Destination:"@),
        !starts_with(line, "download-progress:"@),
        !(contains(line, "[Merger]"@) || contains(line, "[ExtractAudio]"@) || contains(
            line,
            "[VideoConvertor]"@,
        ) || contains(line, "[Fixup"@)),
    ensures
        stdout_line_spec(st, line).1 is None,
        forall|c: Seq<char>|
            destination_filename_spec(line) == Some(c) && !contains(c, ".f"@) && !ends_with(
                c,
                ".temp"@,
            ) && !ends_with(c, ".part"@) ==> stdout_line_spec(st, line).0.final_filename == c,
        forall|c: Seq<char>|
            destination_filename_spec(line) == Some(c) && (contains(c, ".f"@) || ends_with(
                c,
                ".temp"@,
            ) || ends_with(c, ".part"@)) ==> stdout_line_spec(st, line).0.final_filename
                == st.final_filename,
{
}

} // verus!
