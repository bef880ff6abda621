//! Path strings under Windows conventions: both `/` and `\` separate
//! components, an optional drive prefix (`C:`) may start a path, and
//! extended-length prefixes (`\\?\`, `\\?\UNC\`) may be stripped.
use vstd::prelude::*;
use crate::text::{
    ascii_alpha, chars_of, concat, has_prefix, is_ascii_alpha, lemma_rfind_upto_spec, push_all,
    replace_ch, replace_char, rfind, rfind_seq, slice_range, starts_with, string_of, trim,
    trim_end_ch, trim_end_char, trim_ws,
};

verus! {

pub open spec fn is_sep(c: char) -> bool {
    c == '/' || c == '\\'
}

/// Index of the last separator of `s`.
pub open spec fn last_sep(s: Seq<char>) -> Option<int>
    decreases s.len(),
{
    if s.len() == 0 {
        None
    } else if is_sep(s.last()) {
        Some(s.len() - 1)
    } else {
        last_sep(s.drop_last())
    }
}

/// A drive prefix such as `C:` at the start of `t`.
pub open spec fn has_drive(t: Seq<char>) -> bool {
    t.len() >= 2 && t[1] == ':' && is_ascii_alpha(t[0])
}

/// The path without what ends it but names no component: trailing
/// separators and trailing `.` components (`a/./` reads as `a`).
pub open spec fn trimmed_path(s: Seq<char>) -> Seq<char>
    decreases s.len(),
{
    if s.len() > 0 && is_sep(s.last()) {
        trimmed_path(s.drop_last())
    } else if s.len() >= 2 && s.last() == '.' && is_sep(s[s.len() - 2]) {
        trimmed_path(s.drop_last())
    } else {
        s
    }
}

/// The end of the path component that starts at `j`: the next separator
/// at or after `j`, or the end of `s`.
pub open spec fn comp_end(s: Seq<char>, j: int) -> int
    decreases s.len() - j,
{
    if j < 0 || j >= s.len() || is_sep(s[j]) {
        j
    } else {
        comp_end(s, j + 1)
    }
}

/// The end of the two components that start at `j` (a server and a share).
pub open spec fn two_comps_end(s: Seq<char>, j: int) -> int {
    let a = comp_end(s, j);
    if a < s.len() {
        comp_end(s, a + 1)
    } else {
        a
    }
}

/// Length of the Windows prefix that starts `s`: a drive `C:`, a UNC
/// prefix `\\server\share`, a device or verbatim prefix such as `\\.\COM1`
/// or `\\?\C:`, or a verbatim UNC prefix `\\?\UNC\server\share`; 0 when
/// there is none.
pub open spec fn prefix_len(s: Seq<char>) -> int {
    if s.len() >= 2 && is_sep(s[0]) && is_sep(s[1]) {
        if starts_with(s, unc_prefix()) {
            two_comps_end(s, 8)
        } else {
            two_comps_end(s, 2)
        }
    } else if has_drive(s) {
        2
    } else {
        0
    }
}

/// The last component of a path, as written; empty when the path is only
/// a prefix and a root, or empty.
pub open spec fn final_segment(s: Seq<char>) -> Seq<char> {
    let t = trimmed_path(s);
    let p = prefix_len(t);
    match last_sep(t) {
        Some(i) => if i >= p {
            t.skip(i + 1)
        } else {
            t.skip(p)
        },
        None => t.skip(p),
    }
}

/// Everything of a path before its last component, as written (ending with
/// a separator, or the prefix, or empty).
pub open spec fn dir_part(s: Seq<char>) -> Seq<char> {
    let t = trimmed_path(s);
    let p = prefix_len(t);
    match last_sep(t) {
        Some(i) => if i >= p {
            t.take(i + 1)
        } else {
            t.take(p)
        },
        None => t.take(p),
    }
}

/// `Path::parent`: none for a path without a last component; otherwise the
/// part before it, without trailing separators unless they are the root
/// (`C:/a/b` has parent `C:/a`, `C:/b` has `C:/`, `b` has the empty path).
pub open spec fn parent_text(s: Seq<char>) -> Option<Seq<char>> {
    if final_segment(s).len() == 0 {
        None
    } else {
        let d = dir_part(s);
        let p = prefix_len(trimmed_path(s));
        let q = trimmed_path(d);
        Some(
            if q.len() > p {
                q
            } else if d.len() <= p + 1 {
                d
            } else {
                d.take(p + 1)
            },
        )
    }
}

/// `PathBuf::join` under Windows rules: a name with a prefix replaces the
/// path, a name with a root keeps only the path's prefix, and otherwise the
/// name is appended after a `\\` unless the path is empty, ends with a
/// separator or is a bare drive.
pub open spec fn join_path(parent: Seq<char>, name: Seq<char>) -> Seq<char> {
    if has_drive(name) || (name.len() >= 2 && is_sep(name[0]) && is_sep(name[1])) {
        name
    } else if name.len() > 0 && is_sep(name[0]) {
        parent.take(prefix_len(parent)) + name
    } else if parent.len() == 0 || is_sep(parent.last()) || (parent.len() == 2 && has_drive(
        parent,
    )) {
        parent + name
    } else {
        parent + seq!['\\'] + name
    }
}

/// `Path::file_name`: the last component, unless it is empty, `.` or `..`.
pub open spec fn file_name(s: Seq<char>) -> Option<Seq<char>> {
    let seg = final_segment(s);
    if seg.len() == 0 || seg == seq!['.'] || seg == seq!['.', '.'] {
        None
    } else {
        Some(seg)
    }
}

/// Index of the dot that separates stem and extension of a file name:
/// the last dot, unless it is the first character or the name is `..`.
pub open spec fn ext_dot(name: Seq<char>) -> Option<int> {
    if name == seq!['.', '.'] {
        None
    } else {
        match rfind(name, seq!['.']) {
            Some(i) => if i == 0 {
                None
            } else {
                Some(i)
            },
            None => None,
        }
    }
}

/// `file_stem` of a file name.
pub open spec fn stem_of(name: Seq<char>) -> Seq<char> {
    match ext_dot(name) {
        Some(i) => name.take(i),
        None => name,
    }
}

/// `extension` of a file name.
pub open spec fn extension_of(name: Seq<char>) -> Option<Seq<char>> {
    match ext_dot(name) {
        Some(i) => Some(name.skip(i + 1)),
        None => None,
    }
}

/// `Path::extension`.
pub open spec fn path_extension(s: Seq<char>) -> Option<Seq<char>> {
    match file_name(s) {
        Some(n) => extension_of(n),
        None => None,
    }
}

pub open spec fn unc_prefix() -> Seq<char> {
    seq!['\\', '\\', '?', '\\', 'U', 'N', 'C', '\\']
}

pub open spec fn verbatim_prefix() -> Seq<char> {
    seq!['\\', '\\', '?', '\\']
}

/// Removes a Windows extended-length prefix: `\\?\UNC\server\x` becomes
/// `\\server\x` and `\\?\C:\x` becomes `C:\x`.
pub open spec fn strip_extended_prefix_spec(s: Seq<char>) -> Seq<char> {
    if starts_with(s, unc_prefix()) {
        seq!['\\', '\\'] + s.skip(8)
    } else if starts_with(s, verbatim_prefix()) {
        s.skip(4)
    } else {
        s
    }
}

/// A save directory as handed to yt-dlp: prefix stripped, backslashes
/// turned into forward slashes, trailing slashes removed.
pub open spec fn normalized_dir_spec(s: Seq<char>) -> Seq<char> {
    trim_end_char(replace_char(strip_extended_prefix_spec(s), '\\', '/'), '/')
}

pub proof fn lemma_last_sep(s: Seq<char>)
    ensures
        last_sep(s) matches Some(i) ==> 0 <= i < s.len() && is_sep(s[i]) && forall|j: int|
            i < j < s.len() ==> !is_sep(#[trigger] s[j]),
        last_sep(s) is None ==> forall|j: int| 0 <= j < s.len() ==> !is_sep(#[trigger] s[j]),
    decreases s.len(),
{
    if s.len() > 0 && !is_sep(s.last()) {
        lemma_last_sep(s.drop_last());
        assert forall|j: int| 0 <= j < s.len() - 1 implies s[j] == s.drop_last()[j] by {}
    }
}

pub proof fn lemma_ext_dot(name: Seq<char>)
    ensures
        ext_dot(name) matches Some(i) ==> 0 < i < name.len() && name[i] == '.',
{
    lemma_rfind_upto_spec(name, seq!['.'], name.len() - 1);
    if let Some(i) = rfind(name, seq!['.']) {
        assert(name.subrange(i, i + 1)[0] == name[i]);
    }
}

// ---------------------------------------------------------------------------
// Executable counterparts
// ---------------------------------------------------------------------------

pub fn is_separator(c: char) -> (r: bool)
    ensures
        r == is_sep(c),
{
    c == '/' || c == '\\'
}

pub fn last_sep_index(s: &[char]) -> (r: Option<usize>)
    ensures
        r matches Some(i) ==> last_sep(s@) == Some(i as int),
        r is None ==> last_sep(s@) is None,
{
    let mut k: usize = s.len();
    assert(s@.take(k as int) =~= s@);
    while k > 0
        invariant
            k <= s.len(),
            last_sep(s@) == last_sep(s@.take(k as int)),
        decreases k,
    {
        if is_separator(s[k - 1]) {
            return Some(k - 1);
        }
        assert(s@.take(k as int).drop_last() =~= s@.take(k - 1));
        k -= 1;
    }
    None
}

pub fn trim_path_end(s: &[char]) -> (r: Vec<char>)
    ensures
        r@ == trimmed_path(s@),
{
    let mut k: usize = s.len();
    assert(s@.take(k as int) =~= s@);
    while k > 0 && (is_separator(s[k - 1]) || (k >= 2 && s[k - 1] == '.' && is_separator(
        s[k - 2],
    )))
        invariant
            k <= s.len(),
            trimmed_path(s@) == trimmed_path(s@.take(k as int)),
        decreases k,
    {
        assert(s@.take(k as int).drop_last() =~= s@.take(k - 1));
        k -= 1;
    }
    slice_range(s, 0, k)
}

pub proof fn lemma_comp_end(s: Seq<char>, j: int)
    requires
        0 <= j <= s.len(),
    ensures
        j <= comp_end(s, j) <= s.len(),
    decreases s.len() - j,
{
    if j < s.len() && !is_sep(s[j]) {
        lemma_comp_end(s, j + 1);
    }
}

fn comp_end_of(s: &[char], j: usize) -> (r: usize)
    requires
        j <= s.len(),
    ensures
        r as int == comp_end(s@, j as int),
        j <= r <= s.len(),
{
    let mut k = j;
    while k < s.len() && !is_separator(s[k])
        invariant
            j <= k <= s.len(),
            comp_end(s@, k as int) == comp_end(s@, j as int),
        decreases s.len() - k,
    {
        k += 1;
    }
    k
}

fn two_comps_end_of(s: &[char], j: usize) -> (r: usize)
    requires
        j <= s.len(),
    ensures
        r as int == two_comps_end(s@, j as int),
        j <= r <= s.len(),
{
    let a = comp_end_of(s, j);
    if a < s.len() {
        comp_end_of(s, a + 1)
    } else {
        a
    }
}

fn drive_at_start(t: &[char]) -> (r: bool)
    ensures
        r == has_drive(t@),
{
    t.len() >= 2 && t[1] == ':' && ascii_alpha(t[0])
}

/// Length of the Windows prefix of a path.
pub fn prefix_len_of(s: &[char]) -> (r: usize)
    ensures
        r as int == prefix_len(s@),
        r <= s.len(),
{
    if s.len() >= 2 && is_separator(s[0]) && is_separator(s[1]) {
        let unc = vec!['\\', '\\', '?', '\\', 'U', 'N', 'C', '\\'];
        assert(unc@ =~= unc_prefix());
        if has_prefix(s, &unc) {
            two_comps_end_of(s, 8)
        } else {
            two_comps_end_of(s, 2)
        }
    } else if drive_at_start(s) {
        2
    } else {
        0
    }
}

/// The last component of a path.
pub fn final_segment_of(s: &[char]) -> (r: Vec<char>)
    ensures
        r@ == final_segment(s@),
{
    let t = trim_path_end(s);
    let n = t.len();
    let p = prefix_len_of(&t);
    proof {
        lemma_last_sep(t@);
    }
    match last_sep_index(&t) {
        Some(i) => {
            assert(i < n);
            if i >= p {
                slice_range(&t, i + 1, n)
            } else {
                slice_range(&t, p, n)
            }
        },
        None => slice_range(&t, p, n),
    }
}

/// The directory part of a path, as written.
pub fn dir_part_of(s: &[char]) -> (r: Vec<char>)
    ensures
        r@ == dir_part(s@),
{
    let t = trim_path_end(s);
    let n = t.len();
    let p = prefix_len_of(&t);
    proof {
        lemma_last_sep(t@);
    }
    match last_sep_index(&t) {
        Some(i) => {
            assert(i < n);
            if i >= p {
                slice_range(&t, 0, i + 1)
            } else {
                slice_range(&t, 0, p)
            }
        },
        None => slice_range(&t, 0, p),
    }
}

/// `Path::parent`.
pub fn parent_of(s: &[char]) -> (r: Option<Vec<char>>)
    ensures
        match r {
            Some(v) => parent_text(s@) == Some(v@),
            None => parent_text(s@) is None,
        },
{
    let seg = final_segment_of(s);
    if seg.len() == 0 {
        return None;
    }
    let d = dir_part_of(s);
    let t = trim_path_end(s);
    let p = prefix_len_of(&t);
    let q = trim_path_end(&d);
    if q.len() > p {
        Some(q)
    } else if d.len() <= p || d.len() - p <= 1 {
        Some(d)
    } else {
        Some(slice_range(&d, 0, p + 1))
    }
}

/// `PathBuf::join` under Windows rules.
pub fn join_path_of(parent: &[char], name: &[char]) -> (r: Vec<char>)
    ensures
        r@ == join_path(parent@, name@),
{
    if drive_at_start(name) || (name.len() >= 2 && is_separator(name[0]) && is_separator(
        name[1],
    )) {
        let mut r: Vec<char> = Vec::new();
        push_all(&mut r, name);
        assert(r@ =~= name@);
        r
    } else if name.len() > 0 && is_separator(name[0]) {
        let pl = prefix_len_of(parent);
        let head = slice_range(parent, 0, pl);
        concat(&head, name)
    } else if parent.len() == 0 || is_separator(parent[parent.len() - 1]) || (parent.len() == 2
        && drive_at_start(parent)) {
        concat(parent, name)
    } else {
        let mut r: Vec<char> = Vec::new();
        push_all(&mut r, parent);
        r.push('\\');
        push_all(&mut r, name);
        assert(r@ =~= parent@ + seq!['\\'] + name@);
        r
    }
}

/// `Path::file_name`.
pub fn file_name_of(s: &[char]) -> (r: Option<Vec<char>>)
    ensures
        r matches Some(v) ==> file_name(s@) == Some(v@),
        r is None ==> file_name(s@) is None,
{
    let seg = final_segment_of(s);
    if seg.len() == 0 || (seg.len() == 1 && seg[0] == '.') || (seg.len() == 2 && seg[0] == '.'
        && seg[1] == '.') {
        proof {
            if seg.len() == 1 {
                assert(seg@ =~= seq!['.']);
            }
            if seg.len() == 2 {
                assert(seg@ =~= seq!['.', '.']);
            }
        }
        None
    } else {
        proof {
            if seg@ == seq!['.'] {
                assert(seg@[0] == '.');
            }
            if seg@ == seq!['.', '.'] {
                assert(seg@[0] == '.' && seg@[1] == '.');
            }
        }
        Some(seg)
    }
}

fn ext_dot_of(name: &[char]) -> (r: Option<usize>)
    ensures
        r matches Some(i) ==> ext_dot(name@) == Some(i as int),
        r is None ==> ext_dot(name@) is None,
{
    if name.len() == 2 && name[0] == '.' && name[1] == '.' {
        assert(name@ =~= seq!['.', '.']);
        return None;
    }
    proof {
        if name@ == seq!['.', '.'] {
            assert(name@[0] == '.' && name@[1] == '.');
        }
    }
    let dot = vec!['.'];
    assert(dot@ =~= seq!['.']);
    match rfind_seq(name, &dot) {
        Some(i) => if i == 0 {
            None
        } else {
            Some(i)
        },
        None => None,
    }
}

/// `file_stem` of a file name.
pub fn stem(name: &[char]) -> (r: Vec<char>)
    ensures
        r@ == stem_of(name@),
{
    match ext_dot_of(name) {
        Some(i) => {
            proof {
                lemma_ext_dot(name@);
            }
            slice_range(name, 0, i)
        },
        None => {
            let mut r: Vec<char> = Vec::new();
            push_all(&mut r, name);
            assert(r@ =~= name@);
            r
        },
    }
}

/// `extension` of a file name.
pub fn extension(name: &[char]) -> (r: Option<Vec<char>>)
    ensures
        r matches Some(v) ==> extension_of(name@) == Some(v@),
        r is None ==> extension_of(name@) is None,
{
    match ext_dot_of(name) {
        Some(i) => {
            proof {
                lemma_ext_dot(name@);
            }
            let n = name.len();
            assert(i < n);
            Some(slice_range(name, i + 1, n))
        },
        None => None,
    }
}

/// `Path::extension`.
pub fn path_extension_of(s: &[char]) -> (r: Option<Vec<char>>)
    ensures
        r matches Some(v) ==> path_extension(s@) == Some(v@),
        r is None ==> path_extension(s@) is None,
{
    match file_name_of(s) {
        Some(n) => extension(&n),
        None => None,
    }
}

/// Removes a Windows extended-length path prefix.
pub fn strip_extended_prefix(s: &[char]) -> (r: Vec<char>)
    ensures
        r@ == strip_extended_prefix_spec(s@),
{
    let unc = vec!['\\', '\\', '?', '\\', 'U', 'N', 'C', '\\'];
    let verbatim = vec!['\\', '\\', '?', '\\'];
    assert(unc@ =~= unc_prefix());
    assert(verbatim@ =~= verbatim_prefix());
    if has_prefix(s, &unc) {
        let rest = slice_range(s, 8, s.len());
        assert(rest@ =~= s@.skip(8));
        let head = vec!['\\', '\\'];
        concat(&head, &rest)
    } else if has_prefix(s, &verbatim) {
        let rest = slice_range(s, 4, s.len());
        assert(rest@ =~= s@.skip(4));
        rest
    } else {
        let mut r: Vec<char> = Vec::new();
        push_all(&mut r, s);
        assert(r@ =~= s@);
        r
    }
}

/// A directory path prepared for the command line: extended-length
/// prefix stripped, `\` turned into `/`, trailing `/` removed.
pub fn normalize_dir(s: &str) -> (r: String)
    ensures
        r@ == normalized_dir_spec(s@),
{
    let v = chars_of(s);
    let a = strip_extended_prefix(&v);
    let b = replace_ch(&a, '\\', '/');
    let c = trim_end_ch(&b, '/');
    string_of(&c)
}

/// The save directory of a request: the given path, trimmed, unless it is
/// blank; else the user's download folder; else `.`.
pub open spec fn save_target_spec(save_path: Option<Seq<char>>, download_dir: Option<Seq<char>>) -> Seq<
    char,
> {
    match save_path {
        Some(s) if trim(s).len() > 0 => trim(s),
        _ => match download_dir {
            Some(d) => d,
            None => "."@,
        },
    }
}

/// Chooses the save directory of a request and prepares it for the command
/// line: returns the directory and its normalized form. `download_dir` is
/// the user's download folder, where it could be determined.
pub fn resolve_safe_save_path(save_path: Option<&str>, download_dir: Option<String>) -> (r: (
    String,
    String,
))
    ensures
        r.0@ == save_target_spec(
            match save_path {
                Some(s) => Some(s@),
                None => None,
            },
            match download_dir {
                Some(d) => Some(d@),
                None => None,
            },
        ),
        r.1@ == normalized_dir_spec(r.0@),
{
    let given = match save_path {
        Some(s) => {
            let v = chars_of(s);
            let t = trim_ws(&v);
            if t.len() > 0 {
                Some(string_of(&t))
            } else {
                None
            }
        },
        None => None,
    };
    let target = match given {
        Some(t) => t,
        None => match download_dir {
            Some(d) => d,
            None => String::from_str("."),
        },
    };
    let clean = normalize_dir(target.as_str());
    (target, clean)
}

/// A normalized directory has no backslash and no trailing `/`, and normalizing
/// it again changes nothing.
pub proof fn law_normalized_dir_clean(s: Seq<char>)
    ensures
        forall|i: int| 0 <= i < normalized_dir_spec(s).len() ==> #[trigger] normalized_dir_spec(s)[i]
            != '\\',
        normalized_dir_spec(s).len() > 0 ==> normalized_dir_spec(s).last() != '/',
        normalized_dir_spec(normalized_dir_spec(s)) == normalized_dir_spec(s),
{
    let b = replace_char(strip_extended_prefix_spec(s), '\\', '/');
    let c = normalized_dir_spec(s);
    crate::text::lemma_strip_end_prefix(b, crate::text::char_pred('/'));
    assert forall|i: int| 0 <= i < c.len() implies #[trigger] c[i] != '\\' by {
        assert(c[i] == b[i]);
    }
    if starts_with(c, unc_prefix()) {
        assert(c[0] == unc_prefix()[0]);
    }
    if starts_with(c, verbatim_prefix()) {
        assert(c[0] == verbatim_prefix()[0]);
    }
    assert(strip_extended_prefix_spec(c) == c);
    assert(replace_char(c, '\\', '/') =~= c);
    assert(trim_end_char(c, '/') == c);
}

/// Extended-length prefixes are removed: `\\?\UNC\server\x` becomes
/// `\\server\x`, `\\?\C:\x` becomes `C:\x`, and other paths are kept.
pub proof fn law_extended_prefix_removed(rest: Seq<char>, other: Seq<char>)
    ensures
        strip_extended_prefix_spec(seq!['\\', '\\', '?', '\\', 'U', 'N', 'C', '\\'] + rest)
            == seq!['\\', '\\'] + rest,
        !starts_with(rest, seq!['U', 'N', 'C', '\\']) ==> strip_extended_prefix_spec(
            seq!['\\', '\\', '?', '\\'] + rest,
        ) == rest,
        !starts_with(other, seq!['\\', '\\', '?', '\\']) ==> strip_extended_prefix_spec(other)
            == other,
{
    let u = seq!['\\', '\\', '?', '\\', 'U', 'N', 'C', '\\'] + rest;
    assert(u.take(8) =~= unc_prefix());
    assert(u.skip(8) =~= rest);
    let v = seq!['\\', '\\', '?', '\\'] + rest;
    assert(v.take(4) =~= verbatim_prefix());
    assert(v.skip(4) =~= rest);
    if starts_with(v, unc_prefix()) {
        assert(rest.take(4) =~= v.take(8).skip(4));
        assert(v.take(8).skip(4) =~= seq!['U', 'N', 'C', '\\']);
    }
    if starts_with(other, unc_prefix()) {
        assert(other.take(4) =~= unc_prefix().take(4));
        assert(unc_prefix().take(4) =~= seq!['\\', '\\', '?', '\\']);
    }
}

/// The save directory chosen: the given path, trimmed, when it is not
/// blank; otherwise the download folder when known; otherwise `.`.
pub proof fn law_save_target(save_path: Option<Seq<char>>, download_dir: Option<Seq<char>>)
    ensures
        forall|s: Seq<char>|
            save_path == Some(s) && trim(s).len() > 0 ==> save_target_spec(save_path, download_dir)
                == trim(s),
        (save_path is None || trim(save_path->0).len() == 0) ==> save_target_spec(
            save_path,
            download_dir,
        ) == match download_dir {
            Some(d) => d,
            None => "."@,
        },
{
}

} // verus!
