//! Playlist progress parsing, natural ("human") ordering of track names,
//! and the selection of playlist media files.
use vstd::prelude::*;
use vstd::multiset::Multiset;
use crate::args::{clean_filename, clean_filename_spec, opt_view};
use crate::models::PlaylistItem;
use crate::numbers::{digit_value, digits_value, parse_digits, parse_u32, parse_unsigned};
use crate::paths::{
    file_name, file_name_of, path_extension, path_extension_of, stem, stem_of,
};
use crate::text::{
    all_ascii_digits, ascii_alpha, ascii_digit, ascii_lower, chars_of, contains, contains_seq,
    ends_with, eq_str, has_suffix, is_ascii_alpha, is_ascii_digit, is_ascii_upper, lower_seq,
    lowercase, replace_ch, replace_char, string_of, trim, trim_end_ch, trim_end_char, trim_ws,
};

verus! {

broadcast use vstd::seq_lib::group_to_multiset_ensures;

// ---------------------------------------------------------------------------
// Playlist progress lines
// ---------------------------------------------------------------------------

/// The capture groups (group 0 being the whole match) of the leftmost-first
/// match of the regular expression `pattern` in `haystack`, as the regex
/// crate reports them; None when the pattern does not compile or nothing
/// matches.
pub uninterp spec fn regex_captures_of(pattern: Seq<char>, haystack: Seq<char>) -> Option<
    Seq<Option<Seq<char>>>,
>;

pub open spec fn groups_view(g: Seq<Option<String>>) -> Seq<Option<Seq<char>>> {
    g.map_values(|o: Option<String>| opt_view(o))
}

pub open spec fn captures_view(c: Option<Vec<Option<String>>>) -> Option<Seq<Option<Seq<char>>>> {
    match c {
        Some(v) => Some(groups_view(v@)),
        None => None,
    }
}

/// `regex::Regex::new(pattern)` followed by `Regex::captures(haystack)`:
/// the capture groups of the leftmost-first match, each as its text.
/// Which match the regex engine reports is named, not stated.
#[verifier::external_body]
fn regex_captures(pattern: &str, haystack: &str) -> (r: Option<Vec<Option<String>>>)
    ensures
        captures_view(r) == regex_captures_of(pattern@, haystack@),
{
    let re = regex::Regex::new(pattern).ok()?;
    let caps = re.captures(haystack)?;
    Some(caps.iter().map(|m| m.map(|m| m.as_str().to_string())).collect())
}

/// The pattern of yt-dlp's playlist progress lines.
pub open spec fn playlist_pattern() -> Seq<char> {
    "Downloading (?:video|item) (\\d+) of (\\d+)"@
}

/// Index and total read from capture groups 1 and 2, when both are present
/// and parse as `u32`.
pub open spec fn progress_from_groups(c: Option<Seq<Option<Seq<char>>>>) -> Option<(u32, u32)> {
    match c {
        Some(g) => if g.len() > 2 && g[1] is Some && g[2] is Some {
            match (
                parse_unsigned(g[1]->0, u32::MAX as nat),
                parse_unsigned(g[2]->0, u32::MAX as nat),
            ) {
                (Some(a), Some(b)) => Some((a as u32, b as u32)),
                _ => None,
            }
        } else {
            None
        },
        None => None,
    }
}

/// Reads "index of total" from the capture groups of a progress line match.
pub fn playlist_progress_from_captures(caps: Option<Vec<Option<String>>>) -> (r: Option<(u32, u32)>)
    ensures
        r == progress_from_groups(captures_view(caps)),
{
    match caps {
        Some(g) => {
            if g.len() > 2 {
                match (&g[1], &g[2]) {
                    (Some(a), Some(b)) => {
                        let av = chars_of(a.as_str());
                        let bv = chars_of(b.as_str());
                        match (parse_u32(&av), parse_u32(&bv)) {
                            (Some(x), Some(y)) => Some((x, y)),
                            _ => None,
                        }
                    },
                    _ => None,
                }
            } else {
                None
            }
        },
        None => None,
    }
}

/// Parses playlist progress from yt-dlp log lines such as
/// `[download] Downloading video 1 of 15` or `Downloading item 3 of 10`.
pub fn parse_playlist_progress(line: &str) -> (r: Option<(u32, u32)>)
    ensures
        r == progress_from_groups(regex_captures_of(playlist_pattern(), line@)),
{
    let caps = regex_captures("Downloading (?:video|item) (\\d+) of (\\d+)", line);
    playlist_progress_from_captures(caps)
}

// ---------------------------------------------------------------------------
// Natural sort keys
// ---------------------------------------------------------------------------

/// A component of a natural sort key: a number, or a piece of text.
/// Numbers order before text, numbers by value, text by code points.
#[derive(Debug, PartialEq, Eq, PartialOrd, Ord)]
pub enum NaturalKeyPart {
    Num(u64),
    Str(String),
}

/// The mathematical value of a key component.
pub enum PartView {
    Num(nat),
    Str(Seq<char>),
}

impl NaturalKeyPart {
    pub open spec fn part_view(self) -> PartView {
        match self {
            NaturalKeyPart::Num(n) => PartView::Num(n as nat),
            NaturalKeyPart::Str(s) => PartView::Str(s@),
        }
    }
}

pub open spec fn key_view(v: Seq<NaturalKeyPart>) -> Seq<PartView> {
    v.map_values(|p: NaturalKeyPart| p.part_view())
}

/// `s[i]` is a digit of a run that directly follows an ASCII letter, as the
/// `4` of `mp4` or the `264` of `h264`.
pub open spec fn glued_digit(s: Seq<char>, i: int) -> bool
    decreases i,
{
    if 0 < i < s.len() && is_ascii_digit(s[i]) {
        is_ascii_alpha(s[i - 1]) || glued_digit(s, i - 1)
    } else {
        false
    }
}

pub open spec fn is_ascii_alnum(c: char) -> bool {
    is_ascii_alpha(c) || is_ascii_digit(c)
}

/// Position of the dot that starts the final extension of `s`: its last
/// `.`, when only ASCII letters and digits follow it.
pub open spec fn ext_dot_pos(s: Seq<char>) -> Option<int>
    decreases s.len(),
{
    if s.len() == 0 {
        None
    } else if s.last() == '.' {
        Some(s.len() - 1)
    } else if is_ascii_alnum(s.last()) {
        ext_dot_pos(s.drop_last())
    } else {
        None
    }
}

/// `s[i]` lies in the final extension of `s`.
pub open spec fn in_extension(s: Seq<char>, i: int) -> bool {
    ext_dot_pos(s) matches Some(d) && d < i
}

/// `s[i]` belongs to a number: a digit, unless it is glued to a word inside
/// the final extension (the `4` of `.mp4` is text).
pub open spec fn numeric_at(s: Seq<char>, i: int) -> bool {
    0 <= i < s.len() && is_ascii_digit(s[i]) && !(glued_digit(s, i) && in_extension(s, i))
}

/// The maximal runs of number characters and of text characters among the
/// first `n` characters of `s`.
pub open spec fn tokens_upto(s: Seq<char>, n: int) -> Seq<Seq<char>>
    decreases n,
{
    if n <= 0 {
        Seq::empty()
    } else {
        let t = tokens_upto(s, n - 1);
        if t.len() > 0 && numeric_at(s, n - 2) == numeric_at(s, n - 1) {
            t.drop_last().push(t.last().push(s[n - 1]))
        } else {
            t.push(seq![s[n - 1]])
        }
    }
}

/// The maximal runs of number characters and of text characters that make
/// up `s`.
pub open spec fn raw_tokens(s: Seq<char>) -> Seq<Seq<char>> {
    tokens_upto(s, s.len() as int)
}

/// A number run (it starts with a digit) is a number when it fits in `u64`,
/// and is kept as text otherwise; text runs become lower-cased text.
pub open spec fn token_part(tok: Seq<char>) -> PartView {
    if tok.len() > 0 && is_ascii_digit(tok[0]) {
        if digits_value(tok) <= u64::MAX {
            PartView::Num(digits_value(tok))
        } else {
            PartView::Str(tok)
        }
    } else {
        PartView::Str(lower_seq(tok))
    }
}

/// The natural sort key of a string.
pub open spec fn natural_key_spec(s: Seq<char>) -> Seq<PartView> {
    raw_tokens(s).map_values(|t: Seq<char>| token_part(t))
}

proof fn lemma_ext_dot_pos(s: Seq<char>)
    ensures
        ext_dot_pos(s) matches Some(d) ==> 0 <= d < s.len() && s[d] == '.',
    decreases s.len(),
{
    if s.len() > 0 && s.last() != '.' && is_ascii_alnum(s.last()) {
        lemma_ext_dot_pos(s.drop_last());
    }
}

/// Shape of the runs: none is empty, a run that starts with a digit is a
/// number run made of digits only, the last run is a number run exactly
/// when the last character read is a number character, and the first run
/// starts with the first character.
proof fn lemma_tokens_shape(s: Seq<char>, n: int)
    requires
        0 <= n <= s.len(),
    ensures
        tokens_upto(s, n).len() == 0 <==> n == 0,
        forall|k: int| 0 <= k < tokens_upto(s, n).len() ==> (#[trigger] tokens_upto(s, n)[k]).len() > 0,
        forall|k: int|
            0 <= k < tokens_upto(s, n).len() && is_ascii_digit((#[trigger] tokens_upto(s, n)[k])[0])
                ==> all_ascii_digits(tokens_upto(s, n)[k]),
        n > 0 ==> (numeric_at(s, n - 1) <==> is_ascii_digit(tokens_upto(s, n).last()[0])),
        n > 0 ==> tokens_upto(s, n)[0][0] == s[0],
    decreases n,
{
    if n > 0 {
        lemma_tokens_shape(s, n - 1);
        let t = tokens_upto(s, n - 1);
        let r = tokens_upto(s, n);
        let c = s[n - 1];
        if t.len() > 0 && numeric_at(s, n - 2) == numeric_at(s, n - 1) {
            assert(r == t.drop_last().push(t.last().push(c)));
            assert forall|k: int| 0 <= k < r.len() implies (#[trigger] r[k]).len() > 0 by {
                if k < r.len() - 1 {
                    assert(r[k] == t[k]);
                }
            }
            assert forall|k: int|
                0 <= k < r.len() && is_ascii_digit((#[trigger] r[k])[0]) implies all_ascii_digits(
                r[k],
            ) by {
                if k < r.len() - 1 {
                    assert(r[k] == t[k]);
                } else {
                    assert(r[k][0] == t.last()[0]);
                    assert forall|j: int| 0 <= j < r[k].len() implies is_ascii_digit(
                        #[trigger] r[k][j],
                    ) by {
                        if j < t.last().len() {
                            assert(r[k][j] == t.last()[j]);
                        }
                    }
                }
            }
            assert(r.last()[0] == t.last()[0]);
            if t.len() > 1 {
                assert(r[0] == t[0]);
            }
        } else {
            assert(r == t.push(seq![c]));
            assert forall|k: int| 0 <= k < r.len() implies (#[trigger] r[k]).len() > 0 by {
                if k < r.len() - 1 {
                    assert(r[k] == t[k]);
                }
            }
            assert forall|k: int|
                0 <= k < r.len() && is_ascii_digit((#[trigger] r[k])[0]) implies all_ascii_digits(
                r[k],
            ) by {
                if k < r.len() - 1 {
                    assert(r[k] == t[k]);
                } else {
                    assert(r[k] =~= seq![c]);
                }
            }
            assert(r.last() =~= seq![c]);
            if t.len() > 0 {
                assert(r[0] == t[0]);
            }
            if is_ascii_digit(c) && !numeric_at(s, n - 1) {
                // a glued digit inside the extension continues a text run
                lemma_ext_dot_pos(s);
                assert(n - 1 > 0);
                if glued_digit(s, n - 2) {
                    assert(s[n - 2] != '.');
                }
                assert(!numeric_at(s, n - 2));
            }
        }
    }
}

fn make_part(tok: &Vec<char>) -> (p: NaturalKeyPart)
    requires
        tok@.len() > 0,
        is_ascii_digit(tok@[0]) ==> all_ascii_digits(tok@),
    ensures
        p.part_view() == token_part(tok@),
{
    if ascii_digit(tok[0]) {
        match parse_digits(tok, u64::MAX) {
            Some(n) => NaturalKeyPart::Num(n),
            None => NaturalKeyPart::Str(string_of(tok)),
        }
    } else {
        let l = lowercase(tok);
        NaturalKeyPart::Str(string_of(&l))
    }
}

fn ext_dot_position(v: &[char]) -> (r: Option<usize>)
    ensures
        match r {
            Some(d) => ext_dot_pos(v@) == Some(d as int),
            None => ext_dot_pos(v@) is None,
        },
{
    let mut k: usize = v.len();
    assert(v@.take(k as int) =~= v@);
    while k > 0
        invariant
            k <= v.len(),
            ext_dot_pos(v@) == ext_dot_pos(v@.take(k as int)),
        decreases k,
    {
        let c = v[k - 1];
        assert(v@.take(k as int).last() == c);
        assert(v@.take(k as int).drop_last() =~= v@.take(k - 1));
        if c == '.' {
            return Some(k - 1);
        }
        if !(ascii_alpha(c) || ascii_digit(c)) {
            return None;
        }
        k -= 1;
    }
    None
}

/// Tokenizes a string into alternating numeric and (lower-cased) text
/// components for natural sorting. Digits glued to a word inside the final
/// extension stay in the text, so `01 - Track.mp4` becomes
/// `[Num(1), Str(" - track.mp4")]`, while `Track2` becomes
/// `[Str("track"), Num(2)]`.
pub fn natural_sort_key(s: &str) -> (parts: Vec<NaturalKeyPart>)
    ensures
        key_view(parts@) == natural_key_spec(s@),
{
    let v = chars_of(s);
    let ext = ext_dot_position(&v);
    let mut parts: Vec<NaturalKeyPart> = Vec::new();
    let mut cur: Vec<char> = Vec::new();
    let mut cur_numeric: bool = false;
    let mut glued_prev: bool = false;
    let ghost mut done: Seq<Seq<char>> = Seq::empty();
    let mut i: usize = 0;
    while i < v.len()
        invariant
            i <= v.len(),
            match ext {
                Some(d) => ext_dot_pos(v@) == Some(d as int),
                None => ext_dot_pos(v@) is None,
            },
            key_view(parts@) == done.map_values(|t: Seq<char>| token_part(t)),
            tokens_upto(v@, i as int) == if cur@.len() > 0 {
                done.push(cur@)
            } else {
                done
            },
            i > 0 <==> cur@.len() > 0,
            i > 0 ==> cur_numeric == numeric_at(v@, i - 1),
            i > 0 ==> glued_prev == glued_digit(v@, i - 1),
            cur@.len() > 0 ==> (is_ascii_digit(cur@[0]) <==> cur_numeric),
            cur_numeric ==> all_ascii_digits(cur@),
        decreases v.len() - i,
    {
        let c = v[i];
        let digit = ascii_digit(c);
        let glued_now = i > 0 && digit && (ascii_alpha(v[i - 1]) || glued_prev);
        let in_ext = match ext {
            Some(d) => d < i,
            None => false,
        };
        let numeric_now = digit && !(glued_now && in_ext);
        proof {
            assert(glued_now == glued_digit(v@, i as int));
            assert(in_ext == in_extension(v@, i as int));
            assert(numeric_now == numeric_at(v@, i as int));
            lemma_tokens_shape(v@, i as int);
            lemma_tokens_shape(v@, i + 1);
        }
        if cur.len() > 0 && cur_numeric == numeric_now {
            let ghost old_cur = cur@;
            cur.push(c);
            assert(done.push(old_cur).drop_last().push(old_cur.push(c)) =~= done.push(cur@));
            assert(cur@[0] == old_cur[0]);
            proof {
                if cur_numeric {
                    assert forall|k: int| 0 <= k < cur@.len() implies is_ascii_digit(
                        #[trigger] cur@[k],
                    ) by {
                        if k < old_cur.len() {
                            assert(cur@[k] == old_cur[k]);
                        }
                    }
                }
            }
        } else {
            if cur.len() > 0 {
                let p = make_part(&cur);
                let ghost kv = key_view(parts@);
                parts.push(p);
                assert(key_view(parts@) =~= kv.push(p.part_view()));
                proof {
                    assert(done.push(cur@).map_values(|t: Seq<char>| token_part(t))
                        =~= done.map_values(|t: Seq<char>| token_part(t)).push(token_part(cur@)));
                    done = done.push(cur@);
                }
            }
            cur = vec![c];
            cur_numeric = numeric_now;
            assert(cur@ =~= seq![c]);
            proof {
                assert(tokens_upto(v@, i + 1).last() == seq![c]);
            }
        }
        glued_prev = glued_now;
        i += 1;
    }
    if cur.len() > 0 {
        let p = make_part(&cur);
        let ghost kv = key_view(parts@);
        parts.push(p);
        assert(key_view(parts@) =~= kv.push(p.part_view()));
        proof {
            assert(done.push(cur@).map_values(|t: Seq<char>| token_part(t)) =~= done.map_values(
                |t: Seq<char>| token_part(t),
            ).push(token_part(cur@)));
            done = done.push(cur@);
        }
    }
    parts
}

proof fn lemma_lower_char(c: char)
    ensures
        is_ascii_digit(ascii_lower(c)) == is_ascii_digit(c),
        is_ascii_alpha(ascii_lower(c)) == is_ascii_alpha(c),
        (ascii_lower(c) == '.') == (c == '.'),
        ascii_lower(ascii_lower(c)) == ascii_lower(c),
{
    if is_ascii_upper(c) {
        let l = ((c as u32) + 32) as char;
        assert(('a' as u32) <= (l as u32) && (l as u32) <= ('z' as u32));
    }
}

proof fn lemma_ext_lower(s: Seq<char>)
    ensures
        ext_dot_pos(lower_seq(s)) == ext_dot_pos(s),
    decreases s.len(),
{
    if s.len() > 0 {
        lemma_lower_char(s.last());
        assert(lower_seq(s).drop_last() =~= lower_seq(s.drop_last()));
        lemma_ext_lower(s.drop_last());
    }
}

proof fn lemma_glued_lower(s: Seq<char>, i: int)
    ensures
        glued_digit(lower_seq(s), i) == glued_digit(s, i),
        numeric_at(lower_seq(s), i) == numeric_at(s, i),
    decreases i,
{
    lemma_ext_lower(s);
    if 0 <= i < s.len() {
        lemma_lower_char(s[i]);
    }
    if 0 < i < s.len() {
        lemma_lower_char(s[i - 1]);
        lemma_glued_lower(s, i - 1);
    }
}

proof fn lemma_tokens_lower(s: Seq<char>, n: int)
    requires
        0 <= n <= s.len(),
    ensures
        tokens_upto(lower_seq(s), n) == tokens_upto(s, n).map_values(|t: Seq<char>| lower_seq(t)),
    decreases n,
{
    let l = lower_seq(s);
    if n > 0 {
        lemma_tokens_lower(s, n - 1);
        lemma_glued_lower(s, n - 1);
        lemma_glued_lower(s, n - 2);
        let t = tokens_upto(s, n - 1);
        let lt = t.map_values(|x: Seq<char>| lower_seq(x));
        assert(l[n - 1] == ascii_lower(s[n - 1]));
        if t.len() > 0 && numeric_at(s, n - 2) == numeric_at(s, n - 1) {
            assert(lower_seq(t.last().push(s[n - 1])) =~= lt.last().push(l[n - 1]));
            assert(lt.drop_last().push(lt.last().push(l[n - 1])) =~= t.drop_last().push(
                t.last().push(s[n - 1]),
            ).map_values(|x: Seq<char>| lower_seq(x)));
        } else {
            assert(lower_seq(seq![s[n - 1]]) =~= seq![l[n - 1]]);
            assert(lt.push(seq![l[n - 1]]) =~= t.push(seq![s[n - 1]]).map_values(
                |x: Seq<char>| lower_seq(x),
            ));
        }
    } else {
        assert(tokens_upto(s, n).map_values(|t: Seq<char>| lower_seq(t)) =~= Seq::<
            Seq<char>,
        >::empty());
    }
}

/// Natural keys ignore ASCII case: a name and its ASCII lower-cased form
/// have the same key.
pub proof fn law_natural_key_ignores_case(s: Seq<char>)
    ensures
        natural_key_spec(lower_seq(s)) == natural_key_spec(s),
{
    lemma_tokens_lower(s, s.len() as int);
    lemma_tokens_shape(s, s.len() as int);
    let t = raw_tokens(s);
    let a = natural_key_spec(lower_seq(s));
    let b = natural_key_spec(s);
    assert forall|k: int| 0 <= k < t.len() implies #[trigger] a[k] == b[k] by {
        let tok = t[k];
        let lt = lower_seq(tok);
        assert(a[k] == token_part(lt));
        lemma_lower_char(tok[0]);
        if is_ascii_digit(tok[0]) {
            assert forall|j: int| 0 <= j < tok.len() implies lt[j] == tok[j] by {
                assert(is_ascii_digit(tok[j]));
            }
            assert(lt =~= tok);
        } else {
            assert forall|j: int| 0 <= j < tok.len() implies lower_seq(lt)[j] == lt[j] by {
                lemma_lower_char(tok[j]);
            }
            assert(lower_seq(lt) =~= lt);
        }
    }
    assert(a =~= b);
}

proof fn lemma_ext_shift(s: Seq<char>)
    ensures
        ext_dot_pos(seq!['0'] + s) == match ext_dot_pos(s) {
            Some(d) => Some(d + 1),
            None => None::<int>,
        },
    decreases s.len(),
{
    let z = seq!['0'] + s;
    if s.len() == 0 {
        assert(z.drop_last() =~= Seq::<char>::empty());
        assert(ext_dot_pos(z.drop_last()) is None);
        assert(z.last() == '0');
        assert(is_ascii_alnum('0'));
        assert(ext_dot_pos(z) is None);
    } else {
        assert(z.len() == s.len() + 1);
        assert(z.last() == s.last());
        assert(z.drop_last() =~= seq!['0'] + s.drop_last());
        lemma_ext_shift(s.drop_last());
        if s.last() == '.' {
            assert(ext_dot_pos(z) == Some(s.len() as int));
            assert(ext_dot_pos(s) == Some(s.len() - 1));
        } else if is_ascii_alnum(s.last()) {
            assert(ext_dot_pos(z) == ext_dot_pos(z.drop_last()));
            assert(ext_dot_pos(s) == ext_dot_pos(s.drop_last()));
        } else {
            assert(ext_dot_pos(z) is None);
            assert(ext_dot_pos(s) is None);
        }
    }
}

proof fn lemma_glued_shift(s: Seq<char>, i: int)
    requires
        0 <= i < s.len(),
    ensures
        glued_digit(seq!['0'] + s, i + 1) == glued_digit(s, i),
        numeric_at(seq!['0'] + s, i + 1) == numeric_at(s, i),
    decreases i,
{
    let z = seq!['0'] + s;
    lemma_ext_shift(s);
    assert(z[i + 1] == s[i]);
    assert(z.len() == s.len() + 1);
    if i > 0 {
        assert(z[i] == s[i - 1]);
        lemma_glued_shift(s, i - 1);
    } else {
        assert(z[0] == '0');
        assert(!glued_digit(z, 0));
        assert(!glued_digit(s, 0));
        assert(!is_ascii_alpha(z[0]));
    }
}

proof fn lemma_tokens_zero(s: Seq<char>, n: int)
    requires
        1 <= n <= s.len(),
        is_ascii_digit(s[0]),
    ensures
        tokens_upto(seq!['0'] + s, n + 1) == tokens_upto(s, n).update(
            0,
            seq!['0'] + tokens_upto(s, n)[0],
        ),
    decreases n,
{
    let z = seq!['0'] + s;
    lemma_tokens_shape(s, n);
    lemma_glued_shift(s, n - 1);
    assert(z[n] == s[n - 1]);
    assert(!glued_digit(z, 0));
    assert(numeric_at(z, 0));
    assert(!glued_digit(s, 0));
    assert(numeric_at(s, 0));
    if n == 1 {
        let t0 = tokens_upto(z, 1);
        assert(tokens_upto(z, 0).len() == 0);
        assert(t0 =~= seq![seq![z[0]]]);
        assert(z[0] == '0');
        assert(tokens_upto(z, 2) == t0.drop_last().push(t0.last().push(z[1])));
        assert(seq!['0'].push(s[0]) =~= seq!['0', s[0]]);
        assert(tokens_upto(z, 2) =~= seq![seq!['0', s[0]]]);
        assert(tokens_upto(s, 0).len() == 0);
        assert(tokens_upto(s, 1) =~= seq![seq![s[0]]]);
        assert(seq!['0'] + seq![s[0]] =~= seq!['0', s[0]]);
        assert(tokens_upto(s, 1).update(0, seq!['0'] + tokens_upto(s, 1)[0]) =~= seq![
            seq!['0', s[0]],
        ]);
    } else {
        lemma_tokens_zero(s, n - 1);
        lemma_glued_shift(s, n - 2);
        lemma_tokens_shape(s, n - 1);
        let t = tokens_upto(s, n - 1);
        let tz = t.update(0, seq!['0'] + t[0]);
        if numeric_at(s, n - 2) == numeric_at(s, n - 1) {
            assert(tokens_upto(z, n + 1) == tz.drop_last().push(tz.last().push(z[n])));
            assert(tokens_upto(s, n) == t.drop_last().push(t.last().push(s[n - 1])));
            if t.len() == 1 {
                assert(tz.drop_last().push(tz.last().push(s[n - 1])) =~= t.drop_last().push(
                    t.last().push(s[n - 1]),
                ).update(0, seq!['0'] + t.last().push(s[n - 1])));
            } else {
                assert(tz.drop_last().push(tz.last().push(s[n - 1])) =~= t.drop_last().push(
                    t.last().push(s[n - 1]),
                ).update(0, seq!['0'] + t[0]));
            }
        } else {
            assert(tokens_upto(z, n + 1) == tz.push(seq![z[n]]));
            assert(tokens_upto(s, n) == t.push(seq![s[n - 1]]));
            assert(tz.push(seq![s[n - 1]]) =~= t.push(seq![s[n - 1]]).update(0, seq!['0'] + t[0]));
        }
    }
}

proof fn lemma_digits_value_zero(t: Seq<char>)
    ensures
        digits_value(seq!['0'] + t) == digits_value(t),
    decreases t.len(),
{
    let z = seq!['0'] + t;
    if t.len() == 0 {
        assert(z.drop_last() =~= Seq::<char>::empty());
        assert(z.last() == '0');
        assert(digit_value('0') == 0);
        assert(digits_value(z.drop_last()) == 0);
    } else {
        assert(z.drop_last() =~= seq!['0'] + t.drop_last());
        assert(z.last() == t.last());
        lemma_digits_value_zero(t.drop_last());
    }
}

/// A leading zero does not change a natural key: when a name starts with
/// a number (a digit run that fits in `u64`), `0` followed by the name has
/// the same key, so "02 - x" and "2 - x" sort as equals.
pub proof fn law_natural_key_leading_zero(s: Seq<char>)
    requires
        natural_key_spec(s).len() > 0,
        natural_key_spec(s)[0] is Num,
    ensures
        natural_key_spec(seq!['0'] + s) == natural_key_spec(s),
{
    lemma_tokens_shape(s, s.len() as int);
    let t = raw_tokens(s);
    let tok = t[0];
    assert(natural_key_spec(s)[0] == token_part(tok));
    assert(is_ascii_digit(tok[0]));
    assert(s.len() > 0);
    assert((seq!['0'] + s).len() == s.len() + 1);
    lemma_tokens_zero(s, s.len() as int);
    let z = seq!['0'] + tok;
    lemma_digits_value_zero(tok);
    assert(z[0] == '0');
    assert(token_part(z) == token_part(tok));
    let a = natural_key_spec(seq!['0'] + s);
    let b = natural_key_spec(s);
    assert forall|k: int| 0 <= k < b.len() implies #[trigger] a[k] == b[k] by {
        if k == 0 {
            assert(raw_tokens(seq!['0'] + s)[0] == z);
        } else {
            assert(raw_tokens(seq!['0'] + s)[k] == t[k]);
        }
    }
    assert(a =~= b);
}

// ---------------------------------------------------------------------------
// Natural order
// ---------------------------------------------------------------------------

/// Three-way comparison of integers: -1, 0 or 1.
pub open spec fn int_order(a: int, b: int) -> int {
    if a < b {
        -1
    } else if a == b {
        0
    } else {
        1
    }
}

/// Lexicographic comparison of texts by code point (the order of `String`).
pub open spec fn text_order(a: Seq<char>, b: Seq<char>) -> int
    decreases a.len(),
{
    if a.len() == 0 {
        if b.len() == 0 {
            0
        } else {
            -1
        }
    } else if b.len() == 0 {
        1
    } else if a[0] != b[0] {
        if a[0] < b[0] {
            -1
        } else {
            1
        }
    } else {
        text_order(a.drop_first(), b.drop_first())
    }
}

pub open spec fn part_order(a: PartView, b: PartView) -> int {
    match (a, b) {
        (PartView::Num(x), PartView::Num(y)) => int_order(x as int, y as int),
        (PartView::Str(x), PartView::Str(y)) => text_order(x, y),
        (PartView::Num(_), PartView::Str(_)) => -1,
        (PartView::Str(_), PartView::Num(_)) => 1,
    }
}

/// Lexicographic comparison of natural sort keys.
pub open spec fn key_order(a: Seq<PartView>, b: Seq<PartView>) -> int
    decreases a.len(),
{
    if a.len() == 0 {
        if b.len() == 0 {
            0
        } else {
            -1
        }
    } else if b.len() == 0 {
        1
    } else if part_order(a[0], b[0]) != 0 {
        part_order(a[0], b[0])
    } else {
        key_order(a.drop_first(), b.drop_first())
    }
}

/// The outcome of a comparison.
#[derive(Debug, PartialEq, Eq, Clone, Copy)]
pub enum KeyOrdering {
    Less,
    Equal,
    Greater,
}

impl KeyOrdering {
    pub open spec fn value(self) -> int {
        match self {
            KeyOrdering::Less => -1,
            KeyOrdering::Equal => 0,
            KeyOrdering::Greater => 1,
        }
    }
}

pub fn text_compare(a: &[char], b: &[char]) -> (r: KeyOrdering)
    ensures
        r.value() == text_order(a@, b@),
{
    let mut k: usize = 0;
    assert(a@.skip(0) =~= a@);
    assert(b@.skip(0) =~= b@);
    while k < a.len() && k < b.len() && a[k] == b[k]
        invariant
            k <= a.len(),
            k <= b.len(),
            text_order(a@, b@) == text_order(a@.skip(k as int), b@.skip(k as int)),
        decreases a.len() - k,
    {
        assert(a@.skip(k as int).drop_first() =~= a@.skip(k + 1));
        assert(b@.skip(k as int).drop_first() =~= b@.skip(k + 1));
        k += 1;
    }
    if k == a.len() {
        if k == b.len() {
            KeyOrdering::Equal
        } else {
            KeyOrdering::Less
        }
    } else if k == b.len() {
        KeyOrdering::Greater
    } else {
        assert(a@.skip(k as int)[0] == a@[k as int]);
        assert(b@.skip(k as int)[0] == b@[k as int]);
        if a[k] < b[k] {
            KeyOrdering::Less
        } else {
            KeyOrdering::Greater
        }
    }
}

fn part_compare(a: &NaturalKeyPart, b: &NaturalKeyPart) -> (r: KeyOrdering)
    ensures
        r.value() == part_order(a.part_view(), b.part_view()),
{
    match (a, b) {
        (NaturalKeyPart::Num(x), NaturalKeyPart::Num(y)) => {
            if *x < *y {
                KeyOrdering::Less
            } else if *x == *y {
                KeyOrdering::Equal
            } else {
                KeyOrdering::Greater
            }
        },
        (NaturalKeyPart::Str(x), NaturalKeyPart::Str(y)) => {
            let xv = chars_of(x.as_str());
            let yv = chars_of(y.as_str());
            text_compare(&xv, &yv)
        },
        (NaturalKeyPart::Num(_), NaturalKeyPart::Str(_)) => KeyOrdering::Less,
        (NaturalKeyPart::Str(_), NaturalKeyPart::Num(_)) => KeyOrdering::Greater,
    }
}

/// Compares two natural sort keys: lexicographically, component by
/// component, numbers before text.
pub fn natural_key_compare(a: &Vec<NaturalKeyPart>, b: &Vec<NaturalKeyPart>) -> (r: KeyOrdering)
    ensures
        r.value() == key_order(key_view(a@), key_view(b@)),
{
    let mut k: usize = 0;
    assert(key_view(a@).skip(0) =~= key_view(a@));
    assert(key_view(b@).skip(0) =~= key_view(b@));
    while k < a.len() && k < b.len()
        invariant
            k <= a.len(),
            k <= b.len(),
            key_order(key_view(a@), key_view(b@)) == key_order(
                key_view(a@).skip(k as int),
                key_view(b@).skip(k as int),
            ),
        decreases a.len() - k,
    {
        let c = part_compare(&a[k], &b[k]);
        assert(key_view(a@).skip(k as int)[0] == a@[k as int].part_view());
        assert(key_view(b@).skip(k as int)[0] == b@[k as int].part_view());
        match c {
            KeyOrdering::Equal => {},
            _ => {
                return c;
            },
        }
        assert(key_view(a@).skip(k as int).drop_first() =~= key_view(a@).skip(k + 1));
        assert(key_view(b@).skip(k as int).drop_first() =~= key_view(b@).skip(k + 1));
        k += 1;
    }
    if k == a.len() {
        if k == b.len() {
            KeyOrdering::Equal
        } else {
            KeyOrdering::Less
        }
    } else {
        KeyOrdering::Greater
    }
}

// ---------------------------------------------------------------------------
// Laws of the natural order
// ---------------------------------------------------------------------------

pub proof fn lemma_text_order_antisymmetric(a: Seq<char>, b: Seq<char>)
    ensures
        text_order(a, b) == -text_order(b, a),
        -1 <= text_order(a, b) <= 1,
    decreases a.len(),
{
    if a.len() > 0 && b.len() > 0 && a[0] == b[0] {
        lemma_text_order_antisymmetric(a.drop_first(), b.drop_first());
    }
}

pub proof fn lemma_text_order_zero(a: Seq<char>, b: Seq<char>)
    ensures
        text_order(a, b) == 0 <==> a == b,
    decreases a.len(),
{
    if a.len() > 0 && b.len() > 0 && a[0] == b[0] {
        lemma_text_order_zero(a.drop_first(), b.drop_first());
        if a.drop_first() == b.drop_first() {
            assert(a =~= seq![a[0]] + a.drop_first());
            assert(b =~= seq![b[0]] + b.drop_first());
        }
    }
    if a.len() == 0 && b.len() == 0 {
        assert(a =~= b);
    }
}

pub proof fn lemma_text_order_transitive(a: Seq<char>, b: Seq<char>, c: Seq<char>)
    requires
        text_order(a, b) <= 0,
        text_order(b, c) <= 0,
    ensures
        text_order(a, c) <= 0,
    decreases a.len(),
{
    if a.len() > 0 && b.len() > 0 && c.len() > 0 && a[0] == b[0] && b[0] == c[0] {
        lemma_text_order_transitive(a.drop_first(), b.drop_first(), c.drop_first());
    }
}

pub proof fn lemma_part_order_laws(a: PartView, b: PartView, c: PartView)
    ensures
        part_order(a, b) == -part_order(b, a),
        -1 <= part_order(a, b) <= 1,
        part_order(a, b) == 0 <==> a == b,
        part_order(a, b) <= 0 && part_order(b, c) <= 0 ==> part_order(a, c) <= 0,
{
    match (a, b) {
        (PartView::Str(x), PartView::Str(y)) => {
            lemma_text_order_antisymmetric(x, y);
            lemma_text_order_zero(x, y);
        },
        _ => {},
    }
    if part_order(a, b) <= 0 && part_order(b, c) <= 0 {
        match (a, b, c) {
            (PartView::Str(x), PartView::Str(y), PartView::Str(z)) => {
                lemma_text_order_transitive(x, y, z);
            },
            _ => {},
        }
    }
}

/// The natural order is antisymmetric: swapping the keys flips the outcome.
pub proof fn law_key_order_antisymmetric(a: Seq<PartView>, b: Seq<PartView>)
    ensures
        key_order(a, b) == -key_order(b, a),
        -1 <= key_order(a, b) <= 1,
    decreases a.len(),
{
    if a.len() > 0 && b.len() > 0 {
        lemma_part_order_laws(a[0], b[0], b[0]);
        if part_order(a[0], b[0]) == 0 {
            law_key_order_antisymmetric(a.drop_first(), b.drop_first());
        }
    }
}

/// Two keys compare equal exactly when they are the same key.
pub proof fn law_key_order_equal(a: Seq<PartView>, b: Seq<PartView>)
    ensures
        key_order(a, b) == 0 <==> a == b,
    decreases a.len(),
{
    if a.len() > 0 && b.len() > 0 {
        lemma_part_order_laws(a[0], b[0], b[0]);
        if part_order(a[0], b[0]) == 0 {
            law_key_order_equal(a.drop_first(), b.drop_first());
            if a.drop_first() == b.drop_first() {
                assert(a =~= seq![a[0]] + a.drop_first());
                assert(b =~= seq![b[0]] + b.drop_first());
            }
        }
    }
    if a.len() == 0 && b.len() == 0 {
        assert(a =~= b);
    }
}

/// The natural order is transitive.
pub proof fn law_key_order_transitive(a: Seq<PartView>, b: Seq<PartView>, c: Seq<PartView>)
    requires
        key_order(a, b) <= 0,
        key_order(b, c) <= 0,
    ensures
        key_order(a, c) <= 0,
    decreases a.len(),
{
    if a.len() > 0 && b.len() > 0 && c.len() > 0 {
        lemma_part_order_laws(a[0], b[0], c[0]);
        lemma_part_order_laws(b[0], c[0], a[0]);
        lemma_part_order_laws(a[0], c[0], b[0]);
        if part_order(a[0], b[0]) == 0 && part_order(b[0], c[0]) == 0 {
            law_key_order_transitive(a.drop_first(), b.drop_first(), c.drop_first());
        }
    }
}

// ---------------------------------------------------------------------------
// Sorting playlist items
// ---------------------------------------------------------------------------

pub open spec fn item_key(it: PlaylistItem) -> Seq<PartView> {
    natural_key_spec(it.name@)
}

/// Items in natural order of their names.
pub open spec fn sorted_by_name(s: Seq<PlaylistItem>) -> bool {
    forall|i: int, j: int| 0 <= i < j < s.len() ==> key_order(item_key(s[i]), item_key(s[j])) <= 0
}

/// `r` is `s` rearranged: position `k` of `r` holds the item at position
/// `perm[k]` of `s`, and no position of `s` is used twice.
pub open spec fn rearranges(r: Seq<PlaylistItem>, s: Seq<PlaylistItem>, perm: Seq<int>) -> bool {
    &&& perm.len() == r.len()
    &&& r.len() == s.len()
    &&& forall|k: int| 0 <= k < r.len() ==> 0 <= #[trigger] perm[k] < s.len() && r[k] == s[perm[k]]
    &&& forall|k: int, l: int| 0 <= k < l < r.len() ==> #[trigger] perm[k] != #[trigger] perm[l]
}

/// Items whose names have equal keys stay in their original order.
pub open spec fn stable_by_name(r: Seq<PlaylistItem>, perm: Seq<int>) -> bool {
    forall|k: int, l: int|
        0 <= k < l < r.len() && key_order(item_key(#[trigger] r[k]), item_key(#[trigger] r[l])) == 0
            ==> perm[k] < perm[l]
}

fn key_greater(a: &Vec<NaturalKeyPart>, b: &Vec<NaturalKeyPart>) -> (r: bool)
    ensures
        r == (key_order(key_view(a@), key_view(b@)) > 0),
{
    let c = natural_key_compare(a, b);
    match c {
        KeyOrdering::Greater => true,
        _ => false,
    }
}

/// Sorts playlist items into natural track order of their names, so that
/// "01 - ...", "02 - ...", "10 - ..." keep playlist order. Items with equal
/// keys keep their relative order.
#[verifier::rlimit(40)]
pub fn sort_playlist_items(items: Vec<PlaylistItem>) -> (r: Vec<PlaylistItem>)
    ensures
        r@.to_multiset() == items@.to_multiset(),
        sorted_by_name(r@),
        exists|perm: Seq<int>| #[trigger] rearranges(r@, items@, perm) && stable_by_name(r@, perm),
{
    let mut r: Vec<PlaylistItem> = Vec::new();
    let ghost mut perm: Seq<int> = Seq::empty();
    let mut keys: Vec<Vec<NaturalKeyPart>> = Vec::new();
    let mut items = items;
    let ghost orig = items@;
    let mut i: usize = 0;
    assert(orig.len() == items.len());
    assert(orig.take(0).to_multiset() =~= Multiset::<PlaylistItem>::empty());
    while items.len() > 0
        invariant
            i + items@.len() == orig.len(),
            orig.len() <= usize::MAX,
            items@ == orig.skip(i as int),
            r@.len() == keys@.len(),
            forall|k: int| 0 <= k < r@.len() ==> key_view(#[trigger] keys@[k]@) == item_key(r@[k]),
            sorted_by_name(r@),
            r@.to_multiset() == orig.take(i as int).to_multiset(),
            rearranges(r@, orig.take(i as int), perm),
            stable_by_name(r@, perm),
        decreases items@.len(),
    {
        let it = items.remove(0);
        assert(orig.skip(i as int)[0] == it);
        assert(orig.skip(i as int).remove(0) =~= orig.skip(i + 1));
        assert(orig.take(i + 1) =~= orig.take(i as int).push(it));
        let key = natural_sort_key(it.name.as_str());
        // Insert after every element whose key is not greater than the new one.
        let mut p: usize = r.len();
        while p > 0 && key_greater(&keys[p - 1], &key)
            invariant
                p <= r@.len(),
                r@.len() == keys@.len(),
                forall|k: int| 0 <= k < r@.len() ==> key_view(#[trigger] keys@[k]@) == item_key(
                    r@[k],
                ),
                key_view(key@) == item_key(it),
                forall|k: int| p <= k < r@.len() ==> key_order(item_key(r@[k]), item_key(it)) > 0,
            decreases p,
        {
            p -= 1;
        }
        let ghost old_r = r@;
        let ghost old_keys = keys@;
        let ghost old_perm = perm;
        r.insert(p, it);
        keys.insert(p, key);
        proof {
            perm = old_perm.insert(p as int, i as int);
            let s1 = orig.take(i + 1);
            assert forall|k: int| 0 <= k < r@.len() implies 0 <= #[trigger] perm[k] < s1.len()
                && r@[k] == s1[perm[k]] by {
                if k < p {
                    assert(perm[k] == old_perm[k]);
                    assert(r@[k] == old_r[k]);
                } else if k > p {
                    assert(perm[k] == old_perm[k - 1]);
                    assert(r@[k] == old_r[k - 1]);
                }
            }
            assert forall|k: int, l: int| 0 <= k < l < r@.len() implies #[trigger] perm[k]
                != #[trigger] perm[l] by {
                let ko = if k < p { k } else { k - 1 };
                let lo = if l < p { l } else { l - 1 };
                if k != p && l != p {
                    assert(perm[k] == old_perm[ko]);
                    assert(perm[l] == old_perm[lo]);
                } else if k == p {
                    assert(perm[l] == old_perm[lo]);
                } else {
                    assert(perm[k] == old_perm[ko]);
                }
            }
            assert forall|k: int, l: int|
                0 <= k < l < r@.len() && key_order(item_key(#[trigger] r@[k]), item_key(#[trigger] r@[l]))
                    == 0 implies perm[k] < perm[l] by {
                let ko = if k < p { k } else { k - 1 };
                let lo = if l < p { l } else { l - 1 };
                if k != p && l != p {
                    assert(perm[k] == old_perm[ko]);
                    assert(perm[l] == old_perm[lo]);
                    assert(r@[k] == old_r[ko]);
                    assert(r@[l] == old_r[lo]);
                } else if l == p {
                    assert(perm[k] == old_perm[ko]);
                } else {
                    assert(r@[l] == old_r[lo]);
                    law_key_order_antisymmetric(item_key(old_r[lo]), item_key(it));
                }
            }
            assert(r@ == old_r.insert(p as int, it));
            assert forall|k: int| 0 <= k < r@.len() implies key_view(#[trigger] keys@[k]@)
                == item_key(r@[k]) by {
                if k < p {
                    assert(keys@[k] == old_keys[k]);
                } else if k > p {
                    assert(keys@[k] == old_keys[k - 1]);
                }
            }
            assert forall|a: int, b: int| 0 <= a < b < r@.len() implies key_order(
                item_key(r@[a]),
                item_key(r@[b]),
            ) <= 0 by {
                if b < p {
                } else if a < p && b == p {
                    if a < p - 1 {
                        law_key_order_transitive(
                            item_key(old_r[a]),
                            item_key(old_r[p - 1]),
                            item_key(it),
                        );
                    }
                } else if a < p && b > p {
                    assert(r@[b] == old_r[b - 1]);
                } else if a == p {
                    assert(r@[b] == old_r[b - 1]);
                    law_key_order_antisymmetric(item_key(old_r[b - 1]), item_key(it));
                } else {
                    assert(r@[a] == old_r[a - 1]);
                    assert(r@[b] == old_r[b - 1]);
                }
            }
        }
        i += 1;
    }
    assert(orig.take(i as int) =~= orig);
    assert(rearranges(r@, orig, perm));
    r
}

// ---------------------------------------------------------------------------
// Selecting playlist media files
// ---------------------------------------------------------------------------

/// The media containers that a playlist directory scan lists.
pub open spec fn is_media_ext(e: Seq<char>) -> bool {
    ||| e == "mp4"@
    ||| e == "mkv"@
    ||| e == "webm"@
    ||| e == "mov"@
    ||| e == "avi"@
    ||| e == "mp3"@
    ||| e == "m4a"@
    ||| e == "wav"@
    ||| e == "flac"@
    ||| e == "aac"@
    ||| e == "opus"@
}

/// Partial or intermediate download files, which a scan skips.
pub open spec fn is_partial_name(n: Seq<char>) -> bool {
    ||| ends_with(n, ".part"@)
    ||| ends_with(n, ".temp"@)
    ||| ends_with(n, ".ytdl"@)
    ||| contains(n, ".temp."@)
}

/// The display name of a track: the stem of its cleaned file name.
pub open spec fn track_name(fname: Seq<char>) -> Seq<char> {
    let c = clean_filename_spec(fname);
    match file_name(c) {
        Some(f) => stem_of(f),
        None => c,
    }
}

/// Whether a directory entry with this file name is listed, and with which
/// (lower-cased) extension.
pub open spec fn listed_extension(fname: Seq<char>) -> Option<Seq<char>> {
    match crate::paths::extension_of(fname) {
        Some(e) => if is_media_ext(lower_seq(e)) && !is_partial_name(fname) {
            Some(lower_seq(e))
        } else {
            None
        },
        None => None,
    }
}

fn is_media_extension(e: &[char]) -> (r: bool)
    ensures
        r == is_media_ext(e@),
{
    eq_str(e, "mp4") || eq_str(e, "mkv") || eq_str(e, "webm") || eq_str(e, "mov") || eq_str(
        e,
        "avi",
    ) || eq_str(e, "mp3") || eq_str(e, "m4a") || eq_str(e, "wav") || eq_str(e, "flac")
        || eq_str(e, "aac") || eq_str(e, "opus")
}

fn is_partial(n: &[char]) -> (r: bool)
    ensures
        r == is_partial_name(n@),
{
    let part = chars_of(".part");
    let temp = chars_of(".temp");
    let ytdl = chars_of(".ytdl");
    let temp_dot = chars_of(".temp.");
    has_suffix(n, &part) || has_suffix(n, &temp) || has_suffix(n, &ytdl) || contains_seq(
        n,
        &temp_dot,
    )
}

/// The playlist item for a file found in a scanned directory, given its
/// file name, full path and size; None when the file is not a listed media
/// file. The path is reported with `\` separators.
pub fn playlist_item_from_entry(file_name: &str, file_path: &str, file_size: u64) -> (r: Option<
    PlaylistItem,
>)
    ensures
        r matches Some(it) ==> listed_extension(file_name@) == Some(it.extension@) && it.name@
            == track_name(file_name@) && it.file_path@ == replace_char(file_path@, '/', '\\')
            && it.file_size == file_size,
        r is None ==> listed_extension(file_name@) is None,
{
    let n = chars_of(file_name);
    match crate::paths::extension(&n) {
        Some(e) => {
            let el = lowercase(&e);
            if is_media_extension(&el) && !is_partial(&n) {
                let cleaned = clean_filename(file_name);
                let cv = chars_of(cleaned.as_str());
                let name = match file_name_of(&cv) {
                    Some(f) => stem(&f),
                    None => cv,
                };
                let pv = chars_of(file_path);
                let norm = replace_ch(&pv, '/', '\\');
                Some(
                    PlaylistItem {
                        name: string_of(&name),
                        file_path: string_of(&norm),
                        file_size,
                        extension: string_of(&el),
                    },
                )
            } else {
                None
            }
        },
        None => None,
    }
}

/// A directory argument prepared for scanning: trimmed, with `\` separators
/// and without trailing separators.
pub open spec fn scan_input_spec(p: Seq<char>) -> Seq<char> {
    trim_end_char(replace_char(trim(p), '/', '\\'), '\\')
}

pub fn scan_input_path(dir_path: &str) -> (r: String)
    ensures
        r@ == scan_input_spec(dir_path@),
{
    let v = chars_of(dir_path);
    let t = trim_ws(&v);
    let b = replace_ch(&t, '/', '\\');
    let c = trim_end_ch(&b, '\\');
    string_of(&c)
}

/// Whether a path names a file with a listed media extension.
pub open spec fn has_media_ext_spec(p: Seq<char>) -> bool {
    match path_extension(p) {
        Some(e) => is_media_ext(lower_seq(e)),
        None => false,
    }
}

pub fn has_media_extension(path: &str) -> (r: bool)
    ensures
        r == has_media_ext_spec(path@),
{
    let v = chars_of(path);
    match path_extension_of(&v) {
        Some(e) => {
            let el = lowercase(&e);
            is_media_extension(&el)
        },
        None => false,
    }
}

/// Which directory a scan reads: the given path itself or its parent.
#[derive(Debug, PartialEq, Eq, Clone, Copy)]
pub enum ScanTarget {
    Path,
    Parent,
}

/// The directory to scan: the path when it is a directory; its parent when
/// it is a file or names a media file; its parent when it does not exist
/// but the parent is an existing directory; otherwise the path.
pub open spec fn scan_target_spec(
    is_dir: bool,
    is_file: bool,
    has_media_ext: bool,
    exists: bool,
    has_parent: bool,
    parent_is_dir: bool,
) -> ScanTarget {
    if is_dir {
        ScanTarget::Path
    } else if is_file || has_media_ext {
        if has_parent {
            ScanTarget::Parent
        } else {
            ScanTarget::Path
        }
    } else if !exists && has_parent && parent_is_dir {
        ScanTarget::Parent
    } else {
        ScanTarget::Path
    }
}

/// Decides which directory a playlist scan reads, from what the file system
/// reports about the given path and its parent (`parent_is_dir`: the parent
/// exists and is a directory).
pub fn scan_target(
    is_dir: bool,
    is_file: bool,
    has_media_ext: bool,
    exists: bool,
    has_parent: bool,
    parent_is_dir: bool,
) -> (r: ScanTarget)
    ensures
        r == scan_target_spec(is_dir, is_file, has_media_ext, exists, has_parent, parent_is_dir),
{
    if is_dir {
        ScanTarget::Path
    } else if is_file || has_media_ext {
        if has_parent {
            ScanTarget::Parent
        } else {
            ScanTarget::Path
        }
    } else if !exists && has_parent && parent_is_dir {
        ScanTarget::Parent
    } else {
        ScanTarget::Path
    }
}

/// Why a directory cannot be scanned: it does not exist, or it is not a
/// directory. `None` when it can be read.
pub open spec fn scan_dir_error_spec(target: Seq<char>, exists: bool, is_dir: bool) -> Option<
    Seq<char>,
> {
    if !exists {
        Some("Directory path does not exist: "@ + target)
    } else if !is_dir {
        Some("Not a directory: "@ + target)
    } else {
        None
    }
}

pub fn scan_dir_error(target: &str, exists: bool, is_dir: bool) -> (r: Option<String>)
    ensures
        crate::args::opt_view(r) == scan_dir_error_spec(target@, exists, is_dir),
{
    if !exists {
        let mut m = String::from_str("Directory path does not exist: ");
        m.append(target);
        Some(m)
    } else if !is_dir {
        let mut m = String::from_str("Not a directory: ");
        m.append(target);
        Some(m)
    } else {
        None
    }
}

// ---------------------------------------------------------------------------
// The listing of a playlist folder
// ---------------------------------------------------------------------------

/// An entry of a scanned folder: its file name, full path, size in bytes
/// (0 when unreadable), and whether it is a regular file.
pub struct FolderEntry {
    pub file_name: String,
    pub file_path: String,
    pub file_size: u64,
    pub is_file: bool,
}

/// A regular file with a listed media extension.
pub open spec fn is_listed(e: FolderEntry) -> bool {
    e.is_file && listed_extension(e.file_name@) is Some
}

/// The listed entries of a folder, in folder order.
pub open spec fn listed(es: Seq<FolderEntry>) -> Seq<FolderEntry>
    decreases es.len(),
{
    if es.len() == 0 {
        Seq::empty()
    } else if is_listed(es.last()) {
        listed(es.drop_last()).push(es.last())
    } else {
        listed(es.drop_last())
    }
}

/// `it` is the playlist item of the entry `e`.
pub open spec fn item_of_entry(e: FolderEntry, it: PlaylistItem) -> bool {
    &&& e.is_file
    &&& listed_extension(e.file_name@) == Some(it.extension@)
    &&& it.name@ == track_name(e.file_name@)
    &&& it.file_path@ == replace_char(e.file_path@, '/', '\\')
    &&& it.file_size == e.file_size
}

/// The items of a folder's listed entries, in folder order.
pub fn folder_items(entries: &Vec<FolderEntry>) -> (r: Vec<PlaylistItem>)
    ensures
        r@.len() == listed(entries@).len(),
        forall|k: int| 0 <= k < r@.len() ==> item_of_entry(listed(entries@)[k], #[trigger] r@[k]),
{
    let mut r: Vec<PlaylistItem> = Vec::new();
    let mut i: usize = 0;
    while i < entries.len()
        invariant
            i <= entries@.len(),
            r@.len() == listed(entries@.take(i as int)).len(),
            forall|k: int|
                0 <= k < r@.len() ==> item_of_entry(listed(entries@.take(i as int))[k], #[trigger] r@[k]),
        decreases entries.len() - i,
    {
        let e = &entries[i];
        let ghost pre = entries@.take(i as int);
        assert(entries@.take(i + 1).drop_last() =~= pre);
        assert(entries@.take(i + 1).last() == *e);
        if e.is_file {
            match playlist_item_from_entry(e.file_name.as_str(), e.file_path.as_str(), e.file_size) {
                Some(it) => {
                    let ghost old_r = r@;
                    r.push(it);
                    assert forall|k: int| 0 <= k < r@.len() implies item_of_entry(
                        listed(entries@.take(i + 1))[k],
                        #[trigger] r@[k],
                    ) by {
                        if k < old_r.len() {
                            assert(r@[k] == old_r[k]);
                        }
                    }
                },
                None => {},
            }
        }
        i += 1;
    }
    assert(entries@.take(entries@.len() as int) =~= entries@);
    r
}

/// The entries a scan lists: those of the folder itself, or, when it has
/// none, those of the first sub-folder (in the given order) that has some.
pub open spec fn chosen_entries(direct: Seq<FolderEntry>, subs: Seq<Seq<FolderEntry>>) -> Seq<
    FolderEntry,
>
    decreases subs.len(),
{
    if listed(direct).len() > 0 || subs.len() == 0 {
        listed(direct)
    } else {
        chosen_entries(subs[0], subs.drop_first())
    }
}

/// The track list of a playlist folder: the items of the chosen entries,
/// in natural order of their names, equal names keeping folder order.
pub open spec fn listing_ok(
    direct: Seq<FolderEntry>,
    subs: Seq<Seq<FolderEntry>>,
    r: Seq<PlaylistItem>,
) -> bool {
    let c = chosen_entries(direct, subs);
    &&& r.len() == c.len()
    &&& sorted_by_name(r)
    &&& exists|perm: Seq<int>|
        {
            &&& perm.len() == r.len()
            &&& (forall|k: int|
                0 <= k < r.len() ==> 0 <= #[trigger] perm[k] < c.len() && item_of_entry(
                    c[perm[k]],
                    r[k],
                ))
            &&& (forall|k: int, l: int|
                0 <= k < l < r.len() ==> #[trigger] perm[k] != #[trigger] perm[l])
            &&& stable_by_name(r, perm)
        }
}

/// Lists a playlist folder from the entries of the folder (`direct`) and of
/// its sub-folders (`subfolders`, in the order they were read).
pub fn scan_listing(direct: &Vec<FolderEntry>, subfolders: &Vec<Vec<FolderEntry>>) -> (r: Vec<
    PlaylistItem,
>)
    ensures
        listing_ok(direct@, subfolders@.map_values(|v: Vec<FolderEntry>| v@), r@),
{
    let ghost subs = subfolders@.map_values(|v: Vec<FolderEntry>| v@);
    let mut items = folder_items(direct);
    let ghost mut cur: Seq<FolderEntry> = direct@;
    let mut j: usize = 0;
    proof {
        assert(subs.skip(0) =~= subs);
    }
    while items.len() == 0 && j < subfolders.len()
        invariant
            j <= subfolders@.len(),
            subs == subfolders@.map_values(|v: Vec<FolderEntry>| v@),
            chosen_entries(direct@, subs) == chosen_entries(cur, subs.skip(j as int)),
            items@.len() == listed(cur).len(),
            forall|k: int| 0 <= k < items@.len() ==> item_of_entry(listed(cur)[k], #[trigger] items@[k]),
        decreases subfolders.len() - j,
    {
        assert(subs.skip(j as int)[0] == subfolders@[j as int]@);
        assert(subs.skip(j as int).drop_first() =~= subs.skip(j + 1));
        items = folder_items(&subfolders[j]);
        proof {
            cur = subfolders@[j as int]@;
        }
        j += 1;
    }
    proof {
        if items@.len() == 0 {
            assert(subs.skip(j as int).len() == 0);
        }
        assert(chosen_entries(cur, subs.skip(j as int)) == listed(cur));
    }
    let ghost c = listed(cur);
    let ghost before = items@;
    let r = sort_playlist_items(items);
    proof {
        let perm = choose|perm: Seq<int>| #[trigger] rearranges(r@, before, perm) && stable_by_name(r@, perm);
        assert forall|k: int| 0 <= k < r@.len() implies 0 <= #[trigger] perm[k] < c.len()
            && item_of_entry(c[perm[k]], r@[k]) by {
            assert(r@[k] == before[perm[k]]);
        }
    }
    r
}

/// What a listed item guarantees: a lower-case media extension, a path
/// written without `/`, and a file name that is no partial download.
pub proof fn law_listed_items_are_media(e: FolderEntry, it: PlaylistItem)
    requires
        item_of_entry(e, it),
    ensures
        is_media_ext(it.extension@),
        it.extension@ == lower_seq(it.extension@),
        forall|i: int| 0 <= i < it.file_path@.len() ==> #[trigger] it.file_path@[i] != '/',
        !is_partial_name(e.file_name@),
        e.is_file,
{
    let x = crate::paths::extension_of(e.file_name@)->0;
    assert(it.extension@ == lower_seq(x));
    assert forall|i: int| 0 <= i < x.len() implies ascii_lower(ascii_lower(#[trigger] x[i]))
        == ascii_lower(x[i]) by {
        lemma_lower_char(x[i]);
    }
    assert(lower_seq(lower_seq(x)) =~= lower_seq(x));
}

/// One of the media extensions a playlist scan lists, written out.
pub open spec fn listed_media_name(l: Seq<char>) -> bool {
    l == "mp4"@ || l == "mkv"@ || l == "webm"@ || l == "mov"@ || l == "avi"@ || l == "mp3"@ || l
        == "m4a"@ || l == "wav"@ || l == "flac"@ || l == "aac"@ || l == "opus"@
}

/// A file is listed exactly when its extension, in any case, is one of mp4,
/// mkv, webm, mov, avi, mp3, m4a, wav, flac, aac and opus, and its name does
/// not mark a partial download (ending in `.part`, `.temp` or `.ytdl`, or
/// holding `.temp.`); it is listed with its extension lower-cased. Every
/// container the downloader produces, audio or video, is listed.
pub proof fn law_listed_media_extensions(fname: Seq<char>, format: Seq<char>)
    ensures
        listed_extension(fname) is Some <==> (crate::paths::extension_of(fname) matches Some(e)
            && listed_media_name(lower_seq(e)) && !(ends_with(fname, ".part"@) || ends_with(
            fname,
            ".temp"@,
        ) || ends_with(fname, ".ytdl"@) || contains(fname, ".temp."@))),
        listed_extension(fname) matches Some(x) ==> (crate::paths::extension_of(fname) matches Some(e)
            && x == lower_seq(e)),
        has_media_ext_spec(fname) <==> (crate::paths::path_extension(fname) matches Some(e)
            && listed_media_name(lower_seq(e))),
        is_media_ext(crate::models::audio_ext_for(format)),
        is_media_ext(crate::models::video_ext_for(format)),
{
}

/// Reading a progress match: when capture groups 1 and 2 hold the decimal
/// index and total, the position read is exactly that index and total; a
/// match without both groups gives nothing.
pub proof fn law_progress_groups(
    i: u32,
    t: u32,
    whole: Option<Seq<char>>,
    rest: Seq<Option<Seq<char>>>,
)
    ensures
        progress_from_groups(
            Some(
                seq![whole, Some(crate::numbers::decimal_spec(i as nat)), Some(crate::numbers::decimal_spec(t as nat))]
                    + rest,
            ),
        ) == Some((i, t)),
        progress_from_groups(Some(seq![whole, None::<Seq<char>>] + rest)) is None,
        progress_from_groups(None) is None,
{
    crate::numbers::law_decimal_round_trip(i as nat, u32::MAX as nat);
    crate::numbers::law_decimal_round_trip(t as nat, u32::MAX as nat);
    let g = seq![whole, Some(crate::numbers::decimal_spec(i as nat)), Some(crate::numbers::decimal_spec(t as nat))]
        + rest;
    assert(g[1] == Some(crate::numbers::decimal_spec(i as nat)));
    assert(g[2] == Some(crate::numbers::decimal_spec(t as nat)));
    let h = seq![whole, None::<Seq<char>>] + rest;
    assert(h[1] is None);
}

proof fn lemma_text_order_common(p: Seq<char>, a: Seq<char>, b: Seq<char>)
    ensures
        text_order(p + a, p + b) == text_order(a, b),
    decreases p.len(),
{
    if p.len() > 0 {
        assert((p + a)[0] == p[0] && (p + b)[0] == p[0]);
        assert((p + a).drop_first() =~= p.drop_first() + a);
        assert((p + b).drop_first() =~= p.drop_first() + b);
        lemma_text_order_common(p.drop_first(), a, b);
    } else {
        assert(p + a =~= a);
        assert(p + b =~= b);
    }
}

/// Text compares by code points: after a common beginning, the text whose
/// next character is smaller comes first, and a text comes before every
/// longer text that it begins.
pub proof fn law_text_order(p: Seq<char>, x: char, y: char, a: Seq<char>, b: Seq<char>)
    ensures
        x < y ==> text_order(p + seq![x] + a, p + seq![y] + b) < 0,
        text_order(p, p + seq![x] + a) < 0,
        text_order(p, p) == 0,
{
    lemma_text_order_common(p, seq![x] + a, seq![y] + b);
    assert(p + seq![x] + a =~= p + (seq![x] + a));
    assert(p + seq![y] + b =~= p + (seq![y] + b));
    assert((seq![x] + a)[0] == x && (seq![y] + b)[0] == y);
    lemma_text_order_common(p, Seq::<char>::empty(), seq![x] + a);
    assert(p + Seq::<char>::empty() =~= p);
    lemma_text_order_common(p, Seq::<char>::empty(), Seq::<char>::empty());
}

/// Natural keys compare part by part: a number comes before text, numbers
/// by value, text by code points; at the first part that differs the key
/// order is that part's order, and a key comes before every longer key
/// that it begins.
pub proof fn law_key_parts_order(
    p: Seq<PartView>,
    x: PartView,
    y: PartView,
    a: Seq<PartView>,
    b: Seq<PartView>,
)
    ensures
        forall|m: nat, t: Seq<char>| part_order(PartView::Num(m), PartView::Str(t)) < 0,
        forall|m: nat, n: nat| m < n ==> part_order(PartView::Num(m), PartView::Num(n)) < 0,
        forall|m: nat| part_order(PartView::Num(m), PartView::Num(m)) == 0,
        forall|t: Seq<char>, u: Seq<char>| part_order(PartView::Str(t), PartView::Str(u)) == text_order(t, u),
        part_order(x, y) != 0 ==> key_order(p + seq![x] + a, p + seq![y] + b) == part_order(x, y),
        key_order(p, p + seq![x] + a) < 0,
    decreases p.len(),
{
    if p.len() > 0 {
        lemma_part_order_laws(p[0], p[0], p[0]);
        assert((p + seq![x] + a)[0] == p[0] && (p + seq![y] + b)[0] == p[0]);
        assert((p + seq![x] + a).drop_first() =~= p.drop_first() + seq![x] + a);
        assert((p + seq![y] + b).drop_first() =~= p.drop_first() + seq![y] + b);
        assert(p.drop_first() + Seq::<PartView>::empty() =~= p.drop_first());
        assert(p + Seq::<PartView>::empty() =~= p);
        law_key_parts_order(p.drop_first(), x, y, a, b);
    } else {
        assert(p + seq![x] + a =~= seq![x] + a);
        assert(p + seq![y] + b =~= seq![y] + b);
    }
}

} // verus!
