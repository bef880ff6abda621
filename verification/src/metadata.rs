//! Media metadata: extraction from yt-dlp's JSON dump, subtitle language
//! priorities, the metadata text export and the metadata request.
use vstd::prelude::*;
use crate::args::{arg_views, opt_view};
use crate::json::{
    as_array, as_str, get, get_str, get_string, is_null, json_array, json_get, json_keys, json_str,
    object_keys, JsonValue,
};
use crate::models::MediaMetadata;
use crate::playlist::{
    int_order, lemma_text_order_antisymmetric, lemma_text_order_transitive, lemma_text_order_zero,
    text_compare, text_order, KeyOrdering,
};
use crate::text::{chars_of, eq_str, has_prefix, starts_with, str_eq, string_of, trim, trim_ws};

verus! {

// ---------------------------------------------------------------------------
// Field extraction
// ---------------------------------------------------------------------------

pub open spec fn str_views(keys: Seq<&str>) -> Seq<Seq<char>> {
    keys.map_values(|k: &str| k@)
}

/// The first of `keys` whose member is a string that is not blank, trimmed.
pub open spec fn first_nonblank(v: JsonValue, keys: Seq<Seq<char>>) -> Option<Seq<char>>
    decreases keys.len(),
{
    if keys.len() == 0 {
        None
    } else {
        match get_str(v, keys[0]) {
            Some(s) => if trim(s).len() > 0 {
                Some(trim(s))
            } else {
                first_nonblank(v, keys.drop_first())
            },
            None => first_nonblank(v, keys.drop_first()),
        }
    }
}

/// Returns the first non-blank string member among `keys`, trimmed.
pub fn extract_json_string(val: &JsonValue, keys: &[&str]) -> (r: Option<String>)
    ensures
        opt_view(r) == first_nonblank(*val, str_views(keys@)),
{
    let mut i: usize = 0;
    assert(str_views(keys@).skip(0) =~= str_views(keys@));
    while i < keys.len()
        invariant
            i <= keys@.len(),
            first_nonblank(*val, str_views(keys@)) == first_nonblank(
                *val,
                str_views(keys@).skip(i as int),
            ),
        decreases keys.len() - i,
    {
        let ghost rest = str_views(keys@).skip(i as int);
        assert(rest[0] == keys@[i as int]@);
        assert(rest.drop_first() =~= str_views(keys@).skip(i + 1));
        match get_string(val, keys[i]) {
            Some(s) => {
                let v = chars_of(s);
                let t = trim_ws(&v);
                if t.len() > 0 {
                    return Some(string_of(&t));
                }
            },
            None => {},
        }
        i += 1;
    }
    None
}

/// The non-blank `url` member of an item, trimmed.
pub open spec fn item_url(item: JsonValue) -> Option<Seq<char>> {
    match get_str(item, "url"@) {
        Some(u) => if trim(u).len() > 0 {
            Some(trim(u))
        } else {
            None
        },
        None => None,
    }
}

/// The last item of `arr` with a non-blank `url`.
pub open spec fn last_url(arr: Seq<JsonValue>) -> Option<Seq<char>>
    decreases arr.len(),
{
    if arr.len() == 0 {
        None
    } else {
        match item_url(arr.last()) {
            Some(u) => Some(u),
            None => last_url(arr.drop_last()),
        }
    }
}

/// The best thumbnail: the `thumbnail` string, or else the last usable URL
/// of the `thumbnails` list.
pub open spec fn thumbnail_spec(v: JsonValue) -> Option<Seq<char>> {
    let direct = match get_str(v, "thumbnail"@) {
        Some(t) => if trim(t).len() > 0 {
            Some(trim(t))
        } else {
            None
        },
        None => None,
    };
    match direct {
        Some(t) => Some(t),
        None => match json_get(v, "thumbnails"@) {
            Some(l) => match json_array(l) {
                Some(arr) => last_url(arr),
                None => None,
            },
            None => None,
        },
    }
}

fn trimmed_nonblank(s: &str) -> (r: Option<String>)
    ensures
        opt_view(r) == (if trim(s@).len() > 0 {
            Some(trim(s@))
        } else {
            None::<Seq<char>>
        }),
{
    let v = chars_of(s);
    let t = trim_ws(&v);
    if t.len() > 0 {
        Some(string_of(&t))
    } else {
        None
    }
}

/// Resolves the best thumbnail URL of a JSON object.
pub fn extract_json_thumbnail(val: &JsonValue) -> (r: Option<String>)
    ensures
        opt_view(r) == thumbnail_spec(*val),
{
    match get_string(val, "thumbnail") {
        Some(t) => {
            let d = trimmed_nonblank(t);
            if d.is_some() {
                return d;
            }
        },
        None => {},
    }
    match get(val, "thumbnails") {
        Some(l) => match as_array(l) {
            Some(arr) => {
                let mut k: usize = arr.len();
                assert(arr@.take(k as int) =~= arr@);
                assert(thumbnail_spec(*val) == last_url(arr@));
                while k > 0
                    invariant
                        k <= arr@.len(),
                        thumbnail_spec(*val) == last_url(arr@),
                        last_url(arr@) == last_url(arr@.take(k as int)),
                    decreases k,
                {
                    assert(arr@.take(k as int).last() == arr@[k - 1]);
                    assert(arr@.take(k as int).drop_last() =~= arr@.take(k - 1));
                    match get_string(&arr[k - 1], "url") {
                        Some(u) => {
                            let d = trimmed_nonblank(u);
                            if d.is_some() {
                                return d;
                            }
                        },
                        None => {},
                    }
                    k -= 1;
                }
                None
            },
            None => None,
        },
        None => None,
    }
}

/// A number's duration in seconds: the number as `u64`, or else rounded.
pub open spec fn duration_spec(v: JsonValue) -> Option<u64> {
    match json_get(v, "duration"@) {
        Some(d) => match d {
            JsonValue::Number(n) => if n.as_u64 is Some {
                n.as_u64
            } else {
                n.rounded
            },
            _ => None,
        },
        None => None,
    }
}

/// The numeric `duration` member of a JSON object, in whole seconds.
pub fn extract_json_duration(val: &JsonValue) -> (r: Option<u64>)
    ensures
        r == duration_spec(*val),
{
    match get(val, "duration") {
        Some(d) => match d {
            JsonValue::Number(n) => if n.as_u64.is_some() {
                n.as_u64
            } else {
                n.rounded
            },
            _ => None,
        },
        None => None,
    }
}

// ---------------------------------------------------------------------------
// Subtitle languages
// ---------------------------------------------------------------------------

/// Priority class of a subtitle language: Khmer, original Khmer, English,
/// English variants, then everything else.
pub open spec fn subtitle_rank(s: Seq<char>) -> int {
    if s == "km"@ {
        0
    } else if s == "km-orig"@ {
        1
    } else if s == "en"@ {
        2
    } else if starts_with(s, "en-"@) || starts_with(s, "en."@) || starts_with(s, "en_"@) {
        3
    } else {
        4
    }
}

/// Languages ordered by priority class, then alphabetically.
pub open spec fn subtitle_order(a: Seq<char>, b: Seq<char>) -> int {
    if subtitle_rank(a) != subtitle_rank(b) {
        int_order(subtitle_rank(a), subtitle_rank(b))
    } else {
        text_order(a, b)
    }
}

/// Strictly increasing in subtitle priority order: sorted and without
/// repetitions.
pub open spec fn strictly_prioritized(s: Seq<Seq<char>>) -> bool {
    forall|i: int, j: int| 0 <= i < j < s.len() ==> subtitle_order(s[i], s[j]) < 0
}

/// `out` is a prioritised form of `langs`: strictly in priority order (so
/// without repetitions) and holding exactly the languages of `langs`.
pub open spec fn prioritized(langs: Seq<Seq<char>>, out: Seq<Seq<char>>) -> bool {
    &&& strictly_prioritized(out)
    &&& forall|x: Seq<char>| out.contains(x) <==> langs.contains(x)
}

pub proof fn lemma_subtitle_order(a: Seq<char>, b: Seq<char>, c: Seq<char>)
    ensures
        subtitle_order(a, b) == -subtitle_order(b, a),
        subtitle_order(a, b) == 0 <==> a == b,
        subtitle_order(a, b) < 0 && subtitle_order(b, c) < 0 ==> subtitle_order(a, c) < 0,
{
    lemma_text_order_antisymmetric(a, b);
    lemma_text_order_zero(a, b);
    lemma_text_order_zero(b, c);
    lemma_text_order_zero(a, c);
    if subtitle_order(a, b) < 0 && subtitle_order(b, c) < 0 && subtitle_rank(a) == subtitle_rank(
        b,
    ) && subtitle_rank(b) == subtitle_rank(c) {
        lemma_text_order_transitive(a, b, c);
    }
}

fn subtitle_rank_of(s: &[char]) -> (r: u8)
    ensures
        r as int == subtitle_rank(s@),
{
    if eq_str(s, "km") {
        0
    } else if eq_str(s, "km-orig") {
        1
    } else if eq_str(s, "en") {
        2
    } else {
        let a = chars_of("en-");
        let b = chars_of("en.");
        let c = chars_of("en_");
        if has_prefix(s, &a) || has_prefix(s, &b) || has_prefix(s, &c) {
            3
        } else {
            4
        }
    }
}

fn subtitle_compare(a: &str, b: &str) -> (r: KeyOrdering)
    ensures
        r.value() == subtitle_order(a@, b@),
{
    let av = chars_of(a);
    let bv = chars_of(b);
    let ra = subtitle_rank_of(&av);
    let rb = subtitle_rank_of(&bv);
    if ra < rb {
        KeyOrdering::Less
    } else if ra > rb {
        KeyOrdering::Greater
    } else {
        text_compare(&av, &bv)
    }
}

proof fn lemma_take_push_contains(s: Seq<Seq<char>>, i: int, x: Seq<char>)
    requires
        0 <= i < s.len(),
    ensures
        s.take(i + 1).contains(x) <==> (s.take(i).contains(x) || x == s[i]),
{
    let t1 = s.take(i + 1);
    let t0 = s.take(i);
    if t1.contains(x) {
        let k = choose|k: int| 0 <= k < t1.len() && t1[k] == x;
        if k < i {
            assert(t0[k] == x);
        }
    }
    if t0.contains(x) {
        let k = choose|k: int| 0 <= k < t0.len() && t0[k] == x;
        assert(t1[k] == x);
    }
    if x == s[i] {
        assert(s.take(i + 1)[i] == x);
    }
}

fn subtitle_less(a: &str, b: &str) -> (r: bool)
    ensures
        r == (subtitle_order(a@, b@) < 0),
{
    match subtitle_compare(a, b) {
        KeyOrdering::Less => true,
        _ => false,
    }
}

/// Sorts and deduplicates subtitle language codes by priority: "km",
/// "km-orig", "en", English variants ("en-US", "en-GB", ...), then the rest
/// alphabetically.
pub fn sort_and_prioritize_subtitles(langs: Vec<String>) -> (r: Vec<String>)
    ensures
        prioritized(arg_views(langs@), arg_views(r@)),
{
    let mut r: Vec<String> = Vec::new();
    let mut i: usize = 0;
    while i < langs.len()
        invariant
            i <= langs@.len(),
            strictly_prioritized(arg_views(r@)),
            forall|x: Seq<char>| arg_views(r@).contains(x) <==> arg_views(langs@).take(
                i as int,
            ).contains(x),
        decreases langs.len() - i,
    {
        let lang = &langs[i];
        let ghost lv = lang@;
        let mut p: usize = 0;
        while p < r.len() && subtitle_less(r[p].as_str(), lang.as_str())
            invariant
                p <= r@.len(),
                lv == lang@,
                forall|k: int| 0 <= k < p ==> subtitle_order(#[trigger] r@[k]@, lv) < 0,
            decreases r.len() - p,
        {
            p += 1;
        }
        assert(arg_views(langs@).take(i + 1) =~= arg_views(langs@).take(i as int).push(lv));
        let dup = p < r.len() && str_eq(r[p].as_str(), lang.as_str());
        if !dup {
            let ghost old_r = r@;
            proof {
                if p < r@.len() {
                    lemma_subtitle_order(r@[p as int]@, lv, lv);
                    assert(subtitle_order(r@[p as int]@, lv) > 0);
                }
            }
            r.insert(p, lang.clone());
            proof {
                assert(r@[p as int]@ == lv);
                assert(arg_views(r@) =~= arg_views(old_r).insert(p as int, lv));
                assert forall|a: int, b: int| 0 <= a < b < arg_views(r@).len() implies subtitle_order(
                    arg_views(r@)[a],
                    arg_views(r@)[b],
                ) < 0 by {
                    if b < p {
                        assert(r@[a] == old_r[a]);
                        assert(r@[b] == old_r[b]);
                    } else if a < p && b == p {
                        assert(r@[a] == old_r[a]);
                    } else if a < p && b > p {
                        assert(r@[a] == old_r[a]);
                        assert(r@[b] == old_r[b - 1]);
                    } else if a == p {
                        assert(r@[b] == old_r[b - 1]);
                        lemma_subtitle_order(old_r[p as int]@, lv, lv);
                        if b - 1 > p {
                            assert(subtitle_order(arg_views(old_r)[p as int], arg_views(old_r)[b - 1]) < 0);
                            lemma_subtitle_order(lv, old_r[p as int]@, old_r[b - 1]@);
                        }
                    } else {
                        assert(r@[a] == old_r[a - 1]);
                        assert(r@[b] == old_r[b - 1]);
                    }
                }
                assert forall|x: Seq<char>| arg_views(r@).contains(x) <==> arg_views(
                    langs@,
                ).take(i + 1).contains(x) by {
                    lemma_take_push_contains(arg_views(langs@), i as int, x);
                    if arg_views(r@).contains(x) {
                        let k = choose|k: int| 0 <= k < arg_views(r@).len() && arg_views(r@)[k] == x;
                        if k < p {
                            assert(arg_views(old_r)[k] == x);
                        } else if k > p {
                            assert(arg_views(old_r)[k - 1] == x);
                        }
                    }
                    if arg_views(old_r).contains(x) {
                        let k = choose|k: int| 0 <= k < arg_views(old_r).len() && arg_views(old_r)[k] == x;
                        if k < p {
                            assert(arg_views(r@)[k] == x);
                        } else {
                            assert(arg_views(r@)[k + 1] == x);
                        }
                    }
                    if x == lv {
                        assert(arg_views(r@)[p as int] == x);
                    }
                }
            }
        } else {
            proof {
                assert(arg_views(r@)[p as int] == lv);
                assert forall|x: Seq<char>| arg_views(r@).contains(x) <==> arg_views(
                    langs@,
                ).take(i + 1).contains(x) by {
                    lemma_take_push_contains(arg_views(langs@), i as int, x);
                }
            }
        }
        i += 1;
    }
    assert(arg_views(langs@).take(langs@.len() as int) =~= arg_views(langs@));
    r
}

/// The prioritised order of a set of languages is unique: two lists that
/// are both strictly in priority order and hold the same languages are the
/// same list. So prioritising depends only on which languages are given
/// (not on their order or repetitions), and prioritising twice changes
/// nothing.
pub proof fn law_prioritized_order_unique(a: Seq<Seq<char>>, b: Seq<Seq<char>>)
    requires
        strictly_prioritized(a),
        strictly_prioritized(b),
        forall|x: Seq<char>| a.contains(x) <==> b.contains(x),
    ensures
        a == b,
    decreases a.len(),
{
    if a.len() == 0 || b.len() == 0 {
        if b.len() > 0 {
            assert(b.contains(b[0]));
        }
        if a.len() > 0 {
            assert(a.contains(a[0]));
        }
        assert(a =~= b);
    } else {
        assert(a.contains(a[0]));
        assert(b.contains(b[0]));
        let k = choose|k: int| 0 <= k < b.len() && b[k] == a[0];
        let m = choose|m: int| 0 <= m < a.len() && a[m] == b[0];
        lemma_subtitle_order(a[0], b[0], a[0]);
        if k > 0 && m > 0 {
            assert(subtitle_order(b[0], b[k]) < 0);
            assert(subtitle_order(a[0], a[m]) < 0);
        }
        assert(a[0] == b[0]);
        let a1 = a.drop_first();
        let b1 = b.drop_first();
        assert forall|x: Seq<char>| a1.contains(x) <==> b1.contains(x) by {
            if a1.contains(x) {
                let i = choose|i: int| 0 <= i < a1.len() && a1[i] == x;
                assert(a[i + 1] == x);
                assert(subtitle_order(a[0], a[i + 1]) < 0);
                lemma_subtitle_order(a[0], x, x);
                assert(b.contains(x));
                let j = choose|j: int| 0 <= j < b.len() && b[j] == x;
                assert(j != 0);
                assert(b1[j - 1] == x);
            }
            if b1.contains(x) {
                let i = choose|i: int| 0 <= i < b1.len() && b1[i] == x;
                assert(b[i + 1] == x);
                assert(subtitle_order(b[0], b[i + 1]) < 0);
                lemma_subtitle_order(b[0], x, x);
                assert(a.contains(x));
                let j = choose|j: int| 0 <= j < a.len() && a[j] == x;
                assert(j != 0);
                assert(a1[j - 1] == x);
            }
        }
        assert forall|i: int, j: int| 0 <= i < j < a1.len() implies subtitle_order(
            a1[i],
            a1[j],
        ) < 0 by {
            assert(a1[i] == a[i + 1] && a1[j] == a[j + 1]);
        }
        assert forall|i: int, j: int| 0 <= i < j < b1.len() implies subtitle_order(
            b1[i],
            b1[j],
        ) < 0 by {
            assert(b1[i] == b[i + 1] && b1[j] == b[j + 1]);
        }
        law_prioritized_order_unique(a1, b1);
        assert forall|i: int| 0 < i < a.len() implies a[i] == b[i] by {
            assert(a[i] == a1[i - 1] && b[i] == b1[i - 1]);
        }
        assert(a =~= b);
    }
}

/// Prioritising is idempotent: prioritising the result of prioritising
/// gives that result back unchanged.
pub proof fn law_prioritize_idempotent(
    langs: Seq<Seq<char>>,
    once: Seq<Seq<char>>,
    twice: Seq<Seq<char>>,
)
    requires
        prioritized(langs, once),
        prioritized(once, twice),
    ensures
        twice == once,
{
    law_prioritized_order_unique(twice, once);
}

/// An English variant: `en-`, `en.` or `en_` followed by anything.
pub open spec fn english_variant(s: Seq<char>) -> bool {
    starts_with(s, "en-"@) || starts_with(s, "en."@) || starts_with(s, "en_"@)
}

/// The subtitle priority: Khmer (`km`) before everything else, then
/// original Khmer (`km-orig`), then English (`en`), then English variants,
/// then all other languages; within the variants and within the others,
/// alphabetical order of code points.
pub proof fn law_subtitle_priority(a: Seq<char>, b: Seq<char>)
    requires
        a != b,
    ensures
        a == "km"@ ==> subtitle_order(a, b) < 0,
        a == "km-orig"@ && b != "km"@ ==> subtitle_order(a, b) < 0,
        a == "en"@ && b != "km"@ && b != "km-orig"@ ==> subtitle_order(a, b) < 0,
        english_variant(a) && !english_variant(b) && b != "km"@ && b != "km-orig"@ && b != "en"@
            ==> subtitle_order(a, b) < 0,
        english_variant(a) && english_variant(b) ==> subtitle_order(a, b) == text_order(a, b),
        !english_variant(a) && !english_variant(b) && a != "km"@ && a != "km-orig"@ && a != "en"@
            && b != "km"@ && b != "km-orig"@ && b != "en"@ ==> subtitle_order(a, b) == text_order(
            a,
            b,
        ),
{
    reveal_strlit("km");
    reveal_strlit("km-orig");
    reveal_strlit("en");
    reveal_strlit("en-");
    reveal_strlit("en.");
    reveal_strlit("en_");
    assert(!english_variant("km"@) && !english_variant("km-orig"@) && !english_variant("en"@)) by {
        assert("km"@[0] == 'k' && "km-orig"@[0] == 'k');
        assert("en-"@.len() == 3 && "en."@.len() == 3 && "en_"@.len() == 3 && "en"@.len() == 2);
        assert("en-"@[0] == 'e' && "en."@[0] == 'e' && "en_"@[0] == 'e');
        assert("km-orig"@.take(3)[0] == 'k');
    }
    assert("km"@ != "km-orig"@ && "km"@ != "en"@ && "km-orig"@ != "en"@) by {
        assert("km"@.len() == 2 && "km-orig"@.len() == 7 && "en"@[0] == 'e' && "km"@[0] == 'k');
    }
}

// ---------------------------------------------------------------------------
// Available subtitles
// ---------------------------------------------------------------------------

/// The non-blank names among `ks`, trimmed, in order.
pub open spec fn nonblank_trimmed(ks: Seq<Seq<char>>) -> Seq<Seq<char>>
    decreases ks.len(),
{
    if ks.len() == 0 {
        Seq::empty()
    } else {
        let rest = nonblank_trimmed(ks.drop_last());
        if trim(ks.last()).len() > 0 {
            rest.push(trim(ks.last()))
        } else {
            rest
        }
    }
}

/// The (trimmed, non-blank) member names of the object member `name`.
pub open spec fn member_keys(v: JsonValue, name: Seq<char>) -> Seq<Seq<char>> {
    match json_get(v, name) {
        Some(m) => match json_keys(m) {
            Some(ks) => nonblank_trimmed(ks),
            None => Seq::empty(),
        },
        None => Seq::empty(),
    }
}

/// Languages of manual and automatic captions of one video.
pub open spec fn caption_keys(v: JsonValue) -> Seq<Seq<char>> {
    member_keys(v, "subtitles"@) + member_keys(v, "automatic_captions"@)
}

pub open spec fn entries_caption_keys(es: Seq<JsonValue>) -> Seq<Seq<char>>
    decreases es.len(),
{
    if es.len() == 0 {
        Seq::empty()
    } else {
        entries_caption_keys(es.drop_last()) + caption_keys(es.last())
    }
}

/// The first five playlist entries (fewer when there are fewer).
pub open spec fn first_entries(v: JsonValue) -> Seq<JsonValue> {
    match json_get(v, "entries"@) {
        Some(e) => match json_array(e) {
            Some(a) => if a.len() > 5 {
                a.take(5)
            } else {
                a
            },
            None => Seq::empty(),
        },
        None => Seq::empty(),
    }
}

/// Every caption language named by a video or by its first five entries.
pub open spec fn all_caption_keys(v: JsonValue) -> Seq<Seq<char>> {
    caption_keys(v) + entries_caption_keys(first_entries(v))
}

proof fn lemma_seq_concat_contains(a: Seq<Seq<char>>, b: Seq<Seq<char>>, x: Seq<char>)
    ensures
        (a + b).contains(x) <==> (a.contains(x) || b.contains(x)),
{
    if (a + b).contains(x) {
        let i = choose|i: int| 0 <= i < (a + b).len() && (a + b)[i] == x;
        if i < a.len() {
            assert(a[i] == x);
        } else {
            assert(b[i - a.len()] == x);
        }
    }
    if a.contains(x) {
        let i = choose|i: int| 0 <= i < a.len() && a[i] == x;
        assert((a + b)[i] == x);
    }
    if b.contains(x) {
        let i = choose|i: int| 0 <= i < b.len() && b[i] == x;
        assert((a + b)[a.len() + i] == x);
    }
}

proof fn lemma_nonblank_trimmed(ks: Seq<Seq<char>>, x: Seq<char>)
    ensures
        nonblank_trimmed(ks).contains(x) <==> (x.len() > 0 && exists|k: int|
            0 <= k < ks.len() && trim(#[trigger] ks[k]) == x),
    decreases ks.len(),
{
    if ks.len() > 0 {
        let p = ks.drop_last();
        lemma_nonblank_trimmed(p, x);
        let rest = nonblank_trimmed(p);
        if trim(ks.last()).len() > 0 {
            lemma_seq_concat_contains(rest, seq![trim(ks.last())], x);
            assert(rest.push(trim(ks.last())) =~= rest + seq![trim(ks.last())]);
        }
        if exists|k: int| 0 <= k < ks.len() && trim(#[trigger] ks[k]) == x {
            let k = choose|k: int| 0 <= k < ks.len() && trim(#[trigger] ks[k]) == x;
            if k < p.len() {
                assert(trim(p[k]) == x);
            } else if x.len() > 0 {
                assert(seq![trim(ks.last())][0] == x);
            }
        }
        if exists|k: int| 0 <= k < p.len() && trim(#[trigger] p[k]) == x {
            let k = choose|k: int| 0 <= k < p.len() && trim(#[trigger] p[k]) == x;
            assert(trim(ks[k]) == x);
        }
    }
}

proof fn lemma_entries_keys(es: Seq<JsonValue>, x: Seq<char>)
    ensures
        entries_caption_keys(es).contains(x) <==> exists|k: int|
            0 <= k < es.len() && caption_keys(#[trigger] es[k]).contains(x),
    decreases es.len(),
{
    if es.len() > 0 {
        let p = es.drop_last();
        lemma_entries_keys(p, x);
        lemma_seq_concat_contains(entries_caption_keys(p), caption_keys(es.last()), x);
        if exists|k: int| 0 <= k < es.len() && caption_keys(#[trigger] es[k]).contains(x) {
            let k = choose|k: int| 0 <= k < es.len() && caption_keys(#[trigger] es[k]).contains(x);
            if k < p.len() {
                assert(caption_keys(p[k]).contains(x));
            }
        }
        if exists|k: int| 0 <= k < p.len() && caption_keys(#[trigger] p[k]).contains(x) {
            let k = choose|k: int| 0 <= k < p.len() && caption_keys(#[trigger] p[k]).contains(x);
            assert(es[k] == p[k]);
        }
    }
}

/// The subtitle languages offered for a dump: a language is offered exactly
/// when it is a non-blank key (trimmed) of the `subtitles` or
/// `automatic_captions` object of the dump itself or of one of the first
/// five of its `entries`; later entries are not read.
pub proof fn law_caption_languages(v: JsonValue, x: Seq<char>)
    ensures
        forall|name: Seq<char>|
            (name == "subtitles"@ || name == "automatic_captions"@) ==> (member_keys(v, name).contains(
                x,
            ) ==> all_caption_keys(v).contains(x)),
        forall|m: JsonValue, ks: Seq<Seq<char>>|
            json_get(v, "subtitles"@) == Some(m) && json_keys(m) == Some(ks) ==> (member_keys(
                v,
                "subtitles"@,
            ).contains(x) <==> (x.len() > 0 && exists|k: int|
                0 <= k < ks.len() && trim(#[trigger] ks[k]) == x)),
        forall|e: JsonValue, a: Seq<JsonValue>|
            json_get(v, "entries"@) == Some(e) && json_array(e) == Some(a) ==> (all_caption_keys(
                v,
            ).contains(x) <==> (caption_keys(v).contains(x) || exists|k: int|
                0 <= k < a.len() && k < 5 && caption_keys(#[trigger] a[k]).contains(x))),
{
    lemma_seq_concat_contains(caption_keys(v), entries_caption_keys(first_entries(v)), x);
    lemma_seq_concat_contains(member_keys(v, "subtitles"@), member_keys(v, "automatic_captions"@), x);
    lemma_entries_keys(first_entries(v), x);
    assert forall|m: JsonValue, ks: Seq<Seq<char>>|
        json_get(v, "subtitles"@) == Some(m) && json_keys(m) == Some(ks) implies (member_keys(
        v,
        "subtitles"@,
    ).contains(x) <==> (x.len() > 0 && exists|k: int|
        0 <= k < ks.len() && trim(#[trigger] ks[k]) == x)) by {
        lemma_nonblank_trimmed(ks, x);
    }
    assert forall|e: JsonValue, a: Seq<JsonValue>|
        json_get(v, "entries"@) == Some(e) && json_array(e) == Some(a) implies (all_caption_keys(
        v,
    ).contains(x) <==> (caption_keys(v).contains(x) || exists|k: int|
        0 <= k < a.len() && k < 5 && caption_keys(#[trigger] a[k]).contains(x))) by {
        let f = first_entries(v);
        if exists|k: int| 0 <= k < a.len() && k < 5 && caption_keys(#[trigger] a[k]).contains(x) {
            let k = choose|k: int| 0 <= k < a.len() && k < 5 && caption_keys(#[trigger] a[k]).contains(x);
            assert(f[k] == a[k]);
        }
        if exists|k: int| 0 <= k < f.len() && caption_keys(#[trigger] f[k]).contains(x) {
            let k = choose|k: int| 0 <= k < f.len() && caption_keys(#[trigger] f[k]).contains(x);
            assert(f[k] == a[k]);
        }
    }
}

fn push_member_keys(g: &mut Vec<String>, v: &JsonValue, name: &str)
    ensures
        arg_views(final(g)@) == arg_views(old(g)@) + member_keys(*v, name@),
{
    let ghost g0 = arg_views(g@);
    match get(v, name) {
        Some(m) => match object_keys(m) {
            Some(keys) => {
                let ghost ks = keys@.map_values(|s: String| s@);
                let mut k: usize = 0;
                assert(ks.take(0) =~= Seq::<Seq<char>>::empty());
                assert(arg_views(g@) =~= g0 + nonblank_trimmed(ks.take(0)));
                while k < keys.len()
                    invariant
                        k <= keys@.len(),
                        ks == keys@.map_values(|s: String| s@),
                        arg_views(g@) == g0 + nonblank_trimmed(ks.take(k as int)),
                    decreases keys.len() - k,
                {
                    assert(ks.take(k + 1).drop_last() =~= ks.take(k as int));
                    assert(ks.take(k + 1).last() == keys@[k as int]@);
                    let v = chars_of(keys[k].as_str());
                    let t = trim_ws(&v);
                    if t.len() > 0 {
                        let ghost before = arg_views(g@);
                        g.push(string_of(&t));
                        assert(arg_views(g@) =~= before.push(t@));
                    }
                    k += 1;
                }
                assert(ks.take(keys@.len() as int) =~= ks);
            },
            None => {
                assert(arg_views(g@) =~= g0 + member_keys(*v, name@));
            },
        },
        None => {
            assert(arg_views(g@) =~= g0 + member_keys(*v, name@));
        },
    }
}

fn push_caption_keys(g: &mut Vec<String>, v: &JsonValue)
    ensures
        arg_views(final(g)@) == arg_views(old(g)@) + caption_keys(*v),
{
    let ghost g0 = arg_views(g@);
    push_member_keys(g, v, "subtitles");
    push_member_keys(g, v, "automatic_captions");
    assert(arg_views(g@) =~= g0 + caption_keys(*v));
}

/// Collects the subtitle languages (manual and automatic captions) of a
/// video, or of a playlist and its first five entries, without repetition
/// and in priority order.
pub fn extract_available_subtitles(val: &JsonValue) -> (r: Vec<String>)
    ensures
        strictly_prioritized(arg_views(r@)),
        forall|x: Seq<char>| arg_views(r@).contains(x) <==> all_caption_keys(*val).contains(x),
{
    let mut g: Vec<String> = Vec::new();
    assert(arg_views(g@) =~= Seq::<Seq<char>>::empty());
    push_caption_keys(&mut g, val);
    let ghost g1 = arg_views(g@);
    match get(val, "entries") {
        Some(e) => match as_array(e) {
            Some(arr) => {
                let n = if arr.len() > 5 {
                    5
                } else {
                    arr.len()
                };
                let ghost es = first_entries(*val);
                assert(es =~= arr@.take(n as int));
                let mut k: usize = 0;
                assert(es.take(0) =~= Seq::<JsonValue>::empty());
                assert(arg_views(g@) =~= g1 + entries_caption_keys(es.take(0)));
                while k < n
                    invariant
                        k <= n <= arr@.len(),
                        es == arr@.take(n as int),
                        arg_views(g@) == g1 + entries_caption_keys(es.take(k as int)),
                    decreases n - k,
                {
                    assert(es.take(k + 1).drop_last() =~= es.take(k as int));
                    assert(es.take(k + 1).last() == arr@[k as int]);
                    push_caption_keys(&mut g, &arr[k]);
                    assert(arg_views(g@) =~= g1 + entries_caption_keys(es.take(k + 1)));
                    k += 1;
                }
                assert(es.take(n as int) =~= es);
            },
            None => {
                assert(arg_views(g@) =~= all_caption_keys(*val));
            },
        },
        None => {
            assert(arg_views(g@) =~= all_caption_keys(*val));
        },
    }
    assert(arg_views(g@) =~= all_caption_keys(*val));
    sort_and_prioritize_subtitles(g)
}

// ---------------------------------------------------------------------------
// Metadata of a video or playlist
// ---------------------------------------------------------------------------

/// A dump describes a playlist when its `_type` says so or it has entries.
pub open spec fn is_playlist_json(v: JsonValue) -> bool {
    (match get_str(v, "_type"@) {
        Some(t) => t == "playlist"@ || t == "multi_video"@,
        None => false,
    }) || json_get(v, "entries"@) is Some
}

pub open spec fn first_non_null_from(a: Seq<JsonValue>, i: int) -> Option<JsonValue>
    decreases a.len() - i,
{
    if i < 0 || i >= a.len() {
        None
    } else if !(a[i] is Null) {
        Some(a[i])
    } else {
        first_non_null_from(a, i + 1)
    }
}

/// The first non-null entry of a playlist dump.
pub open spec fn first_entry_spec(v: JsonValue) -> Option<JsonValue> {
    if is_playlist_json(v) {
        match json_get(v, "entries"@) {
            Some(e) => match json_array(e) {
                Some(a) => first_non_null_from(a, 0),
                None => None,
            },
            None => None,
        }
    } else {
        None
    }
}

/// A value from the top level, or else from the first entry.
pub open spec fn or_from_entry(
    top: Option<Seq<char>>,
    entry: Option<JsonValue>,
    keys: Seq<Seq<char>>,
) -> Option<Seq<char>> {
    match top {
        Some(t) => Some(t),
        None => match entry {
            Some(e) => first_nonblank(e, keys),
            None => None,
        },
    }
}

pub open spec fn uploader_keys() -> Seq<Seq<char>> {
    seq!["uploader"@, "channel"@, "creator"@, "uploader_id"@, "channel_id"@]
}

pub open spec fn title_spec(v: JsonValue) -> Seq<char> {
    match or_from_entry(first_nonblank(v, seq!["title"@]), first_entry_spec(v), seq!["title"@]) {
        Some(t) => t,
        None => "Unknown Title"@,
    }
}

pub open spec fn meta_thumbnail_spec(v: JsonValue) -> Option<Seq<char>> {
    match thumbnail_spec(v) {
        Some(t) => Some(t),
        None => match first_entry_spec(v) {
            Some(e) => thumbnail_spec(e),
            None => None,
        },
    }
}

pub open spec fn meta_duration_spec(v: JsonValue) -> Option<u64> {
    match duration_spec(v) {
        Some(d) => Some(d),
        None => match first_entry_spec(v) {
            Some(e) => duration_spec(e),
            None => None,
        },
    }
}

pub open spec fn uploader_spec(v: JsonValue) -> Option<Seq<char>> {
    or_from_entry(first_nonblank(v, uploader_keys()), first_entry_spec(v), uploader_keys())
}

pub open spec fn webpage_url_spec(v: JsonValue, fallback: Seq<char>) -> Seq<char> {
    match or_from_entry(
        first_nonblank(v, seq!["webpage_url"@, "original_url"@]),
        first_entry_spec(v),
        seq!["webpage_url"@, "original_url"@, "url"@],
    ) {
        Some(u) => u,
        None => fallback,
    }
}

pub open spec fn description_spec(v: JsonValue) -> Option<Seq<char>> {
    or_from_entry(
        first_nonblank(v, seq!["description"@]),
        first_entry_spec(v),
        seq!["description"@],
    )
}

/// The string items of a list, in order.
pub open spec fn string_items(a: Seq<JsonValue>) -> Seq<Seq<char>>
    decreases a.len(),
{
    if a.len() == 0 {
        Seq::empty()
    } else {
        match json_str(a.last()) {
            Some(s) => string_items(a.drop_last()).push(s),
            None => string_items(a.drop_last()),
        }
    }
}

pub open spec fn tags_spec(v: JsonValue) -> Option<Seq<Seq<char>>> {
    match json_get(v, "tags"@) {
        Some(t) => match json_array(t) {
            Some(a) => Some(string_items(a)),
            None => None,
        },
        None => None,
    }
}

fn first_non_null<'a>(a: &'a Vec<JsonValue>) -> (r: Option<&'a JsonValue>)
    ensures
        r matches Some(e) ==> first_non_null_from(a@, 0) == Some(*e),
        r is None ==> first_non_null_from(a@, 0) is None,
{
    let mut i: usize = 0;
    while i < a.len()
        invariant
            i <= a@.len(),
            first_non_null_from(a@, 0) == first_non_null_from(a@, i as int),
        decreases a.len() - i,
    {
        if !is_null(&a[i]) {
            return Some(&a[i]);
        }
        i += 1;
    }
    None
}

fn first_entry<'a>(val: &'a JsonValue) -> (r: Option<&'a JsonValue>)
    ensures
        r matches Some(e) ==> first_entry_spec(*val) == Some(*e),
        r is None ==> first_entry_spec(*val) is None,
{
    let typed = match get_string(val, "_type") {
        Some(t) => str_eq(t, "playlist") || str_eq(t, "multi_video"),
        None => false,
    };
    let is_playlist = typed || get(val, "entries").is_some();
    if is_playlist {
        match get(val, "entries") {
            Some(e) => match as_array(e) {
                Some(a) => first_non_null(a),
                None => None,
            },
            None => None,
        }
    } else {
        None
    }
}

fn string_or_entry(
    val: &JsonValue,
    entry: Option<&JsonValue>,
    keys: &Vec<&str>,
    entry_keys: &Vec<&str>,
) -> (r: Option<String>)
    ensures
        opt_view(r) == or_from_entry(
            first_nonblank(*val, str_views(keys@)),
            match entry {
                Some(e) => Some(*e),
                None => None,
            },
            str_views(entry_keys@),
        ),
{
    match extract_json_string(val, keys.as_slice()) {
        Some(s) => Some(s),
        None => match entry {
            Some(e) => extract_json_string(e, entry_keys.as_slice()),
            None => None,
        },
    }
}

fn string_items_of(a: &Vec<JsonValue>) -> (r: Vec<String>)
    ensures
        arg_views(r@) == string_items(a@),
{
    let mut r: Vec<String> = Vec::new();
    let mut k: usize = 0;
    assert(a@.take(0) =~= Seq::<JsonValue>::empty());
    assert(arg_views(r@) =~= string_items(a@.take(0)));
    while k < a.len()
        invariant
            k <= a@.len(),
            arg_views(r@) == string_items(a@.take(k as int)),
        decreases a.len() - k,
    {
        assert(a@.take(k + 1).drop_last() =~= a@.take(k as int));
        assert(a@.take(k + 1).last() == a@[k as int]);
        match as_str(&a[k]) {
            Some(s) => {
                let ghost before = arg_views(r@);
                r.push(String::from_str(s));
                assert(arg_views(r@) =~= before.push(s@));
            },
            None => {},
        }
        k += 1;
    }
    assert(a@.take(a@.len() as int) =~= a@);
    r
}

/// Builds the metadata of a video or playlist from yt-dlp's JSON dump: each
/// field from the top level, or else from the first playlist entry, or else
/// a default (`Unknown Title`, the given fallback URL).
pub fn media_metadata_from_json(val: &JsonValue, fallback_url: &str) -> (m: MediaMetadata)
    ensures
        m.title@ == title_spec(*val),
        opt_view(m.thumbnail) == meta_thumbnail_spec(*val),
        m.duration == meta_duration_spec(*val),
        opt_view(m.uploader) == uploader_spec(*val),
        m.webpage_url@ == webpage_url_spec(*val, fallback_url@),
        strictly_prioritized(arg_views(m.available_subtitles@)),
        forall|x: Seq<char>| arg_views(m.available_subtitles@).contains(x)
            <==> all_caption_keys(*val).contains(x),
        opt_view(m.description) == description_spec(*val),
        match m.tags {
            Some(t) => tags_spec(*val) == Some(arg_views(t@)),
            None => tags_spec(*val) is None,
        },
{
    let entry = first_entry(val);
    let ghost ev = first_entry_spec(*val);
    let title_keys = vec!["title"];
    assert(str_views(title_keys@) =~= seq!["title"@]);
    let title = match string_or_entry(val, entry, &title_keys, &title_keys) {
        Some(t) => t,
        None => String::from_str("Unknown Title"),
    };
    let thumbnail = match extract_json_thumbnail(val) {
        Some(t) => Some(t),
        None => match entry {
            Some(e) => extract_json_thumbnail(e),
            None => None,
        },
    };
    let duration = match extract_json_duration(val) {
        Some(d) => Some(d),
        None => match entry {
            Some(e) => extract_json_duration(e),
            None => None,
        },
    };
    let up_keys = vec!["uploader", "channel", "creator", "uploader_id", "channel_id"];
    assert(str_views(up_keys@) =~= uploader_keys());
    let uploader = string_or_entry(val, entry, &up_keys, &up_keys);
    let url_keys = vec!["webpage_url", "original_url"];
    let entry_url_keys = vec!["webpage_url", "original_url", "url"];
    assert(str_views(url_keys@) =~= seq!["webpage_url"@, "original_url"@]);
    assert(str_views(entry_url_keys@) =~= seq!["webpage_url"@, "original_url"@, "url"@]);
    let webpage_url = match string_or_entry(val, entry, &url_keys, &entry_url_keys) {
        Some(u) => u,
        None => String::from_str(fallback_url),
    };
    let available_subtitles = extract_available_subtitles(val);
    let desc_keys = vec!["description"];
    assert(str_views(desc_keys@) =~= seq!["description"@]);
    let description = string_or_entry(val, entry, &desc_keys, &desc_keys);
    let tags = match get(val, "tags") {
        Some(t) => match as_array(t) {
            Some(a) => Some(string_items_of(a)),
            None => None,
        },
        None => None,
    };
    MediaMetadata {
        title,
        thumbnail,
        duration,
        uploader,
        webpage_url,
        available_subtitles,
        description,
        tags,
    }
}

// ---------------------------------------------------------------------------
// Locating the JSON document in yt-dlp's output
// ---------------------------------------------------------------------------

pub open spec fn result_view(r: Result<String, String>) -> Result<Seq<char>, Seq<char>> {
    match r {
        Ok(s) => Ok(s@),
        Err(e) => Err(e@),
    }
}

/// The text to parse first: the trimmed output, unless it is empty.
pub open spec fn json_candidate_spec(raw: Seq<char>) -> Result<Seq<char>, Seq<char>> {
    if trim(raw).len() == 0 {
        Err("yt-dlp returned empty metadata output"@)
    } else {
        Ok(trim(raw))
    }
}

/// The text to parse when the whole output is not JSON: from the first
/// `{` to the last `}`.
pub open spec fn json_fallback_spec(raw: Seq<char>) -> Result<Seq<char>, Seq<char>> {
    match (crate::text::find(raw, "{"@), crate::text::rfind(raw, "}"@)) {
        (Some(s), Some(e)) => if s < e {
            Ok(raw.subrange(s, e + 1))
        } else {
            Err("Failed to extract valid JSON from metadata response"@)
        },
        _ => Err("Failed to parse metadata: response did not contain JSON"@),
    }
}

/// `k` holds a non-blank string at the top of `v`.
pub open spec fn has_text(v: JsonValue, k: Seq<char>) -> bool {
    get_str(v, k) matches Some(s) && trim(s).len() > 0
}

/// The fields of the metadata come from the top level of the dump first: a
/// non-blank top-level `title`, `description`, `webpage_url`, `thumbnail`
/// or `uploader` string is used, trimmed, and a top-level whole-number
/// `duration` is used as it is. Without one, the first non-null entry of a
/// playlist dump supplies the field; without that either, the title is
/// "Unknown Title", the page URL is the fallback URL, and the description
/// is absent.
pub proof fn law_metadata_fields_from_dump(v: JsonValue, fallback: Seq<char>)
    ensures
        forall|s: Seq<char>|
            get_str(v, "title"@) == Some(s) && trim(s).len() > 0 ==> title_spec(v) == trim(s),
        forall|s: Seq<char>|
            get_str(v, "description"@) == Some(s) && trim(s).len() > 0 ==> description_spec(v)
                == Some(trim(s)),
        forall|s: Seq<char>|
            get_str(v, "webpage_url"@) == Some(s) && trim(s).len() > 0 ==> webpage_url_spec(
                v,
                fallback,
            ) == trim(s),
        forall|s: Seq<char>|
            get_str(v, "thumbnail"@) == Some(s) && trim(s).len() > 0 ==> meta_thumbnail_spec(v)
                == Some(trim(s)),
        forall|s: Seq<char>|
            get_str(v, "uploader"@) == Some(s) && trim(s).len() > 0 ==> uploader_spec(v) == Some(
                trim(s),
            ),
        match json_get(v, "duration"@) {
            Some(JsonValue::Number(n)) => n.as_u64 is Some ==> meta_duration_spec(v) == n.as_u64,
            _ => true,
        },
        forall|e: JsonValue, s: Seq<char>|
            !has_text(v, "title"@) && first_entry_spec(v) == Some(e) && get_str(e, "title"@) == Some(s)
                && trim(s).len() > 0 ==> title_spec(v) == trim(s),
        forall|e: JsonValue, s: Seq<char>|
            !has_text(v, "description"@) && first_entry_spec(v) == Some(e) && get_str(
                e,
                "description"@,
            ) == Some(s) && trim(s).len() > 0 ==> description_spec(v) == Some(trim(s)),
        !has_text(v, "title"@) && first_entry_spec(v) is None ==> title_spec(v) == "Unknown Title"@,
        !has_text(v, "description"@) && first_entry_spec(v) is None ==> description_spec(v) is None,
        !has_text(v, "webpage_url"@) && !has_text(v, "original_url"@) && first_entry_spec(v) is None
            ==> webpage_url_spec(v, fallback) == fallback,
{
    assert(seq!["title"@].drop_first() =~= Seq::<Seq<char>>::empty());
    assert(seq!["description"@].drop_first() =~= Seq::<Seq<char>>::empty());
    assert(seq!["webpage_url"@, "original_url"@].drop_first() =~= seq!["original_url"@]);
    assert(seq!["original_url"@].drop_first() =~= Seq::<Seq<char>>::empty());
    assert(uploader_keys()[0] == "uploader"@);
    assert(first_nonblank(v, Seq::<Seq<char>>::empty()) is None);
    assert(seq!["title"@][0] == "title"@);
    assert(seq!["description"@][0] == "description"@);
    assert(!has_text(v, "title"@) ==> first_nonblank(v, seq!["title"@]) is None);
    assert(!has_text(v, "description"@) ==> first_nonblank(v, seq!["description"@]) is None);
    let wk = seq!["webpage_url"@, "original_url"@];
    assert(wk[0] == "webpage_url"@);
    assert(wk.drop_first()[0] == "original_url"@);
    assert(wk.drop_first().drop_first() =~= Seq::<Seq<char>>::empty());
    assert(!has_text(v, "original_url"@) ==> first_nonblank(v, wk.drop_first()) is None);
    assert(!has_text(v, "webpage_url"@) && !has_text(v, "original_url"@) ==> first_nonblank(v, wk)
        is None);
    assert forall|e: JsonValue, t: Seq<char>|
        !has_text(v, "title"@) && first_entry_spec(v) == Some(e) && get_str(e, "title"@) == Some(t)
            && trim(t).len() > 0 implies title_spec(v) == trim(t) by {
        let ks = seq!["title"@];
        assert(ks[0] == "title"@);
        assert(ks.drop_first() =~= Seq::<Seq<char>>::empty());
        assert(first_nonblank(v, ks.drop_first()) is None);
        assert(first_nonblank(v, ks) is None);
        assert(first_nonblank(e, seq!["title"@]) == Some(trim(t)));
    }
    assert forall|e: JsonValue, t: Seq<char>|
        !has_text(v, "description"@) && first_entry_spec(v) == Some(e) && get_str(
            e,
            "description"@,
        ) == Some(t) && trim(t).len() > 0 implies description_spec(v) == Some(trim(t)) by {
        let ks = seq!["description"@];
        assert(ks[0] == "description"@);
        assert(ks.drop_first() =~= Seq::<Seq<char>>::empty());
        assert(first_nonblank(v, ks.drop_first()) is None);
        assert(first_nonblank(v, ks) is None);
        assert(first_nonblank(e, seq!["description"@]) == Some(trim(t)));
    }
}

proof fn lemma_last_url(arr: Seq<JsonValue>, k: int)
    requires
        0 <= k < arr.len(),
        has_text(arr[k], "url"@),
        forall|j: int| k < j < arr.len() ==> !has_text(#[trigger] arr[j], "url"@),
    ensures
        last_url(arr) == Some(trim(get_str(arr[k], "url"@)->0)),
    decreases arr.len(),
{
    if k < arr.len() - 1 {
        assert(!has_text(arr.last(), "url"@));
        assert(arr.drop_last()[k] == arr[k]);
        assert forall|j: int| k < j < arr.drop_last().len() implies !has_text(
            #[trigger] arr.drop_last()[j],
            "url"@,
        ) by {
            assert(arr.drop_last()[j] == arr[j]);
        }
        lemma_last_url(arr.drop_last(), k);
    }
}

proof fn lemma_no_url(arr: Seq<JsonValue>)
    requires
        forall|j: int| 0 <= j < arr.len() ==> !has_text(#[trigger] arr[j], "url"@),
    ensures
        last_url(arr) is None,
    decreases arr.len(),
{
    if arr.len() > 0 {
        assert(!has_text(arr.last(), "url"@));
        assert forall|j: int| 0 <= j < arr.drop_last().len() implies !has_text(
            #[trigger] arr.drop_last()[j],
            "url"@,
        ) by {
            assert(arr.drop_last()[j] == arr[j]);
        }
        lemma_no_url(arr.drop_last());
    }
}

/// Without a non-blank top-level `thumbnail`, the thumbnail is the trimmed
/// `url` of the last item of `thumbnails` that has a non-blank one (the
/// list runs from worst to best), and there is none when no item has one.
pub proof fn law_thumbnail_choice(v: JsonValue, l: JsonValue, k: int)
    requires
        !has_text(v, "thumbnail"@),
        json_get(v, "thumbnails"@) == Some(l),
        json_array(l) is Some,
    ensures
        ({
            let a = json_array(l)->0;
            &&& (0 <= k < a.len() && has_text(a[k], "url"@) && (forall|j: int|
                k < j < a.len() ==> !has_text(#[trigger] a[j], "url"@))) ==> thumbnail_spec(v)
                == Some(trim(get_str(a[k], "url"@)->0))
            &&& (forall|j: int| 0 <= j < a.len() ==> !has_text(#[trigger] a[j], "url"@))
                ==> thumbnail_spec(v) is None
        }),
{
    let a = json_array(l)->0;
    if 0 <= k < a.len() && has_text(a[k], "url"@) && (forall|j: int|
        k < j < a.len() ==> !has_text(#[trigger] a[j], "url"@)) {
        lemma_last_url(a, k);
    }
    if forall|j: int| 0 <= j < a.len() ==> !has_text(#[trigger] a[j], "url"@) {
        lemma_no_url(a);
    }
}

/// The trimmed metadata output to parse as JSON, or the error for an empty
/// output.
pub fn metadata_json_candidate(raw_json: &str) -> (r: Result<String, String>)
    ensures
        result_view(r) == json_candidate_spec(raw_json@),
{
    let v = chars_of(raw_json);
    let t = trim_ws(&v);
    if t.len() == 0 {
        Err(String::from_str("yt-dlp returned empty metadata output"))
    } else {
        Ok(string_of(&t))
    }
}

/// The braced part of the metadata output (first `{` to last `}`), tried
/// when the whole output does not parse, or the error when there is none.
pub fn metadata_json_fallback(raw_json: &str) -> (r: Result<String, String>)
    ensures
        result_view(r) == json_fallback_spec(raw_json@),
{
    let v = chars_of(raw_json);
    let open = chars_of("{");
    let close = chars_of("}");
    match (crate::text::find_seq(&v, &open), crate::text::rfind_seq(&v, &close)) {
        (Some(s), Some(e)) => {
            if s < e {
                proof {
                    crate::text::lemma_rfind_upto_spec(v@, close@, v@.len() - close@.len());
                    reveal_strlit("}");
                }
                let n = v.len();
                assert(e < n);
                let inner = crate::text::slice_range(&v, s, e + 1);
                Ok(string_of(&inner))
            } else {
                Err(String::from_str("Failed to extract valid JSON from metadata response"))
            }
        },
        _ => Err(String::from_str("Failed to parse metadata: response did not contain JSON")),
    }
}

/// The braced part of the output starts with `{` and ends with `}`.
pub proof fn law_fallback_is_braced(raw: Seq<char>)
    ensures
        json_fallback_spec(raw) matches Ok(t) ==> t.len() >= 2 && t[0] == '{' && t.last() == '}',
{
    reveal_strlit("{");
    reveal_strlit("}");
    crate::text::lemma_find_from_spec(raw, "{"@, 0);
    crate::text::lemma_rfind_upto_spec(raw, "}"@, raw.len() - 1);
    if let Ok(t) = json_fallback_spec(raw) {
        let s = crate::text::find(raw, "{"@)->0;
        let e = crate::text::rfind(raw, "}"@)->0;
        assert(raw.subrange(s, s + 1)[0] == raw[s]);
        assert(raw.subrange(e, e + 1)[0] == raw[e]);
        assert(t[0] == raw[s]);
        assert(t.last() == raw[e]);
    }
}

/// The error reported when the metadata JSON does not parse.
pub fn metadata_parse_error(detail: &str) -> (r: String)
    ensures
        r@ == "Failed to parse metadata JSON: "@ + detail@,
{
    let mut r = String::from_str("Failed to parse metadata JSON: ");
    r.append(detail);
    r
}

// ---------------------------------------------------------------------------
// Metadata text export
// ---------------------------------------------------------------------------

/// `items` joined with `sep` between consecutive items.
pub open spec fn join_with(items: Seq<Seq<char>>, sep: Seq<char>) -> Seq<char>
    decreases items.len(),
{
    if items.len() == 0 {
        Seq::empty()
    } else if items.len() == 1 {
        items[0]
    } else {
        join_with(items.drop_last(), sep) + sep + items.last()
    }
}

pub open spec fn rule_line() -> Seq<char> {
    "=================================================="@
}

pub open spec fn txt_tags(v: JsonValue) -> Seq<char> {
    match tags_spec(v) {
        Some(t) => if t.len() == 0 {
            "None"@
        } else {
            join_with(t, ", "@)
        },
        None => "None"@,
    }
}

/// The text export of an `.info.json` document: title, keywords and
/// description, each under a ruled heading.
pub open spec fn metadata_txt_spec(v: JsonValue) -> Seq<char> {
    let title = match get_str(v, "title"@) {
        Some(t) => t,
        None => "N/A"@,
    };
    let desc = match get_str(v, "description"@) {
        Some(d) => d,
        None => Seq::empty(),
    };
    rule_line() + "\nTITLE\n"@ + rule_line() + "\n"@ + title + "\n\n"@ + rule_line()
        + "\nKEYWORDS / TAGS\n"@ + rule_line() + "\n"@ + txt_tags(v) + "\n\n"@ + rule_line()
        + "\nDESCRIPTION\n"@ + rule_line() + "\n"@ + desc + "\n"@
}

pub fn join_strings(items: &Vec<String>, sep: &str) -> (r: String)
    ensures
        r@ == join_with(arg_views(items@), sep@),
{
    let mut r = String::new();
    let mut k: usize = 0;
    assert(arg_views(items@).take(0) =~= Seq::<Seq<char>>::empty());
    while k < items.len()
        invariant
            k <= items@.len(),
            r@ == join_with(arg_views(items@).take(k as int), sep@),
        decreases items.len() - k,
    {
        assert(arg_views(items@).take(k + 1).drop_last() =~= arg_views(items@).take(k as int));
        assert(arg_views(items@).take(k + 1).last() == items@[k as int]@);
        if k > 0 {
            r.append(sep);
        } else {
            assert(arg_views(items@).take(1)[0] == items@[0]@);
        }
        r.append(items[k].as_str());
        k += 1;
    }
    assert(arg_views(items@).take(items@.len() as int) =~= arg_views(items@));
    r
}

/// Formats the title, tags and description of an `.info.json` document as
/// the text written next to the download.
pub fn metadata_txt_content(val: &JsonValue) -> (r: String)
    ensures
        r@ == metadata_txt_spec(*val),
{
    let title = match get_string(val, "title") {
        Some(t) => t,
        None => "N/A",
    };
    let tags_str = match get(val, "tags") {
        Some(t) => match as_array(t) {
            Some(a) => {
                let items = string_items_of(a);
                if items.len() == 0 {
                    String::from_str("None")
                } else {
                    join_strings(&items, ", ")
                }
            },
            None => String::from_str("None"),
        },
        None => String::from_str("None"),
    };
    let description = match get_string(val, "description") {
        Some(d) => d,
        None => "",
    };
    let mut r = String::from_str("==================================================");
    r.append("\nTITLE\n");
    r.append("==================================================");
    r.append("\n");
    r.append(title);
    r.append("\n\n");
    r.append("==================================================");
    r.append("\nKEYWORDS / TAGS\n");
    r.append("==================================================");
    r.append("\n");
    r.append(tags_str.as_str());
    r.append("\n\n");
    r.append("==================================================");
    r.append("\nDESCRIPTION\n");
    r.append("==================================================");
    r.append("\n");
    r.append(description);
    r.append("\n");
    proof {
        reveal_strlit("");
    }
    r
}

// ---------------------------------------------------------------------------
// The metadata request
// ---------------------------------------------------------------------------

/// The yt-dlp arguments of a metadata request: a single JSON dump of the
/// first item only, without downloading, with the browser cookies when
/// given, and the trimmed URL last; an error for a blank URL.
pub open spec fn fetch_args_spec(url: Seq<char>, cookies: Option<Seq<char>>) -> Result<
    Seq<Seq<char>>,
    Seq<char>,
> {
    if trim(url).len() == 0 {
        Err("Please provide a valid media URL"@)
    } else {
        Ok(
            seq![
                "--dump-single-json"@,
                "--skip-download"@,
                "--no-playlist"@,
                "--playlist-items"@,
                "1"@,
                "--no-check-formats"@,
                "--no-warnings"@,
                "--ignore-errors"@,
                "--js-runtimes"@,
                "node"@,
            ] + match crate::args::cookie_browser(cookies) {
                Some(b) => seq!["--cookies-from-browser"@, b, "--compat-options"@, "no-keep-subs"@],
                None => Seq::empty(),
            } + seq![trim(url)],
        )
    }
}

pub open spec fn str_opt_view(o: Option<&str>) -> Option<Seq<char>> {
    match o {
        Some(s) => Some(s@),
        None => None,
    }
}

pub open spec fn args_result_view(r: Result<Vec<String>, String>) -> Result<Seq<Seq<char>>, Seq<char>> {
    match r {
        Ok(v) => Ok(arg_views(v@)),
        Err(e) => Err(e@),
    }
}

pub(crate) fn push_str(v: &mut Vec<String>, a: &str)
    ensures
        arg_views(final(v)@) == arg_views(old(v)@).push(a@),
{
    v.push(String::from_str(a));
    assert(arg_views(v@) =~= arg_views(old(v)@).push(a@));
}

/// The yt-dlp arguments for fetching the metadata of `url`.
pub fn metadata_fetch_arguments(url: &str, cookies: Option<&str>) -> (r: Result<Vec<String>, String>)
    ensures
        args_result_view(r) == fetch_args_spec(url@, str_opt_view(cookies)),
{
    let uv = chars_of(url);
    let ut = trim_ws(&uv);
    if ut.len() == 0 {
        return Err(String::from_str("Please provide a valid media URL"));
    }
    let mut args: Vec<String> = Vec::new();
    push_str(&mut args, "--dump-single-json");
    push_str(&mut args, "--skip-download");
    push_str(&mut args, "--no-playlist");
    push_str(&mut args, "--playlist-items");
    push_str(&mut args, "1");
    push_str(&mut args, "--no-check-formats");
    push_str(&mut args, "--no-warnings");
    push_str(&mut args, "--ignore-errors");
    push_str(&mut args, "--js-runtimes");
    push_str(&mut args, "node");
    let ghost base = arg_views(args@);
    match cookies {
        Some(c) => {
            let cv = chars_of(c);
            let ct = trim_ws(&cv);
            if ct.len() > 0 {
                push_str(&mut args, "--cookies-from-browser");
                let ghost before = arg_views(args@);
                args.push(string_of(&ct));
                assert(arg_views(args@) =~= before.push(ct@));
                push_str(&mut args, "--compat-options");
                push_str(&mut args, "no-keep-subs");
            }
        },
        None => {},
    }
    let ghost before = arg_views(args@);
    args.push(string_of(&ut));
    assert(arg_views(args@) =~= before.push(ut@));
    assert(arg_views(args@) =~= fetch_args_spec(url@, str_opt_view(cookies))->Ok_0);
    Ok(args)
}

/// The pieces of a text between occurrences of `sep` (`str::split`).
pub open spec fn split_on(s: Seq<char>, sep: char) -> Seq<Seq<char>>
    decreases s.len(),
{
    match crate::text::find(s, seq![sep]) {
        Some(i) => if 0 <= i < s.len() {
            seq![s.take(i)] + split_on(s.skip(i + 1), sep)
        } else {
            seq![s]
        },
        None => seq![s],
    }
}

/// The trimmed lines that start with `ERROR:` (when `errors_only`) or that
/// are not blank (otherwise).
pub open spec fn selected_lines(ls: Seq<Seq<char>>, errors_only: bool) -> Seq<Seq<char>>
    decreases ls.len(),
{
    if ls.len() == 0 {
        Seq::empty()
    } else {
        let rest = selected_lines(ls.drop_last(), errors_only);
        let t = trim(ls.last());
        if (errors_only && starts_with(t, "ERROR:"@)) || (!errors_only && t.len() > 0) {
            rest.push(t)
        } else {
            rest
        }
    }
}

/// `{:?}` of an optional exit code: `None` or `Some(<decimal>)`.
pub open spec fn exit_code_text(code: Option<i32>) -> Seq<char> {
    match code {
        Some(c) => if c < 0 {
            "Some(-"@ + crate::numbers::decimal_spec((-c) as nat) + ")"@
        } else {
            "Some("@ + crate::numbers::decimal_spec(c as nat) + ")"@
        },
        None => "None"@,
    }
}

/// The error of a failed metadata request: its `ERROR:` lines, or else its
/// non-blank standard-error lines, joined by spaces; or else the exit status.
pub open spec fn fetch_error_spec(stderr: Seq<char>, exit_code: Option<i32>) -> Seq<char> {
    let errs = selected_lines(split_on(stderr, '\n'), true);
    let lines = if errs.len() > 0 {
        errs
    } else {
        selected_lines(split_on(stderr, '\n'), false)
    };
    if lines.len() > 0 {
        join_with(lines, " "@)
    } else {
        "yt-dlp process exited with status "@ + exit_code_text(exit_code)
    }
}

/// A metadata request failed when yt-dlp did not exit with 0 and wrote
/// nothing but white space to standard output.
pub open spec fn fetch_failure_spec(stdout: Seq<char>, stderr: Seq<char>, exit_code: Option<i32>) -> Option<
    Seq<char>,
> {
    if exit_code != Some(0i32) && trim(stdout).len() == 0 {
        Some(fetch_error_spec(stderr, exit_code))
    } else {
        None
    }
}

/// The metadata request: a blank URL is refused with "Please provide a
/// valid media URL"; otherwise yt-dlp dumps one JSON document without
/// downloading (`--dump-single-json --skip-download --no-playlist
/// --playlist-items 1 --no-check-formats --no-warnings --ignore-errors
/// --js-runtimes node`), reads the cookies of a non-blank browser name
/// (trimmed) with `--compat-options no-keep-subs`, and takes the trimmed
/// URL last.
pub proof fn law_fetch_arguments(url: Seq<char>, cookies: Option<Seq<char>>)
    ensures
        trim(url).len() == 0 ==> fetch_args_spec(url, cookies) == Err::<Seq<Seq<char>>, Seq<char>>(
            "Please provide a valid media URL"@,
        ),
        trim(url).len() > 0 ==> (fetch_args_spec(url, cookies) matches Ok(a) && {
            &&& a.len() >= 11
            &&& a[0] == "--dump-single-json"@
            &&& a[1] == "--skip-download"@
            &&& a[2] == "--no-playlist"@
            &&& a[3] == "--playlist-items"@
            &&& a[4] == "1"@
            &&& a[5] == "--no-check-formats"@
            &&& a[6] == "--no-warnings"@
            &&& a[7] == "--ignore-errors"@
            &&& a[8] == "--js-runtimes"@
            &&& a[9] == "node"@
            &&& a[a.len() - 1] == trim(url)
            &&& (forall|b: Seq<char>|
                cookies == Some(b) && trim(b).len() > 0 ==> a.len() == 15 && a[10]
                    == "--cookies-from-browser"@ && a[11] == trim(b) && a[12] == "--compat-options"@
                    && a[13] == "no-keep-subs"@)
            &&& (forall|b: Seq<char>| cookies == Some(b) && trim(b).len() == 0 ==> a.len() == 11)
            &&& cookies is None ==> a.len() == 11
        }),
{
}

/// `str::split` at a character.
pub fn split_on_char(s: &[char], sep: char) -> (r: Vec<String>)
    ensures
        arg_views(r@) == split_on(s@, sep),
    decreases s.len(),
{
    let nl = vec![sep];
    assert(nl@ =~= seq![sep]);
    match crate::text::find_seq(s, &nl) {
        Some(i) => {
            proof {
                crate::text::lemma_find_from_spec(s@, nl@, 0);
            }
            let n = s.len();
            assert(i < n);
            let head = crate::text::slice_range(s, 0, i);
            let tail = crate::text::slice_range(s, i + 1, n);
            assert(head@ =~= s@.take(i as int));
            assert(tail@ =~= s@.skip(i + 1));
            let rest = split_on_char(&tail, sep);
            let mut r: Vec<String> = Vec::new();
            r.push(string_of(&head));
            let mut k: usize = 0;
            while k < rest.len()
                invariant
                    k <= rest@.len(),
                    arg_views(r@) == seq![head@] + arg_views(rest@).take(k as int),
                decreases rest.len() - k,
            {
                let ghost before = arg_views(r@);
                r.push(rest[k].clone());
                assert(arg_views(rest@).take(k + 1) =~= arg_views(rest@).take(k as int).push(
                    rest@[k as int]@,
                ));
                assert(arg_views(r@) =~= before.push(rest@[k as int]@));
                k += 1;
            }
            assert(arg_views(rest@).take(rest@.len() as int) =~= arg_views(rest@));
            r
        },
        None => {
            let mut r: Vec<String> = Vec::new();
            r.push(string_of(s));
            assert(arg_views(r@) =~= seq![s@]);
            r
        },
    }
}

fn select_lines(ls: &Vec<String>, errors_only: bool) -> (r: Vec<String>)
    ensures
        arg_views(r@) == selected_lines(arg_views(ls@), errors_only),
{
    let mut r: Vec<String> = Vec::new();
    let mut k: usize = 0;
    let err = chars_of("ERROR:");
    assert(arg_views(ls@).take(0) =~= Seq::<Seq<char>>::empty());
    while k < ls.len()
        invariant
            k <= ls@.len(),
            err@ == "ERROR:"@,
            arg_views(r@) == selected_lines(arg_views(ls@).take(k as int), errors_only),
        decreases ls.len() - k,
    {
        assert(arg_views(ls@).take(k + 1).drop_last() =~= arg_views(ls@).take(k as int));
        assert(arg_views(ls@).take(k + 1).last() == ls@[k as int]@);
        let v = chars_of(ls[k].as_str());
        let t = trim_ws(&v);
        let keep = if errors_only {
            has_prefix(&t, &err)
        } else {
            t.len() > 0
        };
        if keep {
            let ghost before = arg_views(r@);
            r.push(string_of(&t));
            assert(arg_views(r@) =~= before.push(t@));
        }
        k += 1;
    }
    assert(arg_views(ls@).take(ls@.len() as int) =~= arg_views(ls@));
    r
}

fn exit_code_string(code: Option<i32>) -> (r: String)
    ensures
        r@ == exit_code_text(code),
{
    match code {
        Some(c) => {
            let mut r = if c < 0 {
                String::from_str("Some(-")
            } else {
                String::from_str("Some(")
            };
            let mag: u64 = if c < 0 {
                (-(c as i64)) as u64
            } else {
                c as u64
            };
            let d = crate::numbers::decimal_digits(mag);
            let ds = string_of(&d);
            r.append(ds.as_str());
            r.append(")");
            r
        },
        None => String::from_str("None"),
    }
}

/// The error of a finished metadata request, when it failed (non-zero or
/// missing exit code and blank standard output).
pub fn metadata_fetch_failure(stdout: &str, stderr: &str, exit_code: Option<i32>) -> (r: Option<
    String,
>)
    ensures
        opt_view(r) == fetch_failure_spec(stdout@, stderr@, exit_code),
{
    let ov = chars_of(stdout);
    let ot = trim_ws(&ov);
    let success = match exit_code {
        Some(c) => c == 0,
        None => false,
    };
    if success || ot.len() > 0 {
        return None;
    }
    let ev = chars_of(stderr);
    let lines = split_on_char(&ev, '\n');
    let errs = select_lines(&lines, true);
    let chosen = if errs.len() > 0 {
        errs
    } else {
        select_lines(&lines, false)
    };
    if chosen.len() > 0 {
        Some(join_strings(&chosen, " "))
    } else {
        let mut m = String::from_str("yt-dlp process exited with status ");
        let t = exit_code_string(exit_code);
        m.append(t.as_str());
        Some(m)
    }
}

/// What became of a metadata request once yt-dlp was started: the error
/// to report, or the standard output to parse.
pub enum FetchOutcome {
    Failed(String),
    Parse(String),
}

pub open spec fn fetch_timeout_message() -> Seq<char> {
    "Metadata request timed out after 8 seconds. Please check the URL or your connection."@
}

/// The outcome of a metadata request: the time-out message when yt-dlp did
/// not finish in time; the execution error it reported; the failure of
/// `fetch_failure_spec`; and otherwise its standard output, to be parsed.
pub open spec fn fetch_outcome_spec(
    timed_out: bool,
    exec_error: Option<Seq<char>>,
    stdout: Seq<char>,
    stderr: Seq<char>,
    exit_code: Option<i32>,
) -> Result<Seq<char>, Seq<char>> {
    if timed_out {
        Err(fetch_timeout_message())
    } else if exec_error is Some {
        Err("yt-dlp execution error: "@ + exec_error->0)
    } else {
        match fetch_failure_spec(stdout, stderr, exit_code) {
            Some(m) => Err(m),
            None => Ok(stdout),
        }
    }
}

pub open spec fn outcome_view(o: FetchOutcome) -> Result<Seq<char>, Seq<char>> {
    match o {
        FetchOutcome::Failed(m) => Err(m@),
        FetchOutcome::Parse(t) => Ok(t@),
    }
}

/// Decides what a finished (or timed-out) metadata request yields.
pub fn metadata_fetch_outcome(
    timed_out: bool,
    exec_error: Option<&str>,
    stdout: &str,
    stderr: &str,
    exit_code: Option<i32>,
) -> (r: FetchOutcome)
    ensures
        outcome_view(r) == fetch_outcome_spec(
            timed_out,
            str_opt_view(exec_error),
            stdout@,
            stderr@,
            exit_code,
        ),
{
    if timed_out {
        return FetchOutcome::Failed(
            String::from_str(
                "Metadata request timed out after 8 seconds. Please check the URL or your connection.",
            ),
        );
    }
    match exec_error {
        Some(e) => {
            let mut m = String::from_str("yt-dlp execution error: ");
            m.append(e);
            FetchOutcome::Failed(m)
        },
        None => match metadata_fetch_failure(stdout, stderr, exit_code) {
            Some(m) => FetchOutcome::Failed(m),
            None => FetchOutcome::Parse(String::from_str(stdout)),
        },
    }
}

/// A metadata request fails with the time-out message exactly when it
/// timed out; a request that finished with exit code 0 and no execution
/// error always goes on to parsing its standard output.
pub proof fn law_fetch_outcome(
    timed_out: bool,
    exec_error: Option<Seq<char>>,
    stdout: Seq<char>,
    stderr: Seq<char>,
    exit_code: Option<i32>,
)
    ensures
        timed_out ==> fetch_outcome_spec(timed_out, exec_error, stdout, stderr, exit_code) == Err::<
            Seq<char>,
            Seq<char>,
        >(fetch_timeout_message()),
        !timed_out && exec_error is None && (exit_code == Some(0i32) || trim(stdout).len() > 0)
            ==> fetch_outcome_spec(timed_out, exec_error, stdout, stderr, exit_code) == Ok::<
            Seq<char>,
            Seq<char>,
        >(stdout),
        !timed_out && exec_error is None && exit_code != Some(0i32) && trim(stdout).len() == 0
            ==> fetch_outcome_spec(timed_out, exec_error, stdout, stderr, exit_code) == Err::<
            Seq<char>,
            Seq<char>,
        >(fetch_error_spec(stderr, exit_code)),
{
}

/// The name of the text export for an `.info.json` file name:
/// `<base>.info.json` gives `<base>.txt`.
pub open spec fn info_txt_name_spec(name: Seq<char>) -> Option<Seq<char>> {
    if crate::text::ends_with(name, ".info.json"@) {
        Some(name.take(name.len() - ".info.json"@.len()) + ".txt"@)
    } else {
        None
    }
}

pub fn info_json_txt_name(name: &str) -> (r: Option<String>)
    ensures
        opt_view(r) == info_txt_name_spec(name@),
{
    let v = chars_of(name);
    let suffix = chars_of(".info.json");
    if crate::text::has_suffix(&v, &suffix) {
        let base = crate::text::slice_range(&v, 0, v.len() - suffix.len());
        let mut r = string_of(&base);
        r.append(".txt");
        Some(r)
    } else {
        None
    }
}

/// The text export of `<base>.info.json` is `<base>.txt`; other names have
/// none.
pub proof fn law_info_txt_name(base: Seq<char>, other: Seq<char>)
    ensures
        info_txt_name_spec(base + ".info.json"@) == Some(base + ".txt"@),
        !crate::text::ends_with(other, ".info.json"@) ==> info_txt_name_spec(other) is None,
{
    let n = base + ".info.json"@;
    assert(n.skip(n.len() - ".info.json"@.len()) =~= ".info.json"@);
    assert(n.take(n.len() - ".info.json"@.len()) =~= base);
}

} // verus!
