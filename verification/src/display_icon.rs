//! Reading the `DisplayIcon` value of an uninstall registry key: the icon file,
//! optionally quoted, and an optional resource index after a comma.
use vstd::prelude::*;
use crate::env::{expand_env, expand_windows_env, lemma_expand_plain};
use crate::number::{
    format_int, is_digit, lemma_format_int_chars, lemma_format_parse_i32, parse_i32_range,
    parse_i32_text,
};
use crate::text::{
    chars_of, find_char, first_index_of, lemma_first_index_of, lemma_last_index_of, last_index_of, lemma_trim_by, push_range, rfind_char,
    string_from_chars, trim_bounds, trim_quotes, trim_ws, strips, lemma_first_index_at,
    lemma_last_index_at, lemma_trim_keeps, lemma_trimmed_ends,
};

verus! {

/// The icon location written in an expanded `DisplayIcon` value, before the
/// final clean-up of the path: a quoted path with an optional `,index` after
/// the closing quote, or an unquoted path whose text after the last comma is
/// taken as the index when it reads as an `i32`.
pub open spec fn split_icon_location(e: Seq<char>) -> (Seq<char>, Option<i32>) {
    if e.len() > 0 && e[0] == '"' {
        let quoted = e.drop_first();
        match first_index_of(quoted, '"') {
            Some(end) => {
                let suffix = trim_ws(quoted.skip(end + 1));
                let index = if suffix.len() > 0 && suffix[0] == ',' {
                    parse_i32_text(trim_ws(suffix.drop_first()))
                } else {
                    None
                };
                (quoted.take(end), index)
            },
            None => (trim_quotes(e), None),
        }
    } else {
        match last_index_of(e, ',') {
            Some(k) => match parse_i32_text(trim_ws(e.skip(k + 1))) {
                Some(i) => (trim_ws(e.take(k)), Some(i)),
                None => (e, None),
            },
            None => (e, None),
        }
    }
}

/// The icon file and resource index that a `DisplayIcon` value names: the value
/// is trimmed, its `%NAME%` references are expanded with `env`, the location is
/// split off, and the path is trimmed of white space and then of double quotes;
/// an empty path is no path.
pub open spec fn display_icon(value: Seq<char>, env: Seq<(Seq<char>, Seq<char>)>) -> (
    Option<Seq<char>>,
    Option<i32>,
) {
    let (path, index) = split_icon_location(expand_env(trim_ws(value), env));
    let path = trim_quotes(trim_ws(path));
    (
        if path.len() > 0 {
            Some(path)
        } else {
            None
        },
        index,
    )
}

/// The part `v[lo..hi]` as a `String`.
fn string_of_range(v: &Vec<char>, lo: usize, hi: usize) -> (r: String)
    requires
        lo <= hi <= v.len(),
    ensures
        r@ == v@.subrange(lo as int, hi as int),
{
    let mut part: Vec<char> = Vec::new();
    push_range(&mut part, v, lo, hi);
    string_from_chars(part.as_slice())
}

/// Bounds of the path and the index that `split_icon_location` finds in `e`.
fn split_location(e: &Vec<char>) -> (r: (usize, usize, Option<i32>))
    ensures
        r.0 <= r.1 <= e.len(),
        split_icon_location(e@) == (e@.subrange(r.0 as int, r.1 as int), r.2),
{
    let n = e.len();
    if n > 0 && e[0] == '"' {
        let ghost quoted = e@.drop_first();
        assert(quoted =~= e@.subrange(1, n as int));
        match find_char(e, 1, n, '"') {
            Some(close) => {
                proof {
                    lemma_first_index_of(quoted, '"');
                }
                let ghost end = close - 1;
                assert(quoted.take(end) =~= e@.subrange(1, close as int));
                assert(quoted.skip(end + 1) =~= e@.subrange(close + 1, n as int));
                let (a, b) = trim_bounds(e, close + 1, n, false);
                let ghost suffix = e@.subrange(a as int, b as int);
                let index = if a < b && e[a] == ',' {
                    assert(suffix.drop_first() =~= e@.subrange(a + 1, b as int));
                    let (c, d) = trim_bounds(e, a + 1, b, false);
                    parse_i32_range(e, c, d)
                } else {
                    None
                };
                (1, close, index)
            },
            None => {
                assert(e@.subrange(0, n as int) =~= e@);
                let (a, b) = trim_bounds(e, 0, n, true);
                (a, b, None)
            },
        }
    } else {
        assert(e@.subrange(0, n as int) =~= e@);
        match rfind_char(e, 0, n, ',') {
            Some(k) => {
                proof {
                    lemma_last_index_of(e@, ',');
                }
                assert(e@.skip(k + 1) =~= e@.subrange(k + 1, n as int));
                assert(e@.take(k as int) =~= e@.subrange(0, k as int));
                let (a, b) = trim_bounds(e, k + 1, n, false);
                match parse_i32_range(e, a, b) {
                    Some(i) => {
                        let (c, d) = trim_bounds(e, 0, k, false);
                        (c, d, Some(i))
                    },
                    None => (0, n, None),
                }
            },
            None => (0, n, None),
        }
    }
}

/// The icon file and resource index that a `DisplayIcon` registry value names,
/// with `%NAME%` references expanded from `env`. A path, when there is one, is
/// not empty and neither starts nor ends with a double quote.
pub fn parse_display_icon(value: &str, env: &Vec<(String, String)>) -> (r: (
    Option<String>,
    Option<i32>,
))
    ensures
        r.0.deep_view() == display_icon(value@, env.deep_view()).0,
        r.1 == display_icon(value@, env.deep_view()).1,
        r.0 matches Some(path) ==> path@.len() > 0 && path@[0] != '"' && path@.last() != '"',
{
    let v = chars_of(value);
    assert(v@.subrange(0, v.len() as int) =~= v@);
    let (lo, hi) = trim_bounds(&v, 0, v.len(), false);
    let trimmed = string_of_range(&v, lo, hi);
    let expanded = expand_windows_env(trimmed.as_str(), env);
    let e = chars_of(expanded.as_str());
    let (p0, p1, index) = split_location(&e);
    let (q0, q1) = trim_bounds(&e, p0, p1, false);
    assert(e@.subrange(q0 as int, q1 as int) =~= e@.subrange(p0 as int, p1 as int).subrange(
        q0 - p0,
        q1 - p0,
    ));
    let (s0, s1) = trim_bounds(&e, q0, q1, true);
    proof {
        let _ = lemma_trim_by(trim_ws(e@.subrange(p0 as int, p1 as int)), true);
    }
    let path = if s0 < s1 {
        Some(string_of_range(&e, s0, s1))
    } else {
        None
    };
    (path, index)
}

/// A path that can stand in a `DisplayIcon` value as it is: not empty, without
/// white space at either end, and without `"` or `%`.
pub open spec fn plain_icon_path(p: Seq<char>) -> bool {
    p.len() > 0 && trim_ws(p) == p && !p.contains('"') && !p.contains('%')
}

/// Facts about a plain path and the `{}` text of an index that the round trips use.
proof fn lemma_parts(p: Seq<char>, i: i32)
    requires
        p.len() > 0,
        trim_ws(p) == p,
    ensures
        !strips(p[0], false),
        !strips(p.last(), false),
        format_int(i as int).len() > 0,
        !strips(format_int(i as int).last(), false),
        !format_int(i as int).contains('%'),
        !format_int(i as int).contains('"'),
        !format_int(i as int).contains(','),
        trim_ws(format_int(i as int)) == format_int(i as int),
        parse_i32_text(format_int(i as int)) == Some(i),
{
    lemma_trimmed_ends(p, false);
    lemma_format_int_chars(i);
    lemma_format_parse_i32(i);
    let f = format_int(i as int);
    assert forall|c: char| c == '%' || c == '"' || c == ',' implies !f.contains(c) by {
        if f.contains(c) {
            let k = choose|k: int| 0 <= k < f.len() && f[k] == c;
            assert(is_digit(f[k]) || f[k] == '-');
        }
    }
    assert(!strips(f[0], false)) by {
        assert(is_digit(f[0]) || f[0] == '-');
    }
    lemma_trim_keeps(f, false);
}

/// A quoted plain path with a `,index` after the closing quote reads back as
/// that path and index; without the index it reads back as the path alone.
pub proof fn lemma_quoted_roundtrip(p: Seq<char>, i: i32, env: Seq<(Seq<char>, Seq<char>)>)
    requires
        plain_icon_path(p),
    ensures
        display_icon(seq!['"'] + p + seq!['"', ','] + format_int(i as int), env) == (Some(p), Some(i)),
        display_icon(seq!['"'] + p + seq!['"'], env) == (Some(p), None::<i32>),
{
    lemma_parts(p, i);
    let f = format_int(i as int);
    let v = seq!['"'] + p + seq!['"', ','] + f;
    let w = seq!['"'] + p + seq!['"'];
    assert(v[0] == '"' && v.last() == f.last());
    lemma_trim_keeps(v, false);
    assert(w[0] == '"' && w.last() == '"');
    lemma_trim_keeps(w, false);
    assert(!v.contains('%')) by {
        if v.contains('%') {
            let k = choose|k: int| 0 <= k < v.len() && v[k] == '%';
            if 1 <= k < 1 + p.len() {
                assert(p[k - 1] == '%');
            } else if k >= p.len() + 3 {
                assert(f[k - p.len() - 3] == '%');
            }
        }
    }
    assert(!w.contains('%')) by {
        if w.contains('%') {
            let k = choose|k: int| 0 <= k < w.len() && w[k] == '%';
            if 1 <= k < 1 + p.len() {
                assert(p[k - 1] == '%');
            }
        }
    }
    lemma_expand_plain(v, env);
    lemma_expand_plain(w, env);
    let qv = v.drop_first();
    let qw = w.drop_first();
    assert(qv =~= p + seq!['"', ','] + f);
    assert(qw =~= p + seq!['"']);
    assert forall|j: int| 0 <= j < p.len() implies qv[j] != '"' && qw[j] != '"' by {
        assert(qv[j] == p[j] && qw[j] == p[j]);
        if p[j] == '"' {
            assert(p.contains('"'));
        }
    }
    lemma_first_index_at(qv, '"', p.len() as int);
    lemma_first_index_at(qw, '"', p.len() as int);
    assert(qv.take(p.len() as int) =~= p);
    assert(qw.take(p.len() as int) =~= p);
    let sv = qv.skip((p.len() + 1) as int);
    assert(sv =~= seq![','] + f);
    assert(sv.last() == f.last());
    lemma_trim_keeps(sv, false);
    assert(sv.drop_first() =~= f);
    assert(qw.skip((p.len() + 1) as int) =~= Seq::<char>::empty());
    assert(trim_ws(Seq::<char>::empty()) =~= Seq::<char>::empty());
    assert(!p.contains('"'));
    assert(p[0] != '"') by {
        assert(p.contains(p[0]));
    }
    assert(p.last() != '"') by {
        assert(p.contains(p[p.len() - 1]));
    }
    lemma_trim_keeps(p, true);
}

/// An unquoted plain path that does not start or end with `"` (commas allowed),
/// followed by `,index`, reads back as that path and index: only the last comma
/// splits off the index.
pub proof fn lemma_unquoted_roundtrip(p: Seq<char>, i: i32, env: Seq<(Seq<char>, Seq<char>)>)
    requires
        p.len() > 0,
        trim_ws(p) == p,
        p[0] != '"',
        p.last() != '"',
        !p.contains('%'),
    ensures
        display_icon(p + seq![','] + format_int(i as int), env) == (Some(p), Some(i)),
{
    lemma_parts(p, i);
    let f = format_int(i as int);
    let v = p + seq![','] + f;
    assert(v[0] == p[0] && v.last() == f.last());
    lemma_trim_keeps(v, false);
    assert(!v.contains('%')) by {
        if v.contains('%') {
            let k = choose|k: int| 0 <= k < v.len() && v[k] == '%';
            if k < p.len() {
                assert(p[k] == '%');
                assert(p.contains('%'));
            } else if k > p.len() {
                assert(f[k - p.len() - 1] == '%');
                assert(f.contains('%'));
            }
        }
    }
    lemma_expand_plain(v, env);
    assert forall|j: int| p.len() < j < v.len() implies v[j] != ',' by {
        assert(v[j] == f[j - p.len() - 1]);
        if f[j - p.len() - 1] == ',' {
            assert(f.contains(','));
        }
    }
    lemma_last_index_at(v, ',', p.len() as int);
    assert(v.skip((p.len() + 1) as int) =~= f);
    assert(v.take(p.len() as int) =~= p);
    lemma_trim_keeps(p, true);
}


/// A plain path without a comma, written alone, reads back as that path with no
/// index: a value without a comma is the icon file as a whole.
pub proof fn lemma_plain_path_roundtrip(p: Seq<char>, env: Seq<(Seq<char>, Seq<char>)>)
    requires
        plain_icon_path(p),
        !p.contains(','),
    ensures
        display_icon(p, env) == (Some(p), None::<i32>),
{
    lemma_trimmed_ends(p, false);
    lemma_expand_plain(p, env);
    lemma_last_index_of(p, ',');
    if let Some(k) = last_index_of(p, ',') {
        assert(p.contains(','));
    }
    assert(p[0] != '"') by {
        assert(p.contains(p[0]));
    }
    assert(p.last() != '"') by {
        assert(p.contains(p[p.len() - 1]));
    }
    lemma_trim_keeps(p, true);
}

} // verus!
