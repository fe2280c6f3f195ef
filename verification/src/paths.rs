//! Windows paths: joining a relative name onto a directory, the Windows
//! directory itself, and the extension of a file name.
use vstd::prelude::*;
use crate::text::{
    chars_of, eq_ignore_ascii_case, eq_ignore_ascii_case_range, last_index_of,
    lemma_last_index_of, push_range, push_str, rfind_char, string_from_chars,
};

verus! {

/// A path separator on Windows.
pub open spec fn is_separator(c: char) -> bool {
    c == '\\' || c == '/'
}

/// An ASCII letter.
pub open spec fn is_ascii_letter(c: char) -> bool {
    ('a' <= c && c <= 'z') || ('A' <= c && c <= 'Z')
}

/// A bare drive such as `C:`.
pub open spec fn is_drive_only(p: Seq<char>) -> bool {
    p.len() == 2 && is_ascii_letter(p[0]) && p[1] == ':'
}

/// From position `i` on, `s` is a run of names separated by single `\`: no
/// `/`, no empty name and no name `.` or `..`; `at_start` says that a name
/// begins at `s[i]`.
pub open spec fn names_from(s: Seq<char>, i: int, at_start: bool) -> bool
    decreases s.len() - i,
{
    if i >= s.len() {
        !at_start
    } else if s[i] == '/' {
        false
    } else if s[i] == '\\' {
        !at_start && names_from(s, i + 1, true)
    } else if at_start && s[i] == '.' && (i + 1 == s.len() || s[i + 1] == '\\' || (s[i + 1]
        == '.' && (i + 2 == s.len() || s[i + 2] == '\\'))) {
        false
    } else {
        names_from(s, i + 1, false)
    }
}

/// A relative path made of names, such as `System32\notepad.exe`: not empty,
/// without a drive, a leading separator, `/`, empty names, `.` or `..`.
pub open spec fn is_name_path(rel: Seq<char>) -> bool {
    &&& names_from(rel, 0, true)
    &&& !(rel.len() >= 2 && rel[1] == ':')
}

/// The names of `s`, split at `\`, each one followed by a single `\`; empty
/// names are dropped. `in_name` says that a name is under way before `s[0]`.
pub open spec fn squeeze(s: Seq<char>, in_name: bool) -> Seq<char>
    decreases s.len(),
{
    if s.len() == 0 {
        if in_name {
            seq!['\\']
        } else {
            Seq::empty()
        }
    } else if s[0] == '\\' {
        (if in_name {
            seq!['\\']
        } else {
            Seq::empty()
        }) + squeeze(s.drop_first(), false)
    } else {
        seq![s[0]] + squeeze(s.drop_first(), true)
    }
}

/// Whether joining onto `base` puts a separator first: `base` is not empty, does
/// not end with a separator and is not a bare drive.
pub open spec fn needs_separator(base: Seq<char>) -> bool {
    base.len() > 0 && !is_separator(base.last()) && !is_drive_only(base)
}

/// `base.join(rel)` on Windows for a path `rel` made of names. On a verbatim
/// (`\\?\`) base the path is rebuilt from its components: the prefix, then
/// each name of the rest of `base` and `rel`, separated by single `\`.
/// Otherwise `rel` is appended, after a `\` unless `base` is empty, ends with a
/// separator, or is a bare drive.
pub open spec fn join_path(base: Seq<char>, rel: Seq<char>) -> Seq<char> {
    let (len, verbatim) = windows_prefix(base);
    if verbatim {
        let rest = base.skip(len);
        let body = if rest.len() > 0 && is_separator(rest[0]) {
            rest.skip(1)
        } else {
            rest
        };
        base.take(len) + seq!['\\'] + squeeze(body, false) + rel
    } else if needs_separator(base) {
        base + seq!['\\'] + rel
    } else {
        base + rel
    }
}

/// The Windows directory: `WINDIR` when it is set, else `SystemRoot`, else `C:\Windows`.
pub open spec fn windows_dir_text(windir: Option<Seq<char>>, system_root: Option<Seq<char>>) -> Seq<
    char,
> {
    match windir {
        Some(w) => w,
        None => match system_root {
            Some(s) => s,
            None => "C:\\Windows"@,
        },
    }
}

/// A separator between components: only `\` in a verbatim (`\\?\`) path,
/// `\` or `/` otherwise.
pub open spec fn is_component_separator(c: char, verbatim: bool) -> bool {
    if verbatim {
        c == '\\'
    } else {
        is_separator(c)
    }
}

/// Length of the first component of `s`: the characters before its first separator.
pub open spec fn component_len(s: Seq<char>, verbatim: bool) -> int
    decreases s.len(),
{
    if s.len() == 0 || is_component_separator(s[0], verbatim) {
        0
    } else {
        1 + component_len(s.drop_first(), verbatim)
    }
}

/// What follows the first component of `s` and the separator after it.
pub open spec fn after_component(s: Seq<char>, verbatim: bool) -> Seq<char> {
    if component_len(s, verbatim) < s.len() {
        s.skip(component_len(s, verbatim) + 1)
    } else {
        Seq::empty()
    }
}

/// `s` starts with a drive such as `C:`.
pub open spec fn starts_with_drive(s: Seq<char>) -> bool {
    s.len() >= 2 && is_ascii_letter(s[0]) && s[1] == ':'
}

/// The Windows path prefix of `p`, as std's path parser reads it: its length and
/// whether it makes the path verbatim. `\\?\UNC\server\share`, `\\?\C:` and
/// `\\?\name` are verbatim; `\\.\device`, `\\server\share` and `C:` are not. In
/// the first eight characters `/` counts as `\` when the prefix is matched, but a
/// verbatim prefix must spell its first four characters with `\`.
pub open spec fn windows_prefix(p: Seq<char>) -> (int, bool) {
    if p.len() >= 2 && is_separator(p[0]) && is_separator(p[1]) {
        let r = p.skip(2);
        if r.len() >= 2 && r[0] == '?' && r[1] == '\\' && p[0] == '\\' && p[1] == '\\' {
            let v = r.skip(2);
            if v.len() >= 4 && v[0] == 'U' && v[1] == 'N' && v[2] == 'C' && is_separator(v[3]) {
                let s = v.skip(4);
                let server = component_len(s, true);
                let share = component_len(after_component(s, true), true);
                (
                    8 + server + if share > 0 {
                        1 + share
                    } else {
                        0
                    },
                    true,
                )
            } else if starts_with_drive(v) && (v.len() == 2 || is_separator(v[2])) {
                (6, true)
            } else {
                (4 + component_len(v, true), true)
            }
        } else if r.len() >= 2 && r[0] == '.' && is_separator(r[1]) {
            (4 + component_len(r.skip(2), false), false)
        } else {
            let server = component_len(r, false);
            let share = component_len(after_component(r, false), false);
            if server > 0 && share > 0 {
                (3 + server + share, false)
            } else {
                (0, false)
            }
        }
    } else if starts_with_drive(p) {
        (2, false)
    } else {
        (0, false)
    }
}

/// Position of the last separator in `s`.
pub open spec fn last_component_separator(s: Seq<char>, verbatim: bool) -> Option<int>
    decreases s.len(),
{
    if s.len() == 0 {
        None
    } else if is_component_separator(s.last(), verbatim) {
        Some(s.len() - 1)
    } else {
        last_component_separator(s.drop_last(), verbatim)
    }
}

/// The last component of the part `s` of a path that follows its prefix, when it
/// is a name: empty components are skipped, and so are `.` components unless the
/// path is verbatim; a last `.` or `..` is no name.
pub open spec fn last_name(s: Seq<char>, verbatim: bool) -> Option<Seq<char>>
    decreases s.len(),
{
    match last_component_separator(s, verbatim) {
        Some(k) => {
            proof {
                lemma_last_component_separator(s, verbatim);
            }
            let seg = s.skip(k + 1);
            if seg.len() == 0 || (!verbatim && seg == seq!['.']) {
                last_name(s.take(k), verbatim)
            } else if seg == seq!['.'] || seg == seq!['.', '.'] {
                None
            } else {
                Some(seg)
            }
        },
        None => if s.len() == 0 || s == seq!['.'] || s == seq!['.', '.'] {
            None
        } else {
            Some(s)
        },
    }
}

/// `Path::file_name` on Windows: the last component of `p` after its prefix.
pub open spec fn file_name(p: Seq<char>) -> Option<Seq<char>> {
    let (len, verbatim) = windows_prefix(p);
    last_name(p.skip(len), verbatim)
}

/// `Path::extension` of a file name: the text after its last `.`, unless the
/// name has no `.` or its only `.` is in front.
pub open spec fn extension(name: Seq<char>) -> Option<Seq<char>> {
    match last_index_of(name, '.') {
        Some(k) => if k == 0 {
            None
        } else {
            Some(name.skip(k + 1))
        },
        None => None,
    }
}

/// The file name of `p` has the extension `exe`, in any ASCII case.
pub open spec fn has_exe_extension_text(p: Seq<char>) -> bool {
    match file_name(p) {
        Some(name) => match extension(name) {
            Some(e) => eq_ignore_ascii_case(e, "exe"@),
            None => false,
        },
        None => false,
    }
}

/// `Path::new(base).join(rel)` on Windows, for a path `rel` made of names.
pub fn join_windows_path(base: &str, rel: &str) -> (r: String)
    requires
        is_name_path(rel@),
    ensures
        r@ == join_path(base@, rel@),
{
    let b = chars_of(base);
    let n = b.len();
    let (len, verbatim) = prefix_of(&b);
    if verbatim {
        let mut out: Vec<char> = Vec::new();
        push_range(&mut out, &b, 0, len);
        out.push('\\');
        let start = if len < n && (b[len] == '\\' || b[len] == '/') {
            len + 1
        } else {
            len
        };
        let ghost rest = b@.skip(len as int);
        let ghost body = if rest.len() > 0 && is_separator(rest[0]) {
            rest.skip(1)
        } else {
            rest
        };
        assert(body =~= b@.skip(start as int));
        let ghost target = b@.take(len as int) + seq!['\\'] + squeeze(body, false);
        assert(out@ + squeeze(body, false) =~= target);
        let mut in_name = false;
        let mut i = start;
        while i < n
            invariant
                start <= i <= n,
                n == b.len(),
                out@ + squeeze(b@.skip(i as int), in_name) == target,
            decreases n - i,
        {
            let ghost tail = b@.skip(i as int);
            assert(tail.drop_first() =~= b@.skip(i + 1));
            let ghost prev = out@;
            let c = b[i];
            if c == '\\' {
                if in_name {
                    out.push('\\');
                    assert(prev + (seq!['\\'] + squeeze(b@.skip(i + 1), false)) =~= out@
                        + squeeze(b@.skip(i + 1), false));
                } else {
                    assert(prev + (Seq::<char>::empty() + squeeze(b@.skip(i + 1), false))
                        =~= out@ + squeeze(b@.skip(i + 1), false));
                }
                in_name = false;
            } else {
                out.push(c);
                assert(prev + (seq![c] + squeeze(b@.skip(i + 1), true)) =~= out@ + squeeze(
                    b@.skip(i + 1),
                    true,
                ));
                in_name = true;
            }
            i = i + 1;
        }
        assert(b@.skip(n as int) =~= Seq::<char>::empty());
        if in_name {
            out.push('\\');
        }
        assert(out@ =~= target);
        push_str(&mut out, rel);
        return string_from_chars(out.as_slice());
    }
    let sep = n > 0 && !(b[n - 1] == '\\' || b[n - 1] == '/') && !(n == 2 && (('a' <= b[0]
        && b[0] <= 'z') || ('A' <= b[0] && b[0] <= 'Z')) && b[1] == ':');
    let mut out = b;
    if sep {
        out.push('\\');
    }
    push_str(&mut out, rel);
    assert(out@ =~= join_path(base@, rel@));
    string_from_chars(out.as_slice())
}

/// The Windows directory from the values of `WINDIR` and `SystemRoot`, each
/// `None` when unset; `C:\Windows` when neither is set.
pub fn windows_dir(windir: Option<String>, system_root: Option<String>) -> (r: String)
    ensures
        r@ == windows_dir_text(windir.deep_view(), system_root.deep_view()),
{
    match windir {
        Some(w) => w,
        None => match system_root {
            Some(s) => s,
            None => String::from_str("C:\\Windows"),
        },
    }
}

/// Position of the last separator in `v[lo..hi]`, counted from the start of `v`.
fn rfind_component_separator(v: &Vec<char>, lo: usize, hi: usize, verbatim: bool) -> (r: Option<
    usize,
>)
    requires
        lo <= hi <= v.len(),
    ensures
        match last_component_separator(v@.subrange(lo as int, hi as int), verbatim) {
            Some(k) => r == Some((k + lo) as usize),
            None => r is None,
        },
{
    let mut j = hi;
    while j > lo
        invariant
            lo <= j <= hi <= v.len(),
            last_component_separator(v@.subrange(lo as int, j as int), verbatim)
                == last_component_separator(v@.subrange(lo as int, hi as int), verbatim),
        decreases j - lo,
    {
        assert(v@.subrange(lo as int, j as int).drop_last() =~= v@.subrange(lo as int, j - 1));
        if v[j - 1] == '\\' || (!verbatim && v[j - 1] == '/') {
            return Some(j - 1);
        }
        j = j - 1;
    }
    None
}

/// Length of the first component of `v[lo..]`.
fn first_component_len(v: &Vec<char>, lo: usize, verbatim: bool) -> (r: usize)
    requires
        lo <= v.len(),
    ensures
        r == component_len(v@.skip(lo as int), verbatim),
        lo + r <= v.len(),
{
    let mut i = lo;
    while i < v.len() && !(v[i] == '\\' || (!verbatim && v[i] == '/'))
        invariant
            lo <= i <= v.len(),
            component_len(v@.skip(lo as int), verbatim) == (i - lo) + component_len(
                v@.skip(i as int),
                verbatim,
            ),
        decreases v.len() - i,
    {
        assert(v@.skip(i as int).drop_first() =~= v@.skip(i + 1));
        i = i + 1;
    }
    i - lo
}

/// Length of the prefix of `v` and whether it makes the path verbatim.
fn prefix_of(v: &Vec<char>) -> (r: (usize, bool))
    ensures
        windows_prefix(v@) == (r.0 as int, r.1),
        r.0 <= v.len(),
{
    let n = v.len();
    let sep0 = n >= 2 && (v[0] == '\\' || v[0] == '/') && (v[1] == '\\' || v[1] == '/');
    if sep0 {
        let ghost r = v@.skip(2);
        if n >= 4 && v[2] == '?' && v[3] == '\\' && v[0] == '\\' && v[1] == '\\' {
            let ghost w = r.skip(2);
            assert(w =~= v@.skip(4));
            if n >= 8 && v[4] == 'U' && v[5] == 'N' && v[6] == 'C' && (v[7] == '\\' || v[7] == '/') {
                assert(w.skip(4) =~= v@.skip(8));
                let server = first_component_len(v, 8, true);
                proof {
                    lemma_component_len(v@.skip(8), true);
                }
                let share = if 8 + server < n {
                    assert(after_component(v@.skip(8), true) =~= v@.skip(8 + server + 1));
                    first_component_len(v, 8 + server + 1, true)
                } else {
                    assert(after_component(v@.skip(8), true) =~= Seq::<char>::empty());
                    0
                };
                if share > 0 {
                    (8 + server + 1 + share, true)
                } else {
                    (8 + server, true)
                }
            } else if n >= 6 && (('a' <= v[4] && v[4] <= 'z') || ('A' <= v[4] && v[4] <= 'Z'))
                && v[5] == ':' && (n == 6 || v[6] == '\\' || v[6] == '/') {
                (6, true)
            } else {
                let c = first_component_len(v, 4, true);
                (4 + c, true)
            }
        } else if n >= 4 && v[2] == '.' && (v[3] == '\\' || v[3] == '/') {
            assert(r.skip(2) =~= v@.skip(4));
            let c = first_component_len(v, 4, false);
            (4 + c, false)
        } else {
            assert(r =~= v@.skip(2));
            let server = first_component_len(v, 2, false);
            proof {
                lemma_component_len(v@.skip(2), false);
            }
            let share = if 2 + server < n {
                assert(after_component(v@.skip(2), false) =~= v@.skip(2 + server + 1));
                first_component_len(v, 2 + server + 1, false)
            } else {
                assert(after_component(v@.skip(2), false) =~= Seq::<char>::empty());
                0
            };
            if server > 0 && share > 0 {
                (3 + server + share, false)
            } else {
                (0, false)
            }
        }
    } else if n >= 2 && (('a' <= v[0] && v[0] <= 'z') || ('A' <= v[0] && v[0] <= 'Z')) && v[1] == ':' {
        (2, false)
    } else {
        (0, false)
    }
}

/// Whether `v[lo..hi]` is `.` (`count` 1) or `..` (`count` 2).
fn is_dots(v: &Vec<char>, lo: usize, hi: usize, count: usize) -> (r: bool)
    requires
        lo <= hi <= v.len(),
        count == 1 || count == 2,
    ensures
        r == (v@.subrange(lo as int, hi as int) == (if count == 1 {
            seq!['.']
        } else {
            seq!['.', '.']
        })),
{
    let ghost seg = v@.subrange(lo as int, hi as int);
    if hi - lo != count {
        assert(seg.len() != (if count == 1 {
            seq!['.']
        } else {
            seq!['.', '.']
        }).len());
        return false;
    }
    if count == 1 {
        let r = v[lo] == '.';
        if r {
            assert(seg =~= seq!['.']);
        } else {
            assert(seg[0] != seq!['.'][0]);
        }
        r
    } else {
        let r = v[lo] == '.' && v[lo + 1] == '.';
        if r {
            assert(seg =~= seq!['.', '.']);
        } else {
            assert(seg != seq!['.', '.']) by {
                if seg == seq!['.', '.'] {
                    assert(seg[0] == seq!['.', '.'][0] && seg[1] == seq!['.', '.'][1]);
                }
            }
        }
        r
    }
}

/// Bounds of the file name of `v`, if it has one.
fn file_name_bounds(v: &Vec<char>) -> (r: Option<(usize, usize)>)
    ensures
        match file_name(v@) {
            Some(name) => r matches Some((a, b)) && a <= b <= v.len() && name == v@.subrange(
                a as int,
                b as int,
            ),
            None => r is None,
        },
{
    let (lo, verbatim) = prefix_of(v);
    let mut hi = v.len();
    assert(v@.subrange(lo as int, hi as int) =~= v@.skip(lo as int));
    loop
        invariant
            lo <= hi <= v.len(),
            windows_prefix(v@) == (lo as int, verbatim),
            last_name(v@.subrange(lo as int, hi as int), verbatim) == file_name(v@),
        decreases hi,
    {
        let ghost p = v@.subrange(lo as int, hi as int);
        match rfind_component_separator(v, lo, hi, verbatim) {
            Some(k) => {
                proof {
                    lemma_last_component_separator(p, verbatim);
                }
                assert(p.skip(k - lo + 1) =~= v@.subrange(k + 1, hi as int));
                assert(p.take(k - lo) =~= v@.subrange(lo as int, k as int));
                if k + 1 == hi || (!verbatim && is_dots(v, k + 1, hi, 1)) {
                    hi = k;
                } else if is_dots(v, k + 1, hi, 1) || is_dots(v, k + 1, hi, 2) {
                    return None;
                } else {
                    return Some((k + 1, hi));
                }
            },
            None => {
                if hi == lo || is_dots(v, lo, hi, 1) || is_dots(v, lo, hi, 2) {
                    return None;
                }
                return Some((lo, hi));
            },
        }
    }
}

/// Whether the file name of `path` has the extension `exe`, in any ASCII case.
pub fn has_exe_extension(path: &str) -> (r: bool)
    ensures
        r == has_exe_extension_text(path@),
{
    let v = chars_of(path);
    let ghost fname = file_name(v@);
    match file_name_bounds(&v) {
        None => {
            assert(fname is None);
            false
        },
        Some((start, n)) => {
            let ghost name = v@.subrange(start as int, n as int);
            assert(fname == Some(name));
            match rfind_char(&v, start, n, '.') {
                Some(dot) => {
                    proof {
                        lemma_last_index_of(name, '.');
                    }
                    if dot == start {
                        false
                    } else {
                        assert(name.skip(dot - start + 1) =~= v@.subrange(dot + 1, n as int));
                        let exe = chars_of("exe");
                        assert(exe@.subrange(0, exe.len() as int) =~= exe@);
                        eq_ignore_ascii_case_range(&v, dot + 1, n, &exe, 0, exe.len())
                    }
                },
                None => false,
            }
        },
    }
}

/// What `last_component_separator` returns: the position of a separator.
pub proof fn lemma_last_component_separator(s: Seq<char>, verbatim: bool)
    ensures
        last_component_separator(s, verbatim) matches Some(k) ==> 0 <= k < s.len(),
    decreases s.len(),
{
    if s.len() > 0 && !is_component_separator(s.last(), verbatim) {
        lemma_last_component_separator(s.drop_last(), verbatim);
    }
}

/// The first component of `s` lies within `s`.
pub proof fn lemma_component_len(s: Seq<char>, verbatim: bool)
    ensures
        0 <= component_len(s, verbatim) <= s.len(),
    decreases s.len(),
{
    if s.len() > 0 && !is_component_separator(s[0], verbatim) {
        lemma_component_len(s.drop_first(), verbatim);
    }
}

/// Whether `path` names an executable file: its file name has the extension
/// `exe`, in any ASCII case, and `is_file` (what the file system says of `path`) holds.
pub fn is_executable_file(path: &str, is_file: bool) -> (r: bool)
    ensures
        r == (has_exe_extension_text(path@) && is_file),
{
    has_exe_extension(path) && is_file
}

} // verus!
