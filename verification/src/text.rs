//! Character-level text operations: trimming, searching and ASCII case folding,
//! stated over the `Seq<char>` view of strings.
use vstd::prelude::*;

verus! {

/// The Unicode `White_Space` property of a character (PropList.txt): the
/// controls U+0009 to U+000D, space, U+0085, no-break space U+00A0, U+1680,
/// U+2000 to U+200A, the line and paragraph separators U+2028 and U+2029,
/// U+202F, U+205F and the ideographic space U+3000.
pub open spec fn unicode_white_space(c: char) -> bool {
    let u = c as u32;
    (0x9 <= u && u <= 0xd) || u == 0x20 || u == 0x85 || u == 0xa0 || u == 0x1680 || (0x2000 <= u
        && u <= 0x200a) || u == 0x2028 || u == 0x2029 || u == 0x202f || u == 0x205f || u == 0x3000
}

/// The Unicode lower-case form of a whole string.
pub uninterp spec fn unicode_lowercase(s: Seq<char>) -> Seq<char>;

/// `char::is_whitespace`: whether `c` has the Unicode `White_Space` property.
pub fn is_white_space(c: char) -> (r: bool)
    ensures
        r == unicode_white_space(c),
{
    let u = c as u32;
    (0x9 <= u && u <= 0xd) || u == 0x20 || u == 0x85 || u == 0xa0 || u == 0x1680 || (0x2000 <= u
        && u <= 0x200a) || u == 0x2028 || u == 0x2029 || u == 0x202f || u == 0x205f || u == 0x3000
}

/// `c` is an ASCII character.
pub open spec fn is_ascii_char(c: char) -> bool {
    (c as u32) < 128
}

/// All characters of `s` are ASCII.
pub open spec fn is_ascii_text(s: Seq<char>) -> bool {
    forall|i: int| 0 <= i < s.len() ==> #[trigger] is_ascii_char(s[i])
}

/// `c` with an ASCII upper-case letter mapped to lower case.
pub open spec fn ascii_lower_char(c: char) -> char {
    if 65 <= (c as u32) && (c as u32) <= 90 {
        ((c as u32) + 32) as char
    } else {
        c
    }
}

/// `s` with its ASCII upper-case letters mapped to lower case.
pub open spec fn ascii_lowercase(s: Seq<char>) -> Seq<char> {
    s.map_values(|c: char| ascii_lower_char(c))
}

/// Calls `str::to_lowercase`: the Unicode lower-case mapping of `s`, a function of
/// `s` alone. Its documentation defines it by the Unicode `Lowercase` property;
/// on ASCII text that mapping takes `A` to `Z` to `a` to `z` and keeps every
/// other character, which is all that is stated here. What it does to other
/// characters is left to the named result.
#[verifier::external_body]
pub(crate) fn to_lowercase(s: &str) -> (r: String)
    ensures
        r@ == unicode_lowercase(s@),
        is_ascii_text(s@) ==> r@ == ascii_lowercase(s@),
{
    s.to_lowercase()
}

/// Collects characters into a `String` (`FromIterator<&char>` for `String`):
/// the string holds exactly these characters in this order.
#[verifier::external_body]
pub(crate) fn string_from_chars(chars: &[char]) -> (r: String)
    ensures
        r@ == chars@,
{
    String::from_iter(chars.iter())
}

/// The characters of a string, in order.
pub fn chars_of(s: &str) -> (res: Vec<char>)
    ensures
        res@ == s@,
{
    let mut res: Vec<char> = Vec::new();
    for c in it: s.chars()
        invariant
            res@ == it.seq().take(it.index() as int),
            it.seq() == s@,
    {
        res.push(c);
    }
    res
}

/// Whether a trim removes `c`: white space when `quotes` is false, the double
/// quote `"` when it is true.
pub open spec fn strips(c: char, quotes: bool) -> bool {
    if quotes {
        c == '"'
    } else {
        unicode_white_space(c)
    }
}

/// `s` without its leading characters that `strips` removes.
pub open spec fn trim_start_by(s: Seq<char>, quotes: bool) -> Seq<char>
    decreases s.len(),
{
    if s.len() > 0 && strips(s[0], quotes) {
        trim_start_by(s.drop_first(), quotes)
    } else {
        s
    }
}

/// `s` without its trailing characters that `strips` removes.
pub open spec fn trim_end_by(s: Seq<char>, quotes: bool) -> Seq<char>
    decreases s.len(),
{
    if s.len() > 0 && strips(s.last(), quotes) {
        trim_end_by(s.drop_last(), quotes)
    } else {
        s
    }
}

/// `s` without leading and trailing characters that `strips` removes.
pub open spec fn trim_by(s: Seq<char>, quotes: bool) -> Seq<char> {
    trim_end_by(trim_start_by(s, quotes), quotes)
}

/// `str::trim`: leading and trailing white space removed.
pub open spec fn trim_ws(s: Seq<char>) -> Seq<char> {
    trim_by(s, false)
}

/// `str::trim_matches('"')`: leading and trailing double quotes removed.
pub open spec fn trim_quotes(s: Seq<char>) -> Seq<char> {
    trim_by(s, true)
}

/// Position of the first `c` in `s`.
pub open spec fn first_index_of(s: Seq<char>, c: char) -> Option<int>
    decreases s.len(),
{
    if s.len() == 0 {
        None
    } else if s[0] == c {
        Some(0)
    } else {
        match first_index_of(s.drop_first(), c) {
            Some(k) => Some(k + 1),
            None => None,
        }
    }
}

/// Position of the last `c` in `s`.
pub open spec fn last_index_of(s: Seq<char>, c: char) -> Option<int>
    decreases s.len(),
{
    if s.len() == 0 {
        None
    } else if s.last() == c {
        Some(s.len() - 1)
    } else {
        last_index_of(s.drop_last(), c)
    }
}

/// The code of `c` with ASCII upper-case letters mapped to lower case.
pub open spec fn ascii_fold(c: char) -> u32 {
    if 65 <= (c as u32) && (c as u32) <= 90 {
        (c as u32 + 32) as u32
    } else {
        c as u32
    }
}

/// `str::eq_ignore_ascii_case`: same length and equal after folding ASCII case.
/// The std function compares UTF-8 bytes; since folding touches only ASCII
/// bytes, which are whole characters, comparing characters gives the same answer.
pub open spec fn eq_ignore_ascii_case(a: Seq<char>, b: Seq<char>) -> bool {
    &&& a.len() == b.len()
    &&& forall|i: int| 0 <= i < a.len() ==> #[trigger] ascii_fold(a[i]) == ascii_fold(b[i])
}

/// Equality up to ASCII case is the same as equality after mapping ASCII
/// letters to lower case.
pub proof fn lemma_eq_ignore_ascii_case_lower(a: Seq<char>, b: Seq<char>)
    ensures
        eq_ignore_ascii_case(a, b) <==> ascii_lowercase(a) == ascii_lowercase(b),
{
    broadcast use vstd::utf8::char_u32_cast;

    if eq_ignore_ascii_case(a, b) {
        assert forall|i: int| 0 <= i < a.len() implies ascii_lowercase(a)[i] == ascii_lowercase(
            b,
        )[i] by {
            assert(ascii_fold(a[i]) == ascii_fold(b[i]));
        }
        assert(ascii_lowercase(a) =~= ascii_lowercase(b));
    }
    if ascii_lowercase(a) == ascii_lowercase(b) {
        assert(a.len() == ascii_lowercase(a).len());
        assert forall|i: int| 0 <= i < a.len() implies #[trigger] ascii_fold(a[i]) == ascii_fold(
            b[i],
        ) by {
            assert(ascii_lowercase(a)[i] == ascii_lowercase(b)[i]);
            let x = a[i];
            let y = b[i];
            assert(ascii_lower_char(x) as u32 == ascii_fold(x));
            assert(ascii_lower_char(y) as u32 == ascii_fold(y));
        }
    }
}

/// Equality up to ASCII case is symmetric and transitive.
pub proof fn lemma_eq_ignore_ascii_case_equiv(a: Seq<char>, b: Seq<char>, c: Seq<char>)
    ensures
        eq_ignore_ascii_case(a, a),
        eq_ignore_ascii_case(a, b) ==> eq_ignore_ascii_case(b, a),
        eq_ignore_ascii_case(a, b) && eq_ignore_ascii_case(b, c) ==> eq_ignore_ascii_case(a, c),
{
}

/// `pat` occurs in `s` at position `i`.
pub open spec fn occurs_at(s: Seq<char>, pat: Seq<char>, i: int) -> bool {
    0 <= i && i + pat.len() <= s.len() && s.subrange(i, i + pat.len()) == pat
}

/// `str::contains` with a string pattern.
pub open spec fn contains_text(s: Seq<char>, pat: Seq<char>) -> bool {
    exists|i: int| occurs_at(s, pat, i)
}

/// What `first_index_of` returns: the position of the first `c`, or none when
/// `c` does not occur.
pub proof fn lemma_first_index_of(s: Seq<char>, c: char)
    ensures
        match first_index_of(s, c) {
            Some(k) => 0 <= k < s.len() && s[k] == c && forall|j: int| 0 <= j < k ==> s[j] != c,
            None => forall|j: int| 0 <= j < s.len() ==> s[j] != c,
        },
    decreases s.len(),
{
    if s.len() > 0 && s[0] != c {
        lemma_first_index_of(s.drop_first(), c);
        assert forall|j: int| 0 < j < s.len() implies s[j] == s.drop_first()[j - 1] by {}
    }
}

/// What `last_index_of` returns: the position of the last `c`, or none when
/// `c` does not occur.
pub proof fn lemma_last_index_of(s: Seq<char>, c: char)
    ensures
        match last_index_of(s, c) {
            Some(k) => 0 <= k < s.len() && s[k] == c && forall|j: int| k < j < s.len() ==> s[j] != c,
            None => forall|j: int| 0 <= j < s.len() ==> s[j] != c,
        },
    decreases s.len(),
{
    if s.len() > 0 && s.last() != c {
        lemma_last_index_of(s.drop_last(), c);
        assert forall|j: int| 0 <= j < s.len() - 1 implies s[j] == s.drop_last()[j] by {}
    }
}

/// A position holding `c` with no `c` before it is what `first_index_of` finds.
pub proof fn lemma_first_index_at(s: Seq<char>, c: char, k: int)
    requires
        0 <= k < s.len(),
        s[k] == c,
        forall|j: int| 0 <= j < k ==> s[j] != c,
    ensures
        first_index_of(s, c) == Some(k),
    decreases k,
{
    if k > 0 {
        lemma_first_index_at(s.drop_first(), c, k - 1);
    }
}

/// A position holding `c` with no `c` after it is what `last_index_of` finds.
pub proof fn lemma_last_index_at(s: Seq<char>, c: char, k: int)
    requires
        0 <= k < s.len(),
        s[k] == c,
        forall|j: int| k < j < s.len() ==> s[j] != c,
    ensures
        last_index_of(s, c) == Some(k),
    decreases s.len(),
{
    if k < s.len() - 1 {
        lemma_last_index_at(s.drop_last(), c, k);
    }
}

/// A text whose ends a trim does not remove is left as it is.
pub proof fn lemma_trim_keeps(s: Seq<char>, quotes: bool)
    requires
        s.len() > 0 ==> !strips(s[0], quotes) && !strips(s.last(), quotes),
    ensures
        trim_by(s, quotes) == s,
{
}

/// A text that its trim leaves as it is, unless empty, has ends the trim does not remove.
pub proof fn lemma_trimmed_ends(s: Seq<char>, quotes: bool)
    requires
        trim_by(s, quotes) == s,
    ensures
        s.len() > 0 ==> !strips(s[0], quotes) && !strips(s.last(), quotes),
{
    let _ = lemma_trim_by(s, quotes);
}

/// Appends `v[lo..hi]` to `out`.
pub fn push_range(out: &mut Vec<char>, v: &Vec<char>, lo: usize, hi: usize)
    requires
        lo <= hi <= v.len(),
    ensures
        final(out)@ == old(out)@ + v@.subrange(lo as int, hi as int),
{
    let ghost start = out@;
    let mut i = lo;
    while i < hi
        invariant
            lo <= i <= hi <= v.len(),
            out@ == start + v@.subrange(lo as int, i as int),
        decreases hi - i,
    {
        out.push(v[i]);
        assert(v@.subrange(lo as int, i + 1) =~= v@.subrange(lo as int, i as int).push(v@[i as int]));
        i = i + 1;
    }
}

/// Appends the characters of `s` to `out`.
pub fn push_str(out: &mut Vec<char>, s: &str)
    ensures
        final(out)@ == old(out)@ + s@,
{
    let v = chars_of(s);
    push_range(out, &v, 0, v.len());
    assert(v@.subrange(0, v.len() as int) =~= s@);
}

/// A trim keeps a contiguous part `s[a..b]` of its input, and what it keeps,
/// unless empty, neither starts nor ends with a character that the trim removes.
pub proof fn lemma_trim_by(s: Seq<char>, quotes: bool) -> (r: (int, int))
    ensures
        0 <= r.0 <= r.1 <= s.len(),
        trim_by(s, quotes) == s.subrange(r.0, r.1),
        trim_by(s, quotes).len() > 0 ==> !strips(trim_by(s, quotes)[0], quotes) && !strips(
            trim_by(s, quotes).last(),
            quotes,
        ),
{
    let a = lemma_trim_start_by(s, quotes);
    let t = trim_start_by(s, quotes);
    let b = lemma_trim_end_by(t, quotes);
    assert(trim_by(s, quotes) =~= s.subrange(a, a + b));
    if trim_by(s, quotes).len() > 0 {
        assert(trim_by(s, quotes)[0] == t[0]);
    }
    (a, a + b)
}

/// `trim_start_by` keeps a suffix `s[a..]`, which does not start with a removed
/// character.
pub proof fn lemma_trim_start_by(s: Seq<char>, quotes: bool) -> (a: int)
    ensures
        0 <= a <= s.len(),
        trim_start_by(s, quotes) == s.subrange(a, s.len() as int),
        trim_start_by(s, quotes).len() > 0 ==> !strips(trim_start_by(s, quotes)[0], quotes),
    decreases s.len(),
{
    if s.len() > 0 && strips(s[0], quotes) {
        let a = lemma_trim_start_by(s.drop_first(), quotes);
        assert(s.drop_first().subrange(a, s.len() - 1) =~= s.subrange(a + 1, s.len() as int));
        a + 1
    } else {
        assert(s.subrange(0, s.len() as int) =~= s);
        0
    }
}

/// `trim_end_by` keeps a prefix `s[..b]`, which does not end with a removed
/// character.
pub proof fn lemma_trim_end_by(s: Seq<char>, quotes: bool) -> (b: int)
    ensures
        0 <= b <= s.len(),
        trim_end_by(s, quotes) == s.subrange(0, b),
        trim_end_by(s, quotes).len() > 0 ==> !strips(trim_end_by(s, quotes).last(), quotes),
    decreases s.len(),
{
    if s.len() > 0 && strips(s.last(), quotes) {
        let b = lemma_trim_end_by(s.drop_last(), quotes);
        assert(s.drop_last().subrange(0, b) =~= s.subrange(0, b));
        b
    } else {
        assert(s.subrange(0, s.len() as int) =~= s);
        s.len() as int
    }
}

/// Whether a trim removes `c`.
pub fn strips_char(c: char, quotes: bool) -> (r: bool)
    ensures
        r == strips(c, quotes),
{
    if quotes {
        c == '"'
    } else {
        is_white_space(c)
    }
}

/// Lower and upper bound of the part of `v[lo..hi]` that a trim keeps.
pub fn trim_bounds(v: &Vec<char>, lo: usize, hi: usize, quotes: bool) -> (r: (usize, usize))
    requires
        lo <= hi <= v.len(),
    ensures
        lo <= r.0 <= r.1 <= hi,
        v@.subrange(r.0 as int, r.1 as int) == trim_by(v@.subrange(lo as int, hi as int), quotes),
{
    let mut i = lo;
    while i < hi && strips_char(v[i], quotes)
        invariant
            lo <= i <= hi <= v.len(),
            trim_start_by(v@.subrange(i as int, hi as int), quotes) == trim_start_by(
                v@.subrange(lo as int, hi as int),
                quotes,
            ),
        decreases hi - i,
    {
        assert(v@.subrange(i as int, hi as int).drop_first() =~= v@.subrange(i + 1, hi as int));
        i = i + 1;
    }
    let ghost start = trim_start_by(v@.subrange(lo as int, hi as int), quotes);
    assert(start == v@.subrange(i as int, hi as int));
    let mut j = hi;
    while j > i && strips_char(v[j - 1], quotes)
        invariant
            lo <= i <= j <= hi <= v.len(),
            trim_end_by(v@.subrange(i as int, j as int), quotes) == trim_end_by(start, quotes),
        decreases j - i,
    {
        assert(v@.subrange(i as int, j as int).drop_last() =~= v@.subrange(i as int, j - 1));
        j = j - 1;
    }
    (i, j)
}

/// First position of `c` in `v[lo..hi]`, counted from the start of `v`.
pub fn find_char(v: &Vec<char>, lo: usize, hi: usize, c: char) -> (r: Option<usize>)
    requires
        lo <= hi <= v.len(),
    ensures
        match first_index_of(v@.subrange(lo as int, hi as int), c) {
            Some(k) => r == Some((k + lo) as usize),
            None => r is None,
        },
{
    let mut i = lo;
    while i < hi
        invariant
            lo <= i <= hi <= v.len(),
            match first_index_of(v@.subrange(i as int, hi as int), c) {
                Some(k) => first_index_of(v@.subrange(lo as int, hi as int), c) == Some(k + i - lo),
                None => first_index_of(v@.subrange(lo as int, hi as int), c) is None,
            },
        decreases hi - i,
    {
        assert(v@.subrange(i as int, hi as int).drop_first() =~= v@.subrange(i + 1, hi as int));
        if v[i] == c {
            return Some(i);
        }
        i = i + 1;
    }
    None
}

/// Last position of `c` in `v[lo..hi]`, counted from the start of `v`.
pub fn rfind_char(v: &Vec<char>, lo: usize, hi: usize, c: char) -> (r: Option<usize>)
    requires
        lo <= hi <= v.len(),
    ensures
        match last_index_of(v@.subrange(lo as int, hi as int), c) {
            Some(k) => r == Some((k + lo) as usize),
            None => r is None,
        },
{
    let mut j = hi;
    while j > lo
        invariant
            lo <= j <= hi <= v.len(),
            last_index_of(v@.subrange(lo as int, j as int), c) == last_index_of(
                v@.subrange(lo as int, hi as int),
                c,
            ),
        decreases j - lo,
    {
        assert(v@.subrange(lo as int, j as int).drop_last() =~= v@.subrange(lo as int, j - 1));
        if v[j - 1] == c {
            return Some(j - 1);
        }
        j = j - 1;
    }
    None
}

/// The code of `c` with ASCII upper-case letters mapped to lower case.
pub fn fold_ascii(c: char) -> (r: u32)
    ensures
        r == ascii_fold(c),
{
    let code = c as u32;
    if 65 <= code && code <= 90 {
        code + 32
    } else {
        code
    }
}

/// Whether `a[alo..ahi]` and `b[blo..bhi]` are equal up to ASCII case.
pub fn eq_ignore_ascii_case_range(
    a: &Vec<char>,
    alo: usize,
    ahi: usize,
    b: &Vec<char>,
    blo: usize,
    bhi: usize,
) -> (r: bool)
    requires
        alo <= ahi <= a.len(),
        blo <= bhi <= b.len(),
    ensures
        r == eq_ignore_ascii_case(
            a@.subrange(alo as int, ahi as int),
            b@.subrange(blo as int, bhi as int),
        ),
{
    let ghost sa = a@.subrange(alo as int, ahi as int);
    let ghost sb = b@.subrange(blo as int, bhi as int);
    if ahi - alo != bhi - blo {
        return false;
    }
    let n = ahi - alo;
    let mut i: usize = 0;
    while i < n
        invariant
            n == ahi - alo == bhi - blo,
            alo <= ahi <= a.len(),
            blo <= bhi <= b.len(),
            sa == a@.subrange(alo as int, ahi as int),
            sb == b@.subrange(blo as int, bhi as int),
            i <= n,
            forall|k: int| 0 <= k < i ==> #[trigger] ascii_fold(sa[k]) == ascii_fold(sb[k]),
        decreases n - i,
    {
        if fold_ascii(a[alo + i]) != fold_ascii(b[blo + i]) {
            assert(ascii_fold(sa[i as int]) != ascii_fold(sb[i as int]));
            return false;
        }
        i = i + 1;
    }
    true
}

/// `str::eq_ignore_ascii_case`.
pub fn str_eq_ignore_ascii_case(a: &str, b: &str) -> (r: bool)
    ensures
        r == eq_ignore_ascii_case(a@, b@),
{
    let va = chars_of(a);
    let vb = chars_of(b);
    assert(va@.subrange(0, va.len() as int) =~= va@);
    assert(vb@.subrange(0, vb.len() as int) =~= vb@);
    eq_ignore_ascii_case_range(&va, 0, va.len(), &vb, 0, vb.len())
}

/// `str::contains` with a string pattern.
pub fn contains_str(s: &str, pat: &str) -> (r: bool)
    ensures
        r == contains_text(s@, pat@),
{
    let vs = chars_of(s);
    let vp = chars_of(pat);
    let n = vs.len();
    let m = vp.len();
    if m > n {
        assert forall|i: int| !occurs_at(s@, pat@, i) by {}
        return false;
    }
    let mut i: usize = 0;
    while i <= n - m
        invariant
            vs@ == s@,
            vp@ == pat@,
            n == vs.len(),
            m == vp.len(),
            m <= n,
            i <= n - m + 1,
            forall|k: int| 0 <= k < i ==> !occurs_at(s@, pat@, k),
        decreases n - m + 1 - i,
    {
        let mut j: usize = 0;
        while j < m && vs[i + j] == vp[j]
            invariant
                vs@ == s@,
                vp@ == pat@,
                n == vs.len(),
                m == vp.len(),
                i + m <= n,
                j <= m,
                forall|k: int| 0 <= k < j ==> vs@[i + k] == vp@[k],
            decreases m - j,
        {
            j = j + 1;
        }
        if j == m {
            assert(s@.subrange(i as int, i + m) =~= pat@);
            assert(occurs_at(s@, pat@, i as int));
            return true;
        }
        assert(s@.subrange(i as int, i + m)[j as int] != pat@[j as int]);
        i = i + 1;
    }
    assert forall|k: int| !occurs_at(s@, pat@, k) by {
        if 0 <= k && k + m <= n {
            assert(k < i);
        }
    }
    false
}

} // verus!
