//! Cache keys of extracted icons: an FNV-1a hash over the icon source, its
//! resource index and, when the file can be read, its size and modification time.
use vstd::prelude::*;
use vstd::utf8::{encode_utf8, encode_utf8_decode_utf8};
use crate::number::{
    decimal, format_int, hex16, is_digit, lemma_decimal, lemma_format_parse_i32, lemma_hex16_injective,
    push_decimal, push_hex16, push_i32,
};
use crate::text::{chars_of, string_from_chars, to_lowercase, unicode_lowercase};

verus! {

/// The FNV-1a offset basis for 64-bit hashes.
pub const FNV_OFFSET: u64 = 0xcbf29ce484222325;

/// The FNV-1a prime for 64-bit hashes.
pub const FNV_PRIME: u64 = 0x100000001b3;

/// What the file system reports of an icon source: its size in bytes and, when
/// known, its modification time in nanoseconds since the Unix epoch.
#[derive(Clone, Copy, Debug)]
pub struct FileStamp {
    pub len: u64,
    pub modified_nanos: Option<u128>,
}

/// The 64-bit FNV-1a hash of `bytes`.
pub open spec fn fnv1a(bytes: Seq<u8>) -> u64
    decreases bytes.len(),
{
    if bytes.len() == 0 {
        FNV_OFFSET
    } else {
        (fnv1a(bytes.drop_last()) ^ (bytes.last() as u64)).wrapping_mul(FNV_PRIME)
    }
}

/// The index that goes into the cache key: `i32::MIN` stands for no index.
pub open spec fn index_or_min(index: Option<i32>) -> i32 {
    match index {
        Some(i) => i,
        None => i32::MIN,
    }
}

/// The part of the cache key text that the file stamp adds: `|` and the size,
/// then `|` and the modification time when it is known; nothing without a stamp.
pub open spec fn stamp_text(stamp: Option<FileStamp>) -> Seq<char> {
    match stamp {
        None => Seq::empty(),
        Some(st) => seq!['|'] + decimal(st.len as nat) + modified_text(st.modified_nanos),
    }
}

/// `|` and the modification time, when it is known.
pub open spec fn modified_text(modified_nanos: Option<u128>) -> Seq<char> {
    match modified_nanos {
        None => Seq::empty(),
        Some(ns) => seq!['|'] + decimal(ns as nat),
    }
}

/// The text that the cache key hashes: the lower-cased source, `|`, the index
/// (`i32::MIN` when there is none), then the stamp text.
pub open spec fn cache_key_text(source: Seq<char>, index: Option<i32>, stamp: Option<FileStamp>) -> Seq<char> {
    unicode_lowercase(source) + seq!['|'] + format_int(index_or_min(index) as int) + stamp_text(stamp)
}

/// The name of the cached icon file for a key: `{:016x}.png`.
pub open spec fn icon_file_text(key: u64) -> Seq<char> {
    hex16(key) + seq!['.', 'p', 'n', 'g']
}

/// The FNV-1a hash of `bytes`.
pub fn fnv1a_hash(bytes: &[u8]) -> (h: u64)
    ensures
        h == fnv1a(bytes@),
{
    let mut hash: u64 = FNV_OFFSET;
    let mut i: usize = 0;
    while i < bytes.len()
        invariant
            i <= bytes.len(),
            hash == fnv1a(bytes@.take(i as int)),
        decreases bytes.len() - i,
    {
        assert(bytes@.take(i + 1).drop_last() =~= bytes@.take(i as int));
        hash = hash ^ (bytes[i] as u64);
        hash = hash.wrapping_mul(FNV_PRIME);
        i = i + 1;
    }
    assert(bytes@.take(bytes.len() as int) =~= bytes@);
    hash
}

/// The cache key of the icon at `source` with resource `index`: the FNV-1a hash
/// of the UTF-8 bytes of `cache_key_text`. `stamp` is what the file system
/// reports of `source`, or none when it cannot be read.
pub fn icon_cache_key(source: &str, index: Option<i32>, stamp: Option<FileStamp>) -> (key: u64)
    ensures
        key == fnv1a(encode_utf8(cache_key_text(source@, index, stamp))),
{
    let lowered = to_lowercase(source);
    let mut text = chars_of(lowered.as_str());
    text.push('|');
    let index_value = match index {
        Some(i) => i,
        None => i32::MIN,
    };
    push_i32(index_value, &mut text);
    match stamp {
        None => {},
        Some(st) => {
            text.push('|');
            push_decimal(st.len as u128, &mut text);
            match st.modified_nanos {
                None => {},
                Some(ns) => {
                    text.push('|');
                    push_decimal(ns, &mut text);
                },
            }
        },
    }
    assert(text@ =~= cache_key_text(source@, index, stamp));
    let joined = string_from_chars(text.as_slice());
    fnv1a_hash(joined.as_str().as_bytes())
}

/// The file name under which the icon with cache key `key` is stored.
pub fn icon_file_name(key: u64) -> (name: String)
    ensures
        name@ == icon_file_text(key),
{
    let mut text: Vec<char> = Vec::new();
    push_hex16(key, &mut text);
    text.push('.');
    text.push('p');
    text.push('n');
    text.push('g');
    assert(text@ =~= icon_file_text(key));
    string_from_chars(text.as_slice())
}

/// Distinct cache keys give distinct icon file names.
pub proof fn lemma_icon_file_names_distinct(a: u64, b: u64)
    requires
        a != b,
    ensures
        icon_file_text(a) != icon_file_text(b),
{
    if icon_file_text(a) == icon_file_text(b) {
        assert(icon_file_text(a).take(16) =~= hex16(a));
        assert(icon_file_text(b).take(16) =~= hex16(b));
        lemma_hex16_injective(a, b);
    }
}

/// `s` holds no `|`.
pub open spec fn no_bar(s: Seq<char>) -> bool {
    forall|i: int| 0 <= i < s.len() ==> s[i] != '|'
}

/// Empty, or starting with `|`.
pub open spec fn bar_led(s: Seq<char>) -> bool {
    s.len() == 0 || s[0] == '|'
}

/// A text without `|` followed by an empty or `|`-led tail splits only one way.
pub proof fn lemma_split_at_bar(a: Seq<char>, b: Seq<char>, c: Seq<char>, d: Seq<char>)
    requires
        no_bar(a),
        no_bar(c),
        bar_led(b),
        bar_led(d),
        a + b == c + d,
    ensures
        a == c,
        b == d,
{
    assert((a + b).len() == (c + d).len());
    if a.len() < c.len() {
        assert(b.len() > 0);
        assert((a + b)[a.len() as int] == b[0]);
        assert((c + d)[a.len() as int] == c[a.len() as int]);
        assert(false);
    } else if c.len() < a.len() {
        assert(d.len() > 0);
        assert((c + d)[c.len() as int] == d[0]);
        assert((a + b)[c.len() as int] == a[c.len() as int]);
        assert(false);
    }
    assert(a =~= (a + b).take(a.len() as int));
    assert(c =~= (c + d).take(c.len() as int));
    assert(b =~= (a + b).skip(a.len() as int));
    assert(d =~= (c + d).skip(c.len() as int));
}

/// Decimal digits hold no `|`, and different numbers have different digits.
pub proof fn lemma_decimal_text(n: nat, m: nat)
    ensures
        no_bar(decimal(n)),
        decimal(n) == decimal(m) ==> n == m,
{
    lemma_decimal(n);
    lemma_decimal(m);
    assert forall|i: int| 0 <= i < decimal(n).len() implies decimal(n)[i] != '|' by {
        assert(is_digit(decimal(n)[i]));
    }
}

/// The `{}` text of an `i32` holds no `|`, and different values have different texts.
pub proof fn lemma_format_int_text(x: i32, y: i32)
    ensures
        no_bar(format_int(x as int)),
        format_int(x as int) == format_int(y as int) ==> x == y,
{
    lemma_format_parse_i32(x);
    lemma_format_parse_i32(y);
    if x < 0 {
        lemma_decimal_text((-(x as int)) as nat, 0);
        assert forall|i: int| 0 <= i < format_int(x as int).len() implies format_int(x as int)[i] != '|' by {
            if i > 0 {
                assert(format_int(x as int)[i] == decimal((-(x as int)) as nat)[i - 1]);
            }
        }
    } else {
        lemma_decimal_text(x as nat, 0);
    }
}

/// Different modification times give different texts.
pub proof fn lemma_modified_text_injective(m1: Option<u128>, m2: Option<u128>)
    ensures
        bar_led(modified_text(m1)),
        modified_text(m1) == modified_text(m2) ==> m1 == m2,
{
    if modified_text(m1) == modified_text(m2) {
        match (m1, m2) {
            (Some(x), Some(y)) => {
                assert(modified_text(m1).drop_first() =~= decimal(x as nat));
                assert(modified_text(m2).drop_first() =~= decimal(y as nat));
                lemma_decimal_text(x as nat, y as nat);
            },
            (None, Some(_)) => {
                assert(modified_text(m2).len() > 0);
            },
            (Some(_), None) => {
                assert(modified_text(m1).len() > 0);
            },
            (None, None) => {},
        }
    }
}

/// Different file stamps give different stamp texts.
pub proof fn lemma_stamp_text_injective(s1: Option<FileStamp>, s2: Option<FileStamp>)
    ensures
        bar_led(stamp_text(s1)),
        stamp_text(s1) == stamp_text(s2) ==> s1 == s2,
{
    if stamp_text(s1) == stamp_text(s2) {
        match (s1, s2) {
            (Some(a), Some(b)) => {
                let da = decimal(a.len as nat);
                let db = decimal(b.len as nat);
                let ra = modified_text(a.modified_nanos);
                let rb = modified_text(b.modified_nanos);
                assert(stamp_text(s1).drop_first() =~= da + ra);
                assert(stamp_text(s2).drop_first() =~= db + rb);
                lemma_decimal_text(a.len as nat, b.len as nat);
                lemma_decimal_text(b.len as nat, a.len as nat);
                lemma_modified_text_injective(a.modified_nanos, b.modified_nanos);
                lemma_modified_text_injective(b.modified_nanos, a.modified_nanos);
                lemma_split_at_bar(da, ra, db, rb);
            },
            (None, Some(_)) => {
                assert(stamp_text(s2).len() > 0);
            },
            (Some(_), None) => {
                assert(stamp_text(s1).len() > 0);
            },
            (None, None) => {},
        }
    }
}

/// For one icon source, a different resource index or a different file stamp
/// gives a different text and so different bytes to hash: a changed file gets a
/// new cache key unless the hash collides. No index and index `i32::MIN` are the
/// same to the key, so they are left out.
pub proof fn lemma_cache_key_input_injective(
    source: Seq<char>,
    i1: Option<i32>,
    s1: Option<FileStamp>,
    i2: Option<i32>,
    s2: Option<FileStamp>,
)
    requires
        index_or_min(i1) != index_or_min(i2) || s1 != s2,
    ensures
        cache_key_text(source, i1, s1) != cache_key_text(source, i2, s2),
        encode_utf8(cache_key_text(source, i1, s1)) != encode_utf8(cache_key_text(source, i2, s2)),
{
    let prefix = unicode_lowercase(source) + seq!['|'];
    let t1 = format_int(index_or_min(i1) as int) + stamp_text(s1);
    let t2 = format_int(index_or_min(i2) as int) + stamp_text(s2);
    assert(cache_key_text(source, i1, s1) =~= prefix + t1);
    assert(cache_key_text(source, i2, s2) =~= prefix + t2);
    if cache_key_text(source, i1, s1) == cache_key_text(source, i2, s2) {
        assert(t1 =~= (prefix + t1).skip(prefix.len() as int));
        assert(t2 =~= (prefix + t2).skip(prefix.len() as int));
        lemma_format_int_text(index_or_min(i1), index_or_min(i2));
        lemma_format_int_text(index_or_min(i2), index_or_min(i1));
        lemma_stamp_text_injective(s1, s2);
        lemma_stamp_text_injective(s2, s1);
        lemma_split_at_bar(
            format_int(index_or_min(i1) as int),
            stamp_text(s1),
            format_int(index_or_min(i2) as int),
            stamp_text(s2),
        );
    }
    if encode_utf8(cache_key_text(source, i1, s1)) == encode_utf8(cache_key_text(source, i2, s2)) {
        encode_utf8_decode_utf8(cache_key_text(source, i1, s1));
        encode_utf8_decode_utf8(cache_key_text(source, i2, s2));
    }
}

} // verus!
