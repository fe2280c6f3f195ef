//! Lexicographic order of texts by code point (the order of `String`'s `Ord`),
//! and the stable sorting order of a list of keys.
use vstd::prelude::*;

verus! {

/// `a` sorts before `b`: at the first position where they differ `a` has the
/// smaller code point, or `a` is a proper prefix of `b`.
pub open spec fn text_less(a: Seq<char>, b: Seq<char>) -> bool
    decreases a.len(),
{
    if a.len() == 0 {
        b.len() > 0
    } else if b.len() == 0 {
        false
    } else if a[0] != b[0] {
        a[0] < b[0]
    } else {
        text_less(a.drop_first(), b.drop_first())
    }
}

/// No text sorts before itself.
pub proof fn lemma_text_less_irreflexive(a: Seq<char>)
    ensures
        !text_less(a, a),
    decreases a.len(),
{
    if a.len() > 0 {
        lemma_text_less_irreflexive(a.drop_first());
    }
}

/// Of two different texts, one sorts before the other, and never both.
pub proof fn lemma_text_less_total(a: Seq<char>, b: Seq<char>)
    ensures
        a != b ==> (text_less(a, b) || text_less(b, a)),
        !(text_less(a, b) && text_less(b, a)),
    decreases a.len(),
{
    if a.len() > 0 && b.len() > 0 && a[0] == b[0] {
        lemma_text_less_total(a.drop_first(), b.drop_first());
        if a != b {
            assert(a.drop_first() != b.drop_first()) by {
                if a.drop_first() == b.drop_first() {
                    assert(a =~= seq![a[0]] + a.drop_first());
                    assert(b =~= seq![b[0]] + b.drop_first());
                }
            }
        }
    } else if a.len() == 0 && b.len() == 0 {
        assert(a =~= b);
    } else if a.len() > 0 && b.len() > 0 {
    }
}

/// The order is transitive.
pub proof fn lemma_text_less_transitive(a: Seq<char>, b: Seq<char>, c: Seq<char>)
    requires
        text_less(a, b),
        text_less(b, c),
    ensures
        text_less(a, c),
    decreases a.len(),
{
    if a.len() > 0 && b.len() > 0 && c.len() > 0 && a[0] == b[0] && b[0] == c[0] {
        lemma_text_less_transitive(a.drop_first(), b.drop_first(), c.drop_first());
    }
}

/// Entry `i` of `keys` goes before entry `j` in a stable sort: its key is smaller,
/// or the keys are equal and it comes first.
pub open spec fn ranks_before(keys: Seq<Seq<char>>, i: int, j: int) -> bool {
    text_less(keys[i], keys[j]) || (keys[i] == keys[j] && i < j)
}

/// `ord` lists every index of `keys` once, in the order of a stable sort by key.
pub open spec fn is_stable_order(keys: Seq<Seq<char>>, ord: Seq<usize>) -> bool {
    &&& ord.len() == keys.len()
    &&& forall|a: int| 0 <= a < ord.len() ==> #[trigger] ord[a] < keys.len()
    &&& forall|x: usize| x < keys.len() ==> #[trigger] ord.contains(x)
    &&& forall|a: int, b: int|
        0 <= a < b < ord.len() ==> ranks_before(keys, #[trigger] ord[a] as int, #[trigger] ord[b] as int)
}

/// `ranks_before` is a strict order: never both ways, never reflexive.
pub proof fn lemma_ranks_before_asymmetric(keys: Seq<Seq<char>>, i: int, j: int)
    ensures
        !(ranks_before(keys, i, j) && ranks_before(keys, j, i)),
{
    lemma_text_less_total(keys[i], keys[j]);
    lemma_text_less_irreflexive(keys[i]);
}

/// A list of indices sorted strictly by `ranks_before`.
pub open spec fn strictly_ranked(keys: Seq<Seq<char>>, ord: Seq<usize>) -> bool {
    forall|a: int, b: int|
        0 <= a < b < ord.len() ==> ranks_before(keys, #[trigger] ord[a] as int, #[trigger] ord[b] as int)
}

/// Two strictly ranked lists of the same indices are the same list.
pub proof fn lemma_strictly_ranked_unique(keys: Seq<Seq<char>>, o1: Seq<usize>, o2: Seq<usize>)
    requires
        strictly_ranked(keys, o1),
        strictly_ranked(keys, o2),
        forall|x: usize| #![trigger o1.contains(x)] #![trigger o2.contains(x)] o1.contains(x) <==> o2.contains(x),
    ensures
        o1 == o2,
    decreases o1.len(),
{
    if o1.len() == 0 {
        if o2.len() > 0 {
            assert(o2.contains(o2[0]));
            assert(o1.contains(o2[0]));
        }
        assert(o1 =~= o2);
    } else {
        assert(o1.contains(o1[0]));
        assert(o2.len() > 0);
        assert(o2.contains(o2[0]));
        assert(o1.contains(o2[0]));
        assert(o2.contains(o1[0]));
        let a = choose|a: int| 0 <= a < o1.len() && o1[a] == o2[0];
        let b = choose|b: int| 0 <= b < o2.len() && o2[b] == o1[0];
        if o1[0] != o2[0] {
            assert(a > 0 && b > 0);
            assert(ranks_before(keys, o1[0] as int, o1[a] as int));
            assert(ranks_before(keys, o2[0] as int, o2[b] as int));
            lemma_ranks_before_asymmetric(keys, o1[0] as int, o2[0] as int);
        }
        let t1 = o1.drop_first();
        let t2 = o2.drop_first();
        assert forall|x: usize| #![trigger t1.contains(x)] #![trigger t2.contains(x)] t1.contains(x) <==> t2.contains(x) by {
            if t1.contains(x) {
                let k = choose|k: int| 0 <= k < t1.len() && t1[k] == x;
                assert(o1[k + 1] == x);
                assert(o1.contains(x));
                let m = choose|m: int| 0 <= m < o2.len() && o2[m] == x;
                if m == 0 {
                    assert(ranks_before(keys, o1[0] as int, o1[k + 1] as int));
                    lemma_ranks_before_asymmetric(keys, x as int, x as int);
                }
                assert(t2[m - 1] == x);
            }
            if t2.contains(x) {
                let k = choose|k: int| 0 <= k < t2.len() && t2[k] == x;
                assert(o2[k + 1] == x);
                assert(o2.contains(x));
                let m = choose|m: int| 0 <= m < o1.len() && o1[m] == x;
                if m == 0 {
                    assert(ranks_before(keys, o2[0] as int, o2[k + 1] as int));
                    lemma_ranks_before_asymmetric(keys, x as int, x as int);
                }
                assert(t1[m - 1] == x);
            }
        }
        assert forall|a: int, b: int| 0 <= a < b < t1.len() implies ranks_before(keys, #[trigger] t1[a] as int, #[trigger] t1[b] as int) by {
            assert(t1[a] == o1[a + 1] && t1[b] == o1[b + 1]);
        }
        assert forall|a: int, b: int| 0 <= a < b < t2.len() implies ranks_before(keys, #[trigger] t2[a] as int, #[trigger] t2[b] as int) by {
            assert(t2[a] == o2[a + 1] && t2[b] == o2[b + 1]);
        }
        lemma_strictly_ranked_unique(keys, t1, t2);
        assert(o1 =~= seq![o1[0]] + t1);
        assert(o2 =~= seq![o2[0]] + t2);
    }
}

/// There is only one stable sorting order of a list of keys, so the order that
/// `stable_order` returns, and the result of sorting stably by key, are fixed by
/// the keys alone.
pub proof fn lemma_stable_order_unique(keys: Seq<Seq<char>>, o1: Seq<usize>, o2: Seq<usize>)
    requires
        is_stable_order(keys, o1),
        is_stable_order(keys, o2),
    ensures
        o1 == o2,
{
    assert forall|x: usize| #![trigger o1.contains(x)] #![trigger o2.contains(x)] o1.contains(x) <==> o2.contains(x) by {
        if o1.contains(x) {
            let k = choose|k: int| 0 <= k < o1.len() && o1[k] == x;
            assert(o1[k] < keys.len());
        }
        if o2.contains(x) {
            let k = choose|k: int| 0 <= k < o2.len() && o2[k] == x;
            assert(o2[k] < keys.len());
        }
    }
    lemma_strictly_ranked_unique(keys, o1, o2);
}

/// Whether `a` sorts before `b`.
pub fn chars_less(a: &Vec<char>, b: &Vec<char>) -> (r: bool)
    ensures
        r == text_less(a@, b@),
{
    let mut i: usize = 0;
    assert(a@.skip(0) =~= a@);
    assert(b@.skip(0) =~= b@);
    while i < a.len() && i < b.len() && a[i] == b[i]
        invariant
            i <= a.len(),
            i <= b.len(),
            text_less(a@.skip(i as int), b@.skip(i as int)) == text_less(a@, b@),
        decreases a.len() - i,
    {
        assert(a@.skip(i as int).drop_first() =~= a@.skip(i + 1));
        assert(b@.skip(i as int).drop_first() =~= b@.skip(i + 1));
        i = i + 1;
    }
    if i == a.len() {
        i < b.len()
    } else if i == b.len() {
        false
    } else {
        assert(a@.skip(i as int)[0] == a@[i as int]);
        assert(b@.skip(i as int)[0] == b@[i as int]);
        a[i] < b[i]
    }
}

/// The stable sorting order of `keys`: insertion sort of the indices.
pub fn stable_order(keys: &Vec<Vec<char>>) -> (ord: Vec<usize>)
    ensures
        is_stable_order(keys.deep_view(), ord@),
{
    let ghost ks = keys.deep_view();
    let n = keys.len();
    let mut ord: Vec<usize> = Vec::new();
    let mut i: usize = 0;
    while i < n
        invariant
            n == keys.len(),
            ks == keys.deep_view(),
            i <= n,
            ord.len() == i,
            forall|a: int| 0 <= a < ord.len() ==> #[trigger] ord@[a] < i,
            forall|x: usize| x < i ==> #[trigger] ord@.contains(x),
            forall|a: int, b: int|
                0 <= a < b < ord.len() ==> ranks_before(ks, #[trigger] ord@[a] as int, #[trigger] ord@[b] as int),
        decreases n - i,
    {
        assert(ks[i as int] == keys[i as int]@);
        let mut p: usize = 0;
        while p < ord.len() && !chars_less(&keys[i], &keys[ord[p]])
            invariant
                n == keys.len(),
                ks == keys.deep_view(),
                i < n,
                ord.len() == i,
                p <= ord.len(),
                forall|a: int| 0 <= a < ord.len() ==> #[trigger] ord@[a] < i,
                forall|q: int| 0 <= q < p ==> !text_less(ks[i as int], #[trigger] ks[ord@[q] as int]),
            decreases ord.len() - p,
        {
            assert(ks[i as int] == keys[i as int]@);
            assert(ks[ord@[p as int] as int] == keys[ord@[p as int] as int]@);
            p = p + 1;
        }
        if p < ord.len() {
            assert(ks[ord@[p as int] as int] == keys[ord@[p as int] as int]@);
        }
        let ghost old_ord = ord@;
        ord.insert(p, i);
        assert(ord@ == old_ord.insert(p as int, i));
        assert forall|a: int| 0 <= a < ord.len() implies #[trigger] ord@[a] < i + 1 by {
            if a < p {
                assert(ord@[a] == old_ord[a]);
            } else if a > p {
                assert(ord@[a] == old_ord[a - 1]);
            }
        }
        assert forall|x: usize| x < i + 1 implies #[trigger] ord@.contains(x) by {
            if x == i {
                assert(ord@[p as int] == x);
            } else {
                assert(old_ord.contains(x));
                let a0 = choose|a: int| 0 <= a < old_ord.len() && old_ord[a] == x;
                if a0 < p {
                    assert(ord@[a0] == x);
                } else {
                    assert(ord@[a0 + 1] == x);
                }
            }
        }
        assert forall|a: int, b: int|
            0 <= a < b < ord.len() implies ranks_before(ks, #[trigger] ord@[a] as int, #[trigger] ord@[b] as int) by {
            let ki = ks[i as int];
            if a < p && b < p {
                assert(ord@[a] == old_ord[a] && ord@[b] == old_ord[b]);
                assert(ranks_before(ks, old_ord[a] as int, old_ord[b] as int));
            } else if a < p && b == p {
                let ka = ks[old_ord[a] as int];
                assert(ord@[a] == old_ord[a]);
                assert(!text_less(ki, ka));
                lemma_text_less_total(ki, ka);
            } else if a < p && b > p {
                assert(ord@[a] == old_ord[a] && ord@[b] == old_ord[b - 1]);
                assert(ranks_before(ks, old_ord[a] as int, old_ord[b - 1] as int));
            } else if a == p {
                assert(ord@[b] == old_ord[b - 1]);
                let kp = ks[old_ord[p as int] as int];
                let kb = ks[old_ord[b - 1] as int];
                assert(text_less(ki, kp));
                if b - 1 > p {
                    assert(ranks_before(ks, old_ord[p as int] as int, old_ord[b - 1] as int));
                    if text_less(kp, kb) {
                        lemma_text_less_transitive(ki, kp, kb);
                    }
                }
            } else {
                assert(ord@[a] == old_ord[a - 1] && ord@[b] == old_ord[b - 1]);
                assert(ranks_before(ks, old_ord[a - 1] as int, old_ord[b - 1] as int));
            }
        }
        i = i + 1;
    }
    ord
}

} // verus!
