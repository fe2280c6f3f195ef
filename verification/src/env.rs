//! Expansion of `%NAME%` references in registry values, as Windows writes them.
use vstd::prelude::*;
use crate::text::{
    chars_of, eq_ignore_ascii_case, eq_ignore_ascii_case_range, find_char, first_index_of,
    lemma_first_index_at, lemma_first_index_of, push_range, push_str, string_from_chars,
};

verus! {

/// The value of the first variable of `env` whose name equals `name` up to
/// ASCII case, in the order in which `env` lists them.
pub open spec fn env_lookup(env: Seq<(Seq<char>, Seq<char>)>, name: Seq<char>) -> Option<
    Seq<char>,
>
    decreases env.len(),
{
    if env.len() == 0 {
        None
    } else if eq_ignore_ascii_case(env[0].0, name) {
        Some(env[0].1)
    } else {
        env_lookup(env.drop_first(), name)
    }
}

/// `s` with each `%NAME%` replaced by the value of `NAME` in `env`. A reference
/// to an unknown name stays as it is, and so does everything from a `%` that
/// has no closing `%`.
pub open spec fn expand_env(s: Seq<char>, env: Seq<(Seq<char>, Seq<char>)>) -> Seq<char>
    decreases s.len(),
{
    match first_index_of(s, '%') {
        None => s,
        Some(start) => {
            let after = s.skip(start + 1);
            match first_index_of(after, '%') {
                None => s,
                Some(end) => {
                    let name = after.take(end);
                    let replacement = match env_lookup(env, name) {
                        Some(value) => value,
                        None => s.subrange(start, start + end + 2),
                    };
                    proof {
                        lemma_first_index_of(s, '%');
                        lemma_first_index_of(after, '%');
                    }
                    s.take(start) + replacement + expand_env(after.skip(end + 1), env)
                }
            }
        }
    }
}

/// Index of the first variable of `env` whose name equals `v[lo..hi]` up to ASCII case.
fn lookup_env(env: &Vec<(String, String)>, v: &Vec<char>, lo: usize, hi: usize) -> (r: Option<
    usize,
>)
    requires
        lo <= hi <= v.len(),
    ensures
        match env_lookup(env.deep_view(), v@.subrange(lo as int, hi as int)) {
            Some(value) => r matches Some(i) && i < env.len() && env[i as int].1@ == value,
            None => r is None,
        },
{
    let ghost name = v@.subrange(lo as int, hi as int);
    let ghost all = env.deep_view();
    let mut i: usize = 0;
    assert(all.skip(0) =~= all);
    while i < env.len()
        invariant
            i <= env.len(),
            all == env.deep_view(),
            name == v@.subrange(lo as int, hi as int),
            lo <= hi <= v.len(),
            env_lookup(all.skip(i as int), name) == env_lookup(all, name),
        decreases env.len() - i,
    {
        assert(all.skip(i as int).drop_first() =~= all.skip(i + 1));
        assert(all.skip(i as int)[0] == (env[i as int].0@, env[i as int].1@));
        let key = chars_of(env[i].0.as_str());
        assert(key@.subrange(0, key.len() as int) =~= key@);
        if eq_ignore_ascii_case_range(&key, 0, key.len(), v, lo, hi) {
            return Some(i);
        }
        i = i + 1;
    }
    None
}

/// `value` with each `%NAME%` replaced by the value of the variable of `env` whose
/// name equals `NAME` up to ASCII case (the first such one); a reference to a name
/// that `env` lacks, and a `%` without a closing `%`, stay as they are.
/// When no reference names a variable of `env`, and in particular with no
/// variables at all, the text comes back unchanged.
pub fn expand_windows_env(value: &str, env: &Vec<(String, String)>) -> (r: String)
    ensures
        r@ == expand_env(value@, env.deep_view()),
        references_unknown(value@, env.deep_view()) ==> r@ == value@,
        env.len() == 0 ==> r@ == value@,
{
    let v = chars_of(value);
    let n = v.len();
    let ghost e = env.deep_view();
    let mut out: Vec<char> = Vec::new();
    let mut pos: usize = 0;
    assert(v@.subrange(0, n as int) =~= v@);
    loop
        invariant_except_break
            out@ + expand_env(v@.subrange(pos as int, n as int), e) == expand_env(v@, e),
        invariant
            v@ == value@,
            n == v.len(),
            e == env.deep_view(),
            pos <= n,
        ensures
            out@ == expand_env(v@, e),
        decreases n - pos,
    {
        let ghost rest = v@.subrange(pos as int, n as int);
        match find_char(&v, pos, n, '%') {
            None => {
                assert(expand_env(rest, e) == rest);
                push_range(&mut out, &v, pos, n);
                break ;
            },
            Some(start) => {
                proof {
                    lemma_first_index_of(rest, '%');
                }
                let ghost after = rest.skip(start - pos + 1);
                assert(after =~= v@.subrange(start + 1, n as int));
                match find_char(&v, start + 1, n, '%') {
                    None => {
                        assert(expand_env(rest, e) == rest);
                        push_range(&mut out, &v, pos, n);
                        break ;
                    },
                    Some(close) => {
                        proof {
                            lemma_first_index_of(after, '%');
                        }
                        push_range(&mut out, &v, pos, start);
                        assert(rest.take(start - pos) =~= v@.subrange(pos as int, start as int));
                        assert(after.take(close - start - 1) =~= v@.subrange(
                            start + 1,
                            close as int,
                        ));
                        match lookup_env(env, &v, start + 1, close) {
                            Some(i) => {
                                push_str(&mut out, env[i].1.as_str());
                            },
                            None => {
                                push_range(&mut out, &v, start, close + 1);
                                assert(rest.subrange(
                                    start - pos,
                                    start - pos + (close - start - 1) + 2,
                                ) =~= v@.subrange(start as int, close + 1));
                            },
                        }
                        assert(after.skip(close - start) =~= v@.subrange(close + 1, n as int));
                        pos = close + 1;
                    },
                }
            },
        }
    }
    if env.len() == 0 {
        assert(e =~= Seq::<(Seq<char>, Seq<char>)>::empty());
        proof {
            lemma_no_variables_unknown(value@);
        }
    }
    proof {
        if references_unknown(value@, e) {
            lemma_expand_unknown(value@, e);
        }
    }
    string_from_chars(out.as_slice())
}

/// No `%NAME%` reference of `s` names a variable of `env` (up to ASCII case).
pub open spec fn references_unknown(s: Seq<char>, env: Seq<(Seq<char>, Seq<char>)>) -> bool
    decreases s.len(),
{
    match first_index_of(s, '%') {
        None => true,
        Some(start) => {
            let after = s.skip(start + 1);
            match first_index_of(after, '%') {
                None => true,
                Some(end) => {
                    proof {
                        lemma_first_index_of(s, '%');
                        lemma_first_index_of(after, '%');
                    }
                    env_lookup(env, after.take(end)) is None && references_unknown(
                        after.skip(end + 1),
                        env,
                    )
                },
            }
        },
    }
}

/// What one reference becomes: the value of `name` in `env`, or `%name%` as
/// written when `env` lacks it.
pub open spec fn reference_value(env: Seq<(Seq<char>, Seq<char>)>, name: Seq<char>) -> Seq<char> {
    match env_lookup(env, name) {
        Some(value) => value,
        None => seq!['%'] + name + seq!['%'],
    }
}

/// Text without `%` in front of the rest passes through expansion unchanged, and
/// the rest is expanded on its own.
pub proof fn lemma_expand_plain_prefix(t: Seq<char>, u: Seq<char>, env: Seq<(Seq<char>, Seq<char>)>)
    requires
        !t.contains('%'),
    ensures
        expand_env(t + u, env) == t + expand_env(u, env),
{
    let s = t + u;
    lemma_first_index_of(s, '%');
    lemma_first_index_of(u, '%');
    assert forall|j: int| 0 <= j < t.len() implies s[j] != '%' by {
        if s[j] == '%' {
            assert(t[j] == '%');
            assert(t.contains('%'));
        }
    }
    match first_index_of(u, '%') {
        None => {
            assert forall|j: int| 0 <= j < s.len() implies s[j] != '%' by {
                if j >= t.len() {
                    assert(s[j] == u[j - t.len()]);
                }
            }
            lemma_expand_plain(s, env);
            lemma_expand_plain(u, env);
            if u.contains('%') {
                let k = choose|k: int| 0 <= k < u.len() && u[k] == '%';
                assert(u[k] != '%');
            }
        },
        Some(k) => {
            assert(s[t.len() + k] == '%');
            lemma_first_index_at(s, '%', t.len() + k);
            let after_s = s.skip(t.len() + k + 1);
            let after_u = u.skip(k + 1);
            assert(after_s =~= after_u);
            assert(s.take(t.len() + k) =~= t + u.take(k));
            match first_index_of(after_u, '%') {
                None => {},
                Some(end) => {
                    lemma_first_index_of(after_u, '%');
                    assert(s.subrange(t.len() + k, t.len() + k + end + 2) =~= u.subrange(
                        k,
                        k + end + 2,
                    ));
                    let rest = expand_env(after_u.skip(end + 1), env);
                    let name = after_u.take(end);
                    let repl = match env_lookup(env, name) {
                        Some(value) => value,
                        None => u.subrange(k, k + end + 2),
                    };
                    assert(t + u.take(k) + repl + rest =~= t + (u.take(k) + repl + rest));
                },
            }
        },
    }
}

/// Every reference is expanded, one after the other: a reference `%name%`
/// after text without `%` becomes the value of `name` in `env` (or stays as
/// written when `env` lacks it), and expansion goes on with what follows it.
pub proof fn lemma_expand_reference(
    t: Seq<char>,
    name: Seq<char>,
    u: Seq<char>,
    env: Seq<(Seq<char>, Seq<char>)>,
)
    requires
        !t.contains('%'),
        !name.contains('%'),
    ensures
        expand_env(t + seq!['%'] + name + seq!['%'] + u, env) == t + reference_value(env, name)
            + expand_env(u, env),
{
    let s = t + seq!['%'] + name + seq!['%'] + u;
    let start = t.len() as int;
    assert forall|j: int| 0 <= j < start implies s[j] != '%' by {
        if s[j] == '%' {
            assert(t[j] == '%');
            assert(t.contains('%'));
        }
    }
    lemma_first_index_at(s, '%', start);
    let after = s.skip(start + 1);
    assert(after =~= name + seq!['%'] + u);
    assert forall|j: int| 0 <= j < name.len() implies after[j] != '%' by {
        if after[j] == '%' {
            assert(name[j] == '%');
            assert(name.contains('%'));
        }
    }
    lemma_first_index_at(after, '%', name.len() as int);
    assert(after.take(name.len() as int) =~= name);
    assert(after.skip(name.len() + 1 as int) =~= u);
    assert(s.take(start) =~= t);
    assert(s.subrange(start, start + name.len() + 2) =~= seq!['%'] + name + seq!['%']);
}

/// A `%` without a closing `%` stays as it is, with everything after it.
pub proof fn lemma_expand_unclosed(t: Seq<char>, u: Seq<char>, env: Seq<(Seq<char>, Seq<char>)>)
    requires
        !t.contains('%'),
        !u.contains('%'),
    ensures
        expand_env(t + seq!['%'] + u, env) == t + seq!['%'] + u,
{
    let s = t + seq!['%'] + u;
    assert forall|j: int| 0 <= j < t.len() implies s[j] != '%' by {
        if s[j] == '%' {
            assert(t[j] == '%');
            assert(t.contains('%'));
        }
    }
    lemma_first_index_at(s, '%', t.len() as int);
    let after = s.skip(t.len() + 1 as int);
    assert(after =~= u);
    lemma_first_index_of(after, '%');
    if let Some(k) = first_index_of(after, '%') {
        assert(u[k] == '%');
        assert(u.contains('%'));
    }
}

/// A name is looked up case-insensitively among the variables in the order
/// `env` lists them: the first variable whose name equals it up to ASCII case
/// gives the value, and a name that no variable has gives none.
pub proof fn lemma_env_lookup_first(env: Seq<(Seq<char>, Seq<char>)>, name: Seq<char>, k: int)
    ensures
        0 <= k < env.len() && eq_ignore_ascii_case(env[k].0, name) && (forall|j: int|
            0 <= j < k ==> !eq_ignore_ascii_case(#[trigger] env[j].0, name)) ==> env_lookup(
            env,
            name,
        ) == Some(env[k].1),
        (forall|j: int| 0 <= j < env.len() ==> !eq_ignore_ascii_case(#[trigger] env[j].0, name))
            ==> env_lookup(env, name) is None,
    decreases env.len(),
{
    if env.len() > 0 {
        let rest = env.drop_first();
        lemma_env_lookup_first(rest, name, k - 1);
        assert forall|j: int| 0 <= j < rest.len() implies rest[j] == env[j + 1] by {}
        if 0 <= k < env.len() && eq_ignore_ascii_case(env[k].0, name) && (forall|j: int|
            0 <= j < k ==> !eq_ignore_ascii_case(#[trigger] env[j].0, name)) && k > 0 {
            assert(!eq_ignore_ascii_case(env[0].0, name));
            assert(rest[k - 1] == env[k]);
            assert forall|j: int| 0 <= j < k - 1 implies !eq_ignore_ascii_case(
                #[trigger] rest[j].0,
                name,
            ) by {
                assert(rest[j] == env[j + 1]);
            }
        }
        if forall|j: int| 0 <= j < env.len() ==> !eq_ignore_ascii_case(#[trigger] env[j].0, name) {
            assert(!eq_ignore_ascii_case(env[0].0, name));
            assert forall|j: int| 0 <= j < rest.len() implies !eq_ignore_ascii_case(
                #[trigger] rest[j].0,
                name,
            ) by {
                assert(rest[j] == env[j + 1]);
            }
        }
    }
}

/// A text whose references all name unknown variables comes back unchanged.
pub proof fn lemma_expand_unknown(s: Seq<char>, env: Seq<(Seq<char>, Seq<char>)>)
    requires
        references_unknown(s, env),
    ensures
        expand_env(s, env) == s,
    decreases s.len(),
{
    lemma_first_index_of(s, '%');
    if let Some(start) = first_index_of(s, '%') {
        let after = s.skip(start + 1);
        lemma_first_index_of(after, '%');
        if let Some(end) = first_index_of(after, '%') {
            let rest = after.skip(end + 1);
            lemma_expand_unknown(rest, env);
            assert(s.take(start) + s.subrange(start, start + end + 2) + rest =~= s);
        }
    }
}

/// A text without `%` is left as it is.
pub proof fn lemma_expand_plain(s: Seq<char>, env: Seq<(Seq<char>, Seq<char>)>)
    requires
        !s.contains('%'),
    ensures
        expand_env(s, env) == s,
{
    lemma_first_index_of(s, '%');
    if let Some(k) = first_index_of(s, '%') {
        assert(s.contains('%'));
    }
}

/// With no variables defined, every reference is unknown.
pub proof fn lemma_no_variables_unknown(s: Seq<char>)
    ensures
        references_unknown(s, Seq::empty()),
    decreases s.len(),
{
    lemma_first_index_of(s, '%');
    if let Some(start) = first_index_of(s, '%') {
        let after = s.skip(start + 1);
        lemma_first_index_of(after, '%');
        if let Some(end) = first_index_of(after, '%') {
            lemma_no_variables_unknown(after.skip(end + 1));
        }
    }
}

} // verus!
