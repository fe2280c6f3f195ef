//! Installed applications as the uninstall keys of the registry list them:
//! which keys count, where an application starts, and the sorted list without
//! duplicate names.
use vstd::prelude::*;
use crate::order::{
    is_stable_order, lemma_text_less_irreflexive, lemma_text_less_transitive, ranks_before,
    stable_order, text_less,
};
use crate::paths::{has_exe_extension, has_exe_extension_text};
use crate::text::{
    chars_of, contains_str, contains_text, eq_ignore_ascii_case, eq_ignore_ascii_case_range,
    ascii_lowercase, is_ascii_text, lemma_eq_ignore_ascii_case_equiv,
    lemma_eq_ignore_ascii_case_lower, to_lowercase, trim_bounds, trim_ws, unicode_lowercase,
};

verus! {

/// An application read from an uninstall key of the registry.
pub struct RegistryEntry {
    /// `DisplayName`.
    pub name: String,
    /// The icon file named by `DisplayIcon`.
    pub icon_source: Option<String>,
    /// The icon resource index named by `DisplayIcon`.
    pub icon_index: Option<i32>,
    /// The executable that starts the application, when one is known.
    pub launch_path: Option<String>,
    /// `InstallDate`.
    pub install_date: Option<String>,
    /// `InstallLocation`.
    pub install_location: Option<String>,
}

/// The value of a `RegistryEntry`, with texts as character sequences.
pub ghost struct EntryModel {
    pub name: Seq<char>,
    pub icon_source: Option<Seq<char>>,
    pub icon_index: Option<i32>,
    pub launch_path: Option<Seq<char>>,
    pub install_date: Option<Seq<char>>,
    pub install_location: Option<Seq<char>>,
}

impl View for RegistryEntry {
    type V = EntryModel;

    open spec fn view(&self) -> EntryModel {
        EntryModel {
            name: self.name@,
            icon_source: self.icon_source.deep_view(),
            icon_index: self.icon_index,
            launch_path: self.launch_path.deep_view(),
            install_date: self.install_date.deep_view(),
            install_location: self.install_location.deep_view(),
        }
    }
}

/// A copy of an optional text.
fn copy_text(t: &Option<String>) -> (r: Option<String>)
    ensures
        r.deep_view() == t.deep_view(),
{
    match t {
        Some(s) => Some(s.clone()),
        None => None,
    }
}

impl RegistryEntry {
    /// A copy of this entry.
    pub fn duplicate(&self) -> (r: RegistryEntry)
        ensures
            r@ == self@,
    {
        RegistryEntry {
            name: self.name.clone(),
            icon_source: copy_text(&self.icon_source),
            icon_index: self.icon_index,
            launch_path: copy_text(&self.launch_path),
            install_date: copy_text(&self.install_date),
            install_location: copy_text(&self.install_location),
        }
    }
}

/// The values of a list of entries.
pub open spec fn models(v: Seq<RegistryEntry>) -> Seq<EntryModel> {
    v.map_values(|e: RegistryEntry| e@)
}

/// An uninstall key is listed unless its display name is blank, it is marked as
/// a system component, or its name marks it as an update, hotfix or service pack.
pub open spec fn is_listed(name: Seq<char>, system_component: u32) -> bool {
    !(trim_ws(name).len() == 0 || system_component == 1 || contains_text(
        name,
        "Update for Microsoft"@,
    ) || contains_text(name, "Security Update"@) || contains_text(name, "Hotfix"@)
        || contains_text(name, "Service Pack"@))
}

/// Whether an uninstall key with display name `name` and `SystemComponent` value
/// `system_component` (0 when absent) is listed as an application.
pub fn is_listed_entry(name: &str, system_component: u32) -> (r: bool)
    ensures
        r == is_listed(name@, system_component),
{
    let v = chars_of(name);
    assert(v@.subrange(0, v.len() as int) =~= v@);
    let (a, b) = trim_bounds(&v, 0, v.len(), false);
    !(a == b || system_component == 1 || contains_str(name, "Update for Microsoft") || contains_str(
        name,
        "Security Update",
    ) || contains_str(name, "Hotfix") || contains_str(name, "Service Pack"))
}

/// Which keys are listed, in terms of the name as a whole: a blank name, the
/// system-component mark, or any of `Update for Microsoft`, `Security Update`,
/// `Hotfix` and `Service Pack` anywhere in the name leaves a key out, and every
/// other key is listed.
pub proof fn lemma_listed_keys(name: Seq<char>, system_component: u32)
    ensures
        trim_ws(name).len() == 0 ==> !is_listed(name, system_component),
        system_component == 1 ==> !is_listed(name, system_component),
        contains_text(name, "Update for Microsoft"@) ==> !is_listed(name, system_component),
        contains_text(name, "Security Update"@) ==> !is_listed(name, system_component),
        contains_text(name, "Hotfix"@) ==> !is_listed(name, system_component),
        contains_text(name, "Service Pack"@) ==> !is_listed(name, system_component),
        trim_ws(name).len() > 0 && system_component != 1 && !contains_text(
            name,
            "Update for Microsoft"@,
        ) && !contains_text(name, "Security Update"@) && !contains_text(name, "Hotfix"@)
            && !contains_text(name, "Service Pack"@) ==> is_listed(name, system_component),
{
}

/// The executable that starts an application whose icon is `icon_source`: the
/// icon source itself when it has the extension `exe` and is a file.
pub open spec fn launch_path_text(icon_source: Option<Seq<char>>, source_is_file: bool) -> Option<
    Seq<char>,
> {
    match icon_source {
        Some(s) => if has_exe_extension_text(s) && source_is_file {
            Some(s)
        } else {
            None
        },
        None => None,
    }
}

/// The launch path of an application whose icon is `icon_source`;
/// `source_is_file` is what the file system says of `icon_source`.
pub fn launch_path_for(icon_source: &Option<String>, source_is_file: bool) -> (r: Option<String>)
    ensures
        r.deep_view() == launch_path_text(icon_source.deep_view(), source_is_file),
{
    match icon_source {
        Some(s) => if has_exe_extension(s.as_str()) && source_is_file {
            Some(s.clone())
        } else {
            None
        },
        None => None,
    }
}

/// The sort keys of a list of entries: their names in lower case.
pub open spec fn sort_keys(v: Seq<EntryModel>) -> Seq<Seq<char>> {
    v.map_values(|e: EntryModel| unicode_lowercase(e.name))
}

/// `s` with each entry dropped whose name equals, up to ASCII case, the name of
/// the last entry kept before it (`Vec::dedup_by`).
pub open spec fn dedup_names(s: Seq<EntryModel>) -> Seq<EntryModel>
    decreases s.len(),
{
    if s.len() == 0 {
        s
    } else {
        let d = dedup_names(s.drop_last());
        if d.len() > 0 && eq_ignore_ascii_case(s.last().name, d.last().name) {
            d
        } else {
            d.push(s.last())
        }
    }
}

/// Entry `k` of `s` begins a run of names equal up to ASCII case: it is the
/// first entry, or its name differs from that of the entry just before it.
pub open spec fn starts_run(s: Seq<EntryModel>, k: int) -> bool {
    k == 0 || !eq_ignore_ascii_case(s[k - 1].name, s[k].name)
}

/// `d` holds the entries of `s` at the increasing positions `idx`, and these are
/// exactly the positions where a run of names equal up to ASCII case begins.
pub open spec fn run_starts_at(s: Seq<EntryModel>, d: Seq<EntryModel>, idx: Seq<int>) -> bool {
    &&& idx.len() == d.len()
    &&& forall|a: int|
        0 <= a < d.len() ==> 0 <= #[trigger] idx[a] < s.len() && d[a] == s[idx[a]] && starts_run(
            s,
            idx[a],
        )
    &&& forall|a: int, b: int| 0 <= a < b < d.len() ==> #[trigger] idx[a] < #[trigger] idx[b]
    &&& forall|k: int|
        #![trigger starts_run(s, k)]
        0 <= k < s.len() && starts_run(s, k) ==> exists|a: int| 0 <= a < d.len() && idx[a] == k
}

/// `d` is `s` with each entry dropped whose name equals, up to ASCII case, the
/// name of the entry just before it in `s`; the others stay, in order.
pub open spec fn keeps_run_starts(s: Seq<EntryModel>, d: Seq<EntryModel>) -> bool {
    exists|idx: Seq<int>| run_starts_at(s, d, idx)
}

/// Dropping each entry whose name equals that of the last entry kept keeps the
/// first entry of every run of names equal up to ASCII case and nothing else: of
/// two neighbours with such names, the earlier one stays and the later one goes,
/// whatever characters the names hold. The returned positions say where in `s`
/// each kept entry stands.
pub proof fn lemma_dedup_keeps_run_starts(s: Seq<EntryModel>) -> (idx: Seq<int>)
    ensures
        run_starts_at(s, dedup_names(s), idx),
        s.len() > 0 ==> dedup_names(s).len() > 0 && eq_ignore_ascii_case(
            dedup_names(s).last().name,
            s.last().name,
        ),
    decreases s.len(),
{
    if s.len() == 0 {
        Seq::empty()
    } else {
        let n = s.len() as int;
        let s0 = s.drop_last();
        let d0 = dedup_names(s0);
        let idx0 = lemma_dedup_keeps_run_starts(s0);
        let last = s.last();
        assert forall|k: int| 0 <= k < n - 1 implies starts_run(s, k) == starts_run(s0, k) by {
            assert(s[k] == s0[k]);
            if k > 0 {
                assert(s[k - 1] == s0[k - 1]);
            }
        }
        if d0.len() > 0 && eq_ignore_ascii_case(last.name, d0.last().name) {
            assert(n > 1);
            assert(s0.last() == s[n - 2]);
            lemma_eq_ignore_ascii_case_equiv(d0.last().name, s[n - 2].name, last.name);
            lemma_eq_ignore_ascii_case_equiv(last.name, d0.last().name, s[n - 2].name);
            lemma_eq_ignore_ascii_case_equiv(s[n - 2].name, d0.last().name, last.name);
            assert(!starts_run(s, n - 1));
            lemma_eq_ignore_ascii_case_equiv(d0.last().name, last.name, last.name);
            assert forall|k: int|
                #![trigger starts_run(s, k)]
                0 <= k < n && starts_run(s, k) implies exists|a: int|
                    0 <= a < d0.len() && idx0[a] == k by {
                assert(starts_run(s0, k));
            }
            idx0
        } else {
            if n > 1 {
                assert(s0.last() == s[n - 2]);
                if eq_ignore_ascii_case(s[n - 2].name, last.name) {
                    lemma_eq_ignore_ascii_case_equiv(d0.last().name, s[n - 2].name, last.name);
                    lemma_eq_ignore_ascii_case_equiv(d0.last().name, last.name, last.name);
                    assert(false);
                }
            }
            assert(starts_run(s, n - 1));
            let idx = idx0.push(n - 1);
            let d = d0.push(last);
            assert(dedup_names(s) == d);
            lemma_eq_ignore_ascii_case_equiv(last.name, last.name, last.name);
            assert forall|a: int| 0 <= a < d.len() implies 0 <= #[trigger] idx[a] < s.len() && d[a]
                == s[idx[a]] && starts_run(s, idx[a]) by {
                if a < d0.len() {
                    assert(idx[a] == idx0[a] && d[a] == d0[a]);
                    assert(s[idx0[a]] == s0[idx0[a]]);
                    assert(starts_run(s0, idx0[a]));
                }
            }
            assert forall|a: int, b: int| 0 <= a < b < d.len() implies #[trigger] idx[a]
                < #[trigger] idx[b] by {
                if b < d0.len() {
                    assert(idx[a] == idx0[a] && idx[b] == idx0[b]);
                } else {
                    assert(idx[a] == idx0[a]);
                }
            }
            assert forall|k: int|
                #![trigger starts_run(s, k)]
                0 <= k < n && starts_run(s, k) implies exists|a: int|
                    0 <= a < d.len() && idx[a] == k by {
                if k < n - 1 {
                    assert(starts_run(s0, k));
                    let a = choose|a: int| 0 <= a < d0.len() && idx0[a] == k;
                    assert(idx[a] == idx0[a]);
                } else {
                    assert(idx[d0.len() as int] == k);
                }
            }
            idx
        }
    }
}

/// All entries have ASCII names.
pub open spec fn ascii_names(v: Seq<EntryModel>) -> bool {
    forall|x: int| 0 <= x < v.len() ==> #[trigger] is_ascii_text(v[x].name)
}

/// Entry `x` is the first in `v` with its name, up to ASCII case.
pub open spec fn is_first_named(v: Seq<EntryModel>, x: int) -> bool {
    forall|y: int| 0 <= y < x ==> !eq_ignore_ascii_case(#[trigger] v[y].name, v[x].name)
}

/// The list of entries sorted stably by lower-cased name, then with each entry
/// dropped whose name equals that of the entry kept before it up to ASCII case.
pub open spec fn normalized(v: Seq<EntryModel>, ord: Seq<usize>) -> Seq<EntryModel> {
    dedup_names(ord.map_values(|x: usize| v[x as int]))
}

/// `entries` sorted by lower-cased name (stably) and with adjacent entries whose
/// names are equal up to ASCII case reduced to the first: of each run of such
/// names in sorted order the first entry stays and the others go, whatever
/// characters the names hold. The result is sorted,
/// holds no two neighbours with such names, holds only entries of the input, and
/// for every input entry an entry of the same name up to ASCII case. When all
/// names are ASCII, no two results have the same name up to ASCII case, and each
/// result is the first input entry with its name.
#[verifier::rlimit(40)]
pub fn normalize_entries(entries: Vec<RegistryEntry>) -> (r: Vec<RegistryEntry>)
    ensures
        exists|ord: Seq<usize>|
            is_stable_order(sort_keys(models(entries@)), ord) && models(r@) == normalized(
                models(entries@),
                ord,
            ),
        exists|ord: Seq<usize>|
            is_stable_order(sort_keys(models(entries@)), ord) && keeps_run_starts(
                ord.map_values(|x: usize| models(entries@)[x as int]),
                models(r@),
            ),
        forall|a: int, b: int|
            0 <= a < b < r.len() ==> !text_less(
                unicode_lowercase(#[trigger] r@[b].name@),
                unicode_lowercase(#[trigger] r@[a].name@),
            ),
        forall|a: int|
            0 < a < r.len() ==> !eq_ignore_ascii_case(#[trigger] r@[a].name@, r@[a - 1].name@),
        forall|a: int| 0 <= a < r.len() ==> exists|x: int| 0 <= x < entries.len() && #[trigger] r@[a]@ == entries@[x]@,
        forall|x: int|
            0 <= x < entries.len() ==> exists|a: int|
                0 <= a < r.len() && eq_ignore_ascii_case(#[trigger] entries@[x].name@, r@[a].name@),
        ascii_names(models(entries@)) ==> forall|a: int, b: int|
            0 <= a < b < r.len() ==> !eq_ignore_ascii_case(#[trigger] r@[a].name@, #[trigger] r@[b].name@),
        ascii_names(models(entries@)) ==> forall|a: int|
            0 <= a < r.len() ==> exists|x: int|
                0 <= x < entries.len() && #[trigger] r@[a]@ == entries@[x]@ && is_first_named(
                    models(entries@),
                    x,
                ),
{
    let n = entries.len();
    let ghost m = models(entries@);
    let ghost ks = sort_keys(m);
    let mut keys: Vec<Vec<char>> = Vec::new();
    let mut i: usize = 0;
    while i < n
        invariant
            n == entries.len(),
            m == models(entries@),
            ks == sort_keys(m),
            i <= n,
            keys.len() == i,
            forall|k: int| 0 <= k < i ==> #[trigger] keys@[k]@ == ks[k],
            forall|k: int|
                0 <= k < i && is_ascii_text(m[k].name) ==> #[trigger] ks[k] == ascii_lowercase(m[k].name),
        decreases n - i,
    {
        assert(m[i as int].name == entries@[i as int].name@);
        let lowered = to_lowercase(entries[i].name.as_str());
        keys.push(chars_of(lowered.as_str()));
        i = i + 1;
    }
    assert forall|k: int| 0 <= k < n implies #[trigger] keys.deep_view()[k] == ks[k] by {
        assert(keys.deep_view()[k] =~= keys@[k]@);
    }
    assert(keys.deep_view() =~= ks);
    let ord = stable_order(&keys);
    let ghost sorted = ord@.map_values(|x: usize| m[x as int]);
    let mut out: Vec<RegistryEntry> = Vec::new();
    let mut j: usize = 0;
    while j < n
        invariant
            n == entries.len(),
            m == models(entries@),
            ks == sort_keys(m),
            is_stable_order(ks, ord@),
            sorted == ord@.map_values(|x: usize| m[x as int]),
            j <= n,
            models(out@) == dedup_names(sorted.take(j as int)),
            forall|a: int, b: int|
                0 <= a < b < out.len() ==> !text_less(
                    unicode_lowercase(#[trigger] out@[b].name@),
                    unicode_lowercase(#[trigger] out@[a].name@),
                ),
            forall|a: int|
                0 <= a < out.len() && j > 0 ==> !text_less(
                    ks[ord@[j - 1] as int],
                    unicode_lowercase(#[trigger] out@[a].name@),
                ),
            j > 0 ==> out.len() > 0,
            forall|a: int|
                0 < a < out.len() ==> !eq_ignore_ascii_case(#[trigger] out@[a].name@, out@[a - 1].name@),
            forall|a: int| 0 <= a < out.len() ==> exists|x: int| 0 <= x < n && #[trigger] out@[a]@ == m[x],
            forall|k: int|
                0 <= k < j ==> exists|a: int|
                    0 <= a < out.len() && eq_ignore_ascii_case(#[trigger] m[ord@[k] as int].name, out@[a].name@),
            forall|k: int|
                0 <= k < n && is_ascii_text(m[k].name) ==> #[trigger] ks[k] == ascii_lowercase(m[k].name),
            ascii_names(m) && j > 0 ==> unicode_lowercase(out@[out.len() - 1].name@) == ks[ord@[j
                - 1] as int],
            ascii_names(m) ==> forall|a: int, b: int|
                0 <= a < b < out.len() ==> !eq_ignore_ascii_case(#[trigger] out@[a].name@, #[trigger] out@[b].name@),
            ascii_names(m) ==> forall|a: int|
                0 <= a < out.len() ==> exists|y: int|
                    0 <= y < n && #[trigger] out@[a]@ == m[y] && is_first_named(m, y),
        decreases n - j,
    {
        let x = ord[j];
        let e = &entries[x];
        assert(m[x as int] == e@);
        assert(sorted.take(j + 1).drop_last() =~= sorted.take(j as int));
        assert(sorted.take(j + 1).last() == e@);
        let ghost before = out@;
        let keep = if out.len() == 0 {
            true
        } else {
            let last = out.len() - 1;
            let a = chars_of(e.name.as_str());
            let b = chars_of(out[last].name.as_str());
            assert(a@.subrange(0, a.len() as int) =~= a@);
            assert(b@.subrange(0, b.len() as int) =~= b@);
            !eq_ignore_ascii_case_range(&a, 0, a.len(), &b, 0, b.len())
        };
        proof {
            assert(ks[x as int] == unicode_lowercase(e.name@));
            assert(ord@[j as int] == x);
            if j > 0 {
                assert(ranks_before(ks, ord@[j - 1] as int, ord@[j as int] as int));
                assert forall|a: int| 0 <= a < out.len() implies !text_less(
                    ks[x as int],
                    unicode_lowercase(#[trigger] out@[a].name@),
                ) by {
                    let ka = unicode_lowercase(out@[a].name@);
                    if text_less(ks[x as int], ka) {
                        if text_less(ks[ord@[j - 1] as int], ks[x as int]) {
                            lemma_text_less_transitive(ks[ord@[j - 1] as int], ks[x as int], ka);
                        }
                    }
                }
            }
            if out.len() > 0 {
                assert(models(out@).last() == out@[out.len() - 1]@);
            }
        }
        proof {
            if ascii_names(m) {
                assert(is_ascii_text(m[x as int].name));
                assert(ks[x as int] == ascii_lowercase(e.name@));
                if keep {
                    assert forall|a: int| 0 <= a < before.len() implies !eq_ignore_ascii_case(
                        before[a].name@,
                        e.name@,
                    ) by {
                        let y = choose|y: int| 0 <= y < n && before[a]@ == m[y];
                        assert(is_ascii_text(m[y].name));
                        assert(ks[y] == unicode_lowercase(before[a].name@));
                        lemma_eq_ignore_ascii_case_lower(before[a].name@, e.name@);
                        if eq_ignore_ascii_case(before[a].name@, e.name@) {
                            assert(ks[y] == ks[x as int]);
                            let last = before.len() - 1;
                            let z = choose|z: int| 0 <= z < n && before[last]@ == m[z];
                            assert(is_ascii_text(m[z].name));
                            assert(ks[z] == unicode_lowercase(before[last].name@));
                            assert(ranks_before(ks, ord@[j - 1] as int, ord@[j as int] as int));
                            lemma_eq_ignore_ascii_case_lower(before[last].name@, e.name@);
                            assert(!eq_ignore_ascii_case(e.name@, before[last].name@));
                            lemma_eq_ignore_ascii_case_equiv(e.name@, before[last].name@, e.name@);
                            assert(ks[z] != ks[x as int]);
                            assert(text_less(ks[ord@[j - 1] as int], ks[x as int]));
                            assert(!text_less(ks[ord@[j - 1] as int], unicode_lowercase(before[a].name@)));
                        }
                    }
                    assert(is_first_named(m, x as int)) by {
                        assert forall|y: int| 0 <= y < x implies !eq_ignore_ascii_case(
                            #[trigger] m[y].name,
                            m[x as int].name,
                        ) by {
                            if eq_ignore_ascii_case(m[y].name, m[x as int].name) {
                                assert(is_ascii_text(m[y].name));
                                lemma_eq_ignore_ascii_case_lower(m[y].name, m[x as int].name);
                                assert(ks[y] == ks[x as int]);
                                assert(ord@.contains(y as usize));
                                let q = choose|q: int| 0 <= q < ord@.len() && ord@[q] == y as usize;
                                if q > j {
                                    assert(ranks_before(ks, ord@[j as int] as int, ord@[q] as int));
                                    lemma_text_less_irreflexive(ks[x as int]);
                                } else {
                                    assert(q < j);
                                    let a0 = choose|a: int|
                                        0 <= a < before.len() && eq_ignore_ascii_case(
                                            m[ord@[q] as int].name,
                                            before[a].name@,
                                        );
                                    lemma_eq_ignore_ascii_case_equiv(
                                        before[a0].name@,
                                        m[y].name,
                                        e.name@,
                                    );
                                    lemma_eq_ignore_ascii_case_equiv(
                                        m[y].name,
                                        before[a0].name@,
                                        e.name@,
                                    );
                                }
                            }
                        }
                    }
                } else {
                    let last = before.len() - 1;
                    let z = choose|z: int| 0 <= z < n && before[last]@ == m[z];
                    assert(is_ascii_text(m[z].name));
                    assert(ks[z] == unicode_lowercase(before[last].name@));
                    lemma_eq_ignore_ascii_case_lower(e.name@, before[last].name@);
                }
            }
        }
        if keep {
            out.push(e.duplicate());
            proof {
                assert(models(out@) =~= models(before).push(e@));
                lemma_text_less_irreflexive(ks[x as int]);
                assert(eq_ignore_ascii_case(e.name@, e.name@));
                assert(out@[out.len() - 1].name@ == e.name@);
            }
        }
        proof {
            assert(models(out@) == dedup_names(sorted.take(j + 1)));
            assert forall|k: int|
                0 <= k < j + 1 implies exists|a: int|
                    0 <= a < out.len() && eq_ignore_ascii_case(#[trigger] m[ord@[k] as int].name, out@[a].name@) by {
                if k == j {
                    if keep {
                        assert(eq_ignore_ascii_case(m[ord@[k] as int].name, out@[out.len() - 1].name@));
                    } else {
                        assert(eq_ignore_ascii_case(m[ord@[k] as int].name, out@[out.len() - 1].name@));
                    }
                } else {
                    let a0 = choose|a: int|
                        0 <= a < before.len() && eq_ignore_ascii_case(m[ord@[k] as int].name, before[a].name@);
                    assert(out@[a0] == before[a0]);
                }
            }
            assert forall|a: int| 0 <= a < out.len() implies exists|y: int| 0 <= y < n && #[trigger] out@[a]@ == m[y] by {
                if a < before.len() {
                    assert(out@[a] == before[a]);
                } else {
                    assert(out@[a]@ == m[x as int]);
                }
            }
            if ascii_names(m) {
                assert forall|a: int, b: int|
                    0 <= a < b < out.len() implies !eq_ignore_ascii_case(#[trigger] out@[a].name@, #[trigger] out@[b].name@) by {
                    if b < before.len() {
                        assert(out@[a] == before[a] && out@[b] == before[b]);
                    } else {
                        assert(out@[a] == before[a]);
                        assert(out@[b].name@ == e.name@);
                    }
                }
                assert forall|a: int| 0 <= a < out.len() implies exists|y: int|
                    0 <= y < n && #[trigger] out@[a]@ == m[y] && is_first_named(m, y) by {
                    if a < before.len() {
                        assert(out@[a] == before[a]);
                    } else {
                        assert(out@[a]@ == m[x as int]);
                    }
                }
            }
        }
        j = j + 1;
    }
    assert(sorted.take(n as int) =~= sorted);
    assert(normalized(m, ord@) == dedup_names(sorted)) by {
        assert(ord@.map_values(|x: usize| m[x as int]) =~= sorted);
    }
    assert(is_stable_order(sort_keys(models(entries@)), ord@) && models(out@) == normalized(
        models(entries@),
        ord@,
    ));
    assert forall|y: int|
        0 <= y < entries.len() implies exists|a: int|
            0 <= a < out.len() && eq_ignore_ascii_case(#[trigger] entries@[y].name@, out@[a].name@) by {
        assert(ord@.contains(y as usize));
        let k = choose|k: int| 0 <= k < ord@.len() && ord@[k] == y as usize;
        assert(m[ord@[k] as int].name == entries@[y].name@);
    }
    assert forall|a: int| 0 <= a < out.len() implies exists|y: int| 0 <= y < entries.len() && #[trigger] out@[a]@ == entries@[y]@ by {
        let y = choose|y: int| 0 <= y < n && out@[a]@ == m[y];
        assert(m[y] == entries@[y]@);
    }
    proof {
        let idx = lemma_dedup_keeps_run_starts(sorted);
        assert(run_starts_at(sorted, models(out@), idx));
        assert(ord@.map_values(|x: usize| models(entries@)[x as int]) =~= sorted);
        assert(is_stable_order(sort_keys(models(entries@)), ord@) && keeps_run_starts(
            ord@.map_values(|x: usize| models(entries@)[x as int]),
            models(out@),
        ));
        if ascii_names(m) {
            assert forall|a: int| 0 <= a < out.len() implies exists|y: int|
                0 <= y < entries.len() && #[trigger] out@[a]@ == entries@[y]@ && is_first_named(m, y) by {
                let y = choose|y: int| 0 <= y < n && out@[a]@ == m[y] && is_first_named(m, y);
                assert(m[y] == entries@[y]@);
            }
        }
    }
    out
}

} // verus!
