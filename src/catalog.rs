//! The application catalog: one entry per identifier, ordered by name
//! without regard to case (ties in discovery order).
use vstd::prelude::*;
use crate::descriptor::AppInfo;
use crate::text::{is_blank, is_blank_seq, lex_less, lex_lt, lemma_lex_lt_asym, lemma_lex_lt_trans, str_eq};

verus! {

/// The lower-case form of a string, as `str::to_lowercase` gives it.
pub uninterp spec fn lower_of(s: Seq<char>) -> Seq<char>;

/// Relies on `str::to_lowercase`: its result depends on the characters alone.
#[verifier::external_body]
fn to_lower(s: &str) -> (r: String)
    ensures
        r@ == lower_of(s@),
{
    s.to_lowercase()
}

/// The lines of the discovery output that are not blank, in order.
pub open spec fn nonblank_lines(s: Seq<String>) -> Seq<Seq<char>>
    decreases s.len(),
{
    if s.len() == 0 {
        seq![]
    } else if is_blank_seq(s.last()@) {
        nonblank_lines(s.drop_last())
    } else {
        nonblank_lines(s.drop_last()).push(s.last()@)
    }
}

pub open spec fn lines_view(v: Seq<String>) -> Seq<Seq<char>> {
    v.map_values(|s: String| s@)
}

/// The bundle paths among the lines of the discovery output: blank lines are skipped.
pub fn discovered_paths(lines: &Vec<String>) -> (r: Vec<String>)
    ensures
        lines_view(r@) == nonblank_lines(lines@),
{
    let mut r: Vec<String> = Vec::new();
    let mut i: usize = 0;
    assert(lines@.take(0) =~= Seq::<String>::empty());
    assert(lines_view(r@) =~= Seq::<Seq<char>>::empty());
    while i < lines.len()
        invariant
            i <= lines.len(),
            lines_view(r@) == nonblank_lines(lines@.take(i as int)),
        decreases lines.len() - i,
    {
        assert(lines@.take(i + 1).drop_last() =~= lines@.take(i as int));
        assert(lines@.take(i + 1).last() == lines@[i as int]);
        if !is_blank(lines[i].as_str()) {
            let ghost before = r@;
            r.push(lines[i].clone());
            assert(lines_view(r@) =~= lines_view(before).push(lines@[i as int]@));
        }
        i += 1;
    }
    assert(lines@.take(lines.len() as int) =~= lines@);
    r
}

/// Some earlier entry of `t` has identifier `id`.
pub open spec fn has_id(t: Seq<AppInfo>, id: Seq<char>) -> bool {
    exists|k: int| 0 <= k < t.len() && (#[trigger] t[k]).bundle_id@ == id
}

/// The entries of `s` whose identifier no earlier entry has, in order.
pub open spec fn dedup_ids(s: Seq<AppInfo>) -> Seq<AppInfo>
    decreases s.len(),
{
    if s.len() == 0 {
        seq![]
    } else {
        let t = dedup_ids(s.drop_last());
        if has_id(t, s.last().bundle_id@) {
            t
        } else {
            t.push(s.last())
        }
    }
}

/// Where key `k` goes in a sequence ordered by key: after every entry whose
/// key is not greater.
pub open spec fn key_pos<A>(t: Seq<(Seq<char>, A)>, k: Seq<char>) -> int
    decreases t.len(),
{
    if t.len() == 0 {
        0
    } else if lex_lt(k, t[0].0) {
        0
    } else {
        1 + key_pos(t.drop_first(), k)
    }
}

/// Stable sort by key (insertion in order of appearance).
pub open spec fn sort_keyed<A>(s: Seq<(Seq<char>, A)>) -> Seq<(Seq<char>, A)>
    decreases s.len(),
{
    if s.len() == 0 {
        seq![]
    } else {
        let t = sort_keyed(s.drop_last());
        t.insert(key_pos(t, s.last().0), s.last())
    }
}

pub open spec fn key_sorted<A>(s: Seq<(Seq<char>, A)>) -> bool {
    forall|i: int, j: int| 0 <= i < j < s.len() ==> !lex_lt((#[trigger] s[j]).0, (#[trigger] s[i]).0)
}

pub open spec fn keyed_view(v: Seq<(String, AppInfo)>) -> Seq<(Seq<char>, AppInfo)> {
    v.map_values(|p: (String, AppInfo)| (p.0@, p.1))
}

pub open spec fn values_of(s: Seq<(Seq<char>, AppInfo)>) -> Seq<AppInfo> {
    s.map_values(|p: (Seq<char>, AppInfo)| p.1)
}

/// Each entry paired with the lower-case form of its name.
pub open spec fn name_keyed(s: Seq<AppInfo>) -> Seq<(Seq<char>, AppInfo)> {
    s.map_values(|a: AppInfo| (lower_of(a.name@), a))
}

/// The catalog built from the entries of one discovery pass.
pub open spec fn catalog_of(s: Seq<AppInfo>) -> Seq<AppInfo> {
    values_of(sort_keyed(name_keyed(dedup_ids(s))))
}

proof fn lemma_key_pos<A>(t: Seq<(Seq<char>, A)>, k: Seq<char>, p: int)
    requires
        0 <= p <= t.len(),
        forall|m: int| 0 <= m < p ==> !lex_lt(k, (#[trigger] t[m]).0),
        p == t.len() || lex_lt(k, t[p].0),
    ensures
        key_pos(t, k) == p,
    decreases t.len(),
{
    if t.len() > 0 && p > 0 {
        assert(!lex_lt(k, t[0].0));
        assert forall|m: int| 0 <= m < p - 1 implies !lex_lt(k, (#[trigger] t.drop_first()[m]).0) by {
            assert(t.drop_first()[m] == t[m + 1]);
        }
        lemma_key_pos(t.drop_first(), k, p - 1);
    }
}

proof fn lemma_key_pos_bounds<A>(t: Seq<(Seq<char>, A)>, k: Seq<char>)
    ensures
        0 <= key_pos(t, k) <= t.len(),
        forall|m: int| 0 <= m < key_pos(t, k) ==> !lex_lt(k, (#[trigger] t[m]).0),
        key_pos(t, k) < t.len() ==> lex_lt(k, t[key_pos(t, k)].0),
    decreases t.len(),
{
    if t.len() > 0 && !lex_lt(k, t[0].0) {
        lemma_key_pos_bounds(t.drop_first(), k);
        assert forall|m: int| 0 <= m < key_pos(t, k) implies !lex_lt(k, (#[trigger] t[m]).0) by {
            if m > 0 {
                assert(t[m] == t.drop_first()[m - 1]);
            }
        }
    }
}

/// Inserting by `key_pos` keeps a key-sorted sequence sorted.
proof fn lemma_sort_keyed<A>(s: Seq<(Seq<char>, A)>)
    ensures
        key_sorted(sort_keyed(s)),
        sort_keyed(s).len() == s.len(),
    decreases s.len(),
{
    if s.len() > 0 {
        let t = sort_keyed(s.drop_last());
        lemma_sort_keyed(s.drop_last());
        let x = s.last();
        lemma_key_pos_bounds(t, x.0);
        let p = key_pos(t, x.0);
        let r = t.insert(p, x);
        assert forall|i: int, j: int| 0 <= i < j < r.len() implies !lex_lt(
            (#[trigger] r[j]).0,
            (#[trigger] r[i]).0,
        ) by {
            if j < p {
                assert(r[i] == t[i] && r[j] == t[j]);
            } else if j == p {
                assert(r[i] == t[i]);
            } else if i < p {
                assert(r[i] == t[i] && r[j] == t[j - 1]);
            } else if i == p {
                assert(r[j] == t[j - 1]);
                lemma_lex_lt_asym(t[p].0, t[p].0);
                assert(!lex_lt(t[j - 1].0, t[p].0));
                if lex_lt(t[j - 1].0, x.0) {
                    lemma_lex_lt_trans(t[j - 1].0, x.0, t[p].0);
                }
            } else {
                assert(r[i] == t[i - 1] && r[j] == t[j - 1]);
            }
        }
    }
}

/// Inserts a keyed entry after every entry whose key is not greater.
fn insert_keyed(v: &mut Vec<(String, AppInfo)>, key: String, app: AppInfo)
    ensures
        keyed_view(final(v)@) == keyed_view(old(v)@).insert(
            key_pos(keyed_view(old(v)@), key@),
            (key@, app),
        ),
{
    let ghost t = keyed_view(v@);
    let mut p: usize = 0;
    while p < v.len() && !lex_less(key.as_str(), v[p].0.as_str())
        invariant
            t == keyed_view(v@),
            *v == *old(v),
            p <= v.len(),
            forall|m: int| 0 <= m < p ==> !lex_lt(key@, (#[trigger] t[m]).0),
        decreases v.len() - p,
    {
        p += 1;
    }
    proof {
        lemma_key_pos(t, key@, p as int);
    }
    let ghost kv = key@;
    v.insert(p, (key, app));
    assert(keyed_view(v@) =~= t.insert(p as int, (kv, app)));
}

/// Orders `(key, entry)` pairs by key, without regard to anything else; equal
/// keys keep their order. Keys are compared by code point.
pub fn sort_by_keys(items: &Vec<(String, AppInfo)>) -> (r: Vec<AppInfo>)
    ensures
        r@ == values_of(sort_keyed(keyed_view(items@))),
{
    let ghost all = keyed_view(items@);
    let mut v: Vec<(String, AppInfo)> = Vec::new();
    let mut i: usize = 0;
    assert(sort_keyed(all.take(0)) =~= keyed_view(v@));
    while i < items.len()
        invariant
            all == keyed_view(items@),
            i <= items.len(),
            keyed_view(v@) == sort_keyed(all.take(i as int)),
        decreases items.len() - i,
    {
        insert_keyed(&mut v, items[i].0.clone(), items[i].1.copy());
        assert(all.take(i + 1).drop_last() =~= all.take(i as int));
        assert(all.take(i + 1).last() == all[i as int]);
        i += 1;
    }
    assert(all.take(items.len() as int) =~= all);
    let ghost sorted = keyed_view(v@);
    let mut r: Vec<AppInfo> = Vec::new();
    let mut k: usize = 0;
    while k < v.len()
        invariant
            sorted == keyed_view(v@),
            k <= v.len(),
            r@ =~= values_of(sorted.take(k as int)),
        decreases v.len() - k,
    {
        r.push(v[k].1.copy());
        k += 1;
    }
    assert(sorted.take(v.len() as int) =~= sorted);
    r
}

fn contains_id(t: &Vec<AppInfo>, id: &String) -> (r: bool)
    ensures
        r == has_id(t@, id@),
{
    let mut k: usize = 0;
    while k < t.len()
        invariant
            k <= t.len(),
            forall|m: int| 0 <= m < k ==> (#[trigger] t@[m]).bundle_id@ != id@,
        decreases t.len() - k,
    {
        if str_eq(t[k].bundle_id.as_str(), id.as_str()) {
            return true;
        }
        k += 1;
    }
    false
}

/// Keeps the first entry for each identifier, in discovery order.
pub fn dedup_entries(entries: &Vec<AppInfo>) -> (r: Vec<AppInfo>)
    ensures
        r@ == dedup_ids(entries@),
{
    let mut r: Vec<AppInfo> = Vec::new();
    let mut i: usize = 0;
    assert(entries@.take(0) =~= Seq::<AppInfo>::empty());
    while i < entries.len()
        invariant
            i <= entries.len(),
            r@ == dedup_ids(entries@.take(i as int)),
        decreases entries.len() - i,
    {
        assert(entries@.take(i + 1).drop_last() =~= entries@.take(i as int));
        assert(entries@.take(i + 1).last() == entries@[i as int]);
        if !contains_id(&r, &entries[i].bundle_id) {
            r.push(entries[i].copy());
        }
        i += 1;
    }
    assert(entries@.take(entries.len() as int) =~= entries@);
    r
}

/// The catalog of one discovery pass: the first entry for each identifier,
/// ordered by lower-case name, equal names in discovery order.
pub fn build_catalog(entries: &Vec<AppInfo>) -> (r: Vec<AppInfo>)
    ensures
        r@ == catalog_of(entries@),
        unique_ids(r@),
{
    proof {
        lemma_catalog_unique(entries@);
    }
    let d = dedup_entries(entries);
    let mut keyed: Vec<(String, AppInfo)> = Vec::new();
    let mut i: usize = 0;
    while i < d.len()
        invariant
            i <= d.len(),
            keyed_view(keyed@) =~= name_keyed(d@).take(i as int),
        decreases d.len() - i,
    {
        let key = to_lower(d[i].name.as_str());
        let app = d[i].copy();
        let ghost kv = key@;
        let ghost before = keyed@;
        keyed.push((key, app));
        assert(keyed@ == before.push((key, app)));
        assert(name_keyed(d@)[i as int] == (kv, app));
        assert(keyed_view(keyed@) =~= keyed_view(before).push((kv, app)));
        assert(name_keyed(d@).take(i + 1) =~= name_keyed(d@).take(i as int).push((kv, app)));
        i += 1;
    }
    assert(name_keyed(d@).take(d.len() as int) =~= name_keyed(d@));
    sort_by_keys(&keyed)
}

proof fn lemma_sort_keyed_keys(s: Seq<(Seq<char>, AppInfo)>)
    requires
        forall|k: int| 0 <= k < s.len() ==> (#[trigger] s[k]).0 == lower_of(s[k].1.name@),
    ensures
        forall|k: int| 0 <= k < sort_keyed(s).len() ==> (#[trigger] sort_keyed(s)[k]).0 == lower_of(
            sort_keyed(s)[k].1.name@,
        ),
    decreases s.len(),
{
    if s.len() > 0 {
        let t = sort_keyed(s.drop_last());
        assert forall|k: int| 0 <= k < s.drop_last().len() implies (#[trigger] s.drop_last()[k]).0
            == lower_of(s.drop_last()[k].1.name@) by {
            assert(s.drop_last()[k] == s[k]);
        }
        lemma_sort_keyed_keys(s.drop_last());
        lemma_key_pos_bounds(t, s.last().0);
        let p = key_pos(t, s.last().0);
        let r = t.insert(p, s.last());
        assert(s.last().0 == lower_of(s.last().1.name@));
        assert forall|k: int| 0 <= k < r.len() implies (#[trigger] r[k]).0 == lower_of(
            r[k].1.name@,
        ) by {
            if k < p {
                assert(r[k] == t[k]);
            } else if k > p {
                assert(r[k] == t[k - 1]);
            }
        }
    }
}

/// Whatever order the entries were discovered in, the catalog is ordered by
/// lower-case name: no entry's name sorts strictly before an earlier one's.
pub proof fn lemma_catalog_sorted(entries: Seq<AppInfo>)
    ensures
        forall|i: int, j: int|
            0 <= i < j < catalog_of(entries).len() ==> !lex_lt(
                lower_of((#[trigger] catalog_of(entries)[j]).name@),
                lower_of((#[trigger] catalog_of(entries)[i]).name@),
            ),
{
    let s = name_keyed(dedup_ids(entries));
    lemma_sort_keyed(s);
    lemma_sort_keyed_keys(s);
    let t = sort_keyed(s);
    let c = catalog_of(entries);
    assert forall|i: int, j: int| 0 <= i < j < c.len() implies !lex_lt(
        lower_of((#[trigger] c[j]).name@),
        lower_of((#[trigger] c[i]).name@),
    ) by {
        assert(c[i] == t[i].1 && c[j] == t[j].1);
        assert(t[i].0 == lower_of(t[i].1.name@));
        assert(t[j].0 == lower_of(t[j].1.name@));
    }
}

/// No two entries share an identifier.
pub open spec fn unique_ids(s: Seq<AppInfo>) -> bool {
    forall|i: int, j: int|
        0 <= i < j < s.len() ==> (#[trigger] s[i]).bundle_id@ != (#[trigger] s[j]).bundle_id@
}

pub open spec fn keyed_unique<A>(s: Seq<(A, AppInfo)>) -> bool {
    forall|i: int, j: int|
        0 <= i < j < s.len() ==> (#[trigger] s[i]).1.bundle_id@ != (#[trigger] s[j]).1.bundle_id@
}

proof fn lemma_dedup_unique(s: Seq<AppInfo>)
    ensures
        unique_ids(dedup_ids(s)),
    decreases s.len(),
{
    if s.len() > 0 {
        lemma_dedup_unique(s.drop_last());
        let t = dedup_ids(s.drop_last());
        if !has_id(t, s.last().bundle_id@) {
            let r = t.push(s.last());
            assert forall|i: int, j: int| 0 <= i < j < r.len() implies (#[trigger] r[i]).bundle_id@
                != (#[trigger] r[j]).bundle_id@ by {
                if j == t.len() {
                    assert(r[i] == t[i]);
                }
            }
        }
    }
}

/// Every entry of the sorted sequence is an entry of the input.
proof fn lemma_sort_keyed_members<A>(s: Seq<(Seq<char>, A)>, k: int)
    requires
        0 <= k < sort_keyed(s).len(),
    ensures
        exists|m: int| 0 <= m < s.len() && s[m] == #[trigger] sort_keyed(s)[k],
    decreases s.len(),
{
    lemma_sort_keyed(s);
    let t = sort_keyed(s.drop_last());
    lemma_sort_keyed(s.drop_last());
    lemma_key_pos_bounds(t, s.last().0);
    let p = key_pos(t, s.last().0);
    let r = t.insert(p, s.last());
    if k == p {
        assert(s[s.len() - 1] == r[k]);
    } else {
        let k2 = if k < p { k } else { k - 1 };
        assert(r[k] == t[k2]);
        lemma_sort_keyed_members(s.drop_last(), k2);
        let m = choose|m: int| 0 <= m < s.drop_last().len() && s.drop_last()[m] == #[trigger] t[k2];
        assert(s[m] == s.drop_last()[m]);
    }
}

proof fn lemma_sort_keyed_unique(s: Seq<(Seq<char>, AppInfo)>)
    requires
        keyed_unique(s),
    ensures
        keyed_unique(sort_keyed(s)),
    decreases s.len(),
{
    if s.len() > 0 {
        let d = s.drop_last();
        assert(keyed_unique(d)) by {
            assert forall|i: int, j: int| 0 <= i < j < d.len() implies (#[trigger] d[i]).1.bundle_id@
                != (#[trigger] d[j]).1.bundle_id@ by {
                assert(d[i] == s[i] && d[j] == s[j]);
            }
        }
        lemma_sort_keyed_unique(d);
        let t = sort_keyed(d);
        lemma_sort_keyed(d);
        let x = s.last();
        assert forall|k: int| 0 <= k < t.len() implies (#[trigger] t[k]).1.bundle_id@
            != x.1.bundle_id@ by {
            lemma_sort_keyed_members(d, k);
            let m = choose|m: int| 0 <= m < d.len() && d[m] == #[trigger] t[k];
            assert(d[m] == s[m]);
            assert(s[m].1.bundle_id@ != s[s.len() - 1].1.bundle_id@);
        }
        lemma_key_pos_bounds(t, x.0);
        let p = key_pos(t, x.0);
        let r = t.insert(p, x);
        assert forall|i: int, j: int| 0 <= i < j < r.len() implies (#[trigger] r[i]).1.bundle_id@
            != (#[trigger] r[j]).1.bundle_id@ by {
            if j < p {
                assert(r[i] == t[i] && r[j] == t[j]);
            } else if j == p {
                assert(r[i] == t[i]);
            } else if i < p {
                assert(r[i] == t[i] && r[j] == t[j - 1]);
            } else if i == p {
                assert(r[j] == t[j - 1]);
            } else {
                assert(r[i] == t[i - 1] && r[j] == t[j - 1]);
            }
        }
    }
}

/// Whatever the discovery pass found, the catalog holds at most one entry
/// for each identifier.
pub proof fn lemma_catalog_unique(entries: Seq<AppInfo>)
    ensures
        unique_ids(catalog_of(entries)),
{
    let d = dedup_ids(entries);
    lemma_dedup_unique(entries);
    let s = name_keyed(d);
    assert(keyed_unique(s)) by {
        assert forall|i: int, j: int| 0 <= i < j < s.len() implies (#[trigger] s[i]).1.bundle_id@
            != (#[trigger] s[j]).1.bundle_id@ by {
            assert(s[i].1 == d[i] && s[j].1 == d[j]);
        }
    }
    lemma_sort_keyed_unique(s);
    lemma_sort_keyed(s);
    let t = sort_keyed(s);
    let c = catalog_of(entries);
    assert forall|i: int, j: int| 0 <= i < j < c.len() implies (#[trigger] c[i]).bundle_id@
        != (#[trigger] c[j]).bundle_id@ by {
        assert(c[i] == t[i].1 && c[j] == t[j].1);
    }
}

} // verus!
