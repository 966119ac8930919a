//! The frequent-applications view: usage joined with the catalog, ordered by
//! descending launch count (stable), at most `MAX_FREQUENT` entries.
use vstd::prelude::*;
use crate::descriptor::AppInfo;
use crate::text::str_eq;
use crate::usage::AppUsage;

verus! {

/// The most entries the frequent view holds.
pub const MAX_FREQUENT: usize = 20;

/// `i` is the first catalog entry with identifier `id`.
pub open spec fn app_first(c: Seq<AppInfo>, id: Seq<char>, i: int) -> bool {
    &&& 0 <= i < c.len()
    &&& c[i].bundle_id@ == id
    &&& forall|k: int| 0 <= k < i ==> (#[trigger] c[k]).bundle_id@ != id
}

pub open spec fn in_catalog(c: Seq<AppInfo>, id: Seq<char>) -> bool {
    exists|i: int| app_first(c, id, i)
}

pub open spec fn app_index(c: Seq<AppInfo>, id: Seq<char>) -> int {
    choose|i: int| app_first(c, id, i)
}

/// Usage records that name a catalog entry, as (entry, count), in usage order.
pub open spec fn joined(u: Seq<AppUsage>, c: Seq<AppInfo>) -> Seq<(AppInfo, u32)>
    decreases u.len(),
{
    if u.len() == 0 {
        seq![]
    } else {
        let rest = joined(u.drop_last(), c);
        let x = u.last();
        if in_catalog(c, x.bundle_id@) {
            rest.push((c[app_index(c, x.bundle_id@)], x.launch_count))
        } else {
            rest
        }
    }
}

/// Where a count `n` goes in a sequence ordered by descending count: after
/// every entry whose count is at least `n`.
pub open spec fn desc_pos<A>(t: Seq<(A, u32)>, n: u32) -> int
    decreases t.len(),
{
    if t.len() == 0 {
        0
    } else if n > t[0].1 {
        0
    } else {
        1 + desc_pos(t.drop_first(), n)
    }
}

/// Stable sort by descending count (insertion in order of appearance).
pub open spec fn sort_desc<A>(s: Seq<(A, u32)>) -> Seq<(A, u32)>
    decreases s.len(),
{
    if s.len() == 0 {
        seq![]
    } else {
        let t = sort_desc(s.drop_last());
        t.insert(desc_pos(t, s.last().1), s.last())
    }
}

pub open spec fn min_len(n: int) -> int {
    if n < MAX_FREQUENT {
        n
    } else {
        MAX_FREQUENT as int
    }
}

/// The ranked (entry, count) pairs.
pub open spec fn ranked_pairs(u: Seq<AppUsage>, c: Seq<AppInfo>) -> Seq<(AppInfo, u32)> {
    let s = sort_desc(joined(u, c));
    s.take(min_len(s.len() as int))
}

/// The frequent view of usage `u` over catalog `c`.
pub open spec fn ranked(u: Seq<AppUsage>, c: Seq<AppInfo>) -> Seq<AppInfo> {
    ranked_pairs(u, c).map_values(|p: (AppInfo, u32)| p.0)
}

pub open spec fn lift(v: Seq<(usize, u32)>, c: Seq<AppInfo>) -> Seq<(AppInfo, u32)> {
    v.map_values(|p: (usize, u32)| (c[p.0 as int], p.1))
}

proof fn lemma_app_first_unique(c: Seq<AppInfo>, id: Seq<char>, i: int)
    requires
        app_first(c, id, i),
    ensures
        in_catalog(c, id),
        app_index(c, id) == i,
{
    let j = app_index(c, id);
    if j < i {
        assert(c[j].bundle_id@ != id);
    } else if i < j {
        assert(c[i].bundle_id@ != id);
    }
}

proof fn lemma_desc_pos<A>(t: Seq<(A, u32)>, n: u32, p: int)
    requires
        0 <= p <= t.len(),
        forall|k: int| 0 <= k < p ==> (#[trigger] t[k]).1 >= n,
        p == t.len() || n > t[p].1,
    ensures
        desc_pos(t, n) == p,
    decreases t.len(),
{
    if t.len() > 0 && p > 0 {
        assert(t[0].1 >= n);
        assert forall|k: int| 0 <= k < p - 1 implies (#[trigger] t.drop_first()[k]).1 >= n by {
            assert(t.drop_first()[k] == t[k + 1]);
        }
        lemma_desc_pos(t.drop_first(), n, p - 1);
    }
}

/// The first catalog index whose identifier is `id`, if any.
fn find_app(catalog: &Vec<AppInfo>, id: &String) -> (r: Option<usize>)
    ensures
        r.is_some() == in_catalog(catalog@, id@),
        r.is_some() ==> r->0 as int == app_index(catalog@, id@),
{
    let mut i: usize = 0;
    while i < catalog.len()
        invariant
            i <= catalog.len(),
            forall|k: int| 0 <= k < i ==> (#[trigger] catalog@[k]).bundle_id@ != id@,
        decreases catalog.len() - i,
    {
        if str_eq(catalog[i].bundle_id.as_str(), id.as_str()) {
            proof {
                lemma_app_first_unique(catalog@, id@, i as int);
            }
            return Some(i);
        }
        i += 1;
    }
    proof {
        if in_catalog(catalog@, id@) {
            let j = app_index(catalog@, id@);
            assert(catalog@[j].bundle_id@ == id@);
        }
    }
    None
}

/// Inserts `(idx, n)` into `v`, kept in descending order of count, after every
/// entry whose count is at least `n`.
fn insert_desc(v: &mut Vec<(usize, u32)>, idx: usize, n: u32, Ghost(c): Ghost<Seq<AppInfo>>)
    ensures
        lift(final(v)@, c) == lift(old(v)@, c).insert(desc_pos(lift(old(v)@, c), n), (c[idx as int], n)),
        final(v)@ == old(v)@.insert(desc_pos(lift(old(v)@, c), n), (idx, n)),
        0 <= desc_pos(lift(old(v)@, c), n) <= old(v)@.len(),
{
    let ghost t = lift(v@, c);
    let mut p: usize = 0;
    while p < v.len() && v[p].1 >= n
        invariant
            t == lift(v@, c),
            *v == *old(v),
            p <= v.len(),
            forall|k: int| 0 <= k < p ==> (#[trigger] t[k]).1 >= n,
        decreases v.len() - p,
    {
        p += 1;
    }
    proof {
        lemma_desc_pos(t, n, p as int);
    }
    v.insert(p, (idx, n));
    assert(lift(v@, c) =~= t.insert(p as int, (c[idx as int], n)));
}

/// The applications of `catalog` that `usage` names, most launched first
/// (ties in usage order), at most `MAX_FREQUENT` of them.
pub fn get_frequent_apps(usage: &Vec<AppUsage>, catalog: &Vec<AppInfo>) -> (r: Vec<AppInfo>)
    ensures
        r@ == ranked(usage@, catalog@),
{
    let ghost c = catalog@;
    let mut v: Vec<(usize, u32)> = Vec::new();
    let mut j: usize = 0;
    assert(usage@.take(0) =~= Seq::<AppUsage>::empty());
    assert(lift(v@, c) =~= Seq::<(AppInfo, u32)>::empty());
    while j < usage.len()
        invariant
            c == catalog@,
            j <= usage.len(),
            forall|k: int| 0 <= k < v.len() ==> (#[trigger] v@[k]).0 < catalog.len(),
            lift(v@, c) == sort_desc(joined(usage@.take(j as int), c)),
        decreases usage.len() - j,
    {
        let ghost pre = usage@.take(j as int);
        assert(usage@.take(j + 1).drop_last() =~= pre);
        assert(usage@.take(j + 1).last() == usage@[j as int]);
        match find_app(catalog, &usage[j].bundle_id) {
            Some(idx) => {
                let ghost old_v = v@;
                insert_desc(&mut v, idx, usage[j].launch_count, Ghost(c));
                assert(joined(usage@.take(j + 1), c) =~= joined(pre, c).push(
                    (c[idx as int], usage@[j as int].launch_count),
                ));
                assert(joined(usage@.take(j + 1), c).drop_last() =~= joined(pre, c));
                assert forall|k: int| 0 <= k < v.len() implies (#[trigger] v@[k]).0
                    < catalog.len() by {
                    let p = desc_pos(lift(old_v, c), usage@[j as int].launch_count);
                    if k < p {
                        assert(v@[k] == old_v[k]);
                    } else if k > p {
                        assert(v@[k] == old_v[k - 1]);
                    }
                }
            },
            None => {
                assert(joined(usage@.take(j + 1), c) =~= joined(pre, c));
            },
        }
        j += 1;
    }
    assert(usage@.take(usage.len() as int) =~= usage@);
    let n: usize = if v.len() < MAX_FREQUENT {
        v.len()
    } else {
        MAX_FREQUENT
    };
    let mut r: Vec<AppInfo> = Vec::new();
    let mut k: usize = 0;
    while k < n
        invariant
            c == catalog@,
            n <= v.len(),
            n as int == min_len(v.len() as int),
            k <= n,
            forall|m: int| 0 <= m < v.len() ==> (#[trigger] v@[m]).0 < catalog.len(),
            lift(v@, c) == sort_desc(joined(usage@, c)),
            r@ =~= lift(v@, c).take(k as int).map_values(|p: (AppInfo, u32)| p.0),
        decreases n - k,
    {
        let idx = v[k].0;
        r.push(catalog[idx].copy());
        k += 1;
    }
    assert(r@ =~= ranked(usage@, catalog@));
    r
}

proof fn lemma_desc_pos_bounds<A>(t: Seq<(A, u32)>, n: u32)
    ensures
        0 <= desc_pos(t, n) <= t.len(),
        forall|k: int| 0 <= k < desc_pos(t, n) ==> (#[trigger] t[k]).1 >= n,
        desc_pos(t, n) < t.len() ==> n > t[desc_pos(t, n)].1,
    decreases t.len(),
{
    if t.len() > 0 && n <= t[0].1 {
        lemma_desc_pos_bounds(t.drop_first(), n);
        assert forall|k: int| 0 <= k < desc_pos(t, n) implies (#[trigger] t[k]).1 >= n by {
            if k > 0 {
                assert(t[k] == t.drop_first()[k - 1]);
            }
        }
    }
}

pub open spec fn desc_sorted<A>(s: Seq<(A, u32)>) -> bool {
    forall|i: int, j: int| 0 <= i < j < s.len() ==> (#[trigger] s[i]).1 >= (#[trigger] s[j]).1
}

proof fn lemma_sort_desc<A>(s: Seq<(A, u32)>)
    ensures
        desc_sorted(sort_desc(s)),
        sort_desc(s).len() == s.len(),
    decreases s.len(),
{
    if s.len() > 0 {
        let t = sort_desc(s.drop_last());
        lemma_sort_desc(s.drop_last());
        let x = s.last();
        lemma_desc_pos_bounds(t, x.1);
        let p = desc_pos(t, x.1);
        let r = t.insert(p, x);
        assert forall|i: int, j: int| 0 <= i < j < r.len() implies (#[trigger] r[i]).1 >= (
        #[trigger] r[j]).1 by {
            if j < p {
                assert(r[i] == t[i] && r[j] == t[j]);
            } else if j == p {
                assert(r[i] == t[i]);
            } else if i < p {
                assert(r[i] == t[i] && r[j] == t[j - 1]);
            } else if i == p {
                assert(r[j] == t[j - 1]);
                assert(t[p].1 >= t[j - 1].1);
            } else {
                assert(r[i] == t[i - 1] && r[j] == t[j - 1]);
            }
        }
    }
}

/// The frequent view never holds more than `MAX_FREQUENT` entries, and its
/// launch counts never increase from one entry to the next.
pub proof fn lemma_ranked_bounded_and_sorted(u: Seq<AppUsage>, c: Seq<AppInfo>)
    ensures
        ranked(u, c).len() <= MAX_FREQUENT,
        ranked(u, c).len() == ranked_pairs(u, c).len(),
        desc_sorted(ranked_pairs(u, c)),
        forall|k: int| 0 <= k < ranked(u, c).len() ==> #[trigger] ranked(u, c)[k] == ranked_pairs(u, c)[k].0,
{
    let s = sort_desc(joined(u, c));
    lemma_sort_desc(joined(u, c));
    let r = ranked_pairs(u, c);
    assert forall|i: int, j: int| 0 <= i < j < r.len() implies (#[trigger] r[i]).1 >= (
    #[trigger] r[j]).1 by {
        assert(r[i] == s[i] && r[j] == s[j]);
    }
}

pub open spec fn all_in_catalog(s: Seq<(AppInfo, u32)>, c: Seq<AppInfo>) -> bool {
    forall|k: int| 0 <= k < s.len() ==> in_catalog(c, (#[trigger] s[k]).0.bundle_id@)
}

proof fn lemma_joined_in_catalog(u: Seq<AppUsage>, c: Seq<AppInfo>)
    ensures
        all_in_catalog(joined(u, c), c),
    decreases u.len(),
{
    if u.len() > 0 {
        lemma_joined_in_catalog(u.drop_last(), c);
        let id = u.last().bundle_id@;
        if in_catalog(c, id) {
            let i = app_index(c, id);
            assert(app_first(c, id, i));
            let rest = joined(u.drop_last(), c);
            let r = joined(u, c);
            assert forall|k: int| 0 <= k < r.len() implies in_catalog(
                c,
                (#[trigger] r[k]).0.bundle_id@,
            ) by {
                if k < rest.len() {
                    assert(r[k] == rest[k]);
                }
            }
        }
    }
}

proof fn lemma_sort_desc_in_catalog(s: Seq<(AppInfo, u32)>, c: Seq<AppInfo>)
    requires
        all_in_catalog(s, c),
    ensures
        all_in_catalog(sort_desc(s), c),
    decreases s.len(),
{
    if s.len() > 0 {
        let t = sort_desc(s.drop_last());
        assert(all_in_catalog(s.drop_last(), c)) by {
            assert forall|k: int| 0 <= k < s.drop_last().len() implies in_catalog(
                c,
                (#[trigger] s.drop_last()[k]).0.bundle_id@,
            ) by {
                assert(s.drop_last()[k] == s[k]);
            }
        }
        lemma_sort_desc_in_catalog(s.drop_last(), c);
        lemma_desc_pos_bounds(t, s.last().1);
        let p = desc_pos(t, s.last().1);
        let r = t.insert(p, s.last());
        assert(in_catalog(c, s[s.len() - 1].0.bundle_id@));
        assert forall|k: int| 0 <= k < r.len() implies in_catalog(
            c,
            (#[trigger] r[k]).0.bundle_id@,
        ) by {
            if k < p {
                assert(r[k] == t[k]);
            } else if k > p {
                assert(r[k] == t[k - 1]);
            }
        }
    }
}

/// An identifier with usage records but no catalog entry never appears in the
/// frequent view.
pub proof fn lemma_ranked_only_catalog(u: Seq<AppUsage>, c: Seq<AppInfo>, id: Seq<char>)
    requires
        !in_catalog(c, id),
    ensures
        forall|k: int| 0 <= k < ranked(u, c).len() ==> (#[trigger] ranked(u, c)[k]).bundle_id@ != id,
{
    lemma_joined_in_catalog(u, c);
    lemma_sort_desc_in_catalog(joined(u, c), c);
    let s = sort_desc(joined(u, c));
    let r = ranked(u, c);
    assert forall|k: int| 0 <= k < r.len() implies (#[trigger] r[k]).bundle_id@ != id by {
        assert(r[k] == s[k].0);
        assert(in_catalog(c, s[k].0.bundle_id@));
    }
}

} // verus!
