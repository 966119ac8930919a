//! Launch counters per application identifier.
use vstd::prelude::*;
use crate::text::str_eq;

verus! {

/// Launch statistics of one application.
#[derive(Debug, Clone)]
pub struct AppUsage {
    pub bundle_id: String,
    pub launch_count: u32,
    pub last_launched: Option<String>,
}

/// `i` is the first record of `s` for identifier `id`.
pub open spec fn first_match(s: Seq<AppUsage>, id: Seq<char>, i: int) -> bool {
    &&& 0 <= i < s.len()
    &&& s[i].bundle_id@ == id
    &&& forall|k: int| 0 <= k < i ==> (#[trigger] s[k]).bundle_id@ != id
}

pub open spec fn has_record(s: Seq<AppUsage>, id: Seq<char>) -> bool {
    exists|i: int| first_match(s, id, i)
}

/// The index of the first record for `id`; meaningful when `has_record(s, id)`.
pub open spec fn record_index(s: Seq<AppUsage>, id: Seq<char>) -> int {
    choose|i: int| first_match(s, id, i)
}

/// At most one record per identifier.
pub open spec fn unique_ids(s: Seq<AppUsage>) -> bool {
    forall|i: int, j: int|
        0 <= i < j < s.len() ==> (#[trigger] s[i]).bundle_id@ != (#[trigger] s[j]).bundle_id@
}

/// A counter one higher, held at the maximum rather than wrapping.
pub open spec fn bumped(n: u32) -> u32 {
    if n < u32::MAX {
        (n + 1) as u32
    } else {
        n
    }
}

/// The records after one launch of `id` at time `stamp`: the existing record
/// is counted up and stamped, or a new record with count 1 is appended.
pub open spec fn launched(s: Seq<AppUsage>, id: String, stamp: String) -> Seq<AppUsage> {
    if has_record(s, id@) {
        let i = record_index(s, id@);
        s.update(
            i,
            AppUsage {
                bundle_id: s[i].bundle_id,
                launch_count: bumped(s[i].launch_count),
                last_launched: Some(stamp),
            },
        )
    } else {
        s.push(AppUsage { bundle_id: id, launch_count: 1, last_launched: Some(stamp) })
    }
}

proof fn lemma_first_match_unique(s: Seq<AppUsage>, id: Seq<char>, i: int)
    requires
        first_match(s, id, i),
    ensures
        has_record(s, id),
        record_index(s, id) == i,
{
    let j = record_index(s, id);
    if j < i {
        assert(s[j].bundle_id@ != id);
    } else if i < j {
        assert(s[i].bundle_id@ != id);
    }
}

/// Counts one launch of `bundle_id` at time `stamp`.
pub fn record_launch_at(records: &mut Vec<AppUsage>, bundle_id: String, stamp: String)
    ensures
        final(records)@ == launched(old(records)@, bundle_id, stamp),
        unique_ids(old(records)@) ==> unique_ids(final(records)@),
{
    let n = records.len();
    let mut i: usize = 0;
    while i < n
        invariant
            n == records.len(),
            *records == *old(records),
            i <= n,
            forall|k: int| 0 <= k < i ==> (#[trigger] records@[k]).bundle_id@ != bundle_id@,
        decreases n - i,
    {
        if str_eq(records[i].bundle_id.as_str(), bundle_id.as_str()) {
            proof {
                lemma_first_match_unique(records@, bundle_id@, i as int);
            }
            let c = records[i].launch_count;
            let next = if c < u32::MAX {
                c + 1
            } else {
                c
            };
            let id = records[i].bundle_id.clone();
            records.set(i, AppUsage { bundle_id: id, launch_count: next, last_launched: Some(stamp) });
            assert(records@ =~= launched(old(records)@, bundle_id, stamp));
            return;
        }
        i += 1;
    }
    assert(!has_record(records@, bundle_id@));
    records.push(AppUsage { bundle_id, launch_count: 1, last_launched: Some(stamp) });
}

/// Relies on `chrono::Utc::now` and `DateTime::to_rfc3339`: the current time
/// as an RFC 3339 string. Nothing is promised of its value.
#[verifier::external_body]
fn now_rfc3339() -> (r: String) {
    chrono::Utc::now().to_rfc3339()
}

/// Counts one launch of `bundle_id` now.
pub fn track_app_usage(records: &mut Vec<AppUsage>, bundle_id: String)
    ensures
        exists|stamp: String| final(records)@ == launched(old(records)@, bundle_id, stamp),
        unique_ids(old(records)@) ==> unique_ids(final(records)@),
{
    let stamp = now_rfc3339();
    record_launch_at(records, bundle_id, stamp);
}

/// The records after launches of `id` at the times `stamps`, in order.
pub open spec fn launched_all(s: Seq<AppUsage>, id: String, stamps: Seq<String>) -> Seq<AppUsage>
    decreases stamps.len(),
{
    if stamps.len() == 0 {
        s
    } else {
        launched(launched_all(s, id, stamps.drop_last()), id, stamps.last())
    }
}

/// Launching an identifier that has no record `N` times, with `1 <= N <= u32::MAX`,
/// leaves one record for it with launch count `N`, stamped with the last launch's time.
pub proof fn lemma_launch_count(s: Seq<AppUsage>, id: String, stamps: Seq<String>)
    requires
        !has_record(s, id@),
        1 <= stamps.len() <= u32::MAX,
    ensures
        has_record(launched_all(s, id, stamps), id@),
        launched_all(s, id, stamps)[record_index(launched_all(s, id, stamps), id@)] == (AppUsage {
            bundle_id: id,
            launch_count: stamps.len() as u32,
            last_launched: Some(stamps.last()),
        }),
    decreases stamps.len(),
{
    let prev = launched_all(s, id, stamps.drop_last());
    let r = launched_all(s, id, stamps);
    if stamps.len() == 1 {
        assert(prev == s);
        assert forall|k: int| 0 <= k < s.len() implies (#[trigger] r[k]).bundle_id@ != id@ by {
            if s[k].bundle_id@ == id@ {
                lemma_first_match_exists(s, id@, k);
            }
        }
        lemma_first_match_unique(r, id@, s.len() as int);
    } else {
        lemma_launch_count(s, id, stamps.drop_last());
        let i = record_index(prev, id@);
        assert(first_match(prev, id@, i));
        assert(first_match(r, id@, i));
        lemma_first_match_unique(r, id@, i);
    }
}

/// Any record for `id` implies a first one.
proof fn lemma_first_match_exists(s: Seq<AppUsage>, id: Seq<char>, k: int)
    requires
        0 <= k < s.len(),
        s[k].bundle_id@ == id,
    ensures
        has_record(s, id),
    decreases k,
{
    if exists|j: int| 0 <= j < k && (#[trigger] s[j]).bundle_id@ == id {
        let j = choose|j: int| 0 <= j < k && (#[trigger] s[j]).bundle_id@ == id;
        lemma_first_match_exists(s, id, j);
    } else {
        assert(first_match(s, id, k));
    }
}

} // verus!
