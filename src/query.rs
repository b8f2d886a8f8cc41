use vstd::prelude::*;

use crate::resolver::{determine_report_status, resolve};
use crate::status::{status_of_word, ReportStatus};
use crate::store::{Bucket, SatStatus, SatelliteFileElement, SatelliteFileFormat};
use crate::text::lower_of;

verus! {

/// Last consensus status recorded for a satellite.
#[derive(Clone, Debug)]
pub struct SatStatusCache {
    pub name: String,
    pub status: ReportStatus,
    pub report_num: u64,
    /// Key of the bucket the status was drawn from, in seconds since the Unix epoch.
    pub report_time: u64,
}

/// The status words of `rs`, read as tags.
pub open spec fn tags_of(rs: Seq<SatStatus>) -> Seq<ReportStatus> {
    rs.map_values(|r: SatStatus| status_of_word(lower_of(r.report@)))
}

/// Index of the newest bucket that holds a report, if any.
pub open spec fn latest_nonempty(bs: Seq<Bucket>) -> Option<int> {
    if exists|i: int| 0 <= i < bs.len() && bs[i].reports.len() > 0 {
        Some(choose|i: int| 0 <= i < bs.len() && bs[i].reports.len() > 0 && forall|j: int| 0 <= j < i ==> bs[j].reports.len() == 0)
    } else {
        None
    }
}

/// The consensus status of a timeline: the resolution of the newest bucket
/// that holds a report, or `Grey` when none does.
pub open spec fn timeline_status(bs: Seq<Bucket>) -> ReportStatus {
    match latest_nonempty(bs) {
        Some(i) => resolve(tags_of(bs[i].reports)),
        None => ReportStatus::Grey,
    }
}

/// The tags of the reports of one bucket, in order.
pub fn bucket_statuses(b: &SatelliteFileElement) -> (r: Vec<ReportStatus>)
    ensures
        r@ == tags_of(b.report@),
{
    let mut out: Vec<ReportStatus> = Vec::new();
    let mut i: usize = 0;
    while i < b.report.len()
        invariant
            i <= b.report@.len(),
            out@ == tags_of(b.report@.subrange(0, i as int)),
        decreases b.report@.len() - i,
    {
        let t = ReportStatus::from_string(b.report[i].report.as_str());
        let ghost before = out@;
        out.push(t);
        proof {
            assert(tags_of(b.report@.subrange(0, i + 1)) =~= before.push(t));
        }
        i = i + 1;
    }
    proof {
        assert(b.report@.subrange(0, i as int) =~= b.report@);
    }
    out
}

/// Consensus status of a satellite: the resolver applied to the newest bucket
/// that holds a report.
pub fn latest_status(t: &SatelliteFileFormat) -> (r: ReportStatus)
    ensures
        r == timeline_status(t@.buckets),
{
    match latest_bucket(t) {
        Some(i) => {
            proof {
                assert(t@.buckets[i as int] == t.data@[i as int]@);
            }
            let tags = bucket_statuses(&t.data[i]);
            determine_report_status(&tags)
        },
        None => ReportStatus::Grey,
    }
}

/// Index of the newest bucket of `t` that holds a report.
pub fn latest_bucket(t: &SatelliteFileFormat) -> (r: Option<usize>)
    ensures
        r matches Some(i) ==> latest_nonempty(t@.buckets) == Some(i as int) && i < t.data@.len(),
        r is None ==> latest_nonempty(t@.buckets) is None,
{
    let mut i: usize = 0;
    while i < t.data.len()
        invariant
            i <= t.data@.len(),
            forall|j: int| 0 <= j < i ==> (#[trigger] t.data@[j]).report@.len() == 0,
        decreases t.data@.len() - i,
    {
        if t.data[i].report.len() > 0 {
            proof {
                let bs = t@.buckets;
                assert(bs[i as int] == t.data@[i as int]@);
                assert(forall|j: int| 0 <= j < i ==> bs[j] == t.data@[j]@);
                let k = choose|k: int| 0 <= k < bs.len() && bs[k].reports.len() > 0 && forall|j: int| 0 <= j < k ==> bs[j].reports.len() == 0;
                assert(0 <= k < bs.len() && bs[k].reports.len() > 0);
                if k < i {
                    assert(bs[k] == t.data@[k]@);
                } else if k > i {
                    assert(bs[i as int].reports.len() == 0);
                }
            }
            return Some(i);
        }
        i = i + 1;
    }
    proof {
        let bs = t@.buckets;
        assert forall|j: int| 0 <= j < bs.len() implies bs[j].reports.len() == 0 by {
            assert(bs[j] == t.data@[j]@);
        }
    }
    None
}

/// `j` is the first index of `cache` for satellite `name`.
pub open spec fn first_cached(cache: Seq<SatStatusCache>, name: Seq<char>, j: int) -> bool {
    0 <= j < cache.len() && cache[j].name@ == name && forall|k: int| 0 <= k < j ==> cache[k].name@ != name
}

pub open spec fn cache_index(cache: Seq<SatStatusCache>, name: Seq<char>) -> Option<int> {
    if exists|j: int| first_cached(cache, name, j) {
        Some(choose|j: int| first_cached(cache, name, j))
    } else {
        None
    }
}

/// The new cache entry of a timeline, and whether its status changed. A
/// timeline without buckets is unknown as of `now`; one whose buckets are all
/// empty gets no entry. Otherwise the newest non-empty bucket decides: a
/// cached entry older than that bucket takes its status (a change when the
/// status differs), a newer one stays; a satellite without entry gets one.
pub open spec fn refresh_one(t: SatelliteFileFormat, cache: Seq<SatStatusCache>, now: u64) -> Option<(SatStatusCache, bool)> {
    if t.data@.len() == 0 {
        Some((SatStatusCache { name: t.name, status: ReportStatus::Grey, report_num: 0, report_time: now }, false))
    } else {
        match latest_nonempty(t@.buckets) {
            None => None,
            Some(i) => {
                let b = t@.buckets[i];
                let st = resolve(tags_of(b.reports));
                match cache_index(cache, t.name@) {
                    Some(j) => {
                        let c = cache[j];
                        if b.key > c.report_time {
                            Some((SatStatusCache { name: c.name, status: st, report_num: b.reports.len() as u64, report_time: b.key }, st != c.status))
                        } else {
                            Some((c, false))
                        }
                    },
                    None => Some((SatStatusCache { name: t.name, status: st, report_num: b.reports.len() as u64, report_time: b.key }, false)),
                }
            },
        }
    }
}

/// The new cache, and the entries whose status changed, over all timelines.
pub open spec fn refresh_all(ts: Seq<SatelliteFileFormat>, cache: Seq<SatStatusCache>, now: u64) -> (Seq<SatStatusCache>, Seq<SatStatusCache>)
    decreases ts.len(),
{
    if ts.len() == 0 {
        (Seq::empty(), Seq::empty())
    } else {
        let (c, ch) = refresh_all(ts.drop_last(), cache, now);
        match refresh_one(ts.last(), cache, now) {
            Some((e, changed)) => (c.push(e), if changed { ch.push(e) } else { ch }),
            None => (c, ch),
        }
    }
}

fn find_cached(cache: &Vec<SatStatusCache>, name: &String) -> (r: Option<usize>)
    ensures
        r matches Some(j) ==> cache_index(cache@, name@) == Some(j as int) && j < cache@.len(),
        r is None ==> cache_index(cache@, name@) is None,
{
    let mut j: usize = 0;
    while j < cache.len()
        invariant
            j <= cache@.len(),
            forall|k: int| 0 <= k < j ==> cache@[k].name@ != name@,
        decreases cache@.len() - j,
    {
        if cache[j].name == *name {
            proof {
                assert(first_cached(cache@, name@, j as int));
                let k = choose|k: int| first_cached(cache@, name@, k);
                assert(first_cached(cache@, name@, k));
                if k < j {
                    assert(cache@[k].name@ != name@);
                } else if k > j {
                    assert(cache@[j as int].name@ != name@);
                }
            }
            return Some(j);
        }
        j = j + 1;
    }
    None
}

fn refresh_entry(t: &SatelliteFileFormat, cache: &Vec<SatStatusCache>, now: u64) -> (r: Option<(SatStatusCache, bool)>)
    ensures
        r == refresh_one(*t, cache@, now),
{
    if t.data.len() == 0 {
        return Some((SatStatusCache { name: t.name.clone(), status: ReportStatus::Grey, report_num: 0, report_time: now }, false));
    }
    match latest_bucket(t) {
        None => None,
        Some(i) => {
            let b = &t.data[i];
            proof {
                assert(t@.buckets[i as int] == b@);
            }
            let tags = bucket_statuses(b);
            let st = determine_report_status(&tags);
            let n = b.report.len() as u64;
            match find_cached(cache, &t.name) {
                Some(j) => {
                    let c = &cache[j];
                    if b.time > c.report_time {
                        Some((SatStatusCache { name: c.name.clone(), status: st, report_num: n, report_time: b.time }, st != c.status))
                    } else {
                        Some((SatStatusCache { name: c.name.clone(), status: c.status, report_num: c.report_num, report_time: c.report_time }, false))
                    }
                },
                None => Some((SatStatusCache { name: t.name.clone(), status: st, report_num: n, report_time: b.time }, false)),
            }
        },
    }
}

/// Recomputes the status cache from the timelines: one entry per timeline (as
/// `refresh_one` says), in order, and apart the entries whose status changed
/// since the previous cycle, for the notifier.
pub fn refresh_status_cache(timelines: &Vec<SatelliteFileFormat>, cache: &Vec<SatStatusCache>, now: u64) -> (r: (Vec<SatStatusCache>, Vec<SatStatusCache>))
    ensures
        (r.0@, r.1@) == refresh_all(timelines@, cache@, now),
{
    let mut out: Vec<SatStatusCache> = Vec::new();
    let mut changed: Vec<SatStatusCache> = Vec::new();
    let mut i: usize = 0;
    while i < timelines.len()
        invariant
            i <= timelines@.len(),
            (out@, changed@) == refresh_all(timelines@.subrange(0, i as int), cache@, now),
        decreases timelines@.len() - i,
    {
        proof {
            assert(timelines@.subrange(0, i + 1).drop_last() =~= timelines@.subrange(0, i as int));
        }
        match refresh_entry(&timelines[i], cache, now) {
            Some((e, ch)) => {
                if ch {
                    let e2 = SatStatusCache { name: e.name.clone(), status: e.status, report_num: e.report_num, report_time: e.report_time };
                    changed.push(e2);
                }
                out.push(e);
            },
            None => {},
        }
        i = i + 1;
    }
    proof {
        assert(timelines@.subrange(0, i as int) =~= timelines@);
    }
    (out, changed)
}

} // verus!
