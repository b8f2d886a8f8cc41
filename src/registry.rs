use vstd::prelude::*;

use crate::store::{
    buckets_wf, merge_buckets, merge_timeline, pack_satellite_data, update_satellite_data, SatStatus,
    SatelliteFileFormat, Timeline,
};
use crate::sweep::timelines_of;

verus! {

/// `i` is the first index of `ts` whose timeline is named `name`.
pub open spec fn first_named(ts: Seq<Timeline>, name: Seq<char>, i: int) -> bool {
    0 <= i < ts.len() && ts[i].name == name && forall|j: int| 0 <= j < i ==> ts[j].name != name
}

/// Every timeline of the list is well formed.
pub open spec fn all_wf(ts: Seq<Timeline>) -> bool {
    forall|i: int| 0 <= i < ts.len() ==> buckets_wf(#[trigger] ts[i].buckets)
}

/// The list after folding freshly fetched reports of satellite `name` into
/// it: nothing changes for an empty batch; the first timeline of that name
/// is merged with the batch; when there is none, a fresh timeline named after
/// the first report is added at the end.
pub open spec fn fold_spec(ts: Seq<Timeline>, name: Seq<char>, rs: Seq<SatStatus>, now: u64, hours: u64) -> Seq<Timeline> {
    if rs.len() == 0 {
        ts
    } else if exists|i: int| first_named(ts, name, i) {
        let i = choose|i: int| first_named(ts, name, i);
        ts.update(i, merge_timeline(ts[i], rs, now, hours))
    } else {
        ts.push(Timeline { name: rs[0].name@, last_update: now, buckets: merge_buckets(Seq::empty(), rs, now, hours) })
    }
}

/// The first index of a name is the one `choose` picks.
pub proof fn lemma_first_named_unique(ts: Seq<Timeline>, name: Seq<char>, i: int)
    requires
        first_named(ts, name, i),
    ensures
        (choose|k: int| first_named(ts, name, k)) == i,
{
    let k = choose|k: int| first_named(ts, name, k);
    assert(first_named(ts, name, k));
    if k < i {
        assert(ts[k].name != name);
    } else if k > i {
        assert(ts[i].name != name);
    }
}

/// Folds the reports fetched for satellite `sat_name` into the list of
/// timelines.
pub fn fold_fetched_reports(
    file_data: &mut Vec<SatelliteFileFormat>,
    sat_name: &String,
    data: Vec<SatStatus>,
    retain_hours: u64,
    now: u64,
)
    requires
        all_wf(timelines_of(old(file_data)@)),
    ensures
        timelines_of(final(file_data)@) == fold_spec(timelines_of(old(file_data)@), sat_name@, data@, now, retain_hours),
        all_wf(timelines_of(final(file_data)@)),
{
    let ghost ts = timelines_of(file_data@);
    if data.len() == 0 {
        return;
    }
    let mut i: usize = 0;
    while i < file_data.len()
        invariant
            i <= file_data@.len(),
            file_data@ == old(file_data)@,
            ts == timelines_of(file_data@),
            all_wf(ts),
            forall|j: int| 0 <= j < i ==> ts[j].name != sat_name@,
        decreases file_data@.len() - i,
    {
        if file_data[i].name == *sat_name {
            proof {
                assert(first_named(ts, sat_name@, i as int));
                lemma_first_named_unique(ts, sat_name@, i as int);
                assert(buckets_wf(ts[i as int].buckets));
            }
            let t = file_data.remove(i);
            let m = update_satellite_data(t, data, retain_hours, now);
            file_data.insert(i, m);
            proof {
                let nts = timelines_of(file_data@);
                assert(nts =~= ts.update(i as int, merge_timeline(ts[i as int], data@, now, retain_hours)));
                assert forall|j: int| 0 <= j < nts.len() implies buckets_wf(#[trigger] nts[j].buckets) by {
                    if j != i {
                        assert(nts[j] == ts[j]);
                    }
                }
            }
            return;
        }
        i = i + 1;
    }
    proof {
        assert(!exists|k: int| first_named(ts, sat_name@, k));
    }
    match pack_satellite_data(data, retain_hours, now) {
        Some(t) => {
            file_data.push(t);
            proof {
                let nts = timelines_of(file_data@);
                assert(nts =~= ts.push(t@));
                assert forall|j: int| 0 <= j < nts.len() implies buckets_wf(#[trigger] nts[j].buckets) by {
                    if j < ts.len() {
                        assert(nts[j] == ts[j]);
                    }
                }
            }
        },
        None => {},
    }
}

} // verus!
