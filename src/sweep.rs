use vstd::prelude::*;

use crate::store::{buckets_of, Bucket, SatStatus, SatelliteFileElement, SatelliteFileFormat, Timeline};

verus! {

/// A pending bucket is due once its key lies more than `max_age` seconds
/// before `now`.
pub open spec fn is_due(b: Bucket, now: u64, max_age: u64) -> bool {
    now > b.key + max_age
}

/// The buckets that are not yet due, in order.
pub open spec fn fresh_buckets(bs: Seq<Bucket>, now: u64, max_age: u64) -> Seq<Bucket>
    decreases bs.len(),
{
    if bs.len() == 0 {
        bs
    } else {
        let f = fresh_buckets(bs.drop_last(), now, max_age);
        if is_due(bs.last(), now, max_age) {
            f
        } else {
            f.push(bs.last())
        }
    }
}

/// The reports of the due buckets, bucket after bucket.
pub open spec fn due_reports(bs: Seq<Bucket>, now: u64, max_age: u64) -> Seq<SatStatus>
    decreases bs.len(),
{
    if bs.len() == 0 {
        Seq::empty()
    } else {
        due_reports(bs.drop_last(), now, max_age) + if is_due(bs.last(), now, max_age) {
            bs.last().reports
        } else {
            Seq::empty()
        }
    }
}

/// The reports of the due buckets of all timelines, timeline after timeline.
pub open spec fn sweep_due(ts: Seq<Timeline>, now: u64, max_age: u64) -> Seq<SatStatus>
    decreases ts.len(),
{
    if ts.len() == 0 {
        Seq::empty()
    } else {
        sweep_due(ts.drop_last(), now, max_age) + due_reports(ts.last().buckets, now, max_age)
    }
}

/// A timeline without its due buckets.
pub open spec fn sweep_timeline(t: Timeline, now: u64, max_age: u64) -> Timeline {
    Timeline { name: t.name, last_update: t.last_update, buckets: fresh_buckets(t.buckets, now, max_age) }
}

/// Splits `data` into the buckets that stay and, appended to `due`, the
/// reports of the due ones.
fn split_due(data: Vec<SatelliteFileElement>, now: u64, max_age: u64, due: &mut Vec<SatStatus>) -> (kept: Vec<SatelliteFileElement>)
    ensures
        buckets_of(kept@) == fresh_buckets(buckets_of(data@), now, max_age),
        final(due)@ == old(due)@ + due_reports(buckets_of(data@), now, max_age),
{
    let ghost orig = buckets_of(data@);
    let mut data = data;
    let mut kept: Vec<SatelliteFileElement> = Vec::new();
    let n = data.len();
    let mut i: usize = 0;
    proof {
        assert(orig.subrange(0, 0) =~= Seq::<Bucket>::empty());
        assert(kept@.map_values(|e: SatelliteFileElement| e@) =~= Seq::<Bucket>::empty());
        assert(due@ =~= old(due)@ + Seq::<SatStatus>::empty());
    }
    while i < n
        invariant
            n == orig.len(),
            i <= n,
            data@.len() == n - i,
            buckets_of(data@) == orig.subrange(i as int, n as int),
            buckets_of(kept@) == fresh_buckets(orig.subrange(0, i as int), now, max_age),
            due@ == old(due)@ + due_reports(orig.subrange(0, i as int), now, max_age),
        decreases n - i,
    {
        let ghost rest = buckets_of(data@);
        let ghost before = data@;
        let mut e = data.remove(0);
        proof {
            assert(e == before[0]);
            assert(rest[0] == e@);
            assert(buckets_of(data@) =~= rest.drop_first());
            assert(orig.subrange(0, i + 1).drop_last() =~= orig.subrange(0, i as int));
            assert(orig.subrange(0, i + 1).last() == orig[i as int]);
            assert(orig[i as int] == rest[0]);
        }
        if (now as u128) > (e.time as u128) + (max_age as u128) {
            let ghost d = due@;
            due.append(&mut e.report);
            proof {
                assert(due@ =~= old(due)@ + due_reports(orig.subrange(0, i + 1), now, max_age));
            }
        } else {
            let ghost k = buckets_of(kept@);
            kept.push(e);
            proof {
                assert(buckets_of(kept@) =~= k.push(e@));
                assert(due_reports(orig.subrange(0, i + 1), now, max_age) =~= due_reports(orig.subrange(0, i as int), now, max_age));
            }
        }
        i = i + 1;
        proof {
            assert(buckets_of(data@) =~= orig.subrange(i as int, n as int));
        }
    }
    proof {
        assert(orig.subrange(0, n as int) =~= orig);
    }
    kept
}

pub open spec fn timelines_of(ts: Seq<SatelliteFileFormat>) -> Seq<Timeline> {
    ts.map_values(|t: SatelliteFileFormat| t@)
}

/// Takes the due buckets out of each pending timeline: every bucket whose key
/// lies more than `max_age` seconds before `now` is removed and its reports
/// are handed back for submission; younger buckets stay for a later sweep.
pub fn sweep_pending(pending: Vec<SatelliteFileFormat>, now: u64, max_age: u64) -> (r: (Vec<SatelliteFileFormat>, Vec<SatStatus>))
    ensures
        r.0@.len() == pending@.len(),
        forall|i: int| 0 <= i < pending@.len() ==> (#[trigger] r.0@[i])@ == sweep_timeline(pending@[i]@, now, max_age),
        r.1@ == sweep_due(timelines_of(pending@), now, max_age),
{
    let ghost orig = pending@;
    let mut pending = pending;
    let mut out: Vec<SatelliteFileFormat> = Vec::new();
    let mut due: Vec<SatStatus> = Vec::new();
    let n = pending.len();
    let mut i: usize = 0;
    proof {
        assert(timelines_of(orig.subrange(0, 0)) =~= Seq::<Timeline>::empty());
    }
    while i < n
        invariant
            n == orig.len(),
            i <= n,
            pending@ == orig.subrange(i as int, n as int),
            out@.len() == i,
            forall|j: int| 0 <= j < i ==> (#[trigger] out@[j])@ == sweep_timeline(orig[j]@, now, max_age),
            due@ == sweep_due(timelines_of(orig.subrange(0, i as int)), now, max_age),
        decreases n - i,
    {
        let t = pending.remove(0);
        proof {
            assert(t == orig[i as int]);
            assert(pending@ =~= orig.subrange(i + 1, n as int));
            let ts = timelines_of(orig.subrange(0, i + 1));
            assert(ts.drop_last() =~= timelines_of(orig.subrange(0, i as int)));
            assert(ts.last() == t@);
        }
        let SatelliteFileFormat { name, last_update_time, data } = t;
        let kept = split_due(data, now, max_age, &mut due);
        out.push(SatelliteFileFormat { name, last_update_time, data: kept });
        i = i + 1;
    }
    proof {
        assert(orig.subrange(0, n as int) =~= orig);
    }
    (out, due)
}

} // verus!
