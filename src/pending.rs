use vstd::prelude::*;

use crate::registry::{first_named, lemma_first_named_unique};
use crate::resolver::{determine_report_status, resolve};
use crate::status::{is_raw_status, report_format_text, status_of_keyword, ReportStatus};
use crate::store::{Bucket, SatStatus, SatelliteFileElement, SatelliteFileFormat, Timeline};
use crate::sweep::timelines_of;
use crate::query::{bucket_statuses, tags_of};
use crate::text::{contains_text, lower_of, text_contains, upper_of, uppercase};
use crate::validate::{is_valid_maidenhead_grid, valid_grid};

verus! {

/// Two templates closer than this (seconds) belong to the same pass.
pub const TEMPLATE_MIN_GAP_SECS: u64 = 900;

/// Why a crowd report or template was refused.
#[derive(Clone, Copy, Debug, PartialEq, Eq, Structural)]
pub enum PendingError {
    /// The sender's group card does not hold the callsign.
    Unauthorized,
    /// A template lies within fifteen minutes of the requested one.
    TemplateExists,
    InvalidGrid,
    /// The status keyword names none of the four reportable statuses.
    InvalidStatus,
    /// The satellite has no open template.
    NoTemplate,
}

/// What adding a crowd report did.
#[derive(Clone, Copy, Debug, PartialEq, Eq, Structural)]
pub struct PendingOutcome {
    /// The callsign had a report in the template already, now replaced.
    pub replaced: bool,
    /// The template's reports now resolve to conflicting.
    pub conflicting: bool,
}

pub open spec fn abs_diff(a: u64, b: u64) -> int {
    if a >= b { a - b } else { b - a }
}

/// The pending timelines after opening a template for `sat` at `time`: the
/// first timeline of that name gets a single empty bucket at `time`, unless
/// its last bucket lies within fifteen minutes of it; a satellite without
/// timeline gets one at the end.
pub open spec fn template_spec(ts: Seq<Timeline>, sat: Seq<char>, time: u64) -> Result<Seq<Timeline>, PendingError> {
    let fresh = seq![Bucket { key: time, reports: Seq::empty() }];
    if exists|i: int| first_named(ts, sat, i) {
        let i = choose|i: int| first_named(ts, sat, i);
        let t = ts[i];
        if t.buckets.len() > 0 && abs_diff(t.buckets.last().key, time) < 900 {
            Err(PendingError::TemplateExists)
        } else {
            Ok(ts.update(i, Timeline { name: t.name, last_update: t.last_update, buckets: fresh }))
        }
    } else {
        Ok(ts.push(Timeline { name: sat, last_update: time, buckets: fresh }))
    }
}

fn empty_bucket(time: u64) -> (r: Vec<SatelliteFileElement>)
    ensures
        crate::store::buckets_of(r@) == seq![Bucket { key: time, reports: Seq::empty() }],
{
    let e = SatelliteFileElement { time, report: Vec::new() };
    let v = vec![e];
    proof {
        assert(e.report@ =~= Seq::<SatStatus>::empty());
        assert(crate::store::buckets_of(v@) =~= seq![Bucket { key: time, reports: Seq::empty() }]);
    }
    v
}

/// Opens a report template for satellite `sat` at the pass instant `time`.
pub fn create_report_template(pending: &mut Vec<SatelliteFileFormat>, sat: &String, time: u64) -> (r: Result<(), PendingError>)
    ensures
        match template_spec(timelines_of(old(pending)@), sat@, time) {
            Ok(ts) => r is Ok && timelines_of(final(pending)@) == ts,
            Err(e) => r == Err::<(), PendingError>(e) && final(pending)@ == old(pending)@,
        },
{
    let ghost ts = timelines_of(pending@);
    let mut i: usize = 0;
    while i < pending.len()
        invariant
            i <= pending@.len(),
            pending@ == old(pending)@,
            ts == timelines_of(pending@),
            forall|j: int| 0 <= j < i ==> ts[j].name != sat@,
        decreases pending@.len() - i,
    {
        if pending[i].name == *sat {
            proof {
                assert(first_named(ts, sat@, i as int));
                lemma_first_named_unique(ts, sat@, i as int);
                assert(ts[i as int] == pending@[i as int]@);
            }
            let n = pending[i].data.len();
            if n > 0 {
                let last = pending[i].data[n - 1].time;
                proof {
                    assert(ts[i as int].buckets.last() == pending@[i as int].data@[n - 1]@);
                }
                let close = if last >= time { last - time < TEMPLATE_MIN_GAP_SECS } else { time - last < TEMPLATE_MIN_GAP_SECS };
                if close {
                    return Err(PendingError::TemplateExists);
                }
            }
            let t = pending.remove(i);
            let SatelliteFileFormat { name, last_update_time, data: _ } = t;
            let nt = SatelliteFileFormat { name, last_update_time, data: empty_bucket(time) };
            pending.insert(i, nt);
            proof {
                assert(timelines_of(pending@) =~= ts.update(
                    i as int,
                    Timeline { name: ts[i as int].name, last_update: ts[i as int].last_update, buckets: seq![Bucket { key: time, reports: Seq::empty() }] },
                ));
            }
            return Ok(());
        }
        i = i + 1;
    }
    proof {
        assert(!exists|k: int| first_named(ts, sat@, k));
    }
    let nt = SatelliteFileFormat { name: sat.clone(), last_update_time: time, data: empty_bucket(time) };
    pending.push(nt);
    proof {
        assert(timelines_of(pending@) =~= ts.push(nt@));
    }
    Ok(())
}

/// `i` is the first timeline of `ts` named `sat` that holds a bucket.
pub open spec fn first_template(ts: Seq<Timeline>, sat: Seq<char>, i: int) -> bool {
    0 <= i < ts.len() && ts[i].name == sat && ts[i].buckets.len() > 0 && forall|j: int|
        0 <= j < i ==> !(ts[j].name == sat && ts[j].buckets.len() > 0)
}

/// The report a submission adds: it carries the template's instant.
pub open spec fn is_crowd_report(nr: SatStatus, sat: Seq<char>, time: u64, callsign: Seq<char>, grid: Seq<char>, st: ReportStatus) -> bool {
    nr.name@ == sat && nr.reported_time == time && nr.callsign@ == upper_of(callsign) && nr.report@ == report_format_text(st)
        && nr.grid_square@ == grid
}

/// The reports of `rs` whose callsign is not `c`, in order.
pub open spec fn without_callsign(rs: Seq<SatStatus>, c: Seq<char>) -> Seq<SatStatus>
    decreases rs.len(),
{
    if rs.len() == 0 {
        rs
    } else {
        let w = without_callsign(rs.drop_last(), c);
        if rs.last().callsign@ == c {
            w
        } else {
            w.push(rs.last())
        }
    }
}

/// `after` is `ts` once report `nr` went into the template `i` of `sat`, and
/// `o` tells whether it replaced a report and whether the template conflicts.
pub open spec fn report_added(
    ts: Seq<Timeline>,
    sat: Seq<char>,
    callsign: Seq<char>,
    grid: Seq<char>,
    st: ReportStatus,
    i: int,
    nr: SatStatus,
    after: Seq<Timeline>,
    o: PendingOutcome,
) -> bool {
    let b = ts[i].buckets[0];
    let reports = without_callsign(b.reports, nr.callsign@).push(nr);
    &&& first_template(ts, sat, i)
    &&& is_crowd_report(nr, sat, b.key, callsign, grid, st)
    &&& after == ts.update(i, Timeline { name: ts[i].name, last_update: ts[i].last_update, buckets: seq![Bucket { key: b.key, reports }] })
    &&& o.replaced == exists|k: int| 0 <= k < b.reports.len() && b.reports[k].callsign@ == upper_of(callsign)
    &&& o.conflicting == (resolve(tags_of(reports)) == ReportStatus::Orange)
}

/// Some report went into some template of `sat` as `report_added` says.
pub open spec fn ok_outcome(
    ts: Seq<Timeline>,
    sat: Seq<char>,
    callsign: Seq<char>,
    grid: Seq<char>,
    st: ReportStatus,
    after: Seq<Timeline>,
    o: PendingOutcome,
) -> bool {
    exists|i: int, nr: SatStatus| #[trigger] report_added(ts, sat, callsign, grid, st, i, nr, after, o)
}

/// Adds a crowd report to the open template of satellite `sat`. The sender's
/// group card, upper-cased, must hold the upper-cased `callsign`; `status_word` is a colour keyword of a reportable
/// status. Every earlier report of the callsign leaves the template and the
/// new report goes at its end; the template keeps
/// its first bucket only, and the outcome says whether a report was replaced
/// and whether the template's reports now conflict.
pub fn add_user_report(
    pending: &mut Vec<SatelliteFileFormat>,
    sat: &String,
    card: &str,
    callsign: &str,
    grid: &String,
    status_word: &str,
) -> (r: Result<PendingOutcome, PendingError>)
    ensures
        !contains_text(upper_of(card@), upper_of(callsign@)) ==> r == Err::<PendingOutcome, PendingError>(
            PendingError::Unauthorized,
        ),
        contains_text(upper_of(card@), upper_of(callsign@)) && !valid_grid(grid@) ==> r == Err::<PendingOutcome, PendingError>(
            PendingError::InvalidGrid,
        ),
        contains_text(upper_of(card@), upper_of(callsign@)) && valid_grid(grid@) && !is_raw_status(status_of_keyword(lower_of(status_word@))) ==> r == Err::<PendingOutcome, PendingError>(
            PendingError::InvalidStatus,
        ),
        contains_text(upper_of(card@), upper_of(callsign@)) && valid_grid(grid@) && is_raw_status(status_of_keyword(lower_of(status_word@))) && !(exists|i: int|
            first_template(timelines_of(old(pending)@), sat@, i)) ==> r == Err::<PendingOutcome, PendingError>(PendingError::NoTemplate),
        contains_text(upper_of(card@), upper_of(callsign@)) && valid_grid(grid@) && is_raw_status(
            status_of_keyword(lower_of(status_word@)),
        ) && (exists|i: int| first_template(timelines_of(old(pending)@), sat@, i)) ==> r is Ok,
        r is Err ==> final(pending)@ == old(pending)@,
        r matches Ok(o) ==> ok_outcome(
            timelines_of(old(pending)@),
            sat@,
            callsign@,
            grid@,
            status_of_keyword(lower_of(status_word@)),
            timelines_of(final(pending)@),
            o,
        ),
{
    let call = uppercase(callsign);
    let upper_card = uppercase(card);
    if !text_contains(upper_card.as_str(), call.as_str()) {
        return Err(PendingError::Unauthorized);
    }
    if !is_valid_maidenhead_grid(grid.as_str()) {
        return Err(PendingError::InvalidGrid);
    }
    let st = ReportStatus::status_mapper(status_word);
    match st {
        ReportStatus::Orange | ReportStatus::Grey => {
            return Err(PendingError::InvalidStatus);
        },
        _ => {},
    }
    let ghost ts = timelines_of(pending@);
    let mut i: usize = 0;
    while i < pending.len()
        invariant
            i <= pending@.len(),
            pending@ == old(pending)@,
            ts == timelines_of(pending@),
            forall|j: int| 0 <= j < i ==> !(ts[j].name == sat@ && ts[j].buckets.len() > 0),
            valid_grid(grid@),
            call@ == upper_of(callsign@),
            contains_text(upper_of(card@), upper_of(callsign@)),
            st == status_of_keyword(lower_of(status_word@)),
            is_raw_status(st),
        decreases pending@.len() - i,
    {
        proof {
            assert(ts[i as int] == pending@[i as int]@);
        }
        if pending[i].name == *sat && pending[i].data.len() > 0 {
            proof {
                assert(first_template(ts, sat@, i as int));
            }
            let mut t = pending.remove(i);
            let mut first = t.data.remove(0);
            let ghost b = first@;
            proof {
                assert(b == ts[i as int].buckets[0]);
            }
            let nr = SatStatus {
                name: sat.clone(),
                reported_time: first.time,
                callsign: call,
                report: st.to_string_report_format(),
                grid_square: grid.clone(),
            };
            let mut replaced = false;
            let mut kept: Vec<SatStatus> = Vec::new();
            let mut k: usize = 0;
            while k < first.report.len()
                invariant
                    k <= first.report@.len(),
                    first@ == b,
                    replaced == exists|m: int| 0 <= m < k && first.report@[m].callsign@ == nr.callsign@,
                    kept@ == without_callsign(first.report@.subrange(0, k as int), nr.callsign@),
                decreases first.report@.len() - k,
            {
                proof {
                    assert(first.report@.subrange(0, k + 1).drop_last() =~= first.report@.subrange(0, k as int));
                }
                if first.report[k].callsign == nr.callsign {
                    replaced = true;
                } else {
                    kept.push(first.report[k].duplicate());
                }
                k = k + 1;
            }
            proof {
                assert(first.report@.subrange(0, k as int) =~= first.report@);
            }
            kept.push(nr);
            first.report = kept;
            let tags = bucket_statuses(&first);
            let conflicting = match determine_report_status(&tags) {
                ReportStatus::Orange => true,
                _ => false,
            };
            let key = first.time;
            let SatelliteFileFormat { name, last_update_time, data: _ } = t;
            let nt = SatelliteFileFormat { name, last_update_time, data: vec![first] };
            pending.insert(i, nt);
            proof {
                let reports = without_callsign(b.reports, nr.callsign@).push(nr);
                assert(first.report@ == reports);
                assert(crate::store::buckets_of(nt.data@) =~= seq![Bucket { key: b.key, reports }]);
                assert(timelines_of(pending@) =~= ts.update(
                    i as int,
                    Timeline { name: ts[i as int].name, last_update: ts[i as int].last_update, buckets: seq![Bucket { key: b.key, reports }] },
                ));
                assert(is_crowd_report(nr, sat@, b.key, callsign@, grid@, st));
            }
            let o = PendingOutcome { replaced, conflicting };
            proof {
                assert(report_added(ts, sat@, callsign@, grid@, st, i as int, nr, timelines_of(pending@), o));
                assert(ok_outcome(ts, sat@, callsign@, grid@, st, timelines_of(pending@), o));
            }
            return Ok(o);
        }
        i = i + 1;
    }
    proof {
        assert(!exists|k: int| first_template(ts, sat@, k));
    }
    Err(PendingError::NoTemplate)
}

} // verus!
