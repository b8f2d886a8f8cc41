use vstd::prelude::*;

verus! {

/// Length of one hour, in seconds.
pub const SECS_PER_HOUR: u64 = 3600;

/// How far in the future (seconds after `now`) a report may be stamped before
/// it is taken as clock-skewed and dropped.
pub const FUTURE_SLACK_SECS: u64 = 300;

/// One observation of a satellite by one reporter.
#[derive(Clone, Debug)]
pub struct SatStatus {
    /// Satellite name.
    pub name: String,
    /// Observation instant, in seconds since the Unix epoch (UTC).
    pub reported_time: u64,
    /// Reporter callsign; at most one report per callsign in a bucket.
    pub callsign: String,
    /// Status word, in the report format ("Heard", "Not Heard", ...).
    pub report: String,
    /// Maidenhead grid locator of the reporter.
    pub grid_square: String,
}

impl SatStatus {
    /// A field-by-field copy.
    pub fn duplicate(&self) -> (r: SatStatus)
        ensures
            r == *self,
    {
        SatStatus {
            name: self.name.clone(),
            reported_time: self.reported_time,
            callsign: self.callsign.clone(),
            report: self.report.clone(),
            grid_square: self.grid_square.clone(),
        }
    }
}

/// The reports observed within one hour.
#[derive(Clone, Debug)]
pub struct SatelliteFileElement {
    /// Start of the hour, in seconds since the Unix epoch.
    pub time: u64,
    pub report: Vec<SatStatus>,
}

/// What a time bucket holds.
pub struct Bucket {
    pub key: u64,
    pub reports: Seq<SatStatus>,
}

impl View for SatelliteFileElement {
    type V = Bucket;

    open spec fn view(&self) -> Bucket {
        Bucket { key: self.time, reports: self.report@ }
    }
}

/// The retained, bucketed history of one satellite.
#[derive(Clone, Debug)]
pub struct SatelliteFileFormat {
    pub name: String,
    /// Instant of the last change, in seconds since the Unix epoch.
    pub last_update_time: u64,
    /// Buckets, newest first.
    pub data: Vec<SatelliteFileElement>,
}

/// What a timeline holds.
pub struct Timeline {
    pub name: Seq<char>,
    pub last_update: u64,
    pub buckets: Seq<Bucket>,
}

pub open spec fn buckets_of(d: Seq<SatelliteFileElement>) -> Seq<Bucket> {
    d.map_values(|e: SatelliteFileElement| e@)
}

impl View for SatelliteFileFormat {
    type V = Timeline;

    open spec fn view(&self) -> Timeline {
        Timeline { name: self.name@, last_update: self.last_update_time, buckets: buckets_of(self.data@) }
    }
}

/// Start of the hour that holds instant `t`.
pub open spec fn hour_of(t: u64) -> u64 {
    (t - t % 3600) as u64
}

/// A report is accepted unless it lies more than five minutes after `now`.
pub open spec fn accepted(r: SatStatus, now: u64) -> bool {
    r.reported_time <= now + 300
}

pub open spec fn any_accepted(rs: Seq<SatStatus>, now: u64) -> bool {
    exists|i: int| 0 <= i < rs.len() && accepted(#[trigger] rs[i], now)
}

/// A bucket key is retained when it lies in `(now - hours, now]`: the horizon
/// edge is exclusive, the `now` edge inclusive.
pub open spec fn in_window(key: u64, now: u64, hours: u64) -> bool {
    now - hours * 3600 < key && key <= now
}

/// Keys strictly descending: at most one bucket per hour, newest first.
pub open spec fn sorted_desc(b: Seq<Bucket>) -> bool {
    forall|i: int, j: int| 0 <= i < j < b.len() ==> b[i].key > b[j].key
}

/// No two reports share a callsign.
pub open spec fn unique_callsigns(rs: Seq<SatStatus>) -> bool {
    forall|i: int, j: int| 0 <= i < j < rs.len() ==> rs[i].callsign@ != rs[j].callsign@
}

pub open spec fn all_unique(b: Seq<Bucket>) -> bool {
    forall|i: int| 0 <= i < b.len() ==> unique_callsigns(#[trigger] b[i].reports)
}

pub open spec fn buckets_wf(b: Seq<Bucket>) -> bool {
    sorted_desc(b) && all_unique(b)
}

pub open spec fn keys_below(b: Seq<Bucket>, m: int) -> bool {
    forall|i: int| 0 <= i < b.len() ==> b[i].key < m
}

/// Adds `r` to a list of reports: it replaces the report with the same
/// callsign in place, or else goes at the end.
pub open spec fn upsert(rs: Seq<SatStatus>, r: SatStatus) -> Seq<SatStatus>
    decreases rs.len(),
{
    if rs.len() == 0 {
        seq![r]
    } else if rs[0].callsign@ == r.callsign@ {
        seq![r] + rs.drop_first()
    } else {
        seq![rs[0]] + upsert(rs.drop_first(), r)
    }
}

/// Adds report `r` to the bucket with key `k`, creating that bucket at its
/// place in the descending order when there is none.
pub open spec fn ins(b: Seq<Bucket>, k: u64, r: SatStatus) -> Seq<Bucket>
    decreases b.len(),
{
    if b.len() == 0 {
        seq![Bucket { key: k, reports: seq![r] }]
    } else if b[0].key == k {
        seq![Bucket { key: k, reports: upsert(b[0].reports, r) }] + b.drop_first()
    } else if b[0].key < k {
        seq![Bucket { key: k, reports: seq![r] }] + b
    } else {
        seq![b[0]] + ins(b.drop_first(), k, r)
    }
}

/// Folds the accepted reports of `rs`, in order, into `b`.
pub open spec fn ins_all(b: Seq<Bucket>, rs: Seq<SatStatus>, now: u64) -> Seq<Bucket>
    decreases rs.len(),
{
    if rs.len() == 0 {
        b
    } else {
        let b1 = ins_all(b, rs.drop_last(), now);
        let r = rs.last();
        if accepted(r, now) {
            ins(b1, hour_of(r.reported_time), r)
        } else {
            b1
        }
    }
}

/// The buckets of `b` whose key lies in the retention window, in order.
pub open spec fn trim(b: Seq<Bucket>, now: u64, hours: u64) -> Seq<Bucket>
    decreases b.len(),
{
    if b.len() == 0 {
        b
    } else if in_window(b[0].key, now, hours) {
        seq![b[0]] + trim(b.drop_first(), now, hours)
    } else {
        trim(b.drop_first(), now, hours)
    }
}

/// The buckets after folding `rs` into `b`: unchanged when no report of `rs`
/// is accepted; otherwise every accepted report is placed in its hour's bucket
/// and the buckets out of the retention window are dropped.
pub open spec fn merge_buckets(b: Seq<Bucket>, rs: Seq<SatStatus>, now: u64, hours: u64) -> Seq<Bucket> {
    if any_accepted(rs, now) {
        trim(ins_all(b, rs, now), now, hours)
    } else {
        b
    }
}

/// The timeline after folding `rs` into `t`.
pub open spec fn merge_timeline(t: Timeline, rs: Seq<SatStatus>, now: u64, hours: u64) -> Timeline {
    if any_accepted(rs, now) {
        Timeline { name: t.name, last_update: now, buckets: merge_buckets(t.buckets, rs, now, hours) }
    } else {
        t
    }
}

/// `upsert` at the first report with `r`'s callsign, or at the end when none has it.
proof fn lemma_upsert_at(rs: Seq<SatStatus>, r: SatStatus, j: int)
    requires
        0 <= j <= rs.len(),
        forall|i: int| 0 <= i < j ==> rs[i].callsign@ != r.callsign@,
        j < rs.len() ==> rs[j].callsign@ == r.callsign@,
    ensures
        upsert(rs, r) == if j < rs.len() {
            rs.update(j, r)
        } else {
            rs.push(r)
        },
    decreases j,
{
    if rs.len() == 0 {
        assert(upsert(rs, r) =~= rs.push(r));
    } else if j == 0 {
        assert(upsert(rs, r) =~= rs.update(0, r));
    } else {
        lemma_upsert_at(rs.drop_first(), r, j - 1);
        if j < rs.len() {
            assert(upsert(rs, r) =~= rs.update(j, r));
        } else {
            assert(upsert(rs, r) =~= rs.push(r));
        }
    }
}

/// Adds `r` to `v`, replacing the report with the same callsign.
fn upsert_report(v: &mut Vec<SatStatus>, r: SatStatus)
    ensures
        final(v)@ == upsert(old(v)@, r),
{
    let mut j: usize = 0;
    while j < v.len()
        invariant
            j <= v@.len(),
            v@ == old(v)@,
            forall|i: int| 0 <= i < j ==> v@[i].callsign@ != r.callsign@,
        decreases v@.len() - j,
    {
        if v[j].callsign == r.callsign {
            proof {
                lemma_upsert_at(v@, r, j as int);
            }
            v.set(j, r);
            return;
        }
        j = j + 1;
    }
    proof {
        lemma_upsert_at(v@, r, j as int);
    }
    v.push(r);
}

/// `ins` at the first bucket whose key is not above `k`.
proof fn lemma_ins_at(b: Seq<Bucket>, k: u64, r: SatStatus, i: int)
    requires
        0 <= i <= b.len(),
        forall|j: int| 0 <= j < i ==> b[j].key > k,
        i < b.len() ==> b[i].key <= k,
    ensures
        ins(b, k, r) == if i < b.len() && b[i].key == k {
            b.update(i, Bucket { key: k, reports: upsert(b[i].reports, r) })
        } else {
            b.insert(i, Bucket { key: k, reports: seq![r] })
        },
    decreases i,
{
    if b.len() == 0 {
        assert(ins(b, k, r) =~= b.insert(i, Bucket { key: k, reports: seq![r] }));
    } else if i == 0 {
        if b[0].key == k {
            assert(ins(b, k, r) =~= b.update(0, Bucket { key: k, reports: upsert(b[0].reports, r) }));
        } else {
            assert(ins(b, k, r) =~= b.insert(0, Bucket { key: k, reports: seq![r] }));
        }
    } else {
        lemma_ins_at(b.drop_first(), k, r, i - 1);
        if i < b.len() && b[i].key == k {
            assert(ins(b, k, r) =~= b.update(i, Bucket { key: k, reports: upsert(b[i].reports, r) }));
        } else {
            assert(ins(b, k, r) =~= b.insert(i, Bucket { key: k, reports: seq![r] }));
        }
    }
}

/// Adds `r` to the bucket with key `k` of `data`, creating it if needed.
fn insert_report(data: &mut Vec<SatelliteFileElement>, k: u64, r: SatStatus)
    ensures
        buckets_of(final(data)@) == ins(buckets_of(old(data)@), k, r),
{
    let mut i: usize = 0;
    while i < data.len() && data[i].time > k
        invariant
            i <= data@.len(),
            data@ == old(data)@,
            forall|j: int| 0 <= j < i ==> data@[j].time > k,
        decreases data@.len() - i,
    {
        i = i + 1;
    }
    let ghost b = buckets_of(data@);
    proof {
        lemma_ins_at(b, k, r, i as int);
    }
    if i < data.len() && data[i].time == k {
        let mut e = data.remove(i);
        upsert_report(&mut e.report, r);
        data.insert(i, e);
        proof {
            assert(buckets_of(data@) =~= b.update(i as int, Bucket { key: k, reports: upsert(b[i as int].reports, r) }));
        }
    } else {
        let e = SatelliteFileElement { time: k, report: vec![r] };
        data.insert(i, e);
        proof {
            assert(e.report@ =~= seq![r]);
            assert(buckets_of(data@) =~= b.insert(i as int, Bucket { key: k, reports: seq![r] }));
        }
    }
}

/// Keeps the buckets of `data` that lie in the retention window, in order.
fn retain_window(data: Vec<SatelliteFileElement>, now: u64, hours: u64) -> (out: Vec<SatelliteFileElement>)
    ensures
        buckets_of(out@) == trim(buckets_of(data@), now, hours),
{
    let mut data = data;
    let mut out: Vec<SatelliteFileElement> = Vec::new();
    let ghost whole = trim(buckets_of(data@), now, hours);
    proof {
        assert(buckets_of(out@) + whole =~= whole);
    }
    while data.len() > 0
        invariant
            whole == buckets_of(out@) + trim(buckets_of(data@), now, hours),
        decreases data@.len(),
    {
        let ghost before = buckets_of(data@);
        let e = data.remove(0);
        proof {
            assert(before.drop_first() =~= buckets_of(data@));
            assert(before[0] == e@);
        }
        let keep = e.time <= now && (e.time as u128) + (hours as u128) * (SECS_PER_HOUR as u128) > now as u128;
        if keep {
            let ghost o = buckets_of(out@);
            out.push(e);
            proof {
                assert(buckets_of(out@) =~= o.push(e@));
                assert(trim(before, now, hours) == seq![e@] + trim(buckets_of(data@), now, hours));
                assert(whole =~= buckets_of(out@) + trim(buckets_of(data@), now, hours));
            }
        }
    }
    proof {
        assert(buckets_of(data@) =~= Seq::<Bucket>::empty());
        assert(whole =~= buckets_of(out@));
    }
    out
}

/// Folds the accepted reports of `rs`, in order, into `data`; says whether
/// any was accepted.
fn insert_all(data: &mut Vec<SatelliteFileElement>, rs: &Vec<SatStatus>, now: u64) -> (any: bool)
    ensures
        buckets_of(final(data)@) == ins_all(buckets_of(old(data)@), rs@, now),
        any == any_accepted(rs@, now),
{
    let mut any = false;
    let mut i: usize = 0;
    while i < rs.len()
        invariant
            i <= rs@.len(),
            buckets_of(data@) == ins_all(buckets_of(old(data)@), rs@.subrange(0, i as int), now),
            any == exists|j: int| 0 <= j < i && accepted(#[trigger] rs@[j], now),
        decreases rs@.len() - i,
    {
        let r = rs[i].duplicate();
        proof {
            assert(rs@.subrange(0, i + 1).drop_last() =~= rs@.subrange(0, i as int));
            assert(rs@.subrange(0, i + 1).last() == r);
        }
        if (r.reported_time as u128) <= (now as u128) + (FUTURE_SLACK_SECS as u128) {
            let k = r.reported_time - r.reported_time % SECS_PER_HOUR;
            insert_report(data, k, r);
            any = true;
        }
        i = i + 1;
    }
    proof {
        assert(rs@.subrange(0, rs@.len() as int) =~= rs@);
    }
    any
}

/// Folds `new_reports` into the timeline `existing`: each report goes to the
/// bucket of its hour, replacing the report of the same callsign there; a
/// report stamped more than five minutes after `now` is dropped; buckets out of
/// `(now - retain_hours, now]` are dropped; the buckets stay newest first.
/// When no report is accepted, `existing` comes back unchanged.
pub fn update_satellite_data(
    existing: SatelliteFileFormat,
    new_reports: Vec<SatStatus>,
    retain_hours: u64,
    now: u64,
) -> (r: SatelliteFileFormat)
    requires
        buckets_wf(existing@.buckets),
    ensures
        r@ == merge_timeline(existing@, new_reports@, now, retain_hours),
        buckets_wf(r@.buckets),
{
    let ghost old_buckets = existing@.buckets;
    let mut existing = existing;
    let mut data = existing.data;
    existing.data = Vec::new();
    let any = insert_all(&mut data, &new_reports, now);
    if !any {
        existing.data = data;
        proof {
            assert(ins_all(old_buckets, new_reports@, now) == old_buckets) by {
                lemma_ins_all_none_accepted(old_buckets, new_reports@, now);
            }
        }
        return existing;
    }
    let kept = retain_window(data, now, retain_hours);
    proof {
        lemma_ins_all_wf(old_buckets, new_reports@, now);
        lemma_trim_wf(ins_all(old_buckets, new_reports@, now), now, retain_hours);
    }
    SatelliteFileFormat { name: existing.name, last_update_time: now, data: kept }
}

/// Builds a fresh timeline from `reports`, by the rules of
/// `update_satellite_data`; the name is that of the first report. No timeline
/// comes of an empty list.
pub fn pack_satellite_data(reports: Vec<SatStatus>, retain_hours: u64, now: u64) -> (r: Option<SatelliteFileFormat>)
    ensures
        reports@.len() == 0 <==> r is None,
        r matches Some(t) ==> t@ == (Timeline {
            name: reports@[0].name@,
            last_update: now,
            buckets: merge_buckets(Seq::empty(), reports@, now, retain_hours),
        }) && buckets_wf(t@.buckets),
{
    if reports.len() == 0 {
        return None;
    }
    let empty = SatelliteFileFormat { name: reports[0].name.clone(), last_update_time: now, data: Vec::new() };
    proof {
        assert(buckets_of(empty.data@) =~= Seq::<Bucket>::empty());
    }
    Some(update_satellite_data(empty, reports, retain_hours, now))
}

proof fn lemma_ins_all_none_accepted(b: Seq<Bucket>, rs: Seq<SatStatus>, now: u64)
    requires
        !any_accepted(rs, now),
    ensures
        ins_all(b, rs, now) == b,
    decreases rs.len(),
{
    if rs.len() > 0 {
        assert(!accepted(rs[rs.len() - 1], now));
        assert(!any_accepted(rs.drop_last(), now)) by {
            if any_accepted(rs.drop_last(), now) {
                let i = choose|i: int| 0 <= i < rs.drop_last().len() && accepted(#[trigger] rs.drop_last()[i], now);
                assert(rs[i] == rs.drop_last()[i]);
            }
        }
        lemma_ins_all_none_accepted(b, rs.drop_last(), now);
    }
}

proof fn lemma_upsert_avoids(rs: Seq<SatStatus>, r: SatStatus, c: Seq<char>)
    requires
        forall|i: int| 0 <= i < rs.len() ==> rs[i].callsign@ != c,
        r.callsign@ != c,
    ensures
        forall|i: int| 0 <= i < upsert(rs, r).len() ==> upsert(rs, r)[i].callsign@ != c,
    decreases rs.len(),
{
    if rs.len() > 0 {
        let rest = rs.drop_first();
        assert forall|i: int| 0 <= i < rest.len() implies rest[i].callsign@ != c by {
            assert(rest[i] == rs[i + 1]);
        }
        let u = upsert(rs, r);
        if rs[0].callsign@ != r.callsign@ {
            lemma_upsert_avoids(rest, r, c);
            assert forall|i: int| 0 <= i < u.len() implies u[i].callsign@ != c by {
                if i > 0 {
                    assert(u[i] == upsert(rest, r)[i - 1]);
                }
            }
        } else {
            assert forall|i: int| 0 <= i < u.len() implies u[i].callsign@ != c by {
                if i > 0 {
                    assert(u[i] == rest[i - 1]);
                }
            }
        }
    }
}

proof fn lemma_upsert_unique(rs: Seq<SatStatus>, r: SatStatus)
    requires
        unique_callsigns(rs),
    ensures
        unique_callsigns(upsert(rs, r)),
    decreases rs.len(),
{
    if rs.len() > 0 {
        let rest = rs.drop_first();
        assert(unique_callsigns(rest)) by {
            assert forall|i: int, j: int| 0 <= i < j < rest.len() implies rest[i].callsign@ != rest[j].callsign@ by {
                assert(rest[i] == rs[i + 1] && rest[j] == rs[j + 1]);
            }
        }
        assert forall|i: int| 0 <= i < rest.len() implies rest[i].callsign@ != rs[0].callsign@ by {
            assert(rest[i] == rs[i + 1]);
        }
        if rs[0].callsign@ != r.callsign@ {
            lemma_upsert_unique(rest, r);
            lemma_upsert_avoids(rest, r, rs[0].callsign@);
            let u = upsert(rs, r);
            assert(u == seq![rs[0]] + upsert(rest, r));
            assert forall|i: int, j: int| 0 <= i < j < u.len() implies u[i].callsign@ != u[j].callsign@ by {
                if i > 0 {
                    assert(u[i] == upsert(rest, r)[i - 1] && u[j] == upsert(rest, r)[j - 1]);
                } else {
                    assert(u[j] == upsert(rest, r)[j - 1]);
                }
            }
        } else {
            let u = upsert(rs, r);
            assert forall|i: int, j: int| 0 <= i < j < u.len() implies u[i].callsign@ != u[j].callsign@ by {
                assert(u[j] == rest[j - 1]);
                if i > 0 {
                    assert(u[i] == rest[i - 1]);
                }
            }
        }
    }
}

proof fn lemma_ins_keys_below(b: Seq<Bucket>, k: u64, r: SatStatus, m: int)
    requires
        keys_below(b, m),
        k < m,
    ensures
        keys_below(ins(b, k, r), m),
    decreases b.len(),
{
    if b.len() > 0 && b[0].key > k {
        lemma_ins_keys_below(b.drop_first(), k, r, m);
        assert(ins(b, k, r) == seq![b[0]] + ins(b.drop_first(), k, r));
    }
}

proof fn lemma_drop_first_wf(b: Seq<Bucket>)
    requires
        buckets_wf(b),
        b.len() > 0,
    ensures
        buckets_wf(b.drop_first()),
        keys_below(b.drop_first(), b[0].key as int),
        unique_callsigns(b[0].reports),
{
    let rest = b.drop_first();
    assert forall|i: int, j: int| 0 <= i < j < rest.len() implies rest[i].key > rest[j].key by {
        assert(rest[i] == b[i + 1] && rest[j] == b[j + 1]);
    }
    assert forall|i: int| 0 <= i < rest.len() implies unique_callsigns(#[trigger] rest[i].reports) by {
        assert(rest[i] == b[i + 1]);
    }
    assert forall|i: int| 0 <= i < rest.len() implies rest[i].key < b[0].key by {
        assert(rest[i] == b[i + 1]);
    }
}

proof fn lemma_cons_wf(x: Bucket, rest: Seq<Bucket>)
    requires
        buckets_wf(rest),
        keys_below(rest, x.key as int),
        unique_callsigns(x.reports),
    ensures
        buckets_wf(seq![x] + rest),
{
    let s = seq![x] + rest;
    assert forall|i: int, j: int| 0 <= i < j < s.len() implies s[i].key > s[j].key by {
        assert(s[j] == rest[j - 1]);
        if i > 0 {
            assert(s[i] == rest[i - 1]);
        }
    }
    assert forall|i: int| 0 <= i < s.len() implies unique_callsigns(#[trigger] s[i].reports) by {
        if i > 0 {
            assert(s[i] == rest[i - 1]);
        }
    }
}

proof fn lemma_ins_wf(b: Seq<Bucket>, k: u64, r: SatStatus)
    requires
        buckets_wf(b),
    ensures
        buckets_wf(ins(b, k, r)),
    decreases b.len(),
{
    let single = Bucket { key: k, reports: seq![r] };
    if b.len() == 0 {
        lemma_cons_wf(single, b);
        assert(ins(b, k, r) == seq![single] + b);
    } else {
        lemma_drop_first_wf(b);
        let rest = b.drop_first();
        if b[0].key == k {
            lemma_upsert_unique(b[0].reports, r);
            lemma_cons_wf(Bucket { key: k, reports: upsert(b[0].reports, r) }, rest);
        } else if b[0].key < k {
            assert forall|i: int| 0 <= i < b.len() implies b[i].key < k by {
                if i > 0 {
                    assert(b[i].key < b[0].key);
                }
            }
            lemma_cons_wf(single, b);
        } else {
            lemma_ins_wf(rest, k, r);
            lemma_ins_keys_below(rest, k, r, b[0].key as int);
            lemma_cons_wf(b[0], ins(rest, k, r));
        }
    }
}

proof fn lemma_ins_all_wf(b: Seq<Bucket>, rs: Seq<SatStatus>, now: u64)
    requires
        buckets_wf(b),
    ensures
        buckets_wf(ins_all(b, rs, now)),
    decreases rs.len(),
{
    if rs.len() > 0 {
        lemma_ins_all_wf(b, rs.drop_last(), now);
        let r = rs.last();
        if accepted(r, now) {
            lemma_ins_wf(ins_all(b, rs.drop_last(), now), hour_of(r.reported_time), r);
        }
    }
}

proof fn lemma_trim_keys_below(b: Seq<Bucket>, now: u64, hours: u64, m: int)
    requires
        keys_below(b, m),
    ensures
        keys_below(trim(b, now, hours), m),
    decreases b.len(),
{
    if b.len() > 0 {
        let rest = b.drop_first();
        assert forall|i: int| 0 <= i < rest.len() implies rest[i].key < m by {
            assert(rest[i] == b[i + 1]);
        }
        lemma_trim_keys_below(rest, now, hours, m);
    }
}

proof fn lemma_trim_wf(b: Seq<Bucket>, now: u64, hours: u64)
    requires
        buckets_wf(b),
    ensures
        buckets_wf(trim(b, now, hours)),
    decreases b.len(),
{
    if b.len() > 0 {
        lemma_drop_first_wf(b);
        let rest = b.drop_first();
        lemma_trim_wf(rest, now, hours);
        if in_window(b[0].key, now, hours) {
            lemma_trim_keys_below(rest, now, hours, b[0].key as int);
            lemma_cons_wf(b[0], trim(rest, now, hours));
        }
    }
}

proof fn lemma_trim_idem(b: Seq<Bucket>, now: u64, hours: u64)
    ensures
        trim(trim(b, now, hours), now, hours) == trim(b, now, hours),
    decreases b.len(),
{
    if b.len() > 0 {
        let rest = b.drop_first();
        lemma_trim_idem(rest, now, hours);
        if in_window(b[0].key, now, hours) {
            let t = seq![b[0]] + trim(rest, now, hours);
            assert(t.drop_first() =~= trim(rest, now, hours));
        }
    }
}

proof fn lemma_trim_ins_outside(x: Seq<Bucket>, k: u64, r: SatStatus, now: u64, hours: u64)
    requires
        !in_window(k, now, hours),
    ensures
        trim(ins(x, k, r), now, hours) == trim(x, now, hours),
    decreases x.len(),
{
    let single = Bucket { key: k, reports: seq![r] };
    if x.len() == 0 {
        let s = seq![single];
        assert(s.drop_first() =~= x);
    } else {
        let rest = x.drop_first();
        if x[0].key == k {
            let s = seq![Bucket { key: k, reports: upsert(x[0].reports, r) }] + rest;
            assert(s.drop_first() =~= rest);
        } else if x[0].key < k {
            let s = seq![single] + x;
            assert(s.drop_first() =~= x);
        } else {
            lemma_trim_ins_outside(rest, k, r, now, hours);
            let s = seq![x[0]] + ins(rest, k, r);
            assert(s.drop_first() =~= ins(rest, k, r));
        }
    }
}

proof fn lemma_trim_ins(b: Seq<Bucket>, k: u64, r: SatStatus, now: u64, hours: u64)
    requires
        buckets_wf(b),
    ensures
        trim(ins(b, k, r), now, hours) == trim(ins(trim(b, now, hours), k, r), now, hours),
    decreases b.len(),
{
    let tb = trim(b, now, hours);
    let single = Bucket { key: k, reports: seq![r] };
    if !in_window(k, now, hours) {
        lemma_trim_ins_outside(b, k, r, now, hours);
        lemma_trim_ins_outside(tb, k, r, now, hours);
        lemma_trim_idem(b, now, hours);
    } else if b.len() > 0 {
        lemma_drop_first_wf(b);
        let rest = b.drop_first();
        let trest = trim(rest, now, hours);
        lemma_trim_idem(rest, now, hours);
        if in_window(b[0].key, now, hours) {
            assert(tb == seq![b[0]] + trest);
            assert(tb[0] == b[0]);
            assert(tb.drop_first() =~= trest);
            if b[0].key == k {
                let upd = Bucket { key: k, reports: upsert(b[0].reports, r) };
                let l = seq![upd] + rest;
                assert(l.drop_first() =~= rest);
                let rr = seq![upd] + trest;
                assert(rr.drop_first() =~= trest);
            } else if b[0].key < k {
                let l = seq![single] + b;
                assert(l.drop_first() =~= b);
                let rr = seq![single] + tb;
                assert(rr.drop_first() =~= tb);
                lemma_trim_idem(b, now, hours);
            } else {
                lemma_trim_ins(rest, k, r, now, hours);
                let l = seq![b[0]] + ins(rest, k, r);
                assert(l.drop_first() =~= ins(rest, k, r));
                let rr = seq![b[0]] + ins(trest, k, r);
                assert(rr.drop_first() =~= ins(trest, k, r));
            }
        } else {
            assert(tb == trest);
            if b[0].key < k {
                lemma_trim_keys_below(rest, now, hours, b[0].key as int);
                let l = seq![single] + b;
                assert(l.drop_first() =~= b);
                if trest.len() > 0 {
                    assert(trest[0].key < k);
                }
                let rr = seq![single] + trest;
                assert(rr.drop_first() =~= trest);
            } else {
                lemma_trim_ins(rest, k, r, now, hours);
                let l = seq![b[0]] + ins(rest, k, r);
                assert(l.drop_first() =~= ins(rest, k, r));
            }
        }
    }
}

proof fn lemma_trim_ins_all(b: Seq<Bucket>, rs: Seq<SatStatus>, now: u64, hours: u64)
    requires
        buckets_wf(b),
    ensures
        trim(ins_all(trim(b, now, hours), rs, now), now, hours) == trim(ins_all(b, rs, now), now, hours),
    decreases rs.len(),
{
    lemma_trim_wf(b, now, hours);
    if rs.len() == 0 {
        lemma_trim_idem(b, now, hours);
    } else {
        let rs1 = rs.drop_last();
        lemma_trim_ins_all(b, rs1, now, hours);
        let x = ins_all(trim(b, now, hours), rs1, now);
        let y = ins_all(b, rs1, now);
        lemma_ins_all_wf(trim(b, now, hours), rs1, now);
        lemma_ins_all_wf(b, rs1, now);
        let r = rs.last();
        if accepted(r, now) {
            let k = hour_of(r.reported_time);
            lemma_trim_ins(x, k, r, now, hours);
            lemma_trim_ins(y, k, r, now, hours);
        }
    }
}

proof fn lemma_ins_all_append(b: Seq<Bucket>, r1: Seq<SatStatus>, r2: Seq<SatStatus>, now: u64)
    ensures
        ins_all(b, r1 + r2, now) == ins_all(ins_all(b, r1, now), r2, now),
    decreases r2.len(),
{
    if r2.len() == 0 {
        assert(r1 + r2 =~= r1);
    } else {
        assert((r1 + r2).drop_last() =~= r1 + r2.drop_last());
        assert((r1 + r2).last() == r2.last());
        lemma_ins_all_append(b, r1, r2.drop_last(), now);
    }
}

proof fn lemma_any_accepted_append(r1: Seq<SatStatus>, r2: Seq<SatStatus>, now: u64)
    ensures
        any_accepted(r1 + r2, now) == (any_accepted(r1, now) || any_accepted(r2, now)),
{
    let s = r1 + r2;
    if any_accepted(r1, now) {
        let i = choose|i: int| 0 <= i < r1.len() && accepted(#[trigger] r1[i], now);
        assert(s[i] == r1[i]);
    }
    if any_accepted(r2, now) {
        let i = choose|i: int| 0 <= i < r2.len() && accepted(#[trigger] r2[i], now);
        assert(s[r1.len() + i] == r2[i]);
    }
    if any_accepted(s, now) {
        let i = choose|i: int| 0 <= i < s.len() && accepted(#[trigger] s[i], now);
        if i < r1.len() {
            assert(s[i] == r1[i]);
        } else {
            assert(s[i] == r2[i - r1.len()]);
        }
    }
}

/// Merging `r1` and then `r2` into a timeline gives what merging `r1 ++ r2` at
/// once gives. This holds whatever (callsign, bucket) pairs the two batches
/// touch, since a later report replaces an earlier one in place.
pub proof fn lemma_merge_compose(t: Timeline, r1: Seq<SatStatus>, r2: Seq<SatStatus>, now: u64, hours: u64)
    requires
        buckets_wf(t.buckets),
    ensures
        merge_timeline(merge_timeline(t, r1, now, hours), r2, now, hours) == merge_timeline(t, r1 + r2, now, hours),
{
    let b = t.buckets;
    lemma_any_accepted_append(r1, r2, now);
    lemma_ins_all_append(b, r1, r2, now);
    if any_accepted(r1, now) {
        if any_accepted(r2, now) {
            lemma_ins_all_wf(b, r1, now);
            lemma_trim_ins_all(ins_all(b, r1, now), r2, now, hours);
        } else {
            lemma_ins_all_none_accepted(ins_all(b, r1, now), r2, now);
        }
    } else {
        lemma_ins_all_none_accepted(b, r1, now);
    }
}

proof fn lemma_trim_in_window(b: Seq<Bucket>, now: u64, hours: u64)
    ensures
        forall|i: int| 0 <= i < trim(b, now, hours).len() ==> in_window(#[trigger] trim(b, now, hours)[i].key, now, hours),
    decreases b.len(),
{
    if b.len() > 0 {
        let rest = b.drop_first();
        lemma_trim_in_window(rest, now, hours);
        let t = trim(b, now, hours);
        if in_window(b[0].key, now, hours) {
            assert forall|i: int| 0 <= i < t.len() implies in_window(#[trigger] t[i].key, now, hours) by {
                if i > 0 {
                    assert(t[i] == trim(rest, now, hours)[i - 1]);
                }
            }
        }
    }
}

/// After a merge that accepted at least one report, every bucket key lies in
/// `(now - hours, now]`.
pub proof fn lemma_merge_within_window(t: Timeline, rs: Seq<SatStatus>, now: u64, hours: u64)
    requires
        any_accepted(rs, now),
    ensures
        forall|i: int| 0 <= i < merge_timeline(t, rs, now, hours).buckets.len()
            ==> in_window(#[trigger] merge_timeline(t, rs, now, hours).buckets[i].key, now, hours),
{
    lemma_trim_in_window(ins_all(t.buckets, rs, now), now, hours);
}

/// In every bucket of a merged timeline, no two reports share a callsign, and
/// the buckets stay strictly newest first.
pub proof fn lemma_merge_dedup(t: Timeline, rs: Seq<SatStatus>, now: u64, hours: u64)
    requires
        buckets_wf(t.buckets),
    ensures
        forall|i: int| 0 <= i < merge_timeline(t, rs, now, hours).buckets.len()
            ==> unique_callsigns(#[trigger] merge_timeline(t, rs, now, hours).buckets[i].reports),
        sorted_desc(merge_timeline(t, rs, now, hours).buckets),
{
    lemma_ins_all_wf(t.buckets, rs, now);
    lemma_trim_wf(ins_all(t.buckets, rs, now), now, hours);
}

} // verus!
