use vstd::prelude::*;
use chrono::Datelike;

use crate::store::SatStatus;

verus! {

/// Last instant of 9999-12-31 (UTC), well inside chrono's range.
pub const LAST_DATED_INSTANT: u64 = 253_402_300_799;

/// The proleptic Gregorian UTC date (year, month, day) of the instant `t >= 0`
/// seconds after the Unix epoch. Days are counted from 0000-03-01 in eras of
/// 400 years (146097 days), with March as the first month of a year.
pub open spec fn civil_date_of(t: int) -> (int, int, int) {
    let z = t / 86400 + 719468;
    let era = z / 146097;
    let doe = z - era * 146097;
    let yoe = (doe - doe / 1460 + doe / 36524 - doe / 146096) / 365;
    let doy = doe - (365 * yoe + yoe / 4 - yoe / 100);
    let mp = (5 * doy + 2) / 153;
    let d = doy - (153 * mp + 2) / 5 + 1;
    let m = if mp < 10 { mp + 3 } else { mp - 9 };
    let y = yoe + era * 400;
    (if m <= 2 { y + 1 } else { y }, m, d)
}

/// Relies on `chrono::DateTime::from_timestamp` and its `year`, `month` and
/// `day`: the UTC proleptic Gregorian date of an instant; `None` only out of
/// chrono's range (years beyond 262142), which starts long after year 9999.
#[verifier::external_body]
fn civil_date(t: u64) -> (r: Option<(i32, u32, u32)>)
    requires
        t <= i64::MAX,
    ensures
        t <= 253_402_300_799 ==> r is Some,
        r matches Some(d) ==> (d.0 as int, d.1 as int, d.2 as int) == civil_date_of(t as int),
{
    match chrono::DateTime::from_timestamp(t as i64, 0) {
        Some(d) => Some((d.year(), d.month(), d.day())),
        None => None,
    }
}

/// The fields of the upstream submission form for one report. The hour is
/// split into four periods of fifteen minutes.
#[derive(Clone, Debug)]
pub struct SubmissionForm {
    pub sat_name: String,
    pub year: i32,
    pub month: u32,
    pub day: u32,
    /// UTC hour, 0 to 23.
    pub hour: u32,
    /// Quarter of the hour, 0 to 3.
    pub period: u32,
    pub callsign: String,
    pub report: String,
    pub grid_square: String,
}

/// The form of report `r`, whose calendar date is `date`.
pub fn form_from_date(r: &SatStatus, date: (i32, u32, u32)) -> (f: SubmissionForm)
    ensures
        f.sat_name == r.name,
        (f.year, f.month, f.day) == date,
        f.hour == (r.reported_time % 86400) / 3600,
        f.period == (r.reported_time % 3600) / 900,
        f.callsign == r.callsign,
        f.report == r.report,
        f.grid_square == r.grid_square,
{
    let t = r.reported_time;
    SubmissionForm {
        sat_name: r.name.clone(),
        year: date.0,
        month: date.1,
        day: date.2,
        hour: ((t % 86400) / 3600) as u32,
        period: ((t % 3600) / 900) as u32,
        callsign: r.callsign.clone(),
        report: r.report.clone(),
        grid_square: r.grid_square.clone(),
    }
}

/// The form of report `r`; none when its instant has no calendar date.
pub fn submission_form(r: &SatStatus) -> (f: Option<SubmissionForm>)
    ensures
        r.reported_time > i64::MAX ==> f is None,
        r.reported_time <= LAST_DATED_INSTANT ==> f is Some,
        f matches Some(x) ==> (x.year as int, x.month as int, x.day as int) == civil_date_of(r.reported_time as int)
            && x.hour == (r.reported_time % 86400) / 3600 && x.period == (r.reported_time % 3600) / 900
            && x.sat_name == r.name && x.callsign == r.callsign && x.report == r.report
            && x.grid_square == r.grid_square,
{
    if r.reported_time > i64::MAX as u64 {
        return None;
    }
    match civil_date(r.reported_time) {
        Some(d) => Some(form_from_date(r, d)),
        None => None,
    }
}

} // verus!
