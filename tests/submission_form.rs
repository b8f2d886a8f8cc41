use amsat_status::store::SatStatus;
use amsat_status::submit::{form_from_date, submission_form};

fn rep(t: u64) -> SatStatus {
    SatStatus {
        name: "SO-50".to_string(),
        reported_time: t,
        callsign: "BA1ABC".to_string(),
        report: "Heard".to_string(),
        grid_square: "PM01".to_string(),
    }
}

#[test]
fn form_carries_calendar_fields_and_quarter_hour() {
    // 2025-08-03T13:47:10Z
    let f = submission_form(&rep(1_754_228_830)).unwrap();
    assert_eq!((f.year, f.month, f.day, f.hour, f.period), (2025, 8, 3, 13, 3));
    assert_eq!((f.sat_name.as_str(), f.callsign.as_str(), f.report.as_str(), f.grid_square.as_str()), ("SO-50", "BA1ABC", "Heard", "PM01"));
}

#[test]
fn form_at_epoch() {
    let f = submission_form(&rep(0)).unwrap();
    assert_eq!((f.year, f.month, f.day, f.hour, f.period), (1970, 1, 1, 0, 0));
}

#[test]
fn form_out_of_range_is_none() {
    assert!(submission_form(&rep(u64::MAX)).is_none());
}

#[test]
fn form_from_given_date() {
    let f = form_from_date(&rep(86_400 + 3600 * 5 + 60 * 29), (1999, 12, 31));
    assert_eq!((f.year, f.month, f.day, f.hour, f.period), (1999, 12, 31, 5, 1));
}

#[test]
fn form_dates_across_leap_days_and_centuries() {
    let d = |t: u64| {
        let f = submission_form(&rep(t)).unwrap();
        (f.year, f.month, f.day)
    };
    assert_eq!(d(951_782_400), (2000, 2, 29));
    assert_eq!(d(951_868_800), (2000, 3, 1));
    assert_eq!(d(1_709_208_000), (2024, 2, 29));
    assert_eq!(d(4_107_542_400), (2100, 3, 1));
    assert_eq!(d(253_402_300_799), (9999, 12, 31));
}
