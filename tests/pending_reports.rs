use amsat_status::pending::{add_user_report, create_report_template, PendingError};
use amsat_status::query::{refresh_status_cache, SatStatusCache};
use amsat_status::registry::fold_fetched_reports;
use amsat_status::status::ReportStatus;
use amsat_status::store::{SatStatus, SatelliteFileElement, SatelliteFileFormat};

const T0: u64 = 1_754_226_000;

fn rep(name: &str, call: &str, word: &str, t: u64) -> SatStatus {
    SatStatus {
        name: name.to_string(),
        reported_time: t,
        callsign: call.to_string(),
        report: word.to_string(),
        grid_square: "PM01".to_string(),
    }
}

#[test]
fn template_is_opened_for_new_satellite() {
    let mut p = Vec::new();
    assert_eq!(create_report_template(&mut p, &"AO-91".to_string(), T0), Ok(()));
    assert_eq!(p.len(), 1);
    assert_eq!(p[0].name, "AO-91");
    assert_eq!(p[0].data.len(), 1);
    assert_eq!(p[0].data[0].time, T0);
    assert!(p[0].data[0].report.is_empty());
}

#[test]
fn template_within_fifteen_minutes_is_refused() {
    let mut p = Vec::new();
    create_report_template(&mut p, &"AO-91".to_string(), T0).unwrap();
    assert_eq!(create_report_template(&mut p, &"AO-91".to_string(), T0 + 899), Err(PendingError::TemplateExists));
    assert_eq!(create_report_template(&mut p, &"AO-91".to_string(), T0 - 100), Err(PendingError::TemplateExists));
    assert_eq!(create_report_template(&mut p, &"AO-91".to_string(), T0 + 900), Ok(()));
    assert_eq!(p.len(), 1);
    assert_eq!(p[0].data[0].time, T0 + 900);
}

#[test]
fn user_report_goes_into_template_and_replaces_same_callsign() {
    let mut p = Vec::new();
    let sat = "SO-50".to_string();
    create_report_template(&mut p, &sat, T0).unwrap();
    let o = add_user_report(&mut p, &sat, "Tom BA1ABC", "ba1abc", &"PM01".to_string(), "b").unwrap();
    assert!(!o.replaced && !o.conflicting);
    let r = &p[0].data[0].report[0];
    assert_eq!((r.callsign.as_str(), r.report.as_str(), r.reported_time), ("BA1ABC", "Heard", T0));
    let o = add_user_report(&mut p, &sat, "Tom BA1ABC", "BA1ABC", &"PM01".to_string(), "R").unwrap();
    assert!(o.replaced);
    assert_eq!(p[0].data[0].report.len(), 1);
    assert_eq!(p[0].data[0].report[0].report, "Not Heard");
}

#[test]
fn user_reports_that_disagree_are_flagged() {
    let mut p = Vec::new();
    let sat = "SO-50".to_string();
    create_report_template(&mut p, &sat, T0).unwrap();
    add_user_report(&mut p, &sat, "Tom A1", "A1", &"PM01".to_string(), "blue").unwrap();
    let o = add_user_report(&mut p, &sat, "Tom A2", "A2", &"PM01".to_string(), "red").unwrap();
    assert!(o.conflicting);
}

#[test]
fn user_report_errors() {
    let mut p = Vec::new();
    let sat = "SO-50".to_string();
    assert_eq!(add_user_report(&mut p, &sat, "Tom A1", "A1", &"XX".to_string(), "b"), Err(PendingError::InvalidGrid));
    assert_eq!(add_user_report(&mut p, &sat, "Tom A1", "A1", &"PM01".to_string(), "orange"), Err(PendingError::InvalidStatus));
    assert_eq!(add_user_report(&mut p, &sat, "Tom A1", "A1", &"PM01".to_string(), "b"), Err(PendingError::NoTemplate));
    assert!(p.is_empty());
}

#[test]
fn user_report_needs_callsign_in_card() {
    let mut p = Vec::new();
    let sat = "SO-50".to_string();
    create_report_template(&mut p, &sat, T0).unwrap();
    assert_eq!(add_user_report(&mut p, &sat, "Tom", "BA1ABC", &"XX".to_string(), "b"), Err(PendingError::Unauthorized));
    assert!(p[0].data[0].report.is_empty());
    assert!(add_user_report(&mut p, &sat, "tom ba1abc", "Ba1abc", &"PM01".to_string(), "b").is_ok());
}

#[test]
fn fetched_reports_merge_into_named_timeline_or_start_one() {
    let now = T0 + 1800;
    let mut list: Vec<SatelliteFileFormat> = Vec::new();
    fold_fetched_reports(&mut list, &"AO-91".to_string(), vec![rep("AO-91", "A1", "Heard", T0)], 48, now);
    fold_fetched_reports(&mut list, &"SO-50".to_string(), vec![rep("SO-50", "A1", "Heard", T0)], 48, now);
    fold_fetched_reports(&mut list, &"AO-91".to_string(), vec![rep("AO-91", "A2", "Heard", T0 + 60)], 48, now);
    fold_fetched_reports(&mut list, &"AO-91".to_string(), Vec::new(), 48, now);
    assert_eq!(list.len(), 2);
    assert_eq!(list[0].name, "AO-91");
    assert_eq!(list[0].data[0].report.len(), 2);
    assert_eq!(list[1].data[0].report.len(), 1);
}

#[test]
fn status_cache_reports_changes() {
    let timelines = vec![
        SatelliteFileFormat {
            name: "AO-91".to_string(),
            last_update_time: T0,
            data: vec![SatelliteFileElement { time: T0, report: vec![rep("AO-91", "A1", "Not Heard", T0)] }],
        },
        SatelliteFileFormat { name: "SO-50".to_string(), last_update_time: T0, data: Vec::new() },
        SatelliteFileFormat {
            name: "ISS".to_string(),
            last_update_time: T0,
            data: vec![SatelliteFileElement { time: T0, report: vec![rep("ISS", "A1", "Crew Active", T0)] }],
        },
    ];
    let cache = vec![
        SatStatusCache { name: "AO-91".to_string(), status: ReportStatus::Blue, report_num: 3, report_time: T0 - 3600 },
        SatStatusCache { name: "ISS".to_string(), status: ReportStatus::Blue, report_num: 1, report_time: T0 + 10 },
    ];
    let (new_cache, changed) = refresh_status_cache(&timelines, &cache, T0 + 100);
    assert_eq!(new_cache.len(), 3);
    assert_eq!((new_cache[0].status, new_cache[0].report_num, new_cache[0].report_time), (ReportStatus::Red, 1, T0));
    assert_eq!((new_cache[1].status, new_cache[1].report_time), (ReportStatus::Grey, T0 + 100));
    assert_eq!(new_cache[2].status, ReportStatus::Blue);
    assert_eq!(changed.len(), 1);
    assert_eq!((changed[0].name.as_str(), changed[0].status), ("AO-91", ReportStatus::Red));
}

#[test]
fn user_report_removes_every_earlier_report_of_callsign() {
    let sat = "SO-50".to_string();
    let mut p = vec![SatelliteFileFormat {
        name: sat.clone(),
        last_update_time: T0,
        data: vec![SatelliteFileElement {
            time: T0,
            report: vec![rep("SO-50", "BA1ABC", "Heard", T0), rep("SO-50", "A2", "Heard", T0), rep("SO-50", "BA1ABC", "Heard", T0)],
        }],
    }];
    let o = add_user_report(&mut p, &sat, "BA1ABC", "ba1abc", &"PM01".to_string(), "y").unwrap();
    assert!(o.replaced);
    let calls: Vec<(String, String)> = p[0].data[0].report.iter().map(|r| (r.callsign.clone(), r.report.clone())).collect();
    assert_eq!(calls, vec![("A2".to_string(), "Heard".to_string()), ("BA1ABC".to_string(), "Telemetry Only".to_string())]);
}
