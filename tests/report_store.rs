use amsat_status::query::latest_status;
use amsat_status::status::ReportStatus;
use amsat_status::store::{pack_satellite_data, update_satellite_data, SatStatus, SatelliteFileElement, SatelliteFileFormat};

const H: u64 = 3600;
const T0: u64 = 1_754_226_000; // 2025-08-03T13:00:00Z, an hour start

fn report(name: &str, call: &str, word: &str, t: u64) -> SatStatus {
    SatStatus {
        name: name.to_string(),
        reported_time: t,
        callsign: call.to_string(),
        report: word.to_string(),
        grid_square: "PM01".to_string(),
    }
}

fn empty_timeline(name: &str) -> SatelliteFileFormat {
    SatelliteFileFormat { name: name.to_string(), last_update_time: 0, data: Vec::new() }
}

fn keys(t: &SatelliteFileFormat) -> Vec<u64> {
    t.data.iter().map(|e| e.time).collect()
}

fn calls(e: &SatelliteFileElement) -> Vec<(String, String)> {
    e.report.iter().map(|r| (r.callsign.clone(), r.report.clone())).collect()
}

fn same(a: &SatelliteFileFormat, b: &SatelliteFileFormat) -> bool {
    a.name == b.name
        && a.last_update_time == b.last_update_time
        && a.data.len() == b.data.len()
        && a.data.iter().zip(b.data.iter()).all(|(x, y)| x.time == y.time && calls(x) == calls(y))
}

#[test]
fn beacon_and_no_signal_in_one_hour_resolve_to_no_signal() {
    let now = T0 + 30 * 60;
    let rs = vec![
        report("AO-91", "BA1AA", "Telemetry Only", T0 + 60),
        report("SO-50", "BA1AB", "Not Heard", T0 + 60 + 180),
    ];
    let t = pack_satellite_data(rs, 48, now).unwrap();
    assert_eq!(keys(&t), vec![T0]);
    assert_eq!(t.data[0].report.len(), 2);
    assert_eq!(latest_status(&t), ReportStatus::Red);
}

#[test]
fn report_ten_minutes_in_future_is_dropped() {
    let now = T0 + 10 * 60;
    let existing = pack_satellite_data(vec![report("AO-91", "BA1AA", "Heard", T0)], 48, now).unwrap();
    let before = existing.clone();
    let merged = update_satellite_data(existing, vec![report("AO-91", "BA1AB", "Heard", now + 600)], 48, now + 60);
    assert!(same(&merged, &before));
}

#[test]
fn report_within_five_minutes_of_future_is_kept() {
    let now = T0 + 10 * 60;
    let t = pack_satellite_data(vec![report("AO-91", "BA1AA", "Heard", now + 300)], 48, now).unwrap();
    assert_eq!(keys(&t), vec![T0]);
}

#[test]
fn merge_with_empty_incoming_is_a_no_op() {
    let now = T0 + 100 * H;
    let mut old = empty_timeline("AO-91");
    old.data.push(SatelliteFileElement { time: T0, report: vec![report("AO-91", "BA1AA", "Heard", T0)] });
    let before = old.clone();
    let merged = update_satellite_data(old, Vec::new(), 48, now);
    // even a bucket out of the window stays: nothing was merged
    assert!(same(&merged, &before));
}

#[test]
fn same_callsign_same_bucket_later_wins() {
    let now = T0 + 40 * 60;
    let rs = vec![
        report("AO-91", "BA1AA", "Heard", T0 + 60),
        report("AO-91", "BA1AB", "Heard", T0 + 120),
        report("AO-91", "BA1AA", "Not Heard", T0 + 180),
    ];
    let t = pack_satellite_data(rs, 48, now).unwrap();
    assert_eq!(
        calls(&t.data[0]),
        vec![("BA1AA".to_string(), "Not Heard".to_string()), ("BA1AB".to_string(), "Heard".to_string())]
    );
}

#[test]
fn merge_replaces_existing_report_of_same_callsign() {
    let now = T0 + 40 * 60;
    let t = pack_satellite_data(vec![report("AO-91", "BA1AA", "Heard", T0 + 60)], 48, now).unwrap();
    let t = update_satellite_data(t, vec![report("AO-91", "BA1AA", "Telemetry Only", T0 + 600)], 48, now);
    assert_eq!(calls(&t.data[0]), vec![("BA1AA".to_string(), "Telemetry Only".to_string())]);
    assert_eq!(t.last_update_time, now);
}

#[test]
fn buckets_are_sorted_newest_first_and_unique() {
    let now = T0 + 5 * H + 10;
    let rs = vec![
        report("AO-91", "A1", "Heard", T0 + 2 * H + 5),
        report("AO-91", "A2", "Heard", T0 + 5),
        report("AO-91", "A3", "Heard", T0 + 4 * H + 5),
        report("AO-91", "A4", "Heard", T0 + 2 * H + 1000),
    ];
    let t = pack_satellite_data(rs, 48, now).unwrap();
    assert_eq!(keys(&t), vec![T0 + 4 * H, T0 + 2 * H, T0]);
    assert_eq!(t.data[1].report.len(), 2);
}

#[test]
fn retention_window_excludes_horizon_and_keeps_now() {
    // horizon edge: a bucket exactly retain_hours before now is dropped
    let now = T0 + 48 * H;
    let rs = vec![
        report("AO-91", "A1", "Heard", T0),
        report("AO-91", "A2", "Heard", T0 + H),
        report("AO-91", "A3", "Heard", now),
    ];
    let t = pack_satellite_data(rs, 48, now).unwrap();
    assert_eq!(keys(&t), vec![now, T0 + H]);
}

#[test]
fn merge_drops_old_existing_buckets() {
    let now = T0 + 10 * H;
    let t = pack_satellite_data(vec![report("AO-91", "A1", "Heard", T0)], 48, T0 + 10).unwrap();
    let t = update_satellite_data(t, vec![report("AO-91", "A2", "Heard", now)], 3, now);
    assert_eq!(keys(&t), vec![now]);
    for e in &t.data {
        assert!(e.time + 3 * H > now && e.time <= now);
    }
}

#[test]
fn merging_two_batches_equals_merging_their_union() {
    let now = T0 + 3 * H;
    let base = pack_satellite_data(vec![report("AO-91", "A1", "Heard", T0 + 10)], 48, now).unwrap();
    let r1 = vec![report("AO-91", "A2", "Heard", T0 + 20), report("AO-91", "A3", "Not Heard", T0 + H + 20)];
    let r2 = vec![report("AO-91", "A4", "Heard", T0 + 2 * H + 20), report("AO-91", "A5", "Heard", T0 + 30)];
    let stepwise = update_satellite_data(update_satellite_data(base.clone(), r1.clone(), 48, now), r2.clone(), 48, now);
    let mut both = r1;
    both.extend(r2);
    let at_once = update_satellite_data(base, both, 48, now);
    assert!(same(&stepwise, &at_once));
}

#[test]
fn pack_of_empty_list_is_none() {
    assert!(pack_satellite_data(Vec::new(), 48, T0).is_none());
}

#[test]
fn pack_names_timeline_after_first_report() {
    let t = pack_satellite_data(vec![report("ISS", "A1", "Crew Active", T0)], 48, T0 + 1).unwrap();
    assert_eq!(t.name, "ISS");
    assert_eq!(t.last_update_time, T0 + 1);
    assert_eq!(latest_status(&t), ReportStatus::Purple);
}

#[test]
fn latest_status_skips_empty_newest_bucket() {
    let mut t = empty_timeline("AO-91");
    t.data.push(SatelliteFileElement { time: T0 + H, report: Vec::new() });
    t.data.push(SatelliteFileElement { time: T0, report: vec![report("AO-91", "A1", "heard", T0)] });
    assert_eq!(latest_status(&t), ReportStatus::Blue);
    assert_eq!(latest_status(&empty_timeline("AO-91")), ReportStatus::Grey);
}
