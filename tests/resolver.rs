use amsat_status::resolver::determine_report_status;
use amsat_status::status::ReportStatus::{self, Blue, Grey, Orange, Purple, Red, Yellow};

fn many(parts: &[(ReportStatus, usize)]) -> Vec<ReportStatus> {
    let mut v = Vec::new();
    for (s, n) in parts {
        for _ in 0..*n {
            v.push(*s);
        }
    }
    v
}

#[test]
fn empty_input_is_unknown() {
    assert_eq!(determine_report_status(&Vec::new()), Grey);
}

#[test]
fn nonempty_raw_input_is_never_unknown() {
    for s in [Blue, Yellow, Red, Purple] {
        assert_ne!(determine_report_status(&vec![s]), Grey);
    }
}

#[test]
fn three_active_two_weak_is_conflicting() {
    assert_eq!(determine_report_status(&many(&[(Blue, 3), (Yellow, 2)])), Orange);
}

#[test]
fn beacon_and_no_signal_give_no_signal() {
    assert_eq!(determine_report_status(&vec![Yellow, Red]), Red);
    assert_eq!(determine_report_status(&vec![Yellow, Yellow]), Yellow);
}

#[test]
fn eighty_percent_active_is_not_conflicting() {
    assert_eq!(determine_report_status(&many(&[(Blue, 4), (Red, 1)])), Blue);
    assert_eq!(determine_report_status(&many(&[(Blue, 3), (Purple, 1), (Yellow, 1)])), Purple);
}

#[test]
fn crew_voice_outranks_active() {
    assert_eq!(determine_report_status(&vec![Blue, Purple, Blue]), Purple);
}

#[test]
fn weak_majority_wins() {
    assert_eq!(determine_report_status(&many(&[(Red, 9), (Blue, 1)])), Red);
}

#[test]
fn conflicting_tags_above_a_fifth_give_conflicting() {
    assert_eq!(determine_report_status(&many(&[(Blue, 4), (Orange, 1)])), Orange);
    assert_eq!(determine_report_status(&many(&[(Blue, 5), (Orange, 1)])), Blue);
    assert_eq!(determine_report_status(&vec![Orange]), Orange);
}

#[test]
fn unknown_tags_alone_give_unknown() {
    assert_eq!(determine_report_status(&vec![Grey, Grey]), Grey);
}
