use amsat_status::gate::{GateDecision, SubmissionGate, SubmissionHistory};

#[test]
fn second_submission_within_window_is_denied() {
    let mut g = SubmissionGate::new();
    assert_eq!(g.check_and_record(7, 1000, 1, 3600), GateDecision::Allow);
    assert_eq!(g.check_and_record(7, 1600, 1, 3600), GateDecision::Deny(3000));
    assert_eq!(g.check_and_record(7, 4599, 1, 3600), GateDecision::Deny(1));
}

#[test]
fn submission_after_window_is_allowed() {
    let mut g = SubmissionGate::new();
    assert_eq!(g.check_and_record(7, 1000, 1, 3600), GateDecision::Allow);
    assert_eq!(g.check_and_record(7, 4600, 1, 3600), GateDecision::Allow);
    assert_eq!(g.entries.len(), 1);
    assert_eq!(g.entries[0].earliest_submit, 4600);
}

#[test]
fn count_grows_up_to_the_limit() {
    let mut g = SubmissionGate::new();
    assert_eq!(g.check_and_record(1, 0, 3, 60), GateDecision::Allow);
    assert_eq!(g.check_and_record(1, 10, 3, 60), GateDecision::Allow);
    assert_eq!(g.check_and_record(1, 20, 3, 60), GateDecision::Allow);
    assert_eq!(g.entries[0].submit_count, 3);
    assert_eq!(g.check_and_record(1, 30, 3, 60), GateDecision::Deny(30));
}

#[test]
fn blocked_submitter_is_refused() {
    let mut g = SubmissionGate::new();
    g.entries.push(SubmissionHistory { submitter_id: 9, earliest_submit: 0, submit_count: 1, block: true });
    assert_eq!(g.check_and_record(9, 1_000_000, 5, 60), GateDecision::Blocked);
    assert_eq!(g.entries.len(), 1);
}

#[test]
fn elapsed_entries_of_others_are_discarded() {
    let mut g = SubmissionGate::new();
    assert_eq!(g.check_and_record(1, 0, 1, 60), GateDecision::Allow);
    assert_eq!(g.check_and_record(2, 30, 1, 60), GateDecision::Allow);
    assert_eq!(g.check_and_record(3, 70, 1, 60), GateDecision::Allow);
    let ids: Vec<u64> = g.entries.iter().map(|e| e.submitter_id).collect();
    assert_eq!(ids, vec![2, 3]);
}

#[test]
fn limits_hold_among_other_submitters() {
    let mut g = SubmissionGate::new();
    for (id, t) in [(1u64, 0u64), (2, 100), (3, 200)] {
        g.entries.push(SubmissionHistory { submitter_id: id, earliest_submit: t, submit_count: 1, block: false });
    }
    assert_eq!(g.check_and_record(2, 3000, 1, 3600), GateDecision::Deny(700));
    assert_eq!(g.check_and_record(2, 3700, 1, 3600), GateDecision::Allow);
    let twos: Vec<&SubmissionHistory> = g.entries.iter().filter(|e| e.submitter_id == 2).collect();
    assert_eq!(twos.len(), 1);
    assert_eq!((twos[0].earliest_submit, twos[0].submit_count, twos[0].block), (3700, 1, false));
}

#[test]
fn clock_before_window_start_reports_time_to_window_end() {
    let mut g = SubmissionGate::new();
    g.entries.push(SubmissionHistory { submitter_id: 4, earliest_submit: 10_000, submit_count: 1, block: false });
    assert_eq!(g.check_and_record(4, 9_000, 1, 3600), GateDecision::Deny(4600));
    assert_eq!(g.check_and_record(4, 13_600, 1, 3600), GateDecision::Allow);
}
