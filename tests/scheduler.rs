use amsat_status::scheduler::{
    job_step, next_refresh_deadline, next_sweep_deadline, JobAction, JobEvent, JobPhase, MAX_RETRIES,
    RETRY_BACKOFF_SECS,
};
use amsat_status::store::{SatStatus, SatelliteFileElement, SatelliteFileFormat};
use amsat_status::sweep::sweep_pending;

const H: u64 = 1_754_226_000;

#[test]
fn refresh_deadline_is_next_cadence_minute() {
    assert_eq!(next_refresh_deadline(H), H + 120);
    assert_eq!(next_refresh_deadline(H + 119), H + 120);
    assert_eq!(next_refresh_deadline(H + 120), H + 1020);
    assert_eq!(next_refresh_deadline(H + 1500), H + 1920);
    assert_eq!(next_refresh_deadline(H + 2819), H + 2820);
    assert_eq!(next_refresh_deadline(H + 2820), H + 3600 + 120);
    assert_eq!(next_refresh_deadline(H + 3599), H + 3600 + 120);
}

#[test]
fn sweep_deadline_is_ten_minutes_after_completion() {
    assert_eq!(next_sweep_deadline(H + 7), H + 607);
}

#[test]
fn job_retries_then_reports_and_returns_to_cadence() {
    let next = H + 1020;
    let (p, a) = job_step(JobPhase::Idle, JobEvent::Start, H, next, MAX_RETRIES, RETRY_BACKOFF_SECS);
    assert_eq!(p, JobPhase::Waiting { deadline: next, attempt: 1 });
    assert_eq!(a, JobAction::SleepUntil(next));
    let (p, a) = job_step(p, JobEvent::Woke, next - 1, next, MAX_RETRIES, RETRY_BACKOFF_SECS);
    assert_eq!(a, JobAction::SleepUntil(next));
    let (p, a) = job_step(p, JobEvent::Woke, next, next, MAX_RETRIES, RETRY_BACKOFF_SECS);
    assert_eq!((p, a), (JobPhase::Running { attempt: 1 }, JobAction::Run));
    let (p, a) = job_step(p, JobEvent::Failed, next + 5, H + 1920, MAX_RETRIES, RETRY_BACKOFF_SECS);
    assert_eq!(p, JobPhase::Waiting { deadline: next + 65, attempt: 2 });
    assert_eq!(a, JobAction::SleepUntil(next + 65));
    let (p, _) = job_step(p, JobEvent::Woke, next + 65, H + 1920, MAX_RETRIES, RETRY_BACKOFF_SECS);
    let (p, _) = job_step(p, JobEvent::Failed, next + 70, H + 1920, MAX_RETRIES, RETRY_BACKOFF_SECS);
    let (p, _) = job_step(p, JobEvent::Woke, next + 130, H + 1920, MAX_RETRIES, RETRY_BACKOFF_SECS);
    assert_eq!(p, JobPhase::Running { attempt: 3 });
    let (p, a) = job_step(p, JobEvent::Failed, next + 140, H + 1920, MAX_RETRIES, RETRY_BACKOFF_SECS);
    assert_eq!(p, JobPhase::Waiting { deadline: H + 1920, attempt: 1 });
    assert_eq!(a, JobAction::NotifyAndSleepUntil(H + 1920));
}

#[test]
fn job_success_resets_attempts() {
    let (p, a) = job_step(JobPhase::Running { attempt: 2 }, JobEvent::Succeeded, H, H + 120, 3, 60);
    assert_eq!(p, JobPhase::Waiting { deadline: H + 120, attempt: 1 });
    assert_eq!(a, JobAction::SleepUntil(H + 120));
}

#[test]
fn unexpected_event_changes_nothing() {
    let (p, a) = job_step(JobPhase::Idle, JobEvent::Failed, H, H + 120, 3, 60);
    assert_eq!((p, a), (JobPhase::Idle, JobAction::Nothing));
}

fn rep(call: &str, t: u64) -> SatStatus {
    SatStatus {
        name: "AO-91".to_string(),
        reported_time: t,
        callsign: call.to_string(),
        report: "Heard".to_string(),
        grid_square: "PM01".to_string(),
    }
}

#[test]
fn sweep_takes_buckets_older_than_twenty_minutes() {
    let now = H + 3 * 3600 + 600;
    let pending = vec![
        SatelliteFileFormat {
            name: "AO-91".to_string(),
            last_update_time: 0,
            data: vec![
                SatelliteFileElement { time: now - 600, report: vec![rep("A1", now - 600)] },
                SatelliteFileElement { time: now - 1200, report: vec![rep("A2", now - 1200)] },
                SatelliteFileElement { time: now - 1201, report: vec![rep("A3", now - 1201), rep("A4", now - 1201)] },
            ],
        },
        SatelliteFileFormat {
            name: "SO-50".to_string(),
            last_update_time: 0,
            data: vec![SatelliteFileElement { time: now - 5000, report: Vec::new() }],
        },
    ];
    let (kept, due) = sweep_pending(pending, now, 1200);
    assert_eq!(kept.len(), 2);
    let k: Vec<u64> = kept[0].data.iter().map(|e| e.time).collect();
    assert_eq!(k, vec![now - 600, now - 1200]);
    assert!(kept[1].data.is_empty());
    let d: Vec<String> = due.iter().map(|r| r.callsign.clone()).collect();
    assert_eq!(d, vec!["A3".to_string(), "A4".to_string()]);
}
