use vstd::prelude::*;
use vstd::arithmetic::div_mod::{lemma_fundamental_div_mod, lemma_mod_multiples_vanish, lemma_small_mod};

verus! {

/// Interval of the expiry sweep, from the end of its last run, in seconds.
pub const SWEEP_INTERVAL_SECS: u64 = 600;

/// Wait before a failed run is tried again, in seconds.
pub const RETRY_BACKOFF_SECS: u64 = 60;

/// Runs of one cycle before a failure is reported.
pub const MAX_RETRIES: u32 = 3;

/// Age after which a pending bucket is due for submission, in seconds.
pub const PENDING_MAX_AGE_SECS: u64 = 1200;

/// Status refreshes run at minutes 2, 17, 32 and 47 of each hour.
pub open spec fn is_refresh_instant(t: int) -> bool {
    let m = t % 3600;
    m == 120 || m == 1020 || m == 1920 || m == 2820
}

/// The first refresh instant strictly after `now`.
pub fn next_refresh_deadline(now: u64) -> (r: u64)
    requires
        now <= u64::MAX - 7200,
    ensures
        r > now,
        is_refresh_instant(r as int),
        forall|t: int| now < t < r ==> !#[trigger] is_refresh_instant(t),
{
    let m = now % 3600;
    let h = now - m;
    let off: u64 = if m < 120 {
        120
    } else if m < 1020 {
        1020
    } else if m < 1920 {
        1920
    } else if m < 2820 {
        2820
    } else {
        3720
    };
    let r = h + off;
    proof {
        let q = now as int / 3600;
        lemma_fundamental_div_mod(now as int, 3600);
        assert(h as int == 3600 * q);
        assert forall|t: int| now < t <= r implies (#[trigger] (t % 3600) == (if t - h < 3600 { t - h } else { t - h - 3600 })) by {
            let d = t - h;
            lemma_mod_multiples_vanish(q, d, 3600);
            assert(t == 3600 * q + d);
            if d < 3600 {
                lemma_small_mod(d as nat, 3600);
            } else {
                lemma_mod_multiples_vanish(1, d - 3600, 3600);
                lemma_small_mod((d - 3600) as nat, 3600);
            }
        }
    }
    r
}

/// The next run of the expiry sweep.
pub fn next_sweep_deadline(last_completion: u64) -> (r: u64)
    requires
        last_completion <= u64::MAX - 600,
    ensures
        r == last_completion + 600,
{
    last_completion + SWEEP_INTERVAL_SECS
}

/// Where a recurring job stands.
#[derive(Clone, Copy, Debug, PartialEq, Eq, Structural)]
pub enum JobPhase {
    Idle,
    /// Sleeping until `deadline`; the next run is try number `attempt`.
    Waiting { deadline: u64, attempt: u32 },
    /// Try number `attempt` is running.
    Running { attempt: u32 },
}

/// What happened to a job.
#[derive(Clone, Copy, Debug, PartialEq, Eq, Structural)]
pub enum JobEvent {
    /// The job is switched on.
    Start,
    /// The clock reached the job's deadline.
    Woke,
    Succeeded,
    Failed,
}

/// What the runner does next.
#[derive(Clone, Copy, Debug, PartialEq, Eq, Structural)]
pub enum JobAction {
    Nothing,
    /// Sleep until this instant.
    SleepUntil(u64),
    /// Run the job body.
    Run,
    /// Report that every try of this cycle failed, then sleep until this instant.
    NotifyAndSleepUntil(u64),
}

/// Phase and action after `ev` at instant `now`. `next_deadline` is the job's
/// next natural run by its cadence. A success, and a failure of the last try,
/// go back to the cadence with the count reset; an earlier failure waits the
/// backoff and tries again.
pub open spec fn job_step_spec(phase: JobPhase, ev: JobEvent, now: u64, next_deadline: u64, max_retries: u32, backoff: u64) -> (JobPhase, JobAction) {
    match (phase, ev) {
        (JobPhase::Idle, JobEvent::Start) => (
            JobPhase::Waiting { deadline: next_deadline, attempt: 1 },
            JobAction::SleepUntil(next_deadline),
        ),
        (JobPhase::Waiting { deadline, attempt }, JobEvent::Woke) => if now >= deadline {
            (JobPhase::Running { attempt }, JobAction::Run)
        } else {
            (phase, JobAction::SleepUntil(deadline))
        },
        (JobPhase::Running { attempt }, JobEvent::Succeeded) => (
            JobPhase::Waiting { deadline: next_deadline, attempt: 1 },
            JobAction::SleepUntil(next_deadline),
        ),
        (JobPhase::Running { attempt }, JobEvent::Failed) => if attempt < max_retries {
            (
                JobPhase::Waiting { deadline: (now + backoff) as u64, attempt: (attempt + 1) as u32 },
                JobAction::SleepUntil((now + backoff) as u64),
            )
        } else {
            (
                JobPhase::Waiting { deadline: next_deadline, attempt: 1 },
                JobAction::NotifyAndSleepUntil(next_deadline),
            )
        },
        _ => (phase, JobAction::Nothing),
    }
}

/// One decision of the retry state machine of a recurring job.
pub fn job_step(phase: JobPhase, ev: JobEvent, now: u64, next_deadline: u64, max_retries: u32, backoff: u64) -> (r: (JobPhase, JobAction))
    requires
        now <= u64::MAX - backoff,
    ensures
        r == job_step_spec(phase, ev, now, next_deadline, max_retries, backoff),
{
    match (phase, ev) {
        (JobPhase::Idle, JobEvent::Start) => (
            JobPhase::Waiting { deadline: next_deadline, attempt: 1 },
            JobAction::SleepUntil(next_deadline),
        ),
        (JobPhase::Waiting { deadline, attempt }, JobEvent::Woke) => if now >= deadline {
            (JobPhase::Running { attempt }, JobAction::Run)
        } else {
            (phase, JobAction::SleepUntil(deadline))
        },
        (JobPhase::Running { attempt: _ }, JobEvent::Succeeded) => (
            JobPhase::Waiting { deadline: next_deadline, attempt: 1 },
            JobAction::SleepUntil(next_deadline),
        ),
        (JobPhase::Running { attempt }, JobEvent::Failed) => if attempt < max_retries {
            (
                JobPhase::Waiting { deadline: now + backoff, attempt: attempt + 1 },
                JobAction::SleepUntil(now + backoff),
            )
        } else {
            (
                JobPhase::Waiting { deadline: next_deadline, attempt: 1 },
                JobAction::NotifyAndSleepUntil(next_deadline),
            )
        },
        _ => (phase, JobAction::Nothing),
    }
}

} // verus!
