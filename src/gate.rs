use vstd::prelude::*;

verus! {

/// Rate-limit bookkeeping of one submitter.
#[derive(Clone, Copy, Debug, PartialEq, Eq, Structural)]
pub struct SubmissionHistory {
    pub submitter_id: u64,
    /// Start of the current window, in seconds since the Unix epoch.
    pub earliest_submit: u64,
    /// Submissions counted in the current window.
    pub submit_count: u64,
    /// A blocked submitter is refused whatever the window.
    pub block: bool,
}

/// Outcome of one submission attempt.
#[derive(Clone, Copy, Debug, PartialEq, Eq, Structural)]
pub enum GateDecision {
    Allow,
    /// Refused; the window closes after this many seconds.
    Deny(u64),
    Blocked,
}

/// Per-submitter rate limiter.
#[derive(Clone, Debug)]
pub struct SubmissionGate {
    pub entries: Vec<SubmissionHistory>,
}

/// The window of `e` closes at `earliest_submit + window`.
pub open spec fn window_end(e: SubmissionHistory, window: u64) -> int {
    e.earliest_submit + window
}

/// Seconds from `now` until the window of `e` closes, capped at the largest
/// `u64` (reached only by instants near the end of the `u64` range).
pub open spec fn time_left(e: SubmissionHistory, now: u64, window: u64) -> u64 {
    let left = window_end(e, window) - now;
    if left > u64::MAX {
        u64::MAX
    } else {
        left as u64
    }
}

/// An entry is discarded once its window has closed, unless it is blocked.
pub open spec fn expired(e: SubmissionHistory, now: u64, window: u64) -> bool {
    !e.block && now >= window_end(e, window)
}

/// The entries that are kept at instant `now`, in order.
pub open spec fn prune(s: Seq<SubmissionHistory>, now: u64, window: u64) -> Seq<SubmissionHistory>
    decreases s.len(),
{
    if s.len() == 0 {
        s
    } else {
        let p = prune(s.drop_last(), now, window);
        if expired(s.last(), now, window) {
            p
        } else {
            p.push(s.last())
        }
    }
}

/// Index of the first entry of submitter `id`.
pub open spec fn find(s: Seq<SubmissionHistory>, id: u64) -> Option<int>
    decreases s.len(),
{
    if s.len() == 0 {
        None
    } else {
        match find(s.drop_last(), id) {
            Some(i) => Some(i),
            None => if s.last().submitter_id == id {
                Some(s.len() - 1)
            } else {
                None
            },
        }
    }
}

/// The entries and the decision after submitter `id` tries to submit at `now`:
/// elapsed entries are discarded first; a blocked submitter is refused; a new
/// or reset submitter starts a window with one submission; one below
/// `max_per_window` is counted; one at the limit is told when its window closes.
pub open spec fn gate_step(s: Seq<SubmissionHistory>, id: u64, now: u64, max_per_window: u64, window: u64) -> (Seq<SubmissionHistory>, GateDecision) {
    let p = prune(s, now, window);
    match find(p, id) {
        Some(i) => {
            let e = p[i];
            if e.block {
                (p, GateDecision::Blocked)
            } else if e.submit_count < max_per_window {
                (p.update(i, SubmissionHistory { submit_count: (e.submit_count + 1) as u64, ..e }), GateDecision::Allow)
            } else {
                (p, GateDecision::Deny(time_left(e, now, window)))
            }
        },
        None => (
            p.push(SubmissionHistory { submitter_id: id, earliest_submit: now, submit_count: 1, block: false }),
            GateDecision::Allow,
        ),
    }
}

pub open spec fn counts_wf(s: Seq<SubmissionHistory>) -> bool {
    forall|i: int| 0 <= i < s.len() ==> (#[trigger] s[i]).submit_count >= 1
}

/// At most one entry per submitter.
pub open spec fn ids_unique(s: Seq<SubmissionHistory>) -> bool {
    forall|i: int, j: int| 0 <= i < j < s.len() ==> s[i].submitter_id != s[j].submitter_id
}

/// Every entry has counted at least one submission, and no submitter has two
/// entries.
pub open spec fn entries_wf(s: Seq<SubmissionHistory>) -> bool {
    counts_wf(s) && ids_unique(s)
}

proof fn lemma_find_prefix(s: Seq<SubmissionHistory>, id: u64, n: int)
    requires
        0 <= n <= s.len(),
        find(s.subrange(0, n), id) is Some,
    ensures
        find(s, id) == find(s.subrange(0, n), id),
    decreases s.len() - n,
{
    if n < s.len() {
        let t = s.subrange(0, n + 1);
        assert(t.drop_last() =~= s.subrange(0, n));
        assert(t.subrange(0, n) =~= s.subrange(0, n));
        lemma_find_prefix(s, id, n + 1);
    } else {
        assert(s.subrange(0, n) =~= s);
    }
}

proof fn lemma_find_is_valid(s: Seq<SubmissionHistory>, id: u64)
    ensures
        find(s, id) matches Some(i) ==> 0 <= i < s.len() && s[i].submitter_id == id,
        find(s, id) is None ==> forall|j: int| 0 <= j < s.len() ==> s[j].submitter_id != id,
    decreases s.len(),
{
    if s.len() > 0 {
        lemma_find_is_valid(s.drop_last(), id);
        assert forall|j: int| 0 <= j < s.len() - 1 implies s.drop_last()[j] == s[j] by {}
    }
}

/// Every entry of `prune(s)` is an entry of `s`.
proof fn lemma_prune_members(s: Seq<SubmissionHistory>, now: u64, window: u64)
    ensures
        forall|k: int| 0 <= k < prune(s, now, window).len() ==> exists|j: int| 0 <= j < s.len() && #[trigger] prune(s, now, window)[k] == s[j],
    decreases s.len(),
{
    if s.len() > 0 {
        let r = s.drop_last();
        lemma_prune_members(r, now, window);
        let p = prune(s, now, window);
        let q = prune(r, now, window);
        assert forall|k: int| 0 <= k < p.len() implies exists|j: int| 0 <= j < s.len() && #[trigger] p[k] == s[j] by {
            if k < q.len() {
                let j = choose|j: int| 0 <= j < r.len() && q[k] == r[j];
                assert(p[k] == q[k]);
                assert(r[j] == s[j]);
            } else {
                assert(p[k] == s[s.len() - 1]);
            }
        }
    }
}

/// Every entry of `s` that is not expired stays in `prune(s)`.
proof fn lemma_prune_keeps(s: Seq<SubmissionHistory>, now: u64, window: u64, j: int)
    requires
        0 <= j < s.len(),
        !expired(s[j], now, window),
    ensures
        exists|k: int| 0 <= k < prune(s, now, window).len() && #[trigger] prune(s, now, window)[k] == s[j],
    decreases s.len(),
{
    let r = s.drop_last();
    let q = prune(r, now, window);
    if j < s.len() - 1 {
        assert(r[j] == s[j]);
        lemma_prune_keeps(r, now, window, j);
        let k = choose|k: int| 0 <= k < q.len() && q[k] == r[j];
        assert(prune(s, now, window)[k] == q[k]);
    } else {
        assert(prune(s, now, window) == q.push(s[j]));
        assert(prune(s, now, window)[q.len() as int] == s[j]);
    }
}

proof fn lemma_prune_wf(s: Seq<SubmissionHistory>, now: u64, window: u64)
    requires
        entries_wf(s),
    ensures
        entries_wf(prune(s, now, window)),
        forall|i: int| 0 <= i < prune(s, now, window).len()
            ==> !expired(#[trigger] prune(s, now, window)[i], now, window),
    decreases s.len(),
{
    if s.len() > 0 {
        let r = s.drop_last();
        assert(entries_wf(r)) by {
            assert forall|i: int| 0 <= i < r.len() implies (#[trigger] r[i]).submit_count >= 1 by {
                assert(r[i] == s[i]);
            }
            assert forall|i: int, j: int| 0 <= i < j < r.len() implies r[i].submitter_id != r[j].submitter_id by {
                assert(r[i] == s[i] && r[j] == s[j]);
            }
        }
        lemma_prune_wf(r, now, window);
        lemma_prune_members(r, now, window);
        let q = prune(r, now, window);
        let last = s[s.len() - 1];
        assert(last.submit_count >= 1);
        if !expired(last, now, window) {
            let p = q.push(last);
            assert forall|k: int| 0 <= k < q.len() implies q[k].submitter_id != last.submitter_id by {
                let j = choose|j: int| 0 <= j < r.len() && q[k] == r[j];
                assert(r[j] == s[j]);
            }
            assert forall|i: int, j: int| 0 <= i < j < p.len() implies p[i].submitter_id != p[j].submitter_id by {
                assert(p[i] == q[i]);
                if j < q.len() {
                    assert(p[j] == q[j]);
                }
            }
            assert forall|i: int| 0 <= i < p.len() implies (#[trigger] p[i]).submit_count >= 1 by {
                if i < q.len() {
                    assert(p[i] == q[i]);
                }
            }
        }
    }
}

impl SubmissionGate {
    pub open spec fn wf(&self) -> bool {
        entries_wf(self.entries@)
    }

    pub fn new() -> (r: SubmissionGate)
        ensures
            r.entries@.len() == 0,
            r.wf(),
    {
        SubmissionGate { entries: Vec::new() }
    }

    /// Drops the entries whose window has elapsed at `now`, unless blocked.
    fn discard_elapsed(&mut self, now: u64, window: u64)
        ensures
            final(self).entries@ == prune(old(self).entries@, now, window),
    {
        let mut out: Vec<SubmissionHistory> = Vec::new();
        let mut i: usize = 0;
        while i < self.entries.len()
            invariant
                i <= self.entries@.len(),
                self.entries@ == old(self).entries@,
                out@ == prune(self.entries@.subrange(0, i as int), now, window),
            decreases self.entries@.len() - i,
        {
            let e = self.entries[i];
            proof {
                assert(self.entries@.subrange(0, i + 1).drop_last() =~= self.entries@.subrange(0, i as int));
            }
            if e.block || (now as u128) < (e.earliest_submit as u128) + (window as u128) {
                out.push(e);
            }
            i = i + 1;
        }
        proof {
            assert(self.entries@.subrange(0, i as int) =~= self.entries@);
        }
        self.entries = out;
    }

    /// Index of the first entry of submitter `id`.
    fn position(&self, id: u64) -> (r: Option<usize>)
        ensures
            r matches Some(i) ==> find(self.entries@, id) == Some(i as int),
            r is None ==> find(self.entries@, id) is None,
    {
        let mut i: usize = 0;
        while i < self.entries.len()
            invariant
                i <= self.entries@.len(),
                find(self.entries@.subrange(0, i as int), id) is None,
            decreases self.entries@.len() - i,
        {
            proof {
                assert(self.entries@.subrange(0, i + 1).drop_last() =~= self.entries@.subrange(0, i as int));
            }
            if self.entries[i].submitter_id == id {
                proof {
                    lemma_find_prefix(self.entries@, id, i + 1);
                }
                return Some(i);
            }
            i = i + 1;
        }
        proof {
            assert(self.entries@.subrange(0, i as int) =~= self.entries@);
        }
        None
    }

    /// Checks whether submitter `id` may submit at `now`, and records the
    /// submission when it may.
    pub fn check_and_record(&mut self, id: u64, now: u64, max_per_window: u64, window: u64) -> (r: GateDecision)
        requires
            old(self).wf(),
        ensures
            (final(self).entries@, r) == gate_step(old(self).entries@, id, now, max_per_window, window),
            final(self).wf(),
    {
        proof {
            lemma_prune_wf(self.entries@, now, window);
        }
        self.discard_elapsed(now, window);
        match self.position(id) {
            Some(i) => {
                proof {
                    lemma_find_is_valid(self.entries@, id);
                }
                let e = self.entries[i];
                if e.block {
                    GateDecision::Blocked
                } else if e.submit_count < max_per_window {
                    let ghost before = self.entries@;
                    self.entries.set(i, SubmissionHistory { submit_count: e.submit_count + 1, ..e });
                    proof {
                        let a = self.entries@;
                        assert forall|x: int, y: int| 0 <= x < y < a.len() implies a[x].submitter_id != a[y].submitter_id by {
                            assert(a[x].submitter_id == before[x].submitter_id);
                            assert(a[y].submitter_id == before[y].submitter_id);
                        }
                        assert forall|x: int| 0 <= x < a.len() implies (#[trigger] a[x]).submit_count >= 1 by {
                            if x != i {
                                assert(a[x] == before[x]);
                            }
                        }
                    }
                    GateDecision::Allow
                } else {
                    let left: u128 = (e.earliest_submit as u128) + (window as u128) - (now as u128);
                    let capped: u64 = if left > u64::MAX as u128 { u64::MAX } else { left as u64 };
                    GateDecision::Deny(capped)
                }
            },
            None => {
                proof {
                    lemma_find_is_valid(self.entries@, id);
                }
                let ghost before = self.entries@;
                self.entries.push(SubmissionHistory { submitter_id: id, earliest_submit: now, submit_count: 1, block: false });
                proof {
                    let a = self.entries@;
                    assert forall|x: int, y: int| 0 <= x < y < a.len() implies a[x].submitter_id != a[y].submitter_id by {
                        assert(a[x] == before[x]);
                        if y < before.len() {
                            assert(a[y] == before[y]);
                        }
                    }
                    assert forall|x: int| 0 <= x < a.len() implies (#[trigger] a[x]).submit_count >= 1 by {
                        if x < before.len() {
                            assert(a[x] == before[x]);
                        }
                    }
                }
                GateDecision::Allow
            },
        }
    }
}

proof fn lemma_prune_avoids(s: Seq<SubmissionHistory>, id: u64, now: u64, window: u64)
    requires
        find(s, id) is None,
    ensures
        find(prune(s, now, window), id) is None,
    decreases s.len(),
{
    if s.len() > 0 {
        lemma_find_is_valid(s, id);
        lemma_find_is_valid(s.drop_last(), id);
        assert(find(s.drop_last(), id) is None) by {
            assert forall|j: int| 0 <= j < s.drop_last().len() implies s.drop_last()[j].submitter_id != id by {
                assert(s.drop_last()[j] == s[j]);
            }
            if find(s.drop_last(), id) is Some {
                let i = find(s.drop_last(), id)->0;
                assert(s.drop_last()[i].submitter_id == id);
            }
        }
        lemma_prune_avoids(s.drop_last(), id, now, window);
        let p = prune(s.drop_last(), now, window);
        if !expired(s.last(), now, window) {
            assert(p.push(s.last()).drop_last() =~= p);
            assert(s[s.len() - 1].submitter_id != id);
        }
    }
}

/// With one submission allowed per window: once submitter `id` is allowed at
/// `t1`, a second attempt before `t1 + window` is denied, and an attempt at or
/// after `t1 + window` is allowed.
pub proof fn lemma_rate_limit_boundary(s: Seq<SubmissionHistory>, id: u64, t1: u64, t2: u64, window: u64)
    requires
        entries_wf(s),
        window > 0,
        gate_step(s, id, t1, 1, window).1 == GateDecision::Allow,
    ensures
        t2 < t1 + window ==> gate_step(gate_step(s, id, t1, 1, window).0, id, t2, 1, window).1 is Deny,
        t2 >= t1 + window ==> gate_step(gate_step(s, id, t1, 1, window).0, id, t2, 1, window).1
            == GateDecision::Allow,
{
    let p = prune(s, t1, window);
    lemma_prune_wf(s, t1, window);
    lemma_find_is_valid(p, id);
    assert(find(p, id) is None);
    let e = SubmissionHistory { submitter_id: id, earliest_submit: t1, submit_count: 1, block: false };
    let s1 = p.push(e);
    assert(gate_step(s, id, t1, 1, window).0 == s1);
    assert(s1.drop_last() =~= p);
    lemma_prune_avoids(p, id, t2, window);
    let q = prune(p, t2, window);
    if t2 < t1 + window {
        assert(!expired(e, t2, window));
        assert(prune(s1, t2, window) == q.push(e));
        assert(q.push(e).drop_last() =~= q);
        assert(find(q.push(e), id) == Some(q.len() as int));
    } else {
        assert(expired(e, t2, window));
        assert(prune(s1, t2, window) == q);
    }
}

/// `a` holds exactly one entry of submitter `id`: a window opened at `now`
/// with one submission, not blocked.
pub open spec fn single_fresh_entry(a: Seq<SubmissionHistory>, id: u64, now: u64) -> bool {
    exists|k: int| #![trigger a[k]] 0 <= k < a.len()
        && a[k] == (SubmissionHistory { submitter_id: id, earliest_submit: now, submit_count: 1, block: false })
        && forall|x: int| 0 <= x < a.len() && a[x].submitter_id == id ==> x == k
}

/// With one submission allowed per window: when submitter `id` has an entry
/// that is not blocked and whose window is still open at `now`, the attempt
/// is denied and told the seconds left until `earliest_submit + window`, also
/// when `now` reads before `earliest_submit`.
pub proof fn lemma_deny_in_open_window(s: Seq<SubmissionHistory>, id: u64, now: u64, window: u64, j: int)
    requires
        entries_wf(s),
        0 <= j < s.len(),
        s[j].submitter_id == id,
        !s[j].block,
        now < window_end(s[j], window),
    ensures
        gate_step(s, id, now, 1, window).1 == GateDecision::Deny(time_left(s[j], now, window)),
{
    let p = prune(s, now, window);
    lemma_prune_wf(s, now, window);
    lemma_prune_keeps(s, now, window, j);
    let k = choose|k: int| 0 <= k < p.len() && p[k] == s[j];
    lemma_find_is_valid(p, id);
    if find(p, id) is None {
        assert(p[k].submitter_id == id);
    } else {
        let i = find(p, id)->0;
        if i != k {
            if i < k {
                assert(p[i].submitter_id != p[k].submitter_id);
            } else {
                assert(p[k].submitter_id != p[i].submitter_id);
            }
        }
        assert(s[j].submit_count >= 1);
    }
}

/// When the window of submitter `id`'s entry has elapsed at `now` and the
/// entry is not blocked, the attempt is allowed, and the history then holds
/// exactly one entry of `id`: a fresh window opening at `now`.
pub proof fn lemma_allow_after_window(s: Seq<SubmissionHistory>, id: u64, now: u64, max_per_window: u64, window: u64, j: int)
    requires
        entries_wf(s),
        0 <= j < s.len(),
        s[j].submitter_id == id,
        !s[j].block,
        now >= window_end(s[j], window),
    ensures
        gate_step(s, id, now, max_per_window, window).1 == GateDecision::Allow,
        single_fresh_entry(gate_step(s, id, now, max_per_window, window).0, id, now),
{
    let p = prune(s, now, window);
    lemma_prune_wf(s, now, window);
    lemma_prune_members(s, now, window);
    assert forall|k: int| 0 <= k < p.len() implies p[k].submitter_id != id by {
        let jj = choose|jj: int| 0 <= jj < s.len() && #[trigger] p[k] == s[jj];
        if s[jj].submitter_id == id && jj != j {
            if jj < j {
                assert(s[jj].submitter_id != s[j].submitter_id);
            } else {
                assert(s[j].submitter_id != s[jj].submitter_id);
            }
        }
        assert(!expired(p[k], now, window));
    }
    lemma_find_is_valid(p, id);
    if find(p, id) is Some {
        let i = find(p, id)->0;
        assert(p[i].submitter_id == id);
    }
    let e = SubmissionHistory { submitter_id: id, earliest_submit: now, submit_count: 1, block: false };
    let a = p.push(e);
    assert(a[p.len() as int] == e);
    assert forall|x: int| 0 <= x < a.len() && a[x].submitter_id == id implies x == p.len() by {
        if x < p.len() {
            assert(a[x] == p[x]);
        }
    }
    assert(single_fresh_entry(a, id, now));
}

} // verus!
