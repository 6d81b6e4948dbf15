//! Scheduled downloads: when a schedule runs next, and the book of jobs
//! that a timer works through.
//!
//! Instants are nanoseconds since the Unix epoch (negative before it) and
//! durations are nanoseconds, so that `SystemTime` and `Duration` values
//! carry over exactly.
use vstd::prelude::*;

use crate::config::{same_config, DownloadConfig};

verus! {

/// Nanoseconds per second.
pub const NANOS_PER_SEC: u128 = 1000000000;

/// The longest `Duration`: `u64::MAX` seconds and 999 999 999 nanoseconds.
pub const MAX_DURATION_NANOS: u128 = 18446744073709551615999999999;

/// An instant a `SystemTime` can hold: whole seconds within `i64`.
pub open spec fn valid_time(t: int) -> bool {
    -9223372036854775808000000000 <= t <= 9223372036854775807999999999
}

/// Whether an instant is one a `SystemTime` can hold (see `valid_time`).
pub fn is_valid_time(t: i128) -> (b: bool)
    ensures
        b == valid_time(t as int),
{
    -9223372036854775808000000000i128 <= t && t <= 9223372036854775807999999999i128
}

/// Whether `now` and the instant `secs` seconds later can both be held (what
/// scheduling a job that far ahead needs).
pub fn start_time_is_valid(now: i128, secs: u64) -> (b: bool)
    ensures
        b == (valid_time(now as int) && valid_time(now + secs * NANOS_PER_SEC)),
{
    if !is_valid_time(now) {
        return false;
    }
    let later: i128 = now + (secs as i128) * 1000000000i128;
    is_valid_time(later)
}

/// Whether `now` and the instant a millisecond later can both be held (what
/// a timer tick needs).
pub fn tick_time_is_valid(now: i128) -> (b: bool)
    ensures
        b == (valid_time(now as int) && valid_time(now + 1000000)),
{
    is_valid_time(now) && now <= 9223372036854775807998999999i128
}

/// Whether a schedule runs once or repeats.
#[derive(Debug, Clone, Copy, PartialEq, Eq, Structural)]
pub enum ScheduleKind {
    Once,
    Recurring,
}

/// When a job first runs, and how often it repeats (never, without an
/// interval).
#[derive(Debug, Clone, Copy, PartialEq, Eq, Structural)]
pub struct ScheduleSpec {
    pub start_at_nanos: i128,
    pub interval_nanos: Option<u128>,
}

/// A schedule whose instants and interval are ones `SystemTime` and
/// `Duration` can hold.
pub open spec fn valid_spec(s: ScheduleSpec) -> bool {
    &&& valid_time(s.start_at_nanos as int)
    &&& s.interval_nanos matches Some(step) ==> step <= MAX_DURATION_NANOS
}

/// The next run at or after `now`: for a one-off schedule its start while
/// that has not passed; for a repeating one its start while that has not
/// passed, else the start plus `k + 1` intervals, where `k` counts the whole
/// interval-seconds (at least one second each) that have fully elapsed in
/// whole seconds since the start. `None` when that count or the product
/// overflows (`u32` hops, `Duration` range), or a one-off start has passed.
pub open spec fn next_time(s: ScheduleSpec, now: i128) -> Option<i128> {
    match s.interval_nanos {
        Some(step) => if now <= s.start_at_nanos {
            Some(s.start_at_nanos)
        } else {
            let elapsed_secs = (now - s.start_at_nanos) / (NANOS_PER_SEC as int);
            let step_secs = if step / NANOS_PER_SEC < 1 {
                1
            } else {
                step / NANOS_PER_SEC
            };
            let hops = elapsed_secs / (step_secs as int);
            if hops > u32::MAX {
                None
            } else {
                let factor: int = if hops == u32::MAX {
                    u32::MAX as int
                } else {
                    hops + 1
                };
                if step * factor > MAX_DURATION_NANOS {
                    None
                } else {
                    Some((s.start_at_nanos + step * factor) as i128)
                }
            }
        },
        None => if now <= s.start_at_nanos {
            Some(s.start_at_nanos)
        } else {
            None
        },
    }
}

impl ScheduleSpec {
    /// `Recurring` when there is an interval, else `Once`.
    pub fn kind(&self) -> (k: ScheduleKind)
        ensures
            k == if self.interval_nanos is Some {
                ScheduleKind::Recurring
            } else {
                ScheduleKind::Once
            },
    {
        if self.interval_nanos.is_some() {
            ScheduleKind::Recurring
        } else {
            ScheduleKind::Once
        }
    }

    /// The next run at or after `now` (see `next_time`).
    pub fn next_after(&self, now: i128) -> (next: Option<i128>)
        requires
            valid_spec(*self),
            valid_time(now as int),
        ensures
            next == next_time(*self, now),
    {
        match self.interval_nanos {
            Some(step) => {
                if now <= self.start_at_nanos {
                    return Some(self.start_at_nanos);
                }
                let elapsed: u128 = (now - self.start_at_nanos) as u128;
                let elapsed_secs: u128 = elapsed / NANOS_PER_SEC;
                let raw_step_secs: u128 = step / NANOS_PER_SEC;
                let step_secs: u128 = if raw_step_secs < 1 {
                    1
                } else {
                    raw_step_secs
                };
                let hops: u128 = elapsed_secs / step_secs;
                if hops > 4294967295 {
                    return None;
                }
                let factor: u128 = if hops == 4294967295 {
                    4294967295
                } else {
                    hops + 1
                };
                assert(step * factor <= MAX_DURATION_NANOS * 4294967295) by (nonlinear_arith)
                    requires
                        step <= MAX_DURATION_NANOS,
                        factor <= 4294967295,
                ;
                let product: u128 = step * factor;
                if product > MAX_DURATION_NANOS {
                    return None;
                }
                Some(self.start_at_nanos + (product as i128))
            },
            None => {
                if now <= self.start_at_nanos {
                    Some(self.start_at_nanos)
                } else {
                    None
                }
            },
        }
    }
}

/// The `k`-th repetition of a repeating schedule: its start plus `k`
/// intervals.
pub open spec fn run_at(s: ScheduleSpec, k: int) -> int {
    s.start_at_nanos + s.interval_nanos->0 * k
}

/// For an interval of whole seconds, the next run after a passed start is
/// the first repetition later than `now`: `start + k * step` with `k >= 1`
/// the least count that goes past `now`, as long as the count stays below
/// `u32::MAX` and the offset fits in a `Duration`.
pub proof fn lemma_next_run_is_least(s: ScheduleSpec, now: i128)
    requires
        valid_spec(s),
        valid_time(now as int),
        now > s.start_at_nanos,
        s.interval_nanos matches Some(step) && step >= NANOS_PER_SEC && step % NANOS_PER_SEC == 0,
        ((now - s.start_at_nanos) / (NANOS_PER_SEC as int)) / ((s.interval_nanos->0 / NANOS_PER_SEC) as int)
            < u32::MAX,
        s.interval_nanos->0 * (((now - s.start_at_nanos) / (NANOS_PER_SEC as int)) / ((s.interval_nanos->0
            / NANOS_PER_SEC) as int) + 1) <= MAX_DURATION_NANOS,
    ensures
        exists|k: int|
            k >= 1 && next_time(s, now) == Some(#[trigger] run_at(s, k) as i128) && run_at(s, k) > now
                && forall|j: int| 1 <= j < k ==> #[trigger] run_at(s, j) <= now,
{
    let step = s.interval_nanos->0;
    let d = now - s.start_at_nanos;
    let e = d / (NANOS_PER_SEC as int);
    let ss = (step / NANOS_PER_SEC) as int;
    let hops = e / ss;
    let k = hops + 1;
    lemma_next_run_is_later(s, now);
    assert(step == ss * 1000000000) by (nonlinear_arith)
        requires
            ss == step / 1000000000,
            step % 1000000000 == 0,
    ;
    assert(hops * ss <= e) by (nonlinear_arith)
        requires
            hops == e / ss,
            ss >= 1,
            e >= 0,
    ;
    assert(e * 1000000000 <= d) by (nonlinear_arith)
        requires
            e == d / 1000000000,
            d > 0,
    ;
    assert forall|j: int| 1 <= j < k implies #[trigger] run_at(s, j) <= now by {
        assert(step * j <= step * hops) by (nonlinear_arith)
            requires
                j <= hops,
                step >= 0,
        ;
        assert(step * hops == hops * ss * 1000000000) by (nonlinear_arith)
            requires
                step == ss * 1000000000,
        ;
        assert(hops * ss * 1000000000 <= e * 1000000000) by (nonlinear_arith)
            requires
                hops * ss <= e,
        ;
    }
    assert(next_time(s, now) == Some(run_at(s, k) as i128));
    assert(run_at(s, k) > now);
}

/// A repeating schedule with an interval of at least a second moves past
/// `now`: when the count of elapsed intervals stays below `u32::MAX`, the
/// next run it gives is later than `now`, and it is never before the start.
pub proof fn lemma_next_run_is_later(s: ScheduleSpec, now: i128)
    requires
        valid_spec(s),
        valid_time(now as int),
        s.interval_nanos matches Some(step) && step >= NANOS_PER_SEC,
        now > s.start_at_nanos ==> ((now - s.start_at_nanos) / (NANOS_PER_SEC as int)) / ((
        s.interval_nanos->0 / NANOS_PER_SEC) as int) < u32::MAX,
    ensures
        next_time(s, now) matches Some(t) ==> t >= now && t >= s.start_at_nanos,
        now > s.start_at_nanos ==> (next_time(s, now) matches Some(t) ==> t > now),
{
    let step = s.interval_nanos->0;
    if now > s.start_at_nanos {
        let d = now - s.start_at_nanos;
        let e = d / (NANOS_PER_SEC as int);
        let ss = (step / NANOS_PER_SEC) as int;
        let hops = e / ss;
        assert(ss >= 1);
        assert(d < (e + 1) * 1000000000) by (nonlinear_arith)
            requires
                e == d / 1000000000,
                d > 0,
        ;
        assert(e < (hops + 1) * ss) by (nonlinear_arith)
            requires
                hops == e / ss,
                ss >= 1,
                e >= 0,
        ;
        assert(ss * 1000000000 <= step) by (nonlinear_arith)
            requires
                ss == step / 1000000000,
                step >= 0,
        ;
        assert((e + 1) * 1000000000 <= (hops + 1) * ss * 1000000000) by (nonlinear_arith)
            requires
                e < (hops + 1) * ss,
        ;
        assert((hops + 1) * ss * 1000000000 <= step * (hops + 1)) by (nonlinear_arith)
            requires
                ss * 1000000000 <= step,
                hops >= 0,
        ;
    }
}

/// A download that runs on a schedule.
#[derive(Debug)]
pub struct ScheduledDownload {
    pub id: u64,
    pub name: String,
    pub spec: ScheduleSpec,
    pub next_run: i128,
    pub enabled: bool,
    pub config: DownloadConfig,
}

/// Two jobs that hold the same values.
pub open spec fn same_job(a: ScheduledDownload, b: ScheduledDownload) -> bool {
    &&& a.id == b.id
    &&& a.name == b.name
    &&& a.spec == b.spec
    &&& a.next_run == b.next_run
    &&& a.enabled == b.enabled
    &&& same_config(a.config, b.config)
}

impl Clone for ScheduledDownload {
    fn clone(&self) -> (r: Self)
        ensures
            same_job(r, *self),
    {
        ScheduledDownload {
            id: self.id,
            name: self.name.clone(),
            spec: self.spec,
            next_run: self.next_run,
            enabled: self.enabled,
            config: self.config.clone(),
        }
    }
}

/// The jobs of a scheduler and the id the next one gets.
#[derive(Debug)]
pub struct DownloadScheduler {
    pub jobs: Vec<ScheduledDownload>,
    pub next_id: u64,
}

/// A job is due at `now`: enabled, and its next run has come.
pub open spec fn is_due(j: ScheduledDownload, now: i128) -> bool {
    j.enabled && now >= j.next_run
}

/// A job once a timer tick at `now` has seen it: a due job moves on to its
/// next run after `now` plus a millisecond, or is disabled when there is
/// none; other jobs stay as they are.
pub open spec fn after_tick(j: ScheduledDownload, now: i128) -> ScheduledDownload {
    if is_due(j, now) {
        match next_time(j.spec, (now + 1000000) as i128) {
            Some(n) => ScheduledDownload { next_run: n, ..j },
            None => ScheduledDownload { enabled: false, ..j },
        }
    } else {
        j
    }
}

/// The indices of the jobs due at `now`, in order.
pub open spec fn due_indices(jobs: Seq<ScheduledDownload>, now: i128) -> Seq<int>
    decreases jobs.len(),
{
    if jobs.len() == 0 {
        Seq::empty()
    } else {
        let rest = due_indices(jobs.drop_last(), now);
        if is_due(jobs.last(), now) {
            rest.push(jobs.len() - 1)
        } else {
            rest
        }
    }
}

proof fn lemma_due_indices_bounded(jobs: Seq<ScheduledDownload>, now: i128)
    ensures
        forall|k: int| 0 <= k < due_indices(jobs, now).len() ==> 0 <= #[trigger] due_indices(jobs, now)[k] < jobs.len(),
    decreases jobs.len(),
{
    if jobs.len() > 0 {
        let rest = due_indices(jobs.drop_last(), now);
        lemma_due_indices_bounded(jobs.drop_last(), now);
        assert forall|k: int| 0 <= k < due_indices(jobs, now).len() implies 0 <= #[trigger] due_indices(jobs, now)[k] < jobs.len() by {
            if k < rest.len() {
                assert(due_indices(jobs, now)[k] == rest[k]);
            }
        }
    }
}

/// The `id` of the first job with it, if any.
pub open spec fn first_job_with_id(jobs: Seq<ScheduledDownload>, id: u64, i: int) -> bool {
    &&& 0 <= i < jobs.len()
    &&& jobs[i].id == id
    &&& forall|j: int| 0 <= j < i ==> jobs[j].id != id
}

impl DownloadScheduler {
    /// An empty scheduler whose first job gets id 1.
    pub fn new() -> (s: Self)
        ensures
            s.jobs@.len() == 0,
            s.next_id == 1,
    {
        DownloadScheduler { jobs: Vec::new(), next_id: 1 }
    }

    /// Adds an enabled job, first due at its next run at or after `now` (its
    /// start when there is none), and returns its id; ids count up,
    /// wrapping around.
    pub fn add_job(&mut self, name: String, spec: ScheduleSpec, config: DownloadConfig, now: i128) -> (id: u64)
        requires
            valid_spec(spec),
            valid_time(now as int),
        ensures
            id == old(self).next_id,
            final(self).next_id == if old(self).next_id == u64::MAX {
                0
            } else {
                (old(self).next_id + 1) as u64
            },
            final(self).jobs@ == old(self).jobs@.push(
                ScheduledDownload {
                    id,
                    name,
                    spec,
                    next_run: match next_time(spec, now) {
                        Some(t) => t,
                        None => spec.start_at_nanos,
                    },
                    enabled: true,
                    config,
                },
            ),
    {
        let id = self.next_id;
        self.next_id = self.next_id.wrapping_add(1);
        let next_run = match spec.next_after(now) {
            Some(t) => t,
            None => spec.start_at_nanos,
        };
        self.jobs.push(ScheduledDownload { id, name, spec, next_run, enabled: true, config });
        id
    }

    /// Removes every job with `id`; tells whether there was one.
    pub fn remove_job(&mut self, id: u64) -> (removed: bool)
        ensures
            removed == exists|i: int| 0 <= i < old(self).jobs@.len() && #[trigger] old(self).jobs@[i].id == id,
            final(self).jobs@ == old(self).jobs@.filter(|j: ScheduledDownload| j.id != id),
            final(self).next_id == old(self).next_id,
    {
        let mut jobs: Vec<ScheduledDownload> = Vec::new();
        std::mem::swap(&mut jobs, &mut self.jobs);
        let ghost all = jobs@;
        let mut kept: Vec<ScheduledDownload> = Vec::new();
        let mut found = false;
        let mut i: usize = 0;
        assert(all.len() == jobs.len());
        reveal(Seq::filter);
        assert(all.take(0).filter(|j: ScheduledDownload| j.id != id) =~= Seq::<ScheduledDownload>::empty());
        while jobs.len() > 0
            invariant
                all.len() <= usize::MAX,
                i + jobs@.len() == all.len(),
                jobs@ == all.skip(i as int),
                kept@ == all.take(i as int).filter(|j: ScheduledDownload| j.id != id),
                found == exists|k: int| 0 <= k < i && #[trigger] all[k].id == id,
                self.next_id == old(self).next_id,
            decreases jobs.len(),
        {
            let job = jobs.remove(0);
            assert(all.take(i as int + 1).drop_last() =~= all.take(i as int));
            assert(all.take(i as int + 1).last() == job);
            assert(all[i as int] == job);
            reveal(Seq::filter);
            if job.id == id {
                found = true;
            } else {
                kept.push(job);
            }
            assert(jobs@ =~= all.skip(i as int + 1));
            i = i + 1;
        }
        assert(all.take(i as int) =~= all);
        self.jobs = kept;
        found
    }

    /// Copies of the jobs, in order.
    pub fn list_jobs(&self) -> (jobs: Vec<ScheduledDownload>)
        ensures
            jobs@.len() == self.jobs@.len(),
            forall|k: int| 0 <= k < jobs@.len() ==> same_job(#[trigger] jobs@[k], self.jobs@[k]),
    {
        let mut out: Vec<ScheduledDownload> = Vec::new();
        let mut i: usize = 0;
        while i < self.jobs.len()
            invariant
                i <= self.jobs@.len(),
                out@.len() == i,
                forall|k: int| 0 <= k < i ==> same_job(#[trigger] out@[k], self.jobs@[k]),
            decreases self.jobs.len() - i,
        {
            out.push(self.jobs[i].clone());
            i = i + 1;
        }
        out
    }

    /// Enables or disables the first job with `id`; tells whether there
    /// was one.
    pub fn set_enabled(&mut self, id: u64, enabled: bool) -> (found: bool)
        ensures
            found == exists|i: int| 0 <= i < old(self).jobs@.len() && #[trigger] old(self).jobs@[i].id == id,
            !found ==> *final(self) == *old(self),
            forall|i: int|
                first_job_with_id(old(self).jobs@, id, i) ==> final(self).jobs@ == old(
                    self,
                ).jobs@.update(i, ScheduledDownload { enabled, ..old(self).jobs@[i] }),
            final(self).next_id == old(self).next_id,
    {
        let mut i: usize = 0;
        while i < self.jobs.len()
            invariant
                i <= self.jobs@.len(),
                *self == *old(self),
                forall|j: int| 0 <= j < i ==> self.jobs@[j].id != id,
            decreases self.jobs.len() - i,
        {
            if self.jobs[i].id == id {
                assert(first_job_with_id(old(self).jobs@, id, i as int));
                self.jobs[i].enabled = enabled;
                return true;
            }
            i = i + 1;
        }
        false
    }

    /// One timer tick at `now`: returns copies of the due jobs, in order,
    /// and moves each of them on to its next run after `now` plus a
    /// millisecond, disabling those that have none.
    pub fn collect_due(&mut self, now: i128) -> (due: Vec<ScheduledDownload>)
        requires
            valid_time(now as int),
            valid_time(now + 1000000),
            forall|i: int| 0 <= i < old(self).jobs@.len() ==> valid_spec(#[trigger] old(self).jobs@[i].spec),
        ensures
            final(self).jobs@ == old(self).jobs@.map_values(|j: ScheduledDownload| after_tick(j, now)),
            final(self).next_id == old(self).next_id,
            due@.len() == due_indices(old(self).jobs@, now).len(),
            forall|k: int|
                0 <= k < due@.len() ==> same_job(
                    #[trigger] due@[k],
                    old(self).jobs@[due_indices(old(self).jobs@, now)[k]],
                ),
    {
        let ghost start = self.jobs@;
        let mut due: Vec<ScheduledDownload> = Vec::new();
        let mut i: usize = 0;
        proof {
            lemma_due_indices_bounded(start, now);
        }
        assert(start.take(0) =~= Seq::<ScheduledDownload>::empty());
        while i < self.jobs.len()
            invariant
                i <= self.jobs@.len(),
                start.len() == self.jobs@.len(),
                start == old(self).jobs@,
                self.next_id == old(self).next_id,
                valid_time(now as int),
                valid_time(now + 1000000),
                forall|j: int| 0 <= j < start.len() ==> valid_spec(#[trigger] start[j].spec),
                forall|j: int| 0 <= j < i ==> self.jobs@[j] == after_tick(#[trigger] start[j], now),
                forall|j: int| i <= j < start.len() ==> self.jobs@[j] == start[j],
                due@.len() == due_indices(start.take(i as int), now).len(),
                forall|k: int|
                    0 <= k < due@.len() ==> same_job(
                        #[trigger] due@[k],
                        start[due_indices(start.take(i as int), now)[k]],
                    ),
            decreases self.jobs.len() - i,
        {
            assert(start.take(i as int + 1).drop_last() =~= start.take(i as int));
            assert(start.take(i as int + 1).last() == start[i as int]);
            proof {
                lemma_due_indices_bounded(start.take(i as int), now);
            }
            let job = &self.jobs[i];
            if job.enabled && now >= job.next_run {
                due.push(job.clone());
                let spec = job.spec;
                match spec.next_after(now + 1000000) {
                    Some(n) => {
                        self.jobs[i].next_run = n;
                    },
                    None => {
                        self.jobs[i].enabled = false;
                    },
                }
            }
            assert forall|k: int|
                0 <= k < due@.len() implies same_job(
                #[trigger] due@[k],
                start[due_indices(start.take(i as int + 1), now)[k]],
            ) by {
                if k < due_indices(start.take(i as int), now).len() {
                    assert(due_indices(start.take(i as int + 1), now)[k] == due_indices(
                        start.take(i as int),
                        now,
                    )[k]);
                }
            }
            i = i + 1;
        }
        assert(start.take(start.len() as int) =~= start);
        assert(self.jobs@ =~= start.map_values(|j: ScheduledDownload| after_tick(j, now)));
        due
    }
}

} // verus!
