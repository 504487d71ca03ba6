//! The job registry and its dispatch rule.

use crate::jobs::Job;
use vstd::prelude::*;

verus! {

/// `now + interval`, held at the largest instant when it would pass it.
pub open spec fn advance(now: u64, interval: u64) -> u64 {
    if now + interval <= u64::MAX {
        (now + interval) as u64
    } else {
        u64::MAX
    }
}

/// The scheduling part of a job's state: when it is next due, and its
/// interval.
pub struct Schedule {
    pub next_run: u64,
    pub interval: u64,
}

/// One tick of the dispatch rule at instant `now`: a job due at or before
/// `now` is dispatched and becomes due one interval after `now`; any other
/// job is left as it is. The second component tells whether it was
/// dispatched.
pub open spec fn tick(s: Schedule, now: u64) -> (Schedule, bool) {
    if s.next_run <= now {
        (Schedule { next_run: advance(now, s.interval), ..s }, true)
    } else {
        (s, false)
    }
}

/// Two successive dispatches of one job are at least one interval apart: a
/// job dispatched at `t1` is not dispatched again by a tick before
/// `t1 + interval`.
pub proof fn lemma_dispatch_spacing(s: Schedule, t1: u64, t2: u64)
    requires
        tick(s, t1).1,
        t1 + s.interval <= u64::MAX,
    ensures
        tick(tick(s, t1).0, t2).1 ==> t2 >= t1 + s.interval,
        tick(tick(s, t1).0, t2).0.interval == s.interval,
{
}

/// A tick that does not dispatch a job leaves its schedule as it was, so the
/// spacing above carries over any number of idle ticks.
pub proof fn lemma_idle_tick_keeps_schedule(s: Schedule, now: u64)
    ensures
        !tick(s, now).1 ==> tick(s, now).0 == s,
        !tick(s, now).1 <==> now < s.next_run,
{
}

/// The schedule after the ticks at `times[0..k]`.
pub open spec fn after_ticks(s: Schedule, times: Seq<u64>, k: nat) -> Schedule
    decreases k,
{
    if k == 0 {
        s
    } else {
        tick(after_ticks(s, times, (k - 1) as nat), times[k - 1]).0
    }
}

/// Whether the tick at `times[k]` dispatches the job.
pub open spec fn dispatched_at(s: Schedule, times: Seq<u64>, k: nat) -> bool {
    tick(after_ticks(s, times, k), times[k as int]).1
}

proof fn lemma_next_run_stays_ahead(s: Schedule, times: Seq<u64>, i: nat, m: nat)
    requires
        i < m <= times.len(),
        dispatched_at(s, times, i),
        times[i as int] + s.interval <= u64::MAX,
        forall|a: int, b: int| 0 <= a <= b < times.len() ==> times[a] <= times[b],
    ensures
        after_ticks(s, times, m).next_run >= times[i as int] + s.interval,
        after_ticks(s, times, m).interval == s.interval,
    decreases m,
{
    lemma_interval_kept(s, times, m);
    lemma_interval_kept(s, times, (m - 1) as nat);
    if m > i + 1 {
        lemma_next_run_stays_ahead(s, times, i, (m - 1) as nat);
        assert(times[i as int] <= times[m - 1]);
    } else {
        lemma_interval_kept(s, times, i);
    }
}

proof fn lemma_interval_kept(s: Schedule, times: Seq<u64>, k: nat)
    requires
        k <= times.len(),
    ensures
        after_ticks(s, times, k).interval == s.interval,
    decreases k,
{
    if k > 0 {
        lemma_interval_kept(s, times, (k - 1) as nat);
    }
}

/// Over any run of ticks at non-decreasing instants, every dispatch of a job
/// after one at `times[i]` comes at least one interval later.
pub proof fn lemma_dispatches_spaced(s: Schedule, times: Seq<u64>, i: nat, j: nat)
    requires
        i < j < times.len(),
        forall|a: int, b: int| 0 <= a <= b < times.len() ==> times[a] <= times[b],
        dispatched_at(s, times, i),
        dispatched_at(s, times, j),
        times[i as int] + s.interval <= u64::MAX,
    ensures
        times[j as int] >= times[i as int] + s.interval,
{
    lemma_next_run_stays_ahead(s, times, i, j);
}

/// A job and the instant (monotonic milliseconds) at which it is next due.
pub struct JobState {
    pub job: Job,
    pub next_run: u64,
}

impl JobState {
    pub open spec fn schedule(&self) -> Schedule {
        Schedule { next_run: self.next_run, interval: self.job.interval }
    }

    /// A job due at once.
    pub fn new(job: Job, now: u64) -> (r: JobState)
        ensures
            r.job == job,
            r.next_run == now,
    {
        JobState { job, next_run: now }
    }

    pub fn next_run(&self) -> (r: u64)
        ensures
            r == self.next_run,
    {
        self.next_run
    }

    pub fn interval(&self) -> (r: u64)
        ensures
            r == self.job.interval,
    {
        self.job.interval
    }

    /// Makes the job due one interval after `current_time`.
    pub fn set_next_run(&mut self, current_time: u64)
        ensures
            final(self).job == old(self).job,
            final(self).next_run == advance(current_time, old(self).job.interval),
    {
        let interval = self.job.interval;
        self.next_run = if current_time <= u64::MAX - interval {
            current_time + interval
        } else {
            u64::MAX
        };
    }
}

/// Pretty names of the registered jobs, in order.
pub open spec fn names(s: Seq<JobState>) -> Seq<Seq<char>> {
    s.map_values(|j: JobState| j.job.pretty_name@)
}

/// Some job of `r` has the pretty name `name`.
pub open spec fn holds_name(r: Seq<JobState>, name: Seq<char>) -> bool {
    exists|q: int| 0 <= q < r.len() && #[trigger] r[q].job.pretty_name@ == name
}

/// `job` is one of `jobs[0..k]` that no later one of them replaces: no job
/// after it has its pretty name.
pub open spec fn last_job_of_name(jobs: Seq<Job>, k: int, job: Job) -> bool {
    exists|i: int|
        0 <= i < k && #[trigger] jobs[i] == job && forall|j: int| i < j < k ==> #[trigger] jobs[j].pretty_name@ != job.pretty_name@
}

proof fn lemma_append_keeps_contents(old_r: Seq<JobState>, new_r: Seq<JobState>, input: Seq<Job>, k: int, now: u64)
    requires
        0 <= k < input.len(),
        forall|a: int, b: int|
            0 <= a < b < old_r.len() ==> #[trigger] old_r[a].job.pretty_name@ != #[trigger] old_r[b].job.pretty_name@,
        forall|i: int| 0 <= i < k ==> holds_name(old_r, #[trigger] input[i].pretty_name@),
        forall|q: int| 0 <= q < old_r.len() ==> last_job_of_name(input, k, #[trigger] old_r[q].job),
        match (exists|i: int| 0 <= i < old_r.len() && #[trigger] old_r[i].job.pretty_name@ == input[k].pretty_name@) {
            true => exists|i: int| 0 <= i < old_r.len()
                && old_r[i].job.pretty_name@ == input[k].pretty_name@
                && new_r == #[trigger] old_r.update(i, JobState { job: input[k], next_run: now }),
            false => new_r == old_r.push(JobState { job: input[k], next_run: now }),
        },
    ensures
        forall|i: int| 0 <= i < k + 1 ==> holds_name(new_r, #[trigger] input[i].pretty_name@),
        forall|q: int| 0 <= q < new_r.len() ==> last_job_of_name(input, k + 1, #[trigger] new_r[q].job),
{
    let job = input[k];
    let name = job.pretty_name@;
    if exists|i: int| 0 <= i < old_r.len() && #[trigger] old_r[i].job.pretty_name@ == name {
        let p = choose|i: int| 0 <= i < old_r.len() && old_r[i].job.pretty_name@ == name
            && new_r == #[trigger] old_r.update(i, JobState { job: input[k], next_run: now });
        assert(new_r.len() == old_r.len());
        assert forall|i: int| 0 <= i < k + 1 implies holds_name(new_r, #[trigger] input[i].pretty_name@) by {
            if i == k {
                assert(new_r[p].job.pretty_name@ == name);
            } else {
                let q = choose|q: int| 0 <= q < old_r.len() && #[trigger] old_r[q].job.pretty_name@ == input[i].pretty_name@;
                if q == p {
                    assert(new_r[p].job.pretty_name@ == input[i].pretty_name@);
                } else {
                    assert(new_r[q] == old_r[q]);
                }
            }
        }
        assert forall|q: int| 0 <= q < new_r.len() implies last_job_of_name(input, k + 1, #[trigger] new_r[q].job) by {
            if q == p {
                assert(input[k] == new_r[q].job);
            } else {
                assert(new_r[q] == old_r[q]);
                assert(last_job_of_name(input, k, old_r[q].job));
                let i = choose|i: int|
                    0 <= i < k && #[trigger] input[i] == old_r[q].job && forall|j: int|
                        i < j < k ==> #[trigger] input[j].pretty_name@ != old_r[q].job.pretty_name@;
                if q < p {
                    assert(old_r[q].job.pretty_name@ != old_r[p].job.pretty_name@);
                } else {
                    assert(old_r[p].job.pretty_name@ != old_r[q].job.pretty_name@);
                }
                assert forall|j: int| i < j < k + 1 implies #[trigger] input[j].pretty_name@ != new_r[q].job.pretty_name@ by {
                    if j == k {
                        assert(input[j].pretty_name@ == old_r[p].job.pretty_name@);
                    }
                }
            }
        }
    } else {
        assert(new_r == old_r.push(JobState { job: input[k], next_run: now }));
        assert forall|i: int| 0 <= i < k + 1 implies holds_name(new_r, #[trigger] input[i].pretty_name@) by {
            if i == k {
                assert(new_r[old_r.len() as int].job.pretty_name@ == name);
            } else {
                let q = choose|q: int| 0 <= q < old_r.len() && #[trigger] old_r[q].job.pretty_name@ == input[i].pretty_name@;
                assert(new_r[q] == old_r[q]);
            }
        }
        assert forall|q: int| 0 <= q < new_r.len() implies last_job_of_name(input, k + 1, #[trigger] new_r[q].job) by {
            if q == old_r.len() {
                assert(input[k] == new_r[q].job);
            } else {
                assert(new_r[q] == old_r[q]);
                assert(last_job_of_name(input, k, old_r[q].job));
                let i = choose|i: int|
                    0 <= i < k && #[trigger] input[i] == old_r[q].job && forall|j: int|
                        i < j < k ==> #[trigger] input[j].pretty_name@ != old_r[q].job.pretty_name@;
                assert forall|j: int| i < j < k + 1 implies #[trigger] input[j].pretty_name@ != new_r[q].job.pretty_name@ by {
                    if j == k {
                        if input[j].pretty_name@ == new_r[q].job.pretty_name@ {
                            assert(old_r[q].job.pretty_name@ == name);
                        }
                    }
                }
            }
        }
    }
}

/// All jobs, keyed by pretty name: no two share one.
pub struct JobRegistry {
    pub jobs: Vec<JobState>,
}

impl JobRegistry {
    pub open spec fn wf(&self) -> bool {
        forall|i: int, j: int|
            0 <= i < j < self.jobs@.len() ==> #[trigger] self.jobs@[i].job.pretty_name@
                != #[trigger] self.jobs@[j].job.pretty_name@
    }

    pub fn new() -> (r: JobRegistry)
        ensures
            r.wf(),
            r.jobs@.len() == 0,
    {
        JobRegistry { jobs: Vec::new() }
    }

    /// Registers `job`, due at `now`. A job with the same pretty name is
    /// replaced in place; otherwise the job is added at the end.
    pub fn append(&mut self, job: Job, now: u64)
        requires
            old(self).wf(),
        ensures
            final(self).wf(),
            match (exists|i: int| 0 <= i < old(self).jobs@.len()
                && #[trigger] old(self).jobs@[i].job.pretty_name@ == job.pretty_name@) {
                true => exists|i: int| 0 <= i < old(self).jobs@.len()
                    && old(self).jobs@[i].job.pretty_name@ == job.pretty_name@
                    && #[trigger] final(self).jobs@ == old(self).jobs@.update(i, JobState { job, next_run: now }),
                false => final(self).jobs@ == old(self).jobs@.push(JobState { job, next_run: now }),
            },
    {
        let n = self.jobs.len();
        let mut i: usize = 0;
        while i < n
            invariant
                n == self.jobs@.len(),
                i <= n,
                self.jobs@ == old(self).jobs@,
                old(self).wf(),
                forall|k: int| 0 <= k < i ==> #[trigger] self.jobs@[k].job.pretty_name@ != job.pretty_name@,
            decreases n - i,
        {
            if self.jobs[i].job.pretty_name == job.pretty_name {
                let ghost before = self.jobs@;
                self.jobs.set(i, JobState::new(job, now));
                assert(before[i as int].job.pretty_name@ == self.jobs@[i as int].job.pretty_name@);
                assert(self.jobs@ == before.update(i as int, JobState { job, next_run: now }));
                assert forall|a: int, b: int|
                    0 <= a < b < self.jobs@.len() implies #[trigger] self.jobs@[a].job.pretty_name@
                        != #[trigger] self.jobs@[b].job.pretty_name@ by {
                    assert(before[a].job.pretty_name@ == self.jobs@[a].job.pretty_name@);
                    assert(before[b].job.pretty_name@ == self.jobs@[b].job.pretty_name@);
                }
                return;
            }
            i = i + 1;
        }
        let ghost before = self.jobs@;
        self.jobs.push(JobState::new(job, now));
        assert forall|a: int, b: int|
            0 <= a < b < self.jobs@.len() implies #[trigger] self.jobs@[a].job.pretty_name@
                != #[trigger] self.jobs@[b].job.pretty_name@ by {
            if b == n {
                assert(before[a].job.pretty_name@ == self.jobs@[a].job.pretty_name@);
            } else {
                assert(before[a].job.pretty_name@ == self.jobs@[a].job.pretty_name@);
                assert(before[b].job.pretty_name@ == self.jobs@[b].job.pretty_name@);
            }
        }
    }

    /// A registry of the given jobs, all due at `now`; of two jobs with one
    /// pretty name the later one stays.
    pub fn from_static_config(jobs: Vec<Job>, now: u64) -> (r: JobRegistry)
        ensures
            r.wf(),
            forall|i: int| 0 <= i < r.jobs@.len() ==> #[trigger] r.jobs@[i].next_run == now,
            forall|i: int| 0 <= i < jobs@.len() ==> holds_name(r.jobs@, #[trigger] jobs@[i].pretty_name@),
            forall|q: int| 0 <= q < r.jobs@.len() ==> last_job_of_name(jobs@, jobs@.len() as int, #[trigger] r.jobs@[q].job),
    {
        let ghost input = jobs@;
        let mut registry = JobRegistry::new();
        let mut jobs = jobs;
        let ghost mut k: int = 0;
        while jobs.len() > 0
            invariant
                0 <= k <= input.len(),
                jobs@ == input.subrange(k, input.len() as int),
                registry.wf(),
                forall|i: int| 0 <= i < registry.jobs@.len() ==> #[trigger] registry.jobs@[i].next_run == now,
                forall|i: int| 0 <= i < k ==> holds_name(registry.jobs@, #[trigger] input[i].pretty_name@),
                forall|q: int| 0 <= q < registry.jobs@.len() ==> last_job_of_name(input, k, #[trigger] registry.jobs@[q].job),
            decreases jobs@.len(),
        {
            let ghost before = registry.jobs@;
            let job = jobs.remove(0);
            assert(job == input[k]);
            registry.append(job, now);
            proof {
                lemma_append_keeps_contents(before, registry.jobs@, input, k, now);
                k = k + 1;
            }
        }
        registry
    }

    pub fn len(&self) -> (r: usize)
        ensures
            r == self.jobs@.len(),
    {
        self.jobs.len()
    }

    /// The job at position `i`.
    pub fn job(&self, i: usize) -> (r: &Job)
        requires
            i < self.jobs@.len(),
        ensures
            *r == self.jobs@[i as int].job,
    {
        &self.jobs[i].job
    }

    /// One pass of the scheduler at instant `now`: every job due at or before
    /// `now` becomes due one interval after `now` and is returned for
    /// dispatch, by position, in order. Others are left alone.
    pub fn tick(&mut self, now: u64) -> (due: Vec<usize>)
        requires
            old(self).wf(),
        ensures
            final(self).wf(),
            final(self).jobs@.len() == old(self).jobs@.len(),
            forall|i: int| 0 <= i < old(self).jobs@.len() ==> {
                &&& #[trigger] final(self).jobs@[i].job == old(self).jobs@[i].job
                &&& final(self).jobs@[i].schedule() == tick(old(self).jobs@[i].schedule(), now).0
                &&& (due@.contains(i as usize) <==> tick(old(self).jobs@[i].schedule(), now).1)
            },
            forall|a: int, b: int| 0 <= a < b < due@.len() ==> due@[a] < due@[b],
            forall|a: int| 0 <= a < due@.len() ==> #[trigger] due@[a] < final(self).jobs@.len(),
    {
        let n = self.jobs.len();
        let mut due: Vec<usize> = Vec::new();
        let mut i: usize = 0;
        while i < n
            invariant
                n == self.jobs@.len() == old(self).jobs@.len(),
                i <= n,
                forall|k: int| 0 <= k < n ==> #[trigger] self.jobs@[k].job == old(self).jobs@[k].job,
                forall|k: int| 0 <= k < i ==> #[trigger] self.jobs@[k].schedule() == tick(old(self).jobs@[k].schedule(), now).0,
                forall|k: int| i <= k < n ==> #[trigger] self.jobs@[k] == old(self).jobs@[k],
                forall|k: int| 0 <= k < i ==> (due@.contains(k as usize) <==> #[trigger] tick(old(self).jobs@[k].schedule(), now).1),
                forall|a: int| 0 <= a < due@.len() ==> #[trigger] due@[a] < i,
                forall|a: int, b: int| 0 <= a < b < due@.len() ==> due@[a] < due@[b],
                old(self).wf(),
            decreases n - i,
        {
            let ghost due_before = due@;
            if self.jobs[i].next_run <= now {
                let ghost before = self.jobs@;
                let mut state = self.jobs.remove(i);
                state.set_next_run(now);
                self.jobs.insert(i, state);
                assert(self.jobs@ =~= before.update(i as int, state));
                due.push(i);
                assert(due@ == due_before.push(i));
                assert(due@[due@.len() - 1] == i);
                assert(due@.contains(i));
            }
            assert forall|k: int| 0 <= k <= i implies (due@.contains(k as usize) <==> #[trigger] tick(
                old(self).jobs@[k].schedule(),
                now,
            ).1) by {
                if k < i {
                    if due_before.contains(k as usize) {
                        let x = choose|x: int| 0 <= x < due_before.len() && due_before[x] == k as usize;
                        assert(due@[x] == k as usize);
                    }
                    if due@.contains(k as usize) {
                        let x = choose|x: int| 0 <= x < due@.len() && due@[x] == k as usize;
                        if x < due_before.len() {
                            assert(due_before[x] == k as usize);
                        }
                    }
                } else if !tick(old(self).jobs@[k].schedule(), now).1 {
                    assert(due@ == due_before);
                    if due@.contains(k as usize) {
                        let x = choose|x: int| 0 <= x < due@.len() && due@[x] == k as usize;
                    }
                }
            }
            i = i + 1;
        }
        assert forall|a: int, b: int|
            0 <= a < b < self.jobs@.len() implies #[trigger] self.jobs@[a].job.pretty_name@
                != #[trigger] self.jobs@[b].job.pretty_name@ by {
            assert(self.jobs@[a].job == old(self).jobs@[a].job);
            assert(self.jobs@[b].job == old(self).jobs@[b].job);
        }
        due
    }
}

} // verus!
