//! One-shot escalation notices for jobs still in the queue: a job pending
//! longer than the configured threshold, and a running job past a share of
//! its walltime. Each is announced once while the job stays in the queue;
//! the memory of a notice is dropped when the job leaves, so a resubmitted
//! id can be announced again.
use vstd::prelude::*;

use crate::disks::NotifiedSet;
use crate::notify_filter::{overdue, pending_too_long, walltime_pct, walltime_share};
use crate::squeue::{jobs_view, JobStatus, JobView};
use crate::text::{chars_of, has_prefix, keep_some, lemma_keep_some_step, same_text, starts_with};

verus! {

broadcast use vstd::string::group_string_axioms;

/// When each job id was first seen pending, in epoch seconds, in the order
/// the ids were first seen.
pub struct FirstSeen {
    entries: Vec<(String, u64)>,
}

impl View for FirstSeen {
    type V = Seq<(Seq<char>, u64)>;

    closed spec fn view(&self) -> Seq<(Seq<char>, u64)> {
        self.entries@.map_values(|e: (String, u64)| (e.0@, e.1))
    }
}

/// The time recorded for `id`: that of its first entry.
pub open spec fn seen_at(s: Seq<(Seq<char>, u64)>, id: Seq<char>) -> Option<u64> {
    if exists|k: int| 0 <= k < s.len() && s[k].0 == id {
        Some(
            s[choose|k: int|
                0 <= k < s.len() && s[k].0 == id && forall|j: int| 0 <= j < k ==> s[j].0 != id].1,
        )
    } else {
        None
    }
}

/// Some job of `jobs` has this id.
pub open spec fn listed(jobs: Seq<JobView>, id: Seq<char>) -> bool {
    exists|k: int| 0 <= k < jobs.len() && jobs[k].id == id
}

/// Some job of `jobs` with this id is pending.
pub open spec fn listed_pending(jobs: Seq<JobView>, id: Seq<char>) -> bool {
    exists|k: int| 0 <= k < jobs.len() && jobs[k].id == id && has_prefix(jobs[k].state, "PENDING"@)
}

/// The entries of jobs still pending.
pub open spec fn still_pending(s: Seq<(Seq<char>, u64)>, jobs: Seq<JobView>) -> Seq<(Seq<char>, u64)> {
    keep_some(
        s.map_values(
            |e: (Seq<char>, u64)|
                if listed_pending(jobs, e.0) {
                    Some(e)
                } else {
                    None
                },
        ),
    )
}

impl FirstSeen {
    pub fn new() -> (r: Self)
        ensures
            r@ == Seq::<(Seq<char>, u64)>::empty(),
    {
        let r = FirstSeen { entries: Vec::new() };
        assert(r@ =~= Seq::<(Seq<char>, u64)>::empty());
        r
    }

    /// The time recorded for `id`; `now` is recorded first when there is
    /// none (`entry(id).or_insert(now)`).
    pub fn get_or_insert(&mut self, id: &str, now: u64) -> (r: u64)
        ensures
            match seen_at(old(self)@, id@) {
                Some(t) => r == t && final(self)@ == old(self)@,
                None => r == now && final(self)@ == old(self)@.push((id@, now)),
            },
    {
        let ghost v = self@;
        let mut i: usize = 0;
        while i < self.entries.len()
            invariant
                i <= self.entries@.len(),
                v == self@,
                forall|j: int| 0 <= j < i ==> v[j].0 != id@,
            decreases self.entries.len() - i,
        {
            if same_text(self.entries[i].0.as_str(), id) {
                proof {
                    assert(v[i as int].0 == id@);
                    let k = choose|k: int|
                        0 <= k < v.len() && v[k].0 == id@ && forall|j: int| 0 <= j < k ==> v[j].0 != id@;
                    assert(k == i as int) by {
                        if k < i {
                            assert(v[k].0 != id@);
                        }
                        if i < k {
                            assert(v[i as int].0 != id@);
                        }
                    }
                }
                return self.entries[i].1;
            }
            i = i + 1;
        }
        self.entries.push((String::from_str(id), now));
        assert(self@ =~= v.push((id@, now)));
        now
    }

    /// Keep only the entries of jobs that are still pending.
    pub fn keep_pending(&mut self, jobs: &[JobStatus])
        ensures
            final(self)@ == still_pending(old(self)@, jobs_view(jobs@)),
    {
        let ghost v = self@;
        let ghost jv = jobs_view(jobs@);
        let ghost opts = v.map_values(
            |e: (Seq<char>, u64)|
                if listed_pending(jv, e.0) {
                    Some(e)
                } else {
                    None
                },
        );
        let mut kept: Vec<(String, u64)> = Vec::new();
        let mut i: usize = 0;
        while i < self.entries.len()
            invariant
                i <= self.entries@.len(),
                v == self@,
                jv == jobs_view(jobs@),
                opts == v.map_values(
                    |e: (Seq<char>, u64)|
                        if listed_pending(jv, e.0) {
                            Some(e)
                        } else {
                            None
                        },
                ),
                kept@.map_values(|e: (String, u64)| (e.0@, e.1)) == keep_some(opts.take(i as int)),
            decreases self.entries.len() - i,
        {
            proof {
                lemma_keep_some_step(opts, i as int);
            }
            let id = self.entries[i].0.as_str();
            if pending_in(jobs, id) {
                let e = (String::from_str(id), self.entries[i].1);
                let ghost before = kept@;
                kept.push(e);
                assert(kept@.map_values(|e: (String, u64)| (e.0@, e.1)) =~= before.map_values(
                    |e: (String, u64)| (e.0@, e.1),
                ).push(v[i as int]));
            }
            i = i + 1;
        }
        assert(opts.take(self.entries@.len() as int) =~= opts);
        self.entries = kept;
    }
}

/// Whether a job of `jobs` with this id is pending.
fn pending_in(jobs: &[JobStatus], id: &str) -> (b: bool)
    ensures
        b == listed_pending(jobs_view(jobs@), id@),
{
    let ghost jv = jobs_view(jobs@);
    let prefix = chars_of("PENDING");
    let mut i: usize = 0;
    while i < jobs.len()
        invariant
            i <= jobs@.len(),
            jv == jobs_view(jobs@),
            prefix@ == "PENDING"@,
            forall|k: int|
                0 <= k < i ==> !(jv[k].id == id@ && has_prefix(jv[k].state, "PENDING"@)),
        decreases jobs.len() - i,
    {
        if same_text(jobs[i].id.as_str(), id) && starts_with(&chars_of(jobs[i].state.as_str()), &prefix) {
            assert(jv[i as int].id == id@);
            return true;
        }
        i = i + 1;
    }
    false
}

/// The ids of `jobs`.
pub open spec fn job_ids(jobs: Seq<JobView>) -> Set<Seq<char>> {
    Set::new(|id: Seq<char>| listed(jobs, id))
}

/// The names of `set` that some job of `jobs` still has as its id.
fn still_listed(set: &NotifiedSet, jobs: &[JobStatus]) -> (r: NotifiedSet)
    ensures
        r@ == set@.intersect(job_ids(jobs_view(jobs@))),
{
    let ghost jv = jobs_view(jobs@);
    let mut r = NotifiedSet::new();
    let mut i: usize = 0;
    while i < jobs.len()
        invariant
            i <= jobs@.len(),
            jv == jobs_view(jobs@),
            r@ == set@.intersect(job_ids(jv.take(i as int))),
        decreases jobs.len() - i,
    {
        let id = jobs[i].id.as_str();
        let ghost before = r@;
        if set.contains(id) {
            r.insert(id);
        }
        proof {
            let t = jv.take(i + 1);
            assert forall|x: Seq<char>| listed(t, x) <==> listed(jv.take(i as int), x) || x == jv[i as int].id by {
                if listed(t, x) {
                    let k = choose|k: int| 0 <= k < t.len() && t[k].id == x;
                    if k < i {
                        assert(jv.take(i as int)[k].id == x);
                    }
                }
                if listed(jv.take(i as int), x) {
                    let k = choose|k: int| 0 <= k < i && jv.take(i as int)[k].id == x;
                    assert(t[k].id == x);
                }
                if x == jv[i as int].id {
                    assert(t[i as int].id == x);
                }
            }
            assert(r@ =~= set@.intersect(job_ids(t)));
        }
        i = i + 1;
    }
    assert(jv.take(jobs@.len() as int) =~= jv);
    r
}

/// An escalation notice, by the index of the job in the snapshot.
#[derive(Debug, Clone, Copy, PartialEq, Eq)]
pub enum Notice {
    /// The job has been pending longer than the threshold.
    PendingTooLong(usize),
    /// The running job has used the configured share of its walltime.
    WalltimeCrossed(usize),
}

pub struct EscalationView {
    pub since: Seq<(Seq<char>, u64)>,
    pub pending: Set<Seq<char>>,
    pub walltime: Set<Seq<char>>,
}

/// What the poller remembers between snapshots for escalation notices.
pub struct Escalation {
    since: FirstSeen,
    pending: NotifiedSet,
    walltime: NotifiedSet,
}

impl View for Escalation {
    type V = EscalationView;

    closed spec fn view(&self) -> EscalationView {
        EscalationView { since: self.since@, pending: self.pending@, walltime: self.walltime@ }
    }
}

/// One job of the snapshot, at index `i`, checked for a notice: a pending
/// job is timed from when it was first seen pending and announced once
/// overdue; a running job is announced once its walltime share reaches
/// `pct` (off when `pct` is 0).
#[verifier::opaque]
pub open spec fn escalation_step(
    st: EscalationView,
    job: JobView,
    i: int,
    now: u64,
    after: u64,
    pct: u32,
) -> (EscalationView, Option<Notice>) {
    if has_prefix(job.state, "PENDING"@) {
        let first = match seen_at(st.since, job.id) {
            Some(t) => t,
            None => now,
        };
        let since = match seen_at(st.since, job.id) {
            Some(t) => st.since,
            None => st.since.push((job.id, now)),
        };
        let queued: nat = if now >= first {
            (now - first) as nat
        } else {
            0
        };
        if !st.pending.contains(job.id) && overdue(queued, after as nat) {
            (
                EscalationView { since, pending: st.pending.insert(job.id), ..st },
                Some(Notice::PendingTooLong(i as usize)),
            )
        } else {
            (EscalationView { since, ..st }, None)
        }
    } else if has_prefix(job.state, "RUNNING"@) {
        if pct > 0 && !st.walltime.contains(job.id) && (walltime_share(job.time, job.time_limit) matches Some(p) && p >= pct) {
            (
                EscalationView { walltime: st.walltime.insert(job.id), ..st },
                Some(Notice::WalltimeCrossed(i as usize)),
            )
        } else {
            (st, None)
        }
    } else {
        (st, None)
    }
}

/// The jobs checked in order, with the notices they raise.
pub open spec fn escalation_fold(
    st: EscalationView,
    jobs: Seq<JobView>,
    now: u64,
    after: u64,
    pct: u32,
) -> (EscalationView, Seq<Notice>)
    decreases jobs.len(),
{
    if jobs.len() == 0 {
        (st, Seq::empty())
    } else {
        let prev = escalation_fold(st, jobs.drop_last(), now, after, pct);
        let step = escalation_step(prev.0, jobs.last(), jobs.len() - 1, now, after, pct);
        (
            step.0,
            match step.1 {
                Some(n) => prev.1.push(n),
                None => prev.1,
            },
        )
    }
}

/// What is forgotten after a snapshot: notices of jobs no longer listed,
/// and first-pending times of jobs no longer pending.
pub open spec fn forget_gone(st: EscalationView, jobs: Seq<JobView>) -> EscalationView {
    EscalationView {
        since: still_pending(st.since, jobs),
        pending: st.pending.intersect(job_ids(jobs)),
        walltime: st.walltime.intersect(job_ids(jobs)),
    }
}

/// The state after a snapshot, and the notices it raised.
pub open spec fn after_tick(
    st: EscalationView,
    jobs: Seq<JobView>,
    now: u64,
    after: u64,
    pct: u32,
) -> (EscalationView, Seq<Notice>) {
    let f = escalation_fold(st, jobs, now, after, pct);
    (forget_gone(f.0, jobs), f.1)
}

impl Escalation {
    pub fn new() -> (r: Self)
        ensures
            r@ == (EscalationView {
                since: Seq::empty(),
                pending: Set::empty(),
                walltime: Set::empty(),
            }),
    {
        Escalation { since: FirstSeen::new(), pending: NotifiedSet::new(), walltime: NotifiedSet::new() }
    }

    fn step(&mut self, job: &JobStatus, i: usize, now: u64, after: u64, pct: u32) -> (r: Option<Notice>)
        ensures
            (final(self)@, r) == escalation_step(old(self)@, job@, i as int, now, after, pct),
    {
        reveal(escalation_step);
        let state = chars_of(job.state.as_str());
        if starts_with(&state, &chars_of("PENDING")) {
            let first = self.since.get_or_insert(job.id.as_str(), now);
            let queued: u64 = if now >= first {
                now - first
            } else {
                0
            };
            if !self.pending.contains(job.id.as_str()) && pending_too_long(queued, after) {
                self.pending.insert(job.id.as_str());
                Some(Notice::PendingTooLong(i))
            } else {
                None
            }
        } else if starts_with(&state, &chars_of("RUNNING")) {
            if pct > 0 && !self.walltime.contains(job.id.as_str()) {
                match walltime_pct(job.time.as_str(), job.time_limit.as_str()) {
                    Some(p) => {
                        if p >= pct as u128 {
                            self.walltime.insert(job.id.as_str());
                            Some(Notice::WalltimeCrossed(i))
                        } else {
                            None
                        }
                    },
                    None => None,
                }
            } else {
                None
            }
        } else {
            None
        }
    }

    /// Check a snapshot of the queue: the notices it raises, in the order
    /// of the snapshot, after which everything about jobs that left the
    /// queue (and first-pending times of jobs no longer pending) is
    /// forgotten.
    pub fn tick(&mut self, current: &[JobStatus], now: u64, after_secs: u64, walltime_pct: u32) -> (notices: Vec<Notice>)
        ensures
            (final(self)@, notices@) == after_tick(
                old(self)@,
                jobs_view(current@),
                now,
                after_secs,
                walltime_pct,
            ),
    {
        let ghost start = self@;
        let ghost jv = jobs_view(current@);
        let mut notices: Vec<Notice> = Vec::new();
        let mut i: usize = 0;
        assert(jv.take(0) =~= Seq::<JobView>::empty());
        while i < current.len()
            invariant
                i <= current@.len(),
                jv == jobs_view(current@),
                (self@, notices@) == escalation_fold(start, jv.take(i as int), now, after_secs, walltime_pct),
            decreases current.len() - i,
        {
            proof {
                let t = jv.take(i + 1);
                assert(t.drop_last() =~= jv.take(i as int));
                assert(t.last() == jv[i as int]);
            }
            match self.step(&current[i], i, now, after_secs, walltime_pct) {
                Some(n) => notices.push(n),
                None => {},
            }
            i = i + 1;
        }
        assert(jv.take(current@.len() as int) =~= jv);
        self.since.keep_pending(current);
        self.pending = still_listed(&self.pending, current);
        self.walltime = still_listed(&self.walltime, current);
        notices
    }
}

// ---------------------------------------------------------------------------
// Laws
// ---------------------------------------------------------------------------

/// Some notice of `ns` announces a job of `jobs` with this id as pending
/// too long.
pub open spec fn pending_notice_for(ns: Seq<Notice>, jobs: Seq<JobView>, id: Seq<char>) -> bool {
    exists|n: int|
        0 <= n < ns.len() && (#[trigger] ns[n] matches Notice::PendingTooLong(i) && i < jobs.len() && jobs[i as int].id == id)
}

/// Some notice of `ns` announces a job of `jobs` with this id as past its
/// walltime share.
pub open spec fn walltime_notice_for(ns: Seq<Notice>, jobs: Seq<JobView>, id: Seq<char>) -> bool {
    exists|n: int|
        0 <= n < ns.len() && (#[trigger] ns[n] matches Notice::WalltimeCrossed(i) && i < jobs.len() && jobs[i as int].id == id)
}

proof fn lemma_step_facts(st: EscalationView, job: JobView, i: int, now: u64, after: u64, pct: u32)
    requires
        0 <= i <= usize::MAX,
    ensures
        ({
            let r = escalation_step(st, job, i, now, after, pct);
            &&& st.pending.subset_of(r.0.pending)
            &&& st.walltime.subset_of(r.0.walltime)
            &&& r.1 matches Some(Notice::PendingTooLong(k)) ==> k == i && r.0.pending.contains(job.id)
                && !st.pending.contains(job.id)
            &&& r.1 matches Some(Notice::WalltimeCrossed(k)) ==> k == i && r.0.walltime.contains(job.id)
                && !st.walltime.contains(job.id)
            &&& after == 0 ==> !(r.1 matches Some(Notice::PendingTooLong(_)))
            &&& pct == 0 ==> !(r.1 matches Some(Notice::WalltimeCrossed(_)))
        }),
{
    reveal(escalation_step);
}

proof fn lemma_fold_grows(st: EscalationView, jobs: Seq<JobView>, now: u64, after: u64, pct: u32)
    requires
        jobs.len() <= usize::MAX,
    ensures
        st.pending.subset_of(escalation_fold(st, jobs, now, after, pct).0.pending),
        st.walltime.subset_of(escalation_fold(st, jobs, now, after, pct).0.walltime),
    decreases jobs.len(),
{
    if jobs.len() > 0 {
        lemma_fold_grows(st, jobs.drop_last(), now, after, pct);
        let prev = escalation_fold(st, jobs.drop_last(), now, after, pct);
        lemma_step_facts(prev.0, jobs.last(), jobs.len() - 1, now, after, pct);
    }
}

proof fn lemma_fold_marks(st: EscalationView, jobs: Seq<JobView>, now: u64, after: u64, pct: u32)
    requires
        jobs.len() <= usize::MAX,
    ensures
        ({
            let f = escalation_fold(st, jobs, now, after, pct);
            forall|id: Seq<char>|
                pending_notice_for(f.1, jobs, id) ==> #[trigger] f.0.pending.contains(id)
        }),
        ({
            let f = escalation_fold(st, jobs, now, after, pct);
            forall|id: Seq<char>|
                walltime_notice_for(f.1, jobs, id) ==> #[trigger] f.0.walltime.contains(id)
        }),
        forall|n: int|
            0 <= n < escalation_fold(st, jobs, now, after, pct).1.len() ==> match #[trigger] escalation_fold(
                st,
                jobs,
                now,
                after,
                pct,
            ).1[n] {
                Notice::PendingTooLong(i) => i < jobs.len(),
                Notice::WalltimeCrossed(i) => i < jobs.len(),
            },
    decreases jobs.len(),
{
    if jobs.len() > 0 {
        let d = jobs.drop_last();
        lemma_fold_marks(st, d, now, after, pct);
        let prev = escalation_fold(st, d, now, after, pct);
        let step = escalation_step(prev.0, jobs.last(), jobs.len() - 1, now, after, pct);
        lemma_step_facts(prev.0, jobs.last(), jobs.len() - 1, now, after, pct);
        let f = escalation_fold(st, jobs, now, after, pct);
        assert(prev.0.pending.subset_of(step.0.pending));
        assert(prev.0.walltime.subset_of(step.0.walltime));
        assert forall|id: Seq<char>| pending_notice_for(f.1, jobs, id) implies #[trigger] f.0.pending.contains(
            id,
        ) by {
            let n = choose|n: int|
                0 <= n < f.1.len() && (#[trigger] f.1[n] matches Notice::PendingTooLong(i) && i < jobs.len()
                    && jobs[i as int].id == id);
            if n < prev.1.len() {
                assert(f.1[n] == prev.1[n]);
                if let Notice::PendingTooLong(i) = prev.1[n] {
                    assert(i < d.len());
                    assert(d[i as int] == jobs[i as int]);
                    assert(pending_notice_for(prev.1, d, id));
                }
            }
        }
        assert forall|id: Seq<char>| walltime_notice_for(f.1, jobs, id) implies #[trigger] f.0.walltime.contains(
            id,
        ) by {
            let n = choose|n: int|
                0 <= n < f.1.len() && (#[trigger] f.1[n] matches Notice::WalltimeCrossed(i) && i < jobs.len()
                    && jobs[i as int].id == id);
            if n < prev.1.len() {
                assert(f.1[n] == prev.1[n]);
                if let Notice::WalltimeCrossed(i) = prev.1[n] {
                    assert(i < d.len());
                    assert(d[i as int] == jobs[i as int]);
                    assert(walltime_notice_for(prev.1, d, id));
                }
            }
        }
        assert forall|n: int| 0 <= n < f.1.len() implies match #[trigger] f.1[n] {
            Notice::PendingTooLong(i) => i < jobs.len(),
            Notice::WalltimeCrossed(i) => i < jobs.len(),
        } by {
            if n < prev.1.len() {
                assert(f.1[n] == prev.1[n]);
            }
        }
    }
}

proof fn lemma_fold_no_repeat(
    st: EscalationView,
    jobs: Seq<JobView>,
    now: u64,
    after: u64,
    pct: u32,
    id: Seq<char>,
)
    requires
        jobs.len() <= usize::MAX,
    ensures
        st.pending.contains(id) ==> !pending_notice_for(
            escalation_fold(st, jobs, now, after, pct).1,
            jobs,
            id,
        ),
        st.walltime.contains(id) ==> !walltime_notice_for(
            escalation_fold(st, jobs, now, after, pct).1,
            jobs,
            id,
        ),
    decreases jobs.len(),
{
    if jobs.len() > 0 {
        let d = jobs.drop_last();
        lemma_fold_no_repeat(st, d, now, after, pct, id);
        lemma_fold_grows(st, d, now, after, pct);
        lemma_fold_marks(st, d, now, after, pct);
        let prev = escalation_fold(st, d, now, after, pct);
        lemma_step_facts(prev.0, jobs.last(), jobs.len() - 1, now, after, pct);
        let f = escalation_fold(st, jobs, now, after, pct);
        if st.pending.contains(id) && pending_notice_for(f.1, jobs, id) {
            let n = choose|n: int|
                0 <= n < f.1.len() && (#[trigger] f.1[n] matches Notice::PendingTooLong(i) && i < jobs.len()
                    && jobs[i as int].id == id);
            if n < prev.1.len() {
                assert(f.1[n] == prev.1[n]);
                if let Notice::PendingTooLong(i) = prev.1[n] {
                    assert(i < d.len());
                    assert(d[i as int] == jobs[i as int]);
                    assert(pending_notice_for(prev.1, d, id));
                }
            } else {
                assert(prev.0.pending.contains(id));
            }
        }
        if st.walltime.contains(id) && walltime_notice_for(f.1, jobs, id) {
            let n = choose|n: int|
                0 <= n < f.1.len() && (#[trigger] f.1[n] matches Notice::WalltimeCrossed(i) && i < jobs.len()
                    && jobs[i as int].id == id);
            if n < prev.1.len() {
                assert(f.1[n] == prev.1[n]);
                if let Notice::WalltimeCrossed(i) = prev.1[n] {
                    assert(i < d.len());
                    assert(d[i as int] == jobs[i as int]);
                    assert(walltime_notice_for(prev.1, d, id));
                }
            } else {
                assert(prev.0.walltime.contains(id));
            }
        }
    }
}

/// A job announced as pending too long in one snapshot is not announced
/// so again in the next one: the notice is sent once.
pub proof fn law_pending_notice_once(
    st: EscalationView,
    first: Seq<JobView>,
    second: Seq<JobView>,
    now1: u64,
    now2: u64,
    after: u64,
    pct: u32,
    id: Seq<char>,
)
    requires
        first.len() <= usize::MAX,
        second.len() <= usize::MAX,
        pending_notice_for(after_tick(st, first, now1, after, pct).1, first, id),
    ensures
        !pending_notice_for(
            after_tick(after_tick(st, first, now1, after, pct).0, second, now2, after, pct).1,
            second,
            id,
        ),
{
    let f = escalation_fold(st, first, now1, after, pct);
    lemma_fold_marks(st, first, now1, after, pct);
    assert(f.0.pending.contains(id));
    let n = choose|n: int|
        0 <= n < f.1.len() && (#[trigger] f.1[n] matches Notice::PendingTooLong(i) && i < first.len()
            && first[i as int].id == id);
    if let Notice::PendingTooLong(i) = f.1[n] {
        assert(listed(first, id) && first[i as int].id == id);
    }
    let st1 = after_tick(st, first, now1, after, pct).0;
    assert(st1.pending.contains(id));
    lemma_fold_no_repeat(st1, second, now2, after, pct, id);
}

/// A running job announced as past its walltime share in one snapshot is
/// not announced so again in the next one.
pub proof fn law_walltime_notice_once(
    st: EscalationView,
    first: Seq<JobView>,
    second: Seq<JobView>,
    now1: u64,
    now2: u64,
    after: u64,
    pct: u32,
    id: Seq<char>,
)
    requires
        first.len() <= usize::MAX,
        second.len() <= usize::MAX,
        walltime_notice_for(after_tick(st, first, now1, after, pct).1, first, id),
    ensures
        !walltime_notice_for(
            after_tick(after_tick(st, first, now1, after, pct).0, second, now2, after, pct).1,
            second,
            id,
        ),
{
    let f = escalation_fold(st, first, now1, after, pct);
    lemma_fold_marks(st, first, now1, after, pct);
    assert(f.0.walltime.contains(id));
    let n = choose|n: int|
        0 <= n < f.1.len() && (#[trigger] f.1[n] matches Notice::WalltimeCrossed(i) && i < first.len()
            && first[i as int].id == id);
    if let Notice::WalltimeCrossed(i) = f.1[n] {
        assert(listed(first, id) && first[i as int].id == id);
    }
    let st1 = after_tick(st, first, now1, after, pct).0;
    assert(st1.walltime.contains(id));
    lemma_fold_no_repeat(st1, second, now2, after, pct, id);
}

proof fn lemma_still_pending_listed(s: Seq<(Seq<char>, u64)>, jobs: Seq<JobView>, id: Seq<char>)
    requires
        !listed(jobs, id),
    ensures
        seen_at(still_pending(s, jobs), id) is None,
    decreases s.len(),
{
    let opts = s.map_values(
        |e: (Seq<char>, u64)|
            if listed_pending(jobs, e.0) {
                Some(e)
            } else {
                None
            },
    );
    let r = still_pending(s, jobs);
    if s.len() > 0 {
        lemma_still_pending_listed(s.drop_last(), jobs, id);
        let d = s.drop_last().map_values(
            |e: (Seq<char>, u64)|
                if listed_pending(jobs, e.0) {
                    Some(e)
                } else {
                    None
                },
        );
        assert(opts.drop_last() =~= d);
        if listed_pending(jobs, s.last().0) && s.last().0 == id {
            let k = choose|k: int|
                0 <= k < jobs.len() && jobs[k].id == s.last().0 && has_prefix(jobs[k].state, "PENDING"@);
            assert(listed(jobs, id));
        }
        let prev = still_pending(s.drop_last(), jobs);
        assert forall|k: int| 0 <= k < r.len() implies r[k].0 != id by {
            if k < prev.len() {
                assert(r[k] == prev[k]);
                if prev[k].0 == id {
                    assert(seen_at(prev, id) is Some);
                }
            }
        }
    }
}

/// Nothing is remembered of a job once it has left the queue: a
/// resubmitted id starts afresh.
pub proof fn law_gone_jobs_forgotten(
    st: EscalationView,
    jobs: Seq<JobView>,
    now: u64,
    after: u64,
    pct: u32,
    id: Seq<char>,
)
    requires
        !listed(jobs, id),
    ensures
        !after_tick(st, jobs, now, after, pct).0.pending.contains(id),
        !after_tick(st, jobs, now, after, pct).0.walltime.contains(id),
        seen_at(after_tick(st, jobs, now, after, pct).0.since, id) is None,
{
    let f = escalation_fold(st, jobs, now, after, pct);
    lemma_still_pending_listed(f.0.since, jobs, id);
}

/// The state before tick `i` of a run of snapshots taken at times `nows`.
pub open spec fn state_before(
    st: EscalationView,
    snaps: Seq<Seq<JobView>>,
    nows: Seq<u64>,
    after: u64,
    pct: u32,
    i: nat,
) -> EscalationView
    decreases i,
{
    if i == 0 {
        st
    } else {
        after_tick(
            state_before(st, snaps, nows, after, pct, (i - 1) as nat),
            snaps[i - 1],
            nows[i - 1],
            after,
            pct,
        ).0
    }
}

/// The notices of tick `i` of a run of snapshots.
pub open spec fn notices_at(
    st: EscalationView,
    snaps: Seq<Seq<JobView>>,
    nows: Seq<u64>,
    after: u64,
    pct: u32,
    i: nat,
) -> Seq<Notice> {
    after_tick(state_before(st, snaps, nows, after, pct, i), snaps[i as int], nows[i as int], after, pct).1
}

proof fn lemma_listed_kept(st: EscalationView, jobs: Seq<JobView>, now: u64, after: u64, pct: u32, id: Seq<char>)
    requires
        jobs.len() <= usize::MAX,
        listed(jobs, id),
    ensures
        st.pending.contains(id) ==> after_tick(st, jobs, now, after, pct).0.pending.contains(id),
        st.walltime.contains(id) ==> after_tick(st, jobs, now, after, pct).0.walltime.contains(id),
{
    lemma_fold_grows(st, jobs, now, after, pct);
    assert(job_ids(jobs).contains(id));
}

proof fn lemma_stays_marked(
    st: EscalationView,
    snaps: Seq<Seq<JobView>>,
    nows: Seq<u64>,
    after: u64,
    pct: u32,
    id: Seq<char>,
    i: nat,
    j: nat,
)
    requires
        i <= j < snaps.len(),
        forall|t: int| 0 <= t < snaps.len() ==> (#[trigger] snaps[t]).len() <= usize::MAX,
        forall|t: int| i <= t <= j ==> listed(#[trigger] snaps[t], id),
    ensures
        state_before(st, snaps, nows, after, pct, i).pending.contains(id) ==> state_before(
            st,
            snaps,
            nows,
            after,
            pct,
            j,
        ).pending.contains(id),
        state_before(st, snaps, nows, after, pct, i).walltime.contains(id) ==> state_before(
            st,
            snaps,
            nows,
            after,
            pct,
            j,
        ).walltime.contains(id),
    decreases j - i,
{
    if i < j {
        lemma_stays_marked(st, snaps, nows, after, pct, id, i, (j - 1) as nat);
        let prev = state_before(st, snaps, nows, after, pct, (j - 1) as nat);
        assert(listed(snaps[j - 1], id));
        lemma_listed_kept(prev, snaps[j - 1], nows[j - 1], after, pct, id);
    }
}

/// While a job stays in the queue, it is announced as pending too long at
/// most once, over any run of snapshots: after a notice at tick `i`, no
/// later tick `j` of the stay announces it again.
pub proof fn law_pending_notice_once_per_stay(
    st: EscalationView,
    snaps: Seq<Seq<JobView>>,
    nows: Seq<u64>,
    after: u64,
    pct: u32,
    id: Seq<char>,
    i: nat,
    j: nat,
)
    requires
        i < j < snaps.len(),
        nows.len() == snaps.len(),
        forall|t: int| 0 <= t < snaps.len() ==> (#[trigger] snaps[t]).len() <= usize::MAX,
        forall|t: int| i <= t <= j ==> listed(#[trigger] snaps[t], id),
        pending_notice_for(notices_at(st, snaps, nows, after, pct, i), snaps[i as int], id),
    ensures
        !pending_notice_for(notices_at(st, snaps, nows, after, pct, j), snaps[j as int], id),
{
    let si = state_before(st, snaps, nows, after, pct, i);
    let jobs = snaps[i as int];
    assert(jobs.len() <= usize::MAX);
    lemma_fold_marks(si, jobs, nows[i as int], after, pct);
    assert(listed(jobs, id));
    assert(job_ids(jobs).contains(id));
    assert(state_before(st, snaps, nows, after, pct, i + 1).pending.contains(id));
    lemma_stays_marked(st, snaps, nows, after, pct, id, i + 1, j);
    let sj = state_before(st, snaps, nows, after, pct, j);
    assert(snaps[j as int].len() <= usize::MAX);
    lemma_fold_no_repeat(sj, snaps[j as int], nows[j as int], after, pct, id);
}

/// While a job stays in the queue, it is announced as past its walltime
/// share at most once, over any run of snapshots.
pub proof fn law_walltime_notice_once_per_stay(
    st: EscalationView,
    snaps: Seq<Seq<JobView>>,
    nows: Seq<u64>,
    after: u64,
    pct: u32,
    id: Seq<char>,
    i: nat,
    j: nat,
)
    requires
        i < j < snaps.len(),
        nows.len() == snaps.len(),
        forall|t: int| 0 <= t < snaps.len() ==> (#[trigger] snaps[t]).len() <= usize::MAX,
        forall|t: int| i <= t <= j ==> listed(#[trigger] snaps[t], id),
        walltime_notice_for(notices_at(st, snaps, nows, after, pct, i), snaps[i as int], id),
    ensures
        !walltime_notice_for(notices_at(st, snaps, nows, after, pct, j), snaps[j as int], id),
{
    let si = state_before(st, snaps, nows, after, pct, i);
    let jobs = snaps[i as int];
    assert(jobs.len() <= usize::MAX);
    lemma_fold_marks(si, jobs, nows[i as int], after, pct);
    assert(listed(jobs, id));
    assert(job_ids(jobs).contains(id));
    assert(state_before(st, snaps, nows, after, pct, i + 1).walltime.contains(id));
    lemma_stays_marked(st, snaps, nows, after, pct, id, i + 1, j);
    let sj = state_before(st, snaps, nows, after, pct, j);
    assert(snaps[j as int].len() <= usize::MAX);
    lemma_fold_no_repeat(sj, snaps[j as int], nows[j as int], after, pct, id);
}

proof fn lemma_fold_off(st: EscalationView, jobs: Seq<JobView>, now: u64, after: u64, pct: u32)
    requires
        jobs.len() <= usize::MAX,
    ensures
        forall|n: int|
            0 <= n < escalation_fold(st, jobs, now, after, pct).1.len() ==> {
                let x = #[trigger] escalation_fold(st, jobs, now, after, pct).1[n];
                &&& after == 0 ==> !(x matches Notice::PendingTooLong(_))
                &&& pct == 0 ==> !(x matches Notice::WalltimeCrossed(_))
            },
    decreases jobs.len(),
{
    if jobs.len() > 0 {
        let d = jobs.drop_last();
        lemma_fold_off(st, d, now, after, pct);
        let prev = escalation_fold(st, d, now, after, pct);
        lemma_step_facts(prev.0, jobs.last(), jobs.len() - 1, now, after, pct);
        let f = escalation_fold(st, jobs, now, after, pct);
        assert forall|n: int| 0 <= n < f.1.len() implies {
            let x = #[trigger] f.1[n];
            &&& after == 0 ==> !(x matches Notice::PendingTooLong(_))
            &&& pct == 0 ==> !(x matches Notice::WalltimeCrossed(_))
        } by {
            if n < prev.1.len() {
                assert(f.1[n] == prev.1[n]);
            }
        }
    }
}

/// A threshold of 0 turns its notices off: no pending notice when
/// `after` is 0, no walltime notice when `pct` is 0.
pub proof fn law_zero_threshold_is_off(
    st: EscalationView,
    jobs: Seq<JobView>,
    now: u64,
    after: u64,
    pct: u32,
    id: Seq<char>,
)
    requires
        jobs.len() <= usize::MAX,
    ensures
        after == 0 ==> !pending_notice_for(after_tick(st, jobs, now, after, pct).1, jobs, id),
        pct == 0 ==> !walltime_notice_for(after_tick(st, jobs, now, after, pct).1, jobs, id),
{
    lemma_fold_off(st, jobs, now, after, pct);
    let ns = after_tick(st, jobs, now, after, pct).1;
    if after == 0 && pending_notice_for(ns, jobs, id) {
        let n = choose|n: int|
            0 <= n < ns.len() && (#[trigger] ns[n] matches Notice::PendingTooLong(i) && i < jobs.len()
                && jobs[i as int].id == id);
        assert(!(ns[n] matches Notice::PendingTooLong(_)));
    }
    if pct == 0 && walltime_notice_for(ns, jobs, id) {
        let n = choose|n: int|
            0 <= n < ns.len() && (#[trigger] ns[n] matches Notice::WalltimeCrossed(i) && i < jobs.len()
                && jobs[i as int].id == id);
        assert(!(ns[n] matches Notice::WalltimeCrossed(_)));
    }
}

} // verus!
