//! The decisions of the job poller: what changed between two `squeue`
//! snapshots, how a job that left the queue is resolved through `sacct`,
//! the back-off between retries, and the texts of history entries and
//! notifications.
use vstd::prelude::*;

use crate::config::{opt_str_view, ClusterConfig, NotificationConfig};
use crate::notify_filter::{in_quiet_hours, notify_wanted, quiet_hours, should_notify};
use crate::sacct::{build_sacct_command, parse_sacct_output, sacct_command, sacct_record, SacctResult, SacctView};
use crate::squeue::{jobs_view, parse_squeue_output, squeue_jobs, JobStatus, JobView};
use crate::escalation::{
    after_tick, law_pending_notice_once_per_stay, law_walltime_notice_once_per_stay,
    law_zero_threshold_is_off, listed, notices_at, pending_notice_for, walltime_notice_for, EscalationView, Notice,
};
use crate::text::{
    chars_of, decimal, has_prefix, keep_some, lemma_keep_some_step, push_decimal, same_text,
    starts_with,
};

verus! {

broadcast use vstd::string::group_string_axioms;

/// A change between two snapshots of the queue.
#[derive(Debug, Clone, PartialEq, Eq)]
pub enum DiffEvent {
    New(JobStatus),
    StateChanged { previous: JobStatus, current: JobStatus },
    Vanished(JobStatus),
}

pub enum DiffView {
    New(JobView),
    StateChanged { previous: JobView, current: JobView },
    Vanished(JobView),
}

impl View for DiffEvent {
    type V = DiffView;

    open spec fn view(&self) -> DiffView {
        match self {
            DiffEvent::New(j) => DiffView::New(j@),
            DiffEvent::StateChanged { previous, current } => DiffView::StateChanged {
                previous: previous@,
                current: current@,
            },
            DiffEvent::Vanished(j) => DiffView::Vanished(j@),
        }
    }
}

pub open spec fn events_view(v: Seq<DiffEvent>) -> Seq<DiffView> {
    v.map_values(|e: DiffEvent| e@)
}

/// What one cluster's poller needs to know.
pub struct PollerConfig {
    pub cluster_name: String,
    pub squeue_user: String,
    pub poll_interval_secs: u64,
    pub notifications: NotificationConfig,
    pub slurm_conf_path: Option<String>,
}

impl PollerConfig {
    /// The poller settings of a cluster: its name, the user whose jobs are
    /// tracked, its poll interval and SLURM config path, with the given
    /// notification settings.
    pub fn for_cluster(cluster: &ClusterConfig, notifications: NotificationConfig) -> (r: Self)
        ensures
            r.cluster_name@ == cluster.name@,
            r.squeue_user@ == match cluster.squeue_user {
                Some(u) => u@,
                None => cluster.username@,
            },
            r.poll_interval_secs == cluster.poll_interval_secs,
            r.notifications == notifications,
            r.slurm_conf_path == cluster.slurm_conf_path,
    {
        PollerConfig {
            cluster_name: cluster.name.clone(),
            squeue_user: String::from_str(cluster.effective_squeue_user()),
            poll_interval_secs: cluster.poll_interval_secs,
            notifications,
            slurm_conf_path: match &cluster.slurm_conf_path {
                Some(p) => Some(p.clone()),
                None => None,
            },
        }
    }
}

/// The first job with this id, if any.
pub open spec fn job_position(js: Seq<JobView>, id: Seq<char>) -> Option<int> {
    if exists|k: int| 0 <= k < js.len() && js[k].id == id {
        Some(
            choose|k: int|
                0 <= k < js.len() && js[k].id == id && forall|j: int| 0 <= j < k ==> js[j].id != id,
        )
    } else {
        None
    }
}

/// The event for a job of the current snapshot: new when its id was not
/// listed before, a state change when the earlier entry's state differs.
pub open spec fn current_event(previous: Seq<JobView>, job: JobView) -> Option<DiffView> {
    match job_position(previous, job.id) {
        None => Some(DiffView::New(job)),
        Some(k) => if previous[k].state != job.state {
            Some(DiffView::StateChanged { previous: previous[k], current: job })
        } else {
            None
        },
    }
}

/// The event for a job of the previous snapshot: vanished when no current
/// job has its id.
pub open spec fn vanished_event(current: Seq<JobView>, job: JobView) -> Option<DiffView> {
    if job_position(current, job.id) is Some {
        None
    } else {
        Some(DiffView::Vanished(job))
    }
}

/// The events for the current jobs in order, then those of the jobs that
/// vanished, in the order of the previous snapshot.
pub open spec fn diff_events(previous: Seq<JobView>, current: Seq<JobView>) -> Seq<DiffView> {
    keep_some(current.map_values(|j: JobView| current_event(previous, j))) + keep_some(
        previous.map_values(|j: JobView| vanished_event(current, j)),
    )
}

/// The first job of `js` with this id.
fn find_job(js: &[JobStatus], id: &str) -> (r: Option<usize>)
    ensures
        match r {
            Some(k) => k < js@.len() && job_position(jobs_view(js@), id@) == Some(k as int),
            None => job_position(jobs_view(js@), id@) is None,
        },
{
    let ghost v = jobs_view(js@);
    let mut i: usize = 0;
    while i < js.len()
        invariant
            i <= js@.len(),
            v == jobs_view(js@),
            forall|j: int| 0 <= j < i ==> v[j].id != id@,
        decreases js.len() - i,
    {
        if same_text(js[i].id.as_str(), id) {
            proof {
                assert(v[i as int].id == id@);
                let k = choose|k: int|
                    0 <= k < v.len() && v[k].id == id@ && forall|j: int| 0 <= j < k ==> v[j].id != id@;
                assert(k == i as int) by {
                    if k < i {
                        assert(v[k].id != id@);
                    }
                    if i < k {
                        assert(v[i as int].id != id@);
                    }
                }
            }
            return Some(i);
        }
        i = i + 1;
    }
    None
}

#[verifier::spinoff_prover]
#[verifier::rlimit(40)]
fn current_events(previous: &[JobStatus], current: &[JobStatus]) -> (r: Vec<DiffEvent>)
    ensures
        events_view(r@) == keep_some(
            jobs_view(current@).map_values(|j: JobView| current_event(jobs_view(previous@), j)),
        ),
{
    let ghost pv = jobs_view(previous@);
    let ghost cv = jobs_view(current@);
    let ghost first = cv.map_values(|j: JobView| current_event(pv, j));
    let mut events: Vec<DiffEvent> = Vec::new();
    let mut i: usize = 0;
    while i < current.len()
        invariant
            i <= current@.len(),
            pv == jobs_view(previous@),
            cv == jobs_view(current@),
            first == cv.map_values(|j: JobView| current_event(pv, j)),
            events_view(events@) == keep_some(first.take(i as int)),
        decreases current.len() - i,
    {
        proof {
            lemma_keep_some_step(first, i as int);
        }
        let job = &current[i];
        match find_job(previous, job.id.as_str()) {
            None => {
                let e = DiffEvent::New(job.duplicate());
                events.push(e);
                assert(events_view(events@) =~= keep_some(first.take(i as int)).push(e@));
            },
            Some(k) => {
                if !same_text(previous[k].state.as_str(), job.state.as_str()) {
                    let e = DiffEvent::StateChanged {
                        previous: previous[k].duplicate(),
                        current: job.duplicate(),
                    };
                    events.push(e);
                    assert(events_view(events@) =~= keep_some(first.take(i as int)).push(e@));
                }
            },
        }
        i = i + 1;
    }
    assert(first.take(current.len() as int) =~= first);
    events
}

#[verifier::spinoff_prover]
#[verifier::rlimit(40)]
fn vanished_events(previous: &[JobStatus], current: &[JobStatus]) -> (r: Vec<DiffEvent>)
    ensures
        events_view(r@) == keep_some(
            jobs_view(previous@).map_values(|j: JobView| vanished_event(jobs_view(current@), j)),
        ),
{
    let ghost pv = jobs_view(previous@);
    let ghost cv = jobs_view(current@);
    let ghost second = pv.map_values(|j: JobView| vanished_event(cv, j));
    let mut events: Vec<DiffEvent> = Vec::new();
    let mut k: usize = 0;
    while k < previous.len()
        invariant
            k <= previous@.len(),
            pv == jobs_view(previous@),
            cv == jobs_view(current@),
            second == pv.map_values(|j: JobView| vanished_event(cv, j)),
            events_view(events@) == keep_some(second.take(k as int)),
        decreases previous.len() - k,
    {
        proof {
            lemma_keep_some_step(second, k as int);
        }
        let job = &previous[k];
        if find_job(current, job.id.as_str()).is_none() {
            let e = DiffEvent::Vanished(job.duplicate());
            events.push(e);
            assert(events_view(events@) =~= keep_some(second.take(k as int)).push(e@));
        }
        k = k + 1;
    }
    assert(second.take(previous.len() as int) =~= second);
    events
}

/// The changes from `previous` to `current`: each current job whose id is
/// new, or whose state differs from the earlier entry with that id; then
/// each previous job whose id no longer occurs.
pub fn diff(previous: &[JobStatus], current: &[JobStatus]) -> (r: Vec<DiffEvent>)
    ensures
        events_view(r@) == diff_events(jobs_view(previous@), jobs_view(current@)),
{
    let mut events = current_events(previous, current);
    let mut gone = vanished_events(previous, current);
    let ghost a = events@;
    let ghost b = gone@;
    events.append(&mut gone);
    assert(events_view(events@) =~= events_view(a) + events_view(b));
    events
}

/// The delay before the next attempt: back to `base` after a success,
/// otherwise doubled and capped at `max`. Delays are whole seconds.
pub open spec fn backoff(current: nat, base: nat, max: nat, success: bool) -> nat {
    if success {
        base
    } else if 2 * current <= max {
        2 * current
    } else {
        max
    }
}

pub fn next_delay(current: u64, base: u64, max: u64, success: bool) -> (r: u64)
    requires
        !success ==> current <= u64::MAX / 2,
    ensures
        r == backoff(current as nat, base as nat, max as nat, success),
{
    if success {
        base
    } else if 2 * current <= max {
        2 * current
    } else {
        max
    }
}

/// States whose notifications deserve the stderr tail attached.
pub open spec fn failed_state(state: Seq<char>) -> bool {
    has_prefix(state, "FAILED"@) || has_prefix(state, "CANCELLED"@) || has_prefix(
        state,
        "TIMEOUT"@,
    ) || has_prefix(state, "OUT_OF_MEMORY"@) || has_prefix(state, "NODE_FAIL"@)
}

pub fn is_failed_state(state: &str) -> (b: bool)
    ensures
        b == failed_state(state@),
{
    let s = chars_of(state);
    starts_with(&s, &chars_of("FAILED")) || starts_with(&s, &chars_of("CANCELLED"))
        || starts_with(&s, &chars_of("TIMEOUT")) || starts_with(&s, &chars_of("OUT_OF_MEMORY"))
        || starts_with(&s, &chars_of("NODE_FAIL"))
}

/// What a job that left the queue turned into, from its sacct record: the
/// final state and an `exit <code>` detail, when the record's state differs
/// from the last state seen in the queue.
pub open spec fn final_transition(job_state: Seq<char>, rec: Option<SacctView>) -> Option<
    (Seq<char>, Seq<char>),
> {
    match rec {
        Some(r) => if r.state != job_state {
            Some((r.state, "exit "@ + r.exit_code))
        } else {
            None
        },
        None => None,
    }
}

/// Resolve a vanished job from the sacct output of its lookup (see
/// [`final_transition`]); `None` when there is no record or nothing
/// changed.
pub fn resolve_vanished(job_state: &str, sacct_output: &str) -> (r: Option<(String, String)>)
    ensures
        match r {
            Some((state, detail)) => final_transition(job_state@, sacct_record(sacct_output@))
                == Some((state@, detail@)),
            None => final_transition(job_state@, sacct_record(sacct_output@)) is None,
        },
{
    match parse_sacct_output(sacct_output) {
        Some(rec) => {
            if same_text(rec.state.as_str(), job_state) {
                None
            } else {
                let mut detail = String::from_str("exit ");
                detail.append(rec.exit_code.as_str());
                Some((rec.state, detail))
            }
        },
        None => None,
    }
}

/// A detail followed by the stderr tail, when one was fetched, after a
/// line break.
pub open spec fn detail_with_tail(detail: Seq<char>, tail: Option<Seq<char>>) -> Seq<char> {
    match tail {
        Some(t) => detail + "\n"@ + t,
        None => detail,
    }
}

pub fn append_tail(detail: &str, tail: Option<&str>) -> (r: String)
    ensures
        r@ == detail_with_tail(
            detail@,
            match tail {
                Some(t) => Some(t@),
                None => None,
            },
        ),
{
    let mut r = String::from_str(detail);
    match tail {
        Some(t) => {
            r.append("\n");
            r.append(t);
        },
        None => {},
    }
    r
}

// ---------------------------------------------------------------------------
// Escalation texts
// ---------------------------------------------------------------------------

/// The history detail of a job pending too long.
pub open spec fn pending_history_text(reason: Seq<char>) -> Seq<char> {
    "pending too long "@ + reason
}

pub fn pending_history_detail(reason: &str) -> (r: String)
    ensures
        r@ == pending_history_text(reason@),
{
    let mut r = String::from_str("pending too long ");
    r.append(reason);
    r
}

/// The state shown in the notification of a job pending too long.
pub open spec fn pending_notice_state_text(reason: Seq<char>) -> Seq<char> {
    "still PENDING "@ + reason
}

pub fn pending_notice_state(reason: &str) -> (r: String)
    ensures
        r@ == pending_notice_state_text(reason@),
{
    let mut r = String::from_str("still PENDING ");
    r.append(reason);
    r
}

/// The detail of that notification: the threshold in whole minutes.
pub open spec fn pending_notice_detail_text(after_secs: nat) -> Seq<char> {
    "queued for over "@ + decimal(after_secs / 60) + " min"@
}

pub fn pending_notice_detail(after_secs: u64) -> (r: String)
    ensures
        r@ == pending_notice_detail_text(after_secs as nat),
{
    let mut r = String::from_str("queued for over ");
    push_decimal(&mut r, after_secs / 60);
    r.append(" min");
    r
}

/// The history detail and notification detail of a running job past a
/// share of its walltime.
pub open spec fn walltime_text(pct: nat) -> Seq<char> {
    decimal(pct) + "% of walltime used"@
}

pub fn walltime_message(pct: u32) -> (r: String)
    ensures
        r@ == walltime_text(pct as nat),
{
    let mut r = String::new();
    push_decimal(&mut r, pct as u64);
    r.append("% of walltime used");
    r
}

// ---------------------------------------------------------------------------
// The snapshot kept between polls
// ---------------------------------------------------------------------------

/// `a` comes before `b` in the order of `str` comparison: character by
/// character, a proper prefix first.
#[verifier::opaque]
pub open spec fn text_less(a: Seq<char>, b: Seq<char>) -> bool
    decreases a.len(),
{
    if a.len() == 0 {
        b.len() > 0
    } else if b.len() == 0 {
        false
    } else if a[0] != b[0] {
        a[0] < b[0]
    } else {
        text_less(a.drop_first(), b.drop_first())
    }
}

proof fn lemma_text_less_irreflexive(a: Seq<char>)
    ensures
        !text_less(a, a),
    decreases a.len(),
{
    reveal(text_less);
    if a.len() > 0 {
        lemma_text_less_irreflexive(a.drop_first());
    }
}

proof fn lemma_text_less_total(a: Seq<char>, b: Seq<char>)
    ensures
        a == b || text_less(a, b) || text_less(b, a),
    decreases a.len(),
{
    reveal(text_less);
    if a.len() > 0 && b.len() > 0 {
        if a[0] == b[0] {
            lemma_text_less_total(a.drop_first(), b.drop_first());
            if a.drop_first() == b.drop_first() {
                assert(a =~= seq![a[0]] + a.drop_first());
                assert(b =~= seq![b[0]] + b.drop_first());
            }
        }
    } else if a.len() == 0 && b.len() == 0 {
        assert(a =~= b);
    }
}

proof fn lemma_text_less_asymmetric(a: Seq<char>, b: Seq<char>)
    ensures
        text_less(a, b) ==> !text_less(b, a),
    decreases a.len(),
{
    reveal(text_less);
    if a.len() > 0 && b.len() > 0 && a[0] == b[0] {
        lemma_text_less_asymmetric(a.drop_first(), b.drop_first());
    }
}

proof fn lemma_text_less_transitive(a: Seq<char>, b: Seq<char>, c: Seq<char>)
    requires
        text_less(a, b),
        text_less(b, c),
    ensures
        text_less(a, c),
    decreases a.len(),
{
    reveal(text_less);
    if a.len() > 0 && b.len() > 0 && c.len() > 0 {
        if a[0] == b[0] && b[0] == c[0] {
            lemma_text_less_transitive(a.drop_first(), b.drop_first(), c.drop_first());
        }
    }
}

/// Whether `a` sorts before `b` (`a < b` on strings).
fn text_lt(a: &str, b: &str) -> (r: bool)
    ensures
        r == text_less(a@, b@),
{
    reveal(text_less);
    let x = chars_of(a);
    let y = chars_of(b);
    let mut i: usize = 0;
    assert(x@.skip(0) =~= x@);
    assert(y@.skip(0) =~= y@);
    while i < x.len() && i < y.len()
        invariant
            x@ == a@,
            y@ == b@,
            i <= x@.len(),
            i <= y@.len(),
            text_less(a@, b@) == text_less(x@.skip(i as int), y@.skip(i as int)),
        decreases x.len() - i,
    {
        proof {
            reveal(text_less);
        }
        assert(x@.skip(i as int)[0] == x@[i as int]);
        assert(y@.skip(i as int)[0] == y@[i as int]);
        if x[i] != y[i] {
            return x[i] < y[i];
        }
        assert(x@.skip(i as int).drop_first() =~= x@.skip(i + 1));
        assert(y@.skip(i as int).drop_first() =~= y@.skip(i + 1));
        i = i + 1;
    }
    proof {
        reveal(text_less);
    }
    i < y.len()
}

/// Ids strictly increase along `js`.
pub open spec fn sorted_by_id(js: Seq<JobView>) -> bool {
    forall|a: int, b: int| 0 <= a < b < js.len() ==> text_less(js[a].id, js[b].id)
}

/// `jobs[t]` is the last job with its id among the first `n`.
pub open spec fn last_of_id(jobs: Seq<JobView>, t: int, n: int) -> bool {
    0 <= t < n && forall|u: int| t < u < n ==> jobs[u].id != jobs[t].id
}

/// Every job of `r` is the last one listed with its id among the first
/// `n` of `jobs`.
#[verifier::opaque]
pub open spec fn all_last(jobs: Seq<JobView>, n: int, r: Seq<JobView>) -> bool {
    forall|k: int|
        #![trigger r[k]]
        0 <= k < r.len() ==> exists|t: int| #![trigger jobs[t]] last_of_id(jobs, t, n) && r[k] == jobs[t]
}

/// Every id among the first `n` of `jobs` is that of a job of `r`.
#[verifier::opaque]
pub open spec fn all_covered(jobs: Seq<JobView>, n: int, r: Seq<JobView>) -> bool {
    forall|t: int|
        #![trigger jobs[t]]
        0 <= t < n ==> exists|k: int| #![trigger r[k]] 0 <= k < r.len() && r[k].id == jobs[t].id
}

/// `r` holds, in increasing order of id, one job per id among the first
/// `n` of `jobs`: the last one listed with that id.
pub open spec fn keyed_prefix(jobs: Seq<JobView>, n: int, r: Seq<JobView>) -> bool {
    &&& sorted_by_id(r)
    &&& all_last(jobs, n, r)
    &&& all_covered(jobs, n, r)
}

/// The snapshot kept between polls from a parsed one: one job per id (the
/// last one listed with it, as collecting into a map keyed by id keeps),
/// in increasing order of id.
pub open spec fn keyed(jobs: Seq<JobView>, r: Seq<JobView>) -> bool {
    keyed_prefix(jobs, jobs.len() as int, r)
}

/// The first index whose id does not sort before `id`.
fn insertion_point(r: &Vec<JobStatus>, id: &str) -> (p: usize)
    requires
        sorted_by_id(jobs_view(r@)),
    ensures
        p <= r@.len(),
        forall|k: int| 0 <= k < p ==> text_less(r@[k].id@, id@),
        p < r@.len() ==> !text_less(r@[p as int].id@, id@),
{
    let mut p: usize = 0;
    while p < r.len()
        invariant
            p <= r@.len(),
            forall|k: int| 0 <= k < p ==> text_less(r@[k].id@, id@),
        decreases r.len() - p,
    {
        if !text_lt(r[p].id.as_str(), id) {
            return p;
        }
        p = p + 1;
    }
    p
}

#[verifier::spinoff_prover]
#[verifier::rlimit(40)]
proof fn lemma_replaced(jv: Seq<JobView>, i: int, old_r: Seq<JobView>, p: int, nr: Seq<JobView>)
    requires
        0 <= i < jv.len(),
        keyed_prefix(jv, i, old_r),
        0 <= p < old_r.len(),
        old_r[p].id == jv[i].id,
        nr == old_r.update(p, jv[i]),
    ensures
        keyed_prefix(jv, i + 1, nr),
{
    reveal(all_last);
    reveal(all_covered);
    let j = jv[i];
    assert forall|a: int, b: int| 0 <= a < b < nr.len() implies text_less(nr[a].id, nr[b].id) by {
        assert(old_r[a].id == nr[a].id && old_r[b].id == nr[b].id);
    }
    assert forall|k: int| #![trigger nr[k]] 0 <= k < nr.len() implies exists|t: int| #![trigger jv[t]] last_of_id(jv, t, i + 1) && nr[k] == jv[t] by {
        if k == p {
            assert(last_of_id(jv, i, i + 1) && nr[k] == jv[i]);
        } else {
            assert(nr[k] == old_r[k]);
            let t = choose|t: int| #![trigger jv[t]] last_of_id(jv, t, i) && old_r[k] == jv[t];
            if k < p {
                assert(text_less(old_r[k].id, old_r[p].id));
            } else {
                assert(text_less(old_r[p].id, old_r[k].id));
            }
            lemma_text_less_irreflexive(old_r[k].id);
            assert(jv[i].id != jv[t].id);
            assert(last_of_id(jv, t, i + 1) && nr[k] == jv[t]);
        }
    }
    assert forall|t: int| #![trigger jv[t]] 0 <= t < i + 1 implies exists|k: int| #![trigger nr[k]] 0 <= k < nr.len() && nr[k].id == jv[t].id by {
        if t == i {
            assert(nr[p].id == jv[t].id);
        } else {
            let k = choose|k: int| #![trigger old_r[k]] 0 <= k < old_r.len() && old_r[k].id == jv[t].id;
            assert(nr[k].id == old_r[k].id);
        }
    }
}

proof fn lemma_inserted_sorted(jv: Seq<JobView>, i: int, old_r: Seq<JobView>, p: int, nr: Seq<JobView>)
    requires
        0 <= i < jv.len(),
        sorted_by_id(old_r),
        0 <= p <= old_r.len(),
        forall|k: int| 0 <= k < p ==> text_less(old_r[k].id, jv[i].id),
        p < old_r.len() ==> text_less(jv[i].id, old_r[p].id),
        nr == old_r.insert(p, jv[i]),
    ensures
        sorted_by_id(nr),
{
    let j = jv[i];
    assert forall|a: int, b: int| 0 <= a < b < nr.len() implies text_less(nr[a].id, nr[b].id) by {
        if b < p {
            assert(nr[a] == old_r[a] && nr[b] == old_r[b]);
        } else if b == p {
            assert(nr[a] == old_r[a]);
        } else if a == p {
            assert(nr[b] == old_r[b - 1]);
            if b - 1 > p {
                assert(text_less(old_r[p].id, old_r[b - 1].id));
                lemma_text_less_transitive(j.id, old_r[p].id, old_r[b - 1].id);
            }
        } else if a < p {
            assert(nr[a] == old_r[a] && nr[b] == old_r[b - 1]);
            lemma_text_less_transitive(old_r[a].id, j.id, old_r[p].id);
            if b - 1 > p {
                assert(text_less(old_r[p].id, old_r[b - 1].id));
                lemma_text_less_transitive(old_r[a].id, old_r[p].id, old_r[b - 1].id);
            }
        } else {
            assert(nr[a] == old_r[a - 1] && nr[b] == old_r[b - 1]);
        }
    }
}

proof fn lemma_inserted_new_id(old_r: Seq<JobView>, p: int, id: Seq<char>)
    requires
        sorted_by_id(old_r),
        0 <= p <= old_r.len(),
        forall|k: int| 0 <= k < p ==> text_less(old_r[k].id, id),
        p < old_r.len() ==> text_less(id, old_r[p].id),
    ensures
        forall|k: int| 0 <= k < old_r.len() ==> old_r[k].id != id,
{
    assert forall|k: int| 0 <= k < old_r.len() implies old_r[k].id != id by {
        lemma_text_less_irreflexive(id);
        if k < p {
            lemma_text_less_asymmetric(old_r[k].id, id);
        } else if k > p {
            assert(text_less(old_r[p].id, old_r[k].id));
            lemma_text_less_transitive(id, old_r[p].id, old_r[k].id);
        }
    }
}

proof fn lemma_inserted_last(jv: Seq<JobView>, i: int, old_r: Seq<JobView>, p: int, nr: Seq<JobView>)
    requires
        0 <= i < jv.len(),
        0 <= p <= old_r.len(),
        all_last(jv, i, old_r),
        forall|k: int| 0 <= k < old_r.len() ==> old_r[k].id != jv[i].id,
        nr == old_r.insert(p, jv[i]),
    ensures
        all_last(jv, i + 1, nr),
{
    reveal(all_last);
    assert forall|k: int| #![trigger nr[k]] 0 <= k < nr.len() implies exists|t: int| #![trigger jv[t]] last_of_id(jv, t, i + 1) && nr[k] == jv[t] by {
        if k == p {
            assert(last_of_id(jv, i, i + 1) && nr[k] == jv[i]);
        } else {
            let ok = if k < p { k } else { k - 1 };
            assert(nr[k] == old_r[ok]);
            let t = choose|t: int| #![trigger jv[t]] last_of_id(jv, t, i) && old_r[ok] == jv[t];
            assert(old_r[ok].id != jv[i].id);
            assert(last_of_id(jv, t, i + 1) && nr[k] == jv[t]);
        }
    }
}

proof fn lemma_inserted_cover(jv: Seq<JobView>, i: int, old_r: Seq<JobView>, p: int, nr: Seq<JobView>)
    requires
        0 <= i < jv.len(),
        0 <= p <= old_r.len(),
        all_covered(jv, i, old_r),
        nr == old_r.insert(p, jv[i]),
    ensures
        all_covered(jv, i + 1, nr),
{
    reveal(all_covered);
    assert forall|t: int| #![trigger jv[t]] 0 <= t < i + 1 implies exists|k: int| #![trigger nr[k]] 0 <= k < nr.len() && nr[k].id == jv[t].id by {
        if t == i {
            assert(nr[p].id == jv[t].id);
        } else {
            let k = choose|k: int| #![trigger old_r[k]] 0 <= k < old_r.len() && old_r[k].id == jv[t].id;
            if k < p {
                assert(nr[k].id == old_r[k].id);
            } else {
                assert(nr[k + 1].id == old_r[k].id);
            }
        }
    }
}

proof fn lemma_inserted(jv: Seq<JobView>, i: int, old_r: Seq<JobView>, p: int, nr: Seq<JobView>)
    requires
        0 <= i < jv.len(),
        keyed_prefix(jv, i, old_r),
        0 <= p <= old_r.len(),
        forall|k: int| 0 <= k < p ==> text_less(old_r[k].id, jv[i].id),
        p < old_r.len() ==> text_less(jv[i].id, old_r[p].id),
        nr == old_r.insert(p, jv[i]),
    ensures
        keyed_prefix(jv, i + 1, nr),
{
    lemma_inserted_sorted(jv, i, old_r, p, nr);
    lemma_inserted_new_id(old_r, p, jv[i].id);
    lemma_inserted_last(jv, i, old_r, p, nr);
    lemma_inserted_cover(jv, i, old_r, p, nr);
}

/// The snapshot kept between polls (see [`keyed`]).
pub fn keyed_snapshot(jobs: &[JobStatus]) -> (r: Vec<JobStatus>)
    ensures
        keyed(jobs_view(jobs@), jobs_view(r@)),
{
    let ghost jv = jobs_view(jobs@);
    let mut r: Vec<JobStatus> = Vec::new();
    let mut i: usize = 0;
    proof {
        reveal(all_last);
        reveal(all_covered);
        assert(jobs_view(r@) =~= Seq::<JobView>::empty());
    }
    while i < jobs.len()
        invariant
            i <= jobs@.len(),
            jv == jobs_view(jobs@),
            keyed_prefix(jv, i as int, jobs_view(r@)),
        decreases jobs.len() - i,
    {
        let job = jobs[i].duplicate();
        let p = insertion_point(&r, job.id.as_str());
        let ghost old_r = jobs_view(r@);
        let ghost j = jv[i as int];
        assert(job@ == j);
        if p < r.len() && same_text(r[p].id.as_str(), job.id.as_str()) {
            r.remove(p);
            r.insert(p, job);
            proof {
                let nr = jobs_view(r@);
                assert(nr =~= old_r.update(p as int, j));
                lemma_replaced(jv, i as int, old_r, p as int, nr);
            }
        } else {
            proof {
                if p < old_r.len() {
                    lemma_text_less_total(old_r[p as int].id, j.id);
                }
            }
            r.insert(p, job);
            proof {
                let nr = jobs_view(r@);
                assert(nr =~= old_r.insert(p as int, j));
                lemma_inserted(jv, i as int, old_r, p as int, nr);
            }
        }
        i = i + 1;
    }
    r
}

// ---------------------------------------------------------------------------
// Laws
// ---------------------------------------------------------------------------

proof fn lemma_keep_some_none<T>(xs: Seq<Option<T>>)
    requires
        forall|i: int| 0 <= i < xs.len() ==> (#[trigger] xs[i]) is None,
    ensures
        keep_some(xs) == Seq::<T>::empty(),
    decreases xs.len(),
{
    if xs.len() > 0 {
        lemma_keep_some_none(xs.drop_last());
        assert(xs.last() is None);
    }
}

proof fn lemma_position_of_distinct(js: Seq<JobView>, k: int)
    requires
        0 <= k < js.len(),
        forall|a: int, b: int| 0 <= a < b < js.len() ==> js[a].id != js[b].id,
    ensures
        job_position(js, js[k].id) == Some(k),
{
    let id = js[k].id;
    let c = choose|c: int| 0 <= c < js.len() && js[c].id == id && forall|j: int| 0 <= j < c ==> js[j].id != id;
    assert(c == k) by {
        if c < k {
            assert(js[c].id != js[k].id);
        }
        if k < c {
            assert(js[k].id != id);
        }
    }
}

/// A snapshot compared with itself yields no event, when its ids are
/// distinct (as those of a map keyed by id are).
pub proof fn law_unchanged_snapshot_no_events(jobs: Seq<JobView>)
    requires
        forall|a: int, b: int| 0 <= a < b < jobs.len() ==> jobs[a].id != jobs[b].id,
    ensures
        diff_events(jobs, jobs) == Seq::<DiffView>::empty(),
{
    let first = jobs.map_values(|j: JobView| current_event(jobs, j));
    let second = jobs.map_values(|j: JobView| vanished_event(jobs, j));
    assert forall|i: int| 0 <= i < first.len() implies (#[trigger] first[i]) is None by {
        lemma_position_of_distinct(jobs, i);
    }
    assert forall|i: int| 0 <= i < second.len() implies (#[trigger] second[i]) is None by {
        lemma_position_of_distinct(jobs, i);
    }
    lemma_keep_some_none(first);
    lemma_keep_some_none(second);
    assert(Seq::<DiffView>::empty() + Seq::<DiffView>::empty() =~= Seq::<DiffView>::empty());
}

/// Every job of a snapshot whose id was not listed before is reported new,
/// and every job listed before whose id is gone is reported vanished.
pub proof fn law_new_and_vanished_reported(previous: Seq<JobView>, current: Seq<JobView>, k: int)
    ensures
        0 <= k < current.len() && job_position(previous, current[k].id) is None ==> keep_some(
            current.map_values(|j: JobView| current_event(previous, j)),
        ).contains(DiffView::New(current[k])),
        0 <= k < previous.len() && job_position(current, previous[k].id) is None ==> keep_some(
            previous.map_values(|j: JobView| vanished_event(current, j)),
        ).contains(DiffView::Vanished(previous[k])),
{
    if 0 <= k < current.len() && job_position(previous, current[k].id) is None {
        let xs = current.map_values(|j: JobView| current_event(previous, j));
        lemma_keep_some_has(xs, k);
    }
    if 0 <= k < previous.len() && job_position(current, previous[k].id) is None {
        let xs = previous.map_values(|j: JobView| vanished_event(current, j));
        lemma_keep_some_has(xs, k);
    }
}

/// Every job of a snapshot whose earlier entry with the same id was in
/// another state is reported as changed, with both entries.
pub proof fn law_state_change_reported(previous: Seq<JobView>, current: Seq<JobView>, k: int, p: int)
    requires
        0 <= k < current.len(),
        job_position(previous, current[k].id) == Some(p),
        previous[p].state != current[k].state,
    ensures
        diff_events(previous, current).contains(
            DiffView::StateChanged { previous: previous[p], current: current[k] },
        ),
{
    let xs = current.map_values(|j: JobView| current_event(previous, j));
    lemma_keep_some_has(xs, k);
    let first = keep_some(xs);
    let e = DiffView::StateChanged { previous: previous[p], current: current[k] };
    let i = choose|i: int| 0 <= i < first.len() && first[i] == e;
    let all = diff_events(previous, current);
    assert(all[i] == first[i]);
}

/// Each element of `keep_some(xs)` is the value of some `Some` in `xs`.
proof fn lemma_keep_some_origin<T>(xs: Seq<Option<T>>, i: int)
    requires
        0 <= i < keep_some(xs).len(),
    ensures
        exists|j: int| 0 <= j < xs.len() && xs[j] == Some(keep_some(xs)[i]),
    decreases xs.len(),
{
    let prev = keep_some(xs.drop_last());
    match xs.last() {
        Some(v) => {
            if i == prev.len() {
                assert(xs[xs.len() - 1] == Some(keep_some(xs)[i]));
            } else {
                lemma_keep_some_origin(xs.drop_last(), i);
                let j = choose|j: int| 0 <= j < xs.drop_last().len() && xs.drop_last()[j] == Some(prev[i]);
                assert(xs[j] == Some(keep_some(xs)[i]));
            }
        },
        None => {
            lemma_keep_some_origin(xs.drop_last(), i);
            let j = choose|j: int| 0 <= j < xs.drop_last().len() && xs.drop_last()[j] == Some(prev[i]);
            assert(xs[j] == Some(keep_some(xs)[i]));
        },
    }
}

/// Where an event of [`diff_events`] comes from: a current job's event, or
/// a previous job's vanishing.
proof fn lemma_event_origin(previous: Seq<JobView>, current: Seq<JobView>, i: int)
    requires
        0 <= i < diff_events(previous, current).len(),
    ensures
        (exists|j: int| 0 <= j < current.len() && current_event(previous, current[j]) == Some(
            diff_events(previous, current)[i],
        )) || diff_events(previous, current)[i] is Vanished,
{
    let xs = current.map_values(|j: JobView| current_event(previous, j));
    let ys = previous.map_values(|j: JobView| vanished_event(current, j));
    let a = keep_some(xs);
    let e = diff_events(previous, current)[i];
    if i < a.len() {
        assert(e == a[i]);
        lemma_keep_some_origin(xs, i);
        let j = choose|j: int| 0 <= j < xs.len() && xs[j] == Some(a[i]);
        assert(current_event(previous, current[j]) == Some(e));
    } else {
        let b = keep_some(ys);
        assert(e == b[i - a.len()]);
        lemma_keep_some_origin(ys, i - a.len());
        let j = choose|j: int| 0 <= j < ys.len() && ys[j] == Some(b[i - a.len()]);
        assert(vanished_event(current, previous[j]) == Some(e));
    }
}

/// A state change is reported only where the state did change: every
/// state-change event pairs an earlier entry and a current job with the
/// same id and different states.
pub proof fn law_state_changes_differ(previous: Seq<JobView>, current: Seq<JobView>, i: int)
    requires
        0 <= i < diff_events(previous, current).len(),
    ensures
        diff_events(previous, current)[i] matches DiffView::StateChanged { previous: a, current: b }
            ==> a.id == b.id && a.state != b.state,
{
    lemma_event_origin(previous, current, i);
    let e = diff_events(previous, current)[i];
    if e is StateChanged {
        let j = choose|j: int| 0 <= j < current.len() && current_event(previous, current[j]) == Some(e);
        lemma_event_of_job(previous, current[j]);
    }
}

/// Some entry with this id at or before `i` is the first one.
proof fn lemma_first_with_id(js: Seq<JobView>, id: Seq<char>, i: int)
    requires
        0 <= i < js.len(),
        js[i].id == id,
    ensures
        exists|k: int| 0 <= k < js.len() && js[k].id == id && forall|j: int| 0 <= j < k ==> js[j].id != id,
    decreases i,
{
    if exists|j: int| 0 <= j < i && js[j].id == id {
        let j = choose|j: int| 0 <= j < i && js[j].id == id;
        lemma_first_with_id(js, id, j);
    } else {
        assert(forall|j: int| 0 <= j < i ==> js[j].id != id);
    }
}

/// [`job_position`] finds the first entry with the id.
proof fn lemma_job_position_found(js: Seq<JobView>, id: Seq<char>)
    ensures
        job_position(js, id) matches Some(k) ==> 0 <= k < js.len() && js[k].id == id && forall|j: int|
            0 <= j < k ==> js[j].id != id,
{
    if exists|k: int| 0 <= k < js.len() && js[k].id == id {
        let i = choose|k: int| 0 <= k < js.len() && js[k].id == id;
        lemma_first_with_id(js, id, i);
    }
}

/// A job's state-change event pairs the job with an earlier entry of the
/// same id in another state.
proof fn lemma_event_of_job(previous: Seq<JobView>, job: JobView)
    ensures
        current_event(previous, job) matches Some(DiffView::StateChanged { previous: a, current: b })
            ==> a.id == b.id && a.state != b.state && b == job,
{
    lemma_job_position_found(previous, job.id);
}

/// Every event is justified by the snapshots: a new job has no earlier
/// entry with its id, a vanished job was listed before and has no current
/// entry with its id, and a state change pairs a current job with the first
/// earlier entry of its id.
pub proof fn law_events_justified(previous: Seq<JobView>, current: Seq<JobView>, i: int)
    requires
        0 <= i < diff_events(previous, current).len(),
    ensures
        diff_events(previous, current)[i] matches DiffView::New(j) ==> current.contains(j)
            && job_position(previous, j.id) is None,
        diff_events(previous, current)[i] matches DiffView::Vanished(j) ==> previous.contains(j)
            && job_position(current, j.id) is None,
        diff_events(previous, current)[i] matches DiffView::StateChanged { previous: a, current: b }
            ==> current.contains(b) && (job_position(previous, b.id) matches Some(p) && previous[p] == a),
{
    let xs = current.map_values(|j: JobView| current_event(previous, j));
    let ys = previous.map_values(|j: JobView| vanished_event(current, j));
    let a = keep_some(xs);
    let e = diff_events(previous, current)[i];
    if i < a.len() {
        assert(e == a[i]);
        lemma_keep_some_origin(xs, i);
        let j = choose|j: int| 0 <= j < xs.len() && xs[j] == Some(a[i]);
        assert(current_event(previous, current[j]) == Some(e));
        assert(current[j] == current[j]);
        lemma_job_position_found(previous, current[j].id);
        assert(e matches DiffView::New(x) ==> x == current[j]);
        assert(e matches DiffView::StateChanged { current: x, .. } ==> x == current[j]);
    } else {
        let b = keep_some(ys);
        assert(e == b[i - a.len()]);
        lemma_keep_some_origin(ys, i - a.len());
        let j = choose|j: int| 0 <= j < ys.len() && ys[j] == Some(b[i - a.len()]);
        assert(vanished_event(current, previous[j]) == Some(e));
        assert(e matches DiffView::Vanished(x) ==> x == previous[j]);
    }
}

/// A job that left the queue is resolved from the first line of its sacct
/// output alone: the final state is that line's state, reported only when
/// it differs from the last state seen, with `exit <code>` from its second
/// field.
pub proof fn law_vanished_from_main_line(job_state: Seq<char>, output: Seq<char>)
    ensures
        final_transition(job_state, sacct_record(output)) matches Some((s, d)) ==> {
            let f = crate::text::split(crate::text::lines(output)[0], '|');
            &&& crate::text::lines(output).len() > 0 && f.len() >= 5
            &&& s == crate::sacct::first_word(f[0])
            &&& s != job_state
            &&& d == "exit "@ + f[1]
        },
        sacct_record(output) matches Some(r) && r.state != job_state ==> final_transition(
            job_state,
            sacct_record(output),
        ) is Some,
{
}

/// A current job whose first earlier entry with the same id is in the same
/// state gives no event, whatever its other fields (time, reason, nodes)
/// became: it is reported neither as new nor as changed.
pub proof fn law_same_state_no_event(previous: Seq<JobView>, current: Seq<JobView>, k: int, p: int)
    requires
        0 <= k < current.len(),
        job_position(previous, current[k].id) == Some(p),
        previous[p].state == current[k].state,
    ensures
        forall|i: int|
            0 <= i < diff_events(previous, current).len() ==> {
                let e = #[trigger] diff_events(previous, current)[i];
                &&& e != DiffView::New(current[k])
                &&& !(e matches DiffView::StateChanged { current: c, .. } && c == current[k])
            },
{
    assert forall|i: int| 0 <= i < diff_events(previous, current).len() implies {
        let e = #[trigger] diff_events(previous, current)[i];
        &&& e != DiffView::New(current[k])
        &&& !(e matches DiffView::StateChanged { current: c, .. } && c == current[k])
    } by {
        lemma_event_origin(previous, current, i);
    }
}

proof fn lemma_keep_some_has<T>(xs: Seq<Option<T>>, k: int)
    requires
        0 <= k < xs.len(),
        xs[k] is Some,
    ensures
        keep_some(xs).contains(xs[k]->0),
    decreases xs.len(),
{
    if k == xs.len() - 1 {
        assert(keep_some(xs).last() == xs[k]->0);
    } else {
        lemma_keep_some_has(xs.drop_last(), k);
        let prev = keep_some(xs.drop_last());
        let i = choose|i: int| 0 <= i < prev.len() && prev[i] == xs[k]->0;
        match xs.last() {
            Some(v) => assert(keep_some(xs)[i] == prev[i]),
            None => {},
        }
    }
}

/// After a failure the delay never exceeds the maximum when it did not
/// before, and it never shrinks while below the maximum; a success goes
/// back to the base delay.
pub proof fn law_backoff_bounded(current: nat, base: nat, max: nat)
    requires
        current <= max,
    ensures
        backoff(current, base, max, false) <= max,
        backoff(current, base, max, false) >= current,
        backoff(current, base, max, true) == base,
{
}

/// The snapshot kept between polls has one job per id, so comparing it
/// with itself reports nothing.
pub proof fn law_kept_snapshot_quiet(jobs: Seq<JobView>, kept: Seq<JobView>)
    requires
        keyed(jobs, kept),
    ensures
        forall|a: int, b: int| 0 <= a < b < kept.len() ==> kept[a].id != kept[b].id,
        diff_events(kept, kept) == Seq::<DiffView>::empty(),
{
    assert forall|a: int, b: int| 0 <= a < b < kept.len() implies kept[a].id != kept[b].id by {
        lemma_text_less_irreflexive(kept[a].id);
    }
    law_unchanged_snapshot_no_events(kept);
}

// ---------------------------------------------------------------------------
// What the poll loop does with each event
// ---------------------------------------------------------------------------

/// The outside work the poll loop performs for one event, in this order:
/// fetch the job's stderr tail, record a history entry, send a desktop
/// notification.
#[derive(Debug, Clone, Copy, PartialEq, Eq)]
pub struct EventPlan {
    pub fetch_tail: bool,
    pub record: bool,
    pub notify: bool,
}

/// The plan for a job that moved into `to_state` at `now_hm` (a state
/// change in the queue, or the final state that sacct gives a job that left
/// it): the stderr tail is fetched for a failed state, the transition is
/// always recorded, and it is announced when the notification filter lets
/// it through.
pub fn plan_transition(cfg: &NotificationConfig, to_state: &str, now_hm: (u8, u8)) -> (r: EventPlan)
    ensures
        r.fetch_tail == failed_state(to_state@),
        r.record,
        r.notify == notify_wanted(*cfg, to_state@, now_hm),
{
    EventPlan {
        fetch_tail: is_failed_state(to_state),
        record: true,
        notify: should_notify(cfg, to_state, now_hm),
    }
}

/// An escalation notice is held back only by the quiet period: whenever a
/// transition into any state would be announced, a notice at the same time
/// is announced too, and a notice goes out even for a state that the
/// allow-list leaves out.
pub proof fn law_notices_pass_where_transitions_pass(
    cfg: NotificationConfig,
    to_state: Seq<char>,
    now: (u8, u8),
)
    ensures
        notify_wanted(cfg, to_state, now) ==> !quiet_hours(cfg, now),
        !quiet_hours(cfg, now) ==> (notify_wanted(cfg, to_state, now)
            <== crate::notify_filter::state_allowed(cfg, to_state)),
{
}

// ---------------------------------------------------------------------------
// What the poll loop does with each escalation notice
// ---------------------------------------------------------------------------

/// The history entry and desktop notification of one escalation notice:
/// the job's index in the snapshot, the states and detail of the history
/// entry, whether the notification goes out, and its new state and detail
/// (its old state is the entry's).
#[derive(Debug, Clone, PartialEq, Eq)]
pub struct NoticeAction {
    pub job: usize,
    pub from: String,
    pub to: String,
    pub detail: String,
    pub notify: bool,
    pub notify_to: String,
    pub notify_detail: String,
}

pub struct NoticeActionView {
    pub job: int,
    pub from: Seq<char>,
    pub to: Seq<char>,
    pub detail: Seq<char>,
    pub notify: bool,
    pub notify_to: Seq<char>,
    pub notify_detail: Seq<char>,
}

impl View for NoticeAction {
    type V = NoticeActionView;

    open spec fn view(&self) -> NoticeActionView {
        NoticeActionView {
            job: self.job as int,
            from: self.from@,
            to: self.to@,
            detail: self.detail@,
            notify: self.notify,
            notify_to: self.notify_to@,
            notify_detail: self.notify_detail@,
        }
    }
}

pub open spec fn actions_view(v: Seq<NoticeAction>) -> Seq<NoticeActionView> {
    v.map_values(|a: NoticeAction| a@)
}

/// The index of the job that a notice is about.
pub open spec fn notice_job(n: Notice) -> int {
    match n {
        Notice::PendingTooLong(i) => i as int,
        Notice::WalltimeCrossed(i) => i as int,
    }
}

/// What one notice about a job of `jobs` comes to, with the pending
/// threshold `after`, the walltime share `pct` and the time of day `now`:
/// a job pending too long is recorded as `PENDING -> PENDING` with the
/// detail `"pending too long <reason>"` and announced as `"still PENDING
/// <reason>"`, queued for over the threshold; a job past its walltime share
/// is recorded and announced as `RUNNING -> RUNNING` with `"<pct>% of
/// walltime used"`. Either is announced outside the quiet period.
pub open spec fn notice_action(
    cfg: NotificationConfig,
    jobs: Seq<JobView>,
    n: Notice,
    after: u64,
    pct: u32,
    now: (u8, u8),
) -> NoticeActionView {
    match n {
        Notice::PendingTooLong(i) => NoticeActionView {
            job: i as int,
            from: "PENDING"@,
            to: "PENDING"@,
            detail: pending_history_text(jobs[i as int].reason),
            notify: !quiet_hours(cfg, now),
            notify_to: pending_notice_state_text(jobs[i as int].reason),
            notify_detail: pending_notice_detail_text(after as nat),
        },
        Notice::WalltimeCrossed(i) => NoticeActionView {
            job: i as int,
            from: "RUNNING"@,
            to: "RUNNING"@,
            detail: walltime_text(pct as nat),
            notify: !quiet_hours(cfg, now),
            notify_to: "RUNNING"@,
            notify_detail: walltime_text(pct as nat),
        },
    }
}

/// The actions of a tick's notices, in their order; a notice about no job
/// of the snapshot is passed over.
pub open spec fn notice_actions_of(
    cfg: NotificationConfig,
    jobs: Seq<JobView>,
    ns: Seq<Notice>,
    after: u64,
    pct: u32,
    now: (u8, u8),
) -> Seq<NoticeActionView>
    decreases ns.len(),
{
    if ns.len() == 0 {
        Seq::empty()
    } else {
        let rest = notice_actions_of(cfg, jobs, ns.drop_last(), after, pct, now);
        if 0 <= notice_job(ns.last()) < jobs.len() {
            rest.push(notice_action(cfg, jobs, ns.last(), after, pct, now))
        } else {
            rest
        }
    }
}

/// The history entries and notifications of a tick's notices (see
/// [`notice_actions_of`]).
pub fn notice_actions(
    cfg: &NotificationConfig,
    current: &[JobStatus],
    notices: &[Notice],
    after: u64,
    pct: u32,
    now_hm: (u8, u8),
) -> (r: Vec<NoticeAction>)
    ensures
        actions_view(r@) == notice_actions_of(*cfg, jobs_view(current@), notices@, after, pct, now_hm),
{
    let ghost jv = jobs_view(current@);
    let notify = !in_quiet_hours(cfg, now_hm);
    let mut r: Vec<NoticeAction> = Vec::new();
    let mut k: usize = 0;
    assert(notices@.take(0) =~= Seq::<Notice>::empty());
    while k < notices.len()
        invariant
            k <= notices@.len(),
            jv == jobs_view(current@),
            notify == !quiet_hours(*cfg, now_hm),
            actions_view(r@) == notice_actions_of(*cfg, jv, notices@.take(k as int), after, pct, now_hm),
        decreases notices.len() - k,
    {
        let ghost before = r@;
        let n = notices[k];
        proof {
            assert(notices@.take(k + 1).drop_last() =~= notices@.take(k as int));
            assert(notices@.take(k + 1).last() == n);
        }
        match n {
            Notice::PendingTooLong(i) => {
                if i < current.len() {
                    let reason = current[i].reason.as_str();
                    r.push(
                        NoticeAction {
                            job: i,
                            from: String::from_str("PENDING"),
                            to: String::from_str("PENDING"),
                            detail: pending_history_detail(reason),
                            notify,
                            notify_to: pending_notice_state(reason),
                            notify_detail: pending_notice_detail(after),
                        },
                    );
                    proof {
                        assert(jv[i as int] == current@[i as int]@);
                        assert(actions_view(r@) =~= actions_view(before).push(
                            notice_action(*cfg, jv, n, after, pct, now_hm),
                        ));
                    }
                }
            },
            Notice::WalltimeCrossed(i) => {
                if i < current.len() {
                    r.push(
                        NoticeAction {
                            job: i,
                            from: String::from_str("RUNNING"),
                            to: String::from_str("RUNNING"),
                            detail: walltime_message(pct),
                            notify,
                            notify_to: String::from_str("RUNNING"),
                            notify_detail: walltime_message(pct),
                        },
                    );
                    proof {
                        assert(actions_view(r@) =~= actions_view(before).push(
                            notice_action(*cfg, jv, n, after, pct, now_hm),
                        ));
                    }
                }
            },
        }
        k = k + 1;
    }
    assert(notices@.take(notices@.len() as int) =~= notices@);
    r
}

/// Some action of `acts` records, for a job of `jobs` with this id, a
/// history entry whose detail starts with `"pending too long"`.
pub open spec fn pending_entry_for(acts: Seq<NoticeActionView>, jobs: Seq<JobView>, id: Seq<char>) -> bool {
    exists|k: int|
        0 <= k < acts.len() && 0 <= (#[trigger] acts[k]).job < jobs.len() && jobs[acts[k].job].id
            == id && has_prefix(acts[k].detail, "pending too long"@)
}

/// Some action of `acts` records, for a job of `jobs` with this id, a
/// history entry with the detail `"<pct>% of walltime used"`.
pub open spec fn walltime_entry_for(
    acts: Seq<NoticeActionView>,
    jobs: Seq<JobView>,
    id: Seq<char>,
    pct: u32,
) -> bool {
    exists|k: int|
        0 <= k < acts.len() && 0 <= (#[trigger] acts[k]).job < jobs.len() && jobs[acts[k].job].id
            == id && acts[k].detail == walltime_text(pct as nat)
}

proof fn lemma_decimal_leads_with_digit(n: nat)
    ensures
        decimal(n).len() >= 1,
        '0' <= decimal(n)[0] <= '9',
    decreases n,
{
    if n >= 10 {
        lemma_decimal_leads_with_digit(n / 10);
        assert(decimal(n)[0] == decimal(n / 10)[0]);
    }
}

/// A pending-too-long entry comes only from a pending-too-long notice, and
/// a walltime entry only from a walltime notice, about the same job.
proof fn lemma_entries_from_notices(
    cfg: NotificationConfig,
    jobs: Seq<JobView>,
    ns: Seq<Notice>,
    after: u64,
    pct: u32,
    now: (u8, u8),
    id: Seq<char>,
)
    ensures
        pending_entry_for(notice_actions_of(cfg, jobs, ns, after, pct, now), jobs, id)
            ==> pending_notice_for(ns, jobs, id),
        walltime_entry_for(notice_actions_of(cfg, jobs, ns, after, pct, now), jobs, id, pct)
            ==> walltime_notice_for(ns, jobs, id),
    decreases ns.len(),
{
    reveal_strlit("pending too long");
    reveal_strlit("pending too long ");
    reveal_strlit("% of walltime used");
    if ns.len() > 0 {
        let init = ns.drop_last();
        let rest = notice_actions_of(cfg, jobs, init, after, pct, now);
        let acts = notice_actions_of(cfg, jobs, ns, after, pct, now);
        lemma_entries_from_notices(cfg, jobs, init, after, pct, now, id);
        lemma_decimal_leads_with_digit(pct as nat);
        let last = ns.len() - 1;
        if pending_entry_for(acts, jobs, id) {
            let k = choose|k: int|
                0 <= k < acts.len() && 0 <= (#[trigger] acts[k]).job < jobs.len() && jobs[acts[k].job].id
                    == id && has_prefix(acts[k].detail, "pending too long"@);
            if k < rest.len() {
                assert(acts[k] == rest[k]);
                assert(pending_entry_for(rest, jobs, id));
                let n = choose|n: int|
                    0 <= n < init.len() && (#[trigger] init[n] matches Notice::PendingTooLong(i) && i
                        < jobs.len() && jobs[i as int].id == id);
                assert(ns[n] == init[n]);
            } else {
                assert(acts[k] == notice_action(cfg, jobs, ns.last(), after, pct, now));
                assert(acts[k].detail.subrange(0, 16)[0] == acts[k].detail[0]);
                assert(acts[k].detail[0] == 'p');
                match ns.last() {
                    Notice::PendingTooLong(i) => {
                        assert(ns[last] matches Notice::PendingTooLong(j) && j < jobs.len()
                            && jobs[j as int].id == id);
                    },
                    Notice::WalltimeCrossed(i) => {
                        assert(acts[k].detail[0] == decimal(pct as nat)[0]);
                    },
                }
            }
        }
        if walltime_entry_for(acts, jobs, id, pct) {
            let k = choose|k: int|
                0 <= k < acts.len() && 0 <= (#[trigger] acts[k]).job < jobs.len() && jobs[acts[k].job].id
                    == id && acts[k].detail == walltime_text(pct as nat);
            if k < rest.len() {
                assert(acts[k] == rest[k]);
                assert(walltime_entry_for(rest, jobs, id, pct));
                let n = choose|n: int|
                    0 <= n < init.len() && (#[trigger] init[n] matches Notice::WalltimeCrossed(i) && i
                        < jobs.len() && jobs[i as int].id == id);
                assert(ns[n] == init[n]);
            } else {
                assert(acts[k] == notice_action(cfg, jobs, ns.last(), after, pct, now));
                assert(acts[k].detail[0] == decimal(pct as nat)[0]);
                match ns.last() {
                    Notice::PendingTooLong(i) => {
                        assert(acts[k].detail[0] == 'p');
                    },
                    Notice::WalltimeCrossed(i) => {
                        assert(ns[last] matches Notice::WalltimeCrossed(j) && j < jobs.len()
                            && jobs[j as int].id == id);
                    },
                }
            }
        }
    }
}

/// The actions of tick `i` of a run of snapshots taken at times `nows`
/// and times of day `hms`, with the thresholds `after` and `pct`.
pub open spec fn actions_at(
    cfg: NotificationConfig,
    st: EscalationView,
    snaps: Seq<Seq<JobView>>,
    nows: Seq<u64>,
    hms: Seq<(u8, u8)>,
    after: u64,
    pct: u32,
    i: nat,
) -> Seq<NoticeActionView> {
    notice_actions_of(cfg, snaps[i as int], notices_at(st, snaps, nows, after, pct, i), after, pct, hms[i as int])
}

/// While a job stays in the queue, at most one history entry says it is
/// pending too long: after the tick that records one, no later tick of the
/// stay records another.
pub proof fn law_pending_entry_once_per_stay(
    cfg: NotificationConfig,
    st: EscalationView,
    snaps: Seq<Seq<JobView>>,
    nows: Seq<u64>,
    hms: Seq<(u8, u8)>,
    after: u64,
    pct: u32,
    id: Seq<char>,
    i: nat,
    j: nat,
)
    requires
        i < j < snaps.len(),
        nows.len() == snaps.len(),
        forall|t: int| 0 <= t < snaps.len() ==> (#[trigger] snaps[t]).len() <= usize::MAX,
        forall|t: int| i <= t <= j ==> listed(#[trigger] snaps[t], id),
        pending_entry_for(actions_at(cfg, st, snaps, nows, hms, after, pct, i), snaps[i as int], id),
    ensures
        !pending_entry_for(actions_at(cfg, st, snaps, nows, hms, after, pct, j), snaps[j as int], id),
{
    lemma_entries_from_notices(cfg, snaps[i as int], notices_at(st, snaps, nows, after, pct, i), after, pct, hms[i as int], id);
    lemma_entries_from_notices(cfg, snaps[j as int], notices_at(st, snaps, nows, after, pct, j), after, pct, hms[j as int], id);
    law_pending_notice_once_per_stay(st, snaps, nows, after, pct, id, i, j);
}

/// While a job stays in the queue, at most one history entry says it has
/// used `pct`% of its walltime.
pub proof fn law_walltime_entry_once_per_stay(
    cfg: NotificationConfig,
    st: EscalationView,
    snaps: Seq<Seq<JobView>>,
    nows: Seq<u64>,
    hms: Seq<(u8, u8)>,
    after: u64,
    pct: u32,
    id: Seq<char>,
    i: nat,
    j: nat,
)
    requires
        i < j < snaps.len(),
        nows.len() == snaps.len(),
        forall|t: int| 0 <= t < snaps.len() ==> (#[trigger] snaps[t]).len() <= usize::MAX,
        forall|t: int| i <= t <= j ==> listed(#[trigger] snaps[t], id),
        walltime_entry_for(actions_at(cfg, st, snaps, nows, hms, after, pct, i), snaps[i as int], id, pct),
    ensures
        !walltime_entry_for(actions_at(cfg, st, snaps, nows, hms, after, pct, j), snaps[j as int], id, pct),
{
    lemma_entries_from_notices(cfg, snaps[i as int], notices_at(st, snaps, nows, after, pct, i), after, pct, hms[i as int], id);
    lemma_entries_from_notices(cfg, snaps[j as int], notices_at(st, snaps, nows, after, pct, j), after, pct, hms[j as int], id);
    law_walltime_notice_once_per_stay(st, snaps, nows, after, pct, id, i, j);
}

/// A threshold of 0 turns its entries off: no pending-too-long entry when
/// `after` is 0, no walltime entry when `pct` is 0.
pub proof fn law_zero_threshold_no_entries(
    cfg: NotificationConfig,
    st: EscalationView,
    jobs: Seq<JobView>,
    now: u64,
    hm: (u8, u8),
    after: u64,
    pct: u32,
    id: Seq<char>,
)
    requires
        jobs.len() <= usize::MAX,
    ensures
        after == 0 ==> !pending_entry_for(
            notice_actions_of(cfg, jobs, after_tick(st, jobs, now, after, pct).1, after, pct, hm),
            jobs,
            id,
        ),
        pct == 0 ==> !walltime_entry_for(
            notice_actions_of(cfg, jobs, after_tick(st, jobs, now, after, pct).1, after, pct, hm),
            jobs,
            id,
            pct,
        ),
{
    lemma_entries_from_notices(cfg, jobs, after_tick(st, jobs, now, after, pct).1, after, pct, hm, id);
    law_zero_threshold_is_off(st, jobs, now, after, pct, id);
}

// ---------------------------------------------------------------------------
// One poll
// ---------------------------------------------------------------------------

/// The outside work of one poll, in order.
#[derive(Debug, Clone, PartialEq, Eq)]
pub enum PollAction {
    /// Handle the state change at this index of the poll's events (see
    /// [`plan_transition`]).
    Transition(usize),
    /// Look up the job that left the queue, the event at this index, with
    /// this `sacct` command, and resolve it (see [`resolve_vanished`]).
    LookupSacct(usize, String),
    /// Tick the escalation tracker over the new snapshot and carry out its
    /// notices (see [`notice_actions`]).
    Escalate,
    /// Keep the new snapshot, publish its jobs and report the cluster
    /// connected; then wait for the next poll.
    Publish,
    /// Report the cluster disconnected and stop polling.
    Stop,
}

pub enum PollActionView {
    Transition(int),
    LookupSacct(int, Seq<char>),
    Escalate,
    Publish,
    Stop,
}

impl View for PollAction {
    type V = PollActionView;

    open spec fn view(&self) -> PollActionView {
        match self {
            PollAction::Transition(k) => PollActionView::Transition(*k as int),
            PollAction::LookupSacct(k, c) => PollActionView::LookupSacct(*k as int, c@),
            PollAction::Escalate => PollActionView::Escalate,
            PollAction::Publish => PollActionView::Publish,
            PollAction::Stop => PollActionView::Stop,
        }
    }
}

pub open spec fn poll_actions_view(v: Seq<PollAction>) -> Seq<PollActionView> {
    v.map_values(|a: PollAction| a@)
}

/// The work that the changes `evs` call for, in their order: a state change
/// is handled, a job that left the queue is looked up in `sacct`, a new job
/// calls for nothing.
pub open spec fn event_work(evs: Seq<DiffView>, conf: Option<Seq<char>>) -> Seq<PollActionView>
    decreases evs.len(),
{
    if evs.len() == 0 {
        Seq::empty()
    } else {
        let rest = event_work(evs.drop_last(), conf);
        let k = evs.len() - 1;
        match evs.last() {
            DiffView::StateChanged { .. } => rest.push(PollActionView::Transition(k)),
            DiffView::Vanished(j) => rest.push(PollActionView::LookupSacct(k, sacct_command(j.id, conf))),
            DiffView::New(_) => rest,
        }
    }
}

/// The result of one poll: the snapshot kept for the next one, the jobs of
/// this one, their changes, and the work to do.
pub struct PollStep {
    pub next: Vec<JobStatus>,
    pub current: Vec<JobStatus>,
    pub events: Vec<DiffEvent>,
    pub actions: Vec<PollAction>,
}

/// One poll of a cluster, given the snapshot kept from the last one and the
/// `squeue` answer (`None` when the query failed). A failed query leaves the
/// snapshot as it was and stops the poller. An answer is parsed; its
/// changes against the kept snapshot call for their work (see
/// [`event_work`]), then the escalation notices, then the new snapshot,
/// keyed by job id, is kept and published.
#[verifier::rlimit(40)]
pub fn poll_step(
    previous: Vec<JobStatus>,
    cluster: &str,
    conf: Option<&str>,
    answer: Option<&str>,
) -> (r: PollStep)
    ensures
        match answer {
            None => {
                &&& jobs_view(r.next@) == jobs_view(previous@)
                &&& r.current@.len() == 0
                &&& r.events@.len() == 0
                &&& poll_actions_view(r.actions@) == seq![PollActionView::Stop]
            },
            Some(out) => {
                &&& jobs_view(r.current@) == squeue_jobs(out@, cluster@)
                &&& events_view(r.events@) == diff_events(jobs_view(previous@), jobs_view(r.current@))
                &&& keyed(jobs_view(r.current@), jobs_view(r.next@))
                &&& poll_actions_view(r.actions@) == event_work(
                    events_view(r.events@),
                    opt_str_view(conf),
                ) + seq![PollActionView::Escalate, PollActionView::Publish]
            },
        },
{
    match answer {
        None => {
            let mut actions: Vec<PollAction> = Vec::new();
            actions.push(PollAction::Stop);
            assert(poll_actions_view(actions@) =~= seq![PollActionView::Stop]);
            PollStep { next: previous, current: Vec::new(), events: Vec::new(), actions }
        },
        Some(out) => {
            let current = parse_squeue_output(out, cluster);
            let events = diff(previous.as_slice(), current.as_slice());
            let next = keyed_snapshot(current.as_slice());
            let ghost ev = events_view(events@);
            let ghost cv = opt_str_view(conf);
            let mut actions: Vec<PollAction> = Vec::new();
            let mut k: usize = 0;
            assert(ev.take(0) =~= Seq::<DiffView>::empty());
            while k < events.len()
                invariant
                    k <= events@.len(),
                    ev == events_view(events@),
                    cv == opt_str_view(conf),
                    poll_actions_view(actions@) == event_work(ev.take(k as int), cv),
                decreases events.len() - k,
            {
                let ghost before = actions@;
                proof {
                    assert(ev.take(k + 1).drop_last() =~= ev.take(k as int));
                    assert(ev.take(k + 1).last() == events@[k as int]@);
                }
                match &events[k] {
                    DiffEvent::StateChanged { .. } => {
                        actions.push(PollAction::Transition(k));
                        assert(poll_actions_view(actions@) =~= poll_actions_view(before).push(
                            PollActionView::Transition(k as int),
                        ));
                    },
                    DiffEvent::Vanished(j) => {
                        let cmd = build_sacct_command(j.id.as_str(), conf);
                        actions.push(PollAction::LookupSacct(k, cmd));
                        assert(poll_actions_view(actions@) =~= poll_actions_view(before).push(
                            PollActionView::LookupSacct(k as int, sacct_command(j.id@, cv)),
                        ));
                    },
                    DiffEvent::New(_) => {},
                }
                k = k + 1;
            }
            assert(ev.take(ev.len() as int) =~= ev);
            let ghost work = poll_actions_view(actions@);
            actions.push(PollAction::Escalate);
            actions.push(PollAction::Publish);
            assert(poll_actions_view(actions@) =~= work + seq![
                PollActionView::Escalate,
                PollActionView::Publish,
            ]);
            PollStep { next, current, events, actions }
        },
    }
}

} // verus!
