//! The bounded log of job transitions shown in the UI.
use vstd::prelude::*;

use std::collections::VecDeque;

verus! {

broadcast use vstd::string::group_string_axioms;

/// How many entries the history keeps; older ones are dropped first.
pub const MAX_HISTORY: usize = 50;

/// One recorded transition of a job.
#[derive(Debug, Clone)]
pub struct HistoryEntry {
    pub timestamp_secs: u64,
    pub cluster: String,
    pub job_name: String,
    pub job_id: String,
    pub from_state: String,
    pub to_state: String,
    pub detail: Option<String>,
}

pub struct EntryView {
    pub timestamp_secs: u64,
    pub cluster: Seq<char>,
    pub job_name: Seq<char>,
    pub job_id: Seq<char>,
    pub from_state: Seq<char>,
    pub to_state: Seq<char>,
    pub detail: Option<Seq<char>>,
}

impl View for HistoryEntry {
    type V = EntryView;

    open spec fn view(&self) -> EntryView {
        EntryView {
            timestamp_secs: self.timestamp_secs,
            cluster: self.cluster@,
            job_name: self.job_name@,
            job_id: self.job_id@,
            from_state: self.from_state@,
            to_state: self.to_state@,
            detail: match self.detail {
                Some(d) => Some(d@),
                None => None,
            },
        }
    }
}

impl HistoryEntry {
    /// A field-by-field copy.
    pub fn duplicate(&self) -> (r: Self)
        ensures
            r@ == self@,
    {
        HistoryEntry {
            timestamp_secs: self.timestamp_secs,
            cluster: self.cluster.clone(),
            job_name: self.job_name.clone(),
            job_id: self.job_id.clone(),
            from_state: self.from_state.clone(),
            to_state: self.to_state.clone(),
            detail: match &self.detail {
                Some(d) => Some(d.clone()),
                None => None,
            },
        }
    }
}

pub open spec fn entries_view(v: Seq<HistoryEntry>) -> Seq<EntryView> {
    v.map_values(|e: HistoryEntry| e@)
}

/// The entries after recording `e`: appended, and the oldest dropped when
/// that makes more than [`MAX_HISTORY`].
pub open spec fn recorded(h: Seq<EntryView>, e: EntryView) -> Seq<EntryView> {
    let s = h.push(e);
    if s.len() > MAX_HISTORY {
        s.drop_first()
    } else {
        s
    }
}

/// The `n` newest entries (all of them when there are fewer), newest
/// first.
pub open spec fn newest(h: Seq<EntryView>, n: nat) -> Seq<EntryView> {
    let k = if n < h.len() {
        n
    } else {
        h.len()
    };
    Seq::new(k, |i: int| h[h.len() - 1 - i])
}

/// The transitions recorded so far, oldest first, at most
/// [`MAX_HISTORY`] of them.
#[derive(Debug)]
pub struct History {
    entries: VecDeque<HistoryEntry>,
}

impl View for History {
    type V = Seq<EntryView>;

    closed spec fn view(&self) -> Seq<EntryView> {
        entries_view(self.entries@)
    }
}

impl History {
    /// At most [`MAX_HISTORY`] entries are held.
    #[verifier::type_invariant]
    spec fn bounded(&self) -> bool {
        self.entries@.len() <= MAX_HISTORY
    }

    pub fn new() -> (r: Self)
        ensures
            r@ == Seq::<EntryView>::empty(),
    {
        let r = History { entries: VecDeque::new() };
        assert(r@ =~= Seq::<EntryView>::empty());
        r
    }

    /// Record a transition.
    pub fn push(&mut self, entry: HistoryEntry)
        ensures
            final(self)@ == recorded(old(self)@, entry@),
    {
        proof {
            use_type_invariant(&*self);
        }
        let ghost before = self.entries@;
        let mut q: VecDeque<HistoryEntry> = VecDeque::new();
        std::mem::swap(&mut q, &mut self.entries);
        q.push_back(entry);
        assert(entries_view(q@) =~= entries_view(before).push(entry@));
        if q.len() > MAX_HISTORY {
            let ghost full = q@;
            q.pop_front();
            assert(entries_view(q@) =~= entries_view(full).drop_first());
        }
        self.entries = q;
    }

    /// The `n` newest entries, newest first.
    pub fn recent(&self, n: usize) -> (r: Vec<HistoryEntry>)
        ensures
            entries_view(r@) == newest(self@, n as nat),
    {
        let len = self.entries.len();
        let k = if n < len {
            n
        } else {
            len
        };
        let ghost h = self@;
        let mut r: Vec<HistoryEntry> = Vec::new();
        let mut i: usize = 0;
        while i < k
            invariant
                k <= len,
                k == if n < len {
                    n
                } else {
                    len
                },
                len == self.entries@.len(),
                h == self@,
                i <= k,
                entries_view(r@) == newest(h, n as nat).take(i as int),
            decreases k - i,
        {
            let src = &self.entries[len - 1 - i];
            let e = src.duplicate();
            assert(e@ == h[len - 1 - i]);
            let ghost before = r@;
            r.push(e);
            proof {
                let w = newest(h, n as nat);
                assert(h.len() == len);
                assert(w.len() == k);
                assert(w[i as int] == h[len - 1 - i]);
                assert(entries_view(r@) =~= entries_view(before).push(e@));
                assert(w.take(i + 1) =~= w.take(i as int).push(w[i as int]));
            }
            i = i + 1;
        }
        assert(newest(h, n as nat).take(k as int) =~= newest(h, n as nat));
        r
    }
}

impl Default for History {
    fn default() -> (r: Self)
        ensures
            r@ == Seq::<EntryView>::empty(),
    {
        History::new()
    }
}

/// The history never holds more than [`MAX_HISTORY`] entries, however many
/// are recorded.
pub proof fn law_history_bounded(h: Seq<EntryView>, e: EntryView)
    requires
        h.len() <= MAX_HISTORY,
    ensures
        recorded(h, e).len() <= MAX_HISTORY,
        recorded(h, e).last() == e,
{
}

/// The entry just recorded is the first one [`History::recent`] returns.
pub proof fn law_recent_starts_with_latest(h: Seq<EntryView>, e: EntryView, n: nat)
    requires
        h.len() <= MAX_HISTORY,
        n > 0,
    ensures
        newest(recorded(h, e), n).len() >= 1,
        newest(recorded(h, e), n)[0] == e,
{
}

} // verus!
