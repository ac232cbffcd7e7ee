//! Which job transitions are announced: the state allow-list and the daily
//! quiet period.
use vstd::prelude::*;

use crate::config::{strings_view, NotificationConfig};
use crate::number::{duration_secs, parse_slurm_duration};
use crate::text::{chars_of, eq_chars, parse_unsigned, parse_unsigned_exec, slice_copy};

verus! {

broadcast use vstd::string::group_string_axioms;

/// `"HH:MM"`: the text before the first `':'` and the text after it, each
/// read as a `u8` (an optional `'+'` then decimal digits up to 255).
pub open spec fn hm_of(s: Seq<char>) -> Option<(u8, u8)> {
    if exists|i: int| 0 <= i < s.len() && s[i] == ':' {
        let i = choose|i: int|
            0 <= i < s.len() && s[i] == ':' && forall|j: int| 0 <= j < i ==> s[j] != ':';
        match (parse_unsigned(s.take(i), 255), parse_unsigned(s.skip(i + 1), 255)) {
            (Some(h), Some(m)) => Some((h as u8, m as u8)),
            _ => None,
        }
    } else {
        None
    }
}

fn parse_hm(s: &str) -> (r: Option<(u8, u8)>)
    ensures
        r == hm_of(s@),
{
    let cs = chars_of(s);
    let mut i: usize = 0;
    while i < cs.len()
        invariant
            i <= cs@.len(),
            cs@ == s@,
            forall|j: int| 0 <= j < i ==> cs@[j] != ':',
        decreases cs.len() - i,
    {
        if cs[i] == ':' {
            proof {
                let c = choose|c: int|
                    0 <= c < s@.len() && s@[c] == ':' && forall|j: int|
                        0 <= j < c ==> s@[j] != ':';
                assert(0 <= i < s@.len() && s@[i as int] == ':');
                assert(c == i) by {
                    if c < i {
                        assert(cs@[c] != ':');
                    }
                    if i < c {
                        assert(s@[i as int] != ':');
                    }
                }
            }
            let h = parse_unsigned_exec(&slice_copy(&cs, 0, i), 255);
            let m = parse_unsigned_exec(&slice_copy(&cs, i + 1, cs.len()), 255);
            assert(cs@.subrange(0, i as int) =~= s@.take(i as int));
            assert(cs@.subrange(i + 1, cs@.len() as int) =~= s@.skip(i + 1));
            return match (h, m) {
                (Some(h), Some(m)) => Some((h as u8, m as u8)),
                _ => None,
            };
        }
        i = i + 1;
    }
    None
}

/// Minutes since midnight.
pub open spec fn minute_of(t: (u8, u8)) -> int {
    t.0 * 60 + t.1
}

/// `now` lies in the period from `start` (included) to `end` (excluded),
/// which wraps past midnight when it ends earlier than it starts.
pub open spec fn quiet_at(now: (u8, u8), start: (u8, u8), end: (u8, u8)) -> bool {
    let (n, s, e) = (minute_of(now), minute_of(start), minute_of(end));
    if s <= e {
        s <= n && n < e
    } else {
        n >= s || n < e
    }
}

fn in_quiet(now: (u8, u8), start: (u8, u8), end: (u8, u8)) -> (b: bool)
    ensures
        b == quiet_at(now, start, end),
{
    let n = now.0 as u16 * 60 + now.1 as u16;
    let s = start.0 as u16 * 60 + start.1 as u16;
    let e = end.0 as u16 * 60 + end.1 as u16;
    if s <= e {
        n >= s && n < e
    } else {
        n >= s || n < e
    }
}

/// The quiet period is configured (both ends present and readable) and
/// `now` lies in it.
pub open spec fn quiet_hours(cfg: NotificationConfig, now: (u8, u8)) -> bool {
    match (cfg.quiet_start, cfg.quiet_end) {
        (Some(qs), Some(qe)) => match (hm_of(qs@), hm_of(qe@)) {
            (Some(s), Some(e)) => quiet_at(now, s, e),
            _ => false,
        },
        _ => false,
    }
}

/// Whether `now` falls in the configured quiet period.
pub fn in_quiet_hours(cfg: &NotificationConfig, now_hm: (u8, u8)) -> (b: bool)
    ensures
        b == quiet_hours(*cfg, now_hm),
{
    match (&cfg.quiet_start, &cfg.quiet_end) {
        (Some(qs), Some(qe)) => match (parse_hm(qs.as_str()), parse_hm(qe.as_str())) {
            (Some(s), Some(e)) => in_quiet(now_hm, s, e),
            _ => false,
        },
        _ => false,
    }
}

/// The state passes the allow-list: the list is empty or names it.
pub open spec fn state_allowed(cfg: NotificationConfig, to_state: Seq<char>) -> bool {
    strings_view(cfg.notify_states@).len() == 0 || strings_view(cfg.notify_states@).contains(
        to_state,
    )
}

/// A transition into `to_state` at `now` is announced: the state passes the
/// allow-list and `now` is outside the quiet period.
pub open spec fn notify_wanted(cfg: NotificationConfig, to_state: Seq<char>, now: (u8, u8)) -> bool {
    state_allowed(cfg, to_state) && !quiet_hours(cfg, now)
}

pub fn should_notify(cfg: &NotificationConfig, to_state: &str, now_hm: (u8, u8)) -> (b: bool)
    ensures
        b == notify_wanted(*cfg, to_state@, now_hm),
{
    let want = chars_of(to_state);
    let n = cfg.notify_states.len();
    if n != 0 {
        let mut found = false;
        let mut i: usize = 0;
        while i < n
            invariant
                n == cfg.notify_states@.len(),
                i <= n,
                want@ == to_state@,
                found == exists|k: int| 0 <= k < i && cfg.notify_states@[k]@ == to_state@,
            decreases n - i,
        {
            let have = chars_of(cfg.notify_states[i].as_str());
            if eq_chars(&have, &want) {
                found = true;
            }
            i = i + 1;
        }
        proof {
            let v = strings_view(cfg.notify_states@);
            if found {
                let k = choose|k: int| 0 <= k < n && cfg.notify_states@[k]@ == to_state@;
                assert(v[k] == to_state@);
            } else {
                assert forall|k: int| 0 <= k < v.len() implies v[k] != to_state@ by {
                    assert(v[k] == cfg.notify_states@[k]@);
                }
            }
        }
        if !found {
            return false;
        }
    }
    !in_quiet_hours(cfg, now_hm)
}

/// A job pending for `queued_secs` is overdue when pending notices are on
/// (`after_secs > 0`) and it has waited longer than `after_secs`.
pub open spec fn overdue(queued_secs: nat, after_secs: nat) -> bool {
    after_secs > 0 && queued_secs > after_secs
}

pub fn pending_too_long(queued_secs: u64, after_secs: u64) -> (b: bool)
    ensures
        b == overdue(queued_secs as nat, after_secs as nat),
{
    after_secs > 0 && queued_secs > after_secs
}

/// The share of its time limit, in whole percent rounded down, that a
/// running job has used: its elapsed time and limit read as SLURM
/// durations; none when either does not read or the limit is zero.
pub open spec fn walltime_share(time: Seq<char>, time_limit: Seq<char>) -> Option<nat> {
    match (duration_secs(time), duration_secs(time_limit)) {
        (Some(e), Some(l)) => if l > 0 {
            Some(e * 100 / l)
        } else {
            None
        },
        _ => None,
    }
}

pub fn walltime_pct(time: &str, time_limit: &str) -> (r: Option<u128>)
    ensures
        match r {
            Some(p) => walltime_share(time@, time_limit@) == Some(p as nat),
            None => walltime_share(time@, time_limit@) is None,
        },
{
    match (parse_slurm_duration(time), parse_slurm_duration(time_limit)) {
        (Some(e), Some(l)) => if l > 0 {
            Some(e as u128 * 100 / l as u128)
        } else {
            None
        },
        _ => None,
    }
}

/// With an empty state list every transition is announced outside the
/// quiet period, and nothing is announced inside it.
pub proof fn law_empty_state_list_announces_all(cfg: NotificationConfig, to_state: Seq<char>, now: (u8, u8))
    requires
        cfg.notify_states@.len() == 0,
    ensures
        notify_wanted(cfg, to_state, now) == !quiet_hours(cfg, now),
{
}

/// A period that ends before it starts runs past midnight: it covers the
/// late evening and the early morning, and not the middle of the day.
pub proof fn law_quiet_period_wraps_midnight(start: (u8, u8), end: (u8, u8), now: (u8, u8))
    requires
        minute_of(end) < minute_of(start),
    ensures
        quiet_at(now, start, end) <==> (minute_of(now) >= minute_of(start) || minute_of(now) < minute_of(end)),
        minute_of(end) <= minute_of(now) < minute_of(start) ==> !quiet_at(now, start, end),
{
}

} // verus!
