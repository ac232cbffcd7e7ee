//! The decisions of the per-cluster connection supervisor: how a failed
//! connection is described, and how long to wait before the next attempt.
use vstd::prelude::*;

use crate::poller::{backoff, next_delay};
use crate::text::{chars_of, contains, contains_exec, fold, fold_exec};

verus! {

broadcast use vstd::string::group_string_axioms;

/// The user-facing category of a connection error, from its message
/// matched without regard to ASCII case.
pub open spec fn category(message: Seq<char>) -> Seq<char> {
    let s = fold(message);
    if contains(s, "auth"@) {
        "auth failed"@
    } else if contains(s, "connect"@) || contains(s, "network"@) || contains(s, "timed out"@) {
        "network / host unreachable"@
    } else {
        "connection error"@
    }
}

/// Categorize a connection error, given its message, into a user-facing
/// detail string.
pub fn categorize(message: &str) -> (r: &'static str)
    ensures
        r@ == category(message@),
{
    let s = fold_exec(&chars_of(message));
    if contains_exec(&s, &chars_of("auth")) {
        "auth failed"
    } else if contains_exec(&s, &chars_of("connect")) || contains_exec(&s, &chars_of("network"))
        || contains_exec(&s, &chars_of("timed out")) {
        "network / host unreachable"
    } else {
        "connection error"
    }
}

/// The first wait between connection attempts, in seconds.
pub const RETRY_BASE_SECS: u64 = 5;

/// The longest wait between connection attempts, in seconds.
pub const RETRY_MAX_SECS: u64 = 300;

/// The wait before the next connection attempt and the delay kept for the
/// attempt after it: a session that connected waits the base delay, a
/// failed attempt waits the current one; either way the kept delay doubles,
/// up to the maximum.
pub open spec fn retry_plan(delay: nat, connected: bool) -> (nat, nat) {
    let wait = if connected {
        RETRY_BASE_SECS as nat
    } else {
        delay
    };
    (wait, backoff(wait, RETRY_BASE_SECS as nat, RETRY_MAX_SECS as nat, false))
}

pub fn retry_schedule(delay: u64, connected: bool) -> (r: (u64, u64))
    ensures
        (r.0 as nat, r.1 as nat) == retry_plan(delay as nat, connected),
{
    let wait = if connected {
        RETRY_BASE_SECS
    } else {
        delay
    };
    let next = if wait <= RETRY_MAX_SECS {
        next_delay(wait, RETRY_BASE_SECS, RETRY_MAX_SECS, false)
    } else {
        RETRY_MAX_SECS
    };
    (wait, next)
}

/// Starting from the base delay, the wait never exceeds the maximum and
/// never drops below the base, whatever the attempts give.
pub proof fn law_retry_delay_bounded(delay: nat, connected: bool)
    requires
        RETRY_BASE_SECS <= delay <= RETRY_MAX_SECS,
    ensures
        RETRY_BASE_SECS <= retry_plan(delay, connected).0 <= RETRY_MAX_SECS,
        RETRY_BASE_SECS <= retry_plan(delay, connected).1 <= RETRY_MAX_SECS,
{
}

/// `2^k`.
pub open spec fn two_to(k: nat) -> nat
    decreases k,
{
    if k == 0 {
        1
    } else {
        2 * two_to((k - 1) as nat)
    }
}

/// The delay kept after `n` connection attempts in a row have failed,
/// counting from the first attempt, which starts at the base delay.
pub open spec fn delay_after_failures(n: nat) -> nat
    decreases n,
{
    if n == 0 {
        RETRY_BASE_SECS as nat
    } else {
        retry_plan(delay_after_failures((n - 1) as nat), false).1
    }
}

proof fn lemma_delay_after_failures(n: nat)
    ensures
        delay_after_failures(n) == if 5 * two_to(n) <= 300 {
            5 * two_to(n)
        } else {
            300
        },
    decreases n,
{
    if n > 0 {
        lemma_delay_after_failures((n - 1) as nat);
        assert(two_to(n) == 2 * two_to((n - 1) as nat));
    }
}

/// When the first `n` connection attempts all fail, the `i`-th failure
/// (counting from 1) waits `min(5 * 2^(i-1), 300)` seconds before the
/// next attempt.
pub proof fn law_retry_schedule(n: nat, i: nat)
    requires
        1 <= i <= n,
    ensures
        retry_plan(delay_after_failures((i - 1) as nat), false).0 == if 5 * two_to((i - 1) as nat)
            <= 300 {
            5 * two_to((i - 1) as nat)
        } else {
            300
        },
{
    lemma_delay_after_failures((i - 1) as nat);
}

} // verus!
