//! Per-client lockout after repeated failed PIN attempts.
//!
//! Each client (by IP string) has a count of failed attempts and the time of
//! the last one, in milliseconds of a monotonic clock. A client with at least
//! the configured number of failures (`MAX_ATTEMPTS`, 5 by default) is locked
//! out until `LOCKOUT_MS` have passed since its last attempt.

use vstd::prelude::*;
use crate::table::StrMap;
use crate::config::numeric_setting;

verus! {

/// Failed attempts that lock a client out when `MAX_ATTEMPTS` is not set.
pub const DEFAULT_MAX_ATTEMPTS: u32 = 5;

/// How long a lockout lasts: fifteen minutes, in milliseconds.
pub const LOCKOUT_MS: u64 = 900_000;

/// The failed attempts of one client.
#[derive(Clone, Copy, Debug, PartialEq, Eq, Structural)]
pub struct Attempt {
    pub count: u32,
    /// When the last attempt was made, in milliseconds of a monotonic clock.
    pub last_attempt: u64,
}

/// The number of failed attempts that locks a client out: `MAX_ATTEMPTS`
/// from the environment snapshot `env`, or 5 when it is unset or not a
/// number that fits a `u32`.
pub fn get_max_attempts(env: &StrMap<String>) -> (r: u32)
    ensures r as nat == numeric_setting(env@, "MAX_ATTEMPTS"@, u32::MAX as nat, DEFAULT_MAX_ATTEMPTS as nat),
{
    crate::config::numeric_var(env, "MAX_ATTEMPTS", 0xffff_ffff, 5) as u32
}

/// Milliseconds since the attempt `a`, as the clock reads `now`; a clock that
/// reads earlier than the attempt counts as no time passed.
pub open spec fn elapsed_ms(a: Attempt, now: u64) -> int {
    if now >= a.last_attempt { now - a.last_attempt } else { 0 }
}

/// `ip` is locked out at `now` in the table `m`, when `max` failures lock.
pub open spec fn locked_in(m: Map<Seq<char>, Attempt>, ip: Seq<char>, now: u64, max: u32) -> bool {
    &&& m.contains_key(ip)
    &&& m[ip].count >= max
    &&& elapsed_ms(m[ip], now) < LOCKOUT_MS
}

/// `ip` reached the limit, but its lockout is over at `now`.
pub open spec fn lock_expired(m: Map<Seq<char>, Attempt>, ip: Seq<char>, now: u64, max: u32) -> bool {
    &&& m.contains_key(ip)
    &&& m[ip].count >= max
    &&& elapsed_ms(m[ip], now) >= LOCKOUT_MS
}

/// The table after a lockout check: an expired lockout is forgotten.
pub open spec fn after_lock_check(m: Map<Seq<char>, Attempt>, ip: Seq<char>, now: u64, max: u32) -> Map<Seq<char>, Attempt> {
    if lock_expired(m, ip, now, max) { m.remove(ip) } else { m }
}

/// The attempt record of `ip` after one more failure at `now`.
pub open spec fn recorded(m: Map<Seq<char>, Attempt>, ip: Seq<char>, now: u64) -> Attempt {
    Attempt {
        count: (if m.contains_key(ip) { m[ip].count + 1 } else { 1 }) as u32,
        last_attempt: now,
    }
}

/// The table after `k` failures of `ip`, all at `now`.
pub open spec fn record_times(m: Map<Seq<char>, Attempt>, ip: Seq<char>, now: u64, k: nat) -> Map<Seq<char>, Attempt>
    decreases k,
{
    if k == 0 {
        m
    } else {
        let prev = record_times(m, ip, now, (k - 1) as nat);
        prev.insert(ip, recorded(prev, ip, now))
    }
}

/// Whole seconds left in `ip`'s lockout, or 0 when it is not locked out.
pub open spec fn remaining_secs(m: Map<Seq<char>, Attempt>, ip: Seq<char>, now: u64, max: u32) -> u64 {
    if locked_in(m, ip, now, max) {
        ((LOCKOUT_MS - elapsed_ms(m[ip], now)) / 1000) as u64
    } else {
        0
    }
}

/// The failed attempts of every client.
pub struct LockoutTable {
    attempts: StrMap<Attempt>,
}

impl View for LockoutTable {
    type V = Map<Seq<char>, Attempt>;

    closed spec fn view(&self) -> Map<Seq<char>, Attempt> {
        self.attempts@
    }
}

fn elapsed_since(a: &Attempt, now: u64) -> (r: u64)
    ensures r == elapsed_ms(*a, now),
{
    if now >= a.last_attempt { now - a.last_attempt } else { 0 }
}

impl LockoutTable {
    /// A table with no recorded attempts.
    pub fn new() -> (r: Self)
        ensures r@ == Map::<Seq<char>, Attempt>::empty(),
    {
        LockoutTable { attempts: StrMap::new() }
    }

    /// The record of `ip`, if it has one.
    pub fn get_attempt(&self, ip: &str) -> (r: Option<Attempt>)
        ensures r == (if self@.contains_key(ip@) { Some(self@[ip@]) } else { None::<Attempt> }),
    {
        match self.attempts.get(ip) {
            Some(a) => Some(*a),
            None => None,
        }
    }

    /// Forgets the failed attempts of `ip` (after a successful login).
    pub fn reset_attempts(&mut self, ip: &str)
        ensures final(self)@ == old(self)@.remove(ip@),
    {
        self.attempts.remove(ip);
    }

    /// Whether `ip` is locked out at `now`. A lockout that has run out is
    /// forgotten on the way.
    pub fn is_locked_out(&mut self, ip: &str, now: u64, max_attempts: u32) -> (r: bool)
        ensures
            r == locked_in(old(self)@, ip@, now, max_attempts),
            final(self)@ == after_lock_check(old(self)@, ip@, now, max_attempts),
    {
        let mut expired = false;
        match self.attempts.get(ip) {
            Some(a) => {
                if a.count >= max_attempts {
                    if elapsed_since(a, now) < LOCKOUT_MS {
                        return true;
                    }
                    expired = true;
                }
            },
            None => {},
        }
        if expired {
            self.attempts.remove(ip);
        }
        false
    }

    /// Records one more failed attempt of `ip` at `now` and returns its record.
    pub fn record_attempt(&mut self, ip: &str, now: u64) -> (r: Attempt)
        requires
            old(self)@.contains_key(ip@) ==> old(self)@[ip@].count < u32::MAX,
        ensures
            r == recorded(old(self)@, ip@, now),
            final(self)@ == old(self)@.insert(ip@, r),
    {
        let count = match self.attempts.get(ip) {
            Some(a) => a.count + 1,
            None => 1,
        };
        let a = Attempt { count, last_attempt: now };
        self.attempts.insert(String::from_str(ip), a);
        a
    }

    /// Whole seconds left in the lockout of `ip`, or 0 when it is not locked
    /// out (fewer than `max_attempts` failures, or the lockout is over).
    pub fn get_lockout_time_remaining(&self, ip: &str, now: u64, max_attempts: u32) -> (r: u64)
        ensures r == remaining_secs(self@, ip@, now, max_attempts),
    {
        match self.attempts.get(ip) {
            Some(a) => {
                let e = elapsed_since(a, now);
                if a.count >= max_attempts && e < LOCKOUT_MS { (LOCKOUT_MS - e) / 1000 } else { 0 }
            },
            None => 0,
        }
    }
}

/// After its attempts are reset, a client is not locked out.
pub proof fn law_reset_unlocks(m: Map<Seq<char>, Attempt>, ip: Seq<char>, now: u64, max: u32)
    ensures !locked_in(m.remove(ip), ip, now, max), remaining_secs(m.remove(ip), ip, now, max) == 0,
{
}

/// `max` failures in a row from a clean record lock the client out at once,
/// for the whole lockout.
pub proof fn law_max_failures_lock(m: Map<Seq<char>, Attempt>, ip: Seq<char>, now: u64, max: u32)
    requires max >= 1,
    ensures
        record_times(m.remove(ip), ip, now, max as nat)[ip].count == max,
        locked_in(record_times(m.remove(ip), ip, now, max as nat), ip, now, max),
        remaining_secs(record_times(m.remove(ip), ip, now, max as nat), ip, now, max) == LOCKOUT_MS / 1000,
{
    lemma_record_times_count(m.remove(ip), ip, now, max as nat);
}

/// Fewer than `max` failures from a clean record do not lock a client out,
/// and no lockout time is reported.
pub proof fn law_fewer_failures_do_not_lock(m: Map<Seq<char>, Attempt>, ip: Seq<char>, now: u64, k: nat, max: u32)
    requires k < max,
    ensures
        !locked_in(record_times(m.remove(ip), ip, now, k), ip, now, max),
        remaining_secs(record_times(m.remove(ip), ip, now, k), ip, now, max) == 0,
{
    lemma_record_times_count(m.remove(ip), ip, now, k);
}

proof fn lemma_record_times_count(m: Map<Seq<char>, Attempt>, ip: Seq<char>, now: u64, k: nat)
    requires
        !m.contains_key(ip),
        k <= u32::MAX,
    ensures
        k > 0 ==> record_times(m, ip, now, k).contains_key(ip),
        k > 0 ==> record_times(m, ip, now, k)[ip] == (Attempt { count: k as u32, last_attempt: now }),
        k == 0 ==> !record_times(m, ip, now, k).contains_key(ip),
    decreases k,
{
    if k > 0 {
        lemma_record_times_count(m, ip, now, (k - 1) as nat);
    }
}

/// A client whose record reached the limit stays locked out for the whole
/// lockout window after its last attempt.
pub proof fn law_lock_lasts_window(m: Map<Seq<char>, Attempt>, ip: Seq<char>, t: u64, later: u64, max: u32)
    requires
        recorded(m, ip, t).count >= max,
        t <= later,
        later - t < LOCKOUT_MS,
    ensures locked_in(m.insert(ip, recorded(m, ip, t)), ip, later, max),
{
}

/// A lockout ends once `LOCKOUT_MS` have passed since the last attempt, and
/// the expired record is then forgotten.
pub proof fn law_lock_expires(m: Map<Seq<char>, Attempt>, ip: Seq<char>, now: u64, max: u32)
    requires
        m.contains_key(ip),
        elapsed_ms(m[ip], now) >= LOCKOUT_MS,
    ensures
        !locked_in(m, ip, now, max),
        remaining_secs(m, ip, now, max) == 0,
        m[ip].count >= max ==> !after_lock_check(m, ip, now, max).contains_key(ip),
{
}

/// What happens to one client's record leaves every other client's lockout
/// as it was.
pub proof fn law_clients_are_independent(m: Map<Seq<char>, Attempt>, ip: Seq<char>, other: Seq<char>, a: Attempt, now: u64, max: u32)
    requires ip != other,
    ensures
        locked_in(m.insert(ip, a), other, now, max) == locked_in(m, other, now, max),
        locked_in(m.remove(ip), other, now, max) == locked_in(m, other, now, max),
        locked_in(after_lock_check(m, ip, now, max), other, now, max) == locked_in(m, other, now, max),
{
}

/// Time is left only during a lockout, and never more than its length.
pub proof fn law_remaining_at_most_window(m: Map<Seq<char>, Attempt>, ip: Seq<char>, now: u64, max: u32)
    ensures
        remaining_secs(m, ip, now, max) <= LOCKOUT_MS / 1000,
        remaining_secs(m, ip, now, max) > 0 ==> locked_in(m, ip, now, max),
{
}

} // verus!
