//! The application state: the vault, the key held while unlocked, and the
//! time of the last activity (for the automatic lock).

use vstd::prelude::*;
use crate::crypto::CryptoKey;
use crate::db::DbState;
use std::time::{Duration, SystemTime, SystemTimeError, UNIX_EPOCH};

verus! {

#[verifier::external_type_specification]
#[verifier::external_body]
pub struct ExSystemTime(SystemTime);

#[verifier::external_type_specification]
#[verifier::external_body]
pub struct ExSystemTimeError(SystemTimeError);

/// `SystemTime::now`: the system clock. Its value is not stated.
#[verifier::external_body]
fn system_now() -> (t: SystemTime) {
    SystemTime::now()
}

/// `SystemTime::duration_since(UNIX_EPOCH)`: the time since the epoch, or an
/// error when the clock reads earlier. Nothing is stated of the result.
#[verifier::external_body]
fn since_unix_epoch(t: &SystemTime) -> (r: Result<Duration, SystemTimeError>) {
    t.duration_since(UNIX_EPOCH)
}

/// `Duration::as_secs`: the whole seconds of a duration (not stated, the
/// duration being opaque here).
#[verifier::external_body]
fn whole_seconds(d: &Duration) -> (s: u64) {
    d.as_secs()
}

/// The seconds read from the clock since the epoch, or 0 when the clock
/// reads before the epoch.
pub fn seconds_or_zero(r: Option<u64>) -> (s: u64)
    ensures
        s == (match r {
            Some(x) => x,
            None => 0,
        }),
{
    match r {
        Some(x) => x,
        None => 0,
    }
}

/// The current UNIX time in seconds, 0 when the clock reads before the
/// epoch (see [`seconds_or_zero`]); the clock's reading itself is not stated.
pub fn now_secs() -> (s: u64) {
    let t = system_now();
    let read = match since_unix_epoch(&t) {
        Ok(d) => Some(whole_seconds(&d)),
        Err(_) => None,
    };
    seconds_or_zero(read)
}

/// The global state: the vault, the key (none while locked) and the last
/// activity time (UNIX seconds).
pub struct AppState {
    pub db: DbState,
    pub crypto_key: Option<CryptoKey>,
    pub last_activity: u64,
}

impl AppState {
    /// A locked state over a vault, last active at `now`.
    pub fn new_at(db: DbState, now: u64) -> (s: AppState)
        ensures
            s.db == db,
            s.crypto_key is None,
            s.last_activity == now,
    {
        AppState { db, crypto_key: None, last_activity: now }
    }

    /// A locked state over a vault, active now (the clock's reading is not stated).
    pub fn new(db: DbState) -> (s: AppState)
        ensures
            s.db == db,
            s.crypto_key is None,
    {
        AppState::new_at(db, now_secs())
    }

    /// Holds the key (unlocking) and records activity at `now`.
    pub fn set_key_at(&mut self, key: CryptoKey, now: u64)
        ensures
            final(self).crypto_key == Some(key),
            final(self).db == old(self).db,
            final(self).last_activity == now,
    {
        self.crypto_key = Some(key);
        self.touch_at(now);
    }

    /// Holds the key (unlocking) and records activity now (the clock's
    /// reading is not stated).
    pub fn set_key(&mut self, key: CryptoKey)
        ensures
            final(self).crypto_key == Some(key),
            final(self).db == old(self).db,
    {
        self.set_key_at(key, now_secs());
    }

    /// Forgets the key (locking).
    pub fn clear_key(&mut self)
        ensures
            final(self).crypto_key is None,
            final(self).db == old(self).db,
            final(self).last_activity == old(self).last_activity,
    {
        self.crypto_key = None;
    }

    /// A copy of the key, if unlocked.
    pub fn get_key(&self) -> (r: Option<CryptoKey>)
        ensures
            r is Some <==> self.crypto_key is Some,
            r is Some ==> r->0.key@ == self.crypto_key->0.key@,
    {
        match &self.crypto_key {
            Some(k) => Some(k.duplicate()),
            None => None,
        }
    }

    /// Records activity at `now`.
    pub fn touch_at(&mut self, now: u64)
        ensures
            final(self).crypto_key == old(self).crypto_key,
            final(self).db == old(self).db,
            final(self).last_activity == now,
    {
        self.last_activity = now;
    }

    /// Records activity now: the last activity becomes the clock's reading
    /// (see [`AppState::touch_at`]; the reading itself is not stated).
    pub fn touch(&mut self)
        ensures
            final(self).crypto_key == old(self).crypto_key,
            final(self).db == old(self).db,
    {
        self.touch_at(now_secs());
    }

    pub fn get_last_activity(&self) -> (r: u64)
        ensures
            r == self.last_activity,
    {
        self.last_activity
    }
}

/// Seconds between checks of the automatic lock while unlocked.
pub open spec fn lock_check_interval() -> u64 {
    2
}

/// Seconds the automatic lock sleeps while locked (the application wakes it
/// earlier on unlock).
pub open spec fn locked_sleep_interval() -> u64 {
    30
}

/// The seconds from the last activity `a` to `now`; a clock that went
/// back counts as no time.
pub open spec fn elapsed_since(a: u64, now: u64) -> int {
    if now >= a {
        now - a
    } else {
        0
    }
}

/// What one tick of the automatic lock at time `now` does, from the state
/// `before` to the state `after`, answering `r` (the seconds to wait before
/// the next tick, and whether this tick locked the vault): while unlocked,
/// it checks again after [`lock_check_interval`] seconds and forgets the
/// key once `timeout` seconds have passed since the last activity; while
/// locked, it sleeps [`locked_sleep_interval`] seconds.
pub open spec fn tick_step(before: AppState, after: AppState, now: u64, timeout: u64, r: (u64, bool)) -> bool {
    &&& after.db == before.db
    &&& after.last_activity == before.last_activity
    &&& before.crypto_key is None ==> r == (locked_sleep_interval(), false) && after.crypto_key is None
    &&& before.crypto_key is Some ==> r.0 == lock_check_interval() && (r.1 <==> elapsed_since(
        before.last_activity,
        now,
    ) >= timeout)
    &&& r.1 ==> after.crypto_key is None
    &&& !r.1 ==> after.crypto_key == before.crypto_key
}

/// One tick of the automatic lock at time `now` with the configured
/// timeout (see [`tick_step`]). Returns the seconds to wait before the next
/// tick and whether the vault was locked by this tick.
pub fn auto_lock_tick(state: &mut AppState, now: u64, lock_timeout: u64) -> (r: (u64, bool))
    ensures
        tick_step(*old(state), *final(state), now, lock_timeout, r),
{
    if state.crypto_key.is_some() {
        let elapsed = now.saturating_sub(state.get_last_activity());
        if elapsed >= lock_timeout {
            state.clear_key();
            (2, true)
        } else {
            (2, false)
        }
    } else {
        (30, false)
    }
}

/// A run of the automatic lock with no activity between its ticks: tick
/// `k` happens at `times[k]`, takes `states[k]` to `states[k + 1]` and
/// answers `results[k]`, and the next tick comes after the wait it asked for.
pub open spec fn tick_run(states: Seq<AppState>, times: Seq<u64>, results: Seq<(u64, bool)>, timeout: u64) -> bool {
    &&& states.len() == times.len() + 1
    &&& results.len() == times.len()
    &&& forall|k: int|
        0 <= k < times.len() ==> tick_step(states[k], states[k + 1], times[k], timeout, #[trigger] results[k])
    &&& forall|k: int| 0 <= k < times.len() - 1 ==> times[k + 1] == times[k] + (#[trigger] results[k]).0
}

proof fn lemma_tick_run_prefix(states: Seq<AppState>, times: Seq<u64>, results: Seq<(u64, bool)>, timeout: u64, k: int)
    requires
        tick_run(states, times, results, timeout),
        0 <= k < times.len(),
        states[0].crypto_key is Some,
        states[0].last_activity <= times[0],
    ensures
        states[k].last_activity == states[0].last_activity,
        states[k + 1].last_activity == states[0].last_activity,
        times[k] >= times[0],
        times[k] < states[0].last_activity + timeout ==> states[k].crypto_key is Some
            && states[k + 1].crypto_key is Some,
        times[k] >= states[0].last_activity + timeout ==> states[k + 1].crypto_key is None,
    decreases k,
{
    let r = results[k];
    if k > 0 {
        lemma_tick_run_prefix(states, times, results, timeout, k - 1);
        let p = results[k - 1];
        assert(times[k] == times[k - 1] + p.0);
    }
    assert(tick_step(states[k], states[k + 1], times[k], timeout, r));
}

proof fn lemma_first_crossing(times: Seq<u64>, deadline: int, k: int)
    requires
        0 <= k < times.len(),
        times[0] < deadline,
        times[k] >= deadline,
    ensures
        exists|j: int| 1 <= j <= k && #[trigger] times[j] >= deadline && times[j - 1] < deadline,
    decreases k,
{
    if times[k - 1] < deadline {
        assert(times[k] >= deadline);
    } else {
        lemma_first_crossing(times, deadline, k - 1);
    }
}

/// The automatic lock keeps its promise: ticking at the times it asks for,
/// with no activity in between, it forgets the key at every tick at or after
/// the last activity plus the timeout, and never earlier; and once the run
/// reaches the later of its first tick and that deadline, it has locked the
/// vault at a tick less than [`lock_check_interval`] seconds after it.
pub proof fn lemma_auto_lock_deadline(
    states: Seq<AppState>,
    times: Seq<u64>,
    results: Seq<(u64, bool)>,
    timeout: u64,
)
    requires
        tick_run(states, times, results, timeout),
        times.len() > 0,
        states[0].crypto_key is Some,
        states[0].last_activity <= times[0],
    ensures
        forall|k: int|
            0 <= k < times.len() ==> (#[trigger] times[k] >= states[0].last_activity + timeout
                ==> states[k + 1].crypto_key is None),
        forall|k: int|
            0 <= k < times.len() ==> (#[trigger] times[k] < states[0].last_activity + timeout
                ==> states[k + 1].crypto_key is Some),
        ({
            let deadline = if times[0] >= states[0].last_activity + timeout {
                times[0] as int
            } else {
                states[0].last_activity + timeout
            };
            times.last() >= deadline ==> exists|k: int|
                0 <= k < times.len() && deadline <= #[trigger] times[k] < deadline
                    + lock_check_interval() && states[k + 1].crypto_key is None
        }),
{
    let a = states[0].last_activity;
    assert forall|k: int| 0 <= k < times.len() implies (#[trigger] times[k] >= a + timeout
        ==> states[k + 1].crypto_key is None) && (times[k] < a + timeout ==> states[k
        + 1].crypto_key is Some) by {
        lemma_tick_run_prefix(states, times, results, timeout, k);
    }
    let deadline = if times[0] >= a + timeout {
        times[0] as int
    } else {
        a + timeout
    };
    if times.last() >= deadline {
        if times[0] >= a + timeout {
            lemma_tick_run_prefix(states, times, results, timeout, 0);
            assert(deadline <= times[0] < deadline + lock_check_interval());
        } else {
            let n = times.len() - 1;
            lemma_first_crossing(times, deadline, n);
            let j = choose|j: int| 1 <= j <= n && #[trigger] times[j] >= deadline && times[j - 1] < deadline;
            lemma_tick_run_prefix(states, times, results, timeout, j - 1);
            lemma_tick_run_prefix(states, times, results, timeout, j);
            let p = results[j - 1];
            assert(times[j] == times[j - 1] + p.0);
            assert(tick_step(states[j - 1], states[j], times[j - 1], timeout, p));
            assert(deadline <= times[j] < deadline + lock_check_interval());
        }
    }
}

} // verus!
