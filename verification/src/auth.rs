//! The master password: setting it once, unlocking, locking.

use vstd::prelude::*;
use crate::crypto::{
    argon2id_check, argon2id_key, argon2id_phc, generate_salt, hash_password, p_costs_small,
    password_fits,
    verify_password, CryptoKey,
};
use crate::db::{same_but_master, DbState};
use crate::hexcodec::{hex_decode, hex_decode_spec, hex_encode, hex_encode_spec, lemma_hex_round_trip};
use crate::models::ExportMasterKey;
use crate::state::{now_secs, AppState};
use crate::text::{decimal_text, u64_to_decimal};

verus! {

pub open spec fn master_already_set_msg() -> Seq<char> {
    "主密码已设置，不可更改"@
}

pub open spec fn no_master_msg() -> Seq<char> {
    "尚未设置主密码"@
}

pub open spec fn wrong_password_msg() -> Seq<char> {
    "主密码错误"@
}

pub open spec fn bad_salt_msg() -> Seq<char> {
    "salt 解析失败"@
}

pub open spec fn locked_msg() -> Seq<char> {
    "应用已锁定"@
}

pub open spec fn locked_unlock_first_msg() -> Seq<char> {
    "应用已锁定，请先解锁"@
}

/// The master key row made from a password and salt at time `t`.
pub open spec fn master_key_from(
    m: Option<ExportMasterKey>,
    password: Seq<char>,
    salt: Seq<u8>,
    t: u64,
) -> bool {
    &&& m is Some
    &&& m->0.hash@ == argon2id_phc(password, salt)
    &&& p_costs_small(m->0.hash@)
    &&& m->0.salt@ == hex_encode_spec(salt)
    &&& m->0.created_at@ == decimal_text(t as nat)
}

/// Whether a master password has been set.
pub fn has_master_password(state: &AppState) -> (r: bool)
    ensures
        r == state.db.master_key is Some,
{
    state.db.master_key.is_some()
}

/// Sets the master password, once, at time `now`: a random 16-byte salt,
/// the Argon2id hash of the password stored with the hex of the salt and the
/// time, and the key derived from them held in memory (unlocked, active at `now`).
pub fn set_master_password_at(state: &mut AppState, password: String, now: u64) -> (r: Result<(), String>)
    requires
        old(state).db.wf(),
        old(state).db.master_key is None ==> password_fits(password@),
    ensures
        final(state).db.wf(),
        old(state).db.master_key is Some ==> r is Err && r->Err_0@ == master_already_set_msg(),
        old(state).db.master_key is Some ==> *final(state) == *old(state),
        old(state).db.master_key is None ==> r is Ok,
        r is Ok ==> exists|salt: Seq<u8>|
            salt.len() == 16 && #[trigger] master_key_from(
                final(state).db.master_key,
                password@,
                salt,
                now,
            ) && final(state).crypto_key is Some && final(state).crypto_key->0.key@
                == argon2id_key(password@, salt),
        r is Ok ==> final(state).last_activity == now,
        same_but_master(final(state).db, old(state).db),
{
    if has_master_password(state) {
        return Err(String::from_str("主密码已设置，不可更改"));
    }
    let salt = generate_salt();
    let hash = hash_password(password.as_str(), salt.as_slice());
    let row = ExportMasterKey {
        hash,
        salt: hex_encode(salt.as_slice()),
        created_at: u64_to_decimal(now),
    };
    proof {
        lemma_hex_round_trip(salt@);
    }
    state.db.master_key = Some(row);
    let key = CryptoKey::derive(password.as_str(), salt.as_slice());
    state.set_key_at(key, now);
    assert(master_key_from(state.db.master_key, password@, salt@, now));
    Ok(())
}

/// Sets the master password, once (see [`set_master_password_at`]), at the
/// current time: the creation time stored and the last activity are the
/// same clock reading.
pub fn set_master_password(state: &mut AppState, password: String) -> (r: Result<(), String>)
    requires
        old(state).db.wf(),
        old(state).db.master_key is None ==> password_fits(password@),
    ensures
        final(state).db.wf(),
        old(state).db.master_key is Some ==> r is Err && r->Err_0@ == master_already_set_msg(),
        old(state).db.master_key is Some ==> *final(state) == *old(state),
        old(state).db.master_key is None ==> r is Ok,
        r is Ok ==> exists|salt: Seq<u8>, t: u64|
            salt.len() == 16 && #[trigger] master_key_from(
                final(state).db.master_key,
                password@,
                salt,
                t,
            ) && final(state).crypto_key is Some && final(state).crypto_key->0.key@
                == argon2id_key(password@, salt) && final(state).last_activity == t,
        same_but_master(final(state).db, old(state).db),
{
    let now = now_secs();
    set_master_password_at(state, password, now)
}

/// What checking `password` does to the state `before`, leaving `after`
/// and answering `r` (the time of the activity aside).
pub open spec fn unlock_outcome(before: AppState, after: AppState, password: Seq<char>, r: Result<(), String>) -> bool {
    &&& after.db == before.db
    &&& before.db.master_key is None ==> r is Err && r->Err_0@ == no_master_msg()
    &&& (before.db.master_key matches Some(m) && !argon2id_check(password, m.hash@)) ==> r is Err
        && r->Err_0@ == wrong_password_msg()
    &&& (before.db.master_key matches Some(m) && argon2id_check(password, m.hash@)
        && hex_decode_spec(m.salt@) is None) ==> r is Err && r->Err_0@ == bad_salt_msg()
    &&& (before.db.master_key matches Some(m) && argon2id_check(password, m.hash@)
        && hex_decode_spec(m.salt@) is Some) ==> r is Ok && after.crypto_key is Some
        && after.crypto_key->0.key@ == argon2id_key(
        password,
        hex_decode_spec(before.db.master_key->0.salt@)->0,
    )
    &&& r is Err ==> after.crypto_key == before.crypto_key && after.last_activity == before.last_activity
    &&& forall|salt: Seq<u8>|
        (before.db.master_key matches Some(m) && 8 <= salt.len() <= 48 && m.salt@
            == hex_encode_spec(salt) && p_costs_small(m.hash@) && m.hash@ == #[trigger] argon2id_phc(
            password,
            salt,
        )) ==> r is Ok
            && after.crypto_key is Some && after.crypto_key->0.key@ == argon2id_key(password, salt)
}

/// Checks the master password and, when it is right, derives the key from
/// it and the stored salt and holds it (unlocked, active at `now`). A master
/// key that was set from a password unlocks with that password.
pub fn unlock_at(state: &mut AppState, password: String, now: u64) -> (r: Result<(), String>)
    requires
        old(state).db.wf(),
        password_fits(password@),
    ensures
        unlock_outcome(*old(state), *final(state), password@, r),
        r is Ok ==> final(state).last_activity == now,
{
    let (hash, salt_hex) = match &state.db.master_key {
        None => {
            return Err(String::from_str("尚未设置主密码"));
        },
        Some(m) => (m.hash.clone(), m.salt.clone()),
    };
    let ok = verify_password(password.as_str(), hash.as_str());
    proof {
        assert forall|salt: Seq<u8>|
            8 <= salt.len() <= 48 && p_costs_small(hash@) && hash@ == #[trigger] argon2id_phc(
                password@,
                salt,
            ) implies ok by {}
    }
    if !ok {
        return Err(String::from_str("主密码错误"));
    }
    let salt = match hex_decode(salt_hex.as_str()) {
        Err(_) => {
            proof {
                assert forall|s: Seq<u8>|
                    (old(state).db.master_key matches Some(m) && 8 <= s.len() <= 48 && m.salt@
                        == hex_encode_spec(s) && m.hash@ == #[trigger] argon2id_phc(password@, s))
                        implies false by {
                    lemma_hex_round_trip(s);
                }
            }
            return Err(String::from_str("salt 解析失败"));
        },
        Ok(s) => s,
    };
    let key = CryptoKey::derive(password.as_str(), salt.as_slice());
    state.set_key_at(key, now);
    proof {
        assert forall|s: Seq<u8>|
            (old(state).db.master_key matches Some(m) && 8 <= s.len() <= 48 && m.salt@
                == hex_encode_spec(s) && m.hash@ == #[trigger] argon2id_phc(password@, s))
                implies s == salt@ by {
            lemma_hex_round_trip(s);
        }
    }
    Ok(())
}

/// Checks the master password and unlocks at the current time (see [`unlock_at`]).
pub fn unlock(state: &mut AppState, password: String) -> (r: Result<(), String>)
    requires
        old(state).db.wf(),
        password_fits(password@),
    ensures
        unlock_outcome(*old(state), *final(state), password@, r),
{
    let now = now_secs();
    unlock_at(state, password, now)
}

/// Locks: forgets the key.
pub fn lock(state: &mut AppState)
    ensures
        final(state).crypto_key is None,
        final(state).db == old(state).db,
        final(state).last_activity == old(state).last_activity,
{
    state.clear_key();
}

/// Records activity at `now` (delays the automatic lock).
pub fn heartbeat_at(state: &mut AppState, now: u64)
    ensures
        final(state).crypto_key == old(state).crypto_key,
        final(state).db == old(state).db,
        final(state).last_activity == now,
{
    state.touch_at(now);
}

/// Records activity at the current time (see [`heartbeat_at`]; the clock's
/// reading is not stated).
pub fn heartbeat(state: &mut AppState)
    ensures
        final(state).crypto_key == old(state).crypto_key,
        final(state).db == old(state).db,
{
    let now = now_secs();
    heartbeat_at(state, now);
}

/// The key, or an error while locked.
pub fn require_key(state: &AppState) -> (r: Result<CryptoKey, String>)
    ensures
        state.crypto_key is None ==> r is Err && r->Err_0@ == locked_unlock_first_msg(),
        state.crypto_key is Some ==> r is Ok && r->Ok_0.key@ == state.crypto_key->0.key@,
{
    match state.get_key() {
        Some(k) => Ok(k),
        None => Err(String::from_str("应用已锁定，请先解锁")),
    }
}

/// Nothing, or an error while locked.
pub fn ensure_db_unlocked(state: &AppState) -> (r: Result<(), String>)
    ensures
        state.crypto_key is None ==> r is Err && r->Err_0@ == locked_msg(),
        state.crypto_key is Some ==> r is Ok,
{
    if state.get_key().is_none() {
        return Err(String::from_str("应用已锁定"));
    }
    Ok(())
}

} // verus!
