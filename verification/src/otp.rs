//! OTP entries: listing, creating, updating, deleting and importing them.

use vstd::prelude::*;
use vstd::utf8::{decode_utf8, valid_utf8};
use crate::auth::{ensure_db_unlocked, locked_msg};
use crate::db::{otp_key, DbState};
use crate::ids::{has_uuid_key, is_uuid_text, lemma_uuid_key_in_prefix, lemma_uuid_key_taken, new_uuid};
use crate::models::{dup_text, OtpEntryInput, OtpEntryOut};
use crate::state::{now_secs, AppState};
use crate::table::{
    extends, has_key, is_perm, lemma_filter_unique, lemma_push_unique, lemma_same_keys_unique,
    sort_order, unique_by, NewestFirst, SortKey,
};
use crate::text::{decimal_text, str_eq, text_le, u64_to_decimal};

verus! {

/// The text rusqlite gives for a duplicate OTP entry id.
pub open spec fn dup_otp_id_msg() -> Seq<char> {
    "UNIQUE constraint failed: otp_entries.id"@
}

/// The text rusqlite gives when a read finds no row.
pub open spec fn no_rows_msg() -> Seq<char> {
    "Query returned no rows"@
}

/// An OTP entry made from a request with a given id and creation time.
pub open spec fn otp_from(o: OtpEntryOut, input: OtpEntryInput) -> bool {
    &&& o.issuer == input.issuer
    &&& o.account == input.account
    &&& o.secret == input.secret
    &&& o.interval == input.interval
    &&& o.digits == input.digits
    &&& o.algorithm == input.algorithm
}

/// A new OTP entry: a fresh id and the creation time in decimal seconds.
pub open spec fn otp_new(o: OtpEntryOut, input: OtpEntryInput) -> bool {
    &&& otp_from(o, input)
    &&& is_uuid_text(o.id@)
    &&& exists|t: u64| o.created_at@ == #[trigger] decimal_text(t as nat)
}

/// The OTP entries with the entry `id` updated from a request (its id and
/// creation time kept).
pub open spec fn otp_rewritten(s: Seq<OtpEntryOut>, id: Seq<char>, input: OtpEntryInput) -> Seq<OtpEntryOut> {
    Seq::new(
        s.len(),
        |k: int|
            if s[k].id@ == id {
                OtpEntryOut {
                    id: s[k].id,
                    issuer: input.issuer,
                    account: input.account,
                    secret: input.secret,
                    interval: input.interval,
                    digits: input.digits,
                    algorithm: input.algorithm,
                    created_at: s[k].created_at,
                }
            } else {
                s[k]
            },
    )
}

/// Every table but the OTP table is unchanged.
pub open spec fn same_but_otp(a: DbState, b: DbState) -> bool {
    &&& a.master_key == b.master_key
    &&& a.entries == b.entries
    &&& a.tags == b.tags
    &&& a.entry_tags == b.entry_tags
    &&& a.settings == b.settings
    &&& a.categories == b.categories
    &&& a.templates == b.templates
    &&& a.template_fields == b.template_fields
    &&& a.template_categories == b.template_categories
}

fn find_otp(rows: &Vec<OtpEntryOut>, id: &str) -> (r: Option<usize>)
    ensures
        r matches Some(i) ==> i < rows@.len() && rows@[i as int].id@ == id@,
        r is None ==> !has_key(rows@, otp_key(), id@),
{
    let n = rows.len();
    let mut i: usize = 0;
    while i < n
        invariant
            n == rows@.len(),
            i <= n,
            forall|k: int| 0 <= k < i ==> rows@[k].id@ != id@,
        decreases n - i,
    {
        if str_eq(rows[i].id.as_str(), id) {
            return Some(i);
        }
        i = i + 1;
    }
    None
}

/// The row of a new OTP entry from a request, with the id `id` and the time `now`.
pub open spec fn otp_row(o: OtpEntryOut, input: OtpEntryInput, id: String, now: String) -> bool {
    &&& otp_from(o, input)
    &&& o.id == id
    &&& o.created_at == now
}

impl DbState {
    /// Adds an OTP entry from a request with the id `id` and the time `now`;
    /// an error when the id is taken.
    pub fn insert_otp_entry(&mut self, input: &OtpEntryInput, id: String, now: String) -> (r: Result<OtpEntryOut, String>)
        requires
            old(self).wf(),
        ensures
            final(self).wf(),
            same_but_otp(*final(self), *old(self)),
            has_key(old(self).otp_entries@, otp_key(), id@) ==> r is Err && r->Err_0@ == dup_otp_id_msg()
                && *final(self) == *old(self),
            !has_key(old(self).otp_entries@, otp_key(), id@) ==> r is Ok && otp_row(r->Ok_0, *input, id, now)
                && final(self).otp_entries@ == old(self).otp_entries@.push(r->Ok_0),
    {
        if find_otp(&self.otp_entries, id.as_str()).is_some() {
            return Err(String::from_str("UNIQUE constraint failed: otp_entries.id"));
        }
        let row = OtpEntryOut {
            id,
            issuer: dup_text(&input.issuer),
            account: dup_text(&input.account),
            secret: dup_text(&input.secret),
            interval: input.interval,
            digits: input.digits,
            algorithm: dup_text(&input.algorithm),
            created_at: now,
        };
        let ret = row.duplicate();
        proof {
            lemma_push_unique(self.otp_entries@, row, otp_key());
        }
        self.otp_entries.push(row);
        Ok(ret)
    }

    /// Adds an OTP entry from a request with a fresh id and the current
    /// time; an error only when the drawn id is taken, which needs a
    /// UUID-shaped id among the stored ones.
    pub fn add_otp_entry(&mut self, input: &OtpEntryInput) -> (r: Result<OtpEntryOut, String>)
        requires
            old(self).wf(),
        ensures
            final(self).wf(),
            same_but_otp(*final(self), *old(self)),
            r is Err ==> r->Err_0@ == dup_otp_id_msg() && *final(self) == *old(self),
            r is Err ==> has_uuid_key(old(self).otp_entries@, otp_key()),
            r is Ok ==> otp_new(r->Ok_0, *input) && final(self).otp_entries@ == old(self).otp_entries@.push(r->Ok_0),
    {
        let id = new_uuid();
        let now = u64_to_decimal(now_secs());
        let ghost gid = id;
        let ghost gnow = now;
        let ghost before = *self;
        let r = self.insert_otp_entry(input, id, now);
        proof {
            if r is Err {
                lemma_uuid_key_taken(before.otp_entries@, otp_key(), gid@);
            }
            assert(exists|t: u64| gnow@ == #[trigger] decimal_text(t as nat));
        }
        r
    }
}

/// The OTP entries, the most recently created first (by the text of the
/// creation time).
pub open spec fn otp_newest_first(r: Seq<OtpEntryOut>, rows: Seq<OtpEntryOut>) -> bool {
    exists|p: Seq<usize>|
        is_perm(p, rows.len() as int) && r.len() == rows.len() && (forall|k: int|
            0 <= k < r.len() ==> r[k] == rows[#[trigger] p[k] as int]) && (forall|a: int, b: int|
            0 <= a < b < r.len() ==> text_le((#[trigger] r[b]).created_at@, (#[trigger] r[a]).created_at@))
}

/// The OTP entries, the most recently created first.
pub fn get_otp_entries(state: &AppState) -> (r: Result<Vec<OtpEntryOut>, String>)
    ensures
        state.crypto_key is None ==> r is Err && r->Err_0@ == locked_msg(),
        state.crypto_key is Some ==> r is Ok && otp_newest_first(r->Ok_0@, state.db.otp_entries@),
{
    ensure_db_unlocked(state)?;
    let rows = &state.db.otp_entries;
    let n = rows.len();
    let mut keys: Vec<NewestFirst> = Vec::new();
    let mut i: usize = 0;
    while i < n
        invariant
            n == rows@.len(),
            i <= n,
            keys@.len() == i,
            forall|k: int| 0 <= k < i ==> keys@[k].0 == rows@[k].created_at,
        decreases n - i,
    {
        keys.push(NewestFirst(dup_text(&rows[i].created_at)));
        i = i + 1;
    }
    let perm = sort_order(&keys);
    let mut out: Vec<OtpEntryOut> = Vec::new();
    let mut j: usize = 0;
    while j < n
        invariant
            n == rows@.len(),
            n == keys@.len(),
            is_perm(perm@, n as int),
            j <= n,
            out@.len() == j,
            forall|k: int| 0 <= k < j ==> out@[k] == rows@[#[trigger] perm@[k] as int],
        decreases n - j,
    {
        out.push(rows[perm[j]].duplicate());
        j = j + 1;
    }
    proof {
        assert forall|a: int, b: int| 0 <= a < b < out@.len() implies text_le(
            (#[trigger] out@[b]).created_at@,
            (#[trigger] out@[a]).created_at@,
        ) by {
            assert(keys@[perm@[a] as int].key_le(keys@[perm@[b] as int]));
        }
    }
    Ok(out)
}

/// Creates an OTP entry from a request, with a fresh id and the current time.
pub fn create_otp_entry(state: &mut AppState, input: OtpEntryInput) -> (r: Result<OtpEntryOut, String>)
    requires
        old(state).db.wf(),
    ensures
        final(state).db.wf(),
        final(state).crypto_key == old(state).crypto_key,
        final(state).last_activity == old(state).last_activity,
        same_but_otp(final(state).db, old(state).db),
        r is Err ==> final(state).db == old(state).db,
        old(state).crypto_key is None ==> r is Err && r->Err_0@ == locked_msg(),
        old(state).crypto_key is Some && r is Err ==> r->Err_0@ == dup_otp_id_msg() && has_uuid_key(
            old(state).db.otp_entries@,
            otp_key(),
        ),
        r is Ok ==> otp_new(r->Ok_0, input) && final(state).db.otp_entries@ == old(state).db.otp_entries@.push(r->Ok_0),
{
    ensure_db_unlocked(state)?;
    state.db.add_otp_entry(&input)
}

/// Removes the OTP entry rows with a given id.
#[verifier::loop_isolation(false)]
pub fn remove_otp_rows(rows: &mut Vec<OtpEntryOut>, id: &str)
    requires
        unique_by(old(rows)@, otp_key()),
    ensures
        unique_by(final(rows)@, otp_key()),
        final(rows)@ == old(rows)@.filter(|o: OtpEntryOut| o.id@ != id@),
{
    let ghost pred = |o: OtpEntryOut| o.id@ != id@;
    let mut kept: Vec<OtpEntryOut> = Vec::new();
    let n = rows.len();
    let mut i: usize = 0;
    assert(rows@.take(0) =~= Seq::<OtpEntryOut>::empty());
    while i < n
        invariant
            n == rows@.len(),
            i <= n,
            kept@ == rows@.take(i as int).filter(pred),
        decreases n - i,
    {
        assert(rows@.take(i + 1) =~= rows@.take(i as int).push(rows@[i as int]));
        proof {
            rows@.take(i as int).lemma_filter_push(rows@[i as int], pred);
        }
        if !str_eq(rows[i].id.as_str(), id) {
            kept.push(rows[i].duplicate());
        }
        i = i + 1;
    }
    assert(rows@.take(n as int) =~= rows@);
    proof {
        lemma_filter_unique(rows@, pred, otp_key());
    }
    *rows = kept;
}

/// Deletes the OTP entry `id`.
pub fn delete_otp_entry(state: &mut AppState, id: String) -> (r: Result<(), String>)
    requires
        old(state).db.wf(),
    ensures
        final(state).db.wf(),
        final(state).crypto_key == old(state).crypto_key,
        final(state).last_activity == old(state).last_activity,
        same_but_otp(final(state).db, old(state).db),
        old(state).crypto_key is None ==> r is Err && r->Err_0@ == locked_msg() && final(state).db
            == old(state).db,
        old(state).crypto_key is Some ==> r is Ok && final(state).db.otp_entries@ == old(
            state,
        ).db.otp_entries@.filter(|o: OtpEntryOut| o.id@ != id@),
{
    ensure_db_unlocked(state)?;
    remove_otp_rows(&mut state.db.otp_entries, id.as_str());
    Ok(())
}

/// Updates the OTP entry `id` from a request and returns it; an error when
/// there is no such entry.
pub fn update_otp_entry(state: &mut AppState, id: String, input: OtpEntryInput) -> (r: Result<OtpEntryOut, String>)
    requires
        old(state).db.wf(),
    ensures
        final(state).db.wf(),
        final(state).crypto_key == old(state).crypto_key,
        final(state).last_activity == old(state).last_activity,
        same_but_otp(final(state).db, old(state).db),
        old(state).crypto_key is None ==> r is Err && r->Err_0@ == locked_msg() && final(state).db
            == old(state).db,
        old(state).crypto_key is Some ==> final(state).db.otp_entries@ == otp_rewritten(
            old(state).db.otp_entries@,
            id@,
            input,
        ),
        old(state).crypto_key is Some && !has_key(old(state).db.otp_entries@, otp_key(), id@) ==> r is Err
            && r->Err_0@ == no_rows_msg(),
        old(state).crypto_key is Some && has_key(old(state).db.otp_entries@, otp_key(), id@) ==> r is Ok
            && r->Ok_0.id@ == id@ && otp_from(r->Ok_0, input) && final(state).db.otp_entries@.contains(r->Ok_0),
{
    ensure_db_unlocked(state)?;
    let ghost orig = state.db.otp_entries@;
    let found = find_otp(&state.db.otp_entries, id.as_str());
    match found {
        None => {
            assert(state.db.otp_entries@ =~= otp_rewritten(orig, id@, input));
            Err(String::from_str("Query returned no rows"))
        },
        Some(i) => {
            let row = OtpEntryOut {
                id: dup_text(&state.db.otp_entries[i].id),
                issuer: input.issuer,
                account: input.account,
                secret: input.secret,
                interval: input.interval,
                digits: input.digits,
                algorithm: input.algorithm,
                created_at: dup_text(&state.db.otp_entries[i].created_at),
            };
            let ret = row.duplicate();
            state.db.otp_entries.set(i, row);
            proof {
                lemma_same_keys_unique(orig, state.db.otp_entries@, otp_key());
                assert forall|k: int| 0 <= k < orig.len() && k != i implies orig[k].id@ != id@ by {
                    assert(otp_key()(orig[k]) != otp_key()(orig[i as int]));
                }
                assert(state.db.otp_entries@ =~= otp_rewritten(orig, id@, input));
                assert(state.db.otp_entries@[i as int] == ret);
            }
            Ok(ret)
        },
    }
}

/// Imports OTP entries from requests, each with a fresh id and the current
/// time; returns how many were added. Stops at the first error.
pub fn import_otp_entries(state: &mut AppState, entries: Vec<OtpEntryInput>) -> (r: Result<u32, String>)
    requires
        old(state).db.wf(),
        entries@.len() <= u32::MAX,
    ensures
        final(state).db.wf(),
        final(state).crypto_key == old(state).crypto_key,
        final(state).last_activity == old(state).last_activity,
        same_but_otp(final(state).db, old(state).db),
        old(state).crypto_key is None ==> r is Err && r->Err_0@ == locked_msg() && final(state).db
            == old(state).db,
        extends(final(state).db.otp_entries@, old(state).db.otp_entries@),
        final(state).db.otp_entries@.len() <= old(state).db.otp_entries@.len() + entries@.len(),
        forall|k: int|
            old(state).db.otp_entries@.len() <= k < final(state).db.otp_entries@.len() ==> otp_new(
                #[trigger] final(state).db.otp_entries@[k],
                entries@[k - old(state).db.otp_entries@.len()],
            ),
        r is Ok ==> r->Ok_0 == entries@.len() && final(state).db.otp_entries@.len() == old(
            state,
        ).db.otp_entries@.len() + entries@.len(),
        old(state).crypto_key is Some && r is Err ==> r->Err_0@ == dup_otp_id_msg(),
        old(state).crypto_key is Some && r is Err ==> (has_uuid_key(old(state).db.otp_entries@, otp_key())
            || final(state).db.otp_entries@.len() > old(state).db.otp_entries@.len())
            && final(state).db.otp_entries@.len() < old(state).db.otp_entries@.len() + entries@.len(),
        old(state).crypto_key is Some && !has_uuid_key(old(state).db.otp_entries@, otp_key())
            && entries@.len() <= 1 ==> r is Ok,
{
    ensure_db_unlocked(state)?;
    let ghost start = state.db.otp_entries@;
    let n = entries.len();
    let mut count: u32 = 0;
    let mut i: usize = 0;
    while i < n
        invariant
            n == entries@.len(),
            n <= u32::MAX,
            i <= n,
            count == i,
            start == old(state).db.otp_entries@,
            state.db.wf(),
            state.crypto_key == old(state).crypto_key,
            state.last_activity == old(state).last_activity,
            same_but_otp(state.db, old(state).db),
            old(state).crypto_key is Some,
            extends(state.db.otp_entries@, start),
            state.db.otp_entries@.len() == start.len() + i,
            forall|k: int|
                start.len() <= k < state.db.otp_entries@.len() ==> otp_new(
                    #[trigger] state.db.otp_entries@[k],
                    entries@[k - start.len()],
                ),
        decreases n - i,
    {
        let ghost before = state.db.otp_entries@;
        let row = match state.db.add_otp_entry(&entries[i]) {
            Ok(row) => row,
            Err(e) => {
                proof {
                    lemma_uuid_key_in_prefix(before, start, otp_key());
                }
                return Err(e);
            },
        };
        proof {
            assert forall|k: int|
                start.len() <= k < state.db.otp_entries@.len() implies otp_new(
                    #[trigger] state.db.otp_entries@[k],
                    entries@[k - start.len()],
                ) by {
                if k < before.len() {
                    assert(state.db.otp_entries@[k] == before[k]);
                }
            }
        }
        count = count + 1;
        i = i + 1;
    }
    Ok(count)
}

/// The text `String::from_utf8_lossy` makes of some bytes (invalid
/// sequences replaced by U+FFFD).
pub uninterp spec fn utf8_lossy(bytes: Seq<u8>) -> Seq<char>;

/// `String::from_utf8_lossy`, owned: its text is named by [`utf8_lossy`];
/// as the documentation says, valid UTF-8 is decoded as it is.
#[verifier::external_body]
pub(crate) fn lossy_text(bytes: &[u8]) -> (r: String)
    ensures
        r@ == utf8_lossy(bytes@),
        valid_utf8(bytes@) ==> r@ == decode_utf8(bytes@),
{
    String::from_utf8_lossy(bytes).into_owned()
}

/// The UTF-8 byte order mark.
pub open spec fn has_bom(bytes: Seq<u8>) -> bool {
    bytes.len() >= 3 && bytes[0] == 0xEF && bytes[1] == 0xBB && bytes[2] == 0xBF
}

/// The text of an imported file's bytes: a leading byte order mark is
/// dropped, and what is left is read as UTF-8 (invalid sequences replaced).
pub fn file_text(bytes: &[u8]) -> (r: String)
    ensures
        r@ == utf8_lossy(if has_bom(bytes@) { bytes@.skip(3) } else { bytes@ }),
        valid_utf8(if has_bom(bytes@) { bytes@.skip(3) } else { bytes@ }) ==> r@ == decode_utf8(
            if has_bom(bytes@) { bytes@.skip(3) } else { bytes@ },
        ),
{
    if bytes.len() >= 3 && bytes[0] == 0xEF && bytes[1] == 0xBB && bytes[2] == 0xBF {
        let n = bytes.len();
        let mut rest: Vec<u8> = Vec::new();
        let mut i: usize = 3;
        while i < n
            invariant
                n == bytes@.len(),
                3 <= i <= n,
                rest@ == bytes@.subrange(3, i as int),
            decreases n - i,
        {
            rest.push(bytes[i]);
            assert(rest@ =~= bytes@.subrange(3, i + 1));
            i = i + 1;
        }
        assert(rest@ =~= bytes@.skip(3));
        lossy_text(rest.as_slice())
    } else {
        lossy_text(bytes)
    }
}

} // verus!
