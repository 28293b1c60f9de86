//! Application settings: reading them with their defaults, and writing one.

use vstd::prelude::*;
use crate::db::{setting_key, setting_views, DbState};
use crate::models::{dup_text, ExportSetting, Settings};
use crate::state::AppState;
use crate::table::{has_key, lemma_push_unique, lemma_same_keys_unique, unique_by};
use crate::text::{decimal_text, lemma_parse_decimal_text, parse_u64, parse_u64_spec, str_eq};

verus! {

/// The value stored under `key`, or the empty text when there is none.
pub open spec fn setting_value(v: Seq<(Seq<char>, Seq<char>)>, key: Seq<char>) -> Seq<char> {
    if exists|i: int| 0 <= i < v.len() && v[i].0 == key {
        v[choose|i: int| 0 <= i < v.len() && v[i].0 == key].1
    } else {
        Seq::empty()
    }
}

/// The settings after `key` is set to `value`: the row with that key gets
/// the value, or a row is added at the end.
pub open spec fn upsert_setting_view(
    v: Seq<(Seq<char>, Seq<char>)>,
    key: Seq<char>,
    value: Seq<char>,
) -> Seq<(Seq<char>, Seq<char>)> {
    if exists|i: int| 0 <= i < v.len() && v[i].0 == key {
        Seq::new(v.len(), |k: int| if v[k].0 == key { (key, value) } else { v[k] })
    } else {
        v.push((key, value))
    }
}

/// No two settings share a key.
pub open spec fn keys_unique(v: Seq<(Seq<char>, Seq<char>)>) -> bool {
    forall|i: int, j: int| 0 <= i < v.len() && 0 <= j < v.len() && i != j ==> v[i].0 != v[j].0
}

/// After a setting is written, reading it gives what was written, and the
/// other settings read as before.
pub proof fn lemma_setting_read_after_write(
    v: Seq<(Seq<char>, Seq<char>)>,
    key: Seq<char>,
    value: Seq<char>,
    other: Seq<char>,
)
    requires
        keys_unique(v),
        other != key,
    ensures
        setting_value(upsert_setting_view(v, key, value), key) == value,
        setting_value(upsert_setting_view(v, key, value), other) == setting_value(v, other),
        keys_unique(upsert_setting_view(v, key, value)),
{
    let w = upsert_setting_view(v, key, value);
    if exists|i: int| 0 <= i < v.len() && v[i].0 == key {
        let i = choose|i: int| 0 <= i < v.len() && v[i].0 == key;
        assert(w[i].0 == key);
        let c = choose|c: int| 0 <= c < w.len() && w[c].0 == key;
        assert(w[c].1 == value);
        if exists|j: int| 0 <= j < v.len() && v[j].0 == other {
            let j = choose|j: int| 0 <= j < v.len() && v[j].0 == other;
            assert(w[j] == v[j]);
            let d = choose|d: int| 0 <= d < w.len() && w[d].0 == other;
            assert(w[d] == v[d]);
        } else {
            assert forall|d: int| 0 <= d < w.len() implies w[d].0 != other by {
                if v[d].0 != key {
                    assert(w[d] == v[d]);
                }
            }
        }
    } else {
        let k = v.len() as int;
        assert(w[k].0 == key);
        let c = choose|c: int| 0 <= c < w.len() && w[c].0 == key;
        if c < v.len() {
            assert(w[c] == v[c]);
        }
        if exists|j: int| 0 <= j < v.len() && v[j].0 == other {
            let j = choose|j: int| 0 <= j < v.len() && v[j].0 == other;
            assert(w[j] == v[j]);
            let d = choose|d: int| 0 <= d < w.len() && w[d].0 == other;
            if d < v.len() {
                assert(w[d] == v[d]);
            }
        } else {
            assert forall|d: int| 0 <= d < w.len() implies w[d].0 != other by {
                if d < v.len() {
                    assert(w[d] == v[d]);
                }
            }
        }
    }
}

/// The lock timeout in seconds as read from its setting: 30 when the
/// setting is missing or not a number.
pub open spec fn lock_timeout_of(v: Seq<(Seq<char>, Seq<char>)>) -> u64 {
    match parse_u64_spec(setting_value(v, "lock_timeout"@)) {
        Some(t) => t,
        None => 30,
    }
}

/// Setting the lock timeout to the decimal text of any number of seconds
/// (any number of digits) makes the settings read that timeout.
pub proof fn lemma_lock_timeout_written(v: Seq<(Seq<char>, Seq<char>)>, n: u64)
    requires
        keys_unique(v),
    ensures
        lock_timeout_of(upsert_setting_view(v, "lock_timeout"@, decimal_text(n as nat))) == n,
{
    let key = "lock_timeout"@;
    assert(key.push('x') != key) by {
        assert(key.push('x').len() != key.len());
    }
    lemma_setting_read_after_write(v, key, decimal_text(n as nat), key.push('x'));
    lemma_parse_decimal_text(n);
}

/// Settings with distinct keys have distinct keys as characters.
pub proof fn lemma_views_unique(s: Seq<ExportSetting>)
    requires
        unique_by(s, setting_key()),
    ensures
        keys_unique(setting_views(s)),
{
    assert forall|i: int, j: int|
        0 <= i < setting_views(s).len() && 0 <= j < setting_views(s).len() && i != j implies setting_views(s)[i].0
        != setting_views(s)[j].0 by {
        assert(setting_views(s)[i] == s[i]@);
        assert(setting_views(s)[j] == s[j]@);
        assert(setting_key()(s[i]) != setting_key()(s[j]));
    }
}

/// The position of the setting `key`, if any.
fn find_setting(settings: &Vec<ExportSetting>, key: &str) -> (r: Option<usize>)
    ensures
        r matches Some(i) ==> i < settings@.len() && settings@[i as int].key@ == key@,
        r is None ==> forall|k: int| 0 <= k < settings@.len() ==> settings@[k].key@ != key@,
{
    let n = settings.len();
    let mut i: usize = 0;
    while i < n
        invariant
            n == settings@.len(),
            i <= n,
            forall|k: int| 0 <= k < i ==> settings@[k].key@ != key@,
        decreases n - i,
    {
        if str_eq(settings[i].key.as_str(), key) {
            return Some(i);
        }
        i = i + 1;
    }
    None
}

/// The value stored under `key`, or the empty text.
pub fn get_setting(settings: &Vec<ExportSetting>, key: &str) -> (r: String)
    requires
        unique_by(settings@, setting_key()),
    ensures
        r@ == setting_value(setting_views(settings@), key@),
{
    let ghost v = setting_views(settings@);
    match find_setting(settings, key) {
        Some(i) => {
            proof {
                assert(v[i as int] == settings@[i as int]@);
                assert(v[i as int].0 == key@);
                let c = choose|c: int| 0 <= c < v.len() && v[c].0 == key@;
                assert(v[c] == settings@[c]@);
                if c != i {
                    assert(setting_key()(settings@[c]) == setting_key()(settings@[i as int]));
                }
            }
            dup_text(&settings[i].value)
        },
        None => {
            proof {
                assert forall|k: int| 0 <= k < v.len() implies v[k].0 != key@ by {
                    assert(v[k] == settings@[k]@);
                }
            }
            String::new()
        },
    }
}

/// The settings: the lock timeout (30 when missing or not a number), the
/// theme and the storage path (empty when missing). Works while locked.
pub fn get_settings(state: &AppState) -> (r: Result<Settings, String>)
    requires
        state.db.wf(),
    ensures
        r is Ok,
        r->Ok_0.lock_timeout == lock_timeout_of(setting_views(state.db.settings@)),
        r->Ok_0.theme@ == setting_value(setting_views(state.db.settings@), "theme"@),
        r->Ok_0.storage_path@ == setting_value(setting_views(state.db.settings@), "storage_path"@),
{
    let lock = get_setting(&state.db.settings, "lock_timeout");
    let lock_timeout = match parse_u64(lock.as_str()) {
        Some(t) => t,
        None => 30,
    };
    let theme = get_setting(&state.db.settings, "theme");
    let storage_path = get_setting(&state.db.settings, "storage_path");
    Ok(Settings { lock_timeout, theme, storage_path })
}

/// The directory chosen for the database, when the storage path setting is not empty.
pub fn custom_storage_dir(settings: &Settings) -> (r: Option<String>)
    ensures
        settings.storage_path@.len() == 0 ==> r is None,
        settings.storage_path@.len() > 0 ==> r == Some(settings.storage_path),
{
    if settings.storage_path.unicode_len() == 0 {
        None
    } else {
        Some(dup_text(&settings.storage_path))
    }
}

impl DbState {
    /// Sets the setting `key` to `value`, adding it when missing.
    pub fn upsert_setting(&mut self, key: String, value: String)
        requires
            old(self).wf(),
        ensures
            final(self).wf(),
            setting_views(final(self).settings@) == upsert_setting_view(
                setting_views(old(self).settings@),
                key@,
                value@,
            ),
            final(self).master_key == old(self).master_key,
            final(self).entries == old(self).entries,
            final(self).tags == old(self).tags,
            final(self).entry_tags == old(self).entry_tags,
            final(self).otp_entries == old(self).otp_entries,
            final(self).categories == old(self).categories,
            final(self).templates == old(self).templates,
            final(self).template_fields == old(self).template_fields,
            final(self).template_categories == old(self).template_categories,
    {
        let ghost v = setting_views(self.settings@);
        let ghost orig = self.settings@;
        match find_setting(&self.settings, key.as_str()) {
            Some(i) => {
                let row = ExportSetting { key: dup_text(&key), value };
                self.settings.set(i, row);
                proof {
                    lemma_same_keys_unique(orig, self.settings@, setting_key());
                    assert(v[i as int] == orig[i as int]@);
                    assert forall|k: int| 0 <= k < orig.len() && k != i implies orig[k].key@ != key@ by {
                        assert(setting_key()(orig[k]) != setting_key()(orig[i as int]));
                    }
                    assert(setting_views(self.settings@) =~= upsert_setting_view(v, key@, value@)) by {
                        assert forall|k: int| 0 <= k < v.len() implies setting_views(self.settings@)[k]
                            == upsert_setting_view(v, key@, value@)[k] by {
                            assert(v[k] == orig[k]@);
                        }
                    }
                }
            },
            None => {
                let row = ExportSetting { key, value };
                proof {
                    assert forall|k: int| 0 <= k < v.len() implies v[k].0 != row.key@ by {
                        assert(v[k] == orig[k]@);
                    }
                    assert(!has_key(orig, setting_key(), row.key@));
                    lemma_push_unique(self.settings@, row, setting_key());
                }
                self.settings.push(row);
                assert(setting_views(self.settings@) =~= v.push((row.key@, row.value@)));
            },
        }
    }
}

/// Sets the setting `key` to `value`, adding it when missing. Works while locked.
pub fn update_setting(state: &mut AppState, key: String, value: String) -> (r: Result<(), String>)
    requires
        old(state).db.wf(),
    ensures
        r is Ok,
        final(state).db.wf(),
        final(state).crypto_key == old(state).crypto_key,
        final(state).last_activity == old(state).last_activity,
        setting_views(final(state).db.settings@) == upsert_setting_view(
            setting_views(old(state).db.settings@),
            key@,
            value@,
        ),
        final(state).db.entries == old(state).db.entries,
        final(state).db.master_key == old(state).db.master_key,
{
    state.db.upsert_setting(key, value);
    Ok(())
}

} // verus!
