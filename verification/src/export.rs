//! Export of the vault to a snapshot, and import of a snapshot: restored
//! as it was into a vault without a master password, or merged (entries
//! re-encrypted under the current key) into one that has one.

use vstd::prelude::*;
use crate::auth::{
    bad_salt_msg, ensure_db_unlocked, locked_msg, locked_unlock_first_msg, require_key,
    wrong_password_msg,
};
use crate::crypto::{
    aes_gcm_max_plaintext, argon2id_check, argon2id_key, decrypt, decrypt_error, encrypt,
    opened_payload, password_fits, password_fits_exec, sealed_payload, verify_password, CryptoKey,
};
use crate::entries::{
    duplicate_entry_id_msg, linked, same_but_entries_tags_links, tag_growth,
};
use crate::hexcodec::{hex_decode, hex_decode_spec};
use crate::ids::{has_uuid_key, is_uuid_text, lemma_uuid_key_taken, new_uuid};
use crate::models::{dup_opt_text, ImportResult};
use crate::tags::{duplicate_tag_id_msg, one_missing_name};
use crate::text::has_prefix;
use crate::db::{entry_key, link_key, master_salt_ok, setting_key, setting_views, tag_id_key, tag_name_key, DbState};
use crate::models::{
    dup_text, ExportData, ExportEntry, ExportEntryTag, ExportMasterKey, ExportSetting, TagOut,
};
use crate::settings::{keys_unique, lemma_views_unique, setting_value, upsert_setting_view};
use crate::state::AppState;
use crate::table::{has_key, lemma_push_unique, unique_by};
use crate::text::{concat_text, decimal_text, str_eq, u64_to_decimal};

verus! {

/// `data` is a snapshot of the vault: version 1 and a copy of its master
/// key, entries, tags, links and settings, in table order.
pub open spec fn snapshot_of(data: ExportData, db: DbState) -> bool {
    &&& data.version == 1
    &&& data.master_key == db.master_key
    &&& data.entries@ == db.entries@
    &&& data.tags@ == db.tags@
    &&& data.entry_tags@ == db.entry_tags@
    &&& data.settings@ == db.settings@
}

fn copy_entries(v: &Vec<ExportEntry>) -> (r: Vec<ExportEntry>)
    ensures
        r@ == v@,
{
    let mut out: Vec<ExportEntry> = Vec::new();
    let n = v.len();
    let mut i: usize = 0;
    while i < n
        invariant
            n == v@.len(),
            i <= n,
            out@ == v@.take(i as int),
        decreases n - i,
    {
        out.push(v[i].duplicate());
        assert(out@ =~= v@.take(i + 1));
        i = i + 1;
    }
    assert(v@.take(n as int) =~= v@);
    out
}

fn copy_tags(v: &Vec<TagOut>) -> (r: Vec<TagOut>)
    ensures
        r@ == v@,
{
    let mut out: Vec<TagOut> = Vec::new();
    let n = v.len();
    let mut i: usize = 0;
    while i < n
        invariant
            n == v@.len(),
            i <= n,
            out@ == v@.take(i as int),
        decreases n - i,
    {
        out.push(v[i].duplicate());
        assert(out@ =~= v@.take(i + 1));
        i = i + 1;
    }
    assert(v@.take(n as int) =~= v@);
    out
}

fn copy_links(v: &Vec<ExportEntryTag>) -> (r: Vec<ExportEntryTag>)
    ensures
        r@ == v@,
{
    let mut out: Vec<ExportEntryTag> = Vec::new();
    let n = v.len();
    let mut i: usize = 0;
    while i < n
        invariant
            n == v@.len(),
            i <= n,
            out@ == v@.take(i as int),
        decreases n - i,
    {
        out.push(v[i].duplicate());
        assert(out@ =~= v@.take(i + 1));
        i = i + 1;
    }
    assert(v@.take(n as int) =~= v@);
    out
}

fn copy_settings(v: &Vec<ExportSetting>) -> (r: Vec<ExportSetting>)
    ensures
        r@ == v@,
{
    let mut out: Vec<ExportSetting> = Vec::new();
    let n = v.len();
    let mut i: usize = 0;
    while i < n
        invariant
            n == v@.len(),
            i <= n,
            out@ == v@.take(i as int),
        decreases n - i,
    {
        out.push(v[i].duplicate());
        assert(out@ =~= v@.take(i + 1));
        i = i + 1;
    }
    assert(v@.take(n as int) =~= v@);
    out
}

/// A snapshot of the vault for export.
pub fn export_snapshot(state: &AppState) -> (r: Result<ExportData, String>)
    ensures
        state.crypto_key is None ==> r is Err && r->Err_0@ == locked_msg(),
        state.crypto_key is Some ==> r is Ok && snapshot_of(r->Ok_0, state.db),
{
    ensure_db_unlocked(state)?;
    let master_key = match &state.db.master_key {
        Some(m) => Some(m.duplicate()),
        None => None,
    };
    Ok(
        ExportData {
            version: 1,
            master_key,
            entries: copy_entries(&state.db.entries),
            tags: copy_tags(&state.db.tags),
            entry_tags: copy_links(&state.db.entry_tags),
            settings: copy_settings(&state.db.settings),
        },
    )
}

/// The name of an export file made at a given time (UNIX seconds).
pub fn export_file_name(ts: u64) -> (r: String)
    ensures
        r@ == "zpass_export_"@ + decimal_text(ts as nat) + ".json"@,
{
    let digits = u64_to_decimal(ts);
    let head = concat_text("zpass_export_", digits.as_str());
    concat_text(head.as_str(), ".json")
}

// ------------------------------------------------------------ restoring

/// `INSERT OR IGNORE` of entry rows, one after the other.
pub open spec fn entries_merged(s: Seq<ExportEntry>, rows: Seq<ExportEntry>) -> Seq<ExportEntry>
    decreases rows.len(),
{
    if rows.len() == 0 {
        s
    } else {
        let t = entries_merged(s, rows.drop_last());
        if has_key(t, entry_key(), rows.last().id@) {
            t
        } else {
            t.push(rows.last())
        }
    }
}

/// Some tag has the id or the name.
pub open spec fn tag_conflicts(s: Seq<TagOut>, t: TagOut) -> bool {
    has_key(s, tag_id_key(), t.id@) || has_key(s, tag_name_key(), t.name@)
}

/// `INSERT OR IGNORE` of tag rows (ignored when the id or the name is taken).
pub open spec fn tags_merged(s: Seq<TagOut>, rows: Seq<TagOut>) -> Seq<TagOut>
    decreases rows.len(),
{
    if rows.len() == 0 {
        s
    } else {
        let t = tags_merged(s, rows.drop_last());
        if tag_conflicts(t, rows.last()) {
            t
        } else {
            t.push(rows.last())
        }
    }
}

/// `INSERT OR IGNORE` of link rows.
pub open spec fn links_merged(s: Seq<ExportEntryTag>, rows: Seq<ExportEntryTag>) -> Seq<ExportEntryTag>
    decreases rows.len(),
{
    if rows.len() == 0 {
        s
    } else {
        let t = links_merged(s, rows.drop_last());
        if has_key(t, link_key(), (rows.last().entry_id@, rows.last().tag_id@)) {
            t
        } else {
            t.push(rows.last())
        }
    }
}

/// Settings written one after the other (insert, or update on the same key).
pub open spec fn settings_merged(
    v: Seq<(Seq<char>, Seq<char>)>,
    rows: Seq<(Seq<char>, Seq<char>)>,
) -> Seq<(Seq<char>, Seq<char>)>
    decreases rows.len(),
{
    if rows.len() == 0 {
        v
    } else {
        let t = settings_merged(v, rows.drop_last());
        upsert_setting_view(t, rows.last().0, rows.last().1)
    }
}

fn has_entry_id(rows: &Vec<ExportEntry>, id: &str) -> (r: bool)
    ensures
        r == has_key(rows@, entry_key(), id@),
{
    let n = rows.len();
    let mut i: usize = 0;
    while i < n
        invariant
            n == rows@.len(),
            i <= n,
            forall|k: int| 0 <= k < i ==> rows@[k].id@ != id@,
        decreases n - i,
    {
        if str_eq(rows[i].id.as_str(), id) {
            return true;
        }
        i = i + 1;
    }
    false
}

fn tag_conflict_exec(rows: &Vec<TagOut>, t: &TagOut) -> (r: bool)
    ensures
        r == tag_conflicts(rows@, *t),
{
    let n = rows.len();
    let mut i: usize = 0;
    while i < n
        invariant
            n == rows@.len(),
            i <= n,
            forall|k: int| 0 <= k < i ==> rows@[k].id@ != t.id@ && rows@[k].name@ != t.name@,
        decreases n - i,
    {
        if str_eq(rows[i].id.as_str(), t.id.as_str()) || str_eq(rows[i].name.as_str(), t.name.as_str()) {
            return true;
        }
        i = i + 1;
    }
    false
}

fn has_link_pair(rows: &Vec<ExportEntryTag>, l: &ExportEntryTag) -> (r: bool)
    ensures
        r == has_key(rows@, link_key(), (l.entry_id@, l.tag_id@)),
{
    let n = rows.len();
    let mut i: usize = 0;
    while i < n
        invariant
            n == rows@.len(),
            i <= n,
            forall|k: int| 0 <= k < i ==> link_key()(rows@[k]) != (l.entry_id@, l.tag_id@),
        decreases n - i,
    {
        if str_eq(rows[i].entry_id.as_str(), l.entry_id.as_str()) && str_eq(
            rows[i].tag_id.as_str(),
            l.tag_id.as_str(),
        ) {
            return true;
        }
        i = i + 1;
    }
    false
}

impl DbState {
    /// Restores an export into a vault without a master password: its master
    /// key, and its entries, tags and links where their keys are free, and
    /// its settings over the ones there.
    pub fn restore_export(&mut self, data: &ExportData)
        requires
            old(self).wf(),
            master_salt_ok(data.master_key),
        ensures
            final(self).wf(),
            final(self).master_key == data.master_key,
            final(self).entries@ == entries_merged(old(self).entries@, data.entries@),
            final(self).tags@ == tags_merged(old(self).tags@, data.tags@),
            final(self).entry_tags@ == links_merged(old(self).entry_tags@, data.entry_tags@),
            setting_views(final(self).settings@) == settings_merged(
                setting_views(old(self).settings@),
                setting_views(data.settings@),
            ),
            final(self).otp_entries == old(self).otp_entries,
            final(self).categories == old(self).categories,
            final(self).templates == old(self).templates,
            final(self).template_fields == old(self).template_fields,
            final(self).template_categories == old(self).template_categories,
    {
        self.master_key = match &data.master_key {
            Some(m) => Some(m.duplicate()),
            None => None,
        };
        let ghost e0 = self.entries@;
        let n = data.entries.len();
        let mut i: usize = 0;
        while i < n
            invariant
                n == data.entries@.len(),
                i <= n,
                unique_by(self.entries@, entry_key()),
                self.entries@ == entries_merged(e0, data.entries@.take(i as int)),
                e0 == old(self).entries@,
                old(self).wf(),
                self.master_key == data.master_key,
                self.tags == old(self).tags,
                self.entry_tags == old(self).entry_tags,
                self.settings == old(self).settings,
                self.otp_entries == old(self).otp_entries,
                self.categories == old(self).categories,
                self.templates == old(self).templates,
                self.template_fields == old(self).template_fields,
                self.template_categories == old(self).template_categories,
            decreases n - i,
        {
            assert(data.entries@.take(i + 1).drop_last() =~= data.entries@.take(i as int));
            let row = &data.entries[i];
            if !has_entry_id(&self.entries, row.id.as_str()) {
                proof {
                    lemma_push_unique(self.entries@, *row, entry_key());
                }
                self.entries.push(row.duplicate());
            }
            i = i + 1;
        }
        assert(data.entries@.take(n as int) =~= data.entries@);
        let ghost t0 = self.tags@;
        let m = data.tags.len();
        let mut j: usize = 0;
        while j < m
            invariant
                m == data.tags@.len(),
                j <= m,
                unique_by(self.tags@, tag_id_key()),
                unique_by(self.tags@, tag_name_key()),
                self.tags@ == tags_merged(t0, data.tags@.take(j as int)),
                t0 == old(self).tags@,
                old(self).wf(),
                unique_by(self.entries@, entry_key()),
                self.entries@ == entries_merged(e0, data.entries@),
                self.master_key == data.master_key,
                self.entry_tags == old(self).entry_tags,
                self.settings == old(self).settings,
                self.otp_entries == old(self).otp_entries,
                self.categories == old(self).categories,
                self.templates == old(self).templates,
                self.template_fields == old(self).template_fields,
                self.template_categories == old(self).template_categories,
            decreases m - j,
        {
            assert(data.tags@.take(j + 1).drop_last() =~= data.tags@.take(j as int));
            let row = &data.tags[j];
            if !tag_conflict_exec(&self.tags, row) {
                proof {
                    lemma_push_unique(self.tags@, *row, tag_id_key());
                    lemma_push_unique(self.tags@, *row, tag_name_key());
                }
                self.tags.push(row.duplicate());
            }
            j = j + 1;
        }
        assert(data.tags@.take(m as int) =~= data.tags@);
        let ghost l0 = self.entry_tags@;
        let p = data.entry_tags.len();
        let mut k: usize = 0;
        while k < p
            invariant
                p == data.entry_tags@.len(),
                k <= p,
                unique_by(self.entry_tags@, link_key()),
                self.entry_tags@ == links_merged(l0, data.entry_tags@.take(k as int)),
                l0 == old(self).entry_tags@,
                old(self).wf(),
                unique_by(self.entries@, entry_key()),
                unique_by(self.tags@, tag_id_key()),
                unique_by(self.tags@, tag_name_key()),
                self.entries@ == entries_merged(e0, data.entries@),
                self.tags@ == tags_merged(t0, data.tags@),
                self.master_key == data.master_key,
                self.settings == old(self).settings,
                self.otp_entries == old(self).otp_entries,
                self.categories == old(self).categories,
                self.templates == old(self).templates,
                self.template_fields == old(self).template_fields,
                self.template_categories == old(self).template_categories,
            decreases p - k,
        {
            assert(data.entry_tags@.take(k + 1).drop_last() =~= data.entry_tags@.take(k as int));
            let row = &data.entry_tags[k];
            if !has_link_pair(&self.entry_tags, row) {
                proof {
                    lemma_push_unique(self.entry_tags@, *row, link_key());
                }
                self.entry_tags.push(row.duplicate());
            }
            k = k + 1;
        }
        assert(data.entry_tags@.take(p as int) =~= data.entry_tags@);
        assert(self.wf());
        let ghost s0 = setting_views(self.settings@);
        let q = data.settings.len();
        let mut z: usize = 0;
        while z < q
            invariant
                q == data.settings@.len(),
                z <= q,
                s0 == setting_views(old(self).settings@),
                self.wf(),
                self.master_key == data.master_key,
                master_salt_ok(data.master_key),
                setting_views(self.settings@) == settings_merged(s0, setting_views(data.settings@).take(z as int)),
                self.entries@ == entries_merged(e0, data.entries@),
                self.tags@ == tags_merged(t0, data.tags@),
                self.entry_tags@ == links_merged(l0, data.entry_tags@),
                self.otp_entries == old(self).otp_entries,
                self.categories == old(self).categories,
                self.templates == old(self).templates,
                self.template_fields == old(self).template_fields,
                self.template_categories == old(self).template_categories,
            decreases q - z,
        {
            assert(setting_views(data.settings@).take(z + 1).drop_last() =~= setting_views(data.settings@).take(z as int));
            assert(setting_views(data.settings@).take(z + 1).last() == data.settings@[z as int]@);
            let row = &data.settings[z];
            self.upsert_setting(dup_text(&row.key), dup_text(&row.value));
            z = z + 1;
        }
        assert(setting_views(data.settings@).take(q as int) =~= setting_views(data.settings@));
    }
}

// ------------------------------------------------------------ the round trip

proof fn lemma_entries_into_empty(rows: Seq<ExportEntry>)
    requires
        unique_by(rows, entry_key()),
    ensures
        entries_merged(Seq::empty(), rows) == rows,
    decreases rows.len(),
{
    if rows.len() > 0 {
        let d = rows.drop_last();
        assert(unique_by(d, entry_key())) by {
            assert forall|i: int, j: int| 0 <= i < d.len() && 0 <= j < d.len() && i != j implies entry_key()(d[i]) != entry_key()(d[j]) by {
                assert(d[i] == rows[i] && d[j] == rows[j]);
            }
        }
        lemma_entries_into_empty(d);
        assert(!has_key(d, entry_key(), rows.last().id@)) by {
            assert forall|i: int| 0 <= i < d.len() implies entry_key()(d[i]) != rows.last().id@ by {
                assert(d[i] == rows[i]);
                assert(entry_key()(rows[i]) != entry_key()(rows[rows.len() - 1]));
            }
        }
        assert(d.push(rows.last()) =~= rows);
    }
}

proof fn lemma_tags_into_empty(rows: Seq<TagOut>)
    requires
        unique_by(rows, tag_id_key()),
        unique_by(rows, tag_name_key()),
    ensures
        tags_merged(Seq::empty(), rows) == rows,
    decreases rows.len(),
{
    if rows.len() > 0 {
        let d = rows.drop_last();
        assert(unique_by(d, tag_id_key()) && unique_by(d, tag_name_key())) by {
            assert forall|i: int, j: int| 0 <= i < d.len() && 0 <= j < d.len() && i != j implies tag_id_key()(d[i]) != tag_id_key()(d[j])
                && tag_name_key()(d[i]) != tag_name_key()(d[j]) by {
                assert(d[i] == rows[i] && d[j] == rows[j]);
            }
        }
        lemma_tags_into_empty(d);
        assert(!tag_conflicts(d, rows.last())) by {
            assert forall|i: int| 0 <= i < d.len() implies tag_id_key()(d[i]) != rows.last().id@
                && tag_name_key()(d[i]) != rows.last().name@ by {
                assert(d[i] == rows[i]);
                assert(tag_id_key()(rows[i]) != tag_id_key()(rows[rows.len() - 1]));
                assert(tag_name_key()(rows[i]) != tag_name_key()(rows[rows.len() - 1]));
            }
        }
        assert(d.push(rows.last()) =~= rows);
    }
}

proof fn lemma_links_into_empty(rows: Seq<ExportEntryTag>)
    requires
        unique_by(rows, link_key()),
    ensures
        links_merged(Seq::empty(), rows) == rows,
    decreases rows.len(),
{
    if rows.len() > 0 {
        let d = rows.drop_last();
        assert(unique_by(d, link_key())) by {
            assert forall|i: int, j: int| 0 <= i < d.len() && 0 <= j < d.len() && i != j implies link_key()(d[i]) != link_key()(d[j]) by {
                assert(d[i] == rows[i] && d[j] == rows[j]);
            }
        }
        lemma_links_into_empty(d);
        assert(!has_key(d, link_key(), (rows.last().entry_id@, rows.last().tag_id@))) by {
            assert forall|i: int| 0 <= i < d.len() implies link_key()(d[i]) != (rows.last().entry_id@, rows.last().tag_id@) by {
                assert(d[i] == rows[i]);
                assert(link_key()(rows[i]) != link_key()(rows[rows.len() - 1]));
            }
        }
        assert(d.push(rows.last()) =~= rows);
    }
}

/// Writing settings with distinct keys one after the other: each written key
/// reads as written, the others as before.
proof fn lemma_settings_merged_read(
    v: Seq<(Seq<char>, Seq<char>)>,
    rows: Seq<(Seq<char>, Seq<char>)>,
    key: Seq<char>,
)
    requires
        keys_unique(v),
        keys_unique(rows),
    ensures
        keys_unique(settings_merged(v, rows)),
        setting_value(settings_merged(v, rows), key) == setting_value(
            if exists|i: int| 0 <= i < rows.len() && rows[i].0 == key { rows } else { v },
            key,
        ),
    decreases rows.len(),
{
    if rows.len() > 0 {
        let d = rows.drop_last();
        let last = rows.last();
        assert(keys_unique(d)) by {
            assert forall|i: int, j: int| 0 <= i < d.len() && 0 <= j < d.len() && i != j implies d[i].0 != d[j].0 by {
                assert(d[i] == rows[i] && d[j] == rows[j]);
            }
        }
        lemma_settings_merged_read(v, d, key);
        let t = settings_merged(v, d);
        if key == last.0 {
            assert(key.push('x') != key) by {
                assert(key.push('x').len() != key.len());
            }
            crate::settings::lemma_setting_read_after_write(t, key, last.1, key.push('x'));
            let c = choose|c: int| 0 <= c < rows.len() && rows[c].0 == key;
            let i = rows.len() - 1;
            if c != i {
                assert(rows[c].0 != rows[i].0);
            }
        } else {
            crate::settings::lemma_setting_read_after_write(t, last.0, last.1, key);
            if exists|i: int| 0 <= i < rows.len() && rows[i].0 == key {
                let c = choose|c: int| 0 <= c < rows.len() && rows[c].0 == key;
                assert(c < d.len());
                assert(d[c] == rows[c]);
                let cd = choose|cd: int| 0 <= cd < d.len() && d[cd].0 == key;
                assert(d[cd] == rows[cd]);
                if cd != c {
                    assert(rows[cd].0 != rows[c].0);
                }
            } else {
                assert forall|i: int| 0 <= i < d.len() implies d[i].0 != key by {
                    assert(d[i] == rows[i]);
                }
            }
        }
    }
}

/// Exporting a vault and restoring the snapshot into a vault that has no
/// entries, tags or links gives them back as they were, and every exported
/// setting reads as it was exported (the others keep their value).
pub proof fn lemma_export_restore_round_trip(source: DbState, data: ExportData, target: DbState, key: Seq<char>)
    requires
        source.wf(),
        target.wf(),
        snapshot_of(data, source),
        target.entries@.len() == 0,
        target.tags@.len() == 0,
        target.entry_tags@.len() == 0,
    ensures
        entries_merged(target.entries@, data.entries@) == source.entries@,
        tags_merged(target.tags@, data.tags@) == source.tags@,
        links_merged(target.entry_tags@, data.entry_tags@) == source.entry_tags@,
        setting_value(
            settings_merged(setting_views(target.settings@), setting_views(data.settings@)),
            key,
        ) == if has_key(source.settings@, setting_key(), key) {
            setting_value(setting_views(source.settings@), key)
        } else {
            setting_value(setting_views(target.settings@), key)
        },
{
    assert(target.entries@ =~= Seq::<ExportEntry>::empty());
    assert(target.tags@ =~= Seq::<TagOut>::empty());
    assert(target.entry_tags@ =~= Seq::<ExportEntryTag>::empty());
    lemma_entries_into_empty(source.entries@);
    lemma_tags_into_empty(source.tags@);
    lemma_links_into_empty(source.entry_tags@);
    lemma_views_unique(target.settings@);
    lemma_views_unique(source.settings@);
    lemma_settings_merged_read(setting_views(target.settings@), setting_views(source.settings@), key);
    let v = setting_views(source.settings@);
    if has_key(source.settings@, setting_key(), key) {
        let i = choose|i: int| 0 <= i < source.settings@.len() && setting_key()(source.settings@[i]) == key;
        assert(v[i] == source.settings@[i]@);
    } else {
        assert forall|i: int| 0 <= i < v.len() implies v[i].0 != key by {
            assert(v[i] == source.settings@[i]@);
        }
    }
}

// ------------------------------------------------------------ merging

/// `i` is the first entry outside the trash with the title.
pub open spec fn is_first_live_titled(entries: Seq<ExportEntry>, title: Seq<char>, i: int) -> bool {
    &&& 0 <= i < entries.len()
    &&& entries[i].deleted_at is None
    &&& entries[i].title@ == title
    &&& forall|j: int| 0 <= j < i ==> !(entries[j].deleted_at is None && #[trigger] entries[j].title@ == title)
}

fn find_first_live_titled(entries: &Vec<ExportEntry>, title: &str) -> (r: Option<usize>)
    ensures
        r matches Some(i) ==> is_first_live_titled(entries@, title@, i as int),
        r is None ==> forall|j: int| 0 <= j < entries@.len() ==> !(entries@[j].deleted_at is None && #[trigger] entries@[j].title@ == title@),
{
    let n = entries.len();
    let mut i: usize = 0;
    while i < n
        invariant
            n == entries@.len(),
            i <= n,
            forall|j: int| 0 <= j < i ==> !(entries@[j].deleted_at is None && #[trigger] entries@[j].title@ == title@),
        decreases n - i,
    {
        if entries[i].deleted_at.is_none() && str_eq(entries[i].title.as_str(), title) {
            return Some(i);
        }
        i = i + 1;
    }
    None
}

/// The first tag of `tags` with the id.
pub open spec fn first_tag_with_id(tags: Seq<TagOut>, id: Seq<char>) -> Option<TagOut>
    decreases tags.len(),
{
    if tags.len() == 0 {
        None
    } else if tags[0].id@ == id {
        Some(tags[0])
    } else {
        first_tag_with_id(tags.drop_first(), id)
    }
}

/// The names of the exported tags linked to the exported entry `entry_id`,
/// in the order of the links (links to tags missing from the export are skipped).
pub open spec fn export_tag_names(links: Seq<ExportEntryTag>, tags: Seq<TagOut>, entry_id: Seq<char>) -> Seq<String>
    decreases links.len(),
{
    if links.len() == 0 {
        Seq::empty()
    } else {
        let rest = export_tag_names(links.drop_last(), tags, entry_id);
        if links.last().entry_id@ == entry_id {
            match first_tag_with_id(tags, links.last().tag_id@) {
                Some(t) => rest.push(t.name),
                None => rest,
            }
        } else {
            rest
        }
    }
}

proof fn lemma_first_tag_with_id(tags: Seq<TagOut>, id: Seq<char>)
    ensures
        first_tag_with_id(tags, id) matches Some(t) ==> exists|j: int|
            0 <= j < tags.len() && tags[j] == t && #[trigger] tags[j].id@ == id,
        first_tag_with_id(tags, id) is None ==> forall|j: int| 0 <= j < tags.len() ==> (#[trigger] tags[j]).id@ != id,
    decreases tags.len(),
{
    if tags.len() > 0 && tags[0].id@ != id {
        lemma_first_tag_with_id(tags.drop_first(), id);
        assert forall|j: int| 0 < j < tags.len() implies #[trigger] tags[j] == tags.drop_first()[j - 1] by {}
        match first_tag_with_id(tags.drop_first(), id) {
            Some(t) => {
                let j = choose|j: int|
                    0 <= j < tags.drop_first().len() && tags.drop_first()[j] == t && #[trigger] tags.drop_first()[j].id@ == id;
                assert(tags[j + 1] == tags.drop_first()[j]);
            },
            None => {
                assert forall|j: int| 0 <= j < tags.len() implies (#[trigger] tags[j]).id@ != id by {
                    if j > 0 {
                        assert(tags[j] == tags.drop_first()[j - 1]);
                    }
                }
            },
        }
    }
}

/// `name` is the name of an exported tag that an exported link of the entry
/// `entry_id` points at.
pub open spec fn name_from_link(links: Seq<ExportEntryTag>, tags: Seq<TagOut>, entry_id: Seq<char>, name: String) -> bool {
    exists|k: int, j: int|
        0 <= k < links.len() && 0 <= j < tags.len() && (#[trigger] links[k]).entry_id@ == entry_id
            && (#[trigger] tags[j]).id@ == links[k].tag_id@ && tags[j].name == name
}

/// The names handed to the merge of an exported entry are exactly the
/// names of its exported tags: every exported link of the entry to a tag
/// of the export gives the name of a tag with that id, and every name given
/// comes from such a link; one name per such link, in link order.
pub proof fn lemma_export_tag_names_complete(links: Seq<ExportEntryTag>, tags: Seq<TagOut>, entry_id: Seq<char>)
    ensures
        forall|k: int|
            0 <= k < links.len() && (#[trigger] links[k]).entry_id@ == entry_id && (exists|j: int|
                0 <= j < tags.len() && tags[j].id@ == links[k].tag_id@) ==> exists|j: int|
                0 <= j < tags.len() && tags[j].id@ == links[k].tag_id@ && export_tag_names(
                    links,
                    tags,
                    entry_id,
                ).contains(#[trigger] tags[j].name),
        forall|q: int|
            #![trigger export_tag_names(links, tags, entry_id)[q]]
            0 <= q < export_tag_names(links, tags, entry_id).len() ==> name_from_link(
                links,
                tags,
                entry_id,
                export_tag_names(links, tags, entry_id)[q],
            ),
        export_tag_names(links, tags, entry_id).len() == links.filter(
            |l: ExportEntryTag| l.entry_id@ == entry_id && exists|j: int| 0 <= j < tags.len() && tags[j].id@ == l.tag_id@,
        ).len(),
    decreases links.len(),
{
    let names = export_tag_names(links, tags, entry_id);
    let pred = |l: ExportEntryTag| l.entry_id@ == entry_id && exists|j: int| 0 <= j < tags.len() && tags[j].id@ == l.tag_id@;
    reveal(Seq::filter);
    if links.len() > 0 {
        let d = links.drop_last();
        let l = links.last();
        let rest = export_tag_names(d, tags, entry_id);
        lemma_export_tag_names_complete(d, tags, entry_id);
        lemma_first_tag_with_id(tags, l.tag_id@);
        assert(links[links.len() - 1] == l);
        assert forall|k: int| 0 <= k < d.len() implies #[trigger] links[k] == d[k] by {}
        assert forall|q: int| 0 <= q < rest.len() implies names[q] == rest[q] by {}
        assert forall|x: String| rest.contains(x) implies names.contains(x) by {
            let q = choose|q: int| 0 <= q < rest.len() && rest[q] == x;
            assert(names[q] == rest[q]);
        }
        assert forall|k: int|
            0 <= k < links.len() && (#[trigger] links[k]).entry_id@ == entry_id && (exists|j: int|
                0 <= j < tags.len() && tags[j].id@ == links[k].tag_id@) implies exists|j: int|
            0 <= j < tags.len() && tags[j].id@ == links[k].tag_id@ && names.contains(#[trigger] tags[j].name) by {
            if k < d.len() {
                assert(links[k] == d[k]);
                let j = choose|j: int|
                    0 <= j < tags.len() && tags[j].id@ == d[k].tag_id@ && rest.contains(#[trigger] tags[j].name);
                assert(names.contains(tags[j].name));
            } else {
                assert(k == links.len() - 1);
                let j0 = choose|j: int| 0 <= j < tags.len() && tags[j].id@ == links[k].tag_id@;
                assert((#[trigger] tags[j0]).id@ == l.tag_id@);
                let t = first_tag_with_id(tags, l.tag_id@)->0;
                let j = choose|j: int| 0 <= j < tags.len() && tags[j] == t && #[trigger] tags[j].id@ == l.tag_id@;
                assert(names[names.len() - 1] == t.name);
                assert(names.contains(tags[j].name));
            }
        }
        assert forall|q: int|
            #![trigger export_tag_names(links, tags, entry_id)[q]]
            0 <= q < export_tag_names(links, tags, entry_id).len() implies name_from_link(
                links,
                tags,
                entry_id,
                export_tag_names(links, tags, entry_id)[q],
            ) by {
            if q < rest.len() {
                assert(name_from_link(d, tags, entry_id, rest[q]));
                let (k, j) = choose|k: int, j: int|
                    0 <= k < d.len() && 0 <= j < tags.len() && (#[trigger] d[k]).entry_id@ == entry_id
                        && (#[trigger] tags[j]).id@ == d[k].tag_id@ && tags[j].name == rest[q];
                assert(links[k] == d[k]);
            } else {
                let t = first_tag_with_id(tags, l.tag_id@)->0;
                let j = choose|j: int| 0 <= j < tags.len() && tags[j] == t && #[trigger] tags[j].id@ == l.tag_id@;
                assert(links[links.len() - 1].entry_id@ == entry_id);
            }
        }
        assert(links.filter(pred) == if pred(l) { d.filter(pred).push(l) } else { d.filter(pred) });
        if l.entry_id@ == entry_id {
            match first_tag_with_id(tags, l.tag_id@) {
                Some(t) => {
                    let j = choose|j: int| 0 <= j < tags.len() && tags[j] == t && #[trigger] tags[j].id@ == l.tag_id@;
                    assert(pred(l));
                },
                None => {
                    assert(!pred(l));
                },
            }
        }
    } else {
        assert(names.len() == 0);
    }
}

/// The link at position `k` is one of the entry `entry_id`, to an exported
/// tag named `name`.
pub open spec fn named_by_link(links: Seq<ExportEntryTag>, tags: Seq<TagOut>, entry_id: Seq<char>, k: int, name: String) -> bool {
    &&& 0 <= k < links.len()
    &&& links[k].entry_id@ == entry_id
    &&& exists|j: int| 0 <= j < tags.len() && (#[trigger] tags[j]).id@ == links[k].tag_id@ && tags[j].name == name
}

/// Of two of the names, the earlier comes from an earlier link.
pub open spec fn names_in_link_order(links: Seq<ExportEntryTag>, tags: Seq<TagOut>, entry_id: Seq<char>, names: Seq<String>) -> bool {
    forall|q1: int, q2: int|
        0 <= q1 < q2 < names.len() ==> #[trigger] from_ordered_links(links, tags, entry_id, names[q1], names[q2])
}

/// Two names come from two links, the first name from the earlier link.
pub open spec fn from_ordered_links(links: Seq<ExportEntryTag>, tags: Seq<TagOut>, entry_id: Seq<char>, a: String, b: String) -> bool {
    exists|k1: int, k2: int|
        k1 < k2 && #[trigger] named_by_link(links, tags, entry_id, k1, a) && #[trigger] named_by_link(links, tags, entry_id, k2, b)
}

/// The names handed to the merge come in the order of the links they come
/// from: of two names, the earlier comes from an earlier link.
pub proof fn lemma_export_tag_names_in_link_order(links: Seq<ExportEntryTag>, tags: Seq<TagOut>, entry_id: Seq<char>)
    ensures
        names_in_link_order(links, tags, entry_id, export_tag_names(links, tags, entry_id)),
    decreases links.len(),
{
    if links.len() > 0 {
        let d = links.drop_last();
        let l = links.last();
        let rest = export_tag_names(d, tags, entry_id);
        let names = export_tag_names(links, tags, entry_id);
        lemma_export_tag_names_in_link_order(d, tags, entry_id);
        lemma_export_tag_names_complete(d, tags, entry_id);
        assert(names_in_link_order(d, tags, entry_id, rest));
        lemma_first_tag_with_id(tags, l.tag_id@);
        assert(links[links.len() - 1] == l);
        assert forall|q: int| 0 <= q < rest.len() implies names[q] == rest[q] by {}
        assert forall|k: int, nm: String| #[trigger] named_by_link(d, tags, entry_id, k, nm) implies named_by_link(
            links,
            tags,
            entry_id,
            k,
            nm,
        ) by {
            assert(links[k] == d[k]);
        }
        assert forall|q1: int, q2: int|
            0 <= q1 < q2 < names.len() implies #[trigger] from_ordered_links(links, tags, entry_id, names[q1], names[q2]) by {
            if q2 < rest.len() {
                assert(rest[q1] == names[q1] && rest[q2] == names[q2]);
                assert(from_ordered_links(d, tags, entry_id, rest[q1], rest[q2]));
                let (k1, k2) = choose|k1: int, k2: int|
                    k1 < k2 && #[trigger] named_by_link(d, tags, entry_id, k1, rest[q1])
                        && #[trigger] named_by_link(d, tags, entry_id, k2, rest[q2]);
                assert(named_by_link(links, tags, entry_id, k1, names[q1]));
                assert(named_by_link(links, tags, entry_id, k2, names[q2]));
            } else {
                assert(name_from_link(d, tags, entry_id, rest[q1]));
                let (k1, j1) = choose|k: int, j: int|
                    0 <= k < d.len() && 0 <= j < tags.len() && (#[trigger] d[k]).entry_id@ == entry_id
                        && (#[trigger] tags[j]).id@ == d[k].tag_id@ && tags[j].name == rest[q1];
                assert(named_by_link(d, tags, entry_id, k1, rest[q1]));
                assert(named_by_link(links, tags, entry_id, k1, names[q1]));
                let t = first_tag_with_id(tags, l.tag_id@)->0;
                let j = choose|j: int| 0 <= j < tags.len() && tags[j] == t && #[trigger] tags[j].id@ == l.tag_id@;
                assert(names[q2] == t.name);
                assert(named_by_link(links, tags, entry_id, links.len() - 1, names[q2]));
            }
        }
        assert(names_in_link_order(links, tags, entry_id, names));
    } else {
        assert(export_tag_names(links, tags, entry_id).len() == 0);
    }
}

fn first_tag_name(tags: &Vec<TagOut>, id: &str) -> (r: Option<String>)
    ensures
        r == (match first_tag_with_id(tags@, id@) {
            Some(t) => Some(t.name),
            None => None,
        }),
{
    let n = tags.len();
    let mut i: usize = 0;
    assert(tags@.skip(0) =~= tags@);
    while i < n
        invariant
            n == tags@.len(),
            i <= n,
            first_tag_with_id(tags@, id@) == first_tag_with_id(tags@.skip(i as int), id@),
        decreases n - i,
    {
        assert(tags@.skip(i as int)[0] == tags@[i as int]);
        if str_eq(tags[i].id.as_str(), id) {
            return Some(dup_text(&tags[i].name));
        }
        assert(tags@.skip(i as int).drop_first() =~= tags@.skip(i + 1));
        i = i + 1;
    }
    assert(tags@.skip(n as int).len() == 0);
    None
}

/// The names of the exported tags linked to an exported entry, in link order.
pub fn tag_names_for(data: &ExportData, entry_id: &str) -> (r: Vec<String>)
    ensures
        r@ == export_tag_names(data.entry_tags@, data.tags@, entry_id@),
{
    let links = &data.entry_tags;
    let n = links.len();
    let mut out: Vec<String> = Vec::new();
    let mut i: usize = 0;
    assert(links@.take(0) =~= Seq::<ExportEntryTag>::empty());
    while i < n
        invariant
            n == links@.len(),
            i <= n,
            out@ == export_tag_names(links@.take(i as int), data.tags@, entry_id@),
        decreases n - i,
    {
        assert(links@.take(i + 1).drop_last() =~= links@.take(i as int));
        assert(links@.take(i + 1).last() == links@[i as int]);
        if str_eq(links[i].entry_id.as_str(), entry_id) {
            match first_tag_name(&data.tags, links[i].tag_id.as_str()) {
                Some(name) => {
                    out.push(name);
                },
                None => {},
            }
        }
        i = i + 1;
    }
    assert(links@.take(n as int) =~= links@);
    out
}

/// An entry row imported from an export: a fresh id, the exported values,
/// and the fields `plaintext` encrypted under the key.
pub open spec fn imported_row(row: ExportEntry, e: ExportEntry, key: Seq<u8>, plaintext: Seq<u8>) -> bool {
    &&& is_uuid_text(row.id@)
    &&& row.category == e.category
    &&& row.title == e.title
    &&& row.icon == e.icon
    &&& row.note == e.note
    &&& row.otp_id == e.otp_id
    &&& row.otp_mode == e.otp_mode
    &&& row.created_at == e.created_at
    &&& row.updated_at == e.updated_at
    &&& row.deleted_at == e.deleted_at
    &&& exists|n: Seq<u8>| n.len() == 12 && row.encrypted_data@ == #[trigger] sealed_payload(key, n, plaintext)
    &&& opened_payload(key, row.encrypted_data@) == Some(plaintext)
}

/// An entry merged from an export reads back, under the current key, the
/// fields that the exported entry held under the export's key.
pub proof fn lemma_merged_entry_reads_back(
    before: DbState,
    after: DbState,
    row: ExportEntry,
    e: ExportEntry,
    old_key: Seq<u8>,
    cur_key: Seq<u8>,
    fields: Seq<u8>,
)
    requires
        after.wf(),
        after.entries@ == before.entries@.push(row),
        opened_payload(old_key, e.encrypted_data@) == Some(fields),
        imported_row(row, e, cur_key, fields),
    ensures
        crate::entries::stored_fields(after, cur_key, row.id@) == Some(fields),
{
    let last = before.entries@.len() as int;
    assert(after.entries@[last] == row);
    let j = crate::entries::entry_pos(after.entries@, row.id@);
    if j != last {
        assert(entry_key()(after.entries@[j]) == entry_key()(after.entries@[last]));
    }
}

/// The entry table once the entry replaced by an import of `e` is removed.
pub open spec fn entries_without_replaced(entries: Seq<ExportEntry>, e: ExportEntry) -> Seq<ExportEntry> {
    if exists|i: int| is_first_live_titled(entries, e.title@, i) {
        let i = choose|i: int| is_first_live_titled(entries, e.title@, i);
        entries.filter(|x: ExportEntry| x.id@ != entries[i].id@)
    } else {
        entries
    }
}

/// The link table once the links of the entry replaced by an import of `e` are removed.
pub open spec fn links_without_replaced(entries: Seq<ExportEntry>, links: Seq<ExportEntryTag>, e: ExportEntry) -> Seq<ExportEntryTag> {
    if exists|i: int| is_first_live_titled(entries, e.title@, i) {
        let i = choose|i: int| is_first_live_titled(entries, e.title@, i);
        links.filter(|l: ExportEntryTag| l.entry_id@ != entries[i].id@)
    } else {
        links
    }
}

/// What merging the exported entry `e` does: the first entry outside the
/// trash with its title is removed with its links (`r` tells whether there
/// was one); its fields are decrypted with the export's key and encrypted
/// under the current key into a new entry; its exported tags are linked by name.
pub open spec fn merge_step(
    before: DbState,
    after: DbState,
    e: ExportEntry,
    old_key: Seq<u8>,
    cur_key: Seq<u8>,
    names: Seq<String>,
    r: Result<bool, String>,
) -> bool {
    let mid_entries = entries_without_replaced(before.entries@, e);
    let mid_links = links_without_replaced(before.entries@, before.entry_tags@, e);
    let untouched_rest = after.entries@ == mid_entries && after.entry_tags@ == mid_links && after.tags == before.tags;
    &&& after.wf()
    &&& same_but_entries_tags_links(after, before)
    &&& r is Ok ==> (r->Ok_0 <==> exists|i: int| is_first_live_titled(before.entries@, e.title@, i))
    &&& match opened_payload(old_key, e.encrypted_data@) {
        None => r is Err && decrypt_error(e.encrypted_data@, r->Err_0@) && untouched_rest,
        Some(p) => if p.len() > aes_gcm_max_plaintext() {
            r is Err && has_prefix(r->Err_0@, "加密失败: "@) && untouched_rest
        } else {
            &&& after.entries@ == mid_entries ==> r is Err && r->Err_0@ == duplicate_entry_id_msg() && untouched_rest
            &&& after.entries@ == mid_entries ==> has_uuid_key(mid_entries, entry_key())
            &&& after.entries@ != mid_entries && r is Err ==> has_uuid_key(before.tags@, tag_id_key())
                || after.tags@.len() > before.tags@.len()
            &&& !has_uuid_key(mid_entries, entry_key()) && !has_uuid_key(before.tags@, tag_id_key())
                && one_missing_name(before.tags@, names) ==> r is Ok
            &&& after.entries@ != mid_entries ==> after.entries@ == mid_entries.push(after.entries@.last())
                && imported_row(after.entries@.last(), e, cur_key, p) && tag_growth(
                after.tags@,
                after.entry_tags@,
                before.tags@,
                mid_links,
                after.entries@.last().id@,
                names,
            ) && (r is Err ==> r->Err_0@ == duplicate_tag_id_msg()) && (r is Ok ==> forall|k: int|
                0 <= k < names.len() ==> linked(
                    after.tags@,
                    after.entry_tags@,
                    after.entries@.last().id@,
                    #[trigger] names[k]@,
                ))
        },
    }
}

impl DbState {
    /// Merges one exported entry (see [`merge_step`]).
    pub fn merge_entry(&mut self, old_key: &CryptoKey, cur_key: &CryptoKey, e: &ExportEntry, names: &Vec<String>) -> (r: Result<bool, String>)
        requires
            old(self).wf(),
        ensures
            merge_step(*old(self), *final(self), *e, old_key.key@, cur_key.key@, names@, r),
    {
        let ghost before = *self;
        let replaced = match find_first_live_titled(&self.entries, e.title.as_str()) {
            Some(i) => {
                let old_id = dup_text(&self.entries[i].id);
                proof {
                    let c = choose|c: int| is_first_live_titled(before.entries@, e.title@, c);
                    if c < i {
                        assert(!(before.entries@[c].deleted_at is None && before.entries@[c].title@ == e.title@));
                    } else if c > i {
                        assert(!(before.entries@[i as int].deleted_at is None && before.entries@[i as int].title@ == e.title@));
                    }
                }
                self.remove_entry(old_id.as_str());
                true
            },
            None => false,
        };
        assert(self.entries@ == entries_without_replaced(before.entries@, *e));
        assert(self.entry_tags@ == links_without_replaced(before.entries@, before.entry_tags@, *e));
        let plain = decrypt(&old_key.key, e.encrypted_data.as_str())?;
        let enc = encrypt(&cur_key.key, plain.as_slice())?;
        let row = ExportEntry {
            id: new_uuid(),
            category: dup_text(&e.category),
            title: dup_text(&e.title),
            icon: dup_opt_text(&e.icon),
            note: dup_opt_text(&e.note),
            otp_id: dup_opt_text(&e.otp_id),
            otp_mode: dup_opt_text(&e.otp_mode),
            encrypted_data: enc,
            created_at: dup_text(&e.created_at),
            updated_at: dup_text(&e.updated_at),
            deleted_at: dup_opt_text(&e.deleted_at),
        };
        let new_id = dup_text(&row.id);
        let ghost mid = *self;
        let ghost grow = row;
        match self.insert_entry_row(row) {
            Ok(()) => {},
            Err(e) => {
                proof {
                    lemma_uuid_key_taken(mid.entries@, entry_key(), grow.id@);
                }
                return Err(e);
            },
        }
        assert(self.entries@.last() == grow);
        assert(self.entries@ != mid.entries@) by {
            assert(self.entries@.len() != mid.entries@.len());
        }
        self.link_tags(new_id.as_str(), names)?;
        Ok(replaced)
    }
}

/// How many flags are set.
pub open spec fn count_set(flags: Seq<bool>) -> nat
    decreases flags.len(),
{
    if flags.len() == 0 {
        0
    } else {
        count_set(flags.drop_last()) + if flags.last() { 1nat } else { 0nat }
    }
}

/// `states` are the vault before and after each merged entry of `data`,
/// and `flags` tell which merges replaced an entry.
pub open spec fn merge_run(
    states: Seq<DbState>,
    flags: Seq<bool>,
    data: ExportData,
    old_key: Seq<u8>,
    cur_key: Seq<u8>,
) -> bool {
    &&& states.len() == flags.len() + 1
    &&& forall|k: int|
        0 <= k < flags.len() ==> merge_step(
            #[trigger] states[k],
            states[k + 1],
            data.entries@[k],
            old_key,
            cur_key,
            export_tag_names(data.entry_tags@, data.tags@, data.entries@[k].id@),
            Ok(flags[k]),
        )
}

pub open spec fn bad_version_msg() -> Seq<char> {
    "不支持的导入文件版本"@
}

pub open spec fn no_master_in_file_msg() -> Seq<char> {
    "导入文件中没有主密码信息"@
}

/// Why an import is refused before anything is written, if it is: the file
/// version, a missing master key, a wrong password, a salt that is no hex.
pub open spec fn import_refusal(data: ExportData, password: Seq<char>) -> Option<Seq<char>> {
    if data.version != 1 {
        Some(bad_version_msg())
    } else if data.master_key is None {
        Some(no_master_in_file_msg())
    } else if !argon2id_check(password, data.master_key->0.hash@) {
        Some(wrong_password_msg())
    } else if hex_decode_spec(data.master_key->0.salt@) is None {
        Some(bad_salt_msg())
    } else {
        None
    }
}

/// The key of an export: derived from the password and the export's salt.
pub open spec fn export_key(data: ExportData, password: Seq<char>) -> Seq<u8> {
    argon2id_key(password, hex_decode_spec(data.master_key->0.salt@)->0)
}

/// What an import answers and leaves, from the vault `before` to the vault
/// `after`: a refusal changes nothing; into a vault without a master
/// password the export is restored and the vault unlocked with the export's
/// key; a locked vault is refused; into an unlocked one the entries are
/// merged one by one (see [`merge_step`]) until the first error.
pub open spec fn import_outcome(
    before: AppState,
    after: AppState,
    data: ExportData,
    password: Seq<char>,
    r: Result<ImportResult, String>,
) -> bool {
    &&& (import_refusal(data, password) matches Some(e) ==> r is Err && r->Err_0@ == e && after
            == before)
    &&& (import_refusal(data, password) is None && before.db.master_key is None ==> r is Ok
            && r->Ok_0.imported == data.entries@.len() && r->Ok_0.replaced == 0
            && after.crypto_key is Some && after.crypto_key->0.key@ == export_key(
            data,
            password,
        ) && after.db.master_key == data.master_key && after.db.entries@
            == entries_merged(before.db.entries@, data.entries@) && after.db.tags@
            == tags_merged(before.db.tags@, data.tags@) && after.db.entry_tags@
            == links_merged(before.db.entry_tags@, data.entry_tags@) && setting_views(
            after.db.settings@,
        ) == settings_merged(setting_views(before.db.settings@), setting_views(data.settings@))
            && after.db.otp_entries == before.db.otp_entries
            && after.db.categories == before.db.categories
            && after.db.templates == before.db.templates
            && after.db.template_fields == before.db.template_fields
            && after.db.template_categories == before.db.template_categories)
    &&& (import_refusal(data, password) is None && before.db.master_key is Some
            && before.crypto_key is None ==> r is Err && r->Err_0@ == locked_unlock_first_msg()
            && after == before)
    &&& (import_refusal(data, password) is None && before.db.master_key is Some
            && before.crypto_key is Some ==> after.crypto_key == before.crypto_key
            && after.last_activity == before.last_activity && same_but_entries_tags_links(
            after.db,
            before.db,
        ) && (r is Ok ==> r->Ok_0.imported == data.entries@.len() && exists|
            states: Seq<DbState>,
            flags: Seq<bool>,
        |
            #![trigger merge_run(states, flags, data, export_key(data, password), before.crypto_key->0.key@)]
            merge_run(
                states,
                flags,
                data,
                export_key(data, password),
                before.crypto_key->0.key@,
            ) && flags.len() == data.entries@.len() && states[0] == before.db && states.last()
                == after.db && r->Ok_0.replaced == count_set(flags)) && (r is Err ==> exists|
            states: Seq<DbState>,
            flags: Seq<bool>,
        |
            #![trigger merge_run(states, flags, data, export_key(data, password), before.crypto_key->0.key@)]
            merge_run(
                states,
                flags,
                data,
                export_key(data, password),
                before.crypto_key->0.key@,
            ) && flags.len() < data.entries@.len() && states[0] == before.db && merge_step(
                states.last(),
                after.db,
                data.entries@[flags.len() as int],
                export_key(data, password),
                before.crypto_key->0.key@,
                export_tag_names(data.entry_tags@, data.tags@, data.entries@[flags.len() as int].id@),
                Err(r->Err_0),
            )))
}

/// The password and the export's salt are ones Argon2 takes: what key
/// derivation needs once the export's password has been checked.
pub open spec fn import_key_usable(data: ExportData, password: Seq<char>) -> bool {
    &&& password_fits(password)
    &&& master_salt_ok(data.master_key)
}

/// Imports an export (read and parsed by the caller) with its master
/// password. Into a vault without a master password, the export is
/// restored as it is and the vault is unlocked with the password. Into one
/// with a master password (it must be unlocked), each exported entry is
/// merged (see [`merge_step`]). Stops at the first error.
pub fn import_data(state: &mut AppState, data: ExportData, password: &str) -> (r: Result<ImportResult, String>)
    requires
        old(state).db.wf(),
        import_refusal(data, password@) is None ==> import_key_usable(data, password@),
        data.entries@.len() <= u32::MAX,
    ensures
        final(state).db.wf(),
        import_outcome(*old(state), *final(state), data, password@, r),
{
    if data.version != 1 {
        return Err(String::from_str("不支持的导入文件版本"));
    }
    let master = match &data.master_key {
        Some(m) => m,
        None => {
            return Err(String::from_str("导入文件中没有主密码信息"));
        },
    };
    if !verify_password(password, master.hash.as_str()) {
        return Err(String::from_str("主密码错误"));
    }
    let salt = match hex_decode(master.salt.as_str()) {
        Ok(s) => s,
        Err(_) => {
            return Err(String::from_str("salt 解析失败"));
        },
    };
    let old_key = CryptoKey::derive(password, salt.as_slice());
    if state.db.master_key.is_none() {
        state.db.restore_export(&data);
        state.set_key(old_key);
        return Ok(ImportResult { imported: data.entries.len() as u32, replaced: 0 });
    }
    let cur_key = require_key(state)?;
    let n = data.entries.len();
    let mut replaced: u32 = 0;
    let mut i: usize = 0;
    let ghost mut states: Seq<DbState> = seq![state.db];
    let ghost mut flags: Seq<bool> = Seq::empty();
    while i < n
        invariant
            n == data.entries@.len(),
            n <= u32::MAX,
            i <= n,
            replaced <= i,
            state.db.wf(),
            state.crypto_key == old(state).crypto_key,
            state.last_activity == old(state).last_activity,
            old(state).crypto_key is Some,
            old(state).db.master_key is Some,
            import_refusal(data, password@) is None,
            cur_key.key@ == old(state).crypto_key->0.key@,
            old_key.key@ == export_key(data, password@),
            same_but_entries_tags_links(state.db, old(state).db),
            flags.len() == i,
            merge_run(states, flags, data, old_key.key@, cur_key.key@),
            states[0] == old(state).db,
            states.last() == state.db,
            replaced == count_set(flags),
        decreases n - i,
    {
        let names = tag_names_for(&data, data.entries[i].id.as_str());
        let ghost before = state.db;
        let did = match state.db.merge_entry(&old_key, &cur_key, &data.entries[i], &names) {
            Ok(d) => d,
            Err(e) => {
                assert(merge_run(states, flags, data, old_key.key@, cur_key.key@));
                return Err(e);
            },
        };
        proof {
            let s2 = states.push(state.db);
            let f2 = flags.push(did);
            assert forall|k: int| 0 <= k < f2.len() implies merge_step(
                #[trigger] s2[k],
                s2[k + 1],
                data.entries@[k],
                old_key.key@,
                cur_key.key@,
                export_tag_names(data.entry_tags@, data.tags@, data.entries@[k].id@),
                Ok(f2[k]),
            ) by {
                if k < flags.len() {
                    assert(s2[k] == states[k] && s2[k + 1] == states[k + 1] && f2[k] == flags[k]);
                } else {
                    assert(s2[k] == before && s2[k + 1] == state.db && f2[k] == did);
                }
            }
            assert(f2.drop_last() =~= flags);
            states = s2;
            flags = f2;
        }
        if did {
            replaced = replaced + 1;
        }
        i = i + 1;
    }
    Ok(ImportResult { imported: n as u32, replaced })
}

/// Importing a vault's export into a vault without a master password, with
/// the password that unlocked the exporting vault, holds the key the
/// exporting vault held and stores its master row: the key of an unlocked
/// vault is the one derived from its password and its stored salt (see
/// `auth::unlock_outcome`).
pub proof fn lemma_import_holds_exporters_key(
    source: AppState,
    data: ExportData,
    password: Seq<char>,
    before: AppState,
    after: AppState,
    r: Result<ImportResult, String>,
)
    requires
        snapshot_of(data, source.db),
        source.db.master_key is Some,
        hex_decode_spec(source.db.master_key->0.salt@) is Some,
        source.crypto_key is Some,
        source.crypto_key->0.key@ == argon2id_key(
            password,
            hex_decode_spec(source.db.master_key->0.salt@)->0,
        ),
        argon2id_check(password, source.db.master_key->0.hash@),
        before.db.master_key is None,
        import_outcome(before, after, data, password, r),
    ensures
        r is Ok,
        after.crypto_key is Some,
        after.crypto_key->0.key@ == source.crypto_key->0.key@,
        after.db.master_key == source.db.master_key,
{
}

/// Imports an export, first making sure that key derivation can run on it:
/// where the export would be accepted (right version, a master key, the
/// password checks, the salt is hex) but its salt is under 8 or over
/// 2^32 - 1 bytes, or the password is over 2^32 - 1 bytes, Argon2 cannot
/// derive the key; then nothing is done and `None` comes back. Otherwise
/// the import runs as [`import_data`].
pub fn import_data_checked(state: &mut AppState, data: ExportData, password: &str) -> (r: Option<
    Result<ImportResult, String>,
>)
    requires
        old(state).db.wf(),
        data.entries@.len() <= u32::MAX,
    ensures
        final(state).db.wf(),
        r is None <==> (import_refusal(data, password@) is None && !import_key_usable(
            data,
            password@,
        )),
        r is None ==> *final(state) == *old(state),
        r matches Some(x) ==> import_outcome(*old(state), *final(state), data, password@, x),
{
    if data.version == 1 {
        if let Some(m) = &data.master_key {
            if verify_password(password, m.hash.as_str()) {
                if let Ok(salt) = hex_decode(m.salt.as_str()) {
                    let salt_fits = 8 <= salt.len() && salt.len() as u64 <= 0xFFFF_FFFFu64;
                    if !salt_fits || !password_fits_exec(password) {
                        return None;
                    }
                }
            }
        }
    }
    Some(import_data(state, data, password))
}

} // verus!
