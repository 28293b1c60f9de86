//! Password entries: creating and updating them with their tags, listing,
//! soft deletion to the trash and back, permanent deletion, and reading an
//! entry back with its fields decrypted.

use vstd::prelude::*;
use crate::db::{entry_key, link_key, tag_id_key, tag_name_key, DbState};
use crate::models::{
    dup_opt_text, dup_text, EntryInput, EntryOut, ExportEntry, ExportEntryTag, Field, TagOut,
};
use crate::table::{
    extends, has_key, is_perm, lemma_filter_unique, lemma_push_unique, lemma_same_keys_unique,
    sort_order, unique_by, NewestFirst, SortKey,
};
use crate::auth::{ensure_db_unlocked, locked_msg, require_key};
use crate::crypto::{
    aes_gcm_max_plaintext, decrypt, decrypt_error, encrypt, opened_payload, sealed_payload, CryptoKey,
};
use crate::ids::{has_uuid_key, is_uuid_text, lemma_uuid_key_in_prefix, lemma_uuid_key_taken, new_uuid};
use crate::state::{now_secs, AppState};
use crate::tags::{duplicate_tag_id_msg, lemma_one_missing_no_uuid, one_missing_name};
use crate::text::{decimal_text, has_prefix, str_eq, text_le, u64_to_decimal};

verus! {

/// Some tag named `name` is linked to the entry `entry_id`.
pub open spec fn linked(
    tags: Seq<TagOut>,
    links: Seq<ExportEntryTag>,
    entry_id: Seq<char>,
    name: Seq<char>,
) -> bool {
    exists|i: int, j: int|
        0 <= i < tags.len() && 0 <= j < links.len() && #[trigger] tags[i].name@ == name
            && links[j].entry_id@ == entry_id && #[trigger] links[j].tag_id@ == tags[i].id@
}

/// Some tag whose name is one of `names` has the id `tag_id`.
pub open spec fn named_among(tags: Seq<TagOut>, names: Seq<String>, tag_id: Seq<char>) -> bool {
    exists|i: int, k: int|
        0 <= i < tags.len() && 0 <= k < names.len() && #[trigger] tags[i].id@ == tag_id
            && #[trigger] names[k]@ == tags[i].name@
}

/// Every table but those of tags and links is unchanged.
pub open spec fn only_tags_and_links_grew(a: DbState, b: DbState) -> bool {
    &&& a.master_key == b.master_key
    &&& a.entries == b.entries
    &&& a.settings == b.settings
    &&& a.otp_entries == b.otp_entries
    &&& a.categories == b.categories
    &&& a.templates == b.templates
    &&& a.template_fields == b.template_fields
    &&& a.template_categories == b.template_categories
}

/// What linking tags by name to an entry may add: tags with one of the
/// names and no color; links from the entry to tags with one of the names.
pub open spec fn tag_growth(
    tags: Seq<TagOut>,
    links: Seq<ExportEntryTag>,
    tags0: Seq<TagOut>,
    links0: Seq<ExportEntryTag>,
    entry_id: Seq<char>,
    names: Seq<String>,
) -> bool {
    &&& extends(tags, tags0)
    &&& extends(links, links0)
    &&& forall|j: int|
        tags0.len() <= j < tags.len() ==> (#[trigger] tags[j]).color is None && exists|k: int|
            0 <= k < names.len() && names[k]@ == tags[j].name@
    &&& forall|j: int|
        links0.len() <= j < links.len() ==> (#[trigger] links[j]).entry_id@ == entry_id
            && named_among(tags, names, links[j].tag_id@)
}

/// `INSERT OR IGNORE` into the link table.
#[verifier::loop_isolation(false)]
pub fn insert_link_or_ignore(links: &mut Vec<ExportEntryTag>, row: ExportEntryTag)
    requires
        unique_by(old(links)@, link_key()),
    ensures
        unique_by(final(links)@, link_key()),
        has_key(old(links)@, link_key(), (row.entry_id@, row.tag_id@)) ==> *final(links) == *old(links),
        !has_key(old(links)@, link_key(), (row.entry_id@, row.tag_id@)) ==> final(links)@ == old(links)@.push(row),
{
    let n = links.len();
    let mut i: usize = 0;
    while i < n
        invariant
            n == links@.len(),
            i <= n,
            forall|k: int| 0 <= k < i ==> link_key()(links@[k]) != (row.entry_id@, row.tag_id@),
        decreases n - i,
    {
        if str_eq(links[i].entry_id.as_str(), row.entry_id.as_str()) && str_eq(
            links[i].tag_id.as_str(),
            row.tag_id.as_str(),
        ) {
            return;
        }
        i = i + 1;
    }
    proof {
        lemma_push_unique(links@, row, link_key());
    }
    links.push(row);
}

impl DbState {
    /// Links the tags named `names` to the entry `entry_id`, creating the
    /// missing tags; stops at the first error.
    pub fn link_tags(&mut self, entry_id: &str, names: &Vec<String>) -> (r: Result<(), String>)
        requires
            old(self).wf(),
        ensures
            final(self).wf(),
            only_tags_and_links_grew(*final(self), *old(self)),
            tag_growth(
                final(self).tags@,
                final(self).entry_tags@,
                old(self).tags@,
                old(self).entry_tags@,
                entry_id@,
                names@,
            ),
            r is Ok ==> forall|k: int|
                0 <= k < names@.len() ==> linked(
                    final(self).tags@,
                    final(self).entry_tags@,
                    entry_id@,
                    #[trigger] names@[k]@,
                ),
            r is Err ==> r->Err_0@ == duplicate_tag_id_msg(),
            r is Err ==> has_uuid_key(old(self).tags@, tag_id_key()) || final(self).tags@.len() > old(
                self,
            ).tags@.len(),
            !has_uuid_key(old(self).tags@, tag_id_key()) && one_missing_name(old(self).tags@, names@)
                ==> r is Ok,
    {
        let ghost start = *self;
        let n = names.len();
        let mut k: usize = 0;
        while k < n
            invariant
                n == names@.len(),
                k <= n,
                start == *old(self),
                self.wf(),
                only_tags_and_links_grew(*self, start),
                tag_growth(self.tags@, self.entry_tags@, start.tags@, start.entry_tags@, entry_id@, names@),
                forall|q: int|
                    0 <= q < k ==> linked(self.tags@, self.entry_tags@, entry_id@, #[trigger] names@[q]@),
            decreases n - k,
        {
            let ghost before = *self;
            let tid = match self.upsert_tag(names[k].as_str()) {
                Ok(t) => t,
                Err(e) => {
                    proof {
                        lemma_uuid_key_in_prefix(before.tags@, start.tags@, tag_id_key());
                        if !has_uuid_key(start.tags@, tag_id_key()) && one_missing_name(start.tags@, names@) {
                            lemma_one_missing_no_uuid(start.tags@, before.tags@, names@, k as int);
                        }
                    }
                    return Err(e);
                },
            };
            let ghost mid = *self;
            let link = ExportEntryTag { entry_id: String::from_str(entry_id), tag_id: dup_text(&tid) };
            insert_link_or_ignore(&mut self.entry_tags, link);
            proof {
                assert(extends(self.tags@, before.tags@));
                assert(extends(self.tags@, start.tags@));
                assert(extends(self.entry_tags@, start.entry_tags@));
                let i = choose|i: int|
                    0 <= i < mid.tags@.len() && mid.tags@[i].name@ == names@[k as int]@ && mid.tags@[i].id@ == tid@;
                assert(named_among(self.tags@, names@, tid@)) by {
                    assert(self.tags@[i].id@ == tid@ && names@[k as int]@ == self.tags@[i].name@);
                }
                assert forall|j: int|
                    start.tags@.len() <= j < self.tags@.len() implies (#[trigger] self.tags@[j]).color is None
                        && exists|q: int| 0 <= q < names@.len() && names@[q]@ == self.tags@[j].name@ by {
                    if j >= before.tags@.len() {
                        assert(names@[k as int]@ == self.tags@[j].name@);
                    }
                }
                assert forall|j: int|
                    start.entry_tags@.len() <= j < self.entry_tags@.len() implies (
                    #[trigger] self.entry_tags@[j]).entry_id@ == entry_id@ && named_among(
                        self.tags@,
                        names@,
                        self.entry_tags@[j].tag_id@,
                    ) by {
                    if j < before.entry_tags@.len() {
                        let (a, b) = choose|a: int, b: int|
                            0 <= a < before.tags@.len() && 0 <= b < names@.len()
                                && #[trigger] before.tags@[a].id@ == before.entry_tags@[j].tag_id@
                                && #[trigger] names@[b]@ == before.tags@[a].name@;
                        assert(self.tags@[a] == before.tags@[a]);
                    }
                }
                assert(has_key(self.entry_tags@, link_key(), (entry_id@, tid@))) by {
                    if has_key(mid.entry_tags@, link_key(), (entry_id@, tid@)) {
                    } else {
                        assert(link_key()(self.entry_tags@[self.entry_tags@.len() - 1]) == (entry_id@, tid@));
                    }
                }
                let j = choose|j: int| 0 <= j < self.entry_tags@.len() && link_key()(self.entry_tags@[j]) == (entry_id@, tid@);
                assert(self.tags@[i].name@ == names@[k as int]@ && self.entry_tags@[j].tag_id@ == self.tags@[i].id@);
                assert(linked(self.tags@, self.entry_tags@, entry_id@, names@[k as int]@));
                assert forall|q: int|
                    0 <= q < k + 1 implies linked(self.tags@, self.entry_tags@, entry_id@, #[trigger] names@[q]@) by {
                    if q < k {
                        let (a, b) = choose|a: int, b: int|
                            0 <= a < before.tags@.len() && 0 <= b < before.entry_tags@.len()
                                && #[trigger] before.tags@[a].name@ == names@[q]@
                                && before.entry_tags@[b].entry_id@ == entry_id@
                                && #[trigger] before.entry_tags@[b].tag_id@ == before.tags@[a].id@;
                        assert(self.tags@[a] == before.tags@[a]);
                        assert(self.entry_tags@[b] == before.entry_tags@[b]);
                    }
                }
            }
            k = k + 1;
        }
        Ok(())
    }
}

/// The message for an entry that does not exist.
pub open spec fn entry_not_found_msg() -> Seq<char> {
    "条目不存在"@
}

/// The text rusqlite gives for a duplicate entry id.
pub open spec fn duplicate_entry_id_msg() -> Seq<char> {
    "UNIQUE constraint failed: entries.id"@
}

/// The stored row of a new entry.
pub open spec fn entry_row(input: EntryInput, id: String, now: String, enc: String) -> ExportEntry {
    ExportEntry {
        id: id,
        category: input.category,
        title: input.title,
        icon: input.icon,
        note: input.note,
        otp_id: input.otp_id,
        otp_mode: input.otp_mode,
        encrypted_data: enc,
        created_at: now,
        updated_at: now,
        deleted_at: None,
    }
}

/// A stored row after an update: the request's values, new fields and time
/// stamp; the id, creation time and trash mark are kept.
pub open spec fn updated_row(e: ExportEntry, input: EntryInput, now: String, enc: String) -> ExportEntry {
    ExportEntry {
        id: e.id,
        category: input.category,
        title: input.title,
        icon: input.icon,
        note: input.note,
        otp_id: input.otp_id,
        otp_mode: input.otp_mode,
        encrypted_data: enc,
        created_at: e.created_at,
        updated_at: now,
        deleted_at: e.deleted_at,
    }
}

/// A stored row with its trash mark replaced.
pub open spec fn with_deleted_at(e: ExportEntry, d: Option<String>) -> ExportEntry {
    ExportEntry {
        id: e.id,
        category: e.category,
        title: e.title,
        icon: e.icon,
        note: e.note,
        otp_id: e.otp_id,
        otp_mode: e.otp_mode,
        encrypted_data: e.encrypted_data,
        created_at: e.created_at,
        updated_at: e.updated_at,
        deleted_at: d,
    }
}

/// The entry table with the trash mark of the entry `id` set to `d`.
pub open spec fn mark_deleted(s: Seq<ExportEntry>, id: Seq<char>, d: Option<String>) -> Seq<ExportEntry> {
    Seq::new(s.len(), |k: int| if s[k].id@ == id { with_deleted_at(s[k], d) } else { s[k] })
}

/// The entry table with the entry `id` updated from a request.
pub open spec fn rewrite_entry(
    s: Seq<ExportEntry>,
    id: Seq<char>,
    input: EntryInput,
    now: String,
    enc: String,
) -> Seq<ExportEntry> {
    Seq::new(s.len(), |k: int| if s[k].id@ == id { updated_row(s[k], input, now, enc) } else { s[k] })
}

/// Moving a live entry to the trash and restoring it gives the table back.
pub proof fn lemma_restore_undoes_delete(s: Seq<ExportEntry>, id: Seq<char>, now: String)
    requires
        forall|k: int| 0 <= k < s.len() && s[k].id@ == id ==> s[k].deleted_at is None,
    ensures
        mark_deleted(mark_deleted(s, id, Some(now)), id, None) == s,
{
    assert(mark_deleted(mark_deleted(s, id, Some(now)), id, None) =~= s);
}

/// The position of the entry with a given id, if any.
pub fn find_entry(entries: &Vec<ExportEntry>, id: &str) -> (r: Option<usize>)
    ensures
        r matches Some(i) ==> i < entries@.len() && entries@[i as int].id@ == id@,
        r is None ==> !has_key(entries@, entry_key(), id@),
{
    let n = entries.len();
    let mut i: usize = 0;
    while i < n
        invariant
            n == entries@.len(),
            i <= n,
            forall|k: int| 0 <= k < i ==> entries@[k].id@ != id@,
        decreases n - i,
    {
        if str_eq(entries[i].id.as_str(), id) {
            return Some(i);
        }
        i = i + 1;
    }
    None
}

/// Every table but the entry table is unchanged.
pub open spec fn same_but_entries(a: DbState, b: DbState) -> bool {
    &&& a.master_key == b.master_key
    &&& a.tags == b.tags
    &&& a.entry_tags == b.entry_tags
    &&& a.settings == b.settings
    &&& a.otp_entries == b.otp_entries
    &&& a.categories == b.categories
    &&& a.templates == b.templates
    &&& a.template_fields == b.template_fields
    &&& a.template_categories == b.template_categories
}

/// Every table but the entry and link tables is unchanged.
pub open spec fn same_but_entries_and_links(a: DbState, b: DbState) -> bool {
    &&& a.master_key == b.master_key
    &&& a.tags == b.tags
    &&& a.settings == b.settings
    &&& a.otp_entries == b.otp_entries
    &&& a.categories == b.categories
    &&& a.templates == b.templates
    &&& a.template_fields == b.template_fields
    &&& a.template_categories == b.template_categories
}

impl DbState {
    /// Adds an entry row; an error when its id is taken.
    pub fn insert_entry_row(&mut self, row: ExportEntry) -> (r: Result<(), String>)
        requires
            old(self).wf(),
        ensures
            final(self).wf(),
            same_but_entries(*final(self), *old(self)),
            has_key(old(self).entries@, entry_key(), row.id@) ==> r is Err && r->Err_0@
                == duplicate_entry_id_msg() && *final(self) == *old(self),
            !has_key(old(self).entries@, entry_key(), row.id@) ==> r is Ok && final(self).entries@
                == old(self).entries@.push(row),
    {
        match find_entry(&self.entries, row.id.as_str()) {
            Some(_) => {
                return Err(String::from_str("UNIQUE constraint failed: entries.id"));
            },
            None => {},
        }
        proof {
            lemma_push_unique(self.entries@, row, entry_key());
        }
        self.entries.push(row);
        Ok(())
    }

    /// Updates the entry `id` from a request, with new encrypted fields and
    /// time stamp; nothing happens when there is no such entry.
    #[verifier::loop_isolation(false)]
    pub fn rewrite_entry_row(&mut self, id: &str, input: &EntryInput, now: &String, enc: &String)
        requires
            old(self).wf(),
        ensures
            final(self).wf(),
            same_but_entries(*final(self), *old(self)),
            final(self).entries@ == rewrite_entry(old(self).entries@, id@, *input, *now, *enc),
    {
        let ghost orig = self.entries@;
        let n = self.entries.len();
        let mut k: usize = 0;
        while k < n
            invariant
                n == self.entries@.len(),
                k <= n,
                same_but_entries(*self, *old(self)),
                forall|q: int| 0 <= q < k ==> #[trigger] self.entries@[q] == (if orig[q].id@ == id@ {
                    updated_row(orig[q], *input, *now, *enc)
                } else {
                    orig[q]
                }),
                forall|q: int| k <= q < n ==> #[trigger] self.entries@[q] == orig[q],
            decreases n - k,
        {
            if str_eq(self.entries[k].id.as_str(), id) {
                let row = ExportEntry {
                    id: dup_text(&self.entries[k].id),
                    category: dup_text(&input.category),
                    title: dup_text(&input.title),
                    icon: dup_opt_text(&input.icon),
                    note: dup_opt_text(&input.note),
                    otp_id: dup_opt_text(&input.otp_id),
                    otp_mode: dup_opt_text(&input.otp_mode),
                    encrypted_data: dup_text(enc),
                    created_at: dup_text(&self.entries[k].created_at),
                    updated_at: dup_text(now),
                    deleted_at: dup_opt_text(&self.entries[k].deleted_at),
                };
                self.entries.set(k, row);
            }
            k = k + 1;
        }
        assert(self.entries@ =~= rewrite_entry(orig, id@, *input, *now, *enc));
        proof {
            lemma_same_keys_unique(orig, self.entries@, entry_key());
        }
    }

    /// Sets the trash mark of the entry `id` (none: restored).
    #[verifier::loop_isolation(false)]
    pub fn mark_entry_deleted(&mut self, id: &str, d: Option<String>)
        requires
            old(self).wf(),
        ensures
            final(self).wf(),
            same_but_entries(*final(self), *old(self)),
            final(self).entries@ == mark_deleted(old(self).entries@, id@, d),
    {
        let ghost orig = self.entries@;
        let n = self.entries.len();
        let mut k: usize = 0;
        while k < n
            invariant
                n == self.entries@.len(),
                k <= n,
                same_but_entries(*self, *old(self)),
                forall|q: int| 0 <= q < k ==> #[trigger] self.entries@[q] == (if orig[q].id@ == id@ {
                    with_deleted_at(orig[q], d)
                } else {
                    orig[q]
                }),
                forall|q: int| k <= q < n ==> #[trigger] self.entries@[q] == orig[q],
            decreases n - k,
        {
            if str_eq(self.entries[k].id.as_str(), id) {
                let e = &self.entries[k];
                let row = ExportEntry {
                    id: dup_text(&e.id),
                    category: dup_text(&e.category),
                    title: dup_text(&e.title),
                    icon: dup_opt_text(&e.icon),
                    note: dup_opt_text(&e.note),
                    otp_id: dup_opt_text(&e.otp_id),
                    otp_mode: dup_opt_text(&e.otp_mode),
                    encrypted_data: dup_text(&e.encrypted_data),
                    created_at: dup_text(&e.created_at),
                    updated_at: dup_text(&e.updated_at),
                    deleted_at: dup_opt_text(&d),
                };
                self.entries.set(k, row);
            }
            k = k + 1;
        }
        assert(self.entries@ =~= mark_deleted(orig, id@, d));
        proof {
            lemma_same_keys_unique(orig, self.entries@, entry_key());
        }
    }
}

/// Removes the links of an entry.
#[verifier::loop_isolation(false)]
pub fn remove_links_of_entry(links: &mut Vec<ExportEntryTag>, entry_id: &str)
    requires
        unique_by(old(links)@, link_key()),
    ensures
        unique_by(final(links)@, link_key()),
        final(links)@ == old(links)@.filter(|l: ExportEntryTag| l.entry_id@ != entry_id@),
{
    let ghost pred = |l: ExportEntryTag| l.entry_id@ != entry_id@;
    let mut kept: Vec<ExportEntryTag> = Vec::new();
    let n = links.len();
    let mut i: usize = 0;
    assert(links@.take(0) =~= Seq::<ExportEntryTag>::empty());
    while i < n
        invariant
            n == links@.len(),
            i <= n,
            kept@ == links@.take(i as int).filter(pred),
        decreases n - i,
    {
        assert(links@.take(i + 1) =~= links@.take(i as int).push(links@[i as int]));
        proof {
            links@.take(i as int).lemma_filter_push(links@[i as int], pred);
        }
        if !str_eq(links[i].entry_id.as_str(), entry_id) {
            kept.push(links[i].duplicate());
        }
        i = i + 1;
    }
    assert(links@.take(n as int) =~= links@);
    proof {
        lemma_filter_unique(links@, pred, link_key());
    }
    *links = kept;
}

/// Removes the entry rows with a given id.
#[verifier::loop_isolation(false)]
pub fn remove_entry_rows(entries: &mut Vec<ExportEntry>, id: &str)
    requires
        unique_by(old(entries)@, entry_key()),
    ensures
        unique_by(final(entries)@, entry_key()),
        final(entries)@ == old(entries)@.filter(|e: ExportEntry| e.id@ != id@),
{
    let ghost pred = |e: ExportEntry| e.id@ != id@;
    let mut kept: Vec<ExportEntry> = Vec::new();
    let n = entries.len();
    let mut i: usize = 0;
    assert(entries@.take(0) =~= Seq::<ExportEntry>::empty());
    while i < n
        invariant
            n == entries@.len(),
            i <= n,
            kept@ == entries@.take(i as int).filter(pred),
        decreases n - i,
    {
        assert(entries@.take(i + 1) =~= entries@.take(i as int).push(entries@[i as int]));
        proof {
            entries@.take(i as int).lemma_filter_push(entries@[i as int], pred);
        }
        if !str_eq(entries[i].id.as_str(), id) {
            kept.push(entries[i].duplicate());
        }
        i = i + 1;
    }
    assert(entries@.take(n as int) =~= entries@);
    proof {
        lemma_filter_unique(entries@, pred, entry_key());
    }
    *entries = kept;
}

/// Some entry in the trash has the id `id`.
pub open spec fn in_trash(entries: Seq<ExportEntry>, id: Seq<char>) -> bool {
    exists|i: int| 0 <= i < entries.len() && entries[i].deleted_at is Some && #[trigger] entries[i].id@ == id
}

fn is_in_trash(entries: &Vec<ExportEntry>, id: &str) -> (r: bool)
    ensures
        r == in_trash(entries@, id@),
{
    let n = entries.len();
    let mut i: usize = 0;
    while i < n
        invariant
            n == entries@.len(),
            i <= n,
            forall|k: int| 0 <= k < i ==> !(entries@[k].deleted_at is Some && entries@[k].id@ == id@),
        decreases n - i,
    {
        if entries[i].deleted_at.is_some() && str_eq(entries[i].id.as_str(), id) {
            return true;
        }
        i = i + 1;
    }
    false
}

/// Keeps the entries that are not in the trash.
#[verifier::loop_isolation(false)]
pub fn keep_live_entries(entries: &mut Vec<ExportEntry>)
    requires
        unique_by(old(entries)@, entry_key()),
    ensures
        unique_by(final(entries)@, entry_key()),
        final(entries)@ == old(entries)@.filter(|e: ExportEntry| e.deleted_at is None),
{
    let ghost pred = |e: ExportEntry| e.deleted_at is None;
    let mut kept: Vec<ExportEntry> = Vec::new();
    let n = entries.len();
    let mut i: usize = 0;
    assert(entries@.take(0) =~= Seq::<ExportEntry>::empty());
    while i < n
        invariant
            n == entries@.len(),
            i <= n,
            kept@ == entries@.take(i as int).filter(pred),
        decreases n - i,
    {
        assert(entries@.take(i + 1) =~= entries@.take(i as int).push(entries@[i as int]));
        proof {
            entries@.take(i as int).lemma_filter_push(entries@[i as int], pred);
        }
        if entries[i].deleted_at.is_none() {
            kept.push(entries[i].duplicate());
        }
        i = i + 1;
    }
    assert(entries@.take(n as int) =~= entries@);
    proof {
        lemma_filter_unique(entries@, pred, entry_key());
    }
    *entries = kept;
}

/// Removes the links of the entries in the trash of `entries`.
#[verifier::loop_isolation(false)]
pub fn remove_links_into_trash(links: &mut Vec<ExportEntryTag>, entries: &Vec<ExportEntry>)
    requires
        unique_by(old(links)@, link_key()),
    ensures
        unique_by(final(links)@, link_key()),
        final(links)@ == old(links)@.filter(|l: ExportEntryTag| !in_trash(entries@, l.entry_id@)),
{
    let ghost pred = |l: ExportEntryTag| !in_trash(entries@, l.entry_id@);
    let mut kept: Vec<ExportEntryTag> = Vec::new();
    let n = links.len();
    let mut i: usize = 0;
    assert(links@.take(0) =~= Seq::<ExportEntryTag>::empty());
    while i < n
        invariant
            n == links@.len(),
            i <= n,
            kept@ == links@.take(i as int).filter(pred),
        decreases n - i,
    {
        assert(links@.take(i + 1) =~= links@.take(i as int).push(links@[i as int]));
        proof {
            links@.take(i as int).lemma_filter_push(links@[i as int], pred);
        }
        if !is_in_trash(entries, links[i].entry_id.as_str()) {
            kept.push(links[i].duplicate());
        }
        i = i + 1;
    }
    assert(links@.take(n as int) =~= links@);
    proof {
        lemma_filter_unique(links@, pred, link_key());
    }
    *links = kept;
}

impl DbState {
    /// Removes the links of an entry.
    pub fn unlink_entry(&mut self, id: &str)
        requires
            old(self).wf(),
        ensures
            final(self).wf(),
            final(self).entries == old(self).entries,
            only_tags_and_links_grew(*final(self), *old(self)),
            final(self).tags == old(self).tags,
            final(self).entry_tags@ == old(self).entry_tags@.filter(
                |l: ExportEntryTag| l.entry_id@ != id@,
            ),
    {
        remove_links_of_entry(&mut self.entry_tags, id);
    }

    /// Removes an entry and its links.
    pub fn remove_entry(&mut self, id: &str)
        requires
            old(self).wf(),
        ensures
            final(self).wf(),
            same_but_entries_and_links(*final(self), *old(self)),
            final(self).entries@ == old(self).entries@.filter(|e: ExportEntry| e.id@ != id@),
            final(self).entry_tags@ == old(self).entry_tags@.filter(
                |l: ExportEntryTag| l.entry_id@ != id@,
            ),
    {
        remove_links_of_entry(&mut self.entry_tags, id);
        remove_entry_rows(&mut self.entries, id);
    }

    /// Removes the entries in the trash and their links.
    pub fn remove_trash(&mut self)
        requires
            old(self).wf(),
        ensures
            final(self).wf(),
            same_but_entries_and_links(*final(self), *old(self)),
            final(self).entries@ == old(self).entries@.filter(|e: ExportEntry| e.deleted_at is None),
            final(self).entry_tags@ == old(self).entry_tags@.filter(
                |l: ExportEntryTag| !in_trash(old(self).entries@, l.entry_id@),
            ),
    {
        remove_links_into_trash(&mut self.entry_tags, &self.entries);
        keep_live_entries(&mut self.entries);
    }
}

/// A new entry row made from a request: a fresh id, the creation time as
/// decimal seconds (also the update time), the fields encrypted under the key.
pub open spec fn new_entry_row(e: ExportEntry, input: EntryInput, key: Seq<u8>, plaintext: Seq<u8>) -> bool {
    &&& e == entry_row(input, e.id, e.created_at, e.encrypted_data)
    &&& is_uuid_text(e.id@)
    &&& exists|t: u64| e.created_at@ == #[trigger] decimal_text(t as nat)
    &&& exists|n: Seq<u8>| n.len() == 12 && e.encrypted_data@ == #[trigger] sealed_payload(key, n, plaintext)
    &&& opened_payload(key, e.encrypted_data@) == Some(plaintext)
}

/// Every table but those of entries, tags and links is unchanged.
pub open spec fn same_but_entries_tags_links(a: DbState, b: DbState) -> bool {
    &&& a.master_key == b.master_key
    &&& a.settings == b.settings
    &&& a.otp_entries == b.otp_entries
    &&& a.categories == b.categories
    &&& a.templates == b.templates
    &&& a.template_fields == b.template_fields
    &&& a.template_categories == b.template_categories
}

/// Creates an entry from a request whose fields `fields_json` holds
/// serialized, and links its tags (creating missing ones). Returns the stored row.
pub fn create_entry(state: &mut AppState, input: &EntryInput, fields_json: &[u8]) -> (r: Result<ExportEntry, String>)
    requires
        old(state).db.wf(),
    ensures
        final(state).db.wf(),
        final(state).crypto_key == old(state).crypto_key,
        final(state).last_activity == old(state).last_activity,
        same_but_entries_tags_links(final(state).db, old(state).db),
        old(state).crypto_key is None ==> r is Err && r->Err_0@ == locked_msg() && final(state).db
            == old(state).db,
        old(state).crypto_key is Some && fields_json@.len() > aes_gcm_max_plaintext() ==> r is Err
            && has_prefix(r->Err_0@, "加密失败: "@) && final(state).db == old(state).db,
        old(state).crypto_key is Some && fields_json@.len() <= aes_gcm_max_plaintext() && r is Err
            ==> r->Err_0@ == duplicate_entry_id_msg() || r->Err_0@ == duplicate_tag_id_msg(),
        final(state).db.entries@ == old(state).db.entries@ ==> final(state).db.tags == old(
            state,
        ).db.tags && final(state).db.entry_tags == old(state).db.entry_tags,
        final(state).db.entries@ != old(state).db.entries@ ==> final(state).db.entries@ == old(
            state,
        ).db.entries@.push(final(state).db.entries@.last()) && new_entry_row(
            final(state).db.entries@.last(),
            *input,
            old(state).crypto_key->0.key@,
            fields_json@,
        ) && tag_growth(
            final(state).db.tags@,
            final(state).db.entry_tags@,
            old(state).db.tags@,
            old(state).db.entry_tags@,
            final(state).db.entries@.last().id@,
            input.tags@,
        ),
        r is Ok ==> final(state).db.entries@ == old(state).db.entries@.push(r->Ok_0) && forall|k: int|
            0 <= k < input.tags@.len() ==> linked(
                final(state).db.tags@,
                final(state).db.entry_tags@,
                r->Ok_0.id@,
                #[trigger] input.tags@[k]@,
            ),
        old(state).crypto_key is Some && fields_json@.len() <= aes_gcm_max_plaintext()
            && final(state).db.entries@ == old(state).db.entries@ ==> has_uuid_key(
            old(state).db.entries@,
            entry_key(),
        ),
        final(state).db.entries@ != old(state).db.entries@ && r is Err ==> has_uuid_key(
            old(state).db.tags@,
            tag_id_key(),
        ) || final(state).db.tags@.len() > old(state).db.tags@.len(),
        old(state).crypto_key is Some && fields_json@.len() <= aes_gcm_max_plaintext() && !has_uuid_key(
            old(state).db.entries@,
            entry_key(),
        ) && !has_uuid_key(old(state).db.tags@, tag_id_key()) && one_missing_name(
            old(state).db.tags@,
            input.tags@,
        ) ==> r is Ok,
{
    ensure_db_unlocked(state)?;
    let key = require_key(state)?;
    let id = new_uuid();
    let now = u64_to_decimal(now_secs());
    let enc = encrypt(&key.key, fields_json)?;
    let row = ExportEntry {
        id: id,
        category: dup_text(&input.category),
        title: dup_text(&input.title),
        icon: dup_opt_text(&input.icon),
        note: dup_opt_text(&input.note),
        otp_id: dup_opt_text(&input.otp_id),
        otp_mode: dup_opt_text(&input.otp_mode),
        encrypted_data: enc,
        created_at: dup_text(&now),
        updated_at: now,
        deleted_at: None,
    };
    let ret = row.duplicate();
    let ghost before = state.db;
    match state.db.insert_entry_row(row) {
        Ok(()) => {},
        Err(e) => {
            proof {
                lemma_uuid_key_taken(before.entries@, entry_key(), ret.id@);
            }
            return Err(e);
        },
    }
    assert(state.db.entries@.last() == ret);
    assert(new_entry_row(ret, *input, key.key@, fields_json@));
    let ghost mid = state.db;
    let linked_result = state.db.link_tags(ret.id.as_str(), &input.tags);
    assert(state.db.entries@ != before.entries@) by {
        assert(state.db.entries@.len() != before.entries@.len());
    }
    match linked_result {
        Ok(()) => Ok(ret),
        Err(e) => Err(e),
    }
}

/// Updates the entry `id` from a request whose fields `fields_json` holds
/// serialized, replaces its tag links, and gives back the updated row.
/// Nothing happens to the entry table when there is no such entry (its
/// tags are linked all the same) and the answer is that it does not exist.
pub fn update_entry(state: &mut AppState, id: &str, input: &EntryInput, fields_json: &[u8]) -> (r: Result<ExportEntry, String>)
    requires
        old(state).db.wf(),
    ensures
        final(state).db.wf(),
        final(state).crypto_key == old(state).crypto_key,
        final(state).last_activity == old(state).last_activity,
        same_but_entries_tags_links(final(state).db, old(state).db),
        old(state).crypto_key is None ==> r is Err && r->Err_0@ == locked_msg() && final(state).db
            == old(state).db,
        old(state).crypto_key is Some && fields_json@.len() > aes_gcm_max_plaintext() ==> r is Err
            && has_prefix(r->Err_0@, "加密失败: "@) && final(state).db == old(state).db,
        old(state).crypto_key is Some && fields_json@.len() <= aes_gcm_max_plaintext() ==> (exists|
            now: String,
            enc: String,
        |
            #![trigger rewrite_entry(old(state).db.entries@, id@, *input, now, enc)]
            final(state).db.entries@ == rewrite_entry(old(state).db.entries@, id@, *input, now, enc)
                && (exists|t: u64| now@ == #[trigger] decimal_text(t as nat)) && (exists|n: Seq<u8>|
                n.len() == 12 && enc@ == #[trigger] sealed_payload(
                    old(state).crypto_key->0.key@,
                    n,
                    fields_json@,
                )) && opened_payload(old(state).crypto_key->0.key@, enc@) == Some(fields_json@))
                && tag_growth(
            final(state).db.tags@,
            final(state).db.entry_tags@,
            old(state).db.tags@,
            old(state).db.entry_tags@.filter(|l: ExportEntryTag| l.entry_id@ != id@),
            id@,
            input.tags@,
        ) && (r is Err ==> r->Err_0@ == duplicate_tag_id_msg() || (r->Err_0@
            == entry_not_found_msg() && !has_key(old(state).db.entries@, entry_key(), id@))),
        old(state).crypto_key is Some && fields_json@.len() <= aes_gcm_max_plaintext() && !has_key(
            old(state).db.entries@,
            entry_key(),
            id@,
        ) ==> r is Err,
        old(state).crypto_key is Some && fields_json@.len() <= aes_gcm_max_plaintext() && has_key(
            old(state).db.entries@,
            entry_key(),
            id@,
        ) && r is Err ==> r->Err_0@ == duplicate_tag_id_msg(),
        r is Ok ==> has_key(old(state).db.entries@, entry_key(), id@) && r->Ok_0
            == final(state).db.entries@[entry_pos(final(state).db.entries@, id@)],
        r is Ok ==> forall|k: int|
            0 <= k < input.tags@.len() ==> linked(
                final(state).db.tags@,
                final(state).db.entry_tags@,
                id@,
                #[trigger] input.tags@[k]@,
            ),
        old(state).crypto_key is Some && fields_json@.len() <= aes_gcm_max_plaintext() && has_key(
            old(state).db.entries@,
            entry_key(),
            id@,
        ) && !has_uuid_key(old(state).db.tags@, tag_id_key()) && one_missing_name(
            old(state).db.tags@,
            input.tags@,
        ) ==> r is Ok,
        old(state).crypto_key is Some && fields_json@.len() <= aes_gcm_max_plaintext() && has_key(
            old(state).db.entries@,
            entry_key(),
            id@,
        ) && r is Err ==> has_uuid_key(old(state).db.tags@, tag_id_key()) || final(state).db.tags@.len()
            > old(state).db.tags@.len(),
{
    ensure_db_unlocked(state)?;
    let key = require_key(state)?;
    let now = u64_to_decimal(now_secs());
    let enc = encrypt(&key.key, fields_json)?;
    let ghost before = state.db;
    state.db.rewrite_entry_row(id, input, &now, &enc);
    state.db.unlink_entry(id);
    let linked_result = state.db.link_tags(id, &input.tags);
    assert(state.db.entries@ == rewrite_entry(before.entries@, id@, *input, now, enc));
    linked_result?;
    match find_entry(&state.db.entries, id) {
        Some(i) => {
            proof {
                let j = entry_pos(state.db.entries@, id@);
                assert(entry_key()(state.db.entries@[i as int]) == id@);
                if j != i as int {
                    assert(entry_key()(state.db.entries@[j]) == entry_key()(
                        state.db.entries@[i as int],
                    ));
                }
                assert(state.db.entries@[i as int].id@ == before.entries@[i as int].id@);
                assert(entry_key()(before.entries@[i as int]) == id@);
            }
            Ok(state.db.entries[i].duplicate())
        },
        None => {
            proof {
                if has_key(before.entries@, entry_key(), id@) {
                    let k = choose|k: int|
                        0 <= k < before.entries@.len() && entry_key()(before.entries@[k]) == id@;
                    assert(entry_key()(state.db.entries@[k]) == id@);
                }
            }
            Err(String::from_str("条目不存在"))
        },
    }
}

/// Moves the entry `id` to the trash, marked with the current time.
pub fn delete_entry(state: &mut AppState, id: &str) -> (r: Result<(), String>)
    requires
        old(state).db.wf(),
    ensures
        final(state).db.wf(),
        final(state).crypto_key == old(state).crypto_key,
        final(state).last_activity == old(state).last_activity,
        same_but_entries(final(state).db, old(state).db),
        old(state).crypto_key is None ==> r is Err && r->Err_0@ == locked_msg() && final(state).db
            == old(state).db,
        old(state).crypto_key is Some ==> r is Ok && exists|now: String|
            final(state).db.entries@ == #[trigger] mark_deleted(old(state).db.entries@, id@, Some(now))
                && exists|t: u64| now@ == #[trigger] decimal_text(t as nat),
{
    ensure_db_unlocked(state)?;
    let now = u64_to_decimal(now_secs());
    let ghost n = now;
    state.db.mark_entry_deleted(id, Some(now));
    assert(state.db.entries@ == mark_deleted(old(state).db.entries@, id@, Some(n)));
    Ok(())
}

/// Takes the entry `id` out of the trash.
pub fn restore_entry(state: &mut AppState, id: &str) -> (r: Result<(), String>)
    requires
        old(state).db.wf(),
    ensures
        final(state).db.wf(),
        final(state).crypto_key == old(state).crypto_key,
        final(state).last_activity == old(state).last_activity,
        same_but_entries(final(state).db, old(state).db),
        old(state).crypto_key is None ==> r is Err && r->Err_0@ == locked_msg() && final(state).db
            == old(state).db,
        old(state).crypto_key is Some ==> r is Ok && final(state).db.entries@ == mark_deleted(
            old(state).db.entries@,
            id@,
            None,
        ),
{
    ensure_db_unlocked(state)?;
    state.db.mark_entry_deleted(id, None);
    Ok(())
}

/// Deletes the entry `id` and its tag links for good.
pub fn permanently_delete_entry(state: &mut AppState, id: &str) -> (r: Result<(), String>)
    requires
        old(state).db.wf(),
    ensures
        final(state).db.wf(),
        final(state).crypto_key == old(state).crypto_key,
        final(state).last_activity == old(state).last_activity,
        same_but_entries_and_links(final(state).db, old(state).db),
        old(state).crypto_key is None ==> r is Err && r->Err_0@ == locked_msg() && final(state).db
            == old(state).db,
        old(state).crypto_key is Some ==> r is Ok && final(state).db.entries@ == old(
            state,
        ).db.entries@.filter(|e: ExportEntry| e.id@ != id@) && final(state).db.entry_tags@ == old(
            state,
        ).db.entry_tags@.filter(|l: ExportEntryTag| l.entry_id@ != id@),
{
    ensure_db_unlocked(state)?;
    state.db.remove_entry(id);
    Ok(())
}

/// Deletes every entry in the trash, with its tag links, for good.
pub fn empty_trash(state: &mut AppState) -> (r: Result<(), String>)
    requires
        old(state).db.wf(),
    ensures
        final(state).db.wf(),
        final(state).crypto_key == old(state).crypto_key,
        final(state).last_activity == old(state).last_activity,
        same_but_entries_and_links(final(state).db, old(state).db),
        old(state).crypto_key is None ==> r is Err && r->Err_0@ == locked_msg() && final(state).db
            == old(state).db,
        old(state).crypto_key is Some ==> r is Ok && final(state).db.entries@ == old(
            state,
        ).db.entries@.filter(|e: ExportEntry| e.deleted_at is None) && final(state).db.entry_tags@
            == old(state).db.entry_tags@.filter(
            |l: ExportEntryTag| !in_trash(old(state).db.entries@, l.entry_id@),
        ),
{
    ensure_db_unlocked(state)?;
    state.db.remove_trash();
    Ok(())
}

/// `ids` lists the ids of `rows`, each row once, the most recently updated
/// first (by the text of the update time).
pub open spec fn newest_first_ids(ids: Seq<String>, rows: Seq<ExportEntry>) -> bool {
    exists|p: Seq<usize>|
        is_perm(p, rows.len() as int) && ids.len() == rows.len() && (forall|k: int|
            0 <= k < ids.len() ==> ids[k] == rows[#[trigger] p[k] as int].id) && (forall|a: int, b: int|
            0 <= a < b < ids.len() ==> text_le(
                rows[#[trigger] p[b] as int].updated_at@,
                rows[#[trigger] p[a] as int].updated_at@,
            ))
}

/// The entries listed by [`list_entry_ids`]: all of them, or those not in the trash.
pub open spec fn listed_entries(entries: Seq<ExportEntry>, include_deleted: bool) -> Seq<ExportEntry> {
    if include_deleted {
        entries
    } else {
        entries.filter(|e: ExportEntry| e.deleted_at is None)
    }
}

/// An entry moved to the trash leaves the live listing and stays in the
/// full one.
pub proof fn lemma_trashed_entry_leaves_listing(s: Seq<ExportEntry>, id: Seq<char>, now: String)
    ensures
        forall|k: int|
            0 <= k < listed_entries(mark_deleted(s, id, Some(now)), false).len() ==> (#[trigger] listed_entries(
                mark_deleted(s, id, Some(now)),
                false,
            )[k]).id@ != id,
        has_key(s, entry_key(), id) ==> has_key(
            listed_entries(mark_deleted(s, id, Some(now)), true),
            entry_key(),
            id,
        ),
{
    let m = mark_deleted(s, id, Some(now));
    let pred = |e: ExportEntry| e.deleted_at is None;
    let live = m.filter(pred);
    assert forall|k: int| 0 <= k < live.len() implies (#[trigger] live[k]).id@ != id by {
        m.lemma_filter_pred(pred, k);
        assert(live.contains(live[k]));
        m.lemma_filter_contains_rev(pred, live[k]);
        let j = choose|j: int| 0 <= j < m.len() && m[j] == live[k];
        assert(m[j] == live[k]);
    }
    if has_key(s, entry_key(), id) {
        let i = choose|i: int| 0 <= i < s.len() && entry_key()(s[i]) == id;
        assert(entry_key()(m[i]) == id);
    }
}

/// After [`delete_entry`] moves the entry `id` to the trash, the normal
/// listing of [`list_entry_ids`] does not hold its id, and the full listing
/// (with the trash) still does.
pub proof fn lemma_trashed_entry_ids(
    before: Seq<ExportEntry>,
    id: Seq<char>,
    now: String,
    live: Seq<String>,
    all: Seq<String>,
)
    requires
        newest_first_ids(live, listed_entries(mark_deleted(before, id, Some(now)), false)),
        newest_first_ids(all, listed_entries(mark_deleted(before, id, Some(now)), true)),
    ensures
        forall|k: int| 0 <= k < live.len() ==> (#[trigger] live[k])@ != id,
        has_key(before, entry_key(), id) ==> exists|k: int| 0 <= k < all.len() && (#[trigger] all[k])@ == id,
{
    lemma_trashed_entry_leaves_listing(before, id, now);
    let rows = listed_entries(mark_deleted(before, id, Some(now)), false);
    let p = choose|p: Seq<usize>|
        is_perm(p, rows.len() as int) && live.len() == rows.len() && (forall|k: int|
            0 <= k < live.len() ==> live[k] == rows[#[trigger] p[k] as int].id) && (forall|a: int, b: int|
            0 <= a < b < live.len() ==> text_le(
                rows[#[trigger] p[b] as int].updated_at@,
                rows[#[trigger] p[a] as int].updated_at@,
            ));
    assert forall|k: int| 0 <= k < live.len() implies (#[trigger] live[k])@ != id by {
        assert(live[k] == rows[p[k] as int].id);
    }
    if has_key(before, entry_key(), id) {
        let full = listed_entries(mark_deleted(before, id, Some(now)), true);
        let q = choose|q: Seq<usize>|
            is_perm(q, full.len() as int) && all.len() == full.len() && (forall|k: int|
                0 <= k < all.len() ==> all[k] == full[#[trigger] q[k] as int].id) && (forall|a: int, b: int|
                0 <= a < b < all.len() ==> text_le(
                    full[#[trigger] q[b] as int].updated_at@,
                    full[#[trigger] q[a] as int].updated_at@,
                ));
        let i = choose|i: int| 0 <= i < full.len() && entry_key()(full[i]) == id;
        crate::templates::lemma_perm_onto(q, full.len() as int, i);
        let k = choose|k: int| 0 <= k < full.len() && q[k] == i;
        assert(all[k] == full[q[k] as int].id);
    }
}

/// Moving a live entry to the trash with [`delete_entry`] and taking it
/// out with [`restore_entry`] gives the vault back as it was: the same
/// entry rows (every column), and every other table unchanged.
pub proof fn lemma_delete_restore_round_trip(before: DbState, mid: DbState, after: DbState, id: Seq<char>, now: String)
    requires
        forall|k: int| 0 <= k < before.entries@.len() && before.entries@[k].id@ == id
            ==> #[trigger] before.entries@[k].deleted_at is None,
        same_but_entries(mid, before),
        mid.entries@ == mark_deleted(before.entries@, id, Some(now)),
        same_but_entries(after, mid),
        after.entries@ == mark_deleted(mid.entries@, id, None),
    ensures
        after.entries@ == before.entries@,
        same_but_entries(after, before),
{
    lemma_restore_undoes_delete(before.entries@, id, now);
}

fn copy_entry_rows(v: &Vec<ExportEntry>) -> (r: Vec<ExportEntry>)
    ensures
        r@ == v@,
{
    let mut out: Vec<ExportEntry> = Vec::new();
    let n = v.len();
    let mut i: usize = 0;
    while i < n
        invariant
            n == v@.len(),
            i <= n,
            out@ == v@.take(i as int),
        decreases n - i,
    {
        out.push(v[i].duplicate());
        assert(out@ =~= v@.take(i + 1));
        i = i + 1;
    }
    assert(v@.take(n as int) =~= v@);
    out
}

/// The ids of the entries (with those in the trash when `include_deleted`),
/// the most recently updated first.
pub fn list_entry_ids(state: &AppState, include_deleted: bool) -> (r: Result<Vec<String>, String>)
    requires
        state.db.wf(),
    ensures
        state.crypto_key is None ==> r is Err && r->Err_0@ == locked_msg(),
        state.crypto_key is Some ==> r is Ok && newest_first_ids(
            r->Ok_0@,
            listed_entries(state.db.entries@, include_deleted),
        ),
{
    ensure_db_unlocked(state)?;
    let mut rows = copy_entry_rows(&state.db.entries);
    if !include_deleted {
        keep_live_entries(&mut rows);
    }
    let n = rows.len();
    let mut keys: Vec<NewestFirst> = Vec::new();
    let mut i: usize = 0;
    while i < n
        invariant
            n == rows@.len(),
            i <= n,
            keys@.len() == i,
            forall|k: int| 0 <= k < i ==> keys@[k].0 == rows@[k].updated_at,
        decreases n - i,
    {
        keys.push(NewestFirst(dup_text(&rows[i].updated_at)));
        i = i + 1;
    }
    let perm = sort_order(&keys);
    let mut ids: Vec<String> = Vec::new();
    let mut j: usize = 0;
    while j < n
        invariant
            n == rows@.len(),
            n == keys@.len(),
            is_perm(perm@, n as int),
            j <= n,
            ids@.len() == j,
            forall|k: int| 0 <= k < j ==> ids@[k] == rows@[#[trigger] perm@[k] as int].id,
        decreases n - j,
    {
        ids.push(dup_text(&rows[perm[j]].id));
        j = j + 1;
    }
    proof {
        assert forall|a: int, b: int| 0 <= a < b < ids@.len() implies text_le(
            rows@[#[trigger] perm@[b] as int].updated_at@,
            rows@[#[trigger] perm@[a] as int].updated_at@,
        ) by {
            assert(keys@[perm@[a] as int].key_le(keys@[perm@[b] as int]));
        }
        assert(rows@ == listed_entries(state.db.entries@, include_deleted));
    }
    Ok(ids)
}

/// The position of the entry `id` (ids occur once).
pub open spec fn entry_pos(entries: Seq<ExportEntry>, id: Seq<char>) -> int {
    choose|i: int| 0 <= i < entries.len() && entries[i].id@ == id
}

/// What the stored fields of the entry `id` decrypt to under the key, if anything.
pub open spec fn stored_fields(db: DbState, key: Seq<u8>, id: Seq<char>) -> Option<Seq<u8>> {
    opened_payload(key, db.entries@[entry_pos(db.entries@, id)].encrypted_data@)
}

/// Reading a created entry gives back the fields it was created with.
pub proof fn lemma_created_entry_reads_back(
    before: DbState,
    after: DbState,
    e: ExportEntry,
    input: EntryInput,
    key: Seq<u8>,
    fields: Seq<u8>,
)
    requires
        after.wf(),
        after.entries@ == before.entries@.push(e),
        new_entry_row(e, input, key, fields),
    ensures
        has_key(after.entries@, entry_key(), e.id@),
        stored_fields(after, key, e.id@) == Some(fields),
{
    let last = before.entries@.len() as int;
    assert(after.entries@[last] == e);
    let j = entry_pos(after.entries@, e.id@);
    if j != last {
        assert(entry_key()(after.entries@[j]) == entry_key()(after.entries@[last]));
    }
}

/// Reading an updated entry gives back the fields it was updated with.
pub proof fn lemma_updated_entry_reads_back(
    before: DbState,
    after: DbState,
    id: Seq<char>,
    input: EntryInput,
    now: String,
    enc: String,
    key: Seq<u8>,
    fields: Seq<u8>,
)
    requires
        before.wf(),
        after.wf(),
        has_key(before.entries@, entry_key(), id),
        after.entries@ == rewrite_entry(before.entries@, id, input, now, enc),
        opened_payload(key, enc@) == Some(fields),
    ensures
        has_key(after.entries@, entry_key(), id),
        stored_fields(after, key, id) == Some(fields),
{
    let i = choose|i: int| 0 <= i < before.entries@.len() && entry_key()(before.entries@[i]) == id;
    assert(after.entries@[i].id@ == id);
    let j = entry_pos(after.entries@, id);
    if j != i {
        assert(entry_key()(after.entries@[j]) == entry_key()(after.entries@[i]));
    }
}

/// Reads the entry `id` and decrypts its fields: the stored row and the
/// serialized fields.
pub fn open_entry(state: &AppState, id: &str) -> (r: Result<(ExportEntry, Vec<u8>), String>)
    requires
        state.db.wf(),
    ensures
        state.crypto_key is None ==> r is Err && r->Err_0@ == locked_msg(),
        state.crypto_key is Some && !has_key(state.db.entries@, entry_key(), id@) ==> r is Err
            && r->Err_0@ == entry_not_found_msg(),
        state.crypto_key is Some && has_key(state.db.entries@, entry_key(), id@) ==> match stored_fields(
            state.db,
            state.crypto_key->0.key@,
            id@,
        ) {
            Some(p) => r is Ok && r->Ok_0.0 == state.db.entries@[entry_pos(state.db.entries@, id@)]
                && r->Ok_0.1@ == p,
            None => r is Err && decrypt_error(
                state.db.entries@[entry_pos(state.db.entries@, id@)].encrypted_data@,
                r->Err_0@,
            ),
        },
{
    ensure_db_unlocked(state)?;
    let key = require_key(state)?;
    let i = match find_entry(&state.db.entries, id) {
        Some(i) => i,
        None => {
            return Err(String::from_str("条目不存在"));
        },
    };
    proof {
        let j = entry_pos(state.db.entries@, id@);
        if j != i {
            assert(entry_key()(state.db.entries@[j]) == entry_key()(state.db.entries@[i as int]));
        }
    }
    let row = state.db.entries[i].duplicate();
    let plain = decrypt(&key.key, row.encrypted_data.as_str())?;
    Ok((row, plain))
}

/// The name of the pseudo-field in which former versions kept the linked OTP entry.
pub open spec fn otp_code_field() -> Seq<char> {
    "OTP验证码"@
}

/// The name of the pseudo-field in which former versions kept the OTP mode.
pub open spec fn otp_mode_field() -> Seq<char> {
    "OTP验证模式"@
}

/// A field that former versions used to hold the OTP link.
pub open spec fn is_otp_pseudo_field(f: Field) -> bool {
    f.name@ == otp_code_field() || f.name@ == otp_mode_field()
}

/// The value of the first field named `name`.
pub open spec fn first_value(fields: Seq<Field>, name: Seq<char>) -> Option<String>
    decreases fields.len(),
{
    if fields.len() == 0 {
        None
    } else if fields[0].name@ == name {
        Some(fields[0].value)
    } else {
        first_value(fields.drop_first(), name)
    }
}

/// The value of the first field named `name`.
pub fn first_value_of(fields: &Vec<Field>, name: &str) -> (r: Option<String>)
    ensures
        r == first_value(fields@, name@),
{
    let n = fields.len();
    let mut i: usize = 0;
    assert(fields@.skip(0) =~= fields@);
    while i < n
        invariant
            n == fields@.len(),
            i <= n,
            first_value(fields@, name@) == first_value(fields@.skip(i as int), name@),
        decreases n - i,
    {
        assert(fields@.skip(i as int)[0] == fields@[i as int]);
        if str_eq(fields[i].name.as_str(), name) {
            return Some(dup_text(&fields[i].value));
        }
        assert(fields@.skip(i as int).drop_first() =~= fields@.skip(i + 1));
        i = i + 1;
    }
    assert(fields@.skip(n as int).len() == 0);
    None
}

/// What splitting the legacy OTP fields gives: the fields without the
/// pseudo-fields, the OTP link and mode, and whether the entry is to be
/// rewritten. An entry with pseudo-fields and no OTP link of its own takes
/// its link from the first of them.
pub open spec fn legacy_split(fields: Seq<Field>, otp_id: Option<String>, otp_mode: Option<String>) -> (
    Seq<Field>,
    Option<String>,
    Option<String>,
    bool,
) {
    let kept = fields.filter(|f: Field| !is_otp_pseudo_field(f));
    if (exists|i: int| 0 <= i < fields.len() && is_otp_pseudo_field(#[trigger] fields[i]))
        && otp_id is None {
        (kept, first_value(fields, otp_code_field()), first_value(fields, otp_mode_field()), true)
    } else {
        (kept, otp_id, otp_mode, false)
    }
}

proof fn lemma_filter_keeps_all(s: Seq<Field>, pred: spec_fn(Field) -> bool)
    requires
        forall|i: int| 0 <= i < s.len() ==> pred(#[trigger] s[i]),
    ensures
        s.filter(pred) == s,
    decreases s.len(),
{
    reveal(Seq::filter);
    if s.len() > 0 {
        lemma_filter_keeps_all(s.drop_last(), pred);
        assert(s.drop_last().push(s.last()) =~= s);
    }
}

/// Splitting twice is splitting once: what a split leaves holds no
/// pseudo-field, so a second split keeps its fields, OTP link and mode, and
/// asks for no rewrite.
pub proof fn lemma_legacy_split_idempotent(fields: Seq<Field>, otp_id: Option<String>, otp_mode: Option<String>)
    ensures
        ({
            let once = legacy_split(fields, otp_id, otp_mode);
            legacy_split(once.0, once.1, once.2) == (once.0, once.1, once.2, false)
        }),
{
    let pred = |f: Field| !is_otp_pseudo_field(f);
    let kept = fields.filter(pred);
    assert forall|i: int| 0 <= i < kept.len() implies pred(#[trigger] kept[i]) by {
        fields.lemma_filter_pred(pred, i);
    }
    lemma_filter_keeps_all(kept, pred);
    assert(!(exists|i: int| 0 <= i < kept.len() && is_otp_pseudo_field(#[trigger] kept[i])));
}

/// Fields read from an entry with the legacy OTP pseudo-fields taken out,
/// the OTP link to use, and whether the stored entry must be rewritten.
pub struct OtpMigration {
    pub fields: Vec<Field>,
    pub otp_id: Option<String>,
    pub otp_mode: Option<String>,
    pub rewrite: bool,
}

/// Moves the OTP link of entries from former versions out of their fields:
/// the pseudo-fields are always dropped; when the entry has no OTP link of
/// its own, the link is taken from them and the entry is to be rewritten.
pub fn split_legacy_otp(fields: Vec<Field>, otp_id: Option<String>, otp_mode: Option<String>) -> (r: OtpMigration)
    ensures
        (r.fields@, r.otp_id, r.otp_mode, r.rewrite) == legacy_split(fields@, otp_id, otp_mode),
        r.fields@ == fields@.filter(|f: Field| !is_otp_pseudo_field(f)),
        ((exists|i: int| 0 <= i < fields@.len() && is_otp_pseudo_field(#[trigger] fields@[i]))
            && otp_id is None) ==> r.rewrite && r.otp_id == first_value(fields@, otp_code_field())
            && r.otp_mode == first_value(fields@, otp_mode_field()),
        !((exists|i: int| 0 <= i < fields@.len() && is_otp_pseudo_field(#[trigger] fields@[i]))
            && otp_id is None) ==> !r.rewrite && r.otp_id == otp_id && r.otp_mode == otp_mode,
{
    let ghost pred = |f: Field| !is_otp_pseudo_field(f);
    let code = "OTP验证码";
    let mode = "OTP验证模式";
    proof {
        reveal_strlit("OTP验证码");
        reveal_strlit("OTP验证模式");
    }
    let mut kept: Vec<Field> = Vec::new();
    let mut any = false;
    let n = fields.len();
    let mut i: usize = 0;
    assert(fields@.take(0) =~= Seq::<Field>::empty());
    while i < n
        invariant
            n == fields@.len(),
            i <= n,
            code@ == otp_code_field(),
            mode@ == otp_mode_field(),
            kept@ == fields@.take(i as int).filter(pred),
            any == exists|k: int| 0 <= k < i && is_otp_pseudo_field(#[trigger] fields@[k]),
            pred == (|f: Field| !is_otp_pseudo_field(f)),
        decreases n - i,
    {
        assert(fields@.take(i + 1) =~= fields@.take(i as int).push(fields@[i as int]));
        proof {
            fields@.take(i as int).lemma_filter_push(fields@[i as int], pred);
        }
        if str_eq(fields[i].name.as_str(), code) || str_eq(fields[i].name.as_str(), mode) {
            any = true;
        } else {
            kept.push(fields[i].duplicate());
        }
        i = i + 1;
    }
    assert(fields@.take(n as int) =~= fields@);
    if any && otp_id.is_none() {
        let id = first_value_of(&fields, code);
        let m = first_value_of(&fields, mode);
        OtpMigration { fields: kept, otp_id: id, otp_mode: m, rewrite: true }
    } else {
        OtpMigration { fields: kept, otp_id, otp_mode, rewrite: false }
    }
}

/// The entry table with the OTP link and the encrypted fields of the entry
/// `id` replaced.
pub open spec fn set_otp_data(
    s: Seq<ExportEntry>,
    id: Seq<char>,
    otp_id: Option<String>,
    otp_mode: Option<String>,
    enc: String,
) -> Seq<ExportEntry> {
    Seq::new(
        s.len(),
        |k: int|
            if s[k].id@ == id {
                ExportEntry {
                    id: s[k].id,
                    category: s[k].category,
                    title: s[k].title,
                    icon: s[k].icon,
                    note: s[k].note,
                    otp_id: otp_id,
                    otp_mode: otp_mode,
                    encrypted_data: enc,
                    created_at: s[k].created_at,
                    updated_at: s[k].updated_at,
                    deleted_at: s[k].deleted_at,
                }
            } else {
                s[k]
            },
    )
}

/// Reading a migrated entry gives back the fields and the OTP link it was
/// stored with: a later read splits fields with no pseudo-field left (see
/// [`lemma_legacy_split_idempotent`]).
pub proof fn lemma_migrated_entry_reads_back(
    before: DbState,
    after: DbState,
    id: Seq<char>,
    otp_id: Option<String>,
    otp_mode: Option<String>,
    enc: String,
    key: Seq<u8>,
    fields: Seq<u8>,
)
    requires
        before.wf(),
        after.wf(),
        has_key(before.entries@, entry_key(), id),
        after.entries@ == set_otp_data(before.entries@, id, otp_id, otp_mode, enc),
        opened_payload(key, enc@) == Some(fields),
    ensures
        has_key(after.entries@, entry_key(), id),
        stored_fields(after, key, id) == Some(fields),
        after.entries@[entry_pos(after.entries@, id)].otp_id == otp_id,
        after.entries@[entry_pos(after.entries@, id)].otp_mode == otp_mode,
{
    let i = choose|i: int| 0 <= i < before.entries@.len() && entry_key()(before.entries@[i]) == id;
    assert(after.entries@[i].id@ == id);
    let j = entry_pos(after.entries@, id);
    if j != i {
        assert(entry_key()(after.entries@[j]) == entry_key()(after.entries@[i]));
    }
}

impl DbState {
    /// Stores an entry migrated out of the legacy OTP fields: its OTP link
    /// and its fields `fields_json`, encrypted anew. When the encryption
    /// fails nothing is stored.
    #[verifier::loop_isolation(false)]
    pub fn store_migrated_entry(
        &mut self,
        key: &CryptoKey,
        id: &str,
        otp_id: &Option<String>,
        otp_mode: &Option<String>,
        fields_json: &[u8],
    )
        requires
            old(self).wf(),
        ensures
            final(self).wf(),
            same_but_entries(*final(self), *old(self)),
            fields_json@.len() > aes_gcm_max_plaintext() ==> *final(self) == *old(self),
            fields_json@.len() <= aes_gcm_max_plaintext() ==> exists|enc: String|
                final(self).entries@ == #[trigger] set_otp_data(
                    old(self).entries@,
                    id@,
                    *otp_id,
                    *otp_mode,
                    enc,
                ) && (exists|n: Seq<u8>|
                    n.len() == 12 && enc@ == #[trigger] sealed_payload(key.key@, n, fields_json@))
                    && opened_payload(key.key@, enc@) == Some(fields_json@),
    {
        let enc = match encrypt(&key.key, fields_json) {
            Ok(e) => e,
            Err(_) => {
                return;
            },
        };
        let ghost orig = self.entries@;
        let n = self.entries.len();
        let mut k: usize = 0;
        while k < n
            invariant
                n == self.entries@.len(),
                k <= n,
                same_but_entries(*self, *old(self)),
                forall|q: int| 0 <= q < k ==> #[trigger] self.entries@[q] == set_otp_data(
                    orig,
                    id@,
                    *otp_id,
                    *otp_mode,
                    enc,
                )[q],
                forall|q: int| k <= q < n ==> #[trigger] self.entries@[q] == orig[q],
            decreases n - k,
        {
            if str_eq(self.entries[k].id.as_str(), id) {
                let e = &self.entries[k];
                let row = ExportEntry {
                    id: dup_text(&e.id),
                    category: dup_text(&e.category),
                    title: dup_text(&e.title),
                    icon: dup_opt_text(&e.icon),
                    note: dup_opt_text(&e.note),
                    otp_id: dup_opt_text(otp_id),
                    otp_mode: dup_opt_text(otp_mode),
                    encrypted_data: dup_text(&enc),
                    created_at: dup_text(&e.created_at),
                    updated_at: dup_text(&e.updated_at),
                    deleted_at: dup_opt_text(&e.deleted_at),
                };
                self.entries.set(k, row);
            }
            k = k + 1;
        }
        assert(self.entries@ =~= set_otp_data(orig, id@, *otp_id, *otp_mode, enc));
        proof {
            lemma_same_keys_unique(orig, self.entries@, entry_key());
        }
    }
}

/// The tags linked to the entry `entry_id`, in the order of the tag table.
pub open spec fn tags_of_entry(tags: Seq<TagOut>, links: Seq<ExportEntryTag>, entry_id: Seq<char>) -> Seq<TagOut> {
    tags.filter(|t: TagOut| has_key(links, link_key(), (entry_id, t.id@)))
}

fn has_link(links: &Vec<ExportEntryTag>, entry_id: &str, tag_id: &str) -> (r: bool)
    ensures
        r == has_key(links@, link_key(), (entry_id@, tag_id@)),
{
    let n = links.len();
    let mut i: usize = 0;
    while i < n
        invariant
            n == links@.len(),
            i <= n,
            forall|k: int| 0 <= k < i ==> link_key()(links@[k]) != (entry_id@, tag_id@),
        decreases n - i,
    {
        if str_eq(links[i].entry_id.as_str(), entry_id) && str_eq(links[i].tag_id.as_str(), tag_id) {
            return true;
        }
        i = i + 1;
    }
    false
}

/// The tags linked to an entry, in the order of the tag table.
pub fn entry_tags_of(db: &DbState, entry_id: &str) -> (r: Vec<TagOut>)
    ensures
        r@ == tags_of_entry(db.tags@, db.entry_tags@, entry_id@),
{
    let ghost pred = |t: TagOut| has_key(db.entry_tags@, link_key(), (entry_id@, t.id@));
    let mut out: Vec<TagOut> = Vec::new();
    let n = db.tags.len();
    let mut i: usize = 0;
    assert(db.tags@.take(0) =~= Seq::<TagOut>::empty());
    while i < n
        invariant
            n == db.tags@.len(),
            i <= n,
            out@ == db.tags@.take(i as int).filter(pred),
            pred == (|t: TagOut| has_key(db.entry_tags@, link_key(), (entry_id@, t.id@))),
        decreases n - i,
    {
        assert(db.tags@.take(i + 1) =~= db.tags@.take(i as int).push(db.tags@[i as int]));
        proof {
            db.tags@.take(i as int).lemma_filter_push(db.tags@[i as int], pred);
        }
        if has_link(&db.entry_tags, entry_id, db.tags[i].id.as_str()) {
            out.push(db.tags[i].duplicate());
        }
        i = i + 1;
    }
    assert(db.tags@.take(n as int) =~= db.tags@);
    out
}

/// An entry as shown: the stored row's values, the decrypted fields and OTP
/// link, and the entry's tags.
pub fn entry_out(
    db: &DbState,
    row: &ExportEntry,
    fields: Vec<Field>,
    otp_id: Option<String>,
    otp_mode: Option<String>,
) -> (r: EntryOut)
    ensures
        r.id == row.id,
        r.category == row.category,
        r.title == row.title,
        r.icon == row.icon,
        r.note == row.note,
        r.otp_id == otp_id,
        r.otp_mode == otp_mode,
        r.fields == fields,
        r.tags@ == tags_of_entry(db.tags@, db.entry_tags@, row.id@),
        r.created_at == row.created_at,
        r.updated_at == row.updated_at,
        r.deleted_at == row.deleted_at,
{
    EntryOut {
        id: dup_text(&row.id),
        category: dup_text(&row.category),
        title: dup_text(&row.title),
        icon: dup_opt_text(&row.icon),
        note: dup_opt_text(&row.note),
        otp_id,
        otp_mode,
        fields,
        tags: entry_tags_of(db, row.id.as_str()),
        created_at: dup_text(&row.created_at),
        updated_at: dup_text(&row.updated_at),
        deleted_at: dup_opt_text(&row.deleted_at),
    }
}

} // verus!
