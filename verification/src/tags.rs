//! Tags: listing, creating (or finding by name), deleting.

use vstd::prelude::*;
use crate::auth::{ensure_db_unlocked, locked_msg};
use crate::db::{link_key, tag_id_key, tag_name_key, DbState};
use crate::ids::{has_uuid_key, is_uuid_text, lemma_uuid_key_taken, new_uuid};
use crate::models::{dup_text, ExportEntryTag, TagOut};
use crate::state::AppState;
use crate::table::{
    arranged, has_key, is_perm, lemma_filter_unique, lemma_push_unique, lemma_same_keys_unique,
    lemma_filter_keeps_all,
    sort_order, unique_by, SortKey,
};
use crate::text::{str_eq, text_le};

verus! {

/// The text rusqlite gives for a duplicate tag id.
pub open spec fn duplicate_tag_id_msg() -> Seq<char> {
    "UNIQUE constraint failed: tags.id"@
}

/// The position of the tag with a given name, if any.
pub fn find_tag_by_name(tags: &Vec<TagOut>, name: &str) -> (r: Option<usize>)
    ensures
        r matches Some(i) ==> i < tags@.len() && tags@[i as int].name@ == name@,
        r is None ==> !has_key(tags@, tag_name_key(), name@),
{
    let n = tags.len();
    let mut i: usize = 0;
    while i < n
        invariant
            n == tags@.len(),
            i <= n,
            forall|k: int| 0 <= k < i ==> tags@[k].name@ != name@,
        decreases n - i,
    {
        if str_eq(tags[i].name.as_str(), name) {
            return Some(i);
        }
        i = i + 1;
    }
    None
}

/// The position of the tag with a given id, if any.
pub fn find_tag_by_id(tags: &Vec<TagOut>, id: &str) -> (r: Option<usize>)
    ensures
        r matches Some(i) ==> i < tags@.len() && tags@[i as int].id@ == id@,
        r is None ==> !has_key(tags@, tag_id_key(), id@),
{
    let n = tags.len();
    let mut i: usize = 0;
    while i < n
        invariant
            n == tags@.len(),
            i <= n,
            forall|k: int| 0 <= k < i ==> tags@[k].id@ != id@,
        decreases n - i,
    {
        if str_eq(tags[i].id.as_str(), id) {
            return Some(i);
        }
        i = i + 1;
    }
    None
}

/// The tag with its color replaced by `color` when one is given.
pub open spec fn with_color(t: TagOut, color: Option<String>) -> TagOut {
    match color {
        Some(c) => TagOut { id: t.id, name: t.name, color: Some(c) },
        None => t,
    }
}

/// Everything but the tag table is unchanged.
pub open spec fn same_but_tags(a: DbState, b: DbState) -> bool {
    &&& a.master_key == b.master_key
    &&& a.entries == b.entries
    &&& a.entry_tags == b.entry_tags
    &&& a.settings == b.settings
    &&& a.otp_entries == b.otp_entries
    &&& a.categories == b.categories
    &&& a.templates == b.templates
    &&& a.template_fields == b.template_fields
    &&& a.template_categories == b.template_categories
}

/// At most one name (perhaps repeated) among `names` is missing from the tags.
pub open spec fn one_missing_name(tags: Seq<TagOut>, names: Seq<String>) -> bool {
    forall|a: int, b: int|
        0 <= a < names.len() && 0 <= b < names.len() && !has_key(tags, tag_name_key(), #[trigger] names[a]@)
            && !has_key(tags, tag_name_key(), #[trigger] names[b]@) ==> names[a]@ == names[b]@
}

/// Tags that grew from `start` by tags named among `names` hold no
/// UUID-shaped id while `start` holds none, at most one name is missing
/// from `start`, and that name is still missing: every draw so far found
/// its id free.
pub proof fn lemma_one_missing_no_uuid(start: Seq<TagOut>, tags: Seq<TagOut>, names: Seq<String>, k: int)
    requires
        unique_by(tags, tag_name_key()),
        start.len() <= tags.len(),
        forall|i: int| 0 <= i < start.len() ==> #[trigger] tags[i] == start[i],
        forall|j: int|
            start.len() <= j < tags.len() ==> exists|q: int|
                0 <= q < names.len() && names[q]@ == (#[trigger] tags[j]).name@,
        !has_uuid_key(start, tag_id_key()),
        one_missing_name(start, names),
        0 <= k < names.len(),
        !has_key(tags, tag_name_key(), names[k]@),
    ensures
        !has_uuid_key(tags, tag_id_key()),
{
    if has_uuid_key(tags, tag_id_key()) {
        let i = choose|i: int| 0 <= i < tags.len() && is_uuid_text(#[trigger] tag_id_key()(tags[i]));
        if i < start.len() {
            assert(tags[i] == start[i]);
            assert(is_uuid_text(tag_id_key()(start[i])));
        } else {
            let q = choose|q: int| 0 <= q < names.len() && names[q]@ == (#[trigger] tags[i]).name@;
            if has_key(start, tag_name_key(), names[q]@) {
                let s0 = choose|s0: int| 0 <= s0 < start.len() && tag_name_key()(start[s0]) == names[q]@;
                assert(tags[s0] == start[s0]);
                assert(tag_name_key()(tags[s0]) == tag_name_key()(tags[i]));
            }
            if has_key(start, tag_name_key(), names[k]@) {
                let s1 = choose|s1: int| 0 <= s1 < start.len() && tag_name_key()(start[s1]) == names[k]@;
                assert(tags[s1] == start[s1]);
            }
            assert(names[q]@ == names[k]@);
            assert(tag_name_key()(tags[i]) == names[k]@);
        }
    }
}

impl DbState {
    /// The id of the tag named `name`; when there is none, a tag with that
    /// name, the id `fresh_id` and no color is added (an error when the id is taken).
    pub fn upsert_tag_with_id(&mut self, name: &str, fresh_id: String) -> (r: Result<String, String>)
        requires
            old(self).wf(),
        ensures
            final(self).wf(),
            same_but_tags(*final(self), *old(self)),
            has_key(old(self).tags@, tag_name_key(), name@) ==> r is Ok && *final(self) == *old(self) && exists|i: int|
                0 <= i < old(self).tags@.len() && old(self).tags@[i].name@ == name@ && old(self).tags@[i].id@ == r->Ok_0@,
            (!has_key(old(self).tags@, tag_name_key(), name@) && has_key(
                old(self).tags@,
                tag_id_key(),
                fresh_id@,
            )) ==> r is Err && r->Err_0@ == duplicate_tag_id_msg() && *final(self) == *old(self),
            (!has_key(old(self).tags@, tag_name_key(), name@) && !has_key(
                old(self).tags@,
                tag_id_key(),
                fresh_id@,
            )) ==> r is Ok && r->Ok_0@ == fresh_id@ && final(self).tags@.len() == old(self).tags@.len() + 1 && final(self).tags@.drop_last() == old(self).tags@ && final(self).tags@.last().id@ == fresh_id@ && final(self).tags@.last().name@ == name@ && final(self).tags@.last().color is None,
    {
        match find_tag_by_name(&self.tags, name) {
            Some(i) => {
                return Ok(dup_text(&self.tags[i].id));
            },
            None => {},
        }
        match find_tag_by_id(&self.tags, fresh_id.as_str()) {
            Some(_) => {
                return Err(String::from_str("UNIQUE constraint failed: tags.id"));
            },
            None => {},
        }
        let row = TagOut { id: dup_text(&fresh_id), name: String::from_str(name), color: None };
        proof {
            lemma_push_unique(self.tags@, row, tag_id_key());
            lemma_push_unique(self.tags@, row, tag_name_key());
        }
        let ghost before = self.tags@;
        self.tags.push(row);
        assert(self.tags@.drop_last() =~= before);
        Ok(fresh_id)
    }

    /// The id of the tag named `name`, adding it (with a fresh random id and
    /// no color) when missing.
    pub fn upsert_tag(&mut self, name: &str) -> (r: Result<String, String>)
        requires
            old(self).wf(),
        ensures
            final(self).wf(),
            same_but_tags(*final(self), *old(self)),
            has_key(old(self).tags@, tag_name_key(), name@) ==> r is Ok && *final(self) == *old(self),
            r is Ok ==> exists|i: int|
                0 <= i < final(self).tags@.len() && final(self).tags@[i].name@ == name@ && final(self).tags@[i].id@ == r->Ok_0@,
            !has_key(old(self).tags@, tag_name_key(), name@) && r is Ok ==> final(self).tags@.drop_last() == old(self).tags@ && is_uuid_text(r->Ok_0@)
                && final(self).tags@.len() == old(self).tags@.len() + 1
                && final(self).tags@.last().color is None && final(self).tags@.last().id@ == r->Ok_0@
                && final(self).tags@.last().name@ == name@,
            r is Err ==> *final(self) == *old(self) && !has_key(old(self).tags@, tag_name_key(), name@)
                && r->Err_0@ == duplicate_tag_id_msg(),
            r is Err ==> has_uuid_key(old(self).tags@, tag_id_key()),
    {
        let fresh = new_uuid();
        let ghost before = *self;
        let ghost fid = fresh;
        let r = self.upsert_tag_with_id(name, fresh);
        proof {
            if r is Err {
                lemma_uuid_key_taken(before.tags@, tag_id_key(), fid@);
            }
            if r is Ok && !has_key(before.tags@, tag_name_key(), name@) {
                assert(self.tags@[self.tags@.len() - 1] == self.tags@.last());
            }
        }
        r
    }

    /// Gives the tag at position `i` the color `color`.
    pub fn set_tag_color(&mut self, i: usize, color: String)
        requires
            old(self).wf(),
            i < old(self).tags@.len(),
        ensures
            final(self).wf(),
            same_but_tags(*final(self), *old(self)),
            final(self).tags@ == old(self).tags@.update(i as int, with_color(old(self).tags@[i as int], Some(color))),
    {
        let row = TagOut { id: dup_text(&self.tags[i].id), name: dup_text(&self.tags[i].name), color: Some(color) };
        let ghost before = self.tags@;
        self.tags.set(i, row);
        proof {
            lemma_same_keys_unique(before, self.tags@, tag_id_key());
            lemma_same_keys_unique(before, self.tags@, tag_name_key());
        }
    }

    /// Deletes the tag named `name` and its links to entries.
    pub fn delete_tag_named(&mut self, name: &str)
        requires
            old(self).wf(),
        ensures
            final(self).wf(),
            final(self).tags@ == old(self).tags@.filter(|t: TagOut| t.name@ != name@),
            has_key(old(self).tags@, tag_name_key(), name@) ==> final(self).entry_tags@ == old(self).entry_tags@.filter(
                |l: ExportEntryTag|
                    !(exists|i: int|
                        0 <= i < old(self).tags@.len() && old(self).tags@[i].name@ == name@
                            && old(self).tags@[i].id@ == l.tag_id@),
            ),
            !has_key(old(self).tags@, tag_name_key(), name@) ==> final(self).entry_tags == old(self).entry_tags,
            final(self).master_key == old(self).master_key,
            final(self).entries == old(self).entries,
            final(self).settings == old(self).settings,
            final(self).otp_entries == old(self).otp_entries,
            final(self).categories == old(self).categories,
            final(self).templates == old(self).templates,
            final(self).template_fields == old(self).template_fields,
            final(self).template_categories == old(self).template_categories,
    {
        let ghost old_tags = self.tags@;
        match find_tag_by_name(&self.tags, name) {
            Some(i) => {
                let tid = dup_text(&self.tags[i].id);
                proof {
                    assert forall|l: ExportEntryTag|
                        (exists|j: int|
                            0 <= j < old_tags.len() && old_tags[j].name@ == name@ && old_tags[j].id@
                                == l.tag_id@) <==> l.tag_id@ == tid@ by {
                        if exists|j: int|
                            0 <= j < old_tags.len() && old_tags[j].name@ == name@ && old_tags[j].id@
                                == l.tag_id@ {
                            let j = choose|j: int|
                                0 <= j < old_tags.len() && old_tags[j].name@ == name@
                                    && old_tags[j].id@ == l.tag_id@;
                            if j != i {
                                assert(tag_name_key()(old_tags[j]) != tag_name_key()(
                                    old_tags[i as int],
                                ));
                            }
                        }
                    }
                }
                remove_links_with_tag(&mut self.entry_tags, tid.as_str());
                assert((|l: ExportEntryTag| l.tag_id@ != tid@) =~= (|l: ExportEntryTag|
                    !(exists|j: int|
                        0 <= j < old_tags.len() && old_tags[j].name@ == name@
                            && old_tags[j].id@ == l.tag_id@)));
                assert(self.entry_tags@ =~= old(self).entry_tags@.filter(
                    |l: ExportEntryTag|
                        !(exists|j: int|
                            0 <= j < old_tags.len() && old_tags[j].name@ == name@
                                && old_tags[j].id@ == l.tag_id@),
                ));
            },
            None => {},
        }
        remove_tags_named(&mut self.tags, name);
    }
}

/// Removes the links to a tag.
#[verifier::loop_isolation(false)]
pub fn remove_links_with_tag(links: &mut Vec<ExportEntryTag>, tag_id: &str)
    requires
        unique_by(old(links)@, link_key()),
    ensures
        unique_by(final(links)@, link_key()),
        final(links)@ == old(links)@.filter(|l: ExportEntryTag| l.tag_id@ != tag_id@),
{
    let ghost pred = |l: ExportEntryTag| l.tag_id@ != tag_id@;
    let mut kept: Vec<ExportEntryTag> = Vec::new();
    let n = links.len();
    let mut i: usize = 0;
    assert(links@.take(0) =~= Seq::<ExportEntryTag>::empty());
    while i < n
        invariant
            n == links@.len(),
            i <= n,
            kept@ == links@.take(i as int).filter(pred),
        decreases n - i,
    {
        assert(links@.take(i + 1) =~= links@.take(i as int).push(links@[i as int]));
        proof {
            links@.take(i as int).lemma_filter_push(links@[i as int], pred);
        }
        if !str_eq(links[i].tag_id.as_str(), tag_id) {
            kept.push(links[i].duplicate());
        }
        i = i + 1;
    }
    assert(links@.take(n as int) =~= links@);
    proof {
        lemma_filter_unique(links@, pred, link_key());
    }
    *links = kept;
}

/// Removes the tags with a given name.
#[verifier::loop_isolation(false)]
pub fn remove_tags_named(tags: &mut Vec<TagOut>, name: &str)
    requires
        unique_by(old(tags)@, tag_id_key()),
        unique_by(old(tags)@, tag_name_key()),
    ensures
        unique_by(final(tags)@, tag_id_key()),
        unique_by(final(tags)@, tag_name_key()),
        final(tags)@ == old(tags)@.filter(|t: TagOut| t.name@ != name@),
{
    let ghost pred = |t: TagOut| t.name@ != name@;
    let mut kept: Vec<TagOut> = Vec::new();
    let n = tags.len();
    let mut i: usize = 0;
    assert(tags@.take(0) =~= Seq::<TagOut>::empty());
    while i < n
        invariant
            n == tags@.len(),
            i <= n,
            kept@ == tags@.take(i as int).filter(pred),
        decreases n - i,
    {
        assert(tags@.take(i + 1) =~= tags@.take(i as int).push(tags@[i as int]));
        proof {
            tags@.take(i as int).lemma_filter_push(tags@[i as int], pred);
        }
        if !str_eq(tags[i].name.as_str(), name) {
            kept.push(tags[i].duplicate());
        }
        i = i + 1;
    }
    assert(tags@.take(n as int) =~= tags@);
    proof {
        lemma_filter_unique(tags@, pred, tag_id_key());
        lemma_filter_unique(tags@, pred, tag_name_key());
    }
    *tags = kept;
}

/// The tags in name order.
pub fn tags_by_name(tags: &Vec<TagOut>) -> (r: Vec<TagOut>)
    ensures
        arranged(r@, tags@),
        forall|a: int, b: int| 0 <= a < b < r@.len() ==> text_le(r@[a].name@, r@[b].name@),
{
    let mut keys: Vec<String> = Vec::new();
    let n = tags.len();
    let mut i: usize = 0;
    while i < n
        invariant
            n == tags@.len(),
            i <= n,
            keys@.len() == i,
            forall|k: int| 0 <= k < i ==> keys@[k] == tags@[k].name,
        decreases n - i,
    {
        keys.push(dup_text(&tags[i].name));
        i = i + 1;
    }
    let perm = sort_order(&keys);
    let mut out: Vec<TagOut> = Vec::new();
    let mut j: usize = 0;
    while j < n
        invariant
            n == tags@.len(),
            n == keys@.len(),
            is_perm(perm@, n as int),
            j <= n,
            out@.len() == j,
            forall|k: int| 0 <= k < j ==> out@[k] == tags@[perm@[k] as int],
        decreases n - j,
    {
        out.push(tags[perm[j]].duplicate());
        j = j + 1;
    }
    proof {
        assert forall|a: int, b: int| 0 <= a < b < out@.len() implies text_le(
            out@[a].name@,
            out@[b].name@,
        ) by {
            assert(keys@[perm@[a] as int].key_le(keys@[perm@[b] as int]));
        }
    }
    out
}

/// All tags, in name order.
pub fn get_tags(state: &AppState) -> (r: Result<Vec<TagOut>, String>)
    ensures
        state.crypto_key is None ==> r is Err && r->Err_0@ == locked_msg(),
        state.crypto_key is Some ==> r is Ok && arranged(r->Ok_0@, state.db.tags@) && forall|
            a: int,
            b: int,
        |
            0 <= a < b < r->Ok_0@.len() ==> text_le(r->Ok_0@[a].name@, r->Ok_0@[b].name@),
{
    ensure_db_unlocked(state)?;
    Ok(tags_by_name(&state.db.tags))
}

/// Creates the tag named `name` unless one exists, and returns it as it was
/// before `color`, when given, is set on it.
pub fn create_tag(state: &mut AppState, name: &str, color: Option<String>) -> (r: Result<TagOut, String>)
    requires
        old(state).db.wf(),
    ensures
        final(state).db.wf(),
        final(state).crypto_key == old(state).crypto_key,
        final(state).last_activity == old(state).last_activity,
        same_but_tags(final(state).db, old(state).db),
        old(state).crypto_key is None ==> r is Err && r->Err_0@ == locked_msg(),
        r is Err ==> final(state).db == old(state).db,
        old(state).crypto_key is Some && r is Err ==> !has_key(old(state).db.tags@, tag_name_key(), name@)
            && r->Err_0@ == duplicate_tag_id_msg() && has_uuid_key(old(state).db.tags@, tag_id_key()),
        old(state).crypto_key is Some && has_key(old(state).db.tags@, tag_name_key(), name@) ==> r is Ok
            && exists|i: int|
            0 <= i < old(state).db.tags@.len() && old(state).db.tags@[i].name@ == name@ && r->Ok_0
                == old(state).db.tags@[i] && final(state).db.tags@ == old(state).db.tags@.update(
                i,
                with_color(old(state).db.tags@[i], color),
            ),
        !has_key(old(state).db.tags@, tag_name_key(), name@) && r is Ok ==> r->Ok_0.name@ == name@
            && r->Ok_0.color is None && is_uuid_text(r->Ok_0.id@) && final(state).db.tags@
            == old(state).db.tags@.push(with_color(r->Ok_0, color)),
{
    ensure_db_unlocked(state)?;
    let ghost before = state.db;
    let id = state.db.upsert_tag(name)?;
    let i = match find_tag_by_id(&state.db.tags, id.as_str()) {
        Some(i) => i,
        None => {
            assert(false);
            return Err(id);
        },
    };
    let tag = state.db.tags[i].duplicate();
    proof {
        if has_key(before.tags@, tag_name_key(), name@) {
            assert(state.db == before);
            let j = choose|j: int|
                0 <= j < before.tags@.len() && before.tags@[j].name@ == name@ && before.tags@[j].id@
                    == id@;
            assert(tag_id_key()(before.tags@[j]) == tag_id_key()(before.tags@[i as int]));
        } else {
            let k = state.db.tags@.len() - 1;
            assert(state.db.tags@[k] == state.db.tags@.last());
            if i != k {
                assert(tag_id_key()(state.db.tags@[k]) == tag_id_key()(state.db.tags@[i as int]));
            }
            assert(state.db.tags@ == before.tags@.push(tag));
        }
    }
    match color {
        Some(c) => {
            state.db.set_tag_color(i, c);
        },
        None => {},
    }
    Ok(tag)
}

/// Deletes the tag named `name` and its links to entries.
pub fn delete_tag(state: &mut AppState, name: &str) -> (r: Result<(), String>)
    requires
        old(state).db.wf(),
    ensures
        final(state).db.wf(),
        final(state).crypto_key == old(state).crypto_key,
        final(state).last_activity == old(state).last_activity,
        old(state).crypto_key is None ==> r is Err && r->Err_0@ == locked_msg() && final(state).db
            == old(state).db,
        old(state).crypto_key is Some ==> r is Ok && final(state).db.tags@ == old(state).db.tags@.filter(
            |t: TagOut| t.name@ != name@,
        ) && final(state).db.entry_tags@ == old(state).db.entry_tags@.filter(
            |l: ExportEntryTag|
                !(exists|i: int|
                    0 <= i < old(state).db.tags@.len() && old(state).db.tags@[i].name@ == name@
                        && old(state).db.tags@[i].id@ == l.tag_id@),
        ) && same_but_tags_and_links(final(state).db, old(state).db),
{
    ensure_db_unlocked(state)?;
    let ghost before = state.db;
    state.db.delete_tag_named(name);
    proof {
        if !has_key(before.tags@, tag_name_key(), name@) {
            assert(before.entry_tags@.filter(
                |l: ExportEntryTag|
                    !(exists|i: int|
                        0 <= i < before.tags@.len() && before.tags@[i].name@ == name@
                            && before.tags@[i].id@ == l.tag_id@),
            ) == before.entry_tags@) by {
                lemma_filter_keeps_all(
                    before.entry_tags@,
                    |l: ExportEntryTag|
                        !(exists|i: int|
                            0 <= i < before.tags@.len() && before.tags@[i].name@ == name@
                                && before.tags@[i].id@ == l.tag_id@),
                );
            }
        }
    }
    Ok(())
}

/// Everything but the tag and link tables is unchanged.
pub open spec fn same_but_tags_and_links(a: DbState, b: DbState) -> bool {
    &&& a.master_key == b.master_key
    &&& a.entries == b.entries
    &&& a.settings == b.settings
    &&& a.otp_entries == b.otp_entries
    &&& a.categories == b.categories
    &&& a.templates == b.templates
    &&& a.template_fields == b.template_fields
    &&& a.template_categories == b.template_categories
}

} // verus!
