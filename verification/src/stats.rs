//! Counts for the overview: entries per category, entry links per tag.

use vstd::prelude::*;
use crate::auth::{ensure_db_unlocked, locked_msg};
use crate::models::{dup_opt_text, dup_text, CategoryStat, ExportEntry, ExportEntryTag, TagOut, TagStat};
use crate::state::AppState;
use crate::table::{is_perm, sort_order, SortKey};
use crate::text::{str_eq, text_le};

verus! {

/// The number of entries outside the trash in the category `c`.
pub open spec fn live_count(entries: Seq<ExportEntry>, c: Seq<char>) -> nat {
    entries.filter(|e: ExportEntry| e.deleted_at is None && e.category@ == c).len()
}

/// Some entry outside the trash is in the category `c`.
pub open spec fn is_live_category(entries: Seq<ExportEntry>, c: Seq<char>) -> bool {
    exists|i: int| 0 <= i < entries.len() && entries[i].deleted_at is None && #[trigger] entries[i].category@ == c
}

/// `r` holds, once each and in text order, the categories of the entries
/// outside the trash, each with its number of such entries.
pub open spec fn category_stats_of(r: Seq<CategoryStat>, entries: Seq<ExportEntry>) -> bool {
    &&& forall|k: int|
        0 <= k < r.len() ==> is_live_category(entries, (#[trigger] r[k]).category@) && r[k].count
            == live_count(entries, r[k].category@)
    &&& forall|i: int|
        0 <= i < entries.len() && (#[trigger] entries[i]).deleted_at is None ==> exists|k: int|
            0 <= k < r.len() && r[k].category@ == entries[i].category@
    &&& forall|a: int, b: int|
        0 <= a < b < r.len() ==> text_le((#[trigger] r[a]).category@, (#[trigger] r[b]).category@)
            && r[a].category@ != r[b].category@
}

fn count_live(entries: &Vec<ExportEntry>, c: &str) -> (r: usize)
    ensures
        r == live_count(entries@, c@),
{
    let ghost pred = |e: ExportEntry| e.deleted_at is None && e.category@ == c@;
    let n = entries.len();
    let mut count: usize = 0;
    let mut i: usize = 0;
    assert(entries@.take(0) =~= Seq::<ExportEntry>::empty());
    while i < n
        invariant
            n == entries@.len(),
            i <= n,
            count == entries@.take(i as int).filter(pred).len(),
            pred == (|e: ExportEntry| e.deleted_at is None && e.category@ == c@),
        decreases n - i,
    {
        assert(entries@.take(i + 1) =~= entries@.take(i as int).push(entries@[i as int]));
        proof {
            entries@.take(i as int).lemma_filter_push(entries@[i as int], pred);
            entries@.take(i as int).filter(pred).lemma_filter_len(pred);
            entries@.take(i as int).lemma_filter_len(pred);
        }
        if entries[i].deleted_at.is_none() && str_eq(entries[i].category.as_str(), c) {
            count = count + 1;
        }
        i = i + 1;
    }
    assert(entries@.take(n as int) =~= entries@);
    count
}

/// The categories of the entries outside the trash with their number of
/// such entries, in text order.
#[verifier::loop_isolation(false)]
pub fn get_category_stats(state: &AppState) -> (r: Result<Vec<CategoryStat>, String>)
    requires
        state.db.entries@.len() <= i64::MAX,
    ensures
        state.crypto_key is None ==> r is Err && r->Err_0@ == locked_msg(),
        state.crypto_key is Some ==> r is Ok && category_stats_of(r->Ok_0@, state.db.entries@),
{
    ensure_db_unlocked(state)?;
    let entries = &state.db.entries;
    let n = entries.len();
    let mut cats: Vec<String> = Vec::new();
    let mut i: usize = 0;
    while i < n
        invariant
            n == entries@.len(),
            i <= n,
            forall|k: int| 0 <= k < cats@.len() ==> is_live_category(entries@, #[trigger] cats@[k]@),
            forall|a: int, b: int| 0 <= a < cats@.len() && 0 <= b < cats@.len() && a != b ==> cats@[a]@ != cats@[b]@,
            forall|q: int|
                0 <= q < i && (#[trigger] entries@[q]).deleted_at is None ==> exists|k: int|
                    0 <= k < cats@.len() && cats@[k]@ == entries@[q].category@,
        decreases n - i,
    {
        if entries[i].deleted_at.is_none() {
            let m = cats.len();
            let mut j: usize = 0;
            let mut found = false;
            while j < m
                invariant
                    m == cats@.len(),
                    j <= m,
                    !found ==> forall|k: int| 0 <= k < j ==> cats@[k]@ != entries@[i as int].category@,
                    found ==> exists|k: int| 0 <= k < m && cats@[k]@ == entries@[i as int].category@,
                decreases m - j,
            {
                if str_eq(cats[j].as_str(), entries[i].category.as_str()) {
                    found = true;
                }
                j = j + 1;
            }
            if !found {
                let ghost before = cats@;
                cats.push(dup_text(&entries[i].category));
                assert(is_live_category(entries@, cats@[m as int]@)) by {
                    assert(entries@[i as int].category@ == cats@[m as int]@);
                }
                proof {
                    assert forall|q: int|
                        0 <= q < i + 1 && (#[trigger] entries@[q]).deleted_at is None implies exists|k: int|
                            0 <= k < cats@.len() && cats@[k]@ == entries@[q].category@ by {
                        if q < i {
                            let k = choose|k: int| 0 <= k < m && before[k]@ == entries@[q].category@;
                            assert(cats@[k] == before[k]);
                        } else {
                            assert(cats@[m as int]@ == entries@[q].category@);
                        }
                    }
                }
            }
        }
        i = i + 1;
    }
    let perm = sort_order(&cats);
    let c = cats.len();
    let mut out: Vec<CategoryStat> = Vec::new();
    let mut j: usize = 0;
    while j < c
        invariant
            c == cats@.len(),
            n == entries@.len(),
            n <= i64::MAX,
            is_perm(perm@, c as int),
            j <= c,
            out@.len() == j,
            forall|k: int|
                0 <= k < j ==> (#[trigger] out@[k]).category == cats@[perm@[k] as int] && out@[k].count
                    == live_count(entries@, out@[k].category@),
        decreases c - j,
    {
        let name = &cats[perm[j]];
        let count = count_live(entries, name.as_str());
        proof {
            entries@.lemma_filter_len(|e: ExportEntry| e.deleted_at is None && e.category@ == name@);
        }
        out.push(CategoryStat { category: dup_text(name), count: count as i64 });
        j = j + 1;
    }
    proof {
        assert forall|a: int, b: int| 0 <= a < b < out@.len() implies text_le(
            (#[trigger] out@[a]).category@,
            (#[trigger] out@[b]).category@,
        ) && out@[a].category@ != out@[b].category@ by {
            assert(cats@[perm@[a] as int].key_le(cats@[perm@[b] as int]));
        }
        assert forall|i: int|
            0 <= i < entries@.len() && (#[trigger] entries@[i]).deleted_at is None implies exists|k: int|
                0 <= k < out@.len() && out@[k].category@ == entries@[i].category@ by {
            let q = choose|q: int| 0 <= q < cats@.len() && cats@[q]@ == entries@[i].category@;
            crate::templates::lemma_perm_onto(perm@, c as int, q);
            let k = choose|k: int| 0 <= k < c && perm@[k] == q;
            assert(out@[k].category@ == entries@[i].category@);
        }
    }
    Ok(out)
}

/// The number of links to the tag `tag_id` (whatever becomes of their entries).
pub open spec fn link_count(links: Seq<ExportEntryTag>, tag_id: Seq<char>) -> nat {
    links.filter(|l: ExportEntryTag| l.tag_id@ == tag_id).len()
}

/// `r` holds each tag once, in name order, with its number of links.
pub open spec fn tag_stats_of(r: Seq<TagStat>, tags: Seq<TagOut>, links: Seq<ExportEntryTag>) -> bool {
    exists|p: Seq<usize>|
        is_perm(p, tags.len() as int) && r.len() == tags.len() && (forall|k: int|
            0 <= k < r.len() ==> (#[trigger] r[k]).id == tags[p[k] as int].id && r[k].name
                == tags[p[k] as int].name && r[k].color == tags[p[k] as int].color && r[k].count
                == link_count(links, tags[p[k] as int].id@)) && (forall|a: int, b: int|
            0 <= a < b < r.len() ==> text_le((#[trigger] r[a]).name@, (#[trigger] r[b]).name@))
}

fn count_links(links: &Vec<ExportEntryTag>, tag_id: &str) -> (r: usize)
    ensures
        r == link_count(links@, tag_id@),
{
    let ghost pred = |l: ExportEntryTag| l.tag_id@ == tag_id@;
    let n = links.len();
    let mut count: usize = 0;
    let mut i: usize = 0;
    assert(links@.take(0) =~= Seq::<ExportEntryTag>::empty());
    while i < n
        invariant
            n == links@.len(),
            i <= n,
            count == links@.take(i as int).filter(pred).len(),
            pred == (|l: ExportEntryTag| l.tag_id@ == tag_id@),
        decreases n - i,
    {
        assert(links@.take(i + 1) =~= links@.take(i as int).push(links@[i as int]));
        proof {
            links@.take(i as int).lemma_filter_push(links@[i as int], pred);
            links@.take(i as int).lemma_filter_len(pred);
        }
        if str_eq(links[i].tag_id.as_str(), tag_id) {
            count = count + 1;
        }
        i = i + 1;
    }
    assert(links@.take(n as int) =~= links@);
    count
}

/// Each tag with its number of links, in name order.
pub fn get_tag_stats(state: &AppState) -> (r: Result<Vec<TagStat>, String>)
    requires
        state.db.entry_tags@.len() <= i64::MAX,
    ensures
        state.crypto_key is None ==> r is Err && r->Err_0@ == locked_msg(),
        state.crypto_key is Some ==> r is Ok && tag_stats_of(r->Ok_0@, state.db.tags@, state.db.entry_tags@),
{
    ensure_db_unlocked(state)?;
    let sorted = crate::tags::tags_by_name(&state.db.tags);
    let ghost p = choose|p: Seq<usize>|
        is_perm(p, state.db.tags@.len() as int) && sorted@.len() == state.db.tags@.len() && forall|k: int|
            0 <= k < sorted@.len() ==> sorted@[k] == state.db.tags@[#[trigger] p[k] as int];
    let n = sorted.len();
    let mut out: Vec<TagStat> = Vec::new();
    let mut j: usize = 0;
    while j < n
        invariant
            n == sorted@.len(),
            state.db.entry_tags@.len() <= i64::MAX,
            j <= n,
            out@.len() == j,
            forall|k: int|
                0 <= k < j ==> (#[trigger] out@[k]).id == sorted@[k].id && out@[k].name == sorted@[k].name
                    && out@[k].color == sorted@[k].color && out@[k].count == link_count(
                    state.db.entry_tags@,
                    sorted@[k].id@,
                ),
        decreases n - j,
    {
        let t = &sorted[j];
        let count = count_links(&state.db.entry_tags, t.id.as_str());
        proof {
            state.db.entry_tags@.lemma_filter_len(|l: ExportEntryTag| l.tag_id@ == t.id@);
        }
        out.push(
            TagStat { id: dup_text(&t.id), name: dup_text(&t.name), color: dup_opt_text(&t.color), count: count as i64 },
        );
        j = j + 1;
    }
    proof {
        assert forall|k: int| 0 <= k < out@.len() implies (#[trigger] out@[k]).id == state.db.tags@[p[k] as int].id
            && out@[k].name == state.db.tags@[p[k] as int].name && out@[k].color == state.db.tags@[p[k] as int].color
            && out@[k].count == link_count(state.db.entry_tags@, state.db.tags@[p[k] as int].id@) by {
            assert(sorted@[k] == state.db.tags@[p[k] as int]);
        }
        assert forall|a: int, b: int| 0 <= a < b < out@.len() implies text_le(
            (#[trigger] out@[a]).name@,
            (#[trigger] out@[b]).name@,
        ) by {
            assert(out@[a].name == sorted@[a].name);
            assert(out@[b].name == sorted@[b].name);
        }
    }
    Ok(out)
}

} // verus!
