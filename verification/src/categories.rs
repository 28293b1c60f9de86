//! The category tree: listing, creating, renaming or moving, and deleting
//! categories, with the guards that keep the tree consistent.

use vstd::prelude::*;
use crate::auth::{ensure_db_unlocked, locked_msg};
use crate::db::{category_conflicts, category_id_key, category_name_key, DbState};
use crate::ids::{has_uuid_key, is_uuid_text, new_uuid};
use crate::models::{dup_opt_text, dup_text, opt_view, Category, CategoryInput};
use crate::state::{now_secs, AppState};
use crate::table::{
    arranged, has_key, is_perm, lemma_filter_unique, lemma_push_unique, lemma_same_keys_unique,
    sort_order, unique_by, RankKey, SortKey,
};
use crate::text::{decimal_text, str_eq, text_le, trim, trimmed, u64_to_decimal};

verus! {

pub open spec fn empty_name_msg() -> Seq<char> {
    "类别名称不能为空"@
}

pub open spec fn parent_missing_msg() -> Seq<char> {
    "父类别不存在"@
}

pub open spec fn category_exists_msg() -> Seq<char> {
    "类别已存在"@
}

pub open spec fn own_parent_msg() -> Seq<char> {
    "类别不能作为自身的父类"@
}

pub open spec fn category_not_found_msg() -> Seq<char> {
    "类别不存在"@
}

pub open spec fn has_children_msg() -> Seq<char> {
    "该类别下仍有子类别，请先删除"@
}

pub open spec fn has_templates_msg() -> Seq<char> {
    "该类别下仍有模板，请先移动或删除"@
}

pub open spec fn has_entries_msg() -> Seq<char> {
    "该类别下仍有密码条目，无法删除"@
}

/// What rusqlite reports when the next sort position no longer fits an
/// integer (SQLite turns the overflowing sum into a real number).
pub open spec fn sort_overflow_msg() -> Seq<char> {
    "Invalid column type Real at index: 0, name: COALESCE(MAX(sort_order), -1) + 1"@
}

/// The largest sort position among the categories under `parent` (`None`:
/// the top level).
pub open spec fn sibling_max(cats: Seq<Category>, parent: Option<Seq<char>>) -> Option<i64>
    decreases cats.len(),
{
    if cats.len() == 0 {
        None
    } else {
        let rest = sibling_max(cats.drop_last(), parent);
        if opt_view(cats.last().parent_id) == parent {
            match rest {
                None => Some(cats.last().sort_order),
                Some(m) => Some(
                    if m >= cats.last().sort_order {
                        m
                    } else {
                        cats.last().sort_order
                    },
                ),
            }
        } else {
            rest
        }
    }
}

/// The sort position of a new category under `parent`: one past the
/// largest among its siblings, 0 for the first; none when it overflows.
pub open spec fn next_sort(cats: Seq<Category>, parent: Option<Seq<char>>) -> Option<i64> {
    match sibling_max(cats, parent) {
        None => Some(0),
        Some(m) => if m == i64::MAX {
            None
        } else {
            Some((m + 1) as i64)
        },
    }
}

proof fn lemma_sibling_max_is_max(cats: Seq<Category>, parent: Option<Seq<char>>)
    ensures
        sibling_max(cats, parent) is None <==> forall|i: int|
            0 <= i < cats.len() ==> opt_view(#[trigger] cats[i].parent_id) != parent,
        sibling_max(cats, parent) matches Some(m) ==> (forall|i: int|
            0 <= i < cats.len() && opt_view(#[trigger] cats[i].parent_id) == parent ==> cats[i].sort_order <= m)
            && exists|i: int|
            0 <= i < cats.len() && opt_view(#[trigger] cats[i].parent_id) == parent && cats[i].sort_order == m,
    decreases cats.len(),
{
    if cats.len() > 0 {
        let d = cats.drop_last();
        lemma_sibling_max_is_max(d, parent);
        let l = cats.len() - 1;
        assert(cats.last() == cats[l]);
        assert forall|i: int| 0 <= i < d.len() implies #[trigger] cats[i] == d[i] by {}
        match sibling_max(d, parent) {
            Some(m) => {
                let w = choose|i: int|
                    0 <= i < d.len() && opt_view(#[trigger] d[i].parent_id) == parent && d[i].sort_order == m;
                assert(cats[w] == d[w]);
            },
            None => {},
        }
        if opt_view(cats[l].parent_id) != parent {
            assert forall|i: int|
                0 <= i < cats.len() && opt_view(#[trigger] cats[i].parent_id) == parent implies i < l by {}
        }
    }
}

/// Where a new category goes among its siblings (the categories with the
/// same parent): with no sibling at position 0; otherwise one past the
/// largest sibling position, so after every sibling and right behind one
/// of them; none only when a sibling already holds the largest `i64`.
pub proof fn lemma_next_sort_after_siblings(cats: Seq<Category>, parent: Option<Seq<char>>)
    ensures
        (forall|i: int| 0 <= i < cats.len() ==> opt_view(#[trigger] cats[i].parent_id) != parent)
            ==> next_sort(cats, parent) == Some(0i64),
        next_sort(cats, parent) matches Some(s) ==> forall|i: int|
            0 <= i < cats.len() && opt_view(#[trigger] cats[i].parent_id) == parent ==> cats[i].sort_order < s,
        next_sort(cats, parent) matches Some(s) ==> (exists|j: int|
            0 <= j < cats.len() && opt_view(#[trigger] cats[j].parent_id) == parent) ==> exists|i: int|
            0 <= i < cats.len() && opt_view(#[trigger] cats[i].parent_id) == parent && cats[i].sort_order + 1 == s,
        next_sort(cats, parent) is None <==> exists|i: int|
            0 <= i < cats.len() && opt_view(#[trigger] cats[i].parent_id) == parent && cats[i].sort_order
                == i64::MAX,
{
    lemma_sibling_max_is_max(cats, parent);
    match sibling_max(cats, parent) {
        Some(m) => {
            if m != i64::MAX {
                assert forall|i: int|
                    0 <= i < cats.len() && opt_view(#[trigger] cats[i].parent_id) == parent implies cats[i].sort_order
                    != i64::MAX by {}
            }
        },
        None => {},
    }
}

fn same_parent(a: &Option<String>, b: &Option<String>) -> (r: bool)
    ensures
        r == (opt_view(*a) == opt_view(*b)),
{
    match (a, b) {
        (None, None) => true,
        (Some(x), Some(y)) => str_eq(x.as_str(), y.as_str()),
        _ => false,
    }
}

/// The sort position of a new category under `parent`.
pub fn next_sort_order(cats: &Vec<Category>, parent: &Option<String>) -> (r: Option<i64>)
    ensures
        r == next_sort(cats@, opt_view(*parent)),
{
    let n = cats.len();
    let mut cur: Option<i64> = None;
    let mut i: usize = 0;
    assert(cats@.take(0) =~= Seq::<Category>::empty());
    while i < n
        invariant
            n == cats@.len(),
            i <= n,
            cur == sibling_max(cats@.take(i as int), opt_view(*parent)),
        decreases n - i,
    {
        assert(cats@.take(i + 1).drop_last() =~= cats@.take(i as int));
        assert(cats@.take(i + 1).last() == cats@[i as int]);
        if same_parent(&cats[i].parent_id, parent) {
            let s = cats[i].sort_order;
            cur = match cur {
                None => Some(s),
                Some(m) => Some(
                    if m >= s {
                        m
                    } else {
                        s
                    },
                ),
            };
        }
        i = i + 1;
    }
    assert(cats@.take(n as int) =~= cats@);
    match cur {
        None => Some(0),
        Some(m) => if m == i64::MAX {
            None
        } else {
            Some(m + 1)
        },
    }
}

/// The position of the category with a given id, if any.
pub fn find_category(cats: &Vec<Category>, id: &str) -> (r: Option<usize>)
    ensures
        r matches Some(i) ==> i < cats@.len() && cats@[i as int].id@ == id@,
        r is None ==> !has_key(cats@, category_id_key(), id@),
{
    let n = cats.len();
    let mut i: usize = 0;
    while i < n
        invariant
            n == cats@.len(),
            i <= n,
            forall|k: int| 0 <= k < i ==> cats@[k].id@ != id@,
        decreases n - i,
    {
        if str_eq(cats[i].id.as_str(), id) {
            return Some(i);
        }
        i = i + 1;
    }
    None
}

/// The position of the category `id` (ids occur once).
pub open spec fn category_pos(cats: Seq<Category>, id: Seq<char>) -> int {
    choose|i: int| 0 <= i < cats.len() && cats[i].id@ == id
}

/// Some category other than `id` has the name `name`.
pub open spec fn name_taken_by_other(cats: Seq<Category>, id: Seq<char>, name: Seq<char>) -> bool {
    exists|j: int| 0 <= j < cats.len() && cats[j].id@ != id && #[trigger] cats[j].name@ == name
}

fn name_used_elsewhere(cats: &Vec<Category>, id: &str, name: &str) -> (r: bool)
    ensures
        r == name_taken_by_other(cats@, id@, name@),
{
    let n = cats.len();
    let mut i: usize = 0;
    while i < n
        invariant
            n == cats@.len(),
            i <= n,
            forall|k: int| 0 <= k < i ==> !(cats@[k].id@ != id@ && cats@[k].name@ == name@),
        decreases n - i,
    {
        if !str_eq(cats[i].id.as_str(), id) && str_eq(cats[i].name.as_str(), name) {
            return true;
        }
        i = i + 1;
    }
    false
}

fn conflicts_with(cats: &Vec<Category>, id: &str, name: &str) -> (r: bool)
    ensures
        r == category_conflicts(cats@, id@, name@),
{
    let n = cats.len();
    let mut i: usize = 0;
    while i < n
        invariant
            n == cats@.len(),
            i <= n,
            forall|k: int| 0 <= k < i ==> !(cats@[k].id@ == id@ || cats@[k].name@ == name@),
        decreases n - i,
    {
        if str_eq(cats[i].id.as_str(), id) || str_eq(cats[i].name.as_str(), name) {
            return true;
        }
        i = i + 1;
    }
    false
}

/// Every table but the category table is unchanged.
pub open spec fn same_but_categories(a: DbState, b: DbState) -> bool {
    &&& a.master_key == b.master_key
    &&& a.entries == b.entries
    &&& a.tags == b.tags
    &&& a.entry_tags == b.entry_tags
    &&& a.settings == b.settings
    &&& a.otp_entries == b.otp_entries
    &&& a.templates == b.templates
    &&& a.template_fields == b.template_fields
    &&& a.template_categories == b.template_categories
}

/// The category made from a request with a given id, sort position and time.
pub open spec fn category_from(c: Category, input: CategoryInput, id: String, now: String) -> bool {
    &&& c.id == id
    &&& c.parent_id == input.parent_id
    &&& c.name@ == trimmed(input.name@)
    &&& c.icon == input.icon
    &&& c.color == input.color
    &&& c.created_at == now
}

/// The category after an update from a request.
pub open spec fn category_updated(c: Category, old_c: Category, input: CategoryInput) -> bool {
    &&& c.id == old_c.id
    &&& c.parent_id == input.parent_id
    &&& c.name@ == trimmed(input.name@)
    &&& c.icon == input.icon
    &&& c.color == input.color
    &&& c.sort_order == old_c.sort_order
    &&& c.created_at == old_c.created_at
}

impl DbState {
    /// Adds a category from a request with the id `id` and the time `now`:
    /// its name trimmed, placed after its siblings.
    pub fn insert_category(&mut self, input: &CategoryInput, id: String, now: String) -> (r: Result<Category, String>)
        requires
            old(self).wf(),
        ensures
            final(self).wf(),
            same_but_categories(*final(self), *old(self)),
            r is Err ==> *final(self) == *old(self),
            trimmed(input.name@).len() == 0 ==> r is Err && r->Err_0@ == empty_name_msg(),
            trimmed(input.name@).len() > 0 && (input.parent_id matches Some(p) && !has_key(
                old(self).categories@,
                category_id_key(),
                p@,
            )) ==> r is Err && r->Err_0@ == parent_missing_msg(),
            trimmed(input.name@).len() > 0 && !(input.parent_id matches Some(p) && !has_key(
                old(self).categories@,
                category_id_key(),
                p@,
            )) ==> match next_sort(old(self).categories@, opt_view(input.parent_id)) {
                None => r is Err && r->Err_0@ == sort_overflow_msg(),
                Some(sort) => if category_conflicts(
                    old(self).categories@,
                    id@,
                    trimmed(input.name@),
                ) {
                    r is Err && r->Err_0@ == category_exists_msg()
                } else {
                    r is Ok && category_from(r->Ok_0, *input, id, now) && r->Ok_0.sort_order == sort
                        && final(self).categories@ == old(self).categories@.push(r->Ok_0)
                },
            },
    {
        let name = trim(input.name.as_str());
        if name.unicode_len() == 0 {
            return Err(String::from_str("类别名称不能为空"));
        }
        match &input.parent_id {
            Some(p) => {
                if find_category(&self.categories, p.as_str()).is_none() {
                    return Err(String::from_str("父类别不存在"));
                }
            },
            None => {},
        }
        let sort = match next_sort_order(&self.categories, &input.parent_id) {
            Some(s) => s,
            None => {
                return Err(
                    String::from_str(
                        "Invalid column type Real at index: 0, name: COALESCE(MAX(sort_order), -1) + 1",
                    ),
                );
            },
        };
        if conflicts_with(&self.categories, id.as_str(), name.as_str()) {
            return Err(String::from_str("类别已存在"));
        }
        let c = Category {
            id,
            parent_id: dup_opt_text(&input.parent_id),
            name,
            icon: dup_opt_text(&input.icon),
            color: dup_opt_text(&input.color),
            sort_order: sort,
            created_at: now,
        };
        let ret = c.duplicate();
        proof {
            lemma_push_unique(self.categories@, c, category_id_key());
            lemma_push_unique(self.categories@, c, category_name_key());
        }
        self.categories.push(c);
        Ok(ret)
    }

    /// Renames, moves or recolors the category `id` and returns it.
    pub fn change_category(&mut self, id: &str, input: &CategoryInput) -> (r: Result<Category, String>)
        requires
            old(self).wf(),
        ensures
            final(self).wf(),
            same_but_categories(*final(self), *old(self)),
            r is Err ==> *final(self) == *old(self),
            trimmed(input.name@).len() == 0 ==> r is Err && r->Err_0@ == empty_name_msg(),
            trimmed(input.name@).len() > 0 && opt_view(input.parent_id) == Some(id@) ==> r is Err
                && r->Err_0@ == own_parent_msg(),
            trimmed(input.name@).len() > 0 && opt_view(input.parent_id) != Some(id@) && !has_key(
                old(self).categories@,
                category_id_key(),
                id@,
            ) ==> r is Err && r->Err_0@ == category_not_found_msg(),
            trimmed(input.name@).len() > 0 && opt_view(input.parent_id) != Some(id@)
                && has_key(old(self).categories@, category_id_key(), id@) && name_taken_by_other(
                old(self).categories@,
                id@,
                trimmed(input.name@),
            ) ==> r is Err && r->Err_0@ == category_exists_msg(),
            trimmed(input.name@).len() > 0 && opt_view(input.parent_id) != Some(id@)
                && has_key(old(self).categories@, category_id_key(), id@) && !name_taken_by_other(
                old(self).categories@,
                id@,
                trimmed(input.name@),
            ) ==> r is Ok && category_updated(
                r->Ok_0,
                old(self).categories@[category_pos(old(self).categories@, id@)],
                *input,
            ) && final(self).categories@ == old(self).categories@.update(
                category_pos(old(self).categories@, id@),
                r->Ok_0,
            ),
    {
        let name = trim(input.name.as_str());
        if name.unicode_len() == 0 {
            return Err(String::from_str("类别名称不能为空"));
        }
        match &input.parent_id {
            Some(p) => {
                if str_eq(p.as_str(), id) {
                    return Err(String::from_str("类别不能作为自身的父类"));
                }
            },
            None => {},
        }
        let i = match find_category(&self.categories, id) {
            Some(i) => i,
            None => {
                return Err(String::from_str("类别不存在"));
            },
        };
        if name_used_elsewhere(&self.categories, id, name.as_str()) {
            return Err(String::from_str("类别已存在"));
        }
        let c = Category {
            id: dup_text(&self.categories[i].id),
            parent_id: dup_opt_text(&input.parent_id),
            name,
            icon: dup_opt_text(&input.icon),
            color: dup_opt_text(&input.color),
            sort_order: self.categories[i].sort_order,
            created_at: dup_text(&self.categories[i].created_at),
        };
        let ret = c.duplicate();
        let ghost before = self.categories@;
        self.categories.set(i, c);
        assert(self.categories@ == before.update(i as int, ret));
        assert(category_updated(ret, before[i as int], *input));
        assert(before == old(self).categories@);
        assert(category_pos(before, id@) == i) by {
            let j = category_pos(before, id@);
            assert(0 <= i < before.len() && before[i as int].id@ == id@);
            if j != i {
                assert(category_id_key()(before[j]) == category_id_key()(before[i as int]));
            }
        }
        proof {
            lemma_same_keys_unique(before, self.categories@, category_id_key());
            assert forall|a: int, b: int|
                0 <= a < self.categories@.len() && 0 <= b < self.categories@.len() && a
                    != b implies category_name_key()(self.categories@[a]) != category_name_key()(
                self.categories@[b],
            ) by {
                if a == i {
                    assert(before[b].id@ != id@);
                } else if b == i {
                    assert(before[a].id@ != id@);
                }
            }
        }
        Ok(ret)
    }
}

/// Some category has `id` as its parent.
pub open spec fn has_children(cats: Seq<Category>, id: Seq<char>) -> bool {
    exists|i: int| 0 <= i < cats.len() && opt_view(#[trigger] cats[i].parent_id) == Some(id)
}

/// Some template belongs to the category `id`.
pub open spec fn has_templates(db: DbState, id: Seq<char>) -> bool {
    exists|i: int| 0 <= i < db.templates@.len() && #[trigger] db.templates@[i].category_id@ == id
}

/// Some entry not in the trash belongs to the category `id`.
pub open spec fn has_live_entries(db: DbState, id: Seq<char>) -> bool {
    exists|i: int|
        0 <= i < db.entries@.len() && #[trigger] db.entries@[i].category@ == id
            && db.entries@[i].deleted_at is None
}

fn any_child(cats: &Vec<Category>, id: &str) -> (r: bool)
    ensures
        r == has_children(cats@, id@),
{
    let n = cats.len();
    let mut i: usize = 0;
    while i < n
        invariant
            n == cats@.len(),
            i <= n,
            forall|k: int| 0 <= k < i ==> opt_view(cats@[k].parent_id) != Some(id@),
        decreases n - i,
    {
        match &cats[i].parent_id {
            Some(p) => {
                if str_eq(p.as_str(), id) {
                    return true;
                }
            },
            None => {},
        }
        i = i + 1;
    }
    false
}

fn any_template_in(db: &DbState, id: &str) -> (r: bool)
    ensures
        r == has_templates(*db, id@),
{
    let n = db.templates.len();
    let mut i: usize = 0;
    while i < n
        invariant
            n == db.templates@.len(),
            i <= n,
            forall|k: int| 0 <= k < i ==> db.templates@[k].category_id@ != id@,
        decreases n - i,
    {
        if str_eq(db.templates[i].category_id.as_str(), id) {
            return true;
        }
        i = i + 1;
    }
    false
}

fn any_live_entry_in(db: &DbState, id: &str) -> (r: bool)
    ensures
        r == has_live_entries(*db, id@),
{
    let n = db.entries.len();
    let mut i: usize = 0;
    while i < n
        invariant
            n == db.entries@.len(),
            i <= n,
            forall|k: int| 0 <= k < i ==> !(db.entries@[k].category@ == id@ && db.entries@[k].deleted_at is None),
        decreases n - i,
    {
        if str_eq(db.entries[i].category.as_str(), id) && db.entries[i].deleted_at.is_none() {
            return true;
        }
        i = i + 1;
    }
    false
}

/// Removes the category rows with a given id.
#[verifier::loop_isolation(false)]
pub fn remove_category_rows(cats: &mut Vec<Category>, id: &str)
    requires
        unique_by(old(cats)@, category_id_key()),
        unique_by(old(cats)@, category_name_key()),
    ensures
        unique_by(final(cats)@, category_id_key()),
        unique_by(final(cats)@, category_name_key()),
        final(cats)@ == old(cats)@.filter(|c: Category| c.id@ != id@),
{
    let ghost pred = |c: Category| c.id@ != id@;
    let mut kept: Vec<Category> = Vec::new();
    let n = cats.len();
    let mut i: usize = 0;
    assert(cats@.take(0) =~= Seq::<Category>::empty());
    while i < n
        invariant
            n == cats@.len(),
            i <= n,
            kept@ == cats@.take(i as int).filter(pred),
        decreases n - i,
    {
        assert(cats@.take(i + 1) =~= cats@.take(i as int).push(cats@[i as int]));
        proof {
            cats@.take(i as int).lemma_filter_push(cats@[i as int], pred);
        }
        if !str_eq(cats[i].id.as_str(), id) {
            kept.push(cats[i].duplicate());
        }
        i = i + 1;
    }
    assert(cats@.take(n as int) =~= cats@);
    proof {
        lemma_filter_unique(cats@, pred, category_id_key());
        lemma_filter_unique(cats@, pred, category_name_key());
    }
    *cats = kept;
}

/// What creating a category from `input` does to the vault `before`,
/// leaving `after` and answering `r`.
pub open spec fn create_category_outcome(
    before: DbState,
    after: DbState,
    input: CategoryInput,
    r: Result<Category, String>,
) -> bool {
    let name = trimmed(input.name@);
    let parent_missing = input.parent_id matches Some(p) && !has_key(
        before.categories@,
        category_id_key(),
        p@,
    );
    &&& after.wf()
    &&& same_but_categories(after, before)
    &&& r is Err ==> after == before
    &&& name.len() == 0 ==> r is Err && r->Err_0@ == empty_name_msg()
    &&& name.len() > 0 && parent_missing ==> r is Err && r->Err_0@ == parent_missing_msg()
    &&& name.len() > 0 && !parent_missing ==> match next_sort(
        before.categories@,
        opt_view(input.parent_id),
    ) {
        None => r is Err && r->Err_0@ == sort_overflow_msg(),
        Some(sort) => (has_key(before.categories@, category_name_key(), name) ==> r is Err
            && r->Err_0@ == category_exists_msg()) && (r is Err ==> r->Err_0@ == category_exists_msg()
            && (has_key(before.categories@, category_name_key(), name) || has_uuid_key(
            before.categories@,
            category_id_key(),
        ))) && (!has_key(before.categories@, category_name_key(), name) && !has_uuid_key(
            before.categories@,
            category_id_key(),
        ) ==> r is Ok)
            && (r is Ok ==> is_uuid_text(r->Ok_0.id@) && r->Ok_0.sort_order == sort && category_from(
            r->Ok_0,
            input,
            r->Ok_0.id,
            r->Ok_0.created_at,
        ) && (exists|t: u64| r->Ok_0.created_at@ == #[trigger] decimal_text(t as nat))
            && after.categories@ == before.categories@.push(r->Ok_0)),
    }
}

/// What updating the category `id` from `input` does to the vault.
pub open spec fn update_category_outcome(
    before: DbState,
    after: DbState,
    id: Seq<char>,
    input: CategoryInput,
    r: Result<Category, String>,
) -> bool {
    let name = trimmed(input.name@);
    let cats = before.categories@;
    &&& after.wf()
    &&& same_but_categories(after, before)
    &&& r is Err ==> after == before
    &&& name.len() == 0 ==> r is Err && r->Err_0@ == empty_name_msg()
    &&& name.len() > 0 && opt_view(input.parent_id) == Some(id) ==> r is Err && r->Err_0@
        == own_parent_msg()
    &&& name.len() > 0 && opt_view(input.parent_id) != Some(id) && !has_key(
        cats,
        category_id_key(),
        id,
    ) ==> r is Err && r->Err_0@ == category_not_found_msg()
    &&& name.len() > 0 && opt_view(input.parent_id) != Some(id) && has_key(
        cats,
        category_id_key(),
        id,
    ) && name_taken_by_other(cats, id, name) ==> r is Err && r->Err_0@ == category_exists_msg()
    &&& name.len() > 0 && opt_view(input.parent_id) != Some(id) && has_key(
        cats,
        category_id_key(),
        id,
    ) && !name_taken_by_other(cats, id, name) ==> r is Ok && category_updated(
        r->Ok_0,
        cats[category_pos(cats, id)],
        input,
    ) && after.categories@ == cats.update(category_pos(cats, id), r->Ok_0)
}

/// What deleting the category `id` does to the vault.
pub open spec fn delete_category_outcome(
    before: DbState,
    after: DbState,
    id: Seq<char>,
    r: Result<(), String>,
) -> bool {
    let children = has_children(before.categories@, id);
    &&& after.wf()
    &&& same_but_categories(after, before)
    &&& r is Err ==> after == before
    &&& children ==> r is Err && r->Err_0@ == has_children_msg()
    &&& !children && has_templates(before, id) ==> r is Err && r->Err_0@ == has_templates_msg()
    &&& !children && !has_templates(before, id) && has_live_entries(before, id) ==> r is Err
        && r->Err_0@ == has_entries_msg()
    &&& !children && !has_templates(before, id) && !has_live_entries(before, id) ==> r is Ok
        && after.categories@ == before.categories@.filter(|c: Category| c.id@ != id)
}

/// Creates a category from a request, with a fresh id and the current time.
pub fn create_category_db(db: &mut DbState, input: CategoryInput) -> (r: Result<Category, String>)
    requires
        old(db).wf(),
    ensures
        create_category_outcome(*old(db), *final(db), input, r),
{
    let id = new_uuid();
    let now = u64_to_decimal(now_secs());
    let ghost gid = id;
    let r = db.insert_category(&input, id, now);
    proof {
        if has_key(old(db).categories@, category_name_key(), trimmed(input.name@)) {
            let j = choose|j: int|
                0 <= j < old(db).categories@.len() && category_name_key()(old(db).categories@[j])
                    == trimmed(input.name@);
            assert(category_conflicts(old(db).categories@, gid@, trimmed(input.name@)));
        }
        if r is Err && category_conflicts(old(db).categories@, gid@, trimmed(input.name@))
            && !has_key(old(db).categories@, category_name_key(), trimmed(input.name@)) {
            let j = choose|j: int|
                0 <= j < old(db).categories@.len() && (old(db).categories@[j].id@ == gid@
                    || old(db).categories@[j].name@ == trimmed(input.name@));
            assert(category_name_key()(old(db).categories@[j]) != trimmed(input.name@));
            assert(is_uuid_text(category_id_key()(old(db).categories@[j])));
        }
    }
    r
}

/// The category `id` as stored.
pub fn load_category(db: &DbState, id: &str) -> (r: Result<Category, String>)
    requires
        db.wf(),
    ensures
        has_key(db.categories@, category_id_key(), id@) ==> r is Ok && r->Ok_0
            == db.categories@[category_pos(db.categories@, id@)],
        !has_key(db.categories@, category_id_key(), id@) ==> r is Err && r->Err_0@
            == category_not_found_msg(),
{
    match find_category(&db.categories, id) {
        Some(i) => {
            proof {
                let j = category_pos(db.categories@, id@);
                if j != i {
                    assert(category_id_key()(db.categories@[j]) == category_id_key()(db.categories@[i as int]));
                }
            }
            Ok(db.categories[i].duplicate())
        },
        None => Err(String::from_str("类别不存在")),
    }
}

/// Renames, moves or recolors the category `id`; returns it as stored.
pub fn update_category_db(db: &mut DbState, id: String, input: CategoryInput) -> (r: Result<Category, String>)
    requires
        old(db).wf(),
    ensures
        update_category_outcome(*old(db), *final(db), id@, input, r),
{
    let changed = db.change_category(id.as_str(), &input)?;
    proof {
        let cats = old(db).categories@;
        let pos = category_pos(cats, id@);
        assert(db.categories@[pos] == changed);
        let q = category_pos(db.categories@, id@);
        assert(0 <= pos < db.categories@.len() && db.categories@[pos].id@ == id@);
        if q != pos {
            assert(category_id_key()(db.categories@[q]) == category_id_key()(db.categories@[pos]));
        }
    }
    load_category(db, id.as_str())
}

/// Deletes the category `id`, unless it still has subcategories, templates
/// or entries outside the trash.
pub fn delete_category_db(db: &mut DbState, id: String) -> (r: Result<(), String>)
    requires
        old(db).wf(),
    ensures
        delete_category_outcome(*old(db), *final(db), id@, r),
{
    if any_child(&db.categories, id.as_str()) {
        return Err(String::from_str("该类别下仍有子类别，请先删除"));
    }
    if any_template_in(db, id.as_str()) {
        return Err(String::from_str("该类别下仍有模板，请先移动或删除"));
    }
    if any_live_entry_in(db, id.as_str()) {
        return Err(String::from_str("该类别下仍有密码条目，无法删除"));
    }
    remove_category_rows(&mut db.categories, id.as_str());
    Ok(())
}

/// The categories ordered by sort position, then by creation time.
pub open spec fn categories_in_order(r: Seq<Category>, cats: Seq<Category>) -> bool {
    &&& arranged(r, cats)
    &&& forall|a: int, b: int|
        0 <= a < b < r.len() ==> (#[trigger] r[a]).sort_order < (#[trigger] r[b]).sort_order || (
        r[a].sort_order == r[b].sort_order && text_le(r[a].created_at@, r[b].created_at@))
}

/// The categories ordered by sort position, then by creation time.
pub fn list_categories_db(db: &DbState) -> (r: Result<Vec<Category>, String>)
    ensures
        r is Ok && categories_in_order(r->Ok_0@, db.categories@),
{
    let cats = &db.categories;
    let n = cats.len();
    let mut keys: Vec<RankKey> = Vec::new();
    let mut i: usize = 0;
    while i < n
        invariant
            n == cats@.len(),
            i <= n,
            keys@.len() == i,
            forall|k: int|
                0 <= k < i ==> keys@[k].rank == cats@[k].sort_order && keys@[k].stamp == cats@[k].created_at,
        decreases n - i,
    {
        keys.push(RankKey { rank: cats[i].sort_order, stamp: dup_text(&cats[i].created_at) });
        i = i + 1;
    }
    let perm = sort_order(&keys);
    let mut out: Vec<Category> = Vec::new();
    let mut j: usize = 0;
    while j < n
        invariant
            n == cats@.len(),
            n == keys@.len(),
            is_perm(perm@, n as int),
            j <= n,
            out@.len() == j,
            forall|k: int| 0 <= k < j ==> out@[k] == cats@[#[trigger] perm@[k] as int],
        decreases n - j,
    {
        out.push(cats[perm[j]].duplicate());
        j = j + 1;
    }
    proof {
        assert forall|a: int, b: int| 0 <= a < b < out@.len() implies (#[trigger] out@[a]).sort_order
            < (#[trigger] out@[b]).sort_order || (out@[a].sort_order == out@[b].sort_order && text_le(
            out@[a].created_at@,
            out@[b].created_at@,
        )) by {
            assert(keys@[perm@[a] as int].key_le(keys@[perm@[b] as int]));
        }
    }
    Ok(out)
}

/// The categories, in order (see [`list_categories_db`]).
pub fn list_categories(state: &AppState) -> (r: Result<Vec<Category>, String>)
    ensures
        state.crypto_key is None ==> r is Err && r->Err_0@ == locked_msg(),
        state.crypto_key is Some ==> r is Ok && categories_in_order(r->Ok_0@, state.db.categories@),
{
    ensure_db_unlocked(state)?;
    list_categories_db(&state.db)
}

/// Creates a category (see [`create_category_db`]).
pub fn create_category(state: &mut AppState, input: CategoryInput) -> (r: Result<Category, String>)
    requires
        old(state).db.wf(),
    ensures
        final(state).crypto_key == old(state).crypto_key,
        final(state).last_activity == old(state).last_activity,
        old(state).crypto_key is None ==> r is Err && r->Err_0@ == locked_msg() && final(state).db
            == old(state).db,
        old(state).crypto_key is Some ==> create_category_outcome(old(state).db, final(state).db, input, r),
{
    ensure_db_unlocked(state)?;
    create_category_db(&mut state.db, input)
}

/// Renames, moves or recolors a category (see [`update_category_db`]).
pub fn update_category(state: &mut AppState, id: String, input: CategoryInput) -> (r: Result<Category, String>)
    requires
        old(state).db.wf(),
    ensures
        final(state).crypto_key == old(state).crypto_key,
        final(state).last_activity == old(state).last_activity,
        old(state).crypto_key is None ==> r is Err && r->Err_0@ == locked_msg() && final(state).db
            == old(state).db,
        old(state).crypto_key is Some ==> update_category_outcome(
            old(state).db,
            final(state).db,
            id@,
            input,
            r,
        ),
{
    ensure_db_unlocked(state)?;
    update_category_db(&mut state.db, id, input)
}

/// Deletes a category (see [`delete_category_db`]).
pub fn delete_category(state: &mut AppState, id: String) -> (r: Result<(), String>)
    requires
        old(state).db.wf(),
    ensures
        final(state).crypto_key == old(state).crypto_key,
        final(state).last_activity == old(state).last_activity,
        old(state).crypto_key is None ==> r is Err && r->Err_0@ == locked_msg() && final(state).db
            == old(state).db,
        old(state).crypto_key is Some ==> delete_category_outcome(old(state).db, final(state).db, id@, r),
{
    ensure_db_unlocked(state)?;
    delete_category_db(&mut state.db, id)
}

} // verus!
