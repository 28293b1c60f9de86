//! The template library: validating template requests, loading templates
//! with their fields in order, and creating, updating and deleting the
//! templates users made (the built-in ones cannot be changed).

use vstd::prelude::*;
use crate::auth::{ensure_db_unlocked, locked_msg};
use crate::categories::find_category;
use crate::db::{category_id_key, field_key, template_key, DbState};
use crate::models::{
    dup_opt_text, dup_text, field_types, validate_field_type, Category, Template, TemplateField,
    TemplateFieldInput, TemplateFieldRecord, TemplateInput, TemplateRecord,
};
use crate::ids::{has_uuid_key, is_uuid_text, lemma_uuid_key_in_prefix, lemma_uuid_key_taken, new_uuid};
use crate::state::{now_secs, AppState};
use crate::table::{
    extends, has_key, is_perm, lemma_filter_unique, lemma_push_unique, lemma_same_keys_unique,
    sort_order, unique_by, SortKey,
};
use crate::text::{
    concat_text, decimal_text, has_prefix, starts_with, str_eq, text_le, trim, trimmed,
    u64_to_decimal,
};

verus! {

pub open spec fn template_name_empty_msg() -> Seq<char> {
    "模板名称不能为空"@
}

pub open spec fn template_category_missing_msg() -> Seq<char> {
    "模板类别不存在"@
}

pub open spec fn template_no_fields_msg() -> Seq<char> {
    "模板至少需要一个字段"@
}

pub open spec fn field_name_empty_msg() -> Seq<char> {
    "字段名称不能为空"@
}

pub open spec fn template_not_found_msg() -> Seq<char> {
    "模板不存在"@
}

pub open spec fn builtin_not_editable_msg() -> Seq<char> {
    "内置模板不可编辑"@
}

pub open spec fn builtin_not_deletable_msg() -> Seq<char> {
    "内置模板不可删除"@
}

/// The id prefix of the built-in templates.
pub open spec fn builtin_prefix() -> Seq<char> {
    "tmpl-"@
}

/// The error of the field at position `k`, given the fields before it
/// passed: an empty name, a name (trimmed) that an earlier field has, or an
/// unknown field type.
pub open spec fn field_error(fields: Seq<TemplateFieldInput>, k: int) -> Option<Seq<char>> {
    let f = fields[k];
    if trimmed(f.name@).len() == 0 {
        Some(field_name_empty_msg())
    } else if exists|j: int| 0 <= j < k && #[trigger] trimmed(fields[j].name@) == trimmed(f.name@) {
        Some("字段名重复: "@ + f.name@)
    } else if !field_types().contains(f.field_type@) {
        Some("不支持的字段类型: "@ + f.field_type@)
    } else {
        None
    }
}

/// The error of the first field that fails, if any.
pub open spec fn first_field_error(fields: Seq<TemplateFieldInput>, n: int) -> Option<Seq<char>>
    decreases n,
{
    if n <= 0 {
        None
    } else {
        match first_field_error(fields, n - 1) {
            Some(e) => Some(e),
            None => field_error(fields, n - 1),
        }
    }
}

/// Once some field fails, later fields change nothing.
proof fn lemma_first_field_error_stays(fields: Seq<TemplateFieldInput>, n: int, m: int)
    requires
        0 <= n <= m,
        first_field_error(fields, n) is Some,
    ensures
        first_field_error(fields, m) == first_field_error(fields, n),
    decreases m - n,
{
    if m > n {
        lemma_first_field_error_stays(fields, n, m - 1);
    }
}

proof fn lemma_no_field_error_below(fields: Seq<TemplateFieldInput>, n: int)
    requires
        0 <= n,
        first_field_error(fields, n) is None,
    ensures
        forall|k: int| 0 <= k < n ==> #[trigger] field_error(fields, k) is None,
    decreases n,
{
    if n > 0 {
        lemma_no_field_error_below(fields, n - 1);
    }
}

proof fn lemma_no_field_error_upto(fields: Seq<TemplateFieldInput>, n: int)
    requires
        0 <= n <= fields.len(),
        forall|k: int| 0 <= k < n ==> #[trigger] field_error(fields, k) is None,
    ensures
        first_field_error(fields, n) is None,
    decreases n,
{
    if n > 0 {
        lemma_no_field_error_upto(fields, n - 1);
        assert(field_error(fields, n - 1) is None);
    }
}

/// A template request is accepted exactly when its name is not blank, its
/// category exists, it has a field, every field has a non-blank name and a
/// known type, and no two fields, at any positions, have the same trimmed
/// name; a request with two fields of the same trimmed name is refused.
pub proof fn lemma_accepted_template_input(cats: Seq<Category>, input: TemplateInput)
    ensures
        template_input_error(cats, input) is None ==> {
            &&& trimmed(input.name@).len() > 0
            &&& has_key(cats, category_id_key(), input.category_id@)
            &&& input.fields@.len() > 0
            &&& forall|k: int|
                0 <= k < input.fields@.len() ==> trimmed((#[trigger] input.fields@[k]).name@).len() > 0
                    && field_types().contains(input.fields@[k].field_type@)
            &&& forall|i: int, k: int|
                0 <= i < k < input.fields@.len() ==> trimmed((#[trigger] input.fields@[i]).name@)
                    != trimmed((#[trigger] input.fields@[k]).name@)
        },
        (exists|i: int, k: int|
            0 <= i < k < input.fields@.len() && trimmed((#[trigger] input.fields@[i]).name@) == trimmed(
                (#[trigger] input.fields@[k]).name@,
            )) ==> template_input_error(cats, input) is Some,
        ({
            &&& trimmed(input.name@).len() > 0
            &&& has_key(cats, category_id_key(), input.category_id@)
            &&& input.fields@.len() > 0
            &&& forall|k: int|
                0 <= k < input.fields@.len() ==> trimmed((#[trigger] input.fields@[k]).name@).len() > 0
                    && field_types().contains(input.fields@[k].field_type@)
            &&& forall|i: int, k: int|
                0 <= i < k < input.fields@.len() ==> trimmed((#[trigger] input.fields@[i]).name@)
                    != trimmed((#[trigger] input.fields@[k]).name@)
        }) ==> template_input_error(cats, input) is None,
{
    let fields = input.fields@;
    if forall|k: int|
        0 <= k < fields.len() ==> trimmed((#[trigger] fields[k]).name@).len() > 0
            && field_types().contains(fields[k].field_type@) {
        if forall|i: int, k: int|
            0 <= i < k < fields.len() ==> trimmed((#[trigger] fields[i]).name@) != trimmed(
                (#[trigger] fields[k]).name@,
            ) {
            assert forall|k: int| 0 <= k < fields.len() implies #[trigger] field_error(fields, k) is None by {
                if exists|j: int| 0 <= j < k && #[trigger] trimmed(fields[j].name@) == trimmed(fields[k].name@) {
                    let j = choose|j: int| 0 <= j < k && #[trigger] trimmed(fields[j].name@) == trimmed(fields[k].name@);
                    assert(trimmed(fields[j].name@) != trimmed(fields[k].name@));
                }
            }
            lemma_no_field_error_upto(fields, fields.len() as int);
        }
    }
    if template_input_error(cats, input) is None {
        lemma_no_field_error_below(fields, fields.len() as int);
        assert forall|k: int| 0 <= k < fields.len() implies trimmed((#[trigger] fields[k]).name@).len() > 0
            && field_types().contains(fields[k].field_type@) by {
            assert(field_error(fields, k) is None);
        }
        assert forall|i: int, k: int| 0 <= i < k < fields.len() implies trimmed((#[trigger] fields[i]).name@)
            != trimmed((#[trigger] fields[k]).name@) by {
            assert(field_error(fields, k) is None);
            if trimmed(fields[i].name@) == trimmed(fields[k].name@) {
                assert(exists|j: int| 0 <= j < k && #[trigger] trimmed(fields[j].name@) == trimmed(fields[k].name@));
            }
        }
    }
}

/// Why a template request is refused, if it is: an empty name, a category
/// that does not exist, no fields, or a failing field.
pub open spec fn template_input_error(cats: Seq<Category>, input: TemplateInput) -> Option<Seq<char>> {
    if trimmed(input.name@).len() == 0 {
        Some(template_name_empty_msg())
    } else if !has_key(cats, category_id_key(), input.category_id@) {
        Some(template_category_missing_msg())
    } else if input.fields@.len() == 0 {
        Some(template_no_fields_msg())
    } else {
        first_field_error(input.fields@, input.fields@.len() as int)
    }
}

/// Checks a template request (see [`template_input_error`]).
#[verifier::loop_isolation(false)]
pub fn validate_template_input(db: &DbState, input: &TemplateInput) -> (r: Result<(), String>)
    ensures
        match template_input_error(db.categories@, *input) {
            None => r is Ok,
            Some(e) => r is Err && r->Err_0@ == e,
        },
{
    let name = trim(input.name.as_str());
    if name.unicode_len() == 0 {
        return Err(String::from_str("模板名称不能为空"));
    }
    if find_category(&db.categories, input.category_id.as_str()).is_none() {
        return Err(String::from_str("模板类别不存在"));
    }
    let n = input.fields.len();
    if n == 0 {
        return Err(String::from_str("模板至少需要一个字段"));
    }
    let mut seen: Vec<String> = Vec::new();
    let mut k: usize = 0;
    while k < n
        invariant
            n == input.fields@.len(),
            k <= n,
            seen@.len() == k,
            forall|j: int| 0 <= j < k ==> #[trigger] seen@[j]@ == trimmed(input.fields@[j].name@),
            first_field_error(input.fields@, k as int) is None,
        decreases n - k,
    {
        let f = &input.fields[k];
        let t = trim(f.name.as_str());
        if t.unicode_len() == 0 {
            proof {
                lemma_first_field_error_stays(input.fields@, k + 1, n as int);
            }
            return Err(String::from_str("字段名称不能为空"));
        }
        let mut j: usize = 0;
        while j < k
            invariant
                k < n,
                n == input.fields@.len(),
                seen@.len() == k,
                j <= k,
                t@ == trimmed(input.fields@[k as int].name@),
                forall|q: int| 0 <= q < k ==> #[trigger] seen@[q]@ == trimmed(input.fields@[q].name@),
                forall|q: int| 0 <= q < j ==> trimmed(input.fields@[q].name@) != t@,
            decreases k - j,
        {
            if str_eq(seen[j].as_str(), t.as_str()) {
                assert(trimmed(input.fields@[j as int].name@) == trimmed(input.fields@[k as int].name@));
                proof {
                    lemma_first_field_error_stays(input.fields@, k + 1, n as int);
                }
                return Err(concat_text("字段名重复: ", f.name.as_str()));
            }
            j = j + 1;
        }
        if !validate_field_type(f.field_type.as_str()) {
            proof {
                lemma_first_field_error_stays(input.fields@, k + 1, n as int);
            }
            return Err(concat_text("不支持的字段类型: ", f.field_type.as_str()));
        }
        seen.push(t);
        k = k + 1;
    }
    Ok(())
}

/// The fields of a template as loaded: the template's field rows ordered by
/// their sort position (rows with equal positions keep the table order).
pub open spec fn fields_in_order(r: Seq<TemplateField>, rows: Seq<TemplateFieldRecord>, template_id: Seq<char>) -> bool {
    let own = rows.filter(|f: TemplateFieldRecord| f.template_id@ == template_id);
    exists|p: Seq<usize>|
        is_perm(p, own.len() as int) && r.len() == own.len() && (forall|k: int|
            0 <= k < r.len() ==> field_of_record(r[k], #[trigger] own[p[k] as int])) && (forall|
            a: int,
            b: int,
        |
            0 <= a < b < r.len() ==> #[trigger] own[p[a] as int].sort_order <= #[trigger] own[p[b] as int].sort_order)
}

/// A template field shows the name, type and secrecy of its row.
pub open spec fn field_of_record(f: TemplateField, rec: TemplateFieldRecord) -> bool {
    f.name == rec.name && f.field_type == rec.field_type && f.secret == rec.secret
}

/// The position of the template `id` (ids occur once).
pub open spec fn template_pos(ts: Seq<TemplateRecord>, id: Seq<char>) -> int {
    choose|i: int| 0 <= i < ts.len() && ts[i].id@ == id
}

/// The position of the category `id` (ids occur once).
pub open spec fn cat_pos(cs: Seq<Category>, id: Seq<char>) -> int {
    choose|i: int| 0 <= i < cs.len() && cs[i].id@ == id
}

/// The template `id` can be loaded: it exists and so does its category.
pub open spec fn template_loadable(db: DbState, id: Seq<char>) -> bool {
    has_key(db.templates@, template_key(), id) && has_key(
        db.categories@,
        category_id_key(),
        db.templates@[template_pos(db.templates@, id)].category_id@,
    )
}

/// `t` is the template `id` of the vault as loaded: its row, its category's
/// name, its fields in order, and whether it is built in.
pub open spec fn template_loaded(db: DbState, id: Seq<char>, t: Template) -> bool {
    let row = db.templates@[template_pos(db.templates@, id)];
    &&& t.id == row.id
    &&& t.category_id == row.category_id
    &&& t.category_name == db.categories@[cat_pos(db.categories@, row.category_id@)].name
    &&& t.name == row.name
    &&& t.icon == row.icon
    &&& t.note == row.note
    &&& t.created_at == row.created_at
    &&& t.updated_at == row.updated_at
    &&& t.is_builtin == has_prefix(row.id@, builtin_prefix())
    &&& fields_in_order(t.fields@, db.template_fields@, id)
}

fn find_template(ts: &Vec<TemplateRecord>, id: &str) -> (r: Option<usize>)
    ensures
        r matches Some(i) ==> i < ts@.len() && ts@[i as int].id@ == id@,
        r is None ==> !has_key(ts@, template_key(), id@),
{
    let n = ts.len();
    let mut i: usize = 0;
    while i < n
        invariant
            n == ts@.len(),
            i <= n,
            forall|k: int| 0 <= k < i ==> ts@[k].id@ != id@,
        decreases n - i,
    {
        if str_eq(ts[i].id.as_str(), id) {
            return Some(i);
        }
        i = i + 1;
    }
    None
}

/// The field rows of a template, in table order.
fn own_fields(rows: &Vec<TemplateFieldRecord>, template_id: &str) -> (r: Vec<TemplateFieldRecord>)
    ensures
        r@ == rows@.filter(|f: TemplateFieldRecord| f.template_id@ == template_id@),
{
    let ghost pred = |f: TemplateFieldRecord| f.template_id@ == template_id@;
    let mut out: Vec<TemplateFieldRecord> = Vec::new();
    let n = rows.len();
    let mut i: usize = 0;
    assert(rows@.take(0) =~= Seq::<TemplateFieldRecord>::empty());
    while i < n
        invariant
            n == rows@.len(),
            i <= n,
            out@ == rows@.take(i as int).filter(pred),
            pred == (|f: TemplateFieldRecord| f.template_id@ == template_id@),
        decreases n - i,
    {
        assert(rows@.take(i + 1) =~= rows@.take(i as int).push(rows@[i as int]));
        proof {
            rows@.take(i as int).lemma_filter_push(rows@[i as int], pred);
        }
        if str_eq(rows[i].template_id.as_str(), template_id) {
            out.push(rows[i].duplicate());
        }
        i = i + 1;
    }
    assert(rows@.take(n as int) =~= rows@);
    out
}

/// The fields of a template, ordered by sort position.
pub fn template_fields_of(db: &DbState, template_id: &str) -> (r: Vec<TemplateField>)
    ensures
        fields_in_order(r@, db.template_fields@, template_id@),
{
    let own = own_fields(&db.template_fields, template_id);
    let n = own.len();
    let mut keys: Vec<i64> = Vec::new();
    let mut i: usize = 0;
    while i < n
        invariant
            n == own@.len(),
            i <= n,
            keys@.len() == i,
            forall|k: int| 0 <= k < i ==> keys@[k] == own@[k].sort_order,
        decreases n - i,
    {
        keys.push(own[i].sort_order);
        i = i + 1;
    }
    let perm = sort_order(&keys);
    let mut out: Vec<TemplateField> = Vec::new();
    let mut j: usize = 0;
    while j < n
        invariant
            n == own@.len(),
            n == keys@.len(),
            is_perm(perm@, n as int),
            j <= n,
            out@.len() == j,
            forall|k: int| 0 <= k < j ==> field_of_record(out@[k], #[trigger] own@[perm@[k] as int]),
        decreases n - j,
    {
        let rec = &own[perm[j]];
        out.push(
            TemplateField {
                name: dup_text(&rec.name),
                field_type: dup_text(&rec.field_type),
                secret: rec.secret,
            },
        );
        j = j + 1;
    }
    proof {
        assert forall|a: int, b: int| 0 <= a < b < out@.len() implies #[trigger] own@[perm@[a] as int].sort_order
            <= #[trigger] own@[perm@[b] as int].sort_order by {
            assert(keys@[perm@[a] as int].key_le(keys@[perm@[b] as int]));
        }
    }
    out
}

/// Loads the template `id` with its category's name and its fields in order.
pub fn load_template(db: &DbState, id: &str) -> (r: Result<Template, String>)
    requires
        db.wf(),
    ensures
        template_loadable(*db, id@) ==> r is Ok && template_loaded(*db, id@, r->Ok_0),
        !template_loadable(*db, id@) ==> r is Err && r->Err_0@ == template_not_found_msg(),
{
    let i = match find_template(&db.templates, id) {
        Some(i) => i,
        None => {
            return Err(String::from_str("模板不存在"));
        },
    };
    let row = &db.templates[i];
    proof {
        let j = template_pos(db.templates@, id@);
        if j != i {
            assert(template_key()(db.templates@[j]) == template_key()(db.templates@[i as int]));
        }
    }
    let c = match find_category(&db.categories, row.category_id.as_str()) {
        Some(c) => c,
        None => {
            return Err(String::from_str("模板不存在"));
        },
    };
    proof {
        let j = cat_pos(db.categories@, row.category_id@);
        if j != c {
            assert(category_id_key()(db.categories@[j]) == category_id_key()(db.categories@[c as int]));
        }
    }
    let fields = template_fields_of(db, id);
    Ok(
        Template {
            id: dup_text(&row.id),
            category_id: dup_text(&row.category_id),
            category_name: dup_text(&db.categories[c].name),
            name: dup_text(&row.name),
            icon: dup_opt_text(&row.icon),
            note: dup_opt_text(&row.note),
            fields,
            created_at: dup_text(&row.created_at),
            updated_at: dup_text(&row.updated_at),
            is_builtin: starts_with(row.id.as_str(), "tmpl-"),
        },
    )
}

/// `r` lists the loaded templates of the vault, the oldest first (by the
/// text of the creation time).
pub open spec fn templates_listed(db: DbState, r: Seq<Template>) -> bool {
    let ts = db.templates@;
    exists|p: Seq<usize>|
        is_perm(p, ts.len() as int) && r.len() == ts.len() && (forall|k: int|
            0 <= k < r.len() ==> template_loaded(db, ts[#[trigger] p[k] as int].id@, r[k])) && (forall|
            a: int,
            b: int,
        |
            0 <= a < b < r.len() ==> text_le(
                ts[#[trigger] p[a] as int].created_at@,
                ts[#[trigger] p[b] as int].created_at@,
            ))
}

/// Every template can be loaded.
pub open spec fn all_templates_loadable(db: DbState) -> bool {
    forall|i: int| 0 <= i < db.templates@.len() ==> template_loadable(db, #[trigger] db.templates@[i].id@)
}

/// The templates, the oldest first; an error when one of them cannot be
/// loaded (its category is gone).
pub fn list_templates_db(db: &DbState) -> (r: Result<Vec<Template>, String>)
    requires
        db.wf(),
    ensures
        all_templates_loadable(*db) ==> r is Ok && templates_listed(*db, r->Ok_0@),
        !all_templates_loadable(*db) ==> r is Err && r->Err_0@ == template_not_found_msg(),
{
    let ts = &db.templates;
    let n = ts.len();
    let mut keys: Vec<String> = Vec::new();
    let mut i: usize = 0;
    while i < n
        invariant
            n == ts@.len(),
            i <= n,
            keys@.len() == i,
            forall|k: int| 0 <= k < i ==> keys@[k] == ts@[k].created_at,
        decreases n - i,
    {
        keys.push(dup_text(&ts[i].created_at));
        i = i + 1;
    }
    let perm = sort_order(&keys);
    let mut out: Vec<Template> = Vec::new();
    let mut j: usize = 0;
    while j < n
        invariant
            db.wf(),
            ts == &db.templates,
            n == ts@.len(),
            n == keys@.len(),
            is_perm(perm@, n as int),
            j <= n,
            out@.len() == j,
            forall|k: int| 0 <= k < j ==> template_loaded(*db, ts@[#[trigger] perm@[k] as int].id@, out@[k]),
            forall|k: int| 0 <= k < j ==> template_loadable(*db, ts@[#[trigger] perm@[k] as int].id@),
        decreases n - j,
    {
        match load_template(db, ts[perm[j]].id.as_str()) {
            Ok(t) => {
                out.push(t);
            },
            Err(e) => {
                assert(!all_templates_loadable(*db));
                return Err(e);
            },
        }
        j = j + 1;
    }
    proof {
        assert forall|a: int, b: int| 0 <= a < b < out@.len() implies text_le(
            ts@[#[trigger] perm@[a] as int].created_at@,
            ts@[#[trigger] perm@[b] as int].created_at@,
        ) by {
            assert(keys@[perm@[a] as int].key_le(keys@[perm@[b] as int]));
        }
        assert forall|i: int| 0 <= i < ts@.len() implies template_loadable(*db, #[trigger] ts@[i].id@) by {
            let k = choose|k: int| 0 <= k < n && perm@[k] == i;
            assert(0 <= k < n && perm@[k] == i) by {
                lemma_perm_onto(perm@, n as int, i);
            }
            assert(template_loadable(*db, ts@[perm@[k] as int].id@));
        }
    }
    Ok(out)
}

/// A permutation of `0..n` reaches every position.
pub proof fn lemma_perm_onto(p: Seq<usize>, n: int, i: int)
    requires
        is_perm(p, n),
        0 <= i < n,
    ensures
        exists|k: int| 0 <= k < n && p[k] == i,
{
    let s = Set::new(|x: int| 0 <= x < n && exists|k: int| 0 <= k < n && p[k] == x);
    if !(exists|k: int| 0 <= k < n && p[k] == i) {
        // The n values of p would all lie in 0..n without i: too few places.
        let m = Seq::new(n as nat, |k: int| p[k] as int);
        let full = Set::new(|x: int| 0 <= x < n && x != i);
        assert(m.to_set().subset_of(full)) by {
            assert forall|x: int| m.to_set().contains(x) implies full.contains(x) by {
                let k = choose|k: int| 0 <= k < m.len() && m[k] == x;
                assert(m[k] == p[k] as int);
            }
        }
        assert(m.no_duplicates());
        m.unique_seq_to_set();
        lemma_range_without_len(n, i);
        vstd::set_lib::lemma_len_subset(m.to_set(), full);
        assert(false);
    }
}

/// The integers of `0..n` but one are `n - 1` many.
proof fn lemma_range_without_len(n: int, i: int)
    requires
        0 <= i < n,
    ensures
        Set::new(|x: int| 0 <= x < n && x != i).finite(),
        Set::new(|x: int| 0 <= x < n && x != i).len() == n - 1,
{
    let full = Set::new(|x: int| 0 <= x < n && x != i);
    let r = vstd::set_lib::set_int_range(0, n);
    vstd::set_lib::lemma_int_range(0, n);
    assert(full =~= r.remove(i));
}

/// The text rusqlite gives, with the prefix of the command, for a
/// duplicate template id.
pub open spec fn dup_template_id_msg() -> Seq<char> {
    "创建模板失败: UNIQUE constraint failed: templates.id"@
}

/// The text rusqlite gives, with the prefix of the command, for a
/// duplicate template field id.
pub open spec fn dup_field_id_msg() -> Seq<char> {
    "保存模板字段失败: UNIQUE constraint failed: template_fields.id"@
}

/// The field row stored for the field at position `k` of a request.
pub open spec fn field_record_for(rec: TemplateFieldRecord, f: TemplateFieldInput, template_id: Seq<char>, k: int) -> bool {
    &&& is_uuid_text(rec.id@)
    &&& rec.template_id@ == template_id
    &&& rec.name == f.name
    &&& rec.field_type == f.field_type
    &&& rec.secret == f.secret
    &&& rec.sort_order == k
}

/// `recs` are the rows stored for the first fields of a request, in order.
pub open spec fn field_records_from(recs: Seq<TemplateFieldRecord>, fields: Seq<TemplateFieldInput>, template_id: Seq<char>) -> bool {
    recs.len() <= fields.len() && forall|k: int|
        0 <= k < recs.len() ==> field_record_for(#[trigger] recs[k], fields[k], template_id, k)
}

/// The fields of a loaded template are those of the request, in its order.
pub open spec fn fields_as_requested(r: Seq<TemplateField>, fields: Seq<TemplateFieldInput>) -> bool {
    r.len() == fields.len() && forall|k: int|
        0 <= k < r.len() ==> (#[trigger] r[k]).name == fields[k].name && r[k].field_type
            == fields[k].field_type && r[k].secret == fields[k].secret
}

/// Every table but those of templates and their fields is unchanged.
pub open spec fn same_but_templates(a: DbState, b: DbState) -> bool {
    &&& a.master_key == b.master_key
    &&& a.entries == b.entries
    &&& a.tags == b.tags
    &&& a.entry_tags == b.entry_tags
    &&& a.settings == b.settings
    &&& a.otp_entries == b.otp_entries
    &&& a.categories == b.categories
    &&& a.template_categories == b.template_categories
}

proof fn lemma_increasing_lower(p: Seq<usize>, k: int)
    requires
        0 <= k < p.len(),
        forall|a: int, b: int| 0 <= a < b < p.len() ==> p[a] < p[b],
    ensures
        p[k] >= k,
    decreases k,
{
    if k > 0 {
        lemma_increasing_lower(p, k - 1);
        assert(p[k - 1] < p[k]);
    }
}

proof fn lemma_increasing_upper(p: Seq<usize>, k: int)
    requires
        0 <= k < p.len(),
        forall|i: int| 0 <= i < p.len() ==> p[i] < p.len(),
        forall|a: int, b: int| 0 <= a < b < p.len() ==> p[a] < p[b],
    ensures
        p[k] <= k,
    decreases p.len() - k,
{
    if k < p.len() - 1 {
        lemma_increasing_upper(p, k + 1);
        assert(p[k] < p[k + 1]);
    }
}

/// Field rows stored at positions `0..n` come back in that order.
proof fn lemma_stored_order_kept(r: Seq<TemplateField>, own: Seq<TemplateFieldRecord>, fields: Seq<TemplateFieldInput>, template_id: Seq<char>)
    requires
        own.len() == fields.len(),
        forall|k: int| 0 <= k < own.len() ==> field_record_for(#[trigger] own[k], fields[k], template_id, k),
        exists|p: Seq<usize>|
            is_perm(p, own.len() as int) && r.len() == own.len() && (forall|k: int|
                0 <= k < r.len() ==> field_of_record(r[k], #[trigger] own[p[k] as int])) && (forall|
                a: int,
                b: int,
            |
                0 <= a < b < r.len() ==> #[trigger] own[p[a] as int].sort_order <= #[trigger] own[p[b] as int].sort_order),
    ensures
        fields_as_requested(r, fields),
{
    let p = choose|p: Seq<usize>|
        is_perm(p, own.len() as int) && r.len() == own.len() && (forall|k: int|
            0 <= k < r.len() ==> field_of_record(r[k], #[trigger] own[p[k] as int])) && (forall|
            a: int,
            b: int,
        |
            0 <= a < b < r.len() ==> #[trigger] own[p[a] as int].sort_order <= #[trigger] own[p[b] as int].sort_order);
    assert forall|a: int, b: int| 0 <= a < b < p.len() implies p[a] < p[b] by {
        assert(own[p[a] as int].sort_order <= own[p[b] as int].sort_order);
        assert(field_record_for(own[p[a] as int], fields[p[a] as int], template_id, p[a] as int));
        assert(field_record_for(own[p[b] as int], fields[p[b] as int], template_id, p[b] as int));
    }
    assert forall|k: int| 0 <= k < r.len() implies (#[trigger] r[k]).name == fields[k].name && r[k].field_type
        == fields[k].field_type && r[k].secret == fields[k].secret by {
        lemma_increasing_lower(p, k);
        lemma_increasing_upper(p, k);
        assert(field_record_for(own[k], fields[k], template_id, k));
    }
}

/// The row stored for the field `f` at position `k` of a request for the
/// template `template_id`, with the id `id`.
pub open spec fn field_record_with_id(
    rec: TemplateFieldRecord,
    f: TemplateFieldInput,
    template_id: Seq<char>,
    k: int,
    id: String,
) -> bool {
    &&& rec.id == id
    &&& rec.template_id@ == template_id
    &&& rec.name == f.name
    &&& rec.field_type == f.field_type
    &&& rec.secret == f.secret
    &&& rec.sort_order == k
}

/// The id `ids[k]` is taken: by a stored field, or by an earlier id of the list.
pub open spec fn id_clashes(stored: Seq<TemplateFieldRecord>, ids: Seq<String>, k: int) -> bool {
    ||| has_key(stored, field_key(), ids[k]@)
    ||| exists|j: int| 0 <= j < k && ids[j]@ == ids[k]@
}

/// Storing the fields of a request one by one with the ids `ids`, from the
/// field rows `before` to `after`: the fields are added in order, each with
/// its id and position, up to the first whose id is taken, where it stops.
pub open spec fn fields_added(
    before: Seq<TemplateFieldRecord>,
    after: Seq<TemplateFieldRecord>,
    template_id: Seq<char>,
    fields: Seq<TemplateFieldInput>,
    ids: Seq<String>,
) -> bool {
    let added = after.skip(before.len() as int);
    &&& extends(after, before)
    &&& added.len() <= fields.len()
    &&& forall|k: int|
        0 <= k < added.len() ==> field_record_with_id(#[trigger] added[k], fields[k], template_id, k, ids[k])
    &&& forall|k: int| 0 <= k < added.len() ==> !#[trigger] id_clashes(before, ids, k)
    &&& added.len() < fields.len() ==> id_clashes(before, ids, added.len() as int)
}

/// `ids` could be the ids drawn for `n` fields: `n` UUID texts.
pub open spec fn drawn_ids(ids: Seq<String>, n: int) -> bool {
    ids.len() == n && forall|k: int| 0 <= k < n ==> is_uuid_text(#[trigger] ids[k]@)
}

fn find_field(fs: &Vec<TemplateFieldRecord>, id: &str) -> (r: bool)
    ensures
        r == has_key(fs@, field_key(), id@),
{
    let n = fs.len();
    let mut i: usize = 0;
    while i < n
        invariant
            n == fs@.len(),
            i <= n,
            forall|z: int| 0 <= z < i ==> fs@[z].id@ != id@,
        decreases n - i,
    {
        if str_eq(fs[i].id.as_str(), id) {
            assert(field_key()(fs@[i as int]) == id@);
            return true;
        }
        i = i + 1;
    }
    false
}

impl DbState {
    /// Stores the field `f` of a template with the id `id` and the sort
    /// order `sort_order`; an error when the id is taken.
    pub fn add_template_field(
        &mut self,
        template_id: &str,
        f: &TemplateFieldInput,
        sort_order: i64,
        id: String,
    ) -> (r: Result<(), String>)
        requires
            old(self).wf(),
        ensures
            final(self).wf(),
            same_but_templates(*final(self), *old(self)),
            final(self).templates == old(self).templates,
            has_key(old(self).template_fields@, field_key(), id@) ==> r is Err && r->Err_0@
                == dup_field_id_msg() && *final(self) == *old(self),
            !has_key(old(self).template_fields@, field_key(), id@) ==> r is Ok
                && final(self).template_fields@ == old(self).template_fields@.push(
                final(self).template_fields@.last(),
            ) && field_record_with_id(final(self).template_fields@.last(), *f, template_id@, sort_order as int, id),
    {
        if find_field(&self.template_fields, id.as_str()) {
            return Err(String::from_str("保存模板字段失败: UNIQUE constraint failed: template_fields.id"));
        }
        let rec = TemplateFieldRecord {
            id,
            template_id: String::from_str(template_id),
            name: dup_text(&f.name),
            field_type: dup_text(&f.field_type),
            secret: f.secret,
            sort_order,
        };
        proof {
            lemma_push_unique(self.template_fields@, rec, field_key());
        }
        self.template_fields.push(rec);
        Ok(())
    }

    /// Stores the fields of a request for the template `template_id` with
    /// the ids `ids`, each with its position as sort order; stops at the
    /// first id that is taken (see [`fields_added`]).
    #[verifier::loop_isolation(false)]
    pub fn add_template_fields_with_ids(
        &mut self,
        template_id: &str,
        fields: &Vec<TemplateFieldInput>,
        ids: Vec<String>,
    ) -> (r: Result<(), String>)
        requires
            old(self).wf(),
            fields@.len() <= i64::MAX,
            ids@.len() == fields@.len(),
        ensures
            final(self).wf(),
            same_but_templates(*final(self), *old(self)),
            final(self).templates == old(self).templates,
            fields_added(old(self).template_fields@, final(self).template_fields@, template_id@, fields@, ids@),
            r is Ok <==> final(self).template_fields@.len() == old(self).template_fields@.len() + fields@.len(),
            r is Err ==> r->Err_0@ == dup_field_id_msg(),
    {
        let ghost start = self.template_fields@;
        let ghost all_ids = ids@;
        let n = fields.len();
        let mut rest = ids;
        let mut k: usize = 0;
        proof {
            assert(self.template_fields@.skip(start.len() as int) =~= Seq::<TemplateFieldRecord>::empty());
        }
        while k < n
            invariant
                n == fields@.len(),
                n <= i64::MAX,
                k <= n,
                all_ids.len() == n,
                rest@.len() == n - k,
                forall|z: int| 0 <= z < n - k ==> rest@[z] == all_ids[k + z],
                self.wf(),
                same_but_templates(*self, *old(self)),
                self.templates == old(self).templates,
                start == old(self).template_fields@,
                extends(self.template_fields@, start),
                self.template_fields@.len() == start.len() + k,
                forall|z: int|
                    0 <= z < k ==> field_record_with_id(
                        #[trigger] self.template_fields@.skip(start.len() as int)[z],
                        fields@[z],
                        template_id@,
                        z,
                        all_ids[z],
                    ),
                forall|z: int| 0 <= z < k ==> !#[trigger] id_clashes(start, all_ids, z),
            decreases n - k,
        {
            let id = rest.remove(0);
            assert(id == all_ids[k as int]);
            let ghost before = self.template_fields@;
            let added = self.add_template_field(template_id, &fields[k], k as i64, id);
            proof {
                let cur = before;
                let taken = has_key(cur, field_key(), all_ids[k as int]@);
                if id_clashes(start, all_ids, k as int) {
                    if has_key(start, field_key(), all_ids[k as int]@) {
                        let w = choose|w: int| 0 <= w < start.len() && field_key()(start[w]) == all_ids[k as int]@;
                        assert(cur[w] == start[w]);
                    } else {
                        let j = choose|j: int| 0 <= j < k && all_ids[j]@ == all_ids[k as int]@;
                        assert(cur.skip(start.len() as int)[j] == cur[start.len() + j]);
                        assert(field_key()(cur[start.len() + j]) == all_ids[k as int]@);
                    }
                    assert(taken);
                } else {
                    if taken {
                        let w = choose|w: int| 0 <= w < cur.len() && field_key()(cur[w]) == all_ids[k as int]@;
                        if w < start.len() {
                            assert(cur[w] == start[w]);
                            assert(has_key(start, field_key(), all_ids[k as int]@));
                        } else {
                            assert(cur.skip(start.len() as int)[w - start.len()] == cur[w]);
                            assert(all_ids[w - start.len()]@ == all_ids[k as int]@);
                        }
                    }
                }
            }
            match added {
                Ok(()) => {},
                Err(e) => {
                    assert(self.template_fields@.skip(start.len() as int).len() == k);
                    return Err(e);
                },
            }
            proof {
                assert forall|z: int| 0 <= z < k + 1 implies field_record_with_id(
                    #[trigger] self.template_fields@.skip(start.len() as int)[z],
                    fields@[z],
                    template_id@,
                    z,
                    all_ids[z],
                ) by {
                    if z < k {
                        assert(self.template_fields@.skip(start.len() as int)[z] == before.skip(start.len() as int)[z]);
                    } else {
                        assert(self.template_fields@.skip(start.len() as int)[z] == self.template_fields@.last());
                    }
                }
            }
            k = k + 1;
        }
        Ok(())
    }

    /// Stores the fields of a request for the template `template_id`, each
    /// with a freshly drawn id and its position as sort order; stops at the
    /// first drawn id that is taken. Which ids are drawn is chance: the
    /// contract holds for the ids drawn, whatever they are (see
    /// [`DbState::add_template_fields_with_ids`]).
    pub fn add_template_fields(&mut self, template_id: &str, fields: &Vec<TemplateFieldInput>) -> (r: Result<(), String>)
        requires
            old(self).wf(),
            fields@.len() <= i64::MAX,
        ensures
            final(self).wf(),
            same_but_templates(*final(self), *old(self)),
            final(self).templates == old(self).templates,
            exists|ids: Seq<String>|
                drawn_ids(ids, fields@.len() as int) && #[trigger] fields_added(
                    old(self).template_fields@,
                    final(self).template_fields@,
                    template_id@,
                    fields@,
                    ids,
                ),
            extends(final(self).template_fields@, old(self).template_fields@),
            field_records_from(
                final(self).template_fields@.skip(old(self).template_fields@.len() as int),
                fields@,
                template_id@,
            ),
            r is Ok <==> final(self).template_fields@.len() == old(self).template_fields@.len() + fields@.len(),
            r is Err ==> r->Err_0@ == dup_field_id_msg(),
            r is Err ==> (has_uuid_key(old(self).template_fields@, field_key())
                || final(self).template_fields@.len() > old(self).template_fields@.len())
                && final(self).template_fields@.len() < old(self).template_fields@.len() + fields@.len(),
            !has_uuid_key(old(self).template_fields@, field_key()) && fields@.len() <= 1 ==> r is Ok,
    {
        let n = fields.len();
        let mut ids: Vec<String> = Vec::new();
        let mut k: usize = 0;
        while k < n
            invariant
                k <= n,
                ids@.len() == k,
                forall|z: int| 0 <= z < k ==> is_uuid_text(#[trigger] ids@[z]@),
            decreases n - k,
        {
            ids.push(new_uuid());
            k = k + 1;
        }
        let ghost drawn = ids@;
        let ghost start = self.template_fields@;
        let r = self.add_template_fields_with_ids(template_id, fields, ids);
        proof {
            assert(drawn_ids(drawn, n as int));
            let added = self.template_fields@.skip(start.len() as int);
            assert forall|z: int| 0 <= z < added.len() implies field_record_for(
                #[trigger] added[z],
                fields@[z],
                template_id@,
                z,
            ) by {
                assert(field_record_with_id(added[z], fields@[z], template_id@, z, drawn[z]));
            }
            if r is Err {
                let c = added.len() as int;
                assert(id_clashes(start, drawn, c));
                if has_key(start, field_key(), drawn[c]@) {
                    lemma_uuid_key_taken(start, field_key(), drawn[c]@);
                } else {
                    assert(c > 0);
                }
            }
        }
        r
    }

    /// Adds a template row; an error when its id is taken.
    pub fn add_template_row(&mut self, row: TemplateRecord) -> (r: Result<(), String>)
        requires
            old(self).wf(),
        ensures
            final(self).wf(),
            same_but_templates(*final(self), *old(self)),
            final(self).template_fields == old(self).template_fields,
            has_key(old(self).templates@, template_key(), row.id@) ==> r is Err && r->Err_0@
                == dup_template_id_msg() && *final(self) == *old(self),
            !has_key(old(self).templates@, template_key(), row.id@) ==> r is Ok
                && final(self).templates@ == old(self).templates@.push(row),
    {
        if find_template(&self.templates, row.id.as_str()).is_some() {
            return Err(String::from_str("创建模板失败: UNIQUE constraint failed: templates.id"));
        }
        proof {
            lemma_push_unique(self.templates@, row, template_key());
        }
        self.templates.push(row);
        Ok(())
    }
}

/// The row stored for a new template from a request.
pub open spec fn template_row_from(row: TemplateRecord, input: TemplateInput) -> bool {
    &&& is_uuid_text(row.id@)
    &&& row.category_id == input.category_id
    &&& row.name == input.name
    &&& row.icon == input.icon
    &&& row.note == input.note
    &&& row.created_at == row.updated_at
    &&& exists|t: u64| row.created_at@ == #[trigger] decimal_text(t as nat)
}

/// What creating a template from `input` does to the vault.
pub open spec fn create_template_outcome(before: DbState, after: DbState, input: TemplateInput, r: Result<Template, String>) -> bool {
    let added = after.templates@.last();
    &&& after.wf()
    &&& same_but_templates(after, before)
    &&& match template_input_error(before.categories@, input) {
        Some(e) => r is Err && r->Err_0@ == e && after == before,
        None => {
            &&& r is Err ==> r->Err_0@ == dup_template_id_msg() || r->Err_0@ == dup_field_id_msg()
            &&& r is Err && after.templates@ == before.templates@ ==> has_uuid_key(before.templates@, template_key())
            &&& r is Err && after.templates@ != before.templates@ ==> has_uuid_key(
                before.template_fields@,
                field_key(),
            ) || input.fields@.len() >= 2
            &&& !has_uuid_key(before.templates@, template_key()) && !has_uuid_key(
                before.template_fields@,
                field_key(),
            ) && input.fields@.len() <= 1 ==> r is Ok
            &&& after.templates@ != before.templates@ ==> (exists|ids: Seq<String>|
                drawn_ids(ids, input.fields@.len() as int) && #[trigger] fields_added(
                    before.template_fields@,
                    after.template_fields@,
                    added.id@,
                    input.fields@,
                    ids,
                )) && (r is Ok <==> after.template_fields@.len() == before.template_fields@.len()
                + input.fields@.len())
            &&& after.templates@ == before.templates@ ==> after == before
            &&& after.templates@ != before.templates@ ==> after.templates@ == before.templates@.push(added)
                && template_row_from(added, input) && extends(
                after.template_fields@,
                before.template_fields@,
            ) && field_records_from(
                after.template_fields@.skip(before.template_fields@.len() as int),
                input.fields@,
                added.id@,
            )
            &&& r is Ok ==> after.templates@ == before.templates@.push(added) && added.id == r->Ok_0.id
                && after.template_fields@.len() == before.template_fields@.len() + input.fields@.len()
                && template_loaded(after, added.id@, r->Ok_0) && ((forall|j: int|
                0 <= j < before.template_fields@.len() ==> #[trigger] before.template_fields@[j].template_id@
                    != added.id@) ==> fields_as_requested(r->Ok_0.fields@, input.fields@))
        },
    }
}

/// Creates a template from a request: a fresh id, the current time, its
/// fields in the order given. Returns the template as loaded.
pub fn create_template_db(db: &mut DbState, input: TemplateInput) -> (r: Result<Template, String>)
    requires
        old(db).wf(),
        input.fields@.len() <= i64::MAX,
    ensures
        create_template_outcome(*old(db), *final(db), input, r),
{
    validate_template_input(db, &input)?;
    let id = new_uuid();
    let now = u64_to_decimal(now_secs());
    let row = TemplateRecord {
        id: dup_text(&id),
        category_id: dup_text(&input.category_id),
        name: dup_text(&input.name),
        icon: dup_opt_text(&input.icon),
        note: dup_opt_text(&input.note),
        created_at: dup_text(&now),
        updated_at: now,
    };
    let ghost grow = row;
    let ghost before = *db;
    match db.add_template_row(row) {
        Ok(()) => {},
        Err(e) => {
            proof {
                lemma_uuid_key_taken(before.templates@, template_key(), grow.id@);
            }
            return Err(e);
        },
    }
    assert(db.templates@.last() == grow);
    assert(db.templates@ != old(db).templates@) by {
        assert(db.templates@.len() != old(db).templates@.len());
    }
    db.add_template_fields(id.as_str(), &input.fields)?;
    let ghost mid = *db;
    let t = load_template(db, id.as_str());
    proof {
        assert(has_key(db.templates@, template_key(), id@)) by {
            assert(template_key()(db.templates@[db.templates@.len() - 1]) == id@);
        }
        assert(template_loadable(*db, id@)) by {
            let j = template_pos(db.templates@, id@);
            if j != db.templates@.len() - 1 {
                assert(template_key()(db.templates@[j]) == template_key()(db.templates@[db.templates@.len() - 1]));
            }
        }
        let before = old(db).template_fields@;
        let own = db.template_fields@.filter(|f: TemplateFieldRecord| f.template_id@ == id@);
        if forall|j: int| 0 <= j < before.len() ==> #[trigger] before[j].template_id@ != id@ {
            let added = db.template_fields@.skip(before.len() as int);
            assert(db.template_fields@ =~= before + added);
            Seq::filter_distributes_over_add(before, added, |f: TemplateFieldRecord| f.template_id@ == id@);
            assert(before.filter(|f: TemplateFieldRecord| f.template_id@ == id@) =~= Seq::<TemplateFieldRecord>::empty()) by {
                crate::table::lemma_filter_drops_all(before, |f: TemplateFieldRecord| f.template_id@ == id@);
            }
            crate::table::lemma_filter_keeps_all(added, |f: TemplateFieldRecord| f.template_id@ == id@);
            assert(own =~= added);
            lemma_stored_order_kept(t->Ok_0.fields@, own, input.fields@, id@);
        }
    }
    t
}

/// Removes the field rows of a template.
#[verifier::loop_isolation(false)]
pub fn remove_template_fields(rows: &mut Vec<TemplateFieldRecord>, template_id: &str)
    requires
        unique_by(old(rows)@, field_key()),
    ensures
        unique_by(final(rows)@, field_key()),
        final(rows)@ == old(rows)@.filter(|f: TemplateFieldRecord| f.template_id@ != template_id@),
{
    let ghost pred = |f: TemplateFieldRecord| f.template_id@ != template_id@;
    let mut kept: Vec<TemplateFieldRecord> = Vec::new();
    let n = rows.len();
    let mut i: usize = 0;
    assert(rows@.take(0) =~= Seq::<TemplateFieldRecord>::empty());
    while i < n
        invariant
            n == rows@.len(),
            i <= n,
            kept@ == rows@.take(i as int).filter(pred),
        decreases n - i,
    {
        assert(rows@.take(i + 1) =~= rows@.take(i as int).push(rows@[i as int]));
        proof {
            rows@.take(i as int).lemma_filter_push(rows@[i as int], pred);
        }
        if !str_eq(rows[i].template_id.as_str(), template_id) {
            kept.push(rows[i].duplicate());
        }
        i = i + 1;
    }
    assert(rows@.take(n as int) =~= rows@);
    proof {
        lemma_filter_unique(rows@, pred, field_key());
    }
    *rows = kept;
}

/// Removes the template rows with a given id.
#[verifier::loop_isolation(false)]
pub fn remove_template_rows(rows: &mut Vec<TemplateRecord>, id: &str)
    requires
        unique_by(old(rows)@, template_key()),
    ensures
        unique_by(final(rows)@, template_key()),
        final(rows)@ == old(rows)@.filter(|t: TemplateRecord| t.id@ != id@),
{
    let ghost pred = |t: TemplateRecord| t.id@ != id@;
    let mut kept: Vec<TemplateRecord> = Vec::new();
    let n = rows.len();
    let mut i: usize = 0;
    assert(rows@.take(0) =~= Seq::<TemplateRecord>::empty());
    while i < n
        invariant
            n == rows@.len(),
            i <= n,
            kept@ == rows@.take(i as int).filter(pred),
        decreases n - i,
    {
        assert(rows@.take(i + 1) =~= rows@.take(i as int).push(rows@[i as int]));
        proof {
            rows@.take(i as int).lemma_filter_push(rows@[i as int], pred);
        }
        if !str_eq(rows[i].id.as_str(), id) {
            kept.push(rows[i].duplicate());
        }
        i = i + 1;
    }
    assert(rows@.take(n as int) =~= rows@);
    proof {
        lemma_filter_unique(rows@, pred, template_key());
    }
    *rows = kept;
}

/// A template row after an update from a request.
pub open spec fn template_updated(row: TemplateRecord, old_row: TemplateRecord, input: TemplateInput) -> bool {
    &&& row.id == old_row.id
    &&& row.category_id == input.category_id
    &&& row.name == input.name
    &&& row.icon == input.icon
    &&& row.note == input.note
    &&& row.created_at == old_row.created_at
    &&& exists|t: u64| row.updated_at@ == #[trigger] decimal_text(t as nat)
}

/// What updating the template `id` from `input` does to the vault.
pub open spec fn update_template_outcome(before: DbState, after: DbState, id: Seq<char>, input: TemplateInput, r: Result<Template, String>) -> bool {
    let ts = before.templates@;
    let pos = template_pos(ts, id);
    let kept = before.template_fields@.filter(|f: TemplateFieldRecord| f.template_id@ != id);
    let builtin = has_prefix(id, builtin_prefix());
    &&& after.wf()
    &&& same_but_templates(after, before)
    &&& builtin ==> r is Err && r->Err_0@ == builtin_not_editable_msg() && after == before
    &&& !builtin && !has_key(ts, template_key(), id) ==> r is Err && r->Err_0@
        == template_not_found_msg() && after == before
    &&& !builtin && has_key(ts, template_key(), id) ==> match template_input_error(
        before.categories@,
        input,
    ) {
        Some(e) => r is Err && r->Err_0@ == e && after == before,
        None => {
            &&& after.templates@ == ts.update(pos, after.templates@[pos])
            &&& template_updated(after.templates@[pos], ts[pos], input)
            &&& extends(after.template_fields@, kept)
            &&& field_records_from(after.template_fields@.skip(kept.len() as int), input.fields@, id)
            &&& r is Err ==> r->Err_0@ == dup_field_id_msg()
            &&& exists|ids: Seq<String>|
                drawn_ids(ids, input.fields@.len() as int) && #[trigger] fields_added(
                    kept,
                    after.template_fields@,
                    id,
                    input.fields@,
                    ids,
                )
            &&& r is Ok <==> after.template_fields@.len() == kept.len() + input.fields@.len()
            &&& !has_uuid_key(before.template_fields@, field_key()) && input.fields@.len() <= 1 ==> r is Ok
            &&& r is Ok ==> after.template_fields@.len() == kept.len() + input.fields@.len()
                && template_loaded(after, id, r->Ok_0) && fields_as_requested(
                r->Ok_0.fields@,
                input.fields@,
            )
        },
    }
}

/// Updates a template made by the user from a request: its row, and its
/// fields replaced by those of the request. Built-in templates are refused.
pub fn update_template_db(db: &mut DbState, id: String, input: TemplateInput) -> (r: Result<Template, String>)
    requires
        old(db).wf(),
        input.fields@.len() <= i64::MAX,
    ensures
        update_template_outcome(*old(db), *final(db), id@, input, r),
{
    if starts_with(id.as_str(), "tmpl-") {
        proof {
            reveal_strlit("tmpl-");
        }
        return Err(String::from_str("内置模板不可编辑"));
    }
    proof {
        reveal_strlit("tmpl-");
    }
    let i = match find_template(&db.templates, id.as_str()) {
        Some(i) => i,
        None => {
            return Err(String::from_str("模板不存在"));
        },
    };
    proof {
        let j = template_pos(db.templates@, id@);
        if j != i {
            assert(template_key()(db.templates@[j]) == template_key()(db.templates@[i as int]));
        }
    }
    validate_template_input(db, &input)?;
    let now = u64_to_decimal(now_secs());
    let row = TemplateRecord {
        id: dup_text(&db.templates[i].id),
        category_id: dup_text(&input.category_id),
        name: dup_text(&input.name),
        icon: dup_opt_text(&input.icon),
        note: dup_opt_text(&input.note),
        created_at: dup_text(&db.templates[i].created_at),
        updated_at: now,
    };
    let ghost before = db.templates@;
    db.templates.set(i, row);
    proof {
        lemma_same_keys_unique(before, db.templates@, template_key());
        assert(db.templates@ == before.update(i as int, db.templates@[i as int]));
    }
    let ghost all_fields = db.template_fields@;
    remove_template_fields(&mut db.template_fields, id.as_str());
    let ghost kept = db.template_fields@;
    proof {
        if has_uuid_key(kept, field_key()) {
            let w = choose|w: int| 0 <= w < kept.len() && is_uuid_text(#[trigger] field_key()(kept[w]));
            assert(kept.contains(kept[w]));
            all_fields.lemma_filter_contains_rev(|f: TemplateFieldRecord| f.template_id@ != id@, kept[w]);
            let v = choose|v: int| 0 <= v < all_fields.len() && all_fields[v] == kept[w];
            assert(is_uuid_text(field_key()(all_fields[v])));
        }
    }
    db.add_template_fields(id.as_str(), &input.fields)?;
    let t = load_template(db, id.as_str());
    proof {
        assert(template_pos(db.templates@, id@) == i) by {
            let j = template_pos(db.templates@, id@);
            assert(db.templates@[i as int].id@ == id@);
            if j != i {
                assert(template_key()(db.templates@[j]) == template_key()(db.templates@[i as int]));
            }
        }
        assert(template_loadable(*db, id@));
        let own = db.template_fields@.filter(|f: TemplateFieldRecord| f.template_id@ == id@);
        let added = db.template_fields@.skip(kept.len() as int);
        assert(db.template_fields@ =~= kept + added);
        Seq::filter_distributes_over_add(kept, added, |f: TemplateFieldRecord| f.template_id@ == id@);
        assert(kept.filter(|f: TemplateFieldRecord| f.template_id@ == id@) =~= Seq::<TemplateFieldRecord>::empty()) by {
            assert forall|j: int| 0 <= j < kept.len() implies (#[trigger] kept[j]).template_id@ != id@ by {
                old(db).template_fields@.lemma_filter_pred(|f: TemplateFieldRecord| f.template_id@ != id@, j);
            }
            crate::table::lemma_filter_drops_all(kept, |f: TemplateFieldRecord| f.template_id@ == id@);
        }
        crate::table::lemma_filter_keeps_all(added, |f: TemplateFieldRecord| f.template_id@ == id@);
        assert(own =~= added);
        lemma_stored_order_kept(t->Ok_0.fields@, own, input.fields@, id@);
    }
    t
}

/// What deleting the template `id` does to the vault.
pub open spec fn delete_template_outcome(before: DbState, after: DbState, id: Seq<char>, r: Result<(), String>) -> bool {
    &&& after.wf()
    &&& same_but_templates(after, before)
    &&& has_prefix(id, builtin_prefix()) ==> r is Err && r->Err_0@ == builtin_not_deletable_msg()
        && after == before
    &&& !has_prefix(id, builtin_prefix()) ==> r is Ok && after.templates@ == before.templates@.filter(
        |t: TemplateRecord| t.id@ != id,
    ) && after.template_fields@ == before.template_fields@.filter(
        |f: TemplateFieldRecord| f.template_id@ != id,
    )
}

/// Deletes a template made by the user and its fields; built-in templates
/// are refused.
pub fn delete_template_db(db: &mut DbState, id: String) -> (r: Result<(), String>)
    requires
        old(db).wf(),
    ensures
        delete_template_outcome(*old(db), *final(db), id@, r),
{
    proof {
        reveal_strlit("tmpl-");
    }
    if starts_with(id.as_str(), "tmpl-") {
        return Err(String::from_str("内置模板不可删除"));
    }
    remove_template_fields(&mut db.template_fields, id.as_str());
    remove_template_rows(&mut db.templates, id.as_str());
    Ok(())
}

/// The templates, the oldest first (see [`list_templates_db`]).
pub fn list_templates(state: &AppState) -> (r: Result<Vec<Template>, String>)
    requires
        state.db.wf(),
    ensures
        state.crypto_key is None ==> r is Err && r->Err_0@ == locked_msg(),
        state.crypto_key is Some && all_templates_loadable(state.db) ==> r is Ok && templates_listed(
            state.db,
            r->Ok_0@,
        ),
        state.crypto_key is Some && !all_templates_loadable(state.db) ==> r is Err && r->Err_0@
            == template_not_found_msg(),
{
    ensure_db_unlocked(state)?;
    list_templates_db(&state.db)
}

/// The template `id` (see [`load_template`]).
pub fn get_template(state: &AppState, id: String) -> (r: Result<Template, String>)
    requires
        state.db.wf(),
    ensures
        state.crypto_key is None ==> r is Err && r->Err_0@ == locked_msg(),
        state.crypto_key is Some && template_loadable(state.db, id@) ==> r is Ok && template_loaded(
            state.db,
            id@,
            r->Ok_0,
        ),
        state.crypto_key is Some && !template_loadable(state.db, id@) ==> r is Err && r->Err_0@
            == template_not_found_msg(),
{
    ensure_db_unlocked(state)?;
    load_template(&state.db, id.as_str())
}

/// Creates a template (see [`create_template_db`]).
pub fn create_template(state: &mut AppState, input: TemplateInput) -> (r: Result<Template, String>)
    requires
        old(state).db.wf(),
        input.fields@.len() <= i64::MAX,
    ensures
        final(state).crypto_key == old(state).crypto_key,
        final(state).last_activity == old(state).last_activity,
        old(state).crypto_key is None ==> r is Err && r->Err_0@ == locked_msg() && final(state).db
            == old(state).db,
        old(state).crypto_key is Some ==> create_template_outcome(old(state).db, final(state).db, input, r),
{
    ensure_db_unlocked(state)?;
    create_template_db(&mut state.db, input)
}

/// Updates a template (see [`update_template_db`]).
pub fn update_template(state: &mut AppState, id: String, input: TemplateInput) -> (r: Result<Template, String>)
    requires
        old(state).db.wf(),
        input.fields@.len() <= i64::MAX,
    ensures
        final(state).crypto_key == old(state).crypto_key,
        final(state).last_activity == old(state).last_activity,
        old(state).crypto_key is None ==> r is Err && r->Err_0@ == locked_msg() && final(state).db
            == old(state).db,
        old(state).crypto_key is Some ==> update_template_outcome(
            old(state).db,
            final(state).db,
            id@,
            input,
            r,
        ),
{
    ensure_db_unlocked(state)?;
    update_template_db(&mut state.db, id, input)
}

/// Deletes a template (see [`delete_template_db`]).
pub fn delete_template(state: &mut AppState, id: String) -> (r: Result<(), String>)
    requires
        old(state).db.wf(),
    ensures
        final(state).crypto_key == old(state).crypto_key,
        final(state).last_activity == old(state).last_activity,
        old(state).crypto_key is None ==> r is Err && r->Err_0@ == locked_msg() && final(state).db
            == old(state).db,
        old(state).crypto_key is Some ==> delete_template_outcome(old(state).db, final(state).db, id@, r),
{
    ensure_db_unlocked(state)?;
    delete_template_db(&mut state.db, id)
}

} // verus!
