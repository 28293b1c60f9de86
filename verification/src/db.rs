//! The vault's tables and the rules that hold of them; seeding of the
//! built-in categories, templates and settings.

use vstd::prelude::*;
use crate::hexcodec::{hex_decode, hex_decode_spec};
use crate::models::{
    opt_view, Category, CategoryView, ExportEntry, ExportEntryTag, ExportMasterKey, ExportSetting,
    LegacyTemplateCategory, OtpEntryOut, TagOut, TemplateFieldRecord, TemplateFieldRecordView,
    TemplateRecord, TemplateRecordView, dup_text, dup_opt_text,
};
use crate::table::{has_key, lemma_push_unique, unique_by};
use crate::text::str_eq;

verus! {

/// The tables of the vault.
pub struct DbState {
    /// The master key row (at most one).
    pub master_key: Option<ExportMasterKey>,
    pub entries: Vec<ExportEntry>,
    pub tags: Vec<TagOut>,
    pub entry_tags: Vec<ExportEntryTag>,
    pub settings: Vec<ExportSetting>,
    pub otp_entries: Vec<OtpEntryOut>,
    pub categories: Vec<Category>,
    pub templates: Vec<TemplateRecord>,
    pub template_fields: Vec<TemplateFieldRecord>,
    /// Template categories of former versions, folded into `categories` by seeding.
    pub template_categories: Vec<LegacyTemplateCategory>,
}

pub open spec fn entry_key() -> spec_fn(ExportEntry) -> Seq<char> {
    |e: ExportEntry| e.id@
}

pub open spec fn tag_id_key() -> spec_fn(TagOut) -> Seq<char> {
    |t: TagOut| t.id@
}

pub open spec fn tag_name_key() -> spec_fn(TagOut) -> Seq<char> {
    |t: TagOut| t.name@
}

pub open spec fn link_key() -> spec_fn(ExportEntryTag) -> (Seq<char>, Seq<char>) {
    |l: ExportEntryTag| (l.entry_id@, l.tag_id@)
}

pub open spec fn setting_key() -> spec_fn(ExportSetting) -> Seq<char> {
    |s: ExportSetting| s.key@
}

pub open spec fn otp_key() -> spec_fn(OtpEntryOut) -> Seq<char> {
    |o: OtpEntryOut| o.id@
}

pub open spec fn category_id_key() -> spec_fn(Category) -> Seq<char> {
    |c: Category| c.id@
}

pub open spec fn category_name_key() -> spec_fn(Category) -> Seq<char> {
    |c: Category| c.name@
}

pub open spec fn template_key() -> spec_fn(TemplateRecord) -> Seq<char> {
    |t: TemplateRecord| t.id@
}

pub open spec fn field_key() -> spec_fn(TemplateFieldRecord) -> Seq<char> {
    |f: TemplateFieldRecord| f.id@
}

pub open spec fn legacy_id_key() -> spec_fn(LegacyTemplateCategory) -> Seq<char> {
    |c: LegacyTemplateCategory| c.id@
}

pub open spec fn legacy_name_key() -> spec_fn(LegacyTemplateCategory) -> Seq<char> {
    |c: LegacyTemplateCategory| c.name@
}

/// The stored salt, when it decodes, is one that Argon2 accepts.
pub open spec fn master_salt_ok(m: Option<ExportMasterKey>) -> bool {
    m matches Some(k) ==> (hex_decode_spec(k.salt@) matches Some(s) ==> 8 <= s.len()
        <= 0xFFFF_FFFF)
}

impl DbState {
    /// What the schema's keys and unique columns guarantee: ids (and names
    /// where they are unique) occur once, a link occurs once, a setting key
    /// occurs once; and the stored salt is usable.
    pub open spec fn wf(&self) -> bool {
        &&& unique_by(self.entries@, entry_key())
        &&& unique_by(self.tags@, tag_id_key())
        &&& unique_by(self.tags@, tag_name_key())
        &&& unique_by(self.entry_tags@, link_key())
        &&& unique_by(self.settings@, setting_key())
        &&& unique_by(self.otp_entries@, otp_key())
        &&& unique_by(self.categories@, category_id_key())
        &&& unique_by(self.categories@, category_name_key())
        &&& unique_by(self.templates@, template_key())
        &&& unique_by(self.template_fields@, field_key())
        &&& unique_by(self.template_categories@, legacy_id_key())
        &&& unique_by(self.template_categories@, legacy_name_key())
        &&& master_salt_ok(self.master_key)
    }

    /// An empty vault.
    pub fn empty() -> (db: DbState)
        ensures
            db.wf(),
            db.master_key is None,
            db.entries@.len() == 0,
            db.tags@.len() == 0,
            db.entry_tags@.len() == 0,
            db.settings@.len() == 0,
            db.otp_entries@.len() == 0,
            db.categories@.len() == 0,
            db.templates@.len() == 0,
            db.template_fields@.len() == 0,
            db.template_categories@.len() == 0,
    {
        DbState {
            master_key: None,
            entries: Vec::new(),
            tags: Vec::new(),
            entry_tags: Vec::new(),
            settings: Vec::new(),
            otp_entries: Vec::new(),
            categories: Vec::new(),
            templates: Vec::new(),
            template_fields: Vec::new(),
            template_categories: Vec::new(),
        }
    }
}

/// The two vaults agree on every table but the master key.
pub open spec fn same_but_master(a: DbState, b: DbState) -> bool {
    &&& a.entries == b.entries
    &&& a.tags == b.tags
    &&& a.entry_tags == b.entry_tags
    &&& a.settings == b.settings
    &&& a.otp_entries == b.otp_entries
    &&& a.categories == b.categories
    &&& a.templates == b.templates
    &&& a.template_fields == b.template_fields
    &&& a.template_categories == b.template_categories
}

// ---------------------------------------------------------------- seeding

/// Some category has the id or the name.
pub open spec fn category_conflicts(cats: Seq<Category>, id: Seq<char>, name: Seq<char>) -> bool {
    exists|i: int| 0 <= i < cats.len() && (cats[i].id@ == id || cats[i].name@ == name)
}

/// `INSERT OR IGNORE` into the category table: the row is added unless its
/// id or its name is taken.
#[verifier::loop_isolation(false)]
fn insert_category_or_ignore(cats: &mut Vec<Category>, row: Category)
    requires
        unique_by(old(cats)@, category_id_key()),
        unique_by(old(cats)@, category_name_key()),
    ensures
        unique_by(final(cats)@, category_id_key()),
        unique_by(final(cats)@, category_name_key()),
        category_conflicts(old(cats)@, row.id@, row.name@) ==> *final(cats) == *old(cats),
        !category_conflicts(old(cats)@, row.id@, row.name@) ==> final(cats)@ == old(cats)@.push(row),
{
    let n = cats.len();
    let mut i: usize = 0;
    while i < n
        invariant
            n == cats@.len(),
            i <= n,
            forall|k: int| 0 <= k < i ==> cats@[k].id@ != row.id@ && cats@[k].name@ != row.name@,
        decreases n - i,
    {
        if str_eq(cats[i].id.as_str(), row.id.as_str()) || str_eq(
            cats[i].name.as_str(),
            row.name.as_str(),
        ) {
            return;
        }
        i = i + 1;
    }
    proof {
        lemma_push_unique(cats@, row, category_id_key());
        lemma_push_unique(cats@, row, category_name_key());
    }
    cats.push(row);
}

/// `INSERT OR IGNORE` into the template table: the row is added unless its id is taken.
#[verifier::loop_isolation(false)]
fn insert_template_or_ignore(templates: &mut Vec<TemplateRecord>, row: TemplateRecord)
    requires
        unique_by(old(templates)@, template_key()),
    ensures
        unique_by(final(templates)@, template_key()),
        has_key(old(templates)@, template_key(), row.id@) ==> *final(templates) == *old(templates),
        !has_key(old(templates)@, template_key(), row.id@) ==> final(templates)@ == old(templates)@.push(row),
{
    let n = templates.len();
    let mut i: usize = 0;
    while i < n
        invariant
            n == templates@.len(),
            i <= n,
            forall|k: int| 0 <= k < i ==> templates@[k].id@ != row.id@,
        decreases n - i,
    {
        if str_eq(templates[i].id.as_str(), row.id.as_str()) {
            assert(template_key()(templates@[i as int]) == row.id@);
            return;
        }
        i = i + 1;
    }
    proof {
        assert(!has_key(templates@, template_key(), row.id@));
        lemma_push_unique(templates@, row, template_key());
    }
    templates.push(row);
}

/// `INSERT OR IGNORE` into the template field table: the row is added unless its id is taken.
#[verifier::loop_isolation(false)]
fn insert_field_or_ignore(fields: &mut Vec<TemplateFieldRecord>, row: TemplateFieldRecord)
    requires
        unique_by(old(fields)@, field_key()),
    ensures
        unique_by(final(fields)@, field_key()),
        has_key(old(fields)@, field_key(), row.id@) ==> *final(fields) == *old(fields),
        !has_key(old(fields)@, field_key(), row.id@) ==> final(fields)@ == old(fields)@.push(row),
{
    let n = fields.len();
    let mut i: usize = 0;
    while i < n
        invariant
            n == fields@.len(),
            i <= n,
            forall|k: int| 0 <= k < i ==> fields@[k].id@ != row.id@,
        decreases n - i,
    {
        if str_eq(fields[i].id.as_str(), row.id.as_str()) {
            assert(field_key()(fields@[i as int]) == row.id@);
            return;
        }
        i = i + 1;
    }
    proof {
        assert(!has_key(fields@, field_key(), row.id@));
        lemma_push_unique(fields@, row, field_key());
    }
    fields.push(row);
}

/// `INSERT OR IGNORE` into the settings table: the row is added unless its key is taken.
#[verifier::loop_isolation(false)]
fn insert_setting_or_ignore(settings: &mut Vec<ExportSetting>, row: ExportSetting)
    requires
        unique_by(old(settings)@, setting_key()),
    ensures
        unique_by(final(settings)@, setting_key()),
        has_key(old(settings)@, setting_key(), row.key@) ==> *final(settings) == *old(settings),
        !has_key(old(settings)@, setting_key(), row.key@) ==> final(settings)@ == old(settings)@.push(row),
        setting_views(final(settings)@) == insert_setting_view(
            setting_views(old(settings)@),
            row.key@,
            row.value@,
        ),
{
    let n = settings.len();
    let mut i: usize = 0;
    while i < n
        invariant
            n == settings@.len(),
            i <= n,
            forall|k: int| 0 <= k < i ==> settings@[k].key@ != row.key@,
        decreases n - i,
    {
        if str_eq(settings[i].key.as_str(), row.key.as_str()) {
            assert(setting_key()(settings@[i as int]) == row.key@);
            assert(setting_views(settings@)[i as int].0 == row.key@);
            return;
        }
        i = i + 1;
    }
    proof {
        assert(!has_key(settings@, setting_key(), row.key@));
        lemma_push_unique(settings@, row, setting_key());
        assert forall|w: int| 0 <= w < setting_views(settings@).len() implies setting_views(
            settings@,
        )[w].0 != row.key@ by {
            assert(setting_views(settings@)[w] == settings@[w]@);
        }
    }
    let ghost before = settings@;
    settings.push(row);
    assert(setting_views(settings@) =~= setting_views(before).push((row.key@, row.value@)));
}

/// `UPDATE templates SET category_id = cid WHERE id = tid`; a row that
/// already has it is left as it is.
#[verifier::loop_isolation(false)]
fn set_template_category(templates: &mut Vec<TemplateRecord>, tid: &str, cid: &str)
    requires
        unique_by(old(templates)@, template_key()),
    ensures
        unique_by(final(templates)@, template_key()),
        final(templates)@.len() == old(templates)@.len(),
        forall|k: int|
            0 <= k < old(templates)@.len() ==> {
                let t = #[trigger] old(templates)@[k];
                let u = final(templates)@[k];
                if t.id@ == tid@ {
                    u@ == TemplateRecordView { category_id: cid@, ..t@ }
                } else {
                    u == t
                }
            },
        (forall|k: int|
            0 <= k < old(templates)@.len() && (#[trigger] old(templates)@[k]).id@ == tid@
                ==> old(templates)@[k].category_id@ == cid@) ==> *final(templates) == *old(templates),
{
    let n = templates.len();
    let mut i: usize = 0;
    while i < n
        invariant
            n == templates@.len(),
            i <= n,
            forall|k: int| 0 <= k < i ==> templates@[k].id@ != tid@,
            *templates == *old(templates),
        decreases n - i,
    {
        if str_eq(templates[i].id.as_str(), tid) {
            if !str_eq(templates[i].category_id.as_str(), cid) {
                let t = &templates[i];
                let row = TemplateRecord {
                    id: dup_text(&t.id),
                    category_id: String::from_str(cid),
                    name: dup_text(&t.name),
                    icon: dup_opt_text(&t.icon),
                    note: dup_opt_text(&t.note),
                    created_at: dup_text(&t.created_at),
                    updated_at: dup_text(&t.updated_at),
                };
                let ghost before = templates@;
                templates.set(i, row);
                proof {
                    assert forall|k: int| 0 <= k < before.len() && k != i implies before[k].id@
                        != tid@ by {
                        assert(template_key()(before[k]) != template_key()(before[i as int]));
                    }
                    crate::table::lemma_same_keys_unique(before, templates@, template_key());
                }
            } else {
                proof {
                    assert forall|k: int| 0 <= k < n && k != i implies templates@[k].id@
                        != tid@ by {
                        assert(template_key()(templates@[k]) != template_key()(
                            templates@[i as int],
                        ));
                    }
                }
            }
            return;
        }
        i = i + 1;
    }
}

pub open spec fn builtin_category_view(
    id: Seq<char>,
    name: Seq<char>,
    icon: Seq<char>,
    color: Seq<char>,
    now: Seq<char>,
) -> CategoryView {
    CategoryView {
        id,
        parent_id: None,
        name,
        icon: Some(icon),
        color: Some(color),
        sort_order: 0,
        created_at: now,
    }
}

/// The built-in categories, created at `now`.
pub open spec fn builtin_categories(now: Seq<char>) -> Seq<CategoryView> {
    seq![
        builtin_category_view("login"@, "登录"@, "globe"@, "#18a058"@, now),
        builtin_category_view("database"@, "数据库"@, "server"@, "#2080f0"@, now),
        builtin_category_view("email"@, "邮箱"@, "mail"@, "#f0a020"@, now),
        builtin_category_view("custom"@, "其它"@, "folder-open"@, "#7339d8"@, now),
    ]
}

pub open spec fn builtin_template_view(
    id: Seq<char>,
    category_id: Seq<char>,
    name: Seq<char>,
    icon: Seq<char>,
    note: Seq<char>,
    now: Seq<char>,
) -> TemplateRecordView {
    TemplateRecordView {
        id,
        category_id,
        name,
        icon: Some(icon),
        note: Some(note),
        created_at: now,
        updated_at: now,
    }
}

/// The built-in templates, created at `now`.
pub open spec fn builtin_templates(now: Seq<char>) -> Seq<TemplateRecordView> {
    seq![
        builtin_template_view("tmpl-login"@, "login"@, "登录"@, "globe"@, "网站账号登录信息"@, now),
        builtin_template_view("tmpl-database"@, "database"@, "数据库"@, "server"@, "数据库连接信息"@, now),
        builtin_template_view("tmpl-email"@, "email"@, "邮箱"@, "mail"@, "邮箱账号与邮件服务器"@, now),
        builtin_template_view("tmpl-custom"@, "custom"@, "其它"@, "document-text"@, ""@, now),
    ]
}

pub open spec fn builtin_field_view(
    id: Seq<char>,
    template_id: Seq<char>,
    name: Seq<char>,
    field_type: Seq<char>,
    secret: bool,
    sort_order: i64,
) -> TemplateFieldRecordView {
    TemplateFieldRecordView { id, template_id, name, field_type, secret, sort_order }
}

/// The fields of the built-in templates.
pub open spec fn builtin_fields() -> Seq<TemplateFieldRecordView> {
    seq![
        builtin_field_view("tf-tmpl-login-1"@, "tmpl-login"@, "URL"@, "url"@, false, 0),
        builtin_field_view("tf-tmpl-login-2"@, "tmpl-login"@, "用户名"@, "text"@, false, 1),
        builtin_field_view("tf-tmpl-login-3"@, "tmpl-login"@, "密码"@, "password"@, true, 2),
        builtin_field_view("tf-tmpl-database-1"@, "tmpl-database"@, "主机"@, "text"@, false, 0),
        builtin_field_view("tf-tmpl-database-2"@, "tmpl-database"@, "端口"@, "text"@, false, 1),
        builtin_field_view("tf-tmpl-database-3"@, "tmpl-database"@, "数据库名"@, "text"@, false, 2),
        builtin_field_view("tf-tmpl-database-4"@, "tmpl-database"@, "用户名"@, "text"@, false, 3),
        builtin_field_view("tf-tmpl-database-5"@, "tmpl-database"@, "密码"@, "password"@, true, 4),
        builtin_field_view("tf-tmpl-email-1"@, "tmpl-email"@, "邮箱地址"@, "email"@, false, 0),
        builtin_field_view("tf-tmpl-email-2"@, "tmpl-email"@, "密码"@, "password"@, true, 1),
        builtin_field_view("tf-tmpl-email-3"@, "tmpl-email"@, "SMTP服务器"@, "text"@, false, 2),
        builtin_field_view("tf-tmpl-email-4"@, "tmpl-email"@, "端口"@, "text"@, false, 3),
        builtin_field_view("tf-tmpl-custom-1"@, "tmpl-custom"@, "用户"@, "text"@, false, 0),
        builtin_field_view("tf-tmpl-custom-2"@, "tmpl-custom"@, "密码"@, "password"@, true, 1),
    ]
}

/// The category a former template category becomes.
pub open spec fn legacy_category_view(c: LegacyTemplateCategory) -> CategoryView {
    CategoryView {
        id: c.id@,
        parent_id: None,
        name: c.name@,
        icon: opt_view(c.icon),
        color: None,
        sort_order: 100,
        created_at: c.created_at@,
    }
}

/// Former template categories other than `cat-builtin` are folded into the categories.
pub open spec fn legacy_copied(c: LegacyTemplateCategory) -> bool {
    c.id@ != "cat-builtin"@
}

/// Everything seeding adds is there: each built-in category (or a category
/// with its id or name), each former template category (likewise), each
/// built-in template (pointing at its built-in category) and each built-in
/// template field.
pub open spec fn seeded(db: DbState) -> bool {
    &&& forall|b: int|
        0 <= b < 4 ==> category_conflicts(
            db.categories@,
            #[trigger] builtin_categories(""@)[b].id,
            builtin_categories(""@)[b].name,
        )
    &&& forall|k: int|
        0 <= k < db.template_categories@.len() && legacy_copied(
            #[trigger] db.template_categories@[k],
        ) ==> category_conflicts(
            db.categories@,
            db.template_categories@[k].id@,
            db.template_categories@[k].name@,
        )
    &&& forall|b: int|
        0 <= b < 4 ==> has_key(
            db.templates@,
            template_key(),
            #[trigger] builtin_templates(""@)[b].id,
        )
    &&& forall|k: int|
        0 <= k < db.templates@.len() ==> (builtin_category_of(
            (#[trigger] db.templates@[k]).id@,
        ) matches Some(c) ==> db.templates@[k].category_id@ == c)
    &&& forall|b: int|
        0 <= b < 14 ==> has_key(db.template_fields@, field_key(), #[trigger] builtin_fields()[b].id)
}

pub open spec fn cat_views(s: Seq<Category>) -> Seq<CategoryView> {
    s.map_values(|c: Category| c@)
}

pub open spec fn template_views(s: Seq<TemplateRecord>) -> Seq<TemplateRecordView> {
    s.map_values(|t: TemplateRecord| t@)
}

pub open spec fn field_views(s: Seq<TemplateFieldRecord>) -> Seq<TemplateFieldRecordView> {
    s.map_values(|f: TemplateFieldRecord| f@)
}

/// `INSERT OR IGNORE` of a category row, on rows as characters.
pub open spec fn insert_category_view(cats: Seq<CategoryView>, c: CategoryView) -> Seq<CategoryView> {
    if exists|i: int| 0 <= i < cats.len() && (cats[i].id == c.id || cats[i].name == c.name) {
        cats
    } else {
        cats.push(c)
    }
}

/// The category rows in turn, each inserted unless its id or name is taken.
pub open spec fn insert_category_views(cats: Seq<CategoryView>, rows: Seq<CategoryView>) -> Seq<
    CategoryView,
>
    decreases rows.len(),
{
    if rows.len() == 0 {
        cats
    } else {
        insert_category_view(insert_category_views(cats, rows.drop_last()), rows.last())
    }
}

/// The former template categories other than `cat-builtin`, as categories.
pub open spec fn legacy_rows(legacy: Seq<LegacyTemplateCategory>) -> Seq<CategoryView>
    decreases legacy.len(),
{
    if legacy.len() == 0 {
        Seq::empty()
    } else if legacy_copied(legacy.last()) {
        legacy_rows(legacy.drop_last()).push(legacy_category_view(legacy.last()))
    } else {
        legacy_rows(legacy.drop_last())
    }
}

/// The category table after seeding.
pub open spec fn seed_categories(
    cats: Seq<CategoryView>,
    legacy: Seq<LegacyTemplateCategory>,
    now: Seq<char>,
) -> Seq<CategoryView> {
    insert_category_views(insert_category_views(cats, builtin_categories(now)), legacy_rows(legacy))
}

/// `INSERT OR IGNORE` of a template row, on rows as characters.
pub open spec fn insert_template_view(ts: Seq<TemplateRecordView>, t: TemplateRecordView) -> Seq<
    TemplateRecordView,
> {
    if exists|i: int| 0 <= i < ts.len() && ts[i].id == t.id {
        ts
    } else {
        ts.push(t)
    }
}

pub open spec fn insert_template_views(
    ts: Seq<TemplateRecordView>,
    rows: Seq<TemplateRecordView>,
) -> Seq<TemplateRecordView>
    decreases rows.len(),
{
    if rows.len() == 0 {
        ts
    } else {
        insert_template_view(insert_template_views(ts, rows.drop_last()), rows.last())
    }
}

/// The category each built-in template belongs to.
pub open spec fn builtin_category_of(id: Seq<char>) -> Option<Seq<char>> {
    if id == "tmpl-login"@ {
        Some("login"@)
    } else if id == "tmpl-database"@ {
        Some("database"@)
    } else if id == "tmpl-email"@ {
        Some("email"@)
    } else if id == "tmpl-custom"@ {
        Some("custom"@)
    } else {
        None
    }
}

pub open spec fn fix_builtin_category(t: TemplateRecordView) -> TemplateRecordView {
    match builtin_category_of(t.id) {
        Some(c) => TemplateRecordView { category_id: c, ..t },
        None => t,
    }
}

/// Every built-in template row points at its built-in category.
pub open spec fn fix_builtin_categories(ts: Seq<TemplateRecordView>) -> Seq<TemplateRecordView> {
    ts.map_values(|t: TemplateRecordView| fix_builtin_category(t))
}

/// The template table after seeding.
pub open spec fn seed_templates(ts: Seq<TemplateRecordView>, now: Seq<char>) -> Seq<
    TemplateRecordView,
> {
    fix_builtin_categories(insert_template_views(ts, builtin_templates(now)))
}

/// `INSERT OR IGNORE` of a template field row, on rows as characters.
pub open spec fn insert_field_view(fs: Seq<TemplateFieldRecordView>, f: TemplateFieldRecordView) -> Seq<
    TemplateFieldRecordView,
> {
    if exists|i: int| 0 <= i < fs.len() && fs[i].id == f.id {
        fs
    } else {
        fs.push(f)
    }
}

pub open spec fn insert_field_views(
    fs: Seq<TemplateFieldRecordView>,
    rows: Seq<TemplateFieldRecordView>,
) -> Seq<TemplateFieldRecordView>
    decreases rows.len(),
{
    if rows.len() == 0 {
        fs
    } else {
        insert_field_view(insert_field_views(fs, rows.drop_last()), rows.last())
    }
}


proof fn lemma_category_conflicts_view(cats: Seq<Category>, r: Category)
    ensures
        insert_category_view(cat_views(cats), r@) == if category_conflicts(cats, r.id@, r.name@) {
            cat_views(cats)
        } else {
            cat_views(cats.push(r))
        },
{
    let v = cat_views(cats);
    if category_conflicts(cats, r.id@, r.name@) {
        let i = choose|i: int| 0 <= i < cats.len() && (cats[i].id@ == r.id@ || cats[i].name@ == r.name@);
        assert(v[i] == cats[i]@);
    } else {
        assert forall|i: int| 0 <= i < v.len() implies !(v[i].id == r@.id || v[i].name == r@.name) by {
            assert(v[i] == cats[i]@);
        }
        assert(cat_views(cats.push(r)) =~= v.push(r@));
    }
}

proof fn lemma_conflicts_extend(a: Seq<Category>, b: Seq<Category>, id: Seq<char>, name: Seq<char>)
    requires
        category_conflicts(a, id, name),
        a.len() <= b.len(),
        b.subrange(0, a.len() as int) == a,
    ensures
        category_conflicts(b, id, name),
{
    let i = choose|i: int| 0 <= i < a.len() && (a[i].id@ == id || a[i].name@ == name);
    assert(b[i] == b.subrange(0, a.len() as int)[i]);
}

/// Inserts the rows in turn, each unless its id or name is taken.
#[verifier::loop_isolation(false)]
fn insert_categories_or_ignore(cats: &mut Vec<Category>, rows: &Vec<Category>)
    requires
        unique_by(old(cats)@, category_id_key()),
        unique_by(old(cats)@, category_name_key()),
    ensures
        unique_by(final(cats)@, category_id_key()),
        unique_by(final(cats)@, category_name_key()),
        cat_views(final(cats)@) == insert_category_views(cat_views(old(cats)@), cat_views(rows@)),
        old(cats)@.len() <= final(cats)@.len(),
        final(cats)@.subrange(0, old(cats)@.len() as int) == old(cats)@,
        forall|j: int|
            0 <= j < rows@.len() ==> category_conflicts(
                final(cats)@,
                (#[trigger] rows@[j]).id@,
                rows@[j].name@,
            ),
        (forall|j: int|
            0 <= j < rows@.len() ==> category_conflicts(
                old(cats)@,
                (#[trigger] rows@[j]).id@,
                rows@[j].name@,
            )) ==> *final(cats) == *old(cats),
{
    let n = rows.len();
    let mut i: usize = 0;
    assert(cat_views(rows@).take(0) =~= Seq::<CategoryView>::empty());
    assert(cats@.subrange(0, cats@.len() as int) =~= cats@);
    while i < n
        invariant
            n == rows@.len(),
            i <= n,
            unique_by(cats@, category_id_key()),
            unique_by(cats@, category_name_key()),
            cat_views(cats@) == insert_category_views(
                cat_views(old(cats)@),
                cat_views(rows@).take(i as int),
            ),
            old(cats)@.len() <= cats@.len(),
            cats@.subrange(0, old(cats)@.len() as int) == old(cats)@,
            forall|j: int|
                0 <= j < i ==> category_conflicts(cats@, (#[trigger] rows@[j]).id@, rows@[j].name@),
            (forall|j: int|
                0 <= j < rows@.len() ==> category_conflicts(
                    old(cats)@,
                    (#[trigger] rows@[j]).id@,
                    rows@[j].name@,
                )) ==> *cats == *old(cats),
        decreases n - i,
    {
        let ghost before = cats@;
        let r = rows[i].duplicate();
        proof {
            lemma_category_conflicts_view(before, r);
            assert(cat_views(rows@).take(i + 1).drop_last() =~= cat_views(rows@).take(i as int));
            assert(cat_views(rows@).take(i + 1).last() == r@);
        }
        insert_category_or_ignore(cats, r);
        proof {
            if category_conflicts(before, r.id@, r.name@) {
            } else {
                assert(cats@.subrange(0, old(cats)@.len() as int) =~= before.subrange(
                    0,
                    old(cats)@.len() as int,
                ));
                assert forall|j: int| 0 <= j < i implies category_conflicts(
                    cats@,
                    (#[trigger] rows@[j]).id@,
                    rows@[j].name@,
                ) by {
                    assert(cats@.subrange(0, before.len() as int) =~= before);
                    lemma_conflicts_extend(before, cats@, rows@[j].id@, rows@[j].name@);
                }
                assert(cats@[before.len() as int] == r);
            }
            assert(category_conflicts(cats@, rows@[i as int].id@, rows@[i as int].name@));
        }
        i = i + 1;
    }
    assert(cat_views(rows@).take(n as int) =~= cat_views(rows@));
}

fn new_category(
    id: &str,
    name: &str,
    icon: &str,
    color: &str,
    now: &String,
) -> (c: Category)
    ensures
        c@ == builtin_category_view(id@, name@, icon@, color@, now@),
{
    Category {
        id: String::from_str(id),
        parent_id: None,
        name: String::from_str(name),
        icon: Some(String::from_str(icon)),
        color: Some(String::from_str(color)),
        sort_order: 0,
        created_at: now.clone(),
    }
}

fn builtin_category_rows(now: &String) -> (v: Vec<Category>)
    ensures
        cat_views(v@) == builtin_categories(now@),
{
    let mut v: Vec<Category> = Vec::new();
    v.push(new_category("login", "登录", "globe", "#18a058", now));
    v.push(new_category("database", "数据库", "server", "#2080f0", now));
    v.push(new_category("email", "邮箱", "mail", "#f0a020", now));
    v.push(new_category("custom", "其它", "folder-open", "#7339d8", now));
    assert(cat_views(v@) =~= builtin_categories(now@));
    v
}

/// The categories that the former template categories become.
fn legacy_category_rows(tcs: &Vec<LegacyTemplateCategory>) -> (v: Vec<Category>)
    ensures
        cat_views(v@) == legacy_rows(tcs@),
{
    let mut v: Vec<Category> = Vec::new();
    let n = tcs.len();
    let mut k: usize = 0;
    assert(tcs@.take(0) =~= Seq::<LegacyTemplateCategory>::empty());
    assert(cat_views(v@) =~= Seq::<CategoryView>::empty());
    while k < n
        invariant
            n == tcs@.len(),
            k <= n,
            cat_views(v@) == legacy_rows(tcs@.take(k as int)),
        decreases n - k,
    {
        let tc = &tcs[k];
        assert(tcs@.take(k + 1).drop_last() =~= tcs@.take(k as int));
        assert(tcs@.take(k + 1).last() == *tc);
        if !str_eq(tc.id.as_str(), "cat-builtin") {
            let c = Category {
                id: dup_text(&tc.id),
                parent_id: None,
                name: dup_text(&tc.name),
                icon: dup_opt_text(&tc.icon),
                color: None,
                sort_order: 100,
                created_at: dup_text(&tc.created_at),
            };
            assert(c@ == legacy_category_view(*tc));
            let ghost before = v@;
            v.push(c);
            assert(cat_views(v@) =~= cat_views(before).push(c@));
        }
        k = k + 1;
    }
    assert(tcs@.take(n as int) =~= tcs@);
    v
}

proof fn lemma_legacy_rows_cover(tcs: Seq<LegacyTemplateCategory>, k: int)
    requires
        0 <= k < tcs.len(),
        legacy_copied(tcs[k]),
    ensures
        exists|j: int|
            0 <= j < legacy_rows(tcs).len() && legacy_rows(tcs)[j] == legacy_category_view(tcs[k]),
    decreases tcs.len(),
{
    let prev = legacy_rows(tcs.drop_last());
    if k == tcs.len() - 1 {
        assert(legacy_rows(tcs)[prev.len() as int] == legacy_category_view(tcs[k]));
    } else {
        assert(tcs.drop_last()[k] == tcs[k]);
        lemma_legacy_rows_cover(tcs.drop_last(), k);
        let j = choose|j: int| 0 <= j < prev.len() && prev[j] == legacy_category_view(tcs[k]);
        assert(legacy_rows(tcs)[j] == prev[j]);
    }
}

proof fn lemma_legacy_rows_from(tcs: Seq<LegacyTemplateCategory>, j: int)
    requires
        0 <= j < legacy_rows(tcs).len(),
    ensures
        exists|k: int|
            0 <= k < tcs.len() && legacy_copied(tcs[k]) && legacy_rows(tcs)[j]
                == legacy_category_view(tcs[k]),
    decreases tcs.len(),
{
    let prev = legacy_rows(tcs.drop_last());
    if j < prev.len() {
        assert(legacy_rows(tcs)[j] == prev[j]);
        lemma_legacy_rows_from(tcs.drop_last(), j);
        let k = choose|k: int|
            0 <= k < tcs.drop_last().len() && legacy_copied(tcs.drop_last()[k]) && prev[j]
                == legacy_category_view(tcs.drop_last()[k]);
        assert(tcs.drop_last()[k] == tcs[k]);
    } else {
        assert(legacy_rows(tcs)[j] == legacy_category_view(tcs.last()));
    }
}


/// Inserts the template rows in turn, each unless its id is taken.
#[verifier::loop_isolation(false)]
fn insert_templates_or_ignore(ts: &mut Vec<TemplateRecord>, rows: &Vec<TemplateRecord>)
    requires
        unique_by(old(ts)@, template_key()),
    ensures
        unique_by(final(ts)@, template_key()),
        template_views(final(ts)@) == insert_template_views(
            template_views(old(ts)@),
            template_views(rows@),
        ),
        forall|j: int|
            0 <= j < rows@.len() ==> has_key(final(ts)@, template_key(), (#[trigger] rows@[j]).id@),
        (forall|j: int|
            0 <= j < rows@.len() ==> has_key(old(ts)@, template_key(), (#[trigger] rows@[j]).id@))
            ==> *final(ts) == *old(ts),
{
    let n = rows.len();
    let mut i: usize = 0;
    assert(template_views(rows@).take(0) =~= Seq::<TemplateRecordView>::empty());
    while i < n
        invariant
            n == rows@.len(),
            i <= n,
            unique_by(ts@, template_key()),
            template_views(ts@) == insert_template_views(
                template_views(old(ts)@),
                template_views(rows@).take(i as int),
            ),
            forall|j: int| 0 <= j < i ==> has_key(ts@, template_key(), (#[trigger] rows@[j]).id@),
            (forall|j: int|
                0 <= j < rows@.len() ==> has_key(
                    old(ts)@,
                    template_key(),
                    (#[trigger] rows@[j]).id@,
                )) ==> *ts == *old(ts),
        decreases n - i,
    {
        let ghost before = ts@;
        let r = rows[i].duplicate();
        proof {
            assert(template_views(rows@).take(i + 1).drop_last() =~= template_views(rows@).take(
                i as int,
            ));
            assert(template_views(rows@).take(i + 1).last() == r@);
            let v = template_views(before);
            if has_key(before, template_key(), r.id@) {
                let w = choose|w: int| 0 <= w < before.len() && template_key()(before[w]) == r.id@;
                assert(v[w].id == r@.id);
            } else {
                assert forall|w: int| 0 <= w < v.len() implies v[w].id != r@.id by {
                    assert(template_key()(before[w]) != r.id@);
                }
                assert(template_views(before.push(r)) =~= v.push(r@));
            }
        }
        insert_template_or_ignore(ts, r);
        proof {
            assert forall|j: int| 0 <= j <= i implies has_key(
                ts@,
                template_key(),
                (#[trigger] rows@[j]).id@,
            ) by {
                if j < i {
                    let w = choose|w: int|
                        0 <= w < before.len() && template_key()(before[w]) == rows@[j].id@;
                    assert(ts@[w] == before[w]);
                } else if !has_key(before, template_key(), r.id@) {
                    assert(template_key()(ts@[before.len() as int]) == r.id@);
                }
            }
        }
        i = i + 1;
    }
    assert(template_views(rows@).take(n as int) =~= template_views(rows@));
}

/// Inserts the template field rows in turn, each unless its id is taken.
#[verifier::loop_isolation(false)]
fn insert_fields_or_ignore(fs: &mut Vec<TemplateFieldRecord>, rows: &Vec<TemplateFieldRecord>)
    requires
        unique_by(old(fs)@, field_key()),
    ensures
        unique_by(final(fs)@, field_key()),
        field_views(final(fs)@) == insert_field_views(field_views(old(fs)@), field_views(rows@)),
        forall|j: int|
            0 <= j < rows@.len() ==> has_key(final(fs)@, field_key(), (#[trigger] rows@[j]).id@),
        (forall|j: int|
            0 <= j < rows@.len() ==> has_key(old(fs)@, field_key(), (#[trigger] rows@[j]).id@))
            ==> *final(fs) == *old(fs),
{
    let n = rows.len();
    let mut i: usize = 0;
    assert(field_views(rows@).take(0) =~= Seq::<TemplateFieldRecordView>::empty());
    while i < n
        invariant
            n == rows@.len(),
            i <= n,
            unique_by(fs@, field_key()),
            field_views(fs@) == insert_field_views(
                field_views(old(fs)@),
                field_views(rows@).take(i as int),
            ),
            forall|j: int| 0 <= j < i ==> has_key(fs@, field_key(), (#[trigger] rows@[j]).id@),
            (forall|j: int|
                0 <= j < rows@.len() ==> has_key(old(fs)@, field_key(), (#[trigger] rows@[j]).id@))
                ==> *fs == *old(fs),
        decreases n - i,
    {
        let ghost before = fs@;
        let r = rows[i].duplicate();
        proof {
            assert(field_views(rows@).take(i + 1).drop_last() =~= field_views(rows@).take(
                i as int,
            ));
            assert(field_views(rows@).take(i + 1).last() == r@);
            let v = field_views(before);
            if has_key(before, field_key(), r.id@) {
                let w = choose|w: int| 0 <= w < before.len() && field_key()(before[w]) == r.id@;
                assert(v[w].id == r@.id);
            } else {
                assert forall|w: int| 0 <= w < v.len() implies v[w].id != r@.id by {
                    assert(field_key()(before[w]) != r.id@);
                }
                assert(field_views(before.push(r)) =~= v.push(r@));
            }
        }
        insert_field_or_ignore(fs, r);
        proof {
            assert forall|j: int| 0 <= j <= i implies has_key(
                fs@,
                field_key(),
                (#[trigger] rows@[j]).id@,
            ) by {
                if j < i {
                    let w = choose|w: int|
                        0 <= w < before.len() && field_key()(before[w]) == rows@[j].id@;
                    assert(fs@[w] == before[w]);
                } else if !has_key(before, field_key(), r.id@) {
                    assert(field_key()(fs@[before.len() as int]) == r.id@);
                }
            }
        }
        i = i + 1;
    }
    assert(field_views(rows@).take(n as int) =~= field_views(rows@));
}

fn new_template(
    id: &str,
    category_id: &str,
    name: &str,
    icon: &str,
    note: &str,
    now: &String,
) -> (t: TemplateRecord)
    ensures
        t@ == builtin_template_view(id@, category_id@, name@, icon@, note@, now@),
{
    TemplateRecord {
        id: String::from_str(id),
        category_id: String::from_str(category_id),
        name: String::from_str(name),
        icon: Some(String::from_str(icon)),
        note: Some(String::from_str(note)),
        created_at: now.clone(),
        updated_at: now.clone(),
    }
}

fn builtin_template_rows(now: &String) -> (v: Vec<TemplateRecord>)
    ensures
        template_views(v@) == builtin_templates(now@),
{
    let mut v: Vec<TemplateRecord> = Vec::new();
    v.push(new_template("tmpl-login", "login", "登录", "globe", "网站账号登录信息", now));
    v.push(new_template("tmpl-database", "database", "数据库", "server", "数据库连接信息", now));
    v.push(new_template("tmpl-email", "email", "邮箱", "mail", "邮箱账号与邮件服务器", now));
    v.push(new_template("tmpl-custom", "custom", "其它", "document-text", "", now));
    assert(template_views(v@) =~= builtin_templates(now@));
    v
}

fn new_field(
    id: &str,
    template_id: &str,
    name: &str,
    field_type: &str,
    secret: bool,
    sort_order: i64,
) -> (f: TemplateFieldRecord)
    ensures
        f@ == builtin_field_view(id@, template_id@, name@, field_type@, secret, sort_order),
{
    TemplateFieldRecord {
        id: String::from_str(id),
        template_id: String::from_str(template_id),
        name: String::from_str(name),
        field_type: String::from_str(field_type),
        secret,
        sort_order,
    }
}

fn builtin_field_rows() -> (v: Vec<TemplateFieldRecord>)
    ensures
        field_views(v@) == builtin_fields(),
{
    let mut v: Vec<TemplateFieldRecord> = Vec::new();
    v.push(new_field("tf-tmpl-login-1", "tmpl-login", "URL", "url", false, 0));
    v.push(new_field("tf-tmpl-login-2", "tmpl-login", "用户名", "text", false, 1));
    v.push(new_field("tf-tmpl-login-3", "tmpl-login", "密码", "password", true, 2));
    v.push(new_field("tf-tmpl-database-1", "tmpl-database", "主机", "text", false, 0));
    v.push(new_field("tf-tmpl-database-2", "tmpl-database", "端口", "text", false, 1));
    v.push(new_field("tf-tmpl-database-3", "tmpl-database", "数据库名", "text", false, 2));
    v.push(new_field("tf-tmpl-database-4", "tmpl-database", "用户名", "text", false, 3));
    v.push(new_field("tf-tmpl-database-5", "tmpl-database", "密码", "password", true, 4));
    v.push(new_field("tf-tmpl-email-1", "tmpl-email", "邮箱地址", "email", false, 0));
    v.push(new_field("tf-tmpl-email-2", "tmpl-email", "密码", "password", true, 1));
    v.push(new_field("tf-tmpl-email-3", "tmpl-email", "SMTP服务器", "text", false, 2));
    v.push(new_field("tf-tmpl-email-4", "tmpl-email", "端口", "text", false, 3));
    v.push(new_field("tf-tmpl-custom-1", "tmpl-custom", "用户", "text", false, 0));
    v.push(new_field("tf-tmpl-custom-2", "tmpl-custom", "密码", "password", true, 1));
    assert(field_views(v@) =~= builtin_fields());
    v
}


proof fn lemma_builtin_template_ids_distinct()
    ensures
        "tmpl-login"@ != "tmpl-database"@,
        "tmpl-login"@ != "tmpl-email"@,
        "tmpl-login"@ != "tmpl-custom"@,
        "tmpl-database"@ != "tmpl-email"@,
        "tmpl-database"@ != "tmpl-custom"@,
        "tmpl-email"@ != "tmpl-custom"@,
{
    reveal_strlit("tmpl-login");
    reveal_strlit("tmpl-database");
    reveal_strlit("tmpl-email");
    reveal_strlit("tmpl-custom");
    assert("tmpl-login"@[5] != "tmpl-email"@[5]);
    assert("tmpl-database"@.len() != "tmpl-custom"@.len());
    assert("tmpl-database"@.len() != "tmpl-email"@.len());
    assert("tmpl-database"@.len() != "tmpl-login"@.len());
    assert("tmpl-custom"@.len() != "tmpl-email"@.len());
    assert("tmpl-custom"@.len() != "tmpl-login"@.len());
}

/// Points every built-in template at its built-in category.
fn fix_builtin_template_categories(ts: &mut Vec<TemplateRecord>)
    requires
        unique_by(old(ts)@, template_key()),
    ensures
        unique_by(final(ts)@, template_key()),
        template_views(final(ts)@) == fix_builtin_categories(template_views(old(ts)@)),
        (forall|k: int|
            0 <= k < old(ts)@.len() ==> (builtin_category_of((#[trigger] old(ts)@[k]).id@) matches Some(
                c,
            ) ==> old(ts)@[k].category_id@ == c)) ==> *final(ts) == *old(ts),
{
    let ghost s0 = ts@;
    set_template_category(ts, "tmpl-login", "login");
    let ghost s1 = ts@;
    set_template_category(ts, "tmpl-database", "database");
    let ghost s2 = ts@;
    set_template_category(ts, "tmpl-email", "email");
    let ghost s3 = ts@;
    set_template_category(ts, "tmpl-custom", "custom");
    proof {
        lemma_builtin_template_ids_distinct();
        assert forall|k: int| 0 <= k < s0.len() implies #[trigger] template_views(ts@)[k]
            == fix_builtin_categories(template_views(s0))[k] by {
            let t = s0[k];
            assert(s1[k]@.id == t.id@);
            assert(s2[k]@.id == t.id@);
            assert(s3[k]@.id == t.id@);
        }
        assert(template_views(ts@) =~= fix_builtin_categories(template_views(s0)));
    }
}

impl DbState {
    /// Seeds the built-in categories, templates and template fields (fixed
    /// ids, so `INSERT OR IGNORE` makes it idempotent), folds the former
    /// template categories into the categories, and points each built-in
    /// template at its built-in category.
    pub fn seed_builtin_templates(&mut self, now: &String)
        requires
            old(self).wf(),
        ensures
            final(self).wf(),
            cat_views(final(self).categories@) == seed_categories(
                cat_views(old(self).categories@),
                old(self).template_categories@,
                now@,
            ),
            template_views(final(self).templates@) == seed_templates(
                template_views(old(self).templates@),
                now@,
            ),
            field_views(final(self).template_fields@) == insert_field_views(
                field_views(old(self).template_fields@),
                builtin_fields(),
            ),
            final(self).master_key == old(self).master_key,
            final(self).entries == old(self).entries,
            final(self).tags == old(self).tags,
            final(self).entry_tags == old(self).entry_tags,
            final(self).settings == old(self).settings,
            final(self).otp_entries == old(self).otp_entries,
            final(self).template_categories == old(self).template_categories,
            seeded(*final(self)),
            seeded(*old(self)) ==> *final(self) == *old(self),
    {
        let ghost old_db = *self;
        let cat_rows = builtin_category_rows(now);
        insert_categories_or_ignore(&mut self.categories, &cat_rows);
        let ghost cats1 = self.categories@;
        let legacy = legacy_category_rows(&self.template_categories);
        insert_categories_or_ignore(&mut self.categories, &legacy);
        let tmpl_rows = builtin_template_rows(now);
        insert_templates_or_ignore(&mut self.templates, &tmpl_rows);
        let ghost ts1 = self.templates@;
        fix_builtin_template_categories(&mut self.templates);
        let field_rows = builtin_field_rows();
        insert_fields_or_ignore(&mut self.template_fields, &field_rows);
        proof {
            // the built-in categories
            assert forall|b: int| 0 <= b < 4 implies category_conflicts(
                self.categories@,
                #[trigger] builtin_categories(""@)[b].id,
                builtin_categories(""@)[b].name,
            ) by {
                assert(cat_rows@[b]@ == builtin_categories(now@)[b]);
                assert(cat_rows@[b].id@ == builtin_categories(""@)[b].id);
                assert(cat_rows@[b].name@ == builtin_categories(""@)[b].name);
                lemma_conflicts_extend(cats1, self.categories@, cat_rows@[b].id@, cat_rows@[b].name@);
            }
            // the former template categories
            let tcs = self.template_categories@;
            assert forall|k: int|
                0 <= k < tcs.len() && legacy_copied(#[trigger] tcs[k]) implies category_conflicts(
                self.categories@,
                tcs[k].id@,
                tcs[k].name@,
            ) by {
                lemma_legacy_rows_cover(tcs, k);
                let j = choose|j: int|
                    0 <= j < legacy_rows(tcs).len() && legacy_rows(tcs)[j] == legacy_category_view(
                        tcs[k],
                    );
                assert(cat_views(legacy@)[j] == legacy@[j]@);
            }
            // the built-in templates
            assert forall|b: int| 0 <= b < 4 implies has_key(
                self.templates@,
                template_key(),
                #[trigger] builtin_templates(""@)[b].id,
            ) by {
                assert(tmpl_rows@[b]@ == builtin_templates(now@)[b]);
                let w = choose|w: int| 0 <= w < ts1.len() && template_key()(ts1[w]) == tmpl_rows@[b].id@;
                assert(template_views(self.templates@).len() == template_views(ts1).len());
                assert(fix_builtin_categories(template_views(ts1))[w] == fix_builtin_category(template_views(ts1)[w]));
                assert(template_views(self.templates@)[w] == fix_builtin_category(template_views(ts1)[w]));
                assert(template_views(self.templates@)[w] == self.templates@[w]@);
                assert(self.templates@[w].id@ == ts1[w].id@);
            }
            assert forall|k: int| 0 <= k < self.templates@.len() implies (builtin_category_of(
                (#[trigger] self.templates@[k]).id@,
            ) matches Some(c) ==> self.templates@[k].category_id@ == c) by {
                assert(template_views(self.templates@).len() == template_views(ts1).len());
                assert(fix_builtin_categories(template_views(ts1))[k] == fix_builtin_category(template_views(ts1)[k]));
                assert(template_views(self.templates@)[k] == fix_builtin_category(template_views(ts1)[k]));
                assert(template_views(self.templates@)[k] == self.templates@[k]@);
                assert(template_views(ts1)[k] == ts1[k]@);
            }
            // the built-in fields
            assert forall|b: int| 0 <= b < 14 implies has_key(
                self.template_fields@,
                field_key(),
                #[trigger] builtin_fields()[b].id,
            ) by {
                assert(field_rows@[b]@ == builtin_fields()[b]);
            }
            // idempotence
            if seeded(old_db) {
                assert forall|j: int| 0 <= j < cat_rows@.len() implies category_conflicts(
                    old_db.categories@,
                    (#[trigger] cat_rows@[j]).id@,
                    cat_rows@[j].name@,
                ) by {
                    assert(cat_rows@[j]@ == builtin_categories(now@)[j]);
                    assert(builtin_categories(now@)[j].id == builtin_categories(""@)[j].id);
                    assert(builtin_categories(now@)[j].name == builtin_categories(""@)[j].name);
                }
                assert(cats1 == old_db.categories@);
                assert forall|j: int| 0 <= j < legacy@.len() implies category_conflicts(
                    cats1,
                    (#[trigger] legacy@[j]).id@,
                    legacy@[j].name@,
                ) by {
                    assert(cat_views(legacy@)[j] == legacy@[j]@);
                    lemma_legacy_rows_from(old_db.template_categories@, j);
                }
                assert forall|j: int| 0 <= j < tmpl_rows@.len() implies has_key(
                    old_db.templates@,
                    template_key(),
                    (#[trigger] tmpl_rows@[j]).id@,
                ) by {
                    assert(tmpl_rows@[j]@ == builtin_templates(now@)[j]);
                    assert(builtin_templates(now@)[j].id == builtin_templates(""@)[j].id);
                }
                assert forall|j: int| 0 <= j < field_rows@.len() implies has_key(
                    old_db.template_fields@,
                    field_key(),
                    (#[trigger] field_rows@[j]).id@,
                ) by {
                    assert(field_views(field_rows@).len() == field_rows@.len());
                    assert(field_views(field_rows@)[j] == field_rows@[j]@);
                    assert(field_rows@[j]@ == builtin_fields()[j]);
                    assert(has_key(old_db.template_fields@, field_key(), builtin_fields()[j].id));
                }
            }
        }
    }

    /// Prepares a vault opened from storage: the built-in categories,
    /// templates and fields as of now, and the default settings.
    pub fn initialize(&mut self)
        requires
            old(self).wf(),
        ensures
            final(self).wf(),
            seeded(*final(self)),
            exists|now: String|
                cat_views(final(self).categories@) == #[trigger] seed_categories(
                    cat_views(old(self).categories@),
                    old(self).template_categories@,
                    now@,
                ) && template_views(final(self).templates@) == seed_templates(
                    template_views(old(self).templates@),
                    now@,
                ),
            field_views(final(self).template_fields@) == insert_field_views(
                field_views(old(self).template_fields@),
                builtin_fields(),
            ),
            setting_views(final(self).settings@) == default_settings_after(
                setting_views(old(self).settings@),
            ),
            has_default_settings(setting_views(final(self).settings@)),
            final(self).master_key == old(self).master_key,
            final(self).entries == old(self).entries,
            final(self).tags == old(self).tags,
            final(self).entry_tags == old(self).entry_tags,
            final(self).otp_entries == old(self).otp_entries,
            final(self).template_categories == old(self).template_categories,
    {
        let now = crate::text::u64_to_decimal(crate::state::now_secs());
        self.seed_builtin_templates(&now);
        let ghost after_seed = *self;
        self.seed_default_settings();
        assert(seeded(*self)) by {
            assert(self.categories == after_seed.categories);
            assert(self.templates == after_seed.templates);
            assert(self.template_fields == after_seed.template_fields);
        }
        proof {
            lemma_defaults_present(setting_views(after_seed.settings@));
        }
    }

    /// Adds the default settings whose keys are missing: a lock timeout of
    /// 30 seconds, the light theme and the default storage path.
    pub fn seed_default_settings(&mut self)
        requires
            old(self).wf(),
        ensures
            final(self).wf(),
            setting_views(final(self).settings@) == default_settings_after(
                setting_views(old(self).settings@),
            ),
            final(self).master_key == old(self).master_key,
            final(self).entries == old(self).entries,
            final(self).tags == old(self).tags,
            final(self).entry_tags == old(self).entry_tags,
            final(self).otp_entries == old(self).otp_entries,
            final(self).categories == old(self).categories,
            final(self).templates == old(self).templates,
            final(self).template_fields == old(self).template_fields,
            final(self).template_categories == old(self).template_categories,
    {
        let ghost s0 = self.settings@;
        insert_setting_or_ignore(
            &mut self.settings,
            ExportSetting { key: String::from_str("lock_timeout"), value: String::from_str("30") },
        );
        let ghost s1 = self.settings@;
        insert_setting_or_ignore(
            &mut self.settings,
            ExportSetting { key: String::from_str("theme"), value: String::from_str("light") },
        );
        let ghost s2 = self.settings@;
        insert_setting_or_ignore(
            &mut self.settings,
            ExportSetting { key: String::from_str("storage_path"), value: String::from_str("") },
        );
    }
}

pub open spec fn setting_views(s: Seq<ExportSetting>) -> Seq<(Seq<char>, Seq<char>)> {
    s.map_values(|x: ExportSetting| x@)
}

/// `INSERT OR IGNORE` of a setting, on settings as characters.
pub open spec fn insert_setting_view(ss: Seq<(Seq<char>, Seq<char>)>, key: Seq<char>, value: Seq<char>) -> Seq<
    (Seq<char>, Seq<char>),
> {
    if exists|i: int| 0 <= i < ss.len() && ss[i].0 == key {
        ss
    } else {
        ss.push((key, value))
    }
}

/// The settings once the missing defaults are added.
pub open spec fn default_settings_after(ss: Seq<(Seq<char>, Seq<char>)>) -> Seq<(Seq<char>, Seq<char>)> {
    insert_setting_view(
        insert_setting_view(insert_setting_view(ss, "lock_timeout"@, "30"@), "theme"@, "light"@),
        "storage_path"@,
        ""@,
    )
}

// ---------------------------------------------------------------- checking

/// No two of the texts are equal.
pub open spec fn distinct_texts(keys: Seq<Seq<char>>) -> bool {
    forall|i: int, j: int| 0 <= i < keys.len() && 0 <= j < keys.len() && i != j ==> keys[i] != keys[j]
}

fn all_distinct(keys: &Vec<String>) -> (r: bool)
    ensures
        r == distinct_texts(keys@.map_values(|k: String| k@)),
{
    let ghost v = keys@.map_values(|k: String| k@);
    let n = keys.len();
    let mut i: usize = 0;
    while i < n
        invariant
            n == keys@.len(),
            i <= n,
            v == keys@.map_values(|k: String| k@),
            forall|a: int, b: int| 0 <= a < i && 0 <= b < n && a != b ==> v[a] != v[b],
        decreases n - i,
    {
        let mut j: usize = 0;
        while j < n
            invariant
                n == keys@.len(),
                i < n,
                j <= n,
                v == keys@.map_values(|k: String| k@),
                forall|a: int, b: int| 0 <= a < i && 0 <= b < n && a != b ==> v[a] != v[b],
                forall|b: int| 0 <= b < j && b != i ==> v[i as int] != v[b],
            decreases n - j,
        {
            if j != i && str_eq(keys[i].as_str(), keys[j].as_str()) {
                assert(v[i as int] == v[j as int]);
                return false;
            }
            j = j + 1;
        }
        i = i + 1;
    }
    proof {
        assert forall|a: int, b: int| 0 <= a < v.len() && 0 <= b < v.len() && a != b implies v[a] != v[b] by {
            if a < n {
            }
        }
    }
    true
}

/// Whether the keys drawn from rows are distinct, with the rows.
proof fn lemma_keys_distinct<T>(rows: Seq<T>, keys: Seq<String>, key: spec_fn(T) -> Seq<char>)
    requires
        rows.len() == keys.len(),
        forall|k: int| 0 <= k < rows.len() ==> #[trigger] keys[k]@ == key(rows[k]),
    ensures
        unique_by(rows, key) == distinct_texts(keys.map_values(|k: String| k@)),
{
    let v = keys.map_values(|k: String| k@);
    if unique_by(rows, key) {
        assert forall|i: int, j: int| 0 <= i < v.len() && 0 <= j < v.len() && i != j implies v[i] != v[j] by {
            assert(v[i] == keys[i]@ && v[j] == keys[j]@);
        }
    }
    if distinct_texts(v) {
        assert forall|i: int, j: int| 0 <= i < rows.len() && 0 <= j < rows.len() && i != j implies key(rows[i]) != key(rows[j]) by {
            assert(v[i] == keys[i]@ && v[j] == keys[j]@);
        }
    }
}

fn links_distinct(links: &Vec<ExportEntryTag>) -> (r: bool)
    ensures
        r == unique_by(links@, link_key()),
{
    let n = links.len();
    let mut i: usize = 0;
    while i < n
        invariant
            n == links@.len(),
            i <= n,
            forall|a: int, b: int| 0 <= a < i && 0 <= b < n && a != b ==> link_key()(links@[a]) != link_key()(links@[b]),
        decreases n - i,
    {
        let mut j: usize = 0;
        while j < n
            invariant
                n == links@.len(),
                i < n,
                j <= n,
                forall|a: int, b: int| 0 <= a < i && 0 <= b < n && a != b ==> link_key()(links@[a]) != link_key()(links@[b]),
                forall|b: int| 0 <= b < j && b != i ==> link_key()(links@[i as int]) != link_key()(links@[b]),
            decreases n - j,
        {
            if j != i && str_eq(links[i].entry_id.as_str(), links[j].entry_id.as_str()) && str_eq(
                links[i].tag_id.as_str(),
                links[j].tag_id.as_str(),
            ) {
                return false;
            }
            j = j + 1;
        }
        i = i + 1;
    }
    true
}

impl DbState {
    /// Whether the vault keeps its rules (see [`DbState::wf`]); a vault read
    /// from storage is checked with this before the commands work on it.
    pub fn check_wf(&self) -> (r: bool)
        ensures
            r == self.wf(),
    {
        let mut entry_ids: Vec<String> = Vec::new();
        let mut i: usize = 0;
        while i < self.entries.len()
            invariant
                i <= self.entries@.len(),
                entry_ids@.len() == i,
                forall|k: int| 0 <= k < i ==> #[trigger] entry_ids@[k]@ == entry_key()(self.entries@[k]),
            decreases self.entries@.len() - i,
        {
            entry_ids.push(dup_text(&self.entries[i].id));
            i = i + 1;
        }
        proof { lemma_keys_distinct(self.entries@, entry_ids@, entry_key()); }
        let mut tag_ids: Vec<String> = Vec::new();
        let mut tag_names: Vec<String> = Vec::new();
        let mut i: usize = 0;
        while i < self.tags.len()
            invariant
                i <= self.tags@.len(),
                tag_ids@.len() == i,
                tag_names@.len() == i,
                forall|k: int| 0 <= k < i ==> #[trigger] tag_ids@[k]@ == tag_id_key()(self.tags@[k]),
                forall|k: int| 0 <= k < i ==> #[trigger] tag_names@[k]@ == tag_name_key()(self.tags@[k]),
            decreases self.tags@.len() - i,
        {
            tag_ids.push(dup_text(&self.tags[i].id));
            tag_names.push(dup_text(&self.tags[i].name));
            i = i + 1;
        }
        proof {
            lemma_keys_distinct(self.tags@, tag_ids@, tag_id_key());
            lemma_keys_distinct(self.tags@, tag_names@, tag_name_key());
        }
        let mut setting_keys: Vec<String> = Vec::new();
        let mut i: usize = 0;
        while i < self.settings.len()
            invariant
                i <= self.settings@.len(),
                setting_keys@.len() == i,
                forall|k: int| 0 <= k < i ==> #[trigger] setting_keys@[k]@ == setting_key()(self.settings@[k]),
            decreases self.settings@.len() - i,
        {
            setting_keys.push(dup_text(&self.settings[i].key));
            i = i + 1;
        }
        proof { lemma_keys_distinct(self.settings@, setting_keys@, setting_key()); }
        let mut otp_ids: Vec<String> = Vec::new();
        let mut i: usize = 0;
        while i < self.otp_entries.len()
            invariant
                i <= self.otp_entries@.len(),
                otp_ids@.len() == i,
                forall|k: int| 0 <= k < i ==> #[trigger] otp_ids@[k]@ == otp_key()(self.otp_entries@[k]),
            decreases self.otp_entries@.len() - i,
        {
            otp_ids.push(dup_text(&self.otp_entries[i].id));
            i = i + 1;
        }
        proof { lemma_keys_distinct(self.otp_entries@, otp_ids@, otp_key()); }
        let mut cat_ids: Vec<String> = Vec::new();
        let mut cat_names: Vec<String> = Vec::new();
        let mut i: usize = 0;
        while i < self.categories.len()
            invariant
                i <= self.categories@.len(),
                cat_ids@.len() == i,
                cat_names@.len() == i,
                forall|k: int| 0 <= k < i ==> #[trigger] cat_ids@[k]@ == category_id_key()(self.categories@[k]),
                forall|k: int| 0 <= k < i ==> #[trigger] cat_names@[k]@ == category_name_key()(self.categories@[k]),
            decreases self.categories@.len() - i,
        {
            cat_ids.push(dup_text(&self.categories[i].id));
            cat_names.push(dup_text(&self.categories[i].name));
            i = i + 1;
        }
        proof {
            lemma_keys_distinct(self.categories@, cat_ids@, category_id_key());
            lemma_keys_distinct(self.categories@, cat_names@, category_name_key());
        }
        let mut tmpl_ids: Vec<String> = Vec::new();
        let mut i: usize = 0;
        while i < self.templates.len()
            invariant
                i <= self.templates@.len(),
                tmpl_ids@.len() == i,
                forall|k: int| 0 <= k < i ==> #[trigger] tmpl_ids@[k]@ == template_key()(self.templates@[k]),
            decreases self.templates@.len() - i,
        {
            tmpl_ids.push(dup_text(&self.templates[i].id));
            i = i + 1;
        }
        proof { lemma_keys_distinct(self.templates@, tmpl_ids@, template_key()); }
        let mut field_ids: Vec<String> = Vec::new();
        let mut i: usize = 0;
        while i < self.template_fields.len()
            invariant
                i <= self.template_fields@.len(),
                field_ids@.len() == i,
                forall|k: int| 0 <= k < i ==> #[trigger] field_ids@[k]@ == field_key()(self.template_fields@[k]),
            decreases self.template_fields@.len() - i,
        {
            field_ids.push(dup_text(&self.template_fields[i].id));
            i = i + 1;
        }
        proof { lemma_keys_distinct(self.template_fields@, field_ids@, field_key()); }
        let mut legacy_ids: Vec<String> = Vec::new();
        let mut legacy_names: Vec<String> = Vec::new();
        let mut i: usize = 0;
        while i < self.template_categories.len()
            invariant
                i <= self.template_categories@.len(),
                legacy_ids@.len() == i,
                legacy_names@.len() == i,
                forall|k: int| 0 <= k < i ==> #[trigger] legacy_ids@[k]@ == legacy_id_key()(self.template_categories@[k]),
                forall|k: int| 0 <= k < i ==> #[trigger] legacy_names@[k]@ == legacy_name_key()(self.template_categories@[k]),
            decreases self.template_categories@.len() - i,
        {
            legacy_ids.push(dup_text(&self.template_categories[i].id));
            legacy_names.push(dup_text(&self.template_categories[i].name));
            i = i + 1;
        }
        proof {
            lemma_keys_distinct(self.template_categories@, legacy_ids@, legacy_id_key());
            lemma_keys_distinct(self.template_categories@, legacy_names@, legacy_name_key());
        }
        let salt_ok = match &self.master_key {
            None => true,
            Some(m) => match hex_decode(m.salt.as_str()) {
                Err(_) => true,
                Ok(s) => 8 <= s.len() && s.len() <= 0xFFFF_FFFF,
            },
        };
        all_distinct(&entry_ids) && all_distinct(&tag_ids) && all_distinct(&tag_names) && links_distinct(
            &self.entry_tags,
        ) && all_distinct(&setting_keys) && all_distinct(&otp_ids) && all_distinct(&cat_ids)
            && all_distinct(&cat_names) && all_distinct(&tmpl_ids) && all_distinct(&field_ids)
            && all_distinct(&legacy_ids) && all_distinct(&legacy_names) && salt_ok
    }
}

proof fn lemma_category_inserts_blocked(cats: Seq<CategoryView>, rows: Seq<CategoryView>)
    requires
        forall|k: int|
            0 <= k < rows.len() ==> exists|i: int|
                0 <= i < cats.len() && (cats[i].id == (#[trigger] rows[k]).id || cats[i].name == rows[k].name),
    ensures
        insert_category_views(cats, rows) == cats,
    decreases rows.len(),
{
    if rows.len() > 0 {
        assert forall|k: int| 0 <= k < rows.drop_last().len() implies exists|i: int|
            0 <= i < cats.len() && (cats[i].id == (#[trigger] rows.drop_last()[k]).id || cats[i].name
                == rows.drop_last()[k].name) by {
            assert(rows.drop_last()[k] == rows[k]);
            let i = choose|i: int| 0 <= i < cats.len() && (cats[i].id == rows[k].id || cats[i].name == rows[k].name);
            assert(cats[i].id == rows.drop_last()[k].id || cats[i].name == rows.drop_last()[k].name);
        }
        lemma_category_inserts_blocked(cats, rows.drop_last());
        assert(rows.last() == rows[rows.len() - 1]);
    }
}

proof fn lemma_template_inserts_blocked(ts: Seq<TemplateRecordView>, rows: Seq<TemplateRecordView>)
    requires
        forall|k: int|
            0 <= k < rows.len() ==> exists|i: int| 0 <= i < ts.len() && ts[i].id == (#[trigger] rows[k]).id,
    ensures
        insert_template_views(ts, rows) == ts,
    decreases rows.len(),
{
    if rows.len() > 0 {
        assert forall|k: int| 0 <= k < rows.drop_last().len() implies exists|i: int|
            0 <= i < ts.len() && ts[i].id == (#[trigger] rows.drop_last()[k]).id by {
            assert(rows.drop_last()[k] == rows[k]);
            let i = choose|i: int| 0 <= i < ts.len() && ts[i].id == rows[k].id;
            assert(ts[i].id == rows.drop_last()[k].id);
        }
        lemma_template_inserts_blocked(ts, rows.drop_last());
        assert(rows.last() == rows[rows.len() - 1]);
    }
}

spec fn field_id_taken(fs: Seq<TemplateFieldRecordView>, id: Seq<char>) -> bool {
    exists|i: int| 0 <= i < fs.len() && fs[i].id == id
}

proof fn lemma_field_inserts_blocked(fs: Seq<TemplateFieldRecordView>, rows: Seq<TemplateFieldRecordView>)
    requires
        forall|k: int| 0 <= k < rows.len() ==> field_id_taken(fs, #[trigger] rows[k].id),
    ensures
        insert_field_views(fs, rows) == fs,
    decreases rows.len(),
{
    if rows.len() > 0 {
        let d = rows.drop_last();
        assert forall|k: int| 0 <= k < d.len() implies field_id_taken(fs, #[trigger] d[k].id) by {
            assert(d[k] == rows[k]);
        }
        lemma_field_inserts_blocked(fs, d);
        assert(field_id_taken(fs, rows[rows.len() - 1].id));
        assert(rows.last() == rows[rows.len() - 1]);
    }
}

/// The default settings are all there.
pub open spec fn has_default_settings(ss: Seq<(Seq<char>, Seq<char>)>) -> bool {
    &&& exists|i: int| 0 <= i < ss.len() && ss[i].0 == "lock_timeout"@
    &&& exists|i: int| 0 <= i < ss.len() && ss[i].0 == "theme"@
    &&& exists|i: int| 0 <= i < ss.len() && ss[i].0 == "storage_path"@
}

/// Seeding again changes nothing: on a seeded vault whose default settings
/// are there (as [`DbState::initialize`] leaves it), the categories,
/// templates, template fields and settings that a second initialization
/// computes, at any time, are those already stored.
pub proof fn lemma_initialize_twice(db: DbState, now: Seq<char>)
    requires
        seeded(db),
        has_default_settings(setting_views(db.settings@)),
    ensures
        seed_categories(cat_views(db.categories@), db.template_categories@, now) == cat_views(
            db.categories@,
        ),
        seed_templates(template_views(db.templates@), now) == template_views(db.templates@),
        insert_field_views(field_views(db.template_fields@), builtin_fields()) == field_views(
            db.template_fields@,
        ),
        default_settings_after(setting_views(db.settings@)) == setting_views(db.settings@),
{
    let cats = cat_views(db.categories@);
    let b = builtin_categories(now);
    assert forall|k: int| 0 <= k < b.len() implies exists|i: int|
        0 <= i < cats.len() && (cats[i].id == (#[trigger] b[k]).id || cats[i].name == b[k].name) by {
        assert(b[k].id == builtin_categories(""@)[k].id && b[k].name == builtin_categories(""@)[k].name);
        assert(category_conflicts(db.categories@, builtin_categories(""@)[k].id, builtin_categories(""@)[k].name));
        let i = choose|i: int|
            0 <= i < db.categories@.len() && (db.categories@[i].id@ == builtin_categories(""@)[k].id
                || db.categories@[i].name@ == builtin_categories(""@)[k].name);
        assert(cats[i] == db.categories@[i]@);
    }
    lemma_category_inserts_blocked(cats, b);
    let l = legacy_rows(db.template_categories@);
    assert forall|j: int| 0 <= j < l.len() implies exists|i: int|
        0 <= i < cats.len() && (cats[i].id == (#[trigger] l[j]).id || cats[i].name == l[j].name) by {
        lemma_legacy_rows_from(db.template_categories@, j);
        let k = choose|k: int|
            0 <= k < db.template_categories@.len() && legacy_copied(db.template_categories@[k]) && l[j]
                == legacy_category_view(db.template_categories@[k]);
        assert(legacy_copied(db.template_categories@[k]));
        let i = choose|i: int|
            0 <= i < db.categories@.len() && (db.categories@[i].id@ == db.template_categories@[k].id@
                || db.categories@[i].name@ == db.template_categories@[k].name@);
        assert(cats[i] == db.categories@[i]@);
    }
    lemma_category_inserts_blocked(cats, l);

    let ts = template_views(db.templates@);
    let bt = builtin_templates(now);
    assert forall|k: int| 0 <= k < bt.len() implies exists|i: int|
        0 <= i < ts.len() && ts[i].id == (#[trigger] bt[k]).id by {
        assert(bt[k].id == builtin_templates(""@)[k].id);
        assert(has_key(db.templates@, template_key(), builtin_templates(""@)[k].id));
        let i = choose|i: int|
            0 <= i < db.templates@.len() && template_key()(db.templates@[i]) == builtin_templates(""@)[k].id;
        assert(ts[i] == db.templates@[i]@);
    }
    lemma_template_inserts_blocked(ts, bt);
    assert forall|k: int| 0 <= k < ts.len() implies #[trigger] fix_builtin_category(ts[k]) == ts[k] by {
        assert(ts[k] == db.templates@[k]@);
        assert(builtin_category_of(db.templates@[k].id@) matches Some(c) ==> db.templates@[k].category_id@ == c);
    }
    assert(fix_builtin_categories(ts) =~= ts);

    let fs = field_views(db.template_fields@);
    let bf = builtin_fields();
    assert forall|k: int| 0 <= k < bf.len() implies field_id_taken(fs, #[trigger] bf[k].id) by {
        assert(has_key(db.template_fields@, field_key(), bf[k].id));
        let i = choose|i: int| 0 <= i < db.template_fields@.len() && field_key()(db.template_fields@[i]) == bf[k].id;
        assert(fs[i] == db.template_fields@[i]@);
    }
    lemma_field_inserts_blocked(fs, bf);
}

proof fn lemma_insert_setting_has(ss: Seq<(Seq<char>, Seq<char>)>, key: Seq<char>, value: Seq<char>, k: Seq<char>)
    requires
        k == key || exists|i: int| 0 <= i < ss.len() && ss[i].0 == k,
    ensures
        exists|i: int| 0 <= i < insert_setting_view(ss, key, value).len() && insert_setting_view(ss, key, value)[i].0 == k,
{
    let t = insert_setting_view(ss, key, value);
    if exists|i: int| 0 <= i < ss.len() && ss[i].0 == k {
        let i = choose|i: int| 0 <= i < ss.len() && ss[i].0 == k;
        assert(t[i] == ss[i]);
    } else if exists|i: int| 0 <= i < ss.len() && ss[i].0 == key {
        let i = choose|i: int| 0 <= i < ss.len() && ss[i].0 == key;
        assert(t[i].0 == k);
    } else {
        assert(t[ss.len() as int].0 == k);
    }
}

/// Adding the defaults leaves each default key there.
pub proof fn lemma_defaults_present(ss: Seq<(Seq<char>, Seq<char>)>)
    ensures
        has_default_settings(default_settings_after(ss)),
{
    let s1 = insert_setting_view(ss, "lock_timeout"@, "30"@);
    let s2 = insert_setting_view(s1, "theme"@, "light"@);
    lemma_insert_setting_has(ss, "lock_timeout"@, "30"@, "lock_timeout"@);
    lemma_insert_setting_has(s1, "theme"@, "light"@, "lock_timeout"@);
    lemma_insert_setting_has(s2, "storage_path"@, ""@, "lock_timeout"@);
    lemma_insert_setting_has(s1, "theme"@, "light"@, "theme"@);
    lemma_insert_setting_has(s2, "storage_path"@, ""@, "theme"@);
    lemma_insert_setting_has(s2, "storage_path"@, ""@, "storage_path"@);
}

} // verus!
