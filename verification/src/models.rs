//! The records of the vault: what the commands take, store and give back.

use vstd::prelude::*;
use crate::text::str_eq;

verus! {

/// A copy of a text.
pub fn dup_text(s: &String) -> (r: String)
    ensures
        r == *s,
{
    s.clone()
}

/// A copy of an optional text.
pub fn dup_opt_text(s: &Option<String>) -> (r: Option<String>)
    ensures
        r == *s,
{
    match s {
        Some(t) => Some(t.clone()),
        None => None,
    }
}

/// The characters of an optional text.
pub open spec fn opt_view(o: Option<String>) -> Option<Seq<char>> {
    match o {
        Some(s) => Some(s@),
        None => None,
    }
}

/// A field of an entry (a default or a custom one).
#[derive(Debug, Clone)]
pub struct Field {
    pub name: String,
    pub value: String,
    /// Whether the value is sensitive (masked when shown).
    pub secret: bool,
    /// The field type recorded with the value (text, url, password, ...).
    pub field_type: String,
}

impl Field {
    pub fn duplicate(&self) -> (r: Field)
        ensures
            r == *self,
    {
        Field {
            name: dup_text(&self.name),
            value: dup_text(&self.value),
            secret: self.secret,
            field_type: dup_text(&self.field_type),
        }
    }
}

/// The field types a template field may have.
pub open spec fn field_types() -> Seq<Seq<char>> {
    seq![
        "text"@,
        "url"@,
        "password"@,
        "email"@,
        "phone"@,
        "number"@,
        "month"@,
        "date"@,
        "multiline"@,
    ]
}

/// Whether `t` names one of the field types.
pub fn validate_field_type(t: &str) -> (r: bool)
    ensures
        r == field_types().contains(t@),
{
    let ghost ts = field_types();
    let r = str_eq(t, "text") || str_eq(t, "url") || str_eq(t, "password") || str_eq(t, "email")
        || str_eq(t, "phone") || str_eq(t, "number") || str_eq(t, "month") || str_eq(t, "date")
        || str_eq(t, "multiline");
    proof {
        if r {
            if t@ == "text"@ {
                assert(ts[0] == t@);
            } else if t@ == "url"@ {
                assert(ts[1] == t@);
            } else if t@ == "password"@ {
                assert(ts[2] == t@);
            } else if t@ == "email"@ {
                assert(ts[3] == t@);
            } else if t@ == "phone"@ {
                assert(ts[4] == t@);
            } else if t@ == "number"@ {
                assert(ts[5] == t@);
            } else if t@ == "month"@ {
                assert(ts[6] == t@);
            } else if t@ == "date"@ {
                assert(ts[7] == t@);
            } else {
                assert(ts[8] == t@);
            }
        } else {
            assert forall|i: int| 0 <= i < ts.len() implies ts[i] != t@ by {}
        }
    }
    r
}

/// The field type a field has when its record names none.
pub fn default_field_type() -> (r: String)
    ensures
        r@ == "text"@,
{
    String::from_str("text")
}

/// The OTP period (seconds) when the input names none.
pub fn default_interval() -> (r: u32)
    ensures
        r == 30,
{
    30
}

/// The OTP code length when the input names none.
pub fn default_digits() -> (r: u32)
    ensures
        r == 6,
{
    6
}

/// The OTP hash algorithm when the input names none.
pub fn default_algorithm() -> (r: String)
    ensures
        r@ == "SHA1"@,
{
    String::from_str("SHA1")
}

/// A field read from stored data, where older data may lack the secrecy
/// flag (then not secret) or the field type (then `text`).
pub fn field_from_parts(name: String, value: String, secret: Option<bool>, field_type: Option<String>) -> (r: Field)
    ensures
        r.name == name,
        r.value == value,
        r.secret == (match secret {
            Some(b) => b,
            None => false,
        }),
        r.field_type@ == (match field_type {
            Some(t) => t@,
            None => "text"@,
        }),
{
    Field {
        name,
        value,
        secret: match secret {
            Some(b) => b,
            None => false,
        },
        field_type: match field_type {
            Some(t) => t,
            None => default_field_type(),
        },
    }
}

/// The request to create or update an entry.
#[derive(Debug, Clone)]
pub struct EntryInput {
    pub category: String,
    pub title: String,
    pub icon: Option<String>,
    pub note: Option<String>,
    /// The linked OTP entry, kept apart from the fields.
    pub otp_id: Option<String>,
    /// The OTP mode: `password_concat` or `secondary`.
    pub otp_mode: Option<String>,
    pub fields: Vec<Field>,
    /// Tag names; missing tags are created.
    pub tags: Vec<String>,
}

/// An entry with its fields decrypted.
#[derive(Debug, Clone)]
pub struct EntryOut {
    pub id: String,
    pub category: String,
    pub title: String,
    pub icon: Option<String>,
    pub note: Option<String>,
    pub otp_id: Option<String>,
    pub otp_mode: Option<String>,
    pub fields: Vec<Field>,
    pub tags: Vec<TagOut>,
    pub created_at: String,
    pub updated_at: String,
    pub deleted_at: Option<String>,
}

/// A tag (also a row of the tag table).
#[derive(Debug, Clone)]
pub struct TagOut {
    pub id: String,
    pub name: String,
    pub color: Option<String>,
}

impl TagOut {
    pub fn duplicate(&self) -> (r: TagOut)
        ensures
            r == *self,
    {
        TagOut { id: dup_text(&self.id), name: dup_text(&self.name), color: dup_opt_text(&self.color) }
    }
}

/// A category of the category tree (also a row of the category table).
#[derive(Debug, Clone)]
pub struct Category {
    pub id: String,
    pub parent_id: Option<String>,
    pub name: String,
    pub icon: Option<String>,
    pub color: Option<String>,
    pub sort_order: i64,
    pub created_at: String,
}

impl Category {
    pub fn duplicate(&self) -> (r: Category)
        ensures
            r == *self,
    {
        Category {
            id: dup_text(&self.id),
            parent_id: dup_opt_text(&self.parent_id),
            name: dup_text(&self.name),
            icon: dup_opt_text(&self.icon),
            color: dup_opt_text(&self.color),
            sort_order: self.sort_order,
            created_at: dup_text(&self.created_at),
        }
    }
}

/// A category as characters.
pub struct CategoryView {
    pub id: Seq<char>,
    pub parent_id: Option<Seq<char>>,
    pub name: Seq<char>,
    pub icon: Option<Seq<char>>,
    pub color: Option<Seq<char>>,
    pub sort_order: i64,
    pub created_at: Seq<char>,
}

impl View for Category {
    type V = CategoryView;

    open spec fn view(&self) -> CategoryView {
        CategoryView {
            id: self.id@,
            parent_id: opt_view(self.parent_id),
            name: self.name@,
            icon: opt_view(self.icon),
            color: opt_view(self.color),
            sort_order: self.sort_order,
            created_at: self.created_at@,
        }
    }
}

/// The request to create or update a category.
#[derive(Debug, Clone)]
pub struct CategoryInput {
    pub name: String,
    pub parent_id: Option<String>,
    pub icon: Option<String>,
    pub color: Option<String>,
}

/// A field of a template.
#[derive(Debug, Clone)]
pub struct TemplateField {
    pub name: String,
    pub field_type: String,
    pub secret: bool,
}

/// A field of a template request.
#[derive(Debug, Clone)]
pub struct TemplateFieldInput {
    pub name: String,
    pub field_type: String,
    pub secret: bool,
}

/// The request to create or update a template.
#[derive(Debug, Clone)]
pub struct TemplateInput {
    pub category_id: String,
    pub name: String,
    pub icon: Option<String>,
    pub note: Option<String>,
    pub fields: Vec<TemplateFieldInput>,
}

/// A template with its category's name and its fields in order.
#[derive(Debug, Clone)]
pub struct Template {
    pub id: String,
    pub category_id: String,
    pub category_name: String,
    pub name: String,
    pub icon: Option<String>,
    pub note: Option<String>,
    pub fields: Vec<TemplateField>,
    pub created_at: String,
    pub updated_at: String,
    pub is_builtin: bool,
}

/// The number of live entries of a category.
#[derive(Debug, Clone)]
pub struct CategoryStat {
    pub category: String,
    pub count: i64,
}

/// A tag with the number of its entry links.
#[derive(Debug, Clone)]
pub struct TagStat {
    pub id: String,
    pub name: String,
    pub color: Option<String>,
    pub count: i64,
}

/// The application settings.
#[derive(Debug, Clone)]
pub struct Settings {
    pub lock_timeout: u64,
    pub theme: String,
    pub storage_path: String,
}

/// The request to create or update an OTP entry.
#[derive(Debug, Clone)]
pub struct OtpEntryInput {
    pub issuer: String,
    pub account: String,
    pub secret: String,
    pub interval: u32,
    pub digits: u32,
    pub algorithm: String,
}

/// An OTP entry (also a row of the OTP table).
#[derive(Debug, Clone)]
pub struct OtpEntryOut {
    pub id: String,
    pub issuer: String,
    pub account: String,
    pub secret: String,
    pub interval: u32,
    pub digits: u32,
    pub algorithm: String,
    pub created_at: String,
}

impl OtpEntryOut {
    pub fn duplicate(&self) -> (r: OtpEntryOut)
        ensures
            r == *self,
    {
        OtpEntryOut {
            id: dup_text(&self.id),
            issuer: dup_text(&self.issuer),
            account: dup_text(&self.account),
            secret: dup_text(&self.secret),
            interval: self.interval,
            digits: self.digits,
            algorithm: dup_text(&self.algorithm),
            created_at: dup_text(&self.created_at),
        }
    }
}

/// The stored master key: the PHC hash of the master password and the hex of its salt.
#[derive(Debug, Clone)]
pub struct ExportMasterKey {
    pub hash: String,
    pub salt: String,
    pub created_at: String,
}

impl ExportMasterKey {
    pub fn duplicate(&self) -> (r: ExportMasterKey)
        ensures
            r == *self,
    {
        ExportMasterKey {
            hash: dup_text(&self.hash),
            salt: dup_text(&self.salt),
            created_at: dup_text(&self.created_at),
        }
    }
}

/// An entry as stored: its fields encrypted (also a row of the entry table).
#[derive(Debug, Clone)]
pub struct ExportEntry {
    pub id: String,
    pub category: String,
    pub title: String,
    pub icon: Option<String>,
    pub note: Option<String>,
    pub otp_id: Option<String>,
    pub otp_mode: Option<String>,
    pub encrypted_data: String,
    pub created_at: String,
    pub updated_at: String,
    pub deleted_at: Option<String>,
}

impl ExportEntry {
    pub fn duplicate(&self) -> (r: ExportEntry)
        ensures
            r == *self,
    {
        ExportEntry {
            id: dup_text(&self.id),
            category: dup_text(&self.category),
            title: dup_text(&self.title),
            icon: dup_opt_text(&self.icon),
            note: dup_opt_text(&self.note),
            otp_id: dup_opt_text(&self.otp_id),
            otp_mode: dup_opt_text(&self.otp_mode),
            encrypted_data: dup_text(&self.encrypted_data),
            created_at: dup_text(&self.created_at),
            updated_at: dup_text(&self.updated_at),
            deleted_at: dup_opt_text(&self.deleted_at),
        }
    }
}

/// A link between an entry and a tag.
#[derive(Debug, Clone)]
pub struct ExportEntryTag {
    pub entry_id: String,
    pub tag_id: String,
}

impl ExportEntryTag {
    pub fn duplicate(&self) -> (r: ExportEntryTag)
        ensures
            r == *self,
    {
        ExportEntryTag { entry_id: dup_text(&self.entry_id), tag_id: dup_text(&self.tag_id) }
    }
}

/// A setting: a key and its value.
#[derive(Debug, Clone)]
pub struct ExportSetting {
    pub key: String,
    pub value: String,
}

impl ExportSetting {
    pub fn duplicate(&self) -> (r: ExportSetting)
        ensures
            r == *self,
    {
        ExportSetting { key: dup_text(&self.key), value: dup_text(&self.value) }
    }
}

impl View for ExportSetting {
    type V = (Seq<char>, Seq<char>);

    open spec fn view(&self) -> (Seq<char>, Seq<char>) {
        (self.key@, self.value@)
    }
}

/// The content of an export file.
#[derive(Debug, Clone)]
pub struct ExportData {
    pub version: u32,
    pub master_key: Option<ExportMasterKey>,
    pub entries: Vec<ExportEntry>,
    pub tags: Vec<TagOut>,
    pub entry_tags: Vec<ExportEntryTag>,
    pub settings: Vec<ExportSetting>,
}

/// What an import did: entries imported and entries replaced.
#[derive(Debug, Clone)]
pub struct ImportResult {
    pub imported: u32,
    pub replaced: u32,
}

/// A row of the template table.
#[derive(Debug, Clone)]
pub struct TemplateRecord {
    pub id: String,
    pub category_id: String,
    pub name: String,
    pub icon: Option<String>,
    pub note: Option<String>,
    pub created_at: String,
    pub updated_at: String,
}

impl TemplateRecord {
    pub fn duplicate(&self) -> (r: TemplateRecord)
        ensures
            r == *self,
    {
        TemplateRecord {
            id: dup_text(&self.id),
            category_id: dup_text(&self.category_id),
            name: dup_text(&self.name),
            icon: dup_opt_text(&self.icon),
            note: dup_opt_text(&self.note),
            created_at: dup_text(&self.created_at),
            updated_at: dup_text(&self.updated_at),
        }
    }
}

/// A template row as characters.
pub struct TemplateRecordView {
    pub id: Seq<char>,
    pub category_id: Seq<char>,
    pub name: Seq<char>,
    pub icon: Option<Seq<char>>,
    pub note: Option<Seq<char>>,
    pub created_at: Seq<char>,
    pub updated_at: Seq<char>,
}

impl View for TemplateRecord {
    type V = TemplateRecordView;

    open spec fn view(&self) -> TemplateRecordView {
        TemplateRecordView {
            id: self.id@,
            category_id: self.category_id@,
            name: self.name@,
            icon: opt_view(self.icon),
            note: opt_view(self.note),
            created_at: self.created_at@,
            updated_at: self.updated_at@,
        }
    }
}

/// A row of the template field table.
#[derive(Debug, Clone)]
pub struct TemplateFieldRecord {
    pub id: String,
    pub template_id: String,
    pub name: String,
    pub field_type: String,
    pub secret: bool,
    pub sort_order: i64,
}

impl TemplateFieldRecord {
    pub fn duplicate(&self) -> (r: TemplateFieldRecord)
        ensures
            r == *self,
    {
        TemplateFieldRecord {
            id: dup_text(&self.id),
            template_id: dup_text(&self.template_id),
            name: dup_text(&self.name),
            field_type: dup_text(&self.field_type),
            secret: self.secret,
            sort_order: self.sort_order,
        }
    }
}

/// A template field row as characters.
pub struct TemplateFieldRecordView {
    pub id: Seq<char>,
    pub template_id: Seq<char>,
    pub name: Seq<char>,
    pub field_type: Seq<char>,
    pub secret: bool,
    pub sort_order: i64,
}

impl View for TemplateFieldRecord {
    type V = TemplateFieldRecordView;

    open spec fn view(&self) -> TemplateFieldRecordView {
        TemplateFieldRecordView {
            id: self.id@,
            template_id: self.template_id@,
            name: self.name@,
            field_type: self.field_type@,
            secret: self.secret,
            sort_order: self.sort_order,
        }
    }
}

/// A row of the former template category table, which seeding folds into
/// the category table.
#[derive(Debug, Clone)]
pub struct LegacyTemplateCategory {
    pub id: String,
    pub name: String,
    pub icon: Option<String>,
    pub created_at: String,
}

} // verus!
