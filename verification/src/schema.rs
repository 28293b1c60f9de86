//! Bringing an older database layout up to date: which columns to add or
//! drop, decided from the columns each table has.

use vstd::prelude::*;
use crate::text::str_eq;

verus! {

/// One change to the stored layout.
#[derive(Debug, Clone, Copy)]
pub enum SchemaStep {
    /// Add the `otp_id` and `otp_mode` columns to `entries`.
    AddEntryOtpColumns,
    /// Drop the former `template_id` column of `entries`.
    DropEntryTemplateId,
    /// Add the `icon` column to `templates`.
    AddTemplateIcon,
    /// Add the `note` column to `templates`.
    AddTemplateNote,
    /// Add the `icon` column to `template_categories`.
    AddTemplateCategoryIcon,
}

/// A table has a column of that name.
pub open spec fn has_column(cols: Seq<String>, name: Seq<char>) -> bool {
    exists|i: int| 0 <= i < cols.len() && #[trigger] cols[i]@ == name
}

/// The changes an older layout needs, in the order they are made: the OTP
/// columns when `entries` lacks `otp_id`, the drop when it still has
/// `template_id`, then the missing template and template category columns.
pub open spec fn planned_steps(entry_cols: Seq<String>, template_cols: Seq<String>, category_cols: Seq<String>) -> Seq<SchemaStep> {
    let s0: Seq<SchemaStep> = if has_column(entry_cols, "otp_id"@) { seq![] } else { seq![SchemaStep::AddEntryOtpColumns] };
    let s1 = if has_column(entry_cols, "template_id"@) { s0.push(SchemaStep::DropEntryTemplateId) } else { s0 };
    let s2 = if has_column(template_cols, "icon"@) { s1 } else { s1.push(SchemaStep::AddTemplateIcon) };
    let s3 = if has_column(template_cols, "note"@) { s2 } else { s2.push(SchemaStep::AddTemplateNote) };
    if has_column(category_cols, "icon"@) { s3 } else { s3.push(SchemaStep::AddTemplateCategoryIcon) }
}

/// Whether a table has a column of that name.
pub fn has_column_exec(cols: &Vec<String>, name: &str) -> (r: bool)
    ensures
        r == has_column(cols@, name@),
{
    let n = cols.len();
    let mut i: usize = 0;
    while i < n
        invariant
            n == cols@.len(),
            i <= n,
            forall|k: int| 0 <= k < i ==> cols@[k]@ != name@,
        decreases n - i,
    {
        if str_eq(cols[i].as_str(), name) {
            return true;
        }
        i = i + 1;
    }
    false
}

/// The changes an older layout needs (see [`planned_steps`]).
pub fn schema_steps(entry_cols: &Vec<String>, template_cols: &Vec<String>, category_cols: &Vec<String>) -> (r: Vec<SchemaStep>)
    ensures
        r@ == planned_steps(entry_cols@, template_cols@, category_cols@),
{
    let mut steps: Vec<SchemaStep> = Vec::new();
    if !has_column_exec(entry_cols, "otp_id") {
        steps.push(SchemaStep::AddEntryOtpColumns);
    }
    if has_column_exec(entry_cols, "template_id") {
        steps.push(SchemaStep::DropEntryTemplateId);
    }
    if !has_column_exec(template_cols, "icon") {
        steps.push(SchemaStep::AddTemplateIcon);
    }
    if !has_column_exec(template_cols, "note") {
        steps.push(SchemaStep::AddTemplateNote);
    }
    if !has_column_exec(category_cols, "icon") {
        steps.push(SchemaStep::AddTemplateCategoryIcon);
    }
    steps
}

/// Each change is planned exactly when the layout needs it, whatever the
/// other columns are: the OTP columns when `entries` has no `otp_id`, the
/// drop when `entries` has a `template_id`, and each of the other columns
/// when its table lacks it; and no change is planned twice.
pub proof fn lemma_planned_steps_exact(entry_cols: Seq<String>, template_cols: Seq<String>, category_cols: Seq<String>)
    ensures
        ({
            let steps = planned_steps(entry_cols, template_cols, category_cols);
            &&& steps.contains(SchemaStep::AddEntryOtpColumns) <==> !exists|i: int|
                0 <= i < entry_cols.len() && #[trigger] entry_cols[i]@ == "otp_id"@
            &&& steps.contains(SchemaStep::DropEntryTemplateId) <==> exists|i: int|
                0 <= i < entry_cols.len() && #[trigger] entry_cols[i]@ == "template_id"@
            &&& steps.contains(SchemaStep::AddTemplateIcon) <==> !exists|i: int|
                0 <= i < template_cols.len() && #[trigger] template_cols[i]@ == "icon"@
            &&& steps.contains(SchemaStep::AddTemplateNote) <==> !exists|i: int|
                0 <= i < template_cols.len() && #[trigger] template_cols[i]@ == "note"@
            &&& steps.contains(SchemaStep::AddTemplateCategoryIcon) <==> !exists|i: int|
                0 <= i < category_cols.len() && #[trigger] category_cols[i]@ == "icon"@
            &&& steps.no_duplicates()
        }),
{
    let a = has_column(entry_cols, "otp_id"@);
    let b = has_column(entry_cols, "template_id"@);
    let c = has_column(template_cols, "icon"@);
    let d = has_column(template_cols, "note"@);
    let e = has_column(category_cols, "icon"@);
    let s0: Seq<SchemaStep> = if a { seq![] } else { seq![SchemaStep::AddEntryOtpColumns] };
    let s1 = if b { s0.push(SchemaStep::DropEntryTemplateId) } else { s0 };
    let s2 = if c { s1 } else { s1.push(SchemaStep::AddTemplateIcon) };
    let s3 = if d { s2 } else { s2.push(SchemaStep::AddTemplateNote) };
    let s4 = if e { s3 } else { s3.push(SchemaStep::AddTemplateCategoryIcon) };
    assert(planned_steps(entry_cols, template_cols, category_cols) == s4);
    assert(s1.contains(SchemaStep::AddEntryOtpColumns) <==> !a) by {
        if b { assert(s1[s0.len() as int] == SchemaStep::DropEntryTemplateId); }
        if !a { assert(s1[0] == SchemaStep::AddEntryOtpColumns); }
    }
    assert(s1.contains(SchemaStep::DropEntryTemplateId) <==> b) by {
        if b { assert(s1[s0.len() as int] == SchemaStep::DropEntryTemplateId); }
    }
    assert(s2.contains(SchemaStep::AddEntryOtpColumns) <==> !a) by {
        if !c { assert(s2[s1.len() as int] == SchemaStep::AddTemplateIcon); if !a { assert(s2[0] == s1[0]); } }
    }
    assert(s2.contains(SchemaStep::DropEntryTemplateId) <==> b) by {
        if !c { assert(s2[s1.len() as int] == SchemaStep::AddTemplateIcon);
            if b { assert(s2[s0.len() as int] == s1[s0.len() as int]); } }
    }
    assert(s2.contains(SchemaStep::AddTemplateIcon) <==> !c) by {
        if !c { assert(s2[s1.len() as int] == SchemaStep::AddTemplateIcon); }
    }
    assert(s3.contains(SchemaStep::AddEntryOtpColumns) <==> !a) by {
        if !d { assert(s3[s2.len() as int] == SchemaStep::AddTemplateNote); if !a { assert(s3[0] == s2[0]); } }
    }
    assert(s3.contains(SchemaStep::DropEntryTemplateId) <==> b) by {
        if !d { assert(s3[s2.len() as int] == SchemaStep::AddTemplateNote);
            if b { assert(s3[s0.len() as int] == s2[s0.len() as int]); } }
    }
    assert(s3.contains(SchemaStep::AddTemplateIcon) <==> !c) by {
        if !d { assert(s3[s2.len() as int] == SchemaStep::AddTemplateNote);
            if !c { assert(s3[s1.len() as int] == s2[s1.len() as int]); } }
    }
    assert(s3.contains(SchemaStep::AddTemplateNote) <==> !d) by {
        if !d { assert(s3[s2.len() as int] == SchemaStep::AddTemplateNote); }
    }
    assert(s4.contains(SchemaStep::AddEntryOtpColumns) <==> !a) by {
        if !e { assert(s4[s3.len() as int] == SchemaStep::AddTemplateCategoryIcon); if !a { assert(s4[0] == s3[0]); } }
    }
    assert(s4.contains(SchemaStep::DropEntryTemplateId) <==> b) by {
        if !e { assert(s4[s3.len() as int] == SchemaStep::AddTemplateCategoryIcon);
            if b { assert(s4[s0.len() as int] == s3[s0.len() as int]); } }
    }
    assert(s4.contains(SchemaStep::AddTemplateIcon) <==> !c) by {
        if !e { assert(s4[s3.len() as int] == SchemaStep::AddTemplateCategoryIcon);
            if !c { assert(s4[s1.len() as int] == s3[s1.len() as int]); } }
    }
    assert(s4.contains(SchemaStep::AddTemplateNote) <==> !d) by {
        if !e { assert(s4[s3.len() as int] == SchemaStep::AddTemplateCategoryIcon);
            if !d { assert(s4[s2.len() as int] == s3[s2.len() as int]); } }
    }
    assert(s4.contains(SchemaStep::AddTemplateCategoryIcon) <==> !e) by {
        if !e { assert(s4[s3.len() as int] == SchemaStep::AddTemplateCategoryIcon); }
    }
}

} // verus!
