//! Fresh identifiers.

use vstd::prelude::*;
use crate::table::has_key;

verus! {

/// The lower-case hex digits.
pub open spec fn is_lower_hex(c: char) -> bool {
    (48 <= (c as u32) && (c as u32) <= 57) || (97 <= (c as u32) && (c as u32) <= 102)
}

/// The hyphenated text of a UUID: 36 characters, hyphens at 8, 13, 18 and
/// 23, lower-case hex digits elsewhere.
pub open spec fn is_uuid_text(s: Seq<char>) -> bool {
    &&& s.len() == 36
    &&& forall|i: int|
        0 <= i < 36 ==> if i == 8 || i == 13 || i == 18 || i == 23 {
            #[trigger] s[i] == '-'
        } else {
            is_lower_hex(s[i])
        }
}

/// `Uuid::new_v4` rendered by its `Display`: a random UUID in hyphenated
/// lower-case form. Which UUID it is, and that it differs from the ones
/// before it, is chance and not stated.
#[verifier::external_body]
pub(crate) fn new_uuid() -> (s: String)
    ensures
        is_uuid_text(s@),
{
    uuid::Uuid::new_v4().to_string()
}

/// Some row of a table has a key in the form of a UUID text: only then can
/// a freshly drawn UUID be taken already.
pub open spec fn has_uuid_key<T>(s: Seq<T>, key: spec_fn(T) -> Seq<char>) -> bool {
    exists|i: int| 0 <= i < s.len() && is_uuid_text(#[trigger] key(s[i]))
}

/// A taken key that is a UUID text is a UUID-shaped key of the table.
pub proof fn lemma_uuid_key_taken<T>(s: Seq<T>, key: spec_fn(T) -> Seq<char>, k: Seq<char>)
    requires
        has_key(s, key, k),
        is_uuid_text(k),
    ensures
        has_uuid_key(s, key),
{
    let i = choose|i: int| 0 <= i < s.len() && key(s[i]) == k;
    assert(is_uuid_text(key(s[i])));
}

/// A UUID-shaped key of a table that extends `t` is in `t`, or in a row
/// added after it.
pub proof fn lemma_uuid_key_in_prefix<T>(s: Seq<T>, t: Seq<T>, key: spec_fn(T) -> Seq<char>)
    requires
        has_uuid_key(s, key),
        t.len() <= s.len(),
        forall|i: int| 0 <= i < t.len() ==> #[trigger] s[i] == t[i],
    ensures
        has_uuid_key(t, key) || s.len() > t.len(),
{
    let i = choose|i: int| 0 <= i < s.len() && is_uuid_text(#[trigger] key(s[i]));
    if i < t.len() {
        assert(s[i] == t[i]);
        assert(is_uuid_text(key(t[i])));
    }
}

} // verus!
