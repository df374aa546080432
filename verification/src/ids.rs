//! Fresh identities for Plugin instances, blank windows, Window Groups and install proposals.

use vstd::prelude::*;

verus! {

/// A lower-case hexadecimal digit.
pub open spec fn is_lower_hex(c: char) -> bool {
    ('0' <= c && c <= '9') || ('a' <= c && c <= 'f')
}

/// The text of a random (version 4) UUID in hyphenated lower-case form.
pub open spec fn is_v4_uuid_text(s: Seq<char>) -> bool {
    &&& s.len() == 36
    &&& s[8] == '-' && s[13] == '-' && s[18] == '-' && s[23] == '-'
    &&& s[14] == '4'
    &&& forall|i: int|
        0 <= i < 36 && i != 8 && i != 13 && i != 18 && i != 23 ==> is_lower_hex(#[trigger] s[i])
}

/// Calls `uuid::Uuid::new_v4()` and renders it with `to_string()`. The claim: the text is a
/// hyphenated lower-case UUID with version digit 4 (what `Uuid`'s `Display` writes). Which UUID
/// comes back is random and not stated; two calls may give any values.
#[verifier::external_body]
pub(crate) fn new_uuid() -> (s: String)
    ensures
        is_v4_uuid_text(s@),
{
    uuid::Uuid::new_v4().to_string()
}

} // verus!
