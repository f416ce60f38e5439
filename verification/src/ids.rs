//! Fresh random ids.
use vstd::prelude::*;

verus! {

/// A character of a hyphenated lowercase UUID.
pub open spec fn is_uuid_char(c: char) -> bool {
    c == '-' || ('0' <= c && c <= '9') || ('a' <= c && c <= 'f')
}

/// `uuid::Uuid::new_v4().to_string()`: a random version-4 UUID written in
/// its hyphenated lowercase form, 36 characters of hex digits and hyphens.
/// Which UUID comes out is left open (it is random).
#[verifier::external_body]
pub(crate) fn new_uuid() -> (r: String)
    ensures
        r@.len() == 36,
        forall|i: int| 0 <= i < r@.len() ==> is_uuid_char(#[trigger] r@[i]),
{
    uuid::Uuid::new_v4().to_string()
}

} // verus!
