//! Room identifiers: randomly generated 128-bit values with a textual
//! UUID representation. Generation and parsing are the work of the `uuid`
//! crate, reached through the two trusted wrappers below; everything that
//! depends on the parsed or generated value is verified code that takes
//! the value as an argument.

use vstd::prelude::*;

verus! {

/// What `uuid::Uuid::parse_str` makes of a string: the 128-bit value it
/// denotes in any of the accepted textual UUID forms, or nothing. The
/// result depends on the characters alone.
pub uninterp spec fn parsed_room_id(s: Seq<char>) -> Option<u128>;

/// Relies on `uuid::Uuid::new_v4` for a freshly drawn random identifier.
/// Nothing is promised of the value: callers must work for every outcome,
/// a collision with a live room included.
#[verifier::external_body]
pub(crate) fn new_room_id() -> u128 {
    uuid::Uuid::new_v4().as_u128()
}

/// Relies on `uuid::Uuid::parse_str` (with `Uuid::as_u128`): a
/// hexadecimal UUID string, with optional hyphens, denotes its 128-bit
/// value; any other string is rejected. The result is a function of the
/// input alone, named [`parsed_room_id`].
#[verifier::external_body]
pub(crate) fn parse_room_id(s: &str) -> (r: Option<u128>)
    ensures
        r == parsed_room_id(s@),
{
    match uuid::Uuid::parse_str(s) {
        Ok(u) => Some(u.as_u128()),
        Err(_) => None,
    }
}

} // verus!
