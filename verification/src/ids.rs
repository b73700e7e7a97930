//! Task and subtask identifiers: UUIDs held as their 128-bit value.

use vstd::prelude::*;

verus! {

/// A fresh random identifier from `uuid::Uuid::new_v4`. Nothing is promised of
/// its value: it comes from a random number generator.
#[verifier::external_body]
pub(crate) fn new_id() -> (r: u128) {
    uuid::Uuid::new_v4().as_u128()
}

/// The hyphenated lower-case form that `Uuid::to_string` writes for an identifier.
pub uninterp spec fn id_text(id: u128) -> Seq<char>;

/// Calls `Uuid::to_string`; its text is named by `id_text`.
#[verifier::external_body]
pub(crate) fn id_to_string(id: u128) -> (r: String)
    ensures
        r@ == id_text(id),
{
    uuid::Uuid::from_u128(id).to_string()
}

/// What `Uuid::parse_str` reads from a text.
pub uninterp spec fn id_value(s: Seq<char>) -> Option<u128>;

/// Calls `Uuid::parse_str`; its result is named by `id_value`.
#[verifier::external_body]
pub(crate) fn parse_id(s: &str) -> (r: Option<u128>)
    ensures
        r == id_value(s@),
{
    uuid::Uuid::parse_str(s).ok().map(|u| u.as_u128())
}

} // verus!
