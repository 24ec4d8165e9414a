//! Opaque globally-unique entity handles.
//!
//! An [`Id`] is a 128-bit random value. Its canonical text form is the
//! fixed-length hyphenated hex string that the `uuid` crate prints, and that
//! text round-trips exactly through [`Id::try_from`]. Minting with
//! [`Id::new`] is the only way to obtain a fresh one.

use crate::error::StoreError;
use vstd::prelude::*;

verus! {

/// The 36-character hyphenated text that `uuid` prints for a 128-bit value.
pub uninterp spec fn uuid_text(bits: u128) -> Seq<char>;

/// The value that `uuid::Uuid::parse_str` reads from a piece of text, or
/// `None` when the text is not a well-formed identifier.
pub uninterp spec fn uuid_parse(text: Seq<char>) -> Option<u128>;

/// Relies on `uuid::Uuid::new_v4` (via `as_u128`): a randomly drawn
/// identifier value. Nothing is promised of the result.
#[verifier::external_body]
fn uuid_v4_bits() -> u128 {
    uuid::Uuid::new_v4().as_u128()
}

/// Relies on `uuid::Uuid::from_u128` and the `uuid` hyphenated `Display`
/// impl: the canonical text depends on the bits alone, is 36 characters
/// long, and `uuid::Uuid::parse_str` maps it back to the same bits.
#[verifier::external_body]
fn uuid_format(bits: u128) -> (r: String)
    ensures
        r@ == uuid_text(bits),
        r@.len() == 36,
        uuid_parse(r@) == Some(bits),
{
    uuid::Uuid::from_u128(bits).hyphenated().to_string()
}

/// Relies on `uuid::Uuid::parse_str` (via `as_u128`): the outcome depends on
/// the characters alone; a parse failure becomes `None`.
#[verifier::external_body]
fn uuid_parse_text(text: &str) -> (r: Option<u128>)
    ensures
        r == uuid_parse(text@),
{
    uuid::Uuid::parse_str(text).ok().map(|u| u.as_u128())
}

/// A globally-unique handle for a track or an event: a 128-bit value,
/// immutable once minted, compared by value.
#[derive(Clone, Copy, Debug, PartialEq, Eq, PartialOrd, Ord, Hash, Structural)]
pub struct Id {
    bits: u128,
}

impl View for Id {
    type V = u128;

    closed spec fn view(&self) -> u128 {
        self.bits
    }
}

impl Id {
    /// Mints a fresh random identifier. No two calls are expected to agree,
    /// but nothing is promised of the value; callers that need uniqueness
    /// check it against the ids already in use.
    pub fn new() -> Self {
        Id { bits: uuid_v4_bits() }
    }

    /// The canonical 36-character hyphenated text of this identifier, which
    /// [`Id::try_from`] maps back to the same value.
    pub fn to_string(&self) -> (r: String)
        ensures
            r@ == uuid_text(self@),
            r@.len() == 36,
            uuid_parse(r@) == Some(self@),
    {
        uuid_format(self.bits)
    }

    /// Reads an identifier back from its text form; malformed text is
    /// reported as `InvalidIdentifier`.
    pub fn try_from(value: &str) -> (r: Result<Id, StoreError>)
        ensures
            r is Ok <==> uuid_parse(value@) is Some,
            r matches Ok(id) ==> uuid_parse(value@) == Some(id@),
            r matches Err(e) ==> e == StoreError::InvalidIdentifier,
    {
        match uuid_parse_text(value) {
            Some(bits) => Ok(Id { bits }),
            None => Err(StoreError::InvalidIdentifier),
        }
    }
}

} // verus!
