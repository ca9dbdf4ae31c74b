//! Unique identifiers of 128 bits.

use uuid::Uuid;
use vstd::prelude::*;

verus! {

/// `uuid::Uuid`, a unique identifier of 128 bits.
#[verifier::external_type_specification]
#[verifier::external_body]
pub struct ExUuid(uuid::Uuid);

/// The 128 bits of an identifier as one number, its first byte the most
/// significant: what `Uuid::as_u128` returns.
pub uninterp spec fn uuid_value(id: Uuid) -> u128;

/// `Uuid::from_u128`: the identifier whose sixteen bytes spell `bits` in
/// big-endian order.
#[verifier::external_body]
pub(crate) fn uuid_from_u128(bits: u128) -> (id: Uuid)
    ensures
        uuid_value(id) == bits,
{
    Uuid::from_u128(bits)
}

/// `Uuid::as_u128`: the sixteen bytes of the identifier as one big-endian
/// number.
#[verifier::external_body]
pub(crate) fn uuid_as_u128(id: &Uuid) -> (bits: u128)
    ensures
        bits == uuid_value(*id),
{
    id.as_u128()
}

} // verus!
