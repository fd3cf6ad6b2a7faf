//! Random identifiers.

use vstd::prelude::*;

verus! {

/// A random UUID as a number, `uuid::Uuid::new_v4`. Claimed of every outcome: the
/// version and variant bits of a random UUID. The other bits may be anything.
#[verifier::external_body]
fn random_uuid() -> (res: u128)
    ensures
        is_random_uuid(res),
{
    uuid::Uuid::new_v4().as_u128()
}

/// `id` is a random UUID that may be drawn.
pub closed spec fn may_draw(id: u128) -> bool {
    call_ensures(random_uuid, (), id)
}

/// Draws a random UUID.
pub fn draw_uuid() -> (res: u128)
    ensures
        may_draw(res),
        is_random_uuid(res),
{
    random_uuid()
}

/// The bits by which a random UUID is known: its version and its variant.
pub open spec fn is_random_uuid(id: u128) -> bool {
    id & 0xF000_C000_0000_0000_0000u128 == 0x4000_8000_0000_0000_0000u128
}

} // verus!
