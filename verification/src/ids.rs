//! Unique ids.

use uuid::Uuid;
use vstd::prelude::*;

verus! {

/// Whether the version and variant bits say that the rest of the id is random.
pub open spec fn is_random_id(id: u128) -> bool {
    &&& (id / 0x1000_0000_0000_0000_0000) % 16 == 4
    &&& (id / 0x4000_0000_0000_0000) % 4 == 2
}

/// A fresh id from `uuid::Uuid::new_v4`. All that is claimed of it is what holds
/// of every random id: the version digit is 4 and the variant bits are 10.
#[verifier::external_body]
fn fresh_uuid() -> (r: u128)
    ensures
        is_random_id(r),
{
    Uuid::new_v4().as_u128()
}

/// A fresh id.
pub fn new_id() -> (r: u128)
    ensures
        is_random_id(r),
{
    fresh_uuid()
}

/// The lower half of a random id, which is never zero.
pub fn key_of_id(id: u128) -> (r: u64)
    requires
        is_random_id(id),
    ensures
        r == id % 0x1_0000_0000_0000_0000,
        r != 0,
{
    let r: u64 = (id % 0x1_0000_0000_0000_0000) as u64;
    assert(r / 0x4000_0000_0000_0000 == (id / 0x4000_0000_0000_0000) % 4);
    r
}

} // verus!
