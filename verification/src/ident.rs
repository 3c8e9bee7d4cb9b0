//! Fresh identifiers for the records the library keeps.

use vstd::prelude::*;

verus! {

/// A fresh random identifier: `uuid::Uuid::new_v4`, taken as its 128-bit
/// value (`Uuid::as_u128`). Nothing is promised of it: it is drawn at random.
#[verifier::external_body]
pub fn new_id() -> u128 {
    uuid::Uuid::new_v4().as_u128()
}

} // verus!
