//! Fresh identifiers for new rows.

use vstd::prelude::*;

verus! {

/// A new random identifier: the 128 bits of `uuid::Uuid::new_v4()`, read by
/// `Uuid::as_u128`. Nothing is promised of the value; it differs from call to
/// call. Where the operating system gives no random bytes `uuid` does not
/// return but panics; the call has no argument that could rule that out.
#[verifier::external_body]
pub(crate) fn fresh_id() -> (id: u128) {
    uuid::Uuid::new_v4().as_u128()
}

} // verus!
