//! What the allocator asks of the identifiers that own its blocks.

use vstd::prelude::*;
use vstd::std_specs::cmp::PartialEqSpec;

verus! {

/// Whether `==` on `Id` holds of two identifiers exactly when they are the
/// same value, so that a block can be found again by the identifier that
/// owns it.
pub open spec fn obeys_identity<Id: PartialEq>() -> bool {
    &&& Id::obeys_eq_spec()
    &&& forall|a: Id, b: Id| #[trigger] a.eq_spec(&b) <==> a == b
}

} // verus!
