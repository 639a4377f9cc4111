//! The shared-secret check in front of every mutating operation.
use vstd::prelude::*;
use crate::error::OpError;

verus! {

/// Admits a mutation exactly when the caller's credential equals the
/// process's shared secret; `Unauthorized` otherwise.
pub fn authorize(given: &String, secret: &String) -> (r: Result<(), OpError>)
    ensures
        r is Ok <==> given@ == secret@,
        r is Err ==> r == Err::<(), OpError>(OpError::Unauthorized),
{
    if *given == *secret {
        Ok(())
    } else {
        Err(OpError::Unauthorized)
    }
}

} // verus!
