//! The origin of a dispatched call and the checks that pallets make on it.

use vstd::prelude::*;

verus! {

/// Who dispatched a call: the root, a signed account (by its encoded
/// account id), or nobody (an unsigned transaction, `RawOrigin::None`).
pub enum RawOrigin {
    Root,
    Signed(Vec<u8>),
    Unsigned,
}

/// Why a dispatched call was refused.
#[derive(PartialEq, Eq, Structural, Debug, Clone, Copy)]
pub enum DispatchError {
    /// The origin is not the one the call requires.
    BadOrigin,
}

/// Succeeds exactly for an unsigned origin.
pub fn ensure_none(origin: &RawOrigin) -> (r: Result<(), DispatchError>)
    ensures
        r is Ok <==> origin is Unsigned,
        r is Err ==> r == Err::<(), DispatchError>(DispatchError::BadOrigin),
{
    match origin {
        RawOrigin::Unsigned => Ok(()),
        _ => Err(DispatchError::BadOrigin),
    }
}

/// The signing account of a signed origin; `BadOrigin` for any other.
pub fn ensure_signed(origin: &RawOrigin) -> (r: Result<Vec<u8>, DispatchError>)
    ensures
        match origin {
            RawOrigin::Signed(who) => r matches Ok(a) && a@ == who@,
            _ => r == Err::<Vec<u8>, DispatchError>(DispatchError::BadOrigin),
        },
{
    match origin {
        RawOrigin::Signed(who) => Ok(crate::tally::copy_bytes(who)),
        _ => Err(DispatchError::BadOrigin),
    }
}

} // verus!
