//! Backend-facing read/write decisions of the syncer.
//!
//! A storage transport hands back either an object's bytes or a
//! [`TransportFault`](crate::errors::TransportFault). The functions here turn
//! that outcome into the result the syncer owes its caller: absence is
//! `Ok(None)`, never an error; a present but undecodable object is a
//! `DecodeFailure`; every other fault is a `TransportFailure`. They also
//! decide when `update_latest_index` must write.

use vstd::prelude::*;

use crate::codec::{dec_bytes, decode_index};
use crate::errors::{classify_fault, spec_is_not_found, Classification, StoreError, TransportFault};

verus! {

/// The observed latest index, with absence read as 0.
pub open spec fn spec_observed_or_zero(current: Option<u32>) -> u32 {
    match current {
        Some(v) => v,
        None => 0u32,
    }
}

/// Turns a raw get outcome into the syncer's read result: the bytes when the
/// object exists, `Ok(None)` when it does not, and a `TransportFailure` for
/// every other fault.
pub fn interpret_get(outcome: Result<Vec<u8>, TransportFault>) -> (r: Result<
    Option<Vec<u8>>,
    StoreError,
>)
    ensures
        outcome matches Ok(b) ==> (r matches Ok(o) && o matches Some(v) && v == b),
        outcome matches Err(f) && spec_is_not_found(f) ==> (r matches Ok(o) && o is None),
        outcome matches Err(f) && !spec_is_not_found(f) ==> r == Err::<
            Option<Vec<u8>>,
            StoreError,
        >(StoreError::TransportFailure),
{
    match outcome {
        Ok(b) => Ok(Some(b)),
        Err(f) => match classify_fault(&f) {
            Classification::NotFound => Ok(None),
            Classification::OtherFailure => Err(StoreError::TransportFailure),
        },
    }
}

/// Turns a raw get outcome for the latest-index object into the syncer's
/// answer: a decoded index, `Ok(None)` on a fresh store, `DecodeFailure` for
/// a present but malformed object (never silently treated as absent), and
/// `TransportFailure` otherwise.
pub fn interpret_latest_index(outcome: Result<Vec<u8>, TransportFault>) -> (r: Result<
    Option<u32>,
    StoreError,
>)
    ensures
        forall|v: u32|
            (outcome matches Ok(b) && b@ == dec_bytes(v as nat)) ==> r == Ok::<
                Option<u32>,
                StoreError,
            >(Some(v)),
        outcome matches Ok(b) ==> !(r matches Ok(o) && o is None),
        outcome matches Ok(b) ==> (r matches Err(e) ==> e == StoreError::DecodeFailure),
        outcome matches Err(f) && spec_is_not_found(f) ==> r == Ok::<Option<u32>, StoreError>(
            None,
        ),
        outcome matches Err(f) && !spec_is_not_found(f) ==> r == Err::<Option<u32>, StoreError>(
            StoreError::TransportFailure,
        ),
{
    match outcome {
        Ok(b) => match decode_index(&b) {
            Some(v) => Ok(Some(v)),
            None => Err(StoreError::DecodeFailure),
        },
        Err(f) => match classify_fault(&f) {
            Classification::NotFound => Ok(None),
            Classification::OtherFailure => Err(StoreError::TransportFailure),
        },
    }
}

/// The update rule of `update_latest_index`: write exactly when the new
/// index is strictly greater than the observed one (absence reads as 0), so
/// a committed write is always strictly above what its writer observed.
pub fn should_write_latest(current: Option<u32>, index: u32) -> (b: bool)
    ensures
        b == (index > spec_observed_or_zero(current)),
{
    let cur: u32 = match current {
        Some(v) => v,
        None => 0,
    };
    index > cur
}

} // verus!
