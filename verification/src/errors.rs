//! Failure taxonomy and the not-found classification rule.
//!
//! A transport-level failure is first modelled as a [`TransportFault`], the
//! shape the backend reports, and then classified: absence of an object is a
//! normal outcome surfaced as `None`, everything else is a real error.

use vstd::prelude::*;

verus! {

/// The shape of a failure reported by the storage transport.
#[derive(Clone, Copy, Debug, PartialEq, Eq, Structural)]
pub enum TransportFault {
    /// The backend rejected the object identifier as invalid or
    /// never-initialized (seen on the first read of a fresh store).
    InvalidName,
    /// The backend answered with an HTTP status code.
    HttpStatus(u16),
    /// Any other transport failure (network, permission, malformed response).
    Other,
}

/// What a transport fault means for the caller.
#[derive(Clone, Copy, Debug, PartialEq, Eq, Structural)]
pub enum Classification {
    /// The object does not exist; surfaced as an absent value, never an error.
    NotFound,
    /// A real failure; always surfaced as an error, never silently swallowed.
    OtherFailure,
}

/// An error surfaced by a store operation.
#[derive(Clone, Copy, Debug, PartialEq, Eq, Structural)]
pub enum StoreError {
    /// The bucket name failed validation; raised at construction time.
    InvalidBucketName,
    /// An object exists but its bytes do not decode into the expected value.
    DecodeFailure,
    /// Any other backend failure (auth, network, permission, rate limiting).
    TransportFailure,
}

/// True exactly for the fault shapes that mean "the object does not exist":
/// an invalid/never-initialized identifier, or an HTTP 404 answer.
pub open spec fn spec_is_not_found(f: TransportFault) -> bool {
    f is InvalidName || f == TransportFault::HttpStatus(404u16)
}

/// Maps a transport fault into exactly one classification: absence is
/// `NotFound`, anything else is `OtherFailure`.
pub fn classify_fault(f: &TransportFault) -> (c: Classification)
    ensures
        c is NotFound <==> spec_is_not_found(*f),
{
    match f {
        TransportFault::InvalidName => Classification::NotFound,
        TransportFault::HttpStatus(code) => {
            if *code == 404u16 {
                Classification::NotFound
            } else {
                Classification::OtherFailure
            }
        },
        TransportFault::Other => Classification::OtherFailure,
    }
}

} // verus!
