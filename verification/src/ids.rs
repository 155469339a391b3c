//! The identities of archives and sessions.
use vstd::prelude::*;

verus! {

/// Whether an identity has the form of a random one: version 4, variant 1.
pub open spec fn is_random_id(id: [u8; 16]) -> bool {
    &&& id@[6] / 16 == 4
    &&& id@[8] / 64 == 2
}

/// `uuid::Uuid::new_v4`, whose bytes are random but for the version, 4, in the upper half of the
/// seventh byte and the variant, binary 10, in the two upper bits of the ninth.
#[verifier::external_body]
pub(crate) fn random_id() -> (r: [u8; 16])
    ensures
        is_random_id(r),
{
    *uuid::Uuid::new_v4().as_bytes()
}

/// Whether an identity can have been chosen where `requested` was asked for.
pub open spec fn may_identify(requested: Option<[u8; 16]>, id: [u8; 16]) -> bool {
    match requested {
        Some(given) => id == given,
        None => is_random_id(id),
    }
}

/// The requested identity, or a random one.
pub fn choose_id(requested: Option<[u8; 16]>) -> (r: [u8; 16])
    ensures
        may_identify(requested, r),
{
    match requested {
        Some(given) => given,
        None => random_id(),
    }
}

} // verus!
