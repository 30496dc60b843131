use vstd::prelude::*;

verus! {

/// An identity that can authorize operations: the key of a signer. The host
/// environment checks signatures; the ledger only compares identities.
#[derive(Clone, Copy, Debug, PartialEq, Eq, Structural)]
pub struct Authority {
    pub key: u64,
}

/// Whether the claimed authority is the one required for an operation.
pub fn verify(claimed: &Authority, required: &Authority) -> (r: bool)
    ensures
        r == (*claimed == *required),
{
    claimed.key == required.key
}

} // verus!
