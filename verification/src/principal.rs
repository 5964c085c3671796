use vstd::prelude::*;

verus! {

/// An opaque on-ledger identity, modelled by the numeric identifier the
/// host runtime assigns to it. Two principals are the same identity
/// exactly when their identifiers are equal.
#[derive(Clone, Copy, PartialEq, Eq, Structural, Debug)]
pub struct Principal {
    pub id: u64,
}

/// Evidence that the host runtime has authenticated the current
/// invocation as coming from `principal`. The runtime checks the
/// cryptographic proof before handing one of these over; the library
/// only reads which principal it names.
#[derive(Clone, Copy, PartialEq, Eq, Structural, Debug)]
pub struct AuthProof {
    pub principal: Principal,
}

} // verus!
