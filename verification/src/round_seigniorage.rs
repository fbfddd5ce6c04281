//! Asking for the round seigniorage rate.

use crate::primitives::{Digest, ProtocolVersion};
use crate::u512::U512;
use num_rational::Ratio;
use vstd::prelude::*;

verus! {

/// A fraction of the `num_rational` crate.
#[verifier::external_type_specification]
#[verifier::external_body]
#[verifier::reject_recursive_types(T)]
pub struct ExRatio<T>(num_rational::Ratio<T>);

/// Request to get the current round seigniorage rate.
#[derive(Debug, Clone, Copy, PartialEq, Eq, Structural)]
pub struct RoundSeigniorageRateRequest {
    state_hash: Digest,
    protocol_version: ProtocolVersion,
    enable_addressable_entity: bool,
}

impl View for RoundSeigniorageRateRequest {
    type V = (Digest, ProtocolVersion, bool);

    /// The state root hash, the protocol version, and whether addressable entities are enabled.
    closed spec fn view(&self) -> (Digest, ProtocolVersion, bool) {
        (self.state_hash, self.protocol_version, self.enable_addressable_entity)
    }
}

impl RoundSeigniorageRateRequest {
    /// Create instance of RoundSeigniorageRateRequest.
    pub fn new(
        state_hash: Digest,
        protocol_version: ProtocolVersion,
        enable_addressable_entity: bool,
    ) -> (r: Self)
        ensures
            r@ == (state_hash, protocol_version, enable_addressable_entity),
    {
        RoundSeigniorageRateRequest { state_hash, protocol_version, enable_addressable_entity }
    }

    /// Returns state root hash.
    pub fn state_hash(&self) -> (r: Digest)
        ensures
            r == self@.0,
    {
        self.state_hash
    }

    /// Returns the protocol version.
    pub fn protocol_version(&self) -> (r: ProtocolVersion)
        ensures
            r == self@.1,
    {
        self.protocol_version
    }

    /// Returns whether addressable entities are enabled.
    pub fn enable_to_entity(&self) -> (r: bool)
        ensures
            r == self@.2,
    {
        self.enable_addressable_entity
    }
}

/// Two requests that ask for the same are equal.
pub proof fn lemma_request_is_its_parts(
    a: RoundSeigniorageRateRequest,
    b: RoundSeigniorageRateRequest,
)
    requires
        a@ == b@,
    ensures
        a == b,
{
}

/// Represents a result of a `round_seigniorage_rate` request, with failures of type `E`.
#[derive(Debug)]
pub enum RoundSeigniorageRateResult<E> {
    /// Invalid state root hash.
    RootNotFound,
    /// The mint is not found.
    MintNotFound,
    /// Value not found.
    ValueNotFound(String),
    /// The round seigniorage rate at the specified state hash.
    Success {
        /// The current rate.
        rate: Ratio<U512>,
    },
    /// Reading the global state failed.
    Failure(E),
}

} // verus!
