//! The part of a chainspec that a test network sets or reads.

use crate::primitives::{EraId, ProtocolVersion, PublicKey, TimeDiff, Timestamp};
use crate::rational::Rational;
use crate::u512::U512;
use vstd::prelude::*;

verus! {

/// The consensus protocols.
#[derive(Clone, Copy, Debug, PartialEq, Eq, Structural)]
pub enum ConsensusProtocolName {
    /// Highway.
    Highway,
    /// Zug.
    Zug,
}

/// The core settings of a chain.
#[derive(Clone, Copy, Debug, PartialEq, Eq, Structural)]
pub struct CoreConfig {
    /// The least number of blocks in an era.
    pub minimum_era_height: u64,
    /// The part of the total weight whose faults finality withstands.
    pub finality_threshold_fraction: Rational,
    /// The least duration of an era.
    pub era_duration: TimeDiff,
    /// How many eras pass before an auction takes effect.
    pub auction_delay: u64,
    /// How many eras pass before an unbonded amount is paid out.
    pub unbonding_delay: u64,
    /// The number of validators in an era.
    pub validator_slots: u32,
    /// The least time between two blocks.
    pub minimum_block_time: TimeDiff,
    /// The part of the total supply that is minted in a round.
    pub round_seigniorage_rate: Rational,
    /// The protocol that finds consensus.
    pub consensus_protocol: ConsensusProtocolName,
    /// The part of a finality signature's reward that the proposer who records it gets.
    pub finders_fee: Rational,
    /// The part of a block's reward that goes to its finality signatures.
    pub finality_signature_proportion: Rational,
}

impl CoreConfig {
    /// All fractions are in lowest terms.
    pub open spec fn wf(&self) -> bool {
        &&& self.finality_threshold_fraction.wf()
        &&& self.round_seigniorage_rate.wf()
        &&& self.finders_fee.wf()
        &&& self.finality_signature_proportion.wf()
    }
}

/// The settings of the Highway protocol.
#[derive(Clone, Copy, Debug, PartialEq, Eq, Structural)]
pub struct HighwayConfig {
    /// The greatest length of a round.
    pub maximum_round_length: TimeDiff,
}

/// When a protocol version takes effect.
#[derive(Clone, Copy, Debug, PartialEq, Eq, Structural)]
pub enum ActivationPoint {
    /// At the start of an era.
    EraId(EraId),
    /// At genesis, at a given time.
    Genesis(Timestamp),
}

/// A scheduled upgrade of the protocol.
#[derive(Clone, Copy, Debug, PartialEq, Eq, Structural)]
pub struct NextUpgrade {
    /// When the upgrade takes effect.
    pub activation_point: ActivationPoint,
    /// The version to which the network is upgraded.
    pub protocol_version: ProtocolVersion,
}

/// The stake of a genesis validator.
#[derive(Clone, Copy, Debug, PartialEq, Eq, Structural)]
pub struct ValidatorConfig {
    /// The bonded amount.
    pub bonded_amount: U512,
    /// The part, in percent, that the validator keeps of the rewards of its delegators.
    pub delegation_rate: u8,
}

/// An account that exists at genesis.
#[derive(Clone, Copy, Debug, PartialEq, Eq, Structural)]
pub struct AccountConfig {
    /// The key of the account.
    pub public_key: PublicKey,
    /// The balance of the account.
    pub balance: U512,
    /// The account's stake, where it is a validator.
    pub validator: Option<ValidatorConfig>,
}

/// A delegator that exists at genesis.
#[derive(Clone, Copy, Debug, PartialEq, Eq, Structural)]
pub struct DelegatorConfig {
    /// The validator to whom the delegator delegates.
    pub validator_public_key: PublicKey,
    /// The delegator's own key.
    pub delegator_public_key: PublicKey,
    /// The balance of the delegator.
    pub balance: U512,
    /// The amount delegated.
    pub delegated_amount: U512,
}

/// The accounts and the delegators that exist at genesis.
#[derive(Debug)]
pub struct AccountsConfig {
    /// The accounts.
    pub accounts: Vec<AccountConfig>,
    /// The delegators.
    pub delegators: Vec<DelegatorConfig>,
}

/// The settings of a chain.
#[derive(Debug)]
pub struct Chainspec {
    /// When the protocol version takes effect.
    pub activation_point: ActivationPoint,
    /// The accounts at genesis.
    pub accounts_config: AccountsConfig,
    /// The core settings.
    pub core_config: CoreConfig,
    /// The settings of the Highway protocol.
    pub highway_config: HighwayConfig,
    /// All other settings, in the form in which they were loaded.
    pub other_settings: Vec<u8>,
}

/// The bytes of the files that a chainspec was loaded from.
#[derive(Debug)]
pub struct ChainspecRawBytes {
    /// The bytes of the chainspec itself.
    pub chainspec_bytes: Vec<u8>,
    /// The bytes of the accounts at genesis, where they have a file of their own.
    pub maybe_genesis_accounts_bytes: Option<Vec<u8>>,
    /// The bytes of an update of the global state, where there is one.
    pub maybe_global_state_bytes: Option<Vec<u8>>,
}

} // verus!
