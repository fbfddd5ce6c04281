//! Settings of the chains on which test networks run.

use crate::chainspec::{Chainspec, ConsensusProtocolName, CoreConfig, HighwayConfig};
use crate::primitives::{PublicKey, TimeDiff};
use crate::rational::{lemma_lowest, lowest, Rational};
use crate::u512::{lemma_amount_unique, U512};
use std::collections::BTreeMap;
use vstd::prelude::*;

verus! {

/// Settings under which an era has two blocks, with one block a second.
pub open spec fn two_block_eras(chainspec: Chainspec) -> Chainspec {
    Chainspec {
        core_config: CoreConfig {
            minimum_era_height: 2,
            era_duration: TimeDiff { millis: 0 },
            minimum_block_time: TimeDiff { millis: 1000 },
            ..chainspec.core_config
        },
        ..chainspec
    }
}

/// Makes an era have two blocks, with one block a second.
pub fn use_two_block_eras(chainspec: &mut Chainspec)
    ensures
        *final(chainspec) == two_block_eras(*old(chainspec)),
{
    chainspec.core_config.minimum_era_height = 2;
    chainspec.core_config.era_duration = TimeDiff::from_millis(0);
    chainspec.core_config.minimum_block_time = TimeDiff::from_seconds(1);
}

/// Makes an era have two blocks, with one block a second and only one validator.
pub fn use_one_proposer(chainspec: &mut Chainspec)
    ensures
        *final(chainspec) == ({
            let short = two_block_eras(*old(chainspec));
            Chainspec {
                core_config: CoreConfig { validator_slots: 1, ..short.core_config },
                ..short
            }
        }),
{
    use_two_block_eras(chainspec);
    chainspec.core_config.validator_slots = 1;
}

/// Makes an era take ten rounds, so that two nodes with one key equivocate in it.
pub fn use_long_eras(chainspec: &mut Chainspec, size: u32)
    requires
        old(chainspec).core_config.minimum_block_time.millis * 2 <= u64::MAX,
    ensures
        *final(chainspec) == (Chainspec {
            core_config: CoreConfig {
                minimum_era_height: 10,
                validator_slots: size,
                ..old(chainspec).core_config
            },
            highway_config: HighwayConfig {
                maximum_round_length: TimeDiff {
                    millis: (old(chainspec).core_config.minimum_block_time.millis * 2) as u64,
                },
            },
            ..*old(chainspec)
        }),
{
    chainspec.core_config.minimum_era_height = 10;
    chainspec.highway_config.maximum_round_length = chainspec.core_config.minimum_block_time.times(
        2,
    );
    chainspec.core_config.validator_slots = size;
}

/// Makes every round take a second, and an era at least fifteen blocks.
pub fn use_one_second_rounds(chainspec: &mut Chainspec)
    ensures
        *final(chainspec) == (Chainspec {
            core_config: CoreConfig {
                minimum_block_time: TimeDiff { millis: 1000 },
                minimum_era_height: 15,
                ..old(chainspec).core_config
            },
            highway_config: HighwayConfig { maximum_round_length: TimeDiff { millis: 1000 } },
            ..*old(chainspec)
        }),
{
    chainspec.core_config.minimum_block_time = TimeDiff::from_seconds(1);
    chainspec.highway_config.maximum_round_length = TimeDiff::from_seconds(1);
    chainspec.core_config.minimum_era_height = 15;
}

/// What decides on the rewards of a network.
#[derive(Clone, Copy, Debug)]
pub struct RewardSettings {
    /// The consensus protocol.
    pub consensus: ConsensusProtocolName,
    /// The number of validators.
    pub validator_slots: u32,
    /// The least duration of an era, in milliseconds.
    pub era_duration: u64,
    /// The least number of blocks in an era.
    pub min_height: u64,
    /// The least time between two blocks, in milliseconds.
    pub block_time: u64,
    /// The part of the total supply that is minted in a round: numerator and denominator.
    pub seigniorage: (u64, u64),
    /// The finder's fee: numerator and denominator.
    pub finders_fee: (u64, u64),
    /// The part of a block's reward that goes to its signatures: numerator and denominator.
    pub finality_sig_prop: (u64, u64),
}

impl RewardSettings {
    /// No denominator is zero.
    pub open spec fn wf(&self) -> bool {
        self.seigniorage.1 != 0 && self.finders_fee.1 != 0 && self.finality_sig_prop.1 != 0
    }

    /// The fraction that a pair of numbers stands for.
    pub open spec fn fraction(pair: (u64, u64)) -> Rational {
        lowest(pair.0 as nat, pair.1 as nat)->0
    }

    /// Writes the settings into a chainspec.
    pub fn apply(&self, chainspec: &mut Chainspec)
        requires
            self.wf(),
        ensures
            *final(chainspec) == (Chainspec {
                core_config: CoreConfig {
                    validator_slots: self.validator_slots,
                    era_duration: TimeDiff { millis: self.era_duration },
                    minimum_era_height: self.min_height,
                    minimum_block_time: TimeDiff { millis: self.block_time },
                    round_seigniorage_rate: Self::fraction(self.seigniorage),
                    consensus_protocol: self.consensus,
                    finders_fee: Self::fraction(self.finders_fee),
                    finality_signature_proportion: Self::fraction(self.finality_sig_prop),
                    ..old(chainspec).core_config
                },
                ..*old(chainspec)
            }),
            old(chainspec).core_config.wf() ==> final(chainspec).core_config.wf(),
    {
        chainspec.core_config.validator_slots = self.validator_slots;
        chainspec.core_config.era_duration = TimeDiff::from_millis(self.era_duration);
        chainspec.core_config.minimum_era_height = self.min_height;
        chainspec.core_config.minimum_block_time = TimeDiff::from_millis(self.block_time);
        chainspec.core_config.round_seigniorage_rate =
            Rational::new(self.seigniorage.0, self.seigniorage.1);
        chainspec.core_config.consensus_protocol = self.consensus;
        chainspec.core_config.finders_fee = Rational::new(self.finders_fee.0, self.finders_fee.1);
        chainspec.core_config.finality_signature_proportion =
            Rational::new(self.finality_sig_prop.0, self.finality_sig_prop.1);
    }
}

/// The stakes of a network in which every one of the first `n` keys has the same stake.
pub open spec fn equal_stakes_of(keys: Seq<PublicKey>, stake: U512, n: nat) -> Map<u64, U512>
    decreases n,
{
    if n == 0 {
        Map::empty()
    } else {
        equal_stakes_of(keys, stake, (n - 1) as nat).insert(keys[n - 1], stake)
    }
}

/// Gives every key the same stake.
pub fn equal_stakes(keys: &Vec<PublicKey>, stake: u64) -> (r: BTreeMap<u64, U512>)
    ensures
        r@ == equal_stakes_of(
            keys@,
            U512 { l0: stake as u128, l1: 0, l2: 0, l3: 0 },
            keys@.len(),
        ),
{
    broadcast use vstd::std_specs::btree::group_btree_axioms;

    let amount: U512 = U512::from_u64(stake);
    proof {
        lemma_amount_unique(amount, U512 { l0: stake as u128, l1: 0, l2: 0, l3: 0 });
    }
    let mut stakes: BTreeMap<u64, U512> = BTreeMap::new();
    let mut i: usize = 0;
    while i < keys.len()
        invariant
            i <= keys@.len(),
            stakes@ == equal_stakes_of(keys@, amount, i as nat),
        decreases keys@.len() - i,
    {
        stakes.insert(keys[i], amount);
        i += 1;
    }
    stakes
}

/// Every key has the stake, and nobody else has one.
pub proof fn lemma_equal_stakes(keys: Seq<PublicKey>, stake: U512, n: nat)
    requires
        n <= keys.len(),
    ensures
        forall|k: u64| #[trigger]
            equal_stakes_of(keys, stake, n).contains_key(k) <==> exists|i: int|
                0 <= i < n && keys[i] == k,
        forall|k: u64| #[trigger]
            equal_stakes_of(keys, stake, n).contains_key(k) ==> equal_stakes_of(keys, stake, n)[k]
                == stake,
    decreases n,
{
    if n > 0 {
        lemma_equal_stakes(keys, stake, (n - 1) as nat);
        let fewer = equal_stakes_of(keys, stake, (n - 1) as nat);
        assert forall|k: u64| #[trigger] equal_stakes_of(keys, stake, n).contains_key(k) implies exists|
            i: int,
        |
            0 <= i < n && keys[i] == k by {
            if k == keys[n - 1] {
            } else {
                assert(fewer.contains_key(k));
            }
        }
        assert forall|k: u64| (exists|i: int| 0 <= i < n && keys[i] == k) implies #[trigger]
        equal_stakes_of(keys, stake, n).contains_key(k) by {
            let i = choose|i: int| 0 <= i < n && keys[i] == k;
            if i < n - 1 {
                assert(fewer.contains_key(k));
            }
        }
    }
}

/// The stake of every honest validator of a network in which one equivocates.
pub const HONEST_STAKE: u64 = 100_000;

/// A network in which one validator runs two nodes, and another one runs none.
#[derive(Debug)]
pub struct EquivocatorNetwork {
    /// The keys of the nodes.
    pub keys: Vec<PublicKey>,
    /// The stakes of the validators.
    pub stakes: BTreeMap<u64, U512>,
}

/// Sets up a network in which `doubled` runs two nodes and `absent` none, with a stake of one each.
pub fn equivocator_network(
    honest: &Vec<PublicKey>,
    doubled: PublicKey,
    absent: PublicKey,
) -> (r: EquivocatorNetwork)
    ensures
        r.keys@ == honest@.push(doubled).push(doubled),
        r.stakes@ == equal_stakes_of(
            honest@,
            U512 { l0: HONEST_STAKE as u128, l1: 0, l2: 0, l3: 0 },
            honest@.len(),
        ).insert(doubled, (U512 { l0: 1, l1: 0, l2: 0, l3: 0 })).insert(
            absent,
            (U512 { l0: 1, l1: 0, l2: 0, l3: 0 }),
        ),
{
    broadcast use vstd::std_specs::btree::group_btree_axioms;

    let one: U512 = U512::from_u64(1);
    proof {
        lemma_amount_unique(one, U512 { l0: 1, l1: 0, l2: 0, l3: 0 });
    }
    let mut stakes: BTreeMap<u64, U512> = equal_stakes(honest, HONEST_STAKE);
    stakes.insert(doubled, one);
    stakes.insert(absent, one);
    let mut keys: Vec<PublicKey> = Vec::new();
    let mut i: usize = 0;
    while i < honest.len()
        invariant
            i <= honest@.len(),
            keys@ == honest@.take(i as int),
        decreases honest@.len() - i,
    {
        keys.push(honest[i]);
        i += 1;
        assert(keys@ =~= honest@.take(i as int));
    }
    keys.push(doubled);
    keys.push(doubled);
    assert(keys@ =~= honest@.push(doubled).push(doubled));
    EquivocatorNetwork { keys, stakes }
}

/// Settings for eras of two blocks change the least number of blocks, the least duration of an era and
/// the least time between two blocks, and nothing else.
pub proof fn lemma_two_block_eras(chainspec: Chainspec)
    ensures
        ({
            let (old_core, core) = (
                chainspec.core_config,
                two_block_eras(chainspec).core_config,
            );
            &&& core.minimum_era_height == 2
            &&& core.era_duration.millis == 0
            &&& core.minimum_block_time.millis == 1000
            &&& core.finality_threshold_fraction == old_core.finality_threshold_fraction
            &&& core.auction_delay == old_core.auction_delay
            &&& core.unbonding_delay == old_core.unbonding_delay
            &&& core.validator_slots == old_core.validator_slots
            &&& core.round_seigniorage_rate == old_core.round_seigniorage_rate
            &&& core.consensus_protocol == old_core.consensus_protocol
            &&& core.finders_fee == old_core.finders_fee
            &&& core.finality_signature_proportion == old_core.finality_signature_proportion
        }),
        two_block_eras(chainspec).activation_point == chainspec.activation_point,
        two_block_eras(chainspec).accounts_config == chainspec.accounts_config,
        two_block_eras(chainspec).highway_config == chainspec.highway_config,
        two_block_eras(chainspec).other_settings == chainspec.other_settings,
{
}

/// The fraction that a pair of numbers stands for has the value of the first over the second.
pub proof fn lemma_fraction_value(pair: (u64, u64))
    requires
        pair.1 != 0,
    ensures
        RewardSettings::fraction(pair).wf(),
        RewardSettings::fraction(pair).value() == pair.0 as real / pair.1 as real,
{
    lemma_lowest(pair.0 as nat, pair.1 as nat);
}

/// In a network with an equivocator, the doubled and the absent validator have a stake of one, all
/// other validators have a hundred thousand, and nobody else has a stake.
pub proof fn lemma_equivocator_stakes(
    honest: Seq<PublicKey>,
    doubled: PublicKey,
    absent: PublicKey,
    stakes: Map<u64, U512>,
)
    requires
        stakes == equal_stakes_of(
            honest,
            U512 { l0: HONEST_STAKE as u128, l1: 0, l2: 0, l3: 0 },
            honest.len(),
        ).insert(doubled, (U512 { l0: 1, l1: 0, l2: 0, l3: 0 })).insert(
            absent,
            (U512 { l0: 1, l1: 0, l2: 0, l3: 0 }),
        ),
    ensures
        stakes.contains_key(doubled) && stakes[doubled]@ == 1,
        stakes.contains_key(absent) && stakes[absent]@ == 1,
        forall|i: int|
            0 <= i < honest.len() && honest[i] != doubled && honest[i] != absent
                ==> stakes.contains_key(#[trigger] honest[i]) && stakes[honest[i]]@ == 100_000,
        forall|k: u64| #[trigger]
            stakes.contains_key(k) ==> k == doubled || k == absent || honest.contains(k),
{
    let stake = U512 { l0: HONEST_STAKE as u128, l1: 0, l2: 0, l3: 0 };
    lemma_equal_stakes(honest, stake, honest.len());
    let equal = equal_stakes_of(honest, stake, honest.len());
    assert forall|i: int|
        0 <= i < honest.len() && honest[i] != doubled && honest[i]
            != absent implies stakes.contains_key(#[trigger] honest[i]) && stakes[honest[i]]@
        == 100_000 by {
        assert(equal.contains_key(honest[i]));
    }
    assert forall|k: u64| #[trigger] stakes.contains_key(k) implies k == doubled || k == absent
        || honest.contains(k) by {
        if k != doubled && k != absent {
            assert(equal.contains_key(k));
        }
    }
}

} // verus!
