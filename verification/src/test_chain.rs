//! The set-up of a test network: its chainspec, and the configuration of its nodes.

use crate::chainspec::{
    AccountConfig, AccountsConfig, ActivationPoint, Chainspec, ChainspecRawBytes, CoreConfig,
    DelegatorConfig, ValidatorConfig,
};
use crate::ordered::{in_order, lemma_in_order_lists, list_entries};
use crate::primitives::{PublicKey, TimeDiff, Timestamp};
use crate::rational::{lemma_lowest, lowest, Rational};
use crate::u512::{lemma_amount_unique, u512_range, U512};
use rand::rngs::StdRng;
use rand::Rng;
use std::collections::BTreeMap;
use vstd::prelude::*;

verus! {

/// The random number generator of the `rand` crate.
#[verifier::external_type_specification]
#[verifier::external_body]
pub struct ExStdRng(rand::rngs::StdRng);

/// Calls `rand::Rng::gen_range` on the range from `low` up to, and not including, `high`.
///
/// The number drawn lies in that range. Which one it is rests on chance.
#[verifier::external_body]
fn draw(rng: &mut StdRng, low: u64, high: u64) -> (r: u64)
    requires
        low < high,
    ensures
        low <= r < high,
{
    rng.gen_range(low..high)
}

/// Calls `num::Zero::zero` for a delegation rate, which is a `u8`: the additive identity.
#[verifier::external_body]
fn zero_rate() -> (r: u8)
    ensures
        r == 0,
{
    <u8 as num::Zero>::zero()
}

/// The least factor of a random stake.
pub const STAKE_FACTOR_LOW: u64 = 100;

/// What every factor of a random stake is less than.
pub const STAKE_FACTOR_HIGH: u64 = 999;

/// How many seconds pass before genesis, so that all validators can start up.
pub const STARTUP_SECONDS: u32 = 60;

/// The stakes of the first `n` keys, in that order: where a key occurs more than once, the last of
/// its stakes counts.
pub open spec fn stakes_of(keys: Seq<PublicKey>, values: Seq<U512>, n: nat) -> Map<u64, U512>
    decreases n,
{
    if n == 0 {
        Map::empty()
    } else {
        stakes_of(keys, values, (n - 1) as nat).insert(keys[n - 1], values[n - 1])
    }
}

/// The genesis account of a validator with the given stake and no other balance.
pub open spec fn genesis_account(public_key: PublicKey, stake: U512) -> AccountConfig {
    AccountConfig {
        public_key,
        balance: U512 { l0: 0, l1: 0, l2: 0, l3: 0 },
        validator: Some(ValidatorConfig { bonded_amount: stake, delegation_rate: 0 }),
    }
}

/// One genesis account for each stake, in the order of the keys.
pub open spec fn genesis_accounts(stakes: Map<u64, U512>) -> Seq<AccountConfig> {
    in_order(stakes).map_values(|entry: (u64, U512)| genesis_account(entry.0, entry.1))
}

/// The core settings of a test chain: those of `base` but for the ones that keep eras short.
pub open spec fn test_core_config(base: CoreConfig) -> CoreConfig {
    CoreConfig {
        minimum_era_height: 1,
        finality_threshold_fraction: lowest(34, 100)->0,
        era_duration: TimeDiff { millis: 10 },
        auction_delay: 1,
        unbonding_delay: 3,
        ..base
    }
}

/// The values are those multiples of the greatest `u128` that the factors give.
pub open spec fn drawn_stakes(values: Seq<U512>, factors: Seq<u64>) -> bool {
    &&& values.len() == factors.len()
    &&& forall|i: int|
        0 <= i < values.len() ==> (#[trigger] values[i])@ == u128::MAX * factors[i]
}

/// Factors of random stakes lie in this range.
pub open spec fn factors_in_range(factors: Seq<u64>) -> bool {
    forall|i: int|
        0 <= i < factors.len() ==> STAKE_FACTOR_LOW <= #[trigger] factors[i] < STAKE_FACTOR_HIGH
}

/// The chain on which a test network runs.
#[derive(Debug)]
pub struct TestChain {
    /// The keys of the validator instances; they can include duplicates.
    pub keys: Vec<PublicKey>,
    /// The storage directories of the nodes.
    pub storages: Vec<String>,
    /// The settings of the chain.
    pub chainspec: Chainspec,
    /// The bytes that the settings were loaded from.
    pub chainspec_raw_bytes: ChainspecRawBytes,
}

impl TestChain {
    /// This is the new chain for the given keys and stakes, made at the time `now` out of the
    /// settings of `base`, which were loaded from `raw`.
    pub open spec fn set_up(
        &self,
        keys: Seq<PublicKey>,
        stakes: Map<u64, U512>,
        base: Chainspec,
        raw: ChainspecRawBytes,
        now: Timestamp,
    ) -> bool {
        &&& self.keys@ == keys
        &&& self.storages@ == Seq::<String>::empty()
        &&& self.chainspec.accounts_config.accounts@ == genesis_accounts(stakes)
        &&& self.chainspec.accounts_config.delegators@ == Seq::<DelegatorConfig>::empty()
        &&& self.chainspec.activation_point == ActivationPoint::Genesis(
            Timestamp { millis: (now.millis + STARTUP_SECONDS * 1000) as u64 },
        )
        &&& self.chainspec.core_config == test_core_config(base.core_config)
        &&& self.chainspec.highway_config == base.highway_config
        &&& self.chainspec.other_settings == base.other_settings
        &&& self.chainspec_raw_bytes == raw
    }

    /// Makes a test chain in which each key has the stake at the same place of `initial_stakes`, or,
    /// where there are none, a random and very large one.
    pub fn new(
        rng: &mut StdRng,
        keys: Vec<PublicKey>,
        initial_stakes: Option<&Vec<U512>>,
        base: Chainspec,
        raw: ChainspecRawBytes,
        now: Timestamp,
    ) -> (r: TestChain)
        requires
            initial_stakes matches Some(stakes) ==> stakes@.len() == keys@.len(),
            now.millis + STARTUP_SECONDS * 1000 <= u64::MAX,
        ensures
            initial_stakes is Some ==> *final(rng) == *old(rng),
            initial_stakes matches Some(stakes) ==> r.set_up(
                keys@,
                stakes_of(keys@, stakes@, keys@.len()),
                base,
                raw,
                now,
            ),
            initial_stakes is None ==> exists|factors: Seq<u64>, values: Seq<U512>|
                {
                    &&& factors.len() == keys@.len()
                    &&& factors_in_range(factors)
                    &&& #[trigger] drawn_stakes(values, factors)
                    &&& r.set_up(keys@, stakes_of(keys@, values, keys@.len()), base, raw, now)
                },
    {
        match initial_stakes {
            Some(stakes) => {
                let by_key: BTreeMap<u64, U512> = assign_stakes(&keys, stakes);
                TestChain::new_with_keys(keys, by_key, base, raw, now)
            },
            None => {
                let mut factors: Vec<u64> = Vec::new();
                let mut i: usize = 0;
                while i < keys.len()
                    invariant
                        i <= keys@.len(),
                        factors@.len() == i,
                        factors_in_range(factors@),
                    decreases keys@.len() - i,
                {
                    factors.push(draw(rng, STAKE_FACTOR_LOW, STAKE_FACTOR_HIGH));
                    i += 1;
                }
                TestChain::new_with_factors(keys, &factors, base, raw, now)
            },
        }
    }

    /// Makes a test chain in which each key has, as its stake, the greatest `u128` times the factor at
    /// the same place.
    pub fn new_with_factors(
        keys: Vec<PublicKey>,
        factors: &Vec<u64>,
        base: Chainspec,
        raw: ChainspecRawBytes,
        now: Timestamp,
    ) -> (r: TestChain)
        requires
            factors@.len() == keys@.len(),
            now.millis + STARTUP_SECONDS * 1000 <= u64::MAX,
        ensures
            exists|values: Seq<U512>|
                #[trigger] drawn_stakes(values, factors@) && r.set_up(
                    keys@,
                    stakes_of(keys@, values, keys@.len()),
                    base,
                    raw,
                    now,
                ),
    {
        let mut values: Vec<U512> = Vec::new();
        let mut i: usize = 0;
        while i < factors.len()
            invariant
                i <= factors@.len(),
                values@.len() == i,
                forall|j: int|
                    0 <= j < i ==> (#[trigger] values@[j])@ == u128::MAX * factors@[j],
            decreases factors@.len() - i,
        {
            let factor: u64 = factors[i];
            assert(u128::MAX * factor < u512_range()) by (nonlinear_arith)
                requires
                    0 <= factor <= u64::MAX,
            ;
            values.push(U512::from_u128(u128::MAX).times(factor));
            i += 1;
        }
        assert(drawn_stakes(values@, factors@));
        let by_key: BTreeMap<u64, U512> = assign_stakes(&keys, &values);
        TestChain::new_with_keys(keys, by_key, base, raw, now)
    }

    /// Makes a test chain in which the given keys have the given stakes.
    pub fn new_with_keys(
        keys: Vec<PublicKey>,
        stakes: BTreeMap<u64, U512>,
        base: Chainspec,
        raw: ChainspecRawBytes,
        now: Timestamp,
    ) -> (r: TestChain)
        requires
            now.millis + STARTUP_SECONDS * 1000 <= u64::MAX,
        ensures
            r.set_up(keys@, stakes@, base, raw, now),
    {
        let entries: Vec<(u64, U512)> = list_entries(&stakes);
        let mut accounts: Vec<AccountConfig> = Vec::new();
        let mut i: usize = 0;
        while i < entries.len()
            invariant
                i <= entries@.len(),
                accounts@.len() == i,
                forall|j: int|
                    0 <= j < i ==> #[trigger] accounts@[j] == genesis_account(
                        entries@[j].0,
                        entries@[j].1,
                    ),
            decreases entries@.len() - i,
        {
            let validator: ValidatorConfig = ValidatorConfig {
                bonded_amount: entries[i].1,
                delegation_rate: zero_rate(),
            };
            let balance: U512 = U512::zero();
            proof {
                lemma_amount_unique(balance, U512 { l0: 0, l1: 0, l2: 0, l3: 0 });
            }
            accounts.push(
                AccountConfig { public_key: entries[i].0, balance, validator: Some(validator) },
            );
            i += 1;
        }
        assert(accounts@ =~= genesis_accounts(stakes@));
        let mut core_config: CoreConfig = base.core_config;
        core_config.minimum_era_height = 1;
        core_config.finality_threshold_fraction = Rational::new(34, 100);
        core_config.era_duration = TimeDiff::from_millis(10);
        core_config.auction_delay = 1;
        core_config.unbonding_delay = 3;
        let genesis_time: Timestamp = now.after(TimeDiff::from_seconds(STARTUP_SECONDS));
        TestChain {
            keys,
            storages: Vec::new(),
            chainspec: Chainspec {
                activation_point: ActivationPoint::Genesis(genesis_time),
                accounts_config: AccountsConfig { accounts, delegators: Vec::new() },
                core_config,
                highway_config: base.highway_config,
                other_settings: base.other_settings,
            },
            chainspec_raw_bytes: raw,
        }
    }

    /// The settings of the chain, to be changed.
    pub fn chainspec_mut(&mut self) -> (r: &mut Chainspec)
        ensures
            *r == old(self).chainspec,
            *final(self) == (TestChain { chainspec: *final(r), ..*old(self) }),
    {
        &mut self.chainspec
    }
}

/// Gives each key the stake at the same place.
fn assign_stakes(keys: &Vec<PublicKey>, values: &Vec<U512>) -> (r: BTreeMap<u64, U512>)
    requires
        values@.len() == keys@.len(),
    ensures
        r@ == stakes_of(keys@, values@, keys@.len()),
{
    broadcast use vstd::std_specs::btree::group_btree_axioms;

    let mut stakes: BTreeMap<u64, U512> = BTreeMap::new();
    let mut i: usize = 0;
    while i < keys.len()
        invariant
            i <= keys@.len(),
            values@.len() == keys@.len(),
            stakes@ == stakes_of(keys@, values@, i as nat),
        decreases keys@.len() - i,
    {
        stakes.insert(keys[i], values[i]);
        i += 1;
    }
    stakes
}

/// The keys of a chain are the ones that it was made with, whichever stakes it was given.
pub proof fn lemma_keys_do_not_depend_on_stakes(
    a: TestChain,
    b: TestChain,
    keys: Seq<PublicKey>,
    stakes: Map<u64, U512>,
    other_stakes: Map<u64, U512>,
    base: Chainspec,
    raw: ChainspecRawBytes,
    now: Timestamp,
)
    requires
        a.set_up(keys, stakes, base, raw, now),
        b.set_up(keys, other_stakes, base, raw, now),
    ensures
        a.keys@ == b.keys@,
        a.chainspec.core_config == b.chainspec.core_config,
        a.chainspec.activation_point == b.chainspec.activation_point,
{
}

/// The fractions of a test chain's settings are in lowest terms where those of the base are.
pub proof fn lemma_test_core_config_wf(base: CoreConfig)
    requires
        base.wf(),
    ensures
        test_core_config(base).wf(),
{
    lemma_lowest(34, 100);
}

/// A test chain's accounts are exactly its stakes, in the order of the keys: there is one for each key,
/// and it has that key's stake bonded, at a delegation rate of zero, and no other balance.
pub proof fn lemma_accounts_are_stakes(stakes: Map<u64, U512>)
    ensures
        forall|i: int|
            #![trigger genesis_accounts(stakes)[i]]
            0 <= i < genesis_accounts(stakes).len() ==> {
                let account = genesis_accounts(stakes)[i];
                &&& stakes.contains_key(account.public_key)
                &&& account == genesis_account(account.public_key, stakes[account.public_key])
                &&& account.balance@ == 0
                &&& account.validator is Some
                &&& account.validator->0.bonded_amount == stakes[account.public_key]
                &&& account.validator->0.delegation_rate == 0
            },
        forall|k: u64| #[trigger]
            stakes.contains_key(k) ==> exists|i: int|
                0 <= i < genesis_accounts(stakes).len() && genesis_accounts(stakes)[i].public_key
                    == k,
        forall|i: int, j: int|
            0 <= i < j < genesis_accounts(stakes).len() ==> genesis_accounts(stakes)[i].public_key
                < genesis_accounts(stakes)[j].public_key,
{
    lemma_in_order_lists(stakes);
    let entries = in_order(stakes);
    let accounts = genesis_accounts(stakes);
    assert forall|k: u64| #[trigger] stakes.contains_key(k) implies exists|i: int|
        0 <= i < accounts.len() && accounts[i].public_key == k by {
        let i = choose|i: int| 0 <= i < entries.len() && entries[i].0 == k;
        assert(accounts[i].public_key == k);
    }
}

/// What a new test chain is like: genesis comes a minute after the chain is made, an era has at least one
/// block and lasts at least ten milliseconds, finality withstands faults of 34 percent, an auction takes
/// effect after one era and unbonding takes three; all other settings are those of the base.
pub proof fn lemma_new_chain_settings(
    chain: TestChain,
    keys: Seq<PublicKey>,
    stakes: Map<u64, U512>,
    base: Chainspec,
    raw: ChainspecRawBytes,
    now: Timestamp,
)
    requires
        chain.set_up(keys, stakes, base, raw, now),
        now.millis + 60_000 <= u64::MAX,
    ensures
        chain.keys@ == keys,
        chain.storages@.len() == 0,
        chain.chainspec_raw_bytes == raw,
        chain.chainspec.accounts_config.accounts@ == genesis_accounts(stakes),
        chain.chainspec.accounts_config.delegators@.len() == 0,
        chain.chainspec.activation_point is Genesis,
        chain.chainspec.activation_point->Genesis_0.millis == now.millis + 60_000,
        chain.chainspec.highway_config == base.highway_config,
        chain.chainspec.other_settings == base.other_settings,
        ({
            let (core, before) = (chain.chainspec.core_config, base.core_config);
            &&& core.minimum_era_height == 1
            &&& core.finality_threshold_fraction.value() == 34 as real / 100 as real
            &&& core.era_duration.millis == 10
            &&& core.auction_delay == 1
            &&& core.unbonding_delay == 3
            &&& core.validator_slots == before.validator_slots
            &&& core.minimum_block_time == before.minimum_block_time
            &&& core.round_seigniorage_rate == before.round_seigniorage_rate
            &&& core.consensus_protocol == before.consensus_protocol
            &&& core.finders_fee == before.finders_fee
            &&& core.finality_signature_proportion == before.finality_signature_proportion
        }),
{
    lemma_lowest(34, 100);
}

/// A key has a stake exactly where it is one of the keys, and the stake is the one at the last place of
/// the key.
pub proof fn lemma_stakes_by_place(keys: Seq<PublicKey>, values: Seq<U512>, n: nat)
    requires
        n <= keys.len(),
        n <= values.len(),
    ensures
        forall|k: u64| #[trigger]
            stakes_of(keys, values, n).contains_key(k) <==> exists|j: int|
                0 <= j < n && keys[j] == k,
        forall|j: int|
            #![trigger keys[j]]
            0 <= j < n && (forall|later: int| j < later < n ==> keys[later] != keys[j])
                ==> stakes_of(keys, values, n)[keys[j]] == values[j],
    decreases n,
{
    if n > 0 {
        lemma_stakes_by_place(keys, values, (n - 1) as nat);
        let fewer = stakes_of(keys, values, (n - 1) as nat);
        let all = stakes_of(keys, values, n);
        assert forall|k: u64| #[trigger] all.contains_key(k) <==> exists|j: int|
            0 <= j < n && keys[j] == k by {
            if all.contains_key(k) {
                if k == keys[n - 1] {
                } else {
                    assert(fewer.contains_key(k));
                }
            }
            if exists|j: int| 0 <= j < n && keys[j] == k {
                let j = choose|j: int| 0 <= j < n && keys[j] == k;
                if j < n - 1 {
                    assert(fewer.contains_key(k));
                }
            }
        }
        assert forall|j: int|
            #![trigger keys[j]]
            0 <= j < n && (forall|later: int|
                j < later < n ==> keys[later] != keys[j]) implies all[keys[j]] == values[j] by {
            if j < n - 1 {
                assert(keys[n - 1] != keys[j]);
                assert(fewer[keys[j]] == values[j]);
            }
        }
    }
}

/// Random stakes are multiples of the greatest `u128`, from a hundred times up to 998 times.
pub proof fn lemma_random_stakes(values: Seq<U512>, factors: Seq<u64>, i: int)
    requires
        drawn_stakes(values, factors),
        factors_in_range(factors),
        0 <= i < factors.len(),
    ensures
        values.len() == factors.len(),
        100 <= factors[i] <= 998,
        values[i]@ == 0xffff_ffff_ffff_ffff_ffff_ffff_ffff_ffffnat * factors[i] as nat,
{
    assert(values[i]@ == u128::MAX * factors[i]);
}

} // verus!
