//! Paying rewards out: who has earned what in each era, and how the total supply grows by it.

use crate::chainspec::CoreConfig;
use crate::primitives::PublicKey;
use crate::rational::{integer, sum, Rational};
use crate::rewards::{
    credits_wf, era_credits, list_era_credits, map_wf, Block, Credit, RewardError,
};
use crate::switch_blocks::BlockHeader;
use crate::u512::U512;
use std::collections::BTreeMap;
use vstd::prelude::*;

verus! {

/// The rewards of an era so far, by validator, and the total supply at the end of each era so far.
pub struct Ledger {
    /// The rewards.
    pub rewards: Map<u64, Rational>,
    /// The supply.
    pub supply: Map<u64, Rational>,
}

impl Ledger {
    /// All fractions are in lowest terms.
    pub open spec fn wf(self) -> bool {
        map_wf(self.rewards) && map_wf(self.supply)
    }
}

/// The ledger after a credit has been paid out in an era.
pub open spec fn credited(ledger: Ledger, era: u64, credit: Credit) -> Result<Ledger, RewardError> {
    let Credit { recipient, amount } = credit;
    if ledger.supply.contains_key(era) {
        let reward = if ledger.rewards.contains_key(recipient) {
            sum(ledger.rewards[recipient], amount)
        } else {
            Some(amount)
        };
        match (reward, sum(ledger.supply[era], amount)) {
            (Some(reward), Some(supply)) => Ok(
                Ledger {
                    rewards: ledger.rewards.insert(recipient, reward),
                    supply: ledger.supply.insert(era, supply),
                },
            ),
            _ => Err(RewardError::Arithmetic),
        }
    } else if ledger.rewards.contains_key(recipient) {
        Err(RewardError::RewardWithoutSupply)
    } else {
        Ok(
            Ledger {
                rewards: ledger.rewards.insert(recipient, amount),
                supply: ledger.supply.insert(era, amount),
            },
        )
    }
}

/// Pays a reward out: adds it to what the recipient has and to the total supply of the era.
///
/// Where no supply is known for the era yet, the reward becomes the supply; the recipient must not
/// have rewards then.
pub fn add_to_rewards(
    recipient: PublicKey,
    reward: Rational,
    rewards: &mut BTreeMap<u64, Rational>,
    era: u64,
    total_supply: &mut BTreeMap<u64, Rational>,
) -> (r: Result<(), RewardError>)
    requires
        reward.wf(),
        map_wf(old(rewards)@),
        map_wf(old(total_supply)@),
    ensures
        ({
            let before = Ledger { rewards: old(rewards)@, supply: old(total_supply)@ };
            let after = Ledger { rewards: final(rewards)@, supply: final(total_supply)@ };
            match credited(before, era, Credit { recipient, amount: reward }) {
                Ok(ledger) => r is Ok && after == ledger && after.wf(),
                Err(e) => r == Err::<(), RewardError>(e) && after == before,
            }
        }),
{
    broadcast use vstd::std_specs::btree::group_btree_axioms;

    let value: Option<Rational> = match rewards.get(&recipient) {
        Some(value) => Some(*value),
        None => None,
    };
    let supply: Option<Rational> = match total_supply.get(&era) {
        Some(supply) => Some(*supply),
        None => None,
    };
    match (value, supply) {
        (Some(value), Some(supply)) => match (
            value.checked_add(reward),
            supply.checked_add(reward),
        ) {
            (Some(value), Some(supply)) => {
                rewards.insert(recipient, value);
                total_supply.insert(era, supply);
                Ok(())
            },
            _ => Err(RewardError::Arithmetic),
        },
        (None, Some(supply)) => match supply.checked_add(reward) {
            Some(supply) => {
                rewards.insert(recipient, reward);
                total_supply.insert(era, supply);
                Ok(())
            },
            None => Err(RewardError::Arithmetic),
        },
        (Some(_), None) => Err(RewardError::RewardWithoutSupply),
        (None, None) => {
            total_supply.insert(era, reward);
            rewards.insert(recipient, reward);
            Ok(())
        },
    }
}

/// The ledger after the first `n` credits of a list have been paid out in an era.
pub open spec fn paid_out(ledger: Ledger, era: u64, credits: Seq<Credit>, n: nat) -> Result<
    Ledger,
    RewardError,
>
    decreases n,
{
    if n == 0 {
        Ok(ledger)
    } else {
        match paid_out(ledger, era, credits, (n - 1) as nat) {
            Err(e) => Err(e),
            Ok(so_far) => credited(so_far, era, credits[n - 1]),
        }
    }
}

proof fn lemma_paid_out_stays_err(ledger: Ledger, era: u64, credits: Seq<Credit>, n: nat, m: nat)
    requires
        n <= m,
        paid_out(ledger, era, credits, n) is Err,
    ensures
        paid_out(ledger, era, credits, m) == paid_out(ledger, era, credits, n),
    decreases m,
{
    if n < m {
        lemma_paid_out_stays_err(ledger, era, credits, n, (m - 1) as nat);
    }
}

/// After the ledger `after`, which some credits of the list have led to, the next credit cannot be
/// paid out.
pub open spec fn stopped_short(
    ledger: Ledger,
    era: u64,
    credits: Seq<Credit>,
    after: Ledger,
) -> bool {
    exists|k: nat|
        {
            &&& k < credits.len()
            &&& #[trigger] paid_out(ledger, era, credits, k) == Ok::<Ledger, RewardError>(after)
            &&& credited(after, era, credits[k as int]) is Err
        }
}

/// Pays a list of credits out. Where that fails, the credits before the one that cannot be paid have
/// been paid.
pub fn pay_out(
    credits: &Vec<Credit>,
    rewards: &mut BTreeMap<u64, Rational>,
    era: u64,
    total_supply: &mut BTreeMap<u64, Rational>,
) -> (r: Result<(), RewardError>)
    requires
        credits_wf(credits@),
        map_wf(old(rewards)@),
        map_wf(old(total_supply)@),
    ensures
        ({
            let before = Ledger { rewards: old(rewards)@, supply: old(total_supply)@ };
            let after = Ledger { rewards: final(rewards)@, supply: final(total_supply)@ };
            match r {
                Ok(_) => {
                    &&& paid_out(before, era, credits@, credits@.len()) == Ok::<
                        Ledger,
                        RewardError,
                    >(after)
                    &&& after.wf()
                },
                Err(e) => {
                    &&& paid_out(before, era, credits@, credits@.len()) == Err::<
                        Ledger,
                        RewardError,
                    >(e)
                    &&& stopped_short(before, era, credits@, after)
                },
            }
        }),
{
    let ghost before = Ledger { rewards: rewards@, supply: total_supply@ };
    let mut k: usize = 0;
    while k < credits.len()
        invariant
            k <= credits@.len(),
            before == (Ledger { rewards: old(rewards)@, supply: old(total_supply)@ }),
            credits_wf(credits@),
            map_wf(rewards@),
            map_wf(total_supply@),
            paid_out(before, era, credits@, k as nat) == Ok::<Ledger, RewardError>(
                Ledger { rewards: rewards@, supply: total_supply@ },
            ),
        decreases credits@.len() - k,
    {
        let credit: Credit = credits[k];
        match add_to_rewards(credit.recipient, credit.amount, rewards, era, total_supply) {
            Ok(_) => {},
            Err(e) => {
                proof {
                    let after = Ledger { rewards: rewards@, supply: total_supply@ };
                    assert(paid_out(before, era, credits@, k as nat) == Ok::<Ledger, RewardError>(
                        after,
                    ));
                    lemma_paid_out_stays_err(
                        before,
                        era,
                        credits@,
                        (k + 1) as nat,
                        credits@.len(),
                    );
                }
                return Err(e);
            },
        }
        k += 1;
    }
    Ok(())
}

/// Whether rewards are paid at the end of the era: it is not the genesis era, and the node has all
/// blocks up to its switch block.
pub open spec fn pays(header: BlockHeader, highest_completed_height: u64) -> bool {
    !header.genesis && header.height <= highest_completed_height
}

/// The ledger of era `i` before anything has been paid in it: the supply is that of the era before.
pub open spec fn opened(supply: Map<u64, Rational>, i: int) -> Ledger {
    Ledger { rewards: Map::empty(), supply: supply.insert(i as u64, supply[(i - 1) as u64]) }
}

/// The rewards of the era that `headers[i]` ends, and the total supply after it.
///
/// Where rewards are paid, the supply at the end of the era starts from the one at the end of the
/// era before.
pub open spec fn era_settled(
    config: CoreConfig,
    headers: Seq<BlockHeader>,
    blocks: Seq<Block>,
    highest_completed_height: u64,
    i: int,
    supply: Map<u64, Rational>,
) -> Result<Ledger, RewardError> {
    if !pays(headers[i], highest_completed_height) {
        Ok(Ledger { rewards: Map::empty(), supply })
    } else {
        match era_credits(config, headers, blocks, i, supply) {
            Err(e) => Err(e),
            Ok(credits) => paid_out(opened(supply, i), i as u64, credits, credits.len()),
        }
    }
}

/// Settles the era that `headers[i]` ends: gives the rewards and brings the supply up to date.
///
/// Where the era's credits cannot be listed, the supply stays as it was. Where they can be listed but
/// not all paid, the supply has grown by those that were paid.
pub fn settle_era(
    config: &CoreConfig,
    headers: &Vec<BlockHeader>,
    blocks: &Vec<Block>,
    highest_completed_height: u64,
    i: usize,
    total_supply: &mut BTreeMap<u64, Rational>,
) -> (r: Result<BTreeMap<u64, Rational>, RewardError>)
    requires
        config.wf(),
        i < headers@.len(),
        map_wf(old(total_supply)@),
    ensures
        ({
            let settled = era_settled(
                *config,
                headers@,
                blocks@,
                highest_completed_height,
                i as int,
                old(total_supply)@,
            );
            match r {
                Ok(rewards) => {
                    &&& settled == Ok::<Ledger, RewardError>(
                        Ledger { rewards: rewards@, supply: final(total_supply)@ },
                    )
                    &&& map_wf(rewards@)
                    &&& map_wf(final(total_supply)@)
                },
                Err(e) => {
                    &&& settled == Err::<Ledger, RewardError>(e)
                    &&& match era_credits(
                        *config,
                        headers@,
                        blocks@,
                        i as int,
                        old(total_supply)@,
                    ) {
                        Err(_) => final(total_supply)@ == old(total_supply)@,
                        Ok(credits) => exists|rewards: Map<u64, Rational>| #[trigger]
                            stopped_short(
                                opened(old(total_supply)@, i as int),
                                i as u64,
                                credits,
                                Ledger { rewards, supply: final(total_supply)@ },
                            ),
                    }
                },
            }
        }),
{
    broadcast use vstd::std_specs::btree::group_btree_axioms;

    let mut rewards: BTreeMap<u64, Rational> = BTreeMap::new();
    if headers[i].genesis || headers[i].height > highest_completed_height {
        return Ok(rewards);
    }
    let credits: Vec<Credit> = match list_era_credits(config, headers, blocks, i, total_supply) {
        Ok(credits) => credits,
        Err(e) => {
            return Err(e);
        },
    };
    let carried: Rational = *total_supply.get(&(i as u64 - 1)).unwrap();
    total_supply.insert(i as u64, carried);
    match pay_out(&credits, &mut rewards, i as u64, total_supply) {
        Ok(_) => Ok(rewards),
        Err(e) => {
            assert(stopped_short(
                opened(old(total_supply)@, i as int),
                i as u64,
                credits@,
                Ledger { rewards: rewards@, supply: total_supply@ },
            ));
            Err(e)
        },
    }
}

/// The rewards of each of the first `n` eras, and the total supply at the end of each, where
/// `genesis_supply` is the supply at the end of era 0.
pub open spec fn recomputed(
    config: CoreConfig,
    headers: Seq<BlockHeader>,
    blocks: Seq<Block>,
    highest_completed_height: u64,
    genesis_supply: Rational,
    n: nat,
) -> Result<(Seq<Map<u64, Rational>>, Map<u64, Rational>), RewardError>
    decreases n,
{
    if n == 0 {
        Ok((Seq::empty(), Map::empty().insert(0u64, genesis_supply)))
    } else {
        match recomputed(
            config,
            headers,
            blocks,
            highest_completed_height,
            genesis_supply,
            (n - 1) as nat,
        ) {
            Err(e) => Err(e),
            Ok((rewards, supply)) => match era_settled(
                config,
                headers,
                blocks,
                highest_completed_height,
                n - 1,
                supply,
            ) {
                Err(e) => Err(e),
                Ok(ledger) => Ok((rewards.push(ledger.rewards), ledger.supply)),
            },
        }
    }
}

proof fn lemma_recomputed_stays_err(
    config: CoreConfig,
    headers: Seq<BlockHeader>,
    blocks: Seq<Block>,
    highest_completed_height: u64,
    genesis_supply: Rational,
    n: nat,
    m: nat,
)
    requires
        n <= m,
        recomputed(
            config,
            headers,
            blocks,
            highest_completed_height,
            genesis_supply,
            n,
        ) is Err,
    ensures
        recomputed(config, headers, blocks, highest_completed_height, genesis_supply, m)
            == recomputed(config, headers, blocks, highest_completed_height, genesis_supply, n),
    decreases m,
{
    if n < m {
        lemma_recomputed_stays_err(
            config,
            headers,
            blocks,
            highest_completed_height,
            genesis_supply,
            n,
            (m - 1) as nat,
        );
    }
}

/// The rewards of a chain's eras, and how its total supply grew.
#[derive(Debug)]
pub struct Recomputed {
    /// The rewards of each era, by validator.
    pub rewards: Vec<BTreeMap<u64, Rational>>,
    /// The total supply at the end of each era.
    pub total_supply: BTreeMap<u64, Rational>,
}

impl Recomputed {
    /// The rewards of each era, by validator.
    pub open spec fn rewards_view(&self) -> Seq<Map<u64, Rational>> {
        Seq::new(self.rewards@.len(), |i: int| self.rewards@[i]@)
    }

    /// All fractions are in lowest terms.
    pub open spec fn wf(&self) -> bool {
        &&& map_wf(self.total_supply@)
        &&& forall|i: int| 0 <= i < self.rewards@.len() ==> map_wf((#[trigger] self.rewards@[i])@)
    }
}

/// Recomputes the rewards of all eras from the chain's switch blocks and blocks and from the total
/// supply at genesis.
pub fn recompute_rewards(
    config: &CoreConfig,
    headers: &Vec<BlockHeader>,
    blocks: &Vec<Block>,
    highest_completed_height: u64,
    genesis_supply: &U512,
) -> (r: Result<Recomputed, RewardError>)
    requires
        config.wf(),
    ensures
        ({
            let expected = if genesis_supply@ > u64::MAX {
                Err(RewardError::AmountOverflow)
            } else {
                recomputed(
                    *config,
                    headers@,
                    blocks@,
                    highest_completed_height,
                    integer(genesis_supply@ as u64),
                    headers@.len(),
                )
            };
            match r {
                Ok(result) => {
                    &&& expected == Ok::<
                        (Seq<Map<u64, Rational>>, Map<u64, Rational>),
                        RewardError,
                    >((result.rewards_view(), result.total_supply@))
                    &&& result.wf()
                },
                Err(e) => expected == Err::<
                    (Seq<Map<u64, Rational>>, Map<u64, Rational>),
                    RewardError,
                >(e),
            }
        }),
{
    broadcast use vstd::std_specs::btree::group_btree_axioms;

    let genesis: u64 = match genesis_supply.to_u64() {
        Some(genesis) => genesis,
        None => {
            return Err(RewardError::AmountOverflow);
        },
    };
    let start: Rational = Rational::from_integer(genesis);
    let rewards: Vec<BTreeMap<u64, Rational>> = Vec::new();
    let mut total_supply: BTreeMap<u64, Rational> = BTreeMap::new();
    total_supply.insert(0, start);
    let mut result: Recomputed = Recomputed { rewards, total_supply };
    assert(result.rewards_view() =~= Seq::<Map<u64, Rational>>::empty());
    let mut i: usize = 0;
    while i < headers.len()
        invariant
            i <= headers@.len(),
            config.wf(),
            result.wf(),
            result.rewards@.len() == i,
            genesis_supply@ <= u64::MAX,
            start == integer(genesis_supply@ as u64),
            recomputed(
                *config,
                headers@,
                blocks@,
                highest_completed_height,
                start,
                i as nat,
            ) == Ok::<(Seq<Map<u64, Rational>>, Map<u64, Rational>), RewardError>(
                (result.rewards_view(), result.total_supply@),
            ),
        decreases headers@.len() - i,
    {
        let ghost before = result.rewards_view();
        let mut total_supply: BTreeMap<u64, Rational> = result.total_supply;
        let mut rewards: Vec<BTreeMap<u64, Rational>> = result.rewards;
        match settle_era(
            config,
            headers,
            blocks,
            highest_completed_height,
            i,
            &mut total_supply,
        ) {
            Ok(era) => {
                rewards.push(era);
                result = Recomputed { rewards, total_supply };
                assert(result.rewards_view() =~= before.push(era@));
            },
            Err(e) => {
                proof {
                    lemma_recomputed_stays_err(
                        *config,
                        headers@,
                        blocks@,
                        highest_completed_height,
                        start,
                        (i + 1) as nat,
                        headers@.len(),
                    );
                }
                return Err(e);
            },
        }
        i += 1;
    }
    Ok(result)
}

} // verus!
