//! What validators have received once the credits of an era have been paid out.

use crate::audit::lemma_payout_conserved;
use crate::chainspec::CoreConfig;
use crate::ledger::{credited, era_settled, opened, paid_out, pays, recomputed, Ledger};
use crate::rational::{lemma_sum_fits, lemma_sum_value, Rational};
use crate::rewards::{
    credits_wf, earlier_supplies, era_credits, lemma_era_credits_wf, map_wf, Block, Credit,
    RewardError,
};
use crate::switch_blocks::BlockHeader;
use vstd::prelude::*;

verus! {

/// What the first `n` credits of a list give to a validator, added up.
pub open spec fn received(credits: Seq<Credit>, validator: u64, n: nat) -> real
    decreases n,
{
    if n == 0 {
        0 as real
    } else if credits[n - 1].recipient == validator {
        received(credits, validator, (n - 1) as nat) + credits[n - 1].amount.value()
    } else {
        received(credits, validator, (n - 1) as nat)
    }
}

/// Paying a credit out where a supply is known adds the amount to what the recipient has, or gives it as
/// the first amount, adds it to the supply of the era, and changes nobody else's rewards and no other
/// era's supply.
pub proof fn lemma_credit_added(ledger: Ledger, era: u64, credit: Credit, validator: u64, other: u64)
    requires
        ledger.wf(),
        credit.amount.wf(),
        ledger.supply.contains_key(era),
        credited(ledger, era, credit) is Ok,
    ensures
        ({
            let after = credited(ledger, era, credit)->Ok_0;
            let amount = credit.amount.value();
            &&& after.wf()
            &&& after.rewards.contains_key(validator) <==> ledger.rewards.contains_key(validator)
                || validator == credit.recipient
            &&& validator == credit.recipient ==> after.rewards[validator].value() == amount + (
            if ledger.rewards.contains_key(validator) {
                ledger.rewards[validator].value()
            } else {
                0 as real
            })
            &&& validator != credit.recipient ==> after.rewards[validator]
                == ledger.rewards[validator]
            &&& after.supply.contains_key(other) == ledger.supply.contains_key(other)
            &&& after.supply[era].value() == ledger.supply[era].value() + amount
            &&& other != era ==> after.supply[other] == ledger.supply[other]
        }),
{
    lemma_sum_value(ledger.supply[era], credit.amount);
    if ledger.rewards.contains_key(credit.recipient) {
        lemma_sum_value(ledger.rewards[credit.recipient], credit.amount);
    }
}

/// Where no supply is known for the era, the first credit becomes both the recipient's reward and the
/// era's supply; a recipient who has rewards already cannot be paid then.
pub proof fn lemma_first_credit(ledger: Ledger, era: u64, credit: Credit)
    requires
        !ledger.supply.contains_key(era),
    ensures
        ledger.rewards.contains_key(credit.recipient) ==> credited(ledger, era, credit) == Err::<
            Ledger,
            RewardError,
        >(RewardError::RewardWithoutSupply),
        !ledger.rewards.contains_key(credit.recipient) ==> {
            &&& credited(ledger, era, credit) is Ok
            &&& credited(ledger, era, credit)->Ok_0.rewards == ledger.rewards.insert(
                credit.recipient,
                credit.amount,
            )
            &&& credited(ledger, era, credit)->Ok_0.supply == ledger.supply.insert(
                era,
                credit.amount,
            )
        },
{
}

/// A credit can be paid out where the sums can be written over the products of the denominators.
pub proof fn lemma_credit_payable(ledger: Ledger, era: u64, credit: Credit)
    requires
        ledger.wf(),
        credit.amount.wf(),
        ledger.supply.contains_key(era),
        ({
            let (s, a) = (ledger.supply[era], credit.amount);
            s.denom * a.denom <= u64::MAX && s.numer * a.denom + a.numer * s.denom <= u64::MAX
        }),
        ledger.rewards.contains_key(credit.recipient) ==> {
            let (s, a) = (ledger.rewards[credit.recipient], credit.amount);
            s.denom * a.denom <= u64::MAX && s.numer * a.denom + a.numer * s.denom <= u64::MAX
        },
    ensures
        credited(ledger, era, credit) is Ok,
{
    lemma_sum_fits(ledger.supply[era], credit.amount);
    if ledger.rewards.contains_key(credit.recipient) {
        lemma_sum_fits(ledger.rewards[credit.recipient], credit.amount);
    }
}

/// After credits have been paid out, exactly their recipients have rewards, and each has what the
/// credits for it add up to.
pub proof fn lemma_rewards_received(
    ledger: Ledger,
    era: u64,
    credits: Seq<Credit>,
    n: nat,
    validator: u64,
)
    requires
        ledger.wf(),
        ledger.rewards == Map::<u64, Rational>::empty(),
        ledger.supply.contains_key(era),
        credits_wf(credits),
        n <= credits.len(),
    ensures
        paid_out(ledger, era, credits, n) matches Ok(after) ==> {
            &&& after.wf()
            &&& after.supply.contains_key(era)
            &&& after.rewards.contains_key(validator) <==> exists|i: int|
                0 <= i < n && (#[trigger] credits[i]).recipient == validator
            &&& received(credits, validator, n) == if after.rewards.contains_key(validator) {
                after.rewards[validator].value()
            } else {
                0 as real
            }
        },
    decreases n,
{
    if n > 0 {
        lemma_rewards_received(ledger, era, credits, (n - 1) as nat, validator);
        if let Ok(so_far) = paid_out(ledger, era, credits, (n - 1) as nat) {
            let last = credits[n - 1];
            if let Ok(after) = credited(so_far, era, last) {
                lemma_credit_added(so_far, era, last, validator, era);
                if exists|i: int| 0 <= i < n && (#[trigger] credits[i]).recipient == validator {
                    let i = choose|i: int|
                        0 <= i < n && (#[trigger] credits[i]).recipient == validator;
                    if i < n - 1 {
                        assert(credits[i].recipient == validator);
                    }
                }
            }
        }
    }
}

/// An era's credits depend on the supplies at the ends of the two eras before, and on no other supply.
proof fn lemma_credits_by_two_supplies(
    config: CoreConfig,
    headers: Seq<BlockHeader>,
    blocks: Seq<Block>,
    i: int,
    a: Map<u64, Rational>,
    b: Map<u64, Rational>,
)
    requires
        0 <= i <= u64::MAX,
        i >= 1 ==> a.contains_key((i - 1) as u64) == b.contains_key((i - 1) as u64) && a[(i
            - 1) as u64] == b[(i - 1) as u64],
        i >= 2 ==> a.contains_key((i - 2) as u64) == b.contains_key((i - 2) as u64) && a[(i
            - 2) as u64] == b[(i - 2) as u64],
    ensures
        era_credits(config, headers, blocks, i, a) == era_credits(config, headers, blocks, i, b),
{
    assert(earlier_supplies(headers, i, a) == earlier_supplies(headers, i, b));
}

/// What a recomputation finds. For every era that is not the genesis era and whose switch block the node
/// has, the rewards are what the era's credits, by the recomputed supplies, add up to for each of their
/// recipients. All other eras have no rewards. The supply at the end of era 0 is the one at genesis.
pub proof fn lemma_recomputed_rewards(
    config: CoreConfig,
    headers: Seq<BlockHeader>,
    blocks: Seq<Block>,
    highest_completed_height: u64,
    genesis_supply: Rational,
    n: nat,
    i: int,
    validator: u64,
)
    requires
        config.wf(),
        genesis_supply.wf(),
        n <= headers.len() <= u64::MAX,
        0 <= i < n,
        recomputed(
            config,
            headers,
            blocks,
            highest_completed_height,
            genesis_supply,
            n,
        ) is Ok,
    ensures
        ({
            let (rewards, supply) = recomputed(
                config,
                headers,
                blocks,
                highest_completed_height,
                genesis_supply,
                n,
            )->Ok_0;
            let paid = !headers[i].genesis && headers[i].height <= highest_completed_height;
            let credits = era_credits(config, headers, blocks, i, supply);
            &&& rewards.len() == n
            &&& supply.contains_key(0) && supply[0] == genesis_supply
            &&& paid ==> {
                &&& credits is Ok
                &&& rewards[i].contains_key(validator) <==> exists|c: int|
                    0 <= c < credits->Ok_0.len() && (#[trigger] credits->Ok_0[c]).recipient
                        == validator
                &&& rewards[i].contains_key(validator) ==> rewards[i][validator].value() == received(
                    credits->Ok_0,
                    validator,
                    credits->Ok_0.len(),
                )
            }
            &&& !paid ==> rewards[i] == Map::<u64, Rational>::empty()
            &&& i > 0 ==> supply.contains_key(i as u64) == paid
        }),
    decreases n,
{
    lemma_supply_so_far(config, headers, blocks, highest_completed_height, genesis_supply, n);
    let (done, before) = recomputed(
        config,
        headers,
        blocks,
        highest_completed_height,
        genesis_supply,
        (n - 1) as nat,
    )->Ok_0;
    lemma_supply_so_far(
        config,
        headers,
        blocks,
        highest_completed_height,
        genesis_supply,
        (n - 1) as nat,
    );
    let era = (n - 1) as u64;
    if pays(headers[n - 1], highest_completed_height) {
        let credits = era_credits(config, headers, blocks, n - 1, before)->Ok_0;
        lemma_era_credits_wf(config, headers, blocks, n - 1, before);
        assert(earlier_supplies(headers, n - 1, before) is Ok);
        let start = opened(before, n - 1);
        assert(start.wf());
        lemma_rewards_received(start, era, credits, credits.len(), validator);
        lemma_payout_conserved(start, era, credits, credits.len());
        let after = paid_out(start, era, credits, credits.len())->Ok_0;
        assert forall|k: u64| k != era implies after.supply.contains_key(k) == before.contains_key(
            k,
        ) && after.supply[k] == before[k] by {
            assert(after.supply.dom().contains(k) == start.supply.dom().contains(k));
        }
        assert(after.supply.dom().contains(era));
        if i == n - 1 {
            lemma_credits_by_two_supplies(config, headers, blocks, i, before, after.supply);
        } else {
            lemma_recomputed_rewards(
                config,
                headers,
                blocks,
                highest_completed_height,
                genesis_supply,
                (n - 1) as nat,
                i,
                validator,
            );
            lemma_credits_by_two_supplies(config, headers, blocks, i, before, after.supply);
        }
    } else if i < n - 1 {
        lemma_recomputed_rewards(
            config,
            headers,
            blocks,
            highest_completed_height,
            genesis_supply,
            (n - 1) as nat,
            i,
            validator,
        );
    }
}

/// The supply so far starts with genesis, and holds, besides era 0, exactly the eras looked at that pay.
proof fn lemma_supply_so_far(
    config: CoreConfig,
    headers: Seq<BlockHeader>,
    blocks: Seq<Block>,
    highest_completed_height: u64,
    genesis_supply: Rational,
    n: nat,
)
    requires
        config.wf(),
        genesis_supply.wf(),
        n <= headers.len() <= u64::MAX,
    ensures
        recomputed(config, headers, blocks, highest_completed_height, genesis_supply, n) matches Ok(
            (rewards, supply),
        ) ==> {
            &&& rewards.len() == n
            &&& map_wf(supply)
            &&& supply.contains_key(0) && supply[0] == genesis_supply
            &&& forall|k: u64|
                k > 0 ==> (#[trigger] supply.contains_key(k) <==> k < n && pays(
                    headers[k as int],
                    highest_completed_height,
                ))
        },
    decreases n,
{
    if n > 0 {
        lemma_supply_so_far(
            config,
            headers,
            blocks,
            highest_completed_height,
            genesis_supply,
            (n - 1) as nat,
        );
        if let Ok((done, before)) = recomputed(
            config,
            headers,
            blocks,
            highest_completed_height,
            genesis_supply,
            (n - 1) as nat,
        ) {
            let era = (n - 1) as u64;
            if pays(headers[n - 1], highest_completed_height) {
                if let Ok(credits) = era_credits(config, headers, blocks, n - 1, before) {
                    lemma_era_credits_wf(config, headers, blocks, n - 1, before);
                    assert(earlier_supplies(headers, n - 1, before) is Ok);
                    let start = opened(before, n - 1);
                    assert(start.wf());
                    lemma_payout_conserved(start, era, credits, credits.len());
                    if let Ok(after) = paid_out(start, era, credits, credits.len()) {
                        assert(era_settled(
                            config,
                            headers,
                            blocks,
                            highest_completed_height,
                            n - 1,
                            before,
                        ) == Ok::<Ledger, RewardError>(after));
                        assert forall|k: u64| k > 0 implies (#[trigger] after.supply.contains_key(k)
                            <==> k < n && pays(headers[k as int], highest_completed_height)) by {
                            assert(after.supply.dom().contains(k) == start.supply.dom().contains(
                                k,
                            ));
                        }
                        assert(after.supply.dom().contains(0u64) == start.supply.dom().contains(
                            0u64,
                        ));
                    }
                }
            }
        }
    }
}

} // verus!
