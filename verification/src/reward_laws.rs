//! What the credits of an era come to: who is paid for what, and how much.

use crate::chainspec::CoreConfig;
use crate::primitives::PublicKey;
use crate::rational::{
    difference, integer, lemma_difference_value, lemma_integer, lemma_product_value,
    lemma_product_fits, lemma_quotient_fits, lemma_quotient_value, lemma_rest_fits, product, quotient,
    Rational,
};
use crate::rewards::{
    amounts_sum, block_credits, block_part, earlier_supplies, era_basis, era_credits, era_plan,
    greater, lemma_amount_bounded, lemma_round_share_value, list_credits, map_wf, offset_credits,
    previous_plan, range_credits, round_share, signature_credits, signature_pair, signatures_part,
    signer_credits, total_amount, Block, Credit, EraBasis, EraPlan, RewardError,
    SigningTerms,
};
use crate::switch_blocks::BlockHeader;
use crate::u512::U512;
use vstd::prelude::*;

verus! {

/// How many of the first `n` flags are set.
pub open spec fn flags_set(flags: Seq<bool>, n: nat) -> nat
    decreases n,
{
    if n == 0 {
        0
    } else if flags[n - 1] {
        flags_set(flags, (n - 1) as nat) + 1
    } else {
        flags_set(flags, (n - 1) as nat)
    }
}

/// The weights of the validators who could sign the block that comes `offset + 1` before the one at the
/// given height, which is in the era that `headers[i]` ends: those that the switch block two eras back
/// sets, where the signed block is not above the switch block of the era before and that is not the
/// genesis block; those that the switch block of the era before sets otherwise.
pub open spec fn signer_weights(
    headers: Seq<BlockHeader>,
    i: int,
    height: u64,
    offset: int,
) -> Seq<(PublicKey, U512)> {
    if !headers[i - 1].genesis && height - (offset + 1) <= headers[i - 1].height {
        headers[i - 2].era_end->0.next_era_validator_weights.entries@
    } else {
        headers[i - 1].era_end->0.next_era_validator_weights.entries@
    }
}

/// How many flags of a list count: as many as there are both flags and validators.
pub open spec fn flags_counted(
    headers: Seq<BlockHeader>,
    i: int,
    block: Block,
    offset: int,
) -> nat {
    let flags = block.rewarded_signatures@[offset].signed@.len();
    let validators = signer_weights(headers, i, block.height, offset).len();
    if flags <= validators {
        flags
    } else {
        validators
    }
}

/// How many signatures the first `n` lists of a block record.
pub open spec fn signatures_recorded(
    headers: Seq<BlockHeader>,
    i: int,
    block: Block,
    n: nat,
) -> nat
    decreases n,
{
    if n == 0 {
        0
    } else {
        signatures_recorded(headers, i, block, (n - 1) as nat) + flags_set(
            block.rewarded_signatures@[n - 1].signed@,
            flags_counted(headers, i, block, n - 1),
        )
    }
}

/// How many credits come before those of the block at height `b`: one for each earlier block of the
/// era, and two for each signature that it records.
pub open spec fn place(headers: Seq<BlockHeader>, blocks: Seq<Block>, i: int, b: int) -> nat
    decreases b - headers[i - 1].height,
{
    if b <= headers[i - 1].height + 1 {
        0
    } else {
        place(headers, blocks, i, b - 1) + 1 + 2 * signatures_recorded(
            headers,
            i,
            blocks[b - 1],
            blocks[b - 1].rewarded_signatures@.len(),
        )
    }
}

/// What one round is to mint where the given supply is spread over the given number of blocks.
pub open spec fn share_value(config: CoreConfig, supply: real, length: int) -> real {
    supply * (config.minimum_era_height as real) * config.round_seigniorage_rate.value() / (
    if length > config.minimum_era_height {
        length as real
    } else {
        config.minimum_era_height as real
    })
}

/// At the given place the list has the finder's credit and then the signer's.
pub open spec fn pays_pair(
    credits: Seq<Credit>,
    p: int,
    finder: PublicKey,
    fee: real,
    signer: PublicKey,
    rest: real,
) -> bool {
    &&& 0 <= p < credits.len() - 1
    &&& credits[p].recipient == finder
    &&& credits[p].amount.value() == fee
    &&& credits[p + 1].recipient == signer
    &&& credits[p + 1].amount.value() == rest
}

/// The two credits for one signature, in numbers.
proof fn lemma_pair_value(
    config: CoreConfig,
    weights: Seq<(PublicKey, U512)>,
    terms: SigningTerms,
    k: int,
)
    requires
        config.wf(),
        terms.finder_worth.wf(),
        terms.signer_worth.wf(),
        total_amount(weights) == Some(terms.total_weight),
        0 <= k < weights.len(),
    ensures
        signature_pair(config, weights, terms, k) matches Some((fee, rest)) ==> {
            let part = weights[k].1@ as real / amounts_sum(weights, weights.len()) as real;
            &&& fee.recipient == terms.proposer
            &&& fee.amount.value() == config.finders_fee.value() * part
                * terms.finder_worth.value()
            &&& rest.recipient == weights[k].0
            &&& rest.amount.value() == (1 as real - config.finders_fee.value()) * part
                * terms.signer_worth.value()
        },
{
    lemma_amount_bounded(weights, k);
    let w = weights[k].1@ as u64;
    lemma_integer(w);
    lemma_integer(1);
    lemma_quotient_value(integer(w), terms.total_weight);
    if let Some(proportion) = quotient(integer(w), terms.total_weight) {
        let (p, t) = (proportion.value(), terms.total_weight as real);
        assert(p == w as real / t) by (nonlinear_arith)
            requires
                p * t == w as real,
                t > 0 as real,
        ;
        lemma_product_value(config.finders_fee, proportion);
        if let Some(part) = product(config.finders_fee, proportion) {
            lemma_product_value(part, terms.finder_worth);
        }
        lemma_difference_value(integer(1), config.finders_fee);
        if let Some(left) = difference(integer(1), config.finders_fee) {
            lemma_product_value(left, proportion);
            if let Some(part) = product(left, proportion) {
                lemma_product_value(part, terms.signer_worth);
            }
        }
    }
}

proof fn lemma_signer_places(
    config: CoreConfig,
    weights: Seq<(PublicKey, U512)>,
    terms: SigningTerms,
    signed: Seq<bool>,
    n: nat,
    k: int,
)
    requires
        config.wf(),
        terms.finder_worth.wf(),
        terms.signer_worth.wf(),
        total_amount(weights) == Some(terms.total_weight),
        n <= weights.len(),
    ensures
        signer_credits(config, weights, terms, signed, n) matches Some(credits) ==> {
            let part = weights[k].1@ as real / amounts_sum(weights, weights.len()) as real;
            &&& credits.len() == 2 * flags_set(signed, n)
            &&& 0 <= k < n && signed[k] ==> pays_pair(
                credits,
                2 * flags_set(signed, k as nat) as int,
                terms.proposer,
                config.finders_fee.value() * part * terms.finder_worth.value(),
                weights[k].0,
                (1 as real - config.finders_fee.value()) * part * terms.signer_worth.value(),
            )
        },
    decreases n,
{
    if n > 0 {
        lemma_signer_places(config, weights, terms, signed, (n - 1) as nat, k);
        lemma_pair_value(config, weights, terms, n - 1);
    }
}

/// The basis is that of the era that `headers[i]` ends.
spec fn fits(basis: EraBasis, config: CoreConfig, headers: Seq<BlockHeader>, i: int) -> bool {
    &&& config.wf()
    &&& basis.config == config
    &&& basis.plan.wf()
    &&& basis.plan.previous_height == headers[i - 1].height
    &&& basis.current == headers[i - 1].era_end->0.next_era_validator_weights.entries@
    &&& total_amount(basis.current) == Some(basis.plan.total_weight)
    &&& basis.plan.previous is Some <==> !headers[i - 1].genesis
    &&& basis.plan.previous matches Some(previous) ==> {
        &&& basis.previous == headers[i - 2].era_end->0.next_era_validator_weights.entries@
        &&& total_amount(basis.previous) == Some(previous.total_weight)
    }
}

/// What the finder's fees for a list of signatures are taken on.
spec fn fee_worth(basis: EraBasis, headers: Seq<BlockHeader>, i: int, height: u64, o: int) -> real {
    if !headers[i - 1].genesis && height - (o + 1) <= headers[i - 1].height {
        basis.plan.previous->0.signatures_reward.value()
    } else {
        basis.plan.signatures_reward.value()
    }
}

proof fn lemma_offset_places(
    basis: EraBasis,
    config: CoreConfig,
    headers: Seq<BlockHeader>,
    i: int,
    block: Block,
    o: int,
    k: int,
)
    requires
        fits(basis, config, headers, i),
        0 <= o < block.rewarded_signatures@.len(),
    ensures
        offset_credits(basis, block, o) matches Some(credits) ==> {
            let weights = signer_weights(headers, i, block.height, o);
            let signed = block.rewarded_signatures@[o].signed@;
            let part = weights[k].1@ as real / amounts_sum(weights, weights.len()) as real;
            let n = flags_counted(headers, i, block, o);
            &&& credits.len() == 2 * flags_set(signed, n)
            &&& 0 <= k < n && signed[k] ==> pays_pair(
                credits,
                2 * flags_set(signed, k as nat) as int,
                block.proposer,
                config.finders_fee.value() * part * fee_worth(basis, headers, i, block.height, o),
                weights[k].0,
                (1 as real - config.finders_fee.value()) * part
                    * basis.plan.signatures_reward.value(),
            )
        },
{
    let weights = signer_weights(headers, i, block.height, o);
    let signed = block.rewarded_signatures@[o].signed@;
    let n = flags_counted(headers, i, block, o);
    let plan = basis.plan;
    if !headers[i - 1].genesis && block.height - (o + 1) <= headers[i - 1].height {
        let terms = SigningTerms {
            proposer: block.proposer,
            total_weight: plan.previous->0.total_weight,
            finder_worth: plan.previous->0.signatures_reward,
            signer_worth: plan.signatures_reward,
        };
        lemma_signer_places(config, weights, terms, signed, n, k);
        assert(offset_credits(basis, block, o) == list_credits(config, weights, terms, signed));
    } else {
        let terms = SigningTerms {
            proposer: block.proposer,
            total_weight: plan.total_weight,
            finder_worth: plan.signatures_reward,
            signer_worth: plan.signatures_reward,
        };
        lemma_signer_places(config, weights, terms, signed, n, k);
        assert(offset_credits(basis, block, o) == list_credits(config, weights, terms, signed));
    }
}

proof fn lemma_signature_places(
    basis: EraBasis,
    config: CoreConfig,
    headers: Seq<BlockHeader>,
    i: int,
    block: Block,
    n: nat,
    o: int,
    k: int,
)
    requires
        fits(basis, config, headers, i),
        n <= block.rewarded_signatures@.len(),
    ensures
        signature_credits(basis, block, n) matches Ok(credits) ==> {
            let weights = signer_weights(headers, i, block.height, o);
            let signed = block.rewarded_signatures@[o].signed@;
            let part = weights[k].1@ as real / amounts_sum(weights, weights.len()) as real;
            &&& credits.len() == 2 * signatures_recorded(headers, i, block, n)
            &&& 0 <= o < n && 0 <= k < flags_counted(headers, i, block, o) && signed[k]
                ==> pays_pair(
                credits,
                2 * signatures_recorded(headers, i, block, o as nat) as int + 2 * flags_set(
                    signed,
                    k as nat,
                ),
                block.proposer,
                config.finders_fee.value() * part * fee_worth(basis, headers, i, block.height, o),
                weights[k].0,
                (1 as real - config.finders_fee.value()) * part
                    * basis.plan.signatures_reward.value(),
            )
        },
    decreases n,
{
    if n > 0 {
        lemma_signature_places(basis, config, headers, i, block, (n - 1) as nat, o, k);
        lemma_offset_places(basis, config, headers, i, block, n - 1, k);
        if let Ok(done) = signature_credits(basis, block, (n - 1) as nat) {
            if let Some(more) = offset_credits(basis, block, n - 1) {
                if n <= block.height {
                    assert(signature_credits(basis, block, n)->Ok_0 == done + more);
                }
            }
        }
    }
}

proof fn lemma_range_places(
    basis: EraBasis,
    config: CoreConfig,
    headers: Seq<BlockHeader>,
    blocks: Seq<Block>,
    i: int,
    end: int,
    b: int,
    o: int,
    k: int,
)
    requires
        fits(basis, config, headers, i),
    ensures
        range_credits(basis, blocks, headers[i - 1].height + 1, end) matches Ok(credits) ==> {
            let block = blocks[b];
            let weights = signer_weights(headers, i, block.height, o);
            let signed = block.rewarded_signatures@[o].signed@;
            let part = weights[k].1@ as real / amounts_sum(weights, weights.len()) as real;
            let p = place(headers, blocks, i, b) as int;
            &&& credits.len() == place(headers, blocks, i, end)
            &&& headers[i - 1].height < b < end ==> {
                &&& p < credits.len()
                &&& credits[p].recipient == block.proposer
                &&& credits[p].amount == basis.plan.block_reward
                &&& 0 <= o < block.rewarded_signatures@.len() && 0 <= k < flags_counted(
                    headers,
                    i,
                    block,
                    o,
                ) && signed[k] ==> pays_pair(
                    credits,
                    p + 1 + 2 * signatures_recorded(headers, i, block, o as nat) + 2 * flags_set(
                        signed,
                        k as nat,
                    ),
                    block.proposer,
                    config.finders_fee.value() * part * fee_worth(
                        basis,
                        headers,
                        i,
                        block.height,
                        o,
                    ),
                    weights[k].0,
                    (1 as real - config.finders_fee.value()) * part
                        * basis.plan.signatures_reward.value(),
                )
            }
        },
    decreases end - headers[i - 1].height,
{
    let start = headers[i - 1].height + 1;
    if end > start {
        lemma_range_places(basis, config, headers, blocks, i, end - 1, b, o, k);
        let last = blocks[end - 1];
        let n = last.rewarded_signatures@.len();
        lemma_signature_places(basis, config, headers, i, last, n, o, k);
        if let Ok(done) = range_credits(basis, blocks, start, end - 1) {
            if let Ok(more) = block_credits(basis, last) {
                let sigs = signature_credits(basis, last, n)->Ok_0;
                let first = seq![
                    Credit { recipient: last.proposer, amount: basis.plan.block_reward },
                ];
                assert(more == first + sigs);
                assert(range_credits(basis, blocks, start, end)->Ok_0 == done + more);
            }
        }
    }
}

proof fn lemma_share_value(config: CoreConfig, supply: Rational, length: u64)
    requires
        config.wf(),
        supply.wf(),
    ensures
        round_share(config, supply, length) matches Some(share) ==> share.wf() && share.value()
            == share_value(config, supply.value(), length as int),
{
    let mh = config.minimum_era_height;
    lemma_round_share_value(config, supply, length);
    lemma_integer(mh);
    lemma_product_value(supply, integer(mh));
    if let Some(base) = product(supply, integer(mh)) {
        lemma_product_value(base, config.round_seigniorage_rate);
        if let Some(pot) = product(base, config.round_seigniorage_rate) {
            lemma_quotient_value(pot, greater(mh, length));
            if let Some(share) = quotient(pot, greater(mh, length)) {
                let (s, g) = (share.value(), greater(mh, length) as real);
                let all = supply.value() * (mh as real) * config.round_seigniorage_rate.value();
                assert(s == all / g) by (nonlinear_arith)
                    requires
                        s * g == all,
                        g > 0 as real,
                ;
            }
        }
    }
}

proof fn lemma_parts_value(config: CoreConfig, share: Rational)
    requires
        config.wf(),
        share.wf(),
    ensures
        block_part(config, share) matches Some(b) ==> b.wf() && b.value() == (1 as real
            - config.finality_signature_proportion.value()) * share.value(),
        signatures_part(config, share) matches Some(s) ==> s.wf() && s.value()
            == config.finality_signature_proportion.value() * share.value(),
{
    lemma_integer(1);
    lemma_difference_value(integer(1), config.finality_signature_proportion);
    if let Some(rest) = difference(integer(1), config.finality_signature_proportion) {
        lemma_product_value(rest, share);
    }
    lemma_product_value(config.finality_signature_proportion, share);
}

/// What the plan of an era comes to.
proof fn lemma_plan_value(
    config: CoreConfig,
    headers: Seq<BlockHeader>,
    i: int,
    supply: Map<u64, Rational>,
    before: Rational,
    earlier: Option<Rational>,
    plan: EraPlan,
)
    requires
        config.wf(),
        map_wf(supply),
        earlier_supplies(headers, i, supply) == Ok::<_, RewardError>(
            (before, earlier),
        ),
        era_plan(config, headers, i, before, earlier) == Ok::<_, RewardError>(plan),
    ensures
        i >= 1,
        !headers[i - 1].genesis ==> i >= 2,
        fits(era_basis(config, headers, i, plan), config, headers, i),
        headers[i].height >= headers[i - 1].height,
        ({
            let share = share_value(
                config,
                supply[(i - 1) as u64].value(),
                headers[i].height - headers[i - 1].height,
            );
            let proportion = config.finality_signature_proportion.value();
            &&& plan.block_reward.value() == (1 as real - proportion) * share
            &&& plan.signatures_reward.value() == proportion * share
            &&& !headers[i - 1].genesis ==> plan.previous->0.signatures_reward.value() == proportion
                * share_value(
                config,
                supply[(i - 2) as u64].value(),
                headers[i].height - headers[i - 2].height,
            )
        }),
{
    assert(supply.contains_key((i - 1) as u64));
    let length = (headers[i].height - headers[i - 1].height) as u64;
    lemma_share_value(config, before, length);
    let share = round_share(config, before, length)->0;
    lemma_parts_value(config, share);
    if let Some(earlier) = earlier {
        assert(supply.contains_key((i - 2) as u64));
        let last = (headers[i].height - headers[i - 2].height) as u64;
        assert(previous_plan(config, headers, i, earlier) is Ok);
        lemma_share_value(config, earlier, last);
        lemma_parts_value(config, round_share(config, earlier, last)->0);
    }
}

/// The proposer of every block of an era is paid for it: the part of a round's share that does not go to
/// signatures, where the round's share is taken on the total supply at the end of the era before. The
/// list of credits holds one credit for each block and two for each recorded signature, and no others.
pub proof fn lemma_proposers_paid(
    config: CoreConfig,
    headers: Seq<BlockHeader>,
    blocks: Seq<Block>,
    i: int,
    supply: Map<u64, Rational>,
    b: int,
)
    requires
        config.wf(),
        map_wf(supply),
        era_credits(config, headers, blocks, i, supply) is Ok,
    ensures
        ({
            let credits = era_credits(config, headers, blocks, i, supply)->Ok_0;
            let p = place(headers, blocks, i, b) as int;
            &&& i >= 1
            &&& headers[i - 1].height <= headers[i].height < blocks.len()
            &&& credits.len() == place(headers, blocks, i, headers[i].height + 1)
            &&& headers[i - 1].height < b <= headers[i].height ==> {
                &&& p < credits.len()
                &&& credits[p].recipient == blocks[b].proposer
                &&& credits[p].amount.value() == (1 as real
                    - config.finality_signature_proportion.value()) * share_value(
                    config,
                    supply[(i - 1) as u64].value(),
                    headers[i].height - headers[i - 1].height,
                )
            }
        }),
{
    let (before, earlier) = earlier_supplies(headers, i, supply)->Ok_0;
    let plan = era_plan(config, headers, i, before, earlier)->Ok_0;
    lemma_plan_value(config, headers, i, supply, before, earlier, plan);
    let basis = era_basis(config, headers, i, plan);
    lemma_range_places(basis, config, headers, blocks, i, headers[i].height + 1, b, 0, 0);
}

/// Every signature that a block of an era records for a block of that era, or where the era before is
/// the genesis era, is paid by the weights that the switch block of the era before sets. The proposer
/// who records it gets the finder's fee, and the signer the rest, on the signer's proportion of what
/// the signatures of a block are worth.
pub proof fn lemma_signers_paid(
    config: CoreConfig,
    headers: Seq<BlockHeader>,
    blocks: Seq<Block>,
    i: int,
    supply: Map<u64, Rational>,
    b: int,
    o: int,
    k: int,
)
    requires
        config.wf(),
        map_wf(supply),
        era_credits(config, headers, blocks, i, supply) is Ok,
        headers[i - 1].height < b <= headers[i].height,
        0 <= o < blocks[b].rewarded_signatures@.len(),
        headers[i - 1].genesis || blocks[b].height - (o + 1) > headers[i - 1].height,
        0 <= k < blocks[b].rewarded_signatures@[o].signed@.len(),
        0 <= k < headers[i - 1].era_end->0.next_era_validator_weights.entries@.len(),
        blocks[b].rewarded_signatures@[o].signed@[k],
    ensures
        ({
            let credits = era_credits(config, headers, blocks, i, supply)->Ok_0;
            let weights = headers[i - 1].era_end->0.next_era_validator_weights.entries@;
            let p = place(headers, blocks, i, b) as int + 1 + 2 * signatures_recorded(
                headers,
                i,
                blocks[b],
                o as nat,
            ) + 2 * flags_set(blocks[b].rewarded_signatures@[o].signed@, k as nat);
            let part = weights[k].1@ as real / amounts_sum(weights, weights.len()) as real;
            let fee = config.finders_fee.value();
            let worth = config.finality_signature_proportion.value() * share_value(
                config,
                supply[(i - 1) as u64].value(),
                headers[i].height - headers[i - 1].height,
            );
            &&& 0 <= p < credits.len() - 1
            &&& credits[p].recipient == blocks[b].proposer
            &&& credits[p].amount.value() == fee * part * worth
            &&& credits[p + 1].recipient == weights[k].0
            &&& credits[p + 1].amount.value() == (1 as real - fee) * part * worth
        }),
{
    let (before, earlier) = earlier_supplies(headers, i, supply)->Ok_0;
    let plan = era_plan(config, headers, i, before, earlier)->Ok_0;
    lemma_plan_value(config, headers, i, supply, before, earlier, plan);
    let basis = era_basis(config, headers, i, plan);
    lemma_range_places(basis, config, headers, blocks, i, headers[i].height + 1, b, o, k);
}

/// Every signature that a block of an era records for a block of the era before, where that is not the
/// genesis era, is paid by the weights that the switch block two eras back sets: these are the weights
/// of the signed block's era. The finder's fee is taken on what the signatures of that era are worth,
/// and the signer's part on what those of this era are worth.
pub proof fn lemma_previous_signers_paid(
    config: CoreConfig,
    headers: Seq<BlockHeader>,
    blocks: Seq<Block>,
    i: int,
    supply: Map<u64, Rational>,
    b: int,
    o: int,
    k: int,
)
    requires
        config.wf(),
        map_wf(supply),
        era_credits(config, headers, blocks, i, supply) is Ok,
        headers[i - 1].height < b <= headers[i].height,
        0 <= o < blocks[b].rewarded_signatures@.len(),
        !headers[i - 1].genesis,
        blocks[b].height - (o + 1) <= headers[i - 1].height,
        0 <= k < blocks[b].rewarded_signatures@[o].signed@.len(),
        0 <= k < headers[i - 2].era_end->0.next_era_validator_weights.entries@.len(),
        blocks[b].rewarded_signatures@[o].signed@[k],
    ensures
        ({
            let credits = era_credits(config, headers, blocks, i, supply)->Ok_0;
            let weights = headers[i - 2].era_end->0.next_era_validator_weights.entries@;
            let p = place(headers, blocks, i, b) as int + 1 + 2 * signatures_recorded(
                headers,
                i,
                blocks[b],
                o as nat,
            ) + 2 * flags_set(blocks[b].rewarded_signatures@[o].signed@, k as nat);
            let part = weights[k].1@ as real / amounts_sum(weights, weights.len()) as real;
            let fee = config.finders_fee.value();
            let worth = config.finality_signature_proportion.value() * share_value(
                config,
                supply[(i - 1) as u64].value(),
                headers[i].height - headers[i - 1].height,
            );
            let previous_worth = config.finality_signature_proportion.value() * share_value(
                config,
                supply[(i - 2) as u64].value(),
                headers[i].height - headers[i - 2].height,
            );
            &&& i >= 2
            &&& 0 <= p < credits.len() - 1
            &&& credits[p].recipient == blocks[b].proposer
            &&& credits[p].amount.value() == fee * part * previous_worth
            &&& credits[p + 1].recipient == weights[k].0
            &&& credits[p + 1].amount.value() == (1 as real - fee) * part * worth
        }),
{
    let (before, earlier) = earlier_supplies(headers, i, supply)->Ok_0;
    let plan = era_plan(config, headers, i, before, earlier)->Ok_0;
    lemma_plan_value(config, headers, i, supply, before, earlier, plan);
    let basis = era_basis(config, headers, i, plan);
    lemma_range_places(basis, config, headers, blocks, i, headers[i].height + 1, b, o, k);
}

proof fn lemma_products_ordered(a: nat, b: nat, c: nat, d: nat)
    requires
        a <= c,
        b <= d,
    ensures
        a * b <= c * d,
        c > 0 ==> b <= c * d,
        d > 0 ==> a <= c * d,
{
    assert(a * b <= c * d && (c > 0 ==> b <= c * d) && (d > 0 ==> a <= c * d)) by (nonlinear_arith)
        requires
            a <= c,
            b <= d,
    ;
}

/// What one round mints, before it is reduced: the numerator.
pub open spec fn raw_numer(config: CoreConfig, supply: Rational) -> nat {
    (supply.numer as nat * config.minimum_era_height as nat)
        * config.round_seigniorage_rate.numer as nat
}

/// What one round mints, before it is reduced: the denominator.
pub open spec fn raw_denom(config: CoreConfig, supply: Rational, length: int) -> nat {
    (supply.denom as nat * config.round_seigniorage_rate.denom as nat) * (if length
        > config.minimum_era_height {
        length as nat
    } else {
        config.minimum_era_height as nat
    })
}

/// All amounts that are taken on the given supply stay in the range of 64-bit fractions, even where none
/// of them can be reduced.
pub open spec fn amounts_fit(
    config: CoreConfig,
    supply: Rational,
    length: int,
    total_weight: nat,
) -> bool {
    let outer = config.finders_fee.denom as nat * total_weight;
    let inner = config.finality_signature_proportion.denom as nat;
    &&& length > 0 || config.minimum_era_height > 0
    &&& supply.numer * config.minimum_era_height <= u64::MAX
    &&& outer * (inner * raw_numer(config, supply)) <= u64::MAX
    &&& outer * (inner * raw_denom(config, supply, length)) <= u64::MAX
}

/// Neither the finder's fee nor the part of the signatures is more than the whole.
pub open spec fn parts_of_one(config: CoreConfig) -> bool {
    &&& config.finders_fee.numer <= config.finders_fee.denom
    &&& config.finality_signature_proportion.numer <= config.finality_signature_proportion.denom
}

proof fn lemma_share_exists(config: CoreConfig, supply: Rational, length: u64)
    requires
        config.wf(),
        supply.wf(),
        length > 0 || config.minimum_era_height > 0,
        supply.numer * config.minimum_era_height <= u64::MAX,
        raw_numer(config, supply) <= u64::MAX,
        raw_denom(config, supply, length as int) <= u64::MAX,
    ensures
        round_share(config, supply, length) is Some,
        round_share(config, supply, length)->0.numer <= raw_numer(config, supply),
        round_share(config, supply, length)->0.denom <= raw_denom(config, supply, length as int),
        raw_denom(config, supply, length as int) > 0,
{
    let mh = config.minimum_era_height;
    let rate = config.round_seigniorage_rate;
    let rounds = greater(mh, length);
    assert(supply.denom as nat * 1 == supply.denom);
    lemma_product_fits(supply, integer(mh));
    let base = product(supply, integer(mh))->0;
    lemma_integer(mh);
    lemma_product_value(supply, integer(mh));
    lemma_products_ordered(
        base.numer as nat,
        rate.numer as nat,
        supply.numer as nat * mh as nat,
        rate.numer as nat,
    );
    lemma_products_ordered(
        base.denom as nat,
        rate.denom as nat,
        supply.denom as nat,
        rate.denom as nat,
    );
    let d = supply.denom as nat * rate.denom as nat;
    lemma_products_ordered(d, 1, d, rounds as nat);
    assert(d > 0) by (nonlinear_arith)
        requires
            d == supply.denom as nat * rate.denom as nat,
            supply.denom > 0,
            rate.denom > 0,
    ;
    assert(d * 1 == d && d * rounds as nat > 0) by (nonlinear_arith)
        requires
            d > 0,
            rounds > 0,
    ;
    lemma_product_fits(base, rate);
    lemma_product_value(base, rate);
    let pot = product(base, rate)->0;
    lemma_products_ordered(pot.denom as nat, rounds as nat, d, rounds as nat);
    lemma_quotient_fits(pot, rounds);
}

/// The parts of a share exist, with terms that are bounded by those of the share.
proof fn lemma_parts_exist(config: CoreConfig, share: Rational, n: nat, d: nat)
    requires
        config.wf(),
        parts_of_one(config),
        share.wf(),
        share.numer <= n,
        share.denom <= d,
        config.finality_signature_proportion.denom as nat * n <= u64::MAX,
        config.finality_signature_proportion.denom as nat * d <= u64::MAX,
    ensures
        block_part(config, share) is Some,
        signatures_part(config, share) is Some,
        signatures_part(config, share)->0.wf(),
        signatures_part(config, share)->0.numer <= config.finality_signature_proportion.denom as nat
            * n,
        signatures_part(config, share)->0.denom <= config.finality_signature_proportion.denom as nat
            * d,
{
    let f = config.finality_signature_proportion;
    lemma_integer(1);
    lemma_difference_value(integer(1), f);
    lemma_rest_fits(f);
    let rest = difference(integer(1), f)->0;
    lemma_products_ordered(rest.numer as nat, share.numer as nat, f.denom as nat, n);
    lemma_products_ordered(rest.denom as nat, share.denom as nat, f.denom as nat, d);
    lemma_product_fits(rest, share);
    lemma_products_ordered(f.numer as nat, share.numer as nat, f.denom as nat, n);
    lemma_products_ordered(f.denom as nat, share.denom as nat, f.denom as nat, d);
    lemma_product_fits(f, share);
    lemma_product_value(f, share);
}

/// What the signatures are worth, taken on a supply, and how large its terms can be.
spec fn worth_bounded(config: CoreConfig, worth: Rational, total_weight: nat) -> bool {
    let outer = config.finders_fee.denom as nat * total_weight;
    &&& worth.wf()
    &&& outer * worth.numer as nat <= u64::MAX
    &&& outer * worth.denom as nat <= u64::MAX
}

proof fn lemma_worth_exists(config: CoreConfig, supply: Rational, length: u64, total_weight: nat)
    requires
        config.wf(),
        parts_of_one(config),
        supply.wf(),
        total_weight > 0,
        amounts_fit(config, supply, length as int, total_weight),
    ensures
        round_share(config, supply, length) is Some,
        ({
            let share = round_share(config, supply, length)->0;
            &&& block_part(config, share) is Some
            &&& signatures_part(config, share) is Some
            &&& worth_bounded(config, signatures_part(config, share)->0, total_weight)
        }),
{
    let outer = config.finders_fee.denom as nat * total_weight;
    let inner = config.finality_signature_proportion.denom as nat;
    let n = raw_numer(config, supply);
    let d = raw_denom(config, supply, length as int);
    assert(outer > 0) by (nonlinear_arith)
        requires
            outer == config.finders_fee.denom as nat * total_weight,
            config.finders_fee.denom > 0,
            total_weight > 0,
    ;
    lemma_products_ordered(1, inner * n, outer, inner * n);
    lemma_products_ordered(1, inner * d, outer, inner * d);
    lemma_products_ordered(1, n, inner, n);
    lemma_products_ordered(1, d, inner, d);
    lemma_share_exists(config, supply, length);
    let share = round_share(config, supply, length)->0;
    lemma_share_value(config, supply, length);
    lemma_parts_exist(config, share, n, d);
    let worth = signatures_part(config, share)->0;
    lemma_products_ordered(outer, worth.numer as nat, outer, inner * n);
    lemma_products_ordered(outer, worth.denom as nat, outer, inner * d);
}

proof fn lemma_pair_exists(
    config: CoreConfig,
    weights: Seq<(PublicKey, U512)>,
    terms: SigningTerms,
    k: int,
)
    requires
        config.wf(),
        parts_of_one(config),
        total_amount(weights) == Some(terms.total_weight),
        terms.total_weight > 0,
        worth_bounded(config, terms.finder_worth, terms.total_weight as nat),
        worth_bounded(config, terms.signer_worth, terms.total_weight as nat),
        0 <= k < weights.len(),
    ensures
        signature_pair(config, weights, terms, k) is Some,
{
    lemma_amount_bounded(weights, k);
    let w = weights[k].1@ as u64;
    let t = terms.total_weight;
    let fee = config.finders_fee;
    let outer = fee.denom as nat * t as nat;
    lemma_integer(w);
    lemma_integer(1);
    assert(1 * t as nat == t);
    lemma_quotient_fits(integer(w), t);
    lemma_quotient_value(integer(w), t);
    let proportion = quotient(integer(w), t)->0;
    let (f, s) = (terms.finder_worth, terms.signer_worth);
    lemma_products_ordered(outer, 1, outer, f.denom as nat);
    assert(outer * 1 == outer);
    lemma_products_ordered(fee.numer as nat, proportion.numer as nat, fee.denom as nat, t as nat);
    lemma_products_ordered(fee.denom as nat, proportion.denom as nat, fee.denom as nat, t as nat);
    lemma_product_fits(fee, proportion);
    lemma_product_value(fee, proportion);
    let part = product(fee, proportion)->0;
    lemma_products_ordered(part.numer as nat, f.numer as nat, outer, f.numer as nat);
    lemma_products_ordered(part.denom as nat, f.denom as nat, outer, f.denom as nat);
    lemma_product_fits(part, f);
    lemma_rest_fits(fee);
    lemma_difference_value(integer(1), fee);
    let rest = difference(integer(1), fee)->0;
    lemma_products_ordered(rest.numer as nat, proportion.numer as nat, fee.denom as nat, t as nat);
    lemma_products_ordered(rest.denom as nat, proportion.denom as nat, fee.denom as nat, t as nat);
    lemma_product_fits(rest, proportion);
    lemma_product_value(rest, proportion);
    let other = product(rest, proportion)->0;
    lemma_products_ordered(other.numer as nat, s.numer as nat, outer, s.numer as nat);
    lemma_products_ordered(other.denom as nat, s.denom as nat, outer, s.denom as nat);
    lemma_product_fits(other, s);
}

proof fn lemma_signer_credits_exist(
    config: CoreConfig,
    weights: Seq<(PublicKey, U512)>,
    terms: SigningTerms,
    signed: Seq<bool>,
    n: nat,
)
    requires
        config.wf(),
        parts_of_one(config),
        total_amount(weights) == Some(terms.total_weight),
        terms.total_weight > 0,
        worth_bounded(config, terms.finder_worth, terms.total_weight as nat),
        worth_bounded(config, terms.signer_worth, terms.total_weight as nat),
        n <= weights.len(),
    ensures
        signer_credits(config, weights, terms, signed, n) is Some,
    decreases n,
{
    if n > 0 {
        lemma_signer_credits_exist(config, weights, terms, signed, (n - 1) as nat);
        lemma_pair_exists(config, weights, terms, n - 1);
    }
}

/// All amounts of an era can be computed.
spec fn computable(basis: EraBasis) -> bool {
    let plan = basis.plan;
    &&& parts_of_one(basis.config)
    &&& plan.total_weight > 0
    &&& worth_bounded(basis.config, plan.signatures_reward, plan.total_weight as nat)
    &&& plan.previous matches Some(previous) ==> {
        &&& previous.total_weight > 0
        &&& worth_bounded(basis.config, previous.signatures_reward, previous.total_weight as nat)
        &&& worth_bounded(basis.config, plan.signatures_reward, previous.total_weight as nat)
    }
}

proof fn lemma_signature_credits_exist(
    basis: EraBasis,
    config: CoreConfig,
    headers: Seq<BlockHeader>,
    i: int,
    block: Block,
    n: nat,
)
    requires
        fits(basis, config, headers, i),
        computable(basis),
        n <= block.rewarded_signatures@.len() <= block.height,
    ensures
        signature_credits(basis, block, n) is Ok,
    decreases n,
{
    if n > 0 {
        lemma_signature_credits_exist(basis, config, headers, i, block, (n - 1) as nat);
        let plan = basis.plan;
        let signed = block.rewarded_signatures@[n - 1].signed@;
        let current = SigningTerms {
            proposer: block.proposer,
            total_weight: plan.total_weight,
            finder_worth: plan.signatures_reward,
            signer_worth: plan.signatures_reward,
        };
        let m = if signed.len() <= basis.current.len() {
            signed.len()
        } else {
            basis.current.len()
        };
        lemma_signer_credits_exist(config, basis.current, current, signed, m);
        if let Some(previous) = plan.previous {
            let terms = SigningTerms {
                proposer: block.proposer,
                total_weight: previous.total_weight,
                finder_worth: previous.signatures_reward,
                signer_worth: plan.signatures_reward,
            };
            let m = if signed.len() <= basis.previous.len() {
                signed.len()
            } else {
                basis.previous.len()
            };
            lemma_signer_credits_exist(config, basis.previous, terms, signed, m);
        }
    }
}

proof fn lemma_range_credits_exist(
    basis: EraBasis,
    config: CoreConfig,
    headers: Seq<BlockHeader>,
    blocks: Seq<Block>,
    i: int,
    start: int,
    end: int,
)
    requires
        fits(basis, config, headers, i),
        computable(basis),
        forall|b: int|
            start <= b < end ==> (#[trigger] blocks[b]).rewarded_signatures@.len()
                <= blocks[b].height,
    ensures
        range_credits(basis, blocks, start, end) is Ok,
    decreases end - start,
{
    if end > start {
        lemma_range_credits_exist(basis, config, headers, blocks, i, start, end - 1);
        let last = blocks[end - 1];
        lemma_signature_credits_exist(
            basis,
            config,
            headers,
            i,
            last,
            last.rewarded_signatures@.len(),
        );
    }
}

/// The credits of an era can be listed wherever the switch blocks of the two eras before are there, say
/// how their eras ended and have weights, the heights are in order, the supplies and the blocks are
/// known, no block records a signature for a block before the first one, and the amounts stay in range.
pub proof fn lemma_credits_listed(
    config: CoreConfig,
    headers: Seq<BlockHeader>,
    blocks: Seq<Block>,
    i: int,
    supply: Map<u64, Rational>,
)
    requires
        config.wf(),
        map_wf(supply),
        parts_of_one(config),
        1 <= i < headers.len(),
        supply.contains_key((i - 1) as u64),
        headers[i - 1].era_end is Some,
        headers[i - 1].height <= headers[i].height < blocks.len(),
        ({
            let weights = headers[i - 1].era_end->0.next_era_validator_weights.entries@;
            &&& 0 < amounts_sum(weights, weights.len()) <= u64::MAX
            &&& amounts_fit(
                config,
                supply[(i - 1) as u64],
                headers[i].height - headers[i - 1].height,
                amounts_sum(weights, weights.len()),
            )
        }),
        !headers[i - 1].genesis ==> {
            let weights = headers[i - 2].era_end->0.next_era_validator_weights.entries@;
            let total = amounts_sum(weights, weights.len());
            &&& i >= 2
            &&& supply.contains_key((i - 2) as u64)
            &&& headers[i - 2].era_end is Some
            &&& headers[i - 2].height <= headers[i].height
            &&& 0 < total <= u64::MAX
            &&& amounts_fit(
                config,
                supply[(i - 1) as u64],
                headers[i].height - headers[i - 1].height,
                total,
            )
            &&& amounts_fit(
                config,
                supply[(i - 2) as u64],
                headers[i].height - headers[i - 2].height,
                total,
            )
        },
        forall|b: int|
            headers[i - 1].height < b <= headers[i].height ==> (
            #[trigger] blocks[b]).rewarded_signatures@.len() <= blocks[b].height,
    ensures
        era_credits(config, headers, blocks, i, supply) is Ok,
{
    let before = supply[(i - 1) as u64];
    let length = (headers[i].height - headers[i - 1].height) as u64;
    let weights = headers[i - 1].era_end->0.next_era_validator_weights.entries@;
    lemma_worth_exists(config, before, length, amounts_sum(weights, weights.len()));
    if !headers[i - 1].genesis {
        let weights = headers[i - 2].era_end->0.next_era_validator_weights.entries@;
        let total = amounts_sum(weights, weights.len());
        let last = (headers[i].height - headers[i - 2].height) as u64;
        lemma_worth_exists(config, before, length, total);
        lemma_worth_exists(config, supply[(i - 2) as u64], last, total);
        assert(previous_plan(config, headers, i, supply[(i - 2) as u64]) is Ok);
    }
    let (before, earlier) = earlier_supplies(headers, i, supply)->Ok_0;
    assert(earlier_supplies(headers, i, supply) is Ok);
    assert(era_plan(config, headers, i, before, earlier) is Ok);
    let plan = era_plan(config, headers, i, before, earlier)->Ok_0;
    lemma_plan_value(config, headers, i, supply, before, earlier, plan);
    lemma_range_credits_exist(
        era_basis(config, headers, i, plan),
        config,
        headers,
        blocks,
        i,
        headers[i - 1].height + 1,
        headers[i].height + 1,
    );
}

/// What an error names is so.
pub proof fn lemma_credits_errors(
    config: CoreConfig,
    headers: Seq<BlockHeader>,
    blocks: Seq<Block>,
    i: int,
    supply: Map<u64, Rational>,
)
    requires
        0 <= i < headers.len(),
    ensures
        era_credits(config, headers, blocks, i, supply) matches Err(error) ==> match error {
            RewardError::MissingHeader => i == 0 || (i == 1 && !headers[0].genesis),
            RewardError::MissingSupply => i >= 1 && (!supply.contains_key((i - 1) as u64) || (
            !headers[i - 1].genesis && i >= 2 && !supply.contains_key((i - 2) as u64))),
            RewardError::MissingEraEnd => i >= 1 && (headers[i - 1].era_end is None || (
            !headers[i - 1].genesis && i >= 2 && headers[i - 2].era_end is None)),
            RewardError::AmountOverflow => i >= 1 && ({
                let weights = headers[i - 1].era_end->0.next_era_validator_weights.entries@;
                let earlier = headers[i - 2].era_end->0.next_era_validator_weights.entries@;
                ||| amounts_sum(weights, weights.len()) > u64::MAX
                ||| !headers[i - 1].genesis && i >= 2 && amounts_sum(earlier, earlier.len())
                    > u64::MAX
            }),
            RewardError::HeightOrder => i >= 1 && (headers[i].height < headers[i - 1].height || (
            !headers[i - 1].genesis && i >= 2 && headers[i].height < headers[i - 2].height)),
            RewardError::MissingBlocks => headers[i].height >= blocks.len(),
            RewardError::SignatureBeforeGenesis => i >= 1 && exists|b: int|
                headers[i - 1].height < b <= headers[i].height && (
                #[trigger] blocks[b]).rewarded_signatures@.len() > blocks[b].height,
            RewardError::RewardWithoutSupply => false,
            RewardError::Arithmetic => true,
        },
{
    if let Ok((before, earlier)) = earlier_supplies(headers, i, supply) {
        if let Ok(plan) = era_plan(config, headers, i, before, earlier) {
            lemma_range_errors(
                era_basis(config, headers, i, plan),
                blocks,
                plan.previous_height + 1,
                headers[i].height + 1,
            );
        }
    }
}

proof fn lemma_signature_errors(basis: EraBasis, block: Block, n: nat)
    requires
        n <= block.rewarded_signatures@.len(),
    ensures
        signature_credits(basis, block, n) matches Err(error) ==> {
            ||| error == RewardError::Arithmetic
            ||| error == RewardError::SignatureBeforeGenesis && block.rewarded_signatures@.len()
                > block.height
        },
    decreases n,
{
    if n > 0 {
        lemma_signature_errors(basis, block, (n - 1) as nat);
    }
}

proof fn lemma_range_errors(basis: EraBasis, blocks: Seq<Block>, start: int, end: int)
    ensures
        range_credits(basis, blocks, start, end) matches Err(error) ==> {
            ||| error == RewardError::Arithmetic
            ||| error == RewardError::SignatureBeforeGenesis && exists|b: int|
                start <= b < end && (#[trigger] blocks[b]).rewarded_signatures@.len()
                    > blocks[b].height
        },
    decreases end - start,
{
    if end > start {
        lemma_range_errors(basis, blocks, start, end - 1);
        let last = blocks[end - 1];
        lemma_signature_errors(basis, last, last.rewarded_signatures@.len());
    }
}

} // verus!
