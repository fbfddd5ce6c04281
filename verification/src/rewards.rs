//! Recomputing what a network pays out to its validators at the end of each era.
//!
//! The rewards of an era are a list of credits: for every block of the era its proposer is paid for
//! the block, and for every finality signature that the block records, the proposer gets the
//! finder's fee and the signer gets the rest. Paying a credit out raises the recipient's rewards
//! and the total supply by the same amount.

use crate::chainspec::CoreConfig;
use crate::primitives::PublicKey;
use crate::rational::{
    difference, integer, lemma_difference_value, lemma_integer, lemma_product_value,
    lemma_quotient_value, product, quotient, Rational,
};
use crate::switch_blocks::{Amounts, BlockHeader};
use crate::u512::U512;
use std::collections::BTreeMap;
use vstd::prelude::*;

verus! {

/// Why rewards cannot be recomputed.
#[derive(Clone, Copy, Debug, PartialEq, Eq, Structural)]
pub enum RewardError {
    /// The switch block of an earlier era is not in the list.
    MissingHeader,
    /// A switch block does not say how its era ended.
    MissingEraEnd,
    /// An amount, or the sum of the weights of an era, exceeds a `u64`.
    AmountOverflow,
    /// A switch block is not higher than an earlier one.
    HeightOrder,
    /// Not all blocks of an era are in the list.
    MissingBlocks,
    /// A block records signatures for a block before the first one.
    SignatureBeforeGenesis,
    /// The total supply at the end of an earlier era is not known.
    MissingSupply,
    /// A validator has rewards in an era for which no supply is known.
    RewardWithoutSupply,
    /// A computation leaves the range of 64-bit fractions, or divides by zero.
    Arithmetic,
}

/// Which validators signed a block: one flag for each validator, in the order of the keys.
#[derive(Debug)]
pub struct SignaturesPacked {
    /// The flags.
    pub signed: Vec<bool>,
}

/// What a block says about who earned rewards.
#[derive(Debug)]
pub struct Block {
    /// The height of the block.
    pub height: u64,
    /// The proposer of the block.
    pub proposer: PublicKey,
    /// The signatures that the block records: first those for the block before it, then those for
    /// the one before that, and so on.
    pub rewarded_signatures: Vec<SignaturesPacked>,
}

/// An amount owed to a validator.
#[derive(Clone, Copy, Debug, PartialEq, Eq, Structural)]
pub struct Credit {
    /// The validator.
    pub recipient: PublicKey,
    /// The amount.
    pub amount: Rational,
}

/// What the signatures for blocks of the previous era are worth.
#[derive(Clone, Copy, Debug, PartialEq, Eq, Structural)]
pub struct PreviousEra {
    /// The total weight of the validators of the previous era.
    pub total_weight: u64,
    /// The part of a previous block's reward that goes to its signatures.
    pub signatures_reward: Rational,
}

/// What the blocks and the signatures of an era are worth.
#[derive(Clone, Copy, Debug, PartialEq, Eq, Structural)]
pub struct EraPlan {
    /// The height of the switch block of the previous era.
    pub previous_height: u64,
    /// What the proposer of a block gets for it.
    pub block_reward: Rational,
    /// The part of a block's reward that goes to its signatures.
    pub signatures_reward: Rational,
    /// The total weight of the validators of the era.
    pub total_weight: u64,
    /// The same for the previous era, where that is not the genesis era.
    pub previous: Option<PreviousEra>,
}

impl EraPlan {
    /// All fractions are in lowest terms.
    pub open spec fn wf(&self) -> bool {
        &&& self.block_reward.wf()
        &&& self.signatures_reward.wf()
        &&& self.previous matches Some(p) ==> p.signatures_reward.wf()
    }
}

/// The greater of two numbers.
pub open spec fn greater(a: u64, b: u64) -> u64 {
    if a >= b {
        a
    } else {
        b
    }
}

/// What one round of an era of the given length is expected to mint, out of the given supply: the
/// pot of an era of the least length, spread over the rounds that there were.
pub open spec fn round_share(config: CoreConfig, supply: Rational, era_length: u64) -> Option<
    Rational,
> {
    match product(supply, integer(config.minimum_era_height)) {
        None => None,
        Some(base) => match product(base, config.round_seigniorage_rate) {
            None => None,
            Some(pot) => quotient(pot, greater(config.minimum_era_height, era_length)),
        },
    }
}

/// The part of a round's share that goes to the block's proposer.
pub open spec fn block_part(config: CoreConfig, share: Rational) -> Option<Rational> {
    match difference(integer(1), config.finality_signature_proportion) {
        None => None,
        Some(rest) => product(rest, share),
    }
}

/// The part of a round's share that goes to the block's finality signatures.
pub open spec fn signatures_part(config: CoreConfig, share: Rational) -> Option<Rational> {
    product(config.finality_signature_proportion, share)
}

/// What the proposer gets who records a signature: the finder's fee on the signer's proportion of
/// what the signatures are worth.
pub open spec fn finder_amount(config: CoreConfig, proportion: Rational, worth: Rational) -> Option<
    Rational,
> {
    match product(config.finders_fee, proportion) {
        None => None,
        Some(part) => product(part, worth),
    }
}

/// What the signer gets: all but the finder's fee.
pub open spec fn signer_amount(config: CoreConfig, proportion: Rational, worth: Rational) -> Option<
    Rational,
> {
    match difference(integer(1), config.finders_fee) {
        None => None,
        Some(rest) => match product(rest, proportion) {
            None => None,
            Some(part) => product(part, worth),
        },
    }
}

/// The sum of the first `n` amounts.
pub open spec fn amounts_sum(entries: Seq<(PublicKey, U512)>, n: nat) -> nat
    decreases n,
{
    if n == 0 {
        0
    } else {
        amounts_sum(entries, (n - 1) as nat) + entries[n - 1].1@
    }
}

/// The sum of all amounts, where it fits in a `u64`.
pub open spec fn total_amount(entries: Seq<(PublicKey, U512)>) -> Option<u64> {
    let total = amounts_sum(entries, entries.len());
    if total <= u64::MAX {
        Some(total as u64)
    } else {
        None
    }
}

proof fn lemma_amounts_sum_grows(entries: Seq<(PublicKey, U512)>, n: nat, m: nat)
    requires
        n <= m <= entries.len(),
    ensures
        amounts_sum(entries, n) <= amounts_sum(entries, m),
        n < m ==> amounts_sum(entries, n) + entries[n as int].1@ <= amounts_sum(entries, m),
    decreases m,
{
    if n < m {
        lemma_amounts_sum_grows(entries, n, (m - 1) as nat);
    }
}

/// The sum of no amounts is zero, and one more amount adds just that amount. The total is the sum where
/// that fits in a `u64`, and nothing where it does not.
pub proof fn lemma_amounts_added(entries: Seq<(PublicKey, U512)>, last: (PublicKey, U512))
    ensures
        amounts_sum(Seq::empty(), 0) == 0,
        amounts_sum(entries.push(last), entries.len() + 1) == amounts_sum(entries, entries.len())
            + last.1@,
        total_amount(entries) is Some <==> amounts_sum(entries, entries.len()) <= u64::MAX,
        total_amount(entries) matches Some(total) ==> total == amounts_sum(entries, entries.len()),
{
    lemma_amounts_prefix(entries, entries.push(last), entries.len());
}

proof fn lemma_amounts_prefix(a: Seq<(PublicKey, U512)>, b: Seq<(PublicKey, U512)>, n: nat)
    requires
        n <= a.len(),
        n <= b.len(),
        forall|i: int| 0 <= i < n ==> a[i] == b[i],
    ensures
        amounts_sum(a, n) == amounts_sum(b, n),
    decreases n,
{
    if n > 0 {
        lemma_amounts_prefix(a, b, (n - 1) as nat);
    }
}

/// Where the amounts of a list add up to a `u64`, each of them is one.
pub proof fn lemma_amount_bounded(entries: Seq<(PublicKey, U512)>, k: int)
    requires
        total_amount(entries) is Some,
        0 <= k < entries.len(),
    ensures
        entries[k].1@ <= amounts_sum(entries, entries.len()) <= u64::MAX,
{
    lemma_amounts_sum_grows(entries, k as nat, entries.len());
}

/// Adds up a list of amounts.
pub fn total(entries: &Amounts) -> (r: Option<u64>)
    ensures
        r == total_amount(entries@),
{
    let mut acc: u64 = 0;
    let mut i: usize = 0;
    while i < entries.len()
        invariant
            i <= entries@.len(),
            acc == amounts_sum(entries@, i as nat),
        decreases entries@.len() - i,
    {
        proof {
            lemma_amounts_sum_grows(entries@, i as nat, entries@.len());
        }
        match entries[i].1.to_u64() {
            Some(amount) => match acc.checked_add(amount) {
                Some(next) => {
                    acc = next;
                },
                None => {
                    return None;
                },
            },
            None => {
                return None;
            },
        }
        i += 1;
    }
    Some(acc)
}

fn compute_round_share(config: &CoreConfig, supply: Rational, era_length: u64) -> (r: Option<
    Rational,
>)
    requires
        config.wf(),
        supply.wf(),
    ensures
        r == round_share(*config, supply, era_length),
        r matches Some(s) ==> s.wf(),
{
    let base: Rational = match supply.checked_mul(
        Rational::from_integer(config.minimum_era_height),
    ) {
        Some(base) => base,
        None => {
            return None;
        },
    };
    let pot: Rational = match base.checked_mul(config.round_seigniorage_rate) {
        Some(pot) => pot,
        None => {
            return None;
        },
    };
    let rounds: u64 = if config.minimum_era_height >= era_length {
        config.minimum_era_height
    } else {
        era_length
    };
    pot.checked_div(rounds)
}

fn compute_block_part(config: &CoreConfig, share: Rational) -> (r: Option<Rational>)
    requires
        config.wf(),
        share.wf(),
    ensures
        r == block_part(*config, share),
        r matches Some(s) ==> s.wf(),
{
    match Rational::from_integer(1).checked_sub(config.finality_signature_proportion) {
        Some(rest) => rest.checked_mul(share),
        None => None,
    }
}

fn compute_finder_amount(config: &CoreConfig, proportion: Rational, worth: Rational) -> (r: Option<
    Rational,
>)
    requires
        config.wf(),
        proportion.wf(),
        worth.wf(),
    ensures
        r == finder_amount(*config, proportion, worth),
        r matches Some(s) ==> s.wf(),
{
    match config.finders_fee.checked_mul(proportion) {
        Some(part) => part.checked_mul(worth),
        None => None,
    }
}

fn compute_signer_amount(config: &CoreConfig, proportion: Rational, worth: Rational) -> (r: Option<
    Rational,
>)
    requires
        config.wf(),
        proportion.wf(),
        worth.wf(),
    ensures
        r == signer_amount(*config, proportion, worth),
        r matches Some(s) ==> s.wf(),
{
    match Rational::from_integer(1).checked_sub(config.finders_fee) {
        Some(rest) => match rest.checked_mul(proportion) {
            Some(part) => part.checked_mul(worth),
            None => None,
        },
        None => None,
    }
}

/// The finder's fee and the signer's part make up the signer's proportion of what the signatures
/// are worth: nothing is lost between the two.
pub proof fn lemma_fee_split(config: CoreConfig, proportion: Rational, worth: Rational)
    requires
        config.wf(),
        proportion.wf(),
        worth.wf(),
    ensures
        finder_amount(config, proportion, worth) matches Some(f) ==> signer_amount(
            config,
            proportion,
            worth,
        ) matches Some(s) ==> f.value() + s.value() == proportion.value() * worth.value(),
{
    let fee = config.finders_fee;
    lemma_integer(1);
    lemma_product_value(fee, proportion);
    lemma_difference_value(integer(1), fee);
    if let Some(part) = product(fee, proportion) {
        lemma_product_value(part, worth);
    }
    if let Some(rest) = difference(integer(1), fee) {
        lemma_product_value(rest, proportion);
        if let Some(part) = product(rest, proportion) {
            lemma_product_value(part, worth);
        }
    }
    let (x, p, w) = (fee.value(), proportion.value(), worth.value());
    assert((x * p) * w + ((1 as real - x) * p) * w == p * w) by (nonlinear_arith);
}

/// The part of the proposer and the part of the signatures make up the round's share.
pub proof fn lemma_share_split(config: CoreConfig, share: Rational)
    requires
        config.wf(),
        share.wf(),
    ensures
        block_part(config, share) matches Some(b) ==> signatures_part(config, share) matches Some(s)
            ==> b.value() + s.value() == share.value(),
{
    let f = config.finality_signature_proportion;
    lemma_integer(1);
    lemma_difference_value(integer(1), f);
    if let Some(rest) = difference(integer(1), f) {
        lemma_product_value(rest, share);
    }
    lemma_product_value(f, share);
    let (x, s) = (f.value(), share.value());
    assert((1 as real - x) * s + x * s == s) by (nonlinear_arith);
}

/// The shares of all rounds of an era make up the era's pot: the supply, times the least number of
/// rounds, times the seigniorage rate.
pub proof fn lemma_round_share_value(config: CoreConfig, supply: Rational, era_length: u64)
    requires
        config.wf(),
        supply.wf(),
    ensures
        round_share(config, supply, era_length) matches Some(s) ==> s.value() * (greater(
            config.minimum_era_height,
            era_length,
        ) as real) == supply.value() * (config.minimum_era_height as real)
            * config.round_seigniorage_rate.value(),
{
    lemma_integer(config.minimum_era_height);
    lemma_product_value(supply, integer(config.minimum_era_height));
    if let Some(base) = product(supply, integer(config.minimum_era_height)) {
        lemma_product_value(base, config.round_seigniorage_rate);
        if let Some(pot) = product(base, config.round_seigniorage_rate) {
            lemma_quotient_value(pot, greater(config.minimum_era_height, era_length));
        }
    }
}

/// All amounts of a list of credits are in lowest terms.
pub open spec fn credits_wf(credits: Seq<Credit>) -> bool {
    forall|i: int| 0 <= i < credits.len() ==> (#[trigger] credits[i]).amount.wf()
}

/// What the signatures in one list are worth, and to whom.
#[derive(Clone, Copy, Debug, PartialEq, Eq, Structural)]
pub struct SigningTerms {
    /// The proposer of the block that records the signatures.
    pub proposer: PublicKey,
    /// The total weight of the validators who may have signed.
    pub total_weight: u64,
    /// What the finder's fees are taken on.
    pub finder_worth: Rational,
    /// What the signers' parts are taken on.
    pub signer_worth: Rational,
}

/// What one signature is worth to the proposer who records it and to its signer, who has the
/// `k`-th entry in the list of weights.
pub open spec fn signature_pair(
    config: CoreConfig,
    weights: Seq<(PublicKey, U512)>,
    terms: SigningTerms,
    k: int,
) -> Option<(Credit, Credit)> {
    match quotient(integer(weights[k].1@ as u64), terms.total_weight) {
        None => None,
        Some(proportion) => match (
            finder_amount(config, proportion, terms.finder_worth),
            signer_amount(config, proportion, terms.signer_worth),
        ) {
            (Some(fee), Some(rest)) => Some(
                (
                    Credit { recipient: terms.proposer, amount: fee },
                    Credit { recipient: weights[k].0, amount: rest },
                ),
            ),
            _ => None,
        },
    }
}

/// The credits for the signatures that the first `n` validators of a list may have given.
pub open spec fn signer_credits(
    config: CoreConfig,
    weights: Seq<(PublicKey, U512)>,
    terms: SigningTerms,
    signed: Seq<bool>,
    n: nat,
) -> Option<Seq<Credit>>
    decreases n,
{
    if n == 0 {
        Some(Seq::empty())
    } else {
        match signer_credits(config, weights, terms, signed, (n - 1) as nat) {
            None => None,
            Some(done) => if !signed[n - 1] {
                Some(done)
            } else {
                match signature_pair(config, weights, terms, n - 1) {
                    None => None,
                    Some((fee, rest)) => Some(done.push(fee).push(rest)),
                }
            },
        }
    }
}

/// The credits for one list of signatures: the flags are those of the validators in the order of
/// the keys, as far as both go.
pub open spec fn list_credits(
    config: CoreConfig,
    weights: Seq<(PublicKey, U512)>,
    terms: SigningTerms,
    signed: Seq<bool>,
) -> Option<Seq<Credit>> {
    let n = if signed.len() <= weights.len() {
        signed.len()
    } else {
        weights.len()
    };
    signer_credits(config, weights, terms, signed, n)
}

/// The weight of those of the first `n` validators of a list who signed.
pub open spec fn signed_weight(
    weights: Seq<(PublicKey, U512)>,
    signed: Seq<bool>,
    n: nat,
) -> nat
    decreases n,
{
    if n == 0 {
        0
    } else {
        signed_weight(weights, signed, (n - 1) as nat) + if signed[n - 1] {
            weights[n - 1].1@
        } else {
            0
        }
    }
}

/// What the amounts of a list of credits stand for, added up.
pub open spec fn credits_value(credits: Seq<Credit>) -> real
    decreases credits.len(),
{
    if credits.len() == 0 {
        0 as real
    } else {
        credits_value(credits.drop_last()) + credits.last().amount.value()
    }
}

/// One list of signatures costs what the signatures are worth, in proportion to the weight of those
/// who signed.
pub proof fn lemma_signatures_cost(
    config: CoreConfig,
    weights: Seq<(PublicKey, U512)>,
    terms: SigningTerms,
    signed: Seq<bool>,
    n: nat,
)
    requires
        config.wf(),
        terms.finder_worth.wf(),
        terms.signer_worth == terms.finder_worth,
        total_amount(weights) == Some(terms.total_weight),
        n <= weights.len(),
    ensures
        signer_credits(config, weights, terms, signed, n) matches Some(credits) ==> credits_value(
            credits,
        ) * (terms.total_weight as real) == terms.finder_worth.value() * (signed_weight(
            weights,
            signed,
            n,
        ) as real),
    decreases n,
{
    let worth = terms.finder_worth;
    if n == 0 {
        assert((0 as real) * (terms.total_weight as real) == worth.value() * (0 as real))
            by (nonlinear_arith);
    } else {
        lemma_signatures_cost(config, weights, terms, signed, (n - 1) as nat);
        if let Some(done) = signer_credits(config, weights, terms, signed, (n - 1) as nat) {
            let weight = weights[n - 1].1@;
            lemma_amounts_sum_grows(weights, (n - 1) as nat, weights.len());
            assert(weight <= u64::MAX);
            lemma_integer(weight as u64);
            lemma_quotient_value(integer(weight as u64), terms.total_weight);
            if let Some(proportion) = quotient(integer(weight as u64), terms.total_weight) {
                lemma_fee_split(config, proportion, worth);
                if let Some((fee, rest)) = signature_pair(config, weights, terms, n - 1) {
                    let longer = done.push(fee).push(rest);
                    assert(longer.drop_last() =~= done.push(fee));
                    assert(done.push(fee).drop_last() =~= done);
                    let before = signed_weight(weights, signed, (n - 1) as nat) as real;
                    let (v, p, t) = (worth.value(), proportion.value(), terms.total_weight as real);
                    let w = weight as real;
                    let c = credits_value(done);
                    assert(credits_value(done.push(fee)) == c + fee.amount.value());
                    assert(credits_value(longer) == c + fee.amount.value() + rest.amount.value());
                    assert((c + p * v) * t == v * (before + w)) by (nonlinear_arith)
                        requires
                            c * t == v * before,
                            p * t == w,
                    ;
                }
            }
        }
    }
}

proof fn lemma_signed_weight_bounded(
    weights: Seq<(PublicKey, U512)>,
    signed: Seq<bool>,
    n: nat,
)
    requires
        n <= weights.len(),
    ensures
        signed_weight(weights, signed, n) <= amounts_sum(weights, n),
        (forall|i: int| 0 <= i < n ==> signed[i]) ==> signed_weight(weights, signed, n)
            == amounts_sum(weights, n),
    decreases n,
{
    if n > 0 {
        lemma_signed_weight_bounded(weights, signed, (n - 1) as nat);
    }
}

/// One list of signatures never costs more than the signatures are worth, and just that where all
/// validators signed.
pub proof fn lemma_signatures_cost_bounded(
    config: CoreConfig,
    weights: Seq<(PublicKey, U512)>,
    terms: SigningTerms,
    signed: Seq<bool>,
)
    requires
        config.wf(),
        terms.finder_worth.wf(),
        terms.signer_worth == terms.finder_worth,
        total_amount(weights) == Some(terms.total_weight),
        terms.total_weight > 0,
    ensures
        list_credits(config, weights, terms, signed) matches Some(credits) ==> {
            &&& credits_value(credits) <= terms.finder_worth.value()
            &&& signed.len() >= weights.len() && (forall|i: int|
                0 <= i < weights.len() ==> signed[i]) ==> credits_value(credits)
                == terms.finder_worth.value()
        },
{
    let n = if signed.len() <= weights.len() {
        signed.len()
    } else {
        weights.len()
    };
    lemma_signatures_cost(config, weights, terms, signed, n);
    lemma_signed_weight_bounded(weights, signed, n);
    lemma_amounts_sum_grows(weights, n, weights.len());
    if let Some(credits) = list_credits(config, weights, terms, signed) {
        let (c, v, t) = (
            credits_value(credits),
            terms.finder_worth.value(),
            terms.total_weight as real,
        );
        let s = signed_weight(weights, signed, n) as real;
        let numer = terms.finder_worth.numer as real;
        let denom = terms.finder_worth.denom as real;
        assert(v >= 0 as real) by (nonlinear_arith)
            requires
                v == numer / denom,
                numer >= 0 as real,
                denom > 0 as real,
        ;
        assert(c <= v) by (nonlinear_arith)
            requires
                c * t == v * s,
                s <= t,
                t > 0 as real,
                v >= 0 as real,
        ;
        if s == t {
            assert(c == v) by (nonlinear_arith)
                requires
                    c * t == v * s,
                    s == t,
                    t > 0 as real,
            ;
        }
    }
}

/// All that the credits of an era's blocks depend on, besides the blocks.
pub struct EraBasis {
    /// The core settings of the chain.
    pub config: CoreConfig,
    /// What blocks and signatures are worth.
    pub plan: EraPlan,
    /// The weights of the era's validators.
    pub current: Seq<(PublicKey, U512)>,
    /// The weights of the validators of the previous era.
    pub previous: Seq<(PublicKey, U512)>,
}

/// Whether the signatures at the given place in a block's lists of signatures are for a block of
/// the previous era, and that era is not the genesis era.
pub open spec fn for_previous_era(plan: EraPlan, height: u64, offset: int) -> bool {
    &&& plan.previous is Some
    &&& height - offset - 1 <= plan.previous_height
}

/// The credits for the signatures at the given place in a block's lists of signatures.
///
/// For a block of the previous era the weights of that era count, and the finder's fee is taken on
/// what that era's signatures are worth.
pub open spec fn offset_credits(basis: EraBasis, block: Block, offset: int) -> Option<Seq<Credit>> {
    let plan = basis.plan;
    let signed = block.rewarded_signatures@[offset].signed@;
    if for_previous_era(plan, block.height, offset) {
        list_credits(
            basis.config,
            basis.previous,
            SigningTerms {
                proposer: block.proposer,
                total_weight: plan.previous->0.total_weight,
                finder_worth: plan.previous->0.signatures_reward,
                signer_worth: plan.signatures_reward,
            },
            signed,
        )
    } else {
        list_credits(
            basis.config,
            basis.current,
            SigningTerms {
                proposer: block.proposer,
                total_weight: plan.total_weight,
                finder_worth: plan.signatures_reward,
                signer_worth: plan.signatures_reward,
            },
            signed,
        )
    }
}

/// The credits for the first `n` lists of signatures that a block records.
pub open spec fn signature_credits(basis: EraBasis, block: Block, n: nat) -> Result<
    Seq<Credit>,
    RewardError,
>
    decreases n,
{
    if n == 0 {
        Ok(Seq::empty())
    } else {
        match signature_credits(basis, block, (n - 1) as nat) {
            Err(e) => Err(e),
            Ok(done) => if n > block.height {
                Err(RewardError::SignatureBeforeGenesis)
            } else {
                match offset_credits(basis, block, n - 1) {
                    None => Err(RewardError::Arithmetic),
                    Some(more) => Ok(done + more),
                }
            },
        }
    }
}

/// The credits for a block: first its proposer's for the block, then those for the signatures.
pub open spec fn block_credits(basis: EraBasis, block: Block) -> Result<Seq<Credit>, RewardError> {
    match signature_credits(basis, block, block.rewarded_signatures@.len()) {
        Err(e) => Err(e),
        Ok(more) => Ok(
            seq![Credit { recipient: block.proposer, amount: basis.plan.block_reward }] + more,
        ),
    }
}

/// The credits for the blocks of a list from `start` up to but not including `end`.
pub open spec fn range_credits(basis: EraBasis, blocks: Seq<Block>, start: int, end: int) -> Result<
    Seq<Credit>,
    RewardError,
>
    decreases end - start,
{
    if end <= start {
        Ok(Seq::empty())
    } else {
        match range_credits(basis, blocks, start, end - 1) {
            Err(e) => Err(e),
            Ok(done) => match block_credits(basis, blocks[end - 1]) {
                Err(e) => Err(e),
                Ok(more) => Ok(done + more),
            },
        }
    }
}

proof fn lemma_signer_credits_stay_none(
    config: CoreConfig,
    weights: Seq<(PublicKey, U512)>,
    terms: SigningTerms,
    signed: Seq<bool>,
    n: nat,
    m: nat,
)
    requires
        n <= m,
        signer_credits(config, weights, terms, signed, n) is None,
    ensures
        signer_credits(config, weights, terms, signed, m) is None,
    decreases m,
{
    if n < m {
        lemma_signer_credits_stay_none(config, weights, terms, signed, n, (m - 1) as nat);
    }
}

proof fn lemma_signature_credits_stay_err(basis: EraBasis, block: Block, n: nat, m: nat)
    requires
        n <= m,
        signature_credits(basis, block, n) is Err,
    ensures
        signature_credits(basis, block, m) == signature_credits(basis, block, n),
    decreases m,
{
    if n < m {
        lemma_signature_credits_stay_err(basis, block, n, (m - 1) as nat);
    }
}

proof fn lemma_range_credits_stay_err(
    basis: EraBasis,
    blocks: Seq<Block>,
    start: int,
    n: int,
    m: int,
)
    requires
        n <= m,
        range_credits(basis, blocks, start, n) is Err,
    ensures
        range_credits(basis, blocks, start, m) == range_credits(basis, blocks, start, n),
    decreases m - start,
{
    if n < m && start < m {
        lemma_range_credits_stay_err(basis, blocks, start, n, m - 1);
    }
}

/// Adds the credits for one list of signatures to `out`; `false` where they leave the range of
/// 64-bit fractions.
fn push_list_credits(
    config: &CoreConfig,
    weights: &Amounts,
    terms: SigningTerms,
    signed: &Vec<bool>,
    out: &mut Vec<Credit>,
) -> (r: bool)
    requires
        config.wf(),
        terms.finder_worth.wf(),
        terms.signer_worth.wf(),
        total_amount(weights@) == Some(terms.total_weight),
        credits_wf(old(out)@),
    ensures
        r == list_credits(*config, weights@, terms, signed@) is Some,
        r ==> final(out)@ == old(out)@ + list_credits(*config, weights@, terms, signed@)->0,
        r ==> credits_wf(final(out)@),
{
    let n: usize = if signed.len() <= weights.len() {
        signed.len()
    } else {
        weights.len()
    };
    let ghost base = out@;
    let mut k: usize = 0;
    assert(out@ =~= base + Seq::<Credit>::empty());
    while k < n
        invariant
            k <= n,
            n <= signed@.len(),
            n <= weights@.len(),
            config.wf(),
            terms.finder_worth.wf(),
            terms.signer_worth.wf(),
            total_amount(weights@) == Some(terms.total_weight),
            list_credits(*config, weights@, terms, signed@) == signer_credits(
                *config,
                weights@,
                terms,
                signed@,
                n as nat,
            ),
            signer_credits(*config, weights@, terms, signed@, k as nat) is Some,
            out@ == base + signer_credits(*config, weights@, terms, signed@, k as nat)->0,
            credits_wf(out@),
        decreases n - k,
    {
        if signed[k] {
            proof {
                lemma_amounts_sum_grows(weights@, k as nat, weights@.len());
            }
            let weight: u64 = weights[k].1.to_u64().unwrap();
            let mut pair: Option<(Rational, Rational)> = None;
            if let Some(proportion) = Rational::from_integer(weight).checked_div(
                terms.total_weight,
            ) {
                let fee = compute_finder_amount(config, proportion, terms.finder_worth);
                let rest = compute_signer_amount(config, proportion, terms.signer_worth);
                if let (Some(fee), Some(rest)) = (fee, rest) {
                    pair = Some((fee, rest));
                }
            }
            match pair {
                Some((fee, rest)) => {
                    out.push(Credit { recipient: terms.proposer, amount: fee });
                    out.push(Credit { recipient: weights[k].0, amount: rest });
                },
                None => {
                    proof {
                        lemma_signer_credits_stay_none(
                            *config,
                            weights@,
                            terms,
                            signed@,
                            (k + 1) as nat,
                            n as nat,
                        );
                    }
                    return false;
                },
            }
        }
        k += 1;
        assert(out@ =~= base + signer_credits(*config, weights@, terms, signed@, k as nat)->0);
    }
    true
}

/// Adds the credits for a block to `out`.
fn push_block_credits(
    config: &CoreConfig,
    plan: &EraPlan,
    current: &Amounts,
    previous: &Amounts,
    block: &Block,
    out: &mut Vec<Credit>,
) -> (r: Result<(), RewardError>)
    requires
        config.wf(),
        plan.wf(),
        total_amount(current@) == Some(plan.total_weight),
        plan.previous matches Some(p) ==> total_amount(previous@) == Some(p.total_weight),
        credits_wf(old(out)@),
    ensures
        ({
            let basis = EraBasis {
                config: *config,
                plan: *plan,
                current: current@,
                previous: previous@,
            };
            match r {
                Ok(_) => {
                    &&& block_credits(basis, *block) is Ok
                    &&& final(out)@ == old(out)@ + block_credits(basis, *block)->Ok_0
                    &&& credits_wf(final(out)@)
                },
                Err(e) => block_credits(basis, *block) == Err::<Seq<Credit>, RewardError>(e),
            }
        }),
{
    let ghost basis = EraBasis {
        config: *config,
        plan: *plan,
        current: current@,
        previous: previous@,
    };
    let ghost head = seq![Credit { recipient: block.proposer, amount: plan.block_reward }];
    let ghost base = out@ + head;
    out.push(Credit { recipient: block.proposer, amount: plan.block_reward });
    let n: usize = block.rewarded_signatures.len();
    let mut offset: usize = 0;
    assert(out@ =~= base + Seq::<Credit>::empty());
    while offset < n
        invariant
            offset <= n,
            n == block.rewarded_signatures@.len(),
            config.wf(),
            plan.wf(),
            total_amount(current@) == Some(plan.total_weight),
            plan.previous matches Some(p) ==> total_amount(previous@) == Some(p.total_weight),
            basis == (EraBasis {
                config: *config,
                plan: *plan,
                current: current@,
                previous: previous@,
            }),
            signature_credits(basis, *block, offset as nat) is Ok,
            out@ == base + signature_credits(basis, *block, offset as nat)->Ok_0,
            credits_wf(out@),
        decreases n - offset,
    {
        if offset as u64 >= block.height {
            proof {
                lemma_signature_credits_stay_err(basis, *block, (offset + 1) as nat, n as nat);
            }
            return Err(RewardError::SignatureBeforeGenesis);
        }
        let signed: &Vec<bool> = &block.rewarded_signatures[offset].signed;
        let signed_height: u64 = block.height - offset as u64 - 1;
        let done: bool = match plan.previous {
            Some(before) if signed_height <= plan.previous_height => {
                push_list_credits(
                    config,
                    previous,
                    SigningTerms {
                        proposer: block.proposer,
                        total_weight: before.total_weight,
                        finder_worth: before.signatures_reward,
                        signer_worth: plan.signatures_reward,
                    },
                    signed,
                    out,
                )
            },
            _ => {
                push_list_credits(
                    config,
                    current,
                    SigningTerms {
                        proposer: block.proposer,
                        total_weight: plan.total_weight,
                        finder_worth: plan.signatures_reward,
                        signer_worth: plan.signatures_reward,
                    },
                    signed,
                    out,
                )
            },
        };
        if !done {
            proof {
                lemma_signature_credits_stay_err(basis, *block, (offset + 1) as nat, n as nat);
            }
            return Err(RewardError::Arithmetic);
        }
        offset += 1;
        assert(out@ =~= base + signature_credits(basis, *block, offset as nat)->Ok_0);
    }
    assert(out@ =~= old(out)@ + block_credits(basis, *block)->Ok_0);
    Ok(())
}

/// What the signatures for blocks of the era before are worth in the era that `headers[i]` ends.
pub open spec fn previous_plan(
    config: CoreConfig,
    headers: Seq<BlockHeader>,
    i: int,
    supply: Rational,
) -> Result<PreviousEra, RewardError> {
    let old = headers[i - 2];
    match old.era_end {
        None => Err(RewardError::MissingEraEnd),
        Some(end) => match total_amount(end.next_era_validator_weights.entries@) {
            None => Err(RewardError::AmountOverflow),
            Some(total_weight) => if headers[i].height < old.height {
                Err(RewardError::HeightOrder)
            } else {
                match round_share(config, supply, (headers[i].height - old.height) as u64) {
                    None => Err(RewardError::Arithmetic),
                    Some(share) => match signatures_part(config, share) {
                        None => Err(RewardError::Arithmetic),
                        Some(signatures_reward) => Ok(
                            PreviousEra { total_weight, signatures_reward },
                        ),
                    },
                }
            },
        },
    }
}

/// What the blocks and the signatures are worth in the era that `headers[i]` ends.
///
/// `supply` is the total supply at the end of the era before, and `earlier` the one at the end of
/// the era before that, where the era before is not the genesis era.
pub open spec fn era_plan(
    config: CoreConfig,
    headers: Seq<BlockHeader>,
    i: int,
    supply: Rational,
    earlier: Option<Rational>,
) -> Result<EraPlan, RewardError> {
    let old = headers[i - 1];
    match old.era_end {
        None => Err(RewardError::MissingEraEnd),
        Some(end) => match total_amount(end.next_era_validator_weights.entries@) {
            None => Err(RewardError::AmountOverflow),
            Some(total_weight) => if headers[i].height < old.height {
                Err(RewardError::HeightOrder)
            } else {
                match round_share(config, supply, (headers[i].height - old.height) as u64) {
                    None => Err(RewardError::Arithmetic),
                    Some(share) => match (
                        block_part(config, share),
                        signatures_part(config, share),
                    ) {
                        (Some(block_reward), Some(signatures_reward)) => match earlier {
                            None => Ok(
                                EraPlan {
                                    previous_height: old.height,
                                    block_reward,
                                    signatures_reward,
                                    total_weight,
                                    previous: None,
                                },
                            ),
                            Some(earlier) => match previous_plan(config, headers, i, earlier) {
                                Err(e) => Err(e),
                                Ok(previous) => Ok(
                                    EraPlan {
                                        previous_height: old.height,
                                        block_reward,
                                        signatures_reward,
                                        total_weight,
                                        previous: Some(previous),
                                    },
                                ),
                            },
                        },
                        _ => Err(RewardError::Arithmetic),
                    },
                }
            },
        },
    }
}

fn make_previous_plan(
    config: &CoreConfig,
    headers: &Vec<BlockHeader>,
    i: usize,
    supply: Rational,
) -> (r: Result<PreviousEra, RewardError>)
    requires
        config.wf(),
        supply.wf(),
        2 <= i < headers@.len(),
    ensures
        r == previous_plan(*config, headers@, i as int, supply),
        r matches Ok(p) ==> p.signatures_reward.wf(),
{
    let old: &BlockHeader = &headers[i - 2];
    match &old.era_end {
        None => Err(RewardError::MissingEraEnd),
        Some(end) => match total(&end.next_era_validator_weights.entries) {
            None => Err(RewardError::AmountOverflow),
            Some(total_weight) => {
                if headers[i].height < old.height {
                    return Err(RewardError::HeightOrder);
                }
                match compute_round_share(config, supply, headers[i].height - old.height) {
                    None => Err(RewardError::Arithmetic),
                    Some(share) => match config.finality_signature_proportion.checked_mul(share) {
                        None => Err(RewardError::Arithmetic),
                        Some(signatures_reward) => Ok(
                            PreviousEra { total_weight, signatures_reward },
                        ),
                    },
                }
            },
        },
    }
}

fn make_era_plan(
    config: &CoreConfig,
    headers: &Vec<BlockHeader>,
    i: usize,
    supply: Rational,
    earlier: Option<Rational>,
) -> (r: Result<EraPlan, RewardError>)
    requires
        config.wf(),
        supply.wf(),
        earlier matches Some(e) ==> e.wf() && 2 <= i,
        1 <= i < headers@.len(),
    ensures
        r == era_plan(*config, headers@, i as int, supply, earlier),
        r matches Ok(p) ==> p.wf(),
{
    let old: &BlockHeader = &headers[i - 1];
    match &old.era_end {
        None => Err(RewardError::MissingEraEnd),
        Some(end) => match total(&end.next_era_validator_weights.entries) {
            None => Err(RewardError::AmountOverflow),
            Some(total_weight) => {
                if headers[i].height < old.height {
                    return Err(RewardError::HeightOrder);
                }
                match compute_round_share(config, supply, headers[i].height - old.height) {
                    None => Err(RewardError::Arithmetic),
                    Some(share) => {
                        let block_reward = compute_block_part(config, share);
                        let signatures_reward =
                            config.finality_signature_proportion.checked_mul(share);
                        match (block_reward, signatures_reward) {
                            (Some(block_reward), Some(signatures_reward)) => {
                                let previous: Option<PreviousEra> = match earlier {
                                    None => None,
                                    Some(earlier) => match make_previous_plan(
                                        config,
                                        headers,
                                        i,
                                        earlier,
                                    ) {
                                        Ok(previous) => Some(previous),
                                        Err(e) => {
                                            return Err(e);
                                        },
                                    },
                                };
                                Ok(
                                    EraPlan {
                                        previous_height: old.height,
                                        block_reward,
                                        signatures_reward,
                                        total_weight,
                                        previous,
                                    },
                                )
                            },
                            _ => Err(RewardError::Arithmetic),
                        }
                    },
                }
            },
        },
    }
}

/// All fractions of a map are in lowest terms.
pub open spec fn map_wf(map: Map<u64, Rational>) -> bool {
    forall|k: u64| #[trigger] map.contains_key(k) ==> map[k].wf()
}

/// The total supply at the end of the era before the one that `headers[i]` ends, and, where that is
/// not the genesis era, at the end of the era before that.
pub open spec fn earlier_supplies(
    headers: Seq<BlockHeader>,
    i: int,
    supply: Map<u64, Rational>,
) -> Result<(Rational, Option<Rational>), RewardError> {
    if i < 1 {
        Err(RewardError::MissingHeader)
    } else if !supply.contains_key((i - 1) as u64) {
        Err(RewardError::MissingSupply)
    } else if headers[i - 1].genesis {
        Ok((supply[(i - 1) as u64], None))
    } else if i < 2 {
        Err(RewardError::MissingHeader)
    } else if !supply.contains_key((i - 2) as u64) {
        Err(RewardError::MissingSupply)
    } else {
        Ok((supply[(i - 1) as u64], Some(supply[(i - 2) as u64])))
    }
}

/// The weights of the validators of the era that `headers[i]` ends: those that the switch block of
/// the era before sets.
pub open spec fn weights_of(headers: Seq<BlockHeader>, i: int) -> Seq<(PublicKey, U512)> {
    headers[i - 1].era_end->0.next_era_validator_weights.entries@
}

/// All that the credits of the era that `headers[i]` ends depend on, besides the blocks.
pub open spec fn era_basis(
    config: CoreConfig,
    headers: Seq<BlockHeader>,
    i: int,
    plan: EraPlan,
) -> EraBasis {
    EraBasis {
        config,
        plan,
        current: weights_of(headers, i),
        previous: if plan.previous is Some {
            weights_of(headers, i - 1)
        } else {
            Seq::empty()
        },
    }
}

/// The credits of the era that `headers[i]` ends.
pub open spec fn era_credits(
    config: CoreConfig,
    headers: Seq<BlockHeader>,
    blocks: Seq<Block>,
    i: int,
    supply: Map<u64, Rational>,
) -> Result<Seq<Credit>, RewardError> {
    match earlier_supplies(headers, i, supply) {
        Err(e) => Err(e),
        Ok((before, earlier)) => match era_plan(config, headers, i, before, earlier) {
            Err(e) => Err(e),
            Ok(plan) => if headers[i].height >= blocks.len() {
                Err(RewardError::MissingBlocks)
            } else {
                range_credits(
                    era_basis(config, headers, i, plan),
                    blocks,
                    plan.previous_height + 1,
                    headers[i].height + 1,
                )
            },
        },
    }
}

fn find_earlier_supplies(
    headers: &Vec<BlockHeader>,
    i: usize,
    supply: &BTreeMap<u64, Rational>,
) -> (r: Result<(Rational, Option<Rational>), RewardError>)
    requires
        i < headers@.len(),
        map_wf(supply@),
    ensures
        r == earlier_supplies(headers@, i as int, supply@),
        r matches Ok((s, e)) ==> s.wf() && (e matches Some(x) ==> x.wf() && 2 <= i),
        r is Ok ==> 1 <= i,
{
    broadcast use vstd::std_specs::btree::group_btree_axioms;

    if i < 1 {
        return Err(RewardError::MissingHeader);
    }
    match supply.get(&(i as u64 - 1)) {
        None => Err(RewardError::MissingSupply),
        Some(before) => {
            if headers[i - 1].genesis {
                return Ok((*before, None));
            }
            if i < 2 {
                return Err(RewardError::MissingHeader);
            }
            match supply.get(&(i as u64 - 2)) {
                None => Err(RewardError::MissingSupply),
                Some(earlier) => Ok((*before, Some(*earlier))),
            }
        },
    }
}

/// Lists what is owed to whom for the era that `headers[i]` ends, given the total supply at the end
/// of each era before.
pub fn list_era_credits(
    config: &CoreConfig,
    headers: &Vec<BlockHeader>,
    blocks: &Vec<Block>,
    i: usize,
    supply: &BTreeMap<u64, Rational>,
) -> (r: Result<Vec<Credit>, RewardError>)
    requires
        config.wf(),
        i < headers@.len(),
        map_wf(supply@),
    ensures
        match r {
            Ok(credits) => {
                &&& era_credits(*config, headers@, blocks@, i as int, supply@) == Ok::<
                    Seq<Credit>,
                    RewardError,
                >(credits@)
                &&& credits_wf(credits@)
            },
            Err(e) => era_credits(*config, headers@, blocks@, i as int, supply@) == Err::<
                Seq<Credit>,
                RewardError,
            >(e),
        },
{
    let (before, earlier) = match find_earlier_supplies(headers, i, supply) {
        Ok(found) => found,
        Err(e) => {
            return Err(e);
        },
    };
    let plan: EraPlan = match make_era_plan(config, headers, i, before, earlier) {
        Ok(plan) => plan,
        Err(e) => {
            return Err(e);
        },
    };
    let height: u64 = headers[i].height;
    if height >= blocks.len() as u64 {
        return Err(RewardError::MissingBlocks);
    }
    let ghost basis = era_basis(*config, headers@, i as int, plan);
    let none: Amounts = Vec::new();
    let current: &Amounts = &headers[i - 1].era_end.as_ref().unwrap()
        .next_era_validator_weights.entries;
    let previous: &Amounts = if plan.previous.is_some() {
        &headers[i - 2].era_end.as_ref().unwrap().next_era_validator_weights.entries
    } else {
        &none
    };
    assert(basis.previous =~= previous@);
    let mut out: Vec<Credit> = Vec::new();
    let ghost start = plan.previous_height + 1;
    let end: usize = height as usize + 1;
    let mut k: usize = plan.previous_height as usize + 1;
    assert(out@ =~= Seq::<Credit>::empty());
    while k < end
        invariant
            start <= k <= end,
            end == height + 1,
            end <= blocks@.len(),
            config.wf(),
            plan.wf(),
            basis == (EraBasis {
                config: *config,
                plan,
                current: current@,
                previous: previous@,
            }),
            total_amount(current@) == Some(plan.total_weight),
            plan.previous matches Some(p) ==> total_amount(previous@) == Some(p.total_weight),
            era_credits(*config, headers@, blocks@, i as int, supply@) == range_credits(
                basis,
                blocks@,
                start,
                end as int,
            ),
            range_credits(basis, blocks@, start, k as int) == Ok::<Seq<Credit>, RewardError>(out@),
            credits_wf(out@),
        decreases end - k,
    {
        match push_block_credits(config, &plan, current, previous, &blocks[k], &mut out) {
            Ok(_) => {},
            Err(e) => {
                proof {
                    lemma_range_credits_stay_err(basis, blocks@, start, k + 1, end as int);
                }
                return Err(e);
            },
        }
        k += 1;
    }
    Ok(out)
}

proof fn lemma_amount_wf(config: CoreConfig, proportion: Rational, worth: Rational)
    requires
        config.wf(),
        proportion.wf(),
        worth.wf(),
    ensures
        finder_amount(config, proportion, worth) matches Some(a) ==> a.wf(),
        signer_amount(config, proportion, worth) matches Some(a) ==> a.wf(),
{
    lemma_integer(1);
    lemma_product_value(config.finders_fee, proportion);
    if let Some(part) = product(config.finders_fee, proportion) {
        lemma_product_value(part, worth);
    }
    lemma_difference_value(integer(1), config.finders_fee);
    if let Some(rest) = difference(integer(1), config.finders_fee) {
        lemma_product_value(rest, proportion);
        if let Some(part) = product(rest, proportion) {
            lemma_product_value(part, worth);
        }
    }
}

proof fn lemma_signer_credits_wf(
    config: CoreConfig,
    weights: Seq<(PublicKey, U512)>,
    terms: SigningTerms,
    signed: Seq<bool>,
    n: nat,
)
    requires
        config.wf(),
        terms.finder_worth.wf(),
        terms.signer_worth.wf(),
    ensures
        signer_credits(config, weights, terms, signed, n) matches Some(c) ==> credits_wf(c),
    decreases n,
{
    if n > 0 {
        lemma_signer_credits_wf(config, weights, terms, signed, (n - 1) as nat);
        let weight = integer(weights[n - 1].1@ as u64);
        lemma_integer(weights[n - 1].1@ as u64);
        lemma_quotient_value(weight, terms.total_weight);
        if let Some(proportion) = quotient(weight, terms.total_weight) {
            lemma_amount_wf(config, proportion, terms.finder_worth);
            lemma_amount_wf(config, proportion, terms.signer_worth);
        }
    }
}

proof fn lemma_signature_credits_wf(basis: EraBasis, block: Block, n: nat)
    requires
        basis.config.wf(),
        basis.plan.wf(),
    ensures
        signature_credits(basis, block, n) matches Ok(c) ==> credits_wf(c),
    decreases n,
{
    if n > 0 {
        lemma_signature_credits_wf(basis, block, (n - 1) as nat);
        let plan = basis.plan;
        let signed = block.rewarded_signatures@[n - 1].signed@;
        if for_previous_era(plan, block.height, n - 1) {
            let terms = SigningTerms {
                proposer: block.proposer,
                total_weight: plan.previous->0.total_weight,
                finder_worth: plan.previous->0.signatures_reward,
                signer_worth: plan.signatures_reward,
            };
            lemma_signer_credits_wf(basis.config, basis.previous, terms, signed, signed.len());
            lemma_signer_credits_wf(
                basis.config,
                basis.previous,
                terms,
                signed,
                basis.previous.len(),
            );
        } else {
            let terms = SigningTerms {
                proposer: block.proposer,
                total_weight: plan.total_weight,
                finder_worth: plan.signatures_reward,
                signer_worth: plan.signatures_reward,
            };
            lemma_signer_credits_wf(basis.config, basis.current, terms, signed, signed.len());
            lemma_signer_credits_wf(
                basis.config,
                basis.current,
                terms,
                signed,
                basis.current.len(),
            );
        }
    }
}

proof fn lemma_range_credits_wf(basis: EraBasis, blocks: Seq<Block>, start: int, end: int)
    requires
        basis.config.wf(),
        basis.plan.wf(),
    ensures
        range_credits(basis, blocks, start, end) matches Ok(c) ==> credits_wf(c),
    decreases end - start,
{
    if start < end {
        lemma_range_credits_wf(basis, blocks, start, end - 1);
        let block = blocks[end - 1];
        lemma_signature_credits_wf(basis, block, block.rewarded_signatures@.len());
    }
}

proof fn lemma_round_share_wf(config: CoreConfig, supply: Rational, era_length: u64)
    requires
        config.wf(),
        supply.wf(),
    ensures
        round_share(config, supply, era_length) matches Some(s) ==> {
            &&& s.wf()
            &&& block_part(config, s) matches Some(b) ==> b.wf()
            &&& signatures_part(config, s) matches Some(b) ==> b.wf()
        },
{
    lemma_integer(1);
    lemma_integer(config.minimum_era_height);
    lemma_product_value(supply, integer(config.minimum_era_height));
    if let Some(base) = product(supply, integer(config.minimum_era_height)) {
        lemma_product_value(base, config.round_seigniorage_rate);
        if let Some(pot) = product(base, config.round_seigniorage_rate) {
            lemma_quotient_value(pot, greater(config.minimum_era_height, era_length));
        }
    }
    if let Some(s) = round_share(config, supply, era_length) {
        lemma_product_value(config.finality_signature_proportion, s);
        lemma_difference_value(integer(1), config.finality_signature_proportion);
        if let Some(rest) = difference(integer(1), config.finality_signature_proportion) {
            lemma_product_value(rest, s);
        }
    }
}

/// The amounts of an era's credits are in lowest terms.
pub proof fn lemma_era_credits_wf(
    config: CoreConfig,
    headers: Seq<BlockHeader>,
    blocks: Seq<Block>,
    i: int,
    supply: Map<u64, Rational>,
)
    requires
        config.wf(),
        map_wf(supply),
    ensures
        era_credits(config, headers, blocks, i, supply) matches Ok(c) ==> credits_wf(c),
{
    if let Ok((before, earlier)) = earlier_supplies(headers, i, supply) {
        assert(supply.contains_key((i - 1) as u64));
        lemma_round_share_wf(
            config,
            before,
            (headers[i].height - headers[i - 1].height) as u64,
        );
        if let Some(earlier) = earlier {
            assert(supply.contains_key((i - 2) as u64));
            lemma_round_share_wf(
                config,
                earlier,
                (headers[i].height - headers[i - 2].height) as u64,
            );
        }
        if let Ok(plan) = era_plan(config, headers, i, before, earlier) {
            lemma_range_credits_wf(
                era_basis(config, headers, i, plan),
                blocks,
                plan.previous_height + 1,
                headers[i].height + 1,
            );
        }
    }
}

} // verus!
