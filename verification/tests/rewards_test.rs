use casper_node::audit::{check_rewards, check_supply, total_rewards, AuditError};
use casper_node::chainspec::{ConsensusProtocolName, CoreConfig};
use casper_node::ledger::{add_to_rewards, pay_out, recompute_rewards, settle_era, Recomputed};
use casper_node::primitives::{Digest, EraId, TimeDiff};
use casper_node::rational::Rational;
use casper_node::rewards::{
    list_era_credits, total, Block, Credit, RewardError, SignaturesPacked,
};
use casper_node::switch_blocks::{BlockHeader, EraEnd, EraReport, ValidatorWeights};
use casper_node::u512::U512;
use std::collections::BTreeMap;

fn ratio(numer: u64, denom: u64) -> Rational {
    Rational::new(numer, denom)
}

/// A tenth of the supply is minted in a round, a fifth of a signature's reward is the finder's, and
/// half of a block's reward goes to its signatures. Eras have at least two blocks.
fn config() -> CoreConfig {
    CoreConfig {
        minimum_era_height: 2,
        finality_threshold_fraction: ratio(1, 3),
        era_duration: TimeDiff::from_millis(0),
        auction_delay: 1,
        unbonding_delay: 7,
        validator_slots: 2,
        minimum_block_time: TimeDiff::from_millis(1),
        round_seigniorage_rate: ratio(1, 10),
        consensus_protocol: ConsensusProtocolName::Zug,
        finders_fee: ratio(1, 5),
        finality_signature_proportion: ratio(1, 2),
    }
}

fn amounts(list: &[(u64, u64)]) -> Vec<(u64, U512)> {
    list.iter().map(|(key, amount)| (*key, U512::from_u64(*amount))).collect()
}

fn header(era: u64, height: u64, weights: &[(u64, u64)], rewards: &[(u64, u64)]) -> BlockHeader {
    BlockHeader {
        hash: Digest { high: 7, low: era as u128 },
        era_id: EraId::new(era),
        height,
        state_root_hash: Digest { high: 0, low: 0 },
        genesis: era == 0,
        era_end: Some(EraEnd {
            era_report: EraReport { equivocators: vec![], inactive_validators: vec![] },
            next_era_validator_weights: ValidatorWeights { entries: amounts(weights) },
            rewards: amounts(rewards),
        }),
    }
}

fn block(height: u64, proposer: u64, signatures: &[&[bool]]) -> Block {
    Block {
        height,
        proposer,
        rewarded_signatures: signatures
            .iter()
            .map(|flags| SignaturesPacked { signed: flags.to_vec() })
            .collect(),
    }
}

/// Validators 1 and 2 have weights 1 and 3. Validator 1 proposes all blocks.
fn two_eras() -> (Vec<BlockHeader>, Vec<Block>) {
    let weights = [(1, 1), (2, 3)];
    (
        vec![header(0, 0, &weights, &[]), header(1, 2, &weights, &[]), header(2, 4, &weights, &[])],
        vec![
            block(0, 1, &[]),
            block(1, 1, &[]),
            block(2, 1, &[&[true, true]]),
            block(3, 1, &[&[false, true]]),
            block(4, 1, &[&[true, false], &[false, true]]),
        ],
    )
}

fn genesis_supply() -> BTreeMap<u64, Rational> {
    let mut supply = BTreeMap::new();
    supply.insert(0, ratio(4_000, 1));
    supply
}

#[test]
fn credits_of_the_first_era() {
    let (headers, blocks) = two_eras();
    let credits = list_era_credits(&config(), &headers, &blocks, 1, &genesis_supply()).unwrap();
    // The pot is 4000 * 2 / 10 = 800, a round's share 400, and half of it goes to the proposer.
    let credit = |recipient: u64, amount: Rational| Credit { recipient, amount };
    assert_eq!(
        credits,
        vec![
            credit(1, ratio(200, 1)),
            credit(1, ratio(200, 1)),
            // Validator 1 signed: a fifth of a quarter of 200 is the fee, four fifths the rest.
            credit(1, ratio(10, 1)),
            credit(1, ratio(40, 1)),
            // Validator 2 signed.
            credit(1, ratio(30, 1)),
            credit(2, ratio(120, 1)),
        ]
    );
}

#[test]
fn credits_of_a_later_era() {
    let (headers, blocks) = two_eras();
    let mut supply = genesis_supply();
    supply.insert(1, ratio(4_600, 1));
    let credits = list_era_credits(&config(), &headers, &blocks, 2, &supply).unwrap();
    let credit = |recipient: u64, amount: Rational| Credit { recipient, amount };
    // The pot is 920, a round's share 460, and half of it is 230. For blocks of the era before, the
    // fee is taken on half of 800 / 4.
    assert_eq!(
        credits,
        vec![
            credit(1, ratio(230, 1)),
            // Block 3 records that validator 2 signed block 2, which belongs to the era before.
            credit(1, ratio(15, 1)),
            credit(2, ratio(138, 1)),
            credit(1, ratio(230, 1)),
            // Block 4 records that validator 1 signed block 3, of the same era.
            credit(1, ratio(23, 2)),
            credit(1, ratio(46, 1)),
            // And that validator 2 signed block 2.
            credit(1, ratio(15, 1)),
            credit(2, ratio(138, 1)),
        ]
    );
}

#[test]
fn fee_and_rest_make_up_the_proportion() {
    let (headers, blocks) = two_eras();
    let credits = list_era_credits(&config(), &headers, &blocks, 1, &genesis_supply()).unwrap();
    let pair = credits[4].amount.checked_add(credits[5].amount).unwrap();
    assert_eq!(pair, ratio(3, 4).checked_mul(ratio(200, 1)).unwrap());
}

#[test]
fn signatures_of_all_cost_what_they_are_worth() {
    let (headers, blocks) = two_eras();
    let credits = list_era_credits(&config(), &headers, &blocks, 1, &genesis_supply()).unwrap();
    let cost = credits[2..6]
        .iter()
        .fold(ratio(0, 1), |acc, credit| credit.amount.checked_add(acc).unwrap());
    // Half of a round's share of 400.
    assert_eq!(cost, ratio(200, 1));
}

#[test]
fn longer_eras_spread_the_pot() {
    let (mut headers, mut blocks) = two_eras();
    headers[1].height = 4;
    blocks[2] = block(2, 2, &[]);
    blocks[3] = block(3, 2, &[]);
    blocks[4] = block(4, 2, &[]);
    let credits = list_era_credits(&config(), &headers, &blocks, 1, &genesis_supply()).unwrap();
    // A round's share is 800 / 4.
    assert_eq!(credits.len(), 4);
    for credit in credits {
        assert_eq!(credit.amount, ratio(100, 1));
    }
}

#[test]
fn surplus_flags_are_ignored() {
    let (headers, mut blocks) = two_eras();
    blocks[2] = block(2, 1, &[&[false, false, true]]);
    let credits = list_era_credits(&config(), &headers, &blocks, 1, &genesis_supply()).unwrap();
    assert_eq!(credits.len(), 2);
}

#[test]
fn recomputed_rewards_and_supply() {
    let (headers, blocks) = two_eras();
    let result =
        recompute_rewards(&config(), &headers, &blocks, 4, &U512::from_u64(4_000)).unwrap();
    assert!(result.rewards[0].is_empty());
    assert_eq!(result.rewards[1][&1], ratio(480, 1));
    assert_eq!(result.rewards[1][&2], ratio(120, 1));
    assert_eq!(result.total_supply[&0], ratio(4_000, 1));
    assert_eq!(result.total_supply[&1], ratio(4_600, 1));
    // 230 + 15 + 230 + 11.5 + 46 + 15, and 138 + 138.
    assert_eq!(result.rewards[2][&1], ratio(1_095, 2));
    assert_eq!(result.rewards[2][&2], ratio(276, 1));
    assert_eq!(result.total_supply[&2], ratio(10_847, 2));
    // The supply grows by the rewards.
    let growth = result.total_supply[&2].checked_sub(result.total_supply[&1]).unwrap();
    assert_eq!(total_rewards(&result.rewards[2]), Some(growth));
    assert_eq!(check_rewards_growth(&headers, &result), None);
}

fn check_rewards_growth(headers: &Vec<BlockHeader>, result: &Recomputed) -> Option<AuditError> {
    match check_rewards(headers, 4, result) {
        Some(AuditError::GrowthMismatch { era }) => Some(AuditError::GrowthMismatch { era }),
        _ => None,
    }
}

#[test]
fn incomplete_eras_pay_nothing() {
    let (headers, blocks) = two_eras();
    let result =
        recompute_rewards(&config(), &headers, &blocks, 3, &U512::from_u64(4_000)).unwrap();
    assert!(!result.rewards[1].is_empty());
    assert!(result.rewards[2].is_empty());
    assert!(!result.total_supply.contains_key(&2));
    let mut supply = genesis_supply();
    let rewards = settle_era(&config(), &headers, &blocks, 3, 2, &mut supply).unwrap();
    assert!(rewards.is_empty());
    assert_eq!(supply, genesis_supply());
}

fn credits_error(headers: &Vec<BlockHeader>, blocks: &Vec<Block>, i: usize) -> RewardError {
    let mut supply = genesis_supply();
    supply.insert(1, ratio(4_600, 1));
    list_era_credits(&config(), headers, blocks, i, &supply).unwrap_err()
}

#[test]
fn missing_headers_are_errors() {
    let (mut headers, blocks) = two_eras();
    assert_eq!(credits_error(&headers, &blocks, 0), RewardError::MissingHeader);
    headers[0].genesis = false;
    assert_eq!(credits_error(&headers, &blocks, 1), RewardError::MissingHeader);
}

#[test]
fn missing_era_ends_are_errors() {
    let (mut headers, blocks) = two_eras();
    headers[0].era_end = None;
    assert_eq!(credits_error(&headers, &blocks, 1), RewardError::MissingEraEnd);
    assert_eq!(credits_error(&headers, &blocks, 2), RewardError::MissingEraEnd);
}

#[test]
fn large_weights_are_errors() {
    let (mut headers, blocks) = two_eras();
    headers[0] = header(0, 0, &[(1, u64::MAX), (2, 1)], &[]);
    assert_eq!(credits_error(&headers, &blocks, 1), RewardError::AmountOverflow);
    assert_eq!(
        recompute_rewards(&config(), &headers, &blocks, 4, &U512::from_u128(u128::MAX)).unwrap_err(),
        RewardError::AmountOverflow
    );
}

#[test]
fn heights_out_of_order_are_errors() {
    let (mut headers, blocks) = two_eras();
    headers[1].height = 3;
    headers[2].height = 2;
    assert_eq!(credits_error(&headers, &blocks, 2), RewardError::HeightOrder);
}

#[test]
fn missing_blocks_are_errors() {
    let (headers, mut blocks) = two_eras();
    blocks.pop();
    assert_eq!(credits_error(&headers, &blocks, 2), RewardError::MissingBlocks);
}

#[test]
fn signatures_before_genesis_are_errors() {
    let (headers, mut blocks) = two_eras();
    blocks[1] = block(1, 1, &[&[true], &[true]]);
    assert_eq!(credits_error(&headers, &blocks, 1), RewardError::SignatureBeforeGenesis);
}

#[test]
fn unknown_supplies_are_errors() {
    let (headers, blocks) = two_eras();
    let error =
        list_era_credits(&config(), &headers, &blocks, 2, &genesis_supply()).unwrap_err();
    assert_eq!(error, RewardError::MissingSupply);
}

#[test]
fn arithmetic_out_of_range_is_an_error() {
    let (headers, blocks) = two_eras();
    let mut supply = BTreeMap::new();
    supply.insert(0, ratio(u64::MAX, 1));
    let error = list_era_credits(&config(), &headers, &blocks, 1, &supply).unwrap_err();
    assert_eq!(error, RewardError::Arithmetic);
    // A proportion of more than one leaves nothing for the proposer.
    let mut above_one = config();
    above_one.finality_signature_proportion = ratio(3, 2);
    let error =
        list_era_credits(&above_one, &headers, &blocks, 1, &genesis_supply()).unwrap_err();
    assert_eq!(error, RewardError::Arithmetic);
}

#[test]
fn rewards_add_up() {
    let mut rewards = BTreeMap::new();
    let mut supply = genesis_supply();
    assert_eq!(add_to_rewards(7, ratio(1, 2), &mut rewards, 0, &mut supply), Ok(()));
    assert_eq!(add_to_rewards(7, ratio(1, 3), &mut rewards, 0, &mut supply), Ok(()));
    assert_eq!(rewards[&7], ratio(5, 6));
    assert_eq!(supply[&0], ratio(24_005, 6));
}

#[test]
fn first_reward_of_an_era_sets_the_supply() {
    let mut rewards = BTreeMap::new();
    let mut supply = genesis_supply();
    assert_eq!(add_to_rewards(7, ratio(3, 1), &mut rewards, 5, &mut supply), Ok(()));
    assert_eq!(supply[&5], ratio(3, 1));
    assert_eq!(rewards[&7], ratio(3, 1));
    // A reward without a supply makes no sense.
    assert_eq!(
        add_to_rewards(7, ratio(3, 1), &mut rewards, 6, &mut supply),
        Err(RewardError::RewardWithoutSupply)
    );
    assert_eq!(rewards[&7], ratio(3, 1));
    assert!(!supply.contains_key(&6));
}

#[test]
fn rewards_out_of_range_change_nothing() {
    let mut rewards = BTreeMap::new();
    rewards.insert(7, ratio(u64::MAX, 1));
    let mut supply = genesis_supply();
    assert_eq!(
        add_to_rewards(7, ratio(1, 1), &mut rewards, 0, &mut supply),
        Err(RewardError::Arithmetic)
    );
    assert_eq!(rewards[&7], ratio(u64::MAX, 1));
    assert_eq!(supply, genesis_supply());
}

#[test]
fn paying_out_conserves_amounts() {
    let credits = vec![
        Credit { recipient: 1, amount: ratio(1, 3) },
        Credit { recipient: 2, amount: ratio(1, 6) },
        Credit { recipient: 1, amount: ratio(1, 2) },
    ];
    let mut rewards = BTreeMap::new();
    let mut supply = genesis_supply();
    assert_eq!(pay_out(&credits, &mut rewards, 0, &mut supply), Ok(()));
    assert_eq!(rewards[&1], ratio(5, 6));
    assert_eq!(rewards[&2], ratio(1, 6));
    assert_eq!(total_rewards(&rewards), Some(ratio(1, 1)));
    assert_eq!(supply[&0], ratio(4_001, 1));
}

#[test]
fn paying_out_stops_at_the_first_failure() {
    let credits = vec![
        Credit { recipient: 1, amount: ratio(1, 1) },
        Credit { recipient: 1, amount: ratio(u64::MAX, 1) },
        Credit { recipient: 2, amount: ratio(1, 1) },
    ];
    let mut rewards = BTreeMap::new();
    let mut supply = genesis_supply();
    assert_eq!(
        pay_out(&credits, &mut rewards, 0, &mut supply),
        Err(RewardError::Arithmetic)
    );
    assert_eq!(rewards[&1], ratio(1, 1));
    assert!(!rewards.contains_key(&2));
    assert_eq!(supply[&0], ratio(4_001, 1));
}

#[test]
fn totals() {
    assert_eq!(total(&amounts(&[])), Some(0));
    assert_eq!(total(&amounts(&[(1, 5), (2, 6)])), Some(11));
    assert_eq!(total(&amounts(&[(1, u64::MAX), (2, 1)])), None);
    assert_eq!(total(&vec![(1, U512::from_u128(u128::MAX))]), None);
    assert_eq!(total_rewards(&BTreeMap::new()), Some(ratio(0, 1)));
    let mut large = BTreeMap::new();
    large.insert(1, ratio(u64::MAX, 1));
    large.insert(2, ratio(1, 1));
    assert_eq!(total_rewards(&large), None);
}

/// One era after genesis, in which validator 1 gets 480 and validator 2 gets 120.
fn one_era(paid: &[(u64, u64)]) -> (Vec<BlockHeader>, Recomputed) {
    let (mut headers, blocks) = two_eras();
    headers.truncate(2);
    headers[1].era_end.as_mut().unwrap().rewards = amounts(paid);
    let result =
        recompute_rewards(&config(), &headers, &blocks, 2, &U512::from_u64(4_000)).unwrap();
    (headers, result)
}

fn supply_history(list: &[u64]) -> Vec<U512> {
    list.iter().map(|amount| U512::from_u64(*amount)).collect()
}

#[test]
fn matching_chain_passes_the_audit() {
    let (headers, result) = one_era(&[(1, 480), (2, 120)]);
    let observed = supply_history(&[4_000, 4_000, 4_600]);
    assert_eq!(check_supply(&headers, 2, &observed, &result.total_supply), None);
    assert_eq!(check_rewards(&headers, 2, &result), None);
}

#[test]
fn wrong_supplies_are_found() {
    let (mut headers, mut result) = one_era(&[(1, 480), (2, 120)]);
    let check = |observed: &[u64], headers: &Vec<BlockHeader>, result: &Recomputed| {
        check_supply(headers, 2, &supply_history(observed), &result.total_supply)
    };
    assert_eq!(
        check(&[4_000, 4_000, 4_601], &headers, &result),
        Some(AuditError::SupplyMismatch { era: 1 })
    );
    assert_eq!(check(&[4_000, 4_000], &headers, &result), Some(AuditError::UnknownHeight));
    let huge = vec![U512::from_u64(4_000), U512::zero(), U512::from_u128(u128::MAX)];
    assert_eq!(
        check_supply(&headers, 2, &huge, &result.total_supply),
        Some(AuditError::AmountOverflow)
    );
    result.total_supply.remove(&1);
    assert_eq!(check(&[4_000, 4_000, 4_600], &headers, &result), Some(AuditError::MissingSupply));
    // Beyond what the node has, nothing is checked.
    headers[1].height = 3;
    assert_eq!(check(&[4_000], &headers, &result), None);
}

#[test]
fn wrong_rewards_are_found() {
    let (headers, result) = one_era(&[(1, 480), (2, 121)]);
    assert_eq!(
        check_rewards(&headers, 2, &result),
        Some(AuditError::RewardsMismatch { era: 1 })
    );
    let (mut headers, mut result) = one_era(&[(1, 480), (2, 120)]);
    result.total_supply.insert(1, ratio(4_601, 1));
    assert_eq!(check_rewards(&headers, 2, &result), Some(AuditError::GrowthMismatch { era: 1 }));
    result.total_supply.insert(1, ratio(1, 1));
    assert_eq!(check_rewards(&headers, 2, &result), Some(AuditError::Arithmetic));
    result.total_supply.remove(&0);
    assert_eq!(check_rewards(&headers, 2, &result), Some(AuditError::MissingSupply));
    headers[1].era_end.as_mut().unwrap().rewards = amounts(&[(1, u64::MAX), (2, 1)]);
    assert_eq!(check_rewards(&headers, 2, &result), Some(AuditError::AmountOverflow));
    headers[1].era_end = None;
    assert_eq!(check_rewards(&headers, 2, &result), Some(AuditError::MissingEraEnd));
}
