use casper_node::approvals::{check_approvals, StoredApprovals};
use casper_node::audit::{check_rewards, check_supply};
use casper_node::chainspec::{
    AccountsConfig, ActivationPoint, Chainspec, ChainspecRawBytes, ConsensusProtocolName, CoreConfig,
    HighwayConfig,
};
use casper_node::events::{
    everyone_else, ContractRuntimeRequest, ExecutionDelayFilter, FilterAction, FinalizedBlock,
    MainEvent,
};
use casper_node::ledger::recompute_rewards;
use casper_node::nodes::{
    has_completed_era, is_in_era, ConditionCheckReactor, FilterReactor, MainReactor, NodeRunner,
    ReactorState, Runner,
};
use casper_node::primitives::{Digest, EraId, TimeDiff, Timestamp};
use casper_node::rational::Rational;
use casper_node::rewards::{Block, SignaturesPacked};
use casper_node::settings::{
    equal_stakes, equivocator_network, use_long_eras, use_one_proposer, use_one_second_rounds,
    use_two_block_eras, RewardSettings,
};
use casper_node::shutdown_run::{
    assert_network_shutdown_for_upgrade_with_stakes, scheduled_upgrade, Step,
};
use casper_node::switch_blocks::{
    Bid, Bids, BlockHeader, EraEnd, EraReport, SwitchBlocks, ValidatorWeights,
};
use casper_node::test_chain::TestChain;
use casper_node::u512::U512;
use casper_node::outcomes::{
    check_accusations_ignored, check_equivocator_run, check_switch_block, stakes_have_grown,
    AccusationFault, EquivocatorFault, SwitchBlockFault,
};
use rand::rngs::StdRng;
use rand::SeedableRng;
use std::collections::BTreeMap;

const NOW: Timestamp = Timestamp { millis: 0 };

fn raw() -> ChainspecRawBytes {
    ChainspecRawBytes {
        chainspec_bytes: vec![1, 2, 3],
        maybe_genesis_accounts_bytes: Some(vec![4]),
        maybe_global_state_bytes: None,
    }
}

fn base() -> Chainspec {
    Chainspec {
        activation_point: ActivationPoint::Genesis(NOW),
        accounts_config: AccountsConfig { accounts: vec![], delegators: vec![] },
        core_config: CoreConfig {
            minimum_era_height: 5,
            finality_threshold_fraction: Rational::new(1, 3),
            era_duration: TimeDiff::from_seconds(41),
            auction_delay: 3,
            unbonding_delay: 7,
            validator_slots: 7,
            minimum_block_time: TimeDiff::from_millis(4_096),
            round_seigniorage_rate: Rational::new(7, 87535408),
            consensus_protocol: ConsensusProtocolName::Highway,
            finders_fee: Rational::new(1, 5),
            finality_signature_proportion: Rational::new(1, 2),
        },
        highway_config: HighwayConfig { maximum_round_length: TimeDiff::from_seconds(66) },
        other_settings: vec![9, 8, 7],
    }
}

fn header(
    era: u64,
    height: u64,
    equivocators: &[u64],
    inactive: &[u64],
    weights: &[(u64, u64)],
    rewards: &[(u64, u64)],
) -> BlockHeader {
    let amounts = |list: &[(u64, u64)]| {
        list.iter().map(|(key, amount)| (*key, U512::from_u64(*amount))).collect()
    };
    BlockHeader {
        hash: Digest { high: 7, low: era as u128 },
        era_id: EraId::new(era),
        height,
        state_root_hash: Digest { high: 0, low: height as u128 },
        genesis: era == 0,
        era_end: Some(EraEnd {
            era_report: EraReport {
                equivocators: equivocators.to_vec(),
                inactive_validators: inactive.to_vec(),
            },
            next_era_validator_weights: ValidatorWeights { entries: amounts(weights) },
            rewards: amounts(rewards),
        }),
    }
}

fn node(era: u64, headers: Vec<BlockHeader>) -> NodeRunner {
    Runner {
        reactor: ConditionCheckReactor {
            reactor: FilterReactor {
                reactor: MainReactor {
                    state: ReactorState::Validate,
                    public_key: 0,
                    current_era: Some(EraId::new(era)),
                    highest_switch_block_headers: headers,
                    executed_deploys: vec![],
                },
            },
        },
    }
}

#[test]
fn run_network() {
    let mut rng = StdRng::seed_from_u64(0);
    let mut chain = TestChain::new(&mut rng, (1..6).collect(), None, base(), raw(), NOW);
    let directories = (0..5).map(|i| format!("/storage/{}", i)).collect();
    assert_eq!(chain.create_initialized_network(5_000, &directories).len(), 5);
    let all_in = |era: u64| (0..5).map(|_| node(era, vec![])).collect();
    assert!(is_in_era(&all_in(1), EraId::new(1)));
    assert!(!is_in_era(&all_in(1), EraId::new(2)));
    assert!(is_in_era(&all_in(2), EraId::new(2)));
}

const HONEST: u64 = 10;
const ALICE: u64 = 20;
const BOB: u64 = 30;

fn bids(inactive: bool) -> Bids {
    let bid = |inactive: bool, stake: u64| Bid { inactive, staked_amount: U512::from_u64(stake) };
    vec![(HONEST, bid(false, 100_000)), (ALICE, bid(inactive, 1)), (BOB, bid(false, 1))]
}

/// The switch blocks and bids of a run in which Alice equivocates in era 1 or, with a delay, in era
/// 2.
fn equivocator_run(delay: u64) -> (SwitchBlocks, Vec<Bids>) {
    let everyone = [(HONEST, 100_000), (ALICE, 1), (BOB, 1)];
    let others = [(HONEST, 100_000), (BOB, 1)];
    let headers = (0..4)
        .map(|era: u64| {
            let caught: &[u64] = if era == 1 + delay { &[ALICE] } else { &[] };
            let weights: &[(u64, u64)] = if era < 2 + delay { &everyone } else { &others };
            header(era, era * 10, caught, &[BOB], weights, &[])
        })
        .collect();
    (SwitchBlocks { headers }, (0..4).map(|era: u64| bids(era >= 1 + delay)).collect())
}

fn equivocator_outcome(blocks: &SwitchBlocks, bids: &Vec<Bids>) -> Result<Option<u64>, EquivocatorFault> {
    let network = equivocator_network(&vec![HONEST], ALICE, BOB);
    check_equivocator_run(blocks, bids, ALICE, BOB, &network.stakes)
}

#[test]
fn run_equivocator_network() {
    let network = equivocator_network(&vec![HONEST], ALICE, BOB);
    let mut chain = TestChain::new_with_keys(network.keys, network.stakes, base(), raw(), NOW);
    use_long_eras(chain.chainspec_mut(), 3);
    assert_eq!(chain.chainspec.core_config.minimum_era_height, 10);
    assert_eq!(chain.chainspec.accounts_config.accounts.len(), 3);
    let highest = vec![header(3, 30, &[], &[], &[], &[])];
    assert!(has_completed_era(&vec![node(4, highest)], EraId::new(3)));
    let (blocks, bids) = equivocator_run(0);
    let nodes = vec![blocks.headers.iter().map(|header| Some(header.duplicate())).collect()];
    let collected = SwitchBlocks::collect(&nodes, 4).unwrap();
    assert_eq!(equivocator_outcome(&collected, &bids), Ok(Some(0)));
}

#[test]
fn late_equivocation_is_accepted() {
    let (blocks, bids) = equivocator_run(1);
    assert_eq!(equivocator_outcome(&blocks, &bids), Ok(Some(1)));
}

#[test]
fn run_without_equivocation_is_not_checked() {
    let (mut blocks, bids) = equivocator_run(0);
    blocks.headers[1] = header(1, 10, &[], &[], &[], &[]);
    assert_eq!(equivocator_outcome(&blocks, &bids), Ok(None));
}

#[test]
fn faults_of_the_first_era_are_found() {
    let (mut blocks, mut bids) = equivocator_run(0);
    let end = |blocks: &mut SwitchBlocks, era: usize| blocks.headers[era].era_end.take().unwrap();
    let mut wrong = end(&mut blocks, 1);
    wrong.era_report.equivocators = vec![ALICE, BOB];
    blocks.headers[1].era_end = Some(wrong);
    assert_eq!(
        equivocator_outcome(&blocks, &bids),
        Err(EquivocatorFault::WrongEquivocators { era_number: 1 })
    );
    let (mut blocks, _) = equivocator_run(0);
    bids[1][1].1.inactive = false;
    assert_eq!(
        equivocator_outcome(&blocks, &bids),
        Err(EquivocatorFault::ActiveBid { era_number: 1 })
    );
    bids[1].remove(1);
    assert_eq!(
        equivocator_outcome(&blocks, &bids),
        Err(EquivocatorFault::MissingBid { era_number: 1, public_key: ALICE })
    );
    let (_, bids) = equivocator_run(0);
    blocks.headers[1] = header(1, 10, &[ALICE], &[BOB], &[(HONEST, 1)], &[]);
    assert_eq!(
        equivocator_outcome(&blocks, &bids),
        Err(EquivocatorFault::EvictedEarly { era_number: 1 })
    );
}

#[test]
fn faults_of_later_eras_are_found() {
    let (mut blocks, bids) = equivocator_run(0);
    blocks.headers[2] = header(2, 20, &[BOB], &[BOB], &[(HONEST, 1)], &[]);
    assert_eq!(
        equivocator_outcome(&blocks, &bids),
        Err(EquivocatorFault::WrongEquivocators { era_number: 2 })
    );
    blocks.headers[2] = header(2, 20, &[], &[BOB], &[(ALICE, 1)], &[]);
    assert_eq!(
        equivocator_outcome(&blocks, &bids),
        Err(EquivocatorFault::NotEvicted { era_number: 2 })
    );
    let (mut blocks, _) = equivocator_run(0);
    blocks.headers[3] = header(3, 30, &[], &[], &[(ALICE, 1)], &[]);
    assert_eq!(
        equivocator_outcome(&blocks, &bids),
        Err(EquivocatorFault::NotEvicted { era_number: 3 })
    );
}

#[test]
fn wrong_inactive_validators_and_stakes_are_found() {
    let (mut blocks, bids) = equivocator_run(0);
    blocks.headers[2] = header(2, 20, &[], &[], &[(HONEST, 1)], &[]);
    assert_eq!(
        equivocator_outcome(&blocks, &bids),
        Err(EquivocatorFault::WrongInactive { era_number: 2 })
    );
    let (blocks, mut bids) = equivocator_run(0);
    bids[3][0].1.staked_amount = U512::from_u64(99_999);
    assert_eq!(
        equivocator_outcome(&blocks, &bids),
        Err(EquivocatorFault::StakeReduced { era_number: 3, public_key: HONEST })
    );
    bids[0].pop();
    bids[3][0].1.staked_amount = U512::from_u64(100_001);
    assert_eq!(
        equivocator_outcome(&blocks, &bids),
        Err(EquivocatorFault::MissingBid { era_number: 0, public_key: BOB })
    );
}

fn shutdown_with(stakes: Vec<U512>) {
    let mut rng = StdRng::seed_from_u64(3);
    let (chain, mut run) =
        assert_network_shutdown_for_upgrade_with_stakes(&mut rng, vec![1, 2], &stakes, base(), raw(), NOW);
    let accounts = &chain.chainspec.accounts_config.accounts;
    assert_eq!(accounts[0].validator.unwrap().bonded_amount, stakes[0]);
    assert_eq!(accounts[1].validator.unwrap().bonded_amount, stakes[1]);
    assert_eq!(chain.chainspec.core_config.minimum_era_height, 2);
    assert_eq!(chain.chainspec.core_config.era_duration, TimeDiff::from_millis(0));
    assert_eq!(chain.chainspec.core_config.minimum_block_time, TimeDiff::from_seconds(1));
    assert_eq!(chain.chainspec.core_config.auction_delay, 1);
    let mut told = vec![];
    while run.due != Step::Finished {
        if let Step::AnnounceUpgrade { node, upgrade } = run.due {
            assert_eq!(upgrade, scheduled_upgrade());
            told.push(node);
        }
        run.advance();
    }
    assert_eq!(told, vec![0, 1]);
}

#[test]
fn nodes_should_have_enough_signatures_before_upgrade_with_equal_stake() {
    shutdown_with(vec![U512::from_u128(u128::MAX), U512::from_u128(u128::MAX)]);
}

#[test]
fn nodes_should_have_enough_signatures_before_upgrade_with_one_dominant_stake() {
    shutdown_with(vec![U512::from_u128(u128::MAX), U512::from_u64(u8::MAX as u64)]);
}

#[test]
fn dont_upgrade_without_switch_block() {
    let mut rng = StdRng::seed_from_u64(4);
    let mut chain = TestChain::new(&mut rng, vec![1, 2], None, base(), raw(), NOW);
    use_two_block_eras(chain.chainspec_mut());
    assert_eq!(chain.chainspec.core_config.minimum_era_height, 2);
    let mut filter = ExecutionDelayFilter::new(EraId::new(1));
    let event: MainEvent<(), ()> = MainEvent::ContractRuntimeRequest(
        ContractRuntimeRequest::EnqueueBlockForExecution {
            finalized_block: FinalizedBlock { era_id: EraId::new(1), has_era_report: true },
        },
    );
    assert_eq!(filter.decide(&event), FilterAction::Delay(TimeDiff::from_seconds(10)));
    assert_eq!(filter.decide(&event), FilterAction::Pass);
    let mut stored = header(1, 2, &[], &[], &[], &[]);
    assert_eq!(check_switch_block(&stored, EraId::new(1)), Ok(()));
    assert_eq!(check_switch_block(&stored, EraId::new(2)), Err(SwitchBlockFault::WrongEra));
    stored.era_end = None;
    assert_eq!(check_switch_block(&stored, EraId::new(1)), Err(SwitchBlockFault::NotASwitchBlock));
}

#[test]
fn should_store_finalized_approvals() {
    let mut stakes = BTreeMap::new();
    stakes.insert(ALICE, U512::from_u64(100));
    let mut chain = TestChain::new_with_keys(vec![ALICE, BOB], stakes, base(), raw(), NOW);
    use_one_proposer(chain.chainspec_mut());
    assert_eq!(chain.chainspec.core_config.validator_slots, 1);
    let expected = vec![1, 2];
    let bobs_original = vec![1, 2, 3];
    let nodes = vec![
        StoredApprovals { public_key: ALICE, original: Some(vec![1, 2]), finalized: None },
        StoredApprovals {
            public_key: BOB,
            original: Some(vec![1, 2, 3]),
            finalized: Some(vec![1, 2]),
        },
    ];
    assert_eq!(check_approvals(&nodes, ALICE, &expected, &bobs_original), Ok(()));
}

#[test]
fn empty_block_validation_regression() {
    let keys = vec![1, 2, 3, 4];
    let stakes = equal_stakes(&keys, 100);
    let mut chain = TestChain::new_with_keys(keys.clone(), stakes, base(), raw(), NOW);
    use_one_second_rounds(chain.chainspec_mut());
    assert_eq!(chain.chainspec.core_config.minimum_era_height, 15);
    assert_eq!(everyone_else(&keys, 1), vec![2, 3, 4]);
    let blocks = |equivocators: &[u64], inactive: &[u64]| SwitchBlocks {
        headers: vec![header(0, 0, equivocators, inactive, &[], &[])],
    };
    assert!(check_accusations_ignored(&blocks(&[], &[]), 1).is_ok());
    assert!(check_accusations_ignored(&blocks(&[], &[1]), 1).is_ok());
    assert!(matches!(
        check_accusations_ignored(&blocks(&[2], &[]), 1),
        Err(AccusationFault::Equivocators)
    ));
    match check_accusations_ignored(&blocks(&[], &[1, 3]), 1) {
        Err(AccusationFault::UnexpectedInactive(keys)) => assert_eq!(keys, vec![1, 3]),
        other => panic!("unexpected outcome: {:?}", other),
    }
    assert!(check_accusations_ignored(&blocks(&[], &[3]), 1).is_err());
}

#[test]
fn basic_simple_rewards_test() {
    const STAKE: u64 = 1_000_000_000;
    let grown = |stake: u64| Bid { inactive: false, staked_amount: U512::from_u64(stake) };
    let bids: Bids = (0..10).map(|key| (key, grown(STAKE + 1 + key))).collect();
    assert!(stakes_have_grown(&bids, STAKE));
    assert!(!stakes_have_grown(&bids, STAKE + 1));
    assert!(stakes_have_grown(&vec![], STAKE));
}

#[test]
fn basic_parametrized_rewards_test() {
    const STAKE: u64 = 1_000_000_000;
    let keys: Vec<u64> = (0..10).collect();
    let mut chain =
        TestChain::new_with_keys(keys.clone(), equal_stakes(&keys, STAKE), base(), raw(), NOW);
    RewardSettings {
        consensus: ConsensusProtocolName::Zug,
        validator_slots: 10,
        era_duration: 30_000,
        min_height: 10,
        block_time: 3_000,
        seigniorage: (1, 100),
        finders_fee: (0, 1),
        finality_sig_prop: (1, 1),
    }
    .apply(chain.chainspec_mut());

    // The nodes 3 and 4 sign nothing. Every block after the first one records the signatures for the
    // block before it.
    let signs: Vec<bool> = keys.iter().map(|key| *key != 3 && *key != 4).collect();
    let blocks: Vec<Block> = (0..21)
        .map(|height: u64| Block {
            height,
            proposer: height % 10,
            rewarded_signatures: if height < 2 {
                vec![]
            } else {
                vec![SignaturesPacked { signed: signs.clone() }]
            },
        })
        .collect();
    let weights: Vec<(u64, u64)> = keys.iter().map(|key| (*key, STAKE)).collect();
    // In era 1 a signature is worth 10^10 / 100 / 10, in era 2 a hundredth of a tenth of what the
    // supply has grown to.
    let paid = |signature: u64, count: u64| -> Vec<(u64, u64)> {
        keys.iter()
            .filter(|key| **key != 3 && **key != 4)
            .map(|key| (*key, signature * count))
            .collect()
    };
    let headers = vec![
        header(0, 0, &[], &[], &weights, &[]),
        header(1, 10, &[], &[], &weights, &paid(10_000_000, 9)),
        header(2, 20, &[], &[], &weights, &paid(10_720_000, 10)),
    ];
    let mut observed: Vec<U512> = (0..21).map(|_| U512::zero()).collect();
    observed[0] = U512::from_u64(10_000_000_000);
    observed[10] = U512::from_u64(10_720_000_000);
    observed[20] = U512::from_u64(11_577_600_000);

    let result =
        recompute_rewards(&chain.chainspec.core_config, &headers, &blocks, 20, &observed[0])
            .unwrap();
    assert_eq!(check_supply(&headers, 20, &observed, &result.total_supply), None);
    assert_eq!(check_rewards(&headers, 20, &result), None);
    assert_eq!(result.total_supply[&2], Rational::from_integer(11_577_600_000));
    assert_eq!(result.rewards[2][&0], Rational::from_integer(107_200_000));
}
