use casper_node::chainspec::{
    AccountsConfig, ActivationPoint, Chainspec, ChainspecRawBytes, ConsensusProtocolName, CoreConfig,
    HighwayConfig,
};
use casper_node::node_config::{GossipConfig, NetworkConfig};
use casper_node::primitives::{EraId, ProtocolVersion, TimeDiff, Timestamp};
use casper_node::rational::Rational;
use casper_node::settings::{
    equal_stakes, equivocator_network, use_long_eras, use_one_proposer, use_one_second_rounds,
    use_two_block_eras, RewardSettings,
};
use casper_node::shutdown_run::{scheduled_upgrade, ShutdownRun, Step};
use casper_node::test_chain::TestChain;
use casper_node::u512::U512;
use rand::rngs::StdRng;
use rand::SeedableRng;
use std::collections::BTreeMap;

fn raw() -> ChainspecRawBytes {
    ChainspecRawBytes {
        chainspec_bytes: vec![1, 2, 3],
        maybe_genesis_accounts_bytes: Some(vec![4]),
        maybe_global_state_bytes: None,
    }
}

fn base() -> Chainspec {
    Chainspec {
        activation_point: ActivationPoint::EraId(EraId::new(7)),
        accounts_config: AccountsConfig { accounts: vec![], delegators: vec![] },
        core_config: CoreConfig {
            minimum_era_height: 5,
            finality_threshold_fraction: Rational::new(1, 3),
            era_duration: TimeDiff::from_seconds(41),
            auction_delay: 3,
            unbonding_delay: 7,
            validator_slots: 8,
            minimum_block_time: TimeDiff::from_millis(4_096),
            round_seigniorage_rate: Rational::new(7, 87535408),
            consensus_protocol: ConsensusProtocolName::Highway,
            finders_fee: Rational::new(1, 5),
            finality_signature_proportion: Rational::new(1, 2),
        },
        highway_config: HighwayConfig { maximum_round_length: TimeDiff::from_seconds(66) },
        other_settings: vec![9, 8, 7],
    }
}

const NOW: Timestamp = Timestamp { millis: 1_000_000 };

#[test]
fn new_chain_keeps_eras_short() {
    let chain = TestChain::new_with_keys(vec![4, 2], BTreeMap::new(), base(), raw(), NOW);
    let core = chain.chainspec.core_config;
    assert_eq!(chain.keys, vec![4, 2]);
    assert!(chain.storages.is_empty());
    assert_eq!(
        chain.chainspec.activation_point,
        ActivationPoint::Genesis(Timestamp { millis: 1_060_000 })
    );
    assert_eq!(core.minimum_era_height, 1);
    assert_eq!(core.finality_threshold_fraction, Rational::new(17, 50));
    assert_eq!(core.era_duration, TimeDiff::from_millis(10));
    assert_eq!(core.auction_delay, 1);
    assert_eq!(core.unbonding_delay, 3);
    // The rest is that of the base.
    assert_eq!(core.validator_slots, 8);
    assert_eq!(core.minimum_block_time, TimeDiff::from_millis(4_096));
    assert_eq!(core.finders_fee, Rational::new(1, 5));
    assert_eq!(chain.chainspec.highway_config, base().highway_config);
    assert_eq!(chain.chainspec.other_settings, vec![9, 8, 7]);
    assert_eq!(chain.chainspec_raw_bytes.chainspec_bytes, vec![1, 2, 3]);
    assert_eq!(chain.chainspec_raw_bytes.maybe_genesis_accounts_bytes, Some(vec![4]));
    assert_eq!(chain.chainspec_raw_bytes.maybe_global_state_bytes, None);
}

#[test]
fn genesis_accounts_are_the_stakes_in_order() {
    let mut stakes = BTreeMap::new();
    stakes.insert(9, U512::from_u64(90));
    stakes.insert(1, U512::from_u64(10));
    stakes.insert(5, U512::from_u64(50));
    let chain = TestChain::new_with_keys(vec![1, 5, 9], stakes, base(), raw(), NOW);
    let accounts = &chain.chainspec.accounts_config.accounts;
    assert!(chain.chainspec.accounts_config.delegators.is_empty());
    let keys: Vec<u64> = accounts.iter().map(|account| account.public_key).collect();
    assert_eq!(keys, vec![1, 5, 9]);
    for account in accounts {
        let validator = account.validator.unwrap();
        assert_eq!(account.balance, U512::zero());
        assert_eq!(validator.bonded_amount.to_u64(), Some(account.public_key * 10));
        assert_eq!(validator.delegation_rate, 0);
    }
}

#[test]
fn given_stakes_go_to_the_keys_in_order() {
    let mut rng = StdRng::seed_from_u64(1);
    let stakes = vec![U512::from_u64(3), U512::from_u64(4), U512::from_u64(5)];
    // The first and the last key are the same: the last stake counts.
    let chain = TestChain::new(&mut rng, vec![8, 2, 8], Some(&stakes), base(), raw(), NOW);
    let accounts = &chain.chainspec.accounts_config.accounts;
    assert_eq!(accounts.len(), 2);
    assert_eq!(accounts[0].public_key, 2);
    assert_eq!(accounts[0].validator.unwrap().bonded_amount.to_u64(), Some(4));
    assert_eq!(accounts[1].public_key, 8);
    assert_eq!(accounts[1].validator.unwrap().bonded_amount.to_u64(), Some(5));
    assert_eq!(chain.keys, vec![8, 2, 8]);
    // Nothing was drawn, and without stakes the keys are the same.
    assert_eq!(rng, StdRng::seed_from_u64(1));
    let random = TestChain::new(&mut rng, vec![8, 2, 8], None, base(), raw(), NOW);
    assert_eq!(random.keys, chain.keys);
    assert_ne!(rng, StdRng::seed_from_u64(1));
}

#[test]
fn random_stakes_are_very_large() {
    let mut rng = StdRng::seed_from_u64(2);
    let chain = TestChain::new(&mut rng, (0..200).collect(), None, base(), raw(), NOW);
    let low = U512::from_u128(u128::MAX).times(100);
    let high = U512::from_u128(u128::MAX).times(998);
    let stakes: Vec<U512> = chain
        .chainspec
        .accounts_config
        .accounts
        .iter()
        .map(|account| account.validator.unwrap().bonded_amount)
        .collect();
    assert_eq!(stakes.len(), 200);
    for stake in &stakes {
        assert!(stake.at_least(&low));
        assert!(high.at_least(stake));
    }
    assert!(stakes.iter().any(|stake| *stake != stakes[0]));
}

#[test]
fn factors_scale_the_greatest_u128() {
    let chain = TestChain::new_with_factors(vec![1, 2], &vec![100, 998], base(), raw(), NOW);
    let accounts = &chain.chainspec.accounts_config.accounts;
    assert_eq!(
        accounts[0].validator.unwrap().bonded_amount,
        U512 { l0: u128::MAX - 99, l1: 99, l2: 0, l3: 0 }
    );
    assert_eq!(
        accounts[1].validator.unwrap().bonded_amount,
        U512 { l0: u128::MAX - 997, l1: 997, l2: 0, l3: 0 }
    );
}

#[test]
fn chainspec_can_be_changed() {
    let mut chain = TestChain::new_with_keys(vec![1], BTreeMap::new(), base(), raw(), NOW);
    chain.chainspec_mut().core_config.validator_slots = 3;
    assert_eq!(chain.chainspec.core_config.validator_slots, 3);
    assert_eq!(chain.chainspec.core_config.minimum_era_height, 1);
}

#[test]
fn two_block_eras() {
    let mut chainspec = base();
    use_two_block_eras(&mut chainspec);
    assert_eq!(chainspec.core_config.minimum_era_height, 2);
    assert_eq!(chainspec.core_config.era_duration, TimeDiff::from_millis(0));
    assert_eq!(chainspec.core_config.minimum_block_time, TimeDiff::from_millis(1_000));
    assert_eq!(chainspec.core_config.validator_slots, 8);
    use_one_proposer(&mut chainspec);
    assert_eq!(chainspec.core_config.validator_slots, 1);
}

#[test]
fn other_settings() {
    let mut chainspec = base();
    use_long_eras(&mut chainspec, 3);
    assert_eq!(chainspec.core_config.minimum_era_height, 10);
    assert_eq!(chainspec.core_config.validator_slots, 3);
    assert_eq!(chainspec.highway_config.maximum_round_length, TimeDiff::from_millis(8_192));
    use_one_second_rounds(&mut chainspec);
    assert_eq!(chainspec.core_config.minimum_era_height, 15);
    assert_eq!(chainspec.core_config.minimum_block_time, TimeDiff::from_seconds(1));
    assert_eq!(chainspec.highway_config.maximum_round_length, TimeDiff::from_seconds(1));
}

#[test]
fn reward_settings_are_applied() {
    let mut chainspec = base();
    RewardSettings {
        consensus: ConsensusProtocolName::Zug,
        validator_slots: 10,
        era_duration: 30_000,
        min_height: 10,
        block_time: 3_000,
        seigniorage: (2, 200),
        finders_fee: (0, 1),
        finality_sig_prop: (1, 1),
    }
    .apply(&mut chainspec);
    let core = chainspec.core_config;
    assert_eq!(core.consensus_protocol, ConsensusProtocolName::Zug);
    assert_eq!(core.validator_slots, 10);
    assert_eq!(core.era_duration, TimeDiff::from_seconds(30));
    assert_eq!(core.minimum_era_height, 10);
    assert_eq!(core.minimum_block_time, TimeDiff::from_seconds(3));
    assert_eq!((core.round_seigniorage_rate.numer, core.round_seigniorage_rate.denom), (1, 100));
    assert_eq!(core.finders_fee, Rational::from_integer(0));
    assert_eq!(core.finality_signature_proportion, Rational::from_integer(1));
    assert_eq!(core.auction_delay, 3);
}

#[test]
fn equal_stakes_for_all_keys() {
    let stakes = equal_stakes(&vec![3, 1, 3], 100);
    assert_eq!(stakes.len(), 2);
    assert_eq!(stakes[&1].to_u64(), Some(100));
    assert_eq!(stakes[&3].to_u64(), Some(100));
}

#[test]
fn one_validator_runs_two_nodes_and_another_none() {
    let network = equivocator_network(&vec![10], 20, 30);
    assert_eq!(network.keys, vec![10, 20, 20]);
    assert_eq!(network.stakes.len(), 3);
    assert_eq!(network.stakes[&10].to_u64(), Some(100_000));
    assert_eq!(network.stakes[&20].to_u64(), Some(1));
    assert_eq!(network.stakes[&30].to_u64(), Some(1));
}

#[test]
fn node_configs() {
    let mut chain = TestChain::new_with_keys(vec![7, 6, 7], BTreeMap::new(), base(), raw(), NOW);
    let directories: Vec<String> = vec!["/a".to_string(), "/b".to_string(), "/c".to_string()];
    let configs = chain.create_initialized_network(4_242, &directories);
    assert_eq!(configs.len(), 3);
    assert_eq!(configs[0].network, NetworkConfig::FirstNode { port: 4_242 });
    assert_eq!(configs[1].network, NetworkConfig::JoiningNode { first_node_port: 4_242 });
    assert_eq!(configs[2].network, NetworkConfig::JoiningNode { first_node_port: 4_242 });
    for (i, config) in configs.iter().enumerate() {
        assert_eq!(config.gossip, GossipConfig::SmallTimeouts);
        assert_eq!(config.storage, directories[i]);
        assert_eq!(config.validator, chain.keys[i]);
        assert_eq!(config.secret_key_path.directory, directories[i]);
        assert_eq!(config.secret_key_path.file_name, "secret_key");
    }
    assert_eq!(chain.storages, directories);
    let again = chain.create_node_config(1, 1, "/d".to_string());
    assert_eq!(again.validator, 6);
    assert_eq!(chain.storages.len(), 4);
}

#[test]
fn shutdown_run_tells_every_node() {
    let mut run = ShutdownRun::new(3);
    assert_eq!(run.due, Step::SettleInitialized { timeout: TimeDiff::from_seconds(20) });
    for node in 0..3 {
        run.advance();
        assert_eq!(run.due, Step::AnnounceUpgrade { node, upgrade: scheduled_upgrade() });
    }
    run.advance();
    assert_eq!(run.due, Step::SettleOnExit { timeout: TimeDiff::from_seconds(90) });
    run.advance();
    assert_eq!(run.due, Step::Finished);
    run.advance();
    assert_eq!(run.due, Step::Finished);
}

#[test]
fn shutdown_run_without_nodes() {
    let mut run = ShutdownRun::new(0);
    run.advance();
    assert_eq!(run.due, Step::SettleOnExit { timeout: TimeDiff::from_seconds(90) });
}

#[test]
fn upgrade_is_scheduled_for_era_two() {
    let upgrade = scheduled_upgrade();
    assert_eq!(upgrade.activation_point, ActivationPoint::EraId(EraId::new(2)));
    assert_eq!(upgrade.protocol_version, ProtocolVersion::from_parts(999, 0, 0));
}
