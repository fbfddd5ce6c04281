use casper_node::approvals::{
    check_approvals, version_for, ApprovalsFault, DeployVersion, StoredApprovals,
};
use casper_node::nodes::{
    all_executed, all_initialized, has_completed_era, is_in_era, ConditionCheckReactor, FilterReactor,
    MainReactor, NodeRunner, ReactorState, Runner,
};
use casper_node::primitives::{Digest, EraId};
use casper_node::switch_blocks::{
    Bid, BlockHeader, CollectError, EraEnd, EraReport, StateBids, SwitchBlocks, ValidatorWeights,
};
use casper_node::u512::U512;

fn header(era: u64, equivocators: Vec<u64>) -> BlockHeader {
    BlockHeader {
        hash: Digest { high: 7, low: era as u128 },
        era_id: EraId::new(era),
        height: era * 10,
        state_root_hash: Digest { high: 0, low: era as u128 },
        genesis: era == 0,
        era_end: Some(EraEnd {
            era_report: EraReport { equivocators, inactive_validators: vec![90 + era] },
            next_era_validator_weights: ValidatorWeights {
                entries: vec![(1, U512::from_u64(10)), (3, U512::from_u64(30))],
            },
            rewards: vec![],
        }),
    }
}

fn stored(eras: u64) -> Vec<Option<BlockHeader>> {
    (0..eras).map(|era| Some(header(era, vec![]))).collect()
}

fn node(state: ReactorState, era: Option<u64>, headers: Vec<BlockHeader>) -> NodeRunner {
    Runner {
        reactor: ConditionCheckReactor {
            reactor: FilterReactor {
                reactor: MainReactor {
                    state,
                    public_key: 5,
                    current_era: era.map(EraId::new),
                    highest_switch_block_headers: headers,
                    executed_deploys: vec![],
                },
            },
        },
    }
}

#[test]
fn switch_blocks_are_collected() {
    let blocks = SwitchBlocks::collect(&vec![stored(4), stored(3)], 3).unwrap();
    assert_eq!(blocks.headers.len(), 3);
    for era in 0..3 {
        assert!(blocks.headers[era as usize].equals(&header(era, vec![])));
        assert!(blocks.equivocators(era).is_empty());
        assert_eq!(blocks.inactive_validators(era), [90 + era]);
        assert!(blocks.next_era_validators(era).contains_key(3));
        assert!(!blocks.next_era_validators(era).contains_key(2));
        assert_eq!(blocks.bids_request(era), Digest { high: 0, low: era as u128 });
    }
}

#[test]
fn no_eras_need_no_nodes() {
    assert!(SwitchBlocks::collect(&vec![], 0).unwrap().headers.is_empty());
    assert_eq!(SwitchBlocks::collect(&vec![], 1).unwrap_err(), CollectError::NoNodes);
}

#[test]
fn missing_switch_blocks_are_found() {
    assert_eq!(
        SwitchBlocks::collect(&vec![stored(3), stored(2)], 3).unwrap_err(),
        CollectError::MissingHeader { era_number: 2 }
    );
    let mut gap = stored(3);
    gap[1] = None;
    assert_eq!(
        SwitchBlocks::collect(&vec![gap, stored(3)], 3).unwrap_err(),
        CollectError::MissingHeader { era_number: 1 }
    );
}

#[test]
fn switch_blocks_of_other_eras_are_found() {
    let mut wrong = stored(2);
    wrong[1] = Some(header(5, vec![]));
    assert_eq!(
        SwitchBlocks::collect(&vec![wrong, stored(2)], 2).unwrap_err(),
        CollectError::WrongEra { era_number: 1 }
    );
}

#[test]
fn disagreements_are_found() {
    let mut other = stored(2);
    other[0] = Some(header(0, vec![1]));
    assert_eq!(
        SwitchBlocks::collect(&vec![stored(2), stored(2), other], 2).unwrap_err(),
        CollectError::Disagreement { era_number: 0 }
    );
}

#[test]
fn headers_differ_in_any_part() {
    let a = header(1, vec![]);
    assert!(a.equals(&a.duplicate()));
    let mut rest = a.duplicate();
    rest.hash.low += 1;
    assert!(!a.equals(&rest));
    let mut height = a.duplicate();
    height.height += 1;
    assert!(!a.equals(&height));
    let mut root = a.duplicate();
    root.state_root_hash.high = 1;
    assert!(!a.equals(&root));
    let mut genesis = a.duplicate();
    genesis.genesis = true;
    assert!(!a.equals(&genesis));
    let mut end = a.duplicate();
    end.era_end = None;
    assert!(!a.equals(&end));
    let mut rewards = a.duplicate();
    rewards.era_end.as_mut().unwrap().rewards = vec![(1, U512::from_u64(1))];
    assert!(!a.equals(&rewards));
    let mut weights = a.duplicate();
    weights.era_end.as_mut().unwrap().next_era_validator_weights.entries[0].1 = U512::zero();
    assert!(!a.equals(&weights));
}

#[test]
fn equivocators_are_read() {
    let nodes = vec![vec![Some(header(0, vec![4, 6]))]];
    let blocks = SwitchBlocks::collect(&nodes, 1).unwrap();
    assert_eq!(blocks.equivocators(0), [4, 6]);
}

#[test]
fn first_answer_counts() {
    let bid = |amount: u64| Bid { inactive: false, staked_amount: U512::from_u64(amount) };
    let known = |root: u128, amount: u64| StateBids {
        state_root_hash: Digest { high: 0, low: root },
        bids: vec![(1, bid(amount))],
    };
    let blocks = SwitchBlocks { headers: vec![header(0, vec![]), header(1, vec![])] };
    let nodes = vec![vec![known(0, 5)], vec![known(0, 6), known(1, 7)], vec![known(1, 8)]];
    let amount = |era: u64| blocks.bids(&nodes, era)[0].1.staked_amount.to_u64();
    assert_eq!(amount(0), Some(5));
    assert_eq!(amount(1), Some(7));
}

#[test]
fn main_reactor_is_behind_both_wrappers() {
    let runner = node(ReactorState::KeepUp, Some(3), vec![]);
    assert_eq!(runner.main_reactor().public_key, 5);
    assert_eq!(runner.main_reactor().current_era, Some(EraId::new(3)));
}

#[test]
fn all_nodes_must_be_in_the_era() {
    let in_era = |era: Option<u64>| node(ReactorState::Validate, era, vec![]);
    assert!(is_in_era(&vec![in_era(Some(2)), in_era(Some(2))], EraId::new(2)));
    assert!(!is_in_era(&vec![in_era(Some(2)), in_era(Some(3))], EraId::new(2)));
    assert!(!is_in_era(&vec![in_era(None)], EraId::new(2)));
    assert!(is_in_era(&vec![], EraId::new(2)));
}

#[test]
fn all_nodes_must_have_completed_the_era() {
    let with = |headers: Vec<BlockHeader>| node(ReactorState::Validate, None, headers);
    let done = || with(vec![header(1, vec![])]);
    assert!(has_completed_era(&vec![done(), done()], EraId::new(1)));
    assert!(!has_completed_era(&vec![done(), with(vec![])], EraId::new(1)));
    assert!(!has_completed_era(&vec![done()], EraId::new(2)));
    // The highest one counts.
    let two = with(vec![header(0, vec![]), header(1, vec![])]);
    assert!(has_completed_era(&vec![two], EraId::new(1)));
    let beyond = with(vec![header(1, vec![]), header(2, vec![])]);
    assert!(has_completed_era(&vec![done(), beyond], EraId::new(1)));
    let far_beyond = with(vec![header(5, vec![])]);
    assert!(has_completed_era(&vec![far_beyond], EraId::new(1)));
}

#[test]
fn all_nodes_must_be_initialized() {
    let state = |state: ReactorState| node(state, None, vec![]);
    assert!(all_initialized(&vec![state(ReactorState::CatchUp), state(ReactorState::Validate)]));
    assert!(!all_initialized(&vec![state(ReactorState::CatchUp), state(ReactorState::Initialize)]));
}

#[test]
fn all_nodes_must_have_executed_the_deploy() {
    let hash = |low: u128| Digest { high: 3, low };
    let with = |deploys: Vec<Digest>| {
        let mut runner = node(ReactorState::Validate, None, vec![]);
        runner.reactor.reactor.reactor.executed_deploys = deploys;
        runner
    };
    assert!(all_executed(&vec![with(vec![hash(1)]), with(vec![hash(2), hash(1)])], hash(1)));
    assert!(!all_executed(&vec![with(vec![hash(1)]), with(vec![hash(2)])], hash(1)));
    assert!(!all_executed(&vec![with(vec![])], hash(1)));
}

fn approvals(key: u64, original: Option<Vec<u64>>, finalized: Option<Vec<u64>>) -> StoredApprovals {
    StoredApprovals { public_key: key, original, finalized }
}

#[test]
fn proposer_gets_the_proposed_deploy() {
    assert_eq!(version_for(1, 1), DeployVersion::Proposed);
    assert_eq!(version_for(2, 1), DeployVersion::MoreApprovals);
}

#[test]
fn wrong_approvals_are_found() {
    let expected = vec![1, 2];
    let given = vec![1, 2, 3];
    let good = || approvals(10, Some(vec![1, 2]), None);
    let check = |other: StoredApprovals| check_approvals(&vec![good(), other], 10, &expected, &given);
    assert_eq!(check(approvals(11, Some(vec![1, 2, 3]), Some(vec![1, 2]))), Ok(()));
    assert_eq!(
        check(approvals(11, Some(vec![1, 2, 3]), None)),
        Err(ApprovalsFault::WrongFinalized { node: 1 })
    );
    assert_eq!(
        check(approvals(11, Some(vec![1, 2]), Some(vec![1, 2]))),
        Err(ApprovalsFault::WrongOriginal { node: 1 })
    );
    assert_eq!(
        check(approvals(10, Some(vec![1, 2]), Some(vec![1, 2]))),
        Err(ApprovalsFault::WrongFinalized { node: 1 })
    );
    assert_eq!(
        check(approvals(10, None, None)),
        Err(ApprovalsFault::WrongOriginal { node: 1 })
    );
    assert_eq!(
        check_approvals(&vec![good()], 10, &expected, &expected),
        Err(ApprovalsFault::SameApprovals)
    );
}
