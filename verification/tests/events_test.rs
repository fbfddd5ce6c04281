use casper_node::events::{
    accuse, everyone_else, is_ping, BlockPayload, ConsensusMessage, ContractRuntimeRequest,
    ExecutionDelayFilter, FilterAction, FinalizedBlock, HighwayMessage, HighwayVertex,
    HoldBackFilter, MainEvent, Message, NetworkRequest, NewBlockPayload, PingFilter,
};
use casper_node::primitives::{Digest, EraId, TimeDiff, Timestamp};

type Event = MainEvent<u32, &'static str>;

fn vertex(vertex: HighwayVertex) -> Event {
    MainEvent::ConsensusMessageIncoming(ConsensusMessage::Protocol {
        payload: Some(HighwayMessage::NewVertex(vertex)),
    })
}

fn at(millis: u64) -> Timestamp {
    Timestamp { millis }
}

fn delay(millis: u64) -> FilterAction {
    FilterAction::Delay(TimeDiff { millis })
}

fn execution(era: u64, has_era_report: bool) -> Event {
    MainEvent::ContractRuntimeRequest(ContractRuntimeRequest::EnqueueBlockForExecution {
        finalized_block: FinalizedBlock { era_id: EraId::new(era), has_era_report },
    })
}

#[test]
fn only_ping_vertices_are_pings() {
    assert!(is_ping(&vertex(HighwayVertex::Ping)));
    assert!(!is_ping(&vertex(HighwayVertex::Unit)));
    assert!(!is_ping(&vertex(HighwayVertex::Evidence)));
    assert!(!is_ping(&vertex(HighwayVertex::Endorsements)));
}

#[test]
fn other_messages_are_no_pings() {
    let undecodable: Event =
        MainEvent::ConsensusMessageIncoming(ConsensusMessage::Protocol { payload: None });
    assert!(!is_ping(&undecodable));
    let other: Event = MainEvent::ConsensusMessageIncoming(ConsensusMessage::Protocol {
        payload: Some(HighwayMessage::Other),
    });
    assert!(!is_ping(&other));
    let evidence_request: Event = MainEvent::ConsensusMessageIncoming(ConsensusMessage::Other);
    assert!(!is_ping(&evidence_request));
    assert!(!is_ping(&Event::Other("tick")));
}

#[test]
fn ping_filter_delays_pings_for_thirty_rounds() {
    let filter = PingFilter { min_round_len: TimeDiff::from_millis(4_000) };
    assert_eq!(filter.decide(&vertex(HighwayVertex::Ping)), delay(120_000));
    assert_eq!(filter.decide(&vertex(HighwayVertex::Unit)), FilterAction::Pass);
}

#[test]
fn hold_back_filter_delays_for_three_rounds_after_the_first_message() {
    let mut filter = HoldBackFilter::new(TimeDiff::from_millis(1_000));
    // Pings and other events do not count as messages.
    assert_eq!(filter.decide(&vertex(HighwayVertex::Ping), at(10)), delay(30_000));
    assert_eq!(filter.decide(&Event::Other("tick"), at(10)), FilterAction::Pass);
    assert_eq!(filter.first_message_time, None);
    // The first message sets the time.
    assert_eq!(filter.decide(&vertex(HighwayVertex::Unit), at(500)), delay(1_000));
    assert_eq!(filter.first_message_time, Some(at(500)));
    assert_eq!(filter.decide(&vertex(HighwayVertex::Unit), at(3_499)), delay(1_000));
    assert_eq!(filter.decide(&vertex(HighwayVertex::Unit), at(3_500)), FilterAction::Pass);
    assert_eq!(filter.decide(&vertex(HighwayVertex::Unit), at(9_000)), FilterAction::Pass);
    assert_eq!(filter.first_message_time, Some(at(500)));
    assert_eq!(filter.decide(&vertex(HighwayVertex::Ping), at(9_000)), delay(30_000));
}

#[test]
fn hold_back_filter_delays_outgoing_consensus_messages() {
    let requests = [
        NetworkRequest::SendMessage { payload: Message::Consensus },
        NetworkRequest::ValidatorBroadcast { payload: Message::Consensus },
        NetworkRequest::Gossip { payload: Message::Consensus },
    ];
    for request in requests {
        let mut filter = HoldBackFilter::new(TimeDiff::from_millis(5));
        assert_eq!(filter.decide(&Event::NetworkRequest(request), at(1)), delay(5));
    }
    let mut filter = HoldBackFilter::new(TimeDiff::from_millis(5));
    let other = Event::NetworkRequest(NetworkRequest::Gossip { payload: Message::Other });
    assert_eq!(filter.decide(&other, at(1)), FilterAction::Pass);
    assert_eq!(filter.first_message_time, None);
}

#[test]
fn hold_back_filter_at_the_end_of_time() {
    let mut filter = HoldBackFilter::new(TimeDiff::from_millis(7));
    assert_eq!(filter.decide(&vertex(HighwayVertex::Unit), at(u64::MAX)), delay(7));
}

#[test]
fn execution_is_delayed_once() {
    let mut filter = ExecutionDelayFilter::new(EraId::new(1));
    assert_eq!(filter.decide(&execution(0, true)), FilterAction::Pass);
    assert_eq!(filter.decide(&execution(1, false)), FilterAction::Pass);
    assert_eq!(filter.decide(&Event::Other("tick")), FilterAction::Pass);
    assert!(!filter.exec_request_received);
    assert_eq!(filter.decide(&execution(1, true)), delay(10_000));
    assert!(filter.exec_request_received);
    assert_eq!(filter.decide(&execution(1, true)), FilterAction::Pass);
}

#[test]
fn accusing_replaces_only_the_payload() {
    let event: Event = MainEvent::NewBlockPayload(NewBlockPayload {
        era_id: EraId::new(6),
        block_payload: BlockPayload {
            deploys: vec![Digest { high: 1, low: 1 }],
            transfers: vec![Digest { high: 2, low: 2 }],
            accusations: vec![],
            rewarded_signatures: vec![],
            random_bit: true,
        },
        block_context: 99,
    });
    match accuse(event, &vec![3, 4]) {
        MainEvent::NewBlockPayload(proposal) => {
            assert_eq!(proposal.era_id, EraId::new(6));
            assert_eq!(proposal.block_context, 99);
            assert!(proposal.block_payload.deploys.is_empty());
            assert!(proposal.block_payload.transfers.is_empty());
            assert_eq!(proposal.block_payload.accusations, vec![3, 4]);
            assert!(proposal.block_payload.rewarded_signatures.is_empty());
            assert!(!proposal.block_payload.random_bit);
        }
        _ => panic!("unexpected event"),
    }
    assert!(matches!(accuse(Event::Other("tick"), &vec![3]), MainEvent::Other("tick")));
}

#[test]
fn everyone_but_one_is_listed() {
    assert_eq!(everyone_else(&vec![1, 2, 3, 4], 1), vec![2, 3, 4]);
    assert_eq!(everyone_else(&vec![5, 2, 5], 5), vec![2]);
    assert_eq!(everyone_else(&vec![1, 2], 9), vec![1, 2]);
    assert!(everyone_else(&vec![], 9).is_empty());
}
