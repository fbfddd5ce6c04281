use casper_node::announcements::{
    Block, BlockProposerAnnouncement, BlocklistAnnouncement, ChainspecLoaderAnnouncement,
    ConsensusAnnouncement, ContractRuntimeAnnouncement, ControlAnnouncement, Deploy,
    DeployAcceptorAnnouncement, FinalitySignature, FinalizedBlock, GossipedAddress,
    GossiperAnnouncement, LinearChainAnnouncement, NetworkAnnouncement, RpcServerAnnouncement,
};
use casper_node::primitives::EraId;
use casper_node::text::{decimal_text, Describe};
use std::collections::BTreeMap;

fn text(s: &str) -> String {
    s.to_string()
}

fn deploy(id: &str) -> Box<Deploy> {
    Box::new(Deploy { id: text(id) })
}

#[test]
fn numbers_are_written_in_decimal() {
    assert_eq!(decimal_text(0), "0");
    assert_eq!(decimal_text(10), "10");
    assert_eq!(decimal_text(9_876_543_210), "9876543210");
    assert_eq!(decimal_text(u64::MAX), "18446744073709551615");
    assert_eq!(EraId::new(37).describe(), "era 37");
}

#[test]
fn control_announcement_text() {
    let fatal = ControlAnnouncement::FatalError { file: "main.rs", line: 42, msg: text("boom") };
    assert_eq!(fatal.describe(), "fatal error [main.rs:42]: boom");
}

#[test]
fn network_announcement_texts() {
    let received: NetworkAnnouncement<String, String> = NetworkAnnouncement::MessageReceived {
        sender: text("peer-1"),
        payload: text("hello"),
    };
    assert_eq!(received.describe(), "received from peer-1: hello");
    let gossip: NetworkAnnouncement<String, String> =
        NetworkAnnouncement::GossipOurAddress(GossipedAddress { address: text("127.0.0.1:1") });
    assert_eq!(gossip.describe(), "gossip our address");
    let peer: NetworkAnnouncement<String, String> = NetworkAnnouncement::NewPeer(text("peer-2"));
    assert_eq!(peer.describe(), "new peer connection established to peer-2");
}

#[test]
fn rpc_server_announcement_text() {
    let received: RpcServerAnnouncement<u8> =
        RpcServerAnnouncement::DeployReceived { deploy: deploy("abc"), responder: None };
    assert_eq!(received.describe(), "api server received abc");
}

#[test]
fn deploy_acceptor_announcement_texts() {
    let accepted = DeployAcceptorAnnouncement::AcceptedNewDeploy {
        deploy: deploy("d1"),
        source: text("client"),
    };
    assert_eq!(accepted.describe(), "accepted new deploy d1 from client");
    let invalid =
        DeployAcceptorAnnouncement::InvalidDeploy { deploy: deploy("d2"), source: text("peer") };
    assert_eq!(invalid.describe(), "invalid deploy d2 from peer");
}

#[test]
fn expired_deploys_are_joined_by_commas() {
    let none = BlockProposerAnnouncement::DeploysExpired(vec![]);
    assert_eq!(none.describe(), "pruned hashes: ");
    let one = BlockProposerAnnouncement::DeploysExpired(vec![text("a")]);
    assert_eq!(one.describe(), "pruned hashes: a");
    let three = BlockProposerAnnouncement::DeploysExpired(vec![text("a"), text("b"), text("c")]);
    assert_eq!(three.describe(), "pruned hashes: a, b, c");
}

#[test]
fn consensus_announcement_texts() {
    let finalized: ConsensusAnnouncement<String, String> =
        ConsensusAnnouncement::Finalized(Box::new(FinalizedBlock { text: text("block 7") }));
    assert_eq!(finalized.describe(), "finalized block payload block 7");
    let signed: ConsensusAnnouncement<String, String> =
        ConsensusAnnouncement::CreatedFinalitySignature(Box::new(FinalitySignature {
            block_hash: text("hash"),
            text: text("signature for hash"),
        }));
    assert_eq!(signed.describe(), "signed an executed block: signature for hash");
    let fault: ConsensusAnnouncement<String, String> = ConsensusAnnouncement::Fault {
        era_id: EraId::new(3),
        public_key: Box::new(text("key")),
        timestamp: text("noon"),
    };
    assert_eq!(
        fault.describe(),
        "Validator fault with public key: key has been identified at time: noon in era: era 3"
    );
}

#[test]
fn blocklist_announcement_text() {
    let offense = BlocklistAnnouncement::OffenseCommitted(Box::new(text("peer-9")));
    assert_eq!(offense.describe(), "peer peer-9 committed offense");
}

#[test]
fn contract_runtime_announcement_texts() {
    let block: ContractRuntimeAnnouncement<Vec<u8>, u32> =
        ContractRuntimeAnnouncement::linear_chain_block(Block { hash: text("b1") }, vec![1, 2]);
    assert_eq!(block.describe(), "created linear chain block b1");
    match block {
        ContractRuntimeAnnouncement::LinearChainBlock(inner) => {
            assert_eq!(inner.execution_results, vec![1, 2]);
        }
        _ => panic!("unexpected announcement"),
    }
    let step: ContractRuntimeAnnouncement<Vec<u8>, u32> =
        ContractRuntimeAnnouncement::step_success(EraId::new(8), 77);
    assert_eq!(step.describe(), "step completed for era 8");
    assert!(matches!(
        step,
        ContractRuntimeAnnouncement::StepSuccess { era_id: EraId { number: 8 }, execution_effect: 77 }
    ));
    let upcoming: ContractRuntimeAnnouncement<Vec<u8>, u32> =
        ContractRuntimeAnnouncement::UpcomingEraValidators {
            era_that_is_ending: EraId::new(5),
            upcoming_era_validators: BTreeMap::new(),
        };
    assert_eq!(upcoming.describe(), "upcoming era validators after current era 5.");
}

#[test]
fn gossiper_announcement_texts() {
    let complete: GossiperAnnouncement<Deploy> =
        GossiperAnnouncement::NewCompleteItem(text("item"));
    assert_eq!(complete.describe(), "new complete item item");
    let finished: GossiperAnnouncement<Deploy> =
        GossiperAnnouncement::FinishedGossiping(text("id"));
    assert_eq!(finished.describe(), "finished gossiping id");
}

#[test]
fn linear_chain_announcement_texts() {
    let added = LinearChainAnnouncement::BlockAdded(Box::new(Block { hash: text("b2") }));
    assert_eq!(added.describe(), "block added b2");
    let signature = LinearChainAnnouncement::NewFinalitySignature(Box::new(FinalitySignature {
        block_hash: text("b3"),
        text: text("signature"),
    }));
    assert_eq!(signature.describe(), "new finality signature b3");
}

#[test]
fn chainspec_loader_announcement_text() {
    let read = ChainspecLoaderAnnouncement::UpgradeActivationPointRead(text("next upgrade"));
    assert_eq!(read.describe(), "read next upgrade");
}
