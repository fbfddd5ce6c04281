//! Announcement effects.
//!
//! Announcements indicate new incoming data or events from various sources. Each can be shown as a
//! line of text.

use crate::primitives::EraId;
use crate::switch_blocks::ValidatorWeights;
use crate::text::{decimal, decimal_text, join_texts, joined, Describe};
use std::collections::BTreeMap;
use vstd::prelude::*;

verus! {

/// The hash of a deploy, as it is shown.
pub type DeployHash = String;

/// The hash of a block, as it is shown.
pub type BlockHash = String;

/// A deploy, by its hash.
#[derive(Debug)]
pub struct Deploy {
    /// The hash of the deploy.
    pub id: DeployHash,
}

/// A block, by its hash.
#[derive(Debug)]
pub struct Block {
    /// The hash of the block.
    pub hash: BlockHash,
}

/// A finalized block, as it is shown.
#[derive(Debug)]
pub struct FinalizedBlock {
    /// The text.
    pub text: String,
}

/// A finality signature.
#[derive(Debug)]
pub struct FinalitySignature {
    /// The hash of the block that is signed.
    pub block_hash: BlockHash,
    /// The text that the signature is shown as.
    pub text: String,
}

/// The public address of a node.
#[derive(Debug)]
pub struct GossipedAddress {
    /// The address and the port.
    pub address: String,
}

/// Something that nodes gossip about.
pub trait Item {
    /// What identifies an item.
    type Id: Describe;
}

impl Item for Deploy {
    type Id = DeployHash;
}

/// Control announcements are special announcements handled directly by the runtime/runner.
///
/// Reactors are never passed control announcements back in and every reactor event must be able to
/// be constructed from a `ControlAnnouncement` to be run.
///
/// Control announcements also use a priority queue to ensure that a component that reports a fatal
/// error is given as few follow-up events as possible. However, there currently is no guarantee
/// that this happens.
#[derive(Debug)]
#[must_use]
pub enum ControlAnnouncement {
    /// The component has encountered a fatal error and cannot continue.
    ///
    /// This usually triggers a shutdown of the component, reactor or whole application.
    FatalError {
        /// File the fatal error occurred in.
        file: &'static str,
        /// Line number where the fatal error occurred.
        line: u32,
        /// Error message.
        msg: String,
    },
}

impl Describe for ControlAnnouncement {
    open spec fn described(&self) -> Seq<char> {
        match self {
            ControlAnnouncement::FatalError { file, line, msg } => "fatal error ["@ + file@ + ":"@
                + decimal(*line as nat) + "]: "@ + msg@,
        }
    }

    fn describe(&self) -> (r: String) {
        match self {
            ControlAnnouncement::FatalError { file, line, msg } => {
                let mut text: String = "fatal error [".to_owned();
                text.append(file);
                text.append(":");
                text.append(decimal_text(*line as u64).as_str());
                text.append("]: ");
                text.append(msg.as_str());
                text
            },
        }
    }
}

/// A networking layer announcement.
#[derive(Debug)]
#[must_use]
pub enum NetworkAnnouncement<I, P> {
    /// A payload message has been received from a peer.
    MessageReceived {
        /// The sender of the message
        sender: I,
        /// The message payload
        payload: P,
    },
    /// Our public listening address should be gossiped across the network.
    GossipOurAddress(GossipedAddress),
    /// A new peer connection was established.
    ///
    /// IMPORTANT NOTE: This announcement is a work-around for some short-term functionality. Do
    ///                 not rely on or use this for anything without asking anyone that has written
    ///                 this section of the code first!
    NewPeer(I),
}

impl<I: Describe, P: Describe> Describe for NetworkAnnouncement<I, P> {
    open spec fn described(&self) -> Seq<char> {
        match self {
            NetworkAnnouncement::MessageReceived { sender, payload } => "received from "@
                + sender.described() + ": "@ + payload.described(),
            NetworkAnnouncement::GossipOurAddress(_) => "gossip our address"@,
            NetworkAnnouncement::NewPeer(id) => "new peer connection established to "@
                + id.described(),
        }
    }

    fn describe(&self) -> (r: String) {
        match self {
            NetworkAnnouncement::MessageReceived { sender, payload } => {
                let mut text: String = "received from ".to_owned();
                text.append(sender.describe().as_str());
                text.append(": ");
                text.append(payload.describe().as_str());
                text
            },
            NetworkAnnouncement::GossipOurAddress(_) => "gossip our address".to_owned(),
            NetworkAnnouncement::NewPeer(id) => {
                let mut text: String = "new peer connection established to ".to_owned();
                text.append(id.describe().as_str());
                text
            },
        }
    }
}

/// An RPC API server announcement, with a responder of type `R`.
#[derive(Debug)]
#[must_use]
pub enum RpcServerAnnouncement<R> {
    /// A new deploy received.
    DeployReceived {
        /// The received deploy.
        deploy: Box<Deploy>,
        /// A client responder in the case where a client submits a deploy.
        responder: Option<R>,
    },
}

impl<R> Describe for RpcServerAnnouncement<R> {
    open spec fn described(&self) -> Seq<char> {
        match self {
            RpcServerAnnouncement::DeployReceived { deploy, .. } => "api server received "@
                + deploy.id@,
        }
    }

    fn describe(&self) -> (r: String) {
        match self {
            RpcServerAnnouncement::DeployReceived { deploy, .. } => {
                let mut text: String = "api server received ".to_owned();
                text.append(deploy.id.as_str());
                text
            },
        }
    }
}

/// A `DeployAcceptor` announcement, with a deploy's source of type `S`.
#[derive(Debug)]
pub enum DeployAcceptorAnnouncement<S> {
    /// A deploy which wasn't previously stored on this node has been accepted and stored.
    AcceptedNewDeploy {
        /// The new deploy.
        deploy: Box<Deploy>,
        /// The source (peer or client) of the deploy.
        source: S,
    },
    /// An invalid deploy was received.
    InvalidDeploy {
        /// The invalid deploy.
        deploy: Box<Deploy>,
        /// The source (peer or client) of the deploy.
        source: S,
    },
}

impl<S: Describe> Describe for DeployAcceptorAnnouncement<S> {
    open spec fn described(&self) -> Seq<char> {
        match self {
            DeployAcceptorAnnouncement::AcceptedNewDeploy { deploy, source } =>
                "accepted new deploy "@ + deploy.id@ + " from "@ + source.described(),
            DeployAcceptorAnnouncement::InvalidDeploy { deploy, source } => "invalid deploy "@
                + deploy.id@ + " from "@ + source.described(),
        }
    }

    fn describe(&self) -> (r: String) {
        match self {
            DeployAcceptorAnnouncement::AcceptedNewDeploy { deploy, source } => {
                let mut text: String = "accepted new deploy ".to_owned();
                text.append(deploy.id.as_str());
                text.append(" from ");
                text.append(source.describe().as_str());
                text
            },
            DeployAcceptorAnnouncement::InvalidDeploy { deploy, source } => {
                let mut text: String = "invalid deploy ".to_owned();
                text.append(deploy.id.as_str());
                text.append(" from ");
                text.append(source.describe().as_str());
                text
            },
        }
    }
}

/// A block proposer announcement.
#[derive(Debug)]
pub enum BlockProposerAnnouncement {
    /// Hashes of the deploys that expired.
    DeploysExpired(Vec<DeployHash>),
}

impl Describe for BlockProposerAnnouncement {
    open spec fn described(&self) -> Seq<char> {
        match self {
            BlockProposerAnnouncement::DeploysExpired(hashes) => "pruned hashes: "@ + joined(
                hashes@.map_values(|t: String| t@),
                ", "@,
            ),
        }
    }

    fn describe(&self) -> (r: String) {
        match self {
            BlockProposerAnnouncement::DeploysExpired(hashes) => {
                let mut text: String = "pruned hashes: ".to_owned();
                text.append(join_texts(hashes, ", ").as_str());
                text
            },
        }
    }
}

/// A consensus announcement, with public keys of type `K` and timestamps of type `T`.
#[derive(Debug)]
pub enum ConsensusAnnouncement<K, T> {
    /// A block was finalized.
    Finalized(Box<FinalizedBlock>),
    /// A finality signature was created.
    CreatedFinalitySignature(Box<FinalitySignature>),
    /// An equivocation has been detected.
    Fault {
        /// The Id of the era in which the equivocation was detected
        era_id: EraId,
        /// The public key of the equivocator.
        public_key: Box<K>,
        /// The timestamp when the evidence of the equivocation was detected.
        timestamp: T,
    },
}

impl<K: Describe, T: Describe> Describe for ConsensusAnnouncement<K, T> {
    open spec fn described(&self) -> Seq<char> {
        match self {
            ConsensusAnnouncement::Finalized(block) => "finalized block payload "@ + block.text@,
            ConsensusAnnouncement::CreatedFinalitySignature(fs) => "signed an executed block: "@
                + fs.text@,
            ConsensusAnnouncement::Fault { era_id, public_key, timestamp } =>
                "Validator fault with public key: "@ + public_key.described()
                + " has been identified at time: "@ + timestamp.described() + " in era: "@
                + era_id.described(),
        }
    }

    fn describe(&self) -> (r: String) {
        match self {
            ConsensusAnnouncement::Finalized(block) => {
                let mut text: String = "finalized block payload ".to_owned();
                text.append(block.text.as_str());
                text
            },
            ConsensusAnnouncement::CreatedFinalitySignature(fs) => {
                let mut text: String = "signed an executed block: ".to_owned();
                text.append(fs.text.as_str());
                text
            },
            ConsensusAnnouncement::Fault { era_id, public_key, timestamp } => {
                let mut text: String = "Validator fault with public key: ".to_owned();
                text.append(public_key.describe().as_str());
                text.append(" has been identified at time: ");
                text.append(timestamp.describe().as_str());
                text.append(" in era: ");
                text.append(era_id.describe().as_str());
                text
            },
        }
    }
}

/// A block-list related announcement.
#[derive(Debug)]
pub enum BlocklistAnnouncement<I> {
    /// A given peer committed a blockable offense.
    OffenseCommitted(Box<I>),
}

impl<I: Describe> Describe for BlocklistAnnouncement<I> {
    open spec fn described(&self) -> Seq<char> {
        match self {
            BlocklistAnnouncement::OffenseCommitted(peer) => "peer "@ + peer.described()
                + " committed offense"@,
        }
    }

    fn describe(&self) -> (r: String) {
        match self {
            BlocklistAnnouncement::OffenseCommitted(peer) => {
                let mut text: String = "peer ".to_owned();
                text.append(peer.describe().as_str());
                text.append(" committed offense");
                text
            },
        }
    }
}

/// A ContractRuntime announcement, with execution results of type `R` and execution effects of type
/// `X`.
#[derive(Debug)]
pub enum ContractRuntimeAnnouncement<R, X> {
    /// A new block from the linear chain was produced.
    LinearChainBlock(Box<LinearChainBlock<R>>),
    /// A Step succeeded and has altered global state.
    StepSuccess {
        /// The era id in which the step was committed to global state.
        era_id: EraId,
        /// The operations and transforms committed to global state.
        execution_effect: X,
    },
    /// New era validators.
    UpcomingEraValidators {
        /// The era id in which the step was committed to global state.
        era_that_is_ending: EraId,
        /// The validators for the eras after the `era_that_is_ending` era, by the eras' numbers.
        upcoming_era_validators: BTreeMap<u64, ValidatorWeights>,
    },
}

impl<R, X> ContractRuntimeAnnouncement<R, X> {
    /// Create a ContractRuntimeAnnouncement::LinearChainBlock from its parts.
    pub fn linear_chain_block(block: Block, execution_results: R) -> (r: Self)
        ensures
            r == ContractRuntimeAnnouncement::<R, X>::LinearChainBlock(
                Box::new((LinearChainBlock { block, execution_results })),
            ),
    {
        Self::LinearChainBlock(Box::new(LinearChainBlock { block, execution_results }))
    }

    /// Create a ContractRuntimeAnnouncement::StepSuccess from an execution effect.
    pub fn step_success(era_id: EraId, execution_effect: X) -> (r: Self)
        ensures
            r == (ContractRuntimeAnnouncement::<R, X>::StepSuccess { era_id, execution_effect }),
    {
        Self::StepSuccess { era_id, execution_effect }
    }
}

/// A ContractRuntimeAnnouncement's block.
#[derive(Debug)]
pub struct LinearChainBlock<R> {
    /// The block.
    pub block: Block,
    /// The results of executing the deploys in this block.
    pub execution_results: R,
}

impl<R, X> Describe for ContractRuntimeAnnouncement<R, X> {
    open spec fn described(&self) -> Seq<char> {
        match self {
            ContractRuntimeAnnouncement::LinearChainBlock(linear_chain_block) =>
                "created linear chain block "@ + linear_chain_block.block.hash@,
            ContractRuntimeAnnouncement::StepSuccess { era_id, .. } => "step completed for "@
                + era_id.described(),
            ContractRuntimeAnnouncement::UpcomingEraValidators { era_that_is_ending, .. } =>
                "upcoming era validators after current "@ + era_that_is_ending.described() + "."@,
        }
    }

    fn describe(&self) -> (r: String) {
        match self {
            ContractRuntimeAnnouncement::LinearChainBlock(linear_chain_block) => {
                let mut text: String = "created linear chain block ".to_owned();
                text.append(linear_chain_block.block.hash.as_str());
                text
            },
            ContractRuntimeAnnouncement::StepSuccess { era_id, .. } => {
                let mut text: String = "step completed for ".to_owned();
                text.append(era_id.describe().as_str());
                text
            },
            ContractRuntimeAnnouncement::UpcomingEraValidators { era_that_is_ending, .. } => {
                let mut text: String = "upcoming era validators after current ".to_owned();
                text.append(era_that_is_ending.describe().as_str());
                text.append(".");
                text
            },
        }
    }
}

/// A Gossiper announcement.
#[derive(Debug)]
pub enum GossiperAnnouncement<T: Item> {
    /// A new item has been received, where the item's ID is the complete item.
    NewCompleteItem(T::Id),
    /// Finished gossiping about the indicated item.
    FinishedGossiping(T::Id),
}

impl<T: Item> Describe for GossiperAnnouncement<T> {
    open spec fn described(&self) -> Seq<char> {
        match self {
            GossiperAnnouncement::NewCompleteItem(item) => "new complete item "@
                + item.described(),
            GossiperAnnouncement::FinishedGossiping(item_id) => "finished gossiping "@
                + item_id.described(),
        }
    }

    fn describe(&self) -> (r: String) {
        match self {
            GossiperAnnouncement::NewCompleteItem(item) => {
                let mut text: String = "new complete item ".to_owned();
                text.append(item.describe().as_str());
                text
            },
            GossiperAnnouncement::FinishedGossiping(item_id) => {
                let mut text: String = "finished gossiping ".to_owned();
                text.append(item_id.describe().as_str());
                text
            },
        }
    }
}

/// A linear chain announcement.
#[derive(Debug)]
pub enum LinearChainAnnouncement {
    /// A new block has been created and stored locally.
    BlockAdded(Box<Block>),
    /// New finality signature received.
    NewFinalitySignature(Box<FinalitySignature>),
}

impl Describe for LinearChainAnnouncement {
    open spec fn described(&self) -> Seq<char> {
        match self {
            LinearChainAnnouncement::BlockAdded(block) => "block added "@ + block.hash@,
            LinearChainAnnouncement::NewFinalitySignature(fs) => "new finality signature "@
                + fs.block_hash@,
        }
    }

    fn describe(&self) -> (r: String) {
        match self {
            LinearChainAnnouncement::BlockAdded(block) => {
                let mut text: String = "block added ".to_owned();
                text.append(block.hash.as_str());
                text
            },
            LinearChainAnnouncement::NewFinalitySignature(fs) => {
                let mut text: String = "new finality signature ".to_owned();
                text.append(fs.block_hash.as_str());
                text
            },
        }
    }
}

/// A chainspec loader announcement, with upgrades of type `U`.
#[derive(Debug)]
pub enum ChainspecLoaderAnnouncement<U> {
    /// New upgrade recognized.
    UpgradeActivationPointRead(U),
}

impl<U: Describe> Describe for ChainspecLoaderAnnouncement<U> {
    open spec fn described(&self) -> Seq<char> {
        match self {
            ChainspecLoaderAnnouncement::UpgradeActivationPointRead(next_upgrade) => "read "@
                + next_upgrade.described(),
        }
    }

    fn describe(&self) -> (r: String) {
        match self {
            ChainspecLoaderAnnouncement::UpgradeActivationPointRead(next_upgrade) => {
                let mut text: String = "read ".to_owned();
                text.append(next_upgrade.describe().as_str());
                text
            },
        }
    }
}

/// A fatal error is shown with its file, its line and its message.
pub proof fn lemma_fatal_error_text(announcement: ControlAnnouncement)
    ensures
        announcement.described() == "fatal error ["@ + announcement->file@ + ":"@ + decimal(
            announcement->line as nat,
        ) + "]: "@ + announcement->msg@,
{
}

/// A message is shown with its sender and its payload, a new peer with its identity.
pub proof fn lemma_network_texts<I: Describe, P: Describe>(announcement: NetworkAnnouncement<I, P>)
    ensures
        announcement is MessageReceived ==> announcement.described() == "received from "@
            + announcement->sender.described() + ": "@ + announcement->payload.described(),
        announcement is GossipOurAddress ==> announcement.described() == "gossip our address"@,
        announcement is NewPeer ==> announcement.described()
            == "new peer connection established to "@ + announcement->NewPeer_0.described(),
{
}

/// A deploy is shown by its hash, and where it says where it came from, with its source.
pub proof fn lemma_deploy_texts<R, S: Describe>(
    received: RpcServerAnnouncement<R>,
    judged: DeployAcceptorAnnouncement<S>,
)
    ensures
        received.described() == "api server received "@ + received->deploy.id@,
        judged matches DeployAcceptorAnnouncement::AcceptedNewDeploy { deploy, source }
            ==> judged.described() == "accepted new deploy "@ + deploy.id@ + " from "@
            + source.described(),
        judged matches DeployAcceptorAnnouncement::InvalidDeploy { deploy, source }
            ==> judged.described() == "invalid deploy "@ + deploy.id@ + " from "@
            + source.described(),
{
}

/// Expired deploys are shown by their hashes, with commas between them.
pub proof fn lemma_expired_text(announcement: BlockProposerAnnouncement)
    ensures
        announcement.described() == "pruned hashes: "@ + joined(
            announcement->DeploysExpired_0@.map_values(|t: String| t@),
            ", "@,
        ),
{
}

/// A finalized block and a finality signature are shown as they are, a fault with the validator, the time
/// and the era.
pub proof fn lemma_consensus_texts<K: Describe, T: Describe>(
    announcement: ConsensusAnnouncement<K, T>,
)
    ensures
        announcement matches ConsensusAnnouncement::Finalized(block) ==> announcement.described()
            == "finalized block payload "@ + block.text@,
        announcement matches ConsensusAnnouncement::CreatedFinalitySignature(signature)
            ==> announcement.described() == "signed an executed block: "@ + signature.text@,
        announcement is Fault ==> announcement.described() == "Validator fault with public key: "@
            + announcement->public_key.described() + " has been identified at time: "@
            + announcement->timestamp.described() + " in era: "@ + "era "@ + decimal(
            announcement->era_id.number as nat,
        ),
{
    if let ConsensusAnnouncement::Fault { era_id, public_key, timestamp } = announcement {
        let before = "Validator fault with public key: "@ + public_key.described()
            + " has been identified at time: "@ + timestamp.described() + " in era: "@;
        assert(before + era_id.described() =~= before + "era "@ + decimal(era_id.number as nat));
    }
}

/// An offense is shown with the peer that committed it.
pub proof fn lemma_offense_text<I: Describe>(announcement: BlocklistAnnouncement<I>)
    ensures
        announcement.described() == "peer "@ + announcement->OffenseCommitted_0.described()
            + " committed offense"@,
{
}

/// A new block is shown by its hash, a step and the next validators by the era.
pub proof fn lemma_contract_runtime_texts<R, X>(announcement: ContractRuntimeAnnouncement<R, X>)
    ensures
        announcement matches ContractRuntimeAnnouncement::LinearChainBlock(created)
            ==> announcement.described() == "created linear chain block "@ + created.block.hash@,
        announcement is StepSuccess ==> announcement.described() == "step completed for "@ + "era "@
            + decimal(announcement->era_id.number as nat),
        announcement is UpcomingEraValidators ==> announcement.described()
            == "upcoming era validators after current "@ + "era "@ + decimal(
            announcement->era_that_is_ending.number as nat,
        ) + "."@,
{
    if announcement is StepSuccess {
        let n = announcement->era_id.number as nat;
        assert("step completed for "@ + ("era "@ + decimal(n)) =~= "step completed for "@ + "era "@
            + decimal(n));
    }
    if announcement is UpcomingEraValidators {
        let n = announcement->era_that_is_ending.number as nat;
        let text = "upcoming era validators after current "@;
        assert(text + ("era "@ + decimal(n)) + "."@ =~= text + "era "@ + decimal(n) + "."@);
    }
}

/// Items are shown by their identities, blocks and signatures by the hash of the block, and an upgrade
/// as it is.
pub proof fn lemma_other_texts<T: Item, U: Describe>(
    gossip: GossiperAnnouncement<T>,
    chain: LinearChainAnnouncement,
    upgrade: ChainspecLoaderAnnouncement<U>,
)
    ensures
        gossip matches GossiperAnnouncement::NewCompleteItem(item) ==> gossip.described()
            == "new complete item "@ + item.described(),
        gossip matches GossiperAnnouncement::FinishedGossiping(item) ==> gossip.described()
            == "finished gossiping "@ + item.described(),
        chain matches LinearChainAnnouncement::BlockAdded(block) ==> chain.described()
            == "block added "@ + block.hash@,
        chain matches LinearChainAnnouncement::NewFinalitySignature(signature) ==> chain.described()
            == "new finality signature "@ + signature.block_hash@,
        upgrade.described() == "read "@ + upgrade->UpgradeActivationPointRead_0.described(),
{
}

} // verus!
