//! The nodes of a test network, and conditions on all of them.

use crate::primitives::{Digest, EraId, PublicKey};
use crate::switch_blocks::BlockHeader;
use vstd::prelude::*;

verus! {

/// What a node's reactor is doing.
#[derive(Clone, Copy, Debug, PartialEq, Eq, Structural)]
pub enum ReactorState {
    /// It sets itself up.
    Initialize,
    /// It catches up with the network.
    CatchUp,
    /// It carries out an upgrade of the protocol.
    Upgrading,
    /// It keeps up with the network.
    KeepUp,
    /// It takes part in consensus.
    Validate,
    /// It stops, to be upgraded.
    ShutdownForUpgrade,
}

/// What can be read off a node's reactor.
#[derive(Debug)]
pub struct MainReactor {
    /// What the reactor is doing.
    pub state: ReactorState,
    /// The key of the node's validator.
    pub public_key: PublicKey,
    /// The era that consensus is in, if it has begun.
    pub current_era: Option<EraId>,
    /// The highest switch block headers in storage, the highest last.
    pub highest_switch_block_headers: Vec<BlockHeader>,
    /// The hashes of the deploys for which storage has metadata, because they have been executed.
    pub executed_deploys: Vec<Digest>,
}

/// A reactor whose events pass through a filter.
#[derive(Debug)]
pub struct FilterReactor<R> {
    /// The reactor behind the filter.
    pub reactor: R,
}

impl<R> FilterReactor<R> {
    /// The reactor behind the filter.
    pub fn inner(&self) -> (r: &R)
        ensures
            *r == self.reactor,
    {
        &self.reactor
    }
}

/// A reactor whose events are watched for a condition.
#[derive(Debug)]
pub struct ConditionCheckReactor<R> {
    /// The reactor that is watched.
    pub reactor: R,
}

impl<R> ConditionCheckReactor<R> {
    /// The reactor that is watched.
    pub fn inner(&self) -> (r: &R)
        ensures
            *r == self.reactor,
    {
        &self.reactor
    }
}

/// What runs a reactor.
#[derive(Debug)]
pub struct Runner<R> {
    /// The reactor.
    pub reactor: R,
}

impl<R> Runner<R> {
    /// The reactor.
    pub fn reactor(&self) -> (r: &R)
        ensures
            *r == self.reactor,
    {
        &self.reactor
    }
}

/// What runs a node of a test network.
pub type NodeRunner = Runner<ConditionCheckReactor<FilterReactor<MainReactor>>>;

impl Runner<ConditionCheckReactor<FilterReactor<MainReactor>>> {
    /// The reactor of the node itself.
    pub fn main_reactor(&self) -> (r: &MainReactor)
        ensures
            *r == self.reactor.reactor.reactor,
    {
        self.reactor().inner().inner()
    }
}

/// The nodes of a test network.
pub type Nodes = Vec<NodeRunner>;

/// The reactor of the node at place `i`.
pub open spec fn node(nodes: Nodes, i: int) -> MainReactor {
    nodes@[i].reactor.reactor.reactor
}

/// The last of the headers, which is the highest, belongs to the era or to a later one.
pub open spec fn reached_end_of(headers: Seq<BlockHeader>, era_id: EraId) -> bool {
    headers.len() > 0 && headers.last().era_id.number >= era_id.number
}

/// Tells whether all nodes are in the given era.
pub fn is_in_era(nodes: &Nodes, era_id: EraId) -> (r: bool)
    ensures
        r <==> forall|i: int|
            0 <= i < nodes@.len() ==> (#[trigger] node(*nodes, i)).current_era == Some(era_id),
{
    let mut i: usize = 0;
    while i < nodes.len()
        invariant
            i <= nodes@.len(),
            forall|j: int|
                0 <= j < i ==> (#[trigger] node(*nodes, j)).current_era == Some(era_id),
        decreases nodes@.len() - i,
    {
        assert(nodes@[i as int].reactor.reactor.reactor == node(*nodes, i as int));
        if nodes[i].main_reactor().current_era != Some(era_id) {
            return false;
        }
        i += 1;
    }
    true
}

/// Tells whether all nodes have completed the given era.
pub fn has_completed_era(nodes: &Nodes, era_id: EraId) -> (r: bool)
    ensures
        r <==> forall|i: int|
            0 <= i < nodes@.len() ==> reached_end_of(
                (#[trigger] node(*nodes, i)).highest_switch_block_headers@,
                era_id,
            ),
{
    let mut i: usize = 0;
    while i < nodes.len()
        invariant
            i <= nodes@.len(),
            forall|j: int|
                0 <= j < i ==> reached_end_of(
                    (#[trigger] node(*nodes, j)).highest_switch_block_headers@,
                    era_id,
                ),
        decreases nodes@.len() - i,
    {
        assert(nodes@[i as int].reactor.reactor.reactor == node(*nodes, i as int));
        let headers: &Vec<BlockHeader> = &nodes[i].main_reactor().highest_switch_block_headers;
        if headers.len() == 0 || headers[headers.len() - 1].era_id.number
            < era_id.number {
            return false;
        }
        i += 1;
    }
    true
}

/// Tells whether all nodes have finished setting themselves up.
pub fn all_initialized(nodes: &Nodes) -> (r: bool)
    ensures
        r <==> forall|i: int|
            0 <= i < nodes@.len() ==> (#[trigger] node(*nodes, i)).state
                != ReactorState::Initialize,
{
    let mut i: usize = 0;
    while i < nodes.len()
        invariant
            i <= nodes@.len(),
            forall|j: int|
                0 <= j < i ==> (#[trigger] node(*nodes, j)).state != ReactorState::Initialize,
        decreases nodes@.len() - i,
    {
        assert(nodes@[i as int].reactor.reactor.reactor == node(*nodes, i as int));
        if nodes[i].main_reactor().state == ReactorState::Initialize {
            return false;
        }
        i += 1;
    }
    true
}

fn has_executed(reactor: &MainReactor, deploy_hash: Digest) -> (r: bool)
    ensures
        r == reactor.executed_deploys@.contains(deploy_hash),
{
    let mut i: usize = 0;
    while i < reactor.executed_deploys.len()
        invariant
            i <= reactor.executed_deploys@.len(),
            forall|j: int| 0 <= j < i ==> reactor.executed_deploys@[j] != deploy_hash,
        decreases reactor.executed_deploys@.len() - i,
    {
        if reactor.executed_deploys[i] == deploy_hash {
            return true;
        }
        i += 1;
    }
    false
}

/// Tells whether all nodes have executed the given deploy.
pub fn all_executed(nodes: &Nodes, deploy_hash: Digest) -> (r: bool)
    ensures
        r <==> forall|i: int|
            0 <= i < nodes@.len() ==> (#[trigger] node(*nodes, i)).executed_deploys@.contains(
                deploy_hash,
            ),
{
    let mut i: usize = 0;
    while i < nodes.len()
        invariant
            i <= nodes@.len(),
            forall|j: int|
                0 <= j < i ==> (#[trigger] node(*nodes, j)).executed_deploys@.contains(deploy_hash),
        decreases nodes@.len() - i,
    {
        assert(nodes@[i as int].reactor.reactor.reactor == node(*nodes, i as int));
        if !has_executed(nodes[i].main_reactor(), deploy_hash) {
            return false;
        }
        i += 1;
    }
    true
}

/// Nodes that have completed an era have completed every earlier one.
pub proof fn lemma_completed_earlier_eras(nodes: Nodes, era_id: EraId, earlier: EraId)
    requires
        earlier.number <= era_id.number,
        forall|i: int|
            0 <= i < nodes@.len() ==> reached_end_of(
                (#[trigger] node(nodes, i)).highest_switch_block_headers@,
                era_id,
            ),
    ensures
        forall|i: int|
            0 <= i < nodes@.len() ==> reached_end_of(
                (#[trigger] node(nodes, i)).highest_switch_block_headers@,
                earlier,
            ),
{
}

/// The nodes cannot all be in two eras at once, unless there are none.
pub proof fn lemma_in_one_era(nodes: Nodes, a: EraId, b: EraId)
    requires
        nodes@.len() > 0,
        forall|i: int|
            0 <= i < nodes@.len() ==> (#[trigger] node(nodes, i)).current_era == Some(a),
        forall|i: int|
            0 <= i < nodes@.len() ==> (#[trigger] node(nodes, i)).current_era == Some(b),
    ensures
        a == b,
{
    assert(node(nodes, 0).current_era == Some(a));
}

/// What is read off a node is what its own reactor, behind the two around it, says; and the node has
/// completed an era exactly where it has a switch block of that era, or of a later one, as its highest.
pub proof fn lemma_read_off_node(nodes: Nodes, i: int, era_id: EraId)
    requires
        0 <= i < nodes@.len(),
    ensures
        node(nodes, i) == nodes@[i].reactor.reactor.reactor,
        ({
            let headers = nodes@[i].reactor.reactor.reactor.highest_switch_block_headers@;
            reached_end_of(node(nodes, i).highest_switch_block_headers@, era_id) <==> {
                &&& headers.len() > 0
                &&& era_id.number <= headers[headers.len() - 1].era_id.number
            }
        }),
{
}

} // verus!
