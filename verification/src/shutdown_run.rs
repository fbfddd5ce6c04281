//! The run of a test network that shuts down for an upgrade.

use crate::chainspec::{ActivationPoint, Chainspec, ChainspecRawBytes, NextUpgrade};
use crate::primitives::{EraId, ProtocolVersion, PublicKey, TimeDiff, Timestamp};
use crate::settings::{two_block_eras, use_two_block_eras};
use crate::test_chain::{stakes_of, TestChain, STARTUP_SECONDS};
use crate::u512::U512;
use rand::rngs::StdRng;
use vstd::prelude::*;

verus! {

/// The number of nodes in the network.
pub const NETWORK_SIZE: usize = 2;

/// How many seconds the nodes have to set themselves up.
pub const INITIALIZATION_TIMEOUT: u32 = 20;

/// How many seconds the nodes have to shut down.
pub const SHUTDOWN_TIMEOUT: u32 = 90;

/// The upgrade for which the network shuts down: it takes effect in era 2, after the switch block of
/// era 1.
pub open spec fn upgrade() -> NextUpgrade {
    NextUpgrade {
        activation_point: ActivationPoint::EraId(EraId { number: 2 }),
        protocol_version: ProtocolVersion { major: 999, minor: 0, patch: 0 },
    }
}

/// The upgrade for which the network shuts down.
pub fn scheduled_upgrade() -> (r: NextUpgrade)
    ensures
        r == upgrade(),
{
    NextUpgrade {
        activation_point: ActivationPoint::EraId(EraId::new(2)),
        protocol_version: ProtocolVersion::from_parts(999, 0, 0),
    }
}

/// What is to be done with the network next.
#[derive(Clone, Copy, Debug, PartialEq, Eq, Structural)]
pub enum Step {
    /// To run it until all nodes are set up, so that none rejects the announcement.
    SettleInitialized {
        /// How long that may take.
        timeout: TimeDiff,
    },
    /// To announce an upgrade to a node.
    AnnounceUpgrade {
        /// The place of the node.
        node: usize,
        /// The upgrade.
        upgrade: NextUpgrade,
    },
    /// To run it until all nodes have shut down with success.
    SettleOnExit {
        /// How long that may take.
        timeout: TimeDiff,
    },
    /// Nothing: the run is over.
    Finished,
}

/// A run of the network.
#[derive(Clone, Copy, Debug, PartialEq, Eq, Structural)]
pub struct ShutdownRun {
    /// The number of nodes.
    pub node_count: usize,
    /// What is to be done next.
    pub due: Step,
}

/// The step of a run to come after `done` others.
pub open spec fn script(node_count: usize, done: nat) -> Step {
    if done == 0 {
        Step::SettleInitialized { timeout: TimeDiff { millis: 20_000 } }
    } else if done <= node_count {
        Step::AnnounceUpgrade { node: (done - 1) as usize, upgrade: upgrade() }
    } else if done == node_count + 1 {
        Step::SettleOnExit { timeout: TimeDiff { millis: 90_000 } }
    } else {
        Step::Finished
    }
}

impl ShutdownRun {
    /// So many steps of the run have been done.
    pub open spec fn has_done(&self, done: nat) -> bool {
        self.due == script(self.node_count, done)
    }

    /// A run of a network with the given number of nodes.
    pub fn new(node_count: usize) -> (r: ShutdownRun)
        ensures
            r.node_count == node_count,
            r.has_done(0),
    {
        ShutdownRun {
            node_count,
            due: Step::SettleInitialized {
                timeout: TimeDiff::from_seconds(INITIALIZATION_TIMEOUT),
            },
        }
    }

    fn announce_to(&self, node: usize) -> (r: Step)
        requires
            node <= self.node_count,
        ensures
            r == script(self.node_count, (node + 1) as nat),
    {
        if node < self.node_count {
            Step::AnnounceUpgrade { node, upgrade: scheduled_upgrade() }
        } else {
            Step::SettleOnExit { timeout: TimeDiff::from_seconds(SHUTDOWN_TIMEOUT) }
        }
    }

    /// Records that the step that was due has been done.
    pub fn advance(&mut self)
        requires
            exists|done: nat| old(self).has_done(done),
        ensures
            final(self).node_count == old(self).node_count,
            forall|done: nat| #[trigger] old(self).has_done(done) ==> final(self).has_done(done + 1),
    {
        self.due = match self.due {
            Step::SettleInitialized { .. } => self.announce_to(0),
            Step::AnnounceUpgrade { node, .. } => self.announce_to(node + 1),
            Step::SettleOnExit { .. } => Step::Finished,
            Step::Finished => Step::Finished,
        };
    }
}

/// Sets up a network with the given stakes that is to shut down for an upgrade, and its run.
pub fn assert_network_shutdown_for_upgrade_with_stakes(
    rng: &mut StdRng,
    keys: Vec<PublicKey>,
    stakes: &Vec<U512>,
    base: Chainspec,
    raw: ChainspecRawBytes,
    now: Timestamp,
) -> (r: (TestChain, ShutdownRun))
    requires
        keys@.len() == NETWORK_SIZE,
        stakes@.len() == NETWORK_SIZE,
        now.millis + STARTUP_SECONDS * 1000 <= u64::MAX,
    ensures
        exists|chain: TestChain|
            {
                &&& #[trigger] chain.set_up(
                    keys@,
                    stakes_of(keys@, stakes@, keys@.len()),
                    base,
                    raw,
                    now,
                )
                &&& r.0 == (TestChain { chainspec: two_block_eras(chain.chainspec), ..chain })
            },
        r.1.node_count == NETWORK_SIZE,
        r.1.has_done(0),
{
    let mut chain: TestChain = TestChain::new(rng, keys, Some(stakes), base, raw, now);
    let ghost before = chain;
    use_two_block_eras(chain.chainspec_mut());
    assert(before.set_up(keys@, stakes_of(keys@, stakes@, keys@.len()), base, raw, now));
    (chain, ShutdownRun::new(NETWORK_SIZE))
}

/// A run has as many steps as the network has nodes, and two more, and is over then.
pub proof fn lemma_run_is_finite(run: ShutdownRun, done: nat)
    requires
        run.has_done(done),
    ensures
        run.due == Step::Finished <==> done >= run.node_count + 2,
{
}

/// Every node is told of the upgrade once: in the step after as many others as come before it.
pub proof fn lemma_every_node_is_told(node_count: usize, done: nat, node: usize)
    requires
        node < node_count,
    ensures
        script(node_count, done) == (Step::AnnounceUpgrade { node, upgrade: upgrade() })
            <==> done == node + 1,
{
}

/// A run first waits twenty seconds for the nodes to be set up, and after every node has been told, in
/// the order of their places, of the upgrade to version 999.0.0 in era 2, it waits ninety seconds for
/// them to shut down.
pub proof fn lemma_run_in_order(node_count: usize, done: nat)
    ensures
        script(node_count, 0) == (Step::SettleInitialized { timeout: TimeDiff { millis: 20_000 } }),
        0 < done <= node_count ==> {
            let step = script(node_count, done);
            &&& step is AnnounceUpgrade
            &&& step->node == done - 1
            &&& step->upgrade.activation_point == ActivationPoint::EraId(EraId { number: 2 })
            &&& step->upgrade.protocol_version.major == 999
            &&& step->upgrade.protocol_version.minor == 0
            &&& step->upgrade.protocol_version.patch == 0
        },
        script(node_count, (node_count + 1) as nat) == (Step::SettleOnExit {
            timeout: TimeDiff { millis: 90_000 },
        }),
        done > node_count + 1 ==> script(node_count, done) == Step::Finished,
{
}

} // verus!
