//! The configuration of the nodes of a test network.

use crate::primitives::PublicKey;
use crate::test_chain::TestChain;
use vstd::prelude::*;

verus! {

/// How a node joins the network on the local host.
#[derive(Clone, Copy, Debug, PartialEq, Eq, Structural)]
pub enum NetworkConfig {
    /// The node is the first one, and listens on the given port.
    FirstNode {
        /// The port.
        port: u16,
    },
    /// The node joins the first one, which listens on the given port.
    JoiningNode {
        /// The port of the first node.
        first_node_port: u16,
    },
}

/// The timeouts of a node's gossip.
#[derive(Clone, Copy, Debug, PartialEq, Eq, Structural)]
pub enum GossipConfig {
    /// Those of a node in production.
    Standard,
    /// Small ones, so that a test need not wait.
    SmallTimeouts,
}

/// The name of the file that holds a node's secret key.
pub const SECRET_KEY_FILE: &'static str = "secret_key";

/// Where a node's secret key is.
#[derive(Debug)]
pub struct SecretKeyPath {
    /// The directory.
    pub directory: String,
    /// The name of the file in it.
    pub file_name: String,
}

/// The configuration of a node. What is not mentioned keeps its default.
#[derive(Debug)]
pub struct Config {
    /// How the node joins the network.
    pub network: NetworkConfig,
    /// The timeouts of its gossip.
    pub gossip: GossipConfig,
    /// The directory of its storage.
    pub storage: String,
    /// The key of its validator, whose secret key is to be written to the path below.
    pub validator: PublicKey,
    /// Where its secret key is.
    pub secret_key_path: SecretKeyPath,
}

impl Config {
    /// This is the configuration of the node at place `idx` of a network whose first node listens on
    /// the given port, where its storage is in the given directory.
    pub open spec fn configures(
        &self,
        keys: Seq<PublicKey>,
        idx: int,
        first_node_port: u16,
        directory: Seq<char>,
    ) -> bool {
        &&& self.network == if idx == 0 {
            NetworkConfig::FirstNode { port: first_node_port }
        } else {
            NetworkConfig::JoiningNode { first_node_port }
        }
        &&& self.gossip == GossipConfig::SmallTimeouts
        &&& self.storage@ == directory
        &&& self.validator == keys[idx]
        &&& self.secret_key_path.directory@ == directory
        &&& self.secret_key_path.file_name@ == SECRET_KEY_FILE@
    }
}

impl TestChain {
    /// Makes the configuration of the validator at place `idx`, and keeps its storage directory.
    pub fn create_node_config(
        &mut self,
        idx: usize,
        first_node_port: u16,
        directory: String,
    ) -> (r: Config)
        requires
            idx < old(self).keys@.len(),
        ensures
            r.configures(old(self).keys@, idx as int, first_node_port, directory@),
            final(self).keys == old(self).keys,
            final(self).chainspec == old(self).chainspec,
            final(self).chainspec_raw_bytes == old(self).chainspec_raw_bytes,
            final(self).storages@ == old(self).storages@.push(directory),
    {
        let network: NetworkConfig = if idx == 0 {
            NetworkConfig::FirstNode { port: first_node_port }
        } else {
            NetworkConfig::JoiningNode { first_node_port }
        };
        let config: Config = Config {
            network,
            gossip: GossipConfig::SmallTimeouts,
            storage: directory.as_str().to_owned(),
            validator: self.keys[idx],
            secret_key_path: SecretKeyPath {
                directory: directory.as_str().to_owned(),
                file_name: SECRET_KEY_FILE.to_owned(),
            },
        };
        self.storages.push(directory);
        config
    }

    /// Makes the configurations of all nodes of a network, one for each key, in the order in which
    /// the nodes are to be added.
    pub fn create_initialized_network(
        &mut self,
        first_node_port: u16,
        directories: &Vec<String>,
    ) -> (r: Vec<Config>)
        requires
            directories@.len() == old(self).keys@.len(),
        ensures
            r@.len() == old(self).keys@.len(),
            forall|i: int|
                0 <= i < r@.len() ==> (#[trigger] r@[i]).configures(
                    old(self).keys@,
                    i,
                    first_node_port,
                    directories@[i]@,
                ),
            final(self).keys == old(self).keys,
            final(self).chainspec == old(self).chainspec,
            final(self).chainspec_raw_bytes == old(self).chainspec_raw_bytes,
            final(self).storages@.len() == old(self).storages@.len() + directories@.len(),
            forall|i: int|
                0 <= i < old(self).storages@.len() ==> (#[trigger] final(self).storages@[i])
                    == old(self).storages@[i],
            forall|i: int|
                0 <= i < directories@.len() ==> final(self).storages@[old(self).storages@.len() + i]@
                    == (#[trigger] directories@[i])@,
    {
        let ghost before = *self;
        let mut configs: Vec<Config> = Vec::new();
        let mut idx: usize = 0;
        while idx < self.keys.len()
            invariant
                idx <= self.keys@.len(),
                before == *old(self),
                self.keys == before.keys,
                self.chainspec == before.chainspec,
                self.chainspec_raw_bytes == before.chainspec_raw_bytes,
                directories@.len() == before.keys@.len(),
                configs@.len() == idx,
                forall|i: int|
                    0 <= i < idx ==> (#[trigger] configs@[i]).configures(
                        before.keys@,
                        i,
                        first_node_port,
                        directories@[i]@,
                    ),
                self.storages@.len() == before.storages@.len() + idx,
                forall|i: int|
                    0 <= i < before.storages@.len() ==> (#[trigger] self.storages@[i])
                        == before.storages@[i],
                forall|i: int|
                    0 <= i < idx ==> self.storages@[before.storages@.len() + i]@ == (
                    #[trigger] directories@[i])@,
            decreases self.keys@.len() - idx,
        {
            let directory: String = directories[idx].as_str().to_owned();
            configs.push(self.create_node_config(idx, first_node_port, directory));
            idx += 1;
        }
        configs
    }
}

/// In a network that has been configured, exactly the first node listens for the others, and all
/// others join it on the same port.
pub proof fn lemma_one_first_node(
    configs: Seq<Config>,
    keys: Seq<PublicKey>,
    first_node_port: u16,
    directories: Seq<String>,
)
    requires
        forall|i: int|
            0 <= i < configs.len() ==> (#[trigger] configs[i]).configures(
                keys,
                i,
                first_node_port,
                directories[i]@,
            ),
    ensures
        forall|i: int|
            0 <= i < configs.len() ==> ((#[trigger] configs[i]).network is FirstNode <==> i == 0),
        forall|i: int|
            0 < i < configs.len() ==> (#[trigger] configs[i]).network
                == (NetworkConfig::JoiningNode { first_node_port }),
{
}

/// Every node of a configured network has the key at its place, keeps its storage and its secret key in
/// the directory at its place, and gossips with small timeouts.
pub proof fn lemma_nodes_configured(
    config: Config,
    keys: Seq<PublicKey>,
    idx: int,
    first_node_port: u16,
    directory: Seq<char>,
)
    requires
        config.configures(keys, idx, first_node_port, directory),
    ensures
        config.validator == keys[idx],
        config.storage@ == directory,
        config.secret_key_path.directory@ == directory,
        config.secret_key_path.file_name@ == "secret_key"@,
        config.gossip == GossipConfig::SmallTimeouts,
        idx == 0 ==> config.network == (NetworkConfig::FirstNode { port: first_node_port }),
        idx != 0 ==> config.network == (NetworkConfig::JoiningNode { first_node_port }),
{
}

} // verus!
