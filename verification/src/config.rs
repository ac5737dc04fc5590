//! What a node is configured with.

use crate::addr::SocketAddr;
use crate::hash::Hash32;
use crate::mempool::Address;
use crate::wire::{MAGIC, REGTEST_MAGIC, TESTNET_MAGIC};
use vstd::prelude::*;

verus! {

/// The version of the wire protocol.
pub const PROTOCOL_VERSION: u32 = 1;

/// The services that the node offers.
pub const SERVICES: u64 = 0;

/// The port of mainnet nodes.
pub const DEFAULT_PORT: u16 = 8333;

/// The port of testnet nodes.
pub const TESTNET_PORT: u16 = 18333;

/// Which network a node belongs to.
#[derive(Clone, Debug)]
pub struct NetworkConfig {
    pub network_name: String,
    pub magic: [u8; 4],
    pub regtest: bool,
    pub testnet: bool,
}

impl NetworkConfig {
    pub fn mainnet() -> (network: Self)
        ensures
            network.network_name@ == "mainnet"@,
            network.magic@ == MAGIC@,
            !network.regtest,
            !network.testnet,
    {
        NetworkConfig {
            network_name: "mainnet".to_string(),
            magic: MAGIC,
            regtest: false,
            testnet: false,
        }
    }

    pub fn testnet() -> (network: Self)
        ensures
            network.network_name@ == "testnet"@,
            network.magic@ == TESTNET_MAGIC@,
            !network.regtest,
            network.testnet,
    {
        NetworkConfig {
            network_name: "testnet".to_string(),
            magic: TESTNET_MAGIC,
            regtest: false,
            testnet: true,
        }
    }

    pub fn regtest() -> (network: Self)
        ensures
            network.network_name@ == "regtest"@,
            network.magic@ == REGTEST_MAGIC@,
            network.regtest,
            !network.testnet,
    {
        NetworkConfig {
            network_name: "regtest".to_string(),
            magic: REGTEST_MAGIC,
            regtest: true,
            testnet: false,
        }
    }
}

impl Default for NetworkConfig {
    fn default() -> (network: Self)
        ensures
            network.network_name@ == "mainnet"@,
            network.magic@ == MAGIC@,
            !network.regtest,
            !network.testnet,
    {
        Self::mainnet()
    }
}

/// What a node is configured with.
pub struct NodeConfig {
    pub listen_addr: SocketAddr,
    pub connect_addrs: Vec<SocketAddr>,
    pub genesis_hash: Hash32,
    pub chain_height: u32,
    pub data_dir: String,
    pub network: NetworkConfig,
    pub mine: bool,
    pub miner_address: Option<Address>,
    /// Peers are spoken to in the clear. For tests and debugging only; a node speaks either
    /// encrypted or in the clear and never negotiates.
    pub allow_plaintext_peers: bool,
}

impl NodeConfig {
    pub fn new(listen_addr: SocketAddr, genesis_hash: Hash32) -> (config: Self)
        ensures
            config.listen_addr == listen_addr,
            config.connect_addrs@ == Seq::<SocketAddr>::empty(),
            config.genesis_hash == genesis_hash,
            config.chain_height == 0,
            config.data_dir@ == "chroma_data"@,
            config.network.network_name@ == "mainnet"@,
            config.network.magic@ == MAGIC@,
            !config.network.regtest,
            !config.network.testnet,
            config.mine,
            config.miner_address is None,
            !config.allow_plaintext_peers,
    {
        NodeConfig {
            listen_addr,
            connect_addrs: Vec::new(),
            genesis_hash,
            chain_height: 0,
            data_dir: "chroma_data".to_string(),
            network: NetworkConfig::mainnet(),
            mine: true,
            miner_address: None,
            allow_plaintext_peers: false,
        }
    }

    /// Speak to peers in the clear (tests and debugging only).
    pub fn with_plaintext_peers_allowed(self) -> (config: Self)
        ensures
            config == (NodeConfig { allow_plaintext_peers: true, ..self }),
    {
        let mut config = self;
        config.allow_plaintext_peers = true;
        config
    }

    pub fn with_data_dir(self, data_dir: String) -> (config: Self)
        ensures
            config == (NodeConfig { data_dir, ..self }),
    {
        let mut config = self;
        config.data_dir = data_dir;
        config
    }

    pub fn with_connect_addrs(self, addrs: Vec<SocketAddr>) -> (config: Self)
        ensures
            config == (NodeConfig { connect_addrs: addrs, ..self }),
    {
        let mut config = self;
        config.connect_addrs = addrs;
        config
    }

    pub fn with_network(self, network: NetworkConfig) -> (config: Self)
        ensures
            config == (NodeConfig { network, ..self }),
    {
        let mut config = self;
        config.network = network;
        config
    }

    pub fn with_mine(self, mine: bool) -> (config: Self)
        ensures
            config == (NodeConfig { mine, ..self }),
    {
        let mut config = self;
        config.mine = mine;
        config
    }

    pub fn with_miner_address(self, addr: Address) -> (config: Self)
        ensures
            config == (NodeConfig { miner_address: Some(addr), ..self }),
    {
        let mut config = self;
        config.miner_address = Some(addr);
        config
    }

    /// The node mines.
    pub open spec fn mines(self) -> bool {
        (self.network.regtest || self.network.testnet) && self.mine
    }

    /// Whether the node mines: only on the test networks, and only if it is told to.
    pub fn mining_enabled(&self) -> (enabled: bool)
        ensures
            enabled == ((self.network.regtest || self.network.testnet) && self.mine),
            enabled == self.mines(),
    {
        (self.network.regtest || self.network.testnet) && self.mine
    }
}

/// A node mines exactly when it is told to and its network is a test network, whatever else it is
/// configured with; on mainnet it never does.
pub proof fn only_test_networks_are_mined(a: NodeConfig, b: NodeConfig)
    ensures
        !a.network.regtest && !a.network.testnet ==> !a.mines(),
        !a.mine ==> !a.mines(),
        a.mine && a.network.regtest ==> a.mines(),
        a.mine && a.network.testnet ==> a.mines(),
        a.mine == b.mine && a.network.regtest == b.network.regtest && a.network.testnet
            == b.network.testnet ==> a.mines() == b.mines(),
{
}

} // verus!
