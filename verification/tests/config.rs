//! Configuration, counters, errors and nonces.

use chroma_p2p::addr::SocketAddr;
use chroma_p2p::config::{DEFAULT_PORT, TESTNET_PORT};
use chroma_p2p::discovery::{DNS_SEEDS, SEED_NODES, TESTNET_DNS_SEEDS, TESTNET_SEED_NODES};
use chroma_p2p::error::{CoreError, IoError};
use chroma_p2p::hash::Hash32;
use chroma_p2p::mempool::Address;
use chroma_p2p::wire::{Message, MessageType, MAGIC, REGTEST_MAGIC, TESTNET_MAGIC};
use chroma_p2p::{rand_u64, NetworkConfig, NodeConfig, P2pError, RelaySnapshot, RelayStats};

fn test_addr(n: u16) -> SocketAddr {
    SocketAddr::v4(127, 0, 0, 1, n)
}

#[test]
fn test_node_config() {
    let addr = test_addr(8333);
    let genesis = Hash32::digest(b"genesis");
    let config = NodeConfig::new(addr, genesis);
    assert_eq!(config.listen_addr, addr);
    assert_eq!(config.genesis_hash, genesis);
    assert!(config.connect_addrs.is_empty());
}

#[test]
fn test_relay_stats_default_zero_and_snapshot() {
    // Observability must start at zero and reflect exactly the increments
    // made (single choke point for sent/dropped accounting).
    let mut stats = RelayStats::default();
    assert_eq!(stats.snapshot(), RelaySnapshot::default());
    RelayStats::note_sent(&mut stats.blocks_applied);
    RelayStats::note_write(&mut stats.block_served, &mut stats.block_dropped, true);
    RelayStats::note_write(&mut stats.block_served, &mut stats.block_dropped, false);
    RelayStats::note_write(&mut stats.notfound_served, &mut stats.notfound_dropped, false);
    let snap = stats.snapshot();
    assert_eq!(snap.blocks_applied, 1);
    assert_eq!(snap.block_served, 1);
    assert_eq!(snap.block_dropped, 1);
    assert_eq!(snap.notfound_served, 0);
    assert_eq!(snap.notfound_dropped, 1);
    assert_eq!(snap.getdata_entries, 0);
    assert_eq!(snap.blocks_rejected_unscored, 0);
    assert_eq!(snap.blocks_rejected_scored, 0);
}

#[test]
fn test_rand_u64() {
    let a = rand_u64(1, 0);
    let b = rand_u64(1, 1);
    assert_ne!(a, b);
}

#[test]
fn test_p2p_error_display() {
    let err = P2pError::Protocol("test".to_string());
    assert!(err.to_string().contains("test"));
}

#[test]
fn test_network_config_mainnet() {
    let cfg = NetworkConfig::mainnet();
    assert_eq!(cfg.network_name, "mainnet");
    assert!(!cfg.regtest);
    assert_eq!(cfg.magic, MAGIC);
}

#[test]
fn test_network_config_regtest() {
    let cfg = NetworkConfig::regtest();
    assert_eq!(cfg.network_name, "regtest");
    assert!(cfg.regtest);
    assert!(!cfg.testnet);
    assert_ne!(cfg.magic, MAGIC);
}

#[test]
fn test_network_config_testnet() {
    let cfg = NetworkConfig::testnet();
    assert_eq!(cfg.network_name, "testnet");
    assert!(cfg.testnet);
    assert!(!cfg.regtest);
    assert_ne!(cfg.magic, MAGIC);
    assert_eq!(cfg.magic, TESTNET_MAGIC);
}

#[test]
fn test_node_config_with_network() {
    let addr = test_addr(8333);
    let genesis = Hash32::digest(b"genesis");
    let config = NodeConfig::new(addr, genesis).with_network(NetworkConfig::regtest());
    assert!(config.network.regtest);
}

#[test]
fn test_node_config_regtest() {
    let addr = SocketAddr::v4(127, 0, 0, 1, 8333);
    let genesis_hash = Hash32::digest(b"regtest genesis");
    let config = NodeConfig::new(addr, genesis_hash).with_network(NetworkConfig::regtest());
    assert!(config.network.regtest);
    assert_ne!(config.network.magic, MAGIC);
}

#[test]
fn testnet_isolation_magic_constants_differ() {
    assert_ne!(MAGIC, TESTNET_MAGIC, "mainnet and testnet magic must differ");
    assert_ne!(MAGIC, REGTEST_MAGIC, "mainnet and regtest magic must differ");
    assert_ne!(TESTNET_MAGIC, REGTEST_MAGIC, "testnet and regtest magic must differ");

    assert_eq!(MAGIC, [0xC4, 0x48, 0x52, 0x4F], "mainnet magic");
    assert_eq!(TESTNET_MAGIC, [0xC4, 0x54, 0x45, 0x53], "testnet magic");
    assert_eq!(REGTEST_MAGIC, [0xC4, 0x52, 0x54, 0x54], "regtest magic");
}

#[test]
fn testnet_isolation_network_config() {
    let tn = NetworkConfig::testnet();
    assert!(tn.testnet);
    assert!(!tn.regtest);
    assert_eq!(tn.magic, TESTNET_MAGIC);
    assert_eq!(tn.network_name, "testnet");

    let mn = NetworkConfig::mainnet();
    assert!(!mn.testnet);
    assert!(!mn.regtest);
    assert_eq!(mn.magic, MAGIC);

    let rt = NetworkConfig::regtest();
    assert!(!rt.testnet);
    assert!(rt.regtest);
    assert_eq!(rt.magic, REGTEST_MAGIC);
}

#[test]
fn testnet_isolation_magic_wire_rejection() {
    // Mainnet node rejects testnet message
    let msg = Message::with_magic(MessageType::Ping, vec![0u8; 8], TESTNET_MAGIC);
    let encoded = msg.encode();
    let result = Message::decode_with_magic(&encoded, MAGIC);
    assert!(result.is_err(), "mainnet must reject testnet magic");

    // Testnet node rejects mainnet message
    let msg = Message::with_magic(MessageType::Ping, vec![0u8; 8], MAGIC);
    let encoded = msg.encode();
    let result = Message::decode_with_magic(&encoded, TESTNET_MAGIC);
    assert!(result.is_err(), "testnet must reject mainnet magic");

    // Testnet node rejects regtest message
    let msg = Message::with_magic(MessageType::Ping, vec![0u8; 8], REGTEST_MAGIC);
    let encoded = msg.encode();
    let result = Message::decode_with_magic(&encoded, TESTNET_MAGIC);
    assert!(result.is_err(), "testnet must reject regtest magic");

    // Testnet node accepts testnet message
    let msg = Message::with_magic(MessageType::Ping, vec![0u8; 8], TESTNET_MAGIC);
    let encoded = msg.encode();
    let result = Message::decode_with_magic(&encoded, TESTNET_MAGIC);
    assert!(result.is_ok(), "testnet must accept testnet magic");
}

#[test]
fn testnet_isolation_data_directory() {
    let tn = NetworkConfig::testnet();
    let rt = NetworkConfig::regtest();

    // Verify testnet data dir name differs from regtest
    let tn_dir = format!("chroma_{}_data", tn.network_name);
    let rt_dir = format!("chroma_{}_data", rt.network_name);
    assert_ne!(tn_dir, rt_dir, "testnet and regtest data dirs must differ");
}

#[test]
fn testnet_isolation_port() {
    assert_eq!(DEFAULT_PORT, 8333, "mainnet port should be 8333");
    assert_eq!(TESTNET_PORT, 18333, "testnet port should be 18333");
}

#[test]
fn testnet_isolation_discovery_seeds() {
    // Testnet seeds must differ from mainnet
    assert_ne!(
        SEED_NODES, TESTNET_SEED_NODES,
        "testnet and mainnet seed nodes must differ"
    );
    assert_ne!(
        DNS_SEEDS, TESTNET_DNS_SEEDS,
        "testnet and mainnet DNS seeds must differ"
    );

    // Testnet seeds should contain testnet port
    for seed in TESTNET_SEED_NODES {
        assert!(
            seed.contains("18333"),
            "testnet seed should contain port 18333, got: {}",
            seed
        );
    }
}

#[test]
fn builders_change_one_field() {
    let genesis = Hash32::digest(b"genesis");
    let config = NodeConfig::new(test_addr(1), genesis);
    assert!(!config.allow_plaintext_peers);
    assert!(config.miner_address.is_none());
    assert_eq!(config.network.network_name, "mainnet");
    let mine = config.mine;
    let config = config
        .with_connect_addrs(vec![test_addr(2), test_addr(3)])
        .with_data_dir("elsewhere".to_string())
        .with_plaintext_peers_allowed()
        .with_mine(!mine)
        .with_miner_address(Address([7; 20]));
    assert_eq!(config.connect_addrs, vec![test_addr(2), test_addr(3)]);
    assert_eq!(config.data_dir, "elsewhere");
    assert!(config.allow_plaintext_peers);
    assert_eq!(config.mine, !mine);
    assert_eq!(config.miner_address, Some(Address([7; 20])));
    assert_eq!(config.listen_addr, test_addr(1));
    assert_eq!(config.genesis_hash, genesis);
}

#[test]
fn counters_wrap() {
    let mut stats = RelayStats::default();
    stats.blocks_applied = u64::MAX;
    RelayStats::note_sent(&mut stats.blocks_applied);
    assert_eq!(stats.snapshot(), RelaySnapshot::default());
}

#[test]
fn error_texts() {
    let io = P2pError::Io(IoError {
        eof: true,
        kind: "UnexpectedEof".to_string(),
        message: "gone".to_string(),
    });
    assert!(io.to_string().contains("gone"));
    let core = CoreError::Serialization("too short".to_string());
    assert_eq!(core.to_string(), "serialization error: too short");
    assert!(P2pError::from_core(&core).to_string().contains("too short"));
    assert_eq!(CoreError::InvalidProofOfWork.to_string(), "invalid proof of work");
    assert_eq!(CoreError::InvalidStateRoot.to_string(), "invalid state root");
    assert_eq!(CoreError::InvalidMerkleRoot.to_string(), "invalid merkle root");
    assert_eq!(CoreError::BlockSizeExceeded.to_string(), "block size exceeded");
    assert_eq!(CoreError::TransactionSizeExceeded.to_string(), "transaction size exceeded");
    assert_eq!(CoreError::SupplyInvariant.to_string(), "supply invariant violated");
    assert_eq!(CoreError::Overflow.to_string(), "overflow");
    assert_eq!(CoreError::InvalidBlock("x".to_string()).to_string(), "invalid block: x");
    assert_eq!(CoreError::Other("plain".to_string()).to_string(), "plain");
}

#[test]
fn nonces_do_not_repeat() {
    // The keys are drawn anew each time: even one time and one count give different numbers.
    let mut drawn: Vec<u64> = (0..50).map(|_| rand_u64(7, 7)).collect();
    drawn.sort_unstable();
    drawn.dedup();
    assert_eq!(drawn.len(), 50);
}
