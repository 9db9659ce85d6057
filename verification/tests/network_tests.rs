use ggs_node::bandwidth::{BandwidthBudget, BandwidthBudgetConfig};
use ggs_node::consensus::{
    clamp_weight_micro, decode_signed, encode_signed, ConsensusConfig, ConsensusEngine,
};
use ggs_node::crypto::{bs58_encode, hex_encode, keccak256, CryptoConfig, CryptoError, CryptoSuite};
use ggs_node::inference::{InferenceConfig, InferenceEngine};
use ggs_node::node::{Node, TopologyHealth};
use ggs_node::topology::{TopologyConfig, TopologySelector};
use ggs_node::types::{GeoPoint, GgsMessage};

const M: i64 = 1_000_000;

fn suite() -> CryptoSuite {
    let config = CryptoConfig {
        eth_hex_seed: Some(String::from(
            "0x0101010101010101010101010101010101010101010101010101010101010101",
        )),
        sol_bs58_seed: None,
    };
    CryptoSuite::new(&config).expect("valid seeds")
}

fn engine() -> ConsensusEngine {
    ConsensusEngine::new(suite(), ConsensusConfig::default_config())
}

#[test]
fn hex_wrapper_encodes() {
    assert_eq!(hex_encode(&vec![0x0f, 0xa0, 0x00]), "0fa000");
    assert_eq!(hex_encode(&vec![]), "");
}

#[test]
fn keccak_wrapper_digests() {
    let d = keccak256(&vec![]);
    assert_eq!(d.len(), 32);
    assert_ne!(keccak256(&vec![1]), keccak256(&vec![2]));
    assert_eq!(keccak256(&vec![1, 2, 3]), keccak256(&vec![1, 2, 3]));
}

#[test]
fn base58_wrapper_encodes() {
    // the Bitcoin alphabet writes a zero byte as '1'
    assert_eq!(bs58_encode(&vec![0, 0]), "11");
}

#[test]
fn crypto_suite_addresses_are_derived() {
    let a = suite();
    let b = suite();
    assert_eq!(a.eth_address(), b.eth_address());
    assert!(a.eth_address().starts_with("0x"));
    assert_eq!(a.eth_address().len(), 42);
    let other = CryptoSuite::new(&CryptoConfig {
        eth_hex_seed: Some(String::from(
            "0202020202020202020202020202020202020202020202020202020202020202",
        )),
        sol_bs58_seed: None,
    })
    .expect("valid");
    assert_ne!(a.eth_address(), other.eth_address());
}

#[test]
fn bad_seeds_are_fatal() {
    let bad_hex = CryptoSuite::new(&CryptoConfig {
        eth_hex_seed: Some(String::from("0xzz")),
        sol_bs58_seed: None,
    });
    assert_eq!(bad_hex.err(), Some(CryptoError::EthSeed));
    let short = CryptoSuite::new(&CryptoConfig {
        eth_hex_seed: Some(String::from("abcd")),
        sol_bs58_seed: None,
    });
    assert_eq!(short.err(), Some(CryptoError::EthSeed));
    let bad_b58 = CryptoSuite::new(&CryptoConfig {
        eth_hex_seed: None,
        sol_bs58_seed: Some(String::from("0OIl")),
    });
    assert_eq!(bad_b58.err(), Some(CryptoError::SolSeed));
    let wrong_len = CryptoSuite::new(&CryptoConfig {
        eth_hex_seed: None,
        sol_bs58_seed: Some(bs58_encode(&vec![7u8; 31])),
    });
    assert_eq!(wrong_len.err(), Some(CryptoError::SolSeed));
}

#[test]
fn sol_seed_roundtrip() {
    let secret = vec![9u8; 32];
    let s = CryptoSuite::new(&CryptoConfig {
        eth_hex_seed: None,
        sol_bs58_seed: Some(bs58_encode(&secret)),
    })
    .expect("32-byte seed");
    let again = CryptoSuite::new(&CryptoConfig {
        eth_hex_seed: None,
        sol_bs58_seed: Some(bs58_encode(&secret)),
    })
    .expect("32-byte seed");
    assert_eq!(s.sol_address(), again.sol_address());
}

#[test]
fn signature_roundtrip() {
    let s = suite();
    let payload = vec![1u8, 2, 3, 4];
    let bundle = s.sign_bytes(&payload);
    assert!(s.verify(&payload, &bundle));
}

#[test]
fn signature_rejection_on_tamper() {
    let s = suite();
    let payload = vec![1u8, 2, 3, 4];
    let bundle = s.sign_bytes(&payload);
    let mut tampered = payload.clone();
    tampered[2] ^= 1;
    assert!(!s.verify(&tampered, &bundle));
}

#[test]
fn consensus_sign_verify_roundtrip() {
    let mut e = engine();
    // without a ledger record the default weight of 0.1 is attached
    let msg = GgsMessage::Heartbeat {
        peer: String::from("me"),
        model_hash: String::from("0xabc"),
    };
    let signed = e.sign(msg, 9_000_000);
    assert_eq!(signed.staking_score, 100_000);
    assert!(e.verify(&signed));
    // with a record the caller's raw weight is attached, clipped into [0, 5]
    e.update_stake(String::from("me"), 0, 0, 0, 7);
    let msg = GgsMessage::Heartbeat {
        peer: String::from("me"),
        model_hash: String::from("0xabc"),
    };
    let signed = e.sign(msg, 9_000_000);
    assert_eq!(signed.staking_score, 5_000_000);
    assert!(e.verify(&signed));
}

#[test]
fn consensus_rejects_tampered_payload() {
    let e = engine();
    let msg = GgsMessage::Heartbeat {
        peer: String::from("me"),
        model_hash: String::from("0xabc"),
    };
    let mut signed = e.sign(msg, 0);
    signed.payload = GgsMessage::Heartbeat {
        peer: String::from("me"),
        model_hash: String::from("0xabd"),
    };
    assert!(!e.verify(&signed));
}

#[test]
fn signed_envelope_codec_roundtrip() {
    let e = engine();
    let msg = GgsMessage::Heartbeat {
        peer: String::from("me"),
        model_hash: String::from("0xabc"),
    };
    let signed = e.sign(msg, 42);
    let bytes = encode_signed(&signed);
    let back = decode_signed(&bytes).expect("canonical bytes decode");
    // the unknown subject got the default weight, and it survives the wire
    assert_eq!(back.staking_score, 100_000);
    assert!(e.verify(&back));
    assert!(decode_signed(&vec![1, 2, 3]).is_none());
}

#[test]
fn stake_ledger_defaults_and_floors() {
    let mut e = engine();
    e.update_stake(String::from("p"), 0, 0, 50_000, 1000);
    let (a, b, rep) = e.stake_of(&String::from("p")).expect("present");
    assert_eq!(a, 1_000_000);
    assert_eq!(b, 100_000);
    assert_eq!(rep, 1_050_000);
    // reputation floors at -1 unit, stakes at zero
    e.update_stake(String::from("p"), -5 * M, -5 * M, -10 * M, 2000);
    let (a, b, rep) = e.stake_of(&String::from("p")).expect("present");
    assert_eq!(a, 0);
    assert_eq!(b, 0);
    assert_eq!(rep, -1_000_000);
    assert!(e.stake_of(&String::from("q")).is_none());
}

#[test]
fn stale_stake_records_are_pruned() {
    let mut e = engine();
    e.update_stake(String::from("old"), 0, 0, 0, 0);
    e.update_stake(String::from("fresh"), 0, 0, 0, 400_000);
    e.prune_stale(400_001);
    assert!(e.stake_of(&String::from("old")).is_none());
    assert!(e.stake_of(&String::from("fresh")).is_some());
}

#[test]
fn combined_weight_is_clipped() {
    assert_eq!(clamp_weight_micro(-3), 0);
    assert_eq!(clamp_weight_micro(2_500_000), 2_500_000);
    assert_eq!(clamp_weight_micro(9_000_000), 5_000_000);
}

fn probe(t: &mut TopologySelector, id: &str, sim: i64, now: u64) {
    t.update_peer(String::from(id), vec![0], GeoPoint { lat_micro: 0, lon_micro: 0 }, sim, 0, now);
}

#[test]
fn neighbor_ranking() {
    let config = TopologyConfig {
        max_neighbors: 2,
        failover_pool: 1,
        min_score: 200_000,
        geo_scale_micro_km: 500_000_000,
        peer_stale_secs: 120,
    };
    let mut t = TopologySelector::new(GeoPoint { lat_micro: 0, lon_micro: 0 }, config);
    // distance 0 gives geo affinity 1.0; score = (6 sim + 4 geo) / 10
    probe(&mut t, "a", 833_334, 0); // score 0.9
    probe(&mut t, "b", 166_667, 0); // score 0.5
    probe(&mut t, "c", -166_666, 0); // score 0.3
    probe(&mut t, "d", -500_000, 0); // score 0.1, under the threshold
    let (primary, backups) = t.neighbor_sets();
    assert_eq!(primary, vec![String::from("a"), String::from("b")]);
    assert_eq!(backups, vec![String::from("c")]);
}

#[test]
fn stale_peers_are_evicted() {
    let mut t = TopologySelector::new(
        GeoPoint { lat_micro: 0, lon_micro: 0 },
        TopologyConfig::default_config(),
    );
    probe(&mut t, "early", 500_000, 0);
    assert!(t.peer_snapshot(&String::from("early")).is_some());
    // 121 seconds later any update evicts the silent peer
    probe(&mut t, "late", 500_000, 121_000);
    assert!(t.peer_snapshot(&String::from("early")).is_none());
    assert!(t.peer_snapshot(&String::from("late")).is_some());
}

#[test]
fn mark_unreachable_removes() {
    let mut t = TopologySelector::new(
        GeoPoint { lat_micro: 0, lon_micro: 0 },
        TopologyConfig::default_config(),
    );
    probe(&mut t, "a", 500_000, 0);
    probe(&mut t, "b", 500_000, 0);
    t.mark_unreachable(&String::from("a"));
    assert!(t.peer_snapshot(&String::from("a")).is_none());
    assert!(t.peer_snapshot(&String::from("b")).is_some());
}

#[test]
fn peer_snapshot_reports_profile() {
    let mut t = TopologySelector::new(
        GeoPoint { lat_micro: 0, lon_micro: 0 },
        TopologyConfig::default_config(),
    );
    t.update_peer(
        String::from("a"),
        vec![1, 2, 3],
        GeoPoint { lat_micro: 5, lon_micro: 6 },
        700_000,
        500_000_000, // at one geo-scale of distance the affinity is 0.5
        0,
    );
    let s = t.peer_snapshot(&String::from("a")).expect("present");
    assert_eq!(s.similarity, 700_000);
    assert_eq!(s.geo_affinity, 500_000);
    assert_eq!(s.embedding_dim, 3);
    assert_eq!(s.position.lat_micro, 5);
}

fn node() -> Node {
    let inference = InferenceEngine::with_params(vec![0; 4]);
    let topology = TopologySelector::new(
        GeoPoint { lat_micro: 0, lon_micro: 0 },
        TopologyConfig::default_config(),
    );
    let consensus = engine();
    let bandwidth = BandwidthBudget::new(BandwidthBudgetConfig::default_config(), 0);
    Node::new(String::from("self"), inference, topology, consensus, bandwidth)
}

#[test]
fn tick_publishes_heartbeat_then_probe() {
    let mut n = node();
    let out = n.on_tick(0, 100_000);
    assert_eq!(out.len(), 2);
    match &out[0].payload {
        GgsMessage::Heartbeat { peer, model_hash } => {
            assert_eq!(peer, "self");
            assert!(model_hash.starts_with("0x"));
        }
        _ => panic!("first message must be the heartbeat"),
    }
    match &out[1].payload {
        GgsMessage::SimilarityProbe { sender, embedding, .. } => {
            assert_eq!(sender, "self");
            assert_eq!(embedding.len(), 4);
        }
        _ => panic!("second message must be the probe"),
    }
    assert!(n.consensus.verify(&out[0]));
    assert!(n.consensus.verify(&out[1]));
}

#[test]
fn twelfth_tick_adds_dense_snapshot() {
    let mut n = node();
    for tick in 1..12 {
        let out = n.on_tick(tick, 0);
        assert_eq!(out.len(), 2);
    }
    let out = n.on_tick(12, 0);
    assert_eq!(out.len(), 3);
    match &out[2].payload {
        GgsMessage::DenseSnapshot { sender, snapshot } => {
            assert_eq!(sender, "self");
            assert_eq!(snapshot.dim, 4);
        }
        _ => panic!("third message must be the dense snapshot"),
    }
}

#[test]
fn inbound_with_bad_signature_changes_nothing() {
    let mut n = node();
    let msg = GgsMessage::Heartbeat {
        peer: String::from("peer-x"),
        model_hash: String::from("0x00"),
    };
    let mut signed = n.consensus.sign(msg, 0);
    signed.payload = GgsMessage::Heartbeat {
        peer: String::from("peer-x"),
        model_hash: String::from("0x01"),
    };
    let r = n.handle_signed_message(signed, 0, 0, 0, 0);
    assert!(r.is_none());
    // the ledger saw nothing
    assert!(n.consensus.stake_of(&String::from("peer-x")).is_none());
}

#[test]
fn inbound_heartbeat_credits_reputation() {
    let mut n = node();
    let msg = GgsMessage::Heartbeat {
        peer: String::from("peer-x"),
        model_hash: String::from("0x00"),
    };
    let signed = n.consensus.sign(msg, 0);
    let r = n.handle_signed_message(signed, 0, 0, 0, 0);
    assert!(r.is_none());
    let (_, _, rep) = n.consensus.stake_of(&String::from("peer-x")).expect("recorded");
    assert_eq!(rep, 1_050_000);
}

#[test]
fn probe_from_non_neighbor_is_demoted() {
    let mut n = node();
    let msg = GgsMessage::SimilarityProbe {
        embedding: vec![0; 4],
        position: GeoPoint { lat_micro: 0, lon_micro: 0 },
        sender: String::from("stranger"),
    };
    let signed = n.consensus.sign(msg, 0);
    // a similarity below the admission threshold keeps the peer out of the
    // primary pool, so the probe demotes it and no update goes back
    let r = n.handle_signed_message(signed, -1_000_000, 0, 0, 0);
    assert!(r.is_none());
    assert!(n.topology.peer_snapshot(&String::from("stranger")).is_none());
}

#[test]
fn probe_from_neighbor_gets_sparse_update() {
    let mut n = node();
    let msg = GgsMessage::SimilarityProbe {
        embedding: vec![0; 4],
        position: GeoPoint { lat_micro: 0, lon_micro: 0 },
        sender: String::from("friend"),
    };
    let signed = n.consensus.sign(msg, 0);
    let r = n.handle_signed_message(signed, 900_000, 0, 0, 0).expect("reply owed");
    match &r.payload {
        GgsMessage::SparseUpdate { sender, update } => {
            assert_eq!(sender, "self");
            assert!(update.indices.len() <= 16);
        }
        _ => panic!("reply must be a sparse update"),
    }
}

#[test]
fn inbound_sparse_update_is_applied() {
    let mut n = node();
    let update = ggs_node::types::SparseUpdate {
        indices: vec![1],
        values: vec![4 * M],
        version: 99,
    };
    let msg = GgsMessage::SparseUpdate { update, sender: String::from("peer-y") };
    let signed = n.consensus.sign(msg, 0);
    let r = n.handle_signed_message(signed, 0, 0, 5, 0);
    assert!(r.is_none());
    assert_eq!(n.inference.version(), 99);
    assert_eq!(n.inference.embedding()[1], 2 * M);
    let (a, _, _) = n.consensus.stake_of(&String::from("peer-y")).expect("recorded");
    assert_eq!(a, 1_100_000);
}

#[test]
fn topology_health_classification() {
    let n = node();
    let (health, primary, backups) = n.check_topology_health();
    assert_eq!(health, TopologyHealth::BackupsLow);
    assert!(primary.is_empty());
    assert!(backups.is_empty());
}

#[test]
fn geo_point_random_in_bounds() {
    for _ in 0..8 {
        let g = GeoPoint::random();
        assert!(-60_000_000 <= g.lat_micro && g.lat_micro < 60_000_000);
        assert!(-180_000_000 <= g.lon_micro && g.lon_micro < 180_000_000);
    }
}

#[test]
fn fresh_engine_has_small_random_parameters() {
    let e = InferenceEngine::new(InferenceConfig::default_config());
    assert_eq!(e.model_dim(), 256);
    assert_eq!(e.version(), 1);
    for v in e.embedding() {
        assert!(-100_000 <= v && v < 100_000);
    }
    for r in e.residual_snapshot() {
        assert_eq!(r, 0);
    }
}

#[test]
fn geo_affinity_formula() {
    let t = TopologySelector::new(
        GeoPoint { lat_micro: 0, lon_micro: 0 },
        TopologyConfig::default_config(),
    );
    // at zero distance the affinity is exactly 1
    assert_eq!(t.geo_affinity_from_distance(0), 1_000_000);
    // at one scale of distance it has fallen to one half
    assert_eq!(t.geo_affinity_from_distance(500_000_000), 500_000);
    // a zero scale pins it at zero
    let zero = TopologySelector::new(
        GeoPoint { lat_micro: 0, lon_micro: 0 },
        TopologyConfig { geo_scale_micro_km: 0, ..TopologyConfig::default_config() },
    );
    assert_eq!(zero.geo_affinity_from_distance(123), 0);
}
