use ggs_node::bandwidth::{BandwidthBudget, BandwidthBudgetConfig};
use ggs_node::codec::{decode_message, encode_message};
use ggs_node::inference::InferenceEngine;
use ggs_node::types::{compress_indices, decompress_indices, GgsMessage, SparseUpdate, TensorSnapshot};

const M: i64 = 1_000_000;

fn engine(params: Vec<i64>, residual: Vec<i64>, version: u64) -> InferenceEngine {
    InferenceEngine { params, residual, version }
}

#[test]
fn top_k_determinism() {
    // params all zero, residual 0.1, -0.9, 0.5, 0.05, -0.2, 0.7, 0, 0.3
    let residual = vec![
        M / 10,
        -9 * M / 10,
        M / 2,
        M / 20,
        -M / 5,
        7 * M / 10,
        0,
        3 * M / 10,
    ];
    let mut e = engine(vec![0; 8], residual, 1);
    let u = e.make_sparse_update(3);
    assert_eq!(u.indices, vec![1, 4, 2]); // decoded: 1, 5, 7
    assert_eq!(u.values, vec![-9 * M / 10, 7 * M / 10, 3 * M / 10]);
    assert_eq!(u.version, 2);
    assert_eq!(
        e.residual_snapshot(),
        vec![M / 10, 0, M / 2, M / 20, -M / 5, 0, 0, 0]
    );
    // the parameters themselves are untouched by extraction
    assert_eq!(e.embedding(), vec![0; 8]);
}

#[test]
fn top_k_fills_from_the_remainder() {
    // the walk takes the global best first and runs off the end; the fill
    // pass brings the update back up to min(k, D) entries
    let mut e = engine(vec![0, 0], vec![M / 10, 9 * M / 10], 1);
    let u = e.make_sparse_update(2);
    assert_eq!(u.indices, vec![0, 1]);
    assert_eq!(u.values, vec![M / 10, 9 * M / 10]);
    assert_eq!(e.residual_snapshot(), vec![0, 0]);
}

#[test]
fn dense_blend() {
    let mut e = engine(vec![1 * M, 2 * M], vec![0, 0], 5);
    let s = TensorSnapshot::new(vec![3 * M, -2 * M], 10);
    e.apply_dense_snapshot(&s);
    assert_eq!(e.embedding(), vec![1_400_000, 1_200_000]);
    assert_eq!(e.version(), 10);
}

#[test]
fn dense_blend_ignores_extra_values() {
    let mut e = engine(vec![0], vec![0], 1);
    let s = TensorSnapshot::new(vec![5 * M, 7 * M], 1);
    e.apply_dense_snapshot(&s);
    assert_eq!(e.embedding(), vec![1 * M]);
}

#[test]
fn sparse_apply_with_out_of_range() {
    let mut e = engine(vec![0, 0, 0], vec![0, 0, 0], 1);
    // decoded indices 1 and 5; index 5 is outside the model and skipped
    let u = SparseUpdate { indices: vec![1, 4], values: vec![4 * M, 9 * M], version: 1 };
    e.apply_sparse_update(&u);
    assert_eq!(e.embedding(), vec![0, 2 * M, 0]);
    assert_eq!(e.residual_snapshot(), vec![0, -2 * M, 0]);
}

#[test]
fn sparse_apply_raises_version() {
    let mut e = engine(vec![0], vec![0], 7);
    let low = SparseUpdate { indices: vec![0], values: vec![0], version: 3 };
    e.apply_sparse_update(&low);
    assert_eq!(e.version(), 7);
    let high = SparseUpdate { indices: vec![0], values: vec![0], version: 11 };
    e.apply_sparse_update(&high);
    assert_eq!(e.version(), 11);
}

#[test]
fn local_train_step_stays_close() {
    let mut e = engine(vec![0; 16], vec![0; 16], 1);
    e.local_train_step();
    assert_eq!(e.version(), 2);
    for v in e.embedding() {
        assert!(-1000 <= v && v <= 1000);
    }
}

#[test]
fn index_roundtrip() {
    let idx: Vec<usize> = vec![1, 5, 7, 8, 200];
    let compressed = compress_indices(&idx);
    assert_eq!(compressed, vec![1, 4, 2, 1, 192]);
    assert_eq!(decompress_indices(&compressed), idx);
}

#[test]
fn index_roundtrip_empty_and_single() {
    let empty: Vec<usize> = Vec::new();
    assert_eq!(decompress_indices(&compress_indices(&empty)), empty);
    let one: Vec<usize> = vec![42];
    assert_eq!(decompress_indices(&compress_indices(&one)), one);
}

#[test]
fn bandwidth_roll() {
    let config = BandwidthBudgetConfig { sparse_per_window: 2, dense_bytes_per_window: 100, window_secs: 60 };
    let mut b = BandwidthBudget::new(config, 0);
    assert!(b.allow_sparse(0));
    assert!(b.allow_sparse(10_000));
    assert!(!b.allow_sparse(59_999));
    assert!(b.allow_sparse(61_000));
    assert!(b.allow_sparse(61_001));
    assert!(!b.allow_sparse(61_002));
}

#[test]
fn bandwidth_dense_bytes() {
    let config = BandwidthBudgetConfig { sparse_per_window: 2, dense_bytes_per_window: 100, window_secs: 60 };
    let mut b = BandwidthBudget::new(config, 0);
    assert!(b.allow_dense(0, 60));
    assert!(!b.allow_dense(0, 60));
    assert!(b.allow_dense(0, 40));
    assert!(!b.allow_dense(1, 1));
    assert!(b.allow_dense(60_000, 100));
}

#[test]
fn bandwidth_defaults() {
    let d = BandwidthBudgetConfig::default_config();
    assert_eq!(d.sparse_per_window, 12);
    assert_eq!(d.dense_bytes_per_window, 256 * 1024);
    assert_eq!(d.window_secs, 60);
}

#[test]
fn message_codec_roundtrip() {
    let msg = GgsMessage::SparseUpdate {
        update: SparseUpdate { indices: vec![1, 4], values: vec![4 * M, -9 * M], version: 17 },
        sender: String::from("peer-a"),
    };
    let bytes = encode_message(&msg);
    let (back, used) = decode_message(&bytes, 0).expect("canonical bytes decode");
    assert_eq!(used, bytes.len());
    match back {
        GgsMessage::SparseUpdate { update, sender } => {
            assert_eq!(sender, "peer-a");
            assert_eq!(update.indices, vec![1, 4]);
            assert_eq!(update.values, vec![4 * M, -9 * M]);
            assert_eq!(update.version, 17);
        }
        _ => panic!("wrong variant"),
    }
}

#[test]
fn message_codec_rejects_garbage() {
    assert!(decode_message(&vec![9, 9, 9], 0).is_none());
    // a non-ascending delta list is not a valid sparse update on the wire
    let bad = GgsMessage::SparseUpdate {
        update: SparseUpdate { indices: vec![3, 0], values: vec![0, 0], version: 1 },
        sender: String::from("x"),
    };
    let bytes = encode_message(&bad);
    assert!(decode_message(&bytes, 0).is_none());
}

#[test]
fn tensor_hash_is_deterministic_and_sensitive() {
    let a = TensorSnapshot::new(vec![1, 2, 3], 9);
    let b = TensorSnapshot::new(vec![1, 2, 3], 9);
    let c = TensorSnapshot::new(vec![1, 2, 4], 9);
    let d = TensorSnapshot::new(vec![1, 2, 3], 10);
    assert_eq!(a.hash(), b.hash());
    assert_ne!(a.hash(), c.hash());
    assert_ne!(a.hash(), d.hash());
    let h = a.hash();
    assert!(h.starts_with("0x"));
    assert_eq!(h.len(), 2 + 64);
    assert!(h[2..].chars().all(|ch| ch.is_ascii_hexdigit() && !ch.is_ascii_uppercase()));
}

#[test]
fn heartbeat_and_probe_codec_roundtrip() {
    let hb = GgsMessage::Heartbeat {
        peer: String::from("peer-a"),
        model_hash: String::from("0x00ff"),
    };
    let bytes = encode_message(&hb);
    match decode_message(&bytes, 0).expect("decodes").0 {
        GgsMessage::Heartbeat { peer, model_hash } => {
            assert_eq!(peer, "peer-a");
            assert_eq!(model_hash, "0x00ff");
        }
        _ => panic!("wrong variant"),
    }
    let probe = GgsMessage::SimilarityProbe {
        embedding: vec![-5 * M, 3 * M],
        position: ggs_node::types::GeoPoint { lat_micro: 45_000_000, lon_micro: -170_000_000 },
        sender: String::from("peer-b"),
    };
    let bytes = encode_message(&probe);
    match decode_message(&bytes, 0).expect("decodes").0 {
        GgsMessage::SimilarityProbe { embedding, position, sender } => {
            assert_eq!(embedding, vec![-5 * M, 3 * M]);
            assert_eq!(position.lat_micro, 45_000_000);
            assert_eq!(position.lon_micro, -170_000_000);
            assert_eq!(sender, "peer-b");
        }
        _ => panic!("wrong variant"),
    }
}

#[test]
fn dense_codec_roundtrip_and_bounds() {
    let dense = GgsMessage::DenseSnapshot {
        snapshot: TensorSnapshot::new(vec![1, -2, 3], 7),
        sender: String::from("peer-c"),
    };
    let bytes = encode_message(&dense);
    match decode_message(&bytes, 0).expect("decodes").0 {
        GgsMessage::DenseSnapshot { snapshot, sender } => {
            assert_eq!(snapshot.dim, 3);
            assert_eq!(snapshot.values, vec![1, -2, 3]);
            assert_eq!(snapshot.version, 7);
            assert_eq!(sender, "peer-c");
        }
        _ => panic!("wrong variant"),
    }
    // a value outside the clip bound is not valid on the wire
    let wild = GgsMessage::DenseSnapshot {
        snapshot: TensorSnapshot::new(vec![2_000_000_000_000], 7),
        sender: String::from("peer-c"),
    };
    let bytes = encode_message(&wild);
    assert!(decode_message(&bytes, 0).is_none());
}
