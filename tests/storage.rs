use febft::benchmarks::{BatchMeta, BenchmarkHelper, BenchmarkHelperStore};
use febft::follower::{FollowerPhase, FollowerSynchronizer};
use febft::header::{Header, HeaderError, HEADER_LENGTH};
use febft::message::{ConsensusKind, ConsensusMessage, Digest};
use febft::ordering::{NodeId, SeqNo};
use febft::persistentdb::{RocksKVDB, KVDB};

fn sample_header() -> Header {
    Header {
        version: 0x0102,
        flags: 3,
        from: NodeId::new(7),
        to: NodeId::new(0x01020304),
        nonce: 0x1122334455667788,
        length: 99,
        digest: Digest { w0: 1, w1: 2, w2: 3, w3: u64::MAX },
        signature: (0..64u8).collect(),
    }
}

#[test]
fn header_round_trip() {
    let h = sample_header();
    let bytes = h.serialize();
    assert_eq!(bytes.len(), HEADER_LENGTH);
    assert_eq!(&bytes[0..4], &[0x01, 0x02, 0x00, 0x03]);
    assert_eq!(&bytes[8..12], &[0x01, 0x02, 0x03, 0x04]);
    let back = Header::deserialize(&bytes).unwrap();
    assert_eq!(back.version, h.version);
    assert_eq!(back.flags, h.flags);
    assert_eq!(back.from, h.from);
    assert_eq!(back.to, h.to);
    assert_eq!(back.nonce, h.nonce);
    assert_eq!(back.length, h.length);
    assert_eq!(back.digest, h.digest);
    assert_eq!(back.signature, h.signature);
    assert_eq!(back.serialize(), bytes);
}

#[test]
fn short_header_is_rejected() {
    assert!(matches!(Header::deserialize(&vec![0u8; 123]), Err(HeaderError::TooShort)));
}

fn b(s: &str) -> Vec<u8> {
    s.as_bytes().to_vec()
}

#[test]
fn kvdb_set_get_delete() {
    let mut db = KVDB::new(String::from("log")).unwrap();
    assert_eq!(db.get(&b("a")).unwrap(), None);
    db.set(&b("a"), &b("1")).unwrap();
    db.set(&b("b"), &b("2")).unwrap();
    db.set(&b("a"), &b("3")).unwrap();
    assert_eq!(db.get(&b("a")).unwrap(), Some(b("3")));
    assert_eq!(db.iter().unwrap().len(), 2);
    db.delete(&b("a")).unwrap();
    assert_eq!(db.get(&b("a")).unwrap(), None);
    assert_eq!(db.get(&b("b")).unwrap(), Some(b("2")));
    db.compact_range(&b("a"), &b("z")).unwrap();
    assert_eq!(db.get(&b("b")).unwrap(), Some(b("2")));
}

#[test]
fn kvdb_ranges_and_prefixes() {
    let mut db = KVDB::new(String::from("log")).unwrap();
    db.set_all(&vec![(b("k1"), b("a")), (b("k2"), b("b")), (b("k3"), b("c")), (b("x1"), b("d"))]).unwrap();
    let range = db.iter_range(Some(b("k2")), Some(b("x"))).unwrap();
    let keys: Vec<Vec<u8>> = range.iter().map(|e| e.0.clone()).collect();
    assert_eq!(keys, vec![b("k2"), b("k3")]);
    assert_eq!(db.iter_prefix(b("k")).len(), 3);
    db.erase_range(&b("k1"), &b("k3")).unwrap();
    assert_eq!(db.get(&b("k1")).unwrap(), None);
    assert_eq!(db.get(&b("k2")).unwrap(), None);
    assert_eq!(db.get(&b("k3")).unwrap(), Some(b("c")));
    db.erase_keys(&vec![b("k3"), b("x1")]).unwrap();
    assert!(db.iter().unwrap().is_empty());
}

#[test]
fn rocks_store_delete_keys() {
    let mut s = RocksKVDB::new();
    s.set(b("a"), b("1"));
    s.set(b("b"), b("2"));
    s.delete_keys(&vec![b("a")]);
    assert_eq!(s.get(&b("a")), None);
    assert_eq!(s.get(&b("b")), Some(b("2")));
    s.erase_range(&b("a"), &b("c"));
    assert_eq!(s.get(&b("b")), None);
    s.compact_prefix(&b("a"));
}

#[test]
fn benchmark_samples() {
    let mut h = BenchmarkHelper::new(4);
    5usize.store(&mut h);
    u128::MAX.store(&mut h);
    assert_eq!(h.values(), &vec![5, i64::MAX]);
    h.reset();
    assert!(h.values().is_empty());
    let m = BatchMeta::new(17);
    assert_eq!(m.execution_time, 17);
    assert_eq!(m.consensus_start_time, 17);
}

#[test]
fn follower_watches_batch() {
    let f = FollowerSynchronizer::new();
    let m = ConsensusMessage {
        seq: SeqNo::zero(),
        view: SeqNo::zero(),
        from: NodeId::new(0),
        kind: ConsensusKind::PrePrepare(Digest { w0: 0, w1: 0, w2: 0, w3: 0 }, vec![4, 5]),
    };
    assert_eq!(f.watch_request_batch(&m), vec![4, 5]);
    assert_ne!(FollowerPhase::NormalPhase, FollowerPhase::SyncPhase);
}

#[test]
fn kvdb_iterates_in_key_order() {
    let mut db = KVDB::new(String::from("log")).unwrap();
    for k in ["m", "z", "a", "ma", "m"] {
        db.set(&b(k), &b("v")).unwrap();
    }
    let keys: Vec<Vec<u8>> = db.iter().unwrap().into_iter().map(|e| e.0).collect();
    assert_eq!(keys, vec![b("a"), b("m"), b("ma"), b("z")]);
    let pre: Vec<Vec<u8>> = db.iter_prefix(b("m")).into_iter().map(|e| e.0).collect();
    assert_eq!(pre, vec![b("m"), b("ma")]);
}

#[test]
fn trimmed_samples_drop_the_extreme_tenth() {
    let mut h = BenchmarkHelper::new(10);
    for v in [9usize, 1, 8, 2, 7, 3, 6, 4, 5, 10] {
        v.store(&mut h);
    }
    assert_eq!(h.trimmed(true), vec![2, 3, 4, 5, 6, 7, 8, 9]);
    assert_eq!(h.trimmed(false), vec![1, 2, 3, 4, 5, 6, 7, 8, 9, 10]);
}

fn same_message(a: &ConsensusMessage, b: &ConsensusMessage) -> bool {
    a.seq == b.seq
        && a.view == b.view
        && a.from == b.from
        && match (&a.kind, &b.kind) {
            (ConsensusKind::PrePrepare(x, p), ConsensusKind::PrePrepare(y, q)) => x == y && p == q,
            (ConsensusKind::Prepare(x), ConsensusKind::Prepare(y)) => x == y,
            (ConsensusKind::Commit(x), ConsensusKind::Commit(y)) => x == y,
            _ => false,
        }
}

#[test]
fn consensus_message_round_trip() {
    let d = Digest { w0: 1, w1: 2, w2: 3, w3: 4 };
    let kinds = vec![
        ConsensusKind::PrePrepare(d, vec![7, u64::MAX, 0]),
        ConsensusKind::PrePrepare(d, vec![]),
        ConsensusKind::Prepare(d),
        ConsensusKind::Commit(d),
    ];
    for kind in kinds {
        let m = ConsensusMessage { seq: SeqNo::from_u32(5), view: SeqNo::from_u32(2), from: NodeId::new(3), kind };
        let bytes = m.serialize();
        let back = ConsensusMessage::deserialize(&bytes).unwrap();
        assert!(same_message(&m, &back));
        // the encoding is the same on every run
        assert_eq!(back.serialize(), bytes);
    }
}

#[test]
fn consensus_message_layout_and_errors() {
    let d = Digest { w0: 0, w1: 0, w2: 0, w3: 0 };
    let m = ConsensusMessage { seq: SeqNo::from_u32(1), view: SeqNo::zero(), from: NodeId::new(2), kind: ConsensusKind::PrePrepare(d, vec![9]) };
    let bytes = m.serialize();
    assert_eq!(bytes.len(), 45 + 8 + 8);
    assert_eq!(&bytes[0..5], &[0, 0, 0, 0, 1]);
    assert_eq!(&bytes[45..53], &[0, 0, 0, 0, 0, 0, 0, 1]);
    assert!(ConsensusMessage::deserialize(&bytes[..60].to_vec()).is_err());
    let mut bad = bytes.clone();
    bad[0] = 3;
    assert!(ConsensusMessage::deserialize(&bad).is_err());
    let prep = ConsensusMessage { seq: SeqNo::zero(), view: SeqNo::zero(), from: NodeId::new(0), kind: ConsensusKind::Prepare(d) };
    let mut long = prep.serialize();
    long.push(0);
    assert!(ConsensusMessage::deserialize(&long).is_err());
}
