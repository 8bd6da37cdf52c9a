use diembft::codec::{deserialize_message, serialize_message};
use diembft::messages::{Block, CoreMessage, Timeout, Vote, QC};
use diembft::types::{Digest, SecretKey, Signature};

fn secret(name: u64) -> SecretKey {
    SecretKey { name }
}

fn sample_qc() -> QC {
    QC {
        hash: Digest { w0: 1, w1: 2, w2: 3, w3: 4 },
        view: 5,
        round: 6,
        height: 7,
        fallback: true,
        proposer: 8,
        votes: vec![
            (10, Signature { signer: 10, content: Digest { w0: 9, w1: 9, w2: 9, w3: 9 } }),
            (20, Signature { signer: 20, content: Digest { w0: 9, w1: 9, w2: 9, w3: 9 } }),
        ],
        next_leader: Some(30),
    }
}

fn sample_block() -> Block {
    Block::new(
        sample_qc(),
        10,
        5,
        7,
        3,
        false,
        vec![Digest { w0: 11, w1: 12, w2: 13, w3: 14 }],
        &secret(10),
    )
}

fn assert_qc_eq(a: &QC, b: &QC) {
    assert_eq!(a.hash, b.hash);
    assert_eq!(a.view, b.view);
    assert_eq!(a.round, b.round);
    assert_eq!(a.height, b.height);
    assert_eq!(a.fallback, b.fallback);
    assert_eq!(a.proposer, b.proposer);
    assert_eq!(a.votes, b.votes);
    assert_eq!(a.next_leader, b.next_leader);
}

fn assert_block_eq(a: &Block, b: &Block) {
    assert_eq!(a.author, b.author);
    assert_eq!(a.round, b.round);
    assert_eq!(a.view, b.view);
    assert_eq!(a.height, b.height);
    assert_eq!(a.fallback, b.fallback);
    assert_qc_eq(&a.qc, &b.qc);
    assert_eq!(a.payload, b.payload);
    assert_eq!(a.signature, b.signature);
}

#[test]
fn round_trip_propose() {
    let m = CoreMessage::Propose(sample_block());
    let bytes = serialize_message(&m);
    match deserialize_message(&bytes) {
        Some(CoreMessage::Propose(b)) => assert_block_eq(&b, &sample_block()),
        _ => panic!("round trip failed"),
    }
}

#[test]
fn round_trip_vote() {
    let v = Vote::new(&sample_block(), 20, &secret(20));
    let m = CoreMessage::Vote(v);
    let bytes = serialize_message(&m);
    match deserialize_message(&bytes) {
        Some(CoreMessage::Vote(got)) => {
            let want = Vote::new(&sample_block(), 20, &secret(20));
            assert_eq!(got.hash, want.hash);
            assert_eq!(got.round, want.round);
            assert_eq!(got.view, want.view);
            assert_eq!(got.height, want.height);
            assert_eq!(got.fallback, want.fallback);
            assert_eq!(got.block_author, want.block_author);
            assert_eq!(got.author, want.author);
            assert_qc_eq(&got.parent_qc, &want.parent_qc);
            assert_eq!(got.signature, want.signature);
        }
        _ => panic!("round trip failed"),
    }
}

#[test]
fn round_trip_timeout() {
    let t = Timeout::new(sample_qc(), 9, 30, &secret(30));
    let bytes = serialize_message(&CoreMessage::Timeout(t));
    match deserialize_message(&bytes) {
        Some(CoreMessage::Timeout(got)) => {
            assert_qc_eq(&got.high_qc, &sample_qc());
            assert_eq!(got.round, 9);
            assert_eq!(got.author, 30);
        }
        _ => panic!("round trip failed"),
    }
}

#[test]
fn round_trip_sync_request_and_reply() {
    let d = Digest { w0: 7, w1: 8, w2: 9, w3: 10 };
    let bytes = serialize_message(&CoreMessage::SyncRequest(d, 40));
    match deserialize_message(&bytes) {
        Some(CoreMessage::SyncRequest(got, who)) => {
            assert_eq!(got, d);
            assert_eq!(who, 40);
        }
        _ => panic!("round trip failed"),
    }
    let bytes = serialize_message(&CoreMessage::SyncReply(sample_block()));
    match deserialize_message(&bytes) {
        Some(CoreMessage::SyncReply(b)) => assert_block_eq(&b, &sample_block()),
        _ => panic!("round trip failed"),
    }
}

#[test]
fn deserialize_rejects_garbage() {
    assert!(deserialize_message(&Vec::new()).is_none());
    assert!(deserialize_message(&vec![9u8, 0, 0]).is_none());
    // A truncated encoding is refused.
    let mut bytes = serialize_message(&CoreMessage::SyncRequest(
        Digest { w0: 1, w1: 1, w2: 1, w3: 1 },
        10,
    ));
    bytes.pop();
    assert!(deserialize_message(&bytes).is_none());
    // Trailing bytes are refused: the whole input must be consumed.
    let mut bytes = serialize_message(&CoreMessage::SyncRequest(
        Digest { w0: 1, w1: 1, w2: 1, w3: 1 },
        10,
    ));
    bytes.push(0);
    assert!(deserialize_message(&bytes).is_none());
}

#[test]
fn digest_depends_on_hashed_fields_only() {
    // Two blocks that differ only in signature and in the certificate's
    // signature list share their digest.
    let b1 = sample_block();
    let mut b2 = sample_block();
    b2.signature = Signature { signer: 99, content: Digest { w0: 0, w1: 0, w2: 0, w3: 0 } };
    b2.qc.votes.pop();
    b2.qc.next_leader = None;
    b2.qc.proposer = 77;
    assert_eq!(b1.digest(), b2.digest());
    // Any hashed field changes the digest.
    let mut b3 = sample_block();
    b3.round = b3.round + 1;
    assert_ne!(b1.digest(), b3.digest());
    let mut b4 = sample_block();
    b4.qc.hash = Digest { w0: 0, w1: 0, w2: 0, w3: 0 };
    assert_ne!(b1.digest(), b4.digest());
    let mut b5 = sample_block();
    b5.payload.pop();
    assert_ne!(b1.digest(), b5.digest());
}

#[test]
fn digest_is_stable_across_serialization() {
    let b1 = sample_block();
    let bytes = serialize_message(&CoreMessage::Propose(sample_block()));
    match deserialize_message(&bytes) {
        Some(CoreMessage::Propose(b)) => assert_eq!(b.digest(), b1.digest()),
        _ => panic!("round trip failed"),
    }
}

#[test]
fn wire_format_is_little_endian_and_tagged() {
    let d = Digest { w0: 0x0102030405060708, w1: 0, w2: 0, w3: 0 };
    let bytes = serialize_message(&CoreMessage::SyncRequest(d, 0x0a0b));
    assert_eq!(bytes.len(), 41);
    assert_eq!(bytes[0], 3);
    assert_eq!(&bytes[1..9], &[8, 7, 6, 5, 4, 3, 2, 1]);
    assert_eq!(bytes[33], 0x0b);
    assert_eq!(bytes[34], 0x0a);
}
