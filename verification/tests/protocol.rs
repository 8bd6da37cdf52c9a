use diembft::aggregator::VoteAggregator;
use diembft::committee::{Authority, Committee, Parameters};
use diembft::errors::{DiemError, MempoolError};
use diembft::leader::ReputationLeaderElector;
use diembft::mempool::{PayloadStatus, SimpleMempool};
use diembft::messages::{Block, Vote, QC};
use diembft::store::BlockStore;
use diembft::types::{Digest, SecretKey};

fn committee4() -> Committee {
    let auths = vec![
        Authority { name: 10, front_address: 1010, mempool_address: 2010 },
        Authority { name: 20, front_address: 1020, mempool_address: 2020 },
        Authority { name: 30, front_address: 1030, mempool_address: 2030 },
        Authority { name: 40, front_address: 1040, mempool_address: 2040 },
    ];
    Committee::new(auths, 1).unwrap()
}

fn secret(name: u64) -> SecretKey {
    SecretKey { name }
}

#[test]
fn thresholds_of_four() {
    let c = committee4();
    assert_eq!(c.size(), 4);
    assert_eq!(c.quorum_threshold(), 3);
    assert_eq!(c.validity_threshold(), 2);
    assert_eq!(c.epoch(), 1);
}

#[test]
fn membership_and_addresses() {
    let c = committee4();
    assert!(c.is_member(&20));
    assert!(!c.is_member(&25));
    assert_eq!(c.stake(&20), 1);
    assert_eq!(c.stake(&25), 0);
    assert_eq!(c.front_address(&30).unwrap(), 1030);
    assert_eq!(c.mempool_address(&30).unwrap(), 2030);
    assert_eq!(c.front_address(&31), Err(MempoolError::NotInCommittee(31)));
    let b = c.broadcast_addresses(&20);
    assert_eq!(b, vec![2010, 2030, 2040]);
}

#[test]
fn committee_rejects_unsorted() {
    let auths = vec![
        Authority { name: 20, front_address: 0, mempool_address: 0 },
        Authority { name: 10, front_address: 0, mempool_address: 0 },
    ];
    assert!(Committee::new(auths, 0).is_none());
    assert!(Committee::new(Vec::new(), 0).is_none());
}

#[test]
fn default_parameters() {
    let p = Parameters::default();
    assert_eq!(p.queue_capacity, 10000);
    assert_eq!(p.max_payload_size, 100000);
    assert_eq!(p.timeout_delay, 100);
    assert_eq!(p.sync_retry_delay, 1000);
}

#[test]
fn round_robin_pairs_rounds() {
    let e = ReputationLeaderElector::new(committee4());
    assert_eq!(e.round_robin(0), 10);
    assert_eq!(e.round_robin(1), 10);
    assert_eq!(e.round_robin(2), 20);
    assert_eq!(e.round_robin(3), 20);
    assert_eq!(e.round_robin(8), 10);
}

#[test]
fn next_leader_uses_hint_only_when_consecutive() {
    let e = ReputationLeaderElector::new(committee4());
    let mut qc = QC::genesis();
    qc.round = 4;
    qc.next_leader = Some(30);
    assert_eq!(e.next_leader(&qc, 5), 30);
    assert_eq!(e.next_leader(&qc, 6), 40);
}

#[test]
fn leader_determinism_across_replicas() {
    let e1 = ReputationLeaderElector::new(committee4());
    let e2 = ReputationLeaderElector::new(committee4());
    let mut qc = QC::genesis();
    qc.round = 7;
    for r in 0..20u64 {
        assert_eq!(e1.next_leader(&qc, r), e2.next_leader(&qc, r));
    }
}

fn signed_qc_over(block: &Block, voters: &[u64]) -> QC {
    let hash = block.digest();
    let votes: Vec<(u64, diembft::types::Signature)> = voters
        .iter()
        .map(|v| {
            let vote = Vote::new(block, *v, &secret(*v));
            (*v, vote.signature)
        })
        .collect();
    QC {
        hash,
        view: block.view,
        round: block.round,
        height: block.height,
        fallback: block.fallback,
        proposer: block.author,
        votes,
        next_leader: None,
    }
}

/// A two-block chain on top of genesis; returns the store and the certificate
/// of the tip.
fn chain_two(author1: u64, author2: u64, voters2: &[u64]) -> (BlockStore, QC) {
    let mut store = BlockStore::new();
    let genesis = Block::genesis();
    store.write(&genesis).unwrap();
    let b1 = Block::new(QC::genesis(), author1, 0, 1, 1, false, Vec::new(), &secret(author1));
    store.write(&b1).unwrap();
    let qc1 = signed_qc_over(&b1, &[10, 20, 30]);
    let b2 = Block::new(qc1, author2, 0, 2, 2, false, Vec::new(), &secret(author2));
    store.write(&b2).unwrap();
    let qc2 = signed_qc_over(&b2, &[10, 20, 30, 40]);
    (store, qc2)
}

#[test]
fn elect_future_leader_none_when_voters_are_recent_authors() {
    // Recent authors {10, 20}; window voters {10, 20}: no candidate remains.
    let e = ReputationLeaderElector::new(committee4());
    let mut store = BlockStore::new();
    let genesis = Block::genesis();
    store.write(&genesis).unwrap();
    let b1 = Block::new(QC::genesis(), 10, 0, 1, 1, false, Vec::new(), &secret(10));
    store.write(&b1).unwrap();
    let qc1 = signed_qc_over(&b1, &[10, 20, 30]);
    let b2 = Block::new(qc1, 20, 0, 2, 2, false, Vec::new(), &secret(20));
    store.write(&b2).unwrap();
    let mut qc2 = signed_qc_over(&b2, &[10, 20]);
    qc2.votes.truncate(2);
    let r = e.elect_future_leader(&store, &qc2, 3).unwrap();
    assert_eq!(r, None);
}

#[test]
fn elect_future_leader_rewards_recent_voters() {
    // Recent authors are {10, 20}; recent voters are {10, 20, 30, 40}: the
    // winner is a deterministic element of {30, 40}. The walk ends at the
    // genesis certificate (round 0), so the smaller candidate wins.
    let e = ReputationLeaderElector::new(committee4());
    let (store, qc2) = chain_two(10, 20, &[10, 20, 30, 40]);
    let r = e.elect_future_leader(&store, &qc2, 3).unwrap();
    assert_eq!(r, Some(30));
    // Deterministic across replicas: a second elector over the same prefix
    // returns the same leader.
    let e2 = ReputationLeaderElector::new(committee4());
    let r2 = e2.elect_future_leader(&store, &qc2, 3).unwrap();
    assert_eq!(r, r2);
}

#[test]
fn elect_future_leader_requires_consecutive_round() {
    let e = ReputationLeaderElector::new(committee4());
    let (store, qc2) = chain_two(10, 20, &[10, 20, 30, 40]);
    assert_eq!(e.elect_future_leader(&store, &qc2, 5).unwrap(), None);
}

#[test]
fn elect_future_leader_missing_ancestor_is_store_error() {
    let e = ReputationLeaderElector::new(committee4());
    let store = BlockStore::new();
    let b1 = Block::new(QC::genesis(), 10, 0, 1, 1, false, Vec::new(), &secret(10));
    let qc1 = signed_qc_over(&b1, &[10, 20, 30]);
    assert_eq!(e.elect_future_leader(&store, &qc1, 2), Err(DiemError::StoreError));
}

#[test]
fn check_block_wrong_leader() {
    let e = ReputationLeaderElector::new(committee4());
    let genesis = Block::genesis();
    // Round 1 demands the round-robin leader of round 0, which is 10.
    let good = Block::new(QC::genesis(), 10, 0, 1, 1, false, Vec::new(), &secret(10));
    assert!(e.check_block(&good, &genesis).is_ok());
    let bad = Block::new(QC::genesis(), 30, 0, 1, 1, false, Vec::new(), &secret(30));
    match e.check_block(&bad, &genesis) {
        Err(DiemError::WrongLeader { leader, round, .. }) => {
            assert_eq!(leader, 30);
            assert_eq!(round, 1);
        }
        other => panic!("expected WrongLeader, got {:?}", other),
    }
}

#[test]
fn check_vote_recipient() {
    let e = ReputationLeaderElector::new(committee4());
    let b1 = Block::new(QC::genesis(), 10, 0, 1, 1, false, Vec::new(), &secret(10));
    let vote = Vote::new(&b1, 30, &secret(30));
    // The vote for round 1 goes to the leader of round 2, which is 20.
    assert!(e.check_vote(&vote, 20).is_ok());
    assert_eq!(e.check_vote(&vote, 10), Err(DiemError::UnexpectedOrLateVote(30)));
}

#[test]
fn qc_formation_needs_exact_quorum() {
    // Committee of 4, f = 1: at 2f = 2 signatures no certificate, at exactly
    // 2f + 1 = 3 the certificate is emitted.
    let c = committee4();
    let b1 = Block::new(QC::genesis(), 10, 0, 1, 1, false, Vec::new(), &secret(10));
    let v1 = Vote::new(&b1, 10, &secret(10));
    let v2 = Vote::new(&b1, 20, &secret(20));
    let v3 = Vote::new(&b1, 30, &secret(30));
    let mut agg = VoteAggregator::new(&v1);
    assert!(matches!(agg.append(&v1, &c), Ok(None)));
    assert!(matches!(agg.append(&v2, &c), Ok(None)));
    let qc = match agg.append(&v3, &c) {
        Ok(Some(qc)) => qc,
        other => panic!("expected a certificate, got {:?}", other.is_ok()),
    };
    assert_eq!(qc.votes.len(), 3);
    assert_eq!(qc.round, 1);
    assert_eq!(qc.hash, b1.digest());
    assert!(qc.verify(&c).is_ok());
}

#[test]
fn duplicate_voter_is_rejected_and_aggregator_unchanged() {
    let c = committee4();
    let b1 = Block::new(QC::genesis(), 10, 0, 1, 1, false, Vec::new(), &secret(10));
    let v1 = Vote::new(&b1, 10, &secret(10));
    let mut agg = VoteAggregator::new(&v1);
    assert!(matches!(agg.append(&v1, &c), Ok(None)));
    assert_eq!(agg.votes.len(), 1);
    assert_eq!(agg.append(&v1, &c).unwrap_err(), DiemError::AuthorityReuse(10));
    assert_eq!(agg.votes.len(), 1);
}

#[test]
fn aggregator_rejects_outsiders_and_bad_signatures() {
    let c = committee4();
    let b1 = Block::new(QC::genesis(), 10, 0, 1, 1, false, Vec::new(), &secret(10));
    let outsider = Vote::new(&b1, 77, &secret(77));
    let mut agg = VoteAggregator::new(&outsider);
    assert_eq!(agg.append(&outsider, &c).unwrap_err(), DiemError::UnknownAuthority(77));
    let mut forged = Vote::new(&b1, 20, &secret(20));
    forged.signature.signer = 30;
    assert_eq!(agg.append(&forged, &c).unwrap_err(), DiemError::InvalidSignature);
}

#[test]
fn qc_verify_distinguishes_errors() {
    let c = committee4();
    let b1 = Block::new(QC::genesis(), 10, 0, 1, 1, false, Vec::new(), &secret(10));
    let mut qc = signed_qc_over(&b1, &[10, 20, 30]);
    assert!(qc.verify(&c).is_ok());
    let spare = qc.votes[2];
    qc.votes.truncate(2);
    assert_eq!(qc.verify(&c), Err(DiemError::QCRequiresQuorum));
    qc.votes.push(spare);
    qc.votes[2].0 = qc.votes[0].0;
    qc.votes[2].1 = qc.votes[0].1;
    assert_eq!(qc.verify(&c), Err(DiemError::AuthorityReuse(10)));
}

#[test]
fn mempool_queue_and_verify() {
    let c = committee4();
    let mut params = Parameters::default();
    params.queue_capacity = 2;
    let mut mp = SimpleMempool::new(10, &c, &params).unwrap();
    assert!(matches!(SimpleMempool::new(99, &c, &params), Err(MempoolError::NotInCommittee(99))));
    let d1 = Digest { w0: 1, w1: 0, w2: 0, w3: 0 };
    let d2 = Digest { w0: 2, w1: 0, w2: 0, w3: 0 };
    let d3 = Digest { w0: 3, w1: 0, w2: 0, w3: 0 };
    assert!(mp.submit(d1));
    assert!(mp.submit(d2));
    assert!(!mp.submit(d3));
    assert_eq!(mp.verify(&d1), PayloadStatus::Accept);
    assert_eq!(mp.verify(&d3), PayloadStatus::Wait(d3));
    let batch = mp.get();
    assert_eq!(batch, vec![d1, d2]);
    assert_eq!(mp.get(), Vec::<Digest>::new());
    mp.garbage_collect(&d1);
    assert_eq!(mp.verify(&d1), PayloadStatus::Wait(d1));
}

#[test]
fn store_is_content_addressed_and_grounded() {
    let mut store = BlockStore::new();
    let genesis = Block::genesis();
    store.write(&genesis).unwrap();
    let b1 = Block::new(QC::genesis(), 10, 0, 1, 1, false, Vec::new(), &secret(10));
    store.write(&b1).unwrap();
    // Idempotent rewrite.
    store.write(&b1).unwrap();
    let read = store.read(&b1.digest()).unwrap();
    assert_eq!(read.round, 1);
    assert_eq!(read.author, 10);
    // A block whose parent is absent is refused.
    let qc_fake = {
        let mut q = signed_qc_over(&b1, &[10, 20, 30]);
        q.hash = Digest { w0: 9, w1: 9, w2: 9, w3: 9 };
        q
    };
    let orphan = Block::new(qc_fake, 20, 0, 2, 2, false, Vec::new(), &secret(20));
    assert_eq!(store.write(&orphan), Err(DiemError::StoreError));
    // A block below its parent's round is malformed.
    let mut bad = Block::new(signed_qc_over(&b1, &[10, 20, 30]), 20, 0, 1, 1, false, Vec::new(), &secret(20));
    bad.round = 1;
    assert_eq!(store.write(&bad), Err(DiemError::MalformedBlock));
}
