use diembft::committee::{Authority, Committee, Parameters};
use diembft::consensus::{Action, Core};
use diembft::errors::DiemError;
use diembft::messages::{Block, CoreMessage, Timeout, Vote, QC};
use diembft::types::{SecretKey, Signature};

fn committee4() -> Committee {
    let auths = vec![
        Authority { name: 10, front_address: 1010, mempool_address: 2010 },
        Authority { name: 20, front_address: 1020, mempool_address: 2020 },
        Authority { name: 30, front_address: 1030, mempool_address: 2030 },
        Authority { name: 40, front_address: 1040, mempool_address: 2040 },
    ];
    Committee::new(auths, 1).unwrap()
}

fn secret(name: u64) -> SecretKey {
    SecretKey { name }
}

fn core_for(name: u64) -> Core {
    Core::new(name, committee4(), secret(name), &Parameters::default()).unwrap()
}

fn signed_qc_over(block: &Block, voters: &[u64]) -> QC {
    let hash = block.digest();
    let votes: Vec<(u64, Signature)> = voters
        .iter()
        .map(|v| (*v, Vote::new(block, *v, &secret(*v)).signature))
        .collect();
    QC {
        hash,
        view: block.view,
        round: block.round,
        height: block.height,
        fallback: block.fallback,
        proposer: block.author,
        votes,
        next_leader: None,
    }
}

/// Three consecutive blocks on top of genesis, authored by the leaders the
/// elector demands (rounds are paired: rounds 0 and 1 share leader 10, rounds
/// 2 and 3 share leader 20).
fn chain3() -> (Block, Block, Block) {
    let b1 = Block::new(QC::genesis(), 10, 0, 1, 1, false, Vec::new(), &secret(10));
    let qc1 = signed_qc_over(&b1, &[10, 20, 30]);
    let b2 = Block::new(qc1, 10, 0, 2, 2, false, Vec::new(), &secret(10));
    let qc2 = signed_qc_over(&b2, &[10, 20, 30]);
    let b3 = Block::new(qc2, 20, 0, 3, 3, false, Vec::new(), &secret(20));
    (b1, b2, b3)
}

#[test]
fn initial_state() {
    let core = core_for(40);
    assert_eq!(core.round, 1);
    assert_eq!(core.last_voted_round, 0);
    assert_eq!(core.preferred_round, 0);
    assert_eq!(core.high_qc.round, 0);
    assert!(!core.fallback);
    assert_eq!(core.view, 0);
    assert!(Core::new(99, committee4(), secret(99), &Parameters::default()).is_err());
}

#[test]
fn propose_vote_unicast() {
    // Committee of 4, f = 1. A valid proposal at round 1 by the elected leader
    // yields exactly one vote, addressed solely to the leader of round 2.
    let mut core = core_for(40);
    let (b1, _, _) = chain3();
    let actions = core.handle_propose(&b1).unwrap();
    assert_eq!(actions.len(), 1);
    match &actions[0] {
        Action::Unicast(CoreMessage::Vote(v), dest) => {
            assert_eq!(*dest, 20);
            assert_eq!(v.author, 40);
            assert_eq!(v.round, 1);
            assert_eq!(v.hash, b1.digest());
            assert_eq!(v.block_author, 10);
            assert!(!v.fallback);
        }
        _ => panic!("expected one unicast vote"),
    }
    assert_eq!(core.last_voted_round, 1);
    assert_eq!(core.high_qc.round, 0);
}

#[test]
fn voting_boundary() {
    // Voting at round == last_voted_round is rejected; at last_voted_round + 1
    // it is accepted (subject to the lock).
    let mut core = core_for(40);
    let (b1, b2, _) = chain3();
    let first = core.handle_propose(&b1).unwrap();
    assert!(matches!(first[0], Action::Unicast(CoreMessage::Vote(_), _)));
    assert_eq!(core.last_voted_round, 1);
    // The same round again: no vote (the proposal is already stored, so the
    // handler returns without a vote action).
    let again = core.handle_propose(&b1).unwrap();
    assert!(again.iter().all(|a| !matches!(a, Action::Unicast(CoreMessage::Vote(_), _))));
    assert_eq!(core.last_voted_round, 1);
    // The next round votes again.
    let second = core.handle_propose(&b2).unwrap();
    assert!(second.iter().any(|a| matches!(a, Action::Unicast(CoreMessage::Vote(_), _))));
    assert_eq!(core.last_voted_round, 2);
}

#[test]
fn vote_aggregation_builds_next_proposal() {
    // The leader of round 2 receives the votes for the block at round 1: the
    // quorum closes at the third vote and the new proposal extends the formed
    // certificate; the fourth vote is dropped silently.
    let mut core = core_for(20);
    let (b1, _, _) = chain3();
    let hash = b1.digest();
    let votes: Vec<Vote> = [10u64, 20, 30, 40]
        .iter()
        .map(|v| Vote::new(&b1, *v, &secret(*v)))
        .collect();
    assert!(core.handle_vote(&votes[0]).unwrap().is_empty());
    assert!(core.handle_vote(&votes[1]).unwrap().is_empty());
    let actions = core.handle_vote(&votes[2]).unwrap();
    assert_eq!(actions.len(), 1);
    match &actions[0] {
        Action::Broadcast(CoreMessage::Propose(b)) => {
            assert_eq!(b.round, 2);
            assert_eq!(b.author, 20);
            assert_eq!(b.qc.hash, hash);
            assert_eq!(b.qc.round, 1);
            // The certificate closes at exactly the quorum threshold.
            assert_eq!(b.qc.votes.len(), 3);
            assert!(b.qc.verify(&core.elector.committee).is_ok());
        }
        _ => panic!("expected one broadcast proposal"),
    }
    // The committee broadcast reaches the other three members.
    assert_eq!(core.elector.committee.broadcast_addresses(&20).len(), 3);
    // Late vote for a closed aggregation: dropped silently.
    assert!(core.handle_vote(&votes[3]).unwrap().is_empty());
    assert_eq!(core.round, 2);
    assert_eq!(core.high_qc.round, 1);
}

#[test]
fn duplicate_vote_through_core() {
    let mut core = core_for(20);
    let (b1, _, _) = chain3();
    let v = Vote::new(&b1, 30, &secret(30));
    assert!(core.handle_vote(&v).unwrap().is_empty());
    assert_eq!(core.handle_vote(&v).unwrap_err(), DiemError::AuthorityReuse(30));
}

#[test]
fn misdirected_vote_is_rejected() {
    // Replica 40 is not the leader of round 2, so it refuses the vote.
    let mut core = core_for(40);
    let (b1, _, _) = chain3();
    let v = Vote::new(&b1, 30, &secret(30));
    assert_eq!(core.handle_vote(&v).unwrap_err(), DiemError::UnexpectedOrLateVote(30));
}

#[test]
fn three_chain_commits_exactly_once() {
    // A chain of three consecutive blocks at rounds 1, 2, 3, each certifying
    // the previous, commits exactly one block: the head of the prefix, the
    // genesis block.
    let mut core = core_for(40);
    let (b1, b2, b3) = chain3();
    let mut commits: Vec<Block> = Vec::new();
    for b in [&b1, &b2, &b3] {
        let actions = core.handle_propose(b).unwrap();
        for a in actions {
            if let Action::Commit(c) = a {
                commits.push(c);
            }
        }
    }
    assert_eq!(commits.len(), 1);
    let g = Block::genesis();
    assert_eq!(commits[0].round, 0);
    assert_eq!(commits[0].author, g.author);
    assert_eq!(commits[0].digest(), g.digest());
    assert!(core.committed_any);
    assert_eq!(core.last_committed_round, 0);
    assert_eq!(core.high_qc.round, 2);
    assert_eq!(core.preferred_round, 1);
}

#[test]
fn singleton_committee_closes_on_first_vote() {
    // With one member the quorum threshold is 1: the first vote closes the
    // aggregation, so a duplicate is dropped silently rather than rejected
    // as authority reuse.
    let auths = vec![Authority { name: 10, front_address: 1, mempool_address: 2 }];
    let c = Committee::new(auths, 1).unwrap();
    let mut core = Core::new(10, c, secret(10), &Parameters::default()).unwrap();
    let b1 = Block::new(QC::genesis(), 10, 0, 1, 1, false, Vec::new(), &secret(10));
    let v = Vote::new(&b1, 10, &secret(10));
    let actions = core.handle_vote(&v).unwrap();
    assert_eq!(actions.len(), 1);
    assert!(matches!(&actions[0], Action::Broadcast(CoreMessage::Propose(_))));
    assert!(core.handle_vote(&v).unwrap().is_empty());
}

#[test]
fn commits_cover_skipped_ancestors() {
    // Blocks at rounds 1 and 2, then a fallback gap to round 4, then a
    // consecutive chain 4, 5, 6, 7. The 3-chain at (0,1,2) commits genesis
    // while the block at round 4 is processed; the 3-chain at (4,5,6) then
    // commits block 4 together with its uncommitted ancestors 1 and 2,
    // oldest first: the commit channel carries rounds 0, 1, 2, 4 in order.
    let mut core = core_for(10);
    let b1 = Block::new(QC::genesis(), 10, 0, 1, 1, false, Vec::new(), &secret(10));
    let qc1 = signed_qc_over(&b1, &[10, 20, 30]);
    let b2 = Block::new(qc1, 10, 0, 2, 2, false, Vec::new(), &secret(10));
    let qc2 = signed_qc_over(&b2, &[10, 20, 30]);
    core.handle_propose(&b1).unwrap();
    core.handle_propose(&b2).unwrap();
    // A quorum of timeouts for round 3 opens the fallback path to round 4.
    for v in [20u64, 30, 40] {
        let timeout = Timeout::new(QC::genesis(), 3, v, &secret(v));
        core.handle_timeout(&timeout).unwrap();
    }
    assert!(core.fallback);
    assert_eq!(core.round, 4);
    // The fallback leader of round 4 is 30 (round robin).
    let b4 = Block::new(qc2, 30, 1, 4, 3, true, Vec::new(), &secret(30));
    let qc4 = signed_qc_over(&b4, &[10, 20, 30]);
    let b5 = Block::new(qc4, 30, 1, 5, 4, false, Vec::new(), &secret(30));
    let qc5 = signed_qc_over(&b5, &[10, 20, 30]);
    let b6 = Block::new(qc5, 30, 1, 6, 5, false, Vec::new(), &secret(30));
    let qc6 = signed_qc_over(&b6, &[10, 20, 30]);
    let b7 = Block::new(qc6, 40, 1, 7, 6, false, Vec::new(), &secret(40));
    let mut commits: Vec<Block> = Vec::new();
    for b in [&b4, &b5, &b6, &b7] {
        let actions = core.handle_propose(b).unwrap();
        for a in actions {
            if let Action::Commit(c) = a {
                commits.push(c);
            }
        }
    }
    let rounds: Vec<u64> = commits.iter().map(|b| b.round).collect();
    assert_eq!(rounds, vec![0, 1, 2, 4]);
    assert_eq!(commits[1].digest(), b1.digest());
    assert_eq!(commits[2].digest(), b2.digest());
    assert_eq!(commits[3].digest(), b4.digest());
    assert_eq!(core.last_committed_round, 4);
}

#[test]
fn local_timeout_round() {
    // With no inbound messages, the expiry of the round timer broadcasts a
    // timeout carrying the genesis certificate and the current round.
    let mut core = core_for(40);
    assert_eq!(core.timeout_delay, 100);
    let actions = core.local_timeout();
    assert_eq!(actions.len(), 1);
    match &actions[0] {
        Action::Broadcast(CoreMessage::Timeout(t)) => {
            assert_eq!(t.round, 1);
            assert_eq!(t.author, 40);
            assert_eq!(t.high_qc.round, 0);
            assert_eq!(t.high_qc.hash, Block::genesis().digest());
            assert!(t.high_qc.votes.is_empty());
        }
        _ => panic!("expected one broadcast timeout"),
    }
    // The state is untouched: the timeout is counted on local redelivery.
    assert_eq!(core.round, 1);
    assert!(!core.fallback);
}

#[test]
fn timeout_quorum_enters_fallback() {
    // Replica 20 collects a quorum of timeouts for round 1: it enters the
    // fallback view and, being the round-robin leader of the new round,
    // proposes with the fallback flag set.
    let mut core = core_for(20);
    let timeouts: Vec<Timeout> = [10u64, 30, 40]
        .iter()
        .map(|v| Timeout::new(QC::genesis(), 1, *v, &secret(*v)))
        .collect();
    assert!(core.handle_timeout(&timeouts[0]).unwrap().is_empty());
    assert!(core.handle_timeout(&timeouts[1]).unwrap().is_empty());
    let actions = core.handle_timeout(&timeouts[2]).unwrap();
    assert!(core.fallback);
    assert_eq!(core.view, 1);
    assert_eq!(core.round, 2);
    assert_eq!(actions.len(), 1);
    match &actions[0] {
        Action::Broadcast(CoreMessage::Propose(b)) => {
            assert!(b.fallback);
            assert_eq!(b.author, 20);
            assert_eq!(b.round, 2);
        }
        _ => panic!("expected a fallback proposal"),
    }
}

#[test]
fn malformed_and_foreign_blocks_are_rejected() {
    let mut core = core_for(40);
    let genesis = Block::genesis();
    assert_eq!(core.handle_propose(&genesis).unwrap_err(), DiemError::MalformedBlock);
    let foreign = Block::new(QC::genesis(), 99, 0, 1, 1, false, Vec::new(), &secret(99));
    assert_eq!(core.handle_propose(&foreign).unwrap_err(), DiemError::UnknownAuthority(99));
    let (b1, _, _) = chain3();
    let mut forged = b1.clone();
    forged.signature.signer = 30;
    assert_eq!(core.handle_propose(&forged).unwrap_err(), DiemError::InvalidSignature);
    let wrong_leader = Block::new(QC::genesis(), 30, 0, 1, 1, false, Vec::new(), &secret(30));
    assert!(matches!(
        core.handle_propose(&wrong_leader).unwrap_err(),
        DiemError::WrongLeader { .. }
    ));
}

#[test]
fn missing_parent_triggers_synchronizer() {
    let mut core = core_for(40);
    let (b1, b2, _) = chain3();
    // b2 arrives before b1: its parent is unknown, so the core asks the
    // network for the ancestor and suspends.
    let actions = core.handle_propose(&b2).unwrap();
    assert_eq!(actions.len(), 1);
    match &actions[0] {
        Action::Broadcast(CoreMessage::SyncRequest(d, who)) => {
            assert_eq!(*d, b1.digest());
            assert_eq!(*who, 40);
        }
        _ => panic!("expected a synchronizer request"),
    }
    assert_eq!(core.last_voted_round, 0);
    // Once the ancestor arrives, a sync reply is served from the store.
    core.handle_propose(&b1).unwrap();
    let reply = core.handle_sync_request(&b1.digest(), 30);
    assert_eq!(reply.len(), 1);
    match &reply[0] {
        Action::Unicast(CoreMessage::SyncReply(b), who) => {
            assert_eq!(*who, 30);
            assert_eq!(b.digest(), b1.digest());
        }
        _ => panic!("expected a sync reply"),
    }
}

#[test]
fn high_qc_and_lock_are_monotone() {
    let mut core = core_for(40);
    let (b1, b2, b3) = chain3();
    let mut prev_high = core.high_qc.round;
    let mut prev_pref = core.preferred_round;
    for b in [&b1, &b2, &b3, &b1] {
        let _ = core.handle_propose(b);
        assert!(core.high_qc.round >= prev_high);
        assert!(core.preferred_round >= prev_pref);
        prev_high = core.high_qc.round;
        prev_pref = core.preferred_round;
    }
}
