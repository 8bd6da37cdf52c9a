//! The consensus state machine of one replica: it consumes protocol messages
//! and timer expiries, applies the safety rules, and returns the actions the
//! replica must perform (send, broadcast, commit). All I/O stays outside.

use vstd::prelude::*;
use crate::aggregator::{TimeoutAggregator, VoteAggregator};
use crate::committee::{Committee, Parameters};
use crate::errors::{DiemError, DiemResult};
use crate::leader::{spec_next_leader, ReputationLeaderElector};
use crate::mempool::{PayloadStatus, SimpleMempool};
use crate::messages::{block_eq, qc_eq, Block, CoreMessage, Timeout, Vote, QC};
use crate::store::{contains_digest, grounded, lookup, BlockStore};
use crate::types::{Digest, PublicKey, RoundNumber, SecretKey, ViewNumber};

verus! {

/// How many rounds behind the highest adopted certificate an aggregator may
/// trail before it is garbage-collected.
pub const GC_DEPTH: u64 = 10;

/// One thing the replica must do after a state transition. A `Broadcast` goes
/// to every other committee member and is also redelivered locally, so the
/// sender processes its own message through the same path.
#[derive(Debug)]
pub enum Action {
    /// Send one message to one member.
    Unicast(CoreMessage, PublicKey),
    /// Send one message to every other member, and redeliver it locally.
    Broadcast(CoreMessage),
    /// Emit one block on the commit channel.
    Commit(Block),
}

/// The consensus core of one replica.
pub struct Core {
    pub name: PublicKey,
    /// The replica's signing key; in the symbolic model it only names its
    /// owner.
    pub secret: SecretKey,
    pub elector: ReputationLeaderElector,
    pub store: BlockStore,
    pub mempool: SimpleMempool,
    pub round: RoundNumber,
    pub last_voted_round: RoundNumber,
    pub preferred_round: RoundNumber,
    pub high_qc: QC,
    /// Round of the latest timeout certificate seen; 0 when none.
    pub high_tc_round: RoundNumber,
    pub view: ViewNumber,
    pub fallback: bool,
    pub aggregators: Vec<VoteAggregator>,
    pub timeout_aggregators: Vec<TimeoutAggregator>,
    pub last_committed_round: RoundNumber,
    pub committed_any: bool,
    /// Milliseconds the round timer runs before `local_timeout` is due.
    pub timeout_delay: u64,
}

impl Core {
    /// The committee this core serves.
    pub open spec fn spec_committee(&self) -> Committee {
        self.elector.committee
    }

    /// Core invariant.
    pub open spec fn wf(&self) -> bool {
        &&& self.elector.wf()
        &&& self.store.wf()
        &&& self.secret.name == self.name
        &&& (!self.committed_any ==> self.last_committed_round == 0)
        &&& forall|i: int|
            0 <= i < self.aggregators@.len() ==> (#[trigger] self.aggregators@[i]).wf(
                self.spec_committee(),
            )
        &&& forall|i: int|
            0 <= i < self.timeout_aggregators@.len() ==> (
            #[trigger] self.timeout_aggregators@[i]).wf(self.spec_committee())
        &&& forall|i: int, j: int|
            0 <= i < j < self.aggregators@.len() ==> !crate::aggregator::same_vote_prefix(
                #[trigger] self.aggregators@[i],
                #[trigger] self.aggregators@[j],
            )
        &&& forall|i: int, j: int|
            0 <= i < j < self.timeout_aggregators@.len() ==> (
            #[trigger] self.timeout_aggregators@[i]).round != (
            #[trigger] self.timeout_aggregators@[j]).round
    }

    /// Identity and configuration survive every transition.
    pub open spec fn same_identity(a: &Core, b: &Core) -> bool {
        &&& a.name == b.name
        &&& a.elector == b.elector
        &&& a.timeout_delay == b.timeout_delay
    }

    /// The monotone quantities never decrease: current round, last voted
    /// round, the lock, the highest certificate round, and the commit
    /// frontier.
    pub open spec fn monotone(a: &Core, b: &Core) -> bool {
        &&& b.round >= a.round
        &&& b.last_voted_round >= a.last_voted_round
        &&& b.preferred_round >= a.preferred_round
        &&& b.high_qc.round >= a.high_qc.round
        &&& b.last_committed_round >= a.last_committed_round
        &&& (a.committed_any ==> b.committed_any)
    }

    /// Builds the core: the genesis block is persisted, the round starts at 1,
    /// nothing is voted, locked or committed, and the highest certificate is
    /// the genesis sentinel. Fails exactly when `name` is not a member.
    pub fn new(
        name: PublicKey,
        committee: Committee,
        secret: SecretKey,
        parameters: &Parameters,
    ) -> (r: DiemResult<Core>)
        requires
            committee.wf(),
            secret.name == name,
        ensures
            r is Ok <==> committee.spec_exists(name),
            r is Ok ==> r->Ok_0.wf() && r->Ok_0.name == name && r->Ok_0.round == 1
                && r->Ok_0.last_voted_round == 0 && r->Ok_0.preferred_round == 0
                && r->Ok_0.high_qc.spec_is_genesis() && r->Ok_0.view == 0 && !r->Ok_0.fallback
                && !r->Ok_0.committed_any && r->Ok_0.last_committed_round == 0
                && r->Ok_0.spec_committee() == committee && r->Ok_0.timeout_delay
                == parameters.timeout_delay,
            r is Ok ==> contains_digest(r->Ok_0.store@, crate::messages::spec_genesis_hash())
                && lookup(r->Ok_0.store@, crate::messages::spec_genesis_hash())->0.spec_is_genesis()
                && lookup(r->Ok_0.store@, crate::messages::spec_genesis_hash())->0.round == 0,
    {
        let mempool = match SimpleMempool::new(name, &committee, parameters) {
            Ok(m) => m,
            Err(e) => {
                return Err(DiemError::from(e));
            },
        };
        let mut store = BlockStore::new();
        let genesis = Block::genesis();
        match store.write(&genesis) {
            Ok(()) => (),
            Err(_) => (),
        }
        proof {
            assert(store@.last().spec_digest() == crate::messages::spec_genesis_hash());
            assert(contains_digest(store@, crate::messages::spec_genesis_hash()));
            let w = choose|i: int|
                0 <= i < store@.len() && store@[i].spec_digest()
                    == crate::messages::spec_genesis_hash();
            assert(store@[w] == store@.last());
        }
        let elector = ReputationLeaderElector::new(committee);
        Ok(Core {
            name,
            secret,
            elector,
            store,
            mempool,
            round: 1,
            last_voted_round: 0,
            preferred_round: 0,
            high_qc: QC::genesis(),
            high_tc_round: 0,
            view: 0,
            fallback: false,
            aggregators: Vec::new(),
            timeout_aggregators: Vec::new(),
            last_committed_round: 0,
            committed_any: false,
            timeout_delay: parameters.timeout_delay,
        })
    }

    /// The lock after adopting `qc`: the maximum of the old lock and the
    /// parent round of the block `qc` certifies, when that block is stored;
    /// otherwise the old lock.
    pub open spec fn spec_lock_after(old_core: &Core, qc: QC) -> RoundNumber {
        if qc.round > old_core.high_qc.round && contains_digest(old_core.store@, qc.hash)
            && lookup(old_core.store@, qc.hash)->0.round == qc.round && lookup(
            old_core.store@,
            qc.hash,
        )->0.qc.round > old_core.preferred_round {
            lookup(old_core.store@, qc.hash)->0.qc.round
        } else {
            old_core.preferred_round
        }
    }

    /// Adopts a certificate: when its round beats the current highest, it
    /// becomes `high_qc`, and the lock rises to the parent round of the block
    /// it certifies (when that block is stored). Both quantities are monotone.
    pub fn process_qc(&mut self, qc: &QC)
        requires
            old(self).wf(),
        ensures
            final(self).wf(),
            Core::same_identity(old(self), final(self)),
            Core::monotone(old(self), final(self)),
            final(self).round == old(self).round,
            final(self).last_voted_round == old(self).last_voted_round,
            final(self).last_committed_round == old(self).last_committed_round,
            final(self).committed_any == old(self).committed_any,
            final(self).view == old(self).view,
            final(self).fallback == old(self).fallback,
            final(self).high_tc_round == old(self).high_tc_round,
            final(self).store == old(self).store,
            final(self).mempool == old(self).mempool,
            final(self).aggregators == old(self).aggregators,
            final(self).timeout_aggregators == old(self).timeout_aggregators,
            qc.round > old(self).high_qc.round ==> qc_eq(final(self).high_qc, *qc),
            final(self).preferred_round == Core::spec_lock_after(old(self), *qc),
            qc.round <= old(self).high_qc.round ==> final(self).high_qc == old(self).high_qc
                && final(self).preferred_round == old(self).preferred_round,
            final(self).high_qc.round >= qc.round,
    {
        if qc.round > self.high_qc.round {
            match self.store.read(&qc.hash) {
                Some(b) => {
                    if b.round == qc.round && b.qc.round > self.preferred_round {
                        self.preferred_round = b.qc.round;
                    }
                },
                None => (),
            }
            self.high_qc = qc.duplicate();
        }
    }

    /// The voting rule: vote for a block exactly when its round is beyond the
    /// last voted round and its parent certificate does not undercut the lock;
    /// voting records the block's round as the last voted round.
    pub fn make_vote(&mut self, block: &Block) -> (r: Option<Vote>)
        requires
            old(self).wf(),
        ensures
            final(self).wf(),
            r is Some <==> (block.round > old(self).last_voted_round && block.qc.round >= old(
                self,
            ).preferred_round),
            r is Some ==> final(self).last_voted_round == block.round && r->0.author == old(
                self,
            ).name && r->0.round == block.round && r->0.hash == block.spec_digest()
                && r->0.view == block.view && r->0.height == block.height && r->0.fallback
                == block.fallback && r->0.block_author == block.author && qc_eq(
                r->0.parent_qc,
                block.qc,
            ) && r->0.signature.spec_verify(old(self).name, r->0.spec_digest()),
            r is None ==> final(self).last_voted_round == old(self).last_voted_round,
            final(self).last_voted_round >= old(self).last_voted_round,
            Core::same_identity(old(self), final(self)),
            final(self).round == old(self).round,
            final(self).preferred_round == old(self).preferred_round,
            final(self).high_qc == old(self).high_qc,
            final(self).store == old(self).store,
            final(self).mempool == old(self).mempool,
            final(self).aggregators == old(self).aggregators,
            final(self).timeout_aggregators == old(self).timeout_aggregators,
            final(self).last_committed_round == old(self).last_committed_round,
            final(self).committed_any == old(self).committed_any,
            final(self).view == old(self).view,
            final(self).fallback == old(self).fallback,
            final(self).high_tc_round == old(self).high_tc_round,
    {
        if block.round > self.last_voted_round && block.qc.round >= self.preferred_round {
            self.last_voted_round = block.round;
            Some(Vote::new(block, self.name, &self.secret))
        } else {
            None
        }
    }

    /// Whether every payload digest of `block` is locally available in the
    /// mempool.
    pub open spec fn spec_payload_available(&self, block: Block) -> bool {
        forall|i: int|
            0 <= i < block.payload@.len() ==> self.mempool.spec_available().contains(
                #[trigger] block.payload@[i],
            ) && !self.mempool.spec_rejected().contains(block.payload@[i])
    }

    /// What each action emitted by `handle_propose` guarantees.
    pub open spec fn spec_propose_action_ok(
        old_core: &Core,
        new_core: &Core,
        block: Block,
        a: Action,
    ) -> bool {
        match a {
            Action::Unicast(m, dest) => match m {
                CoreMessage::Vote(v) => {
                    &&& v.author == old_core.name
                    &&& v.round == block.round
                    &&& v.hash == block.spec_digest()
                    &&& v.signature.spec_verify(old_core.name, v.spec_digest())
                    &&& block.round > old_core.last_voted_round
                    &&& new_core.last_voted_round == block.round
                    &&& dest == spec_next_leader(old_core.spec_committee(), block.qc, block.round
                        + 1)
                },
                _ => false,
            },
            Action::Broadcast(m) => match m {
                CoreMessage::SyncRequest(d, who) => d == block.qc.hash && who == old_core.name,
                _ => false,
            },
            Action::Commit(b) => {
                &&& (!old_core.committed_any || b.round > old_core.last_committed_round)
                &&& new_core.committed_any
                &&& new_core.last_committed_round >= b.round
            },
        }
    }

    /// The block a 3-chain ending at `parent` would commit: the grandparent
    /// `b0` when `b0`, its child `b1` and `parent` sit at consecutive rounds.
    pub open spec fn spec_chain_head(s: Seq<Block>, parent: Block) -> Option<Block> {
        if contains_digest(s, parent.qc.hash) {
            let b1 = lookup(s, parent.qc.hash)->0;
            if contains_digest(s, b1.qc.hash) {
                let b0 = lookup(s, b1.qc.hash)->0;
                if b0.round + 1 == b1.round && b1.round + 1 == parent.round {
                    Some(b0)
                } else {
                    None
                }
            } else {
                None
            }
        } else {
            None
        }
    }

    /// Whether the 3-chain head lies beyond the commit frontier.
    pub open spec fn spec_commits(old_core: &Core, parent: Block) -> bool {
        match Core::spec_chain_head(old_core.store@, parent) {
            Some(b0) => !old_core.committed_any || b0.round > old_core.last_committed_round,
            None => false,
        }
    }

    /// The commit rule: a 3-chain of blocks at consecutive rounds ending at
    /// the newly certified `parent` commits the chain's oldest block `b0` and,
    /// transitively, every stored ancestor of `b0` still above the commit
    /// frontier. The committed blocks are returned oldest-first with strictly
    /// increasing rounds, the last one being `b0`; the frontier advances to
    /// `b0.round`. Without a closing 3-chain, or when `b0` is already behind
    /// the frontier, nothing is committed.
    pub fn apply_commit_rule(&mut self, parent: &Block) -> (r: Vec<Block>)
        requires
            old(self).wf(),
        ensures
            final(self).wf(),
            Core::same_identity(old(self), final(self)),
            Core::monotone(old(self), final(self)),
            final(self).round == old(self).round,
            final(self).last_voted_round == old(self).last_voted_round,
            final(self).preferred_round == old(self).preferred_round,
            final(self).high_qc == old(self).high_qc,
            final(self).high_tc_round == old(self).high_tc_round,
            final(self).view == old(self).view,
            final(self).fallback == old(self).fallback,
            final(self).store == old(self).store,
            final(self).mempool == old(self).mempool,
            final(self).aggregators == old(self).aggregators,
            final(self).timeout_aggregators == old(self).timeout_aggregators,
            Core::spec_commits(old(self), *parent) <==> r@.len() >= 1,
            !Core::spec_commits(old(self), *parent) ==> final(self).committed_any == old(
                self,
            ).committed_any && final(self).last_committed_round == old(self).last_committed_round,
            Core::spec_commits(old(self), *parent) ==> {
                &&& block_eq(
                    r@.last(),
                    Core::spec_chain_head(old(self).store@, *parent)->0,
                )
                &&& final(self).committed_any
                &&& final(self).last_committed_round == Core::spec_chain_head(
                    old(self).store@,
                    *parent,
                )->0.round
            },
            forall|i: int, j: int| 0 <= i < j < r@.len() ==> r@[i].round < r@[j].round,
            forall|i: int|
                0 <= i < r@.len() ==> (!old(self).committed_any || (#[trigger] r@[i]).round > old(
                    self,
                ).last_committed_round),
            forall|i: int|
                0 < i < r@.len() ==> (#[trigger] r@[i]).qc.hash == r@[i - 1].spec_digest()
                    && r@[i].qc.round == r@[i - 1].round,
    {
        let b1 = match self.store.read(&parent.qc.hash) {
            Some(b) => b,
            None => {
                return Vec::new();
            },
        };
        let b0 = match self.store.read(&b1.qc.hash) {
            Some(b) => b,
            None => {
                return Vec::new();
            },
        };
        if !(b0.round < u64::MAX && b1.round < u64::MAX && b0.round + 1 == b1.round && b1.round
            + 1 == parent.round) {
            return Vec::new();
        }
        if self.committed_any && b0.round <= self.last_committed_round {
            return Vec::new();
        }
        let ghost head = Core::spec_chain_head(old(self).store@, *parent)->0;
        let new_frontier = b0.round;
        // Walk the parent links down from `b0`, collecting every stored
        // ancestor still above the frontier, newest first.
        let mut desc: Vec<Block> = Vec::new();
        let mut cur_round: RoundNumber = b0.round;
        let mut cur_qc_hash: Digest = b0.qc.hash;
        let mut cur_qc_round: RoundNumber = b0.qc.round;
        desc.push(b0);
        proof {
            assert(block_eq(desc@[0], head));
        }
        while cur_round > 0
            invariant
                self.wf(),
                self == old(self),
                desc@.len() >= 1,
                block_eq(desc@[0], head),
                desc@.last().round == cur_round,
                desc@.last().qc.hash == cur_qc_hash,
                desc@.last().qc.round == cur_qc_round,
                forall|i: int, j: int| 0 <= i < j < desc@.len() ==> desc@[i].round > desc@[j].round,
                forall|i: int|
                    0 <= i < desc@.len() ==> (!self.committed_any || (#[trigger] desc@[i]).round
                        > self.last_committed_round),
                forall|i: int|
                    0 < i < desc@.len() ==> (#[trigger] desc@[i - 1]).qc.hash
                        == desc@[i].spec_digest() && desc@[i - 1].qc.round == desc@[i].round,
            decreases cur_round,
        {
            let p = match self.store.read(&cur_qc_hash) {
                Some(p) => p,
                None => {
                    break;
                },
            };
            if p.round >= cur_round {
                break;
            }
            if self.committed_any && p.round <= self.last_committed_round {
                break;
            }
            if p.round != cur_qc_round {
                break;
            }
            proof {
                assert(block_eq(p, lookup(self.store@, cur_qc_hash)->0));
                assert(p.spec_digest() == cur_qc_hash);
            }
            cur_round = p.round;
            cur_qc_hash = p.qc.hash;
            cur_qc_round = p.qc.round;
            desc.push(p);
        }
        // Emit oldest-first.
        let mut out: Vec<Block> = Vec::new();
        let ghost descv = desc@;
        while desc.len() > 0
            invariant
                out@.len() + desc@.len() == descv.len(),
                desc@ == descv.take(desc@.len() as int),
                forall|i: int|
                    0 <= i < out@.len() ==> out@[i] == descv[descv.len() - 1 - i],
            decreases desc@.len(),
        {
            let b = desc.pop().unwrap();
            proof {
                assert(descv.take(desc@.len() + 1int).last() == descv[desc@.len() as int]);
                assert(descv.take(desc@.len() + 1int).drop_last() =~= descv.take(
                    desc@.len() as int,
                ));
            }
            out.push(b);
        }
        self.committed_any = true;
        self.last_committed_round = new_frontier;
        proof {
            assert(out@.len() == descv.len());
            assert(block_eq(out@.last(), head));
            assert forall|i: int, j: int| 0 <= i < j < out@.len() implies out@[i].round
                < out@[j].round by {
                assert(out@[i] == descv[descv.len() - 1 - i]);
                assert(out@[j] == descv[descv.len() - 1 - j]);
                assert(descv[descv.len() - 1 - j].round > descv[descv.len() - 1 - i].round);
            }
            assert forall|i: int|
                0 < i < out@.len() implies (#[trigger] out@[i]).qc.hash == out@[i
                - 1].spec_digest() && out@[i].qc.round == out@[i - 1].round by {
                assert(out@[i] == descv[descv.len() - 1 - i]);
                assert(out@[i - 1] == descv[descv.len() - i]);
                let a = descv.len() - i;
                assert(0 < a < descv.len());
                assert(descv[a - 1].qc.hash == descv[a].spec_digest() && descv[a - 1].qc.round
                    == descv[a].round);
            }
        }
        out
    }

    /// Whether a happy-path proposal passes every acceptance check of this    /// Whether a happy-path proposal passes every acceptance check of this
    /// core: message validity, a directly extended parent that is stored, the
    /// demanded leader, available payloads, and the voting rule.
    pub open spec fn spec_acceptable(&self, block: Block) -> bool {
        &&& block.spec_valid(self.spec_committee())
        &&& block.round > 0
        &&& block.qc.round + 1 == block.round
        &&& contains_digest(self.store@, block.qc.hash)
        &&& lookup(self.store@, block.qc.hash)->0.round == block.qc.round
        &&& block.author == self.elector.spec_expected_author(
            block,
            lookup(self.store@, block.qc.hash)->0,
        )
        &&& self.spec_payload_available(block)
        &&& block.round > self.last_voted_round
        &&& block.qc.round >= self.preferred_round
    }

    /// Whether an action is the emission of one vote.
    pub open spec fn is_vote_action(a: Action) -> bool {
        a matches Action::Unicast(m, _) && m is Vote
    }

    /// Whether some action of the list is the emission of a vote.
    pub open spec fn has_vote_action(s: Seq<Action>) -> bool {
        exists|i: int| 0 <= i < s.len() && Core::is_vote_action(#[trigger] s[i])
    }

    /// Validates a proposal up to (not including) state changes: structural
    /// checks, signature and certificate checks, parent availability, and the
    /// leader check. `Ok(None)` means the parent is missing and the caller
    /// must synchronize; `Ok(Some(parent))` means the block may be processed.
    fn validate_propose(&self, block: &Block) -> (r: DiemResult<Option<Block>>)
        requires
            self.wf(),
        ensures
            self.spec_acceptable(*block) ==> r is Ok && r->Ok_0 is Some,
            r is Ok && r->Ok_0 is Some ==> {
                &&& block.spec_valid(self.spec_committee())
                &&& block.round > 0
                &&& block.qc.round < block.round
                &&& contains_digest(self.store@, block.qc.hash)
                &&& crate::messages::block_eq(r->Ok_0->0, lookup(self.store@, block.qc.hash)->0)
                &&& r->Ok_0->0.round == block.qc.round
                &&& grounded(self.store@, block.qc)
                &&& (block.qc.round + 1 == block.round || (block.fallback && block.round
                    == self.high_tc_round + 1))
            },
            r is Ok && r->Ok_0 is None ==> !contains_digest(self.store@, block.qc.hash),
    {
        if block.round == 0 {
            return Err(DiemError::MalformedBlock);
        }
        match block.verify(&self.elector.committee) {
            Ok(()) => (),
            Err(e) => {
                return Err(e);
            },
        }
        if block.qc.round >= block.round {
            return Err(DiemError::MalformedBlock);
        }
        let consecutive = block.qc.round + 1 == block.round;
        if !consecutive {
            let tc_covers = self.high_tc_round < u64::MAX && block.round == self.high_tc_round
                + 1;
            if !(block.fallback && tc_covers) {
                return Err(DiemError::MalformedBlock);
            }
        }
        let parent = match self.store.read(&block.qc.hash) {
            Some(p) => p,
            None => {
                return Ok(None);
            },
        };
        if parent.round != block.qc.round {
            return Err(DiemError::StoreError);
        }
        proof {
            if self.spec_acceptable(*block) {
                assert(self.elector.spec_expected_author(*block, parent)
                    == self.elector.spec_expected_author(
                    *block,
                    lookup(self.store@, block.qc.hash)->0,
                ));
            }
        }
        match self.elector.check_block(block, &parent) {
            Ok(()) => (),
            Err(e) => {
                return Err(e);
            },
        }
        Ok(Some(parent))
    }

    /// The whole postcondition of `handle_propose`: every emitted action is
    /// accounted for, and an acceptable proposal that satisfies the voting
    /// rule is persisted, adopted, and answered with a vote.
    pub open spec fn spec_propose_post(
        old_core: &Core,
        new_core: &Core,
        block: Block,
        r: DiemResult<Vec<Action>>,
    ) -> bool {
        &&& (r is Ok ==> forall|i: int|
            0 <= i < r->Ok_0@.len() ==> Core::spec_propose_action_ok(old_core, new_core, block,
            #[trigger] r->Ok_0@[i]))
        &&& (old_core.spec_acceptable(block) ==> {
            &&& r is Ok && Core::has_vote_action(r->Ok_0@)
            &&& contains_digest(new_core.store@, block.spec_digest())
            &&& new_core.round == (
            if block.qc.round >= old_core.round {
                block.qc.round + 1
            } else {
                old_core.round as int
            })
            &&& (block.qc.round > old_core.high_qc.round ==> qc_eq(new_core.high_qc, block.qc))
            &&& ((old_core.fallback && block.qc.view == old_core.view) ==> !new_core.fallback)
        })
    }

    /// Handles a proposal: structural checks, signature and certificate
    /// checks, leader check, certificate adoption, persistence, the commit
    /// rule, and the voting rule. The returned actions are at most a
    /// synchronizer request, commits, and one vote addressed to the leader
    /// of the next round. An acceptable proposal that satisfies the voting
    /// rule is always answered with a vote.
    #[verifier::rlimit(100)]
    #[verifier::spinoff_prover]
    pub fn handle_propose(&mut self, block: &Block) -> (r: DiemResult<Vec<Action>>)
        requires
            old(self).wf(),
        ensures
            final(self).wf(),
            Core::same_identity(old(self), final(self)),
            Core::monotone(old(self), final(self)),
            Core::spec_propose_post(old(self), final(self), *block, r),
    {
        let parent = match self.validate_propose(block) {
            Ok(Some(p)) => p,
            Ok(None) => {
                let mut actions: Vec<Action> = Vec::new();
                actions.push(
                    Action::Broadcast(CoreMessage::SyncRequest(block.qc.hash, self.name)),
                );
                proof {
                    assert(forall|i: int|
                        0 <= i < actions@.len() ==> Core::spec_propose_action_ok(old(self), self,
                        *block, #[trigger] actions@[i]));
                }
                return Ok(actions);
            },
            Err(e) => {
                return Err(e);
            },
        };
        self.process_qc(&block.qc);
        proof {
            if old(self).spec_acceptable(*block) {
                let ps = lookup(old(self).store@, block.qc.hash)->0;
                let w = choose|i: int|
                    0 <= i < old(self).store@.len() && old(self).store@[i].spec_digest()
                        == block.qc.hash;
                assert(old(self).store@[w] == ps);
                assert(ps.round == 0 ==> ps.qc.round == 0);
                assert(ps.round != 0 ==> ps.qc.round < ps.round);
                assert(ps.qc.round <= block.qc.round);
                assert(self.preferred_round <= block.qc.round);
            }
        }
        if block.qc.round >= self.round {
            self.round = block.qc.round + 1;
        }
        if self.fallback && block.qc.view == self.view {
            self.fallback = false;
        }
        match self.store.write(block) {
            Ok(()) => (),
            Err(e) => {
                return Err(e);
            },
        }
        proof {
            if old(self).spec_acceptable(*block) {
                assert(contains_digest(self.store@, block.spec_digest()));
            }
        }
        let mut actions: Vec<Action> = Vec::new();
        let committed = self.apply_commit_rule(&parent);
        let mut ci: usize = 0;
        while ci < committed.len()
            invariant
                ci <= committed@.len(),
                self.wf(),
                Core::same_identity(old(self), self),
                Core::monotone(old(self), self),
                self.last_voted_round == old(self).last_voted_round,
                forall|i: int, j: int|
                    0 <= i < j < committed@.len() ==> committed@[i].round < committed@[j].round,
                forall|i: int|
                    0 <= i < committed@.len() ==> (!old(self).committed_any || (
                    #[trigger] committed@[i]).round > old(self).last_committed_round),
                committed@.len() >= 1 ==> self.committed_any && self.last_committed_round
                    >= committed@.last().round,
                self.mempool == old(self).mempool,
                old(self).spec_acceptable(*block) ==> contains_digest(
                    self.store@,
                    block.spec_digest(),
                ),
                old(self).spec_acceptable(*block) ==> self.round == (
                if block.qc.round >= old(self).round {
                    block.qc.round + 1
                } else {
                    old(self).round as int
                }),
                old(self).spec_acceptable(*block) ==> (block.qc.round > old(self).high_qc.round
                    ==> qc_eq(self.high_qc, block.qc)),
                old(self).spec_acceptable(*block) ==> ((old(self).fallback && block.qc.view == old(
                    self,
                ).view) ==> !self.fallback),
                actions@.len() == ci,
                forall|i: int|
                    0 <= i < actions@.len() ==> Core::spec_propose_action_ok(old(self), self,
                    *block, #[trigger] actions@[i]),
            decreases committed@.len() - ci,
        {
            proof {
                assert(committed@[ci as int].round <= committed@.last().round);
            }
            actions.push(Action::Commit(committed[ci].duplicate()));
            ci = ci + 1;
        }
        // A block is voted on only when all its payload digests are available.
        let mut pi: usize = 0;
        while pi < block.payload.len()
            invariant
                pi <= block.payload@.len(),
                self.wf(),
                Core::same_identity(old(self), self),
                Core::monotone(old(self), self),
                self.last_voted_round == old(self).last_voted_round,
                self.preferred_round >= old(self).preferred_round,
                self.mempool == old(self).mempool,
                old(self).spec_acceptable(*block) ==> self.preferred_round <= block.qc.round,
                old(self).spec_acceptable(*block) ==> contains_digest(
                    self.store@,
                    block.spec_digest(),
                ),
                old(self).spec_acceptable(*block) ==> self.round == (
                if block.qc.round >= old(self).round {
                    block.qc.round + 1
                } else {
                    old(self).round as int
                }),
                old(self).spec_acceptable(*block) ==> (block.qc.round > old(self).high_qc.round
                    ==> qc_eq(self.high_qc, block.qc)),
                old(self).spec_acceptable(*block) ==> ((old(self).fallback && block.qc.view == old(
                    self,
                ).view) ==> !self.fallback),
                block.round > 0,
                forall|i: int|
                    0 <= i < actions@.len() ==> Core::spec_propose_action_ok(old(self), self,
                    *block, #[trigger] actions@[i]),
            decreases block.payload@.len() - pi,
        {
            match self.mempool.verify(&block.payload[pi]) {
                PayloadStatus::Accept => (),
                PayloadStatus::Wait(_) => {
                    // Suspend: the mempool will pull the payload; the block is
                    // re-injected later.
                    proof {
                        if old(self).spec_acceptable(*block) {
                            assert(old(self).mempool.spec_available().contains(
                                block.payload@[pi as int],
                            ));
                            assert(!old(self).mempool.spec_rejected().contains(
                                block.payload@[pi as int],
                            ));
                        }
                        assert(forall|i: int|
                            0 <= i < actions@.len() ==> Core::spec_propose_action_ok(old(self),
                            self, *block, #[trigger] actions@[i]));
                    }
                    return Ok(actions);
                },
                PayloadStatus::Reject => {
                    proof {
                        if old(self).spec_acceptable(*block) {
                            assert(!old(self).mempool.spec_rejected().contains(
                                block.payload@[pi as int],
                            ));
                        }
                    }
                    return Err(DiemError::MalformedBlock);
                },
            }
            pi = pi + 1;
        }
        match self.make_vote(block) {
            Some(v) => {
                let dest = self.elector.vote_recipient(&block.qc, block.round);
                actions.push(Action::Unicast(CoreMessage::Vote(v), dest));
                proof {
                    assert(Core::is_vote_action(actions@[actions@.len() - 1]));
                }
            },
            None => {
                proof {
                    assert(!old(self).spec_acceptable(*block));
                }
            },
        }
        proof {
            if old(self).spec_acceptable(*block) {
                assert(actions@.len() >= 1);
                assert(Core::is_vote_action(actions@[actions@.len() - 1]));
                assert(Core::has_vote_action(actions@));
            }
        }
        // Committed payloads may leave the mempool.
        let mut gi: usize = 0;
        while gi < committed.len()
            invariant
                gi <= committed@.len(),
                self.wf(),
                Core::same_identity(old(self), self),
                Core::monotone(old(self), self),
                self.last_voted_round >= old(self).last_voted_round,
                self.committed_any == old(self).committed_any || self.committed_any,
                old(self).spec_acceptable(*block) ==> contains_digest(
                    self.store@,
                    block.spec_digest(),
                ),
                old(self).spec_acceptable(*block) ==> self.round == (
                if block.qc.round >= old(self).round {
                    block.qc.round + 1
                } else {
                    old(self).round as int
                }),
                old(self).spec_acceptable(*block) ==> (block.qc.round > old(self).high_qc.round
                    ==> qc_eq(self.high_qc, block.qc)),
                old(self).spec_acceptable(*block) ==> ((old(self).fallback && block.qc.view == old(
                    self,
                ).view) ==> !self.fallback),
                forall|i: int|
                    0 <= i < actions@.len() ==> Core::spec_propose_action_ok(old(self), self,
                    *block, #[trigger] actions@[i]),
                old(self).spec_acceptable(*block) ==> Core::has_vote_action(actions@),
            decreases committed@.len() - gi,
        {
            let payload_count = committed[gi].payload.len();
            let mut pj: usize = 0;
            while pj < payload_count
                invariant
                    pj <= payload_count,
                    gi < committed@.len(),
                    payload_count == committed@[gi as int].payload@.len(),
                    self.wf(),
                    Core::same_identity(old(self), self),
                    Core::monotone(old(self), self),
                    self.last_voted_round >= old(self).last_voted_round,
                old(self).spec_acceptable(*block) ==> contains_digest(
                    self.store@,
                    block.spec_digest(),
                ),
                old(self).spec_acceptable(*block) ==> self.round == (
                if block.qc.round >= old(self).round {
                    block.qc.round + 1
                } else {
                    old(self).round as int
                }),
                old(self).spec_acceptable(*block) ==> (block.qc.round > old(self).high_qc.round
                    ==> qc_eq(self.high_qc, block.qc)),
                old(self).spec_acceptable(*block) ==> ((old(self).fallback && block.qc.view == old(
                    self,
                ).view) ==> !self.fallback),
                    forall|i: int|
                        0 <= i < actions@.len() ==> Core::spec_propose_action_ok(old(self), self,
                        *block, #[trigger] actions@[i]),
                    old(self).spec_acceptable(*block) ==> Core::has_vote_action(actions@),
                decreases payload_count - pj,
            {
                let d = committed[gi].payload[pj];
                self.mempool.garbage_collect(&d);
                pj = pj + 1;
            }
            gi = gi + 1;
        }
        proof {
            assert(forall|i: int|
                0 <= i < actions@.len() ==> Core::spec_propose_action_ok(old(self), self, *block,
                #[trigger] actions@[i]));
        }
        Ok(actions)
    }

    /// The open aggregator collecting this vote's prefix, if any. The core
    /// keeps at most one aggregator per prefix, so the choice is unique.
    pub open spec fn spec_matching_agg(&self, vote: Vote) -> Option<VoteAggregator> {
        if exists|i: int|
            0 <= i < self.aggregators@.len() && (#[trigger] self.aggregators@[i]).spec_matches(
                vote,
            ) {
            Some(
                self.aggregators@[choose|i: int|
                    0 <= i < self.aggregators@.len() && (
                    #[trigger] self.aggregators@[i]).spec_matches(vote)],
            )
        } else {
            None
        }
    }

    /// The votes already collected for this vote's prefix.
    pub open spec fn spec_pending_votes(&self, vote: Vote) -> Seq<
        (PublicKey, crate::types::Signature),
    > {
        match self.spec_matching_agg(vote) {
            Some(a) => a.votes@,
            None => Seq::empty(),
        }
    }

    /// Whether this vote's aggregator has already emitted its certificate.
    pub open spec fn spec_agg_closed(&self, vote: Vote) -> bool {
        match self.spec_matching_agg(vote) {
            Some(a) => a.used,
            None => false,
        }
    }

    /// Whether a vote is admissible here: its round leaves room for a
    /// successor, this replica is its intended recipient, and it verifies.
    pub open spec fn spec_vote_admissible(&self, vote: Vote) -> bool {
        &&& vote.round < u64::MAX
        &&& self.name == spec_next_leader(self.spec_committee(), vote.parent_qc, vote.round + 1)
        &&& vote.spec_valid(self.spec_committee())
    }

    /// The whole postcondition of `handle_vote`: each rejection exactly when
    /// its cause holds, silence exactly for votes into a closed aggregation or
    /// short of the quorum, and, on the vote that completes the quorum, one
    /// broadcast proposal extending the freshly formed certificate.
    pub open spec fn spec_vote_post(
        old_core: &Core,
        new_core: &Core,
        vote: Vote,
        r: DiemResult<Vec<Action>>,
    ) -> bool {
        let c = old_core.spec_committee();
        let pend = old_core.spec_pending_votes(vote);
        let quorum = c.spec_quorum_threshold();
        &&& (r is Ok ==> forall|i: int|
            0 <= i < r->Ok_0@.len() ==> Core::spec_vote_action_ok(old_core, new_core, vote,
            #[trigger] r->Ok_0@[i]))
        &&& (vote.round == u64::MAX ==> r == Err::<Vec<Action>, DiemError>(
            DiemError::UnexpectedOrLateVote(vote.author),
        ))
        &&& (vote.round < u64::MAX && old_core.name != spec_next_leader(c, vote.parent_qc,
            vote.round + 1) ==> r == Err::<Vec<Action>, DiemError>(
            DiemError::UnexpectedOrLateVote(vote.author),
        ))
        &&& (vote.round < u64::MAX && old_core.name == spec_next_leader(c, vote.parent_qc,
            vote.round + 1) && !c.spec_exists(vote.author) ==> r == Err::<Vec<Action>, DiemError>(
            DiemError::UnknownAuthority(vote.author),
        ))
        &&& (vote.round < u64::MAX && old_core.name == spec_next_leader(c, vote.parent_qc,
            vote.round + 1) && c.spec_exists(vote.author) && !vote.signature.spec_verify(
            vote.author,
            vote.spec_digest(),
        ) ==> r == Err::<Vec<Action>, DiemError>(DiemError::InvalidSignature))
        &&& (old_core.spec_vote_admissible(vote) && old_core.spec_agg_closed(vote) ==> r is Ok
            && r->Ok_0@.len() == 0)
        &&& (old_core.spec_vote_admissible(vote) && !old_core.spec_agg_closed(vote)
            && crate::messages::voters_seq(pend).contains(vote.author) ==> r == Err::<
            Vec<Action>,
            DiemError,
        >(DiemError::AuthorityReuse(vote.author)))
        &&& (old_core.spec_vote_admissible(vote) && !old_core.spec_agg_closed(vote)
            && !crate::messages::voters_seq(pend).contains(vote.author) && pend.len() + 1 < quorum
            ==> r is Ok && r->Ok_0@.len() == 0)
        &&& (old_core.spec_vote_admissible(vote) && !old_core.spec_agg_closed(vote)
            && !crate::messages::voters_seq(pend).contains(vote.author) && pend.len() + 1 >= quorum
            ==> r is Ok && r->Ok_0@.len() == 1 && (r->Ok_0@[0] matches Action::Broadcast(m) && (
        m matches CoreMessage::Propose(b) && b.author == old_core.name && b.qc.hash == vote.hash
            && b.qc.round == vote.round && b.qc.view == vote.view && b.qc.fallback == vote.fallback
            && b.qc.proposer == vote.block_author && b.qc.votes@ == pend.push(
            (vote.author, vote.signature),
        ) && b.qc.spec_valid(c) && b.round == new_core.round && new_core.round == (
        if vote.round >= old_core.round {
            vote.round + 1
        } else {
            old_core.round as int
        }) && b.fallback == new_core.fallback && b.signature.spec_verify(
            old_core.name,
            b.spec_digest(),
        ))))
    }

    /// What each action emitted by `handle_vote` guarantees: only a new
    /// proposal is ever emitted, it is authored and signed by this replica for
    /// the now-current round, and it extends the block the votes certified.
    pub open spec fn spec_vote_action_ok(
        old_core: &Core,
        new_core: &Core,
        vote: Vote,
        a: Action,
    ) -> bool {
        match a {
            Action::Broadcast(m) => match m {
                CoreMessage::Propose(b) => {
                    &&& b.author == old_core.name
                    &&& b.round == new_core.round
                    &&& b.round >= old_core.round
                    &&& b.qc.hash == vote.hash
                    &&& b.qc.round == vote.round
                    &&& b.qc.spec_valid(old_core.spec_committee())
                    &&& b.signature.spec_verify(old_core.name, b.spec_digest())
                },
                _ => false,
            },
            _ => false,
        }
    }

    /// Handles a vote addressed to this replica: recipient check, signature
    /// check, aggregation with duplicate detection, and, on quorum closure,
    /// adoption of the new certificate and broadcast of the next proposal.
    pub fn handle_vote(&mut self, vote: &Vote) -> (r: DiemResult<Vec<Action>>)
        requires
            old(self).wf(),
        ensures
            final(self).wf(),
            Core::same_identity(old(self), final(self)),
            Core::monotone(old(self), final(self)),
            Core::spec_vote_post(old(self), final(self), *vote, r),
    {
        if vote.round == u64::MAX {
            return Err(DiemError::UnexpectedOrLateVote(vote.author));
        }
        match self.elector.check_vote(vote, self.name) {
            Ok(()) => (),
            Err(e) => {
                return Err(e);
            },
        }
        match vote.verify(&self.elector.committee) {
            Ok(()) => (),
            Err(e) => {
                return Err(e);
            },
        }
        // Find or create the aggregator of this vote's prefix.
        let found = find_vote_aggregator(&self.aggregators, vote);
        let ghost pre_remove = self.aggregators@;
        proof {
            match found {
                Some(idx) => {
                    let w = choose|i: int|
                        0 <= i < self.aggregators@.len() && (
                        #[trigger] self.aggregators@[i]).spec_matches(*vote);
                    if w != idx {
                        assert(crate::aggregator::same_vote_prefix(
                            self.aggregators@[w],
                            self.aggregators@[idx as int],
                        ));
                    }
                    assert(old(self).spec_matching_agg(*vote) == Some(
                        self.aggregators@[idx as int],
                    ));
                },
                None => {
                    assert(old(self).spec_matching_agg(*vote) is None);
                },
            }
        }
        let mut agg = match found {
            Some(idx) => self.aggregators.remove(idx),
            None => VoteAggregator::new(vote),
        };
        proof {
            assert(agg.votes@ == old(self).spec_pending_votes(*vote));
            assert(agg.used == old(self).spec_agg_closed(*vote));
        }
        proof {
            assert forall|i: int| 0 <= i < self.aggregators@.len() implies (
            #[trigger] self.aggregators@[i]).wf(self.spec_committee()) by {
                if found is Some && i >= found->0 {
                    assert(self.aggregators@[i] == pre_remove[i + 1]);
                } else {
                    assert(self.aggregators@[i] == pre_remove[i]);
                }
            }
        }
        let outcome = agg.append(vote, &self.elector.committee);
        let ghost pre_push = self.aggregators@;
        self.aggregators.push(agg);
        proof {
            assert forall|i: int| 0 <= i < self.aggregators@.len() implies (
            #[trigger] self.aggregators@[i]).wf(self.spec_committee()) by {
                if i < pre_push.len() {
                    assert(self.aggregators@[i] == pre_push[i]);
                } else {
                    assert(self.aggregators@[i] == agg);
                }
            }
        }
        let qc_opt = match outcome {
            Ok(x) => x,
            Err(e) => {
                return Err(e);
            },
        };
        let mut qc = match qc_opt {
            Some(qc) => qc,
            None => {
                return Ok(Vec::new());
            },
        };
        // A quorum closed: embed the reputation hint, adopt the certificate,
        // advance the round, and propose.
        match self.elector.elect_future_leader(&self.store, &qc, vote.round + 1) {
            Ok(Some(leader)) => {
                qc.next_leader = Some(leader);
            },
            Ok(None) => (),
            Err(_) => (),
        }
        self.process_qc(&qc);
        if qc.round >= self.round {
            self.round = qc.round + 1;
        }
        if self.fallback && qc.view == self.view {
            self.fallback = false;
        }
        let payload = self.mempool.get();
        let height = if qc.height < u64::MAX {
            qc.height + 1
        } else {
            qc.height
        };
        let block = Block::new(qc, self.name, self.view, self.round, height, self.fallback,
            payload, &self.secret);
        let mut actions: Vec<Action> = Vec::new();
        actions.push(Action::Broadcast(CoreMessage::Propose(block)));
        self.collect_aggregators();
        Ok(actions)
    }

    /// The open aggregator collecting timeouts of `round`, if any; the core
    /// keeps at most one per round.
    pub open spec fn spec_matching_tagg(&self, round: RoundNumber) -> Option<TimeoutAggregator> {
        if exists|i: int|
            0 <= i < self.timeout_aggregators@.len() && (
            #[trigger] self.timeout_aggregators@[i]).round == round {
            Some(
                self.timeout_aggregators@[choose|i: int|
                    0 <= i < self.timeout_aggregators@.len() && (
                    #[trigger] self.timeout_aggregators@[i]).round == round],
            )
        } else {
            None
        }
    }

    /// The timeouts already collected for `round`.
    pub open spec fn spec_pending_timeouts(&self, round: RoundNumber) -> Seq<
        (PublicKey, crate::types::Signature, RoundNumber),
    > {
        match self.spec_matching_tagg(round) {
            Some(a) => a.entries@,
            None => Seq::empty(),
        }
    }

    /// Whether the timeout aggregation of `round` has already closed.
    pub open spec fn spec_tagg_closed(&self, round: RoundNumber) -> bool {
        match self.spec_matching_tagg(round) {
            Some(a) => a.used,
            None => false,
        }
    }

    /// Whether a timeout is admissible here: not late, with room for a
    /// successor round, and verifying.
    pub open spec fn spec_timeout_admissible(&self, t: Timeout) -> bool {
        &&& t.round >= self.round
        &&& t.round < u64::MAX
        &&& t.spec_valid(self.spec_committee())
    }

    /// The whole postcondition of `handle_timeout`: late timeouts are dropped;
    /// rejections come exactly with their cause; the quorum-closing timeout
    /// enters the fallback view, advances the round past the certificate, and
    /// makes the new round-robin leader broadcast a fallback proposal.
    pub open spec fn spec_timeout_post(
        old_core: &Core,
        new_core: &Core,
        t: Timeout,
        r: DiemResult<Vec<Action>>,
    ) -> bool {
        let c = old_core.spec_committee();
        let pend = old_core.spec_pending_timeouts(t.round);
        let quorum = c.spec_quorum_threshold();
        &&& (t.round < old_core.round || t.round == u64::MAX ==> r is Ok && r->Ok_0@.len() == 0)
        &&& (old_core.spec_timeout_admissible(t) && old_core.spec_tagg_closed(t.round) ==> r is Ok
            && r->Ok_0@.len() == 0)
        &&& (old_core.spec_timeout_admissible(t) && !old_core.spec_tagg_closed(t.round)
            && crate::messages::tc_voters_seq(pend).contains(t.author) ==> r == Err::<
            Vec<Action>,
            DiemError,
        >(DiemError::AuthorityReuse(t.author)))
        &&& (old_core.spec_timeout_admissible(t) && !old_core.spec_tagg_closed(t.round)
            && !crate::messages::tc_voters_seq(pend).contains(t.author) && pend.len() + 1 < quorum
            ==> r is Ok && r->Ok_0@.len() == 0)
        &&& (old_core.spec_timeout_admissible(t) && !old_core.spec_tagg_closed(t.round)
            && !crate::messages::tc_voters_seq(pend).contains(t.author) && pend.len() + 1 >= quorum
            ==> {
            &&& new_core.fallback
            &&& new_core.view == (
            if old_core.view < u64::MAX {
                old_core.view + 1
            } else {
                old_core.view as int
            })
            &&& new_core.round == t.round + 1
            &&& new_core.high_tc_round == (
            if t.round > old_core.high_tc_round {
                t.round as int
            } else {
                old_core.high_tc_round as int
            })
            &&& (crate::leader::spec_round_robin(c, t.round + 1) == old_core.name ==> r is Ok
                && r->Ok_0@.len() == 1 && (r->Ok_0@[0] matches Action::Broadcast(m) && (
            m matches CoreMessage::Propose(b) && b.fallback && b.author == old_core.name
                && b.round == t.round + 1 && b.signature.spec_verify(
                old_core.name,
                b.spec_digest(),
            ))))
            &&& (crate::leader::spec_round_robin(c, t.round + 1) != old_core.name ==> r is Ok
                && r->Ok_0@.len() == 0)
        })
    }

    /// Handles a timeout message: late ones are dropped; otherwise the
    /// embedded certificate is adopted and the timeout aggregated. A quorum of
    /// timeouts enters the fallback view, and the fallback leader (round
    /// robin; the reputation hint is ignored) broadcasts a proposal flagged as
    /// fallback.
    pub fn handle_timeout(&mut self, t: &Timeout) -> (r: DiemResult<Vec<Action>>)
        requires
            old(self).wf(),
        ensures
            final(self).wf(),
            Core::same_identity(old(self), final(self)),
            Core::monotone(old(self), final(self)),
            Core::spec_timeout_post(old(self), final(self), *t, r),
    {
        if t.round < self.round || t.round == u64::MAX {
            return Ok(Vec::new());
        }
        match t.verify(&self.elector.committee) {
            Ok(()) => (),
            Err(e) => {
                return Err(e);
            },
        }
        self.process_qc(&t.high_qc);
        let found = find_timeout_aggregator(&self.timeout_aggregators, t.round);
        let ghost pre_remove = self.timeout_aggregators@;
        proof {
            match found {
                Some(idx) => {
                    let w = choose|i: int|
                        0 <= i < self.timeout_aggregators@.len() && (
                        #[trigger] self.timeout_aggregators@[i]).round == t.round;
                    if w != idx {
                        assert(self.timeout_aggregators@[w].round
                            == self.timeout_aggregators@[idx as int].round);
                    }
                    assert(old(self).spec_matching_tagg(t.round) == Some(
                        self.timeout_aggregators@[idx as int],
                    ));
                },
                None => {
                    assert(old(self).spec_matching_tagg(t.round) is None);
                },
            }
        }
        let mut agg = match found {
            Some(idx) => self.timeout_aggregators.remove(idx),
            None => TimeoutAggregator::new(t.round),
        };
        proof {
            assert(agg.entries@ == old(self).spec_pending_timeouts(t.round));
            assert(agg.used == old(self).spec_tagg_closed(t.round));
        }
        proof {
            assert forall|i: int| 0 <= i < self.timeout_aggregators@.len() implies (
            #[trigger] self.timeout_aggregators@[i]).wf(self.spec_committee()) by {
                if found is Some && i >= found->0 {
                    assert(self.timeout_aggregators@[i] == pre_remove[i + 1]);
                } else {
                    assert(self.timeout_aggregators@[i] == pre_remove[i]);
                }
            }
        }
        let outcome = agg.append(t, &self.elector.committee);
        let ghost pre_push = self.timeout_aggregators@;
        self.timeout_aggregators.push(agg);
        proof {
            assert forall|i: int| 0 <= i < self.timeout_aggregators@.len() implies (
            #[trigger] self.timeout_aggregators@[i]).wf(self.spec_committee()) by {
                if i < pre_push.len() {
                    assert(self.timeout_aggregators@[i] == pre_push[i]);
                } else {
                    assert(self.timeout_aggregators@[i] == agg);
                }
            }
        }
        let tc_opt = match outcome {
            Ok(x) => x,
            Err(e) => {
                return Err(e);
            },
        };
        let tc = match tc_opt {
            Some(tc) => tc,
            None => {
                return Ok(Vec::new());
            },
        };
        // Enter the fallback view.
        if self.view < u64::MAX {
            self.view = self.view + 1;
        }
        self.fallback = true;
        if tc.round > self.high_tc_round {
            self.high_tc_round = tc.round;
        }
        if tc.round >= self.round {
            self.round = tc.round + 1;
        }
        let mut actions: Vec<Action> = Vec::new();
        let fallback_leader = self.elector.round_robin(self.round);
        if fallback_leader == self.name {
            let payload = self.mempool.get();
            let qc = self.high_qc.duplicate();
            let height = if qc.height < u64::MAX {
                qc.height + 1
            } else {
                qc.height
            };
            let block = Block::new(qc, self.name, self.view, self.round, height, true, payload,
                &self.secret);
            actions.push(Action::Broadcast(CoreMessage::Propose(block)));
        }
        self.collect_aggregators();
        Ok(actions)
    }

    /// The round timer expired: broadcast a timeout carrying the current round
    /// and the highest adopted certificate. The state is unchanged; the
    /// timeout is counted when the broadcast is redelivered locally.
    pub fn local_timeout(&mut self) -> (r: Vec<Action>)
        requires
            old(self).wf(),
        ensures
            *final(self) == *old(self),
            final(self).wf(),
            r@.len() == 1,
            (r@[0] matches Action::Broadcast(m) && (m matches CoreMessage::Timeout(t) && t.round
                == old(self).round && qc_eq(t.high_qc, old(self).high_qc) && t.author == old(
                self,
            ).name && t.signature.spec_verify(old(self).name, t.spec_digest()))),
    {
        let t = Timeout::new(self.high_qc.duplicate(), self.round, self.name, &self.secret);
        let mut actions: Vec<Action> = Vec::new();
        actions.push(Action::Broadcast(CoreMessage::Timeout(t)));
        actions
    }

    /// Answers a synchronizer request: the stored block under `d`, if any,
    /// unicast back to the requester.
    pub fn handle_sync_request(&self, d: &Digest, requester: PublicKey) -> (r: Vec<Action>)
        requires
            self.wf(),
        ensures
            r@.len() <= 1,
            contains_digest(self.store@, *d) <==> r@.len() == 1,
            r@.len() == 1 ==> (r@[0] matches Action::Unicast(m, who) && who == requester && (
            m matches CoreMessage::SyncReply(b) && crate::messages::block_eq(
                b,
                lookup(self.store@, *d)->0,
            ))),
    {
        let mut actions: Vec<Action> = Vec::new();
        match self.store.read(d) {
            Some(b) => {
                actions.push(Action::Unicast(CoreMessage::SyncReply(b), requester));
            },
            None => (),
        }
        actions
    }

    /// Everything but the two aggregator tables agrees between two cores.
    pub open spec fn same_but_aggregators(a: &Core, b: &Core) -> bool {
        &&& a.name == b.name
        &&& a.secret == b.secret
        &&& a.elector == b.elector
        &&& a.store == b.store
        &&& a.mempool == b.mempool
        &&& a.round == b.round
        &&& a.last_voted_round == b.last_voted_round
        &&& a.preferred_round == b.preferred_round
        &&& a.high_qc == b.high_qc
        &&& a.high_tc_round == b.high_tc_round
        &&& a.view == b.view
        &&& a.fallback == b.fallback
        &&& a.last_committed_round == b.last_committed_round
        &&& a.committed_any == b.committed_any
        &&& a.timeout_delay == b.timeout_delay
    }

    /// Garbage-collects aggregators for rounds more than `GC_DEPTH` rounds
    /// below the highest adopted certificate round; everything else is
    /// untouched.
    fn collect_aggregators(&mut self)
        requires
            old(self).wf(),
        ensures
            final(self).wf(),
            Core::same_but_aggregators(old(self), final(self)),
            forall|i: int|
                0 <= i < final(self).aggregators@.len() ==> final(self).high_qc.round <= (
                #[trigger] final(self).aggregators@[i]).round + GC_DEPTH,
            forall|i: int|
                0 <= i < final(self).timeout_aggregators@.len() ==> final(self).high_qc.round <= (
                #[trigger] final(self).timeout_aggregators@[i]).round + GC_DEPTH,
    {
        let bound = self.high_qc.round;
        let mut i: usize = 0;
        while i < self.aggregators.len()
            invariant
                self.wf(),
                Core::same_but_aggregators(old(self), self),
                self.timeout_aggregators == old(self).timeout_aggregators,
                bound == self.high_qc.round,
                i <= self.aggregators@.len(),
                forall|j: int|
                    0 <= j < i ==> bound <= (#[trigger] self.aggregators@[j]).round + GC_DEPTH,
            decreases self.aggregators@.len() - i,
        {
            let a_round = self.aggregators[i].round;
            let keep = a_round >= bound || bound - a_round <= GC_DEPTH;
            if keep {
                i = i + 1;
            } else {
                let ghost pre = self.aggregators@;
                let _ = self.aggregators.remove(i);
                proof {
                    assert forall|p: int| 0 <= p < self.aggregators@.len() implies (
                    #[trigger] self.aggregators@[p]).wf(self.spec_committee()) by {
                        if p >= i {
                            assert(self.aggregators@[p] == pre[p + 1]);
                        } else {
                            assert(self.aggregators@[p] == pre[p]);
                        }
                    }
                    assert forall|p: int, q: int| 0 <= p < q < self.aggregators@.len()
                        implies !crate::aggregator::same_vote_prefix(
                        #[trigger] self.aggregators@[p],
                        #[trigger] self.aggregators@[q],
                    ) by {
                        let p0: int = if p >= i {
                            p + 1
                        } else {
                            p
                        };
                        let q0: int = if q >= i {
                            q + 1
                        } else {
                            q
                        };
                        assert(self.aggregators@[p] == pre[p0]);
                        assert(self.aggregators@[q] == pre[q0]);
                    }
                }
            }
        }
        let mut k: usize = 0;
        while k < self.timeout_aggregators.len()
            invariant
                self.wf(),
                Core::same_but_aggregators(old(self), self),
                bound == self.high_qc.round,
                k <= self.timeout_aggregators@.len(),
                forall|j: int|
                    0 <= j < self.aggregators@.len() ==> bound <= (
                    #[trigger] self.aggregators@[j]).round + GC_DEPTH,
                forall|j: int|
                    0 <= j < k ==> bound <= (#[trigger] self.timeout_aggregators@[j]).round
                        + GC_DEPTH,
            decreases self.timeout_aggregators@.len() - k,
        {
            let a_round = self.timeout_aggregators[k].round;
            let keep = a_round >= bound || bound - a_round <= GC_DEPTH;
            if keep {
                k = k + 1;
            } else {
                let ghost pre = self.timeout_aggregators@;
                let _ = self.timeout_aggregators.remove(k);
                proof {
                    assert forall|p: int| 0 <= p < self.timeout_aggregators@.len() implies (
                    #[trigger] self.timeout_aggregators@[p]).wf(self.spec_committee()) by {
                        if p >= k {
                            assert(self.timeout_aggregators@[p] == pre[p + 1]);
                        } else {
                            assert(self.timeout_aggregators@[p] == pre[p]);
                        }
                    }
                    assert forall|p: int, q: int| 0 <= p < q < self.timeout_aggregators@.len()
                        implies (#[trigger] self.timeout_aggregators@[p]).round != (
                    #[trigger] self.timeout_aggregators@[q]).round by {
                        let p0: int = if p >= k {
                            p + 1
                        } else {
                            p
                        };
                        let q0: int = if q >= k {
                            q + 1
                        } else {
                            q
                        };
                        assert(self.timeout_aggregators@[p] == pre[p0]);
                        assert(self.timeout_aggregators@[q] == pre[q0]);
                    }
                }
            }
        }
    }

    /// The single entry point of the event loop: dispatches one inbound
    /// message, with each variant's full postcondition carried through.
    pub fn handle_message(&mut self, m: &CoreMessage) -> (r: DiemResult<Vec<Action>>)
        requires
            old(self).wf(),
        ensures
            final(self).wf(),
            Core::same_identity(old(self), final(self)),
            Core::monotone(old(self), final(self)),
            m matches CoreMessage::Propose(b) ==> Core::spec_propose_post(old(self), final(self),
            *b, r),
            m matches CoreMessage::Vote(v) ==> Core::spec_vote_post(old(self), final(self), *v, r),
            m matches CoreMessage::Timeout(t) ==> Core::spec_timeout_post(old(self), final(self),
            *t, r),
            m matches CoreMessage::SyncReply(b) ==> Core::spec_propose_post(old(self), final(self),
            *b, r),
            m matches CoreMessage::SyncRequest(d, who) ==> r is Ok && *final(self) == *old(self)
                && (contains_digest(old(self).store@, *d) <==> r->Ok_0@.len() == 1),
    {
        match m {
            CoreMessage::Propose(b) => self.handle_propose(b),
            CoreMessage::Vote(v) => self.handle_vote(v),
            CoreMessage::Timeout(t) => self.handle_timeout(t),
            CoreMessage::SyncRequest(d, who) => Ok(self.handle_sync_request(d, *who)),
            CoreMessage::SyncReply(b) => self.handle_propose(b),
        }
    }
}

/// Finds the aggregator whose prefix matches `vote`, if any.
fn find_vote_aggregator(aggs: &Vec<VoteAggregator>, vote: &Vote) -> (r: Option<usize>)
    ensures
        r is Some ==> r->0 < aggs@.len() && aggs@[r->0 as int].spec_matches(*vote),
        r is None ==> forall|j: int|
            0 <= j < aggs@.len() ==> !(#[trigger] aggs@[j]).spec_matches(*vote),
{
    let mut idx: usize = 0;
    while idx < aggs.len()
        invariant
            idx <= aggs@.len(),
            forall|j: int| 0 <= j < idx ==> !(#[trigger] aggs@[j]).spec_matches(*vote),
        decreases aggs@.len() - idx,
    {
        let a = &aggs[idx];
        if a.hash.w0 == vote.hash.w0 && a.hash.w1 == vote.hash.w1 && a.hash.w2 == vote.hash.w2
            && a.hash.w3 == vote.hash.w3 && a.round == vote.round && a.view == vote.view
            && a.height == vote.height && a.fallback == vote.fallback && a.block_author
            == vote.block_author {
            return Some(idx);
        }
        idx = idx + 1;
    }
    None
}

/// Finds the timeout aggregator of `round`, if any.
fn find_timeout_aggregator(aggs: &Vec<TimeoutAggregator>, round: RoundNumber) -> (r: Option<
    usize,
>)
    ensures
        r is Some ==> r->0 < aggs@.len() && aggs@[r->0 as int].round == round,
        r is None ==> forall|j: int| 0 <= j < aggs@.len() ==> (#[trigger] aggs@[j]).round != round,
{
    let mut idx: usize = 0;
    while idx < aggs.len()
        invariant
            idx <= aggs@.len(),
            forall|j: int| 0 <= j < idx ==> (#[trigger] aggs@[j]).round != round,
        decreases aggs@.len() - idx,
    {
        if aggs[idx].round == round {
            return Some(idx);
        }
        idx = idx + 1;
    }
    None
}

} // verus!
