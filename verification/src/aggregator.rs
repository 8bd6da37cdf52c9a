//! Vote and timeout aggregation: duplicate detection, quorum closure, and the
//! certificates that result.

use vstd::prelude::*;
use crate::committee::Committee;
use crate::errors::{DiemError, DiemResult};
use crate::messages::{
    copy_votes, timeout_digest_of, unique_keys, voters_seq, Timeout, Vote, QC, TC,
};
use crate::types::{Digest, HeightNumber, PublicKey, RoundNumber, Signature, ViewNumber};

verus! {

/// Whether two vote aggregators collect the same six-field prefix.
pub open spec fn same_vote_prefix(a: VoteAggregator, b: VoteAggregator) -> bool {
    &&& a.hash == b.hash
    &&& a.round == b.round
    &&& a.view == b.view
    &&& a.height == b.height
    &&& a.fallback == b.fallback
    &&& a.block_author == b.block_author
}

/// Collects the votes for one six-field prefix until a quorum is reached; the
/// certificate is emitted exactly once, and the aggregator then drops every
/// further vote silently.
pub struct VoteAggregator {
    /// The prefix this aggregator collects votes for.
    pub hash: Digest,
    pub round: RoundNumber,
    pub view: ViewNumber,
    pub height: HeightNumber,
    pub fallback: bool,
    pub block_author: PublicKey,
    /// The accepted votes, one per distinct voter.
    pub votes: Vec<(PublicKey, Signature)>,
    /// Whether the certificate has already been emitted.
    pub used: bool,
}

impl VoteAggregator {
    /// Whether `vote` carries exactly this aggregator's prefix.
    pub open spec fn spec_matches(&self, vote: Vote) -> bool {
        &&& self.hash == vote.hash
        &&& self.round == vote.round
        &&& self.view == vote.view
        &&& self.height == vote.height
        &&& self.fallback == vote.fallback
        &&& self.block_author == vote.block_author
    }

    /// The six-field prefix digest all collected signatures cover.
    pub open spec fn spec_digest(&self) -> Digest {
        crate::messages::vote_digest_of(self.hash, self.round, self.view, self.height,
            self.fallback, self.block_author)
    }

    /// Aggregator invariant: voters are distinct committee members and every
    /// stored signature covers the prefix.
    pub open spec fn wf(&self, c: Committee) -> bool {
        &&& unique_keys(voters_seq(self.votes@))
        &&& forall|i: int|
            0 <= i < self.votes@.len() ==> c.spec_exists(#[trigger] self.votes@[i].0)
        &&& forall|i: int|
            0 <= i < self.votes@.len() ==> (#[trigger] self.votes@[i]).1.spec_verify(
                self.votes@[i].0,
                self.spec_digest(),
            )
    }

    /// A fresh aggregator for the prefix of `vote` (which is not yet counted).
    pub fn new(vote: &Vote) -> (r: VoteAggregator)
        ensures
            r.spec_matches(*vote),
            r.votes@.len() == 0,
            !r.used,
            forall|c: Committee| r.wf(c),
    {
        VoteAggregator {
            hash: vote.hash,
            round: vote.round,
            view: vote.view,
            height: vote.height,
            fallback: vote.fallback,
            block_author: vote.block_author,
            votes: Vec::new(),
            used: false,
        }
    }

    /// Adds a vote. An unknown voter raises `UnknownAuthority`, a bad
    /// signature `InvalidSignature`, a repeated voter `AuthorityReuse`; a vote
    /// arriving after the certificate was emitted is dropped silently. The
    /// certificate is returned exactly when the quorum threshold is reached.
    pub fn append(&mut self, vote: &Vote, c: &Committee) -> (r: DiemResult<Option<QC>>)
        requires
            c.wf(),
            old(self).wf(*c),
            old(self).spec_matches(*vote),
        ensures
            final(self).wf(*c),
            final(self).spec_matches(*vote),
            final(self).hash == old(self).hash,
            final(self).round == old(self).round,
            final(self).view == old(self).view,
            final(self).height == old(self).height,
            final(self).fallback == old(self).fallback,
            final(self).block_author == old(self).block_author,
            !c.spec_exists(vote.author) ==> r == Err::<Option<QC>, DiemError>(
                DiemError::UnknownAuthority(vote.author),
            ) && final(self).votes@ == old(self).votes@ && final(self).used == old(self).used,
            c.spec_exists(vote.author) && !vote.signature.spec_verify(vote.author,
                vote.spec_digest()) ==> r == Err::<Option<QC>, DiemError>(
                DiemError::InvalidSignature,
            ) && final(self).votes@ == old(self).votes@ && final(self).used == old(self).used,
            vote.spec_valid(*c) && old(self).used ==> r == Ok::<Option<QC>, DiemError>(None)
                && final(self).votes@ == old(self).votes@ && final(self).used,
            vote.spec_valid(*c) && !old(self).used && voters_seq(old(self).votes@).contains(
                vote.author,
            ) ==> r == Err::<Option<QC>, DiemError>(DiemError::AuthorityReuse(vote.author))
                && final(self).votes@ == old(self).votes@ && final(self).used == old(self).used,
            vote.spec_valid(*c) && !old(self).used && !voters_seq(old(self).votes@).contains(
                vote.author,
            ) ==> final(self).votes@ == old(self).votes@.push((vote.author, vote.signature)),
            vote.spec_valid(*c) && !old(self).used && !voters_seq(old(self).votes@).contains(
                vote.author,
            ) && old(self).votes@.len() + 1 < c.spec_quorum_threshold() ==> r == Ok::<
                Option<QC>,
                DiemError,
            >(None) && !final(self).used,
            vote.spec_valid(*c) && !old(self).used && !voters_seq(old(self).votes@).contains(
                vote.author,
            ) && old(self).votes@.len() + 1 >= c.spec_quorum_threshold() ==> final(self).used
                && (r matches Ok(Some(qc)) && qc.hash == old(self).hash && qc.round == old(
                self,
            ).round && qc.view == old(self).view && qc.height == old(self).height && qc.fallback
                == old(self).fallback && qc.proposer == old(self).block_author && qc.votes@ == old(
                self,
            ).votes@.push((vote.author, vote.signature)) && qc.next_leader is None
                && qc.spec_valid(*c)),
    {
        if !c.is_member(&vote.author) {
            return Err(DiemError::UnknownAuthority(vote.author));
        }
        let d = vote.digest();
        if !vote.signature.verify(vote.author, d) {
            return Err(DiemError::InvalidSignature);
        }
        if self.used {
            return Ok(None);
        }
        let mut i: usize = 0;
        while i < self.votes.len()
            invariant
                i <= self.votes@.len(),
                self == old(self),
                c.wf(),
                self.wf(*c),
                self.spec_matches(*vote),
                vote.spec_valid(*c),
                !self.used,
                forall|j: int| 0 <= j < i ==> self.votes@[j].0 != vote.author,
            decreases self.votes@.len() - i,
        {
            if self.votes[i].0 == vote.author {
                proof {
                    assert(voters_seq(self.votes@)[i as int] == self.votes@[i as int].0);
                }
                return Err(DiemError::AuthorityReuse(vote.author));
            }
            i = i + 1;
        }
        proof {
            assert forall|e: PublicKey| !(#[trigger] voters_seq(self.votes@).contains(e)) || e
                != vote.author by {
                if voters_seq(self.votes@).contains(e) && e == vote.author {
                    let wj = choose|j: int|
                        0 <= j < voters_seq(self.votes@).len() && voters_seq(self.votes@)[j] == e;
                    assert(self.votes@[wj].0 == e);
                }
            }
        }
        self.votes.push((vote.author, vote.signature));
        proof {
            let news = self.votes@;
            let olds = old(self).votes@;
            assert(news.drop_last() =~= olds);
            assert(voters_seq(news).drop_last() =~= voters_seq(olds));
            assert forall|a: int, b: int| 0 <= a < b < news.len() implies voters_seq(news)[a]
                != voters_seq(news)[b] by {
                assert(voters_seq(news)[a] == news[a].0);
                assert(voters_seq(news)[b] == news[b].0);
                assert(news[a] == olds[a]);
                if b < news.len() - 1 {
                    assert(news[b] == olds[b]);
                    assert(voters_seq(olds)[a] == olds[a].0);
                    assert(voters_seq(olds)[b] == olds[b].0);
                } else {
                    assert(news[b].0 == vote.author);
                    assert(olds[a].0 != vote.author);
                }
            }
        }
        let threshold = c.quorum_threshold();
        if self.votes.len() >= threshold {
            self.used = true;
            let qc = QC {
                hash: self.hash,
                view: self.view,
                round: self.round,
                height: self.height,
                fallback: self.fallback,
                proposer: self.block_author,
                votes: copy_votes(&self.votes),
                next_leader: None,
            };
            proof {
                assert(qc.spec_digest() == self.spec_digest());
            }
            return Ok(Some(qc));
        }
        Ok(None)
    }
}

/// Collects the timeouts of one round until a quorum is reached; the timeout
/// certificate is emitted exactly once.
pub struct TimeoutAggregator {
    pub round: RoundNumber,
    /// Voter, signature, and the round of the highest certificate that voter
    /// had adopted.
    pub entries: Vec<(PublicKey, Signature, RoundNumber)>,
    pub used: bool,
}

impl TimeoutAggregator {
    /// Aggregator invariant: voters are distinct committee members and every
    /// signature covers this round and the entry's certificate round.
    pub open spec fn wf(&self, c: Committee) -> bool {
        &&& unique_keys(crate::messages::tc_voters_seq(self.entries@))
        &&& forall|i: int|
            0 <= i < self.entries@.len() ==> c.spec_exists(#[trigger] self.entries@[i].0)
        &&& forall|i: int|
            0 <= i < self.entries@.len() ==> (#[trigger] self.entries@[i]).1.spec_verify(
                self.entries@[i].0,
                timeout_digest_of(self.round, self.entries@[i].2),
            )
    }

    /// A fresh aggregator for `round`.
    pub fn new(round: RoundNumber) -> (r: TimeoutAggregator)
        ensures
            r.round == round,
            r.entries@.len() == 0,
            !r.used,
            forall|c: Committee| r.wf(c),
    {
        TimeoutAggregator { round, entries: Vec::new(), used: false }
    }

    /// Adds a timeout for this aggregator's round. Error kinds as for votes;
    /// the certificate is returned exactly when the quorum is reached.
    pub fn append(&mut self, t: &Timeout, c: &Committee) -> (r: DiemResult<Option<TC>>)
        requires
            c.wf(),
            old(self).wf(*c),
            old(self).round == t.round,
        ensures
            final(self).wf(*c),
            final(self).round == old(self).round,
            !c.spec_exists(t.author) ==> r == Err::<Option<TC>, DiemError>(
                DiemError::UnknownAuthority(t.author),
            ) && final(self).entries@ == old(self).entries@ && final(self).used == old(self).used,
            c.spec_exists(t.author) && !t.signature.spec_verify(t.author, t.spec_digest()) ==> r
                == Err::<Option<TC>, DiemError>(DiemError::InvalidSignature)
                && final(self).entries@ == old(self).entries@ && final(self).used == old(
                self,
            ).used,
            t.spec_valid(*c) && old(self).used ==> r == Ok::<Option<TC>, DiemError>(None)
                && final(self).entries@ == old(self).entries@ && final(self).used,
            t.spec_valid(*c) && !old(self).used && crate::messages::tc_voters_seq(
                old(self).entries@,
            ).contains(t.author) ==> r == Err::<Option<TC>, DiemError>(
                DiemError::AuthorityReuse(t.author),
            ) && final(self).entries@ == old(self).entries@ && final(self).used == old(self).used,
            t.spec_valid(*c) && !old(self).used && !crate::messages::tc_voters_seq(
                old(self).entries@,
            ).contains(t.author) ==> final(self).entries@ == old(self).entries@.push(
                (t.author, t.signature, t.high_qc.round),
            ) && (final(self).used <==> old(self).entries@.len() + 1
                >= c.spec_quorum_threshold()),
            t.spec_valid(*c) && !old(self).used && !crate::messages::tc_voters_seq(
                old(self).entries@,
            ).contains(t.author) && old(self).entries@.len() + 1 >= c.spec_quorum_threshold()
                ==> (r matches Ok(Some(tc)) && tc.round == old(self).round && tc.entries@ == old(
                self,
            ).entries@.push((t.author, t.signature, t.high_qc.round)) && tc.spec_valid(*c)),
            t.spec_valid(*c) && !old(self).used && !crate::messages::tc_voters_seq(
                old(self).entries@,
            ).contains(t.author) && old(self).entries@.len() + 1 < c.spec_quorum_threshold() ==> r
                == Ok::<Option<TC>, DiemError>(None),
    {
        if !c.is_member(&t.author) {
            return Err(DiemError::UnknownAuthority(t.author));
        }
        let d = t.digest();
        if !t.signature.verify(t.author, d) {
            return Err(DiemError::InvalidSignature);
        }
        if self.used {
            return Ok(None);
        }
        let mut i: usize = 0;
        while i < self.entries.len()
            invariant
                i <= self.entries@.len(),
                self == old(self),
                c.wf(),
                self.wf(*c),
                self.round == t.round,
                c.spec_exists(t.author),
                t.signature.spec_verify(t.author, t.spec_digest()),
                !self.used,
                forall|j: int| 0 <= j < i ==> self.entries@[j].0 != t.author,
            decreases self.entries@.len() - i,
        {
            if self.entries[i].0 == t.author {
                proof {
                    assert(crate::messages::tc_voters_seq(self.entries@)[i as int]
                        == self.entries@[i as int].0);
                }
                return Err(DiemError::AuthorityReuse(t.author));
            }
            i = i + 1;
        }
        proof {
            assert forall|e: PublicKey| !(#[trigger] crate::messages::tc_voters_seq(
                self.entries@,
            ).contains(e)) || e != t.author by {
                if crate::messages::tc_voters_seq(self.entries@).contains(e) && e == t.author {
                    let wj = choose|j: int|
                        0 <= j < crate::messages::tc_voters_seq(self.entries@).len()
                            && crate::messages::tc_voters_seq(self.entries@)[j] == e;
                    assert(self.entries@[wj].0 == e);
                }
            }
        }
        self.entries.push((t.author, t.signature, t.high_qc.round));
        proof {
            let news = self.entries@;
            let olds = old(self).entries@;
            assert(news.drop_last() =~= olds);
            assert(crate::messages::tc_voters_seq(news).drop_last()
                =~= crate::messages::tc_voters_seq(olds));
            assert forall|a: int, b: int| 0 <= a < b < news.len()
                implies crate::messages::tc_voters_seq(news)[a]
                != crate::messages::tc_voters_seq(news)[b] by {
                assert(crate::messages::tc_voters_seq(news)[a] == news[a].0);
                assert(crate::messages::tc_voters_seq(news)[b] == news[b].0);
                assert(news[a] == olds[a]);
                if b < news.len() - 1 {
                    assert(news[b] == olds[b]);
                    assert(crate::messages::tc_voters_seq(olds)[a] == olds[a].0);
                    assert(crate::messages::tc_voters_seq(olds)[b] == olds[b].0);
                } else {
                    assert(news[b].0 == t.author);
                    assert(olds[a].0 != t.author);
                }
            }
        }
        let threshold = c.quorum_threshold();
        if self.entries.len() >= threshold {
            self.used = true;
            let mut entries: Vec<(PublicKey, Signature, RoundNumber)> = Vec::new();
            let mut k: usize = 0;
            while k < self.entries.len()
                invariant
                    k <= self.entries@.len(),
                    entries@ == self.entries@.take(k as int),
                decreases self.entries@.len() - k,
            {
                entries.push(self.entries[k]);
                proof {
                    assert(entries@ =~= self.entries@.take(k + 1int));
                }
                k = k + 1;
            }
            proof {
                assert(self.entries@.take(self.entries@.len() as int) =~= self.entries@);
            }
            let tc = TC { round: self.round, entries };
            return Ok(Some(tc));
        }
        Ok(None)
    }
}

} // verus!
