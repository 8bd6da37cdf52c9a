//! The reputation leader elector: deterministic leader selection from the
//! committee and the locally persisted chain prefix, rewarding recent voters
//! and avoiding recent proposers.

use vstd::prelude::*;
use crate::committee::Committee;
use crate::errors::{DiemError, DiemResult};
use crate::messages::{block_eq, voters_seq, Block, Vote, QC};
use crate::store::{contains_digest, grounded, lookup, store_wf, BlockStore};
use crate::types::{Digest, PublicKey, RoundNumber};

verus! {

/// Whether a key sequence is strictly ascending (hence duplicate-free).
pub open spec fn sorted_distinct(s: Seq<PublicKey>) -> bool {
    forall|i: int, j: int| 0 <= i < j < s.len() ==> s[i] < s[j]
}

/// Round-robin leader of `round`: committee members in canonical order, one
/// per pair of rounds.
pub open spec fn spec_round_robin(c: Committee, round: int) -> PublicKey
    recommends
        c.wf(),
        round >= 0,
{
    c@[((round / 2) % (c@.len() as int))].name
}

/// The leader for `round` given certificate `qc`: the certificate's embedded
/// hint when the rounds are consecutive, round robin otherwise.
pub open spec fn spec_next_leader(c: Committee, qc: QC, round: int) -> PublicKey {
    if qc.round + 1 == round && qc.next_leader is Some {
        qc.next_leader->0
    } else {
        spec_round_robin(c, round)
    }
}

/// One backward walk over the persisted chain, collecting the voters of the
/// certificates seen in the first `w` steps and block authors until `need`
/// distinct ones are found. Returns the terminal certificate round and the two
/// sets; `None` when an ancestor is missing.
pub open spec fn spec_walk(
    s: Seq<Block>,
    round: RoundNumber,
    hash: Digest,
    voters: Set<PublicKey>,
    i: nat,
    w: nat,
    need: nat,
    act: Set<PublicKey>,
    auth: Set<PublicKey>,
) -> Option<(RoundNumber, Set<PublicKey>, Set<PublicKey>)>
    decreases round,
        when store_wf(s) && (round == 0 || (contains_digest(s, hash) && lookup(s, hash)->0.round
            == round))
{
    if !(i < w || auth.len() < need) {
        Some((round, act, auth))
    } else if round == 0 {
        Some((round, act, auth))
    } else if !contains_digest(s, hash) {
        None
    } else {
        let b = lookup(s, hash)->0;
        let act2 = if i < w {
            act.union(voters)
        } else {
            act
        };
        let auth2 = if auth.len() < need {
            auth.insert(b.author)
        } else {
            auth
        };
        spec_walk(s, b.qc.round, b.qc.hash, voters_seq(b.qc.votes@).to_set(), i + 1, w, need,
            act2, auth2)
    }
}

/// The reputation-based leader elector of one replica.
pub struct ReputationLeaderElector {
    pub committee: Committee,
    /// How many certificates back the voter window reaches.
    pub window_size: usize,
    /// How many distinct recent authors are excluded from candidacy.
    pub last_authors_size: usize,
}

/// Inserts a key into a strictly ascending vector, keeping it strictly
/// ascending; a key already present is left alone.
pub fn insert_sorted(v: &mut Vec<PublicKey>, x: PublicKey)
    requires
        sorted_distinct(old(v)@),
    ensures
        sorted_distinct(final(v)@),
        final(v)@.to_set() == old(v)@.to_set().insert(x),
{
    let mut i: usize = 0;
    while i < v.len() && v[i] < x
        invariant
            i <= v@.len(),
            sorted_distinct(v@),
            v@ == old(v)@,
            forall|j: int| 0 <= j < i ==> v@[j] < x,
        decreases v@.len() - i,
    {
        i = i + 1;
    }
    if i < v.len() && v[i] == x {
        proof {
            assert(v@.contains(x));
            assert(v@.to_set() =~= old(v)@.to_set().insert(x));
        }
        return;
    }
    v.insert(i, x);
    proof {
        let news = v@;
        let olds = old(v)@;
        assert(news == olds.insert(i as int, x));
        assert forall|a: int, b: int| 0 <= a < b < news.len() implies news[a] < news[b] by {
            if b < i {
                assert(news[a] == olds[a] && news[b] == olds[b]);
            } else if a > i {
                assert(news[a] == olds[a - 1] && news[b] == olds[b - 1]);
            } else if a < i && b == i {
                assert(news[a] == olds[a] && news[b] == x);
            } else if a == i && b > i {
                assert(news[a] == x && news[b] == olds[b - 1]);
            } else if a < i && b > i {
                assert(news[a] == olds[a] && news[b] == olds[b - 1]);
            }
        }
        assert forall|e: PublicKey| #[trigger] news.contains(e) implies (olds.contains(e) || e
            == x) by {
            let wj = choose|j: int| 0 <= j < news.len() && news[j] == e;
            if wj < i {
                assert(olds[wj] == e);
            } else if wj > i {
                assert(olds[wj - 1] == e);
            }
        }
        assert forall|e: PublicKey| #[trigger] olds.contains(e) implies news.contains(e) by {
            let wj = choose|j: int| 0 <= j < olds.len() && olds[j] == e;
            if wj < i {
                assert(news[wj] == e);
            } else {
                assert(news[wj + 1] == e);
            }
        }
        assert(news[i as int] == x);
        assert(news.contains(x));
        assert(news.to_set() =~= olds.to_set().insert(x));
    }
}

/// Pushes a key onto a duplicate-free vector unless it is already present.
pub fn push_unique(v: &mut Vec<PublicKey>, x: PublicKey)
    requires
        old(v)@.no_duplicates(),
    ensures
        final(v)@.no_duplicates(),
        final(v)@.to_set() == old(v)@.to_set().insert(x),
{
    let mut i: usize = 0;
    while i < v.len()
        invariant
            i <= v@.len(),
            v@ == old(v)@,
            old(v)@.no_duplicates(),
            forall|j: int| 0 <= j < i ==> v@[j] != x,
        decreases v@.len() - i,
    {
        if v[i] == x {
            proof {
                assert(v@.contains(x));
                assert(v@.to_set() =~= old(v)@.to_set().insert(x));
            }
            return;
        }
        i = i + 1;
    }
    v.push(x);
    proof {
        let news = v@;
        let olds = old(v)@;
        assert(news.drop_last() =~= olds);
        assert forall|e: PublicKey| #[trigger] news.contains(e) implies (olds.contains(e) || e
            == x) by {
            let wj = choose|j: int| 0 <= j < news.len() && news[j] == e;
            if wj < olds.len() {
                assert(olds[wj] == e);
            }
        }
        assert forall|e: PublicKey| #[trigger] olds.contains(e) implies news.contains(e) by {
            let wj = choose|j: int| 0 <= j < olds.len() && olds[j] == e;
            assert(news[wj] == e);
        }
        assert(news.last() == x);
        assert(news.contains(x));
        assert(news.to_set() =~= olds.to_set().insert(x));
    }
}

/// Whether a vector holds a key.
pub fn vec_contains(v: &Vec<PublicKey>, x: PublicKey) -> (r: bool)
    ensures
        r == v@.contains(x),
{
    let mut i: usize = 0;
    while i < v.len()
        invariant
            i <= v@.len(),
            forall|j: int| 0 <= j < i ==> v@[j] != x,
        decreases v@.len() - i,
    {
        if v[i] == x {
            return true;
        }
        i = i + 1;
    }
    false
}

/// The keys among the first `k` of `s` that are not in `excl`.
pub open spec fn prefix_diff(s: Seq<PublicKey>, excl: Set<PublicKey>, k: int) -> Set<PublicKey>
    decreases k,
{
    if k <= 0 {
        Set::empty()
    } else if excl.contains(s[k - 1]) {
        prefix_diff(s, excl, k - 1)
    } else {
        prefix_diff(s, excl, k - 1).insert(s[k - 1])
    }
}

/// The full prefix difference is the set difference.
proof fn lemma_prefix_diff_full(s: Seq<PublicKey>, excl: Set<PublicKey>, k: int)
    requires
        0 <= k <= s.len(),
    ensures
        forall|e: PublicKey|
            #[trigger] prefix_diff(s, excl, k).contains(e) <==> (s.take(k).contains(e)
                && !excl.contains(e)),
    decreases k,
{
    if k > 0 {
        lemma_prefix_diff_full(s, excl, k - 1);
        assert forall|e: PublicKey| #[trigger] prefix_diff(s, excl, k).contains(e) implies (s.take(
            k,
        ).contains(e) && !excl.contains(e)) by {
            if prefix_diff(s, excl, k - 1).contains(e) {
                let wj = choose|j: int| 0 <= j < k - 1 && #[trigger] s.take(k - 1)[j] == e;
                assert(s.take(k)[wj] == e);
            } else {
                assert(e == s[k - 1]);
                assert(s.take(k)[k - 1] == e);
            }
        }
        assert forall|e: PublicKey| s.take(k).contains(e) && !excl.contains(e)
            implies #[trigger] prefix_diff(s, excl, k).contains(e) by {
            let wj = choose|j: int| 0 <= j < k && #[trigger] s.take(k)[j] == e;
            if wj < k - 1 {
                assert(s.take(k - 1)[wj] == e);
                assert(s.take(k - 1).contains(e));
                assert(prefix_diff(s, excl, k - 1).contains(e));
            } else {
                assert(e == s[k - 1]);
            }
        }
    }
}

impl ReputationLeaderElector {
    /// Elector well-formedness: a well-formed committee, a window of at least
    /// one certificate, at least one excluded author.
    pub open spec fn wf(&self) -> bool {
        &&& self.committee.wf()
        &&& self.window_size >= 1
        &&& self.last_authors_size >= 1
    }

    /// Builds the elector: a window of one certificate, and as many excluded
    /// recent authors as the committee's validity threshold.
    pub fn new(committee: Committee) -> (r: ReputationLeaderElector)
        requires
            committee.wf(),
        ensures
            r.wf(),
            r.committee == committee,
            r.window_size == 1,
            r.last_authors_size == committee.spec_validity_threshold(),
    {
        let last_authors_size = committee.validity_threshold();
        ReputationLeaderElector { committee, window_size: 1, last_authors_size }
    }

    /// The round-robin leader for `round`.
    pub fn round_robin(&self, round: RoundNumber) -> (r: PublicKey)
        requires
            self.wf(),
        ensures
            r == spec_round_robin(self.committee, round as int),
    {
        let n = self.committee.size();
        let idx64: u64 = (round / 2) % (n as u64);
        let idx: usize = idx64 as usize;
        self.committee.authority_at(idx).name
    }

    /// The leader for `round` given the certificate `qc`: the embedded hint
    /// when the rounds are consecutive, round robin otherwise. A pure function
    /// of the committee and its arguments.
    pub fn next_leader(&self, qc: &QC, round: RoundNumber) -> (r: PublicKey)
        requires
            self.wf(),
        ensures
            r == spec_next_leader(self.committee, *qc, round as int),
    {
        if round > 0 && qc.round == round - 1 {
            if let Some(leader) = qc.next_leader {
                return leader;
            }
        }
        self.round_robin(round)
    }

    /// The intended recipient of a vote: the leader of the round after the
    /// vote's own, judged by the certificate the vote acknowledges.
    pub fn vote_recipient(&self, parent_qc: &QC, round: RoundNumber) -> (r: PublicKey)
        requires
            self.wf(),
        ensures
            r == spec_next_leader(self.committee, *parent_qc, round + 1),
    {
        if parent_qc.round == round {
            if let Some(leader) = parent_qc.next_leader {
                return leader;
            }
        }
        let n = self.committee.size();
        let half: u128 = (round as u128 + 1) / 2;
        let idx128: u128 = half % (n as u128);
        let idx: usize = idx128 as usize;
        proof {
            assert(idx == ((round + 1) / 2) % (self.committee@.len() as int));
        }
        self.committee.authority_at(idx).name
    }

    /// Expected author of a received block: the elected leader when the block
    /// extends its parent's round directly, round robin otherwise.
    pub open spec fn spec_expected_author(&self, block: Block, parent: Block) -> PublicKey {
        if parent.round + 1 == block.round {
            spec_next_leader(self.committee, parent.qc, parent.round as int)
        } else {
            spec_round_robin(self.committee, block.round as int)
        }
    }

    /// Checks that a block was authored by the leader its round and parent
    /// demand; a mismatch is `WrongLeader`.
    pub fn check_block(&self, block: &Block, parent: &Block) -> (r: DiemResult<()>)
        requires
            self.wf(),
        ensures
            r is Ok <==> block.author == self.spec_expected_author(*block, *parent),
            r is Err ==> r->Err_0 == (DiemError::WrongLeader {
                digest: block.spec_digest(),
                leader: block.author,
                round: block.round,
            }),
    {
        let expected = if block.round > 0 && parent.round == block.round - 1 {
            self.next_leader(&parent.qc, parent.round)
        } else {
            self.round_robin(block.round)
        };
        if block.author == expected {
            Ok(())
        } else {
            Err(DiemError::WrongLeader {
                digest: block.digest(),
                leader: block.author,
                round: block.round,
            })
        }
    }

    /// Checks that this replica (`name`) is the intended recipient of a vote:
    /// the leader of the round after the vote's, judged by the vote's parent
    /// certificate.
    pub fn check_vote(&self, vote: &Vote, name: PublicKey) -> (r: DiemResult<()>)
        requires
            self.wf(),
        ensures
            r is Ok <==> name == spec_next_leader(self.committee, vote.parent_qc, vote.round + 1),
            r is Err ==> r->Err_0 == DiemError::UnexpectedOrLateVote(vote.author),
    {
        let expected = self.vote_recipient(&vote.parent_qc, vote.round);
        if name == expected {
            Ok(())
        } else {
            Err(DiemError::UnexpectedOrLateVote(vote.author))
        }
    }

    /// The full postcondition of `elect_future_leader`, shared with the
    /// determinism lemma: the walk's outcome fixes the result.
    pub open spec fn spec_elect_post(
        &self,
        s: Seq<Block>,
        qc: QC,
        round: RoundNumber,
        r: DiemResult<Option<PublicKey>>,
    ) -> bool {
        if qc.round + 1 != round {
            r == Ok::<Option<PublicKey>, DiemError>(None)
        } else if !grounded(s, qc) {
            r == Err::<Option<PublicKey>, DiemError>(DiemError::StoreError)
        } else {
            match spec_walk(s, qc.round, qc.hash, voters_seq(qc.votes@).to_set(), 0,
                self.window_size as nat, self.last_authors_size as nat, Set::empty(),
                Set::empty()) {
                Some((trm, act, auth)) => {
                    if act.difference(auth) =~= Set::<PublicKey>::empty() {
                        r == Ok::<Option<PublicKey>, DiemError>(None)
                    } else {
                        exists|cs: Seq<PublicKey>|
                            sorted_distinct(cs) && cs.to_set() == act.difference(auth) && cs.len()
                                > 0 && r == Ok::<Option<PublicKey>, DiemError>(
                                Some(cs[trm as int % cs.len() as int]),
                            )
                    }
                },
                None => r == Err::<Option<PublicKey>, DiemError>(DiemError::StoreError),
            }
        }
    }

    /// Walks back from `qc` through the persisted chain, collecting the
    /// voters of the first `window_size` certificates and the most recent
    /// `last_authors_size` distinct block authors. The candidates are the
    /// collected voters that are not recent authors, in ascending key order;
    /// the winner is picked by the terminal certificate's round. Returns
    /// `None` when the rounds are not consecutive or no candidate remains;
    /// `StoreError` when an ancestor block is missing.
    pub fn elect_future_leader(&self, store: &BlockStore, qc: &QC, round: RoundNumber) -> (r:
        DiemResult<Option<PublicKey>>)
        requires
            self.wf(),
            store.wf(),
        ensures
            self.spec_elect_post(store@, *qc, round, r),
    {
        if !(round > 0 && qc.round == round - 1) {
            return Ok(None);
        }
        let ghost s = store@;
        let ghost w = self.window_size as nat;
        let ghost need = self.last_authors_size as nat;

        let mut cur_round: RoundNumber = qc.round;
        let mut cur_hash: Digest = qc.hash;
        let mut cur_voters: Vec<PublicKey> = qc.voters();
        let mut i: usize = 0;
        let ghost mut ispec: nat = 0;
        let mut act: Vec<PublicKey> = Vec::new();
        let mut auth: Vec<PublicKey> = Vec::new();

        if cur_round > 0 {
            match store.read(&cur_hash) {
                Some(b0) => {
                    if b0.round != cur_round {
                        return Err(DiemError::StoreError);
                    }
                },
                None => {
                    return Err(DiemError::StoreError);
                },
            }
        }
        proof {
            assert(act@.to_set() =~= Set::<PublicKey>::empty());
            assert(auth@.to_set() =~= Set::<PublicKey>::empty());
        }

        while (i < self.window_size || auth.len() < self.last_authors_size) && cur_round != 0
            invariant
                self.wf(),
                store.wf(),
                s == store@,
                w == self.window_size as nat,
                need == self.last_authors_size as nat,
                act@.no_duplicates(),
                auth@.no_duplicates(),
                cur_round == 0 || (contains_digest(s, cur_hash) && lookup(s, cur_hash)->0.round
                    == cur_round),
                i <= self.window_size,
                ispec < w ==> i as nat == ispec,
                ispec >= w ==> i as nat == w,
                spec_walk(s, qc.round, qc.hash, voters_seq(qc.votes@).to_set(), 0, w, need,
                    Set::empty(), Set::empty()) == spec_walk(s, cur_round, cur_hash,
                    cur_voters@.to_set(), ispec, w, need, act@.to_set(), auth@.to_set()),
            decreases cur_round,
        {
            let ghost old_round = cur_round;
            let ghost old_hash = cur_hash;
            let ghost old_voterset = cur_voters@.to_set();
            let ghost i0 = ispec;
            let ghost act0 = act@.to_set();
            let ghost auth0 = auth@.to_set();
            proof {
                auth@.unique_seq_to_set();
                act@.unique_seq_to_set();
            }
            let b = match store.read(&cur_hash) {
                Some(b) => b,
                None => {
                    proof {
                        assert(false);
                    }
                    return Err(DiemError::StoreError);
                },
            };
            proof {
                assert(block_eq(b, lookup(s, cur_hash)->0));
            }
            if i < self.window_size {
                let ghost act_base = act@.to_set();
                let mut k: usize = 0;
                while k < cur_voters.len()
                    invariant
                        k <= cur_voters@.len(),
                        act@.no_duplicates(),
                        act@.to_set() == act_base.union(cur_voters@.take(k as int).to_set()),
                    decreases cur_voters@.len() - k,
                {
                    let x = cur_voters[k];
                    push_unique(&mut act, x);
                    proof {
                        assert(cur_voters@.take(k + 1int).drop_last() =~= cur_voters@.take(
                            k as int,
                        ));
                        assert(cur_voters@.take(k + 1int).last() == cur_voters@[k as int]);
                        assert forall|e: PublicKey| #[trigger] cur_voters@.take(k + 1int).contains(
                            e,
                        ) implies (cur_voters@.take(k as int).contains(e) || e
                            == cur_voters@[k as int]) by {
                            let wj = choose|j: int|
                                0 <= j < k + 1 && #[trigger] cur_voters@.take(k + 1int)[j] == e;
                            if wj < k {
                                assert(cur_voters@.take(k as int)[wj] == e);
                            }
                        }
                        assert forall|e: PublicKey| #[trigger] cur_voters@.take(k as int).contains(
                            e,
                        ) implies cur_voters@.take(k + 1int).contains(e) by {
                            let wj = choose|j: int|
                                0 <= j < k && #[trigger] cur_voters@.take(k as int)[j] == e;
                            assert(cur_voters@.take(k + 1int)[wj] == e);
                        }
                        assert(cur_voters@.take(k + 1int)[k as int] == cur_voters@[k as int]);
                        assert(act@.to_set() =~= act_base.union(
                            cur_voters@.take(k + 1int).to_set(),
                        ));
                    }
                    k = k + 1;
                }
                proof {
                    assert(cur_voters@.take(cur_voters@.len() as int) =~= cur_voters@);
                }
            }
            if auth.len() < self.last_authors_size {
                push_unique(&mut auth, b.author);
            }
            let next_voters = b.qc.voters();
            let next_round = b.qc.round;
            let next_hash = b.qc.hash;
            proof {
                auth@.unique_seq_to_set();
                let widx = choose|m: int| 0 <= m < s.len() && s[m].spec_digest() == old_hash;
                assert(s[widx] == lookup(s, old_hash)->0);
                assert(grounded(s, s[widx].qc));
                assert(s[widx].round == 0 || s[widx].qc.round < s[widx].round);
                assert(next_voters@.to_set() == voters_seq(
                    lookup(s, old_hash)->0.qc.votes@,
                ).to_set());
                assert(next_round == 0 || (contains_digest(s, next_hash) && lookup(
                    s,
                    next_hash,
                )->0.round == next_round));
                assert(spec_walk(s, old_round, old_hash, old_voterset, i0, w, need, act0, auth0)
                    == spec_walk(s, next_round, next_hash, next_voters@.to_set(), i0 + 1, w, need,
                    act@.to_set(), auth@.to_set()));
            }
            cur_round = next_round;
            cur_hash = next_hash;
            cur_voters = next_voters;
            if i < self.window_size {
                i = i + 1;
            }
            proof {
                ispec = ispec + 1;
            }
        }
        proof {
            auth@.unique_seq_to_set();
            assert(spec_walk(s, cur_round, cur_hash, cur_voters@.to_set(), ispec, w, need,
                act@.to_set(), auth@.to_set()) == Some(
                (cur_round, act@.to_set(), auth@.to_set()),
            ));
        }
        let ghost actset = act@.to_set();
        let ghost authset = auth@.to_set();

        let mut cands: Vec<PublicKey> = Vec::new();
        let mut k: usize = 0;
        while k < act.len()
            invariant
                k <= act@.len(),
                sorted_distinct(cands@),
                auth@.to_set() == authset,
                cands@.to_set() == prefix_diff(act@, authset, k as int),
            decreases act@.len() - k,
        {
            let x = act[k];
            if !vec_contains(&auth, x) {
                proof {
                    assert(!authset.contains(x));
                }
                insert_sorted(&mut cands, x);
            } else {
                proof {
                    assert(authset.contains(act@[k as int]));
                }
            }
            k = k + 1;
        }
        proof {
            lemma_prefix_diff_full(act@, authset, act@.len() as int);
            assert(act@.take(act@.len() as int) =~= act@);
            assert(cands@.to_set() =~= actset.difference(authset));
        }
        if cands.len() == 0 {
            proof {
                assert forall|e: PublicKey| !(#[trigger] actset.difference(authset).contains(
                    e,
                )) by {
                    if actset.difference(authset).contains(e) {
                        assert(cands@.to_set().contains(e));
                    }
                }
                assert(actset.difference(authset) =~= Set::<PublicKey>::empty());
            }
            return Ok(None);
        }
        let idx: usize = (cur_round % (cands.len() as u64)) as usize;
        let winner = cands[idx];
        proof {
            assert(cands@.to_set().contains(cands@[0]));
            assert(!(actset.difference(authset) =~= Set::<PublicKey>::empty()));
            assert(idx == cur_round as int % (cands@.len() as int));
        }
        Ok(Some(winner))
    }
}

} // verus!
