//! The protocol's global laws, proved from the contracts of the components:
//! certificate agreement by quorum intersection, per-round uniqueness of an
//! honest replica's votes and commits, and determinism of leader election.

use vstd::prelude::*;
use vstd::set_lib::lemma_len_subset;
use crate::committee::{names_of, Committee};
use crate::errors::DiemResult;
use crate::leader::{sorted_distinct, spec_next_leader, ReputationLeaderElector};
use crate::messages::{qc_eq, voters_seq, Block, QC};
use crate::types::{Digest, PublicKey, RoundNumber};

verus! {

/// Cardinality of a union and an intersection of finite sets.
pub proof fn lemma_inclusion_exclusion<A>(a: Set<A>, b: Set<A>)
    requires
        a.finite(),
        b.finite(),
    ensures
        a.union(b).finite(),
        a.intersect(b).finite(),
        a.union(b).len() + a.intersect(b).len() == a.len() + b.len(),
    decreases a.len(),
{
    if a.len() == 0 {
        assert(a =~= Set::<A>::empty());
        assert(a.union(b) =~= b);
        assert(a.intersect(b) =~= Set::<A>::empty());
    } else {
        let x = a.choose();
        assert(a.contains(x));
        lemma_inclusion_exclusion(a.remove(x), b);
        if b.contains(x) {
            assert(a.remove(x).union(b) =~= a.union(b));
            assert(a.remove(x).intersect(b) =~= a.intersect(b).remove(x));
            assert(a.intersect(b).contains(x));
            assert(a.intersect(b).remove(x).len() == a.intersect(b).len() - 1) by {
                assert(a.intersect(b).remove(x).insert(x) =~= a.intersect(b));
            }
        } else {
            assert(a.remove(x).union(b) =~= a.union(b).remove(x));
            assert(a.remove(x).intersect(b) =~= a.intersect(b));
            assert(a.union(b).contains(x));
            assert(a.union(b).remove(x).len() == a.union(b).len() - 1) by {
                assert(a.union(b).remove(x).insert(x) =~= a.union(b));
            }
        }
    }
}

/// The voters of a valid certificate, as a set: one entry per signature.
pub open spec fn voter_set(q: QC) -> Set<PublicKey> {
    voters_seq(q.votes@).to_set()
}

/// In a valid certificate the voters are distinct, so the voter set is as
/// large as the signature list, and every voter is a committee member.
pub proof fn lemma_voter_set(c: Committee, q: QC)
    requires
        c.wf(),
        q.spec_valid(c),
    ensures
        voter_set(q).finite(),
        voter_set(q).len() == q.votes@.len(),
        voter_set(q).subset_of(names_of(c@)),
{
    let vs = voters_seq(q.votes@);
    assert(vs.no_duplicates());
    vs.unique_seq_to_set();
    assert forall|e: PublicKey| #[trigger] voter_set(q).contains(e) implies names_of(c@).contains(
        e,
    ) by {
        let i = choose|i: int| 0 <= i < vs.len() && vs[i] == e;
        assert(q.votes@[i].0 == e);
        assert(c.spec_exists(e));
        let j = choose|j: int| 0 <= j < c@.len() && c@[j].name == e;
        assert(c@.map(|i: int, a: crate::committee::Authority| a.name)[j] == e);
    }
}

/// Quorum-certificate agreement. In a committee of `3f + 1` members with at
/// most `f` Byzantine ones, where every honest voter votes for at most one
/// block hash per `(round, view, fallback)` (recorded by `votes_of`), two
/// valid certificates for the same `(round, view, fallback)` certify the same
/// hash: their quorums intersect in at least `f + 1` members, one of which is
/// honest.
pub proof fn lemma_qc_agreement(
    c: Committee,
    byz: Set<PublicKey>,
    votes_of: Map<PublicKey, Digest>,
    q1: QC,
    q2: QC,
    f: nat,
)
    requires
        c.wf(),
        c@.len() == 3 * f + 1,
        byz.finite(),
        byz.len() <= f,
        q1.spec_valid(c),
        q2.spec_valid(c),
        q1.round == q2.round,
        q1.view == q2.view,
        q1.fallback == q2.fallback,
        forall|i: int|
            0 <= i < q1.votes@.len() && !byz.contains((#[trigger] q1.votes@[i]).0)
                ==> votes_of[q1.votes@[i].0] == q1.hash,
        forall|i: int|
            0 <= i < q2.votes@.len() && !byz.contains((#[trigger] q2.votes@[i]).0)
                ==> votes_of[q2.votes@[i].0] == q2.hash,
    ensures
        q1.hash == q2.hash,
{
    let names = names_of(c@);
    let v1 = voter_set(q1);
    let v2 = voter_set(q2);
    lemma_voter_set(c, q1);
    lemma_voter_set(c, q2);
    assert(names.finite() && names.len() == c@.len()) by {
        let ns = c@.map(|i: int, a: crate::committee::Authority| a.name);
        assert(ns.no_duplicates());
        ns.unique_seq_to_set();
    }
    // |v1 ∩ v2| >= |v1| + |v2| - |names| >= (2f+1) + (2f+1) - (3f+1) = f + 1.
    lemma_inclusion_exclusion(v1, v2);
    assert(v1.union(v2).subset_of(names));
    lemma_len_subset(v1.union(v2), names);
    assert(v1.intersect(v2).len() >= f + 1);
    // Some common voter is honest.
    assert(!v1.intersect(v2).subset_of(byz)) by {
        if v1.intersect(v2).subset_of(byz) {
            lemma_len_subset(v1.intersect(v2), byz);
        }
    }
    let e = choose|e: PublicKey| v1.intersect(v2).contains(e) && !byz.contains(e);
    assert(v1.contains(e) && v2.contains(e));
    let i1 = choose|i: int| 0 <= i < voters_seq(q1.votes@).len() && voters_seq(q1.votes@)[i] == e;
    let i2 = choose|i: int| 0 <= i < voters_seq(q2.votes@).len() && voters_seq(q2.votes@)[i] == e;
    assert(q1.votes@[i1].0 == e);
    assert(q2.votes@[i2].0 == e);
    assert(votes_of[e] == q1.hash);
    assert(votes_of[e] == q2.hash);
}

/// Vote uniqueness of an honest replica. The voting rule only emits a vote
/// whose round strictly exceeds the recorded last voted round, and records
/// that round; the record never decreases. Hence any two votes emitted along
/// one execution, for any rounds and fallback flags, carry distinct rounds.
pub proof fn lemma_vote_uniqueness(
    lv0: RoundNumber,
    r1: RoundNumber,
    lv1: RoundNumber,
    lv_mid: RoundNumber,
    r2: RoundNumber,
)
    requires
        r1 > lv0,
        lv1 == r1,
        lv_mid >= lv1,
        r2 > lv_mid,
    ensures
        r2 != r1,
        r2 > r1,
{
}

/// Commit-round uniqueness of an honest replica: every emitted commit carries
/// a round strictly beyond the previous commit frontier, and the frontier
/// never decreases, so no two blocks are ever committed at the same round.
pub proof fn lemma_commit_uniqueness(
    any0: bool,
    last0: RoundNumber,
    r1: RoundNumber,
    last1: RoundNumber,
    last_mid: RoundNumber,
    r2: RoundNumber,
)
    requires
        !any0 || r1 > last0,
        last1 >= r1,
        last_mid >= last1,
        r2 > last_mid,
    ensures
        r2 != r1,
        r2 > r1,
{
}

/// Leader determinism: the elected leader is a function of the committee, the
/// certificate's view-level content, and the round alone, so two honest
/// replicas with the same committee and equal certificates agree.
pub proof fn lemma_next_leader_deterministic(c: Committee, qc1: QC, qc2: QC, round: int)
    requires
        qc_eq(qc1, qc2),
    ensures
        spec_next_leader(c, qc1, round) == spec_next_leader(c, qc2, round),
{
}

/// Two strictly ascending key sequences with the same elements are equal.
pub proof fn lemma_sorted_distinct_unique(s1: Seq<PublicKey>, s2: Seq<PublicKey>)
    requires
        sorted_distinct(s1),
        sorted_distinct(s2),
        s1.to_set() == s2.to_set(),
    ensures
        s1 == s2,
    decreases s1.len(),
{
    assert(s1.no_duplicates());
    assert(s2.no_duplicates());
    s1.unique_seq_to_set();
    s2.unique_seq_to_set();
    if s1.len() == 0 {
        assert(s1 =~= s2);
    } else {
        assert(s1.to_set().contains(s1[0]));
        assert(s2.to_set().contains(s2[0]));
        assert(s1.contains(s2[0]));
        assert(s2.contains(s1[0]));
        let i1 = choose|i: int| 0 <= i < s1.len() && s1[i] == s2[0];
        let i2 = choose|i: int| 0 <= i < s2.len() && s2[i] == s1[0];
        assert(s1[0] <= s1[i1] && s2[0] <= s2[i2]);
        assert(s1[0] == s2[0]);
        let t1 = s1.drop_first();
        let t2 = s2.drop_first();
        assert(sorted_distinct(t1) && sorted_distinct(t2));
        assert(t1.to_set() =~= t2.to_set()) by {
            assert forall|e: PublicKey| #[trigger] t1.contains(e) implies t2.contains(e) by {
                let j = choose|j: int| 0 <= j < t1.len() && t1[j] == e;
                assert(s1[j + 1] == e);
                assert(s1.contains(e));
                assert(s1.to_set().contains(e));
                assert(e != s1[0]);
                assert(s2.contains(e));
                let k = choose|k: int| 0 <= k < s2.len() && s2[k] == e;
                assert(k != 0);
                assert(t2[k - 1] == e);
            }
            assert forall|e: PublicKey| #[trigger] t2.contains(e) implies t1.contains(e) by {
                let j = choose|j: int| 0 <= j < t2.len() && t2[j] == e;
                assert(s2[j + 1] == e);
                assert(s2.contains(e));
                assert(s2.to_set().contains(e));
                assert(e != s2[0]);
                assert(s1.contains(e));
                let k = choose|k: int| 0 <= k < s1.len() && s1[k] == e;
                assert(k != 0);
                assert(t1[k - 1] == e);
            }
        }
        lemma_sorted_distinct_unique(t1, t2);
        assert(s1 =~= s2) by {
            assert forall|j: int| 0 <= j < s1.len() implies s1[j] == s2[j] by {
                if j > 0 {
                    assert(t1[j - 1] == t2[j - 1]);
                }
            }
        }
    }
}

/// Determinism of the reputation election: the elector's postcondition pins a
/// single outcome, so two runs over the same committee, store contents and
/// arguments return the same leader.
pub proof fn lemma_elect_deterministic(
    e: &ReputationLeaderElector,
    s: Seq<Block>,
    qc: QC,
    round: RoundNumber,
    r1: DiemResult<Option<PublicKey>>,
    r2: DiemResult<Option<PublicKey>>,
)
    requires
        e.spec_elect_post(s, qc, round, r1),
        e.spec_elect_post(s, qc, round, r2),
    ensures
        r1 == r2,
{
    if qc.round + 1 == round && crate::store::grounded(s, qc) {
        match crate::leader::spec_walk(s, qc.round, qc.hash, voters_seq(qc.votes@).to_set(), 0,
            e.window_size as nat, e.last_authors_size as nat, Set::empty(), Set::empty()) {
            Some((trm, act, auth)) => {
                let cand = act.difference(auth);
                if !(cand =~= Set::<PublicKey>::empty()) {
                    let cs1 = choose|cs: Seq<PublicKey>|
                        sorted_distinct(cs) && cs.to_set() == cand && cs.len() > 0 && r1 == Ok::<
                            Option<PublicKey>,
                            crate::errors::DiemError,
                        >(Some(cs[trm as int % cs.len() as int]));
                    let cs2 = choose|cs: Seq<PublicKey>|
                        sorted_distinct(cs) && cs.to_set() == cand && cs.len() > 0 && r2 == Ok::<
                            Option<PublicKey>,
                            crate::errors::DiemError,
                        >(Some(cs[trm as int % cs.len() as int]));
                    lemma_sorted_distinct_unique(cs1, cs2);
                }
            },
            None => (),
        }
    }
}

} // verus!
