//! Protocol messages: blocks, votes, timeouts and the two certificate kinds,
//! with their hashed identities and validity rules.

use vstd::prelude::*;
use crate::committee::Committee;
use crate::errors::{DiemError, DiemResult};
use crate::types::{
    digest_of_bytes, Digest, HeightNumber, PublicKey, RoundNumber, SecretKey, Signature,
    ViewNumber,
};
use crate::wire::{
    enc_bool, enc_digest, enc_digest_list, enc_u64, put_bool, put_digest, put_digest_list,
    put_u64,
};

verus! {

/// The keys of a vote list, in order.
pub open spec fn voters_seq(votes: Seq<(PublicKey, Signature)>) -> Seq<PublicKey> {
    votes.map(|i: int, p: (PublicKey, Signature)| p.0)
}

/// View-level equality of certificates: every field agrees, the vote lists as
/// sequences.
pub open spec fn qc_eq(a: QC, b: QC) -> bool {
    &&& a.hash == b.hash
    &&& a.view == b.view
    &&& a.round == b.round
    &&& a.height == b.height
    &&& a.fallback == b.fallback
    &&& a.proposer == b.proposer
    &&& a.votes@ == b.votes@
    &&& a.next_leader == b.next_leader
}

/// View-level equality of blocks.
pub open spec fn block_eq(a: Block, b: Block) -> bool {
    &&& a.author == b.author
    &&& a.round == b.round
    &&& a.view == b.view
    &&& a.height == b.height
    &&& a.fallback == b.fallback
    &&& qc_eq(a.qc, b.qc)
    &&& a.payload@ == b.payload@
    &&& a.signature == b.signature
}

/// Whether a key sequence holds no repetition.
pub open spec fn unique_keys(s: Seq<PublicKey>) -> bool {
    forall|i: int, j: int| 0 <= i < j < s.len() ==> s[i] != s[j]
}

/// The digest a voter signs: the six-field prefix shared by a vote and the
/// certificate it feeds.
#[verifier::opaque]
pub open spec fn vote_digest_of(
    hash: Digest,
    round: RoundNumber,
    view: ViewNumber,
    height: HeightNumber,
    fallback: bool,
    block_author: PublicKey,
) -> Digest {
    digest_of_bytes(
        enc_digest(hash) + enc_u64(round) + enc_u64(view) + enc_u64(height) + enc_bool(fallback)
            + enc_u64(block_author),
    )
}

/// Computes the six-field prefix digest.
pub fn compute_vote_digest(
    hash: &Digest,
    round: RoundNumber,
    view: ViewNumber,
    height: HeightNumber,
    fallback: bool,
    block_author: PublicKey,
) -> (r: Digest)
    ensures
        r == vote_digest_of(*hash, round, view, height, fallback, block_author),
{
    let mut buf: Vec<u8> = Vec::new();
    put_digest(&mut buf, hash);
    put_u64(&mut buf, round);
    put_u64(&mut buf, view);
    put_u64(&mut buf, height);
    put_bool(&mut buf, fallback);
    put_u64(&mut buf, block_author);
    proof {
        reveal(vote_digest_of);
        assert(buf@ =~= enc_digest(*hash) + enc_u64(round) + enc_u64(view) + enc_u64(height)
            + enc_bool(fallback) + enc_u64(block_author));
    }
    Digest::of_bytes(&buf)
}

/// Copies a vote list.
pub fn copy_votes(v: &Vec<(PublicKey, Signature)>) -> (r: Vec<(PublicKey, Signature)>)
    ensures
        r@ == v@,
{
    let mut out: Vec<(PublicKey, Signature)> = Vec::new();
    let mut i: usize = 0;
    while i < v.len()
        invariant
            i <= v@.len(),
            out@ == v@.take(i as int),
        decreases v@.len() - i,
    {
        out.push(v[i]);
        proof {
            assert(out@ =~= v@.take(i + 1int));
        }
        i = i + 1;
    }
    proof {
        assert(v@.take(v@.len() as int) =~= v@);
    }
    out
}

/// Copies a digest list.
pub fn copy_digests(v: &Vec<Digest>) -> (r: Vec<Digest>)
    ensures
        r@ == v@,
{
    let mut out: Vec<Digest> = Vec::new();
    let mut i: usize = 0;
    while i < v.len()
        invariant
            i <= v@.len(),
            out@ == v@.take(i as int),
        decreases v@.len() - i,
    {
        out.push(v[i]);
        proof {
            assert(out@ =~= v@.take(i + 1int));
        }
        i = i + 1;
    }
    proof {
        assert(v@.take(v@.len() as int) =~= v@);
    }
    out
}

/// A quorum certificate: at least `2f + 1` signatures over one six-field
/// prefix, plus an optional hint naming the elected leader of the next round.
#[verifier::ext_equal]
#[derive(Clone, Debug)]
pub struct QC {
    /// Digest of the certified block.
    pub hash: Digest,
    pub view: ViewNumber,
    pub round: RoundNumber,
    pub height: HeightNumber,
    pub fallback: bool,
    /// Author of the certified block.
    pub proposer: PublicKey,
    /// One signature per distinct voter, each over the six-field prefix.
    pub votes: Vec<(PublicKey, Signature)>,
    /// Reputation hint: the leader elected for the round after this one.
    pub next_leader: Option<PublicKey>,
}

impl QC {
    /// The six-field prefix digest every vote of this certificate signs.
    pub open spec fn spec_digest(self) -> Digest {
        vote_digest_of(self.hash, self.round, self.view, self.height, self.fallback, self.proposer)
    }

    /// Computes the six-field prefix digest.
    pub fn digest(&self) -> (r: Digest)
        ensures
            r == self.spec_digest(),
    {
        compute_vote_digest(&self.hash, self.round, self.view, self.height, self.fallback,
            self.proposer)
    }

    /// Whether this value is the distinguished sentinel certificate at round
    /// 0: it points at the genesis block and every other field is zero or
    /// empty.
    pub open spec fn spec_is_genesis(self) -> bool {
        &&& self.hash == spec_genesis_hash()
        &&& self.view == 0
        &&& self.round == 0
        &&& self.height == 0
        &&& !self.fallback
        &&& self.proposer == 0
        &&& self.votes@.len() == 0
        &&& self.next_leader is None
    }

    /// Builds the genesis certificate: the sentinel at round 0, pointing at
    /// the genesis block.
    pub fn genesis() -> (r: QC)
        ensures
            r.spec_is_genesis(),
    {
        let g = Block::genesis();
        QC {
            hash: g.digest(),
            view: 0,
            round: 0,
            height: 0,
            fallback: false,
            proposer: 0,
            votes: Vec::new(),
            next_leader: None,
        }
    }

    /// An exact copy, equal to the original at the view level.
    pub fn duplicate(&self) -> (r: QC)
        ensures
            qc_eq(r, *self),
    {
        QC {
            hash: self.hash,
            view: self.view,
            round: self.round,
            height: self.height,
            fallback: self.fallback,
            proposer: self.proposer,
            votes: copy_votes(&self.votes),
            next_leader: self.next_leader,
        }
    }

    /// Certificates equal at the view level share their digest, validity and
    /// genesis status.
    pub proof fn lemma_qc_eq_congruence(a: QC, b: QC, c: Committee)
        requires
            qc_eq(a, b),
        ensures
            a.spec_digest() == b.spec_digest(),
            a.spec_is_genesis() == b.spec_is_genesis(),
            a.spec_valid(c) == b.spec_valid(c),
            a.spec_valid_or_genesis(c) == b.spec_valid_or_genesis(c),
    {
    }

    /// The voters, in the order their signatures are listed.
    pub fn voters(&self) -> (r: Vec<PublicKey>)
        ensures
            r@ == voters_seq(self.votes@),
    {
        let mut out: Vec<PublicKey> = Vec::new();
        let mut i: usize = 0;
        while i < self.votes.len()
            invariant
                i <= self.votes@.len(),
                out@ == voters_seq(self.votes@.take(i as int)),
            decreases self.votes@.len() - i,
        {
            out.push(self.votes[i].0);
            proof {
                assert(out@ =~= voters_seq(self.votes@.take(i + 1int)));
            }
            i = i + 1;
        }
        proof {
            assert(self.votes@.take(self.votes@.len() as int) =~= self.votes@);
        }
        out
    }

    /// Validity: a quorum of signatures, no voter twice, every voter a
    /// committee member, every signature over this certificate's prefix.
    pub open spec fn spec_valid(self, c: Committee) -> bool {
        &&& self.votes@.len() >= c.spec_quorum_threshold()
        &&& unique_keys(voters_seq(self.votes@))
        &&& forall|i: int|
            0 <= i < self.votes@.len() ==> c.spec_exists(#[trigger] self.votes@[i].0)
        &&& forall|i: int|
            0 <= i < self.votes@.len() ==> (#[trigger] self.votes@[i]).1.spec_verify(
                self.votes@[i].0,
                self.spec_digest(),
            )
    }

    /// Validity, with the genesis sentinel passing unconditionally.
    pub open spec fn spec_valid_or_genesis(self, c: Committee) -> bool {
        self.spec_is_genesis() || self.spec_valid(c)
    }

    /// Whether this certificate is the genesis sentinel.
    pub fn is_genesis(&self) -> (r: bool)
        ensures
            r == self.spec_is_genesis(),
    {
        let gh = Block::genesis().digest();
        self.hash.w0 == gh.w0 && self.hash.w1 == gh.w1 && self.hash.w2 == gh.w2 && self.hash.w3
            == gh.w3 && self.view == 0 && self.round == 0 && self.height == 0 && !self.fallback
            && self.proposer == 0 && self.votes.len() == 0 && self.next_leader.is_none()
    }

    /// Checks validity against a committee, distinguishing the error kinds:
    /// too few signatures, a repeated voter, a voter outside the committee, or
    /// a signature that does not verify.
    pub fn verify(&self, c: &Committee) -> (r: DiemResult<()>)
        requires
            c.wf(),
        ensures
            r is Ok <==> self.spec_valid(*c),
            self.votes@.len() < c.spec_quorum_threshold() ==> r == Err::<(), DiemError>(
                DiemError::QCRequiresQuorum,
            ),
    {
        if self.votes.len() < c.quorum_threshold() {
            return Err(DiemError::QCRequiresQuorum);
        }
        let prefix = self.digest();
        let mut i: usize = 0;
        while i < self.votes.len()
            invariant
                i <= self.votes@.len(),
                c.wf(),
                self.votes@.len() >= c.spec_quorum_threshold(),
                prefix == self.spec_digest(),
                forall|a: int, b: int| 0 <= a < b < i ==> self.votes@[a].0 != self.votes@[b].0,
                forall|a: int| 0 <= a < i ==> c.spec_exists(#[trigger] self.votes@[a].0),
                forall|a: int|
                    0 <= a < i ==> (#[trigger] self.votes@[a]).1.spec_verify(
                        self.votes@[a].0,
                        self.spec_digest(),
                    ),
            decreases self.votes@.len() - i,
        {
            let (voter, sig) = self.votes[i];
            let mut j: usize = 0;
            while j < i
                invariant
                    j <= i,
                    i < self.votes@.len(),
                    self.votes@.len() >= c.spec_quorum_threshold(),
                    voter == self.votes@[i as int].0,
                    forall|a: int| 0 <= a < j ==> self.votes@[a].0 != voter,
                decreases i - j,
            {
                if self.votes[j].0 == voter {
                    proof {
                        assert(voters_seq(self.votes@)[j as int] == self.votes@[j as int].0);
                        assert(voters_seq(self.votes@)[i as int] == self.votes@[i as int].0);
                        assert(!unique_keys(voters_seq(self.votes@)));
                    }
                    return Err(DiemError::AuthorityReuse(voter));
                }
                j = j + 1;
            }
            if !c.is_member(&voter) {
                return Err(DiemError::UnknownAuthority(voter));
            }
            if !sig.verify(voter, prefix) {
                return Err(DiemError::InvalidSignature);
            }
            i = i + 1;
        }
        Ok(())
    }
}

/// A block: the unit of the chain, carrying the certificate of its parent and
/// the digests of its payload batches.
#[verifier::ext_equal]
#[derive(Clone, Debug)]
pub struct Block {
    pub author: PublicKey,
    pub round: RoundNumber,
    pub view: ViewNumber,
    pub height: HeightNumber,
    pub fallback: bool,
    /// Certificate of the parent block.
    pub qc: QC,
    /// Digests of the payload batches this block proposes.
    pub payload: Vec<Digest>,
    /// The author's signature over the block digest.
    pub signature: Signature,
}

/// The digest of the genesis block.
pub open spec fn spec_genesis_hash() -> Digest {
    block_digest_of(0, 0, 0, 0, false, Digest::spec_zero(), Seq::empty())
}

/// A block's identity: the digest of its six hashed fields (author, round,
/// view, height, fallback, parent hash) and its payload digests.
#[verifier::opaque]
pub open spec fn block_digest_of(
    author: PublicKey,
    round: RoundNumber,
    view: ViewNumber,
    height: HeightNumber,
    fallback: bool,
    parent_hash: Digest,
    payload: Seq<Digest>,
) -> Digest {
    digest_of_bytes(
        enc_u64(author) + enc_u64(round) + enc_u64(view) + enc_u64(height) + enc_bool(fallback)
            + enc_digest(parent_hash) + enc_digest_list(payload),
    )
}

impl Block {
    /// The block's identity.
    pub open spec fn spec_digest(self) -> Digest {
        block_digest_of(self.author, self.round, self.view, self.height, self.fallback,
            self.qc.hash, self.payload@)
    }

    /// Computes the block's identity.
    pub fn digest(&self) -> (r: Digest)
        ensures
            r == self.spec_digest(),
    {
        let mut buf: Vec<u8> = Vec::new();
        put_u64(&mut buf, self.author);
        put_u64(&mut buf, self.round);
        put_u64(&mut buf, self.view);
        put_u64(&mut buf, self.height);
        put_bool(&mut buf, self.fallback);
        put_digest(&mut buf, &self.qc.hash);
        put_digest_list(&mut buf, &self.payload);
        proof {
            reveal(block_digest_of);
            assert(buf@ =~= enc_u64(self.author) + enc_u64(self.round) + enc_u64(self.view)
                + enc_u64(self.height) + enc_bool(self.fallback) + enc_digest(self.qc.hash)
                + enc_digest_list(self.payload@));
        }
        Digest::of_bytes(&buf)
    }

    /// Builds and signs a block.
    pub fn new(
        qc: QC,
        author: PublicKey,
        view: ViewNumber,
        round: RoundNumber,
        height: HeightNumber,
        fallback: bool,
        payload: Vec<Digest>,
        secret: &SecretKey,
    ) -> (r: Block)
        ensures
            r.qc == qc,
            r.author == author,
            r.view == view,
            r.round == round,
            r.height == height,
            r.fallback == fallback,
            r.payload == payload,
            r.signature.signer == secret.name,
            r.signature.content == r.spec_digest(),
    {
        let mut b = Block {
            author,
            round,
            view,
            height,
            fallback,
            qc,
            payload,
            signature: Signature { signer: 0, content: Digest::zero() },
        };
        let d = b.digest();
        b.signature = secret.sign(d);
        b
    }

    /// Whether this value is the distinguished genesis block at round 0: all
    /// fields zero, carrying the all-zero inner certificate.
    pub open spec fn spec_is_genesis(self) -> bool {
        &&& self.author == 0
        &&& self.round == 0
        &&& self.view == 0
        &&& self.height == 0
        &&& !self.fallback
        &&& self.qc.hash == Digest::spec_zero()
        &&& self.qc.view == 0
        &&& self.qc.round == 0
        &&& self.qc.height == 0
        &&& !self.qc.fallback
        &&& self.qc.proposer == 0
        &&& self.qc.votes@.len() == 0
        &&& self.qc.next_leader is None
        &&& self.payload@.len() == 0
        &&& self.signature == (Signature { signer: 0, content: Digest::spec_zero() })
    }

    /// Builds the genesis block.
    pub fn genesis() -> (r: Block)
        ensures
            r.spec_is_genesis(),
            r.spec_digest() == spec_genesis_hash(),
    {
        let r = Block {
            author: 0,
            round: 0,
            view: 0,
            height: 0,
            fallback: false,
            qc: QC {
                hash: Digest::zero(),
                view: 0,
                round: 0,
                height: 0,
                fallback: false,
                proposer: 0,
                votes: Vec::new(),
                next_leader: None,
            },
            payload: Vec::new(),
            signature: Signature { signer: 0, content: Digest::zero() },
        };
        proof {
            assert(r.payload@ =~= Seq::<Digest>::empty());
        }
        r
    }

    /// An exact copy, equal to the original at the view level.
    pub fn duplicate(&self) -> (r: Block)
        ensures
            block_eq(r, *self),
    {
        Block {
            author: self.author,
            round: self.round,
            view: self.view,
            height: self.height,
            fallback: self.fallback,
            qc: self.qc.duplicate(),
            payload: copy_digests(&self.payload),
            signature: self.signature,
        }
    }

    /// Blocks equal at the view level share their digest and validity.
    pub proof fn lemma_block_eq_congruence(a: Block, b: Block, c: Committee)
        requires
            block_eq(a, b),
        ensures
            a.spec_digest() == b.spec_digest(),
            a.spec_is_genesis() == b.spec_is_genesis(),
            a.spec_valid(c) == b.spec_valid(c),
    {
        QC::lemma_qc_eq_congruence(a.qc, b.qc, c);
    }

    /// Message-level validity of a received block: the author is a committee
    /// member, the signature covers the block digest, and the parent
    /// certificate is valid (or genesis).
    pub open spec fn spec_valid(self, c: Committee) -> bool {
        &&& c.spec_exists(self.author)
        &&& self.signature.spec_verify(self.author, self.spec_digest())
        &&& self.qc.spec_valid_or_genesis(c)
    }

    /// Checks message-level validity.
    pub fn verify(&self, c: &Committee) -> (r: DiemResult<()>)
        requires
            c.wf(),
        ensures
            r is Ok <==> self.spec_valid(*c),
    {
        if !c.is_member(&self.author) {
            return Err(DiemError::UnknownAuthority(self.author));
        }
        let d = self.digest();
        if !self.signature.verify(self.author, d) {
            return Err(DiemError::InvalidSignature);
        }
        if self.qc.is_genesis() {
            return Ok(());
        }
        match self.qc.verify(c) {
            Ok(()) => Ok(()),
            Err(e) => Err(e),
        }
    }
}

/// A vote for one block, unicast to the leader who aggregates the round.
#[verifier::ext_equal]
#[derive(Clone, Debug)]
pub struct Vote {
    /// Digest of the voted block.
    pub hash: Digest,
    pub round: RoundNumber,
    pub view: ViewNumber,
    pub height: HeightNumber,
    pub fallback: bool,
    /// Author of the voted block.
    pub block_author: PublicKey,
    /// The voter.
    pub author: PublicKey,
    /// The certificate the voted block extends; it names the vote's recipient.
    pub parent_qc: QC,
    /// The voter's signature over the six-field prefix.
    pub signature: Signature,
}

impl Vote {
    /// The six-field prefix the voter signs.
    pub open spec fn spec_digest(self) -> Digest {
        vote_digest_of(self.hash, self.round, self.view, self.height, self.fallback,
            self.block_author)
    }

    /// Computes the six-field prefix digest.
    pub fn digest(&self) -> (r: Digest)
        ensures
            r == self.spec_digest(),
    {
        compute_vote_digest(&self.hash, self.round, self.view, self.height, self.fallback,
            self.block_author)
    }

    /// Builds and signs a vote for `block`.
    pub fn new(block: &Block, author: PublicKey, secret: &SecretKey) -> (r: Vote)
        ensures
            r.hash == block.spec_digest(),
            r.round == block.round,
            r.view == block.view,
            r.height == block.height,
            r.fallback == block.fallback,
            r.block_author == block.author,
            r.author == author,
            qc_eq(r.parent_qc, block.qc),
            r.signature.signer == secret.name,
            r.signature.content == r.spec_digest(),
    {
        let hash = block.digest();
        let sig_digest = compute_vote_digest(&hash, block.round, block.view, block.height,
            block.fallback, block.author);
        Vote {
            hash,
            round: block.round,
            view: block.view,
            height: block.height,
            fallback: block.fallback,
            block_author: block.author,
            author,
            parent_qc: block.qc.duplicate(),
            signature: secret.sign(sig_digest),
        }
    }

    /// Message-level validity: the voter is a committee member and signed this
    /// vote's prefix.
    pub open spec fn spec_valid(self, c: Committee) -> bool {
        &&& c.spec_exists(self.author)
        &&& self.signature.spec_verify(self.author, self.spec_digest())
    }

    /// Checks message-level validity.
    pub fn verify(&self, c: &Committee) -> (r: DiemResult<()>)
        requires
            c.wf(),
        ensures
            r is Ok <==> self.spec_valid(*c),
            !c.spec_exists(self.author) ==> r == Err::<(), DiemError>(
                DiemError::UnknownAuthority(self.author),
            ),
            c.spec_exists(self.author) && !self.signature.spec_verify(
                self.author,
                self.spec_digest(),
            ) ==> r == Err::<(), DiemError>(DiemError::InvalidSignature),
    {
        if !c.is_member(&self.author) {
            return Err(DiemError::UnknownAuthority(self.author));
        }
        let d = self.digest();
        if !self.signature.verify(self.author, d) {
            return Err(DiemError::InvalidSignature);
        }
        Ok(())
    }
}

/// The digest a timing-out replica signs: its round and the round of the
/// highest certificate it has seen.
#[verifier::opaque]
pub open spec fn timeout_digest_of(round: RoundNumber, high_qc_round: RoundNumber) -> Digest {
    digest_of_bytes(enc_u64(round) + enc_u64(high_qc_round))
}

/// Computes a timeout digest.
pub fn compute_timeout_digest(round: RoundNumber, high_qc_round: RoundNumber) -> (r: Digest)
    ensures
        r == timeout_digest_of(round, high_qc_round),
{
    let mut buf: Vec<u8> = Vec::new();
    put_u64(&mut buf, round);
    put_u64(&mut buf, high_qc_round);
    proof {
        reveal(timeout_digest_of);
        assert(buf@ =~= enc_u64(round) + enc_u64(high_qc_round));
    }
    Digest::of_bytes(&buf)
}

/// A timeout: a replica's declaration that its round expired, carrying the
/// highest certificate it has adopted.
#[verifier::ext_equal]
#[derive(Clone, Debug)]
pub struct Timeout {
    pub high_qc: QC,
    pub round: RoundNumber,
    pub author: PublicKey,
    pub signature: Signature,
}

impl Timeout {
    /// The digest the timing-out replica signs.
    pub open spec fn spec_digest(self) -> Digest {
        timeout_digest_of(self.round, self.high_qc.round)
    }

    /// Computes the signed digest.
    pub fn digest(&self) -> (r: Digest)
        ensures
            r == self.spec_digest(),
    {
        compute_timeout_digest(self.round, self.high_qc.round)
    }

    /// Builds and signs a timeout.
    pub fn new(high_qc: QC, round: RoundNumber, author: PublicKey, secret: &SecretKey) -> (r:
        Timeout)
        ensures
            r.high_qc == high_qc,
            r.round == round,
            r.author == author,
            r.signature.signer == secret.name,
            r.signature.content == r.spec_digest(),
    {
        let d = compute_timeout_digest(round, high_qc.round);
        Timeout { high_qc, round, author, signature: secret.sign(d) }
    }

    /// Message-level validity: the author is a committee member, signed this
    /// timeout, and its embedded certificate is valid (or genesis).
    pub open spec fn spec_valid(self, c: Committee) -> bool {
        &&& c.spec_exists(self.author)
        &&& self.signature.spec_verify(self.author, self.spec_digest())
        &&& self.high_qc.spec_valid_or_genesis(c)
    }

    /// Checks message-level validity.
    pub fn verify(&self, c: &Committee) -> (r: DiemResult<()>)
        requires
            c.wf(),
        ensures
            r is Ok <==> self.spec_valid(*c),
    {
        if !c.is_member(&self.author) {
            return Err(DiemError::UnknownAuthority(self.author));
        }
        let d = self.digest();
        if !self.signature.verify(self.author, d) {
            return Err(DiemError::InvalidSignature);
        }
        if self.high_qc.is_genesis() {
            return Ok(());
        }
        match self.high_qc.verify(c) {
            Ok(()) => Ok(()),
            Err(e) => Err(e),
        }
    }
}

/// A timeout certificate: a quorum of signed timeouts for one round. Each
/// entry records the voter, its signature, and the round of the highest
/// certificate that voter had seen.
#[verifier::ext_equal]
#[derive(Clone, Debug)]
pub struct TC {
    pub round: RoundNumber,
    pub entries: Vec<(PublicKey, Signature, RoundNumber)>,
}

/// The keys of a timeout-certificate entry list, in order.
pub open spec fn tc_voters_seq(s: Seq<(PublicKey, Signature, RoundNumber)>) -> Seq<PublicKey> {
    s.map(|i: int, e: (PublicKey, Signature, RoundNumber)| e.0)
}

impl TC {
    /// Validity: a quorum of entries, no voter twice, every voter a committee
    /// member, every signature over this round and the entry's certificate
    /// round.
    pub open spec fn spec_valid(self, c: Committee) -> bool {
        &&& self.entries@.len() >= c.spec_quorum_threshold()
        &&& unique_keys(tc_voters_seq(self.entries@))
        &&& forall|i: int|
            0 <= i < self.entries@.len() ==> c.spec_exists(#[trigger] self.entries@[i].0)
        &&& forall|i: int|
            0 <= i < self.entries@.len() ==> (#[trigger] self.entries@[i]).1.spec_verify(
                self.entries@[i].0,
                timeout_digest_of(self.round, self.entries@[i].2),
            )
    }

    /// Checks validity against a committee.
    pub fn verify(&self, c: &Committee) -> (r: DiemResult<()>)
        requires
            c.wf(),
        ensures
            r is Ok <==> self.spec_valid(*c),
            self.entries@.len() < c.spec_quorum_threshold() ==> r == Err::<(), DiemError>(
                DiemError::QCRequiresQuorum,
            ),
    {
        if self.entries.len() < c.quorum_threshold() {
            return Err(DiemError::QCRequiresQuorum);
        }
        let mut i: usize = 0;
        while i < self.entries.len()
            invariant
                i <= self.entries@.len(),
                c.wf(),
                self.entries@.len() >= c.spec_quorum_threshold(),
                forall|a: int, b: int| 0 <= a < b < i ==> self.entries@[a].0 != self.entries@[b].0,
                forall|a: int| 0 <= a < i ==> c.spec_exists(#[trigger] self.entries@[a].0),
                forall|a: int|
                    0 <= a < i ==> (#[trigger] self.entries@[a]).1.spec_verify(
                        self.entries@[a].0,
                        timeout_digest_of(self.round, self.entries@[a].2),
                    ),
            decreases self.entries@.len() - i,
        {
            let (voter, sig, hq_round) = self.entries[i];
            let mut j: usize = 0;
            while j < i
                invariant
                    j <= i,
                    i < self.entries@.len(),
                    self.entries@.len() >= c.spec_quorum_threshold(),
                    voter == self.entries@[i as int].0,
                    forall|a: int| 0 <= a < j ==> self.entries@[a].0 != voter,
                decreases i - j,
            {
                if self.entries[j].0 == voter {
                    proof {
                        assert(tc_voters_seq(self.entries@)[j as int] == self.entries@[j as int].0);
                        assert(tc_voters_seq(self.entries@)[i as int] == self.entries@[i as int].0);
                        assert(!unique_keys(tc_voters_seq(self.entries@)));
                    }
                    return Err(DiemError::AuthorityReuse(voter));
                }
                j = j + 1;
            }
            if !c.is_member(&voter) {
                return Err(DiemError::UnknownAuthority(voter));
            }
            let d = compute_timeout_digest(self.round, hq_round);
            if !sig.verify(voter, d) {
                return Err(DiemError::InvalidSignature);
            }
            i = i + 1;
        }
        Ok(())
    }
}

/// The message variants the core consumes and emits on the wire.
#[verifier::ext_equal]
#[derive(Clone, Debug)]
pub enum CoreMessage {
    Propose(Block),
    Vote(Vote),
    Timeout(Timeout),
    /// A request for the block with the given digest, naming the requester.
    SyncRequest(Digest, PublicKey),
    SyncReply(Block),
}

} // verus!
